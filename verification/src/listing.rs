//! The names that a viewer shows: those that pass a search filter, in
//! ascending order.

use vstd::prelude::*;
use itertools::Itertools;
use crate::pool::texts;
use crate::strmap::StrMap;

verus! {

/// Whether `a` comes before `b`, or equals it, in the order of strings:
/// the first character in which they differ decides, by its code point, and
/// a string comes before every string that it starts.
pub open spec fn text_le(a: Seq<char>, b: Seq<char>) -> bool
    decreases a.len(),
{
    if a.len() == 0 {
        true
    } else if b.len() == 0 {
        false
    } else if a[0] != b[0] {
        (a[0] as u32) < (b[0] as u32)
    } else {
        text_le(a.drop_first(), b.drop_first())
    }
}

/// Whether the names stand in ascending order.
pub open spec fn ascending(names: Seq<Seq<char>>) -> bool {
    forall|i: int, j: int| 0 <= i <= j < names.len() ==> text_le(names[i], names[j])
}

/// Whether `needle` occurs in `hay` as a run of adjacent characters.
pub open spec fn contains_text(hay: Seq<char>, needle: Seq<char>) -> bool {
    exists|i: int|
        0 <= i && i + needle.len() <= hay.len() && #[trigger] hay.subrange(i, i + needle.len())
            == needle
}

/// The lower-case form of a string, as `str::to_lowercase` gives it.
pub uninterp spec fn lowercase(s: Seq<char>) -> Seq<char>;

/// Whether a name whose lower-case form is `lowered` passes the search
/// filter: every name passes the empty filter, and another filter is passed
/// by the names in whose lower-case form it occurs.
pub open spec fn passes_lowered(lowered: Seq<char>, filter: Seq<char>) -> bool {
    filter.len() == 0 || contains_text(lowered, filter)
}

/// Whether `name` passes the search filter.
pub open spec fn passes(name: Seq<char>, filter: Seq<char>) -> bool {
    passes_lowered(lowercase(name), filter)
}

/// Calls `str::to_lowercase`. Trusted: the result is a function of the
/// characters of `s` alone; it is given the name `lowercase`.
#[verifier::external_body]
fn to_lowercase(s: &str) -> (lowered: String)
    ensures
        lowered@ == lowercase(s@),
{
    s.to_lowercase()
}

/// Calls `str::contains` with a string as the pattern. Trusted: the result
/// says whether the pattern occurs in `hay`.
#[verifier::external_body]
fn contains(hay: &str, needle: &str) -> (found: bool)
    ensures
        found == contains_text(hay@, needle@),
{
    hay.contains(needle)
}

/// Calls `Itertools::sorted` on the strings and collects what it yields.
/// Trusted: the result holds the strings that were given, each as often as
/// it was given, in the ascending order of strings.
#[verifier::external_body]
fn sorted(names: Vec<String>) -> (ordered: Vec<String>)
    ensures
        texts(ordered@).to_multiset() == texts(names@).to_multiset(),
        ascending(texts(ordered@)),
{
    names.into_iter().sorted().collect()
}

/// Whether a name with the lower-case form `lowered` passes the filter.
pub fn filter_admits(lowered: &str, filter: &str) -> (admitted: bool)
    ensures
        admitted == passes_lowered(lowered@, filter@),
{
    filter.is_empty() || contains(lowered, filter)
}

/// Whether `name` passes the filter.
pub fn matches_filter(name: &str, filter: &str) -> (admitted: bool)
    ensures
        admitted == passes(name@, filter@),
{
    if filter.is_empty() {
        true
    } else {
        let lowered = to_lowercase(name);
        filter_admits(lowered.as_str(), filter)
    }
}

/// The keys of `map` that pass the filter, each once, in ascending order.
pub fn visible_keys<V: View>(map: &StrMap<V>, filter: &str) -> (names: Vec<String>)
    ensures
        ascending(texts(names@)),
        texts(names@).no_duplicates(),
        forall|k: Seq<char>| #[trigger]
            texts(names@).contains(k) <==> map@.contains_key(k) && passes(k, filter@),
{
    let mut found: Vec<String> = Vec::new();
    let mut i: usize = 0;
    let count = map.len();
    assert(texts(found@) =~= map.keys().take(0).filter(admits(filter@)));
    while i < count
        invariant
            i <= count,
            map.listed(),
            count == map.keys().len(),
            texts(found@) == map.keys().take(i as int).filter(admits(filter@)),
        decreases count - i,
    {
        let ghost before = found@;
        match map.entry_at(i) {
            Some((key, _)) => {
                proof {
                    let shorter = map.keys().take(i as int);
                    assert(map.keys().take(i + 1) =~= shorter.push(key@));
                    shorter.lemma_filter_push(key@, admits(filter@));
                }
                if matches_filter(key.as_str(), filter) {
                    found.push(key.clone());
                    assert(texts(found@) =~= texts(before).push(key@));
                }
            },
            None => {},
        }
        i = i + 1;
    }
    let ordered = sorted(found);
    proof {
        let keys = map.keys();
        let kept = texts(found@);
        let shown = texts(ordered@);
        assert(keys.take(count as int) =~= keys);
        lemma_filter_of_distinct(keys, admits(filter@));
        kept.lemma_multiset_has_no_duplicates();
        shown.lemma_multiset_has_no_duplicates_conv();
        assert forall|k: Seq<char>| #[trigger]
            shown.contains(k) <==> map@.contains_key(k) && passes(k, filter@) by {
            kept.to_multiset_ensures();
            shown.to_multiset_ensures();
            assert(shown.contains(k) <==> kept.contains(k)) by {
                assert(shown.to_multiset().count(k) == kept.to_multiset().count(k));
            }
            if map@.contains_key(k) {
                assert(keys.contains(k));
            }
        }
    }
    ordered
}

/// The test that the names pass which pass the filter.
pub open spec fn admits(filter: Seq<char>) -> spec_fn(Seq<char>) -> bool {
    |name: Seq<char>| passes(name, filter)
}

/// Filtering a sequence without duplicates leaves no duplicates, and keeps
/// exactly the elements that pass the test.
proof fn lemma_filter_of_distinct(s: Seq<Seq<char>>, test: spec_fn(Seq<char>) -> bool)
    requires
        s.no_duplicates(),
    ensures
        s.filter(test).no_duplicates(),
        forall|k: Seq<char>| #[trigger] s.filter(test).contains(k) <==> s.contains(k) && test(k),
    decreases s.len(),
{
    reveal(Seq::filter);
    if s.len() > 0 {
        let front = s.drop_last();
        lemma_filter_of_distinct(front, test);
        assert(!front.contains(s.last())) by {
            if front.contains(s.last()) {
                let i = choose|i: int| 0 <= i < front.len() && front[i] == s.last();
                assert(s[i] == s[s.len() - 1]);
            }
        }
        let kept = front.filter(test);
        assert forall|k: Seq<char>| #[trigger]
            s.filter(test).contains(k) <==> s.contains(k) && test(k) by {
            if s.filter(test).contains(k) {
                let i = choose|i: int| 0 <= i < s.filter(test).len() && s.filter(test)[i] == k;
                if i < kept.len() {
                    assert(kept[i] == k);
                    assert(kept.contains(k));
                    let j = choose|j: int| 0 <= j < front.len() && front[j] == k;
                    assert(s[j] == k);
                } else {
                    assert(s[s.len() - 1] == k);
                }
            }
            if s.contains(k) && test(k) {
                let j = choose|j: int| 0 <= j < s.len() && s[j] == k;
                if j < front.len() {
                    assert(front[j] == k);
                    assert(kept.contains(k));
                    let i = choose|i: int| 0 <= i < kept.len() && kept[i] == k;
                    assert(s.filter(test)[i] == k);
                } else {
                    assert(s.filter(test)[kept.len() as int] == k);
                }
            }
        }
        assert forall|a: int, b: int|
            0 <= a < s.filter(test).len() && 0 <= b < s.filter(test).len() && a != b implies s.filter(
            test,
        )[a] != s.filter(test)[b] by {
            if a < kept.len() && b < kept.len() {
                assert(kept[a] != kept[b]);
            } else if a < kept.len() {
                assert(kept.contains(kept[a]));
            } else if b < kept.len() {
                assert(kept.contains(kept[b]));
            }
        }
    }
}

} // verus!
