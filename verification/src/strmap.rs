use vstd::prelude::*;
use vstd::utf8::encode_utf8;
use vstd::utf8::encode_utf8_decode_utf8;
use vstd::string::StringSliceAdditionalSpecFns;

verus! {

/// Whether two string slices hold the same characters.
pub fn str_eq(a: &str, b: &str) -> (same: bool)
    ensures
        same == (a@ == b@),
{
    let x = a.as_bytes();
    let y = b.as_bytes();
    proof {
        encode_utf8_decode_utf8(a@);
        encode_utf8_decode_utf8(b@);
    }
    if x.len() != y.len() {
        return false;
    }
    let mut i: usize = 0;
    while i < x.len()
        invariant
            i <= x.len(),
            x.len() == y.len(),
            x@ == encode_utf8(a@),
            y@ == encode_utf8(b@),
            forall|j: int| 0 <= j < i ==> x@[j] == y@[j],
        decreases x.len() - i,
    {
        if x[i] != y[i] {
            return false;
        }
        i = i + 1;
    }
    assert(x@ =~= y@);
    true
}

/// Whether no two pairs of `s` have the same key.
spec fn distinct_keys<V>(s: Seq<(String, V)>) -> bool {
    forall|i: int, j: int| 0 <= i < j < s.len() ==> (#[trigger] s[i]).0@ != (#[trigger] s[j]).0@
}

/// The map that holds each pair of `s`, a later pair taking the place of an
/// earlier one with the same key.
spec fn map_of<V: View>(s: Seq<(String, V)>) -> Map<Seq<char>, V::V>
    decreases s.len(),
{
    if s.len() == 0 {
        Map::empty()
    } else {
        map_of(s.drop_last()).insert(s.last().0@, s.last().1@)
    }
}

/// The keys of the pairs of `s`, in their order.
spec fn keys_of<V>(s: Seq<(String, V)>) -> Seq<Seq<char>> {
    Seq::new(s.len(), |i: int| s[i].0@)
}

/// With distinct keys, the map of a sequence of pairs holds exactly those
/// pairs, and as many entries as the sequence has pairs.
proof fn lemma_map_of<V: View>(s: Seq<(String, V)>)
    requires
        distinct_keys(s),
    ensures
        map_of(s).dom().finite(),
        map_of(s).len() == s.len(),
        forall|i: int|
            0 <= i < s.len() ==> map_of(s).contains_key((#[trigger] s[i]).0@) && map_of(s)[s[i].0@]
                == s[i].1@,
        forall|k: Seq<char>| #[trigger]
            map_of(s).contains_key(k) ==> exists|i: int|
                0 <= i < s.len() && (#[trigger] s[i]).0@ == k,
    decreases s.len(),
{
    if s.len() > 0 {
        let front = s.drop_last();
        let key = s.last().0@;
        assert(distinct_keys(front)) by {
            assert forall|i: int, j: int| 0 <= i < j < front.len() implies (#[trigger] front[i]).0@
                != (#[trigger] front[j]).0@ by {
                assert(front[i] == s[i]);
                assert(front[j] == s[j]);
            }
        }
        lemma_map_of(front);
        assert(!map_of(front).contains_key(key)) by {
            if map_of(front).contains_key(key) {
                let i = choose|i: int| 0 <= i < front.len() && (#[trigger] front[i]).0@ == key;
                assert(front[i] == s[i]);
                assert(s[s.len() - 1] == s.last());
            }
        }
        assert forall|i: int| 0 <= i < s.len() implies map_of(s).contains_key(
            (#[trigger] s[i]).0@,
        ) && map_of(s)[s[i].0@] == s[i].1@ by {
            if i < s.len() - 1 {
                assert(front[i] == s[i]);
            }
        }
        assert forall|k: Seq<char>| #[trigger] map_of(s).contains_key(k) implies exists|i: int|
            0 <= i < s.len() && (#[trigger] s[i]).0@ == k by {
            if k == key {
                assert(s[s.len() - 1].0@ == k);
            } else {
                let i = choose|i: int| 0 <= i < front.len() && (#[trigger] front[i]).0@ == k;
                assert(s[i] == front[i]);
            }
        }
    }
}

/// Whether `keys` and `values` list exactly what the map `m` holds, each
/// key once and each value at the place of its key.
pub open spec fn lists<T>(keys: Seq<Seq<char>>, values: Seq<T>, m: Map<Seq<char>, T>) -> bool {
    &&& keys.len() == values.len()
    &&& keys.no_duplicates()
    &&& forall|i: int|
        0 <= i < keys.len() ==> m.contains_key(#[trigger] keys[i]) && m[keys[i]] == values[i]
    &&& forall|k: Seq<char>| #[trigger] m.contains_key(k) ==> keys.contains(k)
}

/// A map from strings to values, held as a list of pairs with distinct keys.
/// The order in which the pairs are held carries no meaning.
#[derive(Debug)]
pub struct StrMap<V> {
    entries: Vec<(String, V)>,
}

impl<V: View> View for StrMap<V> {
    type V = Map<Seq<char>, V::V>;

    closed spec fn view(&self) -> Map<Seq<char>, V::V> {
        map_of(self.entries@)
    }
}

impl<V> StrMap<V> {
    #[verifier::type_invariant]
    spec fn keys_are_distinct(self) -> bool {
        distinct_keys(self.entries@)
    }

    /// The keys in the order in which `entry_at` hands them out.
    pub closed spec fn keys(&self) -> Seq<Seq<char>> {
        keys_of(self.entries@)
    }
}

impl<V: View> StrMap<V> {
    /// The values, by their views, in the order in which `entry_at` hands them out.
    pub closed spec fn values(&self) -> Seq<V::V> {
        Seq::new(self.entries@.len(), |i: int| self.entries@[i].1@)
    }

    /// Whether `keys` and `values` list exactly what the map holds, each
    /// key once, and the map holds as many entries as they list.
    pub open spec fn listed(&self) -> bool {
        &&& lists(self.keys(), self.values(), self@)
        &&& self@.dom().finite()
        &&& self@.len() == self.keys().len()
    }

    proof fn lemma_listed(&self)
        requires
            distinct_keys(self.entries@),
        ensures
            self.listed(),
    {
        let s = self.entries@;
        lemma_map_of(s);
        assert forall|i: int, j: int|
            0 <= i < self.keys().len() && 0 <= j < self.keys().len() && i != j implies self.keys()[i]
            != self.keys()[j] by {
            if i < j {
                assert(s[i].0@ != s[j].0@);
            } else {
                assert(s[j].0@ != s[i].0@);
            }
        }
        assert forall|k: Seq<char>| #[trigger] self@.contains_key(k) implies self.keys().contains(
            k,
        ) by {
            let i = choose|i: int| 0 <= i < s.len() && (#[trigger] s[i]).0@ == k;
            assert(self.keys()[i] == k);
        }
        assert forall|i: int| 0 <= i < self.keys().len() implies self@.contains_key(
            #[trigger] self.keys()[i],
        ) && self@[self.keys()[i]] == self.values()[i] by {
            assert(s[i].0@ == self.keys()[i]);
        }
    }

    /// An empty map.
    pub fn new() -> (m: Self)
        ensures
            m@ == Map::<Seq<char>, V::V>::empty(),
    {
        StrMap { entries: Vec::new() }
    }

    /// The number of entries.
    pub fn len(&self) -> (n: usize)
        ensures
            self.listed(),
            n == self@.len(),
    {
        proof {
            use_type_invariant(self);
            self.lemma_listed();
        }
        self.entries.len()
    }

    /// Whether the map holds no entry.
    pub fn is_empty(&self) -> (empty: bool)
        ensures
            empty == (self@ == Map::<Seq<char>, V::V>::empty()),
    {
        proof {
            use_type_invariant(self);
            lemma_map_of(self.entries@);
            if self.entries@.len() > 0 {
                assert(self@.contains_key(self.entries@[0].0@));
            }
        }
        self.entries.len() == 0
    }

    fn find(&self, key: &str) -> (at: Option<usize>)
        ensures
            match at {
                Some(i) => i < self.entries@.len() && self.entries@[i as int].0@ == key@,
                None => forall|j: int| 0 <= j < self.entries@.len() ==> (#[trigger] self.entries@[j]).0@ != key@,
            },
    {
        let mut i: usize = 0;
        while i < self.entries.len()
            invariant
                i <= self.entries@.len(),
                forall|j: int| 0 <= j < i ==> (#[trigger] self.entries@[j]).0@ != key@,
            decreases self.entries@.len() - i,
        {
            if str_eq(self.entries[i].0.as_str(), key) {
                return Some(i);
            }
            i = i + 1;
        }
        None
    }

    /// Whether the map holds an entry for `key`.
    pub fn contains_key(&self, key: &str) -> (found: bool)
        ensures
            found == self@.contains_key(key@),
    {
        proof {
            use_type_invariant(self);
            lemma_map_of(self.entries@);
        }
        self.find(key).is_some()
    }

    /// The value stored for `key`, if there is one.
    pub fn get(&self, key: &str) -> (value: Option<&V>)
        ensures
            match value {
                Some(v) => self@.contains_key(key@) && self@[key@] == v@,
                None => !self@.contains_key(key@),
            },
    {
        proof {
            use_type_invariant(self);
            lemma_map_of(self.entries@);
        }
        match self.find(key) {
            Some(i) => Some(&self.entries[i].1),
            None => None,
        }
    }

    /// Stores `value` for `key`, in place of the value that the key had, and
    /// returns that earlier value.
    pub fn insert(&mut self, key: String, value: V) -> (earlier: Option<V>)
        ensures
            final(self)@ == old(self)@.insert(key@, value@),
            match earlier {
                Some(v) => old(self)@.contains_key(key@) && old(self)@[key@] == v@,
                None => !old(self)@.contains_key(key@),
            },
    {
        proof {
            use_type_invariant(&*self);
            lemma_map_of(self.entries@);
        }
        let ghost before = self.entries@;
        let at = self.find(key.as_str());
        let mut entries: Vec<(String, V)> = Vec::new();
        core::mem::swap(&mut self.entries, &mut entries);
        let earlier = match at {
            Some(i) => {
                let pair = entries.swap_remove(i);
                proof {
                    lemma_without(before, i as int, entries@);
                }
                Some(pair.1)
            },
            None => None,
        };
        let ghost rest = entries@;
        assert(distinct_keys(rest.push((key, value)))) by {
            let s = rest.push((key, value));
            lemma_map_of(rest);
            assert forall|i: int, j: int| 0 <= i < j < s.len() implies (#[trigger] s[i]).0@ != (
            #[trigger] s[j]).0@ by {
                if j < rest.len() {
                    assert(s[i] == rest[i] && s[j] == rest[j]);
                } else {
                    assert(s[i] == rest[i]);
                }
            }
        }
        entries.push((key, value));
        proof {
            assert(entries@.drop_last() =~= rest);
            assert(map_of(entries@) =~= map_of(before).insert(key@, value@));
        }
        self.entries = entries;
        earlier
    }

    /// Takes the entry for `key` out of the map and returns its value.
    pub fn remove(&mut self, key: &str) -> (taken: Option<V>)
        ensures
            final(self)@ == old(self)@.remove(key@),
            match taken {
                Some(v) => old(self)@.contains_key(key@) && old(self)@[key@] == v@,
                None => !old(self)@.contains_key(key@),
            },
    {
        proof {
            use_type_invariant(&*self);
            lemma_map_of(self.entries@);
        }
        let ghost before = self.entries@;
        match self.find(key) {
            Some(i) => {
                let mut entries: Vec<(String, V)> = Vec::new();
                core::mem::swap(&mut self.entries, &mut entries);
                let pair = entries.swap_remove(i);
                proof {
                    lemma_without(before, i as int, entries@);
                }
                self.entries = entries;
                Some(pair.1)
            },
            None => {
                assert(self@ =~= old(self)@.remove(key@));
                None
            },
        }
    }

    /// Takes one entry out of the map, unless the map is empty.
    pub fn pop(&mut self) -> (taken: Option<(String, V)>)
        ensures
            match taken {
                Some((k, v)) => old(self)@.contains_key(k@) && old(self)@[k@] == v@ && final(self)@
                    == old(self)@.remove(k@),
                None => old(self)@ == Map::<Seq<char>, V::V>::empty() && final(self)@ == old(self)@,
            },
            final(self)@.dom().finite(),
            old(self)@.dom().finite(),
            taken is Some ==> final(self)@.len() < old(self)@.len(),
    {
        proof {
            use_type_invariant(&*self);
            lemma_map_of(self.entries@);
        }
        let ghost before = self.entries@;
        let n = self.entries.len();
        if n == 0 {
            return None;
        }
        let mut entries: Vec<(String, V)> = Vec::new();
        core::mem::swap(&mut self.entries, &mut entries);
        let pair = entries.swap_remove(n - 1);
        proof {
            lemma_without(before, n - 1, entries@);
            lemma_map_of(entries@);
        }
        self.entries = entries;
        Some(pair)
    }

    /// Moves every entry of `other` into the map; where both hold a key,
    /// the value of `other` stays.
    pub fn absorb(&mut self, other: StrMap<V>)
        ensures
            final(self)@ == old(self)@.union_prefer_right(other@),
    {
        let mut other = other;
        let ghost source = other@;
        loop
            invariant
                self@.union_prefer_right(other@) == old(self)@.union_prefer_right(source),
            ensures
                self@ == old(self)@.union_prefer_right(source),
            decreases other@.len(),
        {
            let ghost here = self@;
            let ghost left = other@;
            match other.pop() {
                Some((k, v)) => {
                    self.insert(k, v);
                    assert(self@.union_prefer_right(other@) =~= here.union_prefer_right(left));
                },
                None => {
                    assert(here.union_prefer_right(left) =~= here);
                    break;
                },
            }
        }
    }

    /// The key and the value at place `i` of the listing, for `i` below the
    /// number of entries.
    pub fn entry_at(&self, i: usize) -> (entry: Option<(&String, &V)>)
        ensures
            self.listed(),
            match entry {
                Some((k, v)) => i < self.keys().len() && k@ == self.keys()[i as int] && v@
                    == self.values()[i as int],
                None => i >= self.keys().len(),
            },
    {
        proof {
            use_type_invariant(self);
            self.lemma_listed();
        }
        if i < self.entries.len() {
            Some((&self.entries[i].0, &self.entries[i].1))
        } else {
            None
        }
    }
}

/// The map that results from inserting each key of `keys` with the value at
/// the same place of `values`, in order.
pub open spec fn map_of_listing<T>(keys: Seq<Seq<char>>, values: Seq<T>) -> Map<Seq<char>, T>
    decreases keys.len(),
{
    if keys.len() == 0 || values.len() == 0 {
        Map::empty()
    } else {
        map_of_listing(keys.drop_last(), values.drop_last()).insert(keys.last(), values.last())
    }
}

/// A listing loses nothing: where `keys` and `values` list what a map
/// holds, each key once, inserting the listed entries into an empty map
/// gives the map again.
pub proof fn lemma_listing_rebuilds<T>(keys: Seq<Seq<char>>, values: Seq<T>, m: Map<Seq<char>, T>)
    requires
        lists(keys, values, m),
    ensures
        map_of_listing(keys, values) == m,
    decreases keys.len(),
{
    if keys.len() == 0 {
        assert(m =~= Map::empty());
    } else {
        let key = keys.last();
        let rest = m.remove(key);
        let front = keys.drop_last();
        assert forall|i: int| 0 <= i < front.len() implies rest.contains_key(#[trigger] front[i])
            && rest[front[i]] == values.drop_last()[i] by {
            assert(front[i] == keys[i]);
            assert(keys[i] != keys[keys.len() - 1]);
        }
        assert forall|k: Seq<char>| #[trigger] rest.contains_key(k) implies front.contains(k) by {
            assert(m.contains_key(k));
            let i = choose|i: int| 0 <= i < keys.len() && keys[i] == k;
            assert(front[i] == k);
        }
        assert(front.no_duplicates());
        lemma_listing_rebuilds(front, values.drop_last(), rest);
        assert(m.contains_key(keys[keys.len() - 1]));
        assert(rest.insert(key, values.last()) =~= m);
    }
}

/// Taking the pair at place `i` out of a sequence with distinct keys, by
/// moving the last pair into its place, takes the pair's key out of the map.
proof fn lemma_without<V: View>(s: Seq<(String, V)>, i: int, t: Seq<(String, V)>)
    requires
        distinct_keys(s),
        0 <= i < s.len(),
        t == s.update(i, s.last()).drop_last(),
    ensures
        distinct_keys(t),
        map_of(t) == map_of(s).remove(s[i].0@),
{
    assert forall|a: int, b: int| 0 <= a < b < t.len() implies (#[trigger] t[a]).0@ != (
    #[trigger] t[b]).0@ by {
        let x = if a == i { s.len() - 1 } else { a };
        let y = if b == i { s.len() - 1 } else { b };
        assert(t[a] == s[x] && t[b] == s[y]);
        if x < y {
            assert(s[x].0@ != s[y].0@);
        } else {
            assert(s[y].0@ != s[x].0@);
        }
    }
    lemma_map_of(s);
    lemma_map_of(t);
    let want = map_of(s).remove(s[i].0@);
    assert forall|k: Seq<char>| map_of(t).contains_key(k) <==> want.contains_key(k) by {
        if map_of(t).contains_key(k) {
            let a = choose|a: int| 0 <= a < t.len() && (#[trigger] t[a]).0@ == k;
            let x = if a == i { s.len() - 1 } else { a };
            assert(t[a] == s[x]);
            if x < i {
                assert(s[x].0@ != s[i].0@);
            } else {
                assert(s[i].0@ != s[x].0@);
            }
        }
        if want.contains_key(k) {
            let x = choose|x: int| 0 <= x < s.len() && (#[trigger] s[x]).0@ == k;
            let a = if x == s.len() - 1 { i } else { x };
            assert(t[a] == s[x]);
        }
    }
    assert forall|k: Seq<char>| map_of(t).contains_key(k) implies map_of(t)[k] == want[k] by {
        let a = choose|a: int| 0 <= a < t.len() && (#[trigger] t[a]).0@ == k;
        let x = if a == i { s.len() - 1 } else { a };
        assert(t[a] == s[x]);
    }
    assert(map_of(t) =~= want);
}

} // verus!
