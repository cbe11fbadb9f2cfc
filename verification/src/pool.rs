use vstd::prelude::*;
use vstd::utf8::decode_utf8;
use vstd::utf8::valid_utf8;
use crate::error::yields;
use crate::error::DecodeError;
use crate::utils::bytes_at;
use crate::utils::read_offset;
use crate::utils::Cursor;

verus! {

/// The size of the fixed file header. Every pool offset stored in a file
/// counts from the byte that follows this header.
pub const POOL_BASE: u64 = 0x10;

/// The test that a character passes when it differs from `unwanted`.
pub open spec fn differs_from(unwanted: char) -> spec_fn(char) -> bool {
    |c: char| c != unwanted
}

/// `s` without the characters equal to `unwanted`, the others in their order.
pub open spec fn without_char(s: Seq<char>, unwanted: char) -> Seq<char> {
    s.filter(differs_from(unwanted))
}

/// `s` without its NUL characters, the others in their order.
pub open spec fn strip_nul(s: Seq<char>) -> Seq<char> {
    without_char(s, '\0')
}

/// The text that the bytes of a pool entry stand for: their UTF-8 decoding
/// without its NUL characters.
pub open spec fn text_of(bytes: Seq<u8>) -> Result<Seq<char>, DecodeError> {
    if valid_utf8(bytes) {
        Ok(strip_nul(decode_utf8(bytes)))
    } else {
        Err(DecodeError::InvalidEncoding)
    }
}

/// The strings of a sequence as sequences of characters, in their order.
pub open spec fn texts(values: Seq<String>) -> Seq<Seq<char>> {
    Seq::new(values.len(), |i: int| values[i]@)
}

/// The absolute position of the pool entry with the relative offset `rel`.
pub open spec fn pool_position(rel: u32) -> int {
    POOL_BASE as int + rel as int
}

/// The text of the pool entry of `len` bytes with the relative offset `rel`
/// in the file `data`.
pub open spec fn pool_text(data: Seq<u8>, rel: u32, len: u32) -> Result<Seq<char>, DecodeError> {
    match bytes_at(data, pool_position(rel), len as int) {
        Ok(bytes) => text_of(bytes),
        Err(e) => Err(e),
    }
}

/// Calls `String::from_utf8`. Trusted: the call succeeds exactly on valid
/// UTF-8, and the string it returns then holds the characters that the bytes
/// encode.
#[verifier::external_body]
fn string_from_utf8(bytes: Vec<u8>) -> (r: Option<String>)
    ensures
        r is Some <==> valid_utf8(bytes@),
        r matches Some(s) ==> s@ == decode_utf8(bytes@),
{
    match String::from_utf8(bytes) {
        Ok(s) => Some(s),
        Err(_) => None,
    }
}

/// Calls `str::replace` with a character as the pattern and the empty string
/// as the replacement. Trusted: the result holds the characters of `s` that
/// differ from `unwanted`, in their order.
#[verifier::external_body]
fn remove_char(s: &str, unwanted: char) -> (r: String)
    ensures
        r@ == without_char(s@, unwanted),
{
    s.replace(unwanted, "")
}

/// Decodes the bytes of a pool entry: the bytes must be valid UTF-8, and the
/// NUL characters that pad an entry are dropped from the text.
pub fn decode_text(bytes: Vec<u8>) -> (r: Result<String, DecodeError>)
    ensures
        yields(r, text_of(bytes@)),
{
    match string_from_utf8(bytes) {
        Some(s) => Ok(remove_char(s.as_str(), '\0')),
        None => Err(DecodeError::InvalidEncoding),
    }
}

/// Reads the pool entry of `len` bytes with the relative offset `rel` and
/// decodes it. The cursor stays where it was.
pub fn read_string(f: &mut Cursor, rel: u32, len: u32) -> (r: Result<String, DecodeError>)
    ensures
        final(f).bytes() == old(f).bytes(),
        final(f).offset() == old(f).offset(),
        yields(r, pool_text(old(f).bytes(), rel, len)),
{
    match read_offset(f, POOL_BASE + rel as u64, len as usize) {
        Ok(bytes) => decode_text(bytes),
        Err(e) => Err(e),
    }
}

/// No NUL character is left in stripped text.
pub proof fn lemma_strip_nul_leaves_none(s: Seq<char>)
    ensures
        forall|i: int| 0 <= i < strip_nul(s).len() ==> strip_nul(s)[i] != '\0',
{
    assert forall|i: int| 0 <= i < strip_nul(s).len() implies strip_nul(s)[i] != '\0' by {
        s.lemma_filter_pred(differs_from('\0'), i);
    }
}

/// Stripping leaves a text without NUL characters as it is.
pub proof fn lemma_strip_nul_keeps_clean_text(s: Seq<char>)
    requires
        forall|i: int| 0 <= i < s.len() ==> s[i] != '\0',
    ensures
        strip_nul(s) == s,
    decreases s.len(),
{
    reveal(Seq::filter);
    if s.len() > 0 {
        lemma_strip_nul_keeps_clean_text(s.drop_last());
        assert(s.drop_last().push(s.last()) =~= s);
    }
}

/// Stripping a text of NUL characters alone leaves nothing.
pub proof fn lemma_strip_nul_drops_padding(s: Seq<char>)
    requires
        forall|i: int| 0 <= i < s.len() ==> s[i] == '\0',
    ensures
        strip_nul(s) == Seq::<char>::empty(),
    decreases s.len(),
{
    reveal(Seq::filter);
    if s.len() > 0 {
        lemma_strip_nul_drops_padding(s.drop_last());
    }
}

/// Stripping works piece by piece: the stripped form of two texts in a row
/// is the stripped forms of the two in a row.
pub proof fn lemma_strip_nul_of_parts(a: Seq<char>, b: Seq<char>)
    ensures
        strip_nul(a + b) == strip_nul(a) + strip_nul(b),
{
    Seq::filter_distributes_over_add(a, b, differs_from('\0'));
}

} // verus!
