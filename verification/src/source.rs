use vstd::prelude::*;

verus! {

/// The number of bytes in the UTF-8 encoding of `c`.
pub open spec fn utf8_width(c: char) -> nat {
    if (c as u32) < 0x80 {
        1
    } else if (c as u32) < 0x800 {
        2
    } else if (c as u32) < 0x10000 {
        3
    } else {
        4
    }
}

/// The byte offset, in the UTF-8 encoding of `s`, of the character at index `k`.
pub open spec fn byte_offset(s: Seq<char>, k: int) -> nat
    decreases k,
{
    if k <= 0 {
        0
    } else {
        byte_offset(s, k - 1) + utf8_width(s[k - 1])
    }
}

/// The characters of `s` in order, each with its byte offset.
pub open spec fn char_table(s: Seq<char>) -> Seq<(usize, char)> {
    Seq::new(s.len(), |k: int| (byte_offset(s, k) as usize, s[k]))
}

/// Calls `str::char_indices`: std documents that it yields each character of
/// the string in order together with the byte position where it starts.
#[verifier::external_body]
pub(crate) fn char_indices(s: &str) -> (r: Vec<(usize, char)>)
    ensures
        r@ == char_table(s@),
{
    s.char_indices().collect()
}

/// Calls `str::len`, which std documents as the length of the string in
/// bytes: the length of its UTF-8 encoding. (vstd's own contract for
/// `str::len` gives that length only as cast to `usize`; the length of a
/// string in memory always fits, and the tokenizer needs it exactly.)
#[verifier::external_body]
pub(crate) fn byte_length(s: &str) -> (r: usize)
    ensures
        r as nat == vstd::utf8::encode_utf8(s@).len(),
{
    s.len()
}

/// A character's UTF-8 encoding is `utf8_width` bytes long.
pub proof fn lemma_scalar_width(c: char)
    ensures
        vstd::utf8::encode_scalar(c as u32).len() == utf8_width(c),
{
    vstd::utf8::char_is_scalar(c);
}

/// Byte offsets grow by at least one per character.
pub proof fn lemma_byte_offset_grows(s: Seq<char>, j: int, k: int)
    requires
        0 <= j <= k,
    ensures
        byte_offset(s, j) + (k - j) <= byte_offset(s, k),
    decreases k - j,
{
    if j < k {
        lemma_byte_offset_grows(s, j, k - 1);
    }
}

/// Offsets counted in `s` are the first character's width plus the offsets
/// counted in the rest.
pub proof fn lemma_byte_offset_drop_first(s: Seq<char>, n: int)
    requires
        1 <= n <= s.len(),
    ensures
        byte_offset(s, n) == utf8_width(s[0]) + byte_offset(s.drop_first(), n - 1),
    decreases n,
{
    if n > 1 {
        lemma_byte_offset_drop_first(s, n - 1);
        assert(s.drop_first()[n - 2] == s[n - 1]);
        assert(byte_offset(s.drop_first(), n - 1) == byte_offset(s.drop_first(), n - 2)
            + utf8_width(s[n - 1]));
    } else {
        assert(byte_offset(s, 1) == byte_offset(s, 0) + utf8_width(s[0]));
    }
}

/// The offset past the last character is the length of the encoding.
pub proof fn lemma_encoding_length(s: Seq<char>)
    ensures
        vstd::utf8::encode_utf8(s).len() == byte_offset(s, s.len() as int),
    decreases s.len(),
{
    if s.len() > 0 {
        lemma_scalar_width(s[0]);
        lemma_encoding_length(s.drop_first());
        lemma_byte_offset_drop_first(s, s.len() as int);
    }
}

} // verus!
