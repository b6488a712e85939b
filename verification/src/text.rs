//! Text primitives: per-token character lists, decimal rendering and the two
//! ways a key is written out, as an owned string or as UTF-8 bytes appended
//! to a byte buffer.

use smallvec::SmallVec;
use vstd::prelude::*;
use vstd::string::*;
use vstd::utf8::*;

verus! {

/// The Unicode scalar values of a piece of text, a word or a whole line,
/// in order; kept inline while the text is short.
#[verifier::external_body]
pub struct CharList {
    inner: SmallVec<[char; 4]>,
}

/// The characters that a `CharList` holds, in order.
pub uninterp spec fn char_list_view(list: CharList) -> Seq<char>;

impl CharList {
    /// Collects the characters of `text` with `SmallVec::from_iter` over
    /// `str::chars`: the list holds exactly the characters of the text, in order.
    #[verifier::external_body]
    pub(crate) fn of(text: &str) -> (list: CharList)
        ensures
            char_list_view(list) == text@,
    {
        CharList { inner: SmallVec::from_iter(text.chars()) }
    }

    /// `SmallVec::len`: the number of characters held.
    #[verifier::external_body]
    pub(crate) fn len(&self) -> (n: usize)
        ensures
            n == char_list_view(*self).len(),
    {
        self.inner.len()
    }

    /// Indexing into the `SmallVec`: the character at position `i`.
    #[verifier::external_body]
    pub(crate) fn get(&self, i: usize) -> (c: char)
        requires
            i < char_list_view(*self).len(),
        ensures
            c == char_list_view(*self)[i as int],
    {
        self.inner[i]
    }
}

/// `String::push`: appends one character to the string.
#[verifier::external_body]
pub(crate) fn push_char(s: &mut String, c: char)
    ensures
        final(s)@ == old(s)@.push(c),
{
    s.push(c)
}

/// `core::str::from_utf8`: succeeds exactly on well-formed UTF-8, and the
/// string it returns has the given bytes as its encoding.
#[verifier::external_body]
pub(crate) fn utf8_str<'a>(bytes: &'a [u8]) -> (r: Option<&'a str>)
    ensures
        r is Some <==> valid_utf8(bytes@),
        r is Some ==> r->Some_0.spec_bytes() == bytes@,
{
    core::str::from_utf8(bytes).ok()
}

/// The decimal digit character for `d`, for `d` below ten.
pub open spec fn digit_char(d: nat) -> char {
    (('0' as nat) + d) as char
}

/// The decimal numeral of `n`, most significant digit first, without padding.
pub open spec fn decimal(n: nat) -> Seq<char>
    decreases n,
{
    if n < 10 {
        seq![digit_char(n)]
    } else {
        decimal(n / 10).push(digit_char(n % 10))
    }
}

/// The digit character for `d`.
fn digit(d: usize) -> (c: char)
    requires
        d < 10,
    ensures
        c == digit_char(d as nat),
{
    let b: u8 = 48u8 + (d as u8);
    b as char
}

/// Appends the decimal numeral of `n` to `s`.
pub(crate) fn push_decimal(s: &mut String, n: usize)
    ensures
        final(s)@ == old(s)@ + decimal(n as nat),
    decreases n,
{
    if n >= 10 {
        push_decimal(s, n / 10);
    }
    push_char(s, digit(n % 10));
}

/// Encoding distributes over concatenation.
pub proof fn lemma_encode_concat(a: Seq<char>, b: Seq<char>)
    ensures
        encode_utf8(a + b) == encode_utf8(a) + encode_utf8(b),
    decreases a.len(),
{
    if a.len() == 0 {
    } else {
        assert((a + b).drop_first() =~= a.drop_first() + b);
        lemma_encode_concat(a.drop_first(), b);
    }
}

/// A string is determined by its encoding.
pub proof fn lemma_encode_injective(a: Seq<char>, b: Seq<char>)
    requires
        encode_utf8(a) == encode_utf8(b),
    ensures
        a == b,
{
    encode_utf8_decode_utf8(a);
    encode_utf8_decode_utf8(b);
}

/// Appends the UTF-8 encoding of `c` to `buffer`.
pub(crate) fn put_char(buffer: &mut Vec<u8>, c: char)
    ensures
        final(buffer)@ == old(buffer)@ + encode_utf8(seq![c]),
{
    let v: u32 = c as u32;
    proof {
        char_is_scalar(c);
        assert(encode_utf8(seq![c]) =~= encode_scalar(v)) by {
            assert(encode_utf8(seq![c]) == encode_scalar(seq![c][0] as u32) + encode_utf8(
                seq![c].drop_first(),
            ));
        }
    }
    if v <= 0x7F {
        assert(v & 0x7F <= 0x7F) by (bit_vector);
        buffer.push((v & 0x7F) as u8);
    } else if v <= 0x7FF {
        assert((v >> 6) & 0x1F <= 0x1F) by (bit_vector);
        assert(v & 0x3F <= 0x3F) by (bit_vector);
        buffer.push(0xC0u8 | (((v >> 6) & 0x1F) as u8));
        buffer.push(0x80u8 | ((v & 0x3F) as u8));
    } else if v <= 0xFFFF {
        assert((v >> 12) & 0x0F <= 0x0F) by (bit_vector);
        assert((v >> 6) & 0x3F <= 0x3F) by (bit_vector);
        assert(v & 0x3F <= 0x3F) by (bit_vector);
        buffer.push(0xE0u8 | (((v >> 12) & 0x0F) as u8));
        buffer.push(0x80u8 | (((v >> 6) & 0x3F) as u8));
        buffer.push(0x80u8 | ((v & 0x3F) as u8));
    } else {
        assert((v >> 18) & 0x7 <= 0x7) by (bit_vector);
        assert((v >> 12) & 0x3F <= 0x3F) by (bit_vector);
        assert((v >> 6) & 0x3F <= 0x3F) by (bit_vector);
        assert(v & 0x3F <= 0x3F) by (bit_vector);
        buffer.push(0xF0u8 | (((v >> 18) & 0x7) as u8));
        buffer.push(0x80u8 | (((v >> 12) & 0x3F) as u8));
        buffer.push(0x80u8 | (((v >> 6) & 0x3F) as u8));
        buffer.push(0x80u8 | ((v & 0x3F) as u8));
    }
}

/// Appends the UTF-8 encoding of `s` to `buffer`.
pub(crate) fn put_str(buffer: &mut Vec<u8>, s: &str)
    ensures
        final(buffer)@ == old(buffer)@ + encode_utf8(s@),
{
    buffer.extend_from_slice(s.as_bytes());
}

/// Appends the decimal numeral of `n`, in UTF-8, to `buffer`.
pub(crate) fn put_decimal(buffer: &mut Vec<u8>, n: usize)
    ensures
        final(buffer)@ == old(buffer)@ + encode_utf8(decimal(n as nat)),
    decreases n,
{
    if n >= 10 {
        put_decimal(buffer, n / 10);
    }
    put_char(buffer, digit(n % 10));
    proof {
        let d = digit_char((n % 10) as nat);
        if n >= 10 {
            assert(decimal(n as nat) =~= decimal((n / 10) as nat) + seq![d]);
            lemma_encode_concat(decimal((n / 10) as nat), seq![d]);
        }
    }
}

} // verus!
