use vstd::prelude::*;
use vstd::utf8::{decode_utf8, valid_utf8};

verus! {

broadcast use vstd::string::group_string_axioms;

/// The character encodings that message files use.
#[derive(Clone, Copy, Debug, PartialEq, Eq, Structural)]
pub enum TextEncoding {
    Windows1252,
    Utf16Le,
    ShiftJis,
}

/// The encoding that an encoding byte of a BMG header selects: 2 is
/// UTF-16LE, 3 is Shift-JIS, every other value Windows-1252.
pub open spec fn spec_encoding_of(code: u8) -> TextEncoding {
    if code == 2 {
        TextEncoding::Utf16Le
    } else if code == 3 {
        TextEncoding::ShiftJis
    } else {
        TextEncoding::Windows1252
    }
}

/// The encoding that an encoding byte selects.
pub fn encoding_of(code: u8) -> (r: TextEncoding)
    ensures
        r == spec_encoding_of(code),
{
    match code {
        2 => TextEncoding::Utf16Le,
        3 => TextEncoding::ShiftJis,
        _ => TextEncoding::Windows1252,
    }
}

/// The text that `encoding_rs` decodes from `bytes` for the given encoding
/// (with its BOM sniffing and its replacement of malformed sequences).
pub uninterp spec fn decoded_text(encoding: TextEncoding, bytes: Seq<u8>) -> Seq<char>;

/// Decodes `bytes` with `encoding_rs::Encoding::decode`.
///
/// Trusted: the result is stated to be the text that `decode` returns for
/// this encoding and these bytes, named `decoded_text`; what that text is,
/// is left to `encoding_rs`. `decode` panics only when the size of its
/// output buffer overflows `usize`, which the bound on the input excludes.
#[verifier::external_body]
pub(crate) fn decode_bytes(encoding: TextEncoding, bytes: &[u8]) -> (r: String)
    requires
        bytes@.len() <= usize::MAX / 4,
    ensures
        r@ == decoded_text(encoding, bytes@),
{
    let e = match encoding {
        TextEncoding::Windows1252 => encoding_rs::WINDOWS_1252,
        TextEncoding::Utf16Le => encoding_rs::UTF_16LE,
        TextEncoding::ShiftJis => encoding_rs::SHIFT_JIS,
    };
    e.decode(bytes).0.into_owned()
}

#[verifier::external_type_specification]
#[verifier::external_body]
pub struct ExUtf8Error(core::str::Utf8Error);

/// Reads `bytes` as UTF-8 with `core::str::from_utf8`.
///
/// Trusted: `from_utf8` succeeds exactly on valid UTF-8, and then the
/// string holds the characters that the bytes encode, as vstd's
/// `valid_utf8` and `decode_utf8` define them.
#[verifier::external_body]
pub(crate) fn str_from_utf8(bytes: &[u8]) -> (r: Result<&str, core::str::Utf8Error>)
    ensures
        r is Ok <==> valid_utf8(bytes@),
        r matches Ok(s) ==> s@ == decode_utf8(bytes@),
{
    core::str::from_utf8(bytes)
}

/// Appends `c` to `s` with `String::push`.
///
/// Trusted: `push` appends exactly that character.
#[verifier::external_body]
pub(crate) fn push_char(s: &mut String, c: char)
    ensures
        final(s)@ == old(s)@.push(c),
{
    s.push(c)
}

/// The characters of `s`.
pub fn chars_of(s: &str) -> (r: Vec<char>)
    ensures
        r@ == s@,
{
    let mut r: Vec<char> = Vec::new();
    for c in it: s.chars()
        invariant
            r@ == it.seq().take(it.index() as int),
    {
        r.push(c);
        assert(r@ =~= it.seq().take(it.index() + 1));
    }
    assert(r@ =~= s@);
    r
}

/// The string of the characters `chars[start..end]`.
pub fn string_of(chars: &[char], start: usize, end: usize) -> (r: String)
    requires
        start <= end <= chars@.len(),
    ensures
        r@ == chars@.subrange(start as int, end as int),
{
    let mut r = String::new();
    let mut i = start;
    while i < end
        invariant
            start <= i <= end <= chars@.len(),
            r@ == chars@.subrange(start as int, i as int),
        decreases end - i,
    {
        push_char(&mut r, chars[i]);
        assert(r@ =~= chars@.subrange(start as int, i + 1));
        i = i + 1;
    }
    r
}

} // verus!
