//! `application/x-www-form-urlencoded` encoding of one component, as the
//! WHATWG byte serializer defines it (and `form_urlencoded::byte_serialize`
//! implements it): a few lines of rule, written and proved here.

use vstd::prelude::*;

verus! {

broadcast use vstd::utf8::group_utf8_lib;

/// A byte that form encoding keeps as it is: `* - . _`, digits and ASCII
/// letters.
pub open spec fn form_kept(b: u8) -> bool {
    b == 42 || b == 45 || b == 46 || b == 95 || (48 <= b && b <= 57) || (65 <= b && b <= 90) || (97
        <= b && b <= 122)
}

/// An uppercase hexadecimal digit.
pub open spec fn hex_upper(n: int) -> char {
    if n < 10 {
        (48 + n) as char
    } else {
        (55 + n) as char
    }
}

/// The form encoding of one byte: kept, a space as `+`, any other byte as
/// `%XX` with uppercase hex digits.
pub open spec fn form_byte(b: u8) -> Seq<char> {
    if form_kept(b) {
        seq![b as char]
    } else if b == 32 {
        seq!['+']
    } else {
        seq!['%', hex_upper((b / 16) as int), hex_upper((b % 16) as int)]
    }
}

/// The form encoding of a byte string, byte by byte.
pub open spec fn form_bytes(bytes: Seq<u8>) -> Seq<char>
    decreases bytes.len(),
{
    if bytes.len() == 0 {
        Seq::empty()
    } else {
        form_bytes(bytes.drop_last()) + form_byte(bytes.last())
    }
}

/// The form encoding of the UTF-8 bytes of `s`.
pub open spec fn form_component_spec(s: Seq<char>) -> Seq<char> {
    form_bytes(vstd::utf8::encode_utf8(s))
}

fn hex_upper_char(n: u8) -> (c: char)
    requires
        n < 16,
    ensures
        c == hex_upper(n as int),
{
    if n < 10 {
        (48 + n) as char
    } else {
        (55 + n) as char
    }
}

fn push_form_byte(out: &mut Vec<char>, b: u8)
    ensures
        final(out)@ == old(out)@ + form_byte(b),
{
    let kept = b == 42 || b == 45 || b == 46 || b == 95 || (48 <= b && b <= 57) || (65 <= b && b
        <= 90) || (97 <= b && b <= 122);
    if kept {
        out.push(b as char);
    } else if b == 32 {
        out.push('+');
    } else {
        out.push('%');
        out.push(hex_upper_char(b / 16));
        out.push(hex_upper_char(b % 16));
    }
    proof {
        assert(final(out)@ =~= old(out)@ + form_byte(b));
    }
}

/// Form-encodes one component (a key or a value).
pub fn form_component(s: &str) -> (r: String)
    ensures
        r@ == form_component_spec(s@),
{
    let bytes = s.as_bytes();
    let mut out: Vec<char> = Vec::new();
    let mut i: usize = 0;
    while i < bytes.len()
        invariant
            i <= bytes@.len(),
            out@ == form_bytes(bytes@.take(i as int)),
        decreases bytes@.len() - i,
    {
        proof {
            assert(bytes@.take(i + 1).drop_last() =~= bytes@.take(i as int));
        }
        push_form_byte(&mut out, bytes[i]);
        i = i + 1;
    }
    proof {
        assert(bytes@.take(bytes@.len() as int) =~= bytes@);
        assert(bytes@ == vstd::utf8::encode_utf8(s@));
    }
    crate::text::string_from_chars(&out)
}

} // verus!
