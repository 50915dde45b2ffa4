//! Login helpers: device identities, account ids and default account names.

use vstd::prelude::*;
use vstd::string::StringSliceAdditionalSpecFns;
use vstd::utf8::is_char_boundary;

use crate::crypto::utf8;
use crate::primitives::{
    ascii_upper, is_lower_hex_char, random_bytes, to_uppercase, uppercase_spec, uuid_v4_text,
};
use crate::text::{hex_of, push_hex, push_str, string_from_chars};

verus! {

/// The device identity a login presents.
pub struct DeviceIdentity {
    pub device_id: String,
    pub openudid: String,
    pub vendorid: String,
}

/// The text of a version-4 UUID in upper case: 36 characters, hyphens at
/// 8, 13, 18 and 23, uppercase hex digits elsewhere, `4` at 14 and `8`, `9`,
/// `A` or `B` at 19.
pub open spec fn uuid_upper_form(s: Seq<char>) -> bool {
    &&& s.len() == 36
    &&& forall|i: int|
        0 <= i < 36 ==> if i == 8 || i == 13 || i == 18 || i == 23 {
            s[i] == '-'
        } else {
            ('0' <= #[trigger] s[i] && s[i] <= '9') || ('A' <= s[i] && s[i] <= 'F')
        }
    &&& s[14] == '4'
    &&& (s[19] == '8' || s[19] == '9' || s[19] == 'A' || s[19] == 'B')
}

/// A random v4 UUID in upper case.
fn upper_uuid() -> (s: String)
    ensures
        exists|u: Seq<char>| s@ == uppercase_spec(u),
        uuid_upper_form(s@),
{
    let u = uuid_v4_text();
    proof {
        assert forall|i: int| 0 <= i < u@.len() implies (#[trigger] u@[i] as u32) < 128 by {
            if !(i == 8 || i == 13 || i == 18 || i == 23) {
                assert(is_lower_hex_char(u@[i]));
            }
        }
    }
    let s = to_uppercase(u.as_str());
    proof {
        assert forall|i: int| 0 <= i < 36 implies if i == 8 || i == 13 || i == 18 || i == 23 {
            s@[i] == '-'
        } else {
            ('0' <= #[trigger] s@[i] && s@[i] <= '9') || ('A' <= s@[i] && s@[i] <= 'F')
        } by {
            assert(s@[i] == ascii_upper(u@[i]));
            if !(i == 8 || i == 13 || i == 18 || i == 23) {
                assert(is_lower_hex_char(u@[i]));
            }
        }
        assert(s@[14] == ascii_upper(u@[14]));
        assert(s@[19] == ascii_upper(u@[19]));
    }
    s
}

/// A fresh device identity: a random 32-hex-digit device id and two random
/// v4 UUIDs in upper case.
pub fn generate_device_identity() -> (d: DeviceIdentity)
    ensures
        d.device_id@.len() == 32,
        exists|b: Seq<u8>| b.len() == 16 && d.device_id@ == hex_of(b),
        exists|u: Seq<char>| d.openudid@ == uppercase_spec(u),
        exists|u: Seq<char>| d.vendorid@ == uppercase_spec(u),
        uuid_upper_form(d.openudid@),
        uuid_upper_form(d.vendorid@),
{
    let device_id = crate::protocol::random_hex_32();
    DeviceIdentity { device_id, openudid: upper_uuid(), vendorid: upper_uuid() }
}

/// A fresh account id: `acc` and eight random hex digits.
pub fn gen_account_id() -> (id: String)
    ensures
        exists|b: Seq<u8>| b.len() == 4 && id@ == "acc"@ + hex_of(b),
{
    let bytes = random_bytes(4);
    let mut out: Vec<char> = Vec::new();
    push_str(&mut out, "acc");
    push_hex(&mut out, bytes.as_slice());
    string_from_chars(&out)
}

/// The phone number shown masked: for seven or more bytes, the first three
/// bytes, `****` and the last four bytes; shorter numbers as they are.
pub open spec fn masked_phone(phone: Seq<char>, head: Seq<char>, tail: Seq<char>) -> bool {
    let b = utf8(phone);
    if b.len() >= 7 {
        utf8(head) == b.subrange(0, 3) && utf8(tail) == b.subrange(b.len() - 4, b.len() as int)
    } else {
        true
    }
}

/// The phone text with its middle masked (see `masked_phone`).
pub open spec fn mask_spec(phone: Seq<char>, head: Seq<char>, tail: Seq<char>) -> Seq<char> {
    if utf8(phone).len() >= 7 {
        head + "****"@ + tail
    } else {
        phone
    }
}

/// Masking cuts the number at byte 3 and four bytes from the end, which
/// must be character boundaries.
pub open spec fn maskable(phone: Seq<char>) -> bool {
    let b = utf8(phone);
    b.len() >= 7 ==> is_char_boundary(b, 3) && is_char_boundary(b, b.len() - 4)
}

/// Whether a phone number can be masked (see `maskable`).
pub fn is_maskable(phone: &str) -> (b: bool)
    ensures
        b == maskable(phone@),
{
    assert(phone.spec_bytes() == utf8(phone@));
    let n = phone.as_bytes().len();
    assert(n as int == utf8(phone@).len());
    if n < 7 {
        true
    } else {
        phone.is_char_boundary(3) && phone.is_char_boundary(n - 4)
    }
}

/// Masks the middle of a phone number.
pub fn mask_phone_text(phone: &str) -> (m: String)
    requires
        maskable(phone@),
    ensures
        exists|head: Seq<char>, tail: Seq<char>|
            masked_phone(phone@, head, tail) && m@ == mask_spec(phone@, head, tail),
{
    assert(phone.spec_bytes() == utf8(phone@));
    let n = phone.as_bytes().len();
    assert(n as int == utf8(phone@).len());
    if n >= 7 {
        let (head, _) = phone.split_at(3);
        let (_, tail) = phone.split_at(n - 4);
        let mut out: Vec<char> = Vec::new();
        push_str(&mut out, head);
        push_str(&mut out, "****");
        push_str(&mut out, tail);
        assert(masked_phone(phone@, head@, tail@));
        assert(out@ == mask_spec(phone@, head@, tail@));
        string_from_chars(&out)
    } else {
        proof {
            assert(masked_phone(phone@, phone@, phone@));
        }
        phone.to_owned()
    }
}

/// The default account name: `账号 ` and the masked phone number.
pub fn gen_account_name(phone: &str) -> (name: String)
    requires
        maskable(phone@),
    ensures
        exists|head: Seq<char>, tail: Seq<char>|
            masked_phone(phone@, head, tail) && name@ == "账号 "@ + mask_spec(phone@, head, tail),
{
    let masked = mask_phone_text(phone);
    let mut out: Vec<char> = Vec::new();
    push_str(&mut out, "账号 ");
    push_str(&mut out, masked.as_str());
    string_from_chars(&out)
}

} // verus!
