//! The encoding of web forms (`application/x-www-form-urlencoded`).

use vstd::prelude::*;
use vstd::utf8::encode_utf8;

use crate::text::{join, pair_views};

verus! {

/// Bytes that stand for themselves in a form.
pub open spec fn is_plain(b: u8) -> bool {
    ||| 48 <= b <= 57
    ||| 65 <= b <= 90
    ||| 97 <= b <= 122
    ||| b == 42
    ||| b == 45
    ||| b == 46
    ||| b == 95
}

/// A hexadecimal digit, letters as capitals.
pub open spec fn hex_digit(d: u8) -> char {
    if d < 10 {
        (48 + d) as char
    } else {
        (55 + d) as char
    }
}

/// One byte in a form: itself, a plus for a blank, else a percent sign and two digits.
pub open spec fn form_byte(b: u8) -> Seq<char> {
    if is_plain(b) {
        seq![b as char]
    } else if b == 32 {
        seq!['+']
    } else {
        seq!['%', hex_digit(b / 16), hex_digit(b % 16)]
    }
}

/// Bytes in a form.
pub open spec fn form_bytes(v: Seq<u8>) -> Seq<char>
    decreases v.len(),
{
    if v.len() == 0 {
        seq![]
    } else {
        form_bytes(v.drop_last()) + form_byte(v.last())
    }
}

/// A field of a form.
pub open spec fn form_field(field: (Seq<char>, Seq<char>)) -> Seq<char> {
    form_bytes(encode_utf8(field.0)) + "="@ + form_bytes(encode_utf8(field.1))
}

/// A form.
pub open spec fn form_text(fields: Seq<(Seq<char>, Seq<char>)>) -> Seq<char> {
    join(fields.map_values(|f: (Seq<char>, Seq<char>)| form_field(f)), "&"@)
}

/// `serde_urlencoded::to_string` of a list of pairs of texts, which never fails.
#[verifier::external_body]
pub(crate) fn encode_form(fields: &Vec<(String, String)>) -> (r: String)
    ensures
        r@ == form_text(pair_views(fields@)),
{
    serde_urlencoded::to_string(fields).unwrap_or_default()
}

} // verus!
