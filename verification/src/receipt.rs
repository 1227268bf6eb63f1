//! Receipts: the encoding of their images and the names of their files.
use base64::engine::general_purpose::STANDARD;
use base64::Engine;
use vstd::prelude::*;

use crate::text::push_str;
use crate::text::signed_decimal;
use crate::text::signed_decimal_chars;
use crate::text::string_from_chars;

verus! {

/// The character of the standard base64 alphabet (RFC 4648) for a six-bit
/// value: `A`-`Z`, `a`-`z`, `0`-`9`, `+`, `/`.
pub open spec fn base64_char(v: int) -> char {
    if v < 26 {
        (65 + v) as char
    } else if v < 52 {
        (97 + (v - 26)) as char
    } else if v < 62 {
        (48 + (v - 52)) as char
    } else if v == 62 {
        '+'
    } else {
        '/'
    }
}

/// Standard base64 with `=` padding (RFC 4648): every three bytes become
/// four characters, a last group of one or two bytes is padded to four.
pub open spec fn base64_standard(data: Seq<u8>) -> Seq<char>
    decreases data.len(),
{
    if data.len() == 0 {
        Seq::empty()
    } else if data.len() == 1 {
        let a = data[0] as int;
        seq![base64_char(a / 4), base64_char((a % 4) * 16), '=', '=']
    } else if data.len() == 2 {
        let a = data[0] as int;
        let b = data[1] as int;
        seq![base64_char(a / 4), base64_char((a % 4) * 16 + b / 16), base64_char((b % 16) * 4), '=']
    } else {
        let a = data[0] as int;
        let b = data[1] as int;
        let c = data[2] as int;
        seq![
            base64_char(a / 4),
            base64_char((a % 4) * 16 + b / 16),
            base64_char((b % 16) * 4 + c / 64),
            base64_char(c % 64),
        ] + base64_standard(data.subrange(3, data.len() as int))
    }
}

/// The six-bit value a character of the standard base64 alphabet stands for.
pub open spec fn base64_value(c: char) -> int {
    let u = c as int;
    if 65 <= u <= 90 {
        u - 65
    } else if 97 <= u <= 122 {
        u - 71
    } else if 48 <= u <= 57 {
        u + 4
    } else if c == '+' {
        62
    } else {
        63
    }
}

/// Decoding of standard base64 with `=` padding: every four characters give
/// three bytes, or fewer when the group ends in padding.
pub open spec fn base64_decode(text: Seq<char>) -> Seq<u8>
    decreases text.len(),
{
    if text.len() < 4 {
        Seq::empty()
    } else {
        let v0 = base64_value(text[0]);
        let v1 = base64_value(text[1]);
        let v2 = base64_value(text[2]);
        let v3 = base64_value(text[3]);
        let a = (v0 * 4 + v1 / 16) as u8;
        let b = ((v1 % 16) * 16 + v2 / 4) as u8;
        let c = ((v2 % 4) * 64 + v3) as u8;
        if text[2] == '=' {
            seq![a]
        } else if text[3] == '=' {
            seq![a, b]
        } else {
            seq![a, b, c] + base64_decode(text.subrange(4, text.len() as int))
        }
    }
}

proof fn lemma_base64_char_value(v: int)
    requires
        0 <= v < 64,
    ensures
        base64_value(base64_char(v)) == v,
        base64_char(v) != '=',
{
    if v < 26 {
        assert((65 + v) as char as int == 65 + v);
    } else if v < 52 {
        assert((97 + (v - 26)) as char as int == 97 + (v - 26));
    } else if v < 62 {
        assert((48 + (v - 52)) as char as int == 48 + (v - 52));
    }
}

/// Law: decoding the standard base64 encoding of bytes gives the bytes back.
pub proof fn lemma_base64_decode_encode(data: Seq<u8>)
    ensures
        base64_decode(base64_standard(data)) == data,
    decreases data.len(),
{
    let e = base64_standard(data);
    if data.len() == 0 {
    } else {
        let a = data[0] as int;
        lemma_base64_char_value(a / 4);
        if data.len() == 1 {
            lemma_base64_char_value((a % 4) * 16);
            assert(base64_decode(e) =~= data);
        } else {
            let b = data[1] as int;
            lemma_base64_char_value((a % 4) * 16 + b / 16);
            if data.len() == 2 {
                lemma_base64_char_value((b % 16) * 4);
                assert(base64_decode(e) =~= data);
            } else {
                let c = data[2] as int;
                lemma_base64_char_value((b % 16) * 4 + c / 64);
                lemma_base64_char_value(c % 64);
                let rest = data.subrange(3, data.len() as int);
                lemma_base64_decode_encode(rest);
                assert(e.subrange(4, e.len() as int) =~= base64_standard(rest));
                assert(data =~= seq![data[0], data[1], data[2]] + rest);
                assert(base64_decode(e) =~= data);
            }
        }
    }
}

/// Law: the standard base64 encoding of `n` bytes has `4 * ceil(n / 3)`
/// characters.
pub proof fn lemma_base64_len(data: Seq<u8>)
    ensures
        base64_standard(data).len() == base64_len(data.len()),
    decreases data.len(),
{
    if data.len() >= 3 {
        lemma_base64_len(data.subrange(3, data.len() as int));
    }
}

/// The length of the standard base64 encoding of `n` bytes.
pub open spec fn base64_len(n: nat) -> nat {
    ((n + 2) / 3 * 4) as nat
}

/// Calls `Engine::encode` of base64's `general_purpose::STANDARD` engine,
/// which encodes with the standard alphabet and `=` padding. It panics when
/// the length of the encoding overflows `usize`, which `requires` rules out.
#[verifier::external_body]
fn standard_base64_encode(data: &[u8]) -> (r: String)
    requires
        base64_len(data@.len()) <= usize::MAX,
    ensures
        r@ == base64_standard(data@),
{
    STANDARD.encode(data)
}

/// The standard base64 encoding (with padding) of an image.
pub fn encode_image_base64(image_data: &[u8]) -> (encoded: String)
    requires
        base64_len(image_data@.len()) <= usize::MAX,
    ensures
        encoded@ == base64_standard(image_data@),
        encoded@.len() == base64_len(image_data@.len()),
        base64_decode(encoded@) == image_data@,
{
    proof {
        lemma_base64_len(image_data@);
        lemma_base64_decode_encode(image_data@);
    }
    standard_base64_encode(image_data)
}

/// The file name a receipt image taken at `millis` (milliseconds since the
/// Unix epoch) is saved under.
pub open spec fn receipt_file_name_spec(millis: int) -> Seq<char> {
    "receipt_"@ + signed_decimal(millis) + ".jpg"@
}

/// The file name a receipt image taken at `millis` (milliseconds since the
/// Unix epoch) is saved under.
pub fn receipt_file_name(millis: i64) -> (name: String)
    ensures
        name@ == receipt_file_name_spec(millis as int),
{
    let mut v: Vec<char> = Vec::new();
    push_str(&mut v, "receipt_");
    let mut digits = signed_decimal_chars(millis);
    v.append(&mut digits);
    push_str(&mut v, ".jpg");
    proof {
        assert(Seq::<char>::empty() + "receipt_"@ =~= "receipt_"@);
    }
    string_from_chars(&v)
}

} // verus!
