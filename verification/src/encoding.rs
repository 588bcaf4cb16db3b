//! Base64 data URLs: images travel between the editor and the backend as
//! `data:image/png;base64,...` text.
use vstd::prelude::*;
use crate::text::{
    append_chars, chars_to_string, is_space, lemma_lead_len_is, lemma_trail_len_is, str_to_chars,
    trim, trim_chars, TrimSet,
};
use base64::Engine;

verus! {

/// The standard Base64 alphabet with `=` padding.
pub open spec fn is_base64_char(c: char) -> bool {
    ('A' <= c && c <= 'Z') || ('a' <= c && c <= 'z') || ('0' <= c && c <= '9') || c == '+' || c
        == '/' || c == '='
}

/// The character of a 6-bit value in the standard Base64 alphabet `A-Z a-z 0-9 + /`.
pub open spec fn base64_digit(v: int) -> char {
    if v < 26 {
        ('A' as int + v) as char
    } else if v < 52 {
        ('a' as int + (v - 26)) as char
    } else if v < 62 {
        ('0' as int + (v - 52)) as char
    } else if v == 62 {
        '+'
    } else {
        '/'
    }
}

/// The standard Base64 encoding of `b` (RFC 4648, with `=` padding): each group of three
/// bytes becomes four characters of six bits each; a last group of one or two bytes becomes
/// two or three characters and is padded with `=` to four.
pub open spec fn base64_text(b: Seq<u8>) -> Seq<char>
    decreases b.len(),
{
    if b.len() == 0 {
        seq![]
    } else {
        let x = b[0] as int;
        let y = if b.len() > 1 {
            b[1] as int
        } else {
            0
        };
        let z = if b.len() > 2 {
            b[2] as int
        } else {
            0
        };
        let first = base64_digit(x / 4);
        let second = base64_digit((x % 4) * 16 + y / 16);
        let third = if b.len() > 1 {
            base64_digit((y % 16) * 4 + z / 64)
        } else {
            '='
        };
        let fourth = if b.len() > 2 {
            base64_digit(z % 64)
        } else {
            '='
        };
        seq![first, second, third, fourth] + if b.len() > 3 {
            base64_text(b.skip(3))
        } else {
            seq![]
        }
    }
}

/// What the standard Base64 engine decodes `text` to: the bytes, or the text of its error.
pub uninterp spec fn base64_decoded(text: Seq<char>) -> Result<Seq<u8>, Seq<char>>;

pub open spec fn decoded_ok(b: Seq<u8>) -> Result<Seq<u8>, Seq<char>> {
    Ok(b)
}

/// `base64::engine::general_purpose::STANDARD.encode`. The contract claims that the result
/// is the standard Base64 encoding of the input, that it is made of alphabet and padding
/// characters only, and that the same engine decodes it back to the input.
#[verifier::external_body]
fn encode_base64(bytes: &[u8]) -> (s: String)
    requires
        bytes@.len() <= usize::MAX / 2,
    ensures
        s@ == base64_text(bytes@),
        forall|k: int| 0 <= k < s@.len() ==> is_base64_char(#[trigger] s@[k]),
        base64_decoded(s@) == decoded_ok(bytes@),
{
    base64::engine::general_purpose::STANDARD.encode(bytes)
}

/// `base64::engine::general_purpose::STANDARD.decode`, with the error turned into its
/// `Display` text. The contract claims only that the outcome is the named decoding of the
/// input; which texts decode, and to what, is left to the engine.
#[verifier::external_body]
fn decode_base64(text: &str) -> (r: Result<Vec<u8>, String>)
    ensures
        bytes_result_view(r) == base64_decoded(text@),
{
    match base64::engine::general_purpose::STANDARD.decode(text) {
        Ok(v) => Ok(v),
        Err(e) => Err(format!("{}", e)),
    }
}

/// The characters after the first `,` of `s`, if `s` has one.
pub open spec fn after_first_comma(s: Seq<char>) -> Option<Seq<char>>
    decreases s.len(),
{
    if s.len() == 0 {
        None
    } else if s[0] == ',' {
        Some(s.drop_first())
    } else {
        after_first_comma(s.drop_first())
    }
}

/// The Base64 payload of a data URL: what follows its first comma, or the whole text when
/// there is none, with surrounding whitespace removed.
pub open spec fn data_url_payload(s: Seq<char>) -> Seq<char> {
    let raw = match after_first_comma(s) {
        Some(r) => r,
        None => s,
    };
    trim(raw, TrimSet::Space)
}

/// What decoding image data sent by the editor gives: the decoded bytes, or the error message.
pub open spec fn image_data_result(data: Option<Seq<char>>) -> Result<Seq<u8>, Seq<char>> {
    match data {
        None => Err("No image data provided"@),
        Some(d) => match base64_decoded(data_url_payload(d)) {
            Ok(b) => Ok(b),
            Err(m) => Err("Base64 decode error: "@ + m),
        },
    }
}

pub open spec fn bytes_result_view(r: Result<Vec<u8>, String>) -> Result<Seq<u8>, Seq<char>> {
    match r {
        Ok(v) => Ok(v@),
        Err(e) => Err(e@),
    }
}

fn payload_chars(s: &Vec<char>) -> (p: Vec<char>)
    ensures
        p@ == data_url_payload(s@),
{
    let mut i: usize = 0;
    assert(s@.skip(0) == s@);
    while i < s.len() && s[i] != ','
        invariant
            i <= s.len(),
            after_first_comma(s@) == after_first_comma(s@.skip(i as int)),
        decreases s.len() - i,
    {
        assert(s@.skip(i as int)[0] == s@[i as int]);
        assert(s@.skip(i as int).drop_first() == s@.skip(i + 1));
        i = i + 1;
    }
    let found = i < s.len();
    if found {
        assert(s@.skip(i as int)[0] == s@[i as int]);
    }
    let mut raw: Vec<char> = Vec::new();
    if found {
        let mut j: usize = i + 1;
        while j < s.len()
            invariant
                i < s.len(),
                i + 1 <= j <= s.len(),
                raw@ == s@.subrange(i + 1, j as int),
            decreases s.len() - j,
        {
            raw.push(s[j]);
            j = j + 1;
        }
        assert(raw@ == s@.skip(i as int).drop_first());
    } else {
        assert(s@.skip(i as int).len() == 0);
        raw = s.clone();
    }
    trim_chars(&raw, TrimSet::Space)
}

/// Decodes the image data that the editor sends to be copied, saved or read: a Base64 data
/// URL, or bare Base64.
pub fn decode_image_data(data: Option<String>) -> (r: Result<Vec<u8>, String>)
    ensures
        bytes_result_view(r) == image_data_result(
            match data {
                Some(d) => Some(d@),
                None => None,
            },
        ),
{
    match data {
        None => Err("No image data provided".to_string()),
        Some(d) => {
            let chars = str_to_chars(d.as_str());
            let payload = chars_to_string(&payload_chars(&chars));
            match decode_base64(payload.as_str()) {
                Ok(v) => Ok(v),
                Err(m) => {
                    let mut out = str_to_chars("Base64 decode error: ");
                    let mc = str_to_chars(m.as_str());
                    append_chars(&mut out, &mc);
                    Err(chars_to_string(&out))
                },
            }
        },
    }
}

proof fn lemma_comma_free_prefix(a: Seq<char>, b: Seq<char>)
    requires
        forall|k: int| 0 <= k < a.len() ==> a[k] != ',',
    ensures
        after_first_comma(a + b) == after_first_comma(b),
    decreases a.len(),
{
    if a.len() > 0 {
        assert((a + b)[0] == a[0]);
        assert((a + b).drop_first() == a.drop_first() + b);
        lemma_comma_free_prefix(a.drop_first(), b);
    } else {
        assert(a + b == b);
    }
}

/// The payload of `prefix,payload` is `payload` when the prefix has no comma and the payload
/// neither starts nor ends with whitespace.
proof fn lemma_payload_after_prefix(a: Seq<char>, e: Seq<char>)
    requires
        forall|k: int| 0 <= k < a.len() ==> a[k] != ',',
        forall|k: int| 0 <= k < e.len() ==> !is_space(#[trigger] e[k]),
    ensures
        data_url_payload(a + seq![','] + e) == e,
{
    assert(a + seq![','] + e == a + (seq![','] + e));
    lemma_comma_free_prefix(a, seq![','] + e);
    assert((seq![','] + e)[0] == ',');
    assert((seq![','] + e).drop_first() == e);
    lemma_lead_len_is(e, TrimSet::Space, 0);
    lemma_trail_len_is(e, TrimSet::Space, 0);
    assert(e.skip(0) == e);
    assert(e.take(e.len() as int) == e);
}

/// The `data:image/png;base64,` URL of an image file's bytes. Decoding it as image data
/// gives the bytes back.
pub fn png_data_url(bytes: &[u8]) -> (s: String)
    requires
        bytes@.len() <= usize::MAX / 2,
    ensures
        s@ == "data:image/png;base64,"@ + base64_text(bytes@),
        image_data_result(Some(s@)) == decoded_ok(bytes@),
{
    let enc = encode_base64(bytes);
    let mut out = str_to_chars("data:image/png;base64,");
    let ec = str_to_chars(enc.as_str());
    append_chars(&mut out, &ec);
    proof {
        reveal_strlit("data:image/png;base64,");
        let p = "data:image/png;base64,"@;
        let a = p.take(21);
        assert(p == a + seq![',']);
        assert forall|k: int| 0 <= k < a.len() implies a[k] != ',' by {
            assert(a[k] == p[k]);
        }
        assert forall|k: int| 0 <= k < enc@.len() implies !is_space(#[trigger] enc@[k]) by {
            assert(is_base64_char(enc@[k]));
        }
        lemma_payload_after_prefix(a, enc@);
    }
    chars_to_string(&out)
}

} // verus!
