//! Percent-encoding of URL paths, as done by the `percent-encoding` crate.
use vstd::prelude::*;
use vstd::utf8::*;

verus! {

pub open spec fn is_hex(b: u8) -> bool {
    (48 <= b <= 57) || (65 <= b <= 70) || (97 <= b <= 102)
}

pub open spec fn hex_val(b: u8) -> nat {
    if b <= 57 {
        (b - 48) as nat
    } else if b <= 70 {
        (b - 55) as nat
    } else {
        (b - 87) as nat
    }
}

/// An upper-case hexadecimal digit for `d < 16`.
pub open spec fn hex_upper(d: nat) -> u8 {
    if d < 10 {
        (48 + d) as u8
    } else {
        (55 + d) as u8
    }
}

/// ASCII letters and digits: the bytes that `NON_ALPHANUMERIC` leaves as they are.
pub open spec fn is_alnum(b: u8) -> bool {
    (48 <= b <= 57) || (65 <= b <= 90) || (97 <= b <= 122)
}

/// Every `%` followed by two hexadecimal digits becomes the byte they
/// denote; every other byte stays.
pub open spec fn percent_decode_bytes(b: Seq<u8>) -> Seq<u8>
    decreases b.len(),
{
    if b.len() == 0 {
        seq![]
    } else if b.len() >= 3 && b[0] == 37 && is_hex(b[1]) && is_hex(b[2]) {
        seq![(hex_val(b[1]) * 16 + hex_val(b[2])) as u8] + percent_decode_bytes(
            b.subrange(3, b.len() as int),
        )
    } else {
        seq![b[0]] + percent_decode_bytes(b.drop_first())
    }
}

pub open spec fn encode_byte(b: u8) -> Seq<u8> {
    if is_alnum(b) {
        seq![b]
    } else {
        seq![37u8, hex_upper((b / 16) as nat), hex_upper((b % 16) as nat)]
    }
}

/// Every byte but ASCII letters and digits becomes `%XX`, in upper-case hex.
pub open spec fn percent_encode_bytes(b: Seq<u8>) -> Seq<u8>
    decreases b.len(),
{
    if b.len() == 0 {
        seq![]
    } else {
        encode_byte(b[0]) + percent_encode_bytes(b.drop_first())
    }
}

/// The characters whose codes are the ASCII bytes `b`.
pub open spec fn ascii_chars(b: Seq<u8>) -> Seq<char> {
    b.map_values(|x: u8| x as char)
}

/// Relies on `percent_encoding::percent_decode_str` and
/// `PercentDecode::decode_utf8`: the decoded bytes, read as UTF-8, which
/// fails exactly when they are not well-formed UTF-8.
#[verifier::external_body]
pub(crate) fn decode_percent_utf8(raw: &str) -> (r: Option<String>)
    ensures
        r is Some <==> valid_utf8(percent_decode_bytes(encode_utf8(raw@))),
        r matches Some(s) ==> s@ == decode_utf8(percent_decode_bytes(encode_utf8(raw@))),
{
    match percent_encoding::percent_decode_str(raw).decode_utf8() {
        Ok(s) => Some(s.into_owned()),
        Err(_) => None,
    }
}

/// Relies on `percent_encoding::percent_encode` with `NON_ALPHANUMERIC`, and
/// its `Display`: every byte but ASCII letters and digits written as `%XX`.
#[verifier::external_body]
pub(crate) fn encode_non_alphanumeric(b: &[u8]) -> (r: String)
    ensures
        r@ == ascii_chars(percent_encode_bytes(b@)),
{
    percent_encoding::percent_encode(b, percent_encoding::NON_ALPHANUMERIC).to_string()
}

/// Percent-encodes the UTF-8 bytes of `s`, keeping only ASCII letters and digits.
pub fn encode_segment(s: &str) -> (r: String)
    ensures
        r@ == ascii_chars(percent_encode_bytes(encode_utf8(s@))),
{
    encode_non_alphanumeric(s.as_bytes())
}

/// Percent-decodes `raw` and reads the result as UTF-8; `None` when it is
/// not well-formed UTF-8.
pub fn decode_path(raw: &str) -> (r: Option<String>)
    ensures
        r is Some <==> valid_utf8(percent_decode_bytes(encode_utf8(raw@))),
        r matches Some(s) ==> s@ == decode_utf8(percent_decode_bytes(encode_utf8(raw@))),
{
    decode_percent_utf8(raw)
}

proof fn lemma_hex_digit(d: nat)
    requires
        d < 16,
    ensures
        is_hex(hex_upper(d)),
        hex_val(hex_upper(d)) == d,
{
}

/// Decoding the percent-encoding of any bytes gives those bytes back.
pub proof fn lemma_percent_round_trip(b: Seq<u8>)
    ensures
        percent_decode_bytes(percent_encode_bytes(b)) == b,
    decreases b.len(),
{
    if b.len() > 0 {
        let rest = percent_encode_bytes(b.drop_first());
        lemma_percent_round_trip(b.drop_first());
        let e = percent_encode_bytes(b);
        assert(e == encode_byte(b[0]) + rest);
        if is_alnum(b[0]) {
            assert(e.drop_first() =~= rest);
            assert(percent_decode_bytes(e) == seq![b[0]] + percent_decode_bytes(rest));
        } else {
            let x = b[0];
            lemma_hex_digit((x / 16) as nat);
            lemma_hex_digit((x % 16) as nat);
            assert(e.subrange(3, e.len() as int) =~= rest);
            assert((hex_val(e[1]) * 16 + hex_val(e[2])) as u8 == x);
        }
        assert(b =~= seq![b[0]] + b.drop_first());
    }
}

/// Percent-encoding yields ASCII bytes only.
proof fn lemma_encoded_ascii(b: Seq<u8>)
    ensures
        forall|i: int| 0 <= i < percent_encode_bytes(b).len() ==> #[trigger] percent_encode_bytes(
            b,
        )[i] < 128,
    decreases b.len(),
{
    if b.len() > 0 {
        lemma_encoded_ascii(b.drop_first());
        let e = percent_encode_bytes(b);
        let r = percent_encode_bytes(b.drop_first());
        let h = encode_byte(b[0]);
        assert(e == h + r);
        assert forall|i: int| 0 <= i < e.len() implies #[trigger] e[i] < 128 by {
            if i >= h.len() {
                assert(e[i] == r[i - h.len()]);
            }
        }
    }
}

/// ASCII bytes, read as characters and encoded as UTF-8 again, are unchanged.
proof fn lemma_ascii_chars_utf8(b: Seq<u8>)
    requires
        forall|i: int| 0 <= i < b.len() ==> #[trigger] b[i] < 128,
    ensures
        encode_utf8(ascii_chars(b)) == b,
{
    let cs = ascii_chars(b);
    assert forall|i: int| 0 <= i < cs.len() implies '\0' <= #[trigger] cs[i] <= '\u{7f}' by {
        let x = b[i];
        assert(cs[i] == x as char);
    }
    assert(is_ascii_chars(cs));
    is_ascii_chars_encode_utf8(cs);
    assert forall|i: int| 0 <= i < b.len() implies #[trigger] encode_utf8(cs)[i] == b[i] by {
        assert(cs[i] as u8 == encode_utf8(cs)[i]);
        assert(cs[i] == b[i] as char);
    }
    assert(encode_utf8(cs) =~= b);
}

/// Text made by `encode_segment` decodes with `decode_path` to the very
/// text that was encoded.
pub proof fn lemma_segment_round_trip(s: Seq<char>)
    ensures
        percent_decode_bytes(encode_utf8(ascii_chars(percent_encode_bytes(encode_utf8(s)))))
            == encode_utf8(s),
        valid_utf8(percent_decode_bytes(encode_utf8(ascii_chars(percent_encode_bytes(encode_utf8(s)))))),
        decode_utf8(percent_decode_bytes(encode_utf8(ascii_chars(percent_encode_bytes(encode_utf8(s))))))
            == s,
{
    lemma_encoded_ascii(encode_utf8(s));
    lemma_ascii_chars_utf8(percent_encode_bytes(encode_utf8(s)));
    lemma_percent_round_trip(encode_utf8(s));
    encode_utf8_valid_utf8(s);
    encode_utf8_decode_utf8(s);
}

} // verus!
