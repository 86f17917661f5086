//! Turning file bytes into text: UTF-8 first, then UTF-16 with a byte-order
//! mark or with a byte pattern that shows its byte order.
use vstd::prelude::*;
use vstd::slice::slice_subrange;
use vstd::utf8::{decode_utf8, valid_utf8};
use crate::text::chars_of;

verus! {

#[derive(Clone, Copy, Debug, PartialEq, Eq, Structural)]
pub enum Utf16Endianness {
    Little,
    Big,
}

// ---------------------------------------------------------------------------
// Byte-order inference
// ---------------------------------------------------------------------------

/// The number of zero bytes among the first `n` bytes of `b` whose position
/// has the given parity (0: even positions, 1: odd positions).
pub open spec fn zeros_at_parity(b: Seq<u8>, parity: int, n: int) -> nat
    decreases n,
{
    if n <= 0 {
        0
    } else {
        zeros_at_parity(b, parity, n - 1) + if (n - 1) % 2 == parity && b[n - 1] == 0 {
            1nat
        } else {
            0nat
        }
    }
}

/// The byte order that the zero bytes of BOM-less text show: an even length
/// of at least eight bytes, zeros in at least two thirds (rounded up) of the
/// positions of one parity and in at most a quarter (rounded down) of the
/// other.
pub open spec fn inferred_endianness(b: Seq<u8>) -> Option<Utf16Endianness> {
    if b.len() < 8 || b.len() % 2 != 0 {
        None
    } else {
        let pairs = b.len() / 2;
        let zero_even = zeros_at_parity(b, 0, b.len() as int);
        let zero_odd = zeros_at_parity(b, 1, b.len() as int);
        let threshold = (pairs * 2 + 2) / 3;
        if zero_odd >= threshold && zero_even <= pairs / 4 {
            Some(Utf16Endianness::Little)
        } else if zero_even >= threshold && zero_odd <= pairs / 4 {
            Some(Utf16Endianness::Big)
        } else {
            None
        }
    }
}

/// Guesses the byte order of BOM-less UTF-16 text from where its zero bytes
/// are.
pub fn infer_utf16_endianness(bytes: &[u8]) -> (r: Option<Utf16Endianness>)
    ensures
        r == inferred_endianness(bytes@),
{
    let n = bytes.len();
    if n < 8 || n % 2 != 0 {
        return None;
    }
    let pairs = n / 2;
    let mut zero_even: usize = 0;
    let mut zero_odd: usize = 0;
    let mut i: usize = 0;
    while i < n
        invariant
            0 <= i <= n,
            n == bytes@.len(),
            zero_even == zeros_at_parity(bytes@, 0, i as int),
            zero_odd == zeros_at_parity(bytes@, 1, i as int),
            zero_even + zero_odd <= i,
        decreases n - i,
    {
        if bytes[i] == 0 {
            if i % 2 == 0 {
                zero_even = zero_even + 1;
            } else {
                zero_odd = zero_odd + 1;
            }
        }
        i = i + 1;
    }
    let doubled = pairs * 2;
    let threshold = doubled / 3 + if doubled % 3 == 0 {
        0
    } else {
        1
    };
    assert(threshold == (pairs * 2 + 2) / 3);
    if zero_odd >= threshold && zero_even <= pairs / 4 {
        Some(Utf16Endianness::Little)
    } else if zero_even >= threshold && zero_odd <= pairs / 4 {
        Some(Utf16Endianness::Big)
    } else {
        None
    }
}

// ---------------------------------------------------------------------------
// UTF-16
// ---------------------------------------------------------------------------

pub open spec fn is_high_surrogate(u: u16) -> bool {
    0xD800 <= u <= 0xDBFF
}

pub open spec fn is_low_surrogate(u: u16) -> bool {
    0xDC00 <= u <= 0xDFFF
}

/// The scalar value that a surrogate pair stands for.
pub open spec fn surrogate_pair_value(high: u16, low: u16) -> u32 {
    (0x10000 + (high - 0xD800) * 0x400 + (low - 0xDC00)) as u32
}

/// UTF-16 decoding: `None` where a surrogate is not part of a high/low pair.
pub open spec fn decode_utf16_units(units: Seq<u16>) -> Option<Seq<char>>
    decreases units.len(),
{
    if units.len() == 0 {
        Some(seq![])
    } else if !is_high_surrogate(units[0]) && !is_low_surrogate(units[0]) {
        match decode_utf16_units(units.drop_first()) {
            Some(rest) => Some(seq![(units[0] as u32) as char] + rest),
            None => None,
        }
    } else if is_high_surrogate(units[0]) && units.len() >= 2 && is_low_surrogate(units[1]) {
        match decode_utf16_units(units.subrange(2, units.len() as int)) {
            Some(rest) => Some(seq![surrogate_pair_value(units[0], units[1]) as char] + rest),
            None => None,
        }
    } else {
        None
    }
}

/// The code unit made of bytes `2k` and `2k + 1` in the given byte order.
pub open spec fn unit_at(b: Seq<u8>, k: int, e: Utf16Endianness) -> u16 {
    match e {
        Utf16Endianness::Little => (b[2 * k] + 256 * b[2 * k + 1]) as u16,
        Utf16Endianness::Big => (256 * b[2 * k] + b[2 * k + 1]) as u16,
    }
}

/// The code units of `b`, two bytes each.
pub open spec fn utf16_units(b: Seq<u8>, e: Utf16Endianness) -> Seq<u16> {
    Seq::new(b.len() / 2, |k: int| unit_at(b, k, e))
}

/// The byte order and the payload of UTF-16 text: after a byte-order mark if
/// there is one, else the whole input in the inferred byte order.
pub open spec fn utf16_payload(b: Seq<u8>) -> Option<(Utf16Endianness, Seq<u8>)> {
    if b.len() >= 2 && b[0] == 0xff && b[1] == 0xfe {
        Some((Utf16Endianness::Little, b.subrange(2, b.len() as int)))
    } else if b.len() >= 2 && b[0] == 0xfe && b[1] == 0xff {
        Some((Utf16Endianness::Big, b.subrange(2, b.len() as int)))
    } else {
        match inferred_endianness(b) {
            Some(e) => Some((e, b)),
            None => None,
        }
    }
}

/// The text of `b` read as UTF-16: `None` without a byte order, for an empty
/// or odd-length payload, or for invalid UTF-16.
pub open spec fn decoded_utf16(b: Seq<u8>) -> Option<Seq<char>> {
    match utf16_payload(b) {
        None => None,
        Some((e, p)) => if p.len() == 0 || p.len() % 2 != 0 {
            None
        } else {
            decode_utf16_units(utf16_units(p, e))
        },
    }
}

/// The text of `b`: UTF-16 when a byte-order mark or a clear byte pattern
/// says so and the code units decode, else UTF-8 when `b` is valid UTF-8.
/// (UTF-16 text of ASCII characters without a mark is also valid UTF-8, with
/// a zero byte beside each character; its byte pattern decides.)
pub open spec fn decoded_text(b: Seq<u8>) -> Option<Seq<char>> {
    match decoded_utf16(b) {
        Some(text) => Some(text),
        None => if valid_utf8(b) {
            Some(decode_utf8(b))
        } else {
            None
        },
    }
}

/// Calls `std::str::from_utf8`, which succeeds exactly on valid UTF-8 and
/// then gives the string those bytes encode.
#[verifier::external_body]
pub(crate) fn str_from_utf8(bytes: &[u8]) -> (text: Option<&str>)
    ensures
        text is Some <==> valid_utf8(bytes@),
        text matches Some(s) ==> s@ == decode_utf8(bytes@),
{
    std::str::from_utf8(bytes).ok()
}

/// Calls `String::from_utf16`, which fails exactly on an unpaired surrogate
/// and otherwise gives the characters the code units encode.
#[verifier::external_body]
fn string_from_utf16(units: &[u16]) -> (text: Option<String>)
    ensures
        match decode_utf16_units(units@) {
            Some(cs) => text matches Some(s) && s@ == cs,
            None => text is None,
        },
{
    String::from_utf16(units).ok()
}

/// Decodes UTF-16 text, with a byte-order mark or with an inferred byte
/// order.
pub fn decode_utf16(bytes: &[u8]) -> (r: Option<String>)
    ensures
        match decoded_utf16(bytes@) {
            Some(cs) => r matches Some(s) && s@ == cs,
            None => r is None,
        },
{
    let n = bytes.len();
    let (endianness, start): (Utf16Endianness, usize) = if n >= 2 && bytes[0] == 0xff && bytes[1]
        == 0xfe {
        (Utf16Endianness::Little, 2)
    } else if n >= 2 && bytes[0] == 0xfe && bytes[1] == 0xff {
        (Utf16Endianness::Big, 2)
    } else {
        match infer_utf16_endianness(bytes) {
            Some(e) => (e, 0),
            None => {
                return None;
            },
        }
    };
    let payload = slice_subrange(bytes, start, n);
    assert(start == 0 ==> payload@ =~= bytes@);
    assert(utf16_payload(bytes@) == Some((endianness, payload@)));
    if payload.len() == 0 || payload.len() % 2 != 0 {
        return None;
    }
    let pairs = payload.len() / 2;
    let mut units: Vec<u16> = Vec::new();
    let mut k: usize = 0;
    while k < pairs
        invariant
            0 <= k <= pairs,
            pairs == payload@.len() / 2,
            payload@.len() % 2 == 0,
            pairs * 2 == payload.len(),
            payload@.len() == payload.len(),
            units@ =~= utf16_units(payload@, endianness).take(k as int),
        decreases pairs - k,
    {
        let a = payload[2 * k];
        let b = payload[2 * k + 1];
        let unit: u16 = match endianness {
            Utf16Endianness::Little => (a as u16) + (b as u16) * 256,
            Utf16Endianness::Big => (a as u16) * 256 + (b as u16),
        };
        units.push(unit);
        k = k + 1;
    }
    assert(units@ =~= utf16_units(payload@, endianness));
    string_from_utf16(units.as_slice())
}

/// The characters of `bytes` read as text, if they are text.
pub fn decode_text(bytes: &[u8]) -> (r: Option<Vec<char>>)
    ensures
        match decoded_text(bytes@) {
            Some(cs) => r matches Some(v) && v@ == cs,
            None => r is None,
        },
{
    if let Some(s) = decode_utf16(bytes) {
        return Some(chars_of(s.as_str()));
    }
    match str_from_utf8(bytes) {
        Some(text) => Some(chars_of(text)),
        None => None,
    }
}


// ---------------------------------------------------------------------------
// Encodings, and what reading them back gives
// ---------------------------------------------------------------------------

/// The UTF-16 code units of `s`: one unit below U+10000, a surrogate pair
/// above.
pub open spec fn encode_utf16(s: Seq<char>) -> Seq<u16>
    decreases s.len(),
{
    if s.len() == 0 {
        seq![]
    } else {
        let c = s[0] as u32;
        (if c < 0x10000 {
            seq![c as u16]
        } else {
            seq![(0xD800 + (c - 0x10000) / 0x400) as u16, (0xDC00 + (c - 0x10000) % 0x400) as u16]
        }) + encode_utf16(s.drop_first())
    }
}

/// The bytes of code units in the given byte order.
pub open spec fn units_to_bytes(units: Seq<u16>, e: Utf16Endianness) -> Seq<u8> {
    Seq::new(
        2 * units.len(),
        |i: int|
            {
                let u = units[i / 2];
                let low_first = match e {
                    Utf16Endianness::Little => i % 2 == 0,
                    Utf16Endianness::Big => i % 2 == 1,
                };
                if low_first {
                    (u % 256) as u8
                } else {
                    (u / 256) as u8
                }
            },
    )
}

/// The byte-order mark for `e`.
pub open spec fn byte_order_mark(e: Utf16Endianness) -> Seq<u8> {
    match e {
        Utf16Endianness::Little => seq![0xffu8, 0xfeu8],
        Utf16Endianness::Big => seq![0xfeu8, 0xffu8],
    }
}

/// `s` written as UTF-16 in byte order `e`, after a byte-order mark.
pub open spec fn utf16_with_bom(s: Seq<char>, e: Utf16Endianness) -> Seq<u8> {
    byte_order_mark(e) + units_to_bytes(encode_utf16(s), e)
}

proof fn lemma_decode_encode_utf16(s: Seq<char>)
    ensures
        decode_utf16_units(encode_utf16(s)) == Some(s),
        encode_utf16(s).len() >= s.len(),
    decreases s.len(),
{
    if s.len() > 0 {
        let c = s[0];
        let v = c as u32;
        vstd::utf8::char_is_scalar(c);
        lemma_decode_encode_utf16(s.drop_first());
        let units = encode_utf16(s);
        let rest = encode_utf16(s.drop_first());
        if v < 0x10000 {
            let u = v as u16;
            assert(units == seq![u] + rest);
            assert(units.drop_first() =~= rest);
            assert((u as u32) == v);
            vstd::utf8::char_u32_cast(c, u as u32);
            assert(seq![(u as u32) as char] + s.drop_first() =~= s);
        } else {
            let high = (0xD800 + (v - 0x10000) / 0x400) as u16;
            let low = (0xDC00 + (v - 0x10000) % 0x400) as u16;
            assert(units == seq![high, low] + rest);
            assert(units.subrange(2, units.len() as int) =~= rest);
            assert(is_high_surrogate(high));
            assert(is_low_surrogate(low));
            assert(surrogate_pair_value(high, low) == v);
            vstd::utf8::char_u32_cast(c, surrogate_pair_value(high, low));
            assert(seq![surrogate_pair_value(high, low) as char] + s.drop_first() =~= s);
        }
    }
}

proof fn lemma_units_round_trip(units: Seq<u16>, e: Utf16Endianness)
    ensures
        utf16_units(units_to_bytes(units, e), e) == units,
{
    let b = units_to_bytes(units, e);
    assert forall|k: int| 0 <= k < units.len() implies unit_at(b, k, e) == units[k] by {
        assert((2 * k) / 2 == k);
        assert((2 * k + 1) / 2 == k);
        assert((2 * k) % 2 == 0);
        assert((2 * k + 1) % 2 == 1);
        let u = units[k];
        assert((u % 256) + 256 * (u / 256) == u);
    }
    assert(utf16_units(b, e) =~= units);
}

/// Text written as UTF-16 with a byte-order mark reads back as that text.
pub proof fn law_utf16_with_bom_reads_back(s: Seq<char>, e: Utf16Endianness)
    requires
        s.len() > 0,
    ensures
        decoded_text(utf16_with_bom(s, e)) == Some(s),
{
    let units = encode_utf16(s);
    let b = utf16_with_bom(s, e);
    let payload = units_to_bytes(units, e);
    assert(units.len() > 0) by {
        lemma_decode_encode_utf16(s);
    }
    assert(utf16_payload(b) == Some((e, payload))) by {
        assert(b.subrange(2, b.len() as int) =~= payload);
        assert(b[0] == byte_order_mark(e)[0] && b[1] == byte_order_mark(e)[1]);
    }
    assert(payload.len() > 0 && payload.len() % 2 == 0) by {
        assert(payload.len() == 2 * units.len());
    }
    assert(decode_utf16_units(utf16_units(payload, e)) == Some(s)) by {
        lemma_units_round_trip(units, e);
        lemma_decode_encode_utf16(s);
    }
}

/// A byte-order mark with nothing after it is not text.
pub proof fn law_bare_byte_order_mark_is_not_text(e: Utf16Endianness)
    ensures
        decoded_text(byte_order_mark(e)) is None,
{
    let b = byte_order_mark(e);
    assert(b.subrange(2, 2) =~= Seq::<u8>::empty());
    assert(decoded_utf16(b) is None);
    assert(!vstd::utf8::valid_first_scalar(b));
}

proof fn lemma_no_zeros(b: Seq<u8>, parity: int, n: int)
    requires
        n <= b.len(),
        forall|i: int| 0 <= i < b.len() ==> b[i] != 0,
    ensures
        zeros_at_parity(b, parity, n) == 0,
    decreases n,
{
    if n > 0 {
        lemma_no_zeros(b, parity, n - 1);
    }
}

/// Valid UTF-8 without zero bytes reads as UTF-8: it has no byte-order
/// mark and no UTF-16 byte pattern.
pub proof fn law_utf8_without_zero_bytes_reads_as_utf8(b: Seq<u8>)
    requires
        valid_utf8(b),
        forall|i: int| 0 <= i < b.len() ==> b[i] != 0,
    ensures
        decoded_utf16(b) is None,
        decoded_text(b) == Some(decode_utf8(b)),
{
    lemma_no_zeros(b, 0, b.len() as int);
    lemma_no_zeros(b, 1, b.len() as int);
    assert(inferred_endianness(b) is None);
    if b.len() >= 2 {
        assert(vstd::utf8::valid_first_scalar(b));
    }
    assert(decoded_utf16(b) is None);
}

/// The other byte order.
pub open spec fn flipped(e: Utf16Endianness) -> Utf16Endianness {
    match e {
        Utf16Endianness::Little => Utf16Endianness::Big,
        Utf16Endianness::Big => Utf16Endianness::Little,
    }
}

/// `b` with the two bytes of each pair exchanged.
pub open spec fn swap_pairs(b: Seq<u8>) -> Seq<u8> {
    Seq::new(
        b.len(),
        |i: int|
            if i % 2 == 0 {
                b[i + 1]
            } else {
                b[i - 1]
            },
    )
}

proof fn lemma_swap_zeros(b: Seq<u8>, k: int)
    requires
        b.len() % 2 == 0,
        0 <= k,
        2 * k <= b.len(),
    ensures
        zeros_at_parity(swap_pairs(b), 0, 2 * k) == zeros_at_parity(b, 1, 2 * k),
        zeros_at_parity(swap_pairs(b), 1, 2 * k) == zeros_at_parity(b, 0, 2 * k),
    decreases k,
{
    if k > 0 {
        lemma_swap_zeros(b, k - 1);
        let s = swap_pairs(b);
        let n = 2 * k;
        assert((n - 1) % 2 == 1 && (n - 2) % 2 == 0);
        assert(s[n - 2] == b[n - 1] && s[n - 1] == b[n - 2]);
        assert(zeros_at_parity(s, 0, n - 1) == zeros_at_parity(s, 0, n - 2) + if s[n - 2] == 0 {
            1nat
        } else {
            0nat
        });
        assert(zeros_at_parity(s, 1, n) == zeros_at_parity(s, 1, n - 1) + if s[n - 1] == 0 {
            1nat
        } else {
            0nat
        });
        assert(zeros_at_parity(b, 0, n - 1) == zeros_at_parity(b, 0, n - 2) + if b[n - 2] == 0 {
            1nat
        } else {
            0nat
        });
        assert(zeros_at_parity(b, 1, n) == zeros_at_parity(b, 1, n - 1) + if b[n - 1] == 0 {
            1nat
        } else {
            0nat
        });
    }
}

proof fn lemma_swap_units(p: Seq<u8>, e: Utf16Endianness)
    requires
        p.len() % 2 == 0,
    ensures
        utf16_units(swap_pairs(p), flipped(e)) == utf16_units(p, e),
{
    let s = swap_pairs(p);
    assert forall|k: int| 0 <= k < p.len() / 2 implies unit_at(s, k, flipped(e)) == unit_at(
        p,
        k,
        e,
    ) by {
        assert((2 * k) % 2 == 0 && (2 * k + 1) % 2 == 1);
        assert(s[2 * k] == p[2 * k + 1] && s[2 * k + 1] == p[2 * k]);
    }
    assert(utf16_units(s, flipped(e)) =~= utf16_units(p, e));
}

/// Exchanging the bytes of every pair exchanges the byte order that the
/// zero bytes show, and UTF-16 text (with or without a byte-order mark)
/// reads the same in either byte order.
pub proof fn law_byte_swapped_utf16_reads_the_same(b: Seq<u8>)
    requires
        b.len() % 2 == 0,
    ensures
        inferred_endianness(swap_pairs(b)) == match inferred_endianness(b) {
            Some(e) => Some(flipped(e)),
            None => None,
        },
        decoded_utf16(swap_pairs(b)) == decoded_utf16(b),
{
    let s = swap_pairs(b);
    let n = b.len() as int;
    lemma_swap_zeros(b, n / 2);
    assert(2 * (n / 2) == n);
    if b.len() >= 2 {
        assert(s[0] == b[1] && s[1] == b[0]);
        let tail = b.subrange(2, n);
        assert(s.subrange(2, n) =~= swap_pairs(tail)) by {
            assert forall|i: int| 0 <= i < n - 2 implies s.subrange(2, n)[i] == swap_pairs(tail)[i] by {
                assert((i + 2) % 2 == i % 2);
            }
        }
        if b[0] == 0xff && b[1] == 0xfe {
            lemma_swap_units(tail, Utf16Endianness::Little);
        } else if b[0] == 0xfe && b[1] == 0xff {
            lemma_swap_units(tail, Utf16Endianness::Big);
        } else {
            match inferred_endianness(b) {
                Some(e) => lemma_swap_units(b, e),
                None => {},
            }
        }
    } else {
        assert(s =~= b);
    }
}

/// The byte order is inferred only for an even length of at least eight
/// bytes: little-endian when at least two thirds of the pairs have a zero
/// second byte and at most a quarter a zero first byte, big-endian the
/// other way round.
pub proof fn law_inference_thresholds(b: Seq<u8>)
    ensures
        inferred_endianness(b) == if b.len() >= 8 && b.len() % 2 == 0 {
            let pairs = b.len() / 2;
            let first_zeros = zeros_at_parity(b, 0, b.len() as int);
            let second_zeros = zeros_at_parity(b, 1, b.len() as int);
            if 3 * second_zeros >= 2 * pairs && 4 * first_zeros <= pairs {
                Some(Utf16Endianness::Little)
            } else if 3 * first_zeros >= 2 * pairs && 4 * second_zeros <= pairs {
                Some(Utf16Endianness::Big)
            } else {
                None
            }
        } else {
            None
        },
{
}

} // verus!
