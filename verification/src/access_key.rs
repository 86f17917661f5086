//! AWS access key IDs: `AKIA` and sixteen ASCII capital letters or digits,
//! looked for in the bytes of a line.
use vstd::prelude::*;
use vstd::utf8::{
    char_is_scalar, char_u32_cast, encode_scalar, encode_utf8, is_ascii_chars,
    is_ascii_chars_encode_utf8, last_continuation_byte, leading_byte_width_2,
    leading_byte_width_3, leading_byte_width_4, second_last_continuation_byte,
    third_last_continuation_byte,
};
use crate::text::{is_ascii_digit, is_ascii_upper, is_digit, is_upper};

verus! {

pub open spec fn is_key_id_char(c: char) -> bool {
    is_ascii_upper(c) || is_ascii_digit(c)
}

/// Twenty characters from position `i`: `A`, `K`, `I`, `A`, then sixteen
/// ASCII capital letters or digits.
pub open spec fn access_key_at(s: Seq<char>, i: int) -> bool {
    &&& 0 <= i && i + 20 <= s.len()
    &&& s[i] == 'A' && s[i + 1] == 'K' && s[i + 2] == 'I' && s[i + 3] == 'A'
    &&& forall|j: int| i + 4 <= j < i + 20 ==> is_key_id_char(#[trigger] s[j])
}

pub open spec fn has_access_key_chars(s: Seq<char>) -> bool {
    exists|i: int| access_key_at(s, i)
}

pub open spec fn is_key_id_byte(b: u8) -> bool {
    (0x41 <= b <= 0x5a) || (0x30 <= b <= 0x39)
}

/// Twenty bytes from position `i`: `AKIA`, then sixteen ASCII capital
/// letters or digits.
pub open spec fn access_key_bytes_at(b: Seq<u8>, i: int) -> bool {
    &&& 0 <= i && i + 20 <= b.len()
    &&& b[i] == 0x41 && b[i + 1] == 0x4b && b[i + 2] == 0x49 && b[i + 3] == 0x41
    &&& forall|j: int| i + 4 <= j < i + 20 ==> is_key_id_byte(#[trigger] b[j])
}

/// Some window of twenty bytes of the line's UTF-8 encoding has the shape of
/// an AWS access key ID.
pub open spec fn has_access_key(line: Seq<char>) -> bool {
    exists|i: int| access_key_bytes_at(encode_utf8(line), i)
}

proof fn lemma_encode_utf8_concat(a: Seq<char>, b: Seq<char>)
    ensures
        encode_utf8(a + b) == encode_utf8(a) + encode_utf8(b),
    decreases a.len(),
{
    if a.len() == 0 {
        assert(a + b =~= b);
        assert(encode_utf8(a) + encode_utf8(b) =~= encode_utf8(b));
    } else {
        assert((a + b).drop_first() =~= a.drop_first() + b);
        lemma_encode_utf8_concat(a.drop_first(), b);
        assert(encode_utf8(a + b) =~= encode_utf8(a) + encode_utf8(b));
    }
}

/// The UTF-8 encoding of a character: one byte equal to it below 0x80,
/// else bytes that are all at least 0x80.
proof fn lemma_scalar_bytes(c: char)
    ensures
        (c as u32) < 0x80 ==> encode_scalar(c as u32) == seq![(c as u32) as u8],
        (c as u32) >= 0x80 ==> forall|i: int|
            0 <= i < encode_scalar(c as u32).len() ==> #[trigger] encode_scalar(c as u32)[i] >= 0x80,
{
    let v = c as u32;
    char_is_scalar(c);
    let b2 = leading_byte_width_2(v);
    let b3 = leading_byte_width_3(v);
    let b4 = leading_byte_width_4(v);
    let c1 = last_continuation_byte(v);
    let c2 = second_last_continuation_byte(v);
    let c3 = third_last_continuation_byte(v);
    assert(v < 0x80 ==> (v & 0x7f) as u8 == v as u8) by (bit_vector);
    assert(b2 >= 0x80) by (bit_vector)
        requires
            b2 == 0xc0 | (((v >> 6) & 0x1f) as u8),
    ;
    assert(b3 >= 0x80) by (bit_vector)
        requires
            b3 == 0xe0 | (((v >> 12) & 0x0f) as u8),
    ;
    assert(b4 >= 0x80) by (bit_vector)
        requires
            b4 == 0xf0 | (((v >> 18) & 0x07) as u8),
    ;
    assert(c1 >= 0x80) by (bit_vector)
        requires
            c1 == 0x80 | ((v & 0x3f) as u8),
    ;
    assert(c2 >= 0x80) by (bit_vector)
        requires
            c2 == 0x80 | (((v >> 6) & 0x3f) as u8),
    ;
    assert(c3 >= 0x80) by (bit_vector)
        requires
            c3 == 0x80 | (((v >> 12) & 0x3f) as u8),
    ;
}

/// Where the first `m` bytes of an encoding are all ASCII, they are the
/// first `m` characters, one byte each.
proof fn lemma_ascii_prefix(s: Seq<char>, m: int)
    requires
        0 <= m <= encode_utf8(s).len(),
        forall|j: int| 0 <= j < m ==> encode_utf8(s)[j] < 0x80,
    ensures
        m <= s.len(),
        forall|j: int|
            #![trigger s[j]]
            #![trigger encode_utf8(s)[j]]
            0 <= j < m ==> (s[j] as u32) < 0x80 && ((s[j] as u32) as u8) == encode_utf8(s)[j],
    decreases m,
{
    if m > 0 {
        let c = s[0];
        let r = s.drop_first();
        lemma_scalar_bytes(c);
        let h = encode_scalar(c as u32);
        assert(encode_utf8(s) == h + encode_utf8(r));
        assert(encode_utf8(s)[0] < 0x80);
        assert(encode_utf8(s)[0] == h[0]);
        assert((c as u32) < 0x80) by {
            if (c as u32) >= 0x80 {
                assert(h[0] >= 0x80);
            }
        }
        assert(h.len() == 1);
        assert forall|j: int| 0 <= j < m - 1 implies encode_utf8(r)[j] < 0x80 by {
            assert(encode_utf8(s)[j + 1] == encode_utf8(r)[j]);
        }
        lemma_ascii_prefix(r, m - 1);
        assert forall|j: int|
            #![trigger s[j]]
            #![trigger encode_utf8(s)[j]]
            0 <= j < m implies (s[j] as u32) < 0x80 && ((s[j] as u32) as u8) == encode_utf8(s)[j] by {
            if j == 0 {
                assert(encode_utf8(s)[0] == h[0]);
                assert((c as u32) < 0x80);
            } else {
                assert(encode_utf8(s)[j] == encode_utf8(r)[j - 1]);
                assert(s[j] == r[j - 1]);
            }
        }
    }
}

proof fn lemma_small_code(v: u32)
    requires
        v < 0x80,
    ensures
        (v as u8) as u32 == v,
{
    assert(v < 0x80 ==> (v as u8) as u32 == v) by (bit_vector);
}

proof fn lemma_key_id_char(c: char)
    requires
        (c as u32) < 0x80,
    ensures
        is_key_id_char(c) <==> is_key_id_byte((c as u32) as u8),
{
    lemma_small_code(c as u32);
    assert(('A' as u32) == 0x41);
    assert(('Z' as u32) == 0x5a);
    assert(('0' as u32) == 0x30);
    assert(('9' as u32) == 0x39);
}

/// An ASCII character equals the character of its code.
proof fn lemma_ascii_char_eq(c: char, d: char)
    requires
        (c as u32) == (d as u32),
    ensures
        c == d,
{
    char_u32_cast(c, c as u32);
    char_u32_cast(d, d as u32);
}

proof fn lemma_bytes_window_gives_chars(s: Seq<char>, i: int)
    requires
        access_key_bytes_at(encode_utf8(s), i),
    ensures
        has_access_key_chars(s),
    decreases s.len(),
{
    let b = encode_utf8(s);
    if s.len() == 0 {
        assert(b.len() == 0);
    } else {
        let c = s[0];
        let r = s.drop_first();
        lemma_scalar_bytes(c);
        let h = encode_scalar(c as u32);
        assert(b == h + encode_utf8(r));
        if i < h.len() {
            assert(b[i] == h[i]);
            if (c as u32) >= 0x80 {
                assert(false);
            }
            assert(i == 0);
            assert forall|j: int| 0 <= j < 20 implies b[j] < 0x80 by {
                if 4 <= j {
                    assert(is_key_id_byte(b[j]));
                }
            }
            lemma_ascii_prefix(s, 20);
            assert forall|j: int| 0 <= j < 20 implies ((#[trigger] s[j] as u32) as u8) as u32 == s[j] as u32 by {
                lemma_small_code(s[j] as u32);
            }
            lemma_ascii_char_eq(s[0], 'A');
            lemma_ascii_char_eq(s[1], 'K');
            lemma_ascii_char_eq(s[2], 'I');
            lemma_ascii_char_eq(s[3], 'A');
            assert forall|j: int| 4 <= j < 20 implies is_key_id_char(#[trigger] s[j]) by {
                assert(is_key_id_byte(b[j]));
                assert(((s[j] as u32) as u8) == b[j]);
                lemma_key_id_char(s[j]);
            }
            assert(access_key_at(s, 0));
        } else {
            let k = i - h.len();
            assert forall|q: int| i <= q < i + 20 implies encode_utf8(r)[q - h.len()] == #[trigger] b[q] by {}
            assert forall|j: int| k + 4 <= j < k + 20 implies is_key_id_byte(
                #[trigger] encode_utf8(r)[j],
            ) by {
                assert(encode_utf8(r)[j] == b[j + h.len()]);
            }
            assert(encode_utf8(r)[k] == b[i]);
            assert(encode_utf8(r)[k + 1] == b[i + 1]);
            assert(encode_utf8(r)[k + 2] == b[i + 2]);
            assert(encode_utf8(r)[k + 3] == b[i + 3]);
            assert(access_key_bytes_at(encode_utf8(r), k));
            lemma_bytes_window_gives_chars(r, k);
            let q = choose|q: int| access_key_at(r, q);
            assert forall|j: int| q + 1 <= j < q + 21 implies #[trigger] s[j] == r[j - 1] by {}
            assert(access_key_at(s, q + 1));
        }
    }
}

proof fn lemma_chars_give_bytes_window(s: Seq<char>, k: int)
    requires
        access_key_at(s, k),
    ensures
        has_access_key(s),
{
    let a = s.subrange(0, k);
    let m = s.subrange(k, k + 20);
    let z = s.subrange(k + 20, s.len() as int);
    assert(s =~= a + m + z);
    lemma_encode_utf8_concat(a + m, z);
    lemma_encode_utf8_concat(a, m);
    assert forall|j: int| 0 <= j < m.len() implies '\0' <= #[trigger] m[j] <= '\u{7f}' by {
        assert(m[j] == s[k + j]);
    }
    assert(is_ascii_chars(m));
    is_ascii_chars_encode_utf8(m);
    let b = encode_utf8(s);
    let i = encode_utf8(a).len() as int;
    assert forall|j: int| 0 <= j < 20 implies b[i + j] == #[trigger] encode_utf8(m)[j] by {}
    assert(b[i] == 0x41) by {
        assert(encode_utf8(m)[0] == m[0] as u8);
    }
    assert(b[i + 1] == 0x4b) by {
        assert(encode_utf8(m)[1] == m[1] as u8);
    }
    assert(b[i + 2] == 0x49) by {
        assert(encode_utf8(m)[2] == m[2] as u8);
    }
    assert(b[i + 3] == 0x41) by {
        assert(encode_utf8(m)[3] == m[3] as u8);
    }
    assert forall|j: int| i + 4 <= j < i + 20 implies is_key_id_byte(#[trigger] b[j]) by {
        assert(b[j] == encode_utf8(m)[j - i]);
        assert(encode_utf8(m)[j - i] == m[j - i] as u8);
        assert(is_key_id_char(s[k + (j - i)]));
    }
    assert(access_key_bytes_at(b, i));
}

/// The byte windows of the UTF-8 encoding and the character windows of the
/// line agree: an access key ID shape is ASCII, so its bytes are its
/// characters.
pub proof fn law_access_key_bytes_are_chars(s: Seq<char>)
    ensures
        has_access_key(s) == has_access_key_chars(s),
{
    if has_access_key(s) {
        let i = choose|i: int| access_key_bytes_at(encode_utf8(s), i);
        lemma_bytes_window_gives_chars(s, i);
    }
    if has_access_key_chars(s) {
        let k = choose|k: int| access_key_at(s, k);
        lemma_chars_give_bytes_window(s, k);
    }
}

/// Whether `line` holds an AWS access key ID shape.
pub fn contains_aws_access_key(line: &[char]) -> (b: bool)
    ensures
        b == has_access_key(line@),
{
    proof {
        law_access_key_bytes_are_chars(line@);
    }
    let n = line.len();
    if n < 20 {
        return false;
    }
    let mut i: usize = 0;
    while i < n - 19
        invariant
            0 <= i <= n - 19,
            n == line@.len(),
            n >= 20,
            has_access_key(line@) == has_access_key_chars(line@),
            forall|k: int| 0 <= k < i ==> !access_key_at(line@, k),
        decreases n - 19 - i,
    {
        if line[i] == 'A' && line[i + 1] == 'K' && line[i + 2] == 'I' && line[i + 3] == 'A' {
            let mut ok = true;
            let mut j: usize = i + 4;
            while j < i + 20
                invariant
                    i + 4 <= j <= i + 20,
                    i + 20 <= n,
                    n == line@.len(),
                    ok == (forall|q: int| i + 4 <= q < j ==> is_key_id_char(#[trigger] line@[q])),
                decreases i + 20 - j,
            {
                let c = line[j];
                ok = ok && (is_upper(c) || is_digit(c));
                j = j + 1;
            }
            if ok {
                assert(access_key_at(line@, i as int));
                assert(has_access_key_chars(line@));
                return true;
            }
        }
        i = i + 1;
    }
    false
}

/// A line holds an AWS access key ID exactly when, somewhere in it, `AKIA`
/// is followed by sixteen characters that are each an ASCII capital letter
/// or digit.
pub proof fn law_access_key_spelled_out(line: Seq<char>)
    ensures
        has_access_key(line) <==> exists|i: int|
            0 <= i && i + 20 <= line.len() && #[trigger] line[i] == 'A' && line[i + 1] == 'K'
                && line[i + 2] == 'I' && line[i + 3] == 'A' && forall|j: int|
                i + 4 <= j < i + 20 ==> ('A' <= #[trigger] line[j] && line[j] <= 'Z') || ('0'
                    <= line[j] && line[j] <= '9'),
{
    law_access_key_bytes_are_chars(line);
    if has_access_key_chars(line) {
        let i = choose|i: int| access_key_at(line, i);
        assert(line[i] == 'A');
    }
    if exists|i: int|
        0 <= i && i + 20 <= line.len() && #[trigger] line[i] == 'A' && line[i + 1] == 'K'
            && line[i + 2] == 'I' && line[i + 3] == 'A' && forall|j: int|
            i + 4 <= j < i + 20 ==> ('A' <= #[trigger] line[j] && line[j] <= 'Z') || ('0'
                <= line[j] && line[j] <= '9') {
        let i = choose|i: int|
            0 <= i && i + 20 <= line.len() && #[trigger] line[i] == 'A' && line[i + 1] == 'K'
                && line[i + 2] == 'I' && line[i + 3] == 'A' && forall|j: int|
                i + 4 <= j < i + 20 ==> ('A' <= #[trigger] line[j] && line[j] <= 'Z') || ('0'
                    <= line[j] && line[j] <= '9');
        assert(access_key_at(line, i));
    }
}

} // verus!
