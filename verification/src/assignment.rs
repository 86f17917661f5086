//! Assignments of real-looking values to sensitive-looking variables.
use vstd::prelude::*;
use vstd::slice::slice_subrange;
use vstd::utf8::encode_utf8;
use crate::text::{
    ascii_upper, chars_of, contains, contains_chars, find_char, first_index_of, is_alnum,
    is_alpha, is_ascii_alnum, is_ascii_alpha, is_quote, is_unicode_whitespace, lemma_first_index_after,
    lemma_first_index_none, lemma_first_index_of, lemma_strip_leading_after,
    lemma_strip_leading_split, lemma_strip_trailing_after, lemma_strip_trailing_all,
    lemma_strip_trailing_keeps_first, quote_pred, starts_with, starts_with_chars, strip_leading,
    strip_trailing, to_ascii_upper, trim, trim_chars, trim_matching, utf8_len_at_least,
    whitespace_pred, TrimSet,
};

verus! {

/// An assignment target: an ASCII letter or `_`, then ASCII letters, digits
/// or `_`.
pub open spec fn is_identifier(k: Seq<char>) -> bool {
    &&& k.len() > 0
    &&& is_ascii_alpha(k[0]) || k[0] == '_'
    &&& forall|j: int| 1 <= j < k.len() ==> is_ascii_alnum(#[trigger] k[j]) || k[j] == '_'
}

/// The upper-cased name holds one of the sensitive words.
pub open spec fn names_sensitive(upper: Seq<char>) -> bool {
    ||| contains(upper, "API_KEY"@)
    ||| contains(upper, "SECRET"@)
    ||| contains(upper, "TOKEN"@)
    ||| contains(upper, "PASSWORD"@)
    ||| contains(upper, "PRIVATE_KEY"@)
    ||| contains(upper, "ACCESS_KEY"@)
}

/// The upper-cased value holds one of the placeholder words.
pub open spec fn names_placeholder(upper: Seq<char>) -> bool {
    ||| contains(upper, "EXAMPLE"@)
    ||| contains(upper, "CHANGEME"@)
    ||| contains(upper, "CHANGE_ME"@)
    ||| contains(upper, "PLACEHOLDER"@)
    ||| contains(upper, "REPLACE_ME"@)
    ||| contains(upper, "YOUR_"@)
    ||| contains(upper, "DUMMY"@)
}

/// Every character is `*`, `x` or `X`.
pub open spec fn is_masked(v: Seq<char>) -> bool {
    forall|j: int| 0 <= j < v.len() ==> #[trigger] v[j] == '*' || v[j] == 'x' || v[j] == 'X'
}

/// The line without surrounding whitespace and without a leading `export `.
pub open spec fn assignment_body(line: Seq<char>) -> Seq<char> {
    let t = trim(line);
    if starts_with(t, "export "@) {
        t.subrange("export "@.len() as int, t.len() as int)
    } else {
        t
    }
}

/// The target and the value of an assignment line: `None` for a blank line,
/// a `#` or `//` comment, or a line without `=`; else the text before the
/// first `=` (after an optional `export `) without surrounding whitespace,
/// and the text after it without surrounding whitespace and then quotes.
pub open spec fn assignment_parts(line: Seq<char>) -> Option<(Seq<char>, Seq<char>)> {
    let t = trim(line);
    if t.len() == 0 || t[0] == '#' || starts_with(t, "//"@) {
        None
    } else {
        let body = assignment_body(line);
        match first_index_of(body, '=') {
            None => None,
            Some(e) => Some(
                (
                    trim(body.subrange(0, e)),
                    trim_matching(trim(body.subrange(e + 1, body.len() as int)), quote_pred()),
                ),
            ),
        }
    }
}

/// Whether the line looks like a real value assigned to a sensitive-looking
/// variable: an identifier naming a sensitive word, whatever its ASCII case,
/// and a value of at least eight UTF-8 bytes that is neither a placeholder
/// word (in any ASCII case) nor made only of `*`, `x`, `X`.
pub open spec fn is_sensitive_assignment(line: Seq<char>) -> bool {
    match assignment_parts(line) {
        None => false,
        Some((key, value)) => {
            &&& is_identifier(key)
            &&& names_sensitive(ascii_upper(key))
            &&& encode_utf8(value).len() >= 8
            &&& !names_placeholder(ascii_upper(value))
            &&& !is_masked(value)
        },
    }
}

fn check_identifier(k: &[char]) -> (b: bool)
    ensures
        b == is_identifier(k@),
{
    let n = k.len();
    if n == 0 {
        return false;
    }
    if !(is_alpha(k[0]) || k[0] == '_') {
        return false;
    }
    let mut j: usize = 1;
    while j < n
        invariant
            1 <= j <= n,
            n == k@.len(),
            forall|q: int| 1 <= q < j ==> is_ascii_alnum(#[trigger] k@[q]) || k@[q] == '_',
        decreases n - j,
    {
        if !(is_alnum(k[j]) || k[j] == '_') {
            return false;
        }
        j = j + 1;
    }
    true
}

fn check_names_sensitive(u: &[char]) -> (b: bool)
    ensures
        b == names_sensitive(u@),
{
    contains_chars(u, &chars_of("API_KEY")) || contains_chars(u, &chars_of("SECRET"))
        || contains_chars(u, &chars_of("TOKEN")) || contains_chars(u, &chars_of("PASSWORD"))
        || contains_chars(u, &chars_of("PRIVATE_KEY")) || contains_chars(u, &chars_of("ACCESS_KEY"))
}

fn check_names_placeholder(u: &[char]) -> (b: bool)
    ensures
        b == names_placeholder(u@),
{
    contains_chars(u, &chars_of("EXAMPLE")) || contains_chars(u, &chars_of("CHANGEME"))
        || contains_chars(u, &chars_of("CHANGE_ME")) || contains_chars(u, &chars_of("PLACEHOLDER"))
        || contains_chars(u, &chars_of("REPLACE_ME")) || contains_chars(u, &chars_of("YOUR_"))
        || contains_chars(u, &chars_of("DUMMY"))
}

fn check_masked(v: &[char]) -> (b: bool)
    ensures
        b == is_masked(v@),
{
    let n = v.len();
    let mut j: usize = 0;
    while j < n
        invariant
            0 <= j <= n,
            n == v@.len(),
            forall|q: int| 0 <= q < j ==> #[trigger] v@[q] == '*' || v@[q] == 'x' || v@[q] == 'X',
        decreases n - j,
    {
        if !(v[j] == '*' || v[j] == 'x' || v[j] == 'X') {
            return false;
        }
        j = j + 1;
    }
    true
}

/// Whether `line` looks like a real value assigned to a sensitive-looking
/// variable.
pub fn looks_like_sensitive_assignment(line: &[char]) -> (b: bool)
    ensures
        b == is_sensitive_assignment(line@),
{
    let t = trim_chars(line, &TrimSet::Whitespace);
    if t.len() == 0 || t[0] == '#' || starts_with_chars(t, &chars_of("//")) {
        return false;
    }
    let export = chars_of("export ");
    let body = if starts_with_chars(t, &export) {
        slice_subrange(t, export.len(), t.len())
    } else {
        t
    };
    assert(body@ == assignment_body(line@));
    let e = match find_char(body, '=') {
        Some(e) => e,
        None => {
            return false;
        },
    };
    proof {
        lemma_first_index_of(body@, '=');
    }
    let key = trim_chars(slice_subrange(body, 0, e), &TrimSet::Whitespace);
    if !check_identifier(key) {
        return false;
    }
    let key_upper = to_ascii_upper(key);
    if !check_names_sensitive(&key_upper) {
        return false;
    }
    let value = trim_chars(trim_chars(slice_subrange(body, e + 1, body.len()), &TrimSet::Whitespace), &TrimSet::Quotes);
    if !utf8_len_at_least(value, 8) {
        return false;
    }
    let value_upper = to_ascii_upper(value);
    if check_names_placeholder(&value_upper) {
        return false;
    }
    if check_masked(value) {
        return false;
    }
    true
}

/// Whitespace in front of a text makes no difference to its trim.
proof fn lemma_trim_after_whitespace(w: Seq<char>, s: Seq<char>)
    requires
        forall|i: int| 0 <= i < w.len() ==> is_unicode_whitespace(w[i]),
    ensures
        trim(w + s) == trim(s),
{
    lemma_strip_leading_after(w, s, whitespace_pred());
}

/// The trim of a text that starts with a character other than whitespace
/// starts with that character.
proof fn lemma_trim_keeps_first(s: Seq<char>)
    requires
        s.len() > 0,
        !is_unicode_whitespace(s[0]),
    ensures
        trim(s).len() > 0,
        trim(s)[0] == s[0],
{
    assert(strip_leading(s, whitespace_pred()) == s);
    lemma_strip_trailing_keeps_first(s, whitespace_pred());
}

/// With a line that is only whitespace, `export ` and the line trim to
/// `export`.
proof fn lemma_export_of_blank(line: Seq<char>)
    requires
        forall|i: int| 0 <= i < line.len() ==> is_unicode_whitespace(line[i]),
    ensures
        trim(line).len() == 0,
        trim("export "@ + line) == "export "@.drop_last(),
{
    reveal_strlit("export ");
    let ws = whitespace_pred();
    let ex = "export "@;
    lemma_strip_leading_after(line, Seq::<char>::empty(), ws);
    assert(line + Seq::<char>::empty() =~= line);
    assert((ex + line)[0] == 'e');
    assert(strip_leading(ex + line, ws) == ex + line);
    lemma_strip_trailing_all(ex, line, ws);
    assert(ex.last() == ' ');
    assert(ex.drop_last().last() == 't');
    assert(strip_trailing(ex.drop_last(), ws) == ex.drop_last());
    assert(strip_trailing(ex, ws) == strip_trailing(ex.drop_last(), ws));
}

/// With a line that holds something besides whitespace, `export ` and the
/// line trim to `export `, the line's leading whitespace `w` and the line's
/// trim.
proof fn lemma_export_of_text(line: Seq<char>, j: int) -> (w: Seq<char>)
    requires
        0 <= j < line.len(),
        !is_unicode_whitespace(line[j]),
    ensures
        forall|i: int| 0 <= i < w.len() ==> is_unicode_whitespace(#[trigger] w[i]),
        trim("export "@ + line) == "export "@ + w + trim(line),
{
    reveal_strlit("export ");
    let ws = whitespace_pred();
    let ex = "export "@;
    let k = lemma_strip_leading_split(line, ws);
    let w = line.subrange(0, k);
    let rest = line.subrange(k, line.len() as int);
    assert(line =~= w + rest);
    assert(j >= k);
    assert(rest[j - k] == line[j]);
    lemma_strip_trailing_after(w, rest, ws, j - k);
    assert((ex + line)[0] == 'e');
    assert(strip_leading(ex + line, ws) == ex + line);
    lemma_strip_trailing_after(ex, line, ws, j);
    assert(ex + (w + trim(line)) =~= ex + w + trim(line));
    w
}

/// A line whose trim is empty or starts with `#` or `//` is no sensitive
/// assignment even after whitespace `w` and whatever came before it.
proof fn lemma_comment_after_whitespace_is_no_assignment(w: Seq<char>, t: Seq<char>)
    requires
        forall|i: int| 0 <= i < w.len() ==> is_unicode_whitespace(#[trigger] w[i]),
        t.len() == 0 || t[0] == '#' || t[0] == '/',
    ensures
        match first_index_of(w + t, '=') {
            None => true,
            Some(e) => !is_identifier(trim((w + t).subrange(0, e))),
        },
{
    assert forall|i: int| 0 <= i < w.len() implies w[i] != '=' by {
        assert(is_unicode_whitespace(w[i]));
    }
    lemma_first_index_after(w, t, '=');
    lemma_first_index_of(t, '=');
    if let Some(e) = first_index_of(t, '=') {
        let t0 = t.subrange(0, e);
        assert(e > 0);
        assert((w + t).subrange(0, w.len() + e) =~= w + t0);
        lemma_trim_after_whitespace(w, t0);
        assert(t0[0] == t[0]);
        lemma_trim_keeps_first(t0);
    }
}

/// A single leading `export ` never changes the verdict on a line, unless
/// the line's own trimmed text starts with `export ` (the prefix is dropped
/// only once).
pub proof fn law_export_prefix_keeps_the_verdict(line: Seq<char>)
    requires
        !starts_with(trim(line), "export "@),
    ensures
        is_sensitive_assignment("export "@ + line) == is_sensitive_assignment(line),
{
    reveal_strlit("export ");
    reveal_strlit("//");
    let ex = "export "@;
    let x = ex + line;
    if forall|i: int| 0 <= i < line.len() ==> is_unicode_whitespace(line[i]) {
        lemma_export_of_blank(line);
        let t2 = ex.drop_last();
        assert(t2[0] == 'e');
        assert(!starts_with(t2, "//"@)) by {
            if starts_with(t2, "//"@) {
                assert(t2.subrange(0, 2)[0] == t2[0]);
            }
        }
        assert(!starts_with(t2, ex));
        assert(assignment_body(x) == t2);
        lemma_first_index_none(t2, '=');
        assert(assignment_parts(x) is None);
        assert(assignment_parts(line) is None);
    } else {
        let j = choose|j: int| 0 <= j < line.len() && !is_unicode_whitespace(line[j]);
        let w = lemma_export_of_text(line, j);
        let t = trim(line);
        let tx = trim(x);
        assert(tx[0] == 'e');
        assert(!starts_with(tx, "//"@)) by {
            if starts_with(tx, "//"@) {
                assert(tx.subrange(0, 2)[0] == tx[0]);
            }
        }
        assert(tx.subrange(0, 7) =~= ex);
        assert(assignment_body(x) =~= w + t);
        assert(assignment_parts(x) == match first_index_of(w + t, '=') {
            None => None,
            Some(e) => Some(
                (
                    trim((w + t).subrange(0, e)),
                    trim_matching(trim((w + t).subrange(e + 1, (w + t).len() as int)), quote_pred()),
                ),
            ),
        });
        if t.len() == 0 || t[0] == '#' || starts_with(t, "//"@) {
            if starts_with(t, "//"@) {
                assert(t[0] == t.subrange(0, 2)[0]);
            }
            lemma_comment_after_whitespace_is_no_assignment(w, t);
            assert(!is_sensitive_assignment(line));
        } else {
            assert(assignment_body(line) == t);
            assert forall|i: int| 0 <= i < w.len() implies w[i] != '=' by {
                assert(is_unicode_whitespace(w[i]));
            }
            lemma_first_index_after(w, t, '=');
            lemma_first_index_of(t, '=');
            if let Some(e) = first_index_of(t, '=') {
                assert((w + t).subrange(0, w.len() + e) =~= w + t.subrange(0, e));
                lemma_trim_after_whitespace(w, t.subrange(0, e));
                assert((w + t).subrange(w.len() + e + 1, (w + t).len() as int) =~= t.subrange(
                    e + 1,
                    t.len() as int,
                ));
            }
            assert(assignment_parts(x) == assignment_parts(line));
        }
    }
}

/// What makes a line a sensitive assignment, spelled out: its target is an
/// ASCII letter or `_` followed by ASCII letters, digits and `_`; the
/// upper-cased target holds `API_KEY`, `SECRET`, `TOKEN`, `PASSWORD`,
/// `PRIVATE_KEY` or `ACCESS_KEY`; the value has at least eight UTF-8 bytes,
/// holds none of the placeholder words in any ASCII case, and is not made
/// only of `*`, `x` and `X`.
pub proof fn law_sensitive_assignment_spelled_out(line: Seq<char>)
    ensures
        is_sensitive_assignment(line) <==> match assignment_parts(line) {
            None => false,
            Some((key, value)) => {
                &&& key.len() > 0
                &&& ('A' <= key[0] && key[0] <= 'Z') || ('a' <= key[0] && key[0] <= 'z') || key[0]
                    == '_'
                &&& forall|j: int|
                    1 <= j < key.len() ==> ('A' <= #[trigger] key[j] && key[j] <= 'Z') || ('a'
                        <= key[j] && key[j] <= 'z') || ('0' <= key[j] && key[j] <= '9') || key[j]
                        == '_'
                &&& contains(ascii_upper(key), "API_KEY"@) || contains(ascii_upper(key), "SECRET"@)
                    || contains(ascii_upper(key), "TOKEN"@) || contains(ascii_upper(key), "PASSWORD"@)
                    || contains(ascii_upper(key), "PRIVATE_KEY"@) || contains(
                    ascii_upper(key),
                    "ACCESS_KEY"@,
                )
                &&& encode_utf8(value).len() >= 8
                &&& !contains(ascii_upper(value), "EXAMPLE"@)
                &&& !contains(ascii_upper(value), "CHANGEME"@)
                &&& !contains(ascii_upper(value), "CHANGE_ME"@)
                &&& !contains(ascii_upper(value), "PLACEHOLDER"@)
                &&& !contains(ascii_upper(value), "REPLACE_ME"@)
                &&& !contains(ascii_upper(value), "YOUR_"@)
                &&& !contains(ascii_upper(value), "DUMMY"@)
                &&& !(forall|j: int|
                    0 <= j < value.len() ==> #[trigger] value[j] == '*' || value[j] == 'x'
                        || value[j] == 'X')
            },
        },
{
}

/// A plain `KEY=VALUE` line, whose key is an identifier and whose value is
/// made of ASCII letters and digits, splits at its `=` into exactly that key
/// and that value.
pub proof fn law_plain_assignment_parts(key: Seq<char>, value: Seq<char>)
    requires
        key.len() > 0,
        ('A' <= key[0] && key[0] <= 'Z') || ('a' <= key[0] && key[0] <= 'z') || key[0] == '_',
        forall|j: int|
            1 <= j < key.len() ==> ('A' <= #[trigger] key[j] && key[j] <= 'Z') || ('a' <= key[j]
                && key[j] <= 'z') || ('0' <= key[j] && key[j] <= '9') || key[j] == '_',
        forall|j: int|
            0 <= j < value.len() ==> ('A' <= #[trigger] value[j] && value[j] <= 'Z') || ('a'
                <= value[j] && value[j] <= 'z') || ('0' <= value[j] && value[j] <= '9'),
    ensures
        assignment_parts(key + "="@ + value) == Some((key, value)),
{
    reveal_strlit("=");
    reveal_strlit("export ");
    reveal_strlit("//");
    let line = key + "="@ + value;
    let ws = whitespace_pred();
    let q = quote_pred();
    assert(line[0] == key[0]);
    assert(!is_unicode_whitespace(key[0]));
    assert(!is_unicode_whitespace(line.last())) by {
        if value.len() > 0 {
            assert(line.last() == value[value.len() - 1]);
        } else {
            assert(line.last() == '=');
        }
    }
    assert(strip_leading(line, ws) == line);
    assert(strip_trailing(line, ws) == line);
    assert(trim(line) == line);
    assert(!starts_with(line, "//"@)) by {
        if starts_with(line, "//"@) {
            assert(line.subrange(0, 2)[0] == line[0]);
        }
    }
    assert(!starts_with(line, "export "@)) by {
        if starts_with(line, "export "@) {
            assert(line.subrange(0, 7)[6] == line[6]);
            if 6 < key.len() {
                assert(line[6] == key[6]);
            } else if 6 > key.len() {
                assert(line[6] == value[6 - key.len() - 1]);
            }
        }
    }
    assert(assignment_body(line) == line);
    assert forall|j: int| 0 <= j < key.len() implies key[j] != '=' by {}
    lemma_first_index_after(key, "="@ + value, '=');
    assert(("="@ + value)[0] == '=');
    assert(first_index_of("="@ + value, '=') == Some(0int));
    assert(key + ("="@ + value) =~= line);
    assert(line.subrange(0, key.len() as int) =~= key);
    assert(line.subrange((key.len() + 1) as int, line.len() as int) =~= value);
    assert(trim(key) == key) by {
        assert(strip_leading(key, ws) == key);
        assert(!is_unicode_whitespace(key.last()));
    }
    if value.len() > 0 {
        assert(!is_unicode_whitespace(value[0]) && !is_quote(value[0]));
        assert(!is_unicode_whitespace(value.last()) && !is_quote(value.last()));
        assert(strip_leading(value, ws) == value);
        assert(strip_leading(value, q) == value);
    }
    assert(trim(value) == value);
    assert(trim_matching(value, q) == value);
}

} // verus!
