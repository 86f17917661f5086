//! Character-level text primitives: the model of `str` operations that the
//! scanning rules are written in, each with an executable counterpart over
//! `&[char]` whose contract is that model.
use vstd::prelude::*;
use vstd::slice::slice_subrange;
use vstd::utf8::*;

verus! {

// ---------------------------------------------------------------------------
// Character classes
// ---------------------------------------------------------------------------

/// The Unicode `White_Space` property, which `char::is_whitespace` and
/// `str::trim` go by.
pub open spec fn is_unicode_whitespace(c: char) -> bool {
    ||| ('\u{9}' <= c && c <= '\u{d}')
    ||| c == ' '
    ||| c == '\u{85}'
    ||| c == '\u{a0}'
    ||| c == '\u{1680}'
    ||| ('\u{2000}' <= c && c <= '\u{200a}')
    ||| c == '\u{2028}'
    ||| c == '\u{2029}'
    ||| c == '\u{202f}'
    ||| c == '\u{205f}'
    ||| c == '\u{3000}'
}

pub open spec fn is_ascii_upper(c: char) -> bool {
    'A' <= c && c <= 'Z'
}

pub open spec fn is_ascii_lower(c: char) -> bool {
    'a' <= c && c <= 'z'
}

pub open spec fn is_ascii_digit(c: char) -> bool {
    '0' <= c && c <= '9'
}

pub open spec fn is_ascii_alpha(c: char) -> bool {
    is_ascii_upper(c) || is_ascii_lower(c)
}

pub open spec fn is_ascii_alnum(c: char) -> bool {
    is_ascii_alpha(c) || is_ascii_digit(c)
}

/// `char::to_ascii_uppercase`.
pub open spec fn upper_char(c: char) -> char {
    if is_ascii_lower(c) {
        ((c as u32) - 32) as char
    } else {
        c
    }
}

/// `char::to_ascii_lowercase`.
pub open spec fn lower_char(c: char) -> char {
    if is_ascii_upper(c) {
        ((c as u32) + 32) as char
    } else {
        c
    }
}

/// `str::to_ascii_uppercase`, character by character.
pub open spec fn ascii_upper(s: Seq<char>) -> Seq<char> {
    s.map_values(|c: char| upper_char(c))
}

/// `str::to_ascii_lowercase`, character by character.
pub open spec fn ascii_lower(s: Seq<char>) -> Seq<char> {
    s.map_values(|c: char| lower_char(c))
}

/// ASCII case mapping changes only ASCII letters, each by 32 code points,
/// and keeps the length.
pub proof fn law_ascii_case_mapping(s: Seq<char>)
    ensures
        ascii_upper(s).len() == s.len(),
        ascii_lower(s).len() == s.len(),
        forall|i: int|
            0 <= i < s.len() ==> #[trigger] ascii_upper(s)[i] == if 'a' <= s[i] && s[i] <= 'z' {
                ((s[i] as u32) - 32) as char
            } else {
                s[i]
            },
        forall|i: int|
            0 <= i < s.len() ==> #[trigger] ascii_lower(s)[i] == if 'A' <= s[i] && s[i] <= 'Z' {
                ((s[i] as u32) + 32) as char
            } else {
                s[i]
            },
{
}

/// `char::is_whitespace`.
pub fn is_whitespace(c: char) -> (b: bool)
    ensures
        b == is_unicode_whitespace(c),
{
    ('\u{9}' <= c && c <= '\u{d}') || c == ' ' || c == '\u{85}' || c == '\u{a0}' || c
        == '\u{1680}' || ('\u{2000}' <= c && c <= '\u{200a}') || c == '\u{2028}' || c
        == '\u{2029}' || c == '\u{202f}' || c == '\u{205f}' || c == '\u{3000}'
}

/// `char::is_ascii_uppercase`.
pub fn is_upper(c: char) -> (b: bool)
    ensures
        b == is_ascii_upper(c),
{
    'A' <= c && c <= 'Z'
}

/// `char::is_ascii_digit`.
pub fn is_digit(c: char) -> (b: bool)
    ensures
        b == is_ascii_digit(c),
{
    '0' <= c && c <= '9'
}

/// `char::is_ascii_alphabetic`.
pub fn is_alpha(c: char) -> (b: bool)
    ensures
        b == is_ascii_alpha(c),
{
    ('A' <= c && c <= 'Z') || ('a' <= c && c <= 'z')
}

/// `char::is_ascii_alphanumeric`.
pub fn is_alnum(c: char) -> (b: bool)
    ensures
        b == is_ascii_alnum(c),
{
    is_alpha(c) || is_digit(c)
}

/// `char::to_ascii_uppercase`.
pub fn to_upper_char(c: char) -> (r: char)
    ensures
        r == upper_char(c),
{
    if 'a' <= c && c <= 'z' {
        let b: u8 = (c as u8) - 32;
        b as char
    } else {
        c
    }
}

/// `char::to_ascii_lowercase`.
pub fn to_lower_char(c: char) -> (r: char)
    ensures
        r == lower_char(c),
{
    if 'A' <= c && c <= 'Z' {
        let b: u8 = (c as u8) + 32;
        b as char
    } else {
        c
    }
}

/// The characters of `s`, ASCII letters upper-cased.
pub fn to_ascii_upper(s: &[char]) -> (r: Vec<char>)
    ensures
        r@ == ascii_upper(s@),
{
    let mut r: Vec<char> = Vec::new();
    let n = s.len();
    let mut i: usize = 0;
    while i < n
        invariant
            0 <= i <= n,
            n == s@.len(),
            r@ == ascii_upper(s@.subrange(0, i as int)),
        decreases n - i,
    {
        r.push(to_upper_char(s[i]));
        assert(ascii_upper(s@.subrange(0, i + 1)) =~= ascii_upper(s@.subrange(0, i as int)).push(
            upper_char(s@[i as int]),
        ));
        i = i + 1;
    }
    assert(s@.subrange(0, n as int) =~= s@);
    r
}

/// The characters of `s`, ASCII letters lower-cased.
pub fn to_ascii_lower(s: &[char]) -> (r: Vec<char>)
    ensures
        r@ == ascii_lower(s@),
{
    let mut r: Vec<char> = Vec::new();
    let n = s.len();
    let mut i: usize = 0;
    while i < n
        invariant
            0 <= i <= n,
            n == s@.len(),
            r@ == ascii_lower(s@.subrange(0, i as int)),
        decreases n - i,
    {
        r.push(to_lower_char(s[i]));
        assert(ascii_lower(s@.subrange(0, i + 1)) =~= ascii_lower(s@.subrange(0, i as int)).push(
            lower_char(s@[i as int]),
        ));
        i = i + 1;
    }
    assert(s@.subrange(0, n as int) =~= s@);
    r
}

/// The characters of a string slice, in order.
pub fn chars_of(s: &str) -> (v: Vec<char>)
    ensures
        v@ == s@,
{
    let mut v: Vec<char> = Vec::new();
    for c in it: s.chars()
        invariant
            v@ == it.seq().take(it.index() as int),
    {
        v.push(c);
    }
    v
}

// ---------------------------------------------------------------------------
// Searching
// ---------------------------------------------------------------------------

/// `p` occurs in `s` starting at position `i`.
pub open spec fn occurs_at(s: Seq<char>, p: Seq<char>, i: int) -> bool {
    0 <= i && i + p.len() <= s.len() && s.subrange(i, i + p.len()) == p
}

/// `str::contains` with a string pattern.
pub open spec fn contains(s: Seq<char>, p: Seq<char>) -> bool {
    exists|i: int| occurs_at(s, p, i)
}

/// `str::starts_with` with a string pattern.
pub open spec fn starts_with(s: Seq<char>, p: Seq<char>) -> bool {
    occurs_at(s, p, 0)
}

/// `str::ends_with` with a string pattern.
pub open spec fn ends_with(s: Seq<char>, p: Seq<char>) -> bool {
    p.len() <= s.len() && occurs_at(s, p, s.len() - p.len())
}

/// The position of the first `c` in `s`, as `str::find` with a `char` gives it.
pub open spec fn first_index_of<T>(s: Seq<T>, c: T) -> Option<int>
    decreases s.len(),
{
    if s.len() == 0 {
        None
    } else if s[0] == c {
        Some(0)
    } else {
        match first_index_of(s.drop_first(), c) {
            Some(i) => Some(i + 1),
            None => None,
        }
    }
}

/// What `first_index_of` gives: the first position of `c`, or none at all.
pub proof fn lemma_first_index_of<T>(s: Seq<T>, c: T)
    ensures
        match first_index_of(s, c) {
            Some(i) => 0 <= i < s.len() && s[i] == c && forall|j: int| 0 <= j < i ==> s[j] != c,
            None => forall|j: int| 0 <= j < s.len() ==> s[j] != c,
        },
    decreases s.len(),
{
    if s.len() > 0 && s[0] != c {
        lemma_first_index_of(s.drop_first(), c);
        match first_index_of(s.drop_first(), c) {
            Some(i) => {
                assert forall|j: int| 0 <= j < i + 1 implies s[j] != c by {
                    if j > 0 {
                        assert(s[j] == s.drop_first()[j - 1]);
                    }
                }
            },
            None => {
                assert forall|j: int| 0 <= j < s.len() implies s[j] != c by {
                    if j > 0 {
                        assert(s[j] == s.drop_first()[j - 1]);
                    }
                }
            },
        }
    }
}

/// A position holding `c` with no `c` before it is the first one.
pub proof fn lemma_first_index_is<T>(s: Seq<T>, c: T, i: int)
    requires
        0 <= i < s.len(),
        s[i] == c,
        forall|j: int| 0 <= j < i ==> s[j] != c,
    ensures
        first_index_of(s, c) == Some(i),
{
    lemma_first_index_of(s, c);
    match first_index_of(s, c) {
        Some(k) => {
            if k < i {
                assert(s[k] != c);
            } else if k > i {
                assert(s[i] != c);
            }
        },
        None => {
            assert(s[i] != c);
        },
    }
}

/// Without any `c`, there is no first one.
pub proof fn lemma_first_index_none<T>(s: Seq<T>, c: T)
    requires
        forall|j: int| 0 <= j < s.len() ==> s[j] != c,
    ensures
        first_index_of(s, c) is None,
{
    lemma_first_index_of(s, c);
    if let Some(k) = first_index_of(s, c) {
        assert(s[k] != c);
    }
}

/// Whether `p` occurs in `s` at position `i`.
pub fn matches_at(s: &[char], p: &[char], i: usize) -> (b: bool)
    ensures
        b == occurs_at(s@, p@, i as int),
{
    if i > s.len() || p.len() > s.len() - i {
        return false;
    }
    let n = p.len();
    let mut j: usize = 0;
    while j < n
        invariant
            j <= n,
            n == p@.len(),
            i + n <= s@.len(),
            s@.len() == s.len(),
            forall|k: int| 0 <= k < j ==> s@[i + k] == p@[k],
        decreases n - j,
    {
        if s[i + j] != p[j] {
            assert(s@.subrange(i as int, i + n)[j as int] != p@[j as int]);
            return false;
        }
        j = j + 1;
    }
    assert(s@.subrange(i as int, i + n) =~= p@);
    true
}

/// Whether `p` occurs anywhere in `s`.
pub fn contains_chars(s: &[char], p: &[char]) -> (b: bool)
    ensures
        b == contains(s@, p@),
{
    let n = s.len();
    let m = p.len();
    if m == 0 {
        assert(s@.subrange(0, 0) =~= p@);
        assert(occurs_at(s@, p@, 0));
        return true;
    }
    if m > n {
        assert forall|k: int| !occurs_at(s@, p@, k) by {}
        return false;
    }
    let last = n - m;
    let mut i: usize = 0;
    while i <= last
        invariant
            0 <= i <= last + 1,
            n == s@.len(),
            n == s.len(),
            m > 0,
            m == p@.len(),
            last == n - m,
            forall|k: int| 0 <= k < i ==> !occurs_at(s@, p@, k),
        decreases last + 1 - i,
    {
        if matches_at(s, p, i) {
            return true;
        }
        i = i + 1;
    }
    assert forall|k: int| !occurs_at(s@, p@, k) by {
        if 0 <= k <= last {
        }
    }
    false
}

/// Whether `s` starts with `p`.
pub fn starts_with_chars(s: &[char], p: &[char]) -> (b: bool)
    ensures
        b == starts_with(s@, p@),
{
    matches_at(s, p, 0)
}

/// Whether `s` ends with `p`.
pub fn ends_with_chars(s: &[char], p: &[char]) -> (b: bool)
    ensures
        b == ends_with(s@, p@),
{
    if p.len() > s.len() {
        false
    } else {
        matches_at(s, p, s.len() - p.len())
    }
}

/// Whether `s` and `p` are the same characters.
pub fn equals_chars(s: &[char], p: &[char]) -> (b: bool)
    ensures
        b == (s@ == p@),
{
    if s.len() != p.len() {
        return false;
    }
    let r = matches_at(s, p, 0);
    proof {
        assert(s@.subrange(0, s@.len() as int) =~= s@);
    }
    r
}

/// The position of the first `c` in `s`.
pub fn find_char(s: &[char], c: char) -> (r: Option<usize>)
    ensures
        match r {
            Some(i) => first_index_of(s@, c) == Some(i as int),
            None => first_index_of(s@, c) is None,
        },
{
    proof {
        lemma_first_index_of(s@, c);
    }
    let n = s.len();
    let mut i: usize = 0;
    while i < n
        invariant
            0 <= i <= n,
            n == s@.len(),
            forall|k: int| 0 <= k < i ==> s@[k] != c,
            match first_index_of(s@, c) {
                Some(j) => 0 <= j < s@.len() && s@[j] == c && forall|k: int|
                    0 <= k < j ==> s@[k] != c,
                None => forall|k: int| 0 <= k < s@.len() ==> s@[k] != c,
            },
        decreases n - i,
    {
        if s[i] == c {
            return Some(i);
        }
        i = i + 1;
    }
    None
}

// ---------------------------------------------------------------------------
// Trimming
// ---------------------------------------------------------------------------

/// Drops the leading characters that satisfy `p`.
pub open spec fn strip_leading(s: Seq<char>, p: spec_fn(char) -> bool) -> Seq<char>
    decreases s.len(),
{
    if s.len() > 0 && p(s[0]) {
        strip_leading(s.drop_first(), p)
    } else {
        s
    }
}

/// Drops the trailing characters that satisfy `p`.
pub open spec fn strip_trailing(s: Seq<char>, p: spec_fn(char) -> bool) -> Seq<char>
    decreases s.len(),
{
    if s.len() > 0 && p(s.last()) {
        strip_trailing(s.drop_last(), p)
    } else {
        s
    }
}

/// `str::trim_matches` with a character predicate.
pub open spec fn trim_matching(s: Seq<char>, p: spec_fn(char) -> bool) -> Seq<char> {
    strip_trailing(strip_leading(s, p), p)
}

pub open spec fn whitespace_pred() -> spec_fn(char) -> bool {
    |c: char| is_unicode_whitespace(c)
}

pub open spec fn is_quote(c: char) -> bool {
    c == '\'' || c == '"'
}

pub open spec fn quote_pred() -> spec_fn(char) -> bool {
    |c: char| is_quote(c)
}

/// `str::trim`.
pub open spec fn trim(s: Seq<char>) -> Seq<char> {
    trim_matching(s, whitespace_pred())
}

/// Characters satisfying `p` in front of `x` make no difference to
/// `strip_leading`.
pub proof fn lemma_strip_leading_after(a: Seq<char>, x: Seq<char>, p: spec_fn(char) -> bool)
    requires
        forall|i: int| 0 <= i < a.len() ==> p(a[i]),
    ensures
        strip_leading(a + x, p) == strip_leading(x, p),
    decreases a.len(),
{
    if a.len() > 0 {
        assert((a + x)[0] == a[0]);
        assert((a + x).drop_first() =~= a.drop_first() + x);
        assert forall|i: int| 0 <= i < a.drop_first().len() implies p(a.drop_first()[i]) by {
            assert(a.drop_first()[i] == a[i + 1]);
        }
        lemma_strip_leading_after(a.drop_first(), x, p);
    } else {
        assert(a + x =~= x);
    }
}

/// `strip_leading` drops the longest prefix of characters satisfying `p`.
pub proof fn lemma_strip_leading_split(s: Seq<char>, p: spec_fn(char) -> bool) -> (k: int)
    ensures
        0 <= k <= s.len(),
        strip_leading(s, p) == s.subrange(k, s.len() as int),
        forall|i: int| 0 <= i < k ==> p(#[trigger] s[i]),
    decreases s.len(),
{
    if s.len() > 0 && p(s[0]) {
        let rest = s.drop_first();
        let k1 = lemma_strip_leading_split(rest, p);
        assert(rest.subrange(k1, rest.len() as int) =~= s.subrange(k1 + 1, s.len() as int));
        assert forall|i: int| 0 <= i < k1 + 1 implies p(#[trigger] s[i]) by {
            if i > 0 {
                assert(s[i] == rest[i - 1]);
            }
        }
        k1 + 1
    } else {
        assert(s.subrange(0, s.len() as int) =~= s);
        0
    }
}

/// When `b` holds a character that `p` rejects, `strip_trailing` of `a + b`
/// only shortens `b`.
pub proof fn lemma_strip_trailing_after(
    a: Seq<char>,
    b: Seq<char>,
    p: spec_fn(char) -> bool,
    j: int,
)
    requires
        0 <= j < b.len(),
        !p(b[j]),
    ensures
        strip_trailing(a + b, p) == a + strip_trailing(b, p),
    decreases b.len(),
{
    let ab = a + b;
    assert(ab.last() == b.last());
    if p(b.last()) {
        assert(j < b.len() - 1);
        assert(ab.drop_last() =~= a + b.drop_last());
        assert(b.drop_last()[j] == b[j]);
        lemma_strip_trailing_after(a, b.drop_last(), p, j);
    }
}

/// Trailing characters that all satisfy `p` go entirely.
pub proof fn lemma_strip_trailing_all(a: Seq<char>, b: Seq<char>, p: spec_fn(char) -> bool)
    requires
        forall|i: int| 0 <= i < b.len() ==> p(b[i]),
    ensures
        strip_trailing(a + b, p) == strip_trailing(a, p),
    decreases b.len(),
{
    if b.len() > 0 {
        let ab = a + b;
        assert(ab.last() == b.last());
        assert(ab.drop_last() =~= a + b.drop_last());
        assert forall|i: int| 0 <= i < b.drop_last().len() implies p(b.drop_last()[i]) by {
            assert(b.drop_last()[i] == b[i]);
        }
        lemma_strip_trailing_all(a, b.drop_last(), p);
    } else {
        assert(a + b =~= a);
    }
}

/// A first character that `p` rejects survives `strip_trailing`.
pub proof fn lemma_strip_trailing_keeps_first(s: Seq<char>, p: spec_fn(char) -> bool)
    requires
        s.len() > 0,
        !p(s[0]),
    ensures
        strip_trailing(s, p).len() > 0,
        strip_trailing(s, p)[0] == s[0],
    decreases s.len(),
{
    if p(s.last()) {
        assert(s.len() > 1);
        assert(s.drop_last()[0] == s[0]);
        lemma_strip_trailing_keeps_first(s.drop_last(), p);
    }
}

/// Where `a` holds no `c`, the first `c` of `a + s` is that of `s`, moved by
/// the length of `a`.
pub proof fn lemma_first_index_after<T>(a: Seq<T>, s: Seq<T>, c: T)
    requires
        forall|i: int| 0 <= i < a.len() ==> a[i] != c,
    ensures
        first_index_of(a + s, c) == match first_index_of(s, c) {
            Some(i) => Some(a.len() + i),
            None => None,
        },
{
    lemma_first_index_of(s, c);
    let t = a + s;
    match first_index_of(s, c) {
        Some(i) => {
            assert(t[a.len() + i] == s[i]);
            assert forall|j: int| 0 <= j < a.len() + i implies t[j] != c by {
                if j < a.len() {
                    assert(t[j] == a[j]);
                } else {
                    assert(t[j] == s[j - a.len()]);
                }
            }
            lemma_first_index_is(t, c, a.len() + i);
        },
        None => {
            assert forall|j: int| 0 <= j < t.len() implies t[j] != c by {
                if j < a.len() {
                    assert(t[j] == a[j]);
                } else {
                    assert(t[j] == s[j - a.len()]);
                }
            }
            lemma_first_index_none(t, c);
        },
    }
}

/// Which characters a trim removes.
pub enum TrimSet {
    Whitespace,
    Quotes,
}

impl TrimSet {
    pub open spec fn pred(self) -> spec_fn(char) -> bool {
        match self {
            TrimSet::Whitespace => whitespace_pred(),
            TrimSet::Quotes => quote_pred(),
        }
    }

    pub fn holds(&self, c: char) -> (b: bool)
        ensures
            b == (self.pred())(c),
    {
        match self {
            TrimSet::Whitespace => is_whitespace(c),
            TrimSet::Quotes => c == '\'' || c == '"',
        }
    }
}

/// Removes the leading and trailing characters of `set` from `s`.
pub fn trim_chars<'a>(s: &'a [char], set: &TrimSet) -> (r: &'a [char])
    ensures
        r@ == trim_matching(s@, set.pred()),
{
    let ghost p = set.pred();
    let n = s.len();
    assert(s@.subrange(0, n as int) =~= s@);
    let mut a: usize = 0;
    while a < n && set.holds(s[a])
        invariant
            a <= n,
            n == s@.len(),
            p == set.pred(),
            strip_leading(s@, p) == strip_leading(s@.subrange(a as int, n as int), p),
        decreases n - a,
    {
        assert(s@.subrange(a as int, n as int).drop_first() =~= s@.subrange(a + 1, n as int));
        a = a + 1;
    }
    assert(strip_leading(s@, p) == s@.subrange(a as int, n as int));
    let mut b: usize = n;
    while b > a && set.holds(s[b - 1])
        invariant
            a <= b <= n,
            n == s@.len(),
            p == set.pred(),
            strip_trailing(s@.subrange(a as int, n as int), p) == strip_trailing(
                s@.subrange(a as int, b as int),
                p,
            ),
        decreases b - a,
    {
        assert(s@.subrange(a as int, b as int).drop_last() =~= s@.subrange(a as int, b - 1));
        b = b - 1;
    }
    slice_subrange(s, a, b)
}

// ---------------------------------------------------------------------------
// Lines
// ---------------------------------------------------------------------------

/// Drops one trailing carriage return.
pub open spec fn strip_cr(line: Seq<char>) -> Seq<char> {
    if line.len() > 0 && line.last() == '\r' {
        line.drop_last()
    } else {
        line
    }
}

/// `str::lines`: the text split at each `\n`, a `\r` just before a `\n`
/// removed, with no empty line after a final `\n`.
pub open spec fn text_lines(text: Seq<char>) -> Seq<Seq<char>>
    decreases text.len(),
{
    if text.len() == 0 {
        seq![]
    } else {
        match first_index_of(text, '\n') {
            None => seq![text],
            Some(i) => {
                proof {
                    lemma_first_index_of(text, '\n');
                }
                seq![strip_cr(text.subrange(0, i))] + text_lines(text.subrange(i + 1, text.len() as int))
            },
        }
    }
}

/// Lines end at each `\n`, which is dropped together with one `\r` just
/// before it; text after the last `\n` is a last line as it stands; empty
/// text has no lines.
pub proof fn law_lines_split_at_newlines(a: Seq<char>, b: Seq<char>)
    requires
        forall|k: int| 0 <= k < a.len() ==> a[k] != '\n',
    ensures
        text_lines(a + seq!['\n'] + b) == seq![
            if a.len() > 0 && a[a.len() - 1] == '\r' {
                a.subrange(0, a.len() - 1)
            } else {
                a
            },
        ] + text_lines(b),
        a.len() > 0 ==> text_lines(a) == seq![a],
        text_lines(Seq::<char>::empty()).len() == 0,
{
    let t = a + seq!['\n'] + b;
    lemma_first_index_after(a, seq!['\n'] + b, '\n');
    assert(first_index_of(seq!['\n'] + b, '\n') == Some(0int));
    assert(a + (seq!['\n'] + b) =~= t);
    assert(t.subrange(0, a.len() as int) =~= a);
    assert(t.subrange((a.len() + 1) as int, t.len() as int) =~= b);
    if a.len() > 0 {
        assert(a.last() == a[a.len() - 1]);
        assert(a.drop_last() =~= a.subrange(0, a.len() - 1));
    }
    lemma_first_index_none(a, '\n');
}

/// `t` with each `\n` written as `\r\n`.
pub open spec fn with_crlf(t: Seq<char>) -> Seq<char>
    decreases t.len(),
{
    if t.len() == 0 {
        seq![]
    } else {
        (if t[0] == '\n' {
            seq!['\r', '\n']
        } else {
            seq![t[0]]
        }) + with_crlf(t.drop_first())
    }
}

/// No `\n` in `t` comes right after a `\r`.
pub open spec fn no_crlf(t: Seq<char>) -> bool {
    forall|k: int| 0 < k < t.len() && #[trigger] t[k] == '\n' ==> t[k - 1] != '\r'
}

proof fn lemma_with_crlf_concat(a: Seq<char>, b: Seq<char>)
    ensures
        with_crlf(a + b) == with_crlf(a) + with_crlf(b),
    decreases a.len(),
{
    if a.len() == 0 {
        assert(a + b =~= b);
        assert(with_crlf(a) + with_crlf(b) =~= with_crlf(b));
    } else {
        assert((a + b).drop_first() =~= a.drop_first() + b);
        lemma_with_crlf_concat(a.drop_first(), b);
        assert(with_crlf(a + b) =~= with_crlf(a) + with_crlf(b));
    }
}

proof fn lemma_with_crlf_no_newline(t: Seq<char>)
    requires
        forall|k: int| 0 <= k < t.len() ==> t[k] != '\n',
    ensures
        with_crlf(t) == t,
    decreases t.len(),
{
    if t.len() > 0 {
        lemma_with_crlf_no_newline(t.drop_first());
        assert(seq![t[0]] + t.drop_first() =~= t);
    }
}

/// Windows line endings give the same lines: writing each `\n` as `\r\n`
/// leaves the lines of a text unchanged, where no `\n` of the text already
/// follows a `\r`.
pub proof fn law_crlf_gives_the_same_lines(t: Seq<char>)
    requires
        no_crlf(t),
    ensures
        text_lines(with_crlf(t)) == text_lines(t),
    decreases t.len(),
{
    lemma_first_index_of(t, '\n');
    match first_index_of(t, '\n') {
        None => {
            lemma_with_crlf_no_newline(t);
        },
        Some(i) => {
            let a = t.subrange(0, i);
            let b = t.subrange(i + 1, t.len() as int);
            assert(t =~= a + seq!['\n'] + b);
            lemma_with_crlf_concat(a + seq!['\n'], b);
            lemma_with_crlf_concat(a, seq!['\n']);
            assert forall|k: int| 0 <= k < a.len() implies a[k] != '\n' by {}
            lemma_with_crlf_no_newline(a);
            assert(seq!['\n'].drop_first() =~= Seq::<char>::empty());
            assert(with_crlf(Seq::<char>::empty()) == Seq::<char>::empty());
            assert(with_crlf(seq!['\n']) =~= seq!['\r', '\n']);
            let c = with_crlf(t);
            assert(c =~= a + seq!['\r', '\n'] + with_crlf(b));
            lemma_first_index_is(c, '\n', i + 1);
            assert(c.subrange(0, i + 1) =~= a.push('\r'));
            assert(strip_cr(a.push('\r')) =~= a);
            if i > 0 {
                assert(t[i] == '\n');
                assert(a.last() != '\r');
            }
            assert(strip_cr(a) == a);
            assert(c.subrange(i + 2, c.len() as int) =~= with_crlf(b));
            assert forall|k: int| 0 < k < b.len() && #[trigger] b[k] == '\n' implies b[k - 1]
                != '\r' by {
                assert(t[i + 1 + k] == b[k]);
            }
            law_crlf_gives_the_same_lines(b);
            assert(text_lines(c) == seq![a] + text_lines(with_crlf(b)));
            assert(text_lines(t) == seq![a] + text_lines(b));
        },
    }
}

/// A final line ending changes no line: `t` and `t` followed by `\n` have
/// the same lines, where `t` is not empty and ends neither in `\n` nor in
/// `\r`.
pub proof fn law_final_newline_gives_the_same_lines(t: Seq<char>)
    requires
        t.len() > 0,
        t.last() != '\n',
        t.last() != '\r',
    ensures
        text_lines(t.push('\n')) == text_lines(t),
    decreases t.len(),
{
    let u = t.push('\n');
    lemma_first_index_of(t, '\n');
    match first_index_of(t, '\n') {
        None => {
            lemma_first_index_is(u, '\n', t.len() as int);
            assert(u.subrange(0, t.len() as int) =~= t);
            assert(u.subrange(t.len() as int + 1, u.len() as int) =~= Seq::<char>::empty());
            assert(strip_cr(t) == t);
            assert(text_lines(u) == seq![t] + text_lines(Seq::<char>::empty()));
            assert(text_lines(u) =~= seq![t]);
        },
        Some(i) => {
            lemma_first_index_is(u, '\n', i);
            let b = t.subrange(i + 1, t.len() as int);
            assert(u.subrange(0, i) =~= t.subrange(0, i));
            assert(u.subrange(i + 1, u.len() as int) =~= b.push('\n'));
            assert(b.len() > 0);
            assert(b.last() == t.last());
            law_final_newline_gives_the_same_lines(b);
        },
    }
}

// ---------------------------------------------------------------------------
// UTF-8 length
// ---------------------------------------------------------------------------

/// The number of bytes of the UTF-8 encoding of `c`.
pub open spec fn utf8_width(c: char) -> nat {
    if (c as u32) <= 0x7f {
        1
    } else if (c as u32) <= 0x7ff {
        2
    } else if (c as u32) <= 0xffff {
        3
    } else {
        4
    }
}

/// The UTF-8 encoding of a character sequence, one character at a time.
pub proof fn lemma_encode_utf8_len(s: Seq<char>)
    ensures
        s.len() > 0 ==> encode_utf8(s).len() == utf8_width(s[0]) + encode_utf8(s.drop_first()).len(),
        encode_utf8(s).len() >= s.len(),
    decreases s.len(),
{
    if s.len() > 0 {
        char_is_scalar(s[0]);
        lemma_encode_utf8_len(s.drop_first());
    }
}

/// Whether the UTF-8 encoding of `s` (its `str::len`) is at least `min` bytes.
pub fn utf8_len_at_least(s: &[char], min: usize) -> (b: bool)
    ensures
        b == (encode_utf8(s@).len() >= min),
{
    let n = s.len();
    assert(s@.subrange(0, n as int) =~= s@);
    let mut total: usize = 0;
    let mut i: usize = 0;
    while i < n
        invariant
            i <= n,
            n == s@.len(),
            total < min || min == 0,
            total + encode_utf8(s@.subrange(i as int, n as int)).len() == encode_utf8(s@).len(),
        decreases n - i,
    {
        if total >= min {
            return true;
        }
        let c = s[i];
        let w: usize = if (c as u32) <= 0x7f {
            1
        } else if (c as u32) <= 0x7ff {
            2
        } else if (c as u32) <= 0xffff {
            3
        } else {
            4
        };
        proof {
            let rest = s@.subrange(i as int, n as int);
            lemma_encode_utf8_len(rest);
            assert(rest.drop_first() =~= s@.subrange(i + 1, n as int));
        }
        if w >= min - total {
            return true;
        }
        total = total + w;
        i = i + 1;
    }
    proof {
        assert(s@.subrange(n as int, n as int) =~= Seq::<char>::empty());
    }
    total >= min
}

} // verus!
