//! Token-shaped values: a provider prefix followed by enough ASCII letters,
//! digits, `_` or `-`.
use vstd::prelude::*;
use crate::rules::Rule;
use crate::text::{chars_of, matches_at, occurs_at, is_alnum, is_ascii_alnum};

verus! {

/// A character that may continue a token after its prefix.
pub open spec fn is_tail_char(c: char) -> bool {
    is_ascii_alnum(c) || c == '_' || c == '-'
}

/// The number of tail characters in `s` from position `i` on.
pub open spec fn run_len(s: Seq<char>, i: int) -> nat
    decreases s.len() - i,
{
    if 0 <= i < s.len() && is_tail_char(s[i]) {
        1 + run_len(s, i + 1)
    } else {
        0
    }
}

/// The search that `contains_prefixed_token` makes from position `i`: at the
/// first occurrence of `p` at or after `i`, whether at least `min_tail` tail
/// characters follow it; if not, the search goes on just after that
/// occurrence of `p`.
pub open spec fn prefixed_token_from(s: Seq<char>, p: Seq<char>, min_tail: nat, i: int) -> bool
    decreases s.len() - i,
{
    if p.len() == 0 || i < 0 || i + p.len() > s.len() {
        false
    } else if occurs_at(s, p, i) {
        run_len(s, i + p.len()) >= min_tail || prefixed_token_from(s, p, min_tail, i + p.len())
    } else {
        prefixed_token_from(s, p, min_tail, i + 1)
    }
}

pub open spec fn has_prefixed_token(s: Seq<char>, p: Seq<char>, min_tail: nat) -> bool {
    prefixed_token_from(s, p, min_tail, 0)
}

/// The number of tail characters in `s` from position `start` on.
fn run_length(s: &[char], start: usize) -> (n: usize)
    requires
        start <= s@.len(),
    ensures
        n == run_len(s@, start as int),
{
    let len = s.len();
    let mut k = start;
    while k < len && (is_alnum(s[k]) || s[k] == '_' || s[k] == '-')
        invariant
            start <= k <= len,
            len == s@.len(),
            run_len(s@, start as int) == (k - start) + run_len(s@, k as int),
        decreases len - k,
    {
        k = k + 1;
    }
    k - start
}

/// Whether `prefix` occurs in `line` followed by at least `min_tail`
/// characters that are ASCII letters, digits, `_` or `-`.
pub fn contains_prefixed_token(line: &[char], prefix: &[char], min_tail: usize) -> (b: bool)
    requires
        prefix@.len() > 0,
    ensures
        b == has_prefixed_token(line@, prefix@, min_tail as nat),
{
    let n = line.len();
    let m = prefix.len();
    let mut i: usize = 0;
    while i <= n && m <= n - i
        invariant
            i <= n + 1,
            n == line@.len(),
            m == prefix@.len(),
            m > 0,
            has_prefixed_token(line@, prefix@, min_tail as nat) == prefixed_token_from(
                line@,
                prefix@,
                min_tail as nat,
                i as int,
            ),
        decreases n + 1 - i,
    {
        if matches_at(line, prefix, i) {
            let start = i + m;
            let tail = run_length(line, start);
            if tail >= min_tail {
                return true;
            }
            i = start;
        } else {
            i = i + 1;
        }
    }
    false
}

/// The token prefixes: prefix, minimum tail length, and the rule reported.
pub open spec fn token_patterns() -> Seq<(Seq<char>, nat, Rule)> {
    seq![
        ("github_pat_"@, 40nat, Rule::GithubToken),
        ("ghp_"@, 30nat, Rule::GithubToken),
        ("xoxb-"@, 20nat, Rule::SlackToken),
        ("xoxp-"@, 20nat, Rule::SlackToken),
        ("sk-"@, 20nat, Rule::ApiKeyPrefix),
    ]
}

/// The rules of `patterns` whose prefix `line` holds with a long enough
/// tail, in the order of `patterns`.
pub open spec fn token_rules_of(line: Seq<char>, patterns: Seq<(Seq<char>, nat, Rule)>) -> Seq<
    Rule,
>
    decreases patterns.len(),
{
    if patterns.len() == 0 {
        seq![]
    } else {
        let (p, m, r) = patterns[0];
        (if has_prefixed_token(line, p, m) {
            seq![r]
        } else {
            seq![]
        }) + token_rules_of(line, patterns.drop_first())
    }
}

fn token_pattern(k: usize) -> (r: (&'static str, usize, Rule))
    requires
        k < 5,
    ensures
        r.0@ == token_patterns()[k as int].0,
        r.0@.len() > 0,
        r.1 == token_patterns()[k as int].1,
        r.2 == token_patterns()[k as int].2,
{
    proof {
        reveal_strlit("github_pat_");
        reveal_strlit("ghp_");
        reveal_strlit("xoxb-");
        reveal_strlit("xoxp-");
        reveal_strlit("sk-");
    }
    if k == 0 {
        ("github_pat_", 40, Rule::GithubToken)
    } else if k == 1 {
        ("ghp_", 30, Rule::GithubToken)
    } else if k == 2 {
        ("xoxb-", 20, Rule::SlackToken)
    } else if k == 3 {
        ("xoxp-", 20, Rule::SlackToken)
    } else {
        ("sk-", 20, Rule::ApiKeyPrefix)
    }
}

/// The token rules that `line` triggers, in table order.
pub fn token_rules(line: &[char]) -> (r: Vec<Rule>)
    ensures
        r@ == token_rules_of(line@, token_patterns()),
{
    let mut r: Vec<Rule> = Vec::new();
    assert(token_patterns().subrange(0, 5) =~= token_patterns());
    let mut k: usize = 0;
    while k < 5
        invariant
            0 <= k <= 5,
            token_rules_of(line@, token_patterns()) == r@ + token_rules_of(
                line@,
                token_patterns().subrange(k as int, 5),
            ),
        decreases 5 - k,
    {
        let (prefix, min_tail, rule) = token_pattern(k);
        let p = chars_of(prefix);
        let hit = contains_prefixed_token(line, p.as_slice(), min_tail);
        proof {
            let rest = token_patterns().subrange(k as int, 5);
            assert(rest.drop_first() =~= token_patterns().subrange(k + 1, 5));
            assert(rest[0] == token_patterns()[k as int]);
        }
        if hit {
            r.push(rule);
        }
        proof {
            let rest = token_patterns().subrange(k as int, 5);
            let one: Seq<Rule> = if hit { seq![rule] } else { seq![] };
            assert(token_rules_of(line@, rest) == one + token_rules_of(line@, rest.drop_first()));
        }
        k = k + 1;
    }
    assert(token_patterns().subrange(5, 5) =~= Seq::<(Seq<char>, nat, Rule)>::empty());
    assert(r@ + Seq::<Rule>::empty() =~= r@);
    r
}


// ---------------------------------------------------------------------------
// Laws
// ---------------------------------------------------------------------------

pub(crate) proof fn lemma_token_rules_of_content(line: Seq<char>, patterns: Seq<(Seq<char>, nat, Rule)>)
    requires
        forall|k: int| 0 <= k < patterns.len() ==> !(#[trigger] patterns[k]).2.is_file_rule()
            && !(patterns[k].2 is SensitiveAssignment),
    ensures
        forall|k: int|
            0 <= k < token_rules_of(line, patterns).len() ==> !(#[trigger] token_rules_of(
                line,
                patterns,
            )[k]).is_file_rule() && !(token_rules_of(line, patterns)[k] is SensitiveAssignment),
    decreases patterns.len(),
{
    if patterns.len() > 0 {
        let rest = patterns.drop_first();
        assert forall|k: int| 0 <= k < rest.len() implies !(#[trigger] rest[k]).2.is_file_rule()
            && !(rest[k].2 is SensitiveAssignment) by {
            assert(rest[k] == patterns[k + 1]);
        }
        lemma_token_rules_of_content(line, rest);
        assert(!patterns[0].2.is_file_rule());
    }
}

/// A rule that no pattern reports is never among the rules found.
pub(crate) proof fn lemma_token_rules_of_lacks(
    line: Seq<char>,
    patterns: Seq<(Seq<char>, nat, Rule)>,
    r: Rule,
)
    requires
        forall|k: int| 0 <= k < patterns.len() ==> (#[trigger] patterns[k]).2 != r,
    ensures
        !token_rules_of(line, patterns).contains(r),
    decreases patterns.len(),
{
    if patterns.len() > 0 {
        let rest = patterns.drop_first();
        assert forall|k: int| 0 <= k < rest.len() implies (#[trigger] rest[k]).2 != r by {
            assert(rest[k] == patterns[k + 1]);
        }
        lemma_token_rules_of_lacks(line, rest, r);
        let (p, m, q) = patterns[0];
        let here: Seq<Rule> = if has_prefixed_token(line, p, m) {
            seq![q]
        } else {
            seq![]
        };
        let tail = token_rules_of(line, rest);
        assert(token_rules_of(line, patterns) == here + tail);
        assert(patterns[0].2 != r);
        if token_rules_of(line, patterns).contains(r) {
            let k = choose|k: int| 0 <= k < (here + tail).len() && (here + tail)[k] == r;
            if k >= here.len() {
                assert((here + tail)[k] == tail[k - here.len()]);
            }
        }
    }
}

proof fn lemma_run_len_skip(s: Seq<char>, a: int, b: int)
    requires
        0 <= a <= b <= s.len(),
        forall|k: int| a <= k < b ==> is_tail_char(#[trigger] s[k]),
    ensures
        run_len(s, a) == (b - a) + run_len(s, b),
    decreases b - a,
{
    if a < b {
        lemma_run_len_skip(s, a + 1, b);
    }
}

/// A token-shaped occurrence of `p` at or after `from`.
pub open spec fn token_at_or_after(s: Seq<char>, p: Seq<char>, min_tail: nat, from: int) -> bool {
    exists|i: int| from <= i && #[trigger] occurs_at(s, p, i) && run_len(s, i + p.len()) >= min_tail
}

proof fn lemma_prefixed_token_from(s: Seq<char>, p: Seq<char>, min_tail: nat, from: int)
    requires
        p.len() > 0,
        0 <= from,
        forall|k: int| 0 <= k < p.len() ==> is_tail_char(#[trigger] p[k]),
    ensures
        prefixed_token_from(s, p, min_tail, from) == token_at_or_after(s, p, min_tail, from),
    decreases s.len() - from,
{
    let n = p.len();
    if from + n > s.len() {
        if token_at_or_after(s, p, min_tail, from) {
            let i = choose|i: int| from <= i && #[trigger] occurs_at(s, p, i) && run_len(s, i + n) >= min_tail;
        }
    } else if occurs_at(s, p, from) {
        lemma_prefixed_token_from(s, p, min_tail, from + n);
        if run_len(s, from + n) < min_tail && token_at_or_after(s, p, min_tail, from) {
            let i = choose|i: int| from <= i && #[trigger] occurs_at(s, p, i) && run_len(s, i + n) >= min_tail;
            if i < from + n {
                // The occurrence at `i` overlaps the one at `from`: its prefix
                // characters continue the run after `from + n`.
                assert forall|k: int| from + n <= k < i + n implies is_tail_char(#[trigger] s[k]) by {
                    assert(s.subrange(i, i + n)[k - i] == p[k - i]);
                }
                lemma_run_len_skip(s, from + n, i + n);
                assert(false);
            }
            assert(token_at_or_after(s, p, min_tail, from + n));
        }
    } else {
        lemma_prefixed_token_from(s, p, min_tail, from + 1);
        if token_at_or_after(s, p, min_tail, from) {
            let i = choose|i: int| from <= i && #[trigger] occurs_at(s, p, i) && run_len(s, i + n) >= min_tail;
            assert(i != from);
            assert(token_at_or_after(s, p, min_tail, from + 1));
        }
    }
}

/// For a prefix made only of token characters (as all of the table's are),
/// the left-to-right search finds a long enough token wherever in the line it
/// stands.
pub proof fn law_token_found_anywhere(s: Seq<char>, p: Seq<char>, min_tail: nat)
    requires
        p.len() > 0,
        forall|k: int| 0 <= k < p.len() ==> is_tail_char(#[trigger] p[k]),
    ensures
        has_prefixed_token(s, p, min_tail) <==> exists|i: int|
            #[trigger] occurs_at(s, p, i) && run_len(s, i + p.len()) >= min_tail,
{
    lemma_prefixed_token_from(s, p, min_tail, 0);
}

proof fn lemma_run_len_in_longer_line(a: Seq<char>, s: Seq<char>, b: Seq<char>, j: int)
    requires
        0 <= j <= s.len(),
    ensures
        run_len(a + s + b, a.len() + j) >= run_len(s, j),
    decreases s.len() - j,
{
    if j < s.len() && is_tail_char(s[j]) {
        assert((a + s + b)[a.len() + j] == s[j]);
        lemma_run_len_in_longer_line(a, s, b, j + 1);
    }
}

/// A token stays found when the line grows on either side, and when a
/// shorter tail is asked for (for prefixes made of token characters, as all
/// of the table's are).
pub proof fn law_tokens_stay_found(
    a: Seq<char>,
    s: Seq<char>,
    b: Seq<char>,
    p: Seq<char>,
    min_tail: nat,
    fewer: nat,
)
    requires
        p.len() > 0,
        forall|k: int| 0 <= k < p.len() ==> is_tail_char(#[trigger] p[k]),
        has_prefixed_token(s, p, min_tail),
        fewer <= min_tail,
    ensures
        has_prefixed_token(a + s + b, p, min_tail),
        has_prefixed_token(s, p, fewer),
{
    law_token_found_anywhere(s, p, min_tail);
    law_token_found_anywhere(s, p, fewer);
    law_token_found_anywhere(a + s + b, p, min_tail);
    let i = choose|i: int| #[trigger] occurs_at(s, p, i) && run_len(s, i + p.len()) >= min_tail;
    let t = a + s + b;
    assert(t.subrange(a.len() + i, a.len() + i + p.len()) =~= s.subrange(i, i + p.len()));
    assert(occurs_at(t, p, a.len() + i));
    lemma_run_len_in_longer_line(a, s, b, i + p.len());
    assert(a.len() + i + p.len() == a.len() + (i + p.len()));
}

/// The tail after a prefix is counted over ASCII letters, digits, `_` and
/// `-` only: at a position holding any other character (or past the end)
/// the count is 0, and each of those characters adds one to the count of
/// what follows it.
pub proof fn law_token_tail_characters(s: Seq<char>, i: int)
    ensures
        run_len(s, i) == if 0 <= i < s.len() && (('a' <= s[i] && s[i] <= 'z') || ('A' <= s[i]
            && s[i] <= 'Z') || ('0' <= s[i] && s[i] <= '9') || s[i] == '_' || s[i] == '-') {
            1 + run_len(s, i + 1)
        } else {
            0
        },
{
}

pub(crate) proof fn lemma_token_rules_of_contains(line: Seq<char>, patterns: Seq<(Seq<char>, nat, Rule)>, k: int)
    requires
        0 <= k < patterns.len(),
        has_prefixed_token(line, patterns[k].0, patterns[k].1),
    ensures
        token_rules_of(line, patterns).contains(patterns[k].2),
    decreases patterns.len(),
{
    let (p, m, r) = patterns[0];
    let here: Seq<Rule> = if has_prefixed_token(line, p, m) {
        seq![r]
    } else {
        seq![]
    };
    let rest = token_rules_of(line, patterns.drop_first());
    assert(token_rules_of(line, patterns) == here + rest);
    if k == 0 {
        assert((here + rest)[0] == r);
    } else {
        lemma_token_rules_of_contains(line, patterns.drop_first(), k - 1);
        let j = choose|j: int| 0 <= j < rest.len() && rest[j] == patterns[k].2;
        assert((here + rest)[here.len() + j] == rest[j]);
    }
}

/// Each prefix of the token table is made of token characters.
pub(crate) proof fn lemma_table_prefixes_are_token_chars(k: int)
    requires
        0 <= k < 5,
    ensures
        token_patterns()[k].0.len() > 0,
        forall|j: int|
            0 <= j < token_patterns()[k].0.len() ==> is_tail_char(#[trigger] token_patterns()[k].0[j]),
{
    reveal_strlit("github_pat_");
    reveal_strlit("ghp_");
    reveal_strlit("xoxb-");
    reveal_strlit("xoxp-");
    reveal_strlit("sk-");
}

/// `p` stands at position `i` of `s` and at least `min_tail` tail
/// characters follow it.
pub open spec fn token_at(s: Seq<char>, p: Seq<char>, min_tail: nat, i: int) -> bool {
    0 <= i && i + p.len() <= s.len() && s.subrange(i, i + p.len()) == p && run_len(s, i + p.len())
        >= min_tail
}

proof fn lemma_table_token_found(line: Seq<char>, k: int)
    requires
        0 <= k < 5,
    ensures
        has_prefixed_token(line, token_patterns()[k].0, token_patterns()[k].1) <==> exists|i: int|
            token_at(line, token_patterns()[k].0, token_patterns()[k].1, i),
{
    let (p, m, r) = token_patterns()[k];
    lemma_table_prefixes_are_token_chars(k);
    law_token_found_anywhere(line, p, m);
    if has_prefixed_token(line, p, m) {
        let i = choose|i: int| #[trigger] occurs_at(line, p, i) && run_len(line, i + p.len()) >= m;
        assert(token_at(line, p, m, i));
    }
    if exists|i: int| token_at(line, p, m, i) {
        let i = choose|i: int| token_at(line, p, m, i);
        assert(occurs_at(line, p, i));
    }
}

/// The token rules of a line, spelled out: `github_pat_` with 40 tail
/// characters or `ghp_` with 30 (each a GitHub token), `xoxb-` or `xoxp-`
/// with 20 (each a Slack token), `sk-` with 20 (an API key), anywhere in the
/// line, each reported once, in that order.
pub proof fn law_token_table_spelled_out(line: Seq<char>)
    ensures
        token_rules_of(line, token_patterns()) == (if exists|i: int|
            token_at(line, "github_pat_"@, 40, i) {
            seq![Rule::GithubToken]
        } else {
            seq![]
        }) + (if exists|i: int| token_at(line, "ghp_"@, 30, i) {
            seq![Rule::GithubToken]
        } else {
            seq![]
        }) + (if exists|i: int| token_at(line, "xoxb-"@, 20, i) {
            seq![Rule::SlackToken]
        } else {
            seq![]
        }) + (if exists|i: int| token_at(line, "xoxp-"@, 20, i) {
            seq![Rule::SlackToken]
        } else {
            seq![]
        }) + (if exists|i: int| token_at(line, "sk-"@, 20, i) {
            seq![Rule::ApiKeyPrefix]
        } else {
            seq![]
        }),
{
    let pats = token_patterns();
    lemma_table_token_found(line, 0);
    lemma_table_token_found(line, 1);
    lemma_table_token_found(line, 2);
    lemma_table_token_found(line, 3);
    lemma_table_token_found(line, 4);
    let p1 = pats.drop_first();
    let p2 = p1.drop_first();
    let p3 = p2.drop_first();
    let p4 = p3.drop_first();
    let p5 = p4.drop_first();
    assert(p1[0] == pats[1] && p2[0] == pats[2] && p3[0] == pats[3] && p4[0] == pats[4]);
    assert(p5.len() == 0);
    let h0: Seq<Rule> = if has_prefixed_token(line, pats[0].0, pats[0].1) { seq![pats[0].2] } else { seq![] };
    let h1: Seq<Rule> = if has_prefixed_token(line, pats[1].0, pats[1].1) { seq![pats[1].2] } else { seq![] };
    let h2: Seq<Rule> = if has_prefixed_token(line, pats[2].0, pats[2].1) { seq![pats[2].2] } else { seq![] };
    let h3: Seq<Rule> = if has_prefixed_token(line, pats[3].0, pats[3].1) { seq![pats[3].2] } else { seq![] };
    let h4: Seq<Rule> = if has_prefixed_token(line, pats[4].0, pats[4].1) { seq![pats[4].2] } else { seq![] };
    assert(token_rules_of(line, p5) =~= Seq::<Rule>::empty());
    assert(token_rules_of(line, p4) == h4 + token_rules_of(line, p5));
    assert(token_rules_of(line, p3) == h3 + token_rules_of(line, p4));
    assert(token_rules_of(line, p2) == h2 + token_rules_of(line, p3));
    assert(token_rules_of(line, p1) == h1 + token_rules_of(line, p2));
    assert(token_rules_of(line, pats) == h0 + token_rules_of(line, p1));
    assert(token_rules_of(line, pats) =~= h0 + h1 + h2 + h3 + h4);
}

} // verus!
