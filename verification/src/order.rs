//! The order in which findings are reported: by path, then line, then rule
//! identifier, comparing strings byte by byte as `str`'s `Ord` does; equal
//! keys keep the order they were found in.
use vstd::prelude::*;
use vstd::utf8::encode_utf8;
use crate::scan::{findings_view, Finding, FindingView};

verus! {

/// Lexicographic order of byte strings: `a` comes strictly before `b`.
pub open spec fn bytes_before(a: Seq<u8>, b: Seq<u8>) -> bool
    decreases a.len(),
{
    if a.len() == 0 {
        b.len() > 0
    } else if b.len() == 0 {
        false
    } else if a[0] != b[0] {
        a[0] < b[0]
    } else {
        bytes_before(a.drop_first(), b.drop_first())
    }
}

/// `a` sorts strictly before `b`: by path, then line, then rule identifier.
pub open spec fn finding_before(a: FindingView, b: FindingView) -> bool {
    let pa = encode_utf8(a.path);
    let pb = encode_utf8(b.path);
    ||| bytes_before(pa, pb)
    ||| pa == pb && a.line < b.line
    ||| pa == pb && a.line == b.line && bytes_before(encode_utf8(a.rule), encode_utf8(b.rule))
}

/// `a` and `b` have the same sort key.
pub open spec fn same_key(a: FindingView, b: FindingView) -> bool {
    &&& encode_utf8(a.path) == encode_utf8(b.path)
    &&& a.line == b.line
    &&& encode_utf8(a.rule) == encode_utf8(b.rule)
}

/// No finding comes after one that sorts strictly before it.
pub open spec fn is_sorted(s: Seq<FindingView>) -> bool {
    forall|i: int, j: int| 0 <= i < j < s.len() ==> !finding_before(#[trigger] s[j], #[trigger] s[i])
}

/// `out` is `input` rearranged by `perm` (position in `out` to position in
/// `input`), keeping the input order of findings with the same key.
pub open spec fn is_stable_arrangement(
    input: Seq<FindingView>,
    out: Seq<FindingView>,
    perm: Seq<int>,
) -> bool {
    &&& perm.len() == out.len()
    &&& out.len() == input.len()
    &&& forall|k: int|
        0 <= k < perm.len() ==> 0 <= #[trigger] perm[k] < input.len() && out[k] == input[perm[k]]
    &&& forall|k: int, l: int| 0 <= k < l < perm.len() ==> #[trigger] perm[k] != #[trigger] perm[l]
    &&& forall|k: int, l: int|
        0 <= k < l < out.len() && same_key(#[trigger] out[k], #[trigger] out[l]) ==> perm[k]
            < perm[l]
}

proof fn lemma_bytes_before_irreflexive(a: Seq<u8>)
    ensures
        !bytes_before(a, a),
    decreases a.len(),
{
    if a.len() > 0 {
        lemma_bytes_before_irreflexive(a.drop_first());
    }
}

proof fn lemma_bytes_before_asymmetric(a: Seq<u8>, b: Seq<u8>)
    requires
        bytes_before(a, b),
    ensures
        !bytes_before(b, a),
    decreases a.len(),
{
    if a.len() > 0 && b.len() > 0 && a[0] == b[0] {
        lemma_bytes_before_asymmetric(a.drop_first(), b.drop_first());
    }
}

proof fn lemma_bytes_before_transitive(a: Seq<u8>, b: Seq<u8>, c: Seq<u8>)
    requires
        bytes_before(a, b),
        bytes_before(b, c),
    ensures
        bytes_before(a, c),
    decreases a.len(),
{
    if a.len() > 0 && b.len() > 0 && c.len() > 0 && a[0] == b[0] && b[0] == c[0] {
        lemma_bytes_before_transitive(a.drop_first(), b.drop_first(), c.drop_first());
    }
}

proof fn lemma_finding_before_order(a: FindingView, b: FindingView, c: FindingView)
    ensures
        !finding_before(a, a),
        finding_before(a, b) ==> !finding_before(b, a),
        finding_before(a, b) && finding_before(b, c) ==> finding_before(a, c),
{
    let (pa, pb, pc) = (encode_utf8(a.path), encode_utf8(b.path), encode_utf8(c.path));
    let (ra, rb, rc) = (encode_utf8(a.rule), encode_utf8(b.rule), encode_utf8(c.rule));
    lemma_bytes_before_irreflexive(pa);
    lemma_bytes_before_irreflexive(ra);
    if bytes_before(pa, pb) {
        lemma_bytes_before_asymmetric(pa, pb);
    }
    if bytes_before(ra, rb) {
        lemma_bytes_before_asymmetric(ra, rb);
    }
    if finding_before(a, b) && finding_before(b, c) {
        if bytes_before(pa, pb) && bytes_before(pb, pc) {
            lemma_bytes_before_transitive(pa, pb, pc);
        }
        if bytes_before(ra, rb) && bytes_before(rb, rc) {
            lemma_bytes_before_transitive(ra, rb, rc);
        }
    }
}

/// Whether byte string `a` comes strictly before `b`.
fn bytes_before_exec(a: &[u8], b: &[u8]) -> (r: bool)
    ensures
        r == bytes_before(a@, b@),
{
    let mut i: usize = 0;
    assert(a@.skip(0) =~= a@);
    assert(b@.skip(0) =~= b@);
    while i < a.len() && i < b.len()
        invariant
            i <= a@.len(),
            i <= b@.len(),
            bytes_before(a@, b@) == bytes_before(a@.skip(i as int), b@.skip(i as int)),
        decreases a@.len() - i,
    {
        if a[i] != b[i] {
            return a[i] < b[i];
        }
        assert(a@.skip(i as int).drop_first() =~= a@.skip(i + 1));
        assert(b@.skip(i as int).drop_first() =~= b@.skip(i + 1));
        i = i + 1;
    }
    a.len() < b.len()
}

/// Whether finding `a` sorts strictly before finding `b`.
pub fn finding_sorts_before(a: &Finding, b: &Finding) -> (r: bool)
    ensures
        r == finding_before(a@, b@),
{
    let pa = a.path.as_str().as_bytes();
    let pb = b.path.as_str().as_bytes();
    if bytes_before_exec(pa, pb) {
        return true;
    }
    if bytes_before_exec(pb, pa) {
        proof {
            lemma_bytes_before_asymmetric(pb@, pa@);
        }
        return false;
    }
    let same_path = pa.len() == pb.len() && !bytes_differ(pa, pb);
    if !same_path {
        return false;
    }
    if a.line != b.line {
        return a.line < b.line;
    }
    bytes_before_exec(a.rule.as_bytes(), b.rule.as_bytes())
}

/// Whether two byte strings of the same length differ somewhere.
fn bytes_differ(a: &[u8], b: &[u8]) -> (r: bool)
    requires
        a@.len() == b@.len(),
    ensures
        r == (a@ != b@),
{
    let mut i: usize = 0;
    while i < a.len()
        invariant
            i <= a@.len(),
            a@.len() == b@.len(),
            forall|k: int| 0 <= k < i ==> a@[k] == b@[k],
        decreases a@.len() - i,
    {
        if a[i] != b[i] {
            return true;
        }
        i = i + 1;
    }
    assert(a@ =~= b@);
    false
}

/// Sorts findings by path, then line, then rule identifier, keeping the order
/// of findings with the same key.
pub fn sort_findings(findings: Vec<Finding>) -> (sorted: Vec<Finding>)
    ensures
        is_sorted(findings_view(sorted@)),
        exists|perm: Seq<int>|
            is_stable_arrangement(findings_view(findings@), findings_view(sorted@), perm),
{
    let ghost input = findings_view(findings@);
    let n = findings.len();
    let mut rest = findings;
    let mut out: Vec<Finding> = Vec::new();
    let ghost mut perm: Seq<int> = Seq::empty();
    let mut i: usize = 0;
    while i < n
        invariant
            0 <= i <= n,
            n == input.len(),
            findings_view(rest@) == input.subrange(i as int, n as int),
            rest@.len() == n - i,
            is_sorted(findings_view(out@)),
            perm.len() == i,
            out@.len() == i,
            forall|k: int|
                0 <= k < i ==> 0 <= #[trigger] perm[k] < i && findings_view(out@)[k]
                    == input[perm[k]],
            forall|k: int, l: int| 0 <= k < l < i ==> #[trigger] perm[k] != #[trigger] perm[l],
            forall|k: int, l: int|
                0 <= k < l < i && same_key(
                    #[trigger] findings_view(out@)[k],
                    #[trigger] findings_view(out@)[l],
                ) ==> perm[k] < perm[l],
        decreases n - i,
    {
        let ghost old_rest = rest@;
        assert(findings_view(old_rest)[0] == old_rest[0]@);
        let x = rest.remove(0);
        assert(x@ == input[i as int]);
        assert(findings_view(rest@) =~= findings_view(old_rest).subrange(1, n - i));
        let ghost ov = findings_view(out@);
        let mut p: usize = 0;
        while p < out.len() && !finding_sorts_before(&x, &out[p])
            invariant
                p <= out@.len(),
                ov == findings_view(out@),
                forall|k: int| 0 <= k < p ==> !finding_before(x@, #[trigger] ov[k]),
            decreases out@.len() - p,
        {
            p = p + 1;
        }
        let ghost xv = x@;
        out.insert(p, x);
        proof {
            let nv = findings_view(out@);
            assert(nv =~= ov.insert(p as int, xv));
            let np = perm.insert(p as int, i as int);
            assert forall|k: int, l: int| 0 <= k < l < nv.len() implies !finding_before(
                #[trigger] nv[l],
                #[trigger] nv[k],
            ) by {
                if l < p {
                    assert(nv[k] == ov[k] && nv[l] == ov[l]);
                } else if l == p {
                    assert(nv[k] == ov[k]);
                    assert(!finding_before(xv, ov[k]));
                } else if k == p {
                    assert(nv[l] == ov[l - 1]);
                    lemma_finding_before_order(ov[l - 1], xv, ov[p as int]);
                    if l - 1 > p {
                        assert(!finding_before(ov[l - 1], ov[p as int]));
                    }
                    lemma_finding_before_order(ov[p as int], ov[p as int], ov[p as int]);
                } else if k < p {
                    assert(nv[k] == ov[k] && nv[l] == ov[l - 1]);
                } else {
                    assert(nv[k] == ov[k - 1] && nv[l] == ov[l - 1]);
                }
            }
            assert forall|k: int| 0 <= k < i + 1 implies 0 <= #[trigger] np[k] < i + 1 && nv[k]
                == input[np[k]] by {
                if k < p {
                    assert(np[k] == perm[k]);
                } else if k > p {
                    assert(np[k] == perm[k - 1]);
                }
            }
            assert forall|k: int, l: int| 0 <= k < l < i + 1 implies #[trigger] np[k]
                != #[trigger] np[l] by {
                if k < p && l < p {
                } else if k < p && l == p {
                    assert(np[k] == perm[k]);
                } else if k < p {
                    assert(np[k] == perm[k] && np[l] == perm[l - 1]);
                } else if k == p {
                    assert(np[l] == perm[l - 1]);
                } else {
                    assert(np[k] == perm[k - 1] && np[l] == perm[l - 1]);
                }
            }
            assert forall|k: int, l: int|
                0 <= k < l < i + 1 && same_key(#[trigger] nv[k], #[trigger] nv[l]) implies np[k]
                < np[l] by {
                if l < p {
                    assert(nv[k] == ov[k] && nv[l] == ov[l]);
                } else if l == p {
                    assert(np[k] == perm[k]);
                } else if k == p {
                    // Nothing after the inserted finding shares its key: the
                    // finding right after it sorts strictly after it.
                    assert(nv[l] == ov[l - 1]);
                    assert(finding_before(xv, ov[p as int]));
                    if l - 1 > p {
                        assert(!finding_before(ov[l - 1], ov[p as int]));
                    }
                    assert(finding_before(ov[l - 1], ov[p as int]));
                    lemma_finding_before_order(ov[p as int], ov[p as int], ov[p as int]);
                } else if k < p {
                    assert(nv[k] == ov[k] && nv[l] == ov[l - 1]);
                } else {
                    assert(nv[k] == ov[k - 1] && nv[l] == ov[l - 1]);
                }
            }
            perm = np;
        }
        i = i + 1;
    }
    assert(is_stable_arrangement(input, findings_view(out@), perm));
    out
}

/// Byte strings are ordered as dictionaries order words: `a` comes before
/// `b` exactly when, at the first position where they differ, `a`'s byte is
/// smaller, or when `a` is a proper prefix of `b`.
pub proof fn law_bytes_before_is_dictionary_order(a: Seq<u8>, b: Seq<u8>)
    ensures
        bytes_before(a, b) <==> (exists|k: int|
            0 <= k < a.len() && k < b.len() && #[trigger] a[k] < #[trigger] b[k] && forall|m: int|
                0 <= m < k ==> a[m] == b[m]) || (a.len() < b.len() && forall|m: int|
            0 <= m < a.len() ==> a[m] == b[m]),
    decreases a.len(),
{
    if a.len() > 0 && b.len() > 0 {
        if a[0] != b[0] {
            if a[0] < b[0] {
                assert(a[0] < b[0] && forall|m: int| 0 <= m < 0 ==> a[m] == b[m]);
            } else {
                assert forall|k: int|
                    0 <= k < a.len() && k < b.len() && #[trigger] a[k] < #[trigger] b[k] implies !(
                    forall|m: int| 0 <= m < k ==> a[m] == b[m]) by {
                    if k > 0 {
                        assert(!(a[0] == b[0]));
                    }
                }
                assert(!(forall|m: int| 0 <= m < a.len() ==> a[m] == b[m])) by {
                    assert(a[0] != b[0]);
                }
            }
        } else {
            let (a1, b1) = (a.drop_first(), b.drop_first());
            law_bytes_before_is_dictionary_order(a1, b1);
            if exists|k: int|
                0 <= k < a1.len() && k < b1.len() && #[trigger] a1[k] < #[trigger] b1[k] && forall|
                    m: int,
                | 0 <= m < k ==> a1[m] == b1[m] {
                let k = choose|k: int|
                    0 <= k < a1.len() && k < b1.len() && #[trigger] a1[k] < #[trigger] b1[k]
                        && forall|m: int| 0 <= m < k ==> a1[m] == b1[m];
                assert(a[k + 1] == a1[k] && b[k + 1] == b1[k]);
                assert forall|m: int| 0 <= m < k + 1 implies a[m] == b[m] by {
                    if m > 0 {
                        assert(a[m] == a1[m - 1] && b[m] == b1[m - 1]);
                    }
                }
            }
            if exists|k: int|
                0 <= k < a.len() && k < b.len() && #[trigger] a[k] < #[trigger] b[k] && forall|
                    m: int,
                | 0 <= m < k ==> a[m] == b[m] {
                let k = choose|k: int|
                    0 <= k < a.len() && k < b.len() && #[trigger] a[k] < #[trigger] b[k] && forall|
                        m: int,
                    | 0 <= m < k ==> a[m] == b[m];
                assert(k > 0);
                assert(a1[k - 1] == a[k] && b1[k - 1] == b[k]);
                assert forall|m: int| 0 <= m < k - 1 implies a1[m] == b1[m] by {
                    assert(a[m + 1] == b[m + 1]);
                }
            }
            if a.len() < b.len() && forall|m: int| 0 <= m < a.len() ==> a[m] == b[m] {
                assert forall|m: int| 0 <= m < a1.len() implies a1[m] == b1[m] by {
                    assert(a[m + 1] == b[m + 1]);
                }
            }
            if a1.len() < b1.len() && forall|m: int| 0 <= m < a1.len() ==> a1[m] == b1[m] {
                assert forall|m: int| 0 <= m < a.len() implies a[m] == b[m] by {
                    if m > 0 {
                        assert(a[m] == a1[m - 1] && b[m] == b1[m - 1]);
                    }
                }
            }
        }
    }
}

/// In a sorted list, a later finding never has a path that comes before an
/// earlier one's; within one path, line numbers never go down; within one
/// path and line, a later rule identifier never comes before an earlier one.
pub proof fn law_sorted_by_path_then_line_then_rule(s: Seq<FindingView>, i: int, j: int)
    requires
        is_sorted(s),
        0 <= i < j < s.len(),
    ensures
        !bytes_before(encode_utf8(s[j].path), encode_utf8(s[i].path)),
        encode_utf8(s[i].path) == encode_utf8(s[j].path) ==> s[i].line <= s[j].line,
        encode_utf8(s[i].path) == encode_utf8(s[j].path) && s[i].line == s[j].line ==> !bytes_before(
            encode_utf8(s[j].rule),
            encode_utf8(s[i].rule),
        ),
{
    assert(!finding_before(s[j], s[i]));
}

} // verus!
