//! Scanning one file: a finding for a sensitive file name, then the findings
//! of each line of its text.
use std::path::Path;
use vstd::prelude::*;
use vstd::slice::slice_subrange;
use crate::decode::{decode_text, decoded_text, decoded_utf16, utf16_with_bom};
use vstd::utf8::encode_utf8;
use crate::path::{file_name, lossy_text, path_file_name, path_lossy_text};
use crate::rules::{classify_file_name, file_name_rule, line_rules, rules_for_line, Rule};
use crate::text::{
    chars_of, law_crlf_gives_the_same_lines, law_final_newline_gives_the_same_lines,
    lemma_first_index_is, lemma_first_index_none, no_crlf, strip_cr, text_lines, with_crlf,
};

verus! {

/// One potential secret: the file's path as text, the 1-based line (0 for a
/// finding about the file name), the rule identifier and its explanation.
#[derive(Debug, Clone, PartialEq, Eq)]
pub struct Finding {
    pub path: String,
    pub line: usize,
    pub rule: &'static str,
    pub message: &'static str,
}

/// A finding as values.
pub struct FindingView {
    pub path: Seq<char>,
    pub line: nat,
    pub rule: Seq<char>,
    pub message: Seq<char>,
}

impl View for Finding {
    type V = FindingView;

    open spec fn view(&self) -> FindingView {
        FindingView {
            path: self.path@,
            line: self.line as nat,
            rule: self.rule@,
            message: self.message@,
        }
    }
}

pub open spec fn findings_view(findings: Seq<Finding>) -> Seq<FindingView> {
    findings.map_values(|f: Finding| f@)
}

/// The finding that `rule` makes for the file at `path`, on line `line`.
pub open spec fn finding_of(path: Seq<char>, line: nat, rule: Rule) -> FindingView {
    FindingView { path: path, line: line, rule: rule.id_text(), message: rule.message_text() }
}

/// The findings of one line.
pub open spec fn line_findings(path: Seq<char>, line_number: nat, line: Seq<char>) -> Seq<
    FindingView,
> {
    line_rules(line).map_values(|r: Rule| finding_of(path, line_number, r))
}

/// The findings of consecutive lines, the first of them numbered `first`.
pub open spec fn findings_of_lines(path: Seq<char>, lines: Seq<Seq<char>>, first: nat) -> Seq<
    FindingView,
>
    decreases lines.len(),
{
    if lines.len() == 0 {
        seq![]
    } else {
        line_findings(path, first, lines[0]) + findings_of_lines(path, lines.drop_first(), first + 1)
    }
}

/// The findings of a text, line by line from line 1.
pub open spec fn content_findings(path: Seq<char>, text: Seq<char>) -> Seq<FindingView> {
    findings_of_lines(path, text_lines(text), 1)
}

/// The finding, if any, about the file's name.
pub open spec fn name_findings(path: Seq<char>, name: Option<Seq<char>>) -> Seq<FindingView> {
    match name {
        Some(n) => match file_name_rule(n) {
            Some(r) => seq![finding_of(path, 0, r)],
            None => seq![],
        },
        None => seq![],
    }
}

/// Everything a scan reports for a file shown as `path`, with file name
/// `name` (as text) and contents `bytes`: the file-name finding, then the
/// findings of the text if the bytes decode as text.
pub open spec fn scan_result(path: Seq<char>, name: Option<Seq<char>>, bytes: Seq<u8>) -> Seq<
    FindingView,
> {
    name_findings(path, name) + match decoded_text(bytes) {
        Some(text) => content_findings(path, text),
        None => seq![],
    }
}

/// The file name of `path` as text, as `to_string_lossy` gives it.
pub open spec fn path_name_text(path: &Path) -> Option<Seq<char>> {
    match path_file_name(path) {
        Some(n) => Some(path_lossy_text(n)),
        None => None,
    }
}

fn make_finding(path: &String, line: usize, rule: Rule) -> (f: Finding)
    ensures
        f@ == finding_of(path@, line as nat, rule),
{
    Finding { path: path.clone(), line: line, rule: rule.id(), message: rule.message() }
}

/// Appends the findings of one line.
fn push_line_findings(path: &String, line_number: usize, line: &[char], findings: &mut Vec<Finding>)
    ensures
        findings_view(final(findings)@) == findings_view(old(findings)@) + line_findings(
            path@,
            line_number as nat,
            line@,
        ),
{
    let rules = rules_for_line(line);
    let ghost start = findings@;
    let n = rules.len();
    let mut k: usize = 0;
    while k < n
        invariant
            0 <= k <= n,
            n == rules@.len(),
            rules@ == line_rules(line@),
            findings_view(findings@) == findings_view(start) + line_findings(
                path@,
                line_number as nat,
                line@,
            ).take(k as int),
        decreases n - k,
    {
        let f = make_finding(path, line_number, rules[k]);
        let ghost before = findings@;
        findings.push(f);
        proof {
            let lf = line_findings(path@, line_number as nat, line@);
            assert(findings@ == before.push(f));
            assert(findings_view(findings@) =~= findings_view(before).push(f@));
            assert(lf[k as int] == finding_of(path@, line_number as nat, rules@[k as int]));
            assert(lf.take(k + 1) =~= lf.take(k as int).push(lf[k as int]));
        }
        assert(findings_view(findings@) =~= findings_view(start) + line_findings(
            path@,
            line_number as nat,
            line@,
        ).take(k + 1));
        k = k + 1;
    }
    assert(line_findings(path@, line_number as nat, line@).take(n as int) =~= line_findings(
        path@,
        line_number as nat,
        line@,
    ));
}

/// Appends the findings of the text of `bytes`, if it is text.
fn push_content_findings(path: &String, bytes: &[u8], findings: &mut Vec<Finding>)
    ensures
        findings_view(final(findings)@) == findings_view(old(findings)@) + match decoded_text(
            bytes@,
        ) {
            Some(text) => content_findings(path@, text),
            None => seq![],
        },
{
    let text = match decode_text(bytes) {
        Some(t) => t,
        None => {
            assert(findings_view(findings@) + Seq::<FindingView>::empty() =~= findings_view(
                findings@,
            ));
            return ;
        },
    };
    let ghost all = text@;
    let ghost target = findings_view(findings@) + content_findings(path@, all);
    let n = text.len();
    let mut line_start: usize = 0;
    let mut lines_done: usize = 0;
    assert(all.subrange(0, n as int) =~= all);
    let mut j: usize = 0;
    while j < n
        invariant
            0 <= j <= n,
            n == all.len(),
            all == text@,
            line_start <= j,
            lines_done <= line_start,
            forall|k: int| line_start <= k < j ==> all[k] != '\n',
            target == findings_view(findings@) + findings_of_lines(
                path@,
                text_lines(all.subrange(line_start as int, n as int)),
                lines_done as nat + 1,
            ),
        decreases n - j,
    {
        if text[j] == '\n' {
            let raw = slice_subrange(text.as_slice(), line_start, j);
            let line = if raw.len() > 0 && raw[raw.len() - 1] == '\r' {
                slice_subrange(raw, 0, raw.len() - 1)
            } else {
                raw
            };
            assert(line@ == strip_cr(raw@));
            proof {
                let s = all.subrange(line_start as int, n as int);
                lemma_first_index_is(s, '\n', j - line_start);
                assert(s.subrange(0, j - line_start) =~= raw@);
                assert(s.subrange(j - line_start + 1, s.len() as int) =~= all.subrange(
                    j + 1,
                    n as int,
                ));
                assert(text_lines(s) == seq![strip_cr(raw@)] + text_lines(
                    all.subrange(j + 1, n as int),
                ));
                assert(text_lines(s).drop_first() =~= text_lines(all.subrange(j + 1, n as int)));
            }
            push_line_findings(path, lines_done + 1, line, findings);
            line_start = j + 1;
            lines_done = lines_done + 1;
            assert(findings_view(findings@) + findings_of_lines(
                path@,
                text_lines(all.subrange(line_start as int, n as int)),
                lines_done as nat + 1,
            ) =~= target);
        }
        j = j + 1;
    }
    if line_start < n {
        let line = slice_subrange(text.as_slice(), line_start, n);
        proof {
            let s = all.subrange(line_start as int, n as int);
            lemma_first_index_none(s, '\n');
            assert(s == line@);
            assert(text_lines(s) == seq![s]);
            assert(text_lines(s).drop_first() =~= Seq::<Seq<char>>::empty());
            assert(findings_of_lines(path@, text_lines(s), lines_done as nat + 1) == line_findings(
                path@,
                lines_done as nat + 1,
                s,
            ) + findings_of_lines(path@, Seq::<Seq<char>>::empty(), lines_done as nat + 2));
            assert(line_findings(path@, lines_done as nat + 1, s) + Seq::<FindingView>::empty()
                =~= line_findings(path@, lines_done as nat + 1, s));
        }
        push_line_findings(path, lines_done + 1, line, findings);
        assert(findings_view(findings@) =~= target);
    } else {
        assert(all.subrange(line_start as int, n as int) =~= Seq::<char>::empty());
        assert(findings_view(findings@) =~= target);
    }
}

/// Which sensitive-file rule, if any, the file name of `path` triggers.
fn sensitive_filename(path: &Path) -> (r: Option<Rule>)
    ensures
        r == match path_name_text(path) {
            Some(n) => file_name_rule(n),
            None => None,
        },
{
    match file_name(path) {
        None => None,
        Some(name) => {
            let text = lossy_text(name);
            let chars = chars_of(text.as_str());
            classify_file_name(chars.as_slice())
        },
    }
}

/// Scans the file at `path` with contents `bytes`: a finding for a sensitive
/// file name, then the findings of each line of its text.
pub fn scan_bytes(path: &Path, bytes: &[u8]) -> (findings: Vec<Finding>)
    ensures
        findings_view(findings@) == scan_result(path_lossy_text(path), path_name_text(path), bytes@),
{
    let display_path = lossy_text(path);
    let mut findings: Vec<Finding> = Vec::new();
    if let Some(rule) = sensitive_filename(path) {
        findings.push(make_finding(&display_path, 0, rule));
    }
    assert(findings_view(findings@) =~= name_findings(display_path@, path_name_text(path)));
    push_content_findings(&display_path, bytes, &mut findings);
    findings
}

/// Scans a file shown as `display_path`, whose file name is `file_name`, with
/// contents `bytes`.
pub fn scan_named(display_path: &str, file_name: Option<&str>, bytes: &[u8]) -> (findings: Vec<
    Finding,
>)
    ensures
        findings_view(findings@) == scan_result(
            display_path@,
            match file_name {
                Some(n) => Some(n@),
                None => None,
            },
            bytes@,
        ),
{
    let display = String::from_str(display_path);
    let mut findings: Vec<Finding> = Vec::new();
    if let Some(name) = file_name {
        let chars = chars_of(name);
        if let Some(rule) = classify_file_name(chars.as_slice()) {
            findings.push(make_finding(&display, 0, rule));
        }
    }
    assert(findings_view(findings@) =~= name_findings(
        display@,
        match file_name {
            Some(n) => Some(n@),
            None => None,
        },
    ));
    push_content_findings(&display, bytes, &mut findings);
    findings
}

/// The exit status of a scan that ran: 0 when nothing was found, 1 when
/// something was.
pub fn exit_code(findings: &[Finding]) -> (code: i32)
    ensures
        code == if findings@.len() == 0 {
            0i32
        } else {
            1i32
        },
{
    if findings.len() == 0 {
        0
    } else {
        1
    }
}

// ---------------------------------------------------------------------------
// Laws of a scan
// ---------------------------------------------------------------------------

/// `f` reports one of the fixed rules, with its fixed identifier and
/// message, for the file shown as `path`; line 0 exactly for the rules about
/// file names.
pub open spec fn is_report(f: FindingView, path: Seq<char>) -> bool {
    exists|r: Rule| f == finding_of(path, f.line, r) && (f.line == 0 <==> r.is_file_rule())
}

proof fn lemma_lines_reports(path: Seq<char>, lines: Seq<Seq<char>>, first: nat)
    requires
        first >= 1,
    ensures
        forall|i: int|
            0 <= i < findings_of_lines(path, lines, first).len() ==> {
                let f = #[trigger] findings_of_lines(path, lines, first)[i];
                &&& first <= f.line < first + lines.len()
                &&& is_report(f, path)
            },
        forall|i: int, j: int|
            0 <= i < j < findings_of_lines(path, lines, first).len() ==> (#[trigger] findings_of_lines(
                path,
                lines,
                first,
            )[i]).line <= (#[trigger] findings_of_lines(path, lines, first)[j]).line,
    decreases lines.len(),
{
    if lines.len() > 0 {
        let here = line_findings(path, first, lines[0]);
        let rest = findings_of_lines(path, lines.drop_first(), first + 1);
        let all = findings_of_lines(path, lines, first);
        lemma_lines_reports(path, lines.drop_first(), first + 1);
        crate::rules::law_line_rules_are_content_rules(lines[0]);
        assert(all == here + rest);
        assert forall|i: int| 0 <= i < here.len() implies #[trigger] here[i].line == first
            && is_report(here[i], path) by {
            let r = line_rules(lines[0])[i];
            assert(here[i] == finding_of(path, first, r));
            assert(!r.is_file_rule());
        }
        assert forall|i: int| 0 <= i < all.len() implies {
            let f = #[trigger] all[i];
            &&& first <= f.line < first + lines.len()
            &&& is_report(f, path)
        } by {
            if i < here.len() {
                assert(all[i] == here[i]);
            } else {
                assert(all[i] == rest[i - here.len()]);
            }
        }
        assert forall|i: int, j: int| 0 <= i < j < all.len() implies (#[trigger] all[i]).line <= (
        #[trigger] all[j]).line by {
            if j < here.len() {
                assert(all[i] == here[i]);
                assert(all[j] == here[j]);
            } else if i < here.len() {
                assert(all[i] == here[i]);
                assert(all[j] == rest[j - here.len()]);
            } else {
                assert(all[i] == rest[i - here.len()]);
                assert(all[j] == rest[j - here.len()]);
            }
        }
    }
}

/// What a scan reports holds no part of the file's contents: each finding is
/// the display path, a line number and one rule's fixed identifier and
/// message. Findings come in line order; line 0 (the file name) comes first
/// and only for the file-name rules; a content finding's line is one of the
/// text's lines.
pub proof fn law_findings_are_fixed_reports_in_line_order(
    path: Seq<char>,
    name: Option<Seq<char>>,
    bytes: Seq<u8>,
)
    ensures
        forall|i: int|
            0 <= i < scan_result(path, name, bytes).len() ==> is_report(
                #[trigger] scan_result(path, name, bytes)[i],
                path,
            ),
        forall|i: int, j: int|
            0 <= i < j < scan_result(path, name, bytes).len() ==> (#[trigger] scan_result(
                path,
                name,
                bytes,
            )[i]).line <= (#[trigger] scan_result(path, name, bytes)[j]).line,
        forall|i: int|
            0 <= i < scan_result(path, name, bytes).len() && (#[trigger] scan_result(
                path,
                name,
                bytes,
            )[i]).line > 0 ==> (decoded_text(bytes) matches Some(text) && scan_result(
                path,
                name,
                bytes,
            )[i].line <= text_lines(text).len()),
{
    let head = name_findings(path, name);
    let tail = match decoded_text(bytes) {
        Some(text) => content_findings(path, text),
        None => seq![],
    };
    let all = scan_result(path, name, bytes);
    assert(all == head + tail);
    if let Some(text) = decoded_text(bytes) {
        lemma_lines_reports(path, text_lines(text), 1);
    }
    assert forall|i: int| 0 <= i < head.len() implies (#[trigger] head[i]).line == 0 && is_report(
        head[i],
        path,
    ) by {
        let r = file_name_rule(name->0).unwrap();
        assert(head[i] == finding_of(path, 0, r));
        assert(r.is_file_rule());
    }
    assert forall|i: int| 0 <= i < all.len() implies is_report(#[trigger] all[i], path) by {
        if i < head.len() {
            assert(all[i] == head[i]);
        } else {
            assert(all[i] == tail[i - head.len()]);
        }
    }
    assert forall|i: int, j: int| 0 <= i < j < all.len() implies (#[trigger] all[i]).line <= (
    #[trigger] all[j]).line by {
        if i < head.len() {
            assert(all[i] == head[i]);
        } else {
            assert(all[i] == tail[i - head.len()]);
            assert(all[j] == tail[j - head.len()]);
        }
    }
    assert forall|i: int|
        0 <= i < all.len() && (#[trigger] all[i]).line > 0 implies (decoded_text(bytes) matches Some(
        text) && all[i].line <= text_lines(text).len()) by {
        if i < head.len() {
            assert(all[i] == head[i]);
        } else {
            assert(all[i] == tail[i - head.len()]);
        }
    }
}

/// `f` reports, for the line it names among `lines` (numbered from
/// `first`), one of the rules that this line triggers.
pub open spec fn is_triggered(f: FindingView, path: Seq<char>, lines: Seq<Seq<char>>, first: nat) -> bool {
    &&& first <= f.line < first + lines.len()
    &&& exists|r: Rule|
        #![trigger line_rules(lines[f.line - first]).contains(r)]
        line_rules(lines[f.line - first]).contains(r) && f == finding_of(path, f.line, r)
}

proof fn lemma_lines_triggered(path: Seq<char>, lines: Seq<Seq<char>>, first: nat)
    ensures
        forall|i: int|
            0 <= i < findings_of_lines(path, lines, first).len() ==> is_triggered(
                #[trigger] findings_of_lines(path, lines, first)[i],
                path,
                lines,
                first,
            ),
    decreases lines.len(),
{
    if lines.len() > 0 {
        let here = line_findings(path, first, lines[0]);
        let rest = findings_of_lines(path, lines.drop_first(), first + 1);
        let all = findings_of_lines(path, lines, first);
        lemma_lines_triggered(path, lines.drop_first(), first + 1);
        assert(all == here + rest);
        assert forall|i: int| 0 <= i < all.len() implies is_triggered(
            #[trigger] all[i],
            path,
            lines,
            first,
        ) by {
            if i < here.len() {
                let r = line_rules(lines[0])[i];
                assert(all[i] == finding_of(path, first, r));
                assert(line_rules(lines[0]).contains(r));
                assert(line_rules(lines[all[i].line - first]).contains(r));
            } else {
                let f = rest[i - here.len()];
                assert(all[i] == f);
                assert(is_triggered(f, path, lines.drop_first(), first + 1));
                assert(lines.drop_first()[f.line - (first + 1)] == lines[f.line - first]);
                let r = choose|r: Rule|
                    #![trigger line_rules(lines.drop_first()[f.line - (first + 1)]).contains(r)]
                    line_rules(lines.drop_first()[f.line - (first + 1)]).contains(r) && f
                        == finding_of(path, f.line, r);
                assert(line_rules(lines[all[i].line - first]).contains(r));
            }
        }
    }
}

/// Every finding of the contents reports a rule that its line triggers: a
/// scan reports nothing that the rules of a line do not call for.
pub proof fn law_content_findings_are_triggered(path: Seq<char>, name: Option<Seq<char>>, bytes: Seq<u8>)
    ensures
        forall|i: int|
            0 <= i < scan_result(path, name, bytes).len() && (#[trigger] scan_result(
                path,
                name,
                bytes,
            )[i]).line > 0 ==> is_triggered(
                scan_result(path, name, bytes)[i],
                path,
                text_lines(decoded_text(bytes)->0),
                1,
            ),
{
    let head = name_findings(path, name);
    let all = scan_result(path, name, bytes);
    if let Some(text) = decoded_text(bytes) {
        let tail = content_findings(path, text);
        lemma_lines_triggered(path, text_lines(text), 1);
        assert(all == head + tail);
        assert forall|i: int| 0 <= i < all.len() && (#[trigger] all[i]).line > 0 implies is_triggered(
            all[i],
            path,
            text_lines(text),
            1,
        ) by {
            if i < head.len() {
                assert(all[i] == head[i]);
            } else {
                assert(all[i] == tail[i - head.len()]);
            }
        }
    } else {
        assert(all =~= head);
    }
}

/// Bytes that are neither UTF-8 nor UTF-16 text get only the file-name
/// finding, if any.
pub proof fn law_undecodable_bytes_report_only_the_name(
    path: Seq<char>,
    name: Option<Seq<char>>,
    bytes: Seq<u8>,
)
    requires
        decoded_text(bytes) is None,
    ensures
        scan_result(path, name, bytes) == name_findings(path, name),
{
    assert(scan_result(path, name, bytes) =~= name_findings(path, name));
}

proof fn lemma_encode_utf8_no_zero(s: Seq<char>)
    requires
        forall|k: int| 0 <= k < s.len() ==> s[k] != '\0',
    ensures
        forall|i: int| 0 <= i < encode_utf8(s).len() ==> encode_utf8(s)[i] != 0,
    decreases s.len(),
{
    if s.len() > 0 {
        let rest = s.drop_first();
        lemma_encode_utf8_no_zero(rest);
        let v = s[0] as u32;
        vstd::utf8::char_is_scalar(s[0]);
        let head = vstd::utf8::encode_scalar(v);
        assert(s[0] != '\0');
        if v == 0 {
            vstd::utf8::char_u32_cast(s[0], v);
            vstd::utf8::char_u32_cast('\0', 0u32);
        }
        assert(v != 0);
        assert forall|i: int| 0 <= i < head.len() implies head[i] != 0 by {
            lemma_scalar_bytes_nonzero(v);
        }
        assert forall|i: int| 0 <= i < encode_utf8(s).len() implies encode_utf8(s)[i] != 0 by {
            if i < head.len() {
                assert(encode_utf8(s)[i] == head[i]);
            } else {
                assert(encode_utf8(s)[i] == encode_utf8(rest)[i - head.len()]);
            }
        }
    }
}

proof fn lemma_scalar_bytes_nonzero(v: u32)
    requires
        vstd::utf8::is_scalar(v),
        v != 0,
    ensures
        forall|i: int| 0 <= i < vstd::utf8::encode_scalar(v).len() ==> vstd::utf8::encode_scalar(v)[i] != 0,
{
    let b1 = vstd::utf8::leading_byte_width_1(v);
    let b2 = vstd::utf8::leading_byte_width_2(v);
    let b3 = vstd::utf8::leading_byte_width_3(v);
    let b4 = vstd::utf8::leading_byte_width_4(v);
    let c1 = vstd::utf8::last_continuation_byte(v);
    let c2 = vstd::utf8::second_last_continuation_byte(v);
    let c3 = vstd::utf8::third_last_continuation_byte(v);
    assert(0 < v <= 0x7f ==> b1 != 0) by (bit_vector)
        requires
            b1 == (v & 0x7f) as u8,
    ;
    assert(b2 != 0) by (bit_vector)
        requires
            b2 == 0xc0 | (((v >> 6) & 0x1f) as u8),
    ;
    assert(b3 != 0) by (bit_vector)
        requires
            b3 == 0xe0 | (((v >> 12) & 0x0f) as u8),
    ;
    assert(b4 != 0) by (bit_vector)
        requires
            b4 == 0xf0 | (((v >> 18) & 0x07) as u8),
    ;
    assert(c1 != 0) by (bit_vector)
        requires
            c1 == 0x80 | ((v & 0x3f) as u8),
    ;
    assert(c2 != 0) by (bit_vector)
        requires
            c2 == 0x80 | (((v >> 6) & 0x3f) as u8),
    ;
    assert(c3 != 0) by (bit_vector)
        requires
            c3 == 0x80 | (((v >> 12) & 0x3f) as u8),
    ;
}

/// Scanning a text gives the same findings whether the file holds it in
/// UTF-8 or in UTF-16 with a byte-order mark, whenever its UTF-8 bytes do
/// not themselves read as UTF-16 (by a byte pattern of zero bytes).
pub proof fn law_same_text_same_findings_in_utf8_and_utf16(
    path: Seq<char>,
    name: Option<Seq<char>>,
    text: Seq<char>,
    e: crate::decode::Utf16Endianness,
)
    requires
        decoded_utf16(encode_utf8(text)) is None,
    ensures
        scan_result(path, name, encode_utf8(text)) == scan_result(path, name, utf16_with_bom(text, e)),
        scan_result(path, name, encode_utf8(text)) == name_findings(path, name) + content_findings(
            path,
            text,
        ),
{
    assert(decoded_text(encode_utf8(text)) == Some(text)) by {
        vstd::utf8::encode_utf8_valid_utf8(text);
        vstd::utf8::encode_utf8_decode_utf8(text);
    }
    if text.len() > 0 {
        crate::decode::law_utf16_with_bom_reads_back(text, e);
    } else {
        crate::decode::law_bare_byte_order_mark_is_not_text(e);
        assert(utf16_with_bom(text, e) =~= crate::decode::byte_order_mark(e));
        assert(content_findings(path, text) =~= Seq::<FindingView>::empty());
        assert(scan_result(path, name, utf16_with_bom(text, e)) =~= name_findings(path, name));
        assert(scan_result(path, name, encode_utf8(text)) =~= name_findings(path, name));
    }
}

/// A text without a NUL character has UTF-8 bytes without zero bytes, which
/// never read as UTF-16; so it scans the same in UTF-8 and in UTF-16 with a
/// byte-order mark.
pub proof fn law_text_without_nul_scans_the_same_in_utf8_and_utf16(
    path: Seq<char>,
    name: Option<Seq<char>>,
    text: Seq<char>,
    e: crate::decode::Utf16Endianness,
)
    requires
        forall|k: int| 0 <= k < text.len() ==> text[k] != '\0',
    ensures
        decoded_utf16(encode_utf8(text)) is None,
        scan_result(path, name, encode_utf8(text)) == scan_result(path, name, utf16_with_bom(text, e)),
{
    vstd::utf8::encode_utf8_valid_utf8(text);
    lemma_encode_utf8_no_zero(text);
    crate::decode::law_utf8_without_zero_bytes_reads_as_utf8(encode_utf8(text));
    law_same_text_same_findings_in_utf8_and_utf16(path, name, text, e);
}

proof fn lemma_findings_of_lines_contains(
    path: Seq<char>,
    lines: Seq<Seq<char>>,
    first: nat,
    n: int,
    r: Rule,
)
    requires
        0 <= n < lines.len(),
        line_rules(lines[n]).contains(r),
    ensures
        findings_of_lines(path, lines, first).contains(finding_of(path, (first + n) as nat, r)),
    decreases lines.len(),
{
    let here = line_findings(path, first, lines[0]);
    let rest = findings_of_lines(path, lines.drop_first(), first + 1);
    assert(findings_of_lines(path, lines, first) == here + rest);
    if n == 0 {
        let k = choose|k: int| 0 <= k < line_rules(lines[0]).len() && line_rules(lines[0])[k] == r;
        assert(here[k] == finding_of(path, first, r));
        assert((here + rest)[k] == here[k]);
    } else {
        assert(lines.drop_first()[n - 1] == lines[n]);
        lemma_findings_of_lines_contains(path, lines.drop_first(), first + 1, n - 1, r);
        let k = choose|k: int| 0 <= k < rest.len() && rest[k] == finding_of(
            path,
            (first + 1 + (n - 1)) as nat,
            r,
        );
        assert((here + rest)[here.len() + k] == rest[k]);
    }
}

/// Whatever rule a line of the text triggers is reported, with that line's
/// number (counted from 1).
pub proof fn law_line_rules_are_reported(
    path: Seq<char>,
    name: Option<Seq<char>>,
    bytes: Seq<u8>,
    n: int,
    r: Rule,
)
    requires
        decoded_text(bytes) is Some,
        0 <= n < text_lines(decoded_text(bytes)->0).len(),
        line_rules(text_lines(decoded_text(bytes)->0)[n]).contains(r),
    ensures
        scan_result(path, name, bytes).contains(finding_of(path, (n + 1) as nat, r)),
{
    let text = decoded_text(bytes)->0;
    let head = name_findings(path, name);
    let tail = content_findings(path, text);
    lemma_findings_of_lines_contains(path, text_lines(text), 1, n, r);
    let k = choose|k: int| 0 <= k < tail.len() && tail[k] == finding_of(path, (1 + n) as nat, r);
    assert(scan_result(path, name, bytes) == head + tail);
    assert((head + tail)[head.len() + k] == tail[k]);
}

/// A sensitive file name is always reported, on line 0, whatever the
/// contents.
pub proof fn law_file_name_rule_is_reported(
    path: Seq<char>,
    name: Seq<char>,
    bytes: Seq<u8>,
)
    requires
        file_name_rule(name) is Some,
    ensures
        scan_result(path, Some(name), bytes)[0] == finding_of(path, 0, file_name_rule(name)->0),
{
}

/// A text with Windows line endings gets the same findings as with Unix
/// ones, where no line of it already ends in `\r`.
pub proof fn law_crlf_gives_the_same_findings(path: Seq<char>, text: Seq<char>)
    requires
        no_crlf(text),
    ensures
        content_findings(path, with_crlf(text)) == content_findings(path, text),
{
    law_crlf_gives_the_same_lines(text);
}

/// A final line ending changes no finding, where the text is not empty and
/// ends neither in `\n` nor in `\r`.
pub proof fn law_final_newline_gives_the_same_findings(path: Seq<char>, text: Seq<char>)
    requires
        text.len() > 0,
        text.last() != '\n',
        text.last() != '\r',
    ensures
        content_findings(path, text.push('\n')) == content_findings(path, text),
{
    law_final_newline_gives_the_same_lines(text);
}

} // verus!
