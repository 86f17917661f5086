//! The text line that reports one finding.
use vstd::prelude::*;
use crate::rules::Rule;
use crate::scan::{finding_of, is_report, scan_result, Finding, FindingView};
use crate::scan::law_findings_are_fixed_reports_in_line_order;
use crate::text::chars_of;

verus! {

/// The decimal digit for `d` (below 10).
pub open spec fn decimal_digit(d: nat) -> char {
    ((48 + d) as u8) as char
}

/// The decimal numeral of `n`, without leading zeros.
pub open spec fn decimal(n: nat) -> Seq<char>
    decreases n,
{
    if n < 10 {
        seq![decimal_digit(n)]
    } else {
        decimal(n / 10).push(decimal_digit(n % 10))
    }
}

/// The report line of a finding: two spaces, the path, `:` and the line
/// number unless the finding is about the file name (line 0), then the rule
/// identifier in brackets and the rule's message.
pub open spec fn report_text(f: FindingView) -> Seq<char> {
    "  "@ + f.path + (if f.line == 0 {
        Seq::<char>::empty()
    } else {
        seq![':'] + decimal(f.line)
    }) + " ["@ + f.rule + "] "@ + f.message
}

fn push_decimal(n: usize, out: &mut Vec<char>)
    ensures
        final(out)@ == old(out)@ + decimal(n as nat),
    decreases n,
{
    if n >= 10 {
        push_decimal(n / 10, out);
    }
    let d: u8 = (n % 10) as u8;
    let b: u8 = 48 + d;
    out.push(b as char);
}

/// The characters of the report line of `finding`.
pub fn report_line(finding: &Finding) -> (line: Vec<char>)
    ensures
        line@ == report_text(finding@),
{
    let mut out = chars_of("  ");
    let mut path = chars_of(finding.path.as_str());
    out.append(&mut path);
    if finding.line != 0 {
        out.push(':');
        push_decimal(finding.line, &mut out);
    }
    let mut open = chars_of(" [");
    out.append(&mut open);
    let mut rule = chars_of(finding.rule);
    out.append(&mut rule);
    let mut close = chars_of("] ");
    out.append(&mut close);
    let mut message = chars_of(finding.message);
    out.append(&mut message);
    out
}

/// A report line of a scan holds nothing of the file's contents: only the
/// display path, the line number and one rule's fixed identifier and
/// message.
pub proof fn law_report_lines_hold_no_file_content(
    path: Seq<char>,
    name: Option<Seq<char>>,
    bytes: Seq<u8>,
    i: int,
)
    requires
        0 <= i < scan_result(path, name, bytes).len(),
    ensures
        exists|r: Rule|
            report_text(scan_result(path, name, bytes)[i]) == report_text(
                #[trigger] finding_of(path, scan_result(path, name, bytes)[i].line, r),
            ),
{
    law_findings_are_fixed_reports_in_line_order(path, name, bytes);
    let f = scan_result(path, name, bytes)[i];
    assert(is_report(f, path));
    let r = choose|r: Rule| f == finding_of(path, f.line, r) && (f.line == 0 <==> r.is_file_rule());
    assert(report_text(f) == report_text(finding_of(path, f.line, r)));
}

} // verus!
