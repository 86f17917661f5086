//! The decisions of the command-line tool that do not touch the file system:
//! reading the arguments, which directories a walk skips, and how Git's list
//! of staged paths is read.
use std::path::Path;
use vstd::prelude::*;
use crate::path::{file_name, path_file_name, path_text, to_text};
use vstd::slice::slice_subrange;
use vstd::utf8::{decode_utf8, valid_utf8};
use crate::decode::str_from_utf8;
use crate::text::{
    chars_of, equals_chars, first_index_of, lemma_first_index_is, lemma_first_index_none,
    lemma_first_index_of,
};

verus! {

/// What a scan run is asked to do: scan the staged files, or the tree at
/// `path`.
pub struct Config {
    pub staged: bool,
    pub path: String,
}

/// What the arguments ask for.
pub enum ParseOutcome {
    Run(Config),
    Help,
    Version,
}

/// What the arguments ask for, as values.
pub enum OutcomeView {
    Run { staged: bool, path: Seq<char> },
    Help,
    Version,
}

impl View for ParseOutcome {
    type V = OutcomeView;

    open spec fn view(&self) -> OutcomeView {
        match self {
            ParseOutcome::Run(c) => OutcomeView::Run { staged: c.staged, path: c.path@ },
            ParseOutcome::Help => OutcomeView::Help,
            ParseOutcome::Version => OutcomeView::Version,
        }
    }
}

pub open spec fn is_help_flag(a: Seq<char>) -> bool {
    a == "-h"@ || a == "--help"@
}

pub open spec fn is_version_flag(a: Seq<char>) -> bool {
    a == "-V"@ || a == "--version"@
}

pub open spec fn staged_with_path_message() -> Seq<char> {
    "--staged scans the current Git repository and does not accept a path"@
}

pub open spec fn second_path_message() -> Seq<char> {
    "only one scan path may be provided"@
}

pub open spec fn unknown_option_message(a: Seq<char>) -> Seq<char> {
    "unknown option: "@ + a
}

/// Reading the arguments from position `i` on, with `--staged` seen so far
/// or not and the path seen so far, if any: help and version answer at
/// once; any other argument starting with `-` but `--staged` is an error, as
/// is a second path; at the end, `--staged` with a path is an error, and the
/// path defaults to `.`.
pub open spec fn outcome_from(
    args: Seq<Seq<char>>,
    i: int,
    staged: bool,
    path: Option<Seq<char>>,
) -> Result<OutcomeView, Seq<char>>
    decreases args.len() - i,
{
    if i < 0 || i >= args.len() {
        if staged && path is Some {
            Err(staged_with_path_message())
        } else {
            Ok(
                OutcomeView::Run {
                    staged: staged,
                    path: match path {
                        Some(p) => p,
                        None => "."@,
                    },
                },
            )
        }
    } else {
        let a = args[i];
        if is_help_flag(a) {
            Ok(OutcomeView::Help)
        } else if is_version_flag(a) {
            Ok(OutcomeView::Version)
        } else if a == "--staged"@ {
            outcome_from(args, i + 1, true, path)
        } else if a.len() > 0 && a[0] == '-' {
            Err(unknown_option_message(a))
        } else if path is Some {
            Err(second_path_message())
        } else {
            outcome_from(args, i + 1, staged, Some(a))
        }
    }
}

/// What the whole argument list asks for.
pub open spec fn parse_outcome(args: Seq<Seq<char>>) -> Result<OutcomeView, Seq<char>> {
    outcome_from(args, 0, false, None)
}

pub open spec fn args_view(args: Seq<String>) -> Seq<Seq<char>> {
    args.map_values(|a: String| a@)
}

pub open spec fn text_view(t: Option<String>) -> Option<Seq<char>> {
    match t {
        Some(s) => Some(s@),
        None => None,
    }
}

/// Reads the command-line arguments (without the program name).
pub fn parse_args(args: Vec<String>) -> (r: Result<ParseOutcome, String>)
    ensures
        match r {
            Ok(o) => parse_outcome(args_view(args@)) == Ok::<OutcomeView, Seq<char>>(o@),
            Err(e) => parse_outcome(args_view(args@)) == Err::<OutcomeView, Seq<char>>(e@),
        },
{
    let ghost av = args_view(args@);
    let mut staged = false;
    let mut path: Option<String> = None;
    let n = args.len();
    let mut i: usize = 0;
    while i < n
        invariant
            0 <= i <= n,
            n == args@.len(),
            av == args_view(args@),
            parse_outcome(av) == outcome_from(av, i as int, staged, text_view(path)),
        decreases n - i,
    {
        let a = args[i].as_str();
        let cs = chars_of(a);
        assert(cs@ == av[i as int]);
        if equals_chars(&cs, &chars_of("-h")) || equals_chars(&cs, &chars_of("--help")) {
            return Ok(ParseOutcome::Help);
        }
        if equals_chars(&cs, &chars_of("-V")) || equals_chars(&cs, &chars_of("--version")) {
            return Ok(ParseOutcome::Version);
        }
        if equals_chars(&cs, &chars_of("--staged")) {
            staged = true;
        } else if cs.len() > 0 && cs[0] == '-' {
            let mut e = String::from_str("unknown option: ");
            e.append(a);
            return Err(e);
        } else if path.is_some() {
            return Err(String::from_str("only one scan path may be provided"));
        } else {
            path = Some(args[i].clone());
        }
        i = i + 1;
    }
    if staged && path.is_some() {
        return Err(
            String::from_str("--staged scans the current Git repository and does not accept a path"),
        );
    }
    let p = match path {
        Some(p) => p,
        None => String::from_str("."),
    };
    Ok(ParseOutcome::Run(Config { staged: staged, path: p }))
}

proof fn lemma_staged_outcome(args: Seq<Seq<char>>, i: int, staged: bool, path: Option<Seq<char>>)
    requires
        0 <= i,
    ensures
        outcome_from(args, i, staged, path) matches Ok(OutcomeView::Run { staged: s, path: p })
            ==> (s ==> p == "."@),
    decreases args.len() - i,
{
    if i < args.len() {
        let a = args[i];
        lemma_staged_outcome(args, i + 1, true, path);
        lemma_staged_outcome(args, i + 1, staged, Some(a));
    }
}

/// A run over the staged files never carries a path of its own: `--staged`
/// with a path is refused, so its path is always the default `.`.
pub proof fn law_staged_run_takes_no_path(args: Seq<Seq<char>>)
    ensures
        parse_outcome(args) matches Ok(OutcomeView::Run { staged: s, path: p }) ==> (s ==> p == "."@),
{
    lemma_staged_outcome(args, 0, false, None);
}

/// The first help or version flag answers, unless an argument before it is
/// refused.
pub proof fn law_leading_help_or_version_answers(args: Seq<Seq<char>>)
    requires
        args.len() > 0,
    ensures
        is_help_flag(args[0]) ==> parse_outcome(args) == Ok::<OutcomeView, Seq<char>>(OutcomeView::Help),
        is_version_flag(args[0]) && !is_help_flag(args[0]) ==> parse_outcome(args) == Ok::<
            OutcomeView,
            Seq<char>,
        >(OutcomeView::Version),
{
}

/// The plain argument forms: no argument scans `.`; one path scans it;
/// `--staged` alone scans the staged files; `--staged` together with a path,
/// in either order, is refused; two paths are refused.
pub proof fn law_argument_forms(p: Seq<char>, q: Seq<char>)
    requires
        !(p.len() > 0 && p[0] == '-'),
        !(q.len() > 0 && q[0] == '-'),
    ensures
        parse_outcome(seq![]) == Ok::<OutcomeView, Seq<char>>(
            OutcomeView::Run { staged: false, path: "."@ },
        ),
        parse_outcome(seq![p]) == Ok::<OutcomeView, Seq<char>>(
            OutcomeView::Run { staged: false, path: p },
        ),
        parse_outcome(seq!["--staged"@]) == Ok::<OutcomeView, Seq<char>>(
            OutcomeView::Run { staged: true, path: "."@ },
        ),
        parse_outcome(seq!["--staged"@, p]) == Err::<OutcomeView, Seq<char>>(
            "--staged scans the current Git repository and does not accept a path"@,
        ),
        parse_outcome(seq![p, "--staged"@]) == Err::<OutcomeView, Seq<char>>(
            "--staged scans the current Git repository and does not accept a path"@,
        ),
        parse_outcome(seq![p, q]) == Err::<OutcomeView, Seq<char>>(
            "only one scan path may be provided"@,
        ),
{
    reveal_strlit("--staged");
    reveal_strlit("-h");
    reveal_strlit("--help");
    reveal_strlit("-V");
    reveal_strlit("--version");
    assert(!is_help_flag(p) && !is_version_flag(p) && p != "--staged"@) by {
        if p.len() > 0 {
            assert(p[0] != '-');
        }
    }
    assert(!is_help_flag(q) && !is_version_flag(q) && q != "--staged"@) by {
        if q.len() > 0 {
            assert(q[0] != '-');
        }
    }
    assert(!is_help_flag("--staged"@) && !is_version_flag("--staged"@));
    let a1 = seq![p];
    assert(outcome_from(a1, 1, false, Some(p)) is Ok);
    let a2 = seq!["--staged"@];
    assert(outcome_from(a2, 1, true, None::<Seq<char>>) is Ok);
    let a3 = seq!["--staged"@, p];
    assert(a3[0] == "--staged"@ && a3[1] == p);
    assert(outcome_from(a3, 1, true, None::<Seq<char>>) == outcome_from(a3, 2, true, Some(p)));
    let a4 = seq![p, "--staged"@];
    assert(a4[0] == p && a4[1] == "--staged"@);
    assert(outcome_from(a4, 1, false, Some(p)) == outcome_from(a4, 2, true, Some(p)));
    let a5 = seq![p, q];
    assert(a5[0] == p && a5[1] == q);
    assert(outcome_from(a5, 0, false, None::<Seq<char>>) == outcome_from(a5, 1, false, Some(p)));
    assert(outcome_from(a5, 1, false, Some(p)) == Err::<OutcomeView, Seq<char>>(second_path_message()));
}

/// The directory names a tree walk does not enter.
pub open spec fn is_skipped_directory_name(name: Seq<char>) -> bool {
    ||| name == ".git"@
    ||| name == "target"@
    ||| name == "node_modules"@
    ||| name == ".venv"@
    ||| name == "venv"@
    ||| name == "dist"@
    ||| name == "build"@
}

/// A directory is skipped exactly when its name is one of `.git`, `target`,
/// `node_modules`, `.venv`, `venv`, `dist`, `build`, compared whole (so
/// `.github` or `targets` is walked).
pub proof fn law_skipped_directory_names_are_exact(name: Seq<char>)
    ensures
        is_skipped_directory_name(name) <==> (name == ".git"@ || name == "target"@ || name
            == "node_modules"@ || name == ".venv"@ || name == "venv"@ || name == "dist"@ || name
            == "build"@),
{
}

/// The file name of `path`, as text when it is valid Unicode, is one of the
/// skipped directory names.
pub open spec fn skips_directory(path: &Path) -> bool {
    match path_file_name(path) {
        Some(n) => match path_text(n) {
            Some(t) => is_skipped_directory_name(t),
            None => false,
        },
        None => false,
    }
}

/// Whether a tree walk leaves out the directory at `path`.
pub fn should_skip_directory(path: &Path) -> (b: bool)
    ensures
        b == skips_directory(path),
{
    let name = match file_name(path) {
        Some(n) => n,
        None => {
            return false;
        },
    };
    let text = match to_text(name) {
        Some(t) => t,
        None => {
            return false;
        },
    };
    is_skipped_directory(text)
}

/// Whether a directory named `name` is left out of a tree walk.
pub fn is_skipped_directory(name: &str) -> (b: bool)
    ensures
        b == is_skipped_directory_name(name@),
{
    let cs = chars_of(name);
    equals_chars(&cs, &chars_of(".git")) || equals_chars(&cs, &chars_of("target")) || equals_chars(
        &cs,
        &chars_of("node_modules"),
    ) || equals_chars(&cs, &chars_of(".venv")) || equals_chars(&cs, &chars_of("venv"))
        || equals_chars(&cs, &chars_of("dist")) || equals_chars(&cs, &chars_of("build"))
}

/// The pieces of `b` between zero bytes, without the empty ones: the entries
/// of a NUL-separated list such as `git diff --name-only -z` prints.
pub open spec fn nul_separated(b: Seq<u8>) -> Seq<Seq<u8>>
    decreases b.len(),
{
    if b.len() == 0 {
        seq![]
    } else {
        match first_index_of(b, 0u8) {
            None => seq![b],
            Some(i) => {
                proof {
                    lemma_first_index_of(b, 0u8);
                }
                (if i == 0 {
                    seq![]
                } else {
                    seq![b.subrange(0, i)]
                }) + nul_separated(b.subrange(i + 1, b.len() as int))
            },
        }
    }
}

/// An entry as text, or `None` when it is not valid UTF-8.
pub open spec fn entry_text(raw: Seq<u8>) -> Option<Seq<char>> {
    if valid_utf8(raw) {
        Some(decode_utf8(raw))
    } else {
        None
    }
}

pub open spec fn entry_texts(raws: Seq<Seq<u8>>) -> Seq<Option<Seq<char>>> {
    raws.map_values(|raw: Seq<u8>| entry_text(raw))
}

pub open spec fn texts_view(v: Seq<Option<String>>) -> Seq<Option<Seq<char>>> {
    v.map_values(|t: Option<String>| text_view(t))
}

fn push_entry(raw: &[u8], entries: &mut Vec<Option<String>>)
    ensures
        texts_view(final(entries)@) == texts_view(old(entries)@).push(entry_text(raw@)),
{
    let entry = match str_from_utf8(raw) {
        Some(text) => Some(String::from_str(text)),
        None => None,
    };
    entries.push(entry);
    assert(texts_view(entries@) =~= texts_view(old(entries)@).push(entry_text(raw@)));
}

/// Reads the NUL-separated list of staged paths that Git prints: each
/// non-empty entry in order, as text, or `None` for one that is not UTF-8.
pub fn staged_paths(stdout: &[u8]) -> (entries: Vec<Option<String>>)
    ensures
        texts_view(entries@) == entry_texts(nul_separated(stdout@)),
{
    let ghost all = stdout@;
    let n = stdout.len();
    let mut entries: Vec<Option<String>> = Vec::new();
    let mut start: usize = 0;
    let mut j: usize = 0;
    assert(all.subrange(0, n as int) =~= all);
    while j < n
        invariant
            0 <= j <= n,
            start <= j,
            n == all.len(),
            all == stdout@,
            forall|k: int| start <= k < j ==> all[k] != 0u8,
            entry_texts(nul_separated(all)) == texts_view(entries@) + entry_texts(
                nul_separated(all.subrange(start as int, n as int)),
            ),
        decreases n - j,
    {
        if stdout[j] == 0 {
            let ghost before = entries@;
            let ghost rest = all.subrange(start as int, n as int);
            proof {
                lemma_first_index_is(rest, 0u8, j - start);
                assert(rest.subrange(0, j - start) =~= all.subrange(start as int, j as int));
                assert(rest.subrange(j - start + 1, rest.len() as int) =~= all.subrange(
                    j + 1,
                    n as int,
                ));
            }
            if j > start {
                push_entry(slice_subrange(stdout, start, j), &mut entries);
                proof {
                    let piece = all.subrange(start as int, j as int);
                    assert(nul_separated(rest) == seq![piece] + nul_separated(
                        all.subrange(j + 1, n as int),
                    ));
                    assert(entry_texts(seq![piece] + nul_separated(all.subrange(j + 1, n as int)))
                        =~= seq![entry_text(piece)] + entry_texts(
                        nul_separated(all.subrange(j + 1, n as int)),
                    ));
                    assert(texts_view(entries@) =~= texts_view(before) + seq![entry_text(piece)]);
                }
            } else {
                proof {
                    assert(nul_separated(rest) =~= nul_separated(all.subrange(j + 1, n as int)));
                }
            }
            start = j + 1;
        }
        j = j + 1;
    }
    if start < n {
        let ghost before = entries@;
        let ghost rest = all.subrange(start as int, n as int);
        proof {
            lemma_first_index_none(rest, 0u8);
            assert(nul_separated(rest) == seq![rest]);
            assert(entry_texts(seq![rest]) =~= seq![entry_text(rest)]);
        }
        push_entry(slice_subrange(stdout, start, n), &mut entries);
        assert(texts_view(entries@) =~= texts_view(before) + seq![entry_text(rest)]);
    } else {
        assert(all.subrange(start as int, n as int) =~= Seq::<u8>::empty());
        assert(texts_view(entries@) + Seq::<Option<Seq<char>>>::empty() =~= texts_view(entries@));
    }
    entries
}

} // verus!
