# envguard

Catches likely secrets and sensitive files before they reach Git: sensitive
file names (`.env` files, SSH private keys, PKCS#12 key stores), private-key
blocks, provider token prefixes, AWS access key IDs, and real-looking values
assigned to sensitive-looking variables, in UTF-8 or UTF-16 text.

The library in `src/` is written in Verus. Each rule is stated as a spec
function over the characters (or, for access key IDs, the UTF-8 bytes) of a
line, and the executable code is proved to compute it; the laws of the scan
(fixed reports only, line order, UTF-8 and UTF-16 with a byte-order mark
giving the same findings whenever the UTF-8 bytes do not themselves read as
UTF-16 (as they never do without a NUL character), line endings not
mattering, a leading `export ` not changing an assignment's verdict, file
names matching whatever their ASCII case, UTF-16 reading the same in either
byte order, tokens staying found in longer lines, symbolic links never being
followed, report lines holding nothing of a file's contents, every matching
rule being reported) are proof functions beside the code they speak of.

- `text.rs`: character classes, searching, trimming, `str::lines`.
- `token.rs`, `access_key.rs`, `assignment.rs`: the content rules.
- `rules.rs`: the rule identifiers, file-name rules, and the rules of a line.
- `decode.rs`: reading bytes as UTF-8 or UTF-16 text.
- `path.rs`: the calls into `std::path::Path`, behind trusted wrappers.
- `scan.rs`: scanning one file into findings, and the exit status they give.
- `report.rs`: the text line that reports a finding.
- `walk.rs`: what a file-system walk does with each entry (links are never
  followed; skipped directory names are not entered).
- `order.rs`: the report order of findings (a stable sort).
- `cli.rs`: the command line's arguments, skipped directories, and Git's
  list of staged paths.

`app/main.rs` is the `envguard` command: file-system walk, Git calls, output.
