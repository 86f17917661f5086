//! The detection rules: what each one looks for in a file name or in a line of
//! text, stated as spec functions, and the executable checks proved to
//! compute them.
use vstd::prelude::*;
use vstd::utf8::encode_utf8;
use crate::access_key::{contains_aws_access_key, has_access_key};
use crate::assignment::{
    assignment_parts, is_masked, is_sensitive_assignment, looks_like_sensitive_assignment,
    names_placeholder,
};
use crate::text::{
    ascii_lower, ascii_upper, chars_of, contains, contains_chars, ends_with, ends_with_chars, equals_chars,
    is_ascii_lower, is_ascii_upper, lower_char, occurs_at, starts_with, starts_with_chars,
    to_ascii_lower, trim, upper_char,
};
use crate::token::{
    law_token_found_anywhere, lemma_table_prefixes_are_token_chars,
    lemma_token_rules_of_contains, lemma_token_rules_of_content, lemma_token_rules_of_lacks, run_len, token_patterns,
    token_rules, token_rules_of,
};

verus! {

pub const PRIVATE_KEY_BEGIN_MARKER: &'static str = "-----BEGIN ";

pub const PRIVATE_KEY_END_LABEL: &'static str = "PRIVATE KEY-----";

/// The rules a finding can report.
#[derive(Clone, Copy, Debug, PartialEq, Eq, Structural)]
pub enum Rule {
    EnvFile,
    SshPrivateKeyFile,
    KeyStoreFile,
    PrivateKeyBlock,
    GithubToken,
    SlackToken,
    ApiKeyPrefix,
    AwsAccessKey,
    SensitiveAssignment,
}

impl Rule {
    /// The rule identifier a finding carries.
    pub open spec fn id_text(self) -> Seq<char> {
        match self {
            Rule::EnvFile => "env-file"@,
            Rule::SshPrivateKeyFile => "ssh-private-key-file"@,
            Rule::KeyStoreFile => "key-store-file"@,
            Rule::PrivateKeyBlock => "private-key-block"@,
            Rule::GithubToken => "github-token"@,
            Rule::SlackToken => "slack-token"@,
            Rule::ApiKeyPrefix => "api-key-prefix"@,
            Rule::AwsAccessKey => "aws-access-key"@,
            Rule::SensitiveAssignment => "sensitive-assignment"@,
        }
    }

    /// The explanation a finding carries.
    pub open spec fn message_text(self) -> Seq<char> {
        match self {
            Rule::EnvFile => "environment file may contain credentials or other secrets"@,
            Rule::SshPrivateKeyFile => "filename matches a common SSH private key"@,
            Rule::KeyStoreFile => "PKCS#12 key-store file may contain private keys"@,
            Rule::PrivateKeyBlock => "private key material appears in file content"@,
            Rule::GithubToken => "GitHub token-like value detected"@,
            Rule::SlackToken => "Slack token-like value detected"@,
            Rule::ApiKeyPrefix => "API key-like value with an sk- prefix detected"@,
            Rule::AwsAccessKey => "AWS access key ID-like value detected"@,
            Rule::SensitiveAssignment => "non-placeholder value assigned to a sensitive-looking variable"@,
        }
    }

    pub fn id(&self) -> (s: &'static str)
        ensures
            s@ == self.id_text(),
    {
        match self {
            Rule::EnvFile => "env-file",
            Rule::SshPrivateKeyFile => "ssh-private-key-file",
            Rule::KeyStoreFile => "key-store-file",
            Rule::PrivateKeyBlock => "private-key-block",
            Rule::GithubToken => "github-token",
            Rule::SlackToken => "slack-token",
            Rule::ApiKeyPrefix => "api-key-prefix",
            Rule::AwsAccessKey => "aws-access-key",
            Rule::SensitiveAssignment => "sensitive-assignment",
        }
    }

    pub fn message(&self) -> (s: &'static str)
        ensures
            s@ == self.message_text(),
    {
        match self {
            Rule::EnvFile => "environment file may contain credentials or other secrets",
            Rule::SshPrivateKeyFile => "filename matches a common SSH private key",
            Rule::KeyStoreFile => "PKCS#12 key-store file may contain private keys",
            Rule::PrivateKeyBlock => "private key material appears in file content",
            Rule::GithubToken => "GitHub token-like value detected",
            Rule::SlackToken => "Slack token-like value detected",
            Rule::ApiKeyPrefix => "API key-like value with an sk- prefix detected",
            Rule::AwsAccessKey => "AWS access key ID-like value detected",
            Rule::SensitiveAssignment => "non-placeholder value assigned to a sensitive-looking variable",
        }
    }
}

impl Rule {
    /// The rules about a file's name rather than its contents.
    pub open spec fn is_file_rule(self) -> bool {
        self is EnvFile || self is SshPrivateKeyFile || self is KeyStoreFile
    }
}

// ---------------------------------------------------------------------------
// File names
// ---------------------------------------------------------------------------

/// The rule that a file name (as text, before lower-casing) triggers, if any.
pub open spec fn file_name_rule(name: Seq<char>) -> Option<Rule> {
    let lower = ascii_lower(name);
    if lower == ".env"@ || (starts_with(lower, ".env."@) && !ends_with(lower, ".example"@)
        && !ends_with(lower, ".sample"@) && !ends_with(lower, ".template"@)) {
        Some(Rule::EnvFile)
    } else if lower == "id_rsa"@ || lower == "id_dsa"@ || lower == "id_ecdsa"@ || lower
        == "id_ed25519"@ {
        Some(Rule::SshPrivateKeyFile)
    } else if ends_with(lower, ".p12"@) || ends_with(lower, ".pfx"@) {
        Some(Rule::KeyStoreFile)
    } else {
        None
    }
}

/// Classifies a file name by the sensitive-file rules.
pub fn classify_file_name(name: &[char]) -> (r: Option<Rule>)
    ensures
        r == file_name_rule(name@),
{
    let lower = to_ascii_lower(name);
    let l = lower.as_slice();
    if equals_chars(l, &chars_of(".env")) || (starts_with_chars(l, &chars_of(".env."))
        && !ends_with_chars(l, &chars_of(".example")) && !ends_with_chars(l, &chars_of(".sample"))
        && !ends_with_chars(l, &chars_of(".template"))) {
        Some(Rule::EnvFile)
    } else if equals_chars(l, &chars_of("id_rsa")) || equals_chars(l, &chars_of("id_dsa"))
        || equals_chars(l, &chars_of("id_ecdsa")) || equals_chars(l, &chars_of("id_ed25519")) {
        Some(Rule::SshPrivateKeyFile)
    } else if ends_with_chars(l, &chars_of(".p12")) || ends_with_chars(l, &chars_of(".pfx")) {
        Some(Rule::KeyStoreFile)
    } else {
        None
    }
}

// ---------------------------------------------------------------------------
// A whole line
// ---------------------------------------------------------------------------

pub open spec fn has_private_key_markers(line: Seq<char>) -> bool {
    contains(line, PRIVATE_KEY_BEGIN_MARKER@) && contains(line, PRIVATE_KEY_END_LABEL@)
}

/// The specific rules a line triggers, in report order: the private-key
/// block, the token prefixes in table order, the AWS access key.
pub open spec fn specific_rules(line: Seq<char>) -> Seq<Rule> {
    (if has_private_key_markers(line) {
        seq![Rule::PrivateKeyBlock]
    } else {
        seq![]
    }) + token_rules_of(line, token_patterns()) + (if has_access_key(line) {
        seq![Rule::AwsAccessKey]
    } else {
        seq![]
    })
}

/// All the rules a line triggers, in report order: the specific ones, or, when
/// there are none, the sensitive assignment.
pub open spec fn line_rules(line: Seq<char>) -> Seq<Rule> {
    let specific = specific_rules(line);
    if specific.len() == 0 && is_sensitive_assignment(line) {
        seq![Rule::SensitiveAssignment]
    } else {
        specific
    }
}

/// The rules that `line` triggers, in report order.
pub fn rules_for_line(line: &[char]) -> (r: Vec<Rule>)
    ensures
        r@ == line_rules(line@),
{
    let mut r: Vec<Rule> = Vec::new();
    if contains_chars(line, &chars_of(PRIVATE_KEY_BEGIN_MARKER)) && contains_chars(
        line,
        &chars_of(PRIVATE_KEY_END_LABEL),
    ) {
        r.push(Rule::PrivateKeyBlock);
    }
    let ghost first = r@;
    let mut tokens = token_rules(line);
    r.append(&mut tokens);
    if contains_aws_access_key(line) {
        r.push(Rule::AwsAccessKey);
    }
    proof {
        let aws: Seq<Rule> = if has_access_key(line@) {
            seq![Rule::AwsAccessKey]
        } else {
            seq![]
        };
        assert(r@ =~= first + token_rules_of(line@, token_patterns()) + aws);
    }
    if r.len() == 0 && looks_like_sensitive_assignment(line) {
        r.push(Rule::SensitiveAssignment);
        assert(r@ =~= seq![Rule::SensitiveAssignment]);
    }
    r
}


// ---------------------------------------------------------------------------
// Laws of the line rules
// ---------------------------------------------------------------------------

proof fn lemma_specific_rules_content(line: Seq<char>)
    ensures
        forall|k: int|
            0 <= k < specific_rules(line).len() ==> !(#[trigger] specific_rules(line)[k]).is_file_rule()
                && !(specific_rules(line)[k] is SensitiveAssignment),
{
    let pats = token_patterns();
    assert forall|k: int| 0 <= k < pats.len() implies !(#[trigger] pats[k]).2.is_file_rule()
        && !(pats[k].2 is SensitiveAssignment) by {}
    lemma_token_rules_of_content(line, pats);
}

/// Every rule a line triggers is a rule about file contents.
pub proof fn law_line_rules_are_content_rules(line: Seq<char>)
    ensures
        forall|k: int| 0 <= k < line_rules(line).len() ==> !(#[trigger] line_rules(line)[k]).is_file_rule(),
{
    lemma_specific_rules_content(line);
}

/// A line reported as a sensitive assignment has no other finding: that
/// rule only speaks when no specific rule matched the line.
pub proof fn law_sensitive_assignment_stands_alone(line: Seq<char>)
    requires
        line_rules(line).contains(Rule::SensitiveAssignment),
    ensures
        line_rules(line) == seq![Rule::SensitiveAssignment],
{
    lemma_specific_rules_content(line);
    if specific_rules(line).len() > 0 || !is_sensitive_assignment(line) {
        let k = choose|k: int| 0 <= k < line_rules(line).len() && line_rules(line)[k]
            == Rule::SensitiveAssignment;
        assert(!(specific_rules(line)[k] is SensitiveAssignment));
    }
}

/// A placeholder value (`EXAMPLE`, `CHANGEME`, `YOUR_` and the like, in any
/// ASCII case) is never reported as a sensitive assignment.
pub proof fn law_placeholder_values_are_not_reported(line: Seq<char>)
    requires
        assignment_parts(line) matches Some((key, value)) && names_placeholder(ascii_upper(value)),
    ensures
        !line_rules(line).contains(Rule::SensitiveAssignment),
{
    lemma_specific_rules_content(line);
}

/// Masked values (only `*`, `x`, `X`) and values shorter than eight bytes
/// are never reported as sensitive assignments.
pub proof fn law_masked_or_short_values_are_not_reported(line: Seq<char>)
    requires
        assignment_parts(line) matches Some((key, value)) && (is_masked(value)
            || encode_utf8(value).len() < 8),
    ensures
        !line_rules(line).contains(Rule::SensitiveAssignment),
{
    lemma_specific_rules_content(line);
}

/// Blank lines and `#` or `//` comments are never reported as sensitive
/// assignments.
pub proof fn law_comments_are_not_assignments(line: Seq<char>)
    requires
        trim(line).len() == 0 || trim(line)[0] == '#' || starts_with(trim(line), "//"@),
    ensures
        !line_rules(line).contains(Rule::SensitiveAssignment),
{
    lemma_specific_rules_content(line);
}

/// File names are matched whatever their ASCII case.
pub proof fn law_file_names_ignore_ascii_case(a: Seq<char>, b: Seq<char>)
    requires
        ascii_lower(a) == ascii_lower(b),
    ensures
        file_name_rule(a) == file_name_rule(b),
{
}

/// Upper-casing a file name's ASCII letters does not change which rule it
/// triggers.
pub proof fn law_upper_cased_file_names_match_alike(name: Seq<char>)
    ensures
        file_name_rule(ascii_upper(name)) == file_name_rule(name),
{
    assert forall|i: int| 0 <= i < name.len() implies lower_char(upper_char(name[i])) == lower_char(
        name[i],
    ) by {
        let c = name[i];
        if is_ascii_lower(c) {
            let d = upper_char(c);
            assert((d as u32) == (c as u32) - 32);
            assert(is_ascii_upper(d));
            assert(((d as u32) + 32) as char == c);
        }
    }
    assert(ascii_lower(ascii_upper(name)) =~= ascii_lower(name));
}

/// The file-name rules spelled out over the lower-cased name: `.env`, or a
/// `.env.` name not ending in `.example`, `.sample` or `.template`, is an
/// environment file; otherwise `id_rsa`, `id_dsa`, `id_ecdsa` or
/// `id_ed25519` is an SSH private key; otherwise a name ending in `.p12` or
/// `.pfx` is a key store; any other name triggers nothing.
pub proof fn law_file_name_rules_spelled_out(name: Seq<char>)
    ensures
        ({
            let l = ascii_lower(name);
            let env = l == ".env"@ || (starts_with(l, ".env."@) && !ends_with(l, ".example"@)
                && !ends_with(l, ".sample"@) && !ends_with(l, ".template"@));
            let ssh = l == "id_rsa"@ || l == "id_dsa"@ || l == "id_ecdsa"@ || l == "id_ed25519"@;
            let store = ends_with(l, ".p12"@) || ends_with(l, ".pfx"@);
            &&& (file_name_rule(name) == Some(Rule::EnvFile) <==> env)
            &&& (file_name_rule(name) == Some(Rule::SshPrivateKeyFile) <==> !env && ssh)
            &&& (file_name_rule(name) == Some(Rule::KeyStoreFile) <==> !env && !ssh && store)
            &&& (file_name_rule(name) is None <==> !env && !ssh && !store)
        }),
{
}

/// `.env` files are reported, and so are `.env.*` files, except the
/// `.example`, `.sample` and `.template` variants, which are never reported
/// as environment files.
pub proof fn law_env_files_and_their_templates(name: Seq<char>)
    ensures
        ascii_lower(name) == ".env"@ ==> file_name_rule(name) == Some(Rule::EnvFile),
        starts_with(ascii_lower(name), ".env."@) && !ends_with(ascii_lower(name), ".example"@)
            && !ends_with(ascii_lower(name), ".sample"@) && !ends_with(ascii_lower(name), ".template"@)
            ==> file_name_rule(name) == Some(Rule::EnvFile),
        ends_with(ascii_lower(name), ".example"@) || ends_with(ascii_lower(name), ".sample"@)
            || ends_with(ascii_lower(name), ".template"@) ==> file_name_rule(name) != Some(
            Rule::EnvFile,
        ),
{
    reveal_strlit(".env");
    reveal_strlit(".example");
    reveal_strlit(".sample");
    reveal_strlit(".template");
    if ascii_lower(name) == ".env"@ {
        assert(!ends_with(ascii_lower(name), ".example"@));
        assert(!ends_with(ascii_lower(name), ".sample"@));
        assert(!ends_with(ascii_lower(name), ".template"@));
    }
}

/// A prefix of the token table followed, anywhere in a line, by at least its
/// minimum number of token characters makes that line report the prefix's
/// rule.
pub proof fn law_table_tokens_are_reported(line: Seq<char>, k: int, i: int)
    requires
        0 <= k < 5,
        occurs_at(line, token_patterns()[k].0, i),
        run_len(line, i + token_patterns()[k].0.len()) >= token_patterns()[k].1,
    ensures
        line_rules(line).contains(token_patterns()[k].2),
{
    let (p, m, r) = token_patterns()[k];
    lemma_table_prefixes_are_token_chars(k);
    law_token_found_anywhere(line, p, m);
    lemma_token_rules_of_contains(line, token_patterns(), k);
    let tokens = token_rules_of(line, token_patterns());
    let j = choose|j: int| 0 <= j < tokens.len() && tokens[j] == r;
    let pk: Seq<Rule> = if has_private_key_markers(line) {
        seq![Rule::PrivateKeyBlock]
    } else {
        seq![]
    };
    let aws: Seq<Rule> = if has_access_key(line) {
        seq![Rule::AwsAccessKey]
    } else {
        seq![]
    };
    assert(specific_rules(line) == pk + tokens + aws);
    assert(specific_rules(line)[pk.len() + j] == r);
    assert(specific_rules(line).len() > 0);
}

/// An AWS access key ID shape anywhere in a line's bytes makes that line
/// report it.
pub proof fn law_access_keys_are_reported(line: Seq<char>)
    requires
        has_access_key(line),
    ensures
        line_rules(line).contains(Rule::AwsAccessKey),
{
    let s = specific_rules(line);
    assert(s[s.len() - 1] == Rule::AwsAccessKey);
}

/// A line holding both private-key markers reports a private-key block.
pub proof fn law_private_key_blocks_are_reported(line: Seq<char>)
    requires
        has_private_key_markers(line),
    ensures
        line_rules(line).contains(Rule::PrivateKeyBlock),
{
    let s = specific_rules(line);
    assert(s[0] == Rule::PrivateKeyBlock);
}

/// The private-key markers may stand anywhere in a line: a line holding
/// `-----BEGIN ` at one place and `PRIVATE KEY-----` at another (inside a
/// JSON string, a quoted value, after other text) reports a private-key
/// block; and only such a line does.
pub proof fn law_private_key_markers_anywhere(
    line: Seq<char>,
    a: Seq<char>,
    b: Seq<char>,
    c: Seq<char>,
    d: Seq<char>,
)
    requires
        line == a + "-----BEGIN "@ + b,
        line == c + "PRIVATE KEY-----"@
            + d,
    ensures
        line_rules(line).contains(Rule::PrivateKeyBlock),
{
    let m1 = "-----BEGIN "@;
    let m2 = "PRIVATE KEY-----"@;
    assert(line.subrange(a.len() as int, (a.len() + m1.len()) as int) =~= m1);
    assert(occurs_at(line, PRIVATE_KEY_BEGIN_MARKER@, a.len() as int));
    assert(line.subrange(c.len() as int, (c.len() + m2.len()) as int) =~= m2);
    assert(occurs_at(line, PRIVATE_KEY_END_LABEL@, c.len() as int));
    law_private_key_blocks_are_reported(line);
}

/// A line reports a private-key block only when it holds both markers.
pub proof fn law_private_key_block_needs_both_markers(line: Seq<char>)
    requires
        line_rules(line).contains(Rule::PrivateKeyBlock),
    ensures
        exists|a: Seq<char>, b: Seq<char>| line == a + "-----BEGIN "@ + b,
        exists|c: Seq<char>, d: Seq<char>| line == c + "PRIVATE KEY-----"@
            + d,
{
    lemma_specific_rules_content(line);
    lemma_private_key_rule_only_from_markers(line);
    let m1 = "-----BEGIN "@;
    let m2 = "PRIVATE KEY-----"@;
    let i = choose|i: int| occurs_at(line, PRIVATE_KEY_BEGIN_MARKER@, i);
    let j = choose|j: int| occurs_at(line, PRIVATE_KEY_END_LABEL@, j);
    let a = line.subrange(0, i);
    let b = line.subrange(i + m1.len(), line.len() as int);
    assert(line =~= a + m1 + b);
    let c = line.subrange(0, j);
    let d = line.subrange(j + m2.len(), line.len() as int);
    assert(line =~= c + m2 + d);
}

proof fn lemma_private_key_rule_only_from_markers(line: Seq<char>)
    requires
        line_rules(line).contains(Rule::PrivateKeyBlock),
    ensures
        has_private_key_markers(line),
{
    let k = choose|k: int| 0 <= k < line_rules(line).len() && line_rules(line)[k] == Rule::PrivateKeyBlock;
    if !has_private_key_markers(line) {
        let pk: Seq<Rule> = seq![];
        let tokens = token_rules_of(line, token_patterns());
        let aws: Seq<Rule> = if has_access_key(line) {
            seq![Rule::AwsAccessKey]
        } else {
            seq![]
        };
        assert(specific_rules(line) =~= tokens + aws);
        let pats = token_patterns();
        assert forall|m: int| 0 <= m < pats.len() implies (#[trigger] pats[m]).2
            != Rule::PrivateKeyBlock by {}
        lemma_token_rules_of_lacks(line, pats, Rule::PrivateKeyBlock);
        if specific_rules(line).len() == 0 {
            assert(line_rules(line)[k] == Rule::SensitiveAssignment || line_rules(line) == specific_rules(line));
        } else if k < tokens.len() {
            assert(specific_rules(line)[k] == tokens[k]);
        } else {
            assert(specific_rules(line)[k] == aws[k - tokens.len()]);
        }
    }
}

/// The rules of a line, in report order: a private-key block when both
/// markers stand somewhere in the line, then the token rules, then an AWS
/// access key; and only when none of these is found, a sensitive assignment.
pub proof fn law_line_rules_in_report_order(line: Seq<char>)
    ensures
        line_rules(line) == ({
            let pk: Seq<Rule> = if contains(line, "-----BEGIN "@) && contains(
                line,
                "PRIVATE KEY-----"@,
            ) {
                seq![Rule::PrivateKeyBlock]
            } else {
                seq![]
            };
            let aws: Seq<Rule> = if has_access_key(line) {
                seq![Rule::AwsAccessKey]
            } else {
                seq![]
            };
            let specific = pk + token_rules_of(line, token_patterns()) + aws;
            if specific.len() == 0 && is_sensitive_assignment(line) {
                seq![Rule::SensitiveAssignment]
            } else {
                specific
            }
        }),
{
}

} // verus!
