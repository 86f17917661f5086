use std::path::Path;

use envguard::scan_bytes;

fn utf16_le_bom(value: &str) -> Vec<u8> {
    let mut bytes = vec![0xff, 0xfe];
    for unit in value.encode_utf16() {
        bytes.extend_from_slice(&unit.to_le_bytes());
    }
    bytes
}

fn utf16_be(value: &str) -> Vec<u8> {
    let mut bytes = Vec::new();
    for unit in value.encode_utf16() {
        bytes.extend_from_slice(&unit.to_be_bytes());
    }
    bytes
}

#[test]
fn flags_dot_env_filename() {
    let findings = scan_bytes(Path::new(".env"), b"APP_MODE=development\n");
    assert!(findings.iter().any(|finding| finding.rule == "env-file"));
}

#[test]
fn allows_env_example_filename() {
    let key = ["API", "_KEY"].concat();
    let value = ["YOUR", "_API_KEY_HERE"].concat();
    let content = format!("{key}={value}\n");
    let findings = scan_bytes(Path::new(".env.example"), content.as_bytes());
    assert!(findings.is_empty());
}

#[test]
fn flags_private_key_material() {
    let begin = ["-----BEGIN OPENSSH", " "].concat();
    let end = ["PRIVATE ", "KEY-----\nabc\n"].concat();
    let content = format!("{begin}{end}");
    let findings = scan_bytes(Path::new("key.pem"), content.as_bytes());
    assert!(findings
        .iter()
        .any(|finding| finding.rule == "private-key-block"));
}

#[test]
fn flags_github_token_prefix() {
    let prefix = ["gh", "p_"].concat();
    let content = format!("VALUE={prefix}{}\n", "a".repeat(36));
    let findings = scan_bytes(Path::new("config.txt"), content.as_bytes());
    assert!(findings
        .iter()
        .any(|finding| finding.rule == "github-token"));
}

#[test]
fn flags_aws_access_key_shape() {
    let prefix = ["AK", "IA"].concat();
    let content = format!("AWS={prefix}{}\n", "A".repeat(16));
    let findings = scan_bytes(Path::new("config.txt"), content.as_bytes());
    assert!(findings
        .iter()
        .any(|finding| finding.rule == "aws-access-key"));
}

#[test]
fn flags_sensitive_assignment() {
    let key = ["DATABASE_", "PASSWORD"].concat();
    let content = format!("{key}=correct-horse-battery-staple\n");
    let findings = scan_bytes(Path::new("settings.conf"), content.as_bytes());
    assert!(findings
        .iter()
        .any(|finding| finding.rule == "sensitive-assignment"));
}

#[test]
fn scans_utf16_le_with_bom() {
    let key = ["SERVICE_", "TOKEN"].concat();
    let content = utf16_le_bom(&format!("MODE=dev\n{key}=a-real-looking-secret-value\n"));
    let findings = scan_bytes(Path::new("settings.conf"), &content);
    assert!(findings
        .iter()
        .any(|finding| finding.rule == "sensitive-assignment" && finding.line == 2));
}

#[test]
fn scans_bomless_utf16_be_when_byte_pattern_is_clear() {
    let prefix = ["gh", "p_"].concat();
    let content = utf16_be(&format!("VALUE={prefix}{}\n", "a".repeat(36)));
    let findings = scan_bytes(Path::new("settings.conf"), &content);
    assert!(findings
        .iter()
        .any(|finding| finding.rule == "github-token"));
}

#[test]
fn ignores_placeholder_assignment() {
    let key = ["API", "_KEY"].concat();
    let value = ["YOUR", "_API_KEY_HERE"].concat();
    let content = format!("{key}={value}\n");
    let findings = scan_bytes(Path::new("settings.example"), content.as_bytes());
    assert!(findings.is_empty());
}

#[test]
fn ignores_source_code_declaration() {
    let name = ["SERVICE_", "TOKEN"].concat();
    let content = format!("const {name}: &str = \"synthetic-value-only\";\n");
    let findings = scan_bytes(Path::new("source.rs"), content.as_bytes());
    assert!(findings.is_empty());
}

#[test]
fn reports_line_number() {
    let key = ["SERVICE_", "TOKEN"].concat();
    let content = format!("MODE=dev\n{key}=a-real-looking-secret-value\n");
    let findings = scan_bytes(Path::new("settings.conf"), content.as_bytes());
    assert_eq!(findings[0].line, 2);
}

#[test]
fn binary_content_is_not_scanned_as_text() {
    let findings = scan_bytes(Path::new("image.bin"), &[0xff, 0x00, b's', b'k', b'-']);
    assert!(findings.is_empty());
}

#[test]
fn flags_common_ssh_private_key_filename() {
    let findings = scan_bytes(Path::new(".ssh/id_ed25519"), b"synthetic test content\n");
    assert!(findings
        .iter()
        .any(|finding| finding.rule == "ssh-private-key-file"));
}

#[test]
fn source_does_not_trigger_its_own_rules() {
    // A whole scanner source file, written with the very patterns, rule
    // identifiers and messages it looks for, has no findings.
    let source = r##"use std::borrow::Cow;
use std::path::Path;

const PRIVATE_KEY_BEGIN_MARKER: &str = "-----BEGIN ";
const PRIVATE_KEY_END_LABEL: &str = "PRIVATE KEY-----";

#[derive(Debug, Clone, PartialEq, Eq)]
pub struct Finding {
    pub path: String,
    pub line: usize,
    pub rule: &'static str,
    pub message: &'static str,
}

pub fn scan_bytes(path: &Path, bytes: &[u8]) -> Vec<Finding> {
    let display_path = path.to_string_lossy().into_owned();
    let mut findings = Vec::new();

    if let Some((rule, message)) = sensitive_filename(path) {
        findings.push(Finding {
            path: display_path.clone(),
            line: 0,
            rule,
            message,
        });
    }

    let Some(text) = decode_text(bytes) else {
        return findings;
    };

    for (index, line) in text.lines().enumerate() {
        let line_number = index + 1;
        let mut matched_specific_rule = false;

        if line.contains(PRIVATE_KEY_BEGIN_MARKER) && line.contains(PRIVATE_KEY_END_LABEL) {
            findings.push(Finding {
                path: display_path.clone(),
                line: line_number,
                rule: "private-key-block",
                message: "private key material appears in file content",
            });
            matched_specific_rule = true;
        }

        for (prefix, min_tail, rule, message) in [
            (
                "github_pat_",
                40,
                "github-token",
                "GitHub token-like value detected",
            ),
            (
                "ghp_",
                30,
                "github-token",
                "GitHub token-like value detected",
            ),
            (
                "xoxb-",
                20,
                "slack-token",
                "Slack token-like value detected",
            ),
            (
                "xoxp-",
                20,
                "slack-token",
                "Slack token-like value detected",
            ),
            (
                "sk-",
                20,
                "api-key-prefix",
                "API key-like value with an sk- prefix detected",
            ),
        ] {
            if contains_prefixed_token(line, prefix, min_tail) {
                findings.push(Finding {
                    path: display_path.clone(),
                    line: line_number,
                    rule,
                    message,
                });
                matched_specific_rule = true;
            }
        }

        if contains_aws_access_key(line) {
            findings.push(Finding {
                path: display_path.clone(),
                line: line_number,
                rule: "aws-access-key",
                message: "AWS access key ID-like value detected",
            });
            matched_specific_rule = true;
        }

        if !matched_specific_rule && looks_like_sensitive_assignment(line) {
            findings.push(Finding {
                path: display_path.clone(),
                line: line_number,
                rule: "sensitive-assignment",
                message: "non-placeholder value assigned to a sensitive-looking variable",
            });
        }
    }

    findings
}

fn decode_text(bytes: &[u8]) -> Option<Cow<'_, str>> {
    if let Ok(text) = std::str::from_utf8(bytes) {
        return Some(Cow::Borrowed(text));
    }

    decode_utf16(bytes).map(Cow::Owned)
}

fn decode_utf16(bytes: &[u8]) -> Option<String> {
    let (endianness, payload) = if let Some(payload) = bytes.strip_prefix(&[0xff, 0xfe]) {
        (Utf16Endianness::Little, payload)
    } else if let Some(payload) = bytes.strip_prefix(&[0xfe, 0xff]) {
        (Utf16Endianness::Big, payload)
    } else {
        (infer_utf16_endianness(bytes)?, bytes)
    };

    if payload.is_empty() || payload.len() % 2 != 0 {
        return None;
    }

    let units = payload
        .chunks_exact(2)
        .map(|pair| match endianness {
            Utf16Endianness::Little => u16::from_le_bytes([pair[0], pair[1]]),
            Utf16Endianness::Big => u16::from_be_bytes([pair[0], pair[1]]),
        })
        .collect::<Vec<_>>();

    String::from_utf16(&units).ok()
}

#[derive(Clone, Copy)]
enum Utf16Endianness {
    Little,
    Big,
}

fn infer_utf16_endianness(bytes: &[u8]) -> Option<Utf16Endianness> {
    if bytes.len() < 8 || bytes.len() % 2 != 0 {
        return None;
    }

    let pairs = bytes.len() / 2;
    let zero_even = bytes.iter().step_by(2).filter(|byte| **byte == 0).count();
    let zero_odd = bytes
        .iter()
        .skip(1)
        .step_by(2)
        .filter(|byte| **byte == 0)
        .count();
    let threshold = (pairs * 2).div_ceil(3);

    if zero_odd >= threshold && zero_even <= pairs / 4 {
        Some(Utf16Endianness::Little)
    } else if zero_even >= threshold && zero_odd <= pairs / 4 {
        Some(Utf16Endianness::Big)
    } else {
        None
    }
}

fn sensitive_filename(path: &Path) -> Option<(&'static str, &'static str)> {
    let name = path.file_name()?.to_string_lossy().to_ascii_lowercase();

    if name == ".env"
        || (name.starts_with(".env.")
            && !name.ends_with(".example")
            && !name.ends_with(".sample")
            && !name.ends_with(".template"))
    {
        return Some((
            "env-file",
            "environment file may contain credentials or other secrets",
        ));
    }

    if matches!(
        name.as_str(),
        "id_rsa" | "id_dsa" | "id_ecdsa" | "id_ed25519"
    ) {
        return Some((
            "ssh-private-key-file",
            "filename matches a common SSH private key",
        ));
    }

    if name.ends_with(".p12") || name.ends_with(".pfx") {
        return Some((
            "key-store-file",
            "PKCS#12 key-store file may contain private keys",
        ));
    }

    None
}

fn contains_prefixed_token(line: &str, prefix: &str, min_tail: usize) -> bool {
    let mut offset = 0;
    while let Some(relative) = line[offset..].find(prefix) {
        let start = offset + relative + prefix.len();
        let tail_len = line[start..]
            .chars()
            .take_while(|character| {
                character.is_ascii_alphanumeric() || *character == '_' || *character == '-'
            })
            .count();

        if tail_len >= min_tail {
            return true;
        }
        offset = start;
    }
    false
}

fn contains_aws_access_key(line: &str) -> bool {
    line.as_bytes().windows(20).any(|window| {
        window.starts_with(b"AKIA")
            && window[4..]
                .iter()
                .all(|byte| byte.is_ascii_uppercase() || byte.is_ascii_digit())
    })
}

fn looks_like_sensitive_assignment(line: &str) -> bool {
    let trimmed = line.trim();
    if trimmed.is_empty() || trimmed.starts_with('#') || trimmed.starts_with("//") {
        return false;
    }

    let trimmed = trimmed.strip_prefix("export ").unwrap_or(trimmed);
    let Some((key, value)) = trimmed.split_once('=') else {
        return false;
    };

    let key = key.trim();
    let mut key_characters = key.chars();
    let Some(first_character) = key_characters.next() else {
        return false;
    };
    if !(first_character.is_ascii_alphabetic() || first_character == '_')
        || !key_characters.all(|character| character.is_ascii_alphanumeric() || character == '_')
    {
        return false;
    }

    let key = key.to_ascii_uppercase();
    let sensitive_name = [
        "API_KEY",
        "SECRET",
        "TOKEN",
        "PASSWORD",
        "PRIVATE_KEY",
        "ACCESS_KEY",
    ]
    .iter()
    .any(|needle| key.contains(needle));

    if !sensitive_name {
        return false;
    }

    let value = value
        .trim()
        .trim_matches(|character| character == '\'' || character == '"');
    if value.len() < 8 {
        return false;
    }

    let upper = value.to_ascii_uppercase();
    if [
        "EXAMPLE",
        "CHANGEME",
        "CHANGE_ME",
        "PLACEHOLDER",
        "REPLACE_ME",
        "YOUR_",
        "DUMMY",
    ]
    .iter()
    .any(|placeholder| upper.contains(placeholder))
    {
        return false;
    }

    if value
        .chars()
        .all(|character| character == '*' || character == 'x' || character == 'X')
    {
        return false;
    }

    true
}

#[cfg(test)]
mod tests {
    use super::*;

    fn utf16_le_bom(value: &str) -> Vec<u8> {
        let mut bytes = vec![0xff, 0xfe];
        for unit in value.encode_utf16() {
            bytes.extend_from_slice(&unit.to_le_bytes());
        }
        bytes
    }

    fn utf16_be(value: &str) -> Vec<u8> {
        let mut bytes = Vec::new();
        for unit in value.encode_utf16() {
            bytes.extend_from_slice(&unit.to_be_bytes());
        }
        bytes
    }

    #[test]
    fn flags_dot_env_filename() {
        let findings = scan_bytes(Path::new(".env"), b"APP_MODE=development\n");
        assert!(findings.iter().any(|finding| finding.rule == "env-file"));
    }

    #[test]
    fn allows_env_example_filename() {
        let key = ["API", "_KEY"].concat();
        let value = ["YOUR", "_API_KEY_HERE"].concat();
        let content = format!("{key}={value}\n");
        let findings = scan_bytes(Path::new(".env.example"), content.as_bytes());
        assert!(findings.is_empty());
    }

    #[test]
    fn flags_private_key_material() {
        let begin = ["-----BEGIN OPENSSH", " "].concat();
        let end = ["PRIVATE ", "KEY-----\nabc\n"].concat();
        let content = format!("{begin}{end}");
        let findings = scan_bytes(Path::new("key.pem"), content.as_bytes());
        assert!(findings
            .iter()
            .any(|finding| finding.rule == "private-key-block"));
    }

    #[test]
    fn flags_github_token_prefix() {
        let prefix = ["gh", "p_"].concat();
        let content = format!("VALUE={prefix}{}\n", "a".repeat(36));
        let findings = scan_bytes(Path::new("config.txt"), content.as_bytes());
        assert!(findings
            .iter()
            .any(|finding| finding.rule == "github-token"));
    }

    #[test]
    fn flags_aws_access_key_shape() {
        let prefix = ["AK", "IA"].concat();
        let content = format!("AWS={prefix}{}\n", "A".repeat(16));
        let findings = scan_bytes(Path::new("config.txt"), content.as_bytes());
        assert!(findings
            .iter()
            .any(|finding| finding.rule == "aws-access-key"));
    }

    #[test]
    fn flags_sensitive_assignment() {
        let key = ["DATABASE_", "PASSWORD"].concat();
        let content = format!("{key}=correct-horse-battery-staple\n");
        let findings = scan_bytes(Path::new("settings.conf"), content.as_bytes());
        assert!(findings
            .iter()
            .any(|finding| finding.rule == "sensitive-assignment"));
    }

    #[test]
    fn scans_utf16_le_with_bom() {
        let key = ["SERVICE_", "TOKEN"].concat();
        let content = utf16_le_bom(&format!("MODE=dev\n{key}=a-real-looking-secret-value\n"));
        let findings = scan_bytes(Path::new("settings.conf"), &content);
        assert!(findings
            .iter()
            .any(|finding| finding.rule == "sensitive-assignment" && finding.line == 2));
    }

    #[test]
    fn scans_bomless_utf16_be_when_byte_pattern_is_clear() {
        let prefix = ["gh", "p_"].concat();
        let content = utf16_be(&format!("VALUE={prefix}{}\n", "a".repeat(36)));
        let findings = scan_bytes(Path::new("settings.conf"), &content);
        assert!(findings
            .iter()
            .any(|finding| finding.rule == "github-token"));
    }

    #[test]
    fn ignores_placeholder_assignment() {
        let key = ["API", "_KEY"].concat();
        let value = ["YOUR", "_API_KEY_HERE"].concat();
        let content = format!("{key}={value}\n");
        let findings = scan_bytes(Path::new("settings.example"), content.as_bytes());
        assert!(findings.is_empty());
    }

    #[test]
    fn ignores_source_code_declaration() {
        let name = ["SERVICE_", "TOKEN"].concat();
        let content = format!("const {name}: &str = \"synthetic-value-only\";\n");
        let findings = scan_bytes(Path::new("source.rs"), content.as_bytes());
        assert!(findings.is_empty());
    }

    #[test]
    fn reports_line_number() {
        let key = ["SERVICE_", "TOKEN"].concat();
        let content = format!("MODE=dev\n{key}=a-real-looking-secret-value\n");
        let findings = scan_bytes(Path::new("settings.conf"), content.as_bytes());
        assert_eq!(findings[0].line, 2);
    }

    #[test]
    fn binary_content_is_not_scanned_as_text() {
        let findings = scan_bytes(Path::new("image.bin"), &[0xff, 0x00, b's', b'k', b'-']);
        assert!(findings.is_empty());
    }

    #[test]
    fn flags_common_ssh_private_key_filename() {
        let findings = scan_bytes(Path::new(".ssh/id_ed25519"), b"synthetic test content\n");
        assert!(findings
            .iter()
            .any(|finding| finding.rule == "ssh-private-key-file"));
    }

    #[test]
    fn source_does_not_trigger_its_own_rules() {
        let findings = scan_bytes(Path::new("src/lib.rs"), include_bytes!("lib.rs"));
        assert!(findings.is_empty(), "self-scan findings: {findings:?}");
    }
}
"##;
    let findings = scan_bytes(Path::new("src/lib.rs"), source.as_bytes());
    assert!(findings.is_empty(), "self-scan findings: {findings:?}");
}

#[test]
fn library_strings_do_not_trigger_the_rules() {
    // Every line of this library's source files that holds a string: the
    // patterns, rule identifiers and messages the rules are written with.
    let source = r##"    ||| contains(upper, "API_KEY"@)
    ||| contains(upper, "SECRET"@)
    ||| contains(upper, "TOKEN"@)
    ||| contains(upper, "PASSWORD"@)
    ||| contains(upper, "PRIVATE_KEY"@)
    ||| contains(upper, "ACCESS_KEY"@)
    ||| contains(upper, "EXAMPLE"@)
    ||| contains(upper, "CHANGEME"@)
    ||| contains(upper, "CHANGE_ME"@)
    ||| contains(upper, "PLACEHOLDER"@)
    ||| contains(upper, "REPLACE_ME"@)
    ||| contains(upper, "YOUR_"@)
    ||| contains(upper, "DUMMY"@)
    if starts_with(t, "export "@) {
        t.subrange("export "@.len() as int, t.len() as int)
    if t.len() == 0 || t[0] == '#' || starts_with(t, "//"@) {
    contains_chars(u, &chars_of("API_KEY")) || contains_chars(u, &chars_of("SECRET"))
        || contains_chars(u, &chars_of("TOKEN")) || contains_chars(u, &chars_of("PASSWORD"))
        || contains_chars(u, &chars_of("PRIVATE_KEY")) || contains_chars(u, &chars_of("ACCESS_KEY"))
    contains_chars(u, &chars_of("EXAMPLE")) || contains_chars(u, &chars_of("CHANGEME"))
        || contains_chars(u, &chars_of("CHANGE_ME")) || contains_chars(u, &chars_of("PLACEHOLDER"))
        || contains_chars(u, &chars_of("REPLACE_ME")) || contains_chars(u, &chars_of("YOUR_"))
        || contains_chars(u, &chars_of("DUMMY"))
    if t.len() == 0 || t[0] == '#' || starts_with_chars(t, &chars_of("//")) {
    let export = chars_of("export ");
        trim("export "@ + line) == "export "@.drop_last(),
    reveal_strlit("export ");
    let ex = "export "@;
        trim("export "@ + line) == "export "@ + w + trim(line),
    reveal_strlit("export ");
    let ex = "export "@;
        !starts_with(trim(line), "export "@),
        is_sensitive_assignment("export "@ + line) == is_sensitive_assignment(line),
    reveal_strlit("export ");
    reveal_strlit("//");
    let ex = "export "@;
        assert(!starts_with(t2, "//"@)) by {
            if starts_with(t2, "//"@) {
        assert(!starts_with(tx, "//"@)) by {
            if starts_with(tx, "//"@) {
        if t.len() == 0 || t[0] == '#' || starts_with(t, "//"@) {
            if starts_with(t, "//"@) {
    a == "-h"@ || a == "--help"@
    a == "-V"@ || a == "--version"@
    "--staged scans the current Git repository and does not accept a path"@
    "only one scan path may be provided"@
    "unknown option: "@ + a
                        None => "."@,
        } else if a == "--staged"@ {
        if equals_chars(&cs, &chars_of("-h")) || equals_chars(&cs, &chars_of("--help")) {
        if equals_chars(&cs, &chars_of("-V")) || equals_chars(&cs, &chars_of("--version")) {
        if equals_chars(&cs, &chars_of("--staged")) {
            let mut e = String::from_str("unknown option: ");
            return Err(String::from_str("only one scan path may be provided"));
            String::from_str("--staged scans the current Git repository and does not accept a path"),
        None => String::from_str("."),
            ==> (s ==> p == "."@),
        parse_outcome(args) matches Ok(OutcomeView::Run { staged: s, path: p }) ==> (s ==> p == "."@),
    ||| name == ".git"@
    ||| name == "target"@
    ||| name == "node_modules"@
    ||| name == ".venv"@
    ||| name == "venv"@
    ||| name == "dist"@
    ||| name == "build"@
    equals_chars(&cs, &chars_of(".git")) || equals_chars(&cs, &chars_of("target")) || equals_chars(
        &chars_of("node_modules"),
    ) || equals_chars(&cs, &chars_of(".venv")) || equals_chars(&cs, &chars_of("venv"))
        || equals_chars(&cs, &chars_of("dist")) || equals_chars(&cs, &chars_of("build"))
    "  "@ + f.path + (if f.line == 0 {
    }) + " ["@ + f.rule + "] "@ + f.message
    let mut out = chars_of("  ");
    let mut open = chars_of(" [");
    let mut close = chars_of("] ");
pub const PRIVATE_KEY_BEGIN_MARKER: &'static str = "-----BEGIN ";
pub const PRIVATE_KEY_END_LABEL: &'static str = "PRIVATE KEY-----";
            Rule::EnvFile => "env-file"@,
            Rule::SshPrivateKeyFile => "ssh-private-key-file"@,
            Rule::KeyStoreFile => "key-store-file"@,
            Rule::PrivateKeyBlock => "private-key-block"@,
            Rule::GithubToken => "github-token"@,
            Rule::SlackToken => "slack-token"@,
            Rule::ApiKeyPrefix => "api-key-prefix"@,
            Rule::AwsAccessKey => "aws-access-key"@,
            Rule::SensitiveAssignment => "sensitive-assignment"@,
            Rule::EnvFile => "environment file may contain credentials or other secrets"@,
            Rule::SshPrivateKeyFile => "filename matches a common SSH private key"@,
            Rule::KeyStoreFile => "PKCS#12 key-store file may contain private keys"@,
            Rule::PrivateKeyBlock => "private key material appears in file content"@,
            Rule::GithubToken => "GitHub token-like value detected"@,
            Rule::SlackToken => "Slack token-like value detected"@,
            Rule::ApiKeyPrefix => "API key-like value with an sk- prefix detected"@,
            Rule::AwsAccessKey => "AWS access key ID-like value detected"@,
            Rule::SensitiveAssignment => "non-placeholder value assigned to a sensitive-looking variable"@,
            Rule::EnvFile => "env-file",
            Rule::SshPrivateKeyFile => "ssh-private-key-file",
            Rule::KeyStoreFile => "key-store-file",
            Rule::PrivateKeyBlock => "private-key-block",
            Rule::GithubToken => "github-token",
            Rule::SlackToken => "slack-token",
            Rule::ApiKeyPrefix => "api-key-prefix",
            Rule::AwsAccessKey => "aws-access-key",
            Rule::SensitiveAssignment => "sensitive-assignment",
            Rule::EnvFile => "environment file may contain credentials or other secrets",
            Rule::SshPrivateKeyFile => "filename matches a common SSH private key",
            Rule::KeyStoreFile => "PKCS#12 key-store file may contain private keys",
            Rule::PrivateKeyBlock => "private key material appears in file content",
            Rule::GithubToken => "GitHub token-like value detected",
            Rule::SlackToken => "Slack token-like value detected",
            Rule::ApiKeyPrefix => "API key-like value with an sk- prefix detected",
            Rule::AwsAccessKey => "AWS access key ID-like value detected",
            Rule::SensitiveAssignment => "non-placeholder value assigned to a sensitive-looking variable",
    if lower == ".env"@ || (starts_with(lower, ".env."@) && !ends_with(lower, ".example"@)
        && !ends_with(lower, ".sample"@) && !ends_with(lower, ".template"@)) {
    } else if lower == "id_rsa"@ || lower == "id_dsa"@ || lower == "id_ecdsa"@ || lower
        == "id_ed25519"@ {
    } else if ends_with(lower, ".p12"@) || ends_with(lower, ".pfx"@) {
    if equals_chars(l, &chars_of(".env")) || (starts_with_chars(l, &chars_of(".env."))
        && !ends_with_chars(l, &chars_of(".example")) && !ends_with_chars(l, &chars_of(".sample"))
        && !ends_with_chars(l, &chars_of(".template"))) {
    } else if equals_chars(l, &chars_of("id_rsa")) || equals_chars(l, &chars_of("id_dsa"))
        || equals_chars(l, &chars_of("id_ecdsa")) || equals_chars(l, &chars_of("id_ed25519")) {
    } else if ends_with_chars(l, &chars_of(".p12")) || ends_with_chars(l, &chars_of(".pfx")) {
        trim(line).len() == 0 || trim(line)[0] == '#' || starts_with(trim(line), "//"@),
        ascii_lower(name) == ".env"@ ==> file_name_rule(name) == Some(Rule::EnvFile),
        starts_with(ascii_lower(name), ".env."@) && !ends_with(ascii_lower(name), ".example"@)
            && !ends_with(ascii_lower(name), ".sample"@) && !ends_with(ascii_lower(name), ".template"@)
        ends_with(ascii_lower(name), ".example"@) || ends_with(ascii_lower(name), ".sample"@)
            || ends_with(ascii_lower(name), ".template"@) ==> file_name_rule(name) != Some(
    reveal_strlit(".env");
    reveal_strlit(".example");
    reveal_strlit(".sample");
    reveal_strlit(".template");
    if ascii_lower(name) == ".env"@ {
        assert(!ends_with(ascii_lower(name), ".example"@));
        assert(!ends_with(ascii_lower(name), ".sample"@));
        assert(!ends_with(ascii_lower(name), ".template"@));
    c == '\'' || c == '"'
            TrimSet::Quotes => c == '\'' || c == '"',
        ("github_pat_"@, 40nat, Rule::GithubToken),
        ("ghp_"@, 30nat, Rule::GithubToken),
        ("xoxb-"@, 20nat, Rule::SlackToken),
        ("xoxp-"@, 20nat, Rule::SlackToken),
        ("sk-"@, 20nat, Rule::ApiKeyPrefix),
        reveal_strlit("github_pat_");
        reveal_strlit("ghp_");
        reveal_strlit("xoxb-");
        reveal_strlit("xoxp-");
        reveal_strlit("sk-");
        ("github_pat_", 40, Rule::GithubToken)
        ("ghp_", 30, Rule::GithubToken)
        ("xoxb-", 20, Rule::SlackToken)
        ("xoxp-", 20, Rule::SlackToken)
        ("sk-", 20, Rule::ApiKeyPrefix)
    reveal_strlit("github_pat_");
    reveal_strlit("ghp_");
    reveal_strlit("xoxb-");
    reveal_strlit("xoxp-");
    reveal_strlit("sk-");
"##;
    let findings = scan_bytes(Path::new("src/lib.rs"), source.as_bytes());
    assert!(findings.is_empty(), "self-scan findings: {findings:?}");
}
