use std::path::Path;

use envguard::rules::{classify_file_name, Rule};
use envguard::assignment::looks_like_sensitive_assignment;
use envguard::{exit_code, scan_bytes, scan_named, Finding};

fn rules_of(findings: &[Finding]) -> Vec<(usize, &'static str)> {
    findings.iter().map(|f| (f.line, f.rule)).collect()
}

fn scan_text(name: &str, text: &str) -> Vec<(usize, &'static str)> {
    rules_of(&scan_bytes(Path::new(name), text.as_bytes()))
}

fn utf16_with_bom(value: &str, little: bool) -> Vec<u8> {
    let mut bytes = if little { vec![0xff, 0xfe] } else { vec![0xfe, 0xff] };
    for unit in value.encode_utf16() {
        if little {
            bytes.extend_from_slice(&unit.to_le_bytes());
        } else {
            bytes.extend_from_slice(&unit.to_be_bytes());
        }
    }
    bytes
}

#[test]
fn slack_tokens_need_twenty_tail_characters() {
    let bot = ["xo", "xb-"].concat();
    let user = ["xo", "xp-"].concat();
    let long = format!("a {bot}{} b\n", "1".repeat(20));
    let short = format!("a {user}{} b\n", "1".repeat(19));
    assert_eq!(scan_text("notes.txt", &long), vec![(1, "slack-token")]);
    assert_eq!(scan_text("notes.txt", &short), vec![]);
    let user_long = format!("{user}{}\n", "Z".repeat(20));
    assert_eq!(scan_text("notes.txt", &user_long), vec![(1, "slack-token")]);
}

#[test]
fn github_token_tail_lengths_are_exact() {
    let classic = ["gh", "p_"].concat();
    let fine = ["github", "_pat_"].concat();
    assert_eq!(scan_text("a.txt", &format!("{classic}{}", "b".repeat(30))), vec![(1, "github-token")]);
    assert_eq!(scan_text("a.txt", &format!("{classic}{}", "b".repeat(29))), vec![]);
    assert_eq!(scan_text("a.txt", &format!("{fine}{}", "_".repeat(40))), vec![(1, "github-token")]);
    assert_eq!(scan_text("a.txt", &format!("{fine}{}", "-".repeat(39))), vec![]);
}

#[test]
fn token_after_a_short_occurrence_of_its_prefix_is_found() {
    let prefix = ["s", "k-"].concat();
    let text = format!("{prefix}x {prefix}{}\n", "q".repeat(20));
    assert_eq!(scan_text("a.txt", &text), vec![(1, "api-key-prefix")]);
    let overlapping = format!("{prefix}{prefix}{}\n", "q".repeat(17));
    assert_eq!(scan_text("a.txt", &overlapping), vec![(1, "api-key-prefix")]);
}

#[test]
fn token_tail_stops_at_non_ascii_characters() {
    let prefix = ["s", "k-"].concat();
    let text = format!("{prefix}{}é{}\n", "q".repeat(10), "q".repeat(10));
    assert_eq!(scan_text("a.txt", &text), vec![]);
}

#[test]
fn aws_access_key_shape_is_exact() {
    let head = ["AK", "IA"].concat();
    assert_eq!(scan_text("a.txt", &format!("id: {head}{}", "0123456789ABCDEF")), vec![(1, "aws-access-key")]);
    assert_eq!(scan_text("a.txt", &format!("id: {head}{}", "0123456789ABCDE")), vec![]);
    assert_eq!(scan_text("a.txt", &format!("id: {head}{}", "0123456789abcdef")), vec![]);
    assert_eq!(
        scan_text("a.txt", &format!("ключ: «{head}{}»", "Z".repeat(16))),
        vec![(1, "aws-access-key")]
    );
}

#[test]
fn private_key_markers_must_share_a_line() {
    let begin = ["-----BEG", "IN RSA "].concat();
    let end = ["PRIVATE", " KEY-----"].concat();
    assert_eq!(scan_text("k.pem", &format!("{begin}{end}\n")), vec![(1, "private-key-block")]);
    assert_eq!(scan_text("k.pem", &format!("{begin}\n{end}\n")), vec![]);
}

#[test]
fn specific_rules_come_in_table_order_and_silence_the_assignment_rule() {
    let classic = ["gh", "p_"].concat();
    let head = ["AK", "IA"].concat();
    let key = ["API", "_KEY"].concat();
    let text = format!("{key}={head}{}{classic}{}\n", "A".repeat(16), "c".repeat(30));
    assert_eq!(scan_text("a.env.txt", &text), vec![(1, "github-token"), (1, "aws-access-key")]);
}

#[test]
fn assignment_forms_that_are_reported() {
    let key = ["api", "_key"].concat();
    let name = ["SERVICE_", "SECRET"].concat();
    assert_eq!(scan_text("c.conf", &format!("export {key}='hunter2hunter2'\n")), vec![(1, "sensitive-assignment")]);
    assert_eq!(scan_text("c.conf", &format!("  {name} = \"abcdefgh\"  \n")), vec![(1, "sensitive-assignment")]);
    assert_eq!(scan_text("c.conf", &format!("{name}=éééé\n")), vec![(1, "sensitive-assignment")]);
    assert_eq!(
        scan_text("c.conf", &format!("\u{3000}{name}\u{a0}=\u{2003}abcdefgh\u{2028}\n")),
        vec![(1, "sensitive-assignment")]
    );
}

#[test]
fn assignment_forms_that_are_not_reported() {
    let name = ["SERVICE_", "PASSWORD"].concat();
    assert_eq!(scan_text("c.conf", &format!("{name}=abcdefg\n")), vec![]);
    assert_eq!(scan_text("c.conf", &format!("{name}=ééé\n")), vec![]);
    assert_eq!(scan_text("c.conf", &format!("{name}=********\n")), vec![]);
    assert_eq!(scan_text("c.conf", &format!("{name}=xxxxXXXX\n")), vec![]);
    assert_eq!(scan_text("c.conf", &format!("{name}=please-changeme-now\n")), vec![]);
    assert_eq!(scan_text("c.conf", &format!("{name}=dummy-value-here\n")), vec![]);
    assert_eq!(scan_text("c.conf", &format!("# {name}=abcdefghijk\n")), vec![]);
    assert_eq!(scan_text("c.conf", &format!("// {name}=abcdefghijk\n")), vec![]);
    assert_eq!(scan_text("c.conf", &format!("MY-{name}=abcdefghijk\n")), vec![]);
    assert_eq!(scan_text("c.conf", &format!("1{name}=abcdefghijk\n")), vec![]);
    assert_eq!(scan_text("c.conf", "USERNAME=abcdefghijk\n"), vec![]);
    assert_eq!(scan_text("c.conf", &format!("{name}\n")), vec![]);
}

#[test]
fn sensitive_file_names() {
    assert_eq!(scan_text(".ENV", ""), vec![(0, "env-file")]);
    assert_eq!(scan_text("app/.env.local", ""), vec![(0, "env-file")]);
    assert_eq!(scan_text(".env.sample", ""), vec![]);
    assert_eq!(scan_text(".env.Template", ""), vec![]);
    assert_eq!(scan_text("home/.ssh/ID_RSA", ""), vec![(0, "ssh-private-key-file")]);
    assert_eq!(scan_text("id_rsa.pub", ""), vec![]);
    assert_eq!(scan_text("certs/client.P12", ""), vec![(0, "key-store-file")]);
    assert_eq!(scan_text("store.pfx", ""), vec![(0, "key-store-file")]);
    assert_eq!(scan_text("env", ""), vec![]);
    assert_eq!(scan_text("..", ""), vec![]);
}

#[test]
fn findings_carry_path_rule_and_message() {
    let findings = scan_bytes(Path::new("dir/.env"), b"x\n");
    assert_eq!(
        findings,
        vec![Finding {
            path: "dir/.env".to_string(),
            line: 0,
            rule: "env-file",
            message: "environment file may contain credentials or other secrets",
        }]
    );
    let name = ["DB_", "TOKEN"].concat();
    let findings = scan_bytes(Path::new("a.conf"), format!("{name}=abcdefghij").as_bytes());
    assert_eq!(findings[0].message, "non-placeholder value assigned to a sensitive-looking variable");
}

#[test]
fn lines_are_numbered_with_crlf_and_without_final_newline() {
    let name = ["DB_", "TOKEN"].concat();
    let text = format!("a=1\r\n\r\n{name}=abcdefghij\r\n{name}=klmnopqrst");
    assert_eq!(
        scan_text("a.conf", &text),
        vec![(3, "sensitive-assignment"), (4, "sensitive-assignment")]
    );
}

#[test]
fn utf16_with_byte_order_marks_is_scanned_as_text() {
    let name = ["DB_", "TOKEN"].concat();
    let text = format!("x=1\n{name}=abcdefghij\n");
    let expected = vec![(2, "sensitive-assignment")];
    assert_eq!(rules_of(&scan_bytes(Path::new("a"), &utf16_with_bom(&text, true))), expected);
    assert_eq!(rules_of(&scan_bytes(Path::new("a"), &utf16_with_bom(&text, false))), expected);
    assert_eq!(rules_of(&scan_bytes(Path::new("a"), text.as_bytes())), expected);
}

#[test]
fn utf16_little_endian_without_mark_is_inferred() {
    let name = ["DB_", "TOKEN"].concat();
    let text = format!("{name}=abcdefghij\n");
    let mut bytes = Vec::new();
    for unit in text.encode_utf16() {
        bytes.extend_from_slice(&unit.to_le_bytes());
    }
    assert_eq!(rules_of(&scan_bytes(Path::new("a"), &bytes)), vec![(1, "sensitive-assignment")]);
}

#[test]
fn broken_utf16_is_not_text() {
    let name = ["DB_", "TOKEN"].concat();
    let mut bytes = utf16_with_bom(&format!("{name}=abcdefghij"), true);
    bytes.extend_from_slice(&[0x00, 0xd8]);
    assert_eq!(rules_of(&scan_bytes(Path::new("a"), &bytes)), vec![]);
    let mut odd = utf16_with_bom(&format!("{name}=abcdefghij"), true);
    odd.push(b'x');
    assert_eq!(rules_of(&scan_bytes(Path::new("a"), &odd)), vec![]);
    assert_eq!(rules_of(&scan_bytes(Path::new(".env"), &[0xff, 0xfe])), vec![(0, "env-file")]);
}

#[test]
fn scan_named_uses_the_given_name_and_path() {
    let name = ["DB_", "TOKEN"].concat();
    let findings = scan_named("shown/path", Some(".env"), format!("{name}=abcdefghij\n").as_bytes());
    assert_eq!(
        rules_of(&findings),
        vec![(0, "env-file"), (1, "sensitive-assignment")]
    );
    assert!(findings.iter().all(|f| f.path == "shown/path"));
    assert!(scan_named("p", None, b"plain text\n").is_empty());
}

#[test]
fn line_endings_do_not_change_findings() {
    let name = ["DB_", "TOKEN"].concat();
    let classic = ["gh", "p_"].concat();
    let unix = format!("a=1\n{name}=abcdefghij\nvalue {classic}{}", "t".repeat(30));
    let windows = unix.replace('\n', "\r\n");
    let expected = vec![(2, "sensitive-assignment"), (3, "github-token")];
    assert_eq!(scan_text("a.conf", &unix), expected);
    assert_eq!(scan_text("a.conf", &windows), expected);
    assert_eq!(scan_text("a.conf", &format!("{unix}\n")), expected);
    assert_eq!(scan_text("a.conf", &format!("{windows}\r\n")), expected);
}

#[test]
fn file_name_classification() {
    let chars = |name: &str| name.chars().collect::<Vec<char>>();
    assert_eq!(classify_file_name(&chars(".Env.Production")), Some(Rule::EnvFile));
    assert_eq!(classify_file_name(&chars(".env.EXAMPLE")), None);
    assert_eq!(classify_file_name(&chars(".env.example.p12")), Some(Rule::EnvFile));
    assert_eq!(classify_file_name(&chars("backup.env.p12")), Some(Rule::KeyStoreFile));
    assert_eq!(classify_file_name(&chars("Id_Ed25519")), Some(Rule::SshPrivateKeyFile));
    assert_eq!(classify_file_name(&chars("id_ecdsa")), Some(Rule::SshPrivateKeyFile));
    assert_eq!(classify_file_name(&chars("id_dsa")), Some(Rule::SshPrivateKeyFile));
    assert_eq!(classify_file_name(&chars(".env.")), Some(Rule::EnvFile));
    assert_eq!(classify_file_name(&chars(".envrc")), None);
}

#[test]
fn export_prefix_keeps_the_verdict() {
    let chars = |line: &str| line.chars().collect::<Vec<char>>();
    let key = ["API", "_KEY"].concat();
    let lines = [
        format!("{key}=abcdefghij"),
        format!("\t{key} = 'abcdefghij'  "),
        format!("{key}=short"),
        format!("# {key}=abcdefghij"),
        format!("// {key}=abcdefghij"),
        format!("  #{key}=abcdefghij"),
        format!("{key}=please-changeme"),
        "USERNAME=abcdefghij".to_string(),
        String::new(),
        "   ".to_string(),
        "=abcdefghij".to_string(),
    ];
    for line in &lines {
        let plain = looks_like_sensitive_assignment(&chars(line));
        let exported = looks_like_sensitive_assignment(&chars(&format!("export {line}")));
        assert_eq!(plain, exported, "{line:?}");
    }
    assert!(looks_like_sensitive_assignment(&chars(&lines[0])));
    assert!(looks_like_sensitive_assignment(&chars(&lines[1])));
    assert!(!looks_like_sensitive_assignment(&chars(&lines[3])));
}

#[test]
fn upper_cased_file_names_match_alike() {
    let chars = |name: &str| name.chars().collect::<Vec<char>>();
    for name in [".env", ".env.local", ".env.example", "id_rsa", "id_ed25519", "a.p12", "b.pfx", "readme.md", "é.env"] {
        assert_eq!(
            classify_file_name(&chars(name)),
            classify_file_name(&chars(&name.to_ascii_uppercase())),
            "{name}"
        );
    }
    assert_eq!(classify_file_name(&chars(".ENV.LOCAL")), Some(Rule::EnvFile));
}

#[test]
fn exit_code_tells_whether_anything_was_found() {
    assert_eq!(exit_code(&[]), 0);
    let findings = scan_named("p", Some(".env"), b"");
    assert_eq!(findings.len(), 1);
    assert_eq!(exit_code(&findings), 1);
}

#[test]
fn empty_and_nul_bearing_texts_scan_alike_in_utf8_and_utf16() {
    let expected_empty = vec![(0, "env-file")];
    assert_eq!(rules_of(&scan_named("p", Some(".env"), b"")), expected_empty);
    assert_eq!(rules_of(&scan_named("p", Some(".env"), &utf16_with_bom("", true))), expected_empty);
    assert_eq!(rules_of(&scan_named("p", Some(".env"), &utf16_with_bom("", false))), expected_empty);
    let name = ["DB_", "TOKEN"].concat();
    let text = format!("a\0b\n{name}=abcdefghij\n");
    let expected = vec![(2, "sensitive-assignment")];
    assert_eq!(rules_of(&scan_named("p", None, text.as_bytes())), expected);
    assert_eq!(rules_of(&scan_named("p", None, &utf16_with_bom(&text, true))), expected);
    assert_eq!(rules_of(&scan_named("p", None, &utf16_with_bom(&text, false))), expected);
}
