use mimo_tui::host_policy::{is_allowed_remote_host, parse_ipv4, parse_ipv6};
use mimo_tui::skills::is_allowed_skill_host;

fn chars(s: &str) -> Vec<char> {
    s.chars().collect()
}

#[test]
fn rejects_local_and_private_hosts() {
    assert!(!is_allowed_remote_host("localhost"));
    assert!(!is_allowed_remote_host("127.0.0.1"));
    assert!(!is_allowed_remote_host("10.0.0.5"));
    assert!(!is_allowed_remote_host("169.254.1.10"));
    assert!(!is_allowed_remote_host("::1"));
    assert!(!is_allowed_remote_host("fe80::1"));
    assert!(!is_allowed_remote_host("fd00::1"));
}

#[test]
fn allows_public_hosts() {
    assert!(is_allowed_remote_host("example.com"));
    assert!(is_allowed_remote_host("2606:2800:220:1:248:1893:25c8:1946"));
}

#[test]
fn rejects_private_and_local_skill_hosts() {
    assert!(!is_allowed_skill_host("localhost"));
    assert!(!is_allowed_skill_host("127.0.0.1"));
    assert!(!is_allowed_skill_host("10.1.2.3"));
    assert!(!is_allowed_skill_host("::1"));
    assert!(!is_allowed_skill_host("fe80::1"));
    assert!(!is_allowed_skill_host("fd12::1"));
    assert!(is_allowed_skill_host("example.com"));
}

#[test]
fn host_policy_covers_every_blocked_range() {
    assert!(!is_allowed_remote_host("LocalHost"));
    assert!(!is_allowed_remote_host("0.0.0.0"));
    assert!(!is_allowed_remote_host("224.0.0.1"));
    assert!(!is_allowed_remote_host("239.255.255.255"));
    assert!(!is_allowed_remote_host("172.16.0.1"));
    assert!(!is_allowed_remote_host("172.31.255.255"));
    assert!(!is_allowed_remote_host("192.168.1.1"));
    assert!(!is_allowed_remote_host("::"));
    assert!(!is_allowed_remote_host("ff02::1"));
    assert!(!is_allowed_remote_host("FEC0::1"));
    assert!(is_allowed_remote_host("172.32.0.1"));
    assert!(is_allowed_remote_host("8.8.8.8"));
    assert!(!is_allowed_remote_host("::ffff:127.0.0.1"));
    assert!(!is_allowed_remote_host("::FFFF:10.1.2.3"));
    assert!(is_allowed_remote_host("::ffff:8.8.8.8"));
    assert!(is_allowed_remote_host("2001:db8::"));
    // Not IP literals, so only names.
    assert!(is_allowed_remote_host("01.2.3.4"));
    assert!(is_allowed_remote_host("1.2.3.256"));
    assert!(is_allowed_remote_host("1::2::3"));
}

#[test]
fn ip_literals_are_read_like_the_standard_textual_forms() {
    assert_eq!(parse_ipv4(&chars("192.168.0.1")), Some(vec![192, 168, 0, 1]));
    assert_eq!(parse_ipv4(&chars("0.0.0.0")), Some(vec![0, 0, 0, 0]));
    assert_eq!(parse_ipv4(&chars("1.2.3")), None);
    assert_eq!(parse_ipv4(&chars("1.2.3.4.5")), None);
    assert_eq!(parse_ipv4(&chars("1.2.3.04")), None);
    assert_eq!(parse_ipv4(&chars("+1.2.3.4")), None);
    assert_eq!(parse_ipv4(&chars("")), None);

    assert_eq!(parse_ipv6(&chars("::")), Some(vec![0; 8]));
    assert_eq!(parse_ipv6(&chars("::1")), Some(vec![0, 0, 0, 0, 0, 0, 0, 1]));
    assert_eq!(parse_ipv6(&chars("1::")), Some(vec![1, 0, 0, 0, 0, 0, 0, 0]));
    assert_eq!(
        parse_ipv6(&chars("1:2:3:4:5:6:7:8")),
        Some(vec![1, 2, 3, 4, 5, 6, 7, 8])
    );
    assert_eq!(
        parse_ipv6(&chars("::ffff:1.2.3.4")),
        Some(vec![0, 0, 0, 0, 0, 0xffff, 0x0102, 0x0304])
    );
    assert_eq!(
        parse_ipv6(&chars("1:2:3:4:5:6:1.2.3.4")),
        Some(vec![1, 2, 3, 4, 5, 6, 0x0102, 0x0304])
    );
    assert_eq!(parse_ipv6(&chars("1:2:3:4:5:6:7:8:9")), None);
    assert_eq!(parse_ipv6(&chars("1:2:3:4:5:6:7:8::")), None);
    assert_eq!(parse_ipv6(&chars(":::1")), None);
    assert_eq!(parse_ipv6(&chars("1:2")), None);
    assert_eq!(parse_ipv6(&chars("12345::")), None);
    assert_eq!(parse_ipv6(&chars("1.2.3.4::")), None);
    assert_eq!(parse_ipv6(&chars("1:2:3:4:5:6::1.2.3.4")), None);
    assert_eq!(parse_ipv6(&chars("1:2:3:4:5::1.2.3.4")), Some(vec![1, 2, 3, 4, 5, 0, 0x0102, 0x0304]));
}

use mimo_tui::skills::{
    plan_skill_source, skill_text_from_download, SkillDownloadError, SkillSource,
    SkillSourceError, MAX_SKILL_SIZE_BYTES,
};

#[test]
fn skill_sources_are_checked_before_fetching() {
    assert_eq!(plan_skill_source("   "), Err(SkillSourceError::Empty));
    assert_eq!(
        plan_skill_source(" ./skills/rust-helper.md "),
        Ok(SkillSource::Local {
            path: "./skills/rust-helper.md".to_string(),
            fallback_name: "rust-helper".to_string(),
        })
    );
    assert_eq!(
        plan_skill_source("https://example.com/skills/review.md"),
        Ok(SkillSource::Remote {
            url: "https://example.com/skills/review.md".to_string(),
            fallback_name: "review".to_string(),
        })
    );
    assert_eq!(
        plan_skill_source("http://127.0.0.1/x.md"),
        Err(SkillSourceError::DisallowedHost("127.0.0.1".to_string()))
    );
    assert_eq!(
        plan_skill_source("http://localhost:8080/x.md"),
        Err(SkillSourceError::DisallowedHost("localhost".to_string()))
    );
    assert_eq!(
        plan_skill_source("https://"),
        Err(SkillSourceError::InvalidUrl("https://".to_string()))
    );
    assert_eq!(
        SkillSourceError::DisallowedHost("10.0.0.1".to_string()).message(),
        "internal/private hosts are not allowed for skill installation: 10.0.0.1"
    );
    match plan_skill_source("/tmp/.hidden").unwrap() {
        SkillSource::Local { fallback_name, .. } => assert_eq!(fallback_name, ".hidden"),
        other => panic!("unexpected {other:?}"),
    }
    match plan_skill_source("/").unwrap() {
        SkillSource::Local { fallback_name, .. } => assert_eq!(fallback_name, "skill"),
        other => panic!("unexpected {other:?}"),
    }
}

#[test]
fn downloaded_skills_must_be_small_utf8_text() {
    assert_eq!(skill_text_from_download(b"# Skill\n"), Ok("# Skill\n".to_string()));
    assert_eq!(skill_text_from_download(&[0xff, 0xfe]), Err(SkillDownloadError::NotUtf8));
    let big = vec![b'a'; MAX_SKILL_SIZE_BYTES + 1];
    assert_eq!(skill_text_from_download(&big), Err(SkillDownloadError::TooLarge));
}
