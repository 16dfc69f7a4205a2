//! Profiles, identifiers, paths and text.

use microvisor::diagnostics;
use microvisor::id::{accept_id, parse_id};
use microvisor::model::{PolicyIdentifiers, ProtectionProfile, PROFILE_SCHEMA_VERSION};
use microvisor::path::{
    extension, normal_component_count, path_precedes, path_starts_with, paths_overlap, same_path,
};
use microvisor::text::{
    characters, decimal_text, lines, parse_number, replace, split_once, to_text, trim_text, words,
};

#[test]
fn new_profiles_are_blank_and_have_random_identifiers() {
    let first = ProtectionProfile::new();
    let second = ProtectionProfile::default();
    assert_eq!(first.schema_version, PROFILE_SCHEMA_VERSION);
    assert_eq!(first.name, "");
    assert_eq!(first.executable, "");
    assert!(first.data_directories.is_empty());
    assert_eq!(first.launch_domain, "unconfined_t");
    assert_eq!(first.launch_role, "unconfined_r");
    assert!(first.block_ptrace);
    assert!(!first.block_fd_use);
    assert_ne!(first.id, second.id);
    assert_eq!((first.id >> 76) & 0xF, 4);
    assert_eq!((first.id >> 62) & 0x3, 2);
}

#[test]
fn derives_every_name_from_the_identifier() {
    let mut profile = ProtectionProfile::new();
    profile.id = 0x11111111_2222_4333_8444_555555555555;
    profile.name = "ignored; text".into();
    let module = "microvisor_11111111222243338444555555555555";
    assert_eq!(
        profile.identifiers(),
        PolicyIdentifiers {
            module: module.into(),
            deny_module: format!("{module}_deny"),
            app_type: format!("{module}_t"),
            exec_type: format!("{module}_exec_t"),
            data_type: format!("{module}_data_t"),
            allowed_attribute: format!("{module}_allowed_subjects"),
            denied_attribute: format!("{module}_denied_subjects"),
        }
    );
}

#[test]
fn compares_profiles_by_what_their_paths_mean() {
    let mut first = ProtectionProfile::new();
    first.executable = "/opt/app".into();
    first.data_directories = vec!["/var/lib/app".into()];
    let mut second = first.clone();
    assert!(first == second);
    second.executable = "/opt//app/".into();
    assert!(first == second);
    second.data_directories = vec!["/var/lib/other".into()];
    assert!(first != second);
    second.data_directories = first.data_directories.clone();
    second.name = "other".into();
    assert!(first != second);
}

#[test]
fn reads_identifiers_in_all_their_forms() {
    let id = 0x11111111_2222_4333_8444_55555555abcd;
    for text in [
        "11111111-2222-4333-8444-55555555abcd",
        "11111111-2222-4333-8444-55555555ABCD",
        "1111111122224333844455555555abcd",
        "{11111111-2222-4333-8444-55555555abcd}",
        "urn:uuid:11111111-2222-4333-8444-55555555abcd",
    ] {
        assert_eq!(parse_id(text).unwrap(), id, "{text}");
    }
    let refused = parse_id("profile").unwrap_err().message;
    assert!(refused.starts_with("Invalid profile ID 'profile': "));
    assert!(parse_id("").is_err());
    assert!(parse_id("11111111-2222-4333-8444-55555555abcg").is_err());
}

#[test]
fn decides_over_what_the_reader_of_identifiers_said() {
    assert_eq!(accept_id("7", Ok(7)).unwrap(), 7);
    assert_eq!(
        accept_id("x", Err("too short".to_owned())).unwrap_err().message,
        "Invalid profile ID 'x': too short"
    );
}

#[test]
fn writes_one_line_per_diagnostic() {
    assert_eq!(diagnostics::debug(1, "cli", "a"), "microvisor[1] DEBUG cli: a");
    assert_eq!(diagnostics::info(20, "cli", "b"), "microvisor[20] INFO cli: b");
    assert_eq!(diagnostics::warn(300, "cli", "c"), "microvisor[300] WARN cli: c");
    assert_eq!(
        diagnostics::error(4294967295, "cli", "d"),
        "microvisor[4294967295] ERROR cli: d"
    );
}

#[test]
fn paths_are_compared_by_components() {
    let pairs = [
        ("/a/b", "/a//b/", true),
        ("/a/b", "/a/./b", true),
        ("a/b", "/a/b", false),
        ("./a", "a", false),
        ("/a/b", "/a/bc", false),
        ("", ".", false),
    ];
    for (left, right, equal) in pairs {
        assert_eq!(same_path(left, right), equal, "{left} {right}");
        assert_eq!(
            std::path::Path::new(left) == std::path::Path::new(right),
            equal,
            "{left} {right}"
        );
    }
}

#[test]
fn paths_behave_like_those_of_the_standard_library() {
    let samples = [
        "", "/", ".", "..", "./a", "../a", "a", "a/b", "a//b/", "/a", "/a/", "/a/b", "/a/./b",
        "/a/../b", "//a", "/b", "/a-b", "/a.b", "/a/b/c", "/a/b.c", ".hidden", "/a/.hidden",
        "/a/x.tar.gz", "/a/dir.d/", "a.", "/\u{e9}t\u{e9}.yml",
    ];
    for left in samples {
        let first = std::path::Path::new(left);
        let names = first
            .components()
            .filter(|part| matches!(part, std::path::Component::Normal(_)))
            .count();
        assert_eq!(normal_component_count(left), names, "{left}");
        assert_eq!(
            extension(left).as_deref(),
            first.extension().and_then(|part| part.to_str()),
            "{left}"
        );
        for right in samples {
            let second = std::path::Path::new(right);
            assert_eq!(
                path_starts_with(left, right),
                first.starts_with(second),
                "{left} {right}"
            );
            assert_eq!(
                paths_overlap(left, right),
                first.starts_with(second) || second.starts_with(first)
            );
            assert_eq!(path_precedes(left, right), first < second, "{left} {right}");
        }
    }
}

#[test]
fn text_behaves_like_that_of_the_standard_library() {
    let samples = [
        "",
        " ",
        "a",
        " a b  c ",
        "a\nb\r\nc",
        "a\n\n",
        "\r\n",
        "x\u{a0}y\u{3000}",
        "\u{2003}wide\u{85}",
        "one two\tthree\n",
    ];
    for sample in samples {
        let chars = characters(sample);
        assert_eq!(to_text(&chars), sample);
        assert_eq!(trim_text(sample), sample.trim());
        let found: Vec<String> = lines(&chars).into_iter().map(to_text).collect();
        assert_eq!(found, sample.lines().collect::<Vec<_>>());
        let found: Vec<String> = words(&chars).into_iter().map(to_text).collect();
        assert_eq!(found, sample.split_whitespace().collect::<Vec<_>>());
    }
}

#[test]
fn numbers_are_read_and_written_in_decimal() {
    for value in [0, 7, 10, 99, 65_536, u64::MAX] {
        assert_eq!(decimal_text(value), value.to_string());
    }
    for text in ["", "+", "0", "007", "+12", "4294967295", "4294967296", "-1", "1x", " 1"] {
        assert_eq!(parse_number(&characters(text)), text.parse::<u32>().ok(), "{text:?}");
    }
}

#[test]
fn text_is_parted_and_replaced_from_the_left() {
    let text = characters("a=b=c");
    let (before, after) = split_once(&text, &characters("=")).unwrap();
    assert_eq!(to_text(before), "a");
    assert_eq!(to_text(after), "b=c");
    assert!(split_once(&text, &characters(":=")).is_none());
    let replaced = replace(&characters("aaa-aab"), &characters("aa"), &characters("x"));
    assert_eq!(to_text(&replaced), "aaa-aab".replace("aa", "x"));
}
