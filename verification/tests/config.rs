//! Configurations, from YAML text to validated profiles.

use microvisor::config::{
    accept_configuration, ensure_unique_ids, load_profiles, parse_config, read_config_text,
    Configuration, DesiredProfile, DEFAULT_CONFIG_FILE, MAX_CONFIG_SIZE, MAX_PROFILE_COUNT,
};
use microvisor::error::Error;
use microvisor::id::parse_id;
use microvisor::model::ProtectionProfile;
use microvisor::template::{default_path, render, write_new};
use microvisor::yaml::reject_unsupported_yaml;
use serde::de::{Deserialize, Deserializer, IgnoredAny, MapAccess, Visitor};
use std::fmt;

const VALID: &str = "\
schema_version: 1
profiles:
  - id: 11111111-2222-4333-8444-555555555555
    name: Test application
    executable: /opt/test/bin/application
    data_directories:
      - /var/lib/test/application
    launch_domain: unconfined_t
    launch_role: unconfined_r
    block_ptrace: true
    block_fd_use: false
";

struct WrittenProfile(DesiredProfile);

impl<'de> Deserialize<'de> for WrittenProfile {
    fn deserialize<D: Deserializer<'de>>(deserializer: D) -> Result<Self, D::Error> {
        const FIELDS: &[&str] = &[
            "id",
            "name",
            "executable",
            "data_directories",
            "launch_domain",
            "launch_role",
            "block_ptrace",
            "block_fd_use",
        ];
        deserializer.deserialize_struct("DesiredProfile", FIELDS, ProfileVisitor)
    }
}

struct ProfileVisitor;

impl<'de> Visitor<'de> for ProfileVisitor {
    type Value = WrittenProfile;

    fn expecting(&self, formatter: &mut fmt::Formatter<'_>) -> fmt::Result {
        formatter.write_str("a profile")
    }

    fn visit_map<A: MapAccess<'de>>(self, mut map: A) -> Result<WrittenProfile, A::Error> {
        let mut id: Option<uuid::Uuid> = None;
        let mut name: Option<String> = None;
        let mut executable: Option<String> = None;
        let mut data_directories: Option<Vec<String>> = None;
        let mut launch_domain: Option<String> = None;
        let mut launch_role: Option<String> = None;
        let mut block_ptrace: Option<bool> = None;
        let mut block_fd_use: Option<bool> = None;
        while let Some(key) = map.next_key::<String>()? {
            match key.as_str() {
                "id" => id = Some(map.next_value()?),
                "name" => name = Some(map.next_value()?),
                "executable" => executable = Some(map.next_value()?),
                "data_directories" => data_directories = Some(map.next_value()?),
                "launch_domain" => launch_domain = Some(map.next_value()?),
                "launch_role" => launch_role = Some(map.next_value()?),
                "block_ptrace" => block_ptrace = Some(map.next_value()?),
                "block_fd_use" => block_fd_use = Some(map.next_value()?),
                _ => {
                    map.next_value::<IgnoredAny>()?;
                    return Err(serde::de::Error::custom("unknown field"));
                }
            }
        }
        let missing = || serde::de::Error::custom("missing field");
        Ok(WrittenProfile(DesiredProfile {
            id: id.ok_or_else(missing)?.as_u128(),
            name: name.ok_or_else(missing)?,
            executable: executable.ok_or_else(missing)?,
            data_directories: data_directories.ok_or_else(missing)?,
            launch_domain: launch_domain.ok_or_else(missing)?,
            launch_role: launch_role.ok_or_else(missing)?,
            block_ptrace: block_ptrace.ok_or_else(missing)?,
            block_fd_use: block_fd_use.ok_or_else(missing)?,
        }))
    }
}

struct WrittenConfiguration(Configuration);

impl<'de> Deserialize<'de> for WrittenConfiguration {
    fn deserialize<D: Deserializer<'de>>(deserializer: D) -> Result<Self, D::Error> {
        const FIELDS: &[&str] = &["schema_version", "profiles"];
        deserializer.deserialize_struct("Configuration", FIELDS, ConfigurationVisitor)
    }
}

struct ConfigurationVisitor;

impl<'de> Visitor<'de> for ConfigurationVisitor {
    type Value = WrittenConfiguration;

    fn expecting(&self, formatter: &mut fmt::Formatter<'_>) -> fmt::Result {
        formatter.write_str("a configuration")
    }

    fn visit_map<A: MapAccess<'de>>(self, mut map: A) -> Result<WrittenConfiguration, A::Error> {
        let mut schema_version: Option<u32> = None;
        let mut profiles: Option<Vec<WrittenProfile>> = None;
        while let Some(key) = map.next_key::<String>()? {
            match key.as_str() {
                "schema_version" => schema_version = Some(map.next_value()?),
                "profiles" => profiles = Some(map.next_value()?),
                _ => {
                    map.next_value::<IgnoredAny>()?;
                    return Err(serde::de::Error::custom("unknown field"));
                }
            }
        }
        let missing = || serde::de::Error::custom("missing field");
        Ok(WrittenConfiguration(Configuration {
            schema_version: schema_version.ok_or_else(missing)?,
            profiles: profiles.ok_or_else(missing)?.into_iter().map(|item| item.0).collect(),
        }))
    }
}

fn read_yaml(text: &str) -> Result<Configuration, Error> {
    let mut budget = serde_saphyr::Budget::default();
    budget.max_events = 16_384;
    budget.max_aliases = 0;
    budget.max_anchors = 0;
    budget.max_depth = 10;
    budget.max_inclusion_depth = 0;
    budget.max_documents = 1;
    budget.max_nodes = 8_192;
    budget.max_total_scalar_bytes = MAX_CONFIG_SIZE;
    budget.max_total_comment_bytes = MAX_CONFIG_SIZE;
    budget.max_merge_keys = 0;
    let mut options = serde_saphyr::Options::default();
    options.budget = Some(budget);
    options.merge_keys = serde_saphyr::MergeKeyPolicy::Error;
    options.strict_booleans = true;
    serde_saphyr::from_str_with_options::<WrittenConfiguration>(text, options)
        .map(|written| written.0)
        .map_err(|error| Error::new(&error.to_string()))
}

fn parse(text: &str) -> Result<Vec<ProtectionProfile>, Error> {
    parse_config(text, read_yaml)
}

fn desired(id: u128) -> DesiredProfile {
    DesiredProfile {
        id,
        name: "Test application".to_owned(),
        executable: "/opt/test/bin/application".to_owned(),
        data_directories: vec!["/var/lib/test/application".to_owned()],
        launch_domain: "unconfined_t".to_owned(),
        launch_role: "unconfined_r".to_owned(),
        block_ptrace: true,
        block_fd_use: false,
    }
}

fn configuration(profiles: Vec<DesiredProfile>) -> Configuration {
    Configuration {
        schema_version: 1,
        profiles,
    }
}

#[test]
fn rejects_yaml_indirection_features() {
    for yaml in [
        "name: &shared app\n",
        "name: *shared\n",
        "name: !include other.yml\n",
        "<<: *defaults\n",
        "---\nname: app\n",
    ] {
        assert!(reject_unsupported_yaml(yaml).is_err(), "accepted {yaml:?}");
    }
}

#[test]
fn permits_indicators_inside_quoted_strings_and_comments() {
    assert!(reject_unsupported_yaml("name: \"app ! & *\" # !tag\n").is_ok());
    assert!(reject_unsupported_yaml("name: 'Alice''s app'\n").is_ok());
}

#[test]
fn parses_the_versioned_document_and_profile_list() {
    let profiles = parse(VALID).unwrap();
    assert_eq!(profiles.len(), 1);
    assert_eq!(profiles[0].schema_version, 1);
    assert_eq!(profiles[0].name, "Test application");
    assert!(profiles[0].block_ptrace);
    assert!(!profiles[0].block_fd_use);
    assert!(parse("schema_version: 1\nprofiles: []\n").unwrap().is_empty());
}

#[test]
fn rejects_unknown_duplicate_and_per_profile_schema_fields() {
    assert!(parse(&format!("{VALID}unexpected: value\n")).is_err());
    assert!(parse(&VALID.replacen("profiles:", "profiles:\nprofiles:", 1)).is_err());
    assert!(parse(&VALID.replacen(
        "    name: Test application",
        "    schema_version: 1\n    name: Test application",
        1,
    ))
    .is_err());
}

#[test]
fn rejects_duplicate_ids_unsupported_versions_and_ambiguous_booleans() {
    let duplicate = format!(
        "{VALID}{}",
        VALID
            .lines()
            .skip(2)
            .map(|line| format!("{line}\n"))
            .collect::<String>()
    );
    assert!(parse(&duplicate).is_err());
    assert!(parse(&VALID.replacen("schema_version: 1", "schema_version: 2", 1)).is_err());
    assert!(parse(&VALID.replacen("block_ptrace: true", "block_ptrace: yes", 1)).is_err());
}

#[test]
fn rejects_more_than_the_profile_limit() {
    let profile = VALID.lines().skip(2).collect::<Vec<_>>().join("\n");
    let text = format!(
        "schema_version: 1\nprofiles:\n{}",
        (0..=MAX_PROFILE_COUNT)
            .map(|index| profile.replace(
                "11111111-2222-4333-8444-555555555555",
                &format!("11111111-2222-4333-8444-{index:012}"),
            ))
            .collect::<Vec<_>>()
            .join("\n")
    );
    assert!(parse(&text).is_err());
}

#[test]
fn renders_a_parseable_profile_with_the_requested_uuid() {
    let id = parse_id("11111111-2222-4333-8444-555555555555").unwrap();
    let text = render(id);
    let profiles = parse(&text).unwrap();
    assert_eq!(profiles[0].id, id);
    assert_eq!(profiles[0].schema_version, 1);
    assert!(profiles[0].block_ptrace);
    assert!(!profiles[0].block_fd_use);
    assert_eq!(default_path(id), "microvisor.yml");
}

#[test]
fn requires_the_loader_visible_yaml_extension() {
    assert!(write_new("/tmp/templates/profile.yaml", 7).is_err());
    assert_eq!(
        write_new("profile.yaml", 7).unwrap_err().message,
        "Generated configuration file names must end with '.yml'"
    );
    assert!(write_new(".yml", 7).is_err());
    assert!(write_new("yml", 7).is_err());
}

#[test]
fn writes_the_template_to_names_with_the_extension() {
    assert_eq!(write_new("/tmp/microvisor.yml", 7).unwrap(), render(7));
    assert_eq!(
        render(0x11111111_2222_4333_8444_555555555555),
        "# Replace the name and absolute paths before installing as /etc/microvisor.yml.\n\
         schema_version: 1\n\
         profiles:\n\
         \x20 - id: 11111111-2222-4333-8444-555555555555\n\
         \x20   name: Replace with application name\n\
         \x20   executable: /absolute/path/to/application\n\
         \x20   data_directories:\n\
         \x20     - /absolute/path/to/application-data\n\
         \x20   launch_domain: unconfined_t\n\
         \x20   launch_role: unconfined_r\n\
         \x20   block_ptrace: true\n\
         \x20   block_fd_use: false\n"
    );
}

#[test]
fn every_template_keeps_to_the_accepted_subset() {
    for id in [0, 7, u128::MAX, 0x11111111_2222_4333_8444_555555555555] {
        assert!(reject_unsupported_yaml(&render(id)).is_ok());
    }
}

#[test]
fn names_the_line_and_the_reason_of_a_refusal() {
    for (yaml, message) in [
        ("a: 1\n\tb: 2\n", "tabs are not allowed at line 2"),
        ("a: \"open\n", "unterminated quoted scalar at line 1"),
        ("a: 'open\n", "unterminated quoted scalar at line 1"),
        ("a: 1\n---\n", "document stream markers are not allowed at line 2"),
        ("a: 1\n  ...  \n", "document stream markers are not allowed at line 2"),
        ("x: {<<: 1}\n", "mapping merge keys are not allowed at line 1"),
        ("a: 1\nb: 2\nc: !tag\n", "tags, anchors, and aliases are not allowed at line 3"),
        ("a: &b\r\nc: 1\n", "tags, anchors, and aliases are not allowed at line 1"),
    ] {
        assert_eq!(reject_unsupported_yaml(yaml).unwrap_err().message, message);
    }
}

#[test]
fn reads_quotes_and_escapes_like_the_parser() {
    assert!(reject_unsupported_yaml("a: \"x \\\" & y\"\n").is_ok());
    assert!(reject_unsupported_yaml("a: \"x\" & y\n").is_err());
    assert!(reject_unsupported_yaml("a: 'it''s & fine'\n").is_ok());
    assert!(reject_unsupported_yaml("a: 'it' & not\n").is_err());
    assert!(reject_unsupported_yaml("a: \"tab\there\"\n").is_ok());
    assert!(reject_unsupported_yaml("# \t ! & *\n").is_ok());
    assert!(reject_unsupported_yaml("").is_ok());
}

#[test]
fn refused_text_is_never_parsed() {
    let mut parsed = false;
    let result = parse_config("a: &b 1\n", |_text| {
        parsed = true;
        Ok(configuration(Vec::new()))
    });
    assert!(result.is_err());
    assert!(!parsed);
}

#[test]
fn decides_over_parsed_configurations() {
    let accepted = accept_configuration(Ok(configuration(vec![desired(2), desired(1)]))).unwrap();
    assert_eq!(accepted.len(), 2);
    assert_eq!(accepted[0].id, 2);
    assert_eq!(accepted[1].id, 1);
    assert_eq!(
        accept_configuration(Ok(configuration(vec![desired(1), desired(1)])))
            .unwrap_err()
            .message,
        "Configuration contains duplicate profile IDs"
    );
    assert_eq!(
        accept_configuration(Ok(Configuration {
            schema_version: 3,
            profiles: Vec::new(),
        }))
        .unwrap_err()
        .message,
        "Unsupported configuration schema version 3; expected 1"
    );
    let many = (0..257).map(desired).collect();
    assert_eq!(
        accept_configuration(Ok(configuration(many))).unwrap_err().message,
        "Configuration contains 257 profiles; the limit is 256"
    );
    assert_eq!(
        accept_configuration(Err(Error::new("no YAML"))).unwrap_err().message,
        "no YAML"
    );
    let mut relative = desired(1);
    relative.executable = "bin/application".to_owned();
    assert!(accept_configuration(Ok(configuration(vec![relative]))).is_err());
}

#[test]
fn finds_repeated_identifiers_anywhere() {
    let list = accept_configuration(Ok(configuration(vec![desired(1), desired(2), desired(3)])))
        .unwrap();
    assert!(ensure_unique_ids(&list).is_ok());
    let mut repeated = list;
    repeated.push(repeated[0].clone());
    assert!(ensure_unique_ids(&repeated).is_err());
}

#[test]
fn loads_profiles_from_bytes() {
    let bytes = VALID.as_bytes().to_vec();
    let profiles = load_profiles(DEFAULT_CONFIG_FILE, &bytes, read_yaml).unwrap();
    assert_eq!(profiles.len(), 1);
    assert_eq!(profiles[0].id, 0x11111111_2222_4333_8444_555555555555);

    let refused = load_profiles("/etc/x.yml", &b"a: &b 1\n".to_vec(), read_yaml).unwrap_err();
    assert_eq!(
        refused.message,
        "Could not parse configuration file /etc/x.yml: \
         tags, anchors, and aliases are not allowed at line 1"
    );
    let duplicate = load_profiles("/etc/x.yml", &Vec::new(), |_text| {
        Ok(configuration(vec![desired(1), desired(1)]))
    })
    .unwrap_err();
    assert_eq!(
        duplicate.message,
        "Could not parse configuration file /etc/x.yml: \
         Configuration contains duplicate profile IDs"
    );
}

#[test]
fn takes_only_bounded_utf8_for_text() {
    assert_eq!(
        read_config_text("/etc/x.yml", &"a: \u{fc}\n".as_bytes().to_vec()).unwrap(),
        "a: \u{fc}\n"
    );
    assert_eq!(
        read_config_text("/etc/x.yml", &vec![b'#'; MAX_CONFIG_SIZE + 1])
            .unwrap_err()
            .message,
        "Configuration file /etc/x.yml exceeds the 1 MiB limit"
    );
    assert!(read_config_text("/etc/x.yml", &vec![b'#'; MAX_CONFIG_SIZE]).is_ok());
    assert_eq!(
        read_config_text("/etc/x.yml", &vec![b'a', 0xff]).unwrap_err().message,
        "Configuration file /etc/x.yml must be UTF-8: \
         invalid utf-8 sequence of 1 bytes from index 1"
    );
}

#[test]
fn what_is_quoted_never_decides() {
    for content in ["", "plain", "# !tag &a *b", "<<: x", "---", "\t", "'"] {
        let line = format!("name: \"{content}\" # end");
        assert!(reject_unsupported_yaml(&line).is_ok(), "refused {line:?}");
        let line = format!("name: \"{content}\" !tag");
        assert_eq!(
            reject_unsupported_yaml(&line).unwrap_err().message,
            "tags, anchors, and aliases are not allowed at line 1"
        );
    }
}

#[test]
fn generates_templates_with_new_identifiers() {
    let made = microvisor::template::generate(None).unwrap();
    assert_eq!(made.path, "microvisor.yml");
    assert_eq!(uuid::Uuid::from_u128(made.id).get_version_num(), 4);
    assert!(made.text.contains(&uuid::Uuid::from_u128(made.id).to_string()));
    let other = microvisor::template::generate(Some("x/other.yml".to_owned())).unwrap();
    assert_eq!(other.path, "x/other.yml");
    assert_ne!(other.id, made.id);
    assert_eq!(
        microvisor::template::generate(Some("other.yaml".to_owned())).unwrap_err().message,
        "Generated configuration file names must end with '.yml'"
    );
}
