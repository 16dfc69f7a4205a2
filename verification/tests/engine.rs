//! Reconciling profiles: normalization, conflicts, reports, snapshots and transactions.

use microvisor::command::{Invocation, Output};
use microvisor::engine::batch::{Batch, BatchAct, BatchReply, BatchStage};
use microvisor::engine::inspection::{Inspection, Progress};
use microvisor::engine::normalize::{
    normalize_profile_with_applied, reused_directory, reused_executable, Findings, Resolution,
};
use microvisor::engine::observe::{fcontext_rule_exists, module_exists};
use microvisor::engine::overlap::{
    ensure_no_profile_conflicts, ensure_profiles_do_not_overlap, validate_profiles_with_applied,
};
use microvisor::engine::procedure::{Procedure, Status};
use microvisor::engine::reconcile::{merge_supervision_profiles, needs_observation, report};
use microvisor::engine::removing::{remove_profile, RemovalStage};
use microvisor::engine::rollback::{Replacement, Rollback};
use microvisor::engine::saving::{save_state, SaveAct};
use microvisor::engine::state::{
    check_state_size, deserialize_state, is_state_file, load_all_states, load_state_optional,
    snapshot, state_path, temporary_state_path, AppliedState, LegacyAppliedProfile, StoredState,
    MAX_STATE_SIZE, STATE_SCHEMA_VERSION,
};
use microvisor::engine::steps::{install_steps, preflight_steps, teardown_steps, Answer, Question};
use microvisor::engine::transaction::{Act, Stage, Transaction};
use microvisor::engine::{
    apply_profiles, normalize_profile, status, supervision_profiles, validate_desired_profiles,
    validate_profiles,
};
use microvisor::error::Error;
use microvisor::files::FileFacts;
use microvisor::id::parse_id;
use microvisor::model::ProtectionProfile;
use std::collections::{BTreeMap, BTreeSet};

const FIRST: &str = "11111111-2222-4333-8444-555555555555";
const SECOND: &str = "aaaaaaaa-bbbb-4ccc-8ddd-eeeeeeeeeeee";

fn profile(id: &str, name: &str, executable: &str, directories: &[&str]) -> ProtectionProfile {
    let mut profile = ProtectionProfile::new();
    profile.id = parse_id(id).unwrap();
    profile.name = name.into();
    profile.executable = executable.into();
    profile.data_directories = directories.iter().map(|path| path.to_string()).collect();
    profile
}

fn file(mode: u32) -> FileFacts {
    FileFacts {
        symlink: false,
        directory: false,
        file: true,
        uid: 0,
        links: 1,
        mode,
        len: 4,
    }
}

fn directory() -> FileFacts {
    FileFacts {
        symlink: false,
        directory: true,
        file: false,
        uid: 0,
        links: 2,
        mode: 0o755,
        len: 0,
    }
}

fn program(path: &str) -> Resolution {
    Resolution {
        resolved: Ok(path.into()),
        is_file: true,
        facts: Ok(file(0o755)),
    }
}

fn folder(path: &str) -> Resolution {
    Resolution {
        resolved: Ok(path.into()),
        is_file: false,
        facts: Ok(directory()),
    }
}

fn missing() -> Resolution {
    Resolution {
        resolved: Err(Error::new("No such file or directory")),
        is_file: false,
        facts: Err(Error::new("No such file or directory")),
    }
}

/// Everything is where the profile says it is.
fn as_written(profile: &ProtectionProfile) -> Findings {
    Findings {
        executable: program(&profile.executable),
        directories: profile.data_directories.iter().map(|path| folder(path)).collect(),
    }
}

#[test]
fn rejects_conflicts_across_the_complete_profile_set() {
    let first = profile(FIRST, "First", "/srv/root/bin/application", &["/srv/root/data/application"]);
    let mut second = first.clone();
    second.id = parse_id(SECOND).unwrap();
    second.name = "Second".into();
    let findings = vec![as_written(&first), as_written(&second)];
    assert_eq!(
        validate_profiles(vec![first.clone(), second.clone()], &findings).unwrap_err().message,
        "Profiles 'First' and 'Second' use the same executable /srv/root/bin/application"
    );

    second.executable = "/srv/root/bin/other-application".into();
    second.data_directories = vec!["/srv/root/data/application/nested".into()];
    let findings = vec![as_written(&first), as_written(&second)];
    assert_eq!(
        validate_profiles(vec![first, second], &findings).unwrap_err().message,
        "Profiles 'First' and 'Second' have overlapping data paths \
         /srv/root/data/application and /srv/root/data/application/nested"
    );
}

#[test]
fn rejects_two_paths_resolving_to_the_same_directory() {
    let aliases = profile(
        FIRST,
        "Aliases",
        "/srv/root/bin/application",
        &["/srv/root/data/application", "/srv/root/data/alias"],
    );
    let findings = Findings {
        executable: program("/srv/root/bin/application"),
        directories: vec![
            folder("/srv/root/data/application"),
            folder("/srv/root/data/application"),
        ],
    };
    assert_eq!(
        validate_profiles(vec![aliases], &vec![findings]).unwrap_err().message,
        "Protected directories resolve to the same canonical path"
    );
}

#[test]
fn reuses_applied_data_paths_that_the_deny_module_hides() {
    let applied = profile(
        FIRST,
        "Applied profile",
        "/srv/root/bin/application",
        &["/srv/root/data/application"],
    );
    let hidden = Findings {
        executable: program("/elsewhere"),
        directories: vec![missing()],
    };
    assert_eq!(
        normalize_profile_with_applied(applied.clone(), Some(&applied), &hidden).unwrap(),
        applied
    );

    let mut changed = applied.clone();
    changed.data_directories = vec!["/srv/root/data/changed".into()];
    assert!(normalize_profile_with_applied(changed, Some(&applied), &hidden).is_err());
}

fn field<'a>(object: &'a serde_json::Value, name: &str) -> Result<&'a serde_json::Value, Error> {
    object.get(name).ok_or_else(|| Error::new(&format!("missing field `{name}`")))
}

fn text(object: &serde_json::Value, name: &str) -> Result<String, Error> {
    let value = field(object, name)?;
    Ok(value.as_str().ok_or_else(|| Error::new("expected a string"))?.to_owned())
}

fn flag(object: &serde_json::Value, name: &str) -> Result<bool, Error> {
    field(object, name)?.as_bool().ok_or_else(|| Error::new("expected a boolean"))
}

fn number(object: &serde_json::Value, name: &str) -> Result<u32, Error> {
    let value = field(object, name)?;
    Ok(value.as_u64().ok_or_else(|| Error::new("expected a number"))? as u32)
}

fn texts(object: &serde_json::Value, name: &str) -> Result<Vec<String>, Error> {
    let value = field(object, name)?;
    let list = value.as_array().ok_or_else(|| Error::new("expected a list"))?;
    Ok(list.iter().map(|item| item.as_str().unwrap().to_owned()).collect())
}

fn read_current(data: &[u8]) -> Result<AppliedState, Error> {
    let value: serde_json::Value =
        serde_json::from_slice(data).map_err(|error| Error::new(&error.to_string()))?;
    let inner = field(&value, "profile")?;
    Ok(AppliedState {
        state_schema_version: number(&value, "state_schema_version")?,
        profile: ProtectionProfile {
            schema_version: number(inner, "schema_version")?,
            id: parse_id(&text(inner, "id")?)?,
            name: text(inner, "name")?,
            executable: text(inner, "executable")?,
            data_directories: texts(inner, "data_directories")?,
            launch_domain: text(inner, "launch_domain")?,
            launch_role: text(inner, "launch_role")?,
            block_ptrace: flag(inner, "block_ptrace")?,
            block_fd_use: flag(inner, "block_fd_use")?,
        },
    })
}

fn read_legacy(data: &[u8]) -> Result<LegacyAppliedProfile, Error> {
    let value: serde_json::Value =
        serde_json::from_slice(data).map_err(|error| Error::new(&error.to_string()))?;
    Ok(LegacyAppliedProfile {
        id: parse_id(&text(&value, "id")?)?,
        name: text(&value, "name")?,
        executable: text(&value, "executable")?,
        data_directories: texts(&value, "data_directories")?,
        launch_domain: text(&value, "launch_domain")?,
        launch_role: text(&value, "launch_role")?,
        block_ptrace: flag(&value, "block_ptrace")?,
        block_fd_use: flag(&value, "block_fd_use")?,
        applied: flag(&value, "applied")?,
    })
}

fn write_current(state: &AppliedState) -> Vec<u8> {
    let profile = &state.profile;
    let mut inner = serde_json::Map::new();
    inner.insert("schema_version".into(), profile.schema_version.into());
    inner.insert("id".into(), uuid::Uuid::from_u128(profile.id).to_string().into());
    inner.insert("name".into(), profile.name.clone().into());
    inner.insert("executable".into(), profile.executable.clone().into());
    inner.insert("data_directories".into(), profile.data_directories.clone().into());
    inner.insert("launch_domain".into(), profile.launch_domain.clone().into());
    inner.insert("launch_role".into(), profile.launch_role.clone().into());
    inner.insert("block_ptrace".into(), profile.block_ptrace.into());
    inner.insert("block_fd_use".into(), profile.block_fd_use.into());
    let mut outer = serde_json::Map::new();
    outer.insert("state_schema_version".into(), state.state_schema_version.into());
    outer.insert("profile".into(), inner.into());
    serde_json::to_vec(&serde_json::Value::from(outer)).unwrap()
}

fn read_state(data: &[u8]) -> Result<ProtectionProfile, Error> {
    deserialize_state(read_current(data), read_legacy(data))
}

#[test]
fn reads_current_and_legacy_root_state() {
    let profile = profile(
        FIRST,
        "State compatibility",
        "/opt/test/bin/application",
        &["/var/lib/test/application"],
    );

    let current = write_current(&AppliedState {
        state_schema_version: STATE_SCHEMA_VERSION,
        profile: profile.clone(),
    });
    assert_eq!(read_state(&current).unwrap(), profile);

    let legacy = br#"{
            "id":"11111111-2222-4333-8444-555555555555",
            "name":"State compatibility",
            "executable":"/opt/test/bin/application",
            "data_directories":["/var/lib/test/application"],
            "launch_domain":"unconfined_t",
            "launch_role":"unconfined_r",
            "block_ptrace":true,
            "block_fd_use":false,
            "applied":true
        }"#;
    assert_eq!(read_state(legacy).unwrap(), profile);
}

#[test]
fn supervision_keeps_applied_and_drifted_desired_profiles_distinct() {
    let applied = profile(
        FIRST,
        "Applied",
        "/opt/test/bin/application",
        &["/var/lib/test/application"],
    );
    let mut desired = applied.clone();
    desired.name = "Changed configuration".into();
    let rows = merge_supervision_profiles(vec![desired.clone()], vec![applied.clone()]);
    assert_eq!(rows.len(), 2);
    assert_eq!(rows[0].profile, applied);
    assert!(rows[0].applied);
    assert!(!rows[0].desired);
    assert_eq!(rows[1].profile, desired);
    assert!(!rows[1].applied);
    assert!(rows[1].desired);

    let rows = merge_supervision_profiles(vec![applied.clone()], vec![applied]);
    assert_eq!(rows.len(), 1);
    assert!(rows[0].applied && rows[0].desired);
}

#[test]
fn normalizes_paths_and_puts_them_in_order() {
    let asked = profile(FIRST, "P", "/usr/bin/link", &["/var/lib/z/data", "/link/to/data"]);
    let findings = Findings {
        executable: program("/opt/real/program"),
        directories: vec![folder("/var/lib/z/data"), folder("/home/user/data")],
    };
    let found = normalize_profile(asked.clone(), &findings).unwrap();
    assert_eq!(found.executable, "/opt/real/program");
    assert_eq!(found.data_directories, vec!["/home/user/data", "/var/lib/z/data"]);
    assert_eq!(found.id, asked.id);

    // A normalized profile that is applied is found as it is.
    let hidden = Findings {
        executable: program("/ignored"),
        directories: vec![missing(), missing()],
    };
    assert_eq!(
        normalize_profile_with_applied(found.clone(), Some(&found), &hidden).unwrap(),
        found
    );
}

#[test]
fn names_what_is_wrong_with_the_paths_of_a_profile() {
    let asked = profile(FIRST, "P", "/usr/bin/app", &["/var/lib/app"]);
    let refused = |executable: Resolution, folders: Vec<Resolution>| {
        let findings = Findings {
            executable,
            directories: folders,
        };
        normalize_profile(asked.clone(), &findings).unwrap_err().message
    };
    let good = || vec![folder("/var/lib/app")];
    assert_eq!(
        refused(missing(), good()),
        "Could not resolve /usr/bin/app: No such file or directory"
    );
    let mut socket = program("/usr/bin/app");
    socket.is_file = false;
    assert_eq!(refused(socket, good()), "/usr/bin/app is not a regular file");
    let mut unreadable = program("/usr/bin/app");
    unreadable.facts = Err(Error::new("Permission denied"));
    assert_eq!(refused(unreadable, good()), "Permission denied");
    let mut plain = program("/usr/bin/app");
    plain.facts = Ok(file(0o644));
    assert_eq!(refused(plain, good()), "/usr/bin/app is not executable");
    assert_eq!(
        refused(program("/usr/bin/app"), vec![missing()]),
        "Could not resolve /var/lib/app: No such file or directory"
    );
    let mut uninspected = folder("/data/lib/app");
    uninspected.facts = Err(Error::new("Permission denied"));
    assert_eq!(
        refused(program("/usr/bin/app"), vec![uninspected]),
        "Could not inspect /data/lib/app: Permission denied"
    );
    let mut no_folder = folder("/data/lib/app");
    no_folder.facts = Ok(file(0o644));
    assert_eq!(
        refused(program("/usr/bin/app"), vec![no_folder]),
        "/data/lib/app is not a directory"
    );
    assert_eq!(
        refused(program("/usr/bin/app"), vec![folder("/data/app")]),
        "/data/app is too broad to protect safely; select an application-specific subdirectory"
    );
    assert_eq!(
        refused(program("/var/lib/app/bin"), good()),
        "The protected directory /var/lib/app contains the selected executable"
    );
}

#[test]
fn rejects_directories_inside_each_other() {
    let asked = profile(FIRST, "P", "/usr/bin/app", &["/a/b/c/d", "/x/y/z"]);
    let findings = Findings {
        executable: program("/usr/bin/app"),
        directories: vec![folder("/a/b/c/d"), folder("/a/b/c")],
    };
    assert_eq!(
        normalize_profile(asked, &findings).unwrap_err().message,
        "Protected directories must not overlap: /a/b/c contains /a/b/c/d"
    );
}

#[test]
fn takes_from_the_applied_profile_only_what_is_asked_for() {
    let applied = profile(FIRST, "P", "/usr/bin/app", &["/var/lib/app"]);
    assert_eq!(
        reused_executable("/usr//bin/app", Some(&applied)).as_deref(),
        Some("/usr/bin/app")
    );
    assert_eq!(reused_executable("/usr/bin/other", Some(&applied)), None);
    assert_eq!(reused_executable("/usr/bin/app", None), None);
    assert_eq!(
        reused_directory("/var/lib/app/", Some(&applied)).as_deref(),
        Some("/var/lib/app")
    );
    assert_eq!(reused_directory("/var/lib/app/sub", Some(&applied)), None);
}

#[test]
fn validated_profiles_stand_in_the_order_of_their_identifiers() {
    let first = profile(FIRST, "First", "/opt/a/bin", &["/var/lib/a"]);
    let second = profile(SECOND, "Second", "/opt/b/bin", &["/var/lib/b"]);
    let findings = vec![as_written(&second), as_written(&first)];
    let list = validate_profiles(vec![second.clone(), first.clone()], &findings).unwrap();
    assert_eq!(list, vec![first, second]);
}

#[test]
fn names_every_way_in_which_profiles_get_in_each_others_way() {
    let first = profile(FIRST, "First", "/opt/a/bin/app", &["/var/lib/a"]);
    let inside = profile(SECOND, "Second", "/var/lib/a/app", &["/var/lib/b"]);
    assert_eq!(
        ensure_profiles_do_not_overlap(&first, &inside).unwrap_err().message,
        "Profile 'First' contains the executable managed by 'Second'"
    );
    assert_eq!(
        ensure_profiles_do_not_overlap(&inside, &first).unwrap_err().message,
        "Profile 'First' contains the executable managed by 'Second'"
    );
    let apart = profile(SECOND, "Second", "/opt/b/app", &["/var/lib/ab"]);
    assert!(ensure_profiles_do_not_overlap(&first, &apart).is_ok());

    let conflict = |existing: ProtectionProfile| {
        ensure_no_profile_conflicts(&first, &vec![Ok(existing)]).unwrap_err().message
    };
    assert_eq!(
        conflict(profile(SECOND, "Other", "/opt/a/bin/app", &[])),
        "/opt/a/bin/app is already managed by the Microvisor profile 'Other'"
    );
    assert_eq!(
        conflict(profile(SECOND, "Other", "/opt/b", &["/var/lib/a/b"])),
        "/var/lib/a overlaps a directory managed by the Microvisor profile 'Other'"
    );
    assert_eq!(
        conflict(profile(SECOND, "Other", "/var/lib/a/run", &[])),
        "/var/lib/a contains an executable managed by the Microvisor profile 'Other'"
    );
    assert_eq!(
        conflict(profile(SECOND, "Other", "/opt/b", &["/opt/a/bin"])),
        "/opt/a/bin/app is inside a directory managed by the Microvisor profile 'Other'"
    );
    assert!(ensure_no_profile_conflicts(&first, &vec![Ok(first.clone())]).is_ok());
    assert_eq!(
        ensure_no_profile_conflicts(&first, &vec![Err(Error::new("unreadable"))])
            .unwrap_err()
            .message,
        "unreadable"
    );
}

#[test]
fn reports_how_profiles_stand() {
    let applied = profile(FIRST, "Applied", "/opt/a/bin", &["/var/lib/a"]);
    let leftover = profile(SECOND, "Left", "/opt/b/bin", &["/var/lib/b"]);
    let mut drifted = applied.clone();
    drifted.name = "Renamed".into();

    let (rows, converged) =
        report(&vec![applied.clone()], &vec![applied.clone()], &vec![Ok(true)]).unwrap();
    assert!(converged);
    assert_eq!((rows.len(), rows[0].state), (1, "applied"));
    assert!(needs_observation(&applied, &vec![applied.clone()]));

    let (rows, converged) =
        report(&vec![applied.clone()], &vec![applied.clone()], &vec![Ok(false)]).unwrap();
    assert!(!converged);
    assert_eq!(rows[0].state, "system-drift");

    let (rows, converged) =
        report(&vec![drifted.clone()], &vec![applied.clone()], &vec![Ok(true)]).unwrap();
    assert!(!converged);
    assert_eq!((rows[0].state, rows[0].name.as_str()), ("configuration-drift", "Renamed"));
    assert!(!needs_observation(&drifted, &vec![applied.clone()]));

    let (rows, converged) = report(
        &vec![applied.clone()],
        &vec![leftover.clone()],
        &vec![Err(Error::new("ignored"))],
    )
    .unwrap();
    assert!(!converged);
    assert_eq!(rows.len(), 2);
    assert_eq!(rows[0].state, "not-applied");
    assert_eq!((rows[1].state, rows[1].name.as_str()), ("installed-without-config", "Left"));

    assert_eq!(
        report(&vec![applied.clone()], &vec![applied], &vec![Err(Error::new("semodule"))])
            .unwrap_err()
            .message,
        "semodule"
    );
    let (rows, converged) = report(&Vec::new(), &Vec::new(), &Vec::new()).unwrap();
    assert!(rows.is_empty() && converged);
}

#[test]
fn validates_before_it_reports_and_supervises() {
    let wanted = profile(FIRST, "P", "/opt/a/bin", &["/var/lib/a"]);
    let findings = vec![as_written(&wanted)];
    let (rows, _) =
        status(vec![wanted.clone()], &Vec::new(), &findings, &vec![Ok(true)]).unwrap();
    assert_eq!(rows[0].state, "not-applied");
    let lines = supervision_profiles(vec![wanted.clone()], Vec::new(), &findings).unwrap();
    assert!(lines[0].desired && !lines[0].applied);

    let lost = vec![Findings {
        executable: missing(),
        directories: vec![missing()],
    }];
    assert!(status(vec![wanted.clone()], &Vec::new(), &lost, &vec![Ok(true)]).is_err());
    assert!(supervision_profiles(vec![wanted.clone()], Vec::new(), &lost).is_err());
    assert!(apply_profiles(vec![wanted.clone()], &Vec::new(), &lost).is_err());
    assert!(validate_desired_profiles(vec![wanted.clone()], None, &lost).is_err());
    assert!(validate_profiles_with_applied(vec![wanted.clone()], &Vec::new(), &lost).is_err());

    let stored = vec![StoredState {
        path: state_path(wanted.id),
        unread: None,
        state: Ok(wanted.clone()),
    }];
    let hidden = vec![Findings {
        executable: program("/ignored"),
        directories: vec![missing()],
    }];
    assert_eq!(
        validate_desired_profiles(vec![wanted.clone()], Some(stored), &hidden).unwrap(),
        vec![wanted]
    );
}

#[test]
fn names_what_is_wrong_with_a_snapshot() {
    let valid = profile(FIRST, "P", "/opt/a/bin", &["/var/lib/a"]);
    let none = || Err(Error::new("no legacy state"));
    assert_eq!(deserialize_state(Ok(snapshot(&valid)), none()).unwrap(), valid);
    let newer = AppliedState {
        state_schema_version: 2,
        profile: valid.clone(),
    };
    assert_eq!(
        deserialize_state(Ok(newer), none()).unwrap_err().message,
        "Unsupported applied-state schema version 2"
    );
    let mut broken = valid.clone();
    broken.launch_role = "role".into();
    assert!(deserialize_state(Ok(snapshot(&broken)), none()).is_err());
    assert_eq!(
        deserialize_state(Err(Error::new("bad JSON")), none()).unwrap_err().message,
        "Invalid current state (bad JSON) and invalid legacy state: no legacy state"
    );
    assert!(check_state_size("/p", MAX_STATE_SIZE).is_ok());
    assert_eq!(
        check_state_size("/p", MAX_STATE_SIZE + 1).unwrap_err().message,
        "Stored profile /p exceeds the 1 MiB limit"
    );
}

#[test]
fn only_finished_snapshots_are_taken_for_state() {
    let id = parse_id(FIRST).unwrap();
    assert_eq!(state_path(id), format!("/var/lib/microvisor/profiles/{FIRST}.json"));
    assert_eq!(
        temporary_state_path(id),
        format!("/var/lib/microvisor/profiles/{FIRST}.json.tmp")
    );
    assert!(is_state_file(&state_path(id)));
    assert!(!is_state_file(&temporary_state_path(id)));
}

#[test]
fn loads_snapshots_in_order_and_stops_at_the_first_error() {
    let first = profile(FIRST, "First", "/opt/a/bin", &["/var/lib/a"]);
    let second = profile(SECOND, "Second", "/opt/b/bin", &["/var/lib/b"]);
    let stored = |profile: &ProtectionProfile| StoredState {
        path: state_path(profile.id),
        unread: None,
        state: Ok(profile.clone()),
    };
    assert_eq!(
        load_all_states(vec![stored(&second), stored(&first)]).unwrap(),
        vec![first.clone(), second.clone()]
    );
    let unread = StoredState {
        path: "/s/a.json".into(),
        unread: Some(Error::new("denied")),
        state: Ok(first.clone()),
    };
    let invalid = StoredState {
        path: "/s/b.json".into(),
        unread: None,
        state: Err(Error::new("bad")),
    };
    assert_eq!(load_all_states(vec![unread, invalid]).unwrap_err().message, "denied");
    let invalid = StoredState {
        path: "/s/b.json".into(),
        unread: None,
        state: Err(Error::new("bad")),
    };
    assert_eq!(
        load_all_states(vec![stored(&first), invalid]).unwrap_err().message,
        "Stored profile /s/b.json is invalid: bad"
    );

    assert!(load_state_optional(Ok(false), stored(&first)).unwrap().is_none());
    assert_eq!(load_state_optional(Ok(true), stored(&first)).unwrap().unwrap(), first);
    assert_eq!(
        load_state_optional(Err(Error::new("stat")), stored(&first)).unwrap_err().message,
        "stat"
    );
    let unread = StoredState {
        path: "/s/a.json".into(),
        unread: Some(Error::new("denied")),
        state: Ok(first),
    };
    assert_eq!(
        load_state_optional(Ok(true), unread).unwrap_err().message,
        "Could not read stored profile /s/a.json: denied"
    );
}

#[test]
fn reads_the_listings_of_the_system() {
    let modules = "microvisor_a\t1.0\n\nother_module\n  indented 2\n";
    assert!(module_exists(modules, "microvisor_a"));
    assert!(module_exists(modules, "indented"));
    assert!(!module_exists(modules, "microvisor"));
    assert!(!module_exists(modules, "1.0"));
    let rules = "SELinux fcontext  type  Context\n\n  /var/lib/a(/.*)?   all files  x:y:z\n/b\n";
    assert!(fcontext_rule_exists(rules, "/var/lib/a(/.*)?"));
    assert!(!fcontext_rule_exists(rules, "/var/lib/a"));
    assert!(!fcontext_rule_exists(rules, "/b"));
}

/// A system that answers commands, and can be told to fail one of them.
struct System {
    modules: BTreeSet<String>,
    rules: BTreeMap<String, String>,
    log: Vec<String>,
    failing: Option<String>,
}

impl System {
    fn new() -> Self {
        System {
            modules: BTreeSet::new(),
            rules: BTreeMap::new(),
            log: Vec::new(),
            failing: None,
        }
    }

    fn run(&mut self, command: &Invocation) -> Result<Output, Error> {
        let line = format!("{} {}", command.program, command.arguments.join(" "));
        if self.failing.as_deref() == Some(line.as_str()) {
            return Ok(Output {
                success: false,
                stdout: Vec::new(),
                stderr: b"failed".to_vec(),
            });
        }
        let arguments: Vec<&str> = command.arguments.iter().map(String::as_str).collect();
        let mut stdout = String::new();
        match (command.program.as_str(), arguments.as_slice()) {
            ("semodule", ["-l"]) => {
                for module in &self.modules {
                    stdout.push_str(&format!("{module}\n"));
                }
            }
            ("semodule", ["-i", path]) => {
                let name = path.rsplit('/').next().unwrap();
                self.modules.insert(name.split('.').next().unwrap().to_owned());
                self.log.push(line);
            }
            ("semodule", ["-r", module]) => {
                assert!(self.modules.remove(*module));
                self.log.push(line);
            }
            ("semanage", ["fcontext", "-l", "-C"]) => {
                for (regex, label) in &self.rules {
                    stdout.push_str(&format!("{regex}  all files  {label}\n"));
                }
            }
            ("semanage", ["fcontext", "-a", rest @ ..]) => {
                self.rules
                    .insert(rest[rest.len() - 1].to_owned(), rest[rest.len() - 2].to_owned());
                self.log.push(line);
            }
            ("semanage", ["fcontext", "-d", rest @ ..]) => {
                assert!(self.rules.remove(rest[rest.len() - 1]).is_some());
                self.log.push(line);
            }
            ("restorecon", _) => self.log.push(line),
            _ => panic!("unexpected command {line}"),
        }
        Ok(Output {
            success: true,
            stdout: stdout.into_bytes(),
            stderr: Vec::new(),
        })
    }

    fn follow(&mut self, mut procedure: Procedure) -> Result<(), Error> {
        loop {
            match procedure.status() {
                Status::Over(result) => return result,
                Status::Waiting(Question::Exists(_)) => procedure.advance(Answer::Exists(true)),
                Status::Waiting(Question::Run(command)) => {
                    let ran = self.run(&command);
                    procedure.advance(Answer::Ran(ran));
                }
            }
        }
    }

    fn observe(&mut self, profile: &ProtectionProfile) -> Result<bool, Error> {
        let mut inspection = Inspection::new(profile);
        loop {
            match inspection.status() {
                Progress::Over(result) => return result,
                Progress::Waiting(command) => {
                    let ran = self.run(&command);
                    inspection.advance(ran);
                }
            }
        }
    }
}

fn example() -> ProtectionProfile {
    let mut profile = profile(FIRST, "Example", "/opt/app/run", &["/var/lib/app", "/srv/app/data"]);
    profile.id = 1;
    profile
}

#[test]
fn installs_and_removes_in_the_safe_order() {
    let profile = example();
    let module = "microvisor_00000000000000000000000000000001";
    let mut system = System::new();
    system.follow(Procedure::new(install_steps(&profile, "/work"))).unwrap();
    assert_eq!(
        system.log,
        vec![
            format!("semodule -i /work/{module}.pp"),
            format!("semanage fcontext -a -f f -t {module}_exec_t /opt/app/run"),
            "restorecon -v /opt/app/run".to_owned(),
            format!("semanage fcontext -a -t {module}_data_t /var/lib/app(/.*)?"),
            "restorecon -RFv /var/lib/app".to_owned(),
            format!("semanage fcontext -a -t {module}_data_t /srv/app/data(/.*)?"),
            "restorecon -RFv /srv/app/data".to_owned(),
            format!("semodule -i /work/{module}_deny.cil"),
        ]
    );
    assert!(system.observe(&profile).unwrap());

    system.log.clear();
    system.follow(Procedure::new(teardown_steps(&profile))).unwrap();
    assert_eq!(
        system.log,
        vec![
            format!("semodule -r {module}_deny"),
            "semanage fcontext -d -f f /opt/app/run".to_owned(),
            "restorecon -v /opt/app/run".to_owned(),
            "semanage fcontext -d /var/lib/app(/.*)?".to_owned(),
            "restorecon -RFv /var/lib/app".to_owned(),
            "semanage fcontext -d /srv/app/data(/.*)?".to_owned(),
            "restorecon -RFv /srv/app/data".to_owned(),
            format!("semodule -r {module}"),
        ]
    );
    assert!(!system.observe(&profile).unwrap());
}

#[test]
fn removal_undoes_an_installation_that_stopped_anywhere() {
    let profile = example();
    let total = install_steps(&profile, "/work").len();
    for count in 0..=total {
        let mut system = System::new();
        system.modules.insert("base".into());
        system.rules.insert("/other".into(), "other_t".into());
        let mut steps = install_steps(&profile, "/work");
        steps.truncate(count);
        system.follow(Procedure::new(steps)).unwrap();
        system.follow(Procedure::new(teardown_steps(&profile))).unwrap();
        assert_eq!(system.modules.iter().collect::<Vec<_>>(), vec!["base"]);
        assert_eq!(system.rules.len(), 1);
    }
}

#[test]
fn failures_stop_procedures_and_name_the_step() {
    let profile = example();
    let mut system = System::new();
    system.failing = Some("restorecon -RFv /var/lib/app".into());
    assert_eq!(
        system
            .follow(Procedure::new(install_steps(&profile, "/work")))
            .unwrap_err()
            .message,
        "Could not label /var/lib/app: failed"
    );
    assert_eq!(system.log.len(), 4);
    assert!(!system.modules.iter().any(|name| name.ends_with("_deny")));
    assert_eq!(
        system.follow(Procedure::new(teardown_steps(&profile))).unwrap_err().message,
        "Could not restore labels below /var/lib/app: failed"
    );
    assert!(!system.modules.is_empty());
    system.failing = Some("semodule -l".into());
    assert_eq!(
        system.follow(Procedure::new(teardown_steps(&profile))).unwrap_err().message,
        "failed"
    );
    assert_eq!(system.observe(&profile).unwrap_err().message, "failed");
}

#[test]
fn refuses_to_overwrite_what_is_not_its_own() {
    let profile = example();
    let ids = profile.identifiers();
    let mut system = System::new();
    let check = |system: &mut System, previous: Option<&ProtectionProfile>| {
        system.follow(Procedure::new(preflight_steps(&profile, previous).unwrap()))
    };
    assert!(check(&mut system, None).is_ok());
    system.modules.insert(ids.deny_module.clone());
    assert_eq!(
        check(&mut system, None).unwrap_err().message,
        format!(
            "SELinux module '{}' already exists but is not owned by the active Microvisor \
             transaction",
            ids.deny_module
        )
    );
    assert!(check(&mut system, Some(&profile)).is_ok());
    system.rules.insert("/srv/app/data(/.*)?".into(), "foreign_t".into());
    assert!(check(&mut system, Some(&profile)).is_ok());
    let mut previous = profile.clone();
    previous.data_directories = vec!["/var/lib/app".into()];
    assert_eq!(
        check(&mut system, Some(&previous)).unwrap_err().message,
        "A local SELinux file-context rule already exists for '/srv/app/data(/.*)?'. \
         Microvisor will not overwrite it"
    );
}

fn describe(act: &Act) -> String {
    match act {
        Act::Teardown(profile) => format!("teardown {}", profile.name),
        Act::Prepare(profile) => format!("prepare {}", profile.name),
        Act::Install(profile) => format!("install {}", profile.name),
        Act::Save(profile) => format!("save {}", profile.name),
        Act::RemoveState(id) => format!("forget {id}"),
        Act::RemoveTemporary(id) => format!("untemp {id}"),
    }
}

/// Runs a transaction in which the acts at some places fail.
fn transact(previous: bool, failing: &[usize]) -> (Vec<String>, Result<(), String>) {
    let mut new = example();
    new.name = "new".into();
    let mut old = example();
    old.name = "old".into();
    let mut transaction = Transaction::new(new, previous.then_some(old));
    let mut log = Vec::new();
    while let Some(act) = transaction.next() {
        let reply = if failing.contains(&log.len()) {
            Err(Error::new(&format!("e{}", log.len())))
        } else {
            Ok(())
        };
        log.push(describe(&act));
        transaction = transaction.advance(reply);
    }
    match transaction.stage {
        Stage::Over(result) => (log, result.map_err(|error| error.message)),
        _ => panic!("not over"),
    }
}

#[test]
fn transactions_commit_or_roll_back() {
    assert_eq!(
        transact(false, &[]),
        (vec!["install new".to_owned(), "save new".to_owned()], Ok(()))
    );
    let (log, result) = transact(true, &[]);
    assert_eq!(log, vec!["teardown old", "install new", "save new"]);
    assert!(result.is_ok());

    let (log, result) = transact(false, &[0]);
    assert_eq!(log, vec!["install new", "untemp 1", "teardown new"]);
    assert_eq!(result.unwrap_err(), "e0");

    let (log, result) = transact(true, &[2]);
    assert_eq!(
        log,
        vec![
            "teardown old",
            "install new",
            "save new",
            "untemp 1",
            "teardown new",
            "prepare old",
            "install old",
            "save old",
        ]
    );
    assert_eq!(result.unwrap_err(), "e2");

    let (_, result) = transact(true, &[1, 2, 3, 4]);
    assert_eq!(
        result.unwrap_err(),
        "e1; cleanup also failed: e3; restoring the previous profile also failed: e4"
    );
}

#[test]
fn a_previous_version_that_cannot_be_removed_is_restored() {
    let (log, result) = transact(true, &[0]);
    assert_eq!(
        log,
        vec!["teardown old", "teardown old", "prepare old", "install old", "save old"]
    );
    assert_eq!(
        result.unwrap_err(),
        "Could not remove the previous policy; the previous snapshot was restored: e0"
    );
    let (_, result) = transact(true, &[0, 3]);
    assert_eq!(
        result.unwrap_err(),
        "Could not remove the previous policy, and recovery also failed: e3: e0"
    );
}

fn roll_back(failing: &[usize]) -> (Vec<String>, Result<(), String>) {
    let named = |id: u128, name: &str| {
        let mut profile = example();
        profile.id = id;
        profile.name = name.into();
        profile
    };
    let mut rollback = Rollback::new(vec![
        Replacement {
            current: named(1, "a2"),
            previous: Some(named(1, "a1")),
        },
        Replacement {
            current: named(2, "b"),
            previous: None,
        },
    ]);
    let mut log = Vec::new();
    while let Some(act) = rollback.next() {
        let reply = if failing.contains(&log.len()) {
            Err(Error::new(&format!("e{}", log.len())))
        } else {
            Ok(())
        };
        log.push(describe(&act));
        rollback.advance(reply);
    }
    (log, rollback.conclude().map_err(|error| error.message))
}

#[test]
fn takes_back_the_last_profile_first() {
    let (log, result) = roll_back(&[]);
    assert_eq!(
        log,
        vec![
            "teardown b",
            "forget 2",
            "teardown a2",
            "forget 1",
            "prepare a1",
            "install a1",
            "save a1",
        ]
    );
    assert!(result.is_ok());
    let (log, result) = roll_back(&[0, 4]);
    assert_eq!(
        log,
        vec!["teardown b", "teardown a2", "forget 1", "prepare a1", "install a1"]
    );
    assert_eq!(
        result.unwrap_err(),
        "could not remove 00000000-0000-0000-0000-000000000002: e0; \
         could not restore 00000000-0000-0000-0000-000000000001: e4"
    );
    let (_, result) = roll_back(&[1]);
    assert_eq!(
        result.unwrap_err(),
        "could not remove 00000000-0000-0000-0000-000000000002: e1"
    );
}

/// Runs a batch of two profiles, of which some are applied and in force, and one may fail.
fn run_batch(
    snapshots: [Option<ProtectionProfile>; 2],
    in_force: bool,
    failing: Option<&str>,
) -> (Vec<String>, Result<usize, String>) {
    let first = profile(FIRST, "a", "/opt/a/bin", &["/var/lib/a"]);
    let second = profile(SECOND, "b", "/opt/b/bin", &["/var/lib/b"]);
    let findings = vec![as_written(&first), as_written(&second)];
    let mut batch: Batch = apply_profiles(vec![first, second], &Vec::new(), &findings).unwrap();
    let mut log = Vec::new();
    while let Some(act) = batch.next() {
        let line = match &act {
            BatchAct::Prepare(index) => format!("prepare {index}"),
            BatchAct::Load(index) => format!("load {index}"),
            BatchAct::Preflight(index, previous) => {
                format!("preflight {index} {}", previous.is_some())
            }
            BatchAct::Observe(index) => format!("observe {index}"),
            BatchAct::Replace(index, previous) => {
                format!("replace {index} {}", previous.is_some())
            }
            BatchAct::RollBack => format!("roll back {}", batch.completed.len()),
        };
        let failed = failing == Some(line.as_str());
        let done = || {
            if failed {
                Err(Error::new("failed"))
            } else {
                Ok(())
            }
        };
        let reply = match act {
            BatchAct::Load(index) => {
                BatchReply::Loaded(done().map(|()| snapshots[index].clone()))
            }
            BatchAct::Observe(_) => BatchReply::Observed(done().map(|()| in_force)),
            _ => BatchReply::Done(done()),
        };
        log.push(line);
        batch = batch.advance(reply);
    }
    match batch.stage {
        BatchStage::Over(result) => (log, result.map_err(|error| error.message)),
        _ => panic!("not over"),
    }
}

#[test]
fn batches_check_everything_before_they_change_anything() {
    let (log, result) = run_batch([None, None], true, None);
    assert_eq!(
        log,
        vec![
            "prepare 0",
            "prepare 1",
            "load 0",
            "preflight 0 false",
            "load 1",
            "preflight 1 false",
            "load 0",
            "replace 0 false",
            "load 1",
            "replace 1 false",
        ]
    );
    assert_eq!(result, Ok(2));
    for step in ["prepare 1", "load 1", "preflight 1 false"] {
        let (log, result) = run_batch([None, None], true, Some(step));
        assert_eq!(result, Err("failed".to_owned()));
        assert!(!log.iter().any(|line| line.starts_with("replace")));
    }
}

#[test]
fn applying_twice_changes_nothing() {
    let first = profile(FIRST, "a", "/opt/a/bin", &["/var/lib/a"]);
    let second = profile(SECOND, "b", "/opt/b/bin", &["/var/lib/b"]);
    let (log, result) = run_batch([Some(first.clone()), Some(second.clone())], true, None);
    assert_eq!(result, Ok(0));
    assert!(!log.iter().any(|line| line.starts_with("replace")));
    let (log, result) = run_batch([Some(first), Some(second)], false, None);
    assert_eq!(result, Ok(2));
    assert!(log.contains(&"replace 1 true".to_owned()));
}

#[test]
fn failed_batches_take_back_what_they_replaced() {
    let (log, result) = run_batch([None, None], true, Some("replace 1 false"));
    assert_eq!(log.last().unwrap(), "roll back 1");
    assert_eq!(result, Err("failed".to_owned()));

    let ready = || {
        let mut batch = Batch::new(vec![example()]);
        for reply in [
            BatchReply::Done(Ok(())),
            BatchReply::Loaded(Ok(None)),
            BatchReply::Done(Ok(())),
        ] {
            batch = batch.advance(reply);
        }
        batch
    };
    let batch = ready().advance(BatchReply::Loaded(Err(Error::new("unreadable"))));
    assert!(matches!(batch.next(), Some(BatchAct::RollBack)));
    let batch = batch.advance(BatchReply::Done(Ok(())));
    assert!(matches!(batch.stage, BatchStage::Over(Err(error)) if error.message == "unreadable"));
    let batch = ready()
        .advance(BatchReply::Loaded(Ok(Some(example()))))
        .advance(BatchReply::Observed(Err(Error::new("semodule"))));
    assert!(matches!(batch.next(), Some(BatchAct::RollBack)));
    let batch = batch.advance(BatchReply::Done(Ok(())));
    assert!(matches!(batch.stage, BatchStage::Over(Err(error)) if error.message == "semodule"));

    let mut batch = Batch::new(vec![example()]);
    for reply in [
        BatchReply::Done(Ok(())),
        BatchReply::Loaded(Ok(None)),
        BatchReply::Done(Ok(())),
        BatchReply::Loaded(Ok(None)),
        BatchReply::Done(Err(Error::new("no"))),
        BatchReply::Done(Err(Error::new("stuck"))),
    ] {
        batch = batch.advance(reply);
    }
    match batch.stage {
        BatchStage::Over(Err(error)) => assert_eq!(
            error.message,
            "Rolling back earlier profiles also failed: stuck: no"
        ),
        _ => panic!("not over"),
    }
    assert!(Batch::new(Vec::new()).next().is_none());
}

#[test]
fn removes_what_the_snapshot_says() {
    match remove_profile(Ok(None)) {
        RemovalStage::Over(Ok(removed)) => assert!(!removed),
        _ => panic!("nothing to remove"),
    }
    assert!(matches!(
        remove_profile(Err(Error::new("bad"))),
        RemovalStage::Over(Err(_))
    ));
    let stage = remove_profile(Ok(Some(example())));
    match &stage {
        RemovalStage::TearingDown(profile) => assert_eq!(profile.name, "Example"),
        _ => panic!("not begun"),
    }
    let stage = stage.advance(Ok(()));
    assert!(matches!(stage, RemovalStage::Forgetting));
    assert!(matches!(stage.advance(Ok(())), RemovalStage::Over(Ok(true))));
    let stage = remove_profile(Ok(Some(example()))).advance(Err(Error::new("busy")));
    match stage {
        RemovalStage::Over(Err(error)) => assert_eq!(error.message, "busy"),
        _ => panic!("not over"),
    }
}

/// A system with snapshots, on which batches are run.
struct Machine {
    system: System,
    snapshots: BTreeMap<u128, ProtectionProfile>,
}

impl Machine {
    fn new() -> Self {
        Machine {
            system: System::new(),
            snapshots: BTreeMap::new(),
        }
    }

    fn perform(&mut self, act: Act) -> Result<(), Error> {
        match act {
            Act::Teardown(profile) => self.system.follow(Procedure::new(teardown_steps(&profile))),
            Act::Prepare(_) => Ok(()),
            Act::Install(profile) => {
                self.system.follow(Procedure::new(install_steps(&profile, "/work")))
            }
            Act::Save(profile) => {
                self.snapshots.insert(profile.id, profile);
                Ok(())
            }
            Act::RemoveState(id) => {
                self.snapshots.remove(&id);
                Ok(())
            }
            Act::RemoveTemporary(_) => Ok(()),
        }
    }

    fn replace(
        &mut self,
        profile: ProtectionProfile,
        previous: Option<ProtectionProfile>,
    ) -> Result<(), Error> {
        let mut transaction = Transaction::new(profile, previous);
        while let Some(act) = transaction.next() {
            let reply = self.perform(act);
            if reply.is_err() {
                self.system.failing = None;
            }
            transaction = transaction.advance(reply);
        }
        match transaction.stage {
            Stage::Over(result) => result,
            _ => panic!("not over"),
        }
    }

    fn apply(&mut self, profiles: Vec<ProtectionProfile>) -> Result<usize, Error> {
        let applied: Vec<ProtectionProfile> = self.snapshots.values().cloned().collect();
        let findings = profiles.iter().map(as_written).collect();
        let mut batch = apply_profiles(profiles, &applied, &findings)?;
        while let Some(act) = batch.next() {
            let reply = match act {
                BatchAct::Prepare(_) => BatchReply::Done(Ok(())),
                BatchAct::Load(index) => {
                    let id = batch.profiles[index].id;
                    BatchReply::Loaded(Ok(self.snapshots.get(&id).cloned()))
                }
                BatchAct::Preflight(index, previous) => {
                    let steps = preflight_steps(&batch.profiles[index], previous.as_ref());
                    BatchReply::Done(self.system.follow(Procedure::new(steps.unwrap())))
                }
                BatchAct::Observe(index) => {
                    BatchReply::Observed(self.system.observe(&batch.profiles[index]))
                }
                BatchAct::Replace(index, previous) => {
                    BatchReply::Done(self.replace(batch.profiles[index].clone(), previous))
                }
                BatchAct::RollBack => {
                    let completed = batch
                        .completed
                        .iter()
                        .map(|item| Replacement {
                            current: item.current.clone(),
                            previous: item.previous.clone(),
                        })
                        .collect();
                    let mut rollback = Rollback::new(completed);
                    while let Some(act) = rollback.next() {
                        let reply = self.perform(act);
                        rollback.advance(reply);
                    }
                    BatchReply::Done(rollback.conclude())
                }
            };
            batch = batch.advance(reply);
        }
        match batch.stage {
            BatchStage::Over(result) => result,
            _ => panic!("not over"),
        }
    }
}

#[test]
fn failed_batches_leave_the_system_as_it_was() {
    let first = profile(FIRST, "a", "/opt/a/bin", &["/var/lib/a"]);
    let second = profile(SECOND, "b", "/opt/b/bin", &["/var/lib/b", "/srv/b/data"]);
    let mut changed = first.clone();
    changed.data_directories = vec!["/var/lib/changed".into()];

    let mut machine = Machine::new();
    assert_eq!(machine.apply(vec![first.clone()]).unwrap(), 1);
    assert_eq!(machine.apply(vec![first.clone()]).unwrap(), 0);
    let modules = machine.system.modules.clone();
    let rules = machine.system.rules.clone();
    let snapshots: Vec<ProtectionProfile> = machine.snapshots.values().cloned().collect();

    for failing in [
        "semodule -i /work/microvisor_aaaaaaaabbbb4ccc8dddeeeeeeeeeeee.pp",
        "restorecon -v /opt/b/bin",
        "restorecon -RFv /srv/b/data",
        "semodule -i /work/microvisor_aaaaaaaabbbb4ccc8dddeeeeeeeeeeee_deny.cil",
    ] {
        machine.system.failing = Some(failing.into());
        assert!(machine.apply(vec![changed.clone(), second.clone()]).is_err());
        assert_eq!(machine.system.modules, modules);
        assert_eq!(machine.system.rules, rules);
        let kept: Vec<ProtectionProfile> = machine.snapshots.values().cloned().collect();
        assert_eq!(kept, snapshots);
        assert!(machine.system.observe(&first).unwrap());
    }

    machine.system.failing = None;
    assert_eq!(machine.apply(vec![changed.clone(), second.clone()]).unwrap(), 2);
    assert!(machine.system.observe(&changed).unwrap());
    assert!(machine.system.observe(&second).unwrap());
    assert!(!machine.system.observe(&first).unwrap());

    let removed = machine.snapshots[&second.id].clone();
    machine.perform(Act::Teardown(removed)).unwrap();
    machine.perform(Act::RemoveState(second.id)).unwrap();
    assert!(machine.system.observe(&changed).unwrap());
    assert!(!machine.system.modules.iter().any(|name| name.contains("aaaaaaaa")));
    assert_eq!(machine.snapshots.len(), 1);
}

#[test]
fn missing_programs_are_reported_as_such() {
    let profile = example();
    let mut procedure = Procedure::new(install_steps(&profile, "/work"));
    procedure.advance(Answer::Missing(Error::new("Command not found")));
    match procedure.status() {
        Status::Over(Err(error)) => assert_eq!(error.message, "Command not found"),
        _ => panic!("not over"),
    }
    let mut procedure = Procedure::new(install_steps(&profile, "/work"));
    procedure.advance(Answer::Ran(Err(Error::new("Permission denied"))));
    match procedure.status() {
        Status::Over(Err(error)) => assert_eq!(
            error.message,
            "Could not install the SELinux type-enforcement module: Permission denied"
        ),
        _ => panic!("not over"),
    }
}

#[test]
fn a_later_profile_that_cannot_be_looked_at_takes_back_the_earlier_ones() {
    let first = profile(FIRST, "a", "/opt/a/bin", &["/var/lib/a"]);
    let second = profile(SECOND, "b", "/opt/b/bin", &["/var/lib/b"]);
    let findings = vec![as_written(&first), as_written(&second)];
    let mut batch =
        apply_profiles(vec![first, second.clone()], &Vec::new(), &findings).unwrap();
    for reply in [
        BatchReply::Done(Ok(())),
        BatchReply::Done(Ok(())),
        BatchReply::Loaded(Ok(None)),
        BatchReply::Done(Ok(())),
        BatchReply::Loaded(Ok(Some(second.clone()))),
        BatchReply::Done(Ok(())),
        BatchReply::Loaded(Ok(None)),
        BatchReply::Done(Ok(())),
        BatchReply::Loaded(Ok(Some(second))),
        BatchReply::Observed(Err(Error::new("semanage"))),
    ] {
        batch = batch.advance(reply);
    }
    assert!(matches!(batch.next(), Some(BatchAct::RollBack)));
    assert_eq!(batch.completed.len(), 1);
}

#[test]
fn the_order_of_profiles_does_not_matter() {
    let first = profile(FIRST, "a", "/opt/a/bin", &["/var/lib/a"]);
    let second = profile(SECOND, "b", "/opt/b/bin", &["/var/lib/b"]);
    let forward = validate_profiles(
        vec![first.clone(), second.clone()],
        &vec![as_written(&first), as_written(&second)],
    );
    let backward = validate_profiles(
        vec![second.clone(), first.clone()],
        &vec![as_written(&second), as_written(&first)],
    );
    assert_eq!(forward.unwrap(), backward.unwrap());

    let mut changed = first.clone();
    changed.name = "changed".into();
    let show = |desired: Vec<ProtectionProfile>, applied: Vec<ProtectionProfile>| {
        merge_supervision_profiles(desired, applied)
            .into_iter()
            .map(|line| (line.profile.name, line.applied, line.desired))
            .collect::<Vec<_>>()
    };
    let expected = vec![
        ("a".to_owned(), true, false),
        ("changed".to_owned(), false, true),
        ("b".to_owned(), true, true),
    ];
    assert_eq!(
        show(vec![changed.clone(), second.clone()], vec![first.clone(), second.clone()]),
        expected
    );
    assert_eq!(
        show(vec![second.clone(), changed], vec![second, first]),
        expected
    );
}

#[test]
fn snapshots_are_written_next_to_their_place_first() {
    let id = parse_id(FIRST).unwrap();
    let acts: Vec<String> = save_state(id, b"state".to_vec())
        .into_iter()
        .map(|act| match act {
            SaveAct::Create { path, mode } => format!("create {path} {mode:o}"),
            SaveAct::Write { path, contents } => format!("write {path} {}", contents.len()),
            SaveAct::Sync { path } => format!("sync {path}"),
            SaveAct::Secure { path, mode } => format!("secure {path} {mode:o}"),
            SaveAct::Rename { from, to } => format!("rename {from} {to}"),
            SaveAct::SyncDirectory { path } => format!("sync directory {path}"),
        })
        .collect();
    let temporary = temporary_state_path(id);
    assert_eq!(
        acts,
        vec![
            format!("create {temporary} 600"),
            format!("write {temporary} 5"),
            format!("sync {temporary}"),
            format!("secure {temporary} 600"),
            format!("rename {temporary} {}", state_path(id)),
            "sync directory /var/lib/microvisor/profiles".to_owned(),
        ]
    );
}

#[test]
fn profiles_that_were_applied_are_found_again() {
    let desired = profile(FIRST, "a", "/usr/bin/link", &["/var/lib/z/data", "/link/to/data"]);
    let seen = |hidden: bool| Findings {
        executable: program("/opt/a/run"),
        directories: vec![
            if hidden { missing() } else { folder("/var/lib/z/data") },
            folder("/home/user/data"),
        ],
    };
    let first = validate_profiles(vec![desired.clone()], &vec![seen(false)]).unwrap();
    let again = validate_profiles_with_applied(vec![desired], &first, &vec![seen(true)]).unwrap();
    assert_eq!(again, first);
    assert_eq!(again[0].data_directories, vec!["/home/user/data", "/var/lib/z/data"]);
}
