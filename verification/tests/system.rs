//! Files, commands, the environment and the reference policy.

use microvisor::build_config::{
    accept_build_number, parse_build_number, parse_policy_build_config, parse_yes_no,
    split_make_assignment, validate_build_token, PolicyBuildConfig,
};
use microvisor::command::{
    checked, command_candidates, command_environment, find_command, Invocation, Output,
};
use microvisor::compile::{
    check_expansion, compile_type_enforcement, define_interfaces, source_steps, wrap_interfaces,
    BuildStep, MAX_GENERATED_POLICY_SIZE,
};
use microvisor::environment::{
    check_enforcement, enforcement_query, ensure_enforcement, ensure_selinux_userspace_version,
    judge_version, parse_major_minor, require_command, require_root, requirements, version_query,
    Purpose, Requirement,
};
use microvisor::error::Error;
use microvisor::files::{
    check_lock_file, check_runtime_directory, check_state_directory, check_state_file,
    validate_config_file, validate_policy_directory, validate_policy_file, FileFacts,
    MAX_POLICY_SOURCE_SIZE,
};
use microvisor::helper::helper_version_query;
use microvisor::model::ProtectionProfile;
use microvisor::policy::{render_deny_cil, render_type_enforcement};
use microvisor::sources::{
    collect_policy_files, policy_source_files, Entry, Layer, Listing, PolicySources, PolicyTree,
};
use microvisor::text::{characters, to_text};

fn file(mode: u32) -> FileFacts {
    FileFacts {
        symlink: false,
        directory: false,
        file: true,
        uid: 0,
        links: 1,
        mode,
        len: 10,
    }
}

fn directory(mode: u32) -> FileFacts {
    FileFacts {
        symlink: false,
        directory: true,
        file: false,
        uid: 0,
        links: 2,
        mode,
        len: 0,
    }
}

fn output(success: bool, stdout: &str, stderr: &str) -> Result<Output, Error> {
    Ok(Output {
        success,
        stdout: stdout.as_bytes().to_vec(),
        stderr: stderr.as_bytes().to_vec(),
    })
}

#[test]
fn parses_fedora_libsepol_versions() {
    assert_eq!(parse_major_minor("3.6"), Some((3, 6)));
    assert_eq!(parse_major_minor("3.10"), Some((3, 10)));
    assert_eq!(parse_major_minor("3.10.1"), Some((3, 10)));
}

#[test]
fn rejects_non_version_tokens() {
    assert_eq!(parse_major_minor("libsepol"), None);
    assert_eq!(parse_major_minor("3"), None);
}

#[test]
fn parses_reference_policy_build_settings_without_make() {
    let config = parse_policy_build_config(
        r#"
                TYPE ?= mcs
                DISTRO ?= redhat
                DIRECT_INITRC ?= n
                override UBAC := n
                override MLS_SENS := 16
                override MLS_CATS := 1024
                override MCS_CATS := 2048
            "#,
    )
    .unwrap();
    assert_eq!(
        config,
        PolicyBuildConfig {
            policy_type: "mcs".into(),
            distribution: Some("redhat".into()),
            direct_initrc: false,
            ubac: false,
            mls_sensitivities: 16,
            mls_categories: 1024,
            mcs_categories: 2048,
        }
    );
    assert!(config.uses_mls_symbols());
    assert!(config.m4_arguments().contains(&"enable_mcs".into()));
    assert!(config.m4_arguments().contains(&"distro_redhat".into()));
}

#[test]
fn rejects_unsafe_reference_policy_build_settings() {
    assert!(parse_policy_build_config("DISTRO ?= redhat;touch_bad").is_err());
    assert!(parse_policy_build_config("TYPE ?= unexpected").is_err());
    assert!(parse_policy_build_config("MCS_CATS ?= 0").is_err());
    assert!(parse_policy_build_config("UBAC ?= maybe").is_err());
}

#[test]
fn names_what_is_wrong_with_build_settings() {
    for (text, message) in [
        ("TYPE = odd", "Unsupported SELinux policy type 'odd'"),
        (
            "DISTRO = red hat",
            "SELinux policy distribution contains unsupported characters",
        ),
        ("UBAC = yes", "SELinux build setting UBAC must be 'y' or 'n'"),
        (
            "DIRECT_INITRC =",
            "SELinux build setting DIRECT_INITRC must be 'y' or 'n'",
        ),
        (
            "MLS_SENS = many",
            "SELinux build setting MLS_SENS must be a number: invalid digit found in string",
        ),
        (
            "MLS_CATS = 65537",
            "SELinux build setting MLS_CATS is outside the supported range",
        ),
    ] {
        assert_eq!(parse_policy_build_config(text).unwrap_err().message, message);
    }
    let long = format!("DISTRO = {}", "a".repeat(65));
    assert!(parse_policy_build_config(&long).is_err());
}

#[test]
fn later_build_settings_replace_earlier_ones() {
    let config = parse_policy_build_config(
        "# TYPE = mls\nTYPE = mls # comment\nUNKNOWN = x\nnothing\nDISTRO = a_1\nDISTRO =\n\
         UBAC = y\r\nDIRECT_INITRC := y\nMLS_SENS = +8\nTYPE ?= standard\n",
    )
    .unwrap();
    assert_eq!(config.policy_type, "standard");
    assert_eq!(config.distribution, None);
    assert!(config.ubac && config.direct_initrc);
    assert_eq!(config.mls_sensitivities, 8);
    assert!(!config.uses_mls_symbols());
    assert_eq!(
        config.m4_arguments(),
        vec![
            "-D",
            "direct_sysadm_daemon",
            "-D",
            "enable_ubac",
            "-D",
            "hide_broken_symptoms",
            "-D",
            "mls_num_sens=8",
            "-D",
            "mls_num_cats=1024",
            "-D",
            "mcs_num_cats=1024",
        ]
    );
    assert_eq!(parse_policy_build_config("").unwrap(), PolicyBuildConfig::default());
}

#[test]
fn splits_assignments_at_the_strongest_operator() {
    let line = characters("A ?= b := c");
    let (key, value) = split_make_assignment(&line).unwrap();
    assert_eq!((to_text(key), to_text(value)), ("A ?= b ".to_owned(), " c".to_owned()));
    let line = characters("A = b ?= c");
    let (key, value) = split_make_assignment(&line).unwrap();
    assert_eq!((to_text(key), to_text(value)), ("A = b ".to_owned(), " c".to_owned()));
    assert!(split_make_assignment(&characters("A : b")).is_none());
}

#[test]
fn reads_single_build_values() {
    assert!(validate_build_token(&characters("a_Z9"), "x").is_ok());
    assert_eq!(
        validate_build_token(&characters("a-b"), "Label").unwrap_err().message,
        "Label contains unsupported characters"
    );
    assert!(parse_yes_no(&characters("y"), "K").unwrap());
    assert!(!parse_yes_no(&characters("n"), "K").unwrap());
    assert_eq!(parse_build_number(&characters("65536"), "K").unwrap(), 65536);
    assert_eq!(accept_build_number(Ok(65536), "K").unwrap(), 65536);
    assert_eq!(
        accept_build_number(Ok(0), "K").unwrap_err().message,
        "SELinux build setting K is outside the supported range"
    );
    assert_eq!(
        accept_build_number(Err("complaint".into()), "K").unwrap_err().message,
        "SELinux build setting K must be a number: complaint"
    );
}

#[test]
fn finds_the_first_version_that_a_command_states() {
    assert_eq!(
        ensure_selinux_userspace_version(output(true, "libsepol\n3.10\n", "4.0")).unwrap(),
        (3, 10)
    );
    assert_eq!(
        ensure_selinux_userspace_version(output(true, "", "version (3.6-rc)")).unwrap(),
        (3, 6)
    );
    assert_eq!(
        ensure_selinux_userspace_version(output(true, "3.5\n", "")).unwrap_err().message,
        "SELinux userspace 3.5 is too old; Microvisor requires 3.6 or newer"
    );
    assert_eq!(
        ensure_selinux_userspace_version(output(true, "none\n", "")).unwrap_err().message,
        "Could not determine the SELinux userspace version"
    );
    assert_eq!(
        ensure_selinux_userspace_version(output(false, "3.6", "not installed\n"))
            .unwrap_err()
            .message,
        "not installed"
    );
    assert!(judge_version(Some((4, 0))).is_ok());
    assert!(judge_version(Some((2, 99))).is_err());
}

#[test]
fn refuses_a_disabled_system() {
    assert!(ensure_enforcement(output(true, "Enforcing\n", "")).is_ok());
    assert!(check_enforcement("Permissive").is_ok());
    assert_eq!(
        ensure_enforcement(output(true, " Disabled\n", "")).unwrap_err().message,
        "SELinux is disabled"
    );
    assert_eq!(
        ensure_enforcement(Err(Error::new("no such file"))).unwrap_err().message,
        "no such file"
    );
}

#[test]
fn requires_root_and_commands() {
    assert!(require_root(0).is_ok());
    assert_eq!(require_root(1000).unwrap_err().message, "Microvisor must run as root");
    assert!(require_command(Purpose::Apply, "m4", Ok("/usr/bin/m4".into())).is_ok());
    assert_eq!(
        require_command(Purpose::Apply, "m4", Err(Error::new("Command not found")))
            .unwrap_err()
            .message,
        "Required command 'm4' is not installed: Command not found"
    );
    assert_eq!(
        require_command(Purpose::Recover, "semodule", Err(Error::new("Command not found")))
            .unwrap_err()
            .message,
        "Required recovery command 'semodule' is not installed: Command not found"
    );
    assert_eq!(
        requirements(Purpose::Inspect),
        vec![Requirement::Command("semanage"), Requirement::Command("semodule")]
    );
    assert_eq!(requirements(Purpose::Apply).len(), 12);
    assert_eq!(
        requirements(Purpose::Recover)[4..],
        [Requirement::Enforcement, Requirement::StateDirectory]
    );
}

#[test]
fn finds_commands_only_where_they_can_be_trusted() {
    assert_eq!(
        command_candidates("m4"),
        vec!["/usr/sbin/m4", "/usr/bin/m4", "/sbin/m4", "/bin/m4"]
    );
    let mut foreign = file(0o755);
    foreign.uid = 1000;
    assert_eq!(
        find_command("m4", &[Some(foreign), Some(file(0o755)), None, Some(file(0o755))]).unwrap(),
        "/usr/bin/m4"
    );
    for untrusted in [file(0o644), file(0o775), file(0o757), directory(0o755)] {
        assert_eq!(
            find_command("m4", &[None, Some(untrusted), None, None]).unwrap_err().message,
            "Command not found"
        );
    }
    assert_eq!(
        find_command("../m4", &[Some(file(0o755)); 4]).unwrap_err().message,
        "Command names must not contain '/'"
    );
    let environment = command_environment();
    assert_eq!(environment.len(), 4);
    assert!(environment.contains(&("LC_ALL".to_owned(), "C".to_owned())));
}

#[test]
fn failed_commands_speak_through_their_errors() {
    assert_eq!(checked(output(true, "out", "err")).unwrap().stdout, b"out");
    assert_eq!(checked(output(false, "out", " err\n")).unwrap_err().message, "err");
    assert_eq!(checked(output(false, " out\n", "  \n")).unwrap_err().message, "out");
    let raw = Ok(Output {
        success: false,
        stdout: Vec::new(),
        stderr: vec![b'a', 0xff],
    });
    assert_eq!(checked(raw).unwrap_err().message, "a\u{fffd}");
}

#[test]
fn checks_the_files_of_a_root_process() {
    assert!(validate_config_file("/c", &Ok(file(0o600))).is_ok());
    let mut linked = file(0o600);
    linked.links = 2;
    let mut owned = file(0o600);
    owned.uid = 5;
    for (facts, message) in [
        (directory(0o700), "Configuration file /c must be a regular file"),
        (linked, "Configuration file /c must not have hard links"),
        (owned, "Configuration file /c must be owned by root"),
        (
            file(0o620),
            "Configuration file /c must not be writable by group or other users",
        ),
    ] {
        assert_eq!(validate_config_file("/c", &Ok(facts)).unwrap_err().message, message);
    }
    assert_eq!(
        validate_config_file("/c", &Err(Error::new("gone"))).unwrap_err().message,
        "Could not inspect /c: gone"
    );

    let mut symlink = directory(0o700);
    symlink.symlink = true;
    assert!(check_runtime_directory(&directory(0o755)).is_ok());
    assert_eq!(
        check_runtime_directory(&symlink).unwrap_err().message,
        "The Microvisor runtime directory must be a root-owned directory, not a symlink"
    );
    assert!(check_lock_file(&file(0o644)).is_ok());
    assert_eq!(
        check_lock_file(&linked).unwrap_err().message,
        "The Microvisor transaction lock has unsafe ownership or permissions"
    );
    assert!(check_state_directory("/s", &directory(0o700)).is_ok());
    assert_eq!(
        check_state_directory("/s", &directory(0o770)).unwrap_err().message,
        "The Microvisor state path /s must be a root-owned directory, not a symlink"
    );
    assert!(check_state_file("/p", &file(0o600)).is_ok());
    assert_eq!(
        check_state_file("/p", &file(0o644)).unwrap_err().message,
        "Stored profile /p has unsafe type, ownership, links, or permissions"
    );
    assert!(validate_policy_directory("/d", &Ok(directory(0o755))).is_ok());
    assert_eq!(
        validate_policy_directory("/d", &Ok(file(0o755))).unwrap_err().message,
        "SELinux policy directory /d must be root-owned and not writable by group or other users"
    );
    assert_eq!(
        validate_policy_directory("/d", &Err(Error::new("gone"))).unwrap_err().message,
        "Could not inspect SELinux policy directory /d: gone"
    );
    let mut large = file(0o644);
    large.len = MAX_POLICY_SOURCE_SIZE + 1;
    assert_eq!(
        validate_policy_file("/f", &Ok(large)).unwrap_err().message,
        "SELinux policy source /f has unsafe ownership, mode, type, or size"
    );
    assert_eq!(
        validate_policy_file("/f", &Err(Error::new("gone"))).unwrap_err().message,
        "Could not inspect SELinux policy source /f: gone"
    );
}

fn entry(name: &str) -> Entry {
    Entry {
        name: name.to_owned(),
        inspected: Ok(file(0o644)),
    }
}

fn listing(names: &[&str]) -> Listing {
    Listing {
        entries: names.iter().map(|name| entry(name)).collect(),
        failure: None,
    }
}

fn layer(name: &str, names: &[&str]) -> Layer {
    Layer {
        name: name.to_owned(),
        inspected: Ok(directory(0o755)),
        listing: listing(names),
    }
}

fn tree(support: &[&str], layers: Vec<Layer>) -> PolicyTree {
    PolicyTree {
        top: Ok(directory(0o755)),
        support: Ok(directory(0o755)),
        support_listing: listing(support),
        layers,
        layers_failure: None,
        build_config: Ok(file(0o644)),
    }
}

#[test]
fn takes_the_sources_of_the_reference_policy_in_order() {
    let root = "/usr/share/selinux/devel/include";
    let mut readme = layer("README", &[]);
    readme.inspected = Ok(file(0o644));
    let sources = policy_source_files(tree(
        &["obj.spt", "file.spt", "notes.txt"],
        vec![
            layer("system", &["unconfined.if", "init.if"]),
            layer("support", &["skipped.if"]),
            readme,
            layer("admin", &["su.if", "su.xml"]),
        ],
    ))
    .unwrap();
    assert_eq!(
        sources.support,
        vec![format!("{root}/support/file.spt"), format!("{root}/support/obj.spt")]
    );
    assert_eq!(
        sources.interfaces,
        vec![
            format!("{root}/admin/su.if"),
            format!("{root}/system/init.if"),
            format!("{root}/system/unconfined.if"),
        ]
    );
    assert_eq!(sources.build_config, format!("{root}/build.conf"));
}

#[test]
fn names_what_is_wrong_with_the_reference_policy() {
    let message = |tree: PolicyTree| policy_source_files(tree).unwrap_err().message;
    let good = || vec![layer("admin", &["su.if"])];
    assert_eq!(
        message(tree(&["notes.txt"], good())),
        "No SELinux reference-policy support files were found"
    );
    assert_eq!(
        message(tree(&["a.spt"], vec![layer("admin", &["su.xml"])])),
        "No SELinux reference-policy interfaces were found"
    );
    let mut failing = tree(&["a.spt"], good());
    failing.layers_failure = Some(Error::new("unreadable"));
    assert_eq!(message(failing), "unreadable");
    let mut unsafe_top = tree(&["a.spt"], good());
    unsafe_top.top = Ok(directory(0o777));
    assert!(message(unsafe_top).starts_with("SELinux policy directory "));
    let mut unsafe_config = tree(&["a.spt"], good());
    unsafe_config.build_config = Err(Error::new("gone"));
    assert_eq!(
        message(unsafe_config),
        "Could not inspect SELinux policy source /usr/share/selinux/devel/include/build.conf: gone"
    );
    let names: Vec<String> = (0..4096).map(|index| format!("f{index}.if")).collect();
    let names: Vec<&str> = names.iter().map(String::as_str).collect();
    assert_eq!(
        message(tree(&["a.spt"], vec![layer("admin", &names)])),
        "The SELinux reference-policy source set is unexpectedly large"
    );
    let partial = Listing {
        entries: vec![entry("a.if")],
        failure: Some(Error::new("interrupted")),
    };
    assert_eq!(
        collect_policy_files("/d", &partial, "if").unwrap_err().message,
        "interrupted"
    );
}

fn command_line(command: &Invocation) -> String {
    format!("{} {}", command.program, command.arguments.join(" "))
}

#[test]
fn builds_modules_stage_by_stage() {
    let sources = PolicySources {
        support: vec!["/i/support/a.spt".into()],
        interfaces: vec!["/i/admin/b.if".into()],
        build_config: "/i/build.conf".into(),
    };
    let mut config = PolicyBuildConfig::default();
    config.policy_type = "mls".into();
    let steps = compile_type_enforcement(&sources, &config, "/w", "m");
    assert_eq!(steps.len(), 6);
    let told: Vec<String> = steps
        .iter()
        .map(|step| match step {
            BuildStep::Write { path, contents } => format!("write {path} {contents}"),
            BuildStep::Expand {
                command,
                output,
                context,
            } => format!("{} > {output} ({context})", command_line(command)),
            BuildStep::Wrap { input, output } => format!("wrap {input} {output}"),
            BuildStep::Run { command, context } => {
                format!("{} ({context})", command_line(command))
            }
        })
        .collect();
    assert_eq!(told[0], "write /w/iferror.m4 ifdef(`__if_error',`m4exit(1)')\n");
    assert_eq!(
        told[1],
        "m4 /i/support/a.spt /i/admin/b.if /w/iferror.m4 > /w/all_interfaces.raw \
         (Could not expand SELinux reference-policy interfaces)"
    );
    assert_eq!(told[2], "wrap /w/all_interfaces.raw /w/all_interfaces.conf");
    assert_eq!(
        told[3],
        "m4 -D enable_mls -D hide_broken_symptoms -D mls_num_sens=16 -D mls_num_cats=1024 \
         -D mcs_num_cats=1024 -s /i/support/a.spt /w/all_interfaces.conf /w/m.te > /w/m.expanded \
         (Could not expand the SELinux type-enforcement module)"
    );
    assert_eq!(
        told[4],
        "checkmodule -m -M /w/m.expanded -o /w/m.mod \
         (Could not compile the SELinux type-enforcement module)"
    );
    assert_eq!(
        told[5],
        "semodule_package -o /w/m.pp -m /w/m.mod \
         (Could not package the SELinux type-enforcement module)"
    );
}

#[test]
fn writes_both_modules_before_building() {
    let mut profile = ProtectionProfile::new();
    profile.executable = "/opt/app/bin".into();
    let ids = profile.identifiers();
    let steps = source_steps(&profile, "/w").unwrap();
    assert_eq!(steps.len(), 2);
    match (&steps[0], &steps[1]) {
        (
            BuildStep::Write { path: te, contents: base },
            BuildStep::Write { path: cil, contents: deny },
        ) => {
            assert_eq!(te, &format!("/w/{}.te", ids.module));
            assert_eq!(cil, &format!("/w/{}.cil", ids.deny_module));
            assert_eq!(base, &render_type_enforcement(&profile).unwrap());
            assert_eq!(deny, &render_deny_cil(&profile).unwrap());
        }
        _ => panic!("unexpected stages"),
    }
    profile.executable = "relative".into();
    assert!(source_steps(&profile, "/w").is_err());
}

#[test]
fn wraps_expanded_interfaces() {
    assert_eq!(
        define_interfaces("a dollarsstar b"),
        "divert(-1)\na $* b\ndivert\n"
    );
    assert_eq!(
        wrap_interfaces(&b"x".to_vec()).unwrap(),
        "divert(-1)\nx\ndivert\n"
    );
    assert!(wrap_interfaces(&vec![0xff])
        .unwrap_err()
        .message
        .starts_with("SELinux reference-policy interfaces are not valid UTF-8: "));
    assert!(check_expansion(Ok(MAX_GENERATED_POLICY_SIZE), "c").is_ok());
    assert_eq!(
        check_expansion(Ok(MAX_GENERATED_POLICY_SIZE + 1), "c").unwrap_err().message,
        "c: Generated SELinux policy exceeds the 64 MiB safety limit"
    );
    assert_eq!(
        check_expansion(Err(Error::new("m4 failed")), "c").unwrap_err().message,
        "c: m4 failed"
    );
}

#[test]
fn asks_for_the_version_and_the_enforcement_state() {
    let query = version_query();
    assert_eq!(query.program, "rpm");
    assert_eq!(query.arguments, vec!["-q", "--qf", "%{VERSION}\n", "libsepol"]);
    let query = enforcement_query();
    assert_eq!(query.program, "getenforce");
    assert!(query.arguments.is_empty());
    let query = helper_version_query();
    assert_eq!(query.program, "semodule");
    assert_eq!(query.arguments, vec!["--version"]);
}

#[test]
fn later_texts_win_and_earlier_errors_stay() {
    let joined = |first: &str, second: &str| {
        parse_policy_build_config(&format!("{first}\n{second}"))
    };
    let config = joined("TYPE = mls\nUBAC = y\r", "TYPE = mcs\nMLS_SENS = 4").unwrap();
    assert_eq!(config.policy_type, "mcs");
    assert!(config.ubac);
    assert_eq!(config.mls_sensitivities, 4);
    assert_eq!(joined("", "").unwrap(), PolicyBuildConfig::default());
    assert_eq!(
        joined("TYPE = odd", "TYPE = mcs").unwrap_err().message,
        "Unsupported SELinux policy type 'odd'"
    );
    assert!(joined("TYPE = mcs", "UBAC = odd").is_err());
}
