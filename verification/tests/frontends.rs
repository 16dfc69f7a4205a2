//! The command line, the privileged helper and desktop front ends.

use microvisor::cli::{
    applied_text, generated_text, help_text, parse_command, removal_text, render_selected,
    status_code, status_text, validated_text, version_text, Command,
};
use microvisor::command::Output;
use microvisor::compile::BuildStep;
use microvisor::desktop::{
    add_directory, after_apply, after_deleting, after_pending, after_preview, after_remove,
    after_restoring, after_storing, after_validation, banner, collect_profile, command_output,
    delete_profile, dialog_texts, mend, pending, previous_local, protected, refresh,
    removal_confirmation, remove_directory, restore_failure_message,
    restore_local_after_failed_apply, row_status, row_subtitle, shown_profiles, system_status,
    upsert_profile, validate_local_paths, visible_page, window_rows, Entries, LocalProfile, Move,
    Repair,
};
use microvisor::engine::normalize::{Findings, Resolution};
use microvisor::engine::steps::Step;
use microvisor::engine::ProfileStatus;
use microvisor::error::Error;
use microvisor::files::FileFacts;
use microvisor::helper::{
    applied_message, check_makefile, check_request_size, deduplicate, find_helper_command,
    helper_apply_steps, helper_build_steps, helper_commands, make_command, normalize_for_helper,
    removed_message, require_helper_root, respond, HelperAct, HelperRequest, HelperResponse,
    HelperStage, HelperStep, HelperTransaction, MAX_REQUEST_SIZE,
};
use microvisor::helper_client::{
    interpret_reply, is_executable_file, request_summary, select_helper_path, Sibling,
    INSTALLED_HELPER_PATH,
};
use microvisor::model::ProtectionProfile;

const ID: &str = "11111111-2222-4333-8444-555555555555";

fn facts(file: bool, mode: u32) -> FileFacts {
    FileFacts {
        symlink: false,
        directory: !file,
        file,
        uid: 1000,
        links: 1,
        mode,
        len: 6,
    }
}

fn sibling(mode: u32) -> Sibling {
    Sibling {
        path: "/tmp/build/microvisor-helper".to_owned(),
        found: Some(facts(true, mode)),
    }
}

#[test]
fn explicit_helper_overrides_debug_sibling() {
    assert_eq!(
        select_helper_path(
            Some("/tmp/explicit-microvisor-helper".to_owned()),
            Some(sibling(0o700)),
            true
        ),
        "/tmp/explicit-microvisor-helper"
    );
}

#[test]
fn debug_build_uses_executable_sibling_helper() {
    assert_eq!(
        select_helper_path(None, Some(sibling(0o700)), true),
        "/tmp/build/microvisor-helper"
    );
}

#[test]
fn debug_build_ignores_non_executable_sibling_helper() {
    assert_eq!(
        select_helper_path(None, Some(sibling(0o600)), true),
        INSTALLED_HELPER_PATH
    );
}

#[test]
fn release_builds_are_pinned_to_the_installed_helper() {
    assert_eq!(
        select_helper_path(None, Some(sibling(0o755)), false),
        "/usr/libexec/microvisor-helper"
    );
    assert_eq!(select_helper_path(None, None, true), INSTALLED_HELPER_PATH);
    assert!(!is_executable_file(&Some(facts(false, 0o755))));
    assert!(!is_executable_file(&None));
}

#[test]
fn interprets_what_the_helper_said() {
    let answer = HelperResponse {
        ok: false,
        message: "no".to_owned(),
    };
    let told = interpret_reply(Some(answer), false, &b"noise".to_vec()).unwrap();
    assert_eq!((told.ok, told.message.as_str()), (false, "no"));
    assert_eq!(
        interpret_reply(None, false, &b" denied \n".to_vec()).unwrap_err().message,
        "denied"
    );
    assert_eq!(
        interpret_reply(None, false, &b" \n".to_vec()).unwrap_err().message,
        "The privileged operation was cancelled or failed"
    );
    assert_eq!(
        interpret_reply(None, true, &b"x".to_vec()).unwrap_err().message,
        "The helper returned an invalid response"
    );
    let mut profile = ProtectionProfile::new();
    profile.id = 9;
    assert_eq!(request_summary(&HelperRequest::Apply { profile }), ("apply", 9));
    assert_eq!(request_summary(&HelperRequest::Remove { id: 8 }), ("remove", 8));
}

fn order(arguments: &[&str], user: u32) -> Result<Command, Error> {
    let arguments = arguments.iter().map(|word| word.to_string()).collect();
    parse_command(&arguments, user)
}

#[test]
fn understands_the_command_line() {
    for words in [&[][..], &["help"], &["--help"], &["-h"]] {
        assert!(matches!(order(words, 1000), Ok(Command::Help)));
    }
    for words in [&["version"], &["--version"], &["-V"]] {
        assert!(matches!(order(words, 1000), Ok(Command::Version)));
    }
    assert!(matches!(order(&["generate"], 1000), Ok(Command::Generate(None))));
    match order(&["generate", "x.yml"], 1000).unwrap() {
        Command::Generate(Some(path)) => assert_eq!(path, "x.yml"),
        _ => panic!("not a template"),
    }
    assert_eq!(
        order(&["generate", "x.yml", "y"], 0).unwrap_err().message,
        "Usage: microvisor generate [output.yml]"
    );
    assert!(matches!(order(&["validate"], 0), Ok(Command::Validate)));
    assert!(matches!(order(&["apply"], 0), Ok(Command::Apply)));
    assert!(matches!(order(&["status"], 0), Ok(Command::Status)));
    assert!(matches!(order(&["supervise"], 0), Ok(Command::Supervise)));
    let id = 0x11111111_2222_4333_8444_555555555555;
    assert!(matches!(order(&["render", ID], 0), Ok(Command::Render(found)) if found == id));
    assert!(matches!(order(&["remove", ID], 0), Ok(Command::Remove(found)) if found == id));
    assert!(order(&["remove", "x"], 0)
        .unwrap_err()
        .message
        .starts_with("Invalid profile ID 'x': "));
    for words in [&["apply", "now"][..], &["render"], &["help", "me"], &["frobnicate"]] {
        assert_eq!(
            order(words, 0).unwrap_err().message,
            "Invalid command. Run 'microvisor help' for usage"
        );
        assert_eq!(order(words, 1000).unwrap_err().message, "Microvisor must run as root");
    }
}

#[test]
fn prints_what_was_done() {
    assert_eq!(version_text("0.2.0"), "microvisor 0.2.0");
    assert_eq!(validated_text(3), "Validated 3 profile(s).");
    assert_eq!(applied_text(0), "Applied 0 changed profile(s).");
    let id = 0x11111111_2222_4333_8444_555555555555;
    assert_eq!(removal_text(id, true), format!("Removed profile {ID}."));
    assert_eq!(removal_text(id, false), format!("Profile {ID} is not applied."));
    assert_eq!(
        generated_text("a.yml", id),
        format!("Generated a.yml with profile ID {ID}.")
    );
    assert_eq!(status_text(&Vec::new()), vec!["No configured or applied profiles."]);
    let row = ProfileStatus {
        id,
        name: "Name".to_owned(),
        state: "applied",
    };
    assert_eq!(status_text(&vec![row]), vec![format!("{ID}\tapplied\tName")]);
    assert_eq!((status_code(true), status_code(false)), (0, 2));
    let help = help_text("0.2.0");
    assert!(help.starts_with("Microvisor 0.2.0\nHeadless SELinux protection profile manager\n\n"));
    assert!(help.contains("\nConfiguration: /etc/microvisor.yml\n"));
    assert!(help.contains("\nmicrovisor generate [output.yml]\n"));
}

#[test]
fn renders_the_profile_that_is_asked_for() {
    let mut profile = ProtectionProfile::new();
    profile.id = 1;
    profile.executable = "/opt/app/run".into();
    let list = vec![profile];
    assert!(render_selected(&list, 1).unwrap().contains("/opt/app/run"));
    assert_eq!(
        render_selected(&list, 2).unwrap_err().message,
        "No configured profile exists for 00000000-0000-0000-0000-000000000002"
    );
}

#[test]
fn the_helper_checks_its_surroundings() {
    assert!(require_helper_root(0).is_ok());
    assert_eq!(
        require_helper_root(1).unwrap_err().message,
        "microvisor-helper must run as root through pkexec"
    );
    assert!(check_request_size(MAX_REQUEST_SIZE).is_ok());
    assert_eq!(
        check_request_size(MAX_REQUEST_SIZE + 1).unwrap_err().message,
        "Request exceeds the 1 MiB limit"
    );
    assert!(check_makefile(true).is_ok());
    assert_eq!(
        check_makefile(false).unwrap_err().message,
        "SELinux policy development files are missing: /usr/share/selinux/devel/Makefile"
    );
    assert_eq!(
        helper_commands(),
        vec!["getenforce", "make", "restorecon", "semanage", "semodule"]
    );
    let found = [None, Some(facts(true, 0o644)), Some(facts(true, 0o755)), None];
    assert_eq!(find_helper_command("make", &found).unwrap(), "/sbin/make");
    assert_eq!(
        find_helper_command("make", &[None; 4]).unwrap_err().message,
        "Command not found"
    );
    assert_eq!(
        find_helper_command("a/b", &found).unwrap_err().message,
        "Command names must not contain '/'"
    );
    let make = make_command("m");
    assert_eq!(make.program, "make");
    assert_eq!(
        make.arguments,
        vec!["-f", "/usr/share/selinux/devel/Makefile", "m.pp"]
    );
    let answer = respond(Ok(applied_message("App")));
    assert_eq!((answer.ok, answer.message.as_str()), (true, "Protection applied to App"));
    let answer = respond(Err(Error::new("no")));
    assert_eq!((answer.ok, answer.message.as_str()), (false, "no"));
    assert_eq!(removed_message(Some("App")), "Protection removed from App");
    assert_eq!(removed_message(None), "No installed protection profile was found");
}

fn found(path: &str) -> Resolution {
    Resolution {
        resolved: Ok(path.to_owned()),
        is_file: true,
        facts: Ok(facts(false, 0o755)),
    }
}

#[test]
fn the_helper_counts_directories_once() {
    let mut profile = ProtectionProfile::new();
    profile.executable = "/opt/app/run".into();
    profile.data_directories = vec!["/var/lib/b".into(), "/var/lib/a".into(), "/alias/to/a".into()];
    let mut executable = found("/opt/app/run");
    executable.facts = Ok(facts(true, 0o755));
    let findings = Findings {
        executable,
        directories: vec![found("/var/lib/b"), found("/var/lib/a"), found("/var/lib/a")],
    };
    let normalized = normalize_for_helper(profile, &findings).unwrap();
    assert_eq!(normalized.data_directories, vec!["/var/lib/a", "/var/lib/b"]);
    assert_eq!(
        deduplicate(&vec!["/a".into(), "/a/".into(), "/b".into(), "/a".into()]),
        vec!["/a", "/b", "/a"]
    );
    let mut broken = ProtectionProfile::new();
    broken.executable = "/opt/app/run".into();
    broken.data_directories = vec!["/var/lib/b".into()];
    let mut gone = found("/var/lib/b");
    gone.facts = Err(Error::new("gone"));
    let mut executable = found("/opt/app/run");
    executable.facts = Ok(facts(true, 0o755));
    let findings = Findings {
        executable,
        directories: vec![gone],
    };
    assert_eq!(
        normalize_for_helper(broken, &findings).unwrap_err().message,
        "/var/lib/b is not a directory"
    );
}

fn serve(previous: bool, failing: &[usize]) -> (Vec<String>, Result<(), String>) {
    let named = |name: &str| {
        let mut profile = ProtectionProfile::new();
        profile.id = 1;
        profile.name = name.into();
        profile
    };
    let mut transaction = HelperTransaction::new(named("new"), previous.then(|| named("old")));
    let mut log = Vec::new();
    while let Some(act) = transaction.next() {
        let reply = if failing.contains(&log.len()) {
            Err(Error::new(&format!("e{}", log.len())))
        } else {
            Ok(())
        };
        log.push(match act {
            HelperAct::Teardown(profile) => format!("teardown {}", profile.name),
            HelperAct::Preflight(profile) => format!("preflight {}", profile.name),
            HelperAct::Apply(profile) => format!("apply {}", profile.name),
            HelperAct::Save(profile) => format!("save {}", profile.name),
            HelperAct::RemoveTemporary(id) => format!("untemp {id}"),
        });
        transaction = transaction.advance(reply);
    }
    match transaction.stage {
        HelperStage::Over(result) => (log, result.map_err(|error| error.message)),
        _ => panic!("not over"),
    }
}

#[test]
fn the_helper_updates_one_profile_or_restores_it() {
    let (log, result) = serve(false, &[]);
    assert_eq!(log, vec!["preflight new", "apply new", "save new"]);
    assert!(result.is_ok());
    let (log, result) = serve(true, &[0]);
    assert_eq!(log, vec!["teardown old"]);
    assert_eq!(
        result.unwrap_err(),
        "Could not remove the previous policy before updating: e0"
    );
    let (log, result) = serve(true, &[1]);
    assert_eq!(log, vec!["teardown old", "preflight new", "apply old", "save old"]);
    assert_eq!(result.unwrap_err(), "e1");
    let (_, result) = serve(true, &[1, 2]);
    assert_eq!(
        result.unwrap_err(),
        "The previous profile could not be restored: e2: e1"
    );
    let (log, result) = serve(true, &[2, 4, 5]);
    assert_eq!(
        log,
        vec!["teardown old", "preflight new", "apply new", "untemp 1", "teardown new", "apply old"]
    );
    assert_eq!(
        result.unwrap_err(),
        "e2; cleanup also failed: e4; restoring the previous profile also failed: e5"
    );
    let (log, result) = serve(false, &[0]);
    assert_eq!(log, vec!["preflight new"]);
    assert_eq!(result.unwrap_err(), "e0");
}

fn local(id: u128, name: &str, applied: bool) -> LocalProfile {
    let mut profile = ProtectionProfile::new();
    profile.id = id;
    profile.name = name.into();
    LocalProfile { profile, applied }
}

#[test]
fn dialogs_show_how_a_profile_stands() {
    let texts = dialog_texts(&local(1, "", false));
    assert_eq!(texts.title, "Add Protection");
    assert_eq!(texts.apply_label, "Apply");
    assert!(!texts.remove_visible);
    assert_eq!(texts.executable_subtitle, "Select an executable");
    assert_eq!(texts.remove_title, "Delete Profile");
    let mut applied = local(1, "App", true);
    applied.profile.executable = "/opt/app".into();
    let texts = dialog_texts(&applied);
    assert_eq!(texts.title, "Edit Protection");
    assert_eq!(texts.apply_label, "Update");
    assert!(texts.remove_visible);
    assert_eq!(texts.executable_subtitle, "/opt/app");
    assert_eq!(texts.remove_title, "Remove Protection");
    assert_eq!(removal_confirmation(true).button, "Remove");
    assert_eq!(removal_confirmation(false).heading, "Delete Profile?");
}

#[test]
fn dialogs_collect_what_was_entered() {
    let profile = collect_profile(
        5,
        Entries {
            name: " App ".into(),
            executable: "/opt/app".into(),
            data_directories: vec!["/var/lib/app".into()],
            launch_domain: "unconfined_t\n".into(),
            launch_role: "\tunconfined_r".into(),
            block_ptrace: false,
            block_fd_use: true,
        },
    );
    assert_eq!(profile.id, 5);
    assert_eq!(profile.name, "App");
    assert_eq!(profile.launch_domain, "unconfined_t");
    assert_eq!(profile.launch_role, "unconfined_r");
    assert!(!profile.block_ptrace && profile.block_fd_use);

    let mut directories = vec!["/a/b".to_owned()];
    assert!(add_directory(&mut directories, "/a/c".to_owned()));
    assert!(!add_directory(&mut directories, "/a//b/".to_owned()));
    assert_eq!(directories, vec!["/a/b", "/a/c"]);
    assert_eq!(remove_directory(&directories, "/a/b"), vec!["/a/c"]);

    assert!(validate_local_paths(&profile, true, &vec![true]).is_ok());
    assert_eq!(
        validate_local_paths(&profile, false, &vec![true]).unwrap_err().message,
        "The selected executable does not exist or is not a regular file"
    );
    assert_eq!(
        validate_local_paths(&profile, true, &vec![false]).unwrap_err().message,
        "/var/lib/app is not an existing directory"
    );
}

#[test]
fn local_profiles_are_replaced_and_deleted_by_identifier() {
    let mut list = vec![local(1, "a", false), local(2, "b", false)];
    upsert_profile(&mut list, local(2, "c", true));
    upsert_profile(&mut list, local(3, "d", false));
    let names: Vec<&str> = list.iter().map(|item| item.profile.name.as_str()).collect();
    assert_eq!(names, vec!["a", "c", "d"]);
    assert!(list[1].applied);
    let list = delete_profile(list, 1);
    assert_eq!(list.len(), 2);
    assert!(list.iter().all(|item| item.profile.id != 1));
}

fn shown(turn: Move) -> String {
    match turn {
        Move::Invoke => "invoke".to_owned(),
        Move::StoreApplied => "store".to_owned(),
        Move::Restore(message) => format!("restore {message}"),
        Move::DeleteLocal => "delete".to_owned(),
        Move::Present { title, text } => format!("{title} : {text}"),
        Move::Show { heading, body } => format!("{heading} | {body}"),
        Move::Close(note) => format!("close {note}"),
    }
}

#[test]
fn dialogs_follow_what_the_helper_said() {
    let failed = || Err("e".to_owned());
    let answered = |ok: bool| {
        Some(Ok(HelperResponse {
            ok,
            message: "m".to_owned(),
        }))
    };
    assert!(after_validation(Ok(())).is_none());
    assert_eq!(
        shown(after_validation(failed()).unwrap()),
        "Cannot Apply Protection | e"
    );
    assert_eq!(shown(after_pending(Ok(()))), "invoke");
    assert_eq!(
        shown(after_pending(failed())),
        "Cannot Save Profile | No SELinux changes were made: e"
    );
    assert_eq!(shown(after_apply(answered(true))), "store");
    assert_eq!(shown(after_apply(answered(false))), "restore m");
    assert_eq!(shown(after_apply(Some(Err("e".to_owned())))), "restore e");
    assert_eq!(
        shown(after_apply(None)),
        "restore The helper stopped unexpectedly"
    );
    assert_eq!(shown(after_storing(Ok(()))), "close Protection applied");
    assert_eq!(
        shown(after_storing(failed())),
        "Protection Applied | SELinux protection was applied, but the local profile could not be \
         saved: e"
    );
    assert_eq!(
        shown(after_restoring("m", failed())),
        "Cannot Apply Protection | m\n\nThe previous local profile state could not be restored: e"
    );
    assert_eq!(restore_failure_message("m", Ok(())), "m");
    assert_eq!(shown(after_remove(answered(true))), "delete");
    assert_eq!(shown(after_remove(answered(false))), "Cannot Remove Protection | m");
    assert_eq!(shown(after_deleting(Ok(()), true)), "close Protection removed");
    assert_eq!(shown(after_deleting(Ok(()), false)), "close Profile deleted");
    assert_eq!(
        shown(after_deleting(failed(), true)),
        "Protection Removed | SELinux protection was removed, but the local profile could not be \
         deleted: e"
    );
}

#[test]
fn dialogs_show_previews_and_what_an_error_says_first() {
    assert_eq!(shown(after_preview(Ok("policy".to_owned()))), "Policy Preview : policy");
    assert_eq!(
        shown(after_preview(Err("invalid".to_owned()))),
        "Cannot Preview Policy | invalid"
    );
    let (list, note) = shown_profiles(Err("Could not read /x".to_owned()));
    assert!(list.is_empty());
    assert_eq!(note.unwrap(), "Could not load profiles: Could not read /x");
    let (list, note) = shown_profiles(Ok(vec![local(1, "a", true)]));
    assert_eq!((list.len(), note), (1, None));
}

fn entries(list: &[LocalProfile]) -> Vec<(u128, &str, bool)> {
    list.iter()
        .map(|item| (item.profile.id, item.profile.name.as_str(), item.applied))
        .collect()
}

#[test]
fn profiles_that_could_not_be_applied_leave_the_local_ones_as_they_were() {
    let candidate = |id: u128| {
        let mut profile = ProtectionProfile::new();
        profile.id = id;
        profile.name = "changed".into();
        profile
    };
    assert!(!pending(candidate(1)).applied);
    assert!(protected(candidate(1)).applied);
    assert!(previous_local(local(1, "", false)).is_none());
    assert_eq!(previous_local(local(1, "a", true)).unwrap().profile.name, "a");

    let mut list = vec![local(1, "a", true), local(2, "b", false)];
    upsert_profile(&mut list, pending(candidate(1)));
    assert_eq!(entries(&list), vec![(1, "changed", false), (2, "b", false)]);
    let act = restore_local_after_failed_apply(previous_local(local(1, "a", true)), 1);
    assert!(matches!(act, Repair::Store(_)));
    let mut list = mend(list, act);
    assert_eq!(entries(&list), vec![(1, "a", true), (2, "b", false)]);

    upsert_profile(&mut list, pending(candidate(3)));
    assert_eq!(list.len(), 3);
    let act = restore_local_after_failed_apply(None, 3);
    assert!(matches!(act, Repair::Delete(3)));
    let list = mend(list, act);
    assert_eq!(entries(&list), vec![(1, "a", true), (2, "b", false)]);
}

fn ran(success: bool, stdout: &str, stderr: &str) -> Result<Output, Error> {
    Ok(Output {
        success,
        stdout: stdout.as_bytes().to_vec(),
        stderr: stderr.as_bytes().to_vec(),
    })
}

#[test]
fn windows_show_how_the_system_stands() {
    assert_eq!((visible_page(0), visible_page(2)), ("empty", "profiles"));
    assert_eq!((row_status(true), row_status(false)), ("Protected", "Not Applied"));
    let mut profile = ProtectionProfile::new();
    profile.executable = "/opt/app".into();
    profile.data_directories = vec!["/a/b/c".into()];
    assert_eq!(row_subtitle(&profile), "/opt/app · 1 protected directory");
    profile.data_directories.clear();
    assert_eq!(row_subtitle(&profile), "/opt/app · 0 protected directories");

    assert_eq!(banner(ran(true, "Enforcing\n", "")), None);
    assert_eq!(
        banner(ran(true, "Disabled\n", "")).unwrap(),
        "SELinux is disabled. Protection cannot be applied."
    );
    assert_eq!(
        banner(ran(true, "Permissive\n", "")).unwrap(),
        "SELinux is permissive. Rules will be logged but not enforced."
    );
    assert_eq!(
        banner(Err(Error::new("gone"))).unwrap(),
        "SELinux tools were not found on this system."
    );
    assert_eq!(command_output(ran(true, " a\n", "b")).unwrap(), "a");
    assert_eq!(command_output(ran(true, " \n", " b ")).unwrap(), "b");
    assert_eq!(command_output(ran(false, "a", "b")), None);
    assert_eq!(command_output(Err(Error::new("gone"))), None);
    assert_eq!(
        system_status(Some("Enforcing".to_owned()), None, true, false),
        "Enforcement: Enforcing\n\
         SELinux userspace: Unavailable\n\
         Privileged helper: Installed\n\
         Policy development files: Not installed\n\n\
         Microvisor requires SELinux userspace 3.6 or newer for CIL deny rules."
    );
}

#[test]
fn windows_have_one_row_for_each_profile() {
    let mut second = local(2, "b", true);
    second.profile.executable = "/opt/b".into();
    let window = refresh(Ok(vec![local(7, "a", false), second]));
    let rows: Vec<(u128, &str, &str, &str)> = window
        .rows
        .iter()
        .map(|row| (row.id, row.title.as_str(), row.subtitle.as_str(), row.status))
        .collect();
    assert_eq!(
        rows,
        vec![
            (7, "a", " · 0 protected directories", "Not Applied"),
            (2, "b", "/opt/b · 0 protected directories", "Protected"),
        ]
    );
    assert_eq!((window.page, window.note), ("profiles", None));
    assert_eq!(window_rows(&vec![local(1, "c", true)]).len(), 1);

    let window = refresh(Err("Could not read /x".to_owned()));
    assert!(window.rows.is_empty());
    assert_eq!(window.page, "empty");
    assert_eq!(window.note.unwrap(), "Could not load profiles: Could not read /x");
}

#[test]
fn the_helper_writes_the_deny_module_last() {
    let mut profile = ProtectionProfile::new();
    profile.id = 1;
    profile.executable = "/opt/app/run".into();
    profile.data_directories = vec!["/var/lib/app".into()];
    let module = "microvisor_00000000000000000000000000000001";
    let builds = helper_build_steps(&profile, "/work").unwrap();
    assert_eq!(builds.len(), 2);
    let steps: Vec<String> = helper_apply_steps(&profile, "/work")
        .unwrap()
        .into_iter()
        .map(|step| match step {
            HelperStep::Build(BuildStep::Write { path, .. }) => format!("write {path}"),
            HelperStep::Build(BuildStep::Run { command, context }) => {
                format!("{} {} ({context})", command.program, command.arguments.join(" "))
            }
            HelperStep::Build(_) => "other".to_owned(),
            HelperStep::Install(Step::InstallModule { file, .. }) => format!("install {file}"),
            HelperStep::Install(Step::AddRule { path, .. }) => format!("rule {path}"),
            HelperStep::Install(Step::Label { path, .. }) => format!("label {path}"),
            HelperStep::Install(_) => "other".to_owned(),
        })
        .collect();
    assert_eq!(
        steps,
        vec![
            format!("write /work/{module}.te"),
            format!(
                "make -f /usr/share/selinux/devel/Makefile {module}.pp \
                 (Could not compile the SELinux type-enforcement module)"
            ),
            format!("install /work/{module}.pp"),
            "rule /opt/app/run".to_owned(),
            "label /opt/app/run".to_owned(),
            "rule /var/lib/app".to_owned(),
            "label /var/lib/app".to_owned(),
            format!("write /work/{module}_deny.cil"),
            format!("install /work/{module}_deny.cil"),
        ]
    );
    profile.launch_role = "role".into();
    assert!(helper_build_steps(&profile, "/work").is_err());
    assert!(helper_apply_steps(&profile, "/work").is_err());
}
