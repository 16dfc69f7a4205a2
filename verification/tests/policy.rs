//! The rules for profiles, and the policy that is generated from them.

use microvisor::model::ProtectionProfile;
use microvisor::policy;

fn example_profile() -> ProtectionProfile {
    let mut profile = ProtectionProfile::new();
    profile.name = "Google Chrome".into();
    profile.executable = "/opt/google/chrome/chrome".into();
    profile.data_directories = vec![
        "/home/test/.config/google-chrome".into(),
        "/home/test/.cache/google-chrome".into(),
    ];
    profile
}

#[test]
fn generated_policy_has_allowlist_and_deny_complement() {
    let profile = example_profile();
    let ids = profile.identifiers();
    let cil = policy::render_deny_cil(&profile).unwrap();

    assert!(cil.contains(&format!(
        "(typeattributeset {} ({}))",
        ids.allowed_attribute, ids.app_type
    )));
    assert!(cil.contains(&format!(
        "(typeattributeset {} (not ({})))",
        ids.denied_attribute, ids.allowed_attribute
    )));
    assert!(cil.contains(&format!(
        "(deny {} {} (file (all)))",
        ids.denied_attribute, ids.data_type
    )));
    assert!(cil.contains(&format!(
        "(deny {} {} (chr_file (all)))",
        ids.denied_attribute, ids.data_type
    )));
    assert!(cil.contains(&format!(
        "(deny {} {} (blk_file (all)))",
        ids.denied_attribute, ids.data_type
    )));
    assert!(cil.contains("(process (ptrace))"));
}

#[test]
fn type_enforcement_transitions_from_configured_desktop_domain() {
    let profile = example_profile();
    let ids = profile.identifiers();
    let te = policy::render_type_enforcement(&profile).unwrap();

    assert!(te.contains(&format!(
        "domtrans_pattern(unconfined_t, {}, {})",
        ids.exec_type, ids.app_type
    )));
    assert!(te.contains(&format!("role unconfined_r types {};", ids.app_type)));
}

#[test]
fn path_regex_escapes_selinux_metacharacters() {
    let regex = policy::selinux_path_regex("/home/test/.config/app+(stable)").unwrap();
    assert_eq!(regex, "/home/test/\\.config/app\\+\\(stable\\)");
}

#[test]
fn root_directory_is_rejected() {
    let mut profile = example_profile();
    profile.data_directories = vec!["/".into()];
    assert!(policy::validate_profile(&profile).is_err());
}

#[test]
fn broad_directory_is_rejected() {
    let mut profile = example_profile();
    profile.data_directories = vec!["/home/test".into()];
    assert!(policy::validate_profile(&profile).is_err());
}

#[test]
fn launch_domain_and_role_suffixes_are_required() {
    let mut profile = example_profile();
    profile.launch_domain = "unconfined".into();
    assert!(policy::validate_profile(&profile).is_err());

    profile.launch_domain = "unconfined_t".into();
    profile.launch_role = "unconfined".into();
    assert!(policy::validate_profile(&profile).is_err());
}

#[test]
fn duplicate_directories_are_rejected() {
    let mut profile = example_profile();
    profile.data_directories = vec![
        "/home/test/.config/google-chrome".into(),
        "/home/test/.config/google-chrome".into(),
    ];
    assert!(policy::validate_profile(&profile).is_err());
}

#[test]
fn preview_contains_file_context_operations() {
    let profile = example_profile();
    let ids = profile.identifiers();
    let preview = policy::render_preview(&profile).unwrap();

    assert!(preview.contains(&format!("# {}.te", ids.module)));
    assert!(preview.contains("semanage fcontext -a -f f"));
    assert!(preview.contains("/home/test/\\.config/google-chrome(/.*)?"));
}

#[test]
fn names_what_is_wrong_with_a_profile() {
    let valid = example_profile();
    assert!(policy::validate_profile(&valid).is_ok());

    let mut profile = valid.clone();
    profile.schema_version = 2;
    assert_eq!(
        policy::validate_profile(&profile).unwrap_err().message,
        "Unsupported profile schema version 2"
    );

    for path in ["bin/chrome", "", "/opt/../chrome", "/opt/chro\nme"] {
        let mut profile = valid.clone();
        profile.executable = path.into();
        assert_eq!(
            policy::validate_profile(&profile).unwrap_err().message,
            format!(
                "The path '{path}' must be absolute, without control characters and parent \
                 components"
            )
        );
    }

    let mut profile = valid.clone();
    profile.launch_domain = "9bad_t".into();
    assert_eq!(
        policy::validate_profile(&profile).unwrap_err().message,
        "The launch domain '9bad_t' must be an SELinux identifier that ends with '_t'"
    );
    profile.launch_domain = "bad;domain_t".into();
    assert!(policy::validate_profile(&profile).is_err());

    let mut profile = valid.clone();
    profile.launch_role = "system r".into();
    assert_eq!(
        policy::validate_profile(&profile).unwrap_err().message,
        "The launch role 'system r' must be an SELinux identifier that ends with '_r'"
    );

    let mut profile = valid.clone();
    profile.data_directories = vec!["/home/test".into()];
    assert_eq!(
        policy::validate_profile(&profile).unwrap_err().message,
        "/home/test is too broad to protect safely; select an application-specific subdirectory"
    );

    let mut profile = valid.clone();
    profile.data_directories = vec!["/var/lib/app".into(), "/var//lib/./app/".into()];
    assert_eq!(
        policy::validate_profile(&profile).unwrap_err().message,
        "The protected directory /var//lib/./app/ is listed more than once"
    );
}

#[test]
fn invalid_profiles_are_not_rendered() {
    let mut profile = example_profile();
    profile.executable = "relative".into();
    assert!(policy::render_deny_cil(&profile).is_err());
    assert!(policy::render_type_enforcement(&profile).is_err());
    assert!(policy::render_preview(&profile).is_err());
}

#[test]
fn deny_module_has_exactly_the_statements_of_the_options() {
    let mut profile = example_profile();
    profile.id = 1;
    profile.block_ptrace = false;
    profile.block_fd_use = true;
    let ids = profile.identifiers();
    let module = "microvisor_00000000000000000000000000000001";
    assert_eq!(ids.module, module);
    let mut expected = format!(
        "(typeattribute {module}_allowed_subjects)\n\
         (typeattribute {module}_denied_subjects)\n\
         (typeattributeset {module}_allowed_subjects ({module}_t))\n\
         (typeattributeset {module}_denied_subjects (not ({module}_allowed_subjects)))\n"
    );
    for class in [
        "file",
        "dir",
        "lnk_file",
        "chr_file",
        "blk_file",
        "sock_file",
        "fifo_file",
    ] {
        expected.push_str(&format!(
            "(deny {module}_denied_subjects {module}_data_t ({class} (all)))\n"
        ));
    }
    expected.push_str(&format!(
        "(deny {module}_denied_subjects {module}_t (fd (use)))\n"
    ));
    assert_eq!(policy::render_deny_cil(&profile).unwrap(), expected);
}

#[test]
fn free_text_never_becomes_policy() {
    let mut profile = example_profile();
    let te = policy::render_type_enforcement(&profile).unwrap();
    let cil = policy::render_deny_cil(&profile).unwrap();
    profile.name = "allow self self:process *;".into();
    profile.data_directories = vec!["/srv/other/data".into()];
    assert_eq!(policy::render_type_enforcement(&profile).unwrap(), te);
    assert_eq!(policy::render_deny_cil(&profile).unwrap(), cil);
}

#[test]
fn expressions_tell_paths_apart() {
    let path = policy::selinux_path_regex("/a/b.c").unwrap();
    assert_eq!(path, "/a/b\\.c");
    assert_ne!(path, policy::selinux_path_regex("/a/bxc").unwrap());
    assert_eq!(
        policy::recursive_directory_regex("/a/[b]{c}|d^e$f*g?h\\i").unwrap(),
        "/a/\\[b\\]\\{c\\}\\|d\\^e\\$f\\*g\\?h\\\\i(/.*)?"
    );
    assert_ne!(
        policy::selinux_path_regex("/a/b(/.*)?").unwrap(),
        policy::recursive_directory_regex("/a/b").unwrap()
    );
    assert_eq!(
        policy::selinux_path_regex("/a\tb").unwrap_err().message,
        "The path '/a\tb' contains control characters"
    );
    assert!(policy::recursive_directory_regex("/a\u{7f}b").is_err());
}
