use cargo_edit::args::{resolve_bool_arg, AddArgs, Command, RmArgs, UnstableOptions};
use cargo_edit::errors::EditError;

#[test]
fn bool_pairs_resolve_to_a_tri_state() {
    assert_eq!(resolve_bool_arg(true, false), Some(true));
    assert_eq!(resolve_bool_arg(false, true), Some(false));
    assert_eq!(resolve_bool_arg(false, false), None);
}

#[test]
fn default_args_add_demo_offline() {
    let a = AddArgs::default();
    assert_eq!(a.crates, vec!["demo".to_string()]);
    assert!(a.offline);
    assert!(!a.dry_run);
    assert_eq!(a.default_features(), None);
    assert_eq!(a.optional(), None);
}

#[test]
fn section_paths_follow_the_flags() {
    let mut a = AddArgs::default();
    assert_eq!(a.get_section(), vec!["dependencies".to_string()]);
    a.dev = true;
    assert_eq!(a.get_section(), vec!["dev-dependencies".to_string()]);
    a.dev = false;
    a.build = true;
    assert_eq!(a.get_section(), vec!["build-dependencies".to_string()]);
    a.build = false;
    a.target = Some("cfg(unix)".to_string());
    assert_eq!(
        a.get_section(),
        vec![
            "target".to_string(),
            "cfg(unix)".to_string(),
            "dependencies".to_string()
        ]
    );
}

#[test]
fn rm_section_names_follow_the_flags() {
    let mut r = RmArgs {
        crates: vec!["a".to_string()],
        dev: false,
        build: false,
        manifest_path: None,
        pkgid: None,
        quiet: false,
    };
    assert_eq!(r.get_section(), "dependencies");
    r.dev = true;
    assert_eq!(r.get_section(), "dev-dependencies");
    r.dev = false;
    r.build = true;
    assert_eq!(r.get_section(), "build-dependencies");
}

#[test]
fn git_without_its_gate_is_refused() {
    let mut a = AddArgs::default();
    a.git = Some("https://example.invalid/repo.git".to_string());
    assert_eq!(a.check_git_gate().unwrap_err(), EditError::UnstableGitFlag);
    a.unstable_features = vec![UnstableOptions::Git];
    assert!(a.check_git_gate().is_ok());
}

#[test]
fn commands_carry_their_flag_sets() {
    let add = Command::Add(AddArgs::default());
    match add {
        Command::Add(a) => assert_eq!(a.crates, vec!["demo".to_string()]),
        Command::Rm(_) => panic!("built an add command"),
    }
}
