use kcontext::discovery::names_from_paths;
use kcontext::dispatch::{contains_name, emit_assignment, respond, run, select_mode, Invocation, Mode, Outcome};
use kcontext::order::{text_eq, text_le_exec};
use kcontext::render::{help_text, join_names, listing_line, USAGE};
use kcontext::shell_init::{init_script, BASH_INIT, FISH_INIT, ZSH_INIT};

fn invocation(config: Option<&str>, version: bool, list: bool, shell: bool, init: Option<&str>) -> Invocation {
    Invocation {
        config: config.map(|c| c.to_string()),
        version,
        list,
        shell,
        init: init.map(|i| i.to_string()),
    }
}

/// The names that a walk of `/tmp/h/.kube` holding b.kubeconfig,
/// a.kubeconfig and notes.txt yields.
fn listing_of_h() -> Vec<String> {
    names_from_paths(&vec![
        Some("/tmp/h/.kube/b.kubeconfig".to_string()),
        Some("/tmp/h/.kube/a.kubeconfig".to_string()),
        Some("/tmp/h/.kube/notes.txt".to_string()),
    ])
}

fn names(v: &[&str]) -> Vec<String> {
    v.iter().map(|s| s.to_string()).collect()
}

fn is_mode_version(m: &Mode) -> bool {
    matches!(m, Mode::ShowVersion)
}

#[test]
fn scenario_empty_home_lists_nothing() {
    let out = run(invocation(None, false, true, false, None), "1.0.0", Some("/tmp/kcontext_tests/empty"));
    assert_eq!(out.stdout, "No kubeconfig files found in ~/.kube/*.kubeconfig\n");
    assert_eq!(out.stderr, "");
    assert_eq!(out.code, 0);
}

#[test]
fn scenario_listing() {
    let out = respond(Mode::ListCandidates, "1.0.0", Some("/tmp/h"), &listing_of_h());
    assert_eq!(out.stdout, "Available kubeconfigs: a.kubeconfig b.kubeconfig\n");
    assert_eq!(out.code, 0);
}

#[test]
fn scenario_emit() {
    let mode = select_mode(invocation(Some("a.kubeconfig"), false, false, true, None));
    let out = respond(mode, "1.0.0", Some("/tmp/h"), &listing_of_h());
    assert_eq!(out.stdout, "export KUBECONFIG='/tmp/h/.kube/a.kubeconfig'");
    assert_eq!(out.stderr, "");
    assert_eq!(out.code, 0);
}

#[test]
fn scenario_unknown_name() {
    let mode = select_mode(invocation(Some("c.kubeconfig"), false, false, true, None));
    let out = respond(mode, "1.0.0", Some("/tmp/h"), &listing_of_h());
    assert!(out.stderr.starts_with("Error: kubeconfig 'c.kubeconfig' not found"));
    assert!(out.stdout.starts_with("Usage: kcontext <kubeconfig-name>"));
    assert!(out.stdout.ends_with("Available kubeconfigs: a.kubeconfig b.kubeconfig\n"));
    assert_eq!(out.code, 1);
}

#[test]
fn scenario_wrapper_missing() {
    let mode = select_mode(invocation(Some("a.kubeconfig"), false, false, false, None));
    let out = respond(mode, "1.0.0", Some("/tmp/h"), &listing_of_h());
    assert!(out.stderr.contains("Shell integration not loaded"));
    assert!(out.stderr.contains("eval \"$(kcontext --init bash)\""));
    assert_eq!(out.stdout, "");
    assert_eq!(out.code, 1);
}

#[test]
fn scenario_unsupported_shell() {
    let out = run(invocation(None, false, false, false, Some("ksh")), "1.0.0", None);
    assert!(out.stderr.contains("unsupported shell 'ksh'"));
    assert_eq!(out.stderr, "Error: unsupported shell 'ksh'. Supported: bash, zsh, fish\n");
    assert_eq!(out.stdout, "");
    assert_eq!(out.code, 1);
}

#[test]
fn version_line() {
    let out = run(invocation(None, true, false, false, None), "0.3.1", None);
    assert_eq!(out.stdout, "kcontext version 0.3.1\n");
    assert_eq!(out.code, 0);
}

#[test]
fn version_takes_precedence_over_everything() {
    let mode = select_mode(invocation(Some("a.kubeconfig"), true, true, true, Some("bash")));
    assert!(is_mode_version(&mode));
}

#[test]
fn init_takes_precedence_over_list_and_name() {
    let out = run(invocation(Some("a.kubeconfig"), false, true, true, Some("zsh")), "1", None);
    assert_eq!(out.stdout, ZSH_INIT);
    assert_eq!(out.code, 0);
}

#[test]
fn list_takes_precedence_over_name() {
    let mode = select_mode(invocation(Some("a.kubeconfig"), false, true, true, None));
    let out = respond(mode, "1", Some("/tmp/h"), &listing_of_h());
    assert_eq!(out.stdout, "Available kubeconfigs: a.kubeconfig b.kubeconfig\n");
    assert_eq!(out.code, 0);
}

#[test]
fn no_arguments_show_help() {
    let mode = select_mode(invocation(None, false, false, true, None));
    let out = respond(mode, "1", Some("/tmp/h"), &listing_of_h());
    assert_eq!(out.stdout, format!("{}Available kubeconfigs: a.kubeconfig b.kubeconfig\n", USAGE));
    assert_eq!(out.stderr, "");
    assert_eq!(out.code, 0);
}

#[test]
fn exit_codes_per_mode() {
    let n = listing_of_h();
    let cases: Vec<(Mode, i32)> = vec![
        (Mode::ShowVersion, 0),
        (Mode::ShowHelp, 0),
        (Mode::ListCandidates, 0),
        (Mode::EmitShellInit("fish".to_string()), 0),
        (Mode::EmitShellInit("Bash".to_string()), 1),
        (Mode::EmitAssignment { name: "a.kubeconfig".to_string(), shell: true }, 0),
        (Mode::EmitAssignment { name: "a.kubeconfig".to_string(), shell: false }, 1),
        (Mode::EmitAssignment { name: "z.kubeconfig".to_string(), shell: true }, 1),
    ];
    for (mode, code) in cases {
        let out: Outcome = respond(mode, "1", Some("/tmp/h"), &n);
        assert_eq!(out.code, code);
    }
}

#[test]
fn emit_without_home_uses_dot() {
    let out = respond(
        Mode::EmitAssignment { name: "a.kubeconfig".to_string(), shell: true },
        "1",
        None,
        &names(&["a.kubeconfig"]),
    );
    assert_eq!(out.stdout, "export KUBECONFIG='./.kube/a.kubeconfig'");
}

#[test]
fn emitter_exact_text() {
    assert_eq!(emit_assignment("/home/u", "prod.kubeconfig"), "export KUBECONFIG='/home/u/.kube/prod.kubeconfig'");
    assert!(!emit_assignment("/home/u", "prod.kubeconfig").ends_with('\n'));
}

#[test]
fn init_scripts_are_stable() {
    assert_eq!(init_script("bash"), Some(BASH_INIT));
    assert_eq!(init_script("zsh"), Some(ZSH_INIT));
    assert_eq!(init_script("fish"), Some(FISH_INIT));
    assert_eq!(init_script("bash"), init_script("bash"));
    assert!(BASH_INIT.starts_with("# kcontext shell integration for bash\n"));
    assert!(BASH_INIT.ends_with("complete -F _kcontext_completion kcontext\n"));
    assert!(ZSH_INIT.ends_with("compdef _kcontext_completion kcontext\n"));
    assert!(FISH_INIT.contains("sed 's/Available kubeconfigs: //'"));
    assert_eq!(init_script("ksh"), None);
    assert_eq!(init_script("BASH"), None);
    assert_eq!(init_script(""), None);
}

#[test]
fn listing_line_forms() {
    assert_eq!(listing_line(&Vec::new()), "No kubeconfig files found in ~/.kube/*.kubeconfig\n");
    assert_eq!(listing_line(&names(&["x.kubeconfig"])), "Available kubeconfigs: x.kubeconfig\n");
    assert_eq!(join_names(&names(&["a", "b", "c"])), "a b c");
    assert_eq!(join_names(&Vec::new()), "");
}

#[test]
fn help_ends_with_listing() {
    let h = help_text(&Vec::new());
    assert!(h.starts_with("Usage: kcontext <kubeconfig-name>\n\nSetup: Add to your shell config:\n"));
    assert!(h.contains("  --shell         Output shell command (for eval integration)\n\n"));
    assert!(h.ends_with("No kubeconfig files found in ~/.kube/*.kubeconfig\n"));
}

#[test]
fn text_helpers() {
    assert!(text_eq("bash", "bash"));
    assert!(!text_eq("bash", "bas"));
    assert!(text_le_exec(&"B".to_string(), &"a".to_string()));
    assert!(text_le_exec(&"a".to_string(), &"ab".to_string()));
    assert!(!text_le_exec(&"b".to_string(), &"ab".to_string()));
    assert!(text_le_exec(&"z".to_string(), &"é".to_string()));
    assert!(contains_name(&names(&["a", "b"]), &"b".to_string()));
    assert!(!contains_name(&names(&["a", "b"]), &"c".to_string()));
}
