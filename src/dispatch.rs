//! Selection of the invocation mode, and what each mode writes and exits with.
use crate::discovery::{discover, listing_of, views};
use crate::render::{help_text, help_text_of, listing_line, listing_text};
use crate::shell_init::{init_script, init_script_of};
use vstd::prelude::*;
use vstd::string::StringExecFns;

verus! {

/// The parsed arguments of one invocation.
pub struct Invocation {
    /// The configuration name given as the positional argument.
    pub config: Option<String>,
    /// `--version` / `-v`.
    pub version: bool,
    /// `--list` / `-l`.
    pub list: bool,
    /// `--shell`: print the export command for the wrapper to evaluate.
    pub shell: bool,
    /// `--init <shell>`.
    pub init: Option<String>,
}

/// What one invocation does; exactly one mode runs.
pub enum Mode {
    /// Print the version line.
    ShowVersion,
    /// Print the integration script for the named shell.
    EmitShellInit(String),
    /// Print the listing line.
    ListCandidates,
    /// Select a configuration: print its export command where `shell` is set.
    EmitAssignment { name: String, shell: bool },
    /// Print the help text.
    ShowHelp,
}

/// What an invocation writes to stdout and stderr, and its exit code.
pub struct Outcome {
    pub stdout: String,
    pub stderr: String,
    pub code: i32,
}

/// Written to stderr when a name is given without `--shell`.
pub const WRAPPER_MISSING: &'static str = "Error: Shell integration not loaded. Run setup:\n  eval \"$(kcontext --init bash)\"  # Add to ~/.bashrc\n";

/// The mode that `inv` selects: version first, then `--init`, then
/// `--list`, then a given name, and help when there is none of these.
pub open spec fn mode_of(inv: Invocation) -> Mode {
    if inv.version {
        Mode::ShowVersion
    } else if inv.init is Some {
        Mode::EmitShellInit(inv.init->Some_0)
    } else if inv.list {
        Mode::ListCandidates
    } else if inv.config is Some {
        Mode::EmitAssignment { name: inv.config->Some_0, shell: inv.shell }
    } else {
        Mode::ShowHelp
    }
}

/// The mode that the arguments select.
pub fn select_mode(inv: Invocation) -> (r: Mode)
    ensures
        r == mode_of(inv),
{
    if inv.version {
        Mode::ShowVersion
    } else if let Some(shell) = inv.init {
        Mode::EmitShellInit(shell)
    } else if inv.list {
        Mode::ListCandidates
    } else if let Some(name) = inv.config {
        Mode::EmitAssignment { name, shell: inv.shell }
    } else {
        Mode::ShowHelp
    }
}

/// Whether the mode reads the discovery directory.
pub open spec fn needs_discovery(mode: Mode) -> bool {
    mode is ListCandidates || mode is EmitAssignment || mode is ShowHelp
}

/// The export command that selects `name` under `home`; no newline follows.
pub open spec fn assignment_of(home: Seq<char>, name: Seq<char>) -> Seq<char> {
    "export KUBECONFIG='"@ + home + "/.kube/"@ + name + "'"@
}

/// The export command that selects `name` under `home`:
/// `export KUBECONFIG='<home>/.kube/<name>'`, with no newline. Quotes inside
/// `home` or `name` are not escaped.
pub fn emit_assignment(home: &str, name: &str) -> (r: String)
    ensures
        r@ == assignment_of(home@, name@),
{
    let mut r = "export KUBECONFIG='".to_owned();
    r.append(home);
    r.append("/.kube/");
    r.append(name);
    r.append("'");
    r
}

/// The text of the home directory; `.` where there is none.
pub open spec fn home_text(home: Option<&str>) -> Seq<char> {
    match home {
        Some(h) => h@,
        None => "."@,
    }
}

/// The error line for a shell that has no integration script.
pub open spec fn unsupported_shell_text(shell: Seq<char>) -> Seq<char> {
    "Error: unsupported shell '"@ + shell + "'. Supported: bash, zsh, fish\n"@
}

/// The error line for a name that discovery did not find.
pub open spec fn not_found_text(name: Seq<char>) -> Seq<char> {
    "Error: kubeconfig '"@ + name + "' not found\n"@
}

/// What `mode` writes to stdout and to stderr and its exit code, given the
/// version text, the home directory and the discovered names.
pub open spec fn outcome_of(
    mode: Mode,
    version: Seq<char>,
    home: Option<&str>,
    names: Seq<Seq<char>>,
) -> (Seq<char>, Seq<char>, i32) {
    match mode {
        Mode::ShowVersion => ("kcontext version "@ + version + "\n"@, seq![], 0),
        Mode::EmitShellInit(shell) => match init_script_of(shell@) {
            Some(script) => (script, seq![], 0),
            None => (seq![], unsupported_shell_text(shell@), 1),
        },
        Mode::ListCandidates => (listing_text(names), seq![], 0),
        Mode::EmitAssignment { name, shell } => if !names.contains(name@) {
            (help_text_of(names), not_found_text(name@), 1)
        } else if shell {
            (assignment_of(home_text(home), name@), seq![], 0)
        } else {
            (seq![], WRAPPER_MISSING@, 1)
        },
        Mode::ShowHelp => (help_text_of(names), seq![], 0),
    }
}

/// `r` is what `outcome_of` gives for these arguments.
pub open spec fn is_outcome(
    r: Outcome,
    mode: Mode,
    version: Seq<char>,
    home: Option<&str>,
    names: Seq<Seq<char>>,
) -> bool {
    let (out, err, code) = outcome_of(mode, version, home, names);
    r.stdout@ == out && r.stderr@ == err && r.code == code
}

/// Whether `names` holds `name`.
pub fn contains_name(names: &Vec<String>, name: &String) -> (r: bool)
    ensures
        r == views(names@).contains(name@),
{
    let mut i: usize = 0;
    while i < names.len()
        invariant
            i <= names@.len(),
            forall|k: int| 0 <= k < i ==> names@[k]@ != name@,
        decreases names@.len() - i,
    {
        if names[i] == *name {
            assert(views(names@)[i as int] == name@);
            return true;
        }
        i = i + 1;
    }
    assert forall|k: int| 0 <= k < views(names@).len() implies views(names@)[k] != name@ by {
        assert(views(names@)[k] == names@[k]@);
    }
    false
}

/// What `mode` writes and exits with, for the given version text, home
/// directory and discovered names.
pub fn respond(mode: Mode, version: &str, home: Option<&str>, names: &Vec<String>) -> (r: Outcome)
    ensures
        is_outcome(r, mode, version@, home, views(names@)),
{
    match mode {
        Mode::ShowVersion => {
            let mut out = "kcontext version ".to_owned();
            out.append(version);
            out.append("\n");
            Outcome { stdout: out, stderr: String::new(), code: 0 }
        },
        Mode::EmitShellInit(shell) => match init_script(shell.as_str()) {
            Some(script) => Outcome { stdout: script.to_owned(), stderr: String::new(), code: 0 },
            None => {
                let mut err = "Error: unsupported shell '".to_owned();
                err.append(shell.as_str());
                err.append("'. Supported: bash, zsh, fish\n");
                Outcome { stdout: String::new(), stderr: err, code: 1 }
            },
        },
        Mode::ListCandidates => Outcome { stdout: listing_line(names), stderr: String::new(), code: 0 },
        Mode::EmitAssignment { name, shell } => {
            if !contains_name(names, &name) {
                let mut err = "Error: kubeconfig '".to_owned();
                err.append(name.as_str());
                err.append("' not found\n");
                Outcome { stdout: help_text(names), stderr: err, code: 1 }
            } else if shell {
                let h = match home {
                    Some(h) => h,
                    None => ".",
                };
                Outcome {
                    stdout: emit_assignment(h, name.as_str()),
                    stderr: String::new(),
                    code: 0,
                }
            } else {
                Outcome { stdout: String::new(), stderr: WRAPPER_MISSING.to_owned(), code: 1 }
            }
        },
        Mode::ShowHelp => Outcome { stdout: help_text(names), stderr: String::new(), code: 0 },
    }
}

/// Runs one invocation: selects its mode, discovers the configuration names
/// under `home` where the mode needs them, and returns what the mode writes
/// and exits with.
pub fn run(inv: Invocation, version: &str, home: Option<&str>) -> (r: Outcome)
    ensures
        exists|paths: Seq<Option<String>>|
            is_outcome(r, mode_of(inv), version@, home, #[trigger] listing_of(paths)),
        !needs_discovery(mode_of(inv)) ==> is_outcome(r, mode_of(inv), version@, home, seq![]),
{
    let mode = select_mode(inv);
    let discovered = match mode {
        Mode::ShowVersion | Mode::EmitShellInit(_) => false,
        _ => true,
    };
    let names = if discovered {
        discover(home)
    } else {
        Vec::new()
    };
    let r = respond(mode, version, home, &names);
    proof {
        if !discovered {
            let none = Seq::<Option<String>>::empty();
            crate::discovery::lemma_listing_sorted_names(none);
            assert(views(names@) =~= listing_of(none));
            assert(views(names@) =~= seq![]);
        }
    }
    r
}

/// Whether `mode` ends in success: the informational modes do, `--init` does
/// for a supported shell, and a name does only with `--shell` and when it is
/// among `names`.
pub open spec fn succeeds(mode: Mode, names: Seq<Seq<char>>) -> bool {
    match mode {
        Mode::ShowVersion | Mode::ListCandidates | Mode::ShowHelp => true,
        Mode::EmitShellInit(shell) => init_script_of(shell@) is Some,
        Mode::EmitAssignment { name, shell } => shell && names.contains(name@),
    }
}

/// The exit code is 0 exactly when the mode succeeds, and 1 otherwise.
pub proof fn lemma_exit_code(
    mode: Mode,
    version: Seq<char>,
    home: Option<&str>,
    names: Seq<Seq<char>>,
)
    ensures
        (outcome_of(mode, version, home, names).2 == 0) <==> succeeds(mode, names),
        !succeeds(mode, names) ==> outcome_of(mode, version, home, names).2 == 1,
{
}

} // verus!
