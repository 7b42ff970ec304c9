//! The shell integration scripts: for bash, zsh and fish, a wrapper
//! function `kcontext` that evaluates what the binary emits, and the
//! completion of configuration names.
use crate::order::text_eq;
use vstd::prelude::*;

verus! {

/// The integration script for bash.
pub const BASH_INIT: &'static str = r#"# kcontext shell integration for bash
function kcontext {
    # Pass flags directly to the binary
    if [ "$1" = "--list" ] || [ "$1" = "--version" ] || [ "$1" = "--help" ] || [ -z "$1" ]; then
        command kcontext "$@"
        return $?
    fi
    
    # Get the export command from the binary and evaluate it
    local cmd
    cmd=$(command kcontext --shell "$@")
    local exit_code=$?
    
    if [ $exit_code -eq 0 ]; then
        eval "$cmd"
    else
        return $exit_code
    fi
}

# Bash completion
function _kcontext_completion {
    local cur="${COMP_WORDS[COMP_CWORD]}"
    local configs
    configs=$(command kcontext --list 2>/dev/null | sed 's/Available kubeconfigs: //')
    mapfile -t COMPREPLY < <(compgen -W "${configs}" -- "${cur}")
}

complete -F _kcontext_completion kcontext
"#;

/// The integration script for zsh.
pub const ZSH_INIT: &'static str = r#"# kcontext shell integration for zsh
function kcontext {
    # Pass flags directly to the binary
    if [ "$1" = "--list" ] || [ "$1" = "--version" ] || [ "$1" = "--help" ] || [ -z "$1" ]; then
        command kcontext "$@"
        return $?
    fi
    
    # Get the export command from the binary and evaluate it
    local cmd
    cmd=$(command kcontext --shell "$@")
    local exit_code=$?
    
    if [ $exit_code -eq 0 ]; then
        eval "$cmd"
    else
        return $exit_code
    fi
}

# Zsh completion
function _kcontext_completion {
    local -a configs
    configs=(${(f)"$(command kcontext --list 2>/dev/null | sed 's/Available kubeconfigs: //')"})
    _describe 'kubeconfig' configs
}

compdef _kcontext_completion kcontext
"#;

/// The integration script for fish.
pub const FISH_INIT: &'static str = r#"# kcontext shell integration for fish
function kcontext
    # Pass flags directly to the binary
    if test "$argv[1]" = "--list"; or test "$argv[1]" = "--version"; or test "$argv[1]" = "--help"; or test (count $argv) -eq 0
        command kcontext $argv
        return $status
    end
    
    # Get the export command from the binary and evaluate it
    set -l cmd (command kcontext --shell $argv)
    set -l exit_code $status
    
    if test $exit_code -eq 0
        eval $cmd
    else
        return $exit_code
    end
end

# Fish completion
complete -c kcontext -f -a "(command kcontext --list 2>/dev/null | sed 's/Available kubeconfigs: //')"
"#;

/// The integration script for the shell named `shell`; the names are
/// exactly `bash`, `zsh` and `fish`, and any other has none.
pub open spec fn init_script_of(shell: Seq<char>) -> Option<Seq<char>> {
    if shell == "bash"@ {
        Some(BASH_INIT@)
    } else if shell == "zsh"@ {
        Some(ZSH_INIT@)
    } else if shell == "fish"@ {
        Some(FISH_INIT@)
    } else {
        None
    }
}

/// The integration script for the shell named `shell`, or `None` for a shell
/// that is not supported. Names are compared exactly, case included.
pub fn init_script(shell: &str) -> (r: Option<&'static str>)
    ensures
        match r {
            Some(s) => init_script_of(shell@) == Some(s@),
            None => init_script_of(shell@).is_none(),
        },
{
    if text_eq(shell, "bash") {
        Some(BASH_INIT)
    } else if text_eq(shell, "zsh") {
        Some(ZSH_INIT)
    } else if text_eq(shell, "fish") {
        Some(FISH_INIT)
    } else {
        None
    }
}

} // verus!
