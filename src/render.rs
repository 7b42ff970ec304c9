//! The listing line and the help text.
use crate::discovery::views;
use vstd::prelude::*;
use vstd::string::StringExecFns;

verus! {

/// Shown in place of the listing when no configuration name was found.
pub const NO_CONFIGS: &'static str = "No kubeconfig files found in ~/.kube/*.kubeconfig";

/// Starts the listing line; the shell completions strip it off.
pub const LISTING_PREFIX: &'static str = "Available kubeconfigs: ";

/// The usage block that opens the help text.
pub const USAGE: &'static str = "Usage: kcontext <kubeconfig-name>\n\nSetup: Add to your shell config:\n  Bash:  eval \"$(kcontext --init bash)\"\n  Zsh:   eval \"$(kcontext --init zsh)\"\n  Fish:  kcontext --init fish | source\n\nOptions:\n  --init <shell>  Generate shell integration (bash, zsh, fish)\n  --list          List available kubeconfig files\n  --version       Show version\n  --shell         Output shell command (for eval integration)\n\n";

/// The names joined by single spaces.
pub open spec fn joined(names: Seq<Seq<char>>) -> Seq<char>
    decreases names.len(),
{
    if names.len() == 0 {
        seq![]
    } else if names.len() == 1 {
        names[0]
    } else {
        joined(names.drop_last()) + " "@ + names.last()
    }
}

/// The listing line for `names`, with its newline.
pub open spec fn listing_text(names: Seq<Seq<char>>) -> Seq<char> {
    if names.len() == 0 {
        NO_CONFIGS@ + "\n"@
    } else {
        LISTING_PREFIX@ + joined(names) + "\n"@
    }
}

/// The help text for `names`: the usage block, then the listing line.
pub open spec fn help_text_of(names: Seq<Seq<char>>) -> Seq<char> {
    USAGE@ + listing_text(names)
}

/// The names joined by single spaces.
pub fn join_names(names: &Vec<String>) -> (r: String)
    ensures
        r@ == joined(views(names@)),
{
    let mut r = String::new();
    let mut i: usize = 0;
    while i < names.len()
        invariant
            i <= names@.len(),
            r@ == joined(views(names@.subrange(0, i as int))),
        decreases names@.len() - i,
    {
        let ghost pre = views(names@.subrange(0, i as int));
        let ghost next = views(names@.subrange(0, i + 1));
        assert(next.drop_last() =~= pre);
        assert(next.last() == names@[i as int]@);
        if i > 0 {
            r.append(" ");
        } else {
            assert(pre.len() == 0);
        }
        r.append(names[i].as_str());
        i = i + 1;
    }
    assert(names@.subrange(0, names@.len() as int) =~= names@);
    r
}

/// The listing line for `names`, with its newline.
pub fn listing_line(names: &Vec<String>) -> (r: String)
    ensures
        r@ == listing_text(views(names@)),
{
    if names.len() == 0 {
        let mut r = NO_CONFIGS.to_owned();
        r.append("\n");
        r
    } else {
        let mut r = LISTING_PREFIX.to_owned();
        r.append(join_names(names).as_str());
        r.append("\n");
        r
    }
}

/// The help text for `names`: the usage block, then the listing line.
pub fn help_text(names: &Vec<String>) -> (r: String)
    ensures
        r@ == help_text_of(views(names@)),
{
    let mut r = USAGE.to_owned();
    r.append(listing_line(names).as_str());
    r
}

} // verus!
