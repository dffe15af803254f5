//! What to do about the options of the command line.
use crate::init::options::Options;
use vstd::prelude::*;

verus! {

/// What the program does next.
#[derive(Clone, Copy, Debug, PartialEq, Eq, Structural)]
pub enum Action {
    /// Name the unknown words, point to the usage page, and give up.
    RejectUnknown,
    /// Say that no argument was given, point to the usage page, and give up.
    RejectEmpty,
    /// Print the usage page.
    ShowUsage,
    /// Read the settings, and give up if the service runs already.
    Start,
    /// Stop the service.
    Stop,
    /// Reload the service.
    Reload,
    /// Print the settings.
    Show,
    /// Nothing was asked for.
    Nothing,
}

/// The action that `option` calls for: the first of these that applies.
pub open spec fn action_for(
    unknown: nat,
    empty: bool,
    help: bool,
    start: bool,
    stop: bool,
    reload: bool,
    show: bool,
) -> Action {
    if unknown != 0 {
        Action::RejectUnknown
    } else if empty {
        Action::RejectEmpty
    } else if help {
        Action::ShowUsage
    } else if start {
        Action::Start
    } else if stop {
        Action::Stop
    } else if reload {
        Action::Reload
    } else if show {
        Action::Show
    } else {
        Action::Nothing
    }
}

/// Decides what to do about the options.
///
/// Unknown words come first, then an empty command line; after that `help`
/// goes before `start`, `start` before `stop`, `stop` before `reload`, and
/// `reload` before `show`.
pub fn deal_with_options(option: &Options) -> (action: Action)
    ensures
        action == action_for(
            option.unknown@.len(),
            option.empty,
            option.help,
            option.start,
            option.stop,
            option.reload,
            option.show,
        ),
{
    if option.unknown.len() != 0 {
        Action::RejectUnknown
    } else if option.empty {
        Action::RejectEmpty
    } else if option.help {
        Action::ShowUsage
    } else if option.start {
        Action::Start
    } else if option.stop {
        Action::Stop
    } else if option.reload {
        Action::Reload
    } else if option.show {
        Action::Show
    } else {
        Action::Nothing
    }
}

/// The lines of the usage page.
pub open spec fn usage() -> Seq<&'static str> {
    seq![
        "HeyStack\n",
        "Arguments:",
        "  h, help     Show the usage page",
        "  s, start    Start the HeyStack service",
        "  show        Show the config file",
        "  r, reload   Reload program from config file",
        "  stop        Stop the program",
    ]
}

/// The usage page, line by line.
pub fn show_usage() -> (lines: Vec<&'static str>)
    ensures
        lines@ == usage(),
{
    let mut lines: Vec<&'static str> = Vec::new();
    lines.push("HeyStack\n");
    lines.push("Arguments:");
    lines.push("  h, help     Show the usage page");
    lines.push("  s, start    Start the HeyStack service");
    lines.push("  show        Show the config file");
    lines.push("  r, reload   Reload program from config file");
    lines.push("  stop        Stop the program");
    assert(lines@ =~= usage());
    lines
}

} // verus!
