//! The window, the tray and the dialogs: what to do on what the user does.
use crate::text::same_text;
use vstd::prelude::*;

verus! {

/// The name and the extension that the dialog offers for a format of export.
pub open spec fn filter_of(format: Seq<char>) -> (Seq<char>, Seq<char>) {
    if format == "md"@ {
        ("Markdown"@, "md"@)
    } else if format == "txt"@ {
        ("文本文件"@, "txt"@)
    } else {
        ("JSON"@, "json"@)
    }
}

/// The name and the extension that the dialog offers for a format of export. Any other
/// format is JSON.
pub fn export_filter(format: &str) -> (r: (&'static str, &'static str))
    ensures
        (r.0@, r.1@) == filter_of(format@),
{
    if same_text(format, "md") {
        ("Markdown", "md")
    } else if same_text(format, "txt") {
        ("文本文件", "txt")
    } else {
        ("JSON", "json")
    }
}

/// What an item of the tray's menu does.
#[derive(Clone, Copy, Debug, PartialEq, Eq, Structural)]
pub enum MenuAction {
    Show,
    Quit,
    Nothing,
}

/// What the item of the tray's menu with that id does.
pub fn menu_action(id: &str) -> (r: MenuAction)
    ensures
        r == (if id@ == "show"@ {
            MenuAction::Show
        } else if id@ == "quit"@ {
            MenuAction::Quit
        } else {
            MenuAction::Nothing
        }),
{
    if same_text(id, "show") {
        MenuAction::Show
    } else if same_text(id, "quit") {
        MenuAction::Quit
    } else {
        MenuAction::Nothing
    }
}

/// What happens to a window that is to be closed.
#[derive(Clone, Copy, Debug, PartialEq, Eq, Structural)]
pub enum CloseAction {
    /// It is hidden and stays.
    Hide,
    /// It closes.
    Close,
}

/// What happens to a window that is to be closed: it only closes where the program is
/// quitting.
pub fn close_action(quitting: bool) -> (r: CloseAction)
    ensures
        r == (if quitting {
            CloseAction::Close
        } else {
            CloseAction::Hide
        }),
{
    if quitting {
        CloseAction::Close
    } else {
        CloseAction::Hide
    }
}

/// A step by which the window comes to the front.
#[derive(Clone, Copy, Debug, PartialEq, Eq, Structural)]
pub enum WindowStep {
    Unminimize,
    Show,
    KeepOnTop,
    Focus,
    /// Some time later, the window stays on top no longer.
    ReleaseLater,
}

/// The steps by which the window comes to the front, from whether it is minimized, as
/// far as that is known. It is on top before it gets the focus, and no longer some time
/// after.
pub open spec fn window_steps(minimized: Option<bool>) -> Seq<WindowStep> {
    let raise = seq![
        WindowStep::Show,
        WindowStep::KeepOnTop,
        WindowStep::Focus,
        WindowStep::ReleaseLater,
    ];
    if minimized == Some(true) {
        seq![WindowStep::Unminimize] + raise
    } else {
        raise
    }
}

/// The steps by which the window comes to the front.
pub fn show_steps(minimized: Option<bool>) -> (r: Vec<WindowStep>)
    ensures
        r@ == window_steps(minimized),
{
    let mut r: Vec<WindowStep> = Vec::new();
    if let Some(b) = minimized {
        if b {
            r.push(WindowStep::Unminimize);
        }
    }
    r.push(WindowStep::Show);
    r.push(WindowStep::KeepOnTop);
    r.push(WindowStep::Focus);
    r.push(WindowStep::ReleaseLater);
    assert(r@ =~= window_steps(minimized));
    r
}

/// Whether the tray's icon brings the window to the front: on the release of the left
/// button.
pub fn click_shows(left: bool, released: bool) -> (r: bool)
    ensures
        r == (left && released),
{
    left && released
}

/// Whether the data of an earlier place are taken over: where there are none here yet.
pub fn takes_over(here: bool, there: bool) -> (r: bool)
    ensures
        r == (!here && there),
{
    !here && there
}

} // verus!
