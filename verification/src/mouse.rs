//! What a press of the mouse button means.

use vstd::prelude::*;

verus! {

/// A place in the tab bar.
#[derive(Debug, Clone, Copy, PartialEq, Eq, Structural)]
pub enum TabHit {
    /// The close button of the tab at this index.
    Close(usize),
    /// The rest of the tab at this index.
    Body(usize),
}

/// What is done about a press.
#[derive(Debug, Clone, Copy, PartialEq, Eq, Structural)]
pub enum Press {
    CloseTab(usize),
    SwitchTab(usize),
    /// Open the link under the mouse.
    OpenLink,
    /// Begin a selection.
    Select,
}

/// What a press of the left button means.
pub open spec fn meaning(tab: Option<TabHit>, super_held: bool, on_link: bool) -> Press {
    match tab {
        Some(TabHit::Close(i)) => Press::CloseTab(i),
        Some(TabHit::Body(i)) => Press::SwitchTab(i),
        None => if super_held && on_link {
            Press::OpenLink
        } else {
            Press::Select
        },
    }
}

/// A press on a tab is about that very tab, whatever is held or lies below, and its
/// close button is apart from the rest of it; elsewhere a link is opened only where
/// there is one and Super is held, and any other press begins a selection.
pub proof fn press_is_about_what_it_hits(
    tab: Option<TabHit>,
    super_held: bool,
    on_link: bool,
    i: usize,
)
    ensures
        tab == Some(TabHit::Close(i)) <==> meaning(tab, super_held, on_link) == Press::CloseTab(i),
        tab == Some(TabHit::Body(i)) <==> meaning(tab, super_held, on_link) == Press::SwitchTab(i),
        meaning(tab, super_held, on_link) == Press::OpenLink <==> tab is None && super_held
            && on_link,
        meaning(tab, super_held, on_link) == Press::Select <==> tab is None && !(super_held
            && on_link),
{
}

/// Decides what a press of the left button does. The tab bar comes first, then a
/// link when Super is held, and else a selection begins.
pub fn press(tab: Option<TabHit>, super_held: bool, on_link: bool) -> (r: Press)
    ensures
        r == match tab {
            Some(TabHit::Close(i)) => Press::CloseTab(i),
            Some(TabHit::Body(i)) => Press::SwitchTab(i),
            None => if super_held && on_link {
                Press::OpenLink
            } else {
                Press::Select
            },
        },
        r == meaning(tab, super_held, on_link),
{
    match tab {
        Some(TabHit::Close(i)) => Press::CloseTab(i),
        Some(TabHit::Body(i)) => Press::SwitchTab(i),
        None => {
            if super_held && on_link {
                Press::OpenLink
            } else {
                Press::Select
            }
        },
    }
}

} // verus!
