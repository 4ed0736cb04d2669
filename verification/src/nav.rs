//! Navigation decisions for a viewer of the parsed window: which tab is
//! shown, how a navigation message moves the selection, and which navigation
//! message a key press stands for.  The surrounding event loop performs the
//! rendering and the exit; the decisions themselves are made here.

use vstd::prelude::*;

verus! {

/// A navigation command for the viewer.
#[derive(Debug, Clone, Copy, PartialEq, Eq)]
pub enum Message {
    NextTab,
    PrevTab,
    Exit,
}

/// A key press, reduced to the keys the viewer reacts to.
#[derive(Debug, Clone, Copy, PartialEq, Eq)]
pub enum NavKey {
    H,
    L,
    Left,
    Right,
    Escape,
    Other,
}

/// The navigation message a key press stands for: `h` and the left arrow
/// select the previous tab, `l` and the right arrow the next, escape exits,
/// and every other key is ignored.
pub fn message_for_key(key: NavKey) -> (r: Option<Message>)
    ensures
        r == match key {
            NavKey::H => Some(Message::PrevTab),
            NavKey::Left => Some(Message::PrevTab),
            NavKey::L => Some(Message::NextTab),
            NavKey::Right => Some(Message::NextTab),
            NavKey::Escape => Some(Message::Exit),
            NavKey::Other => None::<Message>,
        },
{
    match key {
        NavKey::H => Some(Message::PrevTab),
        NavKey::Left => Some(Message::PrevTab),
        NavKey::L => Some(Message::NextTab),
        NavKey::Right => Some(Message::NextTab),
        NavKey::Escape => Some(Message::Exit),
        NavKey::Other => None,
    }
}

/// The selection counter after a navigation message: next and previous move
/// it by one with wraparound at the ends of `usize`, and exit yields no new
/// state.
pub fn update_selected_tab(selected: usize, message: Message) -> (r: Option<usize>)
    ensures
        r == match message {
            Message::NextTab => Some(
                (if selected == usize::MAX {
                    0usize
                } else {
                    (selected + 1) as usize
                }),
            ),
            Message::PrevTab => Some(
                (if selected == 0 {
                    usize::MAX
                } else {
                    (selected - 1) as usize
                }),
            ),
            Message::Exit => None::<usize>,
        },
{
    match message {
        Message::NextTab => {
            if selected == usize::MAX {
                Some(0)
            } else {
                Some(selected + 1)
            }
        },
        Message::PrevTab => {
            if selected == 0 {
                Some(usize::MAX)
            } else {
                Some(selected - 1)
            }
        },
        Message::Exit => None,
    }
}

/// The index of the tab shown for a selection counter: the counter reduced
/// modulo the number of tabs, so stepping the counter pages through the tabs
/// with wraparound.
pub fn selected_tab_index(selected: usize, tab_count: usize) -> (r: usize)
    requires
        tab_count > 0,
    ensures
        r == selected % tab_count,
        r < tab_count,
{
    selected % tab_count
}

} // verus!
