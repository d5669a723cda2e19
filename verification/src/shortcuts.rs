//! The viewer's keyboard shortcuts: Alt+Left and Alt+Right step through the
//! history, F5 reloads, Ctrl+T toggles the theme, Ctrl+Q quits.

use vstd::prelude::*;

verus! {

/// A key that one of the shortcuts uses.
#[derive(Clone, Copy, Debug, PartialEq, Eq, Structural)]
pub enum ShortcutKey {
    F5,
    ArrowLeft,
    ArrowRight,
    T,
    Q,
}

/// A step through the navigation history.
#[derive(Clone, Copy, Debug, PartialEq, Eq, Structural)]
pub enum HistoryStep {
    Back,
    Forward,
}

/// What the keys pressed in one frame ask of the viewer.
#[derive(Clone, Copy, Debug, PartialEq, Eq, Structural)]
pub struct ShortcutActions {
    pub reload: bool,
    pub step: Option<HistoryStep>,
    pub toggle_theme: bool,
    pub quit: bool,
}

/// The shortcuts of one frame: F5 reloads; with Alt held, Left steps back
/// and Right steps forward, each only where the history has somewhere to
/// go, Right winning when both are pressed; with Ctrl held, T toggles the
/// theme and Q quits.
pub open spec fn spec_shortcut_actions(
    pressed: Seq<ShortcutKey>,
    alt: bool,
    ctrl: bool,
    can_go_back: bool,
    can_go_forward: bool,
) -> ShortcutActions {
    ShortcutActions {
        reload: pressed.contains(ShortcutKey::F5),
        step: if alt && pressed.contains(ShortcutKey::ArrowRight) && can_go_forward {
            Some(HistoryStep::Forward)
        } else if alt && pressed.contains(ShortcutKey::ArrowLeft) && can_go_back {
            Some(HistoryStep::Back)
        } else {
            None
        },
        toggle_theme: ctrl && pressed.contains(ShortcutKey::T),
        quit: ctrl && pressed.contains(ShortcutKey::Q),
    }
}

/// Whether `key` is among the pressed keys.
fn was_pressed(pressed: &Vec<ShortcutKey>, key: ShortcutKey) -> (b: bool)
    ensures
        b == pressed@.contains(key),
{
    let mut i: usize = 0;
    while i < pressed.len()
        invariant
            i <= pressed@.len(),
            forall|j: int| 0 <= j < i ==> pressed@[j] != key,
        decreases pressed@.len() - i,
    {
        if pressed[i] == key {
            assert(pressed@[i as int] == key);
            return true;
        }
        i = i + 1;
    }
    false
}

/// The actions that the keys pressed in one frame ask for, given the
/// modifiers held and where the history can go.
pub fn shortcut_actions(
    pressed: &Vec<ShortcutKey>,
    alt: bool,
    ctrl: bool,
    can_go_back: bool,
    can_go_forward: bool,
) -> (a: ShortcutActions)
    ensures
        a == spec_shortcut_actions(pressed@, alt, ctrl, can_go_back, can_go_forward),
{
    let reload = was_pressed(pressed, ShortcutKey::F5);
    let step = if alt && was_pressed(pressed, ShortcutKey::ArrowRight) && can_go_forward {
        Some(HistoryStep::Forward)
    } else if alt && was_pressed(pressed, ShortcutKey::ArrowLeft) && can_go_back {
        Some(HistoryStep::Back)
    } else {
        None
    };
    let toggle_theme = ctrl && was_pressed(pressed, ShortcutKey::T);
    let quit = ctrl && was_pressed(pressed, ShortcutKey::Q);
    ShortcutActions { reload, step, toggle_theme, quit }
}

/// Each shortcut does what the viewer documents, whatever else is pressed
/// with it: F5 reloads; Ctrl+T toggles the theme; Ctrl+Q quits; Alt+Left
/// steps back when there is somewhere to go back to (unless Alt+Right steps
/// forward in the same frame); Alt+Right steps forward when there is
/// somewhere to go forward to; and without its modifier no letter or arrow
/// does anything.
pub proof fn lemma_shortcuts(
    pressed: Seq<ShortcutKey>,
    alt: bool,
    ctrl: bool,
    can_go_back: bool,
    can_go_forward: bool,
)
    ensures
        ({
            let a = spec_shortcut_actions(pressed, alt, ctrl, can_go_back, can_go_forward);
            &&& pressed.contains(ShortcutKey::F5) ==> a.reload
            &&& ctrl && pressed.contains(ShortcutKey::T) ==> a.toggle_theme
            &&& ctrl && pressed.contains(ShortcutKey::Q) ==> a.quit
            &&& alt && pressed.contains(ShortcutKey::ArrowRight) && can_go_forward ==> a.step
                == Some(HistoryStep::Forward)
            &&& alt && pressed.contains(ShortcutKey::ArrowLeft) && can_go_back && !(
            pressed.contains(ShortcutKey::ArrowRight) && can_go_forward) ==> a.step == Some(
                HistoryStep::Back,
            )
            &&& a.step == Some(HistoryStep::Back) ==> can_go_back
            &&& a.step == Some(HistoryStep::Forward) ==> can_go_forward
            &&& !ctrl ==> !a.toggle_theme && !a.quit
            &&& !alt ==> a.step is None
        }),
{
}

} // verus!
