use mdview::shortcuts::{shortcut_actions, HistoryStep, ShortcutActions, ShortcutKey};
use mdview::text::trim;

#[test]
fn f5_reloads() {
    let a = shortcut_actions(&vec![ShortcutKey::F5], false, false, false, false);
    assert_eq!(a, ShortcutActions { reload: true, step: None, toggle_theme: false, quit: false });
}

#[test]
fn ctrl_t_toggles_and_ctrl_q_quits() {
    let a = shortcut_actions(&vec![ShortcutKey::T], false, true, true, true);
    assert!(a.toggle_theme && !a.quit && !a.reload && a.step.is_none());
    let q = shortcut_actions(&vec![ShortcutKey::Q], false, true, false, false);
    assert!(q.quit && !q.toggle_theme);
    let plain = shortcut_actions(&vec![ShortcutKey::T, ShortcutKey::Q], true, false, true, true);
    assert!(!plain.toggle_theme && !plain.quit);
}

#[test]
fn alt_arrows_step_through_history_where_they_can() {
    let back = shortcut_actions(&vec![ShortcutKey::ArrowLeft], true, false, true, false);
    assert_eq!(back.step, Some(HistoryStep::Back));
    let nowhere = shortcut_actions(&vec![ShortcutKey::ArrowLeft], true, false, false, true);
    assert_eq!(nowhere.step, None);
    let forward = shortcut_actions(&vec![ShortcutKey::ArrowRight], true, false, false, true);
    assert_eq!(forward.step, Some(HistoryStep::Forward));
    let both = shortcut_actions(&vec![ShortcutKey::ArrowLeft, ShortcutKey::ArrowRight], true, false, true, true);
    assert_eq!(both.step, Some(HistoryStep::Forward));
    let no_alt = shortcut_actions(&vec![ShortcutKey::ArrowLeft], false, false, true, true);
    assert_eq!(no_alt.step, None);
}

#[test]
fn trimming_knows_unicode_white_space() {
    let s: Vec<char> = "\u{3000}\u{2003} abc\u{85}\u{a0}".chars().collect();
    assert_eq!(trim(&s).into_iter().collect::<String>(), "abc");
    let z: Vec<char> = "\u{200b}x\u{200b}".chars().collect();
    assert_eq!(trim(&z).into_iter().collect::<String>(), "\u{200b}x\u{200b}");
}
