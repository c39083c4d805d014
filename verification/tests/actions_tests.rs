//! Tests for the editor command definitions: the defaults and the data
//! they carry.

use overwrite_mode::actions::{
    CodeActionSource, ConfirmCompletion, DisplayRow, FoldAtLevel, HandleInput,
    MoveToBeginningOfLine, MoveToEndOfLine, SelectNext, ToggleCodeActions, UuidVersion,
};

#[test]
fn action_defaults() {
    let m = MoveToBeginningOfLine::default();
    assert!(m.stop_at_soft_wraps);
    assert!(!m.stop_at_indent);
    let e = MoveToEndOfLine::default();
    assert!(e.stop_at_soft_wraps);
    let s = SelectNext::default();
    assert!(!s.replace_newest);
    let t = ToggleCodeActions::default();
    assert!(t.deployed_from.is_none());
    assert!(!t.quick_launch);
    let c = ConfirmCompletion::default();
    assert!(c.item_ix.is_none());
    assert_eq!(UuidVersion::default(), UuidVersion::V4);
    assert_eq!(HandleInput::default().0, String::new());
}

#[test]
fn action_payloads() {
    assert_eq!(FoldAtLevel(3).0, 3);
    assert_eq!(HandleInput(String::from("ab")).0, "ab");
    let src = CodeActionSource::Indicator(DisplayRow(7));
    assert_eq!(src, CodeActionSource::Indicator(DisplayRow(7)));
    assert!(src != CodeActionSource::RunMenu(DisplayRow(7)));
    assert!(CodeActionSource::QuickActionBar == CodeActionSource::QuickActionBar);
}
