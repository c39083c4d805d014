//! Scenario tests for the overwrite-mode session: keystrokes, undo
//! motions, mode toggling, and the edge cases at line ends and text ends.

use overwrite_mode::session::Editor;
use overwrite_mode::TextBuffer;

fn text(s: &str) -> Vec<char> {
    s.chars().collect()
}

fn editor_at(s: &str, cursors: Vec<usize>) -> Editor {
    Editor::new(TextBuffer::from_chars(text(s)), cursors)
}

#[test]
fn concrete_overwrite_and_undo() {
    // buffer "abc", cursor at offset 0
    let mut ed = editor_at("abc", vec![0]);
    ed.toggle_overwrite();
    assert!(ed.overwrite_active());

    ed.keystroke('X');
    assert_eq!(ed.buffer.chars(), &text("Xbc"));
    assert_eq!(ed.cursors, vec![1]);
    assert_eq!(ed.recorded_count(), 1);
    assert_eq!(ed.recorded(0, 1).unwrap(), &text("a"));

    ed.keystroke('Y');
    assert_eq!(ed.buffer.chars(), &text("XYc"));
    assert_eq!(ed.cursors, vec![2]);
    assert_eq!(ed.recorded_count(), 2);
    assert_eq!(ed.recorded(0, 1).unwrap(), &text("a"));
    assert_eq!(ed.recorded(1, 2).unwrap(), &text("b"));

    assert_eq!(ed.undo_motion(), 0);
    assert_eq!(ed.buffer.chars(), &text("Xbc"));
    assert_eq!(ed.cursors, vec![1]);

    assert_eq!(ed.undo_motion(), 0);
    assert_eq!(ed.buffer.chars(), &text("abc"));
    assert_eq!(ed.cursors, vec![0]);
    assert_eq!(ed.recorded_count(), 0);
}

#[test]
fn round_trip_mixed_keystrokes() {
    // overwrites, then a newline, then end-of-line insertions; as many
    // undo motions return text and cursor exactly to the entry state
    let mut ed = editor_at("hello\nworld", vec![3]);
    ed.toggle_overwrite();
    for ch in ['A', 'B', '\n', 'C', 'D'] {
        ed.keystroke(ch);
    }
    assert_eq!(ed.cursors, vec![8]);
    for _ in 0..5 {
        assert_eq!(ed.undo_motion(), 0);
    }
    assert_eq!(ed.buffer.chars(), &text("hello\nworld"));
    assert_eq!(ed.cursors, vec![3]);
    assert_eq!(ed.recorded_count(), 0);
}

#[test]
fn insertion_shift_at_end_of_line() {
    // three characters typed at end-of-line, then a fourth; one undo
    // removes exactly the fourth and leaves the first three untouched
    let mut ed = editor_at("ab", vec![2]);
    ed.toggle_overwrite();
    ed.keystroke('x');
    ed.keystroke('y');
    ed.keystroke('z');
    assert_eq!(ed.buffer.chars(), &text("abxyz"));
    ed.keystroke('w');
    assert_eq!(ed.buffer.chars(), &text("abxyzw"));
    assert_eq!(ed.recorded(5, 6).unwrap(), &text(""));

    assert_eq!(ed.undo_motion(), 0);
    assert_eq!(ed.buffer.chars(), &text("abxyz"));
    assert_eq!(ed.cursors, vec![5]);
    assert_eq!(ed.recorded(2, 3).unwrap(), &text(""));
    assert_eq!(ed.recorded(3, 4).unwrap(), &text(""));
    assert_eq!(ed.recorded(4, 5).unwrap(), &text(""));
}

#[test]
fn newline_is_inserted_not_overwritten() {
    // a newline in overwrite mode never overwrites; undoing it removes
    // only the inserted newline
    let mut ed = editor_at("abcd", vec![2]);
    ed.toggle_overwrite();
    ed.keystroke('\n');
    assert_eq!(ed.buffer.chars(), &text("ab\ncd"));
    assert_eq!(ed.cursors, vec![3]);
    assert_eq!(ed.recorded(2, 3).unwrap(), &text(""));

    assert_eq!(ed.undo_motion(), 0);
    assert_eq!(ed.buffer.chars(), &text("abcd"));
    assert_eq!(ed.cursors, vec![2]);
    assert_eq!(ed.recorded_count(), 0);
}

#[test]
fn boundary_of_text_inserts() {
    // at the last column of the last line the keystroke is an insertion
    // with an empty tracked original; undo removes just that character
    let mut ed = editor_at("xy", vec![2]);
    ed.toggle_overwrite();
    ed.keystroke('Q');
    assert_eq!(ed.buffer.chars(), &text("xyQ"));
    assert_eq!(ed.recorded(2, 3).unwrap(), &text(""));

    assert_eq!(ed.undo_motion(), 0);
    assert_eq!(ed.buffer.chars(), &text("xy"));
    assert_eq!(ed.cursors, vec![2]);
}

#[test]
fn undo_without_session_is_noop() {
    let mut ed = editor_at("ab", vec![1]);
    assert_eq!(ed.undo_motion(), 0);
    assert_eq!(ed.buffer.chars(), &text("ab"));
    assert_eq!(ed.cursors, vec![1]);
    assert!(!ed.overwrite_active());
}

#[test]
fn undo_past_session_start_is_best_effort() {
    // with nothing recorded the undo motion is a tracking miss: the text
    // is left as it is and the cursor steps left
    let mut ed = editor_at("ab", vec![1]);
    ed.toggle_overwrite();
    assert_eq!(ed.undo_motion(), 1);
    assert_eq!(ed.buffer.chars(), &text("ab"));
    assert_eq!(ed.cursors, vec![0]);
}

#[test]
fn toggling_clears_session_state() {
    let mut ed = editor_at("abc", vec![0]);
    ed.toggle_overwrite();
    ed.keystroke('X');
    assert_eq!(ed.recorded_count(), 1);
    ed.toggle_overwrite();
    assert!(!ed.overwrite_active());
    assert_eq!(ed.recorded_count(), 0);
    assert!(ed.recorded(0, 1).is_none());
    // re-entering starts from a fresh tracker and snapshot
    ed.toggle_overwrite();
    assert!(ed.overwrite_active());
    assert_eq!(ed.recorded_count(), 0);
}

#[test]
fn empty_buffer_keystroke_round_trip() {
    let mut ed = editor_at("", vec![0]);
    ed.toggle_overwrite();
    ed.keystroke('a');
    assert_eq!(ed.buffer.chars(), &text("a"));
    assert_eq!(ed.cursors, vec![1]);
    assert_eq!(ed.undo_motion(), 0);
    assert_eq!(ed.buffer.chars(), &text(""));
    assert_eq!(ed.cursors, vec![0]);
}

#[test]
fn multi_cursor_replacement() {
    let mut ed = editor_at("abcd\nefgh", vec![1, 6]);
    ed.toggle_overwrite();
    ed.keystroke('Z');
    assert_eq!(ed.buffer.chars(), &text("aZcd\neZgh"));
    assert_eq!(ed.cursors, vec![2, 7]);
    assert_eq!(ed.recorded(1, 2).unwrap(), &text("b"));
    assert_eq!(ed.recorded(6, 7).unwrap(), &text("f"));

    assert_eq!(ed.undo_motion(), 0);
    assert_eq!(ed.buffer.chars(), &text("abcd\nefgh"));
    assert_eq!(ed.cursors, vec![1, 6]);
    assert_eq!(ed.recorded_count(), 0);
}

#[test]
fn multi_cursor_insertions_shift_records() {
    // cursors at the ends of both lines insert; the earlier cursor's
    // insertion shifts the record of the later one
    let mut ed = editor_at("ab\ncd", vec![2, 5]);
    ed.toggle_overwrite();
    ed.keystroke('!');
    assert_eq!(ed.buffer.chars(), &text("ab!\ncd!"));
    // the left cursor moves past its own insertion; the right one is
    // also shifted by the insertion to its left
    assert_eq!(ed.cursors, vec![3, 7]);
    assert_eq!(ed.recorded(2, 3).unwrap(), &text(""));
    assert_eq!(ed.recorded(6, 7).unwrap(), &text(""));

    assert_eq!(ed.undo_motion(), 0);
    assert_eq!(ed.buffer.chars(), &text("ab\ncd"));
}

#[test]
fn replace_motion_dispatch() {
    let mut ed = editor_at("abc", vec![0]);
    ed.toggle_overwrite();
    ed.keystroke('X');
    // a pending operator has no meaning in overwrite mode: ignored
    assert_eq!(overwrite_mode::replace_motion(&mut ed, true), 0);
    assert_eq!(ed.buffer.chars(), &text("Xbc"));
    // without one, the motion undoes the last keystroke
    assert_eq!(overwrite_mode::replace_motion(&mut ed, false), 0);
    assert_eq!(ed.buffer.chars(), &text("abc"));
    assert_eq!(ed.cursors, vec![0]);
}

#[test]
fn multi_cursor_undo_counts_misses() {
    // nothing was typed, so every cursor's undo is a tracking miss; the
    // text is restored best-effort from itself and left unchanged
    let mut ed = editor_at("abc", vec![1, 2]);
    ed.toggle_overwrite();
    assert_eq!(ed.undo_motion(), 2);
    assert_eq!(ed.buffer.chars(), &text("abc"));
    assert_eq!(ed.cursors, vec![0, 1]);
}

#[test]
fn reentering_forgets_previous_records() {
    // the mapping lives only while the mode is active: after leaving and
    // re-entering, the undo motion finds nothing and changes nothing
    let mut ed = editor_at("abc", vec![0]);
    ed.toggle_overwrite();
    ed.keystroke('X');
    ed.toggle_overwrite();
    ed.toggle_overwrite();
    assert_eq!(ed.undo_motion(), 1);
    assert_eq!(ed.buffer.chars(), &text("Xbc"));
    assert_eq!(ed.cursors, vec![0]);
}

#[test]
fn undo_at_text_start_is_noop() {
    // at offset zero there is no leftward slot: the undo motion is a
    // trailing insertion with nothing to restore and nothing to miss
    let mut ed = editor_at("\nx", vec![0]);
    ed.toggle_overwrite();
    assert_eq!(ed.undo_motion(), 0);
    assert_eq!(ed.buffer.chars(), &text("\nx"));
    assert_eq!(ed.cursors, vec![0]);
    assert_eq!(ed.recorded_count(), 0);
}
