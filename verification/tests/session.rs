use rivi::action::Action;
use rivi::executor::{execute, render_help, Editor, ExecOutcome};
use rivi::surface::Surface;

#[test]
fn load_request_leaves_session_unchanged() {
    let mut ed = Editor::new();
    ed.surface.insert_str("hello");
    let actions = vec![Action::Load("missing.txt".to_string())];
    let mut out: Vec<String> = Vec::new();
    let r = execute(&actions, 0, &mut ed, &mut out);
    assert_eq!(
        r,
        ExecOutcome::ReadFile {
            path: "missing.txt".to_string(),
            next: 1
        }
    );
    assert_eq!(ed.surface.text(), "hello");
    assert_eq!(ed.active_file_path, None);
    assert!(!ed.exit_requested);
    assert!(out.is_empty());
}

#[test]
fn exit_then_show_still_renders() {
    let mut ed = Editor::new();
    ed.surface.insert_str("abc");
    let actions = vec![Action::Exit, Action::Show];
    let mut out: Vec<String> = Vec::new();
    let r = execute(&actions, 0, &mut ed, &mut out);
    assert_eq!(r, ExecOutcome::Finished);
    assert!(ed.exit_requested);
    assert_eq!(out, vec!["1 | abc".to_string()]);
}

#[test]
fn finish_load_replaces_document_and_remembers_path() {
    let mut ed = Editor::new();
    ed.surface.insert_str("previous");
    ed.finish_load("notes.txt".to_string(), "x\ny");
    assert_eq!(ed.surface.text(), "x\ny");
    assert_eq!(ed.active_file_path, Some("notes.txt".to_string()));
    let (row, col) = ed.surface.cursor();
    assert_eq!((row, col), (0, 0));
}

#[test]
fn load_then_show_after_resume() {
    let mut ed = Editor::new();
    let actions = vec![Action::Load("z.txt".to_string()), Action::Show];
    let mut out: Vec<String> = Vec::new();
    let r = execute(&actions, 0, &mut ed, &mut out);
    assert_eq!(
        r,
        ExecOutcome::ReadFile {
            path: "z.txt".to_string(),
            next: 1
        }
    );
    ed.finish_load("z.txt".to_string(), "zz");
    let r = execute(&actions, 1, &mut ed, &mut out);
    assert_eq!(r, ExecOutcome::Finished);
    assert_eq!(out, vec!["1 | zz".to_string()]);
}

#[test]
fn save_requests_write_without_changing_active_file() {
    let mut ed = Editor::new();
    ed.surface.insert_str("data");
    let actions = vec![Action::Save("out.txt".to_string())];
    let mut out: Vec<String> = Vec::new();
    let r = execute(&actions, 0, &mut ed, &mut out);
    assert_eq!(
        r,
        ExecOutcome::WriteFile {
            path: "out.txt".to_string(),
            text: "data".to_string(),
            next: 1
        }
    );
    assert_eq!(ed.active_file_path, None);
}

#[test]
fn save_current_file_without_file_is_a_no_op() {
    let mut ed = Editor::new();
    ed.surface.insert_str("data");
    let actions = vec![Action::SaveCurrentFile];
    let mut out: Vec<String> = Vec::new();
    let r = execute(&actions, 0, &mut ed, &mut out);
    assert_eq!(r, ExecOutcome::Finished);
    assert!(out.is_empty());
}

#[test]
fn save_current_file_writes_to_remembered_path() {
    let mut ed = Editor::new();
    ed.finish_load("kept.txt".to_string(), "body");
    let actions = vec![Action::SaveCurrentFile];
    let mut out: Vec<String> = Vec::new();
    let r = execute(&actions, 0, &mut ed, &mut out);
    assert_eq!(
        r,
        ExecOutcome::WriteFile {
            path: "kept.txt".to_string(),
            text: "body".to_string(),
            next: 1
        }
    );
}

#[test]
fn replace_current_line_deletes_then_inserts() {
    let mut ed = Editor::new();
    ed.surface.insert_str("old text");
    let actions = vec![Action::ReplaceCurrentLine("new".to_string())];
    let mut out: Vec<String> = Vec::new();
    let r = execute(&actions, 0, &mut ed, &mut out);
    assert_eq!(r, ExecOutcome::Finished);
    assert_eq!(ed.surface.text(), "new");
}

#[test]
fn insert_line_below_creates_empty_line_under_cursor() {
    let mut ed = Editor::new();
    ed.surface.insert_str("ab");
    let actions = vec![Action::InsertLineBelow];
    let mut out: Vec<String> = Vec::new();
    execute(&actions, 0, &mut ed, &mut out);
    assert_eq!(ed.surface.text(), "ab\n");
    assert_eq!(ed.surface.cursor(), (1, 0));
}

#[test]
fn insert_line_above_creates_empty_line_before_current() {
    let mut ed = Editor::new();
    ed.surface.insert_str("ab");
    let actions = vec![Action::InsertLineAbove];
    let mut out: Vec<String> = Vec::new();
    execute(&actions, 0, &mut ed, &mut out);
    assert_eq!(ed.surface.text(), "\nab");
    assert_eq!(ed.surface.cursor(), (0, 0));
}

#[test]
fn move_to_clamps_to_buffer() {
    let mut ed = Editor::new();
    ed.finish_load("f".to_string(), "ab\ncdef");
    let actions = vec![Action::MoveTo {
        line: 99,
        column: 99,
    }];
    let mut out: Vec<String> = Vec::new();
    execute(&actions, 0, &mut ed, &mut out);
    assert_eq!(ed.surface.cursor(), (1, 4));
}

#[test]
fn movement_saturates_at_edges() {
    let mut s = Surface::new();
    s.move_left();
    s.move_up();
    assert_eq!(s.cursor(), (0, 0));
    s.insert_str("ab");
    s.move_right();
    assert_eq!(s.cursor(), (0, 2));
    s.move_down();
    assert_eq!(s.cursor(), (0, 2));
    s.move_to_line_begin();
    assert_eq!(s.cursor(), (0, 0));
    s.move_to_line_end();
    assert_eq!(s.cursor(), (0, 2));
}

#[test]
fn show_numbers_lines_with_aligned_width() {
    let mut ed = Editor::new();
    let text = "a\nb\nc\nd\ne\nf\ng\nh\ni\nj";
    ed.finish_load("f".to_string(), text);
    let actions = vec![Action::Show];
    let mut out: Vec<String> = Vec::new();
    execute(&actions, 0, &mut ed, &mut out);
    assert_eq!(out.len(), 10);
    assert_eq!(out[0], " 1 | a");
    assert_eq!(out[9], "10 | j");
}

#[test]
fn show_current_line_draws_caret_under_cursor() {
    let mut ed = Editor::new();
    ed.surface.insert_str("abc");
    let actions = vec![Action::ShowCurrentLine];
    let mut out: Vec<String> = Vec::new();
    execute(&actions, 0, &mut ed, &mut out);
    assert_eq!(out.len(), 2);
    assert_eq!(out[0], "1 | abc");
    assert_eq!(out[1], "       ^");
}

#[test]
fn help_prints_one_row_per_alias() {
    let rows = render_help();
    assert_eq!(rows.len(), 20);
    assert_eq!(rows[0], "           exit | Exit the program.");
    assert_eq!(rows[3], "load [filename] | ");
}

#[test]
fn help_action_emits_command_reference() {
    let mut ed = Editor::new();
    let actions = vec![Action::Help];
    let mut out: Vec<String> = Vec::new();
    let r = execute(&actions, 0, &mut ed, &mut out);
    assert_eq!(r, ExecOutcome::Finished);
    assert_eq!(out, render_help());
}

#[test]
fn default_editor_is_fresh() {
    let ed = Editor::default();
    assert_eq!(ed.surface.text(), "");
    assert_eq!(ed.active_file_path, None);
    assert!(!ed.exit_requested);
}

#[test]
fn parsed_line_executes_in_order() {
    let mut ed = Editor::new();
    let actions = rivi::parser::Parser::parse(". hi").unwrap();
    let mut out: Vec<String> = Vec::new();
    let r = execute(&actions, 0, &mut ed, &mut out);
    assert_eq!(r, ExecOutcome::Finished);
    assert_eq!(ed.surface.text(), "hi");
}

#[test]
fn surface_text_round_trip() {
    let s = Surface::with_text("a\n\nb");
    assert_eq!(s.line_count(), 3);
    assert_eq!(s.text(), "a\n\nb");
    assert_eq!(s.line_at(1), "");
}

#[test]
fn cursor_line_text_follows_cursor() {
    let mut s = Surface::with_text("one\ntwo");
    assert_eq!(s.get_line_at_cursor(), "one");
    s.move_down();
    assert_eq!(s.get_line_at_cursor(), "two");
}
