use vstd::prelude::*;

use crate::action::{Action, ActionV, actions_view};
use crate::strutil::{str_views, dec_digits, pad_left, spaces, usize_to_string, push_spaces};
use crate::surface::{Surface, SurfaceModel, split_lines};

verus! {

/// The session around the text surface: the document being edited, the
/// remembered active file, and whether the user asked to leave.
pub struct Editor {
    pub surface: Surface,
    pub active_file_path: Option<String>,
    pub exit_requested: bool,
}

/// The view of the remembered file path.
pub open spec fn file_view(f: Option<String>) -> Option<Seq<char>> {
    match f {
        Some(s) => Some(s@),
        None => None,
    }
}

impl Editor {
    pub open spec fn wf(&self) -> bool {
        self.surface.wf()
    }

    /// A fresh session: an empty document, no active file, not leaving.
    pub fn new() -> (r: Editor)
        ensures
            r.wf(),
            r.surface.model() == (SurfaceModel {
                lines: seq![Seq::<char>::empty()],
                row: 0nat,
                col: 0nat,
            }),
            r.active_file_path is None,
            r.exit_requested == false,
    {
        Editor { surface: Surface::new(), active_file_path: None, exit_requested: false }
    }

    /// The success half of loading a file: the document is replaced wholesale
    /// by the file's contents — load means a fresh document — and the path is
    /// remembered as the active file. On a failed read the caller calls
    /// nothing, and the session stays as it was.
    pub fn finish_load(&mut self, path: String, contents: &str)
        ensures
            final(self).wf(),
            final(self).surface.model() == (SurfaceModel {
                lines: split_lines(contents@),
                row: 0nat,
                col: 0nat,
            }),
            final(self).active_file_path == Some(path),
            final(self).exit_requested == old(self).exit_requested,
    {
        self.surface = Surface::with_text(contents);
        self.active_file_path = Some(path);
    }
}

impl Default for Editor {
    fn default() -> (r: Editor)
        ensures
            r.wf(),
            r.surface.model() == (SurfaceModel {
                lines: seq![Seq::<char>::empty()],
                row: 0nat,
                col: 0nat,
            }),
            r.active_file_path is None,
            r.exit_requested == false,
    {
        Editor::new()
    }
}

/// A request the dispatcher hands to its caller: read this file, or write
/// this text to that file.
pub enum IoReqV {
    Read(Seq<char>),
    Write(Seq<char>, Seq<char>),
}

/// Where a stretch of dispatching ended: the surface, the exit flag, the
/// lines printed, the position reached, and the file request pending there.
#[verifier::ext_equal]
pub struct RunState {
    pub surface: SurfaceModel,
    pub exit: bool,
    pub out: Seq<Seq<char>>,
    pub next: int,
    pub req: Option<IoReqV>,
}

/// What one action does to the surface. Actions that only print, only touch
/// the session, or need the file system leave the surface alone.
pub open spec fn step_surface(m: SurfaceModel, a: ActionV) -> SurfaceModel {
    match a {
        ActionV::MoveUp => m.move_up_m(),
        ActionV::MoveDown => m.move_down_m(),
        ActionV::MoveLeft => m.move_left_m(),
        ActionV::MoveRight => m.move_right_m(),
        ActionV::MoveToBeginning => m.move_to_begin_m(),
        ActionV::MoveToEnd => m.move_to_end_m(),
        ActionV::MoveTo { line, column } => m.move_to_m(line, column),
        ActionV::Insert(s) => m.insert_str_m(s),
        ActionV::ReplaceCurrentLine(s) => m.delete_line_m().insert_str_m(s),
        ActionV::InsertLineBelow => m.move_to_end_m().insert_char_m(
            '\n',
        ).move_to_begin_m().move_down_m(),
        ActionV::InsertLineAbove => m.move_to_begin_m().insert_char_m('\n'),
        _ => m,
    }
}

/// Whether the session's exit flag is set after the action; an `Exit` sets
/// it and nothing clears it.
pub open spec fn step_exit(e: bool, a: ActionV) -> bool {
    e || a is Exit
}

/// The file request an action makes, if any. Saving with no remembered file
/// is a silent no-op and asks for nothing.
pub open spec fn action_io(a: ActionV, file: Option<Seq<char>>, m: SurfaceModel) -> Option<
    IoReqV,
> {
    match a {
        ActionV::Load(p) => Some(IoReqV::Read(p)),
        ActionV::Save(p) => Some(IoReqV::Write(p, m.text())),
        ActionV::SaveCurrentFile => match file {
            Some(f) => Some(IoReqV::Write(f, m.text())),
            None => None,
        },
        _ => None,
    }
}

/// The rows `Show` prints: each line of the document behind its 1-based line
/// number, right-aligned to the width of the line count's numeral.
pub open spec fn render_buffer_spec(lines: Seq<Seq<char>>) -> Seq<Seq<char>> {
    let w = dec_digits(lines.len()).len();
    Seq::new(
        lines.len(),
        |i: int| pad_left(dec_digits((i + 1) as nat), w) + seq![' ', '|', ' '] + lines[i],
    )
}

/// The two rows `ShowCurrentLine` prints: the cursor's line behind its
/// 1-based number, then a caret aligned under the cursor's column.
pub open spec fn render_cursor_line_spec(m: SurfaceModel) -> Seq<Seq<char>> {
    let numeral = dec_digits(m.row + 1);
    seq![
        numeral + seq![' ', '|', ' '] + m.line_at_cursor(),
        spaces(m.col + numeral.len() + 3) + seq!['^'],
    ]
}

/// One row of the command reference: the command, right-aligned to the width
/// of the longest command, then the separator and the description.
pub open spec fn help_row(cmd: Seq<char>, help: Seq<char>) -> Seq<char> {
    pad_left(cmd, 15) + seq![' ', '|', ' '] + help
}

/// The command reference, one row per command alias; an alias after the first
/// repeats the command with no description.
pub open spec fn help_rows() -> Seq<Seq<char>> {
    seq![
        help_row("exit"@, "Exit the program."@),
        help_row("help"@, "Show this help message."@),
        help_row("l [filename]"@, "Load a file from the disk."@),
        help_row("load [filename]"@, ""@),
        help_row("s"@, "Save the current file to the disk."@),
        help_row("save"@, ""@),
        help_row("s [filename]"@, "Save data at specified path to the disk."@),
        help_row("save [filename]"@, ""@),
        help_row("show"@, "Show the entire file."@),
        help_row("showline"@, "Show the current line."@),
        help_row("v="@, "Insert a line below the current one."@),
        help_row("^="@, "Insert a line above the current one."@),
        help_row("="@, "Replace the current line with new data."@),
        help_row("lb"@, "Move the cursor to the beginning of the line."@),
        help_row("le"@, "Move the cursor to the end of the line."@),
        help_row("."@, "Inserts data at the current position"@),
        help_row("u"@, "Moves cursor left"@),
        help_row("i"@, "Moves cursor right"@),
        help_row("o"@, "Moves cursor up"@),
        help_row("p"@, "Moves cursor down"@),
    ]
}

/// The lines an action prints, as they stand before it changes anything.
pub open spec fn action_output(m: SurfaceModel, a: ActionV) -> Seq<Seq<char>> {
    match a {
        ActionV::Show => render_buffer_spec(m.lines),
        ActionV::ShowCurrentLine => render_cursor_line_spec(m),
        ActionV::Help => help_rows(),
        _ => Seq::empty(),
    }
}

/// Dispatching from position `i`: actions run strictly in order, each
/// printing and changing state at once; the stretch ends at the first action
/// that needs the file system, or after the last action. Nothing done before
/// a later failure is rolled back.
pub open spec fn run_from(
    acts: Seq<ActionV>,
    i: int,
    m: SurfaceModel,
    exit: bool,
    file: Option<Seq<char>>,
) -> RunState
    decreases acts.len() - i,
{
    if i < 0 || i >= acts.len() {
        RunState { surface: m, exit, out: Seq::empty(), next: acts.len() as int, req: None }
    } else {
        let a = acts[i];
        if action_io(a, file, m) is Some {
            RunState { surface: m, exit, out: Seq::empty(), next: i + 1, req: action_io(a, file, m) }
        } else {
            let r = run_from(acts, i + 1, step_surface(m, a), step_exit(exit, a), file);
            RunState {
                surface: r.surface,
                exit: r.exit,
                out: action_output(m, a) + r.out,
                next: r.next,
                req: r.req,
            }
        }
    }
}

fn render_numbered_line(n: usize, width: usize, line: String) -> (r: String)
    ensures
        r@ == pad_left(dec_digits(n as nat), width as nat) + seq![' ', '|', ' '] + line@,
{
    let num = usize_to_string(n);
    let numlen = num.as_str().unicode_len();
    let mut row = String::new();
    if numlen < width {
        push_spaces(&mut row, width - numlen);
    }
    row.append(num.as_str());
    row.append(" | ");
    row.append(line.as_str());
    proof {
        reveal_strlit(" | ");
        assert(" | "@ =~= seq![' ', '|', ' ']);
        assert(row@ =~= pad_left(dec_digits(n as nat), width as nat) + seq![' ', '|', ' ']
            + line@);
    }
    row
}

/// The rows `Show` prints for the document on `s`.
pub fn render_buffer(s: &Surface) -> (r: Vec<String>)
    requires
        s.wf(),
    ensures
        str_views(r@) == render_buffer_spec(s.model().lines),
{
    let count = s.line_count();
    let num = usize_to_string(count);
    let width = num.as_str().unicode_len();
    let mut out: Vec<String> = Vec::new();
    let mut i: usize = 0;
    while i < count
        invariant
            s.wf(),
            i <= count,
            count as nat == s.model().lines.len(),
            width as nat == dec_digits(s.model().lines.len()).len(),
            str_views(out@) == render_buffer_spec(s.model().lines).subrange(0, i as int),
        decreases count - i,
    {
        let ghost pre = out@;
        let row = render_numbered_line(i + 1, width, s.line_at(i));
        out.push(row);
        proof {
            assert(str_views(out@) =~= str_views(pre).push(row@));
            assert(render_buffer_spec(s.model().lines).subrange(0, i as int + 1)
                =~= render_buffer_spec(s.model().lines).subrange(0, i as int).push(
                render_buffer_spec(s.model().lines)[i as int],
            ));
        }
        i += 1;
    }
    proof {
        assert(render_buffer_spec(s.model().lines).subrange(
            0,
            s.model().lines.len() as int,
        ) =~= render_buffer_spec(s.model().lines));
    }
    out
}

/// The two rows `ShowCurrentLine` prints for the cursor's line on `s`.
pub fn render_cursor_line(s: &Surface) -> (r: Vec<String>)
    requires
        s.wf(),
    ensures
        str_views(r@) == render_cursor_line_spec(s.model()),
{
    let (row, col) = s.cursor();
    let count = s.line_count();
    proof {
        assert(row < count);
    }
    let num = usize_to_string(row + 1);
    let numlen = num.as_str().unicode_len();
    let mut first = String::new();
    first.append(num.as_str());
    first.append(" | ");
    let line = s.get_line_at_cursor();
    first.append(line.as_str());
    let mut second = String::new();
    push_spaces(&mut second, col);
    push_spaces(&mut second, numlen);
    push_spaces(&mut second, 3);
    second.append("^");
    proof {
        assert(spaces(col as nat) + spaces(numlen as nat) + spaces(3) =~= spaces(
            (col + numlen + 3) as nat,
        ));
    }
    let mut out: Vec<String> = Vec::new();
    out.push(first);
    out.push(second);
    proof {
        reveal_strlit(" | ");
        reveal_strlit("^");
        assert(" | "@ =~= seq![' ', '|', ' ']);
        assert("^"@ =~= seq!['^']);
        assert(str_views(out@) =~= render_cursor_line_spec(s.model()));
    }
    out
}

fn help_line(cmd: &str, help: &str) -> (r: String)
    ensures
        r@ == help_row(cmd@, help@),
{
    let mut row = String::new();
    let cl = cmd.unicode_len();
    if cl < 15 {
        push_spaces(&mut row, 15 - cl);
    }
    row.append(cmd);
    row.append(" | ");
    row.append(help);
    proof {
        reveal_strlit(" | ");
        assert(" | "@ =~= seq![' ', '|', ' ']);
        assert(row@ =~= help_row(cmd@, help@));
    }
    row
}

/// The command reference `Help` prints, one row per command alias, commands
/// right-aligned to the longest one.
pub fn render_help() -> (r: Vec<String>)
    ensures
        str_views(r@) == help_rows(),
{
    let mut out: Vec<String> = Vec::new();
    out.push(help_line("exit", "Exit the program."));
    out.push(help_line("help", "Show this help message."));
    out.push(help_line("l [filename]", "Load a file from the disk."));
    out.push(help_line("load [filename]", ""));
    out.push(help_line("s", "Save the current file to the disk."));
    out.push(help_line("save", ""));
    out.push(help_line("s [filename]", "Save data at specified path to the disk."));
    out.push(help_line("save [filename]", ""));
    out.push(help_line("show", "Show the entire file."));
    out.push(help_line("showline", "Show the current line."));
    out.push(help_line("v=", "Insert a line below the current one."));
    out.push(help_line("^=", "Insert a line above the current one."));
    out.push(help_line("=", "Replace the current line with new data."));
    out.push(help_line("lb", "Move the cursor to the beginning of the line."));
    out.push(help_line("le", "Move the cursor to the end of the line."));
    out.push(help_line(".", "Inserts data at the current position"));
    out.push(help_line("u", "Moves cursor left"));
    out.push(help_line("i", "Moves cursor right"));
    out.push(help_line("o", "Moves cursor up"));
    out.push(help_line("p", "Moves cursor down"));
    proof {
        assert(str_views(out@) =~= help_rows());
    }
    out
}

/// What `execute` hands back: all done, or the file request to perform before
/// resuming at `next`. After a successful read the caller calls `finish_load`
/// and resumes; after a failed read it stops, reporting the error, and what
/// ran before stays done. After a write the caller always resumes: a failed
/// write is silently ignored.
#[derive(Debug, PartialEq, Eq)]
pub enum ExecOutcome {
    Finished,
    ReadFile { path: String, next: usize },
    WriteFile { path: String, text: String, next: usize },
}

/// Law: dispatching reaches a `Load` and stops there having changed nothing:
/// the surface, the exit flag and the printed output stand exactly as they
/// did, and only the read request is handed out. A failed read therefore
/// leaves the whole session as it was.
pub proof fn lemma_load_changes_nothing(
    acts: Seq<ActionV>,
    i: int,
    m: SurfaceModel,
    exit: bool,
    file: Option<Seq<char>>,
    p: Seq<char>,
)
    requires
        0 <= i < acts.len(),
        acts[i] == ActionV::Load(p),
    ensures
        run_from(acts, i, m, exit, file) == (RunState {
            surface: m,
            exit: exit,
            out: Seq::empty(),
            next: i + 1,
            req: Some(IoReqV::Read(p)),
        }),
{
}

/// Law: an `Exit` does not halt the line. Dispatching `Exit` then `Show`
/// still renders the document as it stands, while the exit flag is left set
/// for the enclosing loop to observe afterwards.
pub proof fn lemma_exit_then_show_still_renders(
    m: SurfaceModel,
    exit: bool,
    file: Option<Seq<char>>,
)
    ensures
        ({
            let r = run_from(seq![ActionV::Exit, ActionV::Show], 0, m, exit, file);
            &&& r.exit
            &&& r.out == render_buffer_spec(m.lines)
            &&& r.req is None
            &&& r.surface == m
        }),
{
    reveal_with_fuel(run_from, 4);
    let acts = seq![ActionV::Exit, ActionV::Show];
    let r2 = run_from(acts, 2, m, true, file);
    let r1 = run_from(acts, 1, m, true, file);
    assert(r1.out =~= render_buffer_spec(m.lines) + Seq::<Seq<char>>::empty());
    assert(r1.out =~= render_buffer_spec(m.lines));
    let r0 = run_from(acts, 0, m, exit, file);
    assert(r0.out =~= Seq::<Seq<char>>::empty() + r1.out);
    assert(r0.out =~= render_buffer_spec(m.lines));
}

proof fn lemma_out_assoc(a: Seq<Seq<char>>, b: Seq<Seq<char>>, c: Seq<Seq<char>>)
    ensures
        a + (b + c) == (a + b) + c,
{
    assert(a + (b + c) =~= (a + b) + c);
}

/// Runs the actions from position `start` strictly in order against the
/// session, stopping early only to hand a file request to the caller.
pub fn execute(
    actions: &Vec<Action>,
    start: usize,
    editor: &mut Editor,
    output: &mut Vec<String>,
) -> (r: ExecOutcome)
    requires
        old(editor).wf(),
        start <= actions@.len(),
        forall|j: int|
            start <= j < actions@.len() ==> !(#[trigger] actions@[j] is RemoveCharLeft)
                && !(actions@[j] is RemoveCharRight),
    ensures
        final(editor).wf(),
        final(editor).active_file_path == old(editor).active_file_path,
        ({
            let r0 = run_from(
                actions_view(actions@),
                start as int,
                old(editor).surface.model(),
                old(editor).exit_requested,
                file_view(old(editor).active_file_path),
            );
            &&& final(editor).surface.model() == r0.surface
            &&& final(editor).exit_requested == r0.exit
            &&& str_views(final(output)@) == str_views(old(output)@) + r0.out
            &&& match r {
                ExecOutcome::Finished => r0.req is None && r0.next == actions@.len(),
                ExecOutcome::ReadFile { path, next } => r0.req == Some(IoReqV::Read(path@))
                    && next as int == r0.next && next <= actions@.len(),
                ExecOutcome::WriteFile { path, text, next } => r0.req == Some(
                    IoReqV::Write(path@, text@),
                ) && next as int == r0.next && next <= actions@.len(),
            }
        }),
{
    let ghost av = actions_view(actions@);
    let ghost m0 = old(editor).surface.model();
    let ghost e0 = old(editor).exit_requested;
    let ghost fv = file_view(old(editor).active_file_path);
    let ghost r0 = run_from(av, start as int, m0, e0, fv);
    let ghost mut outacc: Seq<Seq<char>> = Seq::empty();
    let mut i: usize = start;
    proof {
        assert(str_views(output@) + Seq::<Seq<char>>::empty() =~= str_views(output@));
        let ri = run_from(av, start as int, m0, e0, fv);
        assert(Seq::<Seq<char>>::empty() + ri.out =~= ri.out);
        assert(r0 =~= (RunState {
            surface: ri.surface,
            exit: ri.exit,
            out: outacc + ri.out,
            next: ri.next,
            req: ri.req,
        }));
    }
    while i < actions.len()
        invariant
            start <= i <= actions@.len(),
            av == actions_view(actions@),
            m0 == old(editor).surface.model(),
            e0 == old(editor).exit_requested,
            fv == file_view(old(editor).active_file_path),
            r0 == run_from(av, start as int, m0, e0, fv),
            editor.wf(),
            editor.active_file_path == old(editor).active_file_path,
            fv == file_view(editor.active_file_path),
            forall|j: int|
                i <= j < actions@.len() ==> !(#[trigger] actions@[j] is RemoveCharLeft)
                    && !(actions@[j] is RemoveCharRight),
            str_views(output@) == str_views(old(output)@) + outacc,
            r0 == ({
                let ri = run_from(av, i as int, editor.surface.model(), editor.exit_requested, fv);
                RunState {
                    surface: ri.surface,
                    exit: ri.exit,
                    out: outacc + ri.out,
                    next: ri.next,
                    req: ri.req,
                }
            }),
        decreases actions@.len() - i,
    {
        let ghost mcur = editor.surface.model();
        let ghost ecur = editor.exit_requested;
        let ghost acur = av[i as int];
        let ghost outacc0 = outacc;
        let a = &actions[i];
        match a {
            Action::Exit => {
                editor.exit_requested = true;
            },
            Action::Help => {
                let mut rows = render_help();
                let ghost rv = str_views(rows@);
                output.append(&mut rows);
                proof {
                    assert(str_views(output@) =~= (str_views(old(output)@) + outacc) + rv);
                    lemma_out_assoc(str_views(old(output)@), outacc, rv);
                    assert(rv =~= action_output(mcur, acur));
                    outacc = outacc + rv;
                }
            },
            Action::Show => {
                let mut rows = render_buffer(&editor.surface);
                let ghost rv = str_views(rows@);
                output.append(&mut rows);
                proof {
                    assert(str_views(output@) =~= (str_views(old(output)@) + outacc) + rv);
                    lemma_out_assoc(str_views(old(output)@), outacc, rv);
                    assert(rv =~= action_output(mcur, acur));
                    outacc = outacc + rv;
                }
            },
            Action::ShowCurrentLine => {
                let mut rows = render_cursor_line(&editor.surface);
                let ghost rv = str_views(rows@);
                output.append(&mut rows);
                proof {
                    assert(str_views(output@) =~= (str_views(old(output)@) + outacc) + rv);
                    lemma_out_assoc(str_views(old(output)@), outacc, rv);
                    assert(rv =~= action_output(mcur, acur));
                    outacc = outacc + rv;
                }
            },
            Action::MoveUp => {
                editor.surface.move_up();
            },
            Action::MoveDown => {
                editor.surface.move_down();
            },
            Action::MoveLeft => {
                editor.surface.move_left();
            },
            Action::MoveRight => {
                editor.surface.move_right();
            },
            Action::MoveToBeginning => {
                editor.surface.move_to_line_begin();
            },
            Action::MoveToEnd => {
                editor.surface.move_to_line_end();
            },
            Action::MoveTo { line, column } => {
                editor.surface.move_to_position(*line, *column);
            },
            Action::Insert(s) => {
                editor.surface.insert_str(s.as_str());
            },
            Action::ReplaceCurrentLine(s) => {
                editor.surface.delete_line_content();
                editor.surface.insert_str(s.as_str());
            },
            Action::InsertLineBelow => {
                editor.surface.move_to_line_end();
                editor.surface.insert_char('\n');
                editor.surface.move_to_line_begin();
                editor.surface.move_down();
            },
            Action::InsertLineAbove => {
                editor.surface.move_to_line_begin();
                editor.surface.insert_char('\n');
            },
            Action::Load(p) => {
                proof {
                    assert(acur == ActionV::Load(p@));
                    let ri = run_from(av, i as int, mcur, ecur, fv);
                    assert(action_io(acur, fv, mcur) == Some(IoReqV::Read(p@)));
                    assert(ri == (RunState {
                        surface: mcur,
                        exit: ecur,
                        out: Seq::empty(),
                        next: i as int + 1,
                        req: Some(IoReqV::Read(p@)),
                    }));
                    assert(outacc + ri.out =~= outacc);
                }
                return ExecOutcome::ReadFile { path: p.clone(), next: i + 1 };
            },
            Action::Save(p) => {
                let text = editor.surface.text();
                proof {
                    let ri = run_from(av, i as int, mcur, ecur, fv);
                    assert(ri.out =~= Seq::<Seq<char>>::empty());
                    assert(outacc + ri.out =~= outacc);
                }
                return ExecOutcome::WriteFile { path: p.clone(), text, next: i + 1 };
            },
            Action::SaveCurrentFile => {
                let has_file = match &editor.active_file_path {
                    Some(_) => true,
                    None => false,
                };
                if has_file {
                    let path = match &editor.active_file_path {
                        Some(f) => f.clone(),
                        None => String::new(),
                    };
                    let text = editor.surface.text();
                    proof {
                        let ri = run_from(av, i as int, mcur, ecur, fv);
                        assert(ri.out =~= Seq::<Seq<char>>::empty());
                        assert(outacc + ri.out =~= outacc);
                    }
                    return ExecOutcome::WriteFile { path, text, next: i + 1 };
                }
            },
            Action::RemoveCharLeft => {
                proof {
                    assert(false);
                }
            },
            Action::RemoveCharRight => {
                proof {
                    assert(false);
                }
            },
        }
        proof {
            let o = action_output(mcur, acur);
            let ri = run_from(av, i as int, mcur, ecur, fv);
            let rn = run_from(av, i as int + 1, editor.surface.model(), editor.exit_requested, fv);
            assert(editor.surface.model() == step_surface(mcur, acur));
            assert(editor.exit_requested == step_exit(ecur, acur));
            assert(action_io(acur, fv, mcur) is None);
            assert(outacc =~= outacc0 + o);
            lemma_out_assoc(outacc0, o, rn.out);
            assert(r0 =~= (RunState {
                surface: rn.surface,
                exit: rn.exit,
                out: outacc + rn.out,
                next: rn.next,
                req: rn.req,
            }));
        }
        i += 1;
    }
    proof {
        let ri = run_from(av, i as int, editor.surface.model(), editor.exit_requested, fv);
        assert(ri.out =~= Seq::<Seq<char>>::empty());
        assert(outacc + ri.out =~= outacc);
    }
    ExecOutcome::Finished
}

} // verus!
