use vstd::prelude::*;

use crate::strutil::{chars_to_string, join_with, lemma_join_with_push};

verus! {

/// The mathematical state of the text surface: the lines of the document and
/// the cursor's line and column. The cursor column may sit one past the end
/// of its line.
#[verifier::ext_equal]
pub struct SurfaceModel {
    pub lines: Seq<Seq<char>>,
    pub row: nat,
    pub col: nat,
}

impl SurfaceModel {
    /// The line the cursor is on.
    pub open spec fn line_at_cursor(self) -> Seq<char> {
        self.lines[self.row as int]
    }

    /// The whole document: the lines joined by line breaks.
    pub open spec fn text(self) -> Seq<char> {
        join_with(self.lines, seq!['\n'])
    }

    /// There is always at least one line, the cursor is on a line and within
    /// it, and no line holds a line break.
    pub open spec fn wf(self) -> bool {
        &&& self.lines.len() >= 1
        &&& self.row < self.lines.len()
        &&& self.col <= self.line_at_cursor().len()
        &&& forall|i: int| 0 <= i < self.lines.len() ==> !(#[trigger] self.lines[i]).contains(
            '\n',
        )
    }

    /// One step up; the column is clamped to the new line's length.
    pub open spec fn move_up_m(self) -> SurfaceModel {
        let r = if self.row > 0 {
            (self.row - 1) as nat
        } else {
            0nat
        };
        SurfaceModel { lines: self.lines, row: r, col: clamp_col(self.lines, r, self.col) }
    }

    /// One step down, stopping at the last line; the column is clamped.
    pub open spec fn move_down_m(self) -> SurfaceModel {
        let r = if self.row + 1 < self.lines.len() {
            self.row + 1
        } else {
            self.row as nat
        };
        SurfaceModel { lines: self.lines, row: r as nat, col: clamp_col(self.lines, r as nat, self.col) }
    }

    /// One step left, stopping at the start of the line.
    pub open spec fn move_left_m(self) -> SurfaceModel {
        let c = if self.col > 0 {
            (self.col - 1) as nat
        } else {
            0nat
        };
        SurfaceModel { lines: self.lines, row: self.row, col: c }
    }

    /// One step right, stopping at the end of the line.
    pub open spec fn move_right_m(self) -> SurfaceModel {
        let c = if self.col + 1 <= self.line_at_cursor().len() {
            self.col + 1
        } else {
            self.col as nat
        };
        SurfaceModel { lines: self.lines, row: self.row, col: c as nat }
    }

    /// To the start of the line.
    pub open spec fn move_to_begin_m(self) -> SurfaceModel {
        SurfaceModel { lines: self.lines, row: self.row, col: 0 }
    }

    /// To the end of the line.
    pub open spec fn move_to_end_m(self) -> SurfaceModel {
        SurfaceModel { lines: self.lines, row: self.row, col: self.line_at_cursor().len() }
    }

    /// Absolute placement, clamped at the buffer boundaries.
    pub open spec fn move_to_m(self, line: nat, column: nat) -> SurfaceModel {
        let r = if line < self.lines.len() {
            line
        } else {
            (self.lines.len() - 1) as nat
        };
        let c = if column <= self.lines[r as int].len() {
            column
        } else {
            self.lines[r as int].len()
        };
        SurfaceModel { lines: self.lines, row: r, col: c }
    }

    /// Inserting one character at the cursor. A line break splits the current
    /// line at the cursor, what follows the cursor moving to a new line below
    /// while the cursor stays where it was, now at the end of its line; any
    /// other character goes into the line and the cursor passes it.
    pub open spec fn insert_char_m(self, c: char) -> SurfaceModel {
        let l = self.line_at_cursor();
        if c == '\n' {
            SurfaceModel {
                lines: self.lines.update(self.row as int, l.subrange(0, self.col as int)).insert(
                    self.row as int + 1,
                    l.subrange(self.col as int, l.len() as int),
                ),
                row: self.row,
                col: self.col,
            }
        } else {
            SurfaceModel {
                lines: self.lines.update(self.row as int, l.insert(self.col as int, c)),
                row: self.row,
                col: self.col + 1,
            }
        }
    }

    /// Inserting a string at the cursor, character by character.
    pub open spec fn insert_str_m(self, s: Seq<char>) -> SurfaceModel
        decreases s.len(),
    {
        if s.len() == 0 {
            self
        } else {
            self.insert_char_m(s[0]).insert_str_m(s.subrange(1, s.len() as int))
        }
    }

    /// Emptying the current line; the cursor moves to its start.
    pub open spec fn delete_line_m(self) -> SurfaceModel {
        SurfaceModel {
            lines: self.lines.update(self.row as int, Seq::empty()),
            row: self.row,
            col: 0,
        }
    }
}

/// The column `col` clamped to the length of line `r`.
pub open spec fn clamp_col(lines: Seq<Seq<char>>, r: nat, col: nat) -> nat {
    if col <= lines[r as int].len() {
        col
    } else {
        lines[r as int].len()
    }
}

/// The lines of a text, split on line breaks; splitting never errs and a text
/// without a break is one line.
pub open spec fn split_rec(s: Seq<char>, cur: Seq<char>) -> Seq<Seq<char>>
    decreases s.len(),
{
    if s.len() == 0 {
        seq![cur]
    } else if s[0] == '\n' {
        seq![cur] + split_rec(s.subrange(1, s.len() as int), Seq::empty())
    } else {
        split_rec(s.subrange(1, s.len() as int), cur.push(s[0]))
    }
}

/// The lines of a text.
pub open spec fn split_lines(s: Seq<char>) -> Seq<Seq<char>> {
    split_rec(s, Seq::empty())
}

/// Appending one character to the inserted string inserts it last.
pub proof fn lemma_insert_str_push(m: SurfaceModel, s: Seq<char>, c: char)
    ensures
        m.insert_str_m(s.push(c)) == m.insert_str_m(s).insert_char_m(c),
    decreases s.len(),
{
    reveal_with_fuel(SurfaceModel::insert_str_m, 3);
    let p = s.push(c);
    if s.len() == 0 {
        assert(p[0] == c);
        assert(p.subrange(1, p.len() as int) =~= Seq::<char>::empty());
    } else {
        assert(p[0] == s[0]);
        assert(p.subrange(1, p.len() as int) =~= s.subrange(1, s.len() as int).push(c));
        lemma_insert_str_push(m.insert_char_m(s[0]), s.subrange(1, s.len() as int), c);
    }
}

/// The in-memory text surface the dispatcher works on: the document's lines
/// and a cursor, every operation saturating at the buffer's boundaries.
pub struct Surface {
    lines: Vec<Vec<char>>,
    row: usize,
    col: usize,
}

impl Surface {
    /// The abstract state of the surface.
    pub closed spec fn model(&self) -> SurfaceModel {
        SurfaceModel {
            lines: self.lines@.map_values(|l: Vec<char>| l@),
            row: self.row as nat,
            col: self.col as nat,
        }
    }

    pub open spec fn wf(&self) -> bool {
        self.model().wf()
    }

    /// An empty document: one empty line, cursor at its start.
    pub fn new() -> (r: Surface)
        ensures
            r.wf(),
            r.model() == (SurfaceModel { lines: seq![Seq::<char>::empty()], row: 0nat, col: 0nat }),
    {
        let mut lines: Vec<Vec<char>> = Vec::new();
        lines.push(Vec::new());
        let r = Surface { lines, row: 0, col: 0 };
        proof {
            assert(r.model().lines =~= seq![Seq::<char>::empty()]);
            assert(r.model() =~= (SurfaceModel {
                lines: seq![Seq::<char>::empty()],
                row: 0nat,
                col: 0nat,
            }));
        }
        r
    }

    /// A fresh document holding `text`, cursor at the start.
    pub fn with_text(text: &str) -> (r: Surface)
        ensures
            r.wf(),
            r.model() == (SurfaceModel { lines: split_lines(text@), row: 0nat, col: 0nat }),
    {
        let n = text.unicode_len();
        let mut lines: Vec<Vec<char>> = Vec::new();
        let mut current: Vec<char> = Vec::new();
        let mut idx: usize = 0;
        proof {
            assert(text@.subrange(0, n as int) =~= text@);
            assert(lines@.map_values(|l: Vec<char>| l@) =~= Seq::<Seq<char>>::empty());
            assert(Seq::<Seq<char>>::empty() + split_rec(text@, Seq::empty()) =~= split_rec(
                text@,
                Seq::empty(),
            ));
        }
        while idx < n
            invariant
                idx <= n,
                n == text@.len(),
                split_lines(text@) == lines@.map_values(|l: Vec<char>| l@) + split_rec(
                    text@.subrange(idx as int, n as int),
                    current@,
                ),
                forall|k: int| 0 <= k < lines@.len() ==> !(#[trigger] lines@[k]@).contains('\n'),
                !current@.contains('\n'),
            decreases n - idx,
        {
            let c = text.get_char(idx);
            proof {
                let tail = text@.subrange(idx as int, n as int);
                assert(tail[0] == text@[idx as int]);
                assert(tail.subrange(1, tail.len() as int) =~= text@.subrange(
                    idx as int + 1,
                    n as int,
                ));
            }
            if c == '\n' {
                let ghost pre = lines@;
                let ghost curv = current@;
                lines.push(current);
                current = Vec::new();
                proof {
                    let f = |l: Vec<char>| l@;
                    let tail2 = split_rec(text@.subrange(idx as int + 1, n as int), Seq::empty());
                    assert(lines@.map_values(f) =~= pre.map_values(f).push(curv));
                    assert(pre.map_values(f) + (seq![curv] + tail2) =~= pre.map_values(f).push(
                        curv,
                    ) + tail2);
                }
            } else {
                current.push(c);
            }
            idx += 1;
        }
        proof {
            assert(text@.subrange(idx as int, n as int).len() == 0);
        }
        let ghost pre = lines@;
        let ghost curv = current@;
        lines.push(current);
        proof {
            let f = |l: Vec<char>| l@;
            assert(lines@.map_values(f) =~= pre.map_values(f).push(curv));
            assert(pre.map_values(f) + seq![curv] =~= pre.map_values(f).push(curv));
        }
        let r = Surface { lines, row: 0, col: 0 };
        proof {
            assert(r.model() =~= (SurfaceModel { lines: split_lines(text@), row: 0nat, col: 0nat }));
        }
        r
    }

    /// The whole document as one string, lines joined by line breaks.
    pub fn text(&self) -> (r: String)
        requires
            self.wf(),
        ensures
            r@ == self.model().text(),
    {
        let mut all: Vec<char> = Vec::new();
        let mut i: usize = 0;
        proof {
            assert(self.model().lines.subrange(0, 0) =~= Seq::<Seq<char>>::empty());
        }
        while i < self.lines.len()
            invariant
                self.wf(),
                i <= self.lines@.len(),
                all@ == join_with(self.model().lines.subrange(0, i as int), seq!['\n']),
            decreases self.lines@.len() - i,
        {
            let ghost before = self.model().lines.subrange(0, i as int);
            if i > 0 {
                all.push('\n');
            }
            all.extend_from_slice(self.lines[i].as_slice());
            proof {
                assert(self.model().lines.subrange(0, i as int + 1) =~= before.push(
                    self.model().lines[i as int],
                ));
                lemma_join_with_push(before, seq!['\n'], self.model().lines[i as int]);
                if i == 0 {
                    assert(all@ =~= self.model().lines[0]);
                } else {
                    assert(all@ =~= join_with(before, seq!['\n']) + seq!['\n']
                        + self.model().lines[i as int]);
                }
            }
            i += 1;
        }
        proof {
            assert(self.model().lines.subrange(0, self.lines@.len() as int) =~= self.model().lines);
        }
        chars_to_string(&all)
    }

    /// How many lines the document has.
    pub fn line_count(&self) -> (r: usize)
        ensures
            r as nat == self.model().lines.len(),
    {
        self.lines.len()
    }

    /// The text of line `i`.
    pub fn line_at(&self, i: usize) -> (r: String)
        requires
            i < self.model().lines.len(),
        ensures
            r@ == self.model().lines[i as int],
    {
        chars_to_string(&self.lines[i])
    }

    /// The cursor as (line, column), both counted from zero.
    pub fn cursor(&self) -> (r: (usize, usize))
        ensures
            r.0 as nat == self.model().row,
            r.1 as nat == self.model().col,
    {
        (self.row, self.col)
    }

    /// The text of the line the cursor is on.
    pub fn get_line_at_cursor(&self) -> (r: String)
        requires
            self.wf(),
        ensures
            r@ == self.model().line_at_cursor(),
    {
        chars_to_string(&self.lines[self.row])
    }

    fn clamp_to_line(&mut self)
        requires
            old(self).model().lines.len() >= 1,
            old(self).model().row < old(self).model().lines.len(),
            forall|i: int| 0 <= i < old(self).model().lines.len() ==> !(#[trigger] old(
                self,
            ).model().lines[i]).contains('\n'),
        ensures
            final(self).model().lines == old(self).model().lines,
            final(self).model().row == old(self).model().row,
            final(self).model().col == clamp_col(
                old(self).model().lines,
                old(self).model().row,
                old(self).model().col,
            ),
            final(self).wf(),
    {
        let len = self.lines[self.row].len();
        if self.col > len {
            self.col = len;
        }
    }

    /// One step up; at the first line the cursor stays, the column saturates.
    pub fn move_up(&mut self)
        requires
            old(self).wf(),
        ensures
            final(self).wf(),
            final(self).model() == old(self).model().move_up_m(),
    {
        if self.row > 0 {
            self.row -= 1;
        }
        self.clamp_to_line();
        proof {
            assert(self.model() =~= old(self).model().move_up_m());
        }
    }

    /// One step down; at the last line the cursor stays, the column saturates.
    pub fn move_down(&mut self)
        requires
            old(self).wf(),
        ensures
            final(self).wf(),
            final(self).model() == old(self).model().move_down_m(),
    {
        let n = self.lines.len();
        if self.row < n - 1 {
            self.row += 1;
        }
        self.clamp_to_line();
        proof {
            assert(self.model() =~= old(self).model().move_down_m());
        }
    }

    /// One step left, stopping at the start of the line.
    pub fn move_left(&mut self)
        requires
            old(self).wf(),
        ensures
            final(self).wf(),
            final(self).model() == old(self).model().move_left_m(),
    {
        if self.col > 0 {
            self.col -= 1;
        }
        proof {
            assert(self.model() =~= old(self).model().move_left_m());
        }
    }

    /// One step right, stopping at the end of the line.
    pub fn move_right(&mut self)
        requires
            old(self).wf(),
        ensures
            final(self).wf(),
            final(self).model() == old(self).model().move_right_m(),
    {
        let len = self.lines[self.row].len();
        if self.col < len {
            self.col += 1;
        }
        proof {
            assert(self.model() =~= old(self).model().move_right_m());
        }
    }

    /// To the start of the line.
    pub fn move_to_line_begin(&mut self)
        requires
            old(self).wf(),
        ensures
            final(self).wf(),
            final(self).model() == old(self).model().move_to_begin_m(),
    {
        self.col = 0;
        proof {
            assert(self.model() =~= old(self).model().move_to_begin_m());
        }
    }

    /// To the end of the line.
    pub fn move_to_line_end(&mut self)
        requires
            old(self).wf(),
        ensures
            final(self).wf(),
            final(self).model() == old(self).model().move_to_end_m(),
    {
        self.col = self.lines[self.row].len();
        proof {
            assert(self.model() =~= old(self).model().move_to_end_m());
        }
    }

    /// Absolute placement, clamped at the buffer boundaries.
    pub fn move_to_position(&mut self, line: usize, column: usize)
        requires
            old(self).wf(),
        ensures
            final(self).wf(),
            final(self).model() == old(self).model().move_to_m(line as nat, column as nat),
    {
        if line < self.lines.len() {
            self.row = line;
        } else {
            self.row = self.lines.len() - 1;
        }
        let len = self.lines[self.row].len();
        if column <= len {
            self.col = column;
        } else {
            self.col = len;
        }
        proof {
            assert(self.model() =~= old(self).model().move_to_m(line as nat, column as nat));
        }
    }

    /// Inserts one character at the cursor; a line break splits the line.
    pub fn insert_char(&mut self, c: char)
        requires
            old(self).wf(),
        ensures
            final(self).wf(),
            final(self).model() == old(self).model().insert_char_m(c),
    {
        let ghost m = old(self).model();
        let ghost l = m.line_at_cursor();
        if c == '\n' {
            let mut line = self.lines.remove(self.row);
            let rest = line.split_off(self.col);
            self.lines.insert(self.row, line);
            let here = self.row;
            let nn = self.lines.len();
            proof {
                assert(here < nn);
            }
            self.lines.insert(here + 1, rest);
            proof {
                assert(self.model().lines =~= m.lines.update(
                    m.row as int,
                    l.subrange(0, m.col as int),
                ).insert(m.row as int + 1, l.subrange(m.col as int, l.len() as int)));
                assert(self.model() =~= m.insert_char_m(c));
                assert forall|i: int| 0 <= i < self.model().lines.len() implies !(
                #[trigger] self.model().lines[i]).contains('\n') by {
                    if i == m.row {
                        assert(!l.contains('\n'));
                        if self.model().lines[i].contains('\n') {
                            let j = choose|j: int|
                                0 <= j < self.model().lines[i].len() && self.model().lines[i][j]
                                    == '\n';
                            assert(l[j] == '\n');
                        }
                    } else if i == m.row + 1 {
                        if self.model().lines[i].contains('\n') {
                            let j = choose|j: int|
                                0 <= j < self.model().lines[i].len() && self.model().lines[i][j]
                                    == '\n';
                            assert(l[m.col + j] == '\n');
                        }
                    }
                }
            }
        } else {
            let mut line = self.lines.remove(self.row);
            line.insert(self.col, c);
            let nl = line.len();
            self.lines.insert(self.row, line);
            self.col += 1;
            proof {
                assert(self.model().lines =~= m.lines.update(
                    m.row as int,
                    l.insert(m.col as int, c),
                ));
                assert(self.model() =~= m.insert_char_m(c));
                assert forall|i: int| 0 <= i < self.model().lines.len() implies !(
                #[trigger] self.model().lines[i]).contains('\n') by {
                    if i == m.row {
                        if self.model().lines[i].contains('\n') {
                            let j = choose|j: int|
                                0 <= j < self.model().lines[i].len() && self.model().lines[i][j]
                                    == '\n';
                            if j < m.col {
                                assert(l[j] == '\n');
                            } else if j > m.col {
                                assert(l[j - 1] == '\n');
                            }
                        }
                    }
                }
            }
        }
    }

    /// Inserts a string at the cursor, character by character.
    pub fn insert_str(&mut self, s: &str)
        requires
            old(self).wf(),
        ensures
            final(self).wf(),
            final(self).model() == old(self).model().insert_str_m(s@),
    {
        let n = s.unicode_len();
        let mut i: usize = 0;
        proof {
            assert(s@.subrange(0, 0) =~= Seq::<char>::empty());
        }
        while i < n
            invariant
                i <= n,
                n == s@.len(),
                self.wf(),
                self.model() == old(self).model().insert_str_m(s@.subrange(0, i as int)),
            decreases n - i,
        {
            let ghost before = s@.subrange(0, i as int);
            let c = s.get_char(i);
            self.insert_char(c);
            proof {
                assert(s@.subrange(0, i as int + 1) =~= before.push(s@[i as int]));
                lemma_insert_str_push(old(self).model(), before, s@[i as int]);
            }
            i += 1;
        }
        proof {
            assert(s@.subrange(0, n as int) =~= s@);
        }
    }

    /// Empties the current line and puts the cursor at its start.
    pub fn delete_line_content(&mut self)
        requires
            old(self).wf(),
        ensures
            final(self).wf(),
            final(self).model() == old(self).model().delete_line_m(),
    {
        self.lines.remove(self.row);
        let ghost mid = self.lines@;
        self.lines.insert(self.row, Vec::new());
        self.col = 0;
        proof {
            assert(self.model().lines =~= old(self).model().lines.update(
                old(self).model().row as int,
                Seq::empty(),
            ));
            assert(self.model() =~= old(self).model().delete_line_m());
        }
    }
}

} // verus!
