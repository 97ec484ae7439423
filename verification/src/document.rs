//! The full ordered buffer of rows, plus persistence metadata.
//!
//! A `Document` owns the row sequence, the optional file name and the dirty
//! flag.  Its contracts are stated over `grid()`, the sequence of each row's
//! grapheme clusters, so that cross-row editing (line break, line join) and
//! multi-row search are pinned down exactly.

use vstd::prelude::*;
use crate::row::{Row, row_insert, row_delete, match_at, graphemes_of, push_char};
use crate::Position;

verus! {

/// Index of the first newline in `s`, or `s.len()` where there is none.
pub open spec fn first_break(s: Seq<char>) -> int
    decreases s.len(),
{
    if s.len() == 0 {
        0
    } else if s[0] == '\n' {
        0
    } else {
        1 + first_break(s.skip(1))
    }
}

/// A line with a carriage return dropped from its end (the `\r` of a
/// `\r\n` line ending).
pub open spec fn strip_cr(l: Seq<char>) -> Seq<char> {
    if l.len() > 0 && l[l.len() - 1] == '\r' {
        l.take(l.len() - 1)
    } else {
        l
    }
}

/// The lines of `s`: split at each `\n`, with a `\r` right before the
/// `\n` dropped (so `\r\n` also ends a line).  A final line without a
/// terminator is kept as it stands, and a trailing line ending yields no
/// extra empty line.
pub open spec fn lines_of(s: Seq<char>) -> Seq<Seq<char>>
    decreases s.len(),
{
    if s.len() == 0 {
        Seq::empty()
    } else {
        let b = first_break(s);
        if 0 <= b < s.len() {
            seq![strip_cr(s.take(b))] + lines_of(s.skip(b + 1))
        } else {
            seq![s]
        }
    }
}

/// The first newline of `cur + rest` lies past the newline-free `cur`.
proof fn lemma_first_break_concat(cur: Seq<char>, rest: Seq<char>)
    requires
        forall|j: int| 0 <= j < cur.len() ==> cur[j] != '\n',
    ensures
        first_break(cur + rest) == cur.len() + first_break(rest),
    decreases cur.len(),
{
    if cur.len() == 0 {
        assert(cur + rest =~= rest);
    } else {
        assert((cur + rest)[0] == cur[0]);
        assert((cur + rest).skip(1) =~= cur.skip(1) + rest);
        assert(forall|j: int| 0 <= j < cur.skip(1).len() ==> cur.skip(1)[j] == cur[j + 1]);
        lemma_first_break_concat(cur.skip(1), rest);
    }
}

/// Splitting off one terminated line: with `cur` newline-free and `rest`
/// opening with a newline, the lines of `cur + rest` are the stripped `cur`
/// followed by the lines of what comes after the newline.
proof fn lemma_lines_step(cur: Seq<char>, rest: Seq<char>)
    requires
        forall|j: int| 0 <= j < cur.len() ==> cur[j] != '\n',
        rest.len() > 0,
        rest[0] == '\n',
    ensures
        lines_of(cur + rest) == seq![strip_cr(cur)] + lines_of(rest.skip(1)),
{
    let s = cur + rest;
    lemma_first_break_concat(cur, rest);
    assert(first_break(rest) == 0);
    assert(first_break(s) == cur.len());
    assert(s.take(cur.len() as int) =~= cur);
    assert(s.skip(cur.len() as int + 1) =~= rest.skip(1));
}

/// A newline-free text is at most one line: itself, unstripped.
proof fn lemma_lines_last(cur: Seq<char>)
    requires
        forall|j: int| 0 <= j < cur.len() ==> cur[j] != '\n',
    ensures
        cur.len() == 0 ==> lines_of(cur) == Seq::<Seq<char>>::empty(),
        cur.len() > 0 ==> lines_of(cur) == seq![cur],
{
    lemma_first_break_concat(cur, Seq::empty());
    assert(cur + Seq::<char>::empty() =~= cur);
}

/// The grapheme clusters of every row: the whole buffer as one value.
pub type Grid = Seq<Seq<Seq<char>>>;

/// The number of clusters in row `y`, or zero where no such row exists
/// (`y` may validly rest one past the last row).
pub open spec fn row_width(g: Grid, y: usize) -> nat {
    if y < g.len() {
        g[y as int].len()
    } else {
        0
    }
}

/// The buffer after breaking the line at column `x` of row `y`: row `y` is
/// truncated at `x` and the clusters from `x` on become a new row right
/// below it.  A `y` one past the last row appends an empty row; a `y`
/// further out is a no-op.
pub open spec fn doc_insert_newline(g: Grid, x: usize, y: usize) -> Grid {
    if y > g.len() {
        g
    } else if y == g.len() {
        g.push(Seq::empty())
    } else {
        let p = if x <= g[y as int].len() { x as int } else { g[y as int].len() as int };
        g.update(y as int, g[y as int].take(p)).insert(y as int + 1, g[y as int].skip(p))
    }
}

/// The buffer after inserting character `c` at column `x` of row `y`:
/// a newline breaks the line, a `y` one past the last row starts a new row
/// holding only `c`, and anything further out is a no-op.
pub open spec fn doc_insert(g: Grid, x: usize, y: usize, c: char) -> Grid {
    if y > g.len() {
        g
    } else if c == '\n' {
        doc_insert_newline(g, x, y)
    } else if y == g.len() {
        g.push(seq![seq![c]])
    } else {
        g.update(y as int, row_insert(g[y as int], x, c))
    }
}

/// The buffer after a forward delete at column `x` of row `y`: at the end
/// of a row that has a successor, the successor is joined onto it;
/// otherwise the cluster at `x` is removed from row `y`; a `y` beyond the
/// last row is a no-op.
pub open spec fn doc_delete(g: Grid, x: usize, y: usize) -> Grid {
    if y >= g.len() {
        g
    } else if x == g[y as int].len() && y + 1 < g.len() {
        g.update(y as int, g[y as int] + g[y as int + 1]).remove(y as int + 1)
    } else {
        g.update(y as int, row_delete(g[y as int], x))
    }
}

/// Whether `q` occurs at buffer position `p`: row `p.y` exists and `q`
/// starts exactly at cluster index `p.x` of that row.
pub open spec fn grid_match(g: Grid, q: Seq<char>, p: Position) -> bool {
    p.y < g.len() && match_at(g[p.y as int], q, p.x as int)
}

/// Row-major (reading) order on buffer positions.
pub open spec fn pos_le(a: Position, b: Position) -> bool {
    a.y < b.y || (a.y == b.y && a.x <= b.x)
}

/// The ordered buffer of rows, with the file name it came from (if any) and
/// whether it has unsaved changes.
pub struct Document {
    rows: Vec<Row>,
    pub file_name: Option<String>,
    dirty: bool,
}

impl Default for Document {
    /// An empty, unnamed, clean document.
    fn default() -> (d: Self)
        ensures
            d.wf(),
            d.grid() == Seq::<Seq<Seq<char>>>::empty(),
            d.spec_file_name() is None,
            !d.spec_dirty(),
    {
        let d = Document { rows: Vec::new(), file_name: None, dirty: false };
        proof {
            assert(d.grid() =~= Seq::<Seq<Seq<char>>>::empty());
        }
        d
    }
}

impl Document {
    /// The rows as a sequence of values.
    pub closed spec fn rows_seq(&self) -> Seq<Row> {
        self.rows@
    }

    /// The whole buffer: each row's grapheme clusters, in row order.
    pub open spec fn grid(&self) -> Grid {
        Seq::new(self.rows_seq().len(), |i: int| self.rows_seq()[i].graphemes())
    }

    /// Whether the buffer differs from the last successful save.
    pub closed spec fn spec_dirty(&self) -> bool {
        self.dirty
    }

    /// The file name the document is tied to, if any.
    pub closed spec fn spec_file_name(&self) -> Option<String> {
        self.file_name
    }

    /// The internal invariant: every row is well formed.
    pub closed spec fn wf(&self) -> bool {
        forall|i: int| 0 <= i < self.rows@.len() ==> self.rows@[i].wf()
    }

    /// Builds a document from a file's full text: one row per line of
    /// `lines_of`, tied to `file_name`, not dirty.
    pub fn from_text(contents: &str, file_name: Option<String>) -> (d: Document)
        ensures
            d.wf(),
            d.grid().len() == lines_of(contents@).len(),
            forall|i: int| 0 <= i < d.grid().len()
                ==> #[trigger] d.grid()[i] == graphemes_of(lines_of(contents@)[i]),
            forall|i: int| 0 <= i < d.grid().len()
                ==> #[trigger] d.grid()[i].flatten() == lines_of(contents@)[i],
            d.spec_file_name() == file_name,
            !d.spec_dirty(),
    {
        let n: usize = contents.unicode_len();
        let mut rows: Vec<Row> = Vec::new();
        let mut line = String::new();
        let ghost mut done: Seq<Seq<char>> = Seq::empty();
        let mut i: usize = 0;
        proof {
            assert(line@ + contents@.skip(0) =~= contents@);
        }
        while i < n
            invariant
                i <= n,
                n == contents@.len(),
                forall|j: int| 0 <= j < line@.len() ==> line@[j] != '\n',
                lines_of(contents@) == done + lines_of(line@ + contents@.skip(i as int)),
                rows@.len() == done.len(),
                forall|j: int| 0 <= j < done.len() ==> (#[trigger] rows@[j]).wf()
                    && rows@[j].graphemes() == graphemes_of(done[j])
                    && rows@[j].text() == done[j],
            decreases n - i,
        {
            let ghost cur = line@;
            let ghost rest = contents@.skip(i as int);
            let c = contents.get_char(i);
            proof {
                assert(rest[0] == contents@[i as int]);
            }
            if c == '\n' {
                let ln: usize = line.unicode_len();
                let stripped: &str = if ln > 0 && line.as_str().get_char(ln - 1) == '\r' {
                    line.as_str().substring_char(0, ln - 1)
                } else {
                    line.as_str()
                };
                proof {
                    assert(stripped@ == strip_cr(cur));
                }
                rows.push(Row::from(stripped));
                proof {
                    lemma_lines_step(cur, rest);
                    assert(rest.skip(1) =~= contents@.skip(i + 1));
                    assert(done + lines_of(cur + rest)
                        =~= done.push(strip_cr(cur)) + lines_of(rest.skip(1)));
                    done = done.push(strip_cr(cur));
                    assert(Seq::<char>::empty() + contents@.skip(i + 1) =~= contents@.skip(i + 1));
                }
                line = String::new();
            } else {
                push_char(&mut line, c);
                proof {
                    assert(cur.push(c) + contents@.skip(i + 1) =~= cur + rest);
                }
            }
            i = i + 1;
        }
        proof {
            assert(contents@.skip(n as int) =~= Seq::<char>::empty());
            assert(line@ + contents@.skip(n as int) =~= line@);
            lemma_lines_last(line@);
        }
        if !line.as_str().is_empty() {
            rows.push(Row::from(line.as_str()));
            proof {
                done = done.push(line@);
            }
        }
        let d = Document { rows, file_name, dirty: false };
        proof {
            assert(lines_of(contents@) =~= done);
            assert forall|j: int| 0 <= j < d.grid().len()
                implies #[trigger] d.grid()[j] == graphemes_of(lines_of(contents@)[j])
                    && d.grid()[j].flatten() == lines_of(contents@)[j] by {
                assert(d.grid()[j] == d.rows_seq()[j].graphemes());
            }
        }
        d
    }

    /// The row at `index`, where it exists.
    pub fn row(&self, index: usize) -> (r: Option<&Row>)
        requires
            self.wf(),
        ensures
            match r {
                Some(row) => {
                    &&& index < self.grid().len()
                    &&& row.wf()
                    &&& row.graphemes() == self.grid()[index as int]
                },
                None => index >= self.grid().len(),
            },
    {
        if index < self.rows.len() {
            Some(&self.rows[index])
        } else {
            None
        }
    }

    /// Whether the buffer holds no rows.
    pub fn is_empty(&self) -> (b: bool)
        ensures
            b == (self.grid().len() == 0),
    {
        self.rows.is_empty()
    }

    /// Number of rows in the buffer.
    pub fn len(&self) -> (l: usize)
        ensures
            l == self.grid().len(),
    {
        self.rows.len()
    }

    /// Whether the buffer differs from the last successful save.
    pub fn is_dirty(&self) -> (b: bool)
        ensures
            b == self.spec_dirty(),
    {
        self.dirty
    }

    /// Records that the buffer was just written out successfully.
    pub fn mark_saved(&mut self)
        requires
            old(self).wf(),
        ensures
            final(self).wf(),
            final(self).grid() == old(self).grid(),
            final(self).spec_file_name() == old(self).spec_file_name(),
            !final(self).spec_dirty(),
    {
        self.dirty = false;
    }

    /// Breaks the line at `pos` (see `doc_insert_newline`).
    fn insert_newline(&mut self, pos: &Position)
        requires
            old(self).wf(),
        ensures
            final(self).wf(),
            final(self).grid() == doc_insert_newline(old(self).grid(), pos.x, pos.y),
            final(self).spec_file_name() == old(self).spec_file_name(),
            final(self).spec_dirty() == old(self).spec_dirty(),
    {
        if pos.y > self.rows.len() {
            return;
        }
        if pos.y == self.rows.len() {
            self.rows.push(Row::default());
            proof {
                assert(self.grid() =~= old(self).grid().push(Seq::empty()));
            }
            return;
        }
        let mut row = self.rows.remove(pos.y);
        let new_row = row.split(pos.x);
        self.rows.insert(pos.y, row);
        self.rows.insert(pos.y + 1, new_row);
        proof {
            let og = old(self).grid();
            let p = if pos.x <= og[pos.y as int].len() { pos.x as int } else { og[pos.y as int].len() as int };
            assert(self.grid() =~= og.update(pos.y as int, og[pos.y as int].take(p)).insert(
                pos.y as int + 1, og[pos.y as int].skip(p)));
        }
    }

    /// Inserts character `c` at `pos` and marks the document dirty
    /// (see `doc_insert`); a `pos.y` past one-beyond-the-last-row is a no-op.
    pub fn insert(&mut self, pos: &Position, c: char)
        requires
            old(self).wf(),
        ensures
            final(self).wf(),
            final(self).grid() == doc_insert(old(self).grid(), pos.x, pos.y, c),
            final(self).spec_file_name() == old(self).spec_file_name(),
            final(self).spec_dirty() == (old(self).spec_dirty() || pos.y <= old(self).grid().len()),
    {
        if pos.y > self.rows.len() {
            return;
        }
        self.dirty = true;
        if c == '\n' {
            self.insert_newline(pos);
            return;
        }
        if pos.y == self.rows.len() {
            let mut row = Row::default();
            row.insert(0, c);
            self.rows.push(row);
            proof {
                assert(self.grid() =~= old(self).grid().push(seq![seq![c]]));
            }
        } else {
            let mut row = self.rows.remove(pos.y);
            row.insert(pos.x, c);
            self.rows.insert(pos.y, row);
            proof {
                assert(self.grid() =~= old(self).grid().update(
                    pos.y as int, row_insert(old(self).grid()[pos.y as int], pos.x, c)));
            }
        }
    }

    /// Forward-deletes at `pos` and marks the document dirty
    /// (see `doc_delete`); a `pos.y` beyond the last row is a no-op.
    pub fn delete(&mut self, pos: &Position)
        requires
            old(self).wf(),
        ensures
            final(self).wf(),
            final(self).grid() == doc_delete(old(self).grid(), pos.x, pos.y),
            final(self).spec_file_name() == old(self).spec_file_name(),
            final(self).spec_dirty() == (old(self).spec_dirty() || pos.y < old(self).grid().len()),
    {
        let len: usize = self.rows.len();
        if pos.y >= len {
            return;
        }
        self.dirty = true;
        let row_len = self.rows[pos.y].len();
        if pos.x == row_len && pos.y + 1 < len {
            let next_row = self.rows.remove(pos.y + 1);
            let mut row = self.rows.remove(pos.y);
            row.append(&next_row);
            self.rows.insert(pos.y, row);
            proof {
                let og = old(self).grid();
                assert(self.grid() =~= og.update(
                    pos.y as int, og[pos.y as int] + og[pos.y as int + 1]).remove(pos.y as int + 1));
            }
        } else {
            let mut row = self.rows.remove(pos.y);
            row.delete(pos.x);
            self.rows.insert(pos.y, row);
            proof {
                assert(self.grid() =~= old(self).grid().update(
                    pos.y as int, row_delete(old(self).grid()[pos.y as int], pos.x)));
            }
        }
    }

    /// Finds the first occurrence of `query` at or after `after`, searching
    /// row `after.y` from column `after.x` and every later row from column
    /// zero, in reading order; it never wraps past the last row, and never
    /// reports a position before `after`.
    pub fn find(&self, query: &str, after: &Position) -> (r: Option<Position>)
        requires
            self.wf(),
        ensures
            match r {
                Some(p) => {
                    &&& pos_le(*after, p)
                    &&& grid_match(self.grid(), query@, p)
                    &&& forall|p2: Position| pos_le(*after, p2) && #[trigger] grid_match(self.grid(), query@, p2)
                        ==> pos_le(p, p2)
                },
                None => forall|p2: Position| pos_le(*after, p2)
                    ==> !#[trigger] grid_match(self.grid(), query@, p2),
            },
    {
        let mut x: usize = after.x;
        let mut y: usize = after.y;
        while y < self.rows.len()
            invariant
                self.wf(),
                y >= after.y,
                x == (if y == after.y { after.x } else { 0usize }),
                forall|p2: Position| pos_le(*after, p2) && p2.y < y
                    ==> !#[trigger] grid_match(self.grid(), query@, p2),
            decreases self.rows.len() - y,
        {
            let found = self.rows[y].find(query, x);
            if let Some(fx) = found {
                let p = Position { x: fx, y };
                proof {
                    assert forall|p2: Position| pos_le(*after, p2)
                        && #[trigger] grid_match(self.grid(), query@, p2)
                        implies pos_le(p, p2) by {
                        if p2.y == y && p2.x < fx {
                            assert(!match_at(self.grid()[p2.y as int], query@, p2.x as int));
                        }
                    }
                }
                return Some(p);
            }
            proof {
                assert forall|p2: Position| pos_le(*after, p2) && p2.y < y + 1
                    implies !grid_match(self.grid(), query@, p2) by {
                    if p2.y == y {
                        assert(!match_at(self.grid()[p2.y as int], query@, p2.x as int));
                    }
                }
            }
            x = 0;
            y = y + 1;
        }
        None
    }
}

} // verus!
