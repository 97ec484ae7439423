//! The library's algebraic laws: how the editing operations compose.
//!
//! Each law is stated over the same spec functions that the executable
//! operations' contracts use, so together with those contracts it binds the
//! executable code itself.

use vstd::prelude::*;
use crate::row::{row_insert, row_delete, split_point, rendered, render_range};
use crate::document::{doc_insert_newline, doc_delete, Grid};

verus! {

/// Inserting a character at any position `pos <= len` and deleting at that
/// same position restores the row's clusters exactly — and with them its
/// text (the flattening) and its length.
pub proof fn lemma_insert_delete_inverse(g: Seq<Seq<char>>, pos: usize, c: char)
    requires
        pos <= g.len(),
    ensures
        row_delete(row_insert(g, pos, c), pos) == g,
{
    assert(row_delete(row_insert(g, pos, c), pos) =~= g);
}

/// Splitting a row at any position and appending the returned tail back
/// onto the head restores the original clusters exactly — and with them
/// the row's text and length.
pub proof fn lemma_split_append_inverse(g: Seq<Seq<char>>, pos: usize)
    ensures
        g.take(split_point(g, pos)) + g.skip(split_point(g, pos)) == g,
{
    assert(g.take(split_point(g, pos)) + g.skip(split_point(g, pos)) =~= g);
}

/// On a row with no tab cluster, rendering the full range `0..length`
/// reproduces the row's text exactly, cluster for cluster.
pub proof fn lemma_render_full_no_tabs(g: Seq<Seq<char>>, end: usize)
    requires
        end == g.len(),
        forall|i: int| 0 <= i < g.len() ==> g[i] != seq!['\t'],
    ensures
        rendered(render_range(g, 0, end)) == g.flatten(),
{
    let f = |cl: Seq<char>| if cl == seq!['\t'] { seq![' '] } else { cl };
    assert(render_range(g, 0, end) =~= g);
    assert(g.map_values(f) =~= g);
}

/// Breaking the line at column `x` of row `y` and then forward-deleting at
/// that same position — the end of the now-truncated row `y` — joins the
/// two halves back: the buffer returns to its pre-insert row count and
/// contents.
pub proof fn lemma_newline_delete_inverse(g: Grid, x: usize, y: usize)
    requires
        y < g.len(),
        x <= g[y as int].len(),
    ensures
        doc_delete(doc_insert_newline(g, x, y), x, y) == g,
{
    let g1 = doc_insert_newline(g, x, y);
    assert(g1[y as int].len() == x);
    assert(g1.len() == g.len() + 1);
    assert(g1[y as int] + g1[y as int + 1] =~= g[y as int]);
    assert(doc_delete(g1, x, y) =~= g);
}

} // verus!
