//! One line of the buffer, addressed by grapheme-cluster column.
//!
//! A `Row` keeps its text both as a plain string (the byte buffer handed to
//! persistence) and as the list of grapheme clusters that string was
//! segmented into, together with a cached cluster count.  Every edit keeps
//! the three in step, so that all grapheme-indexed operations agree on what
//! one user-perceived character is.

use vstd::prelude::*;
use vstd::seq_lib::lemma_flatten_concat;
use unicode_segmentation::UnicodeSegmentation;

verus! {

/// The extended grapheme clusters of a character sequence, in order,
/// as defined by the Unicode extended grapheme cluster algorithm (UAX #29).
pub uninterp spec fn graphemes_of(s: Seq<char>) -> Seq<Seq<char>>;

/// Relies on `UnicodeSegmentation::graphemes` with `is_extended = true`:
/// it yields the extended grapheme clusters of `s` in order; each cluster is
/// a nonempty substring, and concatenating them yields `s` back.
#[verifier::external_body]
fn segment_graphemes(s: &str) -> (r: Vec<String>)
    ensures
        r.deep_view() == graphemes_of(s@),
        r.deep_view().flatten() == s@,
        forall|i: int| 0 <= i < r.deep_view().len() ==> r.deep_view()[i].len() > 0,
{
    s.graphemes(true).map(|g: &str| g.to_string()).collect()
}

/// Relies on `String::push`: appends one character to the end of the string.
#[verifier::external_body]
pub(crate) fn push_char(s: &mut String, c: char)
    ensures
        final(s)@ == old(s)@.push(c),
{
    s.push(c);
}

/// The clusters of a row after inserting the character `c` at cluster
/// index `pos`; any `pos` beyond the end appends.
pub open spec fn row_insert(g: Seq<Seq<char>>, pos: usize, c: char) -> Seq<Seq<char>> {
    if pos < g.len() {
        g.insert(pos as int, seq![c])
    } else {
        g.push(seq![c])
    }
}

/// The clusters of a row after deleting the cluster at index `pos`;
/// any `pos` beyond the end is a no-op.
pub open spec fn row_delete(g: Seq<Seq<char>>, pos: usize) -> Seq<Seq<char>> {
    if pos < g.len() {
        g.remove(pos as int)
    } else {
        g
    }
}

/// The index `pos` clamped to a valid split point of `g`.
pub open spec fn split_point(g: Seq<Seq<char>>, pos: usize) -> int {
    if pos <= g.len() {
        pos as int
    } else {
        g.len() as int
    }
}

/// The visible form of a sequence of clusters: a tab cluster shows as a
/// single space, every other cluster as itself.
pub open spec fn rendered(g: Seq<Seq<char>>) -> Seq<char> {
    g.map_values(|cl: Seq<char>| if cl == seq!['\t'] { seq![' '] } else { cl }).flatten()
}

/// The slice of `g` that `Row::render(start, end)` shows: `end` clamped to
/// the cluster count, `start` clamped to `end`.
pub open spec fn render_range(g: Seq<Seq<char>>, start: usize, end: usize) -> Seq<Seq<char>> {
    let e = if end <= g.len() { end as int } else { g.len() as int };
    let s = if start <= e { start as int } else { e };
    g.subrange(s, e)
}

/// Whether `q` occurs starting exactly at cluster index `i` of `g`.
pub open spec fn match_at(g: Seq<Seq<char>>, q: Seq<char>, i: int) -> bool {
    0 <= i < g.len() && q.is_prefix_of(g.skip(i).flatten())
}

/// One line of text, stored as a byte buffer plus the grapheme clusters it
/// segments into and a cached cluster count.
pub struct Row {
    string: String,
    clusters: Vec<String>,
    len: usize,
}

impl Default for Row {
    /// An empty row: no text, no clusters.
    fn default() -> (r: Self)
        ensures
            r.wf(),
            r.graphemes() == Seq::<Seq<char>>::empty(),
            r.text() == Seq::<char>::empty(),
    {
        let r = Row { string: String::new(), clusters: Vec::new(), len: 0 };
        proof {
            assert(r.clusters.deep_view() =~= Seq::<Seq<char>>::empty());
            assert(Seq::<Seq<char>>::empty().flatten() =~= Seq::<char>::empty());
        }
        r
    }
}

impl Row {
    /// The row's grapheme clusters, each as a character sequence.
    pub closed spec fn graphemes(&self) -> Seq<Seq<char>> {
        self.clusters.deep_view()
    }

    /// The row's full text: the concatenation of its grapheme clusters.
    pub open spec fn text(&self) -> Seq<char> {
        self.graphemes().flatten()
    }

    /// The internal invariant: the cached count matches the cluster list,
    /// the buffer is the concatenation of the clusters, and no cluster is
    /// empty.
    pub closed spec fn wf(&self) -> bool {
        &&& self.len == self.clusters.len()
        &&& self.string@ == self.clusters.deep_view().flatten()
        &&& forall|i: int| 0 <= i < self.clusters.len() ==> self.clusters@[i]@.len() > 0
    }

    /// Builds a row by segmenting `slice` into grapheme clusters.
    pub fn from(slice: &str) -> (r: Self)
        ensures
            r.wf(),
            r.graphemes() == graphemes_of(slice@),
            r.text() == slice@,
    {
        let clusters = segment_graphemes(slice);
        let len = clusters.len();
        let string = slice.to_owned();
        let r = Row { string, clusters, len };
        proof {
            assert forall|i: int| 0 <= i < r.clusters.len() implies r.clusters@[i]@.len() > 0 by {
                assert(r.clusters.deep_view()[i] == r.clusters@[i]@);
            }
        }
        r
    }

    /// Number of grapheme clusters in the row.
    pub fn len(&self) -> (l: usize)
        requires
            self.wf(),
        ensures
            l == self.graphemes().len(),
    {
        self.len
    }

    /// Whether the row holds no clusters at all.
    pub fn is_empty(&self) -> (b: bool)
        requires
            self.wf(),
        ensures
            b == (self.graphemes().len() == 0),
    {
        self.len == 0
    }

    /// Recomputes the byte buffer as the concatenation of the clusters.
    fn rebuild(&mut self)
        ensures
            final(self).clusters == old(self).clusters,
            final(self).len == old(self).len,
            final(self).string@ == final(self).clusters.deep_view().flatten(),
    {
        let mut s = String::new();
        let n: usize = self.clusters.len();
        assert(self.clusters.deep_view().take(0) =~= Seq::<Seq<char>>::empty());
        assert(Seq::<Seq<char>>::empty().flatten() =~= Seq::<char>::empty());
        for i in 0..n
            invariant
                n == self.clusters.len(),
                self.clusters == old(self).clusters,
                self.len == old(self).len,
                s@ == self.clusters.deep_view().take(i as int).flatten(),
        {
            let ghost pre = self.clusters.deep_view().take(i as int);
            s.append(self.clusters[i].as_str());
            proof {
                let dv = self.clusters.deep_view();
                assert(dv.take(i + 1) =~= pre.push(dv[i as int]));
                pre.lemma_flatten_push(dv[i as int]);
                assert(dv[i as int] == self.clusters@[i as int]@);
            }
        }
        proof {
            assert(self.clusters.deep_view().take(n as int) =~= self.clusters.deep_view());
        }
        self.string = s;
    }

    /// Inserts the character `c` as a new cluster at cluster index `pos`;
    /// a `pos` at or beyond the end appends it.
    pub fn insert(&mut self, pos: usize, c: char)
        requires
            old(self).wf(),
        ensures
            final(self).wf(),
            final(self).graphemes() == row_insert(old(self).graphemes(), pos, c),
    {
        let mut cl = String::new();
        push_char(&mut cl, c);
        assert(cl@ =~= seq![c]);
        if pos >= self.len {
            self.clusters.push(cl);
        } else {
            self.clusters.insert(pos, cl);
        }
        self.len = self.clusters.len();
        self.rebuild();
        proof {
            let odv = old(self).clusters.deep_view();
            let ndv = self.clusters.deep_view();
            if pos < odv.len() {
                assert(ndv =~= odv.insert(pos as int, seq![c]));
            } else {
                assert(ndv =~= odv.push(seq![c]));
            }
            assert forall|i: int| 0 <= i < self.clusters.len() implies self.clusters@[i]@.len() > 0 by {
                assert(self.clusters.deep_view()[i] == self.clusters@[i]@);
                assert(ndv == row_insert(odv, pos, c));
            }
        }
    }

    /// Deletes the cluster at cluster index `pos`; a `pos` at or beyond the
    /// end is a no-op.
    pub fn delete(&mut self, pos: usize)
        requires
            old(self).wf(),
        ensures
            final(self).wf(),
            final(self).graphemes() == row_delete(old(self).graphemes(), pos),
    {
        if pos < self.len {
            self.clusters.remove(pos);
            self.len = self.clusters.len();
            self.rebuild();
            proof {
                let odv = old(self).clusters.deep_view();
                let ndv = self.clusters.deep_view();
                assert(ndv =~= odv.remove(pos as int));
                assert forall|i: int| 0 <= i < self.clusters.len() implies self.clusters@[i]@.len() > 0 by {
                    assert(self.clusters.deep_view()[i] == self.clusters@[i]@);
                }
            }
        }
    }

    /// Concatenates another row's clusters (and text) onto this row's end.
    pub fn append(&mut self, new: &Self)
        requires
            old(self).wf(),
            new.wf(),
        ensures
            final(self).wf(),
            final(self).graphemes() == old(self).graphemes() + new.graphemes(),
    {
        let n: usize = new.clusters.len();
        for i in 0..n
            invariant
                n == new.clusters.len(),
                new.wf(),
                self.string == old(self).string,
                self.clusters@ == old(self).clusters@ + new.clusters@.take(i as int),
        {
            let cl = new.clusters[i].clone();
            self.clusters.push(cl);
            proof {
                assert(self.clusters@ =~= old(self).clusters@ + new.clusters@.take(i + 1));
            }
        }
        proof {
            assert(new.clusters@.take(n as int) =~= new.clusters@);
        }
        self.len = self.clusters.len();
        self.string.append(new.string.as_str());
        proof {
            let odv = old(self).clusters.deep_view();
            let adv = new.clusters.deep_view();
            let ndv = self.clusters.deep_view();
            assert(ndv =~= odv + adv);
            lemma_flatten_concat(odv, adv);
            assert forall|i: int| 0 <= i < self.clusters.len() implies self.clusters@[i]@.len() > 0 by {
                assert(self.clusters.deep_view()[i] == self.clusters@[i]@);
                assert(ndv == odv + adv);
            }
        }
    }

    /// Truncates this row to the clusters before `pos` and returns a new row
    /// holding the clusters from `pos` onward (a `pos` beyond the end leaves
    /// this row whole and returns an empty row).
    pub fn split(&mut self, pos: usize) -> (r: Self)
        requires
            old(self).wf(),
        ensures
            final(self).wf(),
            r.wf(),
            final(self).graphemes() == old(self).graphemes().take(split_point(old(self).graphemes(), pos)),
            r.graphemes() == old(self).graphemes().skip(split_point(old(self).graphemes(), pos)),
    {
        let p: usize = if pos <= self.len { pos } else { self.len };
        let tail_clusters = self.clusters.split_off(p);
        let tail_len: usize = tail_clusters.len();
        let mut tail = Row { string: String::new(), clusters: tail_clusters, len: tail_len };
        tail.rebuild();
        self.len = self.clusters.len();
        self.rebuild();
        proof {
            let odv = old(self).clusters.deep_view();
            assert(self.clusters.deep_view() =~= odv.take(p as int));
            assert(tail.clusters.deep_view() =~= odv.skip(p as int));
            assert forall|i: int| 0 <= i < self.clusters.len() implies self.clusters@[i]@.len() > 0 by {
                assert(self.clusters.deep_view()[i] == self.clusters@[i]@);
                assert(self.clusters.deep_view()[i] == odv[i]);
            }
            assert forall|i: int| 0 <= i < tail.clusters.len() implies tail.clusters@[i]@.len() > 0 by {
                assert(tail.clusters.deep_view()[i] == tail.clusters@[i]@);
                assert(tail.clusters.deep_view()[i] == odv[i + p]);
            }
        }
        tail
    }

    /// The raw buffer bytes, with no trailing newline.
    pub fn as_bytes(&self) -> (b: &[u8])
        requires
            self.wf(),
        ensures
            b@ == vstd::utf8::encode_utf8(self.text()),
    {
        self.string.as_str().as_bytes()
    }

    /// The visible slice between cluster indices `start` (inclusive) and
    /// `end` (exclusive), clamped to the row; tab clusters show as one space.
    pub fn render(&self, start: usize, end: usize) -> (r: String)
        requires
            self.wf(),
        ensures
            r@ == rendered(render_range(self.graphemes(), start, end)),
    {
        let e: usize = if end <= self.len { end } else { self.len };
        let s: usize = if start <= e { start } else { e };
        let ghost g = self.graphemes();
        let ghost f = |cl: Seq<char>| if cl == seq!['\t'] { seq![' '] } else { cl };
        let mut out = String::new();
        assert(render_range(g, start, end) == g.subrange(s as int, e as int));
        assert(g.subrange(s as int, s as int) =~= Seq::<Seq<char>>::empty());
        assert(Seq::<Seq<char>>::empty().map_values(f) =~= Seq::<Seq<char>>::empty());
        assert(Seq::<Seq<char>>::empty().flatten() =~= Seq::<char>::empty());
        for i in s..e
            invariant
                s <= i <= e <= self.len,
                self.wf(),
                g == self.graphemes(),
                f == (|cl: Seq<char>| if cl == seq!['\t'] { seq![' '] } else { cl }),
                out@ == rendered(g.subrange(s as int, i as int)),
        {
            let cl = &self.clusters[i];
            let cs = cl.as_str();
            let ghost pre = g.subrange(s as int, i as int);
            proof {
                assert(g[i as int] == self.clusters@[i as int]@);
            }
            if cs.unicode_len() == 1 && cs.get_char(0) == '\t' {
                push_char(&mut out, ' ');
                proof {
                    assert(g[i as int] =~= seq!['\t']);
                }
            } else {
                out.append(cs);
                proof {
                    if g[i as int] == seq!['\t'] {
                        assert(cs@.len() == 1 && cs@[0] == '\t');
                        assert(false);
                    }
                }
            }
            proof {
                assert(g.subrange(s as int, i + 1) =~= pre.push(g[i as int]));
                assert(pre.push(g[i as int]).map_values(f) =~= pre.map_values(f).push(f(g[i as int])));
                pre.map_values(f).lemma_flatten_push(f(g[i as int]));
                assert(out@ == rendered(g.subrange(s as int, i + 1)));
            }
        }
        out
    }

    /// The concatenation of the clusters from index `at` on, as a string.
    fn suffix_text(&self, at: usize) -> (r: String)
        requires
            self.wf(),
            at <= self.graphemes().len(),
        ensures
            r@ == self.graphemes().skip(at as int).flatten(),
    {
        let mut s = String::new();
        let n: usize = self.clusters.len();
        let ghost g = self.graphemes();
        assert(g.subrange(at as int, at as int) =~= Seq::<Seq<char>>::empty());
        assert(Seq::<Seq<char>>::empty().flatten() =~= Seq::<char>::empty());
        for i in at..n
            invariant
                at <= i <= n,
                self.wf(),
                n == self.clusters.len(),
                g == self.graphemes(),
                s@ == g.subrange(at as int, i as int).flatten(),
        {
            let ghost pre = g.subrange(at as int, i as int);
            s.append(self.clusters[i].as_str());
            proof {
                assert(g.subrange(at as int, i + 1) =~= pre.push(g[i as int]));
                pre.lemma_flatten_push(g[i as int]);
                assert(g[i as int] == self.clusters@[i as int]@);
            }
        }
        proof {
            assert(g.subrange(at as int, n as int) =~= g.skip(at as int));
        }
        s
    }

    /// Whether `query` occurs starting exactly at cluster index `at`.
    fn match_prefix_at(&self, at: usize, query: &str) -> (b: bool)
        requires
            self.wf(),
            at < self.graphemes().len(),
        ensures
            b == match_at(self.graphemes(), query@, at as int),
    {
        let suffix = self.suffix_text(at);
        let suf = suffix.as_str();
        let sn: usize = suf.unicode_len();
        let qn: usize = query.unicode_len();
        if qn > sn {
            return false;
        }
        let mut j: usize = 0;
        while j < qn
            invariant
                j <= qn <= sn,
                sn == suf@.len(),
                qn == query@.len(),
                suf@ == self.graphemes().skip(at as int).flatten(),
                forall|k: int| 0 <= k < j ==> suf@[k] == query@[k],
            decreases qn - j,
        {
            if suf.get_char(j) != query.get_char(j) {
                assert(!query@.is_prefix_of(suf@)) by {
                    assert(query@.take(qn as int) =~= query@);
                }
                return false;
            }
            j += 1;
        }
        assert(query@.is_prefix_of(suf@)) by {
            assert(suf@.take(qn as int) =~= query@);
        }
        true
    }

    /// Finds the first occurrence of `query` at or after cluster index
    /// `after`, as a cluster index.
    pub fn find(&self, query: &str, after: usize) -> (r: Option<usize>)
        requires
            self.wf(),
        ensures
            match r {
                Some(j) => after <= j && match_at(self.graphemes(), query@, j as int)
                    && forall|k: int| after <= k < j ==> !match_at(self.graphemes(), query@, k),
                None => forall|k: int| after <= k ==> !match_at(self.graphemes(), query@, k),
            },
    {
        let mut i: usize = after;
        if i >= self.len {
            return None;
        }
        while i < self.len
            invariant
                after <= i <= self.len,
                self.wf(),
                self.len == self.graphemes().len(),
                forall|k: int| after <= k < i ==> !match_at(self.graphemes(), query@, k),
            decreases self.len - i,
        {
            if self.match_prefix_at(i, query) {
                return Some(i);
            }
            i += 1;
        }
        None
    }
}

} // verus!
