//! Reflowing resize: the scrollback and screen are joined back into logical lines
//! (following the line continuation flags) and laid out again at the new width.
use vstd::prelude::*;
use std::collections::VecDeque;
use crate::grid::{blank, blank_row, cells_view, push_limited, sb_row_view, sb_view, Cell, CellView, Grid, GridModel, ScrollRow};

verus! {

pub type Entry = (Seq<CellView>, bool);

/// Join rows into logical lines: a row flagged as continuation extends the line before it.
pub open spec fn gather_lines(entries: Seq<Entry>) -> Seq<Seq<CellView>>
    decreases entries.len(),
{
    if entries.len() == 0 {
        Seq::empty()
    } else {
        let prev = gather_lines(entries.drop_last());
        let e = entries.last();
        if e.1 && prev.len() > 0 {
            prev.update(prev.len() - 1, prev.last() + e.0)
        } else {
            prev.push(e.0)
        }
    }
}

/// A row of exactly `cols` cells: `s` followed by blank cells.
pub open spec fn pad_row(s: Seq<CellView>, cols: nat) -> Seq<CellView> {
    s + Seq::new((cols - s.len()) as nat, |i: int| blank())
}

/// The rows one logical line occupies at width `cols`; every row after the first is
/// flagged as a continuation. An empty line still occupies one blank row.
pub open spec fn chunk_rows(line: Seq<CellView>, cols: nat, first: bool) -> Seq<Entry>
    decreases line.len(),
{
    if line.len() <= cols || cols == 0 {
        seq![(pad_row(line, cols), !first)]
    } else {
        seq![(line.take(cols as int), !first)] + chunk_rows(line.skip(cols as int), cols, false)
    }
}

pub open spec fn reflow(lines: Seq<Seq<CellView>>, cols: nat) -> Seq<Entry>
    decreases lines.len(),
{
    if lines.len() == 0 {
        Seq::empty()
    } else {
        reflow(lines.drop_last(), cols) + chunk_rows(lines.last(), cols, true)
    }
}

/// What a scrollback that starts empty holds after pushing `s` in order.
pub open spec fn pushed_limited(s: Seq<Entry>, limit: nat) -> Seq<Entry>
    decreases s.len(),
{
    if s.len() == 0 {
        Seq::empty()
    } else {
        push_limited(pushed_limited(s.drop_last(), limit), s.last(), limit)
    }
}

pub open spec fn screen_entries(g: GridModel) -> Seq<Entry> {
    Seq::new(g.rows, |r: int| (g.screen[r], g.row_continuation[r]))
}

pub open spec fn clamp_dim(n: nat) -> nat {
    if n == 0 {
        1
    } else {
        n
    }
}

impl GridModel {
    /// The grid after resizing to `new_cols` x `new_rows` (each at least one): all rows of
    /// the scrollback and screen are joined into logical lines and written again from the
    /// top-left corner at the new width, each line starting a fresh row, followed by one
    /// blank row that holds the cursor. Rows that do not fit scroll into the scrollback.
    pub open spec fn resize(self, new_cols: nat, new_rows: nat) -> GridModel {
        let c = clamp_dim(new_cols);
        let r = clamp_dim(new_rows);
        if c == self.cols && r == self.rows {
            self
        } else {
            let rows = reflow(gather_lines(self.scrollback + screen_entries(self)), c);
            let v = rows.push((blank_row(c), false));
            let k: nat = if v.len() > r { (v.len() - r) as nat } else { 0 };
            let shown = v.skip(k as int) + Seq::new((r - (v.len() - k)) as nat, |i: int| (blank_row(c), false));
            GridModel {
                screen: shown.map_values(|e: Entry| e.0),
                row_continuation: shown.map_values(|e: Entry| e.1),
                scrollback: pushed_limited(rows.take(k as int), self.scrollback_limit),
                cols: c,
                rows: r,
                cursor_x: 0,
                cursor_y: (v.len() - k - 1) as nat,
                wrap_next: false,
                scroll_top: 0,
                scroll_bottom: (r - 1) as nat,
                ..self
            }
        }
    }
}

pub open spec fn lines_view(v: Seq<Vec<Cell>>) -> Seq<Seq<CellView>> {
    v.map_values(|l: Vec<Cell>| cells_view(l@))
}

proof fn lemma_chunk_rows_shape(line: Seq<CellView>, cols: nat, first: bool)
    requires
        cols >= 1,
    ensures
        forall|i: int| 0 <= i < chunk_rows(line, cols, first).len() ==> (#[trigger] chunk_rows(line, cols, first)[i]).0.len() == cols,
        chunk_rows(line, cols, first).len() >= 1,
    decreases line.len(),
{
    if line.len() <= cols {
    } else {
        lemma_chunk_rows_shape(line.skip(cols as int), cols, false);
        let rest = chunk_rows(line.skip(cols as int), cols, false);
        let all = chunk_rows(line, cols, first);
        assert forall|i: int| 0 <= i < all.len() implies (#[trigger] all[i]).0.len() == cols by {
            if i > 0 {
                assert(all[i] == rest[i - 1]);
            }
        }
    }
}

proof fn lemma_reflow_shape(lines: Seq<Seq<CellView>>, cols: nat)
    requires
        cols >= 1,
    ensures
        forall|i: int| 0 <= i < reflow(lines, cols).len() ==> (#[trigger] reflow(lines, cols)[i]).0.len() == cols,
    decreases lines.len(),
{
    if lines.len() > 0 {
        lemma_reflow_shape(lines.drop_last(), cols);
        lemma_chunk_rows_shape(lines.last(), cols, true);
        let a = reflow(lines.drop_last(), cols);
        let b = chunk_rows(lines.last(), cols, true);
        assert forall|i: int| 0 <= i < reflow(lines, cols).len() implies (#[trigger] reflow(lines, cols)[i]).0.len() == cols by {
            if i >= a.len() {
                assert(reflow(lines, cols)[i] == b[i - a.len()]);
            } else {
                assert(reflow(lines, cols)[i] == a[i]);
            }
        }
    }
}

/// Move the cells `src[from..to]` to the end of `dst`; the moved-out places become blank.
fn move_range(src: &mut Vec<Cell>, from: usize, to: usize, dst: &mut Vec<Cell>)
    requires
        from <= to <= old(src)@.len(),
    ensures
        final(src)@.len() == old(src)@.len(),
        forall|j: int| 0 <= j < old(src)@.len() && !(from <= j < to) ==> #[trigger] final(src)@[j] == old(src)@[j],
        cells_view(final(dst)@) == cells_view(old(dst)@) + cells_view(old(src)@).subrange(from as int, to as int),
{
    let ghost s0 = src@;
    let ghost d0 = cells_view(dst@);
    let mut j = from;
    while j < to
        invariant
            from <= j <= to <= s0.len(),
            src@.len() == s0.len(),
            forall|q: int| 0 <= q < s0.len() && !(from <= q < j) ==> #[trigger] src@[q] == s0[q],
            cells_view(dst@) == d0 + cells_view(s0).subrange(from as int, j as int),
        decreases to - j,
    {
        let mut tmp = Cell::blank();
        src.set_and_swap(j, &mut tmp);
        let ghost prev = dst@;
        dst.push(tmp);
        proof {
            assert(cells_view(dst@) =~= cells_view(prev).push(tmp@));
            assert(cells_view(dst@) =~= d0 + cells_view(s0).subrange(from as int, j + 1));
        }
        j = j + 1;
    }
}

/// Lay out one logical line at width `cols`, moving its cells.
fn chunk_line(line: Vec<Cell>, cols: usize, out: &mut Vec<ScrollRow>)
    requires
        cols >= 1,
    ensures
        sb_view(final(out)@) == sb_view(old(out)@) + chunk_rows(cells_view(line@), cols as nat, true),
{
    let ghost l0 = cells_view(line@);
    let ghost o0 = sb_view(out@);
    let mut line = line;
    let len = line.len();
    let mut idx: usize = 0;
    let mut done = false;
    proof {
        assert(l0.skip(0) =~= l0);
        assert(o0 + chunk_rows(l0, cols as nat, true) =~= o0 + chunk_rows(l0, cols as nat, true));
    }
    while !done
        invariant
            len == l0.len(),
            line@.len() == len,
            cols >= 1,
            idx <= len,
            !done ==> forall|q: int| idx <= q < len ==> #[trigger] cells_view(line@)[q] == l0[q],
            !done ==> sb_view(out@) + chunk_rows(l0.skip(idx as int), cols as nat, idx == 0) == o0 + chunk_rows(l0, cols as nat, true),
            done ==> sb_view(out@) == o0 + chunk_rows(l0, cols as nat, true),
        decreases len - idx + (if done { 0int } else { 1int }),
    {
        let ghost rest = l0.skip(idx as int);
        let ghost lv = cells_view(line@);
        let ghost old_line = line@;
        let mut row: Vec<Cell> = Vec::new();
        if len - idx <= cols {
            move_range(&mut line, idx, len, &mut row);
            let pad = cols - (len - idx);
            let mut blanks = Grid::blank_cells(pad);
            let ghost rv = cells_view(row@);
            let ghost bv = cells_view(blanks@);
            row.append(&mut blanks);
            proof {
                assert(cells_view(row@) =~= rv + bv);
                assert(rv =~= rest);
                assert(cells_view(row@) =~= pad_row(rest, cols as nat));
            }
            let first = idx == 0;
            let ghost prev = out@;
            out.push((row, !first));
            proof {
                assert(lv.subrange(idx as int, len as int) =~= rest);
                assert(sb_row_view(out@[out@.len() - 1]) == (pad_row(rest, cols as nat), !first));
                assert(sb_view(out@) =~= sb_view(prev).push((pad_row(rest, cols as nat), !first)));
                assert(chunk_rows(rest, cols as nat, first) == seq![(pad_row(rest, cols as nat), !first)]);
                assert(sb_view(out@) =~= sb_view(prev) + chunk_rows(rest, cols as nat, first));
            }
            done = true;
        } else {
            move_range(&mut line, idx, idx + cols, &mut row);
            proof {
                assert forall|q: int| idx + cols <= q < len implies #[trigger] cells_view(line@)[q] == l0[q] by {
                    assert(line@[q] == old_line[q]);
                    assert(lv[q] == l0[q]);
                }
            }
            let first = idx == 0;
            let ghost prev = out@;
            out.push((row, !first));
            proof {
                assert(lv.subrange(idx as int, idx + cols) =~= rest.take(cols as int));
                assert(rest.skip(cols as int) =~= l0.skip(idx + cols));
                assert(cells_view(row@) =~= rest.take(cols as int));
                assert(sb_view(out@) =~= sb_view(prev).push((rest.take(cols as int), !first)));
                assert(chunk_rows(rest, cols as nat, first) == seq![(rest.take(cols as int), !first)] + chunk_rows(l0.skip(idx + cols), cols as nat, false));
                assert(sb_view(out@) + chunk_rows(l0.skip(idx + cols), cols as nat, false) =~= sb_view(prev) + chunk_rows(rest, cols as nat, first));
            }
            idx = idx + cols;
        }
    }
}


fn gather(entries: Vec<ScrollRow>) -> (lines: Vec<Vec<Cell>>)
    ensures
        lines_view(lines@) == gather_lines(sb_view(entries@)),
{
    let ghost e0 = sb_view(entries@);
    let mut entries = entries;
    let n = entries.len();
    let mut lines: Vec<Vec<Cell>> = Vec::new();
    let mut i: usize = 0;
    proof {
        assert(e0.take(0) =~= Seq::<Entry>::empty());
        assert(lines_view(lines@) =~= Seq::<Seq<CellView>>::empty());
    }
    while i < n
        invariant
            n == e0.len(),
            entries@.len() == n,
            i <= n,
            forall|q: int| i <= q < n ==> #[trigger] sb_view(entries@)[q] == e0[q],
            lines_view(lines@) == gather_lines(e0.take(i as int)),
        decreases n - i,
    {
        let ghost ev = sb_view(entries@);
        let ghost raw = entries@;
        let mut tmp: ScrollRow = (Vec::new(), false);
        let ghost t0 = sb_row_view(tmp);
        entries.set_and_swap(i, &mut tmp);
        proof {
            assert(sb_view(entries@) =~= ev.update(i as int, t0));
            assert(tmp == raw[i as int]);
            assert(ev[i as int] == sb_row_view(raw[i as int]));
            assert(sb_row_view(tmp) == e0[i as int]);
            assert(e0.take(i + 1).drop_last() =~= e0.take(i as int));
        }
        let (mut row, cont) = tmp;
        let ghost lv = lines_view(lines@);
        if cont && lines.len() > 0 {
            let last = lines.len() - 1;
            let mut l: Vec<Cell> = Vec::new();
            lines.set_and_swap(last, &mut l);
            let ghost lv_last = cells_view(l@);
            l.append(&mut row);
            proof {
                assert(cells_view(l@) =~= lv_last + e0[i as int].0);
            }
            lines.set(last, l);
            proof {
                assert(lines_view(lines@) =~= lv.update(last as int, lv.last() + e0[i as int].0));
            }
        } else {
            lines.push(row);
            proof {
                assert(lines_view(lines@) =~= lv.push(e0[i as int].0));
            }
        }
        i = i + 1;
    }
    proof {
        assert(e0.take(n as int) =~= e0);
    }
    lines
}

fn reflow_lines(lines: Vec<Vec<Cell>>, cols: usize) -> (out: Vec<ScrollRow>)
    requires
        cols >= 1,
    ensures
        sb_view(out@) == reflow(lines_view(lines@), cols as nat),
{
    let ghost l0 = lines_view(lines@);
    let mut lines = lines;
    let n = lines.len();
    let mut out: Vec<ScrollRow> = Vec::new();
    let mut i: usize = 0;
    proof {
        assert(l0.take(0) =~= Seq::<Seq<CellView>>::empty());
        assert(sb_view(out@) =~= Seq::<Entry>::empty());
    }
    while i < n
        invariant
            n == l0.len(),
            lines@.len() == n,
            cols >= 1,
            i <= n,
            forall|q: int| i <= q < n ==> #[trigger] lines_view(lines@)[q] == l0[q],
            sb_view(out@) == reflow(l0.take(i as int), cols as nat),
        decreases n - i,
    {
        let ghost lv = lines_view(lines@);
        let ghost raw = lines@;
        let mut line: Vec<Cell> = Vec::new();
        let ghost t0 = cells_view(line@);
        lines.set_and_swap(i, &mut line);
        proof {
            assert(lines_view(lines@) =~= lv.update(i as int, t0));
            assert(line == raw[i as int]);
            assert(lv[i as int] == cells_view(raw[i as int]@));
            assert(cells_view(line@) == l0[i as int]);
            assert(l0.take(i + 1).drop_last() =~= l0.take(i as int));
        }
        chunk_line(line, cols, &mut out);
        i = i + 1;
    }
    proof {
        assert(l0.take(n as int) =~= l0);
    }
    out
}

proof fn lemma_flat_rows(flat: Seq<CellView>, rows: Seq<Seq<CellView>>, row: Seq<CellView>, cols: nat)
    requires
        flat.len() == rows.len() * cols,
        row.len() == cols,
        forall|r: int| 0 <= r < rows.len() ==> #[trigger] flat.subrange(r * cols, r * cols + cols) == rows[r],
    ensures
        (flat + row).len() == (rows.len() + 1) * cols,
        forall|r: int| 0 <= r < rows.len() + 1 ==> #[trigger] (flat + row).subrange(r * cols, r * cols + cols) == rows.push(row)[r],
{
    let n = rows.len() as int;
    assert((n + 1) * cols == n * cols + cols) by (nonlinear_arith);
    assert forall|r: int| 0 <= r < rows.len() + 1 implies #[trigger] (flat + row).subrange(r * cols, r * cols + cols) == rows.push(row)[r] by {
        if r < n {
            assert(r * cols + cols <= n * cols) by (nonlinear_arith) requires r < n, cols >= 0;
            assert(0 <= r * cols) by (nonlinear_arith) requires r >= 0, cols >= 0;
            assert((flat + row).subrange(r * cols, r * cols + cols) =~= flat.subrange(r * cols, r * cols + cols));
        } else {
            assert((flat + row).subrange(r * cols, r * cols + cols) =~= row);
        }
    }
}

impl Grid {
    /// Resize to `new_cols` x `new_rows` (each raised to at least one), reflowing the
    /// scrollback and screen contents as [`GridModel::resize`] describes.
    #[verifier::spinoff_prover]
    #[verifier::rlimit(60)]
    pub fn resize(&mut self, new_cols: usize, new_rows: usize)
        requires
            old(self).wf(),
            clamp_dim(new_cols as nat) * clamp_dim(new_rows as nat) <= usize::MAX,
        ensures
            final(self).wf(),
            final(self)@ == old(self)@.resize(new_cols as nat, new_rows as nat),
    {
        let nc = if new_cols == 0 { 1 } else { new_cols };
        let nr = if new_rows == 0 { 1 } else { new_rows };
        if nc == self.cols && nr == self.rows {
            return;
        }
        let ghost g0 = self@;
        // Every row of the scrollback, then every row of the screen, in order.
        let mut entries: Vec<ScrollRow> = Vec::new();
        while self.scrollback.len() > 0
            invariant
                self.wf(),
                self@ == (GridModel { scrollback: self@.scrollback, ..g0 }),
                sb_view(entries@) + self@.scrollback == g0.scrollback,
            decreases self.scrollback@.len(),
        {
            let ghost ev = sb_view(entries@);
            let ghost sv = self@.scrollback;
            let e = self.scrollback.pop_front();
            if let Some(x) = e {
                entries.push(x);
                proof {
                    assert(sb_view(entries@) =~= ev.push(sb_row_view(x)));
                    assert(self@.scrollback =~= sv.drop_first());
                    assert(sb_view(entries@) + self@.scrollback =~= ev + sv);
                }
            }
            assert(self@ =~= (GridModel { scrollback: self@.scrollback, ..g0 }));
        }
        proof {
            assert(self@.scrollback =~= Seq::<Entry>::empty());
            assert(sb_view(entries@) =~= g0.scrollback);
        }
        let rows = self.rows;
        let mut r: usize = 0;
        while r < rows
            invariant
                self.wf(),
                rows == self.rows,
                g0.wf(),
                rows == g0.rows,
                self.cols == g0.cols,
                r <= rows,
                self.row_continuation@ == g0.row_continuation,
                self.scrollback_limit == g0.scrollback_limit,
                self@.scrollback == Seq::<Entry>::empty(),
                self@ == (GridModel { screen: self@.screen, scrollback: self@.scrollback, ..g0 }),
                forall|q: int| r <= q < rows ==> #[trigger] self@.screen[q] == g0.screen[q],
                sb_view(entries@) == g0.scrollback + screen_entries(g0).take(r as int),
            decreases rows - r,
        {
            let ghost ev = sb_view(entries@);
            let cont = self.row_continuation[r];
            let row = self.take_row(r);
            entries.push((row, cont));
            proof {
                assert(sb_view(entries@) =~= ev.push((g0.screen[r as int], g0.row_continuation[r as int])));
                assert(screen_entries(g0).take(r + 1) =~= screen_entries(g0).take(r as int).push(screen_entries(g0)[r as int]));
                assert(sb_view(entries@) =~= g0.scrollback + screen_entries(g0).take(r + 1));
            }
            r = r + 1;
        }
        proof {
            assert(screen_entries(g0).take(rows as int) =~= screen_entries(g0));
        }
        let lines = gather(entries);
        let mut laid = reflow_lines(lines, nc);
        let ghost rows_v = sb_view(laid@);
        proof {
            lemma_reflow_shape(gather_lines(g0.scrollback + screen_entries(g0)), nc as nat);
        }
        let blank_v = Grid::blank_cells(nc);
        laid.push((blank_v, false));
        let ghost v = sb_view(laid@);
        proof {
            assert(blank_row(nc as nat) =~= Seq::new(nc as nat, |i: int| blank()));
            assert(v =~= rows_v.push((blank_row(nc as nat), false)));
        }
        let total = laid.len();
        let k: usize = if total > nr { total - nr } else { 0 };
        // Rows that do not fit go to the scrollback, oldest first.
        let mut i: usize = 0;
        proof {
            assert(rows_v.take(0) =~= Seq::<Entry>::empty());
        }
        while i < k
            invariant
                i <= k,
                k < total,
                total == laid@.len(),
                v.len() == total,
                v == rows_v.push((blank_row(nc as nat), false)),
                forall|q: int| i <= q < total ==> #[trigger] sb_view(laid@)[q] == v[q],
                sb_view(self.scrollback@) == pushed_limited(rows_v.take(i as int), g0.scrollback_limit),
                self.scrollback_limit == g0.scrollback_limit,
                self@ == (GridModel { screen: self@.screen, scrollback: self@.scrollback, ..g0 }),
            decreases k - i,
        {
            let ghost lv = sb_view(laid@);
            let ghost raw = laid@;
            let mut tmp: ScrollRow = (Vec::new(), false);
            let ghost t0 = sb_row_view(tmp);
            let ghost sbv = sb_view(self.scrollback@);
            laid.set_and_swap(i, &mut tmp);
            proof {
                assert(sb_view(laid@) =~= lv.update(i as int, t0));
                assert(tmp == raw[i as int]);
                assert(lv[i as int] == sb_row_view(raw[i as int]));
                assert(sb_row_view(tmp) == v[i as int]);
                assert(v[i as int] == rows_v[i as int]);
                assert(rows_v.take(i + 1).drop_last() =~= rows_v.take(i as int));
            }
            self.scrollback.push_back(tmp);
            proof {
                assert(sb_view(self.scrollback@) =~= sbv.push(rows_v[i as int]));
            }
            if self.scrollback.len() > self.scrollback_limit {
                let _dropped = self.scrollback.pop_front();
                proof {
                    assert(sb_view(self.scrollback@) =~= sbv.push(rows_v[i as int]).drop_first());
                }
            }
            proof {
                assert(rows_v.take(i + 1).last() == rows_v[i as int]);
                assert(sb_view(self.scrollback@) =~= pushed_limited(rows_v.take(i + 1), g0.scrollback_limit));
            }
            i = i + 1;
        }
        // The remaining rows form the screen, padded with blank rows.
        let shown_n = total - k;
        let ghost shown = v.skip(k as int) + Seq::new((nr - (v.len() - k)) as nat, |q: int| (blank_row(nc as nat), false));
        let mut cells: Vec<Cell> = Vec::new();
        let mut flags: Vec<bool> = Vec::new();
        let mut j: usize = 0;
        proof {
            lemma_flat_rows(Seq::empty(), Seq::empty(), Seq::empty(), 0);
        }
        while j < nr
            invariant
                shown_n == total - k,
                shown_n <= nr,
                j <= nr,
                k + shown_n == laid@.len(),
                v.len() == laid@.len(),
                shown.len() == nr,
                shown == v.skip(k as int) + Seq::new((nr - (v.len() - k)) as nat, |q: int| (blank_row(nc as nat), false)),
                forall|q: int| k + j <= q < k + shown_n ==> #[trigger] sb_view(laid@)[q] == v[q],
                forall|q: int| 0 <= q < v.len() ==> (#[trigger] v[q]).0.len() == nc,
                nc >= 1,
                nc * nr <= usize::MAX,
                cells@.len() == j * nc,
                forall|q: int| 0 <= q < j ==> #[trigger] cells_view(cells@).subrange(q * nc, q * nc + nc) == shown[q].0,
                flags@ == shown.take(j as int).map_values(|e: Entry| e.1),
                self@ == (GridModel { screen: self@.screen, scrollback: self@.scrollback, ..g0 }),
                sb_view(self.scrollback@) == pushed_limited(rows_v.take(k as int), g0.scrollback_limit),
            decreases nr - j,
        {
            let ghost cv = cells_view(cells@);
            let ghost fv = flags@;
            let mut row: Vec<Cell>;
            let cont: bool;
            if j < shown_n {
                let ghost lv = sb_view(laid@);
                let ghost raw = laid@;
                let mut tmp: ScrollRow = (Vec::new(), false);
                let ghost t0 = sb_row_view(tmp);
                laid.set_and_swap(k + j, &mut tmp);
                proof {
                    assert(sb_view(laid@) =~= lv.update(k + j, t0));
                    assert(tmp == raw[k + j]);
                    assert(lv[k + j] == sb_row_view(raw[k + j]));
                    assert(sb_row_view(tmp) == v[k + j]);
                    assert(shown[j as int] == v[k + j]);
                }
                row = tmp.0;
                cont = tmp.1;
            } else {
                row = Grid::blank_cells(nc);
                cont = false;
                proof {
                    assert(cells_view(row@) =~= blank_row(nc as nat));
                }
            }
            proof {
                assert(cells_view(row@) == shown[j as int].0);
                assert(cont == shown[j as int].1);
                lemma_flat_rows(cv, shown.take(j as int).map_values(|e: Entry| e.0), shown[j as int].0, nc as nat);
                assert(shown.take(j + 1).map_values(|e: Entry| e.0) =~= shown.take(j as int).map_values(|e: Entry| e.0).push(shown[j as int].0));
                assert((j + 1) * nc <= nr * nc) by (nonlinear_arith) requires j < nr, nc >= 1;
            }
            cells.append(&mut row);
            flags.push(cont);
            proof {
                assert(cells_view(cells@) =~= cv + shown[j as int].0);
                assert(flags@ =~= shown.take(j + 1).map_values(|e: Entry| e.1));
                assert forall|q: int| 0 <= q < j + 1 implies #[trigger] cells_view(cells@).subrange(q * nc, q * nc + nc) == shown[q].0 by {
                    assert(shown.take(j + 1).map_values(|e: Entry| e.0)[q] == shown[q].0);
                }
            }
            j = j + 1;
        }
        self.cells = cells;
        self.row_continuation = flags;
        self.cols = nc;
        self.rows = nr;
        self.scroll_top = 0;
        self.scroll_bottom = nr - 1;
        self.cursor_x = 0;
        self.cursor_y = shown_n - 1;
        self.wrap_next = false;
        proof {
            let g1 = g0.resize(new_cols as nat, new_rows as nat);
            assert(shown.take(nr as int) =~= shown);
            assert(self.row_continuation@ =~= g1.row_continuation);
            assert forall|q: int| 0 <= q < nr implies #[trigger] self@.screen[q] == g1.screen[q] by {
                assert(self@.screen[q] == cells_view(self.cells@).subrange(q * nc, q * nc + nc));
            }
            assert(self@.screen =~= g1.screen);
            assert(self@.scrollback == g1.scrollback);
            assert(self@.cursor_y == g1.cursor_y);
            assert(self@ =~= g1);
            assert forall|q: int| 0 <= q < nr implies #[trigger] self@.screen[q].len() == nc by {
                if q < shown_n {
                    assert(shown[q] == v[k + q]);
                }
            }
            assert(self.cells@.len() == cells_view(self.cells@).len());
            assert(nr * nc == nc * nr) by (nonlinear_arith);
            assert(self.layout_ok());
            assert(self@.wf());
        }
    }
}


/// Resizing to the size a grid already has changes nothing.
pub proof fn law_resize_same_size(g: GridModel)
    requires
        g.cols >= 1,
        g.rows >= 1,
    ensures
        g.resize(g.cols, g.rows) == g,
{
}


/// A logical line as it reads back after being laid out at width `cols`: its cells,
/// followed by blanks up to the end of its last row.
pub open spec fn padded_line(line: Seq<CellView>, cols: nat) -> Seq<CellView>
    decreases line.len(),
{
    if line.len() <= cols || cols == 0 {
        pad_row(line, cols)
    } else {
        line.take(cols as int) + padded_line(line.skip(cols as int), cols)
    }
}

proof fn lemma_gather_chunks(e: Seq<Entry>, line: Seq<CellView>, cols: nat, first: bool)
    requires
        cols > 0,
        !first ==> gather_lines(e).len() > 0,
    ensures
        gather_lines(e + chunk_rows(line, cols, first)) == (if first {
            gather_lines(e).push(padded_line(line, cols))
        } else {
            gather_lines(e).update(gather_lines(e).len() - 1, gather_lines(e).last() + padded_line(line, cols))
        }),
    decreases line.len(),
{
    let g = gather_lines(e);
    if line.len() <= cols {
        let x = (pad_row(line, cols), !first);
        assert((e + seq![x]).drop_last() =~= e);
        assert(e + chunk_rows(line, cols, first) =~= e.push(x));
    } else {
        let x = (line.take(cols as int), !first);
        let rest = chunk_rows(line.skip(cols as int), cols, false);
        let e2 = e.push(x);
        assert(e2.drop_last() =~= e);
        assert(e + chunk_rows(line, cols, first) =~= e2 + rest);
        lemma_gather_chunks(e2, line.skip(cols as int), cols, false);
        let g2 = gather_lines(e2);
        let p = padded_line(line.skip(cols as int), cols);
        assert(padded_line(line, cols) == line.take(cols as int) + p);
        if first {
            assert(g2 == g.push(line.take(cols as int)));
            assert(g2.update(g2.len() - 1, g2.last() + p) =~= g.push(line.take(cols as int) + p));
        } else {
            assert(g2 == g.update(g.len() - 1, g.last() + line.take(cols as int)));
            assert(g2.last() == g.last() + line.take(cols as int));
            assert((g.last() + line.take(cols as int)) + p =~= g.last() + (line.take(cols as int) + p));
            assert(g2.update(g2.len() - 1, g2.last() + p) =~= g.update(g.len() - 1, g.last() + (line.take(cols as int) + p)));
        }
    }
}

/// Laying lines out at a width and joining the rows back gives the same lines, each
/// filled with blanks to the end of its last row: reflowing loses no text.
pub proof fn law_reflow_keeps_lines(lines: Seq<Seq<CellView>>, cols: nat)
    requires
        cols > 0,
    ensures
        gather_lines(reflow(lines, cols)) == lines.map_values(|l: Seq<CellView>| padded_line(l, cols)),
    decreases lines.len(),
{
    if lines.len() == 0 {
        assert(gather_lines(reflow(lines, cols)) =~= lines.map_values(|l: Seq<CellView>| padded_line(l, cols)));
    } else {
        law_reflow_keeps_lines(lines.drop_last(), cols);
        lemma_gather_chunks(reflow(lines.drop_last(), cols), lines.last(), cols, true);
        assert(lines.map_values(|l: Seq<CellView>| padded_line(l, cols)) =~= lines.drop_last().map_values(|l: Seq<CellView>| padded_line(l, cols)).push(padded_line(lines.last(), cols)));
    }
}


/// A cell that shows a space, in any rendition.
pub open spec fn is_space(c: CellView) -> bool {
    c.text == seq![' ']
}

/// A line without its trailing spaces.
pub open spec fn trim_spaces(l: Seq<CellView>) -> Seq<CellView>
    decreases l.len(),
{
    if l.len() > 0 && is_space(l.last()) {
        trim_spaces(l.drop_last())
    } else {
        l
    }
}

/// Lines without the empty lines at their end.
pub open spec fn drop_empty_tail(ls: Seq<Seq<CellView>>) -> Seq<Seq<CellView>>
    decreases ls.len(),
{
    if ls.len() > 0 && ls.last().len() == 0 {
        drop_empty_tail(ls.drop_last())
    } else {
        ls
    }
}

/// The text of rows: their logical lines (joined along the continuation flags), each
/// without trailing spaces, without empty lines at the end.
pub open spec fn text_of(entries: Seq<Entry>) -> Seq<Seq<CellView>> {
    drop_empty_tail(gather_lines(entries).map_values(|l: Seq<CellView>| trim_spaces(l)))
}

/// The text of a grid: that of its scrollback followed by its screen.
pub open spec fn grid_text(g: GridModel) -> Seq<Seq<CellView>> {
    text_of(g.scrollback + screen_entries(g))
}

/// How many rows a resize to `new_cols` x `new_rows` moves into the scrollback.
pub open spec fn resize_overflow(g: GridModel, new_cols: nat, new_rows: nat) -> nat {
    let rows = reflow(gather_lines(g.scrollback + screen_entries(g)), clamp_dim(new_cols));
    if rows.len() + 1 > clamp_dim(new_rows) { (rows.len() + 1 - clamp_dim(new_rows)) as nat } else { 0 }
}

proof fn lemma_trim_blanks(l: Seq<CellView>, n: nat)
    ensures
        trim_spaces(l + Seq::new(n, |i: int| blank())) == trim_spaces(l),
    decreases n,
{
    let b = Seq::new(n, |i: int| blank());
    if n == 0 {
        assert(l + b =~= l);
    } else {
        let b1 = Seq::new((n - 1) as nat, |i: int| blank());
        assert((l + b).drop_last() =~= l + b1);
        assert((l + b).last() == blank());
        lemma_trim_blanks(l, (n - 1) as nat);
    }
}

proof fn lemma_padded_is_blanks(line: Seq<CellView>, cols: nat) -> (n: nat)
    requires
        cols > 0,
    ensures
        padded_line(line, cols) == line + Seq::new(n, |i: int| blank()),
    decreases line.len(),
{
    if line.len() <= cols {
        let n = (cols - line.len()) as nat;
        assert(padded_line(line, cols) =~= line + Seq::new(n, |i: int| blank()));
        n
    } else {
        let n = lemma_padded_is_blanks(line.skip(cols as int), cols);
        assert(line.take(cols as int) + (line.skip(cols as int) + Seq::new(n, |i: int| blank())) =~= line + Seq::new(n, |i: int| blank()));
        n
    }
}

proof fn lemma_trim_padded(line: Seq<CellView>, cols: nat)
    requires
        cols > 0,
    ensures
        trim_spaces(padded_line(line, cols)) == trim_spaces(line),
{
    let n = lemma_padded_is_blanks(line, cols);
    lemma_trim_blanks(line, n);
}

proof fn lemma_drop_empty_tail(x: Seq<Seq<CellView>>, n: nat)
    ensures
        drop_empty_tail(x + Seq::new(n, |i: int| Seq::<CellView>::empty())) == drop_empty_tail(x),
    decreases n,
{
    let e = Seq::new(n, |i: int| Seq::<CellView>::empty());
    if n == 0 {
        assert(x + e =~= x);
    } else {
        let e1 = Seq::new((n - 1) as nat, |i: int| Seq::<CellView>::empty());
        assert((x + e).drop_last() =~= x + e1);
        lemma_drop_empty_tail(x, (n - 1) as nat);
    }
}

proof fn lemma_gather_blank_rows(e: Seq<Entry>, c: nat, n: nat)
    ensures
        gather_lines(e + Seq::new(n, |i: int| (blank_row(c), false)))
            == gather_lines(e) + Seq::new(n, |i: int| blank_row(c)),
    decreases n,
{
    let b = Seq::new(n, |i: int| (blank_row(c), false));
    if n == 0 {
        assert(e + b =~= e);
        assert(gather_lines(e) + Seq::new(n, |i: int| blank_row(c)) =~= gather_lines(e));
    } else {
        let b1 = Seq::new((n - 1) as nat, |i: int| (blank_row(c), false));
        assert((e + b).drop_last() =~= e + b1);
        assert((e + b).last() == (blank_row(c), false));
        lemma_gather_blank_rows(e, c, (n - 1) as nat);
        assert((gather_lines(e) + Seq::new((n - 1) as nat, |i: int| blank_row(c))).push(blank_row(c))
            =~= gather_lines(e) + Seq::new(n, |i: int| blank_row(c)));
    }
}

proof fn lemma_pushed_short(s: Seq<Entry>, limit: nat)
    requires
        s.len() <= limit,
    ensures
        pushed_limited(s, limit) == s,
    decreases s.len(),
{
    if s.len() > 0 {
        lemma_pushed_short(s.drop_last(), limit);
        assert(s.drop_last().push(s.last()) =~= s);
    }
}

/// Resizing keeps the text: read as logical lines without trailing spaces, and without
/// empty lines at the end, the scrollback and screen hold the same text after a resize as
/// before, as long as the resize moves no more rows into the scrollback than it keeps.
pub proof fn law_resize_keeps_text(g: GridModel, new_cols: nat, new_rows: nat)
    requires
        resize_overflow(g, new_cols, new_rows) <= g.scrollback_limit,
    ensures
        grid_text(g.resize(new_cols, new_rows)) == grid_text(g),
{
    let c = clamp_dim(new_cols);
    let r = clamp_dim(new_rows);
    if !(c == g.cols && r == g.rows) {
        let lines = gather_lines(g.scrollback + screen_entries(g));
        let rows = reflow(lines, c);
        let bl = (blank_row(c), false);
        let v = rows.push(bl);
        let k: nat = if v.len() > r { (v.len() - r) as nat } else { 0 };
        let m = (r - (v.len() - k)) as nat;
        let shown = v.skip(k as int) + Seq::new(m, |i: int| (blank_row(c), false));
        let h = g.resize(new_cols, new_rows);
        assert(k <= rows.len());
        lemma_pushed_short(rows.take(k as int), g.scrollback_limit);
        assert(h.scrollback == rows.take(k as int));
        assert(shown.len() == r);
        assert(screen_entries(h) =~= shown);
        let all = rows + Seq::new(m + 1, |i: int| (blank_row(c), false));
        assert(h.scrollback + screen_entries(h) =~= all);
        lemma_gather_blank_rows(rows, c, m + 1);
        law_reflow_keeps_lines(lines, c);
        let pl = lines.map_values(|l: Seq<CellView>| padded_line(l, c));
        let g2 = gather_lines(all);
        assert(g2 == pl + Seq::new(m + 1, |i: int| blank_row(c)));
        let t = lines.map_values(|l: Seq<CellView>| trim_spaces(l));
        assert forall|i: int| 0 <= i < lines.len() implies #[trigger] trim_spaces(pl[i]) == t[i] by {
            lemma_trim_padded(lines[i], c);
        }
        assert(trim_spaces(blank_row(c)) == Seq::<CellView>::empty()) by {
            lemma_trim_blanks(Seq::empty(), c);
            assert(Seq::<CellView>::empty() + Seq::new(c, |i: int| blank()) =~= blank_row(c));
        }
        assert(g2.map_values(|l: Seq<CellView>| trim_spaces(l))
            =~= t + Seq::new(m + 1, |i: int| Seq::<CellView>::empty()));
        lemma_drop_empty_tail(t, m + 1);
    }
}

} // verus!
