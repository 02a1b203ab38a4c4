//! Executes the actions of an ANSI/VT escape-sequence parser on a grid.
use vstd::prelude::*;
use crate::ext::{char_column_width, push_char, unicode_width_of};
use crate::grid::{duplicate_link, lemma_newline, lemma_reverse_index, min_nat, sat_sub, lemma_screen_cell, lemma_screen_shape, cells_view, Cell, CellAttrs, CellView, Grid, GridModel};

verus! {

pub const ZERO_WIDTH_JOINER: char = '\u{200D}';

/// Column width used for a printed character: the table width, or one when the
/// character has none.
pub open spec fn print_width(c: char) -> u8 {
    match unicode_width_of(c) {
        Some(w) => w as u8,
        None => 1,
    }
}

/// A cell written at the cursor with the current rendition and hyperlink.
pub open spec fn styled(g: GridModel, text: Seq<char>, width: u8) -> CellView {
    CellView {
        text,
        width,
        fg: g.current_fg,
        bg: g.current_bg,
        attrs: g.current_attrs,
        link: g.current_link,
    }
}

pub open spec fn append_char(g: GridModel, r: nat, c: nat, ch: char) -> GridModel {
    g.set_cell(r as int, c as int, CellView { text: g.screen[r as int][c as int].text.push(ch), ..g.screen[r as int][c as int] })
}

/// Move to the start of the next line and flag that line as a continuation.
pub open spec fn wrap_line(g: GridModel) -> GridModel {
    let t = GridModel { cursor_x: 0, ..g }.newline();
    GridModel { row_continuation: t.row_continuation.update(t.cursor_y as int, true), ..t }
}

/// The cell a zero-width character attaches to: the cell just written (the left half when
/// it is a wide character), or the last cell of the previous row at the start of a line.
pub open spec fn zero_width_base(g: GridModel) -> Option<(nat, nat)> {
    let x = g.cursor_x;
    let y = g.cursor_y;
    if g.wrap_next {
        if g.screen[y as int][x as int].width == 0 && x > 0 {
            Some(((x - 1) as nat, y))
        } else {
            Some((x, y))
        }
    } else if x > 0 {
        let px = (x - 1) as nat;
        if g.screen[y as int][px as int].width == 0 && px > 0 {
            Some(((px - 1) as nat, y))
        } else {
            Some((px, y))
        }
    } else if y > 0 {
        let lx = (g.cols - 1) as nat;
        if g.screen[y - 1][lx as int].width == 0 && lx > 0 {
            Some(((lx - 1) as nat, (y - 1) as nat))
        } else {
            Some((lx, (y - 1) as nat))
        }
    } else {
        None
    }
}

/// The previously written cell on the current line, which a character joins when that
/// cell ends with a zero width joiner.
pub open spec fn joiner_base(g: GridModel) -> Option<(nat, nat)> {
    if g.cursor_x == 0 && !g.wrap_next {
        None
    } else {
        zero_width_base(g)
    }
}

pub open spec fn ends_with_joiner(t: Seq<char>) -> bool {
    t.len() > 0 && t.last() == ZERO_WIDTH_JOINER
}

/// Before a character of width `w` is written: a pending wrap moves to the next line,
/// and a wide character that does not fit leaves a blank cell and wraps.
pub open spec fn prepare_glyph(g: GridModel, w: u8) -> GridModel {
    let g1 = if g.wrap_next { GridModel { wrap_next: false, ..wrap_line(g) } } else { g };
    if w == 2 && g1.cursor_x + 1 >= g1.cols {
        wrap_line(g1.set_cell(g1.cursor_y as int, g1.cursor_x as int, styled(g1, seq![' '], 1)))
    } else {
        g1
    }
}

/// Writing a character of width `w` at the cursor; a wide character also takes the next
/// cell (when on screen) as an empty zero-width cell. The cursor advances, or a wrap
/// becomes pending at the right margin.
pub open spec fn write_glyph(g2: GridModel, c: char, w: u8) -> GridModel {
    let x = g2.cursor_x;
    let y = g2.cursor_y;
    let g3 = g2.set_cell(y as int, x as int, styled(g2, seq![c], w));
    let g4 = if w == 2 && x + 1 < g2.cols {
        g3.set_cell(y as int, x + 1int, styled(g2, Seq::empty(), 0))
    } else {
        g3
    };
    if x + w >= g2.cols {
        GridModel { wrap_next: true, ..g4 }
    } else {
        GridModel { cursor_x: (x + w) as nat, ..g4 }
    }
}

/// A character of width `w` may be written: each line wrap it causes moves down from a
/// row where a line feed is possible (scrolling needs a proper region).
pub open spec fn prepare_ok(g: GridModel, w: u8) -> bool {
    let g1 = if g.wrap_next { GridModel { wrap_next: false, ..wrap_line(g) } } else { g };
    &&& g.wrap_next ==> g.newline_ok()
    &&& (w == 2 && g1.cursor_x + 1 >= g1.cols) ==> g1.newline_ok()
}

/// Printing a character of width `w` >= 1 that does not join the previous cell.
pub open spec fn print_wide_spec(g: GridModel, c: char, w: u8) -> GridModel {
    write_glyph(prepare_glyph(g, w), c, w)
}

/// The effect of printing `c`: zero-width characters and characters following a zero
/// width joiner are appended to the cell they attach to; other characters are written at
/// the cursor (wrapping first when a wrap is pending or a wide character does not fit),
/// a wide character also occupying the next cell with an empty, zero-width cell.
pub open spec fn print_spec(g: GridModel, c: char) -> GridModel {
    let w = print_width(c);
    if w == 0 {
        match zero_width_base(g) {
            Some((bx, by)) => append_char(g, by, bx, c),
            None => g,
        }
    } else {
        match joiner_base(g) {
            Some((bx, by)) if ends_with_joiner(g.screen[by as int][bx as int].text) => append_char(g, by, bx, c),
            _ => print_wide_spec(g, c, w),
        }
    }
}

/// What printing `c` needs: the line wraps it may cause must be possible.
pub open spec fn print_ok(g: GridModel, c: char) -> bool {
    let w = print_width(c);
    w == 0 || (match joiner_base(g) {
        Some((bx, by)) => ends_with_joiner(g.screen[by as int][bx as int].text),
        None => false,
    }) || prepare_ok(g, w)
}

/// Applies printable characters, control codes and escape sequences to a grid.
pub struct AnsiExecutor<'a> {
    pub grid: &'a mut Grid,
    pub bell_pending: bool,
}

impl Grid {
    /// Append a character to the text of the cell at (r, c).
    pub fn append_char_at(&mut self, r: usize, c: usize, ch: char)
        requires
            old(self).wf(),
            r < old(self).rows,
            c < old(self).cols,
        ensures
            final(self).wf(),
            final(self)@ == append_char(old(self)@, r as nat, c as nat, ch),
    {
        let ghost g0 = self@;
        let mut cell = self.take_cell(r, c);
        push_char(&mut cell.c, ch);
        assert(cell@ =~= CellView { text: g0.screen[r as int][c as int].text.push(ch), ..g0.screen[r as int][c as int] });
        self.put_cell(r, c, cell);
        proof {
            let v = CellView { text: g0.screen[r as int][c as int].text.push(ch), ..g0.screen[r as int][c as int] };
            assert(self@.screen[r as int] =~= g0.screen[r as int].update(c as int, v));
            assert(self@.screen =~= append_char(g0, r as nat, c as nat, ch).screen);
            assert forall|q: int| 0 <= q < self.rows implies #[trigger] self@.screen[q].len() == self.cols by {}
        }
        assert(self@ =~= append_char(g0, r as nat, c as nat, ch));
    }

    /// A cell with the current rendition and hyperlink.
    pub fn styled_cell(&self, text: String, width: u8) -> (cell: Cell)
        ensures
            cell@ == styled(self@, text@, width),
    {
        Cell {
            c: text,
            width,
            fg: self.current_fg,
            bg: self.current_bg,
            attrs: self.current_attrs,
            uri: duplicate_link(&self.current_uri),
        }
    }

    /// Width of the cell at (r, c).
    pub fn width_at(&self, r: usize, c: usize) -> (w: u8)
        requires
            self.wf(),
            r < self.rows,
            c < self.cols,
        ensures
            w == self@.screen[r as int][c as int].width,
    {
        let i = self.index_of(r, c);
        proof {
            lemma_screen_cell(cells_view(self.cells@), self.cols as nat, self.rows as nat, r as int, c as int);
        }
        self.cells[i].width
    }

    /// Whether the text of the cell at (r, c) ends with a zero width joiner.
    pub fn ends_with_joiner_at(&self, r: usize, c: usize) -> (b: bool)
        requires
            self.wf(),
            r < self.rows,
            c < self.cols,
        ensures
            b == ends_with_joiner(self@.screen[r as int][c as int].text),
    {
        let i = self.index_of(r, c);
        proof {
            lemma_screen_cell(cells_view(self.cells@), self.cols as nat, self.rows as nat, r as int, c as int);
        }
        let s = self.cells[i].c.as_str();
        let n = s.unicode_len();
        if n == 0 {
            false
        } else {
            s.get_char(n - 1) == ZERO_WIDTH_JOINER
        }
    }

    pub fn wrap_line(&mut self)
        requires
            old(self).wf(),
            old(self)@.newline_ok(),
        ensures
            final(self).wf(),
            final(self)@ == wrap_line(old(self)@),
            final(self)@.scroll_top == old(self)@.scroll_top,
            final(self)@.scroll_bottom == old(self)@.scroll_bottom,
    {
        let ghost g0 = self@;
        self.cursor_x = 0;
        assert(self@ =~= GridModel { cursor_x: 0, ..g0 });
        proof {
            lemma_newline(GridModel { cursor_x: 0, ..g0 });
        }
        self.newline();
        let y = self.cursor_y;
        self.row_continuation.set(y, true);
        assert(self@ =~= wrap_line(g0));
    }
}


pub fn string_of_char(c: char) -> (s: String)
    ensures
        s@ == seq![c],
{
    let mut s = String::new();
    push_char(&mut s, c);
    assert(s@ =~= seq![c]);
    s
}

impl Grid {
    /// The cell a zero-width character attaches to ([`zero_width_base`]).
    pub fn zero_width_target(&self) -> (t: Option<(usize, usize)>)
        requires
            self.wf(),
        ensures
            match t {
                Some((bx, by)) => zero_width_base(self@) == Some((bx as nat, by as nat)) && bx < self.cols && by < self.rows,
                None => zero_width_base(self@) is None,
            },
    {
        let x = self.cursor_x;
        let y = self.cursor_y;
        if self.wrap_next {
            if self.width_at(y, x) == 0 && x > 0 {
                Some((x - 1, y))
            } else {
                Some((x, y))
            }
        } else if x > 0 {
            let px = x - 1;
            if self.width_at(y, px) == 0 && px > 0 {
                Some((px - 1, y))
            } else {
                Some((px, y))
            }
        } else if y > 0 {
            let lx = self.cols - 1;
            if self.width_at(y - 1, lx) == 0 && lx > 0 {
                Some((lx - 1, y - 1))
            } else {
                Some((lx, y - 1))
            }
        } else {
            None
        }
    }

    /// The cell a character following a zero width joiner joins ([`joiner_base`]).
    pub fn joiner_target(&self) -> (t: Option<(usize, usize)>)
        requires
            self.wf(),
        ensures
            match t {
                Some((bx, by)) => joiner_base(self@) == Some((bx as nat, by as nat)) && bx < self.cols && by < self.rows,
                None => joiner_base(self@) is None,
            },
    {
        if self.cursor_x == 0 && !self.wrap_next {
            None
        } else {
            self.zero_width_target()
        }
    }

    pub fn prepare_glyph(&mut self, w: u8)
        requires
            old(self).wf(),
            prepare_ok(old(self)@, w),
        ensures
            final(self).wf(),
            final(self)@ == prepare_glyph(old(self)@, w),
            final(self)@.scroll_top == old(self)@.scroll_top,
            final(self)@.scroll_bottom == old(self)@.scroll_bottom,
    {
        let ghost g0 = self@;
        if self.wrap_next {
            self.wrap_line();
            self.wrap_next = false;
        }
        let ghost g1 = self@;
        assert(g1 == (if g0.wrap_next { GridModel { wrap_next: false, ..wrap_line(g0) } } else { g0 }));
        if w == 2 && self.cursor_x + 1 >= self.cols {
            let blank = String::from_str(" ");
            proof {
                reveal_strlit(" ");
                assert(blank@ =~= seq![' ']);
            }
            let cell = self.styled_cell(blank, 1);
            let cx = self.cursor_x;
            let cy = self.cursor_y;
            self.put_cell(cy, cx, cell);
            proof {
                assert forall|q: int| 0 <= q < self.rows implies #[trigger] self@.screen[q].len() == self.cols by {}
            }
            self.wrap_line();
        }
    }

    pub fn write_glyph(&mut self, c: char, w: u8)
        requires
            old(self).wf(),
            1 <= w <= 3,
        ensures
            final(self).wf(),
            final(self)@ == write_glyph(old(self)@, c, w),
    {
        let ghost g2 = self@;
        let x = self.cursor_x;
        let y = self.cursor_y;
        let text = string_of_char(c);
        let cell = self.styled_cell(text, w);
        self.put_cell(y, x, cell);
        proof {
            assert forall|q: int| 0 <= q < self.rows implies #[trigger] self@.screen[q].len() == self.cols by {}
        }
        if w == 2 && x + 1 < self.cols {
            let empty = String::new();
            assert(empty@ =~= Seq::<char>::empty());
            let tail = Cell {
                c: empty,
                width: 0,
                fg: self.current_fg,
                bg: self.current_bg,
                attrs: self.current_attrs,
                uri: duplicate_link(&self.current_uri),
            };
            assert(tail@ == styled(g2, Seq::empty(), 0));
            self.put_cell(y, x + 1, tail);
            proof {
                assert forall|q: int| 0 <= q < self.rows implies #[trigger] self@.screen[q].len() == self.cols by {}
            }
        }
        if w as usize >= self.cols - x {
            self.wrap_next = true;
        } else {
            self.cursor_x = x + w as usize;
        }
        assert(self@ =~= write_glyph(g2, c, w));
    }

    /// Write a character of width `w` at the cursor ([`print_wide_spec`]).
    pub fn print_wide(&mut self, c: char, w: u8)
        requires
            old(self).wf(),
            prepare_ok(old(self)@, w),
            1 <= w <= 3,
        ensures
            final(self).wf(),
            final(self)@ == print_wide_spec(old(self)@, c, w),
            final(self)@.scroll_top == old(self)@.scroll_top,
            final(self)@.scroll_bottom == old(self)@.scroll_bottom,
    {
        self.prepare_glyph(w);
        self.write_glyph(c, w);
    }
}

impl<'a> AnsiExecutor<'a> {
    /// Print one character (see [`print_spec`]).
    pub fn print(&mut self, c: char)
        requires
            old(self).grid.wf(),
            print_ok(old(self).grid@, c),
        ensures
            final(self).grid.wf(),
            final(self).grid@ == print_spec(old(self).grid@, c),
            0x20 <= (c as u32) < 0x7F ==> print_width(c) == 1,
            final(self).grid@.scroll_top == old(self).grid@.scroll_top,
            final(self).grid@.scroll_bottom == old(self).grid@.scroll_bottom,
            final(self).bell_pending == old(self).bell_pending,
    {
        let char_width: u8 = match char_column_width(c) {
            Some(w) => w as u8,
            None => 1,
        };
        assert(char_width == print_width(c));
        if char_width == 0 {
            if let Some((bx, by)) = self.grid.zero_width_target() {
                self.grid.append_char_at(by, bx, c);
            }
            return;
        }
        if let Some((bx, by)) = self.grid.joiner_target() {
            if self.grid.ends_with_joiner_at(by, bx) {
                self.grid.append_char_at(by, bx, c);
                return;
            }
        }
        self.grid.print_wide(c, char_width);
    }
}


/// The next tab stop after column `x` (every eighth column), kept on the screen.
pub open spec fn tab_stop(x: nat, cols: nat) -> nat {
    min_nat(((x / 8) + 1) * 8, sat_sub(cols, 1))
}

/// The effect of a C0 control code on the grid and the pending bell.
pub open spec fn execute_spec(g: GridModel, byte: u8, bell: bool) -> (GridModel, bool) {
    if 0x0A <= byte <= 0x0C {
        (GridModel { cursor_x: 0, ..g }.newline(), bell)
    } else if byte == 0x0D {
        (GridModel { cursor_x: 0, wrap_next: false, ..g }, bell)
    } else if (byte == 0x08 || byte == 0x7F) && g.cursor_x > 0 {
        (GridModel { cursor_x: (g.cursor_x - 1) as nat, ..g }, bell)
    } else if byte == 0x09 {
        (GridModel { cursor_x: tab_stop(g.cursor_x, g.cols), ..g }, bell)
    } else if byte == 0x07 {
        (g, true)
    } else {
        (g, bell)
    }
}

/// What a control code needs of the grid: a line feed may scroll only a proper region.
pub open spec fn execute_ok(g: GridModel, byte: u8) -> bool {
    0x0A <= byte <= 0x0C ==> g.newline_ok()
}

/// The effect of an escape sequence final byte: save (7) and restore (8) the cursor,
/// reverse index (M), index (D) and next line (E).
pub open spec fn esc_spec(g: GridModel, byte: u8) -> GridModel {
    if byte == 0x37 {
        GridModel { saved_cursor: Some((g.cursor_x, g.cursor_y)), ..g }
    } else if byte == 0x38 {
        match g.saved_cursor {
            Some((x, y)) => GridModel { cursor_x: x, cursor_y: y, wrap_next: false, ..g },
            None => g,
        }
    } else if byte == 0x4D {
        g.reverse_index()
    } else if byte == 0x44 {
        g.newline()
    } else if byte == 0x45 {
        GridModel { cursor_x: 0, ..g }.newline()
    } else {
        g
    }
}

pub open spec fn esc_ok(g: GridModel, byte: u8) -> bool {
    &&& byte == 0x4D ==> g.reverse_index_ok()
    &&& (byte == 0x44 || byte == 0x45) ==> g.newline_ok()
}

impl GridModel {
    /// What every executor action keeps: a well-formed grid whose saved cursor and saved
    /// primary screen fit its dimensions.
    pub open spec fn executor_ok(self) -> bool {
        self.wf() && self.saved_ok() && self.alt_ok()
    }
}

impl<'a> AnsiExecutor<'a> {
    /// Execute a C0 control code: line feed, carriage return, backspace, tab and bell.
    pub fn execute(&mut self, byte: u8)
        requires
            old(self).grid.wf(),
            old(self).grid@.executor_ok(),
            execute_ok(old(self).grid@, byte),
        ensures
            final(self).grid.wf(),
            final(self).grid@.executor_ok(),
            (final(self).grid@, final(self).bell_pending) == execute_spec(old(self).grid@, byte, old(self).bell_pending),
            final(self).grid@.scroll_top == old(self).grid@.scroll_top,
            final(self).grid@.scroll_bottom == old(self).grid@.scroll_bottom,
    {
        let ghost g0 = self.grid@;
        if 0x0A <= byte && byte <= 0x0C {
            self.grid.cursor_x = 0;
            assert(self.grid@ =~= GridModel { cursor_x: 0, ..g0 });
            proof {
                lemma_newline(GridModel { cursor_x: 0, ..g0 });
            }
            self.grid.newline();
        } else if byte == 0x0D {
            self.grid.cursor_x = 0;
            self.grid.wrap_next = false;
            assert(self.grid@ =~= GridModel { cursor_x: 0, wrap_next: false, ..g0 });
        } else if (byte == 0x08 || byte == 0x7F) && self.grid.cursor_x > 0 {
            self.grid.cursor_x = self.grid.cursor_x - 1;
            assert(self.grid@ =~= GridModel { cursor_x: (g0.cursor_x - 1) as nat, ..g0 });
        } else if byte == 0x09 {
            let x = self.grid.cursor_x;
            let last = self.grid.cols - 1;
            let step = 8 - x % 8;
            let next = if step <= last - x { x + step } else { last };
            proof {
                assert(x + (8 - x % 8) == ((x / 8) + 1) * 8) by (nonlinear_arith);
            }
            self.grid.cursor_x = next;
            assert(self.grid@ =~= GridModel { cursor_x: tab_stop(g0.cursor_x, g0.cols), ..g0 });
        } else if byte == 0x07 {
            self.bell_pending = true;
        }
    }

    /// Execute the final byte of an escape sequence (see [`esc_spec`]).
    pub fn esc_dispatch(&mut self, byte: u8)
        requires
            old(self).grid.wf(),
            old(self).grid@.executor_ok(),
            esc_ok(old(self).grid@, byte),
        ensures
            final(self).grid.wf(),
            final(self).grid@.executor_ok(),
            final(self).grid@ == esc_spec(old(self).grid@, byte),
            final(self).bell_pending == old(self).bell_pending,
            final(self).grid@.scroll_top == old(self).grid@.scroll_top,
            final(self).grid@.scroll_bottom == old(self).grid@.scroll_bottom,
    {
        let ghost g0 = self.grid@;
        if byte == 0x37 {
            self.grid.saved_cursor = Some((self.grid.cursor_x, self.grid.cursor_y));
            assert(self.grid@ =~= esc_spec(g0, byte));
        } else if byte == 0x38 {
            if let Some((x, y)) = self.grid.saved_cursor {
                self.grid.cursor_x = x;
                self.grid.cursor_y = y;
                self.grid.wrap_next = false;
                assert(self.grid@ =~= esc_spec(g0, byte));
            }
        } else if byte == 0x4D {
            proof {
                lemma_reverse_index(g0);
            }
            self.grid.reverse_index();
        } else if byte == 0x44 {
            proof {
                lemma_newline(g0);
            }
            self.grid.newline();
        } else if byte == 0x45 {
            self.grid.cursor_x = 0;
            assert(self.grid@ =~= GridModel { cursor_x: 0, ..g0 });
            proof {
                lemma_newline(GridModel { cursor_x: 0, ..g0 });
            }
            self.grid.newline();
        }
    }
}


impl Grid {
    /// Whether a line feed is possible at the cursor (see [`GridModel::newline_ok`]).
    pub fn newline_allowed(&self) -> (r: bool)
        ensures
            r == self@.newline_ok(),
    {
        self.cursor_y != self.scroll_bottom || self.scroll_top <= self.scroll_bottom
    }

    /// Whether a reverse index is possible at the cursor.
    pub fn reverse_index_allowed(&self) -> (r: bool)
        ensures
            r == self@.reverse_index_ok(),
    {
        self.cursor_y != self.scroll_top || self.scroll_top <= self.scroll_bottom
    }
}

impl Grid {
    /// Whether `c` can be printed (see [`print_ok`]).
    pub fn print_allowed(&self, c: char) -> (r: bool)
        requires
            self.wf(),
        ensures
            r == print_ok(self@, c),
    {
        let ghost g = self@;
        let w: u8 = match char_column_width(c) {
            Some(w) => w as u8,
            None => 1,
        };
        if w == 0 {
            return true;
        }
        if let Some((bx, by)) = self.joiner_target() {
            if self.ends_with_joiner_at(by, bx) {
                return true;
            }
        }
        let region = self.scroll_top <= self.scroll_bottom;
        let y = self.cursor_y;
        let at_bottom = y == self.scroll_bottom;
        if self.wrap_next && at_bottom && !region {
            return false;
        }
        let (x1, y1) = if self.wrap_next {
            proof {
                lemma_newline(GridModel { cursor_x: 0, ..g });
                if at_bottom {
                    crate::grid::lemma_scroll_up_n_wf(GridModel { cursor_x: 0, ..g }, GridModel { cursor_x: 0, ..g }.scroll_count(1));
                }
            }
            let ny = if at_bottom { y } else if y + 1 < self.rows { y + 1 } else { y };
            (0, ny)
        } else {
            (self.cursor_x, y)
        };
        let ghost g1 = if g.wrap_next { GridModel { wrap_next: false, ..wrap_line(g) } } else { g };
        assert(g1.cursor_x == x1 && g1.cursor_y == y1);
        assert(g1.scroll_top == g.scroll_top && g1.scroll_bottom == g.scroll_bottom && g1.cols == g.cols);
        !(w == 2 && x1 + 1 >= self.cols) || y1 != self.scroll_bottom || region
    }
}

/// Saving the cursor (ESC 7) and later restoring it (ESC 8) brings the cursor back to
/// where it was saved, whatever happened in between that kept the saved position.
pub proof fn law_save_restore_cursor(g: GridModel, later: GridModel)
    requires
        later.saved_cursor == esc_spec(g, 0x37).saved_cursor,
    ensures
        esc_spec(later, 0x38).cursor_x == g.cursor_x,
        esc_spec(later, 0x38).cursor_y == g.cursor_y,
        !esc_spec(later, 0x38).wrap_next,
{
}

/// A tab moves right to the next multiple of eight, or to the last column when that is
/// nearer; it never moves left.
pub proof fn law_tab_stop(x: nat, cols: nat)
    requires
        x < cols,
    ensures
        x <= tab_stop(x, cols) < cols,
        tab_stop(x, cols) % 8 == 0 || tab_stop(x, cols) == cols - 1,
        tab_stop(x, cols) == cols - 1 || tab_stop(x, cols) - x <= 8,
{
    assert(((x / 8) + 1) * 8 > x && ((x / 8) + 1) * 8 - x <= 8 && (((x / 8) + 1) * 8) % 8 == 0) by (nonlinear_arith);
}
} // verus!
