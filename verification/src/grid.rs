//! The terminal screen: a grid of cells with scrollback, scroll region,
//! alternate screen and reflowing resize.
use vstd::prelude::*;
use std::collections::VecDeque;

verus! {

/// Number of rows kept in the scrollback unless configured otherwise.
pub const DEFAULT_SCROLLBACK_LIMIT: usize = 10_000;

/// A 24-bit colour.
#[derive(Clone, Copy, Debug, PartialEq, Eq, Structural)]
pub struct Rgb {
    pub r: u8,
    pub g: u8,
    pub b: u8,
}

/// Cell rendition flags (bold, dim, italic, underline, blink, reverse, strikethrough).
#[derive(Clone, Copy, Debug, PartialEq, Eq, Structural)]
pub struct CellAttrs {
    pub bits: u8,
}

impl CellAttrs {
    pub const BOLD: u8 = 0b0000_0001;
    pub const DIM: u8 = 0b0000_0010;
    pub const ITALIC: u8 = 0b0000_0100;
    pub const UNDERLINE: u8 = 0b0000_1000;
    pub const BLINK: u8 = 0b0001_0000;
    pub const REVERSE: u8 = 0b0010_0000;
    pub const STRIKETHROUGH: u8 = 0b0100_0000;

    pub fn empty() -> (r: CellAttrs)
        ensures r.bits == 0,
    {
        CellAttrs { bits: 0 }
    }

    pub fn insert(&mut self, flag: u8)
        ensures final(self).bits == old(self).bits | flag,
    {
        self.bits = self.bits | flag;
    }

    pub fn remove(&mut self, flag: u8)
        ensures final(self).bits == old(self).bits & !flag,
    {
        self.bits = self.bits & !flag;
    }

    pub fn contains(&self, flag: u8) -> (r: bool)
        ensures r == (self.bits & flag == flag),
    {
        self.bits & flag == flag
    }
}

/// An OSC 8 hyperlink. Cells written while one hyperlink is active share its `id`,
/// so adjacent links with the same target stay distinguishable.
pub struct Hyperlink {
    pub id: u64,
    pub uri: String,
}

#[verifier::ext_equal]
pub ghost struct LinkView {
    pub id: u64,
    pub uri: Seq<char>,
}

impl View for Hyperlink {
    type V = LinkView;

    open spec fn view(&self) -> LinkView {
        LinkView { id: self.id, uri: self.uri@ }
    }
}

impl Hyperlink {
    pub fn duplicate(&self) -> (r: Hyperlink)
        ensures r@ == self@,
    {
        Hyperlink { id: self.id, uri: self.uri.clone() }
    }
}

pub open spec fn link_opt_view(l: Option<Hyperlink>) -> Option<LinkView> {
    match l {
        Some(h) => Some(h@),
        None => None,
    }
}

pub fn duplicate_link(l: &Option<Hyperlink>) -> (r: Option<Hyperlink>)
    ensures link_opt_view(r) == link_opt_view(*l),
{
    match l {
        Some(h) => Some(h.duplicate()),
        None => None,
    }
}

/// One character cell: the grapheme text it shows (a base character plus any
/// combining or joined characters), its column width (0 for the right half of a
/// wide character), colours, rendition and hyperlink.
pub struct Cell {
    pub c: String,
    pub width: u8,
    pub fg: Option<Rgb>,
    pub bg: Option<Rgb>,
    pub attrs: CellAttrs,
    pub uri: Option<Hyperlink>,
}

#[verifier::ext_equal]
pub ghost struct CellView {
    pub text: Seq<char>,
    pub width: u8,
    pub fg: Option<Rgb>,
    pub bg: Option<Rgb>,
    pub attrs: u8,
    pub link: Option<LinkView>,
}

impl View for Cell {
    type V = CellView;

    open spec fn view(&self) -> CellView {
        CellView {
            text: self.c@,
            width: self.width,
            fg: self.fg,
            bg: self.bg,
            attrs: self.attrs.bits,
            link: link_opt_view(self.uri),
        }
    }
}

/// The empty cell: a single space, width one, no colours, attributes or link.
pub open spec fn blank() -> CellView {
    CellView { text: seq![' '], width: 1, fg: None, bg: None, attrs: 0, link: None }
}

pub open spec fn blank_row(cols: nat) -> Seq<CellView> {
    Seq::new(cols, |i: int| blank())
}

impl Cell {
    pub fn blank() -> (r: Cell)
        ensures r@ == blank(),
    {
        let s = String::from_str(" ");
        proof {
            reveal_strlit(" ");
            assert(s@ =~= seq![' ']);
        }
        Cell { c: s, width: 1, fg: None, bg: None, attrs: CellAttrs { bits: 0 }, uri: None }
    }

    pub fn duplicate(&self) -> (r: Cell)
        ensures r@ == self@,
    {
        Cell {
            c: self.c.clone(),
            width: self.width,
            fg: self.fg,
            bg: self.bg,
            attrs: self.attrs,
            uri: duplicate_link(&self.uri),
        }
    }
}

pub open spec fn cells_view(v: Seq<Cell>) -> Seq<CellView> {
    v.map_values(|c: Cell| c@)
}


/// Mouse reporting mode requested by the application (DEC private modes 1000, 1002, 1003).
#[derive(Clone, Copy, Debug, PartialEq, Eq, Structural)]
pub enum MouseMode {
    Off,
    Normal,
    Button,
    AnyEvent,
}

/// Requests from the shell that the user interface has to act on.
#[derive(Debug, PartialEq)]
pub enum ControlCommand {
    OpenAskAi { preset: Option<String> },
    OpenExplainAi { preset: Option<String> },
    CommandFailure(i32),
    CommandComplete(i32),
    RequestClipboard,
    SetClipboard(String),
}

pub ghost enum ControlView {
    OpenAskAi { preset: Option<Seq<char>> },
    OpenExplainAi { preset: Option<Seq<char>> },
    CommandFailure(i32),
    CommandComplete(i32),
    RequestClipboard,
    SetClipboard(Seq<char>),
}

pub open spec fn string_opt_view(s: Option<String>) -> Option<Seq<char>> {
    match s {
        Some(t) => Some(t@),
        None => None,
    }
}

impl View for ControlCommand {
    type V = ControlView;

    open spec fn view(&self) -> ControlView {
        match self {
            ControlCommand::OpenAskAi { preset } => ControlView::OpenAskAi { preset: string_opt_view(*preset) },
            ControlCommand::OpenExplainAi { preset } => ControlView::OpenExplainAi { preset: string_opt_view(*preset) },
            ControlCommand::CommandFailure(c) => ControlView::CommandFailure(*c),
            ControlCommand::CommandComplete(c) => ControlView::CommandComplete(*c),
            ControlCommand::RequestClipboard => ControlView::RequestClipboard,
            ControlCommand::SetClipboard(t) => ControlView::SetClipboard(t@),
        }
    }
}

/// An image shown by the kitty graphics protocol, anchored at a cell.
pub struct PlacedImage {
    pub id: u32,
    pub row: usize,
    pub col: usize,
    pub pixel_width: u32,
    pub pixel_height: u32,
    pub rgba: Vec<u8>,
}

pub ghost struct ImageView {
    pub id: u32,
    pub row: nat,
    pub col: nat,
    pub pixel_width: u32,
    pub pixel_height: u32,
    pub rgba: Seq<u8>,
}

impl View for PlacedImage {
    type V = ImageView;

    open spec fn view(&self) -> ImageView {
        ImageView {
            id: self.id,
            row: self.row as nat,
            col: self.col as nat,
            pixel_width: self.pixel_width,
            pixel_height: self.pixel_height,
            rgba: self.rgba@,
        }
    }
}

pub type ScrollRow = (Vec<Cell>, bool);

pub open spec fn sb_row_view(e: ScrollRow) -> (Seq<CellView>, bool) {
    (cells_view(e.0@), e.1)
}

pub open spec fn sb_view(s: Seq<ScrollRow>) -> Seq<(Seq<CellView>, bool)> {
    s.map_values(|e: ScrollRow| sb_row_view(e))
}

/// The rows of a flat, row-major cell vector.
pub open spec fn screen_of(cells: Seq<CellView>, cols: nat, rows: nat) -> Seq<Seq<CellView>> {
    Seq::new(rows, |r: int| cells.subrange(r * cols, r * cols + cols))
}

pub open spec fn opt_pair_view(p: Option<(usize, usize)>) -> Option<(nat, nat)> {
    match p {
        Some((x, y)) => Some((x as nat, y as nat)),
        None => None,
    }
}

/// Abstract state of a grid: the screen as rows of cells, everything else as plain values.
#[verifier::ext_equal]
pub ghost struct GridModel {
    pub screen: Seq<Seq<CellView>>,
    pub cursor_x: nat,
    pub cursor_y: nat,
    pub current_fg: Option<Rgb>,
    pub current_bg: Option<Rgb>,
    pub current_link: Option<LinkView>,
    pub current_attrs: u8,
    pub mouse_mode: MouseMode,
    pub mouse_sgr: bool,
    pub bracketed_paste: bool,
    pub cursor_visible: bool,
    pub cols: nat,
    pub rows: nat,
    pub scroll_top: nat,
    pub scroll_bottom: nat,
    pub pwd: Seq<char>,
    pub output_queue: Seq<Seq<u8>>,
    pub control_queue: Seq<ControlView>,
    pub saved_cursor: Option<(nat, nat)>,
    pub wrap_next: bool,
    pub row_continuation: Seq<bool>,
    pub scrollback: Seq<(Seq<CellView>, bool)>,
    pub scrollback_limit: nat,
    pub alt_cells: Option<Seq<CellView>>,
    pub alt_cursor: Option<(nat, nat)>,
    pub alt_scrollback: Option<Seq<(Seq<CellView>, bool)>>,
    pub alt_row_continuation: Option<Seq<bool>>,
    pub images: Seq<ImageView>,
    pub next_link_id: u64,
}

/// The terminal screen state.
pub struct Grid {
    pub cells: Vec<Cell>,
    pub cursor_x: usize,
    pub cursor_y: usize,
    pub current_fg: Option<Rgb>,
    pub current_bg: Option<Rgb>,
    pub current_uri: Option<Hyperlink>,
    pub current_attrs: CellAttrs,
    pub mouse_mode: MouseMode,
    pub mouse_sgr: bool,
    pub bracketed_paste: bool,
    pub cursor_visible: bool,
    pub cols: usize,
    pub rows: usize,
    pub scroll_top: usize,
    pub scroll_bottom: usize,
    pub pwd: String,
    pub output_queue: Vec<Vec<u8>>,
    pub control_queue: Vec<ControlCommand>,
    pub saved_cursor: Option<(usize, usize)>,
    pub wrap_next: bool,
    pub row_continuation: Vec<bool>,
    pub scrollback: VecDeque<ScrollRow>,
    pub scrollback_limit: usize,
    pub alt_cells: Option<Vec<Cell>>,
    pub alt_cursor: Option<(usize, usize)>,
    pub alt_scrollback: Option<VecDeque<ScrollRow>>,
    pub alt_row_continuation: Option<Vec<bool>>,
    pub images: Vec<PlacedImage>,
    pub next_link_id: u64,
}

impl View for Grid {
    type V = GridModel;

    open spec fn view(&self) -> GridModel {
        GridModel {
            screen: screen_of(cells_view(self.cells@), self.cols as nat, self.rows as nat),
            cursor_x: self.cursor_x as nat,
            cursor_y: self.cursor_y as nat,
            current_fg: self.current_fg,
            current_bg: self.current_bg,
            current_link: link_opt_view(self.current_uri),
            current_attrs: self.current_attrs.bits,
            mouse_mode: self.mouse_mode,
            mouse_sgr: self.mouse_sgr,
            bracketed_paste: self.bracketed_paste,
            cursor_visible: self.cursor_visible,
            cols: self.cols as nat,
            rows: self.rows as nat,
            scroll_top: self.scroll_top as nat,
            scroll_bottom: self.scroll_bottom as nat,
            pwd: self.pwd@,
            output_queue: self.output_queue@.map_values(|b: Vec<u8>| b@),
            control_queue: self.control_queue@.map_values(|c: ControlCommand| c@),
            saved_cursor: opt_pair_view(self.saved_cursor),
            wrap_next: self.wrap_next,
            row_continuation: self.row_continuation@,
            scrollback: sb_view(self.scrollback@),
            scrollback_limit: self.scrollback_limit as nat,
            alt_cells: match self.alt_cells {
                Some(v) => Some(cells_view(v@)),
                None => None,
            },
            alt_cursor: opt_pair_view(self.alt_cursor),
            alt_scrollback: match self.alt_scrollback {
                Some(s) => Some(sb_view(s@)),
                None => None,
            },
            alt_row_continuation: match self.alt_row_continuation {
                Some(v) => Some(v@),
                None => None,
            },
            images: self.images@.map_values(|i: PlacedImage| i@),
            next_link_id: self.next_link_id,
        }
    }
}

impl GridModel {
    /// The structural invariant every operation relies on.
    pub open spec fn wf(self) -> bool {
        &&& self.cols >= 1
        &&& self.rows >= 1
        &&& self.screen.len() == self.rows
        &&& forall|r: int| 0 <= r < self.rows ==> #[trigger] self.screen[r].len() == self.cols
        &&& self.row_continuation.len() == self.rows
        &&& self.cursor_x < self.cols
        &&& self.cursor_y < self.rows
        &&& self.scroll_top < self.rows
        &&& self.scroll_bottom < self.rows
    }

    /// The scroll region is non-empty (top above or at bottom).
    pub open spec fn region_ok(self) -> bool {
        self.scroll_top <= self.scroll_bottom
    }

    /// A saved cursor, if any, lies on the screen.
    pub open spec fn saved_ok(self) -> bool {
        self.saved_cursor matches Some((x, y)) ==> x < self.cols && y < self.rows
    }

    /// The saved primary screen, if any, has the current dimensions.
    pub open spec fn alt_ok(self) -> bool {
        match self.alt_cells {
            Some(s) => {
                &&& s.len() == self.cols * self.rows
                &&& self.alt_cursor matches Some((x, y)) && x < self.cols && y < self.rows
                &&& self.alt_scrollback is Some
                &&& self.alt_row_continuation matches Some(rc) && rc.len() == self.rows
            },
            None => self.alt_cursor is None && self.alt_scrollback is None
                && self.alt_row_continuation is None,
        }
    }
}

impl Grid {
    /// Cells are stored row-major with exactly `cols * rows` entries.
    pub open spec fn layout_ok(&self) -> bool {
        self.cells@.len() == self.cols * self.rows
    }

    pub open spec fn wf(&self) -> bool {
        self.layout_ok() && self@.wf()
    }
}


pub proof fn lemma_cell_index(r: int, c: int, cols: int, rows: int)
    requires
        0 <= r < rows,
        0 <= c < cols,
    ensures
        0 <= r * cols,
        r * cols + c < cols * rows,
        r * cols + cols <= cols * rows,
{
    assert(r * cols + cols <= cols * rows) by (nonlinear_arith)
        requires 0 <= r < rows, 0 <= c < cols;
    assert(0 <= r * cols) by (nonlinear_arith)
        requires 0 <= r, 0 <= cols;
}

pub proof fn lemma_rows_disjoint(r1: int, r2: int, cols: int)
    requires
        0 <= r1 < r2,
        cols >= 0,
    ensures
        r1 * cols + cols <= r2 * cols,
{
    assert(r1 * cols + cols <= r2 * cols) by (nonlinear_arith)
        requires 0 <= r1 < r2, cols >= 0;
}

pub proof fn lemma_screen_update(cells: Seq<CellView>, cols: nat, rows: nat, r: int, c: int, v: CellView)
    requires
        cells.len() == cols * rows,
        0 <= r < rows,
        0 <= c < cols,
    ensures
        screen_of(cells.update(r * cols + c, v), cols, rows)
            =~= screen_of(cells, cols, rows).update(r, screen_of(cells, cols, rows)[r].update(c, v)),
{
    lemma_cell_index(r, c, cols as int, rows as int);
    let a = screen_of(cells.update(r * cols + c, v), cols, rows);
    let b = screen_of(cells, cols, rows).update(r, screen_of(cells, cols, rows)[r].update(c, v));
    assert forall|q: int| 0 <= q < rows implies #[trigger] a[q] =~= b[q] by {
        lemma_cell_index(q, 0, cols as int, rows as int);
        if q < r {
            lemma_rows_disjoint(q, r, cols as int);
        } else if q > r {
            lemma_rows_disjoint(r, q, cols as int);
        }
    }
}

pub proof fn lemma_screen_cell(cells: Seq<CellView>, cols: nat, rows: nat, r: int, c: int)
    requires
        cells.len() == cols * rows,
        0 <= r < rows,
        0 <= c < cols,
    ensures
        screen_of(cells, cols, rows)[r][c] == cells[r * cols + c],
        screen_of(cells, cols, rows)[r].len() == cols,
{
    lemma_cell_index(r, c, cols as int, rows as int);
}

pub proof fn lemma_screen_shape(cells: Seq<CellView>, cols: nat, rows: nat)
    requires
        cells.len() == cols * rows,
    ensures
        screen_of(cells, cols, rows).len() == rows,
        forall|r: int| 0 <= r < rows ==> #[trigger] screen_of(cells, cols, rows)[r].len() == cols,
{
    assert forall|r: int| 0 <= r < rows implies #[trigger] screen_of(cells, cols, rows)[r].len() == cols by {
        if cols > 0 {
            lemma_cell_index(r, 0, cols as int, rows as int);
        } else {
            assert(r * cols == 0) by (nonlinear_arith) requires cols == 0;
        }
    }
}

pub proof fn lemma_cells_view_update(v: Seq<Cell>, i: int, x: Cell)
    requires
        0 <= i < v.len(),
    ensures
        cells_view(v.update(i, x)) =~= cells_view(v).update(i, x@),
{
}

/// Replace the number of the last rows kept in the scrollback: push and drop the oldest
/// entry when the limit is exceeded.
pub open spec fn push_limited<T>(sb: Seq<T>, e: T, limit: nat) -> Seq<T> {
    let s = sb.push(e);
    if s.len() > limit {
        s.drop_first()
    } else {
        s
    }
}

pub open spec fn sat_sub(a: nat, b: nat) -> nat {
    if a >= b {
        (a - b) as nat
    } else {
        0
    }
}

pub open spec fn min_nat(a: nat, b: nat) -> nat {
    if a <= b {
        a
    } else {
        b
    }
}

impl GridModel {
    pub open spec fn set_cell(self, r: int, c: int, v: CellView) -> GridModel {
        GridModel { screen: self.screen.update(r, self.screen[r].update(c, v)), ..self }
    }

    pub open spec fn swap_rows(self, r1: int, r2: int) -> GridModel {
        GridModel {
            screen: self.screen.update(r1, self.screen[r2]).update(r2, self.screen[r1]),
            ..self
        }
    }

    /// One line scrolled up inside the scroll region; with a full-screen region the
    /// top line enters the scrollback.
    pub open spec fn scroll_up_once(self) -> GridModel {
        let top = self.scroll_top as int;
        let bottom = self.scroll_bottom as int;
        let rows = self.rows as int;
        let rc = self.row_continuation;
        GridModel {
            screen: self.screen.subrange(0, top) + self.screen.subrange(top + 1, bottom + 1)
                + seq![blank_row(self.cols)] + self.screen.subrange(bottom + 1, rows),
            row_continuation: rc.subrange(0, top) + rc.subrange(top + 1, bottom + 1) + seq![false]
                + rc.subrange(bottom + 1, rows),
            scrollback: if top == 0 && bottom == rows - 1 {
                push_limited(self.scrollback, (self.screen[top], rc[top]), self.scrollback_limit)
            } else {
                self.scrollback
            },
            ..self
        }
    }

    pub open spec fn scroll_up_n(self, k: nat) -> GridModel
        decreases k,
    {
        if k == 0 {
            self
        } else {
            self.scroll_up_n((k - 1) as nat).scroll_up_once()
        }
    }

    /// Scrolling up by `n` moves at most the height of the scroll region.
    pub open spec fn scroll_count(self, n: nat) -> nat {
        min_nat(n, sat_sub(self.scroll_bottom, self.scroll_top) + 1)
    }

    pub open spec fn scroll_up(self, n: nat) -> GridModel {
        self.scroll_up_n(self.scroll_count(n))
    }

    /// One line scrolled down inside the scroll region; a blank line appears at its top.
    pub open spec fn scroll_down_once(self) -> GridModel {
        let top = self.scroll_top as int;
        let bottom = self.scroll_bottom as int;
        let rows = self.rows as int;
        let rc = self.row_continuation;
        GridModel {
            screen: self.screen.subrange(0, top) + seq![blank_row(self.cols)]
                + self.screen.subrange(top, bottom) + self.screen.subrange(bottom + 1, rows),
            row_continuation: rc.subrange(0, top) + seq![false] + rc.subrange(top, bottom)
                + rc.subrange(bottom + 1, rows),
            ..self
        }
    }

    pub open spec fn scroll_down_n(self, k: nat) -> GridModel
        decreases k,
    {
        if k == 0 {
            self
        } else {
            self.scroll_down_n((k - 1) as nat).scroll_down_once()
        }
    }

    pub open spec fn scroll_down(self, n: nat) -> GridModel {
        self.scroll_down_n(self.scroll_count(n))
    }
}

pub proof fn lemma_scroll_up_once_wf(g: GridModel)
    requires
        g.wf(),
        g.region_ok(),
    ensures
        g.scroll_up_once().wf(),
        g.scroll_up_once().region_ok(),
        g.scroll_up_once().cursor_x == g.cursor_x,
        g.scroll_up_once().cursor_y == g.cursor_y,
{
    let h = g.scroll_up_once();
    assert forall|r: int| 0 <= r < h.rows implies #[trigger] h.screen[r].len() == h.cols by {
        let top = g.scroll_top as int;
        let bottom = g.scroll_bottom as int;
        if r < top {
        } else if r < bottom {
            assert(h.screen[r] == g.screen[r + 1]);
        } else if r == bottom {
        } else {
        }
    }
}

pub proof fn lemma_scroll_up_n_wf(g: GridModel, k: nat)
    requires
        g.wf(),
        g.region_ok(),
    ensures
        g.scroll_up_n(k).wf(),
        g.scroll_up_n(k).region_ok(),
        g.scroll_up_n(k).cursor_x == g.cursor_x,
        g.scroll_up_n(k).cursor_y == g.cursor_y,
        g.scroll_up_n(k).scroll_top == g.scroll_top,
        g.scroll_up_n(k).scroll_bottom == g.scroll_bottom,
    decreases k,
{
    if k > 0 {
        lemma_scroll_up_n_wf(g, (k - 1) as nat);
        lemma_scroll_up_once_wf(g.scroll_up_n((k - 1) as nat));
    }
}

pub proof fn lemma_scroll_down_once_wf(g: GridModel)
    requires
        g.wf(),
        g.region_ok(),
    ensures
        g.scroll_down_once().wf(),
        g.scroll_down_once().region_ok(),
        g.scroll_down_once().cursor_x == g.cursor_x,
        g.scroll_down_once().cursor_y == g.cursor_y,
{
    let h = g.scroll_down_once();
    assert forall|r: int| 0 <= r < h.rows implies #[trigger] h.screen[r].len() == h.cols by {
        let top = g.scroll_top as int;
        let bottom = g.scroll_bottom as int;
        if r < top {
        } else if r == top {
        } else if r <= bottom {
            assert(h.screen[r] == g.screen[r - 1]);
        } else {
        }
    }
}

pub proof fn lemma_scroll_down_n_wf(g: GridModel, k: nat)
    requires
        g.wf(),
        g.region_ok(),
    ensures
        g.scroll_down_n(k).wf(),
        g.scroll_down_n(k).region_ok(),
        g.scroll_down_n(k).cursor_x == g.cursor_x,
        g.scroll_down_n(k).cursor_y == g.cursor_y,
        g.scroll_down_n(k).scroll_top == g.scroll_top,
        g.scroll_down_n(k).scroll_bottom == g.scroll_bottom,
    decreases k,
{
    if k > 0 {
        lemma_scroll_down_n_wf(g, (k - 1) as nat);
        lemma_scroll_down_once_wf(g.scroll_down_n((k - 1) as nat));
    }
}


impl Grid {
    /// Index of the cell at (row, col) in `cells`.
    pub fn index_of(&self, r: usize, c: usize) -> (i: usize)
        requires
            self.layout_ok(),
            r < self.rows,
            c < self.cols,
        ensures
            i == r * self.cols + c,
            i < self.cells@.len(),
    {
        let _len = self.cells.len();
        proof {
            lemma_cell_index(r as int, c as int, self.cols as int, self.rows as int);
        }
        r * self.cols + c
    }

    /// Write one cell.
    pub fn put_cell(&mut self, r: usize, c: usize, cell: Cell)
        requires
            old(self).layout_ok(),
            r < old(self).rows,
            c < old(self).cols,
        ensures
            final(self).layout_ok(),
            final(self)@ == old(self)@.set_cell(r as int, c as int, cell@),
    {
        let i = self.index_of(r, c);
        proof {
            lemma_cells_view_update(self.cells@, i as int, cell);
            lemma_screen_update(cells_view(self.cells@), self.cols as nat, self.rows as nat, r as int, c as int, cell@);
        }
        self.cells.set(i, cell);
        assert(self@ =~= old(self)@.set_cell(r as int, c as int, cell@));
    }

    /// Move one cell out, leaving a blank cell in its place.
    pub fn take_cell(&mut self, r: usize, c: usize) -> (out: Cell)
        requires
            old(self).layout_ok(),
            r < old(self).rows,
            c < old(self).cols,
        ensures
            final(self).layout_ok(),
            final(self)@ == old(self)@.set_cell(r as int, c as int, blank()),
            out@ == old(self)@.screen[r as int][c as int],
    {
        let i = self.index_of(r, c);
        let mut tmp = Cell::blank();
        proof {
            lemma_screen_cell(cells_view(self.cells@), self.cols as nat, self.rows as nat, r as int, c as int);
            lemma_cells_view_update(self.cells@, i as int, tmp);
            lemma_screen_update(cells_view(self.cells@), self.cols as nat, self.rows as nat, r as int, c as int, tmp@);
        }
        self.cells.set_and_swap(i, &mut tmp);
        assert(self@ =~= old(self)@.set_cell(r as int, c as int, blank()));
        tmp
    }

    /// Exchange two rows of the screen.
    pub fn swap_rows(&mut self, r1: usize, r2: usize)
        requires
            old(self).wf(),
            r1 < old(self).rows,
            r2 < old(self).rows,
            r1 != r2,
        ensures
            final(self).wf(),
            final(self)@ == old(self)@.swap_rows(r1 as int, r2 as int),
    {
        let ghost g0 = self@;
        let cols = self.cols;
        let mut c: usize = 0;
        proof {
            assert(g0.screen[r2 as int].subrange(0, 0) + g0.screen[r1 as int].subrange(0, cols as int) =~= g0.screen[r1 as int]);
            assert(g0.screen[r1 as int].subrange(0, 0) + g0.screen[r2 as int].subrange(0, cols as int) =~= g0.screen[r2 as int]);
            assert(g0.screen.update(r1 as int, g0.screen[r1 as int]).update(r2 as int, g0.screen[r2 as int]) =~= g0.screen);
        }
        while c < cols
            invariant
                self.wf(),
                g0.wf(),
                g0.cols == cols,
                r1 != r2,
                cols == self.cols,
                c <= cols,
                r1 < self.rows,
                r2 < self.rows,
                self@ == (GridModel {
                    screen: g0.screen.update(r1 as int, g0.screen[r2 as int].subrange(0, c as int) + g0.screen[r1 as int].subrange(c as int, cols as int))
                        .update(r2 as int, g0.screen[r1 as int].subrange(0, c as int) + g0.screen[r2 as int].subrange(c as int, cols as int)),
                    ..g0
                }),
            decreases cols - c,
        {
            let ghost before = self@;
            let a = self.take_cell(r1, c);
            let b = self.take_cell(r2, c);
            self.put_cell(r1, c, b);
            self.put_cell(r2, c, a);
            proof {
                let row1 = g0.screen[r2 as int].subrange(0, c + 1) + g0.screen[r1 as int].subrange(c + 1, cols as int);
                let row2 = g0.screen[r1 as int].subrange(0, c + 1) + g0.screen[r2 as int].subrange(c + 1, cols as int);
                assert(before.screen[r1 as int][c as int] == g0.screen[r1 as int][c as int]);
                assert(before.screen[r2 as int][c as int] == g0.screen[r2 as int][c as int]);
                assert(self@.screen[r1 as int] =~= row1);
                assert(self@.screen[r2 as int] =~= row2);
                assert(self@.screen =~= g0.screen.update(r1 as int, g0.screen[r2 as int].subrange(0, c + 1) + g0.screen[r1 as int].subrange(c + 1, cols as int))
                        .update(r2 as int, g0.screen[r1 as int].subrange(0, c + 1) + g0.screen[r2 as int].subrange(c + 1, cols as int)));
                assert forall|r: int| 0 <= r < self.rows implies #[trigger] self@.screen[r].len() == self.cols by {}
            }
            c = c + 1;
        }
        proof {
            assert(g0.screen[r2 as int].subrange(0, cols as int) =~= g0.screen[r2 as int]);
            assert(g0.screen[r1 as int].subrange(0, cols as int) =~= g0.screen[r1 as int]);
        }
        assert(self@ =~= g0.swap_rows(r1 as int, r2 as int));
    }
}


impl Grid {
    /// Move a whole row out, leaving blank cells behind.
    pub fn take_row(&mut self, r: usize) -> (out: Vec<Cell>)
        requires
            old(self).wf(),
            r < old(self).rows,
        ensures
            final(self).wf(),
            final(self)@ == (GridModel { screen: old(self)@.screen.update(r as int, blank_row(old(self)@.cols)), ..old(self)@ }),
            cells_view(out@) == old(self)@.screen[r as int],
    {
        let ghost g0 = self@;
        let cols = self.cols;
        let mut out: Vec<Cell> = Vec::new();
        let mut c: usize = 0;
        proof {
            assert(blank_row(cols as nat).subrange(0, 0) + g0.screen[r as int].subrange(0, cols as int) =~= g0.screen[r as int]);
            assert(g0.screen.update(r as int, g0.screen[r as int]) =~= g0.screen);
            assert(cells_view(out@) =~= g0.screen[r as int].subrange(0, 0));
        }
        while c < cols
            invariant
                self.wf(),
                g0.wf(),
                cols == self.cols,
                g0.cols == cols,
                c <= cols,
                r < self.rows,
                cells_view(out@) == g0.screen[r as int].subrange(0, c as int),
                self@ == (GridModel {
                    screen: g0.screen.update(r as int, blank_row(cols as nat).subrange(0, c as int) + g0.screen[r as int].subrange(c as int, cols as int)),
                    ..g0
                }),
            decreases cols - c,
        {
            let ghost before = self@;
            let cell = self.take_cell(r, c);
            proof {
                assert(before.screen[r as int][c as int] == g0.screen[r as int][c as int]);
            }
            let ghost prev = out@;
            out.push(cell);
            proof {
                assert(cells_view(out@) =~= cells_view(prev).push(cell@));
                assert(cells_view(out@) =~= g0.screen[r as int].subrange(0, c + 1));
                assert(self@.screen[r as int] =~= blank_row(cols as nat).subrange(0, c + 1) + g0.screen[r as int].subrange(c + 1, cols as int));
                assert(self@.screen =~= g0.screen.update(r as int, blank_row(cols as nat).subrange(0, c + 1) + g0.screen[r as int].subrange(c + 1, cols as int)));
                assert forall|q: int| 0 <= q < self.rows implies #[trigger] self@.screen[q].len() == self.cols by {}
            }
            c = c + 1;
        }
        proof {
            assert(blank_row(cols as nat).subrange(0, cols as int) + g0.screen[r as int].subrange(cols as int, cols as int) =~= blank_row(cols as nat));
            assert(g0.screen[r as int].subrange(0, cols as int) =~= g0.screen[r as int]);
        }
        assert(self@ =~= (GridModel { screen: g0.screen.update(r as int, blank_row(g0.cols)), ..g0 }));
        out
    }

    /// Overwrite a row with blank cells.
    pub fn clear_row(&mut self, r: usize)
        requires
            old(self).wf(),
            r < old(self).rows,
        ensures
            final(self).wf(),
            final(self)@ == (GridModel { screen: old(self)@.screen.update(r as int, blank_row(old(self)@.cols)), ..old(self)@ }),
    {
        let _discarded = self.take_row(r);
    }

    fn swap_continuation(&mut self, a: usize, b: usize)
        requires
            a < old(self).row_continuation@.len(),
            b < old(self).row_continuation@.len(),
        ensures
            final(self).row_continuation@ == old(self).row_continuation@.update(a as int, old(self).row_continuation@[b as int]).update(b as int, old(self).row_continuation@[a as int]),
            final(self).cells == old(self).cells,
            final(self).alt_cells == old(self).alt_cells,
            final(self)@ == (GridModel { row_continuation: final(self).row_continuation@, ..old(self)@ }),
    {
        let x = self.row_continuation[a];
        let y = self.row_continuation[b];
        self.row_continuation.set(a, y);
        self.row_continuation.set(b, x);
        assert(self@ =~= (GridModel { row_continuation: self.row_continuation@, ..old(self)@ }));
    }

    fn scroll_up_one(&mut self)
        requires
            old(self).wf(),
            old(self)@.region_ok(),
        ensures
            final(self).wf(),
            final(self)@ == old(self)@.scroll_up_once(),
    {
        let ghost g0 = self@;
        let top = self.scroll_top;
        let bottom = self.scroll_bottom;
        let rows = self.rows;
        let mut r = top;
        proof {
            assert(g0.screen.subrange(0, top as int) + g0.screen.subrange(top + 1, top + 1) + seq![g0.screen[top as int]] + g0.screen.subrange(top + 1, rows as int) =~= g0.screen);
            assert(g0.row_continuation.subrange(0, top as int) + g0.row_continuation.subrange(top + 1, top + 1) + seq![g0.row_continuation[top as int]] + g0.row_continuation.subrange(top + 1, rows as int) =~= g0.row_continuation);
        }
        while r < bottom
            invariant
                self.wf(),
                g0.wf(),
                g0.region_ok(),
                top == g0.scroll_top,
                bottom == g0.scroll_bottom,
                rows == g0.rows,
                top <= r <= bottom,
                self@ == (GridModel {
                    screen: g0.screen.subrange(0, top as int) + g0.screen.subrange(top + 1, r + 1) + seq![g0.screen[top as int]] + g0.screen.subrange(r + 1, rows as int),
                    row_continuation: g0.row_continuation.subrange(0, top as int) + g0.row_continuation.subrange(top + 1, r + 1) + seq![g0.row_continuation[top as int]] + g0.row_continuation.subrange(r + 1, rows as int),
                    ..g0
                }),
            decreases bottom - r,
        {
            let ghost before = self@;
            self.swap_rows(r, r + 1);
            self.swap_continuation(r, r + 1);
            proof {
                assert(self@.screen =~= g0.screen.subrange(0, top as int) + g0.screen.subrange(top + 1, r + 2) + seq![g0.screen[top as int]] + g0.screen.subrange(r + 2, rows as int));
                assert(self@.row_continuation =~= g0.row_continuation.subrange(0, top as int) + g0.row_continuation.subrange(top + 1, r + 2) + seq![g0.row_continuation[top as int]] + g0.row_continuation.subrange(r + 2, rows as int));
                assert forall|q: int| 0 <= q < self.rows implies #[trigger] self@.screen[q].len() == self.cols by {}
            }
            r = r + 1;
        }
        if top == 0 && bottom == rows - 1 {
            let is_cont = self.row_continuation[bottom];
            let row = self.take_row(bottom);
            self.scrollback.push_back((row, is_cont));
            if self.scrollback.len() > self.scrollback_limit {
                let _dropped = self.scrollback.pop_front();
            }
            proof {
                let e = (row, is_cont);
                assert(sb_view(self.scrollback@) =~= push_limited(g0.scrollback, (g0.screen[top as int], g0.row_continuation[top as int]), g0.scrollback_limit));
            }
        } else {
            self.clear_row(bottom);
        }
        self.row_continuation.set(bottom, false);
        proof {
            let h = g0.scroll_up_once();
            assert(self@.screen =~= h.screen);
            assert(self@.row_continuation =~= h.row_continuation);
            lemma_scroll_up_once_wf(g0);
        }
        assert(self@ =~= g0.scroll_up_once());
    }

    /// Scroll the scroll region up by `n` lines (at most its height). With a full-screen
    /// region, the lines leaving the top enter the scrollback, oldest dropped past the limit.
    pub fn scroll_up(&mut self, n: usize)
        requires
            old(self).wf(),
            n > 0 ==> old(self)@.region_ok(),
        ensures
            final(self).wf(),
            final(self)@ == old(self)@.scroll_up(n as nat),
    {
        let ghost g0 = self@;
        let top = self.scroll_top;
        let bottom = self.scroll_bottom;
        let span: usize = if bottom >= top { bottom - top + 1 } else { 1 };
        let count = if n < span { n } else { span };
        let mut i: usize = 0;
        while i < count
            invariant
                g0 == old(self)@,
                old(self).wf(),
                count == g0.scroll_count(n as nat),
                count > 0 ==> g0.region_ok(),
                i <= count,
                self.wf(),
                self@ == g0.scroll_up_n(i as nat),
            decreases count - i,
        {
            proof {
                lemma_scroll_up_n_wf(g0, i as nat);
            }
            self.scroll_up_one();
            i = i + 1;
        }
    }

    fn scroll_down_one(&mut self)
        requires
            old(self).wf(),
            old(self)@.region_ok(),
        ensures
            final(self).wf(),
            final(self)@ == old(self)@.scroll_down_once(),
    {
        let ghost g0 = self@;
        let top = self.scroll_top;
        let bottom = self.scroll_bottom;
        let rows = self.rows;
        let mut r = bottom;
        proof {
            assert(g0.screen.subrange(0, bottom as int) + seq![g0.screen[bottom as int]] + g0.screen.subrange(bottom as int, bottom as int) + g0.screen.subrange(bottom + 1, rows as int) =~= g0.screen);
            assert(g0.row_continuation.subrange(0, bottom as int) + seq![g0.row_continuation[bottom as int]] + g0.row_continuation.subrange(bottom as int, bottom as int) + g0.row_continuation.subrange(bottom + 1, rows as int) =~= g0.row_continuation);
        }
        while r > top
            invariant
                self.wf(),
                g0.wf(),
                g0.region_ok(),
                top == g0.scroll_top,
                bottom == g0.scroll_bottom,
                rows == g0.rows,
                top <= r <= bottom,
                self@ == (GridModel {
                    screen: g0.screen.subrange(0, r as int) + seq![g0.screen[bottom as int]] + g0.screen.subrange(r as int, bottom as int) + g0.screen.subrange(bottom + 1, rows as int),
                    row_continuation: g0.row_continuation.subrange(0, r as int) + seq![g0.row_continuation[bottom as int]] + g0.row_continuation.subrange(r as int, bottom as int) + g0.row_continuation.subrange(bottom + 1, rows as int),
                    ..g0
                }),
            decreases r - top,
        {
            self.swap_rows(r - 1, r);
            self.swap_continuation(r - 1, r);
            proof {
                assert(self@.screen =~= g0.screen.subrange(0, r - 1) + seq![g0.screen[bottom as int]] + g0.screen.subrange(r - 1, bottom as int) + g0.screen.subrange(bottom + 1, rows as int));
                assert(self@.row_continuation =~= g0.row_continuation.subrange(0, r - 1) + seq![g0.row_continuation[bottom as int]] + g0.row_continuation.subrange(r - 1, bottom as int) + g0.row_continuation.subrange(bottom + 1, rows as int));
                assert forall|q: int| 0 <= q < self.rows implies #[trigger] self@.screen[q].len() == self.cols by {}
            }
            r = r - 1;
        }
        self.clear_row(top);
        self.row_continuation.set(top, false);
        proof {
            let h = g0.scroll_down_once();
            assert(self@.screen =~= h.screen);
            assert(self@.row_continuation =~= h.row_continuation);
            lemma_scroll_down_once_wf(g0);
        }
        assert(self@ =~= g0.scroll_down_once());
    }

    /// Scroll the scroll region down by `n` lines (at most its height), inserting blank
    /// lines at its top; lines pushed past its bottom are discarded.
    pub fn scroll_down(&mut self, n: usize)
        requires
            old(self).wf(),
            n > 0 ==> old(self)@.region_ok(),
        ensures
            final(self).wf(),
            final(self)@ == old(self)@.scroll_down(n as nat),
    {
        let ghost g0 = self@;
        let top = self.scroll_top;
        let bottom = self.scroll_bottom;
        let span: usize = if bottom >= top { bottom - top + 1 } else { 1 };
        let count = if n < span { n } else { span };
        let mut i: usize = 0;
        while i < count
            invariant
                g0 == old(self)@,
                old(self).wf(),
                count == g0.scroll_count(n as nat),
                count > 0 ==> g0.region_ok(),
                i <= count,
                self.wf(),
                self@ == g0.scroll_down_n(i as nat),
            decreases count - i,
        {
            proof {
                lemma_scroll_down_n_wf(g0, i as nat);
            }
            self.scroll_down_one();
            i = i + 1;
        }
    }
}


impl GridModel {
    /// Line feed: at the bottom of the scroll region the region scrolls, elsewhere the
    /// cursor moves down unless it is on the last row.
    pub open spec fn newline(self) -> GridModel {
        if self.cursor_y == self.scroll_bottom {
            self.scroll_up(1)
        } else if self.cursor_y + 1 < self.rows {
            GridModel { cursor_y: self.cursor_y + 1, ..self }
        } else {
            self
        }
    }

    /// Reverse index: at the top of the scroll region the region scrolls down,
    /// elsewhere the cursor moves up unless it is on the first row.
    pub open spec fn reverse_index(self) -> GridModel {
        if self.cursor_y == self.scroll_top {
            self.scroll_down(1)
        } else if self.cursor_y > 0 {
            GridModel { cursor_y: (self.cursor_y - 1) as nat, ..self }
        } else {
            self
        }
    }

    /// The newline may scroll only through a well-formed region.
    pub open spec fn newline_ok(self) -> bool {
        self.cursor_y == self.scroll_bottom ==> self.region_ok()
    }

    pub open spec fn reverse_index_ok(self) -> bool {
        self.cursor_y == self.scroll_top ==> self.region_ok()
    }

    pub open spec fn blank_screen(cols: nat, rows: nat) -> Seq<Seq<CellView>> {
        Seq::new(rows, |r: int| blank_row(cols))
    }

    /// A freshly created grid of the given size.
    pub open spec fn initial(cols: nat, rows: nat) -> GridModel {
        GridModel {
            screen: GridModel::blank_screen(cols, rows),
            cursor_x: 0,
            cursor_y: 0,
            current_fg: None,
            current_bg: None,
            current_link: None,
            current_attrs: 0,
            mouse_mode: MouseMode::Off,
            mouse_sgr: false,
            bracketed_paste: false,
            cursor_visible: true,
            cols,
            rows,
            scroll_top: 0,
            scroll_bottom: sat_sub(rows, 1),
            pwd: seq!['~'],
            output_queue: Seq::empty(),
            control_queue: Seq::empty(),
            saved_cursor: None,
            wrap_next: false,
            row_continuation: Seq::new(rows, |r: int| false),
            scrollback: Seq::empty(),
            scrollback_limit: DEFAULT_SCROLLBACK_LIMIT as nat,
            alt_cells: None,
            alt_cursor: None,
            alt_scrollback: None,
            alt_row_continuation: None,
            images: Seq::empty(),
            next_link_id: 0,
        }
    }

    /// Switch to the alternate screen: the primary screen, cursor, scrollback and line
    /// continuation flags are put aside and a blank screen with default rendition appears.
    /// Does nothing when the alternate screen is already active.
    pub open spec fn enter_alt_screen(self) -> GridModel {
        if self.alt_cells is None {
            GridModel {
                alt_cells: Some(self.screen.flatten()),
                alt_cursor: Some((self.cursor_x, self.cursor_y)),
                alt_scrollback: Some(self.scrollback),
                alt_row_continuation: Some(self.row_continuation),
                screen: GridModel::blank_screen(self.cols, self.rows),
                row_continuation: Seq::new(self.rows, |r: int| false),
                scrollback: Seq::empty(),
                cursor_x: 0,
                cursor_y: 0,
                scroll_top: 0,
                scroll_bottom: sat_sub(self.rows, 1),
                current_fg: None,
                current_bg: None,
                current_link: None,
                current_attrs: 0,
                bracketed_paste: false,
                wrap_next: false,
                ..self
            }
        } else {
            self
        }
    }

    /// Leave the alternate screen: whatever was put aside is restored, and the scroll
    /// region, rendition and pending wrap are reset.
    pub open spec fn leave_alt_screen(self) -> GridModel {
        GridModel {
            screen: match self.alt_cells { Some(s) => screen_of(s, self.cols, self.rows), None => self.screen },
            cursor_x: match self.alt_cursor { Some((x, _)) => x, None => self.cursor_x },
            cursor_y: match self.alt_cursor { Some((_, y)) => y, None => self.cursor_y },
            scrollback: match self.alt_scrollback { Some(s) => s, None => self.scrollback },
            row_continuation: match self.alt_row_continuation { Some(s) => s, None => self.row_continuation },
            alt_cells: None,
            alt_cursor: None,
            alt_scrollback: None,
            alt_row_continuation: None,
            scroll_top: 0,
            scroll_bottom: sat_sub(self.rows, 1),
            current_fg: None,
            current_bg: None,
            current_link: None,
            current_attrs: 0,
            wrap_next: false,
            ..self
        }
    }
}

/// Entering and then leaving the alternate screen gives back the primary screen,
/// cursor, scrollback and line continuation flags unchanged.
pub proof fn law_alt_screen_round_trip(g: GridModel)
    requires
        g.wf(),
        g.alt_cells is None,
        g.alt_cursor is None,
        g.alt_scrollback is None,
        g.alt_row_continuation is None,
    ensures
        g.enter_alt_screen().leave_alt_screen().screen == g.screen,
        g.enter_alt_screen().leave_alt_screen().cursor_x == g.cursor_x,
        g.enter_alt_screen().leave_alt_screen().cursor_y == g.cursor_y,
        g.enter_alt_screen().leave_alt_screen().scrollback == g.scrollback,
        g.enter_alt_screen().leave_alt_screen().row_continuation == g.row_continuation,
        g.enter_alt_screen().leave_alt_screen().alt_cells is None,
{
    lemma_screen_of_flatten(g.screen, g.cols, g.rows);
}

pub proof fn lemma_screen_of_split(cells: Seq<CellView>, cols: nat, rows: nat)
    requires
        rows >= 1,
        cells.len() == cols * rows,
    ensures
        screen_of(cells, cols, rows) =~= seq![cells.subrange(0, cols as int)] + screen_of(cells.skip(cols as int), cols, (rows - 1) as nat),
        cells.skip(cols as int).len() == cols * (rows - 1),
{
    assert(cols * rows == cols + cols * (rows - 1)) by (nonlinear_arith) requires rows >= 1;
    let a = screen_of(cells, cols, rows);
    let b = seq![cells.subrange(0, cols as int)] + screen_of(cells.skip(cols as int), cols, (rows - 1) as nat);
    assert forall|r: int| 0 <= r < rows implies #[trigger] a[r] =~= b[r] by {
        if cols == 0 {
            assert(r * cols == 0) by (nonlinear_arith) requires cols == 0;
            assert((r - 1) * cols == 0) by (nonlinear_arith) requires cols == 0;
        } else if r > 0 {
            assert(r * cols == (r - 1) * cols + cols) by (nonlinear_arith);
            lemma_cell_index(r, 0, cols as int, rows as int);
            assert(0 <= (r - 1) * cols) by (nonlinear_arith) requires r >= 1;
        } else {
            assert(r * cols == 0) by (nonlinear_arith) requires r == 0;
        }
    }
}

/// The rows of a row-major vector, concatenated, give back the vector.
pub proof fn lemma_flatten_screen(cells: Seq<CellView>, cols: nat, rows: nat)
    requires
        cells.len() == cols * rows,
    ensures
        screen_of(cells, cols, rows).flatten() =~= cells,
    decreases rows,
{
    if rows == 0 {
        assert(cells.len() == 0) by (nonlinear_arith) requires cells.len() == cols * rows, rows == 0;
    } else {
        lemma_screen_of_split(cells, cols, rows);
        lemma_flatten_screen(cells.skip(cols as int), cols, (rows - 1) as nat);
        let s = screen_of(cells, cols, rows);
        assert(s.first() == cells.subrange(0, cols as int));
        assert(s.drop_first() =~= screen_of(cells.skip(cols as int), cols, (rows - 1) as nat));
        assert(cols <= cells.len()) by (nonlinear_arith) requires cells.len() == cols * rows, rows >= 1;
    }
}

/// Concatenating rows of equal length and cutting the result into rows again gives them back.
pub proof fn lemma_screen_of_flatten(s: Seq<Seq<CellView>>, cols: nat, rows: nat)
    requires
        s.len() == rows,
        forall|r: int| 0 <= r < rows ==> #[trigger] s[r].len() == cols,
    ensures
        s.flatten().len() == cols * rows,
        screen_of(s.flatten(), cols, rows) =~= s,
    decreases rows,
{
    if rows == 0 {
        assert(cols * rows == 0) by (nonlinear_arith) requires rows == 0;
    } else {
        let rest = s.drop_first();
        assert forall|r: int| 0 <= r < rows - 1 implies #[trigger] rest[r].len() == cols by {
            assert(rest[r] == s[r + 1]);
        }
        lemma_screen_of_flatten(rest, cols, (rows - 1) as nat);
        assert(cols * rows == cols + cols * (rows - 1)) by (nonlinear_arith) requires rows >= 1;
        let f = s.flatten();
        assert(f == s.first() + rest.flatten());
        lemma_screen_of_split(f, cols, rows);
        assert(f.subrange(0, cols as int) =~= s[0]);
        assert(f.skip(cols as int) =~= rest.flatten());
        assert(screen_of(f, cols, rows) =~= seq![s[0]] + rest);
        assert(seq![s[0]] + rest =~= s);
    }
}

pub proof fn lemma_blank_screen_shape(cols: nat, rows: nat)
    ensures
        GridModel::blank_screen(cols, rows).len() == rows,
        forall|r: int| 0 <= r < rows ==> #[trigger] GridModel::blank_screen(cols, rows)[r].len() == cols,
{
}

impl Grid {
    pub fn newline(&mut self)
        requires
            old(self).wf(),
            old(self)@.newline_ok(),
        ensures
            final(self).wf(),
            final(self)@ == old(self)@.newline(),
    {
        if self.cursor_y == self.scroll_bottom {
            self.scroll_up(1);
        } else if self.cursor_y + 1 < self.rows {
            self.cursor_y = self.cursor_y + 1;
            assert(self@ =~= old(self)@.newline());
        }
    }

    pub fn reverse_index(&mut self)
        requires
            old(self).wf(),
            old(self)@.reverse_index_ok(),
        ensures
            final(self).wf(),
            final(self)@ == old(self)@.reverse_index(),
    {
        if self.cursor_y == self.scroll_top {
            self.scroll_down(1);
        } else if self.cursor_y > 0 {
            self.cursor_y = self.cursor_y - 1;
            assert(self@ =~= old(self)@.reverse_index());
        }
    }

    /// A vector of `n` blank cells.
    pub fn blank_cells(n: usize) -> (v: Vec<Cell>)
        ensures
            cells_view(v@) == Seq::new(n as nat, |i: int| blank()),
    {
        let mut v: Vec<Cell> = Vec::new();
        let mut i: usize = 0;
        while i < n
            invariant
                i <= n,
                cells_view(v@) == Seq::new(i as nat, |k: int| blank()),
            decreases n - i,
        {
            let ghost prev = v@;
            v.push(Cell::blank());
            proof {
                assert(cells_view(v@) =~= cells_view(prev).push(blank()));
                assert(cells_view(v@) =~= Seq::new((i + 1) as nat, |k: int| blank()));
            }
            i = i + 1;
        }
        v
    }

    pub fn false_flags(n: usize) -> (v: Vec<bool>)
        ensures
            v@ == Seq::new(n as nat, |i: int| false),
    {
        let mut v: Vec<bool> = Vec::new();
        let mut i: usize = 0;
        while i < n
            invariant
                i <= n,
                v@ == Seq::new(i as nat, |k: int| false),
            decreases n - i,
        {
            v.push(false);
            assert(v@ =~= Seq::new((i + 1) as nat, |k: int| false));
            i = i + 1;
        }
        v
    }

    pub proof fn lemma_blank_cells_screen(cells: Seq<CellView>, cols: nat, rows: nat)
        requires
            cells == Seq::new(cols * rows, |i: int| blank()),
        ensures
            screen_of(cells, cols, rows) =~= GridModel::blank_screen(cols, rows),
    {
        assert forall|r: int| 0 <= r < rows implies #[trigger] screen_of(cells, cols, rows)[r] =~= blank_row(cols) by {
            if cols > 0 {
                lemma_cell_index(r, 0, cols as int, rows as int);
            } else {
                assert(r * cols == 0) by (nonlinear_arith) requires cols == 0;
            }
        }
    }

    /// A blank grid of `cols` columns and `rows` rows with the cursor at the origin.
    pub fn new(cols: usize, rows: usize) -> (g: Grid)
        requires
            cols * rows <= usize::MAX,
        ensures
            g@ == GridModel::initial(cols as nat, rows as nat),
            g.layout_ok(),
            cols >= 1 && rows >= 1 ==> g.wf(),
    {
        let cells = Grid::blank_cells(cols * rows);
        let pwd = String::from_str("~");
        proof {
            reveal_strlit("~");
            assert(pwd@ =~= seq!['~']);
            Grid::lemma_blank_cells_screen(cells_view(cells@), cols as nat, rows as nat);
        }
        let g = Grid {
            cells,
            cursor_x: 0,
            cursor_y: 0,
            current_fg: None,
            current_bg: None,
            current_uri: None,
            current_attrs: CellAttrs::empty(),
            mouse_mode: MouseMode::Off,
            mouse_sgr: false,
            bracketed_paste: false,
            cursor_visible: true,
            cols,
            rows,
            scroll_top: 0,
            scroll_bottom: if rows >= 1 { rows - 1 } else { 0 },
            pwd,
            output_queue: Vec::new(),
            control_queue: Vec::new(),
            saved_cursor: None,
            wrap_next: false,
            row_continuation: Grid::false_flags(rows),
            scrollback: VecDeque::new(),
            scrollback_limit: DEFAULT_SCROLLBACK_LIMIT,
            alt_cells: None,
            alt_cursor: None,
            alt_scrollback: None,
            alt_row_continuation: None,
            images: Vec::new(),
            next_link_id: 0,
        };
        assert(g@.output_queue =~= Seq::empty());
        assert(g@.control_queue =~= Seq::empty());
        assert(g@.scrollback =~= Seq::empty());
        assert(g@.images =~= Seq::empty());
        assert(g@ =~= GridModel::initial(cols as nat, rows as nat));
        assert(g.cells@.len() == cells_view(g.cells@).len());
        proof {
            lemma_blank_screen_shape(cols as nat, rows as nat);
        }
        g
    }

    /// The cells of one screen row.
    pub fn row(&self, r: usize) -> (out: &[Cell])
        requires
            self.wf(),
            r < self.rows,
        ensures
            cells_view(out@) == self@.screen[r as int],
    {
        let start = self.index_of(r, 0);
        let _len = self.cells.len();
        proof {
            lemma_cell_index(r as int, 0, self.cols as int, self.rows as int);
        }
        let out = &self.cells.as_slice()[start..start + self.cols];
        assert(cells_view(out@) =~= self@.screen[r as int]);
        out
    }

    pub fn enter_alt_screen(&mut self)
        requires
            old(self).wf(),
        ensures
            final(self).wf(),
            final(self)@ == old(self)@.enter_alt_screen(),
            old(self)@.alt_ok() ==> final(self)@.alt_ok(),
    {
        if self.alt_cells.is_none() {
            let ghost g0 = self@;
            let _len = self.cells.len();
            let fresh = Grid::blank_cells(self.cols * self.rows);
            proof {
                Grid::lemma_blank_cells_screen(cells_view(fresh@), self.cols as nat, self.rows as nat);
            }
            let mut old_cells = fresh;
            std::mem::swap(&mut old_cells, &mut self.cells);
            let mut sb: VecDeque<ScrollRow> = VecDeque::new();
            std::mem::swap(&mut sb, &mut self.scrollback);
            let mut old_rc = Grid::false_flags(self.rows);
            std::mem::swap(&mut old_rc, &mut self.row_continuation);
            self.alt_cells = Some(old_cells);
            self.alt_cursor = Some((self.cursor_x, self.cursor_y));
            self.alt_scrollback = Some(sb);
            self.alt_row_continuation = Some(old_rc);
            self.cursor_x = 0;
            self.cursor_y = 0;
            self.scroll_top = 0;
            self.scroll_bottom = self.rows - 1;
            self.current_fg = None;
            self.current_bg = None;
            self.current_uri = None;
            self.current_attrs = CellAttrs::empty();
            self.bracketed_paste = false;
            self.wrap_next = false;
            proof {
                assert(sb_view(self.scrollback@) =~= Seq::empty());
                lemma_screen_shape(cells_view(old_cells@), self.cols as nat, self.rows as nat);
                lemma_flatten_screen(cells_view(old_cells@), self.cols as nat, self.rows as nat);
                lemma_blank_screen_shape(self.cols as nat, self.rows as nat);
                assert(self.cells@.len() == cells_view(self.cells@).len());
            }
            assert(self@ =~= g0.enter_alt_screen());
        }
    }

    pub fn leave_alt_screen(&mut self)
        requires
            old(self).layout_ok(),
            old(self)@.cols >= 1,
            old(self)@.rows >= 1,
        ensures
            final(self)@ == old(self)@.leave_alt_screen(),
            old(self)@.wf() && old(self)@.alt_ok() ==> final(self).wf() && final(self)@.alt_ok(),
    {
        let ghost g0 = self@;
        proof {
            if let Some(a) = g0.alt_cells {
                if g0.alt_ok() {
                    lemma_screen_shape(a, g0.cols, g0.rows);
                }
            }
        }
        let mut taken = None;
        std::mem::swap(&mut taken, &mut self.alt_cells);
        if let Some(cells) = taken {
            self.cells = cells;
        }
        let mut cur = None;
        std::mem::swap(&mut cur, &mut self.alt_cursor);
        if let Some((x, y)) = cur {
            self.cursor_x = x;
            self.cursor_y = y;
        }
        let mut sb = None;
        std::mem::swap(&mut sb, &mut self.alt_scrollback);
        if let Some(s) = sb {
            self.scrollback = s;
        }
        let mut rc = None;
        std::mem::swap(&mut rc, &mut self.alt_row_continuation);
        if let Some(v) = rc {
            self.row_continuation = v;
        }
        self.scroll_top = 0;
        self.scroll_bottom = self.rows - 1;
        self.current_fg = None;
        self.current_bg = None;
        self.current_uri = None;
        self.current_attrs = CellAttrs::empty();
        self.wrap_next = false;
        assert(self@ =~= g0.leave_alt_screen());
    }
}


/// A line feed keeps the grid well formed, the scroll region, the column and everything
/// but the screen, continuation flags, scrollback and row.
pub proof fn lemma_newline(g: GridModel)
    requires
        g.wf(),
        g.newline_ok(),
    ensures
        g.newline().wf(),
        g.newline().scroll_top == g.scroll_top,
        g.newline().scroll_bottom == g.scroll_bottom,
        g.newline().cursor_x == g.cursor_x,
        g.newline() == (GridModel {
            screen: g.newline().screen,
            row_continuation: g.newline().row_continuation,
            scrollback: g.newline().scrollback,
            cursor_y: g.newline().cursor_y,
            ..g
        }),
{
    if g.cursor_y == g.scroll_bottom {
        lemma_scroll_up_n_wf(g, g.scroll_count(1));
        lemma_scroll_up_n_frame(g, g.scroll_count(1));
    }
}

pub proof fn lemma_reverse_index(g: GridModel)
    requires
        g.wf(),
        g.reverse_index_ok(),
    ensures
        g.reverse_index().wf(),
        g.reverse_index().scroll_top == g.scroll_top,
        g.reverse_index().scroll_bottom == g.scroll_bottom,
        g.reverse_index().cursor_x == g.cursor_x,
        g.reverse_index() == (GridModel {
            screen: g.reverse_index().screen,
            row_continuation: g.reverse_index().row_continuation,
            cursor_y: g.reverse_index().cursor_y,
            ..g
        }),
{
    if g.cursor_y == g.scroll_top {
        lemma_scroll_down_n_wf(g, g.scroll_count(1));
        lemma_scroll_down_n_frame(g, g.scroll_count(1));
    }
}

/// Scrolling up changes only the screen, continuation flags and scrollback.
pub proof fn lemma_scroll_up_n_frame(g: GridModel, k: nat)
    ensures
        g.scroll_up_n(k) == (GridModel {
            screen: g.scroll_up_n(k).screen,
            row_continuation: g.scroll_up_n(k).row_continuation,
            scrollback: g.scroll_up_n(k).scrollback,
            ..g
        }),
    decreases k,
{
    if k > 0 {
        lemma_scroll_up_n_frame(g, (k - 1) as nat);
    }
}

/// Scrolling down changes only the screen and continuation flags.
pub proof fn lemma_scroll_down_n_frame(g: GridModel, k: nat)
    ensures
        g.scroll_down_n(k) == (GridModel {
            screen: g.scroll_down_n(k).screen,
            row_continuation: g.scroll_down_n(k).row_continuation,
            ..g
        }),
    decreases k,
{
    if k > 0 {
        lemma_scroll_down_n_frame(g, (k - 1) as nat);
    }
}


/// What the alternate screen put aside, and the size, are the same in `b` as in `a`.
pub open spec fn keeps_saved(a: GridModel, b: GridModel) -> bool {
    &&& b.alt_cells == a.alt_cells
    &&& b.alt_cursor == a.alt_cursor
    &&& b.alt_scrollback == a.alt_scrollback
    &&& b.alt_row_continuation == a.alt_row_continuation
    &&& b.cols == a.cols
    &&& b.rows == a.rows
}

/// Scrolling keeps what the alternate screen put aside.
pub proof fn lemma_scrolls_keep_saved()
    ensures
        forall|g: GridModel, k: nat| #![trigger g.scroll_up_n(k)] keeps_saved(g, g.scroll_up_n(k)),
        forall|g: GridModel, k: nat| #![trigger g.scroll_down_n(k)] keeps_saved(g, g.scroll_down_n(k)),
{
    assert forall|g: GridModel, k: nat| #![trigger g.scroll_up_n(k)] keeps_saved(g, g.scroll_up_n(k)) by {
        lemma_scroll_up_n_frame(g, k);
    }
    assert forall|g: GridModel, k: nat| #![trigger g.scroll_down_n(k)] keeps_saved(g, g.scroll_down_n(k)) by {
        lemma_scroll_down_n_frame(g, k);
    }
}

/// Leaving the alternate screen gives back the primary screen, cursor, scrollback and
/// line continuation flags as they were when it was entered, whatever was done on the
/// alternate screen in between that kept what entering put aside (every operation of
/// the executor but leaving does, see `law_executor_keeps_saved`), and resets the
/// scroll region, the rendition and the pending wrap.
pub proof fn law_alt_screen_restores(g: GridModel, h: GridModel)
    requires
        g.wf(),
        g.alt_cells is None,
        g.alt_cursor is None,
        g.alt_scrollback is None,
        g.alt_row_continuation is None,
        keeps_saved(g.enter_alt_screen(), h),
    ensures
        h.leave_alt_screen().screen == g.screen,
        h.leave_alt_screen().cursor_x == g.cursor_x,
        h.leave_alt_screen().cursor_y == g.cursor_y,
        h.leave_alt_screen().scrollback == g.scrollback,
        h.leave_alt_screen().row_continuation == g.row_continuation,
        h.leave_alt_screen().alt_cells is None,
        h.leave_alt_screen().scroll_top == 0,
        h.leave_alt_screen().scroll_bottom == sat_sub(g.rows, 1),
        h.leave_alt_screen().current_fg is None,
        h.leave_alt_screen().current_bg is None,
        h.leave_alt_screen().current_link is None,
        h.leave_alt_screen().current_attrs == 0,
        !h.leave_alt_screen().wrap_next,
{
    law_alt_screen_round_trip(g);
}

/// Scrolling never lets the scrollback grow past its limit: the oldest lines are dropped.
pub proof fn law_scrollback_bounded(g: GridModel, k: nat)
    requires
        g.scrollback.len() <= g.scrollback_limit,
    ensures
        g.scroll_up_n(k).scrollback.len() <= g.scrollback_limit,
        g.scroll_up_n(k).scrollback_limit == g.scrollback_limit,
    decreases k,
{
    if k > 0 {
        law_scrollback_bounded(g, (k - 1) as nat);
        lemma_scroll_up_n_frame(g, (k - 1) as nat);
    }
}

/// A line feed keeps the scrollback within its limit.
pub proof fn law_newline_scrollback_bounded(g: GridModel)
    requires
        g.scrollback.len() <= g.scrollback_limit,
    ensures
        g.newline().scrollback.len() <= g.scrollback_limit,
{
    law_scrollback_bounded(g, g.scroll_count(1));
}
} // verus!
