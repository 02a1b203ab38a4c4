//! Pointer and list navigation in the terminal window: clicking to select words and
//! lines, the mouse wheel, moving through search matches and palette entries, and the
//! working directory as shown in a tab.
use vstd::prelude::*;
use crate::grid::{Grid, GridModel, MouseMode};
use crate::select::{display_row, get_display_row, find_word_boundaries, word_bounds};
use crate::text::{chars_of, decimal, push_decimal, starts_with_chars, string_of_chars};

verus! {

/// The palette entry `d` steps from `selected` among `count` entries, wrapping round
/// both ways; nothing moves when no entry matches.
pub open spec fn palette_step(selected: nat, d: int, count: nat) -> nat {
    if count == 0 { selected } else { ((selected + d) % (count as int)) as nat }
}

proof fn lemma_neg_mod(y: int, c: int)
    requires
        y > 0,
        c > 0,
    ensures
        (-y) % c == (if y % c == 0 { 0 } else { c - y % c }),
{
    let q = y / c;
    let r = y % c;
    vstd::arithmetic::div_mod::lemma_fundamental_div_mod(y, c);
    if r == 0 {
        assert(-y == (-q) * c) by (nonlinear_arith)
            requires
                y == q * c + r,
                r == 0,
        ;
        vstd::arithmetic::div_mod::lemma_mod_multiples_basic(-q, c);
    } else {
        assert(-y == (-q - 1) * c + (c - r)) by (nonlinear_arith)
            requires
                y == q * c + r,
        ;
        vstd::arithmetic::div_mod::lemma_fundamental_div_mod_converse(-y, c, -q - 1, c - r);
    }
}

/// Move the palette selection (see [`palette_step`]).
pub fn palette_navigate(selected: usize, delta: i32, count: usize) -> (r: usize)
    requires
        selected <= i32::MAX,
        i32::MIN <= selected + delta <= i32::MAX,
        count <= i32::MAX,
    ensures
        r == palette_step(selected as nat, delta as int, count as nat),
        count > 0 ==> r < count,
{
    if count == 0 {
        return selected;
    }
    let x: i64 = selected as i64 + delta as i64;
    let c: u64 = count as u64;
    if x >= 0 {
        ((x as u64) % c) as usize
    } else {
        let y: u64 = (0 - x) as u64;
        let m = y % c;
        proof {
            lemma_neg_mod(y as int, c as int);
        }
        if m == 0 { 0 } else { (c - m) as usize }
    }
}

/// The next search match, wrapping round.
pub fn search_next(index: usize, count: usize) -> (r: usize)
    requires
        count > 0 ==> index < usize::MAX,
    ensures
        r == (if count == 0 { index as nat } else { (index as nat + 1) % (count as nat) }),
{
    if count == 0 { index } else { (index + 1) % count }
}

/// The previous search match: the last one before the first.
pub fn search_prev(index: usize, count: usize) -> (r: usize)
    requires
        count > 0 || index > 0,
    ensures
        r == (if index > 0 { (index - 1) as nat } else { (count - 1) as nat }),
{
    if index > 0 { index - 1 } else { count - 1 }
}

/// How far to scroll back to show a match: a match in scrollback row `row` is shown by
/// scrolling back by the number of scrollback rows from it to the end; a match on the
/// screen needs no scrolling.
pub fn search_scroll_offset(is_scrollback: bool, row: usize, scrollback_len: usize) -> (r: usize)
    ensures
        r == (if is_scrollback && row < scrollback_len { (scrollback_len - row) as nat } else { 0 }),
{
    if is_scrollback && row < scrollback_len { scrollback_len - row } else { 0 }
}

/// The working directory as a tab shows it: the home directory at its start written `~`.
pub open spec fn home_relative(pwd: Seq<char>, home: Seq<char>) -> Seq<char> {
    if home.len() <= pwd.len() && pwd.take(home.len() as int) == home {
        seq!['~'] + pwd.skip(home.len() as int)
    } else {
        pwd
    }
}

/// Shorten a directory with the home directory (see [`home_relative`]).
pub fn til_home(pwd: &str, home: &str) -> (s: String)
    ensures
        s@ == home_relative(pwd@, home@),
{
    let p = chars_of(pwd);
    let h = chars_of(home);
    if starts_with_chars(p.as_slice(), h.as_slice()) {
        let rest = string_of_chars(p.as_slice(), h.len(), p.len());
        let mut s = String::new();
        crate::ext::push_char(&mut s, '~');
        crate::ext::push_str(&mut s, rest.as_str());
        assert(s@ =~= seq!['~'] + pwd@.skip(home@.len() as int));
        s
    } else {
        string_of_chars(p.as_slice(), 0, p.len())
    }
}

/// Clicks on the same cell in quick succession count up to a triple click; any other
/// click starts again at one.
pub open spec fn click_count_after(count: nat, cell: Option<(usize, usize)>, last: Option<(usize, usize)>, quick: bool) -> nat {
    if cell is Some && cell == last && quick {
        if count + 1 < 3 { count + 1 } else { 3 }
    } else {
        1
    }
}

pub fn next_click_count(count: u8, cell: Option<(usize, usize)>, last_cell: Option<(usize, usize)>, quick: bool) -> (r: u8)
    requires
        count < u8::MAX,
    ensures
        r == click_count_after(count as nat, cell, last_cell, quick),
{
    let same = match (cell, last_cell) {
        (Some(a), Some(b)) => a.0 == b.0 && a.1 == b.1,
        _ => false,
    };
    if same && quick {
        let n = count + 1;
        if n < 3 { n } else { 3 }
    } else {
        1
    }
}

/// The selection a left click starts, given as its two ends (column, display row): the
/// clicked cell; on a double click the word around it, on a triple click the whole row.
pub open spec fn click_selection_spec(g: GridModel, off: nat, cell: Option<(usize, usize)>, clicks: nat) -> (Option<(nat, nat)>, Option<(nat, nat)>) {
    match cell {
        None => (None, None),
        Some((col, row)) => {
            if clicks == 2 {
                match display_row(g, off, row as nat) {
                    Some(cells) => {
                        let (ws, we) = word_bounds(cells, col as nat);
                        (Some((ws, row as nat)), Some((we, row as nat)))
                    },
                    None => (Some((col as nat, row as nat)), Some((col as nat, row as nat))),
                }
            } else if clicks == 3 {
                (Some((0, row as nat)), Some((if g.cols > 0 { (g.cols - 1) as nat } else { 0 }, row as nat)))
            } else {
                (Some((col as nat, row as nat)), Some((col as nat, row as nat)))
            }
        },
    }
}

pub open spec fn cell_view(c: Option<(usize, usize)>) -> Option<(nat, nat)> {
    match c {
        Some((x, y)) => Some((x as nat, y as nat)),
        None => None,
    }
}

/// The selection started by a left click (see [`click_selection_spec`]).
pub fn click_selection(grid: &Grid, scroll_offset: usize, cell: Option<(usize, usize)>, clicks: u8) -> (r: (Option<(usize, usize)>, Option<(usize, usize)>))
    requires
        grid.wf(),
    ensures
        (cell_view(r.0), cell_view(r.1)) == click_selection_spec(grid@, scroll_offset as nat, cell, clicks as nat),
{
    match cell {
        None => (None, None),
        Some((col, row)) => {
            if clicks == 2 {
                match get_display_row(grid, scroll_offset, row) {
                    Some(cells) => {
                        let (ws, we) = find_word_boundaries(cells, col);
                        (Some((ws, row)), Some((we, row)))
                    },
                    None => (Some((col, row)), Some((col, row))),
                }
            } else if clicks == 3 {
                let last = if grid.cols > 0 { grid.cols - 1 } else { 0 };
                (Some((0, row)), Some((last, row)))
            } else {
                (Some((col, row)), Some((col, row)))
            }
        },
    }
}

/// Where a drag moves the selection's end: the cell under the pointer; after a double
/// click the end of the word there, after a triple click the end of that row.
pub open spec fn drag_end_spec(g: GridModel, off: nat, cell: Option<(usize, usize)>, clicks: nat) -> Option<(nat, nat)> {
    match cell {
        None => None,
        Some((col, row)) => {
            if clicks == 2 {
                match display_row(g, off, row as nat) {
                    Some(cells) => Some((word_bounds(cells, col as nat).1, row as nat)),
                    None => Some((col as nat, row as nat)),
                }
            } else if clicks == 3 {
                Some((if g.cols > 0 { (g.cols - 1) as nat } else { 0 }, row as nat))
            } else {
                Some((col as nat, row as nat))
            }
        },
    }
}

/// The selection end while dragging (see [`drag_end_spec`]).
pub fn drag_selection_end(grid: &Grid, scroll_offset: usize, cell: Option<(usize, usize)>, clicks: u8) -> (r: Option<(usize, usize)>)
    requires
        grid.wf(),
    ensures
        cell_view(r) == drag_end_spec(grid@, scroll_offset as nat, cell, clicks as nat),
{
    match cell {
        None => None,
        Some((col, row)) => {
            if clicks == 2 {
                match get_display_row(grid, scroll_offset, row) {
                    Some(cells) => {
                        let (_, we) = find_word_boundaries(cells, col);
                        Some((we, row))
                    },
                    None => Some((col, row)),
                }
            } else if clicks == 3 {
                Some((if grid.cols > 0 { grid.cols - 1 } else { 0 }, row))
            } else {
                Some((col, row))
            }
        },
    }
}

/// Whether pointer motion is reported to the application: in any-event mode always, in
/// button-event mode while a button is held.
pub fn reports_motion(mode: MouseMode, button_held: bool) -> (r: bool)
    ensures
        r == (mode == MouseMode::AnyEvent || (mode == MouseMode::Button && button_held)),
{
    match mode {
        MouseMode::AnyEvent => true,
        MouseMode::Button => button_held,
        _ => false,
    }
}

/// The button code of a wheel step: 64 (up) or 65 (down) plus 4, 8, 16 for shift, alt
/// and control.
pub open spec fn wheel_code(down: bool, shift: bool, alt: bool, ctrl: bool) -> nat {
    (if down { 65nat } else { 64 }) + (if shift { 4nat } else { 0 }) + (if alt { 8nat } else { 0 }) + (if ctrl { 16nat } else { 0 })
}

/// The report of a wheel step at cell (`col`, `row`): SGR form
/// `ESC [ < code ; col+1 ; row+1 M`, or the legacy form with each value offset by 32 and
/// capped at 255.
pub open spec fn wheel_report_spec(down: bool, shift: bool, alt: bool, ctrl: bool, sgr: bool, col: nat, row: nat) -> Seq<u8> {
    let cb = wheel_code(down, shift, alt, ctrl);
    if sgr {
        seq![0x1bu8, 0x5b, 0x3c] + decimal(cb) + seq![0x3bu8] + decimal(col + 1) + seq![0x3bu8] + decimal(row + 1) + seq![0x4du8]
    } else {
        seq![0x1bu8, 0x5b, 0x4d, cap_byte(cb + 32), cap_byte(col + 33), cap_byte(row + 33)]
    }
}

pub open spec fn cap_byte(x: nat) -> u8 {
    if x > 255 { 255u8 } else { x as u8 }
}

fn wheel_code_exec(down: bool, shift: bool, alt: bool, ctrl: bool) -> (cb: usize)
    ensures
        cb == wheel_code(down, shift, alt, ctrl),
        cb <= 93,
{
    let mut cb: usize = if down { 65 } else { 64 };
    if shift {
        cb = cb + 4;
    }
    if alt {
        cb = cb + 8;
    }
    if ctrl {
        cb = cb + 16;
    }
    cb
}

fn sgr_wheel(cb: usize, col: usize, row: usize) -> (out: Vec<u8>)
    requires
        col + 1 <= usize::MAX,
        row + 1 <= usize::MAX,
    ensures
        out@ == seq![0x1bu8, 0x5b, 0x3c] + decimal(cb as nat) + seq![0x3bu8] + decimal((col + 1) as nat) + seq![0x3bu8] + decimal((row + 1) as nat) + seq![0x4du8],
{
    let mut out = vec![0x1bu8, 0x5b, 0x3c];
    push_decimal(&mut out, cb);
    out.push(0x3b);
    push_decimal(&mut out, col + 1);
    out.push(0x3b);
    push_decimal(&mut out, row + 1);
    out.push(0x4d);
    out
}

fn cap_exec(x: usize) -> (b: u8)
    ensures
        b == cap_byte(x as nat),
{
    if x > 255 { 255 } else { x as u8 }
}

/// The report of a wheel step (see [`wheel_report_spec`]).
pub fn wheel_report(down: bool, shift: bool, alt: bool, ctrl: bool, sgr: bool, col: usize, row: usize) -> (out: Vec<u8>)
    requires
        col + 33 <= usize::MAX,
        row + 33 <= usize::MAX,
    ensures
        out@ == wheel_report_spec(down, shift, alt, ctrl, sgr, col as nat, row as nat),
{
    let cb = wheel_code_exec(down, shift, alt, ctrl);
    if sgr {
        sgr_wheel(cb, col, row)
    } else {
        let out = vec![0x1bu8, 0x5b, 0x4d, cap_exec(cb + 32), cap_exec(col + 33), cap_exec(row + 33)];
        assert(out@ =~= seq![0x1bu8, 0x5b, 0x4d, cap_byte((cb + 32) as nat), cap_byte((col + 33) as nat), cap_byte((row + 33) as nat)]);
        out
    }
}

/// The scroll position after the wheel moves `rows` rows back (`up`) or forward: at
/// most the whole scrollback, at least the live screen.
pub open spec fn scrolled(offset: nat, rows: nat, up: bool, scrollback_len: nat) -> nat {
    if up {
        if offset + rows < scrollback_len { offset + rows } else { scrollback_len }
    } else {
        if offset >= rows { (offset - rows) as nat } else { 0 }
    }
}

pub fn scroll_offset_after(offset: usize, rows: usize, up: bool, scrollback_len: usize) -> (r: usize)
    ensures
        r == scrolled(offset as nat, rows as nat, up, scrollback_len as nat),
{
    if up {
        let n = offset.saturating_add(rows);
        if n < scrollback_len { n } else { scrollback_len }
    } else {
        offset.saturating_sub(rows)
    }
}

/// A selection end follows the text when the view scrolls by `delta` rows: its row moves
/// by the same amount, not above the first row.
pub open spec fn shifted_row(row: nat, old_offset: nat, new_offset: nat) -> nat {
    let r = row + new_offset - old_offset;
    if r < 0 { 0 } else { r as nat }
}

pub fn shift_selection_row(row: usize, old_offset: usize, new_offset: usize) -> (r: usize)
    requires
        row + new_offset <= usize::MAX,
    ensures
        r == shifted_row(row as nat, old_offset as nat, new_offset as nat),
{
    if row + new_offset >= old_offset { row + new_offset - old_offset } else { 0 }
}

/// Scrolling back and then forward by the same number of rows, where the scrollback is
/// long enough, returns to the same position.
pub proof fn law_scroll_round_trip(offset: nat, rows: nat, scrollback_len: nat)
    requires
        offset + rows <= scrollback_len,
    ensures
        scrolled(scrolled(offset, rows, true, scrollback_len), rows, false, scrollback_len) == offset,
{
}

/// The scroll position always stays within the scrollback.
pub proof fn law_scroll_bounded(offset: nat, rows: nat, up: bool, scrollback_len: nat)
    requires
        offset <= scrollback_len,
    ensures
        scrolled(offset, rows, up, scrollback_len) <= scrollback_len,
{
}

/// Palette navigation stays among the matching entries, and a step down followed by a
/// step up returns to the same entry.
pub proof fn law_palette_round_trip(selected: nat, count: nat)
    requires
        selected < count,
    ensures
        palette_step(selected, 1, count) < count,
        palette_step(palette_step(selected, 1, count), -1, count) == selected,
{
    vstd::arithmetic::div_mod::lemma_mod_bound((selected + 1) as int, count as int);
    if selected + 1 < count {
        vstd::arithmetic::div_mod::lemma_small_mod((selected + 1) as nat, count);
        vstd::arithmetic::div_mod::lemma_small_mod(selected, count);
    } else {
        vstd::arithmetic::div_mod::lemma_mod_self_0(count as int);
        assert(((0 + -1) as int) % (count as int) == count - 1) by {
            vstd::arithmetic::div_mod::lemma_fundamental_div_mod_converse(-1, count as int, -1, count - 1);
        }
    }
}

} // verus!
