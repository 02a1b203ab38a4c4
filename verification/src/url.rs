//! Detection of URLs in a row of cells: OSC 8 hyperlinks and plain `http://` or
//! `https://` text.
use vstd::prelude::*;
use crate::ext::{char_is_whitespace, unicode_whitespace};
use crate::grid::{cells_view, Cell, CellView, LinkView};
use crate::text::push_chars;

verus! {

/// Characters that end a plain URL: whitespace, quotes, angle brackets and closing
/// brackets.
pub open spec fn url_terminator(c: char) -> bool {
    unicode_whitespace(c) || c == '"' || c == '\'' || c == '<' || c == '>' || c == ')' || c == ']'
}

/// The character a cell stands for when scanning text: its first character, or a
/// space for an empty cell.
pub open spec fn lead_char(c: CellView) -> char {
    if c.text.len() > 0 { c.text[0] } else { ' ' }
}

/// The first index from `i` on whose cell ends a URL, or the length of the row.
pub open spec fn term_end(cells: Seq<CellView>, i: int) -> int
    decreases cells.len() - i,
{
    if i >= cells.len() || i < 0 || url_terminator(lead_char(cells[i])) {
        i
    } else {
        term_end(cells, i + 1)
    }
}

/// The first index from `i` on whose cell does not carry the hyperlink `l`.
pub open spec fn link_end(cells: Seq<CellView>, i: int, l: LinkView) -> int
    decreases cells.len() - i,
{
    if i >= cells.len() || i < 0 || cells[i].link != Some(l) {
        i
    } else {
        link_end(cells, i + 1, l)
    }
}

/// The texts of cells `from..to`, joined.
pub open spec fn joined_text(cells: Seq<CellView>, from: int, to: int) -> Seq<char>
    decreases to - from,
{
    if to <= from {
        Seq::empty()
    } else {
        joined_text(cells, from, to - 1) + cells[to - 1].text
    }
}

/// Whether the lead characters of the cells from `i` spell `word`.
pub open spec fn spells(cells: Seq<CellView>, i: int, word: Seq<char>) -> bool {
    i + word.len() <= cells.len()
        && forall|k: int| 0 <= k < word.len() ==> #[trigger] lead_char(cells[i + k]) == word[k]
}

pub open spec fn https_word() -> Seq<char> {
    seq!['h', 't', 't', 'p', 's', ':', '/', '/']
}

pub open spec fn http_word() -> Seq<char> {
    seq!['h', 't', 't', 'p', ':', '/', '/']
}

/// The length of the scheme prefix a URL starts with at `i`: 8 for `https://`, 7 for
/// `http://`, else 0.
pub open spec fn scheme_len(cells: Seq<CellView>, i: int) -> int {
    if lead_char(cells[i]) == 'h' {
        if spells(cells, i, https_word()) { 8 } else if spells(cells, i, http_word()) { 7 } else { 0 }
    } else {
        0
    }
}

/// The URLs found from index `i` on: each as its first and last column and its text.
/// A run of cells carrying the same hyperlink is one URL with the hyperlink's target;
/// otherwise a scheme followed by at least one non-terminator character is a plain URL
/// running to the next terminator.
pub open spec fn urls_from(cells: Seq<CellView>, i: int) -> Seq<(nat, nat, Seq<char>)>
    decreases cells.len() - i,
{
    if i < 0 || i >= cells.len() {
        Seq::empty()
    } else {
        match cells[i].link {
            Some(l) => {
                let j = link_end(cells, i, l);
                if i < j <= cells.len() {
                    seq![(i as nat, (j - 1) as nat, l.uri)] + urls_from(cells, j)
                } else {
                    Seq::empty()
                }
            },
            None => {
                let p = scheme_len(cells, i);
                if p == 0 {
                    urls_from(cells, i + 1)
                } else {
                    let end = term_end(cells, i + p);
                    if i + p < end <= cells.len() {
                        seq![(i as nat, (end - 1) as nat, joined_text(cells, i, end))] + urls_from(cells, end)
                    } else {
                        urls_from(cells, i + 1)
                    }
                }
            },
        }
    }
}

pub open spec fn url_entries_view(v: Seq<(usize, usize, String)>) -> Seq<(nat, nat, Seq<char>)> {
    v.map_values(|e: (usize, usize, String)| (e.0 as nat, e.1 as nat, e.2@))
}

pub proof fn lemma_term_end_bounds(cells: Seq<CellView>, i: int)
    requires
        0 <= i <= cells.len(),
    ensures
        i <= term_end(cells, i) <= cells.len(),
        forall|k: int| i <= k < term_end(cells, i) ==> !url_terminator(#[trigger] lead_char(cells[k])),
        term_end(cells, i) < cells.len() ==> url_terminator(lead_char(cells[term_end(cells, i)])),
    decreases cells.len() - i,
{
    if i < cells.len() && !url_terminator(lead_char(cells[i])) {
        lemma_term_end_bounds(cells, i + 1);
    }
}

pub proof fn lemma_link_end_bounds(cells: Seq<CellView>, i: int, l: LinkView)
    requires
        0 <= i <= cells.len(),
    ensures
        i <= link_end(cells, i, l) <= cells.len(),
    decreases cells.len() - i,
{
    if i < cells.len() && cells[i].link == Some(l) {
        lemma_link_end_bounds(cells, i + 1, l);
    }
}

/// The first character of a cell's text, or a space.
pub fn cell_lead_char(cell: &Cell) -> (c: char)
    ensures
        c == lead_char(cell@),
{
    let s = cell.c.as_str();
    if s.unicode_len() > 0 { s.get_char(0) } else { ' ' }
}

/// Whether `c` ends a plain URL (see [`url_terminator`]).
pub fn is_url_terminator(c: char) -> (r: bool)
    ensures
        r == url_terminator(c),
{
    char_is_whitespace(c) || c == '"' || c == '\'' || c == '<' || c == '>' || c == ')' || c == ']'
}

fn term_end_exec(cells: &[Cell], from: usize) -> (end: usize)
    requires
        from <= cells@.len(),
    ensures
        end as int == term_end(cells_view(cells@), from as int),
{
    let ghost cv = cells_view(cells@);
    let mut end = from;
    while end < cells.len() && !is_url_terminator(cell_lead_char(&cells[end]))
        invariant
            from <= end <= cells@.len(),
            cv == cells_view(cells@),
            term_end(cv, end as int) == term_end(cv, from as int),
        decreases cells@.len() - end,
    {
        end = end + 1;
    }
    end
}

/// How many cells at the start of a row continue a URL from the row above: the cells
/// before the first terminator.
pub fn url_continuation_len(cells: &[Cell]) -> (n: usize)
    ensures
        n as int == term_end(cells_view(cells@), 0),
{
    term_end_exec(cells, 0)
}

fn link_end_exec(cells: &[Cell], from: usize, l: &crate::grid::Hyperlink) -> (end: usize)
    requires
        from <= cells@.len(),
    ensures
        end as int == link_end(cells_view(cells@), from as int, l@),
{
    let ghost cv = cells_view(cells@);
    let mut end = from;
    while end < cells.len() && same_link(&cells[end].uri, l)
        invariant
            from <= end <= cells@.len(),
            cv == cells_view(cells@),
            link_end(cv, end as int, l@) == link_end(cv, from as int, l@),
        decreases cells@.len() - end,
    {
        end = end + 1;
    }
    end
}

/// Whether a cell carries the hyperlink `l` (the same link, not merely the same target).
fn same_link(a: &Option<crate::grid::Hyperlink>, l: &crate::grid::Hyperlink) -> (r: bool)
    ensures
        r == (crate::grid::link_opt_view(*a) == Some(l@)),
{
    match a {
        Some(h) => {
            if h.id != l.id {
                return false;
            }
            let x = crate::text::chars_of(h.uri.as_str());
            let y = crate::text::chars_of(l.uri.as_str());
            if crate::text::chars_equal(x.as_slice(), y.as_slice()) {
                proof {
                    assert(h@ =~= l@);
                }
                true
            } else {
                false
            }
        },
        None => false,
    }
}

fn spells_exec(cells: &[Cell], i: usize, word: &[char]) -> (r: bool)
    ensures
        r == spells(cells_view(cells@), i as int, word@),
{
    let n = cells.len();
    if word.len() > n || i > n - word.len() {
        return false;
    }
    let mut k: usize = 0;
    while k < word.len()
        invariant
            n == cells@.len(),
            i + word@.len() <= cells@.len(),
            k <= word@.len(),
            forall|q: int| 0 <= q < k ==> #[trigger] lead_char(cells_view(cells@)[i + q]) == word@[q],
        decreases word@.len() - k,
    {
        if cell_lead_char(&cells[i + k]) != word[k] {
            assert(cells_view(cells@)[i + k as int] == cells@[i + k as int]@);
            assert(lead_char(cells_view(cells@)[i + k as int]) != word@[k as int]);
            return false;
        }
        k = k + 1;
    }
    true
}

fn scheme_len_exec(cells: &[Cell], i: usize) -> (p: usize)
    requires
        i < cells@.len(),
    ensures
        p as int == scheme_len(cells_view(cells@), i as int),
{
    if cell_lead_char(&cells[i]) == 'h' {
        let https = ['h', 't', 't', 'p', 's', ':', '/', '/'];
        let http = ['h', 't', 't', 'p', ':', '/', '/'];
        assert(https@ =~= https_word());
        assert(http@ =~= http_word());
        if spells_exec(cells, i, &https) {
            8
        } else if spells_exec(cells, i, &http) {
            7
        } else {
            0
        }
    } else {
        0
    }
}

/// The texts of `cells[from..to]`, joined.
pub fn joined_cells_text(cells: &[Cell], from: usize, to: usize) -> (s: String)
    requires
        from <= to <= cells@.len(),
    ensures
        s@ == joined_text(cells_view(cells@), from as int, to as int),
{
    let mut s = String::new();
    let mut k = from;
    while k < to
        invariant
            from <= k <= to <= cells@.len(),
            s@ == joined_text(cells_view(cells@), from as int, k as int),
        decreases to - k,
    {
        let t = crate::text::chars_of(cells[k].c.as_str());
        push_chars(&mut s, t.as_slice());
        k = k + 1;
    }
    s
}

/// All URLs in a row (see [`urls_from`]).
pub fn detect_urls(cells: &[Cell]) -> (out: Vec<(usize, usize, String)>)
    ensures
        url_entries_view(out@) == urls_from(cells_view(cells@), 0),
{
    let ghost cv = cells_view(cells@);
    let n = cells.len();
    let mut out: Vec<(usize, usize, String)> = Vec::new();
    let mut i: usize = 0;
    while i < n
        invariant
            n == cells@.len(),
            cv == cells_view(cells@),
            i <= n,
            url_entries_view(out@) + urls_from(cv, i as int) == urls_from(cv, 0),
        decreases n - i,
    {
        let ghost before = out@;
        match &cells[i].uri {
            Some(l) => {
                let j = link_end_exec(cells, i, l);
                proof {
                    assert(cv[i as int].link == Some(l@));
                    lemma_link_end_bounds(cv, i + 1, l@);
                }
                let text = l.uri.clone();
                out.push((i, j - 1, text));
                proof {
                    assert(url_entries_view(out@) =~= url_entries_view(before).push((i as nat, (j - 1) as nat, l@.uri)));
                    assert(url_entries_view(out@) + urls_from(cv, j as int) =~= url_entries_view(before) + urls_from(cv, i as int));
                }
                i = j;
            },
            None => {
                let p = scheme_len_exec(cells, i);
                if p == 0 {
                    i = i + 1;
                } else {
                    proof {
                        assert(spells(cv, i as int, https_word()) || spells(cv, i as int, http_word()));
                    }
                    proof {
                        lemma_term_end_bounds(cv, i + p);
                    }
                    let end = term_end_exec(cells, i + p);
                    if end > i + p {
                        let text = joined_cells_text(cells, i, end);
                        out.push((i, end - 1, text));
                        proof {
                            assert(url_entries_view(out@) =~= url_entries_view(before).push((i as nat, (end - 1) as nat, joined_text(cv, i as int, end as int))));
                            assert(url_entries_view(out@) + urls_from(cv, end as int) =~= url_entries_view(before) + urls_from(cv, i as int));
                        }
                        i = end;
                    } else {
                        i = i + 1;
                    }
                }
            },
        }
    }
    assert(url_entries_view(out@) + urls_from(cv, n as int) =~= url_entries_view(out@));
    out
}


/// Entries that start at `lo` or later, end before `n`, span at least one cell each and
/// come left to right without overlapping.
pub open spec fn urls_in_order(v: Seq<(nat, nat, Seq<char>)>, lo: int, n: int) -> bool {
    &&& forall|k: int| 0 <= k < v.len() ==> lo <= #[trigger] v[k].0 <= v[k].1 < n
    &&& forall|k: int| 0 <= k < v.len() - 1 ==> #[trigger] v[k].1 < v[k + 1].0
}

proof fn lemma_cons_in_order(e: (nat, nat, Seq<char>), rest: Seq<(nat, nat, Seq<char>)>, lo: int, n: int)
    requires
        lo <= e.0 <= e.1 < n,
        urls_in_order(rest, e.1 + 1int, n),
    ensures
        urls_in_order(seq![e] + rest, lo, n),
{
    let v = seq![e] + rest;
    assert forall|k: int| 0 <= k < v.len() implies lo <= #[trigger] v[k].0 <= v[k].1 < n by {
        if k > 0 {
            assert(v[k] == rest[k - 1]);
        }
    }
    assert forall|k: int| 0 <= k < v.len() - 1 implies #[trigger] v[k].1 < v[k + 1].0 by {
        assert(v[k + 1] == rest[k]);
        if k > 0 {
            assert(v[k] == rest[k - 1]);
        }
    }
}

/// The URLs found in a row lie within the row, each spans at least one cell, and they
/// come left to right without overlapping.
pub proof fn law_urls_ordered(cells: Seq<CellView>, i: int)
    requires
        0 <= i,
    ensures
        urls_in_order(urls_from(cells, i), i, cells.len() as int),
    decreases cells.len() - i,
{
    if i < cells.len() {
        match cells[i].link {
            Some(l) => {
                let j = link_end(cells, i, l);
                if i < j <= cells.len() {
                    law_urls_ordered(cells, j);
                    lemma_cons_in_order((i as nat, (j - 1) as nat, l.uri), urls_from(cells, j), i, cells.len() as int);
                }
            },
            None => {
                let p = scheme_len(cells, i);
                if p == 0 {
                    law_urls_ordered(cells, i + 1);
                } else {
                    let end = term_end(cells, i + p);
                    if i + p < end <= cells.len() {
                        law_urls_ordered(cells, end);
                        lemma_cons_in_order((i as nat, (end - 1) as nat, joined_text(cells, i, end)), urls_from(cells, end), i, cells.len() as int);
                    } else {
                        law_urls_ordered(cells, i + 1);
                    }
                }
            },
        }
    }
}


/// A plain URL found at `(s, e)` in a row: it starts with `http://` or `https://`, none
/// of its cells shows a whitespace, quote, angle bracket, `)` or `]`, and the cell after
/// it, if any, shows one of them.
pub open spec fn plain_url_bounds(cells: Seq<CellView>, s: int, e: int) -> bool {
    &&& (spells(cells, s, https_word()) || spells(cells, s, http_word()))
    &&& forall|j: int| s <= j <= e ==> {
        let c = #[trigger] lead_char(cells[j]);
        !(unicode_whitespace(c) || c == '"' || c == '\'' || c == '<' || c == '>' || c == ')' || c == ']')
    }
    &&& e + 1 < cells.len() ==> {
        let c = lead_char(cells[e + 1]);
        unicode_whitespace(c) || c == '"' || c == '\'' || c == '<' || c == '>' || c == ')' || c == ']'
    }
}

/// Every plain URL found in a row (one not carried by a hyperlink) starts with its
/// scheme and runs to just before the first whitespace, quote, angle bracket, `)` or
/// `]`: it contains none of them, and the cell after it shows one (or the row ends).
pub proof fn law_plain_url_ends(cells: Seq<CellView>, i: int)
    requires
        0 <= i,
    ensures
        forall|k: int| 0 <= k < urls_from(cells, i).len() && cells[urls_from(cells, i)[k].0 as int].link is None
            ==> plain_url_bounds(cells, #[trigger] urls_from(cells, i)[k].0 as int, urls_from(cells, i)[k].1 as int),
    decreases cells.len() - i,
{
    if i < cells.len() {
        match cells[i].link {
            Some(l) => {
                let j = link_end(cells, i, l);
                lemma_link_end_bounds(cells, i, l);
                if i < j <= cells.len() {
                    law_plain_url_ends(cells, j);
                    let u = urls_from(cells, i);
                    let rest = urls_from(cells, j);
                    assert forall|k: int| 0 <= k < u.len() && cells[u[k].0 as int].link is None
                        implies plain_url_bounds(cells, #[trigger] u[k].0 as int, u[k].1 as int) by {
                        if k == 0 {
                            assert(u[0].0 == i);
                        } else {
                            assert(u[k] == rest[k - 1]);
                        }
                    }
                }
            },
            None => {
                let p = scheme_len(cells, i);
                if p == 0 {
                    law_plain_url_ends(cells, i + 1);
                } else {
                    let end = term_end(cells, i + p);
                    if i + p < end <= cells.len() {
                        law_plain_url_ends(cells, end);
                        lemma_plain_url_head(cells, i, p);
                        let u = urls_from(cells, i);
                        let rest = urls_from(cells, end);
                        assert forall|k: int| 0 <= k < u.len() && cells[u[k].0 as int].link is None
                            implies plain_url_bounds(cells, #[trigger] u[k].0 as int, u[k].1 as int) by {
                            if k == 0 {
                                assert(u[0].0 == i && u[0].1 == end - 1);
                            } else {
                                assert(u[k] == rest[k - 1]);
                            }
                        }
                    } else {
                        law_plain_url_ends(cells, i + 1);
                    }
                }
            },
        }
    }
}

proof fn lemma_plain_url_head(cells: Seq<CellView>, i: int, p: int)
    requires
        0 <= i < cells.len(),
        p == scheme_len(cells, i),
        p != 0,
        i + p < term_end(cells, i + p) <= cells.len(),
    ensures
        plain_url_bounds(cells, i, term_end(cells, i + p) - 1),
{
    let end = term_end(cells, i + p);
    lemma_term_end_bounds(cells, i + p);
    let w = if p == 8 { https_word() } else { http_word() };
    assert(spells(cells, i, w));
    assert forall|j: int| i <= j <= end - 1 implies {
        let c = #[trigger] lead_char(cells[j]);
        !(unicode_whitespace(c) || c == '"' || c == '\'' || c == '<' || c == '>' || c == ')' || c == ']')
    } by {
        if j < i + p {
            assert(lead_char(cells[i + (j - i)]) == w[j - i]);
        } else {
            assert(!url_terminator(lead_char(cells[j])));
        }
    }
    if end < cells.len() {
        assert(url_terminator(lead_char(cells[end])));
    }
}

} // verus!
