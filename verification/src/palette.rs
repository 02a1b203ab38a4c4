//! The command palette: its commands and fuzzy filtering by label.
use vstd::prelude::*;
use crate::config::{ascii_lower, lower_char};
use crate::text::chars_of;

verus! {

/// Greedy in-order matching of the characters of `q` against `t`.
pub open spec fn greedy_match(q: Seq<char>, t: Seq<char>) -> bool
    decreases t.len(),
{
    if q.len() == 0 {
        true
    } else if t.len() == 0 {
        false
    } else if q[0] == t[0] {
        greedy_match(q.drop_first(), t.drop_first())
    } else {
        greedy_match(q, t.drop_first())
    }
}

/// Whether `q` can be had from `t` by deleting characters.
pub open spec fn is_subsequence(q: Seq<char>, t: Seq<char>) -> bool
    decreases t.len(),
{
    if q.len() == 0 {
        true
    } else if t.len() == 0 {
        false
    } else {
        (q[0] == t[0] && is_subsequence(q.drop_first(), t.drop_first())) || is_subsequence(q, t.drop_first())
    }
}

/// Whether a query matches a label: its characters appear in the label in order,
/// ignoring ASCII case.
pub open spec fn fuzzy_spec(query: Seq<char>, target: Seq<char>) -> bool {
    greedy_match(ascii_lower(query), ascii_lower(target))
}

proof fn lemma_subsequence_drop_query(q: Seq<char>, t: Seq<char>)
    requires
        q.len() > 0,
        is_subsequence(q, t),
    ensures
        is_subsequence(q.drop_first(), t),
    decreases t.len(),
{
    if t.len() > 0 {
        if q[0] == t[0] && is_subsequence(q.drop_first(), t.drop_first()) {
            if q.drop_first().len() > 0 {
                lemma_subsequence_drop_query(q.drop_first(), t.drop_first());
            }
        } else {
            lemma_subsequence_drop_query(q, t.drop_first());
        }
    }
}

/// Greedy matching finds a match exactly when the query is a subsequence of the target.
pub proof fn lemma_greedy_is_subsequence(q: Seq<char>, t: Seq<char>)
    ensures
        greedy_match(q, t) == is_subsequence(q, t),
    decreases t.len(),
{
    if q.len() > 0 && t.len() > 0 {
        lemma_greedy_is_subsequence(q.drop_first(), t.drop_first());
        lemma_greedy_is_subsequence(q, t.drop_first());
        if q[0] == t[0] && is_subsequence(q, t.drop_first()) {
            lemma_subsequence_drop_query(q, t.drop_first());
        }
    }
}

/// A query matches a label exactly when, in ASCII lower case, it is a subsequence of
/// the label; in particular the empty query matches everything.
pub proof fn law_fuzzy_is_subsequence(query: Seq<char>, target: Seq<char>)
    ensures
        fuzzy_spec(query, target) == is_subsequence(ascii_lower(query), ascii_lower(target)),
        query.len() == 0 ==> fuzzy_spec(query, target),
{
    lemma_greedy_is_subsequence(ascii_lower(query), ascii_lower(target));
}

/// Whether `query` matches `target` (see [`fuzzy_spec`]).
pub fn fuzzy(query: &str, target: &str) -> (r: bool)
    ensures
        r == fuzzy_spec(query@, target@),
{
    let q = chars_of(query);
    let t = chars_of(target);
    let ghost lq = ascii_lower(q@);
    let ghost lt = ascii_lower(t@);
    if q.len() == 0 {
        return true;
    }
    let qn = q.len();
    let mut qi: usize = 0;
    let mut ti: usize = 0;
    assert(lq.skip(0) =~= lq);
    assert(lt.skip(0) =~= lt);
    while ti < t.len()
        invariant
            qi < q@.len(),
            qn == q@.len(),
            q@ == query@,
            t@ == target@,
            ti <= t@.len(),
            lq == ascii_lower(q@),
            lt == ascii_lower(t@),
            greedy_match(lq.skip(qi as int), lt.skip(ti as int)) == greedy_match(lq, lt),
        decreases t@.len() - ti,
    {
        let a = q[qi];
        let b = t[ti];
        let la = if 'A' <= a && a <= 'Z' { ((a as u8) + 32) as char } else { a };
        let lb = if 'A' <= b && b <= 'Z' { ((b as u8) + 32) as char } else { b };
        assert(la == lq[qi as int] && lb == lt[ti as int]);
        assert(lq.skip(qi as int).drop_first() =~= lq.skip(qi + 1));
        assert(lt.skip(ti as int).drop_first() =~= lt.skip(ti + 1));
        let ghost g0 = greedy_match(lq.skip(qi as int), lt.skip(ti as int));
        if la == lb {
            qi = qi + 1;
        }
        ti = ti + 1;
        assert(greedy_match(lq.skip(qi as int), lt.skip(ti as int)) == g0);
        if qi == qn {
            assert(lq.skip(qi as int).len() == 0);
            return true;
        }
    }
    assert(lt.skip(ti as int).len() == 0);
    false
}

/// The label of palette command `i`.
pub open spec fn label_of(i: int) -> Seq<char> {
    if i == 0 { seq!['A', 's', 'k', ' ', 'A', 'I'] }
    else if i == 1 { seq!['E', 'x', 'p', 'l', 'a', 'i', 'n', ' ', 'E', 'r', 'r', 'o', 'r'] }
    else if i == 2 { seq!['N', 'e', 'w', ' ', 'T', 'a', 'b'] }
    else { seq!['S', 'e', 't', 't', 'i', 'n', 'g', 's'] }
}

/// The id of palette command `i`.
pub open spec fn id_of(i: int) -> Seq<char> {
    if i == 0 { seq!['a', 's', 'k', '_', 'a', 'i'] }
    else if i == 1 { seq!['e', 'x', 'p', 'l', 'a', 'i', 'n', '_', 'e', 'r', 'r', 'o', 'r'] }
    else if i == 2 { seq!['n', 'e', 'w', '_', 't', 'a', 'b'] }
    else { seq!['s', 'e', 't', 't', 'i', 'n', 'g', 's'] }
}

/// The number of palette commands.
pub open spec fn command_count() -> nat {
    4
}

/// The indices of the commands from `i` on whose labels match `query`, in order.
pub open spec fn matching_from(query: Seq<char>, i: nat) -> Seq<nat>
    decreases command_count() - i,
{
    if i >= command_count() {
        Seq::empty()
    } else if fuzzy_spec(query, label_of(i as int)) {
        seq![i] + matching_from(query, i + 1)
    } else {
        matching_from(query, i + 1)
    }
}

pub fn command_label(i: usize) -> (s: &'static str)
    requires
        i < 4,
    ensures
        s@ == label_of(i as int),
{
    proof {
        reveal_strlit("Ask AI");
        reveal_strlit("Explain Error");
        reveal_strlit("New Tab");
        reveal_strlit("Settings");
    }
    if i == 0 {
        let s = "Ask AI";
        assert(s@ =~= label_of(0));
        s
    } else if i == 1 {
        let s = "Explain Error";
        assert(s@ =~= label_of(1));
        s
    } else if i == 2 {
        let s = "New Tab";
        assert(s@ =~= label_of(2));
        s
    } else {
        let s = "Settings";
        assert(s@ =~= label_of(3));
        s
    }
}

pub fn command_id(i: usize) -> (s: &'static str)
    requires
        i < 4,
    ensures
        s@ == id_of(i as int),
{
    proof {
        reveal_strlit("ask_ai");
        reveal_strlit("explain_error");
        reveal_strlit("new_tab");
        reveal_strlit("settings");
    }
    if i == 0 {
        let s = "ask_ai";
        assert(s@ =~= id_of(0));
        s
    } else if i == 1 {
        let s = "explain_error";
        assert(s@ =~= id_of(1));
        s
    } else if i == 2 {
        let s = "new_tab";
        assert(s@ =~= id_of(2));
        s
    } else {
        let s = "settings";
        assert(s@ =~= id_of(3));
        s
    }
}

/// The indices of the commands whose labels match `query`, in palette order.
pub fn filtered(query: &str) -> (out: Vec<usize>)
    ensures
        out@.map_values(|i: usize| i as nat) == matching_from(query@, 0),
        forall|k: int| 0 <= k < out@.len() ==> #[trigger] out@[k] < 4,
{
    let mut out: Vec<usize> = Vec::new();
    let mut i: usize = 0;
    while i < 4
        invariant
            i <= 4,
            out@.map_values(|i: usize| i as nat) + matching_from(query@, i as nat) == matching_from(query@, 0),
            forall|k: int| 0 <= k < out@.len() ==> #[trigger] out@[k] < 4,
        decreases 4 - i,
    {
        let ghost before = out@.map_values(|i: usize| i as nat);
        if fuzzy(query, command_label(i)) {
            out.push(i);
            assert(out@.map_values(|i: usize| i as nat) =~= before.push(i as nat));
        }
        assert(out@.map_values(|i: usize| i as nat) + matching_from(query@, (i + 1) as nat) =~= before + matching_from(query@, i as nat));
        i = i + 1;
    }
    assert(out@.map_values(|i: usize| i as nat) + matching_from(query@, 4) =~= out@.map_values(|i: usize| i as nat));
    out
}

/// How many commands match `query`.
pub fn palette_filtered_count(query: &str) -> (n: usize)
    ensures
        n == matching_from(query@, 0).len(),
{
    let v = filtered(query);
    assert(v@.map_values(|i: usize| i as nat).len() == v@.len());
    v.len()
}

/// The id of the `selected`-th command matching `query`.
pub fn palette_command_id_at(query: &str, selected: usize) -> (r: Option<&'static str>)
    ensures
        match r {
            Some(s) => selected < matching_from(query@, 0).len() && s@ == id_of(matching_from(query@, 0)[selected as int] as int),
            None => selected >= matching_from(query@, 0).len(),
        },
{
    let v = filtered(query);
    assert(v@.map_values(|i: usize| i as nat).len() == v@.len());
    if selected < v.len() {
        assert(v@.map_values(|i: usize| i as nat)[selected as int] == v@[selected as int] as nat);
        Some(command_id(v[selected]))
    } else {
        None
    }
}


proof fn lemma_subsequence_prefix(a: Seq<char>, b: Seq<char>, t: Seq<char>)
    requires
        is_subsequence(a + b, t),
    ensures
        is_subsequence(a, t),
    decreases t.len(),
{
    if a.len() > 0 && t.len() > 0 {
        let ab = a + b;
        assert(ab[0] == a[0]);
        assert(ab.drop_first() =~= a.drop_first() + b);
        if ab[0] == t[0] && is_subsequence(ab.drop_first(), t.drop_first()) {
            lemma_subsequence_prefix(a.drop_first(), b, t.drop_first());
        } else {
            lemma_subsequence_prefix(a, b, t.drop_first());
        }
    }
}

proof fn lemma_fuzzy_prefix(q: Seq<char>, s: Seq<char>, t: Seq<char>)
    requires
        fuzzy_spec(q + s, t),
    ensures
        fuzzy_spec(q, t),
{
    lemma_greedy_is_subsequence(ascii_lower(q + s), ascii_lower(t));
    lemma_greedy_is_subsequence(ascii_lower(q), ascii_lower(t));
    assert(ascii_lower(q + s) =~= ascii_lower(q) + ascii_lower(s));
    lemma_subsequence_prefix(ascii_lower(q), ascii_lower(s), ascii_lower(t));
}

proof fn lemma_matching_prefix(q: Seq<char>, s: Seq<char>, i: nat)
    ensures
        matching_from(q + s, i).len() <= matching_from(q, i).len(),
        forall|k: int| 0 <= k < matching_from(q + s, i).len()
            ==> matching_from(q, i).contains(#[trigger] matching_from(q + s, i)[k]),
    decreases command_count() - i,
{
    if i < command_count() {
        lemma_matching_prefix(q, s, i + 1);
        if fuzzy_spec(q + s, label_of(i as int)) {
            lemma_fuzzy_prefix(q, s, label_of(i as int));
        }
        let a = matching_from(q + s, i);
        let b = matching_from(q, i);
        let a1 = matching_from(q + s, i + 1);
        let b1 = matching_from(q, i + 1);
        assert forall|k: int| 0 <= k < a.len() implies b.contains(#[trigger] a[k]) by {
            if fuzzy_spec(q + s, label_of(i as int)) {
                if k == 0 {
                    assert(b[0] == i);
                } else {
                    assert(a[k] == a1[k - 1]);
                    assert(b1.contains(a1[k - 1]));
                    let j = choose|j: int| 0 <= j < b1.len() && b1[j] == a1[k - 1];
                    assert(b[j + 1] == b1[j]);
                }
            } else {
                assert(a[k] == a1[k]);
                assert(b1.contains(a1[k]));
                if fuzzy_spec(q, label_of(i as int)) {
                    let j = choose|j: int| 0 <= j < b1.len() && b1[j] == a1[k];
                    assert(b[j + 1] == b1[j]);
                }
            }
        }
    }
}

proof fn lemma_matching_same_lower(q: Seq<char>, q2: Seq<char>, i: nat)
    requires
        ascii_lower(q) == ascii_lower(q2),
    ensures
        matching_from(q, i) == matching_from(q2, i),
    decreases command_count() - i,
{
    if i < command_count() {
        lemma_matching_same_lower(q, q2, i + 1);
    }
}

/// Upper case of the ASCII letters of a text.
pub open spec fn ascii_upper(s: Seq<char>) -> Seq<char> {
    s.map_values(|c: char| if 'a' <= c && c <= 'z' { ((c as u8) - 32) as char } else { c })
}

/// Typing more of a query never lets more commands match: every command that matches
/// the longer query matches the shorter one. Case does not matter: queries that agree in
/// ASCII lower case (such as a query and its upper case) match the same commands. The
/// empty query matches all four commands, in palette order.
pub proof fn law_palette_query_narrows(q: Seq<char>, s: Seq<char>, q2: Seq<char>)
    ensures
        matching_from(q + s, 0).len() <= matching_from(q, 0).len(),
        forall|k: int| 0 <= k < matching_from(q + s, 0).len()
            ==> matching_from(q, 0).contains(#[trigger] matching_from(q + s, 0)[k]),
        ascii_lower(q) == ascii_lower(q2) ==> matching_from(q, 0) == matching_from(q2, 0),
        matching_from(q, 0) == matching_from(ascii_upper(q), 0),
        matching_from(Seq::empty(), 0) == seq![0nat, 1, 2, 3],
{
    lemma_matching_prefix(q, s, 0);
    if ascii_lower(q) == ascii_lower(q2) {
        lemma_matching_same_lower(q, q2, 0);
    }
    assert forall|k: int| 0 <= k < q.len() implies #[trigger] ascii_lower(ascii_upper(q))[k] == ascii_lower(q)[k] by {
        let c = q[k];
        if 'a' <= c && c <= 'z' {
            assert(((c as u8) - 32) as char == ascii_upper(q)[k]);
            assert((((c as u8) - 32) as char) as u8 == (c as u8) - 32);
        }
    }
    assert(ascii_lower(ascii_upper(q)) =~= ascii_lower(q));
    lemma_matching_same_lower(q, ascii_upper(q), 0);
    let e: Seq<char> = Seq::empty();
    assert(ascii_lower(e) =~= e);
    assert(matching_from(e, 4) == Seq::<nat>::empty());
    assert(matching_from(e, 3) =~= seq![3nat]);
    assert(matching_from(e, 2) =~= seq![2nat, 3]);
    assert(matching_from(e, 1) =~= seq![1nat, 2, 3]);
    assert(matching_from(e, 0) =~= seq![0nat, 1, 2, 3]);
}

/// What confirming a palette command does.
#[derive(Clone, Copy, Debug, PartialEq, Eq, Structural)]
pub enum PaletteAction {
    OpenAskAi,
    ExplainError,
    NewTab,
    OpenSettings,
}

/// The action of the command at palette position `i`: `ask_ai` opens the assistant,
/// `explain_error` explains the last output, `new_tab` opens a tab, `settings` opens the
/// settings.
pub open spec fn action_of(i: int) -> PaletteAction {
    if i == 0 {
        PaletteAction::OpenAskAi
    } else if i == 1 {
        PaletteAction::ExplainError
    } else if i == 2 {
        PaletteAction::NewTab
    } else {
        PaletteAction::OpenSettings
    }
}

/// The action of confirming the `selected`-th command matching `query`; `None` when
/// fewer commands match.
pub fn palette_action_at(query: &str, selected: usize) -> (r: Option<PaletteAction>)
    ensures
        match r {
            Some(a) => selected < matching_from(query@, 0).len() && a == action_of(matching_from(query@, 0)[selected as int] as int),
            None => selected >= matching_from(query@, 0).len(),
        },
{
    let v = filtered(query);
    assert(v@.map_values(|i: usize| i as nat).len() == v@.len());
    if selected < v.len() {
        assert(v@.map_values(|i: usize| i as nat)[selected as int] == v@[selected as int] as nat);
        let i = v[selected];
        Some(if i == 0 {
            PaletteAction::OpenAskAi
        } else if i == 1 {
            PaletteAction::ExplainError
        } else if i == 2 {
            PaletteAction::NewTab
        } else {
            PaletteAction::OpenSettings
        })
    } else {
        None
    }
}

} // verus!
