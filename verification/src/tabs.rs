//! The tab strip: which terminal tabs are open, in order, and which one is active.
use vstd::prelude::*;

verus! {

/// The open tabs by id, in display order, with the active one and the id the next tab
/// gets.
pub struct TabStrip {
    pub ids: Vec<usize>,
    pub active: usize,
    pub next_id: usize,
}

/// The tab after `a` of `n`, wrapping round.
pub open spec fn next_index(a: nat, n: nat) -> nat {
    if n == 0 { a } else { (a + 1) % n }
}

/// The tab before `a` of `n`, wrapping round.
pub open spec fn prev_index(a: nat, n: nat) -> nat {
    if n == 0 { a } else if a == 0 { (n - 1) as nat } else { (a - 1) as nat }
}

impl TabStrip {
    /// At least one tab is open and the active one is among them; ids increase from left
    /// to right and are all below `next_id`, so no two tabs share an id.
    pub open spec fn wf(&self) -> bool {
        &&& self.ids@.len() >= 1
        &&& self.active < self.ids@.len()
        &&& forall|i: int, j: int| 0 <= i < j < self.ids@.len() ==> self.ids@[i] < self.ids@[j]
        &&& forall|i: int| 0 <= i < self.ids@.len() ==> self.ids@[i] < self.next_id
    }

    /// One tab, numbered 0, active; the next tab is numbered 1.
    pub fn new() -> (s: TabStrip)
        ensures
            s.wf(),
            s.ids@ == seq![0usize],
            s.active == 0,
            s.next_id == 1,
    {
        TabStrip { ids: vec![0], active: 0, next_id: 1 }
    }

    /// The id of the active tab.
    pub fn active_id(&self) -> (id: usize)
        requires
            self.wf(),
        ensures
            id == self.ids@[self.active as int],
    {
        self.ids[self.active]
    }

    /// Open a tab at the end and make it active; gives its id.
    pub fn open_tab(&mut self) -> (id: usize)
        requires
            old(self).wf(),
            old(self).next_id < usize::MAX,
        ensures
            final(self).wf(),
            id == old(self).next_id,
            final(self).ids@ == old(self).ids@.push(id),
            final(self).active == old(self).ids@.len(),
            final(self).next_id == old(self).next_id + 1,
    {
        let id = self.next_id;
        self.next_id = self.next_id + 1;
        self.ids.push(id);
        self.active = self.ids.len() - 1;
        id
    }

    /// Make tab `index` active, when there is such a tab.
    pub fn switch_tab(&mut self, index: usize)
        requires
            old(self).wf(),
        ensures
            final(self).wf(),
            final(self).ids@ == old(self).ids@,
            final(self).next_id == old(self).next_id,
            final(self).active == (if index < old(self).ids@.len() { index } else { old(self).active }),
    {
        if index < self.ids.len() {
            self.active = index;
        }
    }

    /// Close tab `index`. Closing the last tab opens a fresh one; otherwise the active
    /// position stays, moved back when it fell off the end.
    pub fn close_tab(&mut self, index: usize)
        requires
            old(self).wf(),
            index < old(self).ids@.len(),
            old(self).next_id < usize::MAX,
        ensures
            final(self).wf(),
            old(self).ids@.len() == 1 ==> {
                &&& final(self).ids@ == seq![old(self).next_id]
                &&& final(self).active == 0
                &&& final(self).next_id == old(self).next_id + 1
            },
            old(self).ids@.len() > 1 ==> {
                &&& final(self).ids@ == old(self).ids@.remove(index as int)
                &&& final(self).active == (if old(self).active < old(self).ids@.len() - 1 { old(self).active } else { (old(self).ids@.len() - 2) as usize })
                &&& final(self).next_id == old(self).next_id
            },
    {
        let ghost before = self.ids@;
        self.ids.remove(index);
        if self.ids.len() == 0 {
            let id = self.next_id;
            self.ids.push(id);
            self.next_id = self.next_id + 1;
            self.active = 0;
            assert(self.ids@ =~= seq![id]);
        } else {
            if self.active >= self.ids.len() {
                self.active = self.ids.len() - 1;
            }
            assert forall|i: int, j: int| 0 <= i < j < self.ids@.len() implies self.ids@[i] < self.ids@[j] by {
                let oi = if i < index { i } else { i + 1 };
                let oj = if j < index { j } else { j + 1 };
                assert(self.ids@[i] == before[oi]);
                assert(self.ids@[j] == before[oj]);
            }
            assert forall|i: int| 0 <= i < self.ids@.len() implies self.ids@[i] < self.next_id by {
                let oi = if i < index { i } else { i + 1 };
                assert(self.ids@[i] == before[oi]);
            }
        }
    }

    /// Activate the next tab, wrapping round.
    pub fn next_tab(&mut self)
        requires
            old(self).wf(),
        ensures
            final(self).wf(),
            final(self).ids@ == old(self).ids@,
            final(self).next_id == old(self).next_id,
            final(self).active == next_index(old(self).active as nat, old(self).ids@.len()),
    {
        let n = self.ids.len();
        self.active = (self.active + 1) % n;
    }

    /// Activate the previous tab, wrapping round.
    pub fn prev_tab(&mut self)
        requires
            old(self).wf(),
        ensures
            final(self).wf(),
            final(self).ids@ == old(self).ids@,
            final(self).next_id == old(self).next_id,
            final(self).active == prev_index(old(self).active as nat, old(self).ids@.len()),
    {
        self.active = if self.active == 0 { self.ids.len() - 1 } else { self.active - 1 };
    }
}

/// Moving to the next tab and back to the previous one returns to the same tab, and the
/// other way round.
pub proof fn law_next_prev_round_trip(a: nat, n: nat)
    requires
        a < n,
    ensures
        prev_index(next_index(a, n), n) == a,
        next_index(prev_index(a, n), n) == a,
{
    lemma_wrap(a, n);
    if a > 0 {
        lemma_wrap((a - 1) as nat, n);
    } else {
        lemma_wrap((n - 1) as nat, n);
    }
}

proof fn lemma_wrap(a: nat, n: nat)
    requires
        a < n,
    ensures
        next_index(a, n) == (if a + 1 < n { a + 1 } else { 0 }),
{
    if a + 1 < n {
        vstd::arithmetic::div_mod::lemma_small_mod((a + 1) as nat, n);
    } else {
        vstd::arithmetic::div_mod::lemma_mod_self_0(n as int);
    }
}

/// No two open tabs share an id.
pub proof fn law_tab_ids_distinct(s: TabStrip, i: int, j: int)
    requires
        s.wf(),
        0 <= i < s.ids@.len(),
        0 <= j < s.ids@.len(),
        i != j,
    ensures
        s.ids@[i] != s.ids@[j],
{
}


/// The panes of one tab: its primary shell, an optional split beside it, and which of
/// the two has the keyboard.
#[derive(Clone, Copy, Debug, PartialEq, Eq, Structural)]
pub struct TabPanes {
    pub primary: usize,
    pub split: Option<usize>,
    pub on_split: bool,
}

/// What closing the active pane closes.
#[derive(Clone, Copy, Debug, PartialEq, Eq, Structural)]
pub enum CloseTarget {
    /// The split pane; the primary one stays.
    SplitPane,
    /// The primary pane; the split one takes its place.
    LeftPane,
    /// The whole tab.
    Tab,
}

impl TabPanes {
    /// The keyboard is on the split pane only while there is one.
    pub open spec fn wf(&self) -> bool {
        self.on_split ==> self.split is Some
    }

    pub fn new(primary: usize) -> (p: TabPanes)
        ensures
            p.wf(),
            p == (TabPanes { primary, split: None, on_split: false }),
    {
        TabPanes { primary, split: None, on_split: false }
    }

    /// Split the tab, the new pane getting `new_id` and the keyboard; a tab that is
    /// already split stays as it is. Whether it split.
    pub fn split_pane(&mut self, new_id: usize) -> (done: bool)
        requires
            old(self).wf(),
        ensures
            final(self).wf(),
            done == (old(self).split is None),
            done ==> *final(self) == (TabPanes { primary: old(self).primary, split: Some(new_id), on_split: true }),
            !done ==> *final(self) == *old(self),
    {
        if self.split.is_some() {
            return false;
        }
        self.split = Some(new_id);
        self.on_split = true;
        true
    }

    /// Close the split pane; the primary one gets the keyboard.
    pub fn close_split_pane(&mut self)
        ensures
            final(self).wf(),
            *final(self) == (TabPanes { primary: old(self).primary, split: None, on_split: false }),
    {
        self.split = None;
        self.on_split = false;
    }

    /// Close the primary pane: the split pane becomes the tab's only pane. Nothing
    /// happens without a split.
    pub fn close_left_pane(&mut self)
        requires
            old(self).wf(),
        ensures
            final(self).wf(),
            *final(self) == (match old(self).split {
                Some(s) => TabPanes { primary: s, split: None, on_split: false },
                None => *old(self),
            }),
    {
        if let Some(s) = self.split {
            self.primary = s;
            self.split = None;
            self.on_split = false;
        }
    }

    /// What closing the active pane closes: in a split tab the pane with the keyboard,
    /// otherwise the tab.
    pub fn close_target(&self) -> (t: CloseTarget)
        ensures
            t == (if self.split is Some { if self.on_split { CloseTarget::SplitPane } else { CloseTarget::LeftPane } } else { CloseTarget::Tab }),
    {
        if self.split.is_some() {
            if self.on_split { CloseTarget::SplitPane } else { CloseTarget::LeftPane }
        } else {
            CloseTarget::Tab
        }
    }
}

/// Splitting a tab and closing the split again leaves the tab as it was before the
/// split, with the keyboard on its pane.
pub proof fn law_split_then_close(p: TabPanes, new_id: usize)
    requires
        p.wf(),
        p.split is None,
    ensures
        ({
            let split = TabPanes { primary: p.primary, split: Some(new_id), on_split: true };
            let closed = TabPanes { primary: split.primary, split: None, on_split: false };
            closed == p
        }),
{
}

} // verus!
