//! Tabs: each has a shell of its own and a state of its own.
//!
//! The state of the tab that is shown is live; that of the others is saved with
//! them and taken up again when they are shown.

use vstd::prelude::*;

use crate::session::{SavedSessionState, SessionModel};

verus! {

/// One tab.
#[derive(Debug)]
pub struct Tab {
    id: u64,
    /// The tab's state while another tab is shown.
    saved: SavedSessionState,
}

/// All tabs, and which one is shown.
#[derive(Debug)]
pub struct TabSet {
    tabs: Vec<Tab>,
    active: usize,
    next_id: u64,
    live: SavedSessionState,
    /// Whether a selection is being dragged.
    selecting: bool,
}

/// The model of a set of tabs.
#[verifier::ext_equal]
pub struct TabsModel {
    /// The tabs' ids, left to right.
    pub ids: Seq<u64>,
    /// The tabs' saved states.
    pub saved: Seq<SessionModel>,
    pub active: int,
    pub next_id: u64,
    /// The state of the tab that is shown.
    pub live: SessionModel,
    pub selecting: bool,
}

impl View for TabSet {
    type V = TabsModel;

    closed spec fn view(&self) -> TabsModel {
        TabsModel {
            ids: Seq::new(self.tabs@.len(), |i: int| self.tabs@[i].id),
            saved: Seq::new(self.tabs@.len(), |i: int| self.tabs@[i].saved@),
            active: self.active as int,
            next_id: self.next_id,
            live: self.live@,
            selecting: self.selecting,
        }
    }
}

impl TabsModel {
    pub open spec fn len(self) -> int {
        self.ids.len() as int
    }

    /// What holds of every set of tabs: the tab that is shown exists, where
    /// there are tabs at all, and no two tabs have the same id.
    pub open spec fn wf(self) -> bool {
        &&& self.saved.len() == self.ids.len()
        &&& 0 <= self.active
        &&& self.ids.len() > 0 ==> self.active < self.ids.len()
        &&& self.ids.len() == 0 ==> self.active == 0
        &&& forall|i: int| 0 <= i < self.ids.len() ==> #[trigger] self.ids[i] < self.next_id
        &&& forall|i: int, j: int|
            0 <= i < j < self.ids.len() ==> #[trigger] self.ids[i] != #[trigger] self.ids[j]
        &&& self.live.wf()
        &&& forall|i: int| 0 <= i < self.saved.len() ==> (#[trigger] self.saved[i]).wf()
    }

    /// The live state put away with its tab.
    pub open spec fn put_away(self) -> TabsModel {
        TabsModel { saved: self.saved.update(self.active, self.live), ..self }
    }

    /// The saved state of the tab that is shown taken up.
    pub open spec fn taken_up(self) -> TabsModel {
        TabsModel {
            live: self.saved[self.active],
            saved: self.saved.update(self.active, SessionModel::fresh()),
            selecting: false,
            ..self
        }
    }

    /// A tab opened at the right end and shown.
    pub open spec fn opened(self, id: u64) -> TabsModel {
        let away = if self.ids.len() > 0 {
            self.put_away()
        } else {
            self
        };
        TabsModel {
            ids: self.ids.push(id),
            saved: away.saved.push(SessionModel::fresh()),
            active: self.ids.len() as int,
            ..away
        }.taken_up()
    }

    /// The tab that is shown closed, and its right neighbor shown, or the last
    /// tab where it was the last. The only tab is not closed.
    pub open spec fn closed(self) -> TabsModel {
        if self.ids.len() <= 1 {
            self
        } else {
            TabsModel {
                ids: self.ids.remove(self.active),
                saved: self.saved.remove(self.active),
                active: if self.active >= self.ids.len() - 1 {
                    self.ids.len() - 2
                } else {
                    self.active
                },
                ..self
            }.taken_up()
        }
    }

    /// Another tab shown. Nothing happens where there is no such tab, or where
    /// it is shown already.
    pub open spec fn switched(self, idx: int) -> TabsModel {
        if idx >= self.ids.len() || idx == self.active {
            self
        } else {
            TabsModel { active: idx, ..self.put_away() }.taken_up()
        }
    }

    /// The tab at `idx` closed.
    pub open spec fn closed_at(self, idx: int) -> TabsModel {
        self.switched(idx).closed()
    }
}

impl TabSet {
    /// No tabs yet. The first prompt counts as empty, so that the agent can be
    /// called from it.
    pub fn new() -> (r: Self)
        ensures
            r@.wf(),
            r@ == (TabsModel {
                ids: Seq::empty(),
                saved: Seq::empty(),
                active: 0,
                next_id: 0,
                live: SessionModel { shell_input_empty: true, ..SessionModel::fresh() },
                selecting: false,
            }),
    {
        let mut live = SavedSessionState::default();
        live.shell_input_empty = true;
        let r = TabSet { tabs: Vec::new(), active: 0, next_id: 0, live, selecting: false };
        assert(r@.ids =~= Seq::empty());
        assert(r@.saved =~= Seq::empty());
        r
    }

    /// The number of tabs.
    pub fn len(&self) -> (r: usize)
        ensures
            r == self@.len(),
    {
        self.tabs.len()
    }

    /// The index of the tab that is shown.
    pub fn active(&self) -> (r: usize)
        ensures
            r == self@.active,
    {
        self.active
    }

    /// The state of the tab that is shown.
    pub fn live(&self) -> (r: &SavedSessionState)
        ensures
            r@ == self@.live,
    {
        &self.live
    }

    /// The state of the tab that is shown, to change it.
    pub fn live_mut(&mut self) -> (r: &mut SavedSessionState)
        ensures
            r@ == old(self)@.live,
            final(self)@ == (TabsModel { live: final(r)@, ..old(self)@ }),
    {
        &mut self.live
    }

    /// Whether a selection is being dragged.
    pub fn selecting(&self) -> (r: bool)
        ensures
            r == self@.selecting,
    {
        self.selecting
    }

    pub fn set_selecting(&mut self, selecting: bool)
        ensures
            final(self)@ == (TabsModel { selecting, ..old(self)@ }),
    {
        self.selecting = selecting;
    }

    /// An id that no tab had yet. It counts as used even if no tab gets it.
    pub fn take_id(&mut self) -> (id: u64)
        requires
            old(self)@.wf(),
            old(self)@.next_id < u64::MAX,
        ensures
            id == old(self)@.next_id,
            final(self)@ == (TabsModel { next_id: (id + 1) as u64, ..old(self)@ }),
            final(self)@.wf(),
    {
        let id: u64 = self.next_id;
        self.next_id = id + 1;
        id
    }

    /// The id of the tab at `idx`.
    pub fn id_at(&self, idx: usize) -> (r: Option<u64>)
        ensures
            r == if idx < self@.len() {
                Some(self@.ids[idx as int])
            } else {
                None
            },
    {
        if idx < self.tabs.len() {
            Some(self.tabs[idx].id)
        } else {
            None
        }
    }

    /// The index of the tab with an id.
    pub fn session_index_by_id(&self, id: u64) -> (r: Option<usize>)
        requires
            self@.wf(),
        ensures
            match r {
                Some(idx) => idx < self@.len() && self@.ids[idx as int] == id,
                None => !self@.ids.contains(id),
            },
    {
        for i in 0..self.tabs.len()
            invariant
                forall|k: int| 0 <= k < i ==> self@.ids[k] != id,
        {
            if self.tabs[i].id == id {
                return Some(i);
            }
        }
        None
    }

    /// Puts the live state away with its tab.
    pub fn save_active_tab_state(&mut self)
        requires
            old(self)@.wf(),
            old(self)@.len() > 0,
        ensures
            final(self)@ == (TabsModel {
                live: final(self)@.live,
                ..old(self)@.put_away()
            }),
            final(self)@.live == SessionModel::fresh(),
            final(self)@.wf(),
    {
        let mut state = SavedSessionState::default();
        core::mem::swap(&mut state, &mut self.live);
        let active: usize = self.active;
        self.tabs[active].saved = state;
        assert(self@.ids =~= old(self)@.ids);
        assert(self@.saved =~= old(self)@.saved.update(active as int, old(self)@.live));
    }

    /// Takes the saved state of the tab that is shown up.
    pub fn restore_active_tab_state(&mut self)
        requires
            old(self)@.wf(),
            old(self)@.len() > 0,
        ensures
            final(self)@ == old(self)@.taken_up(),
            final(self)@.wf(),
    {
        let mut state = SavedSessionState::default();
        let active: usize = self.active;
        core::mem::swap(&mut state, &mut self.tabs[active].saved);
        self.live = state;
        self.selecting = false;
        assert(self@.ids =~= old(self)@.ids);
        assert(self@.saved =~= old(self)@.saved.update(active as int, SessionModel::fresh()));
    }

    /// Opens the very first tab: it keeps the live state.
    pub fn open_first(&mut self, id: u64)
        requires
            old(self)@.wf(),
            old(self)@.len() == 0,
            id < old(self)@.next_id,
        ensures
            final(self)@ == (TabsModel {
                ids: seq![id],
                saved: seq![SessionModel::fresh()],
                active: 0,
                ..old(self)@
            }),
            final(self)@.wf(),
    {
        self.tabs.push(Tab { id, saved: SavedSessionState::default() });
        self.active = 0;
        assert(self@.ids =~= seq![id]);
        assert(self@.saved =~= seq![SessionModel::fresh()]);
    }

    /// Opens a tab at the right end and shows it.
    pub fn new_tab(&mut self, id: u64)
        requires
            old(self)@.wf(),
            id < old(self)@.next_id,
            !old(self)@.ids.contains(id),
        ensures
            final(self)@ == old(self)@.opened(id),
            final(self)@.wf(),
    {
        let ghost before = self@;
        if self.tabs.len() > 0 {
            self.save_active_tab_state();
        }
        let ghost away = self@;
        self.tabs.push(Tab { id, saved: SavedSessionState::default() });
        self.active = self.tabs.len() - 1;
        assert(self@.ids =~= before.ids.push(id));
        assert(self@.saved =~= away.saved.push(SessionModel::fresh()));
        assert(self@.wf());
        self.restore_active_tab_state();
    }

    /// Closes the tab that is shown, unless it is the only one. Returns the
    /// index of the tab that was closed.
    pub fn close_tab(&mut self) -> (r: Option<usize>)
        requires
            old(self)@.wf(),
        ensures
            final(self)@ == old(self)@.closed(),
            final(self)@.wf(),
            r == if old(self)@.len() <= 1 {
                None
            } else {
                Some(old(self)@.active as usize)
            },
    {
        if self.tabs.len() <= 1 {
            return None;
        }
        let ghost before = self@;
        let gone: usize = self.active;
        self.tabs.remove(gone);
        if self.active >= self.tabs.len() {
            self.active = self.tabs.len() - 1;
        }
        assert(self@.ids =~= before.ids.remove(gone as int));
        assert(self@.saved =~= before.saved.remove(gone as int));
        assert(self@.wf());
        self.restore_active_tab_state();
        Some(gone)
    }

    /// Shows the tab at `idx`. Returns whether anything changed.
    pub fn switch_tab(&mut self, idx: usize) -> (changed: bool)
        requires
            old(self)@.wf(),
        ensures
            final(self)@ == old(self)@.switched(idx as int),
            final(self)@.wf(),
            changed == (idx < old(self)@.len() && idx != old(self)@.active),
    {
        if idx >= self.tabs.len() || idx == self.active {
            return false;
        }
        self.save_active_tab_state();
        self.active = idx;
        self.restore_active_tab_state();
        true
    }

    /// Closes the tab at `idx`, unless it is the only one. Returns the index of
    /// the tab that was closed.
    pub fn close_tab_at(&mut self, idx: usize) -> (r: Option<usize>)
        requires
            old(self)@.wf(),
        ensures
            final(self)@ == old(self)@.closed_at(idx as int),
            final(self)@.wf(),
            r == if old(self)@.len() <= 1 {
                None
            } else if idx < old(self)@.len() {
                Some(idx)
            } else {
                Some(old(self)@.active as usize)
            },
    {
        self.switch_tab(idx);
        self.close_tab()
    }

    /// The agent of the tab with an id has finished. Returns the tab's index,
    /// and whether it is shown. Only the live state knows of agents: that of a
    /// tab that is not shown stays as it is.
    pub fn agent_finished(&mut self, id: u64) -> (r: Option<(usize, bool)>)
        requires
            old(self)@.wf(),
        ensures
            match r {
                None => !old(self)@.ids.contains(id) && final(self)@ == old(self)@,
                Some((idx, shown)) => {
                    &&& idx < old(self)@.len()
                    &&& old(self)@.ids[idx as int] == id
                    &&& shown == (idx == old(self)@.active)
                    &&& final(self)@ == if shown {
                        TabsModel {
                            live: SessionModel {
                                mode: crate::session::ModeModel::Normal,
                                shell_input_empty: true,
                                ..old(self)@.live
                            },
                            ..old(self)@
                        }
                    } else {
                        old(self)@
                    }
                },
            },
            final(self)@.wf(),
    {
        match self.session_index_by_id(id) {
            None => None,
            Some(idx) => {
                let shown = idx == self.active;
                if shown {
                    self.live.agent_finished();
                }
                Some((idx, shown))
            },
        }
    }
}

/// Going to another tab and back brings everything back but a drag that was
/// under way.
pub proof fn switching_back_restores(t: TabsModel, idx: int)
    requires
        t.wf(),
        0 <= idx < t.len(),
        t.saved[t.active] == SessionModel::fresh(),
    ensures
        t.switched(idx).switched(t.active) == (TabsModel {
            selecting: t.selecting && idx == t.active,
            ..t
        }),
{
    if idx != t.active {
        let there = t.switched(idx);
        let back = there.switched(t.active);
        assert(there.saved.len() == t.saved.len());
        assert(back.saved =~= t.saved);
    }
}

/// A tab's state waits unchanged while other tabs are shown.
pub proof fn saved_state_waits(t: TabsModel, away: int, other: int)
    requires
        t.wf(),
        0 <= away < t.len(),
        0 <= other < t.len(),
        away != t.active,
        other != away,
    ensures
        t.switched(other).saved[away] == t.saved[away],
        t.switched(other).ids == t.ids,
{
}

/// The tab that is shown has nothing saved: this holds from the first tab on,
/// whatever is opened, closed or shown.
pub proof fn shown_tab_has_nothing_saved(t: TabsModel, id: u64, idx: int)
    requires
        t.wf(),
        t.len() > 0,
        t.saved[t.active] == SessionModel::fresh(),
        0 <= idx,
    ensures
        t.opened(id).saved[t.opened(id).active] == SessionModel::fresh(),
        t.closed().saved[t.closed().active] == SessionModel::fresh(),
        t.switched(idx).saved[t.switched(idx).active] == SessionModel::fresh(),
{
}

/// Closing a tab keeps all others, in order.
pub proof fn closing_keeps_the_others(t: TabsModel, i: int)
    requires
        t.wf(),
        t.len() > 1,
        0 <= i < t.len(),
        i != t.active,
    ensures
        t.closed().len() == t.len() - 1,
        t.closed().ids[if i < t.active { i } else { i - 1 }] == t.ids[i],
{
}

/// That a tab's state is the one tabs start with: nothing scrolled back, keys for the
/// shell, no selection, and an input line that may hold something.
pub open spec fn is_fresh(s: SessionModel) -> bool {
    &&& s.scroll_offset == 0
    &&& s.mode is Normal
    &&& !s.shell_input_empty
    &&& s.selection is None
}

/// A new tab comes to stand at the right end and is shown in a fresh state. The tab
/// that was shown keeps its state, and so do the others.
pub proof fn new_tab_is_shown_at_the_end(t: TabsModel, id: u64, i: int)
    requires
        t.wf(),
        0 <= i < t.len(),
    ensures
        ({
            let after = t.opened(id);
            &&& after.len() == t.len() + 1
            &&& after.ids[t.len()] == id
            &&& after.ids[i] == t.ids[i]
            &&& after.active == t.len()
            &&& is_fresh(after.live)
            &&& after.saved[i] == if i == t.active {
                t.live
            } else {
                t.saved[i]
            }
            &&& !after.selecting
            &&& after.next_id == t.next_id
        }),
{
}

/// Switching shows the tab that is named, in the state it was left in, and keeps the
/// state of the tab that was shown; a tab that is not there, or that is shown already,
/// changes nothing.
pub proof fn switching_shows_the_tab_named(t: TabsModel, idx: int, i: int)
    requires
        t.wf(),
        0 <= idx,
        0 <= i < t.len(),
    ensures
        ({
            let after = t.switched(idx);
            &&& idx < t.len() ==> after.active == idx
            &&& idx >= t.len() || idx == t.active ==> after == t
            &&& idx < t.len() && idx != t.active ==> {
                &&& after.live == t.saved[idx]
                &&& after.saved[t.active] == t.live
                &&& i != idx && i != t.active ==> after.saved[i] == t.saved[i]
                &&& !after.selecting
            }
            &&& after.ids == t.ids
            &&& after.next_id == t.next_id
        }),
{
}

/// Closing takes the tab that is shown away and shows its right neighbor, or its left
/// one where it was the last, in the state it was left in. The only tab stays.
pub proof fn closing_shows_the_neighbor(t: TabsModel)
    requires
        t.wf(),
    ensures
        ({
            let after = t.closed();
            let next = if t.active + 1 < t.len() {
                t.active + 1
            } else {
                t.active - 1
            };
            &&& t.len() <= 1 ==> after == t
            &&& t.len() > 1 ==> {
                &&& after.len() == t.len() - 1
                &&& !after.ids.contains(t.ids[t.active])
                &&& after.ids[after.active] == t.ids[next]
                &&& after.live == t.saved[next]
                &&& !after.selecting
            }
        }),
{
    if t.len() > 1 {
        let after = t.closed();
        assert forall|i: int| 0 <= i < after.ids.len() implies after.ids[i] != t.ids[t.active] by {
            let from = if i < t.active {
                i
            } else {
                i + 1
            };
            assert(after.ids[i] == t.ids[from]);
        }
    }
}

/// Closing a tab by its number takes that tab away and no other.
pub proof fn closing_takes_the_tab_named(t: TabsModel, idx: int, i: int)
    requires
        t.wf(),
        t.len() > 1,
        0 <= idx < t.len(),
        0 <= i < t.len(),
        i != idx,
    ensures
        ({
            let after = t.closed_at(idx);
            &&& after.len() == t.len() - 1
            &&& after.ids[if i < idx { i } else { i - 1 }] == t.ids[i]
            &&& !after.ids.contains(t.ids[idx])
        }),
{
    let mid = t.switched(idx);
    assert(mid.ids == t.ids && mid.active == idx);
    let after = t.closed_at(idx);
    assert forall|k: int| 0 <= k < after.ids.len() implies after.ids[k] != t.ids[idx] by {
        let from = if k < idx {
            k
        } else {
            k + 1
        };
        assert(after.ids[k] == t.ids[from]);
    }
}

} // verus!
