//! One cycle of the dispatch loop: the handlers that every event passes
//! through, in their fixed order, and the merge of their redraw directives.
//! Waiting for events, sending commands and painting stay with the caller.
use vstd::prelude::*;
use crate::entries::{has_key, peak_changed, set_peak, upsert, without};
use crate::entry::{Entry, EntryIdentifier};
use crate::mode::UIMode;
use crate::move_entry::{action_handler, peak_volume_update, Reaction};
use crate::moves::{dest_down, dest_up, down_steps, is_other_slot, lemma_down_steps, lemma_move_down_cycle, rank};
use vstd::arithmetic::div_mod::lemma_mod_bound;
use crate::page::{lemma_page_consistent, page_spec, PageType};
use crate::redraw::RedrawType;
use crate::state::{at_other_slot, ids_unique, lemma_slot_of, slot_of, Letter, RSState, StateModel};

verus! {

/// The identifiers of the records `r`, in order.
pub open spec fn page_ids(r: Seq<(EntryIdentifier, Entry)>) -> Seq<EntryIdentifier> {
    r.map_values(|x: (EntryIdentifier, Entry)| x.0)
}

/// A 1-based selection brought into a page of `len` entries.
pub open spec fn clamp_selection(sel: int, len: int) -> int {
    if len == 0 || sel < 1 {
        1
    } else if sel > len {
        len
    } else {
        sel
    }
}

/// The move in progress of mode `mode` can go on over `page`: its dragged
/// entry and its target are both on it, and differ.
pub open spec fn move_survives(mode: UIMode, page: Seq<EntryIdentifier>) -> bool {
    &&& mode is MoveEntry
    &&& page.contains(mode->MoveEntry_0)
    &&& page.contains(mode->MoveEntry_1)
    &&& mode->MoveEntry_0 != mode->MoveEntry_1
}

/// `m` with its page rebuilt from its records and page selector. A move in
/// progress goes on, the selection following the dragged entry, while both
/// of its entries are still on the page; otherwise it is abandoned.
pub open spec fn refreshed(m: StateModel) -> StateModel {
    let page = page_ids(page_spec(m.entries, m.current_page, UIMode::Normal));
    if move_survives(m.mode, page) {
        StateModel { page, selected: slot_of(page, m.mode->MoveEntry_0) + 1, ..m }
    } else {
        StateModel {
            page,
            selected: clamp_selection(m.selected, page.len() as int),
            mode: if m.mode is MoveEntry {
                UIMode::Normal
            } else {
                m.mode
            },
            ..m
        }
    }
}

/// Handling that does not depend on the mode: switching pages.
pub open spec fn general_spec(m: StateModel, msg: Letter) -> (StateModel, RedrawType) {
    match msg {
        Letter::ChangePage(p) => (
            refreshed(StateModel { current_page: p, mode: UIMode::Normal, selected: 1, ..m }),
            RedrawType::Full,
        ),
        _ => (m, RedrawType::Nothing),
    }
}

/// Handling of the server's notifications about entries.
pub open spec fn entries_spec(m: StateModel, msg: Letter) -> (StateModel, RedrawType) {
    match msg {
        Letter::EntryUpdate(id, e) => if e.fits(id.entry_type) {
            (refreshed(StateModel { entries: upsert(m.entries, id, e), ..m }), RedrawType::Full)
        } else {
            (m, RedrawType::Nothing)
        },
        Letter::EntryRemoved(id) => (
            refreshed(StateModel { entries: without(m.entries, id), ..m }),
            RedrawType::Full,
        ),
        _ => (m, RedrawType::Nothing),
    }
}

/// A peak report of `id` at `peak`.
pub open spec fn peak_spec(m: StateModel, id: EntryIdentifier, peak: u32) -> (StateModel, RedrawType) {
    if peak_changed(m.entries, id, peak) {
        (
            StateModel { entries: set_peak(m.entries, id, peak), ..m },
            if m.page.contains(id) {
                RedrawType::PeakVolume(id)
            } else {
                RedrawType::Nothing
            },
        )
    } else {
        (m, RedrawType::Nothing)
    }
}

/// A move of the preview target, up or down by `n` from the current target.
pub open spec fn moved_spec(m: StateModel, up: bool, n: u16) -> (StateModel, RedrawType) {
    let len = m.page.len() as int;
    let s = m.selected - 1;
    if len >= 2 {
        let jt = slot_of(m.page, m.mode->MoveEntry_1);
        let j = if up {
            dest_up(len, s, jt, n as int)
        } else {
            dest_down(len, s, jt, n as int)
        };
        (StateModel { mode: UIMode::MoveEntry(m.page[s], m.page[j]), ..m }, RedrawType::Full)
    } else {
        (m, RedrawType::Nothing)
    }
}

/// The slot before 1-based selection `sel` on a page of `len`, cyclically.
pub open spec fn prev_slot(sel: int, len: int) -> int {
    if sel >= 2 {
        sel - 2
    } else {
        len - 1
    }
}

pub open spec fn set_mode(m: StateModel, mode: UIMode) -> StateModel {
    StateModel { mode, ..m }
}

/// Handling by the handler of the current mode.
pub open spec fn mode_spec(m: StateModel, msg: Letter) -> (StateModel, RedrawType, Option<Letter>) {
    let none = (m, RedrawType::Nothing, None::<Letter>);
    match m.mode {
        UIMode::Normal => match msg {
            Letter::PeakVolumeUpdate(id, p) => (peak_spec(m, id, p).0, peak_spec(m, id, p).1, None),
            Letter::Redraw => (m, RedrawType::Full, None),
            Letter::OpenContextMenu => if m.page.len() > 0 {
                (set_mode(m, UIMode::ContextMenu), RedrawType::Full, None)
            } else {
                none
            },
            Letter::OpenHelp => (set_mode(m, UIMode::Help), RedrawType::Help, None),
            _ => none,
        },
        UIMode::ContextMenu => match msg {
            Letter::PeakVolumeUpdate(id, p) => (peak_spec(m, id, p).0, peak_spec(m, id, p).1, None),
            Letter::Redraw => (m, RedrawType::Full, None),
            Letter::CloseContextMenu => (set_mode(m, UIMode::Normal), RedrawType::Full, None),
            Letter::StartMoving => if m.page.len() >= 2 {
                (
                    set_mode(
                        m,
                        UIMode::MoveEntry(
                            m.page[m.selected - 1],
                            m.page[prev_slot(m.selected, m.page.len() as int)],
                        ),
                    ),
                    RedrawType::Full,
                    None,
                )
            } else {
                (set_mode(m, UIMode::Normal), RedrawType::Full, None)
            },
            _ => none,
        },
        UIMode::Help => match msg {
            Letter::Redraw => (m, RedrawType::Help, None),
            Letter::CloseHelp => (set_mode(m, UIMode::Normal), RedrawType::Full, None),
            _ => none,
        },
        UIMode::MoveEntry(d, t) => match msg {
            Letter::PeakVolumeUpdate(id, p) => (peak_spec(m, id, p).0, peak_spec(m, id, p).1, None),
            Letter::MoveUp(n) => (moved_spec(m, true, n).0, moved_spec(m, true, n).1, None),
            Letter::MoveDown(n) => (moved_spec(m, false, n).0, moved_spec(m, false, n).1, None),
            Letter::OpenContextMenu => (
                set_mode(m, UIMode::Normal),
                RedrawType::Full,
                Some(Letter::MoveEntryToParent(d, t)),
            ),
            _ => none,
        },
    }
}

/// The selection after moving the cursor: in Normal mode only, kept on the page.
pub open spec fn scroll_spec(m: StateModel, msg: Letter) -> (StateModel, RedrawType) {
    let len = m.page.len() as int;
    let ns = match msg {
        Letter::MoveUp(n) => if m.selected - n < 1 {
            1
        } else {
            m.selected - n
        },
        Letter::MoveDown(n) => if m.selected + n > len {
            len
        } else {
            m.selected + n
        },
        _ => m.selected,
    };
    if m.mode is Normal && len > 0 && ns != m.selected {
        (StateModel { selected: ns, ..m }, RedrawType::Full)
    } else {
        (m, RedrawType::Nothing)
    }
}

/// One full cycle: the mode-independent handlers, the current mode's
/// handler, then the cursor handler, with their directives merged in order.
pub open spec fn step_spec(m: StateModel, msg: Letter) -> (StateModel, RedrawType, Option<Letter>) {
    let (m1, d1) = general_spec(m, msg);
    let (m2, d2) = entries_spec(m1, msg);
    let (m3, d3, c) = mode_spec(m2, msg);
    let (m4, d4) = scroll_spec(m3, msg);
    (m4, d1.merge(d2).merge(d3).merge(d4), c)
}

/// What one cycle hands back to the loop.
#[derive(Clone, Copy, Debug, PartialEq, Eq, Structural)]
pub struct Step {
    pub exit: bool,
    pub redraw: RedrawType,
    pub command: Option<Letter>,
}

impl RSState {
    /// Rebuilds the page from the records and keeps the selection on it; a
    /// move in progress goes on only while both its entries are on the page.
    pub fn refresh_page(&mut self)
        requires
            old(self).entries.wf(),
        ensures
            final(self).wf(),
            final(self).model() == refreshed(old(self).model()),
            final(self).redraw == old(self).redraw,
    {
        let r = self.current_page.generate_page(&self.entries, &UIMode::Normal);
        proof {
            lemma_page_consistent(self.entries@, self.current_page, UIMode::Normal);
        }
        let mut ids: Vec<EntryIdentifier> = Vec::new();
        let mut i: usize = 0;
        while i < r.len()
            invariant
                i <= r@.len(),
                ids@.len() == i,
                forall|k: int| 0 <= k < i ==> ids@[k] == r@[k].0,
            decreases r@.len() - i,
        {
            ids.push(r[i].0);
            i += 1;
        }
        assert(ids@ =~= page_ids(r@));
        proof {
            let s = self.entries@;
            assert forall|k: int| 0 <= k < ids@.len() implies has_key(s, #[trigger] ids@[k]) by {
                assert(s.contains(r@[k]));
                let w = choose|w: int| 0 <= w < s.len() && s[w] == r@[k];
                assert(s[w].0 == ids@[k]);
            }
        }
        proof {
            assert forall|a: int, b: int| 0 <= a < ids@.len() && 0 <= b < ids@.len() && a != b implies ids@[a] != ids@[b] by {
                assert(ids@[a] == r@[a].0 && ids@[b] == r@[b].0);
            }
        }
        let len = ids.len();
        self.page_entries.entries = ids;
        if let UIMode::MoveEntry(d, t) = self.ui_mode {
            if d != t {
                if let (Some(i), Some(_)) = (self.page_entries.position(&d), self.page_entries.position(&t)) {
                    proof {
                        lemma_slot_of(self.page_entries@, i as int);
                        let j = choose|j: int| 0 <= j < self.page_entries@.len() && self.page_entries@[j] == t;
                        assert(self.page_entries@[j] == t);
                    }
                    self.selected = i + 1;
                    return;
                }
            }
            proof {
                if move_survives(self.ui_mode, self.page_entries@) {
                    let j = choose|j: int| 0 <= j < self.page_entries@.len() && self.page_entries@[j] == d;
                    assert(self.page_entries@[j] == d);
                    let k = choose|k: int| 0 <= k < self.page_entries@.len() && self.page_entries@[k] == t;
                    assert(self.page_entries@[k] == t);
                }
            }
            self.ui_mode = UIMode::Normal;
        }
        if len == 0 || self.selected < 1 {
            self.selected = 1;
        } else if self.selected > len {
            self.selected = len;
        }
    }
}

/// Switches pages; other events change nothing here.
pub fn general_handler(msg: &Letter, state: &mut RSState) -> (r: RedrawType)
    requires
        old(state).wf(),
    ensures
        final(state).wf(),
        (final(state).model(), r) == general_spec(old(state).model(), *msg),
        final(state).redraw == old(state).redraw,
{
    match *msg {
        Letter::ChangePage(p) => {
            state.current_page = p;
            state.ui_mode = UIMode::Normal;
            state.selected = 1;
            state.refresh_page();
            RedrawType::Full
        },
        _ => RedrawType::Nothing,
    }
}

/// Applies the server's notifications to the entry model and rebuilds the
/// page. A record whose metering sub-record does not match its kind is
/// refused and changes nothing.
pub fn entries_updates_handler(msg: &Letter, state: &mut RSState) -> (r: RedrawType)
    requires
        old(state).wf(),
    ensures
        final(state).wf(),
        (final(state).model(), r) == entries_spec(old(state).model(), *msg),
        final(state).redraw == old(state).redraw,
{
    match *msg {
        Letter::EntryUpdate(id, e) => {
            if !e.fits_type(id.entry_type) {
                return RedrawType::Nothing;
            }
            state.entries.insert(id, e);
            state.refresh_page();
            RedrawType::Full
        },
        Letter::EntryRemoved(id) => {
            state.entries.remove(&id);
            state.refresh_page();
            RedrawType::Full
        },
        _ => RedrawType::Nothing,
    }
}

/// Runs the handler of the current mode.
pub fn mode_handler(msg: &Letter, state: &mut RSState) -> (r: Reaction)
    requires
        old(state).wf(),
    ensures
        final(state).wf(),
        (final(state).model(), r.redraw, r.command) == mode_spec(old(state).model(), *msg),
        final(state).redraw == old(state).redraw,
{
    let nothing = Reaction { redraw: RedrawType::Nothing, command: None };
    match state.ui_mode {
        UIMode::Normal => match *msg {
            Letter::PeakVolumeUpdate(id, p) => {
                let redraw = peak_volume_update(state, &id, p);
                Reaction { redraw, command: None }
            },
            Letter::Redraw => Reaction { redraw: RedrawType::Full, command: None },
            Letter::OpenContextMenu => {
                if state.page_entries.len() > 0 {
                    state.ui_mode = UIMode::ContextMenu;
                    Reaction { redraw: RedrawType::Full, command: None }
                } else {
                    nothing
                }
            },
            Letter::OpenHelp => {
                state.ui_mode = UIMode::Help;
                Reaction { redraw: RedrawType::Help, command: None }
            },
            _ => nothing,
        },
        UIMode::ContextMenu => match *msg {
            Letter::PeakVolumeUpdate(id, p) => {
                let redraw = peak_volume_update(state, &id, p);
                Reaction { redraw, command: None }
            },
            Letter::Redraw => Reaction { redraw: RedrawType::Full, command: None },
            Letter::CloseContextMenu => {
                state.ui_mode = UIMode::Normal;
                Reaction { redraw: RedrawType::Full, command: None }
            },
            Letter::StartMoving => {
                let len = state.page_entries.len();
                if len >= 2 {
                    let sel = state.selected;
                    let prev = if sel >= 2 {
                        sel - 2
                    } else {
                        len - 1
                    };
                    let dragged = state.page_entries.entries[sel - 1];
                    let target = state.page_entries.entries[prev];
                    assert(state.page_entries@[prev as int] == target);
                    state.ui_mode = UIMode::MoveEntry(dragged, target);
                } else {
                    state.ui_mode = UIMode::Normal;
                }
                Reaction { redraw: RedrawType::Full, command: None }
            },
            _ => nothing,
        },
        UIMode::Help => match *msg {
            Letter::Redraw => Reaction { redraw: RedrawType::Help, command: None },
            Letter::CloseHelp => {
                state.ui_mode = UIMode::Normal;
                Reaction { redraw: RedrawType::Full, command: None }
            },
            _ => nothing,
        },
        UIMode::MoveEntry(_, _) => action_handler(msg, state),
    }
}

/// Runs every cycle, whatever the mode. It moves the cursor in Normal mode,
/// keeping it on the page. In the other modes the selection stays put: during
/// a move it marks the dragged entry, and the other handlers keep it on the page.
pub fn scroll_handler(msg: &Letter, state: &mut RSState) -> (r: RedrawType)
    requires
        old(state).wf(),
    ensures
        final(state).wf(),
        (final(state).model(), r) == scroll_spec(old(state).model(), *msg),
        final(state).redraw == old(state).redraw,
{
    let len = state.page_entries.len();
    if !matches!(state.ui_mode, UIMode::Normal) || len == 0 {
        return RedrawType::Nothing;
    }
    let sel = state.selected;
    let ns = match *msg {
        Letter::MoveUp(n) => if sel <= n as usize {
            1
        } else {
            sel - n as usize
        },
        Letter::MoveDown(n) => if n as usize >= len - sel {
            len
        } else {
            sel + n as usize
        },
        _ => sel,
    };
    if ns != sel {
        state.selected = ns;
        RedrawType::Full
    } else {
        RedrawType::Nothing
    }
}

/// Processes one event. The exit signal ends the loop and changes nothing.
/// Any other event passes through the page handler, the entry-update
/// handler, the handler of the mode in force and the cursor handler, in
/// that order; their directives are merged into the pending one, which is
/// returned together with the command for the driver, if any.
pub fn handle_letter(msg: &Letter, state: &mut RSState) -> (r: Step)
    requires
        old(state).wf(),
    ensures
        final(state).wf(),
        r.exit == (*msg is ExitSignal),
        r.exit ==> final(state).model() == old(state).model() && r.redraw == RedrawType::Nothing
            && r.command is None && final(state).redraw == old(state).redraw,
        !r.exit ==> (final(state).model(), r.redraw, r.command) == step_spec(
            old(state).model(),
            *msg,
        ) && final(state).redraw == r.redraw,
{
    if matches!(*msg, Letter::ExitSignal) {
        return Step { exit: true, redraw: RedrawType::Nothing, command: None };
    }
    state.redraw = general_handler(msg, state);
    entries_updates_handler(msg, state).apply(&mut state.redraw);
    let reaction = mode_handler(msg, state);
    reaction.redraw.apply(&mut state.redraw);
    scroll_handler(msg, state).apply(&mut state.redraw);
    Step { exit: false, redraw: state.redraw, command: reaction.command }
}

impl RSState {
    /// The renderer has painted the pending directive.
    pub fn clear_redraw(&mut self)
        ensures
            final(self).model() == old(self).model(),
            final(self).redraw == RedrawType::Nothing,
            old(self).wf() ==> final(self).wf(),
    {
        self.redraw = RedrawType::Nothing;
    }
}

/// A peak report addressed to a card changes nothing and asks for no repaint.
pub proof fn lemma_card_peak_immune(m: StateModel, id: EntryIdentifier, peak: u32)
    requires
        id.entry_type is Card,
    ensures
        step_spec(m, Letter::PeakVolumeUpdate(id, peak)) == (m, RedrawType::Nothing, None::<Letter>),
{
}

/// The state after the cycles of `msgs`, in order.
pub open spec fn run(m: StateModel, msgs: Seq<Letter>) -> StateModel
    decreases msgs.len(),
{
    if msgs.len() == 0 {
        m
    } else {
        step_spec(run(m, msgs.drop_last()), msgs.last()).0
    }
}

/// Moving the preview up and down leaves the entry model as it was and a
/// move in progress, sending nothing; opening the context menu then commits:
/// one relocation command for the dragged entry and its current target, back
/// to Normal mode, a full repaint, and still no change to the entry model.
pub proof fn lemma_move_preview_then_commit(m: StateModel, msgs: Seq<Letter>)
    requires
        m.mode is MoveEntry,
        forall|i: int| 0 <= i < msgs.len() ==> (#[trigger] msgs[i] is MoveUp) || msgs[i] is MoveDown,
    ensures
        run(m, msgs).entries == m.entries,
        run(m, msgs).mode is MoveEntry,
        forall|i: int| 0 <= i < msgs.len() ==> (#[trigger] step_spec(run(m, msgs.take(i)), msgs[i])).2 is None,
        ({
            let last = run(m, msgs);
            let (c, d, cmd) = step_spec(last, Letter::OpenContextMenu);
            &&& c.entries == m.entries
            &&& c.mode == UIMode::Normal
            &&& d == RedrawType::Full
            &&& cmd == Some(
                Letter::MoveEntryToParent(last.mode->MoveEntry_0, last.mode->MoveEntry_1),
            )
        }),
    decreases msgs.len(),
{
    if msgs.len() > 0 {
        let pre = msgs.drop_last();
        assert forall|i: int| 0 <= i < pre.len() implies (#[trigger] pre[i] is MoveUp) || pre[i] is MoveDown by {
            assert(pre[i] == msgs[i]);
        }
        lemma_move_preview_then_commit(m, pre);
        assert forall|i: int| 0 <= i < msgs.len() implies (#[trigger] step_spec(run(m, msgs.take(i)), msgs[i])).2 is None by {
            if i < pre.len() {
                assert(msgs.take(i) == pre.take(i));
                assert(pre[i] == msgs[i]);
                assert(step_spec(run(m, pre.take(i)), pre[i]).2 is None);
            } else {
                assert(msgs.take(i) == pre);
                assert(msgs[i] is MoveUp || msgs[i] is MoveDown);
            }
        }
        assert(msgs.last() is MoveUp || msgs.last() is MoveDown);
    }
}

/// `i` single steps down.
pub open spec fn steps_down(i: nat) -> Seq<Letter> {
    Seq::new(i, |k: int| Letter::MoveDown(1))
}

/// A well-formed move in progress in `m`: the page has no repeats, the
/// selection is the dragged entry, and the target stands at another slot.
pub open spec fn move_in_progress(m: StateModel) -> bool {
    &&& m.mode is MoveEntry
    &&& ids_unique(m.page)
    &&& m.page.len() >= 2
    &&& 1 <= m.selected <= m.page.len()
    &&& m.mode->MoveEntry_0 == m.page[m.selected - 1]
    &&& at_other_slot(m.page, m.selected - 1, m.mode->MoveEntry_1)
}

/// After `i` single steps down, the target is the slot `i` places on from
/// the starting target among the slots other than the dragged entry's.
proof fn lemma_steps_down_target(m: StateModel, i: nat)
    requires
        move_in_progress(m),
    ensures
        run(m, steps_down(i)).page == m.page,
        run(m, steps_down(i)).selected == m.selected,
        run(m, steps_down(i)).entries == m.entries,
        run(m, steps_down(i)).mode == UIMode::MoveEntry(
            m.mode->MoveEntry_0,
            m.page[down_steps(
                m.page.len() as int,
                m.selected - 1,
                slot_of(m.page, m.mode->MoveEntry_1),
                i,
            )],
        ),
    decreases i,
{
    let len = m.page.len() as int;
    let s = m.selected - 1;
    let w = choose|w: int| 0 <= w < m.page.len() && w != s && #[trigger] m.page[w] == m.mode->MoveEntry_1;
    lemma_slot_of(m.page, w);
    let j = slot_of(m.page, m.mode->MoveEntry_1);
    if i == 0 {
        assert(steps_down(0) =~= Seq::<Letter>::empty());
        assert(m.mode == UIMode::MoveEntry(m.mode->MoveEntry_0, m.page[j]));
    } else {
        lemma_steps_down_target(m, (i - 1) as nat);
        assert(steps_down(i).drop_last() =~= steps_down((i - 1) as nat));
        assert(steps_down(i).last() == Letter::MoveDown(1));
        let prev = down_steps(len, s, j, (i - 1) as nat);
        lemma_down_steps(len, s, j, (i - 1) as nat);
        lemma_mod_bound(rank(s, j) + (i - 1), len - 1);
        lemma_slot_of(m.page, prev);
    }
}

/// The target after `i` single steps down from `m`.
pub open spec fn target_after(m: StateModel, i: nat) -> EntryIdentifier {
    run(m, steps_down(i)).mode->MoveEntry_1
}

/// Repeated single steps down visit every other entry of the page once: the
/// targets after 1 to `len - 1` steps are entries of the page other than the
/// dragged one, no two alike, and each other entry among them.
pub proof fn lemma_move_steps_cycle(m: StateModel)
    requires
        move_in_progress(m),
    ensures
        forall|i: nat|
            1 <= i < m.page.len() ==> m.page.contains(#[trigger] target_after(m, i)) && target_after(m, i)
                != m.mode->MoveEntry_0,
        forall|a: nat, b: nat|
            1 <= a < b < m.page.len() ==> #[trigger] target_after(m, a)
                != #[trigger] target_after(m, b),
        forall|x: EntryIdentifier|
            #[trigger] m.page.contains(x) && x != m.mode->MoveEntry_0 ==> exists|i: nat|
                1 <= i < m.page.len() && #[trigger] target_after(m, i) == x,
{
    let len = m.page.len() as int;
    let s = m.selected - 1;
    let w = choose|w: int| 0 <= w < m.page.len() && w != s && #[trigger] m.page[w] == m.mode->MoveEntry_1;
    lemma_slot_of(m.page, w);
    let j = slot_of(m.page, m.mode->MoveEntry_1);
    lemma_move_down_cycle(len, s, j);
    assert forall|i: nat| 1 <= i < m.page.len() implies m.page.contains(#[trigger] target_after(m, i))
        && target_after(m, i) != m.mode->MoveEntry_0 by {
        lemma_steps_down_target(m, i);
        let k = down_steps(len, s, j, i);
        assert(is_other_slot(len, s, k));
        assert(m.page[k] == target_after(m, i));
    }
    assert forall|a: nat, b: nat| 1 <= a < b < m.page.len() implies #[trigger] target_after(m, a)
        != #[trigger] target_after(m, b) by {
        lemma_steps_down_target(m, a);
        lemma_steps_down_target(m, b);
        assert(is_other_slot(len, s, down_steps(len, s, j, a)));
        assert(is_other_slot(len, s, down_steps(len, s, j, b)));
        assert(down_steps(len, s, j, a) != down_steps(len, s, j, b));
    }
    assert forall|x: EntryIdentifier| #[trigger] m.page.contains(x) && x != m.mode->MoveEntry_0 implies exists|i: nat|
        1 <= i < m.page.len() && #[trigger] target_after(m, i) == x by {
        let q = choose|q: int| 0 <= q < m.page.len() && m.page[q] == x;
        assert(is_other_slot(len, s, q));
        assert(exists|i: nat| 1 <= i <= len - 1 && #[trigger] down_steps(len, s, j, i) == q);
        let i = choose|i: nat| 1 <= i <= len - 1 && #[trigger] down_steps(len, s, j, i) == q;
        lemma_steps_down_target(m, i);
        assert(target_after(m, i) == m.page[q]);
    }
}

} // verus!
