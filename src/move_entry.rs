//! The handler that owns the input while an entry is being moved, and the
//! peak-meter update shared by the modes that show meters.
use vstd::prelude::*;
use crate::entries::{has_key, keys_unique, lemma_lookup_at, lookup, peak_changed, peak_moved, set_peak, with_peak};
use crate::entry::{EntryIdentifier, PEAK_EPSILON};
use crate::mode::UIMode;
use crate::moves::{dest_down, dest_up, move_down_target, move_up_target};
use crate::redraw::RedrawType;
use crate::state::{lemma_slot_of, slot_of, Letter, RSState};

verus! {

/// What a handler asks for: a repaint, and a command for the audio-server driver.
#[derive(Clone, Copy, Debug, PartialEq, Eq, Structural)]
pub struct Reaction {
    pub redraw: RedrawType,
    pub command: Option<Letter>,
}

/// Only the entry model may differ between `a` and `b`.
pub open spec fn same_but_entries(a: RSState, b: RSState) -> bool {
    &&& a.page_entries@ == b.page_entries@
    &&& a.current_page == b.current_page
    &&& a.selected == b.selected
    &&& a.ui_mode == b.ui_mode
    &&& a.redraw == b.redraw
}

/// `b` is `a` with its UI mode replaced by `m`.
pub open spec fn with_mode(a: RSState, b: RSState, m: UIMode) -> bool {
    &&& a.entries@ == b.entries@
    &&& a.page_entries@ == b.page_entries@
    &&& a.current_page == b.current_page
    &&& a.selected == b.selected
    &&& a.redraw == b.redraw
    &&& b.ui_mode == m
}

/// Nothing observable differs between `a` and `b`.
pub open spec fn unchanged(a: RSState, b: RSState) -> bool {
    with_mode(a, b, a.ui_mode)
}

/// The outcome of a peak update of `id` to `peak`, from `a` to `b` with
/// directive `r`: the level is recorded exactly when it moved enough on a
/// metered, known entry, and only such a change of an entry on the page
/// asks to repaint that entry's meter.
pub open spec fn peak_update_post(a: RSState, b: RSState, id: EntryIdentifier, peak: u32, r: RedrawType) -> bool {
    let changed = peak_changed(a.entries@, id, peak);
    &&& same_but_entries(a, b)
    &&& b.entries@ == if changed {
        set_peak(a.entries@, id, peak)
    } else {
        a.entries@
    }
    &&& r == if changed && a.page_entries@.contains(id) {
        RedrawType::PeakVolume(id)
    } else {
        RedrawType::Nothing
    }
}

/// The page's new target after a move in direction `up` by `n`, counted
/// from the current target `t`.
pub open spec fn move_target(st: RSState, t: EntryIdentifier, up: bool, n: u16) -> EntryIdentifier {
    let len = st.page_entries@.len() as int;
    let s = st.selected - 1;
    let j = slot_of(st.page_entries@, t);
    st.page_entries@[if up {
        dest_up(len, s, j, n as int)
    } else {
        dest_down(len, s, j, n as int)
    }]
}

/// Records a new peak level and says what must be repainted.
pub fn peak_volume_update(state: &mut RSState, id: &EntryIdentifier, peak: u32) -> (r: RedrawType)
    requires
        old(state).wf(),
    ensures
        final(state).wf(),
        peak_update_post(*old(state), *final(state), *id, peak, r),
{
    let changed = state.entries.update_peak(id, peak);
    proof {
        if changed {
            let s = old(state).entries@;
            assert forall|k: int| 0 <= k < state.page_entries@.len() implies has_key(
                state.entries@,
                #[trigger] state.page_entries@[k],
            ) by {
                let x = state.page_entries@[k];
                let w = choose|w: int| 0 <= w < s.len() && s[w].0 == x;
                assert(state.entries@[w].0 == x);
            }
        }
    }
    if changed && state.page_entries.contains(id) {
        RedrawType::PeakVolume(*id)
    } else {
        RedrawType::Nothing
    }
}

/// Setting a peak changes only that entry's record, and keys stay unique.
proof fn lemma_set_peak_lookup(s: Seq<(EntryIdentifier, crate::entry::Entry)>, id: EntryIdentifier, p: u32)
    requires
        keys_unique(s),
        has_key(s, id),
    ensures
        keys_unique(set_peak(s, id, p)),
        has_key(set_peak(s, id, p), id),
        lookup(set_peak(s, id, p), id) == Some(with_peak(lookup(s, id).unwrap(), p)),
{
    let t = set_peak(s, id, p);
    let w = choose|w: int| 0 <= w < s.len() && s[w].0 == id;
    lemma_lookup_at(s, w);
    assert(t[w].0 == id);
    assert forall|i: int, j: int| 0 <= i < t.len() && 0 <= j < t.len() && i != j implies t[i].0
        != t[j].0 by {
        assert(t[i].0 == s[i].0);
        assert(t[j].0 == s[j].0);
    }
    lemma_lookup_at(t, w);
}

/// Peak updates are debounced: after a level `p` was reported for an entry,
/// a report of a level `q` within the jitter threshold of `p` asks for no
/// repaint, while a report two thresholds above `p` asks to repaint that
/// entry's meter exactly when it is metered, known and on the active page.
pub proof fn lemma_peak_debounce(
    s0: RSState,
    s1: RSState,
    s2: RSState,
    s3: RSState,
    id: EntryIdentifier,
    p: u32,
    q: u32,
    r1: RedrawType,
    r2: RedrawType,
    r3: RedrawType,
)
    requires
        s0.wf(),
        peak_update_post(s0, s1, id, p, r1),
        peak_update_post(s1, s2, id, q, r2),
        !peak_moved(p, q),
        p + 2 * PEAK_EPSILON <= u32::MAX,
        peak_update_post(s1, s3, id, (p + 2 * PEAK_EPSILON) as u32, r3),
    ensures
        r2 == RedrawType::Nothing,
        r3 == if id.entry_type.spec_has_meter() && has_key(s0.entries@, id)
            && s0.page_entries@.contains(id) {
            RedrawType::PeakVolume(id)
        } else {
            RedrawType::Nothing
        },
{
    if id.entry_type.spec_has_meter() && has_key(s0.entries@, id) {
        if peak_changed(s0.entries@, id, p) {
            lemma_set_peak_lookup(s0.entries@, id, p);
        } else {
            let w = choose|w: int| 0 <= w < s0.entries@.len() && s0.entries@[w].0 == id;
            lemma_lookup_at(s0.entries@, w);
        }
    }
}

/// Handles one event while an entry is being moved. Peak updates are
/// recorded. A move up or down by `n` previews the dragged entry at a new
/// destination on the page, `n` places on from the current target among the
/// other entries, cyclically, never its own slot, and asks for a full repaint;
/// on a page of fewer than two entries nothing happens. Opening the context
/// menu commits the move: the driver is sent the relocation of the dragged
/// entry under its target, the mode returns to Normal and the page is
/// repainted. Other events change nothing.
pub fn action_handler(msg: &Letter, state: &mut RSState) -> (r: Reaction)
    requires
        old(state).wf(),
    ensures
        final(state).wf(),
        match *msg {
            Letter::PeakVolumeUpdate(id, peak) => peak_update_post(
                *old(state),
                *final(state),
                id,
                peak,
                r.redraw,
            ) && r.command is None,
            Letter::MoveUp(n) | Letter::MoveDown(n) => {
                let up = *msg is MoveUp;
                r.command is None && if old(state).ui_mode is MoveEntry
                    && old(state).page_entries@.len() >= 2 {
                    &&& with_mode(
                        *old(state),
                        *final(state),
                        UIMode::MoveEntry(
                            old(state).page_entries@[old(state).selected - 1],
                            move_target(*old(state), old(state).ui_mode->MoveEntry_1, up, n),
                        ),
                    )
                    &&& r.redraw == RedrawType::Full
                } else {
                    unchanged(*old(state), *final(state)) && r.redraw == RedrawType::Nothing
                }
            },
            Letter::OpenContextMenu => match old(state).ui_mode {
                UIMode::MoveEntry(d, t) => {
                    &&& with_mode(*old(state), *final(state), UIMode::Normal)
                    &&& r.redraw == RedrawType::Full
                    &&& r.command == Some(Letter::MoveEntryToParent(d, t))
                },
                _ => unchanged(*old(state), *final(state)) && r == (Reaction {
                    redraw: RedrawType::Nothing,
                    command: None,
                }),
            },
            _ => unchanged(*old(state), *final(state)) && r == (Reaction {
                redraw: RedrawType::Nothing,
                command: None,
            }),
        },
{
    let nothing = Reaction { redraw: RedrawType::Nothing, command: None };
    match *msg {
        Letter::PeakVolumeUpdate(id, peak) => {
            let redraw = peak_volume_update(state, &id, peak);
            Reaction { redraw, command: None }
        },
        Letter::MoveUp(n) | Letter::MoveDown(n) => {
            let len = state.page_entries.len();
            if !matches!(state.ui_mode, UIMode::MoveEntry(_, _)) || len < 2 {
                return nothing;
            }
            let s = state.selected - 1;
            let t = match state.ui_mode {
                UIMode::MoveEntry(_, t) => t,
                _ => {
                    return nothing;
                },
            };
            let jt = match state.page_entries.position(&t) {
                Some(jt) => jt,
                None => {
                    return nothing;
                },
            };
            proof {
                let w = choose|w: int| 0 <= w < state.page_entries@.len() && w != s && #[trigger] state.page_entries@[w] == t;
                lemma_slot_of(state.page_entries@, jt as int);
            }
            let j = if matches!(*msg, Letter::MoveUp(_)) {
                move_up_target(len, s, jt, n)
            } else {
                move_down_target(len, s, jt, n)
            };
            let dragged = state.page_entries.entries[s];
            let target = state.page_entries.entries[j];
            state.ui_mode = UIMode::MoveEntry(dragged, target);
            assert(state.page_entries@[j as int] == target);
            Reaction { redraw: RedrawType::Full, command: None }
        },
        Letter::OpenContextMenu => match state.ui_mode {
            UIMode::MoveEntry(d, t) => {
                state.ui_mode = UIMode::Normal;
                Reaction { redraw: RedrawType::Full, command: Some(Letter::MoveEntryToParent(d, t)) }
            },
            _ => nothing,
        },
        _ => nothing,
    }
}

} // verus!
