//! Events, the page's current projection, and the session state.
use vstd::prelude::*;
use crate::entries::{has_key, Entries};
use crate::entry::{Entry, EntryIdentifier};
use crate::mode::UIMode;
use crate::page::PageType;
use crate::redraw::RedrawType;

verus! {

/// One event of the unified stream: server notifications, operator input,
/// and commands for the audio-server driver.
#[derive(Clone, Copy, Debug, PartialEq, Eq, Hash, Structural)]
pub enum Letter {
    ExitSignal,
    Redraw,
    PeakVolumeUpdate(EntryIdentifier, u32),
    EntryUpdate(EntryIdentifier, Entry),
    EntryRemoved(EntryIdentifier),
    MoveUp(u16),
    MoveDown(u16),
    ChangePage(PageType),
    OpenContextMenu,
    CloseContextMenu,
    StartMoving,
    OpenHelp,
    CloseHelp,
    MoveEntryToParent(EntryIdentifier, EntryIdentifier),
}

/// Messages handled inside the audio-server driver.
#[derive(Debug)]
pub enum PAInternal {
    Tick,
    Command(Box<Letter>),
    AskInfo(EntryIdentifier),
}

/// Identifiers of the entries on the active page, in display order.
pub struct PageEntries {
    pub entries: Vec<EntryIdentifier>,
}

impl View for PageEntries {
    type V = Seq<EntryIdentifier>;

    open spec fn view(&self) -> Seq<EntryIdentifier> {
        self.entries@
    }
}

impl PageEntries {
    pub fn new() -> (r: PageEntries)
        ensures
            r@ == Seq::<EntryIdentifier>::empty(),
    {
        PageEntries { entries: Vec::new() }
    }

    pub fn len(&self) -> (r: usize)
        ensures
            r == self@.len(),
    {
        self.entries.len()
    }

    /// The identifier at zero-based slot `i`.
    pub fn get(&self, i: usize) -> (r: Option<EntryIdentifier>)
        ensures
            i < self@.len() ==> r == Some(self@[i as int]),
            i >= self@.len() ==> r is None,
    {
        if i < self.entries.len() {
            Some(self.entries[i])
        } else {
            None
        }
    }

    /// The slot of `id`, if it is on the page.
    pub fn position(&self, id: &EntryIdentifier) -> (r: Option<usize>)
        ensures
            r matches Some(i) ==> i < self@.len() && self@[i as int] == *id,
            r is None ==> !self@.contains(*id),
    {
        let mut i: usize = 0;
        while i < self.entries.len()
            invariant
                i <= self@.len(),
                forall|k: int| 0 <= k < i ==> self@[k] != *id,
            decreases self@.len() - i,
        {
            if self.entries[i] == *id {
                return Some(i);
            }
            i += 1;
        }
        None
    }

    pub fn contains(&self, id: &EntryIdentifier) -> (r: bool)
        ensures
            r == self@.contains(*id),
    {
        let mut i: usize = 0;
        while i < self.entries.len()
            invariant
                i <= self@.len(),
                forall|k: int| 0 <= k < i ==> self@[k] != *id,
            decreases self@.len() - i,
        {
            if self.entries[i] == *id {
                assert(self@[i as int] == *id);
                return true;
            }
            i += 1;
        }
        false
    }
}

/// The session: entry model, the active page and its projection, the
/// 1-based selection, the mode and the pending redraw directive.
pub struct RSState {
    pub entries: Entries,
    pub page_entries: PageEntries,
    pub current_page: PageType,
    pub selected: usize,
    pub ui_mode: UIMode,
    pub redraw: RedrawType,
}

/// The session as mathematics: the records, the page's identifiers, the
/// page selector, the 1-based selection and the mode.
pub struct StateModel {
    pub entries: Seq<(EntryIdentifier, Entry)>,
    pub page: Seq<EntryIdentifier>,
    pub current_page: PageType,
    pub selected: int,
    pub mode: UIMode,
}

/// No identifier stands twice on `page`.
pub open spec fn ids_unique(page: Seq<EntryIdentifier>) -> bool {
    forall|i: int, j: int| 0 <= i < page.len() && 0 <= j < page.len() && i != j ==> page[i] != page[j]
}

/// The slot of `t` on `page`.
pub open spec fn slot_of(page: Seq<EntryIdentifier>, t: EntryIdentifier) -> int {
    choose|j: int| 0 <= j < page.len() && #[trigger] page[j] == t
}

/// On a page without repeats, the slot of the identifier at `j` is `j`.
pub proof fn lemma_slot_of(page: Seq<EntryIdentifier>, j: int)
    requires
        ids_unique(page),
        0 <= j < page.len(),
    ensures
        slot_of(page, page[j]) == j,
{
}

/// `t` stands on page `page` at a slot other than `s`.
pub open spec fn at_other_slot(page: Seq<EntryIdentifier>, s: int, t: EntryIdentifier) -> bool {
    exists|j: int| 0 <= j < page.len() && j != s && #[trigger] page[j] == t
}

impl RSState {
    /// The session invariant: the page lists only live entries, each once, the
    /// selection points into the page, and a move in progress drags the
    /// selected entry onto another entry of the page.
    pub open spec fn wf(&self) -> bool {
        &&& self.entries.wf()
        &&& ids_unique(self.page_entries@)
        &&& forall|k: int|
            0 <= k < self.page_entries@.len() ==> has_key(
                self.entries@,
                #[trigger] self.page_entries@[k],
            )
        &&& self.page_entries@.len() == 0 || 1 <= self.selected <= self.page_entries@.len()
        &&& match self.ui_mode {
            UIMode::MoveEntry(d, t) => {
                &&& self.page_entries@.len() >= 2
                &&& d == self.page_entries@[self.selected - 1]
                &&& at_other_slot(self.page_entries@, self.selected - 1, t)
            },
            _ => true,
        }
    }

    pub open spec fn model(&self) -> StateModel {
        StateModel {
            entries: self.entries@,
            page: self.page_entries@,
            current_page: self.current_page,
            selected: self.selected as int,
            mode: self.ui_mode,
        }
    }

    /// A fresh session: no entries, the Output page, Normal mode.
    pub fn new() -> (r: RSState)
        ensures
            r.wf(),
            r.entries@.len() == 0,
            r.page_entries@.len() == 0,
            r.current_page == PageType::Output,
            r.selected == 1,
            r.ui_mode == UIMode::Normal,
            r.redraw == RedrawType::Nothing,
    {
        RSState {
            entries: Entries::new(),
            page_entries: PageEntries::new(),
            current_page: PageType::Output,
            selected: 1,
            ui_mode: UIMode::Normal,
            redraw: RedrawType::Nothing,
        }
    }
}

} // verus!
