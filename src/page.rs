//! Pages and the ordered projection of the entry model shown on each.
use vstd::prelude::*;
use crate::entries::{has_key, keep, key_pos, keys_unique, lemma_keep, lookup, of_type, Entries};
use crate::entry::{Entry, EntryIdentifier, EntryType, HiddenStatus};
use crate::mode::UIMode;

verus! {

/// The page selector.
#[derive(Clone, Copy, Debug, PartialEq, Eq, Hash, Structural)]
pub enum PageType {
    Output,
    Input,
    Cards,
}

impl From<PageType> for i8 {
    fn from(p: PageType) -> (r: i8) {
        match p {
            PageType::Output => 0,
            PageType::Input => 1,
            PageType::Cards => 2,
        }
    }
}

impl vstd::std_specs::convert::FromSpecImpl<PageType> for i8 {
    open spec fn obeys_from_spec() -> bool {
        true
    }

    open spec fn from_spec(p: PageType) -> i8 {
        match p {
            PageType::Output => 0,
            PageType::Input => 1,
            PageType::Cards => 2,
        }
    }
}

/// Page numbers wrap: -1 is the last page; unknown numbers give Output.
impl From<i8> for PageType {
    fn from(p: i8) -> (r: PageType) {
        match p {
            -1 => PageType::Cards,
            0 => PageType::Output,
            1 => PageType::Input,
            2 => PageType::Cards,
            _ => PageType::Output,
        }
    }
}

impl vstd::std_specs::convert::FromSpecImpl<i8> for PageType {
    open spec fn obeys_from_spec() -> bool {
        true
    }

    open spec fn from_spec(p: i8) -> PageType {
        if p == -1 || p == 2 {
            PageType::Cards
        } else if p == 1 {
            PageType::Input
        } else {
            PageType::Output
        }
    }
}

/// How a page title segment is drawn.
#[derive(Clone, Copy, Debug, PartialEq, Eq, Hash, Structural)]
pub enum TitleStyle {
    Bold,
    Muted,
}

/// One drawn segment of the page title bar.
#[derive(Clone, Copy, Debug, PartialEq, Eq, Hash)]
pub struct StyledText {
    pub style: TitleStyle,
    pub text: &'static str,
}

/// The device kind and the stream kind listed on a page.
pub open spec fn spec_parent_child(p: PageType) -> (EntryType, EntryType) {
    match p {
        PageType::Output => (EntryType::Sink, EntryType::SinkInput),
        PageType::Input => (EntryType::Source, EntryType::SourceOutput),
        PageType::Cards => (EntryType::Card, EntryType::Card),
    }
}

pub fn parent_child_types(p: PageType) -> (r: (EntryType, EntryType))
    ensures
        r == spec_parent_child(p),
{
    match p {
        PageType::Output => (EntryType::Sink, EntryType::SinkInput),
        PageType::Input => (EntryType::Source, EntryType::SourceOutput),
        PageType::Cards => (EntryType::Card, EntryType::Card),
    }
}

/// A stream of kind `child`, attached to the device of index `pidx` and not hidden.
pub open spec fn is_visible_child(x: (EntryIdentifier, Entry), child: EntryType, pidx: u32) -> bool {
    x.0.entry_type == child && x.1.parent == Some(pidx) && x.1.hidden == HiddenStatus::Visible
}

/// The visible streams of kind `child` under the device of index `pidx`, in order.
pub open spec fn visible_children(s: Seq<(EntryIdentifier, Entry)>, child: EntryType, pidx: u32) -> Seq<
    (EntryIdentifier, Entry),
> {
    keep(s, |x: (EntryIdentifier, Entry)| is_visible_child(x, child, pidx))
}

/// Each device of `parents` followed by its visible streams of kind `child`.
pub open spec fn grouped(
    parents: Seq<(EntryIdentifier, Entry)>,
    s: Seq<(EntryIdentifier, Entry)>,
    child: EntryType,
) -> Seq<(EntryIdentifier, Entry)>
    decreases parents.len(),
{
    if parents.len() == 0 {
        seq![]
    } else {
        grouped(parents.drop_last(), s, child).push(parents.last()) + visible_children(
            s,
            child,
            parents.last().0.index,
        )
    }
}

/// The records of `target`'s kind with `dragged` spliced in right after `target`.
pub open spec fn move_preview(
    s: Seq<(EntryIdentifier, Entry)>,
    dragged: EntryIdentifier,
    target: EntryIdentifier,
) -> Seq<(EntryIdentifier, Entry)> {
    let k = key_pos(s, target);
    of_type(s.take(k + 1), target.entry_type).push((dragged, lookup(s, dragged).unwrap()))
        + of_type(s.skip(k + 1), target.entry_type)
}

/// The ordered records shown on page `p` in mode `mode`.
pub open spec fn page_spec(s: Seq<(EntryIdentifier, Entry)>, p: PageType, mode: UIMode) -> Seq<
    (EntryIdentifier, Entry),
> {
    if p == PageType::Cards {
        of_type(s, EntryType::Card)
    } else {
        match mode {
            UIMode::MoveEntry(d, t) => move_preview(s, d, t),
            _ => grouped(of_type(s, spec_parent_child(p).0), s, spec_parent_child(p).1),
        }
    }
}

/// Record `x` belongs on page `p` of the records `s`: a card on the Cards
/// page; elsewhere a device of the page's kind, or a visible stream of the
/// page's kind attached to such a device.
pub open spec fn on_page(s: Seq<(EntryIdentifier, Entry)>, p: PageType, x: (EntryIdentifier, Entry)) -> bool {
    let (pt, ct) = spec_parent_child(p);
    if p == PageType::Cards {
        x.0.entry_type == EntryType::Card
    } else {
        x.0.entry_type == pt || exists|y: (EntryIdentifier, Entry)|
            #[trigger] s.contains(y) && y.0.entry_type == pt && is_visible_child(x, ct, y.0.index)
    }
}

/// The grouped listing holds exactly the devices of `parents` and their
/// visible streams, each key once.
proof fn lemma_grouped(
    parents: Seq<(EntryIdentifier, Entry)>,
    s: Seq<(EntryIdentifier, Entry)>,
    pt: EntryType,
    ct: EntryType,
)
    requires
        pt != ct,
        keys_unique(s),
        keys_unique(parents),
        forall|k: int| 0 <= k < parents.len() ==> (#[trigger] parents[k]).0.entry_type == pt,
    ensures
        forall|k: int|
            0 <= k < grouped(parents, s, ct).len() ==> parents.contains(
                #[trigger] grouped(parents, s, ct)[k],
            ) || (s.contains(grouped(parents, s, ct)[k]) && exists|j: int|
                0 <= j < parents.len() && is_visible_child(
                    grouped(parents, s, ct)[k],
                    ct,
                    #[trigger] parents[j].0.index,
                )),
        forall|j: int| 0 <= j < parents.len() ==> grouped(parents, s, ct).contains(#[trigger] parents[j]),
        forall|j: int, x: (EntryIdentifier, Entry)|
            0 <= j < parents.len() && s.contains(x) && is_visible_child(x, ct, #[trigger] parents[j].0.index)
                ==> #[trigger] grouped(parents, s, ct).contains(x),
        keys_unique(grouped(parents, s, ct)),
    decreases parents.len(),
{
    if parents.len() > 0 {
        let pp = parents.drop_last();
        let last = parents.last();
        let g = grouped(pp, s, ct);
        let f = |x: (EntryIdentifier, Entry)| is_visible_child(x, ct, last.0.index);
        let v = keep(s, f);
        let r = grouped(parents, s, ct);
        assert(keys_unique(pp)) by {
            assert forall|i: int, j: int| 0 <= i < pp.len() && 0 <= j < pp.len() && i != j implies pp[i].0 != pp[j].0 by {
                assert(pp[i] == parents[i] && pp[j] == parents[j]);
            }
        }
        assert forall|k: int| 0 <= k < pp.len() implies (#[trigger] pp[k]).0.entry_type == pt by {
            assert(pp[k] == parents[k]);
        }
        lemma_grouped(pp, s, pt, ct);
        lemma_keep(s, f);
        assert(r == g.push(last) + v);
        let gl = g.len() as int;
        // what each element of g is
        assert forall|k: int| 0 <= k < r.len() implies parents.contains(#[trigger] r[k]) || (s.contains(r[k])
            && exists|j: int| 0 <= j < parents.len() && is_visible_child(r[k], ct, #[trigger] parents[j].0.index)) by {
            if k < gl {
                assert(r[k] == g[k]);
                if pp.contains(g[k]) {
                    let w = choose|w: int| 0 <= w < pp.len() && pp[w] == g[k];
                    assert(parents[w] == g[k]);
                } else {
                    let j = choose|j: int| 0 <= j < pp.len() && is_visible_child(g[k], ct, #[trigger] pp[j].0.index);
                    assert(parents[j] == pp[j]);
                }
            } else if k == gl {
                assert(parents[parents.len() - 1] == r[k]);
            } else {
                assert(r[k] == v[k - gl - 1]);
                assert(f(v[k - gl - 1]));
                assert(is_visible_child(r[k], ct, parents[parents.len() - 1].0.index));
            }
        }
        assert forall|j: int| 0 <= j < parents.len() implies r.contains(#[trigger] parents[j]) by {
            if j < pp.len() {
                assert(pp[j] == parents[j]);
                assert(g.contains(pp[j]));
                let w = choose|w: int| 0 <= w < g.len() && g[w] == pp[j];
                assert(r[w] == parents[j]);
            } else {
                assert(r[gl] == parents[j]);
            }
        }
        assert forall|j: int, x: (EntryIdentifier, Entry)|
            0 <= j < parents.len() && s.contains(x) && is_visible_child(x, ct, #[trigger] parents[j].0.index)
            implies #[trigger] r.contains(x) by {
            if j < pp.len() {
                assert(pp[j] == parents[j]);
                assert(g.contains(x));
                let w = choose|w: int| 0 <= w < g.len() && g[w] == x;
                assert(r[w] == x);
            } else {
                assert(f(x));
                assert(v.contains(x));
                let w = choose|w: int| 0 <= w < v.len() && v[w] == x;
                assert(r[gl + 1 + w] == x);
            }
        }
        assert forall|a: int, b: int| 0 <= a < r.len() && 0 <= b < r.len() && a != b implies r[a].0 != r[b].0 by {
            assert forall|a1: int, b1: int| 0 <= a1 <= gl && gl < b1 < r.len() implies r[a1].0 != r[b1].0 by {
                let y = r[b1];
                assert(y == v[b1 - gl - 1]);
                assert(f(y));
                if a1 == gl {
                    assert(r[a1] == last);
                } else {
                    assert(r[a1] == g[a1]);
                    if pp.contains(g[a1]) {
                        let w = choose|w: int| 0 <= w < pp.len() && pp[w] == g[a1];
                        assert(pp[w].0.entry_type == pt);
                    } else {
                        let j = choose|j: int| 0 <= j < pp.len() && is_visible_child(g[a1], ct, #[trigger] pp[j].0.index);
                        assert(parents[j] == pp[j]);
                        assert(parents[j].0 != last.0);
                    }
                }
            }
            assert forall|a1: int| 0 <= a1 < gl implies r[a1].0 != r[gl].0 by {
                assert(r[a1] == g[a1]);
                if pp.contains(g[a1]) {
                    let w = choose|w: int| 0 <= w < pp.len() && pp[w] == g[a1];
                    assert(parents[w] == pp[w]);
                } else {
                    let j = choose|j: int| 0 <= j < pp.len() && is_visible_child(g[a1], ct, #[trigger] pp[j].0.index);
                }
            }
            if a < gl && b < gl {
                assert(r[a] == g[a] && r[b] == g[b]);
            } else if a > gl && b > gl {
                assert(r[a] == v[a - gl - 1] && r[b] == v[b - gl - 1]);
            }
        }
    }
}

/// Outside a move, every record a page lists is a live record of the entry
/// model that belongs on that page, no key is listed twice, and every record
/// that belongs on the page is listed.
pub proof fn lemma_page_consistent(s: Seq<(EntryIdentifier, Entry)>, p: PageType, mode: UIMode)
    requires
        keys_unique(s),
        !(mode is MoveEntry),
    ensures
        forall|k: int|
            0 <= k < page_spec(s, p, mode).len() ==> s.contains(#[trigger] page_spec(s, p, mode)[k])
                && on_page(s, p, page_spec(s, p, mode)[k]),
        keys_unique(page_spec(s, p, mode)),
        forall|x: (EntryIdentifier, Entry)|
            s.contains(x) && on_page(s, p, x) ==> #[trigger] page_spec(s, p, mode).contains(x),
{
    let r = page_spec(s, p, mode);
    let (pt, ct) = spec_parent_child(p);
    if p == PageType::Cards {
        lemma_keep(s, |x: (EntryIdentifier, Entry)| x.0.entry_type == EntryType::Card);
    } else {
        let fp = |x: (EntryIdentifier, Entry)| x.0.entry_type == pt;
        let parents = keep(s, fp);
        lemma_keep(s, fp);
        assert forall|k: int| 0 <= k < parents.len() implies (#[trigger] parents[k]).0.entry_type == pt by {
            assert(fp(parents[k]));
        }
        lemma_grouped(parents, s, pt, ct);
        assert(r == grouped(parents, s, ct));
        assert forall|k: int| 0 <= k < r.len() implies s.contains(#[trigger] r[k]) && on_page(s, p, r[k]) by {
            if parents.contains(r[k]) {
                let w = choose|w: int| 0 <= w < parents.len() && parents[w] == r[k];
                assert(fp(parents[w]));
            } else {
                let j = choose|j: int| 0 <= j < parents.len() && is_visible_child(r[k], ct, #[trigger] parents[j].0.index);
                assert(s.contains(parents[j]));
                assert(fp(parents[j]));
            }
        }
        assert forall|x: (EntryIdentifier, Entry)| s.contains(x) && on_page(s, p, x) implies #[trigger] r.contains(x) by {
            if x.0.entry_type == pt {
                assert(parents.contains(x));
                let w = choose|w: int| 0 <= w < parents.len() && parents[w] == x;
                assert(r.contains(parents[w]));
            } else {
                let y = choose|y: (EntryIdentifier, Entry)| #[trigger] s.contains(y) && y.0.entry_type == pt && is_visible_child(x, ct, y.0.index);
                assert(fp(y));
                assert(parents.contains(y));
                let w = choose|w: int| 0 <= w < parents.len() && parents[w] == y;
                assert(is_visible_child(x, ct, parents[w].0.index));
            }
        }
    }
}

/// The record at `k` of `r` is a stream listed under its own device: the
/// nearest device of kind `pt` before it is its parent, with only streams of
/// kind `ct` in between.
pub open spec fn follows_its_device(r: Seq<(EntryIdentifier, Entry)>, k: int, pt: EntryType, ct: EntryType) -> bool {
    exists|p: int|
        0 <= p < k && (#[trigger] r[p]).0.entry_type == pt && is_visible_child(r[k], ct, r[p].0.index)
            && forall|q: int| p < q < k ==> (#[trigger] r[q]).0.entry_type == ct
}

proof fn lemma_grouped_order(
    parents: Seq<(EntryIdentifier, Entry)>,
    s: Seq<(EntryIdentifier, Entry)>,
    pt: EntryType,
    ct: EntryType,
)
    requires
        pt != ct,
        forall|k: int| 0 <= k < parents.len() ==> (#[trigger] parents[k]).0.entry_type == pt,
    ensures
        forall|k: int|
            0 <= k < grouped(parents, s, ct).len() && (#[trigger] grouped(parents, s, ct)[k]).0.entry_type
                == ct ==> follows_its_device(grouped(parents, s, ct), k, pt, ct),
    decreases parents.len(),
{
    if parents.len() > 0 {
        let pp = parents.drop_last();
        let last = parents.last();
        let g = grouped(pp, s, ct);
        let f = |x: (EntryIdentifier, Entry)| is_visible_child(x, ct, last.0.index);
        let v = keep(s, f);
        let r = grouped(parents, s, ct);
        assert forall|k: int| 0 <= k < pp.len() implies (#[trigger] pp[k]).0.entry_type == pt by {
            assert(pp[k] == parents[k]);
        }
        lemma_grouped_order(pp, s, pt, ct);
        lemma_keep(s, f);
        assert(r == g.push(last) + v);
        let gl = g.len() as int;
        assert forall|k: int| 0 <= k < r.len() && (#[trigger] r[k]).0.entry_type == ct implies follows_its_device(r, k, pt, ct) by {
            if k < gl {
                assert(r[k] == g[k]);
                assert(g[k].0.entry_type == ct);
                let p = choose|p: int|
                    0 <= p < k && (#[trigger] g[p]).0.entry_type == pt && is_visible_child(g[k], ct, g[p].0.index)
                        && forall|q: int| p < q < k ==> (#[trigger] g[q]).0.entry_type == ct;
                assert(r[p] == g[p]);
                assert forall|q: int| p < q < k implies (#[trigger] r[q]).0.entry_type == ct by {
                    assert(r[q] == g[q]);
                }
            } else if k == gl {
                assert(r[k] == last);
            } else {
                assert(r[k] == v[k - gl - 1]);
                assert(f(v[k - gl - 1]));
                assert(r[gl] == last);
                assert forall|q: int| gl < q < k implies (#[trigger] r[q]).0.entry_type == ct by {
                    assert(r[q] == v[q - gl - 1]);
                    assert(f(v[q - gl - 1]));
                }
            }
        }
    }
}

/// Outside a move, on the Output and Input pages every stream is listed
/// after its own device, with only streams between the two.
pub proof fn lemma_streams_follow_device(s: Seq<(EntryIdentifier, Entry)>, p: PageType, mode: UIMode)
    requires
        p != PageType::Cards,
        !(mode is MoveEntry),
    ensures
        forall|k: int|
            0 <= k < page_spec(s, p, mode).len() && (#[trigger] page_spec(s, p, mode)[k]).0.entry_type
                == spec_parent_child(p).1 ==> follows_its_device(
                page_spec(s, p, mode),
                k,
                spec_parent_child(p).0,
                spec_parent_child(p).1,
            ),
{
    let (pt, ct) = spec_parent_child(p);
    let fp = |x: (EntryIdentifier, Entry)| x.0.entry_type == pt;
    let parents = keep(s, fp);
    lemma_keep(s, fp);
    assert forall|k: int| 0 <= k < parents.len() implies (#[trigger] parents[k]).0.entry_type == pt by {
        assert(fp(parents[k]));
    }
    lemma_grouped_order(parents, s, pt, ct);
    assert(page_spec(s, p, mode) == grouped(parents, s, ct));
}

pub proof fn lemma_key_pos(s: Seq<(EntryIdentifier, Entry)>, i: int)
    requires
        keys_unique(s),
        0 <= i < s.len(),
    ensures
        key_pos(s, s[i].0) == i,
{
}

impl PageType {
    pub open spec fn spec_str(self) -> &'static str {
        match self {
            PageType::Output => "Output",
            PageType::Input => "Input",
            PageType::Cards => "Cards",
        }
    }

    /// The page's title.
    pub fn as_str(&self) -> (r: &'static str)
        ensures
            r == self.spec_str(),
    {
        match self {
            PageType::Output => "Output",
            PageType::Input => "Input",
            PageType::Cards => "Cards",
        }
    }

    pub open spec fn title_style(self, p: PageType) -> TitleStyle {
        if p == self {
            TitleStyle::Bold
        } else {
            TitleStyle::Muted
        }
    }

    /// The title bar: the three page titles separated by muted dividers,
    /// this page's title in bold and the others muted.
    pub fn as_styled_string(&self) -> (r: Vec<StyledText>)
        ensures
            r@ == seq![
                StyledText { style: self.title_style(PageType::Output), text: "Output" },
                StyledText { style: TitleStyle::Muted, text: " / " },
                StyledText { style: self.title_style(PageType::Input), text: "Input" },
                StyledText { style: TitleStyle::Muted, text: " / " },
                StyledText { style: self.title_style(PageType::Cards), text: "Cards" },
            ],
    {
        let mut r: Vec<StyledText> = Vec::new();
        r.push(self.styled_name(PageType::Output));
        r.push(StyledText { style: TitleStyle::Muted, text: " / " });
        r.push(self.styled_name(PageType::Input));
        r.push(StyledText { style: TitleStyle::Muted, text: " / " });
        r.push(self.styled_name(PageType::Cards));
        r
    }

    fn styled_name(&self, p: PageType) -> (r: StyledText)
        ensures
            r == (StyledText { style: self.title_style(p), text: p.spec_str() }),
    {
        let style = if p == *self {
            TitleStyle::Bold
        } else {
            TitleStyle::Muted
        };
        StyledText { style, text: p.as_str() }
    }

    /// The ordered records shown on this page. The Cards page lists the
    /// cards. Other pages list each device followed by its visible streams,
    /// except while an entry is being moved: then the records of the
    /// target's kind are listed with the dragged entry shown right after the
    /// target, as a preview; both must be live entries.
    pub fn generate_page(&self, entries: &Entries, ui_mode: &UIMode) -> (r: Vec<
        (EntryIdentifier, Entry),
    >)
        requires
            entries.wf(),
            *self != PageType::Cards && ui_mode is MoveEntry ==> has_key(entries@, ui_mode->MoveEntry_0)
                && has_key(entries@, ui_mode->MoveEntry_1),
        ensures
            r@ == page_spec(entries@, *self, *ui_mode),
    {
        if *self == PageType::Cards {
            return entries.iter_type(EntryType::Card);
        }
        if let UIMode::MoveEntry(d, t) = ui_mode {
            match (entries.get(d), entries.position(t)) {
                (Some(de), Some(k)) => {
                    proof {
                        lemma_key_pos(entries@, k as int);
                    }
                    return splice_after(entries, *d, de, k);
                },
                _ => {
                    proof {
                        let w = choose|w: int| 0 <= w < entries@.len() && entries@[w].0 == *t;
                        assert(entries@[w].0 == *t);
                        let v = choose|v: int| 0 <= v < entries@.len() && entries@[v].0 == *d;
                        crate::entries::lemma_lookup_at(entries@, v);
                    }
                    return Vec::new();
                },
            }
        }
        let (parent, child) = parent_child_types(*self);
        let parents = entries.iter_type(parent);
        let mut r: Vec<(EntryIdentifier, Entry)> = Vec::new();
        let mut pi: usize = 0;
        while pi < parents.len()
            invariant
                pi <= parents@.len(),
                r@ == grouped(parents@.take(pi as int), entries@, child),
            decreases parents@.len() - pi,
        {
            let p = parents[pi];
            assert(parents@.take(pi + 1).drop_last() == parents@.take(pi as int));
            let ghost before = r@;
            r.push(p);
            let mut j: usize = 0;
            while j < entries.list.len()
                invariant
                    j <= entries@.len(),
                    r@ == before.push(p) + visible_children(entries@.take(j as int), child, p.0.index),
                decreases entries@.len() - j,
            {
                let x = entries.list[j];
                assert(entries@.take(j + 1).drop_last() == entries@.take(j as int));
                if x.0.entry_type == child && x.1.parent == Some(p.0.index) && x.1.hidden
                    == HiddenStatus::Visible {
                    r.push(x);
                    assert(r@ == before.push(p) + visible_children(entries@.take(j + 1), child, p.0.index));
                }
                j += 1;
            }
            assert(entries@.take(j as int) == entries@);
            pi += 1;
        }
        assert(parents@.take(pi as int) == parents@);
        r
    }
}

/// The records of the kind of the record at `k`, with `(d, de)` inserted
/// right after position `k`.
fn splice_after(entries: &Entries, d: EntryIdentifier, de: Entry, k: usize) -> (r: Vec<
    (EntryIdentifier, Entry),
>)
    requires
        k < entries@.len(),
    ensures
        r@ == of_type(entries@.take(k + 1), entries@[k as int].0.entry_type).push((d, de)) + of_type(
            entries@.skip(k + 1),
            entries@[k as int].0.entry_type,
        ),
{
    let s = &entries.list;
    let t = s[k].0.entry_type;
    let mut r: Vec<(EntryIdentifier, Entry)> = Vec::new();
    let n = s.len();
    let mut i: usize = 0;
    while i <= k
        invariant
            i <= k + 1,
            k < n,
            n == s@.len(),
            t == s@[k as int].0.entry_type,
            r@ == of_type(s@.take(i as int), t),
        decreases k + 1 - i,
    {
        assert(s@.take(i + 1).drop_last() == s@.take(i as int));
        if s[i].0.entry_type == t {
            r.push(s[i]);
        }
        i += 1;
    }
    r.push((d, de));
    let ghost head = r@;
    while i < s.len()
        invariant
            k + 1 <= i <= s@.len(),
            r@ == head + of_type(s@.subrange(k + 1, i as int), t),
        decreases s@.len() - i,
    {
        assert(s@.subrange(k + 1, i + 1).drop_last() == s@.subrange(k + 1, i as int));
        if s[i].0.entry_type == t {
            r.push(s[i]);
            assert(r@ == head + of_type(s@.subrange(k + 1, i + 1), t));
        }
        i += 1;
    }
    assert(s@.subrange(k + 1, i as int) == s@.skip(k + 1));
    r
}

} // verus!
