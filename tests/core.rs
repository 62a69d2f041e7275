use mixer_core::dispatch::handle_letter;
use mixer_core::entries::Entries;
use mixer_core::entry::{Entry, EntryIdentifier, EntryType, HiddenStatus, PlayEntry};
use mixer_core::mode::UIMode;
use mixer_core::move_entry::action_handler;
use mixer_core::moves::{move_down_target, move_up_target};
use mixer_core::page::{PageType, TitleStyle};
use mixer_core::redraw::RedrawType;
use mixer_core::state::{Letter, RSState};

fn id(t: EntryType, i: u32) -> EntryIdentifier {
    EntryIdentifier::new(t, i)
}

fn device() -> Entry {
    Entry { volume: 100, parent: None, hidden: HiddenStatus::Visible, play_entry: Some(PlayEntry { peak: 0 }) }
}

fn stream(parent: u32, hidden: HiddenStatus) -> Entry {
    Entry { volume: 50, parent: Some(parent), hidden, play_entry: Some(PlayEntry { peak: 0 }) }
}

fn card() -> Entry {
    Entry { volume: 0, parent: None, hidden: HiddenStatus::Visible, play_entry: None }
}

fn sink(i: u32) -> EntryIdentifier {
    id(EntryType::Sink, i)
}

fn input(i: u32) -> EntryIdentifier {
    id(EntryType::SinkInput, i)
}

/// Two sinks; inputs 10 and 12 under sink 0, input 11 under sink 1 but hidden;
/// one source and one card.
fn sample_state() -> RSState {
    let mut st = RSState::new();
    let letters = [
        Letter::EntryUpdate(sink(0), device()),
        Letter::EntryUpdate(input(10), stream(0, HiddenStatus::Visible)),
        Letter::EntryUpdate(sink(1), device()),
        Letter::EntryUpdate(input(11), stream(1, HiddenStatus::Hidden)),
        Letter::EntryUpdate(input(12), stream(0, HiddenStatus::Visible)),
        Letter::EntryUpdate(id(EntryType::Source, 0), device()),
        Letter::EntryUpdate(id(EntryType::Card, 0), card()),
    ];
    for l in letters.iter() {
        let step = handle_letter(l, &mut st);
        assert_eq!(step.redraw, RedrawType::Full);
        st.clear_redraw();
    }
    st
}

fn page_ids(st: &RSState, p: PageType, mode: &UIMode) -> Vec<EntryIdentifier> {
    p.generate_page(&st.entries, mode).iter().map(|x| x.0).collect()
}

#[test]
fn merge_keeps_the_larger_directive() {
    let a = RedrawType::PeakVolume(sink(0));
    let b = RedrawType::PeakVolume(sink(1));
    let mut r = RedrawType::Nothing;
    r.take_bigger(a);
    assert_eq!(r, a);
    r.take_bigger(RedrawType::Nothing);
    assert_eq!(r, a);
    r.take_bigger(a);
    assert_eq!(r, a);
    r.take_bigger(RedrawType::Help);
    assert_eq!(r, RedrawType::Help);
    r.take_bigger(a);
    assert_eq!(r, RedrawType::Help);
    r.take_bigger(RedrawType::Full);
    assert_eq!(r, RedrawType::Full);
    let mut two = a;
    b.apply(&mut two);
    assert_eq!(two, RedrawType::Full);
    let mut n = RedrawType::Nothing;
    RedrawType::Help.apply(&mut n);
    assert_eq!(n, RedrawType::Help);
}

#[test]
fn move_targets_skip_the_dragged_slot() {
    // dragged at slot 1 of 4: the other slots 0, 2, 3 have ranks 0, 1, 2
    assert_eq!(move_down_target(4, 1, 0, 1), 2);
    assert_eq!(move_down_target(4, 1, 0, 2), 3);
    assert_eq!(move_down_target(4, 1, 0, 3), 0);
    assert_eq!(move_down_target(4, 1, 3, 1), 0);
    assert_eq!(move_up_target(4, 1, 0, 1), 3);
    assert_eq!(move_up_target(4, 1, 2, 1), 0);
    assert_eq!(move_up_target(4, 1, 3, 4), 2);
    assert_eq!(move_up_target(4, 1, 3, 5), 0);
    assert_eq!(move_down_target(2, 0, 1, 7), 1);
    assert_eq!(move_up_target(2, 1, 0, 9), 0);
}

#[test]
fn move_down_visits_every_other_slot_once() {
    for len in 2usize..7 {
        for s in 0..len {
            for start in 0..len {
                if start == s {
                    continue;
                }
                let mut seen: Vec<usize> = Vec::new();
                let mut cur = start;
                for _ in 0..(len - 1) {
                    cur = move_down_target(len, s, cur, 1);
                    assert!(cur < len && cur != s);
                    assert!(!seen.contains(&cur));
                    seen.push(cur);
                }
                assert_eq!(seen.len(), len - 1);
                assert_eq!(cur, start);
            }
        }
    }
}

#[test]
fn move_wraps_at_both_ends() {
    // dragged first of three: valid destinations are slots 1 and 2
    assert_eq!(move_up_target(3, 0, 1, 1), 2);
    assert_eq!(move_down_target(3, 0, 2, 1), 1);
    // dragged last of four: valid destinations are slots 0, 1, 2
    assert_eq!(move_up_target(4, 3, 0, 1), 2);
    assert_eq!(move_down_target(4, 3, 2, 1), 0);
    // dragged in the middle of three: valid destinations are slots 0 and 2
    assert_eq!(move_up_target(3, 1, 0, 1), 2);
    assert_eq!(move_down_target(3, 1, 2, 1), 0);
}

#[test]
fn output_page_groups_streams_under_devices() {
    let st = sample_state();
    assert_eq!(page_ids(&st, PageType::Output, &UIMode::Normal), vec![sink(0), input(10), input(12), sink(1)]);
    assert_eq!(st.page_entries.entries, vec![sink(0), input(10), input(12), sink(1)]);
    assert_eq!(page_ids(&st, PageType::Input, &UIMode::Help), vec![id(EntryType::Source, 0)]);
    assert_eq!(page_ids(&st, PageType::Cards, &UIMode::Normal), vec![id(EntryType::Card, 0)]);
}

#[test]
fn page_lists_live_entries_once() {
    let st = sample_state();
    for p in [PageType::Output, PageType::Input, PageType::Cards] {
        for mode in [UIMode::Normal, UIMode::ContextMenu, UIMode::Help] {
            let ids = page_ids(&st, p, &mode);
            for (k, i) in ids.iter().enumerate() {
                assert!(st.entries.contains(i));
                assert!(!ids[k + 1..].contains(i));
            }
        }
    }
}

#[test]
fn move_preview_splices_after_target() {
    let st = sample_state();
    let mode = UIMode::MoveEntry(input(10), sink(0));
    assert_eq!(page_ids(&st, PageType::Output, &mode), vec![sink(0), input(10), sink(1)]);
    let mode = UIMode::MoveEntry(input(10), sink(1));
    assert_eq!(page_ids(&st, PageType::Output, &mode), vec![sink(0), sink(1), input(10)]);
    // the cards page ignores moves
    assert_eq!(page_ids(&st, PageType::Cards, &mode), vec![id(EntryType::Card, 0)]);
}

#[test]
fn peak_updates_are_debounced() {
    let mut st = sample_state();
    let r = handle_letter(&Letter::PeakVolumeUpdate(sink(0), 500), &mut st);
    assert_eq!(r.redraw, RedrawType::PeakVolume(sink(0)));
    assert_eq!(st.entries.get(&sink(0)).unwrap().play_entry, Some(PlayEntry { peak: 500 }));
    st.clear_redraw();
    let r = handle_letter(&Letter::PeakVolumeUpdate(sink(0), 500), &mut st);
    assert_eq!(r.redraw, RedrawType::Nothing);
    let r = handle_letter(&Letter::PeakVolumeUpdate(sink(0), 502), &mut st);
    assert_eq!(r.redraw, RedrawType::PeakVolume(sink(0)));
    // recorded but off the page: the hidden stream
    let r = handle_letter(&Letter::PeakVolumeUpdate(input(11), 502), &mut st);
    assert_eq!(r.redraw, RedrawType::Nothing);
    assert_eq!(st.entries.get(&input(11)).unwrap().play_entry, Some(PlayEntry { peak: 502 }));
    // unknown entry
    let r = handle_letter(&Letter::PeakVolumeUpdate(sink(7), 900), &mut st);
    assert_eq!(r.redraw, RedrawType::Nothing);
}

#[test]
fn card_peak_is_ignored() {
    let mut st = sample_state();
    let before = st.entries.list.clone();
    let r = handle_letter(&Letter::PeakVolumeUpdate(id(EntryType::Card, 0), 700), &mut st);
    assert_eq!(r.redraw, RedrawType::Nothing);
    assert_eq!(r.command, None);
    assert_eq!(st.entries.list, before);
}

#[test]
fn move_protocol_previews_then_commits() {
    let mut st = sample_state();
    let before = st.entries.list.clone();
    // select input 12 (slot 2)
    handle_letter(&Letter::MoveDown(2), &mut st);
    assert_eq!(st.selected, 3);
    handle_letter(&Letter::OpenContextMenu, &mut st);
    assert_eq!(st.ui_mode, UIMode::ContextMenu);
    let r = handle_letter(&Letter::StartMoving, &mut st);
    assert_eq!(r.redraw, RedrawType::Full);
    assert_eq!(st.ui_mode, UIMode::MoveEntry(input(12), input(10)));
    let r = handle_letter(&Letter::MoveDown(1), &mut st);
    assert_eq!(r.redraw, RedrawType::Full);
    assert_eq!(r.command, None);
    assert_eq!(st.ui_mode, UIMode::MoveEntry(input(12), sink(1)));
    handle_letter(&Letter::MoveDown(1), &mut st);
    assert_eq!(st.ui_mode, UIMode::MoveEntry(input(12), sink(0)));
    handle_letter(&Letter::MoveDown(1), &mut st);
    assert_eq!(st.ui_mode, UIMode::MoveEntry(input(12), input(10)));
    let r = handle_letter(&Letter::MoveUp(1), &mut st);
    assert_eq!(r.command, None);
    assert_eq!(st.ui_mode, UIMode::MoveEntry(input(12), sink(0)));
    handle_letter(&Letter::MoveUp(1), &mut st);
    assert_eq!(st.ui_mode, UIMode::MoveEntry(input(12), sink(1)));
    assert_eq!(st.selected, 3);
    assert_eq!(st.entries.list, before);
    st.clear_redraw();
    let r = handle_letter(&Letter::OpenContextMenu, &mut st);
    assert_eq!(r.redraw, RedrawType::Full);
    assert_eq!(r.command, Some(Letter::MoveEntryToParent(input(12), sink(1))));
    assert_eq!(st.ui_mode, UIMode::Normal);
    assert_eq!(st.entries.list, before);
}

#[test]
fn move_handler_direct() {
    let mut st = sample_state();
    st.selected = 1;
    st.ui_mode = UIMode::MoveEntry(sink(0), sink(1));
    let r = action_handler(&Letter::MoveUp(1), &mut st);
    assert_eq!(r.redraw, RedrawType::Full);
    assert_eq!(st.ui_mode, UIMode::MoveEntry(sink(0), input(12)));
    let r = action_handler(&Letter::MoveDown(1), &mut st);
    assert_eq!(st.ui_mode, UIMode::MoveEntry(sink(0), sink(1)));
    assert_eq!(r.command, None);
    let r = action_handler(&Letter::Redraw, &mut st);
    assert_eq!(r.redraw, RedrawType::Nothing);
}

#[test]
fn start_moving_needs_two_entries() {
    let mut st = RSState::new();
    handle_letter(&Letter::EntryUpdate(sink(0), device()), &mut st);
    handle_letter(&Letter::OpenContextMenu, &mut st);
    assert_eq!(st.ui_mode, UIMode::ContextMenu);
    handle_letter(&Letter::StartMoving, &mut st);
    assert_eq!(st.ui_mode, UIMode::Normal);
}

#[test]
fn entry_changes_keep_a_live_move() {
    let mut st = sample_state();
    handle_letter(&Letter::OpenContextMenu, &mut st);
    handle_letter(&Letter::StartMoving, &mut st);
    assert_eq!(st.ui_mode, UIMode::MoveEntry(sink(0), sink(1)));
    // a volume change of the dragged entry keeps the move
    let r = handle_letter(&Letter::EntryUpdate(sink(0), Entry { volume: 3, ..device() }), &mut st);
    assert_eq!(r.redraw, RedrawType::Full);
    assert_eq!(st.ui_mode, UIMode::MoveEntry(sink(0), sink(1)));
    // another stream leaving keeps it too
    handle_letter(&Letter::EntryRemoved(input(10)), &mut st);
    assert_eq!(st.ui_mode, UIMode::MoveEntry(sink(0), sink(1)));
    assert_eq!(st.selected, 1);
    assert_eq!(st.page_entries.entries, vec![sink(0), input(12), sink(1)]);
}

#[test]
fn selection_follows_the_dragged_entry() {
    let mut st = sample_state();
    handle_letter(&Letter::MoveDown(3), &mut st);
    handle_letter(&Letter::OpenContextMenu, &mut st);
    handle_letter(&Letter::StartMoving, &mut st);
    assert_eq!(st.ui_mode, UIMode::MoveEntry(sink(1), input(12)));
    handle_letter(&Letter::EntryRemoved(input(10)), &mut st);
    assert_eq!(st.ui_mode, UIMode::MoveEntry(sink(1), input(12)));
    assert_eq!(st.selected, 3);
}

#[test]
fn losing_the_target_cancels_a_move() {
    let mut st = sample_state();
    handle_letter(&Letter::OpenContextMenu, &mut st);
    handle_letter(&Letter::StartMoving, &mut st);
    let r = handle_letter(&Letter::EntryRemoved(sink(1)), &mut st);
    assert_eq!(r.redraw, RedrawType::Full);
    assert_eq!(st.ui_mode, UIMode::Normal);
    assert!(!st.entries.contains(&sink(1)));
    assert_eq!(st.page_entries.entries, vec![sink(0), input(10), input(12)]);
}

#[test]
fn mismatched_record_is_refused() {
    let mut st = sample_state();
    let r = handle_letter(&Letter::EntryUpdate(id(EntryType::Card, 3), device()), &mut st);
    assert_eq!(r.redraw, RedrawType::Nothing);
    assert!(!st.entries.contains(&id(EntryType::Card, 3)));
    let r = handle_letter(&Letter::EntryUpdate(sink(4), card()), &mut st);
    assert_eq!(r.redraw, RedrawType::Nothing);
    assert!(!st.entries.contains(&sink(4)));
}

#[test]
fn updating_an_entry_replaces_it_in_place() {
    let mut st = sample_state();
    let n = st.entries.len();
    handle_letter(&Letter::EntryUpdate(input(12), stream(1, HiddenStatus::Visible)), &mut st);
    assert_eq!(st.entries.len(), n);
    assert_eq!(st.entries.position(&input(12)), Some(4));
    assert_eq!(st.page_entries.entries, vec![sink(0), input(10), sink(1), input(12)]);
}

#[test]
fn cursor_stays_on_the_page() {
    let mut st = sample_state();
    assert_eq!(st.selected, 1);
    let r = handle_letter(&Letter::MoveUp(3), &mut st);
    assert_eq!(r.redraw, RedrawType::Nothing);
    assert_eq!(st.selected, 1);
    let r = handle_letter(&Letter::MoveDown(10), &mut st);
    assert_eq!(r.redraw, RedrawType::Full);
    assert_eq!(st.selected, 4);
    handle_letter(&Letter::EntryRemoved(sink(1)), &mut st);
    assert_eq!(st.selected, 3);
}

#[test]
fn help_mode_round_trip() {
    let mut st = sample_state();
    let r = handle_letter(&Letter::OpenHelp, &mut st);
    assert_eq!(r.redraw, RedrawType::Help);
    assert_eq!(st.ui_mode, UIMode::Help);
    st.clear_redraw();
    let r = handle_letter(&Letter::Redraw, &mut st);
    assert_eq!(r.redraw, RedrawType::Help);
    st.clear_redraw();
    let r = handle_letter(&Letter::PeakVolumeUpdate(sink(0), 40), &mut st);
    assert_eq!(r.redraw, RedrawType::Nothing);
    let r = handle_letter(&Letter::CloseHelp, &mut st);
    assert_eq!(r.redraw, RedrawType::Full);
    assert_eq!(st.ui_mode, UIMode::Normal);
}

#[test]
fn change_page_rebuilds_the_projection() {
    let mut st = sample_state();
    handle_letter(&Letter::MoveDown(2), &mut st);
    let r = handle_letter(&Letter::ChangePage(PageType::Cards), &mut st);
    assert_eq!(r.redraw, RedrawType::Full);
    assert_eq!(st.current_page, PageType::Cards);
    assert_eq!(st.selected, 1);
    assert_eq!(st.page_entries.entries, vec![id(EntryType::Card, 0)]);
}

#[test]
fn exit_signal_stops() {
    let mut st = sample_state();
    let r = handle_letter(&Letter::ExitSignal, &mut st);
    assert!(r.exit);
    assert_eq!(r.redraw, RedrawType::Nothing);
    let r = handle_letter(&Letter::Redraw, &mut st);
    assert!(!r.exit);
    assert_eq!(r.redraw, RedrawType::Full);
}

#[test]
fn page_titles() {
    assert_eq!(PageType::Output.as_str(), "Output");
    assert_eq!(PageType::Input.as_str(), "Input");
    assert_eq!(PageType::Cards.as_str(), "Cards");
    let t = PageType::Input.as_styled_string();
    let texts: Vec<&str> = t.iter().map(|s| s.text).collect();
    assert_eq!(texts, vec!["Output", " / ", "Input", " / ", "Cards"]);
    let styles: Vec<TitleStyle> = t.iter().map(|s| s.style).collect();
    assert_eq!(styles, vec![TitleStyle::Muted, TitleStyle::Muted, TitleStyle::Bold, TitleStyle::Muted, TitleStyle::Muted]);
}

#[test]
fn page_numbers_convert() {
    assert_eq!(i8::from(PageType::Output), 0);
    assert_eq!(i8::from(PageType::Input), 1);
    assert_eq!(i8::from(PageType::Cards), 2);
    assert_eq!(PageType::from(-1i8), PageType::Cards);
    assert_eq!(PageType::from(1i8), PageType::Input);
    assert_eq!(PageType::from(2i8), PageType::Cards);
    assert_eq!(PageType::from(5i8), PageType::Output);
}

#[test]
fn entries_collection_basics() {
    let mut e = Entries::new();
    e.insert(sink(0), device());
    e.insert(sink(1), device());
    e.insert(sink(0), Entry { volume: 7, ..device() });
    assert_eq!(e.len(), 2);
    assert_eq!(e.get(&sink(0)).unwrap().volume, 7);
    assert_eq!(e.iter_type(EntryType::Sink).len(), 2);
    assert!(e.iter_type(EntryType::Card).is_empty());
    e.remove(&sink(0));
    assert_eq!(e.get(&sink(0)), None);
    assert_eq!(e.position(&sink(1)), Some(0));
}
