use transcoder::mirror::{EventAction, FileEvent, WatchPair, plan_event};
use transcoder::timestamp::make_shift;

#[test]
fn watch_pair_splits_at_the_first_separator() {
    let wp = WatchPair::parse("/films:/mirror").expect("valid pair");
    assert_eq!(wp.src, "/films");
    assert_eq!(wp.dst, "/mirror");
    let wp = WatchPair::parse("a=b").expect("valid pair");
    assert_eq!(wp.src, "a");
    assert_eq!(wp.dst, "b");
    let wp = WatchPair::parse("a b c").expect("valid pair");
    assert_eq!(wp.src, "a");
    assert_eq!(wp.dst, "b c");
    let wp = WatchPair::parse("x:y:z").expect("valid pair");
    assert_eq!(wp.src, "x");
    assert_eq!(wp.dst, "y:z");
    let wp = WatchPair::parse(";rest").expect("valid pair");
    assert_eq!(wp.src, "");
    assert_eq!(wp.dst, "rest");
}

#[test]
fn watch_pair_without_separator_is_rejected() {
    let e = WatchPair::parse("nosephere").expect_err("no separator");
    assert_eq!(e, "Invalid format of watch pair");
}

#[test]
fn removal_events_remove_the_mapped_destination() {
    for ev in [FileEvent::Delete, FileEvent::MovedFrom] {
        match plan_event(ev, "/src/a/b.mkv", "/src", "/dst", false, false, false) {
            EventAction::Remove { dst } => assert_eq!(dst, "/dst/a/b.mkv"),
            _ => panic!("expected a removal"),
        }
    }
}

#[test]
fn creation_events_emplace_the_file() {
    for ev in [FileEvent::Create, FileEvent::MovedTo, FileEvent::CloseWrite] {
        match plan_event(ev, "/src/a/b.mkv", "/src", "/dst", false, false, false) {
            EventAction::Emplace { dst } => assert_eq!(dst, "/dst/a/b.mkv"),
            _ => panic!("expected an emplacement"),
        }
    }
}

#[test]
fn paths_outside_the_root_are_ignored() {
    assert!(matches!(
        plan_event(FileEvent::Create, "/other/b.mkv", "/src", "/dst", false, false, false),
        EventAction::SkipOutsideRoot
    ));
}

#[test]
fn equal_source_and_destination_are_refused() {
    // A misconfigured pair maps the file onto itself: warn and do nothing.
    assert!(matches!(
        plan_event(FileEvent::Delete, "/src/a", "/src", "/src", false, false, false),
        EventAction::SkipSameTarget
    ));
}

#[test]
fn directories_are_not_mirrored() {
    assert!(matches!(
        plan_event(FileEvent::Create, "/src/sub", "/src", "/dst", true, false, false),
        EventAction::SkipDirectory
    ));
}

#[test]
fn bootstrap_skips_existing_destinations() {
    // The reconciliation pass performs no work where the mirror is up to
    // date.
    assert!(matches!(
        plan_event(FileEvent::Create, "/src/a.mkv", "/src", "/dst", false, true, true),
        EventAction::SkipExisting
    ));
    // A live event replaces the destination even when it exists.
    assert!(matches!(
        plan_event(FileEvent::Create, "/src/a.mkv", "/src", "/dst", false, true, false),
        EventAction::Emplace { .. }
    ));
}

#[test]
fn unexpected_events_are_reported() {
    assert!(matches!(
        plan_event(FileEvent::Other, "/src/a.mkv", "/src", "/dst", false, false, false),
        EventAction::SkipUnexpected
    ));
}

#[test]
fn shift_rebases_the_first_timestamp_to_zero() {
    let mut shift: Option<i64> = None;
    assert_eq!(make_shift(None, &mut shift), None);
    assert_eq!(shift, None);
    assert_eq!(make_shift(Some(500), &mut shift), Some(0));
    assert_eq!(shift, Some(-500));
    assert_eq!(make_shift(Some(740), &mut shift), Some(240));
    assert_eq!(shift, Some(-500));
    assert_eq!(make_shift(None, &mut shift), None);
    assert_eq!(shift, Some(-500));
}

#[test]
fn shift_applies_to_negative_timestamps_too() {
    let mut shift: Option<i64> = Some(100);
    assert_eq!(make_shift(Some(-40), &mut shift), Some(60));
    assert_eq!(shift, Some(100));
}
