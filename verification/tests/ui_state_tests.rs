use padamo::cross_progress::{CrossProgress, CrossProgressMessage};
use padamo::decimal::{parse_unsigned_bounded, usize_to_decimal};
use padamo::detector_muxer::{get_mask_var, get_signal_var, get_transform_var};
use padamo::double_entry_state::EntryState;
use padamo::interval_selector::{IntervalSelectionDialog, SelectionMessage};
use padamo::popup_message::{MessageList, PadamoPopupMessageType};
use padamo::sparse_intervals::{Interval, IntervalStorage};
use padamo::viewer::PlayState;

fn sync(cp: &CrossProgress) -> (usize, usize, usize) {
    let m = cp.get_sync_message(false).unwrap();
    (m.start, m.end - 1, m.pointer)
}

#[test]
fn decimal_text_round_trip() {
    assert_eq!(usize_to_decimal(0), "0");
    assert_eq!(usize_to_decimal(7), "7");
    assert_eq!(usize_to_decimal(1234567890), "1234567890");
    assert_eq!(usize_to_decimal(usize::MAX), usize::MAX.to_string());
    assert_eq!(parse_unsigned_bounded("42", usize::MAX), Some(42));
    assert_eq!(parse_unsigned_bounded("+42", usize::MAX), Some(42));
    assert_eq!(parse_unsigned_bounded("0042", usize::MAX), Some(42));
    assert_eq!(parse_unsigned_bounded("", usize::MAX), None);
    assert_eq!(parse_unsigned_bounded("+", usize::MAX), None);
    assert_eq!(parse_unsigned_bounded("-1", usize::MAX), None);
    assert_eq!(parse_unsigned_bounded(" 1", usize::MAX), None);
    assert_eq!(parse_unsigned_bounded("1a", usize::MAX), None);
    assert_eq!(parse_unsigned_bounded("4294967295", u32::MAX as usize), Some(4294967295));
    assert_eq!(parse_unsigned_bounded("4294967296", u32::MAX as usize), None);
    assert_eq!(parse_unsigned_bounded("18446744073709551616", usize::MAX), None);
    for n in [0usize, 9, 10, 99, 100, 65535, 1 << 40] {
        assert_eq!(parse_unsigned_bounded(&usize_to_decimal(n), usize::MAX), Some(n));
    }
}

#[test]
fn entry_state_reads_and_keeps() {
    let mut e: EntryState<usize> = EntryState::new(30000);
    assert_eq!(e.string_value, "30000");
    assert!(e.is_valid);
    e.set_string("125".to_string());
    assert_eq!(e.parsed_value, 125);
    assert!(e.is_valid);
    e.set_string("12x".to_string());
    assert_eq!(e.parsed_value, 125);
    assert!(!e.is_valid);
    assert_eq!(e.string_value, "12x");
    e.set_value(7);
    assert_eq!(e.string_value, "7");
    assert!(e.is_valid);
    let mut w: EntryState<u32> = EntryState::new(1024);
    w.set_string("4294967296".to_string());
    assert!(!w.is_valid);
    assert_eq!(w.parsed_value, 1024);
}

#[test]
fn cross_progress_messages() {
    let mut cp = CrossProgress::new(0);
    assert_eq!(sync(&cp), (0, 100, 0));
    assert!(!cp.update(CrossProgressMessage::SetViewPosition(40)));
    assert_eq!(sync(&cp), (0, 100, 40));
    cp.update(CrossProgressMessage::SetStart);
    assert_eq!(sync(&cp), (40, 100, 40));
    cp.update(CrossProgressMessage::StepFwd);
    cp.update(CrossProgressMessage::StepFwd);
    cp.update(CrossProgressMessage::SetEnd);
    assert_eq!(sync(&cp), (40, 42, 42));
    cp.update(CrossProgressMessage::StepBack);
    assert_eq!(sync(&cp), (40, 42, 41));
    cp.update(CrossProgressMessage::Reset);
    assert_eq!(sync(&cp), (0, 100, 41));
    cp.update(CrossProgressMessage::JumpToEnd);
    assert_eq!(sync(&cp), (0, 100, 100));
    cp.update(CrossProgressMessage::StepFwd);
    assert_eq!(sync(&cp), (0, 100, 100));
    cp.update(CrossProgressMessage::JumpToStart);
    cp.update(CrossProgressMessage::StepBack);
    assert_eq!(sync(&cp), (0, 100, 0));
    cp.update(CrossProgressMessage::SetViewPosition(150));
    assert_eq!(sync(&cp), (0, 150, 150));
    assert!(cp.update(CrossProgressMessage::FocusOn(5, 9)));
    assert_eq!(sync(&cp), (5, 9, 5));
    let mut aux = CrossProgress::new(2);
    assert!(!aux.update(CrossProgressMessage::FocusOn(5, 9)));
    assert!(aux.get_sync_message(false).is_none());
}

#[test]
fn cross_progress_submit_timeline_clamps() {
    let mut cp = CrossProgress::new(0);
    cp.update(CrossProgressMessage::SetViewPositionText("70".to_string()));
    cp.update(CrossProgressMessage::SetViewStartText("80".to_string()));
    cp.update(CrossProgressMessage::SetViewEndText("500".to_string()));
    cp.update(CrossProgressMessage::SubmitTimeline);
    // end cut to the length 100, start kept below the cursor
    assert_eq!(sync(&cp), (70, 100, 70));
    cp.update(CrossProgressMessage::SetViewPositionText("oops".to_string()));
    cp.update(CrossProgressMessage::SubmitTimeline);
    assert_eq!(sync(&cp), (70, 100, 70));
}

#[test]
fn cross_progress_signal_and_datetime() {
    let mut cp = CrossProgress::new(0);
    cp.update(CrossProgressMessage::JumpToEnd);
    let r = cp.update_signal_info(Some(51)).unwrap();
    assert_eq!((r.start, r.end, r.pointer), (0, 50, 50));
    assert!(cp.update_signal_info(None).is_none());
    cp.update(CrossProgressMessage::EditDatetime("12:00:00".to_string()));
    cp.update(CrossProgressMessage::SubmitDatetime(Some(80)));
    assert_eq!(sync(&cp), (0, 50, 50));
    cp.update(CrossProgressMessage::SubmitDatetime(Some(10)));
    assert_eq!(sync(&cp), (0, 50, 10));
    let mut aux = CrossProgress::new(1);
    assert!(aux.update_signal_info(Some(10)).is_none());
}

#[test]
fn cross_progress_playback_ticks() {
    let mut cp = CrossProgress::new(0);
    cp.update(CrossProgressMessage::SetViewPosition(98));
    assert!(!cp.run_tick());
    assert!(cp.get_sync_message(true).is_none());
    cp.update(CrossProgressMessage::Forward);
    assert!(cp.get_sync_message(true).is_some());
    assert!(cp.run_tick());
    assert!(cp.run_tick());
    assert_eq!(sync(&cp), (0, 100, 100));
    assert!(!cp.run_tick());
    assert!(cp.get_sync_message(true).is_none());
    cp.update(CrossProgressMessage::Backward);
    assert!(cp.run_tick());
    assert_eq!(sync(&cp), (0, 100, 99));
    cp.update(CrossProgressMessage::Stop);
    assert!(!cp.run_tick());
    let _ = PlayState::Stop;
}

#[test]
fn interval_dialog_flow() {
    let mut storage = IntervalStorage::new_full(100);
    storage.take_interval(Interval::new(10, 20));
    let mut d = IntervalSelectionDialog::new(storage);
    let i = d.get_interval();
    assert_eq!((i.start, i.end), (0, 10));
    d.update(SelectionMessage::IntervalSelected(1, String::new()));
    let i = d.get_interval();
    assert_eq!((i.start, i.end), (20, 100));
    d.update(SelectionMessage::SetStart("30".to_string()));
    d.update(SelectionMessage::SetEnd("bad".to_string()));
    d.update(SelectionMessage::CommitInterval);
    let i = d.get_interval();
    assert_eq!((i.start, i.end), (30, 100));
    let empty = IntervalSelectionDialog::new(IntervalStorage::new_empty());
    let i = empty.get_interval();
    assert_eq!((i.start, i.end), (0, 0));
}

#[test]
fn popup_queue_order() {
    assert_eq!(PadamoPopupMessageType::Info.title(), "Info");
    assert_eq!(PadamoPopupMessageType::Warning.title(), "Warning");
    assert_eq!(PadamoPopupMessageType::Error.title(), "Error");
    let mut q = MessageList::new();
    assert!(q.oldest_message().is_none());
    q.add_message("first".to_string(), PadamoPopupMessageType::Warning);
    q.add_message("second".to_string(), PadamoPopupMessageType::Error);
    let m = format!("{:?}", q.oldest_message().unwrap());
    assert!(m.contains("first") && m.contains("Warning"));
    q.pop_oldest_message();
    let m = format!("{:?}", q.oldest_message().unwrap());
    assert!(m.contains("second") && m.contains("Error"));
    q.pop_oldest_message();
    assert!(q.oldest_message().is_none());
    q.pop_oldest_message();
    assert!(q.oldest_message().is_none());
}

#[test]
fn detector_variable_names() {
    assert_eq!(get_signal_var(0), "ViewerSignal");
    assert_eq!(get_signal_var(3), "ViewerSignalAux3");
    assert_eq!(get_mask_var(0), "alive_pixels");
    assert_eq!(get_mask_var(12), "alive_pixels_aux_12");
    assert_eq!(get_transform_var(0), "detector_transform");
    assert_eq!(get_transform_var(1), "detector_transform_aux_1");
}
