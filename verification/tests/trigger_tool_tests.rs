use padamo::interval_selector::SelectionMessage;
use padamo::sparse_intervals::{Interval, IntervalStorage};
use padamo::trigger::{next_run_step, RunStep, chunk_end, progress_text, PadamoTrigger, TriggerAction, TriggerEvent, TriggerProcessMessage};

fn error_text(a: &TriggerAction) -> String {
    match a {
        TriggerAction::ShowError(e) => e.clone(),
        other => panic!("expected an error, got {:?}", other),
    }
}

#[test]
fn trigger_tool_starts_idle() {
    let t = PadamoTrigger::new();
    assert_eq!(t.trigger_status, "IDLE");
    assert_eq!(t.export_status, "IDLE");
    let u: Vec<(usize, usize)> = t.unmarked_intervals.container.iter().map(|x| (x.start, x.end)).collect();
    assert_eq!(u, vec![(0, 100)]);
    assert!(t.selection.is_none() && t.selected_interval.is_none() && t.selection_positive);
    assert!(t.trigger_interval_selector.is_none());
    assert!(matches!(t.examine_event(), TriggerAction::ShowInfo(ref m) if m == "Select event to examine"));
}

#[test]
fn choosing_needs_a_signal_and_a_trigger() {
    let mut t = PadamoTrigger::new();
    let a = t.update(TriggerEvent::ChooseTrigger, false, false, false);
    assert_eq!(error_text(&a), "No signal");
    let a = t.update(TriggerEvent::ChooseTrigger, true, false, false);
    assert_eq!(error_text(&a), "No trigger is attached to signal");
    assert!(t.trigger_interval_selector.is_none());
    let a = t.update(TriggerEvent::ChooseTrigger, true, true, false);
    assert!(matches!(a, TriggerAction::Nothing));
    assert!(t.trigger_interval_selector.is_some());
    t.update(TriggerEvent::CancelChoseTrigger, true, true, false);
    assert!(t.trigger_interval_selector.is_none());
}

#[test]
fn confirming_starts_the_worker_on_the_chosen_interval() {
    let mut t = PadamoTrigger::new();
    t.reset_intervals(400);
    t.trigger_status = "12/400".to_string();
    t.update(TriggerEvent::ChooseTrigger, true, true, false);
    t.update(TriggerEvent::SelectionMessage(SelectionMessage::SetStart("50".to_string())), true, true, false);
    t.update(TriggerEvent::SelectionMessage(SelectionMessage::SetEnd("250".to_string())), true, true, false);
    t.update(TriggerEvent::SelectionMessage(SelectionMessage::CommitInterval), true, true, false);
    match t.update(TriggerEvent::ConfirmTrigger, true, true, false) {
        TriggerAction::StartTrigger { interval, settings } => {
            assert_eq!((interval.start, interval.end), (50, 250));
            assert_eq!((settings.chunksize, settings.safeguard), (10000, 3000));
        },
        other => panic!("unexpected {:?}", other),
    }
    assert_eq!(t.trigger_status, "IDLE");
    assert!(t.trigger_interval_selector.is_none());
}

#[test]
fn confirming_a_taken_interval_is_refused() {
    let mut t = PadamoTrigger::new();
    t.update(TriggerEvent::ChooseTrigger, true, true, false);
    t.update(TriggerEvent::SelectionMessage(SelectionMessage::SetStart("5".to_string())), true, true, false);
    t.update(TriggerEvent::SelectionMessage(SelectionMessage::SetEnd("50".to_string())), true, true, false);
    t.update(TriggerEvent::SelectionMessage(SelectionMessage::CommitInterval), true, true, false);
    assert!(t.mark_is_defined(Interval::new(0, 10), true));
    t.apply_process_message(TriggerProcessMessage::MarkPositive(Interval::new(0, 10)));
    let a = t.update(TriggerEvent::ConfirmTrigger, true, true, false);
    assert_eq!(error_text(&a), "Interval [5, 50) (45) is not available");
    assert!(t.trigger_interval_selector.is_none());
    // without a trigger the dialog closes with nothing done
    t.update(TriggerEvent::ChooseTrigger, true, true, false);
    let a = t.update(TriggerEvent::ConfirmTrigger, true, false, false);
    assert!(matches!(a, TriggerAction::Nothing));
    assert!(t.trigger_interval_selector.is_none());
}

#[test]
fn worker_reports_and_event_choice() {
    let mut t = PadamoTrigger::new();
    t.reset_intervals(10000);
    t.apply_process_message(TriggerProcessMessage::MarkPositive(Interval::new(12, 15)));
    t.apply_process_message(TriggerProcessMessage::MarkNegative(Interval::new(15, 5015)));
    t.apply_process_message(TriggerProcessMessage::Status("5015/10000".to_string()));
    assert_eq!(t.trigger_status, "5015/10000");
    t.update_interval_strings();
    assert_eq!(t.positive_strings, vec!["[12, 15) (3)".to_string()]);
    assert_eq!(t.negative_strings, vec!["[15, 5015) (5000)".to_string()]);
    match t.update(TriggerEvent::SelectPositive(0), true, false, false) {
        TriggerAction::LoadEvent(iv) => assert_eq!((iv.start, iv.end), (12, 15)),
        other => panic!("unexpected {:?}", other),
    }
    assert!(matches!(t.examine_event(), TriggerAction::FocusOn(12, 15)));
    // an event longer than the safeguard is chosen but not loaded
    let a = t.update(TriggerEvent::SelectNegative(0), true, false, false);
    assert!(matches!(a, TriggerAction::Nothing));
    assert!(matches!(t.examine_event(), TriggerAction::FocusOn(15, 5015)));
    assert!(!t.selection_positive);
    // nor while another load runs
    let a = t.update(TriggerEvent::SelectPositive(0), true, false, true);
    assert!(matches!(a, TriggerAction::Nothing));
    assert!(matches!(t.examine_event(), TriggerAction::FocusOn(12, 15)));
    // without a signal only the choice is kept
    t.selected_interval = None;
    let a = t.update(TriggerEvent::SelectNegative(0), false, false, false);
    assert!(matches!(a, TriggerAction::Nothing));
    assert_eq!(t.selection, Some(0));
    assert!(matches!(t.examine_event(), TriggerAction::ShowInfo(ref m) if m == "Select event to examine"));
    t.stop_worker();
    assert_eq!(t.trigger_status, "IDLE");
}

#[test]
fn trigger_run_chunks_and_status() {
    assert_eq!(chunk_end(0, 25000, 10000), 10000);
    assert_eq!(chunk_end(20000, 25000, 10000), 25000);
    assert_eq!(chunk_end(7, 8, 10000), 8);
    assert_eq!(progress_text(10000, 25000), "10000/25000");
    assert_eq!(progress_text(0, 0), "0/0");
}

#[test]
fn stopping_the_export() {
    let mut t = PadamoTrigger::new();
    t.export_status = "3/10".to_string();
    t.stop_export();
    assert_eq!(t.export_status, "IDLE");
}

#[test]
fn loading_saved_marks() {
    let pos = IntervalStorage::from_intervals(vec![Interval::new(10, 20), Interval::new(20, 25), Interval::new(40, 40)]).unwrap();
    let p: Vec<(usize, usize)> = pos.container.iter().map(|x| (x.start, x.end)).collect();
    assert_eq!(p, vec![(10, 25), (40, 40)]);
    assert!(IntervalStorage::from_intervals(vec![Interval { start: 9, end: 3 }, Interval::new(10, 11)]).is_none());
    let pos = IntervalStorage::from_intervals(vec![Interval::new(10, 20), Interval::new(20, 25)]).unwrap();
    let neg = IntervalStorage::from_intervals(vec![Interval::new(30, 35)]).unwrap();
    let mut t = PadamoTrigger::new();
    assert!(t.load_marks(100, &pos, &neg));
    let u: Vec<(usize, usize)> = t.unmarked_intervals.container.iter().map(|x| (x.start, x.end)).collect();
    assert_eq!(u, vec![(0, 10), (25, 30), (35, 100)]);
    assert_eq!(t.positive_strings, vec!["[10, 25) (15)".to_string()]);
    assert_eq!(t.negative_strings, vec!["[30, 35) (5)".to_string()]);
}

#[test]
fn a_run_goes_through_chunks_that_tile_it() {
    let mut start = 3usize;
    let mut chunks = Vec::new();
    loop {
        match next_run_step(start, 20, 5, false) {
            RunStep::Chunk { start: a, end: b } => {
                chunks.push((a, b));
                start = b;
            },
            RunStep::Done => break,
            RunStep::Stalled => panic!("stalled"),
        }
    }
    assert_eq!(chunks, vec![(3, 8), (8, 13), (13, 18), (18, 20)]);
    assert_eq!(next_run_step(3, 20, 0, false), RunStep::Stalled);
    assert_eq!(next_run_step(3, 20, 5, true), RunStep::Done);
}
