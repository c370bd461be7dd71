use padamo::detectors::LoadedDetectors;
use padamo::bulk_selector::{SelectionMode, Selector};
use padamo::loader::{LoadAction, LoadPhase, WorkerPoll};
use padamo::node_constants::{NodeConstantMessage, NodeConstantMessageContent};
use padamo::plotter::{TimeAxisFormat, TimeAxisRangeFormat};
use padamo::plotter_form::OutShape;
use padamo::plotter_new::{reload_needed, DisplayMode, PlotterNew, PlotterNewEvent, SyncDataRequest};
use padamo::test_objects::Relation;
use padamo::trigger::{chunk_marks, PadamoTrigger, TriggerProcessMessage, TriggerSettingsForm};
use padamo::sparse_intervals::Interval;

#[test]
fn selection_modes() {
    let t = [(false, false), (false, true), (true, false), (true, true)];
    let add: Vec<bool> = t.iter().map(|(a, b)| SelectionMode::Add.apply(*a, *b)).collect();
    let and: Vec<bool> = t.iter().map(|(a, b)| SelectionMode::Intersect.apply(*a, *b)).collect();
    let rem: Vec<bool> = t.iter().map(|(a, b)| SelectionMode::Remove.apply(*a, *b)).collect();
    let ovr: Vec<bool> = t.iter().map(|(a, b)| SelectionMode::Overwrite.apply(*a, *b)).collect();
    assert_eq!(add, vec![false, true, true, true]);
    assert_eq!(and, vec![false, false, false, true]);
    assert_eq!(rem, vec![false, false, true, false]);
    assert_eq!(ovr, vec![false, true, false, true]);
    let mut mask = vec![true, false, true, false, true];
    SelectionMode::Remove.modify_mask(&mut mask, &vec![true, true, false]);
    assert_eq!(mask, vec![false, false, true, false, true]);
    assert!(matches!(Selector::default(), Selector::Max));
}

#[test]
fn axis_formats_and_defaults() {
    assert!(matches!(TimeAxisFormat::GTU.range_format(), TimeAxisRangeFormat::GTU));
    assert!(matches!(TimeAxisFormat::AsIs.range_format(), TimeAxisRangeFormat::Seconds));
    assert!(matches!(TimeAxisFormat::Offset.range_format(), TimeAxisRangeFormat::Seconds));
    assert!(matches!(TimeAxisFormat::UnixTime.range_format(), TimeAxisRangeFormat::Seconds));
    assert!(DisplayMode::Seconds.is_temporal());
    assert!(DisplayMode::Time.is_temporal());
    assert!(!DisplayMode::GTU.is_temporal());
    let shape = OutShape::default();
    assert_eq!((shape.width, shape.height), (1024, 768));
    assert_eq!(Relation::Origin.get_detector_id(), None);
    assert_eq!(Relation::Primary.get_detector_id(), Some(0));
    assert_eq!(Relation::Auxiliary(4).get_detector_id(), Some(4));
    let f = TriggerSettingsForm::default();
    assert_eq!((f.chunksize, f.safeguard), (10000, 3000));
}

#[test]
fn node_constant_handlers() {
    let c = NodeConstantMessage::check("flag".to_string());
    let t = NodeConstantMessage::text("name".to_string());
    let e = NodeConstantMessage::external_toggle("flag".to_string());
    let m = format!("{:?}", c(true));
    assert!(m.contains("flag") && m.contains("Check(true)"));
    let m = format!("{:?}", t("abc".to_string()));
    assert!(m.contains("name") && m.contains("Text(\"abc\")"));
    let m = format!("{:?}", e(false));
    assert!(m.contains("ToggleExternal(false)"));
    let _ = NodeConstantMessageContent::Check(true);
}

#[test]
fn reload_decision() {
    let a = SyncDataRequest { start: 0, end: 10, aux_detector_id: None };
    let b = SyncDataRequest { start: 0, end: 10, aux_detector_id: Some(1) };
    assert!(reload_needed(None, a));
    assert!(!reload_needed(Some(a), a));
    assert!(reload_needed(Some(a), b));
    assert!(!reload_needed(Some(b), b));
}

#[test]
fn load_phase_cycle() {
    let req = SyncDataRequest { start: 5, end: 25, aux_detector_id: None };
    let mut p = LoadPhase::Idle;
    p.pin_to_load(req);
    assert!(matches!(p.update_state_context(100), LoadAction::Spawn(_)));
    p.spawned(true);
    assert!(p.is_loading());
    p.pin_to_load(SyncDataRequest { start: 0, end: 1, aux_detector_id: None });
    assert!(p.is_loading());
    p.update_state(WorkerPoll::Running);
    assert!(p.is_loading());
    p.update_state(WorkerPoll::Finished);
    let got = p.get_data_if_loaded().unwrap();
    assert_eq!(got, req);
    assert!(p.get_data_if_loaded().is_none());
    p.pin_to_load(req);
    match p.update_state_context(10) {
        LoadAction::WarnTooLong { length, safeguard } => assert_eq!((length, safeguard), (20, 10)),
        other => panic!("unexpected {:?}", other),
    }
    assert!(p.is_too_long());
}

#[test]
fn trigger_marks_partition_the_record() {
    let mut t = PadamoTrigger::new();
    t.reset_intervals(50);
    let marks = chunk_marks(&vec![false, false, true, true, true, false], 10);
    let mut seen = Vec::new();
    for m in marks.iter() {
        match m {
            TriggerProcessMessage::MarkPositive(i) => {
                seen.push(("+", i.start, i.end));
                t.mark_positive(*i);
            },
            TriggerProcessMessage::MarkNegative(i) => {
                seen.push(("-", i.start, i.end));
                t.mark_negative(*i);
            },
            TriggerProcessMessage::Status(_) => {},
        }
    }
    assert_eq!(seen, vec![("+", 12, 15), ("-", 10, 12), ("-", 15, 16)]);
    let p: Vec<(usize, usize)> = t.positive_intervals.container.iter().map(|x| (x.start, x.end)).collect();
    let n: Vec<(usize, usize)> = t.negative_intervals.container.iter().map(|x| (x.start, x.end)).collect();
    let u: Vec<(usize, usize)> = t.unmarked_intervals.container.iter().map(|x| (x.start, x.end)).collect();
    assert_eq!(p, vec![(12, 15)]);
    assert_eq!(n, vec![(10, 12), (15, 16)]);
    assert_eq!(u, vec![(0, 10), (16, 50)]);
    // marking frames that are no longer unmarked changes nothing
    t.mark_positive(Interval::new(11, 13));
    let p2: Vec<(usize, usize)> = t.positive_intervals.container.iter().map(|x| (x.start, x.end)).collect();
    assert_eq!(p2, vec![(12, 15)]);
}

#[test]
fn choosing_the_primary_detector() {
    let mut d: LoadedDetectors<&str, u8> = LoadedDetectors::new();
    assert!(d.get_primary().is_none());
    d.add_detector("a", 1);
    d.add_detector("b", 2);
    d.add_detector("c", 3);
    d.add_detector("d", 4);
    d.set_primary_detector_by_index(2);
    assert_eq!(d.detectors, vec!["c", "a", "b", "d"]);
    assert_eq!(d.buffers, vec![3, 1, 2, 4]);
    assert_eq!(d.get_primary(), Some(&"c"));
    d.set_primary_detector_by_index(0);
    d.set_primary_detector_by_index(9);
    assert_eq!(d.detectors, vec!["c", "a", "b", "d"]);
    assert_eq!(d.get(3), Some(&"d"));
    assert_eq!(d.len(), 4);
    d.clear();
    assert_eq!(d.len(), 0);
}

#[test]
fn plotter_follows_the_viewer() {
    let mut p = PlotterNew::new();
    assert!(p.last_request.is_none());
    let r = p.update(PlotterNewEvent::SyncData { start: 10, end: 20, aux_id: None }, WorkerPoll::Running);
    assert!(r.is_none());
    let order = SyncDataRequest { start: 10, end: 20, aux_detector_id: None };
    assert!(matches!(p.state, LoadPhase::PendingLoad(q) if q == order));
    assert!(matches!(p.context_update(100), LoadAction::Spawn(q) if q == order));
    p.state.spawned(true);
    let r = p.update(PlotterNewEvent::Other, WorkerPoll::Running);
    assert!(r.is_none());
    let r = p.update(PlotterNewEvent::Other, WorkerPoll::Finished);
    assert_eq!(r, Some(order));
    assert_eq!(p.last_request, Some(order));
    assert!(matches!(p.state, LoadPhase::Idle));
    // the same frames again ask for nothing
    p.update(PlotterNewEvent::SyncData { start: 10, end: 20, aux_id: None }, WorkerPoll::Running);
    assert!(matches!(p.state, LoadPhase::Idle));
    // a second detector on the form asks for the same frames with it
    p.update(PlotterNewEvent::FormChanged { aux_id: Some(2) }, WorkerPoll::Running);
    let with_aux = SyncDataRequest { start: 10, end: 20, aux_detector_id: Some(2) };
    assert!(matches!(p.state, LoadPhase::PendingLoad(q) if q == with_aux));
    // a run forgets what is shown
    p.update(PlotterNewEvent::Run, WorkerPoll::Running);
    assert!(p.last_request.is_none());
}

#[test]
fn plotter_drops_too_long_requests() {
    let mut p = PlotterNew::new();
    p.update(PlotterNewEvent::SyncData { start: 0, end: 500, aux_id: Some(1) }, WorkerPoll::Running);
    match p.context_update(100) {
        LoadAction::WarnTooLong { length, safeguard } => {
            assert_eq!(length, 500);
            assert_eq!(safeguard, 100);
        }
        _ => panic!("expected a warning"),
    }
    assert!(p.state.is_too_long());
    // a form change with nothing on display asks for nothing
    p.update(PlotterNewEvent::FormChanged { aux_id: None }, WorkerPoll::Running);
    assert!(p.state.is_too_long());
}
