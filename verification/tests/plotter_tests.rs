use padamo::loader::WorkerPoll;
use padamo::plotter::{DataRequest, DataState, LCMode, Plotter, PlotterEvent, TimeAxisFormat};

fn listed(p: &Plotter) -> Vec<(Vec<usize>, bool)> {
    p.pixels.iter().cloned().zip(p.pixels_show.iter().cloned()).collect()
}

#[test]
fn plotter_defaults() {
    let p = Plotter::new();
    assert_eq!(p.data, DataState::NoData);
    assert!(p.pixels.is_empty());
    assert_eq!(p.safeguard.parsed_value, 30000);
    assert_eq!(p.safeguard.string_value, "30000");
    assert_eq!(p.out_shape.0.parsed_value, 1024);
    assert_eq!(p.out_shape.1.string_value, "768");
    assert_eq!(p.min_x_string, "0");
    assert_eq!(p.max_y_string, "0");
    assert_eq!(p.lc_mode, LCMode::Off);
    assert!(p.lc_mean && p.channelmap_show && p.display_pointer);
    assert!(!p.lc_only && !p.is_selecting_pixels);
    assert_eq!(p.detector_pixels, 1);
    assert_eq!(p.axis_formatter, TimeAxisFormat::AsIs);
}

#[test]
fn selected_pixels_stay_in_order() {
    let mut p = Plotter::new();
    p.select_pixel(&vec![2, 0]);
    p.select_pixel(&vec![0, 5]);
    p.add_pixel_with_visibility(&vec![1], false);
    p.select_pixel(&vec![1, 0]);
    p.select_pixel(&vec![0, 5]);
    assert_eq!(
        listed(&p),
        vec![(vec![0, 5], true), (vec![1], false), (vec![1, 0], true), (vec![2, 0], true)]
    );
    p.add_pixel_with_visibility(&vec![1], true);
    assert_eq!(listed(&p)[1], (vec![1], true));
}

#[test]
fn toggling_pixels() {
    let mut p = Plotter::new();
    p.toggle_pixel(&vec![3, 3]);
    assert_eq!(listed(&p), vec![(vec![3, 3], true)]);
    p.toggle_pixel(&vec![3, 3]);
    assert_eq!(listed(&p), vec![(vec![3, 3], false)]);
    p.toggle_pixel(&vec![3, 3]);
    assert_eq!(listed(&p), vec![(vec![3, 3], true)]);
    p.toggle_pixel(&vec![0, 1]);
    assert_eq!(listed(&p), vec![(vec![0, 1], true), (vec![3, 3], true)]);
    let out = p.update(PlotterEvent::TogglePixel(1, false), None);
    assert!(out.replot);
    assert_eq!(listed(&p), vec![(vec![0, 1], true), (vec![3, 3], false)]);
    p.update(PlotterEvent::TogglePixelByName(vec![0, 1]), None);
    assert_eq!(listed(&p), vec![(vec![0, 1], false), (vec![3, 3], false)]);
    p.clear_pixels();
    assert!(listed(&p).is_empty());
}

#[test]
fn plotting_a_pixel_loads_its_frames() {
    let mut p = Plotter::new();
    p.select_pixel(&vec![9]);
    let out = p.update(PlotterEvent::PlotPixel(10, 20, vec![4, 4]), Some(100));
    assert_eq!(out.request, DataRequest::Spawn { start: 10, end: 20 });
    assert_eq!(p.data, DataState::Loading(10, 20));
    // the load cleared the list before the pixel was selected
    assert_eq!(listed(&p), vec![(vec![4, 4], true)]);
    assert!(!p.tick(WorkerPoll::Running, 48));
    assert_eq!(p.data, DataState::Loading(10, 20));
    assert!(p.tick(WorkerPoll::Finished, 48));
    assert_eq!(p.data, DataState::Loaded(10, 20));
    assert_eq!((p.detector_pixels, p.view_pivot), (48, 10));
    // the same frames again keep the data; other frames ask anew
    p.update(PlotterEvent::SyncData { start: 10, end: 20, pointer: 15, force_clear: false }, Some(100));
    assert_eq!(p.data, DataState::Loaded(10, 20));
    assert_eq!(p.view_index, 15);
    p.update(PlotterEvent::SyncData { start: 30, end: 40, pointer: 31, force_clear: false }, Some(100));
    assert_eq!(p.data, DataState::PendingLoad(30, 40));
    assert_eq!(p.pixels.len(), 1);
}

#[test]
fn pending_loads_and_the_safeguard() {
    let mut p = Plotter::new();
    p.update(PlotterEvent::SetSafeguardString("5".to_string()), None);
    assert_eq!(p.safeguard.parsed_value, 5);
    let out = p.update(PlotterEvent::PlotPixel(0, 8, vec![1]), Some(100));
    assert_eq!(out.request, DataRequest::TooLong { length: 8, safeguard: 5 });
    assert_eq!(p.data, DataState::NoData);
    assert_eq!(listed(&p), vec![(vec![1], true)]);
    // without a signal, or beyond it, the request waits
    let out = p.update(PlotterEvent::PlotPixel(0, 4, vec![2]), None);
    assert_eq!(out.request, DataRequest::Nothing);
    assert_eq!(p.data, DataState::PendingLoad(0, 4));
    assert_eq!(p.ensure_data(Some(3)), DataRequest::Nothing);
    assert_eq!(p.ensure_data(Some(4)), DataRequest::Spawn { start: 0, end: 4 });
    assert!(p.pixels.is_empty());
    // a failed load drops the data
    assert!(!p.tick(WorkerPoll::Panicked, 0));
    assert_eq!(p.data, DataState::NoData);
}

#[test]
fn plotter_settings_messages() {
    let mut p = Plotter::new();
    let out = p.update(PlotterEvent::SetSizeX("640".to_string()), None);
    assert!(!out.replot);
    assert_eq!(p.out_shape.0.parsed_value, 640);
    p.update(PlotterEvent::SetSizeY("x".to_string()), None);
    assert_eq!(p.out_shape.1.parsed_value, 768);
    assert!(!p.out_shape.1.is_valid);
    p.update(PlotterEvent::SetLCMode(LCMode::Selected), None);
    assert_eq!(p.lc_mode, LCMode::Selected);
    p.update(PlotterEvent::TogglePixelSelector, None);
    assert!(p.is_selecting_pixels);
    p.update(PlotterEvent::HidePixelSelector, None);
    assert!(!p.is_selecting_pixels);
    p.update(PlotterEvent::SetXMin("1.5".to_string()), None);
    assert_eq!(p.min_x_string, "1.5");
    // a change of the axis unit asks for new limits only with data loaded
    let out = p.update(PlotterEvent::SetTimeFormat(TimeAxisFormat::GTU), None);
    assert!(!out.refresh_limits);
    p.data = DataState::Loaded(0, 10);
    let out = p.update(PlotterEvent::SetTimeFormat(TimeAxisFormat::UnixTime), None);
    assert!(out.refresh_limits);
    let out = p.update(PlotterEvent::SetTimeFormat(TimeAxisFormat::Offset), None);
    assert!(!out.refresh_limits);
    p.update(PlotterEvent::Clear, None);
    assert_eq!(p.data, DataState::NoData);
}

#[test]
fn a_reversed_range_is_only_recorded() {
    let mut p = Plotter::new();
    let out = p.update(PlotterEvent::SyncData { start: 20, end: 10, pointer: 12, force_clear: false }, Some(100));
    assert_eq!(p.data, DataState::PendingLoad(20, 10));
    assert_eq!(p.view_index, 12);
    assert!(!out.refresh_limits);
}
