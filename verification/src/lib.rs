//! Verified core of the PADAMO detector-processing tool: the interval
//! bookkeeping and state of the trigger tool, the node graph of the
//! processing editor with its constants and its canvas interactions, the
//! pixel list and data loading of the signal plotter, the viewer's
//! playback cursor, the date text reader, text entries, and the small
//! value types shared by the user interface.

pub mod bulk_selector;
pub mod cross_progress;
pub mod datetime_parser;
pub mod decimal;
pub mod detector_muxer;
pub mod detectors;
pub mod double_entry_state;
pub mod editor;
pub mod interval_selector;
pub mod loader;
pub mod node_constants;
pub mod nodes;
pub mod plotter;
pub mod plotter_form;
pub mod plotter_new;
pub mod popup_message;
pub mod sparse_intervals;
pub mod test_objects;
pub mod trigger;
pub mod viewer;
