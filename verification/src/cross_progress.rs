use vstd::prelude::*;
use crate::decimal::{decimal, parse_unsigned, parse_unsigned_bounded, usize_to_decimal, lemma_decimal_round_trip};
use crate::viewer::PlayState;

verus! {

/// The frame range and cursor that the primary detector reports to the plotter.
#[derive(Clone, Copy, Debug)]
pub struct IntervalReport {
    pub start: usize,
    pub end: usize,
    pub pointer: usize,
}

/// The data that the plotter is asked to show: frames `[start, end)` with the cursor at `pointer`.
#[derive(Clone, Copy, Debug)]
pub struct PlotterSyncData {
    pub start: usize,
    pub end: usize,
    pub pointer: usize,
    pub force_clear: bool,
}

/// What the playback bar of one detector is told. `SubmitDatetime`
/// carries the frame that the caller located for the typed date, if it
/// located one.
#[derive(Clone, Debug)]
pub enum CrossProgressMessage {
    SetStart,
    SetEnd,
    Reset,
    JumpToStart,
    JumpToEnd,
    Stop,
    StepBack,
    StepFwd,
    Forward,
    Backward,
    SetViewPositionText(String),
    SetViewStartText(String),
    SetViewEndText(String),
    EditDatetime(String),
    SetViewPosition(usize),
    SubmitTimeline,
    SubmitDatetime(Option<usize>),
    FocusOn(usize, usize),
}

/// The playback bar of one detector: a cursor inside a selected frame range
/// of a record, the texts of the three entry fields, and the play state.
#[derive(Clone, Debug)]
pub struct CrossProgress {
    detector_id: usize,
    pointer: usize,
    pointer_str: String,
    datetime_entry: String,
    start: usize,
    end: usize,
    start_str: String,
    end_str: String,
    length: usize,
    playstate: PlayState,
}

/// The state of a playback bar, as contracts see it.
pub struct CrossProgressView {
    pub detector_id: usize,
    pub pointer: usize,
    pub pointer_str: Seq<char>,
    pub datetime_entry: Seq<char>,
    pub start: usize,
    pub end: usize,
    pub start_str: Seq<char>,
    pub end_str: Seq<char>,
    pub length: usize,
    pub playstate: PlayState,
}

impl View for CrossProgress {
    type V = CrossProgressView;

    closed spec fn view(&self) -> CrossProgressView {
        CrossProgressView {
            detector_id: self.detector_id,
            pointer: self.pointer,
            pointer_str: self.pointer_str@,
            datetime_entry: self.datetime_entry@,
            start: self.start,
            end: self.end,
            start_str: self.start_str@,
            end_str: self.end_str@,
            length: self.length,
            playstate: self.playstate,
        }
    }
}

/// The cursor and range lie within the record: `start <= pointer <= end <= length`.
pub open spec fn in_bounds(v: CrossProgressView) -> bool {
    v.start <= v.pointer <= v.end <= v.length
}

/// The state after `clamp`: the cursor and range end are cut to the record
/// length, the range start to the range end, then the range is widened to
/// hold the cursor.
pub open spec fn clamped(v: CrossProgressView) -> CrossProgressView {
    let pointer = if v.pointer > v.length { v.length } else { v.pointer };
    let end = if v.end > v.length { v.length } else { v.end };
    let start = if v.start > end { end } else { v.start };
    let start = if start > pointer { pointer } else { start };
    let end = if end < pointer { pointer } else { end };
    CrossProgressView { pointer, start, end, ..v }
}

/// The state after `fill_strings`: the three entries show the numbers.
pub open spec fn with_strings(v: CrossProgressView) -> CrossProgressView {
    CrossProgressView {
        pointer_str: decimal(v.pointer as nat),
        start_str: decimal(v.start as nat),
        end_str: decimal(v.end as nat),
        ..v
    }
}

/// The state after one playback tick, and whether the cursor moved.
pub open spec fn after_tick(v: CrossProgressView) -> (CrossProgressView, bool) {
    match v.playstate {
        PlayState::Stop => (v, false),
        PlayState::Forward => if v.pointer < v.end {
            (CrossProgressView { pointer: (v.pointer + 1) as usize, ..v }, true)
        } else {
            (CrossProgressView { playstate: PlayState::Stop, ..v }, false)
        },
        PlayState::Backward => if v.pointer > v.start {
            (CrossProgressView { pointer: (v.pointer - 1) as usize, ..v }, true)
        } else {
            (CrossProgressView { playstate: PlayState::Stop, ..v }, false)
        },
    }
}

/// The cursor moved to `pos`, the range widened to hold it.
pub open spec fn moved_to(v: CrossProgressView, pos: usize) -> CrossProgressView {
    let start = if pos < v.start { pos } else { v.start };
    let end = if pos > v.end { pos } else { v.end };
    CrossProgressView { pointer: pos, start, end, ..v }
}

/// The numbers that the three entries read as, where they read as one.
pub open spec fn submitted_timeline(v: CrossProgressView) -> CrossProgressView {
    let pointer = match parse_unsigned(v.pointer_str, usize::MAX as nat) {
        Some(x) => x as usize,
        None => v.pointer,
    };
    let start = match parse_unsigned(v.start_str, usize::MAX as nat) {
        Some(x) => x as usize,
        None => v.start,
    };
    let end = match parse_unsigned(v.end_str, usize::MAX as nat) {
        Some(x) => x as usize,
        None => v.end,
    };
    clamped(CrossProgressView { pointer, start, end, ..v })
}

/// The state before the entries are refilled, whether they are refilled,
/// and whether the tool is to return to its first page, for a message.
pub open spec fn message_effect(v: CrossProgressView, msg: CrossProgressMessage) -> (
    CrossProgressView,
    bool,
    bool,
) {
    match msg {
        CrossProgressMessage::SetStart => (CrossProgressView { start: v.pointer, ..v }, true, false),
        CrossProgressMessage::SetEnd => (CrossProgressView { end: v.pointer, ..v }, true, false),
        CrossProgressMessage::Reset => (CrossProgressView { start: 0, end: v.length, ..v }, true, false),
        CrossProgressMessage::JumpToStart => (CrossProgressView { pointer: v.start, ..v }, true, false),
        CrossProgressMessage::JumpToEnd => (CrossProgressView { pointer: v.end, ..v }, true, false),
        CrossProgressMessage::Stop => (CrossProgressView { playstate: PlayState::Stop, ..v }, true, false),
        CrossProgressMessage::StepBack => (
            CrossProgressView {
                playstate: PlayState::Stop,
                pointer: if v.pointer > 0 { (v.pointer - 1) as usize } else { v.pointer },
                ..v
            },
            true,
            false,
        ),
        CrossProgressMessage::StepFwd => (
            CrossProgressView {
                playstate: PlayState::Stop,
                pointer: if v.pointer < v.length { (v.pointer + 1) as usize } else { v.pointer },
                ..v
            },
            true,
            false,
        ),
        CrossProgressMessage::Forward => (CrossProgressView { playstate: PlayState::Forward, ..v }, true, false),
        CrossProgressMessage::Backward => (
            CrossProgressView { playstate: PlayState::Backward, ..v },
            true,
            false,
        ),
        CrossProgressMessage::SetViewPositionText(t) => (CrossProgressView { pointer_str: t@, ..v }, false, false),
        CrossProgressMessage::SetViewStartText(t) => (CrossProgressView { start_str: t@, ..v }, false, false),
        CrossProgressMessage::SetViewEndText(t) => (CrossProgressView { end_str: t@, ..v }, false, false),
        CrossProgressMessage::EditDatetime(t) => (CrossProgressView { datetime_entry: t@, ..v }, true, false),
        CrossProgressMessage::SubmitTimeline => (submitted_timeline(v), true, false),
        CrossProgressMessage::SubmitDatetime(found) => {
            let w = match found {
                Some(index) => clamped(CrossProgressView { pointer: index, ..v }),
                None => v,
            };
            (CrossProgressView { datetime_entry: Seq::<char>::empty(), ..w }, true, false)
        },
        CrossProgressMessage::SetViewPosition(pos) => (moved_to(v, pos), true, false),
        CrossProgressMessage::FocusOn(start, end) => if v.detector_id == 0 {
            (CrossProgressView { pointer: start, start, end, ..v }, true, true)
        } else {
            (v, true, false)
        },
    }
}

/// The state after a message.
pub open spec fn after_message(v: CrossProgressView, msg: CrossProgressMessage) -> CrossProgressView {
    let (w, refill, _) = message_effect(v, msg);
    if refill {
        with_strings(w)
    } else {
        w
    }
}

impl CrossProgress {
    /// A stopped bar for detector `detector_id` over a 100-frame placeholder record.
    pub fn new(detector_id: usize) -> (r: Self)
        ensures
            r@ == (CrossProgressView {
                detector_id,
                pointer: 0,
                pointer_str: seq!['0'],
                datetime_entry: Seq::<char>::empty(),
                start: 0,
                end: 100,
                start_str: seq!['0'],
                end_str: seq!['1', '0', '0'],
                length: 100,
                playstate: PlayState::Stop,
            }),
    {
        proof {
            reveal_strlit("0");
            reveal_strlit("100");
        }
        let pointer_str = String::from_str("0");
        let start_str = String::from_str("0");
        let end_str = String::from_str("100");
        let datetime_entry = String::new();
        assert(pointer_str@ =~= seq!['0']);
        assert(start_str@ =~= seq!['0']);
        assert(end_str@ =~= seq!['1', '0', '0']);
        assert(datetime_entry@ =~= Seq::<char>::empty());
        CrossProgress {
            detector_id,
            pointer: 0,
            start: 0,
            end: 100,
            length: 100,
            pointer_str,
            start_str,
            end_str,
            datetime_entry,
            playstate: PlayState::Stop,
        }
    }

    /// Brings the cursor and the selected range back within the record: the
    /// cursor to at most the length, the range around the cursor.
    pub fn clamp(&mut self)
        ensures
            final(self)@ == clamped(old(self)@),
            in_bounds(final(self)@),
    {
        if self.pointer > self.length {
            self.pointer = self.length;
        }
        if self.end > self.length {
            self.end = self.length;
        }
        if self.start > self.end {
            self.start = self.end;
        }
        if self.start > self.pointer {
            self.start = self.pointer;
        }
        if self.end < self.pointer {
            self.end = self.pointer;
        }
    }

    /// Writes the cursor, start and end into their entries.
    pub fn fill_strings(&mut self)
        ensures
            final(self)@ == with_strings(old(self)@),
    {
        self.pointer_str = usize_to_decimal(self.pointer);
        self.start_str = usize_to_decimal(self.start);
        self.end_str = usize_to_decimal(self.end);
    }

    /// Takes the length of the shown record, if one is shown: the last frame
    /// index becomes the bar's length and the state is clamped to it. The
    /// primary detector then reports its range and cursor.
    pub fn update_signal_info(&mut self, signal_length: Option<usize>) -> (r: Option<IntervalReport>)
        requires
            signal_length matches Some(l) ==> l >= 1,
        ensures
            signal_length is None ==> final(self)@ == old(self)@ && r is None,
            signal_length matches Some(l) ==> final(self)@ == clamped(
                CrossProgressView { length: (l - 1) as usize, ..old(self)@ },
            ),
            signal_length is Some && old(self)@.detector_id == 0 ==> r == Some(
                IntervalReport {
                    start: final(self)@.start,
                    end: final(self)@.end,
                    pointer: final(self)@.pointer,
                },
            ),
            old(self)@.detector_id != 0 ==> r is None,
    {
        if let Some(l) = signal_length {
            self.length = l - 1;
            self.clamp();
            if self.detector_id == 0 {
                Some(IntervalReport { start: self.start, end: self.end, pointer: self.pointer })
            } else {
                None
            }
        } else {
            None
        }
    }

    /// Applies a message; returns whether the tool is to return to its first page.
    pub fn update(&mut self, message: CrossProgressMessage) -> (first_page: bool)
        ensures
            final(self)@ == after_message(old(self)@, message),
            first_page == message_effect(old(self)@, message).2,
    {
        let mut request_buffer_fill = true;
        let mut first_page = false;
        match message {
            CrossProgressMessage::SetStart => {
                self.start = self.pointer;
            },
            CrossProgressMessage::SetEnd => {
                self.end = self.pointer;
            },
            CrossProgressMessage::Reset => {
                self.start = 0;
                self.end = self.length;
            },
            CrossProgressMessage::JumpToStart => {
                self.pointer = self.start;
            },
            CrossProgressMessage::JumpToEnd => {
                self.pointer = self.end;
            },
            CrossProgressMessage::Stop => {
                self.playstate = PlayState::Stop;
            },
            CrossProgressMessage::StepBack => {
                self.playstate = PlayState::Stop;
                if self.pointer > 0 {
                    self.pointer -= 1;
                }
            },
            CrossProgressMessage::StepFwd => {
                self.playstate = PlayState::Stop;
                if self.pointer < self.length {
                    self.pointer += 1;
                }
            },
            CrossProgressMessage::Forward => {
                self.playstate = PlayState::Forward;
            },
            CrossProgressMessage::Backward => {
                self.playstate = PlayState::Backward;
            },
            CrossProgressMessage::SetViewPositionText(txt) => {
                self.pointer_str = txt;
                request_buffer_fill = false;
            },
            CrossProgressMessage::SetViewStartText(txt) => {
                self.start_str = txt;
                request_buffer_fill = false;
            },
            CrossProgressMessage::SetViewEndText(txt) => {
                self.end_str = txt;
                request_buffer_fill = false;
            },
            CrossProgressMessage::EditDatetime(txt) => {
                self.datetime_entry = txt;
            },
            CrossProgressMessage::SubmitTimeline => {
                if let Some(newpos) = parse_unsigned_bounded(self.pointer_str.as_str(), usize::MAX) {
                    self.pointer = newpos;
                }
                if let Some(newstart) = parse_unsigned_bounded(self.start_str.as_str(), usize::MAX) {
                    self.start = newstart;
                }
                if let Some(newend) = parse_unsigned_bounded(self.end_str.as_str(), usize::MAX) {
                    self.end = newend;
                }
                self.clamp();
            },
            CrossProgressMessage::SubmitDatetime(found) => {
                if let Some(index) = found {
                    self.pointer = index;
                    self.clamp();
                }
                self.datetime_entry = String::new();
            },
            CrossProgressMessage::SetViewPosition(pos) => {
                self.pointer = pos;
                if self.pointer < self.start {
                    self.start = self.pointer;
                }
                if self.pointer > self.end {
                    self.end = self.pointer;
                }
            },
            CrossProgressMessage::FocusOn(start, end) => {
                if self.detector_id == 0 {
                    self.pointer = start;
                    self.start = start;
                    first_page = true;
                    self.end = end;
                }
            },
        }
        if request_buffer_fill {
            self.fill_strings();
        }
        first_page
    }

    /// Advances playback by one frame; returns whether the cursor moved.
    /// Playback stops where it would leave the selected range.
    pub fn run_tick(&mut self) -> (r: bool)
        ensures
            final(self)@ == after_tick(old(self)@).0,
            r == after_tick(old(self)@).1,
    {
        match self.playstate {
            PlayState::Stop => false,
            PlayState::Forward => {
                if self.pointer < self.end {
                    self.pointer += 1;
                    true
                } else {
                    self.playstate = PlayState::Stop;
                    false
                }
            },
            PlayState::Backward => {
                if self.pointer > self.start {
                    self.pointer -= 1;
                    true
                } else {
                    self.playstate = PlayState::Stop;
                    false
                }
            },
        }
    }

    /// The range and cursor that the primary detector sends the plotter:
    /// always when `check_playstate` is false, else only while playing.
    pub fn get_sync_message(&self, check_playstate: bool) -> (r: Option<PlotterSyncData>)
        requires
            self@.end < usize::MAX,
        ensures
            r == (if self@.detector_id != 0 || (check_playstate && self@.playstate == PlayState::Stop) {
                None
            } else {
                Some(
                    PlotterSyncData {
                        start: self@.start,
                        end: (self@.end + 1) as usize,
                        pointer: self@.pointer,
                        force_clear: false,
                    },
                )
            }),
    {
        if self.detector_id != 0 {
            None
        } else if check_playstate {
            if let PlayState::Stop = self.playstate {
                None
            } else {
                self.form_sync_message()
            }
        } else {
            self.form_sync_message()
        }
    }

    fn form_sync_message(&self) -> (r: Option<PlotterSyncData>)
        requires
            self@.end < usize::MAX,
        ensures
            r == Some(
                PlotterSyncData {
                    start: self@.start,
                    end: (self@.end + 1) as usize,
                    pointer: self@.pointer,
                    force_clear: false,
                },
            ),
    {
        Some(PlotterSyncData { start: self.start, end: self.end + 1, pointer: self.pointer, force_clear: false })
    }
}

/// After `clamp` the cursor and range lie within the record, the record's
/// length is kept, the cursor is moved only back to the last frame, a state
/// already within the record is left unchanged, and clamping twice is
/// clamping once.
pub proof fn lemma_clamp_bounds(v: CrossProgressView)
    ensures
        in_bounds(clamped(v)),
        clamped(v).length == v.length,
        clamped(v).pointer == (if v.pointer > v.length { v.length } else { v.pointer }),
        in_bounds(v) ==> clamped(v) == v,
        clamped(clamped(v)) == clamped(v),
{
}

/// A playback tick keeps the cursor within the selected range, moving it by
/// exactly one frame in the play direction or else stopping playback.
pub proof fn lemma_tick_stays_in_range(v: CrossProgressView)
    requires
        v.start <= v.pointer <= v.end,
    ensures
        after_tick(v).0.start <= after_tick(v).0.pointer <= after_tick(v).0.end,
        after_tick(v).1 ==> (v.playstate == PlayState::Forward && after_tick(v).0.pointer == v.pointer + 1)
            || (v.playstate == PlayState::Backward && after_tick(v).0.pointer == v.pointer - 1),
        !after_tick(v).1 ==> after_tick(v).0.pointer == v.pointer && after_tick(v).0.playstate
            == PlayState::Stop,
{
}

/// Submitting the entries right after they were filled from the numbers
/// changes nothing but what `clamp` changes.
pub proof fn lemma_submit_filled_entries(v: CrossProgressView)
    ensures
        submitted_timeline(with_strings(v)) == clamped(with_strings(v)),
{
    lemma_decimal_round_trip(v.pointer as nat, usize::MAX as nat);
    lemma_decimal_round_trip(v.start as nat, usize::MAX as nat);
    lemma_decimal_round_trip(v.end as nat, usize::MAX as nat);
}

/// The buttons of the bar move the cursor and the selected range as they
/// say: "jump to start" puts the cursor on the range start and "jump to end"
/// on the range end, keeping the range (so a cursor put there lies within
/// a well-ordered range); "set start" and "set end" move that end of the
/// range to the cursor, keeping the cursor; "reset" selects the whole record;
/// each leaves the record length and the other bound alone, and afterwards
/// the three entries show the cursor, start and end.
pub proof fn lemma_buttons_move_cursor_and_range(v: CrossProgressView)
    ensures
        ({
            let w = after_message(v, CrossProgressMessage::JumpToStart);
            &&& w.pointer == v.start && w.start == v.start && w.end == v.end && w.length == v.length
            &&& v.start <= v.end ==> w.start <= w.pointer <= w.end
            &&& w.pointer_str == decimal(v.start as nat)
        }),
        ({
            let w = after_message(v, CrossProgressMessage::JumpToEnd);
            &&& w.pointer == v.end && w.start == v.start && w.end == v.end && w.length == v.length
            &&& v.start <= v.end ==> w.start <= w.pointer <= w.end
            &&& w.pointer_str == decimal(v.end as nat)
        }),
        ({
            let w = after_message(v, CrossProgressMessage::SetStart);
            &&& w.start == v.pointer && w.pointer == v.pointer && w.end == v.end && w.length == v.length
            &&& w.start_str == decimal(v.pointer as nat)
        }),
        ({
            let w = after_message(v, CrossProgressMessage::SetEnd);
            &&& w.end == v.pointer && w.pointer == v.pointer && w.start == v.start && w.length == v.length
            &&& w.end_str == decimal(v.pointer as nat)
        }),
        ({
            let w = after_message(v, CrossProgressMessage::Reset);
            &&& w.start == 0 && w.end == v.length && w.pointer == v.pointer && w.length == v.length
        }),
        ({
            let w = after_message(v, CrossProgressMessage::StepFwd);
            &&& w.playstate == PlayState::Stop && w.start == v.start && w.end == v.end
            &&& w.pointer == (if v.pointer < v.length { v.pointer + 1 } else { v.pointer as int })
        }),
        ({
            let w = after_message(v, CrossProgressMessage::StepBack);
            &&& w.playstate == PlayState::Stop && w.start == v.start && w.end == v.end
            &&& w.pointer == (if v.pointer > 0 { v.pointer - 1 } else { v.pointer as int })
        }),
        after_message(v, CrossProgressMessage::Stop).pointer == v.pointer
            && after_message(v, CrossProgressMessage::Stop).playstate == PlayState::Stop,
        after_message(v, CrossProgressMessage::Forward).pointer == v.pointer
            && after_message(v, CrossProgressMessage::Forward).playstate == PlayState::Forward,
        after_message(v, CrossProgressMessage::Backward).pointer == v.pointer
            && after_message(v, CrossProgressMessage::Backward).playstate == PlayState::Backward,
{
}

/// Jumping to the range start and then to the range end, or the other way
/// round, leaves the cursor on the bound jumped to last, whatever it was.
pub proof fn lemma_jumps_compose(v: CrossProgressView)
    ensures
        after_message(after_message(v, CrossProgressMessage::JumpToStart), CrossProgressMessage::JumpToEnd).pointer == v.end,
        after_message(after_message(v, CrossProgressMessage::JumpToEnd), CrossProgressMessage::JumpToStart).pointer == v.start,
        after_message(after_message(v, CrossProgressMessage::SetStart), CrossProgressMessage::JumpToStart).pointer == v.pointer,
        after_message(after_message(v, CrossProgressMessage::SetEnd), CrossProgressMessage::JumpToEnd).pointer == v.pointer,
{
}

/// Moving the cursor to a frame puts it there and widens the selected range
/// just enough to hold it: a range already holding the frame is kept, and
/// otherwise the bound on the frame's side moves to it. Focusing the primary
/// bar on an event selects exactly the event's frames with the cursor on
/// its first frame and returns the tool to its first page; another bar
/// ignores it. A frame found for a typed date becomes the cursor, within
/// the record, and the date entry is emptied.
pub proof fn lemma_cursor_requests(v: CrossProgressView, pos: usize, s: usize, e: usize, found: usize)
    ensures
        ({
            let w = after_message(v, CrossProgressMessage::SetViewPosition(pos));
            &&& w.pointer == pos && w.length == v.length
            &&& w.start <= pos <= w.end
            &&& w.start <= v.start && w.end >= v.end
            &&& w.start == v.start || w.start == pos
            &&& w.end == v.end || w.end == pos
            &&& v.start <= pos <= v.end ==> w.start == v.start && w.end == v.end
        }),
        v.detector_id == 0 ==> {
            let w = after_message(v, CrossProgressMessage::FocusOn(s, e));
            &&& w.pointer == s && w.start == s && w.end == e && w.length == v.length
            &&& message_effect(v, CrossProgressMessage::FocusOn(s, e)).2
        },
        v.detector_id != 0 ==> after_message(v, CrossProgressMessage::FocusOn(s, e)).pointer == v.pointer
            && after_message(v, CrossProgressMessage::FocusOn(s, e)).start == v.start
            && after_message(v, CrossProgressMessage::FocusOn(s, e)).end == v.end
            && !message_effect(v, CrossProgressMessage::FocusOn(s, e)).2,
        ({
            let w = after_message(v, CrossProgressMessage::SubmitDatetime(Some(found)));
            &&& w.pointer == (if found > v.length { v.length } else { found })
            &&& in_bounds(w)
            &&& w.datetime_entry == Seq::<char>::empty()
        }),
        after_message(v, CrossProgressMessage::SubmitDatetime(None)).pointer == v.pointer
            && after_message(v, CrossProgressMessage::SubmitDatetime(None)).datetime_entry == Seq::<char>::empty(),
{
}

/// A playing bar moves the cursor one frame per tick in its direction while
/// it stays within the selected range, and stops at the range's end (or
/// start, playing backwards); ticks never move the range or the length.
pub proof fn lemma_playback_within_range(v: CrossProgressView)
    ensures
        after_tick(v).0.start == v.start && after_tick(v).0.end == v.end && after_tick(v).0.length == v.length,
        v.playstate == PlayState::Forward && v.pointer < v.end ==> after_tick(v).0.pointer == v.pointer + 1
            && after_tick(v).1,
        v.playstate == PlayState::Forward && v.pointer >= v.end ==> after_tick(v).0.pointer == v.pointer
            && after_tick(v).0.playstate == PlayState::Stop && !after_tick(v).1,
        v.playstate == PlayState::Backward && v.pointer > v.start ==> after_tick(v).0.pointer == v.pointer - 1
            && after_tick(v).1,
        v.playstate == PlayState::Backward && v.pointer <= v.start ==> after_tick(v).0.pointer == v.pointer
            && after_tick(v).0.playstate == PlayState::Stop && !after_tick(v).1,
        v.playstate == PlayState::Stop ==> after_tick(v) == (v, false),
{
}

} // verus!
