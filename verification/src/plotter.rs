use vstd::prelude::*;
use crate::decimal::{decimal, usize_to_decimal};
use crate::double_entry_state::{EntryState, EntryValue, with_string};
use crate::loader::WorkerPoll;

verus! {

/// Which light curves the plotter draws.
#[derive(Clone, Copy, Debug, PartialEq, Eq)]
pub enum LCMode {
    Off,
    All,
    Selected,
}

/// How the plotter labels its time axis.
#[derive(Clone, Copy, Debug, PartialEq, Eq)]
pub enum TimeAxisFormat {
    AsIs,
    Offset,
    UnixTime,
    GTU,
}

/// The unit in which the range of the time axis is given.
#[derive(Clone, Copy, Debug, PartialEq, Eq, Structural)]
pub enum TimeAxisRangeFormat {
    Seconds,
    GTU,
}

/// The unit of the time axis's range under a label format.
pub open spec fn range_of(f: TimeAxisFormat) -> TimeAxisRangeFormat {
    if f == TimeAxisFormat::GTU {
        TimeAxisRangeFormat::GTU
    } else {
        TimeAxisRangeFormat::Seconds
    }
}

impl TimeAxisFormat {
    /// Frame-count labels give a range in frames; every time-based label, one in seconds.
    pub fn range_format(&self) -> (r: TimeAxisRangeFormat)
        ensures
            r == range_of(*self),
    {
        match self {
            TimeAxisFormat::AsIs | TimeAxisFormat::Offset | TimeAxisFormat::UnixTime => TimeAxisRangeFormat::Seconds,
            TimeAxisFormat::GTU => TimeAxisRangeFormat::GTU,
        }
    }
}


/// The first index at or after `i` where `a` and `b` differ, or where one of
/// them ends.
pub open spec fn diff_from(a: Seq<usize>, b: Seq<usize>, i: int) -> int
    decreases a.len() - i,
{
    if i < 0 || i >= a.len() || i >= b.len() || a[i] != b[i] {
        i
    } else {
        diff_from(a, b, i + 1)
    }
}

/// Lexicographic order of pixel indices, the order of `<` on `Vec<usize>`:
/// at the first place where they differ the smaller entry is the smaller
/// index, and a proper prefix comes first.
pub open spec fn lex_lt(a: Seq<usize>, b: Seq<usize>) -> bool {
    let d = diff_from(a, b, 0);
    if d < a.len() && d < b.len() {
        a[d] < b[d]
    } else {
        a.len() < b.len()
    }
}

proof fn lemma_diff_from(a: Seq<usize>, b: Seq<usize>, i: int)
    requires
        0 <= i,
    ensures
        i <= diff_from(a, b, i),
        i <= a.len() && i <= b.len() ==> diff_from(a, b, i) <= a.len() && diff_from(a, b, i) <= b.len(),
        forall|j: int| i <= j < diff_from(a, b, i) ==> a[j] == b[j],
        diff_from(a, b, i) < a.len() && diff_from(a, b, i) < b.len() ==> a[diff_from(a, b, i)] != b[diff_from(a, b, i)],
        diff_from(a, b, i) == diff_from(b, a, i),
    decreases a.len() - i,
{
    if !(i >= a.len() || i >= b.len() || a[i] != b[i]) {
        lemma_diff_from(a, b, i + 1);
    }
}

/// The first difference is the index up to which both agree and at which
/// they part or one ends.
proof fn lemma_diff_is(a: Seq<usize>, b: Seq<usize>, k: int)
    requires
        0 <= k <= a.len(),
        k <= b.len(),
        forall|j: int| 0 <= j < k ==> a[j] == b[j],
        k == a.len() || k == b.len() || a[k] != b[k],
    ensures
        diff_from(a, b, 0) == k,
{
    lemma_diff_from(a, b, 0);
    let d = diff_from(a, b, 0);
    if d < k {
        assert(a[d] == b[d]);
    } else if d > k {
        assert(a[k] == b[k]);
    }
}

/// No index comes before itself, and of two different indices one comes
/// first.
pub proof fn lemma_lex_total(a: Seq<usize>, b: Seq<usize>)
    ensures
        !lex_lt(a, a),
        a != b ==> (lex_lt(a, b) || lex_lt(b, a)),
        !(lex_lt(a, b) && lex_lt(b, a)),
{
    lemma_diff_from(a, a, 0);
    lemma_diff_from(a, b, 0);
    let d = diff_from(a, b, 0);
    if a != b && !(d < a.len() && d < b.len()) && a.len() == b.len() {
        assert(a =~= b);
    }
}

/// The order is transitive.
pub proof fn lemma_lex_trans(a: Seq<usize>, b: Seq<usize>, c: Seq<usize>)
    requires
        lex_lt(a, b),
        lex_lt(b, c),
    ensures
        lex_lt(a, c),
{
    lemma_diff_from(a, b, 0);
    lemma_diff_from(b, c, 0);
    lemma_diff_from(a, c, 0);
    let d1 = diff_from(a, b, 0);
    let d2 = diff_from(b, c, 0);
    if d1 < d2 {
        // a and c agree before d1 and part at d1
        assert forall|j: int| 0 <= j < d1 implies a[j] == c[j] by {
            assert(a[j] == b[j]);
            assert(b[j] == c[j]);
        }
        if d1 < a.len() && d1 < b.len() {
            assert(b[d1] == c[d1]);
            lemma_diff_is(a, c, d1);
        } else {
            // a is a proper prefix of b, so d1 == a.len() < c.len()
            lemma_diff_is(a, c, d1);
        }
    } else if d2 < d1 {
        assert forall|j: int| 0 <= j < d2 implies a[j] == c[j] by {
            assert(a[j] == b[j]);
            assert(b[j] == c[j]);
        }
        if d2 < b.len() && d2 < c.len() {
            assert(a[d2] == b[d2]);
            lemma_diff_is(a, c, d2);
        } else {
            lemma_diff_is(a, c, d2);
        }
    } else {
        assert forall|j: int| 0 <= j < d1 implies a[j] == c[j] by {
            assert(a[j] == b[j]);
            assert(b[j] == c[j]);
        }
        if d1 < a.len() && d1 < b.len() && d1 < c.len() {
            lemma_diff_is(a, c, d1);
        } else {
            lemma_diff_is(a, c, d1);
        }
    }
}

/// Whether two pixel indices are the same.
fn same_pixel(a: &Vec<usize>, b: &Vec<usize>) -> (r: bool)
    ensures
        r == (a@ == b@),
{
    if a.len() != b.len() {
        return false;
    }
    let mut i: usize = 0;
    while i < a.len()
        invariant
            i <= a.len(),
            a.len() == b.len(),
            forall|j: int| 0 <= j < i ==> a@[j] == b@[j],
        decreases a.len() - i,
    {
        if a[i] != b[i] {
            return false;
        }
        i = i + 1;
    }
    assert(a@ =~= b@);
    true
}

/// Whether pixel index `a` comes before `b`.
fn pixel_less(a: &Vec<usize>, b: &Vec<usize>) -> (r: bool)
    ensures
        r == lex_lt(a@, b@),
{
    let mut i: usize = 0;
    while i < a.len() && i < b.len() && a[i] == b[i]
        invariant
            i <= a.len(),
            i <= b.len(),
            forall|j: int| 0 <= j < i ==> a@[j] == b@[j],
        decreases a.len() - i,
    {
        i = i + 1;
    }
    proof {
        lemma_diff_is(a@, b@, i as int);
    }
    if i < a.len() && i < b.len() {
        a[i] < b[i]
    } else {
        a.len() < b.len()
    }
}


/// The pixel indices of a list, as sequences.
pub open spec fn deep(p: Seq<Vec<usize>>) -> Seq<Seq<usize>> {
    p.map_values(|v: Vec<usize>| v@)
}

/// Every index of the list comes before every later one: the list is in
/// order and holds no index twice.
pub open spec fn pixels_sorted(p: Seq<Vec<usize>>) -> bool {
    forall|i: int, j: int| 0 <= i < j < p.len() ==> lex_lt(#[trigger] p[i]@, #[trigger] p[j]@)
}

/// `pix` is one of the pixels of `p`.
pub open spec fn has_pixel(p: Seq<Vec<usize>>, pix: Seq<usize>) -> bool {
    exists|i: int| 0 <= i < p.len() && #[trigger] p[i]@ == pix
}

/// `q`, `t` is the pixel list `p`, `s` after `pix` is added with visibility
/// `visible`: a listed pixel takes the new visibility in place; a new one
/// is inserted.
pub open spec fn pixel_added(
    p: Seq<Vec<usize>>,
    s: Seq<bool>,
    q: Seq<Vec<usize>>,
    t: Seq<bool>,
    pix: Seq<usize>,
    visible: bool,
) -> bool {
    &&& forall|i: int| 0 <= i < p.len() && #[trigger] p[i]@ == pix ==> q == p && t == s.update(i, visible)
    &&& !has_pixel(p, pix) ==> exists|k: int| 0 <= k <= p.len() && deep(q) == deep(p).insert(k, pix) && t == s.insert(k, visible)
}

/// Adding a pixel to an ordered list lists it with the visibility given,
/// keeps every other pixel listed, and lists nothing else.
pub proof fn lemma_pixel_added_set(
    p: Seq<Vec<usize>>,
    s: Seq<bool>,
    q: Seq<Vec<usize>>,
    t: Seq<bool>,
    pix: Seq<usize>,
    visible: bool,
)
    requires
        p.len() == s.len(),
        pixels_sorted(p),
        pixels_sorted(q),
        pixel_added(p, s, q, t, pix, visible),
    ensures
        has_pixel(q, pix),
        forall|i: int| 0 <= i < q.len() && #[trigger] q[i]@ == pix ==> t[i] == visible,
        forall|x: Seq<usize>| has_pixel(q, x) <==> (has_pixel(p, x) || x == pix),
{
    if has_pixel(p, pix) {
        let i0 = choose|i: int| 0 <= i < p.len() && #[trigger] p[i]@ == pix;
        assert(q == p && t == s.update(i0, visible));
        assert forall|i: int| 0 <= i < q.len() && #[trigger] q[i]@ == pix implies t[i] == visible by {
            if i != i0 {
                if i < i0 {
                    assert(lex_lt(p[i]@, p[i0]@));
                } else {
                    assert(lex_lt(p[i0]@, p[i]@));
                }
                lemma_lex_total(pix, pix);
            }
        }
    } else {
        let k = choose|k: int| 0 <= k <= p.len() && deep(q) == deep(p).insert(k, pix) && t == s.insert(k, visible);
        assert(deep(q).len() == q.len());
        assert(deep(q)[k] == pix);
        assert(q[k]@ == pix);
        assert forall|i: int| 0 <= i < q.len() && #[trigger] q[i]@ == pix implies t[i] == visible by {
            if i != k {
                if i < k {
                    assert(lex_lt(q[i]@, q[k]@));
                } else {
                    assert(lex_lt(q[k]@, q[i]@));
                }
                lemma_lex_total(pix, pix);
            }
        }
        assert forall|x: Seq<usize>| has_pixel(q, x) <==> (has_pixel(p, x) || x == pix) by {
            if has_pixel(q, x) {
                let j = choose|j: int| 0 <= j < q.len() && #[trigger] q[j]@ == x;
                assert(deep(q)[j] == x);
                if j < k {
                    assert(deep(p)[j] == x);
                    assert(p[j]@ == x);
                } else if j > k {
                    assert(deep(p)[j - 1] == x);
                    assert(p[j - 1]@ == x);
                }
            }
            if has_pixel(p, x) {
                let j = choose|j: int| 0 <= j < p.len() && #[trigger] p[j]@ == x;
                assert(deep(p)[j] == x);
                if j < k {
                    assert(deep(q)[j] == x);
                    assert(q[j]@ == x);
                } else {
                    assert(deep(q)[j + 1] == x);
                    assert(q[j + 1]@ == x);
                }
            }
        }
    }
}

/// `q`, `t` is the pixel list `p`, `s` after `pix` is toggled: a listed
/// pixel flips its visibility in place; a new one is inserted as shown.
pub open spec fn pixel_toggled(p: Seq<Vec<usize>>, s: Seq<bool>, q: Seq<Vec<usize>>, t: Seq<bool>, pix: Seq<usize>) -> bool {
    &&& forall|i: int| 0 <= i < p.len() && #[trigger] p[i]@ == pix ==> q == p && t == s.update(i, !s[i])
    &&& !has_pixel(p, pix) ==> exists|k: int| 0 <= k <= p.len() && deep(q) == deep(p).insert(k, pix) && t == s.insert(k, true)
}

/// Toggling a listed pixel twice gives the list back as it was.
pub proof fn lemma_toggle_twice(
    p: Seq<Vec<usize>>,
    s: Seq<bool>,
    q: Seq<Vec<usize>>,
    t: Seq<bool>,
    q2: Seq<Vec<usize>>,
    t2: Seq<bool>,
    pix: Seq<usize>,
)
    requires
        p.len() == s.len(),
        has_pixel(p, pix),
        pixel_toggled(p, s, q, t, pix),
        pixel_toggled(q, t, q2, t2, pix),
    ensures
        q2 == p,
        t2 == s,
{
    let i = choose|i: int| 0 <= i < p.len() && #[trigger] p[i]@ == pix;
    assert(q == p && t == s.update(i, !s[i]));
    assert(has_pixel(q, pix));
    assert(q2 == q && t2 == t.update(i, !t[i]));
    assert(t2 =~= s);
}

/// A copy of a pixel index.
fn copy_pixel(pix: &Vec<usize>) -> (r: Vec<usize>)
    ensures
        r@ == pix@,
{
    let mut r: Vec<usize> = Vec::new();
    let mut i: usize = 0;
    while i < pix.len()
        invariant
            i <= pix.len(),
            r@ == pix@.subrange(0, i as int),
        decreases pix.len() - i,
    {
        r.push(pix[i]);
        i = i + 1;
        assert(r@ =~= pix@.subrange(0, i as int));
    }
    assert(pix@.subrange(0, pix.len() as int) =~= pix@);
    r
}

/// A message to the plotter that changes its state. The messages that read
/// or write floating-point limits and thresholds, and the one that saves
/// the plot, are handled by the caller.
#[derive(Clone, Debug)]
pub enum PlotterEvent {
    Clear,
    SetPixelmapOn(bool),
    /// Plot frames `start..end` and select the pixel.
    PlotPixel(usize, usize, Vec<usize>),
    /// Show or hide the pixel at a place of the list.
    TogglePixel(usize, bool),
    SetPointerDisplay(bool),
    SyncData { start: usize, end: usize, pointer: usize, force_clear: bool },
    SetSafeguardString(String),
    SetLCMode(LCMode),
    SetTimeFormat(TimeAxisFormat),
    SetLCOnly(bool),
    SetXMin(String),
    SetXMax(String),
    SetYMin(String),
    SetYMax(String),
    SetLCMean(bool),
    SetSizeX(String),
    SetSizeY(String),
    ClearPixels,
    ShowPixelSelector,
    HidePixelSelector,
    TogglePixelSelector,
    TogglePixelByName(Vec<usize>),
}

/// What the caller is to do after a plotter message: redraw, act on the
/// data request, and recompute the floating-point axis limits of the loaded
/// data.
#[derive(Clone, Copy, Debug, PartialEq, Eq)]
pub struct PlotterOutcome {
    pub replot: bool,
    pub request: DataRequest,
    pub refresh_limits: bool,
}

/// Every message but those that edit the safeguard or the output size
/// redraws the plot.
pub open spec fn replots(msg: PlotterEvent) -> bool {
    !(msg is SetSafeguardString || msg is SetSizeX || msg is SetSizeY)
}

/// Where the plotter's data stands. The loader thread and the loaded
/// samples are kept by the caller beside this state; `Loading` and `Loaded`
/// name the frames asked for.
#[derive(Clone, Copy, Debug, PartialEq, Eq)]
pub enum DataState {
    NoData,
    PendingLoad(usize, usize),
    Loading(usize, usize),
    Loaded(usize, usize),
}

/// What the caller is to do about the plotter's data.
#[derive(Clone, Copy, Debug, PartialEq, Eq)]
pub enum DataRequest {
    Nothing,
    /// Start a loader for frames `start..end`.
    Spawn { start: usize, end: usize },
    /// Warn that `length` frames exceed the safeguard.
    TooLong { length: usize, safeguard: usize },
}

/// For a pending range: a range longer than the safeguard is dropped with a
/// warning; one that the signal of `signal_length` frames holds, and that
/// is not empty, is to be loaded, which clears the pixel list; otherwise the
/// request waits. The state after, the request, and whether the pixels are
/// cleared.
pub open spec fn load_decision(d: DataState, safeguard: usize, signal_length: Option<usize>) -> (DataState, DataRequest, bool) {
    match d {
        DataState::PendingLoad(s, e) => if e - s > safeguard {
            (DataState::NoData, DataRequest::TooLong { length: (e - s) as usize, safeguard }, false)
        } else {
            match signal_length {
                Some(len) => if s < e && e <= len {
                    (DataState::Loading(s, e), DataRequest::Spawn { start: s, end: e }, true)
                } else {
                    (d, DataRequest::Nothing, false)
                },
                None => (d, DataRequest::Nothing, false),
            }
        },
        _ => (d, DataRequest::Nothing, false),
    }
}

/// The state after asking for frames `start..end`.
pub open spec fn applied(d: DataState, start: usize, end: usize) -> DataState {
    match d {
        DataState::Loading(_, _) => d,
        DataState::Loaded(s, e) => if s == start && e == end {
            d
        } else {
            DataState::PendingLoad(start, end)
        },
        _ => DataState::PendingLoad(start, end),
    }
}

impl DataState {
    /// Asks for frames `start..end`: a running load is left alone, and
    /// loaded data is kept when it holds exactly these frames.
    pub fn apply_start_end(&mut self, start: usize, end: usize)
        ensures
            *final(self) == applied(*old(self), start, end),
    {
        match *self {
            DataState::NoData => {
                *self = DataState::PendingLoad(start, end);
            },
            DataState::PendingLoad(_, _) => {
                *self = DataState::PendingLoad(start, end);
            },
            DataState::Loading(_, _) => {},
            DataState::Loaded(s, e) => {
                if !(s == start && e == end) {
                    *self = DataState::PendingLoad(start, end);
                }
            },
        }
    }

    /// Takes the running load out, leaving no data; gives the frames it loads.
    pub fn take_worker(&mut self) -> (r: Option<(usize, usize)>)
        ensures
            match *old(self) {
                DataState::Loading(s, e) => r == Some((s, e)) && *final(self) == DataState::NoData,
                _ => r is None && *final(self) == *old(self),
            },
    {
        if let DataState::Loading(s, e) = *self {
            *self = DataState::NoData;
            Some((s, e))
        } else {
            None
        }
    }
}


/// The plotter's state apart from its drawing cache and the floating-point
/// axis limits and thresholds, which the caller keeps beside it. The
/// selected pixels are kept in order, each with whether its curve is shown.
pub struct Plotter {
    pub data: DataState,
    pub pixels: Vec<Vec<usize>>,
    pub pixels_show: Vec<bool>,
    pub safeguard: EntryState<usize>,
    pub view_index: usize,
    pub view_pivot: usize,
    pub display_pointer: bool,
    pub lc_mode: LCMode,
    pub lc_only: bool,
    pub lc_mean: bool,
    pub channelmap_show: bool,
    pub min_x_string: String,
    pub max_x_string: String,
    pub min_y_string: String,
    pub max_y_string: String,
    pub out_shape: (EntryState<u32>, EntryState<u32>),
    pub axis_formatter: TimeAxisFormat,
    pub detector_pixels: usize,
    pub is_selecting_pixels: bool,
}

/// Everything but the pixel list and the data state is the same in `a` and `b`.
pub open spec fn same_settings(a: Plotter, b: Plotter) -> bool {
    &&& a.safeguard == b.safeguard
    &&& a.view_index == b.view_index
    &&& a.view_pivot == b.view_pivot
    &&& a.display_pointer == b.display_pointer
    &&& a.lc_mode == b.lc_mode
    &&& a.lc_only == b.lc_only
    &&& a.lc_mean == b.lc_mean
    &&& a.channelmap_show == b.channelmap_show
    &&& a.min_x_string == b.min_x_string
    &&& a.max_x_string == b.max_x_string
    &&& a.min_y_string == b.min_y_string
    &&& a.max_y_string == b.max_y_string
    &&& a.out_shape == b.out_shape
    &&& a.axis_formatter == b.axis_formatter
    &&& a.detector_pixels == b.detector_pixels
    &&& a.is_selecting_pixels == b.is_selecting_pixels
}

impl Plotter {
    /// The pixel list and its visibility flags have one entry per pixel, and
    /// the pixels are in order without repeats.
    pub open spec fn wf(&self) -> bool {
        &&& self.pixels.len() == self.pixels_show.len()
        &&& pixels_sorted(self.pixels@)
    }

    /// A plotter with no data and no pixel, a safeguard of 30000 frames,
    /// an output of 1024 by 768 and the limit entries at zero.
    pub fn new() -> (r: Self)
        ensures
            r.wf(),
            r.data == DataState::NoData,
            r.pixels.len() == 0,
            r.safeguard.parsed_value == 30000,
            r.safeguard.string_value@ == decimal(30000),
            r.safeguard.is_valid,
            r.view_index == 0,
            r.view_pivot == 0,
            r.display_pointer,
            r.lc_mode == LCMode::Off,
            !r.lc_only,
            r.lc_mean,
            r.channelmap_show,
            r.min_x_string@ == decimal(0),
            r.max_x_string@ == decimal(0),
            r.min_y_string@ == decimal(0),
            r.max_y_string@ == decimal(0),
            r.out_shape.0.parsed_value == 1024 && r.out_shape.0.string_value@ == decimal(1024) && r.out_shape.0.is_valid,
            r.out_shape.1.parsed_value == 768 && r.out_shape.1.string_value@ == decimal(768) && r.out_shape.1.is_valid,
            r.axis_formatter == TimeAxisFormat::AsIs,
            r.detector_pixels == 1,
            !r.is_selecting_pixels,
    {
        Plotter {
            data: DataState::NoData,
            pixels: Vec::new(),
            pixels_show: Vec::new(),
            safeguard: EntryState::new(30000usize),
            view_index: 0,
            view_pivot: 0,
            display_pointer: true,
            lc_mode: LCMode::Off,
            lc_only: false,
            lc_mean: true,
            channelmap_show: true,
            min_x_string: usize_to_decimal(0),
            max_x_string: usize_to_decimal(0),
            min_y_string: usize_to_decimal(0),
            max_y_string: usize_to_decimal(0),
            out_shape: (EntryState::new(1024u32), EntryState::new(768u32)),
            axis_formatter: TimeAxisFormat::AsIs,
            detector_pixels: 1,
            is_selecting_pixels: false,
        }
    }

    /// Where `pix` stands in the list, if it is there.
    fn find_pixel(&self, pix: &Vec<usize>) -> (r: Option<usize>)
        ensures
            match r {
                Some(i) => i < self.pixels.len() && self.pixels@[i as int]@ == pix@,
                None => forall|i: int| 0 <= i < self.pixels.len() ==> self.pixels@[i]@ != pix@,
            },
    {
        let mut i: usize = 0;
        while i < self.pixels.len()
            invariant
                i <= self.pixels.len(),
                forall|j: int| 0 <= j < i ==> self.pixels@[j]@ != pix@,
            decreases self.pixels.len() - i,
        {
            if same_pixel(&self.pixels[i], pix) {
                return Some(i);
            }
            i = i + 1;
        }
        None
    }

    /// Moves the last pixel of the list back to its place in the order.
    fn place_last_pixel(&mut self)
        requires
            old(self).pixels.len() >= 1,
            old(self).pixels.len() == old(self).pixels_show.len(),
            pixels_sorted(old(self).pixels@.drop_last()),
            forall|i: int| 0 <= i < old(self).pixels.len() - 1 ==> old(self).pixels@[i]@ != old(self).pixels@.last()@,
        ensures
            final(self).wf(),
            exists|k: int| 0 <= k < old(self).pixels.len()
                && final(self).pixels@ == old(self).pixels@.drop_last().insert(k, old(self).pixels@.last())
                && final(self).pixels_show@ == old(self).pixels_show@.drop_last().insert(k, old(self).pixels_show@.last()),
            final(self).data == old(self).data,
            same_settings(*final(self), *old(self)),
    {
        let ghost p = self.pixels@;
        let ghost sh = self.pixels_show@;
        let n = self.pixels.len();
        let mut i: usize = n - 1;
        while i > 0 && pixel_less(&self.pixels[n - 1], &self.pixels[i - 1])
            invariant
                n == self.pixels.len(),
                self.pixels@ == p,
                0 <= i < n,
                forall|j: int| i <= j < n - 1 ==> lex_lt(p[n - 1]@, #[trigger] p[j]@),
            decreases i,
        {
            i = i - 1;
        }
        proof {
            if i > 0 {
                lemma_lex_total(p[n - 1]@, p[i - 1]@);
            }
        }
        let last = self.pixels.pop().unwrap();
        let shown = self.pixels_show.pop().unwrap();
        self.pixels.insert(i, last);
        self.pixels_show.insert(i, shown);
        proof {
            let q = self.pixels@;
            let d = p.drop_last();
            assert(q == d.insert(i as int, p[n - 1]));
            assert(self.pixels_show@ == sh.drop_last().insert(i as int, sh.last()));
            assert forall|a: int, b: int| 0 <= a < b < q.len() implies lex_lt(#[trigger] q[a]@, #[trigger] q[b]@) by {
                if b < i {
                    assert(q[a] == d[a] && q[b] == d[b]);
                } else if a > i {
                    assert(q[a] == d[a - 1] && q[b] == d[b - 1]);
                } else if a < i && b > i {
                    assert(q[a] == d[a] && q[b] == d[b - 1]);
                } else if b == i {
                    assert(q[a] == d[a] && q[b] == p[n - 1]);
                    if a < i - 1 {
                        assert(lex_lt(d[a]@, d[i - 1]@));
                        lemma_lex_trans(d[a]@, d[i - 1]@, p[n - 1]@);
                    }
                } else {
                    assert(a == i);
                    assert(q[a] == p[n - 1] && q[b] == d[b - 1]);
                    assert(d[b - 1] == p[b - 1]);
                }
            }
        }
    }

    /// Adds `pix` to the list in its place with visibility `visible`, or
    /// sets the visibility of `pix` where it is listed already.
    pub fn add_pixel_with_visibility(&mut self, pix: &Vec<usize>, visible: bool)
        requires
            old(self).wf(),
        ensures
            final(self).wf(),
            final(self).data == old(self).data,
            same_settings(*final(self), *old(self)),
            pixel_added(old(self).pixels@, old(self).pixels_show@, final(self).pixels@, final(self).pixels_show@, pix@, visible),
    {
        match self.find_pixel(pix) {
            Some(i) => {
                proof {
                    assert forall|j: int| 0 <= j < self.pixels.len() && #[trigger] self.pixels@[j]@ == pix@ implies j == i by {
                        if j < i {
                            assert(lex_lt(self.pixels@[j]@, self.pixels@[i as int]@));
                            lemma_lex_total(pix@, pix@);
                        } else if j > i {
                            assert(lex_lt(self.pixels@[i as int]@, self.pixels@[j]@));
                            lemma_lex_total(pix@, pix@);
                        }
                    }
                }
                self.pixels_show.set(i, visible);
            },
            None => {
                let ghost p = self.pixels@;
                let ghost sh = self.pixels_show@;
                let c = copy_pixel(pix);
                self.pixels.push(c);
                self.pixels_show.push(visible);
                proof {
                    assert(self.pixels@.drop_last() == p);
                    assert(self.pixels_show@.drop_last() == sh);
                }
                self.place_last_pixel();
                proof {
                    let k = choose|k: int| 0 <= k < p.len() + 1
                        && self.pixels@ == p.insert(k, c)
                        && self.pixels_show@ == sh.insert(k, visible);
                    assert(deep(self.pixels@) =~= deep(p).insert(k, pix@));
                }
            },
        }
    }

    /// Adds `pix` to the list as shown, or shows it where it is listed.
    pub fn select_pixel(&mut self, pix: &Vec<usize>)
        requires
            old(self).wf(),
        ensures
            final(self).wf(),
            final(self).data == old(self).data,
            same_settings(*final(self), *old(self)),
            pixel_added(old(self).pixels@, old(self).pixels_show@, final(self).pixels@, final(self).pixels_show@, pix@, true),
    {
        self.add_pixel_with_visibility(pix, true);
    }

    /// Flips whether `pix` is shown where it is listed; adds it as shown
    /// where it is not.
    pub fn toggle_pixel(&mut self, pix: &Vec<usize>)
        requires
            old(self).wf(),
        ensures
            final(self).wf(),
            final(self).data == old(self).data,
            same_settings(*final(self), *old(self)),
            pixel_toggled(old(self).pixels@, old(self).pixels_show@, final(self).pixels@, final(self).pixels_show@, pix@),
    {
        let visible = match self.find_pixel(pix) {
            Some(i) => !self.pixels_show[i],
            None => true,
        };
        proof {
            assert forall|i: int, j: int| 0 <= i < self.pixels.len() && 0 <= j < self.pixels.len()
                && #[trigger] self.pixels@[i]@ == pix@ && #[trigger] self.pixels@[j]@ == pix@ implies i == j by {
                if i < j {
                    assert(lex_lt(self.pixels@[i]@, self.pixels@[j]@));
                    lemma_lex_total(pix@, pix@);
                } else if j < i {
                    assert(lex_lt(self.pixels@[j]@, self.pixels@[i]@));
                    lemma_lex_total(pix@, pix@);
                }
            }
        }
        self.add_pixel_with_visibility(pix, visible);
    }

    /// Drops every selected pixel.
    pub fn clear_pixels(&mut self)
        ensures
            final(self).wf(),
            final(self).pixels.len() == 0,
            final(self).data == old(self).data,
            same_settings(*final(self), *old(self)),
    {
        self.pixels.clear();
        self.pixels_show.clear();
    }

    /// Drops the data and every selected pixel.
    pub fn clear(&mut self)
        ensures
            final(self).wf(),
            final(self).pixels.len() == 0,
            final(self).data == DataState::NoData,
            same_settings(*final(self), *old(self)),
    {
        self.data = DataState::NoData;
        self.clear_pixels();
    }

    /// Starts loading a pending range where it may be loaded: see
    /// `load_decision`. `signal_length` is the length of the signal on
    /// display, where there is one.
    pub fn ensure_data(&mut self, signal_length: Option<usize>) -> (r: DataRequest)
        requires
            old(self).wf(),
            old(self).data matches DataState::PendingLoad(s, e) ==> s <= e,
        ensures
            final(self).wf(),
            same_settings(*final(self), *old(self)),
            ({
                let (d, req, cleared) = load_decision(old(self).data, old(self).safeguard.parsed_value, signal_length);
                &&& final(self).data == d
                &&& r == req
                &&& cleared ==> final(self).pixels.len() == 0
                &&& !cleared ==> final(self).pixels@ == old(self).pixels@ && final(self).pixels_show@ == old(self).pixels_show@
            }),
    {
        if let DataState::PendingLoad(start, end) = self.data {
            let safeguard = self.safeguard.parsed_value;
            if end - start > safeguard {
                self.data = DataState::NoData;
                return DataRequest::TooLong { length: end - start, safeguard };
            }
            if let Some(length) = signal_length {
                if !(start < end && end <= length) {
                    return DataRequest::Nothing;
                }
                self.clear_pixels();
                self.data = DataState::Loading(start, end);
                return DataRequest::Spawn { start, end };
            }
        }
        DataRequest::Nothing
    }

    /// Takes the loader's state into account: finished, its frames are
    /// loaded, the plotter counts `pixel_count` pixels and its view starts at
    /// the first loaded frame; failed, the data is dropped. Gives whether the
    /// data was loaded now.
    pub fn tick(&mut self, poll: WorkerPoll, pixel_count: usize) -> (loaded: bool)
        requires
            old(self).wf(),
        ensures
            final(self).wf(),
            final(self).pixels@ == old(self).pixels@,
            final(self).pixels_show@ == old(self).pixels_show@,
            match old(self).data {
                DataState::Loading(s, e) => match poll {
                    WorkerPoll::Running => !loaded && *final(self) == *old(self),
                    WorkerPoll::Finished => loaded && final(self).data == DataState::Loaded(s, e)
                        && final(self).detector_pixels == pixel_count && final(self).view_pivot == s
                        && same_settings(*final(self), Plotter { detector_pixels: pixel_count, view_pivot: s, ..*old(self) }),
                    WorkerPoll::Panicked => !loaded && final(self).data == DataState::NoData
                        && same_settings(*final(self), *old(self)),
                },
                _ => !loaded && *final(self) == *old(self),
            },
    {
        if let Some((start, end)) = self.data.take_worker() {
            match poll {
                WorkerPoll::Running => {
                    self.data = DataState::Loading(start, end);
                    false
                },
                WorkerPoll::Finished => {
                    self.data = DataState::Loaded(start, end);
                    self.update_data_state(pixel_count);
                    true
                },
                WorkerPoll::Panicked => false,
            }
        } else {
            false
        }
    }

    /// With data loaded, records its pixel count and starts the view at its
    /// first frame.
    pub fn update_data_state(&mut self, pixel_count: usize)
        ensures
            match old(self).data {
                DataState::Loaded(s, _) => *final(self) == (Plotter { detector_pixels: pixel_count, view_pivot: s, ..*old(self) }),
                _ => *final(self) == *old(self),
            },
    {
        if let DataState::Loaded(start, _) = self.data {
            self.detector_pixels = pixel_count;
            self.view_pivot = start;
        }
    }

    /// Handles a message; `signal_length` is the length of the signal on
    /// display, where there is one.
    pub fn update(&mut self, msg: PlotterEvent, signal_length: Option<usize>) -> (r: PlotterOutcome)
        requires
            old(self).wf(),
            msg matches PlotterEvent::PlotPixel(s, e, _) ==> s <= e,
            msg is PlotPixel ==> (old(self).data matches DataState::PendingLoad(a, b) ==> a <= b),
            msg matches PlotterEvent::TogglePixel(i, _) ==> i < old(self).pixels_show.len(),
        ensures
            final(self).wf(),
            r.replot == replots(msg),
            !(msg is PlotPixel) ==> r.request == DataRequest::Nothing,
            !(msg is SetTimeFormat) ==> !r.refresh_limits,
            match msg {
                PlotterEvent::Clear => final(self).data == DataState::NoData && final(self).pixels.len() == 0
                    && same_settings(*final(self), *old(self)),
                PlotterEvent::SetPixelmapOn(v) => *final(self) == (Plotter { channelmap_show: v, ..*old(self) }),
                PlotterEvent::PlotPixel(s, e, pix) => {
                    let d1 = if old(self).data is NoData { DataState::PendingLoad(s, e) } else { old(self).data };
                    let (d2, req, cleared) = load_decision(d1, old(self).safeguard.parsed_value, signal_length);
                    &&& final(self).data == d2
                    &&& r.request == req
                    &&& same_settings(*final(self), *old(self))
                    &&& pixel_added(
                        if cleared { Seq::empty() } else { old(self).pixels@ },
                        if cleared { Seq::empty() } else { old(self).pixels_show@ },
                        final(self).pixels@,
                        final(self).pixels_show@,
                        pix@,
                        true,
                    )
                },
                PlotterEvent::TogglePixel(i, v) => final(self).pixels@ == old(self).pixels@
                    && final(self).pixels_show@ == old(self).pixels_show@.update(i as int, v)
                    && final(self).data == old(self).data && same_settings(*final(self), *old(self)),
                PlotterEvent::SetPointerDisplay(v) => *final(self) == (Plotter { display_pointer: v, ..*old(self) }),
                PlotterEvent::SyncData { start, end, pointer, force_clear } => {
                    &&& final(self).data == applied(if force_clear { DataState::NoData } else { old(self).data }, start, end)
                    &&& same_settings(*final(self), Plotter { view_index: pointer, ..*old(self) })
                    &&& force_clear ==> final(self).pixels.len() == 0
                    &&& !force_clear ==> final(self).pixels@ == old(self).pixels@ && final(self).pixels_show@ == old(self).pixels_show@
                },
                PlotterEvent::SetSafeguardString(v) => *final(self) == (Plotter { safeguard: with_string(old(self).safeguard, v), ..*old(self) }),
                PlotterEvent::SetLCMode(m) => *final(self) == (Plotter { lc_mode: m, ..*old(self) }),
                PlotterEvent::SetTimeFormat(f) => *final(self) == (Plotter { axis_formatter: f, ..*old(self) })
                    && r.refresh_limits == (range_of(old(self).axis_formatter) != range_of(f) && old(self).data is Loaded),
                PlotterEvent::SetLCOnly(v) => *final(self) == (Plotter { lc_only: v, ..*old(self) }),
                PlotterEvent::SetXMin(v) => *final(self) == (Plotter { min_x_string: v, ..*old(self) }),
                PlotterEvent::SetXMax(v) => *final(self) == (Plotter { max_x_string: v, ..*old(self) }),
                PlotterEvent::SetYMin(v) => *final(self) == (Plotter { min_y_string: v, ..*old(self) }),
                PlotterEvent::SetYMax(v) => *final(self) == (Plotter { max_y_string: v, ..*old(self) }),
                PlotterEvent::SetLCMean(v) => *final(self) == (Plotter { lc_mean: v, ..*old(self) }),
                PlotterEvent::SetSizeX(v) => *final(self) == (Plotter {
                    out_shape: (with_string(old(self).out_shape.0, v), old(self).out_shape.1),
                    ..*old(self)
                }),
                PlotterEvent::SetSizeY(v) => *final(self) == (Plotter {
                    out_shape: (old(self).out_shape.0, with_string(old(self).out_shape.1, v)),
                    ..*old(self)
                }),
                PlotterEvent::ClearPixels => final(self).pixels.len() == 0 && final(self).data == old(self).data
                    && same_settings(*final(self), *old(self)),
                PlotterEvent::ShowPixelSelector => *final(self) == (Plotter { is_selecting_pixels: true, ..*old(self) }),
                PlotterEvent::HidePixelSelector => *final(self) == (Plotter { is_selecting_pixels: false, ..*old(self) }),
                PlotterEvent::TogglePixelSelector => *final(self) == (Plotter {
                    is_selecting_pixels: !old(self).is_selecting_pixels,
                    ..*old(self)
                }),
                PlotterEvent::TogglePixelByName(pix) => final(self).data == old(self).data
                    && same_settings(*final(self), *old(self))
                    && pixel_toggled(old(self).pixels@, old(self).pixels_show@, final(self).pixels@, final(self).pixels_show@, pix@),
            },
    {
        let mut out = PlotterOutcome { replot: true, request: DataRequest::Nothing, refresh_limits: false };
        match msg {
            PlotterEvent::Clear => {
                self.clear();
            },
            PlotterEvent::SetPixelmapOn(v) => {
                self.channelmap_show = v;
            },
            PlotterEvent::PlotPixel(start, end, index) => {
                if let DataState::NoData = self.data {
                    self.data.apply_start_end(start, end);
                }
                out.request = self.ensure_data(signal_length);
                proof {
                    if self.pixels.len() == 0 {
                        assert(self.pixels@ =~= Seq::<Vec<usize>>::empty());
                        assert(self.pixels_show@ =~= Seq::<bool>::empty());
                    }
                }
                self.select_pixel(&index);
            },
            PlotterEvent::TogglePixel(index, value) => {
                self.pixels_show.set(index, value);
            },
            PlotterEvent::SetPointerDisplay(v) => {
                self.display_pointer = v;
            },
            PlotterEvent::SyncData { start, end, pointer, force_clear } => {
                self.view_index = pointer;
                if force_clear {
                    self.clear();
                }
                self.data.apply_start_end(start, end);
            },
            PlotterEvent::SetSafeguardString(v) => {
                self.safeguard.set_string(v);
                out.replot = false;
            },
            PlotterEvent::SetLCMode(m) => {
                self.lc_mode = m;
            },
            PlotterEvent::SetTimeFormat(f) => {
                let needs_update = !(self.axis_formatter.range_format() == f.range_format());
                self.axis_formatter = f;
                if needs_update {
                    if let DataState::Loaded(_, _) = self.data {
                        out.refresh_limits = true;
                    }
                }
            },
            PlotterEvent::SetLCOnly(v) => {
                self.lc_only = v;
            },
            PlotterEvent::SetXMin(v) => {
                self.min_x_string = v;
            },
            PlotterEvent::SetXMax(v) => {
                self.max_x_string = v;
            },
            PlotterEvent::SetYMin(v) => {
                self.min_y_string = v;
            },
            PlotterEvent::SetYMax(v) => {
                self.max_y_string = v;
            },
            PlotterEvent::SetLCMean(v) => {
                self.lc_mean = v;
            },
            PlotterEvent::SetSizeX(v) => {
                self.out_shape.0.set_string(v);
                out.replot = false;
            },
            PlotterEvent::SetSizeY(v) => {
                self.out_shape.1.set_string(v);
                out.replot = false;
            },
            PlotterEvent::ClearPixels => {
                self.clear_pixels();
            },
            PlotterEvent::ShowPixelSelector => {
                self.is_selecting_pixels = true;
            },
            PlotterEvent::HidePixelSelector => {
                self.is_selecting_pixels = false;
            },
            PlotterEvent::TogglePixelSelector => {
                self.is_selecting_pixels = !self.is_selecting_pixels;
            },
            PlotterEvent::TogglePixelByName(pix) => {
                self.toggle_pixel(&pix);
            },
        }
        out
    }
} // impl

/// Asking for frames `start..end` while no load is running asks for exactly
/// those frames, unless the data loaded already holds exactly them; a
/// running load is never disturbed. Of two requests in a row the later one
/// decides.
pub proof fn lemma_request_follows_viewer(d: DataState, start: usize, end: usize, a: usize, b: usize)
    ensures
        d is Loading ==> applied(d, start, end) == d,
        d == DataState::Loaded(start, end) ==> applied(d, start, end) == d,
        !(d is Loading) && d != DataState::Loaded(start, end) ==> applied(d, start, end) == DataState::PendingLoad(start, end),
        !(d is Loading) ==> applied(applied(d, a, b), start, end) == (if d == DataState::Loaded(start, end) && a == start
            && b == end {
            d
        } else {
            DataState::PendingLoad(start, end)
        }),
{
}

/// A pending request is dropped with a warning exactly when it is longer
/// than the safeguard; otherwise it is loaded exactly when the signal holds
/// it and it is not empty, the load being of exactly the frames pending;
/// states other than a pending request are left to themselves.
pub proof fn lemma_pending_request_decision(s: usize, e: usize, safeguard: usize, signal_length: Option<usize>, d: DataState)
    requires
        s <= e,
    ensures
        e - s > safeguard ==> load_decision(DataState::PendingLoad(s, e), safeguard, signal_length) == (
            DataState::NoData,
            DataRequest::TooLong { length: (e - s) as usize, safeguard },
            false,
        ),
        e - s <= safeguard && (match signal_length {
            Some(len) => s < e <= len,
            None => false,
        }) ==> load_decision(
            DataState::PendingLoad(s, e),
            safeguard,
            signal_length,
        ) == (DataState::Loading(s, e), DataRequest::Spawn { start: s, end: e }, true),
        e - s <= safeguard && !(match signal_length {
            Some(len) => s < e <= len,
            None => false,
        }) ==> load_decision(
            DataState::PendingLoad(s, e),
            safeguard,
            signal_length,
        ) == (DataState::PendingLoad(s, e), DataRequest::Nothing, false),
        !(d is PendingLoad) ==> load_decision(d, safeguard, signal_length) == (d, DataRequest::Nothing, false),
{
}

} // verus!
