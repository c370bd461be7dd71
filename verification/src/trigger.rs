use vstd::prelude::*;
use crate::decimal::{decimal, usize_to_decimal};
use crate::interval_selector::{IntervalSelectionDialog, SelectionMessage, dialog_after};
use crate::sparse_intervals::{
    are_runs, covers, insert_accepts, is_maximal_run, lemma_insert_after_all, lemma_point_lookup_finds_holder,
    lemma_take_removes_frames, lemma_take_reports_availability, ordered, point_lookup, runs_upto, simplify_from,
    spec_append, spec_insert, spec_is_available, spec_take, split_intervals, Interval, IntervalStorage,
};

verus! {

/// What the trigger worker reports while it runs.
#[derive(Clone, Debug)]
pub enum TriggerProcessMessage {
    Status(String),
    MarkPositive(Interval),
    MarkNegative(Interval),
}

/// What the export worker reports while it runs.
#[derive(Clone, Debug)]
pub enum ExportProcessMessage {
    Status(String),
}

/// The settings of a trigger run: the number of frames per chunk, and the
/// longest event (in frames) that is loaded for display.
#[derive(Clone, Copy, Debug)]
pub struct TriggerSettingsForm {
    pub chunksize: usize,
    pub safeguard: usize,
}

impl Default for TriggerSettingsForm {
    fn default() -> (r: Self)
        ensures
            r.chunksize == 10000 && r.safeguard == 3000,
    {
        TriggerSettingsForm { chunksize: 10000, safeguard: 3000 }
    }
}

/// Where the chunk of a trigger run that starts at frame `start` ends: at
/// most `chunksize` frames on, and not past the end of the run.
pub fn chunk_end(start: usize, end: usize, chunksize: usize) -> (r: usize)
    requires
        start < end,
    ensures
        r == start + (if chunksize < end - start { chunksize as int } else { end - start }),
{
    if chunksize < end - start {
        start + chunksize
    } else {
        end
    }
}

/// What a trigger run does next.
#[derive(Clone, Copy, Debug, PartialEq, Eq, Structural)]
pub enum RunStep {
    /// The run is over, finished or stopped: the final status is sent.
    Done,
    /// The trigger is run on frames `[start, end)`; the run goes on from `end`.
    Chunk { start: usize, end: usize },
    /// A chunk would hold no frame: the run cannot go on, and the worker
    /// fails as the tool's worker does on an empty chunk.
    Stalled,
}

/// The step of a trigger run at frame `start` of a run ending at `end`: a
/// run past its end, or asked to stop, is done; else the next chunk of at
/// most `chunksize` frames, none with a chunk size of 0.
pub open spec fn run_step(start: usize, end: usize, chunksize: usize, stop_requested: bool) -> RunStep {
    if start >= end || stop_requested {
        RunStep::Done
    } else if chunksize == 0 {
        RunStep::Stalled
    } else {
        RunStep::Chunk {
            start,
            end: (start + (if chunksize < end - start { chunksize as int } else { end - start })) as usize,
        }
    }
}

/// The next step of a trigger run that has reached frame `start`; see `run_step`.
pub fn next_run_step(start: usize, end: usize, chunksize: usize, stop_requested: bool) -> (r: RunStep)
    ensures
        r == run_step(start, end, chunksize, stop_requested),
{
    if start >= end || stop_requested {
        RunStep::Done
    } else if chunksize == 0 {
        RunStep::Stalled
    } else {
        RunStep::Chunk { start, end: chunk_end(start, end, chunksize) }
    }
}

/// The chunks that a trigger run from `start` to `end` goes through when it
/// is never asked to stop, as `(start, end)` pairs.
pub open spec fn run_chunks(start: usize, end: usize, chunksize: usize) -> Seq<(usize, usize)>
    decreases end - start,
{
    match run_step(start, end, chunksize, false) {
        RunStep::Chunk { start: a, end: b } => if a < b {
            seq![(a, b)] + run_chunks(b, end, chunksize)
        } else {
            seq![]
        },
        _ => seq![],
    }
}

/// A trigger run with a chunk size above 0 that is never stopped goes
/// through chunks that tile its frames: each holds at least one frame and
/// at most `chunksize`, the first starts at `start`, each next one starts
/// where the one before ends, and the last ends at `end`; each is the step
/// `next_run_step` gives at its start, and the step at `end` ends the run.
pub proof fn lemma_run_chunks_tile(start: usize, end: usize, chunksize: usize)
    requires
        chunksize > 0,
        start < end,
    ensures
        ({
            let c = run_chunks(start, end, chunksize);
            &&& c.len() > 0
            &&& c[0].0 == start
            &&& c.last().1 == end
            &&& forall|i: int| 0 <= i < c.len() ==> #[trigger] c[i].0 < c[i].1 && c[i].1 - c[i].0 <= chunksize
                && run_step(c[i].0, end, chunksize, false) == (RunStep::Chunk { start: c[i].0, end: c[i].1 })
            &&& forall|i: int| 0 <= i < c.len() - 1 ==> #[trigger] c[i].1 == c[i + 1].0
        }),
        run_step(end, end, chunksize, false) == RunStep::Done,
    decreases end - start,
{
    let c = run_chunks(start, end, chunksize);
    let b: usize = (start + (if chunksize < end - start { chunksize as int } else { end - start })) as usize;
    assert(c == seq![(start, b)] + run_chunks(b, end, chunksize));
    if b < end {
        lemma_run_chunks_tile(b, end, chunksize);
        let d = run_chunks(b, end, chunksize);
        assert forall|i: int| 0 <= i < c.len() implies #[trigger] c[i].0 < c[i].1 && c[i].1 - c[i].0 <= chunksize
            && run_step(c[i].0, end, chunksize, false) == (RunStep::Chunk { start: c[i].0, end: c[i].1 }) by {
            if i > 0 {
                assert(c[i] == d[i - 1]);
            }
        }
        assert forall|i: int| 0 <= i < c.len() - 1 implies #[trigger] c[i].1 == c[i + 1].0 by {
            if i > 0 {
                assert(c[i] == d[i - 1]);
                assert(c[i + 1] == d[i]);
            }
        }
    } else {
        assert(run_chunks(b, end, chunksize) == Seq::<(usize, usize)>::empty());
        assert(c =~= seq![(start, b)]);
    }
}

/// The status line of a worker: `done/total`.
pub fn progress_text(done: usize, total: usize) -> (r: String)
    ensures
        r@ == decimal(done as nat) + "/"@ + decimal(total as nat),
{
    let mut r = usize_to_decimal(done);
    r.append("/");
    let t = usize_to_decimal(total);
    r.append(t.as_str());
    r
}

/// The intervals `c` moved `a` frames on.
pub open spec fn shifted(c: Seq<Interval>, a: int) -> Seq<Interval> {
    Seq::new(c.len(), |k: int| Interval { start: (c[k].start + a) as usize, end: (c[k].end + a) as usize })
}

/// The marks of a chunk of flags that starts at frame `start` fall in the
/// chunk, and they mark its frames exactly: the positive marks hold the
/// frames whose flag is raised, the negative ones the frames whose flag is
/// lowered, so no frame is marked both ways. With the chunks of a run
/// tiling its frames (`lemma_run_chunks_tile`), the marks of a whole run
/// mark each of its frames once, by its flag.
pub proof fn lemma_chunk_marks_exact(flags: Seq<bool>, pos: Seq<Interval>, neg: Seq<Interval>, start: int)
    requires
        are_runs(flags, true, pos),
        are_runs(flags, false, neg),
        0 <= start,
        start + flags.len() <= usize::MAX,
    ensures
        forall|k: int| 0 <= k < pos.len() ==> start <= #[trigger] shifted(pos, start)[k].start < shifted(pos, start)[k].end
            <= start + flags.len(),
        forall|k: int| 0 <= k < neg.len() ==> start <= #[trigger] shifted(neg, start)[k].start < shifted(neg, start)[k].end
            <= start + flags.len(),
        forall|p: int| #[trigger] covers(shifted(pos, start), p) <==> (start <= p < start + flags.len() && flags[p - start]),
        forall|p: int| #[trigger] covers(shifted(neg, start), p) <==> (start <= p < start + flags.len() && !flags[p - start]),
{
    reveal(runs_upto);
    lemma_shifted_runs(flags, pos, true, start);
    lemma_shifted_runs(flags, neg, false, start);
}

proof fn lemma_shifted_runs(flags: Seq<bool>, runs: Seq<Interval>, v: bool, start: int)
    requires
        are_runs(flags, v, runs),
        0 <= start,
        start + flags.len() <= usize::MAX,
    ensures
        forall|k: int| 0 <= k < runs.len() ==> start <= #[trigger] shifted(runs, start)[k].start < shifted(runs, start)[k].end
            <= start + flags.len(),
        forall|p: int| #[trigger] covers(shifted(runs, start), p) <==> (start <= p < start + flags.len() && flags[p - start] == v),
{
    reveal(runs_upto);
    let sh = shifted(runs, start);
    assert forall|k: int| 0 <= k < runs.len() implies start <= #[trigger] sh[k].start < sh[k].end <= start + flags.len() by {
        assert(is_maximal_run(flags, runs[k], v));
    }
    assert forall|p: int| #[trigger] covers(sh, p) <==> (start <= p < start + flags.len() && flags[p - start] == v) by {
        if covers(sh, p) {
            let k = choose|k: int| 0 <= k < sh.len() && #[trigger] sh[k].has_point(p);
            assert(is_maximal_run(flags, runs[k], v));
            assert(flags[p - start] == v);
        }
        if start <= p < start + flags.len() && flags[p - start] == v {
            assert(covers(runs, p - start));
            let k = choose|k: int| 0 <= k < runs.len() && #[trigger] runs[k].has_point(p - start);
            assert(is_maximal_run(flags, runs[k], v));
            assert(sh[k].has_point(p));
        }
    }
}

/// The marks of a chunk of trigger flags that starts at frame `start`:
/// first each maximal run of raised flags as a positive mark, then each
/// maximal run of lowered flags as a negative mark, in increasing order,
/// shifted to record frames.
pub fn chunk_marks(flags: &Vec<bool>, start: usize) -> (r: Vec<TriggerProcessMessage>)
    requires
        flags@.len() > 0,
        start + flags@.len() <= usize::MAX,
    ensures
        exists|pos: Seq<Interval>, neg: Seq<Interval>|
            {
                &&& are_runs(flags@, true, pos)
                &&& are_runs(flags@, false, neg)
                &&& r@.len() == pos.len() + neg.len()
                &&& forall|k: int|
                    0 <= k < pos.len() ==> #[trigger] r@[k] == TriggerProcessMessage::MarkPositive(shifted(pos, start as int)[k])
                &&& forall|k: int|
                    0 <= k < neg.len() ==> #[trigger] r@[pos.len() + k] == TriggerProcessMessage::MarkNegative(shifted(neg, start as int)[k])
            },
{
    let (positives, negatives) = split_intervals(flags);
    let mut r: Vec<TriggerProcessMessage> = Vec::new();
    let mut i: usize = 0;
    while i < positives.len()
        invariant
            are_runs(flags@, true, positives@),
            start + flags@.len() <= usize::MAX,
            i <= positives@.len(),
            r@.len() == i,
            forall|k: int|
                0 <= k < i ==> #[trigger] r@[k] == TriggerProcessMessage::MarkPositive(
                    Interval {
                        start: (positives@[k].start + start) as usize,
                        end: (positives@[k].end + start) as usize,
                    },
                ),
        decreases positives@.len() - i,
    {
        proof {
            reveal(runs_upto);
            assert(is_maximal_run(flags@, positives@[i as int], true));
        }
        r.push(TriggerProcessMessage::MarkPositive(positives[i].offset(start)));
        i += 1;
    }
    let mut j: usize = 0;
    while j < negatives.len()
        invariant
            are_runs(flags@, false, negatives@),
            start + flags@.len() <= usize::MAX,
            j <= negatives@.len(),
            r@.len() == positives@.len() + j,
            forall|k: int|
                0 <= k < positives@.len() ==> #[trigger] r@[k] == TriggerProcessMessage::MarkPositive(
                    Interval {
                        start: (positives@[k].start + start) as usize,
                        end: (positives@[k].end + start) as usize,
                    },
                ),
            forall|k: int|
                0 <= k < j ==> #[trigger] r@[positives@.len() + k] == TriggerProcessMessage::MarkNegative(
                    Interval {
                        start: (negatives@[k].start + start) as usize,
                        end: (negatives@[k].end + start) as usize,
                    },
                ),
        decreases negatives@.len() - j,
    {
        proof {
            reveal(runs_upto);
            assert(is_maximal_run(flags@, negatives@[j as int], false));
        }
        r.push(TriggerProcessMessage::MarkNegative(negatives[j].offset(start)));
        j += 1;
    }
    r
}

/// A message to the trigger tool that its state decides on.
#[derive(Clone, Debug)]
pub enum TriggerEvent {
    /// Open the dialog to choose the interval to run the trigger on.
    ChooseTrigger,
    CancelChoseTrigger,
    /// Run the trigger on the interval chosen in the dialog.
    ConfirmTrigger,
    SelectionMessage(SelectionMessage),
    /// Choose the positive event at a place of the list.
    SelectPositive(usize),
    /// Choose the negative event at a place of the list.
    SelectNegative(usize),
}

/// What the caller is to do after a message.
#[derive(Clone, Debug)]
pub enum TriggerAction {
    Nothing,
    ShowError(String),
    /// Stop a running trigger worker and start one on the interval.
    StartTrigger { interval: Interval, settings: TriggerSettingsForm },
    /// Load the frames of the event for display.
    LoadEvent(Interval),
    /// Show the frames `[start, end)` in the viewer.
    FocusOn(usize, usize),
    /// Tell the user something in an info popup.
    ShowInfo(String),
}

/// The error shown where the chosen interval is not free to mark.
pub open spec fn unavailable_text(iv: Interval) -> Seq<char> {
    "Interval "@ + iv.display_text() + " is not available"@
}

/// The interval at a place of the positive or the negative list.
pub open spec fn chosen_interval(t: PadamoTrigger, i: usize, positive: bool) -> Interval {
    if positive {
        t.positive_intervals@[i as int]
    } else {
        t.negative_intervals@[i as int]
    }
}

/// The trigger tool's state: the frames of a record not yet marked, and
/// those marked as positive (the trigger fired) or negative, with their
/// labels; the chosen event; the interval choice dialog; the settings and
/// the status lines of the two workers. The signal, the worker threads and
/// the loaded event data are kept by the caller beside it.
pub struct PadamoTrigger {
    pub unmarked_intervals: IntervalStorage,
    pub positive_intervals: IntervalStorage,
    pub negative_intervals: IntervalStorage,
    pub positive_strings: Vec<String>,
    pub negative_strings: Vec<String>,
    pub selection: Option<usize>,
    pub selected_interval: Option<Interval>,
    pub selection_positive: bool,
    pub trigger_interval_selector: Option<IntervalSelectionDialog>,
    pub trigger_form_instance: TriggerSettingsForm,
    pub trigger_status: String,
    pub export_status: String,
}

/// Every frame of `[0, length)` lies in exactly one of the three lists, and
/// no other frame lies in any; each list is ordered.
pub open spec fn partitioned(
    unmarked: Seq<Interval>,
    positive: Seq<Interval>,
    negative: Seq<Interval>,
    length: int,
) -> bool {
    &&& ordered(unmarked)
    &&& ordered(positive)
    &&& ordered(negative)
    &&& forall|p: int|
        #![trigger covers(unmarked, p)]
        #![trigger covers(positive, p)]
        #![trigger covers(negative, p)]
        (0 <= p < length) == (covers(unmarked, p) || covers(positive, p) || covers(negative, p))
    &&& forall|p: int|
        #![trigger covers(unmarked, p), covers(positive, p)]
        !(covers(unmarked, p) && covers(positive, p))
    &&& forall|p: int|
        #![trigger covers(unmarked, p), covers(negative, p)]
        !(covers(unmarked, p) && covers(negative, p))
    &&& forall|p: int|
        #![trigger covers(positive, p), covers(negative, p)]
        !(covers(positive, p) && covers(negative, p))
}

/// What marking `iv` does to an unmarked list and the list of that mark:
/// where the interval can be taken from the unmarked frames, it is stored
/// with the mark.
pub open spec fn spec_mark(unmarked: Seq<Interval>, marked: Seq<Interval>, iv: Interval) -> (
    Seq<Interval>,
    Seq<Interval>,
) {
    if spec_take(unmarked, iv).1 {
        (spec_take(unmarked, iv).0, spec_insert(marked, iv).0)
    } else {
        (unmarked, marked)
    }
}

/// Marking can store the interval once it is taken.
pub open spec fn mark_defined(unmarked: Seq<Interval>, marked: Seq<Interval>, iv: Interval) -> bool {
    spec_take(unmarked, iv).1 && insert_accepts(marked, iv) ==> simplify_from(spec_append(marked, iv), 0) is Some
}

/// The unmarked and marked lists after the intervals `ivs` are marked in
/// turn; none where a mark cannot be stored.
pub open spec fn marked_all(u: Seq<Interval>, m: Seq<Interval>, ivs: Seq<Interval>) -> Option<(Seq<Interval>, Seq<Interval>)>
    decreases ivs.len(),
{
    if ivs.len() == 0 {
        Some((u, m))
    } else {
        match marked_all(u, m, ivs.drop_last()) {
            Some(p) => if mark_defined(p.0, p.1, ivs.last()) {
                Some(spec_mark(p.0, p.1, ivs.last()))
            } else {
                None
            },
            None => None,
        }
    }
}

/// The three lists after loading saved marks into a record of `length`
/// frames: the positive marks first, then the negative ones; none where a
/// mark cannot be stored or a marked interval ends before it starts.
pub open spec fn loaded_marks(length: usize, positives: Seq<Interval>, negatives: Seq<Interval>) -> Option<(Seq<Interval>, Seq<Interval>, Seq<Interval>)> {
    match marked_all(seq![Interval { start: 0, end: length }], Seq::empty(), positives) {
        Some(p) => match marked_all(p.0, Seq::empty(), negatives) {
            Some(q) => if all_wf(p.1) && all_wf(q.1) {
                Some((q.0, p.1, q.1))
            } else {
                None
            },
            None => None,
        },
        None => None,
    }
}

/// Every interval of the list starts no later than it ends.
pub open spec fn all_wf(c: Seq<Interval>) -> bool {
    forall|k: int| 0 <= k < c.len() ==> #[trigger] c[k].wf()
}

/// `labels` are the display labels of the intervals `c`, in order.
pub open spec fn labels_of(labels: Seq<String>, c: Seq<Interval>) -> bool {
    &&& labels.len() == c.len()
    &&& forall|k: int| 0 <= k < c.len() ==> #[trigger] labels[k]@ == c[k].display_text()
}

/// Whether every interval of the storage starts no later than it ends.
fn intervals_ordered(c: &IntervalStorage) -> (r: bool)
    ensures
        r == all_wf(c@),
{
    let mut i: usize = 0;
    while i < c.container.len()
        invariant
            i <= c@.len(),
            forall|k: int| 0 <= k < i ==> #[trigger] c@[k].wf(),
        decreases c@.len() - i,
    {
        if c.container[i].start > c.container[i].end {
            proof {
                assert(!c@[i as int].wf());
            }
            return false;
        }
        i = i + 1;
    }
    true
}

/// Once a mark in the list cannot be stored, the whole list cannot be.
proof fn lemma_marked_all_stops(u: Seq<Interval>, m: Seq<Interval>, ivs: Seq<Interval>, i: int)
    requires
        0 <= i < ivs.len(),
        marked_all(u, m, ivs.subrange(0, i)) matches Some(p) && !mark_defined(p.0, p.1, ivs[i]),
    ensures
        marked_all(u, m, ivs) is None,
    decreases ivs.len() - i,
{
    assert(ivs.subrange(0, i + 1).drop_last() =~= ivs.subrange(0, i));
    assert(ivs.subrange(0, i + 1).last() == ivs[i]);
    lemma_marked_all_none_grows(u, m, ivs, i + 1);
}

/// A list that cannot be marked stays so when it grows.
proof fn lemma_marked_all_none_grows(u: Seq<Interval>, m: Seq<Interval>, ivs: Seq<Interval>, i: int)
    requires
        0 <= i <= ivs.len(),
        marked_all(u, m, ivs.subrange(0, i)) is None,
    ensures
        marked_all(u, m, ivs) is None,
    decreases ivs.len() - i,
{
    if i == ivs.len() {
        assert(ivs.subrange(0, i) =~= ivs);
    } else {
        assert(ivs.subrange(0, i + 1).drop_last() =~= ivs.subrange(0, i));
        lemma_marked_all_none_grows(u, m, ivs, i + 1);
    }
}

/// A copy of a list of intervals.
fn copy_intervals(c: &Vec<Interval>) -> (r: Vec<Interval>)
    ensures
        r@ == c@,
{
    let mut r: Vec<Interval> = Vec::new();
    let mut i: usize = 0;
    while i < c.len()
        invariant
            i <= c.len(),
            r@ == c@.subrange(0, i as int),
        decreases c.len() - i,
    {
        r.push(c[i]);
        i = i + 1;
        assert(r@ =~= c@.subrange(0, i as int));
    }
    assert(c@.subrange(0, c@.len() as int) =~= c@);
    r
}

/// The labels of the intervals of a storage, in order.
fn interval_labels(c: &IntervalStorage) -> (r: Vec<String>)
    requires
        all_wf(c@),
    ensures
        labels_of(r@, c@),
{
    let mut r: Vec<String> = Vec::new();
    let mut i: usize = 0;
    while i < c.container.len()
        invariant
            i <= c@.len(),
            all_wf(c@),
            r@.len() == i,
            forall|k: int| 0 <= k < i ==> #[trigger] r@[k]@ == c@[k].display_text(),
        decreases c@.len() - i,
    {
        r.push(c.container[i].to_display_string());
        i = i + 1;
    }
    r
}

impl PadamoTrigger {
    /// The tool before any record: a 100-frame placeholder record, all
    /// unmarked; nothing chosen; both workers idle.
    pub fn new() -> (r: Self)
        ensures
            r.unmarked_intervals@ == seq![Interval { start: 0, end: 100 }],
            r.positive_intervals@ == Seq::<Interval>::empty(),
            r.negative_intervals@ == Seq::<Interval>::empty(),
            r.positive_strings@.len() == 0,
            r.negative_strings@.len() == 0,
            r.selection is None,
            r.selected_interval is None,
            r.selection_positive,
            r.trigger_interval_selector is None,
            r.trigger_form_instance.chunksize == 10000 && r.trigger_form_instance.safeguard == 3000,
            r.trigger_status@ == "IDLE"@,
            r.export_status@ == "IDLE"@,
    {
        PadamoTrigger {
            unmarked_intervals: IntervalStorage::new_full(100),
            positive_intervals: IntervalStorage::new_empty(),
            negative_intervals: IntervalStorage::new_empty(),
            positive_strings: Vec::new(),
            negative_strings: Vec::new(),
            selection: None,
            selected_interval: None,
            selection_positive: true,
            trigger_interval_selector: None,
            trigger_form_instance: TriggerSettingsForm::default(),
            trigger_status: String::from_str("IDLE"),
            export_status: String::from_str("IDLE"),
        }
    }

    /// Forgets all marks and the chosen event, for a record of `length` frames.
    pub fn reset_intervals(&mut self, length: usize)
        ensures
            final(self).unmarked_intervals@ == seq![Interval { start: 0, end: length }],
            final(self).positive_intervals@ == Seq::<Interval>::empty(),
            final(self).negative_intervals@ == Seq::<Interval>::empty(),
            final(self).positive_strings@.len() == 0,
            final(self).negative_strings@.len() == 0,
            final(self).selection is None,
            final(self).selected_interval is None,
            final(self).selection_positive,
            final(self).trigger_interval_selector == old(self).trigger_interval_selector,
            final(self).trigger_form_instance == old(self).trigger_form_instance,
            final(self).trigger_status == old(self).trigger_status,
            final(self).export_status == old(self).export_status,
    {
        self.unmarked_intervals = IntervalStorage::new_full(length);
        self.positive_intervals = IntervalStorage::new_empty();
        self.negative_intervals = IntervalStorage::new_empty();
        self.selection = None;
        self.selected_interval = None;
        self.selection_positive = true;
        self.update_interval_strings();
    }

    /// The trigger worker is stopped: its status line reads `IDLE`.
    pub fn stop_worker(&mut self)
        ensures
            *final(self) == (PadamoTrigger { trigger_status: final(self).trigger_status, ..*old(self) }),
            final(self).trigger_status@ == "IDLE"@,
    {
        self.trigger_status = String::from_str("IDLE");
    }

    /// The export worker is stopped: its status line reads `IDLE`.
    pub fn stop_export(&mut self)
        ensures
            *final(self) == (PadamoTrigger { export_status: final(self).export_status, ..*old(self) }),
            final(self).export_status@ == "IDLE"@,
    {
        self.export_status = String::from_str("IDLE");
    }

    /// Labels the marked intervals anew.
    pub fn update_interval_strings(&mut self)
        requires
            all_wf(old(self).positive_intervals@),
            all_wf(old(self).negative_intervals@),
        ensures
            labels_of(final(self).positive_strings@, final(self).positive_intervals@),
            labels_of(final(self).negative_strings@, final(self).negative_intervals@),
            *final(self) == (PadamoTrigger {
                positive_strings: final(self).positive_strings,
                negative_strings: final(self).negative_strings,
                ..*old(self)
            }),
    {
        self.positive_strings = interval_labels(&self.positive_intervals);
        self.negative_strings = interval_labels(&self.negative_intervals);
    }

    /// Whether marking `interval` (positive or negative) can run: see `mark_defined`.
    pub fn mark_is_defined(&self, interval: Interval, positive: bool) -> (r: bool)
        ensures
            r == mark_defined(
                self.unmarked_intervals@,
                if positive { self.positive_intervals@ } else { self.negative_intervals@ },
                interval,
            ),
    {
        proof {
            lemma_take_reports_availability(self.unmarked_intervals@, interval);
        }
        if !self.unmarked_intervals.is_available(interval) {
            return true;
        }
        if positive {
            self.positive_intervals.insert_is_defined(interval)
        } else {
            self.negative_intervals.insert_is_defined(interval)
        }
    }

    /// Marks `interval` positive where it can be taken from the unmarked frames.
    pub fn mark_positive(&mut self, interval: Interval)
        requires
            mark_defined(old(self).unmarked_intervals@, old(self).positive_intervals@, interval),
        ensures
            (final(self).unmarked_intervals@, final(self).positive_intervals@) == spec_mark(
                old(self).unmarked_intervals@,
                old(self).positive_intervals@,
                interval,
            ),
            *final(self) == (PadamoTrigger {
                unmarked_intervals: final(self).unmarked_intervals,
                positive_intervals: final(self).positive_intervals,
                ..*old(self)
            }),
    {
        if self.unmarked_intervals.take_interval(interval) {
            self.positive_intervals.insert_interval(interval);
        }
    }

    /// Marks `interval` negative where it can be taken from the unmarked frames.
    pub fn mark_negative(&mut self, interval: Interval)
        requires
            mark_defined(old(self).unmarked_intervals@, old(self).negative_intervals@, interval),
        ensures
            (final(self).unmarked_intervals@, final(self).negative_intervals@) == spec_mark(
                old(self).unmarked_intervals@,
                old(self).negative_intervals@,
                interval,
            ),
            *final(self) == (PadamoTrigger {
                unmarked_intervals: final(self).unmarked_intervals,
                negative_intervals: final(self).negative_intervals,
                ..*old(self)
            }),
    {
        if self.unmarked_intervals.take_interval(interval) {
            self.negative_intervals.insert_interval(interval);
        }
    }
}

impl PadamoTrigger {
    /// Takes a report of the trigger worker into account: a status replaces
    /// the status line; a mark is made.
    pub fn apply_process_message(&mut self, msg: TriggerProcessMessage)
        requires
            msg matches TriggerProcessMessage::MarkPositive(iv) ==> mark_defined(
                old(self).unmarked_intervals@,
                old(self).positive_intervals@,
                iv,
            ),
            msg matches TriggerProcessMessage::MarkNegative(iv) ==> mark_defined(
                old(self).unmarked_intervals@,
                old(self).negative_intervals@,
                iv,
            ),
        ensures
            match msg {
                TriggerProcessMessage::Status(st) => *final(self) == (PadamoTrigger { trigger_status: st, ..*old(self) }),
                TriggerProcessMessage::MarkPositive(iv) => {
                    &&& (final(self).unmarked_intervals@, final(self).positive_intervals@) == spec_mark(
                        old(self).unmarked_intervals@,
                        old(self).positive_intervals@,
                        iv,
                    )
                    &&& *final(self) == (PadamoTrigger {
                        unmarked_intervals: final(self).unmarked_intervals,
                        positive_intervals: final(self).positive_intervals,
                        ..*old(self)
                    })
                },
                TriggerProcessMessage::MarkNegative(iv) => {
                    &&& (final(self).unmarked_intervals@, final(self).negative_intervals@) == spec_mark(
                        old(self).unmarked_intervals@,
                        old(self).negative_intervals@,
                        iv,
                    )
                    &&& *final(self) == (PadamoTrigger {
                        unmarked_intervals: final(self).unmarked_intervals,
                        negative_intervals: final(self).negative_intervals,
                        ..*old(self)
                    })
                },
            },
    {
        match msg {
            TriggerProcessMessage::Status(st) => {
                self.trigger_status = st;
            },
            TriggerProcessMessage::MarkPositive(iv) => {
                self.mark_positive(iv);
            },
            TriggerProcessMessage::MarkNegative(iv) => {
                self.mark_negative(iv);
            },
        }
    }

    /// With a signal and an event chosen, records the chosen interval, and
    /// asks for its frames to be loaded unless it is longer than the
    /// safeguard or a load is running (`loader_busy`).
    pub fn select_event(&mut self, has_signal: bool, loader_busy: bool) -> (r: TriggerAction)
        requires
            has_signal && old(self).selection is Some ==> {
                let i = old(self).selection->0;
                &&& (if old(self).selection_positive {
                    i < old(self).positive_intervals@.len()
                } else {
                    i < old(self).negative_intervals@.len()
                })
                &&& chosen_interval(*old(self), i, old(self).selection_positive).wf()
            },
        ensures
            if has_signal && old(self).selection is Some {
                let iv = chosen_interval(*old(self), old(self).selection->0, old(self).selection_positive);
                &&& *final(self) == (PadamoTrigger { selected_interval: Some(iv), ..*old(self) })
                &&& if iv.end - iv.start > old(self).trigger_form_instance.safeguard || loader_busy {
                    r is Nothing
                } else {
                    r == TriggerAction::LoadEvent(iv)
                }
            } else {
                *final(self) == *old(self) && r is Nothing
            },
    {
        if has_signal {
            if let Some(sel) = self.selection {
                let interval = if self.selection_positive {
                    self.positive_intervals.container[sel]
                } else {
                    self.negative_intervals.container[sel]
                };
                self.selected_interval = Some(interval);
                if interval.length() > self.trigger_form_instance.safeguard {
                    return TriggerAction::Nothing;
                }
                if loader_busy {
                    return TriggerAction::Nothing;
                }
                return TriggerAction::LoadEvent(interval);
            }
        }
        TriggerAction::Nothing
    }

    /// Handles a message. `has_signal` tells whether a signal is loaded,
    /// `has_trigger` whether a trigger is attached to it, and `loader_busy`
    /// whether an event is being loaded.
    pub fn update(&mut self, msg: TriggerEvent, has_signal: bool, has_trigger: bool, loader_busy: bool) -> (r: TriggerAction)
        requires
            msg is ChooseTrigger && has_signal && has_trigger ==> all_wf(old(self).unmarked_intervals@),
            msg matches TriggerEvent::SelectionMessage(SelectionMessage::IntervalSelected(i, _)) ==> (
                old(self).trigger_interval_selector matches Some(d) ==> i < d@.unmarked_intervals.len()),
            msg is ConfirmTrigger && has_signal && has_trigger ==> (old(self).trigger_interval_selector matches Some(d)
                ==> d@.start <= d@.end),
            msg matches TriggerEvent::SelectPositive(i) ==> has_signal ==> i < old(self).positive_intervals@.len()
                && old(self).positive_intervals@[i as int].wf(),
            msg matches TriggerEvent::SelectNegative(i) ==> has_signal ==> i < old(self).negative_intervals@.len()
                && old(self).negative_intervals@[i as int].wf(),
        ensures
            match msg {
                TriggerEvent::ChooseTrigger => if has_signal && has_trigger {
                    &&& r is Nothing
                    &&& final(self).trigger_interval_selector matches Some(d) && d@.unmarked_intervals
                        == old(self).unmarked_intervals@ && d@.manual_select is None
                    &&& *final(self) == (PadamoTrigger {
                        trigger_interval_selector: final(self).trigger_interval_selector,
                        ..*old(self)
                    })
                } else {
                    &&& r matches TriggerAction::ShowError(e) && e@ == (if has_signal {
                        "No trigger is attached to signal"@
                    } else {
                        "No signal"@
                    })
                    &&& *final(self) == *old(self)
                },
                TriggerEvent::CancelChoseTrigger => r is Nothing
                    && *final(self) == (PadamoTrigger { trigger_interval_selector: None, ..*old(self) }),
                TriggerEvent::SelectionMessage(m) => {
                    &&& r is Nothing
                    &&& match old(self).trigger_interval_selector {
                        Some(d) => final(self).trigger_interval_selector matches Some(d2) && d2@ == dialog_after(d@, m)
                            && *final(self) == (PadamoTrigger {
                                trigger_interval_selector: final(self).trigger_interval_selector,
                                ..*old(self)
                            }),
                        None => *final(self) == *old(self),
                    }
                },
                TriggerEvent::ConfirmTrigger => match old(self).trigger_interval_selector {
                    Some(d) => if has_signal && has_trigger {
                        let iv = Interval { start: d@.start, end: d@.end };
                        if spec_is_available(old(self).unmarked_intervals@, iv) {
                            &&& r == TriggerAction::StartTrigger { interval: iv, settings: old(self).trigger_form_instance }
                            &&& final(self).trigger_status@ == "IDLE"@
                            &&& *final(self) == (PadamoTrigger {
                                trigger_interval_selector: None,
                                trigger_status: final(self).trigger_status,
                                ..*old(self)
                            })
                        } else {
                            &&& r matches TriggerAction::ShowError(e) && e@ == unavailable_text(iv)
                            &&& *final(self) == (PadamoTrigger { trigger_interval_selector: None, ..*old(self) })
                        }
                    } else {
                        r is Nothing && *final(self) == (PadamoTrigger { trigger_interval_selector: None, ..*old(self) })
                    },
                    None => r is Nothing && *final(self) == *old(self),
                },
                TriggerEvent::SelectPositive(i) => {
                    let t = PadamoTrigger { selection: Some(i), selection_positive: true, ..*old(self) };
                    if has_signal {
                        let iv = old(self).positive_intervals@[i as int];
                        &&& *final(self) == (PadamoTrigger { selected_interval: Some(iv), ..t })
                        &&& if iv.end - iv.start > old(self).trigger_form_instance.safeguard || loader_busy {
                            r is Nothing
                        } else {
                            r == TriggerAction::LoadEvent(iv)
                        }
                    } else {
                        *final(self) == t && r is Nothing
                    }
                },
                TriggerEvent::SelectNegative(i) => {
                    let t = PadamoTrigger { selection: Some(i), selection_positive: false, ..*old(self) };
                    if has_signal {
                        let iv = old(self).negative_intervals@[i as int];
                        &&& *final(self) == (PadamoTrigger { selected_interval: Some(iv), ..t })
                        &&& if iv.end - iv.start > old(self).trigger_form_instance.safeguard || loader_busy {
                            r is Nothing
                        } else {
                            r == TriggerAction::LoadEvent(iv)
                        }
                    } else {
                        *final(self) == t && r is Nothing
                    }
                },
            },
    {
        match msg {
            TriggerEvent::ChooseTrigger => {
                if has_signal {
                    if has_trigger {
                        let copy = IntervalStorage { container: copy_intervals(&self.unmarked_intervals.container) };
                        self.trigger_interval_selector = Some(IntervalSelectionDialog::new(copy));
                        TriggerAction::Nothing
                    } else {
                        TriggerAction::ShowError(String::from_str("No trigger is attached to signal"))
                    }
                } else {
                    TriggerAction::ShowError(String::from_str("No signal"))
                }
            },
            TriggerEvent::CancelChoseTrigger => {
                self.trigger_interval_selector = None;
                TriggerAction::Nothing
            },
            TriggerEvent::SelectionMessage(m) => {
                if let Some(d) = &mut self.trigger_interval_selector {
                    d.update(m);
                }
                TriggerAction::Nothing
            },
            TriggerEvent::ConfirmTrigger => {
                if let Some(d) = self.trigger_interval_selector.take() {
                    if has_signal && has_trigger {
                        let interval = d.get_interval();
                        if !self.unmarked_intervals.is_available(interval) {
                            let mut e = String::from_str("Interval ");
                            let text = interval.to_display_string();
                            e.append(text.as_str());
                            e.append(" is not available");
                            return TriggerAction::ShowError(e);
                        }
                        self.stop_worker();
                        return TriggerAction::StartTrigger { interval, settings: self.trigger_form_instance };
                    }
                }
                TriggerAction::Nothing
            },
            TriggerEvent::SelectPositive(i) => {
                self.selection = Some(i);
                self.selection_positive = true;
                self.select_event(has_signal, loader_busy)
            },
            TriggerEvent::SelectNegative(i) => {
                self.selection = Some(i);
                self.selection_positive = false;
                self.select_event(has_signal, loader_busy)
            },
        }
    }

    /// Loads saved marks into a record of `length` frames: forgets the
    /// marks, marks `positives` then `negatives` in turn, and labels the
    /// marks; see `loaded_marks`. Gives whether every mark could be stored;
    /// where one could not, the state is left part way.
    pub fn load_marks(&mut self, length: usize, positives: &IntervalStorage, negatives: &IntervalStorage) -> (r: bool)
        ensures
            match loaded_marks(length, positives@, negatives@) {
                Some(t) => r && final(self).unmarked_intervals@ == t.0 && final(self).positive_intervals@ == t.1
                    && final(self).negative_intervals@ == t.2
                    && labels_of(final(self).positive_strings@, t.1)
                    && labels_of(final(self).negative_strings@, t.2)
                    && final(self).selection is None && final(self).selected_interval is None,
                None => !r,
            },
    {
        self.reset_intervals(length);
        let mut i: usize = 0;
        while i < positives.container.len()
            invariant
                i <= positives@.len(),
                marked_all(seq![Interval { start: 0, end: length }], Seq::empty(), positives@.subrange(0, i as int))
                    == Some((self.unmarked_intervals@, self.positive_intervals@)),
                self.negative_intervals@ == Seq::<Interval>::empty(),
                self.selection is None && self.selected_interval is None,
            decreases positives@.len() - i,
        {
            let iv = positives.container[i];
            proof {
                assert(positives@.subrange(0, i + 1 as int).drop_last() =~= positives@.subrange(0, i as int));
            }
            if !self.mark_is_defined(iv, true) {
                proof {
                    lemma_marked_all_stops(seq![Interval { start: 0, end: length }], Seq::empty(), positives@, i as int);
                }
                return false;
            }
            self.mark_positive(iv);
            i = i + 1;
        }
        proof {
            assert(positives@.subrange(0, positives@.len() as int) =~= positives@);
        }
        let ghost u1 = self.unmarked_intervals@;
        let mut j: usize = 0;
        while j < negatives.container.len()
            invariant
                j <= negatives@.len(),
                marked_all(seq![Interval { start: 0, end: length }], Seq::empty(), positives@)
                    == Some((u1, self.positive_intervals@)),
                marked_all(u1, Seq::empty(), negatives@.subrange(0, j as int))
                    == Some((self.unmarked_intervals@, self.negative_intervals@)),
                self.selection is None && self.selected_interval is None,
            decreases negatives@.len() - j,
        {
            let iv = negatives.container[j];
            proof {
                assert(negatives@.subrange(0, j + 1 as int).drop_last() =~= negatives@.subrange(0, j as int));
            }
            if !self.mark_is_defined(iv, false) {
                proof {
                    lemma_marked_all_stops(u1, Seq::empty(), negatives@, j as int);
                }
                return false;
            }
            self.mark_negative(iv);
            j = j + 1;
        }
        proof {
            assert(negatives@.subrange(0, negatives@.len() as int) =~= negatives@);
        }
        if !(intervals_ordered(&self.positive_intervals) && intervals_ordered(&self.negative_intervals)) {
            return false;
        }
        self.update_interval_strings();
        true
    }

    /// Examining the chosen event: the viewer is to focus on its frames;
    /// with no event chosen, the user is asked to select one.
    pub fn examine_event(&self) -> (r: TriggerAction)
        ensures
            match self.selected_interval {
                Some(iv) => r == TriggerAction::FocusOn(iv.start, iv.end),
                None => r matches TriggerAction::ShowInfo(text) && text@ == "Select event to examine"@,
            },
    {
        match self.selected_interval {
            Some(iv) => TriggerAction::FocusOn(iv.start, iv.end),
            None => {
                let text = String::from_str("Select event to examine");
                proof {
                    reveal_strlit("Select event to examine");
                }
                TriggerAction::ShowInfo(text)
            },
        }
    }
}

/// A fresh record of `length` frames is all unmarked.
pub proof fn lemma_reset_partitions(length: usize)
    ensures
        partitioned(seq![Interval { start: 0, end: length }], Seq::empty(), Seq::empty(), length as int),
{
    let u = seq![Interval { start: 0, end: length }];
    let e = Seq::<Interval>::empty();
    assert forall|p: int| (0 <= p < length) == (covers(u, p) || covers(e, p) || covers(e, p)) by {
        if 0 <= p < length {
            assert(u[0].has_point(p));
        }
    }
}

/// Marking an interval keeps every frame of the record in exactly one list,
/// moving the interval's frames from the unmarked list to the marked one,
/// provided marks arrive in increasing order (the interval starts at or
/// after the end of every interval already marked the same way) and the
/// interval does not lie strictly inside an unmarked interval other than
/// the last one.
pub proof fn lemma_mark_keeps_partition(
    unmarked: Seq<Interval>,
    marked: Seq<Interval>,
    other: Seq<Interval>,
    length: int,
    iv: Interval,
)
    requires
        partitioned(unmarked, marked, other, length),
        iv.wf(),
        forall|k: int| 0 <= k < marked.len() ==> #[trigger] marked[k].end <= iv.start,
        forall|k: int| 0 <= k < unmarked.len() - 1 ==> !(#[trigger] unmarked[k].start < iv.start && iv.end < unmarked[k].end),
    ensures
        mark_defined(unmarked, marked, iv),
        partitioned(spec_mark(unmarked, marked, iv).0, spec_mark(unmarked, marked, iv).1, other, length),
        spec_take(unmarked, iv).1 ==> forall|p: int|
            iv.has_point(p) ==> covers(spec_mark(unmarked, marked, iv).1, p),
{
    lemma_insert_after_all(marked, iv);
    lemma_take_reports_availability(unmarked, iv);
    if spec_take(unmarked, iv).1 {
        lemma_take_removes_frames(unmarked, iv);
        let u2 = spec_take(unmarked, iv).0;
        let m2 = spec_insert(marked, iv).0;
        lemma_point_lookup_finds_holder(unmarked, iv.start as int);
        let k = point_lookup(unmarked, iv.start as int).unwrap();
        assert forall|p: int| iv.has_point(p) implies covers(unmarked, p) by {
            assert(unmarked[k].has_point(p));
        }
        assert forall|p: int|
            #![trigger covers(u2, p)]
            #![trigger covers(m2, p)]
            #![trigger covers(other, p)]
            (0 <= p < length) == (covers(u2, p) || covers(m2, p) || covers(other, p)) by {
            if iv.has_point(p) {
                assert(covers(unmarked, p));
            }
        }
        assert forall|p: int|
            #![trigger covers(u2, p), covers(m2, p)]
            !(covers(u2, p) && covers(m2, p)) by {
            if iv.has_point(p) {
                assert(covers(unmarked, p));
            }
        }
        assert forall|p: int|
            #![trigger covers(u2, p), covers(other, p)]
            !(covers(u2, p) && covers(other, p)) by {
            if covers(u2, p) {
                assert(covers(unmarked, p));
            }
        }
        assert forall|p: int|
            #![trigger covers(m2, p), covers(other, p)]
            !(covers(m2, p) && covers(other, p)) by {
            if iv.has_point(p) {
                assert(covers(unmarked, p));
            }
        }
    }
}

/// The interval chosen for an event is the one at the chosen place of the
/// list the choice was made in: the positive list for a positive choice,
/// the negative list otherwise.
pub proof fn lemma_choice_reads_its_list(t: PadamoTrigger, i: usize)
    ensures
        chosen_interval(t, i, true) == t.positive_intervals@[i as int],
        chosen_interval(t, i, false) == t.negative_intervals@[i as int],
{
}

} // verus!
