use vstd::prelude::*;
use crate::decimal::{decimal, lemma_decimal_round_trip, parse_unsigned, parse_unsigned_bounded, usize_to_decimal};
use crate::sparse_intervals::{Interval, IntervalStorage};

verus! {

/// What the interval choice dialog is told.
#[derive(Clone, Debug)]
pub enum SelectionMessage {
    SetStart(String),
    SetEnd(String),
    CommitInterval,
    IntervalSelected(usize, String),
}

/// The dialog in which the user chooses the interval of a record to run the
/// trigger on, among the intervals not marked yet.
pub struct IntervalSelectionDialog {
    unmarked_intervals: IntervalStorage,
    intervals_strings: Vec<String>,
    start_entry: String,
    end_entry: String,
    start: usize,
    end: usize,
    manual_select: Option<usize>,
}

/// The state of the dialog, as contracts see it.
pub struct IntervalSelectionDialogView {
    pub unmarked_intervals: Seq<Interval>,
    pub intervals_strings: Seq<Seq<char>>,
    pub start_entry: Seq<char>,
    pub end_entry: Seq<char>,
    pub start: usize,
    pub end: usize,
    pub manual_select: Option<usize>,
}

impl View for IntervalSelectionDialog {
    type V = IntervalSelectionDialogView;

    closed spec fn view(&self) -> IntervalSelectionDialogView {
        IntervalSelectionDialogView {
            unmarked_intervals: self.unmarked_intervals@,
            intervals_strings: self.intervals_strings@.map_values(|s: String| s@),
            start_entry: self.start_entry@,
            end_entry: self.end_entry@,
            start: self.start,
            end: self.end,
            manual_select: self.manual_select,
        }
    }
}

/// How the dialog changes on a message.
pub open spec fn dialog_after(v: IntervalSelectionDialogView, msg: SelectionMessage) -> IntervalSelectionDialogView {
    match msg {
        SelectionMessage::SetStart(s) => IntervalSelectionDialogView { start_entry: s@, ..v },
        SelectionMessage::SetEnd(s) => IntervalSelectionDialogView { end_entry: s@, ..v },
        SelectionMessage::CommitInterval => {
            let (start, start_entry) = match parse_unsigned(v.start_entry, usize::MAX as nat) {
                Some(x) => (x as usize, v.start_entry),
                None => (v.start, decimal(v.start as nat)),
            };
            let (end, end_entry) = match parse_unsigned(v.end_entry, usize::MAX as nat) {
                Some(x) => (x as usize, v.end_entry),
                None => (v.end, decimal(v.end as nat)),
            };
            IntervalSelectionDialogView { start, start_entry, end, end_entry, ..v }
        },
        SelectionMessage::IntervalSelected(index, _) => {
            let iv = v.unmarked_intervals[index as int];
            IntervalSelectionDialogView {
                manual_select: Some(index),
                start: iv.start,
                end: iv.end,
                start_entry: decimal(iv.start as nat),
                end_entry: decimal(iv.end as nat),
                ..v
            }
        },
    }
}

impl IntervalSelectionDialog {
    /// Opens the dialog on the first unmarked interval, if there is one.
    pub fn new(unmarked_intervals: IntervalStorage) -> (r: Self)
        requires
            forall|k: int| 0 <= k < unmarked_intervals@.len() ==> #[trigger] unmarked_intervals@[k].wf(),
        ensures
            r@.unmarked_intervals == unmarked_intervals@,
            r@.intervals_strings.len() == unmarked_intervals@.len(),
            forall|k: int|
                0 <= k < unmarked_intervals@.len() ==> #[trigger] r@.intervals_strings[k]
                    == unmarked_intervals@[k].display_text(),
            r@.manual_select is None,
            unmarked_intervals@.len() == 0 ==> r@.start == 0 && r@.end == 0 && r@.start_entry
                == Seq::<char>::empty() && r@.end_entry == Seq::<char>::empty(),
            unmarked_intervals@.len() > 0 ==> r@.start == unmarked_intervals@[0].start && r@.end
                == unmarked_intervals@[0].end && r@.start_entry == decimal(
                unmarked_intervals@[0].start as nat,
            ) && r@.end_entry == decimal(unmarked_intervals@[0].end as nat),
    {
        let (start_s, end_s, start, end) = if let Some(v) = unmarked_intervals.get_first_available() {
            (usize_to_decimal(v.start), usize_to_decimal(v.end), v.start, v.end)
        } else {
            (String::new(), String::new(), 0, 0)
        };
        let mut intervals_strings: Vec<String> = Vec::new();
        let n = unmarked_intervals.container.len();
        let mut i: usize = 0;
        while i < n
            invariant
                n == unmarked_intervals@.len(),
                i <= n,
                intervals_strings@.len() == i,
                forall|k: int| 0 <= k < unmarked_intervals@.len() ==> #[trigger] unmarked_intervals@[k].wf(),
                forall|k: int|
                    0 <= k < i ==> #[trigger] intervals_strings@[k]@ == unmarked_intervals@[k].display_text(),
            decreases n - i,
        {
            let s = unmarked_intervals.container[i].to_display_string();
            intervals_strings.push(s);
            i += 1;
        }
        IntervalSelectionDialog {
            unmarked_intervals,
            intervals_strings,
            start_entry: start_s,
            end_entry: end_s,
            start,
            end,
            manual_select: None,
        }
    }

    /// Applies a message of the dialog.
    pub fn update(&mut self, msg: SelectionMessage)
        requires
            msg matches SelectionMessage::IntervalSelected(index, _) ==> index < old(self)@.unmarked_intervals.len(),
        ensures
            final(self)@ == dialog_after(old(self)@, msg),
    {
        match msg {
            SelectionMessage::SetStart(v) => {
                self.start_entry = v;
            },
            SelectionMessage::SetEnd(v) => {
                self.end_entry = v;
            },
            SelectionMessage::CommitInterval => {
                if let Some(s) = parse_unsigned_bounded(self.start_entry.as_str(), usize::MAX) {
                    self.start = s;
                } else {
                    self.start_entry = usize_to_decimal(self.start);
                }
                if let Some(e) = parse_unsigned_bounded(self.end_entry.as_str(), usize::MAX) {
                    self.end = e;
                } else {
                    self.end_entry = usize_to_decimal(self.end);
                }
            },
            SelectionMessage::IntervalSelected(index, _) => {
                self.manual_select = Some(index);
                let interval = self.unmarked_intervals.container[index];
                self.start = interval.start;
                self.end = interval.end;
                self.start_entry = usize_to_decimal(self.start);
                self.end_entry = usize_to_decimal(self.end);
            },
        }
    }

    /// The interval chosen in the dialog; one that ends before it starts is refused.
    pub fn get_interval(&self) -> (r: Interval)
        requires
            self@.start <= self@.end,
        ensures
            r.start == self@.start,
            r.end == self@.end,
    {
        Interval::new(self.start, self.end)
    }
}

/// Picking an interval from the list makes it the dialog's interval and
/// shows its bounds in the two entries, so that committing the entries right
/// after keeps exactly the picked interval.
pub proof fn lemma_pick_then_commit(v: IntervalSelectionDialogView, index: usize, label: String)
    requires
        index < v.unmarked_intervals.len(),
    ensures
        ({
            let iv = v.unmarked_intervals[index as int];
            let w = dialog_after(v, SelectionMessage::IntervalSelected(index, label));
            let c = dialog_after(w, SelectionMessage::CommitInterval);
            &&& w.start == iv.start && w.end == iv.end && w.manual_select == Some(index)
            &&& parse_unsigned(w.start_entry, usize::MAX as nat) == Some(iv.start as nat)
            &&& parse_unsigned(w.end_entry, usize::MAX as nat) == Some(iv.end as nat)
            &&& c.start == iv.start && c.end == iv.end
        }),
{
    let iv = v.unmarked_intervals[index as int];
    lemma_decimal_round_trip(iv.start as nat, usize::MAX as nat);
    lemma_decimal_round_trip(iv.end as nat, usize::MAX as nat);
}

/// Committing the entries makes the dialog's bounds what the entries read
/// as, an entry that does not read as a number being reset to its bound;
/// afterwards both entries read back as the bounds, so committing again
/// changes nothing.
pub proof fn lemma_commit_reads_entries(v: IntervalSelectionDialogView)
    ensures
        ({
            let c = dialog_after(v, SelectionMessage::CommitInterval);
            &&& parse_unsigned(v.start_entry, usize::MAX as nat) matches Some(x) ==> c.start == x
            &&& parse_unsigned(v.start_entry, usize::MAX as nat) is None ==> c.start == v.start
            &&& parse_unsigned(v.end_entry, usize::MAX as nat) matches Some(x) ==> c.end == x
            &&& parse_unsigned(v.end_entry, usize::MAX as nat) is None ==> c.end == v.end
            &&& parse_unsigned(c.start_entry, usize::MAX as nat) == Some(c.start as nat)
            &&& parse_unsigned(c.end_entry, usize::MAX as nat) == Some(c.end as nat)
            &&& dialog_after(c, SelectionMessage::CommitInterval) == c
        }),
{
    lemma_decimal_round_trip(v.start as nat, usize::MAX as nat);
    lemma_decimal_round_trip(v.end as nat, usize::MAX as nat);
}

/// Typing in an entry changes only that entry.
pub proof fn lemma_typing_changes_only_the_entry(v: IntervalSelectionDialogView, t: String)
    ensures
        dialog_after(v, SelectionMessage::SetStart(t)) == (IntervalSelectionDialogView { start_entry: t@, ..v }),
        dialog_after(v, SelectionMessage::SetEnd(t)) == (IntervalSelectionDialogView { end_entry: t@, ..v }),
{
}

} // verus!
