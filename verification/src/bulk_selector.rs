use vstd::prelude::*;

verus! {

/// How the values of a pixel over time are reduced to one.
#[derive(Clone, Copy, Debug)]
pub enum Selector {
    Max,
    Mean,
}

impl Default for Selector {
    fn default() -> (r: Self)
        ensures
            r is Max,
    {
        Selector::Max
    }
}

/// Whether a pixel is selected above or below the threshold.
#[derive(Clone, Copy, Debug)]
pub enum SelectSign {
    Greater,
    Less,
}

impl Default for SelectSign {
    fn default() -> (r: Self)
        ensures
            r is Greater,
    {
        SelectSign::Greater
    }
}

/// Which detector the selection applies to.
#[derive(Clone, Copy, Debug)]
pub enum DetectorSelection {
    Primary,
    Secondary,
}

impl Default for DetectorSelection {
    fn default() -> (r: Self)
        ensures
            r is Primary,
    {
        DetectorSelection::Primary
    }
}

/// How a new selection combines with the current pixel mask.
#[derive(Clone, Copy, Debug)]
pub enum SelectionMode {
    Add,
    Intersect,
    Remove,
    Overwrite,
}

impl Default for SelectionMode {
    fn default() -> (r: Self)
        ensures
            r is Add,
    {
        SelectionMode::Add
    }
}

/// How mode `m` combines the current flag `a` with the selected flag `b`.
pub open spec fn combined(m: SelectionMode, a: bool, b: bool) -> bool {
    match m {
        SelectionMode::Add => a || b,
        SelectionMode::Intersect => a && b,
        SelectionMode::Remove => a && !b,
        SelectionMode::Overwrite => b,
    }
}

impl SelectionMode {
    /// Combines the current flag `a` of a pixel with its selected flag `b`.
    pub fn apply(&self, a: bool, b: bool) -> (r: bool)
        ensures
            r == combined(*self, a, b),
    {
        match self {
            SelectionMode::Add => a || b,
            SelectionMode::Intersect => a && b,
            SelectionMode::Remove => a && !b,
            SelectionMode::Overwrite => b,
        }
    }

    /// Combines a pixel mask with the flags of a selection, pixel by pixel;
    /// pixels beyond the end of the shorter of the two keep their flag.
    pub fn modify_mask(&self, mask: &mut Vec<bool>, modifier: &Vec<bool>)
        ensures
            final(mask)@.len() == old(mask)@.len(),
            forall|i: int|
                0 <= i < old(mask)@.len() ==> #[trigger] final(mask)@[i] == (if i < modifier@.len() {
                    combined(*self, old(mask)@[i], modifier@[i])
                } else {
                    old(mask)@[i]
                }),
    {
        let n = if mask.len() < modifier.len() { mask.len() } else { modifier.len() };
        let mut i: usize = 0;
        while i < n
            invariant
                n <= mask@.len(),
                n <= modifier@.len(),
                n == (if old(mask)@.len() < modifier@.len() { old(mask)@.len() } else { modifier@.len() }),
                i <= n,
                mask@.len() == old(mask)@.len(),
                forall|k: int| 0 <= k < i ==> #[trigger] mask@[k] == combined(*self, old(mask)@[k], modifier@[k]),
                forall|k: int| i <= k < mask@.len() ==> #[trigger] mask@[k] == old(mask)@[k],
            decreases n - i,
        {
            let v = self.apply(mask[i], modifier[i]);
            mask.set(i, v);
            i += 1;
        }
    }
}

/// The one action of the selection form.
#[derive(Clone, Copy, Debug)]
pub enum SelectorActions {
    Select,
}

impl Default for SelectorActions {
    fn default() -> (r: Self)
        ensures
            r is Select,
    {
        SelectorActions::Select
    }
}

/// What each mode does to a pixel: adding keeps every pixel chosen before
/// and chooses every selected one; intersecting keeps a pixel only where it
/// was chosen and is selected; removing unchooses every selected pixel and
/// keeps the others as they were; overwriting chooses exactly the selected
/// pixels, whatever was chosen before. Adding and removing the same
/// selection in turn leaves exactly the pixels chosen before that are not
/// selected.
pub proof fn lemma_modes_on_a_pixel(a: bool, b: bool)
    ensures
        a ==> combined(SelectionMode::Add, a, b),
        b ==> combined(SelectionMode::Add, a, b),
        !a && !b ==> !combined(SelectionMode::Add, a, b),
        combined(SelectionMode::Intersect, a, b) <==> (a && b),
        b ==> !combined(SelectionMode::Remove, a, b),
        !b ==> combined(SelectionMode::Remove, a, b) == a,
        combined(SelectionMode::Overwrite, a, b) == b,
        combined(SelectionMode::Remove, combined(SelectionMode::Add, a, b), b) == (a && !b),
{
}

} // verus!
