//! The placement of the viewer's test objects. The objects themselves
//! (`TestObject`, `TestObjectSelector` and the height probe) are not part
//! of this library: they hold floating-point coordinates, build meshes of
//! the `padamo_detectors` crate and carry its form derives.
use vstd::prelude::*;

verus! {

/// What a test object is placed relative to.
#[derive(Clone, Copy, Debug)]
pub enum Relation {
    Origin,
    Primary,
    Auxiliary(usize),
}

impl Default for Relation {
    fn default() -> (r: Self)
        ensures
            r is Origin,
    {
        Relation::Origin
    }
}

impl Relation {
    /// The detector that the object is placed relative to, if any: the
    /// primary detector is detector 0.
    pub fn get_detector_id(&self) -> (r: Option<usize>)
        ensures
            r == (match *self {
                Relation::Origin => None,
                Relation::Primary => Some(0usize),
                Relation::Auxiliary(x) => Some(x),
            }),
    {
        match self {
            Relation::Origin => None,
            Relation::Primary => Some(0),
            Relation::Auxiliary(x) => Some(*x),
        }
    }
}

} // verus!
