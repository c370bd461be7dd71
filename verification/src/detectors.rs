use vstd::prelude::*;

verus! {

/// The panes of the detector manager.
#[derive(Clone, Copy, Debug)]
pub enum Pane {
    DetectorView,
    SourceCode,
}


/// The list of a detector list with the entry at `index` moved to the
/// front: the others keep their order.
pub open spec fn to_front<T>(s: Seq<T>, index: int) -> Seq<T> {
    seq![s[index]] + s.subrange(0, index) + s.subrange(index + 1, s.len() as int)
}

/// The loaded detectors, the first being the primary one, each with the
/// buffer of its settings form. `D` is a detector entry and `B` a form
/// buffer, as the caller keeps them.
pub struct LoadedDetectors<D, B> {
    pub detectors: Vec<D>,
    pub buffers: Vec<B>,
}

impl<D, B> LoadedDetectors<D, B> {
    /// No detector.
    pub fn new() -> (r: Self)
        ensures
            r.detectors@.len() == 0,
            r.buffers@.len() == 0,
    {
        LoadedDetectors { detectors: Vec::new(), buffers: Vec::new() }
    }

    /// The number of detectors.
    pub fn len(&self) -> (r: usize)
        ensures
            r == self.detectors@.len(),
    {
        self.detectors.len()
    }

    /// The primary detector, if any.
    pub fn get_primary(&self) -> (r: Option<&D>)
        ensures
            r == (if self.detectors@.len() > 0 { Some(&self.detectors@[0]) } else { None }),
    {
        if self.detectors.len() > 0 {
            Some(&self.detectors[0])
        } else {
            None
        }
    }

    /// The detector at place `id`, if any.
    pub fn get(&self, id: usize) -> (r: Option<&D>)
        ensures
            r == (if id < self.detectors@.len() { Some(&self.detectors@[id as int]) } else { None }),
    {
        if id < self.detectors.len() {
            Some(&self.detectors[id])
        } else {
            None
        }
    }

    /// Adds a detector last, with its form buffer.
    pub fn add_detector(&mut self, detector: D, buffer: B)
        ensures
            final(self).detectors@ == old(self).detectors@.push(detector),
            final(self).buffers@ == old(self).buffers@.push(buffer),
    {
        self.buffers.push(buffer);
        self.detectors.push(detector);
    }

    /// Drops every detector.
    pub fn clear(&mut self)
        ensures
            final(self).detectors@.len() == 0,
            final(self).buffers@.len() == 0,
    {
        self.detectors.clear();
        self.buffers.clear();
    }

    /// Makes the detector at place `index` the primary one, moving it and
    /// its buffer to the front; the primary itself and places past the end
    /// leave the list as it is.
    pub fn set_primary_detector_by_index(&mut self, index: usize)
        requires
            0 < index < old(self).detectors@.len() ==> index < old(self).buffers@.len(),
        ensures
            if 0 < index < old(self).detectors@.len() {
                &&& final(self).detectors@ == to_front(old(self).detectors@, index as int)
                &&& final(self).buffers@ == to_front(old(self).buffers@.subrange(0, index + 1), index as int)
                    + old(self).buffers@.subrange(index + 1, old(self).buffers@.len() as int)
            } else {
                final(self).detectors@ == old(self).detectors@ && final(self).buffers@ == old(self).buffers@
            },
    {
        if index < self.detectors.len() && index > 0 {
            let d = self.detectors.remove(index);
            self.detectors.insert(0, d);
            let b = self.buffers.remove(index);
            self.buffers.insert(0, b);
            proof {
                assert(self.detectors@ =~= to_front(old(self).detectors@, index as int));
                assert(self.buffers@ =~= to_front(old(self).buffers@.subrange(0, index + 1), index as int)
                    + old(self).buffers@.subrange(index + 1, old(self).buffers@.len() as int));
            }
        }
    }
}

/// Moving a detector to the front makes it primary and keeps every
/// detector, each once.
pub proof fn lemma_to_front_keeps_all<T>(s: Seq<T>, index: int)
    requires
        0 <= index < s.len(),
    ensures
        to_front(s, index).len() == s.len(),
        to_front(s, index)[0] == s[index],
        to_front(s, index).to_multiset() == s.to_multiset(),
{
    let a = s.subrange(0, index);
    let b = s.subrange(index + 1, s.len() as int);
    let x = seq![s[index]];
    assert(s =~= a + x + b);
    vstd::seq_lib::lemma_multiset_commutative(a, x);
    vstd::seq_lib::lemma_multiset_commutative(x, a);
    vstd::seq_lib::lemma_multiset_commutative(x + a, b);
    vstd::seq_lib::lemma_multiset_commutative(a + x, b);
    broadcast use vstd::multiset::group_multiset_axioms;
    assert(a.to_multiset().add(x.to_multiset()) =~= x.to_multiset().add(a.to_multiset()));
}

} // verus!
