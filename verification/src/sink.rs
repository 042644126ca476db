//! The output sink: a mapping from logical output-unit name to emitted text.
//! A pass either pushes a complete unit or fails before pushing it.

use vstd::prelude::*;

verus! {

/// Named output units, in emission order.
pub struct Files {
    units: Vec<(String, String)>,
}

impl View for Files {
    type V = Seq<(Seq<char>, Seq<char>)>;

    closed spec fn view(&self) -> Seq<(Seq<char>, Seq<char>)> {
        Seq::new(self.units@.len(), |i: int| (self.units@[i].0@, self.units@[i].1@))
    }
}

impl Files {
    pub fn new() -> (r: Files)
        ensures
            r@ == Seq::<(Seq<char>, Seq<char>)>::empty(),
    {
        Files { units: Vec::new() }
    }

    /// Add one complete output unit.
    pub fn push(&mut self, name: String, contents: String)
        ensures
            final(self)@ == old(self)@.push((name@, contents@)),
    {
        self.units.push((name, contents));
        assert(self@ =~= old(self)@.push((self.units@.last().0@, self.units@.last().1@)));
    }

    pub fn len(&self) -> (r: usize)
        ensures
            r == self@.len(),
    {
        self.units.len()
    }

    pub fn get(&self, i: usize) -> (r: &(String, String))
        requires
            i < self@.len(),
        ensures
            r.0@ == self@[i as int].0,
            r.1@ == self@[i as int].1,
    {
        &self.units[i]
    }
}

} // verus!
