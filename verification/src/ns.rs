//! The namespace allocator: every generated top-level symbol claims its name
//! here, and a second claim of the same name is a collision, surfaced rather
//! than silently suffixed.

use vstd::prelude::*;
use crate::Error;

verus! {

/// Whether `name` occurs in the claimed set.
pub open spec fn contains_name(ns: Seq<Seq<char>>, name: Seq<char>) -> bool {
    exists|i: int| 0 <= i < ns.len() && ns[i] == name
}

/// Claim the given names in order: the final claimed set, or `None` as soon
/// as one of them (including a duplicate within `names` itself) collides.
pub open spec fn claim_all(ns: Seq<Seq<char>>, names: Seq<Seq<char>>) -> Option<Seq<Seq<char>>>
    decreases names.len(),
{
    if names.len() == 0 {
        Option::Some(ns)
    } else if contains_name(ns, names[0]) {
        Option::None
    } else {
        claim_all(ns.push(names[0]), names.drop_first())
    }
}

/// The views of a sequence of strings.
pub open spec fn str_views(s: Seq<String>) -> Seq<Seq<char>> {
    Seq::new(s.len(), |i: int| s[i]@)
}

/// The set of names claimed so far, in claim order.
pub struct Ns {
    used: Vec<String>,
}

impl View for Ns {
    type V = Seq<Seq<char>>;

    closed spec fn view(&self) -> Seq<Seq<char>> {
        Seq::new(self.used@.len(), |i: int| self.used@[i]@)
    }
}

impl Ns {
    pub open spec fn claimed(self, name: Seq<char>) -> bool {
        contains_name(self@, name)
    }

    pub fn new() -> (r: Ns)
        ensures
            r@ == Seq::<Seq<char>>::empty(),
    {
        Ns { used: Vec::new() }
    }

    /// Whether `name` was already claimed.
    pub fn contains(&self, name: &String) -> (r: bool)
        ensures
            r == self.claimed(name@),
    {
        let n = self.used.len();
        for i in 0..n
            invariant
                n == self.used.len(),
                forall|j: int| 0 <= j < i ==> self@[j] != name@,
        {
            if self.used[i] == *name {
                assert(self@[i as int] == name@);
                return true;
            }
        }
        false
    }

    /// Claim `name`. Fails if and only if the name was already claimed.
    pub fn insert(&mut self, name: &String) -> (r: Result<(), Error>)
        ensures
            r is Ok <==> !old(self).claimed(name@),
            r is Ok ==> final(self)@ == old(self)@.push(name@),
            r is Err ==> r == Result::<(), Error>::Err(Error::Collision) && final(self)@ == old(
                self,
            )@,
    {
        if self.contains(name) {
            return Err(Error::Collision);
        }
        self.used.push(name.clone());
        assert(self@ =~= old(self)@.push(name@));
        Ok(())
    }

    /// Claim every name in `names`, in order. Fails, leaving the namespace as
    /// it was, if and only if one of them collides.
    pub fn insert_all(&mut self, names: &Vec<String>) -> (r: Result<(), Error>)
        ensures
            r is Ok <==> claim_all(old(self)@, str_views(names@)) is Some,
            r is Ok ==> Option::Some(final(self)@) == claim_all(old(self)@, str_views(names@)),
            r is Err ==> r == Result::<(), Error>::Err(Error::Collision) && final(self)@ == old(
                self,
            )@,
    {
        let start = self.used.len();
        let n = names.len();
        assert(str_views(names@).skip(0) =~= str_views(names@));
        for i in 0..n
            invariant
                n == names@.len(),
                start == old(self).used@.len(),
                self.used@.len() == start + i,
                forall|j: int| 0 <= j < start ==> self.used@[j] == old(self).used@[j],
                claim_all(old(self)@, str_views(names@)) == claim_all(
                    self@,
                    str_views(names@).skip(i as int),
                ),
        {
            let ghost pre = self@;
            let ghost rem = str_views(names@).skip(i as int);
            assert(rem[0] == names@[i as int]@);
            if self.contains(&names[i]) {
                self.used.truncate(start);
                assert(self@ =~= old(self)@);
                return Err(Error::Collision);
            }
            self.used.push(names[i].clone());
            assert(self@ =~= pre.push(names@[i as int]@));
            assert(rem.drop_first() =~= str_views(names@).skip(i + 1));
        }
        assert(str_views(names@).skip(n as int) =~= Seq::<Seq<char>>::empty());
        Ok(())
    }
}

} // verus!
