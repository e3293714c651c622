use vstd::prelude::*;

verus! {

/// Cuts a slice into the runs that lie before each item matching a
/// predicate; a last run that no matching item ends is not returned.
pub struct ChunkWhen<'a, T, F> where F: Fn(&T) -> bool {
    chunk: &'a [T],
    split_when: F,
}

impl<'a, T, F> ChunkWhen<'a, T, F> where F: Fn(&T) -> bool {
    /// Items not cut yet.
    pub closed spec fn rest(&self) -> Seq<T> {
        self.chunk@
    }

    /// The predicate that marks a cut.
    pub closed spec fn predicate(&self) -> F {
        self.split_when
    }

    /// A splitter over `slice` that cuts at each item for which `split_when`
    /// holds.
    pub fn new(slice: &'a [T], split_when: F) -> (r: Self)
        ensures
            r.rest() == slice@,
            r.predicate() == split_when,
    {
        Self { chunk: slice, split_when }
    }

    /// Nothing is known in advance of how many runs remain.
    pub fn size_hint(&self) -> (r: (usize, Option<usize>))
        ensures
            r == (0usize, None::<usize>),
    {
        (0, None)
    }

    /// The run before the next matching item, which is consumed with it; or
    /// `None`, with nothing left, when no item matches.
    pub fn next(&mut self) -> (r: Option<&'a [T]>)
        requires
            forall|x: &T| old(self).predicate().requires((x,)),
        ensures
            final(self).predicate() == old(self).predicate(),
            r is None ==> final(self).rest().len() == 0 && forall|j: int|
                0 <= j < old(self).rest().len() ==> old(self).predicate().ensures(
                    (&old(self).rest()[j],),
                    false,
                ),
            r matches Some(run) ==> {
                let i = run@.len() as int;
                &&& i < old(self).rest().len()
                &&& run@ == old(self).rest().subrange(0, i)
                &&& final(self).rest() == old(self).rest().subrange(i + 1, old(self).rest().len() as int)
                &&& old(self).predicate().ensures((&old(self).rest()[i],), true)
                &&& forall|j: int| 0 <= j < i ==> old(self).predicate().ensures(
                    (&old(self).rest()[j],),
                    false,
                )
            },
    {
        let n = self.chunk.len();
        let mut i: usize = 0;
        assert(self.predicate() == self.split_when);
        assert(forall|x: &T| self.split_when.requires((x,)));
        while i < n
            invariant
                i <= n,
                n == self.chunk@.len(),
                self.chunk == old(self).chunk,
                self.split_when == old(self).split_when,
                forall|x: &T| self.split_when.requires((x,)),
                forall|j: int| 0 <= j < i ==> self.split_when.ensures((&self.chunk@[j],), false),
            decreases n - i,
        {
            let hit = (self.split_when)(&self.chunk[i]);
            if hit {
                let slice = &self.chunk[0..i];
                self.chunk = &self.chunk[i + 1..n];
                return Some(slice);
            }
            i += 1;
        }
        self.chunk = &self.chunk[n..n];
        None
    }
}

} // verus!
