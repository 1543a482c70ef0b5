//! The ids that a server of fixed capacity has left to give to its clients.

use vstd::prelude::*;
use vstd::set_lib::{lemma_int_range, lemma_len_subset, set_int_range};

verus! {

/// A stack of the ids that are free, out of the ids below a capacity. No id
/// is in it twice.
pub struct IdPool {
    cap: usize,
    elems: Vec<usize>,
}

/// No value occurs twice in `ids`.
pub open spec fn distinct(ids: Seq<usize>) -> bool {
    forall|i: int, j: int| 0 <= i < j < ids.len() ==> ids[i] != ids[j]
}

impl IdPool {
    #[verifier::type_invariant]
    spec fn well_formed(self) -> bool {
        &&& self.elems@.len() <= self.cap
        &&& forall|i: int| 0 <= i < self.elems@.len() ==> #[trigger] self.elems@[i] < self.cap
        &&& distinct(self.elems@)
    }

    /// The free ids, the one that is handed out next last.
    pub closed spec fn free(&self) -> Seq<usize> {
        self.elems@
    }

    /// The number of ids that the pool was made for.
    pub closed spec fn capacity(&self) -> nat {
        self.cap as nat
    }

    /// A pool in which all ids below `capacity` are free; the smallest is handed
    /// out first.
    pub fn new(capacity: usize) -> (pool: IdPool)
        ensures
            pool.capacity() == capacity,
            pool.free() == Seq::new(capacity as nat, |i: int| (capacity - 1 - i) as usize),
    {
        let mut elems: Vec<usize> = Vec::new();
        while elems.len() < capacity
            invariant
                elems@.len() <= capacity,
                elems@ == Seq::new(elems@.len(), |i: int| (capacity - 1 - i) as usize),
            decreases capacity - elems@.len(),
        {
            elems.push(capacity - elems.len() - 1);
            assert(elems@ =~= Seq::new(elems@.len(), |i: int| (capacity - 1 - i) as usize));
        }
        IdPool { cap: capacity, elems }
    }

    /// Whether every id is handed out.
    pub fn is_full(&self) -> (full: bool)
        ensures
            full == (self.free().len() == 0),
    {
        self.elems.len() == 0
    }

    /// Takes back an id that was handed out: an id below the capacity that is
    /// not free. It is the next to be handed out.
    pub fn push(&mut self, id: usize)
        requires
            id < old(self).capacity(),
            !old(self).free().contains(id),
        ensures
            final(self).free() == old(self).free().push(id),
            final(self).capacity() == old(self).capacity(),
    {
        proof {
            use_type_invariant(&*self);
        }
        // The ids are taken out for the change and put back after it, so that
        // the pool is whole at every moment.
        let mut elems: Vec<usize> = Vec::new();
        core::mem::swap(&mut self.elems, &mut elems);
        let ghost before = elems@;
        proof {
            lemma_distinct_fill(before, self.cap as nat);
        }
        elems.push(id);
        proof {
            assert forall|i: int, j: int| 0 <= i < j < elems@.len() implies elems@[i]
                != elems@[j] by {
                if j == before.len() {
                    assert(before.contains(before[i]));
                }
            }
        }
        self.elems = elems;
    }

    /// Hands out the id that was freed last. There must be a free id.
    pub fn pop(&mut self) -> (id: usize)
        requires
            old(self).free().len() > 0,
        ensures
            id == old(self).free().last(),
            id < final(self).capacity(),
            final(self).free() == old(self).free().drop_last(),
            final(self).capacity() == old(self).capacity(),
    {
        proof {
            use_type_invariant(&*self);
        }
        let mut elems: Vec<usize> = Vec::new();
        core::mem::swap(&mut self.elems, &mut elems);
        let id = elems.pop().unwrap();
        self.elems = elems;
        id
    }
}

/// Distinct ids below a capacity are at most as many as the capacity; with
/// one id missing among them, they are fewer.
pub proof fn lemma_distinct_fill(ids: Seq<usize>, capacity: nat)
    requires
        distinct(ids),
        forall|i: int| 0 <= i < ids.len() ==> #[trigger] ids[i] < capacity,
    ensures
        ids.len() <= capacity,
        forall|id: usize| id < capacity && !ids.contains(id) ==> ids.len() < capacity,
{
    let numbers = ids.map_values(|id: usize| id as int);
    assert(numbers.no_duplicates()) by {
        assert forall|i: int, j: int|
            0 <= i < numbers.len() && 0 <= j < numbers.len() && i != j implies numbers[i]
            != numbers[j] by {
            if i < j {
                assert(ids[i] != ids[j]);
            } else {
                assert(ids[j] != ids[i]);
            }
        }
    }
    numbers.unique_seq_to_set();
    let all = set_int_range(0, capacity as int);
    lemma_int_range(0, capacity as int);
    assert forall|n: int| numbers.to_set().contains(n) implies all.contains(n) by {
        let i = choose|i: int| 0 <= i < numbers.len() && numbers[i] == n;
        assert(ids[i] < capacity);
    }
    lemma_len_subset(numbers.to_set(), all);
    assert forall|id: usize| id < capacity && !ids.contains(id) implies ids.len() < capacity by {
        let fewer = all.remove(id as int);
        assert forall|n: int| numbers.to_set().contains(n) implies fewer.contains(n) by {
            let i = choose|i: int| 0 <= i < numbers.len() && numbers[i] == n;
            assert(ids[i] < capacity);
            assert(ids.contains(ids[i]));
        }
        lemma_len_subset(numbers.to_set(), fewer);
    }
}

} // verus!
