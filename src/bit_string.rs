use vstd::prelude::*;

verus! {

/// Width of the word that holds a bit string.
pub const WORD_BITS: usize = 64;

/// An index at or beyond a bit string's capacity.
#[derive(Debug, Clone, Copy, PartialEq, Eq, Structural)]
pub struct BitIndexError {
    pub index: usize,
    pub capacity: usize,
}

/// A fixed-width bit mask: `capacity` meaningful low bits of one word.
#[derive(Debug, Clone, Copy, PartialEq, Eq, Structural)]
pub struct BitString {
    bits: u64,
    capacity: usize,
}

/// Bit `i` of the word `w`.
pub open spec fn bit_of(w: u64, i: u64) -> bool {
    w & (1u64 << i) != 0
}

impl BitString {
    /// The bits a string reports: bit `i` of the word, for `i < capacity`.
    pub open spec fn view_bits(&self) -> Seq<bool> {
        Seq::new(self.spec_capacity() as nat, |i: int| bit_of(self.spec_bits(), i as u64))
    }

    pub closed spec fn spec_bits(&self) -> u64 {
        self.bits
    }

    pub closed spec fn spec_capacity(&self) -> usize {
        self.capacity
    }

    pub fn new(bits: u64, capacity: usize) -> (r: Self)
        requires
            capacity <= WORD_BITS,
        ensures
            r.spec_bits() == bits,
            r.spec_capacity() == capacity,
    {
        BitString { bits, capacity }
    }

    pub fn bits(&self) -> (r: u64)
        ensures
            r == self.spec_bits(),
    {
        self.bits
    }

    pub fn capacity(&self) -> (r: usize)
        ensures
            r == self.spec_capacity(),
    {
        self.capacity
    }

    /// Reads bit `index`; an index at or beyond the capacity is an error.
    pub fn get(&self, index: usize) -> (r: Result<bool, BitIndexError>)
        requires
            self.spec_capacity() <= WORD_BITS,
        ensures
            index < self.spec_capacity() ==> r == Ok::<bool, BitIndexError>(bit_of(self.spec_bits(), index as u64)),
            index >= self.spec_capacity() ==> r == Err::<bool, BitIndexError>(
                BitIndexError { index, capacity: self.spec_capacity() },
            ),
    {
        if index >= self.capacity {
            return Err(BitIndexError { index, capacity: self.capacity });
        }
        Ok(self.bits & (1u64 << (index as u64)) != 0)
    }

    /// Sets bit `index` to one; an index at or beyond the capacity is an
    /// error and leaves the string unchanged.
    pub fn set(&mut self, index: usize) -> (r: Result<(), BitIndexError>)
        requires
            old(self).spec_capacity() <= WORD_BITS,
        ensures
            final(self).spec_capacity() == old(self).spec_capacity(),
            index < old(self).spec_capacity() ==> r is Ok && final(self).spec_bits() == (old(
                self,
            ).spec_bits() | (1u64 << (index as u64))),
            index >= old(self).spec_capacity() ==> r == Err::<(), BitIndexError>(
                BitIndexError { index, capacity: old(self).spec_capacity() },
            ) && *final(self) == *old(self),
    {
        if index >= self.capacity {
            return Err(BitIndexError { index, capacity: self.capacity });
        }
        self.bits = self.bits | (1u64 << (index as u64));
        Ok(())
    }

    /// Clears bit `index`, by complementing the word, setting the bit and
    /// complementing back; an index at or beyond the capacity is an error
    /// and leaves the string unchanged.
    pub fn unset(&mut self, index: usize) -> (r: Result<(), BitIndexError>)
        requires
            old(self).spec_capacity() <= WORD_BITS,
        ensures
            final(self).spec_capacity() == old(self).spec_capacity(),
            index < old(self).spec_capacity() ==> r is Ok && final(self).spec_bits() == (old(
                self,
            ).spec_bits() & !(1u64 << (index as u64))),
            index >= old(self).spec_capacity() ==> r == Err::<(), BitIndexError>(
                BitIndexError { index, capacity: old(self).spec_capacity() },
            ) && *final(self) == *old(self),
    {
        if index >= self.capacity {
            return Err(BitIndexError { index, capacity: self.capacity });
        }
        let old_bits = self.bits;
        self.bits = !self.bits;
        self.bits = self.bits | (1u64 << (index as u64));
        self.bits = !self.bits;
        assert(!(!old_bits | (1u64 << (index as u64))) == old_bits & !(1u64 << (index as u64))) by (bit_vector);
        Ok(())
    }

    /// The bits `0 .. capacity`, in order.
    pub fn to_bools(&self) -> (r: Vec<bool>)
        requires
            self.spec_capacity() <= WORD_BITS,
        ensures
            r@ == self.view_bits(),
    {
        let mut out: Vec<bool> = Vec::new();
        let mut i: usize = 0;
        while i < self.capacity
            invariant
                i <= self.capacity,
                self.capacity <= WORD_BITS,
                out@ == self.view_bits().subrange(0, i as int),
            decreases self.capacity - i,
        {
            out.push(self.bits & (1u64 << (i as u64)) != 0);
            i = i + 1;
            assert(out@ =~= self.view_bits().subrange(0, i as int));
        }
        assert(out@ =~= self.view_bits());
        out
    }
}

/// Setting a bit makes it read one, leaves every other bit as it was, and
/// setting it again changes nothing.
pub proof fn lemma_set_then_get(w: u64, i: u64, j: u64)
    requires
        i < 64,
        j < 64,
    ensures
        bit_of(w | (1u64 << i), i),
        i != j ==> bit_of(w | (1u64 << i), j) == bit_of(w, j),
        (w | (1u64 << i)) | (1u64 << i) == w | (1u64 << i),
{
    assert((w | (1u64 << i)) & (1u64 << i) != 0) by (bit_vector)
        requires
            i < 64,
    ;
    assert(i != j ==> ((w | (1u64 << i)) & (1u64 << j) != 0) == (w & (1u64 << j) != 0))
        by (bit_vector)
        requires
            i < 64,
            j < 64,
    ;
    assert((w | (1u64 << i)) | (1u64 << i) == w | (1u64 << i)) by (bit_vector);
}

/// Clearing a bit makes it read zero, leaves every other bit as it was, and
/// clearing it again changes nothing.
pub proof fn lemma_unset_then_get(w: u64, i: u64, j: u64)
    requires
        i < 64,
        j < 64,
    ensures
        !bit_of(w & !(1u64 << i), i),
        i != j ==> bit_of(w & !(1u64 << i), j) == bit_of(w, j),
        (w & !(1u64 << i)) & !(1u64 << i) == w & !(1u64 << i),
{
    assert((w & !(1u64 << i)) & (1u64 << i) == 0) by (bit_vector)
        requires
            i < 64,
    ;
    assert(i != j ==> ((w & !(1u64 << i)) & (1u64 << j) != 0) == (w & (1u64 << j) != 0))
        by (bit_vector)
        requires
            i < 64,
            j < 64,
    ;
    assert((w & !(1u64 << i)) & !(1u64 << i) == w & !(1u64 << i)) by (bit_vector);
}

} // verus!
