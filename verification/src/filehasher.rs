use vstd::prelude::*;
use std::hash::{DefaultHasher, Hasher};
use vstd::std_specs::hash::DefaultHasherAdditionalSpecFns;

verus! {

/// * File hasher to calculate the hash for a section of a file, the hash is `u64` size.
/// * Its state is the sequence of byte runs written to it so far.
#[derive(Debug)]
pub struct FileHasher {
    hasher: DefaultHasher,
}

impl View for FileHasher {
    type V = Seq<Seq<u8>>;

    closed spec fn view(&self) -> Seq<Seq<u8>> {
        self.hasher@
    }
}

impl FileHasher {
    /// A hasher that has been written nothing.
    pub fn new() -> (r: Self)
        ensures
            r@ == Seq::<Seq<u8>>::empty(),
    {
        Self { hasher: DefaultHasher::new() }
    }

    /// * Feeds a run of bytes to the hasher; always takes all of them.
    pub fn write(&mut self, buf: &[u8]) -> (r: usize)
        ensures
            final(self)@ == old(self)@.push(buf@),
            r == buf@.len(),
    {
        self.hasher.write(buf);
        buf.len()
    }

    /// * The hash of everything written so far, in the order written.
    pub fn finish(&self) -> (r: u64)
        ensures
            r == DefaultHasher::spec_finish(self@),
    {
        self.hasher.finish()
    }
}

/// The history of a hasher that held `start` and was then written the runs `writes`, in order,
/// as `write` states it.
pub open spec fn fed(start: Seq<Seq<u8>>, writes: Seq<Seq<u8>>) -> Seq<Seq<u8>>
    decreases writes.len(),
{
    if writes.len() == 0 {
        start
    } else {
        fed(start, writes.drop_last()).push(writes.last())
    }
}

/// A new hasher written some runs of bytes holds exactly those runs, so two new hashers written
/// the same runs hold the same history and give the same hash.
pub proof fn lemma_same_writes_same_hash(writes: Seq<Seq<u8>>)
    ensures
        fed(Seq::empty(), writes) == writes,
        DefaultHasher::spec_finish(fed(Seq::empty(), writes)) == DefaultHasher::spec_finish(writes),
    decreases writes.len(),
{
    if writes.len() > 0 {
        lemma_same_writes_same_hash(writes.drop_last());
        assert(writes.drop_last().push(writes.last()) =~= writes);
    } else {
        assert(writes =~= Seq::<Seq<u8>>::empty());
    }
}

/// Two hashers that hold the same history and are then written the same runs of bytes, any
/// number of them, hold the same history again and give the same hash.
pub proof fn lemma_two_hashers_agree(a: Seq<Seq<u8>>, b: Seq<Seq<u8>>, writes: Seq<Seq<u8>>)
    requires
        a == b,
    ensures
        fed(a, writes) == fed(b, writes),
        DefaultHasher::spec_finish(fed(a, writes)) == DefaultHasher::spec_finish(fed(b, writes)),
{
}

impl Default for FileHasher {
    fn default() -> (r: Self)
        ensures
            r@ == Seq::<Seq<u8>>::empty(),
    {
        Self::new()
    }
}

} // verus!
