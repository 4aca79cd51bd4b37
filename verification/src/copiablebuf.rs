use vstd::prelude::*;

verus! {

/// Item `i` of an array, to change in place.
fn array_item_mut<T, const N: usize>(buf: &mut [T; N], i: usize) -> (r: &mut T)
    requires
        i < N,
    ensures
        *r == old(buf)@[i as int],
        final(buf)@ == old(buf)@.update(i as int, *final(r)),
    no_unwind
{
    &mut buf[i]
}

/// A small vector that keeps up to `N` items in a fixed-size array, so that it can be `Copy`.
#[derive(Copy, Debug)]
pub struct CopiableBuffer<T: Copy + Default, const N: usize> {
    buf_used: usize,
    buffer: [T; N],
}

impl<T: Copy + Default, const N: usize> Clone for CopiableBuffer<T, N> {
    fn clone(&self) -> (r: Self)
        ensures
            r == *self,
    {
        *self
    }
}

impl<T: Copy + Default, const N: usize> View for CopiableBuffer<T, N> {
    type V = Seq<T>;

    /// The items in use, in order.
    closed spec fn view(&self) -> Seq<T> {
        self.buffer@.take(if self.buf_used <= N { self.buf_used as int } else { N as int })
    }
}

impl<T: Copy + Default, const N: usize> CopiableBuffer<T, N> {
    #[verifier::type_invariant]
    closed spec fn inv(&self) -> bool {
        self.buf_used <= N
    }

    /// The whole backing array: the items in use first, then whatever the other slots hold.
    pub closed spec fn slots(&self) -> Seq<T> {
        self.buffer@
    }

    /// The number of items in use never exceeds the capacity.
    pub broadcast proof fn lemma_view_len(&self)
        ensures
            #[trigger] self@.len() <= N,
    {
    }

    /// There are `N` slots, and the items in use are the first of them.
    pub proof fn lemma_slots(&self)
        ensures
            self.slots().len() == N,
            self@ == self.slots().take(self@.len() as int),
    {
    }

    /// An empty buffer, every slot of which holds the same value (`T::default()`).
    pub fn new() -> (r: Self)
        ensures
            r@ == Seq::<T>::empty(),
            r.slots().len() == N,
            forall|i: int| 0 <= i < N ==> #[trigger] r.slots()[i] == r.slots()[0],
    {
        let buffer = [T::default(); N];
        Self { buf_used: 0, buffer }
    }

    /// The number of items in use.
    pub fn len(&self) -> (r: usize)
        ensures
            r == self@.len(),
    {
        proof { use_type_invariant(self); }
        self.buf_used
    }

    /// Keeps the first `new_len` items, or all of them where there are fewer.
    pub fn truncate(&mut self, new_len: usize)
        ensures
            final(self)@ == old(self)@.take(if new_len < old(self)@.len() { new_len as int } else { old(self)@.len() as int }),
            final(self).slots() == old(self).slots(),
    {
        proof { use_type_invariant(&*self); }
        if new_len < self.buf_used {
            self.buf_used = new_len;
        }
    }

    /// Sets the number of items to `new_len`, at most the capacity: items past the old length are
    /// whatever the backing array holds there.
    pub fn set_len(&mut self, new_len: usize)
        requires
            new_len <= N,
        ensures
            final(self)@ == old(self).slots().take(new_len as int),
            final(self).slots() == old(self).slots(),
    {
        self.buf_used = new_len;
    }

    /// Sets the number of items to `new_len`; new slots are filled with `val`.
    pub fn resize(&mut self, new_len: usize, val: T)
        requires
            new_len <= N,
        ensures
            final(self)@.len() == new_len,
            forall|i: int| 0 <= i < new_len && i < old(self)@.len() ==> final(self)@[i] == old(self)@[i],
            forall|i: int| old(self)@.len() <= i < new_len ==> final(self)@[i] == val,
            final(self).slots().len() == N,
            forall|i: int| 0 <= i < N ==> #[trigger] final(self).slots()[i] == if old(self)@.len() <= i < new_len { val } else { old(self).slots()[i] },
    {
        proof { use_type_invariant(&*self); }
        let mut i = self.buf_used;
        while i < new_len
            invariant
                self.buf_used <= i,
                i <= new_len || i == self.buf_used,
                new_len <= N,
                old(self).buf_used == self.buf_used,
                forall|j: int| 0 <= j < self.buf_used ==> self.buffer@[j] == old(self).buffer@[j],
                forall|j: int| self.buf_used <= j < i ==> self.buffer@[j] == val,
                forall|j: int| 0 <= j < N && !(self.buf_used <= j < i) ==> self.buffer@[j] == old(self).buffer@[j],
            decreases new_len - i,
        {
            self.buffer[i] = val;
            i += 1;
        }
        self.buf_used = new_len;
    }

    /// The last item, to read or to change in place; the buffer must not be empty.
    pub fn last(&mut self) -> (r: &mut T)
        requires
            old(self)@.len() > 0,
        ensures
            *r == old(self)@.last(),
            final(self)@ == old(self)@.update(old(self)@.len() - 1, *final(r)),
            final(self).slots() == old(self).slots().update(old(self)@.len() - 1, *final(r)),
    {
        proof { use_type_invariant(&*self); }
        let i = self.buf_used - 1;
        array_item_mut(&mut self.buffer, i)
    }

    /// Appends an item; the buffer must not be full.
    pub fn push(&mut self, data: T)
        requires
            old(self)@.len() < N,
        ensures
            final(self)@ == old(self)@.push(data),
            final(self).slots() == old(self).slots().update(old(self)@.len() as int, data),
    {
        proof { use_type_invariant(&*self); }
        self.buffer[self.buf_used] = data;
        self.buf_used += 1;
        assert(self@ =~= old(self)@.push(data));
    }

    /// Removes all items.
    pub fn clear(&mut self)
        ensures
            final(self)@ == Seq::<T>::empty(),
            final(self).slots() == old(self).slots(),
    {
        self.buf_used = 0;
    }

    /// The fixed capacity `N`.
    pub fn capacity(&self) -> (r: usize)
        ensures
            r == N,
    {
        N
    }

    pub fn is_full(&self) -> (r: bool)
        ensures
            r == (self@.len() == N),
    {
        self.len() == self.capacity()
    }

    pub fn is_empty(&self) -> (r: bool)
        ensures
            r == (self@.len() == 0),
    {
        self.len() == 0
    }

    /// The whole backing array; its first `len()` items are the buffer's items.
    pub fn get_array(&self) -> (r: &[T; N])
        ensures
            r@ == self.slots(),
            r@.take(self@.len() as int) == self@,
    {
        proof { use_type_invariant(self); }
        &self.buffer
    }

    /// The whole backing array; its first `len()` items are the buffer's items.
    pub fn into_array(self) -> (r: [T; N])
        ensures
            r@ == self.slots(),
            r@.take(self@.len() as int) == self@,
    {
        proof { use_type_invariant(&self); }
        self.buffer
    }

    /// The item at `index`, which must be in use.
    pub fn get(&self, index: usize) -> (r: T)
        requires
            index < self@.len(),
        ensures
            r == self@[index as int],
    {
        proof { use_type_invariant(self); }
        self.buffer[index]
    }

    /// Replaces the item at `index`, which must be in use.
    pub fn set(&mut self, index: usize, val: T)
        requires
            index < old(self)@.len(),
        ensures
            final(self)@ == old(self)@.update(index as int, val),
            final(self).slots() == old(self).slots().update(index as int, val),
    {
        proof { use_type_invariant(&*self); }
        self.buffer[index] = val;
        assert(self@ =~= old(self)@.update(index as int, val));
    }

    /// Builds a buffer holding the items of `items`, which must fit.
    pub fn from_slice(items: &[T]) -> (r: Self)
        requires
            items@.len() <= N,
        ensures
            r@ == items@,
    {
        let mut r = Self::new();
        let mut i: usize = 0;
        while i < items.len()
            invariant
                i <= items@.len() <= N,
                r@ == items@.take(i as int),
            decreases items@.len() - i,
        {
            r.push(items[i]);
            i += 1;
            assert(r@ =~= items@.take(i as int));
        }
        assert(items@.take(i as int) =~= items@);
        r
    }

    /// The items in use, copied into a `Vec`.
    pub fn to_vec(&self) -> (r: Vec<T>)
        ensures
            r@ == self@,
    {
        let mut r: Vec<T> = Vec::new();
        let n = self.len();
        let mut i: usize = 0;
        while i < n
            invariant
                n == self@.len(),
                i <= n,
                r@ == self@.take(i as int),
            decreases n - i,
        {
            r.push(self.get(i));
            i += 1;
            assert(r@ =~= self@.take(i as int));
        }
        assert(self@.take(n as int) =~= self@);
        r
    }

    /// Drops the first `n` items (all of them where there are fewer) and keeps the rest in order.
    pub fn remove_front(&mut self, n: usize)
        ensures
            final(self)@ == old(self)@.skip(if n < old(self)@.len() { n as int } else { old(self)@.len() as int }),
            final(self).slots().len() == N,
            forall|i: int| 0 <= i < N ==> #[trigger] final(self).slots()[i] == if n < old(self)@.len() && i < old(self)@.len() - n {
                old(self).slots()[i + n]
            } else {
                old(self).slots()[i]
            },
    {
        proof { use_type_invariant(&*self); }
        let len = self.buf_used;
        if n >= len {
            self.buf_used = 0;
            assert(self@ =~= old(self)@.skip(len as int));
        } else {
            let ghost old_items = self@;
            let mut i: usize = 0;
            while i < len - n
                invariant
                    n < len == old(self).buf_used <= N,
                    self.buf_used == len,
                    old_items == old(self)@,
                    i <= len - n,
                    forall|j: int| 0 <= j < i ==> self.buffer@[j] == old_items[j + n],
                    forall|j: int| i <= j < N ==> self.buffer@[j] == old(self).buffer@[j],
                decreases len - n - i,
            {
                self.buffer[i] = self.buffer[i + n];
                i += 1;
            }
            self.buf_used = len - n;
            assert(self@ =~= old_items.skip(n as int));
        }
    }

    /// An iterator over the items in use.
    pub fn iter(&self) -> (r: CopiableBufferIter<'_, T, N>)
        ensures
            r.items() == self@,
            r.position() == 0,
    {
        CopiableBufferIter { iter_index: 0, refbuf: self }
    }

    /// An iterator that owns a copy of the items in use.
    pub fn into_iter(self) -> (r: CopiableBufferIntoIter<T, N>)
        ensures
            r.items() == self@,
            r.position() == 0,
    {
        proof { use_type_invariant(&self); }
        CopiableBufferIntoIter { iter_index: 0, buf_used: self.buf_used, buffer: self.buffer }
    }
}

/// A change to a `CopiableBuffer`: `push` of an item, or `clear`.
pub enum BufferOp<T> {
    Push(T),
    Clear,
}

/// The items of a buffer after the changes `ops`, from the items `items`, as `push` and `clear`
/// state them.
pub open spec fn apply_ops<T>(items: Seq<T>, ops: Seq<BufferOp<T>>) -> Seq<T>
    decreases ops.len(),
{
    if ops.len() == 0 {
        items
    } else {
        match ops.last() {
            BufferOp::Push(x) => apply_ops(items, ops.drop_last()).push(x),
            BufferOp::Clear => Seq::empty(),
        }
    }
}

/// The items pushed after the last `clear` of `ops`.
pub open spec fn pushed_since_clear<T>(ops: Seq<BufferOp<T>>) -> Seq<T>
    decreases ops.len(),
{
    if ops.len() == 0 {
        Seq::empty()
    } else {
        match ops.last() {
            BufferOp::Push(x) => pushed_since_clear(ops.drop_last()).push(x),
            BufferOp::Clear => Seq::empty(),
        }
    }
}

/// A new buffer that goes through pushes and clears holds, in order, the items pushed since the
/// last clear, and so as many items as were pushed since then.
pub proof fn lemma_pushes_and_clears<T>(ops: Seq<BufferOp<T>>)
    ensures
        apply_ops(Seq::<T>::empty(), ops) == pushed_since_clear(ops),
        apply_ops(Seq::<T>::empty(), ops).len() == pushed_since_clear(ops).len(),
    decreases ops.len(),
{
    if ops.len() > 0 {
        lemma_pushes_and_clears(ops.drop_last());
    }
}

/// Every push of `ops`, applied to a new buffer, finds fewer than `n` items: the buffer had room,
/// as `push` requires.
pub open spec fn pushes_fit<T>(ops: Seq<BufferOp<T>>, n: nat) -> bool
    decreases ops.len(),
{
    if ops.len() == 0 {
        true
    } else {
        &&& pushes_fit(ops.drop_last(), n)
        &&& ops.last() is Push ==> apply_ops(Seq::<T>::empty(), ops.drop_last()).len() < n
    }
}

/// A new buffer of capacity `n` that goes through pushes, each with room, and clears never holds
/// more than `n` items.
pub proof fn lemma_pushes_stay_within_capacity<T>(ops: Seq<BufferOp<T>>, n: nat)
    requires
        pushes_fit(ops, n),
    ensures
        apply_ops(Seq::<T>::empty(), ops).len() <= n,
    decreases ops.len(),
{
    if ops.len() > 0 {
        lemma_pushes_stay_within_capacity(ops.drop_last(), n);
    }
}

/// Walks the items of a borrowed `CopiableBuffer`.
pub struct CopiableBufferIter<'a, T: Copy + Default, const N: usize> {
    iter_index: usize,
    refbuf: &'a CopiableBuffer<T, N>,
}

impl<'a, T: Copy + Default, const N: usize> CopiableBufferIter<'a, T, N> {
    /// The items walked over.
    pub closed spec fn items(&self) -> Seq<T> {
        self.refbuf@
    }

    /// How many items were handed out so far.
    pub closed spec fn position(&self) -> int {
        self.iter_index as int
    }

    /// The next item, or `None` at the end.
    pub fn next(&mut self) -> (r: Option<&'a T>)
        ensures
            final(self).items() == old(self).items(),
            old(self).position() < old(self).items().len() ==> r == Some(&old(self).items()[old(self).position()])
                && final(self).position() == old(self).position() + 1,
            old(self).position() >= old(self).items().len() ==> r is None
                && final(self).position() == old(self).position(),
    {
        proof { use_type_invariant(self.refbuf); }
        if self.iter_index < self.refbuf.buf_used {
            let r = &self.refbuf.buffer[self.iter_index];
            self.iter_index += 1;
            Some(r)
        } else {
            None
        }
    }
}

/// Walks a copy of the items of a `CopiableBuffer`.
#[derive(Copy)]
pub struct CopiableBufferIntoIter<T: Copy + Default, const N: usize> {
    iter_index: usize,
    buf_used: usize,
    buffer: [T; N],
}

impl<T: Copy + Default, const N: usize> Clone for CopiableBufferIntoIter<T, N> {
    fn clone(&self) -> (r: Self)
        ensures
            r == *self,
    {
        *self
    }
}

impl<T: Copy + Default, const N: usize> CopiableBufferIntoIter<T, N> {
    /// The items walked over.
    pub closed spec fn items(&self) -> Seq<T> {
        self.buffer@.take(if self.buf_used <= N { self.buf_used as int } else { N as int })
    }

    /// How many items were handed out so far.
    pub closed spec fn position(&self) -> int {
        self.iter_index as int
    }

    /// The next item, or `None` at the end.
    pub fn next(&mut self) -> (r: Option<T>)
        ensures
            final(self).items() == old(self).items(),
            old(self).position() < old(self).items().len() ==> r == Some(old(self).items()[old(self).position()])
                && final(self).position() == old(self).position() + 1,
            old(self).position() >= old(self).items().len() ==> r is None
                && final(self).position() == old(self).position(),
    {
        if self.iter_index < self.buf_used && self.iter_index < N {
            let r = self.buffer[self.iter_index];
            self.iter_index += 1;
            Some(r)
        } else {
            None
        }
    }
}


} // verus!
