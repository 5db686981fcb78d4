//! Reuse of buffers.
//!
//! Comparing images takes many large buffers for a short time each. A [`DssimPool`] keeps the
//! ones that are done with and hands them out again, so that they are not allocated anew for
//! every pair of images. It works with whatever allocator a program uses.
use crate::buffer::{call0, call1, cleared, is_cleared};
use std::collections::BTreeMap;
use vstd::prelude::*;

verus! {

/// What a pool holds: for each capacity the idle buffers of that capacity, the last one first to
/// go, and how many bytes it may hold.
#[verifier::reject_recursive_types(T)]
pub struct PoolState<T> {
    pub free: Map<usize, Seq<Vec<T>>>,
    pub cap_bytes: nat,
}

/// The number of cells in all idle buffers.
pub open spec fn idle_cells<T>(free: Map<usize, Seq<Vec<T>>>) -> nat
    decreases free.dom().len(),
{
    if free.dom().finite() && free.dom().len() > 0 {
        let cap = free.dom().choose();
        cap as nat * free[cap].len() + idle_cells(free.remove(cap))
    } else {
        0
    }
}

impl<T> PoolState<T> {
    /// A pool without buffers.
    pub open spec fn empty(cap_bytes: nat) -> Self {
        PoolState { free: Map::empty(), cap_bytes }
    }

    /// The number of bytes in all idle buffers.
    pub open spec fn held_bytes(self) -> nat {
        idle_cells(self.free) * vstd::layout::size_of::<T>()
    }

    /// The idle buffers of one capacity.
    pub open spec fn bucket(self, cap: usize) -> Seq<Vec<T>> {
        if self.free.contains_key(cap) {
            self.free[cap]
        } else {
            Seq::empty()
        }
    }

    /// `cap` is the smallest capacity of an idle buffer that has room for `len` samples.
    pub open spec fn is_best_fit(self, cap: usize, len: usize) -> bool {
        &&& self.free.contains_key(cap)
        &&& cap >= len
        &&& forall|other: usize| #[trigger] self.free.contains_key(other) && other >= len ==> cap <= other
    }

    /// The smallest capacity of an idle buffer that has room for `len` samples.
    pub open spec fn best_fit(self, len: usize) -> Option<usize> {
        if exists|cap: usize| self.is_best_fit(cap, len) {
            Some(choose|cap: usize| self.is_best_fit(cap, len))
        } else {
            None
        }
    }

    /// The pool without the buffer of capacity `cap` that came last.
    pub open spec fn without(self, cap: usize) -> Self {
        let rest = self.bucket(cap).drop_last();
        PoolState {
            free: if rest.len() == 0 {
                self.free.remove(cap)
            } else {
                self.free.insert(cap, rest)
            },
            cap_bytes: self.cap_bytes,
        }
    }

    /// The pool with one more buffer of capacity `cap`.
    pub open spec fn with(self, cap: usize, buf: Vec<T>) -> Self {
        PoolState {
            free: self.free.insert(cap, self.bucket(cap).push(buf)),
            cap_bytes: self.cap_bytes,
        }
    }

    /// The pool after a buffer for `len` samples was taken.
    pub open spec fn after_take(self, len: usize) -> Self {
        match self.best_fit(len) {
            Some(cap) if len > 0 => self.without(cap),
            _ => self,
        }
    }

    /// There is no empty list of buffers and no buffer without cells; every buffer is what was left
    /// of one that was given back, filed under the capacity of that one; and all of them together
    /// are not over the limit.
    pub open spec fn valid(self) -> bool {
        &&& self.free.dom().finite()
        &&& forall|cap: usize| #[trigger] self.free.contains_key(cap) ==> cap > 0 && self.free[cap].len() > 0
        &&& forall|cap: usize, i: int|
            self.free.contains_key(cap) && 0 <= i < self.free[cap].len() ==> filed_right(#[trigger] self.free[cap][i], cap)
        &&& self.held_bytes() <= self.cap_bytes
    }
}

/// `Vec::capacity` can report that a buffer has room for `cap` samples.
pub closed spec fn reports<T>(buf: Vec<T>, cap: usize) -> bool {
    call_ensures(capacity_of::<T>, (&buf,), cap)
}

/// A buffer is what clearing one of capacity `cap` left.
pub open spec fn filed_right<T>(buf: Vec<T>, cap: usize) -> bool {
    exists|given: Vec<T>| #[trigger] is_cleared(given, buf) && reports(given, cap)
}

/// A buffer has room for `len` samples: it was allocated for that many, or is what was left of one
/// whose capacity is no less. Clearing a `Vec` keeps its allocation; the number that
/// `Vec::capacity` reports of the buffer itself is left unsaid.
pub open spec fn has_room<T>(buf: Vec<T>, len: usize) -> bool {
    ||| call_ensures(Vec::<T>::with_capacity, (len,), buf)
    ||| exists|cap: usize| cap >= len && #[trigger] filed_right(buf, cap)
}

/// A buffer for `len` samples was taken: the idle one that fits best, or a new one where none is
/// large enough, or one that needs no allocation where no room is asked for.
pub open spec fn took<T>(before: PoolState<T>, after: PoolState<T>, buf: Vec<T>, len: usize) -> bool {
    &&& after == before.after_take(len)
    &&& buf@.len() == 0
    &&& if len == 0 {
        call_ensures(Vec::<T>::new, (), buf)
    } else {
        match before.best_fit(len) {
            Some(cap) => buf == before.bucket(cap).last(),
            None => call_ensures(Vec::<T>::with_capacity, (len,), buf),
        }
    }
}

/// A buffer of capacity `cap` was given back: it is kept, without its samples, if it has any room
/// and if the pool does not hold too much then.
pub open spec fn gave<T>(before: PoolState<T>, after: PoolState<T>, given: Vec<T>, cap: usize) -> bool {
    if cap == 0 || before.held_bytes() + cap * vstd::layout::size_of::<T>() > before.cap_bytes {
        after == before
    } else {
        let kept = after.bucket(cap).last();
        is_cleared(given, kept) && after == before.with(cap, kept)
    }
}

/// No two capacities are the best fit.
pub proof fn lemma_best_fit_is_unique<T>(state: PoolState<T>, cap: usize, len: usize)
    requires
        state.is_best_fit(cap, len),
    ensures
        state.best_fit(len) == Some(cap),
{
    let other = choose|other: usize| state.is_best_fit(other, len);
    assert(state.is_best_fit(other, len));
    assert(cap <= other && other <= cap);
}

/// A pool of buffers of samples.
pub struct DssimPool<T> {
    free: BTreeMap<usize, Vec<Vec<T>>>,
    held_bytes: usize,
    /// How many bytes of idle buffers to keep at most.
    cap_bytes: usize,
}

impl<T> View for DssimPool<T> {
    type V = PoolState<T>;

    closed spec fn view(&self) -> PoolState<T> {
        PoolState {
            free: self.free@.map_values(|bucket: Vec<Vec<T>>| bucket@),
            cap_bytes: self.cap_bytes as nat,
        }
    }
}

impl<T> DssimPool<T> {
    /// The pool's state is valid, and its count of bytes is right.
    pub closed spec fn wf(&self) -> bool {
        &&& self@.valid()
        &&& self.held_bytes == self@.held_bytes()
    }

    /// A pool that keeps up to 1 GiB of idle buffers.
    #[must_use]
    pub fn new() -> (pool: Self)
        ensures
            pool.wf(),
            pool@ == PoolState::<T>::empty(0x4000_0000),
            pool@.cap_bytes == 0x4000_0000,
            pool@.free == Map::<usize, Seq<Vec<T>>>::empty(),
            pool@.held_bytes() == 0,
    {
        Self::with_capacity_bytes(0x4000_0000)
    }

    /// A pool that keeps up to `cap_bytes` of idle buffers. Buffers beyond that are freed when
    /// they are given back.
    #[must_use]
    pub fn with_capacity_bytes(cap_bytes: usize) -> (pool: Self)
        ensures
            pool.wf(),
            pool@ == PoolState::<T>::empty(cap_bytes as nat),
            pool@.cap_bytes == cap_bytes,
            pool@.free == Map::<usize, Seq<Vec<T>>>::empty(),
            pool@.held_bytes() == 0,
    {
        let pool = DssimPool { free: BTreeMap::new(), held_bytes: 0, cap_bytes };
        proof {
            assert(pool@.free =~= Map::empty());
            assert(idle_cells(pool@.free) == 0);
        }
        pool
    }

    /// An empty buffer with room for `len` samples: the idle one that fits best, or a new one
    /// where none is large enough.
    pub fn take(&mut self, len: usize) -> (buf: Vec<T>)
        requires
            old(self).wf(),
            len * vstd::layout::size_of::<T>() <= isize::MAX,
        ensures
            final(self).wf(),
            took(old(self)@, final(self)@, buf, len),
            len > 0 ==> has_room(buf, len),
    {
        if len == 0 {
            return call0(Vec::<T>::new);
        }
        match self.smallest_fit(len) {
            Some(cap) => {
                let ghost before = self@;
                let mut bucket = self.free.remove(&cap).unwrap();
                let buf = bucket.pop().unwrap();
                proof {
                    lemma_without(before, cap);
                }
                if !bucket.is_empty() {
                    self.free.insert(cap, bucket);
                }
                self.held_bytes = self.held_bytes - cap * core::mem::size_of::<T>();
                proof {
                    assert(self@.free =~= before.without(cap).free);
                }
                buf
            },
            None => call1(Vec::<T>::with_capacity, len),
        }
    }

    /// Gives a buffer back. What it holds is discarded; the buffer itself is kept unless the
    /// pool would then hold too much.
    pub fn give(&mut self, buf: Vec<T>)
        requires
            old(self).wf(),
        ensures
            final(self).wf(),
            exists|cap: usize|
                reports(buf, cap) && cap >= buf@.len() && cap * vstd::layout::size_of::<T>() <= isize::MAX
                    && #[trigger] gave(old(self)@, final(self)@, buf, cap),
    {
        let cap: usize = capacity(&buf);
        self.give_sized(buf, cap);
    }

    /// Gives back a buffer whose capacity is `cap`, as [`capacity`] reports it. What it holds is
    /// discarded; the buffer itself is kept unless the pool would then hold too much.
    pub fn give_sized(&mut self, buf: Vec<T>, cap: usize)
        requires
            old(self).wf(),
            reports(buf, cap),
        ensures
            final(self).wf(),
            gave(old(self)@, final(self)@, buf, cap),
    {
        if cap == 0 {
            return;
        }
        let ghost given = buf;
        let buf = call1(cleared::<T>, buf);
        let bytes: usize = cap * core::mem::size_of::<T>();
        let fits: bool = match self.held_bytes.checked_add(bytes) {
            Some(held) => held <= self.cap_bytes,
            None => false,
        };
        if !fits {
            return;
        }
        let ghost before = self@;
        proof {
            assert(is_cleared(given, buf));
            lemma_with(before, cap, buf);
        }
        let mut bucket = match self.free.remove(&cap) {
            Some(bucket) => bucket,
            None => Vec::new(),
        };
        let ghost kept = bucket@;
        assert(kept =~= before.bucket(cap));
        bucket.push(buf);
        self.free.insert(cap, bucket);
        self.held_bytes = self.held_bytes + bytes;
        assert(self@.free =~= before.with(cap, buf).free);
        assert(self@.bucket(cap).last() == buf);
    }

    /// How many bytes of idle buffers the pool holds.
    pub fn held_bytes(&self) -> (bytes: usize)
        requires
            self.wf(),
        ensures
            bytes == self@.held_bytes(),
    {
        self.held_bytes
    }

    /// The smallest capacity of an idle buffer that has room for `len` samples.
    fn smallest_fit(&self, len: usize) -> (fit: Option<usize>)
        requires
            self.wf(),
        ensures
            fit == self@.best_fit(len),
    {
        broadcast use vstd::std_specs::btree::group_btree_axioms;
        for entry in it: self.free.iter()
            invariant
                forall|i: int| 0 <= i < it.index() ==> *(#[trigger] it.seq()[i]).0 < len,
                vstd::std_specs::btree::increasing_seq(it.seq().map_values(|kv: (&usize, &Vec<Vec<T>>)| *kv.0)),
        {
            let cap: usize = *entry.0;
            if cap >= len {
                proof {
                    let keys = it.seq().map_values(|kv: (&usize, &Vec<Vec<T>>)| *kv.0);
                    assert(keys[it.index()] == cap);
                    assert forall|other: usize| #[trigger] self@.free.contains_key(other) && other >= len implies cap <= other by {
                        assert(self.free@.contains_key(other));
                        assert(it.seq().contains((&other, &self.free@[other])));
                        let i = choose|i: int| 0 <= i < it.seq().len() && it.seq()[i] == (&other, &self.free@[other]);
                        assert(keys[i] == other);
                        if it.index() < i {
                            assert(vstd::std_specs::cmp::OrdSpec::cmp_spec(&keys[it.index()], &keys[i]) is Less);
                        }
                    }
                    assert(self@.free.contains_key(cap));
                    lemma_best_fit_is_unique(self@, cap, len);
                }
                return Some(cap);
            }
        }
        None
    }
}

/// The pool never holds more bytes than it may, and its idle buffers are empty and have room.
pub proof fn law_pool_is_valid<T>(pool: DssimPool<T>)
    requires
        pool.wf(),
    ensures
        pool@.valid(),
        pool@.held_bytes() <= pool@.cap_bytes,
{
}

impl<T> Default for DssimPool<T> {
    fn default() -> (pool: Self)
        ensures
            pool.wf(),
            pool@ == PoolState::<T>::empty(0x4000_0000),
            pool@.cap_bytes == 0x4000_0000,
            pool@.free == Map::<usize, Seq<Vec<T>>>::empty(),
            pool@.held_bytes() == 0,
    {
        Self::new()
    }
}

/// For how many samples a buffer has room.
pub fn capacity<T>(buf: &Vec<T>) -> (cap: usize)
    ensures
        reports(*buf, cap),
        cap >= buf@.len(),
        cap * vstd::layout::size_of::<T>() <= isize::MAX,
{
    call1(capacity_of::<T>, buf)
}

/// The room that `Vec::capacity` reports: the number of elements that the vector can hold
/// without reallocating. It is never less than the vector's length, and a vector never holds
/// more than `isize::MAX` bytes. What exactly it is depends on the allocator.
#[verifier::external_body]
fn capacity_of<T>(buf: &Vec<T>) -> (cap: usize)
    ensures
        cap >= buf@.len(),
        cap * vstd::layout::size_of::<T>() <= isize::MAX,
{
    buf.capacity()
}

/// What is reported of a buffer's room is what `Vec::capacity` returned for it, and nothing else.
proof fn law_reported<T>(buf: Vec<T>, cap: usize)
    ensures
        reports(buf, cap) <==> call_ensures(capacity_of::<T>, (&buf,), cap),
{
}

/// A buffer's room is at least what it holds, and no larger than any allocation can be.
pub proof fn law_reported_room<T>(buf: Vec<T>, cap: usize)
    requires
        reports(buf, cap),
    ensures
        cap >= buf@.len(),
        cap * vstd::layout::size_of::<T>() <= isize::MAX,
{
}

/// The cells of one capacity count apart from the others.
proof fn lemma_idle_cells_remove<T>(free: Map<usize, Seq<Vec<T>>>, cap: usize)
    requires
        free.dom().finite(),
        free.contains_key(cap),
    ensures
        idle_cells(free) == cap as nat * free[cap].len() + idle_cells(free.remove(cap)),
    decreases free.dom().len(),
{
    let first = free.dom().choose();
    if first != cap {
        lemma_idle_cells_remove(free.remove(first), cap);
        lemma_idle_cells_remove(free.remove(cap), first);
        assert(free.remove(first).remove(cap) =~= free.remove(cap).remove(first));
    }
}

/// The cells of one capacity after its list of buffers changed.
proof fn lemma_idle_cells_insert<T>(free: Map<usize, Seq<Vec<T>>>, cap: usize, bucket: Seq<Vec<T>>)
    requires
        free.dom().finite(),
    ensures
        idle_cells(free.insert(cap, bucket)) == cap as nat * bucket.len() + idle_cells(
            free.remove(cap),
        ),
{
    lemma_idle_cells_remove(free.insert(cap, bucket), cap);
    assert(free.insert(cap, bucket).remove(cap) =~= free.remove(cap));
}

/// Taking a buffer out leaves a valid pool that holds that much less.
pub proof fn lemma_without<T>(state: PoolState<T>, cap: usize)
    requires
        state.valid(),
        state.free.contains_key(cap),
    ensures
        state.without(cap).valid(),
        state.held_bytes() == state.without(cap).held_bytes() + cap * vstd::layout::size_of::<T>(),
{
    let bucket = state.free[cap];
    let rest = bucket.drop_last();
    let size = vstd::layout::size_of::<T>() as int;
    lemma_idle_cells_remove(state.free, cap);
    lemma_idle_cells_insert(state.free, cap, rest);
    assert(cap * bucket.len() == cap * rest.len() + cap) by (nonlinear_arith)
        requires
            bucket.len() == rest.len() + 1,
    ;
    if rest.len() == 0 {
        assert(cap * rest.len() == 0) by (nonlinear_arith)
            requires
                rest.len() == 0,
        ;
    }
    let left = idle_cells(state.without(cap).free) as int;
    assert((left + cap) * size == left * size + cap * size) by (nonlinear_arith);
    assert(cap * size >= 0) by (nonlinear_arith)
        requires
            size >= 0,
    ;
}

/// Putting a buffer in leaves a pool that holds that much more.
pub proof fn lemma_with<T>(state: PoolState<T>, cap: usize, buf: Vec<T>)
    requires
        state.valid(),
        cap > 0,
        filed_right(buf, cap),
        state.held_bytes() + cap * vstd::layout::size_of::<T>() <= state.cap_bytes,
    ensures
        state.with(cap, buf).valid(),
        state.with(cap, buf).held_bytes() == state.held_bytes() + cap * vstd::layout::size_of::<T>(),
{
    let bucket = state.bucket(cap);
    let size = vstd::layout::size_of::<T>() as int;
    lemma_idle_cells_insert(state.free, cap, bucket.push(buf));
    if state.free.contains_key(cap) {
        lemma_idle_cells_remove(state.free, cap);
    } else {
        assert(state.free.remove(cap) =~= state.free);
    }
    assert(cap * bucket.push(buf).len() == cap * bucket.len() + cap) by (nonlinear_arith)
        requires
            bucket.push(buf).len() == bucket.len() + 1,
    ;
    let held = idle_cells(state.free) as int;
    assert((held + cap) * size == held * size + cap * size) by (nonlinear_arith);
}

} // verus!
