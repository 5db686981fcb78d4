//! What holds of every pool.
use crate::buffer::{cleared, is_cleared};
use crate::pool::{filed_right, gave, has_room, idle_cells, lemma_best_fit_is_unique, lemma_with, lemma_without, reports, took, PoolState};
use vstd::prelude::*;

verus! {

/// A pool that holds a buffer with room for `len` samples has one that fits best; a pool that
/// holds none gives nothing away.
pub proof fn law_best_fit<T>(state: PoolState<T>, len: usize)
    requires
        state.valid(),
    ensures
        state.best_fit(len) is Some <==> exists|cap: usize| #[trigger] state.free.contains_key(cap) && cap >= len,
        state.best_fit(len) matches Some(cap) ==> {
            &&& state.free.contains_key(cap)
            &&& cap >= len
            &&& state.free[cap].len() > 0
            &&& forall|other: usize| #[trigger] state.free.contains_key(other) && other >= len ==> cap <= other
        },
        state.best_fit(len) is None ==> state.after_take(len) == state,
{
    if exists|cap: usize| #[trigger] state.free.contains_key(cap) && cap >= len {
        let large = choose|cap: usize| #[trigger] state.free.contains_key(cap) && cap >= len;
        lemma_smallest_key(state, len, large);
    }
}

/// Some capacity fits best if one fits at all.
proof fn lemma_smallest_key<T>(state: PoolState<T>, len: usize, cap: usize)
    requires
        state.free.contains_key(cap),
        cap >= len,
    ensures
        exists|best: usize| state.is_best_fit(best, len),
    decreases cap - len,
{
    if !state.is_best_fit(cap, len) {
        let smaller = choose|other: usize| #[trigger] state.free.contains_key(other) && other >= len && other < cap;
        lemma_smallest_key(state, len, smaller);
    }
}

/// Taking a buffer keeps the pool valid, and the pool then holds less by the bytes of that buffer.
pub proof fn law_take<T>(state: PoolState<T>, len: usize)
    requires
        state.valid(),
    ensures
        state.after_take(len).valid(),
        len == 0 ==> state.after_take(len) == state,
        len > 0 ==> (state.best_fit(len) matches Some(cap) ==> state.held_bytes() == state.after_take(
            len,
        ).held_bytes() + cap * vstd::layout::size_of::<T>()),
{
    law_best_fit(state, len);
    if len > 0 {
        if let Some(cap) = state.best_fit(len) {
            lemma_without(state, cap);
        }
    }
}

/// What is taken: of the idle buffers with the smallest room that is enough, the one that came last,
/// and nothing else leaves the pool; where none has enough room, a new one that is allocated for as
/// many samples as are asked for, and nothing leaves the pool; where none are asked for, one without
/// an allocation.
pub proof fn law_taken<T>(before: PoolState<T>, after: PoolState<T>, buf: Vec<T>, len: usize)
    requires
        before.valid(),
        took(before, after, buf, len),
    ensures
        buf@.len() == 0,
        after.valid(),
        after.cap_bytes == before.cap_bytes,
        len == 0 ==> after == before && call_ensures(Vec::<T>::new, (), buf),
        len > 0 && (forall|cap: usize| #[trigger] before.free.contains_key(cap) ==> cap < len) ==> after == before
            && call_ensures(Vec::<T>::with_capacity, (len,), buf),
        forall|cap: usize| #[trigger]
            before.free.contains_key(cap) && 0 < len <= cap && (forall|other: usize| #[trigger]
                before.free.contains_key(other) && other >= len ==> cap <= other) ==> {
                &&& buf == before.free[cap][before.free[cap].len() - 1]
                &&& before.held_bytes() == after.held_bytes() + cap * vstd::layout::size_of::<T>()
                &&& before.free[cap].len() == 1 ==> !after.free.contains_key(cap)
                &&& before.free[cap].len() > 1 ==> after.free.contains_key(cap) && after.free[cap].push(buf)
                    == before.free[cap]
                &&& forall|other: usize| other != cap ==> #[trigger] after.free.contains_key(other)
                    == before.free.contains_key(other)
                &&& forall|other: usize| other != cap && #[trigger] after.free.contains_key(other) ==> after.free[other]
                    == before.free[other]
            },
{
    law_take(before, len);
    law_best_fit(before, len);
    if len > 0 {
        if let Some(cap) = before.best_fit(len) {
            lemma_without(before, cap);
            let last = before.free[cap].len() - 1;
            assert(filed_right(before.free[cap][last], cap));
            assert(before.free[cap].drop_last().push(before.free[cap].last()) =~= before.free[cap]);
            assert forall|best: usize| #[trigger]
                before.free.contains_key(best) && 0 < len <= best && (forall|other: usize| #[trigger]
                    before.free.contains_key(other) && other >= len ==> best <= other) implies best == cap by {
                assert(cap <= best && best <= cap);
            }
        }
    }
}

/// A buffer that was taken has room for as many samples as were asked for, whether it is an idle one
/// or new: it was allocated for that many, or it is what clearing left of a buffer that was reported
/// to have no less room.
pub proof fn law_taken_buffer_has_room<T>(before: PoolState<T>, after: PoolState<T>, buf: Vec<T>, len: usize)
    requires
        before.valid(),
        took(before, after, buf, len),
        len > 0,
    ensures
        buf@.len() == 0,
        has_room(buf, len),
        call_ensures(Vec::<T>::with_capacity, (len,), buf) || exists|given: Vec<T>, cap: usize|
            cap >= len && #[trigger] reports(given, cap) && #[trigger] call_ensures(cleared::<T>, (given,), buf),
        after.valid(),
{
    law_take(before, len);
    law_best_fit(before, len);
    if let Some(cap) = before.best_fit(len) {
        let last = before.bucket(cap).len() - 1;
        assert(filed_right(before.free[cap][last], cap));
        let given = choose|given: Vec<T>| #[trigger] is_cleared(given, buf) && reports(given, cap);
        assert(reports(given, cap) && call_ensures(cleared::<T>, (given,), buf));
    }
}

/// Giving a buffer back keeps the pool valid: it never holds more than its limit. If the pool keeps
/// the buffer, it holds the buffer's bytes more, and the other buffers are as before; if not, it is
/// as before.
pub proof fn law_give<T>(before: PoolState<T>, after: PoolState<T>, given: Vec<T>, cap: usize)
    requires
        before.valid(),
        reports(given, cap),
        gave(before, after, given, cap),
    ensures
        after.valid(),
        after.held_bytes() <= after.cap_bytes,
        after.cap_bytes == before.cap_bytes,
        ({
            let bytes = cap * vstd::layout::size_of::<T>();
            if cap > 0 && before.held_bytes() + bytes <= before.cap_bytes {
                let kept = after.free[cap][after.free[cap].len() - 1];
                &&& call_ensures(cleared::<T>, (given,), kept)
                &&& after.free.contains_key(cap)
                &&& before.free.contains_key(cap) ==> after.free[cap] == before.free[cap].push(kept)
                &&& !before.free.contains_key(cap) ==> after.free[cap] == seq![kept]
                &&& after.held_bytes() == before.held_bytes() + bytes
                &&& forall|other: usize| other != cap ==> #[trigger] after.free.contains_key(other)
                    == before.free.contains_key(other)
                &&& forall|other: usize| other != cap && #[trigger] after.free.contains_key(other) ==> after.free[other]
                    == before.free[other]
            } else {
                after == before
            }
        }),
{
    if cap > 0 && before.held_bytes() + cap * vstd::layout::size_of::<T>() <= before.cap_bytes {
        let kept = after.bucket(cap).last();
        assert(filed_right(kept, cap));
        lemma_with(before, cap, kept);
    }
}

/// Whatever its capacity is, a buffer with samples in it is kept by a pool that has room for the
/// largest buffer there can be.
pub proof fn law_roomy_pool_keeps<T>(before: PoolState<T>, after: PoolState<T>, given: Vec<T>, cap: usize)
    requires
        gave(before, after, given, cap),
        given@.len() > 0,
        cap >= given@.len(),
        cap * vstd::layout::size_of::<T>() <= isize::MAX,
        before.held_bytes() + isize::MAX <= before.cap_bytes,
    ensures
        after.free.contains_key(cap),
        call_ensures(cleared::<T>, (given,), after.free[cap][after.free[cap].len() - 1]),
        after == before.with(cap, after.bucket(cap).last()),
{
}

/// A buffer that was given back is the one that is taken next, if the pool kept it and no other
/// fits better; and the pool is then as it was before both.
pub proof fn law_give_then_take<T>(
    before: PoolState<T>,
    between: PoolState<T>,
    after: PoolState<T>,
    given: Vec<T>,
    cap: usize,
    taken: Vec<T>,
    len: usize,
)
    requires
        before.valid(),
        gave(before, between, given, cap),
        before.held_bytes() + cap * vstd::layout::size_of::<T>() <= before.cap_bytes,
        took(between, after, taken, len),
        0 < len <= cap,
        forall|other: usize| #[trigger] before.free.contains_key(other) && other >= len ==> cap <= other,
    ensures
        call_ensures(cleared::<T>, (given,), taken),
        taken@.len() == 0,
        after == before,
{
    assert(between.is_best_fit(cap, len));
    lemma_best_fit_is_unique(between, cap, len);
    let kept = between.bucket(cap).last();
    assert(before.bucket(cap).push(kept).drop_last() =~= before.bucket(cap));
    assert(between.without(cap).free =~= before.free);
}

/// Asked for all of its capacity, a buffer that was given back is the one that is taken next,
/// whatever else the pool holds.
pub proof fn law_take_undoes_give<T>(
    before: PoolState<T>,
    between: PoolState<T>,
    after: PoolState<T>,
    given: Vec<T>,
    cap: usize,
    taken: Vec<T>,
)
    requires
        before.valid(),
        cap > 0,
        gave(before, between, given, cap),
        before.held_bytes() + cap * vstd::layout::size_of::<T>() <= before.cap_bytes,
        took(between, after, taken, cap),
    ensures
        call_ensures(cleared::<T>, (given,), taken),
        taken@.len() == 0,
        after == before,
{
    law_give_then_take(before, between, after, given, cap, taken, cap);
}

/// Two buffers of the same capacity that were given back are both taken again, the last one first.
pub proof fn law_equal_buffers_are_all_kept<T>(
    before: PoolState<T>,
    one: PoolState<T>,
    two: PoolState<T>,
    left: PoolState<T>,
    after: PoolState<T>,
    first: Vec<T>,
    second: Vec<T>,
    cap: usize,
    a: Vec<T>,
    b: Vec<T>,
)
    requires
        before.valid(),
        reports(first, cap),
        reports(second, cap),
        cap > 0,
        before.held_bytes() + 2 * (cap * vstd::layout::size_of::<T>()) <= before.cap_bytes,
        gave(before, one, first, cap),
        gave(one, two, second, cap),
        took(two, left, a, cap),
        took(left, after, b, cap),
    ensures
        one.held_bytes() == before.held_bytes() + cap * vstd::layout::size_of::<T>(),
        two.held_bytes() == before.held_bytes() + 2 * (cap * vstd::layout::size_of::<T>()),
        left == one,
        after == before,
        call_ensures(cleared::<T>, (second,), a),
        call_ensures(cleared::<T>, (first,), b),
{
    assert(cap * vstd::layout::size_of::<T>() >= 0) by (nonlinear_arith);
    law_give(before, one, first, cap);
    law_give(one, two, second, cap);
    law_take_undoes_give(one, two, left, second, cap, a);
    law_take_undoes_give(before, one, after, first, cap, b);
}

/// A new pool holds nothing and may hold as many bytes as it was asked to.
pub proof fn law_new_pool<T>(cap_bytes: nat)
    ensures
        ({
            let state = PoolState::<T>::empty(cap_bytes);
            &&& state.valid()
            &&& state.cap_bytes == cap_bytes
            &&& state.held_bytes() == 0
            &&& forall|cap: usize| !#[trigger] state.free.contains_key(cap)
        }),
{
    let state = PoolState::<T>::empty(cap_bytes);
    assert(state.free =~= Map::empty());
    assert(idle_cells(state.free) == 0);
}

/// A new pool keeps the first buffer that is given to it if the buffer has room and is no larger than
/// the pool's limit, and hands it out again; and it keeps no buffer that is larger.
pub proof fn law_new_pool_keeps_to_its_limit<T>(
    cap_bytes: nat,
    after: PoolState<T>,
    given: Vec<T>,
    cap: usize,
    end: PoolState<T>,
    taken: Vec<T>,
    len: usize,
)
    requires
        cap > 0,
        reports(given, cap),
        gave(PoolState::<T>::empty(cap_bytes), after, given, cap),
        0 < len <= cap,
        took(after, end, taken, len),
    ensures
        cap * vstd::layout::size_of::<T>() <= cap_bytes ==> {
            &&& after.held_bytes() == cap * vstd::layout::size_of::<T>()
            &&& call_ensures(cleared::<T>, (given,), taken)
            &&& end.held_bytes() == 0
        },
        cap * vstd::layout::size_of::<T>() > cap_bytes ==> after.held_bytes() == 0 && call_ensures(
            Vec::<T>::with_capacity,
            (len,),
            taken,
        ),
{
    let state = PoolState::<T>::empty(cap_bytes);
    law_new_pool::<T>(cap_bytes);
    law_give(state, after, given, cap);
    if cap * vstd::layout::size_of::<T>() <= cap_bytes {
        law_give_then_take(state, after, end, given, cap, taken, len);
    } else {
        law_taken(after, end, taken, len);
    }
}

} // verus!
