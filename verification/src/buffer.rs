//! Buffers that stay the same while what they hold changes.
//!
//! A contract tells one `Vec` from another of the same contents by the calls that it came from: a
//! buffer is what `Vec::clear` or `Vec::append` left of another. Both keep the allocation where it
//! is, `Vec::append` as long as there is room.
use vstd::prelude::*;

verus! {

/// Calls a function, which is then known to have returned the result.
pub(crate) fn call0<R, F: Fn() -> R>(f: F) -> (result: R)
    requires
        f.requires(()),
    ensures
        f.ensures((), result),
{
    f()
}

/// Calls a function, which is then known to have returned the result for the argument.
pub(crate) fn call1<A, R, F: Fn(A) -> R>(f: F, a: A) -> (result: R)
    requires
        f.requires((a,)),
    ensures
        f.ensures((a,), result),
{
    f(a)
}

/// Calls a function, which is then known to have returned the result for the two arguments.
pub(crate) fn call2<A, B, R, F: Fn(A, B) -> R>(f: F, a: A, b: B) -> (result: R)
    requires
        f.requires((a, b)),
    ensures
        f.ensures((a, b), result),
{
    f(a, b)
}

/// Calls a function that changes its argument, and is then known to have made that change.
fn call_mut<A, F: Fn(&mut A)>(f: F, a: &mut A)
    requires
        forall|m: &mut A| #[trigger] f.requires((m,)),
    ensures
        exists|m: &mut A| *m == *old(a) && *final(m) == *final(a) && #[trigger] f.ensures((m,), ()),
{
    f(a)
}

/// Calls a function that changes its two arguments, and is then known to have made that change.
fn call_mut2<A, B, F: Fn(&mut A, &mut B)>(f: F, a: &mut A, b: &mut B)
    requires
        forall|m: &mut A, n: &mut B| #[trigger] f.requires((m, n)),
    ensures
        exists|m: &mut A, n: &mut B|
            *m == *old(a) && *final(m) == *final(a) && *n == *old(b) && *final(n) == *final(b)
                && #[trigger] f.ensures((m, n), ()),
{
    f(a, b)
}

/// The buffer without its samples, as `Vec::clear` leaves it: the allocation is kept.
pub fn cleared<T>(buf: Vec<T>) -> (empty: Vec<T>)
    ensures
        empty@.len() == 0,
        exists|m: &mut Vec<T>|
            *m == buf && *final(m) == empty && #[trigger] call_ensures(Vec::<T>::clear, (m,), ()),
{
    let mut buf = buf;
    call_mut(Vec::<T>::clear, &mut buf);
    buf
}

/// A buffer is what clearing another one left.
pub open spec fn is_cleared<T>(given: Vec<T>, buf: Vec<T>) -> bool {
    call_ensures(cleared::<T>, (given,), buf)
}

/// The buffer with the samples of `tail` behind its own, and `tail` without them, as `Vec::append`
/// leaves both. As long as it has room, the buffer keeps its allocation.
pub fn appended<T>(buf: Vec<T>, tail: Vec<T>) -> (joined: (Vec<T>, Vec<T>))
    ensures
        joined.0@ == buf@ + tail@,
        joined.1@.len() == 0,
        exists|m: &mut Vec<T>, n: &mut Vec<T>|
            *m == buf && *final(m) == joined.0 && *n == tail && *final(n) == joined.1
                && #[trigger] call_ensures(Vec::<T>::append, (m, n), ()),
{
    let mut buf = buf;
    let mut tail = tail;
    call_mut2(Vec::<T>::append, &mut buf, &mut tail);
    (buf, tail)
}

/// A buffer is what appending to another one left.
pub open spec fn is_appended<T>(buf: Vec<T>, longer: Vec<T>) -> bool {
    exists|tail: Vec<T>, rest: Vec<T>| #[trigger] call_ensures(appended::<T>, (buf, tail), (longer, rest))
}

/// The buffer after step `i` is what appending to the one before it left.
pub open spec fn is_step<T>(steps: Seq<Vec<T>>, i: int) -> bool {
    is_appended(steps[i], steps[i + 1])
}

/// A buffer and what it was after each of the times that something was appended to it.
pub open spec fn are_steps<T>(steps: Seq<Vec<T>>, from: Vec<T>, to: Vec<T>, times: nat) -> bool {
    &&& steps.len() == times + 1
    &&& steps[0] == from
    &&& steps[times as int] == to
    &&& forall|i: int| 0 <= i < times ==> #[trigger] is_step(steps, i)
}

/// `to` is what `from` is after something was appended to it that many times.
pub open spec fn grown<T>(from: Vec<T>, to: Vec<T>, times: nat) -> bool {
    exists|steps: Seq<Vec<T>>| #[trigger] are_steps(steps, from, to, times)
}

/// A buffer that was cleared is what `Vec::clear` left of the one that was given.
pub proof fn law_cleared<T>(given: Vec<T>, buf: Vec<T>)
    requires
        is_cleared(given, buf),
    ensures
        buf@.len() == 0,
        exists|m: &mut Vec<T>|
            *m == given && *final(m) == buf && #[trigger] call_ensures(Vec::<T>::clear, (m,), ()),
{
}

/// A buffer that was appended to is what `Vec::append` left of it: it holds the samples that it held,
/// and others behind them.
pub proof fn law_appended<T>(buf: Vec<T>, longer: Vec<T>)
    requires
        is_appended(buf, longer),
    ensures
        buf@.len() <= longer@.len(),
        longer@.subrange(0, buf@.len() as int) == buf@,
        exists|m: &mut Vec<T>, n: &mut Vec<T>|
            *m == buf && *final(m) == longer && #[trigger] call_ensures(Vec::<T>::append, (m, n), ()),
{
    let (tail, rest) = choose|tail: Vec<T>, rest: Vec<T>| #[trigger] call_ensures(
        appended::<T>,
        (buf, tail),
        (longer, rest),
    );
    assert(longer@.subrange(0, buf@.len() as int) =~= buf@);
}

/// A buffer that has grown is another one after that many calls of `Vec::append` on it, one after the
/// other.
pub proof fn law_grown<T>(from: Vec<T>, to: Vec<T>, times: nat)
    requires
        grown(from, to, times),
    ensures
        times == 0 ==> to == from,
        times > 0 ==> exists|mid: Vec<T>| #[trigger] grown(from, mid, (times - 1) as nat) && is_appended(mid, to),
        from@.len() <= to@.len(),
    decreases times,
{
    let steps = choose|steps: Seq<Vec<T>>| #[trigger] are_steps(steps, from, to, times);
    if times > 0 {
        let fewer = steps.drop_last();
        let mid = steps[times - 1];
        assert forall|i: int| 0 <= i < times - 1 implies #[trigger] is_step(fewer, i) by {
            assert(is_step(steps, i));
        }
        assert(are_steps(fewer, from, mid, (times - 1) as nat));
        assert(is_step(steps, times - 1));
        law_grown(from, mid, (times - 1) as nat);
        law_appended(mid, to);
    }
}

/// A buffer that nothing was appended to is itself.
pub proof fn lemma_not_grown<T>(buf: Vec<T>)
    ensures
        grown(buf, buf, 0),
{
    assert(are_steps(seq![buf], buf, buf, 0));
}

/// One more thing is appended.
pub proof fn lemma_grown_once_more<T>(from: Vec<T>, mid: Vec<T>, to: Vec<T>, times: nat)
    requires
        grown(from, mid, times),
        is_appended(mid, to),
    ensures
        grown(from, to, times + 1),
{
    let steps = choose|steps: Seq<Vec<T>>| #[trigger] are_steps(steps, from, mid, times);
    let longer = steps.push(to);
    assert forall|i: int| 0 <= i < times + 1 implies #[trigger] is_step(longer, i) by {
        if i < times {
            assert(is_step(steps, i));
        }
    }
    assert(are_steps(longer, from, to, times + 1));
}

} // verus!
