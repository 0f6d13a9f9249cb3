//! The storage of one track's steps: a `SmallVec` that keeps up to sixteen
//! flags inline, so that a pattern of the usual length lives without a heap
//! allocation. Nothing here is proved: each function states what the
//! `smallvec` or `euclidian_rythms` call in its body does.

use smallvec::SmallVec;
use vstd::prelude::*;

verus! {

/// The longest pattern that a track may hold.
pub const MAX_STEPS: usize = 65536;

/// A buffer of step flags, held in a `SmallVec` with room for sixteen flags
/// before it moves to the heap.
#[verifier::external_body]
pub struct StepBuffer {
    inner: SmallVec<[u8; 16]>,
}

/// The flags that a step buffer holds, first step first.
pub uninterp spec fn buffer_steps(buf: StepBuffer) -> Seq<u8>;

/// The rhythm that `euclidian_rythms::euclidian_rythm` writes into a slice
/// of `steps` flags when asked for `pulses` onsets.
pub uninterp spec fn euclidean_rhythm(steps: nat, pulses: nat) -> Seq<u8>;

/// The number of onsets in a pattern: its flags that equal 1.
pub open spec fn onsets(p: Seq<u8>) -> nat
    decreases p.len(),
{
    if p.len() == 0 {
        0
    } else {
        onsets(p.drop_last()) + if p.last() == 1 {
            1nat
        } else {
            0nat
        }
    }
}

/// What `SmallVec::resize` leaves of `s`: cut to `len` flags, or extended
/// to `len` flags with copies of `value`.
pub open spec fn resized(s: Seq<u8>, len: nat, value: u8) -> Seq<u8> {
    if len <= s.len() {
        s.take(len as int)
    } else {
        s + Seq::new((len - s.len()) as nat, |i: int| value)
    }
}

/// `SmallVec::new`: the new buffer holds nothing.
#[verifier::external_body]
pub(crate) fn buffer_new() -> (buf: StepBuffer)
    ensures
        buffer_steps(buf) == Seq::<u8>::empty(),
{
    StepBuffer { inner: SmallVec::new() }
}

/// `SmallVec::len`: the number of flags held.
#[verifier::external_body]
pub(crate) fn buffer_len(buf: &StepBuffer) -> (n: usize)
    ensures
        n == buffer_steps(*buf).len(),
{
    buf.inner.len()
}

/// `SmallVec::resize`: a shorter length truncates, a longer one appends
/// copies of `value`. The length is kept under `MAX_STEPS`, far from the
/// sizes at which the capacity computation overflows.
#[verifier::external_body]
pub(crate) fn buffer_resize(buf: &mut StepBuffer, len: usize, value: u8)
    requires
        len <= MAX_STEPS,
    ensures
        buffer_steps(*final(buf)) == resized(buffer_steps(*old(buf)), len as nat, value),
{
    buf.inner.resize(len, value)
}

/// Indexing a `SmallVec` through its slice: the flag at `i`. The index is
/// in bounds, so the slice does not panic.
#[verifier::external_body]
pub(crate) fn buffer_get(buf: &StepBuffer, i: usize) -> (flag: u8)
    requires
        i < buffer_steps(*buf).len(),
    ensures
        flag == buffer_steps(*buf)[i as int],
{
    buf.inner[i]
}

/// Assigning through a `SmallVec`'s mutable slice: the flag at `i` becomes
/// `value`, the others stay.
#[verifier::external_body]
pub(crate) fn buffer_set(buf: &mut StepBuffer, i: usize, value: u8)
    requires
        i < buffer_steps(*old(buf)).len(),
    ensures
        buffer_steps(*final(buf)) == buffer_steps(*old(buf)).update(i as int, value),
{
    buf.inner[i] = value;
}

/// `euclidian_rythms::euclidian_rythm` on the whole buffer. The call
/// overwrites the slice it is given and reads nothing of it but its length,
/// so the outcome is a function of the length and of `pulses`. It writes
/// only the flags 0 and 1, and a slice keeps its length. Its division keeps
/// the count of onsets at `pulses` through every level, so the pattern it
/// builds has exactly that many. With as many pulses as steps the first
/// division leaves no remainder, and the pattern is one onset per step. The
/// call divides by `pulses`, and refuses more pulses than steps: both are
/// left out here.
#[verifier::external_body]
pub(crate) fn buffer_fill_euclidean(buf: &mut StepBuffer, pulses: usize)
    requires
        1 <= pulses <= buffer_steps(*old(buf)).len(),
    ensures
        buffer_steps(*final(buf)) == euclidean_rhythm(
            buffer_steps(*old(buf)).len(),
            pulses as nat,
        ),
        buffer_steps(*final(buf)).len() == buffer_steps(*old(buf)).len(),
        onsets(buffer_steps(*final(buf))) == pulses,
        forall|i: int|
            0 <= i < buffer_steps(*final(buf)).len() ==> #[trigger] buffer_steps(*final(buf))[i]
                <= 1,
        pulses == buffer_steps(*old(buf)).len() ==> forall|i: int|
            0 <= i < buffer_steps(*final(buf)).len() ==> #[trigger] buffer_steps(*final(buf))[i]
                == 1,
{
    let _ = euclidian_rythms::euclidian_rythm(buf.inner.as_mut_slice(), pulses);
}

} // verus!
