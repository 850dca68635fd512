//! What a wait for terminal input leads to.

use vstd::prelude::*;

verus! {

/// The outcome of waiting, with `pselect`, for the terminal to be readable.
#[derive(Debug, Clone, Copy, PartialEq, Eq, Structural)]
pub enum Wait {
    /// A signal interrupted the wait: hand the caller the signal buffer.
    Signal,
    /// The wait failed for another reason.
    Failed,
    /// The terminal is readable: read up to four bytes.
    Ready,
    /// Nothing to read yet: wait again.
    Again,
}

/// Decides what a wait led to from what `pselect` returned, whether the
/// error was an interruption by a signal, and whether the terminal's
/// descriptor is in the ready set.
pub fn wait_outcome(ret: i32, interrupted: bool, ready: bool) -> (r: Wait)
    ensures
        ret < 0 && interrupted ==> r == Wait::Signal,
        ret < 0 && !interrupted ==> r == Wait::Failed,
        ret >= 0 && ready ==> r == Wait::Ready,
        ret >= 0 && !ready ==> r == Wait::Again,
{
    if ret < 0 {
        if interrupted {
            Wait::Signal
        } else {
            Wait::Failed
        }
    } else if ready {
        Wait::Ready
    } else {
        Wait::Again
    }
}

/// The buffer handed on after a read: the bytes read (at most four) followed
/// by zeros, so that the fifth byte is always zero. All zeros stand for an
/// interruption by a signal.
pub fn input_buffer(bytes: &[u8]) -> (r: [u8; 5])
    requires
        bytes@.len() <= 4,
    ensures
        forall|i: int| 0 <= i < bytes@.len() ==> r@[i] == bytes@[i],
        forall|i: int| bytes@.len() <= i < 5 ==> r@[i] == 0,
{
    let mut r: [u8; 5] = [0; 5];
    let mut i: usize = 0;
    while i < bytes.len()
        invariant
            i <= bytes@.len() <= 4,
            r@.len() == 5,
            forall|j: int| 0 <= j < i ==> r@[j] == bytes@[j],
            forall|j: int| i <= j < 5 ==> r@[j] == 0,
        decreases bytes@.len() - i,
    {
        r[i] = bytes[i];
        i = i + 1;
    }
    r
}

} // verus!
