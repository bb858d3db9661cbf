//! The single-step polling behind `next_frame().await` and background file
//! loading: one poll either yields the value or reports that it is not
//! ready yet.

use vstd::prelude::*;

verus! {

#[verifier::external_type_specification]
#[verifier::external_body]
pub struct ExIoError(std::io::Error);

/// The outcome of polling once.
#[derive(Debug, Clone, Copy, PartialEq, Eq)]
pub enum Poll<T> {
    Ready(T),
    Pending,
}

/// What one poll of a future whose value is `value` yields: `Some` is
/// ready, `None` pending.
pub open spec fn poll_of<T>(value: Option<T>) -> Poll<T> {
    match value {
        Some(v) => Poll::Ready(v),
        None => Poll::Pending,
    }
}

/// What one poll of a frame future yields, given whether it was polled
/// before: pending the first time, ready from then on.
pub open spec fn frame_poll(polled: bool) -> Poll<()> {
    if polled {
        Poll::Ready(())
    } else {
        Poll::Pending
    }
}

/// Whether a fresh frame future has been polled after `n` polls.
pub open spec fn frame_polled_after(n: nat) -> bool {
    n > 0
}

/// Completes on the second poll, so that awaiting it hands control back to
/// the frame loop once.
pub struct FrameFuture {
    done: bool,
}

impl FrameFuture {
    /// The future has been polled once already.
    pub closed spec fn polled(&self) -> bool {
        self.done
    }

    /// Polls once: pending the first time, ready from then on.
    pub fn poll(&mut self) -> (r: Poll<()>)
        ensures
            r == frame_poll(old(self).polled()),
            final(self).polled(),
    {
        if self.done {
            Poll::Ready(())
        } else {
            self.done = true;
            Poll::Pending
        }
    }
}

impl Default for FrameFuture {
    fn default() -> (r: Self)
        ensures
            !r.polled(),
    {
        FrameFuture { done: false }
    }
}

/// Poll number `n` (counted from 0) of a fresh frame future is pending for
/// `n == 0` and ready for every later `n`: each poll leaves the future
/// polled, and a polled future is ready.
pub proof fn lemma_frame_polls(n: nat)
    ensures
        frame_polled_after(0) == false,
        frame_polled_after(n + 1) == true,
        frame_poll(frame_polled_after(n)) == (if n == 0 {
            Poll::<()>::Pending
        } else {
            Poll::Ready(())
        }),
{
}

/// The slot that a background file read fills: empty until the read ends,
/// then the read's outcome until a poll takes it.
pub struct FileLoadingFuture {
    contents: Option<Result<Vec<u8>, std::io::Error>>,
}

impl FileLoadingFuture {
    /// The outcome waiting to be taken, if the read has ended.
    pub closed spec fn contents(&self) -> Option<Result<Vec<u8>, std::io::Error>> {
        self.contents
    }

    /// A slot whose read has not ended.
    pub fn new() -> (r: Self)
        ensures
            r.contents() == None::<Result<Vec<u8>, std::io::Error>>,
    {
        FileLoadingFuture { contents: None }
    }

    /// Stores the outcome of the read.
    pub fn complete(&mut self, result: Result<Vec<u8>, std::io::Error>)
        ensures
            final(self).contents() == Some(result),
    {
        self.contents = Some(result);
    }

    /// Polls once: takes the outcome if the read has ended.
    pub fn poll(&mut self) -> (r: Poll<Result<Vec<u8>, std::io::Error>>)
        ensures
            r == poll_of(old(self).contents()),
            final(self).contents() == None::<Result<Vec<u8>, std::io::Error>>,
    {
        match self.contents.take() {
            Some(result) => Poll::Ready(result),
            None => Poll::Pending,
        }
    }
}

/// Turns the outcome of one poll into the value, if it is ready.
pub fn resume<T>(poll: Poll<T>) -> (r: Option<T>)
    ensures
        poll_of(r) == poll,
{
    match poll {
        Poll::Ready(v) => Some(v),
        Poll::Pending => None,
    }
}

/// A poll of a slot whose read has ended yields the stored outcome, and
/// the poll after it, with the slot emptied, is pending.
pub proof fn lemma_file_poll_takes(result: Result<Vec<u8>, std::io::Error>)
    ensures
        poll_of(Some(result)) == Poll::Ready(result),
        poll_of(None::<Result<Vec<u8>, std::io::Error>>) == Poll::<Result<Vec<u8>, std::io::Error>>::Pending,
{
}

} // verus!
