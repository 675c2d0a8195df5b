//! Asking a channel that may not be there.

use tokio::sync::mpsc::Sender;
use vstd::prelude::*;
use crate::channel::{is_closed, try_send, unasked, unprobed, Answer, Probe};
use crate::frames::Frame;

verus! {

/// Offers a frame to a channel, if there is one.
pub fn offer<F>(sender: &Option<Sender<Frame<F>>>, frame: Frame<F>) -> (a: Answer<F>)
    ensures
        a.proper(),
        a.frame() == frame@,
        a.asked() == (sender is Some),
{
    match sender {
        Some(tx) => try_send(tx, frame),
        None => unasked(frame),
    }
}

/// Asks a channel whether its receiver is gone; where there is none, nobody is
/// known to be.
pub fn probe<F>(sender: &Option<Sender<Frame<F>>>) -> (p: Probe)
    ensures
        p@.asked == (sender is Some),
        !p@.asked ==> !p@.closed,
{
    match sender {
        Some(tx) => is_closed(tx),
        None => unprobed(),
    }
}

} // verus!
