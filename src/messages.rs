use vstd::prelude::*;
use crate::constants::MSG_HEIGHT;
use crate::element::Color;

verus! {

/// The message log, oldest first.
pub type Messages = Vec<(String, Color)>;

/// The log after adding `m`: only the last `MSG_HEIGHT - 1` earlier
/// messages are kept.
pub open spec fn logged(log: Seq<(String, Color)>, m: (String, Color)) -> Seq<(String, Color)> {
    if log.len() >= MSG_HEIGHT {
        log.subrange(log.len() - (MSG_HEIGHT - 1), log.len() as int).push(m)
    } else {
        log.push(m)
    }
}

/// Appends a message, dropping the oldest ones so that at most
/// `MSG_HEIGHT` remain.
pub fn push_message(log: &mut Messages, message: String, color: Color)
    ensures
        final(log)@ == logged(old(log)@, (message, color)),
{
    let ghost orig = log@;
    while log.len() >= MSG_HEIGHT
        invariant
            log@.len() <= orig.len(),
            log@ == orig.subrange(orig.len() - log@.len(), orig.len() as int),
            orig.len() >= MSG_HEIGHT ==> log@.len() >= MSG_HEIGHT - 1,
            orig.len() < MSG_HEIGHT ==> log@ == orig,
        decreases log@.len(),
    {
        log.remove(0);
        assert(log@ =~= orig.subrange(orig.len() - log@.len(), orig.len() as int));
    }
    proof {
        if orig.len() < MSG_HEIGHT {
            assert(log@ =~= orig);
        }
    }
    log.push((message, color));
}

/// A log that messages can be added to.
pub trait MessageLog: Sized {
    /// The messages held, oldest first.
    spec fn entries(&self) -> Seq<(String, Color)>;

    /// Appends a message, dropping the oldest ones so that at most
    /// `MSG_HEIGHT` remain.
    fn add(&mut self, message: String, color: Color)
        ensures
            final(self).entries() == logged(old(self).entries(), (message, color)),
    ;
}

impl MessageLog for Messages {
    open spec fn entries(&self) -> Seq<(String, Color)> {
        self@
    }

    fn add(&mut self, message: String, color: Color) {
        push_message(self, message, color);
    }
}

} // verus!
