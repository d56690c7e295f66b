//! Decisions of the terminal-size poller. The worker thread sleeps on a
//! condition variable, reads the size, and invokes its callback on changes;
//! the reading and the callback live with the thread, the decision here.

use vstd::prelude::*;

verus! {

/// The size assumed when the terminal cannot report one.
pub open spec fn default_term_size() -> (u16, u16) {
    (1, 1)
}

/// A size reading, with failure falling back to the one-cell default.
pub fn size_or_default(reading: Option<(u16, u16)>) -> (r: (u16, u16))
    ensures
        r == match reading {
            Some(s) => s,
            None => default_term_size(),
        },
{
    match reading {
        Some(s) => s,
        None => (1, 1),
    }
}

/// One tick of the poller: the size now current, and whether it differs from
/// the last seen one, in which case the change callback must run.
pub fn poll_step(last: (u16, u16), reading: Option<(u16, u16)>) -> (r: ((u16, u16), bool))
    ensures
        r.0 == match reading {
            Some(s) => s,
            None => default_term_size(),
        },
        r.1 <==> r.0 != last,
{
    let now: (u16, u16) = size_or_default(reading);
    let changed: bool = now.0 != last.0 || now.1 != last.1;
    (now, changed)
}

} // verus!
