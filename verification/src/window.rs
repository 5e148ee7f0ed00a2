//! When a request to close a window ends the application.

use vstd::prelude::*;

verus! {

/// Identifies one window.
#[derive(Clone, Copy, Debug, PartialEq, Eq, Hash, Structural)]
pub struct WindowId {
    pub id: u128,
}

/// The event that the user has asked for a window to be closed.
#[derive(Clone, Copy, Debug, PartialEq, Eq, Hash, Structural)]
pub struct WindowCloseRequested {
    pub id: WindowId,
    pub is_primary: bool,
}

/// Whether `event` asks to close the window that is watched: the window `window_id`
/// where one is given, else the primary window.
pub open spec fn closes_watched_window(
    window_id: Option<WindowId>,
    event: WindowCloseRequested,
) -> bool {
    match window_id {
        Some(watched) => event.id == watched,
        None => event.is_primary,
    }
}

/// The number of events among `events` that ask to close the watched window.
pub open spec fn exit_requests(window_id: Option<WindowId>, events: Seq<WindowCloseRequested>) -> nat
    decreases events.len(),
{
    if events.len() == 0 {
        0
    } else {
        exit_requests(window_id, events.drop_last()) + if closes_watched_window(
            window_id,
            events.last(),
        ) {
            1nat
        } else {
            0nat
        }
    }
}

/// Whether `event` asks to close the window that is watched.
pub fn is_exit_request(window_id: Option<WindowId>, event: &WindowCloseRequested) -> (exit: bool)
    ensures
        exit == closes_watched_window(window_id, *event),
{
    match window_id {
        Some(watched) => watched.id == event.id.id,
        None => event.is_primary,
    }
}

/// The number of times the application is asked to exit by the close requests
/// `events`: once for each event that asks to close the watched window.
pub fn exit_on_window_close_system(
    window_id: Option<WindowId>,
    events: &Vec<WindowCloseRequested>,
) -> (exits: usize)
    ensures
        exits == exit_requests(window_id, events@),
{
    let mut exits: usize = 0;
    let mut i: usize = 0;
    while i < events.len()
        invariant
            i <= events.len(),
            exits == exit_requests(window_id, events@.take(i as int)),
            exits <= i,
        decreases events.len() - i,
    {
        proof {
            let prefix = events@.take(i as int + 1);
            assert(prefix.drop_last() =~= events@.take(i as int));
            assert(prefix.last() == events@[i as int]);
        }
        if is_exit_request(window_id, &events[i]) {
            exits += 1;
        }
        i += 1;
    }
    assert(events@.take(events.len() as int) =~= events@);
    exits
}

} // verus!
