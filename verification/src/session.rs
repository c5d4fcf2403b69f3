use vstd::prelude::*;
use crate::Container;
use crate::all_names_nonempty;
use crate::check_names_nonempty;
use crate::containers_of;
use crate::to_containers;
use crate::json::json_list;
use crate::json::json_of_containers;
use crate::services::ContainerInfo;

verus! {

/// The fixed cadence of the sender loop: one frame roughly every second,
/// measured from the end of the previous cycle.
pub const TICK_INTERVAL_MS: u64 = 1000;

/// What the receiving side of a live-stream connection observed: an
/// ordinary inbound frame, the client's close frame, a read error, or the
/// connection ending. Everything but an ordinary frame ends the session.
#[derive(Clone, Copy, Debug, PartialEq, Eq, Structural)]
pub enum InboundEvent {
    Frame,
    Close,
    ReadFailed,
    Disconnected,
}

/// Per-connection state of one live-stream session: whether the session
/// has been cancelled, and how many frames its sender has produced.
#[derive(Clone, Copy, Debug, PartialEq, Eq, Structural)]
pub struct LiveSession {
    pub cancelled: bool,
    pub frames_sent: u64,
}

/// The session after one sender tick: one more frame produced (the count
/// saturates), cancellation untouched — neither a failed fetch nor a
/// failed send ends a session.
pub open spec fn after_tick(s: LiveSession) -> LiveSession {
    LiveSession {
        cancelled: s.cancelled,
        frames_sent: if s.frames_sent < u64::MAX {
            (s.frames_sent + 1) as u64
        } else {
            u64::MAX
        },
    }
}

/// The session after the receiver observed `ev`: anything but an ordinary
/// frame cancels it, and cancellation is never undone.
pub open spec fn after_event(s: LiveSession, ev: InboundEvent) -> LiveSession {
    LiveSession {
        cancelled: s.cancelled || !(ev matches InboundEvent::Frame),
        frames_sent: s.frames_sent,
    }
}

/// The frame a tick sends for each possible snapshot outcome: the
/// serialized snapshot on success, and the serialized empty list when the
/// fetch failed (or handed back a record without a name) — the client
/// always receives a well-formed frame on schedule.
pub open spec fn frame_spec(snapshot: Result<Vec<ContainerInfo>, String>) -> Seq<u8> {
    match snapshot {
        Ok(v) => {
            if all_names_nonempty(v@) {
                json_list(containers_of(v@))
            } else {
                json_list(Seq::<Container>::empty())
            }
        },
        Err(_) => json_list(Seq::<Container>::empty()),
    }
}

impl LiveSession {
    /// A fresh session: not cancelled, nothing sent yet.
    pub fn new() -> (r: LiveSession)
        ensures
            r.cancelled == false,
            r.frames_sent == 0,
    {
        LiveSession { cancelled: false, frames_sent: 0 }
    }

    /// Whether the sender loop may run another tick: exactly until the
    /// session is cancelled.
    pub fn should_poll(&self) -> (r: bool)
        ensures
            r == !self.cancelled,
    {
        !self.cancelled
    }

    /// One sender tick: turns the snapshot outcome into the frame to send.
    /// Exactly one frame per tick, whatever the outcome, and the session
    /// itself never ends here.
    pub fn process_tick(&mut self, snapshot: Result<Vec<ContainerInfo>, String>) -> (frame: Vec<
        u8,
    >)
        ensures
            *final(self) == after_tick(*old(self)),
            frame@ == frame_spec(snapshot),
    {
        let frame = match snapshot {
            Ok(v) => {
                if check_names_nonempty(&v) {
                    let cs = to_containers(v);
                    json_of_containers(&cs)
                } else {
                    let empty: Vec<Container> = Vec::new();
                    json_of_containers(&empty)
                }
            },
            Err(_) => {
                let empty: Vec<Container> = Vec::new();
                json_of_containers(&empty)
            },
        };
        if self.frames_sent < u64::MAX {
            self.frames_sent = self.frames_sent + 1;
        }
        frame
    }

    /// The receiver observed one event. The result says whether the
    /// receiver loop stops; the session is cancelled exactly then (or was
    /// already).
    pub fn on_client_event(&mut self, ev: &InboundEvent) -> (stop: bool)
        ensures
            *final(self) == after_event(*old(self), *ev),
            stop == !(*ev matches InboundEvent::Frame),
            final(self).cancelled == (old(self).cancelled || stop),
            final(self).frames_sent == old(self).frames_sent,
    {
        match ev {
            InboundEvent::Frame => false,
            _ => {
                self.cancelled = true;
                true
            },
        }
    }
}

/// Three consecutive successful snapshots produce exactly three frames:
/// each tick of a live session emits one frame and leaves the session
/// running, so after three ticks the frame count has grown by exactly
/// three and the sender would still poll. (The spacing of the ticks is
/// the caller's sleep between them, outside this library.)
pub proof fn lemma_three_ticks_three_frames(s: LiveSession)
    requires
        !s.cancelled,
        s.frames_sent + 3 <= u64::MAX,
    ensures
        after_tick(after_tick(after_tick(s))).frames_sent == s.frames_sent + 3,
        !after_tick(after_tick(after_tick(s))).cancelled,
{
}

/// Closing the client side releases the session: once the receiver has
/// seen the close (or the connection failed), the session is cancelled,
/// no later tick undoes that, and the sender's next poll check refuses —
/// so no further runtime fetch is attributable to the session beyond the
/// tick already in flight.
pub proof fn lemma_close_ends_polling(s: LiveSession, ev: InboundEvent)
    requires
        !(ev matches InboundEvent::Frame),
    ensures
        after_event(s, ev).cancelled,
        after_tick(after_event(s, ev)).cancelled,
{
}

} // verus!
