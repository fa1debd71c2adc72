//! The decisions that drive a run: queueing a restart with a new seed, taking
//! the queued request, and extending the course ahead of the player.

use vstd::prelude::*;

verus! {

/// The course is extended once this few rooms or fewer lie ahead of the
/// player's nearest room.
pub const APPEND_TRIGGER_ROOMS: usize = 4;

/// Rooms appended each time the course is extended.
pub const APPEND_BATCH_ROOMS: usize = 8;

#[derive(Clone, Copy, Debug, PartialEq, Eq, Structural)]
pub enum RunRequestKind {
    RestartNewSeed,
}

#[derive(Clone, Copy, Debug, PartialEq, Eq, Structural)]
pub struct RunRequest {
    pub kind: RunRequestKind,
    pub seed: u64,
}

/// Holds at most one pending request; while one is pending, no other is
/// queued and the course is not extended.
#[derive(Clone, Copy, Debug, PartialEq, Eq, Structural)]
pub struct RunDirector {
    pub pending: Option<RunRequest>,
}

/// The rooms to append when the player's nearest room is `focus_room` of
/// `room_count`: a batch once few enough rooms remain ahead, else none.
pub open spec fn spec_course_extension(pending: bool, room_count: usize, focus_room: usize) -> usize {
    let remaining = if room_count >= focus_room + 1 {
        room_count - (focus_room + 1)
    } else {
        0
    };
    if pending || remaining > APPEND_TRIGGER_ROOMS {
        0
    } else {
        APPEND_BATCH_ROOMS
    }
}

impl RunDirector {
    pub fn new() -> (director: Self)
        ensures
            director.pending is None,
    {
        RunDirector { pending: None }
    }

    /// Queues a restart with `seed` when the restart key was pressed and no
    /// request is pending.
    pub fn queue_run_controls(&mut self, restart_pressed: bool, seed: u64)
        ensures
            final(self).pending == if old(self).pending is None && restart_pressed {
                Some(RunRequest { kind: RunRequestKind::RestartNewSeed, seed })
            } else {
                old(self).pending
            },
    {
        if self.pending.is_some() {
            return;
        }
        if restart_pressed {
            self.pending = Some(RunRequest { kind: RunRequestKind::RestartNewSeed, seed });
        }
    }

    /// Takes the pending request, leaving none.
    pub fn take_request(&mut self) -> (request: Option<RunRequest>)
        ensures
            request == old(self).pending,
            final(self).pending is None,
    {
        let request = self.pending;
        self.pending = None;
        request
    }

    /// The number of rooms to append to the course ahead of the player.
    pub fn course_extension(&self, room_count: usize, focus_room: usize) -> (rooms: usize)
        requires
            focus_room < usize::MAX,
        ensures
            rooms == spec_course_extension(self.pending is Some, room_count, focus_room),
    {
        if self.pending.is_some() {
            return 0;
        }
        let remaining = room_count.saturating_sub(focus_room + 1);
        if remaining > APPEND_TRIGGER_ROOMS {
            0
        } else {
            APPEND_BATCH_ROOMS
        }
    }
}

/// Law: a request, once queued, is the one that is taken, however often the
/// restart key is pressed meanwhile; after the take nothing is pending.
pub proof fn lemma_first_request_wins(first_seed: u64, later_presses: Seq<(bool, u64)>)
    ensures
        ({
            let queued = RunDirector {
                pending: Some(RunRequest { kind: RunRequestKind::RestartNewSeed, seed: first_seed }),
            };
            queued_after(queued, later_presses) == queued
        }),
    decreases later_presses.len(),
{
    if later_presses.len() > 0 {
        lemma_first_request_wins(first_seed, later_presses.drop_last());
    }
}

/// The director after a series of key presses, each with the seed it would
/// queue.
pub open spec fn queued_after(director: RunDirector, presses: Seq<(bool, u64)>) -> RunDirector
    decreases presses.len(),
{
    if presses.len() == 0 {
        director
    } else {
        let before = queued_after(director, presses.drop_last());
        let (pressed, seed) = presses.last();
        if before.pending is None && pressed {
            RunDirector {
                pending: Some(RunRequest { kind: RunRequestKind::RestartNewSeed, seed }),
            }
        } else {
            before
        }
    }
}

/// Law: the course grows only while no request is pending, and only when at
/// most four rooms lie ahead of the player.
pub proof fn lemma_extension_only_near_the_tail(pending: bool, room_count: usize, focus_room: usize)
    requires
        focus_room < usize::MAX,
    ensures
        spec_course_extension(pending, room_count, focus_room) > 0 ==> !pending && room_count
            <= focus_room + 1 + APPEND_TRIGGER_ROOMS,
        !pending && focus_room < room_count && room_count <= focus_room + 1 + APPEND_TRIGGER_ROOMS
            ==> spec_course_extension(pending, room_count, focus_room) == APPEND_BATCH_ROOMS,
{
}

/// Law: with nothing pending, eight rooms are appended exactly when at most
/// four rooms lie beyond the player's nearest room, and none otherwise; with a
/// request pending nothing is appended.
pub proof fn lemma_extension_amounts(pending: bool, room_count: usize, focus_room: usize)
    requires
        focus_room < usize::MAX,
    ensures
        pending ==> spec_course_extension(pending, room_count, focus_room) == 0,
        !pending ==> spec_course_extension(pending, room_count, focus_room) == if room_count
            <= focus_room + 5 {
            8int
        } else {
            0
        },
{
}

} // verus!
