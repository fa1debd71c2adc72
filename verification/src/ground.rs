//! The last stable ground positions of a character, from which it is put back
//! after falling for too long.

use std::collections::VecDeque;

use vstd::prelude::*;

verus! {

/// Stable ground positions kept at most.
pub const STABLE_GROUND_HISTORY: usize = 5;

/// The history after recording `position`: newest first, at most five kept.
pub open spec fn recorded<P>(history: Seq<P>, position: P) -> Seq<P> {
    (seq![position] + history).take(
        if history.len() + 1 <= STABLE_GROUND_HISTORY {
            history.len() + 1int
        } else {
            STABLE_GROUND_HISTORY as int
        },
    )
}

/// The most recent stable ground positions, newest first. `P` is the
/// position type of the caller.
pub struct StableGround<P> {
    pub previous: VecDeque<P>,
}

impl<P> StableGround<P> {
    pub fn new() -> (ground: Self)
        ensures
            ground.previous@ == Seq::<P>::empty(),
    {
        StableGround { previous: VecDeque::new() }
    }

    /// Records a position where the character stood on level ground; only the
    /// five newest positions are kept.
    pub fn record_stable(&mut self, position: P)
        ensures
            final(self).previous@ == recorded(old(self).previous@, position),
    {
        self.previous.push_front(position);
        let ghost pushed = self.previous@;
        assert(pushed.take(pushed.len() as int) =~= pushed);
        while self.previous.len() > STABLE_GROUND_HISTORY
            invariant
                pushed == seq![position] + old(self).previous@,
                self.previous@.len() <= pushed.len(),
                self.previous@.len() >= STABLE_GROUND_HISTORY || self.previous@.len()
                    == pushed.len(),
                self.previous@ == pushed.take(self.previous@.len() as int),
            decreases self.previous@.len(),
        {
            let _ = self.previous.pop_back();
            assert(self.previous@ =~= pushed.take(self.previous@.len() as int));
        }
        assert(self.previous@ =~= recorded(old(self).previous@, position));
    }

    /// Takes the newest stable position, if any.
    pub fn take_last_stable(&mut self) -> (position: Option<P>)
        ensures
            position == if old(self).previous@.len() > 0 {
                Some(old(self).previous@[0])
            } else {
                None::<P>
            },
            final(self).previous@ == if old(self).previous@.len() > 0 {
                old(self).previous@.drop_first()
            } else {
                old(self).previous@
            },
    {
        let taken = self.previous.pop_front();
        proof {
            if old(self).previous@.len() > 0 {
                assert(old(self).previous@.subrange(1, old(self).previous@.len() as int)
                    =~= old(self).previous@.drop_first());
            }
        }
        taken
    }
}

/// Law: the history never holds more than five positions, and taking right
/// after recording gives back the recorded position and the history as it
/// was, its oldest entry dropped if it was already full.
pub proof fn lemma_record_then_take<P>(history: Seq<P>, position: P)
    ensures
        recorded(history, position).len() <= STABLE_GROUND_HISTORY,
        recorded(history, position).len() > 0,
        recorded(history, position)[0] == position,
        history.len() < STABLE_GROUND_HISTORY ==> recorded(history, position).drop_first()
            == history,
        history.len() >= STABLE_GROUND_HISTORY ==> recorded(history, position).drop_first()
            == history.take(STABLE_GROUND_HISTORY - 1),
{
    let r = recorded(history, position);
    if history.len() < STABLE_GROUND_HISTORY {
        assert(r.drop_first() =~= history);
    } else {
        assert(r.drop_first() =~= history.take(STABLE_GROUND_HISTORY - 1));
    }
}

/// Law: recording puts the new position first and keeps the newest positions
/// before it, at most five in all.
pub proof fn lemma_recorded_keeps_five_newest<P>(history: Seq<P>, position: P)
    ensures
        recorded(history, position).len() == if history.len() < 5 {
            history.len() + 1
        } else {
            5
        },
        recorded(history, position)[0] == position,
        forall|i: int|
            1 <= i < recorded(history, position).len() ==> #[trigger] recorded(history, position)[i]
                == history[i - 1],
{
}

} // verus!
