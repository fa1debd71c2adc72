//! A small deterministic random stream (splitmix64) used by every generator of
//! the course, so that one seed always yields the same course.

use vstd::prelude::*;

verus! {

/// Increment of the splitmix64 state per draw.
pub const GOLDEN_GAMMA: u64 = 0x9E37_79B9_7F4A_7C15;

/// First multiplier of the splitmix64 finaliser.
pub const MIX_MUL_A: u64 = 0xBF58_476D_1CE4_E5B9;

/// Second multiplier of the splitmix64 finaliser.
pub const MIX_MUL_B: u64 = 0x94D0_49BB_1331_11EB;

/// Multiplier applied to a salt when a stream is forked.
pub const FORK_SALT_MUL: u64 = 0xD6E8_FD50_1A7F_6D4B;

/// The finaliser that turns a state into an output word.
#[verifier::opaque]
pub open spec fn mix64(state: u64) -> u64 {
    let z = (state ^ (state >> 30u64)).wrapping_mul(MIX_MUL_A);
    let z = (z ^ (z >> 27u64)).wrapping_mul(MIX_MUL_B);
    z ^ (z >> 31u64)
}

/// The state after `draws` draws from `state`.
pub open spec fn advance(state: u64, draws: nat) -> u64 {
    ((state as nat + draws * (GOLDEN_GAMMA as nat)) % 0x1_0000_0000_0000_0000nat) as u64
}

/// The `k`-th output word (counting from zero) drawn from `state`.
pub open spec fn draw(state: u64, k: nat) -> u64 {
    mix64(advance(state, k + 1))
}

/// The `k`-th 24-bit unit sample drawn from `state`.
pub open spec fn unit_sample(state: u64, k: nat) -> u32 {
    (draw(state, k) >> 40u64) as u32
}

/// The sum of the weights of a weighted list.
pub open spec fn weight_total<T>(weighted: Seq<(T, u32)>) -> nat
    decreases weighted.len(),
{
    if weighted.len() == 0 {
        0
    } else {
        weighted[0].1 as nat + weight_total(weighted.drop_first())
    }
}

/// The entry that a roll selects: walk the list, subtracting each weight from
/// the roll, and stop at the first entry whose weight exceeds what is left of
/// the roll; the last entry is taken when the walk reaches it.
pub open spec fn weighted_pick<T>(weighted: Seq<(T, u32)>, roll: int) -> T
    decreases weighted.len(),
{
    if weighted.len() <= 1 || roll < weighted[0].1 {
        weighted[0].0
    } else {
        weighted_pick(weighted.drop_first(), roll - weighted[0].1)
    }
}

#[derive(Clone, Copy, Debug, PartialEq, Eq, Structural)]
pub struct RunRng {
    pub state: u64,
}

impl RunRng {
    pub fn new(seed: u64) -> (rng: Self)
        ensures
            rng.state == seed ^ GOLDEN_GAMMA,
    {
        RunRng { state: seed ^ GOLDEN_GAMMA }
    }

    pub fn next_u64(&mut self) -> (out: u64)
        ensures
            final(self).state == advance(old(self).state, 1),
            out == draw(old(self).state, 0),
    {
        self.state = self.state.wrapping_add(GOLDEN_GAMMA);
        proof {
            lemma_advance_one(old(self).state);
        }
        proof {
            reveal(mix64);
        }
        let mut z = self.state;
        z = (z ^ (z >> 30)).wrapping_mul(MIX_MUL_A);
        z = (z ^ (z >> 27)).wrapping_mul(MIX_MUL_B);
        z ^ (z >> 31)
    }

    /// The stream forked from this one by `salt`.
    pub open spec fn fork_spec(&self, salt: u64) -> RunRng {
        RunRng { state: self.state ^ salt.wrapping_mul(FORK_SALT_MUL) }
    }

    /// A stream derived from this one by a salt; this stream is left as it is.
    pub fn fork(&self, salt: u64) -> (forked: Self)
        ensures
            forked == self.fork_spec(salt),
    {
        RunRng { state: self.state ^ salt.wrapping_mul(FORK_SALT_MUL) }
    }

    /// The top 24 bits of the next output word: a uniform sample in
    /// `0..2^24` that callers scale into a unit interval.
    pub fn next_unit_sample(&mut self) -> (sample: u32)
        ensures
            final(self).state == advance(old(self).state, 1),
            sample == unit_sample(old(self).state, 0),
            sample < 0x100_0000,
    {
        let word = self.next_u64();
        assert(word >> 40u64 < 0x100_0000) by (bit_vector);
        (word >> 40) as u32
    }

    /// Picks an entry of a weighted list with probability proportional to its
    /// weight, from one output word.
    pub fn weighted_choice<T: Copy>(&mut self, weighted: &[(T, u32)]) -> (choice: T)
        requires
            weighted@.len() > 0,
            0 < weight_total(weighted@) <= u32::MAX,
        ensures
            final(self).state == advance(old(self).state, 1),
            choice == weighted_pick(
                weighted@,
                (draw(old(self).state, 0) % (weight_total(weighted@) as u64)) as int,
            ),
    {
        let n = weighted.len();
        let mut total: u32 = 0;
        let mut i: usize = 0;
        while i < n
            invariant
                n == weighted@.len(),
                0 <= i <= n,
                total == weight_total(weighted@.take(i as int)),
                weight_total(weighted@) <= u32::MAX,
            decreases n - i,
        {
            proof {
                lemma_weight_total_push(weighted@.take(i as int), weighted@[i as int]);
                assert(weighted@.take(i as int).push(weighted@[i as int]) =~= weighted@.take(
                    i + 1,
                ));
                lemma_weight_total_take_le(weighted@, i + 1);
            }
            total = total + weighted[i].1;
            i = i + 1;
        }
        assert(weighted@.take(n as int) =~= weighted@);
        let word = self.next_u64();
        let roll0 = (word % (total as u64)) as u32;
        let mut roll = roll0;
        let mut i: usize = 0;
        assert(weighted@.skip(0) =~= weighted@);
        while i < n
            invariant
                n == weighted@.len(),
                n > 0,
                self.state == advance(old(self).state, 1),
                roll0 as int == (draw(old(self).state, 0) % (weight_total(weighted@) as u64)) as int,
                0 <= i <= n,
                i < n ==> weighted_pick(weighted@.skip(i as int), roll as int) == weighted_pick(
                    weighted@,
                    roll0 as int,
                ),
                i == n ==> weighted_pick(weighted@, roll0 as int) == weighted@[n - 1].0,
            decreases n - i,
        {
            let entry = weighted[i];
            if roll < entry.1 {
                return entry.0;
            }
            proof {
                let rest = weighted@.skip(i as int);
                if i + 1 < n {
                    assert(rest.drop_first() =~= weighted@.skip(i + 1));
                }
            }
            roll = roll - entry.1;
            i = i + 1;
        }
        weighted[n - 1].0
    }
}

/// Appending an entry adds its weight to the total.
pub proof fn lemma_weight_total_push<T>(weighted: Seq<(T, u32)>, entry: (T, u32))
    ensures
        weight_total(weighted.push(entry)) == weight_total(weighted) + entry.1,
    decreases weighted.len(),
{
    let pushed = weighted.push(entry);
    assert(pushed[0] == if weighted.len() > 0 { weighted[0] } else { entry });
    if weighted.len() > 0 {
        assert(pushed.drop_first() =~= weighted.drop_first().push(entry));
        lemma_weight_total_push(weighted.drop_first(), entry);
    } else {
        assert(pushed.drop_first() =~= Seq::<(T, u32)>::empty());
        assert(weight_total(Seq::<(T, u32)>::empty()) == 0);
    }
}

/// A prefix weighs no more than the whole list.
pub proof fn lemma_weight_total_take_le<T>(weighted: Seq<(T, u32)>, i: int)
    requires
        0 <= i <= weighted.len(),
    ensures
        weight_total(weighted.take(i)) <= weight_total(weighted),
    decreases weighted.len() - i,
{
    if i == weighted.len() {
        assert(weighted.take(i) =~= weighted);
    } else {
        lemma_weight_total_take_le(weighted, i + 1);
        lemma_weight_total_push(weighted.take(i), weighted[i]);
        assert(weighted.take(i).push(weighted[i]) =~= weighted.take(i + 1));
    }
}

/// Law: a roll below the total weight picks an entry of the list whose weight
/// is positive, so an entry of weight zero is never chosen.
pub proof fn lemma_weighted_pick_has_weight<T>(weighted: Seq<(T, u32)>, roll: int)
    requires
        weighted.len() > 0,
        0 <= roll < weight_total(weighted),
    ensures
        exists|j: int|
            0 <= j < weighted.len() && weighted[j].0 == weighted_pick(weighted, roll) && weighted[j].1
                > 0,
    decreases weighted.len(),
{
    if roll < weighted[0].1 {
        assert(weighted[0].0 == weighted_pick(weighted, roll));
    } else if weighted.len() == 1 {
        assert(weighted.drop_first() =~= Seq::<(T, u32)>::empty());
        assert(weight_total(weighted.drop_first()) == 0);
    } else {
        let rest = weighted.drop_first();
        lemma_weighted_pick_has_weight(rest, roll - weighted[0].1);
        let j = choose|j: int|
            0 <= j < rest.len() && rest[j].0 == weighted_pick(rest, roll - weighted[0].1)
                && rest[j].1 > 0;
        assert(weighted[j + 1] == rest[j]);
    }
}

/// Drawing `a` times and then `b` times is drawing `a + b` times.
pub proof fn lemma_advance_add(state: u64, a: nat, b: nat)
    ensures
        advance(advance(state, a), b) == advance(state, a + b),
{
    let m: int = 0x1_0000_0000_0000_0000;
    let x: int = state as int + a * (GOLDEN_GAMMA as int);
    let y: int = b * (GOLDEN_GAMMA as int);
    assert(advance(state, a) as int == x % m);
    vstd::arithmetic::div_mod::lemma_add_mod_noop(x, y, m);
    vstd::arithmetic::div_mod::lemma_mod_twice(x, m);
    vstd::arithmetic::div_mod::lemma_mod_bound(x + y, m);
    vstd::arithmetic::div_mod::lemma_mod_bound(x, m);
    assert((x % m + y) % m == ((x % m) % m + y % m) % m) by {
        vstd::arithmetic::div_mod::lemma_add_mod_noop(x % m, y, m);
    }
    assert(a * (GOLDEN_GAMMA as int) + b * (GOLDEN_GAMMA as int) == (a + b) * (GOLDEN_GAMMA as int))
        by (nonlinear_arith);
}

/// The `k`-th sample after `a` draws is the `(a + k)`-th sample.
pub proof fn lemma_unit_sample_shift(state: u64, a: nat, k: nat)
    ensures
        unit_sample(advance(state, a), k) == unit_sample(state, a + k),
        draw(advance(state, a), k) == draw(state, a + k),
{
    lemma_advance_add(state, a, k + 1);
}

/// One draw moves the state by one golden step, wrapping around.
pub proof fn lemma_advance_one(state: u64)
    ensures
        advance(state, 1) == state.wrapping_add(GOLDEN_GAMMA),
{
}

/// Law: a roll below the total weight picks the entry whose share of the
/// weight line holds the roll: the entry `i` with the weights before it
/// summing to at most the roll, and with its own weight added, to more.
pub proof fn lemma_weighted_pick_by_prefix<T>(weighted: Seq<(T, u32)>, roll: int)
    requires
        weighted.len() > 0,
        0 <= roll < weight_total(weighted),
    ensures
        exists|i: int|
            0 <= i < weighted.len() && weight_total(#[trigger] weighted.take(i)) <= roll
                < weight_total(weighted.take(i)) + weighted[i].1 && weighted_pick(weighted, roll)
                == weighted[i].0,
    decreases weighted.len(),
{
    assert(weighted.take(0) =~= Seq::<(T, u32)>::empty());
    if roll < weighted[0].1 {
        assert(weight_total(weighted.take(0)) == 0);
    } else {
        let rest = weighted.drop_first();
        if weighted.len() == 1 {
            assert(rest =~= Seq::<(T, u32)>::empty());
            assert(weight_total(rest) == 0);
        }
        lemma_weighted_pick_by_prefix(rest, roll - weighted[0].1);
        let i = choose|i: int|
            0 <= i < rest.len() && weight_total(#[trigger] rest.take(i)) <= roll - weighted[0].1
                < weight_total(rest.take(i)) + rest[i].1 && weighted_pick(rest, roll - weighted[0].1)
                == rest[i].0;
        let t = weighted.take(i + 1);
        assert(t.drop_first() =~= rest.take(i));
        assert(t[0] == weighted[0]);
        assert(weight_total(t) == weighted[0].1 + weight_total(rest.take(i)));
        assert(weighted[i + 1] == rest[i]);
    }
}

} // verus!
