//! MT19937 pseudo-random generator: 624 words of state and an index
//! cursor. Fully deterministic from the seed; the state transitions are
//! specified word for word.

use vstd::prelude::*;

verus! {

/// Number of state words.
pub const MT_N: usize = 624;

/// Offset of the second word entering each twist step.
pub const MT_M: usize = 397;

/// The twist matrix constant.
pub const MT_MATRIX_A: u32 = 0x9908B0DF;

/// Mask selecting the top state bit.
pub const MT_UPPER_MASK: u32 = 0x80000000;

/// Mask selecting the lower 31 state bits.
pub const MT_LOWER_MASK: u32 = 0x7FFFFFFF;

/// The seed-expansion recurrence:
/// `word(i) = 1812433253 * (word(i-1) ^ (word(i-1) >> 30)) + i` mod 2^32.
pub open spec fn mt_seed_word(seed: u32, i: int) -> u32
    decreases i,
{
    if i <= 0 {
        seed
    } else {
        let prev = mt_seed_word(seed, i - 1);
        vstd::wrapping::u32_specs::wrapping_add(
            vstd::wrapping::u32_specs::wrapping_mul(1812433253u32, prev ^ (prev >> 30)),
            i as u32,
        )
    }
}

/// The full expanded state for a seed.
pub open spec fn mt_init(seed: u32) -> Seq<u32> {
    Seq::new(624, |i: int| mt_seed_word(seed, i))
}

/// The replacement for state word `i`, computed from the current state.
pub open spec fn mt_twist_word(s: Seq<u32>, i: int) -> u32 {
    let y = (s[i] & 0x80000000) | (s[(i + 1) % 624] & 0x7FFFFFFF);
    let x = s[(i + 397) % 624] ^ (y >> 1);
    if y & 1 != 0 {
        x ^ 0x9908B0DF
    } else {
        x
    }
}

/// The state after the first `k` in-place twist steps.
pub open spec fn mt_twist_state(s: Seq<u32>, k: int) -> Seq<u32>
    decreases k,
{
    if k <= 0 {
        s
    } else {
        let prev = mt_twist_state(s, k - 1);
        prev.update(k - 1, mt_twist_word(prev, k - 1))
    }
}

/// The tempering transform applied to each extracted word.
pub open spec fn mt_temper(y0: u32) -> u32 {
    let y1 = y0 ^ (y0 >> 11);
    let y2 = y1 ^ ((y1 << 7) & 0x9D2C5680);
    let y3 = y2 ^ ((y2 << 15) & 0xEFC60000);
    y3 ^ (y3 >> 18)
}

/// One extraction step: state and index after the call, and the output.
/// When the cursor has run past the state, the state is twisted first.
pub open spec fn mt_step(s: Seq<u32>, idx: int) -> (Seq<u32>, int, u32) {
    if idx >= 624 {
        let t = mt_twist_state(s, 624);
        (t, 1, mt_temper(t[0]))
    } else {
        (s, idx + 1, mt_temper(s[idx]))
    }
}

/// The MT19937 generator.
pub struct Random {
    mt: Vec<u32>,
    index: usize,
}

impl Random {
    /// The 624 state words.
    pub closed spec fn state(&self) -> Seq<u32> {
        self.mt@
    }

    /// The extraction cursor.
    pub closed spec fn cursor(&self) -> int {
        self.index as int
    }

    /// The state always holds exactly 624 words and the cursor never runs
    /// more than one full state past the last twist.
    pub open spec fn wf(&self) -> bool {
        self.state().len() == 624 && 0 <= self.cursor() <= 624
    }

    /// A generator seeded with `seed`; seed 0 is legal and reproduces the
    /// canonical sequence for seed 0.
    pub fn new(seed: u32) -> (r: Random)
        ensures
            r.wf(),
            r.state() =~= mt_init(seed),
            r.cursor() == 624,
    {
        let mut rng = Random { mt: Vec::new(), index: 0 };
        let mut i: usize = 0;
        while i < MT_N
            invariant
                i <= 624,
                rng.mt@.len() == i,
            decreases 624 - i,
        {
            rng.mt.push(0);
            i = i + 1;
        }
        rng.seed(seed);
        rng
    }

    /// Reset the state to the expansion of `seed`.
    #[verifier::rlimit(100)]
    #[verifier::loop_isolation(false)]
    pub fn seed(&mut self, seed: u32)
        requires
            old(self).state().len() == 624,
        ensures
            final(self).wf(),
            final(self).state() =~= mt_init(seed),
            final(self).cursor() == 624,
    {
        self.mt.set(0, seed);
        let mut i: usize = 1;
        while i < MT_N
            invariant
                1 <= i <= 624,
                self.mt@.len() == 624,
                forall|j: int| #![trigger self.mt@[j]] 0 <= j < i ==> self.mt@[j] == mt_seed_word(
                    seed,
                    j,
                ),
            decreases 624 - i,
        {
            let prev = self.mt[i - 1];
            let word = 1812433253u32.wrapping_mul(prev ^ (prev >> 30)).wrapping_add(i as u32);
            proof {
                assert(self.mt@[i as int - 1] == mt_seed_word(seed, i as int - 1));
                assert(word == mt_seed_word(seed, i as int));
            }
            self.mt.set(i, word);
            i = i + 1;
        }
        self.index = MT_N;
    }

    /// Twist the whole state in place and reset the cursor.
    fn twist(&mut self)
        requires
            old(self).state().len() == 624,
        ensures
            final(self).wf(),
            final(self).state() == mt_twist_state(old(self).state(), 624),
            final(self).cursor() == 0,
    {
        let mut i: usize = 0;
        while i < MT_N
            invariant
                i <= 624,
                self.mt@.len() == 624,
                self.mt@ == mt_twist_state(old(self).state(), i as int),
            decreases 624 - i,
        {
            let y = (self.mt[i] & MT_UPPER_MASK) | (self.mt[(i + 1) % MT_N] & MT_LOWER_MASK);
            let mut next = self.mt[(i + MT_M) % MT_N] ^ (y >> 1);
            if y & 1 != 0 {
                next = next ^ MT_MATRIX_A;
            }
            self.mt.set(i, next);
            i = i + 1;
        }
        self.index = 0;
    }

    /// Extract the next 32-bit output.
    pub fn get(&mut self) -> (r: u32)
        requires
            old(self).wf(),
        ensures
            final(self).wf(),
            (final(self).state(), final(self).cursor(), r) == mt_step(
                old(self).state(),
                old(self).cursor(),
            ),
    {
        if self.index >= MT_N {
            self.twist();
        }

        let mut y = self.mt[self.index];
        self.index = self.index + 1;

        y = y ^ (y >> 11);
        y = y ^ ((y << 7) & 0x9D2C5680);
        y = y ^ ((y << 15) & 0xEFC60000);
        y = y ^ (y >> 18);

        y
    }

    /// Extract the next 32-bit output (alias used by the packed-display
    /// runtime).
    pub fn next(&mut self) -> (r: u32)
        requires
            old(self).wf(),
        ensures
            final(self).wf(),
            (final(self).state(), final(self).cursor(), r) == mt_step(
                old(self).state(),
                old(self).cursor(),
            ),
    {
        self.get()
    }

    /// The next output reduced modulo `max`; `range(0)` returns 0 without
    /// consuming an output.
    pub fn range(&mut self, max: u32) -> (r: u32)
        requires
            old(self).wf(),
        ensures
            final(self).wf(),
            max == 0 ==> r == 0 && final(self).state() == old(self).state() && final(self).cursor()
                == old(self).cursor(),
            max != 0 ==> {
                let (st, idx, out) = mt_step(old(self).state(), old(self).cursor());
                final(self).state() == st && final(self).cursor() == idx && r == out as int % max
                    as int
            },
            max != 0 ==> r < max,
    {
        if max == 0 {
            return 0;
        }
        let v = self.get();
        v % max
    }
}

/// The generator is a pure function of its state: two generators holding
/// the same state and cursor produce the same output and move to the same
/// state, so the same seed and the same sequence of draws always reproduce
/// the same values.
pub proof fn lemma_prng_deterministic(s1: Seq<u32>, i1: int, s2: Seq<u32>, i2: int)
    requires
        s1 == s2,
        i1 == i2,
    ensures
        mt_step(s1, i1) == mt_step(s2, i2),
        forall|seed: u32| #![auto] mt_init(seed) == mt_init(seed),
{
}

} // verus!
