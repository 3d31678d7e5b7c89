//! The random source: a stream of 64-bit draws addressed by a seed and a
//! position, so that every draw is a function of the two.

use vstd::prelude::*;

verus! {

/// Length in bytes of the key handed to the ChaCha generator.
pub const KEY_LEN: usize = 32;

/// The first 64-bit word that proptest's ChaCha generator yields for a 32-byte key.
pub uninterp spec fn chacha_first_word(key: Seq<u8>) -> u64;

/// Byte `i` (little end first) of a 64-bit word.
pub open spec fn byte_at(word: u64, i: int) -> u8 {
    ((word >> ((8 * i) as u64)) & 0xff) as u8
}

/// The key of the draw at `position` of the stream of `seed`: the seed's eight
/// bytes, the position's eight bytes, then sixteen zero bytes.
pub open spec fn key_of(seed: u64, position: u64) -> Seq<u8> {
    Seq::new(
        32,
        |i: int|
            if i < 8 {
                byte_at(seed, i)
            } else if i < 16 {
                byte_at(position, i - 8)
            } else {
                0u8
            },
    )
}

/// The draw at `position` of the stream of `seed`.
pub open spec fn draw_at(seed: u64, position: u64) -> u64 {
    chacha_first_word(key_of(seed, position))
}

/// The position after `position`; the stream wraps round at the end.
pub open spec fn next_position(position: u64) -> u64 {
    if position == u64::MAX {
        0
    } else {
        (position + 1) as u64
    }
}

/// Calls `proptest::test_runner::TestRng::from_seed` with the ChaCha algorithm
/// and then `next_u64` once. The generator is deterministic in its key, so the
/// word is named as a function of the key; nothing else is claimed of it.
/// `from_seed` panics on a key that is not 32 bytes long.
#[verifier::external_body]
fn first_word(key: &Vec<u8>) -> (word: u64)
    requires
        key@.len() == 32,
    ensures
        word == chacha_first_word(key@),
{
    let mut rng = proptest::test_runner::TestRng::from_seed(
        proptest::test_runner::RngAlgorithm::ChaCha,
        key.as_slice(),
    );
    proptest::prelude::Rng::next_u64(&mut rng)
}

/// Calls `proptest::test_runner::TestRunner::new` on proptest's default
/// configuration with the algorithm set to ChaCha, and draws one word from
/// the runner's generator. The generator is seeded from the system's entropy
/// unless the environment fixes a seed, so nothing is claimed of the word.
/// With the algorithm set, the one arm of the runner's construction that
/// panics cannot be reached.
#[verifier::external_body]
fn entropy_word() -> (word: u64) {
    let mut config = proptest::test_runner::Config::default();
    config.rng_algorithm = proptest::test_runner::RngAlgorithm::ChaCha;
    let mut runner = proptest::test_runner::TestRunner::new(config);
    proptest::prelude::Rng::next_u64(runner.rng())
}

fn push_word(key: &mut Vec<u8>, word: u64)
    ensures
        final(key)@ == old(key)@ + Seq::new(8, |i: int| byte_at(word, i)),
{
    let ghost before = key@;
    let mut i: u64 = 0;
    while i < 8
        invariant
            i <= 8,
            key@.len() == before.len() + i,
            forall|j: int| 0 <= j < before.len() ==> key@[j] == before[j],
            forall|j: int| 0 <= j < i ==> key@[before.len() + j] == byte_at(word, j),
        decreases 8 - i,
    {
        let b: u8 = ((word >> (8 * i)) & 0xff) as u8;
        key.push(b);
        i = i + 1;
    }
    assert(key@ =~= before + Seq::new(8, |i: int| byte_at(word, i)));
}

/// A seeded stream of draws and the position of the next one.
#[derive(Clone, Copy, Debug, PartialEq, Eq)]
pub struct RandomSource {
    pub seed: u64,
    pub position: u64,
}

impl RandomSource {
    /// The source at the start of the stream of `seed`.
    pub fn seeded(seed: u64) -> (source: Self)
        ensures
            source.seed == seed,
            source.position == 0,
    {
        RandomSource { seed, position: 0 }
    }

    /// A source whose seed comes from the system's entropy.
    pub fn from_entropy() -> (source: Self)
        ensures
            source.position == 0,
    {
        RandomSource { seed: entropy_word(), position: 0 }
    }

    /// The draw that the source yields next.
    pub open spec fn peek(&self) -> u64 {
        draw_at(self.seed, self.position)
    }

    /// The source after `n` draws.
    pub open spec fn advanced(&self, n: nat) -> RandomSource
        decreases n,
    {
        if n == 0 {
            *self
        } else {
            RandomSource { seed: self.seed, position: next_position(self.position) }.advanced(
                (n - 1) as nat,
            )
        }
    }

    /// Takes the next draw.
    pub fn next_u64(&mut self) -> (draw: u64)
        ensures
            draw == old(self).peek(),
            *final(self) == old(self).advanced(1),
            final(self).seed == old(self).seed,
            final(self).position == next_position(old(self).position),
    {
        let mut key: Vec<u8> = Vec::new();
        push_word(&mut key, self.seed);
        push_word(&mut key, self.position);
        let mut i: usize = 0;
        while i < 16
            invariant
                i <= 16,
                key@.len() == 16 + i,
                forall|j: int| 0 <= j < 8 ==> key@[j] == byte_at(self.seed, j),
                forall|j: int| 8 <= j < 16 ==> key@[j] == byte_at(self.position, j - 8),
                forall|j: int| 16 <= j < 16 + i ==> key@[j] == 0u8,
            decreases 16 - i,
        {
            key.push(0u8);
            i = i + 1;
        }
        assert(key@ =~= key_of(self.seed, self.position));
        let draw = first_word(&key);
        self.position = if self.position == u64::MAX {
            0
        } else {
            self.position + 1
        };
        proof {
            reveal_with_fuel(RandomSource::advanced, 2);
        }
        draw
    }

    /// A value in `[0, n)`: the next draw reduced modulo `n`.
    pub fn below(&mut self, n: u64) -> (value: u64)
        requires
            n > 0,
        ensures
            value == old(self).peek() % n,
            value < n,
            *final(self) == old(self).advanced(1),
            final(self).seed == old(self).seed,
            final(self).position == next_position(old(self).position),
    {
        let draw = self.next_u64();
        draw % n
    }

    /// A value in `[low, high]`, both ends included.
    pub fn between(&mut self, low: u64, high: u64) -> (value: u64)
        requires
            low <= high,
        ensures
            value == pick_between(old(self).peek(), low, high),
            low <= value <= high,
            *final(self) == old(self).advanced(1),
            final(self).seed == old(self).seed,
            final(self).position == next_position(old(self).position),
    {
        let draw = self.next_u64();
        let span: u64 = high - low;
        if span == u64::MAX {
            draw
        } else {
            low + draw % (span + 1)
        }
    }

    /// A decision that holds for `percent` of a hundred draws.
    pub fn chance(&mut self, percent: u8) -> (hit: bool)
        ensures
            hit == (old(self).peek() % 100 < percent),
            *final(self) == old(self).advanced(1),
            final(self).seed == old(self).seed,
            final(self).position == next_position(old(self).position),
    {
        let draw = self.next_u64();
        draw % 100 < percent as u64
    }
}

/// The value in `[low, high]` that a draw selects.
pub open spec fn pick_between(draw: u64, low: u64, high: u64) -> u64 {
    if high - low == u64::MAX {
        draw
    } else {
        (low + draw % ((high - low + 1) as u64)) as u64
    }
}

/// Both ends of a range are picked: the draw 0 picks the low end, and the
/// draw `high - low` picks the high end.
pub proof fn lemma_both_ends_are_picked(low: u64, high: u64)
    requires
        low <= high,
    ensures
        pick_between(0, low, high) == low,
        pick_between((high - low) as u64, low, high) == high,
{
    let span = (high - low) as int;
    assert(span % (span + 1) == span) by (nonlinear_arith)
        requires
            0 <= span,
    ;
}

/// A presence of more than none and less than all in a hundred turns out
/// both ways: the draw 0 decides for presence, the draw 99 against it.
pub proof fn lemma_presence_turns_out_both_ways(percent: u8)
    requires
        0 < percent < 100,
    ensures
        0u64 % 100 < percent,
        !(99u64 % 100 < percent),
{
}

/// Advancing by `a` and then by `b` draws is advancing by `a + b`.
pub proof fn lemma_advanced_add(source: RandomSource, a: nat, b: nat)
    ensures
        source.advanced(a).advanced(b) == source.advanced(a + b),
        source.advanced(a).seed == source.seed,
    decreases a,
{
    if a > 0 {
        lemma_advanced_add(
            RandomSource { seed: source.seed, position: next_position(source.position) },
            (a - 1) as nat,
            b,
        );
    }
}

} // verus!
