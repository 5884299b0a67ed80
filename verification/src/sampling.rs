use vstd::prelude::*;
use crate::math::{dot3, within, Vector3};

verus! {

/// Multiplier of the linear-congruential sample stream.
pub const STREAM_MUL: u64 = 6364136223846793005;

/// Increment of the linear-congruential sample stream.
pub const STREAM_ADD: u64 = 1442695040888963407;

/// How many candidate points the rejection sampler tries before giving up
/// and falling back to the center of the sphere.  The acceptance chance of a
/// single candidate is about one half, so the fallback is never expected.
pub const SAMPLE_RETRY_CAP: u64 = 64;

/// The state reached from `s` after one step of the congruential recurrence.
pub open spec fn stream_next(s: u64) -> u64 {
    vstd::wrapping::u64_specs::wrapping_add(
        vstd::wrapping::u64_specs::wrapping_mul(s, STREAM_MUL),
        STREAM_ADD,
    )
}

/// The unit-interval sample read off a state: its top sixteen bits, a
/// fixed-point value in `[0, 1)`.
pub open spec fn unit_of(s: u64) -> int {
    s as int / 0x1_0000_0000_0000
}

/// A deterministic pseudo-random sample stream, threaded explicitly through
/// every function that needs randomness; no hidden state anywhere.
#[derive(Debug, Clone, Copy, PartialEq, Eq, Structural)]
pub struct Prng {
    pub state: u64,
}

/// Relies on rand::random, which draws from the crate's operating-system
/// seeded thread-local generator.  Nothing can be promised of the value, so
/// everything proved of the stream holds for every seed.
#[verifier::external_body]
fn entropy_u64() -> u64 {
    rand::random::<u64>()
}

impl Prng {
    /// A stream starting from a chosen seed; the same seed always replays
    /// the same samples.
    pub fn new(seed: u64) -> (r: Prng)
        ensures
            r.state == seed,
    {
        Prng { state: seed }
    }

    /// A stream seeded from machine entropy.
    pub fn from_entropy() -> (r: Prng) {
        Prng { state: entropy_u64() }
    }

    /// The next fixed-point sample, in `[0, 1)`.
    pub fn next_unit(&mut self) -> (r: i64)
        ensures
            final(self).state == stream_next(old(self).state),
            r as int == unit_of(stream_next(old(self).state)),
            0 <= r < 65536,
    {
        self.state = self.state.wrapping_mul(STREAM_MUL).wrapping_add(STREAM_ADD);
        let top: u64 = self.state / 0x1_0000_0000_0000;
        top as i64
    }
}

/// One candidate point for the rejection sampler, from three fresh samples:
/// each coordinate is `2 u - 1`, landing in the cube `[-1, 1)^3`; paired with
/// the state after the three draws.
pub open spec fn candidate_point(s: u64) -> (Vector3, u64) {
    let s1 = stream_next(s);
    let s2 = stream_next(s1);
    let s3 = stream_next(s2);
    (
        Vector3 {
            x: (2 * unit_of(s1) - 65536) as i64,
            y: (2 * unit_of(s2) - 65536) as i64,
            z: (2 * unit_of(s3) - 65536) as i64,
        },
        s3,
    )
}

/// The rejection sampler as a function of the stream state: draw candidate
/// points until one falls strictly inside the unit sphere, for at most
/// `tries` rounds, then fall back to the center.
pub open spec fn unit_sphere_point(s: u64, tries: nat) -> (Vector3, u64)
    decreases tries,
{
    if tries == 0 {
        (Vector3 { x: 0, y: 0, z: 0 }, s)
    } else {
        let cand = candidate_point(s);
        if dot3(cand.0, cand.0) < 65536 {
            cand
        } else {
            unit_sphere_point(cand.1, (tries - 1) as nat)
        }
    }
}

/// A point drawn from the open unit ball by rejection sampling: candidates
/// are drawn uniformly from the surrounding cube and kept only when their
/// squared length is strictly below one, so the result never reaches the
/// unit surface.
pub fn get_random_in_unit_sphere(random_number_generator: &mut Prng) -> (p: Vector3)
    ensures
        (p, final(random_number_generator).state) == unit_sphere_point(
            old(random_number_generator).state,
            SAMPLE_RETRY_CAP as nat,
        ),
        dot3(p, p) < 65536,
        within(p, 65536),
{
    let mut tries_left: u64 = SAMPLE_RETRY_CAP;
    while tries_left > 0
        invariant
            tries_left <= SAMPLE_RETRY_CAP,
            unit_sphere_point(old(random_number_generator).state, SAMPLE_RETRY_CAP as nat)
                == unit_sphere_point(random_number_generator.state, tries_left as nat),
        decreases tries_left,
    {
        let u1: i64 = random_number_generator.next_unit();
        let u2: i64 = random_number_generator.next_unit();
        let u3: i64 = random_number_generator.next_unit();
        let random_point: Vector3 = Vector3::new(
            2 * u1 - 65536,
            2 * u2 - 65536,
            2 * u3 - 65536,
        );
        let sq: i64 = random_point.squared_length();
        if sq < 65536 {
            return random_point;
        }
        tries_left = tries_left - 1;
    }
    Vector3::new(0, 0, 0)
}

} // verus!
