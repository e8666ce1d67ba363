//! Deterministic pseudo-random bytes.
use vstd::prelude::*;

verus! {

/// One step of the xorshift generator.
pub open spec fn xorshift_step(x: u64) -> u64 {
    let a = x ^ (x << 13u64);
    let b = a ^ (a >> 7u64);
    b ^ (b << 17u64)
}

/// The generator's state after `n` steps.
pub open spec fn xorshift_state(seed: u64, n: nat) -> u64
    decreases n,
{
    if n == 0 {
        seed
    } else {
        xorshift_step(xorshift_state(seed, (n - 1) as nat))
    }
}

/// The state that a fill starts from: the generator never leaves zero, so zero is avoided.
pub open spec fn start_state(seed: u64) -> u64 {
    if seed == 0 {
        1
    } else {
        seed
    }
}

/// The `n` bytes that `seed` generates: the states in turn, each from its lowest byte up.
pub open spec fn xorshift_bytes(seed: u64, n: nat) -> Seq<u8> {
    Seq::new(
        n,
        |i: int|
            crate::observation::codec::le_bytes(
                xorshift_state(start_state(seed), (i / 8 + 1) as nat) as nat,
                8,
            )[i % 8],
    )
}

/// Steps the generator and returns the new state.
pub fn xorshift64(state: &mut u64) -> (x: u64)
    ensures
        x == xorshift_step(*old(state)),
        *final(state) == x,
{
    let mut x = *state;
    x = x ^ (x << 13u64);
    x = x ^ (x >> 7u64);
    x = x ^ (x << 17u64);
    *state = x;
    x
}

/// Fills `buf` with the bytes that `seed` generates.
pub fn fill_xorshift(buf: &mut [u8], seed: u64)
    ensures
        final(buf)@ == xorshift_bytes(seed, old(buf)@.len()),
{
    let mut state = if seed == 0 {
        1
    } else {
        seed
    };
    let n = buf.len();
    let mut i: usize = 0;
    let mut word: u64 = 0;
    while i < n
        invariant
            n == buf@.len(),
            n == old(buf)@.len(),
            i <= n,
            i % 8 == 0 ==> state == xorshift_state(start_state(seed), (i / 8) as nat),
            i % 8 != 0 ==> state == xorshift_state(start_state(seed), (i / 8 + 1) as nat),
            i % 8 != 0 ==> word as nat == crate::observation::codec::le_rest(state as nat, (i % 8) as nat),
            forall|j: int| 0 <= j < i ==> buf@[j] == xorshift_bytes(seed, n as nat)[j],
        decreases n - i,
    {
        if i % 8 == 0 {
            word = xorshift64(&mut state);
        }
        proof {
            crate::observation::codec::lemma_le_bytes_at(state as nat, 8, (i % 8) as nat);
        }
        buf[i] = (word % 256) as u8;
        word = word / 256;
        i = i + 1;
    }
    assert(buf@ =~= xorshift_bytes(seed, n as nat));
}

/// The generator never reaches zero from another state, so its bytes never die out.
pub proof fn xorshift_keeps_nonzero(x: u64)
    requires
        x != 0,
    ensures
        xorshift_step(x) != 0,
{
    let a = x ^ (x << 13u64);
    let b = a ^ (a >> 7u64);
    assert(a != 0) by (bit_vector)
        requires
            x != 0,
            a == x ^ (x << 13u64),
    ;
    assert(b != 0) by (bit_vector)
        requires
            a != 0,
            b == a ^ (a >> 7u64),
    ;
    assert(b ^ (b << 17u64) != 0) by (bit_vector)
        requires
            b != 0,
    ;
}

/// A shorter fill from the same seed is the beginning of a longer one.
pub proof fn fills_share_prefixes(seed: u64, m: nat, n: nat)
    requires
        m <= n,
    ensures
        xorshift_bytes(seed, m) == xorshift_bytes(seed, n).take(m as int),
{
    assert(xorshift_bytes(seed, m) =~= xorshift_bytes(seed, n).take(m as int));
}

/// A step is three shifts, by 13 up, 7 down and 17 up, each mixed in: so the step of two states
/// mixed is their steps mixed.
pub proof fn xorshift_steps_mix(x: u64, y: u64)
    ensures
        xorshift_step(x ^ y) == xorshift_step(x) ^ xorshift_step(y),
        ({
            let a = x ^ (x << 13u64);
            let b = a ^ (a >> 7u64);
            xorshift_step(x) == b ^ (b << 17u64)
        }),
{
    let z = x ^ y;
    let (a, b, c) = (x ^ (x << 13u64), y ^ (y << 13u64), z ^ (z << 13u64));
    assert(c == a ^ b) by (bit_vector)
        requires
            z == x ^ y,
            a == x ^ (x << 13u64),
            b == y ^ (y << 13u64),
            c == z ^ (z << 13u64),
    ;
    let (d, e, f) = (a ^ (a >> 7u64), b ^ (b >> 7u64), c ^ (c >> 7u64));
    assert(f == d ^ e) by (bit_vector)
        requires
            c == a ^ b,
            d == a ^ (a >> 7u64),
            e == b ^ (b >> 7u64),
            f == c ^ (c >> 7u64),
    ;
    assert(f ^ (f << 17u64) == (d ^ (d << 17u64)) ^ (e ^ (e << 17u64))) by (bit_vector)
        requires
            f == d ^ e,
    ;
}

/// Each eight bytes of a fill are one state of the generator, from its lowest byte up: the first
/// eight the first step from the seed.  A seed of zero counts as one.
pub proof fn fills_are_the_states_in_turn(seed: u64, n: nat, i: int)
    requires
        seed != 0,
        0 <= i < n,
    ensures
        xorshift_bytes(seed, n).len() == n,
        i < 8 ==> xorshift_bytes(seed, n)[i] == crate::observation::codec::le_bytes(
            xorshift_step(seed) as nat,
            8,
        )[i],
        i >= 8 ==> xorshift_bytes(seed, n)[i] == xorshift_bytes(xorshift_step(seed), n)[i - 8],
        xorshift_bytes(0, n) == xorshift_bytes(1, n),
{
    xorshift_keeps_nonzero(seed);
    reveal_with_fuel(xorshift_state, 2);
    if i >= 8 {
        lemma_state_from_next(seed, (i / 8) as nat);
        assert((i - 8) / 8 == i / 8 - 1 && (i - 8) % 8 == i % 8);
    }
    assert(xorshift_bytes(0, n) =~= xorshift_bytes(1, n));
}

proof fn lemma_state_from_next(seed: u64, n: nat)
    ensures
        xorshift_state(seed, n + 1) == xorshift_state(xorshift_step(seed), n),
    decreases n,
{
    reveal_with_fuel(xorshift_state, 2);
    if n > 0 {
        lemma_state_from_next(seed, (n - 1) as nat);
    }
}

} // verus!
