//! Fast pseudo-random utilities for simulation.
//!
//! This module implements xorshift64* for deterministic and lightweight random
//! generation in sampling code. It is suitable for gameplay simulation, not
//! for cryptographic use.
use vstd::prelude::*;

verus! {

/// Seed used in place of zero, which would be an absorbing state.
pub const ZERO_SEED_REPLACEMENT: u64 = 0x9E37_79B9_7F4A_7C15;

/// Multiplier applied to the state to produce each output.
pub const OUTPUT_MULTIPLIER: u64 = 0x2545_F491_4F6C_DD1D;

/// One xorshift step of the generator state.
pub open spec fn xorshift(s: u64) -> u64 {
    let a = s ^ (s >> 12u64);
    let b = a ^ (a << 25u64);
    b ^ (b >> 27u64)
}

/// The output produced from a freshly advanced state.
pub open spec fn scramble(s: u64) -> u64 {
    vstd::wrapping::u64_specs::wrapping_mul(s, OUTPUT_MULTIPLIER)
}

/// The state a seed is turned into.
pub open spec fn seed_state(seed: u64) -> u64 {
    if seed == 0 {
        ZERO_SEED_REPLACEMENT
    } else {
        seed
    }
}

/// New state and value of a draw below `upper`: no state change and `0`
/// when `upper <= 1`, otherwise one step reduced modulo `upper`.
pub open spec fn below_step(s: u64, upper: nat) -> (u64, nat) {
    if upper <= 1 {
        (s, 0nat)
    } else {
        (xorshift(s), (scramble(xorshift(s)) as nat) % upper)
    }
}

/// The sequence with the elements at `i` and `j` exchanged.
pub open spec fn swap_seq<T>(s: Seq<T>, i: int, j: int) -> Seq<T> {
    s.update(i, s[j]).update(j, s[i])
}

/// Fisher-Yates passes for positions `i` down to 1.
pub open spec fn fisher_yates<T>(state: u64, s: Seq<T>, i: nat) -> (u64, Seq<T>)
    decreases i,
{
    if i == 0 {
        (state, s)
    } else {
        let (st, j) = below_step(state, i + 1);
        fisher_yates(st, swap_seq(s, i as int, j as int), (i - 1) as nat)
    }
}

/// Final state and order of an in-place shuffle.
pub open spec fn shuffled<T>(state: u64, s: Seq<T>) -> (u64, Seq<T>) {
    if s.len() < 2 {
        (state, s)
    } else {
        fisher_yates(state, s, (s.len() - 1) as nat)
    }
}

/// Fast xorshift64* random number generator.
///
/// The internal state stays non-zero; `new(0)` is remapped to a fixed
/// non-zero seed to avoid the all-zero absorbing state.
#[derive(Debug)]
pub struct FastRng {
    state: u64,
}

impl Clone for FastRng {
    fn clone(&self) -> (r: Self)
        ensures
            r@ == self@,
    {
        proof {
            use_type_invariant(self);
        }
        FastRng { state: self.state }
    }
}

impl View for FastRng {
    type V = u64;

    closed spec fn view(&self) -> u64 {
        self.state
    }
}

/// A non-zero state stays non-zero under a step.
proof fn lemma_xorshift_nonzero(s: u64)
    requires
        s != 0,
    ensures
        xorshift(s) != 0,
{
    let a = s ^ (s >> 12u64);
    assert(s != 0 ==> s ^ (s >> 12u64) != 0) by (bit_vector);
    let b = a ^ (a << 25u64);
    assert(a != 0 ==> a ^ (a << 25u64) != 0) by (bit_vector);
    assert(b != 0 ==> b ^ (b >> 27u64) != 0) by (bit_vector);
}

/// The output multiplier is odd, so multiplying by it is one-to-one
/// modulo 2^64: distinct states give distinct outputs.
proof fn lemma_scramble_injective(a: u64, b: u64)
    requires
        scramble(a) == scramble(b),
    ensures
        a == b,
{
    let r: int = 0x1_0000_0000_0000_0000;
    let k: int = 0x2545_F491_4F6C_DD1D;
    let inv: int = 0x5907_1D96_D81E_CD35;
    let c: int = 0x0CF6_5B3F_17BF_4A6B;
    let x: int = a as int * k;
    let y: int = b as int * k;
    assert(scramble(a) as int == x % r);
    assert(scramble(b) as int == y % r);
    vstd::arithmetic::div_mod::lemma_fundamental_div_mod(x, r);
    vstd::arithmetic::div_mod::lemma_fundamental_div_mod(y, r);
    let qa = x / r;
    let qb = y / r;
    let d: int = a as int - b as int;
    assert(d * k == r * (qa - qb)) by (nonlinear_arith)
        requires
            x == r * qa + x % r,
            y == r * qb + y % r,
            x % r == y % r,
            x == a as int * k,
            y == b as int * k,
            d == a as int - b as int,
    ;
    assert(k * inv == 1 + c * r);
    let t: int = (qa - qb) * inv - d * c;
    assert(d == r * t) by (nonlinear_arith)
        requires
            d * k == r * (qa - qb),
            k * inv == 1 + c * r,
            t == (qa - qb) * inv - d * c,
    ;
    assert(d == 0) by (nonlinear_arith)
        requires
            d == r * t,
            -r < d < r,
            r > 0,
    ;
}

/// A xorshift step is one-to-one: distinct states step to distinct states.
proof fn lemma_xorshift_injective(x: u64, y: u64)
    requires
        xorshift(x) == xorshift(y),
    ensures
        x == y,
{
    let a1 = x ^ (x >> 12u64);
    let a2 = y ^ (y >> 12u64);
    let b1 = a1 ^ (a1 << 25u64);
    let b2 = a2 ^ (a2 << 25u64);
    assert(b1 ^ (b1 >> 27u64) == b2 ^ (b2 >> 27u64) ==> b1 == b2) by (bit_vector);
    assert(a1 ^ (a1 << 25u64) == a2 ^ (a2 << 25u64) ==> a1 == a2) by (bit_vector);
    assert(x ^ (x >> 12u64) == y ^ (y >> 12u64) ==> x == y) by (bit_vector);
}

/// A non-zero state gives a non-zero output.
proof fn lemma_scramble_nonzero(s: u64)
    requires
        s != 0,
    ensures
        scramble(s) != 0,
{
    assert(scramble(0) == 0);
    if scramble(s) == 0 {
        lemma_scramble_injective(s, 0);
    }
}

/// Seeding is faithful: a zero seed behaves exactly like the replacement
/// seed, and two seeds that give different states — in particular two
/// distinct non-zero seeds — give different first outputs.
pub proof fn lemma_seeds_distinguish_first_output(s1: u64, s2: u64)
    ensures
        seed_state(0) == seed_state(ZERO_SEED_REPLACEMENT),
        seed_state(s1) != seed_state(s2) ==> scramble(xorshift(seed_state(s1))) != scramble(
            xorshift(seed_state(s2)),
        ),
        s1 != 0 && s2 != 0 && s1 != s2 ==> scramble(xorshift(seed_state(s1))) != scramble(
            xorshift(seed_state(s2)),
        ),
{
    if scramble(xorshift(seed_state(s1))) == scramble(xorshift(seed_state(s2))) {
        lemma_scramble_injective(xorshift(seed_state(s1)), xorshift(seed_state(s2)));
        lemma_xorshift_injective(seed_state(s1), seed_state(s2));
    }
}

/// Every output of a generator is non-zero: its state is never zero and
/// the odd output multiplier maps a non-zero state to a non-zero value.
pub proof fn lemma_output_nonzero(state: u64)
    requires
        state != 0,
    ensures
        xorshift(state) != 0,
        scramble(xorshift(state)) != 0,
{
    lemma_xorshift_nonzero(state);
    lemma_scramble_nonzero(xorshift(state));
}

impl FastRng {
    /// The state is never zero.
    #[verifier::type_invariant]
    spec fn nonzero(self) -> bool {
        self.state != 0
    }

    /// Creates a new generator from a seed; a zero seed is replaced by a
    /// fixed non-zero value to keep the generator valid.
    pub fn new(seed: u64) -> (rng: Self)
        ensures
            rng@ == seed_state(seed),
            rng@ != 0,
    {
        let state = if seed == 0 {
            ZERO_SEED_REPLACEMENT
        } else {
            seed
        };
        FastRng { state }
    }

    /// Produces the next 64-bit pseudo-random value.
    pub fn next_u64(&mut self) -> (r: u64)
        ensures
            final(self)@ == xorshift(old(self)@),
            r == scramble(final(self)@),
            final(self)@ != 0,
            r != 0,
    {
        proof {
            use_type_invariant(&*self);
            lemma_output_nonzero(self.state);
        }
        let s = self.state;
        let a = s ^ (s >> 12u64);
        let b = a ^ (a << 25u64);
        let c = b ^ (b >> 27u64);
        self.state = c;
        c.wrapping_mul(OUTPUT_MULTIPLIER)
    }

    /// Samples a value in `[0, upper_exclusive)`; returns `0`, without
    /// advancing, when `upper_exclusive <= 1`.
    pub fn gen_below(&mut self, upper_exclusive: usize) -> (r: usize)
        ensures
            (final(self)@, r as nat) == below_step(old(self)@, upper_exclusive as nat),
            upper_exclusive <= 1 ==> r == 0,
            upper_exclusive > 1 ==> r < upper_exclusive,
            final(self)@ != 0,
    {
        proof {
            use_type_invariant(&*self);
        }
        if upper_exclusive <= 1 {
            return 0;
        }
        let upper_u64 = upper_exclusive as u64;
        let value_u64 = self.next_u64() % upper_u64;
        value_u64 as usize
    }

    /// In-place Fisher-Yates shuffle: for `i` from the last position down
    /// to 1, swaps position `i` with a position drawn below `i + 1`.
    pub fn shuffle<T>(&mut self, items: &mut [T])
        ensures
            (final(self)@, final(items)@) == shuffled(old(self)@, old(items)@),
            final(items)@.len() == old(items)@.len(),
            final(items)@.to_multiset() == old(items)@.to_multiset(),
            final(self)@ != 0,
    {
        proof {
            lemma_shuffled_permutes(old(self)@, old(items)@);
            use_type_invariant(&*self);
        }
        if items.len() < 2 {
            return;
        }
        let mut i = items.len() - 1;
        while i > 0
            invariant
                0 <= i < items@.len(),
                i < items.len(),
                items@.len() == old(items)@.len(),
                fisher_yates(self@, items@, i as nat) == shuffled(old(self)@, old(items)@),
                self@ != 0,
            decreases i,
        {
            let j = self.gen_below(i + 1);
            swap_items(items, i, j);
            i -= 1;
        }
    }
}

/// Exchanges two elements of a slice.
///
/// Calls `<[T]>::swap`, which std documents as swapping the two elements
/// and panicking when either index is out of bounds.
#[verifier::external_body]
fn swap_items<T>(items: &mut [T], a: usize, b: usize)
    requires
        a < old(items)@.len(),
        b < old(items)@.len(),
    ensures
        final(items)@ == swap_seq(old(items)@, a as int, b as int),
{
    items.swap(a, b);
}

/// A swap keeps the elements, with their multiplicities.
pub proof fn lemma_swap_permutes<T>(s: Seq<T>, i: int, j: int)
    requires
        0 <= i < s.len(),
        0 <= j < s.len(),
    ensures
        swap_seq(s, i, j).len() == s.len(),
        swap_seq(s, i, j).to_multiset() == s.to_multiset(),
{
    broadcast use vstd::seq_lib::to_multiset_update;
    broadcast use vstd::seq_lib::to_multiset_contains;
    broadcast use vstd::multiset::group_multiset_properties;
    broadcast use vstd::multiset::group_multiset_axioms;

    assert(s.to_multiset().contains(s[i]));
    assert(s.to_multiset().contains(s[j]));
    let t = s.update(i, s[j]);
    assert(t[j] == s[j]);
    assert(t.to_multiset() == s.to_multiset().insert(s[j]).remove(s[i]));
    assert(t.update(j, s[i]).to_multiset() == t.to_multiset().insert(s[i]).remove(s[j]));
    assert(s.to_multiset().insert(s[j]).remove(s[i]).insert(s[i]).remove(s[j]) =~= s.to_multiset());
}

/// Fisher-Yates passes keep the elements, with their multiplicities.
pub proof fn lemma_fisher_yates_permutes<T>(state: u64, s: Seq<T>, i: nat)
    requires
        i < s.len(),
    ensures
        fisher_yates(state, s, i).1.len() == s.len(),
        fisher_yates(state, s, i).1.to_multiset() == s.to_multiset(),
    decreases i,
{
    if i > 0 {
        let (st, j) = below_step(state, i + 1);
        lemma_swap_permutes(s, i as int, j as int);
        lemma_fisher_yates_permutes(st, swap_seq(s, i as int, j as int), (i - 1) as nat);
    }
}

/// A shuffle is a permutation: same length, same elements with the same
/// multiplicities.
pub proof fn lemma_shuffled_permutes<T>(state: u64, s: Seq<T>)
    ensures
        shuffled(state, s).1.len() == s.len(),
        shuffled(state, s).1.to_multiset() == s.to_multiset(),
{
    if s.len() >= 2 {
        lemma_fisher_yates_permutes(state, s, (s.len() - 1) as nat);
    }
}

} // verus!
