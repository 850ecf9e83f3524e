//! MINSTD Park-Miller PRNG for deterministic game simulation.
//!
//! This implements the revised MINSTD algorithm (Park & Miller, 1993) using
//! multiplier 48271 and modulus 2^31 - 1, the same algorithm as C++11's
//! `std::minstd_rand`. Per-turn seeding uses splitmix64 to derive independent
//! seeds from a game seed and a turn number.

use vstd::prelude::*;

verus! {

/// The MINSTD multiplier.
pub const MINSTD_A: u64 = 48271;

/// The MINSTD modulus, 2^31 - 1 (a prime).
pub const MINSTD_M: u64 = 2_147_483_647;

/// Golden-ratio increment added before the splitmix64 finalizer.
pub const SPLITMIX64_GOLDEN: u64 = 0x9e37_79b9_7f4a_7c15;

/// One step of the MINSTD recurrence: `s * 48271 mod (2^31 - 1)`.
pub open spec fn minstd_step(s: nat) -> nat {
    (s * MINSTD_A as nat) % (MINSTD_M as nat)
}

/// The state reached after `k` steps from `s`.
pub open spec fn minstd_advance(s: nat, k: nat) -> nat
    decreases k,
{
    if k == 0 {
        s
    } else {
        minstd_step(minstd_advance(s, (k - 1) as nat))
    }
}

/// `seed` reinterpreted as an unsigned 64-bit value (two's complement).
pub open spec fn seed_bits(seed: i64) -> int {
    if seed >= 0 {
        seed as int
    } else {
        seed + 0x1_0000_0000_0000_0000
    }
}

/// The initial state for a seed: the seed's bits reduced modulo `2^31 - 2`,
/// with 0 (absorbing under the recurrence) replaced by 1.
pub open spec fn seed_state(seed: i64) -> nat {
    let s = seed_bits(seed) % (MINSTD_M - 1) as int;
    if s == 0 {
        1
    } else {
        s as nat
    }
}

/// A state the generator can be in: `1 <= s <= 2^31 - 2`.
pub open spec fn valid_state(s: nat) -> bool {
    1 <= s < MINSTD_M
}

/// Because 48271 is invertible modulo the prime 2^31 - 1 (its inverse is
/// 1899818559, with 48271 * 1899818559 = 1 + 42704 * (2^31 - 1)), a nonzero
/// residue never steps to zero.
proof fn lemma_step_nonzero(s: int)
    requires
        0 < s < MINSTD_M,
    ensures
        (s * MINSTD_A) % (MINSTD_M as int) != 0,
{
    let m = MINSTD_M as int;
    let p = s * 48271;
    vstd::arithmetic::div_mod::lemma_fundamental_div_mod(p, m);
    let q = p / m;
    if p % m == 0 {
        assert(p == m * q);
        assert(s == m * (1899818559 * q - 42704 * s));
    }
}

/// Every step of the recurrence keeps the state valid.
pub proof fn lemma_step_valid(s: nat)
    requires
        valid_state(s),
    ensures
        valid_state(minstd_step(s)),
{
    lemma_step_nonzero(s as int);
}

/// Every state reachable from a valid state is valid.
pub proof fn lemma_advance_valid(s: nat, k: nat)
    requires
        valid_state(s),
    ensures
        valid_state(minstd_advance(s, k)),
    decreases k,
{
    if k > 0 {
        lemma_advance_valid(s, (k - 1) as nat);
        lemma_step_valid(minstd_advance(s, (k - 1) as nat));
    }
}

/// A MINSTD Park-Miller PRNG instance.
///
/// The state always lies in `[1, 2^31 - 2]`, and the algorithm is
/// `state(n+1) = (state(n) * 48271) mod (2^31 - 1)`.
#[derive(Debug, Copy, Clone, PartialEq, Eq)]
pub struct MinstdRand {
    state: u64,
}

impl View for MinstdRand {
    type V = nat;

    closed spec fn view(&self) -> nat {
        self.state as nat
    }
}

impl MinstdRand {
    #[verifier::type_invariant]
    spec fn inv(self) -> bool {
        valid_state(self.state as nat)
    }

    /// Create a new MINSTD PRNG from a seed.
    ///
    /// The seed is mapped to the valid range `[1, 2^31 - 2]`. A seed of 0
    /// maps to 1 (state 0 is absorbing under the MINSTD recurrence).
    pub fn new(seed: i64) -> (r: Self)
        ensures
            r@ == seed_state(seed),
            valid_state(r@),
    {
        let mut s = (seed as u64) % (MINSTD_M - 1);
        proof {
            if seed < 0 {
                assert((seed as u64) as int == seed + 0x1_0000_0000_0000_0000) by (bit_vector)
                    requires
                        seed < 0,
                ;
            }
        }
        if s == 0 {
            s = 1;
        }
        MinstdRand { state: s }
    }

    /// The current state of the generator.
    pub fn state(&self) -> (r: u64)
        ensures
            r == self@,
            valid_state(self@),
    {
        proof {
            use_type_invariant(self);
        }
        self.state
    }

    /// Advance the PRNG state and return the new value.
    pub fn next(&mut self) -> (r: u64)
        ensures
            final(self)@ == minstd_step(old(self)@),
            r == final(self)@,
            valid_state(final(self)@),
    {
        proof {
            use_type_invariant(&*self);
            lemma_step_nonzero(self.state as int);
        }
        self.state = (self.state * MINSTD_A) % MINSTD_M;
        self.state
    }
}


/// The value returned by `intn(n)` from state `s`.
pub open spec fn intn_result(s: nat, n: nat) -> nat {
    minstd_step(s) % n
}

/// `s` with the elements at `i` and `j` exchanged.
pub open spec fn swap_seq<T>(s: Seq<T>, i: int, j: int) -> Seq<T> {
    s.update(i, s[j]).update(j, s[i])
}

/// Fisher-Yates rounds for positions `i, i-1, ..., 1`: at position `k` the
/// generator steps once and position `k` is exchanged with the position
/// `step % (k + 1)`. Yields the final state and the final sequence.
pub open spec fn fisher_yates<T>(state: nat, s: Seq<T>, i: nat) -> (nat, Seq<T>)
    decreases i,
{
    if i == 0 {
        (state, s)
    } else {
        let st = minstd_step(state);
        let j = st % (i + 1);
        fisher_yates(st, swap_seq(s, i as int, j as int), (i - 1) as nat)
    }
}

/// The state and sequence after a full Fisher-Yates shuffle of `s`.
pub open spec fn shuffled<T>(state: nat, s: Seq<T>) -> (nat, Seq<T>) {
    if s.len() == 0 {
        (state, s)
    } else {
        fisher_yates(state, s, (s.len() - 1) as nat)
    }
}

/// Exchanging two elements keeps the elements and their counts.
pub proof fn lemma_swap_to_multiset<T>(s: Seq<T>, i: int, j: int)
    requires
        0 <= i < s.len(),
        0 <= j < s.len(),
    ensures
        swap_seq(s, i, j).len() == s.len(),
        swap_seq(s, i, j).to_multiset() =~= s.to_multiset(),
{
    broadcast use vstd::seq_lib::to_multiset_update, vstd::seq_lib::to_multiset_contains,
        vstd::multiset::group_multiset_axioms;

    if i == j {
        assert(swap_seq(s, i, j) =~= s);
    } else {
        let m = s.to_multiset();
        let s1 = s.update(i, s[j]);
        assert(s.contains(s[i]));
        assert(s1[j] == s[j]);
        assert(m.insert(s[j]).remove(s[i]).insert(s[i]).remove(s[j]) =~= m);
    }
}

/// Fisher-Yates rounds permute the sequence and advance the generator once
/// per round.
pub proof fn lemma_fisher_yates_permutes<T>(state: nat, s: Seq<T>, i: nat)
    requires
        i < s.len(),
    ensures
        fisher_yates(state, s, i).1.len() == s.len(),
        fisher_yates(state, s, i).1.to_multiset() =~= s.to_multiset(),
        fisher_yates(state, s, i).0 == minstd_advance(state, i),
    decreases i,
{
    if i > 0 {
        let st = minstd_step(state);
        let j = st % (i + 1);
        lemma_swap_to_multiset(s, i as int, j as int);
        lemma_fisher_yates_permutes(st, swap_seq(s, i as int, j as int), (i - 1) as nat);
        lemma_advance_first(state, i);
    }
}

/// Stepping first and then advancing `k - 1` times is advancing `k` times.
pub proof fn lemma_advance_first(s: nat, k: nat)
    requires
        k > 0,
    ensures
        minstd_advance(minstd_step(s), (k - 1) as nat) == minstd_advance(s, k),
    decreases k,
{
    if k > 1 {
        lemma_advance_first(s, (k - 1) as nat);
        assert(minstd_advance(minstd_step(s), (k - 1) as nat) == minstd_step(
            minstd_advance(minstd_step(s), (k - 2) as nat),
        ));
    } else {
        assert(minstd_advance(s, 1) == minstd_step(minstd_advance(s, 0)));
    }
}

/// A shuffle is a permutation: the same elements, each as often as before,
/// and the generator advances once for every position after the first.
pub proof fn lemma_shuffle_permutes<T>(state: nat, s: Seq<T>)
    ensures
        shuffled(state, s).1.len() == s.len(),
        shuffled(state, s).1.to_multiset() =~= s.to_multiset(),
        s.len() > 0 ==> shuffled(state, s).0 == minstd_advance(state, (s.len() - 1) as nat),
        s.len() == 0 ==> shuffled(state, s).0 == state,
{
    if s.len() > 0 {
        lemma_fisher_yates_permutes(state, s, (s.len() - 1) as nat);
    }
}

/// A shuffle of a sequence without repeated elements has none either, and
/// holds exactly the elements of the original.
pub proof fn lemma_shuffle_keeps_distinct<T>(state: nat, s: Seq<T>)
    ensures
        forall|x: T| shuffled(state, s).1.contains(x) <==> s.contains(x),
        s.no_duplicates() ==> shuffled(state, s).1.no_duplicates(),
{
    broadcast use vstd::seq_lib::to_multiset_contains;

    lemma_shuffle_permutes(state, s);
    let t = shuffled(state, s).1;
    assert forall|x: T| t.contains(x) <==> s.contains(x) by {
        assert(t.to_multiset().count(x) == s.to_multiset().count(x));
    }
    if s.no_duplicates() {
        s.lemma_multiset_has_no_duplicates();
        t.lemma_multiset_has_no_duplicates_conv();
    }
}

/// `<[T]>::swap` exchanges the elements at two in-bounds positions; it panics
/// when either position is out of bounds, which `requires` rules out.
pub assume_specification<E>[ <[E]>::swap ](slice: &mut [E], a: usize, b: usize)
    requires
        a < old(slice)@.len(),
        b < old(slice)@.len(),
    ensures
        final(slice)@ == old(slice)@.update(a as int, old(slice)@[b as int]).update(
            b as int,
            old(slice)@[a as int],
        ),
;

/// The splitmix64 finalizer, with wrapping multiplication modulo 2^64.
pub open spec fn splitmix64_mix_spec(x: u64) -> u64 {
    let x1 = x ^ (x >> 30u64);
    let x2 = ((x1 as nat * 0xbf58_476d_1ce4_e5b9nat) % 0x1_0000_0000_0000_0000nat) as u64;
    let x3 = x2 ^ (x2 >> 27u64);
    let x4 = ((x3 as nat * 0x94d0_49bb_1331_11ebnat) % 0x1_0000_0000_0000_0000nat) as u64;
    x4 ^ (x4 >> 31u64)
}

/// An xor with a right shift of itself by at least one bit loses nothing.
proof fn lemma_xorshift_injective(x: u64, y: u64, k: u64)
    requires
        1 <= k < 64,
        x ^ (x >> k) == y ^ (y >> k),
    ensures
        x == y,
{
    assert(x == y) by (bit_vector)
        requires
            1 <= k < 64,
            x ^ (x >> k) == y ^ (y >> k),
    ;
}

/// Multiplication modulo 2^64 by either splitmix64 multiplier loses nothing:
/// both are odd, and `0xbf58476d1ce4e5b9 * 10871156337175269513` and
/// `0x94d049bb133111eb * 3573116690164977347` are 1 modulo 2^64.
proof fn lemma_odd_mul_injective(x: u64, y: u64, c: int)
    requires
        c == 0xbf58_476d_1ce4_e5b9 || c == 0x94d0_49bb_1331_11eb,
        (x as int * c) % 0x1_0000_0000_0000_0000 == (y as int * c) % 0x1_0000_0000_0000_0000,
    ensures
        x == y,
{
    let m = 0x1_0000_0000_0000_0000int;
    let px = x as int * c;
    let py = y as int * c;
    vstd::arithmetic::div_mod::lemma_fundamental_div_mod(px, m);
    vstd::arithmetic::div_mod::lemma_fundamental_div_mod(py, m);
    let qx = px / m;
    let qy = py / m;
    assert((x - y) * c == m * (qx - qy));
    if c == 0xbf58_476d_1ce4_e5b9 {
        assert(x - y == m * ((qx - qy) * 10871156337175269513 - (x - y) * 8125545580553827436));
    } else {
        assert(x - y == m * ((qx - qy) * 3573116690164977347 - (x - y) * 2077064247507883091));
    }
}

/// The splitmix64 finalizer is a bijection on `u64`: distinct inputs give
/// distinct outputs.
pub proof fn lemma_splitmix64_mix_injective(x: u64, y: u64)
    requires
        splitmix64_mix_spec(x) == splitmix64_mix_spec(y),
    ensures
        x == y,
{
    let m = 0x1_0000_0000_0000_0000nat;
    let x1 = x ^ (x >> 30u64);
    let y1 = y ^ (y >> 30u64);
    let x2 = ((x1 as nat * 0xbf58_476d_1ce4_e5b9nat) % m) as u64;
    let y2 = ((y1 as nat * 0xbf58_476d_1ce4_e5b9nat) % m) as u64;
    let x3 = x2 ^ (x2 >> 27u64);
    let y3 = y2 ^ (y2 >> 27u64);
    let x4 = ((x3 as nat * 0x94d0_49bb_1331_11ebnat) % m) as u64;
    let y4 = ((y3 as nat * 0x94d0_49bb_1331_11ebnat) % m) as u64;
    lemma_xorshift_injective(x4, y4, 31);
    lemma_odd_mul_injective(x3, y3, 0x94d0_49bb_1331_11eb);
    lemma_xorshift_injective(x2, y2, 27);
    lemma_odd_mul_injective(x1, y1, 0xbf58_476d_1ce4_e5b9);
    lemma_xorshift_injective(x, y, 30);
}

/// The per-turn seed: splitmix64 of `(game_seed ^ turn) + golden` (wrapping),
/// reduced into `[1, 2^31 - 2]`.
pub open spec fn turn_seed_spec(game_seed: u64, turn: u32) -> int {
    let combined = ((game_seed ^ (turn as u64)) as nat + SPLITMIX64_GOLDEN as nat)
        % 0x1_0000_0000_0000_0000nat;
    splitmix64_mix_spec(combined as u64) as int % (MINSTD_M - 1) as int + 1
}

/// The 64-bit value that a turn feeds into splitmix64: the game seed xor the
/// turn, plus the golden-ratio constant, wrapping modulo 2^64.
pub open spec fn turn_mix_input(game_seed: u64, turn: u32) -> u64 {
    (((game_seed ^ (turn as u64)) as nat + SPLITMIX64_GOLDEN as nat) % 0x1_0000_0000_0000_0000nat) as u64
}

/// Adding a constant modulo 2^64 loses nothing.
proof fn lemma_wrapping_add_injective(a: u64, b: u64, k: u64)
    requires
        (a as int + k) % 0x1_0000_0000_0000_0000 == (b as int + k) % 0x1_0000_0000_0000_0000,
    ensures
        a == b,
{
    let m = 0x1_0000_0000_0000_0000int;
    vstd::arithmetic::div_mod::lemma_fundamental_div_mod(a + k, m);
    vstd::arithmetic::div_mod::lemma_fundamental_div_mod(b + k, m);
    let qa = (a + k) / m;
    let qb = (b + k) / m;
    assert(0 <= qa <= 1 && 0 <= qb <= 1);
    assert(a - b == m * (qa - qb));
}

/// Distinct game seeds, or distinct turns, feed distinct values into
/// splitmix64: every bit of the 64-bit game seed and of the 32-bit turn
/// counts, and the golden-ratio addition wraps rather than saturating.
pub proof fn lemma_turn_mix_input_injective(g1: u64, g2: u64, t1: u32, t2: u32)
    requires
        g1 == g2 || t1 == t2,
        g1 != g2 || t1 != t2,
    ensures
        turn_mix_input(g1, t1) != turn_mix_input(g2, t2),
{
    if turn_mix_input(g1, t1) == turn_mix_input(g2, t2) {
        let a = g1 ^ (t1 as u64);
        let b = g2 ^ (t2 as u64);
        lemma_wrapping_add_injective(a, b, SPLITMIX64_GOLDEN);
        if t1 == t2 {
            assert(g1 == g2) by (bit_vector)
                requires
                    g1 ^ (t1 as u64) == g2 ^ (t2 as u64),
                    t1 == t2,
            ;
        } else {
            assert(t1 == t2) by (bit_vector)
                requires
                    g1 ^ (t1 as u64) == g2 ^ (t2 as u64),
                    g1 == g2,
            ;
        }
    }
}

/// A turn's seed is splitmix64 of `(game_seed ^ turn) + golden` (modulo
/// 2^64), reduced into `[1, 2^31 - 2]`; and two calls that differ in the game
/// seed alone, or in the turn alone, feed distinct values into splitmix64 and
/// so get distinct splitmix64 outputs before the reduction.
pub proof fn lemma_turn_seed_distinct_mix(g1: u64, g2: u64, t1: u32, t2: u32)
    requires
        g1 == g2 || t1 == t2,
        g1 != g2 || t1 != t2,
    ensures
        turn_seed_spec(g1, t1) == splitmix64_mix_spec(turn_mix_input(g1, t1)) as int % (MINSTD_M
            - 1) as int + 1,
        turn_seed_spec(g2, t2) == splitmix64_mix_spec(turn_mix_input(g2, t2)) as int % (MINSTD_M
            - 1) as int + 1,
        splitmix64_mix_spec(turn_mix_input(g1, t1)) != splitmix64_mix_spec(turn_mix_input(g2, t2)),
{
    lemma_turn_mix_input_injective(g1, g2, t1, t2);
    if splitmix64_mix_spec(turn_mix_input(g1, t1)) == splitmix64_mix_spec(turn_mix_input(g2, t2)) {
        lemma_splitmix64_mix_injective(turn_mix_input(g1, t1), turn_mix_input(g2, t2));
    }
}

impl MinstdRand {
    /// Return a random integer in `[0, n)`.
    pub fn intn(&mut self, n: usize) -> (r: usize)
        requires
            n > 0,
        ensures
            final(self)@ == minstd_step(old(self)@),
            r == intn_result(old(self)@, n as nat),
            r < n,
            valid_state(final(self)@),
    {
        let v = self.next();
        (v % n as u64) as usize
    }

    /// Return a random integer in `[min, max]` (inclusive).
    pub fn range(&mut self, min: i32, max: i32) -> (r: i32)
        requires
            min <= max,
            max - min < i32::MAX,
        ensures
            final(self)@ == minstd_step(old(self)@),
            r == min + intn_result(old(self)@, (max - min + 1) as nat),
            min <= r <= max,
            valid_state(final(self)@),
    {
        let n = (max - min + 1) as usize;
        let v = self.intn(n);
        v as i32 + min
    }

    /// Fisher-Yates shuffle of a slice.
    pub fn shuffle<T>(&mut self, slice: &mut [T])
        ensures
            (final(self)@, final(slice)@) == shuffled(old(self)@, old(slice)@),
            final(slice)@.len() == old(slice)@.len(),
            final(slice)@.to_multiset() =~= old(slice)@.to_multiset(),
            valid_state(final(self)@),
    {
        proof {
            use_type_invariant(&*self);
            lemma_shuffle_permutes(self@, slice@);
        }
        let len = slice.len();
        if len == 0 {
            return;
        }
        let ghost start = shuffled(self@, slice@);
        let mut i: usize = len - 1;
        while i > 0
            invariant
                i < len,
                slice@.len() == len,
                fisher_yates(self@, slice@, i as nat) == start,
            decreases i,
        {
            let j = self.intn(i + 1);
            slice.swap(i, j);
            i = i - 1;
        }
        proof {
            use_type_invariant(&*self);
        }
    }
}

/// Splitmix64 mixing function.
///
/// Provides strong avalanche properties: a single bit change in the input
/// affects about half of the output bits.
fn splitmix64_mix(x: u64) -> (r: u64)
    ensures
        r == splitmix64_mix_spec(x),
{
    let mut x = x;
    x ^= x >> 30;
    x = x.wrapping_mul(0xbf58_476d_1ce4_e5b9);
    x ^= x >> 27;
    x = x.wrapping_mul(0x94d0_49bb_1331_11eb);
    x ^= x >> 31;
    x
}

/// Derive a per-turn MINSTD seed from a game seed and turn number.
///
/// Uses splitmix64 with a golden ratio pre-addition to avoid the 0 -> 0
/// fixpoint in the raw finalizer. The result is always in the valid MINSTD
/// seed range `[1, 2^31 - 2]`.
pub fn turn_seed(game_seed: u64, turn: u32) -> (r: i64)
    ensures
        r == turn_seed_spec(game_seed, turn),
        1 <= r < MINSTD_M,
{
    let combined = (game_seed ^ turn as u64).wrapping_add(SPLITMIX64_GOLDEN);
    let raw = splitmix64_mix(combined);
    let bounded = (raw % (MINSTD_M - 1)) + 1;
    bounded as i64
}

/// Create a MINSTD PRNG seeded for a specific game turn.
pub fn rng_for_turn(game_seed: u64, turn: u32) -> (r: MinstdRand)
    ensures
        r@ == seed_state(turn_seed_spec(game_seed, turn) as i64),
        turn_seed_spec(game_seed, turn) < MINSTD_M - 1 ==> r@ == turn_seed_spec(game_seed, turn),
        turn_seed_spec(game_seed, turn) == MINSTD_M - 1 ==> r@ == 1,
        valid_state(r@),
{
    MinstdRand::new(turn_seed(game_seed, turn))
}

} // verus!
