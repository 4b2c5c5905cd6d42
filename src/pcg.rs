use vstd::arithmetic::div_mod::lemma_add_mod_noop;
use vstd::prelude::*;
use vstd::set_lib::{lemma_int_range, lemma_len_subset, lemma_map_size_bound, set_int_range};

verus! {

/// The LCG multiplier used by PCG for a 64-bit state.
pub const MULTIPLIER: u64 = 6364136223846793005;

/// Seed of the default generator.
pub const DEFAULT_SEED: u64 = 0xcafef00dd15ea5e5;

/// Stream of the default generator.
pub const DEFAULT_STREAM: u64 = 1442695040888963407 >> 1;

/// The mathematical content of a generator: its LCG state and its increment.
pub struct LcgModel {
    pub state: u64,
    pub increment: u64,
}

/// The increment that a stream number selects: shifted left, low bit set.
pub open spec fn stream_increment(stream: u64) -> u64 {
    (stream << 1u64) | 1u64
}

/// One LCG step: `state * MULTIPLIER + increment`, modulo 2^64.
pub open spec fn lcg_step(state: u64, increment: u64) -> u64 {
    ((state as nat * MULTIPLIER as nat + increment as nat) % 0x1_0000_0000_0000_0000nat) as u64
}

/// Rotation of a 32-bit word to the right by `rot` bits, `rot < 32`.
pub open spec fn rotr32(x: u32, rot: u32) -> u32 {
    if rot == 0 {
        x
    } else {
        (x >> rot) | (x << (32 - rot) as u32)
    }
}

/// The XSH-RR output permutation of a 64-bit state.
pub open spec fn xsh_rr(state: u64) -> u32 {
    rotr32((((state >> 18u64) ^ state) >> 27u64) as u32, (state >> 59u64) as u32)
}

/// The model after `k` steps.
pub open spec fn advance(m: LcgModel, k: nat) -> LcgModel
    decreases k,
{
    if k == 0 {
        m
    } else {
        let prev = advance(m, (k - 1) as nat);
        LcgModel { state: lcg_step(prev.state, m.increment), increment: m.increment }
    }
}

/// Stepping keeps the increment.
pub proof fn lemma_advance_increment(m: LcgModel, k: nat)
    ensures
        advance(m, k).increment == m.increment,
    decreases k,
{
    if k > 0 {
        lemma_advance_increment(m, (k - 1) as nat);
    }
}

/// One more step after `k` steps is `k + 1` steps.
pub proof fn lemma_advance_succ(m: LcgModel, k: nat)
    ensures
        advance(advance(m, k), 1) == advance(m, k + 1),
{
    lemma_advance_increment(m, k);
    reveal_with_fuel(advance, 2);
}

/// The first `n` outputs that a generator in model `m` hands out.
pub open spec fn outputs(m: LcgModel, n: nat) -> Seq<u32>
    decreases n,
{
    if n == 0 {
        Seq::empty()
    } else {
        outputs(m, (n - 1) as nat).push(xsh_rr(advance(m, (n - 1) as nat).state))
    }
}

/// `outputs(m, n)` holds `n` outputs.
pub proof fn lemma_outputs_len(m: LcgModel, n: nat)
    ensures
        outputs(m, n).len() == n,
    decreases n,
{
    if n > 0 {
        lemma_outputs_len(m, (n - 1) as nat);
    }
}

/// A sequence of 32-bit words longer than 2^32 repeats a word.
proof fn lemma_long_word_seq_repeats(s: Seq<u32>)
    requires
        s.len() > 0x1_0000_0000,
    ensures
        !s.no_duplicates(),
{
    if s.no_duplicates() {
        s.unique_seq_to_set();
        let all = set_int_range(0, 0x1_0000_0000);
        let f = |i: int| i as u32;
        lemma_int_range(0, 0x1_0000_0000);
        lemma_map_size_bound(all, all.map(f), f);
        assert forall|w: u32| s.to_set().contains(w) implies all.map(f).contains(w) by {
            assert(all.contains(w as int) && f(w as int) == w);
        }
        assert(s.to_set().subset_of(all.map(f)));
        lemma_len_subset(s.to_set(), all.map(f));
    }
}

/// Period bound: any run of more than 2^32 draws from one generator hands
/// out some output twice.
pub proof fn lemma_outputs_revisit(m: LcgModel, n: nat)
    requires
        n > 0x1_0000_0000,
    ensures
        exists|i: int, j: int| 0 <= i < j < n && outputs(m, n)[i] == outputs(m, n)[j],
{
    lemma_outputs_len(m, n);
    let s = outputs(m, n);
    lemma_long_word_seq_repeats(s);
    let (i, j) = choose|i: int, j: int| 0 <= i < s.len() && 0 <= j < s.len() && i != j && s[i] == s[j];
    if i < j {
        assert(0 <= i < j < n && s[i] == s[j]);
    } else {
        assert(0 <= j < i < n && s[j] == s[i]);
    }
}

/// The model of a generator built from `seed` and `stream`: the seed plus the
/// increment, then one step.
pub open spec fn seeded_model(seed: u64, stream: u64) -> LcgModel {
    let inc = stream_increment(stream);
    let warm = ((seed as nat + inc as nat) % 0x1_0000_0000_0000_0000nat) as u64;
    LcgModel { state: lcg_step(warm, inc), increment: inc }
}

/// The increment that `new` derives from any stream is odd.
pub proof fn lemma_stream_increment_odd(stream: u64)
    ensures
        stream_increment(stream) % 2 == 1,
{
    assert(((stream << 1u64) | 1u64) % 2 == 1) by (bit_vector);
}

/// Determinism: two default-built generators draw the same first `n` outputs.
pub proof fn lemma_default_sequences_agree(a: Lcg64Xsh32, b: Lcg64Xsh32, n: nat)
    requires
        a@ == seeded_model(DEFAULT_SEED, DEFAULT_STREAM),
        b@ == seeded_model(DEFAULT_SEED, DEFAULT_STREAM),
    ensures
        outputs(a@, n) == outputs(b@, n),
{
}

/// The first two outputs of the default generator, which differ.
pub proof fn lemma_default_first_outputs()
    ensures
        xsh_rr(seeded_model(DEFAULT_SEED, DEFAULT_STREAM).state) == 676697322u32,
        xsh_rr(advance(seeded_model(DEFAULT_SEED, DEFAULT_STREAM), 1).state) == 420258633u32,
{
    let m = seeded_model(DEFAULT_SEED, DEFAULT_STREAM);
    assert(stream_increment(DEFAULT_STREAM) == 1442695040888963407u64) by (bit_vector);
    assert(m.state == 0x4d595df4d0f33173u64);
    reveal_with_fuel(advance, 2);
    assert(advance(m, 1).state == 0x132190a1439e3f86u64);
    assert((0x4d595df4d0f33173u64 >> 59u64) == 9u64) by (bit_vector);
    assert((((0x4d595df4d0f33173u64 >> 18u64) ^ 0x4d595df4d0f33173u64) >> 27u64) as u32
        == 2871645264u32) by (bit_vector);
    assert(((2871645264u32 >> 9u32) | (2871645264u32 << 23u32)) == 676697322u32) by (bit_vector);
    assert((0x132190a1439e3f86u64 >> 59u64) == 2u64) by (bit_vector);
    assert((((0x132190a1439e3f86u64 >> 18u64) ^ 0x132190a1439e3f86u64) >> 27u64) as u32
        == 1681034532u32) by (bit_vector);
    assert(((1681034532u32 >> 2u32) | (1681034532u32 << 30u32)) == 420258633u32) by (bit_vector);
}

/// Permuted congruential generator with 64 bits of state and 32-bit outputs.
pub struct Lcg64Xsh32 {
    state: u64,
    increment: u64,
}

pub type Pcg32 = Lcg64Xsh32;

impl View for Lcg64Xsh32 {
    type V = LcgModel;

    closed spec fn view(&self) -> LcgModel {
        LcgModel { state: self.state, increment: self.increment }
    }
}

fn step_value(state: u64, increment: u64) -> (r: u64)
    ensures
        r == lcg_step(state, increment),
{
    let r = state.wrapping_mul(MULTIPLIER).wrapping_add(increment);
    proof {
        let p = state as nat * MULTIPLIER as nat;
        lemma_add_mod_noop(p as int, increment as int, 0x1_0000_0000_0000_0000int);
        assert(0nat <= increment as nat % 0x1_0000_0000_0000_0000nat);
    }
    r
}

impl Lcg64Xsh32 {
    /// The increment is odd, which gives the LCG its full period.
    pub open spec fn wf(&self) -> bool {
        self@.increment % 2 == 1
    }

    pub fn new(state: u64, stream: u64) -> (r: Self)
        ensures
            r@ == seeded_model(state, stream),
            r.wf(),
    {
        let increment = (stream << 1) | 1;
        proof {
            lemma_stream_increment_odd(stream);
        }
        Lcg64Xsh32::from_state_incr(state, increment)
    }

    pub fn default() -> (r: Self)
        ensures
            r@ == seeded_model(DEFAULT_SEED, DEFAULT_STREAM),
            r.wf(),
    {
        Lcg64Xsh32::new(DEFAULT_SEED, DEFAULT_STREAM)
    }

    fn from_state_incr(state: u64, increment: u64) -> (r: Self)
        ensures
            r@.increment == increment,
            r@.state == lcg_step(
                ((state as nat + increment as nat) % 0x1_0000_0000_0000_0000nat) as u64,
                increment,
            ),
    {
        let mut pcg = Lcg64Xsh32 { state, increment };
        pcg.state = pcg.state.wrapping_add(pcg.increment);
        assert(pcg.state == ((state as nat + increment as nat) % 0x1_0000_0000_0000_0000nat) as u64);
        pcg.step();
        proof {
            reveal_with_fuel(advance, 2);
        }
        pcg
    }

    fn step(&mut self)
        ensures
            final(self)@ == advance(old(self)@, 1),
    {
        self.state = step_value(self.state, self.increment);
        proof {
            reveal_with_fuel(advance, 2);
        }
    }

    /// Hands out the permuted output of the current state, then steps.
    pub fn next_u32(&mut self) -> (r: u32)
        ensures
            r == xsh_rr(old(self)@.state),
            final(self)@ == advance(old(self)@, 1),
            final(self).wf() == old(self).wf(),
    {
        let state = self.state;
        self.step();
        assert((state >> 59u64) < 32) by (bit_vector);
        let rot = (state >> 59) as u32;
        let xsh = #[verifier::truncate] ((((state >> 18) ^ state) >> 27) as u32);
        if rot == 0 {
            xsh
        } else {
            (xsh >> rot) | (xsh << (32 - rot))
        }
    }
}

} // verus!
