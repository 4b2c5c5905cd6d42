use crate::pcg::{advance, lemma_default_first_outputs, seeded_model, xsh_rr, LcgModel, Pcg32, DEFAULT_SEED, DEFAULT_STREAM};
use core::time::Duration;
use vstd::prelude::*;

verus! {

/// The identifier made of a sub-second timestamp and a random word: the
/// timestamp in the high 32 bits, the random word in the low 32 bits.
pub open spec fn id_of(subsec_nanos: u32, rnd: u32) -> u64 {
    (subsec_nanos as nat * 0x1_0000_0000nat + rnd as nat) as u64
}

/// The low 32 bits of an identifier are its random word.
pub proof fn lemma_id_low_word(subsec_nanos: u32, rnd: u32)
    ensures
        id_of(subsec_nanos, rnd) as nat % 0x1_0000_0000nat == rnd as nat,
{
    let t = subsec_nanos as nat;
    let x = rnd as nat;
    assert(t * 0x1_0000_0000nat + x < 0x1_0000_0000_0000_0000nat) by (nonlinear_arith)
        requires
            t < 0x1_0000_0000nat,
            x < 0x1_0000_0000nat,
    ;
    assert((t * 0x1_0000_0000nat + x) % 0x1_0000_0000nat == x) by (nonlinear_arith)
        requires
            x < 0x1_0000_0000nat,
    ;
}

/// The first two identifiers of a new generator differ, whatever the clock
/// reads at either call: their random words differ.
pub proof fn lemma_first_two_ids_differ(t1: u32, t2: u32)
    ensures
        id_of(t1, xsh_rr(seeded_model(DEFAULT_SEED, DEFAULT_STREAM).state)) != id_of(
            t2,
            xsh_rr(advance(seeded_model(DEFAULT_SEED, DEFAULT_STREAM), 1).state),
        ),
{
    lemma_default_first_outputs();
    lemma_id_low_word(t1, xsh_rr(seeded_model(DEFAULT_SEED, DEFAULT_STREAM).state));
    lemma_id_low_word(t2, xsh_rr(advance(seeded_model(DEFAULT_SEED, DEFAULT_STREAM), 1).state));
}

/// Relies on `SystemTime::elapsed` on `UNIX_EPOCH`: the time since the epoch,
/// or `None` where the clock reads earlier than the epoch.
#[verifier::external_body]
fn time_since_epoch() -> (r: Option<Duration>) {
    std::time::UNIX_EPOCH.elapsed().ok()
}

/// Relies on `Duration::subsec_nanos`: the fractional part of a second, in
/// nanoseconds, which is always below one billion.
pub assume_specification[ core::time::Duration::subsec_nanos ](d: &Duration) -> (r: u32)
    ensures
        r < 1_000_000_000,
;

/// Packs a sub-second timestamp and a random word into one identifier.
pub fn compose_id(subsec_nanos: u32, rnd: u32) -> (r: u64)
    ensures
        r == id_of(subsec_nanos, rnd),
{
    let t = subsec_nanos as u64;
    let x = rnd as u64;
    let r = ((t << 32u64) & 0xFFFF_FFFF_0000_0000u64) | (x & 0x0000_0000_FFFF_FFFFu64);
    assert(t < 0x1_0000_0000 && x < 0x1_0000_0000 ==> ((t << 32u64) & 0xFFFF_FFFF_0000_0000u64) | (
    x & 0x0000_0000_FFFF_FFFFu64) == t * 0x1_0000_0000u64 + x) by (bit_vector);
    r
}

/// Generator of 64-bit identifiers from the clock and a PCG stream.
pub struct Snowflake {
    rng: Pcg32,
}

impl View for Snowflake {
    type V = LcgModel;

    closed spec fn view(&self) -> LcgModel {
        self.rng@
    }
}

impl Snowflake {
    pub fn new() -> (r: Snowflake)
        ensures
            r@ == seeded_model(DEFAULT_SEED, DEFAULT_STREAM),
    {
        Snowflake { rng: Pcg32::default() }
    }

    /// The identifier for a given sub-second timestamp; draws one word.
    pub fn next_at(&mut self, subsec_nanos: u32) -> (r: u64)
        ensures
            r == id_of(subsec_nanos, xsh_rr(old(self)@.state)),
            final(self)@ == advance(old(self)@, 1),
    {
        let rnd = self.rng.next_u32();
        compose_id(subsec_nanos, rnd)
    }

    /// Reads the clock and hands out the next identifier. `None` when the
    /// clock cannot be read; the generator is then left as it was.
    pub fn next(&mut self) -> (r: Option<u64>)
        ensures
            match r {
                Some(id) => {
                    &&& exists|t: u32| t < 1_000_000_000 && id == #[trigger] id_of(t, xsh_rr(old(self)@.state))
                    &&& final(self)@ == advance(old(self)@, 1)
                },
                None => final(self)@ == old(self)@,
            },
    {
        match time_since_epoch() {
            Some(d) => {
                let t = d.subsec_nanos();
                Some(self.next_at(t))
            },
            None => None,
        }
    }
}

} // verus!
