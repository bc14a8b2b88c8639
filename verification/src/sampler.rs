use vstd::prelude::*;

use rand::distributions::{Bernoulli, Distribution, Uniform};
use rand::Rng;
use rand::SeedableRng;
use rand_xorshift::XorShiftRng;

verus! {

#[verifier::external_type_specification]
#[verifier::external_body]
pub struct ExXorShiftRng(XorShiftRng);

/// The sequence of `count` uniform indices below `bound` that a xorshift
/// generator seeded with the 16 `seed` bytes yields. Seeding, the uniform
/// index distribution and its sampling are all pure functions of their
/// inputs, so the drawn sequence depends on these arguments alone.
pub uninterp spec fn uniform_picks_of(seed: Seq<u8>, bound: usize, count: usize) -> Seq<usize>;

/// What a xorshift generator seeded with the 16 `seed` bytes yields for one
/// bit train: first one flip with probability `fair_numerator /
/// fair_denominator`, then `count` flips with probability `numerator /
/// denominator`, drawn from the same generator in that order. Seeding and
/// sampling are pure functions of their inputs, so both results depend on
/// these arguments alone.
pub uninterp spec fn train_draws_of(
    seed: Seq<u8>,
    fair_numerator: u32,
    fair_denominator: u32,
    numerator: u32,
    denominator: u32,
    count: usize,
) -> (bool, Seq<bool>);

/// Relies on rand's `Bernoulli::from_ratio` and its `sample`: with a
/// numerator of zero every sample is `false`, and with the numerator equal
/// to the denominator every sample is `true`; `from_ratio` only fails for a
/// zero denominator or a ratio above one, which the precondition rules out.
#[verifier::external_body]
pub(crate) fn draw_flip(rng: &mut XorShiftRng, numerator: u32, denominator: u32) -> (r: bool)
    requires
        denominator > 0,
        numerator <= denominator,
    ensures
        numerator == 0 ==> r == false,
        numerator == denominator ==> r == true,
{
    let dist = Bernoulli::from_ratio(numerator, denominator).unwrap();
    dist.sample(rng)
}

/// Relies on rand_xorshift's `XorShiftRng::from_seed`, rand's
/// `Uniform::new(0, bound)` and `Rng::sample_iter`: the generator is a pure
/// function of the 16 seed bytes, every sampled index lies below `bound`
/// (`Uniform::new` samples from the half-open range), and the stream of
/// samples is a pure function of generator state, bound and count.
/// `Uniform::new` only panics for an empty range, which the precondition
/// rules out.
#[verifier::external_body]
pub(crate) fn seeded_uniform_picks(seed: &Vec<u8>, bound: usize, count: usize) -> (r: Vec<usize>)
    requires
        seed@.len() == 16,
        bound > 0,
    ensures
        r@ == uniform_picks_of(seed@, bound, count),
        r@.len() == count,
        forall|i: int| 0 <= i < r@.len() ==> r@[i] < bound,
{
    let seed_arr: [u8; 16] = seed.as_slice().try_into().unwrap();
    let rng = XorShiftRng::from_seed(seed_arr);
    let dist = Uniform::new(0usize, bound);
    rng.sample_iter(&dist).take(count).collect()
}

/// Relies on rand_core's `SeedableRng::from_entropy` together with rand's
/// `Uniform::new(0, bound)` and `Rng::sample_iter`: whatever entropy seeds
/// the generator, every sampled index lies below `bound` and exactly `count`
/// indices are drawn.
#[verifier::external_body]
pub(crate) fn entropy_uniform_picks(bound: usize, count: usize) -> (r: Vec<usize>)
    requires
        bound > 0,
    ensures
        r@.len() == count,
        forall|i: int| 0 <= i < r@.len() ==> r@[i] < bound,
{
    let rng = XorShiftRng::from_entropy();
    let dist = Uniform::new(0usize, bound);
    rng.sample_iter(&dist).take(count).collect()
}

/// Relies on rand_xorshift's `XorShiftRng::from_seed` and rand's
/// `Bernoulli::from_ratio` with its `sample` and `Rng::sample_iter`: the
/// generator is a pure function of the 16 seed bytes and the sampled flips
/// are a pure function of generator state and the two ratios, so the drawn
/// pair depends on the arguments alone; a zero numerator samples only
/// `false` and a full numerator only `true`; `from_ratio` only fails on
/// ratios outside [0, 1], which the preconditions rule out.
#[verifier::external_body]
pub(crate) fn seeded_train_draws(
    seed: &Vec<u8>,
    fair_numerator: u32,
    fair_denominator: u32,
    numerator: u32,
    denominator: u32,
    count: usize,
) -> (r: (bool, Vec<bool>))
    requires
        seed@.len() == 16,
        fair_denominator > 0,
        fair_numerator <= fair_denominator,
        denominator > 0,
        numerator <= denominator,
    ensures
        r.0 == train_draws_of(
            seed@,
            fair_numerator,
            fair_denominator,
            numerator,
            denominator,
            count,
        ).0,
        r.1@ == train_draws_of(
            seed@,
            fair_numerator,
            fair_denominator,
            numerator,
            denominator,
            count,
        ).1,
        r.1@.len() == count,
        numerator == 0 ==> forall|i: int| 0 <= i < r.1@.len() ==> r.1@[i] == false,
        numerator == denominator ==> forall|i: int| 0 <= i < r.1@.len() ==> r.1@[i] == true,
{
    let seed_arr: [u8; 16] = seed.as_slice().try_into().unwrap();
    let mut rng = XorShiftRng::from_seed(seed_arr);
    let fair = Bernoulli::from_ratio(fair_numerator, fair_denominator).unwrap().sample(&mut rng);
    let dist = Bernoulli::from_ratio(numerator, denominator).unwrap();
    let flips: Vec<bool> = rng.sample_iter(&dist).take(count).collect();
    (fair, flips)
}

/// Relies on rand_core's `SeedableRng::from_entropy` together with rand's
/// `Bernoulli::from_ratio`, its `sample` and `Rng::sample_iter`: whatever
/// entropy seeds the generator, exactly `count` flips follow the fair draw,
/// a zero numerator samples only `false` and a full numerator only `true`.
#[verifier::external_body]
pub(crate) fn entropy_train_draws(
    fair_numerator: u32,
    fair_denominator: u32,
    numerator: u32,
    denominator: u32,
    count: usize,
) -> (r: (bool, Vec<bool>))
    requires
        fair_denominator > 0,
        fair_numerator <= fair_denominator,
        denominator > 0,
        numerator <= denominator,
    ensures
        r.1@.len() == count,
        numerator == 0 ==> forall|i: int| 0 <= i < r.1@.len() ==> r.1@[i] == false,
        numerator == denominator ==> forall|i: int| 0 <= i < r.1@.len() ==> r.1@[i] == true,
{
    let mut rng = XorShiftRng::from_entropy();
    let fair = Bernoulli::from_ratio(fair_numerator, fair_denominator).unwrap().sample(&mut rng);
    let dist = Bernoulli::from_ratio(numerator, denominator).unwrap();
    let flips: Vec<bool> = rng.sample_iter(&dist).take(count).collect();
    (fair, flips)
}

/// Relies on std's `String::from_utf8`: it succeeds exactly on byte
/// sequences that are valid UTF-8 and then returns the string those bytes
/// encode, matching vstd's model of UTF-8.
#[verifier::external_body]
pub(crate) fn string_from_utf8(bytes: Vec<u8>) -> (r: Option<String>)
    ensures
        r is Some <==> vstd::utf8::valid_utf8(bytes@),
        r is Some ==> r.unwrap()@ == vstd::utf8::decode_utf8(bytes@),
{
    String::from_utf8(bytes).ok()
}

} // verus!
