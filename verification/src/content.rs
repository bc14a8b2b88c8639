use vstd::prelude::*;

use vstd::string::StrSliceExecFns;
use vstd::utf8::{decode_utf8, encode_utf8, valid_utf8};

use crate::bits::{bit_train_bytes, lemma_train_all_false, lemma_train_all_true, lemma_train_alternates, spec_bit_at, spec_train_bytes};
use crate::config::{Probability, RngConfig};
use crate::errors::GenError;
use crate::sampler::{
    entropy_train_draws, entropy_uniform_picks, seeded_train_draws, seeded_uniform_picks,
    string_from_utf8, train_draws_of, uniform_picks_of,
};

verus! {

/// The deterministic cyclic content: byte `i` is `source[i mod source.len()]`.
pub open spec fn spec_cyclic(source: Seq<u8>, length: int) -> Seq<u8>
    recommends
        length > 0 ==> source.len() > 0,
{
    Seq::new(length as nat, |i: int| source[i % (source.len() as int)])
}

/// The fixed-size generator seed derived from caller-supplied seed bytes:
/// copied left to right, truncated if longer than 16 bytes, zero-padded if
/// shorter.
pub open spec fn spec_pad16(seed: Seq<u8>) -> Seq<u8> {
    Seq::new(16, |i: int| if i < seed.len() { seed[i] } else { 0u8 })
}

/// Derives the fixed-size generator seed from caller-supplied seed bytes.
#[verifier::loop_isolation(false)]
pub fn pad_seed(seed: &Vec<u8>) -> (r: Vec<u8>)
    ensures
        r@ == spec_pad16(seed@),
{
    let mut out: Vec<u8> = Vec::new();
    for i in 0..16usize
        invariant
            out@.len() == i,
            forall|j: int| 0 <= j < i ==> out@[j] == spec_pad16(seed@)[j],
    {
        if i < seed.len() {
            out.push(seed[i]);
        } else {
            out.push(0u8);
        }
    }
    proof {
        assert(out@ =~= spec_pad16(seed@));
    }
    out
}

/// Repeats `source` cyclically until `length` bytes are produced.
#[verifier::loop_isolation(false)]
pub fn cyclic_bytes(source: &Vec<u8>, length: usize) -> (r: Vec<u8>)
    requires
        length > 0 ==> source@.len() > 0,
    ensures
        r@ == spec_cyclic(source@, length as int),
{
    let mut out: Vec<u8> = Vec::new();
    for i in 0..length
        invariant
            out@.len() == i,
            forall|j: int| 0 <= j < i ==> out@[j] == spec_cyclic(source@, length as int)[j],
    {
        out.push(source[i % source.len()]);
    }
    proof {
        assert(out@ =~= spec_cyclic(source@, length as int));
    }
    out
}

/// The concatenation of the picked choices, whole and in pick order.
pub open spec fn concat_picks(choices: Seq<Seq<u8>>, picks: Seq<usize>) -> Seq<u8>
    decreases picks.len(),
{
    if picks.len() == 0 {
        Seq::empty()
    } else {
        choices[picks[0] as int] + concat_picks(choices, picks.skip(1))
    }
}

/// Every pick indexes a choice.
pub open spec fn picks_in_range(picks: Seq<usize>, bound: int) -> bool {
    forall|i: int| 0 <= i < picks.len() ==> picks[i] < bound
}

/// Weighted-sample output: the concatenation of whole picked choices,
/// truncated to exactly `length` bytes.
pub open spec fn spec_weighted_bytes(choices: Seq<Seq<u8>>, picks: Seq<usize>, length: int) -> Seq<
    u8,
>
    recommends
        concat_picks(choices, picks).len() >= length >= 0,
{
    concat_picks(choices, picks).take(length)
}

/// Appending one pick appends that whole choice to the concatenation.
pub proof fn lemma_concat_picks_snoc(choices: Seq<Seq<u8>>, picks: Seq<usize>, x: usize)
    ensures
        concat_picks(choices, picks.push(x)) == concat_picks(choices, picks) + choices[x as int],
    decreases picks.len(),
{
    if picks.len() == 0 {
        reveal_with_fuel(concat_picks, 3);
        assert(picks.push(x).skip(1) =~= Seq::<usize>::empty());
        assert(concat_picks(choices, picks.push(x)) =~= concat_picks(choices, picks) + choices[
            x as int
        ]);
    } else {
        assert(picks.push(x).skip(1) =~= picks.skip(1).push(x));
        lemma_concat_picks_snoc(choices, picks.skip(1), x);
        assert(concat_picks(choices, picks.push(x)) =~= concat_picks(choices, picks) + choices[
            x as int
        ]);
    }
}

/// With every choice non-empty, each pick contributes at least one byte.
pub proof fn lemma_concat_picks_len(choices: Seq<Seq<u8>>, picks: Seq<usize>)
    requires
        picks_in_range(picks, choices.len() as int),
        forall|i: int| 0 <= i < choices.len() ==> #[trigger] choices[i].len() > 0,
    ensures
        concat_picks(choices, picks).len() >= picks.len(),
    decreases picks.len(),
{
    if picks.len() > 0 {
        assert(forall|i: int|
            0 <= i < picks.skip(1).len() ==> #[trigger] picks.skip(1)[i] < choices.len());
        lemma_concat_picks_len(choices, picks.skip(1));
    }
}

/// `s` truncated to `length` bytes, or all of `s` if it is shorter.
pub open spec fn spec_take_min(s: Seq<u8>, length: int) -> Seq<u8>
    recommends
        length >= 0,
{
    if s.len() <= length {
        s
    } else {
        s.take(length)
    }
}

/// Concatenates whole picked choices and truncates to exactly `length`
/// bytes. With every choice non-empty and at least `length` picks, the
/// output has exactly `length` bytes.
#[verifier::loop_isolation(false)]
pub fn weighted_bytes(choices: &Vec<Vec<u8>>, picks: &Vec<usize>, length: usize) -> (r: Vec<u8>)
    requires
        picks_in_range(picks@, choices@.len() as int),
        forall|i: int| 0 <= i < choices@.len() ==> #[trigger] choices@[i]@.len() > 0,
        picks@.len() >= length,
    ensures
        r@ == spec_weighted_bytes(choices.deep_view(), picks@, length as int),
        r@.len() == length,
{
    let ghost dv: Seq<Seq<u8>> = choices.deep_view();
    proof {
        assert(dv.len() == choices@.len());
        assert(forall|i: int| 0 <= i < dv.len() ==> #[trigger] dv[i] == choices@[i]@);
    }
    let mut out: Vec<u8> = Vec::new();
    for n in 0..picks.len()
        invariant
            out@.len() <= length,
            out@ == spec_take_min(concat_picks(dv, picks@.take(n as int)), length as int),
    {
        let p = picks[n];
        let choice = &choices[p];
        let ghost prefix: Seq<u8> = concat_picks(dv, picks@.take(n as int));
        for j in 0..choice.len()
            invariant
                out@.len() <= length,
                out@ == spec_take_min(prefix + choice@.take(j as int), length as int),
        {
            proof {
                assert((prefix + choice@.take(j as int)).push(choice@[j as int]) =~= prefix
                    + choice@.take(j as int + 1));
            }
            if out.len() < length {
                out.push(choice[j]);
            } else {
                proof {
                    let s = prefix + choice@.take(j as int);
                    assert(s.len() > length || s.len() == length);
                    assert((s + seq![choice@[j as int]]).take(length as int) =~= spec_take_min(
                        s,
                        length as int,
                    ));
                    assert(s.push(choice@[j as int]) =~= s + seq![choice@[j as int]]);
                }
            }
        }
        proof {
            assert(choice@.take(choice@.len() as int) =~= choice@);
            assert(dv[p as int] == choice@);
            lemma_concat_picks_snoc(dv, picks@.take(n as int), p);
            assert(picks@.take(n as int).push(p) =~= picks@.take(n as int + 1));
        }
    }
    proof {
        assert(picks@.take(picks@.len() as int) =~= picks@);
        lemma_concat_picks_len(dv, picks@);
        assert(concat_picks(dv, picks@).len() >= length);
        assert(out@ == spec_weighted_bytes(dv, picks@, length as int));
    }
    out
}

/// What resolving `conf` as an entry name yields: the literal string itself,
/// or the UTF-8 decoding of the cyclic bytes; pseudo-random rules cannot
/// name an entry and are rejected, and cyclic bytes that are not valid
/// UTF-8 are an encoding error.
pub open spec fn spec_name_of(conf: RngConfig) -> Result<Seq<char>, GenError> {
    match conf {
        RngConfig::StringGen { value } => Ok(value@),
        RngConfig::CycleGen { value, length } => if length > 0 && value@.len() == 0 {
            Err(GenError::InvalidRule)
        } else if valid_utf8(spec_cyclic(value@, length as int)) {
            Ok(decode_utf8(spec_cyclic(value@, length as int)))
        } else {
            Err(GenError::EncodingError)
        },
        RngConfig::RangeGen { value, seed, length } => Err(GenError::InvalidRule),
        RngConfig::BitTrain { probability, seed, length } => Err(GenError::InvalidRule),
    }
}

/// Resolves a rule in name context to the entry name it denotes.
pub fn generate_file_name(conf: &RngConfig) -> (r: Result<String, GenError>)
    ensures
        (r is Ok) == (spec_name_of(*conf) is Ok),
        r is Ok ==> r.unwrap()@ == spec_name_of(*conf)->Ok_0,
        r is Err ==> r.unwrap_err() == spec_name_of(*conf)->Err_0,
{
    match conf {
        RngConfig::StringGen { value } => Ok(value.clone()),
        RngConfig::CycleGen { value, length } => {
            if *length > 0 && value.len() == 0 {
                Err(GenError::InvalidRule)
            } else {
                let bytes = cyclic_bytes(value, *length);
                match string_from_utf8(bytes) {
                    Some(s) => Ok(s),
                    None => Err(GenError::EncodingError),
                }
            }
        },
        RngConfig::RangeGen { value, seed, length } => Err(GenError::InvalidRule),
        RngConfig::BitTrain { probability, seed, length } => Err(GenError::InvalidRule),
    }
}

/// The error, if any, that resolving `conf` in content context must report:
/// a cyclic rule with an empty source and positive length, an empty choice
/// set, an empty choice among the choices when bytes are owed, a probability
/// ratio outside [0, 1], or a byte count whose flip count would not fit in
/// `usize`.
pub open spec fn spec_content_err(conf: RngConfig) -> Option<GenError> {
    match conf {
        RngConfig::CycleGen { value, length } => if length > 0 && value@.len() == 0 {
            Some(GenError::InvalidRule)
        } else {
            None
        },
        RngConfig::StringGen { value } => None,
        RngConfig::RangeGen { value, seed, length } => if value@.len() == 0 || (length > 0
            && exists|i: int| 0 <= i < value@.len() && #[trigger] value@[i]@.len() == 0) {
            Some(GenError::InvalidRule)
        } else {
            None
        },
        RngConfig::BitTrain { probability, seed, length } => if !probability.is_valid() || length
            > usize::MAX / 8 {
            Some(GenError::InvalidRule)
        } else {
            None
        },
    }
}

/// The bytes a seeded bit train denotes: a pure function of the seed bytes,
/// the probability ratio and the length, which is what makes seeded
/// generation reproducible.
pub open spec fn spec_seeded_train(seed: Seq<u8>, probability: Probability, length: usize) -> Seq<
    u8,
> {
    let draws = train_draws_of(
        spec_pad16(seed),
        1,
        2,
        probability.numerator,
        probability.denominator,
        (8 * length) as usize,
    );
    spec_train_bytes(draws.0, draws.1, length as int)
}

/// The bytes a seeded weighted sample denotes: a pure function of the seed
/// bytes, the choices and the length.
pub open spec fn spec_seeded_weighted(choices: Seq<Seq<u8>>, seed: Seq<u8>, length: usize) -> Seq<
    u8,
> {
    spec_weighted_bytes(
        choices,
        uniform_picks_of(spec_pad16(seed), choices.len() as usize, length),
        length as int,
    )
}

/// What content generation promises of its output bytes, per rule kind:
/// cyclic and literal rules are pinned exactly; a weighted sample is some
/// truncated concatenation of whole choices, pinned exactly when seeded; a
/// bit train is built from some flip sequence whose flips are forced by the
/// extreme probabilities, pinned exactly when seeded.
pub open spec fn content_matches(conf: RngConfig, bytes: Seq<u8>) -> bool {
    match conf {
        RngConfig::CycleGen { value, length } => bytes == spec_cyclic(value@, length as int),
        RngConfig::StringGen { value } => bytes == encode_utf8(value@),
        RngConfig::RangeGen { value, seed, length } => bytes.len() == length && (exists|
            picks: Seq<usize>,
        |
            picks_in_range(picks, value@.len() as int) && concat_picks(value.deep_view(), picks).len()
                >= length && bytes == spec_weighted_bytes(value.deep_view(), picks, length as int))
            && (seed is Some ==> bytes == spec_seeded_weighted(
            value.deep_view(),
            seed.unwrap()@,
            length,
        )),
        RngConfig::BitTrain { probability, seed, length } => bytes.len() == length && (exists|
            init: bool,
            flips: Seq<bool>,
        |
            flips.len() == 8 * length && bytes == spec_train_bytes(init, flips, length as int) && (
            probability.is_zero() ==> forall|i: int| 0 <= i < flips.len() ==> !flips[i]) && (
            probability.is_one() ==> forall|i: int| 0 <= i < flips.len() ==> flips[i])) && (
        seed is Some ==> bytes == spec_seeded_train(seed.unwrap()@, probability, length)),
    }
}

/// Resolves a rule in content context to the bytes it denotes. Fails exactly
/// on the rules `spec_content_err` rejects; on success the output satisfies
/// `content_matches`, which pins seeded and deterministic rules to one exact
/// byte sequence.
#[verifier::loop_isolation(false)]
pub fn generate_file_content(conf: &RngConfig) -> (r: Result<Vec<u8>, GenError>)
    ensures
        (r is Err) == (spec_content_err(*conf) is Some),
        r is Err ==> r.unwrap_err() == spec_content_err(*conf)->0,
        r is Ok ==> content_matches(*conf, r.unwrap()@),
{
    match conf {
        RngConfig::CycleGen { value, length } => {
            if *length > 0 && value.len() == 0 {
                Err(GenError::InvalidRule)
            } else {
                Ok(cyclic_bytes(value, *length))
            }
        },
        RngConfig::StringGen { value } => Ok(value.as_str().as_bytes_vec()),
        RngConfig::RangeGen { value, seed, length } => {
            if value.len() == 0 {
                return Err(GenError::InvalidRule);
            }
            if *length > 0 {
                for i in 0..value.len()
                    invariant
                        forall|j: int| 0 <= j < i ==> #[trigger] value@[j]@.len() > 0,
                {
                    if value[i].len() == 0 {
                        return Err(GenError::InvalidRule);
                    }
                }
            }
            if *length == 0 {
                let out: Vec<u8> = Vec::new();
                proof {
                    assert(out@ =~= spec_weighted_bytes(
                        value.deep_view(),
                        Seq::<usize>::empty(),
                        0,
                    ));
                    if seed is Some {
                        assert(out@ =~= spec_seeded_weighted(
                            value.deep_view(),
                            seed.unwrap()@,
                            0,
                        ));
                    }
                }
                return Ok(out);
            }
            let picks: Vec<usize> = match seed {
                Some(s) => {
                    let padded = pad_seed(s);
                    seeded_uniform_picks(&padded, value.len(), *length)
                },
                None => entropy_uniform_picks(value.len(), *length),
            };
            let out = weighted_bytes(value, &picks, *length);
            proof {
                lemma_concat_picks_len(value.deep_view(), picks@);
            }
            Ok(out)
        },
        RngConfig::BitTrain { probability, seed, length } => {
            if !(probability.denominator > 0 && probability.numerator
                <= probability.denominator) {
                return Err(GenError::InvalidRule);
            }
            if *length > usize::MAX / 8 {
                return Err(GenError::InvalidRule);
            }
            let count: usize = 8 * *length;
            let draws: (bool, Vec<bool>) = match seed {
                Some(s) => {
                    let padded = pad_seed(s);
                    seeded_train_draws(
                        &padded,
                        1,
                        2,
                        probability.numerator,
                        probability.denominator,
                        count,
                    )
                },
                None => entropy_train_draws(
                    1,
                    2,
                    probability.numerator,
                    probability.denominator,
                    count,
                ),
            };
            let init = draws.0;
            let flips = draws.1;
            let out = bit_train_bytes(init, &flips, *length);
            Ok(out)
        },
    }
}

/// Reusing the same seed reproduces the same biased bit stream: the bytes a
/// seeded bit train denotes are a function of seed, probability and length
/// alone, so any two generation passes over the same seeded rule agree.
pub proof fn lemma_seeded_train_deterministic(
    seed: Seq<u8>,
    probability: Probability,
    length: usize,
    first: Seq<u8>,
    second: Seq<u8>,
)
    requires
        first == spec_seeded_train(seed, probability, length),
        second == spec_seeded_train(seed, probability, length),
    ensures
        first == second,
{
}

/// Reusing the same seed reproduces the same weighted sample.
pub proof fn lemma_seeded_weighted_deterministic(
    choices: Seq<Seq<u8>>,
    seed: Seq<u8>,
    length: usize,
    first: Seq<u8>,
    second: Seq<u8>,
)
    requires
        first == spec_seeded_weighted(choices, seed, length),
        second == spec_seeded_weighted(choices, seed, length),
    ensures
        first == second,
{
}

/// With probability zero the random draw never flips the carry, so every
/// output byte of a biased bit stream is all-zero or all-one — a uniform
/// repeat of the carry the initial fair coin set.
pub proof fn lemma_zero_probability_content(
    probability: Probability,
    seed: Option<Vec<u8>>,
    length: usize,
    bytes: Seq<u8>,
)
    requires
        probability.is_zero(),
        content_matches(RngConfig::BitTrain { probability, seed, length }, bytes),
    ensures
        bytes.len() == length,
        forall|j: int| 0 <= j < bytes.len() ==> #[trigger] bytes[j] == bytes[0],
        bytes.len() > 0 ==> (bytes[0] == 0 || bytes[0] == 255),
{
    let (init, flips) = choose|init: bool, flips: Seq<bool>|
        #![trigger spec_train_bytes(init, flips, length as int)]
        flips.len() == 8 * length && bytes == spec_train_bytes(
            init,
            flips,
            length as int,
        ) && (probability.is_zero() ==> forall|i: int| 0 <= i < flips.len() ==> !flips[i]) && (
        probability.is_one() ==> forall|i: int| 0 <= i < flips.len() ==> flips[i]);
    lemma_train_all_false(init, flips, length as int);
}

/// With probability one every draw flips the carry, so consecutive bits of
/// a biased bit stream strictly alternate, within and across byte
/// boundaries: every byte is 0xAA or 0x55 according to the initial carry.
pub proof fn lemma_one_probability_content(
    probability: Probability,
    seed: Option<Vec<u8>>,
    length: usize,
    bytes: Seq<u8>,
)
    requires
        probability.is_one(),
        content_matches(RngConfig::BitTrain { probability, seed, length }, bytes),
    ensures
        bytes.len() == length,
        forall|j: int| 0 <= j < bytes.len() ==> #[trigger] bytes[j] == bytes[0],
        bytes.len() > 0 ==> (bytes[0] == 85 || bytes[0] == 170),
        forall|k: int|
            0 <= k && k + 1 < 8 * bytes.len() ==> spec_bit_at(bytes, k + 1)
                != #[trigger] spec_bit_at(bytes, k),
{
    let (init, flips) = choose|init: bool, flips: Seq<bool>|
        #![trigger spec_train_bytes(init, flips, length as int)]
        flips.len() == 8 * length && bytes == spec_train_bytes(
            init,
            flips,
            length as int,
        ) && (probability.is_zero() ==> forall|i: int| 0 <= i < flips.len() ==> !flips[i]) && (
        probability.is_one() ==> forall|i: int| 0 <= i < flips.len() ==> flips[i]);
    lemma_train_all_true(init, flips, length as int);
    assert forall|k: int|
        0 <= k && k + 1 < 8 * bytes.len() implies spec_bit_at(bytes, k + 1)
        != #[trigger] spec_bit_at(bytes, k) by {
        lemma_train_alternates(init, flips, length as int, k);
    }
}

} // verus!
