use vstd::prelude::*;

use crate::errors::WrongConfigDataError;

verus! {

/// A probability in [0, 1], held as the exact ratio `numerator / denominator`.
///
/// The pseudo-random sampler consumes probabilities in this form, so the
/// configuration carries it directly instead of an inexact binary fraction.
#[derive(Clone, Copy, Debug, PartialEq, Eq, Structural)]
pub struct Probability {
    pub numerator: u32,
    pub denominator: u32,
}

impl Probability {
    /// The ratio denotes a probability: the denominator is positive and the
    /// value does not exceed one.
    pub open spec fn is_valid(self) -> bool {
        self.denominator > 0 && self.numerator <= self.denominator
    }

    /// Probability zero: a biased flip never comes up true.
    pub open spec fn is_zero(self) -> bool {
        self.numerator == 0
    }

    /// Probability one: a biased flip always comes up true.
    pub open spec fn is_one(self) -> bool {
        self.numerator == self.denominator
    }
}

/// A declarative recipe for producing one name or one content byte sequence.
pub enum RngConfig {
    /// Repeat `value` cyclically until `length` bytes are produced.
    CycleGen { value: Vec<u8>, length: usize },
    /// Sample whole elements of `value` uniformly with replacement and
    /// concatenate them until at least `length` bytes accumulate, then
    /// truncate to exactly `length`.
    RangeGen { value: Vec<Vec<u8>>, seed: Option<Vec<u8>>, length: usize },
    /// Produce `length` bytes from the biased, carry-accumulating bit stream.
    BitTrain { probability: Probability, seed: Option<Vec<u8>>, length: usize },
    /// Use the string itself: as text for names, as its UTF-8 bytes for content.
    StringGen { value: String },
}

/// One node of the configuration tree: a file to create, or a directory to
/// create together with its children, in order.
pub enum ItemConfig {
    FileConfig { name: RngConfig, rand_gen: RngConfig },
    DirectoryConfig { name: RngConfig, items: Vec<ItemConfig> },
}

/// The data-model invariants of a single rule: a cyclic source may be empty
/// only for zero-length output, a choice set is never empty, and a probability
/// ratio lies in [0, 1].
pub open spec fn rule_valid(r: RngConfig) -> bool {
    match r {
        RngConfig::CycleGen { value, length } => length == 0 || value@.len() > 0,
        RngConfig::RangeGen { value, seed, length } => value@.len() > 0,
        RngConfig::BitTrain { probability, seed, length } => probability.is_valid(),
        RngConfig::StringGen { value } => true,
    }
}

/// Only rules that deterministically yield text may name a filesystem entry;
/// the pseudo-random generators produce arbitrary binary and are rejected.
pub open spec fn name_rule_ok(r: RngConfig) -> bool {
    match r {
        RngConfig::StringGen { value } => true,
        RngConfig::CycleGen { value, length } => true,
        _ => false,
    }
}

/// The rule that names the entry a node stands for.
pub open spec fn item_name_rule(c: ItemConfig) -> RngConfig {
    match c {
        ItemConfig::FileConfig { name, rand_gen } => name,
        ItemConfig::DirectoryConfig { name, items } => name,
    }
}

/// The whole tree obeys the data-model invariants and every node's name rule
/// is one that can yield text.
pub open spec fn item_valid(c: ItemConfig) -> bool
    decreases c,
{
    match c {
        ItemConfig::FileConfig { name, rand_gen } => rule_valid(name) && name_rule_ok(name)
            && rule_valid(rand_gen),
        ItemConfig::DirectoryConfig { name, items } => rule_valid(name) && name_rule_ok(name)
            && forall|i: int| 0 <= i < items@.len() ==> item_valid(#[trigger] items@[i]),
    }
}

/// Checks the data-model invariants of one rule.
pub fn check_rule(r: &RngConfig) -> (b: bool)
    ensures
        b == rule_valid(*r),
{
    match r {
        RngConfig::CycleGen { value, length } => *length == 0 || value.len() > 0,
        RngConfig::RangeGen { value, seed, length } => value.len() > 0,
        RngConfig::BitTrain { probability, seed, length } => probability.denominator > 0
            && probability.numerator <= probability.denominator,
        RngConfig::StringGen { value } => true,
    }
}

/// Checks that a rule may be used to name an entry.
pub fn check_name_rule(r: &RngConfig) -> (b: bool)
    ensures
        b == name_rule_ok(*r),
{
    match r {
        RngConfig::StringGen { value } => true,
        RngConfig::CycleGen { value, length } => true,
        _ => false,
    }
}

/// Validates a configuration tree against the data-model invariants, before
/// any generation runs: every rule is well formed and every name rule can
/// yield text.
#[verifier::loop_isolation(false)]
pub fn validate_config(conf: &ItemConfig) -> (r: Result<(), WrongConfigDataError>)
    ensures
        r is Ok <==> item_valid(*conf),
    decreases *conf,
{
    match conf {
        ItemConfig::FileConfig { name, rand_gen } => {
            if check_rule(name) && check_name_rule(name) && check_rule(rand_gen) {
                Ok(())
            } else {
                Err(WrongConfigDataError)
            }
        },
        ItemConfig::DirectoryConfig { name, items } => {
            if !(check_rule(name) && check_name_rule(name)) {
                return Err(WrongConfigDataError);
            }
            for i in 0..items.len()
                invariant
                    forall|j: int| 0 <= j < i ==> item_valid(#[trigger] items@[j]),
            {
                proof {
                    assert(decreases_to!(*conf => items@));
                    assert(decreases_to!(items@ => items@[i as int]));
                }
                if validate_config(&items[i]).is_err() {
                    return Err(WrongConfigDataError);
                }
            }
            Ok(())
        },
    }
}

} // verus!
