//! Random choice among items by integer weights, drawn with `rand`'s
//! `WeightedIndex` and the thread-local generator.
use vstd::prelude::*;
use rand::distributions::{Distribution, WeightedError, WeightedIndex};
use rand::rngs::ThreadRng;
use rand::Rng;

verus! {

/// A `WeightedIndex` over `u32` weights, held where Verus does not look.
#[verifier::external_body]
pub struct WeightTable {
    index: WeightedIndex<u32>,
}

#[verifier::external_type_specification]
#[verifier::external_body]
pub struct ExThreadRng(ThreadRng);

/// The weights that the `WeightedIndex` of a table was made from, one per
/// item, in order.
pub uninterp spec fn index_weights(table: WeightTable) -> Seq<u32>;

/// Why a set of weights gives no distribution.
#[derive(PartialEq, Eq, Structural, Debug, Clone, Copy)]
pub enum ChoiceError {
    /// There are no weights.
    NoItem,
    /// A weight is invalid (never the case for unsigned weights).
    InvalidWeight,
    /// Every weight is zero.
    AllWeightsZero,
    /// There are too many weights (only reported when weights are updated).
    TooMany,
}

/// The sum of the weights.
pub open spec fn total_weight(w: Seq<u32>) -> nat
    decreases w.len(),
{
    if w.len() == 0 {
        0
    } else {
        total_weight(w.drop_last()) + w.last() as nat
    }
}

/// What building a distribution from `w` gives: `NoItem` for no weights,
/// `AllWeightsZero` where they sum to 0, and otherwise a distribution.
pub open spec fn weights_error(w: Seq<u32>) -> Option<ChoiceError> {
    if w.len() == 0 {
        Some(ChoiceError::NoItem)
    } else if total_weight(w) == 0 {
        Some(ChoiceError::AllWeightsZero)
    } else {
        None
    }
}

/// `WeightedIndex::new` on `u32` weights. `rand`'s `WeightedIndex::new`
/// returns `NoItem` for no weights, `AllWeightsZero` where the sum is 0 (`InvalidWeight` is only for
/// weights below zero, which `u32` has none of), and otherwise a
/// distribution over the positions of the weights. It adds the weights up
/// in `u32`, which overflows where the sum exceeds `u32::MAX`; that input is
/// left out.
#[verifier::external_body]
fn new_weighted_index(weights: &[u32]) -> (res: Result<WeightTable, ChoiceError>)
    requires
        total_weight(weights@) <= u32::MAX,
    ensures
        match res {
            Ok(index) => weights_error(weights@) is None && index_weights(index) == weights@,
            Err(e) => weights_error(weights@) == Some(e),
        },
{
    match WeightedIndex::new(weights) {
        Ok(index) => Ok(WeightTable { index }),
        Err(WeightedError::NoItem) => Err(ChoiceError::NoItem),
        Err(WeightedError::InvalidWeight) => Err(ChoiceError::InvalidWeight),
        Err(WeightedError::AllWeightsZero) => Err(ChoiceError::AllWeightsZero),
        Err(WeightedError::TooMany) => Err(ChoiceError::TooMany),
    }
}

/// `rand::thread_rng`: the generator of the calling thread. Nothing is
/// stated of its state, which the operating system seeds.
#[verifier::external_body]
fn new_thread_rng() -> ThreadRng {
    rand::thread_rng()
}

/// `Distribution::sample` of a `WeightedIndex` over `u32` weights. `rand`'s
/// `WeightedIndex::sample` draws a number uniformly below the total weight and returns the
/// first position whose running sum exceeds it; so, whatever was drawn, the
/// position is that of an item with a weight above 0. Which one it is rests
/// on chance and is not stated.
#[verifier::external_body]
fn sample_index(table: &WeightTable, rng: &mut ThreadRng) -> (i: usize)
    requires
        total_weight(index_weights(*table)) > 0,
    ensures
        i < index_weights(*table).len(),
        index_weights(*table)[i as int] > 0,
{
    table.index.sample(rng)
}

/// `Rng::gen_range` over `lo..hi` for `u64`: a number drawn uniformly from
/// the range; `rand`'s `Rng::gen_range` panics on an empty range, which is left out. Which
/// number comes out rests on chance; only the range is stated.
#[verifier::external_body]
fn gen_range_u64(rng: &mut ThreadRng, lo: u64, hi: u64) -> (d: u64)
    requires
        lo < hi,
    ensures
        lo <= d < hi,
{
    rng.gen_range(lo..hi)
}

/// A random delay for a fixed-pool worker, in milliseconds: at least 500,
/// below 2000.
pub fn random_delay_ms(rng: &mut ThreadRng) -> (d: u64)
    ensures
        500 <= d < 2000,
{
    gen_range_u64(rng, 500, 2000)
}

/// Items with a weight each, and the distribution drawn from.
pub struct WeightedChoice<T> {
    choices: Vec<T>,
    weights: Vec<u32>,
    index: WeightTable,
}

/// Every weight at a position from `n` on is 0.
pub open spec fn no_weight_past(w: Seq<u32>, n: nat) -> bool {
    forall|i: int| n <= i < w.len() ==> w[i] == 0
}

/// A sum of weights is 0 only where every weight is 0.
proof fn lemma_total_zero(w: Seq<u32>)
    ensures
        total_weight(w) == 0 <==> forall|i: int| 0 <= i < w.len() ==> w[i] == 0,
    decreases w.len(),
{
    if w.len() > 0 {
        lemma_total_zero(w.drop_last());
        if total_weight(w) == 0 {
            assert forall|i: int| 0 <= i < w.len() implies w[i] == 0 by {
                if i < w.len() - 1 {
                    assert(w.drop_last()[i] == w[i]);
                }
            }
        } else if forall|i: int| 0 <= i < w.len() ==> w[i] == 0 {
            assert forall|i: int| 0 <= i < w.drop_last().len() implies w.drop_last()[i] == 0 by {
                assert(w.drop_last()[i] == w[i]);
            }
            assert(w[w.len() - 1] == 0);
        }
    }
}

impl<T: Copy> WeightedChoice<T> {
    /// The items that can be drawn.
    pub closed spec fn choices(&self) -> Seq<T> {
        self.choices@
    }

    /// The weight of each item, by position.
    pub closed spec fn weights(&self) -> Seq<u32> {
        self.weights@
    }

    /// The invariant: the distribution is the one of the weights, which are
    /// not all 0 and give no weight above 0 to a position past the items.
    pub closed spec fn wf(&self) -> bool {
        &&& index_weights(self.index) == self.weights@
        &&& weights_error(self.weights@) is None
        &&& no_weight_past(self.weights@, self.choices@.len())
    }

    /// Whether `item` is one that a draw can give: an item whose weight is
    /// above 0.
    pub open spec fn can_draw(&self, item: T) -> bool {
        exists|i: int|
            0 <= i < self.weights().len() && self.weights()[i] > 0 && #[trigger] self.choices()[i]
                == item
    }

    /// A choice among `choices` by `weights`, the `i`-th weight for the
    /// `i`-th item; the error of `weights_error` where the weights give no
    /// distribution.
    pub fn new(choices: Vec<T>, weights: Vec<u32>) -> (res: Result<Self, ChoiceError>)
        requires
            total_weight(weights@) <= u32::MAX,
            no_weight_past(weights@, choices@.len()),
        ensures
            match res {
                Ok(c) => weights_error(weights@) is None && c.wf() && c.choices() == choices@
                    && c.weights() == weights@,
                Err(e) => weights_error(weights@) == Some(e),
            },
    {
        match new_weighted_index(weights.as_slice()) {
            Ok(index) => Ok(WeightedChoice { choices, weights, index }),
            Err(e) => Err(e),
        }
    }

    /// The item at the position `i` that a draw gave.
    pub fn item_at(&self, i: usize) -> (item: T)
        requires
            i < self.choices().len(),
        ensures
            item == self.choices()[i as int],
    {
        self.choices[i]
    }

    /// One draw with the generator `rng`: the item at the drawn position,
    /// whose weight is above 0.
    pub fn pick(&self, rng: &mut ThreadRng) -> (item: T)
        requires
            self.wf(),
        ensures
            self.can_draw(item),
    {
        let i = sample_index(&self.index, rng);
        self.item_at(i)
    }

    /// `count` draws with the thread's generator, in order; each is an item
    /// whose weight is above 0.
    pub fn draw(&self, count: usize) -> (items: Vec<T>)
        requires
            self.wf(),
        ensures
            items@.len() == count,
            forall|k: int| 0 <= k < count ==> self.can_draw(#[trigger] items@[k]),
    {
        let mut rng = new_thread_rng();
        let mut items: Vec<T> = Vec::new();
        let mut k: usize = 0;
        while k < count
            invariant
                self.wf(),
                k <= count,
                items@.len() == k,
                forall|j: int| 0 <= j < k ==> self.can_draw(#[trigger] items@[j]),
            decreases count - k,
        {
            let item = self.pick(&mut rng);
            items.push(item);
            k += 1;
        }
        items
    }
}

/// Every choice has an item that a draw can give: some weight is above 0.
pub proof fn lemma_some_weight_positive<T: Copy>(c: WeightedChoice<T>)
    requires
        c.wf(),
    ensures
        exists|i: int| 0 <= i < c.weights().len() && c.weights()[i] > 0,
{
    lemma_total_zero(c.weights());
}

} // verus!
