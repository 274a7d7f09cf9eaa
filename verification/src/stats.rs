//! Medians of measured times.

use vstd::prelude::*;
use vstd::relations::{sorted_by, total_ordering};

verus! {

/// The rank of a double, given by its bit pattern, in the total order of IEEE
/// 754: negative patterns in reverse, then the others.
pub open spec fn double_rank(bits: u64) -> int {
    if bits >= 0x8000_0000_0000_0000 {
        0xffff_ffff_ffff_ffff - bits
    } else {
        bits + 0x8000_0000_0000_0000
    }
}

fn rank(bits: u64) -> (rank: u64)
    ensures
        rank == double_rank(bits),
{
    if bits >= 0x8000_0000_0000_0000 {
        0xffff_ffff_ffff_ffff - bits
    } else {
        bits + 0x8000_0000_0000_0000
    }
}

/// The total order of doubles.
pub open spec fn double_order() -> spec_fn(u64, u64) -> bool {
    |left: u64, right: u64| double_rank(left) <= double_rank(right)
}

pub proof fn lemma_double_order()
    ensures
        total_ordering(double_order()),
{
}

/// What a median is made of: nothing, the middle value, or the two middle
/// values whose mean it is.
#[derive(Debug, Clone, Copy, PartialEq, Eq, Structural)]
pub enum Middle {
    Nothing,
    One(u64),
    Two(u64, u64),
}

pub open spec fn middle_of(values: Seq<u64>) -> Middle {
    let ordered = values.sort_by(double_order());
    let half = values.len() as int / 2;
    if values.len() == 0 {
        Middle::Nothing
    } else if values.len() % 2 == 0 {
        Middle::Two(ordered[half - 1], ordered[half])
    } else {
        Middle::One(ordered[half])
    }
}

fn place_of(ordered: &Vec<u64>, value: u64) -> (place: usize)
    requires
        sorted_by(ordered@, double_order()),
    ensures
        place <= ordered@.len(),
        forall|i: int| 0 <= i < place ==> double_rank(#[trigger] ordered@[i]) <= double_rank(value),
        forall|i: int|
            place <= i < ordered@.len() ==> double_rank(value) <= double_rank(
                #[trigger] ordered@[i],
            ),
{
    let mut place: usize = 0;
    while place < ordered.len() && rank(ordered[place]) <= rank(value)
        invariant
            place <= ordered@.len(),
            forall|i: int|
                0 <= i < place ==> double_rank(#[trigger] ordered@[i]) <= double_rank(value),
        decreases ordered@.len() - place,
    {
        place = place + 1;
    }
    proof {
        if place < ordered@.len() {
            let order = double_order();
            assert forall|i: int| place <= i < ordered@.len() implies double_rank(value)
                <= double_rank(#[trigger] ordered@[i]) by {
                if i > place {
                    assert(order(ordered@[place as int], ordered@[i]));
                }
            }
        }
    }
    place
}

proof fn lemma_insert_multiset(items: Seq<u64>, place: int, value: u64)
    requires
        0 <= place <= items.len(),
    ensures
        items.insert(place, value).to_multiset() == items.to_multiset().insert(value),
{
    broadcast use vstd::multiset::group_multiset_axioms;

    let after = items.insert(place, value);
    assert(after.remove(place) =~= items);
    vstd::seq_lib::to_multiset_remove(after, place);
    vstd::seq_lib::to_multiset_contains(after, value);
    assert(after[place] == value);
    assert(after.to_multiset() =~= items.to_multiset().insert(value));
}

/// The values in their total order.
pub fn sort_doubles(values: &Vec<u64>) -> (ordered: Vec<u64>)
    ensures
        ordered@ == values@.sort_by(double_order()),
{
    let mut ordered: Vec<u64> = Vec::new();
    let mut index: usize = 0;
    proof {
        assert(values@.take(0) =~= Seq::<u64>::empty());
    }
    while index < values.len()
        invariant
            index <= values@.len(),
            sorted_by(ordered@, double_order()),
            ordered@.to_multiset() == values@.take(index as int).to_multiset(),
            ordered@.len() == index,
        decreases values@.len() - index,
    {
        let value: u64 = values[index];
        let place: usize = place_of(&ordered, value);
        let ghost before = ordered@;
        ordered.insert(place, value);
        proof {
            let order = double_order();
            assert forall|i: int, j: int| 0 <= i < j < ordered@.len() implies #[trigger] order(
                ordered@[i],
                ordered@[j],
            ) by {
                let a = if i < place {
                    i
                } else {
                    i - 1
                };
                let b = if j < place {
                    j
                } else {
                    j - 1
                };
                if i != place && j != place {
                    assert(order(before[a], before[b]));
                }
            }
            lemma_insert_multiset(before, place as int, value);
            assert(values@.take(index + 1) =~= values@.take(index as int).push(value));
            vstd::seq_lib::to_multiset_build(values@.take(index as int), value);
        }
        index = index + 1;
    }
    proof {
        assert(values@.take(index as int) =~= values@);
        lemma_double_order();
        values@.lemma_sort_by_ensures(double_order());
        vstd::seq_lib::lemma_sorted_unique(
            ordered@,
            values@.sort_by(double_order()),
            double_order(),
        );
    }
    ordered
}

pub fn median(values: &Vec<u64>) -> (middle: Middle)
    ensures
        middle == middle_of(values@),
{
    if values.len() == 0 {
        return Middle::Nothing;
    }
    let ordered: Vec<u64> = sort_doubles(values);
    proof {
        lemma_double_order();
        values@.lemma_sort_by_ensures(double_order());
        vstd::seq_lib::to_multiset_len(values@);
        vstd::seq_lib::to_multiset_len(ordered@);
    }
    let half: usize = ordered.len() / 2;
    if ordered.len() % 2 == 0 {
        Middle::Two(ordered[half - 1], ordered[half])
    } else {
        Middle::One(ordered[half])
    }
}

/// The order in which values were measured does not change their median.
pub proof fn median_ignores_order(left: Seq<u64>, right: Seq<u64>)
    requires
        left.to_multiset() == right.to_multiset(),
    ensures
        middle_of(left) == middle_of(right),
{
    lemma_double_order();
    left.lemma_sort_by_ensures(double_order());
    right.lemma_sort_by_ensures(double_order());
    vstd::seq_lib::lemma_sorted_unique(
        left.sort_by(double_order()),
        right.sort_by(double_order()),
        double_order(),
    );
    vstd::seq_lib::to_multiset_len(left);
    vstd::seq_lib::to_multiset_len(right);
}

/// The median of values that stand in their order is the one in the middle, or
/// the two there.
pub proof fn median_stands_in_the_middle(values: Seq<u64>)
    requires
        forall|i: int, j: int|
            0 <= i < j < values.len() ==> double_rank(#[trigger] values[i]) <= double_rank(
                #[trigger] values[j],
            ),
    ensures
        middle_of(values) == if values.len() == 0 {
            Middle::Nothing
        } else if values.len() % 2 == 1 {
            Middle::One(values[(values.len() - 1) / 2])
        } else {
            Middle::Two(values[values.len() / 2 - 1], values[values.len() as int / 2])
        },
{
    let order = double_order();
    lemma_double_order();
    values.lemma_sort_by_ensures(order);
    assert(sorted_by(values, order)) by {
        assert forall|i: int, j: int| 0 <= i < j < values.len() implies #[trigger] order(
            values[i],
            values[j],
        ) by {}
    }
    vstd::seq_lib::lemma_sorted_unique(values, values.sort_by(order), order);
}

/// The order of doubles: what is negative comes before what is not; of two that
/// are not negative the one with the smaller pattern comes first, of two that
/// are the one with the greater. No two patterns have the same rank.
pub proof fn ranks_order_doubles(left: u64, right: u64)
    ensures
        left < 0x8000_0000_0000_0000 && right < 0x8000_0000_0000_0000 ==> (double_rank(left)
            < double_rank(right) <==> left < right),
        left >= 0x8000_0000_0000_0000 && right >= 0x8000_0000_0000_0000 ==> (double_rank(left)
            < double_rank(right) <==> left > right),
        left >= 0x8000_0000_0000_0000 && right < 0x8000_0000_0000_0000 ==> double_rank(left)
            < double_rank(right),
        double_rank(left) == double_rank(right) ==> left == right,
{
}

} // verus!
