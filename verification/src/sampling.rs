//! Choosing a token, and numbers that look random.

use vstd::prelude::*;

verus! {

/// The rank of a 32-bit float, given by its bit pattern, in the total order of
/// IEEE 754: negative patterns in reverse, then the others.
pub open spec fn single_rank(bits: u32) -> int {
    if bits >= 0x8000_0000 {
        0xffff_ffff - bits
    } else {
        bits + 0x8000_0000
    }
}

fn rank(bits: u32) -> (rank: u32)
    ensures
        rank == single_rank(bits),
{
    if bits >= 0x8000_0000 {
        0xffff_ffff - bits
    } else {
        bits + 0x8000_0000
    }
}

/// `index` is the last place of the greatest value in the total order.
pub open spec fn is_argmax(values: Seq<u32>, index: int) -> bool {
    &&& 0 <= index < values.len()
    &&& forall|j: int|
        0 <= j < values.len() ==> single_rank(#[trigger] values[j]) <= single_rank(values[index])
    &&& forall|j: int|
        index < j < values.len() ==> single_rank(#[trigger] values[j]) < single_rank(values[index])
}

/// The last place of the greatest value; zero where there is none.
pub fn argmax(values: &Vec<u32>) -> (index: usize)
    ensures
        values@.len() == 0 ==> index == 0,
        values@.len() > 0 ==> is_argmax(values@, index as int),
{
    if values.len() == 0 {
        return 0;
    }
    let mut best: usize = 0;
    let mut index: usize = 1;
    while index < values.len()
        invariant
            1 <= index <= values@.len(),
            best < index,
            forall|j: int|
                0 <= j < index ==> single_rank(#[trigger] values@[j]) <= single_rank(
                    values@[best as int],
                ),
            forall|j: int|
                best < j < index ==> single_rank(#[trigger] values@[j]) < single_rank(
                    values@[best as int],
                ),
        decreases values@.len() - index,
    {
        if rank(values[index]) >= rank(values[best]) {
            best = index;
        }
        index = index + 1;
    }
    best
}

/// Whether a pattern stands for no number.
pub open spec fn is_nan(bits: u32) -> bool {
    bits % 0x8000_0000 > 0x7f80_0000
}

/// The place of a number among the numbers; both zeros have the same.
pub open spec fn magnitude(bits: u32) -> int {
    if bits >= 0x8000_0000 {
        0x8000_0000 - bits
    } else {
        bits as int
    }
}

/// The comparison of two floats: false where one is no number.
pub open spec fn exceeds(left: u32, right: u32) -> bool {
    !is_nan(left) && !is_nan(right) && magnitude(left) > magnitude(right)
}

fn greater(left: u32, right: u32) -> (yes: bool)
    ensures
        yes == exceeds(left, right),
{
    if left % 0x8000_0000 > 0x7f80_0000 || right % 0x8000_0000 > 0x7f80_0000 {
        return false;
    }
    let left_place: i64 = if left >= 0x8000_0000 {
        0x8000_0000 - left as i64
    } else {
        left as i64
    };
    let right_place: i64 = if right >= 0x8000_0000 {
        0x8000_0000 - right as i64
    } else {
        right as i64
    };
    left_place > right_place
}

/// The place that a walk over the values ends with, which moves on whenever a
/// value exceeds the one it stands on.
pub open spec fn greedy_choice(logits: Seq<u32>) -> int
    decreases logits.len(),
{
    if logits.len() <= 1 {
        0
    } else {
        let before = greedy_choice(logits.drop_last());
        if exceeds(logits.last(), logits[before]) {
            logits.len() - 1
        } else {
            before
        }
    }
}

/// Where every value is a number, the choice is the first of the greatest.
pub proof fn greedy_choice_is_first_greatest(logits: Seq<u32>)
    requires
        logits.len() > 0,
        forall|i: int| 0 <= i < logits.len() ==> !is_nan(#[trigger] logits[i]),
    ensures
        0 <= greedy_choice(logits) < logits.len(),
        forall|i: int|
            0 <= i < logits.len() ==> magnitude(#[trigger] logits[i]) <= magnitude(
                logits[greedy_choice(logits)],
            ),
        forall|i: int|
            0 <= i < greedy_choice(logits) ==> magnitude(#[trigger] logits[i]) < magnitude(
                logits[greedy_choice(logits)],
            ),
    decreases logits.len(),
{
    if logits.len() > 1 {
        let rest = logits.drop_last();
        assert forall|i: int| 0 <= i < rest.len() implies !is_nan(#[trigger] rest[i]) by {
            assert(rest[i] == logits[i]);
        }
        greedy_choice_is_first_greatest(rest);
        assert forall|i: int| 0 <= i < logits.len() implies magnitude(#[trigger] logits[i])
            <= magnitude(logits[greedy_choice(logits)]) by {
            if i < rest.len() {
                assert(rest[i] == logits[i]);
            }
        }
        assert forall|i: int| 0 <= i < greedy_choice(logits) implies magnitude(
            #[trigger] logits[i],
        ) < magnitude(logits[greedy_choice(logits)]) by {
            assert(rest[i] == logits[i]);
        }
    }
}

proof fn lemma_choice_in_range(logits: Seq<u32>)
    requires
        logits.len() > 0,
    ensures
        0 <= greedy_choice(logits) < logits.len(),
    decreases logits.len(),
{
    if logits.len() > 1 {
        lemma_choice_in_range(logits.drop_last());
    }
}

/// The greedy choice and its value.
pub fn cpu_greedy_argmax_f32(logits: &Vec<u32>) -> (choice: (u32, u32))
    requires
        0 < logits@.len() <= u32::MAX,
    ensures
        choice.0 == greedy_choice(logits@),
        choice.1 == logits@[greedy_choice(logits@)],
{
    let mut best: usize = 0;
    let mut index: usize = 1;
    while index < logits.len()
        invariant
            1 <= index <= logits@.len(),
            best < index,
            best == greedy_choice(logits@.take(index as int)),
        decreases logits@.len() - index,
    {
        assert(logits@.take(index + 1).drop_last() =~= logits@.take(index as int));
        assert(logits@.take(index + 1).last() == logits@[index as int]);
        if greater(logits[index], logits[best]) {
            best = index;
        }
        index = index + 1;
    }
    assert(logits@.take(index as int) =~= logits@);
    (best as u32, logits[best])
}

/// The state of the generator after a number of steps.
pub open spec fn generator_state(seed: u32, steps: nat) -> u32
    decreases steps,
{
    if steps == 0 {
        seed
    } else {
        generator_state(seed, (steps - 1) as nat).wrapping_mul(1_664_525).wrapping_add(
            1_013_904_223,
        )
    }
}

/// Numbers below 2^24 that a seed determines: the upper bits of successive
/// states.
pub fn deterministic_units(len: usize, seed: u32) -> (units: Vec<u32>)
    ensures
        units@ == Seq::new(
            len as nat,
            |i: int| (generator_state(seed, (i + 1) as nat) / 256) as u32,
        ),
{
    let ghost expected = Seq::new(
        len as nat,
        |i: int| (generator_state(seed, (i + 1) as nat) / 256) as u32,
    );
    let mut units: Vec<u32> = Vec::new();
    let mut state: u32 = seed;
    let mut index: usize = 0;
    while index < len
        invariant
            index <= len,
            state == generator_state(seed, index as nat),
            expected == Seq::new(
                len as nat,
                |i: int| (generator_state(seed, (i + 1) as nat) / 256) as u32,
            ),
            units@ == expected.take(index as int),
        decreases len - index,
    {
        state = state.wrapping_mul(1_664_525).wrapping_add(1_013_904_223);
        units.push(state / 256);
        index = index + 1;
        assert(units@ =~= expected.take(index as int));
    }
    assert(expected.take(index as int) =~= expected);
    units
}

/// The order of singles: what is negative comes before what is not; of two that
/// are not negative the one with the smaller pattern comes first, of two that
/// are the one with the greater. No two patterns have the same rank.
pub proof fn ranks_order_singles(left: u32, right: u32)
    ensures
        left < 0x8000_0000 && right < 0x8000_0000 ==> (single_rank(left) < single_rank(right)
            <==> left < right),
        left >= 0x8000_0000 && right >= 0x8000_0000 ==> (single_rank(left) < single_rank(right)
            <==> left > right),
        left >= 0x8000_0000 && right < 0x8000_0000 ==> single_rank(left) < single_rank(right),
        single_rank(left) == single_rank(right) ==> left == right,
{
}

/// One float exceeds another where both are numbers and it is the greater: of
/// two that are not negative the one with the greater pattern, of two that are
/// the one with the smaller, and what is above zero exceeds what is not. The two
/// zeros do not exceed each other, and what is no number neither exceeds nor is
/// exceeded.
pub proof fn exceeding_orders_numbers(left: u32, right: u32)
    ensures
        ({
            let no_number = |bits: u32|
                0x7f80_0000 < bits < 0x8000_0000 || 0xff80_0000 < bits <= 0xffff_ffff;
            if no_number(left) || no_number(right) {
                !exceeds(left, right)
            } else if left < 0x8000_0000 && right < 0x8000_0000 {
                exceeds(left, right) <==> left > right
            } else if left >= 0x8000_0000 && right >= 0x8000_0000 {
                exceeds(left, right) <==> left < right
            } else if left < 0x8000_0000 {
                exceeds(left, right) <==> left != 0 || right != 0x8000_0000
            } else {
                !exceeds(left, right)
            }
        }),
{
}

/// The greedy choice is one of the values, and no value that comes later exceeds
/// it.
pub proof fn nothing_later_exceeds_the_choice(logits: Seq<u32>, later: int)
    requires
        greedy_choice(logits) < later < logits.len(),
    ensures
        0 <= greedy_choice(logits) < logits.len(),
        !exceeds(logits[later], logits[greedy_choice(logits)]),
    decreases logits.len(),
{
    lemma_choice_in_range(logits);
    if logits.len() > 1 {
        let rest = logits.drop_last();
        lemma_choice_in_range(rest);
        if greedy_choice(logits) < logits.len() - 1 && later < logits.len() - 1 {
            nothing_later_exceeds_the_choice(rest, later);
        }
    }
}

/// There is just one last place of the greatest value.
pub proof fn the_last_greatest_is_one_place(values: Seq<u32>, left: int, right: int)
    requires
        is_argmax(values, left),
        is_argmax(values, right),
    ensures
        left == right,
        forall|j: int| 0 <= j < values.len() ==> single_rank(values[left]) >= single_rank(values[j]),
{
    assert(single_rank(values[left]) <= single_rank(values[right]));
    assert(single_rank(values[right]) <= single_rank(values[left]));
}

} // verus!
