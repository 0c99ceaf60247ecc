//! Core language-concept walkthrough: small numeric utilities (leap years,
//! parity, Fibonacci), a selection-based sorter with its minimum finder, a
//! binary search with a deliberate off-by-one in its result, loop-control
//! demonstrations, and a fixed verse word list.

use vstd::multiset::Multiset;
use vstd::prelude::*;

verus! {

broadcast use {
    vstd::seq_lib::to_multiset_build,
    vstd::seq_lib::to_multiset_remove,
    vstd::seq_lib::to_multiset_len,
    vstd::seq_lib::to_multiset_contains,
};

/// Seconds in three hours.
pub const THREE_HOURS_IN_SECONDS: u32 = 60 * 60 * 3;

/// A year is a leap year when it is divisible by 4 and either divisible by
/// 400 or not divisible by 100.
pub open spec fn is_leap_year_spec(year: u16) -> bool {
    year % 4 == 0 && (year % 400 == 0 || year % 100 != 0)
}

pub fn is_leap_year(year: u16) -> (r: bool)
    ensures
        r == is_leap_year_spec(year),
{
    let mut is_leap_year: bool = false;
    if year % 4 == 0 && (year % 400 == 0 || year % 100 != 0) {
        is_leap_year = true;
    }
    is_leap_year
}

/// A number is odd when dividing by two leaves a remainder.
pub open spec fn is_odd_spec(number: i32) -> bool {
    number % 2 != 0
}

pub fn is_odd(number: i32) -> (r: bool)
    ensures
        r == is_odd_spec(number),
{
    return if number % 2 == 0 { false } else { true };
}

/// The Fibonacci numbers, extended with a zeroth value of 0 so that the
/// recurrence also covers the second value.
pub open spec fn fib_spec(n: nat) -> nat
    decreases n,
{
    if n == 0 {
        0
    } else if n <= 2 {
        1
    } else {
        fib_spec((n - 1) as nat) + fib_spec((n - 2) as nat)
    }
}

/// The Fibonacci sequence never decreases.
pub proof fn lemma_fib_monotonic(m: nat, n: nat)
    requires
        m <= n,
    ensures
        fib_spec(m) <= fib_spec(n),
    decreases n - m,
{
    if m < n {
        lemma_fib_monotonic(m, (n - 1) as nat);
    }
}

/// Every Fibonacci number from the third on is the sum of the two before it.
pub proof fn lemma_fib_recurrence(n: nat)
    requires
        n >= 3,
    ensures
        fib_spec(n) == fib_spec((n - 1) as nat) + fib_spec((n - 2) as nat),
{
}

/// The largest Fibonacci number that fits in an `i32`.
proof fn lemma_fib_46()
    ensures
        fib_spec(46) == 1836311903,
{
    assert(fib_spec(1) == 1);
    assert(fib_spec(2) == 1);
    assert(fib_spec(3) == 2);
    assert(fib_spec(4) == 3);
    assert(fib_spec(5) == 5);
    assert(fib_spec(6) == 8);
    assert(fib_spec(7) == 13);
    assert(fib_spec(8) == 21);
    assert(fib_spec(9) == 34);
    assert(fib_spec(10) == 55);
    assert(fib_spec(11) == 89);
    assert(fib_spec(12) == 144);
    assert(fib_spec(13) == 233);
    assert(fib_spec(14) == 377);
    assert(fib_spec(15) == 610);
    assert(fib_spec(16) == 987);
    assert(fib_spec(17) == 1597);
    assert(fib_spec(18) == 2584);
    assert(fib_spec(19) == 4181);
    assert(fib_spec(20) == 6765);
    assert(fib_spec(21) == 10946);
    assert(fib_spec(22) == 17711);
    assert(fib_spec(23) == 28657);
    assert(fib_spec(24) == 46368);
    assert(fib_spec(25) == 75025);
    assert(fib_spec(26) == 121393);
    assert(fib_spec(27) == 196418);
    assert(fib_spec(28) == 317811);
    assert(fib_spec(29) == 514229);
    assert(fib_spec(30) == 832040);
    assert(fib_spec(31) == 1346269);
    assert(fib_spec(32) == 2178309);
    assert(fib_spec(33) == 3524578);
    assert(fib_spec(34) == 5702887);
    assert(fib_spec(35) == 9227465);
    assert(fib_spec(36) == 14930352);
    assert(fib_spec(37) == 24157817);
    assert(fib_spec(38) == 39088169);
    assert(fib_spec(39) == 63245986);
    assert(fib_spec(40) == 102334155);
    assert(fib_spec(41) == 165580141);
    assert(fib_spec(42) == 267914296);
    assert(fib_spec(43) == 433494437);
    assert(fib_spec(44) == 701408733);
    assert(fib_spec(45) == 1134903170);
    assert(fib_spec(46) == 1836311903);
}

/// Naive doubly-recursive Fibonacci. The bound of 46 is the machine limit:
/// the 47th Fibonacci number no longer fits in an `i32`.
pub fn fib(number: i32) -> (r: i32)
    requires
        1 <= number <= 46,
    ensures
        r == fib_spec(number as nat),
    decreases number,
{
    proof {
        lemma_fib_monotonic(number as nat, 46);
        lemma_fib_46();
    }
    if number == 1 || number == 2 {
        return 1;
    }
    return fib(number - 1) + fib(number - 2);
}

/// A sequence is sorted when no later element is smaller than an earlier one.
pub open spec fn sorted_spec(s: Seq<i32>) -> bool {
    forall|i: int, j: int| 0 <= i <= j < s.len() ==> s[i] <= s[j]
}

/// Index of the first occurrence of the minimum. The list is only read; the
/// mutable borrow mirrors how the sorter hands the list around.
pub fn find_smallest(numbers: &mut Vec<i32>) -> (r: usize)
    requires
        old(numbers)@.len() > 0,
    ensures
        final(numbers)@ == old(numbers)@,
        r < old(numbers)@.len(),
        forall|i: int| 0 <= i < old(numbers)@.len()
            ==> old(numbers)@[r as int] <= old(numbers)@[i],
        forall|i: int| 0 <= i < r ==> old(numbers)@[i] > old(numbers)@[r as int],
{
    let mut smallest = numbers[0];
    let mut smallest_index: usize = 0;
    let mut count: usize = 0;

    loop
        invariant
            numbers@ == old(numbers)@,
            count <= numbers@.len(),
            smallest_index < numbers@.len(),
            smallest == numbers@[smallest_index as int],
            forall|i: int| 0 <= i < count ==> smallest <= numbers@[i],
            forall|i: int| 0 <= i < smallest_index ==> numbers@[i] > smallest,
            smallest_index <= count,
        ensures
            numbers@ == old(numbers)@,
            count == numbers@.len(),
            smallest_index < numbers@.len(),
            forall|i: int| 0 <= i < numbers@.len()
                ==> numbers@[smallest_index as int] <= numbers@[i],
            forall|i: int| 0 <= i < smallest_index
                ==> numbers@[i] > numbers@[smallest_index as int],
        decreases numbers@.len() - count,
    {
        if count < numbers.len() {
            if smallest > numbers[count] {
                smallest = numbers[count];
                smallest_index = count;
            }
            count += 1;
        } else {
            break;
        }
    }

    smallest_index
}

/// Selection sort by repeated extraction: drains the input, returning its
/// elements as a new ascending sequence.
pub fn selection_search(numbers: &mut Vec<i32>) -> (sorted: Vec<i32>)
    ensures
        sorted_spec(sorted@),
        sorted@.to_multiset() == old(numbers)@.to_multiset(),
        final(numbers)@.len() == 0,
{
    let mut sorted: Vec<i32> = Vec::new();
    let length = numbers.len();
    let mut count: usize = 0;

    loop
        invariant
            count + numbers@.len() == length,
            sorted@.len() == count,
            sorted_spec(sorted@),
            sorted@.to_multiset().add(numbers@.to_multiset())
                == old(numbers)@.to_multiset(),
            forall|i: int, j: int|
                0 <= i < sorted@.len() && 0 <= j < numbers@.len()
                    ==> sorted@[i] <= numbers@[j],
        ensures
            numbers@.len() == 0,
            sorted_spec(sorted@),
            sorted@.to_multiset().add(numbers@.to_multiset())
                == old(numbers)@.to_multiset(),
        decreases length - count,
    {
        if count < length {
            let smallest = find_smallest(numbers);
            sorted.push(numbers[smallest]);
            let ghost pre = numbers@;
            let extracted = numbers.remove(smallest);
            proof {
                assert(numbers@ == pre.remove(smallest as int));
            }
            count += 1;
        } else {
            break;
        }
    }

    proof {
        assert(numbers@.to_multiset() =~= Multiset::<i32>::empty());
        assert(sorted@.to_multiset().add(Multiset::<i32>::empty())
            =~= sorted@.to_multiset());
    }
    return sorted;
}

/// Low/high-bracket binary search over a sorted slice. On a match it returns
/// `middle - 1` — one to the left of the found position — a deliberate,
/// documented defect that the contract pins down. The preconditions keep
/// out the inputs on which the decrement would underflow.
pub fn binary_search(numbers: &[i32], number: i32) -> (r: Option<usize>)
    requires
        sorted_spec(numbers@),
        numbers@.len() >= 1,
        numbers@.len() * 2 <= usize::MAX,
        numbers@[0] < number,
    ensures
        r matches Some(i) ==> i + 1 < numbers@.len() && numbers@[i + 1 as int] == number,
        r is None ==> forall|i: int| 0 <= i < numbers@.len() ==> numbers@[i] != number,
{
    let mut low: usize = 0;
    let mut high: usize = numbers.len() - 1;

    while low <= high
        invariant
            sorted_spec(numbers@),
            numbers@.len() >= 1,
            numbers@.len() * 2 <= usize::MAX,
            numbers@[0] < number,
            low <= high + 1,
            high < numbers@.len(),
            forall|i: int| 0 <= i < low ==> numbers@[i] < number,
            forall|i: int| high < i < numbers@.len() ==> numbers@[i] > number,
        ensures
            low > high,
            forall|i: int| 0 <= i < low ==> numbers@[i] < number,
            forall|i: int| high < i < numbers@.len() ==> numbers@[i] > number,
        decreases high + 1 - low,
    {
        let middle = (low + high) / 2;
        let guess = numbers[middle];

        if guess == number {
            return Some(middle - 1);
        }

        if guess > number {
            high = middle - 1;
        } else {
            low = middle + 1;
        }
    }

    return None;
}

/// An endless loop that counts up and leaves through a labeled break once the
/// counter reaches ten, handing back twice the counter.
pub fn loop_with_break_value() -> (result: i32)
    ensures
        result == 20,
{
    let mut counter: i32 = 0;
    let result: i32;
    loop
        invariant_except_break
            0 <= counter < 10,
        ensures
            counter == 10,
        decreases 10 - counter,
    {
        counter += 1;
        if counter == 10 {
            break;
        }
    }
    result = counter * 2;
    result
}

/// Nested loops told apart by an outer label: the inner loop restarts the
/// outer count until the outer counter reaches two, then breaks all the way
/// out.
pub fn labeled_loop_count() -> (count: u32)
    ensures
        count == 2,
{
    let mut count: u32 = 0;
    'counting_up: loop
        invariant_except_break
            count <= 2,
        ensures
            count == 2,
        decreases 2 - count,
    {
        let mut remaining: u32 = 10;

        loop
            invariant_except_break
                count <= 2,
                remaining == 10 || (remaining == 9 && count < 2),
            ensures
                remaining == 9 && count < 2,
            decreases remaining,
        {
            if remaining == 9 {
                break;
            }
            if count == 2 {
                break 'counting_up;
            }
            remaining -= 1;
        }
        count += 1;
    }
    count
}

/// The ordinal words of the fixed verse, from the twelfth day down to the
/// first.
pub fn twelve_day_of_christmas() -> (days: Vec<&'static str>)
    ensures
        days@.len() == 12,
        days@[0]@ == "twelve"@,
        days@[1]@ == "eleven"@,
        days@[2]@ == "ten"@,
        days@[3]@ == "nine"@,
        days@[4]@ == "eight"@,
        days@[5]@ == "seventh"@,
        days@[6]@ == "six"@,
        days@[7]@ == "five"@,
        days@[8]@ == "four"@,
        days@[9]@ == "three"@,
        days@[10]@ == "two"@,
        days@[11]@ == "one"@,
{
    let mut days: Vec<&'static str> = Vec::new();
    days.push("twelve");
    days.push("eleven");
    days.push("ten");
    days.push("nine");
    days.push("eight");
    days.push("seventh");
    days.push("six");
    days.push("five");
    days.push("four");
    days.push("three");
    days.push("two");
    days.push("one");
    days
}

} // verus!
