//! Collection walkthrough: summing, occurrence counting, a selection-based
//! sorter feeding a median, a pig-latin word transformer, word-frequency
//! counting over whitespace-split tokens, and a department roster.

use crate::concepts::sorted_spec;
use vstd::multiset::Multiset;
use vstd::prelude::*;
use vstd::relations::{sorted_by, total_ordering};
use vstd::seq_lib::lemma_sorted_unique;

verus! {

broadcast use {
    vstd::seq_lib::to_multiset_build,
    vstd::seq_lib::to_multiset_remove,
    vstd::seq_lib::to_multiset_len,
    vstd::seq_lib::to_multiset_contains,
};

/// The sum of a sequence of integers, taken left to right.
pub open spec fn sum_ints(s: Seq<i32>) -> int
    decreases s.len(),
{
    if s.len() == 0 {
        0
    } else {
        sum_ints(s.drop_last()) + s.last()
    }
}

/// Adds up the whole list. Despite its name this returns the sum, not an
/// average, and the contract says exactly that. The precondition asks that
/// no running total on the way leaves the `i32` range.
pub fn mean(nums: &Vec<i32>) -> (total: i32)
    requires
        forall|i: int|
            0 <= i <= nums@.len() ==> i32::MIN <= sum_ints(#[trigger] nums@.take(i))
                <= i32::MAX,
    ensures
        total == sum_ints(nums@),
{
    let mut total: i32 = 0;
    let mut j: usize = 0;
    proof {
        assert(nums@.take(0) =~= Seq::<i32>::empty());
    }
    while j < nums.len()
        invariant
            j <= nums@.len(),
            total == sum_ints(nums@.take(j as int)),
            forall|i: int|
                0 <= i <= nums@.len() ==> i32::MIN <= sum_ints(
                    #[trigger] nums@.take(i),
                ) <= i32::MAX,
        decreases nums@.len() - j,
    {
        proof {
            assert(nums@.take(j + 1).drop_last() =~= nums@.take(j as int));
            assert(nums@.take(j + 1).last() == nums@[j as int]);
        }
        total = total + nums[j];
        j += 1;
    }
    proof {
        assert(nums@.take(nums@.len() as int) =~= nums@);
    }
    total
}

/// Adds fifty to every element in place.
pub fn add_fifty(v: &mut Vec<i32>)
    requires
        forall|i: int| 0 <= i < old(v)@.len() ==> old(v)@[i] + 50 <= i32::MAX,
    ensures
        final(v)@.len() == old(v)@.len(),
        forall|i: int| 0 <= i < old(v)@.len() ==> final(v)@[i] == old(v)@[i] + 50,
{
    let n = v.len();
    let mut j: usize = 0;
    while j < n
        invariant
            n == v@.len(),
            n == old(v)@.len(),
            j <= n,
            forall|i: int| 0 <= i < old(v)@.len() ==> old(v)@[i] + 50 <= i32::MAX,
            forall|i: int| j <= i < n ==> v@[i] == old(v)@[i],
            forall|i: int| 0 <= i < j ==> v@[i] == old(v)@[i] + 50,
        decreases n - j,
    {
        let updated = v[j] + 50;
        v.set(j, updated);
        j += 1;
    }
}

/// How many times `v` occurs in `s`.
pub open spec fn count_val(s: Seq<i32>, v: i32) -> nat
    decreases s.len(),
{
    if s.len() == 0 {
        0
    } else {
        count_val(s.drop_last(), v) + if s.last() == v {
            1nat
        } else {
            0nat
        }
    }
}

/// A value not in the sequence occurs zero times.
pub proof fn lemma_count_val_absent(s: Seq<i32>, v: i32)
    requires
        !s.contains(v),
    ensures
        count_val(s, v) == 0,
    decreases s.len(),
{
    if s.len() > 0 {
        assert(forall|i: int| 0 <= i < s.len() - 1 ==> s.drop_last()[i] == s[i]);
        lemma_count_val_absent(s.drop_last(), v);
    }
}

/// Occurrences never outnumber the elements.
pub proof fn lemma_count_val_le_len(s: Seq<i32>, v: i32)
    ensures
        count_val(s, v) <= s.len(),
    decreases s.len(),
{
    if s.len() > 0 {
        lemma_count_val_le_len(s.drop_last(), v);
    }
}

/// How many times `v` occurs in the list.
pub fn count_occurrences(numbers: &Vec<i32>, v: i32) -> (count: usize)
    ensures
        count == count_val(numbers@, v),
{
    let mut count: usize = 0;
    let mut j: usize = 0;
    proof {
        assert(numbers@.take(0) =~= Seq::<i32>::empty());
    }
    while j < numbers.len()
        invariant
            j <= numbers@.len(),
            count == count_val(numbers@.take(j as int), v),
            count <= j,
        decreases numbers@.len() - j,
    {
        proof {
            assert(numbers@.take(j + 1).drop_last() =~= numbers@.take(j as int));
            assert(numbers@.take(j + 1).last() == numbers@[j as int]);
        }
        if numbers[j] == v {
            count += 1;
        }
        j += 1;
    }
    proof {
        assert(numbers@.take(numbers@.len() as int) =~= numbers@);
    }
    count
}

/// The highest occurrence count in the list — the count itself, not the
/// value that attains it, whatever the name may suggest; the contract says
/// what is actually returned. An empty list yields a count of zero, still
/// wrapped as present.
pub fn mode(numbers: &Vec<i32>) -> (r: Option<i32>)
    requires
        numbers@.len() <= i32::MAX,
    ensures
        r matches Some(m) && m >= 0,
        r matches Some(m) ==> forall|v: i32| count_val(numbers@, v) <= m,
        numbers@.len() > 0 ==> (r matches Some(m) && exists|i: int|
            0 <= i < numbers@.len() && count_val(numbers@, #[trigger] numbers@[i])
                == m),
        numbers@.len() == 0 ==> r == Some(0i32),
{
    let mut the_mode: usize = 0;
    let mut j: usize = 0;
    while j < numbers.len()
        invariant
            j <= numbers@.len(),
            numbers@.len() <= i32::MAX,
            the_mode <= numbers@.len(),
            forall|i: int|
                0 <= i < j ==> count_val(numbers@, #[trigger] numbers@[i])
                    <= the_mode,
            j == 0 ==> the_mode == 0,
            j > 0 ==> exists|i: int|
                0 <= i < j && count_val(numbers@, #[trigger] numbers@[i]) == the_mode,
        decreases numbers@.len() - j,
    {
        let count = count_occurrences(numbers, numbers[j]);
        proof {
            lemma_count_val_le_len(numbers@, numbers@[j as int]);
        }
        if the_mode < count {
            the_mode = count;
        }
        j += 1;
    }
    proof {
        assert forall|v: i32| count_val(numbers@, v) <= the_mode by {
            if numbers@.contains(v) {
                let i = choose|i: int| 0 <= i < numbers@.len() && numbers@[i] == v;
                assert(count_val(numbers@, numbers@[i]) <= the_mode);
            } else {
                lemma_count_val_absent(numbers@, v);
            }
        }
    }
    Some(the_mode as i32)
}

/// Index of the last occurrence of the minimum: ties move the pick to the
/// later position, because the scan accepts equal values too.
pub fn get_lowest(nums: &mut Vec<i32>) -> (r: usize)
    requires
        old(nums)@.len() > 0,
    ensures
        final(nums)@ == old(nums)@,
        r < old(nums)@.len(),
        forall|i: int| 0 <= i < old(nums)@.len()
            ==> old(nums)@[r as int] <= old(nums)@[i],
        forall|i: int| r < i < old(nums)@.len()
            ==> old(nums)@[i] > old(nums)@[r as int],
{
    let mut count: usize = 0;
    let mut smallest_index: usize = 0;

    while count < nums.len()
        invariant
            nums@ == old(nums)@,
            nums@.len() > 0,
            count <= nums@.len(),
            smallest_index < nums@.len(),
            forall|i: int| 0 <= i < count ==> nums@[smallest_index as int] <= nums@[i],
            forall|i: int| smallest_index < i < count
                ==> nums@[i] > nums@[smallest_index as int],
            smallest_index == 0 || smallest_index < count,
        decreases nums@.len() - count,
    {
        if nums[smallest_index] >= nums[count] {
            smallest_index = count;
        }
        count += 1;
    }

    smallest_index
}

/// Selection sort by repeated extraction of the minimum, draining the input
/// into a fresh ascending list.
pub fn sort_by_lowest(numbers: &mut Vec<i32>) -> (sorted: Vec<i32>)
    ensures
        sorted_spec(sorted@),
        sorted@.to_multiset() == old(numbers)@.to_multiset(),
        final(numbers)@.len() == 0,
{
    let mut sorted: Vec<i32> = Vec::new();

    while 0 < numbers.len()
        invariant
            sorted_spec(sorted@),
            sorted@.to_multiset().add(numbers@.to_multiset())
                == old(numbers)@.to_multiset(),
            forall|i: int, j: int|
                0 <= i < sorted@.len() && 0 <= j < numbers@.len()
                    ==> sorted@[i] <= numbers@[j],
        decreases numbers@.len(),
    {
        let smallest = get_lowest(numbers);
        sorted.push(numbers[smallest]);
        let ghost pre = numbers@;
        numbers.remove(smallest);
        proof {
            assert(numbers@ == pre.remove(smallest as int));
        }
    }

    proof {
        assert(numbers@.to_multiset() =~= Multiset::<i32>::empty());
        assert(sorted@.to_multiset().add(Multiset::<i32>::empty())
            =~= sorted@.to_multiset());
    }
    sorted
}

/// Rust's truncating halving: rounds toward zero.
pub open spec fn div2_trunc(x: int) -> int {
    if x >= 0 {
        x / 2
    } else {
        -((-x) / 2)
    }
}

/// The middle element of a sorted sequence, or, for an even length, the
/// truncated average of the two middle elements.
pub open spec fn median_of_sorted(s: Seq<i32>) -> int {
    if s.len() % 2 == 1 {
        s[s.len() as int / 2] as int
    } else {
        div2_trunc(s[s.len() as int / 2 - 1] + s[s.len() as int / 2])
    }
}

/// The middle element for an odd length; the halved sum of the two middle
/// elements for an even one. The caller hands in an already sorted list.
pub fn get_median(nums: &Vec<i32>) -> (r: i32)
    requires
        nums@.len() > 0,
        nums@.len() % 2 == 0 ==> i32::MIN <= nums@[nums@.len() as int / 2 - 1]
            + nums@[nums@.len() as int / 2] <= i32::MAX,
    ensures
        r == median_of_sorted(nums@),
{
    if is_odd_len(nums.len()) {
        nums[nums.len() / 2]
    } else {
        let left_middle = nums[nums.len() / 2 - 1];
        let right_middle = nums[nums.len() / 2];
        (left_middle + right_middle) / 2
    }
}

/// Whether a length is odd.
fn is_odd_len(value: usize) -> (r: bool)
    ensures
        r == (value % 2 == 1),
{
    value % 2 == 1
}

/// Sorts the list by repeated minimum extraction — draining it — and
/// returns the median of the sorted order. The contract speaks of any
/// sorted arrangement of the original elements; there is exactly one.
pub fn median(numbers: &mut Vec<i32>) -> (r: i32)
    requires
        old(numbers)@.len() > 0,
        forall|i: int, j: int|
            #![trigger old(numbers)@[i], old(numbers)@[j]]
            0 <= i < old(numbers)@.len() && 0 <= j < old(numbers)@.len()
                ==> i32::MIN <= old(numbers)@[i] + old(numbers)@[j] <= i32::MAX,
    ensures
        final(numbers)@.len() == 0,
        forall|t: Seq<i32>|
            sorted_spec(t) && #[trigger] t.to_multiset()
                == old(numbers)@.to_multiset() ==> r == median_of_sorted(t),
{
    let ghost orig = numbers@;
    let sorted = sort_by_lowest(numbers);
    proof {
        vstd::seq_lib::to_multiset_len(sorted@);
        vstd::seq_lib::to_multiset_len(orig);
        let half = sorted@.len() as int / 2;
        assert(sorted@.to_multiset().contains(sorted@[half]));
        assert(orig.to_multiset().contains(sorted@[half]));
        assert(orig.contains(sorted@[half]));
        if sorted@.len() % 2 == 0 {
            assert(sorted@.to_multiset().contains(sorted@[half - 1]));
            assert(orig.contains(sorted@[half - 1]));
            let i = choose|i: int| 0 <= i < orig.len() && orig[i] == sorted@[half - 1];
            let j = choose|j: int| 0 <= j < orig.len() && orig[j] == sorted@[half];
            assert(i32::MIN <= orig[i] + orig[j] <= i32::MAX);
        }
    }
    let r = get_median(&sorted);
    proof {
        let leq = |x: i32, y: i32| x <= y;
        assert(total_ordering(leq));
        assert forall|t: Seq<i32>|
            sorted_spec(t) && #[trigger] t.to_multiset() == orig.to_multiset()
                implies r == median_of_sorted(t) by {
            assert(sorted_by(t, leq));
            assert(sorted_by(sorted@, leq));
            lemma_sorted_unique(t, sorted@, leq);
            assert(t =~= sorted@);
        }
    }
    r
}

/// The lowercase English vowels, the only ones the transformer recognizes.
pub open spec fn is_vowel(c: char) -> bool {
    c == 'a' || c == 'e' || c == 'i' || c == 'o' || c == 'u'
}

/// The pig-latin form of a word: a vowel start gets "-hay" appended to the
/// whole word; otherwise the first character moves to the end behind a
/// hyphen, followed by "ay". Only the first character is inspected, and only
/// lowercase vowels count; an empty word stays empty.
pub open spec fn pig_latin_spec(w: Seq<char>) -> Seq<char> {
    if w.len() == 0 {
        Seq::empty()
    } else if is_vowel(w[0]) {
        w + "-hay"@
    } else {
        w.subrange(1, w.len() as int) + "-"@ + w.subrange(0, 1) + "ay"@
    }
}

/// Rewrites a word into its pig-latin form.
pub fn pig_latin(word: &str) -> (new_word: String)
    ensures
        new_word@ == pig_latin_spec(word@),
{
    let n = word.unicode_len();
    if n == 0 {
        return String::new();
    }
    let letter = word.get_char(0);
    let is_vowel = letter == 'a' || letter == 'e' || letter == 'i' || letter == 'o'
        || letter == 'u';
    if is_vowel {
        word.to_owned().concat("-hay")
    } else {
        let rest = word.substring_char(1, n);
        let head = word.substring_char(0, 1);
        rest.to_owned().concat("-").concat(head).concat("ay")
    }
}

/// The whitespace characters on which word counting splits.
pub open spec fn is_ws(c: char) -> bool {
    c == ' ' || c == '\t' || c == '\n' || c == '\r'
}

/// Index of the first whitespace character at or after `from`, or the length
/// when there is none.
pub open spec fn find_ws_from(s: Seq<char>, from: int) -> int
    decreases s.len() - from,
{
    if from < 0 || from >= s.len() {
        s.len() as int
    } else if is_ws(s[from]) {
        from
    } else {
        find_ws_from(s, from + 1)
    }
}

pub proof fn lemma_find_ws_from(s: Seq<char>, from: int)
    requires
        0 <= from <= s.len(),
    ensures
        from <= find_ws_from(s, from) <= s.len(),
        forall|k: int| from <= k < find_ws_from(s, from) ==> !is_ws(s[k]),
        find_ws_from(s, from) < s.len() ==> is_ws(s[find_ws_from(s, from)]),
    decreases s.len() - from,
{
    if from < s.len() && !is_ws(s[from]) {
        lemma_find_ws_from(s, from + 1);
    }
}

/// The words of `s` from position `from` on: maximal runs of non-whitespace
/// characters, in order.
pub open spec fn split_ws_from(s: Seq<char>, from: int) -> Seq<Seq<char>>
    decreases s.len() - from,
    via split_ws_from_decreases
{
    if from < 0 || from >= s.len() {
        Seq::empty()
    } else if is_ws(s[from]) {
        split_ws_from(s, from + 1)
    } else {
        seq![s.subrange(from, find_ws_from(s, from))] + split_ws_from(
            s,
            find_ws_from(s, from),
        )
    }
}

#[via_fn]
proof fn split_ws_from_decreases(s: Seq<char>, from: int) {
    if 0 <= from < s.len() && !is_ws(s[from]) {
        lemma_find_ws_from(s, from);
    }
}

/// The whitespace-split words of a text.
pub open spec fn split_whitespace_spec(s: Seq<char>) -> Seq<Seq<char>> {
    split_ws_from(s, 0)
}

/// Whether a character is whitespace.
fn is_ws_char(c: char) -> (r: bool)
    ensures
        r == is_ws(c),
{
    c == ' ' || c == '\t' || c == '\n' || c == '\r'
}

/// Splits a text into its whitespace-separated words.
pub fn split_whitespace(s: &str) -> (words: Vec<String>)
    ensures
        words.deep_view() == split_whitespace_spec(s@),
{
    let n = s.unicode_len();
    let mut words: Vec<String> = Vec::new();
    let mut pos: usize = 0;
    proof {
        assert(words.deep_view() =~= Seq::<Seq<char>>::empty());
        assert(Seq::<Seq<char>>::empty() + split_ws_from(s@, 0) =~= split_ws_from(
            s@,
            0,
        ));
    }
    while pos < n
        invariant
            n == s@.len(),
            pos <= n,
            words.deep_view() + split_ws_from(s@, pos as int) == split_ws_from(s@, 0),
        decreases n - pos,
    {
        if is_ws_char(s.get_char(pos)) {
            pos += 1;
        } else {
            proof {
                lemma_find_ws_from(s@, pos as int);
            }
            let mut end: usize = pos;
            while end < n
                invariant_except_break
                    n == s@.len(),
                    pos <= end <= n,
                    find_ws_from(s@, pos as int) == find_ws_from(s@, end as int),
                ensures
                    n == s@.len(),
                    pos <= end <= n,
                    end == find_ws_from(s@, pos as int),
                decreases n - end,
            {
                if is_ws_char(s.get_char(end)) {
                    break;
                }
                end += 1;
            }
            proof {
                lemma_find_ws_from(s@, end as int);
            }
            let ghost pre = words.deep_view();
            let word = s.substring_char(pos, end).to_owned();
            words.push(word);
            proof {
                assert(words.deep_view() =~= pre + seq![
                    s@.subrange(pos as int, end as int),
                ]);
                assert(pre + (seq![s@.subrange(pos as int, end as int)]
                    + split_ws_from(s@, end as int)) =~= (pre + seq![
                    s@.subrange(pos as int, end as int),
                ]) + split_ws_from(s@, end as int));
            }
            pos = end;
        }
    }
    proof {
        assert(split_ws_from(s@, pos as int) == Seq::<Seq<char>>::empty());
        assert(words.deep_view() + Seq::<Seq<char>>::empty() =~= words.deep_view());
    }
    words
}

/// How many of the given words read `w`.
pub open spec fn count_word(words: Seq<Seq<char>>, w: Seq<char>) -> nat
    decreases words.len(),
{
    if words.len() == 0 {
        0
    } else {
        count_word(words.drop_last(), w) + if words.last() == w {
            1nat
        } else {
            0nat
        }
    }
}

/// Word counts never outnumber the words.
pub proof fn lemma_count_word_le_len(words: Seq<Seq<char>>, w: Seq<char>)
    ensures
        count_word(words, w) <= words.len(),
    decreases words.len(),
{
    if words.len() > 0 {
        lemma_count_word_le_len(words.drop_last(), w);
    }
}

/// A word-frequency table: each distinct word of a text with the number of
/// times it occurs.
pub struct WordCounts {
    pub entries: Vec<(String, u64)>,
}

impl WordCounts {
    /// Each word appears in at most one entry.
    pub open spec fn wf(&self) -> bool {
        forall|p: int, q: int|
            0 <= p < q < self.entries@.len() ==> (#[trigger] self.entries@[p]).0@ != (
            #[trigger] self.entries@[q]).0@
    }

    /// The count recorded for `w`, or zero when `w` has no entry.
    pub open spec fn count_spec(&self, w: Seq<char>) -> int {
        Self::assoc_count(self.entries@, w)
    }

    pub open spec fn assoc_count(entries: Seq<(String, u64)>, w: Seq<char>) -> int
        decreases entries.len(),
    {
        if entries.len() == 0 {
            0
        } else if entries.last().0@ == w {
            entries.last().1 as int
        } else {
            Self::assoc_count(entries.drop_last(), w)
        }
    }

    /// Looks a word up; a word with no entry has count zero.
    pub fn count(&self, word: &str) -> (c: u64)
        requires
            self.wf(),
        ensures
            c == self.count_spec(word@),
    {
        let mut p: usize = 0;
        while p < self.entries.len()
            invariant
                self.wf(),
                p <= self.entries@.len(),
                forall|q: int| 0 <= q < p ==> (#[trigger] self.entries@[q]).0@ != word@,
            decreases self.entries@.len() - p,
        {
            if crate::text::str_eq(self.entries[p].0.as_str(), word) {
                proof {
                    lemma_assoc_count_found(self.entries@, p as int);
                }
                return self.entries[p].1;
            }
            p += 1;
        }
        proof {
            lemma_assoc_count_absent(self.entries@, word@);
        }
        0
    }

    /// The number of distinct words recorded.
    pub fn len(&self) -> (n: usize)
        ensures
            n == self.entries@.len(),
    {
        self.entries.len()
    }
}

/// In a well-formed table, the entry holding `w` decides its count.
proof fn lemma_assoc_count_found(entries: Seq<(String, u64)>, p: int)
    requires
        0 <= p < entries.len(),
        forall|a: int, b: int|
            0 <= a < b < entries.len() ==> (#[trigger] entries[a]).0@ != (
            #[trigger] entries[b]).0@,
    ensures
        WordCounts::assoc_count(entries, entries[p].0@) == entries[p].1 as int,
    decreases entries.len(),
{
    if p < entries.len() - 1 {
        assert(forall|i: int|
            0 <= i < entries.len() - 1 ==> entries.drop_last()[i] == entries[i]);
        lemma_assoc_count_found(entries.drop_last(), p);
    }
}

/// A word with no entry has count zero.
proof fn lemma_assoc_count_absent(entries: Seq<(String, u64)>, w: Seq<char>)
    requires
        forall|q: int| 0 <= q < entries.len() ==> (#[trigger] entries[q]).0@ != w,
    ensures
        WordCounts::assoc_count(entries, w) == 0,
    decreases entries.len(),
{
    if entries.len() > 0 {
        assert(forall|i: int|
            0 <= i < entries.len() - 1 ==> entries.drop_last()[i] == entries[i]);
        lemma_assoc_count_absent(entries.drop_last(), w);
    }
}

/// Updating one entry changes that word's count and no other, in a
/// well-formed table.
proof fn lemma_assoc_count_update(
    entries: Seq<(String, u64)>,
    p: int,
    e: (String, u64),
    w: Seq<char>,
)
    requires
        0 <= p < entries.len(),
        e.0@ == entries[p].0@,
        forall|a: int, b: int|
            0 <= a < b < entries.len() ==> (#[trigger] entries[a]).0@ != (
            #[trigger] entries[b]).0@,
    ensures
        WordCounts::assoc_count(entries.update(p, e), w) == if w == entries[p].0@ {
            e.1 as int
        } else {
            WordCounts::assoc_count(entries, w)
        },
    decreases entries.len(),
{
    let updated = entries.update(p, e);
    assert(forall|i: int|
        0 <= i < entries.len() - 1 ==> entries.drop_last()[i] == entries[i]);
    if p == entries.len() - 1 {
        assert(updated.last() == e);
        assert(updated.drop_last() =~= entries.drop_last());
        if w != entries[p].0@ {
        }
    } else {
        assert(updated.last() == entries.last());
        assert(updated.drop_last() =~= entries.drop_last().update(p, e));
        lemma_assoc_count_update(entries.drop_last(), p, e, w);
    }
}

/// Counts the whitespace-split words of `text`: every word's recorded count
/// is exactly the number of times it occurs, and each word has at most one
/// entry.
pub fn word_frequencies(text: &str) -> (wc: WordCounts)
    ensures
        wc.wf(),
        forall|w: Seq<char>| #[trigger] wc.count_spec(w) == count_word(
            split_whitespace_spec(text@),
            w,
        ),
{
    let words = split_whitespace(text);
    let ghost all = words.deep_view();
    let mut wc = WordCounts { entries: Vec::new() };
    let n = words.len();
    let mut t: usize = 0;
    proof {
        assert(all.take(0) =~= Seq::<Seq<char>>::empty());
        assert(all.len() == words@.len());
    }
    while t < n
        invariant
            n == words@.len(),
            all == words.deep_view(),
            all.len() == n,
            t <= n,
            wc.wf(),
            forall|w: Seq<char>| #[trigger] WordCounts::assoc_count(wc.entries@, w)
                == count_word(all.take(t as int), w),
        decreases n - t,
    {
        let ghost prefix = all.take(t as int);
        let ghost word_v = all[t as int];
        proof {
            assert(all.take(t + 1).drop_last() =~= prefix);
            assert(all.take(t + 1).last() == word_v);
            assert(word_v == words@[t as int]@);
        }
        let word = &words[t];
        let mut p: usize = 0;
        let mut found = false;
        while p < wc.entries.len()
            invariant_except_break
                wc.wf(),
                p <= wc.entries@.len(),
                !found,
                forall|q: int| 0 <= q < p ==> (#[trigger] wc.entries@[q]).0@ != word@,
            ensures
                wc.wf(),
                p <= wc.entries@.len(),
                found ==> p < wc.entries@.len() && wc.entries@[p as int].0@ == word@,
                !found ==> forall|q: int|
                    0 <= q < wc.entries@.len() ==> (#[trigger] wc.entries@[q]).0@
                        != word@,
            decreases wc.entries@.len() - p,
        {
            if crate::text::str_eq(wc.entries[p].0.as_str(), word.as_str()) {
                found = true;
                break;
            }
            p += 1;
        }
        if found {
            let ghost pre_entries = wc.entries@;
            proof {
                lemma_assoc_count_found(pre_entries, p as int);
                assert(WordCounts::assoc_count(pre_entries, word_v) == count_word(
                    prefix,
                    word_v,
                ));
                lemma_count_word_le_len(prefix, word_v);
            }
            let key = wc.entries[p].0.clone();
            let c = wc.entries[p].1;
            wc.entries.set(p, (key, c + 1));
            proof {
                assert(wc.entries@ =~= pre_entries.update(
                    p as int,
                    (key, (c + 1) as u64),
                ));
                assert forall|w: Seq<char>|
                    #[trigger] WordCounts::assoc_count(wc.entries@, w) == count_word(
                    all.take(t + 1),
                    w,
                ) by {
                    lemma_assoc_count_update(
                        pre_entries,
                        p as int,
                        (key, (c + 1) as u64),
                        w,
                    );
                    assert(WordCounts::assoc_count(pre_entries, w) == count_word(
                        prefix,
                        w,
                    ));
                    assert(all.take(t + 1).drop_last() == prefix);
                    assert(count_word(all.take(t + 1), w) == count_word(prefix, w)
                        + if word_v == w {
                        1int
                    } else {
                        0int
                    });
                }
            }
        } else {
            let ghost pre_entries = wc.entries@;
            wc.entries.push((word.clone(), 1));
            proof {
                assert(wc.entries@.drop_last() =~= pre_entries);
                assert(wc.entries@.last().0@ == word_v);
                assert forall|w: Seq<char>|
                    #[trigger] WordCounts::assoc_count(wc.entries@, w) == count_word(
                    all.take(t + 1),
                    w,
                ) by {
                    assert(WordCounts::assoc_count(pre_entries, w) == count_word(
                        prefix,
                        w,
                    ));
                    if w != word_v {
                        assert(WordCounts::assoc_count(wc.entries@, w)
                            == WordCounts::assoc_count(pre_entries, w));
                    } else {
                        lemma_assoc_count_absent(pre_entries, w);
                    }
                    assert(all.take(t + 1).drop_last() == prefix);
                    assert(count_word(all.take(t + 1), w) == count_word(prefix, w)
                        + if word_v == w {
                        1int
                    } else {
                        0int
                    });
                }
            }
        }
        t += 1;
    }
    proof {
        assert(all.take(n as int) =~= all);
        assert forall|w: Seq<char>| #[trigger] wc.count_spec(w) == count_word(
            split_whitespace_spec(text@),
            w,
        ) by {
            assert(WordCounts::assoc_count(wc.entries@, w) == count_word(all, w));
        }
    }
    wc
}

/// A company roster: the employees of each department, in the order they
/// were added.
pub struct Roster {
    pub entries: Vec<(String, Vec<String>)>,
}

impl Roster {
    /// Each department appears in at most one entry.
    pub open spec fn wf(&self) -> bool {
        forall|p: int, q: int|
            0 <= p < q < self.entries@.len() ==> (#[trigger] self.entries@[p]).0@ != (
            #[trigger] self.entries@[q]).0@
    }

    /// The names recorded for a department, or nothing when the department
    /// has no entry.
    pub open spec fn names_spec(&self, dept: Seq<char>) -> Option<Seq<Seq<char>>> {
        Self::assoc_names(self.entries@, dept)
    }

    pub open spec fn assoc_names(
        entries: Seq<(String, Vec<String>)>,
        dept: Seq<char>,
    ) -> Option<Seq<Seq<char>>>
        decreases entries.len(),
    {
        if entries.len() == 0 {
            None
        } else if entries.last().0@ == dept {
            Some(entries.last().1.deep_view())
        } else {
            Self::assoc_names(entries.drop_last(), dept)
        }
    }

    /// An empty roster: no department has an entry.
    pub fn new() -> (r: Roster)
        ensures
            r.wf(),
            forall|d: Seq<char>| #[trigger] r.names_spec(d) is None,
    {
        Roster { entries: Vec::new() }
    }

    /// Adds a name under a department, opening the department's entry if it
    /// is the first.
    pub fn add_employee(&mut self, name: &str, department: &str)
        requires
            old(self).wf(),
        ensures
            final(self).wf(),
            ({
                let before = match old(self).names_spec(department@) {
                    Some(names) => names,
                    None => Seq::empty(),
                };
                final(self).names_spec(department@) == Some(before.push(name@))
            }),
            forall|d: Seq<char>|
                d != department@ ==> #[trigger] final(self).names_spec(d) == old(
                    self,
                ).names_spec(d),
    {
        let mut p: usize = 0;
        let mut found = false;
        while p < self.entries.len()
            invariant_except_break
                self == old(self),
                p <= self.entries@.len(),
                !found,
                forall|q: int|
                    0 <= q < p ==> (#[trigger] self.entries@[q]).0@ != department@,
            ensures
                self == old(self),
                p <= self.entries@.len(),
                found ==> p < self.entries@.len() && self.entries@[p as int].0@
                    == department@,
                !found ==> forall|q: int|
                    0 <= q < self.entries@.len() ==> (#[trigger] self.entries@[q]).0@
                        != department@,
            decreases self.entries@.len() - p,
        {
            if crate::text::str_eq(self.entries[p].0.as_str(), department) {
                found = true;
                break;
            }
            p += 1;
        }
        if found {
            let ghost pre_entries = self.entries@;
            let mut pair = self.entries.remove(p);
            pair.1.push(name.to_owned());
            self.entries.insert(p, pair);
            proof {
                assert(self.entries@ =~= pre_entries.update(p as int, pair));
                lemma_assoc_names_found(pre_entries, p as int);
                assert(pair.1.deep_view() =~= pre_entries[p as int].1.deep_view().push(
                    name@,
                ));
                assert forall|d: Seq<char>|
                    d != department@ implies #[trigger] Roster::assoc_names(
                    self.entries@,
                    d,
                ) == Roster::assoc_names(pre_entries, d) by {
                    lemma_assoc_names_update(pre_entries, p as int, pair, d);
                }
                lemma_assoc_names_update(pre_entries, p as int, pair, department@);
            }
        } else {
            let ghost pre_entries = self.entries@;
            let mut names: Vec<String> = Vec::new();
            names.push(name.to_owned());
            self.entries.push((department.to_owned(), names));
            proof {
                assert(self.entries@.drop_last() =~= pre_entries);
                assert(self.entries@.last().0@ == department@);
                assert(self.entries@.last().1.deep_view() =~= Seq::<
                    Seq<char>,
                >::empty().push(name@));
                lemma_assoc_names_absent(pre_entries, department@);
                assert forall|d: Seq<char>|
                    d != department@ implies #[trigger] Roster::assoc_names(
                    self.entries@,
                    d,
                ) == Roster::assoc_names(pre_entries, d) by {
                }
            }
        }
    }

    /// The names of a department as recorded, in insertion order.
    pub fn get(&self, department: &str) -> (r: Option<Vec<String>>)
        requires
            self.wf(),
        ensures
            match self.names_spec(department@) {
                Some(names) => r matches Some(v) && v.deep_view() == names,
                None => r is None,
            },
    {
        let mut p: usize = 0;
        while p < self.entries.len()
            invariant
                self.wf(),
                p <= self.entries@.len(),
                forall|q: int|
                    0 <= q < p ==> (#[trigger] self.entries@[q]).0@ != department@,
            decreases self.entries@.len() - p,
        {
            if crate::text::str_eq(self.entries[p].0.as_str(), department) {
                proof {
                    lemma_assoc_names_found(self.entries@, p as int);
                }
                let names = self.entries[p].1.clone();
                proof {
                    assert(names.deep_view() =~= self.entries@[p as int].1.deep_view());
                }
                return Some(names);
            }
            p += 1;
        }
        proof {
            lemma_assoc_names_absent(self.entries@, department@);
        }
        None
    }

    /// The names of a department in ascending lexicographic order, or
    /// nothing when the department has no entry.
    pub fn sorted_names(&self, department: &str) -> (r: Option<Vec<String>>)
        requires
            self.wf(),
        ensures
            match self.names_spec(department@) {
                Some(names) => r matches Some(v) && crate::text::sorted_lex(
                    v.deep_view(),
                ) && v.deep_view().to_multiset() == names.to_multiset(),
                None => r is None,
            },
    {
        match self.get(department) {
            Some(names) => Some(crate::text::sort_strings(&names)),
            None => None,
        }
    }
}

/// In a well-formed roster, the entry holding a department decides its
/// names.
proof fn lemma_assoc_names_found(entries: Seq<(String, Vec<String>)>, p: int)
    requires
        0 <= p < entries.len(),
        forall|a: int, b: int|
            0 <= a < b < entries.len() ==> (#[trigger] entries[a]).0@ != (
            #[trigger] entries[b]).0@,
    ensures
        Roster::assoc_names(entries, entries[p].0@) == Some(entries[p].1.deep_view()),
    decreases entries.len(),
{
    if p < entries.len() - 1 {
        assert(forall|i: int|
            0 <= i < entries.len() - 1 ==> entries.drop_last()[i] == entries[i]);
        lemma_assoc_names_found(entries.drop_last(), p);
    }
}

/// A department with no entry has no names.
proof fn lemma_assoc_names_absent(entries: Seq<(String, Vec<String>)>, dept: Seq<char>)
    requires
        forall|q: int| 0 <= q < entries.len() ==> (#[trigger] entries[q]).0@ != dept,
    ensures
        Roster::assoc_names(entries, dept) is None,
    decreases entries.len(),
{
    if entries.len() > 0 {
        assert(forall|i: int|
            0 <= i < entries.len() - 1 ==> entries.drop_last()[i] == entries[i]);
        lemma_assoc_names_absent(entries.drop_last(), dept);
    }
}

/// Updating one entry changes that department's names and no other's, in a
/// well-formed roster.
proof fn lemma_assoc_names_update(
    entries: Seq<(String, Vec<String>)>,
    p: int,
    e: (String, Vec<String>),
    dept: Seq<char>,
)
    requires
        0 <= p < entries.len(),
        e.0@ == entries[p].0@,
        forall|a: int, b: int|
            0 <= a < b < entries.len() ==> (#[trigger] entries[a]).0@ != (
            #[trigger] entries[b]).0@,
    ensures
        Roster::assoc_names(entries.update(p, e), dept) == if dept == entries[p].0@ {
            Some(e.1.deep_view())
        } else {
            Roster::assoc_names(entries, dept)
        },
    decreases entries.len(),
{
    let updated = entries.update(p, e);
    assert(forall|i: int|
        0 <= i < entries.len() - 1 ==> entries.drop_last()[i] == entries[i]);
    if p == entries.len() - 1 {
        assert(updated.last() == e);
        assert(updated.drop_last() =~= entries.drop_last());
    } else {
        assert(updated.last() == entries.last());
        assert(updated.drop_last() =~= entries.drop_last().update(p, e));
        lemma_assoc_names_update(entries.drop_last(), p, e, dept);
    }
}

} // verus!
