//! Verified text utilities shared by the search tool and the collection
//! walkthroughs: character-level equality and lexicographic order on
//! strings, substring containment, line and whitespace splitting, boolean
//! literal parsing, and a lowercasing wrapper.

use vstd::multiset::Multiset;
use vstd::prelude::*;

verus! {

broadcast use {
    vstd::seq_lib::to_multiset_build,
    vstd::seq_lib::to_multiset_remove,
    vstd::seq_lib::to_multiset_len,
    vstd::seq_lib::to_multiset_contains,
    vstd::multiset::group_multiset_axioms,
};

/// Index of the first occurrence of `target` at or after `from`, or the
/// length of the sequence when `target` does not occur from there on.
pub open spec fn find_char_from(s: Seq<char>, from: int, target: char) -> int
    decreases s.len() - from,
{
    if from < 0 || from >= s.len() {
        s.len() as int
    } else if s[from] == target {
        from
    } else {
        find_char_from(s, from + 1, target)
    }
}

pub proof fn lemma_find_char_from(s: Seq<char>, from: int, target: char)
    requires
        0 <= from <= s.len(),
    ensures
        from <= find_char_from(s, from, target) <= s.len(),
        forall|k: int| from <= k < find_char_from(s, from, target) ==> s[k] != target,
        find_char_from(s, from, target) < s.len() ==> s[find_char_from(
            s,
            from,
            target,
        )] == target,
    decreases s.len() - from,
{
    if from < s.len() && s[from] != target {
        lemma_find_char_from(s, from + 1, target);
    }
}

/// Searching the suffix that starts at `from` finds the same occurrence,
/// shifted by `from`.
pub proof fn lemma_find_char_from_offset(s: Seq<char>, from: int, i: int, target: char)
    requires
        0 <= from,
        0 <= i,
        from + i <= s.len(),
    ensures
        find_char_from(s.subrange(from, s.len() as int), i, target) == find_char_from(
            s,
            from + i,
            target,
        ) - from,
    decreases s.len() - from - i,
{
    let rest = s.subrange(from, s.len() as int);
    if from + i < s.len() {
        assert(rest[i] == s[from + i]);
        if s[from + i] != target {
            lemma_find_char_from_offset(s, from, i + 1, target);
        }
    }
}

/// Two strings are the same exactly when their character sequences are.
pub fn str_eq(a: &str, b: &str) -> (r: bool)
    ensures
        r == (a@ == b@),
{
    let na = a.unicode_len();
    let nb = b.unicode_len();
    if na != nb {
        return false;
    }
    let mut i: usize = 0;
    while i < na
        invariant
            na == a@.len(),
            nb == b@.len(),
            na == nb,
            i <= na,
            forall|j: int| 0 <= j < i ==> a@[j] == b@[j],
        decreases na - i,
    {
        if a.get_char(i) != b.get_char(i) {
            return false;
        }
        i += 1;
    }
    proof {
        assert(a@ =~= b@);
    }
    true
}

/// Lexicographic order on character sequences, by code point.
pub open spec fn lex_le(a: Seq<char>, b: Seq<char>) -> bool
    decreases a.len(),
{
    if a.len() == 0 {
        true
    } else if b.len() == 0 {
        false
    } else if (a[0] as u32) < (b[0] as u32) {
        true
    } else if (a[0] as u32) > (b[0] as u32) {
        false
    } else {
        lex_le(a.drop_first(), b.drop_first())
    }
}

/// The lexicographic order relates every pair of strings one way or the
/// other.
pub proof fn lemma_lex_le_total(a: Seq<char>, b: Seq<char>)
    ensures
        lex_le(a, b) || lex_le(b, a),
    decreases a.len(),
{
    if a.len() > 0 && b.len() > 0 && a[0] as u32 == b[0] as u32 {
        lemma_lex_le_total(a.drop_first(), b.drop_first());
    }
}

/// Strings below one another in both directions are equal.
pub proof fn lemma_lex_le_antisymmetric(a: Seq<char>, b: Seq<char>)
    requires
        lex_le(a, b),
        lex_le(b, a),
    ensures
        a == b,
    decreases a.len(),
{
    if a.len() > 0 && b.len() > 0 && a[0] as u32 == b[0] as u32 {
        lemma_lex_le_antisymmetric(a.drop_first(), b.drop_first());
        vstd::utf8::char_u32_cast(a[0], a[0] as u32);
        vstd::utf8::char_u32_cast(b[0], b[0] as u32);
        assert(a =~= seq![a[0]] + a.drop_first());
        assert(b =~= seq![b[0]] + b.drop_first());
    } else {
        if a.len() == 0 {
            assert(a =~= b);
        }
    }
}

/// The lexicographic order chains.
pub proof fn lemma_lex_le_transitive(a: Seq<char>, b: Seq<char>, c: Seq<char>)
    requires
        lex_le(a, b),
        lex_le(b, c),
    ensures
        lex_le(a, c),
    decreases a.len(),
{
    if a.len() > 0 && b.len() > 0 && c.len() > 0 && a[0] as u32 == b[0] as u32
        && b[0] as u32 == c[0] as u32 {
        lemma_lex_le_transitive(a.drop_first(), b.drop_first(), c.drop_first());
    }
}

/// A shared prefix does not affect the order of what follows it.
proof fn lemma_lex_le_skip(a: Seq<char>, b: Seq<char>, i: int)
    requires
        0 <= i <= a.len(),
        i <= b.len(),
        forall|j: int| 0 <= j < i ==> a[j] == b[j],
    ensures
        lex_le(a, b) == lex_le(a.skip(i), b.skip(i)),
    decreases i,
{
    if i > 0 {
        assert(a.len() > 0 && b.len() > 0);
        assert(a[0] == b[0]);
        lemma_lex_le_skip(a.drop_first(), b.drop_first(), i - 1);
        assert(a.drop_first().skip(i - 1) =~= a.skip(i));
        assert(b.drop_first().skip(i - 1) =~= b.skip(i));
    } else {
        assert(a.skip(0) =~= a);
        assert(b.skip(0) =~= b);
    }
}

/// Whether `a` comes no later than `b` in lexicographic order.
pub fn str_le(a: &str, b: &str) -> (r: bool)
    ensures
        r == lex_le(a@, b@),
{
    let na = a.unicode_len();
    let nb = b.unicode_len();
    let mut i: usize = 0;
    loop
        invariant
            na == a@.len(),
            nb == b@.len(),
            i <= na,
            i <= nb,
            forall|j: int| 0 <= j < i ==> a@[j] == b@[j],
        decreases na - i,
    {
        if i >= na {
            proof {
                lemma_lex_le_skip(a@, b@, i as int);
                assert(a@.skip(i as int).len() == 0);
            }
            return true;
        }
        if i >= nb {
            proof {
                lemma_lex_le_skip(a@, b@, i as int);
                assert(b@.skip(i as int).len() == 0);
                assert(a@.skip(i as int).len() > 0);
            }
            return false;
        }
        let ca = a.get_char(i);
        let cb = b.get_char(i);
        if (ca as u32) < (cb as u32) {
            proof {
                lemma_lex_le_skip(a@, b@, i as int);
                assert(a@.skip(i as int)[0] == a@[i as int]);
                assert(b@.skip(i as int)[0] == b@[i as int]);
            }
            return true;
        }
        if (ca as u32) > (cb as u32) {
            proof {
                lemma_lex_le_skip(a@, b@, i as int);
                assert(a@.skip(i as int)[0] == a@[i as int]);
                assert(b@.skip(i as int)[0] == b@[i as int]);
            }
            return false;
        }
        proof {
            vstd::utf8::char_u32_cast(a@[i as int], a@[i as int] as u32);
            vstd::utf8::char_u32_cast(b@[i as int], b@[i as int] as u32);
            assert(a@[i as int] == b@[i as int]);
        }
        i += 1;
    }
}

/// `needle` occurs contiguously somewhere inside `hay`.
pub open spec fn contains_seq(hay: Seq<char>, needle: Seq<char>) -> bool {
    exists|k: int|
        0 <= k && k + needle.len() <= hay.len() && #[trigger] hay.subrange(
            k,
            k + needle.len(),
        ) == needle
}

/// Whether the characters of `needle` appear as a contiguous run in `hay`.
pub fn contains_sub(hay: &str, needle: &str) -> (r: bool)
    ensures
        r == contains_seq(hay@, needle@),
{
    let nh = hay.unicode_len();
    let nn = needle.unicode_len();
    if nn > nh {
        return false;
    }
    if nn == 0 {
        proof {
            assert(hay@.subrange(0, 0 + needle@.len() as int) =~= needle@);
        }
        return true;
    }
    let mut k: usize = 0;
    while k <= nh - nn
        invariant
            nh == hay@.len(),
            nn == needle@.len(),
            1 <= nn <= nh,
            k <= nh - nn + 1,
            forall|k2: int|
                0 <= k2 < k ==> #[trigger] hay@.subrange(k2, k2 + needle@.len())
                    != needle@,
        decreases nh - nn - k + 1,
    {
        let mut m: usize = 0;
        let mut matches = true;
        while m < nn
            invariant
                nh == hay@.len(),
                nn == needle@.len(),
                1 <= nn <= nh,
                k <= nh - nn,
                m <= nn,
                matches ==> forall|j: int| 0 <= j < m ==> hay@[k + j] == needle@[j],
                !matches ==> hay@.subrange(k as int, k + needle@.len()) != needle@,
            decreases nn - m,
        {
            if hay.get_char(k + m) != needle.get_char(m) {
                proof {
                    assert(hay@.subrange(k as int, k + needle@.len())[m as int]
                        == hay@[k + m]);
                }
                matches = false;
            }
            m += 1;
        }
        if matches {
            proof {
                assert(hay@.subrange(k as int, k + needle@.len()) =~= needle@);
            }
            return true;
        }
        k += 1;
    }
    false
}

/// Splits a character sequence into lines. A line ends at a newline, with a
/// carriage return directly before the newline dropped; a final line needs
/// no terminator, and a terminator at the very end opens no further line.
pub open spec fn split_lines_spec(s: Seq<char>) -> Seq<Seq<char>>
    decreases s.len(),
{
    if s.len() == 0 {
        Seq::empty()
    } else {
        let i = find_char_from(s, 0, '\n');
        if !(0 <= i < s.len()) {
            seq![s]
        } else {
            seq![strip_carriage_return(s.subrange(0, i))] + split_lines_spec(
                s.subrange(i + 1, s.len() as int),
            )
        }
    }
}

/// Removes a single trailing carriage return, if present.
pub open spec fn strip_carriage_return(line: Seq<char>) -> Seq<char> {
    if line.len() > 0 && line[line.len() - 1] == '\r' {
        line.drop_last()
    } else {
        line
    }
}

/// Index of the first occurrence of `target` at or after `from`, or the
/// character count when there is none.
pub fn find_char(s: &str, from: usize, target: char) -> (r: usize)
    requires
        from <= s@.len(),
    ensures
        r == find_char_from(s@, from as int, target),
{
    let n = s.unicode_len();
    let mut j: usize = from;
    while j < n
        invariant
            n == s@.len(),
            from <= j <= n,
            find_char_from(s@, from as int, target) == find_char_from(
                s@,
                j as int,
                target,
            ),
        decreases n - j,
    {
        if s.get_char(j) == target {
            return j;
        }
        j += 1;
    }
    n
}

/// One line of `s`: the characters from `from` up to `upto`, with a trailing
/// carriage return dropped.
pub(crate) fn line_at(s: &str, from: usize, upto: usize) -> (line: String)
    requires
        from <= upto <= s@.len(),
    ensures
        line@ == strip_carriage_return(s@.subrange(from as int, upto as int)),
{
    let raw = s.substring_char(from, upto);
    let n = raw.unicode_len();
    if n > 0 && raw.get_char(n - 1) == '\r' {
        let trimmed = raw.substring_char(0, n - 1);
        proof {
            assert(raw@.subrange(0, raw@.len() - 1) =~= raw@.drop_last());
        }
        trimmed.to_owned()
    } else {
        raw.to_owned()
    }
}

/// Splits text into its lines, as `split_lines_spec` describes.
pub fn split_lines(s: &str) -> (lines: Vec<String>)
    ensures
        lines.deep_view() == split_lines_spec(s@),
{
    let n = s.unicode_len();
    let mut lines: Vec<String> = Vec::new();
    let mut pos: usize = 0;

    proof {
        assert(s@.subrange(0, n as int) =~= s@);
        assert(lines.deep_view() =~= Seq::<Seq<char>>::empty());
        assert(Seq::<Seq<char>>::empty() + split_lines_spec(s@) =~= split_lines_spec(
            s@,
        ));
    }
    while pos < n
        invariant
            n == s@.len(),
            pos <= n,
            lines.deep_view() + split_lines_spec(s@.subrange(pos as int, n as int))
                == split_lines_spec(s@),
        decreases n - pos,
    {
        let ghost rest = s@.subrange(pos as int, n as int);
        let ghost pre_deep = lines.deep_view();
        let i = find_char(s, pos, '\n');
        proof {
            lemma_find_char_from(s@, pos as int, '\n');
            lemma_find_char_from_offset(s@, pos as int, 0, '\n');
            assert(find_char_from(rest, 0, '\n') == i - pos);
        }
        if i < n {
            let line = line_at(s, pos, i);
            lines.push(line);
            proof {
                let tail = s@.subrange(i + 1, n as int);
                assert(rest.subrange(0, i - pos) =~= s@.subrange(pos as int, i as int));
                assert(rest.subrange(i - pos + 1, rest.len() as int) =~= tail);
                assert(split_lines_spec(rest) == seq![
                    strip_carriage_return(s@.subrange(pos as int, i as int)),
                ] + split_lines_spec(tail));
                assert(lines.deep_view() =~= pre_deep + seq![
                    strip_carriage_return(s@.subrange(pos as int, i as int)),
                ]);
                assert(pre_deep + (seq![
                    strip_carriage_return(s@.subrange(pos as int, i as int)),
                ] + split_lines_spec(tail)) =~= (pre_deep + seq![
                    strip_carriage_return(s@.subrange(pos as int, i as int)),
                ]) + split_lines_spec(tail));
            }
            pos = i + 1;
        } else {
            let line = s.substring_char(pos, n).to_owned();
            lines.push(line);
            proof {
                assert(rest.subrange(0, rest.len() as int) =~= rest);
                assert(split_lines_spec(rest) == seq![rest]);
                assert(lines.deep_view() =~= pre_deep + seq![rest]);
                assert(pre_deep + (seq![rest] + split_lines_spec(
                    s@.subrange(n as int, n as int),
                )) =~= (pre_deep + seq![rest]) + split_lines_spec(
                    s@.subrange(n as int, n as int),
                ));
                assert(split_lines_spec(s@.subrange(n as int, n as int))
                    =~= Seq::<Seq<char>>::empty());
                assert(seq![rest] + Seq::<Seq<char>>::empty() =~= seq![rest]);
            }
            pos = n;
        }
    }
    proof {
        assert(s@.subrange(pos as int, n as int).len() == 0);
        assert(split_lines_spec(s@.subrange(pos as int, n as int)) == Seq::<
            Seq<char>,
        >::empty());
        assert(lines.deep_view() + Seq::<Seq<char>>::empty() =~= lines.deep_view());
    }
    lines
}


/// A sequence of strings in non-descending lexicographic order.
pub open spec fn sorted_lex(s: Seq<Seq<char>>) -> bool {
    forall|i: int, j: int| 0 <= i <= j < s.len() ==> lex_le(s[i], s[j])
}

/// Index of a lexicographically smallest string: the first one, since the
/// scan only moves on a strictly smaller candidate.
pub fn find_lex_smallest(names: &Vec<String>) -> (r: usize)
    requires
        names@.len() > 0,
    ensures
        r < names@.len(),
        forall|i: int|
            0 <= i < names@.len() ==> lex_le(
                names.deep_view()[r as int],
                #[trigger] names.deep_view()[i],
            ),
{
    let mut best: usize = 0;
    let mut c: usize = 1;
    proof {
        lemma_lex_le_total(names@[0]@, names@[0]@);
        assert(names.deep_view()[0] == names@[0]@);
    }
    while c < names.len()
        invariant
            names@.len() > 0,
            best < names@.len(),
            c <= names@.len(),
            forall|i: int|
                0 <= i < c ==> lex_le(
                    names.deep_view()[best as int],
                    #[trigger] names.deep_view()[i],
                ),
        decreases names@.len() - c,
    {
        proof {
            assert(names.deep_view()[best as int] == names@[best as int]@);
            assert(names.deep_view()[c as int] == names@[c as int]@);
            lemma_lex_le_total(names@[best as int]@, names@[c as int]@);
        }
        if !str_le(&names[best], &names[c]) {
            proof {
                assert forall|i: int| 0 <= i < c + 1 implies lex_le(
                    names.deep_view()[c as int],
                    #[trigger] names.deep_view()[i],
                ) by {
                    if i < c {
                        lemma_lex_le_transitive(
                            names.deep_view()[c as int],
                            names.deep_view()[best as int],
                            names.deep_view()[i],
                        );
                    } else {
                        lemma_lex_le_total(names@[c as int]@, names@[c as int]@);
                    }
                }
            }
            best = c;
        }
        c += 1;
    }
    best
}

/// Sorts strings into non-descending lexicographic order by repeatedly
/// extracting a smallest one; the result holds the same strings.
pub fn sort_strings(names: &Vec<String>) -> (sorted: Vec<String>)
    ensures
        sorted_lex(sorted.deep_view()),
        sorted.deep_view().to_multiset() == names.deep_view().to_multiset(),
{
    let mut remaining = names.clone();
    let mut sorted: Vec<String> = Vec::new();
    proof {
        assert(remaining.deep_view() =~= names.deep_view());
        assert(sorted.deep_view() =~= Seq::<Seq<char>>::empty());
        assert(sorted.deep_view().to_multiset().add(
            remaining.deep_view().to_multiset(),
        ) =~= names.deep_view().to_multiset());
    }

    while 0 < remaining.len()
        invariant
            sorted_lex(sorted.deep_view()),
            sorted.deep_view().to_multiset().add(remaining.deep_view().to_multiset())
                == names.deep_view().to_multiset(),
            forall|i: int, j: int|
                0 <= i < sorted.deep_view().len() && 0 <= j
                    < remaining.deep_view().len() ==> lex_le(
                    #[trigger] sorted.deep_view()[i],
                    #[trigger] remaining.deep_view()[j],
                ),
        decreases remaining@.len(),
    {
        let smallest = find_lex_smallest(&remaining);
        let ghost pre_sorted = sorted.deep_view();
        let ghost pre_remaining = remaining.deep_view();
        sorted.push(remaining[smallest].clone());
        proof {
            assert(sorted.deep_view() =~= pre_sorted.push(
                pre_remaining[smallest as int],
            ));
            assert(sorted.deep_view().to_multiset() == pre_sorted.to_multiset().insert(
                pre_remaining[smallest as int],
            ));
        }
        remaining.remove(smallest);
        proof {
            assert(remaining.deep_view() =~= pre_remaining.remove(smallest as int));
            assert(remaining.deep_view().to_multiset()
                == pre_remaining.to_multiset().remove(pre_remaining[smallest as int]));
        }
    }

    proof {
        assert(remaining.deep_view().to_multiset() =~= Multiset::<
            Seq<char>,
        >::empty());
        assert(sorted.deep_view().to_multiset().add(Multiset::<Seq<char>>::empty())
            =~= sorted.deep_view().to_multiset());
    }
    sorted
}


/// The decimal digit characters, in order.
pub open spec fn digit_char(d: nat) -> char {
    "0123456789"@[d as int]
}

/// The decimal notation of a number, most significant digit first.
pub open spec fn decimal_spec(n: nat) -> Seq<char>
    decreases n,
{
    if n < 10 {
        seq![digit_char(n)]
    } else {
        decimal_spec(n / 10).push(digit_char(n % 10))
    }
}

/// Renders a number in decimal.
pub fn u32_to_string(n: u32) -> (r: String)
    ensures
        r@ == decimal_spec(n as nat),
    decreases n,
{
    let digits = "0123456789";
    proof {
        reveal_strlit("0123456789");
    }
    if n < 10 {
        let d = digits.substring_char(n as usize, n as usize + 1);
        proof {
            assert(digits@.subrange(n as int, n as int + 1) =~= seq![
                digit_char(n as nat),
            ]);
        }
        d.to_owned()
    } else {
        let rest = u32_to_string(n / 10);
        let last = digits.substring_char((n % 10) as usize, (n % 10) as usize + 1);
        proof {
            assert(digits@.subrange(n as int % 10, n as int % 10 + 1) =~= seq![
                digit_char((n % 10) as nat),
            ]);
            assert(decimal_spec((n / 10) as nat) + seq![digit_char((n % 10) as nat)]
                =~= decimal_spec((n / 10) as nat).push(digit_char((n % 10) as nat)));
        }
        rest.concat(last)
    }
}

/// Parsing of the two boolean literals, and nothing else.
pub open spec fn parse_bool_spec(s: Seq<char>) -> Option<bool> {
    if s == "true"@ {
        Some(true)
    } else if s == "false"@ {
        Some(false)
    } else {
        None
    }
}

/// Reads `"true"` or `"false"`; any other text is rejected.
pub fn parse_bool(s: &str) -> (r: Option<bool>)
    ensures
        r == parse_bool_spec(s@),
{
    if str_eq(s, "true") {
        Some(true)
    } else if str_eq(s, "false") {
        Some(false)
    } else {
        None
    }
}

/// The lowercase form of a character sequence, as the standard library's
/// Unicode lowering produces it.
pub uninterp spec fn lower_of(s: Seq<char>) -> Seq<char>;

/// Relies on `str::to_lowercase`: the result is a function of the input
/// characters alone.
#[verifier::external_body]
pub fn to_lowercase(s: &str) -> (r: String)
    ensures
        r@ == lower_of(s@),
{
    s.to_lowercase()
}

} // verus!
