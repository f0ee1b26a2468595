//! Character-level operations on strings, stated over the sequence of characters of a string.
use vstd::prelude::*;
use vstd::string::*;

verus! {

// ---------------------------------------------------------------------------
// Vocabulary
// ---------------------------------------------------------------------------

/// The characters of an optional string.
pub open spec fn opt_text(s: Option<String>) -> Option<Seq<char>> {
    match s {
        Some(s) => Some(s@),
        None => None,
    }
}

/// The characters with the Unicode property `White_Space`.
pub open spec fn is_white_space(c: char) -> bool {
    ||| '\u{9}' <= c <= '\u{d}'
    ||| c == '\u{20}'
    ||| c == '\u{85}'
    ||| c == '\u{a0}'
    ||| c == '\u{1680}'
    ||| '\u{2000}' <= c <= '\u{200a}'
    ||| c == '\u{2028}'
    ||| c == '\u{2029}'
    ||| c == '\u{202f}'
    ||| c == '\u{205f}'
    ||| c == '\u{3000}'
}

/// The predicate that holds of white space.
pub open spec fn white() -> spec_fn(char) -> bool {
    |c: char| is_white_space(c)
}

/// The predicate that holds of `d` alone.
pub open spec fn only(d: char) -> spec_fn(char) -> bool {
    |c: char| c == d
}

/// `s` without its longest prefix of characters that satisfy `p`.
pub open spec fn trim_front(s: Seq<char>, p: spec_fn(char) -> bool) -> Seq<char>
    decreases s.len(),
{
    if s.len() > 0 && p(s.first()) {
        trim_front(s.skip(1), p)
    } else {
        s
    }
}

/// `s` without its longest suffix of characters that satisfy `p`.
pub open spec fn trim_back(s: Seq<char>, p: spec_fn(char) -> bool) -> Seq<char>
    decreases s.len(),
{
    if s.len() > 0 && p(s.last()) {
        trim_back(s.drop_last(), p)
    } else {
        s
    }
}

/// `s` without the characters that satisfy `p` at either end.
pub open spec fn trim_both(s: Seq<char>, p: spec_fn(char) -> bool) -> Seq<char> {
    trim_back(trim_front(s, p), p)
}

/// What stands before and after the first `sep` in `s`, if there is one.
pub open spec fn cut_first(s: Seq<char>, sep: char) -> Option<(Seq<char>, Seq<char>)>
    decreases s.len(),
{
    if s.len() == 0 {
        None
    } else if s.first() == sep {
        Some((Seq::empty(), s.skip(1)))
    } else {
        match cut_first(s.skip(1), sep) {
            Some((head, tail)) => Some((seq![s.first()] + head, tail)),
            None => None,
        }
    }
}

/// What stands before and after the last `sep` in `s`, if there is one.
pub open spec fn cut_last(s: Seq<char>, sep: char) -> Option<(Seq<char>, Seq<char>)>
    decreases s.len(),
{
    if s.len() == 0 {
        None
    } else if s.last() == sep {
        Some((s.drop_last(), Seq::empty()))
    } else {
        match cut_last(s.drop_last(), sep) {
            Some((head, tail)) => Some((head, tail.push(s.last()))),
            None => None,
        }
    }
}

/// The pieces of `s` between the occurrences of `sep`; always at least one.
pub open spec fn pieces(s: Seq<char>, sep: char) -> Seq<Seq<char>>
    decreases s.len(),
{
    if s.len() == 0 {
        seq![Seq::<char>::empty()]
    } else {
        let init = pieces(s.drop_last(), sep);
        if s.last() == sep {
            init.push(Seq::empty())
        } else {
            init.drop_last().push(init.last().push(s.last()))
        }
    }
}

/// `parts` in order, with `sep` between neighbours.
pub open spec fn joined(parts: Seq<Seq<char>>, sep: char) -> Seq<char>
    decreases parts.len(),
{
    if parts.len() == 0 {
        Seq::empty()
    } else if parts.len() == 1 {
        parts[0]
    } else {
        joined(parts.drop_last(), sep).push(sep) + parts.last()
    }
}

/// The character that stands for the digit `d`.
pub open spec fn digit(d: nat) -> char {
    (d + '0' as nat) as char
}

/// `n` in decimal notation, without leading zeros.
pub open spec fn decimal(n: nat) -> Seq<char>
    decreases n,
{
    if n < 10 {
        seq![digit(n)]
    } else {
        decimal(n / 10).push(digit(n % 10))
    }
}

// ---------------------------------------------------------------------------
// Facts about the vocabulary
// ---------------------------------------------------------------------------

/// Cutting at the first separator leaves none in the head, and putting it back gives the whole.
pub proof fn lemma_cut_first(s: Seq<char>, sep: char)
    ensures
        match cut_first(s, sep) {
            Some((head, tail)) => s == head.push(sep) + tail && !head.contains(sep),
            None => !s.contains(sep),
        },
    decreases s.len(),
{
    if s.len() > 0 && s.first() != sep {
        let rest = s.skip(1);
        lemma_cut_first(rest, sep);
        assert(s == seq![s.first()] + rest);
        match cut_first(rest, sep) {
            Some((head, tail)) => {
                let whole = seq![s.first()] + head;
                assert(s == whole.push(sep) + tail);
                assert forall|i: int| 0 <= i < whole.len() implies whole[i] != sep by {
                    if i > 0 {
                        assert(whole[i] == head[i - 1]);
                    }
                }
            },
            None => {
                assert forall|i: int| 0 <= i < s.len() implies s[i] != sep by {
                    if i > 0 {
                        assert(s[i] == rest[i - 1]);
                    }
                }
            },
        }
    } else if s.len() > 0 {
        assert(s == Seq::<char>::empty().push(sep) + s.skip(1));
    }
}

/// The cut at the first separator is the only one whose head holds no separator.
pub proof fn lemma_cut_first_unique(head: Seq<char>, sep: char, tail: Seq<char>)
    requires
        !head.contains(sep),
    ensures
        cut_first(head.push(sep) + tail, sep) == Some((head, tail)),
    decreases head.len(),
{
    let s = head.push(sep) + tail;
    if head.len() == 0 {
        assert(s.skip(1) == tail);
        assert(head == Seq::<char>::empty());
    } else {
        assert(head.contains(head[0]));
        let short = head.skip(1);
        assert forall|i: int| 0 <= i < short.len() implies short[i] != sep by {
            assert(head.contains(head[i + 1]));
        }
        lemma_cut_first_unique(short, sep, tail);
        assert(s.skip(1) == short.push(sep) + tail);
        assert(seq![s.first()] + short == head);
    }
}

/// Cutting at the last separator leaves none in the tail, and putting it back gives the whole.
pub proof fn lemma_cut_last(s: Seq<char>, sep: char)
    ensures
        match cut_last(s, sep) {
            Some((head, tail)) => s == head.push(sep) + tail && !tail.contains(sep),
            None => !s.contains(sep),
        },
    decreases s.len(),
{
    if s.len() > 0 && s.last() != sep {
        let init = s.drop_last();
        lemma_cut_last(init, sep);
        assert(s == init.push(s.last()));
        match cut_last(init, sep) {
            Some((head, tail)) => {
                let whole = tail.push(s.last());
                assert(s == head.push(sep) + whole);
                assert forall|i: int| 0 <= i < whole.len() implies whole[i] != sep by {
                    if i < tail.len() {
                        assert(whole[i] == tail[i]);
                    }
                }
            },
            None => {
                assert forall|i: int| 0 <= i < s.len() implies s[i] != sep by {
                    if i < init.len() {
                        assert(s[i] == init[i]);
                    }
                }
            },
        }
    } else if s.len() > 0 {
        assert(s == s.drop_last().push(sep) + Seq::<char>::empty());
    }
}

/// The cut at the last separator is the only one whose tail holds no separator.
pub proof fn lemma_cut_last_unique(head: Seq<char>, sep: char, tail: Seq<char>)
    requires
        !tail.contains(sep),
    ensures
        cut_last(head.push(sep) + tail, sep) == Some((head, tail)),
    decreases tail.len(),
{
    let s = head.push(sep) + tail;
    if tail.len() == 0 {
        assert(s.drop_last() == head);
        assert(tail == Seq::<char>::empty());
    } else {
        assert(tail.contains(tail.last()));
        let short = tail.drop_last();
        assert forall|i: int| 0 <= i < short.len() implies short[i] != sep by {
            assert(tail.contains(tail[i]));
        }
        lemma_cut_last_unique(head, sep, short);
        assert(s.drop_last() == head.push(sep) + short);
        assert(short.push(s.last()) == tail);
    }
}

/// The pieces hold no separator, and joined by it they give the whole.
pub proof fn lemma_pieces(s: Seq<char>, sep: char)
    ensures
        pieces(s, sep).len() > 0,
        joined(pieces(s, sep), sep) == s,
        forall|i: int| 0 <= i < pieces(s, sep).len() ==> !(#[trigger] pieces(s, sep)[i]).contains(sep),
    decreases s.len(),
{
    if s.len() > 0 {
        let init = pieces(s.drop_last(), sep);
        let all = pieces(s, sep);
        lemma_pieces(s.drop_last(), sep);
        if s.last() == sep {
            assert(all.drop_last() == init);
            assert(joined(all, sep) == s);
        } else {
            assert(all.drop_last() == init.drop_last());
            let grown = init.last().push(s.last());
            assert(!init[init.len() - 1].contains(sep));
            assert forall|i: int| 0 <= i < grown.len() implies grown[i] != sep by {
                if i < init.last().len() {
                    assert(init.last().contains(init.last()[i]));
                }
            }
            assert(joined(all, sep) == joined(init, sep).push(s.last()));
        }
    }
}

/// Splitting undoes joining, where no part holds the separator.
pub proof fn lemma_pieces_of_joined(parts: Seq<Seq<char>>, sep: char)
    requires
        parts.len() > 0,
        forall|i: int| 0 <= i < parts.len() ==> !(#[trigger] parts[i]).contains(sep),
    ensures
        pieces(joined(parts, sep), sep) == parts,
    decreases parts.len(),
{
    let init = parts.drop_last();
    let tail = parts.last();
    assert(!parts[parts.len() - 1].contains(sep));
    if parts.len() == 1 {
        assert(pieces(Seq::<char>::empty(), sep) == init.push(Seq::<char>::empty()));
        lemma_pieces_extend(Seq::empty(), tail, sep);
        assert(Seq::<char>::empty() + tail == tail);
        assert(parts == init.push(tail));
    } else {
        assert forall|i: int| 0 <= i < init.len() implies !(#[trigger] init[i]).contains(sep) by {
            assert(init[i] == parts[i]);
        }
        lemma_pieces_of_joined(init, sep);
        let head = joined(init, sep).push(sep);
        assert(head.drop_last() == joined(init, sep));
        assert(pieces(head, sep) == init.push(Seq::<char>::empty()));
        lemma_pieces_extend(head, tail, sep);
        assert(parts == init.push(tail));
    }
}

/// Characters other than the separator extend the last piece.
proof fn lemma_pieces_extend(head: Seq<char>, tail: Seq<char>, sep: char)
    requires
        !tail.contains(sep),
    ensures
        pieces(head, sep).len() > 0,
        pieces(head + tail, sep) == pieces(head, sep).drop_last().push(
            pieces(head, sep).last() + tail,
        ),
    decreases tail.len(),
{
    lemma_pieces(head, sep);
    let before = pieces(head, sep);
    if tail.len() == 0 {
        assert(head + tail == head);
        assert(before.last() + tail == before.last());
        assert(before == before.drop_last().push(before.last()));
    } else {
        let short = tail.drop_last();
        assert(tail.contains(tail.last()));
        assert forall|i: int| 0 <= i < short.len() implies short[i] != sep by {
            assert(tail.contains(tail[i]));
        }
        lemma_pieces_extend(head, short, sep);
        assert((head + tail).drop_last() == head + short);
        assert((before.last() + short).push(tail.last()) == before.last() + tail);
        let grown = before.drop_last().push(before.last() + short);
        assert(grown.drop_last() == before.drop_last());
    }
}

/// Lists without the separator in their parts are told apart by what joining gives.
pub proof fn lemma_joined_injective(a: Seq<Seq<char>>, b: Seq<Seq<char>>, sep: char)
    requires
        a.len() > 0,
        b.len() > 0,
        forall|i: int| 0 <= i < a.len() ==> !(#[trigger] a[i]).contains(sep),
        forall|i: int| 0 <= i < b.len() ==> !(#[trigger] b[i]).contains(sep),
        joined(a, sep) == joined(b, sep),
    ensures
        a == b,
{
    lemma_pieces_of_joined(a, sep);
    lemma_pieces_of_joined(b, sep);
}

/// Every character of a decimal notation is a digit.
pub proof fn lemma_decimal_digits(n: nat)
    ensures
        decimal(n).len() > 0,
        forall|i: int| 0 <= i < decimal(n).len() ==> '0' <= #[trigger] decimal(n)[i] <= '9',
    decreases n,
{
    if n >= 10 {
        lemma_decimal_digits(n / 10);
    }
}

/// Different numbers have different decimal notations.
pub proof fn lemma_decimal_injective(m: nat, n: nat)
    requires
        decimal(m) == decimal(n),
    ensures
        m == n,
    decreases m,
{
    lemma_decimal_digits(m);
    lemma_decimal_digits(n);
    assert(decimal(m).last() == digit(m % 10));
    assert(decimal(n).last() == digit(n % 10));
    if m >= 10 {
        lemma_decimal_digits(m / 10);
        if n >= 10 {
            assert(decimal(m).drop_last() == decimal(m / 10));
            assert(decimal(n).drop_last() == decimal(n / 10));
            lemma_decimal_injective(m / 10, n / 10);
        }
    } else if n >= 10 {
        lemma_decimal_digits(n / 10);
    }
}

// ---------------------------------------------------------------------------
// Laws
// ---------------------------------------------------------------------------

/// `r` is `s` without characters that satisfy `p` at either end: what was taken away satisfies `p`,
/// and neither end of what is left does.
pub open spec fn is_trimmed(s: Seq<char>, p: spec_fn(char) -> bool, r: Seq<char>) -> bool {
    &&& exists|from: int, to: int|
        {
            &&& 0 <= from <= to <= s.len()
            &&& r == #[trigger] s.subrange(from, to)
            &&& forall|i: int| 0 <= i < from ==> p(#[trigger] s[i])
            &&& forall|i: int| to <= i < s.len() ==> p(#[trigger] s[i])
        }
    &&& r.len() > 0 ==> !p(r[0]) && !p(r[r.len() - 1])
}

/// Trimming the front takes away characters that satisfy `p`, as many as there are.
pub proof fn law_trim_front(s: Seq<char>, p: spec_fn(char) -> bool)
    ensures
        ({
            let r = trim_front(s, p);
            let n = s.len() - r.len();
            &&& 0 <= n
            &&& r == s.skip(n)
            &&& forall|i: int| 0 <= i < n ==> p(#[trigger] s[i])
            &&& r.len() > 0 ==> !p(r[0])
        }),
    decreases s.len(),
{
    if s.len() > 0 && p(s.first()) {
        let rest = s.skip(1);
        law_trim_front(rest, p);
        let r = trim_front(s, p);
        let n = s.len() - r.len();
        assert(r == s.skip(n));
        assert forall|i: int| 0 <= i < n implies p(#[trigger] s[i]) by {
            if i > 0 {
                assert(s[i] == rest[i - 1]);
            }
        }
    } else {
        assert(s.skip(0) == s);
    }
}

/// Trimming the end takes away characters that satisfy `p`, as many as there are.
pub proof fn law_trim_back(s: Seq<char>, p: spec_fn(char) -> bool)
    ensures
        ({
            let r = trim_back(s, p);
            &&& r.len() <= s.len()
            &&& r == s.take(r.len() as int)
            &&& forall|i: int| r.len() <= i < s.len() ==> p(#[trigger] s[i])
            &&& r.len() > 0 ==> !p(r[r.len() - 1])
        }),
    decreases s.len(),
{
    if s.len() > 0 && p(s.last()) {
        let rest = s.drop_last();
        law_trim_back(rest, p);
        let r = trim_back(s, p);
        assert(r == s.take(r.len() as int));
        assert forall|i: int| r.len() <= i < s.len() implies p(#[trigger] s[i]) by {
            if i < rest.len() {
                assert(s[i] == rest[i]);
            }
        }
    } else {
        assert(s.take(s.len() as int) == s);
    }
}

/// Trimming both ends takes away characters that satisfy `p` at either end, as many as there are.
pub proof fn law_trim_both(s: Seq<char>, p: spec_fn(char) -> bool)
    ensures
        is_trimmed(s, p, trim_both(s, p)),
{
    law_trim_front(s, p);
    let front = trim_front(s, p);
    law_trim_back(front, p);
    let r = trim_both(s, p);
    let from = s.len() - front.len();
    let to = from + r.len();
    assert(r == s.subrange(from, to));
    assert forall|i: int| to <= i < s.len() implies p(#[trigger] s[i]) by {
        assert(s[i] == front[i - from]);
    }
    if r.len() > 0 {
        assert(r[0] == front[0]);
    }
}

/// What trimming takes away, in front and at the end.
pub proof fn lemma_trimmings(s: Seq<char>, p: spec_fn(char) -> bool) -> (cut: (Seq<char>, Seq<char>))
    ensures
        s == cut.0 + trim_both(s, p) + cut.1,
        forall|i: int| 0 <= i < cut.0.len() ==> p(#[trigger] cut.0[i]),
        forall|i: int| 0 <= i < cut.1.len() ==> p(#[trigger] cut.1[i]),
        ({
            let r = trim_both(s, p);
            r.len() > 0 ==> !p(r[0]) && !p(r[r.len() - 1])
        }),
{
    law_trim_front(s, p);
    let front = trim_front(s, p);
    law_trim_back(front, p);
    let r = trim_both(s, p);
    let n = s.len() - front.len();
    let before = s.take(n);
    let after = front.skip(r.len() as int);
    assert(s == before + r + after);
    assert forall|i: int| 0 <= i < before.len() implies p(#[trigger] before[i]) by {
        assert(before[i] == s[i]);
    }
    assert forall|i: int| 0 <= i < after.len() implies p(#[trigger] after[i]) by {
        assert(after[i] == front[i + r.len()]);
    }
    if r.len() > 0 {
        assert(r[0] == front[0]);
    }
    (before, after)
}

/// What stands between characters that satisfy `p` is what trimming leaves.
pub proof fn law_trim_both_of(
    before: Seq<char>,
    middle: Seq<char>,
    after: Seq<char>,
    p: spec_fn(char) -> bool,
)
    requires
        forall|i: int| 0 <= i < before.len() ==> p(#[trigger] before[i]),
        forall|i: int| 0 <= i < after.len() ==> p(#[trigger] after[i]),
        middle.len() > 0 ==> !p(middle[0]) && !p(middle[middle.len() - 1]),
    ensures
        trim_both(before + middle + after, p) == middle,
{
    let s = before + middle + after;
    law_trim_front(s, p);
    let front = trim_front(s, p);
    let n = s.len() - front.len();
    law_trim_back(front, p);
    let r = trim_both(s, p);
    if middle.len() > 0 {
        assert(s[before.len() as int] == middle[0]);
        assert(n <= before.len());
        if n < before.len() {
            assert(front[0] == s[n]);
            assert(s[n] == before[n]);
        }
        assert(front == middle + after);
        assert(front[middle.len() - 1] == middle[middle.len() - 1]);
        if r.len() > middle.len() {
            assert(r[r.len() - 1] == front[r.len() - 1]);
            assert(front[r.len() - 1] == after[r.len() - 1 - middle.len()]);
        }
        assert(r == middle);
    } else {
        if front.len() > 0 {
            assert(front[0] == s[n]);
            if n < before.len() {
                assert(s[n] == before[n]);
            } else {
                assert(s[n] == after[n - before.len()]);
            }
        }
        assert(r =~= middle);
    }
}

/// The predicates that are trimmed by hold of white space, and of one character.
pub proof fn law_trimmed_characters(c: char, d: char)
    ensures
        white()(c) == is_white_space(c),
        only(d)(c) == (c == d),
{
}

/// Joining one part gives the part, and joining two lists gives what joining each of them gives,
/// with the separator between.
pub proof fn law_joined(a: Seq<Seq<char>>, b: Seq<Seq<char>>, part: Seq<char>, sep: char)
    requires
        a.len() > 0,
        b.len() > 0,
    ensures
        joined(seq![part], sep) == part,
        joined(Seq::<Seq<char>>::empty(), sep) == Seq::<char>::empty(),
        joined(a + b, sep) == joined(a, sep).push(sep) + joined(b, sep),
    decreases b.len(),
{
    assert((a + b).drop_last() == a + b.drop_last());
    assert((a + b).last() == b.last());
    if b.len() == 1 {
        assert(a + b.drop_last() == a);
        assert(b[0] == b.last());
    } else {
        law_joined(a, b.drop_last(), part, sep);
        assert(joined(a + b, sep) == joined(a, sep).push(sep) + joined(b, sep));
    }
}

/// The number that digits stand for.
pub open spec fn number_of(digits: Seq<char>) -> int
    decreases digits.len(),
{
    if digits.len() == 0 {
        0
    } else {
        number_of(digits.drop_last()) * 10 + (digits.last() as int - '0' as int)
    }
}

/// A decimal notation is made of digits, stands for its number, and has no needless zero in front.
pub proof fn law_decimal(n: nat)
    ensures
        number_of(decimal(n)) == n,
        decimal(n).len() > 0,
        forall|i: int| 0 <= i < decimal(n).len() ==> '0' <= #[trigger] decimal(n)[i] <= '9',
        decimal(n).len() > 1 ==> decimal(n)[0] != '0',
    decreases n,
{
    lemma_decimal_digits(n);
    reveal_with_fuel(number_of, 2);
    if n >= 10 {
        law_decimal(n / 10);
        assert(decimal(n).drop_last() == decimal(n / 10));
        lemma_decimal_digits(n / 10);
        assert(decimal(n)[0] == decimal(n / 10)[0]);
        if decimal(n / 10).len() == 1 {
            assert(decimal(n / 10).drop_last() == Seq::<char>::empty());
            if n / 10 >= 10 {
                lemma_decimal_digits(n / 10 / 10);
            }
        }
    } else {
        assert(decimal(n).drop_last() == Seq::<char>::empty());
    }
}

/// The characters of an optional string are there exactly if the string is, and are its own.
pub proof fn law_opt_text(s: String)
    ensures
        opt_text(Some(s)) == Some(s@),
        opt_text(None) is None,
{
}

// ---------------------------------------------------------------------------
// Operations
// ---------------------------------------------------------------------------

/// The characters of `s`, in order.
pub fn chars_of(s: &str) -> (chars: Vec<char>)
    ensures
        chars@ == s@,
{
    let mut chars: Vec<char> = Vec::new();
    for c in it: s.chars()
        invariant
            chars@ == it.seq().take(it.index()),
            it.seq() == s@,
    {
        chars.push(c);
    }
    chars
}

/// Whether two strings hold the same characters.
pub fn same_text(a: &str, b: &str) -> (same: bool)
    ensures
        same == (a@ == b@),
{
    a.to_owned() == b.to_owned()
}

/// Whether `c` has the Unicode property `White_Space`.
pub fn is_whitespace(c: char) -> (white: bool)
    ensures
        white == is_white_space(c),
{
    ('\u{9}' <= c && c <= '\u{d}') || c == '\u{20}' || c == '\u{85}' || c == '\u{a0}'
        || c == '\u{1680}' || ('\u{2000}' <= c && c <= '\u{200a}') || c == '\u{2028}'
        || c == '\u{2029}' || c == '\u{202f}' || c == '\u{205f}' || c == '\u{3000}'
}

/// Whether `c` occurs in `s`.
pub fn contains_char(s: &str, c: char) -> (found: bool)
    ensures
        found == s@.contains(c),
{
    let chars = chars_of(s);
    let mut i: usize = 0;
    while i < chars.len()
        invariant
            chars@ == s@,
            i <= chars.len(),
            forall|j: int| 0 <= j < i ==> s@[j] != c,
        decreases chars.len() - i,
    {
        if chars[i] == c {
            assert(s@[i as int] == c);
            return true;
        }
        i += 1;
    }
    false
}

/// `s` cut at the first `sep`.
pub fn split_once(s: &str, sep: char) -> (cut: Option<(&str, &str)>)
    ensures
        match cut {
            Some((head, tail)) => cut_first(s@, sep) == Some((head@, tail@)),
            None => cut_first(s@, sep) is None,
        },
{
    let chars = chars_of(s);
    let mut i: usize = 0;
    while i < chars.len()
        invariant
            chars@ == s@,
            i <= chars.len(),
            forall|j: int| 0 <= j < i ==> s@[j] != sep,
        decreases chars.len() - i,
    {
        if chars[i] == sep {
            let head = s.substring_char(0, i);
            let tail = s.substring_char(i + 1, chars.len());
            proof {
                assert(s@ == head@.push(sep) + tail@);
                lemma_cut_first_unique(head@, sep, tail@);
            }
            return Some((head, tail));
        }
        i += 1;
    }
    proof {
        lemma_cut_first(s@, sep);
        if let Some((head, tail)) = cut_first(s@, sep) {
            assert(s@[head.len() as int] == sep);
        }
    }
    None
}

/// `s` cut at the last `sep`.
pub fn rsplit_once(s: &str, sep: char) -> (cut: Option<(&str, &str)>)
    ensures
        match cut {
            Some((head, tail)) => cut_last(s@, sep) == Some((head@, tail@)),
            None => cut_last(s@, sep) is None,
        },
{
    let chars = chars_of(s);
    let mut i: usize = chars.len();
    while i > 0
        invariant
            chars@ == s@,
            i <= chars.len(),
            forall|j: int| i <= j < s@.len() ==> s@[j] != sep,
        decreases i,
    {
        i -= 1;
        if chars[i] == sep {
            let head = s.substring_char(0, i);
            let tail = s.substring_char(i + 1, chars.len());
            proof {
                assert(s@ == head@.push(sep) + tail@);
                lemma_cut_last_unique(head@, sep, tail@);
            }
            return Some((head, tail));
        }
    }
    proof {
        lemma_cut_last(s@, sep);
        if let Some((head, tail)) = cut_last(s@, sep) {
            assert(s@[head.len() as int] == sep);
        }
    }
    None
}

/// What follows `prefix` in `s`, if `s` starts with it.
pub fn strip_prefix<'a>(s: &'a str, prefix: &str) -> (rest: Option<&'a str>)
    ensures
        match rest {
            Some(rest) => s@ == prefix@ + rest@,
            None => !prefix@.is_prefix_of(s@),
        },
{
    let chars = chars_of(s);
    let expected = chars_of(prefix);
    if chars.len() < expected.len() {
        return None;
    }
    let mut i: usize = 0;
    while i < expected.len()
        invariant
            chars@ == s@,
            expected@ == prefix@,
            i <= expected.len() <= chars.len(),
            forall|j: int| 0 <= j < i ==> s@[j] == prefix@[j],
        decreases expected.len() - i,
    {
        if chars[i] != expected[i] {
            assert(s@.subrange(0, prefix@.len() as int)[i as int] != prefix@[i as int]);
            return None;
        }
        i += 1;
    }
    let rest = s.substring_char(expected.len(), chars.len());
    assert(s@ == prefix@ + rest@);
    Some(rest)
}

/// `s` without white space at either end.
pub fn trim(s: &str) -> (trimmed: &str)
    ensures
        trimmed@ == trim_both(s@, white()),
{
    let chars = chars_of(s);
    let mut from: usize = 0;
    assert(s@.skip(0) == s@);
    while from < chars.len() && is_whitespace(chars[from])
        invariant
            chars@ == s@,
            from <= chars.len(),
            trim_front(s@, white()) == trim_front(s@.skip(from as int), white()),
        decreases chars.len() - from,
    {
        assert(s@.skip(from as int).skip(1) == s@.skip(from + 1));
        from += 1;
    }
    let ghost front = s@.skip(from as int);
    let mut to: usize = chars.len();
    assert(s@.subrange(from as int, to as int) == front);
    while to > from && is_whitespace(chars[to - 1])
        invariant
            chars@ == s@,
            from <= to <= chars.len(),
            trim_back(front, white()) == trim_back(s@.subrange(from as int, to as int), white()),
        decreases to,
    {
        assert(s@.subrange(from as int, to as int).drop_last() == s@.subrange(
            from as int,
            to - 1,
        ));
        to -= 1;
    }
    s.substring_char(from, to)
}

/// `s` without `c` at either end.
pub fn trim_matches(s: &str, c: char) -> (trimmed: &str)
    ensures
        trimmed@ == trim_both(s@, only(c)),
{
    let chars = chars_of(s);
    let mut from: usize = 0;
    assert(s@.skip(0) == s@);
    while from < chars.len() && chars[from] == c
        invariant
            chars@ == s@,
            from <= chars.len(),
            trim_front(s@, only(c)) == trim_front(s@.skip(from as int), only(c)),
        decreases chars.len() - from,
    {
        assert(s@.skip(from as int).skip(1) == s@.skip(from + 1));
        from += 1;
    }
    let rest = s.substring_char(from, chars.len());
    assert(rest@ == s@.skip(from as int));
    trim_end_matches(rest, c)
}

/// `s` without `c` at its end.
pub fn trim_end_matches(s: &str, c: char) -> (trimmed: &str)
    ensures
        trimmed@ == trim_back(s@, only(c)),
{
    let chars = chars_of(s);
    let mut to: usize = chars.len();
    assert(s@.take(to as int) == s@);
    while to > 0 && chars[to - 1] == c
        invariant
            chars@ == s@,
            to <= chars.len(),
            trim_back(s@, only(c)) == trim_back(s@.take(to as int), only(c)),
        decreases to,
    {
        assert(s@.take(to as int).drop_last() == s@.take(to - 1));
        to -= 1;
    }
    s.substring_char(0, to)
}

/// The pieces of `s` between the occurrences of `sep`.
pub fn split(s: &str, sep: char) -> (parts: Vec<&str>)
    ensures
        parts@.map_values(|part: &str| part@) == pieces(s@, sep),
{
    let chars = chars_of(s);
    let mut parts: Vec<&str> = Vec::new();
    let mut from: usize = 0;
    let mut i: usize = 0;
    let ghost views = |part: &str| part@;
    assert(s@.subrange(0, 0) == Seq::<char>::empty());
    assert(parts@.map_values(views).push(s@.subrange(0, 0)) == seq![Seq::<char>::empty()]);
    while i < chars.len()
        invariant
            chars@ == s@,
            from <= i <= chars.len(),
            views == (|part: &str| part@),
            parts@.map_values(views).push(s@.subrange(from as int, i as int)) == pieces(
                s@.take(i as int),
                sep,
            ),
        decreases chars.len() - i,
    {
        let ghost done = parts@.map_values(views);
        assert(s@.take(i + 1).drop_last() == s@.take(i as int));
        if chars[i] == sep {
            let part = s.substring_char(from, i);
            parts.push(part);
            assert(parts@.map_values(views) == done.push(part@));
            from = i + 1;
            assert(s@.subrange(from as int, i + 1) == Seq::<char>::empty());
        } else {
            assert(done.push(s@.subrange(from as int, i as int)).drop_last() == done);
            assert(s@.subrange(from as int, i + 1) == s@.subrange(from as int, i as int).push(
                s@[i as int],
            ));
        }
        i += 1;
    }
    let ghost done = parts@.map_values(views);
    let part = s.substring_char(from, chars.len());
    parts.push(part);
    assert(parts@.map_values(views) == done.push(part@));
    assert(s@.take(i as int) == s@);
    parts
}

/// The string that holds the digit `d` alone.
fn digit_text(d: u64) -> (text: &'static str)
    requires
        d < 10,
    ensures
        text@ == seq![digit(d as nat)],
{
    proof {
        reveal_strlit("0");
        reveal_strlit("1");
        reveal_strlit("2");
        reveal_strlit("3");
        reveal_strlit("4");
        reveal_strlit("5");
        reveal_strlit("6");
        reveal_strlit("7");
        reveal_strlit("8");
        reveal_strlit("9");
    }
    let text = match d {
        0 => "0",
        1 => "1",
        2 => "2",
        3 => "3",
        4 => "4",
        5 => "5",
        6 => "6",
        7 => "7",
        8 => "8",
        _ => "9",
    };
    assert(text@ =~= seq![digit(d as nat)]);
    text
}

/// `n` in decimal notation.
pub fn decimal_text(n: u64) -> (text: String)
    ensures
        text@ == decimal(n as nat),
    decreases n,
{
    if n < 10 {
        digit_text(n).to_owned()
    } else {
        let init = decimal_text(n / 10);
        init.concat(digit_text(n % 10))
    }
}

} // verus!
