//! Text handling shared by the query and mode syntaxes: decimal numbers,
//! splitting on a separator, and comparison of strings.

use vstd::prelude::*;

verus! {

/// Whether `c` is an ASCII decimal digit.
pub open spec fn is_digit(c: char) -> bool {
    '0' <= c && c <= '9'
}

/// The numeric value of a digit character.
pub open spec fn digit_value(c: char) -> int {
    c as int - '0' as int
}

/// The value of a string of decimal digits, most significant first.
pub open spec fn digits_value(s: Seq<char>) -> int
    decreases s.len(),
{
    if s.len() == 0 {
        0
    } else {
        digits_value(s.drop_last()) * 10 + digit_value(s.last())
    }
}

/// Whether every character of `s` is a decimal digit.
pub open spec fn all_digits(s: Seq<char>) -> bool {
    forall|i: int| 0 <= i < s.len() ==> is_digit(#[trigger] s[i])
}

/// The digits of a decimal number: the text after an optional leading `+`.
pub open spec fn unsigned_body(s: Seq<char>) -> Seq<char> {
    if s.len() > 0 && s[0] == '+' {
        s.drop_first()
    } else {
        s
    }
}

/// What parsing `s` as a `u32` gives: an optional `+` followed by at least
/// one decimal digit, whose value fits in a `u32`.
pub open spec fn spec_parse_u32(s: Seq<char>) -> Option<u32> {
    let d = unsigned_body(s);
    if d.len() > 0 && all_digits(d) && digits_value(d) <= u32::MAX {
        Some(digits_value(d) as u32)
    } else {
        None
    }
}

/// The character of a digit value below ten.
pub open spec fn digit_char(d: int) -> char {
    ('0' as int + d) as char
}

/// The shortest decimal representation of `n`.
pub open spec fn decimal(n: nat) -> Seq<char>
    decreases n,
{
    if n < 10 {
        seq![digit_char(n as int)]
    } else {
        decimal(n / 10).push(digit_char((n % 10) as int))
    }
}

/// Splits `s` at every occurrence of `sep`: the pieces between the
/// separators, in order (one piece more than separators).
pub open spec fn split_on<T>(s: Seq<T>, sep: T) -> Seq<Seq<T>>
    decreases s.len(),
{
    if s.len() == 0 {
        seq![Seq::<T>::empty()]
    } else {
        let parts = split_on(s.drop_last(), sep);
        if s.last() == sep {
            parts.push(Seq::<T>::empty())
        } else {
            parts.update(parts.len() - 1, parts.last().push(s.last()))
        }
    }
}

/// The pieces of a split are never empty as a sequence of pieces.
pub proof fn lemma_split_on_nonempty<T>(s: Seq<T>, sep: T)
    ensures
        split_on(s, sep).len() >= 1,
    decreases s.len(),
{
    if s.len() > 0 {
        lemma_split_on_nonempty(s.drop_last(), sep);
    }
}

/// A piece without separator splits into itself alone.
pub proof fn lemma_split_no_sep<T>(p: Seq<T>, sep: T)
    requires
        !p.contains(sep),
    ensures
        split_on(p, sep) == seq![p],
    decreases p.len(),
{
    if p.len() == 0 {
        assert(p =~= Seq::<T>::empty());
        assert(split_on(p, sep) =~= seq![p]);
    } else {
        assert(p.drop_last().contains(sep) ==> p.contains(sep)) by {
            if p.drop_last().contains(sep) {
                let k = choose|k: int| 0 <= k < p.drop_last().len() && p.drop_last()[k] == sep;
                assert(p[k] == sep);
            }
        }
        lemma_split_no_sep(p.drop_last(), sep);
        assert(p.last() != sep) by {
            assert(p[p.len() - 1] == p.last());
        }
        assert(p.drop_last().push(p.last()) =~= p);
        let parts = split_on(p.drop_last(), sep);
        assert(parts.last() == p.drop_last());
        assert(split_on(p, sep) == parts.update(parts.len() - 1, parts.last().push(p.last())));
        assert(split_on(p, sep) =~= seq![p]);
    }
}

/// Splitting a sequence that continues after a separator: the pieces of the
/// part before it (without its final empty piece) followed by the pieces of
/// the rest.
pub proof fn lemma_split_concat<T>(a: Seq<T>, b: Seq<T>, sep: T)
    requires
        a.len() == 0 || a.last() == sep,
    ensures
        split_on(a + b, sep) == split_on(a, sep).drop_last() + split_on(b, sep),
    decreases b.len(),
{
    lemma_split_on_nonempty(a, sep);
    lemma_split_on_nonempty(b, sep);
    if b.len() == 0 {
        assert(a + b =~= a);
        if a.len() == 0 {
            assert(split_on(a, sep).drop_last() + split_on(b, sep) =~= split_on(a, sep));
        } else {
            assert(split_on(a, sep) == split_on(a.drop_last(), sep).push(Seq::<T>::empty()));
            assert(split_on(a, sep).drop_last() + split_on(b, sep) =~= split_on(a, sep));
        }
    } else {
        let bd = b.drop_last();
        lemma_split_concat(a, bd, sep);
        lemma_split_on_nonempty(bd, sep);
        assert((a + b).drop_last() =~= a + bd);
        assert((a + b).last() == b.last());
        let left = split_on(a, sep).drop_last();
        let right = split_on(bd, sep);
        if b.last() == sep {
            assert(split_on(a + b, sep) =~= left + right.push(Seq::<T>::empty()));
        } else {
            let whole = left + right;
            assert(whole.last() == right.last());
            assert(whole.update(whole.len() - 1, whole.last().push(b.last())) =~= left + right.update(
                right.len() - 1,
                right.last().push(b.last()),
            ));
        }
    }
}

/// Splitting `a`, a separator and `b`: the pieces of `a`, then those of `b`.
pub proof fn lemma_split_around<T>(a: Seq<T>, b: Seq<T>, sep: T)
    ensures
        split_on(a.push(sep) + b, sep) == split_on(a, sep) + split_on(b, sep),
{
    lemma_split_concat(a.push(sep), b, sep);
    assert(a.push(sep).drop_last() =~= a);
    assert(split_on(a.push(sep), sep) == split_on(a, sep).push(Seq::<T>::empty()));
    assert(split_on(a.push(sep), sep).drop_last() =~= split_on(a, sep));
}

/// Position of the first occurrence of `c` in `s`, if any.
pub open spec fn is_first_index<T>(s: Seq<T>, c: T, i: int) -> bool {
    &&& 0 <= i < s.len()
    &&& s[i] == c
    &&& forall|j: int| 0 <= j < i ==> s[j] != c
}

/// Splits `s` at the first occurrence of `c`, like `str::split_once`.
pub open spec fn split_once<T>(s: Seq<T>, c: T) -> Option<(Seq<T>, Seq<T>)> {
    if exists|i: int| is_first_index(s, c, i) {
        let i = choose|i: int| is_first_index(s, c, i);
        Some((s.take(i), s.skip(i + 1)))
    } else {
        None
    }
}

/// The first occurrence of an element is unique.
pub proof fn lemma_first_index_unique<T>(s: Seq<T>, c: T, i: int, k: int)
    requires
        is_first_index(s, c, i),
        is_first_index(s, c, k),
    ensures
        i == k,
{
}

/// The characters of `s`, in order.
pub fn chars_of(s: &str) -> (res: Vec<char>)
    ensures
        res@ == s@,
{
    let mut res: Vec<char> = Vec::new();
    for c in it: s.chars()
        invariant
            res@ == it.seq().take(it.index() as int),
            it.seq() == s@,
    {
        res.push(c);
    }
    res
}

/// Whether two strings hold the same characters.
pub fn str_eq(a: &str, b: &str) -> (res: bool)
    ensures
        res == (a@ == b@),
{
    let x = chars_of(a);
    let y = chars_of(b);
    chars_eq(&x, &y)
}

/// Whether two character sequences are equal.
pub fn chars_eq(x: &[char], y: &[char]) -> (res: bool)
    ensures
        res == (x@ == y@),
{
    if x.len() != y.len() {
        return false;
    }
    let mut i: usize = 0;
    while i < x.len()
        invariant
            x@.len() == y@.len(),
            i <= x@.len(),
            forall|j: int| 0 <= j < i ==> x@[j] == y@[j],
        decreases x@.len() - i,
    {
        if x[i] != y[i] {
            return false;
        }
        i = i + 1;
    }
    assert(x@ =~= y@);
    true
}

/// Parses a sequence of characters as a `u32`, with the syntax of
/// `u32::from_str`: an optional `+`, then one or more decimal digits, with a
/// value that fits in a `u32`.
pub fn parse_u32_chars(s: &[char]) -> (res: Option<u32>)
    ensures
        res == spec_parse_u32(s@),
{
    let ghost d = unsigned_body(s@);
    let start: usize = if s.len() > 0 && s[0] == '+' {
        1
    } else {
        0
    };
    assert(d == s@.skip(start as int));
    if start >= s.len() {
        return None;
    }
    let mut value: u32 = 0;
    let mut overflow = false;
    let mut i = start;
    while i < s.len()
        invariant
            start <= i <= s@.len(),
            d == s@.skip(start as int),
            d == unsigned_body(s@),
            all_digits(s@.subrange(start as int, i as int)),
            overflow ==> digits_value(s@.subrange(start as int, i as int)) > u32::MAX,
            !overflow ==> value == digits_value(s@.subrange(start as int, i as int)),
        decreases s@.len() - i,
    {
        let c = s[i];
        if !('0' <= c && c <= '9') {
            assert(s@[i as int] == c);
            assert(d[i - start] == s@[i as int]);
            assert(!is_digit(d[i - start]));
            assert(!all_digits(d));
            return None;
        }
        let ghost prefix = s@.subrange(start as int, i as int);
        let ghost next = s@.subrange(start as int, i + 1);
        assert(next.drop_last() == prefix);
        assert(next.last() == c);
        let digit: u32 = (c as u32) - ('0' as u32);
        if !overflow {
            if value > (u32::MAX - digit) / 10 {
                overflow = true;
                assert(value * 10 + digit > u32::MAX) by (nonlinear_arith)
                    requires
                        value > (u32::MAX - digit) / 10,
                        digit <= 9,
                ;
            } else {
                assert(value * 10 + digit <= u32::MAX) by (nonlinear_arith)
                    requires
                        value <= (u32::MAX - digit) / 10,
                        digit <= 9,
                ;
                value = value * 10 + digit;
            }
        } else {
            assert(digits_value(next) > u32::MAX) by (nonlinear_arith)
                requires
                    digits_value(prefix) > u32::MAX,
                    digits_value(next) == digits_value(prefix) * 10 + digit_value(c),
                    digit_value(c) >= 0,
            ;
        }
        i = i + 1;
    }
    assert(s@.subrange(start as int, s@.len() as int) == d);
    if overflow {
        None
    } else {
        Some(value)
    }
}

/// Parses a string as a `u32`, as `str::parse::<u32>` does.
pub fn parse_u32(s: &str) -> (res: Option<u32>)
    ensures
        res == spec_parse_u32(s@),
{
    let chars = chars_of(s);
    parse_u32_chars(chars.as_slice())
}

/// Appends the decimal representation of `n` to `out`.
pub fn push_decimal(out: &mut Vec<char>, n: u32)
    ensures
        final(out)@ == old(out)@ + decimal(n as nat),
    decreases n,
{
    if n >= 10 {
        push_decimal(out, n / 10);
    }
    let d = n % 10;
    let c = char_of_digit(d);
    out.push(c);
    proof {
        if n < 10 {
            assert(decimal(n as nat) == seq![digit_char(n as int)]);
        }
    }
    assert(final(out)@ =~= old(out)@ + decimal(n as nat));
}

/// The character of a digit below ten.
pub(crate) fn char_of_digit(d: u32) -> (c: char)
    requires
        d < 10,
    ensures
        c == digit_char(d as int),
{
    if d == 0 { '0' }
    else if d == 1 { '1' }
    else if d == 2 { '2' }
    else if d == 3 { '3' }
    else if d == 4 { '4' }
    else if d == 5 { '5' }
    else if d == 6 { '6' }
    else if d == 7 { '7' }
    else if d == 8 { '8' }
    else { '9' }
}

/// A decimal representation consists of digits and denotes its number.
pub proof fn lemma_decimal_digits(n: nat)
    ensures
        decimal(n).len() > 0,
        all_digits(decimal(n)),
        digits_value(decimal(n)) == n,
        decimal(n)[0] != '+',
    decreases n,
{
    if n < 10 {
        let s = decimal(n);
        assert(s == seq![digit_char(n as int)]);
        assert(digit_char(n as int) as int == '0' as int + n);
        assert(s.drop_last() =~= Seq::<char>::empty());
        assert(digits_value(s) == digits_value(s.drop_last()) * 10 + digit_value(s.last()));
    } else {
        lemma_decimal_digits(n / 10);
        let s = decimal(n);
        assert(s.drop_last() == decimal(n / 10));
        let d = (n % 10) as int;
        assert(digit_char(d) as int == '0' as int + d);
        assert(n == (n / 10) * 10 + n % 10) by (nonlinear_arith);
        assert(s.last() == digit_char(d));
        assert(digits_value(s) == digits_value(s.drop_last()) * 10 + digit_value(s.last()));
        assert(forall|i: int| 0 <= i < s.len() - 1 ==> s[i] == decimal(n / 10)[i]);
    }
}

/// Parsing the decimal representation of a number gives that number back.
pub proof fn lemma_parse_decimal(n: u32)
    ensures
        spec_parse_u32(decimal(n as nat)) == Some(n),
{
    lemma_decimal_digits(n as nat);
}

/// The text of a list of characters, as a `String`.
///
/// Trusted: calls `Iterator::collect` into a `String` (std's
/// `FromIterator<&char>`), which the documentation says appends each
/// character in order; the contract claims the string holds exactly these
/// characters.
#[verifier::external_body]
pub(crate) fn string_from_chars(chars: &[char]) -> (res: String)
    ensures
        res@ == chars@,
{
    chars.iter().collect()
}

} // verus!
