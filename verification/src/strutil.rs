//! Character-sequence helpers: decimal rendering and parsing of unsigned
//! integers, and conversions between `String` and `Vec<char>`.
use vstd::prelude::*;
use vstd::string::StrSliceExecFns;

verus! {

/// The character for one decimal digit.
pub open spec fn digit_char(d: int) -> char {
    if d == 0 {
        '0'
    } else if d == 1 {
        '1'
    } else if d == 2 {
        '2'
    } else if d == 3 {
        '3'
    } else if d == 4 {
        '4'
    } else if d == 5 {
        '5'
    } else if d == 6 {
        '6'
    } else if d == 7 {
        '7'
    } else if d == 8 {
        '8'
    } else {
        '9'
    }
}

/// The numeric value of a decimal digit character, or 10 for any other char.
pub open spec fn char_digit(c: char) -> int {
    if c == '0' {
        0
    } else if c == '1' {
        1
    } else if c == '2' {
        2
    } else if c == '3' {
        3
    } else if c == '4' {
        4
    } else if c == '5' {
        5
    } else if c == '6' {
        6
    } else if c == '7' {
        7
    } else if c == '8' {
        8
    } else if c == '9' {
        9
    } else {
        10
    }
}

pub open spec fn is_digit(c: char) -> bool {
    char_digit(c) < 10
}

/// The usual decimal rendering of `n`, most significant digit first,
/// with no leading zeros (a single '0' for zero).
pub open spec fn dec_digits(n: nat) -> Seq<char>
    decreases n,
{
    if n < 10 {
        seq![digit_char(n as int)]
    } else {
        dec_digits(n / 10).push(digit_char((n % 10) as int))
    }
}

pub proof fn lemma_dec_digits_len(n: nat)
    ensures
        dec_digits(n).len() >= 1,
        forall|i: int| 0 <= i < dec_digits(n).len() ==> is_digit(#[trigger] dec_digits(n)[i]),
    decreases n,
{
    if n >= 10 {
        lemma_dec_digits_len(n / 10);
    }
}

/// Executable form of `digit_char`.
pub fn digit_to_char(d: u64) -> (c: char)
    requires
        d < 10,
    ensures
        c == digit_char(d as int),
{
    match d {
        0 => '0',
        1 => '1',
        2 => '2',
        3 => '3',
        4 => '4',
        5 => '5',
        6 => '6',
        7 => '7',
        8 => '8',
        _ => '9',
    }
}

/// Executable form of `char_digit`, as an option.
pub fn char_to_digit(c: char) -> (r: Option<u64>)
    ensures
        is_digit(c) ==> r == Some(char_digit(c) as u64),
        !is_digit(c) ==> r is None,
{
    match c {
        '0' => Some(0),
        '1' => Some(1),
        '2' => Some(2),
        '3' => Some(3),
        '4' => Some(4),
        '5' => Some(5),
        '6' => Some(6),
        '7' => Some(7),
        '8' => Some(8),
        '9' => Some(9),
        _ => None,
    }
}

/// Appends the decimal rendering of `n` to `out`.
pub fn push_dec_digits(n: u64, out: &mut Vec<char>)
    ensures
        final(out)@ == old(out)@ + dec_digits(n as nat),
    decreases n,
{
    if n >= 10 {
        proof {
            assert(n / 10 < n) by (nonlinear_arith)
                requires
                    n >= 10,
            ;
        }
        push_dec_digits(n / 10, out);
    }
    out.push(digit_to_char(n % 10));
    proof {
        if n < 10 {
            assert(final(out)@ =~= old(out)@ + dec_digits(n as nat));
        } else {
            assert(final(out)@ =~= old(out)@ + dec_digits(n as nat));
        }
    }
}

/// The decimal rendering of `n` as a fresh vector of characters.
pub fn u64_to_chars(n: u64) -> (v: Vec<char>)
    ensures
        v@ == dec_digits(n as nat),
{
    let mut v: Vec<char> = Vec::new();
    push_dec_digits(n, &mut v);
    proof {
        assert(v@ =~= dec_digits(n as nat));
    }
    v
}

/// True when every character of `s` is a decimal digit.
pub open spec fn all_digits(s: Seq<char>) -> bool {
    forall|i: int| 0 <= i < s.len() ==> is_digit(#[trigger] s[i])
}

/// The numeric value of a digit run, most significant digit first.
pub open spec fn digits_value(s: Seq<char>) -> nat
    decreases s.len(),
{
    if s.len() == 0 {
        0
    } else {
        (digits_value(s.drop_last()) * 10 + char_digit(s.last())) as nat
    }
}

/// Reading the digits of `dec_digits(n)` back gives `n`.
pub proof fn lemma_digits_value_of_dec(n: nat)
    ensures
        digits_value(dec_digits(n)) == n,
        all_digits(dec_digits(n)),
    decreases n,
{
    lemma_dec_digits_len(n);
    if n < 10 {
        assert(char_digit(digit_char(n as int)) == n);
        assert(dec_digits(n).len() == 1);
        assert(dec_digits(n).last() == digit_char(n as int));
        assert(dec_digits(n).drop_last() =~= Seq::<char>::empty());
        assert(digits_value(Seq::<char>::empty()) == 0);
        assert(digits_value(dec_digits(n)) == (digits_value(dec_digits(n).drop_last()) * 10
            + char_digit(dec_digits(n).last())) as nat);
    } else {
        lemma_digits_value_of_dec(n / 10);
        assert(char_digit(digit_char((n % 10) as int)) == n % 10);
        assert(dec_digits(n).drop_last() =~= dec_digits(n / 10));
        assert(dec_digits(n).last() == digit_char((n % 10) as int));
        assert(n == (n / 10) * 10 + n % 10) by (nonlinear_arith);
    }
}

/// A longer digit run never has a smaller value.
pub proof fn lemma_digits_value_monotonic(s: Seq<char>, i: int)
    requires
        0 <= i <= s.len(),
    ensures
        digits_value(s.take(i)) <= digits_value(s),
    decreases s.len() - i,
{
    if i < s.len() {
        lemma_digits_value_monotonic(s, i + 1);
        assert(s.take(i + 1).drop_last() =~= s.take(i));
        assert(digits_value(s.take(i)) * 10 >= digits_value(s.take(i))) by (nonlinear_arith);
    } else {
        assert(s.take(i) =~= s);
    }
}

/// Length of the leading run of decimal digits.
pub open spec fn digit_run(s: Seq<char>) -> int
    decreases s.len(),
{
    if s.len() == 0 || !is_digit(s[0]) {
        0
    } else {
        1 + digit_run(s.drop_first())
    }
}

pub proof fn lemma_digit_run(s: Seq<char>)
    ensures
        0 <= digit_run(s) <= s.len(),
        forall|k: int| 0 <= k < digit_run(s) ==> is_digit(#[trigger] s[k]),
        digit_run(s) < s.len() ==> !is_digit(s[digit_run(s)]),
    decreases s.len(),
{
    if s.len() > 0 && is_digit(s[0]) {
        lemma_digit_run(s.drop_first());
        assert forall|k: int| 0 <= k < digit_run(s) implies is_digit(#[trigger] s[k]) by {
            if k > 0 {
                assert(s.drop_first()[k - 1] == s[k]);
            }
        }
        if digit_run(s) < s.len() {
            assert(s.drop_first()[digit_run(s) - 1] == s[digit_run(s)]);
        }
    }
}

pub open spec fn has_prefix(s: Seq<char>, p: Seq<char>) -> bool {
    s.len() >= p.len() && s.take(p.len() as int) == p
}

pub fn chars_have_prefix(v: &Vec<char>, p: &Vec<char>) -> (r: bool)
    ensures
        r == has_prefix(v@, p@),
{
    if v.len() < p.len() {
        return false;
    }
    let mut i: usize = 0;
    while i < p.len()
        invariant
            0 <= i <= p@.len(),
            p@.len() <= v@.len(),
            forall|k: int| 0 <= k < i ==> v@[k] == p@[k],
        decreases p@.len() - i,
    {
        if v[i] != p[i] {
            proof {
                assert(v@.take(p@.len() as int)[i as int] != p@[i as int]);
            }
            return false;
        }
        i = i + 1;
    }
    proof {
        assert(v@.take(p@.len() as int) =~= p@);
    }
    true
}

/// Index of the first occurrence of `c`, if any.
pub open spec fn spec_find_char(s: Seq<char>, c: char) -> Option<int>
    decreases s.len(),
{
    if s.len() == 0 {
        None
    } else if s[0] == c {
        Some(0)
    } else {
        match spec_find_char(s.drop_first(), c) {
            Some(i) => Some(i + 1),
            None => None,
        }
    }
}

pub fn find_char_from(v: &Vec<char>, start: usize, c: char) -> (r: Option<usize>)
    requires
        start <= v@.len(),
    ensures
        match r {
            Some(i) => {
                &&& start <= i < v@.len()
                &&& spec_find_char(v@.skip(start as int), c) == Some(i - start)
            },
            None => spec_find_char(v@.skip(start as int), c) is None,
        },
{
    let mut i: usize = start;
    while i < v.len()
        invariant
            start <= i <= v@.len(),
            forall|k: int| start <= k < i ==> v@[k] != c,
            spec_find_char(v@.skip(start as int), c) == match spec_find_char(
                v@.skip(i as int),
                c,
            ) {
                Some(j) => Some(j + i - start),
                None => None::<int>,
            },
        decreases v@.len() - i,
    {
        if v[i] == c {
            proof {
                assert(v@.skip(i as int)[0] == c);
            }
            return Some(i);
        }
        proof {
            assert(v@.skip(i as int).drop_first() =~= v@.skip(i + 1 as int));
            assert(v@.skip(i as int)[0] != c);
        }
        i = i + 1;
    }
    None
}

/// Relies on std's String::push: pushing a char appends exactly that
/// character to the string's character sequence.
#[verifier::external_body]
pub fn chars_to_string(v: &Vec<char>) -> (s: String)
    ensures
        s@ == v@,
{
    let mut s = String::new();
    for c in v.iter() {
        s.push(*c);
    }
    s
}

/// The characters of `s` as a fresh vector.
pub fn string_to_chars(s: &str) -> (v: Vec<char>)
    ensures
        v@ == s@,
{
    let n = s.unicode_len();
    let mut v: Vec<char> = Vec::new();
    let mut i: usize = 0;
    while i < n
        invariant
            0 <= i <= n,
            n == s@.len(),
            v@ == s@.subrange(0, i as int),
        decreases n - i,
    {
        v.push(s.get_char(i));
        proof {
            assert(v@ =~= s@.subrange(0, i + 1 as int));
        }
        i = i + 1;
    }
    proof {
        assert(v@ =~= s@);
    }
    v
}

} // verus!
