//! Character classes, decimal digits, and the decimal rendering of integers.
use vstd::prelude::*;

verus! {

pub open spec fn is_digit(c: char) -> bool {
    '0' <= c && c <= '9'
}

pub open spec fn is_letter(c: char) -> bool {
    ('a' <= c && c <= 'z') || ('A' <= c && c <= 'Z')
}

/// Characters that may appear inside a prerelease or build identifier.
pub open spec fn is_ident_char(c: char) -> bool {
    is_digit(c) || is_letter(c) || c == '-'
}

pub open spec fn all_digits(t: Seq<char>) -> bool {
    forall|k: int| 0 <= k < t.len() ==> is_digit(#[trigger] t[k])
}

/// A digit run written with a superfluous leading zero, such as `01`.
pub open spec fn has_leading_zero(t: Seq<char>) -> bool {
    t.len() > 1 && t[0] == '0'
}

pub open spec fn digit_value(c: char) -> nat {
    (c as int - '0' as int) as nat
}

/// The value of a run of decimal digits, most significant first.
pub open spec fn value_of(t: Seq<char>) -> nat
    decreases t.len(),
{
    if t.len() == 0 {
        0
    } else {
        value_of(t.drop_last()) * 10 + digit_value(t.last())
    }
}

pub open spec fn digit_char(d: nat) -> char {
    if d == 0 {
        '0'
    } else if d == 1 {
        '1'
    } else if d == 2 {
        '2'
    } else if d == 3 {
        '3'
    } else if d == 4 {
        '4'
    } else if d == 5 {
        '5'
    } else if d == 6 {
        '6'
    } else if d == 7 {
        '7'
    } else if d == 8 {
        '8'
    } else {
        '9'
    }
}

/// The canonical decimal text of `n`: no leading zero, `0` for zero.
pub open spec fn decimal(n: nat) -> Seq<char>
    decreases n,
{
    if n < 10 {
        seq![digit_char(n)]
    } else {
        decimal(n / 10).push(digit_char(n % 10))
    }
}

pub proof fn lemma_digit_char_value(c: char)
    requires
        is_digit(c),
    ensures
        digit_value(c) < 10,
        digit_char(digit_value(c)) == c,
{
}

/// A longer run of digits is worth at least as much as any of its prefixes.
pub proof fn lemma_value_prefix(t: Seq<char>, k: int)
    requires
        0 <= k <= t.len(),
    ensures
        value_of(t.take(k)) <= value_of(t),
    decreases t.len(),
{
    if k < t.len() {
        assert(t.drop_last().take(k) == t.take(k));
        lemma_value_prefix(t.drop_last(), k);
    } else {
        assert(t.take(k) == t);
    }
}

/// Digits that do not start with `0` are worth at least one.
pub proof fn lemma_value_positive(t: Seq<char>)
    requires
        t.len() > 0,
        is_digit(t[0]),
        t[0] != '0',
    ensures
        value_of(t) >= 1,
{
    lemma_value_prefix(t, 1);
    let first = t.take(1);
    assert(first.drop_last().len() == 0);
    assert(value_of(first.drop_last()) == 0);
    assert(first.last() == t[0]);
}

/// Canonical digit text is exactly the decimal rendering of its value.
pub proof fn lemma_decimal_of_value(t: Seq<char>)
    requires
        t.len() > 0,
        all_digits(t),
        !has_leading_zero(t),
    ensures
        decimal(value_of(t)) == t,
    decreases t.len(),
{
    let p = t.drop_last();
    lemma_digit_char_value(t.last());
    if t.len() == 1 {
        assert(p.len() == 0);
        assert(value_of(p) == 0);
        assert(seq![t.last()] == t);
    } else {
        assert(all_digits(p)) by {
            assert forall|k: int| 0 <= k < p.len() implies is_digit(#[trigger] p[k]) by {
                assert(p[k] == t[k]);
            }
        }
        lemma_decimal_of_value(p);
        assert(p[0] == t[0]);
        lemma_value_positive(p);
        let n = value_of(t);
        let d = digit_value(t.last());
        assert(n == value_of(p) * 10 + d);
        assert(n / 10 == value_of(p) && n % 10 == d) by (nonlinear_arith)
            requires
                n == value_of(p) * 10 + d,
                d < 10,
        ;
        assert(p.push(t.last()) == t);
    }
}

pub(crate) fn is_digit_char(c: char) -> (r: bool)
    ensures
        r == is_digit(c),
{
    '0' <= c && c <= '9'
}

pub(crate) fn is_ident_character(c: char) -> (r: bool)
    ensures
        r == is_ident_char(c),
{
    ('0' <= c && c <= '9') || ('a' <= c && c <= 'z') || ('A' <= c && c <= 'Z') || c == '-'
}

fn digit_of(c: char) -> (d: u64)
    requires
        is_digit(c),
    ensures
        d as nat == digit_value(c),
        d < 10,
{
    match c {
        '0' => 0,
        '1' => 1,
        '2' => 2,
        '3' => 3,
        '4' => 4,
        '5' => 5,
        '6' => 6,
        '7' => 7,
        '8' => 8,
        _ => 9,
    }
}

/// The value of the digits `t[lo..hi]`, or `None` where it does not fit in 64 bits.
pub(crate) fn value_in(t: &Vec<char>, lo: usize, hi: usize) -> (r: Option<u64>)
    requires
        lo <= hi <= t.len(),
        forall|k: int| lo <= k < hi ==> is_digit(#[trigger] t@[k]),
    ensures
        match r {
            Some(v) => v as nat == value_of(t@.subrange(lo as int, hi as int)),
            None => value_of(t@.subrange(lo as int, hi as int)) > u64::MAX,
        },
{
    let ghost whole = t@.subrange(lo as int, hi as int);
    let mut number: u64 = 0;
    let mut i: usize = lo;
    assert(t@.subrange(lo as int, lo as int).len() == 0);
    while i < hi
        invariant
            lo <= i <= hi <= t.len(),
            forall|k: int| lo <= k < hi ==> is_digit(#[trigger] t@[k]),
            whole == t@.subrange(lo as int, hi as int),
            number as nat == value_of(t@.subrange(lo as int, i as int)),
        decreases hi - i,
    {
        let d = digit_of(t[i]);
        let ghost next = t@.subrange(lo as int, i + 1);
        assert(next.drop_last() == t@.subrange(lo as int, i as int));
        assert(value_of(next) == number * 10 + d);
        if number > (u64::MAX - d) / 10 {
            assert(number * 10 + d > u64::MAX) by (nonlinear_arith)
                requires
                    number > (u64::MAX - d) / 10,
                    d < 10,
            ;
            assert(whole.take(i + 1 - lo) == next);
            proof { lemma_value_prefix(whole, i + 1 - lo); }
            return None;
        }
        assert(number * 10 + d <= u64::MAX) by (nonlinear_arith)
            requires
                number <= (u64::MAX - d) / 10,
                d < 10,
        ;
        number = number * 10 + d;
        i = i + 1;
    }
    Some(number)
}

/// Relies on String::push: the character is appended at the end.
#[verifier::external_body]
pub(crate) fn push_char(s: &mut String, c: char)
    ensures
        final(s)@ == old(s)@.push(c),
{
    s.push(c)
}

fn digit_to_char(d: u64) -> (c: char)
    requires
        d < 10,
    ensures
        c == digit_char(d as nat),
{
    match d {
        0 => '0',
        1 => '1',
        2 => '2',
        3 => '3',
        4 => '4',
        5 => '5',
        6 => '6',
        7 => '7',
        8 => '8',
        _ => '9',
    }
}

/// Appends the canonical decimal text of `n`.
pub(crate) fn push_decimal(s: &mut String, n: u64)
    ensures
        final(s)@ == old(s)@ + decimal(n as nat),
    decreases n,
{
    if n >= 10 {
        push_decimal(s, n / 10);
    }
    push_char(s, digit_to_char(n % 10));
    proof {
        if n >= 10 {
            assert(decimal(n as nat) == decimal((n / 10) as nat).push(digit_char((n % 10) as nat)));
        }
    }
}

} // verus!
