//! Text pieces: decimal numbers and single characters.
use vstd::prelude::*;
use vstd::string::*;

verus! {

/// Contract of `std::string::String::push`, which appends one character to a string.
pub assume_specification[ String::push ](s: &mut String, c: char)
    ensures
        final(s)@ == old(s)@.push(c),
;

/// The characters of a text.
pub fn chars_of(s: &str) -> (v: Vec<char>)
    ensures
        v@ == s@,
{
    let n = s.unicode_len();
    let mut v: Vec<char> = Vec::new();
    let mut i: usize = 0;
    while i < n
        invariant
            n == s@.len(),
            i <= n,
            v@ == s@.take(i as int),
        decreases n - i,
    {
        v.push(s.get_char(i));
        assert(s@.take(i + 1) =~= s@.take(i as int).push(s@[i as int]));
        i = i + 1;
    }
    assert(s@.take(n as int) =~= s@);
    v
}

/// The text of some characters.
pub fn text_from(v: &[char]) -> (s: String)
    ensures
        s@ == v@,
{
    let mut s = String::new();
    let mut i: usize = 0;
    while i < v.len()
        invariant
            i <= v@.len(),
            s@ == v@.take(i as int),
        decreases v@.len() - i,
    {
        s.push(v[i]);
        assert(v@.take(i + 1) =~= v@.take(i as int).push(v@[i as int]));
        i = i + 1;
    }
    assert(v@.take(v@.len() as int) =~= v@);
    s
}

/// Whether two texts are the same.
pub fn same_text(a: &str, b: &str) -> (r: bool)
    ensures
        r == (a@ == b@),
{
    a.to_owned() == b.to_owned()
}

/// The character of the digit `d`.
pub open spec fn digit(d: nat) -> char {
    if d == 0 {
        '0'
    } else if d == 1 {
        '1'
    } else if d == 2 {
        '2'
    } else if d == 3 {
        '3'
    } else if d == 4 {
        '4'
    } else if d == 5 {
        '5'
    } else if d == 6 {
        '6'
    } else if d == 7 {
        '7'
    } else if d == 8 {
        '8'
    } else {
        '9'
    }
}

/// `n` in decimal, without leading zeros.
pub open spec fn decimal(n: nat) -> Seq<char>
    decreases n,
{
    if n < 10 {
        seq![digit(n)]
    } else {
        decimal(n / 10).push(digit(n % 10))
    }
}

/// Appends `n` in decimal.
pub fn push_decimal(out: &mut String, n: u64)
    ensures
        final(out)@ == old(out)@ + decimal(n as nat),
    decreases n,
{
    if n >= 10 {
        push_decimal(out, n / 10);
    }
    let c = match n % 10 {
        0 => '0',
        1 => '1',
        2 => '2',
        3 => '3',
        4 => '4',
        5 => '5',
        6 => '6',
        7 => '7',
        8 => '8',
        _ => '9',
    };
    out.push(c);
}

/// Two different numbers have different decimal forms.
pub proof fn decimal_is_injective(a: nat, b: nat)
    requires
        decimal(a) == decimal(b),
    ensures
        a == b,
    decreases a,
{
    if a < 10 && b < 10 {
        assert(decimal(a)[0] == digit(a));
        assert(decimal(b)[0] == digit(b));
    } else if a < 10 {
        lemma_decimal_not_empty(b / 10);
        assert(decimal(b).len() == decimal(b / 10).len() + 1);
    } else if b < 10 {
        lemma_decimal_not_empty(a / 10);
        assert(decimal(a).len() == decimal(a / 10).len() + 1);
    } else {
        assert(decimal(a).last() == digit(a % 10));
        assert(decimal(b).last() == digit(b % 10));
        assert(decimal(a).drop_last() =~= decimal(a / 10));
        assert(decimal(b).drop_last() =~= decimal(b / 10));
        decimal_is_injective(a / 10, b / 10);
        assert(a % 10 == b % 10);
    }
}

proof fn lemma_decimal_not_empty(n: nat)
    ensures
        decimal(n).len() >= 1,
    decreases n,
{
    if n >= 10 {
        lemma_decimal_not_empty(n / 10);
    }
}

/// A decimal form holds digits only.
pub proof fn lemma_decimal_has_no_slash(n: nat)
    ensures
        !decimal(n).contains('/'),
    decreases n,
{
    if n >= 10 {
        lemma_decimal_has_no_slash(n / 10);
    }
    assert forall|i: int| 0 <= i < decimal(n).len() implies decimal(n)[i] != '/' by {
        if n >= 10 && i < decimal(n / 10).len() {
            assert(decimal(n / 10).contains(decimal(n / 10)[i]));
        }
    }
}

/// A decimal form is written digit by digit: a number below ten is its digit, and the digits of
/// `10 n + d` are those of `n` and that of `d` behind them.
pub proof fn decimals_are_written_digit_by_digit(n: nat, d: nat)
    requires
        d < 10,
    ensures
        decimal(d).len() == 1,
        decimal(d)[0] as u32 == '0' as u32 + d,
        n > 0 ==> decimal(10 * n + d) == decimal(n) + decimal(d),
{
    if n > 0 {
        assert((10 * n + d) / 10 == n && (10 * n + d) % 10 == d);
        assert(decimal(n).push(digit(d)) =~= decimal(n) + decimal(d));
    }
}

} // verus!
