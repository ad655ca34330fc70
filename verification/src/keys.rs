//! The names under which a list keeps its items: the decimal numerals.

use vstd::prelude::*;

verus! {

/// The character of one decimal digit.
pub open spec fn digit(d: nat) -> char {
    if d == 0 {
        '0'
    } else if d == 1 {
        '1'
    } else if d == 2 {
        '2'
    } else if d == 3 {
        '3'
    } else if d == 4 {
        '4'
    } else if d == 5 {
        '5'
    } else if d == 6 {
        '6'
    } else if d == 7 {
        '7'
    } else if d == 8 {
        '8'
    } else {
        '9'
    }
}

/// The decimal numeral of `n`, without leading zeros: the key of item `n`.
pub open spec fn index_key(n: nat) -> Seq<char>
    decreases n,
{
    if n < 10 {
        seq![digit(n)]
    } else {
        index_key(n / 10).push(digit(n % 10))
    }
}

/// The key under which a list keeps its length.
pub open spec fn length_key() -> Seq<char> {
    "length"@
}

/// Every numeral has a digit, and ends in the digit of the units.
pub proof fn lemma_index_key_shape(n: nat)
    ensures
        index_key(n).len() >= 1,
        n >= 10 ==> index_key(n).len() >= 2,
        index_key(n).last() == digit(n % 10),
    decreases n,
{
    if n >= 10 {
        lemma_index_key_shape(n / 10);
    }
}

/// Different numbers have different numerals.
pub proof fn lemma_index_key_injective(a: nat, b: nat)
    requires
        index_key(a) == index_key(b),
    ensures
        a == b,
    decreases a,
{
    lemma_index_key_shape(a);
    lemma_index_key_shape(b);
    if a < 10 && b < 10 {
        assert(index_key(a)[0] == index_key(b)[0]);
    } else if a >= 10 && b >= 10 {
        let x = index_key(a / 10);
        let y = index_key(b / 10);
        assert(x.push(digit(a % 10)).drop_last() =~= x);
        assert(y.push(digit(b % 10)).drop_last() =~= y);
        assert(x.push(digit(a % 10)).last() == y.push(digit(b % 10)).last());
        lemma_index_key_injective(a / 10, b / 10);
    }
}

/// No numeral is the key of the length.
pub proof fn lemma_index_key_not_length(n: nat)
    ensures
        index_key(n) != length_key(),
{
    reveal_strlit("length");
    lemma_index_key_shape(n);
    assert(length_key().last() == 'h');
}

fn digit_str(d: u16) -> (r: &'static str)
    requires
        d < 10,
    ensures
        r@ == seq![digit(d as nat)],
{
    proof {
        reveal_strlit("0");
        reveal_strlit("1");
        reveal_strlit("2");
        reveal_strlit("3");
        reveal_strlit("4");
        reveal_strlit("5");
        reveal_strlit("6");
        reveal_strlit("7");
        reveal_strlit("8");
        reveal_strlit("9");
    }
    let r = if d == 0 {
        "0"
    } else if d == 1 {
        "1"
    } else if d == 2 {
        "2"
    } else if d == 3 {
        "3"
    } else if d == 4 {
        "4"
    } else if d == 5 {
        "5"
    } else if d == 6 {
        "6"
    } else if d == 7 {
        "7"
    } else if d == 8 {
        "8"
    } else {
        "9"
    };
    assert(r@ =~= seq![digit(d as nat)]);
    r
}

/// The key of item `n` as a string.
pub fn index_name(n: u16) -> (r: String)
    ensures
        r@ == index_key(n as nat),
    decreases n,
{
    if n < 10 {
        digit_str(n).to_string()
    } else {
        let mut s = index_name(n / 10);
        s.append(digit_str(n % 10));
        assert(s@ =~= index_key((n / 10) as nat).push(digit((n % 10) as nat)));
        s
    }
}

/// The decimal numeral of `n`.
pub fn decimal(n: usize) -> (r: String)
    ensures
        r@ == index_key(n as nat),
    decreases n,
{
    if n < 10 {
        digit_str(n as u16).to_string()
    } else {
        let mut s = decimal(n / 10);
        s.append(digit_str((n % 10) as u16));
        assert(s@ =~= index_key((n / 10) as nat).push(digit((n % 10) as nat)));
        s
    }
}

} // verus!
