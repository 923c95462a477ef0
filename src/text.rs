//! Rendering of the plain values that device descriptions show.
use vstd::prelude::*;

verus! {

/// The character of a decimal digit.
pub open spec fn digit_char(d: nat) -> char {
    if d == 0 {
        '0'
    } else if d == 1 {
        '1'
    } else if d == 2 {
        '2'
    } else if d == 3 {
        '3'
    } else if d == 4 {
        '4'
    } else if d == 5 {
        '5'
    } else if d == 6 {
        '6'
    } else if d == 7 {
        '7'
    } else if d == 8 {
        '8'
    } else {
        '9'
    }
}

/// The decimal digits of `n`, without leading zeros.
pub open spec fn nat_text(n: nat) -> Seq<char>
    decreases n,
{
    if n < 10 {
        seq![digit_char(n)]
    } else {
        nat_text(n / 10) + seq![digit_char(n % 10)]
    }
}

/// A quantity held in tenths, written as a decimal number: a sign when it is
/// negative, the whole part, and one decimal place when it is not zero
/// (`-15` is `-1.5`, `230` is `23`).
pub open spec fn tenths_text(v: int) -> Seq<char> {
    let m: nat = if v < 0 { (-v) as nat } else { v as nat };
    let sign: Seq<char> = if v < 0 { seq!['-'] } else { Seq::empty() };
    let frac: Seq<char> = if m % 10 == 0 { Seq::empty() } else { seq!['.', digit_char(m % 10)] };
    sign + nat_text(m / 10) + frac
}

/// `true` or `false`.
pub open spec fn bool_text(b: bool) -> Seq<char> {
    if b {
        seq!['t', 'r', 'u', 'e']
    } else {
        seq!['f', 'a', 'l', 's', 'e']
    }
}

/// `needle` occurs in `hay` as a contiguous run.
pub open spec fn contains(hay: Seq<char>, needle: Seq<char>) -> bool {
    exists|k: int|
        0 <= k && k + needle.len() <= hay.len() && #[trigger] hay.subrange(k, k + needle.len())
            == needle
}

/// Every text occurs in itself.
pub proof fn lemma_contains_self(a: Seq<char>)
    ensures
        contains(a, a),
{
    let k: int = 0;
    assert(a.subrange(k, k + a.len()) =~= a);
}

/// What occurs in `a` occurs in `a` followed by anything.
pub proof fn lemma_contains_prefix(a: Seq<char>, b: Seq<char>, n: Seq<char>)
    requires
        contains(a, n),
    ensures
        contains(a + b, n),
{
    let k = choose|k: int|
        0 <= k && k + n.len() <= a.len() && #[trigger] a.subrange(k, k + n.len()) == n;
    assert((a + b).subrange(k, k + n.len()) =~= a.subrange(k, k + n.len()));
}

/// What occurs in `b` occurs in anything followed by `b`.
pub proof fn lemma_contains_suffix(a: Seq<char>, b: Seq<char>, n: Seq<char>)
    requires
        contains(b, n),
    ensures
        contains(a + b, n),
{
    let k = choose|k: int|
        0 <= k && k + n.len() <= b.len() && #[trigger] b.subrange(k, k + n.len()) == n;
    let m = a.len() + k;
    assert((a + b).subrange(m, m + n.len()) =~= b.subrange(k, k + n.len()));
}

/// What occurs in a part of a text occurs in the text.
pub proof fn lemma_contains_trans(a: Seq<char>, b: Seq<char>, n: Seq<char>)
    requires
        contains(a, b),
        contains(b, n),
    ensures
        contains(a, n),
{
    let k = choose|k: int|
        0 <= k && k + b.len() <= a.len() && #[trigger] a.subrange(k, k + b.len()) == b;
    let l = choose|l: int|
        0 <= l && l + n.len() <= b.len() && #[trigger] b.subrange(l, l + n.len()) == n;
    assert(a.subrange(k + l, k + l + n.len()) =~= b.subrange(l, l + n.len()));
}

fn digit_str(d: u32) -> (r: &'static str)
    requires
        d < 10,
    ensures
        r@ == seq![digit_char(d as nat)],
{
    proof {
        reveal_strlit("0");
        reveal_strlit("1");
        reveal_strlit("2");
        reveal_strlit("3");
        reveal_strlit("4");
        reveal_strlit("5");
        reveal_strlit("6");
        reveal_strlit("7");
        reveal_strlit("8");
        reveal_strlit("9");
    }
    match d {
        0 => "0",
        1 => "1",
        2 => "2",
        3 => "3",
        4 => "4",
        5 => "5",
        6 => "6",
        7 => "7",
        8 => "8",
        _ => "9",
    }
}

/// Appends the decimal digits of `n`.
pub fn push_nat(s: &mut String, n: u32)
    ensures
        final(s)@ == old(s)@ + nat_text(n as nat),
    decreases n,
{
    if n >= 10 {
        push_nat(s, n / 10);
    }
    s.append(digit_str(n % 10));
    assert(s@ =~= old(s)@ + nat_text(n as nat));
}

/// Appends `tenths_text(v)`.
pub fn push_tenths(s: &mut String, v: i32)
    ensures
        final(s)@ == old(s)@ + tenths_text(v as int),
{
    let m: u32 = if v < 0 {
        (-(v as i64)) as u32
    } else {
        v as u32
    };
    if v < 0 {
        s.append("-");
    }
    push_nat(s, m / 10);
    if m % 10 != 0 {
        s.append(".");
        s.append(digit_str(m % 10));
    }
    proof {
        reveal_strlit("-");
        reveal_strlit(".");
    }
    assert(s@ =~= old(s)@ + tenths_text(v as int));
}

/// Appends `bool_text(b)`.
pub fn push_bool(s: &mut String, b: bool)
    ensures
        final(s)@ == old(s)@ + bool_text(b),
{
    proof {
        reveal_strlit("true");
        reveal_strlit("false");
    }
    if b {
        s.append("true");
    } else {
        s.append("false");
    }
    assert(s@ =~= old(s)@ + bool_text(b));
}

} // verus!
