//! Record ids as text: the decimal form under which an id is written as a key
//! of the persisted document, and the way back.

use vstd::prelude::*;
use vstd::string::StringExecFns;

verus! {

/// The character of a digit below ten.
pub open spec fn digit_char(d: nat) -> char
    recommends
        d < 10,
{
    if d == 0 {
        '0'
    } else if d == 1 {
        '1'
    } else if d == 2 {
        '2'
    } else if d == 3 {
        '3'
    } else if d == 4 {
        '4'
    } else if d == 5 {
        '5'
    } else if d == 6 {
        '6'
    } else if d == 7 {
        '7'
    } else if d == 8 {
        '8'
    } else {
        '9'
    }
}

/// Whether a character is one of `0` to `9`.
pub open spec fn is_digit(c: char) -> bool {
    exists|d: nat| d < 10 && digit_char(d) == c
}

/// The digit that a character stands for; zero for any other character.
pub open spec fn digit_of(c: char) -> nat {
    if c == '1' {
        1
    } else if c == '2' {
        2
    } else if c == '3' {
        3
    } else if c == '4' {
        4
    } else if c == '5' {
        5
    } else if c == '6' {
        6
    } else if c == '7' {
        7
    } else if c == '8' {
        8
    } else if c == '9' {
        9
    } else {
        0
    }
}

/// The decimal form of a number: its digits, most significant first, with no
/// sign and no leading zero.
pub open spec fn decimal(n: nat) -> Seq<char>
    decreases n,
{
    if n < 10 {
        seq![digit_char(n)]
    } else {
        decimal(n / 10).push(digit_char(n % 10))
    }
}

/// The id whose decimal form is `text`, if there is one.
pub open spec fn decimal_value(text: Seq<char>) -> Option<u32> {
    if exists|n: u32| decimal(n as nat) == text {
        Some(choose|n: u32| decimal(n as nat) == text)
    } else {
        None
    }
}

/// The number that a run of digits spells, read most significant first.
pub open spec fn digits_number(s: Seq<char>) -> nat
    decreases s.len(),
{
    if s.len() == 0 {
        0
    } else {
        digits_number(s.drop_last()) * 10 + digit_of(s.last())
    }
}

/// Every character of `s` is a digit.
pub open spec fn all_digits(s: Seq<char>) -> bool {
    forall|i: int| 0 <= i < s.len() ==> is_digit(#[trigger] s[i])
}

/// A digit's character stands for that digit.
pub proof fn lemma_digit_round_trip(d: nat)
    requires
        d < 10,
    ensures
        is_digit(digit_char(d)),
        digit_of(digit_char(d)) == d,
{
}

/// A digit character is the character of the digit it stands for.
pub proof fn lemma_digit_of_digit(c: char)
    requires
        is_digit(c),
    ensures
        digit_of(c) < 10,
        digit_char(digit_of(c)) == c,
{
    let d = choose|d: nat| d < 10 && digit_char(d) == c;
    lemma_digit_round_trip(d);
}

/// The shape of a decimal form: digits only, at least one, and no leading
/// zero unless it is the single digit `0`; and it spells the number.
pub proof fn lemma_decimal_shape(n: nat)
    ensures
        decimal(n).len() >= 1,
        all_digits(decimal(n)),
        decimal(n).len() > 1 ==> decimal(n)[0] != '0',
        decimal(n).len() == 1 <==> n < 10,
        digits_number(decimal(n)) == n,
    decreases n,
{
    if n < 10 {
        lemma_digit_round_trip(n);
        let s = decimal(n);
        assert(s.drop_last() =~= Seq::<char>::empty());
        assert(digits_number(s.drop_last()) == 0);
    } else {
        lemma_decimal_shape(n / 10);
        lemma_digit_round_trip(n % 10);
        let head = decimal(n / 10);
        let s = decimal(n);
        assert(s.drop_last() =~= head);
        assert(s.last() == digit_char(n % 10));
        assert(s[0] == head[0]);
        if head.len() == 1 {
            assert(n / 10 < 10);
            assert(n / 10 >= 1);
            assert(head[0] == digit_char(n / 10));
        }
        assert forall|i: int| 0 <= i < s.len() implies is_digit(#[trigger] s[i]) by {
            if i < head.len() {
                assert(s[i] == head[i]);
            }
        }
    }
}

/// A run of digits without a leading zero is the decimal form of the number
/// it spells.
pub proof fn lemma_digits_are_decimal(s: Seq<char>)
    requires
        s.len() >= 1,
        all_digits(s),
        s.len() > 1 ==> s[0] != '0',
    ensures
        decimal(digits_number(s)) == s,
        s.len() > 1 ==> digits_number(s) >= 10,
    decreases s.len(),
{
    lemma_digit_of_digit(s.last());
    if s.len() == 1 {
        assert(s.drop_last() =~= Seq::<char>::empty());
        assert(digits_number(s.drop_last()) == 0);
        assert(digits_number(s) == digit_of(s.last()));
        assert(decimal(digits_number(s)) =~= s);
    } else {
        let head = s.drop_last();
        assert(head[0] == s[0]);
        assert forall|i: int| 0 <= i < head.len() implies is_digit(#[trigger] head[i]) by {
            assert(head[i] == s[i]);
        }
        lemma_digits_are_decimal(head);
        lemma_digit_of_digit(head.last());
        let h = digits_number(head);
        if head.len() == 1 {
            assert(head.drop_last() =~= Seq::<char>::empty());
            assert(digits_number(head.drop_last()) == 0);
            assert(h == digit_of(head[0]));
            assert(h != 0) by {
                if h == 0 {
                    assert(digit_char(0) == head[0]);
                }
            }
        }
        assert(h >= 1);
        let n = h * 10 + digit_of(s.last());
        assert(n == digits_number(s));
        assert(n / 10 == h && n % 10 == digit_of(s.last()));
        assert(decimal(n) =~= decimal(h).push(digit_char(n % 10)));
        assert(decimal(n) =~= s);
    }
}

/// Two numbers with the same decimal form are the same number.
pub proof fn lemma_decimal_injective(a: nat, b: nat)
    requires
        decimal(a) == decimal(b),
    ensures
        a == b,
{
    lemma_decimal_shape(a);
    lemma_decimal_shape(b);
}

/// A run of digits spells at least what any of its prefixes spells.
pub proof fn lemma_prefix_spells_less(s: Seq<char>, k: int)
    requires
        0 <= k <= s.len(),
    ensures
        digits_number(s.take(k)) <= digits_number(s),
    decreases s.len() - k,
{
    if k == s.len() {
        assert(s.take(k) =~= s);
    } else {
        lemma_prefix_spells_less(s.drop_last(), k);
        assert(s.drop_last().take(k) =~= s.take(k));
    }
}

/// The text that `decimal_value` maps to an id is the decimal form of that id.
pub proof fn lemma_decimal_value(text: Seq<char>, n: u32)
    ensures
        decimal_value(text) == Some(n) <==> decimal(n as nat) == text,
{
    if decimal(n as nat) == text {
        let m = choose|m: u32| decimal(m as nat) == text;
        lemma_decimal_injective(m as nat, n as nat);
    }
}

/// The one-character text of a digit.
fn digit_text(d: u32) -> (r: &'static str)
    requires
        d < 10,
    ensures
        r@ == seq![digit_char(d as nat)],
{
    proof {
        reveal_strlit("0");
        reveal_strlit("1");
        reveal_strlit("2");
        reveal_strlit("3");
        reveal_strlit("4");
        reveal_strlit("5");
        reveal_strlit("6");
        reveal_strlit("7");
        reveal_strlit("8");
        reveal_strlit("9");
    }
    let r = if d == 0 {
        "0"
    } else if d == 1 {
        "1"
    } else if d == 2 {
        "2"
    } else if d == 3 {
        "3"
    } else if d == 4 {
        "4"
    } else if d == 5 {
        "5"
    } else if d == 6 {
        "6"
    } else if d == 7 {
        "7"
    } else if d == 8 {
        "8"
    } else {
        "9"
    };
    assert(r@ =~= seq![digit_char(d as nat)]);
    r
}

/// Appends the decimal form of `n` to `out`.
pub fn push_decimal(out: &mut String, n: u32)
    ensures
        final(out)@ == old(out)@ + decimal(n as nat),
    decreases n,
{
    if n >= 10 {
        push_decimal(out, n / 10);
    }
    out.append(digit_text(n % 10));
    proof {
        let d = seq![digit_char((n % 10) as nat)];
        if n >= 10 {
            assert(decimal(n as nat) =~= decimal((n / 10) as nat) + d);
            assert(out@ =~= old(out)@ + decimal(n as nat));
        } else {
            assert(decimal(n as nat) =~= d);
        }
    }
}

/// The decimal form of an id.
pub fn to_decimal(n: u32) -> (r: String)
    ensures
        r@ == decimal(n as nat),
{
    let mut out = String::new();
    push_decimal(&mut out, n);
    assert(out@ =~= decimal(n as nat));
    out
}

/// The digit that a character stands for, if it is one.
fn digit_from(c: char) -> (r: Option<u64>)
    ensures
        r is Some <==> is_digit(c),
        r matches Some(d) ==> d == digit_of(c) && d < 10,
{
    let r: Option<u64> = if c == '0' {
        Some(0)
    } else if c == '1' {
        Some(1)
    } else if c == '2' {
        Some(2)
    } else if c == '3' {
        Some(3)
    } else if c == '4' {
        Some(4)
    } else if c == '5' {
        Some(5)
    } else if c == '6' {
        Some(6)
    } else if c == '7' {
        Some(7)
    } else if c == '8' {
        Some(8)
    } else if c == '9' {
        Some(9)
    } else {
        None
    };
    proof {
        if r is Some {
            assert(digit_char(digit_of(c)) == c);
        }
    }
    r
}

/// Reads an id from its decimal form. Any other text, such as one with a
/// sign, a space, a leading zero or a number above `u32::MAX`, gives `None`.
pub fn parse_decimal(text: &str) -> (r: Option<u32>)
    ensures
        r == decimal_value(text@),
{
    let mut acc: u64 = 0;
    let mut seen: bool = false;
    let mut zero_first: bool = false;
    let ghost s = text@;
    for c in it: text.chars()
        invariant
            it.seq() == s,
            s == text@,
            all_digits(s.take(it.index())),
            acc == digits_number(s.take(it.index())),
            acc <= u32::MAX,
            seen == (it.index() > 0),
            zero_first == (it.index() > 0 && s[0] == '0'),
            it.index() > 1 ==> s[0] != '0',
    {
        let ghost i = it.index();
        let ghost p = s.take(i);
        let ghost q = s.take(i + 1);
        proof {
            assert(q.drop_last() =~= p);
            assert(q.last() == c);
        }
        let digit = digit_from(c);
        if digit.is_none() || zero_first {
            proof {
                assert forall|n: u32| decimal(n as nat) != s by {
                    lemma_decimal_shape(n as nat);
                    if decimal(n as nat) == s {
                        assert(is_digit(s[i]));
                    }
                }
            }
            return None;
        }
        let d: u64 = digit.unwrap();
        let next: u64 = acc * 10 + d;
        proof {
            assert(next == digits_number(q));
        }
        if next > 0xffff_ffff {
            proof {
                assert forall|n: u32| decimal(n as nat) != s by {
                    lemma_decimal_shape(n as nat);
                    lemma_prefix_spells_less(s, i + 1);
                }
            }
            return None;
        }
        proof {
            assert forall|j: int| 0 <= j < q.len() implies is_digit(#[trigger] q[j]) by {
                if j < i {
                    assert(q[j] == p[j]);
                }
            }
        }
        if !seen {
            zero_first = d == 0;
            proof {
                assert(d == 0 <==> c == '0') by {
                    lemma_digit_of_digit(c);
                }
            }
        }
        seen = true;
        acc = next;
    }
    proof {
        assert(s.take(s.len() as int) =~= s);
    }
    if !seen {
        proof {
            assert forall|n: u32| decimal(n as nat) != s by {
                lemma_decimal_shape(n as nat);
            }
        }
        return None;
    }
    let n: u32 = acc as u32;
    proof {
        lemma_digits_are_decimal(s);
        lemma_decimal_value(s, n);
    }
    Some(n)
}

} // verus!
