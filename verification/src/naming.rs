//! Decimal rendering of vertex identifiers and the `a_b` pair names built
//! from them, together with the injectivity facts that make such names safe
//! to use as edge identifiers.

use vstd::prelude::*;

verus! {

/// The decimal digit character for a value below ten.
pub open spec fn digit_char(d: nat) -> char {
    if d == 0 {
        '0'
    } else if d == 1 {
        '1'
    } else if d == 2 {
        '2'
    } else if d == 3 {
        '3'
    } else if d == 4 {
        '4'
    } else if d == 5 {
        '5'
    } else if d == 6 {
        '6'
    } else if d == 7 {
        '7'
    } else if d == 8 {
        '8'
    } else {
        '9'
    }
}

/// Whether a character is a decimal digit.
pub open spec fn is_digit(c: char) -> bool {
    c == '0' || c == '1' || c == '2' || c == '3' || c == '4' || c == '5' || c == '6' || c == '7'
        || c == '8' || c == '9'
}

/// The base-10 rendering of a natural number, most significant digit first.
pub open spec fn dec_digits(n: nat) -> Seq<char>
    decreases n,
{
    if n < 10 {
        seq![digit_char(n)]
    } else {
        dec_digits(n / 10) + seq![digit_char(n % 10)]
    }
}

/// The name of an ordered pair: the two decimal renderings joined by an
/// underscore, as in `1_2`.
pub open spec fn pair_name(a: nat, b: nat) -> Seq<char> {
    dec_digits(a) + seq!['_'] + dec_digits(b)
}

/// A decimal rendering is never empty, and grows one digit per division by ten.
pub proof fn lemma_dec_digits_len(n: nat)
    ensures
        dec_digits(n).len() >= 1,
        n >= 10 ==> dec_digits(n).len() >= 2,
    decreases n,
{
    if n >= 10 {
        lemma_dec_digits_len(n / 10);
    }
}

/// Every character of a decimal rendering is a digit.
pub proof fn lemma_dec_digits_are_digits(n: nat)
    ensures
        forall|i: int| 0 <= i < dec_digits(n).len() ==> is_digit(#[trigger] dec_digits(n)[i]),
    decreases n,
{
    if n >= 10 {
        lemma_dec_digits_are_digits(n / 10);
        assert forall|i: int| 0 <= i < dec_digits(n).len() implies is_digit(
            dec_digits(n)[i],
        ) by {
            if i < dec_digits(n / 10).len() {
                assert(dec_digits(n)[i] == dec_digits(n / 10)[i]);
            } else {
                assert(dec_digits(n)[i] == digit_char(n % 10));
            }
        }
    }
}

/// Two equal decimal renderings come from the same number.
pub proof fn lemma_dec_digits_injective(m: nat, n: nat)
    requires
        dec_digits(m) == dec_digits(n),
    ensures
        m == n,
    decreases m,
{
    lemma_dec_digits_len(m);
    lemma_dec_digits_len(n);
    if m < 10 && n < 10 {
        assert(dec_digits(m)[0] == dec_digits(n)[0]);
        assert(seq![digit_char(m)][0] == digit_char(m));
        assert(seq![digit_char(n)][0] == digit_char(n));
        assert(digit_char(m) == digit_char(n));
        assert(m == n);
    } else if m < 10 {
        assert(dec_digits(m).len() == 1);
        assert(false);
    } else if n < 10 {
        assert(dec_digits(n).len() == 1);
        assert(false);
    } else {
        let lm = dec_digits(m / 10).len() as int;
        let ln = dec_digits(n / 10).len() as int;
        assert(dec_digits(m).len() == lm + 1);
        assert(dec_digits(n).len() == ln + 1);
        assert(dec_digits(m)[lm] == digit_char(m % 10));
        assert(dec_digits(n)[ln] == digit_char(n % 10));
        assert(m % 10 == n % 10);
        assert(dec_digits(m / 10) =~= dec_digits(n / 10)) by {
            assert forall|i: int| 0 <= i < lm implies #[trigger] dec_digits(m / 10)[i]
                == dec_digits(n / 10)[i] by {
                assert(dec_digits(m)[i] == dec_digits(m / 10)[i]);
                assert(dec_digits(n)[i] == dec_digits(n / 10)[i]);
            }
        }
        lemma_dec_digits_injective(m / 10, n / 10);
        assert(m / 10 == n / 10);
        assert(m == 10 * (m / 10) + m % 10);
        assert(n == 10 * (n / 10) + n % 10);
        assert(m == n);
    }
}

/// Two equal pair names come from the same ordered pair: the underscore can
/// only stand where the two renderings are joined, so the name splits one way.
pub proof fn lemma_pair_name_injective(a1: nat, b1: nat, a2: nat, b2: nat)
    requires
        pair_name(a1, b1) == pair_name(a2, b2),
    ensures
        a1 == a2,
        b1 == b2,
{
    let s = pair_name(a1, b1);
    let l1 = dec_digits(a1).len() as int;
    let l2 = dec_digits(a2).len() as int;
    lemma_dec_digits_are_digits(a1);
    lemma_dec_digits_are_digits(a2);
    lemma_dec_digits_len(a1);
    lemma_dec_digits_len(a2);
    lemma_dec_digits_len(b1);
    lemma_dec_digits_len(b2);
    assert(s[l1] == '_');
    assert(pair_name(a2, b2)[l2] == '_');
    if l1 < l2 {
        assert(s[l1] == dec_digits(a2)[l1]);
        assert(is_digit(dec_digits(a2)[l1]));
        assert(false);
    }
    if l2 < l1 {
        assert(s[l2] == dec_digits(a1)[l2]);
        assert(is_digit(dec_digits(a1)[l2]));
        assert(false);
    }
    assert(dec_digits(a1) =~= dec_digits(a2)) by {
        assert forall|i: int| 0 <= i < l1 implies dec_digits(a1)[i] == dec_digits(a2)[i] by {
            assert(s[i] == dec_digits(a1)[i]);
            assert(s[i] == dec_digits(a2)[i]);
        }
    }
    lemma_dec_digits_injective(a1, a2);
    assert(s.len() == l1 + 1 + dec_digits(b1).len());
    assert(pair_name(a2, b2).len() == l2 + 1 + dec_digits(b2).len());
    assert(dec_digits(b1).len() == dec_digits(b2).len());
    assert(dec_digits(b1) =~= dec_digits(b2)) by {
        assert forall|i: int| 0 <= i < dec_digits(b1).len() implies dec_digits(b1)[i]
            == dec_digits(b2)[i] by {
            assert(s[l1 + 1 + i] == dec_digits(b1)[i]);
            assert(s[l1 + 1 + i] == dec_digits(b2)[i]);
        }
    }
    lemma_dec_digits_injective(b1, b2);
}

/// Appends the single digit character for `d` to `s`.
fn append_digit(s: &mut String, d: u32)
    requires
        d < 10,
    ensures
        final (s)@ == old(s)@ + seq![digit_char(d as nat)],
{
    let t: &str = if d == 0 {
        "0"
    } else if d == 1 {
        "1"
    } else if d == 2 {
        "2"
    } else if d == 3 {
        "3"
    } else if d == 4 {
        "4"
    } else if d == 5 {
        "5"
    } else if d == 6 {
        "6"
    } else if d == 7 {
        "7"
    } else if d == 8 {
        "8"
    } else {
        "9"
    };
    proof {
        reveal_strlit("0");
        reveal_strlit("1");
        reveal_strlit("2");
        reveal_strlit("3");
        reveal_strlit("4");
        reveal_strlit("5");
        reveal_strlit("6");
        reveal_strlit("7");
        reveal_strlit("8");
        reveal_strlit("9");
        assert(t@ =~= seq![digit_char(d as nat)]);
    }
    s.append(t);
}

/// Appends the decimal rendering of `n` to `s`.
fn append_dec(s: &mut String, n: u32)
    ensures
        final (s)@ == old(s)@ + dec_digits(n as nat),
    decreases n,
{
    if n >= 10 {
        append_dec(s, n / 10);
    }
    append_digit(s, n % 10);
    proof {
        assert(s@ =~= old(s)@ + dec_digits(n as nat));
    }
}

/// Builds the string `a_b` joining the decimal renderings of `a` and `b`
/// with an underscore.
pub fn pair_name_string(a: u32, b: u32) -> (s: String)
    ensures
        s@ == pair_name(a as nat, b as nat),
{
    let mut s = String::new();
    append_dec(&mut s, a);
    let underscore: &str = "_";
    proof {
        reveal_strlit("_");
        assert(underscore@ =~= seq!['_']);
    }
    s.append(underscore);
    append_dec(&mut s, b);
    proof {
        assert(s@ =~= pair_name(a as nat, b as nat));
    }
    s
}

} // verus!
