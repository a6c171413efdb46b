use vstd::prelude::*;

verus! {

/// The decimal digit character for a value below ten.
pub open spec fn digit_char(d: nat) -> char {
    if d == 0 {
        '0'
    } else if d == 1 {
        '1'
    } else if d == 2 {
        '2'
    } else if d == 3 {
        '3'
    } else if d == 4 {
        '4'
    } else if d == 5 {
        '5'
    } else if d == 6 {
        '6'
    } else if d == 7 {
        '7'
    } else if d == 8 {
        '8'
    } else {
        '9'
    }
}

/// A decimal digit character.
pub open spec fn is_digit(c: char) -> bool {
    c == '0' || c == '1' || c == '2' || c == '3' || c == '4' || c == '5' || c == '6' || c == '7'
        || c == '8' || c == '9'
}

/// The decimal rendering of a number, most significant digit first, with no
/// leading zeros.
pub open spec fn dec_spec(n: nat) -> Seq<char>
    decreases n,
{
    if n < 10 {
        seq![digit_char(n)]
    } else {
        dec_spec(n / 10) + seq![digit_char(n % 10)]
    }
}

fn digit_of(d: usize) -> (r: char)
    requires
        d < 10,
    ensures
        r == digit_char(d as nat),
{
    if d == 0 {
        '0'
    } else if d == 1 {
        '1'
    } else if d == 2 {
        '2'
    } else if d == 3 {
        '3'
    } else if d == 4 {
        '4'
    } else if d == 5 {
        '5'
    } else if d == 6 {
        '6'
    } else if d == 7 {
        '7'
    } else if d == 8 {
        '8'
    } else {
        '9'
    }
}

/// Renders a number in decimal.
pub fn usize_decimal(n: usize) -> (r: Vec<char>)
    ensures
        r@ == dec_spec(n as nat),
{
    let mut out: Vec<char> = Vec::new();
    if n == 0 {
        out.push('0');
        proof {
            assert(out@ =~= dec_spec(0));
        }
        return out;
    }
    let mut m: usize = n;
    proof {
        assert(dec_spec(n as nat) + Seq::<char>::empty() =~= dec_spec(n as nat));
    }
    while m > 0
        invariant
            m > 0 ==> dec_spec(n as nat) == dec_spec(m as nat) + out@,
            m == 0 ==> dec_spec(n as nat) == out@,
        decreases m,
    {
        let ghost pre = out@;
        let ghost m0 = m as nat;
        let d = m % 10;
        out.insert(0, digit_of(d));
        proof {
            assert(out@ =~= seq![digit_char(d as nat)] + pre);
        }
        m = m / 10;
        proof {
            assert(m as nat == m0 / 10 && d as nat == m0 % 10);
            if m == 0 {
                assert(m0 < 10);
                assert(dec_spec(m0) == seq![digit_char(m0)]);
                assert(seq![digit_char(m0)] + pre =~= out@);
            } else {
                assert(m0 >= 10);
                assert(dec_spec(m0) == dec_spec(m0 / 10) + seq![digit_char(m0 % 10)]);
                assert(dec_spec(m0 / 10) + (seq![digit_char(m0 % 10)] + pre) =~= (dec_spec(m0 / 10)
                    + seq![digit_char(m0 % 10)]) + pre);
            }
        }
    }
    out
}

/// A decimal rendering is never empty.
pub proof fn lemma_dec_len_pos(n: nat)
    ensures
        dec_spec(n).len() >= 1,
{
}

/// Two numbers with the same decimal rendering are equal.
pub proof fn lemma_dec_injective(a: nat, b: nat)
    requires
        dec_spec(a) == dec_spec(b),
    ensures
        a == b,
    decreases a,
{
    if a < 10 && b < 10 {
        assert(dec_spec(a)[0] == digit_char(a));
        assert(dec_spec(b)[0] == digit_char(b));
    } else if a < 10 && b >= 10 {
        lemma_dec_len_pos(b / 10);
        assert(dec_spec(b).len() >= 2);
    } else if a >= 10 && b < 10 {
        lemma_dec_len_pos(a / 10);
        assert(dec_spec(a).len() >= 2);
    } else {
        lemma_dec_len_pos(a / 10);
        lemma_dec_len_pos(b / 10);
        assert(dec_spec(a).last() == digit_char(a % 10));
        assert(dec_spec(b).last() == digit_char(b % 10));
        assert(a % 10 == b % 10);
        assert(dec_spec(a).subrange(0, dec_spec(a).len() - 1) =~= dec_spec(a / 10));
        assert(dec_spec(b).subrange(0, dec_spec(b).len() - 1) =~= dec_spec(b / 10));
        lemma_dec_injective(a / 10, b / 10);
    }
}

/// Every character of a decimal rendering is a digit.
pub proof fn lemma_dec_digits(n: nat)
    ensures
        forall|i: int| 0 <= i < dec_spec(n).len() ==> is_digit(#[trigger] dec_spec(n)[i]),
    decreases n,
{
    if n < 10 {
    } else {
        lemma_dec_digits(n / 10);
        assert forall|i: int| 0 <= i < dec_spec(n).len() implies is_digit(
            #[trigger] dec_spec(n)[i],
        ) by {
            if i < dec_spec(n / 10).len() {
                assert(dec_spec(n)[i] == dec_spec(n / 10)[i]);
            } else {
                assert(dec_spec(n)[i] == digit_char(n % 10));
            }
        }
    }
}

} // verus!
