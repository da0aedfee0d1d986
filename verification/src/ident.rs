//! Identifier strings: decimal rendering of engine counters, with the
//! injectivity needed to keep issued ids distinct.

use vstd::prelude::*;

verus! {

/// The character for one decimal digit.
pub open spec fn digit_char(d: int) -> char {
    if d == 0 {
        '0'
    } else if d == 1 {
        '1'
    } else if d == 2 {
        '2'
    } else if d == 3 {
        '3'
    } else if d == 4 {
        '4'
    } else if d == 5 {
        '5'
    } else if d == 6 {
        '6'
    } else if d == 7 {
        '7'
    } else if d == 8 {
        '8'
    } else {
        '9'
    }
}

/// The decimal rendering of a number, most significant digit first.
pub open spec fn dec_chars(n: nat) -> Seq<char>
    decreases n,
{
    if n < 10 {
        seq![digit_char(n as int)]
    } else {
        dec_chars(n / 10) + seq![digit_char((n % 10) as int)]
    }
}

pub proof fn lemma_dec_chars_len(n: nat)
    ensures
        dec_chars(n).len() >= 1,
        n >= 10 ==> dec_chars(n).len() >= 2,
    decreases n,
{
    if n >= 10 {
        lemma_dec_chars_len(n / 10);
    }
}

/// Distinct numbers render to distinct digit strings.
pub proof fn lemma_dec_chars_injective(a: nat, b: nat)
    requires
        dec_chars(a) == dec_chars(b),
    ensures
        a == b,
    decreases a,
{
    lemma_dec_chars_len(a);
    lemma_dec_chars_len(b);
    if a < 10 && b < 10 {
        assert(dec_chars(a)[0] == digit_char(a as int));
        assert(dec_chars(b)[0] == digit_char(b as int));
    } else if a < 10 {
        assert(dec_chars(b).len() >= 2);
        assert(false);
    } else if b < 10 {
        assert(dec_chars(a).len() >= 2);
        assert(false);
    } else {
        let da = dec_chars(a / 10);
        let db = dec_chars(b / 10);
        let la = da.len() as int;
        let lb = db.len() as int;
        assert(dec_chars(a).len() == la + 1);
        assert(dec_chars(b).len() == lb + 1);
        assert(la == lb);
        assert(da =~= db) by {
            assert forall|i: int| 0 <= i < la implies da[i] == db[i] by {
                assert(da[i] == dec_chars(a)[i]);
                assert(db[i] == dec_chars(b)[i]);
            }
        }
        lemma_dec_chars_injective(a / 10, b / 10);
        assert(dec_chars(a)[la] == digit_char((a % 10) as int));
        assert(dec_chars(b)[la] == digit_char((b % 10) as int));
        assert(a % 10 == b % 10);
    }
}

/// Equal strings with a common prefix carry equal numbers.
pub proof fn lemma_prefixed_dec_injective(p: Seq<char>, a: nat, b: nat)
    requires
        p + dec_chars(a) == p + dec_chars(b),
    ensures
        a == b,
{
    let sa = p + dec_chars(a);
    let sb = p + dec_chars(b);
    assert(sa.len() == p.len() + dec_chars(a).len());
    assert(sb.len() == p.len() + dec_chars(b).len());
    assert(dec_chars(a).len() == dec_chars(b).len());
    assert(dec_chars(a) =~= dec_chars(b)) by {
        assert forall|i: int| 0 <= i < dec_chars(a).len() implies dec_chars(a)[i] == dec_chars(
            b,
        )[i] by {
            assert(sa[p.len() + i] == dec_chars(a)[i]);
            assert(sb[p.len() + i] == dec_chars(b)[i]);
        }
    }
    lemma_dec_chars_injective(a, b);
}

/// One decimal digit as a string slice.
fn digit_str(d: u64) -> (r: &'static str)
    requires
        d < 10,
    ensures
        r@ == seq![digit_char(d as int)],
{
    proof {
        reveal_strlit("0");
        reveal_strlit("1");
        reveal_strlit("2");
        reveal_strlit("3");
        reveal_strlit("4");
        reveal_strlit("5");
        reveal_strlit("6");
        reveal_strlit("7");
        reveal_strlit("8");
        reveal_strlit("9");
    }
    if d == 0 {
        "0"
    } else if d == 1 {
        "1"
    } else if d == 2 {
        "2"
    } else if d == 3 {
        "3"
    } else if d == 4 {
        "4"
    } else if d == 5 {
        "5"
    } else if d == 6 {
        "6"
    } else if d == 7 {
        "7"
    } else if d == 8 {
        "8"
    } else {
        "9"
    }
}

/// The decimal rendering of `n`.
pub fn u64_to_dec(n: u64) -> (r: String)
    ensures
        r@ == dec_chars(n as nat),
    decreases n,
{
    if n < 10 {
        digit_str(n).to_owned()
    } else {
        let mut s = u64_to_dec(n / 10);
        s.append(digit_str(n % 10));
        s
    }
}

} // verus!
