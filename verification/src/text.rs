//! Decimal rendering of integers and substring search over character
//! sequences, the two text primitives the protocol messages are built from.

use vstd::prelude::*;
use vstd::string::StrSliceExecFns;
use vstd::string::StringExecFns;

verus! {

/// The character for one decimal digit.
pub open spec fn digit_char(d: nat) -> char {
    if d == 0 {
        '0'
    } else if d == 1 {
        '1'
    } else if d == 2 {
        '2'
    } else if d == 3 {
        '3'
    } else if d == 4 {
        '4'
    } else if d == 5 {
        '5'
    } else if d == 6 {
        '6'
    } else if d == 7 {
        '7'
    } else if d == 8 {
        '8'
    } else {
        '9'
    }
}

pub open spec fn is_digit_char(c: char) -> bool {
    c == '0' || c == '1' || c == '2' || c == '3' || c == '4' || c == '5' || c == '6' || c == '7'
        || c == '8' || c == '9'
}

/// The usual decimal notation of `n`: no sign, no leading zero except for
/// `n == 0` itself.
pub open spec fn dec_digits(n: nat) -> Seq<char>
    decreases n,
{
    if n < 10 {
        seq![digit_char(n)]
    } else {
        dec_digits(n / 10).push(digit_char(n % 10))
    }
}

/// Decimal notation of a signed value: a leading `-` before the digits of the
/// magnitude when the value is negative.
pub open spec fn dec_signed(n: int) -> Seq<char> {
    if n < 0 {
        seq!['-'] + dec_digits((-n) as nat)
    } else {
        dec_digits(n as nat)
    }
}

/// Every character of a decimal rendering is a digit.
pub proof fn lemma_dec_digits_are_digits(n: nat)
    ensures
        forall|k: int| 0 <= k < dec_digits(n).len() ==> is_digit_char(#[trigger] dec_digits(n)[k]),
    decreases n,
{
    if n < 10 {
        assert(dec_digits(n) =~= seq![digit_char(n)]);
        assert(is_digit_char(dec_digits(n)[0]));
    } else {
        lemma_dec_digits_are_digits(n / 10);
        assert forall|k: int| 0 <= k < dec_digits(n).len() implies is_digit_char(
            #[trigger] dec_digits(n)[k],
        ) by {
            let prev = dec_digits(n / 10);
            if k < prev.len() {
                assert(dec_digits(n)[k] == prev[k]);
            } else {
                assert(dec_digits(n)[k] == digit_char(n % 10));
            }
        }
    }
}

fn digit_str(d: u128) -> (r: &'static str)
    requires
        d < 10,
    ensures
        r@ == seq![digit_char(d as nat)],
{
    proof {
        reveal_strlit("0");
        reveal_strlit("1");
        reveal_strlit("2");
        reveal_strlit("3");
        reveal_strlit("4");
        reveal_strlit("5");
        reveal_strlit("6");
        reveal_strlit("7");
        reveal_strlit("8");
        reveal_strlit("9");
    }
    let r: &'static str = if d == 0 {
        "0"
    } else if d == 1 {
        "1"
    } else if d == 2 {
        "2"
    } else if d == 3 {
        "3"
    } else if d == 4 {
        "4"
    } else if d == 5 {
        "5"
    } else if d == 6 {
        "6"
    } else if d == 7 {
        "7"
    } else if d == 8 {
        "8"
    } else {
        "9"
    };
    proof {
        assert(r@ =~= seq![digit_char(d as nat)]);
    }
    r
}

/// Renders an unsigned value in decimal.
pub fn u128_dec(n: u128) -> (r: String)
    ensures
        r@ == dec_digits(n as nat),
    decreases n,
{
    if n < 10 {
        String::from_str(digit_str(n))
    } else {
        let mut s = u128_dec(n / 10);
        s.append(digit_str(n % 10));
        proof {
            assert((n / 10) as nat == n as nat / 10);
            assert((n % 10) as nat == n as nat % 10);
            assert(s@ =~= dec_digits(n as nat / 10).push(digit_char(n as nat % 10)));
        }
        s
    }
}

/// Renders a signed value in decimal.
pub fn i16_dec(n: i16) -> (r: String)
    ensures
        r@ == dec_signed(n as int),
{
    if n >= 0 {
        u128_dec(n as u128)
    } else {
        let m: i32 = -(n as i32);
        let mut s = String::from_str("-");
        let digits = u128_dec(m as u128);
        s.append(digits.as_str());
        proof {
            reveal_strlit("-");
            assert("-"@ =~= seq!['-']);
        }
        s
    }
}

/// `s` nowhere holds the character `c`.
pub open spec fn free_of(s: Seq<char>, c: char) -> bool {
    forall|k: int| 0 <= k < s.len() ==> s[k] != c
}

/// A decimal rendering holds nothing but digits, so no other character.
pub proof fn lemma_dec_digits_free_of(n: nat, c: char)
    requires
        !is_digit_char(c),
    ensures
        free_of(dec_digits(n), c),
{
    lemma_dec_digits_are_digits(n);
}

/// A signed decimal rendering holds nothing but digits and the sign.
pub proof fn lemma_dec_signed_free_of(n: int, c: char)
    requires
        !is_digit_char(c),
        c != '-',
    ensures
        free_of(dec_signed(n), c),
{
    if n < 0 {
        lemma_dec_digits_are_digits((-n) as nat);
        assert forall|k: int| 0 <= k < dec_signed(n).len() implies dec_signed(n)[k] != c by {
            if k == 0 {
                assert(dec_signed(n)[k] == '-');
            } else {
                assert(dec_signed(n)[k] == dec_digits((-n) as nat)[k - 1]);
            }
        }
    } else {
        lemma_dec_digits_are_digits(n as nat);
    }
}

/// `p` occurs in `s` starting at index `i`.
pub open spec fn is_match_at<T>(s: Seq<T>, p: Seq<T>, i: int) -> bool {
    0 <= i && i + p.len() <= s.len() && s.subrange(i, i + p.len()) == p
}

/// `p` occurs somewhere in `s`.
pub open spec fn contains_pat<T>(s: Seq<T>, p: Seq<T>) -> bool {
    exists|i: int| is_match_at(s, p, i)
}

/// Substring test over the character sequences of the two strings.
pub fn str_contains(hay: &str, pat: &str) -> (r: bool)
    ensures
        r == contains_pat(hay@, pat@),
{
    let n = hay.unicode_len();
    let m = pat.unicode_len();
    if m == 0 {
        proof {
            assert(hay@.subrange(0, 0) =~= pat@);
            assert(is_match_at(hay@, pat@, 0));
        }
        return true;
    }
    if m > n {
        return false;
    }
    let mut i: usize = 0;
    while i <= n - m
        invariant
            1 <= m <= n,
            n == hay@.len(),
            m == pat@.len(),
            0 <= i <= n - m + 1,
            forall|k: int| 0 <= k < i ==> !is_match_at(hay@, pat@, k),
        decreases n - m + 1 - i,
    {
        let mut j: usize = 0;
        let mut matched = true;
        while j < m
            invariant
                1 <= m <= n,
                n == hay@.len(),
                m == pat@.len(),
                0 <= i <= n - m,
                0 <= j <= m,
                matched ==> forall|k: int| 0 <= k < j ==> hay@[i + k] == pat@[k],
                !matched ==> exists|k: int| 0 <= k < m && hay@[i + k] != #[trigger] pat@[k],
            decreases m - j,
        {
            if hay.get_char(i + j) != pat.get_char(j) {
                proof {
                    assert(0 <= j < m && hay@[i + j] != pat@[j as int]);
                }
                matched = false;
                j = m;
            } else {
                j = j + 1;
            }
        }
        if matched {
            proof {
                assert(hay@.subrange(i as int, i + pat@.len()) =~= pat@);
                assert(is_match_at(hay@, pat@, i as int));
            }
            return true;
        }
        proof {
            let k = choose|k: int| 0 <= k < m && hay@[i + k] != #[trigger] pat@[k];
            assert(hay@.subrange(i as int, i + pat@.len())[k] == hay@[i + k]);
            assert(!is_match_at(hay@, pat@, i as int));
        }
        i = i + 1;
    }
    proof {
        assert(forall|k: int| is_match_at(hay@, pat@, k) ==> 0 <= k <= n - m);
    }
    false
}

} // verus!
