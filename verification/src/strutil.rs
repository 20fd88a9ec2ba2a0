//! Verified helpers for the character-level work the protocol needs:
//! prefix tests, substring search, and decimal numerals.

use vstd::prelude::*;

verus! {

/// `p` is a prefix of `s`.
pub open spec fn spec_starts_with(s: Seq<char>, p: Seq<char>) -> bool {
    p.len() <= s.len() && s.subrange(0, p.len() as int) == p
}

/// `p` occurs in `s` as a contiguous substring.
pub open spec fn spec_contains(s: Seq<char>, p: Seq<char>) -> bool {
    exists|i: int| 0 <= i && i + p.len() <= s.len() && #[trigger] s.subrange(i, i + p.len() as int)
        == p
}

/// Whether `s` starts with the prefix `p`, by character.
pub fn starts_with(s: &str, p: &str) -> (b: bool)
    ensures
        b == spec_starts_with(s@, p@),
{
    let n: usize = p.unicode_len();
    if s.unicode_len() < n {
        return false;
    }
    let mut i: usize = 0;
    while i < n
        invariant
            i <= n,
            n == p@.len(),
            n <= s@.len(),
            forall|j: int| 0 <= j < i ==> s@[j] == p@[j],
        decreases n - i,
    {
        if s.get_char(i) != p.get_char(i) {
            proof {
                assert(s@.subrange(0, n as int)[i as int] != p@[i as int]);
            }
            return false;
        }
        i += 1;
    }
    proof {
        assert(s@.subrange(0, n as int) =~= p@);
    }
    true
}

/// Whether two string slices hold the same characters.
pub fn str_eq(a: &str, b: &str) -> (r: bool)
    ensures
        r == (a@ == b@),
{
    if a.unicode_len() != b.unicode_len() {
        return false;
    }
    let r = starts_with(a, b);
    proof {
        assert(a@.subrange(0, a@.len() as int) =~= a@);
    }
    r
}

/// Whether `p` occurs anywhere in `s`, by character.
pub fn contains(s: &str, p: &str) -> (b: bool)
    ensures
        b == spec_contains(s@, p@),
{
    let n: usize = s.unicode_len();
    let m: usize = p.unicode_len();
    if m > n {
        return false;
    }
    if m == 0 {
        proof {
            assert(s@.subrange(0, 0 + p@.len() as int) =~= p@);
        }
        return true;
    }
    let mut i: usize = 0;
    while i <= n - m
        invariant
            1 <= m <= n,
            n == s@.len(),
            m == p@.len(),
            i <= n - m + 1,
            forall|j: int| 0 <= j < i ==> #[trigger] s@.subrange(j, j + m as int) != p@,
        decreases n - i,
    {
        let sub = s.substring_char(i, i + m);
        if str_eq(sub, p) {
            return true;
        }
        i += 1;
    }
    false
}

/// The characters of `s` from position `n` on, as an owned string.
pub fn string_skip(s: &str, n: usize) -> (r: String)
    requires
        n <= s@.len(),
    ensures
        r@ == s@.skip(n as int),
{
    let len: usize = s.unicode_len();
    let suffix = s.substring_char(n, len);
    proof {
        assert(s@.subrange(n as int, s@.len() as int) =~= s@.skip(n as int));
    }
    suffix.to_owned()
}

/// `c` is a decimal digit.
pub open spec fn is_digit(c: char) -> bool {
    48 <= c as u32 <= 57
}

/// The numeric value of the digit `c`.
pub open spec fn digit_val(c: char) -> nat {
    (c as u32 - 48) as nat
}

/// Every character of `s` is a decimal digit.
pub open spec fn all_digits(s: Seq<char>) -> bool {
    forall|i: int| 0 <= i < s.len() ==> is_digit(#[trigger] s[i])
}

/// The value of `s` read as a decimal numeral.
pub open spec fn dec_val(s: Seq<char>) -> nat
    decreases s.len(),
{
    if s.len() == 0 {
        0
    } else {
        dec_val(s.drop_last()) * 10 + digit_val(s.last())
    }
}

/// The digit character for a value below ten.
pub open spec fn digit_char(d: nat) -> char {
    if d == 0 {
        '0'
    } else if d == 1 {
        '1'
    } else if d == 2 {
        '2'
    } else if d == 3 {
        '3'
    } else if d == 4 {
        '4'
    } else if d == 5 {
        '5'
    } else if d == 6 {
        '6'
    } else if d == 7 {
        '7'
    } else if d == 8 {
        '8'
    } else {
        '9'
    }
}

/// The canonical decimal numeral of `n`: no leading zero except for zero itself.
pub open spec fn dec_rep(n: nat) -> Seq<char>
    decreases n,
{
    if n < 10 {
        seq![digit_char(n)]
    } else {
        dec_rep(n / 10).push(digit_char(n % 10))
    }
}

/// Reading back the canonical numeral of `n` yields `n`, and the numeral is
/// a non-empty digit string.
pub proof fn lemma_dec_rep_val(n: nat)
    ensures
        dec_val(dec_rep(n)) == n,
        all_digits(dec_rep(n)),
        dec_rep(n).len() >= 1,
    decreases n,
{
    if n < 10 {
        let s = dec_rep(n);
        assert(s =~= seq![digit_char(n)]);
        assert(s.drop_last() =~= Seq::<char>::empty());
        assert(dec_val(s.drop_last()) == 0);
        assert(s.last() == digit_char(n));
        assert(dec_val(s) == dec_val(s.drop_last()) * 10 + digit_val(s.last()));
        assert(digit_val(digit_char(n)) == n);
    } else {
        lemma_dec_rep_val(n / 10);
        assert(dec_rep(n) == dec_rep(n / 10).push(digit_char(n % 10)));
        assert(dec_rep(n).drop_last() =~= dec_rep(n / 10));
        assert(dec_rep(n).last() == digit_char(n % 10));
        assert(dec_val(dec_rep(n)) == (n / 10) * 10 + digit_val(digit_char(n % 10)));
        assert(digit_val(digit_char(n % 10)) == n % 10);
        assert((n / 10) * 10 + n % 10 == n) by (nonlinear_arith);
    }
}

/// The digit character of `d` as a one-character string slice.
fn digit_str(d: usize) -> (r: &'static str)
    requires
        d < 10,
    ensures
        r@ == seq![digit_char(d as nat)],
{
    proof {
        reveal_strlit("0");
        reveal_strlit("1");
        reveal_strlit("2");
        reveal_strlit("3");
        reveal_strlit("4");
        reveal_strlit("5");
        reveal_strlit("6");
        reveal_strlit("7");
        reveal_strlit("8");
        reveal_strlit("9");
    }
    let r: &'static str = if d == 0 {
        "0"
    } else if d == 1 {
        "1"
    } else if d == 2 {
        "2"
    } else if d == 3 {
        "3"
    } else if d == 4 {
        "4"
    } else if d == 5 {
        "5"
    } else if d == 6 {
        "6"
    } else if d == 7 {
        "7"
    } else if d == 8 {
        "8"
    } else {
        "9"
    };
    proof {
        assert(r@ =~= seq![digit_char(d as nat)]);
    }
    r
}

/// The canonical decimal numeral of `n` as a string.
pub fn usize_to_string(n: usize) -> (r: String)
    ensures
        r@ == dec_rep(n as nat),
    decreases n,
{
    if n < 10 {
        digit_str(n).to_owned()
    } else {
        let prefix = usize_to_string(n / 10);
        let r = prefix.concat(digit_str(n % 10));
        proof {
            assert(r@ =~= dec_rep(n as nat));
        }
        r
    }
}

/// The value of a digit string, if it is one and its value fits in `usize`;
/// `usize::MAX` for a digit string whose value is larger.
pub fn parse_dec(s: &str) -> (r: Option<usize>)
    ensures
        r is Some <==> s@.len() > 0 && all_digits(s@),
        r is Some ==> r->0 == if dec_val(s@) <= usize::MAX {
            dec_val(s@) as usize
        } else {
            usize::MAX
        },
{
    let n: usize = s.unicode_len();
    if n == 0 {
        return None;
    }
    let mut acc: usize = 0;
    let mut saturated: bool = false;
    let mut i: usize = 0;
    while i < n
        invariant
            i <= n,
            n == s@.len(),
            all_digits(s@.take(i as int)),
            !saturated ==> acc == dec_val(s@.take(i as int)) && dec_val(s@.take(i as int))
                <= usize::MAX,
            saturated ==> acc == usize::MAX && dec_val(s@.take(i as int)) > usize::MAX,
        decreases n - i,
    {
        let c = s.get_char(i);
        let cv: u32 = c as u32;
        if cv < 48 || cv > 57 {
            return None;
        }
        let d: usize = (cv - 48) as usize;
        proof {
            assert(s@.take(i + 1).drop_last() =~= s@.take(i as int));
            assert(s@.take(i + 1).last() == s@[i as int]);
        }
        if !saturated {
            if acc <= (usize::MAX - d) / 10 {
                proof {
                    assert(acc * 10 + d <= usize::MAX) by (nonlinear_arith)
                        requires
                            acc <= (usize::MAX - d) / 10,
                            d <= usize::MAX,
                    ;
                }
                acc = acc * 10 + d;
            } else {
                proof {
                    assert(acc * 10 + d > usize::MAX) by (nonlinear_arith)
                        requires
                            acc > (usize::MAX - d) / 10,
                            d < 10,
                    ;
                }
                saturated = true;
                acc = usize::MAX;
            }
        } else {
            proof {
                assert(dec_val(s@.take(i + 1)) == dec_val(s@.take(i as int)) * 10 + digit_val(
                    s@[i as int],
                ));
                assert(dec_val(s@.take(i as int)) * 10 >= dec_val(s@.take(i as int)))
                    by (nonlinear_arith);
            }
        }
        i += 1;
    }
    proof {
        assert(s@.take(n as int) =~= s@);
    }
    Some(acc)
}

} // verus!
