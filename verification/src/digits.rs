//! Decimal text for unsigned integers: the spec-level digit string of a
//! `u64`, a greedy spec-level parser, executable versions of both, and the
//! lemma that parsing a printed number gives the number back.

use vstd::prelude::*;

verus! {

pub open spec fn is_digit(c: char) -> bool {
    ||| c == '0'
    ||| c == '1'
    ||| c == '2'
    ||| c == '3'
    ||| c == '4'
    ||| c == '5'
    ||| c == '6'
    ||| c == '7'
    ||| c == '8'
    ||| c == '9'
}

pub open spec fn digit_val(c: char) -> nat {
    if c == '0' {
        0
    } else if c == '1' {
        1
    } else if c == '2' {
        2
    } else if c == '3' {
        3
    } else if c == '4' {
        4
    } else if c == '5' {
        5
    } else if c == '6' {
        6
    } else if c == '7' {
        7
    } else if c == '8' {
        8
    } else {
        9
    }
}

pub open spec fn digit_char(d: nat) -> char {
    if d == 0 {
        '0'
    } else if d == 1 {
        '1'
    } else if d == 2 {
        '2'
    } else if d == 3 {
        '3'
    } else if d == 4 {
        '4'
    } else if d == 5 {
        '5'
    } else if d == 6 {
        '6'
    } else if d == 7 {
        '7'
    } else if d == 8 {
        '8'
    } else {
        '9'
    }
}

/// The decimal digit string of `n`: no sign, no leading zeros, `"0"` for 0.
pub open spec fn spec_u64_str(n: u64) -> Seq<char>
    decreases n,
{
    if n < 10 {
        seq![digit_char(n as nat)]
    } else {
        spec_u64_str(n / 10) + seq![digit_char((n % 10) as nat)]
    }
}

/// The value of a digit string, most significant digit first.
pub open spec fn val_of(d: Seq<char>) -> nat
    decreases d.len(),
{
    if d.len() == 0 {
        0
    } else {
        val_of(d.drop_last()) * 10 + digit_val(d.last())
    }
}

pub open spec fn pow10(k: nat) -> nat
    decreases k,
{
    if k == 0 {
        1
    } else {
        10 * pow10((k - 1) as nat)
    }
}

/// Greedy digit scan from position `i`: the accumulated value (over the
/// unbounded naturals) and the position of the first non-digit.
pub open spec fn sp_digits(s: Seq<char>, i: int, acc: nat) -> (nat, int)
    decreases s.len() - i,
{
    if 0 <= i < s.len() && is_digit(s[i]) {
        sp_digits(s, i + 1, acc * 10 + digit_val(s[i]))
    } else {
        (acc, i)
    }
}

/// Parse an unsigned decimal number at position `i`: at least one digit,
/// greedy, rejected when the value does not fit in a `u64`.
pub open spec fn sp_parse_u64(s: Seq<char>, i: int) -> Option<(u64, int)> {
    if 0 <= i < s.len() && is_digit(s[i]) {
        let (v, j) = sp_digits(s, i, 0);
        if v <= u64::MAX {
            Some(((v as u64), j))
        } else {
            None
        }
    } else {
        None
    }
}

/// The digit string of a number is non-empty and made of digits only.
pub proof fn lemma_u64_str_digits(n: u64)
    ensures
        spec_u64_str(n).len() >= 1,
        forall|k: int| 0 <= k < spec_u64_str(n).len() ==> is_digit(#[trigger] spec_u64_str(n)[k]),
    decreases n,
{
    if n >= 10 {
        lemma_u64_str_digits(n / 10);
        assert forall|k: int| 0 <= k < spec_u64_str(n).len() implies is_digit(
            #[trigger] spec_u64_str(n)[k],
        ) by {
            if k < spec_u64_str(n / 10).len() {
                assert(spec_u64_str(n)[k] == spec_u64_str(n / 10)[k]);
            }
        }
    }
}

/// Printing then valuing a number gives the number back.
pub proof fn lemma_val_of_u64_str(n: u64)
    ensures
        val_of(spec_u64_str(n)) == n,
    decreases n,
{
    reveal_with_fuel(val_of, 3);
    if n < 10 {
        let d = spec_u64_str(n);
        assert(d.drop_last() =~= Seq::<char>::empty());
        lemma_digit_roundtrip(n as nat);
        assert(d.last() == digit_char(n as nat));
        assert(val_of(d) == val_of(d.drop_last()) * 10 + digit_val(d.last()));
    } else {
        lemma_val_of_u64_str(n / 10);
        let d = spec_u64_str(n);
        assert(d.drop_last() =~= spec_u64_str(n / 10));
        assert(d.last() == digit_char((n % 10) as nat));
        lemma_digit_roundtrip((n % 10) as nat);
        assert(val_of(d) == val_of(d.drop_last()) * 10 + digit_val(d.last()));
    }
}

/// The value of a digit string, decomposed at its first digit.
pub proof fn lemma_val_of_front(d: Seq<char>)
    requires
        d.len() > 0,
        forall|k: int| 0 <= k < d.len() ==> is_digit(#[trigger] d[k]),
    ensures
        val_of(d) == digit_val(d[0]) * pow10((d.len() - 1) as nat) + val_of(d.drop_first()),
    decreases d.len(),
{
    reveal_with_fuel(val_of, 3);
    if d.len() == 1 {
        assert(d.drop_last() =~= Seq::<char>::empty());
        assert(d.drop_first() =~= Seq::<char>::empty());
        let a = digit_val(d[0]);
        let p0 = pow10((d.len() - 1) as nat);
        assert(d.last() == d[0]);
        assert(val_of(d) == a);
        assert(p0 == 1);
        assert(a * p0 == a) by (nonlinear_arith)
            requires
                p0 == 1,
        ;
        assert(val_of(d.drop_first()) == 0);
    } else {
        let dl = d.drop_last();
        assert(forall|k: int| 0 <= k < dl.len() ==> is_digit(#[trigger] dl[k]));
        lemma_val_of_front(dl);
        assert(dl[0] == d[0]);
        assert(dl.drop_first() =~= d.drop_first().drop_last());
        assert(d.drop_first().last() == d.last());
        assert(d.drop_first().len() > 0);
        let p = pow10((d.len() - 2) as nat);
        let a = digit_val(d[0]);
        let b = val_of(d.drop_first().drop_last());
        assert(val_of(dl) == a * p + b);
        assert(val_of(d) == (a * p + b) * 10 + digit_val(d.last()));
        assert((a * p + b) * 10 == a * (10 * p) + b * 10) by (nonlinear_arith);
        assert(pow10((d.len() - 1) as nat) == 10 * p);
        assert(val_of(d.drop_first()) == b * 10 + digit_val(d.drop_first().last()));
        assert(val_of(d) == a * (10 * p) + (b * 10 + digit_val(d.last())));
        assert(a * (10 * p) == a * pow10((d.len() - 1) as nat));
    }
}

/// The greedy scan over a run of digits ending at `j` yields the accumulator
/// scaled past the run, plus the run's value, and stops at `j`.
pub proof fn lemma_sp_digits_run(s: Seq<char>, i: int, j: int, acc: nat)
    requires
        0 <= i <= j <= s.len(),
        forall|k: int| i <= k < j ==> is_digit(#[trigger] s[k]),
        j == s.len() || !is_digit(s[j]),
    ensures
        sp_digits(s, i, acc) == ((acc * pow10((j - i) as nat) + val_of(s.subrange(i, j)), j)),
    decreases j - i,
{
    if i == j {
        assert(s.subrange(i, j) =~= Seq::<char>::empty());
        assert(acc * 1 == acc) by (nonlinear_arith);
    } else {
        let d = s.subrange(i, j);
        assert(is_digit(s[i]));
        let acc2 = acc * 10 + digit_val(s[i]);
        lemma_sp_digits_run(s, i + 1, j, acc2);
        lemma_val_of_front(d);
        assert(d[0] == s[i]);
        assert(d.drop_first() =~= s.subrange(i + 1, j));
        let k1 = (j - i - 1) as nat;
        let p = pow10(k1);
        let dv = digit_val(s[i]);
        assert(acc2 * p == acc * (10 * p) + dv * p) by (nonlinear_arith)
            requires
                acc2 == acc * 10 + dv,
        ;
        assert(pow10((j - i) as nat) == 10 * p);
    }
}

/// The scanned value never falls below the accumulator it started from.
pub proof fn lemma_sp_digits_lower(s: Seq<char>, i: int, acc: nat)
    ensures
        sp_digits(s, i, acc).0 >= acc,
        i <= sp_digits(s, i, acc).1,
        sp_digits(s, i, acc).1 <= s.len() || sp_digits(s, i, acc).1 == i,
    decreases s.len() - i,
{
    if 0 <= i < s.len() && is_digit(s[i]) {
        lemma_sp_digits_lower(s, i + 1, acc * 10 + digit_val(s[i]));
    }
}

/// Parsing at the start of a printed number, with no digit right after it,
/// gives back exactly that number and stops right after it.
pub proof fn lemma_parse_u64_at(s: Seq<char>, i: int, n: u64)
    requires
        0 <= i,
        i + spec_u64_str(n).len() <= s.len(),
        s.subrange(i, i + spec_u64_str(n).len()) == spec_u64_str(n),
        i + spec_u64_str(n).len() == s.len() || !is_digit(s[i + spec_u64_str(n).len()]),
    ensures
        sp_parse_u64(s, i) == Some((n, i + spec_u64_str(n).len())),
{
    let d = spec_u64_str(n);
    let j = i + d.len();
    lemma_u64_str_digits(n);
    assert forall|k: int| i <= k < j implies is_digit(#[trigger] s[k]) by {
        assert(s[k] == d[k - i]);
    }
    assert(is_digit(s[i]));
    lemma_sp_digits_run(s, i, j, 0);
    lemma_val_of_u64_str(n);
    assert(s.subrange(i, j) == d);
    assert(sp_digits(s, i, 0).0 == n);
}

/// What `digit_val` of a digit returned by `digit_char` gives back.
pub proof fn lemma_digit_roundtrip(d: nat)
    requires
        d < 10,
    ensures
        is_digit(digit_char(d)),
        digit_val(digit_char(d)) == d,
{
}

/// Executable digit test and value.
pub fn char_digit_val(c: char) -> (r: Option<u64>)
    ensures
        is_digit(c) ==> r == Some(digit_val(c) as u64),
        !is_digit(c) ==> r is None,
{
    match c {
        '0' => Some(0),
        '1' => Some(1),
        '2' => Some(2),
        '3' => Some(3),
        '4' => Some(4),
        '5' => Some(5),
        '6' => Some(6),
        '7' => Some(7),
        '8' => Some(8),
        '9' => Some(9),
        _ => None,
    }
}

pub fn digit_to_char(d: u64) -> (c: char)
    requires
        d < 10,
    ensures
        c == digit_char(d as nat),
{
    if d == 0 {
        '0'
    } else if d == 1 {
        '1'
    } else if d == 2 {
        '2'
    } else if d == 3 {
        '3'
    } else if d == 4 {
        '4'
    } else if d == 5 {
        '5'
    } else if d == 6 {
        '6'
    } else if d == 7 {
        '7'
    } else if d == 8 {
        '8'
    } else {
        '9'
    }
}

/// The decimal digits of `n`, most significant first.
pub fn u64_to_digits(n: u64) -> (r: Vec<char>)
    ensures
        r@ == spec_u64_str(n),
{
    let mut out: Vec<char> = Vec::new();
    if n < 10 {
        out.push(digit_to_char(n));
        assert(out@ =~= spec_u64_str(n));
        return out;
    }
    let mut m: u64 = n;
    while m > 0
        invariant
            if m > 0 {
                spec_u64_str(n) =~= spec_u64_str(m) + out@
            } else {
                spec_u64_str(n) =~= out@
            },
        decreases m,
    {
        let c = digit_to_char(m % 10);
        out.insert(0, c);
        proof {
            if m >= 10 {
                assert(spec_u64_str(m) =~= spec_u64_str(m / 10) + seq![
                    digit_char((m % 10) as nat),
                ]);
            } else {
                assert(spec_u64_str(m) =~= seq![digit_char((m % 10) as nat)]);
            }
        }
        m = m / 10;
    }
    assert(out@ =~= spec_u64_str(n));
    out
}

/// Parse an unsigned decimal number in `s` starting at `i`, greedily.
pub fn parse_u64(s: &Vec<char>, i: usize) -> (r: Option<(u64, usize)>)
    requires
        i <= s@.len(),
    ensures
        (r matches Some((v, j)) ==> sp_parse_u64(s@, i as int) == Some((v, j as int)) && i < j
            <= s@.len()),
        r is None ==> sp_parse_u64(s@, i as int) is None,
{
    if i >= s.len() {
        return None;
    }
    if char_digit_val(s[i]).is_none() {
        return None;
    }
    let ghost whole = sp_digits(s@, i as int, 0);
    let mut acc: u64 = 0;
    let mut k: usize = i;
    loop
        invariant
            i <= k <= s@.len(),
            sp_digits(s@, i as int, 0) == sp_digits(s@, k as int, acc as nat),
        ensures
            i <= k <= s@.len(),
            sp_digits(s@, i as int, 0) == ((acc as nat, k as int)),
        decreases s@.len() - k,
    {
        if k >= s.len() {
            break ;
        }
        let dv = match char_digit_val(s[k]) {
            Some(d) => d,
            None => {
                break ;
            },
        };
        let next = match acc.checked_mul(10) {
            Some(t) => t.checked_add(dv),
            None => None,
        };
        match next {
            Some(a2) => {
                proof {
                    assert(sp_digits(s@, k as int, acc as nat) == sp_digits(
                        s@,
                        k as int + 1,
                        acc as nat * 10 + digit_val(s@[k as int]),
                    ));
                }
                acc = a2;
                k = k + 1;
            },
            None => {
                proof {
                    assert(sp_digits(s@, k as int, acc as nat) == sp_digits(
                        s@,
                        k as int + 1,
                        acc as nat * 10 + digit_val(s@[k as int]),
                    ));
                    lemma_sp_digits_lower(s@, k as int + 1, acc as nat * 10 + digit_val(s@[k as int]));
                }
                return None;
            },
        }
    }
    proof {
        assert(sp_digits(s@, i as int, 0) == sp_digits(
            s@,
            i as int + 1,
            0 * 10 + digit_val(s@[i as int]),
        ));
        lemma_sp_digits_lower(s@, i as int + 1, 0 * 10 + digit_val(s@[i as int]));
    }
    Some((acc, k))
}

} // verus!
