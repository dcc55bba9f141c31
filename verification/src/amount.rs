//! Transaction amounts as decimal text, and their conversion to milliunits.
//!
//! An amount travels through the library as its decimal rendering (for
//! example `"-127.5"`), because that exact text is part of the import
//! identifier contract with the budgeting service. The milliunit value
//! submitted to the service is derived from the same text: the value scaled
//! by 1000 and truncated toward zero, so `"-127.5"` becomes `-127500` and
//! `"-0.0"` becomes `0`.

use vstd::prelude::*;
use vstd::arithmetic::div_mod::lemma_fundamental_div_mod_converse;

verus! {

/// True for the characters `'0'` to `'9'`.
pub open spec fn is_digit(c: char) -> bool {
    48 <= c as u32 <= 57
}

/// The numeric value of a digit character.
pub open spec fn digit_val(c: char) -> int {
    c as u32 - 48
}

/// Every character of `s` is a decimal digit.
pub open spec fn all_digits(s: Seq<char>) -> bool {
    forall|i: int| 0 <= i < s.len() ==> is_digit(#[trigger] s[i])
}

/// The value of a digit string read in base 10; `0` for the empty string.
pub open spec fn digits_val(s: Seq<char>) -> int
    decreases s.len(),
{
    if s.len() == 0 {
        0
    } else {
        digits_val(s.drop_last()) * 10 + digit_val(s.last())
    }
}

/// Ten to the `n`-th power.
pub open spec fn pow10(n: nat) -> int
    decreases n,
{
    if n == 0 {
        1
    } else {
        10 * pow10((n - 1) as nat)
    }
}

/// The index of the first `'.'` at or after `i`, or `s.len()` if there is none.
pub open spec fn dot_index(s: Seq<char>, i: int) -> int
    decreases s.len() - i,
{
    if i < 0 || i >= s.len() {
        s.len() as int
    } else if s[i] == '.' {
        i
    } else {
        dot_index(s, i + 1)
    }
}

/// An unsigned decimal text: one or more integer digits, optionally followed
/// by a `'.'` and one or more fractional digits.
pub open spec fn wf_unsigned_decimal(s: Seq<char>) -> bool {
    let d = dot_index(s, 0);
    &&& d > 0
    &&& all_digits(s.subrange(0, d))
    &&& (d < s.len() ==> d + 1 < s.len() && all_digits(s.subrange(d + 1, s.len() as int)))
}

/// The digits before the `'.'` (or the whole text when there is no `'.'`).
pub open spec fn int_part(s: Seq<char>) -> Seq<char> {
    s.subrange(0, dot_index(s, 0))
}

/// The digits after the `'.'`; empty when there is no `'.'`.
pub open spec fn frac_part(s: Seq<char>) -> Seq<char> {
    let d = dot_index(s, 0);
    if d < s.len() {
        s.subrange(d + 1, s.len() as int)
    } else {
        Seq::empty()
    }
}

/// The milliunit contribution of the fractional digits: the first three
/// fractional digits, padded with zeros on the right; digits past the third
/// are dropped (truncation toward zero).
pub open spec fn frac_milli(f: Seq<char>) -> int {
    if f.len() >= 3 {
        digits_val(f.subrange(0, 3))
    } else {
        digits_val(f) * pow10((3 - f.len()) as nat)
    }
}

/// The milliunit magnitude of an unsigned decimal text.
pub open spec fn abs_milliunits(s: Seq<char>) -> int {
    digits_val(int_part(s)) * 1000 + frac_milli(frac_part(s))
}

/// A decimal text: an unsigned decimal, optionally preceded by `'-'`.
pub open spec fn wf_decimal(s: Seq<char>) -> bool {
    if s.len() > 0 && s[0] == '-' {
        wf_unsigned_decimal(s.skip(1))
    } else {
        wf_unsigned_decimal(s)
    }
}

/// The signed milliunit value of a decimal text. A minus sign on a zero
/// magnitude (for example `"-0.0"`) yields plain `0`.
pub open spec fn milliunits_of(s: Seq<char>) -> int {
    if s.len() > 0 && s[0] == '-' {
        -abs_milliunits(s.skip(1))
    } else {
        abs_milliunits(s)
    }
}

/// A milliunit value the library can carry in an `i64` (symmetric range, so
/// a magnitude is always negatable).
pub open spec fn milliunits_in_range(m: int) -> bool {
    -0x7fff_ffff_ffff_ffff <= m <= 0x7fff_ffff_ffff_ffff
}

proof fn lemma_dot_index_bounds(s: Seq<char>, i: int)
    requires
        0 <= i <= s.len(),
    ensures
        i <= dot_index(s, i) <= s.len(),
        dot_index(s, i) < s.len() ==> s[dot_index(s, i)] == '.',
        forall|j: int| i <= j < dot_index(s, i) ==> s[j] != '.',
    decreases s.len() - i,
{
    if i < s.len() && s[i] != '.' {
        lemma_dot_index_bounds(s, i + 1);
    }
}

proof fn lemma_dot_index_is(s: Seq<char>, i: int, d: int)
    requires
        0 <= i <= d <= s.len(),
        forall|j: int| i <= j < d ==> s[j] != '.',
        d < s.len() ==> s[d] == '.',
    ensures
        dot_index(s, i) == d,
    decreases d - i,
{
    if i < d {
        lemma_dot_index_is(s, i + 1, d);
    }
}

proof fn lemma_digits_val_bound(s: Seq<char>)
    requires
        all_digits(s),
    ensures
        0 <= digits_val(s) < pow10(s.len()),
    decreases s.len(),
{
    if s.len() > 0 {
        lemma_digits_val_bound(s.drop_last());
    }
}

/// The value of a digit-string prefix never exceeds the value of the whole.
proof fn lemma_digits_val_prefix(s: Seq<char>, k: int)
    requires
        all_digits(s),
        0 <= k <= s.len(),
    ensures
        0 <= digits_val(s.subrange(0, k)) <= digits_val(s),
    decreases s.len() - k,
{
    assert(all_digits(s.subrange(0, k)));
    lemma_digits_val_bound(s.subrange(0, k));
    if k < s.len() {
        lemma_digits_val_prefix(s, k + 1);
        assert(s.subrange(0, k + 1).drop_last() =~= s.subrange(0, k));
        assert(digits_val(s.subrange(0, k + 1)) == digits_val(s.subrange(0, k)) * 10 + digit_val(
            s[k],
        ));
    } else {
        assert(s.subrange(0, k) =~= s);
    }
}

proof fn lemma_pow10_add(a: nat, b: nat)
    ensures
        pow10(a) * pow10(b) == pow10(a + b),
        pow10(a) >= 1,
    decreases a,
{
    if a == 0 {
    } else {
        lemma_pow10_add((a - 1) as nat, b);
        assert(pow10(a) * pow10(b) == 10 * (pow10((a - 1) as nat) * pow10(b)))
            by (nonlinear_arith)
            requires
                pow10(a) == 10 * pow10((a - 1) as nat),
        ;
    }
}

/// Reading digits in base 10 splits over concatenation.
proof fn lemma_digits_val_split(a: Seq<char>, b: Seq<char>)
    ensures
        digits_val(a + b) == digits_val(a) * pow10(b.len()) + digits_val(b),
    decreases b.len(),
{
    if b.len() == 0 {
        assert(a + b =~= a);
    } else {
        lemma_digits_val_split(a, b.drop_last());
        assert((a + b).drop_last() =~= a + b.drop_last());
        assert((a + b).last() == b.last());
        let p = pow10((b.len() - 1) as nat);
        assert(digits_val(a + b) == (digits_val(a) * p + digits_val(b.drop_last())) * 10
            + digit_val(b.last()));
        assert((digits_val(a) * p + digits_val(b.drop_last())) * 10 == digits_val(a) * (p * 10)
            + digits_val(b.drop_last()) * 10) by (nonlinear_arith);
        assert(p * 10 == pow10(b.len())) by {
            lemma_pow10_add((b.len() - 1) as nat, 1);
        }
    }
}

/// The milliunit magnitude of a well-formed unsigned decimal text is the
/// exact value scaled by 1000 and truncated toward zero: writing the text as
/// the fraction `num / 10^f` (with `f` fractional digits), the magnitude is
/// the integer quotient of `num * 1000` by `10^f`.
pub proof fn lemma_milliunits_truncation(s: Seq<char>)
    requires
        wf_unsigned_decimal(s),
    ensures
        ({
            let f = frac_part(s);
            let num = digits_val(int_part(s)) * pow10(f.len()) + digits_val(f);
            abs_milliunits(s) == (num * 1000) / pow10(f.len())
        }),
{
    reveal_with_fuel(pow10, 4);
    let d = dot_index(s, 0);
    lemma_dot_index_bounds(s, 0);
    let ip = digits_val(int_part(s));
    let f = frac_part(s);
    let fv = digits_val(f);
    let flen = f.len();
    let num = ip * pow10(flen) + fv;
    assert(all_digits(f)) by {
        if d < s.len() {
            assert(f =~= s.subrange(d + 1, s.len() as int));
        }
    }
    lemma_digits_val_bound(f);
    lemma_digits_val_bound(int_part(s));
    if flen >= 3 {
        let f3 = f.subrange(0, 3);
        let frest = f.subrange(3, flen as int);
        assert(f =~= f3 + frest);
        lemma_digits_val_split(f3, frest);
        lemma_digits_val_bound(frest);
        lemma_digits_val_bound(f3);
        let p = pow10((flen - 3) as nat);
        lemma_pow10_add(3nat, (flen - 3) as nat);
        assert(pow10(3) == 1000);
        // num * 1000 == (ip * 1000 + digits_val(f3)) * (1000 * p) + digits_val(frest) * 1000
        assert(num * 1000 == (ip * 1000 + digits_val(f3)) * (1000 * p) + digits_val(frest) * 1000)
            by (nonlinear_arith)
            requires
                num == ip * (1000 * p) + digits_val(f3) * p + digits_val(frest),
        ;
        assert(digits_val(frest) * 1000 < 1000 * p) by (nonlinear_arith)
            requires
                digits_val(frest) < p,
        ;
        assert(digits_val(frest) * 1000 >= 0) by (nonlinear_arith)
            requires
                digits_val(frest) >= 0,
        ;
        lemma_fundamental_div_mod_converse(
            num * 1000,
            1000 * p,
            ip * 1000 + digits_val(f3),
            digits_val(frest) * 1000,
        );
        assert(pow10(flen) == 1000 * p);
    } else {
        let p = pow10((3 - flen) as nat);
        lemma_pow10_add((3 - flen) as nat, flen);
        assert(pow10(3) == 1000);
        assert(num * 1000 == (ip * 1000 + fv * p) * pow10(flen)) by (nonlinear_arith)
            requires
                num == ip * pow10(flen) + fv,
                p * pow10(flen) == 1000,
        ;
        assert(pow10(flen) >= 1) by {
            lemma_pow10_add(flen, 0nat);
        }
        lemma_fundamental_div_mod_converse(num * 1000, pow10(flen), ip * 1000 + fv * p, 0);
    }
}

/// A well-formed decimal text consists of digits, at most one `'.'` and an
/// optional leading `'-'`; in particular it never holds a `':'`.
pub proof fn lemma_wf_decimal_no_colon(s: Seq<char>)
    requires
        wf_decimal(s),
    ensures
        forall|i: int| 0 <= i < s.len() ==> #[trigger] s[i] != ':',
{
    let off: int = if s.len() > 0 && s[0] == '-' {
        1
    } else {
        0
    };
    let u = s.skip(off);
    if off == 0 {
        assert(u =~= s);
    }
    lemma_dot_index_bounds(u, 0);
    let d = dot_index(u, 0);
    assert forall|i: int| 0 <= i < s.len() implies #[trigger] s[i] != ':' by {
        if i >= off {
            let k = i - off;
            assert(u[k] == s[i]);
            if k < d {
                assert(is_digit(u.subrange(0, d)[k]));
            } else if k > d {
                assert(is_digit(u.subrange(d + 1, u.len() as int)[k - d - 1]));
            }
        }
    }
}

fn digit_at(u: &str, i: usize) -> (r: u64)
    requires
        i < u@.len(),
        is_digit(u@[i as int]),
    ensures
        r == digit_val(u@[i as int]),
        r <= 9,
{
    let c = u.get_char(i);
    (c as u32 - 48) as u64
}

/// Converts a well-formed decimal amount text to milliunits: the value
/// scaled by 1000 and truncated toward zero. `"-0.0"` yields `0`.
#[verifier::rlimit(60)]
pub fn parse_milliunits(s: &str) -> (r: i64)
    requires
        wf_decimal(s@),
        milliunits_in_range(milliunits_of(s@)),
    ensures
        r == milliunits_of(s@),
{
    let n = s.unicode_len();
    proof {
        lemma_dot_index_bounds(s@, 0);
        if s@.len() > 0 && s@[0] == '-' {
            lemma_dot_index_bounds(s@.skip(1), 0);
        }
    }
    let (neg, start) = if n > 0 && s.get_char(0) == '-' {
        (true, 1)
    } else {
        (false, 0)
    };
    let u = s.substring_char(start, n);
    proof {
        assert(u@ =~= if neg {
            s@.skip(1)
        } else {
            s@
        });
        lemma_dot_index_bounds(u@, 0);
    }
    let un = n - start;
    let ghost uview = u@;

    // locate the dot
    let mut d: usize = 0;
    while d < un && u.get_char(d) != '.'
        invariant
            0 <= d <= un,
            un == uview.len(),
            u@ == uview,
            forall|j: int| 0 <= j < d ==> uview[j] != '.',
        decreases un - d,
    {
        d += 1;
    }
    proof {
        lemma_dot_index_is(uview, 0, d as int);
    }
    let ghost ipart = int_part(uview);
    let ghost fpart = frac_part(uview);
    proof {
        assert(abs_milliunits(uview) <= 0x7fff_ffff_ffff_ffff);
        assert(all_digits(ipart));
        lemma_digits_val_bound(ipart);
        if dot_index(uview, 0) < uview.len() {
            assert(fpart =~= uview.subrange(d + 1, un as int));
        }
        assert(all_digits(fpart));
        lemma_digits_val_bound(fpart);
        assert(forall|k: int| 0 <= k < fpart.len() ==> fpart[k] == uview[d + 1 + k]);
        assert(forall|k: int| d < k < un ==> is_digit(#[trigger] uview[k])) by {
            assert(forall|k: int|
                d < k < un ==> #[trigger] uview[k] == fpart[k - d - 1] && is_digit(
                    fpart[k - d - 1],
                ));
        }
        reveal_with_fuel(pow10, 4);
        assert(frac_milli(fpart) >= 0) by {
            if fpart.len() < 3 {
                lemma_pow10_add((3 - fpart.len()) as nat, 0nat);
                assert(digits_val(fpart) * pow10((3 - fpart.len()) as nat) >= 0)
                    by (nonlinear_arith)
                    requires
                        digits_val(fpart) >= 0,
                        pow10((3 - fpart.len()) as nat) >= 1,
                ;
            } else {
                lemma_digits_val_bound(fpart.subrange(0, 3));
            }
        }
    }

    // integer digits
    let mut ip: u64 = 0;
    let mut j: usize = 0;
    while j < d
        invariant
            0 <= j <= d <= un,
            un == uview.len(),
            u@ == uview,
            d == dot_index(uview, 0),
            ipart == int_part(uview),
            all_digits(ipart),
            ip == digits_val(ipart.subrange(0, j as int)),
            digits_val(ipart) * 1000 + frac_milli(frac_part(uview)) <= 0x7fff_ffff_ffff_ffff,
            frac_milli(frac_part(uview)) >= 0,
            0 <= digits_val(ipart),
        decreases d - j,
    {
        proof {
            lemma_digits_val_prefix(ipart, j + 1);
            assert(ipart.subrange(0, j as int + 1).drop_last() =~= ipart.subrange(0, j as int));
            assert(ipart[j as int] == uview[j as int]);
            assert(digits_val(ipart) * 1000 <= digits_val(ipart) * 1000 + frac_milli(
                frac_part(uview),
            ));
            assert(digits_val(ipart) <= digits_val(ipart) * 1000) by (nonlinear_arith)
                requires
                    digits_val(ipart) >= 0,
            ;
        }
        let dv = digit_at(u, j);
        ip = ip * 10 + dv;
        j += 1;
    }
    proof {
        assert(ipart.subrange(0, d as int) =~= ipart);
    }

    // fractional digits: the first three, padded with zeros
    let fm: u64 = if d == un {
        proof {
            assert(fpart =~= Seq::<char>::empty());
        }
        0
    } else {
        let flen = un - d - 1;
        proof {
            assert(flen == fpart.len());
            assert(flen > 0);
        }
        if flen == 1 {
            let f0 = digit_at(u, d + 1);
            proof {
                reveal_with_fuel(pow10, 4);
                assert(fpart.drop_last() =~= Seq::<char>::empty());
                assert(digits_val(Seq::<char>::empty()) == 0);
                assert(fpart.last() == fpart[0]);
                assert(digits_val(fpart) == digit_val(fpart[0]));
                assert(f0 == digit_val(fpart[0]));
            }
            f0 * 100
        } else if flen == 2 {
            let f0 = digit_at(u, d + 1);
            let f1 = digit_at(u, d + 2);
            proof {
                reveal_with_fuel(pow10, 4);
                let p1 = fpart.subrange(0, 1);
                assert(fpart.drop_last() =~= p1);
                assert(p1.drop_last() =~= Seq::<char>::empty());
                assert(digits_val(Seq::<char>::empty()) == 0);
                assert(p1.last() == fpart[0]);
                assert(digits_val(p1) == digit_val(fpart[0]));
                assert(fpart.last() == fpart[1]);
                assert(digits_val(fpart) == digit_val(fpart[0]) * 10 + digit_val(fpart[1]));
                assert(f0 == digit_val(fpart[0]) && f1 == digit_val(fpart[1]));
            }
            (f0 * 10 + f1) * 10
        } else {
            let f0 = digit_at(u, d + 1);
            let f1 = digit_at(u, d + 2);
            let f2 = digit_at(u, d + 3);
            proof {
                let f3 = fpart.subrange(0, 3);
                let p2 = fpart.subrange(0, 2);
                let p1 = fpart.subrange(0, 1);
                assert(f3.drop_last() =~= p2);
                assert(p2.drop_last() =~= p1);
                assert(p1.drop_last() =~= Seq::<char>::empty());
                assert(digits_val(Seq::<char>::empty()) == 0);
                assert(p1.last() == fpart[0]);
                assert(digits_val(p1) == digit_val(fpart[0]));
                assert(p2.last() == fpart[1]);
                assert(digits_val(p2) == digit_val(fpart[0]) * 10 + digit_val(fpart[1]));
                assert(f3.last() == fpart[2]);
                assert(digits_val(f3) == (digit_val(fpart[0]) * 10 + digit_val(fpart[1])) * 10
                    + digit_val(fpart[2]));
                assert(f0 == digit_val(fpart[0]) && f1 == digit_val(fpart[1]) && f2 == digit_val(
                    fpart[2],
                ));
            }
            (f0 * 10 + f1) * 10 + f2
        }
    };
    proof {
        assert(fm == frac_milli(fpart));
        assert(ip * 1000 + fm == abs_milliunits(uview));
    }
    let total = ip * 1000 + fm;
    if neg {
        -(total as i64)
    } else {
        total as i64
    }
}

} // verus!
