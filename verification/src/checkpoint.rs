//! The durable resume point. The watermark index is persisted as its
//! decimal numeral and read back on startup; both directions are specified
//! against one mathematical reading of a digit string, so a written
//! checkpoint always reads back as the same index.

use crate::naming::push_char;
use vstd::arithmetic::div_mod::lemma_fundamental_div_mod;
use vstd::prelude::*;

verus! {

/// True of a decimal digit character.
pub open spec fn is_digit(c: char) -> bool {
    ('0' as u32) <= (c as u32) && (c as u32) <= ('9' as u32)
}

/// The numeric value of a digit character.
pub open spec fn digit_val(c: char) -> int {
    (c as u32) - ('0' as u32)
}

/// True when the string consists of digits only.
pub open spec fn all_digits(s: Seq<char>) -> bool {
    forall|k: int| 0 <= k < s.len() ==> is_digit(s[k])
}

/// The number a digit string denotes, most significant digit first.
pub open spec fn decimal_value(s: Seq<char>) -> int
    decreases s.len(),
{
    if s.len() == 0 {
        0
    } else {
        decimal_value(s.drop_last()) * 10 + digit_val(s.last())
    }
}

/// True of the canonical decimal numeral: at least one digit, digits only,
/// and no leading zero except in "0" itself.
pub open spec fn is_decimal(s: Seq<char>) -> bool {
    &&& s.len() >= 1
    &&& all_digits(s)
    &&& s.len() > 1 ==> s[0] != '0'
}

/// Ten to the `k`.
pub open spec fn pow10(k: nat) -> int
    decreases k,
{
    if k == 0 {
        1
    } else {
        10 * pow10((k - 1) as nat)
    }
}

/// The number a digit vector denotes, least significant digit first.
pub open spec fn lsd_value(s: Seq<u8>) -> int
    decreases s.len(),
{
    if s.len() == 0 {
        0
    } else {
        s[0] + 10 * lsd_value(s.drop_first())
    }
}

/// Appending a digit at the deep end adds it at the next power of ten.
proof fn lemma_lsd_push(s: Seq<u8>, d: u8)
    ensures
        lsd_value(s.push(d)) == lsd_value(s) + d * pow10(s.len() as nat),
    decreases s.len(),
{
    if s.len() == 0 {
        assert(s.push(d).drop_first() =~= Seq::<u8>::empty());
        assert(s.push(d)[0] == d);
        assert(lsd_value(Seq::<u8>::empty()) == 0);
        assert(s.push(d).len() == 1);
        assert(lsd_value(s.push(d)) == s.push(d)[0] + 10 * lsd_value(s.push(d).drop_first()));
        assert(lsd_value(s) == 0);
        assert(pow10(s.len() as nat) == 1);
        assert(lsd_value(s.push(d)) == lsd_value(s) + d * pow10(s.len() as nat));
    } else {
        let rest = s.drop_first();
        assert(s.push(d).drop_first() =~= rest.push(d));
        assert(s.push(d)[0] == s[0]);
        lemma_lsd_push(rest, d);
        let p = pow10(rest.len() as nat);
        assert(lsd_value(s.push(d)) == s[0] + 10 * (lsd_value(rest) + (d as int) * p));
        assert(10 * (lsd_value(rest) + (d as int) * p) == 10 * lsd_value(rest) + 10 * ((d as int)
            * p));
        assert(10 * ((d as int) * p) == (d as int) * (10 * p)) by (nonlinear_arith);
        assert(pow10(s.len() as nat) == 10 * p);
        assert(lsd_value(s) == s[0] + 10 * lsd_value(rest));
        assert(lsd_value(s.push(d)) == lsd_value(s) + d * pow10(s.len() as nat));
    }
}

/// A digit string denotes a nonnegative number.
proof fn lemma_decimal_value_nonneg(s: Seq<char>)
    requires
        all_digits(s),
    ensures
        decimal_value(s) >= 0,
    decreases s.len(),
{
    if s.len() > 0 {
        assert(all_digits(s.drop_last()));
        lemma_decimal_value_nonneg(s.drop_last());
    }
}

/// Extending a digit string never shrinks its value.
proof fn lemma_decimal_prefix_le(s: Seq<char>, i: int)
    requires
        all_digits(s),
        0 <= i <= s.len(),
    ensures
        decimal_value(s.subrange(0, i)) <= decimal_value(s),
    decreases s.len() - i,
{
    if i < s.len() {
        lemma_decimal_prefix_le(s, i + 1);
        let shorter = s.subrange(0, i);
        let longer = s.subrange(0, i + 1);
        assert(longer.drop_last() =~= shorter);
        assert(all_digits(shorter));
        lemma_decimal_value_nonneg(shorter);
    } else {
        assert(s.subrange(0, i) =~= s);
    }
}

/// The digit character for a value below ten.
fn digit_char(d: u8) -> (c: char)
    requires
        d < 10,
    ensures
        is_digit(c),
        digit_val(c) == d,
{
    let b: u8 = 48 + d;
    b as char
}

/// Renders a work index as its canonical decimal numeral — the form the
/// checkpoint file holds.
pub fn format_u64(n: u64) -> (r: String)
    ensures
        is_decimal(r@),
        decimal_value(r@) == n,
{
    let mut digits: Vec<u8> = Vec::new();
    let mut m = n;
    loop
        invariant_except_break
            digits@.len() > 0 ==> m > 0,
        invariant
            lsd_value(digits@) + m * pow10(digits@.len() as nat) == n,
            forall|k: int| 0 <= k < digits@.len() ==> digits@[k] < 10,
        ensures
            m == 0,
            digits@.len() >= 1,
            lsd_value(digits@) == n,
            forall|k: int| 0 <= k < digits@.len() ==> digits@[k] < 10,
            digits@.len() > 1 ==> digits@.last() != 0,
        decreases m,
    {
        let ghost oldd = digits@;
        let ghost oldm = m as int;
        let d: u8 = (m % 10) as u8;
        m = m / 10;
        digits.push(d);
        proof {
            lemma_fundamental_div_mod(oldm, 10);
            lemma_lsd_push(oldd, d);
            let p = pow10(oldd.len() as nat);
            assert(((d as int) + 10 * (m as int)) * p == (d as int) * p + (m as int) * (10 * p))
                by (nonlinear_arith);
            assert(lsd_value(digits@) + m * pow10(digits@.len() as nat) == n);
        }
        if m == 0 {
            break ;
        }
    }
    let mut r = String::new();
    let mut k = digits.len();
    while k > 0
        invariant
            0 <= k <= digits@.len(),
            digits@.len() >= 1,
            lsd_value(digits@) == n,
            forall|j: int| 0 <= j < digits@.len() ==> digits@[j] < 10,
            digits@.len() > 1 ==> digits@.last() != 0,
            r@.len() == digits@.len() - k,
            all_digits(r@),
            digits@.len() > 1 ==> (r@.len() > 0 ==> digit_val(r@[0]) == digits@.last()),
            decimal_value(r@) == lsd_value(digits@.subrange(k as int, digits@.len() as int)),
        decreases k,
    {
        k = k - 1;
        let ghost oldr = r@;
        let c = digit_char(digits[k]);
        push_char(&mut r, c);
        proof {
            let tail = digits@.subrange(k as int, digits@.len() as int);
            let tail2 = digits@.subrange(k as int + 1, digits@.len() as int);
            assert(tail.drop_first() =~= tail2);
            assert(r@.drop_last() =~= oldr);
            assert(decimal_value(r@) == decimal_value(oldr) * 10 + digit_val(c));
            assert(tail[0] == digits@[k as int]);
            assert(lsd_value(tail) == digits@[k as int] + 10 * lsd_value(tail2));
        }
    }
    proof {
        assert(digits@.subrange(0, digits@.len() as int) =~= digits@);
        if digits@.len() > 1 {
            assert(digit_val(r@[0]) == digits@.last());
            assert(r@[0] != '0');
        }
    }
    r
}

/// Reads a decimal numeral back into a work index: `Some` exactly on a
/// nonempty all-digit string whose value fits in 64 bits, and then the
/// value is the number the string denotes.
pub fn parse_u64(s: &str) -> (r: Option<u64>)
    ensures
        r is Some <==> (s@.len() >= 1 && all_digits(s@) && decimal_value(s@) <= u64::MAX),
        r is Some ==> r->0 == decimal_value(s@),
{
    let cs = crate::naming::str_chars(s);
    let n = cs.len();
    if n == 0 {
        return None;
    }
    let mut val: u64 = 0;
    let mut k: usize = 0;
    while k < n
        invariant
            0 <= k <= n,
            n == cs@.len(),
            cs@ == s@,
            n >= 1,
            all_digits(s@.subrange(0, k as int)),
            val == decimal_value(s@.subrange(0, k as int)),
        decreases n - k,
    {
        let c = cs[k];
        let u = c as u32;
        if !(48 <= u && u <= 57) {
            return None;
        }
        let d: u8 = (u - 48) as u8;
        proof {
            assert(digit_val(c) == d);
        }
        if val > (u64::MAX - (d as u64)) / 10 {
            proof {
                let prefix = s@.subrange(0, k as int + 1);
                assert(prefix.drop_last() =~= s@.subrange(0, k as int));
                assert(all_digits(prefix));
                assert(decimal_value(prefix) == val * 10 + d);
                assert(val * 10 + d > u64::MAX) by {
                    lemma_fundamental_div_mod((u64::MAX - (d as u64)) as int, 10);
                };
                if all_digits(s@) {
                    lemma_decimal_prefix_le(s@, k as int + 1);
                }
            }
            return None;
        }
        proof {
            assert(val * 10 + d <= u64::MAX) by {
                lemma_fundamental_div_mod((u64::MAX - (d as u64)) as int, 10);
            };
            let prefix = s@.subrange(0, k as int + 1);
            assert(prefix.drop_last() =~= s@.subrange(0, k as int));
        }
        val = val * 10 + (d as u64);
        k = k + 1;
    }
    proof {
        assert(s@.subrange(0, n as int) =~= s@);
    }
    Some(val)
}

/// The per-completion persistence rule: a worker records a new resume
/// point exactly when its unit both did work and was reported safe to
/// commit, and then it records the committed index itself.
pub fn should_persist(did_work: bool, signal: Option<u64>) -> (p: Option<u64>)
    ensures
        p is Some <==> (did_work && signal is Some),
        p is Some ==> p->0 == signal->0,
{
    if did_work {
        signal
    } else {
        None
    }
}

} // verus!
