//! Decimal text of integers, as the library writes and reads identifiers,
//! revision numbers and timestamps.

use vstd::prelude::*;
use vstd::string::*;

verus! {

pub open spec fn digit_char(d: nat) -> char {
    if d == 0 {
        '0'
    } else if d == 1 {
        '1'
    } else if d == 2 {
        '2'
    } else if d == 3 {
        '3'
    } else if d == 4 {
        '4'
    } else if d == 5 {
        '5'
    } else if d == 6 {
        '6'
    } else if d == 7 {
        '7'
    } else if d == 8 {
        '8'
    } else {
        '9'
    }
}

/// Decimal digits of `n`, without leading zeros ("0" for zero).
pub open spec fn dec(n: nat) -> Seq<char>
    decreases n,
{
    if n < 10 {
        seq![digit_char(n)]
    } else {
        dec(n / 10).push(digit_char(n % 10))
    }
}

pub open spec fn zeros(k: int) -> Seq<char>
    decreases k,
{
    if k <= 0 {
        Seq::empty()
    } else {
        zeros(k - 1).push('0')
    }
}

/// Decimal digits of `n`, padded with leading zeros to `width` characters.
pub open spec fn dec_pad(n: nat, width: nat) -> Seq<char> {
    zeros(width - dec(n).len()) + dec(n)
}

fn digit_str(d: u64) -> (r: &'static str)
    requires
        d < 10,
    ensures
        r@ == seq![digit_char(d as nat)],
{
    proof {
        reveal_strlit("0");
        reveal_strlit("1");
        reveal_strlit("2");
        reveal_strlit("3");
        reveal_strlit("4");
        reveal_strlit("5");
        reveal_strlit("6");
        reveal_strlit("7");
        reveal_strlit("8");
        reveal_strlit("9");
    }
    if d == 0 {
        "0"
    } else if d == 1 {
        "1"
    } else if d == 2 {
        "2"
    } else if d == 3 {
        "3"
    } else if d == 4 {
        "4"
    } else if d == 5 {
        "5"
    } else if d == 6 {
        "6"
    } else if d == 7 {
        "7"
    } else if d == 8 {
        "8"
    } else {
        "9"
    }
}

/// Appends the decimal digits of `n` to `s`.
pub fn push_dec(s: &mut String, n: u64)
    ensures
        final(s)@ == old(s)@ + dec(n as nat),
    decreases n,
{
    if n < 10 {
        s.append(digit_str(n));
    } else {
        push_dec(s, n / 10);
        s.append(digit_str(n % 10));
    }
}

/// Appends the decimal digits of `n`, padded with zeros to `width`.
pub fn push_dec_pad(s: &mut String, n: u64, width: u64)
    ensures
        final(s)@ == old(s)@ + dec_pad(n as nat, width as nat),
{
    let ghost s0 = s@;
    let mut digits: String = String::new();
    push_dec(&mut digits, n);
    let len = digits.as_str().unicode_len() as u64;
    let mut k: u64 = 0;
    while k + len < width
        invariant
            len == dec(n as nat).len(),
            s@ == s0 + zeros(k as int),
            k + len <= width || k == 0,
        decreases width - k,
    {
        s.append("0");
        proof {
            reveal_strlit("0");
        }
        k += 1;
        assert(s@ =~= s0 + zeros(k as int));
    }
    assert(zeros(k as int) == zeros(width - dec(n as nat).len()));
    s.append(digits.as_str());
    assert(s@ =~= s0 + dec_pad(n as nat, width as nat));
}

/// The decimal text of `n`.
pub fn dec_string(n: u64) -> (r: String)
    ensures
        r@ == dec(n as nat),
{
    let mut s = String::new();
    push_dec(&mut s, n);
    assert(s@ =~= dec(n as nat));
    s
}

pub open spec fn is_digit(c: char) -> bool {
    '0' <= c <= '9'
}

pub open spec fn digit_val(c: char) -> nat {
    (c as u32 - '0' as u32) as nat
}

/// Value of a sequence of decimal digits.
pub open spec fn digits_val(t: Seq<char>) -> nat
    decreases t.len(),
{
    if t.len() == 0 {
        0
    } else {
        digits_val(t.drop_last()) * 10 + digit_val(t.last())
    }
}

pub open spec fn all_digits(t: Seq<char>) -> bool {
    forall|i: int| 0 <= i < t.len() ==> is_digit(#[trigger] t[i])
}

/// What `str::parse::<u64>` gives: an optional `+`, then one or more
/// decimal digits whose value fits in 64 bits.
pub open spec fn parse_u64_spec(s: Seq<char>) -> Option<u64> {
    let t = if s.len() > 0 && s[0] == '+' {
        s.drop_first()
    } else {
        s
    };
    if t.len() > 0 && all_digits(t) && digits_val(t) <= u64::MAX {
        Some(digits_val(t) as u64)
    } else {
        None
    }
}

proof fn lemma_digits_val_push(t: Seq<char>, c: char)
    ensures
        digits_val(t.push(c)) == digits_val(t) * 10 + digit_val(c),
{
    assert(t.push(c).drop_last() =~= t);
}

proof fn lemma_digits_val_mono(t: Seq<char>, i: int)
    requires
        0 <= i <= t.len(),
        all_digits(t),
    ensures
        digits_val(t.take(i)) <= digits_val(t),
    decreases t.len() - i,
{
    if i < t.len() {
        lemma_digits_val_mono(t, i + 1);
        assert(t.take(i + 1) =~= t.take(i).push(t[i]));
        lemma_digits_val_push(t.take(i), t[i]);
    } else {
        assert(t.take(i) =~= t);
    }
}

/// Decimal parse of an unsigned 64-bit integer, as `str::parse::<u64>`.
pub fn parse_u64(s: &str) -> (r: Option<u64>)
    ensures
        r == parse_u64_spec(s@),
{
    let n = s.unicode_len();
    let mut start: usize = 0;
    if n > 0 && s.get_char(0) == '+' {
        start = 1;
    }
    let ghost t = if s@.len() > 0 && s@[0] == '+' { s@.drop_first() } else { s@ };
    assert(t =~= s@.skip(start as int));
    if start >= n {
        return None;
    }
    let mut acc: u64 = 0;
    let mut i: usize = start;
    while i < n
        invariant
            start <= i <= n,
            n == s@.len(),
            t == s@.skip(start as int),
            t == (if s@.len() > 0 && s@[0] == '+' { s@.drop_first() } else { s@ }),
            all_digits(t.take(i - start)),
            acc as nat == digits_val(t.take(i - start)),
        decreases n - i,
    {
        let c = s.get_char(i);
        assert(t[i - start] == c);
        assert(t.take(i - start + 1) =~= t.take(i - start).push(c));
        if !('0' <= c && c <= '9') {
            assert(!is_digit(t[i - start]));
            assert(!all_digits(t));
            assert(parse_u64_spec(s@) is None);
            return None;
        }
        let d = (c as u32 - '0' as u32) as u64;
        proof {
            lemma_digits_val_push(t.take(i - start), c);
        }
        if acc > (u64::MAX - d) / 10 {
            proof {
                assert(digits_val(t.take(i - start + 1)) > u64::MAX) by (nonlinear_arith)
                    requires
                        acc > (u64::MAX - d) / 10,
                        digits_val(t.take(i - start + 1)) == acc * 10 + d,
                        d < 10,
                ;
                if all_digits(t) {
                    lemma_digits_val_mono(t, i - start + 1);
                }
                assert(parse_u64_spec(s@) is None);
            }
            return None;
        }
        assert(acc * 10 + d <= u64::MAX) by (nonlinear_arith)
            requires
                acc <= (u64::MAX - d) / 10,
                d < 10,
        ;
        acc = acc * 10 + d;
        i += 1;
    }
    assert(t.take(n - start) =~= t);
    Some(acc)
}

} // verus!

verus! {

proof fn lemma_digit_char(d: nat)
    requires
        d < 10,
    ensures
        is_digit(digit_char(d)),
        digit_val(digit_char(d)) == d,
{
}

/// The decimal text of `n` reads back as `n`.
pub proof fn lemma_dec_val(n: nat)
    ensures
        all_digits(dec(n)),
        digits_val(dec(n)) == n,
        dec(n).len() >= 1,
        n >= 1 ==> dec(n)[0] != '0',
    decreases n,
{
    if n < 10 {
        lemma_digit_char(n);
        assert(dec(n).drop_last() =~= Seq::<char>::empty());
        assert(digits_val(Seq::<char>::empty()) == 0);
        assert(dec(n).last() == digit_char(n));
        assert(digits_val(dec(n)) == digits_val(dec(n).drop_last()) * 10 + digit_val(dec(n).last()));
    } else {
        lemma_dec_val(n / 10);
        lemma_digit_char(n % 10);
        let t = dec(n / 10);
        lemma_digits_val_push(t, digit_char(n % 10));
        assert(dec(n)[0] == t[0]);
        assert forall|i: int| 0 <= i < dec(n).len() implies is_digit(#[trigger] dec(n)[i]) by {
            if i < t.len() {
                assert(dec(n)[i] == t[i]);
            }
        }
    }
}

proof fn lemma_zeros_val(k: int)
    ensures
        digits_val(zeros(k)) == 0,
        all_digits(zeros(k)),
        zeros(k).len() == if k <= 0 { 0 } else { k },
        forall|i: int| 0 <= i < zeros(k).len() ==> #[trigger] zeros(k)[i] == '0',
    decreases k,
{
    if k > 0 {
        lemma_zeros_val(k - 1);
        assert(zeros(k).drop_last() =~= zeros(k - 1));
        assert forall|i: int| 0 <= i < zeros(k).len() implies #[trigger] zeros(k)[i] == '0' by {
            if i < k - 1 {
                assert(zeros(k)[i] == zeros(k - 1)[i]);
            }
        }
    }
}

proof fn lemma_leading_zeros_val(k: int, t: Seq<char>)
    ensures
        digits_val(zeros(k) + t) == digits_val(t),
    decreases t.len(),
{
    if t.len() == 0 {
        lemma_zeros_val(k);
        assert(zeros(k) + t =~= zeros(k));
    } else {
        lemma_leading_zeros_val(k, t.drop_last());
        assert((zeros(k) + t).drop_last() =~= zeros(k) + t.drop_last());
    }
}

/// Distinct numbers have distinct padded decimal texts.
pub proof fn lemma_dec_pad_injective(a: nat, b: nat, w: nat)
    requires
        dec_pad(a, w) == dec_pad(b, w),
    ensures
        a == b,
{
    lemma_dec_val(a);
    lemma_dec_val(b);
    lemma_leading_zeros_val(w - dec(a).len(), dec(a));
    lemma_leading_zeros_val(w - dec(b).len(), dec(b));
}

/// Padded decimal text is digits, at least one, and reads back as its
/// number.
pub proof fn lemma_dec_pad_val(n: nat, w: nat)
    ensures
        all_digits(dec_pad(n, w)),
        digits_val(dec_pad(n, w)) == n,
        dec_pad(n, w).len() >= 1,
{
    lemma_dec_val(n);
    let k = w - dec(n).len();
    lemma_zeros_val(k);
    lemma_leading_zeros_val(k, dec(n));
    let z = zeros(k);
    assert forall|i: int| 0 <= i < dec_pad(n, w).len() implies is_digit(#[trigger] dec_pad(n, w)[i]) by {
        if i < z.len() {
            assert(dec_pad(n, w)[i] == z[i]);
        } else {
            assert(dec_pad(n, w)[i] == dec(n)[i - z.len()]);
        }
    }
}

/// A name made of a fixed prefix and a zero-padded number.
pub open spec fn numbered(prefix: Seq<char>, n: nat, width: nat) -> Seq<char> {
    prefix + dec_pad(n, width)
}

pub proof fn lemma_numbered_injective(prefix: Seq<char>, a: nat, b: nat, w: nat)
    requires
        numbered(prefix, a, w) == numbered(prefix, b, w),
    ensures
        a == b,
{
    let x = numbered(prefix, a, w);
    assert(dec_pad(a, w) =~= x.skip(prefix.len() as int));
    assert(dec_pad(b, w) =~= x.skip(prefix.len() as int));
    lemma_dec_pad_injective(a, b, w);
}

/// Builds `prefix` followed by `n` padded to `width` digits.
pub fn numbered_string(prefix: &str, n: u64, width: u64) -> (r: String)
    ensures
        r@ == numbered(prefix@, n as nat, width as nat),
{
    let mut s = prefix.to_string();
    push_dec_pad(&mut s, n, width);
    s
}

/// Whether one of `taken` is the name `s`.
pub open spec fn names_contain(taken: Seq<String>, s: Seq<char>) -> bool {
    exists|i: int| 0 <= i < taken.len() && #[trigger] taken[i]@ == s
}

/// The first name `prefix + n` (n counted from `start`) that is not taken.
/// Every smaller candidate is taken, so the result is the one a linear
/// search would reach.
pub fn first_free(prefix: &str, taken: &Vec<String>, start: u64, width: u64) -> (r: (String, u64))
    requires
        start + taken.len() < u64::MAX,
    ensures
        r.0@ == numbered(prefix@, r.1 as nat, width as nat),
        start <= r.1 <= start + taken.len(),
        !names_contain(taken@, r.0@),
        forall|n: int|
            start <= n < r.1 ==> #[trigger] names_contain(taken@, numbered(prefix@, n as nat, width as nat)),
{
    let mut n: u64 = start;
    let ghost mut hit: Set<int> = Set::empty();
    loop
        invariant
            start <= n,
            n - start == hit.len(),
            hit.finite(),
            start + taken.len() < u64::MAX,
            forall|i: int| hit.contains(i) ==> 0 <= i < taken.len(),
            forall|i: int|
                hit.contains(i) ==> exists|k: int|
                    start <= k < n && taken@[i]@ == #[trigger] numbered(prefix@, k as nat, width as nat),
            forall|k: int|
                start <= k < n ==> #[trigger] names_contain(taken@, numbered(prefix@, k as nat, width as nat)),
        decreases start + taken.len() - n,
    {
        proof {
            vstd::set_lib::lemma_int_range(0, taken.len() as int);
            assert(hit.subset_of(vstd::set_lib::set_int_range(0, taken.len() as int)));
            vstd::set_lib::lemma_len_subset(hit, vstd::set_lib::set_int_range(0, taken.len() as int));
        }
        let cand = numbered_string(prefix, n, width);
        let mut j: usize = 0;
        let mut found: bool = false;
        while j < taken.len() && !found
            invariant
                j <= taken.len(),
                !found ==> forall|i: int| 0 <= i < j ==> taken@[i]@ != cand@,
                found ==> j < taken.len() && taken@[j as int]@ == cand@,
            decreases taken.len() - j + (if found { 0int } else { 1int }),
        {
            if taken[j] == cand {
                found = true;
            } else {
                j += 1;
            }
        }
        if !found {
            return (cand, n);
        }
        proof {
            let idx = j as int;
            if hit.contains(idx) {
                let k = choose|k: int|
                    start <= k < n && taken@[idx]@ == #[trigger] numbered(prefix@, k as nat, width as nat);
                lemma_numbered_injective(prefix@, k as nat, n as nat, width as nat);
            }
            let old_hit = hit;
            hit = hit.insert(idx);
            assert forall|i: int| hit.contains(i) implies exists|k: int|
                start <= k < n + 1 && taken@[i]@ == #[trigger] numbered(prefix@, k as nat, width as nat) by {
                if i != idx {
                    assert(old_hit.contains(i));
                    let k = choose|k: int|
                        start <= k < n && taken@[i]@ == #[trigger] numbered(prefix@, k as nat, width as nat);
                    assert(start <= k < n + 1 && taken@[i]@ == numbered(prefix@, k as nat, width as nat));
                } else {
                    let k: int = n as int;
                    assert(start <= k < n + 1 && taken@[i]@ == numbered(prefix@, k as nat, width as nat));
                }
            }
            assert forall|k: int| start <= k < n + 1 implies #[trigger] names_contain(taken@, numbered(prefix@, k as nat, width as nat)) by {
                if k == n {
                    assert(taken@[idx]@ == numbered(prefix@, k as nat, width as nat));
                    assert(0 <= idx < taken.len());
                }
            }
            vstd::set_lib::lemma_int_range(0, taken.len() as int);
            assert(hit.subset_of(vstd::set_lib::set_int_range(0, taken.len() as int)));
            vstd::set_lib::lemma_len_subset(hit, vstd::set_lib::set_int_range(0, taken.len() as int));
        }
        n = n + 1;
    }
}

} // verus!
