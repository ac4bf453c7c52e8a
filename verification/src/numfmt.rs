//! Decimal formatting of counter values: digit decomposition, zero padding to
//! the fixed slot count, and rendering a number as a string of digit characters.

use vstd::prelude::*;
use vstd::string::StringExecFns;

verus! {

/// Number of digit slots a counter value is padded to.
pub const PAD_LENGTH: usize = 7;

/// The character for one decimal digit value.
pub open spec fn spec_digit_char(d: u64) -> char {
    if d == 0 {
        '0'
    } else if d == 1 {
        '1'
    } else if d == 2 {
        '2'
    } else if d == 3 {
        '3'
    } else if d == 4 {
        '4'
    } else if d == 5 {
        '5'
    } else if d == 6 {
        '6'
    } else if d == 7 {
        '7'
    } else if d == 8 {
        '8'
    } else {
        '9'
    }
}

/// Decimal digit values of `n`, most significant first; `0` is `[0]`.
pub open spec fn spec_digits(n: u64) -> Seq<u64>
    decreases n,
{
    if n < 10 {
        seq![n]
    } else {
        spec_digits((n / 10) as u64).push((n % 10) as u64)
    }
}

/// The digit characters of a digit-value sequence.
pub open spec fn chars_of(ds: Seq<u64>) -> Seq<char> {
    ds.map_values(|d: u64| spec_digit_char(d))
}

/// The decimal string of `n`.
pub open spec fn spec_dec(n: u64) -> Seq<char> {
    chars_of(spec_digits(n))
}

/// Digit values of `n` left-padded with zeros to `PAD_LENGTH` slots; wider
/// values keep all their digits (the fixed-width assumption is broken, not
/// repaired by truncation).
pub open spec fn spec_pad7(n: u64) -> Seq<u64> {
    let ds = spec_digits(n);
    if ds.len() >= PAD_LENGTH {
        ds
    } else {
        Seq::new((PAD_LENGTH - ds.len()) as nat, |i: int| 0u64) + ds
    }
}

/// Every decimal digit value is below ten.
pub proof fn lemma_digits_bounded(n: u64)
    ensures
        forall|k: int| 0 <= k < spec_digits(n).len() ==> spec_digits(n)[k] < 10,
        spec_digits(n).len() >= 1,
    decreases n,
{
    if n >= 10 {
        lemma_digits_bounded((n / 10) as u64);
    }
}

/// Every padded digit value is below ten.
pub proof fn lemma_pad7_bounded(n: u64)
    ensures
        forall|k: int| 0 <= k < spec_pad7(n).len() ==> spec_pad7(n)[k] < 10,
{
    lemma_digits_bounded(n);
}

/// One digit value as a one-character string.
pub fn digit_str(d: u64) -> (r: &'static str)
    requires
        d < 10,
    ensures
        r@ == seq![spec_digit_char(d)],
{
    let r: &'static str = match d {
        0 => "0",
        1 => "1",
        2 => "2",
        3 => "3",
        4 => "4",
        5 => "5",
        6 => "6",
        7 => "7",
        8 => "8",
        _ => "9",
    };
    proof {
        reveal_strlit("0");
        reveal_strlit("1");
        reveal_strlit("2");
        reveal_strlit("3");
        reveal_strlit("4");
        reveal_strlit("5");
        reveal_strlit("6");
        reveal_strlit("7");
        reveal_strlit("8");
        reveal_strlit("9");
        assert(r@ =~= seq![spec_digit_char(d)]);
    }
    r
}

/// Decimal digit values of `n`, most significant first.
pub fn digits_of(n: u64) -> (r: Vec<u64>)
    ensures
        r@ == spec_digits(n),
{
    let mut rev: Vec<u64> = Vec::new();
    let mut m: u64 = n;
    rev.push(m % 10);
    m = m / 10;
    proof {
        assert(rev@.reverse() =~= seq![(n % 10) as u64]);
        if m == 0 {
            assert(spec_digits(n) =~= rev@.reverse());
        } else {
            assert(spec_digits(n) =~= spec_digits(m) + rev@.reverse());
        }
    }
    while m > 0
        invariant
            m == 0 ==> spec_digits(n) == rev@.reverse(),
            m > 0 ==> spec_digits(n) == spec_digits(m) + rev@.reverse(),
        decreases m,
    {
        let ghost prev = rev@;
        let ghost m0 = m;
        let x = m % 10;
        rev.push(x);
        m = m / 10;
        proof {
            assert(rev@.reverse() =~= seq![x] + prev.reverse());
            if m == 0 {
                assert(spec_digits(m0) =~= seq![x]);
                assert(spec_digits(n) =~= rev@.reverse());
            } else {
                assert(spec_digits(m0) =~= spec_digits(m).push(x));
                assert(spec_digits(m).push(x) + prev.reverse() =~= spec_digits(m) + (seq![x]
                    + prev.reverse()));
                assert(spec_digits(n) =~= spec_digits(m) + rev@.reverse());
            }
        }
    }
    let mut r: Vec<u64> = Vec::new();
    let n_digits = rev.len();
    let mut i: usize = n_digits;
    while i > 0
        invariant
            i <= n_digits,
            n_digits == rev@.len(),
            r@.len() == n_digits - i,
            forall|k: int| 0 <= k < r@.len() ==> r@[k] == rev@[n_digits - 1 - k],
            spec_digits(n) == rev@.reverse(),
        decreases i,
    {
        i = i - 1;
        let d = rev[i];
        r.push(d);
    }
    proof {
        assert(r@ =~= rev@.reverse());
    }
    r
}

/// Digit values of `n` zero-padded to `PAD_LENGTH` slots.
pub fn pad7(n: u64) -> (r: Vec<u64>)
    ensures
        r@ == spec_pad7(n),
        forall|k: int| 0 <= k < r@.len() ==> r@[k] < 10,
        r@.len() >= PAD_LENGTH,
{
    let ds = digits_of(n);
    proof {
        lemma_digits_bounded(n);
    }
    if ds.len() >= PAD_LENGTH {
        proof {
            assert(ds@ =~= spec_pad7(n));
        }
        ds
    } else {
        let n_zeros = PAD_LENGTH - ds.len();
        let mut r: Vec<u64> = Vec::new();
        let mut j: usize = 0;
        while j < n_zeros
            invariant
                j <= n_zeros,
                r@ =~= Seq::new(j as nat, |i: int| 0u64),
            decreases n_zeros - j,
        {
            r.push(0);
            j = j + 1;
            proof {
                assert(r@ =~= Seq::new(j as nat, |i: int| 0u64));
            }
        }
        let mut k: usize = 0;
        while k < ds.len()
            invariant
                k <= ds@.len(),
                n_zeros == PAD_LENGTH - ds@.len(),
                ds@ == spec_digits(n),
                ds@.len() < PAD_LENGTH,
                r@ =~= Seq::new(n_zeros as nat, |i: int| 0u64) + ds@.take(k as int),
            decreases ds@.len() - k,
        {
            let d = ds[k];
            r.push(d);
            k = k + 1;
            proof {
                assert(ds@.take(k as int) =~= ds@.take(k as int - 1).push(ds@[k as int - 1]));
                assert(r@ =~= Seq::new(n_zeros as nat, |i: int| 0u64) + ds@.take(k as int));
            }
        }
        proof {
            assert(ds@.take(ds@.len() as int) =~= ds@);
            assert(r@ =~= spec_pad7(n));
        }
        r
    }
}

/// The decimal string of `n`.
pub fn to_decimal(n: u64) -> (r: String)
    ensures
        r@ == spec_dec(n),
{
    let ds = digits_of(n);
    proof {
        lemma_digits_bounded(n);
    }
    let mut s = String::new();
    let mut i: usize = 0;
    while i < ds.len()
        invariant
            i <= ds@.len(),
            ds@ == spec_digits(n),
            forall|k: int| 0 <= k < ds@.len() ==> ds@[k] < 10,
            s@ =~= chars_of(ds@.take(i as int)),
        decreases ds@.len() - i,
    {
        let piece = digit_str(ds[i]);
        s.append(piece);
        i = i + 1;
        proof {
            assert(s@ =~= chars_of(ds@.take(i as int)));
        }
    }
    proof {
        assert(ds@.take(ds@.len() as int) =~= ds@);
        assert(s@ =~= spec_dec(n));
    }
    s
}

} // verus!
