//! Decimal rendering of unsigned integers, used by the delta dump format.

use vstd::prelude::*;
use vstd::string::StringExecFns;

verus! {

/// The character for one decimal digit.
pub open spec fn digit_char(d: int) -> char {
    if d == 0 {
        '0'
    } else if d == 1 {
        '1'
    } else if d == 2 {
        '2'
    } else if d == 3 {
        '3'
    } else if d == 4 {
        '4'
    } else if d == 5 {
        '5'
    } else if d == 6 {
        '6'
    } else if d == 7 {
        '7'
    } else if d == 8 {
        '8'
    } else {
        '9'
    }
}

/// The usual decimal rendering of `n >= 0`, without leading zeros (except
/// for zero itself).
pub open spec fn dec_digits(n: int) -> Seq<char>
    decreases n,
{
    if n < 10 {
        seq![digit_char(n)]
    } else {
        dec_digits(n / 10) + seq![digit_char(n % 10)]
    }
}

/// The digit characters of `ds[k..]`, least significant digit first in
/// `ds`, emitted most significant first.
pub open spec fn digits_rev_range(ds: Seq<u8>, k: int) -> Seq<char>
    decreases ds.len() - k,
{
    if k < 0 || k >= ds.len() {
        Seq::empty()
    } else {
        digits_rev_range(ds, k + 1) + seq![digit_char(ds[k] as int)]
    }
}

proof fn lemma_digits_rev_range_push(ds: Seq<u8>, d: u8, k: int)
    requires
        0 <= k <= ds.len(),
    ensures
        digits_rev_range(ds.push(d), k) == seq![digit_char(d as int)] + digits_rev_range(ds, k),
    decreases ds.len() - k,
{
    let t = ds.push(d);
    if k == ds.len() {
        assert(t[k] == d);
        assert(digits_rev_range(t, k) == digits_rev_range(t, k + 1) + seq![digit_char(d as int)]);
        assert(digits_rev_range(t, k + 1) =~= Seq::<char>::empty());
        assert(digits_rev_range(ds, k) =~= Seq::<char>::empty());
        assert(digits_rev_range(t, k) =~= seq![digit_char(d as int)] + digits_rev_range(ds, k));
    } else {
        lemma_digits_rev_range_push(ds, d, k + 1);
        assert(t[k] == ds[k]);
        assert(digits_rev_range(t, k) =~= seq![digit_char(d as int)] + digits_rev_range(ds, k));
    }
}

fn digit_str(d: u8) -> (r: &'static str)
    requires
        d < 10,
    ensures
        r@ == seq![digit_char(d as int)],
{
    proof {
        reveal_strlit("0");
        reveal_strlit("1");
        reveal_strlit("2");
        reveal_strlit("3");
        reveal_strlit("4");
        reveal_strlit("5");
        reveal_strlit("6");
        reveal_strlit("7");
        reveal_strlit("8");
        reveal_strlit("9");
    }
    let r = match d {
        0 => "0",
        1 => "1",
        2 => "2",
        3 => "3",
        4 => "4",
        5 => "5",
        6 => "6",
        7 => "7",
        8 => "8",
        _ => "9",
    };
    proof {
        assert(r@ =~= seq![digit_char(d as int)]);
    }
    r
}

/// Render `n` in decimal.
pub fn usize_to_decimal(n: usize) -> (r: String)
    ensures
        r@ == dec_digits(n as int),
{
    let mut digits: Vec<u8> = Vec::new();
    let mut m: usize = n;
    while m >= 10
        invariant
            dec_digits(n as int) =~= dec_digits(m as int) + digits_rev_range(digits@, 0),
            forall|j: int| 0 <= j < digits@.len() ==> #[trigger] digits@[j] < 10,
        decreases m,
    {
        let ghost pre = digits@;
        let d = (m % 10) as u8;
        digits.push(d);
        m = m / 10;
        proof {
            lemma_digits_rev_range_push(pre, d, 0);
            assert(dec_digits(n as int) =~= dec_digits(m as int) + digits_rev_range(digits@, 0));
        }
    }
    let ghost pre = digits@;
    let d = m as u8;
    digits.push(d);
    proof {
        lemma_digits_rev_range_push(pre, d, 0);
        assert(dec_digits(m as int) == seq![digit_char(m as int)]);
        assert(dec_digits(n as int) =~= digits_rev_range(digits@, 0));
    }
    let mut out = String::new();
    let mut k = digits.len();
    while k > 0
        invariant
            0 <= k <= digits@.len(),
            out@ == digits_rev_range(digits@, k as int),
            forall|j: int| 0 <= j < digits@.len() ==> #[trigger] digits@[j] < 10,
        decreases k,
    {
        k = k - 1;
        let piece = digit_str(digits[k]);
        out.append(piece);
        proof {
            assert(out@ =~= digits_rev_range(digits@, k as int));
        }
    }
    proof {
        assert(out@ == digits_rev_range(digits@, 0));
    }
    out
}

} // verus!
