//! Character-level helpers: decimal formatting with zero padding, string
//! equality, and path joining. All results are pinned down exactly at the
//! level of `Seq<char>`.
use vstd::prelude::*;

verus! {

use vstd::string::StrSliceExecFns;
use vstd::string::StringExecFns;

/// The character for a single decimal digit.
pub open spec fn digit_char(d: nat) -> char
    recommends
        d < 10,
{
    if d == 0 {
        '0'
    } else if d == 1 {
        '1'
    } else if d == 2 {
        '2'
    } else if d == 3 {
        '3'
    } else if d == 4 {
        '4'
    } else if d == 5 {
        '5'
    } else if d == 6 {
        '6'
    } else if d == 7 {
        '7'
    } else if d == 8 {
        '8'
    } else {
        '9'
    }
}

/// The decimal digits of `n`, most significant first.
pub open spec fn spec_decimal(n: nat) -> Seq<char>
    decreases n,
{
    if n < 10 {
        seq![digit_char(n)]
    } else {
        spec_decimal(n / 10).push(digit_char(n % 10))
    }
}

/// `n` in decimal, left-padded with zeros to at least `width` characters.
pub open spec fn spec_padded(n: nat, width: nat) -> Seq<char> {
    if spec_decimal(n).len() >= width {
        spec_decimal(n)
    } else {
        Seq::new((width - spec_decimal(n).len()) as nat, |i: int| '0') + spec_decimal(n)
    }
}

proof fn lemma_decimal_len_le(n: nat)
    ensures
        spec_decimal(n).len() <= n + 1,
    decreases n,
{
    if n >= 10 {
        lemma_decimal_len_le(n / 10);
    }
}

/// Appends the character for one decimal digit to `s`.
fn push_digit(s: &mut String, d: usize)
    requires
        d < 10,
    ensures
        final(s)@ == old(s)@ + seq![digit_char(d as nat)],
{
    proof {
        reveal_strlit("0123456789");
    }
    let digits: &str = "0123456789";
    let part = digits.substring_char(d, d + 1);
    proof {
        assert(part@ =~= seq![digit_char(d as nat)]);
    }
    s.append(part);
}

/// Appends the decimal digits of `n` to `s`.
pub fn push_decimal(s: &mut String, n: usize)
    ensures
        final(s)@ == old(s)@ + spec_decimal(n as nat),
    decreases n,
{
    if n < 10 {
        push_digit(s, n);
    } else {
        push_decimal(s, n / 10);
        push_digit(s, n % 10);
        proof {
            assert(old(s)@ + spec_decimal((n / 10) as nat) + seq![digit_char((n % 10) as nat)]
                =~= old(s)@ + spec_decimal(n as nat));
        }
    }
}

/// The number of decimal digits of `n`.
fn decimal_len(n: usize) -> (r: usize)
    ensures
        r == spec_decimal(n as nat).len(),
        r >= 1,
    decreases n,
{
    if n < 10 {
        1
    } else {
        proof {
            lemma_decimal_len_le((n / 10) as nat);
        }
        let sub = decimal_len(n / 10);
        sub + 1
    }
}

/// Appends `n` in decimal, zero-padded to at least `width` characters.
pub fn push_padded(s: &mut String, n: usize, width: usize)
    ensures
        final(s)@ == old(s)@ + spec_padded(n as nat, width as nat),
{
    let len = decimal_len(n);
    if len >= width {
        push_decimal(s, n);
    } else {
        let mut i: usize = 0;
        while i < width - len
            invariant
                len == spec_decimal(n as nat).len(),
                len < width,
                i <= width - len,
                s@ == old(s)@ + Seq::new(i as nat, |k: int| '0'),
            decreases width - len - i,
        {
            push_digit(s, 0);
            i = i + 1;
            proof {
                assert(old(s)@ + Seq::new((i - 1) as nat, |k: int| '0') + seq![digit_char(0)]
                    =~= old(s)@ + Seq::new(i as nat, |k: int| '0'));
            }
        }
        push_decimal(s, n);
        proof {
            assert(old(s)@ + Seq::new((width - len) as nat, |k: int| '0') + spec_decimal(n as nat)
                =~= old(s)@ + spec_padded(n as nat, width as nat));
        }
    }
}

/// Compares two string slices by their character sequences.
pub fn str_eq(a: &str, b: &str) -> (r: bool)
    ensures
        r == (a@ == b@),
{
    let sa = a.to_owned();
    let sb = b.to_owned();
    sa == sb
}

/// Joins a directory path and a file name with a `/` separator.
pub fn join_path(base: &str, name: &str) -> (r: String)
    ensures
        r@ == base@ + "/"@ + name@,
{
    let mut s = base.to_owned();
    s.append("/");
    s.append(name);
    s
}

} // verus!
