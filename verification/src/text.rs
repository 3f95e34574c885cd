//! Decimal text for the displayed numbers.

use vstd::prelude::*;
use vstd::string::StringExecFns;

verus! {

/// The decimal digit character for `d` (0 to 9).
pub open spec fn dec_digit(d: nat) -> char {
    if d == 0 {
        '0'
    } else if d == 1 {
        '1'
    } else if d == 2 {
        '2'
    } else if d == 3 {
        '3'
    } else if d == 4 {
        '4'
    } else if d == 5 {
        '5'
    } else if d == 6 {
        '6'
    } else if d == 7 {
        '7'
    } else if d == 8 {
        '8'
    } else {
        '9'
    }
}

/// The decimal digits of `n`, most significant first, without sign, padding
/// or separators.
pub open spec fn dec_u32(n: nat) -> Seq<char>
    decreases n,
{
    if n < 10 {
        seq![dec_digit(n)]
    } else {
        dec_u32(n / 10).push(dec_digit(n % 10))
    }
}

/// The digit characters of collected remainders, last remainder first.
spec fn rev_chars(v: Seq<u8>) -> Seq<char> {
    Seq::new(v.len(), |k: int| dec_digit(v[v.len() - 1 - k] as nat))
}

/// The text of one decimal digit.
fn digit_text(d: u8) -> (s: &'static str)
    requires
        d < 10,
    ensures
        s@ == seq![dec_digit(d as nat)],
{
    proof {
        reveal_strlit("0");
        reveal_strlit("1");
        reveal_strlit("2");
        reveal_strlit("3");
        reveal_strlit("4");
        reveal_strlit("5");
        reveal_strlit("6");
        reveal_strlit("7");
        reveal_strlit("8");
        reveal_strlit("9");
    }
    let s: &'static str = if d == 0 {
        "0"
    } else if d == 1 {
        "1"
    } else if d == 2 {
        "2"
    } else if d == 3 {
        "3"
    } else if d == 4 {
        "4"
    } else if d == 5 {
        "5"
    } else if d == 6 {
        "6"
    } else if d == 7 {
        "7"
    } else if d == 8 {
        "8"
    } else {
        "9"
    };
    proof {
        assert(s@ =~= seq![dec_digit(d as nat)]);
    }
    s
}

/// The decimal digits of `n`, as text: the remainders of repeated division
/// by ten, written most significant first.
pub fn u32_text(n: u32) -> (s: String)
    ensures
        s@ == dec_u32(n as nat),
{
    let mut rev: Vec<u8> = Vec::new();
    let mut rest: u32 = n;
    proof {
        assert(rev_chars(rev@) =~= Seq::<char>::empty());
        assert(dec_u32(n as nat) =~= dec_u32(n as nat) + rev_chars(rev@));
    }
    while rest >= 10
        invariant
            dec_u32(n as nat) == dec_u32(rest as nat) + rev_chars(rev@),
            forall|k: int| 0 <= k < rev@.len() ==> rev@[k] < 10,
        decreases rest,
    {
        let d = (rest % 10) as u8;
        let ghost prev = rev@;
        rev.push(d);
        proof {
            assert(rev_chars(rev@) =~= seq![dec_digit(d as nat)] + rev_chars(prev));
            assert(dec_u32(rest as nat) == dec_u32(rest as nat / 10).push(
                dec_digit(rest as nat % 10),
            ));
            assert((rest / 10) as nat == rest as nat / 10);
            assert(dec_u32(n as nat) =~= dec_u32((rest / 10) as nat) + rev_chars(rev@));
        }
        rest = rest / 10;
    }
    let ghost prev = rev@;
    rev.push(rest as u8);
    proof {
        assert(rev_chars(rev@) =~= seq![dec_digit(rest as nat)] + rev_chars(prev));
        assert(dec_u32(rest as nat) == seq![dec_digit(rest as nat)]);
        assert(dec_u32(n as nat) =~= rev_chars(rev@));
    }
    let mut out = String::new();
    let mut idx: usize = rev.len();
    while idx > 0
        invariant
            idx <= rev@.len(),
            forall|k: int| 0 <= k < rev@.len() ==> rev@[k] < 10,
            dec_u32(n as nat) == rev_chars(rev@),
            out@ == rev_chars(rev@).subrange(0, rev@.len() - idx),
        decreases idx,
    {
        idx = idx - 1;
        let t = digit_text(rev[idx]);
        out.append(t);
        proof {
            assert(rev_chars(rev@)[rev@.len() - 1 - idx] == dec_digit(rev@[idx as int] as nat));
            assert(out@ =~= rev_chars(rev@).subrange(0, rev@.len() - idx));
        }
    }
    proof {
        assert(rev_chars(rev@).subrange(0, rev@.len() as int) =~= rev_chars(rev@));
    }
    out
}

} // verus!
