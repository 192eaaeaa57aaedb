//! Plain-text building blocks: repeated pieces and zero-padded decimal
//! numbers, used by the runtime display, the progress bar and the banner box.

use vstd::prelude::*;
use vstd::string::StringExecFns;

verus! {

/// `n` copies of `piece` laid end to end.
pub open spec fn repeat_seq(piece: Seq<char>, n: nat) -> Seq<char>
    decreases n,
{
    if n == 0 {
        Seq::empty()
    } else {
        repeat_seq(piece, (n - 1) as nat) + piece
    }
}

/// Appends `n` copies of `piece` to `out`.
pub fn push_repeated(out: &mut String, piece: &str, n: usize)
    ensures
        final(out)@ == old(out)@ + repeat_seq(piece@, n as nat),
{
    let mut i: usize = 0;
    while i < n
        invariant
            i <= n,
            out@ == old(out)@ + repeat_seq(piece@, i as nat),
        decreases n - i,
    {
        out.append(piece);
        proof {
            assert(repeat_seq(piece@, (i + 1) as nat)
                == repeat_seq(piece@, i as nat) + piece@);
            assert(old(out)@ + (repeat_seq(piece@, i as nat) + piece@)
                =~= (old(out)@ + repeat_seq(piece@, i as nat)) + piece@);
        }
        i = i + 1;
    }
    proof {
        assert(out@ =~= old(out)@ + repeat_seq(piece@, n as nat));
    }
}

/// The character for one decimal digit.
pub open spec fn digit_char(d: int) -> char {
    if d == 0 {
        '0'
    } else if d == 1 {
        '1'
    } else if d == 2 {
        '2'
    } else if d == 3 {
        '3'
    } else if d == 4 {
        '4'
    } else if d == 5 {
        '5'
    } else if d == 6 {
        '6'
    } else if d == 7 {
        '7'
    } else if d == 8 {
        '8'
    } else {
        '9'
    }
}

/// The decimal digits of `n`, most significant first, with no leading zeros
/// (a single `'0'` for zero itself).
pub open spec fn dec_seq(n: nat) -> Seq<char>
    decreases n,
{
    if n < 10 {
        seq![digit_char(n as int)]
    } else {
        dec_seq(n / 10) + seq![digit_char((n % 10) as int)]
    }
}

pub proof fn lemma_dec_seq_len(n: nat)
    ensures
        n < 10 ==> dec_seq(n).len() == 1,
        10 <= n < 100 ==> dec_seq(n).len() == 2,
        100 <= n < 1000 ==> dec_seq(n).len() == 3,
        n >= 10 ==> dec_seq(n).len() >= 2,
        n >= 100 ==> dec_seq(n).len() >= 3,
        dec_seq(n).len() >= 1,
    decreases n,
{
    if n >= 10 {
        lemma_dec_seq_len(n / 10);
    }
}

/// The decimal digits of `n`, left-padded with `'0'` up to `width`.
pub open spec fn padded_decimal(n: nat, width: nat) -> Seq<char> {
    if dec_seq(n).len() >= width {
        dec_seq(n)
    } else {
        repeat_seq(seq!['0'], (width - dec_seq(n).len()) as nat) + dec_seq(n)
    }
}

fn digit_str(d: u64) -> (r: &'static str)
    requires
        d < 10,
    ensures
        r@ == seq![digit_char(d as int)],
{
    proof {
        reveal_strlit("0");
        reveal_strlit("1");
        reveal_strlit("2");
        reveal_strlit("3");
        reveal_strlit("4");
        reveal_strlit("5");
        reveal_strlit("6");
        reveal_strlit("7");
        reveal_strlit("8");
        reveal_strlit("9");
    }
    let r = match d {
        0 => "0",
        1 => "1",
        2 => "2",
        3 => "3",
        4 => "4",
        5 => "5",
        6 => "6",
        7 => "7",
        8 => "8",
        _ => "9",
    };
    proof {
        assert(r@ =~= seq![digit_char(d as int)]);
    }
    r
}

/// Appends the decimal digits of `n` to `out`.
pub fn push_decimal(out: &mut String, n: u64)
    ensures
        final(out)@ == old(out)@ + dec_seq(n as nat),
    decreases n,
{
    if n >= 10 {
        push_decimal(out, n / 10);
    }
    let d = digit_str(n % 10);
    out.append(d);
    proof {
        if n >= 10 {
            assert(dec_seq(n as nat)
                == dec_seq(n as nat / 10) + seq![digit_char((n % 10) as int)]);
            assert(old(out)@ + dec_seq(n as nat)
                =~= (old(out)@ + dec_seq(n as nat / 10))
                    + seq![digit_char((n % 10) as int)]);
        } else {
            assert(dec_seq(n as nat) == seq![digit_char(n as int)]);
        }
    }
}

/// Appends `n` zero-padded to at least two digits.
pub fn push_decimal_width2(out: &mut String, n: u64)
    ensures
        final(out)@ == old(out)@ + padded_decimal(n as nat, 2),
{
    proof {
        lemma_dec_seq_len(n as nat);
        reveal_strlit("0");
        reveal_with_fuel(repeat_seq, 3);
    }
    if n < 10 {
        out.append("0");
        proof {
            assert(repeat_seq(seq!['0'], 1) =~= "0"@);
        }
    }
    push_decimal(out, n);
    proof {
        assert(out@ =~= old(out)@ + padded_decimal(n as nat, 2));
    }
}

/// Appends `n` zero-padded to at least three digits.
pub fn push_decimal_width3(out: &mut String, n: u64)
    ensures
        final(out)@ == old(out)@ + padded_decimal(n as nat, 3),
{
    proof {
        lemma_dec_seq_len(n as nat);
        reveal_strlit("0");
        reveal_strlit("00");
        reveal_with_fuel(repeat_seq, 3);
    }
    if n < 10 {
        out.append("00");
        proof {
            assert(repeat_seq(seq!['0'], 2) =~= "00"@);
        }
    } else if n < 100 {
        out.append("0");
        proof {
            assert(repeat_seq(seq!['0'], 1) =~= "0"@);
        }
    }
    push_decimal(out, n);
    proof {
        assert(out@ =~= old(out)@ + padded_decimal(n as nat, 3));
    }
}

} // verus!
