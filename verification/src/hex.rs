//! Digit rendering of machine words: fixed-width lowercase hexadecimal, and
//! plain decimal.
//!
//! Session identifiers and generated tokens are hex strings built from two
//! machine words, and socket addresses carry a decimal port; this module
//! proves that each rendering is exactly the digit sequence its spec names.

use vstd::prelude::*;

verus! {

/// The lowercase hex digit for a value in `0 .. 16`.
pub open spec fn hex_char(d: int) -> char {
    if d == 0 {
        '0'
    } else if d == 1 {
        '1'
    } else if d == 2 {
        '2'
    } else if d == 3 {
        '3'
    } else if d == 4 {
        '4'
    } else if d == 5 {
        '5'
    } else if d == 6 {
        '6'
    } else if d == 7 {
        '7'
    } else if d == 8 {
        '8'
    } else if d == 9 {
        '9'
    } else if d == 10 {
        'a'
    } else if d == 11 {
        'b'
    } else if d == 12 {
        'c'
    } else if d == 13 {
        'd'
    } else if d == 14 {
        'e'
    } else {
        'f'
    }
}

/// Whether `c` is an ASCII hexadecimal digit.
pub open spec fn is_hex_digit(c: char) -> bool {
    ('0' <= c && c <= '9') || ('a' <= c && c <= 'f') || ('A' <= c && c <= 'F')
}

/// The `n` least significant hex digits of `x`, most significant first.
pub open spec fn hex_seq(x: int, n: nat) -> Seq<char>
    decreases n,
{
    if n == 0 {
        Seq::empty()
    } else {
        hex_seq(x / 16, (n - 1) as nat).push(hex_char(x % 16))
    }
}

/// A rendered hex sequence has exactly `n` characters, all hex digits.
pub proof fn lemma_hex_seq_shape(x: int, n: nat)
    requires
        x >= 0,
    ensures
        hex_seq(x, n).len() == n,
        forall|i: int| 0 <= i < n ==> is_hex_digit(#[trigger] hex_seq(x, n)[i]),
    decreases n,
{
    if n > 0 {
        lemma_hex_seq_shape(x / 16, (n - 1) as nat);
    }
}

/// Render the `n` least significant hex digits of `x`, most significant first.
pub fn hex_render(x: u64, n: u8) -> (r: String)
    ensures
        r@ == hex_seq(x as int, n as nat),
        r@.len() == n as nat,
    decreases n,
{
    proof {
        lemma_hex_seq_shape(x as int, n as nat);
    }
    if n == 0 {
        String::new()
    } else {
        let mut prefix = hex_render(x / 16, n - 1);
        let d = (x % 16) as usize;
        let digits = "0123456789abcdef";
        proof {
            reveal_strlit("0123456789abcdef");
        }
        let c = digits.substring_char(d, d + 1);
        proof {
            assert(c@ =~= seq![hex_char(x as int % 16)]);
        }
        prefix.append(c);
        proof {
            assert(prefix@ =~= hex_seq(x as int, n as nat));
        }
        prefix
    }
}

/// The decimal digits of `x`, most significant first, no leading zeros.
pub open spec fn dec_seq(x: int) -> Seq<char>
    decreases x,
{
    if x < 10 {
        seq![hex_char(x)]
    } else {
        dec_seq(x / 10).push(hex_char(x % 10))
    }
}

/// Render `x` in decimal.
pub fn dec_render(x: u64) -> (r: String)
    ensures
        r@ == dec_seq(x as int),
    decreases x,
{
    let digits = "0123456789abcdef";
    proof {
        reveal_strlit("0123456789abcdef");
    }
    if x < 10 {
        let c = digits.substring_char(x as usize, x as usize + 1);
        let r = c.to_owned();
        proof {
            assert(r@ =~= seq![hex_char(x as int)]);
        }
        r
    } else {
        let mut prefix = dec_render(x / 10);
        let d = (x % 10) as usize;
        let c = digits.substring_char(d, d + 1);
        proof {
            assert(c@ =~= seq![hex_char(x as int % 10)]);
        }
        prefix.append(c);
        proof {
            assert(prefix@ =~= dec_seq(x as int));
        }
        prefix
    }
}

} // verus!
