//! Little-endian byte layout for fixed-width integers.
//!
//! Every multi-byte numeric value on the wire is laid out least-significant
//! byte first. This module defines that layout once, as spec functions over
//! mathematical integers, and provides the two executable primitives that
//! all fixed-width codecs share: appending the `n`-byte little-endian image
//! of a value to a buffer, and reading it back.

use vstd::prelude::*;

verus! {

/// 256^n: the number of distinct values an `n`-byte field can carry.
pub open spec fn pow256(n: nat) -> nat
    decreases n,
{
    if n == 0 {
        1
    } else {
        256 * pow256((n - 1) as nat)
    }
}

pub proof fn lemma_pow256_pos(n: nat)
    ensures
        pow256(n) >= 1,
    decreases n,
{
    if n > 0 {
        lemma_pow256_pos((n - 1) as nat);
    }
}

/// The value of `pow256` at each width the codec uses.
pub proof fn lemma_pow256_widths()
    ensures
        pow256(1) == 0x100,
        pow256(2) == 0x1_0000,
        pow256(4) == 0x1_0000_0000,
        pow256(8) == 0x1_0000_0000_0000_0000,
        pow256(16) == 0x1_0000_0000_0000_0000_0000_0000_0000_0000,
{
    reveal_with_fuel(pow256, 17);
}

pub proof fn lemma_pow256_increases(m: nat, n: nat)
    requires
        m <= n,
    ensures
        pow256(m) <= pow256(n),
    decreases n,
{
    if m < n {
        lemma_pow256_increases(m, (n - 1) as nat);
        lemma_pow256_pos((n - 1) as nat);
    }
}

/// The `n` little-endian bytes of `x` (the low `8 * n` bits of `x`).
pub open spec fn le_bytes(x: nat, n: nat) -> Seq<u8>
    decreases n,
{
    if n == 0 {
        Seq::empty()
    } else {
        seq![(x % 256) as u8] + le_bytes(x / 256, (n - 1) as nat)
    }
}

/// The value carried by a little-endian byte sequence.
pub open spec fn le_val(s: Seq<u8>) -> nat
    decreases s.len(),
{
    if s.len() == 0 {
        0
    } else {
        (s[0] + 256 * le_val(s.drop_first())) as nat
    }
}

pub proof fn lemma_le_bytes_len(x: nat, n: nat)
    ensures
        le_bytes(x, n).len() == n,
    decreases n,
{
    if n > 0 {
        lemma_le_bytes_len(x / 256, (n - 1) as nat);
    }
}

/// Reading back the little-endian bytes of `x` yields `x` again,
/// provided `x` fits in `n` bytes.
pub proof fn lemma_le_val_le_bytes(x: nat, n: nat)
    requires
        x < pow256(n),
    ensures
        le_val(le_bytes(x, n)) == x,
    decreases n,
{
    if n > 0 {
        lemma_le_bytes_len(x / 256, (n - 1) as nat);
        assert(le_bytes(x, n).drop_first() =~= le_bytes(x / 256, (n - 1) as nat));
        assert(x / 256 < pow256((n - 1) as nat)) by (nonlinear_arith)
            requires
                x < pow256(n),
                pow256(n) == 256 * pow256((n - 1) as nat),
        ;
        lemma_le_val_le_bytes(x / 256, (n - 1) as nat);
        vstd::arithmetic::div_mod::lemma_fundamental_div_mod(x as int, 256);
    }
}

/// The unsigned `n`-byte image of a signed value: nonnegative values are kept,
/// negative values are shifted up by 256^n (two's complement).
pub open spec fn to_unsigned(x: int, n: nat) -> nat {
    if x >= 0 {
        x as nat
    } else {
        (x + pow256(n)) as nat
    }
}

/// The signed reading of an unsigned `n`-byte value (two's complement).
pub open spec fn to_signed(u: nat, n: nat) -> int {
    if 2 * u < pow256(n) {
        u as int
    } else {
        u - pow256(n)
    }
}

pub proof fn lemma_signed_round_trip(x: int, n: nat)
    requires
        -(pow256(n) as int) <= 2 * x < pow256(n),
    ensures
        to_unsigned(x, n) < pow256(n),
        to_signed(to_unsigned(x, n), n) == x,
{
    lemma_pow256_pos(n);
}

/// Appends the `n`-byte little-endian image of `x` to `buf`.
pub fn write_le(buf: &mut Vec<u8>, x: u128, n: usize)
    requires
        n <= 16,
        (x as nat) < pow256(n as nat),
        old(buf)@.len() + n <= usize::MAX,
    ensures
        final(buf)@ == old(buf)@ + le_bytes(x as nat, n as nat),
    decreases n,
{
    if n == 0 {
        assert(buf@ =~= old(buf)@ + le_bytes(x as nat, 0));
    } else {
        let b: u8 = (x % 256) as u8;
        buf.push(b);
        proof {
            assert(((x / 256) as nat) < pow256((n - 1) as nat)) by (nonlinear_arith)
                requires
                    (x as nat) < pow256(n as nat),
                    pow256(n as nat) == 256 * pow256((n - 1) as nat),
            ;
        }
        write_le(buf, x / 256, n - 1);
        assert(buf@ =~= old(buf)@ + le_bytes(x as nat, n as nat));
    }
}

/// Reads the value of the `n` little-endian bytes of `buf` that start at
/// `pos`, together with the position just past them. Returns `None` exactly
/// when fewer than `n` bytes are available.
pub fn read_le(buf: &[u8], pos: usize, n: usize) -> (r: Option<(u128, usize)>)
    requires
        pos <= buf@.len(),
        n <= 16,
    ensures
        r is Some <==> pos + n <= buf@.len(),
        (r matches Some(p) ==> {
            &&& p.1 == pos + n
            &&& p.0 as nat == le_val(buf@.subrange(pos as int, pos + n))
            &&& (p.0 as nat) < pow256(n as nat)
        }),
    decreases n,
{
    if n == 0 {
        Some((0, pos))
    } else if buf.len() - pos < n {
        None
    } else {
        let b = buf[pos];
        let rest = read_le(buf, pos + 1, n - 1);
        proof {
            lemma_pow256_widths();
            lemma_pow256_increases(n as nat, 16);
        }
        match rest {
            Some((hi, end)) => {
                let x = (b as u128) + 256 * hi;
                proof {
                    let s = buf@.subrange(pos as int, pos + n);
                    assert(s.drop_first() =~= buf@.subrange(pos + 1, pos + 1 + (n - 1)));
                    assert((x as nat) < pow256(n as nat)) by (nonlinear_arith)
                        requires
                            x == b + 256 * hi,
                            b < 256,
                            (hi as nat) < pow256((n - 1) as nat),
                            pow256(n as nat) == 256 * pow256((n - 1) as nat),
                    ;
                }
                Some((x, end))
            },
            None => None,
        }
    }
}

} // verus!
