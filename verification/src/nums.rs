//! Byte-string and digit-string views of unsigned integers.
//!
//! Scalars and arbitrary-precision integers travel through this crate as
//! big-endian byte strings or as ASCII decimal digit strings.  The spec
//! functions here give every such string its mathematical value, and the
//! canonical string of every value, so that contracts elsewhere can speak
//! of the numbers themselves.

use vstd::prelude::*;

verus! {

/// Value of a big-endian byte string.
pub open spec fn bytes_val(s: Seq<u8>) -> nat
    decreases s.len(),
{
    if s.len() == 0 {
        0
    } else {
        bytes_val(s.drop_last()) * 256 + s.last() as nat
    }
}

/// 256 raised to `k`.
pub open spec fn pow256(k: nat) -> nat
    decreases k,
{
    if k == 0 {
        1
    } else {
        256 * pow256((k - 1) as nat)
    }
}

/// Minimal big-endian byte string of a positive value: no leading zero.
pub open spec fn min_be_pos(n: nat) -> Seq<u8>
    decreases n,
{
    if n == 0 {
        seq![]
    } else {
        min_be_pos(n / 256).push((n % 256) as u8)
    }
}

/// Minimal big-endian byte string of a value; zero is the single byte 0.
pub open spec fn min_be(n: nat) -> Seq<u8> {
    if n == 0 {
        seq![0u8]
    } else {
        min_be_pos(n)
    }
}

/// Big-endian byte string of `n` in exactly `width` bytes (modulo 256^width).
pub open spec fn be_bytes(n: nat, width: nat) -> Seq<u8>
    decreases width,
{
    if width == 0 {
        seq![]
    } else {
        be_bytes(n / 256, (width - 1) as nat).push((n % 256) as u8)
    }
}

/// An ASCII decimal digit.
pub open spec fn is_digit(b: u8) -> bool {
    48 <= b <= 57
}

/// A nonempty string of ASCII decimal digits.
pub open spec fn is_dec(s: Seq<u8>) -> bool {
    s.len() > 0 && forall|i: int| 0 <= i < s.len() ==> is_digit(s[i])
}

/// Value of an ASCII decimal digit string.
pub open spec fn dec_val(s: Seq<u8>) -> nat
    decreases s.len(),
{
    if s.len() == 0 {
        0
    } else {
        dec_val(s.drop_last()) * 10 + (if is_digit(s.last()) {
            (s.last() - 48) as nat
        } else {
            0
        })
    }
}

/// Canonical decimal digits of a positive value: no leading zero.
pub open spec fn dec_of_pos(n: nat) -> Seq<u8>
    decreases n,
{
    if n == 0 {
        seq![]
    } else {
        dec_of_pos(n / 10).push((48 + n % 10) as u8)
    }
}

/// Canonical decimal digits of a value; zero is the single digit "0".
pub open spec fn dec_of(n: nat) -> Seq<u8> {
    if n == 0 {
        seq![48u8]
    } else {
        dec_of_pos(n)
    }
}

/// Fewest bits needed to write `n`.
pub open spec fn bitlen(n: nat) -> nat
    decreases n,
{
    if n == 0 {
        0
    } else {
        1 + bitlen(n / 2)
    }
}

/// A byte string's value is bounded by 256 to its length.
pub proof fn lemma_bytes_val_bound(s: Seq<u8>)
    ensures
        bytes_val(s) < pow256(s.len()),
    decreases s.len(),
{
    if s.len() == 0 {
    } else {
        lemma_bytes_val_bound(s.drop_last());
    }
}

/// Leading zero bytes do not change a byte string's value.
pub proof fn lemma_bytes_val_zero_prefix(s: Seq<u8>)
    requires
        s.len() > 0,
        s[0] == 0,
    ensures
        bytes_val(s) == bytes_val(s.subrange(1, s.len() as int)),
    decreases s.len(),
{
    if s.len() == 1 {
        assert(s.drop_last() =~= Seq::<u8>::empty());
        assert(bytes_val(Seq::<u8>::empty()) == 0);
        assert(bytes_val(s) == s[0]);
        assert(s.subrange(1, 1) =~= Seq::<u8>::empty());
    } else {
        assert(s.drop_last()[0] == 0);
        lemma_bytes_val_zero_prefix(s.drop_last());
        assert(s.drop_last().subrange(1, s.drop_last().len() as int) =~= s.subrange(
            1,
            s.len() as int,
        ).drop_last());
        assert(s.subrange(1, s.len() as int).last() == s.last());
    }
}

/// The minimal byte string of `n` has value `n`.
pub proof fn lemma_min_be_pos_val(n: nat)
    ensures
        bytes_val(min_be_pos(n)) == n,
    decreases n,
{
    if n == 0 {
    } else {
        lemma_min_be_pos_val(n / 256);
        assert(min_be_pos(n).drop_last() =~= min_be_pos(n / 256));
    }
}

/// The minimal byte string of `n` has value `n`.
pub proof fn lemma_min_be_val(n: nat)
    ensures
        bytes_val(min_be(n)) == n,
{
    if n == 0 {
        assert(min_be(0) =~= seq![0u8]);
        assert(seq![0u8].drop_last() =~= Seq::<u8>::empty());
        assert(bytes_val(Seq::<u8>::empty()) == 0);
    } else {
        lemma_min_be_pos_val(n);
    }
}

/// A fixed-width byte string of a small enough value has that value.
pub proof fn lemma_be_bytes_val(n: nat, width: nat)
    requires
        n < pow256(width),
    ensures
        bytes_val(be_bytes(n, width)) == n,
    decreases width,
{
    if width == 0 {
    } else {
        lemma_be_bytes_val(n / 256, (width - 1) as nat);
        assert(be_bytes(n, width).drop_last() =~= be_bytes(n / 256, (width - 1) as nat));
        assert(be_bytes(n, width).last() == n % 256);
    }
}

/// Two byte strings of one width and one value are the same string.
pub proof fn lemma_be_bytes_canonical(s: Seq<u8>)
    ensures
        be_bytes(bytes_val(s), s.len()) =~= s,
    decreases s.len(),
{
    if s.len() == 0 {
    } else {
        let v = bytes_val(s);
        let d = bytes_val(s.drop_last());
        assert(v == d * 256 + s.last());
        assert(v % 256 == s.last() && v / 256 == d) by {
            vstd::arithmetic::div_mod::lemma_fundamental_div_mod_converse(
                v as int,
                256,
                d as int,
                s.last() as int,
            );
        }
        lemma_be_bytes_canonical(s.drop_last());
        assert(be_bytes(v, s.len()).drop_last() =~= be_bytes(v / 256, (s.len() - 1) as nat));
    }
}

/// `be_bytes` always has the asked width.
pub proof fn lemma_be_bytes_len(n: nat, width: nat)
    ensures
        be_bytes(n, width).len() == width,
    decreases width,
{
    if width == 0 {
    } else {
        lemma_be_bytes_len(n / 256, (width - 1) as nat);
    }
}

/// A value below 256^k has a minimal byte string of at most k bytes (k > 0).
pub proof fn lemma_min_be_pos_len(n: nat, k: nat)
    requires
        n < pow256(k),
    ensures
        min_be_pos(n).len() <= k,
    decreases n,
{
    if n == 0 {
    } else {
        assert(k > 0);
        assert(n / 256 < pow256((k - 1) as nat)) by {
            vstd::arithmetic::div_mod::lemma_multiply_divide_lt(
                n as int,
                256,
                pow256((k - 1) as nat) as int,
            );
        }
        lemma_min_be_pos_len(n / 256, (k - 1) as nat);
    }
}

/// The canonical decimal digits of `n` (positive case) spell `n`.
pub proof fn lemma_dec_of_pos_val(n: nat)
    ensures
        dec_val(dec_of_pos(n)) == n,
        forall|i: int| 0 <= i < dec_of_pos(n).len() ==> is_digit(#[trigger] dec_of_pos(n)[i]),
        n > 0 ==> dec_of_pos(n).len() > 0 && dec_of_pos(n)[0] != 48,
    decreases n,
{
    if n == 0 {
    } else {
        lemma_dec_of_pos_val(n / 10);
        assert(dec_of_pos(n).drop_last() =~= dec_of_pos(n / 10));
        assert(dec_of_pos(n).last() == 48 + n % 10);
        if n / 10 == 0 {
            assert(dec_of_pos(n) =~= seq![(48 + n % 10) as u8]);
            assert(n % 10 == n);
        } else {
            assert(dec_of_pos(n)[0] == dec_of_pos(n / 10)[0]);
        }
    }
}

/// The canonical decimal digits of `n` spell `n` and are digits.
pub proof fn lemma_dec_of_val(n: nat)
    ensures
        dec_val(dec_of(n)) == n,
        is_dec(dec_of(n)),
{
    if n == 0 {
        assert(dec_of(0) =~= seq![48u8]);
        assert(seq![48u8].drop_last() =~= Seq::<u8>::empty());
        assert(dec_val(Seq::<u8>::empty()) == 0);
        assert(dec_val(seq![48u8]) == 0);
    } else {
        lemma_dec_of_pos_val(n);
    }
}

/// Append the 8-byte big-endian form of `n`.
pub fn write_u64_be(out: &mut Vec<u8>, n: u64)
    ensures
        final(out)@ == old(out)@ + be_bytes(n as nat, 8),
{
    out.push((n / 0x100000000000000) as u8);
    out.push((n / 0x1000000000000 % 256) as u8);
    out.push((n / 0x10000000000 % 256) as u8);
    out.push((n / 0x100000000 % 256) as u8);
    out.push((n / 0x1000000 % 256) as u8);
    out.push((n / 0x10000 % 256) as u8);
    out.push((n / 0x100 % 256) as u8);
    out.push((n % 256) as u8);
    proof {
        reveal_with_fuel(be_bytes, 9);
        assert(n / 0x100000000000000 < 256);
        assert(out@ =~= old(out)@ + be_bytes(n as nat, 8));
    }
}

/// Read the 8-byte big-endian value at `off`.
pub fn read_u64_be(b: &Vec<u8>, off: usize) -> (r: u64)
    requires
        off + 8 <= b@.len(),
    ensures
        r as nat == bytes_val(b@.subrange(off as int, off as int + 8)),
{
    let blen = b.len();
    let mut r: u64 = b[off] as u64;
    r = r * 256 + (b[off + 1] as u64);
    r = r * 256 + (b[off + 2] as u64);
    r = r * 256 + (b[off + 3] as u64);
    r = r * 256 + (b[off + 4] as u64);
    r = r * 256 + (b[off + 5] as u64);
    r = r * 256 + (b[off + 6] as u64);
    r = r * 256 + (b[off + 7] as u64);
    proof {
        reveal_with_fuel(bytes_val, 9);
        let s = b@.subrange(off as int, off as int + 8);
        assert(s.drop_last() =~= b@.subrange(off as int, off as int + 7));
        assert(s.drop_last().drop_last() =~= b@.subrange(off as int, off as int + 6));
        assert(s.drop_last().drop_last().drop_last() =~= b@.subrange(off as int, off as int + 5));
        assert(s.drop_last().drop_last().drop_last().drop_last() =~= b@.subrange(
            off as int,
            off as int + 4,
        ));
        assert(b@.subrange(off as int, off as int + 4).drop_last() =~= b@.subrange(
            off as int,
            off as int + 3,
        ));
        assert(b@.subrange(off as int, off as int + 3).drop_last() =~= b@.subrange(
            off as int,
            off as int + 2,
        ));
        assert(b@.subrange(off as int, off as int + 2).drop_last() =~= b@.subrange(
            off as int,
            off as int + 1,
        ));
        assert(b@.subrange(off as int, off as int + 1).drop_last() =~= b@.subrange(
            off as int,
            off as int,
        ));
        assert(b@.subrange(off as int, off as int).len() == 0);
    }
    r
}

/// Append every byte of `src`.
pub fn append_bytes(out: &mut Vec<u8>, src: &Vec<u8>)
    ensures
        final(out)@ == old(out)@ + src@,
{
    let mut i: usize = 0;
    while i < src.len()
        invariant
            0 <= i <= src@.len(),
            out@ =~= old(out)@ + src@.subrange(0, i as int),
        decreases src.len() - i,
    {
        out.push(src[i]);
        i += 1;
    }
    proof {
        assert(out@ =~= old(out)@ + src@);
    }
}

/// Copy of one byte vector.
pub fn clone_bytes(v: &Vec<u8>) -> (r: Vec<u8>)
    ensures
        r@ == v@,
{
    vstd::slice::slice_to_vec(v.as_slice())
}

/// The bytes of `b` from `i` to `j`.
pub fn copy_range(b: &Vec<u8>, i: usize, j: usize) -> (r: Vec<u8>)
    requires
        0 <= i <= j <= b@.len(),
    ensures
        r@ == b@.subrange(i as int, j as int),
{
    vstd::slice::slice_to_vec(vstd::slice::slice_subrange(b.as_slice(), i, j))
}

} // verus!
