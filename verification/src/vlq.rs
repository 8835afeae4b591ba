//! Variable-length quantities.
//!
//! An unsigned integer is written in groups of seven bits, least significant
//! group first. Every byte but the last has its high bit set.

use vstd::prelude::*;

verus! {

/// Why a quantity could not be read.
#[derive(Clone, Copy, Debug, PartialEq, Eq, Structural)]
pub enum VlqError {
    /// The bytes end before a byte without the continuation bit.
    Truncated,
    /// The quantity does not fit in 64 bits.
    Overflow,
}

/// The encoding of `v`: between one and ten bytes.
pub open spec fn vlq_bytes(v: nat) -> Seq<u8>
    decreases v,
{
    if v < 128 {
        seq![v as u8]
    } else {
        seq![(128 + v % 128) as u8] + vlq_bytes(v / 128)
    }
}

/// What reading a quantity from the front of `s` gives, when the first byte
/// of `s` carries the group of weight `base`.
///
/// Bytes after the first one without a continuation bit are not looked at.
pub open spec fn vlq_scan(s: Seq<u8>, base: nat) -> Result<u64, VlqError>
    decreases s.len(),
{
    if s.len() == 0 {
        Err(VlqError::Truncated)
    } else {
        let low = (s[0] % 128) as nat * base;
        if low > u64::MAX {
            Err(VlqError::Overflow)
        } else if s[0] < 128 {
            Ok(low as u64)
        } else if base * 128 > u64::MAX {
            Err(VlqError::Overflow)
        } else {
            match vlq_scan(s.drop_first(), base * 128) {
                Ok(rest) => if low + rest > u64::MAX {
                    Err(VlqError::Overflow)
                } else {
                    Ok((low + rest) as u64)
                },
                Err(e) => Err(e),
            }
        }
    }
}

/// What reading a quantity from the front of `s` gives.
pub open spec fn vlq_parse(s: Seq<u8>) -> Result<u64, VlqError> {
    vlq_scan(s, 1)
}

/// The number 128 raised to the power `k`.
pub open spec fn pow128(k: nat) -> nat
    decreases k,
{
    if k == 0 {
        1
    } else {
        128 * pow128((k - 1) as nat)
    }
}

/// A value below 128 to the power `k` is encoded in at most `k` bytes.
pub proof fn lemma_vlq_bytes_len_bound(v: nat, k: nat)
    requires
        k >= 1,
    ensures
        1 <= vlq_bytes(v).len(),
        v < pow128(k) ==> vlq_bytes(v).len() <= k,
        v < 128 <==> vlq_bytes(v).len() == 1,
    decreases v,
{
    assert(pow128(1) == 128) by {
        reveal_with_fuel(pow128, 2);
    }
    if v >= 128 {
        if k >= 2 {
            lemma_vlq_bytes_len_bound(v / 128, (k - 1) as nat);
        } else {
            lemma_vlq_bytes_len_bound(v / 128, 1);
        }
    }
}

/// An encoding is never empty, and never longer than ten bytes when the
/// value fits in 64 bits.
pub proof fn lemma_vlq_bytes_len(v: nat)
    ensures
        1 <= vlq_bytes(v).len(),
        v <= u64::MAX ==> vlq_bytes(v).len() <= 10,
        v < 128 <==> vlq_bytes(v).len() == 1,
{
    assert(pow128(10) == 1180591620717411303424nat) by {
        reveal_with_fuel(pow128, 11);
    }
    lemma_vlq_bytes_len_bound(v, 10);
}

/// Reading what was written gives the value back, whatever follows it.
pub proof fn lemma_vlq_scan_bytes(v: nat, base: nat, rest: Seq<u8>)
    requires
        base >= 1,
        v * base <= u64::MAX,
    ensures
        vlq_scan(vlq_bytes(v) + rest, base) == Ok::<u64, VlqError>((v * base) as u64),
    decreases v,
{
    let s = vlq_bytes(v) + rest;
    if v < 128 {
        assert(s[0] == v as u8);
        assert((s[0] % 128) as nat == v);
    } else {
        let q = v / 128;
        let r = v % 128;
        assert(s[0] == (128 + r) as u8);
        assert((s[0] % 128) as nat == r);
        assert(s.drop_first() =~= vlq_bytes(q) + rest);
        assert(v == 128 * q + r);
        assert(v * base == q * (base * 128) + r * base) by (nonlinear_arith)
            requires
                v == 128 * q + r,
        ;
        assert(r * base <= v * base) by (nonlinear_arith)
            requires
                r <= v,
        ;
        assert(128 * base <= v * base) by (nonlinear_arith)
            requires
                128 <= v,
        ;
        assert(q * (base * 128) <= v * base) by (nonlinear_arith)
            requires
                v * base == q * (base * 128) + r * base,
                0 <= r * base,
        ;
        lemma_vlq_scan_bytes(q, base * 128, rest);
    }
}

/// Appends the encoding of `value` to `buf`.
pub fn write_vlq(buf: &mut Vec<u8>, value: u64)
    ensures
        final(buf)@ == old(buf)@ + vlq_bytes(value as nat),
{
    let mut v: u64 = value;
    while v >= 128
        invariant
            buf@ + vlq_bytes(v as nat) == old(buf)@ + vlq_bytes(value as nat),
        decreases v,
    {
        let ghost before = buf@;
        let byte: u8 = (128 + v % 128) as u8;
        buf.push(byte);
        proof {
            assert(vlq_bytes(v as nat) == seq![byte] + vlq_bytes((v / 128) as nat));
            assert(buf@ + vlq_bytes((v / 128) as nat) =~= before + vlq_bytes(v as nat));
        }
        v = v / 128;
    }
    let ghost before = buf@;
    buf.push(v as u8);
    assert(buf@ =~= before + vlq_bytes(v as nat));
}

/// Reads a quantity whose first byte, at `pos`, carries the group of weight
/// `base`.
fn read_vlq_from(data: &[u8], pos: usize, base: u64) -> (r: Result<u64, VlqError>)
    requires
        pos <= data@.len(),
    ensures
        r == vlq_scan(data@.subrange(pos as int, data@.len() as int), base as nat),
    decreases data@.len() - pos,
{
    let ghost s = data@.subrange(pos as int, data@.len() as int);
    if pos >= data.len() {
        return Err(VlqError::Truncated);
    }
    let byte: u8 = data[pos];
    assert(s[0] == byte);
    assert(s.drop_first() =~= data@.subrange(pos + 1, data@.len() as int));
    let group: u64 = (byte % 128) as u64;
    match group.checked_mul(base) {
        None => Err(VlqError::Overflow),
        Some(low) => {
            if byte < 128 {
                Ok(low)
            } else {
                match base.checked_mul(128) {
                    None => Err(VlqError::Overflow),
                    Some(next) => match read_vlq_from(data, pos + 1, next) {
                        Err(e) => Err(e),
                        Ok(rest) => match low.checked_add(rest) {
                            None => Err(VlqError::Overflow),
                            Some(v) => Ok(v),
                        },
                    },
                }
            }
        },
    }
}

/// Reads the quantity that starts at `start`. Past the end of `data` there
/// is nothing to read.
pub fn read_vlq(data: &[u8], start: usize) -> (r: Result<u64, VlqError>)
    ensures
        start <= data@.len() ==> r == vlq_parse(data@.subrange(start as int, data@.len() as int)),
        start > data@.len() ==> r == Err::<u64, VlqError>(VlqError::Truncated),
{
    if start > data.len() {
        Err(VlqError::Truncated)
    } else {
        read_vlq_from(data, start, 1)
    }
}

} // verus!
