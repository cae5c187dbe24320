//! Byte-order conversions and the compact variable-length integer codec.

use vstd::prelude::*;

use super::cursor::Cursor;
use crate::parser::ReadError;
use crate::types::VarInt;

verus! {

/// The value of `s` read as a little-endian unsigned integer.
pub open spec fn le_val(s: Seq<u8>) -> nat
    decreases s.len(),
{
    if s.len() == 0 {
        0
    } else {
        s[0] as nat + 256 * le_val(s.skip(1))
    }
}

/// The value of `s` read as a big-endian unsigned integer.
pub open spec fn be_val(s: Seq<u8>) -> nat
    decreases s.len(),
{
    if s.len() == 0 {
        0
    } else {
        256 * be_val(s.take(s.len() - 1)) + s.last() as nat
    }
}

/// The values of 256 raised to the small powers the byte widths call for.
pub proof fn lemma_pow256_vals()
    ensures
        vstd::arithmetic::power::pow(256, 2) == 0x1_0000,
        vstd::arithmetic::power::pow(256, 4) == 0x1_0000_0000,
        vstd::arithmetic::power::pow(256, 8) == 0x1_0000_0000_0000_0000,
{
    reveal_with_fuel(vstd::arithmetic::power::pow, 9);
    assert(vstd::arithmetic::power::pow(256, 0) == 1);
    assert(vstd::arithmetic::power::pow(256, 1) == 256);
    assert(vstd::arithmetic::power::pow(256, 2) == 0x1_0000);
    assert(vstd::arithmetic::power::pow(256, 3) == 0x100_0000);
    assert(vstd::arithmetic::power::pow(256, 4) == 0x1_0000_0000);
    assert(vstd::arithmetic::power::pow(256, 5) == 0x100_0000_0000);
    assert(vstd::arithmetic::power::pow(256, 6) == 0x1_0000_0000_0000);
    assert(vstd::arithmetic::power::pow(256, 7) == 0x100_0000_0000_0000);
    assert(vstd::arithmetic::power::pow(256, 8) == 0x1_0000_0000_0000_0000);
}

/// A little-endian value is bounded by 256 to the power of its width.
pub proof fn lemma_le_val_bound(s: Seq<u8>)
    ensures
        le_val(s) < vstd::arithmetic::power::pow(256, s.len() as nat),
    decreases s.len(),
{
    vstd::arithmetic::power::lemma_pow_positive(256, s.len() as nat);
    if s.len() > 0 {
        lemma_le_val_bound(s.skip(1));
        assert(vstd::arithmetic::power::pow(256, s.len() as nat) == 256
            * vstd::arithmetic::power::pow(256, (s.len() - 1) as nat)) by {
            vstd::arithmetic::power::lemma_pow_adds(256, 1, (s.len() - 1) as nat);
            vstd::arithmetic::power::lemma_pow1(256);
        }
        assert(le_val(s) == s[0] as nat + 256 * le_val(s.skip(1)));
        assert(256 * le_val(s.skip(1)) <= 256 * (vstd::arithmetic::power::pow(
            256,
            (s.len() - 1) as nat,
        ) - 1)) by (nonlinear_arith)
            requires
                le_val(s.skip(1)) <= vstd::arithmetic::power::pow(256, (s.len() - 1) as nat) - 1,
        ;
    }
}

/// Read `b` as a little-endian 16-bit unsigned integer.
pub fn le_u16(b: &[u8]) -> (r: u16)
    requires
        b@.len() == 2,
    ensures
        r as nat == le_val(b@),
{
    let r: u16 = b[0] as u16 + 256 * (b[1] as u16);
    proof {
        let s = b@;
        assert(s.skip(1)[0] == s[1]);
        assert(le_val(s) == s[0] as nat + 256 * le_val(s.skip(1)));
        assert(le_val(s.skip(1)) == s[1] as nat + 256 * le_val(s.skip(1).skip(1)));
        assert(s.skip(1).skip(1).len() == 0);
        assert(le_val(s.skip(1).skip(1)) == 0);
    }
    r
}

/// Read `b` as a little-endian 32-bit unsigned integer.
pub fn le_u32(b: &[u8]) -> (r: u32)
    requires
        b@.len() == 4,
    ensures
        r as nat == le_val(b@),
{
    let r: u32 = b[0] as u32 + 256 * (b[1] as u32 + 256 * (b[2] as u32 + 256 * (b[3] as u32)));
    proof {
        let s = b@;
        assert(s.skip(1)[0] == s[1]);
        assert(s.skip(1).skip(1) =~= s.skip(2));
        assert(s.skip(2)[0] == s[2]);
        assert(s.skip(2).skip(1) =~= s.skip(3));
        assert(s.skip(3)[0] == s[3]);
        assert(s.skip(3).skip(1).len() == 0);
        assert(le_val(s) == s[0] as nat + 256 * le_val(s.skip(1)));
        assert(le_val(s.skip(1)) == s[1] as nat + 256 * le_val(s.skip(2)));
        assert(le_val(s.skip(2)) == s[2] as nat + 256 * le_val(s.skip(3)));
        assert(le_val(s.skip(3)) == s[3] as nat + 256 * le_val(s.skip(3).skip(1)));
        assert(le_val(s.skip(3).skip(1)) == 0);
    }
    r
}

/// Read `b` as a little-endian 64-bit unsigned integer.
pub fn le_u64(b: &[u8]) -> (r: u64)
    requires
        b@.len() == 8,
    ensures
        r as nat == le_val(b@),
{
    let lo = le_u32(vstd::slice::slice_subrange(b, 0, 4));
    let hi = le_u32(vstd::slice::slice_subrange(b, 4, 8));
    let r: u64 = lo as u64 + 0x1_0000_0000 * (hi as u64);
    proof {
        let s = b@;
        lemma_le_val_split(s, 4);
        lemma_pow256_vals();
    }
    r
}

/// Splitting a byte string splits its little-endian value at the
/// corresponding power of 256.
pub proof fn lemma_le_val_split(s: Seq<u8>, n: int)
    requires
        0 <= n <= s.len(),
    ensures
        le_val(s) == le_val(s.take(n)) + vstd::arithmetic::power::pow(256, n as nat) * le_val(
            s.skip(n),
        ),
    decreases n,
{
    if n == 0 {
        assert(s.take(0).len() == 0);
        assert(s.skip(0) =~= s);
        vstd::arithmetic::power::lemma_pow0(256);
    } else {
        assert(s.len() > 0);
        lemma_le_val_split(s.skip(1), n - 1);
        assert(s.take(n)[0] == s[0]);
        assert(s.take(n).skip(1) =~= s.skip(1).take(n - 1));
        assert(s.skip(1).skip(n - 1) =~= s.skip(n));
        assert(vstd::arithmetic::power::pow(256, n as nat) == 256
            * vstd::arithmetic::power::pow(256, (n - 1) as nat)) by {
            vstd::arithmetic::power::lemma_pow_adds(256, 1, (n - 1) as nat);
            vstd::arithmetic::power::lemma_pow1(256);
        }
        let p = vstd::arithmetic::power::pow(256, (n - 1) as nat);
        assert(le_val(s) == s[0] as nat + 256 * le_val(s.skip(1)));
        assert(le_val(s.skip(1)) == le_val(s.skip(1).take(n - 1)) + p * le_val(s.skip(n)));
        assert(256 * (le_val(s.skip(1).take(n - 1)) + p * le_val(s.skip(n))) == 256 * le_val(
            s.skip(1).take(n - 1),
        ) + 256 * (p * le_val(s.skip(n)))) by (nonlinear_arith);
        assert(256 * (p * le_val(s.skip(n))) == (256 * p) * le_val(s.skip(n)))
            by (nonlinear_arith);
    }
}

/// A 4-byte little-endian value fits in 32 bits.
pub proof fn lemma_le_val_fits_u32(s: Seq<u8>)
    requires
        s.len() == 4,
    ensures
        le_val(s) < 0x1_0000_0000,
{
    lemma_le_val_bound(s);
    lemma_pow256_vals();
}

/// An 8-byte little-endian value fits in 64 bits.
pub proof fn lemma_le_val_fits_u64(s: Seq<u8>)
    requires
        s.len() == 8,
    ensures
        le_val(s) < 0x1_0000_0000_0000_0000,
{
    lemma_le_val_bound(s);
    lemma_pow256_vals();
}

/// Read `b` as a big-endian 32-bit unsigned integer.
pub fn be_u32(b: &[u8]) -> (r: u32)
    requires
        b@.len() == 4,
    ensures
        r as nat == be_val(b@),
{
    let r: u32 = ((((b[0] as u32) * 256 + b[1] as u32) * 256 + b[2] as u32) * 256) + b[3] as u32;
    proof {
        let s = b@;
        assert(s.take(3).take(2) =~= s.take(2));
        assert(s.take(2).take(1) =~= s.take(1));
        assert(s.take(1).take(0) =~= s.take(0));
        assert(s.take(1).last() == s[0]);
        assert(s.take(2).last() == s[1]);
        assert(s.take(3).last() == s[2]);
        assert(be_val(s) == 256 * be_val(s.take(3)) + s[3] as nat);
        assert(be_val(s.take(3)) == 256 * be_val(s.take(2)) + s[2] as nat);
        assert(be_val(s.take(2)) == 256 * be_val(s.take(1)) + s[1] as nat);
        assert(be_val(s.take(1)) == 256 * be_val(s.take(0)) + s[0] as nat);
        assert(s.take(0).len() == 0);
        assert(be_val(s.take(0)) == 0);
    }
    r
}

/// A copy of the first `n` bytes of `b`.
pub fn slice_prefix_to_vec(b: &[u8], n: usize) -> (r: Vec<u8>)
    requires
        n <= b@.len(),
    ensures
        r@ == b@.take(n as int),
{
    let r = vstd::slice::slice_to_vec(vstd::slice::slice_subrange(b, 0, n));
    proof {
        assert(b@.subrange(0, n as int) =~= b@.take(n as int));
    }
    r
}

/// Skipping twice is skipping the sum.
pub proof fn lemma_skip_skip(s: Seq<u8>, a: int, b: int)
    requires
        0 <= a,
        0 <= b,
        a + b <= s.len(),
    ensures
        s.skip(a).skip(b) == s.skip(a + b),
{
    assert forall|j: int| 0 <= j < s.len() - a - b implies s.skip(a).skip(b)[j] == s.skip(
        a + b,
    )[j] by {
        assert(s.skip(a).skip(b)[j] == s.skip(a)[b + j]);
        assert(s.skip(a)[b + j] == s[a + b + j]);
    }
    assert(s.skip(a).skip(b) =~= s.skip(a + b));
}

/// A prefix of what remains after a skip is a subrange.
pub proof fn lemma_skip_take(s: Seq<u8>, a: int, b: int)
    requires
        0 <= a,
        0 <= b,
        a + b <= s.len(),
    ensures
        s.skip(a).take(b) == s.subrange(a, a + b),
{
    assert forall|j: int| 0 <= j < b implies s.skip(a).take(b)[j] == s.subrange(a, a + b)[j] by {
        assert(s.skip(a).take(b)[j] == s.skip(a)[j]);
        assert(s.skip(a)[j] == s[a + j]);
    }
    assert(s.skip(a).take(b) =~= s.subrange(a, a + b));
}

/// Extending an accumulated prefix by the adjacent subrange gives the longer
/// prefix.
pub proof fn lemma_accum_extend(h: Seq<u8>, s: Seq<u8>, a: int, b: int)
    requires
        0 <= a <= b <= s.len(),
    ensures
        h + s.take(a) + s.subrange(a, b) == h + s.take(b),
{
    let l = h + s.take(a) + s.subrange(a, b);
    assert forall|j: int| 0 <= j < h.len() + b implies l[j] == (h + s.take(b))[j] by {
        if j < h.len() {
            assert(l[j] == (h + s.take(a))[j]);
            assert((h + s.take(a))[j] == h[j]);
        } else if j < h.len() + a {
            assert(l[j] == (h + s.take(a))[j]);
            assert((h + s.take(a))[j] == s.take(a)[j - h.len()]);
            assert(s.take(a)[j - h.len()] == s[j - h.len()]);
        } else {
            assert(l[j] == s.subrange(a, b)[j - h.len() - a]);
            assert(s.subrange(a, b)[j - h.len() - a] == s[j - h.len()]);
        }
        assert((h + s.take(b))[j] == if j < h.len() {
            h[j]
        } else {
            s.take(b)[j - h.len()]
        });
    }
    assert(l =~= h + s.take(b));
}

/// A prefix, the subrange beside it and the subrange beside that assemble
/// into the longer prefix.
pub proof fn lemma_concat3_prefix(s: Seq<u8>, a: int, b: int, c: int)
    requires
        0 <= a <= b <= c <= s.len(),
    ensures
        s.take(a) + s.subrange(a, b) + s.subrange(b, c) == s.take(c),
{
    let l = s.take(a) + s.subrange(a, b) + s.subrange(b, c);
    assert forall|j: int| 0 <= j < c implies l[j] == s[j] by {
        if j < a {
            assert(l[j] == (s.take(a) + s.subrange(a, b))[j]);
            assert((s.take(a) + s.subrange(a, b))[j] == s.take(a)[j]);
        } else if j < b {
            assert(l[j] == (s.take(a) + s.subrange(a, b))[j]);
            assert((s.take(a) + s.subrange(a, b))[j] == s.subrange(a, b)[j - a]);
        } else {
            assert(l[j] == s.subrange(b, c)[j - b]);
        }
    }
    assert(l =~= s.take(c));
}

/// How many bytes a variable-length integer with marker byte `m` occupies in
/// all, the marker included.
pub open spec fn varint_size(m: u8) -> int {
    if m <= 0xfc {
        1
    } else if m == 0xfd {
        3
    } else if m == 0xfe {
        5
    } else {
        9
    }
}

/// Whether `s` begins with a complete variable-length integer encoding.
pub open spec fn varint_ok(s: Seq<u8>) -> bool {
    s.len() >= 1 && varint_size(s[0]) <= s.len()
}

/// The value of the variable-length integer at the start of `s`: a marker
/// byte up to 0xfc is the value itself; markers 0xfd, 0xfe and 0xff announce
/// a little-endian value in the following 2, 4 or 8 bytes.
pub open spec fn varint_val(s: Seq<u8>) -> nat
    recommends
        varint_ok(s),
{
    if s[0] <= 0xfc {
        s[0] as nat
    } else {
        le_val(s.subrange(1, varint_size(s[0])))
    }
}

/// A marker byte up to 0xfc is itself the decoded value, and the encoding
/// occupies exactly that one byte.
pub proof fn lemma_varint_single_byte(s: Seq<u8>)
    requires
        s.len() >= 1,
        s[0] <= 0xfc,
    ensures
        varint_ok(s),
        varint_size(s[0]) == 1,
        varint_val(s) == s[0],
{
}

/// The markers 0xfd, 0xfe and 0xff announce exactly 2, 4 and 8 further
/// bytes, decoded little-endian.
pub proof fn lemma_varint_wide_markers(s: Seq<u8>)
    requires
        s.len() >= 1,
        s[0] > 0xfc,
    ensures
        s[0] == 0xfd ==> varint_size(s[0]) == 3 && (s.len() >= 3 ==> varint_ok(s) && varint_val(s)
            == le_val(s.subrange(1, 3))),
        s[0] == 0xfe ==> varint_size(s[0]) == 5 && (s.len() >= 5 ==> varint_ok(s) && varint_val(s)
            == le_val(s.subrange(1, 5))),
        s[0] == 0xff ==> varint_size(s[0]) == 9 && (s.len() >= 9 ==> varint_ok(s) && varint_val(s)
            == le_val(s.subrange(1, 9))),
{
}

/// Decode a variable-length integer whose marker byte has already been read.
///
/// The contract is stated over the byte string `m` followed by the cursor's
/// remaining bytes, the shape in which the encoding stands in a buffer.
pub fn read_var_int_marker<'a>(m: u8, cursor: &mut Cursor<'a>) -> (r: Result<VarInt, ReadError>)
    requires
        old(cursor).wf(),
    ensures
        final(cursor).wf(),
        final(cursor).all_bytes() == old(cursor).all_bytes(),
        ({
            let s = seq![m] + old(cursor).remaining();
            &&& varint_ok(s) ==> ({
                &&& r matches Ok(v)
                &&& v@ == varint_val(s)
                &&& final(cursor).at() == old(cursor).at() + varint_size(m) - 1
            })
            &&& !varint_ok(s) ==> ({
                &&& r matches Err(e)
                &&& e == (ReadError {
                    requested: (varint_size(m) - 1) as u64,
                    available: old(cursor).remaining().len() as u64,
                })
                &&& *final(cursor) == *old(cursor)
            })
        }),
{
    let ghost s = seq![m] + old(cursor).remaining();
    proof {
        assert(s[0] == m);
        assert(s.len() == 1 + old(cursor).remaining().len());
    }
    if m <= 0xfc {
        Ok(VarInt::new(m as u64))
    } else if m == 0xfd {
        match cursor.read_bytes(2) {
            Ok(b) => {
                let v = VarInt::new(le_u16(b) as u64);
                proof {
                    assert(s.subrange(1, 3) =~= old(cursor).remaining().take(2));
                }
                Ok(v)
            },
            Err(e) => Err(e),
        }
    } else if m == 0xfe {
        match cursor.read_bytes(4) {
            Ok(b) => {
                let v = VarInt::new(le_u32(b) as u64);
                proof {
                    assert(s.subrange(1, 5) =~= old(cursor).remaining().take(4));
                }
                Ok(v)
            },
            Err(e) => Err(e),
        }
    } else {
        match cursor.read_bytes(8) {
            Ok(b) => {
                let v = VarInt::new(le_u64(b));
                proof {
                    assert(s.subrange(1, 9) =~= old(cursor).remaining().take(8));
                }
                Ok(v)
            },
            Err(e) => Err(e),
        }
    }
}

/// Decode a variable-length integer from the cursor: one marker byte, then
/// the follow-up bytes its value calls for.
pub fn read_var_int<'a>(cursor: &mut Cursor<'a>) -> (r: Result<VarInt, ReadError>)
    requires
        old(cursor).wf(),
    ensures
        final(cursor).wf(),
        final(cursor).all_bytes() == old(cursor).all_bytes(),
        ({
            let s = old(cursor).remaining();
            &&& varint_ok(s) ==> ({
                &&& r matches Ok(v)
                &&& v@ == varint_val(s)
                &&& final(cursor).at() == old(cursor).at() + varint_size(s[0])
            })
            &&& !varint_ok(s) ==> r is Err
            &&& s.len() == 0 ==> ({
                &&& r matches Err(e)
                &&& e == (ReadError { requested: 1u64, available: 0u64 })
                &&& *final(cursor) == *old(cursor)
            })
        }),
{
    let marker = match cursor.read_bytes(1) {
        Ok(b) => b[0],
        Err(e) => {
            return Err(e);
        },
    };
    proof {
        let s = old(cursor).remaining();
        assert(s.take(1)[0] == s[0]);
        assert(seq![s[0]] + cursor.remaining() =~= s);
    }
    read_var_int_marker(marker, cursor)
}

} // verus!
