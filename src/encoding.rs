//! Packing of short byte sequences into a `u128` for one-step equality tests.
//!
//! Byte `i` of the input lands in bits `8 * i .. 8 * i + 8` of the result (little-endian
//! packing); bytes past the input's end are zero.
use vstd::prelude::*;

verus! {

/// The first `i` bytes of `s`, packed little-endian.
pub open spec fn packed(s: Seq<u8>, i: nat) -> u128
    decreases i,
{
    if i == 0 {
        0
    } else if i == 1 {
        s[0] as u128
    } else {
        packed(s, (i - 1) as nat) | ((s[i - 1] as u128) << ((8 * (i - 1)) as u128))
    }
}

/// The packed value of a whole sequence of at most sixteen bytes.
pub open spec fn encode_spec(s: Seq<u8>) -> u128 {
    packed(s, s.len())
}

/// Byte `k` of a packed value.
pub open spec fn byte_of(x: u128, k: u128) -> u128 {
    (x >> (8 * k) as u128) & 0xff
}

proof fn lemma_byte_or(a: u128, b: u128, k: u128)
    requires
        k < 16,
    ensures
        byte_of(a | b, k) == byte_of(a, k) | byte_of(b, k),
{
    assert(((a | b) >> (8 * k) as u128) & 0xff == ((a >> (8 * k) as u128) & 0xff) | ((b >> (8
        * k) as u128) & 0xff)) by (bit_vector)
        requires
            k < 16,
    ;
}

proof fn lemma_byte_shifted(x: u128, m: u128, k: u128)
    requires
        k < 16,
        m <= 16,
    ensures
        k >= m ==> byte_of(x << (8 * m) as u128, k) == byte_of(x, (k - m) as u128),
        k < m ==> byte_of(x << (8 * m) as u128, k) == 0,
{
    assert(k >= m ==> ((x << (8 * m) as u128) >> (8 * k) as u128) & 0xff == (x >> (8 * (k
        - m)) as u128) & 0xff) by (bit_vector)
        requires
            k < 16,
            m <= 16,
    ;
    assert(k < m ==> ((x << (8 * m) as u128) >> (8 * k) as u128) & 0xff == 0) by (bit_vector)
        requires
            k < 16,
            m <= 16,
    ;
}

proof fn lemma_byte_small(b: u128, k: u128)
    requires
        b < 256,
        k < 16,
    ensures
        byte_of(b, k) == if k == 0 {
            b
        } else {
            0
        },
{
    assert(((b >> (8 * k) as u128) & 0xff) == if k == 0 {
        b
    } else {
        0
    }) by (bit_vector)
        requires
            b < 256,
            k < 16,
    ;
}

proof fn lemma_bytes_ext(a: u128, b: u128)
    requires
        forall|k: u128| k < 16 ==> byte_of(a, k) == byte_of(b, k),
    ensures
        a == b,
{
    let ghost e = |k: u128| byte_of(a, k) == byte_of(b, k);
    assert(e(0) && e(1) && e(2) && e(3) && e(4) && e(5) && e(6) && e(7));
    assert(e(8) && e(9) && e(10) && e(11) && e(12) && e(13) && e(14) && e(15));
    assert(a == b) by (bit_vector)
        requires
            (a >> 0) & 0xff == (b >> 0) & 0xff,
            (a >> 8) & 0xff == (b >> 8) & 0xff,
            (a >> 16) & 0xff == (b >> 16) & 0xff,
            (a >> 24) & 0xff == (b >> 24) & 0xff,
            (a >> 32) & 0xff == (b >> 32) & 0xff,
            (a >> 40) & 0xff == (b >> 40) & 0xff,
            (a >> 48) & 0xff == (b >> 48) & 0xff,
            (a >> 56) & 0xff == (b >> 56) & 0xff,
            (a >> 64) & 0xff == (b >> 64) & 0xff,
            (a >> 72) & 0xff == (b >> 72) & 0xff,
            (a >> 80) & 0xff == (b >> 80) & 0xff,
            (a >> 88) & 0xff == (b >> 88) & 0xff,
            (a >> 96) & 0xff == (b >> 96) & 0xff,
            (a >> 104) & 0xff == (b >> 104) & 0xff,
            (a >> 112) & 0xff == (b >> 112) & 0xff,
            (a >> 120) & 0xff == (b >> 120) & 0xff,
    ;
}

/// Byte `k` of the packed prefix of length `i` is `s[k]` inside the prefix and zero past it.
pub proof fn lemma_packed_bytes(s: Seq<u8>, i: nat, k: u128)
    requires
        i <= s.len(),
        i <= 16,
        k < 16,
    ensures
        byte_of(packed(s, i), k) == if k < i {
            s[k as int] as u128
        } else {
            0
        },
    decreases i,
{
    if i == 0 {
        assert(byte_of(0, k) == 0) by (bit_vector)
            requires
                k < 16,
        ;
    } else if i == 1 {
        lemma_byte_small(s[0] as u128, k);
    } else {
        let j = (i - 1) as nat;
        let b = s[j as int] as u128;
        lemma_packed_bytes(s, j, k);
        lemma_byte_or(packed(s, j), b << (8 * j) as u128, k);
        lemma_byte_shifted(b, j as u128, k);
        if k >= j {
            lemma_byte_small(b, (k - j) as u128);
        }
        let x = byte_of(packed(s, j), k);
        let y = byte_of(b << (8 * j) as u128, k);
        assert(x | 0 == x && 0 | y == y) by (bit_vector);
    }
}


/// Packing is injective on sequences of one length: equal packed values mean equal bytes.
pub proof fn lemma_encode_injective(a: Seq<u8>, b: Seq<u8>)
    requires
        a.len() == b.len(),
        a.len() <= 16,
        encode_spec(a) == encode_spec(b),
    ensures
        a == b,
{
    assert forall|k: int| 0 <= k < a.len() implies a[k] == b[k] by {
        lemma_packed_bytes(a, a.len(), k as u128);
        lemma_packed_bytes(b, b.len(), k as u128);
    }
    assert(a =~= b);
}

/// A value equal to `packed(s, i)` byte for byte is `packed(s, i)`.
proof fn lemma_packed_from_bytes(x: u128, s: Seq<u8>, i: nat)
    requires
        i <= s.len(),
        i <= 16,
        forall|k: u128| k < 16 ==> byte_of(x, k) == if k < i {
            s[k as int] as u128
        } else {
            0
        },
    ensures
        x == packed(s, i),
{
    assert forall|k: u128| k < 16 implies byte_of(x, k) == byte_of(packed(s, i), k) by {
        lemma_packed_bytes(s, i, k);
    }
    lemma_bytes_ext(x, packed(s, i));
}

/// Reads eight bytes from `at` as a little-endian word.
fn load8(v: &[u8], at: usize) -> (r: u128)
    requires
        at + 8 <= v@.len(),
    ensures
        r == packed(v@.subrange(at as int, at + 8), 8),
{
    let ghost w = v@.subrange(at as int, at + 8);
    proof {
        reveal_with_fuel(packed, 8);
    }
    (v[at] as u128) | (v[at + 1] as u128) << 8u128 | (v[at + 2] as u128) << 16u128 | (v[at
        + 3] as u128) << 24u128 | (v[at + 4] as u128) << 32u128 | (v[at + 5] as u128) << 40u128
        | (v[at + 6] as u128) << 48u128 | (v[at + 7] as u128) << 56u128
}

/// Reads four bytes from `at` as a little-endian word.
fn load4(v: &[u8], at: usize) -> (r: u128)
    requires
        at + 4 <= v@.len(),
    ensures
        r == packed(v@.subrange(at as int, at + 4), 4),
{
    let ghost w = v@.subrange(at as int, at + 4);
    proof {
        reveal_with_fuel(packed, 4);
    }
    (v[at] as u128) | (v[at + 1] as u128) << 8u128 | (v[at + 2] as u128) << 16u128 | (v[at
        + 3] as u128) << 24u128
}

/// Overlays two windows of width `w` read at `0` and at `len - w`: the second is shifted
/// into place, and where the windows overlap both carry the same bytes.
proof fn lemma_overlay(v: Seq<u8>, w: nat, x0: u128, x1: u128)
    requires
        w <= v.len() <= 2 * w,
        v.len() <= 16,
        x0 == packed(v.subrange(0, w as int), w),
        x1 == packed(v.subrange(v.len() - w, v.len() as int), w),
    ensures
        x0 | (x1 << (8 * (v.len() - w)) as u128) == packed(v, v.len()),
{
    let m = (v.len() - w) as u128;
    let a = v.subrange(0, w as int);
    let b = v.subrange(v.len() - w, v.len() as int);
    let r = x0 | (x1 << (8 * m) as u128);
    assert forall|k: u128| k < 16 implies byte_of(r, k) == if k < v.len() {
        v[k as int] as u128
    } else {
        0
    } by {
        lemma_byte_or(x0, x1 << (8 * m) as u128, k);
        lemma_packed_bytes(a, w, k);
        lemma_byte_shifted(x1, m, k);
        if k >= m {
            lemma_packed_bytes(b, w, (k - m) as u128);
        }
        let p = byte_of(x0, k);
        let q = byte_of(x1 << (8 * m) as u128, k);
        assert(p | 0 == p && 0 | q == q && p | p == p) by (bit_vector);
    }
    lemma_packed_from_bytes(r, v, v.len());
}

/// Packs up to sixteen bytes with word-sized reads: two overlapping eight-byte windows
/// above eight bytes, two four-byte windows from four to eight, and the first, middle
/// and last byte below four.
pub fn encode_warm(v: &[u8]) -> (r: u128)
    requires
        v@.len() <= 16,
    ensures
        r == encode_spec(v@),
{
    let len = v.len();
    if len > 8 {
        let x0 = load8(v, 0);
        let x1 = load8(v, len - 8);
        proof {
            lemma_overlay(v@, 8, x0, x1);
        }
        x0 | (x1 << ((len - 8) * 8) as u128)
    } else if len > 3 {
        let x0 = load4(v, 0);
        let x1 = load4(v, len - 4);
        proof {
            lemma_overlay(v@, 4, x0, x1);
        }
        x0 | (x1 << ((len - 4) * 8) as u128)
    } else if len > 0 {
        let x0 = v[0] as u128;
        let x1 = v[len / 2] as u128;
        let x2 = v[len - 1] as u128;
        let r = x0 | x1 << (len / 2 * 8) as u128 | x2 << ((len - 1) * 8) as u128;
        proof {
            let s = v@;
            let h = (len / 2) as u128;
            let l = (len - 1) as u128;
            assert forall|k: u128| k < 16 implies byte_of(r, k) == if k < len {
                s[k as int] as u128
            } else {
                0
            } by {
                lemma_byte_or(x0 | x1 << (8 * h) as u128, x2 << (8 * l) as u128, k);
                lemma_byte_or(x0, x1 << (8 * h) as u128, k);
                lemma_byte_small(x0, k);
                lemma_byte_shifted(x1, h, k);
                lemma_byte_shifted(x2, l, k);
                if k >= h {
                    lemma_byte_small(x1, (k - h) as u128);
                }
                if k >= l {
                    lemma_byte_small(x2, (k - l) as u128);
                }
                let p = byte_of(x0, k);
                let q = byte_of(x1 << (8 * h) as u128, k);
                let t = byte_of(x2 << (8 * l) as u128, k);
                assert(p | 0 == p && 0 | q == q && p | p == p && 0u128 | 0u128 == 0u128)
                    by (bit_vector);
                assert((p | q) | 0 == p | q && 0 | t == t && t | t == t) by (bit_vector);
            }
            lemma_packed_from_bytes(r, s, s.len());
        }
        r
    } else {
        0
    }
}

/// Packs up to sixteen bytes one at a time: the portable reference for [`encode_warm`].
pub fn encode_cold(v: &[u8]) -> (r: u128)
    requires
        v@.len() <= 16,
    ensures
        r == encode_spec(v@),
{
    let len = v.len();
    let mut acc: u128 = 0;
    let mut i: usize = 0;
    while i < len
        invariant
            len == v@.len() <= 16,
            i <= len,
            acc == packed(v@, i as nat),
        decreases len - i,
    {
        if i == 0 {
            acc = v[0] as u128;
        } else {
            acc = acc | (v[i] as u128) << (8 * i) as u128;
        }
        i += 1;
    }
    acc
}

/// Packs up to sixteen bytes into one integer; equal sequences of one length give equal
/// values and different ones give different values.
pub fn encode(v: &[u8]) -> (r: u128)
    requires
        v@.len() <= 16,
    ensures
        r == encode_spec(v@),
{
    encode_warm(v)
}

} // verus!
