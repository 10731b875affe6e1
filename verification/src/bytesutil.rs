//! Small helpers on byte vectors: comparison, affix tests, decimal
//! rendering of lengths, and big-endian encodings used by the frame
//! format.

use vstd::prelude::*;

verus! {

/// The decimal digits of `n`, most significant first.
pub open spec fn spec_dec(n: u64) -> Seq<u8>
    decreases n,
{
    if n < 10 {
        seq![(n + 48) as u8]
    } else {
        spec_dec(n / 10).push((n % 10 + 48) as u8)
    }
}

/// Renders `n` in decimal ASCII.
pub fn dec_of(n: u64) -> (r: Vec<u8>)
    ensures
        r@ == spec_dec(n),
    decreases n,
{
    if n < 10 {
        let mut v: Vec<u8> = Vec::new();
        v.push((n + 48) as u8);
        assert(v@ =~= spec_dec(n));
        v
    } else {
        let mut v = dec_of(n / 10);
        v.push((n % 10 + 48) as u8);
        assert(v@ =~= spec_dec(n));
        v
    }
}

/// Whether `a` and `b` hold the same bytes.
pub fn bytes_eq(a: &[u8], b: &[u8]) -> (r: bool)
    ensures
        r == (a@ == b@),
{
    if a.len() != b.len() {
        assert(a@ != b@) by {
            assert(a@.len() != b@.len());
        }
        return false;
    }
    let mut i: usize = 0;
    while i < a.len()
        invariant
            i <= a.len(),
            a.len() == b.len(),
            forall|j: int| 0 <= j < i ==> a@[j] == b@[j],
        decreases a.len() - i,
    {
        if a[i] != b[i] {
            return false;
        }
        i += 1;
    }
    assert(a@ =~= b@);
    true
}

/// Whether `v` ends with the bytes of `suf`.
pub fn ends_with(v: &[u8], suf: &[u8]) -> (r: bool)
    ensures
        r == (v@.len() >= suf@.len() && v@.skip(v@.len() - suf@.len() as int) == suf@),
{
    if v.len() < suf.len() {
        return false;
    }
    let start = v.len() - suf.len();
    let mut i: usize = 0;
    while i < suf.len()
        invariant
            i <= suf.len(),
            suf.len() <= v.len(),
            start == v.len() - suf.len(),
            forall|j: int| 0 <= j < i ==> v@[start + j] == suf@[j],
        decreases suf.len() - i,
    {
        if v[start + i] != suf[i] {
            assert(v@.skip(v@.len() - suf@.len() as int)[i as int] != suf@[i as int]);
            return false;
        }
        i += 1;
    }
    assert(v@.skip(v@.len() - suf@.len() as int) =~= suf@);
    true
}

/// The first position of `b` in `v`, if any.
pub fn find_byte(v: &[u8], b: u8) -> (r: Option<usize>)
    ensures
        match r {
            Some(i) => i < v@.len() && v@[i as int] == b && forall|j: int|
                0 <= j < i ==> v@[j] != b,
            None => forall|j: int| 0 <= j < v@.len() ==> v@[j] != b,
        },
{
    let mut i: usize = 0;
    while i < v.len()
        invariant
            i <= v.len(),
            forall|j: int| 0 <= j < i ==> v@[j] != b,
        decreases v.len() - i,
    {
        if v[i] == b {
            return Some(i);
        }
        i += 1;
    }
    None
}

/// Appends the bytes of `s` to `v`.
pub fn push_bytes(v: &mut Vec<u8>, s: &[u8])
    ensures
        final(v)@ == old(v)@ + s@,
{
    let mut i: usize = 0;
    while i < s.len()
        invariant
            i <= s.len(),
            v@ == old(v)@ + s@.take(i as int),
        decreases s.len() - i,
    {
        v.push(s[i]);
        assert(old(v)@ + s@.take(i as int) + seq![s@[i as int]] =~= old(v)@ + s@.take(
            i as int + 1,
        ));
        i += 1;
    }
    assert(old(v)@ + s@.take(s@.len() as int) =~= old(v)@ + s@);
}

/// The two big-endian bytes of `n`.
pub open spec fn spec_be16(n: u16) -> Seq<u8> {
    seq![(n / 256) as u8, (n % 256) as u8]
}

/// The value carried by two big-endian bytes.
pub open spec fn spec_val16(b0: u8, b1: u8) -> int {
    b0 * 256 + b1
}

/// The eight big-endian bytes of `n`.
pub open spec fn spec_be64(n: u64) -> Seq<u8> {
    seq![
        (n / 0x100000000000000 % 256) as u8,
        (n / 0x1000000000000 % 256) as u8,
        (n / 0x10000000000 % 256) as u8,
        (n / 0x100000000 % 256) as u8,
        (n / 0x1000000 % 256) as u8,
        (n / 0x10000 % 256) as u8,
        (n / 0x100 % 256) as u8,
        (n % 256) as u8,
    ]
}

/// The value carried by eight big-endian bytes.
pub open spec fn spec_val64(s: Seq<u8>) -> int
    recommends
        s.len() == 8,
{
    ((((((s[0] * 256 + s[1]) * 256 + s[2]) * 256 + s[3]) * 256 + s[4]) * 256 + s[5]) * 256 + s[6])
        * 256 + s[7]
}

/// Two big-endian bytes decode to the value they encode.
pub proof fn lemma_be16_val(n: u16)
    ensures
        spec_val16(spec_be16(n)[0], spec_be16(n)[1]) == n,
{
    assert((n / 256) * 256 + n % 256 == n) by (nonlinear_arith);
}

/// Eight big-endian bytes decode to the value they encode.
pub proof fn lemma_be64_val(n: u64)
    ensures
        spec_val64(spec_be64(n)) == n,
{
    let b0: u64 = n / 0x100000000000000 % 256;
    let b1: u64 = n / 0x1000000000000 % 256;
    let b2: u64 = n / 0x10000000000 % 256;
    let b3: u64 = n / 0x100000000 % 256;
    let b4: u64 = n / 0x1000000 % 256;
    let b5: u64 = n / 0x10000 % 256;
    let b6: u64 = n / 0x100 % 256;
    let b7: u64 = n % 256;
    assert(((((((b0 * 256 + b1) * 256 + b2) * 256 + b3) * 256 + b4) * 256 + b5) * 256 + b6) * 256
        + b7 == n) by (bit_vector)
        requires
            b0 == n / 0x100000000000000 % 256,
            b1 == n / 0x1000000000000 % 256,
            b2 == n / 0x10000000000 % 256,
            b3 == n / 0x100000000 % 256,
            b4 == n / 0x1000000 % 256,
            b5 == n / 0x10000 % 256,
            b6 == n / 0x100 % 256,
            b7 == n % 256,
    ;
}

/// Encodes `n` as two big-endian bytes.
pub fn be16_of(n: u16) -> (r: Vec<u8>)
    ensures
        r@ == spec_be16(n),
{
    let mut v: Vec<u8> = Vec::new();
    v.push((n / 256) as u8);
    v.push((n % 256) as u8);
    assert(v@ =~= spec_be16(n));
    v
}

/// Encodes `n` as eight big-endian bytes.
pub fn be64_of(n: u64) -> (r: Vec<u8>)
    ensures
        r@ == spec_be64(n),
{
    let mut v: Vec<u8> = Vec::new();
    v.push((n / 0x100000000000000 % 256) as u8);
    v.push((n / 0x1000000000000 % 256) as u8);
    v.push((n / 0x10000000000 % 256) as u8);
    v.push((n / 0x100000000 % 256) as u8);
    v.push((n / 0x1000000 % 256) as u8);
    v.push((n / 0x10000 % 256) as u8);
    v.push((n / 0x100 % 256) as u8);
    v.push((n % 256) as u8);
    assert(v@ =~= spec_be64(n));
    v
}

} // verus!
