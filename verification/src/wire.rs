//! Fixed-width integer fields inside byte buffers.

use vstd::prelude::*;

verus! {

/// The big-endian 16-bit field that starts at `i`.
pub open spec fn be16_at(s: Seq<u8>, i: int) -> u16 {
    (s[i] * 256 + s[i + 1]) as u16
}

/// The big-endian 32-bit field that starts at `i`.
pub open spec fn be32_at(s: Seq<u8>, i: int) -> u32 {
    (s[i] * 0x100_0000 + s[i + 1] * 0x1_0000 + s[i + 2] * 0x100 + s[i + 3]) as u32
}

/// The big-endian 128-bit field that starts at `i`.
pub open spec fn be128_at(s: Seq<u8>, i: int) -> u128 {
    (be32_at(s, i) * 0x1_0000_0000_0000_0000_0000_0000 + be32_at(s, i + 4)
        * 0x1_0000_0000_0000_0000 + be32_at(s, i + 8) * 0x1_0000_0000 + be32_at(s, i + 12)) as u128
}

/// The little-endian 16-bit field that starts at `i`.
pub open spec fn le16_at(s: Seq<u8>, i: int) -> u16 {
    (s[i] + s[i + 1] * 256) as u16
}

/// The four bytes of `v`, most significant first.
pub open spec fn be32_bytes(v: u32) -> Seq<u8> {
    seq![
        (v / 0x100_0000) as u8,
        (v / 0x1_0000 % 256) as u8,
        (v / 0x100 % 256) as u8,
        (v % 256) as u8,
    ]
}

/// `s` with the big-endian 16-bit field at `i` set to `v`.
pub open spec fn put_be16(s: Seq<u8>, i: int, v: u16) -> Seq<u8> {
    s.update(i, (v / 256) as u8).update(i + 1, (v % 256) as u8)
}

/// `s` with the big-endian 32-bit field at `i` set to `v`.
pub open spec fn put_be32(s: Seq<u8>, i: int, v: u32) -> Seq<u8> {
    s.update(i, (v / 0x100_0000) as u8).update(i + 1, (v / 0x1_0000 % 256) as u8).update(
        i + 2,
        (v / 0x100 % 256) as u8,
    ).update(i + 3, (v % 256) as u8)
}

/// Two buffers agree on the bytes from `i` up to `j`.
pub open spec fn agree(a: Seq<u8>, b: Seq<u8>, i: int, j: int) -> bool {
    a.subrange(i, j) == b.subrange(i, j)
}

/// `s` with the bytes from `i` up to `j` taken from `from`.
pub open spec fn patched(s: Seq<u8>, from: Seq<u8>, i: int, j: int) -> Seq<u8> {
    Seq::new(
        s.len(),
        |k: int|
            if i <= k < j {
                from[k]
            } else {
                s[k]
            },
    )
}

/// The contents of a list of byte buffers.
pub open spec fn contents(v: Seq<Vec<u8>>) -> Seq<Seq<u8>> {
    v.map_values(|b: Vec<u8>| b@)
}

/// Reads the big-endian 16-bit field that starts at `i`.
pub fn read_be16(p: &[u8], i: usize) -> (v: u16)
    requires
        i + 2 <= p@.len(),
    ensures
        v == be16_at(p@, i as int),
{
    (p[i] as u16) * 256 + p[i + 1] as u16
}

/// Reads the big-endian 32-bit field that starts at `i`.
pub fn read_be32(p: &[u8], i: usize) -> (v: u32)
    requires
        i + 4 <= p@.len(),
    ensures
        v == be32_at(p@, i as int),
{
    (p[i] as u32) * 0x100_0000 + (p[i + 1] as u32) * 0x1_0000 + (p[i + 2] as u32) * 0x100
        + p[i + 3] as u32
}

/// Reads the big-endian 128-bit field that starts at `i`.
pub fn read_be128(p: &[u8], i: usize) -> (v: u128)
    requires
        i + 16 <= p@.len(),
    ensures
        v == be128_at(p@, i as int),
{
    let ghost len = p.len();
    (read_be32(p, i) as u128) * 0x1_0000_0000_0000_0000_0000_0000 + (read_be32(p, i + 4) as u128)
        * 0x1_0000_0000_0000_0000 + (read_be32(p, i + 8) as u128) * 0x1_0000_0000 + read_be32(
        p,
        i + 12,
    ) as u128
}

/// Writes the big-endian 16-bit field that starts at `i`.
pub fn write_be16(p: &mut [u8], i: usize, v: u16)
    requires
        i + 2 <= old(p)@.len(),
    ensures
        final(p)@ == put_be16(old(p)@, i as int, v),
{
    p[i] = (v / 256) as u8;
    p[i + 1] = (v % 256) as u8;
}

/// Writes the big-endian 32-bit field that starts at `i`.
pub fn write_be32(p: &mut [u8], i: usize, v: u32)
    requires
        i + 4 <= old(p)@.len(),
    ensures
        final(p)@ == put_be32(old(p)@, i as int, v),
{
    p[i] = (v / 0x100_0000) as u8;
    p[i + 1] = (v / 0x1_0000 % 256) as u8;
    p[i + 2] = (v / 0x100 % 256) as u8;
    p[i + 3] = (v % 256) as u8;
}

/// The halves of a byte: four bits each.
pub proof fn lemma_nibbles(b: u8)
    ensures
        b >> 4 == b / 16,
        b & 0x0f == b % 16,
{
    assert(b >> 4 == b / 16) by (bit_vector);
    assert(b & 0x0f == b % 16) by (bit_vector);
}

/// The upper four bits of a byte.
pub fn high_nibble(b: u8) -> (r: u8)
    ensures
        r == b >> 4,
        r <= 15,
{
    proof {
        lemma_nibbles(b);
    }
    b >> 4
}

/// The lower four bits of a byte.
pub fn low_nibble(b: u8) -> (r: u8)
    ensures
        r == b & 0x0f,
        r <= 15,
{
    proof {
        lemma_nibbles(b);
    }
    b & 0x0f
}

/// Whether two buffers agree on the bytes from `i` up to `j`.
pub fn same_range(a: &[u8], b: &[u8], i: usize, j: usize) -> (r: bool)
    requires
        i <= j <= a@.len(),
        j <= b@.len(),
    ensures
        r == agree(a@, b@, i as int, j as int),
{
    let mut k: usize = i;
    while k < j
        invariant
            i <= k <= j <= a@.len(),
            j <= b@.len(),
            forall|m: int| i <= m < k ==> a@[m] == b@[m],
        decreases j - k,
    {
        if a[k] != b[k] {
            proof {
                let sa = a@.subrange(i as int, j as int);
                let sb = b@.subrange(i as int, j as int);
                assert(sa[k - i] != sb[k - i]);
            }
            return false;
        }
        k += 1;
    }
    assert(a@.subrange(i as int, j as int) =~= b@.subrange(i as int, j as int));
    true
}

/// Copies the bytes from `i` up to `j` of `src` to the same place in `dst`.
pub fn copy_range(dst: &mut [u8], src: &[u8], i: usize, j: usize)
    requires
        i <= j <= old(dst)@.len(),
        j <= src@.len(),
    ensures
        final(dst)@ == patched(old(dst)@, src@, i as int, j as int),
{
    let ghost before = dst@;
    let mut k: usize = i;
    while k < j
        invariant
            i <= k <= j <= dst@.len(),
            j <= src@.len(),
            dst@ == patched(before, src@, i as int, k as int),
        decreases j - k,
    {
        dst[k] = src[k];
        k += 1;
        assert(dst@ =~= patched(before, src@, i as int, k as int));
    }
}

/// Appends the bytes of `src`.
pub fn append_bytes(v: &mut Vec<u8>, src: &[u8])
    ensures
        final(v)@ == old(v)@ + src@,
{
    v.extend_from_slice(src);
    assert(v@ =~= old(v)@ + src@);
}

/// A 16-bit field reads back as the value that was written to it.
pub proof fn law_be16_read_back(s: Seq<u8>, i: int, v: u16)
    requires
        0 <= i,
        i + 2 <= s.len(),
    ensures
        be16_at(put_be16(s, i, v), i) == v,
{
}

/// A 32-bit field reads back as the value that was written to it.
pub proof fn law_be32_read_back(s: Seq<u8>, i: int, v: u32)
    requires
        0 <= i,
        i + 4 <= s.len(),
    ensures
        be32_at(put_be32(s, i, v), i) == v,
{
}

/// Buffers agree on a range exactly if they agree on each byte of it, and a patched buffer has the
/// bytes of the patch there and its own elsewhere.
pub proof fn law_ranges_are_their_bytes(a: Seq<u8>, b: Seq<u8>, i: int, j: int)
    requires
        0 <= i <= j <= a.len(),
        j <= b.len(),
    ensures
        agree(a, b, i, j) <==> forall|k: int| i <= k < j ==> a[k] == b[k],
        patched(a, b, i, j).len() == a.len(),
        agree(patched(a, b, i, j), b, i, j),
        forall|k: int|
            0 <= k < a.len() && !(i <= k < j) ==> #[trigger] patched(a, b, i, j)[k] == a[k],
{
    let x = a.subrange(i, j);
    let y = b.subrange(i, j);
    if agree(a, b, i, j) {
        assert forall|k: int| i <= k < j implies a[k] == b[k] by {
            assert(x[k - i] == y[k - i]);
        }
    }
    if forall|k: int| i <= k < j ==> a[k] == b[k] {
        assert(x =~= y);
    }
    assert(patched(a, b, i, j).subrange(i, j) =~= y);
}

/// A field of two bytes weighs its bytes by 256, the first one in front in a big-endian field and
/// the second in a little-endian one; wider fields are made of such.
pub proof fn law_fields_weigh_their_bytes(s: Seq<u8>, i: int)
    requires
        0 <= i,
        i + 4 <= s.len(),
    ensures
        be16_at(s, i) == 256 * s[i] + s[i + 1],
        le16_at(s, i) == s[i] + 256 * s[i + 1],
        be32_at(s, i) == 0x1_0000 * be16_at(s, i) + be16_at(s, i + 2),
        i + 16 <= s.len() ==> be128_at(s, i) / 0x1_0000_0000_0000_0000_0000_0000 == be32_at(s, i),
        i + 16 <= s.len() ==> be128_at(s, i) % 0x1_0000_0000 == be32_at(s, i + 12),
{
}

/// The contents of a list of buffers, one by one.
pub proof fn law_contents_one_by_one(v: Seq<Vec<u8>>, k: int)
    requires
        0 <= k < v.len(),
    ensures
        contents(v).len() == v.len(),
        contents(v)[k] == v[k]@,
{
}

} // verus!
