//! The framing of an index file: two length-prefixed blocks, the version
//! string and the serialized index, each preceded by its length as an
//! 8-byte big-endian integer.

use vstd::prelude::*;

verus! {

/// 256 to the power `k`.
pub open spec fn pow256(k: nat) -> nat
    decreases k,
{
    if k == 0 {
        1
    } else {
        256 * pow256((k - 1) as nat)
    }
}

/// The unsigned integer whose big-endian bytes are `s`.
pub open spec fn be_value(s: Seq<u8>) -> nat
    decreases s.len(),
{
    if s.len() == 0 {
        0
    } else {
        be_value(s.drop_last()) * 256 + s.last() as nat
    }
}

/// The `k` low-order bytes of `n`, most significant first.
pub open spec fn be_bytes(n: nat, k: nat) -> Seq<u8>
    decreases k,
{
    if k == 0 {
        Seq::empty()
    } else {
        be_bytes(n / 256, (k - 1) as nat).push((n % 256) as u8)
    }
}

/// `data` preceded by its length as an 8-byte big-endian integer.
pub open spec fn length_prefixed(data: Seq<u8>) -> Seq<u8> {
    be_bytes(data.len(), 8) + data
}

/// The contents of an index file holding the version string `version` and
/// the serialized index `index`.
pub open spec fn index_file(version: Seq<u8>, index: Seq<u8>) -> Seq<u8> {
    length_prefixed(version) + length_prefixed(index)
}

/// The length of the version block that a file announces in its first 8
/// bytes.
pub open spec fn version_size(file: Seq<u8>) -> nat {
    be_value(file.subrange(0, 8))
}

/// The length of the index block that a file announces after its version
/// block.
pub open spec fn index_size(file: Seq<u8>) -> nat {
    let v = version_size(file) as int;
    be_value(file.subrange(8 + v, 16 + v))
}

/// The file holds both announced blocks: reading it never runs past its end.
/// Bytes after the index block are allowed.
pub open spec fn well_framed(file: Seq<u8>) -> bool {
    &&& file.len() >= 16
    &&& file.len() >= 16 + version_size(file)
    &&& file.len() >= 16 + version_size(file) + index_size(file)
}

/// The version block of a well-framed file.
pub open spec fn version_payload(file: Seq<u8>) -> Seq<u8> {
    file.subrange(8, 8 + version_size(file) as int)
}

/// The index block of a well-framed file.
pub open spec fn index_payload(file: Seq<u8>) -> Seq<u8> {
    let v = version_size(file) as int;
    file.subrange(16 + v, 16 + v + index_size(file) as int)
}

proof fn lemma_pow256_8()
    ensures
        pow256(8) == 0x1_0000_0000_0000_0000,
{
    reveal_with_fuel(pow256, 9);
}

proof fn lemma_pow256_positive(k: nat)
    ensures
        pow256(k) > 0,
    decreases k,
{
    if k > 0 {
        lemma_pow256_positive((k - 1) as nat);
    }
}

proof fn lemma_be_bytes_len(n: nat, k: nat)
    ensures
        be_bytes(n, k).len() == k,
    decreases k,
{
    if k > 0 {
        lemma_be_bytes_len(n / 256, (k - 1) as nat);
    }
}

/// Reading back the `k` bytes written for `n` gives `n` modulo `256^k`.
proof fn lemma_be_value_of_bytes(n: nat, k: nat)
    ensures
        be_value(be_bytes(n, k)) == n % pow256(k),
    decreases k,
{
    if k == 0 {
    } else {
        let p = pow256((k - 1) as nat);
        lemma_pow256_positive((k - 1) as nat);
        lemma_be_value_of_bytes(n / 256, (k - 1) as nat);
        let s = be_bytes(n, k);
        assert(s.drop_last() =~= be_bytes(n / 256, (k - 1) as nat));
        vstd::arithmetic::div_mod::lemma_mod_breakdown(n as int, 256, p as int);
        assert(be_value(s) == ((n / 256) % p) * 256 + n % 256);
        assert(pow256(k) == 256 * p);
        vstd::arithmetic::mul::lemma_mul_is_commutative(256, ((n / 256) % p) as int);
    }
}

/// The bytes of a `u64` read back as itself.
pub proof fn be_bytes_round_trip(n: u64)
    ensures
        be_bytes(n as nat, 8).len() == 8,
        be_value(be_bytes(n as nat, 8)) == n,
{
    lemma_be_bytes_len(n as nat, 8);
    lemma_be_value_of_bytes(n as nat, 8);
    lemma_pow256_8();
}

proof fn lemma_be_value_bound(s: Seq<u8>)
    ensures
        be_value(s) < pow256(s.len()),
    decreases s.len(),
{
    if s.len() > 0 {
        let k = s.len();
        lemma_be_value_bound(s.drop_last());
        let x = be_value(s.drop_last());
        let p = pow256((k - 1) as nat);
        let b = s.last();
        assert(x * 256 + b < p * 256) by (nonlinear_arith)
            requires
                x < p,
                b < 256,
        ;
    }
}

/// Reads the big-endian integer in `bytes`, eight of them.
pub fn read_u64_be(bytes: &[u8]) -> (n: u64)
    requires
        bytes@.len() == 8,
    ensures
        n == be_value(bytes@),
{
    let mut acc: u64 = 0;
    let mut i: usize = 0;
    proof {
        lemma_pow256_8();
        assert(bytes@.take(0) =~= Seq::<u8>::empty());
    }
    while i < 8
        invariant
            bytes@.len() == 8,
            i <= 8,
            acc == be_value(bytes@.take(i as int)),
            acc < pow256(i as nat),
            pow256(8) == 0x1_0000_0000_0000_0000,
        decreases 8 - i,
    {
        let b = bytes[i];
        proof {
            assert(bytes@.take(i + 1).drop_last() =~= bytes@.take(i as int));
            lemma_be_value_bound(bytes@.take(i + 1));
            assert(pow256((i + 1) as nat) <= pow256(8)) by {
                lemma_pow256_monotone((i + 1) as nat, 8);
            }
        }
        acc = acc * 256 + b as u64;
        i = i + 1;
    }
    assert(bytes@.take(8) =~= bytes@);
    acc
}

proof fn lemma_pow256_monotone(a: nat, b: nat)
    requires
        a <= b,
    ensures
        pow256(a) <= pow256(b),
    decreases b,
{
    if a < b {
        lemma_pow256_monotone(a, (b - 1) as nat);
        lemma_pow256_positive((b - 1) as nat);
    }
}

/// Appends the `k` low-order bytes of `n` to `out`, most significant first.
fn push_be(out: &mut Vec<u8>, n: u64, k: usize)
    ensures
        final(out)@ == old(out)@ + be_bytes(n as nat, k as nat),
    decreases k,
{
    if k > 0 {
        push_be(out, n / 256, k - 1);
        out.push((n % 256) as u8);
        proof {
            assert(final(out)@ =~= old(out)@ + be_bytes(n as nat, k as nat));
        }
    } else {
        proof {
            assert(final(out)@ =~= old(out)@ + be_bytes(n as nat, k as nat));
        }
    }
}

/// Appends `n` to `out` as an 8-byte big-endian integer.
pub fn push_u64_be(out: &mut Vec<u8>, n: u64)
    ensures
        final(out)@ == old(out)@ + be_bytes(n as nat, 8),
{
    push_be(out, n, 8);
}

/// Whether `file` can be read as an index file without running past its end.
pub fn is_well_framed(file: &[u8]) -> (b: bool)
    ensures
        b == well_framed(file@),
{
    let len = file.len();
    if len < 16 {
        return false;
    }
    let version_len = read_u64_be(&file[0..8]);
    if version_len > (len - 16) as u64 {
        return false;
    }
    let v = version_len as usize;
    let index_len = read_u64_be(&file[8 + v..16 + v]);
    index_len <= (len - 16 - v) as u64
}

/// The serialized index that a well-framed file holds: the block after the
/// version block, as long as the file announces. A file that is not well
/// framed has no such block (reading it would run past its end).
pub fn index_bytes(file: &[u8]) -> (bytes: &[u8])
    requires
        well_framed(file@),
    ensures
        bytes@ == index_payload(file@),
{
    let (version_size_bytes, rest) = file.split_at(8);
    let version_len = read_u64_be(version_size_bytes);
    let (_version_bytes, rest) = rest.split_at(version_len as usize);
    let (index_size_bytes, rest) = rest.split_at(8);
    let index_len = read_u64_be(index_size_bytes);
    proof {
        assert(version_size_bytes@ =~= file@.subrange(0, 8));
        assert(index_size_bytes@ =~= file@.subrange(
            8 + version_len as int,
            16 + version_len as int,
        ));
    }
    let (index, _rest) = rest.split_at(index_len as usize);
    proof {
        assert(index@ =~= index_payload(file@));
    }
    index
}

/// The contents of an index file holding `version` and then `index`, each
/// preceded by its length.
pub fn frame_index_file(version: &[u8], index: &[u8]) -> (file: Vec<u8>)
    ensures
        file@ == index_file(version@, index@),
        file@.len() == 16 + version@.len() + index@.len(),
{
    let mut file: Vec<u8> = Vec::new();
    push_u64_be(&mut file, version.len() as u64);
    let mut i: usize = 0;
    while i < version.len()
        invariant
            i <= version@.len(),
            file@ == be_bytes(version@.len(), 8) + version@.take(i as int),
        decreases version@.len() - i,
    {
        file.push(version[i]);
        i = i + 1;
        proof {
            assert(file@ =~= be_bytes(version@.len(), 8) + version@.take(i as int));
        }
    }
    push_u64_be(&mut file, index.len() as u64);
    let mut j: usize = 0;
    while j < index.len()
        invariant
            j <= index@.len(),
            file@ == length_prefixed(version@) + be_bytes(index@.len(), 8) + index@.take(j as int),
        decreases index@.len() - j,
    {
        file.push(index[j]);
        j = j + 1;
        proof {
            assert(file@ =~= length_prefixed(version@) + be_bytes(index@.len(), 8) + index@.take(
                j as int,
            ));
        }
    }
    proof {
        assert(version@.take(version@.len() as int) =~= version@);
        assert(index@.take(index@.len() as int) =~= index@);
        assert(file@ =~= index_file(version@, index@));
        be_bytes_round_trip(version@.len() as u64);
        be_bytes_round_trip(index@.len() as u64);
    }
    file
}

/// Reading a file that was framed from `version` and `index` finds it well
/// framed and gives back both blocks.
pub proof fn index_file_round_trip(version: Seq<u8>, index: Seq<u8>)
    requires
        version.len() < 0x1_0000_0000_0000_0000,
        index.len() < 0x1_0000_0000_0000_0000,
    ensures
        well_framed(index_file(version, index)),
        version_payload(index_file(version, index)) == version,
        index_payload(index_file(version, index)) == index,
        index_file(version, index).len() == 16 + version.len() + index.len(),
{
    let f = index_file(version, index);
    be_bytes_round_trip(version.len() as u64);
    be_bytes_round_trip(index.len() as u64);
    let vl = version.len() as int;
    assert(f.subrange(0, 8) =~= be_bytes(version.len(), 8));
    assert(version_size(f) == version.len());
    assert(f.subrange(8 + vl, 16 + vl) =~= be_bytes(index.len(), 8));
    assert(index_size(f) == index.len());
    assert(version_payload(f) =~= version);
    assert(index_payload(f) =~= index);
}

/// The 8 bytes written for `n` are its big-endian encoding: byte `i` is the
/// digit of `n` in base 256 at place `7 - i`.
pub proof fn be_bytes_are_base_256_digits(n: u64)
    ensures
        be_bytes(n as nat, 8).len() == 8,
        be_bytes(n as nat, 8)[0] == (n / 0x100_0000_0000_0000) % 256,
        be_bytes(n as nat, 8)[1] == (n / 0x1_0000_0000_0000) % 256,
        be_bytes(n as nat, 8)[2] == (n / 0x100_0000_0000) % 256,
        be_bytes(n as nat, 8)[3] == (n / 0x1_0000_0000) % 256,
        be_bytes(n as nat, 8)[4] == (n / 0x100_0000) % 256,
        be_bytes(n as nat, 8)[5] == (n / 0x1_0000) % 256,
        be_bytes(n as nat, 8)[6] == (n / 0x100) % 256,
        be_bytes(n as nat, 8)[7] == n % 256,
{
    let x = n as nat;
    lemma_be_bytes_len(x, 8);
    let q1 = x / 256;
    let q2 = q1 / 256;
    let q3 = q2 / 256;
    let q4 = q3 / 256;
    let q5 = q4 / 256;
    let q6 = q5 / 256;
    let q7 = q6 / 256;
    assert(be_bytes(x, 8) =~= seq![
        (q7 % 256) as u8,
        (q6 % 256) as u8,
        (q5 % 256) as u8,
        (q4 % 256) as u8,
        (q3 % 256) as u8,
        (q2 % 256) as u8,
        (q1 % 256) as u8,
        (x % 256) as u8,
    ]) by {
        reveal_with_fuel(be_bytes, 9);
    }
    vstd::arithmetic::div_mod::lemma_div_denominator(x as int, 256, 256);
    vstd::arithmetic::div_mod::lemma_div_denominator(x as int, 0x1_0000, 256);
    vstd::arithmetic::div_mod::lemma_div_denominator(x as int, 0x100_0000, 256);
    vstd::arithmetic::div_mod::lemma_div_denominator(x as int, 0x1_0000_0000, 256);
    vstd::arithmetic::div_mod::lemma_div_denominator(x as int, 0x100_0000_0000, 256);
    vstd::arithmetic::div_mod::lemma_div_denominator(x as int, 0x1_0000_0000_0000, 256);
    vstd::arithmetic::div_mod::lemma_div_denominator(x as int, 0x100_0000_0000_0000, 256);
}

/// Eight bytes read as the number whose base-256 digits they are, the first
/// byte most significant.
pub proof fn be_value_weighs_bytes_by_place(s: Seq<u8>)
    requires
        s.len() == 8,
    ensures
        be_value(s) == s[0] * 0x100_0000_0000_0000 + s[1] * 0x1_0000_0000_0000 + s[2]
            * 0x100_0000_0000 + s[3] * 0x1_0000_0000 + s[4] * 0x100_0000 + s[5] * 0x1_0000 + s[6]
            * 0x100 + s[7],
{
    let s7 = s.drop_last();
    let s6 = s7.drop_last();
    let s5 = s6.drop_last();
    let s4 = s5.drop_last();
    let s3 = s4.drop_last();
    let s2 = s3.drop_last();
    let s1 = s2.drop_last();
    let s0 = s1.drop_last();
    assert(s0.len() == 0);
    assert(be_value(s1) == s[0]) by {
        assert(s1.last() == s[0]);
        assert(be_value(s0) == 0);
    }
    assert(be_value(s2) == be_value(s1) * 256 + s[1]) by {
        assert(s2.last() == s[1]);
    }
    assert(be_value(s3) == be_value(s2) * 256 + s[2]) by {
        assert(s3.last() == s[2]);
    }
    assert(be_value(s4) == be_value(s3) * 256 + s[3]) by {
        assert(s4.last() == s[3]);
    }
    assert(be_value(s5) == be_value(s4) * 256 + s[4]) by {
        assert(s5.last() == s[4]);
    }
    assert(be_value(s6) == be_value(s5) * 256 + s[5]) by {
        assert(s6.last() == s[5]);
    }
    assert(be_value(s7) == be_value(s6) * 256 + s[6]) by {
        assert(s7.last() == s[6]);
    }
    assert(be_value(s) == be_value(s7) * 256 + s[7]);
    let (a, b, c, d, e, f, g, h) = (
        s[0] as int,
        s[1] as int,
        s[2] as int,
        s[3] as int,
        s[4] as int,
        s[5] as int,
        s[6] as int,
        s[7] as int,
    );
    assert(((((((a * 256 + b) * 256 + c) * 256 + d) * 256 + e) * 256 + f) * 256 + g) * 256 + h
        == a * 0x100_0000_0000_0000 + b * 0x1_0000_0000_0000 + c * 0x100_0000_0000 + d
        * 0x1_0000_0000 + e * 0x100_0000 + f * 0x1_0000 + g * 0x100 + h) by (nonlinear_arith);
}

/// Bytes after the index block change nothing: a well-framed file stays
/// well framed, with the same blocks, whatever follows it.
pub proof fn trailing_bytes_are_ignored(file: Seq<u8>, tail: Seq<u8>)
    requires
        well_framed(file),
    ensures
        well_framed(file + tail),
        version_payload(file + tail) == version_payload(file),
        index_payload(file + tail) == index_payload(file),
{
    let f = file + tail;
    assert(f.subrange(0, 8) =~= file.subrange(0, 8));
    let v = version_size(file) as int;
    assert(f.subrange(8 + v, 16 + v) =~= file.subrange(8 + v, 16 + v));
    assert(version_payload(f) =~= version_payload(file));
    assert(index_payload(f) =~= index_payload(file));
}

/// A file cut anywhere before the end of its index block is not well
/// framed: reading it would run past its end.
pub proof fn cut_files_are_not_well_framed(file: Seq<u8>, len: int)
    requires
        well_framed(file),
        0 <= len < 16 + version_size(file) + index_size(file),
    ensures
        !well_framed(file.subrange(0, len)),
{
    let c = file.subrange(0, len);
    if len >= 16 {
        assert(c.subrange(0, 8) =~= file.subrange(0, 8));
        let v = version_size(file) as int;
        if len >= 16 + v {
            assert(c.subrange(8 + v, 16 + v) =~= file.subrange(8 + v, 16 + v));
        }
    }
}

} // verus!
