//! The 64-bit cyclic redundancy check of ECMA.

use vstd::prelude::*;

verus! {

/// The polynomial of ECMA, as it is used when bits are shifted out to the
/// right.
pub const POLY: u64 = 0xC96C5795D7870F42;

/// The remainder after one bit has been shifted out.
pub open spec fn shifted(c: u64) -> u64 {
    if c & 1 != 0 {
        (c >> 1) ^ POLY
    } else {
        c >> 1
    }
}

/// The remainder after eight bits have been shifted out.
pub open spec fn shifted_byte(c: u64) -> u64 {
    shifted(shifted(shifted(shifted(shifted(shifted(shifted(shifted(c))))))))
}

/// The remainder after the given number of bits have been shifted out.
spec fn shifted_times(c: u64, n: nat) -> u64
    decreases n,
{
    if n == 0 {
        c
    } else {
        shifted(shifted_times(c, (n - 1) as nat))
    }
}

/// The remainder after some bytes, from the given one: each byte is mixed
/// into the low end, and its eight bits are shifted out.
pub open spec fn remainder_from(value: u64, bytes: Seq<u8>) -> u64
    decreases bytes.len(),
{
    if bytes.len() == 0 {
        value
    } else {
        shifted_byte(remainder_from(value, bytes.drop_last()) ^ (bytes.last() as u64))
    }
}

/// The check after some bytes, from the given one: a check is the complement
/// of a remainder, so that leading zeros count.
pub open spec fn crc_from(value: u64, bytes: Seq<u8>) -> u64 {
    !remainder_from(!value, bytes)
}

/// The bytes of a number, the most significant first.
pub open spec fn big_endian(v: u64) -> Seq<u8> {
    seq![
        (v >> 56) as u8,
        (v >> 48) as u8,
        (v >> 40) as u8,
        (v >> 32) as u8,
        (v >> 24) as u8,
        (v >> 16) as u8,
        (v >> 8) as u8,
        v as u8,
    ]
}

/// Shifting a bit out goes through sums.
proof fn lemma_shifted_sum(a: u64, b: u64)
    ensures
        shifted(a ^ b) == shifted(a) ^ shifted(b),
{
    assert(shifted(a ^ b) == shifted(a) ^ shifted(b)) by (bit_vector);
}

/// Shifting a byte out goes through sums.
proof fn lemma_shifted_byte_sum(a: u64, b: u64)
    ensures
        shifted_byte(a ^ b) == shifted_byte(a) ^ shifted_byte(b),
{
    let (a1, b1) = (shifted(a), shifted(b));
    let (a2, b2) = (shifted(a1), shifted(b1));
    let (a3, b3) = (shifted(a2), shifted(b2));
    let (a4, b4) = (shifted(a3), shifted(b3));
    let (a5, b5) = (shifted(a4), shifted(b4));
    let (a6, b6) = (shifted(a5), shifted(b5));
    let (a7, b7) = (shifted(a6), shifted(b6));
    lemma_shifted_sum(a, b);
    lemma_shifted_sum(a1, b1);
    lemma_shifted_sum(a2, b2);
    lemma_shifted_sum(a3, b3);
    lemma_shifted_sum(a4, b4);
    lemma_shifted_sum(a5, b5);
    lemma_shifted_sum(a6, b6);
    lemma_shifted_sum(a7, b7);
}

/// A value whose low byte is empty is only moved.
proof fn lemma_high_part_moves(h: u64)
    requires
        h & 0xFF == 0,
    ensures
        shifted_byte(h) == h >> 8,
{
    assert(shifted(h) == h >> 1 && shifted(h >> 1) == h >> 2 && shifted(h >> 2) == h >> 3
        && shifted(h >> 3) == h >> 4 && shifted(h >> 4) == h >> 5 && shifted(h >> 5) == h >> 6
        && shifted(h >> 6) == h >> 7 && shifted(h >> 7) == h >> 8) by (bit_vector)
        requires
            h & 0xFF == 0,
    ;
}

/// The eight bits that leave a check value decide what the table adds to the
/// rest of it.
proof fn lemma_table_step(c: u64)
    ensures
        shifted_byte(c) == (c >> 8) ^ shifted_byte(c & 0xFF),
{
    let h: u64 = c & 0xFFFFFFFFFFFFFF00;
    let l: u64 = c & 0xFF;
    assert(c & 0xFFFFFFFFFFFFFF00 & 0xFF == 0) by (bit_vector);
    assert((c & 0xFFFFFFFFFFFFFF00) ^ (c & 0xFF) == c) by (bit_vector);
    assert((c & 0xFFFFFFFFFFFFFF00) >> 8 == c >> 8) by (bit_vector);
    lemma_shifted_byte_sum(h, l);
    lemma_high_part_moves(h);
}

/// A complement that is complemented is what it was.
proof fn lemma_complement(v: u64)
    ensures
        !!v == v,
{
    assert(!!v == v) by (bit_vector);
}

/// No two remainders become the same when a bit is shifted out.
proof fn lemma_shifted_tells_apart(a: u64, b: u64)
    requires
        shifted(a) == shifted(b),
    ensures
        a == b,
{
    assert(a == b) by (bit_vector)
        requires
            shifted(a) == shifted(b),
    ;
}

/// No two remainders become the same when a byte is shifted out.
proof fn lemma_shifted_byte_tells_apart(a: u64, b: u64)
    requires
        shifted_byte(a) == shifted_byte(b),
    ensures
        a == b,
{
    let (a1, b1) = (shifted(a), shifted(b));
    let (a2, b2) = (shifted(a1), shifted(b1));
    let (a3, b3) = (shifted(a2), shifted(b2));
    let (a4, b4) = (shifted(a3), shifted(b3));
    let (a5, b5) = (shifted(a4), shifted(b4));
    let (a6, b6) = (shifted(a5), shifted(b5));
    let (a7, b7) = (shifted(a6), shifted(b6));
    lemma_shifted_tells_apart(a7, b7);
    lemma_shifted_tells_apart(a6, b6);
    lemma_shifted_tells_apart(a5, b5);
    lemma_shifted_tells_apart(a4, b4);
    lemma_shifted_tells_apart(a3, b3);
    lemma_shifted_tells_apart(a2, b2);
    lemma_shifted_tells_apart(a1, b1);
    lemma_shifted_tells_apart(a, b);
}

/// The remainder of bytes that come in two pieces is that of the second
/// piece, begun where the first one ended.
proof fn lemma_remainder_by_pieces(value: u64, first: Seq<u8>, second: Seq<u8>)
    ensures
        remainder_from(value, first + second) == remainder_from(
            remainder_from(value, first),
            second,
        ),
    decreases second.len(),
{
    if second.len() == 0 {
        assert(first + second =~= first);
    } else {
        lemma_remainder_by_pieces(value, first, second.drop_last());
        assert((first + second).drop_last() =~= first + second.drop_last());
    }
}

/// Different remainders stay different, whatever bytes follow.
proof fn lemma_remainders_stay_apart(a: u64, b: u64, bytes: Seq<u8>)
    requires
        a != b,
    ensures
        remainder_from(a, bytes) != remainder_from(b, bytes),
    decreases bytes.len(),
{
    if bytes.len() > 0 {
        lemma_remainders_stay_apart(a, b, bytes.drop_last());
        let x = remainder_from(a, bytes.drop_last());
        let y = remainder_from(b, bytes.drop_last());
        let last = bytes.last() as u64;
        if shifted_byte(x ^ last) == shifted_byte(y ^ last) {
            lemma_shifted_byte_tells_apart(x ^ last, y ^ last);
            assert(x == y) by (bit_vector)
                requires
                    x ^ last == y ^ last,
            ;
        }
    }
}

/// The check of bytes that come in two pieces is the check of the second
/// piece, begun where the first one ended.
pub proof fn law_check_by_pieces(value: u64, first: Seq<u8>, second: Seq<u8>)
    ensures
        crc_from(value, first + second) == crc_from(crc_from(value, first), second),
{
    lemma_remainder_by_pieces(!value, first, second);
    lemma_complement(remainder_from(!value, first));
}

/// A change of one byte, wherever it is, changes the check.
pub proof fn law_changed_byte_changes_the_check(
    value: u64,
    front: Seq<u8>,
    a: u8,
    b: u8,
    back: Seq<u8>,
)
    requires
        a != b,
    ensures
        crc_from(value, front.push(a) + back) != crc_from(value, front.push(b) + back),
{
    lemma_remainder_by_pieces(!value, front.push(a), back);
    lemma_remainder_by_pieces(!value, front.push(b), back);
    assert(front.push(a).drop_last() =~= front);
    assert(front.push(b).drop_last() =~= front);
    let c = remainder_from(!value, front);
    let x = shifted_byte(c ^ (a as u64));
    let y = shifted_byte(c ^ (b as u64));
    if x == y {
        lemma_shifted_byte_tells_apart(c ^ (a as u64), c ^ (b as u64));
        assert(a == b) by (bit_vector)
            requires
                c ^ (a as u64) == c ^ (b as u64),
        ;
    }
    lemma_remainders_stay_apart(x, y, back);
    lemma_complement(remainder_from(x, back));
    lemma_complement(remainder_from(y, back));
}

/// Computes the check of a stream of bytes, with a table of what each byte
/// that leaves the check value adds to it.
pub struct Crc64 {
    table: [u64; 256],
    value: u64,
}

impl Crc64 {
    #[verifier::type_invariant]
    spec fn well_formed(self) -> bool {
        forall|i: int| 0 <= i < 256 ==> #[trigger] self.table@[i] == shifted_byte(i as u64)
    }

    /// The check value so far.
    pub closed spec fn so_far(&self) -> u64 {
        self.value
    }

    /// The check of no bytes.
    pub fn new() -> (r: Self)
        ensures
            r.so_far() == 0,
    {
        let mut table: [u64; 256] = [0u64;256];
        let mut i: usize = 0;
        while i < 256
            invariant
                i <= 256,
                forall|j: int| 0 <= j < i ==> #[trigger] table@[j] == shifted_byte(j as u64),
            decreases 256 - i,
        {
            let mut crc: u64 = i as u64;
            let mut n: usize = 0;
            while n < 8
                invariant
                    n <= 8,
                    crc == shifted_times(i as u64, n as nat),
                decreases 8 - n,
            {
                if crc & 1 != 0 {
                    crc = (crc >> 1) ^ POLY;
                } else {
                    crc = crc >> 1;
                }
                n += 1;
            }
            proof {
                reveal_with_fuel(shifted_times, 9);
            }
            table[i] = crc;
            i += 1;
        }
        Crc64 { table, value: 0 }
    }

    /// Takes up more bytes.
    pub fn update(&mut self, buf: &[u8])
        ensures
            final(self).so_far() == crc_from(old(self).so_far(), buf@),
    {
        let mut value: u64 = !self.value;
        let mut i: usize = 0;
        assert(buf@.take(0) =~= Seq::empty());
        proof {
            use_type_invariant(&*self);
        }
        while i < buf.len()
            invariant
                i <= buf@.len(),
                *self == *old(self),
                forall|j: int| 0 <= j < 256 ==> #[trigger] self.table@[j] == shifted_byte(j as u64),
                value == remainder_from(!old(self).value, buf@.take(i as int)),
            decreases buf@.len() - i,
        {
            let mixed: u64 = value ^ (buf[i] as u64);
            let low: usize = (mixed & 0xFF) as usize;
            proof {
                let b: u8 = buf@[i as int];
                let before: u64 = value;
                assert(mixed & 0xFF < 256) by (bit_vector);
                assert(before >> 8 == (before ^ (b as u64)) >> 8) by (bit_vector);
                lemma_table_step(mixed);
                assert(buf@.take(i + 1).drop_last() =~= buf@.take(i as int));
            }
            value = (value >> 8) ^ self.table[low];
            i += 1;
        }
        assert(buf@.take(i as int) =~= buf@);
        self.value = !value;
    }

    /// The check of the bytes that were taken up.
    pub fn finish(&self) -> (r: Crc64Digest)
        ensures
            r.0 == self.so_far(),
    {
        Crc64Digest(self.value)
    }
}

/// A finished check.
pub struct Crc64Digest(pub u64);

impl Crc64Digest {
    /// The check as bytes, the most significant first.
    pub fn into_bytes(self) -> (r: [u8; 8])
        ensures
            r@ == big_endian(self.0),
    {
        let v: u64 = self.0;
        let r: [u8; 8] = [
            (v >> 56) as u8,
            (v >> 48) as u8,
            (v >> 40) as u8,
            (v >> 32) as u8,
            (v >> 24) as u8,
            (v >> 16) as u8,
            (v >> 8) as u8,
            v as u8,
        ];
        assert(r@ =~= big_endian(v));
        r
    }
}

/// Different numbers have different bytes.
pub proof fn law_bytes_tell_numbers_apart(a: u64, b: u64)
    requires
        big_endian(a) == big_endian(b),
    ensures
        a == b,
{
    let x = big_endian(a);
    let y = big_endian(b);
    assert(x[0] == y[0] && x[1] == y[1] && x[2] == y[2] && x[3] == y[3] && x[4] == y[4] && x[5]
        == y[5] && x[6] == y[6] && x[7] == y[7]);
    assert(a == b) by (bit_vector)
        requires
            (a >> 56) as u8 == (b >> 56) as u8,
            (a >> 48) as u8 == (b >> 48) as u8,
            (a >> 40) as u8 == (b >> 40) as u8,
            (a >> 32) as u8 == (b >> 32) as u8,
            (a >> 24) as u8 == (b >> 24) as u8,
            (a >> 16) as u8 == (b >> 16) as u8,
            (a >> 8) as u8 == (b >> 8) as u8,
            a as u8 == b as u8,
    ;
}

} // verus!
