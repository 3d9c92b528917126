//! Little-endian values in a byte stream, and lists of them behind a count.

use crate::errors::CacheError;
use crate::math::F32Bits;
use vstd::prelude::*;

verus! {

/// What reading one value off the front of a byte sequence gives: the value and what is left, or
/// the reason why there is none.
pub type Parsed<T> = Result<(T, Seq<u8>), CacheError>;

/// `256` to the power `n`.
pub open spec fn pow256(n: nat) -> nat
    decreases n,
{
    if n == 0 {
        1
    } else {
        256 * pow256((n - 1) as nat)
    }
}

/// The `n` lowest bytes of `value`, lowest first.
pub open spec fn le_bytes(value: nat, n: nat) -> Seq<u8>
    decreases n,
{
    if n == 0 {
        Seq::empty()
    } else {
        seq![(value % 256) as u8] + le_bytes(value / 256, (n - 1) as nat)
    }
}

/// The number that `bytes` spells, lowest byte first.
pub open spec fn le_value(bytes: Seq<u8>) -> nat
    decreases bytes.len(),
{
    if bytes.len() == 0 {
        0
    } else {
        bytes[0] as nat + 256 * le_value(bytes.drop_first())
    }
}

pub proof fn lemma_le_bytes_len(value: nat, n: nat)
    ensures
        le_bytes(value, n).len() == n,
    decreases n,
{
    if n > 0 {
        lemma_le_bytes_len(value / 256, (n - 1) as nat);
    }
}

pub proof fn lemma_le_value_bound(bytes: Seq<u8>)
    ensures
        le_value(bytes) < pow256(bytes.len()),
    decreases bytes.len(),
{
    if bytes.len() > 0 {
        lemma_le_value_bound(bytes.drop_first());
    }
}

pub proof fn lemma_pow256_values()
    ensures
        pow256(1) == 0x100,
        pow256(2) == 0x1_0000,
        pow256(4) == 0x1_0000_0000,
        pow256(8) == 0x1_0000_0000_0000_0000,
{
    reveal_with_fuel(pow256, 9);
}

/// A number that fits in `n` bytes is spelled by its own `n` bytes.
pub proof fn lemma_le_round_trip(value: nat, n: nat)
    requires
        value < pow256(n),
    ensures
        le_value(le_bytes(value, n)) == value,
    decreases n,
{
    if n > 0 {
        lemma_le_round_trip(value / 256, (n - 1) as nat);
        let all = le_bytes(value, n);
        assert(all.drop_first() =~= le_bytes(value / 256, (n - 1) as nat));
    }
}

/// Bytes are those of the number that they spell.
pub proof fn lemma_le_spells(bytes: Seq<u8>)
    ensures
        le_bytes(le_value(bytes), bytes.len()) == bytes,
    decreases bytes.len(),
{
    if bytes.len() > 0 {
        lemma_le_spells(bytes.drop_first());
        let value = le_value(bytes);
        assert(value % 256 == bytes[0] && value / 256 == le_value(bytes.drop_first()));
        assert(bytes =~= seq![bytes[0]] + bytes.drop_first());
    }
}

/// Joining sequences in either order.
pub proof fn lemma_join(a: Seq<u8>, b: Seq<u8>, c: Seq<u8>)
    ensures
        (a + b) + c == a + (b + c),
{
    assert((a + b) + c =~= a + (b + c));
}

/// A position in a block of bytes.
pub struct ByteReader<'a> {
    pub data: &'a [u8],
    pub pos: usize,
}

impl<'a> ByteReader<'a> {
    /// The position lies within the data.
    pub open spec fn wf(&self) -> bool {
        self.pos <= self.data@.len()
    }

    /// What has not been read yet.
    pub open spec fn rest(&self) -> Seq<u8> {
        self.data@.skip(self.pos as int)
    }

    /// Starts at the first byte of `data`.
    pub fn new(data: &'a [u8]) -> (r: Self)
        ensures
            r.wf(),
            r.data == data,
            r.rest() == data@,
    {
        let r = ByteReader { data, pos: 0 };
        assert(r.rest() =~= data@);
        r
    }
}

/// `after` continues `before`: same data, at the same position or further on.
pub open spec fn continues(before: ByteReader, after: ByteReader) -> bool {
    &&& after.wf()
    &&& after.data == before.data
    &&& before.pos <= after.pos
}

/// A read that turned `before` into `after` and gave `out` did what `parsed` says. After a failed
/// read the position is somewhere between the start of the value and its failing part.
pub open spec fn reads<T: View>(
    before: ByteReader,
    after: ByteReader,
    out: Result<T, CacheError>,
    parsed: Parsed<T::V>,
) -> bool {
    &&& continues(before, after)
    &&& match parsed {
        Ok((value, rest)) => out is Ok && out->Ok_0@ == value && after.rest() == rest,
        Err(error) => out == Err::<T, CacheError>(error),
    }
}

/// Reading `n` bytes as one little-endian number.
pub open spec fn parse_le(s: Seq<u8>, n: nat) -> Parsed<nat> {
    if s.len() < n {
        Err(CacheError::UnexpectedEof)
    } else {
        Ok((le_value(s.take(n as int)), s.skip(n as int)))
    }
}

pub open spec fn parse_u8(s: Seq<u8>) -> Parsed<u8> {
    match parse_le(s, 1) {
        Ok((v, rest)) => Ok((v as u8, rest)),
        Err(e) => Err(e),
    }
}

pub open spec fn parse_u16(s: Seq<u8>) -> Parsed<u16> {
    match parse_le(s, 2) {
        Ok((v, rest)) => Ok((v as u16, rest)),
        Err(e) => Err(e),
    }
}

pub open spec fn parse_u32(s: Seq<u8>) -> Parsed<u32> {
    match parse_le(s, 4) {
        Ok((v, rest)) => Ok((v as u32, rest)),
        Err(e) => Err(e),
    }
}

pub open spec fn parse_u64(s: Seq<u8>) -> Parsed<u64> {
    match parse_le(s, 8) {
        Ok((v, rest)) => Ok((v as u64, rest)),
        Err(e) => Err(e),
    }
}

/// The 32 bits of a signed number in two's complement, as an unsigned one.
pub open spec fn i32_bits(v: i32) -> u32 {
    if v >= 0 {
        v as u32
    } else {
        (v + 0x1_0000_0000) as u32
    }
}

/// The signed number whose two's complement has these 32 bits.
pub open spec fn i32_of_bits(bits: u32) -> i32 {
    if bits < 0x8000_0000 {
        bits as i32
    } else {
        (bits - 0x1_0000_0000) as i32
    }
}

pub open spec fn parse_i32(s: Seq<u8>) -> Parsed<i32> {
    match parse_u32(s) {
        Ok((v, rest)) => Ok((i32_of_bits(v), rest)),
        Err(e) => Err(e),
    }
}

/// Reading back what `le_bytes` spelled.
pub proof fn lemma_parse_le(value: nat, n: nat, tail: Seq<u8>)
    requires
        value < pow256(n),
    ensures
        parse_le(le_bytes(value, n) + tail, n) == Ok::<(nat, Seq<u8>), CacheError>((value, tail)),
{
    let s = le_bytes(value, n) + tail;
    lemma_le_bytes_len(value, n);
    lemma_le_round_trip(value, n);
    assert(s.take(n as int) =~= le_bytes(value, n));
    assert(s.skip(n as int) =~= tail);
}

pub proof fn lemma_parse_u8(v: u8, tail: Seq<u8>)
    ensures
        parse_u8(le_bytes(v as nat, 1) + tail) == Ok::<(u8, Seq<u8>), CacheError>((v, tail)),
{
    lemma_pow256_values();
    lemma_parse_le(v as nat, 1, tail);
}

pub proof fn lemma_parse_u16(v: u16, tail: Seq<u8>)
    ensures
        parse_u16(le_bytes(v as nat, 2) + tail) == Ok::<(u16, Seq<u8>), CacheError>((v, tail)),
{
    lemma_pow256_values();
    lemma_parse_le(v as nat, 2, tail);
}

pub proof fn lemma_parse_u32(v: u32, tail: Seq<u8>)
    ensures
        parse_u32(le_bytes(v as nat, 4) + tail) == Ok::<(u32, Seq<u8>), CacheError>((v, tail)),
{
    lemma_pow256_values();
    lemma_parse_le(v as nat, 4, tail);
}

pub proof fn lemma_parse_u64(v: u64, tail: Seq<u8>)
    ensures
        parse_u64(le_bytes(v as nat, 8) + tail) == Ok::<(u64, Seq<u8>), CacheError>((v, tail)),
{
    lemma_pow256_values();
    lemma_parse_le(v as nat, 8, tail);
}

pub proof fn lemma_u32_is_written_back(s: Seq<u8>)
    ensures
        parse_u32(s) matches Ok((v, rest)) ==> s == le_bytes(v as nat, 4) + rest,
{
    if s.len() >= 4 {
        let front = s.take(4);
        lemma_le_spells(front);
        lemma_le_value_bound(front);
        lemma_pow256_values();
        assert(s =~= front + s.skip(4));
    }
}

pub proof fn lemma_u64_is_written_back(s: Seq<u8>)
    ensures
        parse_u64(s) matches Ok((v, rest)) ==> s == le_bytes(v as nat, 8) + rest,
{
    if s.len() >= 8 {
        let front = s.take(8);
        lemma_le_spells(front);
        lemma_le_value_bound(front);
        lemma_pow256_values();
        assert(s =~= front + s.skip(8));
    }
}

/// The bytes of `s` in front of `rest`.
pub open spec fn taken(s: Seq<u8>, rest: Seq<u8>) -> Seq<u8> {
    s.take(s.len() - rest.len())
}

/// Whether `rest` is the end of `s`.
pub open spec fn ends_in(s: Seq<u8>, rest: Seq<u8>) -> bool {
    rest.len() <= s.len() && s == taken(s, rest) + rest
}

/// The bytes of `s` that were read, where reading succeeded.
pub open spec fn read_part<V>(s: Seq<u8>, parsed: Parsed<V>) -> Seq<u8> {
    match parsed {
        Ok((_, rest)) => taken(s, rest),
        Err(_) => s,
    }
}

/// Where reading `s` succeeded, it took a front part of `s`, and reading `again` gave the same value
/// and left `tail`.
pub open spec fn reads_same<V>(
    s: Seq<u8>,
    parsed: Parsed<V>,
    again: Parsed<V>,
    tail: Seq<u8>,
) -> bool {
    match parsed {
        Ok((value, rest)) => ends_in(s, rest) && again == Ok::<(V, Seq<u8>), CacheError>(
            (value, tail),
        ),
        Err(_) => true,
    }
}

/// What two reads take, one after the other.
pub proof fn lemma_taken(s: Seq<u8>, middle: Seq<u8>, rest: Seq<u8>, tail: Seq<u8>)
    requires
        ends_in(s, middle),
        ends_in(middle, rest),
    ensures
        ends_in(s, rest),
        taken(s, rest) + tail == taken(s, middle) + (taken(middle, rest) + tail),
{
    assert(taken(s, rest) =~= taken(s, middle) + taken(middle, rest));
    assert(s =~= taken(s, rest) + rest);
    lemma_join(taken(s, middle), taken(middle, rest), tail);
}

/// Reading a number depends on nothing behind it.
pub proof fn lemma_le_reads_no_further(s: Seq<u8>, n: nat, tail: Seq<u8>)
    ensures
        reads_same(s, parse_le(s, n), parse_le(read_part(s, parse_le(s, n)) + tail, n), tail),
{
    if s.len() >= n {
        let front = s.take(n as int);
        assert(s =~= front + s.skip(n as int));
        assert((front + tail).take(n as int) =~= front);
        assert((front + tail).skip(n as int) =~= tail);
    }
}

pub proof fn lemma_u8_reads_no_further(s: Seq<u8>, tail: Seq<u8>)
    ensures
        reads_same(s, parse_u8(s), parse_u8(read_part(s, parse_u8(s)) + tail), tail),
{
    lemma_le_reads_no_further(s, 1, tail);
}

pub proof fn lemma_u16_reads_no_further(s: Seq<u8>, tail: Seq<u8>)
    ensures
        reads_same(s, parse_u16(s), parse_u16(read_part(s, parse_u16(s)) + tail), tail),
{
    lemma_le_reads_no_further(s, 2, tail);
}

pub proof fn lemma_u32_reads_no_further(s: Seq<u8>, tail: Seq<u8>)
    ensures
        reads_same(s, parse_u32(s), parse_u32(read_part(s, parse_u32(s)) + tail), tail),
{
    lemma_le_reads_no_further(s, 4, tail);
}

pub proof fn lemma_u64_reads_no_further(s: Seq<u8>, tail: Seq<u8>)
    ensures
        reads_same(s, parse_u64(s), parse_u64(read_part(s, parse_u64(s)) + tail), tail),
{
    lemma_le_reads_no_further(s, 8, tail);
}

/// Reads `n` bytes as one little-endian number.
fn take_le(r: &mut ByteReader, n: usize) -> (out: Result<u64, CacheError>)
    requires
        old(r).wf(),
        n <= 8,
    ensures
        continues(*old(r), *final(r)),
        match parse_le(old(r).rest(), n as nat) {
            Ok((value, rest)) => out == Ok::<u64, CacheError>(value as u64) && value <= u64::MAX
                && value < pow256(n as nat) && final(r).rest() == rest,
            Err(error) => out == Err::<u64, CacheError>(error) && *final(r) == *old(r),
        },
{
    let len: usize = r.data.len();
    if len - r.pos < n {
        return Err(CacheError::UnexpectedEof);
    }
    let ghost bytes = r.rest().take(n as int);
    let mut value: u64 = 0;
    let mut i: usize = n;
    proof {
        lemma_le_value_bound(bytes);
        lemma_pow256_values();
        lemma_pow256_monotone(n as nat, 8);
        assert(bytes.skip(n as int) =~= Seq::<u8>::empty());
    }
    while i > 0
        invariant
            i <= n <= 8,
            r.wf(),
            *r == *old(r),
            r.pos + n <= len == r.data@.len(),
            bytes == r.rest().take(n as int),
            value == le_value(bytes.skip(i as int)),
        decreases i,
    {
        i = i - 1;
        let byte = r.data[r.pos + i];
        proof {
            let longer = bytes.skip(i as int);
            assert(longer.drop_first() =~= bytes.skip(i + 1));
            assert(longer[0] == byte);
            lemma_le_value_bound(longer);
            lemma_pow256_values();
            lemma_pow256_monotone((n - i) as nat, 8);
        }
        value = value * 256 + byte as u64;
    }
    proof {
        assert(bytes.skip(0) =~= bytes);
    }
    r.pos = r.pos + n;
    proof {
        assert(r.rest() =~= old(r).rest().skip(n as int));
    }
    Ok(value)
}

pub proof fn lemma_pow256_monotone(a: nat, b: nat)
    requires
        a <= b,
    ensures
        pow256(a) <= pow256(b),
    decreases b,
{
    if a < b {
        lemma_pow256_monotone(a, (b - 1) as nat);
    }
}

/// Appends the `n` lowest bytes of `value`, lowest first.
fn put_le(w: &mut Vec<u8>, value: u64, n: usize)
    ensures
        final(w)@ == old(w)@ + le_bytes(value as nat, n as nat),
{
    let mut left: u64 = value;
    let mut i: usize = 0;
    proof {
        assert(w@ + le_bytes(value as nat, n as nat) =~= old(w)@ + le_bytes(value as nat, n as nat));
    }
    while i < n
        invariant
            i <= n,
            w@ + le_bytes(left as nat, (n - i) as nat) == old(w)@ + le_bytes(
                value as nat,
                n as nat,
            ),
        decreases n - i,
    {
        let byte = (left % 256) as u8;
        let ghost before = w@;
        w.push(byte);
        proof {
            let rest = le_bytes((left / 256) as nat, (n - i - 1) as nat);
            assert(le_bytes(left as nat, (n - i) as nat) == seq![byte] + rest);
            assert(before + (seq![byte] + rest) =~= w@ + rest);
        }
        left = left / 256;
        i = i + 1;
    }
    proof {
        assert(w@ + le_bytes(left as nat, 0) =~= w@);
    }
}

/// Appends one byte.
pub fn write_u8(w: &mut Vec<u8>, v: u8)
    ensures
        final(w)@ == old(w)@ + le_bytes(v as nat, 1),
{
    put_le(w, v as u64, 1);
}

/// Appends two bytes, lowest first.
pub fn write_u16(w: &mut Vec<u8>, v: u16)
    ensures
        final(w)@ == old(w)@ + le_bytes(v as nat, 2),
{
    put_le(w, v as u64, 2);
}

/// Appends four bytes, lowest first.
pub fn write_u32(w: &mut Vec<u8>, v: u32)
    ensures
        final(w)@ == old(w)@ + le_bytes(v as nat, 4),
{
    put_le(w, v as u64, 4);
}

/// Appends eight bytes, lowest first.
pub fn write_u64(w: &mut Vec<u8>, v: u64)
    ensures
        final(w)@ == old(w)@ + le_bytes(v as nat, 8),
{
    put_le(w, v, 8);
}

/// The two's complement of `v`.
pub fn bits_of_i32(v: i32) -> (out: u32)
    ensures
        out == i32_bits(v),
{
    if v >= 0 {
        v as u32
    } else {
        (v as i64 + 0x1_0000_0000) as u32
    }
}

/// The number whose two's complement is `bits`.
pub fn i32_from_bits(bits: u32) -> (out: i32)
    ensures
        out == i32_of_bits(bits),
{
    if bits < 0x8000_0000 {
        bits as i32
    } else {
        (bits as i64 - 0x1_0000_0000) as i32
    }
}

/// Appends the two's complement of `v`, lowest byte first.
pub fn write_i32(w: &mut Vec<u8>, v: i32)
    ensures
        final(w)@ == old(w)@ + le_bytes(i32_bits(v) as nat, 4),
{
    write_u32(w, bits_of_i32(v));
}

/// Appends a single-precision number: its bits, lowest byte first.
pub fn write_f32(w: &mut Vec<u8>, v: F32Bits)
    ensures
        final(w)@ == old(w)@ + le_bytes(v as nat, 4),
{
    write_u32(w, v);
}

/// Reads one byte.
pub fn read_u8(r: &mut ByteReader) -> (out: Result<u8, CacheError>)
    requires
        old(r).wf(),
    ensures
        reads(*old(r), *final(r), out, parse_u8(old(r).rest())),
{
    proof {
        lemma_pow256_values();
    }
    let v = take_le(r, 1)?;
    Ok(v as u8)
}

/// Reads two bytes, lowest first.
pub fn read_u16(r: &mut ByteReader) -> (out: Result<u16, CacheError>)
    requires
        old(r).wf(),
    ensures
        reads(*old(r), *final(r), out, parse_u16(old(r).rest())),
{
    proof {
        lemma_pow256_values();
    }
    let v = take_le(r, 2)?;
    Ok(v as u16)
}

/// Reads four bytes, lowest first.
pub fn read_u32(r: &mut ByteReader) -> (out: Result<u32, CacheError>)
    requires
        old(r).wf(),
    ensures
        reads(*old(r), *final(r), out, parse_u32(old(r).rest())),
{
    proof {
        lemma_pow256_values();
    }
    let v = take_le(r, 4)?;
    Ok(v as u32)
}

/// Reads eight bytes, lowest first.
pub fn read_u64(r: &mut ByteReader) -> (out: Result<u64, CacheError>)
    requires
        old(r).wf(),
    ensures
        reads(*old(r), *final(r), out, parse_u64(old(r).rest())),
{
    take_le(r, 8)
}

/// Reads four bytes as a number in two's complement.
pub fn read_i32(r: &mut ByteReader) -> (out: Result<i32, CacheError>)
    requires
        old(r).wf(),
    ensures
        reads(*old(r), *final(r), out, parse_i32(old(r).rest())),
{
    let bits = read_u32(r)?;
    Ok(i32_from_bits(bits))
}

/// Reads a single-precision number.
pub fn read_f32(r: &mut ByteReader) -> (out: Result<F32Bits, CacheError>)
    requires
        old(r).wf(),
    ensures
        reads(*old(r), *final(r), out, parse_u32(old(r).rest())),
{
    read_u32(r)
}

/// Byte `i` of a number counts how often `256` to the power `i` goes into it, beyond what the higher
/// bytes count.
pub proof fn law_lower_bytes_come_first(value: nat, n: nat, i: nat)
    requires
        i < n,
    ensures
        le_bytes(value, n).len() == n,
        le_bytes(value, n)[i as int] == (value / pow256(i)) % 256,
    decreases n,
{
    lemma_le_bytes_len(value, n);
    let rest = le_bytes(value / 256, (n - 1) as nat);
    lemma_le_bytes_len(value / 256, (n - 1) as nat);
    if i == 0 {
        assert(pow256(0) == 1);
        assert(value / 1 == value);
    } else {
        law_lower_bytes_come_first(value / 256, (n - 1) as nat, (i - 1) as nat);
        assert(le_bytes(value, n)[i as int] == rest[i - 1]);
        let p = pow256((i - 1) as nat);
        lemma_pow256_monotone(0, (i - 1) as nat);
        vstd::arithmetic::div_mod::lemma_div_denominator(value as int, 256, p as int);
    }
}

/// Numbers are read from their bytes, the lowest first, and what follows them is left. Where there are not
/// enough bytes, that is said.
pub proof fn law_numbers_are_read_from_their_bytes(s: Seq<u8>)
    ensures
        s.len() < 1 ==> parse_u8(s) == Err::<(u8, Seq<u8>), CacheError>(CacheError::UnexpectedEof),
        s.len() >= 1 ==> parse_u8(s) == Ok::<(u8, Seq<u8>), CacheError>((s[0], s.skip(1))),
        s.len() < 2 ==> parse_u16(s) == Err::<(u16, Seq<u8>), CacheError>(
            CacheError::UnexpectedEof,
        ),
        s.len() >= 2 ==> parse_u16(s) == Ok::<(u16, Seq<u8>), CacheError>(
            ((s[0] + 0x100 * s[1]) as u16, s.skip(2)),
        ),
        s.len() < 4 ==> parse_u32(s) == Err::<(u32, Seq<u8>), CacheError>(
            CacheError::UnexpectedEof,
        ),
        s.len() >= 4 ==> parse_u32(s) == Ok::<(u32, Seq<u8>), CacheError>(
            ((s[0] + 0x100 * s[1] + 0x1_0000 * s[2] + 0x100_0000 * s[3]) as u32, s.skip(4)),
        ),
        s.len() < 8 ==> parse_u64(s) == Err::<(u64, Seq<u8>), CacheError>(
            CacheError::UnexpectedEof,
        ),
        s.len() >= 8 ==> parse_u64(s) == Ok::<(u64, Seq<u8>), CacheError>(
            (
                (s[0] + 0x100 * s[1] + 0x1_0000 * s[2] + 0x100_0000 * s[3] + 0x1_0000_0000 * s[4]
                    + 0x100_0000_0000 * s[5] + 0x1_0000_0000_0000 * s[6] + 0x100_0000_0000_0000
                    * s[7]) as u64,
                s.skip(8),
            ),
        ),
{
    if s.len() >= 1 {
        lemma_value_step(s.take(1));
        assert(le_value(s.take(1).drop_first()) == 0);
    }
    if s.len() >= 2 {
        lemma_value_steps(s.take(2), 2);
    }
    if s.len() >= 4 {
        lemma_value_steps(s.take(4), 4);
    }
    if s.len() >= 8 {
        lemma_value_steps(s.take(8), 4);
        let high = s.take(8).skip(4);
        lemma_value_steps(high, 4);
        assert(high[0] == s[4] && high[1] == s[5] && high[2] == s[6] && high[3] == s[7]);
        assert(high.skip(4) =~= Seq::<u8>::empty());
        assert(s.take(8).skip(4) == high);
    }
}

proof fn lemma_value_step(bytes: Seq<u8>)
    requires
        bytes.len() > 0,
    ensures
        le_value(bytes) == bytes[0] + 256 * le_value(bytes.skip(1)),
{
    assert(bytes.drop_first() =~= bytes.skip(1));
}

/// The first two or four bytes of a number.
proof fn lemma_value_steps(bytes: Seq<u8>, n: int)
    requires
        n == 2 || n == 4,
        bytes.len() >= n,
    ensures
        n == 2 ==> le_value(bytes) == bytes[0] + 0x100 * bytes[1] + 0x1_0000 * le_value(
            bytes.skip(2),
        ),
        n == 4 ==> le_value(bytes) == bytes[0] + 0x100 * bytes[1] + 0x1_0000 * bytes[2]
            + 0x100_0000 * bytes[3] + 0x1_0000_0000 * le_value(bytes.skip(4)),
        le_value(Seq::<u8>::empty()) == 0,
        bytes.len() == n ==> bytes.skip(n) == Seq::<u8>::empty(),
{
    lemma_value_step(bytes);
    lemma_value_step(bytes.skip(1));
    assert(bytes.skip(1).skip(1) =~= bytes.skip(2));
    if n == 4 {
        lemma_value_step(bytes.skip(2));
        lemma_value_step(bytes.skip(3));
        assert(bytes.skip(2).skip(1) =~= bytes.skip(3));
        assert(bytes.skip(3).skip(1) =~= bytes.skip(4));
    }
    if bytes.len() == n {
        assert(bytes.skip(n) =~= Seq::<u8>::empty());
    }
}

/// A signed number and its bits differ by nothing or by two to the power 32, and both ways lead back.
pub proof fn law_signed_numbers_have_their_bits(v: i32, bits: u32)
    ensures
        i32_bits(v) == v || i32_bits(v) == v + 0x1_0000_0000,
        i32_of_bits(bits) == bits || i32_of_bits(bits) == bits - 0x1_0000_0000,
        i32_of_bits(i32_bits(v)) == v,
        i32_bits(i32_of_bits(bits)) == bits,
{
}

} // verus!
