//! Values that have a layout of their own in the cache, and sequences of them.

use crate::codec::{
    continues, le_bytes, lemma_join, lemma_parse_u16, lemma_parse_u32, lemma_parse_u64, lemma_taken,
    lemma_u16_reads_no_further, lemma_u32_reads_no_further, lemma_u64_reads_no_further, parse_u16,
    parse_u32, parse_u64, read_part, read_u16, read_u32, read_u64, reads, reads_same, taken,
    write_u16, write_u32, write_u64, ByteReader, Parsed,
};
use crate::errors::CacheError;
use vstd::prelude::*;

verus! {

/// A value with a byte layout. What is written is what `encoding` says, what is read is what
/// `parsing` says, and reading undoes writing up to what the layout keeps (`stored`).
pub trait Record: View + Sized {
    /// The bytes of a value.
    spec fn encoding(value: Self::V) -> Seq<u8>;

    /// The value at the front of `s`, and what follows it.
    spec fn parsing(s: Seq<u8>) -> Parsed<Self::V>;

    /// The value with those parts left out that the layout does not hold.
    spec fn stored(value: Self::V) -> Self::V;

    /// The counts within the value fit the machine.
    spec fn storable(value: Self::V) -> bool;

    /// What was written is read back, whatever follows it.
    proof fn reads_back(value: Self::V, tail: Seq<u8>)
        requires
            Self::storable(value),
        ensures
            Self::parsing(Self::encoding(value) + tail) == Ok::<(Self::V, Seq<u8>), CacheError>(
                (Self::stored(value), tail),
            ),
    ;

    /// Reading depends on nothing behind the bytes that it takes.
    proof fn reads_no_further(s: Seq<u8>, tail: Seq<u8>)
        ensures
            reads_same(
                s,
                Self::parsing(s),
                Self::parsing(read_part(s, Self::parsing(s)) + tail),
                tail,
            ),
    ;

    /// Appends the value's bytes.
    fn write_record(&self, w: &mut Vec<u8>)
        ensures
            final(w)@ == old(w)@ + Self::encoding(self@),
    ;

    /// Reads a value.
    fn read_record(r: &mut ByteReader) -> (out: Result<Self, CacheError>)
        requires
            old(r).wf(),
        ensures
            reads(*old(r), *final(r), out, Self::parsing(old(r).rest())),
    ;
}

/// The views of a sequence's elements.
pub open spec fn views<T: View>(items: Seq<T>) -> Seq<T::V> {
    Seq::new(items.len(), |i: int| items[i]@)
}

/// The bytes of several values, one after the other.
pub open spec fn encode_items<T: Record>(items: Seq<T::V>) -> Seq<u8>
    decreases items.len(),
{
    if items.len() == 0 {
        Seq::empty()
    } else {
        T::encoding(items[0]) + encode_items::<T>(items.drop_first())
    }
}

/// Reading `n` values, one after the other.
pub open spec fn parse_items<T: Record>(s: Seq<u8>, n: nat) -> Parsed<Seq<T::V>>
    decreases n,
{
    if n == 0 {
        Ok((Seq::empty(), s))
    } else {
        match T::parsing(s) {
            Err(e) => Err(e),
            Ok((first, rest)) => after_items(
                seq![first],
                parse_items::<T>(rest, (n - 1) as nat),
            ),
        }
    }
}

/// What reading gives when `read` values came before it.
pub open spec fn after_items<V>(read: Seq<V>, parsed: Parsed<Seq<V>>) -> Parsed<Seq<V>> {
    match parsed {
        Err(e) => Err(e),
        Ok((items, rest)) => Ok((read + items, rest)),
    }
}

/// The bytes of a list: how many values, and the values.
#[verifier::opaque]
pub open spec fn encode_list<T: Record>(items: Seq<T::V>) -> Seq<u8> {
    le_bytes(items.len(), 8) + encode_items::<T>(items)
}

/// Reading a list.
#[verifier::opaque]
pub open spec fn parse_list<T: Record>(s: Seq<u8>) -> Parsed<Seq<T::V>> {
    match parse_u64(s) {
        Err(e) => Err(e),
        Ok((n, rest)) => parse_items::<T>(rest, (n as usize) as nat),
    }
}

/// What a list keeps of its values.
pub open spec fn stored_list<T: Record>(items: Seq<T::V>) -> Seq<T::V> {
    Seq::new(items.len(), |i: int| T::stored(items[i]))
}

/// Every value is storable.
pub open spec fn storable_items<T: Record>(items: Seq<T::V>) -> bool {
    forall|i: int| 0 <= i < items.len() ==> #[trigger] T::storable(items[i])
}

/// Every value is storable, and their number fits the machine.
pub open spec fn storable_list<T: Record>(items: Seq<T::V>) -> bool {
    items.len() <= usize::MAX && storable_items::<T>(items)
}

/// Values that were written one after the other are read back.
pub proof fn lemma_items_read_back<T: Record>(items: Seq<T::V>, tail: Seq<u8>)
    requires
        storable_items::<T>(items),
    ensures
        parse_items::<T>(encode_items::<T>(items) + tail, items.len()) == Ok::<
            (Seq<T::V>, Seq<u8>),
            CacheError,
        >((stored_list::<T>(items), tail)),
    decreases items.len(),
{
    if items.len() == 0 {
        assert(encode_items::<T>(items) + tail =~= tail);
        assert(stored_list::<T>(items) =~= Seq::<T::V>::empty());
    } else {
        let others = items.drop_first();
        let more = encode_items::<T>(others) + tail;
        assert forall|i: int| 0 <= i < others.len() implies #[trigger] T::storable(others[i]) by {
            assert(T::storable(items[i + 1]));
        }
        assert(T::storable(items[0]));
        assert(encode_items::<T>(items) + tail =~= T::encoding(items[0]) + more);
        T::reads_back(items[0], more);
        lemma_items_read_back::<T>(others, tail);
        assert(stored_list::<T>(items) =~= seq![T::stored(items[0])] + stored_list::<T>(others));
    }
}

/// A list that was written is read back.
pub proof fn lemma_list_reads_back<T: Record>(items: Seq<T::V>, tail: Seq<u8>)
    requires
        storable_list::<T>(items),
    ensures
        parse_list::<T>(encode_list::<T>(items) + tail) == Ok::<(Seq<T::V>, Seq<u8>), CacheError>(
            (stored_list::<T>(items), tail),
        ),
{
    reveal(encode_list);
    reveal(parse_list);
    let more = encode_items::<T>(items) + tail;
    assert(encode_list::<T>(items) + tail =~= le_bytes(items.len(), 8) + more);
    lemma_parse_u64(items.len() as u64, more);
    lemma_items_read_back::<T>(items, tail);
}

/// Reading several values depends on nothing behind them.
pub proof fn lemma_items_read_no_further<T: Record>(s: Seq<u8>, n: nat, tail: Seq<u8>)
    ensures
        reads_same(
            s,
            parse_items::<T>(s, n),
            parse_items::<T>(read_part(s, parse_items::<T>(s, n)) + tail, n),
            tail,
        ),
    decreases n,
{
    if n == 0 {
        assert(taken(s, s) + tail =~= tail);
        assert(taken(s, s) + s =~= s);
    } else if let Ok((_, s1)) = T::parsing(s) {
        let others = (n - 1) as nat;
        if let Ok((_, s2)) = parse_items::<T>(s1, others) {
            T::reads_no_further(s, taken(s1, s2) + tail);
            lemma_items_read_no_further::<T>(s1, others, tail);
            lemma_taken(s, s1, s2, tail);
        }
    }
}

/// Reading a list depends on nothing behind it.
pub proof fn lemma_list_reads_no_further<T: Record>(s: Seq<u8>, tail: Seq<u8>)
    ensures
        reads_same(
            s,
            parse_list::<T>(s),
            parse_list::<T>(read_part(s, parse_list::<T>(s)) + tail),
            tail,
        ),
{
    reveal(parse_list);
    if let Ok((n, s1)) = parse_u64(s) {
        let count = (n as usize) as nat;
        if let Ok((_, s2)) = parse_items::<T>(s1, count) {
            lemma_u64_reads_no_further(s, taken(s1, s2) + tail);
            lemma_items_read_no_further::<T>(s1, count, tail);
            lemma_taken(s, s1, s2, tail);
        }
    }
}

/// No part of a written value that ends before its last byte is read as a value.
pub proof fn law_prefixes_are_refused<T: Record>(value: T::V, m: int)
    requires
        T::storable(value),
        0 <= m < T::encoding(value).len(),
    ensures
        T::parsing(T::encoding(value).take(m)) is Err,
{
    let whole = T::encoding(value);
    let cut = whole.take(m);
    T::reads_back(value, Seq::empty());
    assert(whole + Seq::<u8>::empty() =~= whole);
    if let Ok((_, rest)) = T::parsing(cut) {
        T::reads_no_further(cut, rest + whole.skip(m));
        lemma_join(taken(cut, rest), rest, whole.skip(m));
        assert(cut + whole.skip(m) =~= whole);
    }
}

/// Appends the values one after the other.
pub fn write_items<T: Record>(w: &mut Vec<u8>, items: &[T])
    ensures
        final(w)@ == old(w)@ + encode_items::<T>(views(items@)),
{
    let ghost all = views(items@);
    proof {
        assert(all.skip(0) =~= all);
    }
    let mut i: usize = 0;
    while i < items.len()
        invariant
            i <= items@.len(),
            all == views(items@),
            w@ + encode_items::<T>(all.skip(i as int)) == old(w)@ + encode_items::<T>(all),
        decreases items@.len() - i,
    {
        let ghost before = w@;
        items[i].write_record(w);
        proof {
            let rest = all.skip(i as int);
            assert(rest.drop_first() =~= all.skip(i + 1));
            assert(rest[0] == items@[i as int]@);
            assert(before + (T::encoding(rest[0]) + encode_items::<T>(all.skip(i + 1))) =~= w@
                + encode_items::<T>(all.skip(i + 1)));
        }
        i = i + 1;
    }
    proof {
        assert(all.skip(i as int) =~= Seq::<T::V>::empty());
        assert(w@ + encode_items::<T>(all.skip(i as int)) =~= w@);
    }
}

/// Appends the number of values and the values.
pub fn write_list<T: Record>(w: &mut Vec<u8>, items: &[T])
    ensures
        final(w)@ == old(w)@ + encode_list::<T>(views(items@)),
{
    write_u64(w, items.len() as u64);
    write_items(w, items);
    proof {
        reveal(encode_list);
        let count = le_bytes(items@.len(), 8);
        let bytes = encode_items::<T>(views(items@));
        assert(old(w)@ + count + bytes =~= old(w)@ + (count + bytes));
    }
}

/// Reads `n` values.
pub fn read_items<T: Record>(r: &mut ByteReader, n: usize) -> (out: Result<Vec<T>, CacheError>)
    requires
        old(r).wf(),
    ensures
        continues(*old(r), *final(r)),
        match parse_items::<T>(old(r).rest(), n as nat) {
            Ok((items, rest)) => out is Ok && views(out->Ok_0@) == items && final(r).rest() == rest,
            Err(error) => out == Err::<Vec<T>, CacheError>(error),
        },
{
    let mut items: Vec<T> = Vec::new();
    let mut i: usize = 0;
    let ghost whole = parse_items::<T>(r.rest(), n as nat);
    proof {
        assert(views(items@) =~= Seq::<T::V>::empty());
        match whole {
            Ok((all, rest)) => assert(Seq::<T::V>::empty() + all =~= all),
            Err(e) => {},
        }
    }
    while i < n
        invariant
            i <= n,
            items@.len() == i,
            continues(*old(r), *r),
            after_items(views(items@), parse_items::<T>(r.rest(), (n - i) as nat)) == whole,
            whole == parse_items::<T>(old(r).rest(), n as nat),
        decreases n - i,
    {
        let ghost read = views(items@);
        let ghost here = r.rest();
        let item = T::read_record(r)?;
        items.push(item);
        proof {
            assert(views(items@) =~= read.push(item@));
            match parse_items::<T>(r.rest(), (n - i - 1) as nat) {
                Ok((others, rest)) => {
                    assert(read + (seq![item@] + others) =~= read.push(item@) + others);
                },
                Err(e) => {},
            }
        }
        i = i + 1;
    }
    proof {
        assert(views(items@) + Seq::<T::V>::empty() =~= views(items@));
    }
    Ok(items)
}

/// Reads a count and as many values.
pub fn read_list<T: Record>(r: &mut ByteReader) -> (out: Result<Vec<T>, CacheError>)
    requires
        old(r).wf(),
    ensures
        continues(*old(r), *final(r)),
        match parse_list::<T>(old(r).rest()) {
            Ok((items, rest)) => out is Ok && views(out->Ok_0@) == items && final(r).rest() == rest,
            Err(error) => out == Err::<Vec<T>, CacheError>(error),
        },
{
    proof {
        reveal(parse_list);
    }
    let count = read_u64(r)?;
    read_items(r, count as usize)
}

/// Reads as many values as the array has places; `fill` only sets the array up.
pub fn read_array<T: Record + Copy, const N: usize>(r: &mut ByteReader, fill: T) -> (out: Result<
    [T; N],
    CacheError,
>)
    requires
        old(r).wf(),
    ensures
        continues(*old(r), *final(r)),
        match parse_items::<T>(old(r).rest(), N as nat) {
            Ok((items, rest)) => out is Ok && views(out->Ok_0@) == items && final(r).rest() == rest,
            Err(error) => out == Err::<[T; N], CacheError>(error),
        },
{
    let mut items: [T; N] = [fill; N];
    let mut i: usize = 0;
    let ghost whole = parse_items::<T>(r.rest(), N as nat);
    proof {
        assert(views(items@.take(0)) =~= Seq::<T::V>::empty());
        match whole {
            Ok((all, rest)) => assert(Seq::<T::V>::empty() + all =~= all),
            Err(e) => {},
        }
    }
    while i < N
        invariant
            i <= N,
            items@.len() == N,
            continues(*old(r), *r),
            after_items(views(items@.take(i as int)), parse_items::<T>(r.rest(), (N - i) as nat))
                == whole,
            whole == parse_items::<T>(old(r).rest(), N as nat),
        decreases N - i,
    {
        let ghost read = views(items@.take(i as int));
        let item = T::read_record(r)?;
        items[i] = item;
        proof {
            assert(views(items@.take(i + 1)) =~= read.push(item@));
            match parse_items::<T>(r.rest(), (N - i - 1) as nat) {
                Ok((others, rest)) => {
                    assert(read + (seq![item@] + others) =~= read.push(item@) + others);
                },
                Err(e) => {},
            }
        }
        i = i + 1;
    }
    proof {
        assert(items@.take(N as int) =~= items@);
        assert(views(items@) + Seq::<T::V>::empty() =~= views(items@));
    }
    Ok(items)
}

impl Record for u16 {
    open spec fn encoding(value: u16) -> Seq<u8> {
        le_bytes(value as nat, 2)
    }

    open spec fn parsing(s: Seq<u8>) -> Parsed<u16> {
        parse_u16(s)
    }

    open spec fn stored(value: u16) -> u16 {
        value
    }

    open spec fn storable(value: u16) -> bool {
        true
    }

    proof fn reads_back(value: u16, tail: Seq<u8>) {
        lemma_parse_u16(value, tail);
    }

    proof fn reads_no_further(s: Seq<u8>, tail: Seq<u8>) {
        lemma_u16_reads_no_further(s, tail);
    }

    fn write_record(&self, w: &mut Vec<u8>) {
        write_u16(w, *self);
    }

    fn read_record(r: &mut ByteReader) -> (out: Result<u16, CacheError>) {
        read_u16(r)
    }
}

impl Record for u32 {
    open spec fn encoding(value: u32) -> Seq<u8> {
        le_bytes(value as nat, 4)
    }

    open spec fn parsing(s: Seq<u8>) -> Parsed<u32> {
        parse_u32(s)
    }

    open spec fn stored(value: u32) -> u32 {
        value
    }

    open spec fn storable(value: u32) -> bool {
        true
    }

    proof fn reads_back(value: u32, tail: Seq<u8>) {
        lemma_parse_u32(value, tail);
    }

    proof fn reads_no_further(s: Seq<u8>, tail: Seq<u8>) {
        lemma_u32_reads_no_further(s, tail);
    }

    fn write_record(&self, w: &mut Vec<u8>) {
        write_u32(w, *self);
    }

    fn read_record(r: &mut ByteReader) -> (out: Result<u32, CacheError>) {
        read_u32(r)
    }
}

impl Record for usize {
    open spec fn encoding(value: usize) -> Seq<u8> {
        le_bytes(value as nat, 8)
    }

    open spec fn parsing(s: Seq<u8>) -> Parsed<usize> {
        match parse_u64(s) {
            Ok((v, rest)) => Ok((v as usize, rest)),
            Err(e) => Err(e),
        }
    }

    open spec fn stored(value: usize) -> usize {
        value
    }

    open spec fn storable(value: usize) -> bool {
        true
    }

    proof fn reads_back(value: usize, tail: Seq<u8>) {
        lemma_parse_u64(value as u64, tail);
    }

    proof fn reads_no_further(s: Seq<u8>, tail: Seq<u8>) {
        lemma_u64_reads_no_further(s, tail);
    }

    fn write_record(&self, w: &mut Vec<u8>) {
        write_u64(w, *self as u64);
    }

    fn read_record(r: &mut ByteReader) -> (out: Result<usize, CacheError>) {
        let v = read_u64(r)?;
        Ok(v as usize)
    }
}

/// Values lie one behind the other in their order, with nothing between them. A list says in eight bytes
/// how many there are.
pub proof fn law_values_lie_one_behind_the_other<T: Record>(
    front: Seq<T::V>,
    value: T::V,
    back: Seq<T::V>,
)
    ensures
        encode_items::<T>(Seq::empty()) == Seq::<u8>::empty(),
        encode_items::<T>(front.push(value) + back) == encode_items::<T>(front) + T::encoding(value)
            + encode_items::<T>(back),
        encode_list::<T>(front) == le_bytes(front.len(), 8) + encode_items::<T>(front),
    decreases front.len(),
{
    reveal(encode_list);
    let all = front.push(value) + back;
    if front.len() == 0 {
        assert(all.drop_first() =~= back);
        assert(encode_items::<T>(front) + T::encoding(value) =~= T::encoding(value));
    } else {
        let rest = front.drop_first();
        law_values_lie_one_behind_the_other::<T>(rest, value, back);
        assert(all.drop_first() =~= rest.push(value) + back);
        assert(all[0] == front[0]);
        assert(T::encoding(front[0]) + (encode_items::<T>(rest) + T::encoding(value)
            + encode_items::<T>(back)) =~= T::encoding(front[0]) + encode_items::<T>(rest)
            + T::encoding(value) + encode_items::<T>(back));
    }
}

/// Half words, words and sizes take two, four and eight bytes, the lowest first, and are read back.
pub proof fn law_numbers_take_their_bytes(half: u16, word: u32, size: usize, tail: Seq<u8>)
    ensures
        u16::encoding(half) == le_bytes(half as nat, 2),
        u32::encoding(word) == le_bytes(word as nat, 4),
        usize::encoding(size) == le_bytes(size as nat, 8),
        u16::parsing(u16::encoding(half) + tail) == Ok::<(u16, Seq<u8>), CacheError>((half, tail)),
        u32::parsing(u32::encoding(word) + tail) == Ok::<(u32, Seq<u8>), CacheError>((word, tail)),
        usize::parsing(usize::encoding(size) + tail) == Ok::<(usize, Seq<u8>), CacheError>(
            (size, tail),
        ),
{
    u16::reads_back(half, tail);
    u32::reads_back(word, tail);
    usize::reads_back(size, tail);
}

/// Values are read one after the other, each from where the one before it ended; where one cannot be read, all
/// cannot, for the same reason. A list is read from its number of values on.
pub proof fn law_values_are_read_one_after_the_other<T: Record>(s: Seq<u8>, n: nat)
    ensures
        parse_items::<T>(s, 0) == Ok::<(Seq<T::V>, Seq<u8>), CacheError>((Seq::empty(), s)),
        n > 0 ==> (T::parsing(s) matches Err(e) ==> parse_items::<T>(s, n) == Err::<
            (Seq<T::V>, Seq<u8>),
            CacheError,
        >(e)),
        n > 0 ==> (T::parsing(s) matches Ok((first, rest)) ==> match parse_items::<T>(
            rest,
            (n - 1) as nat,
        ) {
            Err(e) => parse_items::<T>(s, n) == Err::<(Seq<T::V>, Seq<u8>), CacheError>(e),
            Ok((others, left)) => parse_items::<T>(s, n) == Ok::<(Seq<T::V>, Seq<u8>), CacheError>(
                (seq![first] + others, left),
            ),
        }),
        s.len() < 8 ==> parse_list::<T>(s) == Err::<(Seq<T::V>, Seq<u8>), CacheError>(
            CacheError::UnexpectedEof,
        ),
        s.len() >= 8 && n <= usize::MAX && s.take(8) == le_bytes(n, 8) ==> parse_list::<T>(s)
            == parse_items::<T>(s.skip(8), n),
{
    reveal(parse_list);
    if s.len() >= 8 && n <= usize::MAX && s.take(8) == le_bytes(n, 8) {
        lemma_parse_u64(n as u64, s.skip(8));
        assert(s =~= le_bytes(n, 8) + s.skip(8));
    }
}

} // verus!
