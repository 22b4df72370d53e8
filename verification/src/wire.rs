//! The building blocks of the cache format: big-endian integers of fixed
//! width, strings and lists behind their length, and optional values behind
//! a marker byte.

use vstd::prelude::*;
use vstd::utf8::{encode_utf8, decode_utf8, valid_utf8};
use crate::error::DecodeError;

verus! {

/// What decoding gives: a value and the bytes left after it, or a refusal.
pub type Decoded<T> = Result<(T, Seq<u8>), DecodeError>;

/// 256 to the power `k`.
pub open spec fn pow256(k: nat) -> nat
    decreases k,
{
    if k == 0 {
        1
    } else {
        256 * pow256((k - 1) as nat)
    }
}

/// The `width` low bytes of `v`, most significant first.
pub open spec fn be_bytes(v: nat, width: nat) -> Seq<u8>
    decreases width,
{
    if width == 0 {
        Seq::empty()
    } else {
        be_bytes(v / 256, (width - 1) as nat).push((v % 256) as u8)
    }
}

/// The number that bytes denote, most significant first.
pub open spec fn be_value(bytes: Seq<u8>) -> nat
    decreases bytes.len(),
{
    if bytes.len() == 0 {
        0
    } else {
        be_value(bytes.drop_last()) * 256 + bytes.last() as nat
    }
}

/// The powers of 256 up to the eighth.
pub proof fn lemma_pow256_values()
    ensures
        pow256(0) == 1,
        pow256(1) == 0x100,
        pow256(2) == 0x1_0000,
        pow256(3) == 0x100_0000,
        pow256(4) == 0x1_0000_0000,
        pow256(5) == 0x100_0000_0000,
        pow256(6) == 0x1_0000_0000_0000,
        pow256(7) == 0x100_0000_0000_0000,
        pow256(8) == 0x1_0000_0000_0000_0000,
{
    reveal_with_fuel(pow256, 10);
}

/// A number written at a width takes that many bytes.
pub proof fn lemma_be_bytes_len(v: nat, width: nat)
    ensures
        be_bytes(v, width).len() == width,
    decreases width,
{
    if width > 0 {
        lemma_be_bytes_len(v / 256, (width - 1) as nat);
    }
}

/// Bytes denote a number below 256 to the power of their count.
pub proof fn lemma_be_value_bound(bytes: Seq<u8>)
    ensures
        be_value(bytes) < pow256(bytes.len()),
    decreases bytes.len(),
{
    if bytes.len() > 0 {
        lemma_be_value_bound(bytes.drop_last());
    }
}

/// A number that fits its width is read back from its bytes.
pub proof fn lemma_be_roundtrip(v: nat, width: nat)
    requires
        v < pow256(width),
    ensures
        be_value(be_bytes(v, width)) == v,
    decreases width,
{
    if width > 0 {
        let front = be_bytes(v / 256, (width - 1) as nat);
        lemma_be_roundtrip(v / 256, (width - 1) as nat);
        assert(be_bytes(v, width).drop_last() =~= front);
    }
}

/// The 64-bit pattern of a signed number in two's complement.
pub open spec fn twos(v: i64) -> nat {
    if v >= 0 {
        v as nat
    } else {
        (v + 0x1_0000_0000_0000_0000) as nat
    }
}

/// The signed number of a 64-bit pattern in two's complement.
pub open spec fn untwos(u: nat) -> i64 {
    if u < 0x8000_0000_0000_0000 {
        u as i64
    } else {
        (u - 0x1_0000_0000_0000_0000) as i64
    }
}

/// Reading `width` bytes as a number: the bytes must be there.
pub open spec fn dec_be(bytes: Seq<u8>, width: nat) -> Decoded<nat> {
    if bytes.len() < width {
        Err(DecodeError::Truncated)
    } else {
        Ok((be_value(bytes.take(width as int)), bytes.skip(width as int)))
    }
}

/// A number that fits its width is read back from the front of the bytes,
/// and what followed it is left.
pub proof fn lemma_dec_be_roundtrip(v: nat, width: nat, rest: Seq<u8>)
    requires
        v < pow256(width),
    ensures
        dec_be(be_bytes(v, width) + rest, width) == Ok::<(nat, Seq<u8>), DecodeError>((v, rest)),
{
    lemma_be_bytes_len(v, width);
    lemma_be_roundtrip(v, width);
    let all = be_bytes(v, width) + rest;
    assert(all.take(width as int) =~= be_bytes(v, width));
    assert(all.skip(width as int) =~= rest);
}

/// Appends the `width` low bytes of `v`, most significant first.
pub fn put_be(out: &mut Vec<u8>, v: u64, width: u8)
    ensures
        final(out)@ == old(out)@ + be_bytes(v as nat, width as nat),
    decreases width,
{
    if width > 0 {
        put_be(out, v / 256, width - 1);
        out.push((v % 256) as u8);
        assert(out@ =~= old(out)@ + be_bytes(v as nat, width as nat));
    } else {
        assert(out@ =~= old(out)@ + be_bytes(v as nat, width as nat));
    }
}

/// Reads `width` bytes, at most eight, at `pos` as a number and moves `pos`
/// past them.
pub fn take_be(bytes: &[u8], pos: &mut usize, width: u8) -> (out: Result<u64, DecodeError>)
    requires
        *old(pos) <= bytes.len(),
        width <= 8,
    ensures
        *final(pos) <= bytes.len(),
        match dec_be(bytes@.skip(*old(pos) as int), width as nat) {
            Ok((v, rest)) => out == Ok::<u64, DecodeError>(v as u64) && v <= u64::MAX
                && bytes@.skip(*final(pos) as int) == rest,
            Err(e) => out == Err::<u64, DecodeError>(e),
        },
{
    let start: usize = *pos;
    if bytes.len() - start < width as usize {
        return Err(DecodeError::Truncated);
    }
    let ghost input = bytes@.skip(start as int);
    let mut acc: u64 = 0;
    let mut k: u8 = 0;
    proof {
        lemma_pow256_values();
    }
    while k < width
        invariant
            0 <= k <= width <= 8,
            start + width <= bytes.len(),
            input == bytes@.skip(start as int),
            acc as nat == be_value(input.take(k as int)),
        decreases width - k,
    {
        let b = bytes[start + k as usize];
        proof {
            lemma_pow256_values();
            lemma_be_value_bound(input.take(k as int));
            assert(input.take(k + 1).drop_last() =~= input.take(k as int));
            assert(input.take(k + 1).last() == b);
            assert(pow256(k as nat) <= pow256(7)) by {
                lemma_pow256_values();
                reveal_with_fuel(pow256, 10);
            }
        }
        acc = acc * 256 + b as u64;
        k += 1;
    }
    *pos = start + width as usize;
    proof {
        assert(input.skip(width as int) =~= bytes@.skip(*pos as int));
    }
    Ok(acc)
}

/// The front of bytes written one after the other: a cut inside the first
/// part is a cut of the first part, and a later cut keeps the first part
/// whole.
pub proof fn lemma_take_concat(a: Seq<u8>, b: Seq<u8>, k: int)
    requires
        0 <= k <= a.len() + b.len(),
    ensures
        k <= a.len() ==> (a + b).take(k) == a.take(k),
        k >= a.len() ==> (a + b).take(k) == a + b.take(k - a.len()),
{
    if k <= a.len() {
        assert((a + b).take(k) =~= a.take(k));
    }
    if k >= a.len() {
        assert((a + b).take(k) =~= a + b.take(k - a.len()));
    }
}

/// A number cut short is refused as truncated.
pub proof fn lemma_dec_be_truncated(v: nat, width: nat, k: int)
    requires
        0 <= k < width,
    ensures
        dec_be(be_bytes(v, width).take(k), width) == Err::<(nat, Seq<u8>), DecodeError>(
            DecodeError::Truncated,
        ),
{
    lemma_be_bytes_len(v, width);
}

/// Trusted: `String::from_utf8`. Bytes that are UTF-8 give the string they
/// encode; any other bytes give `None`.
#[verifier::external_body]
fn text_from_utf8(bytes: Vec<u8>) -> (out: Option<String>)
    ensures
        valid_utf8(bytes@) ==> out is Some && out->0@ == decode_utf8(bytes@),
        !valid_utf8(bytes@) ==> out is None,
{
    match String::from_utf8(bytes) {
        Ok(text) => Some(text),
        Err(_) => None,
    }
}

/// A value with a place in the cache format.
pub trait Wire: Sized {
    /// What a value stands for.
    type Model;

    spec fn model(&self) -> Self::Model;

    /// Whether every length inside the value can be written in 64 bits.
    spec fn fits(m: Self::Model) -> bool;

    /// The bytes of a value.
    spec fn encoding(m: Self::Model) -> Seq<u8>;

    /// The value at the front of the bytes, and the bytes after it.
    spec fn decoding(bytes: Seq<u8>) -> Decoded<Self::Model>;

    /// What was encoded is decoded again, and whatever followed it is left.
    proof fn lemma_roundtrip(m: Self::Model, rest: Seq<u8>)
        requires
            Self::fits(m),
        ensures
            Self::decoding(Self::encoding(m) + rest) == Ok::<(Self::Model, Seq<u8>), DecodeError>(
                (m, rest),
            ),
    ;

    /// What was encoded and then cut short is refused as truncated.
    proof fn lemma_truncated(m: Self::Model, k: int)
        requires
            Self::fits(m),
            0 <= k < Self::encoding(m).len(),
        ensures
            Self::decoding(Self::encoding(m).take(k)) == Err::<(Self::Model, Seq<u8>), DecodeError>(
                DecodeError::Truncated,
            ),
    ;

    /// Appends the bytes of the value.
    fn put(&self, out: &mut Vec<u8>)
        ensures
            Self::fits(self.model()),
            final(out)@ == old(out)@ + Self::encoding(self.model()),
    ;

    /// Reads a value at `pos` and moves `pos` past it.
    fn take(bytes: &[u8], pos: &mut usize) -> (out: Result<Self, DecodeError>)
        requires
            *old(pos) <= bytes.len(),
        ensures
            *final(pos) <= bytes.len(),
            match Self::decoding(bytes@.skip(*old(pos) as int)) {
                Ok((m, rest)) => out is Ok && out->Ok_0.model() == m && bytes@.skip(
                    *final(pos) as int,
                ) == rest,
                Err(e) => out is Err && out->Err_0 == e,
            },
    ;
}

impl Wire for u32 {
    type Model = u32;

    open spec fn model(&self) -> u32 {
        *self
    }

    open spec fn fits(m: u32) -> bool {
        true
    }

    open spec fn encoding(m: u32) -> Seq<u8> {
        be_bytes(m as nat, 4)
    }

    open spec fn decoding(bytes: Seq<u8>) -> Decoded<u32> {
        match dec_be(bytes, 4) {
            Ok((v, rest)) => Ok((v as u32, rest)),
            Err(e) => Err(e),
        }
    }

    proof fn lemma_roundtrip(m: u32, rest: Seq<u8>) {
        lemma_pow256_values();
        lemma_dec_be_roundtrip(m as nat, 4, rest);
    }

    proof fn lemma_truncated(m: u32, k: int) {
        lemma_be_bytes_len(m as nat, 4);
        lemma_dec_be_truncated(m as nat, 4, k);
    }

    fn put(&self, out: &mut Vec<u8>) {
        put_be(out, *self as u64, 4);
    }

    fn take(bytes: &[u8], pos: &mut usize) -> (out: Result<u32, DecodeError>) {
        proof {
            lemma_pow256_values();
            if bytes@.skip(*pos as int).len() >= 4 {
                lemma_be_value_bound(bytes@.skip(*pos as int).take(4));
            }
        }
        match take_be(bytes, pos, 4) {
            Ok(v) => Ok(v as u32),
            Err(e) => Err(e),
        }
    }
}

impl Wire for i64 {
    type Model = i64;

    open spec fn model(&self) -> i64 {
        *self
    }

    open spec fn fits(m: i64) -> bool {
        true
    }

    open spec fn encoding(m: i64) -> Seq<u8> {
        be_bytes(twos(m), 8)
    }

    open spec fn decoding(bytes: Seq<u8>) -> Decoded<i64> {
        match dec_be(bytes, 8) {
            Ok((v, rest)) => Ok((untwos(v), rest)),
            Err(e) => Err(e),
        }
    }

    proof fn lemma_roundtrip(m: i64, rest: Seq<u8>) {
        lemma_pow256_values();
        lemma_dec_be_roundtrip(twos(m), 8, rest);
    }

    proof fn lemma_truncated(m: i64, k: int) {
        lemma_be_bytes_len(twos(m), 8);
        lemma_dec_be_truncated(twos(m), 8, k);
    }

    fn put(&self, out: &mut Vec<u8>) {
        let v: i64 = *self;
        let pattern: u64 = if v >= 0 {
            v as u64
        } else {
            u64::MAX - ((-(v + 1)) as u64)
        };
        put_be(out, pattern, 8);
    }

    fn take(bytes: &[u8], pos: &mut usize) -> (out: Result<i64, DecodeError>) {
        match take_be(bytes, pos, 8) {
            Ok(u) => if u < 0x8000_0000_0000_0000 {
                Ok(u as i64)
            } else {
                Ok(-((u64::MAX - u) as i64) - 1)
            },
            Err(e) => Err(e),
        }
    }
}

impl Wire for String {
    type Model = Seq<char>;

    open spec fn model(&self) -> Seq<char> {
        self@
    }

    open spec fn fits(m: Seq<char>) -> bool {
        encode_utf8(m).len() <= u64::MAX
    }

    open spec fn encoding(m: Seq<char>) -> Seq<u8> {
        be_bytes(encode_utf8(m).len(), 8) + encode_utf8(m)
    }

    open spec fn decoding(bytes: Seq<u8>) -> Decoded<Seq<char>> {
        match dec_be(bytes, 8) {
            Ok((n, rest)) => if rest.len() < n {
                Err(DecodeError::Truncated)
            } else if !valid_utf8(rest.take(n as int)) {
                Err(DecodeError::BadText)
            } else {
                Ok((decode_utf8(rest.take(n as int)), rest.skip(n as int)))
            },
            Err(e) => Err(e),
        }
    }

    proof fn lemma_roundtrip(m: Seq<char>, rest: Seq<u8>) {
        let body = encode_utf8(m);
        lemma_pow256_values();
        lemma_dec_be_roundtrip(body.len(), 8, body + rest);
        assert(Self::encoding(m) + rest =~= be_bytes(body.len(), 8) + (body + rest));
        assert((body + rest).take(body.len() as int) =~= body);
        assert((body + rest).skip(body.len() as int) =~= rest);
        vstd::utf8::encode_utf8_valid_utf8(m);
        vstd::utf8::encode_utf8_decode_utf8(m);
    }

    proof fn lemma_truncated(m: Seq<char>, k: int) {
        let body = encode_utf8(m);
        let head = be_bytes(body.len(), 8);
        lemma_be_bytes_len(body.len(), 8);
        lemma_take_concat(head, body, k);
        if k < 8 {
            lemma_dec_be_truncated(body.len(), 8, k);
        } else {
            lemma_pow256_values();
            lemma_dec_be_roundtrip(body.len(), 8, body.take(k - 8));
        }
    }

    fn put(&self, out: &mut Vec<u8>) {
        let body = self.as_str().as_bytes();
        let ghost before = out@;
        put_be(out, body.len() as u64, 8);
        let ghost middle = out@;
        out.extend_from_slice(body);
        proof {
            assert forall|i: int| 0 <= i < body@.len() implies out@[middle.len() + i]
                == body@[i] by {
                assert(cloned::<u8>(body@[i], out@[middle.len() + i]));
            }
            assert(out@ =~= middle + body@);
            assert(out@ =~= before + Self::encoding(self@));
        }
    }

    fn take(bytes: &[u8], pos: &mut usize) -> (out: Result<String, DecodeError>) {
        let ghost input = bytes@.skip(*pos as int);
        match take_be(bytes, pos, 8) {
            Ok(n) => {
                let start: usize = *pos;
                let left: usize = bytes.len() - start;
                if (left as u64) < n {
                    return Err(DecodeError::Truncated);
                }
                let end: usize = start + n as usize;
                let body = vstd::slice::slice_subrange(bytes, start, end);
                proof {
                    assert(body@ =~= bytes@.skip(start as int).take(n as int));
                    assert(bytes@.skip(start as int).skip(n as int) =~= bytes@.skip(end as int));
                }
                match text_from_utf8(vstd::slice::slice_to_vec(body)) {
                    Some(text) => {
                        *pos = end;
                        Ok(text)
                    },
                    None => Err(DecodeError::BadText),
                }
            },
            Err(e) => Err(e),
        }
    }
}

impl<T: Wire> Wire for Option<T> {
    type Model = Option<T::Model>;

    open spec fn model(&self) -> Option<T::Model> {
        match *self {
            Some(v) => Some(v.model()),
            None => None,
        }
    }

    open spec fn fits(m: Option<T::Model>) -> bool {
        match m {
            Some(v) => T::fits(v),
            None => true,
        }
    }

    open spec fn encoding(m: Option<T::Model>) -> Seq<u8> {
        match m {
            Some(v) => seq![1u8] + T::encoding(v),
            None => seq![0u8],
        }
    }

    open spec fn decoding(bytes: Seq<u8>) -> Decoded<Option<T::Model>> {
        if bytes.len() == 0 {
            Err(DecodeError::Truncated)
        } else if bytes[0] == 0 {
            Ok((None, bytes.skip(1)))
        } else if bytes[0] == 1 {
            match T::decoding(bytes.skip(1)) {
                Ok((v, rest)) => Ok((Some(v), rest)),
                Err(e) => Err(e),
            }
        } else {
            Err(DecodeError::BadTag)
        }
    }

    proof fn lemma_roundtrip(m: Option<T::Model>, rest: Seq<u8>) {
        let all = Self::encoding(m) + rest;
        match m {
            Some(v) => {
                T::lemma_roundtrip(v, rest);
                assert(all.skip(1) =~= T::encoding(v) + rest);
                assert(all[0] == 1);
            },
            None => {
                assert(all.skip(1) =~= rest);
                assert(all[0] == 0);
            },
        }
    }

    proof fn lemma_truncated(m: Option<T::Model>, k: int) {
        match m {
            Some(v) => {
                if k > 0 {
                    let cut = Self::encoding(m).take(k);
                    lemma_take_concat(seq![1u8], T::encoding(v), k);
                    assert(cut[0] == 1);
                    assert(cut.skip(1) =~= T::encoding(v).take(k - 1));
                    T::lemma_truncated(v, k - 1);
                }
            },
            None => {},
        }
    }

    fn put(&self, out: &mut Vec<u8>) {
        match self {
            Some(v) => {
                out.push(1);
                v.put(out);
                assert(out@ =~= old(out)@ + Self::encoding(self.model()));
            },
            None => {
                out.push(0);
                assert(out@ =~= old(out)@ + Self::encoding(self.model()));
            },
        }
    }

    fn take(bytes: &[u8], pos: &mut usize) -> (out: Result<Option<T>, DecodeError>) {
        let start: usize = *pos;
        if start >= bytes.len() {
            return Err(DecodeError::Truncated);
        }
        let tag = bytes[start];
        proof {
            assert(bytes@.skip(start as int)[0] == tag);
            assert(bytes@.skip(start as int).skip(1) =~= bytes@.skip(start + 1));
        }
        if tag == 0 {
            *pos = start + 1;
            Ok(None)
        } else if tag == 1 {
            *pos = start + 1;
            match T::take(bytes, pos) {
                Ok(v) => Ok(Some(v)),
                Err(e) => Err(e),
            }
        } else {
            Err(DecodeError::BadTag)
        }
    }
}

/// The bytes of values written one after the other.
pub open spec fn enc_each<T: Wire>(items: Seq<T::Model>) -> Seq<u8>
    decreases items.len(),
{
    if items.len() == 0 {
        Seq::empty()
    } else {
        T::encoding(items[0]) + enc_each::<T>(items.drop_first())
    }
}

/// `first` followed by what `rest` gives, or the refusal that `rest` is.
pub open spec fn after_items<M>(first: Seq<M>, rest: Decoded<Seq<M>>) -> Decoded<Seq<M>> {
    match rest {
        Ok((more, left)) => Ok((first + more, left)),
        Err(e) => Err(e),
    }
}

/// `n` values read one after the other.
pub open spec fn dec_each<T: Wire>(bytes: Seq<u8>, n: nat) -> Decoded<Seq<T::Model>>
    decreases n,
{
    if n == 0 {
        Ok((Seq::empty(), bytes))
    } else {
        match T::decoding(bytes) {
            Ok((v, rest)) => after_items(seq![v], dec_each::<T>(rest, (n - 1) as nat)),
            Err(e) => Err(e),
        }
    }
}

/// Whether every value of the list fits.
pub open spec fn each_fits<T: Wire>(items: Seq<T::Model>) -> bool {
    forall|i: int| 0 <= i < items.len() ==> T::fits(#[trigger] items[i])
}

/// One more value at the end of a list adds its bytes at the end.
pub proof fn lemma_enc_each_push<T: Wire>(items: Seq<T::Model>, last: T::Model)
    ensures
        enc_each::<T>(items.push(last)) == enc_each::<T>(items) + T::encoding(last),
    decreases items.len(),
{
    if items.len() == 0 {
        let one = items.push(last);
        assert(one.drop_first() =~= Seq::<T::Model>::empty());
        assert(one[0] == last);
        assert(enc_each::<T>(one.drop_first()) =~= Seq::<u8>::empty());
        assert(enc_each::<T>(one) =~= T::encoding(last));
        assert(enc_each::<T>(items) + T::encoding(last) =~= T::encoding(last));
    } else {
        lemma_enc_each_push::<T>(items.drop_first(), last);
        assert(items.push(last).drop_first() =~= items.drop_first().push(last));
        assert(T::encoding(items[0]) + (enc_each::<T>(items.drop_first()) + T::encoding(last))
            =~= (T::encoding(items[0]) + enc_each::<T>(items.drop_first())) + T::encoding(last));
    }
}

/// Values written one after the other are read back in order, and what
/// followed them is left.
pub proof fn lemma_each_roundtrip<T: Wire>(items: Seq<T::Model>, rest: Seq<u8>)
    requires
        each_fits::<T>(items),
    ensures
        dec_each::<T>(enc_each::<T>(items) + rest, items.len()) == Ok::<
            (Seq<T::Model>, Seq<u8>),
            DecodeError,
        >((items, rest)),
    decreases items.len(),
{
    if items.len() == 0 {
        assert(enc_each::<T>(items) + rest =~= rest);
        assert(items =~= Seq::<T::Model>::empty());
    } else {
        let tail = items.drop_first();
        assert(tail.len() == items.len() - 1);
        assert(T::fits(items[0]));
        assert forall|i: int| 0 <= i < tail.len() implies T::fits(#[trigger] tail[i]) by {
            assert(T::fits(items[i + 1]));
        }
        T::lemma_roundtrip(items[0], enc_each::<T>(tail) + rest);
        lemma_each_roundtrip::<T>(tail, rest);
        let all = enc_each::<T>(items) + rest;
        assert(all =~= T::encoding(items[0]) + (enc_each::<T>(tail) + rest));
        assert(T::decoding(all) == Ok::<(T::Model, Seq<u8>), DecodeError>(
            (items[0], enc_each::<T>(tail) + rest),
        ));
        assert(seq![items[0]] + tail =~= items);
        assert((items.len() - 1) as nat == tail.len());
    }
}

/// Values written one after the other and then cut short are refused as
/// truncated.
pub proof fn lemma_each_truncated<T: Wire>(items: Seq<T::Model>, k: int)
    requires
        each_fits::<T>(items),
        0 <= k < enc_each::<T>(items).len(),
    ensures
        dec_each::<T>(enc_each::<T>(items).take(k), items.len()) == Err::<
            (Seq<T::Model>, Seq<u8>),
            DecodeError,
        >(DecodeError::Truncated),
    decreases items.len(),
{
    if items.len() > 0 {
        let first = T::encoding(items[0]);
        let tail = items.drop_first();
        assert(tail.len() == items.len() - 1);
        assert(T::fits(items[0]));
        lemma_take_concat(first, enc_each::<T>(tail), k);
        if k < first.len() {
            T::lemma_truncated(items[0], k);
        } else {
            let cut = enc_each::<T>(tail).take(k - first.len());
            assert forall|i: int| 0 <= i < tail.len() implies T::fits(#[trigger] tail[i]) by {
                assert(T::fits(items[i + 1]));
            }
            T::lemma_roundtrip(items[0], cut);
            lemma_each_truncated::<T>(tail, k - first.len());
        }
    }
}

/// The models of a list of values, one by one.
pub open spec fn models<T: Wire>(items: Seq<T>) -> Seq<T::Model> {
    Seq::new(items.len(), |i: int| items[i].model())
}

impl<T: Wire> Wire for Vec<T> {
    type Model = Seq<T::Model>;

    open spec fn model(&self) -> Seq<T::Model> {
        models(self@)
    }

    open spec fn fits(m: Seq<T::Model>) -> bool {
        m.len() <= u64::MAX && each_fits::<T>(m)
    }

    open spec fn encoding(m: Seq<T::Model>) -> Seq<u8> {
        be_bytes(m.len(), 8) + enc_each::<T>(m)
    }

    open spec fn decoding(bytes: Seq<u8>) -> Decoded<Seq<T::Model>> {
        match dec_be(bytes, 8) {
            Ok((n, rest)) => dec_each::<T>(rest, n),
            Err(e) => Err(e),
        }
    }

    proof fn lemma_roundtrip(m: Seq<T::Model>, rest: Seq<u8>) {
        lemma_pow256_values();
        lemma_dec_be_roundtrip(m.len(), 8, enc_each::<T>(m) + rest);
        assert(Self::encoding(m) + rest =~= be_bytes(m.len(), 8) + (enc_each::<T>(m) + rest));
        lemma_each_roundtrip::<T>(m, rest);
    }

    proof fn lemma_truncated(m: Seq<T::Model>, k: int) {
        let head = be_bytes(m.len(), 8);
        lemma_be_bytes_len(m.len(), 8);
        lemma_take_concat(head, enc_each::<T>(m), k);
        if k < 8 {
            lemma_dec_be_truncated(m.len(), 8, k);
        } else {
            lemma_pow256_values();
            lemma_dec_be_roundtrip(m.len(), 8, enc_each::<T>(m).take(k - 8));
            lemma_each_truncated::<T>(m, k - 8);
        }
    }

    fn put(&self, out: &mut Vec<u8>) {
        put_be(out, self.len() as u64, 8);
        let ghost head = out@;
        let mut i: usize = 0;
        proof {
            assert(models(self@).take(0) =~= Seq::<T::Model>::empty());
            assert(head + enc_each::<T>(Seq::<T::Model>::empty()) =~= head);
        }
        while i < self.len()
            invariant
                0 <= i <= self.len(),
                head == old(out)@ + be_bytes(self.len() as nat, 8),
                out@ == head + enc_each::<T>(models(self@).take(i as int)),
                forall|k: int| 0 <= k < i ==> T::fits(#[trigger] models(self@)[k]),
            decreases self.len() - i,
        {
            let ghost before = out@;
            self[i].put(out);
            proof {
                let done = models(self@).take(i as int);
                lemma_enc_each_push::<T>(done, self@[i as int].model());
                assert(done.push(self@[i as int].model()) =~= models(self@).take(i + 1));
                assert(head + (enc_each::<T>(done) + T::encoding(self@[i as int].model()))
                    =~= out@);
            }
            i += 1;
        }
        proof {
            assert(models(self@).take(i as int) =~= models(self@));
            assert(old(out)@ + (be_bytes(self.len() as nat, 8) + enc_each::<T>(models(self@)))
                =~= out@);
        }
    }

    fn take(bytes: &[u8], pos: &mut usize) -> (out: Result<Vec<T>, DecodeError>) {
        match take_be(bytes, pos, 8) {
            Ok(n) => {
                let ghost input = bytes@.skip(*pos as int);
                let mut items: Vec<T> = Vec::new();
                let mut i: u64 = 0;
                proof {
                    assert(models(items@) =~= Seq::<T::Model>::empty());
                    assert forall|r: Decoded<Seq<T::Model>>|
                        after_items(Seq::<T::Model>::empty(), r) == r by {
                        if let Ok((more, left)) = r {
                            assert(Seq::<T::Model>::empty() + more =~= more);
                        }
                    }
                }
                while i < n
                    invariant
                        0 <= i <= n,
                        *pos <= bytes.len(),
                        Self::decoding(bytes@.skip(*old(pos) as int)) == dec_each::<T>(
                            input,
                            n as nat,
                        ),
                        dec_each::<T>(input, n as nat) == after_items(
                            models(items@),
                            dec_each::<T>(bytes@.skip(*pos as int), (n - i) as nat),
                        ),
                    decreases n - i,
                {
                    let ghost here = bytes@.skip(*pos as int);
                    match T::take(bytes, pos) {
                        Ok(v) => {
                            let ghost before = items@;
                            items.push(v);
                            proof {
                                assert(models(items@) =~= models(before).push(v.model()));
                                let next = dec_each::<T>(
                                    bytes@.skip(*pos as int),
                                    (n - i - 1) as nat,
                                );
                                if let Ok((more, left)) = next {
                                    assert(models(before) + (seq![v.model()] + more) =~= models(
                                        items@,
                                    ) + more);
                                }
                            }
                        },
                        Err(e) => {
                            return Err(e);
                        },
                    }
                    i += 1;
                }
                proof {
                    assert(models(items@) + Seq::<T::Model>::empty() =~= models(items@));
                }
                Ok(items)
            },
            Err(e) => Err(e),
        }
    }
}

/// Bytes written one after the other do not depend on how they are grouped.
pub proof fn lemma_concat_assoc(a: Seq<u8>, b: Seq<u8>, c: Seq<u8>)
    ensures
        (a + b) + c == a + (b + c),
{
    assert((a + b) + c =~= a + (b + c));
}

impl<A: Wire, B: Wire> Wire for (A, B) {
    type Model = (A::Model, B::Model);

    open spec fn model(&self) -> (A::Model, B::Model) {
        (self.0.model(), self.1.model())
    }

    open spec fn fits(m: (A::Model, B::Model)) -> bool {
        A::fits(m.0) && B::fits(m.1)
    }

    open spec fn encoding(m: (A::Model, B::Model)) -> Seq<u8> {
        A::encoding(m.0) + B::encoding(m.1)
    }

    open spec fn decoding(bytes: Seq<u8>) -> Decoded<(A::Model, B::Model)> {
        match A::decoding(bytes) {
            Ok((a, rest)) => match B::decoding(rest) {
                Ok((b, left)) => Ok(((a, b), left)),
                Err(e) => Err(e),
            },
            Err(e) => Err(e),
        }
    }

    proof fn lemma_roundtrip(m: (A::Model, B::Model), rest: Seq<u8>) {
        A::lemma_roundtrip(m.0, B::encoding(m.1) + rest);
        B::lemma_roundtrip(m.1, rest);
        assert(Self::encoding(m) + rest =~= A::encoding(m.0) + (B::encoding(m.1) + rest));
    }

    proof fn lemma_truncated(m: (A::Model, B::Model), k: int) {
        let first = A::encoding(m.0);
        lemma_take_concat(first, B::encoding(m.1), k);
        if k < first.len() {
            A::lemma_truncated(m.0, k);
        } else {
            A::lemma_roundtrip(m.0, B::encoding(m.1).take(k - first.len()));
            B::lemma_truncated(m.1, k - first.len());
        }
    }

    fn put(&self, out: &mut Vec<u8>) {
        self.0.put(out);
        self.1.put(out);
        assert(out@ =~= old(out)@ + Self::encoding(self.model()));
    }

    fn take(bytes: &[u8], pos: &mut usize) -> (out: Result<(A, B), DecodeError>) {
        match A::take(bytes, pos) {
            Ok(a) => match B::take(bytes, pos) {
                Ok(b) => Ok((a, b)),
                Err(e) => Err(e),
            },
            Err(e) => Err(e),
        }
    }
}

} // verus!
