//! A queue of byte chunks that reads as one stream.
use std::collections::VecDeque;

use vstd::prelude::*;
use vstd::utf8::decode_utf8;
use vstd::utf8::valid_utf8;

use crate::error::Error;
use crate::error::Failure;
use crate::error::Result;

verus! {

/// `bytes::Bytes`, a chunk of bytes; nothing is known of what is inside but
/// through [`chunk_bytes`].
#[verifier::external_type_specification]
#[verifier::external_body]
pub struct ExBytes(bytes::Bytes);

/// The bytes that a `bytes::Bytes` holds and that are not yet read, in their
/// order: what `bytes::Buf::chunk` shows of it.
pub uninterp spec fn chunk_bytes(chunk: bytes::Bytes) -> Seq<u8>;

/// `<bytes::Bytes as bytes::Buf>::remaining`: how many bytes the chunk still
/// holds.
#[verifier::external_body]
fn chunk_remaining(chunk: &bytes::Bytes) -> (n: usize)
    ensures
        n == chunk_bytes(*chunk).len(),
{
    bytes::Buf::remaining(chunk)
}

/// `<bytes::Bytes as bytes::Buf>::chunk`: the bytes that the chunk still
/// holds, all of them, as one slice.
#[verifier::external_body]
fn chunk_slice(chunk: &bytes::Bytes) -> (s: &[u8])
    ensures
        s@ == chunk_bytes(*chunk),
{
    bytes::Buf::chunk(chunk)
}

/// `<bytes::Bytes as bytes::Buf>::advance`: drops the first `cnt` bytes of
/// the chunk.  It panics where the chunk holds fewer.
#[verifier::external_body]
fn chunk_advance(chunk: &mut bytes::Bytes, cnt: usize)
    requires
        cnt <= chunk_bytes(*old(chunk)).len(),
    ensures
        chunk_bytes(*final(chunk)) == chunk_bytes(*old(chunk)).skip(cnt as int),
{
    bytes::Buf::advance(chunk, cnt)
}

/// `core::str::Utf8Error`, the failure of `core::str::from_utf8`.
#[verifier::external_type_specification]
#[verifier::external_body]
pub struct ExUtf8Error(core::str::Utf8Error);

/// `core::str::from_utf8` sees the bytes as a string where they are UTF-8,
/// and fails where they are not.
pub assume_specification<'a>[ core::str::from_utf8 ](v: &'a [u8]) -> (r: core::result::Result<
    &'a str,
    core::str::Utf8Error,
>)
    ensures
        r is Ok <==> valid_utf8(v@),
        r matches Ok(text) ==> text@ == decode_utf8(v@),
;

/// 256 to the power of `n`.
pub open spec fn pow256(n: nat) -> nat
    decreases n,
{
    if n == 0 {
        1
    } else {
        256 * pow256((n - 1) as nat)
    }
}

/// The number that the bytes denote, the least significant byte first.
pub open spec fn le_value(bytes: Seq<u8>) -> nat
    decreases bytes.len(),
{
    if bytes.len() == 0 {
        0
    } else {
        bytes[0] as nat + 256 * le_value(bytes.skip(1))
    }
}

/// The number that the bytes denote in two's complement, the least
/// significant byte first.
pub open spec fn le_signed_value(bytes: Seq<u8>) -> int {
    if 2 * le_value(bytes) >= pow256(bytes.len()) {
        le_value(bytes) - pow256(bytes.len())
    } else {
        le_value(bytes) as int
    }
}

/// `n` bytes denote a number below 256 to the power of `n`.
pub proof fn lemma_le_value_bound(bytes: Seq<u8>)
    ensures
        le_value(bytes) < pow256(bytes.len()),
    decreases bytes.len(),
{
    if bytes.len() > 0 {
        lemma_le_value_bound(bytes.skip(1));
    }
}

/// The powers of 256 that the integer types end at.
pub proof fn lemma_pow256_values()
    ensures
        pow256(0) == 1,
        pow256(1) == 0x100,
        pow256(2) == 0x1_0000,
        pow256(4) == 0x1_0000_0000,
        pow256(8) == 0x1_0000_0000_0000_0000,
        pow256(15) == 0x100_0000_0000_0000_0000_0000_0000_0000,
        pow256(16) == 0x1_0000_0000_0000_0000_0000_0000_0000_0000,
{
    reveal_with_fuel(pow256, 17);
}

/// The powers of 256 grow with the exponent, and none is 0.
pub proof fn lemma_pow256_monotone(a: nat, b: nat)
    requires
        a <= b,
    ensures
        pow256(a) <= pow256(b),
        pow256(a) > 0,
    decreases b,
{
    if a < b {
        lemma_pow256_monotone(a, (b - 1) as nat);
    } else if a > 0 {
        lemma_pow256_monotone((a - 1) as nat, (a - 1) as nat);
    }
}

/// The number that the digits of base 128 denote, the least digit first; a
/// digit is what a byte holds below its highest bit.
pub open spec fn varint_value(run: Seq<u8>) -> nat
    decreases run.len(),
{
    if run.len() == 0 {
        0
    } else {
        (run[0] % 128) as nat + 128 * varint_value(run.skip(1))
    }
}

/// A variable-length integer: bytes with the highest bit set, and then one
/// without.
pub open spec fn is_varint_run(run: Seq<u8>) -> bool {
    &&& run.len() > 0
    &&& run.last() < 0x80
    &&& forall|i: int| 0 <= i < run.len() - 1 ==> run[i] >= 0x80
}

/// The number of a variable-length integer fits in 64 bits: it has at most
/// nine bytes, or ten of which the last is 0 or 1.
pub open spec fn varint_fits(run: Seq<u8>) -> bool {
    run.len() <= 9 || (run.len() == 10 && run[9] <= 1)
}

/// `leb128::read::unsigned` on the bytes of one variable-length integer: the
/// number that its digits denote, or nothing where the number does not fit
/// in 64 bits.  As the bytes end with the last byte of the integer, the
/// reader never runs out of bytes, and an overflow is its one failure.
#[verifier::external_body]
fn leb128_unsigned(run: &[u8]) -> (r: Option<u64>)
    requires
        is_varint_run(run@),
    ensures
        r is Some <==> varint_fits(run@),
        r matches Some(v) ==> v == varint_value(run@),
{
    let mut reader: &[u8] = run;
    leb128::read::unsigned(&mut reader).ok()
}

/// The position, among the first ten bytes from `from` on, of the first byte
/// whose highest bit is clear.
pub open spec fn varint_end(s: Seq<u8>, from: int) -> Option<int>
    decreases 10 - from,
{
    if from < 0 || from >= 10 || from >= s.len() {
        None
    } else if s[from] < 0x80 {
        Some(from)
    } else {
        varint_end(s, from + 1)
    }
}

/// The variable-length integer at the start of `s`, and how many bytes it
/// takes.  An integer of more than ten bytes, or of ten bytes with more than
/// 64 bits, is an overflow; a stream that ends within the integer has not
/// enough data.
pub open spec fn read_varint(s: Seq<u8>) -> core::result::Result<(u64, nat), Failure> {
    match varint_end(s, 0) {
        Some(k) => if varint_fits(s.take(k + 1)) {
            Ok((varint_value(s.take(k + 1)) as u64, (k + 1) as nat))
        } else {
            Err(Failure::LEB128Error)
        },
        None => if s.len() >= 10 {
            Err(Failure::LEB128Error)
        } else {
            Err(Failure::NotEnoughData)
        },
    }
}

/// The size at the start of `s`: a variable-length integer that fits in a
/// `usize`.
pub open spec fn read_size_at(s: Seq<u8>) -> core::result::Result<(usize, nat), Failure> {
    match read_varint(s) {
        Ok((v, n)) => if v <= usize::MAX {
            Ok((v as usize, n))
        } else {
            Err(Failure::TryFromIntError)
        },
        Err(e) => Err(e),
    }
}

/// The first `size` bytes of `s`.
pub open spec fn read_bytes(s: Seq<u8>, size: nat) -> core::result::Result<(Seq<u8>, nat), Failure> {
    if size <= s.len() {
        Ok((s.take(size as int), size))
    } else {
        Err(Failure::NotEnoughData)
    }
}

/// The string at the start of `s`: its size, and then as many bytes, which
/// are UTF-8.
pub open spec fn read_string(s: Seq<u8>) -> core::result::Result<(Seq<char>, nat), Failure> {
    match read_size_at(s) {
        Ok((size, n)) => match read_bytes(s.skip(n as int), size as nat) {
            Ok((bytes, m)) => if valid_utf8(bytes) {
                Ok((decode_utf8(bytes), n + m))
            } else {
                Err(Failure::Utf8Error)
            },
            Err(e) => Err(e),
        },
        Err(e) => Err(e),
    }
}

/// The bytes that a number is written as: its digits of base 128, the least
/// first, each but the last with the highest bit set.
pub open spec fn varint_encoding(v: nat) -> Seq<u8>
    decreases v,
{
    if v < 128 {
        seq![v as u8]
    } else {
        seq![((v % 128) + 128) as u8] + varint_encoding(v / 128)
    }
}

/// 128 to the power of `n`.
pub open spec fn pow128(n: nat) -> nat
    decreases n,
{
    if n == 0 {
        1
    } else {
        128 * pow128((n - 1) as nat)
    }
}

/// The bytes that a number is written as are a variable-length integer that
/// denotes the number.
pub proof fn lemma_varint_encoding(v: nat)
    ensures
        is_varint_run(varint_encoding(v)),
        varint_value(varint_encoding(v)) == v,
    decreases v,
{
    let bytes = varint_encoding(v);
    if v < 128 {
        assert(bytes.skip(1) == Seq::<u8>::empty());
        assert(varint_value(bytes.skip(1)) == 0);
    } else {
        let rest = varint_encoding(v / 128);
        lemma_varint_encoding(v / 128);
        assert(bytes.skip(1) == rest);
        assert(bytes.last() == rest.last());
        assert forall|i: int| 0 <= i < bytes.len() - 1 implies bytes[i] >= 0x80 by {
            if i > 0 {
                assert(bytes[i] == rest[i - 1]);
            }
        }
    }
}

/// A number below `top` times 128 to the power of `n` is written in no more
/// than `n + 1` bytes, and where it takes as many, the last is below `top`.
pub proof fn lemma_varint_encoding_len(v: nat, n: nat, top: nat)
    requires
        v < top * pow128(n),
        1 <= top <= 128,
    ensures
        varint_encoding(v).len() <= n + 1,
        varint_encoding(v).len() == n + 1 ==> varint_encoding(v).last() < top,
    decreases n,
{
    let bytes = varint_encoding(v);
    if n == 0 {
        assert(top * pow128(0) == top) by (nonlinear_arith)
            requires
                pow128(0) == 1,
        ;
    } else if v >= 128 {
        let rest = varint_encoding(v / 128);
        let p = pow128((n - 1) as nat);
        assert(v / 128 < top * p) by (nonlinear_arith)
            requires
                v < top * (128 * p),
        ;
        lemma_varint_encoding_len(v / 128, (n - 1) as nat, top);
        assert(bytes.last() == rest.last());
    }
}

/// Writing and reading: the bytes that a number of 64 bits is written as,
/// whatever follows them, read as the number, and as many bytes are taken
/// as were written.
pub proof fn lemma_varint_round_trip(v: u64, rest: Seq<u8>)
    ensures
        read_varint(varint_encoding(v as nat) + rest) == Ok::<(u64, nat), Failure>(
            (v, varint_encoding(v as nat).len()),
        ),
{
    let bytes = varint_encoding(v as nat);
    let s = bytes + rest;
    lemma_varint_encoding(v as nat);
    assert(pow128(9) == 0x8000_0000_0000_0000) by {
        reveal_with_fuel(pow128, 10);
    }
    lemma_varint_encoding_len(v as nat, 9, 2);
    lemma_varint_end(s, 0);
    let k = bytes.len() - 1;
    assert(s[k] == bytes[k]);
    assert forall|j: int| 0 <= j < k implies s[j] >= 0x80 by {
        assert(s[j] == bytes[j]);
    }
    assert(varint_end(s, 0) == Some(k));
    assert(s.take(k + 1) == bytes);
}

/// A string whose size is more than the bytes that follow the size cannot
/// be read for want of data.
pub proof fn lemma_string_longer_than_stream(s: Seq<u8>)
    requires
        read_size_at(s) matches Ok(found) && found.0 > s.len() - found.1,
    ensures
        read_string(s) == Err::<(Seq<char>, nat), Failure>(Failure::NotEnoughData),
{
    lemma_varint_end(s, 0);
}

/// The first end of a variable-length integer is an end, and no byte before
/// it is one.
pub proof fn lemma_varint_end(s: Seq<u8>, from: int)
    requires
        0 <= from,
    ensures
        match varint_end(s, from) {
            Some(k) => from <= k < 10 && k < s.len() && s[k] < 0x80 && forall|j: int|
                from <= j < k ==> s[j] >= 0x80,
            None => forall|j: int| from <= j < 10 && j < s.len() ==> s[j] >= 0x80,
        },
    decreases 10 - from,
{
    if from < 10 && from < s.len() && s[from] >= 0x80 {
        lemma_varint_end(s, from + 1);
    }
}

/// The bytes of the chunks, one chunk after the other.
pub open spec fn flatten(chunks: Seq<Seq<u8>>) -> Seq<u8>
    decreases chunks.len(),
{
    if chunks.len() == 0 {
        Seq::empty()
    } else {
        chunks[0] + flatten(chunks.skip(1))
    }
}

/// The chunks that are left when the first `n` bytes are read: the chunks
/// that were read to their end are gone, and the first one left has lost what
/// was read of it.
pub open spec fn drop_front(chunks: Seq<Seq<u8>>, n: nat) -> Seq<Seq<u8>>
    decreases chunks.len(),
{
    if n == 0 || chunks.len() == 0 {
        chunks
    } else if n >= chunks[0].len() {
        drop_front(chunks.skip(1), (n - chunks[0].len()) as nat)
    } else {
        seq![chunks[0].skip(n as int)] + chunks.skip(1)
    }
}

/// No chunk is empty.
pub open spec fn no_empty_chunk(chunks: Seq<Seq<u8>>) -> bool {
    forall|i: int| 0 <= i < chunks.len() ==> (#[trigger] chunks[i]).len() > 0
}

/// The stream of chunks with one more chunk is their stream with the bytes
/// of the chunk behind it.
pub proof fn lemma_flatten_push(chunks: Seq<Seq<u8>>, chunk: Seq<u8>)
    ensures
        flatten(chunks.push(chunk)) == flatten(chunks) + chunk,
    decreases chunks.len(),
{
    if chunks.len() == 0 {
        assert(chunks.push(chunk).skip(1) == Seq::<Seq<u8>>::empty());
        assert(flatten(chunks.push(chunk).skip(1)) == Seq::<u8>::empty());
        assert(chunk + Seq::<u8>::empty() == chunk);
        assert(Seq::<u8>::empty() + chunk == chunk);
    } else {
        lemma_flatten_push(chunks.skip(1), chunk);
        assert(chunks.push(chunk).skip(1) == chunks.skip(1).push(chunk));
        assert(chunks[0] + (flatten(chunks.skip(1)) + chunk) == (chunks[0] + flatten(
            chunks.skip(1),
        )) + chunk);
    }
}

/// Reading `n` bytes leaves the stream without its first `n` bytes, and
/// leaves no chunk empty where none was.
pub proof fn lemma_drop_front(chunks: Seq<Seq<u8>>, n: nat)
    requires
        n <= flatten(chunks).len(),
    ensures
        flatten(drop_front(chunks, n)) == flatten(chunks).skip(n as int),
        no_empty_chunk(chunks) ==> no_empty_chunk(drop_front(chunks, n)),
    decreases chunks.len(),
{
    if n == 0 || chunks.len() == 0 {
        assert(flatten(chunks).skip(0) == flatten(chunks));
    } else if n >= chunks[0].len() {
        let rest = chunks.skip(1);
        lemma_drop_front(rest, (n - chunks[0].len()) as nat);
        assert(flatten(chunks).skip(n as int) == flatten(rest).skip(n - chunks[0].len()));
        if no_empty_chunk(chunks) {
            assert forall|i: int| 0 <= i < rest.len() implies (#[trigger] rest[i]).len() > 0 by {
                assert(rest[i] == chunks[i + 1]);
            }
        }
    } else {
        let left = seq![chunks[0].skip(n as int)] + chunks.skip(1);
        assert(left[0] == chunks[0].skip(n as int));
        assert(left.skip(1) == chunks.skip(1));
        assert(flatten(chunks).skip(n as int) == chunks[0].skip(n as int) + flatten(
            chunks.skip(1),
        ));
        if no_empty_chunk(chunks) {
            assert forall|i: int| 0 <= i < left.len() implies (#[trigger] left[i]).len() > 0 by {
                if i > 0 {
                    assert(left[i] == chunks[i]);
                }
            }
        }
    }
}

/// How many bytes the first `i` chunks hold.
pub open spec fn prefix_len(chunks: Seq<Seq<u8>>, i: int) -> nat {
    flatten(chunks.take(i)).len()
}

/// Where the bytes of chunk `i` stand in the stream.
pub proof fn lemma_prefix_len(chunks: Seq<Seq<u8>>, i: int)
    requires
        0 <= i < chunks.len(),
    ensures
        prefix_len(chunks, i + 1) == prefix_len(chunks, i) + chunks[i].len(),
        prefix_len(chunks, i + 1) <= flatten(chunks).len(),
        forall|j: int|
            0 <= j < chunks[i].len() ==> flatten(chunks)[prefix_len(chunks, i) + j]
                == #[trigger] chunks[i][j],
    decreases chunks.len(),
{
    let rest = chunks.skip(1);
    if i == 0 {
        assert(chunks.take(0) == Seq::<Seq<u8>>::empty());
        assert(chunks.take(1) == seq![chunks[0]]);
        assert(chunks.take(1).skip(1) == Seq::<Seq<u8>>::empty());
        assert(flatten(chunks.take(1).skip(1)) == Seq::<u8>::empty());
    } else {
        lemma_prefix_len(rest, i - 1);
        assert(chunks.take(i).skip(1) == rest.take(i - 1));
        assert(chunks.take(i + 1).skip(1) == rest.take(i));
        assert(chunks.take(i)[0] == chunks[0]);
        assert(chunks.take(i + 1)[0] == chunks[0]);
        assert(rest[i - 1] == chunks[i]);
        assert forall|j: int| 0 <= j < chunks[i].len() implies flatten(chunks)[prefix_len(
            chunks,
            i,
        ) + j] == #[trigger] chunks[i][j] by {
            assert(flatten(rest)[prefix_len(rest, i - 1) + j] == rest[i - 1][j]);
        }
    }
}

/// All the chunks together hold the stream.
pub proof fn lemma_prefix_len_all(chunks: Seq<Seq<u8>>)
    ensures
        prefix_len(chunks, chunks.len() as int) == flatten(chunks).len(),
        prefix_len(chunks, 0) == 0,
{
    assert(chunks.take(chunks.len() as int) == chunks);
    assert(chunks.take(0) == Seq::<Seq<u8>>::empty());
}

/// The number that at most sixteen bytes denote, the least significant byte
/// first.
pub fn uint_of(bytes: &[u8]) -> (v: u128)
    requires
        bytes@.len() <= 16,
    ensures
        v == le_value(bytes@),
        v < pow256(bytes@.len()),
{
    let width: usize = bytes.len();
    let mut acc: u128 = 0;
    let mut i: usize = width;
    proof {
        lemma_pow256_values();
        assert(bytes@.skip(width as int) == Seq::<u8>::empty());
    }
    while i > 0
        invariant
            i <= width <= 16,
            bytes@.len() == width,
            acc == le_value(bytes@.skip(i as int)),
            acc < pow256((width - i) as nat),
        decreases i,
    {
        proof {
            lemma_pow256_values();
            lemma_pow256_monotone((width - i) as nat, 15);
            assert(bytes@.skip(i - 1).skip(1) == bytes@.skip(i as int));
            assert(bytes@.skip(i - 1)[0] == bytes@[i - 1]);
            lemma_le_value_bound(bytes@.skip(i - 1));
        }
        acc = acc * 256 + bytes[i - 1] as u128;
        i = i - 1;
    }
    assert(bytes@.skip(0) == bytes@);
    acc
}

/// The number that at most sixteen bytes denote in two's complement, the
/// least significant byte first.
pub fn int_of(bytes: &[u8]) -> (v: i128)
    requires
        1 <= bytes@.len() <= 16,
    ensures
        v == le_signed_value(bytes@),
        -pow256(bytes@.len()) <= 2 * v < pow256(bytes@.len()),
{
    let width: usize = bytes.len();
    let raw: u128 = uint_of(bytes);
    proof {
        lemma_pow256_values();
    }
    if width == 16 {
        if raw < 0x8000_0000_0000_0000_0000_0000_0000_0000 {
            raw as i128
        } else {
            (raw - 0x8000_0000_0000_0000_0000_0000_0000_0000) as i128 + i128::MIN
        }
    } else {
        let mut modulus: u128 = 1;
        let mut i: usize = 0;
        while i < width
            invariant
                i <= width <= 15,
                modulus == pow256(i as nat),
            decreases width - i,
        {
            proof {
                lemma_pow256_values();
                lemma_pow256_monotone(i as nat, 14);
                reveal_with_fuel(pow256, 16);
            }
            modulus = modulus * 256;
            i = i + 1;
        }
        proof {
            lemma_pow256_monotone(width as nat, 15);
        }
        if raw >= modulus / 2 {
            raw as i128 - modulus as i128
        } else {
            raw as i128
        }
    }
}

/// The number of a run of bytes is the number of its first `k` bytes and,
/// 256 to the power of `k` times, the number of the others.
pub proof fn lemma_le_value_split(bytes: Seq<u8>, k: int)
    requires
        0 <= k <= bytes.len(),
    ensures
        le_value(bytes) == le_value(bytes.take(k)) + pow256(k as nat) * le_value(bytes.skip(k)),
    decreases k,
{
    if k == 0 {
        assert(bytes.take(0) == Seq::<u8>::empty());
        assert(bytes.skip(0) == bytes);
        assert(pow256(0) * le_value(bytes) == le_value(bytes)) by (nonlinear_arith)
            requires
                pow256(0) == 1,
        ;
    } else {
        let rest = bytes.skip(1);
        lemma_le_value_split(rest, k - 1);
        assert(rest.take(k - 1) == bytes.take(k).skip(1));
        assert(rest.skip(k - 1) == bytes.skip(k));
        assert(bytes.take(k)[0] == bytes[0]);
        let a = le_value(rest.take(k - 1));
        let b = le_value(bytes.skip(k));
        let p = pow256((k - 1) as nat);
        assert(pow256(k as nat) == 256 * p);
        assert(le_value(bytes) == bytes[0] + 256 * (a + p * b));
        assert(le_value(bytes.take(k)) == bytes[0] + 256 * a);
        assert(256 * (a + p * b) == 256 * a + (256 * p) * b) by (nonlinear_arith);
    }
}

/// A queue of byte chunks that reads as one stream of bytes.
///
/// A chunk is queued only while it holds bytes that are not yet read, and
/// the buffer knows at any time how many bytes all its chunks hold together.
pub struct PartBuf {
    buffers: VecDeque<bytes::Bytes>,
    remain: usize,
}

impl View for PartBuf {
    type V = Seq<Seq<u8>>;

    /// The unread bytes of each queued chunk, first chunk first.
    closed spec fn view(&self) -> Seq<Seq<u8>> {
        Seq::new(self.buffers@.len(), |i: int| chunk_bytes(self.buffers@[i]))
    }
}

impl Default for PartBuf {
    fn default() -> (buf: PartBuf)
        ensures
            buf.wf(),
            buf@ == Seq::<Seq<u8>>::empty(),
    {
        PartBuf::new()
    }
}

impl PartBuf {
    /// The bytes that are not yet read, in the order in which they are read.
    pub open spec fn stream(&self) -> Seq<u8> {
        flatten(self@)
    }

    /// The buffer is well formed: no queued chunk is empty, and the count of
    /// unread bytes that it keeps is the length of the stream.
    pub closed spec fn wf(&self) -> bool {
        &&& self.remain == flatten(self@).len()
        &&& no_empty_chunk(self@)
    }

    /// In a well-formed buffer no chunk is empty, and the stream is no
    /// longer than a `usize` counts.
    pub proof fn lemma_wf(&self)
        requires
            self.wf(),
        ensures
            no_empty_chunk(self@),
            self.stream().len() <= usize::MAX,
    {
    }

    /// A buffer without chunks.
    pub fn new() -> (buf: PartBuf)
        ensures
            buf.wf(),
            buf@ == Seq::<Seq<u8>>::empty(),
    {
        let buf = PartBuf { buffers: VecDeque::new(), remain: 0 };
        assert(buf@ == Seq::<Seq<u8>>::empty());
        buf
    }

    /// Queues `t` behind the other chunks, unless `t` holds no byte.
    pub fn push_back(&mut self, t: bytes::Bytes)
        requires
            old(self).wf(),
            old(self).stream().len() + chunk_bytes(t).len() <= usize::MAX,
        ensures
            final(self).wf(),
            final(self)@ == if chunk_bytes(t).len() > 0 {
                old(self)@.push(chunk_bytes(t))
            } else {
                old(self)@
            },
    {
        proof {
            lemma_flatten_push(self@, chunk_bytes(t));
        }
        let size: usize = chunk_remaining(&t);
        if size > 0 {
            self.buffers.push_back(t);
            self.remain = self.remain + size;
            assert(self@ == old(self)@.push(chunk_bytes(t)));
        }
    }

    /// Queues `t` behind the other chunks where the buffer can count its
    /// bytes, and hands it back where the count of unread bytes would pass
    /// what a `usize` holds.
    pub fn try_push_back(&mut self, t: bytes::Bytes) -> (r: Option<bytes::Bytes>)
        requires
            old(self).wf(),
        ensures
            final(self).wf(),
            match r {
                None => {
                    &&& old(self).stream().len() + chunk_bytes(t).len() <= usize::MAX
                    &&& final(self)@ == if chunk_bytes(t).len() > 0 {
                        old(self)@.push(chunk_bytes(t))
                    } else {
                        old(self)@
                    }
                },
                Some(back) => {
                    &&& old(self).stream().len() + chunk_bytes(t).len() > usize::MAX
                    &&& back == t
                    &&& *final(self) == *old(self)
                },
            },
    {
        let size: usize = chunk_remaining(&t);
        if size > usize::MAX - self.remain {
            Some(t)
        } else {
            self.push_back(t);
            None
        }
    }

    /// Takes the first chunk out of the queue, with the bytes that are not
    /// yet read of it.
    pub fn pop_front(&mut self) -> (r: Option<bytes::Bytes>)
        requires
            old(self).wf(),
        ensures
            final(self).wf(),
            match r {
                Some(t) => old(self)@.len() > 0 && chunk_bytes(t) == old(self)@[0] && final(self)@
                    == old(self)@.skip(1),
                None => old(self)@.len() == 0 && final(self)@ == old(self)@,
            },
    {
        match self.buffers.pop_front() {
            Some(t) => {
                let size: usize = chunk_remaining(&t);
                assert(self@ == old(self)@.skip(1));
                assert(flatten(old(self)@) == old(self)@[0] + flatten(old(self)@.skip(1)));
                self.remain = self.remain - size;
                assert forall|i: int| 0 <= i < self@.len() implies (#[trigger] self@[i]).len()
                    > 0 by {
                    assert(self@[i] == old(self)@[i + 1]);
                }
                Some(t)
            },
            None => None,
        }
    }

    /// How many bytes are not yet read.
    pub fn remaining(&self) -> (n: usize)
        requires
            self.wf(),
        ensures
            n == self.stream().len(),
    {
        self.remain
    }

    /// The bytes that can be read without crossing into another chunk: what
    /// the first chunk holds, or nothing where the buffer is empty.
    pub fn chunk(&self) -> (s: &[u8])
        requires
            self.wf(),
        ensures
            s@ == if self@.len() > 0 {
                self@[0]
            } else {
                Seq::<u8>::empty()
            },
            s@ == self.stream().take(s@.len() as int),
            self.stream().len() > 0 ==> s@.len() > 0,
    {
        if self.buffers.len() > 0 {
            let s: &[u8] = chunk_slice(&self.buffers[0]);
            assert(self.stream().take(s@.len() as int) == s@);
            s
        } else {
            let s: &[u8] = &[];
            assert(self.stream().take(0) == s@);
            s
        }
    }

    /// Reads `cnt` bytes and forgets them.
    pub fn advance(&mut self, cnt: usize)
        requires
            old(self).wf(),
            cnt <= old(self).stream().len(),
        ensures
            final(self).wf(),
            final(self)@ == drop_front(old(self)@, cnt as nat),
            final(self).stream() == old(self).stream().skip(cnt as int),
    {
        proof {
            lemma_drop_front(self@, cnt as nat);
        }
        let mut left: usize = cnt;
        while left > 0
            invariant
                self.wf(),
                left <= self.stream().len(),
                drop_front(self@, left as nat) == drop_front(old(self)@, cnt as nat),
            decreases left,
        {
            let ghost before = self@;
            assert(before.len() > 0);
            assert(flatten(before) == before[0] + flatten(before.skip(1)));
            match self.buffers.pop_front() {
                Some(mut head) => {
                    let size: usize = chunk_remaining(&head);
                    assert(self@ == before.skip(1));
                    assert forall|i: int| 0 <= i < self@.len() implies (#[trigger] self@[i]).len()
                        > 0 by {
                        assert(self@[i] == before[i + 1]);
                    }
                    if left >= size {
                        self.remain = self.remain - size;
                        left = left - size;
                    } else {
                        chunk_advance(&mut head, left);
                        let ghost rest = self@;
                        self.buffers.push_front(head);
                        self.remain = self.remain - left;
                        proof {
                            let now = seq![before[0].skip(left as int)] + rest;
                            assert(self@ == now);
                            assert(now[0] == before[0].skip(left as int));
                            assert(now.skip(1) == rest);
                            assert forall|i: int| 0 <= i < now.len() implies (#[trigger] now[i]).len()
                                > 0 by {
                                if i > 0 {
                                    assert(now[i] == before[i]);
                                }
                            }
                        }
                        left = 0;
                    }
                },
                None => {
                    left = 0;
                },
            }
        }
    }

    /// Whether `size` bytes can be read: the failure says that the buffer
    /// holds fewer.
    pub fn ensure_size(&self, size: usize) -> (r: Result<()>)
        requires
            self.wf(),
        ensures
            r is Ok <==> size <= self.stream().len(),
            r matches Err(e) ==> e@ == Failure::NotEnoughData,
    {
        if size <= self.remain {
            Ok(())
        } else {
            Err(Error::NotEnoughData)
        }
    }

    /// The `len` bytes that stand `pos` bytes into the stream, which stays
    /// as it is.
    pub fn copy_at(&self, pos: usize, len: usize) -> (out: Vec<u8>)
        requires
            self.wf(),
            pos + len <= self.stream().len(),
        ensures
            out@ == self.stream().subrange(pos as int, pos + len),
    {
        let mut out: Vec<u8> = Vec::new();
        let mut i: usize = 0;
        let mut offset: usize = pos;
        proof {
            lemma_prefix_len_all(self@);
        }
        while out.len() < len
            invariant
                self.wf(),
                pos + len <= self.stream().len(),
                i <= self@.len(),
                self@.len() == self.buffers@.len(),
                out@.len() <= len,
                prefix_len(self@, i as int) + offset == pos + out@.len(),
                out@ == self.stream().subrange(pos as int, pos + out@.len()),
            decreases (self@.len() - i) + (len - out@.len()),
        {
            proof {
                lemma_prefix_len_all(self@);
            }
            proof {
                lemma_prefix_len(self@, i as int);
            }
            let chunk: &bytes::Bytes = &self.buffers[i];
            let size: usize = chunk_remaining(chunk);
            if offset >= size {
                offset = offset - size;
                i = i + 1;
            } else {
                let bytes: &[u8] = chunk_slice(chunk);
                let b: u8 = bytes[offset];
                let ghost before = out@;
                out.push(b);
                proof {
                    assert(self@[i as int][offset as int] == b);
                    assert(out@ == before.push(self.stream()[pos + before.len()]));
                    assert(out@ == self.stream().subrange(pos as int, pos + out@.len()));
                }
                offset = offset + 1;
            }
        }
        out
    }

    /// The byte that stands `pos` bytes into the stream.
    pub fn byte_at(&self, pos: usize) -> (b: u8)
        requires
            self.wf(),
            pos < self.stream().len(),
        ensures
            b == self.stream()[pos as int],
    {
        let bytes: Vec<u8> = self.copy_at(pos, 1);
        bytes[0]
    }

    /// The variable-length integer that stands `pos` bytes into the stream,
    /// and the position behind it.  The stream stays as it is.
    pub fn varint_at(&self, pos: usize) -> (r: Result<(u64, usize)>)
        requires
            self.wf(),
            pos <= self.stream().len(),
        ensures
            match r {
                Ok(found) => pos < found.1 <= self.stream().len() && read_varint(
                    self.stream().skip(pos as int),
                ) == Ok::<(u64, nat), Failure>((found.0, (found.1 - pos) as nat)),
                Err(e) => read_varint(self.stream().skip(pos as int)) == Err::<(u64, nat), Failure>(
                    e@,
                ),
            },
    {
        let ghost s = self.stream().skip(pos as int);
        let avail: usize = self.remain - pos;
        let mut run: Vec<u8> = Vec::new();
        let mut k: usize = 0;
        assert(s.take(0) == run@);
        while k < 10 && k < avail
            invariant
                self.wf(),
                pos + avail == self.stream().len(),
                s == self.stream().skip(pos as int),
                k <= 10,
                k <= avail,
                run@ == s.take(k as int),
                forall|j: int| 0 <= j < k ==> s[j] >= 0x80,
                varint_end(s, 0) == varint_end(s, k as int),
            decreases 10 - k,
        {
            let b: u8 = self.byte_at(pos + k);
            assert(b == s[k as int]);
            run.push(b);
            assert(run@ == s.take(k + 1));
            k = k + 1;
            if b < 0x80 {
                proof {
                    lemma_varint_end(s, 0);
                }
                return match leb128_unsigned(run.as_slice()) {
                    Some(v) => Ok((v, pos + k)),
                    None => Err(Error::LEB128Error),
                };
            }
        }
        proof {
            lemma_varint_end(s, 0);
        }
        if avail >= 10 {
            Err(Error::LEB128Error)
        } else {
            Err(Error::NotEnoughData)
        }
    }

    /// The size that stands `pos` bytes into the stream, and the position
    /// behind it.  The stream stays as it is.
    pub fn size_at(&self, pos: usize) -> (r: Result<(usize, usize)>)
        requires
            self.wf(),
            pos <= self.stream().len(),
        ensures
            match r {
                Ok(found) => pos < found.1 <= self.stream().len() && read_size_at(
                    self.stream().skip(pos as int),
                ) == Ok::<(usize, nat), Failure>((found.0, (found.1 - pos) as nat)),
                Err(e) => read_size_at(self.stream().skip(pos as int)) == Err::<
                    (usize, nat),
                    Failure,
                >(e@),
            },
    {
        match self.varint_at(pos) {
            Ok((v, next)) => {
                if v > usize::MAX as u64 {
                    Err(Error::TryFromIntError)
                } else {
                    Ok((v as usize, next))
                }
            },
            Err(e) => Err(e),
        }
    }

    /// The `size` bytes that stand `pos` bytes into the stream, and the
    /// position behind them.  The stream stays as it is.
    pub fn bytes_at(&self, pos: usize, size: usize) -> (r: Result<(Vec<u8>, usize)>)
        requires
            self.wf(),
            pos <= self.stream().len(),
        ensures
            match r {
                Ok(found) => found.1 == pos + size && found.1 <= self.stream().len() && read_bytes(
                    self.stream().skip(pos as int),
                    size as nat,
                ) == Ok::<(Seq<u8>, nat), Failure>((found.0@, size as nat)),
                Err(e) => read_bytes(self.stream().skip(pos as int), size as nat) == Err::<
                    (Seq<u8>, nat),
                    Failure,
                >(e@),
            },
    {
        if size > self.remain - pos {
            return Err(Error::NotEnoughData);
        }
        let bytes: Vec<u8> = self.copy_at(pos, size);
        assert(bytes@ == self.stream().skip(pos as int).take(size as int));
        Ok((bytes, pos + size))
    }

    /// The string that stands `pos` bytes into the stream, and the position
    /// behind it.  The stream stays as it is.
    pub fn string_at(&self, pos: usize) -> (r: Result<(String, usize)>)
        requires
            self.wf(),
            pos <= self.stream().len(),
        ensures
            match r {
                Ok(found) => pos < found.1 <= self.stream().len() && read_string(
                    self.stream().skip(pos as int),
                ) == Ok::<(Seq<char>, nat), Failure>((found.0@, (found.1 - pos) as nat)),
                Err(e) => read_string(self.stream().skip(pos as int)) == Err::<
                    (Seq<char>, nat),
                    Failure,
                >(e@),
            },
    {
        let (size, start) = match self.size_at(pos) {
            Ok(found) => found,
            Err(e) => {
                return Err(e);
            },
        };
        assert(self.stream().skip(pos as int).skip(start - pos) == self.stream().skip(
            start as int,
        ));
        let (bytes, next) = match self.bytes_at(start, size) {
            Ok(found) => found,
            Err(e) => {
                return Err(e);
            },
        };
        match core::str::from_utf8(bytes.as_slice()) {
            Ok(text) => Ok((text.to_owned(), next)),
            Err(_) => Err(Error::Utf8Error),
        }
    }

    /// Reads a variable-length integer.  On a failure the buffer stays as
    /// it is.
    pub fn read_u64_leb128(&mut self) -> (r: Result<u64>)
        requires
            old(self).wf(),
        ensures
            final(self).wf(),
            match r {
                Ok(v) => exists|n: nat|
                    {
                        &&& read_varint(old(self).stream()) == Ok::<(u64, nat), Failure>((v, n))
                        &&& final(self)@ == drop_front(old(self)@, n)
                        &&& final(self).stream() == old(self).stream().skip(n as int)
                    },
                Err(e) => read_varint(old(self).stream()) == Err::<(u64, nat), Failure>(e@)
                    && *final(self) == *old(self),
            },
    {
        assert(self.stream().skip(0) == self.stream());
        match self.varint_at(0) {
            Ok((v, next)) => {
                self.advance(next);
                Ok(v)
            },
            Err(e) => Err(e),
        }
    }

    /// Reads a size.  On a failure the buffer stays as it is.
    pub fn read_size(&mut self) -> (r: Result<usize>)
        requires
            old(self).wf(),
        ensures
            final(self).wf(),
            match r {
                Ok(v) => exists|n: nat|
                    {
                        &&& read_size_at(old(self).stream()) == Ok::<(usize, nat), Failure>((v, n))
                        &&& final(self)@ == drop_front(old(self)@, n)
                        &&& final(self).stream() == old(self).stream().skip(n as int)
                    },
                Err(e) => read_size_at(old(self).stream()) == Err::<(usize, nat), Failure>(e@)
                    && *final(self) == *old(self),
            },
    {
        assert(self.stream().skip(0) == self.stream());
        match self.size_at(0) {
            Ok((v, next)) => {
                self.advance(next);
                Ok(v)
            },
            Err(e) => Err(e),
        }
    }

    /// Reads `size` bytes.  On a failure, which says that the buffer holds
    /// fewer, the buffer stays as it is.
    pub fn read_vec(&mut self, size: usize) -> (r: Result<Vec<u8>>)
        requires
            old(self).wf(),
        ensures
            final(self).wf(),
            match r {
                Ok(bytes) => {
                    &&& size <= old(self).stream().len()
                    &&& bytes@ == old(self).stream().take(size as int)
                    &&& final(self)@ == drop_front(old(self)@, size as nat)
                    &&& final(self).stream() == old(self).stream().skip(size as int)
                },
                Err(e) => size > old(self).stream().len() && e@ == Failure::NotEnoughData
                    && *final(self) == *old(self),
            },
    {
        assert(self.stream().skip(0) == self.stream());
        match self.bytes_at(0, size) {
            Ok((bytes, next)) => {
                self.advance(next);
                Ok(bytes)
            },
            Err(e) => Err(e),
        }
    }

    /// Reads a string: its size, and then as many bytes, which must be
    /// UTF-8.  On a failure the buffer stays as it is.
    pub fn read_utf8_string(&mut self) -> (r: Result<String>)
        requires
            old(self).wf(),
        ensures
            final(self).wf(),
            match r {
                Ok(text) => exists|n: nat|
                    {
                        &&& read_string(old(self).stream()) == Ok::<(Seq<char>, nat), Failure>(
                            (text@, n),
                        )
                        &&& final(self)@ == drop_front(old(self)@, n)
                        &&& final(self).stream() == old(self).stream().skip(n as int)
                    },
                Err(e) => read_string(old(self).stream()) == Err::<(Seq<char>, nat), Failure>(e@)
                    && *final(self) == *old(self),
            },
    {
        assert(self.stream().skip(0) == self.stream());
        match self.string_at(0) {
            Ok((text, next)) => {
                self.advance(next);
                Ok(text)
            },
            Err(e) => Err(e),
        }
    }

    /// The number that the `width` bytes denote that stand `pos` bytes into
    /// the stream, the least significant byte first.  The stream stays as it
    /// is.
    pub fn uint_at(&self, pos: usize, width: usize) -> (v: u128)
        requires
            self.wf(),
            width <= 16,
            pos + width <= self.stream().len(),
        ensures
            v == le_value(self.stream().subrange(pos as int, pos + width)),
            v < pow256(width as nat),
    {
        let bytes: Vec<u8> = self.copy_at(pos, width);
        uint_of(bytes.as_slice())
    }

    /// The number that the `width` bytes denote in two's complement that
    /// stand `pos` bytes into the stream, the least significant byte first.
    /// The stream stays as it is.
    pub fn int_at(&self, pos: usize, width: usize) -> (v: i128)
        requires
            self.wf(),
            1 <= width <= 16,
            pos + width <= self.stream().len(),
        ensures
            v == le_signed_value(self.stream().subrange(pos as int, pos + width)),
            -pow256(width as nat) <= 2 * v < pow256(width as nat),
    {
        let bytes: Vec<u8> = self.copy_at(pos, width);
        int_of(bytes.as_slice())
    }

    /// Reads the number that the next `width` bytes denote, the least
    /// significant byte first.
    fn take_uint(&mut self, width: usize) -> (v: u128)
        requires
            old(self).wf(),
            width <= 16,
            width <= old(self).stream().len(),
        ensures
            final(self).wf(),
            v == le_value(old(self).stream().take(width as int)),
            v < pow256(width as nat),
            final(self)@ == drop_front(old(self)@, width as nat),
            final(self).stream() == old(self).stream().skip(width as int),
    {
        let v: u128 = self.uint_at(0, width);
        self.advance(width);
        v
    }

    /// Reads the number that the next `width` bytes denote in two's
    /// complement, the least significant byte first.
    fn take_int(&mut self, width: usize) -> (v: i128)
        requires
            old(self).wf(),
            1 <= width <= 16,
            width <= old(self).stream().len(),
        ensures
            final(self).wf(),
            v == le_signed_value(old(self).stream().take(width as int)),
            -pow256(width as nat) <= 2 * v < pow256(width as nat),
            final(self)@ == drop_front(old(self)@, width as nat),
            final(self).stream() == old(self).stream().skip(width as int),
    {
        let v: i128 = self.int_at(0, width);
        self.advance(width);
        v
    }

    /// Reads one byte.
    pub fn get_u8(&mut self) -> (v: u8)
        requires
            old(self).wf(),
            1 <= old(self).stream().len(),
        ensures
            final(self).wf(),
            v == old(self).stream()[0],
            v == le_value(old(self).stream().take(1)),
            final(self)@ == drop_front(old(self)@, 1),
            final(self).stream() == old(self).stream().skip(1),
    {
        proof {
            lemma_pow256_values();
            let first = self.stream().take(1);
            assert(first.skip(1) == Seq::<u8>::empty());
            assert(le_value(first.skip(1)) == 0);
        }
        self.take_uint(1) as u8
    }

    /// Reads one byte as a number in two's complement.
    pub fn get_i8(&mut self) -> (v: i8)
        requires
            old(self).wf(),
            1 <= old(self).stream().len(),
        ensures
            final(self).wf(),
            v == le_signed_value(old(self).stream().take(1)),
            final(self)@ == drop_front(old(self)@, 1),
            final(self).stream() == old(self).stream().skip(1),
    {
        proof {
            lemma_pow256_values();
        }
        self.take_int(1) as i8
    }

    /// Reads two bytes as a number, the least significant byte first.
    pub fn get_u16_le(&mut self) -> (v: u16)
        requires
            old(self).wf(),
            2 <= old(self).stream().len(),
        ensures
            final(self).wf(),
            v == le_value(old(self).stream().take(2)),
            final(self)@ == drop_front(old(self)@, 2),
            final(self).stream() == old(self).stream().skip(2),
    {
        proof {
            lemma_pow256_values();
        }
        self.take_uint(2) as u16
    }

    /// Reads two bytes as a number in two's complement, the least
    /// significant byte first.
    pub fn get_i16_le(&mut self) -> (v: i16)
        requires
            old(self).wf(),
            2 <= old(self).stream().len(),
        ensures
            final(self).wf(),
            v == le_signed_value(old(self).stream().take(2)),
            final(self)@ == drop_front(old(self)@, 2),
            final(self).stream() == old(self).stream().skip(2),
    {
        proof {
            lemma_pow256_values();
        }
        self.take_int(2) as i16
    }

    /// Reads four bytes as a number, the least significant byte first.
    pub fn get_u32_le(&mut self) -> (v: u32)
        requires
            old(self).wf(),
            4 <= old(self).stream().len(),
        ensures
            final(self).wf(),
            v == le_value(old(self).stream().take(4)),
            final(self)@ == drop_front(old(self)@, 4),
            final(self).stream() == old(self).stream().skip(4),
    {
        proof {
            lemma_pow256_values();
        }
        self.take_uint(4) as u32
    }

    /// Reads four bytes as a number in two's complement, the least
    /// significant byte first.
    pub fn get_i32_le(&mut self) -> (v: i32)
        requires
            old(self).wf(),
            4 <= old(self).stream().len(),
        ensures
            final(self).wf(),
            v == le_signed_value(old(self).stream().take(4)),
            final(self)@ == drop_front(old(self)@, 4),
            final(self).stream() == old(self).stream().skip(4),
    {
        proof {
            lemma_pow256_values();
        }
        self.take_int(4) as i32
    }

    /// Reads eight bytes as a number, the least significant byte first.
    pub fn get_u64_le(&mut self) -> (v: u64)
        requires
            old(self).wf(),
            8 <= old(self).stream().len(),
        ensures
            final(self).wf(),
            v == le_value(old(self).stream().take(8)),
            final(self)@ == drop_front(old(self)@, 8),
            final(self).stream() == old(self).stream().skip(8),
    {
        proof {
            lemma_pow256_values();
        }
        self.take_uint(8) as u64
    }

    /// Reads eight bytes as a number in two's complement, the least
    /// significant byte first.
    pub fn get_i64_le(&mut self) -> (v: i64)
        requires
            old(self).wf(),
            8 <= old(self).stream().len(),
        ensures
            final(self).wf(),
            v == le_signed_value(old(self).stream().take(8)),
            final(self)@ == drop_front(old(self)@, 8),
            final(self).stream() == old(self).stream().skip(8),
    {
        proof {
            lemma_pow256_values();
        }
        self.take_int(8) as i64
    }

    /// Reads sixteen bytes as a number, the least significant byte first.
    pub fn get_u128_le(&mut self) -> (v: u128)
        requires
            old(self).wf(),
            16 <= old(self).stream().len(),
        ensures
            final(self).wf(),
            v == le_value(old(self).stream().take(16)),
            final(self)@ == drop_front(old(self)@, 16),
            final(self).stream() == old(self).stream().skip(16),
    {
        self.take_uint(16)
    }

    /// Reads sixteen bytes as a number in two's complement, the least
    /// significant byte first.
    pub fn get_i128_le(&mut self) -> (v: i128)
        requires
            old(self).wf(),
            16 <= old(self).stream().len(),
        ensures
            final(self).wf(),
            v == le_signed_value(old(self).stream().take(16)),
            final(self)@ == drop_front(old(self)@, 16),
            final(self).stream() == old(self).stream().skip(16),
    {
        self.take_int(16)
    }
}

} // verus!
