//! The byte layout of a range response.
//!
//! A buffer is a header of three little-endian 32-bit words (the start of
//! the queried interval, the stride, and the number of values) followed by
//! one little-endian 32-bit word per value. A value is the bit pattern of an
//! IEEE-754 single-precision number; this module moves the patterns and
//! never interprets them.
use vstd::prelude::*;

verus! {

/// The number of bytes in the header of a buffer.
pub const HEADER_LEN: usize = 12;

/// The four bytes of `x`, least significant first: its digits in base 256.
///
/// The body is hidden from the solver by default; a proof that needs the
/// digits of a given word asks for it with `reveal(le_bytes)`.
#[verifier::opaque]
pub open spec fn le_bytes(x: u32) -> Seq<u8> {
    seq![
        (x % 256) as u8,
        (x / 256 % 256) as u8,
        (x / 65536 % 256) as u8,
        (x / 16777216) as u8,
    ]
}

/// The word whose bytes, least significant first, are the four at `at` in
/// `bytes`. Hidden by default as [`le_bytes`] is.
#[verifier::opaque]
pub open spec fn le_word(bytes: Seq<u8>, at: int) -> u32 {
    (bytes[at] + 256 * bytes[at + 1] + 65536 * bytes[at + 2] + 16777216 * bytes[at + 3]) as u32
}

/// The bytes of `values`, four per value, in order.
pub open spec fn payload(values: Seq<u32>) -> Seq<u8> {
    Seq::new(4 * values.len(), |i: int| le_bytes(values[i / 4])[i % 4])
}

/// The buffer that carries `values` for a query that began at `start` and
/// was cut with stride `step`.
pub open spec fn encode_spec(start: u32, step: u32, values: Seq<u32>) -> Seq<u8> {
    le_bytes(start) + le_bytes(step) + le_bytes(values.len() as u32) + payload(values)
}

/// What a buffer holds.
#[derive(PartialEq, Eq, Debug)]
pub struct Frame {
    pub start: u32,
    pub step: u32,
    pub values: Vec<u32>,
}

/// What a [`Frame`] stands for in contracts.
pub struct FrameView {
    pub start: u32,
    pub step: u32,
    pub values: Seq<u32>,
}

impl View for Frame {
    type V = FrameView;

    open spec fn view(&self) -> FrameView {
        FrameView { start: self.start, step: self.step, values: self.values@ }
    }
}

/// Whether `bytes` is a whole buffer: a header, and then exactly as many
/// values as the header's third word counts.
pub open spec fn well_framed(bytes: Seq<u8>) -> bool {
    bytes.len() >= HEADER_LEN && bytes.len() == HEADER_LEN + 4 * le_word(bytes, 8)
}

/// The frame that a buffer holds, if it is a whole buffer.
pub open spec fn decode_spec(bytes: Seq<u8>) -> Option<FrameView> {
    if well_framed(bytes) {
        Some(
            FrameView {
                start: le_word(bytes, 0),
                step: le_word(bytes, 4),
                values: Seq::new(
                    le_word(bytes, 8) as nat,
                    |i: int| le_word(bytes, HEADER_LEN + 4 * i),
                ),
            },
        )
    } else {
        None
    }
}

/// The view of a frame that may be absent.
pub open spec fn frame_view(frame: Option<Frame>) -> Option<FrameView> {
    match frame {
        Some(f) => Some(f@),
        None => None,
    }
}

/// Appends the four bytes of `x`, least significant first.
fn push_word(buf: &mut Vec<u8>, x: u32)
    ensures
        final(buf)@ == old(buf)@ + le_bytes(x),
{
    buf.push((x % 256) as u8);
    buf.push((x / 256 % 256) as u8);
    buf.push((x / 65536 % 256) as u8);
    buf.push((x / 16777216) as u8);
    proof {
        reveal(le_bytes);
        assert(buf@ =~= old(buf)@ + le_bytes(x));
    }
}

/// Reads the word whose four bytes start at `at`.
fn read_word(bytes: &[u8], at: usize) -> (x: u32)
    requires
        at + 4 <= bytes.len(),
    ensures
        x == le_word(bytes@, at as int),
{
    let b0: u32 = bytes[at] as u32;
    let b1: u32 = bytes[at + 1] as u32;
    let b2: u32 = bytes[at + 2] as u32;
    let b3: u32 = bytes[at + 3] as u32;
    proof {
        reveal(le_word);
    }
    b0 + 256 * b1 + 65536 * b2 + 16777216 * b3
}

/// Lays out a range response: `start`, `step` and the number of values as
/// little-endian words, then each value as a little-endian word, in order.
///
/// The count is a 32-bit field, so there may be no more than `u32::MAX`
/// values.
pub fn encode(start: u32, step: u32, values: &[u32]) -> (buf: Vec<u8>)
    requires
        values.len() <= u32::MAX,
    ensures
        buf@ == encode_spec(start, step, values@),
        buf@.len() == HEADER_LEN + 4 * values.len(),
{
    let mut buf: Vec<u8> = Vec::new();
    push_word(&mut buf, start);
    push_word(&mut buf, step);
    push_word(&mut buf, values.len() as u32);
    let ghost header = buf@;
    proof {
        lemma_encoded_len(start, step, values@);
        assert(payload(values@.take(0)) =~= Seq::<u8>::empty());
    }
    let mut i: usize = 0;
    while i < values.len()
        invariant
            i <= values.len(),
            header == le_bytes(start) + le_bytes(step) + le_bytes(values.len() as u32),
            buf@ == header + payload(values@.take(i as int)),
        decreases values.len() - i,
    {
        push_word(&mut buf, values[i]);
        proof {
            lemma_four_bytes(values[i as int]);
        }
        assert(payload(values@.take(i + 1)) =~= payload(values@.take(i as int)) + le_bytes(
            values[i as int],
        ));
        i = i + 1;
    }
    assert(values@.take(i as int) =~= values@);
    buf
}

/// Reads a range response back. The result is `None` exactly when `bytes`
/// is not a whole buffer: shorter than a header, or not of the length that
/// its count announces.
pub fn decode(bytes: &[u8]) -> (frame: Option<Frame>)
    ensures
        frame_view(frame) == decode_spec(bytes@),
{
    if bytes.len() < HEADER_LEN {
        return None;
    }
    let start = read_word(bytes, 0);
    let step = read_word(bytes, 4);
    let count = read_word(bytes, 8);
    if bytes.len() as u64 != HEADER_LEN as u64 + 4 * (count as u64) {
        return None;
    }
    let mut values: Vec<u32> = Vec::new();
    let mut i: usize = 0;
    while i < count as usize
        invariant
            bytes.len() == HEADER_LEN + 4 * count,
            i <= count,
            values.len() == i,
            forall|k: int| 0 <= k < i ==> values[k] == le_word(bytes@, HEADER_LEN + 4 * k),
        decreases count - i,
    {
        let x = read_word(bytes, HEADER_LEN + 4 * i);
        values.push(x);
        i = i + 1;
    }
    assert(values@ =~= decode_spec(bytes@).unwrap().values);
    Some(Frame { start, step, values })
}

/// A word always has four bytes.
proof fn lemma_four_bytes(x: u32)
    ensures
        le_bytes(x).len() == 4,
{
    reveal(le_bytes);
}

/// Four bytes are the base-256 digits of the number they add up to.
proof fn lemma_digits_of_sum(b0: int, b1: int, b2: int, b3: int)
    requires
        0 <= b0 < 256,
        0 <= b1 < 256,
        0 <= b2 < 256,
        0 <= b3 < 256,
    ensures
        ({
            let w = b0 + 256 * b1 + 65536 * b2 + 16777216 * b3;
            &&& 0 <= w <= u32::MAX
            &&& w % 256 == b0
            &&& w / 256 % 256 == b1
            &&& w / 65536 % 256 == b2
            &&& w / 16777216 == b3
        }),
{
    let w = b0 + 256 * b1 + 65536 * b2 + 16777216 * b3;
    let w1 = b1 + 256 * b2 + 65536 * b3;
    let w2 = b2 + 256 * b3;
    assert(w == 256 * w1 + b0);
    assert(w / 256 == w1 && w % 256 == b0);
    assert(w1 == 256 * w2 + b1);
    assert(w1 % 256 == b1);
    assert(w == 65536 * w2 + (b0 + 256 * b1));
    assert(w / 65536 == w2);
    assert(w2 % 256 == b2);
    assert(w == 16777216 * b3 + (b0 + 256 * b1 + 65536 * b2));
    assert(w / 16777216 == b3);
}

/// A 32-bit number is the sum of its four base-256 digits.
proof fn lemma_sum_of_digits(x: int)
    requires
        0 <= x <= u32::MAX,
    ensures
        x == x % 256 + 256 * (x / 256 % 256) + 65536 * (x / 65536 % 256) + 16777216 * (x
            / 16777216),
        0 <= x / 16777216 < 256,
{
    let q1 = x / 256;
    let q2 = q1 / 256;
    let q3 = q2 / 256;
    assert(x == 256 * q1 + x % 256);
    assert(q1 == 256 * q2 + q1 % 256);
    assert(q2 == 256 * q3 + q2 % 256);
    assert(x == 65536 * q2 + (x % 256 + 256 * (q1 % 256)));
    assert(x / 65536 == q2);
    assert(x == 16777216 * q3 + (x % 256 + 256 * (q1 % 256) + 65536 * (q2 % 256)));
    assert(x / 16777216 == q3);
}

/// The word read at `at` is `x` where the four bytes there are those of `x`.
proof fn lemma_word_at(bytes: Seq<u8>, at: int, x: u32)
    requires
        bytes[at] == le_bytes(x)[0],
        bytes[at + 1] == le_bytes(x)[1],
        bytes[at + 2] == le_bytes(x)[2],
        bytes[at + 3] == le_bytes(x)[3],
    ensures
        le_word(bytes, at) == x,
{
    reveal(le_bytes);
    reveal(le_word);
    lemma_sum_of_digits(x as int);
}

/// The bytes of the word read at `at` are the four bytes there.
proof fn lemma_bytes_at(bytes: Seq<u8>, at: int)
    ensures
        le_bytes(le_word(bytes, at))[0] == bytes[at],
        le_bytes(le_word(bytes, at))[1] == bytes[at + 1],
        le_bytes(le_word(bytes, at))[2] == bytes[at + 2],
        le_bytes(le_word(bytes, at))[3] == bytes[at + 3],
{
    reveal(le_bytes);
    reveal(le_word);
    lemma_digits_of_sum(
        bytes[at] as int,
        bytes[at + 1] as int,
        bytes[at + 2] as int,
        bytes[at + 3] as int,
    );
}

/// A word is recovered from its four bytes.
pub proof fn lemma_word_of_its_bytes(x: u32)
    ensures
        le_bytes(x).len() == 4,
        le_word(le_bytes(x), 0) == x,
{
    lemma_four_bytes(x);
    lemma_word_at(le_bytes(x), 0, x);
}

/// Four bytes are recovered from the word that they spell: no two words
/// have the same bytes, and no two runs of four bytes the same word.
pub proof fn lemma_bytes_of_their_word(bytes: Seq<u8>)
    requires
        bytes.len() == 4,
    ensures
        le_bytes(le_word(bytes, 0)) == bytes,
{
    lemma_four_bytes(le_word(bytes, 0));
    lemma_bytes_at(bytes, 0);
    assert(le_bytes(le_word(bytes, 0)) =~= bytes);
}

/// A buffer is twelve bytes longer than four times its number of values.
pub proof fn lemma_encoded_len(start: u32, step: u32, values: Seq<u32>)
    ensures
        encode_spec(start, step, values).len() == HEADER_LEN + 4 * values.len(),
{
    lemma_four_bytes(start);
    lemma_four_bytes(step);
    lemma_four_bytes(values.len() as u32);
}

/// Where each byte of a buffer comes from: the header's three words, then
/// byte `j` of value `k` at offset `HEADER_LEN + 4 * k + j`.
proof fn lemma_encoded_bytes(start: u32, step: u32, values: Seq<u32>, j: int)
    requires
        0 <= j < 4,
    ensures
        encode_spec(start, step, values)[j] == le_bytes(start)[j],
        encode_spec(start, step, values)[4 + j] == le_bytes(step)[j],
        encode_spec(start, step, values)[8 + j] == le_bytes(values.len() as u32)[j],
        forall|k: int|
            0 <= k < values.len() ==> encode_spec(start, step, values)[HEADER_LEN + 4 * k + j]
                == (#[trigger] le_bytes(values[k]))[j],
{
    let bytes = encode_spec(start, step, values);
    lemma_four_bytes(start);
    lemma_four_bytes(step);
    lemma_four_bytes(values.len() as u32);
    assert forall|k: int| 0 <= k < values.len() implies bytes[HEADER_LEN + 4 * k + j] == (
    #[trigger] le_bytes(values[k]))[j] by {
        assert(bytes[HEADER_LEN + 4 * k + j] == payload(values)[4 * k + j]);
        assert((4 * k + j) / 4 == k && (4 * k + j) % 4 == j);
    }
}

/// The three words of a buffer's header are the start, the stride and the
/// count.
proof fn lemma_encoded_header(start: u32, step: u32, values: Seq<u32>)
    ensures
        le_word(encode_spec(start, step, values), 0) == start,
        le_word(encode_spec(start, step, values), 4) == step,
        le_word(encode_spec(start, step, values), 8) == values.len() as u32,
{
    let bytes = encode_spec(start, step, values);
    lemma_encoded_bytes(start, step, values, 0);
    lemma_encoded_bytes(start, step, values, 1);
    lemma_encoded_bytes(start, step, values, 2);
    lemma_encoded_bytes(start, step, values, 3);
    lemma_word_at(bytes, 0, start);
    lemma_word_at(bytes, 4, step);
    lemma_word_at(bytes, 8, values.len() as u32);
}

/// The word read back at index `k` of a buffer's values is the value laid
/// out there.
proof fn lemma_encoded_value(start: u32, step: u32, values: Seq<u32>, k: int)
    requires
        0 <= k < values.len(),
    ensures
        le_word(encode_spec(start, step, values), HEADER_LEN + 4 * k) == values[k],
{
    let bytes = encode_spec(start, step, values);
    let at = HEADER_LEN + 4 * k;
    let x = values[k];
    assert(bytes[at] == le_bytes(x)[0]) by {
        lemma_encoded_bytes(start, step, values, 0);
    }
    assert(bytes[at + 1] == le_bytes(x)[1]) by {
        lemma_encoded_bytes(start, step, values, 1);
    }
    assert(bytes[at + 2] == le_bytes(x)[2]) by {
        lemma_encoded_bytes(start, step, values, 2);
    }
    assert(bytes[at + 3] == le_bytes(x)[3]) by {
        lemma_encoded_bytes(start, step, values, 3);
    }
    lemma_word_at(bytes, at, x);
}

/// Decoding a buffer recovers the start, the stride, the count and every
/// value, in order.
pub proof fn lemma_decode_inverts_encode(start: u32, step: u32, values: Seq<u32>)
    requires
        values.len() <= u32::MAX,
    ensures
        decode_spec(encode_spec(start, step, values)) == Some(FrameView { start, step, values }),
        le_word(encode_spec(start, step, values), 8) == values.len(),
{
    let bytes = encode_spec(start, step, values);
    lemma_encoded_len(start, step, values);
    lemma_encoded_header(start, step, values);
    let decoded = decode_spec(bytes).unwrap().values;
    assert(decoded.len() == values.len());
    assert forall|k: int| 0 <= k < values.len() implies decoded[k] == values[k] by {
        lemma_encoded_value(start, step, values, k);
    }
    assert(decoded =~= values);
}

/// Byte `i` of the buffer that is encoded from what `bytes` holds is byte
/// `i` of `bytes`.
proof fn lemma_reencoded_byte(bytes: Seq<u8>, i: int)
    requires
        well_framed(bytes),
        0 <= i < bytes.len(),
    ensures
        ({
            let frame = decode_spec(bytes).unwrap();
            encode_spec(frame.start, frame.step, frame.values)[i] == bytes[i]
        }),
{
    let frame = decode_spec(bytes).unwrap();
    let j = i % 4;
    let at = i - j;
    assert(frame.values.len() as u32 == le_word(bytes, 8));
    let word = if i < 4 {
        frame.start
    } else if i < 8 {
        frame.step
    } else if i < HEADER_LEN {
        frame.values.len() as u32
    } else {
        frame.values[(i - HEADER_LEN) / 4]
    };
    assert(word == le_word(bytes, at));
    assert(le_bytes(word)[j] == bytes[at + j]) by {
        lemma_bytes_at(bytes, at);
    }
    assert(encode_spec(frame.start, frame.step, frame.values)[i] == le_bytes(word)[j]) by {
        lemma_encoded_bytes(frame.start, frame.step, frame.values, j);
        if i >= HEADER_LEN {
            let k = (i - HEADER_LEN) / 4;
            assert(i == HEADER_LEN + 4 * k + j);
        }
    }
}

/// Encoding what a whole buffer holds gives the buffer back: no two
/// buffers hold the same frame.
pub proof fn lemma_encode_inverts_decode(bytes: Seq<u8>)
    requires
        well_framed(bytes),
    ensures
        ({
            let frame = decode_spec(bytes).unwrap();
            encode_spec(frame.start, frame.step, frame.values) == bytes
        }),
{
    let frame = decode_spec(bytes).unwrap();
    let again = encode_spec(frame.start, frame.step, frame.values);
    lemma_encoded_len(frame.start, frame.step, frame.values);
    assert forall|i: int| 0 <= i < bytes.len() implies again[i] == bytes[i] by {
        lemma_reencoded_byte(bytes, i);
    }
    assert(again =~= bytes);
}

/// A response without values is its header alone, with a count of zero.
pub proof fn lemma_empty_response_is_header(start: u32, step: u32)
    ensures
        encode_spec(start, step, Seq::empty()) == le_bytes(start) + le_bytes(step) + seq![
            0u8,
            0u8,
            0u8,
            0u8,
        ],
        encode_spec(start, step, Seq::empty()).len() == HEADER_LEN,
{
    reveal(le_bytes);
    assert(encode_spec(start, step, Seq::empty()) =~= le_bytes(start) + le_bytes(step) + seq![
        0u8,
        0u8,
        0u8,
        0u8,
    ]);
}

} // verus!
