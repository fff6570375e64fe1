//! 32-bit words and their little-endian byte image.
//!
//! Transfer buffers are plain bytes; the accelerator reads them as a
//! sequence of 32-bit words, least significant byte first.

use vstd::prelude::*;

verus! {

/// Number of bytes one word occupies in a transfer buffer.
pub const WORD_BYTES: usize = 4;

/// Byte `k` (0 = least significant) of `w`.
pub open spec fn word_byte(w: u32, k: int) -> u8 {
    if k == 0 {
        (w % 256) as u8
    } else if k == 1 {
        (w / 256 % 256) as u8
    } else if k == 2 {
        (w / 65536 % 256) as u8
    } else {
        (w / 16777216) as u8
    }
}

/// The word whose bytes, least significant first, are `b0`, `b1`, `b2`, `b3`.
pub open spec fn word_of(b0: u8, b1: u8, b2: u8, b3: u8) -> u32 {
    (b0 as int + 256 * (b1 as int) + 65536 * (b2 as int) + 16777216 * (b3 as int)) as u32
}

/// The byte image of a sequence of words: word `i` occupies bytes
/// `4 * i .. 4 * i + 4`.
pub open spec fn encode_words(words: Seq<u32>) -> Seq<u8> {
    Seq::new((4 * words.len()) as nat, |k: int| word_byte(words[k / 4], k % 4))
}

/// The words held by a byte buffer. Bytes beyond the last complete word
/// are ignored.
pub open spec fn decode_words(bytes: Seq<u8>) -> Seq<u32> {
    Seq::new(
        (bytes.len() / 4) as nat,
        |i: int| word_of(bytes[4 * i], bytes[4 * i + 1], bytes[4 * i + 2], bytes[4 * i + 3]),
    )
}

/// Splitting a word into bytes and joining them again gives the word back.
pub proof fn lemma_word_round_trip(w: u32)
    ensures
        word_of(word_byte(w, 0), word_byte(w, 1), word_byte(w, 2), word_byte(w, 3)) == w,
{
}

/// Joining four bytes into a word and splitting it again gives the bytes back.
pub proof fn lemma_byte_round_trip(b0: u8, b1: u8, b2: u8, b3: u8)
    ensures
        word_byte(word_of(b0, b1, b2, b3), 0) == b0,
        word_byte(word_of(b0, b1, b2, b3), 1) == b1,
        word_byte(word_of(b0, b1, b2, b3), 2) == b2,
        word_byte(word_of(b0, b1, b2, b3), 3) == b3,
{
    let n: int = b0 as int + 256 * (b1 as int) + 65536 * (b2 as int) + 16777216 * (b3 as int);
    let low2: int = b0 as int + 256 * (b1 as int);
    let low3: int = low2 + 65536 * (b2 as int);
    let high3: int = b1 as int + 256 * (b2 as int) + 65536 * (b3 as int);
    let high2: int = b2 as int + 256 * (b3 as int);
    assert(n == 256 * high3 + b0 as int);
    assert(n / 256 == high3 && n % 256 == b0 as int);
    assert(n == 65536 * high2 + low2 && 0 <= low2 < 65536);
    assert(n / 65536 == high2);
    assert(high2 % 256 == b2 as int);
    assert(n == 16777216 * (b3 as int) + low3 && 0 <= low3 < 16777216);
    assert(n / 16777216 == b3 as int);
}

/// Decoding the byte image of a word sequence gives the sequence back.
pub proof fn lemma_decode_encode(words: Seq<u32>)
    ensures
        decode_words(encode_words(words)) == words,
{
    let bytes = encode_words(words);
    assert(bytes.len() / 4 == words.len());
    assert forall|i: int| 0 <= i < words.len() implies decode_words(bytes)[i] == words[i] by {
        lemma_word_round_trip(words[i]);
        assert((4 * i) / 4 == i && (4 * i) % 4 == 0);
        assert((4 * i + 1) / 4 == i && (4 * i + 1) % 4 == 1);
        assert((4 * i + 2) / 4 == i && (4 * i + 2) % 4 == 2);
        assert((4 * i + 3) / 4 == i && (4 * i + 3) % 4 == 3);
    }
    assert(decode_words(bytes) =~= words);
}

/// Encoding the words of a buffer made of complete words gives the buffer back.
pub proof fn lemma_encode_decode(bytes: Seq<u8>)
    requires
        bytes.len() % 4 == 0,
    ensures
        encode_words(decode_words(bytes)) == bytes,
{
    let words = decode_words(bytes);
    assert(4 * words.len() == bytes.len());
    assert forall|k: int| 0 <= k < bytes.len() implies encode_words(words)[k] == bytes[k] by {
        let i = k / 4;
        lemma_byte_round_trip(bytes[4 * i], bytes[4 * i + 1], bytes[4 * i + 2], bytes[4 * i + 3]);
    }
    assert(encode_words(words) =~= bytes);
}

/// The byte image of a concatenation is the concatenation of the byte images.
pub proof fn lemma_encode_concat(a: Seq<u32>, b: Seq<u32>)
    ensures
        encode_words(a + b) == encode_words(a) + encode_words(b),
{
    let left = encode_words(a + b);
    let right = encode_words(a) + encode_words(b);
    assert(left.len() == right.len());
    assert forall|k: int| 0 <= k < left.len() implies left[k] == right[k] by {
        if k < 4 * a.len() {
            assert(k / 4 < a.len());
        } else {
            assert(k / 4 >= a.len());
            assert((k - 4 * a.len()) / 4 == k / 4 - a.len());
            assert((k - 4 * a.len()) % 4 == k % 4);
        }
    }
    assert(left =~= right);
}

/// Appends the four bytes of `w`, least significant first, to `out`.
pub fn push_word(out: &mut Vec<u8>, w: u32)
    ensures
        final(out)@ == old(out)@ + seq![
            word_byte(w, 0),
            word_byte(w, 1),
            word_byte(w, 2),
            word_byte(w, 3),
        ],
{
    out.push((w % 256) as u8);
    out.push((w / 256 % 256) as u8);
    out.push((w / 65536 % 256) as u8);
    out.push((w / 16777216) as u8);
}

/// Reads the word that starts at byte `offset` of `bytes`.
pub fn word_at(bytes: &[u8], offset: usize) -> (w: u32)
    requires
        offset + 4 <= bytes@.len(),
    ensures
        w == word_of(
            bytes@[offset as int],
            bytes@[offset + 1],
            bytes@[offset + 2],
            bytes@[offset + 3],
        ),
{
    let b0: u32 = bytes[offset] as u32;
    let b1: u32 = bytes[offset + 1] as u32;
    let b2: u32 = bytes[offset + 2] as u32;
    let b3: u32 = bytes[offset + 3] as u32;
    b0 + 256 * b1 + 65536 * b2 + 16777216 * b3
}

/// Serialises `words` into a fresh byte buffer.
pub fn encode(words: &[u32]) -> (bytes: Vec<u8>)
    ensures
        bytes@ == encode_words(words@),
{
    let mut bytes: Vec<u8> = Vec::new();
    let mut i: usize = 0;
    while i < words.len()
        invariant
            i <= words@.len(),
            bytes@ == encode_words(words@.subrange(0, i as int)),
        decreases words@.len() - i,
    {
        let ghost before = bytes@;
        push_word(&mut bytes, words[i]);
        proof {
            let done = words@.subrange(0, i as int);
            let next = words@.subrange(0, i + 1);
            assert(next =~= done + seq![words@[i as int]]);
            lemma_encode_concat(done, seq![words@[i as int]]);
            assert(encode_words(seq![words@[i as int]]) =~= seq![
                word_byte(words@[i as int], 0),
                word_byte(words@[i as int], 1),
                word_byte(words@[i as int], 2),
                word_byte(words@[i as int], 3),
            ]);
        }
        i += 1;
    }
    assert(words@.subrange(0, i as int) =~= words@);
    bytes
}

/// Reads back the words of `bytes`; a trailing partial word is dropped.
pub fn decode(bytes: &[u8]) -> (words: Vec<u32>)
    ensures
        words@ == decode_words(bytes@),
{
    let count: usize = bytes.len() / 4;
    let mut words: Vec<u32> = Vec::new();
    let mut i: usize = 0;
    while i < count
        invariant
            count == bytes@.len() / 4,
            bytes@.len() <= usize::MAX,
            i <= count,
            words@.len() == i,
            forall|j: int| 0 <= j < i ==> words@[j] == #[trigger] decode_words(bytes@)[j],
        decreases count - i,
    {
        let w: u32 = word_at(bytes, 4 * i);
        words.push(w);
        i += 1;
    }
    assert(words@ =~= decode_words(bytes@));
    words
}

} // verus!
