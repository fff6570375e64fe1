//! Transfer-ready sample buffers.
//!
//! Raw sample values are replicated cyclically up to the size of the largest
//! run and serialised once; each run then sends a prefix of these buffers.

use vstd::prelude::*;
use vstd::arithmetic::div_mod::{lemma_fundamental_div_mod_converse_mod, lemma_small_mod};
use crate::error::Error;
use crate::words::{
    decode_words, encode_words, lemma_decode_encode, lemma_encode_concat, push_word, word_byte,
    WORD_BYTES,
};

verus! {

/// Values per sample.
pub const SAMPLE_SIZE: usize = 64;

/// Feature streams of a mapped run.
pub const NUM_FEATURE_STREAMS: usize = 4;

/// `samples` replicated cyclically to `n` values.
pub open spec fn cyclic(samples: Seq<u32>, n: nat) -> Seq<u32> {
    Seq::new(n, |i: int| samples[i % (samples.len() as int)])
}

/// `k` copies of `s`, one after the other.
pub open spec fn repeated<T>(s: Seq<T>, k: nat) -> Seq<T>
    decreases k,
{
    if k == 0 {
        Seq::empty()
    } else {
        repeated(s, (k - 1) as nat) + s
    }
}

/// Values each stream of a run over `samples` samples carries.
pub open spec fn stream_values(mapped: bool, samples: int) -> int {
    if mapped {
        samples * SAMPLE_SIZE / (NUM_FEATURE_STREAMS as int)
    } else {
        samples * SAMPLE_SIZE
    }
}

/// Length of `s` once it is cut to at most `limit` values.
pub open spec fn cut_len(s: Seq<u32>, limit: int) -> int {
    if s.len() <= limit {
        s.len() as int
    } else {
        limit
    }
}

/// Whether the four feature streams have the same length once each is cut
/// to the values a run over `max_samples` samples reads from it.
pub open spec fn stream_lengths_agree(max_samples: int, streams: Seq<Vec<u32>>) -> bool {
    forall|k: int|
        0 <= k < streams.len() ==> cut_len(#[trigger] streams[k]@, stream_values(true, max_samples))
            == cut_len(streams[0]@, stream_values(true, max_samples))
}

/// A cyclic replication whose length is a multiple of the sample count is
/// the sample sequence repeated that many times.
pub proof fn lemma_cyclic_is_repetition(samples: Seq<u32>, k: nat)
    requires
        samples.len() > 0,
    ensures
        cyclic(samples, k * samples.len()) == repeated(samples, k),
    decreases k,
{
    let len = samples.len() as int;
    if k == 0 {
        assert(k * samples.len() == 0) by (nonlinear_arith)
            requires
                k == 0,
        ;
        assert(cyclic(samples, 0) =~= repeated(samples, 0));
    } else {
        let shorter = (k - 1) as nat;
        lemma_cyclic_is_repetition(samples, shorter);
        assert(k * samples.len() == shorter * samples.len() + samples.len()) by (nonlinear_arith)
            requires
                shorter == k - 1,
        ;
        let whole = cyclic(samples, k * samples.len());
        let parts = cyclic(samples, shorter * samples.len()) + samples;
        assert(whole.len() == parts.len());
        assert forall|i: int| 0 <= i < whole.len() implies whole[i] == parts[i] by {
            let base = shorter * len;
            if i >= base {
                assert(base == len * shorter) by (nonlinear_arith)
                    requires
                        base == shorter * len,
                ;
                lemma_fundamental_div_mod_converse_mod(i, len, shorter as int, i - base);
            }
        }
        assert(whole =~= parts);
        assert(repeated(samples, k) == repeated(samples, shorter) + samples);
    }
}

/// The byte image of a repetition is the repetition of the byte image.
pub proof fn lemma_encode_repeated(samples: Seq<u32>, k: nat)
    ensures
        encode_words(repeated(samples, k)) == repeated(encode_words(samples), k),
    decreases k,
{
    if k == 0 {
        assert(encode_words(Seq::<u32>::empty()) =~= Seq::<u8>::empty());
    } else {
        lemma_encode_repeated(samples, (k - 1) as nat);
        lemma_encode_concat(repeated(samples, (k - 1) as nat), samples);
    }
}

/// Cutting a sample sequence to the replicated length before replicating
/// it changes nothing.
pub proof fn lemma_cyclic_of_cut(samples: Seq<u32>, n: nat)
    ensures
        cyclic(samples.take(cut_len(samples, n as int)), n) == cyclic(samples, n),
{
    let cut = samples.take(cut_len(samples, n as int));
    if samples.len() <= n {
        assert(cut =~= samples);
    } else {
        assert forall|i: int| 0 <= i < n implies cyclic(cut, n)[i] == cyclic(samples, n)[i] by {
            lemma_small_mod(i as nat, n);
            lemma_small_mod(i as nat, samples.len());
        }
        assert(cyclic(cut, n) =~= cyclic(samples, n));
    }
}

/// Value `i` of a replicated buffer is the sample at `i` modulo the number
/// of samples.
pub proof fn lemma_buffer_values(samples: Seq<u32>, n: nat, i: int)
    requires
        samples.len() > 0,
        0 <= i < n,
    ensures
        decode_words(encode_words(cyclic(samples, n))).len() == n,
        decode_words(encode_words(cyclic(samples, n)))[i] == samples[i % (samples.len() as int)],
{
    lemma_decode_encode(cyclic(samples, n));
}

/// A replicated buffer whose length is a multiple of the sample count is
/// the byte image of the samples, repeated that many times.
pub proof fn lemma_buffer_is_repetition(samples: Seq<u32>, k: nat)
    requires
        samples.len() > 0,
    ensures
        encode_words(cyclic(samples, k * samples.len())) == repeated(encode_words(samples), k),
        decode_words(encode_words(cyclic(samples, k * samples.len()))) == repeated(samples, k),
{
    lemma_cyclic_is_repetition(samples, k);
    lemma_encode_repeated(samples, k);
    lemma_decode_encode(repeated(samples, k));
}

/// The start of a replicated buffer is the replicated buffer of a
/// shorter run.
pub proof fn lemma_prefix_of_buffer(samples: Seq<u32>, short: nat, long: nat)
    requires
        short <= long,
    ensures
        encode_words(cyclic(samples, long)).take(4 * (short as int)) == encode_words(
            cyclic(samples, short),
        ),
{
    let whole = encode_words(cyclic(samples, long));
    let part = encode_words(cyclic(samples, short));
    assert(whole.take(4 * (short as int)).len() == part.len());
    assert forall|k: int| 0 <= k < part.len() implies whole.take(4 * (short as int))[k]
        == part[k] by {
        assert(k / 4 < short);
    }
    assert(whole.take(4 * (short as int)) =~= part);
}

/// Feature streams that differ in length, one of them being shorter than
/// what a run reads from it, do not agree.
pub proof fn lemma_unequal_streams_disagree(max_samples: int, streams: Seq<Vec<u32>>, k: int)
    requires
        0 <= k < streams.len(),
        streams[k]@.len() != streams[0]@.len(),
        streams[k]@.len() < stream_values(true, max_samples) || streams[0]@.len() < stream_values(
            true,
            max_samples,
        ),
    ensures
        !stream_lengths_agree(max_samples, streams),
{
    assert(cut_len(streams[k]@, stream_values(true, max_samples)) != cut_len(
        streams[0]@,
        stream_values(true, max_samples),
    ));
}

/// Builds the byte buffer of `num_elements` values in which value `i` is
/// `samples[i % samples.len()]`.
pub fn prepare_input_buffer(num_elements: usize, samples: &[u32]) -> (buffer: Vec<u8>)
    requires
        num_elements > 0 ==> samples@.len() > 0,
    ensures
        buffer@ == encode_words(cyclic(samples@, num_elements as nat)),
{
    let mut buffer: Vec<u8> = Vec::new();
    let mut i: usize = 0;
    assert(encode_words(cyclic(samples@, 0)) =~= Seq::<u8>::empty());
    while i < num_elements
        invariant
            i <= num_elements,
            num_elements > 0 ==> samples@.len() > 0,
            buffer@ == encode_words(cyclic(samples@, i as nat)),
        decreases num_elements - i,
    {
        let value: u32 = samples[i % samples.len()];
        push_word(&mut buffer, value);
        proof {
            let done = cyclic(samples@, i as nat);
            assert(cyclic(samples@, (i + 1) as nat) =~= done + seq![value]);
            lemma_encode_concat(done, seq![value]);
            assert(encode_words(seq![value]) =~= seq![
                word_byte(value, 0),
                word_byte(value, 1),
                word_byte(value, 2),
                word_byte(value, 3),
            ]);
        }
        i += 1;
    }
    buffer
}

/// The sample data of a whole sweep, replicated and serialised once.
///
/// A mapped run keeps four pre-sorted feature streams; a streaming run keeps
/// one combined stream. Every stream holds exactly the values a run over
/// `max_samples` samples sends.
pub struct SampleBuffers {
    mapped: bool,
    max_samples: usize,
    streams: Vec<Vec<u8>>,
}

impl SampleBuffers {
    #[verifier::type_invariant]
    spec fn well_formed(self) -> bool {
        &&& self.max_samples * SAMPLE_SIZE * WORD_BYTES <= usize::MAX
        &&& self.streams@.len() == (if self.mapped { 4int } else { 1int })
        &&& forall|k: int|
            0 <= k < self.streams@.len() ==> (#[trigger] self.streams@[k])@.len() == 4
                * stream_values(self.mapped, self.max_samples as int)
    }

    /// Whether the buffers are laid out for a mapped run.
    pub closed spec fn mapped(&self) -> bool {
        self.mapped
    }

    /// The largest run, in samples, that the buffers can feed.
    pub closed spec fn max_samples(&self) -> usize {
        self.max_samples
    }

    /// The byte content of each stream.
    pub closed spec fn streams(&self) -> Seq<Seq<u8>> {
        Seq::new(self.streams@.len(), |k: int| self.streams@[k]@)
    }

    /// Buffers for mapped runs of up to `max_samples` samples.
    ///
    /// Each of the four feature streams is replicated to
    /// `max_samples * 64 / 4` values. Streams that differ in length, once
    /// cut to that many values, are refused before anything is built.
    pub fn build_mapped(max_samples: usize, features: &[Vec<u32>; 4]) -> (result: Result<
        SampleBuffers,
        Error,
    >)
        requires
            max_samples * SAMPLE_SIZE * WORD_BYTES <= usize::MAX,
            max_samples > 0 ==> exists|k: int| 0 <= k < 4 && (#[trigger] features@[k])@.len() > 0,
        ensures
            result is Ok <==> stream_lengths_agree(max_samples as int, features@),
            result matches Err(e) ==> e == Error::InconsistentInput,
            result matches Ok(buffers) ==> {
                &&& buffers.mapped()
                &&& buffers.max_samples() == max_samples
                &&& buffers.streams().len() == 4
                &&& forall|k: int|
                    0 <= k < 4 ==> #[trigger] buffers.streams()[k] == encode_words(
                        cyclic(features@[k]@, stream_values(true, max_samples as int) as nat),
                    )
            },
    {
        let per_stream: usize = max_samples * SAMPLE_SIZE / NUM_FEATURE_STREAMS;
        let first: usize = if features[0].len() <= per_stream {
            features[0].len()
        } else {
            per_stream
        };
        let mut k: usize = 1;
        while k < 4
            invariant
                1 <= k <= 4,
                per_stream == stream_values(true, max_samples as int),
                first == cut_len(features@[0]@, per_stream as int),
                forall|j: int|
                    0 <= j < k ==> cut_len(#[trigger] features@[j]@, per_stream as int) == first,
            decreases 4 - k,
        {
            let len: usize = if features[k].len() <= per_stream {
                features[k].len()
            } else {
                per_stream
            };
            if len != first {
                return Err(Error::InconsistentInput);
            }
            k += 1;
        }
        assert(stream_lengths_agree(max_samples as int, features@));
        assert(max_samples > 0 ==> first > 0) by {
            if max_samples > 0 {
                let w = choose|w: int| 0 <= w < 4 && (#[trigger] features@[w])@.len() > 0;
                assert(cut_len(features@[w]@, per_stream as int) == first);
            }
        }
        let mut streams: Vec<Vec<u8>> = Vec::new();
        let mut k: usize = 0;
        while k < 4
            invariant
                k <= 4,
                per_stream == stream_values(true, max_samples as int),
                per_stream > 0 ==> first > 0,
                forall|j: int|
                    0 <= j < 4 ==> cut_len(#[trigger] features@[j]@, per_stream as int) == first,
                streams@.len() == k,
                forall|j: int|
                    0 <= j < k ==> (#[trigger] streams@[j])@ == encode_words(
                        cyclic(features@[j]@, per_stream as nat),
                    ),
            decreases 4 - k,
        {
            assert(cut_len(features@[k as int]@, per_stream as int) == first);
            let buffer = prepare_input_buffer(per_stream, features[k].as_slice());
            streams.push(buffer);
            k += 1;
        }
        let buffers = SampleBuffers { mapped: true, max_samples, streams };
        assert forall|j: int| 0 <= j < 4 implies #[trigger] buffers.streams()[j] == encode_words(
            cyclic(features@[j]@, per_stream as nat),
        ) by {
            assert(buffers.streams()[j] == buffers.streams@[j]@);
        }
        Ok(buffers)
    }

    /// Buffers for streaming runs of up to `max_samples` samples: the one
    /// combined stream, replicated to `max_samples * 64` values.
    pub fn build_streaming(max_samples: usize, samples: &[u32]) -> (buffers: SampleBuffers)
        requires
            max_samples * SAMPLE_SIZE * WORD_BYTES <= usize::MAX,
            max_samples > 0 ==> samples@.len() > 0,
        ensures
            !buffers.mapped(),
            buffers.max_samples() == max_samples,
            buffers.streams() == seq![
                encode_words(cyclic(samples@, stream_values(false, max_samples as int) as nat)),
            ],
    {
        let total: usize = max_samples * SAMPLE_SIZE;
        let buffer = prepare_input_buffer(total, samples);
        let mut streams: Vec<Vec<u8>> = Vec::new();
        streams.push(buffer);
        let buffers = SampleBuffers { mapped: false, max_samples, streams };
        assert(buffers.streams() =~= seq![encode_words(cyclic(samples@, total as nat))]);
        buffers
    }

    /// Whether the buffers are laid out for a mapped run.
    pub fn is_mapped(&self) -> (mapped: bool)
        ensures
            mapped == self.mapped(),
    {
        self.mapped
    }

    /// The largest run, in samples, that the buffers can feed.
    pub fn capacity(&self) -> (samples: usize)
        ensures
            samples == self.max_samples(),
            samples * SAMPLE_SIZE * WORD_BYTES <= usize::MAX,
    {
        proof {
            use_type_invariant(self);
        }
        self.max_samples
    }

    /// Number of streams: four for a mapped run, one for a streaming run.
    pub fn stream_count(&self) -> (count: usize)
        ensures
            count == self.streams().len(),
            count == (if self.mapped() { 4int } else { 1int }),
    {
        proof {
            use_type_invariant(self);
        }
        self.streams.len()
    }

    /// The bytes stream `k` sends for a run over `samples` samples: the
    /// first `4 * stream_values(mapped, samples)` bytes of the stream.
    pub fn run_input(&self, k: usize, samples: usize) -> (data: Vec<u8>)
        requires
            k < self.streams().len(),
            samples <= self.max_samples(),
        ensures
            4 * stream_values(self.mapped(), samples as int) <= self.streams()[k as int].len(),
            data@ == self.streams()[k as int].take(
                4 * stream_values(self.mapped(), samples as int),
            ),
    {
        proof {
            use_type_invariant(self);
        }
        let values: usize = if self.mapped {
            samples * SAMPLE_SIZE / NUM_FEATURE_STREAMS
        } else {
            samples * SAMPLE_SIZE
        };
        let size: usize = values * WORD_BYTES;
        let stream = &self.streams[k];
        let mut data: Vec<u8> = Vec::new();
        let mut i: usize = 0;
        while i < size
            invariant
                i <= size <= stream@.len(),
                data@ == stream@.take(i as int),
            decreases size - i,
        {
            data.push(stream[i]);
            assert(stream@.take(i + 1) =~= stream@.take(i as int).push(stream@[i as int]));
            i += 1;
        }
        data
    }
}

} // verus!
