//! Weight vectors per engine and the padded block they are uploaded as.

use vstd::prelude::*;
use vstd::arithmetic::div_mod::lemma_fundamental_div_mod_converse;
use crate::error::Error;
use crate::topology::{budget_of, engine_budget, NUM_WEIGHT_STREAMS, SPLIT_BOUNDARY};
use crate::words::{encode, encode_words};

verus! {

/// `raw` cut to at most `limit` values.
pub open spec fn cut(raw: Seq<u32>, limit: int) -> Seq<u32> {
    if raw.len() <= limit {
        raw
    } else {
        raw.take(limit)
    }
}

/// The length of the longest vector; 0 when there is none.
pub open spec fn max_length(engines: Seq<Seq<u32>>) -> int
    decreases engines.len(),
{
    if engines.len() == 0 {
        0
    } else {
        let rest = max_length(engines.drop_last());
        if engines.last().len() > rest {
            engines.last().len() as int
        } else {
            rest
        }
    }
}

/// Word `p` of the padded block: vector `p / stride` occupies the words
/// from `(p / stride) * stride` on, and zeros fill the block up to the next
/// multiple of `stride`.
pub open spec fn packed_word(engines: Seq<Seq<u32>>, stride: int, p: int) -> u32 {
    let row = engines[p / stride];
    let column = p % stride;
    if column < row.len() {
        row[column]
    } else {
        0
    }
}

/// The padded block of `engines`: `engines.len() * stride` words.
pub open spec fn packed(engines: Seq<Seq<u32>>, stride: int) -> Seq<u32> {
    Seq::new((engines.len() * stride) as nat, |p: int| packed_word(engines, stride, p))
}

/// No vector is longer than `max_length`, and one vector is that long.
pub proof fn lemma_max_length(engines: Seq<Seq<u32>>)
    ensures
        forall|i: int|
            0 <= i < engines.len() ==> (#[trigger] engines[i]).len() <= max_length(engines),
        engines.len() > 0 ==> exists|i: int|
            0 <= i < engines.len() && (#[trigger] engines[i]).len() == max_length(engines),
        engines.len() == 0 ==> max_length(engines) == 0,
    decreases engines.len(),
{
    if engines.len() > 0 {
        let rest = engines.drop_last();
        lemma_max_length(rest);
        assert forall|i: int| 0 <= i < engines.len() implies (#[trigger] engines[i]).len()
            <= max_length(engines) by {
            if i < rest.len() {
                assert(rest[i] == engines[i]);
            }
        }
        if engines.last().len() > max_length(rest) || rest.len() == 0 {
            assert(engines[engines.len() - 1].len() == max_length(engines));
        } else {
            let w = choose|w: int|
                0 <= w < rest.len() && (#[trigger] rest[w]).len() == max_length(rest);
            assert(engines[w] == rest[w]);
        }
    }
}

/// Vector `i` starts at word `i * stride` of the padded block.
pub proof fn lemma_packed_layout(engines: Seq<Seq<u32>>, stride: int, i: int, j: int)
    requires
        0 <= i < engines.len(),
        0 <= j < stride,
    ensures
        0 <= i * stride + j < packed(engines, stride).len(),
        packed(engines, stride)[i * stride + j] == (if j < engines[i].len() {
            engines[i][j]
        } else {
            0u32
        }),
{
    assert(0 <= i * stride && i * stride + stride <= engines.len() * stride) by (nonlinear_arith)
        requires
            0 <= i < engines.len(),
            0 < stride,
    ;
    lemma_fundamental_div_mod_converse(i * stride + j, stride, i, j);
}

/// The weights of the network, one vector per engine in engine order.
///
/// No vector is longer than its engine's budget, and there are at most as
/// many vectors as the network has engines.
pub struct WeightPartition {
    engines: Vec<Vec<u32>>,
}

impl WeightPartition {
    #[verifier::type_invariant]
    spec fn well_formed(self) -> bool {
        &&& self.engines@.len() <= NUM_WEIGHT_STREAMS
        &&& forall|i: int|
            0 <= i < self.engines@.len() ==> (#[trigger] self.engines@[i])@.len() <= budget_of(i)
    }

    /// The weight vector of each engine.
    pub closed spec fn engines(&self) -> Seq<Seq<u32>> {
        Seq::new(self.engines@.len(), |i: int| self.engines@[i]@)
    }

    /// Assigns `raw[i]` to engine `i`, cut to the engine's budget. Vectors
    /// beyond the last engine are ignored.
    pub fn from_raw(raw: &[Vec<u32>]) -> (partition: WeightPartition)
        ensures
            partition.engines().len() == (if raw@.len() <= NUM_WEIGHT_STREAMS {
                raw@.len()
            } else {
                NUM_WEIGHT_STREAMS as nat
            }),
            forall|i: int|
                0 <= i < partition.engines().len() ==> #[trigger] partition.engines()[i] == cut(
                    raw@[i]@,
                    budget_of(i),
                ),
            forall|i: int|
                0 <= i < partition.engines().len() ==> (#[trigger] partition.engines()[i]).len()
                    <= budget_of(i),
    {
        let mut engines: Vec<Vec<u32>> = Vec::new();
        let mut i: usize = 0;
        while i < raw.len() && i < NUM_WEIGHT_STREAMS
            invariant
                i <= raw@.len(),
                i <= NUM_WEIGHT_STREAMS,
                engines@.len() == i,
                forall|k: int|
                    0 <= k < i ==> (#[trigger] engines@[k])@ == cut(raw@[k]@, budget_of(k)),
            decreases raw@.len() - i,
        {
            let budget: usize = match engine_budget(i) {
                Some(b) => b,
                None => 0,
            };
            let source = &raw[i];
            let mut kept: Vec<u32> = Vec::new();
            let mut j: usize = 0;
            while j < source.len() && j < budget
                invariant
                    j <= source@.len(),
                    j <= budget,
                    kept@ == source@.take(j as int),
                decreases source@.len() - j,
            {
                kept.push(source[j]);
                assert(source@.take(j + 1) =~= source@.take(j as int).push(source@[j as int]));
                j += 1;
            }
            assert(kept@ =~= cut(source@, budget as int));
            engines.push(kept);
            i += 1;
        }
        let partition = WeightPartition { engines };
        assert forall|k: int| 0 <= k < partition.engines().len() implies #[trigger]
            partition.engines()[k] == cut(raw@[k]@, budget_of(k)) by {
            assert(partition.engines()[k] == partition.engines@[k]@);
        }
        partition
    }

    /// Number of engines that have a weight vector.
    pub fn len(&self) -> (count: usize)
        ensures
            count == self.engines().len(),
            count <= NUM_WEIGHT_STREAMS,
    {
        proof {
            use_type_invariant(self);
        }
        self.engines.len()
    }

    /// The weight vector of engine `i`.
    pub fn engine(&self, i: usize) -> (weights: &Vec<u32>)
        requires
            i < self.engines().len(),
        ensures
            weights@ == self.engines()[i as int],
            weights@.len() <= budget_of(i as int),
    {
        proof {
            use_type_invariant(self);
        }
        &self.engines[i]
    }

    /// The length of the longest weight vector; `NoData` when no engine has
    /// a weight vector.
    pub fn max_len(&self) -> (result: Result<usize, Error>)
        ensures
            result == (if self.engines().len() == 0 {
                Err::<usize, Error>(Error::NoData)
            } else {
                Ok::<usize, Error>(max_length(self.engines()) as usize)
            }),
            0 <= max_length(self.engines()) <= usize::MAX,
    {
        let count: usize = self.engines.len();
        let stride: usize = self.longest(0, count);
        assert(self.engines().subrange(0, count as int) =~= self.engines());
        if count == 0 {
            Err(Error::NoData)
        } else {
            Ok(stride)
        }
    }

    /// The length of the longest weight vector among engines `from .. to`.
    fn longest(&self, from: usize, to: usize) -> (stride: usize)
        requires
            from <= to <= self.engines().len(),
        ensures
            stride == max_length(self.engines().subrange(from as int, to as int)),
    {
        let mut stride: usize = 0;
        let mut i: usize = from;
        assert(self.engines().subrange(from as int, from as int) =~= Seq::<Seq<u32>>::empty());
        while i < to
            invariant
                from <= i <= to <= self.engines().len(),
                self.engines().len() == self.engines@.len(),
                stride == max_length(self.engines().subrange(from as int, i as int)),
            decreases to - i,
        {
            let len: usize = self.engines[i].len();
            proof {
                let next = self.engines().subrange(from as int, i + 1);
                assert(next.drop_last() =~= self.engines().subrange(from as int, i as int));
                assert(next.last() == self.engines@[i as int]@);
            }
            if len > stride {
                stride = len;
            }
            i += 1;
        }
        stride
    }

    /// The padded block of engines `from .. to`, serialised: every vector is
    /// filled with zeros up to the length of the longest of them, and the
    /// vectors follow each other in engine order. `NoData` when the range
    /// is empty.
    pub fn pack_range(&self, from: usize, to: usize) -> (result: Result<Vec<u8>, Error>)
        requires
            from <= to <= self.engines().len(),
        ensures
            result is Err <==> from == to,
            result matches Err(e) ==> e == Error::NoData,
            result matches Ok(block) ==> block@ == encode_words(
                packed(
                    self.engines().subrange(from as int, to as int),
                    max_length(self.engines().subrange(from as int, to as int)),
                ),
            ),
    {
        if from == to {
            return Err(Error::NoData);
        }
        let stride: usize = self.longest(from, to);
        let ghost chosen = self.engines().subrange(from as int, to as int);
        let mut block: Vec<u32> = Vec::new();
        let mut i: usize = from;
        assert(0 * (stride as int) == 0);
        while i < to
            invariant
                from <= i <= to <= self.engines().len(),
                self.engines().len() == self.engines@.len(),
                chosen == self.engines().subrange(from as int, to as int),
                block@.len() == (i - from) * stride,
                forall|p: int|
                    0 <= p < block@.len() ==> block@[p] == packed_word(chosen, stride as int, p),
            decreases to - i,
        {
            let row = &self.engines[i];
            let ghost base = (i - from) * stride;
            let mut j: usize = 0;
            while j < stride
                invariant
                    j <= stride,
                    from <= i < to <= self.engines().len(),
                    chosen == self.engines().subrange(from as int, to as int),
                    row@ == chosen[i - from],
                    base == (i - from) * stride,
                    block@.len() == base + j,
                    forall|p: int|
                        0 <= p < block@.len() ==> block@[p] == packed_word(
                            chosen,
                            stride as int,
                            p,
                        ),
                decreases stride - j,
            {
                let word: u32 = if j < row.len() {
                    row[j]
                } else {
                    0
                };
                proof {
                    lemma_fundamental_div_mod_converse(base + j, stride as int, i - from, j as int);
                }
                block.push(word);
                j += 1;
            }
            assert((i + 1 - from) * stride == base + stride) by (nonlinear_arith)
                requires
                    base == (i - from) * stride,
            ;
            i += 1;
        }
        assert(block@ =~= packed(chosen, stride as int));
        Ok(encode(block.as_slice()))
    }

    /// The padded block of all engines, for a network on one device.
    pub fn pack_all(&self) -> (result: Result<Vec<u8>, Error>)
        ensures
            result is Err <==> self.engines().len() == 0,
            result matches Err(e) ==> e == Error::NoData,
            result matches Ok(block) ==> block@ == encode_words(
                packed(self.engines(), max_length(self.engines())),
            ),
    {
        let count: usize = self.engines.len();
        assert(self.engines().subrange(0, count as int) =~= self.engines());
        self.pack_range(0, count)
    }

    /// The padded block of the engines before the split boundary: the part
    /// of the network that runs on the input-side device.
    pub fn pack_input_side(&self) -> (result: Result<Vec<u8>, Error>)
        ensures
            result is Err <==> self.engines().len() == 0,
            result matches Err(e) ==> e == Error::NoData,
            result matches Ok(block) ==> block@ == encode_words(
                packed(input_side(self.engines()), max_length(input_side(self.engines()))),
            ),
    {
        let count: usize = self.engines.len();
        let boundary: usize = if count < SPLIT_BOUNDARY {
            count
        } else {
            SPLIT_BOUNDARY
        };
        assert(self.engines().subrange(0, boundary as int) =~= input_side(self.engines()));
        self.pack_range(0, boundary)
    }

    /// The padded block of the engines from the split boundary on: the part
    /// of the network that runs on the output-side device.
    pub fn pack_output_side(&self) -> (result: Result<Vec<u8>, Error>)
        ensures
            result is Err <==> self.engines().len() <= SPLIT_BOUNDARY,
            result matches Err(e) ==> e == Error::NoData,
            result matches Ok(block) ==> block@ == encode_words(
                packed(output_side(self.engines()), max_length(output_side(self.engines()))),
            ),
    {
        let count: usize = self.engines.len();
        let boundary: usize = if count < SPLIT_BOUNDARY {
            count
        } else {
            SPLIT_BOUNDARY
        };
        assert(self.engines().subrange(boundary as int, count as int) =~= output_side(
            self.engines(),
        ));
        self.pack_range(boundary, count)
    }
}

/// The vectors of the engines before the split boundary.
pub open spec fn input_side(engines: Seq<Seq<u32>>) -> Seq<Seq<u32>> {
    if engines.len() < SPLIT_BOUNDARY {
        engines
    } else {
        engines.subrange(0, SPLIT_BOUNDARY as int)
    }
}

/// The vectors of the engines from the split boundary on.
pub open spec fn output_side(engines: Seq<Seq<u32>>) -> Seq<Seq<u32>> {
    if engines.len() < SPLIT_BOUNDARY {
        Seq::empty()
    } else {
        engines.subrange(SPLIT_BOUNDARY as int, engines.len() as int)
    }
}

} // verus!
