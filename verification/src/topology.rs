//! The fixed layout of the network on the accelerator.
//!
//! Three layers are spread over 64 parallel weight engines. Engines are
//! numbered layer by layer; within a layer, four consecutive engines form
//! one cascade and belong to the same split group.

use vstd::prelude::*;
use vstd::string::StringExecFns;
use crate::text::{decimal, push_decimal};

verus! {

/// Weight engines of the first layer.
pub const NUM_L0_STREAMS: usize = 32;

/// Weight engines of the second layer.
pub const NUM_L1_STREAMS: usize = 16;

/// Weight engines of the third layer.
pub const NUM_L2_STREAMS: usize = 16;

/// Weight engines of the whole network.
pub const NUM_WEIGHT_STREAMS: usize = NUM_L0_STREAMS + NUM_L1_STREAMS + NUM_L2_STREAMS;

/// Layers of the network.
pub const NUM_LAYERS: usize = 3;

/// Weights of the first layer (64 x 128).
pub const NUM_L0_WEIGHTS: usize = 64 * 128;

/// Weights of the second layer (128 x 64).
pub const NUM_L1_WEIGHTS: usize = 128 * 64;

/// Weights of the third layer (64 x 64).
pub const NUM_L2_WEIGHTS: usize = 64 * 64;

/// Weights that one engine of the first layer holds.
pub const NUM_L0_WEIGHTS_PER_ENGINE: usize = NUM_L0_WEIGHTS / NUM_L0_STREAMS;

/// Weights that one engine of the second layer holds.
pub const NUM_L1_WEIGHTS_PER_ENGINE: usize = NUM_L1_WEIGHTS / NUM_L1_STREAMS;

/// Weights that one engine of the third layer holds.
pub const NUM_L2_WEIGHTS_PER_ENGINE: usize = NUM_L2_WEIGHTS / NUM_L2_STREAMS;

/// Engines per cascade.
pub const CASCADE_LENGTH: usize = 4;

/// First engine that lies on the output-side device when the network is
/// split over two devices: the first engine of the third layer.
pub const SPLIT_BOUNDARY: usize = NUM_L0_STREAMS + NUM_L1_STREAMS;

/// Where an engine sits in the network.
#[derive(Clone, Copy, Debug, PartialEq, Eq, Structural)]
pub struct EngineSlot {
    /// Layer the engine belongs to.
    pub layer: usize,
    /// Split group within the layer.
    pub split_group: usize,
    /// Position within the cascade.
    pub cascade_slot: usize,
}

/// Number of engines of `layer`.
pub open spec fn layer_streams(layer: int) -> int {
    if layer == 0 {
        NUM_L0_STREAMS as int
    } else if layer == 1 {
        NUM_L1_STREAMS as int
    } else {
        NUM_L2_STREAMS as int
    }
}

/// Number of weights of `layer`.
pub open spec fn layer_weights(layer: int) -> int {
    if layer == 0 {
        NUM_L0_WEIGHTS as int
    } else if layer == 1 {
        NUM_L1_WEIGHTS as int
    } else {
        NUM_L2_WEIGHTS as int
    }
}

/// Index of the first engine of `layer`: the number of engines of the
/// layers before it.
pub open spec fn layer_start(layer: int) -> int
    decreases layer,
{
    if layer <= 0 {
        0
    } else {
        layer_start(layer - 1) + layer_streams(layer - 1)
    }
}

/// Layer of engine `i`.
pub open spec fn layer_of(i: int) -> int {
    if i < layer_start(1) {
        0
    } else if i < layer_start(2) {
        1
    } else {
        2
    }
}

/// Slot of engine `i`.
pub open spec fn slot_of(i: int) -> EngineSlot {
    EngineSlot {
        layer: layer_of(i) as usize,
        split_group: ((i - layer_start(layer_of(i))) / (CASCADE_LENGTH as int)) as usize,
        cascade_slot: (i % (CASCADE_LENGTH as int)) as usize,
    }
}

/// Number of weights engine `i` holds at most: the weights of its layer
/// divided evenly among the layer's engines.
pub open spec fn budget_of(i: int) -> int {
    layer_weights(layer_of(i)) / layer_streams(layer_of(i))
}

/// Where the layers begin, and what an engine of each layer holds.
pub proof fn lemma_layout()
    ensures
        layer_start(0) == 0,
        layer_start(1) == 32,
        layer_start(2) == 48,
        layer_start(3) == NUM_WEIGHT_STREAMS == 64,
        SPLIT_BOUNDARY == layer_start(2),
        forall|i: int| 0 <= i < 32 ==> #[trigger] budget_of(i) == 256,
        forall|i: int| 32 <= i < 48 ==> #[trigger] budget_of(i) == 512,
        forall|i: int| 48 <= i < 64 ==> #[trigger] budget_of(i) == 256,
{
    reveal_with_fuel(layer_start, 4);
}

/// Every engine lies in exactly one layer, and the engines of a layer are
/// the contiguous block that starts at `layer_start`.
pub proof fn lemma_layers_partition_engines(i: int, layer: int)
    requires
        0 <= i < NUM_WEIGHT_STREAMS,
        0 <= layer < NUM_LAYERS,
    ensures
        0 <= layer_of(i) < NUM_LAYERS,
        layer_of(i) == layer <==> layer_start(layer) <= i < layer_start(layer) + layer_streams(
            layer,
        ),
{
    lemma_layout();
}

/// Layers follow each other in engine order.
pub proof fn lemma_layers_contiguous(i: int, j: int)
    requires
        0 <= i <= j < NUM_WEIGHT_STREAMS,
    ensures
        layer_of(i) <= layer_of(j),
{
}

/// No layer is without engines.
pub proof fn lemma_layers_exhaustive(layer: int)
    requires
        0 <= layer < NUM_LAYERS,
    ensures
        0 <= layer_start(layer) < NUM_WEIGHT_STREAMS,
        layer_of(layer_start(layer)) == layer,
{
    lemma_layout();
}

/// Different engines have different slots.
pub proof fn lemma_slots_distinct(i: int, j: int)
    requires
        0 <= i < NUM_WEIGHT_STREAMS,
        0 <= j < NUM_WEIGHT_STREAMS,
        i != j,
    ensures
        slot_of(i) != slot_of(j),
{
    lemma_layout();
    if layer_of(i) == layer_of(j) && i % 4 == j % 4 {
        let start = layer_start(layer_of(i));
        assert(start % 4 == 0);
        assert((i - start) / 4 != (j - start) / 4);
    }
}

/// The slot of engine `i`, or `None` when the network has no such engine.
pub fn engine_slot(i: usize) -> (slot: Option<EngineSlot>)
    ensures
        slot == (if i < NUM_WEIGHT_STREAMS {
            Some(slot_of(i as int))
        } else {
            None
        }),
{
    proof {
        lemma_layout();
    }
    if i < NUM_L0_STREAMS {
        Some(
            EngineSlot {
                layer: 0,
                split_group: i / CASCADE_LENGTH,
                cascade_slot: i % CASCADE_LENGTH,
            },
        )
    } else if i < NUM_L0_STREAMS + NUM_L1_STREAMS {
        Some(
            EngineSlot {
                layer: 1,
                split_group: (i - NUM_L0_STREAMS) / CASCADE_LENGTH,
                cascade_slot: i % CASCADE_LENGTH,
            },
        )
    } else if i < NUM_WEIGHT_STREAMS {
        Some(
            EngineSlot {
                layer: 2,
                split_group: (i - NUM_L0_STREAMS - NUM_L1_STREAMS) / CASCADE_LENGTH,
                cascade_slot: i % CASCADE_LENGTH,
            },
        )
    } else {
        None
    }
}

/// The number of weights engine `i` holds at most, or `None` when the
/// network has no such engine.
pub fn engine_budget(i: usize) -> (budget: Option<usize>)
    ensures
        budget == (if i < NUM_WEIGHT_STREAMS {
            Some(budget_of(i as int) as usize)
        } else {
            None
        }),
{
    proof {
        lemma_layout();
    }
    if i < NUM_L0_STREAMS {
        Some(NUM_L0_WEIGHTS_PER_ENGINE)
    } else if i < NUM_L0_STREAMS + NUM_L1_STREAMS {
        Some(NUM_L1_WEIGHTS_PER_ENGINE)
    } else if i < NUM_WEIGHT_STREAMS {
        Some(NUM_L2_WEIGHTS_PER_ENGINE)
    } else {
        None
    }
}

/// Name of the file that holds the weights of the engine at `slot`.
pub open spec fn weight_file_name_of(slot: EngineSlot) -> Seq<char> {
    "Weights"@ + decimal(slot.layer as nat) + "In"@ + decimal(slot.split_group as nat) + "_CASC_"@
        + decimal(slot.cascade_slot as nat) + ".txt"@
}

/// Name of the file that holds feature stream `stream` of a mapped run.
pub open spec fn feature_file_name_of(stream: nat) -> Seq<char> {
    "Features0In_CASC_"@ + decimal(stream) + ".txt"@
}

/// Name of the file that holds the weights of the engine at `slot`:
/// `Weights{layer}In{split_group}_CASC_{cascade_slot}.txt`.
pub fn weight_file_name(slot: EngineSlot) -> (name: String)
    ensures
        name@ == weight_file_name_of(slot),
{
    let mut name = String::from_str("Weights");
    push_decimal(&mut name, slot.layer);
    name.append("In");
    push_decimal(&mut name, slot.split_group);
    name.append("_CASC_");
    push_decimal(&mut name, slot.cascade_slot);
    name.append(".txt");
    name
}

/// Name of the file that holds feature stream `stream` of a mapped run:
/// `Features0In_CASC_{stream}.txt`.
pub fn feature_file_name(stream: usize) -> (name: String)
    ensures
        name@ == feature_file_name_of(stream as nat),
{
    let mut name = String::from_str("Features0In_CASC_");
    push_decimal(&mut name, stream);
    name.append(".txt");
    name
}

/// Name of the file that holds the combined samples of a streaming run.
pub fn stream_input_file_name() -> (name: &'static str)
    ensures
        name@ == "InputData.txt"@,
{
    "InputData.txt"
}

} // verus!
