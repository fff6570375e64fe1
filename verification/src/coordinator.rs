//! The jobs of a run and the order in which they are started and released.
//!
//! A run is a list of steps. The caller carries the steps out one after the
//! other and gives the run up at the first step that fails. Starting a job
//! does not wait for it; releasing a job does. Jobs therefore overlap exactly
//! where two units are started before the first of them is released.

use vstd::prelude::*;
use crate::error::Error;
use crate::registry::{Binding, Role};
use crate::samples::{stream_values, SampleBuffers};
use crate::topology::SPLIT_BOUNDARY;
use crate::transfer::{
    lemma_parameter_contents_push, parameter_contents, zero_buffer, zeros, Direction, Parameter,
    ParameterContent, TransferContent, TransferDescriptor,
};
use crate::weights::{input_side, max_length, output_side, packed, WeightPartition};
use crate::words::encode_words;

verus! {

/// Number of values that the stream units move per block.
pub const STREAM_BLOCK_SIZE: u64 = 128;

/// Tag by which the stream units of the two devices recognise each other.
pub const STREAM_ROUTING_TAG: u64 = 0xAAAA;

/// Time-out that the stream-join unit applies on its own.
pub const STREAM_JOIN_TIMEOUT: u64 = 100;

/// One step of a run.
#[derive(Debug, PartialEq, Eq)]
pub enum Step {
    /// Take the unit for `unit` from its device.
    Acquire { unit: Role },
    /// Start a job on the unit. Does not wait.
    Start { unit: Role, parameters: Vec<Parameter> },
    /// Wait for the job of the unit. With `release_unit` the unit goes back
    /// to its device; with `return_value` the status word of the job is
    /// fetched along with the buffers that come back from the device.
    Release { unit: Role, release_unit: bool, return_value: bool },
}

/// What a [`Step`] holds.
pub enum StepContent {
    Acquire { unit: Role },
    Start { unit: Role, parameters: Seq<ParameterContent> },
    Release { unit: Role, release_unit: bool, return_value: bool },
}

impl View for Step {
    type V = StepContent;

    open spec fn view(&self) -> StepContent {
        match *self {
            Step::Acquire { unit } => StepContent::Acquire { unit },
            Step::Start { unit, parameters } => StepContent::Start {
                unit,
                parameters: parameter_contents(parameters@),
            },
            Step::Release { unit, release_unit, return_value } => StepContent::Release {
                unit,
                release_unit,
                return_value,
            },
        }
    }
}

/// What a list of steps holds.
pub open spec fn plan_contents(steps: Seq<Step>) -> Seq<StepContent> {
    Seq::new(steps.len(), |i: int| steps[i]@)
}

/// The parameters of the stream-join job: two zero offsets, the block size,
/// the routing tag and the time-out.
pub open spec fn join_parameters() -> Seq<ParameterContent> {
    seq![
        ParameterContent::Single64(0),
        ParameterContent::Single64(0),
        ParameterContent::Single64(STREAM_BLOCK_SIZE),
        ParameterContent::Single64(STREAM_ROUTING_TAG),
        ParameterContent::Single64(STREAM_JOIN_TIMEOUT),
    ]
}

/// The parameters of the stream-split job: those of the stream-join job
/// without the time-out.
pub open spec fn split_parameters() -> Seq<ParameterContent> {
    seq![
        ParameterContent::Single64(0),
        ParameterContent::Single64(0),
        ParameterContent::Single64(STREAM_BLOCK_SIZE),
        ParameterContent::Single64(STREAM_ROUTING_TAG),
    ]
}

/// The padded weight block of `engines`, serialised.
pub open spec fn weight_block(engines: Seq<Seq<u32>>) -> Seq<u8> {
    encode_words(packed(engines, max_length(engines)))
}

/// The job that loads `block` into the unit for `unit`: one local transfer,
/// started and waited for, after which the unit is given back.
pub open spec fn weight_job(unit: Role, block: Seq<u8>) -> Seq<StepContent> {
    seq![
        StepContent::Start {
            unit,
            parameters: seq![ParameterContent::Transfer(TransferContent::Local { data: block })],
        },
        StepContent::Release { unit, release_unit: true, return_value: false },
    ]
}

/// The steps that prepare the units for the runs.
///
/// On one device the weights of all engines are loaded into the weight
/// streamer. On two devices every unit is acquired first; then each side
/// gets the weights of its engines, the stream-join job is run to its end,
/// and the stream-split job is started and left running.
pub open spec fn setup_steps(split: bool, engines: Seq<Seq<u32>>) -> Seq<StepContent> {
    if split {
        seq![
            StepContent::Acquire { unit: Role::PartitionInWeights },
            StepContent::Acquire { unit: Role::PartitionOutWeights },
            StepContent::Acquire { unit: Role::StreamSplit },
            StepContent::Acquire { unit: Role::StreamJoin },
            StepContent::Acquire { unit: Role::PartitionInData },
            StepContent::Acquire { unit: Role::PartitionOutData },
        ] + weight_job(Role::PartitionInWeights, weight_block(input_side(engines))) + weight_job(
            Role::PartitionOutWeights,
            weight_block(output_side(engines)),
        ) + seq![
            StepContent::Start { unit: Role::StreamJoin, parameters: join_parameters() },
            StepContent::Release {
                unit: Role::StreamJoin,
                release_unit: true,
                return_value: false,
            },
            StepContent::Start { unit: Role::StreamSplit, parameters: split_parameters() },
        ]
    } else {
        seq![StepContent::Acquire { unit: Role::WeightStreamer }] + weight_job(
            Role::WeightStreamer,
            weight_block(engines),
        )
    }
}

/// The transfer that brings the results of `samples` samples back: one word
/// per sample, allocated in device memory for a mapped run and streamed
/// otherwise.
pub open spec fn output_transfer(mapped: bool, samples: int, memory: usize) -> ParameterContent {
    ParameterContent::Transfer(
        if mapped {
            TransferContent::Alloc {
                data: zeros((4 * samples) as nat),
                direction: Direction::FromDevice,
                free: true,
                memory,
            }
        } else {
            TransferContent::Stream {
                data: zeros((4 * samples) as nat),
                direction: Direction::FromDevice,
                memory,
            }
        },
    )
}

/// The transfer that sends `data` to the device.
pub open spec fn input_transfer(mapped: bool, data: Seq<u8>, memory: usize) -> ParameterContent {
    ParameterContent::Transfer(
        if mapped {
            TransferContent::Alloc { data, direction: Direction::ToDevice, free: true, memory }
        } else {
            TransferContent::Stream { data, direction: Direction::ToDevice, memory }
        },
    )
}

/// One input transfer per stream, each with the bytes that a run over
/// `samples` samples reads from its stream.
pub open spec fn input_transfers(
    mapped: bool,
    streams: Seq<Seq<u8>>,
    samples: int,
    memory: usize,
) -> Seq<ParameterContent> {
    Seq::new(
        streams.len(),
        |k: int|
            input_transfer(
                mapped,
                streams[k].take(4 * stream_values(mapped, samples)),
                memory,
            ),
    )
}

/// The steps of one run over `samples` samples.
///
/// On one device a single job moves the data both ways. On two devices the
/// unit that collects the results is started before the unit that feeds the
/// samples, so that the results can drain from the first sample on; both
/// are then waited for, the feeding unit first.
pub open spec fn iteration_steps(
    binding: Binding,
    mapped: bool,
    streams: Seq<Seq<u8>>,
    samples: usize,
) -> Seq<StepContent> {
    let count = ParameterContent::Single64(samples as u64);
    match binding {
        Binding::Single { device } => {
            let output = output_transfer(mapped, samples as int, device);
            let inputs = input_transfers(mapped, streams, samples as int, device);
            seq![
                StepContent::Acquire { unit: Role::DataStreamer },
                StepContent::Start {
                    unit: Role::DataStreamer,
                    parameters: if mapped {
                        seq![count] + inputs + seq![output]
                    } else {
                        seq![count, output] + inputs
                    },
                },
                StepContent::Release {
                    unit: Role::DataStreamer,
                    release_unit: true,
                    return_value: true,
                },
            ]
        },
        Binding::Split { input_device, output_device } => seq![
            StepContent::Start {
                unit: Role::PartitionOutData,
                parameters: seq![count, output_transfer(mapped, samples as int, output_device)],
            },
            StepContent::Start {
                unit: Role::PartitionInData,
                parameters: seq![count] + input_transfers(
                    mapped,
                    streams,
                    samples as int,
                    input_device,
                ),
            },
            StepContent::Release {
                unit: Role::PartitionInData,
                release_unit: false,
                return_value: true,
            },
            StepContent::Release {
                unit: Role::PartitionOutData,
                release_unit: false,
                return_value: true,
            },
        ],
    }
}

/// The unit whose release hands back the results of a run.
pub open spec fn result_unit_of(binding: Binding) -> Role {
    match binding {
        Binding::Single { .. } => Role::DataStreamer,
        Binding::Split { .. } => Role::PartitionOutData,
    }
}

/// Whether `step` starts a job on the unit for `unit`.
pub open spec fn starts(step: StepContent, unit: Role) -> bool {
    step matches StepContent::Start { unit: started, .. } && started == unit
}

/// Whether `parameter` is a scalar or a transfer of the kind that a run
/// with these transfers uses: through device memory for a mapped run,
/// through a streaming channel otherwise.
pub open spec fn fits_transfer_mode(parameter: ParameterContent, mapped: bool) -> bool {
    match parameter {
        ParameterContent::Single64(_) => true,
        ParameterContent::Transfer(TransferContent::Local { .. }) => false,
        ParameterContent::Transfer(TransferContent::Alloc { .. }) => mapped,
        ParameterContent::Transfer(TransferContent::Stream { .. }) => !mapped,
    }
}

/// In a run on two devices the unit that collects the results is started
/// first and the unit that feeds the samples second, and nothing is
/// released before both have been started.
pub proof fn lemma_output_starts_before_input(
    binding: Binding,
    mapped: bool,
    streams: Seq<Seq<u8>>,
    samples: usize,
)
    requires
        binding is Split,
    ensures
        forall|i: int|
            0 <= i < iteration_steps(binding, mapped, streams, samples).len() ==> (starts(
                #[trigger] iteration_steps(binding, mapped, streams, samples)[i],
                Role::PartitionOutData,
            ) <==> i == 0),
        forall|i: int|
            0 <= i < iteration_steps(binding, mapped, streams, samples).len() ==> (starts(
                #[trigger] iteration_steps(binding, mapped, streams, samples)[i],
                Role::PartitionInData,
            ) <==> i == 1),
        forall|i: int|
            0 <= i < iteration_steps(binding, mapped, streams, samples).len()
                && #[trigger] iteration_steps(binding, mapped, streams, samples)[i] is Release ==> i
                >= 2,
{
}

/// The jobs of a run never mix kinds of transfer: in a mapped run every
/// buffer goes through device memory, in a streaming run every buffer goes
/// through a streaming channel. Every buffer is bound to the memory of the
/// device on which its unit runs.
pub proof fn lemma_run_transfers_are_uniform(
    binding: Binding,
    mapped: bool,
    streams: Seq<Seq<u8>>,
    samples: usize,
    at: int,
    slot: int,
)
    requires
        0 <= at < iteration_steps(binding, mapped, streams, samples).len(),
        iteration_steps(binding, mapped, streams, samples)[at] is Start,
        0 <= slot < iteration_steps(binding, mapped, streams, samples)[at]->Start_parameters.len(),
    ensures
        fits_transfer_mode(
            iteration_steps(binding, mapped, streams, samples)[at]->Start_parameters[slot],
            mapped,
        ),
        match iteration_steps(binding, mapped, streams, samples)[at]->Start_parameters[slot] {
            ParameterContent::Transfer(TransferContent::Alloc { memory, .. }) => memory
                == binding.device_of(
                iteration_steps(binding, mapped, streams, samples)[at]->Start_unit,
            ),
            ParameterContent::Transfer(TransferContent::Stream { memory, .. }) => memory
                == binding.device_of(
                iteration_steps(binding, mapped, streams, samples)[at]->Start_unit,
            ),
            _ => true,
        },
{
}

/// The weights are the only buffers that go into the private memory of a
/// unit: every transfer of the preparation is a local one.
pub proof fn lemma_setup_transfers_are_local(
    split: bool,
    engines: Seq<Seq<u32>>,
    at: int,
    slot: int,
)
    requires
        0 <= at < setup_steps(split, engines).len(),
        setup_steps(split, engines)[at] is Start,
        0 <= slot < setup_steps(split, engines)[at]->Start_parameters.len(),
    ensures
        setup_steps(split, engines)[at]->Start_parameters[slot] is Transfer ==> setup_steps(
            split,
            engines,
        )[at]->Start_parameters[slot]->Transfer_0 is Local,
{
}

/// Appending a step appends what it holds.
pub proof fn lemma_plan_contents_push(steps: Seq<Step>, step: Step)
    ensures
        plan_contents(steps.push(step)) == plan_contents(steps).push(step@),
{
    assert(plan_contents(steps.push(step)) =~= plan_contents(steps).push(step@));
}

/// Appends a scalar parameter.
fn push_scalar(parameters: &mut Vec<Parameter>, value: u64)
    ensures
        parameter_contents(final(parameters)@) == parameter_contents(old(parameters)@).push(
            ParameterContent::Single64(value),
        ),
{
    let parameter = Parameter::Single64(value);
    proof {
        lemma_parameter_contents_push(parameters@, parameter);
    }
    parameters.push(parameter);
}

/// Appends the transfer that brings the results of `samples` samples back.
fn push_output(parameters: &mut Vec<Parameter>, mapped: bool, samples: usize, memory: usize)
    requires
        4 * samples <= usize::MAX,
    ensures
        parameter_contents(final(parameters)@) == parameter_contents(old(parameters)@).push(
            output_transfer(mapped, samples as int, memory),
        ),
{
    let data = zero_buffer(4 * samples);
    let parameter = if mapped {
        Parameter::Transfer(
            TransferDescriptor::Alloc {
                data,
                direction: Direction::FromDevice,
                free: true,
                memory,
            },
        )
    } else {
        Parameter::Transfer(
            TransferDescriptor::Stream { data, direction: Direction::FromDevice, memory },
        )
    };
    proof {
        lemma_parameter_contents_push(parameters@, parameter);
    }
    parameters.push(parameter);
}

/// Appends one input transfer per stream of `buffers`.
fn push_inputs(
    parameters: &mut Vec<Parameter>,
    buffers: &SampleBuffers,
    samples: usize,
    memory: usize,
)
    requires
        samples <= buffers.max_samples(),
    ensures
        parameter_contents(final(parameters)@) == parameter_contents(old(parameters)@)
            + input_transfers(buffers.mapped(), buffers.streams(), samples as int, memory),
{
    let mapped: bool = buffers.is_mapped();
    let count: usize = buffers.stream_count();
    let ghost before = parameter_contents(parameters@);
    let ghost all = input_transfers(mapped, buffers.streams(), samples as int, memory);
    let mut k: usize = 0;
    assert(before =~= before + all.take(0));
    while k < count
        invariant
            k <= count,
            count == buffers.streams().len(),
            mapped == buffers.mapped(),
            samples <= buffers.max_samples(),
            all == input_transfers(mapped, buffers.streams(), samples as int, memory),
            parameter_contents(parameters@) == before + all.take(k as int),
        decreases count - k,
    {
        let data = buffers.run_input(k, samples);
        let parameter = if mapped {
            Parameter::Transfer(
                TransferDescriptor::Alloc {
                    data,
                    direction: Direction::ToDevice,
                    free: true,
                    memory,
                },
            )
        } else {
            Parameter::Transfer(
                TransferDescriptor::Stream { data, direction: Direction::ToDevice, memory },
            )
        };
        proof {
            lemma_parameter_contents_push(parameters@, parameter);
            assert(parameter@ == all[k as int]);
            assert(before + all.take(k + 1) =~= (before + all.take(k as int)).push(all[k as int]));
        }
        parameters.push(parameter);
        k += 1;
    }
    assert(all.take(count as int) =~= all);
}

/// Appends a step.
fn push_step(steps: &mut Vec<Step>, step: Step)
    ensures
        plan_contents(final(steps)@) == plan_contents(old(steps)@).push(step@),
{
    proof {
        lemma_plan_contents_push(steps@, step);
    }
    steps.push(step);
}

/// Appends the job that loads `block` into the unit for `unit`.
fn push_weight_job(steps: &mut Vec<Step>, unit: Role, block: Vec<u8>)
    ensures
        plan_contents(final(steps)@) == plan_contents(old(steps)@) + weight_job(unit, block@),
{
    let ghost before = plan_contents(steps@);
    let mut parameters: Vec<Parameter> = Vec::new();
    let transfer = Parameter::Transfer(TransferDescriptor::Local { data: block });
    proof {
        lemma_parameter_contents_push(parameters@, transfer);
        assert(parameter_contents(Seq::<Parameter>::empty()) =~= Seq::<ParameterContent>::empty());
    }
    parameters.push(transfer);
    assert(parameter_contents(parameters@) =~= seq![
        ParameterContent::Transfer(TransferContent::Local { data: block@ }),
    ]);
    push_step(steps, Step::Start { unit, parameters });
    push_step(steps, Step::Release { unit, release_unit: true, return_value: false });
    assert(plan_contents(steps@) =~= before + weight_job(unit, block@));
}

/// The parameters of the stream-join job.
pub fn join_job() -> (parameters: Vec<Parameter>)
    ensures
        parameter_contents(parameters@) == join_parameters(),
{
    let mut parameters: Vec<Parameter> = Vec::new();
    assert(parameter_contents(parameters@) =~= Seq::<ParameterContent>::empty());
    push_scalar(&mut parameters, 0);
    push_scalar(&mut parameters, 0);
    push_scalar(&mut parameters, STREAM_BLOCK_SIZE);
    push_scalar(&mut parameters, STREAM_ROUTING_TAG);
    push_scalar(&mut parameters, STREAM_JOIN_TIMEOUT);
    assert(parameter_contents(parameters@) =~= join_parameters());
    parameters
}

/// The parameters of the stream-split job.
pub fn split_job() -> (parameters: Vec<Parameter>)
    ensures
        parameter_contents(parameters@) == split_parameters(),
{
    let mut parameters: Vec<Parameter> = Vec::new();
    assert(parameter_contents(parameters@) =~= Seq::<ParameterContent>::empty());
    push_scalar(&mut parameters, 0);
    push_scalar(&mut parameters, 0);
    push_scalar(&mut parameters, STREAM_BLOCK_SIZE);
    push_scalar(&mut parameters, STREAM_ROUTING_TAG);
    assert(parameter_contents(parameters@) =~= split_parameters());
    parameters
}

/// The steps that prepare the units for the runs. `NoData` when a weight
/// streamer would be left without a weight vector: on one device when no
/// engine has one, on two devices when no engine of the output side has one.
pub fn setup_plan(weights: &WeightPartition, split: bool) -> (result: Result<Vec<Step>, Error>)
    ensures
        result is Err <==> (if split {
            weights.engines().len() <= SPLIT_BOUNDARY
        } else {
            weights.engines().len() == 0
        }),
        result matches Err(e) ==> e == Error::NoData,
        result matches Ok(steps) ==> plan_contents(steps@) == setup_steps(split, weights.engines()),
{
    let mut steps: Vec<Step> = Vec::new();
    assert(plan_contents(steps@) =~= Seq::<StepContent>::empty());
    if split {
        let input_block = match weights.pack_input_side() {
            Ok(block) => block,
            Err(e) => {
                return Err(e);
            },
        };
        let output_block = match weights.pack_output_side() {
            Ok(block) => block,
            Err(e) => {
                return Err(e);
            },
        };
        push_step(&mut steps, Step::Acquire { unit: Role::PartitionInWeights });
        push_step(&mut steps, Step::Acquire { unit: Role::PartitionOutWeights });
        push_step(&mut steps, Step::Acquire { unit: Role::StreamSplit });
        push_step(&mut steps, Step::Acquire { unit: Role::StreamJoin });
        push_step(&mut steps, Step::Acquire { unit: Role::PartitionInData });
        push_step(&mut steps, Step::Acquire { unit: Role::PartitionOutData });
        let ghost acquired = plan_contents(steps@);
        push_weight_job(&mut steps, Role::PartitionInWeights, input_block);
        push_weight_job(&mut steps, Role::PartitionOutWeights, output_block);
        let ghost loaded = plan_contents(steps@);
        push_step(&mut steps, Step::Start { unit: Role::StreamJoin, parameters: join_job() });
        push_step(
            &mut steps,
            Step::Release { unit: Role::StreamJoin, release_unit: true, return_value: false },
        );
        push_step(&mut steps, Step::Start { unit: Role::StreamSplit, parameters: split_job() });
        proof {
            assert(acquired =~= seq![
                StepContent::Acquire { unit: Role::PartitionInWeights },
                StepContent::Acquire { unit: Role::PartitionOutWeights },
                StepContent::Acquire { unit: Role::StreamSplit },
                StepContent::Acquire { unit: Role::StreamJoin },
                StepContent::Acquire { unit: Role::PartitionInData },
                StepContent::Acquire { unit: Role::PartitionOutData },
            ]);
            assert(plan_contents(steps@) =~= loaded + seq![
                StepContent::Start { unit: Role::StreamJoin, parameters: join_parameters() },
                StepContent::Release {
                    unit: Role::StreamJoin,
                    release_unit: true,
                    return_value: false,
                },
                StepContent::Start { unit: Role::StreamSplit, parameters: split_parameters() },
            ]);
        }
        Ok(steps)
    } else {
        let block = match weights.pack_all() {
            Ok(block) => block,
            Err(e) => {
                return Err(e);
            },
        };
        push_step(&mut steps, Step::Acquire { unit: Role::WeightStreamer });
        let ghost acquired = plan_contents(steps@);
        push_weight_job(&mut steps, Role::WeightStreamer, block);
        assert(acquired =~= seq![StepContent::Acquire { unit: Role::WeightStreamer }]);
        Ok(steps)
    }
}

/// The steps of one run over `samples` samples, which the buffers must be
/// able to feed. Whether the run is mapped follows from the buffers, and
/// whether it is split from the binding.
pub fn iteration_plan(buffers: &SampleBuffers, binding: Binding, samples: usize) -> (steps: Vec<
    Step,
>)
    requires
        samples <= buffers.max_samples(),
    ensures
        plan_contents(steps@) == iteration_steps(
            binding,
            buffers.mapped(),
            buffers.streams(),
            samples,
        ),
{
    let mapped: bool = buffers.is_mapped();
    let capacity: usize = buffers.capacity();
    let count: u64 = samples as u64;
    let mut steps: Vec<Step> = Vec::new();
    assert(plan_contents(steps@) =~= Seq::<StepContent>::empty());
    match binding {
        Binding::Single { device } => {
            let mut parameters: Vec<Parameter> = Vec::new();
            assert(parameter_contents(parameters@) =~= Seq::<ParameterContent>::empty());
            push_scalar(&mut parameters, count);
            if mapped {
                push_inputs(&mut parameters, buffers, samples, device);
                push_output(&mut parameters, mapped, samples, device);
                assert(parameter_contents(parameters@) =~= seq![ParameterContent::Single64(count)]
                    + input_transfers(mapped, buffers.streams(), samples as int, device) + seq![
                    output_transfer(mapped, samples as int, device),
                ]);
            } else {
                push_output(&mut parameters, mapped, samples, device);
                push_inputs(&mut parameters, buffers, samples, device);
                assert(parameter_contents(parameters@) =~= seq![
                    ParameterContent::Single64(count),
                    output_transfer(mapped, samples as int, device),
                ] + input_transfers(mapped, buffers.streams(), samples as int, device));
            }
            push_step(&mut steps, Step::Acquire { unit: Role::DataStreamer });
            push_step(&mut steps, Step::Start { unit: Role::DataStreamer, parameters });
            push_step(
                &mut steps,
                Step::Release { unit: Role::DataStreamer, release_unit: true, return_value: true },
            );
            assert(plan_contents(steps@) =~= iteration_steps(
                binding,
                mapped,
                buffers.streams(),
                samples,
            ));
        },
        Binding::Split { input_device, output_device } => {
            let mut output: Vec<Parameter> = Vec::new();
            assert(parameter_contents(output@) =~= Seq::<ParameterContent>::empty());
            push_scalar(&mut output, count);
            push_output(&mut output, mapped, samples, output_device);
            assert(parameter_contents(output@) =~= seq![
                ParameterContent::Single64(count),
                output_transfer(mapped, samples as int, output_device),
            ]);
            let mut input: Vec<Parameter> = Vec::new();
            assert(parameter_contents(input@) =~= Seq::<ParameterContent>::empty());
            push_scalar(&mut input, count);
            push_inputs(&mut input, buffers, samples, input_device);
            assert(parameter_contents(input@) =~= seq![ParameterContent::Single64(count)]
                + input_transfers(mapped, buffers.streams(), samples as int, input_device));
            push_step(&mut steps, Step::Start { unit: Role::PartitionOutData, parameters: output });
            push_step(&mut steps, Step::Start { unit: Role::PartitionInData, parameters: input });
            push_step(
                &mut steps,
                Step::Release {
                    unit: Role::PartitionInData,
                    release_unit: false,
                    return_value: true,
                },
            );
            push_step(
                &mut steps,
                Step::Release {
                    unit: Role::PartitionOutData,
                    release_unit: false,
                    return_value: true,
                },
            );
            assert(plan_contents(steps@) =~= iteration_steps(
                binding,
                mapped,
                buffers.streams(),
                samples,
            ));
        },
    }
    steps
}

/// The unit whose release hands back the results of a run.
pub fn result_unit(binding: Binding) -> (unit: Role)
    ensures
        unit == result_unit_of(binding),
{
    match binding {
        Binding::Single { .. } => Role::DataStreamer,
        Binding::Split { .. } => Role::PartitionOutData,
    }
}

} // verus!
