//! Job parameters: scalars and the three kinds of buffer movement.

use vstd::prelude::*;

verus! {

/// Which way a buffer moves.
#[derive(Clone, Copy, Debug, PartialEq, Eq, Structural)]
pub enum Direction {
    /// From the host to the device.
    ToDevice,
    /// From the device to the host.
    FromDevice,
}

/// One buffer movement. A parameter slot holds exactly one of the three kinds.
#[derive(Debug, PartialEq, Eq)]
pub enum TransferDescriptor {
    /// Written once into the private memory of the compute unit; always
    /// from the host to the device, and given up once it is consumed.
    Local { data: Vec<u8> },
    /// Held in the addressable memory of the device at scan position `memory`.
    Alloc { data: Vec<u8>, direction: Direction, free: bool, memory: usize },
    /// Sent through a streaming channel of the device at scan position
    /// `memory`; nothing stays allocated on the device.
    Stream { data: Vec<u8>, direction: Direction, memory: usize },
}

/// What a [`TransferDescriptor`] holds.
pub enum TransferContent {
    Local { data: Seq<u8> },
    Alloc { data: Seq<u8>, direction: Direction, free: bool, memory: usize },
    Stream { data: Seq<u8>, direction: Direction, memory: usize },
}

impl View for TransferDescriptor {
    type V = TransferContent;

    open spec fn view(&self) -> TransferContent {
        match *self {
            TransferDescriptor::Local { data } => TransferContent::Local { data: data@ },
            TransferDescriptor::Alloc { data, direction, free, memory } => TransferContent::Alloc {
                data: data@,
                direction,
                free,
                memory,
            },
            TransferDescriptor::Stream { data, direction, memory } => TransferContent::Stream {
                data: data@,
                direction,
                memory,
            },
        }
    }
}

/// One parameter of a job.
#[derive(Debug, PartialEq, Eq)]
pub enum Parameter {
    /// A 64-bit scalar.
    Single64(u64),
    /// A buffer movement.
    Transfer(TransferDescriptor),
}

/// What a [`Parameter`] holds.
pub enum ParameterContent {
    Single64(u64),
    Transfer(TransferContent),
}

impl View for Parameter {
    type V = ParameterContent;

    open spec fn view(&self) -> ParameterContent {
        match *self {
            Parameter::Single64(value) => ParameterContent::Single64(value),
            Parameter::Transfer(transfer) => ParameterContent::Transfer(transfer@),
        }
    }
}

/// What a list of parameters holds.
pub open spec fn parameter_contents(parameters: Seq<Parameter>) -> Seq<ParameterContent> {
    Seq::new(parameters.len(), |i: int| parameters[i]@)
}

/// Appending a parameter appends what it holds.
pub proof fn lemma_parameter_contents_push(parameters: Seq<Parameter>, parameter: Parameter)
    ensures
        parameter_contents(parameters.push(parameter)) == parameter_contents(parameters).push(
            parameter@,
        ),
{
    assert(parameter_contents(parameters.push(parameter)) =~= parameter_contents(parameters).push(
        parameter@,
    ));
}

/// `n` zero bytes.
pub open spec fn zeros(n: nat) -> Seq<u8> {
    Seq::new(n, |i: int| 0u8)
}

/// A buffer of `n` zero bytes.
pub fn zero_buffer(n: usize) -> (buffer: Vec<u8>)
    ensures
        buffer@ == zeros(n as nat),
{
    let mut buffer: Vec<u8> = Vec::new();
    let mut i: usize = 0;
    while i < n
        invariant
            i <= n,
            buffer@ == zeros(i as nat),
        decreases n - i,
    {
        buffer.push(0u8);
        assert(buffer@ =~= zeros((i + 1) as nat));
        i += 1;
    }
    buffer
}

} // verus!
