//! The AI subsystem the kernel hosts: resource bookkeeping, the tensor
//! shape model, the computation graph with its backward pass, and the
//! matrix-multiplication shape rules.

use vstd::prelude::*;

pub mod autograd;
pub mod ops;
pub mod tensor;

verus! {

/// The activation functions the layers know.
#[derive(Clone, Copy, PartialEq, Eq, Structural, Debug)]
pub enum ActivationFunction {
    ReLU,
    Sigmoid,
    Tanh,
    SoftMax,
}

/// The tensor cores the placeholder detection reports.
pub const DETECTED_TENSOR_CORES: usize = 4;

/// The memory budget the placeholder estimate reports: 256 MiB.
pub const ESTIMATED_AI_MEMORY: usize = 0x1000_0000;

/// The AI subsystem: the resources it found, once initialized.
pub struct AISubsystem {
    pub initialized: bool,
    pub tensor_cores_available: usize,
    pub max_memory_usage: usize,
}

impl AISubsystem {
    /// A subsystem that has not probed for resources yet.
    pub fn new() -> (r: Self)
        ensures
            !r.initialized,
            r.tensor_cores_available == 0,
            r.max_memory_usage == 0,
    {
        AISubsystem { initialized: false, tensor_cores_available: 0, max_memory_usage: 0 }
    }

    /// Probe for acceleration resources and adopt the findings.
    pub fn initialize(&mut self)
        ensures
            final(self).initialized,
            final(self).tensor_cores_available == DETECTED_TENSOR_CORES,
            final(self).max_memory_usage == ESTIMATED_AI_MEMORY,
    {
        self.tensor_cores_available = detect_tensor_cores();
        self.max_memory_usage = estimate_available_memory();
        self.initialized = true;
    }

    /// Whether the subsystem has been initialized.
    pub fn is_initialized(&self) -> (r: bool)
        ensures
            r == self.initialized,
    {
        self.initialized
    }
}

/// The placeholder probe for acceleration hardware.
pub fn detect_tensor_cores() -> (r: usize)
    ensures
        r == DETECTED_TENSOR_CORES,
{
    DETECTED_TENSOR_CORES
}

/// The placeholder estimate of the memory available to the subsystem.
pub fn estimate_available_memory() -> (r: usize)
    ensures
        r == ESTIMATED_AI_MEMORY,
{
    ESTIMATED_AI_MEMORY
}

/// Start the AI subsystem.
pub fn init() -> (r: AISubsystem)
    ensures
        r.initialized,
        r.tensor_cores_available == DETECTED_TENSOR_CORES,
        r.max_memory_usage == ESTIMATED_AI_MEMORY,
{
    let mut subsystem = AISubsystem::new();
    subsystem.initialize();
    subsystem
}

} // verus!
