//! A verified model of a bare-metal runtime for a fixed-hardware game
//! console: the interrupt-priority lock, the block-header memory allocator,
//! the video coprocessor's DMA command encoder, the command ring buffer, and
//! the vertical-blank scheduler that drains it.
//!
//! Hardware registers are modelled as an abstract memory-mapped sink
//! ([`ports::PortLog`]), so the encoding and scheduling logic is independent
//! of the physical machine and fully checkable on a host.

use vstd::prelude::*;

pub mod dma;
pub mod heap;
pub mod io;
pub mod machine;
pub mod mask;
pub mod ports;
pub mod queue;
pub mod settings;
pub mod slot;
pub mod vdp;

verus! {

/// The global critical-section token.
///
/// Relies on the critical-section crate: a value of this type witnesses that
/// the caller is inside an interrupt-masked section, so it may touch state
/// that is shared with interrupt handlers. The library never constructs one;
/// callers obtain it from `critical_section::with`.
#[verifier::external_type_specification]
#[verifier::external_body]
pub struct ExCriticalSection<'a>(critical_section::CriticalSection<'a>);

} // verus!
