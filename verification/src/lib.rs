//! Host-side core for embedding a script-execution engine.
//!
//! The crate models the safety boundary between a host process and an
//! embedded script engine: a runtime that owns the engine's resources and
//! its out-of-band host state, a two-phase (compile, then evaluate) module
//! protocol with explicit invalidation on failure, host-authored modules
//! with declared exports, export iteration, a FIFO microtask queue drained
//! one job per call, memory-limit accounting and cooperative interruption.
use vstd::prelude::*;

mod errors;
pub mod syntax;
pub mod value;
pub mod engine;
pub mod runtime;
pub mod module;

pub use errors::Error;
pub use errors::ErrorView;
pub use errors::JobOutcome;
pub use module::Definitions;
pub use module::Exports;
pub use module::Module;
pub use module::ModuleBuilder;
pub use module::ModuleDef;
pub use runtime::CountdownInterrupt;
pub use runtime::FaultingInterrupt;
pub use runtime::GrantAll;
pub use runtime::InterruptHandler;
pub use runtime::InterruptPoll;
pub use runtime::Loader;
pub use runtime::NeverInterrupt;
pub use runtime::NoLoader;
pub use runtime::Resolver;
pub use runtime::OpaqueState;
pub use runtime::RuntimeHandle;
pub use value::JsValue;

verus! {

/// A byte vector has an embedded terminator byte, which the engine's
/// string encoding cannot represent.
pub open spec fn has_nul(s: Seq<u8>) -> bool {
    exists|i: int| 0 <= i < s.len() && s[i] == 0u8
}

/// Scan a name for an embedded terminator byte.
pub fn contains_nul(s: &[u8]) -> (r: bool)
    ensures
        r == has_nul(s@),
{
    let mut i: usize = 0;
    while i < s.len()
        invariant
            0 <= i <= s@.len(),
            forall|j: int| 0 <= j < i ==> s@[j] != 0u8,
        decreases s@.len() - i,
    {
        if s[i] == 0u8 {
            assert(has_nul(s@));
            return true;
        }
        i += 1;
    }
    return false;
}

} // verus!
