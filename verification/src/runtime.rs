//! The runtime handle: owner of the engine's runtime resource and of the
//! per-runtime opaque host state, with the interrupt/abnormal-termination
//! bridge, allocation accounting and the pending-job queue.
use vstd::prelude::*;

use crate::engine::CtxRecord;
use crate::engine::CtxView;
use crate::engine::Engine;
use crate::engine::EngineView;
use crate::engine::JobView;
use crate::engine::engine_wf;
use crate::engine::grant;
use crate::engine::sat_add;
use crate::errors::Error;
use crate::errors::JobOutcome;
use crate::value::JsValue;
use crate::value::val_cost;

verus! {

/// What an interrupt handler answers when the engine's interpreter loop
/// polls it at a checkpoint.
#[derive(Debug, Clone, Copy, PartialEq, Eq, Structural)]
pub enum InterruptPoll {
    /// Keep running.
    Continue,
    /// Stop: the engine raises an uncatchable exception and unwinds back
    /// to the host.
    Stop,
    /// The handler itself terminated abnormally; the payload must be
    /// captured at the callback boundary, never propagated across the
    /// engine's native frames, and re-raised once control is back in
    /// host-owned code.
    Fault(u64),
}

/// A host-supplied cancellation callback, polled by the interpreter loop
/// during script execution. Time-based cancellation is a policy the
/// implementation must supply itself (for example by checking a deadline
/// each time it is polled). Nothing is assumed about its answers.
pub trait InterruptHandler {
    /// Answer one poll.
    fn poll(&mut self) -> InterruptPoll;
}

/// An interrupt handler that never asks to stop.
pub struct NeverInterrupt;

impl InterruptHandler for NeverInterrupt {
    fn poll(&mut self) -> InterruptPoll {
        InterruptPoll::Continue
    }
}

/// An interrupt handler that asks to stop after a fixed number of
/// polls: the simplest deadline-style cancellation policy.
pub struct CountdownInterrupt {
    /// Polls left before the handler asks to stop.
    pub left: u64,
}

impl InterruptHandler for CountdownInterrupt {
    fn poll(&mut self) -> InterruptPoll {
        if self.left == 0 {
            InterruptPoll::Stop
        } else {
            self.left = self.left - 1;
            InterruptPoll::Continue
        }
    }
}

/// An interrupt handler that terminates abnormally at the first poll,
/// reporting a payload that must survive the trip across the engine's
/// frames.
pub struct FaultingInterrupt {
    /// The abnormal-termination payload.
    pub payload: u64,
}

impl InterruptHandler for FaultingInterrupt {
    fn poll(&mut self) -> InterruptPoll {
        InterruptPoll::Fault(self.payload)
    }
}

/// The module-resolution half of the loader pair: given an import
/// specifier and the name of the referring module, answer the canonical
/// name of the module to load. Nothing is assumed about its answers; a
/// failure surfaces to script code as a module-resolution exception.
pub trait Resolver {
    /// Resolve `specifier`, imported from the module named `referrer`.
    fn resolve(&mut self, specifier: &[u8], referrer: &[u8]) -> Result<Vec<u8>, Error>;
}

/// The source-loading half of the loader pair: given a canonical module
/// name, supply its source bytes. Nothing is assumed about its answers;
/// a failure surfaces to script code as a module-resolution exception.
pub trait Loader {
    /// Load the source of the module named `name`.
    fn load(&mut self, name: &[u8]) -> Result<Vec<u8>, Error>;
}

/// A resolver/loader that answers every request with a resolution
/// failure: the behaviour of a runtime with no loader installed.
pub struct NoLoader;

impl Resolver for NoLoader {
    fn resolve(&mut self, specifier: &[u8], referrer: &[u8]) -> Result<Vec<u8>, Error> {
        let _ = referrer;
        Err(Error::Exception(crate::syntax::copy_range(specifier, 0, specifier.len())))
    }
}

impl Loader for NoLoader {
    fn load(&mut self, name: &[u8]) -> Result<Vec<u8>, Error> {
        Err(Error::Exception(crate::syntax::copy_range(name, 0, name.len())))
    }
}

/// A custom memory allocator for the engine: the capability contract is
/// allocate, zero-initialized allocate, reallocate, free and a
/// usable-size query. In the model an allocation answer is a grant or a
/// refusal; nothing is assumed about the policy.
pub trait Allocator {
    /// Grant or refuse `size` fresh bytes.
    fn allocate(&mut self, size: usize) -> bool;

    /// Grant or refuse `size` fresh zero-initialized bytes.
    fn allocate_zeroed(&mut self, size: usize) -> bool;

    /// Grant or refuse growing an allocation from `old_size` to
    /// `new_size` bytes.
    fn reallocate(&mut self, old_size: usize, new_size: usize) -> bool;

    /// Return `size` bytes.
    fn free(&mut self, size: usize);

    /// The usable size of an allocation requested with `size` bytes.
    fn usable_size(&self, size: usize) -> usize;
}

/// A custom allocator that grants every request: installing it shows
/// the engine-side memory limit's documented policy gap.
pub struct GrantAll;

impl Allocator for GrantAll {
    fn allocate(&mut self, size: usize) -> bool {
        let _ = size;
        true
    }

    fn allocate_zeroed(&mut self, size: usize) -> bool {
        let _ = size;
        true
    }

    fn reallocate(&mut self, old_size: usize, new_size: usize) -> bool {
        let _ = old_size;
        let _ = new_size;
        true
    }

    fn free(&mut self, size: usize) {
        let _ = size;
    }

    fn usable_size(&self, size: usize) -> usize {
        size
    }
}

/// Whether an interrupt answer makes the interpreter stop: a stop
/// request does, and so does an abnormal handler termination (treated as
/// a stop so that the engine unwinds its own frames normally).
pub open spec fn poll_stop(a: InterruptPoll) -> bool {
    match a {
        InterruptPoll::Continue => false,
        InterruptPoll::Stop => true,
        InterruptPoll::Fault(_) => true,
    }
}

/// The fault slot after an interrupt answer: a fault's payload is
/// captured into the slot; any other answer leaves it alone.
pub open spec fn poll_fault(a: InterruptPoll, f: Option<u64>) -> Option<u64> {
    match a {
        InterruptPoll::Fault(p) => Some(p),
        _ => f,
    }
}

/// Per-runtime out-of-band host state: the installed interrupt handler
/// and the slot for one captured abnormal-termination payload. Its
/// lifetime equals the owning runtime handle's; teardown clears it
/// before the engine resource is released.
pub struct OpaqueState<H: InterruptHandler> {
    /// The installed interrupt handler, if any.
    pub handler: Option<H>,
    /// A captured abnormal-termination payload, at most one pending.
    pub fault: Option<u64>,
}

impl<H: InterruptHandler> OpaqueState<H> {
    /// Fresh opaque state: no handler, no pending payload.
    pub fn new() -> (r: OpaqueState<H>)
        ensures
            r.handler is None,
            r.fault is None,
    {
        OpaqueState { handler: None, fault: None }
    }

    /// Both slots are empty.
    pub open spec fn is_cleared(&self) -> bool {
        self.handler is None && self.fault is None
    }

    /// Detach the handler and drop any pending payload.
    pub fn clear(&mut self)
        ensures
            final(self).is_cleared(),
    {
        self.handler = None;
        self.fault = None;
    }

    /// Apply one interrupt answer at the callback boundary: `Continue`
    /// lets execution go on and touches nothing; `Stop` interrupts;
    /// `Fault(p)` captures `p` into the fault slot and interrupts, so
    /// the payload never propagates across the engine's native frames.
    pub fn apply_poll(&mut self, answer: InterruptPoll) -> (stop: bool)
        ensures
            stop == poll_stop(answer),
            final(self).fault == poll_fault(answer, old(self).fault),
            final(self).handler == old(self).handler,
    {
        match answer {
            InterruptPoll::Continue => false,
            InterruptPoll::Stop => true,
            InterruptPoll::Fault(p) => {
                self.fault = Some(p);
                true
            },
        }
    }
}

/// Memory statistics of a runtime.
#[derive(Debug, Clone, Copy, PartialEq, Eq, Structural)]
pub struct MemoryUsage {
    /// Bytes accounted as allocated.
    pub used: usize,
    /// The configured cap; `0` means unlimited.
    pub limit: usize,
}

/// The engine state of a freshly created runtime.
pub open spec fn empty_engine() -> EngineView {
    EngineView {
        modules: Seq::empty(),
        contexts: Seq::empty(),
        jobs: Seq::empty(),
        mem_used: 0,
        mem_limit: 0,
        gc_threshold: 0,
        max_stack: 0,
        stack_top_fresh: false,
        info: None,
    }
}

/// Release the engine's runtime resource. The opaque state must already
/// be cleared: the release can still run engine-level finalizers that
/// read it, so the teardown order is detach the state first, release
/// second.
fn release_engine<H: InterruptHandler>(engine: Engine, opaque: &OpaqueState<H>)
    requires
        opaque.is_cleared(),
{
    let _ = engine;
}

/// Popping the front job and touching only a context's globals and the
/// memory counter preserves engine well-formedness.
proof fn lemma_job_wf(e0: EngineView, e1: EngineView)
    requires
        engine_wf(e0),
        e0.jobs.len() > 0,
        e1.jobs == e0.jobs.drop_first(),
        e1.modules == e0.modules,
        e1.contexts.len() == e0.contexts.len(),
    ensures
        engine_wf(e1),
{
    assert forall|i: int| 0 <= i < e1.modules.len() implies crate::engine::module_wf(
        #[trigger] e1.modules[i],
        e1.contexts.len() as int,
    ) by {
        assert(e1.modules[i] == e0.modules[i]);
    }
    assert forall|i: int| 0 <= i < e1.jobs.len() implies 0 <= (#[trigger] e1.jobs[i]).ctx
        < e1.contexts.len() by {
        assert(e1.jobs[i] == e0.jobs[i + 1]);
    }
}

/// Owner of one engine runtime resource, of an optional custom
/// allocator, of an optional module resolver/loader pair, and of exactly
/// one [`OpaqueState`].
pub struct RuntimeHandle<A: Allocator, H: InterruptHandler, R: Resolver, L: Loader> {
    /// The engine's runtime resource.
    pub engine: Engine,
    /// The custom allocator, if one was installed at creation. While one
    /// is installed the engine-side memory limit has no effect (a known
    /// policy gap of the engine, kept as such).
    pub allocator: Option<A>,
    /// The module resolver/loader pair, consulted during evaluation
    /// whenever script code imports a module that is not registered.
    pub loader: Option<(R, L)>,
    /// The runtime's out-of-band host state.
    pub opaque: OpaqueState<H>,
}

impl<A: Allocator, H: InterruptHandler, R: Resolver, L: Loader> RuntimeHandle<A, H, R, L> {
    /// Create a runtime owning a fresh engine resource, storing `opaque`
    /// so that later engine callbacks can reach it.
    pub fn new(opaque: OpaqueState<H>) -> (r: Result<RuntimeHandle<A, H, R, L>, Error>)
        ensures
            r matches Ok(rt) ==> rt.engine@ == empty_engine() && rt.allocator is None
                && rt.loader is None && rt.opaque == opaque,
            r is Ok,
    {
        let engine = Engine {
            modules: Vec::new(),
            contexts: Vec::new(),
            jobs: Vec::new(),
            mem_used: 0,
            mem_limit: 0,
            gc_threshold: 0,
            max_stack: 0,
            stack_top_fresh: false,
            info: None,
        };
        proof {
            assert(engine@.modules =~= Seq::<crate::engine::ModuleView>::empty());
            assert(engine@.contexts =~= Seq::<CtxView>::empty());
            assert(engine@.jobs =~= Seq::<JobView>::empty());
            assert(engine@ =~= empty_engine());
        }
        Ok(RuntimeHandle { engine, allocator: None, loader: None, opaque })
    }

    /// Create a runtime with a custom allocator installed. The
    /// engine-side memory limit has no effect while it is installed.
    pub fn new_with_allocator(opaque: OpaqueState<H>, allocator: A) -> (r: Result<
        RuntimeHandle<A, H, R, L>,
        Error,
    >)
        ensures
            r matches Ok(rt) ==> rt.engine@ == empty_engine() && rt.allocator == Some(allocator)
                && rt.loader is None && rt.opaque == opaque,
            r is Ok,
    {
        let engine = Engine {
            modules: Vec::new(),
            contexts: Vec::new(),
            jobs: Vec::new(),
            mem_used: 0,
            mem_limit: 0,
            gc_threshold: 0,
            max_stack: 0,
            stack_top_fresh: false,
            info: None,
        };
        proof {
            assert(engine@.modules =~= Seq::<crate::engine::ModuleView>::empty());
            assert(engine@.contexts =~= Seq::<CtxView>::empty());
            assert(engine@.jobs =~= Seq::<JobView>::empty());
            assert(engine@ =~= empty_engine());
        }
        Ok(RuntimeHandle { engine, allocator: Some(allocator), loader: None, opaque })
    }

    /// Borrow the runtime's opaque state, as an engine callback would.
    pub fn get_opaque(&self) -> (r: &OpaqueState<H>)
        ensures
            *r == self.opaque,
    {
        &self.opaque
    }

    /// Create an execution context inside the runtime and return its
    /// handle.
    pub fn new_context(&mut self) -> (ctx: usize)
        ensures
            ctx == old(self).engine@.contexts.len(),
            final(self).engine@ == (EngineView {
                contexts: old(self).engine@.contexts.push(CtxView { globals: Seq::empty() }),
                ..old(self).engine@
            }),
            final(self).allocator == old(self).allocator,
            final(self).loader == old(self).loader,
            final(self).opaque == old(self).opaque,
            engine_wf(old(self).engine@) ==> engine_wf(final(self).engine@),
    {
        let ctx = self.engine.contexts.len();
        self.engine.contexts.push(CtxRecord { globals: Vec::new() });
        proof {
            assert(self.engine@.contexts =~= old(self).engine@.contexts.push(
                CtxView { globals: crate::engine::tbl_view(Seq::empty()) },
            ));
            assert(crate::engine::tbl_view(Seq::empty()) =~= Seq::<(Seq<u8>, crate::value::ValView)>::empty());
            assert(self.engine@ =~= (EngineView {
                contexts: old(self).engine@.contexts.push(CtxView { globals: Seq::empty() }),
                ..old(self).engine@
            }));
        }
        ctx
    }

    /// Record the current execution stack bound; required before the
    /// runtime is driven from a different logical thread than the one
    /// that created it.
    pub fn update_stack_top(&mut self)
        ensures
            final(self).engine@ == (EngineView { stack_top_fresh: true, ..old(self).engine@ }),
            final(self).allocator == old(self).allocator,
            final(self).loader == old(self).loader,
            final(self).opaque == old(self).opaque,
    {
        self.engine.stack_top_fresh = true;
        proof {
            assert(self.engine@ =~= (EngineView { stack_top_fresh: true, ..old(self).engine@ }));
        }
    }

    /// Whether the engine's internal microtask queue is non-empty.
    /// Non-blocking.
    pub fn is_job_pending(&self) -> (r: bool)
        ensures
            r == (self.engine@.jobs.len() > 0),
    {
        self.engine.jobs.len() > 0
    }

    /// Cap total allocation at `limit` bytes; `0` removes the cap. Has
    /// no effect while a custom allocator is installed (a known policy
    /// gap, documented rather than hidden).
    pub fn set_memory_limit(&mut self, limit: usize)
        ensures
            final(self).engine@ == (EngineView { mem_limit: limit as int, ..old(self).engine@ }),
            final(self).allocator == old(self).allocator,
            final(self).loader == old(self).loader,
            final(self).opaque == old(self).opaque,
    {
        self.engine.mem_limit = limit;
        proof {
            assert(self.engine@ =~= (EngineView { mem_limit: limit as int, ..old(self).engine@ }));
        }
    }

    /// Cap the engine's execution stack size.
    pub fn set_max_stack_size(&mut self, limit: usize)
        ensures
            final(self).engine@ == (EngineView { max_stack: limit as int, ..old(self).engine@ }),
            final(self).allocator == old(self).allocator,
            final(self).loader == old(self).loader,
            final(self).opaque == old(self).opaque,
    {
        self.engine.max_stack = limit;
        proof {
            assert(self.engine@ =~= (EngineView { max_stack: limit as int, ..old(self).engine@ }));
        }
    }

    /// Set the garbage-collection threshold.
    pub fn set_gc_threshold(&mut self, threshold: usize)
        ensures
            final(self).engine@ == (EngineView {
                gc_threshold: threshold as int,
                ..old(self).engine@
            }),
            final(self).allocator == old(self).allocator,
            final(self).loader == old(self).loader,
            final(self).opaque == old(self).opaque,
    {
        self.engine.gc_threshold = threshold;
        proof {
            assert(self.engine@ =~= (EngineView {
                gc_threshold: threshold as int,
                ..old(self).engine@
            }));
        }
    }

    /// Run the garbage collector. Only cyclic structures are collected;
    /// everything else is reference-counted and frees itself. The model
    /// builds no cyclic structures, so the state is unchanged.
    pub fn run_gc(&mut self)
        ensures
            final(self).engine == old(self).engine,
            final(self).allocator == old(self).allocator,
            final(self).loader == old(self).loader,
            final(self).opaque == old(self).opaque,
    {
    }

    /// Memory statistics of the runtime.
    pub fn memory_usage(&self) -> (r: MemoryUsage)
        ensures
            r.used as int == self.engine@.mem_used,
            r.limit as int == self.engine@.mem_limit,
    {
        MemoryUsage { used: self.engine.mem_used, limit: self.engine.mem_limit }
    }

    /// Set the runtime's diagnostic info string. A string with an
    /// embedded terminator byte is not representable and is rejected.
    pub fn set_info(&mut self, info: Vec<u8>) -> (r: Result<(), Error>)
        ensures
            crate::has_nul(info@) ==> (r matches Err(e) && e@ == crate::ErrorView::Encoding && *final(self) == *old(self)),
            !crate::has_nul(info@) ==> r is Ok && final(self).engine@ == (EngineView {
                info: Some(info@),
                ..old(self).engine@
            }) && final(self).allocator == old(self).allocator && final(self).opaque == old(self).opaque,
    {
        if crate::contains_nul(info.as_slice()) {
            return Err(Error::Encoding);
        }
        self.engine.info = Some(info);
        proof {
            assert(self.engine@ =~= (EngineView {
                info: self.engine@.info,
                ..old(self).engine@
            }));
        }
        Ok(())
    }

    /// Install or clear the interrupt handler polled by the interpreter
    /// loop during script execution.
    pub fn set_interrupt_handler(&mut self, handler: Option<H>)
        ensures
            final(self).opaque.handler == handler,
            final(self).opaque.fault == old(self).opaque.fault,
            final(self).engine == old(self).engine,
            final(self).allocator == old(self).allocator,
            final(self).loader == old(self).loader,
    {
        self.opaque.handler = handler;
    }

    /// Install a module-resolution/source-loading pair, used during
    /// evaluation whenever script code imports a module by specifier;
    /// replaces any previously installed pair.
    pub fn set_loader(&mut self, resolver: R, loader: L)
        ensures
            final(self).loader == Some((resolver, loader)),
            final(self).engine == old(self).engine,
            final(self).allocator == old(self).allocator,
            final(self).opaque == old(self).opaque,
    {
        self.loader = Some((resolver, loader));
    }

    /// Poll the installed interrupt handler at an interpreter
    /// checkpoint and apply its answer through
    /// [`OpaqueState::apply_poll`]: a `Continue` answer never stops and
    /// leaves the fault slot alone, a `Stop` answer stops, and a
    /// `Fault(p)` answer stops with `p` captured into the slot — the
    /// handler's own termination never crosses the engine's native
    /// frames. Returns whether execution must stop.
    pub fn checkpoint(&mut self) -> (stop: bool)
        ensures
            final(self).engine == old(self).engine,
            final(self).allocator == old(self).allocator,
            final(self).loader == old(self).loader,
            (final(self).opaque.handler is Some) == (old(self).opaque.handler is Some),
            old(self).opaque.handler is None ==> !stop && final(self).opaque == old(self).opaque,
            old(self).opaque.handler is Some ==> exists|a: InterruptPoll|
                stop == poll_stop(a) && final(self).opaque.fault == #[trigger] poll_fault(
                    a,
                    old(self).opaque.fault,
                ),
            !stop ==> final(self).opaque.fault == old(self).opaque.fault,
            final(self).opaque.fault != old(self).opaque.fault ==> stop && final(self).opaque.fault is Some,
    {
        let answer: InterruptPoll = match &mut self.opaque.handler {
            None => {
                return false;
            },
            Some(h) => h.poll(),
        };
        let stop = self.opaque.apply_poll(answer);
        proof {
            assert(stop == poll_stop(answer) && self.opaque.fault == poll_fault(
                answer,
                old(self).opaque.fault,
            ));
        }
        stop
    }

    /// Account an allocation of `n` bytes: while a custom allocator is
    /// installed the request goes to it and the engine-side limit has no
    /// effect; otherwise the engine grants the request exactly when the
    /// cap is off or the total stays within it.
    pub fn charge(&mut self, n: usize) -> (ok: bool)
        ensures
            final(self).opaque == old(self).opaque,
            (final(self).allocator is Some) == (old(self).allocator is Some),
            final(self).loader == old(self).loader,
            final(self).engine@ == (EngineView {
                mem_used: final(self).engine@.mem_used,
                ..old(self).engine@
            }),
            ok ==> final(self).engine@.mem_used == sat_add(old(self).engine@.mem_used, n as int),
            !ok ==> final(self).engine@.mem_used == old(self).engine@.mem_used,
            old(self).allocator is None ==> final(self).allocator is None && ok == grant(
                old(self).engine@.mem_limit,
                old(self).engine@.mem_used,
                n as int,
            ),
    {
        let granted: bool = match &mut self.allocator {
            Some(a) => a.allocate(n),
            None => {
                if self.engine.mem_limit == 0 {
                    true
                } else {
                    n <= self.engine.mem_limit && self.engine.mem_used <= self.engine.mem_limit - n
                }
            },
        };
        if granted {
            let used = self.engine.mem_used;
            if n <= usize::MAX - used {
                self.engine.mem_used = used + n;
            } else {
                self.engine.mem_used = usize::MAX;
            }
        }
        proof {
            assert(self.engine@ =~= (EngineView {
                mem_used: self.engine@.mem_used,
                ..old(self).engine@
            }));
        }
        granted
    }

    /// Enqueue a deferred global write, the model's stand-in for jobs
    /// the engine queues internally. A name with an embedded terminator
    /// byte is rejected.
    pub fn enqueue_job(&mut self, ctx: usize, name: Vec<u8>, value: JsValue) -> (r: Result<
        (),
        Error,
    >)
        requires
            ctx < old(self).engine@.contexts.len(),
        ensures
            crate::has_nul(name@) ==> (r matches Err(e) && e@ == crate::ErrorView::Encoding
                && *final(self) == *old(self)),
            !crate::has_nul(name@) ==> r is Ok && final(self).engine@ == (EngineView {
                jobs: old(self).engine@.jobs.push(
                    JobView { ctx: ctx as int, name: name@, value: value@ },
                ),
                ..old(self).engine@
            }) && final(self).allocator == old(self).allocator && final(self).opaque == old(self).opaque,
            engine_wf(old(self).engine@) ==> engine_wf(final(self).engine@),
    {
        if crate::contains_nul(name.as_slice()) {
            return Err(Error::Encoding);
        }
        let ghost jv = JobView { ctx: ctx as int, name: name@, value: value@ };
        self.engine.jobs.push(crate::engine::Job { ctx, name, value });
        proof {
            assert(self.engine@.jobs =~= old(self).engine@.jobs.push(jv));
            assert(self.engine@ =~= (EngineView {
                jobs: old(self).engine@.jobs.push(jv),
                ..old(self).engine@
            }));
        }
        Ok(())
    }

    /// Execute at most one queued job, never blocking: the queue's front
    /// job runs, or nothing runs when the queue is empty. Repeated calls
    /// follow the queue's FIFO order. A job whose allocation is refused
    /// fails, reporting its execution context.
    pub fn execute_pending_job(&mut self) -> (r: JobOutcome)
        requires
            engine_wf(old(self).engine@),
        ensures
            engine_wf(final(self).engine@),
            final(self).opaque == old(self).opaque,
            (final(self).allocator is Some) == (old(self).allocator is Some),
            final(self).loader == old(self).loader,
            old(self).engine@.jobs.len() == 0 ==> r == JobOutcome::NoJobRan && final(self).engine
                == old(self).engine && final(self).allocator == old(self).allocator,
            old(self).engine@.jobs.len() > 0 ==> ({
                let jb = old(self).engine@.jobs[0];
                let cost = val_cost(jb.value);
                &&& final(self).engine@.jobs == old(self).engine@.jobs.drop_first()
                &&& final(self).engine@.modules == old(self).engine@.modules
                &&& r != JobOutcome::NoJobRan
                &&& (r == JobOutcome::JobRan ==> final(self).engine@.contexts == old(self).engine@.contexts.update(
                    jb.ctx,
                    CtxView {
                        globals: old(self).engine@.contexts[jb.ctx].globals.push(
                            (jb.name, jb.value),
                        ),
                    },
                ) && final(self).engine@.mem_used == sat_add(old(self).engine@.mem_used, cost))
                &&& (r matches JobOutcome::JobFailed(c) ==> c as int == jb.ctx && final(self).engine@.contexts == old(self).engine@.contexts && final(self).engine@.mem_used
                    == old(self).engine@.mem_used)
                &&& final(self).engine@.mem_limit == old(self).engine@.mem_limit
                &&& final(self).engine@.gc_threshold == old(self).engine@.gc_threshold
                &&& final(self).engine@.max_stack == old(self).engine@.max_stack
                &&& final(self).engine@.stack_top_fresh == old(self).engine@.stack_top_fresh
                &&& final(self).engine@.info == old(self).engine@.info
                &&& (old(self).allocator is None ==> r == (if grant(
                    old(self).engine@.mem_limit,
                    old(self).engine@.mem_used,
                    cost,
                ) {
                    JobOutcome::JobRan
                } else {
                    JobOutcome::JobFailed(jb.ctx as usize)
                }))
            }),
    {
        if self.engine.jobs.len() == 0 {
            return JobOutcome::NoJobRan;
        }
        let job = self.engine.jobs.remove(0);
        proof {
            assert(self.engine@.jobs =~= old(self).engine@.jobs.drop_first());
            assert(job@ == old(self).engine@.jobs[0]);
        }
        let cost = job.value.cost();
        let ctx = job.ctx;
        if self.charge(cost) {
            let ghost pre = self.engine@;
            self.engine.contexts[ctx].globals.push((job.name, job.value));
            proof {
                assert(crate::engine::tbl_view(self.engine.contexts@[ctx as int].globals@)
                    =~= pre.contexts[ctx as int].globals.push(
                    (old(self).engine@.jobs[0].name, old(self).engine@.jobs[0].value),
                ));
                assert(self.engine@.contexts =~= pre.contexts.update(
                    ctx as int,
                    CtxView {
                        globals: pre.contexts[ctx as int].globals.push(
                            (old(self).engine@.jobs[0].name, old(self).engine@.jobs[0].value),
                        ),
                    },
                ));
                assert(pre.contexts[ctx as int] == old(self).engine@.contexts[ctx as int]);
            }
            proof {
                lemma_job_wf(old(self).engine@, self.engine@);
            }
            JobOutcome::JobRan
        } else {
            proof {
                lemma_job_wf(old(self).engine@, self.engine@);
            }
            JobOutcome::JobFailed(ctx)
        }
    }

    /// Read a binding of an execution context's global table: the value
    /// the latest global write under that name left, if any.
    pub fn global_get(&self, ctx: usize, name: &[u8]) -> (r: Option<JsValue>)
        requires
            ctx < self.engine@.contexts.len(),
        ensures
            match r {
                Some(v) => crate::engine::tbl_get(self.engine@.contexts[ctx as int].globals, name@)
                    == Some(v@),
                None => crate::engine::tbl_get(
                    self.engine@.contexts[ctx as int].globals,
                    name@,
                ) is None,
            },
    {
        proof {
            assert(self.engine@.contexts[ctx as int] == self.engine.contexts@[ctx as int]@);
        }
        crate::engine::tbl_lookup(&self.engine.contexts[ctx].globals, name)
    }

    /// Tear the runtime down: clear the opaque state first, then release
    /// the engine resource — in that order, unconditionally, because the
    /// release can still run finalizers that read the opaque state.
    pub fn teardown(self) {
        let RuntimeHandle { engine, allocator, loader, mut opaque } = self;
        opaque.clear();
        release_engine(engine, &opaque);
        let _ = allocator;
        let _ = loader;
    }
}

} // verus!
