//! Modules: the two-phase compile/evaluate protocol, host-authored
//! modules with declared exports, batch building, and export iteration.
use vstd::prelude::*;

use crate::engine::EngineView;
use crate::engine::CtxView;
use crate::engine::ModulePhase;
use crate::engine::ModuleView;
use crate::engine::engine_wf;
use crate::engine::lemma_find_name_char;
use crate::engine::export_val;
use crate::engine::find_name;
use crate::errors::Error;
use crate::runtime::Allocator;
use crate::runtime::InterruptHandler;
use crate::runtime::Loader;
use crate::runtime::Resolver;
use crate::runtime::RuntimeHandle;
use crate::syntax::views_of_bytes;
use crate::value::JsValue;

verus! {

/// A handle to one module registered with a runtime's engine: the
/// engine-side module definition (an index into the registry) together
/// with the tag of the execution context it was compiled in.
///
/// A handle to an unevaluated module is provisional: any compile or
/// evaluate failure on the same runtime invalidates it, and every
/// operation on a module requires a handle that is still valid.
#[derive(Debug, Clone, Copy, PartialEq, Eq, Structural)]
pub struct Module {
    /// The execution context the module belongs to.
    pub ctx: usize,
    /// The engine-side module definition.
    pub def: usize,
}

/// The handle `m` designates a live module of the engine: the definition
/// exists, carries the handle's context tag, and has not been
/// invalidated.
pub open spec fn module_valid(e: EngineView, m: Module) -> bool {
    &&& 0 <= (m.def as int) < e.modules.len()
    &&& e.modules[m.def as int].ctx == m.ctx as int
    &&& e.modules[m.def as int].phase != ModulePhase::Invalidated
}

/// The engine-side record of the handle `m`.
pub open spec fn module_of(e: EngineView, m: Module) -> ModuleView {
    e.modules[m.def as int]
}

impl Module {
    /// Wrap an engine-side module definition and its context tag.
    pub fn from_module_def(ctx: usize, def: usize) -> (r: Module)
        ensures
            r.ctx == ctx,
            r.def == def,
    {
        Module { ctx, def }
    }

    /// The engine-side module definition.
    pub fn as_module_def(&self) -> (r: usize)
        ensures
            r == self.def,
    {
        self.def
    }

    /// Whether this handle still designates a live module of the
    /// runtime: its definition exists, carries this handle's context
    /// tag, and has not been invalidated by a failure. Callers outside
    /// verified code can test this before any module operation.
    pub fn is_valid<A: Allocator, H: InterruptHandler, R: Resolver, L: Loader>(&self, rt: &RuntimeHandle<A, H, R, L>) -> (r:
        bool)
        ensures
            r == module_valid(rt.engine@, *self),
    {
        if self.def >= rt.engine.modules.len() {
            return false;
        }
        let rec = &rt.engine.modules[self.def];
        rec.ctx == self.ctx && !matches!(rec.phase, ModulePhase::Invalidated)
    }

    /// The module's registered name.
    pub fn name<A: Allocator, H: InterruptHandler, R: Resolver, L: Loader>(&self, rt: &RuntimeHandle<A, H, R, L>) -> (r: Vec<u8>)
        requires
            module_valid(rt.engine@, *self),
        ensures
            r@ == module_of(rt.engine@, *self).name,
    {
        crate::syntax::copy_bytes(&rt.engine.modules[self.def].name)
    }

    /// The module's import-metadata object, for passing contextual data
    /// (such as the module's URL) into script code. The model's metadata
    /// carries the registered name as the URL.
    pub fn meta<A: Allocator, H: InterruptHandler, R: Resolver, L: Loader>(&self, rt: &RuntimeHandle<A, H, R, L>) -> (r:
        MetaObject)
        requires
            module_valid(rt.engine@, *self),
        ensures
            r.url@ == module_of(rt.engine@, *self).name,
    {
        MetaObject { url: crate::syntax::copy_bytes(&rt.engine.modules[self.def].name) }
    }

    /// An exported value, by name, of an evaluated module: the declared
    /// slot's value, `Undefined` for a declared slot never written, an
    /// exception for a name the module does not export, and an encoding
    /// error for a name the engine cannot represent.
    pub fn get<A: Allocator, H: InterruptHandler, R: Resolver, L: Loader>(
        &self,
        rt: &RuntimeHandle<A, H, R, L>,
        name: &[u8],
    ) -> (r: Result<JsValue, Error>)
        requires
            module_valid(rt.engine@, *self),
            module_of(rt.engine@, *self).phase == ModulePhase::Evaluated,
            module_wf_of(rt.engine@, *self),
        ensures
            crate::has_nul(name@) ==> (r matches Err(e) && e@ == crate::ErrorView::Encoding),
            !crate::has_nul(name@) ==> match export_val(module_of(rt.engine@, *self), name@) {
                Some(v) => r matches Ok(val) && val@ == v,
                None => r matches Err(e) && e@ == crate::ErrorView::Exception(name@),
            },
    {
        if crate::contains_nul(name) {
            return Err(Error::Encoding);
        }
        let rec = &rt.engine.modules[self.def];
        match crate::engine::find_name_in(&rec.declared, name) {
            None => {
                let msg = crate::syntax::copy_range(name, 0, name.len());
                proof {
                    assert(msg@ =~= name@);
                }
                Err(Error::Exception(msg))
            },
            Some(i) => {
                proof {
                    assert(find_name(module_of(rt.engine@, *self).declared, name@) == i as int);
                    assert(module_of(rt.engine@, *self) == rec@);
                    assert(module_of(rt.engine@, *self).values[i as int] == (match rec.values@[i as int] {
                        Some(v) => Some(v@),
                        None => None,
                    }));
                }
                match &rec.values[i] {
                    Some(v) => Ok(v.duplicate()),
                    None => Ok(JsValue::Undefined),
                }
            },
        }
    }

    /// An iterator over the module's export names, index-ordered to
    /// match the declaration order; the entry count is snapshotted here.
    pub fn names<A: Allocator, H: InterruptHandler, R: Resolver, L: Loader>(self, rt: &RuntimeHandle<A, H, R, L>) -> (r:
        ExportNamesIter)
        requires
            module_valid(rt.engine@, self),
        ensures
            r.module == self,
            r.count as int == module_of(rt.engine@, self).declared.len(),
            r.index == 0,
    {
        ExportNamesIter {
            module: self,
            count: rt.engine.modules[self.def].declared.len(),
            index: 0,
        }
    }

    /// An iterator over the module's export entries (name and value),
    /// index-ordered; the entry count is snapshotted here.
    pub fn entries<A: Allocator, H: InterruptHandler, R: Resolver, L: Loader>(self, rt: &RuntimeHandle<A, H, R, L>) -> (r:
        ExportEntriesIter)
        requires
            module_valid(rt.engine@, self),
        ensures
            r.module == self,
            r.count as int == module_of(rt.engine@, self).declared.len(),
            r.index == 0,
    {
        ExportEntriesIter {
            module: self,
            count: rt.engine.modules[self.def].declared.len(),
            index: 0,
        }
    }
}

/// The record of `m` satisfies the engine's per-module well-formedness.
pub open spec fn module_wf_of(e: EngineView, m: Module) -> bool {
    crate::engine::module_wf(module_of(e, m), e.contexts.len() as int)
}

/// A module's import-metadata object.
#[derive(Debug, Clone, PartialEq, Eq)]
pub struct MetaObject {
    /// The module's URL; the model uses the registered name.
    pub url: Vec<u8>,
}

/// A finite, non-restartable, index-ordered traversal of a module's
/// export names. The count is snapshotted at construction: the module's
/// export table must not change while the iterator is driven.
#[derive(Debug, Clone, Copy)]
pub struct ExportNamesIter {
    /// The module traversed.
    pub module: Module,
    /// The snapshotted entry count.
    pub count: usize,
    /// The next index to yield.
    pub index: usize,
}

impl ExportNamesIter {
    /// Yield the next export name, in declaration order.
    pub fn next<A: Allocator, H: InterruptHandler, R: Resolver, L: Loader>(&mut self, rt: &RuntimeHandle<A, H, R, L>) -> (r:
        Option<Vec<u8>>)
        requires
            module_valid(rt.engine@, old(self).module),
            old(self).count as int == module_of(rt.engine@, old(self).module).declared.len(),
        ensures
            final(self).module == old(self).module,
            final(self).count == old(self).count,
            old(self).index >= old(self).count ==> r is None && final(self).index == old(
                self,
            ).index,
            old(self).index < old(self).count ==> (r matches Some(n) && n@ == module_of(
                rt.engine@,
                old(self).module,
            ).declared[old(self).index as int] && final(self).index == old(self).index + 1),
    {
        if self.index >= self.count {
            return None;
        }
        let i = self.index;
        self.index = i + 1;
        Some(crate::syntax::copy_bytes(&rt.engine.modules[self.module.def].declared[i]))
    }
}

/// A finite, non-restartable, index-ordered traversal of a module's
/// export entries. The count is snapshotted at construction.
#[derive(Debug, Clone, Copy)]
pub struct ExportEntriesIter {
    /// The module traversed.
    pub module: Module,
    /// The snapshotted entry count.
    pub count: usize,
    /// The next index to yield.
    pub index: usize,
}

impl ExportEntriesIter {
    /// Yield the next export entry, in declaration order; an unwritten
    /// slot reads as `Undefined`.
    pub fn next<A: Allocator, H: InterruptHandler, R: Resolver, L: Loader>(&mut self, rt: &RuntimeHandle<A, H, R, L>) -> (r:
        Option<(Vec<u8>, JsValue)>)
        requires
            module_valid(rt.engine@, old(self).module),
            module_wf_of(rt.engine@, old(self).module),
            old(self).count as int == module_of(rt.engine@, old(self).module).declared.len(),
        ensures
            final(self).module == old(self).module,
            final(self).count == old(self).count,
            old(self).index >= old(self).count ==> r is None && final(self).index == old(
                self,
            ).index,
            old(self).index < old(self).count ==> (r matches Some(p) && p.0@ == module_of(
                rt.engine@,
                old(self).module,
            ).declared[old(self).index as int] && Some(p.1@) == (match module_of(
                rt.engine@,
                old(self).module,
            ).values[old(self).index as int] {
                Some(v) => Some(v),
                None => Some(crate::value::ValView::Undefined),
            }) && final(self).index == old(self).index + 1),
    {
        if self.index >= self.count {
            return None;
        }
        let i = self.index;
        self.index = i + 1;
        let rec = &rt.engine.modules[self.module.def];
        let name = crate::syntax::copy_bytes(&rec.declared[i]);
        let value = match &rec.values[i] {
            Some(v) => v.duplicate(),
            None => JsValue::Undefined,
        };
        Some((name, value))
    }
}

/// The declared export names of a host-authored module, collected before
/// the module is created. Declaration is idempotent: duplicates
/// collapse (set semantics).
#[derive(Debug)]
pub struct Definitions {
    /// The declared names, in first-declaration order, without
    /// duplicates or embedded terminator bytes.
    pub names: Vec<Vec<u8>>,
}

impl Definitions {
    /// The declared names hold no embedded terminator bytes and no
    /// duplicates.
    pub open spec fn wf(&self) -> bool {
        &&& forall|i: int|
            0 <= i < self.names@.len() ==> !crate::has_nul(#[trigger] views_of_bytes(self.names@)[i])
        &&& forall|i: int, j: int|
            0 <= i < j < self.names@.len() ==> views_of_bytes(self.names@)[i] != views_of_bytes(
                self.names@,
            )[j]
    }

    /// An empty declaration set.
    pub fn new() -> (r: Definitions)
        ensures
            r.names@.len() == 0,
            r.wf(),
    {
        Definitions { names: Vec::new() }
    }

    /// Declare an export name. Idempotent under duplicate declaration; a
    /// name with an embedded terminator byte is rejected.
    pub fn define(&mut self, name: Vec<u8>) -> (r: Result<(), Error>)
        ensures
            crate::has_nul(name@) ==> (r matches Err(e) && e@ == crate::ErrorView::Encoding
                && *final(self) == *old(self)),
            !crate::has_nul(name@) ==> r is Ok && views_of_bytes(final(self).names@) == (if views_of_bytes(
                old(self).names@,
            ).contains(name@) {
                views_of_bytes(old(self).names@)
            } else {
                views_of_bytes(old(self).names@).push(name@)
            }),
            old(self).wf() ==> final(self).wf(),
    {
        if crate::contains_nul(name.as_slice()) {
            return Err(Error::Encoding);
        }
        if crate::syntax::contains_bytes(&self.names, name.as_slice()) {
            return Ok(());
        }
        let ghost oldv = views_of_bytes(self.names@);
        self.names.push(name);
        proof {
            assert(views_of_bytes(self.names@) =~= oldv.push(self.names@.last()@));
            if old(self).wf() {
                assert forall|i: int|
                    0 <= i < self.names@.len() implies !crate::has_nul(
                    #[trigger] views_of_bytes(self.names@)[i],
                ) by {
                    if i < oldv.len() {
                        assert(views_of_bytes(self.names@)[i] == oldv[i]);
                    }
                }
                assert forall|i: int, j: int|
                    0 <= i < j < self.names@.len() implies views_of_bytes(self.names@)[i]
                    != views_of_bytes(self.names@)[j] by {
                    if j < oldv.len() {
                        assert(views_of_bytes(self.names@)[i] == oldv[i]);
                        assert(views_of_bytes(self.names@)[j] == oldv[j]);
                    } else {
                        assert(views_of_bytes(self.names@)[j] == self.names@.last()@);
                        assert(views_of_bytes(self.names@)[i] == oldv[i]);
                        assert(!oldv.contains(self.names@.last()@));
                    }
                }
            }
        }
        Ok(())
    }

    /// Declare an export name given as a borrowed static string.
    pub fn define_static(&mut self, name: &'static [u8]) -> (r: Result<(), Error>)
        ensures
            crate::has_nul(name@) ==> (r matches Err(e) && e@ == crate::ErrorView::Encoding
                && *final(self) == *old(self)),
            !crate::has_nul(name@) ==> r is Ok && views_of_bytes(final(self).names@) == (if views_of_bytes(
                old(self).names@,
            ).contains(name@) {
                views_of_bytes(old(self).names@)
            } else {
                views_of_bytes(old(self).names@).push(name@)
            }),
            old(self).wf() ==> final(self).wf(),
    {
        let c = crate::syntax::copy_range(name, 0, name.len());
        proof {
            assert(c@ =~= name@);
        }
        self.define(c)
    }
}

/// The export values a host-authored module supplies from its
/// instantiation callback; applied exactly once, when the module is
/// created.
#[derive(Debug)]
pub struct Exports {
    /// The supplied entries, in supply order; names hold no embedded
    /// terminator bytes.
    pub entries: Vec<(Vec<u8>, JsValue)>,
}

impl Exports {
    /// All supplied names are representable.
    pub open spec fn wf(&self) -> bool {
        forall|i: int|
            0 <= i < self.entries@.len() ==> !crate::has_nul(
                (#[trigger] crate::engine::tbl_view(self.entries@)[i]).0,
            )
    }

    /// An empty export set.
    pub fn new() -> (r: Exports)
        ensures
            r.entries@.len() == 0,
            r.wf(),
    {
        Exports { entries: Vec::new() }
    }

    /// Supply the value bound to a declared name. A name with an
    /// embedded terminator byte is rejected.
    pub fn export(&mut self, name: Vec<u8>, value: JsValue) -> (r: Result<(), Error>)
        ensures
            crate::has_nul(name@) ==> (r matches Err(e) && e@ == crate::ErrorView::Encoding
                && *final(self) == *old(self)),
            !crate::has_nul(name@) ==> r is Ok && crate::engine::tbl_view(final(self).entries@)
                == crate::engine::tbl_view(old(self).entries@).push((name@, value@)),
            old(self).wf() ==> final(self).wf(),
    {
        if crate::contains_nul(name.as_slice()) {
            return Err(Error::Encoding);
        }
        let ghost oldv = crate::engine::tbl_view(self.entries@);
        let ghost nv = name@;
        let ghost vv = value@;
        self.entries.push((name, value));
        proof {
            assert(crate::engine::tbl_view(self.entries@) =~= oldv.push((nv, vv)));
            if old(self).wf() {
                assert forall|i: int|
                    0 <= i < self.entries@.len() implies !crate::has_nul(
                    (#[trigger] crate::engine::tbl_view(self.entries@)[i]).0,
                ) by {
                    if i < oldv.len() {
                        assert(crate::engine::tbl_view(self.entries@)[i] == oldv[i]);
                    }
                }
            }
        }
        Ok(())
    }

    /// Supply the value bound to a declared name; same contract as
    /// [`Exports::export`].
    pub fn export_value(&mut self, name: Vec<u8>, value: JsValue) -> (r: Result<(), Error>)
        ensures
            crate::has_nul(name@) ==> (r matches Err(e) && e@ == crate::ErrorView::Encoding
                && *final(self) == *old(self)),
            !crate::has_nul(name@) ==> r is Ok && crate::engine::tbl_view(final(self).entries@)
                == crate::engine::tbl_view(old(self).entries@).push((name@, value@)),
            old(self).wf() ==> final(self).wf(),
    {
        self.export(name, value)
    }
}


impl Module {
    /// Create a host-authored module: write the declared names onto the
    /// engine's export table, apply the supplied exports exactly once,
    /// and register the module unevaluated. An export whose name was
    /// never declared fails the whole creation with an allocation-class
    /// error, as does a refused allocation; either failure invalidates
    /// every unevaluated module of the runtime.
    pub fn define_native<A: Allocator, H: InterruptHandler, R: Resolver, L: Loader>(
        rt: &mut RuntimeHandle<A, H, R, L>,
        ctx: usize,
        name: Vec<u8>,
        defs: Definitions,
        exports: Exports,
    ) -> (r: Result<Module, Error>)
        requires
            engine_wf(old(rt).engine@),
            ctx < old(rt).engine@.contexts.len(),
        ensures
            engine_wf(final(rt).engine@),
            final(rt).opaque == old(rt).opaque,
            (final(rt).allocator is Some) == (old(rt).allocator is Some),
            final(rt).loader == old(rt).loader,
            same_runtime_config(final(rt).engine@, old(rt).engine@),
            final(rt).engine@.contexts == old(rt).engine@.contexts,
            crate::has_nul(name@) ==> (r matches Err(e) && e@ == crate::ErrorView::Encoding
                && final(rt).engine == old(rt).engine),
            r matches Ok(m) ==> !crate::has_nul(name@) && m.ctx == ctx && m.def == old(rt).engine@.modules.len() && final(rt).engine@.modules == old(rt).engine@.modules.push(
                native_module(
                    name@,
                    ctx as int,
                    views_of_bytes(defs.names@),
                    crate::engine::tbl_view(exports.entries@),
                ),
            ) && first_undeclared(
                views_of_bytes(defs.names@),
                crate::engine::tbl_view(exports.entries@),
            ) == -1 && final(rt).engine@.mem_used == crate::engine::sat_add(
                old(rt).engine@.mem_used,
                native_cost(
                    name@,
                    views_of_bytes(defs.names@),
                    crate::engine::tbl_view(exports.entries@),
                ),
            ),
            (r matches Err(e) && e@ == crate::ErrorView::Allocation) ==> final(rt).engine@.modules
                == crate::engine::invalidate_engine(old(rt).engine@).modules,
            r is Err ==> (forall|i: int|
                0 <= i < old(rt).engine@.modules.len() ==> (((
                #[trigger] final(rt).engine@.modules[i]).phase == ModulePhase::Evaluated
                    <==> old(rt).engine@.modules[i].phase == ModulePhase::Evaluated) && (old(rt).engine@.modules[i].phase == ModulePhase::Evaluated ==> final(rt).engine@.modules[i]
                    == old(rt).engine@.modules[i]))),
            !crate::has_nul(name@) ==> match r {
                Err(e) => e@ == crate::ErrorView::Allocation,
                Ok(_) => true,
            },
            old(rt).allocator is None ==> (r is Ok <==> (!crate::has_nul(name@)
                && crate::engine::grant(
                old(rt).engine@.mem_limit,
                old(rt).engine@.mem_used,
                native_cost(
                    name@,
                    views_of_bytes(defs.names@),
                    crate::engine::tbl_view(exports.entries@),
                ),
            ) && first_undeclared(
                views_of_bytes(defs.names@),
                crate::engine::tbl_view(exports.entries@),
            ) == -1)),
    {
        if crate::contains_nul(name.as_slice()) {
            return Err(Error::Encoding);
        }
        let ghost dv = views_of_bytes(defs.names@);
        let ghost ev = crate::engine::tbl_view(exports.entries@);
        let ghost e0 = rt.engine@;
        let mut total: usize = name.len();
        let nd = defs.names.len();
        proof {
            assert(dv.skip(0) =~= dv);
        }
        let mut i: usize = 0;
        while i < nd
            invariant
                i <= nd,
                nd == defs.names@.len(),
                dv == views_of_bytes(defs.names@),
                sat_sum_names(dv, name@.len() as int) == sat_sum_names(dv.skip(i as int), total as int),
            decreases nd - i,
        {
            proof {
                assert(dv.skip(i as int)[0] == dv[i as int]);
                assert(dv.skip(i as int).drop_first() =~= dv.skip(i as int + 1));
                assert(dv[i as int].len() == defs.names@[i as int]@.len());
            }
            let x = defs.names[i].len();
            if x <= usize::MAX - total {
                total = total + x;
            } else {
                total = usize::MAX;
            }
            i += 1;
        }
        proof {
            assert(dv.skip(nd as int).len() == 0);
        }
        let ne = exports.entries.len();
        proof {
            assert(ev.skip(0) =~= ev);
        }
        let mut k: usize = 0;
        while k < ne
            invariant
                k <= ne,
                ne == exports.entries@.len(),
                ev == crate::engine::tbl_view(exports.entries@),
                sat_sum_costs(ev, sat_sum_names(dv, name@.len() as int)) == sat_sum_costs(
                    ev.skip(k as int),
                    total as int,
                ),
            decreases ne - k,
        {
            proof {
                assert(ev.skip(k as int)[0] == ev[k as int]);
                assert(ev.skip(k as int).drop_first() =~= ev.skip(k as int + 1));
            }
            let x = exports.entries[k].1.cost();
            if x <= usize::MAX - total {
                total = total + x;
            } else {
                total = usize::MAX;
            }
            k += 1;
        }
        proof {
            assert(ev.skip(ne as int).len() == 0);
            assert(total as int == native_cost(name@, dv, ev));
        }
        if !rt.charge(total) {
            proof {
                crate::engine::lemma_invalidate_wf(rt.engine@);
                crate::engine::lemma_invalidate_phases(rt.engine@);
            }
            rt.engine.invalidate_unevaluated();
            return Err(Error::Allocation);
        }
        let ndecl = defs.names.len();
        let mut values: Vec<Option<JsValue>> = Vec::new();
        let mut q: usize = 0;
        while q < ndecl
            invariant
                values@.len() == q,
                q <= ndecl,
                forall|z: int| 0 <= z < q ==> values@[z] is None,
                e0 == old(rt).engine@,
                engine_wf(e0),
                engine_wf(rt.engine@),
                rt.opaque == old(rt).opaque,
                (rt.allocator is Some) == (old(rt).allocator is Some),
                rt.engine@ == (EngineView { mem_used: rt.engine@.mem_used, ..e0 }),
                rt.engine@.modules == e0.modules,
                rt.engine@.mem_used == crate::engine::sat_add(e0.mem_used, native_cost(name@, dv, ev)),
                !crate::has_nul(name@),
            decreases ndecl - q,
        {
            values.push(None);
            q += 1;
        }
        proof {
            assert(crate::engine::views_of_vals(values@) =~= applied_values(dv, ev.take(0)));
        }
        let mut k2: usize = 0;
        while k2 < ne
            invariant
                k2 <= ne,
                ne == exports.entries@.len(),
                ndecl == defs.names@.len(),
                dv == views_of_bytes(defs.names@),
                ev == crate::engine::tbl_view(exports.entries@),
                values@.len() == ndecl,
                crate::engine::views_of_vals(values@) == applied_values(dv, ev.take(k2 as int)),
                forall|z: int| 0 <= z < k2 ==> find_name(dv, (#[trigger] ev[z]).0) >= 0,
                e0 == old(rt).engine@,
                engine_wf(e0),
                engine_wf(rt.engine@),
                rt.opaque == old(rt).opaque,
                (rt.allocator is Some) == (old(rt).allocator is Some),
                rt.engine@ == (EngineView { mem_used: rt.engine@.mem_used, ..e0 }),
                rt.engine@.modules == e0.modules,
                rt.engine@.mem_used == crate::engine::sat_add(e0.mem_used, native_cost(name@, dv, ev)),
                !crate::has_nul(name@),
                rt.loader == old(rt).loader,
            decreases ne - k2,
        {
            let ghost pre_vals = crate::engine::views_of_vals(values@);
            match crate::engine::find_name_in(&defs.names, exports.entries[k2].0.as_slice()) {
                None => {
                    proof {
                        lemma_first_undeclared_char(dv, ev);
                        assert(ev[k2 as int].0 == exports.entries@[k2 as int].0@);
                        let u = first_undeclared(dv, ev);
                        if u == -1 {
                            assert(find_name(dv, ev[k2 as int].0) >= 0);
                            assert(false);
                        }
                        crate::engine::lemma_invalidate_wf(rt.engine@);
                        crate::engine::lemma_invalidate_phases(rt.engine@);
                        crate::engine::lemma_invalidate_phases(e0);
                    }
                    rt.engine.invalidate_unevaluated();
                    return Err(Error::Allocation);
                },
                Some(idx) => {
                    proof {
                        lemma_applied_len(dv, ev.take(k2 as int));
                        lemma_find_name_char(dv, ev[k2 as int].0);
                        assert(ev[k2 as int].0 == exports.entries@[k2 as int].0@);
                        assert((idx as int) < dv.len());
                    }
                    let v = exports.entries[k2].1.duplicate();
                    values[idx] = Some(v);
                    proof {
                        assert(ev.take(k2 as int + 1).drop_last() =~= ev.take(k2 as int));
                        assert(ev.take(k2 as int + 1).last() == ev[k2 as int]);
                        assert(crate::engine::views_of_vals(values@) =~= pre_vals.update(
                            idx as int,
                            Some(ev[k2 as int].1),
                        ));
                        assert(crate::engine::views_of_vals(values@) =~= applied_values(
                            dv,
                            ev.take(k2 as int + 1),
                        ));
                    }
                },
            }
            k2 += 1;
        }
        proof {
            assert(ev.take(ne as int) =~= ev);
            lemma_first_undeclared_char(dv, ev);
            if first_undeclared(dv, ev) != -1 {
                assert(find_name(dv, ev[first_undeclared(dv, ev)].0) >= 0);
                assert(false);
            }
        }
        let def = rt.engine.modules.len();
        let ghost name_v = name@;
        let rec = crate::engine::ModuleRecord {
            name,
            ctx,
            native: true,
            phase: ModulePhase::Unevaluated,
            imports: Vec::new(),
            declared: defs.names,
            values,
            body: Vec::new(),
        };
        proof {
            assert(rec@.imports =~= Seq::<crate::syntax::ImportView>::empty());
            assert(rec@.body =~= Seq::<crate::syntax::StmtView>::empty());
            assert(rec@.declared =~= dv);
            assert(rec@ =~= native_module(name_v, ctx as int, dv, ev));
        }
        let ghost pre = rt.engine@;
        rt.engine.modules.push(rec);
        proof {
            assert(rt.engine@.modules =~= pre.modules.push(native_module(name_v, ctx as int, dv, ev)));
            lemma_applied_len(dv, ev);
            assert forall|z: int| 0 <= z < rt.engine@.modules.len() implies
                crate::engine::module_wf(
                #[trigger] rt.engine@.modules[z],
                rt.engine@.contexts.len() as int,
            ) by {
                if z < pre.modules.len() {
                    assert(rt.engine@.modules[z] == pre.modules[z]);
                    assert(crate::engine::module_wf(pre.modules[z], pre.contexts.len() as int));
                }
            }
        }
        Ok(Module { ctx, def })
    }

    /// Create a host-authored module from a [`ModuleDef`]: collect its
    /// declarations, run its instantiation callback, and register the
    /// module unevaluated. An error from the callback is converted to an
    /// engine-level exception and reported to the engine as failure; an
    /// error from the declaration step aborts before the engine is
    /// involved.
    pub fn unsafe_define_def<D: ModuleDef, A: Allocator, H: InterruptHandler, R: Resolver, L: Loader>(
        rt: &mut RuntimeHandle<A, H, R, L>,
        ctx: usize,
        name: Vec<u8>,
    ) -> (r: Result<Module, Error>)
        requires
            engine_wf(old(rt).engine@),
            ctx < old(rt).engine@.contexts.len(),
        ensures
            engine_wf(final(rt).engine@),
            (final(rt).allocator is Some) == (old(rt).allocator is Some),
            final(rt).opaque == old(rt).opaque,
            same_runtime_config(final(rt).engine@, old(rt).engine@),
            final(rt).engine@.contexts == old(rt).engine@.contexts,
            crate::has_nul(name@) ==> (r matches Err(e) && e@ == crate::ErrorView::Encoding
                && final(rt).engine == old(rt).engine),
            r matches Ok(m) ==> m.ctx == ctx && m.def == old(rt).engine@.modules.len() && final(rt).engine@.modules.len() == old(rt).engine@.modules.len() + 1 && (forall|i: int|
                0 <= i < old(rt).engine@.modules.len() ==> #[trigger] final(rt).engine@.modules[i]
                    == old(rt).engine@.modules[i]) && module_valid(final(rt).engine@, m)
                && module_of(final(rt).engine@, m).native && module_of(final(rt).engine@, m).phase
                == ModulePhase::Unevaluated && module_of(final(rt).engine@, m).name == name@,
            r is Err ==> (forall|i: int|
                0 <= i < old(rt).engine@.modules.len() ==> (((
                #[trigger] final(rt).engine@.modules[i]).phase == ModulePhase::Evaluated
                    <==> old(rt).engine@.modules[i].phase == ModulePhase::Evaluated) && (old(rt).engine@.modules[i].phase == ModulePhase::Evaluated ==> final(rt).engine@.modules[i]
                    == old(rt).engine@.modules[i]))),
            r is Err ==> final(rt).engine@.modules.len() == old(rt).engine@.modules.len(),
    {
        if crate::contains_nul(name.as_slice()) {
            return Err(Error::Encoding);
        }
        let mut defs = Definitions::new();
        match D::define(&mut defs) {
            Err(e) => {
                return Err(e);
            },
            Ok(()) => {},
        }
        let mut ex = Exports::new();
        match D::export(&mut ex) {
            Err(_) => {
                proof {
                    crate::engine::lemma_invalidate_wf(rt.engine@);
                    crate::engine::lemma_invalidate_phases(rt.engine@);
                }
                rt.engine.invalidate_unevaluated();
                return Err(Error::Exception(Vec::new()));
            },
            Ok(()) => {},
        }
        Self::define_native(rt, ctx, name, defs, ex)
    }

    /// Register a host-authored module without returning a handle: for
    /// modules that script code will import.
    pub fn define_def<D: ModuleDef, A: Allocator, H: InterruptHandler, R: Resolver, L: Loader>(
        rt: &mut RuntimeHandle<A, H, R, L>,
        ctx: usize,
        name: Vec<u8>,
    ) -> (r: Result<(), Error>)
        requires
            engine_wf(old(rt).engine@),
            ctx < old(rt).engine@.contexts.len(),
        ensures
            engine_wf(final(rt).engine@),
            (final(rt).allocator is Some) == (old(rt).allocator is Some),
            final(rt).opaque == old(rt).opaque,
            same_runtime_config(final(rt).engine@, old(rt).engine@),
            final(rt).engine@.contexts == old(rt).engine@.contexts,
            r is Ok ==> final(rt).engine@.modules.len() == old(rt).engine@.modules.len() + 1
                && module_of(
                final(rt).engine@,
                Module { ctx, def: old(rt).engine@.modules.len() as usize },
            ).native,
            crate::has_nul(name@) ==> (r matches Err(e) && e@ == crate::ErrorView::Encoding
                && final(rt).engine == old(rt).engine),
            r is Err ==> final(rt).engine@.modules.len() == old(rt).engine@.modules.len() && (
            forall|i: int|
                0 <= i < old(rt).engine@.modules.len() ==> (((
                #[trigger] final(rt).engine@.modules[i]).phase == ModulePhase::Evaluated
                    <==> old(rt).engine@.modules[i].phase == ModulePhase::Evaluated) && (old(
                    rt,
                ).engine@.modules[i].phase == ModulePhase::Evaluated ==> final(rt).engine@.modules[i]
                    == old(rt).engine@.modules[i]))),
    {
        match Self::unsafe_define_def::<D, A, H, R, L>(rt, ctx, name) {
            Ok(m) => {
                proof {
                    assert(m.def == old(rt).engine@.modules.len());
                }
                Ok(())
            },
            Err(e) => Err(e),
        }
    }

    /// Register a host-authored module and evaluate it at once.
    pub fn instanciate_def<D: ModuleDef, A: Allocator, H: InterruptHandler, R: Resolver, L: Loader>(
        rt: &mut RuntimeHandle<A, H, R, L>,
        ctx: usize,
        name: Vec<u8>,
    ) -> (r: Result<Module, Error>)
        requires
            engine_wf(old(rt).engine@),
            ctx < old(rt).engine@.contexts.len(),
        ensures
            engine_wf(final(rt).engine@),
            (final(rt).allocator is Some) == (old(rt).allocator is Some),
            final(rt).engine@.contexts.len() == old(rt).engine@.contexts.len(),
            r matches Ok(m) ==> m.ctx == ctx && m.def == old(rt).engine@.modules.len()
                && module_valid(final(rt).engine@, m) && module_of(final(rt).engine@, m).phase
                == ModulePhase::Evaluated && module_of(final(rt).engine@, m).name == name@
                && module_of(final(rt).engine@, m).native,
            crate::has_nul(name@) ==> (r matches Err(e) && e@ == crate::ErrorView::Encoding
                && final(rt).engine == old(rt).engine),
            (final(rt).opaque.handler is Some) == (old(rt).opaque.handler is Some),
            same_runtime_config(final(rt).engine@, old(rt).engine@),
            r is Err ==> forall|i: int|
                0 <= i < old(rt).engine@.modules.len() ==> (((
                #[trigger] final(rt).engine@.modules[i]).phase == ModulePhase::Evaluated
                    <==> old(rt).engine@.modules[i].phase == ModulePhase::Evaluated) && (old(
                    rt,
                ).engine@.modules[i].phase == ModulePhase::Evaluated ==> final(rt).engine@.modules[i]
                    == old(rt).engine@.modules[i])),
    {
        let m = Self::unsafe_define_def::<D, A, H, R, L>(rt, ctx, name)?;
        let ghost e1 = rt.engine@;
        match m.eval(rt) {
            Ok(()) => {
                proof {
                    assert(module_of(e1, m).native);
                }
                Ok(m)
            },
            Err(e) => Err(e),
        }
    }
}


/// The module record that compiling `p` under `name` in context `ctx`
/// registers: unevaluated, with one unwritten slot per declared export.
pub open spec fn compiled_module(name: Seq<u8>, ctx: int, p: crate::syntax::ProgramView) -> ModuleView {
    ModuleView {
        name: name,
        ctx: ctx,
        native: false,
        phase: ModulePhase::Unevaluated,
        imports: p.imports,
        declared: p.declared,
        values: Seq::new(p.declared.len(), |i: int| None),
        body: p.body,
    }
}

/// What compiling one named source does to the engine, under the
/// engine's own allocator: the module registered and the source bytes
/// charged, or the error — an unrepresentable name, a refused
/// allocation, or a source outside the grammar, in that order.
pub open spec fn compile_step(
    e: EngineView,
    ctx: int,
    name: Seq<u8>,
    source: Seq<u8>,
) -> Result<EngineView, crate::ErrorView> {
    if crate::has_nul(name) {
        Err(crate::ErrorView::Encoding)
    } else if !crate::engine::grant(e.mem_limit, e.mem_used, source.len() as int) {
        Err(crate::ErrorView::Allocation)
    } else {
        match crate::syntax::spec_parse(source) {
            None => Err(crate::ErrorView::Exception(Seq::empty())),
            Some(p) => Ok(
                EngineView {
                    modules: e.modules.push(compiled_module(name, ctx, p)),
                    mem_used: crate::engine::sat_add(e.mem_used, source.len() as int),
                    ..e
                },
            ),
        }
    }
}

/// What evaluating the unevaluated module at `mid` does to the engine,
/// under the engine's own allocator with no interrupt handler installed:
/// the linked and fully run module, or the first error its resolution or
/// its body produces.
pub open spec fn eval_step(e: EngineView, mid: int) -> Result<EngineView, crate::ErrorView> {
    let mv = e.modules[mid];
    if mv.native {
        Ok(
            EngineView {
                modules: e.modules.update(mid, ModuleView { phase: ModulePhase::Evaluated, ..mv }),
                ..e
            },
        )
    } else {
        let bad = crate::engine::first_bad_import(e.modules, mv.imports);
        if bad >= 0 {
            Err(crate::ErrorView::Exception(crate::engine::bad_import_msg(e.modules, mv.imports[bad])))
        } else {
            match crate::engine::run_stmts(
                mv.body,
                crate::engine::env_of(e.modules, mv.imports),
                crate::engine::state_of(e, mid),
                e.mem_limit,
            ) {
                crate::engine::EvalOut::Done(st) => Ok(
                    crate::engine::apply_eval(e, mid, st, ModulePhase::Evaluated),
                ),
                crate::engine::EvalOut::Fail(_, k) => Err(k),
            }
        }
    }
}

/// The engine parts a compile or evaluate call never touches.
pub open spec fn same_runtime_config(a: EngineView, b: EngineView) -> bool {
    &&& a.jobs == b.jobs
    &&& a.mem_limit == b.mem_limit
    &&& a.gc_threshold == b.gc_threshold
    &&& a.max_stack == b.max_stack
    &&& a.stack_top_fresh == b.stack_top_fresh
    &&& a.info == b.info
}

impl Module {
    /// Compile `source` as a module named `name`, registering it without
    /// evaluating it. The returned handle is provisional: it becomes
    /// invalid on any later compile or evaluate failure on this runtime.
    ///
    /// A name with an embedded terminator byte is rejected as an
    /// encoding error before the engine is involved; an engine-side
    /// failure (allocation refused, source outside the grammar)
    /// invalidates every unevaluated module of the runtime.
    pub fn unsafe_define<A: Allocator, H: InterruptHandler, R: Resolver, L: Loader>(
        rt: &mut RuntimeHandle<A, H, R, L>,
        ctx: usize,
        name: Vec<u8>,
        source: Vec<u8>,
    ) -> (r: Result<Module, Error>)
        requires
            engine_wf(old(rt).engine@),
            ctx < old(rt).engine@.contexts.len(),
        ensures
            engine_wf(final(rt).engine@),
            final(rt).opaque == old(rt).opaque,
            (final(rt).allocator is Some) == (old(rt).allocator is Some),
            final(rt).loader == old(rt).loader,
            same_runtime_config(final(rt).engine@, old(rt).engine@),
            final(rt).engine@.contexts == old(rt).engine@.contexts,
            crate::has_nul(name@) ==> (r matches Err(e) && e@ == crate::ErrorView::Encoding
                && final(rt).engine == old(rt).engine),
            r matches Ok(m) ==> !crate::has_nul(name@) && m.ctx == ctx && m.def == old(rt).engine@.modules.len() && (crate::syntax::spec_parse(source@) matches Some(p)
                && final(rt).engine@.modules == old(rt).engine@.modules.push(
                compiled_module(name@, ctx as int, p),
            )) && final(rt).engine@.mem_used == crate::engine::sat_add(
                old(rt).engine@.mem_used,
                source@.len() as int,
            ),
            match r {
                Ok(_) => true,
                Err(e) => {
                    &&& (e@ is Encoding || e@ == crate::ErrorView::Allocation || e@ is Exception)
                    &&& (e@ is Encoding ==> crate::has_nul(name@) && final(rt).engine == old(
                        rt,
                    ).engine)
                    &&& (e@ == crate::ErrorView::Allocation ==> final(rt).engine@.modules
                        == crate::engine::invalidate_engine(old(rt).engine@).modules
                        && final(rt).engine@.mem_used == old(rt).engine@.mem_used)
                    &&& (e@ is Exception ==> crate::syntax::spec_parse(source@) is None && e@
                        == crate::ErrorView::Exception(Seq::<u8>::empty())
                        && final(rt).engine@.modules == crate::engine::invalidate_engine(
                        old(rt).engine@,
                    ).modules && final(rt).engine@.mem_used == crate::engine::sat_add(
                        old(rt).engine@.mem_used,
                        source@.len() as int,
                    ))
                },
            },
            old(rt).allocator is None ==> (r is Ok <==> (!crate::has_nul(name@)
                && crate::engine::grant(
                old(rt).engine@.mem_limit,
                old(rt).engine@.mem_used,
                source@.len() as int,
            ) && crate::syntax::spec_parse(source@) is Some)),
            (old(rt).allocator is None && !crate::has_nul(name@) && crate::engine::grant(
                old(rt).engine@.mem_limit,
                old(rt).engine@.mem_used,
                source@.len() as int,
            )) ==> !(r matches Err(e) && e@ == crate::ErrorView::Allocation),
            (old(rt).allocator is None && !crate::has_nul(name@) && !crate::engine::grant(
                old(rt).engine@.mem_limit,
                old(rt).engine@.mem_used,
                source@.len() as int,
            )) ==> (r matches Err(e) && e@ == crate::ErrorView::Allocation),
            old(rt).allocator is None ==> match compile_step(
                old(rt).engine@,
                ctx as int,
                name@,
                source@,
            ) {
                Ok(e2) => r is Ok && final(rt).engine@ == e2,
                Err(k) => r matches Err(e) && e@ == k,
            },
    {
        if crate::contains_nul(name.as_slice()) {
            return Err(Error::Encoding);
        }
        let src_len = source.len();
        if !rt.charge(src_len) {
            rt.engine.invalidate_unevaluated();
            return Err(Error::Allocation);
        }
        match crate::syntax::parse_program(source.as_slice()) {
            Err(()) => {
                rt.engine.invalidate_unevaluated();
                return Err(Error::Exception(Vec::new()));
            },
            Ok(p) => {
                let ghost pv = p@;
                let ghost name_v = name@;
                let def = rt.engine.modules.len();
                let ndecl = p.declared.len();
                let mut values: Vec<Option<JsValue>> = Vec::new();
                let mut i: usize = 0;
                while i < ndecl
                    invariant
                        values@.len() == i,
                        i <= ndecl,
                        forall|q: int| 0 <= q < i ==> values@[q] is None,
                    decreases ndecl - i,
                {
                    values.push(None);
                    i += 1;
                }
                let rec = crate::engine::ModuleRecord {
                    name,
                    ctx,
                    native: false,
                    phase: ModulePhase::Unevaluated,
                    imports: p.imports,
                    declared: p.declared,
                    values,
                    body: p.body,
                };
                proof {
                    crate::syntax::lemma_parse_slots(source@);
                    assert(rec@.declared =~= pv.declared);
                    assert(rec@.imports =~= pv.imports);
                    assert(rec@.body =~= pv.body);
                    assert(rec@.values =~= Seq::new(pv.declared.len(), |q: int| None::<
                        crate::value::ValView,
                    >));
                    assert(rec@ =~= compiled_module(name_v, ctx as int, pv));
                }
                let ghost pre = rt.engine@;
                rt.engine.modules.push(rec);
                proof {
                    assert(rt.engine@.modules =~= pre.modules.push(
                        compiled_module(name_v, ctx as int, pv),
                    ));
                    assert(pre.modules == old(rt).engine@.modules);
                    assert(rt.engine@ =~= (EngineView {
                        modules: old(rt).engine@.modules.push(compiled_module(name_v, ctx as int, pv)),
                        mem_used: crate::engine::sat_add(
                            old(rt).engine@.mem_used,
                            src_len as int,
                        ),
                        ..old(rt).engine@
                    }));
                    assert forall|q: int| 0 <= q < rt.engine@.modules.len() implies
                        crate::engine::module_wf(
                        #[trigger] rt.engine@.modules[q],
                        rt.engine@.contexts.len() as int,
                    ) by {
                        if q < pre.modules.len() {
                            assert(rt.engine@.modules[q] == pre.modules[q]);
                            assert(crate::engine::module_wf(
                                pre.modules[q],
                                pre.contexts.len() as int,
                            ));
                        } else {
                            let nm = rt.engine@.modules[q];
                            assert(nm == compiled_module(name_v, ctx as int, pv));
                            assert forall|k: int| 0 <= k < nm.body.len() implies
                                crate::engine::stmt_wf(
                                #[trigger] nm.body[k],
                                nm.declared.len() as int,
                            ) by {
                                assert(crate::syntax::slot_in(
                                    pv.body[k],
                                    0,
                                    pv.declared.len() as int,
                                ));
                            }
                        }
                    }
                }
                Ok(Module { ctx, def })
            },
        }
    }

    /// Compile `source` as a module named `name` without returning a
    /// handle: for registering a module that script code will import.
    pub fn define<A: Allocator, H: InterruptHandler, R: Resolver, L: Loader>(
        rt: &mut RuntimeHandle<A, H, R, L>,
        ctx: usize,
        name: Vec<u8>,
        source: Vec<u8>,
    ) -> (r: Result<(), Error>)
        requires
            engine_wf(old(rt).engine@),
            ctx < old(rt).engine@.contexts.len(),
        ensures
            engine_wf(final(rt).engine@),
            final(rt).opaque == old(rt).opaque,
            (final(rt).allocator is Some) == (old(rt).allocator is Some),
            final(rt).loader == old(rt).loader,
            same_runtime_config(final(rt).engine@, old(rt).engine@),
            final(rt).engine@.contexts == old(rt).engine@.contexts,
            r is Ok ==> (crate::syntax::spec_parse(source@) matches Some(p) && final(rt).engine@.modules == old(rt).engine@.modules.push(
                compiled_module(name@, ctx as int, p),
            )),
            old(rt).allocator is None ==> (r is Ok <==> (!crate::has_nul(name@)
                && crate::engine::grant(
                old(rt).engine@.mem_limit,
                old(rt).engine@.mem_used,
                source@.len() as int,
            ) && crate::syntax::spec_parse(source@) is Some)),
    {
        match Self::unsafe_define(rt, ctx, name, source) {
            Ok(_) => Ok(()),
            Err(e) => Err(e),
        }
    }
}

/// Bridge for an evaluation failure after the registry was extended by
/// loading: invalidating the extended state preserves the original
/// modules' evaluated set, invalidates the original unevaluated ones
/// (the target included), and leaves nothing new evaluated.
proof fn lemma_load_exit(e0: EngineView, cur: EngineView, mid: int)
    requires
        e0.modules.len() <= cur.modules.len(),
        forall|i: int| 0 <= i < e0.modules.len() ==> #[trigger] cur.modules[i] == e0.modules[i],
        forall|i: int|
            e0.modules.len() <= i < cur.modules.len() ==> (#[trigger] cur.modules[i]).phase
                != ModulePhase::Evaluated,
        0 <= mid < e0.modules.len(),
        e0.modules[mid].phase == ModulePhase::Unevaluated,
    ensures
        forall|i: int|
            0 <= i < e0.modules.len() ==> (((#[trigger] crate::engine::invalidate_engine(
                cur,
            ).modules[i]).phase == ModulePhase::Evaluated <==> e0.modules[i].phase
                == ModulePhase::Evaluated) && (e0.modules[i].phase == ModulePhase::Evaluated
                ==> crate::engine::invalidate_engine(cur).modules[i] == e0.modules[i])),
        forall|i: int|
            0 <= i < e0.modules.len() && (#[trigger] e0.modules[i]).phase
                == ModulePhase::Unevaluated ==> crate::engine::invalidate_engine(
                cur,
            ).modules[i].phase == ModulePhase::Invalidated,
        crate::engine::invalidate_engine(cur).modules[mid].phase == ModulePhase::Invalidated,
        forall|i: int|
            e0.modules.len() <= i < crate::engine::invalidate_engine(cur).modules.len() ==> (
            #[trigger] crate::engine::invalidate_engine(cur).modules[i]).phase
                != ModulePhase::Evaluated,
{
    let f = crate::engine::invalidate_engine(cur);
    assert forall|i: int| 0 <= i < cur.modules.len() implies #[trigger] f.modules[i]
        == crate::engine::invalidate_mod(cur.modules[i]) by {}
}

/// The same bridge with the evaluation state written back first.
proof fn lemma_eval_exit(e0: EngineView, el: EngineView, mid: int, st: crate::engine::EvalState)
    requires
        e0.modules.len() <= el.modules.len(),
        forall|i: int| 0 <= i < e0.modules.len() ==> #[trigger] el.modules[i] == e0.modules[i],
        forall|i: int|
            e0.modules.len() <= i < el.modules.len() ==> (#[trigger] el.modules[i]).phase
                != ModulePhase::Evaluated,
        0 <= mid < e0.modules.len(),
        e0.modules[mid].phase == ModulePhase::Unevaluated,
    ensures
        ({
            let f = crate::engine::invalidate_engine(
                crate::engine::apply_eval(el, mid, st, ModulePhase::Unevaluated),
            );
            &&& forall|i: int|
                0 <= i < e0.modules.len() ==> (((#[trigger] f.modules[i]).phase
                    == ModulePhase::Evaluated <==> e0.modules[i].phase == ModulePhase::Evaluated)
                    && (e0.modules[i].phase == ModulePhase::Evaluated ==> f.modules[i]
                    == e0.modules[i]))
            &&& forall|i: int|
                0 <= i < e0.modules.len() && (#[trigger] e0.modules[i]).phase
                    == ModulePhase::Unevaluated ==> f.modules[i].phase == ModulePhase::Invalidated
            &&& f.modules[mid].phase == ModulePhase::Invalidated
            &&& forall|i: int|
                e0.modules.len() <= i < f.modules.len() ==> (#[trigger] f.modules[i]).phase
                    != ModulePhase::Evaluated
        }),
{
    let a = crate::engine::apply_eval(el, mid, st, ModulePhase::Unevaluated);
    let f = crate::engine::invalidate_engine(a);
    assert forall|i: int| 0 <= i < a.modules.len() implies #[trigger] f.modules[i]
        == crate::engine::invalidate_mod(a.modules[i]) by {}
    assert forall|i: int| 0 <= i < el.modules.len() && i != mid implies #[trigger] a.modules[i]
        == el.modules[i] by {}
}

/// The cap under which a module body's allocations run: off while a
/// custom allocator is installed, else the engine's configured limit.
pub open spec fn eval_limit<A: Allocator, H: InterruptHandler, R: Resolver, L: Loader>(rt: RuntimeHandle<A, H, R, L>) -> int {
    if rt.allocator is Some {
        0
    } else {
        rt.engine@.mem_limit
    }
}

impl Module {
    /// Evaluate an unevaluated module: resolve its imports against the
    /// registry, run its top-level statements in textual order, and mark
    /// it evaluated.
    ///
    /// The interpreter polls the installed interrupt handler before each
    /// statement; a stop unwinds with an exception, and a handler fault
    /// is captured, treated as a stop, and re-raised as a recovered
    /// error only after the engine has unwound. On any failure, this
    /// module and every other unevaluated module of the runtime become
    /// invalid; the statements already run keep their effects.
    #[verifier::rlimit(100)]
    pub fn eval<A: Allocator, H: InterruptHandler, R: Resolver, L: Loader>(self, rt: &mut RuntimeHandle<A, H, R, L>) -> (r:
        Result<(), Error>)
        requires
            engine_wf(old(rt).engine@),
            module_valid(old(rt).engine@, self),
            module_of(old(rt).engine@, self).phase == ModulePhase::Unevaluated,
        ensures
            engine_wf(final(rt).engine@),
            (final(rt).allocator is Some) == (old(rt).allocator is Some),
            (final(rt).loader is Some) == (old(rt).loader is Some),
            (final(rt).opaque.handler is Some) == (old(rt).opaque.handler is Some),
            same_runtime_config(final(rt).engine@, old(rt).engine@),
            (final(rt).loader is Some) == (old(rt).loader is Some),
            final(rt).engine@.contexts.len() == old(rt).engine@.contexts.len(),
            final(rt).engine@.modules.len() >= old(rt).engine@.modules.len(),
            old(rt).loader is None ==> final(rt).engine@.modules.len() == old(
                rt,
            ).engine@.modules.len(),
            forall|i: int|
                old(rt).engine@.modules.len() <= i < final(rt).engine@.modules.len() ==> (
                #[trigger] final(rt).engine@.modules[i]).phase != ModulePhase::Evaluated,
            module_of(old(rt).engine@, self).native ==> (r is Ok && final(rt).engine@
                == (EngineView {
                modules: old(rt).engine@.modules.update(
                    self.def as int,
                    ModuleView {
                        phase: ModulePhase::Evaluated,
                        ..module_of(old(rt).engine@, self)
                    },
                ),
                ..old(rt).engine@
            }) && final(rt).opaque == old(rt).opaque),
            ({
                let e0 = old(rt).engine@;
                let mv = module_of(e0, self);
                let env = crate::engine::env_of(e0.modules, mv.imports);
                let st0 = crate::engine::state_of(e0, self.def as int);
                let lim = eval_limit(*old(rt));
                let bad = crate::engine::first_bad_import(e0.modules, mv.imports);
                (!mv.native && old(rt).loader is None) ==> {
                    &&& (bad >= 0 ==> (r matches Err(e) && e@ == crate::ErrorView::Exception(
                        crate::engine::bad_import_msg(e0.modules, mv.imports[bad]),
                    ) && final(rt).engine@ == crate::engine::invalidate_engine(e0) && final(rt).opaque == old(rt).opaque))
                    &&& (bad == -1 ==> {
                        &&& (r is Ok ==> (crate::engine::run_stmts(mv.body, env, st0, lim)
                            matches crate::engine::EvalOut::Done(st) && final(rt).engine@
                            == crate::engine::apply_eval(
                            e0,
                            self.def as int,
                            st,
                            ModulePhase::Evaluated,
                        ) && final(rt).opaque.fault == old(rt).opaque.fault))
                        &&& (r is Err ==> exists|j: int|
                            0 <= j <= mv.body.len() && (crate::engine::run_stmts(
                                #[trigger] mv.body.take(j),
                                env,
                                st0,
                                lim,
                            ) matches crate::engine::EvalOut::Done(st) && final(rt).engine@
                                == crate::engine::invalidate_engine(
                                crate::engine::apply_eval(
                                    e0,
                                    self.def as int,
                                    st,
                                    ModulePhase::Unevaluated,
                                ),
                            )))
                        &&& (old(rt).opaque.handler is None && old(rt).allocator is None ==> {
                            &&& (r is Ok <==> crate::engine::run_stmts(mv.body, env, st0, lim)
                                is Done)
                            &&& (match crate::engine::run_stmts(mv.body, env, st0, lim) {
                                crate::engine::EvalOut::Fail(st, k) => (r matches Err(e) && e@ == k
                                    && final(rt).engine@ == crate::engine::invalidate_engine(
                                    crate::engine::apply_eval(
                                        e0,
                                        self.def as int,
                                        st,
                                        ModulePhase::Unevaluated,
                                    ),
                                )),
                                crate::engine::EvalOut::Done(_) => true,
                            })
                        })
                        &&& (old(rt).opaque.handler is None ==> !(r matches Err(e)
                            && e@ is Recovered))
                    })
                }
            }),
            (r matches Err(e) && e@ is Recovered) ==> final(rt).opaque.fault is None,
            (old(rt).opaque.handler is None && old(rt).allocator is None
                && old(rt).loader is None) ==> match eval_step(old(rt).engine@, self.def as int) {
                Ok(e2) => r is Ok && final(rt).engine@ == e2,
                Err(k) => r matches Err(e) && e@ == k,
            },
            r is Err ==> final(rt).engine@.modules[self.def as int].phase
                == ModulePhase::Invalidated,
            r is Err ==> forall|i: int|
                0 <= i < old(rt).engine@.modules.len() && (#[trigger] old(rt).engine@.modules[i]).phase
                    == ModulePhase::Unevaluated ==> final(rt).engine@.modules[i].phase
                    == ModulePhase::Invalidated,
            r is Ok ==> forall|i: int|
                0 <= i < old(rt).engine@.modules.len() && i != self.def as int
                    ==> final(rt).engine@.modules[i] == old(rt).engine@.modules[i],
            r is Err ==> forall|i: int|
                0 <= i < old(rt).engine@.modules.len() ==> ((
                (#[trigger] final(rt).engine@.modules[i]).phase == ModulePhase::Evaluated
                    <==> old(rt).engine@.modules[i].phase == ModulePhase::Evaluated)
                    && (old(rt).engine@.modules[i].phase == ModulePhase::Evaluated ==> final(rt).engine@.modules[i] == old(rt).engine@.modules[i])),
            r is Ok ==> module_valid(final(rt).engine@, self) && module_of(
                final(rt).engine@,
                self,
            ).phase == ModulePhase::Evaluated && module_of(final(rt).engine@, self).name
                == module_of(old(rt).engine@, self).name && module_of(
                final(rt).engine@,
                self,
            ).declared == module_of(old(rt).engine@, self).declared,
    {
        let ghost e0 = rt.engine@;
        let ghost mv = module_of(e0, self);
        let def = self.def;
        if rt.engine.modules[def].native {
            rt.engine.modules[def].phase = ModulePhase::Evaluated;
            proof {
                assert(rt.engine@.modules =~= e0.modules.update(
                    def as int,
                    ModuleView { phase: ModulePhase::Evaluated, ..mv },
                ));
                assert(rt.engine@ =~= (EngineView { modules: rt.engine@.modules, ..e0 }));
                assert forall|q: int| 0 <= q < rt.engine@.modules.len() implies
                    crate::engine::module_wf(
                    #[trigger] rt.engine@.modules[q],
                    rt.engine@.contexts.len() as int,
                ) by {
                    if q != def as int {
                        assert(rt.engine@.modules[q] == e0.modules[q]);
                    }
                    assert(crate::engine::module_wf(e0.modules[q], e0.contexts.len() as int));
                }
            }
            return Ok(());
        }
        let nimp = rt.engine.modules[def].imports.len();
        // Load phase: whenever an import names no registered module and a
        // loader pair is installed, resolve the specifier, load the
        // source, and register the loaded module (unevaluated) under the
        // specifier. A loader failure surfaces as a resolution exception.
        let mut lj: usize = 0;
        while lj < nimp
            invariant
                e0 == old(rt).engine@,
                engine_wf(e0),
                module_valid(e0, self),
                !mv.native,
                mv.phase == ModulePhase::Unevaluated,
                mv == module_of(e0, self),
                def == self.def,
                nimp == mv.imports.len(),
                lj <= nimp,
                engine_wf(rt.engine@),
                rt.engine@.modules.len() >= e0.modules.len(),
                forall|i: int|
                    0 <= i < e0.modules.len() ==> #[trigger] rt.engine@.modules[i]
                        == e0.modules[i],
                forall|i: int|
                    e0.modules.len() <= i < rt.engine@.modules.len() ==> (
                    #[trigger] rt.engine@.modules[i]).phase == ModulePhase::Unevaluated,
                rt.engine@.contexts == e0.contexts,
                rt.engine@.jobs == e0.jobs,
                same_runtime_config(rt.engine@, e0),
                rt.opaque == old(rt).opaque,
                (rt.allocator is Some) == (old(rt).allocator is Some),
                (rt.loader is Some) == (old(rt).loader is Some),
                old(rt).loader is None ==> *rt == *old(rt),
            decreases nimp - lj,
        {
            proof {
                assert(rt.engine@.modules[def as int] == e0.modules[def as int]);
            }
            let im_from = crate::syntax::copy_bytes(&rt.engine.modules[def].imports[lj].from_module);
            if crate::engine::find_module_in(&rt.engine.modules, im_from.as_slice()).is_none()
                && rt.loader.is_some() {
                let referrer = crate::syntax::copy_bytes(&rt.engine.modules[def].name);
                if crate::contains_nul(im_from.as_slice()) {
                    proof {
                        lemma_load_exit(e0, rt.engine@, self.def as int);
                        crate::engine::lemma_invalidate_wf(rt.engine@);
                    }
                    rt.engine.invalidate_unevaluated();
                    return Err(Error::Exception(im_from));
                }
                let loaded: Result<Vec<u8>, Error> = match &mut rt.loader {
                    None => Err(Error::Exception(Vec::new())),
                    Some((resolver, loader)) => match resolver.resolve(
                        im_from.as_slice(),
                        referrer.as_slice(),
                    ) {
                        Err(_) => Err(Error::Exception(crate::syntax::copy_bytes(&im_from))),
                        Ok(resolved) => match loader.load(resolved.as_slice()) {
                            Err(_) => Err(Error::Exception(crate::syntax::copy_bytes(&im_from))),
                            Ok(source) => Ok(source),
                        },
                    },
                };
                match loaded {
                    Err(e) => {
                        proof {
                            lemma_load_exit(e0, rt.engine@, self.def as int);
                            crate::engine::lemma_invalidate_wf(rt.engine@);
                        }
                        rt.engine.invalidate_unevaluated();
                        return Err(e);
                    },
                    Ok(source) => {
                        let ghost pre_load = rt.engine@;
                        match Self::unsafe_define(rt, self.ctx, im_from, source) {
                            Err(e) => {
                                proof {
                                    lemma_load_exit(e0, pre_load, self.def as int);
                                    assert(!(e@ is Encoding));
                                    assert(rt.engine@.modules
                                        == crate::engine::invalidate_engine(pre_load).modules);
                                }
                                return Err(e);
                            },
                            Ok(_loaded_module) => {
                                proof {
                                    assert forall|i: int|
                                        e0.modules.len() <= i < rt.engine@.modules.len() implies (
                                    #[trigger] rt.engine@.modules[i]).phase
                                        == ModulePhase::Unevaluated by {
                                        if i < pre_load.modules.len() {
                                            assert(rt.engine@.modules[i] == pre_load.modules[i]);
                                        }
                                    }
                                }
                            },
                        }
                    },
                }
            }
            lj += 1;
        }
        let ghost e_l = rt.engine@;
        proof {
            assert(module_of(e_l, self) == mv);
        }
        let nimp2 = rt.engine.modules[def].imports.len();
        let mut j: usize = 0;
        while j < nimp2
            invariant
                e0 == old(rt).engine@,
                e_l == rt.engine@,
                engine_wf(e0),
                engine_wf(e_l),
                module_valid(e0, self),
                module_valid(e_l, self),
                !mv.native,
                mv.phase == ModulePhase::Unevaluated,
                mv == module_of(e0, self),
                mv == module_of(e_l, self),
                def == self.def,
                nimp2 == mv.imports.len(),
                j <= nimp2,
                e_l.modules.len() >= e0.modules.len(),
                forall|i: int|
                    0 <= i < e0.modules.len() ==> #[trigger] e_l.modules[i] == e0.modules[i],
                forall|i: int|
                    e0.modules.len() <= i < e_l.modules.len() ==> (#[trigger] e_l.modules[i]).phase
                        == ModulePhase::Unevaluated,
                e_l.contexts == e0.contexts,
                e_l.jobs == e0.jobs,
                same_runtime_config(e_l, e0),
                rt.opaque == old(rt).opaque,
                (rt.allocator is Some) == (old(rt).allocator is Some),
                (rt.loader is Some) == (old(rt).loader is Some),
                old(rt).loader is None ==> *rt == *old(rt),
                forall|q: int|
                    0 <= q < j ==> crate::engine::import_ok(e_l.modules, #[trigger] mv.imports[q]),
            decreases nimp2 - j,
        {
            let im_from = crate::syntax::copy_bytes(&rt.engine.modules[def].imports[j].from_module);
            let im_local = crate::syntax::copy_bytes(&rt.engine.modules[def].imports[j].local);
            proof {
                assert(mv.imports[j as int] == rt.engine.modules@[def as int].imports@[j as int]@);
            }
            let bad_msg: Option<Vec<u8>> = match crate::engine::find_module_in(
                &rt.engine.modules,
                im_from.as_slice(),
            ) {
                None => Some(im_from),
                Some(mi) => {
                    proof {
                        assert(crate::engine::mods_view(rt.engine.modules@) == e_l.modules);
                        assert(views_of_bytes(rt.engine.modules@[mi as int].declared@)
                            == e_l.modules[mi as int].declared);
                    }
                    match crate::engine::find_name_in(
                        &rt.engine.modules[mi].declared,
                        im_local.as_slice(),
                    ) {
                        None => Some(im_local),
                        Some(_) => None,
                    }
                },
            };
            match bad_msg {
                Some(msg) => {
                    proof {
                        if old(rt).loader is None {
                            crate::engine::lemma_first_bad_char(e0.modules, mv.imports);
                            assert(!crate::engine::import_ok(e0.modules, mv.imports[j as int]));
                            let b = crate::engine::first_bad_import(e0.modules, mv.imports);
                            if b == -1 {
                                assert(crate::engine::import_ok(e0.modules, mv.imports[j as int]));
                                assert(false);
                            } else if b < j {
                                assert(crate::engine::import_ok(e0.modules, mv.imports[b]));
                                assert(false);
                            } else if b > j {
                                assert(crate::engine::import_ok(e0.modules, mv.imports[j as int]));
                                assert(false);
                            }
                            assert(b == j as int);
                            assert(msg@ == crate::engine::bad_import_msg(
                                e0.modules,
                                mv.imports[j as int],
                            ));
                        }
                        crate::engine::lemma_invalidate_wf(e_l);
                        crate::engine::lemma_invalidate_phases(e_l);
                        crate::engine::lemma_invalidate_unev(e_l);
                        lemma_load_exit(e0, e_l, self.def as int);
                        assert(e_l.modules[self.def as int].phase == ModulePhase::Unevaluated);
                    }
                    rt.engine.invalidate_unevaluated();
                    return Err(Error::Exception(msg));
                },
                None => {
                    proof {
                        assert(crate::engine::import_ok(e_l.modules, mv.imports[j as int]));
                    }
                },
            }
            j += 1;
        }
        proof {
            crate::engine::lemma_first_bad_char(e_l.modules, mv.imports);
            if crate::engine::first_bad_import(e_l.modules, mv.imports) != -1 {
                let b = crate::engine::first_bad_import(e_l.modules, mv.imports);
                assert(crate::engine::import_ok(e_l.modules, mv.imports[b]));
                assert(false);
            }
        }
        proof {
            assert forall|q: int|
                0 <= q < rt.engine.modules@.len() implies (#[trigger] crate::engine::mods_view(
                rt.engine.modules@,
            )[q]).values.len() == crate::engine::mods_view(rt.engine.modules@)[q].declared.len() by {
                assert(crate::engine::module_wf(e_l.modules[q], e_l.contexts.len() as int));
            }
        }
        let env = crate::engine::build_env(&rt.engine.modules, &rt.engine.modules[def].imports);
        let ghost env_v = crate::engine::tbl_view(env@);
        let ghost st0 = crate::engine::state_of(e_l, self.def as int);
        let ghost lim = eval_limit(*old(rt));
        proof {
            assert(rt.engine.modules@[def as int].imports@.map_values(|i: crate::syntax::Import| i@)
                == mv.imports);
            assert(env_v == crate::engine::env_of(e_l.modules, mv.imports));
            assert(crate::engine::state_of(rt.engine@, self.def as int) == st0);
            assert(rt.engine@.modules.update(def as int, ModuleView { phase: mv.phase, values: mv.values, ..mv }) =~= rt.engine@.modules);
            assert(rt.engine@.contexts.update(mv.ctx, CtxView { globals: e_l.contexts[mv.ctx].globals }) =~= rt.engine@.contexts);
            assert(rt.engine@ =~= crate::engine::apply_eval(
                e_l,
                self.def as int,
                st0,
                ModulePhase::Unevaluated,
            ));
            assert(crate::engine::run_stmts(mv.body.take(0), env_v, st0, lim) == crate::engine::EvalOut::Done(st0));
        }
        let n = rt.engine.modules[def].body.len();
        let mut i: usize = 0;
        while i < n
            invariant
                i <= n,
                def == self.def,
                n == mv.body.len(),
                e0 == old(rt).engine@,
                mv == module_of(e0, self),
                engine_wf(e0),
                module_valid(e0, self),
                e_l.modules.len() >= e0.modules.len(),
                forall|i: int|
                    0 <= i < e0.modules.len() ==> #[trigger] e_l.modules[i] == e0.modules[i],
                forall|i: int|
                    e0.modules.len() <= i < e_l.modules.len() ==> (#[trigger] e_l.modules[i]).phase
                        == ModulePhase::Unevaluated,
                e_l.contexts == e0.contexts,
                e_l.jobs == e0.jobs,
                same_runtime_config(e_l, e0),
                (rt.loader is Some) == (old(rt).loader is Some),
                old(rt).loader is None ==> e_l == e0,
                mv == module_of(e_l, self),
                engine_wf(e_l),
                module_valid(e_l, self),
                !mv.native,
                mv.phase == ModulePhase::Unevaluated,
                st0 == crate::engine::state_of(e_l, self.def as int),
                env_v == crate::engine::tbl_view(env@),
                env_v == crate::engine::env_of(e_l.modules, mv.imports),
                crate::engine::first_bad_import(e_l.modules, mv.imports) == -1,
                (rt.allocator is Some) == (old(rt).allocator is Some),
                (rt.opaque.handler is Some) == (old(rt).opaque.handler is Some),
                rt.opaque.fault == old(rt).opaque.fault,
                lim == eval_limit(*old(rt)),
                lim == (if old(rt).allocator is Some {
                    0int
                } else {
                    e_l.mem_limit
                }),
                crate::engine::run_stmts(mv.body.take(i as int), env_v, st0, lim)
                    == crate::engine::EvalOut::Done(
                    crate::engine::state_of(rt.engine@, self.def as int),
                ),
                rt.engine@ == crate::engine::apply_eval(
                    e_l,
                    self.def as int,
                    crate::engine::state_of(rt.engine@, self.def as int),
                    ModulePhase::Unevaluated,
                ),
                engine_wf(rt.engine@),
            decreases n - i,
        {
            let ghost st_cur = crate::engine::state_of(rt.engine@, self.def as int);
            if rt.checkpoint() {
                let f = rt.opaque.fault;
                rt.opaque.fault = None;
                proof {
                    crate::engine::lemma_invalidate_wf(rt.engine@);
                    crate::engine::lemma_invalidate_apply_phases(e_l, self.def as int, st_cur);
                    crate::engine::lemma_invalidate_apply_unev(e_l, self.def as int, st_cur);
                    lemma_eval_exit(e0, e_l, self.def as int, st_cur);
                    assert(crate::engine::run_stmts(mv.body.take(i as int), env_v, st0, lim)
                        matches crate::engine::EvalOut::Done(st) && st == st_cur);
                }
                rt.engine.invalidate_unevaluated();
                match f {
                    Some(p) => {
                        return Err(Error::Recovered(p));
                    },
                    None => {
                        return Err(Error::Exception(Vec::new()));
                    },
                }
            }
            proof {
                assert(rt.engine@ == crate::engine::apply_eval(
                    e_l,
                    self.def as int,
                    crate::engine::state_of(rt.engine@, self.def as int),
                    ModulePhase::Unevaluated,
                ));
                assert(rt.engine@.modules.len() == e_l.modules.len());
                assert(rt.engine.modules@.len() == rt.engine@.modules.len());
                assert((def as int) < rt.engine.modules@.len());
                assert(rt.engine@.modules[def as int].body == mv.body);
                assert(rt.engine@.modules[def as int] == rt.engine.modules@[def as int]@);
                assert(rt.engine.modules@[def as int].body@.len() == mv.body.len());
            }
            let stmt = rt.engine.modules[def].body[i].duplicate();
            proof {
                assert(rt.engine@.modules[def as int].body == mv.body);
                assert(rt.engine@.modules[def as int] == rt.engine.modules@[def as int]@);
                assert(rt.engine.modules@[def as int]@.body[i as int] == rt.engine.modules@[def
                    as int].body@[i as int]@);
                assert(stmt@ == rt.engine.modules@[def as int].body@[i as int]@);
                assert(stmt@ == mv.body[i as int]);
            }
            let ghost pre = rt.engine@;
            match stmt {
                crate::syntax::Stmt::GlobalAssign(gname, ex) => {
                    match crate::engine::eval_expr(&ex, &env) {
                        None => {
                            let msg = match &ex {
                                crate::syntax::Expr::Ident(nm) => crate::syntax::copy_bytes(nm),
                                _ => Vec::new(),
                            };
                            proof {
                                assert(msg@ == crate::engine::expr_name(ex@));
                                assert(crate::engine::step_stmt(mv.body[i as int], env_v, st_cur, lim)
                                    == crate::engine::EvalOut::Fail(
                                    st_cur,
                                    crate::ErrorView::Exception(crate::engine::expr_name(ex@)),
                                ));
                                crate::engine::lemma_run_snoc(mv.body, env_v, st0, lim, i as int);
                                crate::engine::lemma_run_extend_fail(
                                    mv.body,
                                    env_v,
                                    st0,
                                    lim,
                                    i as int + 1,
                                );
                                crate::engine::lemma_invalidate_wf(rt.engine@);
                                crate::engine::lemma_invalidate_apply_phases(
                                    e_l,
                                    self.def as int,
                                    st_cur,
                                );
                                crate::engine::lemma_invalidate_apply_unev(
                                    e_l,
                                    self.def as int,
                                    st_cur,
                                );
                                lemma_eval_exit(e0, e_l, self.def as int, st_cur);
                            }
                            rt.engine.invalidate_unevaluated();
                            return Err(Error::Exception(msg));
                        },
                        Some(val) => {
                            let cost = crate::engine::eval_expr_cost(&ex);
                            if !rt.charge(cost) {
                                proof {
                                    if old(rt).allocator is None {
                                        assert(crate::engine::step_stmt(
                                            mv.body[i as int],
                                            env_v,
                                            st_cur,
                                            lim,
                                        ) == crate::engine::EvalOut::Fail(
                                            st_cur,
                                            crate::ErrorView::Allocation,
                                        ));
                                        crate::engine::lemma_run_snoc(
                                            mv.body,
                                            env_v,
                                            st0,
                                            lim,
                                            i as int,
                                        );
                                        crate::engine::lemma_run_extend_fail(
                                            mv.body,
                                            env_v,
                                            st0,
                                            lim,
                                            i as int + 1,
                                        );
                                    }
                                    crate::engine::lemma_invalidate_wf(rt.engine@);
                                    crate::engine::lemma_invalidate_apply_phases(
                                        e_l,
                                        self.def as int,
                                        st_cur,
                                    );
                                    crate::engine::lemma_invalidate_apply_unev(
                                        e_l,
                                        self.def as int,
                                        st_cur,
                                    );
                                    lemma_eval_exit(e0, e_l, self.def as int, st_cur);
                                }
                                rt.engine.invalidate_unevaluated();
                                return Err(Error::Allocation);
                            }
                            let ghost mid_engine = rt.engine@;
                            rt.engine.contexts[self.ctx].globals.push((gname, val));
                            proof {
                                let stn = crate::engine::EvalState {
                                    globals: st_cur.globals.push((mv.body[i as int]->GlobalAssign_0, crate::engine::expr_val(ex@, env_v)->Some_0)),
                                    values: st_cur.values,
                                    used: crate::engine::sat_add(st_cur.used, crate::engine::expr_cost(ex@)),
                                };
                                assert(crate::engine::step_stmt(mv.body[i as int], env_v, st_cur, lim)
                                    == crate::engine::EvalOut::Done(stn));
                                assert(crate::engine::tbl_view(rt.engine.contexts@[self.ctx as int].globals@)
                                    =~= stn.globals);
                                assert(rt.engine@.contexts =~= mid_engine.contexts.update(
                                    self.ctx as int,
                                    CtxView { globals: stn.globals },
                                ));
                                assert(crate::engine::state_of(rt.engine@, self.def as int) == stn);
                                crate::engine::lemma_run_snoc(mv.body, env_v, st0, lim, i as int);
                                assert(crate::engine::run_stmts(
                                    mv.body.take(i as int + 1),
                                    env_v,
                                    st0,
                                    lim,
                                ) == crate::engine::EvalOut::Done(stn));
                                assert(rt.engine@.contexts =~= e_l.contexts.update(
                                    mv.ctx,
                                    CtxView { globals: stn.globals },
                                ));
                                assert(rt.engine@.modules =~= e_l.modules.update(
                                    self.def as int,
                                    ModuleView {
                                        phase: ModulePhase::Unevaluated,
                                        values: stn.values,
                                        ..mv
                                    },
                                ));
                                assert(rt.engine@ =~= crate::engine::apply_eval(
                                    e_l,
                                    self.def as int,
                                    stn,
                                    ModulePhase::Unevaluated,
                                ));
                                assert forall|q: int|
                                    0 <= q < rt.engine@.modules.len() implies
                                    crate::engine::module_wf(
                                    #[trigger] rt.engine@.modules[q],
                                    rt.engine@.contexts.len() as int,
                                ) by {
                                    assert(rt.engine@.modules[q] == pre.modules[q]);
                                    assert(crate::engine::module_wf(
                                        pre.modules[q],
                                        pre.contexts.len() as int,
                                    ));
                                }
                            }
                        },
                    }
                },
                crate::syntax::Stmt::ExportInit(slot, ex) => {
                    match crate::engine::eval_expr(&ex, &env) {
                        None => {
                            let msg = match &ex {
                                crate::syntax::Expr::Ident(nm) => crate::syntax::copy_bytes(nm),
                                _ => Vec::new(),
                            };
                            proof {
                                assert(msg@ == crate::engine::expr_name(ex@));
                                assert(crate::engine::step_stmt(mv.body[i as int], env_v, st_cur, lim)
                                    == crate::engine::EvalOut::Fail(
                                    st_cur,
                                    crate::ErrorView::Exception(crate::engine::expr_name(ex@)),
                                ));
                                crate::engine::lemma_run_snoc(mv.body, env_v, st0, lim, i as int);
                                crate::engine::lemma_run_extend_fail(
                                    mv.body,
                                    env_v,
                                    st0,
                                    lim,
                                    i as int + 1,
                                );
                                crate::engine::lemma_invalidate_wf(rt.engine@);
                                crate::engine::lemma_invalidate_apply_phases(
                                    e_l,
                                    self.def as int,
                                    st_cur,
                                );
                                crate::engine::lemma_invalidate_apply_unev(
                                    e_l,
                                    self.def as int,
                                    st_cur,
                                );
                                lemma_eval_exit(e0, e_l, self.def as int, st_cur);
                            }
                            rt.engine.invalidate_unevaluated();
                            return Err(Error::Exception(msg));
                        },
                        Some(val) => {
                            let cost = crate::engine::eval_expr_cost(&ex);
                            if !rt.charge(cost) {
                                proof {
                                    if old(rt).allocator is None {
                                        assert(crate::engine::step_stmt(
                                            mv.body[i as int],
                                            env_v,
                                            st_cur,
                                            lim,
                                        ) == crate::engine::EvalOut::Fail(
                                            st_cur,
                                            crate::ErrorView::Allocation,
                                        ));
                                        crate::engine::lemma_run_snoc(
                                            mv.body,
                                            env_v,
                                            st0,
                                            lim,
                                            i as int,
                                        );
                                        crate::engine::lemma_run_extend_fail(
                                            mv.body,
                                            env_v,
                                            st0,
                                            lim,
                                            i as int + 1,
                                        );
                                    }
                                    crate::engine::lemma_invalidate_wf(rt.engine@);
                                    crate::engine::lemma_invalidate_apply_phases(
                                        e_l,
                                        self.def as int,
                                        st_cur,
                                    );
                                    crate::engine::lemma_invalidate_apply_unev(
                                        e_l,
                                        self.def as int,
                                        st_cur,
                                    );
                                    lemma_eval_exit(e0, e_l, self.def as int, st_cur);
                                }
                                rt.engine.invalidate_unevaluated();
                                return Err(Error::Allocation);
                            }
                            let ghost mid_engine = rt.engine@;
                            proof {
                                assert(crate::engine::module_wf(
                                    mid_engine.modules[def as int],
                                    mid_engine.contexts.len() as int,
                                ));
                                assert(crate::engine::stmt_wf(
                                    mv.body[i as int],
                                    mv.declared.len() as int,
                                ));
                            }
                            rt.engine.modules[def].values[slot] = Some(val);
                            proof {
                                let stn = crate::engine::EvalState {
                                    globals: st_cur.globals,
                                    values: st_cur.values.update(slot as int, Some(crate::engine::expr_val(ex@, env_v)->Some_0)),
                                    used: crate::engine::sat_add(st_cur.used, crate::engine::expr_cost(ex@)),
                                };
                                assert(crate::engine::step_stmt(mv.body[i as int], env_v, st_cur, lim)
                                    == crate::engine::EvalOut::Done(stn));
                                assert(crate::engine::views_of_vals(rt.engine.modules@[def as int].values@)
                                    =~= stn.values);
                                assert(rt.engine@.modules =~= mid_engine.modules.update(
                                    def as int,
                                    ModuleView { values: stn.values, ..mid_engine.modules[def as int] },
                                ));
                                assert(crate::engine::state_of(rt.engine@, self.def as int) == stn);
                                crate::engine::lemma_run_snoc(mv.body, env_v, st0, lim, i as int);
                                assert(crate::engine::run_stmts(
                                    mv.body.take(i as int + 1),
                                    env_v,
                                    st0,
                                    lim,
                                ) == crate::engine::EvalOut::Done(stn));
                                assert(rt.engine@.modules =~= e_l.modules.update(
                                    self.def as int,
                                    ModuleView {
                                        phase: ModulePhase::Unevaluated,
                                        values: stn.values,
                                        ..mv
                                    },
                                ));
                                assert(rt.engine@.contexts =~= e_l.contexts.update(
                                    mv.ctx,
                                    CtxView { globals: stn.globals },
                                ));
                                assert(rt.engine@ =~= crate::engine::apply_eval(
                                    e_l,
                                    self.def as int,
                                    stn,
                                    ModulePhase::Unevaluated,
                                ));
                                assert forall|q: int|
                                    0 <= q < rt.engine@.modules.len() implies
                                    crate::engine::module_wf(
                                    #[trigger] rt.engine@.modules[q],
                                    rt.engine@.contexts.len() as int,
                                ) by {
                                    if q != def as int {
                                        assert(rt.engine@.modules[q] == pre.modules[q]);
                                    }
                                    assert(crate::engine::module_wf(
                                        pre.modules[q],
                                        pre.contexts.len() as int,
                                    ));
                                }
                            }
                        },
                    }
                },
            }
            i += 1;
        }
        proof {
            assert(mv.body.take(n as int) =~= mv.body);
        }
        let ghost st_done = crate::engine::state_of(rt.engine@, self.def as int);
        proof {
            assert forall|i: int| 0 <= i < e0.modules.len() && i != def as int implies
                #[trigger] rt.engine@.modules[i] == e0.modules[i] by {
                assert(rt.engine@.modules[i] == e_l.modules[i]);
            }
        }
        let ghost pre_final = rt.engine@;
        rt.engine.modules[def].phase = ModulePhase::Evaluated;
        proof {
            assert(rt.engine@.modules =~= pre_final.modules.update(
                def as int,
                ModuleView { phase: ModulePhase::Evaluated, ..pre_final.modules[def as int] },
            ));
            assert(pre_final.modules[def as int] == (ModuleView {
                phase: ModulePhase::Unevaluated,
                values: st_done.values,
                ..mv
            }));
            assert(rt.engine@.modules =~= e_l.modules.update(
                def as int,
                ModuleView { phase: ModulePhase::Evaluated, values: st_done.values, ..mv },
            ));
            assert(rt.engine@.contexts == e_l.contexts.update(
                mv.ctx,
                CtxView { globals: st_done.globals },
            ));
            assert(rt.engine@.mem_used == st_done.used);
            assert(crate::engine::state_of(rt.engine@, self.def as int) == st_done);
            assert(rt.engine@ =~= crate::engine::apply_eval(
                e_l,
                self.def as int,
                st_done,
                ModulePhase::Evaluated,
            ));
            assert forall|q: int| 0 <= q < rt.engine@.modules.len() implies
                crate::engine::module_wf(
                #[trigger] rt.engine@.modules[q],
                rt.engine@.contexts.len() as int,
            ) by {
                if q != def as int {
                    assert(rt.engine@.modules[q] == pre_final.modules[q]);
                }
                assert(crate::engine::module_wf(pre_final.modules[q], pre_final.contexts.len() as int));
            }
            assert forall|i: int| 0 <= i < e0.modules.len() && i != def as int implies
                #[trigger] rt.engine@.modules[i] == e0.modules[i] by {
                assert(rt.engine@.modules[i] == pre_final.modules[i]);
                assert(pre_final.modules[i] == e_l.modules[i]);
            }
            assert forall|i: int|
                e0.modules.len() <= i < rt.engine@.modules.len() implies (
            #[trigger] rt.engine@.modules[i]).phase != ModulePhase::Evaluated by {
                assert(rt.engine@.modules[i] == pre_final.modules[i]);
                assert(pre_final.modules[i] == e_l.modules[i]);
            }
        }
        Ok(())
    }

    /// Compile `source` as a module named `name` and evaluate it at
    /// once: the single-module convenience form of the two-phase
    /// protocol.
    pub fn instanciate<A: Allocator, H: InterruptHandler, R: Resolver, L: Loader>(
        rt: &mut RuntimeHandle<A, H, R, L>,
        ctx: usize,
        name: Vec<u8>,
        source: Vec<u8>,
    ) -> (r: Result<Module, Error>)
        requires
            engine_wf(old(rt).engine@),
            ctx < old(rt).engine@.contexts.len(),
        ensures
            engine_wf(final(rt).engine@),
            (final(rt).allocator is Some) == (old(rt).allocator is Some),
            (final(rt).loader is Some) == (old(rt).loader is Some),
            (final(rt).opaque.handler is Some) == (old(rt).opaque.handler is Some),
            final(rt).engine@.contexts.len() == old(rt).engine@.contexts.len(),
            r matches Ok(m) ==> m.ctx == ctx && m.def == old(rt).engine@.modules.len()
                && module_valid(final(rt).engine@, m) && module_of(final(rt).engine@, m).phase
                == ModulePhase::Evaluated && module_of(final(rt).engine@, m).name == name@
                && crate::syntax::spec_parse(source@) is Some,
            crate::has_nul(name@) ==> (r matches Err(e) && e@ == crate::ErrorView::Encoding
                && final(rt).engine == old(rt).engine),
            same_runtime_config(final(rt).engine@, old(rt).engine@),
            r is Err ==> forall|i: int|
                0 <= i < old(rt).engine@.modules.len() ==> (((
                #[trigger] final(rt).engine@.modules[i]).phase == ModulePhase::Evaluated
                    <==> old(rt).engine@.modules[i].phase == ModulePhase::Evaluated) && (old(
                    rt,
                ).engine@.modules[i].phase == ModulePhase::Evaluated ==> final(rt).engine@.modules[i]
                    == old(rt).engine@.modules[i])),
            (old(rt).allocator is None && old(rt).opaque.handler is None
                && old(rt).loader is None) ==> match compile_step(
                old(rt).engine@,
                ctx as int,
                name@,
                source@,
            ) {
                Err(k) => r matches Err(e) && e@ == k,
                Ok(e1) => match eval_step(e1, old(rt).engine@.modules.len() as int) {
                    Ok(e2) => r is Ok && final(rt).engine@ == e2,
                    Err(k) => r matches Err(e) && e@ == k,
                },
            },
    {
        let ghost clean = old(rt).allocator is None && old(rt).opaque.handler is None
            && old(rt).loader is None;
        let m = match Self::unsafe_define(rt, ctx, name, source) {
            Err(e) => {
                proof {
                    if old(rt).engine@.modules.len() > 0 {
                        crate::engine::lemma_invalidate_phases(old(rt).engine@);
                    }
                }
                return Err(e);
            },
            Ok(m) => m,
        };
        let ghost rt1 = *rt;
        match m.eval(rt) {
            Ok(()) => {
                proof {
                    assert(module_of(rt1.engine@, m).name == name@);
                }
                Ok(m)
            },
            Err(e) => {
                proof {
                    if clean {
                        assert(rt1.engine@ == compile_step(
                            old(rt).engine@,
                            ctx as int,
                            name@,
                            source@,
                        )->Ok_0);
                    }
                    assert forall|i: int|
                        0 <= i < old(rt).engine@.modules.len() implies (((
                    #[trigger] rt.engine@.modules[i]).phase == ModulePhase::Evaluated
                        <==> old(rt).engine@.modules[i].phase == ModulePhase::Evaluated) && (old(
                        rt,
                    ).engine@.modules[i].phase == ModulePhase::Evaluated ==> rt.engine@.modules[i]
                        == old(rt).engine@.modules[i])) by {
                        assert(rt1.engine@.modules[i] == old(rt).engine@.modules[i]);
                    }
                }
                Err(e)
            },
        }
    }
}

/// A host-authored module definition: declares its export names, then
/// supplies their values from the instantiation callback. Nothing is
/// assumed about an implementation's behaviour.
pub trait ModuleDef {
    /// Declare the module's export names.
    fn define(defs: &mut Definitions) -> Result<(), Error>;

    /// Supply the declared exports' values.
    fn export(exports: &mut Exports) -> Result<(), Error>;
}

/// Saturating total of name lengths, continued from `acc`.
pub open spec fn sat_sum_names(ns: Seq<Seq<u8>>, acc: int) -> int
    decreases ns.len(),
{
    if ns.len() == 0 {
        acc
    } else {
        sat_sum_names(ns.drop_first(), crate::engine::sat_add(acc, ns[0].len() as int))
    }
}

/// Saturating total of export-value costs, continued from `acc`.
pub open spec fn sat_sum_costs(es: Seq<(Seq<u8>, crate::value::ValView)>, acc: int) -> int
    decreases es.len(),
{
    if es.len() == 0 {
        acc
    } else {
        sat_sum_costs(es.drop_first(), crate::engine::sat_add(acc, crate::value::val_cost(es[0].1)))
    }
}

/// The bytes creating a host-authored module allocates: its name, its
/// export-table entries, and the supplied values.
pub open spec fn native_cost(
    name: Seq<u8>,
    dv: Seq<Seq<u8>>,
    ev: Seq<(Seq<u8>, crate::value::ValView)>,
) -> int {
    sat_sum_costs(ev, sat_sum_names(dv, name.len() as int))
}

/// The first supplied export whose name was never declared, or `-1`.
pub open spec fn first_undeclared(
    dv: Seq<Seq<u8>>,
    ev: Seq<(Seq<u8>, crate::value::ValView)>,
) -> int
    decreases ev.len(),
{
    if ev.len() == 0 {
        -1
    } else if find_name(dv, ev[0].0) == -1 {
        0
    } else {
        let r = first_undeclared(dv, ev.drop_first());
        if r == -1 {
            -1
        } else {
            r + 1
        }
    }
}

/// `first_undeclared` finds the first undeclared entry, if any.
pub proof fn lemma_first_undeclared_char(
    dv: Seq<Seq<u8>>,
    ev: Seq<(Seq<u8>, crate::value::ValView)>,
)
    ensures
        first_undeclared(dv, ev) == -1 ==> forall|k: int|
            0 <= k < ev.len() ==> find_name(dv, (#[trigger] ev[k]).0) >= 0,
        first_undeclared(dv, ev) != -1 ==> 0 <= first_undeclared(dv, ev) < ev.len() && find_name(
            dv,
            ev[first_undeclared(dv, ev)].0,
        ) == -1 && forall|k: int|
            0 <= k < first_undeclared(dv, ev) ==> find_name(dv, (#[trigger] ev[k]).0) >= 0,
    decreases ev.len(),
{
    if ev.len() > 0 && find_name(dv, ev[0].0) != -1 {
        lemma_find_name_char(dv, ev[0].0);
        lemma_first_undeclared_char(dv, ev.drop_first());
        let d = ev.drop_first();
        let r = first_undeclared(dv, d);
        assert forall|k: int| 0 <= k < d.len() && find_name(dv, (#[trigger] d[k]).0) != -1 implies
            find_name(dv, d[k].0) >= 0 by {
            lemma_find_name_char(dv, d[k].0);
        }
        if r == -1 {
            assert forall|k: int| 0 <= k < ev.len() implies find_name(dv, (#[trigger] ev[k]).0)
                >= 0 by {
                if k > 0 {
                    assert(ev[k] == d[k - 1]);
                }
            }
        } else {
            assert(ev[r + 1] == d[r]);
            assert forall|k: int| 0 <= k < r + 1 implies find_name(dv, (#[trigger] ev[k]).0) >= 0 by {
                if k > 0 {
                    assert(ev[k] == d[k - 1]);
                }
            }
        }
    }
}

/// The export slots after the supplied entries are applied in order:
/// every slot starts unwritten; each entry writes the first slot
/// declared under its name; an undeclared entry writes nothing (the
/// application it belongs to fails instead).
pub open spec fn applied_values(
    dv: Seq<Seq<u8>>,
    ev: Seq<(Seq<u8>, crate::value::ValView)>,
) -> Seq<Option<crate::value::ValView>>
    decreases ev.len(),
{
    if ev.len() == 0 {
        Seq::new(dv.len(), |i: int| None)
    } else {
        let prev = applied_values(dv, ev.drop_last());
        let idx = find_name(dv, ev.last().0);
        if idx == -1 {
            prev
        } else {
            prev.update(idx, Some(ev.last().1))
        }
    }
}

/// Applied export slots keep one slot per declared name.
pub proof fn lemma_applied_len(dv: Seq<Seq<u8>>, ev: Seq<(Seq<u8>, crate::value::ValView)>)
    ensures
        applied_values(dv, ev).len() == dv.len(),
    decreases ev.len(),
{
    if ev.len() > 0 {
        lemma_applied_len(dv, ev.drop_last());
        if find_name(dv, ev.last().0) != -1 {
            lemma_find_name_char(dv, ev.last().0);
        }
    }
}

/// The module record a host-authored module registers.
pub open spec fn native_module(
    name: Seq<u8>,
    ctx: int,
    dv: Seq<Seq<u8>>,
    ev: Seq<(Seq<u8>, crate::value::ValView)>,
) -> ModuleView {
    ModuleView {
        name: name,
        ctx: ctx,
        native: true,
        phase: ModulePhase::Unevaluated,
        imports: Seq::empty(),
        declared: dv,
        values: applied_values(dv, ev),
        body: Seq::empty(),
    }
}


/// The views of a batch's (name, source) pairs.
pub open spec fn pairs_view(s: Seq<(Vec<u8>, Vec<u8>)>) -> Seq<(Seq<u8>, Seq<u8>)> {
    s.map_values(|p: (Vec<u8>, Vec<u8>)| (p.0@, p.1@))
}

/// A batch entry can be compiled: its name is representable and its
/// source matches the grammar.
pub open spec fn entry_ok(p: (Seq<u8>, Seq<u8>)) -> bool {
    !crate::has_nul(p.0) && crate::syntax::spec_parse(p.1) is Some
}

/// The engine after compiling the remaining batch entries in order, or
/// the first compile error, under the engine's own allocator.
pub open spec fn batch_compile(
    e: EngineView,
    ctx: int,
    entries: Seq<(Seq<u8>, Seq<u8>)>,
) -> Result<EngineView, crate::ErrorView>
    decreases entries.len(),
{
    if entries.len() == 0 {
        Ok(e)
    } else {
        match compile_step(e, ctx, entries[0].0, entries[0].1) {
            Err(k) => Err(k),
            Ok(e2) => batch_compile(e2, ctx, entries.drop_first()),
        }
    }
}

/// The engine after evaluating `n` registered modules starting at
/// `mid`, in order, or the first evaluation error, with no interrupt
/// handler and the engine's own allocator.
pub open spec fn batch_eval(e: EngineView, mid: int, n: int) -> Result<EngineView, crate::ErrorView>
    decreases n,
{
    if n <= 0 {
        Ok(e)
    } else {
        match eval_step(e, mid) {
            Err(k) => Err(k),
            Ok(e2) => batch_eval(e2, mid + 1, n - 1),
        }
    }
}

/// What a whole batch does: compile every entry in registration order,
/// then — only if all compiled — evaluate the registered modules
/// strictly in the same order, stopping at the first error.
pub open spec fn batch_outcome(
    e: EngineView,
    ctx: int,
    entries: Seq<(Seq<u8>, Seq<u8>)>,
) -> Result<EngineView, crate::ErrorView> {
    match batch_compile(e, ctx, entries) {
        Err(k) => Err(k),
        Ok(e1) => batch_eval(e1, e.modules.len() as int, entries.len() as int),
    }
}

/// Batches multiple named sources so that all of them are compiled
/// before any is evaluated: mutual imports between the batch's members
/// can only resolve once every member is registered.
///
/// A mid-batch failure invalidates every module of the runtime that is
/// still unevaluated — the batch's own not-yet-evaluated members
/// included; the already-evaluated prefix remains valid. When any
/// member's source cannot be compiled, nothing is evaluated at all.
#[derive(Debug)]
pub struct ModuleBuilder {
    /// The batched (name, source) pairs, in registration order.
    pub entries: Vec<(Vec<u8>, Vec<u8>)>,
}

impl ModuleBuilder {
    /// An empty batch.
    pub fn new() -> (r: ModuleBuilder)
        ensures
            r.entries@.len() == 0,
    {
        ModuleBuilder { entries: Vec::new() }
    }

    /// Add a named source to the batch, by value.
    pub fn compile(self, name: Vec<u8>, source: Vec<u8>) -> (r: Result<ModuleBuilder, Error>)
        ensures
            r matches Ok(b) && pairs_view(b.entries@) == pairs_view(self.entries@).push(
                (name@, source@),
            ),
    {
        let mut b = self;
        let ghost oldv = pairs_view(b.entries@);
        b.entries.push((name, source));
        proof {
            assert(pairs_view(b.entries@) =~= oldv.push(
                (b.entries@.last().0@, b.entries@.last().1@),
            ));
        }
        Ok(b)
    }

    /// Add a named source to the batch, in place.
    pub fn with_compile(&mut self, name: Vec<u8>, source: Vec<u8>) -> (r: Result<(), Error>)
        ensures
            r is Ok,
            pairs_view(final(self).entries@) == pairs_view(old(self).entries@).push(
                (name@, source@),
            ),
    {
        let ghost oldv = pairs_view(self.entries@);
        self.entries.push((name, source));
        proof {
            assert(pairs_view(self.entries@) =~= oldv.push(
                (self.entries@.last().0@, self.entries@.last().1@),
            ));
        }
        Ok(())
    }

    /// Compile every batched entry, in registration order, then — only
    /// if every compile succeeded — evaluate the compiled modules
    /// strictly in the same order, stopping at the first failure.
    #[verifier::rlimit(100)]
    pub fn eval<A: Allocator, H: InterruptHandler, R: Resolver, L: Loader>(
        self,
        rt: &mut RuntimeHandle<A, H, R, L>,
        ctx: usize,
    ) -> (r: Result<Vec<Module>, Error>)
        requires
            engine_wf(old(rt).engine@),
            ctx < old(rt).engine@.contexts.len(),
        ensures
            engine_wf(final(rt).engine@),
            (final(rt).allocator is Some) == (old(rt).allocator is Some),
            (final(rt).loader is Some) == (old(rt).loader is Some),
            (final(rt).opaque.handler is Some) == (old(rt).opaque.handler is Some),
            same_runtime_config(final(rt).engine@, old(rt).engine@),
            final(rt).engine@.contexts.len() == old(rt).engine@.contexts.len(),
            r matches Ok(ms) ==> ({
                let pv = pairs_view(self.entries@);
                let old_len = old(rt).engine@.modules.len();
                &&& ms@.len() == pv.len()
                &&& final(rt).engine@.modules.len() >= old_len + pv.len()
                &&& (old(rt).loader is None ==> final(rt).engine@.modules.len() == old_len
                    + pv.len())
                &&& forall|q: int|
                    0 <= q < pv.len() ==> ((#[trigger] ms@[q]).def as int == old_len + q
                        && ms@[q].ctx == ctx && module_of(final(rt).engine@, ms@[q]).phase
                        == ModulePhase::Evaluated && module_of(final(rt).engine@, ms@[q]).name
                        == pv[q].0)
                &&& forall|i: int|
                    0 <= i < old_len ==> #[trigger] final(rt).engine@.modules[i] == old(rt).engine@.modules[i]
            }),
            (exists|j: int|
                0 <= j < pairs_view(self.entries@).len() && !entry_ok(
                    #[trigger] pairs_view(self.entries@)[j],
                )) ==> (r is Err && forall|i: int|
                0 <= i < final(rt).engine@.modules.len() ==> ((#[trigger] final(rt).engine@.modules[i]).phase == ModulePhase::Evaluated ==> (i < old(rt).engine@.modules.len() && old(rt).engine@.modules[i].phase
                    == ModulePhase::Evaluated))),
            r is Err ==> forall|i: int|
                0 <= i < old(rt).engine@.modules.len() ==> ((#[trigger] old(rt).engine@.modules[i]).phase
                    == ModulePhase::Evaluated ==> final(rt).engine@.modules[i] == old(rt).engine@.modules[i]),
            (old(rt).allocator is None && old(rt).opaque.handler is None
                && old(rt).loader is None) ==> match batch_outcome(
                old(rt).engine@,
                ctx as int,
                pairs_view(self.entries@),
            ) {
                Ok(e2) => r is Ok && final(rt).engine@ == e2,
                Err(k) => r matches Err(e) && e@ == k,
            },
            (old(rt).allocator is None && old(rt).opaque.handler is None
                && old(rt).loader is None && batch_compile(
                old(rt).engine@,
                ctx as int,
                pairs_view(self.entries@),
            ) is Err) ==> final(rt).engine@.modules.len() < old(rt).engine@.modules.len()
                + pairs_view(self.entries@).len(),
            r is Err ==> ({
                let old_len = old(rt).engine@.modules.len();
                let pv = pairs_view(self.entries@);
                &&& (forall|q: int|
                    0 <= q < pv.len() && old_len + q < final(rt).engine@.modules.len() && (
                    #[trigger] final(rt).engine@.modules[old_len + q]).phase
                        == ModulePhase::Evaluated ==> final(rt).engine@.modules[old_len + q].name
                        == pv[q].0)
                &&& (forall|q1: int, q2: int|
                    0 <= q1 < q2 < pv.len() && old_len + q2 < final(rt).engine@.modules.len() && (
                    #[trigger] final(rt).engine@.modules[old_len + q2]).phase
                        == ModulePhase::Evaluated ==> (#[trigger] final(rt).engine@.modules[old_len
                        + q1]).phase == ModulePhase::Evaluated)
            }),
    {
        let ghost e_start = rt.engine@;
        let ghost pv = pairs_view(self.entries@);
        let old_len = rt.engine.modules.len();
        let n = self.entries.len();
        proof {
            assert(pv.skip(0) =~= pv);
        }
        let mut handles: Vec<Module> = Vec::new();
        let mut k: usize = 0;
        while k < n
            invariant
                k <= n,
                n == self.entries@.len(),
                pv == pairs_view(self.entries@),
                e_start == old(rt).engine@,
                engine_wf(e_start),
                engine_wf(rt.engine@),
                ctx < e_start.contexts.len(),
                old_len == e_start.modules.len(),
                rt.engine@.modules.len() == old_len + k,
                rt.engine@.contexts == e_start.contexts,
                same_runtime_config(rt.engine@, e_start),
                (rt.allocator is Some) == (old(rt).allocator is Some),
                (rt.loader is Some) == (old(rt).loader is Some),
                old(rt).loader is None ==> rt.loader is None,
                old(rt).allocator is None ==> rt.allocator is None,
                rt.opaque == old(rt).opaque,
                forall|i: int|
                    0 <= i < old_len ==> #[trigger] rt.engine@.modules[i] == e_start.modules[i],
                handles@.len() == k,
                forall|q: int|
                    0 <= q < k ==> ((#[trigger] handles@[q]).def as int == old_len + q
                        && handles@[q].ctx == ctx),
                forall|q: int|
                    0 <= q < k ==> ((#[trigger] rt.engine@.modules[old_len + q]).phase
                        == ModulePhase::Unevaluated && rt.engine@.modules[old_len + q].name
                        == pv[q].0 && rt.engine@.modules[old_len + q].ctx == ctx as int
                        && !rt.engine@.modules[old_len + q].native),
                forall|q: int| 0 <= q < k ==> entry_ok(#[trigger] pv[q]),
                (old(rt).allocator is None && old(rt).opaque.handler is None
                    && old(rt).loader is None) ==> batch_compile(
                    e_start,
                    ctx as int,
                    pv,
                ) == batch_compile(rt.engine@, ctx as int, pv.skip(k as int)),
            decreases n - k,
        {
            let name_c = crate::syntax::copy_bytes(&self.entries[k].0);
            let src_c = crate::syntax::copy_bytes(&self.entries[k].1);
            proof {
                assert(pv[k as int] == (self.entries@[k as int].0@, self.entries@[k as int].1@));
            }
            let ghost pre = rt.engine@;
            match Module::unsafe_define(rt, ctx, name_c, src_c) {
                Err(_e) => {
                    proof {
                        if old(rt).allocator is None && old(rt).opaque.handler is None
                            && old(rt).loader is None {
                            assert(pv.skip(k as int)[0] == pv[k as int]);
                            assert(compile_step(pre, ctx as int, pv[k as int].0, pv[k as int].1)
                                == Err::<EngineView, crate::ErrorView>(_e@));
                            assert(batch_compile(pre, ctx as int, pv.skip(k as int))
                                == Err::<EngineView, crate::ErrorView>(_e@));
                            assert(batch_outcome(e_start, ctx as int, pv) == Err::<
                                EngineView,
                                crate::ErrorView,
                            >(_e@));
                        }
                        crate::engine::lemma_invalidate_phases(pre);
                        assert forall|i: int|
                            0 <= i < rt.engine@.modules.len() implies (((
                        #[trigger] rt.engine@.modules[i]).phase == ModulePhase::Evaluated ==> (i
                            < old_len && e_start.modules[i].phase == ModulePhase::Evaluated)) && ((
                        i < old_len && e_start.modules[i].phase == ModulePhase::Evaluated)
                            ==> rt.engine@.modules[i] == e_start.modules[i])) by {
                            if _e@ is Encoding {
                                assert(rt.engine@.modules[i] == pre.modules[i]);
                            } else {
                                assert(rt.engine@.modules[i] == crate::engine::invalidate_engine(
                                    pre,
                                ).modules[i]);
                            }
                            if i < old_len {
                                assert(pre.modules[i] == e_start.modules[i]);
                            } else {
                                let q = i - old_len;
                                assert(pre.modules[old_len + q].phase == ModulePhase::Unevaluated);
                            }
                        }
                        assert(rt.engine@.modules.len() == old_len + k);
                        assert(k < n);
                        assert forall|q: int|
                            0 <= q < pv.len() && old_len + q < rt.engine@.modules.len() implies (
                        #[trigger] rt.engine@.modules[old_len + q]).phase
                            != ModulePhase::Evaluated by {
                            assert(rt.engine@.modules[old_len + q].phase
                                == ModulePhase::Evaluated ==> old_len + q < old_len);
                        }
                    }
                    return Err(_e);
                },
                Ok(m) => {
                    proof {
                        if old(rt).allocator is None && old(rt).opaque.handler is None
                            && old(rt).loader is None {
                            assert(pv.skip(k as int)[0] == pv[k as int]);
                            assert(compile_step(pre, ctx as int, pv[k as int].0, pv[k as int].1)
                                == Ok::<EngineView, crate::ErrorView>(rt.engine@));
                            assert(pv.skip(k as int).drop_first() =~= pv.skip(k as int + 1));
                            assert(batch_compile(pre, ctx as int, pv.skip(k as int))
                                == batch_compile(rt.engine@, ctx as int, pv.skip(k as int + 1)));
                        }
                    }
                    handles.push(m);
                },
            }
            k += 1;
        }
        proof {
            if old(rt).allocator is None && old(rt).opaque.handler is None
                && old(rt).loader is None {
                assert(pv.skip(n as int).len() == 0);
                assert(batch_compile(e_start, ctx as int, pv) == Ok::<EngineView, crate::ErrorView>(
                    rt.engine@,
                ));
            }
        }
        let ghost e_compiled = rt.engine@;
        let mut k2: usize = 0;
        while k2 < n
            invariant
                k2 <= n,
                n == self.entries@.len(),
                pv == pairs_view(self.entries@),
                e_start == old(rt).engine@,
                engine_wf(e_start),
                engine_wf(rt.engine@),
                old_len == e_start.modules.len(),
                rt.engine@.modules.len() >= old_len + n,
                old(rt).loader is None ==> rt.engine@.modules.len() == old_len + n,
                (old(rt).allocator is None && old(rt).opaque.handler is None
                    && old(rt).loader is None) ==> batch_compile(e_start, ctx as int, pv) is Ok,
                rt.engine@.contexts.len() == e_start.contexts.len(),
                same_runtime_config(rt.engine@, e_start),
                (rt.allocator is Some) == (old(rt).allocator is Some),
                (rt.loader is Some) == (old(rt).loader is Some),
                old(rt).loader is None ==> rt.loader is None,
                (rt.opaque.handler is Some) == (old(rt).opaque.handler is Some),
                forall|i: int|
                    0 <= i < old_len ==> #[trigger] rt.engine@.modules[i] == e_start.modules[i],
                handles@.len() == n,
                forall|q: int|
                    0 <= q < n ==> ((#[trigger] handles@[q]).def as int == old_len + q
                        && handles@[q].ctx == ctx),
                forall|q: int|
                    0 <= q < k2 ==> ((#[trigger] rt.engine@.modules[old_len + q]).phase
                        == ModulePhase::Evaluated && rt.engine@.modules[old_len + q].name
                        == pv[q].0),
                forall|q: int|
                    k2 <= q < n ==> ((#[trigger] rt.engine@.modules[old_len + q]).phase
                        == ModulePhase::Unevaluated && rt.engine@.modules[old_len + q].name
                        == pv[q].0 && rt.engine@.modules[old_len + q].ctx == ctx as int),
                forall|q: int| 0 <= q < n ==> entry_ok(#[trigger] pv[q]),
                (old(rt).allocator is None && old(rt).opaque.handler is None
                    && old(rt).loader is None) ==> batch_outcome(
                    e_start,
                    ctx as int,
                    pv,
                ) == batch_eval(rt.engine@, old_len + k2 as int, n - k2 as int),
            decreases n - k2,
        {
            let m = handles[k2];
            let ghost pre = rt.engine@;
            proof {
                assert(module_of(pre, m).phase == ModulePhase::Unevaluated);
            }
            match m.eval(rt) {
                Err(e) => {
                    proof {
                        if old(rt).allocator is None && old(rt).opaque.handler is None
                            && old(rt).loader is None {
                            assert(eval_step(pre, old_len + k2 as int) == Err::<
                                EngineView,
                                crate::ErrorView,
                            >(e@));
                            assert(batch_eval(pre, old_len + k2 as int, n - k2 as int) == Err::<
                                EngineView,
                                crate::ErrorView,
                            >(e@));
                        }
                        assert forall|i: int|
                            0 <= i < old_len implies ((#[trigger] e_start.modules[i]).phase
                            == ModulePhase::Evaluated ==> rt.engine@.modules[i]
                            == e_start.modules[i]) by {
                            if e_start.modules[i].phase == ModulePhase::Evaluated {
                                assert(pre.modules[i] == e_start.modules[i]);
                            }
                        }
                        assert forall|q: int|
                            0 <= q < pv.len() && old_len + q < rt.engine@.modules.len() && (
                        #[trigger] rt.engine@.modules[old_len + q]).phase
                            == ModulePhase::Evaluated implies rt.engine@.modules[old_len + q].name
                            == pv[q].0 by {
                            if q >= k2 {
                                assert(pre.modules[old_len + q].phase == ModulePhase::Unevaluated);
                                assert(rt.engine@.modules[old_len + q].phase
                                    == ModulePhase::Invalidated);
                            } else {
                                assert(pre.modules[old_len + q].phase == ModulePhase::Evaluated);
                                assert(rt.engine@.modules[old_len + q] == pre.modules[old_len + q]);
                            }
                        }
                        assert forall|q1: int, q2: int|
                            0 <= q1 < q2 < pv.len() && old_len + q2 < rt.engine@.modules.len() && (
                        #[trigger] rt.engine@.modules[old_len + q2]).phase
                            == ModulePhase::Evaluated implies (#[trigger] rt.engine@.modules[old_len
                            + q1]).phase == ModulePhase::Evaluated by {
                            if q2 >= k2 {
                                assert(pre.modules[old_len + q2].phase == ModulePhase::Unevaluated);
                                assert(rt.engine@.modules[old_len + q2].phase
                                    == ModulePhase::Invalidated);
                            } else {
                                assert(pre.modules[old_len + q1].phase == ModulePhase::Evaluated);
                                assert(rt.engine@.modules[old_len + q1] == pre.modules[old_len
                                    + q1]);
                            }
                        }
                    }
                    return Err(e);
                },
                Ok(()) => {
                    proof {
                        if old(rt).allocator is None && old(rt).opaque.handler is None
                            && old(rt).loader is None {
                            assert(eval_step(pre, old_len + k2 as int) == Ok::<
                                EngineView,
                                crate::ErrorView,
                            >(rt.engine@));
                            assert(batch_eval(pre, old_len + k2 as int, n - k2 as int)
                                == batch_eval(rt.engine@, old_len + k2 as int + 1, n - k2 as int
                                - 1));
                        }
                        assert(module_of(rt.engine@, m).phase == ModulePhase::Evaluated);
                        assert forall|q: int|
                            0 <= q < k2 + 1 implies ((#[trigger] rt.engine@.modules[old_len
                            + q]).phase == ModulePhase::Evaluated && rt.engine@.modules[old_len
                            + q].name == pv[q].0) by {
                            if q < k2 {
                                assert(rt.engine@.modules[old_len + q] == pre.modules[old_len + q]);
                            }
                        }
                        assert forall|q: int|
                            k2 + 1 <= q < n implies ((#[trigger] rt.engine@.modules[old_len
                            + q]).phase == ModulePhase::Unevaluated && rt.engine@.modules[old_len
                            + q].name == pv[q].0 && rt.engine@.modules[old_len + q].ctx
                            == ctx as int) by {
                            assert(rt.engine@.modules[old_len + q] == pre.modules[old_len + q]);
                        }
                    }
                },
            }
            k2 += 1;
        }
        proof {
            if old(rt).allocator is None && old(rt).opaque.handler is None
                && old(rt).loader is None {
                assert(batch_eval(rt.engine@, old_len + n as int, 0) == Ok::<
                    EngineView,
                    crate::ErrorView,
                >(rt.engine@));
            }
        }
        Ok(handles)
    }
}

impl Default for ModuleBuilder {
    /// An empty batch.
    fn default() -> (r: Self)
        ensures
            r.entries@.len() == 0,
    {
        ModuleBuilder::new()
    }
}

} // verus!
