//! The modelled engine state: module registry, execution contexts,
//! pending-job queue and memory accounting, together with the exact
//! semantics of module-body evaluation.
use vstd::prelude::*;

use crate::syntax::Import;
use crate::syntax::ImportView;
use crate::syntax::Stmt;
use crate::syntax::StmtView;
use crate::syntax::ExprView;
use crate::value::JsValue;
use crate::value::ValView;
use crate::errors::ErrorView;

verus! {

/// The lifecycle tag of a module.
///
/// An `Unevaluated` module is provisional: any compile or evaluate
/// failure on the same runtime invalidates it. Using an invalidated
/// handle is forbidden by the contracts of every module operation.
#[derive(Debug, Clone, Copy, PartialEq, Eq, Structural)]
pub enum ModulePhase {
    /// Compiled, top-level code not yet run.
    Unevaluated,
    /// Top-level code ran to completion; exports are queryable.
    Evaluated,
    /// Invalidated as a side effect of a failure on the same runtime.
    Invalidated,
}

/// One module registered with the engine.
#[derive(Debug)]
pub struct ModuleRecord {
    /// The module's registered name.
    pub name: Vec<u8>,
    /// The execution context the module was compiled in.
    pub ctx: usize,
    /// Whether the module is host-authored rather than compiled from
    /// source.
    pub native: bool,
    /// The lifecycle tag.
    pub phase: ModulePhase,
    /// Import clauses, in textual order (always empty for host-authored
    /// modules).
    pub imports: Vec<Import>,
    /// Declared export names, in textual (script) or declaration
    /// (host-authored) order, without duplicates.
    pub declared: Vec<Vec<u8>>,
    /// Export values, one slot per declared name; `None` until written.
    pub values: Vec<Option<JsValue>>,
    /// Body statements of a script module, in textual order.
    pub body: Vec<Stmt>,
}

/// The mathematical model of a [`ModuleRecord`].
pub struct ModuleView {
    pub name: Seq<u8>,
    pub ctx: int,
    pub native: bool,
    pub phase: ModulePhase,
    pub imports: Seq<ImportView>,
    pub declared: Seq<Seq<u8>>,
    pub values: Seq<Option<ValView>>,
    pub body: Seq<StmtView>,
}

/// The views of a sequence of optional values.
pub open spec fn views_of_vals(s: Seq<Option<JsValue>>) -> Seq<Option<ValView>> {
    s.map_values(
        |o: Option<JsValue>|
            match o {
                Some(v) => Some(v@),
                None => None,
            },
    )
}

/// The view of a name/value table.
pub open spec fn tbl_view(t: Seq<(Vec<u8>, JsValue)>) -> Seq<(Seq<u8>, ValView)> {
    t.map_values(|p: (Vec<u8>, JsValue)| (p.0@, p.1@))
}

impl View for ModuleRecord {
    type V = ModuleView;

    open spec fn view(&self) -> ModuleView {
        ModuleView {
            name: self.name@,
            ctx: self.ctx as int,
            native: self.native,
            phase: self.phase,
            imports: self.imports@.map_values(|i: Import| i@),
            declared: crate::syntax::views_of_bytes(self.declared@),
            values: views_of_vals(self.values@),
            body: self.body@.map_values(|s: Stmt| s@),
        }
    }
}

/// One execution context living inside the runtime: in the model, its
/// global table. The table is append-only; a lookup takes the latest
/// entry for a name.
#[derive(Debug)]
pub struct CtxRecord {
    pub globals: Vec<(Vec<u8>, JsValue)>,
}

/// The mathematical model of a [`CtxRecord`].
pub struct CtxView {
    pub globals: Seq<(Seq<u8>, ValView)>,
}

impl View for CtxRecord {
    type V = CtxView;

    open spec fn view(&self) -> CtxView {
        CtxView { globals: tbl_view(self.globals@) }
    }
}

/// One entry of the engine's internal microtask queue. The model's job
/// is a single deferred global write, with the context it runs in.
#[derive(Debug)]
pub struct Job {
    pub ctx: usize,
    pub name: Vec<u8>,
    pub value: JsValue,
}

/// The mathematical model of a [`Job`].
pub struct JobView {
    pub ctx: int,
    pub name: Seq<u8>,
    pub value: ValView,
}

impl View for Job {
    type V = JobView;

    open spec fn view(&self) -> JobView {
        JobView { ctx: self.ctx as int, name: self.name@, value: self.value@ }
    }
}

/// The engine's runtime resource: everything the engine manages on
/// behalf of one runtime.
#[derive(Debug)]
pub struct Engine {
    /// The module registry; a module handle is an index into it.
    pub modules: Vec<ModuleRecord>,
    /// The execution contexts; a context handle is an index into it.
    pub contexts: Vec<CtxRecord>,
    /// The pending-job queue, front at index 0.
    pub jobs: Vec<Job>,
    /// Total bytes accounted as allocated.
    pub mem_used: usize,
    /// The allocation cap; `0` means unlimited.
    pub mem_limit: usize,
    /// The garbage-collection threshold.
    pub gc_threshold: usize,
    /// The stack-size cap.
    pub max_stack: usize,
    /// Whether the current driving thread has recorded its stack bound.
    pub stack_top_fresh: bool,
    /// The diagnostic info string, once set.
    pub info: Option<Vec<u8>>,
}

/// The mathematical model of an [`Engine`].
pub struct EngineView {
    pub modules: Seq<ModuleView>,
    pub contexts: Seq<CtxView>,
    pub jobs: Seq<JobView>,
    pub mem_used: int,
    pub mem_limit: int,
    pub gc_threshold: int,
    pub max_stack: int,
    pub stack_top_fresh: bool,
    pub info: Option<Seq<u8>>,
}

impl View for Engine {
    type V = EngineView;

    open spec fn view(&self) -> EngineView {
        EngineView {
            modules: self.modules@.map_values(|m: ModuleRecord| m@),
            contexts: self.contexts@.map_values(|c: CtxRecord| c@),
            jobs: self.jobs@.map_values(|j: Job| j@),
            mem_used: self.mem_used as int,
            mem_limit: self.mem_limit as int,
            gc_threshold: self.gc_threshold as int,
            max_stack: self.max_stack as int,
            stack_top_fresh: self.stack_top_fresh,
            info: match self.info {
                Some(ref i) => Some(i@),
                None => None,
            },
        }
    }
}

// ---------------------------------------------------------------------
// Well-formedness.
// ---------------------------------------------------------------------

/// A body statement only initializes export slots the module declares.
pub open spec fn stmt_wf(s: StmtView, nslots: int) -> bool {
    match s {
        StmtView::ExportInit(i, _) => 0 <= i < nslots,
        StmtView::GlobalAssign(_, _) => true,
    }
}

/// A registered module is internally consistent.
pub open spec fn module_wf(m: ModuleView, nctx: int) -> bool {
    &&& m.values.len() == m.declared.len()
    &&& 0 <= m.ctx < nctx
    &&& forall|k: int|
        0 <= k < m.body.len() ==> stmt_wf(#[trigger] m.body[k], m.declared.len() as int)
    &&& (m.native ==> m.body.len() == 0 && m.imports.len() == 0)
}

/// The engine state is internally consistent: every module and every
/// queued job refers to an existing context, and modules are
/// well-formed.
pub open spec fn engine_wf(e: EngineView) -> bool {
    &&& forall|i: int|
        0 <= i < e.modules.len() ==> module_wf(#[trigger] e.modules[i], e.contexts.len() as int)
    &&& forall|i: int| 0 <= i < e.jobs.len() ==> 0 <= (#[trigger] e.jobs[i]).ctx < e.contexts.len()
}

// ---------------------------------------------------------------------
// Lookup semantics.
// ---------------------------------------------------------------------

/// The value bound to `k` in an append-only table: the latest entry for
/// `k` wins.
pub open spec fn tbl_get(t: Seq<(Seq<u8>, ValView)>, k: Seq<u8>) -> Option<ValView>
    decreases t.len(),
{
    if t.len() == 0 {
        None
    } else if t.last().0 == k {
        Some(t.last().1)
    } else {
        tbl_get(t.drop_last(), k)
    }
}

/// The first module of the registry with the given name, or `-1`.
pub open spec fn find_module(mods: Seq<ModuleView>, name: Seq<u8>) -> int
    decreases mods.len(),
{
    if mods.len() == 0 {
        -1
    } else if mods[0].name == name {
        0
    } else {
        let r = find_module(mods.drop_first(), name);
        if r == -1 {
            -1
        } else {
            r + 1
        }
    }
}

/// The first index of `n` among `names`, or `-1`.
pub open spec fn find_name(names: Seq<Seq<u8>>, n: Seq<u8>) -> int
    decreases names.len(),
{
    if names.len() == 0 {
        -1
    } else if names[0] == n {
        0
    } else {
        let r = find_name(names.drop_first(), n);
        if r == -1 {
            -1
        } else {
            r + 1
        }
    }
}

/// The export value a module presents for a declared name: the slot's
/// value, or `Undefined` while the slot is unwritten; `None` when the
/// name was never declared.
pub open spec fn export_val(m: ModuleView, n: Seq<u8>) -> Option<ValView> {
    let i = find_name(m.declared, n);
    if i == -1 {
        None
    } else {
        match m.values[i] {
            Some(v) => Some(v),
            None => Some(ValView::Undefined),
        }
    }
}

/// An import clause resolves: the named module is registered and
/// declares the imported name.
pub open spec fn import_ok(mods: Seq<ModuleView>, im: ImportView) -> bool {
    let mi = find_module(mods, im.from_module);
    mi >= 0 && find_name(mods[mi].declared, im.local) >= 0
}

/// The first import clause that does not resolve, or `-1`.
pub open spec fn first_bad_import(mods: Seq<ModuleView>, imports: Seq<ImportView>) -> int
    decreases imports.len(),
{
    if imports.len() == 0 {
        -1
    } else if !import_ok(mods, imports[0]) {
        0
    } else {
        let r = first_bad_import(mods, imports.drop_first());
        if r == -1 {
            -1
        } else {
            r + 1
        }
    }
}

/// The message of the resolution exception for a failing import: the
/// module specifier when no module of that name is registered, else the
/// imported name.
pub open spec fn bad_import_msg(mods: Seq<ModuleView>, im: ImportView) -> Seq<u8> {
    if find_module(mods, im.from_module) == -1 {
        im.from_module
    } else {
        im.local
    }
}

/// The value an import binding carries at evaluation time: the export
/// value of the resolved module, `Undefined` while that module's slot is
/// unwritten.
pub open spec fn binding_val(mods: Seq<ModuleView>, im: ImportView) -> ValView {
    let mi = find_module(mods, im.from_module);
    if mi == -1 {
        ValView::Undefined
    } else {
        match export_val(mods[mi], im.local) {
            Some(v) => v,
            None => ValView::Undefined,
        }
    }
}

/// The import environment of a module: one binding per import clause, in
/// order.
pub open spec fn env_of(mods: Seq<ModuleView>, imports: Seq<ImportView>) -> Seq<
    (Seq<u8>, ValView),
> {
    Seq::new(imports.len(), |j: int| (imports[j].local, binding_val(mods, imports[j])))
}

// ---------------------------------------------------------------------
// Evaluation semantics.
// ---------------------------------------------------------------------

/// The parts of the engine state a module body can change.
pub struct EvalState {
    /// The globals of the module's context.
    pub globals: Seq<(Seq<u8>, ValView)>,
    /// The module's export slots.
    pub values: Seq<Option<ValView>>,
    /// The accounted allocation total.
    pub used: int,
}

/// The outcome of running a body prefix.
pub enum EvalOut {
    /// All statements ran; the resulting state.
    Done(EvalState),
    /// A statement failed; the state at the failure and the error.
    Fail(EvalState, ErrorView),
}

/// Allocation accounting: a request of `n` bytes is granted when the cap
/// is off or the total stays within it.
pub open spec fn grant(limit: int, used: int, n: int) -> bool {
    limit == 0 || used + n <= limit
}

/// Allocation totals saturate at the counter's width.
pub open spec fn sat_add(used: int, n: int) -> int {
    if used + n <= usize::MAX as int {
        used + n
    } else {
        usize::MAX as int
    }
}

/// A non-zero cap really caps: every granted request keeps the
/// accounted total within the limit, so execution that keeps allocating
/// against a non-zero limit is eventually refused with an allocation
/// error; a zero limit grants every request.
pub proof fn lemma_cap_bounds_usage(limit: int, used: int, n: int)
    requires
        0 <= n,
        0 <= used,
    ensures
        limit > 0 && grant(limit, used, n) ==> sat_add(used, n) <= limit,
        limit == 0 ==> grant(limit, used, n),
{
}

/// The value of an expression under an import environment; `None` for an
/// identifier with no binding.
pub open spec fn expr_val(e: ExprView, env: Seq<(Seq<u8>, ValView)>) -> Option<ValView> {
    match e {
        ExprView::IntLit(n) => Some(ValView::Int(n)),
        ExprView::StrLit(s) => Some(ValView::Str(s)),
        ExprView::FunLit => Some(ValView::Function),
        ExprView::ClassLit => Some(ValView::Class),
        ExprView::Ident(n) => tbl_get(env, n),
    }
}

/// The bytes evaluating an expression allocates.
pub open spec fn expr_cost(e: ExprView) -> int {
    match e {
        ExprView::StrLit(s) => s.len() as int,
        _ => 0,
    }
}

/// The name an unresolvable expression reports.
pub open spec fn expr_name(e: ExprView) -> Seq<u8> {
    match e {
        ExprView::Ident(n) => n,
        _ => Seq::empty(),
    }
}

/// Run one statement: resolve the expression, charge its allocation,
/// apply its write.
pub open spec fn step_stmt(
    s: StmtView,
    env: Seq<(Seq<u8>, ValView)>,
    st: EvalState,
    limit: int,
) -> EvalOut {
    let ex = match s {
        StmtView::GlobalAssign(_, e) => e,
        StmtView::ExportInit(_, e) => e,
    };
    match expr_val(ex, env) {
        None => EvalOut::Fail(st, ErrorView::Exception(expr_name(ex))),
        Some(v) => if !grant(limit, st.used, expr_cost(ex)) {
            EvalOut::Fail(st, ErrorView::Allocation)
        } else {
            let st2 = match s {
                StmtView::GlobalAssign(n, _) => EvalState {
                    globals: st.globals.push((n, v)),
                    ..st
                },
                StmtView::ExportInit(i, _) => EvalState { values: st.values.update(i, Some(v)), ..st },
            };
            EvalOut::Done(EvalState { used: sat_add(st.used, expr_cost(ex)), ..st2 })
        },
    }
}

/// Run the statements of a body in order, stopping at the first failure.
pub open spec fn run_stmts(
    body: Seq<StmtView>,
    env: Seq<(Seq<u8>, ValView)>,
    st: EvalState,
    limit: int,
) -> EvalOut
    decreases body.len(),
{
    if body.len() == 0 {
        EvalOut::Done(st)
    } else {
        match step_stmt(body[0], env, st, limit) {
            EvalOut::Done(st2) => run_stmts(body.drop_first(), env, st2, limit),
            EvalOut::Fail(st2, k) => EvalOut::Fail(st2, k),
        }
    }
}

/// Running one more statement after a prefix composes: the run of
/// `b[..i+1]` is the run of `b[..i]` followed by `b[i]`.
pub proof fn lemma_run_snoc(
    b: Seq<StmtView>,
    env: Seq<(Seq<u8>, ValView)>,
    st: EvalState,
    limit: int,
    i: int,
)
    requires
        0 <= i < b.len(),
    ensures
        run_stmts(b.take(i + 1), env, st, limit) == (match run_stmts(b.take(i), env, st, limit) {
            EvalOut::Done(s2) => step_stmt(b[i], env, s2, limit),
            EvalOut::Fail(a, k) => EvalOut::Fail(a, k),
        }),
    decreases i,
{
    if i == 0 {
        assert(b.take(1)[0] == b[0]);
        assert(b.take(0).len() == 0);
        assert(b.take(1).drop_first().len() == 0);
        match step_stmt(b[0], env, st, limit) {
            EvalOut::Done(s2) => {
                assert(run_stmts(b.take(1).drop_first(), env, s2, limit) == EvalOut::Done(s2));
            },
            EvalOut::Fail(_, _) => {},
        }
    } else {
        assert(b.take(i + 1)[0] == b[0]);
        assert(b.take(i)[0] == b[0]);
        assert(b.take(i + 1).drop_first() =~= b.drop_first().take(i));
        assert(b.take(i).drop_first() =~= b.drop_first().take(i - 1));
        assert(b.drop_first()[i - 1] == b[i]);
        match step_stmt(b[0], env, st, limit) {
            EvalOut::Done(s2) => {
                lemma_run_snoc(b.drop_first(), env, s2, limit, i - 1);
                assert(run_stmts(b.take(i + 1), env, st, limit) == run_stmts(
                    b.drop_first().take(i),
                    env,
                    s2,
                    limit,
                ));
                assert(run_stmts(b.take(i), env, st, limit) == run_stmts(
                    b.drop_first().take(i - 1),
                    env,
                    s2,
                    limit,
                ));
            },
            EvalOut::Fail(_, _) => {},
        }
    }
}

/// The expression of a statement.
pub open spec fn stmt_expr(s: StmtView) -> ExprView {
    match s {
        StmtView::GlobalAssign(_, e) => e,
        StmtView::ExportInit(_, e) => e,
    }
}

/// Every identifier a body reads is bound in the import environment.
pub open spec fn body_resolves(body: Seq<StmtView>, env: Seq<(Seq<u8>, ValView)>) -> bool {
    forall|k: int|
        0 <= k < body.len() ==> expr_val(stmt_expr(#[trigger] body[k]), env) is Some
}

/// Success is owed: with the allocation cap off, a body whose
/// identifiers all resolve runs to completion. Together with the
/// evaluation contract this says exactly when evaluating a linked
/// module must succeed.
pub proof fn lemma_run_done(
    body: Seq<StmtView>,
    env: Seq<(Seq<u8>, ValView)>,
    st: EvalState,
    limit: int,
)
    requires
        limit == 0,
        body_resolves(body, env),
    ensures
        run_stmts(body, env, st, limit) is Done,
    decreases body.len(),
{
    if body.len() > 0 {
        assert(expr_val(stmt_expr(body[0]), env) is Some);
        match step_stmt(body[0], env, st, limit) {
            EvalOut::Done(st2) => {
                assert(body.drop_first().len() == body.len() - 1);
                assert forall|k: int|
                    0 <= k < body.drop_first().len() implies expr_val(
                    stmt_expr(#[trigger] body.drop_first()[k]),
                    env,
                ) is Some by {
                    assert(body.drop_first()[k] == body[k + 1]);
                }
                lemma_run_done(body.drop_first(), env, st2, limit);
            },
            EvalOut::Fail(_, _) => {
                assert(false);
            },
        }
    }
}

/// Once a prefix fails, the whole body's run is that same failure.
pub proof fn lemma_run_extend_fail(
    b: Seq<StmtView>,
    env: Seq<(Seq<u8>, ValView)>,
    st: EvalState,
    limit: int,
    j: int,
)
    requires
        0 <= j <= b.len(),
        run_stmts(b.take(j), env, st, limit) is Fail,
    ensures
        run_stmts(b, env, st, limit) == run_stmts(b.take(j), env, st, limit),
    decreases b.len() - j,
{
    if j == b.len() {
        assert(b.take(j) =~= b);
    } else {
        lemma_run_snoc(b, env, st, limit, j);
        lemma_run_extend_fail(b, env, st, limit, j + 1);
    }
}

// ---------------------------------------------------------------------
// Whole-engine transitions.
// ---------------------------------------------------------------------

/// A module after an engine-side failure: provisional modules are gone.
pub open spec fn invalidate_mod(m: ModuleView) -> ModuleView {
    if m.phase == ModulePhase::Unevaluated {
        ModuleView { phase: ModulePhase::Invalidated, ..m }
    } else {
        m
    }
}

/// The engine after any compile or evaluate failure: every module that
/// was still unevaluated is invalidated; nothing else changes.
pub open spec fn invalidate_engine(e: EngineView) -> EngineView {
    EngineView { modules: e.modules.map_values(|m: ModuleView| invalidate_mod(m)), ..e }
}

/// The engine after writing an evaluation state back for module `mid`,
/// giving it phase `phase`.
pub open spec fn apply_eval(e: EngineView, mid: int, st: EvalState, phase: ModulePhase) -> EngineView {
    let m = e.modules[mid];
    EngineView {
        modules: e.modules.update(
            mid,
            ModuleView { phase: phase, values: st.values, ..m },
        ),
        contexts: e.contexts.update(m.ctx, CtxView { globals: st.globals }),
        mem_used: st.used,
        ..e
    }
}

/// The evaluation state of module `mid` as the engine currently holds
/// it.
pub open spec fn state_of(e: EngineView, mid: int) -> EvalState {
    EvalState {
        globals: e.contexts[e.modules[mid].ctx].globals,
        values: e.modules[mid].values,
        used: e.mem_used,
    }
}

// ---------------------------------------------------------------------
// Characterizations of the lookup functions, and executable lookups.
// ---------------------------------------------------------------------

/// `find_name` finds the first occurrence, if any.
pub proof fn lemma_find_name_char(names: Seq<Seq<u8>>, n: Seq<u8>)
    ensures
        find_name(names, n) == -1 ==> forall|j: int| 0 <= j < names.len() ==> names[j] != n,
        find_name(names, n) != -1 ==> 0 <= find_name(names, n) < names.len() && names[find_name(
            names,
            n,
        )] == n && forall|j: int| 0 <= j < find_name(names, n) ==> names[j] != n,
    decreases names.len(),
{
    if names.len() > 0 && names[0] != n {
        lemma_find_name_char(names.drop_first(), n);
        let d = names.drop_first();
        let r = find_name(d, n);
        if r == -1 {
            assert forall|j: int| 0 <= j < names.len() implies names[j] != n by {
                if j > 0 {
                    assert(names[j] == d[j - 1]);
                }
            }
        } else {
            assert(names[r + 1] == d[r]);
            assert forall|j: int| 0 <= j < r + 1 implies names[j] != n by {
                if j > 0 {
                    assert(names[j] == d[j - 1]);
                }
            }
        }
    }
}

/// `find_module` finds the first module of that name, if any.
pub proof fn lemma_find_module_char(mods: Seq<ModuleView>, n: Seq<u8>)
    ensures
        find_module(mods, n) == -1 ==> forall|j: int|
            0 <= j < mods.len() ==> (#[trigger] mods[j]).name != n,
        find_module(mods, n) != -1 ==> 0 <= find_module(mods, n) < mods.len() && mods[find_module(
            mods,
            n,
        )].name == n && forall|j: int|
            0 <= j < find_module(mods, n) ==> (#[trigger] mods[j]).name != n,
    decreases mods.len(),
{
    if mods.len() > 0 && mods[0].name != n {
        lemma_find_module_char(mods.drop_first(), n);
        let d = mods.drop_first();
        let r = find_module(d, n);
        if r == -1 {
            assert forall|j: int| 0 <= j < mods.len() implies (#[trigger] mods[j]).name != n by {
                if j > 0 {
                    assert(mods[j] == d[j - 1]);
                }
            }
        } else {
            assert(mods[r + 1] == d[r]);
            assert forall|j: int| 0 <= j < r + 1 implies (#[trigger] mods[j]).name != n by {
                if j > 0 {
                    assert(mods[j] == d[j - 1]);
                }
            }
        }
    }
}

/// `first_bad_import` finds the first unresolvable import, if any.
pub proof fn lemma_first_bad_char(mods: Seq<ModuleView>, imports: Seq<ImportView>)
    ensures
        first_bad_import(mods, imports) == -1 ==> forall|j: int|
            0 <= j < imports.len() ==> import_ok(mods, #[trigger] imports[j]),
        first_bad_import(mods, imports) != -1 ==> 0 <= first_bad_import(mods, imports)
            < imports.len() && !import_ok(mods, imports[first_bad_import(mods, imports)])
            && forall|j: int|
            0 <= j < first_bad_import(mods, imports) ==> import_ok(mods, #[trigger] imports[j]),
    decreases imports.len(),
{
    if imports.len() > 0 && import_ok(mods, imports[0]) {
        lemma_first_bad_char(mods, imports.drop_first());
        let d = imports.drop_first();
        let r = first_bad_import(mods, d);
        if r == -1 {
            assert forall|j: int| 0 <= j < imports.len() implies import_ok(
                mods,
                #[trigger] imports[j],
            ) by {
                if j > 0 {
                    assert(imports[j] == d[j - 1]);
                }
            }
        } else {
            assert(imports[r + 1] == d[r]);
            assert forall|j: int| 0 <= j < r + 1 implies import_ok(mods, #[trigger] imports[j]) by {
                if j > 0 {
                    assert(imports[j] == d[j - 1]);
                }
            }
        }
    }
}

/// Invalidation changes phases only, so it preserves well-formedness.
pub proof fn lemma_invalidate_wf(e: EngineView)
    requires
        engine_wf(e),
    ensures
        engine_wf(invalidate_engine(e)),
{
    let e2 = invalidate_engine(e);
    assert forall|i: int| 0 <= i < e2.modules.len() implies module_wf(
        #[trigger] e2.modules[i],
        e2.contexts.len() as int,
    ) by {
        assert(e2.modules[i] == invalidate_mod(e.modules[i]));
        assert(module_wf(e.modules[i], e.contexts.len() as int));
    }
}

/// Invalidation after a failure flips no module to evaluated and keeps
/// every evaluated module intact.
pub proof fn lemma_invalidate_phases(e: EngineView)
    ensures
        forall|i: int|
            0 <= i < e.modules.len() ==> (((#[trigger] invalidate_engine(e).modules[i]).phase
                == ModulePhase::Evaluated <==> e.modules[i].phase == ModulePhase::Evaluated) && (
            e.modules[i].phase == ModulePhase::Evaluated ==> invalidate_engine(e).modules[i]
                == e.modules[i])),
{
    assert forall|i: int| 0 <= i < e.modules.len() implies (((
    #[trigger] invalidate_engine(e).modules[i]).phase == ModulePhase::Evaluated <==> e.modules[
        i
    ].phase == ModulePhase::Evaluated) && (e.modules[i].phase == ModulePhase::Evaluated
        ==> invalidate_engine(e).modules[i] == e.modules[i])) by {
        assert(invalidate_engine(e).modules[i] == invalidate_mod(e.modules[i]));
    }
}

/// Invalidation after a failed evaluation of the (still unevaluated)
/// module `mid`: the evaluated set is unchanged, and evaluated modules
/// keep their records.
pub proof fn lemma_invalidate_apply_phases(e: EngineView, mid: int, st: EvalState)
    requires
        0 <= mid < e.modules.len(),
        e.modules[mid].phase == ModulePhase::Unevaluated,
    ensures
        forall|i: int|
            0 <= i < e.modules.len() ==> ((invalidate_engine(
                apply_eval(e, mid, st, ModulePhase::Unevaluated),
            ).modules[i].phase == ModulePhase::Evaluated <==> (#[trigger] e.modules[i]).phase
                == ModulePhase::Evaluated) && (e.modules[i].phase == ModulePhase::Evaluated
                ==> invalidate_engine(apply_eval(e, mid, st, ModulePhase::Unevaluated)).modules[i]
                == e.modules[i])),
{
    let a = apply_eval(e, mid, st, ModulePhase::Unevaluated);
    let f = invalidate_engine(a);
    assert forall|i: int| 0 <= i < e.modules.len() implies (((#[trigger] f.modules[i]).phase
        == ModulePhase::Evaluated <==> e.modules[i].phase == ModulePhase::Evaluated) && (e.modules[
        i
    ].phase == ModulePhase::Evaluated ==> f.modules[i] == e.modules[i])) by {
        assert(f.modules[i] == invalidate_mod(a.modules[i]));
        if i != mid {
            assert(a.modules[i] == e.modules[i]);
        }
    }
}

/// Invalidation turns every still-unevaluated module invalid.
pub proof fn lemma_invalidate_unev(e: EngineView)
    ensures
        forall|i: int|
            0 <= i < e.modules.len() && (#[trigger] e.modules[i]).phase
                == ModulePhase::Unevaluated ==> invalidate_engine(e).modules[i].phase
                == ModulePhase::Invalidated,
{
    assert forall|i: int|
        0 <= i < e.modules.len() && (#[trigger] e.modules[i]).phase
            == ModulePhase::Unevaluated implies invalidate_engine(e).modules[i].phase
        == ModulePhase::Invalidated by {
        assert(invalidate_engine(e).modules[i] == invalidate_mod(e.modules[i]));
    }
}

/// Invalidation after a failed evaluation of the (still unevaluated)
/// module `mid` turns it and every other unevaluated module invalid.
pub proof fn lemma_invalidate_apply_unev(e: EngineView, mid: int, st: EvalState)
    requires
        0 <= mid < e.modules.len(),
        e.modules[mid].phase == ModulePhase::Unevaluated,
    ensures
        forall|i: int|
            0 <= i < e.modules.len() && (#[trigger] e.modules[i]).phase
                == ModulePhase::Unevaluated ==> invalidate_engine(
                apply_eval(e, mid, st, ModulePhase::Unevaluated),
            ).modules[i].phase == ModulePhase::Invalidated,
        invalidate_engine(apply_eval(e, mid, st, ModulePhase::Unevaluated)).modules[mid].phase
            == ModulePhase::Invalidated,
{
    let a = apply_eval(e, mid, st, ModulePhase::Unevaluated);
    let f = invalidate_engine(a);
    assert forall|i: int|
        0 <= i < e.modules.len() && (#[trigger] e.modules[i]).phase
            == ModulePhase::Unevaluated implies f.modules[i].phase == ModulePhase::Invalidated by {
        assert(f.modules[i] == invalidate_mod(a.modules[i]));
        if i != mid {
            assert(a.modules[i] == e.modules[i]);
        }
    }
    assert(f.modules[mid] == invalidate_mod(a.modules[mid]));
}

/// Look a name up in an append-only table; the latest entry wins.
pub fn tbl_lookup(t: &Vec<(Vec<u8>, JsValue)>, k: &[u8]) -> (r: Option<JsValue>)
    ensures
        match r {
            Some(v) => tbl_get(tbl_view(t@), k@) == Some(v@),
            None => tbl_get(tbl_view(t@), k@) is None,
        },
{
    let mut i: usize = t.len();
    proof {
        assert(tbl_view(t@).subrange(0, i as int) =~= tbl_view(t@));
    }
    while i > 0
        invariant
            i <= t@.len(),
            tbl_get(tbl_view(t@), k@) == tbl_get(tbl_view(t@).subrange(0, i as int), k@),
        decreases i,
    {
        i -= 1;
        let hit = crate::syntax::bytes_eq(t[i].0.as_slice(), k);
        proof {
            let tv = tbl_view(t@);
            assert(tv.subrange(0, i + 1).last() == tv[i as int]);
            assert(tv.subrange(0, i + 1).drop_last() =~= tv.subrange(0, i as int));
        }
        if hit {
            return Some(t[i].1.duplicate());
        }
    }
    proof {
        assert(tbl_view(t@).subrange(0, 0).len() == 0);
    }
    None
}

/// Find the first index of `n` among byte-vector names.
pub fn find_name_in(names: &Vec<Vec<u8>>, n: &[u8]) -> (r: Option<usize>)
    ensures
        match r {
            Some(i) => find_name(crate::syntax::views_of_bytes(names@), n@) == i as int && i
                < names@.len(),
            None => find_name(crate::syntax::views_of_bytes(names@), n@) == -1,
        },
{
    let ghost vs = crate::syntax::views_of_bytes(names@);
    proof {
        lemma_find_name_char(vs, n@);
    }
    let mut i: usize = 0;
    while i < names.len()
        invariant
            i <= names@.len(),
            vs == crate::syntax::views_of_bytes(names@),
            forall|j: int| 0 <= j < i ==> vs[j] != n@,
        decreases names@.len() - i,
    {
        if crate::syntax::bytes_eq(names[i].as_slice(), n) {
            proof {
                lemma_find_name_char(vs, n@);
                assert(vs[i as int] == n@);
                if find_name(vs, n@) == -1 {
                    assert(false);
                } else {
                    let r = find_name(vs, n@);
                    if r < i {
                        assert(vs[r] != n@);
                        assert(false);
                    } else if r > i {
                        assert(vs[i as int] != n@);
                        assert(false);
                    }
                }
            }
            return Some(i);
        }
        i += 1;
    }
    proof {
        lemma_find_name_char(vs, n@);
        if find_name(vs, n@) != -1 {
            assert(vs[find_name(vs, n@)] == n@);
            assert(false);
        }
    }
    None
}

/// The view of a module registry.
pub open spec fn mods_view(ms: Seq<ModuleRecord>) -> Seq<ModuleView> {
    ms.map_values(|m: ModuleRecord| m@)
}

/// Find the first module with the given name in the registry.
pub fn find_module_in(mods: &Vec<ModuleRecord>, n: &[u8]) -> (r: Option<usize>)
    ensures
        match r {
            Some(i) => find_module(mods_view(mods@), n@) == i as int && i < mods@.len(),
            None => find_module(mods_view(mods@), n@) == -1,
        },
{
    let ghost vs = mods_view(mods@);
    proof {
        lemma_find_module_char(vs, n@);
    }
    let mut i: usize = 0;
    while i < mods.len()
        invariant
            i <= mods@.len(),
            vs == mods_view(mods@),
            forall|j: int| 0 <= j < i ==> (#[trigger] vs[j]).name != n@,
        decreases mods@.len() - i,
    {
        if crate::syntax::bytes_eq(mods[i].name.as_slice(), n) {
            proof {
                lemma_find_module_char(vs, n@);
                assert(vs[i as int].name == n@);
                if find_module(vs, n@) == -1 {
                    assert(false);
                } else {
                    let r = find_module(vs, n@);
                    if r < i {
                        assert(vs[r].name != n@);
                        assert(false);
                    } else if r > i {
                        assert(vs[i as int].name != n@);
                        assert(false);
                    }
                }
            }
            return Some(i);
        }
        i += 1;
    }
    proof {
        lemma_find_module_char(vs, n@);
        if find_module(vs, n@) != -1 {
            assert(vs[find_module(vs, n@)].name == n@);
            assert(false);
        }
    }
    None
}

/// Build the import environment of a module against the registry.
pub fn build_env(mods: &Vec<ModuleRecord>, imports: &Vec<Import>) -> (r: Vec<(Vec<u8>, JsValue)>)
    requires
        forall|i: int|
            0 <= i < mods@.len() ==> (#[trigger] mods_view(mods@)[i]).values.len() == mods_view(
                mods@,
            )[i].declared.len(),
    ensures
        tbl_view(r@) == env_of(mods_view(mods@), imports@.map_values(|i: Import| i@)),
{
    let ghost mv = mods_view(mods@);
    let ghost iv = imports@.map_values(|i: Import| i@);
    let mut r: Vec<(Vec<u8>, JsValue)> = Vec::new();
    let mut j: usize = 0;
    while j < imports.len()
        invariant
            j <= imports@.len(),
            mv == mods_view(mods@),
            forall|q: int|
                0 <= q < mods@.len() ==> (#[trigger] mods_view(mods@)[q]).values.len()
                    == mods_view(mods@)[q].declared.len(),
            iv == imports@.map_values(|i: Import| i@),
            r@.len() == j,
            forall|q: int| 0 <= q < j ==> tbl_view(r@)[q] == env_of(mv, iv)[q],
        decreases imports@.len() - j,
    {
        let local = crate::syntax::copy_bytes(&imports[j].local);
        let value: JsValue = match find_module_in(mods, imports[j].from_module.as_slice()) {
            None => JsValue::Undefined,
            Some(mi) => match find_name_in(&mods[mi].declared, imports[j].local.as_slice()) {
                None => JsValue::Undefined,
                Some(di) => {
                    proof {
                        assert(mv[mi as int] == mods@[mi as int]@);
                        assert(mv[mi as int].values.len() == crate::syntax::views_of_bytes(
                            mods@[mi as int].declared@,
                        ).len());
                    }
                    match &mods[mi].values[di] {
                        Some(v) => v.duplicate(),
                        None => JsValue::Undefined,
                    }
                },
            },
        };
        proof {
            assert(value@ == binding_val(mv, iv[j as int]));
        }
        r.push((local, value));
        proof {
            assert(iv[j as int].local == imports@[j as int].local@);
            assert(tbl_view(r@)[j as int] == (local@, value@));
            assert forall|q: int| 0 <= q < j + 1 implies tbl_view(r@)[q] == env_of(mv, iv)[q] by {
                if q < j {
                    assert(tbl_view(r@)[q] == tbl_view(r@.drop_last())[q]);
                }
            }
        }
        j += 1;
    }
    proof {
        assert(tbl_view(r@) =~= env_of(mv, iv));
    }
    r
}

/// Evaluate an expression under an import environment.
pub fn eval_expr(e: &crate::syntax::Expr, env: &Vec<(Vec<u8>, JsValue)>) -> (r: Option<JsValue>)
    ensures
        match r {
            Some(v) => expr_val(e@, tbl_view(env@)) == Some(v@),
            None => expr_val(e@, tbl_view(env@)) is None,
        },
{
    match e {
        crate::syntax::Expr::IntLit(n) => Some(JsValue::Int(*n)),
        crate::syntax::Expr::StrLit(s) => Some(JsValue::Str(crate::syntax::copy_bytes(s))),
        crate::syntax::Expr::FunLit => Some(JsValue::Function),
        crate::syntax::Expr::ClassLit => Some(JsValue::Class),
        crate::syntax::Expr::Ident(n) => tbl_lookup(env, n.as_slice()),
    }
}

/// The bytes evaluating an expression allocates.
pub fn eval_expr_cost(e: &crate::syntax::Expr) -> (r: usize)
    ensures
        r as int == expr_cost(e@),
{
    match e {
        crate::syntax::Expr::StrLit(s) => s.len(),
        _ => 0,
    }
}

impl Engine {
    /// Invalidate every module still unevaluated, as the engine does on
    /// any compile or evaluate failure.
    pub fn invalidate_unevaluated(&mut self)
        ensures
            final(self)@ == invalidate_engine(old(self)@),
    {
        let ghost old_mods = self@.modules;
        let n = self.modules.len();
        let mut i: usize = 0;
        while i < n
            invariant
                n == self.modules@.len(),
                i <= n,
                self@.modules.len() == old_mods.len(),
                forall|j: int| 0 <= j < i ==> self@.modules[j] == invalidate_mod(old_mods[j]),
                forall|j: int| i <= j < n ==> self@.modules[j] == old_mods[j],
                self.contexts == old(self).contexts,
                self.jobs == old(self).jobs,
                self.mem_used == old(self).mem_used,
                self.mem_limit == old(self).mem_limit,
                self.gc_threshold == old(self).gc_threshold,
                self.max_stack == old(self).max_stack,
                self.stack_top_fresh == old(self).stack_top_fresh,
                self.info == old(self).info,
            decreases n - i,
    {
            let ghost pre = self@.modules;
            if matches!(self.modules[i].phase, ModulePhase::Unevaluated) {
                self.modules[i].phase = ModulePhase::Invalidated;
            }
            proof {
                assert forall|j: int| 0 <= j < i + 1 implies self@.modules[j] == invalidate_mod(
                    old_mods[j],
                ) by {
                    if j < i {
                        assert(self@.modules[j] == pre[j]);
                    }
                }
            }
            i += 1;
        }
        proof {
            assert(self@.modules =~= old_mods.map_values(|m: ModuleView| invalidate_mod(m)));
            assert(self@ =~= invalidate_engine(old(self)@));
        }
    }
}

} // verus!
