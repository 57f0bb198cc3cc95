use script_host::engine::ModulePhase;
use script_host::Definitions;
use script_host::Error;
use script_host::Exports;
use script_host::GrantAll;
use script_host::JsValue;
use script_host::Module;
use script_host::ModuleBuilder;
use script_host::ModuleDef;
use script_host::NeverInterrupt;
use script_host::NoLoader;
use script_host::OpaqueState;
use script_host::RuntimeHandle;

type Rt = RuntimeHandle<GrantAll, NeverInterrupt, NoLoader, NoLoader>;

fn new_rt() -> (Rt, usize) {
    let mut rt: Rt = RuntimeHandle::new(OpaqueState::new()).unwrap();
    let ctx = rt.new_context();
    (rt, ctx)
}

pub struct RustModule;

impl ModuleDef for RustModule {
    fn define(defs: &mut Definitions) -> Result<(), Error> {
        defs.define_static(b"hello")?;
        Ok(())
    }

    fn export(exports: &mut Exports) -> Result<(), Error> {
        exports.export(b"hello".to_vec(), JsValue::Str(b"world".to_vec()))?;
        Ok(())
    }
}

#[test]
fn from_rust_def() {
    let (mut rt, ctx) = new_rt();
    Module::define_def::<RustModule, _, _, _, _>(&mut rt, ctx, b"rust_mod".to_vec()).unwrap();
}

#[test]
fn from_rust_def_eval() {
    let (mut rt, ctx) = new_rt();
    Module::instanciate_def::<RustModule, _, _, _, _>(&mut rt, ctx, b"rust_mod".to_vec()).unwrap();
}

#[test]
fn import_native() {
    let (mut rt, ctx) = new_rt();
    Module::define_def::<RustModule, _, _, _, _>(&mut rt, ctx, b"rust_mod".to_vec()).unwrap();
    Module::instanciate(
        &mut rt,
        ctx,
        b"test".to_vec(),
        br#"
                import { hello } from "rust_mod";

                globalThis.hello = hello;
            "#
        .to_vec(),
    )
    .unwrap();
    let text = rt.global_get(ctx, b"hello").unwrap();
    assert_eq!(text, JsValue::Str(b"world".to_vec()));
}

#[test]
fn from_javascript() {
    let (mut rt, ctx) = new_rt();
    let module = Module::instanciate(
        &mut rt,
        ctx,
        b"Test".to_vec(),
        br#"
            export var a = 2;
            export function foo(){ return "bar"}
            export class Baz{
                quel = 3;
                constructor(){
                }
            }
                "#
        .to_vec(),
    )
    .unwrap();

    assert_eq!(module.name(&rt), b"Test".to_vec());
    let _ = module.meta(&rt);

    let mut names_iter = module.names(&rt);
    let mut names: Vec<Vec<u8>> = Vec::new();
    while let Some(n) = names_iter.next(&rt) {
        names.push(n);
    }
    assert_eq!(names[0], b"a".to_vec());
    assert_eq!(names[1], b"foo".to_vec());
    assert_eq!(names[2], b"Baz".to_vec());

    let mut entries_iter = module.entries(&rt);
    let mut entries: Vec<(Vec<u8>, JsValue)> = Vec::new();
    while let Some(e) = entries_iter.next(&rt) {
        entries.push(e);
    }
    assert_eq!(entries[0].0, b"a".to_vec());
    assert_eq!(entries[0].1, JsValue::Int(2));
    assert_eq!(entries[1].0, b"foo".to_vec());
    assert_eq!(entries[2].0, b"Baz".to_vec());
}

#[test]
fn mutual_imports_via_builder() {
    let (mut rt, ctx) = new_rt();
    let mut builder = ModuleBuilder::new();
    builder
        .with_compile(
            b"a".to_vec(),
            b"import { b } from \"b\"; export var a = 1; globalThis.seen_a = b;".to_vec(),
        )
        .unwrap();
    builder
        .with_compile(b"b".to_vec(), b"export var b = 2;".to_vec())
        .unwrap();
    let modules = builder.eval(&mut rt, ctx).unwrap();
    assert_eq!(modules.len(), 2);
    assert_eq!(modules[0].name(&rt), b"a".to_vec());
    assert_eq!(modules[1].name(&rt), b"b".to_vec());
}

#[test]
fn unresolved_import_fails_resolution() {
    let (mut rt, ctx) = new_rt();
    let r = Module::instanciate(
        &mut rt,
        ctx,
        b"a".to_vec(),
        b"import { b } from \"b\"; globalThis.x = b;".to_vec(),
    );
    match r {
        Err(Error::Exception(msg)) => assert_eq!(msg, b"b".to_vec()),
        _ => panic!("expected a resolution exception"),
    }
}

#[test]
fn batch_syntax_error_evaluates_nothing() {
    let (mut rt, ctx) = new_rt();
    let builder = ModuleBuilder::new()
        .compile(b"one".to_vec(), b"globalThis.x = 1;".to_vec())
        .unwrap()
        .compile(b"two".to_vec(), b"export var = ;".to_vec())
        .unwrap()
        .compile(b"three".to_vec(), b"globalThis.y = 3;".to_vec())
        .unwrap();
    let r = builder.eval(&mut rt, ctx);
    assert!(matches!(r, Err(Error::Exception(_))));
    // The first module, though valid on its own, was never evaluated.
    assert!(rt.global_get(ctx, b"x").is_none());
}

pub struct BadModule;

impl ModuleDef for BadModule {
    fn define(defs: &mut Definitions) -> Result<(), Error> {
        defs.define(b"hello".to_vec())?;
        Ok(())
    }
    fn export(exports: &mut Exports) -> Result<(), Error> {
        exports.export(b"goodbye".to_vec(), JsValue::Int(1))?;
        Ok(())
    }
}

#[test]
fn undeclared_export_is_allocation_error() {
    let (mut rt, ctx) = new_rt();
    let r = Module::instanciate_def::<BadModule, _, _, _, _>(&mut rt, ctx, b"bad".to_vec());
    assert!(matches!(r, Err(Error::Allocation)));
}

#[test]
fn define_native_applies_declared_exports() {
    let (mut rt, ctx) = new_rt();
    let mut defs = Definitions::new();
    defs.define(b"x".to_vec()).unwrap();
    defs.define(b"y".to_vec()).unwrap();
    // Duplicate declaration collapses.
    defs.define(b"x".to_vec()).unwrap();
    let mut exports = Exports::new();
    exports.export(b"y".to_vec(), JsValue::Int(7)).unwrap();
    let m = Module::define_native(&mut rt, ctx, b"nat".to_vec(), defs, exports).unwrap();
    m.eval(&mut rt).unwrap();
    assert_eq!(m.get(&rt, b"y").unwrap(), JsValue::Int(7));
    // Declared but never exported reads as the absent value.
    assert_eq!(m.get(&rt, b"x").unwrap(), JsValue::Undefined);
    // Not exported at all is an exception.
    assert!(matches!(m.get(&rt, b"z"), Err(Error::Exception(_))));
}

#[test]
fn two_phase_compile_then_eval() {
    let (mut rt, ctx) = new_rt();
    let m = Module::unsafe_define(
        &mut rt,
        ctx,
        b"m".to_vec(),
        b"export var a = 5; globalThis.ran = \"yes\";".to_vec(),
    )
    .unwrap();
    // Compiled but unevaluated: nothing ran yet.
    assert!(rt.global_get(ctx, b"ran").is_none());
    m.eval(&mut rt).unwrap();
    assert_eq!(rt.global_get(ctx, b"ran").unwrap(), JsValue::Str(b"yes".to_vec()));
    assert_eq!(m.get(&rt, b"a").unwrap(), JsValue::Int(5));
}

#[test]
fn encoding_error_for_embedded_terminator() {
    let (mut rt, ctx) = new_rt();
    let r = Module::unsafe_define(&mut rt, ctx, vec![97, 0, 98], b"".to_vec());
    assert!(matches!(r, Err(Error::Encoding)));
}

#[test]
fn syntax_error_is_exception() {
    let (mut rt, ctx) = new_rt();
    let r = Module::unsafe_define(&mut rt, ctx, b"m".to_vec(), b"export const x = 1;".to_vec());
    assert!(matches!(r, Err(Error::Exception(_))));
}

#[test]
fn invalidation_after_failure() {
    let (mut rt, ctx) = new_rt();
    let _m = Module::unsafe_define(&mut rt, ctx, b"ok".to_vec(), b"globalThis.a = 1;".to_vec())
        .unwrap();
    // A later compile failure on the same runtime invalidates the handle.
    let r = Module::unsafe_define(&mut rt, ctx, b"bad".to_vec(), b"not a module".to_vec());
    assert!(r.is_err());
    assert_eq!(rt.engine.modules[0].phase, ModulePhase::Invalidated);
}

#[test]
fn export_iteration_order() {
    let (mut rt, ctx) = new_rt();
    let m = Module::instanciate(
        &mut rt,
        ctx,
        b"ord".to_vec(),
        b"export var a = 1; export var foo = 2; export var Baz = 3;".to_vec(),
    )
    .unwrap();
    let mut it = m.names(&rt);
    let mut got: Vec<Vec<u8>> = Vec::new();
    while let Some(n) = it.next(&rt) {
        got.push(n);
    }
    assert_eq!(got, vec![b"a".to_vec(), b"foo".to_vec(), b"Baz".to_vec()]);
    assert!(it.next(&rt).is_none());
}

#[test]
fn empty_source_compiles_and_evaluates() {
    let (mut rt, ctx) = new_rt();
    let m = Module::instanciate(&mut rt, ctx, b"empty".to_vec(), b"   ".to_vec()).unwrap();
    let mut it = m.names(&rt);
    assert!(it.next(&rt).is_none());
}

#[test]
fn later_global_write_wins() {
    let (mut rt, ctx) = new_rt();
    Module::instanciate(
        &mut rt,
        ctx,
        b"m".to_vec(),
        b"globalThis.x = 1; globalThis.x = 2;".to_vec(),
    )
    .unwrap();
    assert_eq!(rt.global_get(ctx, b"x").unwrap(), JsValue::Int(2));
}

#[test]
fn empty_batch_evaluates_to_nothing() {
    let (mut rt, ctx) = new_rt();
    let modules = ModuleBuilder::new().eval(&mut rt, ctx).unwrap();
    assert!(modules.is_empty());
}

pub struct StaticLoader;

impl script_host::Resolver for StaticLoader {
    fn resolve(&mut self, specifier: &[u8], _referrer: &[u8]) -> Result<Vec<u8>, Error> {
        Ok(specifier.to_vec())
    }
}

impl script_host::Loader for StaticLoader {
    fn load(&mut self, name: &[u8]) -> Result<Vec<u8>, Error> {
        if name == b"dep" {
            Ok(b"export var d = 7;".to_vec())
        } else {
            Err(Error::Exception(name.to_vec()))
        }
    }
}

#[test]
fn loader_supplies_missing_module() {
    let mut rt: RuntimeHandle<GrantAll, NeverInterrupt, StaticLoader, StaticLoader> =
        RuntimeHandle::new(OpaqueState::new()).unwrap();
    let ctx = rt.new_context();
    rt.set_loader(StaticLoader, StaticLoader);
    // Without the loader this import would fail with a resolution
    // exception; the loader supplies and registers "dep" instead.
    let m = Module::instanciate(
        &mut rt,
        ctx,
        b"a".to_vec(),
        b"import { d } from \"dep\"; globalThis.got = d;".to_vec(),
    )
    .unwrap();
    assert!(m.is_valid(&rt));
    // The loaded module is registered unevaluated, so its export slot is
    // still the absent value when the binding is read.
    assert_eq!(rt.global_get(ctx, b"got").unwrap(), JsValue::Undefined);
}

#[test]
fn loader_failure_is_resolution_exception() {
    let mut rt: RuntimeHandle<GrantAll, NeverInterrupt, StaticLoader, StaticLoader> =
        RuntimeHandle::new(OpaqueState::new()).unwrap();
    let ctx = rt.new_context();
    rt.set_loader(StaticLoader, StaticLoader);
    let r = Module::instanciate(
        &mut rt,
        ctx,
        b"a".to_vec(),
        b"import { x } from \"nowhere\"; globalThis.y = x;".to_vec(),
    );
    match r {
        Err(Error::Exception(msg)) => assert_eq!(msg, b"nowhere".to_vec()),
        other => panic!("expected a resolution exception, got {:?}", other),
    }
}
