use script_host::CountdownInterrupt;
use script_host::Error;
use script_host::FaultingInterrupt;
use script_host::GrantAll;
use script_host::JobOutcome;
use script_host::JsValue;
use script_host::Module;
use script_host::NeverInterrupt;
use script_host::NoLoader;
use script_host::OpaqueState;
use script_host::RuntimeHandle;

type Rt = RuntimeHandle<GrantAll, NeverInterrupt, NoLoader, NoLoader>;

fn new_rt() -> (Rt, usize) {
    let mut rt: Rt = RuntimeHandle::new(OpaqueState::new()).unwrap();
    let ctx = rt.new_context();
    (rt, ctx)
}

#[test]
fn no_job_runs_until_one_is_enqueued() {
    let (mut rt, ctx) = new_rt();
    assert!(!rt.is_job_pending());
    assert_eq!(rt.execute_pending_job(), JobOutcome::NoJobRan);
    assert_eq!(rt.execute_pending_job(), JobOutcome::NoJobRan);
    assert_eq!(rt.execute_pending_job(), JobOutcome::NoJobRan);
    rt.enqueue_job(ctx, b"later".to_vec(), JsValue::Int(9)).unwrap();
    assert!(rt.is_job_pending());
    assert_eq!(rt.execute_pending_job(), JobOutcome::JobRan);
    assert_eq!(rt.global_get(ctx, b"later").unwrap(), JsValue::Int(9));
    assert_eq!(rt.execute_pending_job(), JobOutcome::NoJobRan);
}

#[test]
fn jobs_run_in_fifo_order() {
    let (mut rt, ctx) = new_rt();
    rt.enqueue_job(ctx, b"slot".to_vec(), JsValue::Int(1)).unwrap();
    rt.enqueue_job(ctx, b"slot".to_vec(), JsValue::Int(2)).unwrap();
    assert_eq!(rt.execute_pending_job(), JobOutcome::JobRan);
    assert_eq!(rt.global_get(ctx, b"slot").unwrap(), JsValue::Int(1));
    assert_eq!(rt.execute_pending_job(), JobOutcome::JobRan);
    assert_eq!(rt.global_get(ctx, b"slot").unwrap(), JsValue::Int(2));
}

#[test]
fn memory_limit_caps_allocation() {
    let (mut rt, ctx) = new_rt();
    rt.set_memory_limit(64);
    // Compiling is cheap enough; evaluating the string literals is not.
    let src = b"globalThis.a = \"0123456789\";".to_vec();
    assert!(src.len() <= 64);
    let mut failed = false;
    for k in 0..16u8 {
        let name = vec![109, 48 + (k % 10)];
        match Module::instanciate(&mut rt, ctx, name, src.clone()) {
            Ok(_) => {}
            Err(Error::Allocation) => {
                failed = true;
                break;
            }
            Err(e) => panic!("unexpected error kind: {:?}", e),
        }
    }
    assert!(failed, "allocation-heavy execution must eventually hit the cap");
    assert!(rt.memory_usage().used <= 64);
}

#[test]
fn zero_memory_limit_removes_cap() {
    let (mut rt, ctx) = new_rt();
    rt.set_memory_limit(0);
    for k in 0..16u8 {
        let name = vec![110, 48 + (k % 10)];
        Module::instanciate(&mut rt, ctx, name, b"globalThis.a = \"0123456789\";".to_vec())
            .unwrap();
    }
}

#[test]
fn memory_limit_ignored_with_custom_allocator() {
    let mut rt: RuntimeHandle<GrantAll, NeverInterrupt, NoLoader, NoLoader> =
        RuntimeHandle::new_with_allocator(OpaqueState::new(), GrantAll).unwrap();
    let ctx = rt.new_context();
    rt.set_memory_limit(1);
    // The custom allocator grants everything; the limit has no effect.
    Module::instanciate(&mut rt, ctx, b"m".to_vec(), b"globalThis.a = \"abcdef\";".to_vec())
        .unwrap();
}

#[test]
fn interrupt_stop_unwinds_with_exception() {
    let mut rt: RuntimeHandle<GrantAll, CountdownInterrupt, NoLoader, NoLoader> =
        RuntimeHandle::new(OpaqueState::new()).unwrap();
    let ctx = rt.new_context();
    rt.set_interrupt_handler(Some(CountdownInterrupt { left: 1 }));
    let r = Module::instanciate(
        &mut rt,
        ctx,
        b"m".to_vec(),
        b"globalThis.a = 1; globalThis.b = 2;".to_vec(),
    );
    assert!(matches!(r, Err(Error::Exception(_))));
    // The statement before the checkpoint that stopped still ran.
    assert_eq!(rt.global_get(ctx, b"a").unwrap(), JsValue::Int(1));
    assert!(rt.global_get(ctx, b"b").is_none());
}

#[test]
fn handler_fault_is_captured_and_re_raised() {
    let mut rt: RuntimeHandle<GrantAll, FaultingInterrupt, NoLoader, NoLoader> =
        RuntimeHandle::new(OpaqueState::new()).unwrap();
    let ctx = rt.new_context();
    rt.set_interrupt_handler(Some(FaultingInterrupt { payload: 7 }));
    let r = Module::instanciate(&mut rt, ctx, b"m".to_vec(), b"globalThis.a = 1;".to_vec());
    match r {
        Err(Error::Recovered(p)) => assert_eq!(p, 7),
        other => panic!("expected the captured payload, got {:?}", other),
    }
    // The payload was drained when it was re-raised.
    assert!(rt.get_opaque().fault.is_none());
}

#[test]
fn runtime_configuration_and_teardown() {
    let (mut rt, _ctx) = new_rt();
    rt.set_max_stack_size(256 * 1024);
    rt.set_gc_threshold(1 << 20);
    rt.update_stack_top();
    rt.run_gc();
    rt.set_info(b"test runtime".to_vec()).unwrap();
    assert!(matches!(rt.set_info(vec![1, 0, 2]), Err(Error::Encoding)));
    let usage = rt.memory_usage();
    assert_eq!(usage.limit, 0);
    rt.teardown();
}
