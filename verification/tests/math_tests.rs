use openconstruct::context::Context;
use openconstruct::lifecycle::{HealthStatus, ModuleState};
use openconstruct::math::{MathEngine, MathModule, CTX_KEY};
use openconstruct::module::Module;
use openconstruct::registry::ModuleRegistry;

#[test]
fn math_module_start_registers_engine() {
    let mut m = MathModule::new();
    let mut ctx = Context::new();
    m.start(&mut ctx);
    assert!(ctx.get::<MathEngine>(CTX_KEY).is_some());
}

#[test]
fn math_module_health_running() {
    let mut m = MathModule::new();
    let mut ctx = Context::new();
    m.start(&mut ctx);
    assert_eq!(m.health(), HealthStatus::Healthy);
}

#[test]
fn math_module_health_stopped() {
    let mut m = MathModule::new();
    let mut ctx = Context::new();
    m.start(&mut ctx);
    m.stop();
    match m.health() {
        HealthStatus::Unhealthy(_) => {}
        other => panic!("expected Unhealthy, got {:?}", other),
    }
}

#[test]
fn math_module_name_version() {
    let m = MathModule::new();
    assert_eq!(m.name(), "math");
    assert_eq!(m.version(), "0.1.0");
}

#[test]
fn math_module_default() {
    let m = MathModule::default();
    assert_eq!(m.name(), "math");
}

#[test]
fn math_module_in_registry() {
    let mut reg = ModuleRegistry::new();
    reg.register(Box::new(MathModule::new()));
    let mut ctx = Context::new();
    reg.start_module("math", &mut ctx);
    assert_eq!(reg.get("math").unwrap().state, ModuleState::Running);
    assert!(ctx.get::<MathEngine>(CTX_KEY).is_some());
}

#[test]
fn math_module_health_before_start_message() {
    let m = MathModule::new();
    assert_eq!(m.health(), HealthStatus::Unhealthy("MathModule is not running".into()));
    assert_eq!(CTX_KEY, "math_engine");
}

#[test]
fn math_module_start_replaces_engine() {
    let mut m = MathModule::new();
    let mut ctx = Context::new();
    m.start(&mut ctx);
    ctx.get_mut::<MathEngine>(CTX_KEY).unwrap().record_op();
    assert_eq!(ctx.get::<MathEngine>(CTX_KEY).unwrap().ops_run(), 1);
    m.start(&mut ctx);
    assert_eq!(ctx.get::<MathEngine>(CTX_KEY).unwrap().ops_run(), 0);
    assert_eq!(ctx.len(), 1);
}

#[test]
fn math_engine_counts_ops() {
    let mut e = MathEngine::new();
    assert_eq!(e.ops_run(), 0);
    e.record_op();
    e.record_op();
    assert_eq!(e.ops_run(), 2);
    assert_eq!(MathEngine::default().ops_run(), 0);
}

#[test]
fn math_engine_transpose_square() {
    let m = vec![vec![1, 2], vec![3, 4]];
    let t = MathEngine::new().transpose(&m, 0);
    assert_eq!(t, vec![vec![1, 3], vec![2, 4]]);
}

#[test]
fn math_engine_transpose_rect_and_back() {
    let m = vec![vec![1, 2, 3], vec![4, 5, 6]];
    let e = MathEngine::new();
    let t = e.transpose(&m, 0);
    assert_eq!(t, vec![vec![1, 4], vec![2, 5], vec![3, 6]]);
    assert_eq!(e.transpose(&t, 0), m);
}

#[test]
fn math_engine_transpose_ragged_fills() {
    let m = vec![vec![1, 2, 3], vec![4]];
    let t = MathEngine::new().transpose(&m, -1);
    assert_eq!(t, vec![vec![1, 4], vec![2, -1], vec![3, -1]]);
}

#[test]
fn math_engine_transpose_empty_input() {
    let m: Vec<Vec<i32>> = vec![];
    assert!(MathEngine::new().transpose(&m, 0).is_empty());
    let one_empty_row: Vec<Vec<i32>> = vec![vec![]];
    assert!(MathEngine::new().transpose(&one_empty_row, 0).is_empty());
}

#[test]
fn math_engine_mat_add_ints() {
    let a = vec![vec![1, 2], vec![3, 4]];
    let b = vec![vec![5, 6], vec![7, 8]];
    let r = MathEngine::new().mat_add(&a, &b, |x: i64, y: i64| x + y);
    assert_eq!(r, Some(vec![vec![6, 8], vec![10, 12]]));
}

#[test]
fn math_engine_mat_add_shape_mismatch() {
    let a = vec![vec![1]];
    let b = vec![vec![1], vec![2]];
    assert!(MathEngine::new().mat_add(&a, &b, |x: i32, y: i32| x + y).is_none());
    let c = vec![vec![1, 2]];
    let d = vec![vec![1]];
    assert!(MathEngine::new().mat_add(&c, &d, |x: i32, y: i32| x + y).is_none());
    let e: Vec<Vec<i32>> = vec![];
    assert_eq!(MathEngine::new().mat_add(&e, &e, |x: i32, y: i32| x + y), Some(vec![]));
}

#[test]
fn math_engine_transpose() {
    let m = vec![vec![1.0, 2.0], vec![3.0, 4.0]];
    let t = MathEngine::new().transpose(&m, 0.0);
    assert_eq!(t, vec![vec![1.0, 3.0], vec![2.0, 4.0]]);
}

#[test]
fn math_engine_transpose_empty() {
    let t = MathEngine::new().transpose(&[], 0.0);
    assert!(t.is_empty());
}

#[test]
fn math_engine_mat_add() {
    let a = vec![vec![1.0, 2.0], vec![3.0, 4.0]];
    let b = vec![vec![5.0, 6.0], vec![7.0, 8.0]];
    let r = MathEngine::new().mat_add(&a, &b, |x: f64, y: f64| x + y);
    assert_eq!(r, Some(vec![vec![6.0, 8.0], vec![10.0, 12.0]]));
}

#[test]
fn math_engine_mat_add_mismatch_rows() {
    let a = vec![vec![1.0]];
    let b = vec![vec![1.0], vec![2.0]];
    assert!(MathEngine::new().mat_add(&a, &b, |x: f64, y: f64| x + y).is_none());
}

#[test]
fn math_engine_mat_add_mismatch_cols() {
    let a = vec![vec![1.0, 2.0]];
    let b = vec![vec![1.0]];
    assert!(MathEngine::new().mat_add(&a, &b, |x: f64, y: f64| x + y).is_none());
}

#[test]
fn math_module_start_all_publishes_engine() {
    let mut reg = ModuleRegistry::new();
    reg.register(Box::new(MathModule::new()));
    let mut ctx = Context::new();
    reg.start_all(&mut ctx);
    assert_eq!(ctx.get::<MathEngine>(CTX_KEY).unwrap().ops_run(), 0);
    assert_eq!(ctx.len(), 1);
    assert_eq!(reg.get("math").unwrap().module.health(), HealthStatus::Healthy);
    reg.stop_all();
    assert!(matches!(reg.get("math").unwrap().module.health(), HealthStatus::Unhealthy(_)));
    assert_eq!(reg.get("math").unwrap().state, ModuleState::Stopped);
}
