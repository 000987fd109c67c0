use openconstruct::context::Context;
use openconstruct::math::MathEngine;

#[test]
fn context_set_get() {
    let mut ctx = Context::new();
    ctx.set("count", 42u32);
    assert_eq!(*ctx.get::<u32>("count").unwrap(), 42);
}

#[test]
fn context_missing_key() {
    let ctx = Context::new();
    assert!(ctx.get::<u32>("nope").is_none());
}

#[test]
fn context_remove() {
    let mut ctx = Context::new();
    ctx.set("x", 1i32);
    ctx.remove("x");
    assert!(!ctx.contains("x"));
}

#[test]
fn context_len_and_empty() {
    let mut ctx = Context::new();
    assert!(ctx.is_empty());
    ctx.set("a", 1u8);
    assert_eq!(ctx.len(), 1);
    assert!(!ctx.is_empty());
}

#[test]
fn context_overwrite() {
    let mut ctx = Context::new();
    ctx.set("v", 10u32);
    ctx.set("v", 20u32);
    assert_eq!(*ctx.get::<u32>("v").unwrap(), 20);
}

#[test]
fn context_different_types() {
    let mut ctx = Context::new();
    ctx.set("n", 1u32);
    ctx.set("s", String::from("hello"));
    assert_eq!(*ctx.get::<u32>("n").unwrap(), 1);
    assert_eq!(ctx.get::<String>("s").unwrap(), "hello");
}

#[test]
fn context_get_mut() {
    let mut ctx = Context::new();
    ctx.set("v", 5u32);
    *ctx.get_mut::<u32>("v").unwrap() = 99;
    assert_eq!(*ctx.get::<u32>("v").unwrap(), 99);
}

#[test]
fn context_default() {
    let ctx = Context::default();
    assert!(ctx.is_empty());
}

#[test]
fn context_get_with_other_type_finds_nothing() {
    let mut ctx = Context::new();
    ctx.set("n", 7u32);
    assert!(ctx.get::<i32>("n").is_none());
    assert!(ctx.get::<String>("n").is_none());
    assert!(ctx.get_mut::<u64>("n").is_none());
    assert_eq!(*ctx.get::<u32>("n").unwrap(), 7);
}

#[test]
fn context_set_keeps_other_keys() {
    let mut ctx = Context::new();
    ctx.set("a", 1u32);
    ctx.set("b", true);
    ctx.set("a", 2u32);
    assert_eq!(*ctx.get::<bool>("b").unwrap(), true);
    assert_eq!(ctx.len(), 2);
}

#[test]
fn context_overwrite_with_other_type() {
    let mut ctx = Context::new();
    ctx.set("k", 1u32);
    ctx.set("k", String::from("now text"));
    assert!(ctx.get::<u32>("k").is_none());
    assert_eq!(ctx.get::<String>("k").unwrap(), "now text");
    assert_eq!(ctx.len(), 1);
}

#[test]
fn context_remove_missing_and_others() {
    let mut ctx = Context::new();
    ctx.set("a", 1i64);
    ctx.set("b", 2i64);
    ctx.remove("zzz");
    assert_eq!(ctx.len(), 2);
    ctx.remove("a");
    assert!(!ctx.contains("a"));
    assert!(ctx.contains("b"));
    assert_eq!(*ctx.get::<i64>("b").unwrap(), 2);
    assert_eq!(ctx.len(), 1);
}

#[test]
fn context_get_mut_missing() {
    let mut ctx = Context::new();
    assert!(ctx.get_mut::<u32>("none").is_none());
    assert!(ctx.is_empty());
}

#[test]
fn context_holds_engine() {
    let mut ctx = Context::new();
    ctx.set("engine", MathEngine::new());
    let e = ctx.get_mut::<MathEngine>("engine").unwrap();
    e.record_op();
    assert_eq!(ctx.get::<MathEngine>("engine").unwrap().ops_run(), 1);
}
