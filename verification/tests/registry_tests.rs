use openconstruct::context::Context;
use openconstruct::lifecycle::{HealthStatus, ModuleState};
use openconstruct::math::MathModule;
use openconstruct::module::Module;
use openconstruct::registry::ModuleRegistry;

struct DummyModule;

impl Module for DummyModule {
    fn name(&self) -> &str {
        "dummy"
    }
    fn version(&self) -> &str {
        "0.1.0"
    }
    fn start(&mut self, _ctx: &mut Context) {}
    fn stop(&mut self) {}
    fn health(&self) -> HealthStatus {
        HealthStatus::Healthy
    }
}

struct Named {
    id: &'static str,
    starts: u32,
    stops: u32,
}

impl Named {
    fn new(id: &'static str) -> Self {
        Named { id, starts: 0, stops: 0 }
    }
}

impl Module for Named {
    fn name(&self) -> &str {
        self.id
    }
    fn version(&self) -> &str {
        "1.0.0"
    }
    fn start(&mut self, ctx: &mut Context) {
        self.starts += 1;
        ctx.set(self.id, self.starts);
    }
    fn stop(&mut self) {
        self.stops += 1;
    }
    fn health(&self) -> HealthStatus {
        HealthStatus::Degraded(format!("{} starts", self.starts))
    }
}

#[test]
fn registry_register_and_get() {
    let mut reg = ModuleRegistry::new();
    reg.register(Box::new(DummyModule));
    let entry = reg.get("dummy").unwrap();
    assert_eq!(entry.module.name(), "dummy");
    assert_eq!(entry.state, ModuleState::Stopped);
}

#[test]
fn registry_unregister() {
    let mut reg = ModuleRegistry::new();
    reg.register(Box::new(DummyModule));
    let removed = reg.unregister("dummy");
    assert!(removed.is_some());
    assert!(reg.get("dummy").is_none());
}

#[test]
fn registry_start_stop_module() {
    let mut reg = ModuleRegistry::new();
    reg.register(Box::new(DummyModule));
    let mut ctx = Context::new();
    reg.start_module("dummy", &mut ctx);
    assert_eq!(reg.get("dummy").unwrap().state, ModuleState::Running);
    reg.stop_module("dummy");
    assert_eq!(reg.get("dummy").unwrap().state, ModuleState::Stopped);
}

#[test]
fn registry_len_and_empty() {
    let mut reg = ModuleRegistry::new();
    assert!(reg.is_empty());
    reg.register(Box::new(DummyModule));
    assert_eq!(reg.len(), 1);
}

#[test]
fn registry_module_ids() {
    let mut reg = ModuleRegistry::new();
    reg.register(Box::new(DummyModule));
    let ids = reg.module_ids();
    assert!(ids.contains(&"dummy"));
}

#[test]
fn registry_get_missing() {
    let reg: ModuleRegistry = ModuleRegistry::new();
    assert!(reg.get("nope").is_none());
}

#[test]
fn registry_default() {
    let reg: ModuleRegistry = ModuleRegistry::default();
    assert!(reg.is_empty());
}

#[test]
fn runtime_empty_registry() {
    let mut reg: ModuleRegistry = ModuleRegistry::new();
    let mut ctx = Context::new();
    reg.start_all(&mut ctx); // should be a no-op
    reg.stop_all(); // should be a no-op
    assert!(reg.is_empty());
}

#[test]
fn registry_mixed_modules_lifecycle() {
    let mut reg: ModuleRegistry = ModuleRegistry::new();
    let mut ctx = Context::new();
    reg.register(Box::new(DummyModule));
    reg.register(Box::new(Named::new("alpha")));
    reg.register(Box::new(Named::new("beta")));
    assert_eq!(reg.len(), 3);
    assert_eq!(reg.module_ids(), vec!["dummy", "alpha", "beta"]);
    reg.start_all(&mut ctx);
    for id in reg.module_ids() {
        assert_eq!(reg.get(id).unwrap().state, ModuleState::Running);
    }
    assert_eq!(*ctx.get::<u32>("alpha").unwrap(), 1);
    assert_eq!(*ctx.get::<u32>("beta").unwrap(), 1);
    reg.stop_all();
    for id in reg.module_ids() {
        assert_eq!(reg.get(id).unwrap().state, ModuleState::Stopped);
    }
    assert_eq!(reg.len(), 3);
}

#[test]
fn registry_register_same_name_replaces() {
    let mut reg: ModuleRegistry = ModuleRegistry::new();
    let mut ctx = Context::new();
    reg.register(Box::new(Named::new("alpha")));
    reg.register(Box::new(Named::new("beta")));
    reg.start_module("alpha", &mut ctx);
    reg.register(Box::new(Named::new("alpha")));
    assert_eq!(reg.len(), 2);
    assert_eq!(reg.module_ids(), vec!["alpha", "beta"]);
    assert_eq!(reg.get("alpha").unwrap().state, ModuleState::Stopped);
}

#[test]
fn registry_unknown_id_is_noop() {
    let mut reg: ModuleRegistry = ModuleRegistry::new();
    let mut ctx = Context::new();
    reg.register(Box::new(DummyModule));
    reg.start_module("ghost", &mut ctx);
    reg.stop_module("ghost");
    assert!(reg.unregister("ghost").is_none());
    assert_eq!(reg.get("dummy").unwrap().state, ModuleState::Stopped);
    assert!(ctx.is_empty());
    assert_eq!(reg.len(), 1);
}

#[test]
fn registry_unregister_returns_the_module() {
    let mut reg: ModuleRegistry = ModuleRegistry::new();
    let mut ctx = Context::new();
    reg.register(Box::new(Named::new("alpha")));
    reg.register(Box::new(Named::new("beta")));
    reg.start_all(&mut ctx);
    reg.stop_module("beta");
    let removed = reg.unregister("beta").unwrap();
    assert_eq!(removed.name(), "beta");
    assert_eq!(removed.health(), HealthStatus::Degraded("1 starts".into()));
    assert_eq!(reg.len(), 1);
    assert_eq!(reg.module_ids(), vec!["alpha"]);
}

#[test]
fn registry_register_under_given_id() {
    let mut reg: ModuleRegistry = ModuleRegistry::new();
    reg.register_under(String::from("custom"), Box::new(DummyModule));
    assert!(reg.get("dummy").is_none());
    let entry = reg.get_mut("custom").unwrap();
    assert_eq!(entry.state, ModuleState::Stopped);
    entry.state = ModuleState::Failed;
    assert_eq!(reg.get("custom").unwrap().state, ModuleState::Failed);
}

/// Stands for a module of the runtime that only reports its name.
struct Plain(&'static str);

impl Module for Plain {
    fn name(&self) -> &str {
        self.0
    }
    fn version(&self) -> &str {
        "0.1.0"
    }
    fn start(&mut self, _ctx: &mut Context) {}
    fn stop(&mut self) {}
    fn health(&self) -> HealthStatus {
        HealthStatus::Healthy
    }
}

#[test]
fn runtime_full_lifecycle() {
    let mut reg: ModuleRegistry = ModuleRegistry::new();
    let mut ctx = Context::new();

    reg.register(Box::new(MathModule::new()));
    reg.register(Box::new(Plain("sensor")));
    reg.register(Box::new(Plain("agent")));

    assert_eq!(reg.len(), 3);
    reg.start_all(&mut ctx);

    for id in reg.module_ids() {
        assert_eq!(reg.get(&id).unwrap().state, ModuleState::Running);
    }

    reg.stop_all();
    for id in reg.module_ids() {
        assert_eq!(reg.get(&id).unwrap().state, ModuleState::Stopped);
    }
}

#[test]
fn runtime_unregister_during_run() {
    let mut reg: ModuleRegistry = ModuleRegistry::new();
    let mut ctx = Context::new();
    reg.register(Box::new(MathModule::new()));
    reg.register(Box::new(Plain("sensor")));

    reg.start_all(&mut ctx);
    reg.stop_module("sensor");
    let removed = reg.unregister("sensor");
    assert!(removed.is_some());
    assert_eq!(reg.len(), 1);
}
