use openconstruct::lifecycle::{HealthStatus, ModuleState};

#[test]
fn module_state_display() {
    assert_eq!(ModuleState::Stopped.to_string(), "Stopped");
    assert_eq!(ModuleState::Starting.to_string(), "Starting");
    assert_eq!(ModuleState::Running.to_string(), "Running");
    assert_eq!(ModuleState::Stopping.to_string(), "Stopping");
    assert_eq!(ModuleState::Failed.to_string(), "Failed");
}

#[test]
fn module_state_equality() {
    assert_eq!(ModuleState::Running, ModuleState::Running);
    assert_ne!(ModuleState::Stopped, ModuleState::Running);
}

#[test]
fn health_status_equality() {
    assert_eq!(HealthStatus::Healthy, HealthStatus::Healthy);
    assert_ne!(HealthStatus::Healthy, HealthStatus::Unhealthy("err".into()));
}

#[test]
fn health_status_degraded_keeps_message() {
    let d = HealthStatus::Degraded("slow".into());
    assert_eq!(d, HealthStatus::Degraded("slow".into()));
    assert_ne!(d, HealthStatus::Unhealthy("slow".into()));
}
