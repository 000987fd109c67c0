//! Lifecycle states of modules and the results of their health checks.
use vstd::prelude::*;

verus! {

/// Lifecycle state of a module.
#[derive(Debug, Clone, Copy, PartialEq, Eq, Hash, Structural)]
pub enum ModuleState {
    Stopped,
    Starting,
    Running,
    Stopping,
    Failed,
}

/// The printed name of a state.
pub open spec fn state_name(s: ModuleState) -> Seq<char> {
    match s {
        ModuleState::Stopped => "Stopped"@,
        ModuleState::Starting => "Starting"@,
        ModuleState::Running => "Running"@,
        ModuleState::Stopping => "Stopping"@,
        ModuleState::Failed => "Failed"@,
    }
}

impl ModuleState {
    /// The name of the state, as it is printed.
    pub fn to_string(&self) -> (r: String)
        ensures
            r@ == state_name(*self),
    {
        match self {
            ModuleState::Stopped => "Stopped".to_owned(),
            ModuleState::Starting => "Starting".to_owned(),
            ModuleState::Running => "Running".to_owned(),
            ModuleState::Stopping => "Stopping".to_owned(),
            ModuleState::Failed => "Failed".to_owned(),
        }
    }
}

/// Health check result.
#[derive(Debug, Clone, PartialEq, Eq)]
pub enum HealthStatus {
    Healthy,
    Degraded(String),
    Unhealthy(String),
}

} // verus!
