//! A verified core for a modular, plug-in based agent framework.
//!
//! Modules implement [`module::Module`] and are kept in a
//! [`registry::ModuleRegistry`], which drives their lifecycle. Modules share
//! state through a [`context::Context`] and exchange events through an
//! [`event_bus::EventBus`]. [`math`] holds the math engine that the math
//! module publishes in the context.
pub mod context;
pub mod event_bus;
pub mod keyed;
pub mod lifecycle;
pub mod math;
pub mod module;
pub mod registry;
mod seal;
