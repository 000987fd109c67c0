//! The trait that every plug-in module implements.
use vstd::prelude::*;
use crate::context::{Context, ContextValue};
use crate::lifecycle::HealthStatus;

verus! {

/// A lifecycle call on a module.
pub enum LifecycleCall {
    Start,
    Stop,
}

/// The core trait every plug-in module must implement.
///
/// `start` receives the shared context. A context can only be changed through
/// its own methods, each of which keeps it well-formed, so every
/// implementation hands it back well-formed; the contract of `start` says so.
///
/// A module may also specify its behaviour, by making `specified` hold and
/// defining the spec functions below: then `name` returns `spec_name`, `start`
/// leaves it started and turns the context into `context_after_start` of the
/// context it was given, and `stop` leaves it stopped; each call of `start` or
/// `stop` adds itself, and nothing else, to `lifecycle_calls`. Modules written outside
/// verified code keep the defaults, and of them nothing is specified.
pub trait Module: Send {
    /// Whether this module specifies its behaviour through the spec functions below.
    open spec fn specified(&self) -> bool {
        false
    }

    /// The name that `name` returns.
    open spec fn spec_name(&self) -> Seq<char> {
        Seq::empty()
    }

    /// Whether the module has been started and not stopped since.
    open spec fn spec_started(&self) -> bool {
        false
    }

    /// The lifecycle calls made on the module so far, oldest first.
    open spec fn lifecycle_calls(&self) -> Seq<LifecycleCall> {
        Seq::empty()
    }

    /// The context that `start` makes of the context `before`.
    open spec fn context_after_start(&self, before: Map<Seq<char>, ContextValue>) -> Map<
        Seq<char>,
        ContextValue,
    > {
        before
    }

    /// The id under which the module is registered.
    fn name(&self) -> (r: &str)
        ensures
            self.specified() ==> r@ == self.spec_name(),
    ;

    /// The version of the module.
    fn version(&self) -> &str;

    /// Starts the module; it may read and write the shared context.
    fn start(&mut self, ctx: &mut Context)
        requires
            old(ctx).wf(),
        ensures
            final(ctx).wf(),
            old(self).specified() ==> {
                &&& final(self).specified()
                &&& final(self).spec_name() == old(self).spec_name()
                &&& final(self).spec_started()
                &&& final(self).lifecycle_calls() == old(self).lifecycle_calls().push(LifecycleCall::Start)
                &&& final(ctx)@ == old(self).context_after_start(old(ctx)@)
            },
    ;

    /// Stops the module.
    fn stop(&mut self)
        ensures
            old(self).specified() ==> {
                &&& final(self).specified()
                &&& final(self).spec_name() == old(self).spec_name()
                &&& !final(self).spec_started()
                &&& final(self).lifecycle_calls() == old(self).lifecycle_calls().push(LifecycleCall::Stop)
            },
    ;

    /// Reports the health of the module.
    fn health(&self) -> HealthStatus;
}

} // verus!
