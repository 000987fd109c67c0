//! The registry of loaded modules and their lifecycle states.
use vstd::prelude::*;
use crate::context::{Context, ContextValue};
use crate::keyed::KeyedList;
use crate::lifecycle::ModuleState;
use crate::module::{LifecycleCall, Module};

verus! {

/// Entry holding a module plus its current lifecycle state.
///
/// The module type is a parameter, so that a registry can hold modules of one
/// type; by default it holds any module, as `Box<M>`.
pub struct ModuleEntry<M: ?Sized = dyn Module> {
    pub module: Box<M>,
    pub state: ModuleState,
}

/// The lifecycle states of the entries of a registry view.
pub open spec fn states<M: ?Sized>(m: Map<Seq<char>, ModuleEntry<M>>) -> Map<Seq<char>, ModuleState> {
    m.map_values(|e: ModuleEntry<M>| e.state)
}

/// Whether every entry of a registry view is in the given state.
pub open spec fn all_in_state<M: ?Sized>(m: Map<Seq<char>, ModuleEntry<M>>, s: ModuleState) -> bool {
    forall|k: Seq<char>| #[trigger] m.contains_key(k) ==> m[k].state == s
}

/// `after` is what one call of `start`, and no other lifecycle call, made of
/// the module `before`, which specifies its behaviour: it still does, under
/// the same name, is started, and has one more lifecycle call, a start.
pub open spec fn started_from<M: ?Sized + Module>(before: Box<M>, after: Box<M>) -> bool {
    &&& after.specified()
    &&& after.spec_name() == before.spec_name()
    &&& after.spec_started()
    &&& after.lifecycle_calls() == before.lifecycle_calls().push(LifecycleCall::Start)
}

/// `after` is what one call of `stop`, and no other lifecycle call, made of
/// the module `before`, which specifies its behaviour: it still does, under
/// the same name, is stopped, and has one more lifecycle call, a stop.
pub open spec fn stopped_from<M: ?Sized + Module>(before: Box<M>, after: Box<M>) -> bool {
    &&& after.specified()
    &&& after.spec_name() == before.spec_name()
    &&& !after.spec_started()
    &&& after.lifecycle_calls() == before.lifecycle_calls().push(LifecycleCall::Stop)
}

/// Whether every module of a registry view specifies its behaviour.
pub open spec fn all_specified<M: ?Sized + Module>(m: Map<Seq<char>, ModuleEntry<M>>) -> bool {
    forall|k: Seq<char>| #[trigger] m.contains_key(k) ==> m[k].module.specified()
}

/// The context that starting the modules of `m` under `ids`, in that order,
/// makes of `ctx`, where every one of them specifies its behaviour.
pub open spec fn start_chain<M: ?Sized + Module>(
    m: Map<Seq<char>, ModuleEntry<M>>,
    ids: Seq<Seq<char>>,
    ctx: Map<Seq<char>, ContextValue>,
) -> Map<Seq<char>, ContextValue>
    decreases ids.len(),
{
    if ids.len() == 0 {
        ctx
    } else {
        m[ids.last()].module.context_after_start(start_chain(m, ids.drop_last(), ctx))
    }
}

/// Central registry for loaded modules, keyed by module id.
pub struct ModuleRegistry<M: ?Sized = dyn Module> {
    modules: KeyedList<ModuleEntry<M>>,
}

impl<M: ?Sized> View for ModuleRegistry<M> {
    type V = Map<Seq<char>, ModuleEntry<M>>;

    closed spec fn view(&self) -> Map<Seq<char>, ModuleEntry<M>> {
        self.modules@
    }
}

impl<M: ?Sized + Module> ModuleRegistry<M> {
    /// Well-formedness: no id is registered twice.
    pub closed spec fn wf(&self) -> bool {
        self.modules.wf()
    }

    /// The registered ids, in the order in which they were first registered.
    pub closed spec fn ids(&self) -> Seq<Seq<char>> {
        self.modules.keys()
    }

    /// The ids are the keys of the view, each once.
    pub proof fn lemma_ids(&self)
        requires
            self.wf(),
        ensures
            self.ids().no_duplicates(),
            forall|k: Seq<char>| self@.contains_key(k) <==> self.ids().contains(k),
            self@.dom().len() == self.ids().len(),
    {
        self.modules.lemma_dom();
        assert forall|k: Seq<char>| self@.contains_key(k) <==> self.ids().contains(k) by {
            assert(self@.dom().contains(k) == self.ids().to_set().contains(k));
        }
    }

    /// An empty registry.
    pub fn new() -> (r: Self)
        ensures
            r.wf(),
            r@ == Map::<Seq<char>, ModuleEntry<M>>::empty(),
            r.ids() == Seq::<Seq<char>>::empty(),
    {
        ModuleRegistry { modules: KeyedList::new() }
    }

    /// Registers a module under a given id, in state `Stopped`, replacing a
    /// module registered under the same id.
    pub fn register_under(&mut self, id: String, module: Box<M>)
        requires
            old(self).wf(),
        ensures
            final(self).wf(),
            final(self)@ == old(self)@.insert(id@, ModuleEntry { module: module, state: ModuleState::Stopped }),
            final(self).ids() == (if old(self)@.contains_key(id@) {
                old(self).ids()
            } else {
                old(self).ids().push(id@)
            }),
    {
        let _ = self.modules.insert(id, ModuleEntry { module, state: ModuleState::Stopped });
    }

    /// Registers (adds) a module under the name it reports, in state `Stopped`.
    /// A module registered under the same name is replaced. For a module that
    /// specifies its name, that name is `spec_name`.
    pub fn register(&mut self, module: Box<M>)
        requires
            old(self).wf(),
        ensures
            final(self).wf(),
            module.specified() ==> {
                &&& final(self)@ == old(self)@.insert(
                    module.spec_name(),
                    ModuleEntry { module: module, state: ModuleState::Stopped },
                )
                &&& final(self).ids() == (if old(self)@.contains_key(module.spec_name()) {
                    old(self).ids()
                } else {
                    old(self).ids().push(module.spec_name())
                })
            },
            exists|id: Seq<char>|
                {
                    &&& final(self)@ == old(self)@.insert(id, ModuleEntry { module: module, state: ModuleState::Stopped })
                    &&& final(self).ids() == (if old(self)@.contains_key(id) {
                        old(self).ids()
                    } else {
                        old(self).ids().push(id)
                    })
                },
    {
        let id = module.name().to_owned();
        self.register_under(id, module);
    }

    /// Removes a module by id and hands it back.
    pub fn unregister(&mut self, module_id: &str) -> (r: Option<Box<M>>)
        requires
            old(self).wf(),
        ensures
            final(self).wf(),
            final(self)@ == old(self)@.remove(module_id@),
            r == (if old(self)@.contains_key(module_id@) {
                Some(old(self)@[module_id@].module)
            } else {
                None
            }),
            !old(self)@.contains_key(module_id@) ==> final(self).ids() == old(self).ids(),
            old(self)@.contains_key(module_id@) ==> final(self).ids() == old(self).ids().remove(
                old(self).ids().index_of(module_id@),
            ),
    {
        match self.modules.remove(module_id) {
            Some(e) => {
                Some(e.module)
            },
            None => None,
        }
    }

    /// A reference to a registered module entry.
    pub fn get(&self, module_id: &str) -> (r: Option<&ModuleEntry<M>>)
        requires
            self.wf(),
        ensures
            r == (if self@.contains_key(module_id@) { Some(&self@[module_id@]) } else { None }),
    {
        self.modules.get(module_id)
    }

    /// A mutable reference to a registered module entry.
    pub fn get_mut(&mut self, module_id: &str) -> (r: Option<&mut ModuleEntry<M>>)
        requires
            old(self).wf(),
        ensures
            final(self).wf(),
            final(self).ids() == old(self).ids(),
            match r {
                Some(e) => {
                    &&& old(self)@.contains_key(module_id@)
                    &&& *e == old(self)@[module_id@]
                    &&& final(self)@ == old(self)@.insert(module_id@, *final(e))
                },
                None => !old(self)@.contains_key(module_id@) && final(self)@ == old(self)@,
            },
    {
        self.modules.get_mut(module_id)
    }

    /// Number of registered modules.
    pub fn len(&self) -> (n: usize)
        requires
            self.wf(),
        ensures
            n == self@.dom().len(),
            n == self.ids().len(),
    {
        self.modules.len()
    }

    /// Whether no module is registered.
    pub fn is_empty(&self) -> (r: bool)
        requires
            self.wf(),
        ensures
            r == (self@.dom().len() == 0),
    {
        self.modules.len() == 0
    }

    /// The registered module ids, in registration order.
    pub fn module_ids(&self) -> (r: Vec<&str>)
        requires
            self.wf(),
        ensures
            r@.map_values(|s: &str| s@) == self.ids(),
    {
        self.modules.key_strs()
    }

    /// Starts a single module: its state goes through `Starting` while its
    /// `start` runs with the context, and is `Running` afterwards. A module
    /// that specifies its behaviour is then started, and the context is what
    /// its `start` makes of it. An unknown id changes nothing.
    pub fn start_module(&mut self, module_id: &str, ctx: &mut Context)
        requires
            old(self).wf(),
            old(ctx).wf(),
        ensures
            final(self).wf(),
            final(ctx).wf(),
            final(self).ids() == old(self).ids(),
            final(self)@.dom() == old(self)@.dom(),
            states(final(self)@) == (if old(self)@.contains_key(module_id@) {
                states(old(self)@).insert(module_id@, ModuleState::Running)
            } else {
                states(old(self)@)
            }),
            forall|k: Seq<char>| k != module_id@ && #[trigger] old(self)@.contains_key(k)
                ==> final(self)@[k] == old(self)@[k],
            !old(self)@.contains_key(module_id@) ==> final(self)@ == old(self)@ && final(ctx)@ == old(ctx)@,
            old(self)@.contains_key(module_id@) && old(self)@[module_id@].module.specified() ==> {
                &&& started_from(old(self)@[module_id@].module, final(self)@[module_id@].module)
                &&& final(ctx)@ == old(self)@[module_id@].module.context_after_start(old(ctx)@)
            },
    {
        match self.modules.get_mut(module_id) {
            Some(entry) => {
                entry.state = ModuleState::Starting;
                entry.module.start(ctx);
                entry.state = ModuleState::Running;
            },
            None => {},
        }
        assert(states(self@) =~= (if old(self)@.contains_key(module_id@) {
            states(old(self)@).insert(module_id@, ModuleState::Running)
        } else {
            states(old(self)@)
        }));
    }

    /// Stops a single module: its state goes through `Stopping` while its
    /// `stop` runs, and is `Stopped` afterwards. A module that specifies its
    /// behaviour is then stopped. An unknown id changes nothing.
    pub fn stop_module(&mut self, module_id: &str)
        requires
            old(self).wf(),
        ensures
            final(self).wf(),
            final(self).ids() == old(self).ids(),
            final(self)@.dom() == old(self)@.dom(),
            states(final(self)@) == (if old(self)@.contains_key(module_id@) {
                states(old(self)@).insert(module_id@, ModuleState::Stopped)
            } else {
                states(old(self)@)
            }),
            forall|k: Seq<char>| k != module_id@ && #[trigger] old(self)@.contains_key(k)
                ==> final(self)@[k] == old(self)@[k],
            !old(self)@.contains_key(module_id@) ==> final(self)@ == old(self)@,
            old(self)@.contains_key(module_id@) && old(self)@[module_id@].module.specified()
                ==> stopped_from(old(self)@[module_id@].module, final(self)@[module_id@].module),
    {
        match self.modules.get_mut(module_id) {
            Some(entry) => {
                entry.state = ModuleState::Stopping;
                entry.module.stop();
                entry.state = ModuleState::Stopped;
            },
            None => {},
        }
        assert(states(self@) =~= (if old(self)@.contains_key(module_id@) {
            states(old(self)@).insert(module_id@, ModuleState::Stopped)
        } else {
            states(old(self)@)
        }));
    }
    /// Starts all modules, in registration order. Afterwards every registered
    /// module is `Running`, and the ids are unchanged. Every module that
    /// specifies its behaviour is started; where all do, the context is what
    /// their `start`s make of it, one after the other in registration order
    /// (so an empty registry leaves it as it was).
    pub fn start_all(&mut self, ctx: &mut Context)
        requires
            old(self).wf(),
            old(ctx).wf(),
        ensures
            final(self).wf(),
            final(ctx).wf(),
            final(self).ids() == old(self).ids(),
            final(self)@.dom() == old(self)@.dom(),
            all_in_state(final(self)@, ModuleState::Running),
            forall|k: Seq<char>| #[trigger] old(self)@.contains_key(k) && old(self)@[k].module.specified()
                ==> started_from(old(self)@[k].module, final(self)@[k].module),
            all_specified(old(self)@) ==> final(ctx)@ == start_chain(old(self)@, old(self).ids(), old(ctx)@),
            old(self)@.dom().len() == 0 ==> final(self)@ == old(self)@ && final(ctx)@ == old(ctx)@,
    {
        let ids = self.modules.key_strings();
        let n = ids.len();
        let ghost keys0 = self.ids();
        let ghost dom0 = self@.dom();
        let ghost m0 = self@;
        let ghost c0 = ctx@;
        proof {
            self.lemma_ids();
            if m0.dom().len() == 0 {
                assert(keys0.len() == 0);
                assert forall|k: Seq<char>| !m0.contains_key(k) by {
                    if m0.contains_key(k) {
                        assert(keys0.contains(k));
                    }
                }
            }
            assert(ids@.len() == keys0.len());
            assert(keys0.take(0) =~= Seq::<Seq<char>>::empty());
        }
        let mut i: usize = 0;
        while i < n
            invariant
                self.wf(),
                ctx.wf(),
                n == ids@.len(),
                n == keys0.len(),
                i <= n,
                self.ids() == keys0,
                self@.dom() == dom0,
                m0.dom() == dom0,
                keys0.no_duplicates(),
                ids@.map_values(|s: String| s@) == keys0,
                forall|k: Seq<char>| dom0.contains(k) <==> keys0.contains(k),
                forall|j: int| 0 <= j < i ==> #[trigger] self@[keys0[j]].state == ModuleState::Running,
                forall|j: int| 0 <= j < i && m0[keys0[j]].module.specified()
                    ==> started_from(m0[keys0[j]].module, #[trigger] self@[keys0[j]].module),
                forall|j: int| i <= j < n ==> #[trigger] self@[keys0[j]] == m0[keys0[j]],
                all_specified(m0) ==> ctx@ == start_chain(m0, keys0.take(i as int), c0),
            decreases n - i,
        {
            let ghost before = self@;
            let ghost cb = ctx@;
            assert(ids@[i as int]@ == keys0[i as int]);
            self.start_module(ids[i].as_str(), ctx);
            proof {
                assert(dom0.contains(keys0[i as int]));
                assert forall|j: int| 0 <= j < n && j != i implies #[trigger] self@[keys0[j]]
                    == before[keys0[j]] by {
                    assert(keys0[j] != keys0[i as int]);
                    assert(before.contains_key(keys0[j]));
                }
                assert forall|j: int| 0 <= j < i + 1 implies #[trigger] self@[keys0[j]].state
                    == ModuleState::Running by {
                    if j == i {
                        assert(states(self@)[keys0[j]] == ModuleState::Running);
                    }
                }
                if all_specified(m0) {
                    assert(m0.contains_key(keys0[i as int]));
                    assert(keys0.take(i + 1).drop_last() =~= keys0.take(i as int));
                    assert(keys0.take(i + 1).last() == keys0[i as int]);
                }
            }
            i = i + 1;
        }
        proof {
            assert(keys0.take(n as int) =~= keys0);
            if m0.dom().len() == 0 {
                assert(self@ =~= m0);
            }
            assert forall|k: Seq<char>| self@.contains_key(k) implies #[trigger] self@[k].state
                == ModuleState::Running by {
                let j = keys0.index_of(k);
                assert(keys0[j] == k);
            }
            assert forall|k: Seq<char>| #[trigger] m0.contains_key(k) && m0[k].module.specified()
                implies started_from(m0[k].module, self@[k].module) by {
                let j = keys0.index_of(k);
                assert(keys0[j] == k);
            }
        }
    }

    /// Stops all modules, in registration order. Afterwards every registered
    /// module is `Stopped`, and the ids are unchanged. Every module that
    /// specifies its behaviour is stopped.
    pub fn stop_all(&mut self)
        requires
            old(self).wf(),
        ensures
            final(self).wf(),
            final(self).ids() == old(self).ids(),
            final(self)@.dom() == old(self)@.dom(),
            all_in_state(final(self)@, ModuleState::Stopped),
            forall|k: Seq<char>| #[trigger] old(self)@.contains_key(k) && old(self)@[k].module.specified()
                ==> stopped_from(old(self)@[k].module, final(self)@[k].module),
    {
        let ids = self.modules.key_strings();
        let n = ids.len();
        let ghost keys0 = self.ids();
        let ghost dom0 = self@.dom();
        let ghost m0 = self@;
        proof {
            self.lemma_ids();
            assert(ids@.len() == keys0.len());
        }
        let mut i: usize = 0;
        while i < n
            invariant
                self.wf(),
                n == ids@.len(),
                n == keys0.len(),
                i <= n,
                self.ids() == keys0,
                self@.dom() == dom0,
                m0.dom() == dom0,
                keys0.no_duplicates(),
                ids@.map_values(|s: String| s@) == keys0,
                forall|k: Seq<char>| dom0.contains(k) <==> keys0.contains(k),
                forall|j: int| 0 <= j < i ==> #[trigger] self@[keys0[j]].state == ModuleState::Stopped,
                forall|j: int| 0 <= j < i && m0[keys0[j]].module.specified()
                    ==> stopped_from(m0[keys0[j]].module, #[trigger] self@[keys0[j]].module),
                forall|j: int| i <= j < n ==> #[trigger] self@[keys0[j]] == m0[keys0[j]],
            decreases n - i,
        {
            let ghost before = self@;
            assert(ids@[i as int]@ == keys0[i as int]);
            self.stop_module(ids[i].as_str());
            proof {
                assert(dom0.contains(keys0[i as int]));
                assert forall|j: int| 0 <= j < n && j != i implies #[trigger] self@[keys0[j]]
                    == before[keys0[j]] by {
                    assert(keys0[j] != keys0[i as int]);
                    assert(before.contains_key(keys0[j]));
                }
                assert forall|j: int| 0 <= j < i + 1 implies #[trigger] self@[keys0[j]].state
                    == ModuleState::Stopped by {
                    if j == i {
                        assert(states(self@)[keys0[j]] == ModuleState::Stopped);
                    }
                }
            }
            i = i + 1;
        }
        proof {
            assert forall|k: Seq<char>| self@.contains_key(k) implies #[trigger] self@[k].state
                == ModuleState::Stopped by {
                let j = keys0.index_of(k);
                assert(keys0[j] == k);
            }
            assert forall|k: Seq<char>| #[trigger] m0.contains_key(k) && m0[k].module.specified()
                implies stopped_from(m0[k].module, self@[k].module) by {
                let j = keys0.index_of(k);
                assert(keys0[j] == k);
            }
        }
    }
}


impl<M: ?Sized + Module> Default for ModuleRegistry<M> {
    fn default() -> (r: Self)
        ensures
            r.wf(),
            r@ == Map::<Seq<char>, ModuleEntry<M>>::empty(),
            r.ids() == Seq::<Seq<char>>::empty(),
    {
        ModuleRegistry::new()
    }
}

/// A module is found right after it is registered, in state `Stopped`.
pub proof fn register_then_get<M: ?Sized>(m: Map<Seq<char>, ModuleEntry<M>>, id: Seq<char>, module: Box<M>)
    ensures
        ({
            let after = m.insert(id, ModuleEntry { module: module, state: ModuleState::Stopped });
            &&& after.contains_key(id)
            &&& after[id].module == module
            &&& after[id].state == ModuleState::Stopped
        }),
{
}

/// Unregistering a module right after registering it hands the same module
/// back, and leaves the registry as it was without that id.
pub proof fn unregister_after_register<M: ?Sized>(
    m: Map<Seq<char>, ModuleEntry<M>>,
    id: Seq<char>,
    module: Box<M>,
)
    ensures
        ({
            let after = m.insert(id, ModuleEntry { module: module, state: ModuleState::Stopped });
            &&& after.remove(id) == m.remove(id)
            &&& !m.contains_key(id) ==> after.remove(id) == m
            &&& after[id].module == module
        }),
{
    let after = m.insert(id, ModuleEntry { module: module, state: ModuleState::Stopped });
    assert(after.remove(id) =~= m.remove(id));
    if !m.contains_key(id) {
        assert(m.remove(id) =~= m);
    }
}

/// Starting and then stopping a module leaves it `Stopped`, and every other
/// module in the state it had.
pub proof fn start_then_stop<M: ?Sized>(m: Map<Seq<char>, ModuleEntry<M>>, id: Seq<char>)
    requires
        m.contains_key(id),
    ensures
        states(m).insert(id, ModuleState::Running).insert(id, ModuleState::Stopped) == states(
            m,
        ).insert(id, ModuleState::Stopped),
        states(m).insert(id, ModuleState::Stopped)[id] == ModuleState::Stopped,
        forall|k: Seq<char>| k != id && #[trigger] m.contains_key(k)
            ==> states(m).insert(id, ModuleState::Stopped)[k] == m[k].state,
{
    assert(states(m).insert(id, ModuleState::Running).insert(id, ModuleState::Stopped) =~= states(
        m,
    ).insert(id, ModuleState::Stopped));
}

/// Registering under a new id adds one module; under an id in use, none.
pub proof fn register_len<M: ?Sized + Module>(r: &ModuleRegistry<M>, id: Seq<char>, entry: ModuleEntry<M>)
    requires
        r.wf(),
    ensures
        r@.insert(id, entry).dom().len() == r@.dom().len() + (if r@.contains_key(id) {
            0int
        } else {
            1int
        }),
{
    r.lemma_ids();
    r.modules.lemma_dom();
    if r@.contains_key(id) {
        assert(r@.insert(id, entry).dom() =~= r@.dom());
    }
}

/// Stopping a module that specifies its behaviour makes exactly one lifecycle
/// call on it, a stop: it is never started again on the way, nor stopped twice.
pub proof fn stop_makes_one_call<M: ?Sized + Module>(before: Box<M>, after: Box<M>)
    requires
        stopped_from(before, after),
    ensures
        after.lifecycle_calls().len() == before.lifecycle_calls().len() + 1,
        after.lifecycle_calls().last() is Stop,
        after.lifecycle_calls().drop_last() == before.lifecycle_calls(),
{
    assert(after.lifecycle_calls().drop_last() =~= before.lifecycle_calls());
}

/// Starting a module that specifies its behaviour makes exactly one lifecycle
/// call on it, a start.
pub proof fn start_makes_one_call<M: ?Sized + Module>(before: Box<M>, after: Box<M>)
    requires
        started_from(before, after),
    ensures
        after.lifecycle_calls().len() == before.lifecycle_calls().len() + 1,
        after.lifecycle_calls().last() is Start,
        after.lifecycle_calls().drop_last() == before.lifecycle_calls(),
{
    assert(after.lifecycle_calls().drop_last() =~= before.lifecycle_calls());
}

} // verus!
