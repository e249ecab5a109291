//! Scopes, signals and effects, with dynamic dependency tracking.
//!
//! Effects are run by their owner: `create_effect` or `begin_run` opens a
//! tracking window, every `get` inside it records a read, and `end_run`
//! replaces the effect's dependencies with exactly those reads. A mutation
//! (`set` or `update`) stores the new value and hands back its propagation
//! pass: the live effects that depend on the signal, in registration order,
//! each once. The caller re-runs them before doing anything else.
//!
//! A mutation made while an effect is running is allowed; its pass is run
//! after the current run has ended.
use vstd::prelude::*;

verus! {

/// The mathematical state of a [`Runtime`].
pub struct RuntimeModel {
    /// Current value of each signal, by signal id.
    pub values: Seq<i64>,
    /// Owning scope of each signal.
    pub signal_scope: Seq<usize>,
    /// Whether each scope is still alive (not disposed).
    pub scope_alive: Seq<bool>,
    /// Owning scope of each effect, by effect id (ids follow registration order).
    pub effect_scope: Seq<usize>,
    /// The signals each effect read during its latest completed run.
    pub deps: Seq<Seq<usize>>,
    /// The effect whose run is open, if any.
    pub running: Option<usize>,
    /// The signals read so far during the open run.
    pub reads: Seq<usize>,
}

impl RuntimeModel {
    pub open spec fn wf(self) -> bool {
        &&& self.signal_scope.len() == self.values.len()
        &&& self.deps.len() == self.effect_scope.len()
        &&& forall|i: int| 0 <= i < self.signal_scope.len()
            ==> #[trigger] self.signal_scope[i] < self.scope_alive.len()
        &&& forall|i: int| 0 <= i < self.effect_scope.len()
            ==> #[trigger] self.effect_scope[i] < self.scope_alive.len()
        &&& (self.running is Some ==> self.running->0 < self.effect_scope.len())
        &&& (self.running is None ==> self.reads.len() == 0)
    }

    pub open spec fn scope_live(self, c: usize) -> bool {
        c < self.scope_alive.len() && self.scope_alive[c as int]
    }

    pub open spec fn signal_live(self, s: usize) -> bool {
        s < self.values.len() && self.scope_live(self.signal_scope[s as int])
    }

    pub open spec fn effect_live(self, e: usize) -> bool {
        e < self.effect_scope.len() && self.scope_live(self.effect_scope[e as int])
    }

    /// Effect `e` read signal `s` during its latest completed run.
    pub open spec fn depends(self, e: usize, s: usize) -> bool {
        e < self.deps.len() && self.deps[e as int].contains(s)
    }

    /// Effect `e` must re-run when signal `s` changes.
    pub open spec fn triggered(self, s: usize, e: usize) -> bool {
        self.effect_live(e) && self.depends(e, s)
    }

    /// `pass` is the propagation pass of a mutation of `s`: every live effect
    /// that depends on `s` and nothing else, in strictly increasing
    /// (registration) order.
    pub open spec fn is_pass(self, s: usize, pass: Seq<usize>) -> bool {
        &&& forall|e: usize| #[trigger] pass.contains(e) <==> self.triggered(s, e)
        &&& forall|i: int, j: int| 0 <= i < j < pass.len() ==> pass[i] < pass[j]
    }

    pub open spec fn add_scope(self) -> RuntimeModel {
        RuntimeModel { scope_alive: self.scope_alive.push(true), ..self }
    }

    pub open spec fn dispose(self, c: usize) -> RuntimeModel {
        RuntimeModel { scope_alive: self.scope_alive.update(c as int, false), ..self }
    }

    pub open spec fn add_signal(self, c: usize, v: i64) -> RuntimeModel {
        RuntimeModel {
            values: self.values.push(v),
            signal_scope: self.signal_scope.push(c),
            ..self
        }
    }

    /// State after reading `s`: the read is recorded when a run is open.
    pub open spec fn read(self, s: usize) -> RuntimeModel {
        if self.running is Some {
            RuntimeModel { reads: self.reads.push(s), ..self }
        } else {
            self
        }
    }

    /// State after reading each of `ss` in turn.
    pub open spec fn read_all(self, ss: Seq<usize>) -> RuntimeModel
        decreases ss.len(),
    {
        if ss.len() == 0 {
            self
        } else {
            self.read_all(ss.drop_last()).read(ss.last())
        }
    }

    pub open spec fn write(self, s: usize, v: i64) -> RuntimeModel {
        RuntimeModel { values: self.values.update(s as int, v), ..self }
    }

    /// State after opening a run of `e`: no reads recorded yet.
    pub open spec fn open_run(self, e: usize) -> RuntimeModel {
        RuntimeModel { running: Some(e), reads: Seq::empty(), ..self }
    }

    /// State after registering a new effect in scope `c` and opening its
    /// first run.
    pub open spec fn add_effect(self, c: usize) -> RuntimeModel {
        RuntimeModel {
            effect_scope: self.effect_scope.push(c),
            deps: self.deps.push(Seq::empty()),
            ..self
        }.open_run(self.effect_scope.len() as usize)
    }

    /// State after closing the open run: the running effect's dependencies
    /// are replaced by the reads of this run.
    pub open spec fn close_run(self) -> RuntimeModel {
        RuntimeModel {
            deps: self.deps.update(self.running->0 as int, self.reads),
            running: None,
            reads: Seq::empty(),
            ..self
        }
    }
}

proof fn lemma_read_all(m: RuntimeModel, ss: Seq<usize>)
    requires
        m.running is Some,
    ensures
        m.read_all(ss) == (RuntimeModel { reads: m.reads + ss, ..m }),
    decreases ss.len(),
{
    if ss.len() == 0 {
        assert(m.reads + ss =~= m.reads);
    } else {
        lemma_read_all(m, ss.drop_last());
        assert(m.reads + ss =~= (m.reads + ss.drop_last()).push(ss.last()));
    }
}

/// A mutation's pass re-runs every live effect that depends on the mutated
/// signal exactly once, and no other effect.
pub proof fn lemma_pass_exactly_once(m: RuntimeModel, s: usize, pass: Seq<usize>)
    requires
        m.is_pass(s, pass),
    ensures
        pass.no_duplicates(),
        forall|e: usize| m.triggered(s, e) ==> #[trigger] pass.contains(e),
        forall|i: int| 0 <= i < pass.len() ==> m.triggered(s, #[trigger] pass[i]),
{
    assert forall|i: int| 0 <= i < pass.len() implies m.triggered(s, #[trigger] pass[i]) by {
        assert(pass.contains(pass[i]));
    }
}

/// After a completed run of `e` that read exactly the signals `ss`, `e`
/// depends on those signals and on no other, whatever it read in earlier
/// runs.
pub proof fn lemma_dependencies_fresh(m: RuntimeModel, e: usize, ss: Seq<usize>)
    requires
        m.wf(),
        m.effect_live(e),
        m.running is None,
    ensures
        forall|x: usize| #[trigger] m.open_run(e).read_all(ss).close_run().depends(e, x)
            <==> ss.contains(x),
{
    lemma_read_all(m.open_run(e), ss);
    assert(Seq::<usize>::empty() + ss =~= ss);
}

/// The reactive runtime: owns every scope, signal and effect.
pub struct Runtime {
    values: Vec<i64>,
    signal_scope: Vec<usize>,
    scope_alive: Vec<bool>,
    effect_scope: Vec<usize>,
    deps: Vec<Vec<usize>>,
    running: Option<usize>,
    reads: Vec<usize>,
}

impl View for Runtime {
    type V = RuntimeModel;

    closed spec fn view(&self) -> RuntimeModel {
        RuntimeModel {
            values: self.values@,
            signal_scope: self.signal_scope@,
            scope_alive: self.scope_alive@,
            effect_scope: self.effect_scope@,
            deps: self.deps@.map_values(|d: Vec<usize>| d@),
            running: self.running,
            reads: self.reads@,
        }
    }
}

fn vec_contains(v: &Vec<usize>, x: usize) -> (r: bool)
    ensures
        r == v@.contains(x),
{
    let mut i: usize = 0;
    while i < v.len()
        invariant
            i <= v@.len(),
            forall|j: int| 0 <= j < i ==> v@[j] != x,
        decreases v.len() - i,
    {
        if v[i] == x {
            return true;
        }
        i += 1;
    }
    false
}

proof fn lemma_push_contains(prev: Seq<usize>, e: usize)
    ensures
        forall|x: usize| #[trigger] prev.push(e).contains(x) <==> (prev.contains(x) || x == e),
{
    assert forall|x: usize| #[trigger] prev.push(e).contains(x) <==> (prev.contains(x) || x == e) by {
        if x == e {
            assert(prev.push(e)[prev.len() as int] == e);
        }
        if prev.contains(x) {
            let k = choose|k: int| 0 <= k < prev.len() && prev[k] == x;
            assert(prev.push(e)[k] == x);
        }
    }
}

impl Runtime {
    /// A runtime with no scopes, signals or effects.
    pub fn new() -> (r: Runtime)
        ensures
            r@.wf(),
            r@.values.len() == 0,
            r@.scope_alive.len() == 0,
            r@.effect_scope.len() == 0,
            r@.running is None,
    {
        Runtime {
            values: Vec::new(),
            signal_scope: Vec::new(),
            scope_alive: Vec::new(),
            effect_scope: Vec::new(),
            deps: Vec::new(),
            running: None,
            reads: Vec::new(),
        }
    }

    /// Allocates a new, live scope and returns its id.
    pub fn create_scope(&mut self) -> (c: usize)
        requires
            old(self)@.wf(),
        ensures
            c == old(self)@.scope_alive.len(),
            final(self)@ == old(self)@.add_scope(),
            final(self)@.wf(),
    {
        let c = self.scope_alive.len();
        self.scope_alive.push(true);
        c
    }

    /// Disposes scope `c`: its signals can no longer be used and its effects
    /// never run again.
    pub fn dispose_scope(&mut self, c: usize)
        requires
            old(self)@.wf(),
            c < old(self)@.scope_alive.len(),
        ensures
            final(self)@ == old(self)@.dispose(c),
            final(self)@.wf(),
    {
        self.scope_alive.set(c, false);
    }

    /// Allocates a signal owned by the live scope `c`, holding `initial`,
    /// and returns its id.
    pub fn create_signal(&mut self, c: usize, initial: i64) -> (s: usize)
        requires
            old(self)@.wf(),
            old(self)@.scope_live(c),
        ensures
            s == old(self)@.values.len(),
            final(self)@ == old(self)@.add_signal(c, initial),
            final(self)@.wf(),
            final(self)@.signal_live(s),
    {
        let s = self.values.len();
        self.values.push(initial);
        self.signal_scope.push(c);
        s
    }

    /// Reads signal `s`; inside an open run the read becomes a dependency of
    /// the running effect.
    pub fn get(&mut self, s: usize) -> (v: i64)
        requires
            old(self)@.wf(),
            old(self)@.signal_live(s),
        ensures
            v == old(self)@.values[s as int],
            final(self)@ == old(self)@.read(s),
            final(self)@.wf(),
    {
        if self.running.is_some() {
            self.reads.push(s);
        }
        self.values[s]
    }

    /// The live effects that depend on `s`, in registration order.
    fn dependents(&self, s: usize) -> (pass: Vec<usize>)
        requires
            self@.wf(),
        ensures
            self@.is_pass(s, pass@),
    {
        let mut pass: Vec<usize> = Vec::new();
        let mut e: usize = 0;
        while e < self.effect_scope.len()
            invariant
                self@.wf(),
                e <= self@.effect_scope.len(),
                forall|x: usize| #[trigger] pass@.contains(x) <==> (x < e && self@.triggered(s, x)),
                forall|i: int, j: int| 0 <= i < j < pass@.len() ==> pass@[i] < pass@[j],
                forall|i: int| 0 <= i < pass@.len() ==> pass@[i] < e,
            decreases self.effect_scope.len() - e,
        {
            let c = self.effect_scope[e];
            if self.scope_alive[c] && vec_contains(&self.deps[e], s) {
                let ghost prev = pass@;
                pass.push(e);
                proof {
                    lemma_push_contains(prev, e);
                }
            } else {
                proof {
                    assert(!self@.triggered(s, e));
                }
            }
            e += 1;
        }
        pass
    }

    /// Stores `v` in signal `s` and returns the propagation pass: every live
    /// effect that depends on `s`, each once, in registration order. The
    /// caller re-runs each of them before the mutation is complete.
    pub fn set(&mut self, s: usize, v: i64) -> (pass: Vec<usize>)
        requires
            old(self)@.wf(),
            old(self)@.signal_live(s),
        ensures
            final(self)@ == old(self)@.write(s, v),
            final(self)@.wf(),
            old(self)@.is_pass(s, pass@),
            final(self)@.is_pass(s, pass@),
    {
        self.values.set(s, v);
        self.dependents(s)
    }

    /// Replaces the value of signal `s` by `f` of it and returns the
    /// propagation pass, as [`Runtime::set`] does.
    pub fn update<F: FnOnce(i64) -> i64>(&mut self, s: usize, f: F) -> (pass: Vec<usize>)
        requires
            old(self)@.wf(),
            old(self)@.signal_live(s),
            f.requires((old(self)@.values[s as int],)),
        ensures
            f.ensures((old(self)@.values[s as int],), final(self)@.values[s as int]),
            final(self)@ == old(self)@.write(s, final(self)@.values[s as int]),
            final(self)@.wf(),
            old(self)@.is_pass(s, pass@),
            final(self)@.is_pass(s, pass@),
    {
        let cur = self.values[s];
        let v = f(cur);
        self.set(s, v)
    }

    /// Registers a new effect owned by the live scope `c` and opens its
    /// first run; returns its id.
    pub fn create_effect(&mut self, c: usize) -> (e: usize)
        requires
            old(self)@.wf(),
            old(self)@.scope_live(c),
            old(self)@.running is None,
        ensures
            e == old(self)@.effect_scope.len(),
            final(self)@ == old(self)@.add_effect(c),
            final(self)@.wf(),
            final(self)@.effect_live(e),
    {
        let e = self.effect_scope.len();
        self.effect_scope.push(c);
        self.deps.push(Vec::new());
        self.running = Some(e);
        proof {
            assert(self@.deps =~= old(self)@.deps.push(Seq::empty()));
            assert(self@.reads =~= Seq::<usize>::empty());
            assert(self@ =~= old(self)@.add_effect(c));
        }
        e
    }

    /// Opens a new run of the live effect `e`.
    pub fn begin_run(&mut self, e: usize)
        requires
            old(self)@.wf(),
            old(self)@.effect_live(e),
            old(self)@.running is None,
        ensures
            final(self)@ == old(self)@.open_run(e),
            final(self)@.wf(),
    {
        self.running = Some(e);
        self.reads = Vec::new();
        proof {
            assert(self@ =~= old(self)@.open_run(e));
        }
    }

    /// Closes the open run: the running effect now depends on exactly the
    /// signals read during this run.
    pub fn end_run(&mut self)
        requires
            old(self)@.wf(),
            old(self)@.running is Some,
        ensures
            final(self)@ == old(self)@.close_run(),
            final(self)@.wf(),
            forall|x: usize| #[trigger] final(self)@.depends(old(self)@.running->0, x)
                <==> old(self)@.reads.contains(x),
    {
        let e = self.running.unwrap();
        let mut reads: Vec<usize> = Vec::new();
        std::mem::swap(&mut reads, &mut self.reads);
        self.deps.set(e, reads);
        self.running = None;
        proof {
            assert(self@.deps =~= old(self)@.deps.update(e as int, old(self)@.reads));
            assert(self@ =~= old(self)@.close_run());
        }
    }

    /// Whether scope `c` exists and has not been disposed.
    pub fn scope_live(&self, c: usize) -> (r: bool)
        requires
            self@.wf(),
        ensures
            r == self@.scope_live(c),
    {
        c < self.scope_alive.len() && self.scope_alive[c]
    }

    /// Whether signal `s` exists and its scope has not been disposed.
    pub fn signal_live(&self, s: usize) -> (r: bool)
        requires
            self@.wf(),
        ensures
            r == self@.signal_live(s),
    {
        s < self.values.len() && self.scope_live(self.signal_scope[s])
    }

    /// Whether effect `e` exists and its scope has not been disposed.
    pub fn effect_live(&self, e: usize) -> (r: bool)
        requires
            self@.wf(),
        ensures
            r == self@.effect_live(e),
    {
        e < self.effect_scope.len() && self.scope_live(self.effect_scope[e])
    }

    /// The effect whose run is open, if any.
    pub fn running(&self) -> (r: Option<usize>)
        ensures
            r == self@.running,
    {
        self.running
    }
}

} // verus!
