//! The shared math engine and the module that publishes it in the context.
use vstd::prelude::*;
use crate::context::{Context, ContextItem, ContextValue};
use crate::lifecycle::HealthStatus;
use crate::module::{LifecycleCall, Module};

verus! {

/// Shared math engine that gets placed in the context for other modules.
/// It counts the arithmetic operations that were run through it.
pub struct MathEngine {
    ops_run: usize,
}

impl MathEngine {
    /// The number of operations run so far.
    pub closed spec fn spec_ops_run(&self) -> nat {
        self.ops_run as nat
    }

    /// The engine that has run no operation.
    pub closed spec fn fresh() -> MathEngine {
        MathEngine { ops_run: 0 }
    }

    /// A fresh engine that has run no operation.
    pub fn new() -> (r: Self)
        ensures
            r.spec_ops_run() == 0,
            r == MathEngine::fresh(),
    {
        MathEngine { ops_run: 0 }
    }

    /// Number of operations run so far.
    pub fn ops_run(&self) -> (r: usize)
        ensures
            r == self.spec_ops_run(),
    {
        self.ops_run
    }

    /// Counts one more operation.
    pub fn record_op(&mut self)
        requires
            old(self).spec_ops_run() < usize::MAX,
        ensures
            final(self).spec_ops_run() == old(self).spec_ops_run() + 1,
    {
        self.ops_run = self.ops_run + 1;
    }
}

/// The rows of a matrix, as sequences.
pub open spec fn rows_of<T>(m: Seq<Vec<T>>) -> Seq<Seq<T>> {
    m.map_values(|row: Vec<T>| row@)
}

/// The transpose of a matrix whose first row is its longest: entry `(c, r)`
/// is entry `(r, c)` of `m`, or `fill` where row `r` is shorter than `c + 1`.
/// An empty matrix transposes to an empty one.
pub open spec fn transposed<T>(m: Seq<Seq<T>>, fill: T) -> Seq<Seq<T>> {
    if m.len() == 0 {
        Seq::empty()
    } else {
        Seq::new(
            m[0].len(),
            |c: int| Seq::new(m.len(), |r: int| if c < m[r].len() { m[r][c] } else { fill }),
        )
    }
}

/// Whether two matrices have the same number of rows, and rows of equal index
/// have the same length.
pub open spec fn same_shape<T>(a: Seq<Seq<T>>, b: Seq<Seq<T>>) -> bool {
    &&& a.len() == b.len()
    &&& forall|i: int| 0 <= i < a.len() ==> #[trigger] a[i].len() == b[i].len()
}

/// Entry `(c, r)` of the transpose is entry `(r, c)` of the matrix, or `fill`
/// where row `r` does not reach column `c`; the transpose has one row per
/// column of the first row, each as long as the matrix has rows.
pub proof fn transposed_entries<T>(m: Seq<Seq<T>>, fill: T)
    ensures
        transposed(m, fill).len() == (if m.len() == 0 { 0 } else { m[0].len() }),
        forall|c: int|
            0 <= c < transposed(m, fill).len() ==> (#[trigger] transposed(m, fill)[c]).len() == m.len(),
        forall|c: int, r: int|
            0 <= c < transposed(m, fill).len() && 0 <= r < m.len() ==> #[trigger] transposed(m, fill)[c][r]
                == (if c < m[r].len() {
                m[r][c]
            } else {
                fill
            }),
{
}

/// Transposing a rectangular matrix with at least one row and one column
/// twice gives it back.
pub proof fn transpose_twice<T>(m: Seq<Seq<T>>, fill: T)
    requires
        m.len() > 0,
        m[0].len() > 0,
        forall|r: int| 0 <= r < m.len() ==> #[trigger] m[r].len() == m[0].len(),
    ensures
        transposed(transposed(m, fill), fill) == m,
{
    let t = transposed(m, fill);
    assert(t.len() == m[0].len());
    assert(t[0].len() == m.len());
    let tt = transposed(t, fill);
    assert(tt.len() == m.len());
    assert forall|r: int| 0 <= r < m.len() implies #[trigger] tt[r] =~= m[r] by {
        assert(tt[r].len() == t.len());
        assert forall|c: int| 0 <= c < m[r].len() implies tt[r][c] == m[r][c] by {
            assert(t[c].len() == m.len());
            assert(t[c][r] == m[r][c]);
        }
    }
    assert(tt =~= m);
}

impl MathEngine {
    /// Transposes a matrix given as a list of rows. The result has one row per
    /// column of the first row; a place that a shorter row does not reach is
    /// filled with `fill`. Every row must be at most as long as the first one.
    pub fn transpose<T: Copy>(&self, m: &[Vec<T>], fill: T) -> (out: Vec<Vec<T>>)
        requires
            forall|r: int| 0 <= r < m@.len() ==> #[trigger] m@[r]@.len() <= m@[0]@.len(),
        ensures
            rows_of(out@) == transposed(rows_of(m@), fill),
            out@.len() == (if m@.len() == 0 { 0 } else { m@[0]@.len() }),
            forall|c: int| 0 <= c < out@.len() ==> (#[trigger] out@[c])@.len() == m@.len(),
            forall|c: int, r: int|
                0 <= c < out@.len() && 0 <= r < m@.len() ==> #[trigger] out@[c]@[r] == (if c
                    < m@[r]@.len() {
                    m@[r]@[c]
                } else {
                    fill
                }),
    {
        proof {
            transposed_entries(rows_of(m@), fill);
        }
        if m.len() == 0 {
            let out: Vec<Vec<T>> = Vec::new();
            assert(rows_of(out@) =~= transposed(rows_of(m@), fill));
            return out;
        }
        let rows = m.len();
        let cols = m[0].len();
        let mut out: Vec<Vec<T>> = Vec::new();
        let mut c: usize = 0;
        while c < cols
            invariant
                c <= cols,
                out@.len() == c,
                forall|k: int| 0 <= k < c ==> (#[trigger] out@[k])@ == Seq::new(rows as nat, |r: int| fill),
            decreases cols - c,
        {
            let mut col: Vec<T> = Vec::new();
            let mut r: usize = 0;
            while r < rows
                invariant
                    r <= rows,
                    col@ == Seq::new(r as nat, |i: int| fill),
                decreases rows - r,
            {
                col.push(fill);
                r = r + 1;
                assert(col@ =~= Seq::new(r as nat, |i: int| fill));
            }
            out.push(col);
            c = c + 1;
        }
        let ghost target = transposed(rows_of(m@), fill);
        let mut r: usize = 0;
        while r < rows
            invariant
                rows == m@.len(),
                cols == m@[0]@.len(),
                r <= rows,
                out@.len() == cols,
                forall|i: int| 0 <= i < m@.len() ==> #[trigger] m@[i]@.len() <= m@[0]@.len(),
                target == transposed(rows_of(m@), fill),
                forall|k: int|
                    0 <= k < cols ==> (#[trigger] out@[k])@.len() == rows,
                forall|k: int, i: int|
                    0 <= k < cols && 0 <= i < rows ==> (#[trigger] out@[k]@[i]) == (if i < r {
                        target[k][i]
                    } else {
                        fill
                    }),
            decreases rows - r,
        {
            let row = &m[r];
            let len = row.len();
            let mut c: usize = 0;
            while c < len
                invariant
                    rows == m@.len(),
                    cols == m@[0]@.len(),
                    r < rows,
                    *row == m@[r as int],
                    len == m@[r as int]@.len(),
                    len <= cols,
                    c <= len,
                    out@.len() == cols,
                    target == transposed(rows_of(m@), fill),
                    forall|k: int|
                        0 <= k < cols ==> (#[trigger] out@[k])@.len() == rows,
                    forall|k: int, i: int|
                        0 <= k < cols && 0 <= i < rows ==> (#[trigger] out@[k]@[i]) == (if i < r
                            || (i == r && k < c) {
                            target[k][i]
                        } else {
                            fill
                        }),
                decreases len - c,
            {
                let val = row[c];
                assert(target[c as int][r as int] == val);
                let ghost before = out@;
                out[c].set(r, val);
                assert forall|k: int, i: int| 0 <= k < cols && 0 <= i < rows implies
                    (#[trigger] out@[k]@[i]) == (if i < r || (i == r && k < c + 1) {
                        target[k][i]
                    } else {
                        fill
                    }) by {
                    if k != c {
                        assert(out@[k] == before[k]);
                    }
                }
                c = c + 1;
            }
            r = r + 1;
        }
        assert(rows_of(out@) =~= target) by {
            assert forall|k: int| 0 <= k < cols implies #[trigger] rows_of(out@)[k] =~= target[k] by {
            }
        }
        out
    }

    /// Adds two matrices element by element, with `plus` as the addition of
    /// entries. Gives `None` where the matrices differ in shape.
    pub fn mat_add<T: Copy, F: Fn(T, T) -> T>(&self, a: &[Vec<T>], b: &[Vec<T>], plus: F) -> (r: Option<Vec<Vec<T>>>)
        requires
            forall|x: T, y: T| #[trigger] plus.requires((x, y)),
        ensures
            r is Some <==> same_shape(rows_of(a@), rows_of(b@)),
            r matches Some(out) ==> {
                &&& out@.len() == a@.len()
                &&& forall|i: int| 0 <= i < a@.len() ==> (#[trigger] out@[i])@.len() == a@[i]@.len()
                &&& forall|i: int, j: int|
                    0 <= i < a@.len() && 0 <= j < a@[i]@.len() ==> plus.ensures(
                        (a@[i]@[j], b@[i]@[j]),
                        #[trigger] out@[i]@[j],
                    )
            },
    {
        if a.len() != b.len() {
            return None;
        }
        let n = a.len();
        let mut out: Vec<Vec<T>> = Vec::new();
        let mut i: usize = 0;
        while i < n
            invariant
                n == a@.len(),
                n == b@.len(),
                i <= n,
                out@.len() == i,
                forall|x: T, y: T| #[trigger] plus.requires((x, y)),
                forall|k: int| 0 <= k < i ==> #[trigger] a@[k]@.len() == b@[k]@.len(),
                forall|k: int| 0 <= k < i ==> (#[trigger] out@[k])@.len() == a@[k]@.len(),
                forall|k: int, j: int|
                    0 <= k < i && 0 <= j < a@[k]@.len() ==> plus.ensures(
                        (a@[k]@[j], b@[k]@[j]),
                        #[trigger] out@[k]@[j],
                    ),
            decreases n - i,
        {
            let ra = &a[i];
            let rb = &b[i];
            if ra.len() != rb.len() {
                assert(!same_shape(rows_of(a@), rows_of(b@))) by {
                    assert(rows_of(a@)[i as int].len() != rows_of(b@)[i as int].len());
                }
                return None;
            }
            let m = ra.len();
            let mut row: Vec<T> = Vec::new();
            let mut j: usize = 0;
            while j < m
                invariant
                    m == ra@.len(),
                    m == rb@.len(),
                    j <= m,
                    row@.len() == j,
                    forall|x: T, y: T| #[trigger] plus.requires((x, y)),
                    forall|t: int| 0 <= t < j ==> plus.ensures((ra@[t], rb@[t]), #[trigger] row@[t]),
                decreases m - j,
            {
                let v = plus(ra[j], rb[j]);
                row.push(v);
                j = j + 1;
            }
            out.push(row);
            i = i + 1;
        }
        assert(same_shape(rows_of(a@), rows_of(b@))) by {
            assert forall|k: int| 0 <= k < rows_of(a@).len() implies #[trigger] rows_of(a@)[k].len()
                == rows_of(b@)[k].len() by {
                assert(a@[k]@.len() == b@[k]@.len());
            }
        }
        Some(out)
    }
}

impl Default for MathEngine {
    fn default() -> (r: Self)
        ensures
            r.spec_ops_run() == 0,
    {
        MathEngine::new()
    }
}

/// The key under which the math module publishes its engine in the context.
pub const CTX_KEY: &'static str = "math_engine";

/// The module that publishes a fresh math engine in the context when started.
pub struct MathModule {
    started: bool,
    calls: Ghost<Seq<LifecycleCall>>,
}

impl MathModule {
    /// Whether the module has been started and not stopped since.
    pub closed spec fn is_started(&self) -> bool {
        self.started
    }

    /// The lifecycle calls made on the module since it was created.
    pub closed spec fn history(&self) -> Seq<LifecycleCall> {
        self.calls@
    }

    /// The module is started exactly when the last lifecycle call made on it
    /// was a start.
    #[verifier::type_invariant]
    spec fn started_by_last_call(&self) -> bool {
        self.started == ends_started(self.calls@)
    }

    /// A module that has not been started.
    pub fn new() -> (r: Self)
        ensures
            !r.is_started(),
            r.history() == Seq::<LifecycleCall>::empty(),
    {
        MathModule { started: false, calls: Ghost(Seq::empty()) }
    }
}

impl Default for MathModule {
    fn default() -> (r: Self)
        ensures
            !r.is_started(),
            r.history() == Seq::<LifecycleCall>::empty(),
    {
        MathModule::new()
    }
}

impl Module for MathModule {
    open spec fn specified(&self) -> bool {
        true
    }

    open spec fn spec_name(&self) -> Seq<char> {
        "math"@
    }

    open spec fn spec_started(&self) -> bool {
        self.is_started()
    }

    open spec fn lifecycle_calls(&self) -> Seq<LifecycleCall> {
        self.history()
    }

    /// A fresh engine goes under `CTX_KEY`, replacing what was there.
    open spec fn context_after_start(&self, before: Map<Seq<char>, ContextValue>) -> Map<
        Seq<char>,
        ContextValue,
    > {
        before.insert(CTX_KEY@, ContextValue::Engine(MathEngine::fresh()))
    }

    fn name(&self) -> (r: &str)
        ensures
            r@ == "math"@,
    {
        "math"
    }

    fn version(&self) -> (r: &str)
        ensures
            r@ == "0.1.0"@,
    {
        "0.1.0"
    }

    /// Places a fresh engine under `CTX_KEY`, replacing what was there.
    fn start(&mut self, ctx: &mut Context)
        ensures
            final(self).is_started(),
            final(ctx)@ == old(ctx)@.insert(CTX_KEY@, MathEngine::fresh().to_value()),
    {
        let e = MathEngine::new();
        ctx.set(CTX_KEY, e);
        *self = MathModule { started: true, calls: Ghost(self.calls@.push(LifecycleCall::Start)) };
    }

    fn stop(&mut self)
        ensures
            !final(self).is_started(),
    {
        *self = MathModule { started: false, calls: Ghost(self.calls@.push(LifecycleCall::Stop)) };
    }

    /// The module is started, and reports itself healthy, exactly when the
    /// last lifecycle call made on it since its creation was `start`.
    fn health(&self) -> (r: HealthStatus)
        ensures
            self.is_started() == ends_started(self.history()),
            self.is_started() ==> r == HealthStatus::Healthy,
            !self.is_started() ==> (r matches HealthStatus::Unhealthy(msg)
                && msg@ == "MathModule is not running"@),
    {
        proof {
            use_type_invariant(self);
        }
        if self.started {
            HealthStatus::Healthy
        } else {
            HealthStatus::Unhealthy("MathModule is not running".to_owned())
        }
    }
}

/// Whether the last of `calls` is a start (false where there is none).
pub open spec fn ends_started(calls: Seq<LifecycleCall>) -> bool {
    calls.len() > 0 && calls.last() is Start
}

/// A math module is started exactly when the last of the lifecycle calls made
/// on it since it was created was `start`; its health, which is `Healthy`
/// exactly when it is started, follows. `states[0]` is the new module and
/// `states[i + 1]` what call `i` made of `states[i]`, as the contracts of
/// `start` and `stop` state it.
pub proof fn started_follows_last_call(calls: Seq<LifecycleCall>, states: Seq<MathModule>)
    requires
        states.len() == calls.len() + 1,
        !states[0].is_started(),
        forall|i: int|
            0 <= i < calls.len() ==> match #[trigger] calls[i] {
                LifecycleCall::Start => states[i + 1].is_started(),
                LifecycleCall::Stop => !states[i + 1].is_started(),
            },
    ensures
        states.last().is_started() == ends_started(calls),
{
    if calls.len() > 0 {
        let n = calls.len() - 1;
        assert(states.last() == states[n + 1]);
        match calls[n] {
            LifecycleCall::Start => {},
            LifecycleCall::Stop => {},
        }
    }
}

} // verus!
