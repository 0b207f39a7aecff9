//! Workflows: their definitions, and how their steps are laid out in
//! layers for the dependency graph.
use vstd::prelude::*;
use crate::json::{clone_json, Json, JsonValue};
use crate::text::{str_eq, views};

verus! {

/// A workflow as a search lists it.
pub struct WorkflowSummary {
    pub id: String,
    pub name: String,
    pub description: String,
    pub job_count: usize,
    pub has_inputs: bool,
}

/// A workflow with its jobs.
pub struct WorkflowDefinition {
    pub id: String,
    pub name: String,
    pub description: String,
    pub version: Option<u64>,
    pub tags: JsonValue,
    pub jobs: Vec<WorkflowJob>,
    pub path: String,
}

pub struct WorkflowJob {
    pub name: String,
    pub description: String,
    pub depends_on: Vec<WorkflowJobDependency>,
    pub steps: Vec<WorkflowStep>,
}

pub struct WorkflowJobDependency {
    pub job: String,
    pub condition: JsonValue,
}

pub struct WorkflowStep {
    pub name: String,
    pub description: String,
    pub depends_on: Vec<WorkflowStepDependency>,
    pub task: WorkflowTask,
}

pub struct WorkflowStepDependency {
    pub step: String,
    pub condition: JsonValue,
}

/// A step's task: its type and its other fields, ordered by key.
pub struct WorkflowTask {
    pub task_type: String,
    pub fields: Vec<(String, JsonValue)>,
}

/// A step of a workflow with the layer it is drawn in.
pub struct WorkflowNode<'a> {
    pub job: &'a WorkflowJob,
    pub step: &'a WorkflowStep,
    pub layer: usize,
}

/// The last position holding `name`, or -1 (a map built from the names
/// keeps the last position of each).
pub open spec fn last_index(names: Seq<Seq<char>>, name: Seq<char>) -> int
    decreases names.len(),
{
    if names.len() == 0 {
        -1
    } else if names.last() == name {
        names.len() - 1
    } else {
        last_index(names.drop_last(), name)
    }
}

/// The positions that the wanted names are found at, in order, leaving
/// out names that are not found.
pub open spec fn resolved(names: Seq<Seq<char>>, wanted: Seq<Seq<char>>) -> Seq<int>
    decreases wanted.len(),
{
    if wanted.len() == 0 {
        Seq::empty()
    } else {
        resolved(names, wanted.drop_last()) + if last_index(names, wanted.last()) >= 0 {
            seq![last_index(names, wanted.last())]
        } else {
            Seq::empty()
        }
    }
}

/// An addition that stops at the largest `usize`.
pub open spec fn sat(x: int) -> nat {
    if x > usize::MAX {
        usize::MAX as nat
    } else if x < 0 {
        0
    } else {
        x as nat
    }
}

/// The value an item takes from its dependencies: the largest value plus
/// weight among them, 0 with none.
pub open spec fn dep_value(vals: Seq<nat>, deps: Seq<int>, w: Seq<nat>) -> nat
    decreases deps.len(),
{
    if deps.len() == 0 {
        0
    } else {
        let rest = dep_value(vals, deps.drop_last(), w);
        let d = deps.last();
        let here = sat((vals[d] + w[d]) as int);
        if here > rest {
            here
        } else {
            rest
        }
    }
}

/// The values after updating the first `k` items in order, each from the
/// values as they stand at its turn.
pub open spec fn relax_prefix(vals: Seq<nat>, deps: Seq<Seq<int>>, w: Seq<nat>, k: nat) -> Seq<nat>
    decreases k,
{
    if k == 0 {
        vals
    } else {
        let v = relax_prefix(vals, deps, w, (k - 1) as nat);
        v.update(k - 1, dep_value(v, deps[k - 1], w))
    }
}

/// The values after `r` passes over all items.
pub open spec fn relax_rounds(vals: Seq<nat>, deps: Seq<Seq<int>>, w: Seq<nat>, r: nat) -> Seq<nat>
    decreases r,
{
    if r == 0 {
        vals
    } else {
        relax_prefix(relax_rounds(vals, deps, w, (r - 1) as nat), deps, w, vals.len())
    }
}

/// The layering of items with the given dependencies and weights: from all
/// zeros, as many passes as there are items.
pub open spec fn layering(deps: Seq<Seq<int>>, w: Seq<nat>) -> Seq<nat> {
    relax_rounds(Seq::new(deps.len(), |i: int| 0nat), deps, w, deps.len())
}

/// Positions as integers.
pub open spec fn ints(v: Seq<usize>) -> Seq<int> {
    Seq::new(v.len(), |i: int| v[i] as int)
}

/// Values as naturals.
pub open spec fn nats(v: Seq<usize>) -> Seq<nat> {
    Seq::new(v.len(), |i: int| v[i] as nat)
}

pub open spec fn step_names(steps: Seq<WorkflowStep>) -> Seq<Seq<char>> {
    Seq::new(steps.len(), |i: int| steps[i].name@)
}

pub open spec fn step_dep_names(step: WorkflowStep) -> Seq<Seq<char>> {
    Seq::new(step.depends_on@.len(), |i: int| step.depends_on@[i].step@)
}

/// Each step's dependencies, by position among the job's steps.
pub open spec fn step_deps(steps: Seq<WorkflowStep>) -> Seq<Seq<int>> {
    Seq::new(steps.len(), |i: int| resolved(step_names(steps), step_dep_names(steps[i])))
}

/// The layers of a job's steps: each step one past its deepest dependency.
pub open spec fn step_layers_spec(steps: Seq<WorkflowStep>) -> Seq<nat> {
    layering(step_deps(steps), Seq::new(steps.len(), |i: int| 1nat))
}

pub open spec fn job_names(jobs: Seq<WorkflowJob>) -> Seq<Seq<char>> {
    Seq::new(jobs.len(), |i: int| jobs[i].name@)
}

pub open spec fn job_dep_names(job: WorkflowJob) -> Seq<Seq<char>> {
    Seq::new(job.depends_on@.len(), |i: int| job.depends_on@[i].job@)
}

pub open spec fn job_deps(jobs: Seq<WorkflowJob>) -> Seq<Seq<int>> {
    Seq::new(jobs.len(), |i: int| resolved(job_names(jobs), job_dep_names(jobs[i])))
}

/// The largest value, 0 for none.
pub open spec fn seq_max(s: Seq<nat>) -> nat
    decreases s.len(),
{
    if s.len() == 0 {
        0
    } else if s.last() > seq_max(s.drop_last()) {
        s.last()
    } else {
        seq_max(s.drop_last())
    }
}

/// How many layers a job's steps take.
pub open spec fn job_width(job: WorkflowJob) -> nat {
    sat(seq_max(step_layers_spec(job.steps@)) + 1int)
}

/// The first layer of each job: past the layers of every job it depends on.
pub open spec fn job_starts(jobs: Seq<WorkflowJob>) -> Seq<nat> {
    layering(job_deps(jobs), Seq::new(jobs.len(), |i: int| job_width(jobs[i])))
}

/// The steps of all jobs in order, as (job, step) positions.
pub open spec fn step_positions(jobs: Seq<WorkflowJob>) -> Seq<(int, int)>
    decreases jobs.len(),
{
    if jobs.len() == 0 {
        Seq::empty()
    } else {
        step_positions(jobs.drop_last()) + Seq::new(
            jobs.last().steps@.len(),
            |s: int| ((jobs.len() - 1) as int, s),
        )
    }
}

} // verus!

verus! {

/// The last position of `name` among `names`.
fn last_position(names: &Vec<String>, name: &str) -> (r: Option<usize>)
    ensures
        match r {
            Some(i) => i < names.len() && i as int == last_index(views(names@), name@),
            None => last_index(views(names@), name@) == -1,
        },
{
    let ghost all = views(names@);
    let mut i: usize = names.len();
    proof {
        assert(all.take(i as int) =~= all);
    }
    while i > 0
        invariant
            i <= names.len(),
            all == views(names@),
            last_index(all, name@) == last_index(all.take(i as int), name@),
        decreases i,
    {
        let ghost pre = all.take(i as int);
        proof {
            assert(pre.drop_last() =~= all.take(i as int - 1));
            assert(pre.last() == names@[i as int - 1]@);
        }
        if str_eq(names[i - 1].as_str(), name) {
            return Some(i - 1);
        }
        i = i - 1;
    }
    None
}

/// The positions of the wanted names, leaving out those not found.
fn resolve(names: &Vec<String>, wanted: &Vec<String>) -> (r: Vec<usize>)
    ensures
        ints(r@) == resolved(views(names@), views(wanted@)),
        forall|k: int| 0 <= k < r.len() ==> r@[k] < names.len(),
{
    let ghost ws = views(wanted@);
    let mut out: Vec<usize> = Vec::new();
    let mut i: usize = 0;
    while i < wanted.len()
        invariant
            i <= wanted.len(),
            ws == views(wanted@),
            ints(out@) == resolved(views(names@), ws.take(i as int)),
            forall|k: int| 0 <= k < out.len() ==> out@[k] < names.len(),
        decreases wanted.len() - i,
    {
        proof {
            assert(ws.take(i as int + 1).drop_last() =~= ws.take(i as int));
            assert(ws.take(i as int + 1).last() == wanted@[i as int]@);
        }
        match last_position(names, wanted[i].as_str()) {
            Some(p) => {
                out.push(p);
                proof {
                    assert(ints(out@) =~= resolved(views(names@), ws.take(i as int)) + seq![p as int]);
                }
            },
            None => {
                proof {
                    assert(resolved(views(names@), ws.take(i as int + 1)) =~= resolved(views(names@), ws.take(i as int)));
                }
            },
        }
        i = i + 1;
    }
    proof {
        assert(ws.take(i as int) =~= ws);
    }
    out
}

/// Positions as integers, for a vector of them.
pub open spec fn deps_ints(deps: Seq<Vec<usize>>) -> Seq<Seq<int>> {
    Seq::new(deps.len(), |i: int| ints(deps[i]@))
}

/// Every dependency names an item.
pub open spec fn deps_in_range(deps: Seq<Vec<usize>>) -> bool {
    forall|i: int, k: int| 0 <= i < deps.len() && 0 <= k < deps[i]@.len() ==> #[trigger] deps[i]@[k] < deps.len()
}

fn dep_value_exec(vals: &Vec<usize>, deps: &Vec<usize>, w: &Vec<usize>) -> (r: usize)
    requires
        vals.len() == w.len(),
        forall|k: int| 0 <= k < deps.len() ==> #[trigger] deps@[k] < vals.len(),
    ensures
        r as nat == dep_value(nats(vals@), ints(deps@), nats(w@)),
{
    let ghost ds = ints(deps@);
    let mut best: usize = 0;
    let mut k: usize = 0;
    while k < deps.len()
        invariant
            k <= deps.len(),
            vals.len() == w.len(),
            ds == ints(deps@),
            forall|j: int| 0 <= j < deps.len() ==> #[trigger] deps@[j] < vals.len(),
            best as nat == dep_value(nats(vals@), ds.take(k as int), nats(w@)),
        decreases deps.len() - k,
    {
        let d = deps[k];
        let here = vals[d].saturating_add(w[d]);
        proof {
            assert(ds.take(k as int + 1).drop_last() =~= ds.take(k as int));
            assert(ds.take(k as int + 1).last() == d as int);
        }
        if here > best {
            best = here;
        }
        k = k + 1;
    }
    proof {
        assert(ds.take(k as int) =~= ds);
    }
    best
}

/// The layering of items with the given dependencies and weights.
fn relax(deps: &Vec<Vec<usize>>, w: &Vec<usize>) -> (r: Vec<usize>)
    requires
        w.len() == deps.len(),
        deps_in_range(deps@),
    ensures
        r.len() == deps.len(),
        nats(r@) == layering(deps_ints(deps@), nats(w@)),
{
    let n = deps.len();
    let ghost ds = deps_ints(deps@);
    let ghost ws = nats(w@);
    let mut vals: Vec<usize> = Vec::new();
    while vals.len() < n
        invariant
            vals.len() <= n,
            forall|j: int| 0 <= j < vals.len() ==> vals@[j] == 0,
        decreases n - vals.len(),
    {
        vals.push(0);
    }
    let ghost zeros = Seq::new(n as nat, |i: int| 0nat);
    proof {
        assert(nats(vals@) =~= zeros);
        assert(relax_rounds(zeros, ds, ws, 0) == zeros);
    }
    let mut round: usize = 0;
    while round < n
        invariant
            round <= n,
            n == deps.len(),
            vals.len() == n,
            w.len() == n,
            ds == deps_ints(deps@),
            ws == nats(w@),
            deps_in_range(deps@),
            zeros.len() == n,
            nats(vals@) == relax_rounds(zeros, ds, ws, round as nat),
        decreases n - round,
    {
        let ghost start = nats(vals@);
        let mut i: usize = 0;
        while i < n
            invariant
                i <= n,
                n == deps.len(),
                vals.len() == n,
                w.len() == n,
                ds == deps_ints(deps@),
                ws == nats(w@),
                deps_in_range(deps@),
                start.len() == n,
                nats(vals@) == relax_prefix(start, ds, ws, i as nat),
            decreases n - i,
        {
            proof {
                assert forall|k: int| 0 <= k < deps@[i as int].len() implies #[trigger] deps@[i as int]@[k]
                    < vals.len() by {
                    assert(deps@[i as int]@[k] < deps.len());
                }
                assert(ds[i as int] == ints(deps@[i as int]@));
            }
            let x = dep_value_exec(&vals, &deps[i], w);
            vals.set(i, x);
            proof {
                assert(nats(vals@) =~= relax_prefix(start, ds, ws, i as nat).update(i as int, x as nat));
            }
            i = i + 1;
        }
        round = round + 1;
    }
    vals
}

/// The layer of each step of a job: one past its deepest dependency.
fn step_layers(steps: &Vec<WorkflowStep>) -> (r: Vec<usize>)
    ensures
        r.len() == steps.len(),
        nats(r@) == step_layers_spec(steps@),
{
    let mut names: Vec<String> = Vec::new();
    let mut i: usize = 0;
    while i < steps.len()
        invariant
            i <= steps.len(),
            views(names@) == step_names(steps@).take(i as int),
        decreases steps.len() - i,
    {
        let nm = steps[i].name.clone();
        proof {
            assert(nm@ == steps@[i as int].name@);
        }
        let ghost before = names@;
        names.push(nm);
        proof {
            assert(views(names@) =~= views(before).push(nm@));
            assert(views(names@) =~= step_names(steps@).take(i as int + 1));
        }
        i = i + 1;
    }
    proof {
        assert(views(names@) =~= step_names(steps@));
    }
    let mut deps: Vec<Vec<usize>> = Vec::new();
    let mut ones: Vec<usize> = Vec::new();
    let mut j: usize = 0;
    while j < steps.len()
        invariant
            j <= steps.len(),
            deps.len() == j,
            ones.len() == j,
            names.len() == steps.len(),
            views(names@) == step_names(steps@),
            forall|a: int| 0 <= a < j ==> ones@[a] == 1,
            forall|a: int| 0 <= a < j ==> #[trigger] ints(deps@[a]@) == step_deps(steps@)[a],
            forall|a: int, k: int| 0 <= a < j && 0 <= k < deps@[a]@.len() ==> #[trigger] deps@[a]@[k] < steps.len(),
        decreases steps.len() - j,
    {
        let mut wanted: Vec<String> = Vec::new();
        let mut k: usize = 0;
        while k < steps[j].depends_on.len()
            invariant
                j < steps.len(),
                k <= steps@[j as int].depends_on@.len(),
                views(wanted@) == step_dep_names(steps@[j as int]).take(k as int),
            decreases steps@[j as int].depends_on@.len() - k,
        {
            let nm = steps[j].depends_on[k].step.clone();
            proof {
                assert(nm@ == steps@[j as int].depends_on@[k as int].step@);
            }
            let ghost before = wanted@;
            wanted.push(nm);
            proof {
                assert(views(wanted@) =~= views(before).push(nm@));
                assert(views(wanted@) =~= step_dep_names(steps@[j as int]).take(k as int + 1));
            }
            k = k + 1;
        }
        proof {
            assert(views(wanted@) =~= step_dep_names(steps@[j as int]));
        }
        let found = resolve(&names, &wanted);
        deps.push(found);
        ones.push(1);
        j = j + 1;
    }
    proof {
        assert(deps_ints(deps@) =~= step_deps(steps@));
        assert(nats(ones@) =~= Seq::new(steps.len() as nat, |i: int| 1nat));
    }
    relax(&deps, &ones)
}

} // verus!

verus! {

/// The layer a step is drawn in: its job's first layer plus its layer
/// within the job.
pub open spec fn node_layer(jobs: Seq<WorkflowJob>, j: int, s: int) -> nat {
    sat((job_starts(jobs)[j] + step_layers_spec(jobs[j].steps@)[s]) as int)
}

fn max_of(v: &Vec<usize>) -> (r: usize)
    ensures
        r as nat == seq_max(nats(v@)),
{
    let ghost vs = nats(v@);
    let mut best: usize = 0;
    let mut i: usize = 0;
    while i < v.len()
        invariant
            i <= v.len(),
            vs == nats(v@),
            best as nat == seq_max(vs.take(i as int)),
        decreases v.len() - i,
    {
        proof {
            assert(vs.take(i as int + 1).drop_last() =~= vs.take(i as int));
            assert(vs.take(i as int + 1).last() == v@[i as int] as nat);
        }
        if v[i] > best {
            best = v[i];
        }
        i = i + 1;
    }
    proof {
        assert(vs.take(i as int) =~= vs);
    }
    best
}

impl WorkflowDefinition {
    /// Every step of every job, in order, with the layer it is drawn in:
    /// each job starts past the layers of the jobs it depends on, and each
    /// step sits one past its deepest dependency within the job.
    pub fn nodes(&self) -> (r: Vec<WorkflowNode<'_>>)
        ensures
            r.len() == step_positions(self.jobs@).len(),
            forall|k: int|
                0 <= k < r.len() ==> {
                    let (j, s) = #[trigger] step_positions(self.jobs@)[k];
                    &&& *r@[k].job == self.jobs@[j]
                    &&& *r@[k].step == self.jobs@[j].steps@[s]
                    &&& r@[k].layer as nat == node_layer(self.jobs@, j, s)
                },
    {
        let jobs = &self.jobs;
        let ghost js = jobs@;
        let mut internal: Vec<Vec<usize>> = Vec::new();
        let mut widths: Vec<usize> = Vec::new();
        let mut names: Vec<String> = Vec::new();
        let mut i: usize = 0;
        while i < jobs.len()
            invariant
                i <= jobs.len(),
                js == jobs@,
                internal.len() == i,
                widths.len() == i,
                views(names@) == job_names(js).take(i as int),
                forall|a: int| 0 <= a < i ==> #[trigger] nats(internal@[a]@) == step_layers_spec(js[a].steps@)
                    && internal@[a]@.len() == js[a].steps@.len(),
                forall|a: int| 0 <= a < i ==> #[trigger] widths@[a] as nat == job_width(js[a]),
            decreases jobs.len() - i,
        {
            let layers = step_layers(&jobs[i].steps);
            let top = max_of(&layers);
            widths.push(top.saturating_add(1));
            internal.push(layers);
            let nm = jobs[i].name.clone();
            let ghost before = names@;
            names.push(nm);
            proof {
                assert(views(names@) =~= views(before).push(nm@));
                assert(views(names@) =~= job_names(js).take(i as int + 1));
            }
            i = i + 1;
        }
        proof {
            assert(views(names@) =~= job_names(js));
        }
        let mut deps: Vec<Vec<usize>> = Vec::new();
        let mut j: usize = 0;
        while j < jobs.len()
            invariant
                j <= jobs.len(),
                js == jobs@,
                deps.len() == j,
                names.len() == jobs.len(),
                views(names@) == job_names(js),
                forall|a: int| 0 <= a < j ==> #[trigger] ints(deps@[a]@) == job_deps(js)[a],
                forall|a: int, k: int| 0 <= a < j && 0 <= k < deps@[a]@.len() ==> #[trigger] deps@[a]@[k] < jobs.len(),
            decreases jobs.len() - j,
        {
            let mut wanted: Vec<String> = Vec::new();
            let mut k: usize = 0;
            while k < jobs[j].depends_on.len()
                invariant
                    j < jobs.len(),
                    js == jobs@,
                    k <= js[j as int].depends_on@.len(),
                    views(wanted@) == job_dep_names(js[j as int]).take(k as int),
                decreases js[j as int].depends_on@.len() - k,
            {
                let nm = jobs[j].depends_on[k].job.clone();
                let ghost before = wanted@;
                wanted.push(nm);
                proof {
                    assert(views(wanted@) =~= views(before).push(nm@));
                    assert(views(wanted@) =~= job_dep_names(js[j as int]).take(k as int + 1));
                }
                k = k + 1;
            }
            proof {
                assert(views(wanted@) =~= job_dep_names(js[j as int]));
            }
            let found = resolve(&names, &wanted);
            deps.push(found);
            j = j + 1;
        }
        proof {
            assert(deps_ints(deps@) =~= job_deps(js));
            assert(nats(widths@) =~= Seq::new(js.len(), |a: int| job_width(js[a])));
        }
        let starts = relax(&deps, &widths);
        let mut out: Vec<WorkflowNode<'_>> = Vec::new();
        let mut a: usize = 0;
        while a < jobs.len()
            invariant
                a <= jobs.len(),
                js == jobs@,
                *jobs == self.jobs,
                internal.len() == jobs.len(),
                starts.len() == jobs.len(),
                nats(starts@) == job_starts(js),
                forall|b: int| 0 <= b < jobs.len() ==> #[trigger] nats(internal@[b]@) == step_layers_spec(js[b].steps@)
                    && internal@[b]@.len() == js[b].steps@.len(),
                out.len() == step_positions(js.take(a as int)).len(),
                forall|k: int|
                    0 <= k < out.len() ==> {
                        let (j, s) = #[trigger] step_positions(js.take(a as int))[k];
                        &&& 0 <= j < a
                        &&& *out@[k].job == js[j]
                        &&& *out@[k].step == js[j].steps@[s]
                        &&& out@[k].layer as nat == node_layer(js, j, s)
                    },
            decreases jobs.len() - a,
        {
            let job = &jobs[a];
            let ghost base = step_positions(js.take(a as int));
            proof {
                assert(js.take(a as int + 1).drop_last() =~= js.take(a as int));
                assert(js.take(a as int + 1).last() == js[a as int]);
            }
            let mut s: usize = 0;
            while s < job.steps.len()
                invariant
                    a < jobs.len(),
                    js == jobs@,
                    *job == js[a as int],
                    s <= job.steps.len(),
                    internal.len() == jobs.len(),
                    starts.len() == jobs.len(),
                    nats(starts@) == job_starts(js),
                    nats(internal@[a as int]@) == step_layers_spec(js[a as int].steps@),
                    internal@[a as int]@.len() == job.steps@.len(),
                    out.len() == base.len() + s,
                    forall|k: int|
                        0 <= k < out.len() ==> {
                            let (j, t) = if k < base.len() {
                                base[k]
                            } else {
                                (a as int, k - base.len())
                            };
                            &&& 0 <= j <= a
                            &&& *(#[trigger] out@[k]).job == js[j]
                            &&& *out@[k].step == js[j].steps@[t]
                            &&& out@[k].layer as nat == node_layer(js, j, t)
                        },
                    forall|k: int| 0 <= k < base.len() ==> 0 <= (#[trigger] base[k]).0 < a,
                decreases job.steps.len() - s,
            {
                proof {
                    assert(nats(internal@[a as int]@)[s as int] == internal@[a as int]@[s as int] as nat);
                    assert(nats(starts@)[a as int] == starts@[a as int] as nat);
                }
                let layer = starts[a].saturating_add(internal[a][s]);
                out.push(WorkflowNode { job, step: &job.steps[s], layer });
                s = s + 1;
            }
            proof {
                let next = step_positions(js.take(a as int + 1));
                assert(next =~= base + Seq::new(js[a as int].steps@.len(), |t: int| (a as int, t)));
            }
            a = a + 1;
        }
        proof {
            assert(js.take(a as int) =~= js);
        }
        out
    }
}

} // verus!

verus! {

/// Updating the first `k` items keeps the length and leaves the others.
proof fn lemma_relax_prefix_frame(vals: Seq<nat>, deps: Seq<Seq<int>>, w: Seq<nat>, k: nat)
    requires
        k <= vals.len(),
    ensures
        relax_prefix(vals, deps, w, k).len() == vals.len(),
        forall|i: int| k <= i < vals.len() ==> #[trigger] relax_prefix(vals, deps, w, k)[i] == vals[i],
    decreases k,
{
    if k > 0 {
        lemma_relax_prefix_frame(vals, deps, w, (k - 1) as nat);
    }
}

/// An item's value from its dependencies reads only their values.
proof fn lemma_dep_value_reads(v1: Seq<nat>, v2: Seq<nat>, deps: Seq<int>, w: Seq<nat>)
    requires
        forall|k: int| 0 <= k < deps.len() ==> v1[#[trigger] deps[k]] == v2[deps[k]],
    ensures
        dep_value(v1, deps, w) == dep_value(v2, deps, w),
    decreases deps.len(),
{
    if deps.len() > 0 {
        let rest = deps.drop_last();
        assert forall|k: int| 0 <= k < rest.len() implies v1[#[trigger] rest[k]] == v2[rest[k]] by {
            assert(rest[k] == deps[k]);
        }
        lemma_dep_value_reads(v1, v2, rest, w);
        assert(v1[deps.last()] == v2[deps[deps.len() - 1]]);
    }
}

/// A ranking of the items under which every dependency is an item that
/// ranks below its dependent, every rank being under the number of items.
/// Dependencies that form no cycle admit one: rank each item by the length
/// of the longest chain of dependencies below it.
pub open spec fn ranks_deps(deps: Seq<Seq<int>>, rank: Seq<nat>) -> bool {
    &&& rank.len() == deps.len()
    &&& forall|i: int| 0 <= i < deps.len() ==> #[trigger] rank[i] < deps.len()
    &&& forall|i: int, k: int|
        0 <= i < deps.len() && 0 <= k < deps[i].len() ==> 0 <= #[trigger] deps[i][k] < deps.len() && rank[deps[i][k]]
            < rank[i]
}

/// Every item ranked below `r` holds the value its dependencies give it.
pub open spec fn settled_below(vals: Seq<nat>, deps: Seq<Seq<int>>, w: Seq<nat>, rank: Seq<nat>, r: nat) -> bool {
    forall|i: int| 0 <= i < deps.len() && rank[i] < r ==> #[trigger] vals[i] == dep_value(vals, deps[i], w)
}

/// Later updates of a pass leave the items already passed.
proof fn lemma_relax_prefix_keeps(vals: Seq<nat>, deps: Seq<Seq<int>>, w: Seq<nat>, j: nat, k: nat, d: int)
    requires
        0 <= d < j <= k <= vals.len(),
    ensures
        relax_prefix(vals, deps, w, k)[d] == relax_prefix(vals, deps, w, j)[d],
    decreases k,
{
    if k > j {
        lemma_relax_prefix_keeps(vals, deps, w, j, (k - 1) as nat, d);
        lemma_relax_prefix_frame(vals, deps, w, (k - 1) as nat);
    }
}

/// A full pass gives item `i` the value its dependencies have when its turn
/// comes.
proof fn lemma_pass_at(vals: Seq<nat>, deps: Seq<Seq<int>>, w: Seq<nat>, i: int)
    requires
        0 <= i < vals.len(),
    ensures
        relax_prefix(vals, deps, w, vals.len())[i] == dep_value(relax_prefix(vals, deps, w, i as nat), deps[i], w),
{
    lemma_relax_prefix_keeps(vals, deps, w, (i + 1) as nat, vals.len(), i);
    lemma_relax_prefix_frame(vals, deps, w, i as nat);
}

/// Before its turn in a pass, an item's dependencies that a pass leaves
/// unchanged hold their values from before the pass.
proof fn lemma_pass_turn_reads(vals: Seq<nat>, deps: Seq<Seq<int>>, w: Seq<nat>, i: int)
    requires
        0 <= i < vals.len(),
        forall|m: int| 0 <= m < deps[i].len() ==> 0 <= #[trigger] deps[i][m] < vals.len(),
        forall|m: int|
            0 <= m < deps[i].len() ==> relax_prefix(vals, deps, w, vals.len())[#[trigger] deps[i][m]] == vals[deps[i][m]],
    ensures
        dep_value(relax_prefix(vals, deps, w, i as nat), deps[i], w) == dep_value(vals, deps[i], w),
        dep_value(relax_prefix(vals, deps, w, vals.len()), deps[i], w) == dep_value(vals, deps[i], w),
{
    let mid = relax_prefix(vals, deps, w, i as nat);
    let fin = relax_prefix(vals, deps, w, vals.len());
    lemma_relax_prefix_frame(vals, deps, w, i as nat);
    assert forall|m: int| 0 <= m < deps[i].len() implies mid[#[trigger] deps[i][m]] == vals[deps[i][m]] by {
        let d = deps[i][m];
        if d < i {
            lemma_relax_prefix_keeps(vals, deps, w, i as nat, vals.len(), d);
        }
    }
    lemma_dep_value_reads(mid, vals, deps[i], w);
    lemma_dep_value_reads(fin, vals, deps[i], w);
}

/// A pass leaves every item settled below `r` unchanged.
proof fn lemma_pass_keeps_settled(
    vals: Seq<nat>,
    deps: Seq<Seq<int>>,
    w: Seq<nat>,
    rank: Seq<nat>,
    r: nat,
    i: int,
)
    requires
        ranks_deps(deps, rank),
        vals.len() == deps.len(),
        settled_below(vals, deps, w, rank, r),
        0 <= i < deps.len(),
        rank[i] < r,
    ensures
        relax_prefix(vals, deps, w, vals.len())[i] == vals[i],
    decreases rank[i],
{
    assert forall|m: int| 0 <= m < deps[i].len() implies relax_prefix(vals, deps, w, vals.len())[
        #[trigger] deps[i][m]
    ] == vals[deps[i][m]] by {
        lemma_pass_keeps_settled(vals, deps, w, rank, r, deps[i][m]);
    }
    lemma_pass_turn_reads(vals, deps, w, i);
    lemma_pass_at(vals, deps, w, i);
}

/// After a pass, every item ranked at most `r` is settled.
proof fn lemma_pass_settles(vals: Seq<nat>, deps: Seq<Seq<int>>, w: Seq<nat>, rank: Seq<nat>, r: nat)
    requires
        ranks_deps(deps, rank),
        vals.len() == deps.len(),
        settled_below(vals, deps, w, rank, r),
    ensures
        settled_below(relax_prefix(vals, deps, w, vals.len()), deps, w, rank, r + 1),
        relax_prefix(vals, deps, w, vals.len()).len() == vals.len(),
{
    let fin = relax_prefix(vals, deps, w, vals.len());
    lemma_relax_prefix_frame(vals, deps, w, vals.len());
    assert forall|i: int| 0 <= i < deps.len() && rank[i] < r + 1 implies #[trigger] fin[i] == dep_value(
        fin,
        deps[i],
        w,
    ) by {
        assert forall|m: int| 0 <= m < deps[i].len() implies fin[#[trigger] deps[i][m]] == vals[deps[i][m]] by {
            lemma_pass_keeps_settled(vals, deps, w, rank, r, deps[i][m]);
        }
        lemma_pass_turn_reads(vals, deps, w, i);
        lemma_pass_at(vals, deps, w, i);
        if rank[i] < r {
            lemma_pass_keeps_settled(vals, deps, w, rank, r, i);
        }
    }
}

proof fn lemma_rounds_settle(deps: Seq<Seq<int>>, w: Seq<nat>, rank: Seq<nat>, r: nat)
    requires
        ranks_deps(deps, rank),
    ensures
        relax_rounds(Seq::new(deps.len(), |i: int| 0nat), deps, w, r).len() == deps.len(),
        settled_below(relax_rounds(Seq::new(deps.len(), |i: int| 0nat), deps, w, r), deps, w, rank, r),
    decreases r,
{
    let zeros = Seq::new(deps.len(), |i: int| 0nat);
    if r > 0 {
        lemma_rounds_settle(deps, w, rank, (r - 1) as nat);
        lemma_pass_settles(relax_rounds(zeros, deps, w, (r - 1) as nat), deps, w, rank, (r - 1) as nat);
    }
}

/// Where the dependencies form no cycle (they admit a ranking as above),
/// each item's layer is its deepest dependency's layer plus that
/// dependency's weight (0 without dependencies): the layering is exact
/// longest-path layering.
pub proof fn lemma_layering_acyclic(deps: Seq<Seq<int>>, w: Seq<nat>, rank: Seq<nat>)
    requires
        ranks_deps(deps, rank),
    ensures
        layering(deps, w).len() == deps.len(),
        forall|i: int| 0 <= i < deps.len() ==> #[trigger] layering(deps, w)[i] == dep_value(layering(deps, w), deps[i], w),
{
    lemma_rounds_settle(deps, w, rank, deps.len());
}

} // verus!

verus! {

pub struct WorkflowSummaryView {
    pub id: Seq<char>,
    pub name: Seq<char>,
    pub description: Seq<char>,
    pub job_count: usize,
    pub has_inputs: bool,
}

impl View for WorkflowSummary {
    type V = WorkflowSummaryView;

    open spec fn view(&self) -> WorkflowSummaryView {
        WorkflowSummaryView {
            id: self.id@,
            name: self.name@,
            description: self.description@,
            job_count: self.job_count,
            has_inputs: self.has_inputs,
        }
    }
}

pub struct StepView {
    pub name: Seq<char>,
    pub description: Seq<char>,
    pub depends_on: Seq<(Seq<char>, Json)>,
    pub task_type: Seq<char>,
    pub task_fields: Seq<(Seq<char>, Json)>,
}

pub struct JobView {
    pub name: Seq<char>,
    pub description: Seq<char>,
    pub depends_on: Seq<(Seq<char>, Json)>,
    pub steps: Seq<StepView>,
}

pub struct WorkflowView {
    pub id: Seq<char>,
    pub name: Seq<char>,
    pub description: Seq<char>,
    pub version: Option<u64>,
    pub tags: Json,
    pub jobs: Seq<JobView>,
    pub path: Seq<char>,
}

pub open spec fn step_view(s: WorkflowStep) -> StepView {
    StepView {
        name: s.name@,
        description: s.description@,
        depends_on: Seq::new(s.depends_on@.len(), |i: int| (s.depends_on@[i].step@, s.depends_on@[i].condition@)),
        task_type: s.task.task_type@,
        task_fields: Seq::new(s.task.fields@.len(), |i: int| (s.task.fields@[i].0@, s.task.fields@[i].1@)),
    }
}

pub open spec fn job_view(j: WorkflowJob) -> JobView {
    JobView {
        name: j.name@,
        description: j.description@,
        depends_on: Seq::new(j.depends_on@.len(), |i: int| (j.depends_on@[i].job@, j.depends_on@[i].condition@)),
        steps: Seq::new(j.steps@.len(), |i: int| step_view(j.steps@[i])),
    }
}

impl View for WorkflowDefinition {
    type V = WorkflowView;

    open spec fn view(&self) -> WorkflowView {
        WorkflowView {
            id: self.id@,
            name: self.name@,
            description: self.description@,
            version: self.version,
            tags: self.tags@,
            jobs: Seq::new(self.jobs@.len(), |i: int| job_view(self.jobs@[i])),
            path: self.path@,
        }
    }
}

impl WorkflowSummary {
    pub fn copy(&self) -> (r: Self)
        ensures
            r@ == self@,
    {
        WorkflowSummary {
            id: self.id.clone(),
            name: self.name.clone(),
            description: self.description.clone(),
            job_count: self.job_count,
            has_inputs: self.has_inputs,
        }
    }
}

fn copy_members(v: &Vec<(String, JsonValue)>) -> (r: Vec<(String, JsonValue)>)
    ensures
        r@.len() == v@.len(),
        forall|i: int| 0 <= i < v@.len() ==> (#[trigger] r@[i]).0@ == v@[i].0@ && r@[i].1@ == v@[i].1@,
{
    let mut out: Vec<(String, JsonValue)> = Vec::new();
    let mut i: usize = 0;
    while i < v.len()
        invariant
            i <= v.len(),
            out@.len() == i,
            forall|k: int| 0 <= k < i ==> (#[trigger] out@[k]).0@ == v@[k].0@ && out@[k].1@ == v@[k].1@,
        decreases v.len() - i,
    {
        out.push((v[i].0.clone(), clone_json(&v[i].1)));
        i = i + 1;
    }
    out
}

impl WorkflowStep {
    pub fn copy(&self) -> (r: Self)
        ensures
            step_view(r) == step_view(*self),
    {
        let mut deps: Vec<WorkflowStepDependency> = Vec::new();
        let mut i: usize = 0;
        while i < self.depends_on.len()
            invariant
                i <= self.depends_on@.len(),
                deps@.len() == i,
                forall|k: int| 0 <= k < i ==> (#[trigger] deps@[k]).step@ == self.depends_on@[k].step@
                    && deps@[k].condition@ == self.depends_on@[k].condition@,
            decreases self.depends_on@.len() - i,
        {
            deps.push(
                WorkflowStepDependency {
                    step: self.depends_on[i].step.clone(),
                    condition: clone_json(&self.depends_on[i].condition),
                },
            );
            i = i + 1;
        }
        let r = WorkflowStep {
            name: self.name.clone(),
            description: self.description.clone(),
            depends_on: deps,
            task: WorkflowTask { task_type: self.task.task_type.clone(), fields: copy_members(&self.task.fields) },
        };
        proof {
            assert(step_view(r).depends_on =~= step_view(*self).depends_on);
            assert(step_view(r).task_fields =~= step_view(*self).task_fields);
        }
        r
    }
}

impl WorkflowJob {
    pub fn copy(&self) -> (r: Self)
        ensures
            job_view(r) == job_view(*self),
    {
        let mut deps: Vec<WorkflowJobDependency> = Vec::new();
        let mut i: usize = 0;
        while i < self.depends_on.len()
            invariant
                i <= self.depends_on@.len(),
                deps@.len() == i,
                forall|k: int| 0 <= k < i ==> (#[trigger] deps@[k]).job@ == self.depends_on@[k].job@
                    && deps@[k].condition@ == self.depends_on@[k].condition@,
            decreases self.depends_on@.len() - i,
        {
            deps.push(
                WorkflowJobDependency {
                    job: self.depends_on[i].job.clone(),
                    condition: clone_json(&self.depends_on[i].condition),
                },
            );
            i = i + 1;
        }
        let mut steps: Vec<WorkflowStep> = Vec::new();
        let mut j: usize = 0;
        while j < self.steps.len()
            invariant
                j <= self.steps@.len(),
                steps@.len() == j,
                forall|k: int| 0 <= k < j ==> step_view(#[trigger] steps@[k]) == step_view(self.steps@[k]),
            decreases self.steps@.len() - j,
        {
            steps.push(self.steps[j].copy());
            j = j + 1;
        }
        let r = WorkflowJob { name: self.name.clone(), description: self.description.clone(), depends_on: deps, steps };
        proof {
            assert(job_view(r).depends_on =~= job_view(*self).depends_on);
            assert(job_view(r).steps =~= job_view(*self).steps);
        }
        r
    }
}

impl WorkflowDefinition {
    pub fn copy(&self) -> (r: Self)
        ensures
            r@ == self@,
    {
        let mut jobs: Vec<WorkflowJob> = Vec::new();
        let mut j: usize = 0;
        while j < self.jobs.len()
            invariant
                j <= self.jobs@.len(),
                jobs@.len() == j,
                forall|k: int| 0 <= k < j ==> job_view(#[trigger] jobs@[k]) == job_view(self.jobs@[k]),
            decreases self.jobs@.len() - j,
        {
            jobs.push(self.jobs[j].copy());
            j = j + 1;
        }
        let r = WorkflowDefinition {
            id: self.id.clone(),
            name: self.name.clone(),
            description: self.description.clone(),
            version: self.version,
            tags: clone_json(&self.tags),
            jobs,
            path: self.path.clone(),
        };
        proof {
            assert(r@.jobs =~= self@.jobs);
        }
        r
    }
}

} // verus!
