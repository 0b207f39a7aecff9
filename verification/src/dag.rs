//! The dependency graph of a workflow's steps: which steps each step waits
//! for, and where each step is drawn.
use vstd::prelude::*;
use crate::grid::{grid_view, hline, put, put_route, draw_horizontal, route, route_edge};
use crate::swamp::workflow::WorkflowNode;
use crate::text::str_eq;

verus! {

/// A step as the graph draws it.
pub struct DagNode {
    pub name: String,
    pub layer: usize,
    pub dependencies: Vec<usize>,
}

/// The last step of a job with a name, or -1.
pub open spec fn pair_index(nodes: Seq<WorkflowNode>, job: Seq<char>, step: Seq<char>) -> int
    decreases nodes.len(),
{
    if nodes.len() == 0 {
        -1
    } else if nodes.last().job.name@ == job && nodes.last().step.name@ == step {
        nodes.len() - 1
    } else {
        pair_index(nodes.drop_last(), job, step)
    }
}

/// No step of the same job depends on this step: it ends its job.
pub open spec fn ends_job(nodes: Seq<WorkflowNode>, k: int) -> bool {
    !exists|o: int, d: int|
        0 <= o < nodes.len() && 0 <= d < nodes[o].step.depends_on@.len() && nodes[o].job.name@ == nodes[k].job.name@
            && (#[trigger] nodes[o].step.depends_on@[d]).step@ == nodes[k].step.name@
}

/// Whether step `i` waits for step `k`: a named step of its job, or, for a
/// step that names none, every step that ends a job its job depends on.
pub open spec fn waits_for(nodes: Seq<WorkflowNode>, i: int, k: int) -> bool {
    let node = nodes[i];
    ||| exists|d: int|
        0 <= d < node.step.depends_on@.len() && pair_index(nodes, node.job.name@, (
        #[trigger] node.step.depends_on@[d]).step@) == k
    ||| node.step.depends_on@.len() == 0 && exists|j: int|
        0 <= j < node.job.depends_on@.len() && nodes[k].job.name@ == (#[trigger] node.job.depends_on@[j]).job@
            && ends_job(nodes, k)
}

/// The steps that step `i` waits for among the first `m`, in order.
pub open spec fn waits_upto(nodes: Seq<WorkflowNode>, i: int, m: nat) -> Seq<usize>
    decreases m,
{
    if m == 0 {
        Seq::empty()
    } else {
        waits_upto(nodes, i, (m - 1) as nat) + if waits_for(nodes, i, m - 1) {
            seq![(m - 1) as usize]
        } else {
            Seq::empty()
        }
    }
}

/// The graph's view of the steps: each with its name, layer, and the steps
/// it waits for in increasing order without repeats.
pub open spec fn dag_spec(nodes: Seq<WorkflowNode>) -> Seq<(Seq<char>, usize, Seq<usize>)> {
    Seq::new(nodes.len(), |i: int| (nodes[i].step.name@, nodes[i].layer, waits_upto(nodes, i, nodes.len())))
}

pub open spec fn dag_view(d: Seq<DagNode>) -> Seq<(Seq<char>, usize, Seq<usize>)> {
    Seq::new(d.len(), |i: int| (d[i].name@, d[i].layer, d[i].dependencies@))
}

fn pair_index_exec(nodes: &Vec<WorkflowNode>, job: &str, step: &str) -> (r: Option<usize>)
    ensures
        match r {
            Some(k) => k < nodes.len() && k as int == pair_index(nodes@, job@, step@),
            None => pair_index(nodes@, job@, step@) == -1,
        },
{
    let mut i: usize = nodes.len();
    proof {
        assert(nodes@.take(i as int) =~= nodes@);
    }
    while i > 0
        invariant
            i <= nodes.len(),
            pair_index(nodes@, job@, step@) == pair_index(nodes@.take(i as int), job@, step@),
        decreases i,
    {
        proof {
            assert(nodes@.take(i as int).drop_last() =~= nodes@.take(i as int - 1));
        }
        if str_eq(nodes[i - 1].job.name.as_str(), job) && str_eq(nodes[i - 1].step.name.as_str(), step) {
            return Some(i - 1);
        }
        i = i - 1;
    }
    None
}

fn ends_job_exec(nodes: &Vec<WorkflowNode>, k: usize) -> (r: bool)
    requires
        k < nodes.len(),
    ensures
        r == ends_job(nodes@, k as int),
{
    let mut o: usize = 0;
    while o < nodes.len()
        invariant
            o <= nodes.len(),
            k < nodes.len(),
            forall|a: int, d: int|
                0 <= a < o && 0 <= d < nodes@[a].step.depends_on@.len() && nodes@[a].job.name@ == nodes@[k as int].job.name@
                    ==> (#[trigger] nodes@[a].step.depends_on@[d]).step@ != nodes@[k as int].step.name@,
        decreases nodes.len() - o,
    {
        if str_eq(nodes[o].job.name.as_str(), nodes[k].job.name.as_str()) {
            let mut d: usize = 0;
            while d < nodes[o].step.depends_on.len()
                invariant
                    o < nodes.len(),
                    k < nodes.len(),
                    d <= nodes@[o as int].step.depends_on@.len(),
                    nodes@[o as int].job.name@ == nodes@[k as int].job.name@,
                    forall|e: int| 0 <= e < d ==> (#[trigger] nodes@[o as int].step.depends_on@[e]).step@
                        != nodes@[k as int].step.name@,
                decreases nodes@[o as int].step.depends_on@.len() - d,
            {
                if str_eq(nodes[o].step.depends_on[d].step.as_str(), nodes[k].step.name.as_str()) {
                    return false;
                }
                d = d + 1;
            }
        }
        o = o + 1;
    }
    true
}

fn waits_for_exec(nodes: &Vec<WorkflowNode>, i: usize, k: usize) -> (r: bool)
    requires
        i < nodes.len(),
        k < nodes.len(),
    ensures
        r == waits_for(nodes@, i as int, k as int),
{
    let node = &nodes[i];
    let mut d: usize = 0;
    while d < node.step.depends_on.len()
        invariant
            i < nodes.len(),
            *node == nodes@[i as int],
            d <= node.step.depends_on@.len(),
            forall|e: int| 0 <= e < d ==> pair_index(nodes@, node.job.name@, (#[trigger] node.step.depends_on@[e]).step@)
                != k,
        decreases node.step.depends_on@.len() - d,
    {
        match pair_index_exec(nodes, node.job.name.as_str(), node.step.depends_on[d].step.as_str()) {
            Some(p) => {
                if p == k {
                    return true;
                }
            },
            None => {},
        }
        d = d + 1;
    }
    if node.step.depends_on.len() > 0 {
        return false;
    }
    let mut j: usize = 0;
    while j < node.job.depends_on.len()
        invariant
            i < nodes.len(),
            k < nodes.len(),
            *node == nodes@[i as int],
            node.step.depends_on@.len() == 0,
            j <= node.job.depends_on@.len(),
            forall|e: int| 0 <= e < j ==> !(nodes@[k as int].job.name@ == (#[trigger] node.job.depends_on@[e]).job@
                && ends_job(nodes@, k as int)),
        decreases node.job.depends_on@.len() - j,
    {
        if str_eq(nodes[k].job.name.as_str(), node.job.depends_on[j].job.as_str()) && ends_job_exec(nodes, k) {
            proof {
                assert(nodes@[k as int].job.name@ == node.job.depends_on@[j as int].job@);
            }
            return true;
        }
        j = j + 1;
    }
    false
}

/// The graph's steps (`dag_spec`).
pub fn dag_nodes(nodes: &Vec<WorkflowNode>) -> (r: Vec<DagNode>)
    ensures
        dag_view(r@) == dag_spec(nodes@),
        forall|i: int, k: int| 0 <= i < r.len() && 0 <= k < r@[i].dependencies@.len() ==> #[trigger] r@[i].dependencies@[k] < r.len(),
{
    let mut out: Vec<DagNode> = Vec::new();
    let mut i: usize = 0;
    while i < nodes.len()
        invariant
            i <= nodes.len(),
            out.len() == i,
            forall|a: int| 0 <= a < i ==> (#[trigger] dag_view(out@)[a]) == dag_spec(nodes@)[a],
            forall|a: int, k: int| 0 <= a < i && 0 <= k < out@[a].dependencies@.len() ==> #[trigger] out@[a].dependencies@[k] < nodes.len(),
        decreases nodes.len() - i,
    {
        let mut deps: Vec<usize> = Vec::new();
        let mut k: usize = 0;
        while k < nodes.len()
            invariant
                i < nodes.len(),
                k <= nodes.len(),
                deps@ == waits_upto(nodes@, i as int, k as nat),
                forall|x: int| 0 <= x < deps@.len() ==> #[trigger] deps@[x] < k,
            decreases nodes.len() - k,
        {
            if waits_for_exec(nodes, i, k) {
                deps.push(k);
            }
            proof {
                assert(deps@ =~= waits_upto(nodes@, i as int, (k + 1) as nat));
            }
            k = k + 1;
        }
        let ghost before = out@;
        out.push(DagNode { name: nodes[i].step.name.clone(), layer: nodes[i].layer, dependencies: deps });
        proof {
            assert forall|a: int| 0 <= a < i + 1 implies (#[trigger] dag_view(out@)[a]) == dag_spec(nodes@)[a] by {
                if a < i {
                    assert(out@[a] == before[a]);
                    assert(dag_view(before)[a] == dag_spec(nodes@)[a]);
                }
            }
        }
        i = i + 1;
    }
    proof {
        assert(dag_view(out@) =~= dag_spec(nodes@));
    }
    out
}

} // verus!

verus! {

/// The deepest layer.
pub open spec fn max_layer(ns: Seq<DagNode>) -> nat
    decreases ns.len(),
{
    if ns.len() == 0 {
        0
    } else if ns.last().layer > max_layer(ns.drop_last()) {
        ns.last().layer as nat
    } else {
        max_layer(ns.drop_last())
    }
}

pub open spec fn sub0(a: int, b: int) -> int {
    if a > b {
        a - b
    } else {
        0
    }
}

pub open spec fn clamp(v: int, lo: int, hi: int) -> int {
    if v < lo {
        lo
    } else if v > hi {
        hi
    } else {
        v
    }
}

/// Which layers the drawing shows and how wide a step is.
pub struct DagFrame {
    pub layer_count: int,
    pub visible: int,
    pub first: int,
    pub node_width: int,
    pub x_span: int,
}

/// The frame of a drawing `width` wide: as many layers as fit (11 columns
/// each, at least one), centred on the selected step's layer, each step
/// between 5 and 18 columns wide.
pub open spec fn dag_frame(ns: Seq<DagNode>, selected: int, width: int) -> DagFrame {
    let layer_count = if max_layer(ns) + 1 > usize::MAX {
        usize::MAX as int
    } else {
        (max_layer(ns) + 1) as int
    };
    let fit = if (width + 3) / 11 > 1 {
        (width + 3) / 11
    } else {
        1
    };
    let visible = if layer_count < fit {
        layer_count
    } else {
        fit
    };
    let selected_layer = if 0 <= selected < ns.len() {
        ns[selected].layer as int
    } else {
        0
    };
    let a = sub0(selected_layer, visible / 2);
    let b = sub0(layer_count, visible);
    let first = if a < b {
        a
    } else {
        b
    };
    let node_width = clamp(sub0(width, 3 * sub0(visible, 1)) / visible, 5, 18);
    DagFrame { layer_count, visible, first, node_width, x_span: sub0(width, node_width) }
}

/// How many of the first `m` steps lie in a layer.
pub open spec fn count_layer(ns: Seq<DagNode>, layer: int, m: int) -> int
    decreases m,
{
    if m <= 0 {
        0
    } else {
        count_layer(ns, layer, m - 1) + if ns[m - 1].layer == layer {
            1int
        } else {
            0
        }
    }
}

/// Where a step is drawn, when its layer is shown: its layer's column,
/// spread evenly; its row among its layer's steps, spread evenly.
pub open spec fn dag_position(ns: Seq<DagNode>, f: DagFrame, height: int, i: int) -> Option<(int, int)> {
    let layer = ns[i].layer as int;
    if f.first <= layer < f.first + f.visible {
        let x = if f.visible == 1 {
            f.x_span / 2
        } else {
            (layer - f.first) * f.x_span / (f.visible - 1)
        };
        let size = count_layer(ns, layer, ns.len() as int);
        let row = count_layer(ns, layer, i);
        let y = if size == 1 {
            height / 2
        } else {
            row * sub0(height, 1) / (size - 1)
        };
        Some((x, y))
    } else {
        None
    }
}

/// The routes into step `t` from its first `k` dependencies: from a shown
/// dependency's right edge; from the left border for one in a layer left
/// of the shown ones.
pub open spec fn edges_into(
    ns: Seq<DagNode>,
    f: DagFrame,
    height: int,
    g: Seq<Seq<char>>,
    t: int,
    k: int,
) -> Seq<Seq<char>>
    decreases k,
{
    if k <= 0 {
        g
    } else {
        let g1 = edges_into(ns, f, height, g, t, k - 1);
        match dag_position(ns, f, height, t) {
            None => g1,
            Some((tx, ty)) => {
                let d = ns[t].dependencies@[k - 1] as int;
                match dag_position(ns, f, height, d) {
                    Some((sx, sy)) => route(g1, sx + f.node_width, sy, tx, ty),
                    None => if (ns[d].layer as int) < f.first && tx > 0 {
                        put(hline(g1, 0, tx, ty), tx - 1, ty, '▶')
                    } else {
                        g1
                    },
                }
            },
        }
    }
}

/// The routes into the first `t` steps.
pub open spec fn all_edges(ns: Seq<DagNode>, f: DagFrame, height: int, g: Seq<Seq<char>>, t: int) -> Seq<Seq<char>>
    decreases t,
{
    if t <= 0 {
        g
    } else {
        let g1 = all_edges(ns, f, height, g, t - 1);
        edges_into(ns, f, height, g1, t - 1, ns[t - 1].dependencies@.len() as int)
    }
}

/// An empty grid.
pub open spec fn blank(width: int, height: int) -> Seq<Seq<char>> {
    Seq::new(height as nat, |y: int| Seq::new(width as nat, |x: int| ' '))
}

/// A step's label `width` columns wide: its name cut to two columns less
/// (ending in `…` when cut), padded, in brackets.
pub open spec fn label_text(name: Seq<char>, width: int) -> Seq<char> {
    let lw = sub0(width, 2);
    let cut = if name.len() > lw {
        name.take(lw)
    } else {
        name
    };
    let shown = if name.len() > lw && cut.len() > 0 {
        cut.drop_last().push('…')
    } else {
        cut
    };
    seq!['['] + shown + Seq::new(sub0(lw, shown.len() as int) as nat, |i: int| ' ') + seq![']']
}

/// A step's label and where it goes.
pub struct DagLabel {
    pub x: usize,
    pub y: usize,
    pub text: String,
    pub selected: bool,
}

/// A drawing of the graph.
pub struct DagPicture {
    /// The routes, row by row.
    pub grid: Vec<Vec<char>>,
    /// The steps of the shown layers.
    pub labels: Vec<DagLabel>,
    /// Layers lie left of the shown ones.
    pub more_left: bool,
    /// Layers lie right of the shown ones.
    pub more_right: bool,
}

/// The labels of the first `m` steps that are shown.
pub open spec fn labels_upto(ns: Seq<DagNode>, f: DagFrame, height: int, selected: int, m: int) -> Seq<
    (int, int, Seq<char>, bool),
>
    decreases m,
{
    if m <= 0 {
        Seq::empty()
    } else {
        labels_upto(ns, f, height, selected, m - 1) + match dag_position(ns, f, height, m - 1) {
            Some((x, y)) => seq![(x, y, label_text(ns[m - 1].name@, f.node_width), m - 1 == selected)],
            None => Seq::empty(),
        }
    }
}

pub open spec fn label_views(ls: Seq<DagLabel>) -> Seq<(int, int, Seq<char>, bool)> {
    Seq::new(ls.len(), |i: int| (ls[i].x as int, ls[i].y as int, ls[i].text@, ls[i].selected))
}

/// Every dependency names a step.
pub open spec fn deps_valid(ns: Seq<DagNode>) -> bool {
    forall|i: int, k: int| 0 <= i < ns.len() && 0 <= k < ns[i].dependencies@.len() ==> #[trigger] ns[i].dependencies@[k] < ns.len()
}

} // verus!

verus! {

fn count_layer_exec(nodes: &Vec<DagNode>, layer: usize, m: usize) -> (r: usize)
    requires
        m <= nodes.len(),
    ensures
        r as int == count_layer(nodes@, layer as int, m as int),
        r <= m,
{
    let mut c: usize = 0;
    let mut j: usize = 0;
    while j < m
        invariant
            j <= m <= nodes.len(),
            c as int == count_layer(nodes@, layer as int, j as int),
            c <= j,
        decreases m - j,
    {
        if nodes[j].layer == layer {
            c = c + 1;
        }
        j = j + 1;
    }
    c
}

/// A step's label (`label_text`).
pub fn label_for(name: &str, width: usize) -> (r: String)
    ensures
        r@ == label_text(name@, width as int),
{
    let cs = crate::text::chars_of(name);
    let lw: usize = if width > 2 {
        width - 2
    } else {
        0
    };
    let mut shown: Vec<char> = Vec::new();
    let mut i: usize = 0;
    while i < cs.len() && i < lw
        invariant
            i <= cs.len(),
            i <= lw,
            cs@ == name@,
            shown@ == name@.take(i as int),
        decreases lw - i,
    {
        shown.push(cs[i]);
        proof {
            assert(shown@ =~= name@.take(i as int + 1));
        }
        i = i + 1;
    }
    let ghost cut = if name@.len() > lw { name@.take(lw as int) } else { name@ };
    proof {
        if name@.len() > lw {
            assert(shown@ =~= name@.take(lw as int));
        } else {
            assert(shown@ =~= name@);
        }
    }
    if cs.len() > lw && shown.len() > 0 {
        let _ = shown.pop();
        shown.push('…');
        proof {
            assert(shown@ =~= cut.drop_last().push('…'));
        }
    }
    let mut out: Vec<char> = Vec::new();
    out.push('[');
    let mut k: usize = 0;
    while k < shown.len()
        invariant
            k <= shown.len(),
            out@ == seq!['['] + shown@.take(k as int),
        decreases shown.len() - k,
    {
        out.push(shown[k]);
        proof {
            assert(out@ =~= seq!['['] + shown@.take(k as int + 1));
        }
        k = k + 1;
    }
    proof {
        assert(shown@.take(k as int) =~= shown@);
    }
    let pad: usize = if lw > shown.len() {
        lw - shown.len()
    } else {
        0
    };
    let mut p: usize = 0;
    while p < pad
        invariant
            p <= pad,
            out@ == seq!['['] + shown@ + Seq::new(p as nat, |x: int| ' '),
        decreases pad - p,
    {
        out.push(' ');
        proof {
            assert(out@ =~= seq!['['] + shown@ + Seq::new((p + 1) as nat, |x: int| ' '));
        }
        p = p + 1;
    }
    out.push(']');
    proof {
        assert(out@ =~= label_text(name@, width as int));
    }
    crate::text::string_from_chars(&out)
}

/// Lays the graph out for a drawing `width` columns wide and `height`
/// rows high (`dag_frame`, `dag_position`, `all_edges`, `labels_upto`);
/// `None` where there is nothing to draw or no room (fewer than 5 columns).
pub fn dag_layout(nodes: &Vec<DagNode>, selected: usize, width: usize, height: usize) -> (r: Option<DagPicture>)
    requires
        deps_valid(nodes@),
    ensures
        r is None <==> (nodes.len() == 0 || width < 5 || height == 0),
        r matches Some(p) ==> {
            let f = dag_frame(nodes@, selected as int, width as int);
            &&& grid_view(p.grid@) == all_edges(nodes@, f, height as int, blank(width as int, height as int), nodes.len() as int)
            &&& label_views(p.labels@) == labels_upto(nodes@, f, height as int, selected as int, nodes.len() as int)
            &&& p.more_left == (f.first > 0)
            &&& p.more_right == (f.first + f.visible < f.layer_count)
        },
{
    if nodes.len() == 0 || width < 5 || height == 0 {
        return None;
    }
    let n = nodes.len();
    let mut top: usize = 0;
    let mut i: usize = 0;
    while i < n
        invariant
            i <= n == nodes.len(),
            top as nat == max_layer(nodes@.take(i as int)),
        decreases n - i,
    {
        proof {
            assert(nodes@.take(i as int + 1).drop_last() =~= nodes@.take(i as int));
        }
        if nodes[i].layer > top {
            top = nodes[i].layer;
        }
        i = i + 1;
    }
    proof {
        assert(nodes@.take(n as int) =~= nodes@);
    }
    let layer_count = top.saturating_add(1);
    let fit0: usize = ((width as u128 + 3) / 11) as usize;
    let fit: usize = if fit0 > 1 {
        fit0
    } else {
        1
    };
    let visible = if layer_count < fit {
        layer_count
    } else {
        fit
    };
    let selected_layer: usize = if selected < n {
        nodes[selected].layer
    } else {
        0
    };
    let a: usize = if selected_layer > visible / 2 {
        selected_layer - visible / 2
    } else {
        0
    };
    let b: usize = if layer_count > visible {
        layer_count - visible
    } else {
        0
    };
    let first = if a < b {
        a
    } else {
        b
    };
    let gaps: u128 = 3 * ((visible - 1) as u128);
    let room: u128 = if (width as u128) > gaps {
        width as u128 - gaps
    } else {
        0
    };
    let per: u128 = room / (visible as u128);
    let node_width: usize = if per < 5 {
        5
    } else if per > 18 {
        18
    } else {
        per as usize
    };
    let x_span: usize = if width > node_width {
        width - node_width
    } else {
        0
    };
    let ghost f = dag_frame(nodes@, selected as int, width as int);
    proof {
        assert(f.layer_count == layer_count);
        assert(f.visible == visible);
        assert(f.first == first);
        assert(f.node_width == node_width);
        assert(f.x_span == x_span);
    }
    let mut positions: Vec<Option<(usize, usize)>> = Vec::new();
    let mut j: usize = 0;
    while j < n
        invariant
            j <= n == nodes.len(),
            positions.len() == j,
            f == dag_frame(nodes@, selected as int, width as int),
            f.visible == visible,
            f.first == first,
            f.x_span == x_span,
            visible >= 1,
            height >= 1,
            first + visible <= layer_count,
            forall|q: int| 0 <= q < j ==> match #[trigger] positions@[q] {
                Some((x, y)) => dag_position(nodes@, f, height as int, q) == Some((x as int, y as int)) && x <= x_span,
                None => dag_position(nodes@, f, height as int, q) is None,
            },
        decreases n - j,
    {
        let layer = nodes[j].layer;
        if first <= layer && layer < first + visible {
            let x: usize = if visible == 1 {
                x_span / 2
            } else {
                spread(layer - first, x_span, visible - 1)
            };
            let size = count_layer_exec(nodes, layer, n);
            let row = count_layer_exec(nodes, layer, j);
            proof {
                assert(count_layer(nodes@, layer as int, j as int + 1) == count_layer(nodes@, layer as int, j as int) + 1);
                lemma_count_layer_mono(nodes@, layer as int, j as int + 1, n as int);
                assert(size >= 1);
                assert(row < size);
            }
            let y: usize = if size == 1 {
                height / 2
            } else {
                spread(row, height - 1, size - 1)
            };
            positions.push(Some((x, y)));
        } else {
            positions.push(None);
        }
        j = j + 1;
    }
    let mut grid: Vec<Vec<char>> = Vec::new();
    let mut h: usize = 0;
    while h < height
        invariant
            h <= height,
            grid.len() == h,
            forall|q: int| 0 <= q < h ==> (#[trigger] grid@[q])@ == Seq::new(width as nat, |x: int| ' '),
        decreases height - h,
    {
        let mut row: Vec<char> = Vec::new();
        let mut w: usize = 0;
        while w < width
            invariant
                w <= width,
                row@ == Seq::new(w as nat, |x: int| ' '),
            decreases width - w,
        {
            row.push(' ');
            proof {
                assert(row@ =~= Seq::new((w + 1) as nat, |x: int| ' '));
            }
            w = w + 1;
        }
        grid.push(row);
        h = h + 1;
    }
    proof {
        assert(grid_view(grid@) =~= blank(width as int, height as int));
    }
    let ghost g0 = grid_view(grid@);
    let mut t: usize = 0;
    while t < n
        invariant
            t <= n == nodes.len(),
            positions.len() == n,
            deps_valid(nodes@),
            f == dag_frame(nodes@, selected as int, width as int),
            f.first == first,
            f.node_width == node_width,
            f.x_span == x_span,
            x_span + node_width <= width || x_span == 0,
            forall|q: int| 0 <= q < n ==> match #[trigger] positions@[q] {
                Some((x, y)) => dag_position(nodes@, f, height as int, q) == Some((x as int, y as int)) && x <= x_span,
                None => dag_position(nodes@, f, height as int, q) is None,
            },
            grid_view(grid@) == all_edges(nodes@, f, height as int, g0, t as int),
        decreases n - t,
    {
        let ghost before = grid_view(grid@);
        let mut k: usize = 0;
        while k < nodes[t].dependencies.len()
            invariant
                t < n == nodes.len(),
                positions.len() == n,
                deps_valid(nodes@),
                f == dag_frame(nodes@, selected as int, width as int),
                f.first == first,
                f.node_width == node_width,
                forall|q: int| 0 <= q < n ==> match #[trigger] positions@[q] {
                    Some((x, y)) => dag_position(nodes@, f, height as int, q) == Some((x as int, y as int)) && x <= x_span,
                    None => dag_position(nodes@, f, height as int, q) is None,
                },
                x_span + node_width <= width || x_span == 0,
                k <= nodes@[t as int].dependencies@.len(),
                grid_view(grid@) == edges_into(nodes@, f, height as int, before, t as int, k as int),
            decreases nodes@[t as int].dependencies@.len() - k,
        {
            match positions[t] {
                Some((tx, ty)) => {
                    let d = nodes[t].dependencies[k];
                    proof {
                        assert(d < n);
                    }
                    match positions[d] {
                        Some((sx, sy)) => {
                            route_edge(&mut grid, sx + node_width, sy, tx, ty);
                        },
                        None => {
                            if nodes[d].layer < first && tx > 0 {
                                draw_horizontal(&mut grid, 0, tx, ty);
                                put_route(&mut grid, tx - 1, ty, '▶');
                            }
                        },
                    }
                },
                None => {},
            }
            k = k + 1;
        }
        t = t + 1;
    }
    let mut labels: Vec<DagLabel> = Vec::new();
    let mut m: usize = 0;
    while m < n
        invariant
            m <= n == nodes.len(),
            positions.len() == n,
            f == dag_frame(nodes@, selected as int, width as int),
            f.node_width == node_width,
            forall|q: int| 0 <= q < n ==> match #[trigger] positions@[q] {
                Some((x, y)) => dag_position(nodes@, f, height as int, q) == Some((x as int, y as int)),
                None => dag_position(nodes@, f, height as int, q) is None,
            },
            label_views(labels@) == labels_upto(nodes@, f, height as int, selected as int, m as int),
        decreases n - m,
    {
        match positions[m] {
            Some((x, y)) => {
                let text = label_for(nodes[m].name.as_str(), node_width);
                let ghost before = label_views(labels@);
                let ghost tv = text@;
                labels.push(DagLabel { x, y, text, selected: m == selected });
                proof {
                    assert(label_views(labels@) =~= before.push((x as int, y as int, tv, m == selected)));
                }
            },
            None => {},
        }
        proof {
            assert(label_views(labels@) =~= labels_upto(nodes@, f, height as int, selected as int, m as int + 1));
        }
        m = m + 1;
    }
    Some(DagPicture { grid, labels, more_left: first > 0, more_right: first + visible < layer_count })
}

/// `p * span / parts`, which is at most `span` when `p <= parts`.
fn spread(p: usize, span: usize, parts: usize) -> (r: usize)
    requires
        p <= parts,
        parts >= 1,
    ensures
        r as int == (p * span) / (parts as int),
        r <= span,
{
    proof {
        assert(p * span <= 0xffff_ffff_ffff_ffff * 0xffff_ffff_ffff_ffffint) by (nonlinear_arith)
            requires
                0 <= p <= 0xffff_ffff_ffff_ffff,
                0 <= span <= 0xffff_ffff_ffff_ffff,
        ;
    }
    let prod: u128 = (p as u128) * (span as u128);
    proof {
        assert(p * span <= parts * span) by (nonlinear_arith)
            requires
                p <= parts,
                span >= 0,
        ;
        assert((p * span) / (parts as int) <= span) by (nonlinear_arith)
            requires
                p * span <= parts * span,
                parts >= 1,
                span >= 0,
                p >= 0,
        ;
    }
    (prod / (parts as u128)) as usize
}

proof fn lemma_count_layer_mono(ns: Seq<DagNode>, layer: int, a: int, b: int)
    requires
        0 <= a <= b,
    ensures
        count_layer(ns, layer, a) <= count_layer(ns, layer, b),
    decreases b - a,
{
    if a < b {
        lemma_count_layer_mono(ns, layer, a, b - 1);
    }
}

} // verus!
