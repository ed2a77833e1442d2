//! Weighted flow tracing: the cheapest semantic path through the project graph.
use vstd::prelude::*;

use crate::model::{
    CodeEdge, CodeNode, NodeKind, ProjectGraph, RelationKind, SourceScope, first_node_with_id,
    lemma_first_node_unique, str_equal,
};
use crate::text::{
    chars_of, contains, lemma_seq_less_irreflexive, lemma_seq_less_total, lemma_seq_less_trans, seq_contains, seq_less,
    spec_to_lowercase, str_less, to_lowercase,
};

verus! {

/// Which way a trace follows the relations.
#[derive(Clone, Copy, Debug, PartialEq, Eq, Structural)]
pub enum FlowDirection {
    Downstream,
    Upstream,
    Between,
}

/// A request to trace a flow from a start node.
#[derive(Clone, Debug)]
pub struct FlowTraceRequest {
    pub start_node_id: String,
    pub end_node_id: Option<String>,
    pub direction: FlowDirection,
    pub max_depth: usize,
    pub relations: Vec<String>,
}

/// One node of a traced path, with the relation that reached it.
#[derive(Clone, Debug)]
pub struct FlowStep {
    pub index: usize,
    pub node: CodeNode,
    pub relation_from_previous: Option<String>,
    pub cumulative_cost: u32,
}

/// The result of a trace: a path, or the reason none was found.
#[derive(Clone, Debug)]
pub struct FlowTrace {
    pub found: bool,
    pub direction: String,
    pub start_node_id: String,
    pub end_node_id: Option<String>,
    pub nodes: Vec<CodeNode>,
    pub edges: Vec<CodeEdge>,
    pub steps: Vec<FlowStep>,
    pub total_cost: u32,
    pub message: String,
}

/// The depth a request falls back to when it names none.
pub fn default_depth() -> (res: usize)
    ensures
        res == 8,
{
    8
}

pub open spec fn spec_relation_weight(relation: RelationKind) -> int {
    match relation {
        RelationKind::RoutesTo | RelationKind::HandledBy => 2,
        RelationKind::Calls => 3,
        RelationKind::Reads | RelationKind::Writes => 4,
        RelationKind::Uses | RelationKind::Renders => 5,
        RelationKind::Creates | RelationKind::Emits | RelationKind::Listens => 6,
        RelationKind::DependsOn | RelationKind::Returns => 8,
        RelationKind::Imports => 14,
        RelationKind::Contains | RelationKind::Declares | RelationKind::HasMethod => 40,
        _ => 18,
    }
}

/// Cost of following a relation: structural relations are expensive, semantic ones cheap.
fn relation_weight(relation: RelationKind) -> (res: u32)
    ensures
        res == spec_relation_weight(relation),
        2 <= res <= 40,
{
    match relation {
        RelationKind::RoutesTo | RelationKind::HandledBy => 2,
        RelationKind::Calls => 3,
        RelationKind::Reads | RelationKind::Writes => 4,
        RelationKind::Uses | RelationKind::Renders => 5,
        RelationKind::Creates | RelationKind::Emits | RelationKind::Listens => 6,
        RelationKind::DependsOn | RelationKind::Returns => 8,
        RelationKind::Imports => 14,
        RelationKind::Contains | RelationKind::Declares | RelationKind::HasMethod => 40,
        _ => 18,
    }
}

/// A path names test code when its lowercase form mentions `test` or `spec`.
pub open spec fn spec_is_test_path(path: Seq<char>) -> bool {
    seq_contains(spec_to_lowercase(path), "test"@) || seq_contains(spec_to_lowercase(path), "spec"@)
}

/// Whether a path names test code.
pub fn is_test_path(path: &str) -> (res: bool)
    ensures
        res == spec_is_test_path(path@),
{
    let lower = to_lowercase(path);
    let chars = chars_of(lower.as_str());
    let test = chars_of("test");
    let spec = chars_of("spec");
    contains(&chars, &test) || contains(&chars, &spec)
}

pub open spec fn spec_node_penalty(node: CodeNode) -> int {
    (if node.source_scope == SourceScope::ExternalDependency { 25int } else { 0int })
    + (if node.kind == NodeKind::Infrastructure || node.kind == NodeKind::Config
        || node.kind == NodeKind::Environment { 12int } else { 0int })
    + (match node.path {
        Some(p) => if spec_is_test_path(p@) { 15int } else { 0int },
        None => 0int,
    })
}

/// Extra cost of entering a node: external code, infrastructure and tests are detours.
fn node_penalty(node: &CodeNode) -> (res: u32)
    ensures
        res == spec_node_penalty(*node),
        res <= 52,
{
    let mut penalty: u32 = 0;
    if node.source_scope == SourceScope::ExternalDependency {
        penalty = penalty + 25;
    }
    if node.kind == NodeKind::Infrastructure || node.kind == NodeKind::Config
        || node.kind == NodeKind::Environment {
        penalty = penalty + 12;
    }
    match &node.path {
        Some(p) => {
            if is_test_path(p.as_str()) {
                penalty = penalty + 15;
            }
        },
        None => {},
    }
    penalty
}

/// A relation passes the request's filters: none are given, or one names it.
pub open spec fn filter_accepts(relations: Seq<String>, relation: RelationKind) -> bool {
    relations.len() == 0 || exists|k: int|
        0 <= k < relations.len() && spec_to_lowercase(#[trigger] relations[k]@)
            == relation.spec_filter_name()
}

/// Whether a relation passes the (already lowercased) filters.
fn allowed(relation: RelationKind, filters: &Vec<String>, Ghost(relations): Ghost<Seq<String>>) -> (res: bool)
    requires
        filters@.len() == relations.len(),
        forall|k: int| 0 <= k < filters@.len() ==> filters@[k]@ == spec_to_lowercase(relations[k]@),
    ensures
        res == filter_accepts(relations, relation),
{
    if filters.len() == 0 {
        return true;
    }
    let name = relation.filter_name();
    let mut k: usize = 0;
    while k < filters.len()
        invariant
            k <= filters@.len(),
            filters@.len() == relations.len(),
            forall|j: int| 0 <= j < filters@.len() ==> filters@[j]@ == spec_to_lowercase(relations[j]@),
            name@ == relation.spec_filter_name(),
            forall|j: int| 0 <= j < k ==> spec_to_lowercase(relations[j]@) != relation.spec_filter_name(),
        decreases filters.len() - k,
    {
        if str_equal(filters[k].as_str(), name) {
            assert(spec_to_lowercase(relations[k as int]@) == relation.spec_filter_name());
            return true;
        }
        k = k + 1;
    }
    false
}

/// The depth bound a request asks for, clamped to `1..=20`.
pub open spec fn spec_depth_limit(max_depth: usize) -> int {
    if max_depth < 1 { 1 } else if max_depth > 20 { 20 } else { max_depth as int }
}

/// Edge `e` leads from the node `from` to the node `to` in the traced direction.
pub open spec fn edge_joins(e: CodeEdge, from: Seq<char>, to: Seq<char>, incoming: bool) -> bool {
    if incoming {
        e.target_id@ == from && e.source_id@ == to
    } else {
        e.source_id@ == from && e.target_id@ == to
    }
}

/// `t` is a path the request allows through the graph, with its steps and costs.
pub open spec fn is_trace_of(g: ProjectGraph, req: FlowTraceRequest, t: FlowTrace) -> bool {
    let incoming = req.direction == FlowDirection::Upstream;
    let n = t.edges@.len();
    &&& t.nodes@.len() == n + 1
    &&& n <= spec_depth_limit(req.max_depth)
    &&& t.nodes@[0].id@ == req.start_node_id@
    &&& t.end_node_id == Some(t.nodes@[n as int].id)
    &&& forall|i: int| 0 <= i <= n ==> g.has_node(#[trigger] t.nodes@[i].id@)
        && t.nodes@[i] == g.nodes@[g.node_index(t.nodes@[i].id@)]
    &&& forall|i: int| 0 <= i < n ==> g.edges@.contains(#[trigger] t.edges@[i])
        && filter_accepts(req.relations@, t.edges@[i].relation)
        && edge_joins(t.edges@[i], t.nodes@[i].id@, t.nodes@[i + 1].id@, incoming)
    &&& t.steps@.len() == n + 1
    &&& forall|i: int| 0 <= i <= n ==> (#[trigger] t.steps@[i]).index == i + 1
        && t.steps@[i].node == t.nodes@[i]
    &&& t.steps@[0].relation_from_previous is None
    &&& t.steps@[0].cumulative_cost == 0
    &&& forall|i: int| 0 <= i < n ==> (#[trigger] t.steps@[i + 1]).relation_from_previous is Some
        && t.steps@[i + 1].relation_from_previous->0@ == t.edges@[i].relation.spec_name()
    &&& forall|i: int| 0 <= i < n ==> (#[trigger] t.steps@[i + 1]).cumulative_cost
        == t.steps@[i].cumulative_cost + spec_relation_weight(t.edges@[i].relation)
            + spec_node_penalty(t.nodes@[i + 1])
    &&& t.total_cost == t.steps@[n as int].cumulative_cost
}

/// The lowercase name of a direction, as traces report it.
pub open spec fn spec_direction_name(d: FlowDirection) -> Seq<char> {
    match d {
        FlowDirection::Downstream => "downstream"@,
        FlowDirection::Upstream => "upstream"@,
        FlowDirection::Between => "between"@,
    }
}

fn direction_name(d: FlowDirection) -> (res: String)
    ensures
        res@ == spec_direction_name(d),
{
    match d {
        FlowDirection::Downstream => String::from_str("downstream"),
        FlowDirection::Upstream => String::from_str("upstream"),
        FlowDirection::Between => String::from_str("between"),
    }
}

/// An empty trace carrying the reason no path is reported.
fn not_found(request: &FlowTraceRequest, message: &str) -> (res: FlowTrace)
    ensures
        !res.found,
        res.nodes@.len() == 0,
        res.edges@.len() == 0,
        res.steps@.len() == 0,
        res.total_cost == 0,
        res.start_node_id == request.start_node_id,
        res.end_node_id == request.end_node_id,
        res.direction@ == spec_direction_name(request.direction),
        res.message@ == message@,
{
    FlowTrace {
        found: false,
        direction: direction_name(request.direction),
        start_node_id: request.start_node_id.clone(),
        end_node_id: crate::model::copy_opt_string(&request.end_node_id),
        nodes: Vec::new(),
        edges: Vec::new(),
        steps: Vec::new(),
        total_cost: 0,
        message: String::from_str(message),
    }
}

// ---------------------------------------------------------------------------
// Search state
// ---------------------------------------------------------------------------

/// Node `v` is the position the graph's index gives for its own id.
pub open spec fn canonical(g: ProjectGraph, v: int) -> bool {
    0 <= v < g.nodes@.len() && first_node_with_id(g.nodes@, g.nodes@[v].id@, v)
}

/// Edge `e` joins node `u` to node `v` in the traced direction.
pub open spec fn reaches_via(g: ProjectGraph, incoming: bool, u: int, e: int, v: int) -> bool {
    &&& 0 <= e < g.edges@.len()
    &&& 0 <= u < g.nodes@.len()
    &&& 0 <= v < g.nodes@.len()
    &&& edge_joins(g.edges@[e], g.nodes@[u].id@, g.nodes@[v].id@, incoming)
}

pub open spec fn cost_of(d: Option<u32>) -> int {
    match d {
        Some(c) => c as int,
        None => 2000,
    }
}

/// Sum of the tentative costs, unreached nodes counting as 2000.
pub open spec fn potential(dist: Seq<Option<u32>>) -> int
    decreases dist.len(),
{
    if dist.len() == 0 {
        0
    } else {
        potential(dist.drop_last()) + cost_of(dist.last())
    }
}

proof fn lemma_potential_nonneg(dist: Seq<Option<u32>>)
    ensures
        potential(dist) >= 0,
    decreases dist.len(),
{
    if dist.len() > 0 {
        lemma_potential_nonneg(dist.drop_last());
    }
}

proof fn lemma_potential_update(dist: Seq<Option<u32>>, i: int, c: u32)
    requires
        0 <= i < dist.len(),
    ensures
        potential(dist.update(i, Some(c))) == potential(dist) - cost_of(dist[i]) + c,
    decreases dist.len(),
{
    let u = dist.update(i, Some(c));
    if i == dist.len() - 1 {
        assert(u.drop_last() =~= dist.drop_last());
    } else {
        assert(u.drop_last() =~= dist.drop_last().update(i, Some(c)));
        lemma_potential_update(dist.drop_last(), i, c);
    }
}

/// How node `v` was reached: its predecessor is reached, settled and one step shallower.
pub open spec fn parent_ok(
    g: ProjectGraph,
    req: FlowTraceRequest,
    dist: Seq<Option<u32>>,
    dep: Seq<usize>,
    prev: Seq<Option<(usize, usize)>>,
    v: int,
    last: int,
) -> bool {
    let incoming = req.direction == FlowDirection::Upstream;
    &&& prev[v] is Some
    &&& {
        let (u, e) = prev[v]->0;
        &&& (u as int) < g.nodes@.len()
        &&& dist[u as int] is Some
        &&& reaches_via(g, incoming, u as int, e as int, v)
        &&& filter_accepts(req.relations@, g.edges@[e as int].relation)
        &&& dist[v]->0 == dist[u as int]->0 + spec_relation_weight(g.edges@[e as int].relation)
            + spec_node_penalty(g.nodes@[v])
        &&& dep[v] == dep[u as int] + 1
        &&& dist[u as int]->0 <= last
    }
}

#[verifier::opaque]
pub open spec fn search_inv(
    g: ProjectGraph,
    req: FlowTraceRequest,
    s: int,
    limit: int,
    dist: Seq<Option<u32>>,
    dep: Seq<usize>,
    prev: Seq<Option<(usize, usize)>>,
    last: int,
) -> bool {
    let n = g.nodes@.len();
    &&& dist.len() == n
    &&& dep.len() == n
    &&& prev.len() == n
    &&& canonical(g, s)
    &&& g.nodes@[s].id@ == req.start_node_id@
    &&& dist[s] == Some(0u32)
    &&& dep[s] == 0
    &&& prev[s] is None
    &&& 1 <= limit <= 20
    &&& 0 <= last
    &&& forall|v: int| 0 <= v < n && (#[trigger] dist[v]) is Some ==> canonical(g, v)
        && dep[v] <= limit && dist[v]->0 <= 92 * dep[v]
    &&& forall|v: int| 0 <= v < n && v != s && (#[trigger] dist[v]) is Some ==> parent_ok(
        g,
        req,
        dist,
        dep,
        prev,
        v,
        last,
    )
}

pub open spec fn queue_inv(
    queue: Seq<(u32, usize, usize)>,
    n: int,
    dist: Seq<Option<u32>>,
    dep: Seq<usize>,
    last: int,
) -> bool {
    forall|k: int| 0 <= k < queue.len() ==> {
        let (c, d, v) = #[trigger] queue[k];
        &&& (v as int) < n
        &&& dist[v as int] is Some
        &&& dist[v as int]->0 <= c
        &&& (dist[v as int]->0 == c ==> dep[v as int] == d)
        &&& c >= last
    }
}

/// An allowed edge leaves the start node in the traced direction towards another existing node.
pub open spec fn has_first_step(g: ProjectGraph, req: FlowTraceRequest) -> bool {
    let incoming = req.direction == FlowDirection::Upstream;
    exists|e: int| #![trigger g.edges@[e]] {
        &&& 0 <= e < g.edges@.len()
        &&& filter_accepts(req.relations@, g.edges@[e].relation)
        &&& if incoming {
            g.edges@[e].target_id@ == req.start_node_id@ && g.has_node(g.edges@[e].source_id@)
                && g.edges@[e].source_id@ != req.start_node_id@
        } else {
            g.edges@[e].source_id@ == req.start_node_id@ && g.has_node(g.edges@[e].target_id@)
                && g.edges@[e].target_id@ != req.start_node_id@
        }
    }
}

/// The end of edge `e` away from the node it is followed from.
pub open spec fn far_end(g: ProjectGraph, req: FlowTraceRequest, e: int) -> Seq<char> {
    if req.direction == FlowDirection::Upstream {
        g.edges@[e].source_id@
    } else {
        g.edges@[e].target_id@
    }
}

/// Edge `e` is followed from the start node.
pub open spec fn starts_at_start(g: ProjectGraph, req: FlowTraceRequest, e: int) -> bool {
    if req.direction == FlowDirection::Upstream {
        g.edges@[e].target_id@ == req.start_node_id@
    } else {
        g.edges@[e].source_id@ == req.start_node_id@
    }
}

/// If edge `e` may be followed to an existing node, that node was reached.
pub open spec fn step_reached(g: ProjectGraph, req: FlowTraceRequest, dist: Seq<Option<u32>>, e: int) -> bool {
    filter_accepts(req.relations@, g.edges@[e].relation) && g.has_node(far_end(g, req, e))
        ==> dist[g.node_index(far_end(g, req, e))] is Some
}

/// Every node one allowed step away from the start was reached.
pub open spec fn first_step_reached(g: ProjectGraph, req: FlowTraceRequest, dist: Seq<Option<u32>>) -> bool {
    forall|e: int| 0 <= e < g.edges@.len() && #[trigger] starts_at_start(g, req, e) ==> step_reached(g, req, dist, e)
}

proof fn lemma_step_persists(g: ProjectGraph, req: FlowTraceRequest, before: Seq<Option<u32>>, after: Seq<Option<u32>>, e: int)
    requires
        step_reached(g, req, before, e),
        before.len() == after.len(),
        before.len() == g.nodes@.len(),
        forall|v: int| 0 <= v < before.len() && before[v] is Some ==> (#[trigger] after[v]) is Some,
    ensures
        step_reached(g, req, after, e),
{
    if filter_accepts(req.relations@, g.edges@[e].relation) && g.has_node(far_end(g, req, e)) {
        let id = far_end(g, req, e);
        let w = choose|w: int| 0 <= w < g.nodes@.len() && g.nodes@[w].id@ == id;
        lemma_first_index_exists(g.nodes@, id, w);
        let v = g.node_index(id);
        assert(first_node_with_id(g.nodes@, id, v));
        assert(after[v] is Some);
    }
}

proof fn lemma_first_step_persists(g: ProjectGraph, req: FlowTraceRequest, before: Seq<Option<u32>>, after: Seq<Option<u32>>)
    requires
        first_step_reached(g, req, before),
        before.len() == after.len(),
        before.len() == g.nodes@.len(),
        forall|v: int| 0 <= v < before.len() && before[v] is Some ==> (#[trigger] after[v]) is Some,
    ensures
        first_step_reached(g, req, after),
{
    assert forall|e: int| 0 <= e < g.edges@.len() && #[trigger] starts_at_start(g, req, e) implies step_reached(g, req, after, e) by {
        lemma_step_persists(g, req, before, after, e);
    }
}

proof fn lemma_inv_basics(
    g: ProjectGraph,
    req: FlowTraceRequest,
    s: int,
    limit: int,
    dist: Seq<Option<u32>>,
    dep: Seq<usize>,
    prev: Seq<Option<(usize, usize)>>,
    last: int,
)
    requires
        search_inv(g, req, s, limit, dist, dep, prev, last),
    ensures
        dist.len() == g.nodes@.len(),
        dep.len() == g.nodes@.len(),
        prev.len() == g.nodes@.len(),
        canonical(g, s),
        g.nodes@[s].id@ == req.start_node_id@,
        dist[s] == Some(0u32),
        dep[s] == 0,
        prev[s] is None,
        1 <= limit <= 20,
        0 <= last,
{
    reveal(search_inv);
}

proof fn lemma_inv_reached(
    g: ProjectGraph,
    req: FlowTraceRequest,
    s: int,
    limit: int,
    dist: Seq<Option<u32>>,
    dep: Seq<usize>,
    prev: Seq<Option<(usize, usize)>>,
    last: int,
    v: int,
)
    requires
        search_inv(g, req, s, limit, dist, dep, prev, last),
        0 <= v < g.nodes@.len(),
        dist[v] is Some,
    ensures
        canonical(g, v),
        dep[v] <= limit,
        dist[v]->0 <= 92 * dep[v],
        v != s ==> parent_ok(g, req, dist, dep, prev, v, last),
{
    reveal(search_inv);
}

proof fn lemma_inv_raise(
    g: ProjectGraph,
    req: FlowTraceRequest,
    s: int,
    limit: int,
    dist: Seq<Option<u32>>,
    dep: Seq<usize>,
    prev: Seq<Option<(usize, usize)>>,
    last: int,
    last2: int,
)
    requires
        search_inv(g, req, s, limit, dist, dep, prev, last),
        last <= last2,
    ensures
        search_inv(g, req, s, limit, dist, dep, prev, last2),
{
    reveal(search_inv);
    assert forall|v: int| 0 <= v < g.nodes@.len() && v != s && (#[trigger] dist[v]) is Some implies parent_ok(
        g, req, dist, dep, prev, v, last2) by {
        assert(parent_ok(g, req, dist, dep, prev, v, last));
    }
}

/// Follows edge `e` from the settled node `u`, recording a cheaper way to its far end.
fn relax_edge(
    graph: &ProjectGraph,
    request: &FlowTraceRequest,
    filters: &Vec<String>,
    incoming: bool,
    e: usize,
    u: usize,
    c: u32,
    d: usize,
    dist: &mut Vec<Option<u32>>,
    dep: &mut Vec<usize>,
    prev: &mut Vec<Option<(usize, usize)>>,
    queue: &mut Vec<(u32, usize, usize)>,
    Ghost(s): Ghost<int>,
    Ghost(limit): Ghost<int>,
)
    requires
        incoming == (request.direction == FlowDirection::Upstream),
        filters@.len() == request.relations@.len(),
        forall|j: int| 0 <= j < filters@.len() ==> filters@[j]@ == spec_to_lowercase(request.relations@[j]@),
        search_inv(*graph, *request, s, limit, old(dist)@, old(dep)@, old(prev)@, c as int),
        queue_inv(old(queue)@, graph.nodes@.len() as int, old(dist)@, old(dep)@, c as int),
        (u as int) < graph.nodes@.len(),
        old(dist)@[u as int] == Some(c),
        old(dep)@[u as int] == d,
        (d as int) < limit,
        (e as int) < graph.edges@.len(),
        if incoming {
            graph.edges@[e as int].target_id@ == graph.nodes@[u as int].id@
        } else {
            graph.edges@[e as int].source_id@ == graph.nodes@[u as int].id@
        },
        potential(old(dist)@) >= 0,
    ensures
        search_inv(*graph, *request, s, limit, final(dist)@, final(dep)@, final(prev)@, c as int),
        queue_inv(final(queue)@, graph.nodes@.len() as int, final(dist)@, final(dep)@, c as int),
        final(dist)@.len() == old(dist)@.len(),
        final(dep)@.len() == old(dep)@.len(),
        final(prev)@.len() == old(prev)@.len(),
        final(dist)@[u as int] == Some(c),
        final(dep)@[u as int] == d,
        2 * potential(final(dist)@) + final(queue)@.len() <= 2 * potential(old(dist)@) + old(queue)@.len(),
        potential(final(dist)@) >= 0,
        forall|v: int| 0 <= v < old(dist)@.len() && old(dist)@[v] is Some ==> (#[trigger] final(dist)@[v]) is Some,
        step_reached(*graph, *request, final(dist)@, e as int),
{
    proof {
        lemma_inv_basics(*graph, *request, s, limit, dist@, dep@, prev@, c as int);
        lemma_inv_reached(*graph, *request, s, limit, dist@, dep@, prev@, c as int, u as int);
    }
    let relation = graph.edges[e].relation;
    if !allowed(relation, filters, Ghost(request.relations@)) {
        return;
    }
    let next = if incoming {
        graph.edges[e].source_id.as_str()
    } else {
        graph.edges[e].target_id.as_str()
    };
    let x = match graph.find_node_index(next) {
        Some(x) => x,
        None => {
            return;
        },
    };
    let w = relation_weight(relation);
    let p = node_penalty(&graph.nodes[x]);
    let nc = c + w + p;
    let update = match dist[x] {
        Some(old) => nc < old,
        None => true,
    };
    if update {
        proof {
            lemma_relax_preserves(*graph, *request, s, limit, dist@, dep@, prev@, c as int, u as int,
                e as int, x as int, nc, (d + 1) as usize);
            lemma_potential_update(dist@, x as int, nc);
        }
        let ghost old_dist = dist@;
        let ghost old_queue = queue@;
        dist.set(x, Some(nc));
        dep.set(x, d + 1);
        prev.set(x, Some((u, e)));
        queue.push((nc, d + 1, x));
        proof {
            lemma_potential_nonneg(dist@);
            assert forall|j: int| 0 <= j < queue@.len() implies {
                let (c2, d2, v2) = #[trigger] queue@[j];
                &&& (v2 as int) < graph.nodes@.len()
                &&& dist@[v2 as int] is Some
                &&& dist@[v2 as int]->0 <= c2
                &&& (dist@[v2 as int]->0 == c2 ==> dep@[v2 as int] == d2)
                &&& c2 >= c
            } by {
                if j < old_queue.len() {
                    assert(queue@[j] == old_queue[j]);
                }
            }
            assert(x != u);
        }
    }
}

/// Position in `queue` of the entry that is popped first: least cost, then depth, then id.
fn pop_position(g: &ProjectGraph, queue: &Vec<(u32, usize, usize)>) -> (res: usize)
    requires
        queue@.len() > 0,
        forall|k: int| 0 <= k < queue@.len() ==> (queue@[k].2 as int) < g.nodes@.len(),
    ensures
        res < queue@.len(),
        forall|k: int| 0 <= k < queue@.len() ==> queue@[res as int].0 <= queue@[k].0,
{
    let mut best: usize = 0;
    let mut k: usize = 1;
    while k < queue.len()
        invariant
            0 < k <= queue@.len(),
            best < k,
            forall|j: int| 0 <= j < queue@.len() ==> (queue@[j].2 as int) < g.nodes@.len(),
            forall|j: int| 0 <= j < k ==> queue@[best as int].0 <= queue@[j].0,
        decreases queue.len() - k,
    {
        let (c, d, v) = queue[k];
        let (bc, bd, bv) = queue[best];
        if c < bc || (c == bc && (d < bd || (d == bd && str_less(
            g.nodes[v].id.as_str(),
            g.nodes[bv].id.as_str(),
        )))) {
            best = k;
        }
        k = k + 1;
    }
    best
}

/// What a node's kind adds to its worth as the end of a flow: upstream, a page, route,
/// endpoint or entry point; downstream, persistence first, then outside services, queues and
/// events.
pub open spec fn terminal_bonus(kind: NodeKind, incoming: bool) -> int {
    if incoming {
        if kind == NodeKind::Page || kind == NodeKind::Route || kind == NodeKind::ApiEndpoint || kind == NodeKind::EntryPoint {
            80
        } else {
            0
        }
    } else if kind == NodeKind::Repository || kind == NodeKind::Database || kind == NodeKind::DatabaseTable {
        100
    } else if kind == NodeKind::ExternalService || kind == NodeKind::Queue || kind == NodeKind::Event {
        70
    } else {
        0
    }
}

/// The worth of a reached node as the end of a flow: its kind's bonus, 12 per level of depth,
/// minus a quarter of its cost.
pub open spec fn terminal_score(kind: NodeKind, incoming: bool, depth: int, cost: int) -> int {
    terminal_bonus(kind, incoming) + 12 * depth - cost / 4
}

/// Node `t` is worth at least as much as node `v` as an end, the larger id winning a tie.
pub open spec fn terminal_at_least(g: ProjectGraph, dist: Seq<Option<u32>>, dep: Seq<usize>, incoming: bool, t: int, v: int) -> bool {
    let st = terminal_score(g.nodes@[t].kind, incoming, dep[t] as int, dist[t]->0 as int);
    let sv = terminal_score(g.nodes@[v].kind, incoming, dep[v] as int, dist[v]->0 as int);
    sv < st || (sv == st && !seq_less(g.nodes@[t].id@, g.nodes@[v].id@))
}

/// Downstream, a reached persistence node at least as deep as a plain reached node, and at
/// most 396 dearer, outranks it: a flow never ends at the plain node while the persistence
/// node is reached.
pub proof fn law_persistence_outranks_plain_nodes(g: ProjectGraph, dist: Seq<Option<u32>>, dep: Seq<usize>, r: int, h: int)
    requires
        0 <= r < g.nodes@.len(),
        0 <= h < g.nodes@.len(),
        r < dist.len() && h < dist.len() && r < dep.len() && h < dep.len(),
        dist[r] is Some,
        dist[h] is Some,
        g.nodes@[r].kind == NodeKind::Repository || g.nodes@[r].kind == NodeKind::Database
            || g.nodes@[r].kind == NodeKind::DatabaseTable,
        terminal_bonus(g.nodes@[h].kind, false) == 0,
        dep[r] >= dep[h],
        dist[r]->0 <= dist[h]->0 + 396,
    ensures
        !terminal_at_least(g, dist, dep, false, h, r),
{
    let cr = dist[r]->0 as int;
    let ch = dist[h]->0 as int;
    assert(cr / 4 <= ch / 4 + 99) by (nonlinear_arith)
        requires
            0 <= cr,
            0 <= ch,
            cr <= ch + 396,
    ;
}

/// Among reached nodes other than the start, the most meaningful end of a flow.
fn select_terminal(
    g: &ProjectGraph,
    dist: &Vec<Option<u32>>,
    dep: &Vec<usize>,
    incoming: bool,
    s: usize,
) -> (res: Option<usize>)
    requires
        dist@.len() == g.nodes@.len(),
        dep@.len() == g.nodes@.len(),
        forall|v: int| 0 <= v < dist@.len() && (#[trigger] dist@[v]) is Some ==> dist@[v]->0 <= 1840
            && dep@[v] <= 20,
    ensures
        match res {
            Some(t) => (t as int) < g.nodes@.len() && t != s && dist@[t as int] is Some,
            None => forall|v: int| 0 <= v < g.nodes@.len() && v != s ==> (#[trigger] dist@[v]) is None,
        },
        res matches Some(t) ==> forall|v: int| 0 <= v < g.nodes@.len() && v != s && (#[trigger] dist@[v]) is Some
            ==> terminal_at_least(*g, dist@, dep@, incoming, t as int, v),
{
    let mut best: Option<(usize, i64)> = None;
    let mut v: usize = 0;
    while v < g.nodes.len()
        invariant
            v <= g.nodes@.len(),
            dist@.len() == g.nodes@.len(),
            dep@.len() == g.nodes@.len(),
            forall|w: int| 0 <= w < dist@.len() && (#[trigger] dist@[w]) is Some ==> dist@[w]->0 <= 1840
                && dep@[w] <= 20,
            match best {
                Some((t, _)) => (t as int) < v && t != s && dist@[t as int] is Some,
                None => forall|w: int| 0 <= w < v && w != s ==> (#[trigger] dist@[w]) is None,
            },
            match best {
                Some((t, ts)) => ts == terminal_score(g.nodes@[t as int].kind, incoming, dep@[t as int] as int, dist@[t as int]->0 as int)
                    && forall|w: int| 0 <= w < v && w != s && (#[trigger] dist@[w]) is Some
                        ==> terminal_at_least(*g, dist@, dep@, incoming, t as int, w),
                None => true,
            },
        decreases g.nodes.len() - v,
    {
        if v != s {
            if let Some(cost) = dist[v] {
                let node = &g.nodes[v];
                let bonus: i64 = if incoming {
                    match node.kind {
                        NodeKind::Page | NodeKind::Route | NodeKind::ApiEndpoint | NodeKind::EntryPoint => 80,
                        _ => 0,
                    }
                } else {
                    match node.kind {
                        NodeKind::Repository | NodeKind::Database | NodeKind::DatabaseTable => 100,
                        NodeKind::ExternalService | NodeKind::Queue | NodeKind::Event => 70,
                        _ => 0,
                    }
                };
                let depth = dep[v] as i64;
                let c = cost as i64;
                let score = bonus + depth * 12 - c / 4;
                let better = match best {
                    None => true,
                    Some((b, bs)) => score > bs || (score == bs && str_less(
                        g.nodes[b].id.as_str(),
                        node.id.as_str(),
                    )),
                };
                proof {
                    assert(score == terminal_score(node.kind, incoming, dep@[v as int] as int, cost as int));
                    match best {
                        Some((b, bs)) => {
                            if better {
                                assert forall|w: int| 0 <= w < v && w != s && (#[trigger] dist@[w]) is Some
                                    implies terminal_at_least(*g, dist@, dep@, incoming, v as int, w) by {
                                    assert(terminal_at_least(*g, dist@, dep@, incoming, b as int, w));
                                    let idw = g.nodes@[w].id@;
                                    let idb = g.nodes@[b as int].id@;
                                    let idv = g.nodes@[v as int].id@;
                                    if score == bs {
                                        lemma_seq_less_total(idw, idb);
                                        if seq_less(idw, idb) {
                                            lemma_seq_less_trans(idw, idb, idv);
                                            if seq_less(idv, idw) {
                                                lemma_seq_less_trans(idv, idw, idv);
                                                lemma_seq_less_irreflexive(idv);
                                            }
                                        } else if idw == idb {
                                            if seq_less(idv, idw) {
                                                lemma_seq_less_trans(idv, idb, idv);
                                                lemma_seq_less_irreflexive(idv);
                                            }
                                        }
                                    }
                                }
                                lemma_seq_less_irreflexive(g.nodes@[v as int].id@);
                            } else {
                                lemma_seq_less_total(g.nodes@[b as int].id@, g.nodes@[v as int].id@);
                            }
                        },
                        None => {
                            lemma_seq_less_irreflexive(g.nodes@[v as int].id@);
                        },
                    }
                }
                if better {
                    best = Some((v, score));
                }
            }
        }
        v = v + 1;
    }
    match best {
        Some((t, _)) => Some(t),
        None => None,
    }
}

/// Traces the cheapest path the request allows, following the graph's relations.
///
/// The search expands nodes by increasing cost, within the request's depth bound; the path
/// ends at the requested end node when it was reached, otherwise at the most meaningful
/// reached node (a page or route upstream, a persistence or external element downstream).
pub fn trace_flow(graph: &ProjectGraph, request: &FlowTraceRequest) -> (res: FlowTrace)
    ensures
        res.start_node_id == request.start_node_id,
        res.direction@ == spec_direction_name(request.direction),
        !graph.has_node(request.start_node_id@) ==> !res.found,
        request.direction == FlowDirection::Between && (match request.end_node_id {
            Some(e) => !graph.has_node(e@),
            None => true,
        }) ==> !res.found,
        res.found ==> is_trace_of(*graph, *request, res),
        !res.found ==> res.nodes@.len() == 0 && res.edges@.len() == 0 && res.steps@.len() == 0
            && res.total_cost == 0 && res.end_node_id == request.end_node_id,
        graph.has_node(request.start_node_id@) && !(request.direction == FlowDirection::Between
            && (match request.end_node_id {
            Some(e) => !graph.has_node(e@),
            None => true,
        })) && has_first_step(*graph, *request) ==> res.found,
{
    let s = match graph.find_node_index(request.start_node_id.as_str()) {
        Some(i) => i,
        None => {
            return not_found(request, "Le nœud de départ n’existe pas dans ce projet.");
        },
    };
    if request.direction == FlowDirection::Between {
        let end_ok = match &request.end_node_id {
            Some(e) => graph.find_node_index(e.as_str()).is_some(),
            None => false,
        };
        if !end_ok {
            return not_found(request, "Le mode Between nécessite un nœud d’arrivée valide.");
        }
    }
    let incoming = request.direction == FlowDirection::Upstream;
    let mut filters: Vec<String> = Vec::new();
    let mut k: usize = 0;
    while k < request.relations.len()
        invariant
            k <= request.relations@.len(),
            filters@.len() == k,
            forall|j: int| 0 <= j < k ==> filters@[j]@ == spec_to_lowercase(request.relations@[j]@),
        decreases request.relations.len() - k,
    {
        filters.push(to_lowercase(request.relations[k].as_str()));
        k = k + 1;
    }
    let limit: usize = if request.max_depth < 1 {
        1
    } else if request.max_depth > 20 {
        20
    } else {
        request.max_depth
    };
    let n = graph.nodes.len();
    let mut dist: Vec<Option<u32>> = Vec::new();
    let mut dep: Vec<usize> = Vec::new();
    let mut prev: Vec<Option<(usize, usize)>> = Vec::new();
    let mut i: usize = 0;
    while i < n
        invariant
            n == graph.nodes@.len(),
            s < n,
            i <= n,
            dist@.len() == i,
            dep@.len() == i,
            prev@.len() == i,
            forall|j: int| 0 <= j < i ==> dist@[j] == (if j == s { Some(0u32) } else { None::<u32> }),
            forall|j: int| 0 <= j < i ==> dep@[j] == 0,
            forall|j: int| 0 <= j < i ==> (#[trigger] prev@[j]) is None,
        decreases n - i,
    {
        dist.push(if i == s { Some(0u32) } else { None });
        dep.push(0);
        prev.push(None);
        i = i + 1;
    }
    let mut queue: Vec<(u32, usize, usize)> = Vec::new();
    queue.push((0u32, 0usize, s));
    let ghost mut last: int = 0;
    let ghost mut first_done: bool = false;
    let ghost mut reached_end: bool = false;
    proof {
        lemma_potential_nonneg(dist@);
        reveal(search_inv);
        assert(dist@[s as int] == Some(0u32));
    }
    loop
        invariant_except_break
            !reached_end,
            !first_done ==> queue@ == seq![(0u32, 0usize, s)],
        invariant
            n == graph.nodes@.len(),
            s < n,
            limit as int == spec_depth_limit(request.max_depth),
            incoming == (request.direction == FlowDirection::Upstream),
            filters@.len() == request.relations@.len(),
            forall|j: int| 0 <= j < filters@.len() ==> filters@[j]@ == spec_to_lowercase(request.relations@[j]@),
            search_inv(*graph, *request, s as int, limit as int, dist@, dep@, prev@, last),
            dist@.len() == n,
            dep@.len() == n,
            prev@.len() == n,
            queue_inv(queue@, n as int, dist@, dep@, last),
            first_done ==> first_step_reached(*graph, *request, dist@),
            potential(dist@) >= 0,
        ensures
            first_done || reached_end,
            reached_end ==> (request.end_node_id is Some && exists|w: int|
                0 <= w < n && canonical(*graph, w) && graph.nodes@[w].id@ == request.end_node_id->0@
                && (#[trigger] dist@[w]) is Some),
        decreases 2 * potential(dist@) + queue@.len(),
    {
        if queue.len() == 0 {
            break;
        }
        let pos = pop_position(graph, &queue);
        let ghost old_q = queue@;
        let (c, d, u) = queue.remove(pos);
        let ghost measure = 2 * potential(dist@) + queue@.len();
        proof {
            lemma_inv_basics(*graph, *request, s as int, limit as int, dist@, dep@, prev@, last);
            if !first_done {
                assert(pos == 0);
                assert(old_q[0] == (0u32, 0usize, s));
            }
            assert(queue_inv(queue@, n as int, dist@, dep@, c as int)) by {
                assert forall|j: int| 0 <= j < queue@.len() implies {
                    let (c2, d2, v2) = #[trigger] queue@[j];
                    &&& (v2 as int) < n
                    &&& dist@[v2 as int] is Some
                    &&& dist@[v2 as int]->0 <= c2
                    &&& (dist@[v2 as int]->0 == c2 ==> dep@[v2 as int] == d2)
                    &&& c2 >= c
                } by {
                    if j < pos {
                        assert(queue@[j] == old_q[j]);
                    } else {
                        assert(queue@[j] == old_q[j + 1]);
                    }
                }
            }
            assert(old_q[pos as int] == (c, d, u));
            lemma_inv_raise(*graph, *request, s as int, limit as int, dist@, dep@, prev@, last, c as int);
            last = c as int;
        }
        let du = dist[u];
        let skip = match du {
            Some(x) => c > x,
            None => true,
        };
        if skip || d >= limit {
            continue;
        }
        proof {
            lemma_inv_reached(*graph, *request, s as int, limit as int, dist@, dep@, prev@, last, u as int);
        }
        match &request.end_node_id {
            Some(e) => {
                if str_equal(e.as_str(), graph.nodes[u].id.as_str()) {
                    proof {
                        reached_end = true;
                        assert(dist@[u as int] is Some);
                    }
                    break;
                }
            },
            None => {},
        }
        let edges = if incoming {
            graph.incoming_edges(graph.nodes[u].id.as_str())
        } else {
            graph.outgoing_edges(graph.nodes[u].id.as_str())
        };
        let mut k: usize = 0;
        while k < edges.len()
            invariant
                n == graph.nodes@.len(),
                s < n,
                (u as int) < n,
                limit as int == spec_depth_limit(request.max_depth),
                incoming == (request.direction == FlowDirection::Upstream),
                filters@.len() == request.relations@.len(),
                forall|j: int| 0 <= j < filters@.len() ==> filters@[j]@ == spec_to_lowercase(request.relations@[j]@),
                search_inv(*graph, *request, s as int, limit as int, dist@, dep@, prev@, c as int),
                dist@.len() == n,
                dep@.len() == n,
                prev@.len() == n,
                queue_inv(queue@, n as int, dist@, dep@, c as int),
                last == c,
                dist@[u as int] == Some(c),
                dep@[u as int] == d,
                (d as int) < (limit as int),
                k <= edges@.len(),
                forall|j: int| 0 <= j < edges@.len() ==> (edges@[j] as int) < graph.edges@.len() && (if incoming {
                    graph.edges@[edges@[j] as int].target_id@ == graph.nodes@[u as int].id@
                } else {
                    graph.edges@[edges@[j] as int].source_id@ == graph.nodes@[u as int].id@
                }),
                2 * potential(dist@) + queue@.len() <= measure,
                potential(dist@) >= 0,
                first_done ==> first_step_reached(*graph, *request, dist@),
                !first_done ==> u == s,
                forall|e2: int| 0 <= e2 < graph.edges@.len() && (if incoming {
                    graph.edges@[e2].target_id@ == graph.nodes@[u as int].id@
                } else {
                    graph.edges@[e2].source_id@ == graph.nodes@[u as int].id@
                }) ==> edges@.contains(e2 as usize),
                !first_done ==> forall|j: int| 0 <= j < k ==> #[trigger] step_reached(*graph, *request, dist@, edges@[j] as int),
            decreases edges.len() - k,
        {
            let ghost before = dist@;
            relax_edge(graph, request, &filters, incoming, edges[k], u, c, d, &mut dist, &mut dep,
                &mut prev, &mut queue, Ghost(s as int), Ghost(limit as int));
            proof {
                if first_done {
                    lemma_first_step_persists(*graph, *request, before, dist@);
                }
                if !first_done {
                    assert forall|j: int| 0 <= j < k + 1 implies #[trigger] step_reached(*graph, *request, dist@, edges@[j] as int) by {
                        if j < k {
                            assert(step_reached(*graph, *request, before, edges@[j] as int));
                            lemma_step_persists(*graph, *request, before, dist@, edges@[j] as int);
                        }
                    }
                }
            }
            k = k + 1;
        }
        proof {
            if !first_done {
                lemma_inv_basics(*graph, *request, s as int, limit as int, dist@, dep@, prev@, last);
                assert forall|e: int| 0 <= e < graph.edges@.len() && #[trigger] starts_at_start(*graph, *request, e)
                    implies step_reached(*graph, *request, dist@, e) by {
                    assert(edges@.contains(e as usize));
                    let j = choose|j: int| 0 <= j < edges@.len() && edges@[j] == e as usize;
                    assert(graph.edges@.len() == graph.edges.len());
                    assert((e as usize) as int == e);
                    assert(edges@[j] as int == e);
                    assert(step_reached(*graph, *request, dist@, edges@[j] as int));
                }
                first_done = true;
            }
        }
    }
    // Choose where the path ends.
    let mut target: Option<usize> = None;
    match &request.end_node_id {
        Some(e) => {
            if let Some(t) = graph.find_node_index(e.as_str()) {
                if dist[t].is_some() {
                    target = Some(t);
                }
            }
        },
        None => {},
    }
    proof {
        if reached_end {
            let e = request.end_node_id->0;
            let w = choose|w: int|
                0 <= w < n && canonical(*graph, w) && graph.nodes@[w].id@ == e@ && (#[trigger] dist@[w]) is Some;
            lemma_first_node_unique(graph.nodes@, e@, w);
            assert(target.is_some());
        }
        lemma_inv_basics(*graph, *request, s as int, limit as int, dist@, dep@, prev@, last);
        assert forall|v: int| 0 <= v < dist@.len() && (#[trigger] dist@[v]) is Some implies dist@[v]->0 <= 1840
            && dep@[v] <= 20 by {
            lemma_inv_reached(*graph, *request, s as int, limit as int, dist@, dep@, prev@, last, v);
        }
    }
    if target.is_none() {
        target = select_terminal(graph, &dist, &dep, incoming, s);
    }
    let t = match target {
        Some(t) => t,
        None => {
            proof {
                lemma_first_step_reached(*graph, *request, s as int, limit as int, dist@, dep@, prev@,
                    last);
            }
            return not_found(
                request,
                "Aucun chemin significatif n’a été trouvé avec ces relations et cette profondeur.",
            );
        },
    };
    build_trace(graph, request, t, s, &dist, &dep, &prev, Ghost(limit as int), Ghost(last))
}

/// Relaxing an edge from a settled node keeps the search invariant.
proof fn lemma_relax_preserves(
    g: ProjectGraph,
    req: FlowTraceRequest,
    s: int,
    limit: int,
    dist: Seq<Option<u32>>,
    dep: Seq<usize>,
    prev: Seq<Option<(usize, usize)>>,
    last: int,
    u: int,
    e: int,
    x: int,
    nc: u32,
    nd: usize,
)
    requires
        search_inv(g, req, s, limit, dist, dep, prev, last),
        0 <= u < g.nodes@.len(),
        (u as usize) as int == u,
        (e as usize) as int == e,
        dist[u] is Some,
        dist[u]->0 == last,
        nd == dep[u] + 1,
        nd <= limit,
        reaches_via(g, req.direction == FlowDirection::Upstream, u, e, x),
        first_node_with_id(g.nodes@, g.nodes@[x].id@, x),
        filter_accepts(req.relations@, g.edges@[e].relation),
        nc == last + spec_relation_weight(g.edges@[e].relation) + spec_node_penalty(g.nodes@[x]),
        nc <= 92 * nd,
        match dist[x] {
            Some(old) => nc < old,
            None => true,
        },
    ensures
        x != s,
        search_inv(
            g,
            req,
            s,
            limit,
            dist.update(x, Some(nc)),
            dep.update(x, nd),
            prev.update(x, Some((u as usize, e as usize))),
            last,
        ),
        cost_of(dist[x]) > nc,
{
    reveal(search_inv);
    assert(spec_relation_weight(g.edges@[e].relation) >= 2);
    assert(spec_node_penalty(g.nodes@[x]) >= 0);
    let dist2 = dist.update(x, Some(nc));
    let dep2 = dep.update(x, nd);
    let prev2 = prev.update(x, Some((u as usize, e as usize)));
    assert(x != u);
    assert forall|v: int| 0 <= v < g.nodes@.len() && (#[trigger] dist2[v]) is Some implies canonical(g, v)
        && dep2[v] <= limit && dist2[v]->0 <= 92 * dep2[v] by {
        if v != x {
            assert(dist[v] is Some);
        }
    }
    // x is not the parent of any reached node: parents are settled at cost <= last < nc.
    assert forall|v: int| 0 <= v < g.nodes@.len() && v != s && (#[trigger] dist2[v]) is Some implies parent_ok(
        g,
        req,
        dist2,
        dep2,
        prev2,
        v,
        last,
    ) by {
        if v == x {
            assert(prev2[v] == Some((u as usize, e as usize)));
            assert(dist2[u] == dist[u]);
            assert(dep2[u] == dep[u]);
            assert(reaches_via(g, req.direction == FlowDirection::Upstream, u, e, v));
            assert(dist2[v]->0 == dist2[u]->0 + spec_relation_weight(g.edges@[e].relation)
                + spec_node_penalty(g.nodes@[v]));
        }
        if v != x {
            assert(dist[v] is Some);
            assert(parent_ok(g, req, dist, dep, prev, v, last));
            let (pu, pe) = prev[v]->0;
            if pu as int == x {
                assert(dist[x]->0 <= last);
            }
            assert(pu as int != x);
        }
    }
}

/// When no node besides the start was reached, the start had no allowed first step.
proof fn lemma_first_step_reached(
    g: ProjectGraph,
    req: FlowTraceRequest,
    s: int,
    limit: int,
    dist: Seq<Option<u32>>,
    dep: Seq<usize>,
    prev: Seq<Option<(usize, usize)>>,
    last: int,
)
    requires
        search_inv(g, req, s, limit, dist, dep, prev, last),
        forall|v: int| 0 <= v < g.nodes@.len() && v != s ==> (#[trigger] dist[v]) is None,
        first_step_reached(g, req, dist),
    ensures
        !has_first_step(g, req),
{
    lemma_inv_basics(g, req, s, limit, dist, dep, prev, last);
    let incoming = req.direction == FlowDirection::Upstream;
    if has_first_step(g, req) {
        let e = choose|e: int| #![trigger g.edges@[e]] {
            &&& 0 <= e < g.edges@.len()
            &&& filter_accepts(req.relations@, g.edges@[e].relation)
            &&& if incoming {
                g.edges@[e].target_id@ == req.start_node_id@ && g.has_node(g.edges@[e].source_id@)
                    && g.edges@[e].source_id@ != req.start_node_id@
            } else {
                g.edges@[e].source_id@ == req.start_node_id@ && g.has_node(g.edges@[e].target_id@)
                    && g.edges@[e].target_id@ != req.start_node_id@
            }
        };
        assert(starts_at_start(g, req, e));
        assert(step_reached(g, req, dist, e));
        let other = far_end(g, req, e);
        let v = g.node_index(other);
        let w = choose|w: int| 0 <= w < g.nodes@.len() && g.nodes@[w].id@ == other;
        lemma_first_index_exists(g.nodes@, other, w);
        assert(first_node_with_id(g.nodes@, other, v));
        assert(dist[v] is Some);
        assert(v != s);
    }
}

/// An id carried by some node has a first position.
proof fn lemma_first_index_exists(nodes: Seq<crate::model::CodeNode>, id: Seq<char>, w: int)
    requires
        0 <= w < nodes.len(),
        nodes[w].id@ == id,
    ensures
        exists|i: int| first_node_with_id(nodes, id, i),
    decreases w,
{
    if forall|j: int| 0 <= j < w ==> nodes[j].id@ != id {
        assert(first_node_with_id(nodes, id, w));
    } else {
        let j = choose|j: int| 0 <= j < w && nodes[j].id@ == id;
        lemma_first_index_exists(nodes, id, j);
    }
}

/// Follows the predecessors from the target back to the start and lays out the path.
fn build_trace(
    graph: &ProjectGraph,
    request: &FlowTraceRequest,
    t: usize,
    s: usize,
    dist: &Vec<Option<u32>>,
    dep: &Vec<usize>,
    prev: &Vec<Option<(usize, usize)>>,
    Ghost(limit): Ghost<int>,
    Ghost(last): Ghost<int>,
) -> (res: FlowTrace)
    requires
        search_inv(*graph, *request, s as int, limit, dist@, dep@, prev@, last),
        limit == spec_depth_limit(request.max_depth),
        (t as int) < graph.nodes@.len(),
        dist@[t as int] is Some,
    ensures
        res.found,
        is_trace_of(*graph, *request, res),
        res.start_node_id == request.start_node_id,
        res.direction@ == spec_direction_name(request.direction),
{
    let incoming = request.direction == FlowDirection::Upstream;
    // Predecessor chain, from the target back to the start.
    let mut back_nodes: Vec<usize> = Vec::new();
    let mut back_edges: Vec<usize> = Vec::new();
    back_nodes.push(t);
    let mut current = t;
    proof {
        lemma_inv_basics(*graph, *request, s as int, limit, dist@, dep@, prev@, last);
    }
    while current != s
        invariant
            search_inv(*graph, *request, s as int, limit, dist@, dep@, prev@, last),
            dist@.len() == graph.nodes@.len(),
            dep@.len() == graph.nodes@.len(),
            prev@.len() == graph.nodes@.len(),
            (current as int) < graph.nodes@.len(),
            dist@[current as int] is Some,
            back_nodes@.len() == back_edges@.len() + 1,
            back_nodes@[0] == t,
            back_nodes@[back_nodes@.len() - 1] == current,
            dep@[t as int] == dep@[current as int] + back_edges@.len(),
            forall|j: int| 0 <= j < back_nodes@.len() ==> (back_nodes@[j] as int) < graph.nodes@.len()
                && dist@[back_nodes@[j] as int] is Some,
            forall|j: int| 0 <= j < back_edges@.len() ==> (#[trigger] back_nodes@[j]) != s
                && prev@[back_nodes@[j] as int] == Some((back_nodes@[j + 1], back_edges@[j])),
            forall|j: int| 0 <= j < back_edges@.len() ==> (back_edges@[j] as int) < graph.edges@.len(),
        decreases dep@[current as int],
    {
        proof {
            lemma_inv_reached(*graph, *request, s as int, limit, dist@, dep@, prev@, last, current as int);
        }
        let (p, e) = match prev[current] {
            Some(pe) => pe,
            None => {
                return not_found(request, "Le chemin trouvé est incomplet.");
            },
        };
        back_nodes.push(p);
        back_edges.push(e);
        current = p;
    }
    let len = back_edges.len();
    proof {
        lemma_inv_basics(*graph, *request, s as int, limit, dist@, dep@, prev@, last);
        lemma_inv_reached(*graph, *request, s as int, limit, dist@, dep@, prev@, last, t as int);
    }
    // Lay the path out from the start.
    let mut nodes: Vec<CodeNode> = Vec::new();
    let mut edges: Vec<CodeEdge> = Vec::new();
    let mut steps: Vec<FlowStep> = Vec::new();
    let mut i: usize = 0;
    while i <= len
        invariant
            search_inv(*graph, *request, s as int, limit, dist@, dep@, prev@, last),
            dist@.len() == graph.nodes@.len(),
            forall|j: int| 0 <= j < back_edges@.len() ==> (back_edges@[j] as int) < graph.edges@.len(),
            len == back_edges@.len(),
            back_nodes@.len() == len + 1,
            back_nodes@[0] == t,
            back_nodes@[len as int] == s,
            len <= limit,
            forall|j: int| 0 <= j < back_nodes@.len() ==> (back_nodes@[j] as int) < graph.nodes@.len()
                && dist@[back_nodes@[j] as int] is Some,
            forall|j: int| 0 <= j < back_edges@.len() ==> (#[trigger] back_nodes@[j]) != s
                && prev@[back_nodes@[j] as int] == Some((back_nodes@[j + 1], back_edges@[j])),
            i <= len + 1,
            nodes@.len() == i,
            steps@.len() == i,
            edges@.len() == if i == 0 { 0 } else { i - 1 },
            forall|j: int| 0 <= j < i ==> (#[trigger] nodes@[j]) == graph.nodes@[back_nodes@[len - j] as int],
            forall|j: int| 0 <= j < edges@.len() ==> (#[trigger] edges@[j]) == graph.edges@[back_edges@[len - 1 - j] as int],
            forall|j: int| 0 <= j < i ==> (#[trigger] steps@[j]).index == j + 1 && steps@[j].node == nodes@[j]
                && steps@[j].cumulative_cost == dist@[back_nodes@[len - j] as int]->0,
            forall|j: int| 0 < j < i ==> (#[trigger] steps@[j]).relation_from_previous is Some
                && steps@[j].relation_from_previous->0@ == edges@[j - 1].relation.spec_name(),
            i > 0 ==> steps@[0].relation_from_previous is None,
        decreases len + 1 - i,
    {
        let v = back_nodes[len - i];
        let cost = match dist[v] {
            Some(c) => c,
            None => 0,
        };
        let relation = if i == 0 {
            None
        } else {
            let e = back_edges[len - i];
            edges.push(graph.edges[e].duplicate());
            Some(String::from_str(graph.edges[e].relation.as_str()))
        };
        let node = graph.nodes[v].duplicate();
        nodes.push(graph.nodes[v].duplicate());
        steps.push(FlowStep { index: i + 1, node, relation_from_previous: relation, cumulative_cost: cost });
        i = i + 1;
    }
    let total = match dist[t] {
        Some(c) => c,
        None => 0,
    };
    let res = FlowTrace {
        found: true,
        direction: direction_name(request.direction),
        start_node_id: request.start_node_id.clone(),
        end_node_id: Some(graph.nodes[t].id.clone()),
        nodes,
        edges,
        steps,
        total_cost: total,
        message: String::from_str(
            "Chemin pondéré construit depuis les relations sémantiques du graphe.",
        ),
    };
    proof {
        lemma_trace_layout(*graph, *request, s as int, limit, dist@, dep@, prev@, last, back_nodes@,
            back_edges@, res);
    }
    res
}

/// The laid-out path satisfies `is_trace_of`.
proof fn lemma_trace_layout(
    g: ProjectGraph,
    req: FlowTraceRequest,
    s: int,
    limit: int,
    dist: Seq<Option<u32>>,
    dep: Seq<usize>,
    prev: Seq<Option<(usize, usize)>>,
    last: int,
    back_nodes: Seq<usize>,
    back_edges: Seq<usize>,
    t: FlowTrace,
)
    requires
        search_inv(g, req, s, limit, dist, dep, prev, last),
        limit == spec_depth_limit(req.max_depth),
        back_nodes.len() == back_edges.len() + 1,
        back_nodes[back_edges.len() as int] == s,
        back_edges.len() <= limit,
        forall|j: int| 0 <= j < back_nodes.len() ==> (back_nodes[j] as int) < g.nodes@.len()
            && dist[back_nodes[j] as int] is Some,
        forall|j: int| 0 <= j < back_edges.len() ==> (#[trigger] back_nodes[j]) != s
            && prev[back_nodes[j] as int] == Some((back_nodes[j + 1], back_edges[j])),
        t.nodes@.len() == back_nodes.len(),
        t.edges@.len() == back_edges.len(),
        t.steps@.len() == back_nodes.len(),
        t.end_node_id == Some(g.nodes@[back_nodes[0] as int].id),
        t.total_cost == dist[back_nodes[0] as int]->0,
        forall|j: int| 0 <= j < t.nodes@.len() ==> (#[trigger] t.nodes@[j]) == g.nodes@[back_nodes[back_edges.len() - j] as int],
        forall|j: int| 0 <= j < t.edges@.len() ==> (#[trigger] t.edges@[j]) == g.edges@[back_edges[back_edges.len() - 1 - j] as int],
        forall|j: int| 0 <= j < t.steps@.len() ==> (#[trigger] t.steps@[j]).index == j + 1 && t.steps@[j].node == t.nodes@[j]
            && t.steps@[j].cumulative_cost == dist[back_nodes[back_edges.len() - j] as int]->0,
        forall|j: int| 0 < j < t.steps@.len() ==> (#[trigger] t.steps@[j]).relation_from_previous is Some
            && t.steps@[j].relation_from_previous->0@ == t.edges@[j - 1].relation.spec_name(),
        t.steps@[0].relation_from_previous is None,
    ensures
        is_trace_of(g, req, t),
{
    let len = back_edges.len() as int;
    let incoming = req.direction == FlowDirection::Upstream;
    lemma_inv_basics(g, req, s, limit, dist, dep, prev, last);
    assert forall|i: int| 0 <= i <= len implies g.has_node(#[trigger] t.nodes@[i].id@)
        && t.nodes@[i] == g.nodes@[g.node_index(t.nodes@[i].id@)] by {
        let v = back_nodes[len - i] as int;
        assert(dist[v] is Some);
        lemma_inv_reached(g, req, s, limit, dist, dep, prev, last, v);
        lemma_first_node_unique(g.nodes@, g.nodes@[v].id@, v);
        assert(0 <= v < g.nodes@.len() && g.nodes@[v].id@ == t.nodes@[i].id@);
    }
    assert forall|i: int| 0 <= i < len implies g.edges@.contains(#[trigger] t.edges@[i])
        && filter_accepts(req.relations@, t.edges@[i].relation)
        && edge_joins(t.edges@[i], t.nodes@[i].id@, t.nodes@[i + 1].id@, incoming) by {
        let jb = len - 1 - i;
        let child = back_nodes[jb] as int;
        assert(back_nodes[jb] != s);
        lemma_inv_reached(g, req, s, limit, dist, dep, prev, last, child);
        let e = back_edges[jb] as int;
        assert(t.edges@[i] == g.edges@[e]);
        assert(g.edges@[e] == g.edges@[e]);
    }
    assert forall|i: int| 0 <= i < len implies (#[trigger] t.steps@[i + 1]).cumulative_cost
        == t.steps@[i].cumulative_cost + spec_relation_weight(t.edges@[i].relation)
            + spec_node_penalty(t.nodes@[i + 1]) by {
        let jb = len - 1 - i;
        let child = back_nodes[jb] as int;
        assert(back_nodes[jb] != s);
        lemma_inv_reached(g, req, s, limit, dist, dep, prev, last, child);
    }
    assert forall|i: int| 0 <= i < len implies (#[trigger] t.steps@[i + 1]).relation_from_previous is Some
        && t.steps@[i + 1].relation_from_previous->0@ == t.edges@[i].relation.spec_name() by {
        assert(0 < i + 1 < t.steps@.len());
    }
    assert(t.nodes@[0].id@ == req.start_node_id@);
    assert(t.steps@[0].cumulative_cost == 0);
}

} // verus!
