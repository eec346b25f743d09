//! Health tracking of RPC nodes and the choice of the node to send a
//! request to.

use vstd::prelude::*;
use crate::text::text_eq;

verus! {

/// Consecutive failures after which a node is taken out of rotation.
pub const MAX_CONSECUTIVE_FAILURES: usize = 3;

/// Average response time assumed for a node that has not answered yet, in
/// milliseconds.
pub const DEFAULT_RESPONSE_TIME_MS: u64 = 1000;

/// What is known of one RPC node.
///
/// The node's health score is a floating-point function of these counters;
/// `health_scored` tells whether it has been computed from them yet (it
/// starts at a neutral value otherwise).
#[derive(Debug)]
pub struct NodeStatus {
    pub url: String,
    /// Response time of the last successful request, in milliseconds.
    pub last_response_time: Option<u64>,
    /// Moving average of response times, in milliseconds.
    pub avg_response_time: u64,
    pub success_count: usize,
    pub fail_count: usize,
    pub consecutive_failures: usize,
    pub is_active: bool,
    pub health_scored: bool,
}

impl Clone for NodeStatus {
    fn clone(&self) -> (copy: Self)
        ensures
            copy == *self,
    {
        NodeStatus {
            url: self.url.clone(),
            last_response_time: self.last_response_time,
            avg_response_time: self.avg_response_time,
            success_count: self.success_count,
            fail_count: self.fail_count,
            consecutive_failures: self.consecutive_failures,
            is_active: self.is_active,
            health_scored: self.health_scored,
        }
    }
}

/// How long node statuses stay fresh before a refresh probes the nodes
/// again, in milliseconds.
pub const REFRESH_INTERVAL_MS: u128 = 60_000;

/// Whether a status refresh is due, `elapsed_ms` after the last one (or
/// after the balancer was made).
pub fn refresh_due(elapsed_ms: u128) -> (due: bool)
    ensures
        due == (elapsed_ms >= REFRESH_INTERVAL_MS),
{
    elapsed_ms >= REFRESH_INTERVAL_MS
}

/// A node as it is first added: no answers yet, active, neutral health.
pub open spec fn fresh_node(url: String) -> NodeStatus {
    NodeStatus {
        url,
        last_response_time: None,
        avg_response_time: DEFAULT_RESPONSE_TIME_MS,
        success_count: 0,
        fail_count: 0,
        consecutive_failures: 0,
        is_active: true,
        health_scored: false,
    }
}

/// The new moving average after an answer in `response_time` ms: the
/// first answer sets it, later ones weigh 30% against the old average.
pub open spec fn next_average(n: NodeStatus, response_time: u64) -> u64 {
    if n.success_count == 0 {
        response_time
    } else {
        ((n.avg_response_time * 7 + response_time * 3) / 10) as u64
    }
}

/// Whether recording a success stays within the integer widths.
pub open spec fn success_fits(n: NodeStatus, response_time: u64) -> bool {
    &&& n.success_count < usize::MAX
    &&& n.success_count > 0 ==> n.avg_response_time * 7 + response_time * 3 <= u64::MAX
}

/// Whether recording a failure stays within the integer widths.
pub open spec fn failure_fits(n: NodeStatus) -> bool {
    n.fail_count < usize::MAX && n.consecutive_failures < usize::MAX
}

/// The node after a successful request answered in `response_time` ms.
pub open spec fn after_success(n: NodeStatus, response_time: u64) -> NodeStatus {
    NodeStatus {
        last_response_time: Some(response_time),
        avg_response_time: next_average(n, response_time),
        success_count: (n.success_count + 1) as usize,
        consecutive_failures: 0,
        health_scored: true,
        ..n
    }
}

/// The node after a failed request: three failures in a row take it out
/// of rotation.
pub open spec fn after_failure(n: NodeStatus) -> NodeStatus {
    NodeStatus {
        fail_count: (n.fail_count + 1) as usize,
        consecutive_failures: (n.consecutive_failures + 1) as usize,
        is_active: n.is_active && n.consecutive_failures + 1 < MAX_CONSECUTIVE_FAILURES,
        health_scored: true,
        ..n
    }
}

/// The node put back into rotation.
pub open spec fn after_reactivate(n: NodeStatus) -> NodeStatus {
    NodeStatus { is_active: true, consecutive_failures: 0, health_scored: true, ..n }
}

impl NodeStatus {
    /// A fresh record for the node at `url`.
    pub fn new(url: String) -> (node: Self)
        ensures
            node == fresh_node(url),
    {
        NodeStatus {
            url,
            last_response_time: None,
            avg_response_time: DEFAULT_RESPONSE_TIME_MS,
            success_count: 0,
            fail_count: 0,
            consecutive_failures: 0,
            is_active: true,
            health_scored: false,
        }
    }

    /// Marks the health score as computed from the current counters.
    fn update_health_score(&mut self)
        ensures
            *final(self) == (NodeStatus { health_scored: true, ..*old(self) }),
    {
        self.health_scored = true;
    }

    /// Records a successful request answered in `response_time` ms.
    pub fn record_success(&mut self, response_time: u64)
        requires
            success_fits(*old(self), response_time),
        ensures
            *final(self) == after_success(*old(self), response_time),
    {
        self.last_response_time = Some(response_time);
        if self.success_count == 0 {
            self.avg_response_time = response_time;
        } else {
            self.avg_response_time = (self.avg_response_time * 7 + response_time * 3) / 10;
        }
        self.success_count += 1;
        self.consecutive_failures = 0;
        self.update_health_score();
    }

    /// Records a failed request; the third failure in a row takes the node
    /// out of rotation.
    pub fn record_failure(&mut self)
        requires
            failure_fits(*old(self)),
        ensures
            *final(self) == after_failure(*old(self)),
    {
        self.fail_count += 1;
        self.consecutive_failures += 1;
        if self.consecutive_failures >= MAX_CONSECUTIVE_FAILURES {
            self.is_active = false;
        }
        self.update_health_score();
    }

    /// Puts the node back into rotation with its failure streak cleared.
    pub fn reactivate(&mut self)
        ensures
            *final(self) == after_reactivate(*old(self)),
    {
        self.is_active = true;
        self.consecutive_failures = 0;
        self.update_health_score();
    }
}

/// After a later answer, the moving average lies between the old average
/// and the new response time.
pub proof fn law_average_between(n: NodeStatus, response_time: u64)
    requires
        n.success_count > 0,
        success_fits(n, response_time),
    ensures
        next_average(n, response_time) >= if n.avg_response_time <= response_time { n.avg_response_time } else { response_time },
        next_average(n, response_time) <= if n.avg_response_time <= response_time { response_time } else { n.avg_response_time },
{
    let a = n.avg_response_time as int;
    let r = response_time as int;
    let lo = if a <= r { a } else { r };
    let hi = if a <= r { r } else { a };
    assert(10 * lo <= a * 7 + r * 3 <= 10 * hi);
    vstd::arithmetic::div_mod::lemma_div_is_ordered(10 * lo, a * 7 + r * 3, 10);
    vstd::arithmetic::div_mod::lemma_div_is_ordered(a * 7 + r * 3, 10 * hi, 10);
    vstd::arithmetic::div_mod::lemma_div_multiples_vanish(lo, 10);
    vstd::arithmetic::div_mod::lemma_div_multiples_vanish(hi, 10);
}

/// Whether `url` names node `i` of `nodes`.
pub open spec fn has_url(nodes: Seq<NodeStatus>, i: int, url: Seq<char>) -> bool {
    0 <= i < nodes.len() && nodes[i].url@ == url
}

/// Whether some node in `nodes` has the url `url`.
pub open spec fn contains_url(nodes: Seq<NodeStatus>, url: Seq<char>) -> bool {
    exists|i: int| has_url(nodes, i, url)
}

/// No two nodes share a url.
pub open spec fn distinct_urls(nodes: Seq<NodeStatus>) -> bool {
    forall|i: int, j: int| 0 <= i < nodes.len() && 0 <= j < nodes.len() && i != j ==> nodes[i].url@ != nodes[j].url@
}

/// The nodes in rotation, in order.
pub open spec fn active_nodes(nodes: Seq<NodeStatus>) -> Seq<NodeStatus> {
    nodes.filter(|n: NodeStatus| n.is_active)
}

/// Node `i` is in rotation, no node in rotation is faster, and every node
/// in rotation before it is slower.
pub open spec fn is_fastest_at(nodes: Seq<NodeStatus>, i: int) -> bool {
    &&& 0 <= i < nodes.len()
    &&& nodes[i].is_active
    &&& forall|j: int| 0 <= j < nodes.len() && nodes[j].is_active
        ==> nodes[i].avg_response_time <= nodes[j].avg_response_time
    &&& forall|j: int| 0 <= j < i && nodes[j].is_active
        ==> nodes[i].avg_response_time < nodes[j].avg_response_time
}

/// Every built-in url is known.
pub open spec fn defaults_known(nodes: Seq<NodeStatus>, defaults: Seq<String>) -> bool {
    forall|k: int| 0 <= k < defaults.len() ==> contains_url(nodes, #[trigger] defaults[k]@)
}

/// The nodes after a probe of `url`: `Some(ms)` when it answered in `ms`
/// ms, and the node with that url records the success; `None` when it did
/// not answer, and the node records a failure. An unknown url changes
/// nothing.
pub open spec fn with_probe(nodes: Seq<NodeStatus>, url: Seq<char>, outcome: Option<u64>) -> Seq<NodeStatus> {
    if contains_url(nodes, url) {
        let i = choose|i: int| has_url(nodes, i, url);
        match outcome {
            Some(ms) => nodes.update(i, after_success(nodes[i], ms)),
            None => nodes.update(i, after_failure(nodes[i])),
        }
    } else {
        nodes
    }
}

/// The nodes after the probes `results`, recorded in order.
pub open spec fn with_probes(nodes: Seq<NodeStatus>, results: Seq<(String, Option<u64>)>) -> Seq<NodeStatus>
    decreases results.len(),
{
    if results.len() == 0 {
        nodes
    } else {
        let earlier = with_probes(nodes, results.drop_last());
        with_probe(earlier, results.last().0@, results.last().1)
    }
}

/// Whether recording a probe of `url` stays within the integer widths.
pub open spec fn probe_step_fits(nodes: Seq<NodeStatus>, url: Seq<char>, outcome: Option<u64>) -> bool {
    forall|i: int| has_url(nodes, i, url) ==> match outcome {
        Some(ms) => success_fits(nodes[i], ms),
        None => failure_fits(nodes[i]),
    }
}

/// Whether recording each of the probes `results` in order stays within the
/// integer widths.
pub open spec fn probes_fit(nodes: Seq<NodeStatus>, results: Seq<(String, Option<u64>)>) -> bool
    decreases results.len(),
{
    results.len() == 0 || {
        &&& probes_fit(nodes, results.drop_last())
        &&& probe_step_fits(with_probes(nodes, results.drop_last()), results.last().0@, results.last().1)
    }
}

/// If all probes fit, so do the first `k`.
proof fn lemma_probes_fit_prefix(nodes: Seq<NodeStatus>, results: Seq<(String, Option<u64>)>, k: int)
    requires
        probes_fit(nodes, results),
        0 <= k <= results.len(),
    ensures
        probes_fit(nodes, results.take(k)),
    decreases results.len(),
{
    if k == results.len() {
        assert(results.take(k) =~= results);
    } else {
        lemma_probes_fit_prefix(nodes, results.drop_last(), k);
        assert(results.drop_last().take(k) =~= results.take(k));
    }
}

/// The node a choice settles on: the one at position `choice` among the
/// nodes in rotation (the first if `choice` is out of range); with none in
/// rotation the first built-in node, or, without built-in nodes, the node
/// chosen before.
pub open spec fn selection(nodes: Seq<NodeStatus>, defaults: Seq<String>, previous: Option<String>, choice: nat) -> Option<String> {
    let act = active_nodes(nodes);
    if act.len() > 0 {
        Some(act[if choice < act.len() { choice as int } else { 0 }].url)
    } else if defaults.len() > 0 {
        Some(defaults[0])
    } else {
        previous
    }
}

/// The nodes after a choice: unchanged while some node is in rotation;
/// otherwise the first built-in node is put back into rotation.
pub open spec fn nodes_after_selection(nodes: Seq<NodeStatus>, defaults: Seq<String>) -> Seq<NodeStatus> {
    if active_nodes(nodes).len() == 0 && defaults.len() > 0 && contains_url(nodes, defaults[0]@) {
        let i = choose|i: int| has_url(nodes, i, defaults[0]@);
        nodes.update(i, after_reactivate(nodes[i]))
    } else {
        nodes
    }
}

/// Errors of a request routed through the balancer.
#[derive(Clone, Copy, Debug, PartialEq, Eq, Structural)]
pub enum BalancerError {
    /// No node could be chosen for the request.
    NoNodeAvailable,
    /// After the first node failed, no node could be chosen for a retry.
    NoBackupAvailable,
    /// After the first node failed, the only node left was that node.
    AllNodesUnavailable,
}

/// The load balancer: the known nodes (no url twice), the built-in nodes
/// to fall back on, and the node chosen last.
#[derive(Debug)]
pub struct LoadBalancer {
    nodes: Vec<NodeStatus>,
    default_nodes: Vec<String>,
    active_node: Option<String>,
}

impl LoadBalancer {
    /// The known nodes, in the order they were added.
    pub closed spec fn nodes_view(&self) -> Seq<NodeStatus> {
        self.nodes@
    }

    /// The built-in nodes, in order.
    pub closed spec fn default_nodes_view(&self) -> Seq<String> {
        self.default_nodes@
    }

    /// The node chosen last.
    pub closed spec fn active_node_view(&self) -> Option<String> {
        self.active_node
    }

    /// The balancer's invariant: no url is known twice, and every built-in
    /// node is known.
    pub open spec fn wf(&self) -> bool {
        &&& distinct_urls(self.nodes_view())
        &&& defaults_known(self.nodes_view(), self.default_nodes_view())
    }

    /// The index of the node with url `url`.
    fn find_node(&self, url: &str) -> (found: Option<usize>)
        ensures
            match found {
                Some(i) => has_url(self.nodes@, i as int, url@),
                None => !contains_url(self.nodes@, url@),
            },
    {
        let n = self.nodes.len();
        for i in 0..n
            invariant
                n == self.nodes@.len(),
                forall|k: int| 0 <= k < i ==> !has_url(self.nodes@, k, url@),
        {
            if text_eq(self.nodes[i].url.as_str(), url) {
                return Some(i);
            }
        }
        None
    }

    /// A balancer that knows the built-in nodes, each with a fresh record.
    pub fn new(default_nodes: Vec<String>) -> (balancer: Self)
        ensures
            balancer.wf(),
            balancer.default_nodes_view() == default_nodes@,
            balancer.active_node_view() is None,
            forall|u: Seq<char>| contains_url(balancer.nodes_view(), u)
                <==> exists|k: int| 0 <= k < default_nodes@.len() && default_nodes@[k]@ == u,
            forall|i: int| 0 <= i < balancer.nodes_view().len()
                ==> balancer.nodes_view()[i] == fresh_node(balancer.nodes_view()[i].url),
    {
        let mut balancer = LoadBalancer { nodes: Vec::new(), default_nodes: Vec::new(), active_node: None };
        let n = default_nodes.len();
        for k in 0..n
            invariant
                n == default_nodes@.len(),
                balancer.wf(),
                balancer.active_node is None,
                balancer.default_nodes@.len() == 0,
                forall|u: Seq<char>| contains_url(balancer.nodes@, u)
                    <==> exists|j: int| 0 <= j < k && default_nodes@[j]@ == u,
                forall|i: int| 0 <= i < balancer.nodes@.len() ==> balancer.nodes@[i] == fresh_node(balancer.nodes@[i].url),
        {
            let ghost before = balancer.nodes@;
            let url = default_nodes[k].clone();
            balancer.add_node(url);
            proof {
                lemma_add_url_contents(before, balancer.nodes@, default_nodes@[k as int]);
                assert forall|u: Seq<char>| contains_url(balancer.nodes@, u)
                    <==> exists|j: int| 0 <= j < k + 1 && default_nodes@[j]@ == u by {
                    if u == default_nodes@[k as int]@ {
                        assert(default_nodes@[k as int]@ == u);
                    } else if exists|j: int| 0 <= j < k + 1 && default_nodes@[j]@ == u {
                        let j = choose|j: int| 0 <= j < k + 1 && default_nodes@[j]@ == u;
                        assert(0 <= j < k && default_nodes@[j]@ == u);
                    }
                }
            }
        }
        balancer.default_nodes = default_nodes;
        assert forall|k: int| 0 <= k < balancer.default_nodes@.len()
            implies contains_url(balancer.nodes@, #[trigger] balancer.default_nodes@[k]@) by {
            assert(0 <= k < n && default_nodes@[k]@ == balancer.default_nodes@[k]@);
        }
        balancer
    }

    /// Adds a fresh record for `node_url` unless the url is already known.
    pub fn add_node(&mut self, node_url: String)
        requires
            old(self).wf(),
        ensures
            final(self).wf(),
            final(self).default_nodes_view() == old(self).default_nodes_view(),
            final(self).active_node_view() == old(self).active_node_view(),
            contains_url(old(self).nodes_view(), node_url@) ==> final(self).nodes_view() == old(self).nodes_view(),
            !contains_url(old(self).nodes_view(), node_url@)
                ==> final(self).nodes_view() == old(self).nodes_view().push(fresh_node(node_url)),
    {
        match self.find_node(node_url.as_str()) {
            Some(_) => {},
            None => {
                let node = NodeStatus::new(node_url);
                let ghost before = self.nodes@;
                self.nodes.push(node);
                assert forall|k: int| 0 <= k < self.default_nodes@.len()
                    implies contains_url(self.nodes@, #[trigger] self.default_nodes@[k]@) by {
                    assert(contains_url(old(self).nodes_view(), old(self).default_nodes_view()[k]@));
                    let i = choose|i: int| has_url(before, i, self.default_nodes@[k]@);
                    assert(has_url(self.nodes@, i, self.default_nodes@[k]@));
                }
                assert forall|i: int, j: int| 0 <= i < self.nodes@.len() && 0 <= j < self.nodes@.len() && i != j
                    implies self.nodes@[i].url@ != self.nodes@[j].url@ by {
                    if i == self.nodes@.len() - 1 {
                        assert(!has_url(old(self).nodes@, j, node_url@));
                    } else if j == self.nodes@.len() - 1 {
                        assert(!has_url(old(self).nodes@, i, node_url@));
                    }
                }
            },
        }
    }

    /// Adds a fresh record for each url of `node_urls` not yet known.
    pub fn add_nodes(&mut self, node_urls: Vec<String>)
        requires
            old(self).wf(),
        ensures
            final(self).wf(),
            final(self).default_nodes_view() == old(self).default_nodes_view(),
            final(self).active_node_view() == old(self).active_node_view(),
            old(self).nodes_view().len() <= final(self).nodes_view().len(),
            forall|i: int| 0 <= i < old(self).nodes_view().len() ==> final(self).nodes_view()[i] == old(self).nodes_view()[i],
            forall|u: Seq<char>| contains_url(final(self).nodes_view(), u)
                <==> (contains_url(old(self).nodes_view(), u)
                    || exists|k: int| 0 <= k < node_urls@.len() && node_urls@[k]@ == u),
    {
        let n = node_urls.len();
        for k in 0..n
            invariant
                n == node_urls@.len(),
                self.wf(),
                self.default_nodes@ == old(self).default_nodes@,
                self.active_node == old(self).active_node,
                self.default_nodes_view() == old(self).default_nodes_view(),
                old(self).nodes@.len() <= self.nodes@.len(),
                forall|i: int| 0 <= i < old(self).nodes@.len() ==> self.nodes@[i] == old(self).nodes@[i],
                forall|u: Seq<char>| contains_url(self.nodes@, u)
                    <==> (contains_url(old(self).nodes@, u) || exists|j: int| 0 <= j < k && node_urls@[j]@ == u),
        {
            let ghost before = self.nodes@;
            let url = node_urls[k].clone();
            self.add_node(url);
            proof {
                lemma_add_url_contents(before, self.nodes@, node_urls@[k as int]);
                assert forall|u: Seq<char>| contains_url(self.nodes@, u)
                    <==> (contains_url(old(self).nodes@, u) || exists|j: int| 0 <= j < k + 1 && node_urls@[j]@ == u) by {
                    if u == node_urls@[k as int]@ {
                        assert(node_urls@[k as int]@ == u);
                    } else if exists|j: int| 0 <= j < k + 1 && node_urls@[j]@ == u {
                        let j = choose|j: int| 0 <= j < k + 1 && node_urls@[j]@ == u;
                        assert(0 <= j < k && node_urls@[j]@ == u);
                    }
                }
            }
        }
    }

    /// Records of all known nodes, in the order they were added.
    pub fn get_all_nodes(&self) -> (all: Vec<NodeStatus>)
        ensures
            all@ == self.nodes_view(),
    {
        let mut all: Vec<NodeStatus> = Vec::new();
        let n = self.nodes.len();
        for i in 0..n
            invariant
                n == self.nodes@.len(),
                all@ == self.nodes@.subrange(0, i as int),
        {
            all.push(self.nodes[i].clone());
            assert(self.nodes@.subrange(0, i + 1) =~= self.nodes@.subrange(0, i as int).push(self.nodes@[i as int]));
        }
        assert(self.nodes@.subrange(0, n as int) =~= self.nodes@);
        all
    }

    /// Records of the nodes in rotation, in the order they were added.
    pub fn get_active_nodes(&self) -> (active: Vec<NodeStatus>)
        ensures
            active@ == active_nodes(self.nodes_view()),
    {
        let mut active: Vec<NodeStatus> = Vec::new();
        let n = self.nodes.len();
        for i in 0..n
            invariant
                n == self.nodes@.len(),
                active@ == active_nodes(self.nodes@.subrange(0, i as int)),
        {
            let ghost prefix = self.nodes@.subrange(0, i + 1);
            assert(prefix.drop_last() =~= self.nodes@.subrange(0, i as int));
            assert(prefix.last() == self.nodes@[i as int]);
            reveal_with_fuel(Seq::<_>::filter, 1);
            if self.nodes[i].is_active {
                active.push(self.nodes[i].clone());
            }
        }
        assert(self.nodes@.subrange(0, n as int) =~= self.nodes@);
        active
    }

    /// Records the probes of a status refresh, in the order of `results`:
    /// a node that answered (`Some(ms)`) records a success, a node that did
    /// not (`None`) records a failure; probes of unknown urls are ignored.
    pub fn record_probe_results(&mut self, results: &Vec<(String, Option<u64>)>)
        requires
            old(self).wf(),
            probes_fit(old(self).nodes_view(), results@),
        ensures
            final(self).wf(),
            final(self).default_nodes_view() == old(self).default_nodes_view(),
            final(self).active_node_view() == old(self).active_node_view(),
            final(self).nodes_view() == with_probes(old(self).nodes_view(), results@),
    {
        let n = results.len();
        for k in 0..n
            invariant
                n == results@.len(),
                self.wf(),
                self.default_nodes_view() == old(self).default_nodes_view(),
                self.active_node_view() == old(self).active_node_view(),
                probes_fit(old(self).nodes_view(), results@),
                self.nodes_view() == with_probes(old(self).nodes_view(), results@.take(k as int)),
        {
            let ghost before = self.nodes_view();
            proof {
                lemma_probes_fit_prefix(old(self).nodes_view(), results@, k + 1);
                assert(results@.take(k + 1).drop_last() =~= results@.take(k as int));
                assert(results@.take(k + 1).last() == results@[k as int]);
            }
            let url = results[k].0.as_str();
            let outcome = results[k].1;
            match outcome {
                Some(ms) => self.record_node_success(url, ms),
                None => self.record_node_failure(url),
            }
            proof {
                if contains_url(before, url@) {
                    let i = choose|i: int| has_url(before, i, url@);
                    assert(has_url(before, i, url@));
                }
                assert(self.nodes_view() == with_probe(before, url@, outcome));
            }
        }
        assert(results@.take(n as int) =~= results@);
    }

    /// Whether recording the probes `results` in order stays within the
    /// integer widths (see `probes_fit`): the condition under which
    /// `record_probe_results` may be called.
    pub fn probe_results_fit(&self, results: &Vec<(String, Option<u64>)>) -> (fits: bool)
        requires
            self.wf(),
        ensures
            fits == probes_fit(self.nodes_view(), results@),
    {
        let mut copy = LoadBalancer { nodes: self.get_all_nodes(), default_nodes: Vec::new(), active_node: None };
        assert(copy.wf());
        let n = results.len();
        for k in 0..n
            invariant
                n == results@.len(),
                copy.wf(),
                copy.nodes_view() == with_probes(self.nodes_view(), results@.take(k as int)),
                probes_fit(self.nodes_view(), results@.take(k as int)),
        {
            let ghost before = copy.nodes_view();
            proof {
                assert(results@.take(k + 1).drop_last() =~= results@.take(k as int));
                assert(results@.take(k + 1).last() == results@[k as int]);
            }
            let url = results[k].0.as_str();
            let outcome = results[k].1;
            let fits_step = match copy.find_node(url) {
                Some(i) => {
                    proof {
                        assert forall|j: int| has_url(before, j, url@) implies j == i by {}
                    }
                    match outcome {
                        Some(ms) => {
                            let node = &copy.nodes[i];
                            node.success_count < usize::MAX && (node.success_count == 0
                                || node.avg_response_time as u128 * 7 + ms as u128 * 3 <= u64::MAX as u128)
                        },
                        None => copy.nodes[i].fail_count < usize::MAX && copy.nodes[i].consecutive_failures < usize::MAX,
                    }
                },
                None => true,
            };
            if !fits_step {
                proof {
                    assert(!probe_step_fits(before, url@, outcome));
                    assert(!probes_fit(self.nodes_view(), results@.take(k + 1)));
                    if probes_fit(self.nodes_view(), results@) {
                        lemma_probes_fit_prefix(self.nodes_view(), results@, k + 1);
                    }
                }
                return false;
            }
            match outcome {
                Some(ms) => copy.record_node_success(url, ms),
                None => copy.record_node_failure(url),
            }
            proof {
                if contains_url(before, url@) {
                    let i = choose|i: int| has_url(before, i, url@);
                    assert(has_url(before, i, url@));
                }
                assert(copy.nodes_view() == with_probe(before, url@, outcome));
            }
        }
        assert(results@.take(n as int) =~= results@);
        true
    }

    /// Records a successful request to `node_url`, answered in
    /// `response_time` ms; an unknown url is ignored.
    pub fn record_node_success(&mut self, node_url: &str, response_time: u64)
        requires
            old(self).wf(),
            forall|i: int| has_url(old(self).nodes_view(), i, node_url@)
                ==> success_fits(old(self).nodes_view()[i], response_time),
        ensures
            final(self).wf(),
            final(self).default_nodes_view() == old(self).default_nodes_view(),
            final(self).active_node_view() == old(self).active_node_view(),
            !contains_url(old(self).nodes_view(), node_url@) ==> final(self).nodes_view() == old(self).nodes_view(),
            forall|i: int| has_url(old(self).nodes_view(), i, node_url@)
                ==> final(self).nodes_view() == old(self).nodes_view().update(i, after_success(old(self).nodes_view()[i], response_time)),
    {
        match self.find_node(node_url) {
            Some(i) => {
                let mut node = self.nodes[i].clone();
                node.record_success(response_time);
                self.nodes.set(i, node);
                proof {
                    self.lemma_update_keeps_wf(old(self).nodes@, i as int);
                    assert forall|j: int| has_url(old(self).nodes@, j, node_url@) implies j == i by {}
                }
            },
            None => {},
        }
    }

    /// Records a failed request to `node_url`; an unknown url is ignored.
    pub fn record_node_failure(&mut self, node_url: &str)
        requires
            old(self).wf(),
            forall|i: int| has_url(old(self).nodes_view(), i, node_url@) ==> failure_fits(old(self).nodes_view()[i]),
        ensures
            final(self).wf(),
            final(self).default_nodes_view() == old(self).default_nodes_view(),
            final(self).active_node_view() == old(self).active_node_view(),
            !contains_url(old(self).nodes_view(), node_url@) ==> final(self).nodes_view() == old(self).nodes_view(),
            forall|i: int| has_url(old(self).nodes_view(), i, node_url@)
                ==> final(self).nodes_view() == old(self).nodes_view().update(i, after_failure(old(self).nodes_view()[i])),
    {
        match self.find_node(node_url) {
            Some(i) => {
                let mut node = self.nodes[i].clone();
                node.record_failure();
                self.nodes.set(i, node);
                proof {
                    self.lemma_update_keeps_wf(old(self).nodes@, i as int);
                    assert forall|j: int| has_url(old(self).nodes@, j, node_url@) implies j == i by {}
                }
            },
            None => {},
        }
    }

    /// Replacing a node by a record with the same url keeps the invariant.
    proof fn lemma_update_keeps_wf(&self, before: Seq<NodeStatus>, i: int)
        requires
            0 <= i < before.len(),
            distinct_urls(before),
            defaults_known(before, self.default_nodes@),
            self.nodes@.len() == before.len(),
            self.nodes@[i].url == before[i].url,
            forall|j: int| 0 <= j < before.len() && j != i ==> self.nodes@[j] == before[j],
        ensures
            self.wf(),
    {
        assert forall|j: int| 0 <= j < before.len() implies self.nodes@[j].url@ == before[j].url@ by {}
        assert forall|a: int, b: int|
            0 <= a < self.nodes_view().len() && 0 <= b < self.nodes_view().len() && a != b
            implies self.nodes_view()[a].url@ != self.nodes_view()[b].url@ by {
            assert(self.nodes@[a].url@ == before[a].url@);
            assert(self.nodes@[b].url@ == before[b].url@);
        }
        assert forall|k: int| 0 <= k < self.default_nodes_view().len()
            implies contains_url(self.nodes_view(), #[trigger] self.default_nodes_view()[k]@) by {
            assert(contains_url(before, self.default_nodes@[k]@));
            let j = choose|j: int| has_url(before, j, self.default_nodes@[k]@);
            assert(has_url(self.nodes_view(), j, self.default_nodes_view()[k]@));
        }
    }

    /// The active node with the lowest average response time, the first
    /// such in order; `None` when no node is in rotation.
    pub fn select_fastest_node(&self) -> (fastest: Option<String>)
        ensures
            match fastest {
                Some(u) => exists|i: int| has_url(self.nodes_view(), i, u@) && #[trigger] is_fastest_at(self.nodes_view(), i),
                None => forall|j: int| 0 <= j < self.nodes_view().len() ==> !self.nodes_view()[j].is_active,
            },
    {
        let n = self.nodes.len();
        let mut best: Option<usize> = None;
        for i in 0..n
            invariant
                n == self.nodes@.len(),
                match best {
                    Some(b) => {
                        &&& b < i
                        &&& self.nodes@[b as int].is_active
                        &&& forall|j: int| 0 <= j < i && self.nodes@[j].is_active
                            ==> self.nodes@[b as int].avg_response_time <= self.nodes@[j].avg_response_time
                        &&& forall|j: int| 0 <= j < b && self.nodes@[j].is_active
                            ==> self.nodes@[b as int].avg_response_time < self.nodes@[j].avg_response_time
                    },
                    None => forall|j: int| 0 <= j < i ==> !self.nodes@[j].is_active,
                },
        {
            if self.nodes[i].is_active {
                match best {
                    Some(b) => {
                        if self.nodes[i].avg_response_time < self.nodes[b].avg_response_time {
                            best = Some(i);
                        }
                    },
                    None => {
                        best = Some(i);
                    },
                }
            }
        }
        match best {
            Some(b) => {
                let u = self.nodes[b].url.clone();
                assert(has_url(self.nodes_view(), b as int, u@));
                assert(is_fastest_at(self.nodes_view(), b as int));
                Some(u)
            },
            None => None,
        }
    }

    /// Puts the first built-in node that is known back into rotation and
    /// makes it the chosen node.
    fn try_recover_default_node(&mut self)
        requires
            old(self).wf(),
        ensures
            final(self).wf(),
            final(self).default_nodes_view() == old(self).default_nodes_view(),
            old(self).default_nodes_view().len() == 0 ==> *final(self) == *old(self),
            old(self).default_nodes_view().len() > 0 ==> {
                let d = old(self).default_nodes_view()[0];
                &&& final(self).active_node_view() == Some(d)
                &&& forall|i: int| has_url(old(self).nodes_view(), i, d@)
                    ==> final(self).nodes_view() == old(self).nodes_view().update(i, after_reactivate(old(self).nodes_view()[i]))
            },
    {
        let n = self.default_nodes.len();
        if n == 0 {
            return;
        }
        proof {
            assert(contains_url(self.nodes@, self.default_nodes@[0]@));
        }
        match self.find_node(self.default_nodes[0].as_str()) {
            Some(i) => {
                let mut node = self.nodes[i].clone();
                node.reactivate();
                self.nodes.set(i, node);
                self.active_node = Some(self.default_nodes[0].clone());
                proof {
                    self.lemma_update_keeps_wf(old(self).nodes@, i as int);
                    assert forall|j: int| has_url(old(self).nodes@, j, self.default_nodes@[0]@) implies j == i by {}
                }
            },
            None => {},
        }
    }

    /// Chooses the node for the next request (see `selection`); `choice`
    /// is the outcome of the health-weighted random draw among the nodes in
    /// rotation. Returns the chosen node, which becomes the active node.
    pub fn select_best_node(&mut self, choice: usize) -> (chosen: Option<String>)
        requires
            old(self).wf(),
        ensures
            final(self).wf(),
            final(self).default_nodes_view() == old(self).default_nodes_view(),
            chosen == selection(old(self).nodes_view(), old(self).default_nodes_view(), old(self).active_node_view(), choice as nat),
            final(self).active_node_view() == chosen,
            final(self).nodes_view() == nodes_after_selection(old(self).nodes_view(), old(self).default_nodes_view()),
    {
        let active = self.get_active_nodes();
        if active.len() == 0 {
            proof {
                if self.default_nodes@.len() > 0 {
                    assert(contains_url(self.nodes@, self.default_nodes@[0]@));
                    let i = choose|i: int| has_url(self.nodes@, i, self.default_nodes@[0]@);
                    assert(has_url(self.nodes@, i, self.default_nodes@[0]@));
                }
            }
            self.try_recover_default_node();
            return self.active_node.clone();
        }
        let k = if choice < active.len() { choice } else { 0 };
        self.active_node = Some(active[k].url.clone());
        self.active_node.clone()
    }

    /// Puts every node that is out of rotation back into it (the start of
    /// a status refresh).
    pub fn reactivate_inactive_nodes(&mut self)
        requires
            old(self).wf(),
        ensures
            final(self).wf(),
            final(self).default_nodes_view() == old(self).default_nodes_view(),
            final(self).active_node_view() == old(self).active_node_view(),
            final(self).nodes_view().len() == old(self).nodes_view().len(),
            forall|i: int| 0 <= i < old(self).nodes_view().len() ==> final(self).nodes_view()[i] == if old(self).nodes_view()[i].is_active {
                old(self).nodes_view()[i]
            } else {
                after_reactivate(old(self).nodes_view()[i])
            },
    {
        let n = self.nodes.len();
        for i in 0..n
            invariant
                n == self.nodes@.len(),
                n == old(self).nodes@.len(),
                self.default_nodes@ == old(self).default_nodes@,
                self.active_node == old(self).active_node,
                self.wf(),
                forall|j: int| 0 <= j < n ==> self.nodes@[j].url == old(self).nodes@[j].url,
                forall|j: int| i <= j < n ==> self.nodes@[j] == old(self).nodes@[j],
                forall|j: int| 0 <= j < i ==> self.nodes@[j] == if old(self).nodes@[j].is_active {
                    old(self).nodes@[j]
                } else {
                    after_reactivate(old(self).nodes@[j])
                },
        {
            if !self.nodes[i].is_active {
                let ghost before = self.nodes@;
                let mut node = self.nodes[i].clone();
                node.reactivate();
                self.nodes.set(i, node);
                proof {
                    self.lemma_update_keeps_wf(before, i as int);
                }
            }
        }
    }

    /// Chooses the node for a request (see `selection`); fails when none
    /// can be chosen.
    pub fn begin_request(&mut self, choice: usize) -> (node: Result<String, BalancerError>)
        requires
            old(self).wf(),
        ensures
            final(self).wf(),
            final(self).default_nodes_view() == old(self).default_nodes_view(),
            final(self).nodes_view() == nodes_after_selection(old(self).nodes_view(), old(self).default_nodes_view()),
            node == match selection(old(self).nodes_view(), old(self).default_nodes_view(), old(self).active_node_view(), choice as nat) {
                Some(u) => Ok::<String, BalancerError>(u),
                None => Err(BalancerError::NoNodeAvailable),
            },
            final(self).active_node_view() == selection(old(self).nodes_view(), old(self).default_nodes_view(), old(self).active_node_view(), choice as nat),
    {
        match self.select_best_node(choice) {
            Some(u) => Ok(u),
            None => Err(BalancerError::NoNodeAvailable),
        }
    }

    /// After a request to `failed` failed (and the failure was recorded):
    /// chooses a backup node (see `selection`), refusing the failed node
    /// itself.
    pub fn fail_over(&mut self, failed: &str, choice: usize) -> (backup: Result<String, BalancerError>)
        requires
            old(self).wf(),
        ensures
            final(self).wf(),
            final(self).default_nodes_view() == old(self).default_nodes_view(),
            final(self).nodes_view() == nodes_after_selection(old(self).nodes_view(), old(self).default_nodes_view()),
            final(self).active_node_view() == selection(old(self).nodes_view(), old(self).default_nodes_view(), old(self).active_node_view(), choice as nat),
            backup == match selection(old(self).nodes_view(), old(self).default_nodes_view(), old(self).active_node_view(), choice as nat) {
                Some(u) => if u@ == failed@ {
                    Err::<String, BalancerError>(BalancerError::AllNodesUnavailable)
                } else {
                    Ok(u)
                },
                None => Err(BalancerError::NoBackupAvailable),
            },
    {
        match self.select_best_node(choice) {
            None => Err(BalancerError::NoBackupAvailable),
            Some(u) => {
                if text_eq(u.as_str(), failed) {
                    Err(BalancerError::AllNodesUnavailable)
                } else {
                    Ok(u)
                }
            },
        }
    }
}

/// The balancer only hands out nodes in rotation: the node at any
/// position of the rotation (the one `select_best_node` chooses) is an
/// active, known node.
pub proof fn law_selected_node_in_rotation(nodes: Seq<NodeStatus>, choice: nat)
    requires
        active_nodes(nodes).len() > 0,
    ensures
        ({
            let act = active_nodes(nodes);
            let k = if choice < act.len() { choice as int } else { 0 };
            act[k].is_active && contains_url(nodes, act[k].url@)
        }),
{
    let act = active_nodes(nodes);
    let k = if choice < act.len() { choice as int } else { 0 };
    let pred = |n: NodeStatus| n.is_active;
    nodes.lemma_filter_pred(pred, k);
    assert(act.contains(act[k]));
    nodes.lemma_filter_contains_rev(pred, act[k]);
    let i = choose|i: int| 0 <= i < nodes.len() && nodes[i] == act[k];
    assert(has_url(nodes, i, act[k].url@));
}

/// Three failed requests in a row take a node out of rotation.
pub proof fn law_three_failures_deactivate(n: NodeStatus)
    requires
        n.consecutive_failures == 0,
    ensures
        !after_failure(after_failure(after_failure(n))).is_active,
        after_failure(after_failure(after_failure(n))).consecutive_failures == 3,
{
}

/// A success clears the failure streak, and a reactivated node is back in
/// rotation with no streak.
pub proof fn law_success_and_reactivation_clear_streak(n: NodeStatus, response_time: u64)
    ensures
        after_success(n, response_time).consecutive_failures == 0,
        after_reactivate(n).is_active,
        after_reactivate(n).consecutive_failures == 0,
{
}

/// Adding a url, or finding it already known, leaves the known urls those
/// of before plus that url.
proof fn lemma_add_url_contents(before: Seq<NodeStatus>, after: Seq<NodeStatus>, url: String)
    requires
        contains_url(before, url@) ==> after == before,
        !contains_url(before, url@) ==> after == before.push(fresh_node(url)),
    ensures
        forall|u: Seq<char>| contains_url(after, u) <==> (contains_url(before, u) || u == url@),
{
    assert forall|u: Seq<char>| contains_url(after, u) <==> (contains_url(before, u) || u == url@) by {
        if contains_url(after, u) {
            let i = choose|i: int| has_url(after, i, u);
            if i < before.len() {
                assert(has_url(before, i, u));
            }
        }
        if contains_url(before, u) {
            let i = choose|i: int| has_url(before, i, u);
            assert(has_url(after, i, u));
        }
        if u == url@ && !contains_url(before, url@) {
            assert(has_url(after, before.len() as int, u));
        }
    }
}

/// A failure takes a node out of rotation only by its streak: after a
/// failure the node is in rotation exactly when it was and fewer than
/// three failures in a row have now been seen, whatever its total number
/// of failures; a success ends the streak.
pub proof fn law_failure_deactivates_by_streak(n: NodeStatus, response_time: u64)
    ensures
        after_failure(n).is_active == (n.is_active && n.consecutive_failures + 1 < 3),
        after_failure(n).consecutive_failures == n.consecutive_failures + 1 || n.consecutive_failures == usize::MAX,
        after_success(n, response_time).consecutive_failures == 0,
        n.is_active && n.consecutive_failures == 0 ==> after_failure(n).is_active,
        n.is_active && n.consecutive_failures == 0 ==> after_failure(after_success(after_failure(n), response_time)).is_active,
{
}

} // verus!
