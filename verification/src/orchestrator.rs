//! The coordinator's workers and the distribution of the model's layers
//! among them, in proportion to their compute power.

use crate::crypto::generate_nonce;
use crate::protocol::{MessageView, SwarmMessage};
use vstd::arithmetic::div_mod::{lemma_div_is_ordered, lemma_fundamental_div_mod, lemma_mod_pos_bound};
use vstd::arithmetic::mul::{lemma_mul_inequality, lemma_mul_is_distributive_sub};
use vstd::prelude::*;

verus! {

/// A compute node known to the coordinator.
pub struct WorkerNode {
    pub id: String,
    pub compute_power: u32,
    pub assigned_layers: Vec<u32>,
}

/// The view of a worker.
pub struct WorkerView {
    pub id: Seq<char>,
    pub compute_power: u32,
    pub assigned_layers: Seq<u32>,
}

impl View for WorkerNode {
    type V = WorkerView;

    open spec fn view(&self) -> WorkerView {
        WorkerView { id: self.id@, compute_power: self.compute_power, assigned_layers: self.assigned_layers@ }
    }
}

/// Orchestrates the distributed inference across the swarm.
pub struct Orchestrator {
    /// The workers, in the order they joined.
    workers: Vec<WorkerNode>,
    total_model_layers: u32,
    /// The key under which the stages seal the hidden states they exchange;
    /// handed to each node that joins.
    cluster_key: [u8; 32],
}

// ── The distribution ──────────────────────────────────────────

/// The workers seen through their views.
pub open spec fn views(ws: Seq<WorkerNode>) -> Seq<WorkerView> {
    ws.map_values(|w: WorkerNode| w@)
}

/// No two workers share an id.
pub open spec fn distinct_ids(list: Seq<WorkerView>) -> bool {
    forall|a: int, b: int| 0 <= a < list.len() && 0 <= b < list.len() && a != b ==> #[trigger] list[a].id != #[trigger] list[b].id
}

/// The combined power of the first `i` workers.
pub open spec fn power_prefix(list: Seq<WorkerView>, i: int) -> int
    decreases i,
{
    if i <= 0 {
        0
    } else {
        power_prefix(list, i - 1) + list[i - 1].compute_power
    }
}

/// Where the share of worker `i` starts: the first `i` workers hold the
/// layers below `total × (their power) / (all power)`, rounded down; when no
/// worker has any power, every worker weighs the same.
pub open spec fn boundary(list: Seq<WorkerView>, total: u32, i: int) -> int {
    let p = power_prefix(list, list.len() as int);
    if p == 0 {
        total * i / (list.len() as int)
    } else {
        total * power_prefix(list, i) / p
    }
}

/// The layers `a, a + 1, ..., b - 1`.
pub open spec fn layer_span(a: int, b: int) -> Seq<u32> {
    Seq::new((b - a) as nat, |k: int| (a + k) as u32)
}

/// The layers `0, 1, ..., n - 1`.
pub open spec fn all_layers(n: u32) -> Seq<u32> {
    layer_span(0, n as int)
}

/// The workers with the model's `total` layers distributed among them: each
/// gets the contiguous span between its boundary and the next.
pub open spec fn distributed(list: Seq<WorkerView>, total: u32) -> Seq<WorkerView> {
    Seq::new(
        list.len(),
        |i: int|
            WorkerView {
                id: list[i].id,
                compute_power: list[i].compute_power,
                assigned_layers: layer_span(boundary(list, total, i), boundary(list, total, i + 1)),
            },
    )
}

/// Whether a worker with this id is listed.
pub open spec fn has_worker(list: Seq<WorkerView>, id: Seq<char>) -> bool {
    exists|i: int| 0 <= i < list.len() && #[trigger] list[i].id == id
}

/// The position of the worker with this id.
pub open spec fn worker_index(list: Seq<WorkerView>, id: Seq<char>) -> int {
    choose|i: int| 0 <= i < list.len() && #[trigger] list[i].id == id
}

/// The workers after `id` joins with `power`: a known worker's power is
/// updated in place; a new worker is added last.
pub open spec fn joined_list(list: Seq<WorkerView>, id: Seq<char>, power: u32) -> Seq<WorkerView> {
    if has_worker(list, id) {
        let i = worker_index(list, id);
        list.update(i, WorkerView { compute_power: power, ..list[i] })
    } else {
        list.push(WorkerView { id, compute_power: power, assigned_layers: Seq::empty() })
    }
}

/// The workers after `id` leaves.
pub open spec fn left_list(list: Seq<WorkerView>, id: Seq<char>) -> Seq<WorkerView> {
    if has_worker(list, id) {
        list.remove(worker_index(list, id))
    } else {
        list
    }
}

/// The workers after a join: the joined list, redistributed.
pub open spec fn after_join(list: Seq<WorkerView>, id: Seq<char>, power: u32, total: u32) -> Seq<WorkerView> {
    distributed(joined_list(list, id, power), total)
}

/// The workers after a leave: the remaining list, redistributed.
pub open spec fn after_leave(list: Seq<WorkerView>, id: Seq<char>, total: u32) -> Seq<WorkerView> {
    distributed(left_list(list, id), total)
}

/// The layers held by the worker with this id.
pub open spec fn layers_of(list: Seq<WorkerView>, id: Seq<char>) -> Seq<u32> {
    list[worker_index(list, id)].assigned_layers
}

/// The answer to a join: the joining worker's layers and the model's size.
/// The cluster key is sealed into it by the connection (see the session).
pub open spec fn join_reply(list: Seq<WorkerView>, id: Seq<char>, total: u32) -> MessageView {
    MessageView::JoinResponse {
        assigned_layers: layers_of(list, id),
        total_layers: total,
        encrypted_cluster_key: Seq::empty(),
    }
}

// ── Lemmas on the distribution ────────────────────────────────

proof fn lemma_prefix_monotone(list: Seq<WorkerView>, i: int, j: int)
    requires
        0 <= i <= j <= list.len(),
    ensures
        0 <= power_prefix(list, i) <= power_prefix(list, j),
    decreases j - i,
{
    if i < j {
        lemma_prefix_monotone(list, i, j - 1);
    } else {
        lemma_prefix_nonneg(list, i);
    }
}

proof fn lemma_prefix_nonneg(list: Seq<WorkerView>, i: int)
    ensures
        power_prefix(list, i) >= 0,
    decreases i,
{
    if i > 0 {
        lemma_prefix_nonneg(list, i - 1);
    }
}

proof fn lemma_prefix_bound(list: Seq<WorkerView>, i: int)
    requires
        0 <= i <= list.len(),
    ensures
        power_prefix(list, i) <= i * 0xFFFF_FFFF,
    decreases i,
{
    if i > 0 {
        lemma_prefix_bound(list, i - 1);
    }
}

/// Power prefixes depend only on the powers.
proof fn lemma_prefix_same_powers(a: Seq<WorkerView>, b: Seq<WorkerView>, i: int)
    requires
        0 <= i <= a.len(),
        a.len() == b.len(),
        forall|k: int| 0 <= k < a.len() ==> #[trigger] a[k].compute_power == b[k].compute_power,
    ensures
        power_prefix(a, i) == power_prefix(b, i),
    decreases i,
{
    if i > 0 {
        lemma_prefix_same_powers(a, b, i - 1);
    }
}

/// The boundaries run from 0 to `total` without going back.
pub proof fn lemma_boundaries_ordered(list: Seq<WorkerView>, total: u32, i: int, j: int)
    requires
        list.len() > 0,
        0 <= i <= j <= list.len(),
    ensures
        boundary(list, total, 0) == 0,
        boundary(list, total, list.len() as int) == total,
        0 <= boundary(list, total, i) <= boundary(list, total, j) <= total,
{
    let n = list.len() as int;
    let p = power_prefix(list, n);
    lemma_prefix_monotone(list, 0, n);
    if p == 0 {
        lemma_mul_inequality(i, j, total as int);
        lemma_mul_inequality(j, n, total as int);
        assert(i * total == total * i && j * total == total * j && n * total == total * n) by (nonlinear_arith);
        lemma_div_is_ordered(total * i, total * j, n);
        lemma_div_is_ordered(total * j, total * n, n);
        lemma_div_is_ordered(0, total * i, n);
        assert(total * n / n == total) by (nonlinear_arith)
            requires
                n > 0,
        ;
        assert(total * 0 == 0);
    } else {
        lemma_prefix_monotone(list, 0, i);
        lemma_prefix_monotone(list, i, j);
        lemma_prefix_monotone(list, j, n);
        lemma_mul_inequality(power_prefix(list, i), power_prefix(list, j), total as int);
        lemma_mul_inequality(power_prefix(list, j), p, total as int);
        lemma_mul_inequality(0, power_prefix(list, i), total as int);
        assert(power_prefix(list, i) * total == total * power_prefix(list, i)) by (nonlinear_arith);
        assert(power_prefix(list, j) * total == total * power_prefix(list, j)) by (nonlinear_arith);
        assert(p * total == total * p) by (nonlinear_arith);
        lemma_div_is_ordered(total * power_prefix(list, i), total * power_prefix(list, j), p);
        lemma_div_is_ordered(total * power_prefix(list, j), total * p, p);
        lemma_div_is_ordered(0, total * power_prefix(list, i), p);
        assert(total * p / p == total) by (nonlinear_arith)
            requires
                p > 0,
        ;
        assert(total * power_prefix(list, 0) == 0);
    }
}

/// Every layer of the model is held by exactly one worker: the shares are
/// disjoint and together cover all layers.
pub proof fn lemma_each_layer_held_once(list: Seq<WorkerView>, total: u32, layer: u32)
    requires
        list.len() > 0,
        layer < total,
    ensures
        exists|i: int| 0 <= i < list.len() && (#[trigger] distributed(list, total)[i]).assigned_layers.contains(layer),
        forall|i: int, j: int|
            0 <= i < list.len() && 0 <= j < list.len() && (#[trigger] distributed(list, total)[i]).assigned_layers.contains(
                layer,
            ) && (#[trigger] distributed(list, total)[j]).assigned_layers.contains(layer) ==> i == j,
{
    let d = distributed(list, total);
    let n = list.len() as int;
    // The worker whose span contains `layer`: the last one starting at or below it.
    lemma_boundaries_ordered(list, total, 0, n);
    let i = last_start_at_or_below(list, total, layer as int, n - 1);
    lemma_boundaries_ordered(list, total, i, i + 1);
    assert(d[i].assigned_layers[layer - boundary(list, total, i)] == layer);
    assert forall|a: int, b: int|
        0 <= a < n && 0 <= b < n && (#[trigger] d[a]).assigned_layers.contains(layer)
            && (#[trigger] d[b]).assigned_layers.contains(layer) implies a == b by {
        let ka = choose|k: int| 0 <= k < d[a].assigned_layers.len() && d[a].assigned_layers[k] == layer;
        let kb = choose|k: int| 0 <= k < d[b].assigned_layers.len() && d[b].assigned_layers[k] == layer;
        lemma_boundaries_ordered(list, total, a, a + 1);
        lemma_boundaries_ordered(list, total, b, b + 1);
        if a < b {
            lemma_boundaries_ordered(list, total, a + 1, b);
        } else if b < a {
            lemma_boundaries_ordered(list, total, b + 1, a);
        }
    }
}

/// The last worker, at most `k`, whose share starts at or below `layer`.
proof fn last_start_at_or_below(list: Seq<WorkerView>, total: u32, layer: int, k: int) -> (i: int)
    requires
        list.len() > 0,
        0 <= k < list.len(),
        0 <= layer < total,
        layer < boundary(list, total, k + 1),
    ensures
        0 <= i <= k,
        boundary(list, total, i) <= layer < boundary(list, total, i + 1),
    decreases k,
{
    lemma_boundaries_ordered(list, total, k, k + 1);
    if boundary(list, total, k) <= layer || k == 0 {
        k
    } else {
        last_start_at_or_below(list, total, layer, k - 1)
    }
}

/// Shares follow compute power: times the total power, a worker's number of
/// layers is within one total power of `total` times its own power; that is,
/// each share is its exact proportional share rounded to a neighbouring
/// whole number of layers.
pub proof fn lemma_share_proportional(list: Seq<WorkerView>, total: u32, i: int)
    requires
        0 <= i < list.len(),
        power_prefix(list, list.len() as int) > 0,
    ensures
        ({
            let p = power_prefix(list, list.len() as int);
            let share = distributed(list, total)[i].assigned_layers.len() as int;
            &&& share * p > total * list[i].compute_power - p
            &&& share * p < total * list[i].compute_power + p
        }),
{
    let n = list.len() as int;
    let p = power_prefix(list, n);
    lemma_boundaries_ordered(list, total, i, i + 1);
    let x = total * power_prefix(list, i + 1);
    let y = total * power_prefix(list, i);
    lemma_prefix_nonneg(list, i);
    lemma_prefix_nonneg(list, i + 1);
    assert(x >= 0 && y >= 0) by (nonlinear_arith)
        requires
            x == total * power_prefix(list, i + 1),
            y == total * power_prefix(list, i),
            power_prefix(list, i) >= 0,
            power_prefix(list, i + 1) >= 0,
    ;
    lemma_fundamental_div_mod(x, p);
    lemma_fundamental_div_mod(y, p);
    lemma_mod_pos_bound(x, p);
    lemma_mod_pos_bound(y, p);
    lemma_mul_is_distributive_sub(total as int, power_prefix(list, i + 1), power_prefix(list, i));
    let c = list[i].compute_power as int;
    assert(power_prefix(list, i + 1) == power_prefix(list, i) + c);
    let qx = x / p;
    let qy = y / p;
    let rx = x % p;
    let ry = y % p;
    let share = qx - qy;
    assert(distributed(list, total)[i].assigned_layers.len() == share);
    assert(x - y == total * c);
    assert(share * p > total * c - p && share * p < total * c + p) by (nonlinear_arith)
        requires
            share == qx - qy,
            x == p * qx + rx,
            y == p * qy + ry,
            0 <= rx < p,
            0 <= ry < p,
            x - y == total * c,
    ;
}

/// Distribution looks only at the workers' ids and powers.
proof fn lemma_distributed_same_powers(a: Seq<WorkerView>, b: Seq<WorkerView>, total: u32)
    requires
        a.len() == b.len(),
        forall|k: int| 0 <= k < a.len() ==> #[trigger] a[k].compute_power == b[k].compute_power && a[k].id == b[k].id,
    ensures
        distributed(a, total) == distributed(b, total),
{
    assert forall|k: int| 0 <= k <= a.len() implies power_prefix(a, k) == power_prefix(b, k) by {
        lemma_prefix_same_powers(a, b, k);
    }
    assert forall|k: int| 0 <= k < a.len() implies #[trigger] distributed(a, total)[k] == distributed(b, total)[k] by {
        assert(boundary(a, total, k) == boundary(b, total, k));
        assert(boundary(a, total, k + 1) == boundary(b, total, k + 1));
    }
    assert(distributed(a, total) =~= distributed(b, total));
}

/// Joining keeps ids distinct, and the joining node sits at position `k`:
/// its old place, or last.
proof fn lemma_joined_distinct(list: Seq<WorkerView>, id: Seq<char>, power: u32, k: int)
    requires
        distinct_ids(list),
        0 <= k < joined_list(list, id, power).len(),
        joined_list(list, id, power)[k].id == id,
    ensures
        distinct_ids(joined_list(list, id, power)),
{
    let joined = joined_list(list, id, power);
    if has_worker(list, id) {
        let i = worker_index(list, id);
        assert forall|a: int, b: int| 0 <= a < joined.len() && 0 <= b < joined.len() && a != b implies #[trigger] joined[a].id
            != #[trigger] joined[b].id by {
            assert(joined[a].id == list[a].id && joined[b].id == list[b].id);
        }
    } else {
        assert forall|a: int, b: int| 0 <= a < joined.len() && 0 <= b < joined.len() && a != b implies #[trigger] joined[a].id
            != #[trigger] joined[b].id by {
            if a < list.len() && b < list.len() {
                assert(joined[a].id == list[a].id && joined[b].id == list[b].id);
            } else if a < list.len() {
                assert(joined[a].id == list[a].id);
            } else {
                assert(joined[b].id == list[b].id);
            }
        }
    }
}

/// Distribution keeps every worker's id in its place.
proof fn lemma_distributed_keeps_ids(list: Seq<WorkerView>, total: u32)
    requires
        distinct_ids(list),
    ensures
        distinct_ids(distributed(list, total)),
{
    let d = distributed(list, total);
    assert forall|a: int, b: int| 0 <= a < d.len() && 0 <= b < d.len() && a != b implies #[trigger] d[a].id
        != #[trigger] d[b].id by {
        assert(d[a].id == list[a].id && d[b].id == list[b].id);
    }
}

/// With distinct ids, the worker with an id is found at its position.
proof fn lemma_index_of_distinct(list: Seq<WorkerView>, k: int, id: Seq<char>)
    requires
        distinct_ids(list),
        0 <= k < list.len(),
        list[k].id == id,
    ensures
        has_worker(list, id),
        worker_index(list, id) == k,
{
    assert(has_worker(list, id));
}

/// A new node that joins and then leaves leaves the coordinator's workers,
/// and their layers, as they were.
pub proof fn lemma_leave_undoes_join(list: Seq<WorkerView>, id: Seq<char>, power: u32, total: u32)
    requires
        distinct_ids(list),
        list == distributed(list, total),
        !has_worker(list, id),
    ensures
        after_leave(after_join(list, id, power, total), id, total) == list,
{
    let joined = joined_list(list, id, power);
    let d = distributed(joined, total);
    assert(d[list.len() as int].id == id);
    assert(has_worker(d, id));
    let k = worker_index(d, id);
    assert forall|a: int| 0 <= a < list.len() implies #[trigger] d[a].id != id by {
        assert(list[a].id == joined[a].id);
    }
    assert(k == list.len());
    let rest = d.remove(k);
    assert forall|a: int| 0 <= a < list.len() implies #[trigger] rest[a].compute_power == list[a].compute_power
        && rest[a].id == list[a].id by {
        assert(rest[a] == d[a]);
        assert(joined[a] == list[a]);
    }
    lemma_distributed_same_powers(rest, list, total);
}

/// A joined node holds every layer when it is the only worker.
pub proof fn lemma_single_worker_holds_all(id: Seq<char>, power: u32, total: u32)
    ensures
        layers_of(after_join(Seq::empty(), id, power, total), id) == all_layers(total),
{
    let list = joined_list(Seq::<WorkerView>::empty(), id, power);
    assert(!has_worker(Seq::<WorkerView>::empty(), id));
    let d = distributed(list, total);
    assert(d[0].id == id);
    lemma_boundaries_ordered(list, total, 0, 1);
    assert(d[0].assigned_layers =~= all_layers(total));
}

// ── Executable ────────────────────────────────────────────────

/// No workers: nothing to distribute.
proof fn lemma_empty_distributed(workers: &Vec<WorkerNode>, total: u32)
    requires
        workers@.len() == 0,
    ensures
        views(workers@) == distributed(views(workers@), total),
        distinct_ids(views(workers@)),
{
    assert(views(workers@) =~= distributed(views(workers@), total));
}

/// The layers `a..b`.
fn span(a: u32, b: u32) -> (r: Vec<u32>)
    requires
        a <= b,
    ensures
        r@ == layer_span(a as int, b as int),
{
    let mut out: Vec<u32> = Vec::new();
    let mut x = a;
    while x < b
        invariant
            a <= x <= b,
            out@ == layer_span(a as int, x as int),
        decreases b - x,
    {
        out.push(x);
        x = x + 1;
        assert(out@ =~= layer_span(a as int, x as int));
    }
    out
}

/// `boundary` for a prefix of power `prefix` at position `i` of `n`
/// workers of total power `sum`.
fn boundary_at(total: u32, prefix: u128, sum: u128, i: usize, n: usize) -> (r: u32)
    requires
        0 < n,
        i <= n,
        prefix <= sum,
        sum <= n * 0xFFFF_FFFF,
    ensures
        r == (if sum == 0 {
            total * i / (n as int)
        } else {
            total * prefix / (sum as int)
        }),
{
    if sum == 0 {
        assert(total * i <= total * n) by (nonlinear_arith)
            requires
                i <= n,
        ;
        assert(total * n <= 0xFFFF_FFFF * 0xFFFF_FFFF_FFFF_FFFF) by (nonlinear_arith)
            requires
                total <= 0xFFFF_FFFF,
                n <= 0xFFFF_FFFF_FFFF_FFFF,
        ;
        let v: u128 = (total as u128) * (i as u128) / (n as u128);
        assert(v <= total) by (nonlinear_arith)
            requires
                v == total * i / (n as int),
                i <= n,
                n > 0,
        ;
        v as u32
    } else {
        assert(total * prefix <= 0xFFFF_FFFF * (0xFFFF_FFFF_FFFF_FFFF * 0xFFFF_FFFF)) by (nonlinear_arith)
            requires
                total <= 0xFFFF_FFFF,
                prefix <= sum,
                sum <= n * 0xFFFF_FFFF,
                n <= 0xFFFF_FFFF_FFFF_FFFF,
        ;
        let v: u128 = (total as u128) * prefix / sum;
        assert(v <= total) by (nonlinear_arith)
            requires
                v == total * prefix / (sum as int),
                prefix <= sum,
                sum > 0,
        ;
        v as u32
    }
}

/// The workers with the layers distributed among them.
fn redistribute(workers: &Vec<WorkerNode>, total: u32) -> (r: Vec<WorkerNode>)
    ensures
        views(r@) == distributed(views(workers@), total),
{
    let ghost list = views(workers@);
    let n = workers.len();
    if n == 0 {
        let none: Vec<WorkerNode> = Vec::new();
        assert(views(none@) =~= distributed(list, total));
        return none;
    }
    let mut sum: u128 = 0;
    for i in 0..n
        invariant
            n == workers@.len(),
            list == views(workers@),
            sum == power_prefix(list, i as int),
            sum <= i * 0xFFFF_FFFF,
    {
        sum = sum + workers[i].compute_power as u128;
    }
    proof {
        lemma_prefix_bound(list, n as int);
    }
    let mut out: Vec<WorkerNode> = Vec::new();
    let mut acc: u128 = 0;
    for i in 0..n
        invariant
            n == workers@.len(),
            n > 0,
            list == views(workers@),
            sum == power_prefix(list, n as int),
            sum <= n * 0xFFFF_FFFF,
            acc == power_prefix(list, i as int),
            views(out@) == distributed(list, total).take(i as int),
    {
        proof {
            lemma_prefix_monotone(list, i as int, i + 1);
            lemma_prefix_monotone(list, i + 1, n as int);
            lemma_boundaries_ordered(list, total, i as int, i + 1);
        }
        let start = boundary_at(total, acc, sum, i, n);
        acc = acc + workers[i].compute_power as u128;
        let end = boundary_at(total, acc, sum, i + 1, n);
        let layers = span(start, end);
        let w = WorkerNode {
            id: workers[i].id.clone(),
            compute_power: workers[i].compute_power,
            assigned_layers: layers,
        };
        proof {
            assert(list[i as int] == workers@[i as int]@);
            assert(power_prefix(list, i + 1) == power_prefix(list, i as int) + list[i as int].compute_power);
            assert(w@ == distributed(list, total)[i as int]);
        }
        let ghost prev = out@;
        out.push(w);
        proof {
            assert(out@ == prev.push(w));
            assert(views(out@) =~= views(prev).push(w@));
            assert(views(out@) =~= distributed(list, total).take(i + 1));
        }
    }
    proof {
        assert(distributed(list, total).take(n as int) =~= distributed(list, total));
    }
    out
}

/// The index of the worker with this id.
fn find_worker(workers: &Vec<WorkerNode>, id: &str) -> (r: Option<usize>)
    ensures
        r matches Some(i) ==> i < workers@.len() && workers@[i as int].id@ == id@,
        r is None ==> !has_worker(views(workers@), id@),
{
    let key = id.to_owned();
    let n = workers.len();
    for i in 0..n
        invariant
            n == workers@.len(),
            key@ == id@,
            forall|j: int| 0 <= j < i ==> (#[trigger] workers@[j]).id@ != id@,
    {
        if workers[i].id == key {
            return Some(i);
        }
    }
    proof {
        assert forall|j: int| 0 <= j < n implies #[trigger] views(workers@)[j].id != id@ by {
            assert(views(workers@)[j] == workers@[j]@);
        }
    }
    None
}

/// The workers after `id` joins with `power`, and the joining worker's
/// position.
fn join_workers(workers: Vec<WorkerNode>, id: String, power: u32) -> (r: (Vec<WorkerNode>, usize))
    requires
        distinct_ids(views(workers@)),
    ensures
        views(r.0@) == joined_list(views(workers@), id@, power),
        r.1 < r.0@.len(),
        r.0@[r.1 as int].id@ == id@,
        distinct_ids(views(r.0@)),
{
    let ghost list = views(workers@);
    let mut workers = workers;
    let k = match find_worker(&workers, id.as_str()) {
        Some(i) => {
            let old_layers = crate::util::copy_vec(&workers[i].assigned_layers);
            let w = WorkerNode { id, compute_power: power, assigned_layers: old_layers };
            workers.set(i, w);
            proof {
                assert(list[i as int].id == w.id@);
                assert(has_worker(list, w.id@));
                lemma_index_of_distinct(list, i as int, w.id@);
                assert(views(workers@) =~= joined_list(list, w.id@, power));
            }
            i
        },
        None => {
            let ghost idv = id@;
            workers.push(WorkerNode { id, compute_power: power, assigned_layers: Vec::new() });
            proof {
                assert(views(workers@) =~= joined_list(list, idv, power));
            }
            workers.len() - 1
        },
    };
    proof {
        lemma_joined_distinct(list, id@, power, k as int);
    }
    (workers, k)
}

/// The workers after `id` leaves.
fn leave_workers(workers: Vec<WorkerNode>, id: &str) -> (r: Vec<WorkerNode>)
    requires
        distinct_ids(views(workers@)),
    ensures
        views(r@) == left_list(views(workers@), id@),
        distinct_ids(views(r@)),
{
    let ghost list = views(workers@);
    let mut workers = workers;
    match find_worker(&workers, id) {
        Some(i) => {
            proof {
                lemma_index_of_distinct(list, i as int, id@);
            }
            workers.remove(i);
            proof {
                assert(views(workers@) =~= left_list(list, id@));
                let rest = views(workers@);
                assert forall|a: int, b: int| 0 <= a < rest.len() && 0 <= b < rest.len() && a != b implies #[trigger] rest[a].id
                    != #[trigger] rest[b].id by {
                    let a2 = if a < i { a } else { a + 1 };
                    let b2 = if b < i { b } else { b + 1 };
                    assert(rest[a] == list[a2] && rest[b] == list[b2]);
                }
            }
        },
        None => {
            proof {
                assert(views(workers@) =~= left_list(list, id@));
            }
        },
    }
    workers
}

/// The workers after `id` joins with `power`, with the layers distributed,
/// and the joining worker's layers.
fn join_and_distribute(workers: Vec<WorkerNode>, id: String, power: u32, total: u32) -> (r: (Vec<WorkerNode>, Vec<u32>))
    requires
        distinct_ids(views(workers@)),
    ensures
        views(r.0@) == after_join(views(workers@), id@, power, total),
        r.1@ == layers_of(views(r.0@), id@),
        distinct_ids(views(r.0@)),
        views(r.0@) == distributed(views(r.0@), total),
{
    let ghost idv = id@;
    let (joined_workers, k) = join_workers(workers, id, power);
    let ghost joined = views(joined_workers@);
    let fresh = redistribute(&joined_workers, total);
    proof {
        assert(views(fresh@).len() == fresh@.len());
    }
    let layers = crate::util::copy_vec(&fresh[k].assigned_layers);
    proof {
        lemma_distributed_keeps_ids(joined, total);
        assert(views(fresh@)[k as int].id == idv);
        lemma_index_of_distinct(views(fresh@), k as int, idv);
        lemma_distributed_same_powers(views(fresh@), joined, total);
    }
    (fresh, layers)
}

impl Orchestrator {
    /// The workers, in the order they joined, seen through their views.
    pub closed spec fn worker_list(&self) -> Seq<WorkerView> {
        views(self.workers@)
    }

    /// The number of layers of the model.
    pub closed spec fn total_layers(&self) -> u32 {
        self.total_model_layers
    }

    /// The cluster key.
    pub closed spec fn key(&self) -> Seq<u8> {
        self.cluster_key@
    }

    /// The number of layers of the model.
    pub fn total_model_layers(&self) -> (r: u32)
        ensures
            r == self.total_layers(),
    {
        self.total_model_layers
    }

    /// The key under which the stages seal the hidden states they exchange.
    pub fn cluster_key(&self) -> (r: [u8; 32])
        ensures
            r@ == self.key(),
    {
        self.cluster_key
    }

    /// Worker ids are unique, and the layers are always distributed.
    #[verifier::type_invariant]
    closed spec fn well_formed(&self) -> bool {
        &&& distinct_ids(views(self.workers@))
        &&& views(self.workers@) == distributed(views(self.workers@), self.total_model_layers)
    }

    /// A coordinator for a model of `total_layers` layers, with no workers
    /// and a fresh random cluster key.
    pub fn new(total_layers: u32) -> (r: Orchestrator)
        ensures
            r.total_layers() == total_layers,
            r.worker_list() == Seq::<WorkerView>::empty(),
            r.worker_list() == distributed(r.worker_list(), r.total_layers()),
    {
        let workers: Vec<WorkerNode> = Vec::new();
        proof {
            lemma_empty_distributed(&workers, total_layers);
        }
        Orchestrator { workers, total_model_layers: total_layers, cluster_key: generate_nonce() }
    }

    /// Registers a joining node and redistributes the layers in proportion to
    /// compute power; answers with the node's layers. A node that joins again
    /// keeps its place with its new power.
    pub fn handle_join(&mut self, device_id: String, power: u32) -> (r: SwarmMessage)
        ensures
            final(self).total_layers() == old(self).total_layers(),
            final(self).key() == old(self).key(),
            final(self).worker_list() == after_join(
                old(self).worker_list(),
                device_id@,
                power,
                old(self).total_layers(),
            ),
            r@ == join_reply(final(self).worker_list(), device_id@, old(self).total_layers()),
            distinct_ids(final(self).worker_list()),
            final(self).worker_list() == distributed(final(self).worker_list(), final(self).total_layers()),
    {
        proof {
            use_type_invariant(&*self);
        }
        let ghost list = views(self.workers@);
        let mut workers: Vec<WorkerNode> = Vec::new();
        proof {
            lemma_empty_distributed(&workers, self.total_model_layers);
        }
        std::mem::swap(&mut workers, &mut self.workers);
        let ghost idv = device_id@;
        let (fresh, reply_layers) = join_and_distribute(workers, device_id, power, self.total_model_layers);
        self.workers = fresh;
        let reply = SwarmMessage::JoinResponse {
            assigned_layers: reply_layers,
            total_layers: self.total_model_layers,
            encrypted_cluster_key: Vec::new(),
        };
        proof {
            assert(reply@ == join_reply(views(self.workers@), idv, self.total_model_layers));
        }
        reply
    }

    /// Removes a node from the swarm and redistributes the layers among the
    /// rest (no change of workers if it is unknown).
    pub fn handle_leave(&mut self, device_id: &str)
        ensures
            final(self).total_layers() == old(self).total_layers(),
            final(self).key() == old(self).key(),
            final(self).worker_list() == after_leave(old(self).worker_list(), device_id@, old(self).total_layers()),
            distinct_ids(final(self).worker_list()),
            final(self).worker_list() == distributed(final(self).worker_list(), final(self).total_layers()),
    {
        proof {
            use_type_invariant(&*self);
        }
        let ghost list = views(self.workers@);
        let mut workers: Vec<WorkerNode> = Vec::new();
        proof {
            lemma_empty_distributed(&workers, self.total_model_layers);
        }
        std::mem::swap(&mut workers, &mut self.workers);
        let workers = leave_workers(workers, device_id);
        let ghost rest = views(workers@);
        let fresh = redistribute(&workers, self.total_model_layers);
        proof {
            lemma_distributed_keeps_ids(rest, self.total_model_layers);
            lemma_distributed_same_powers(views(fresh@), rest, self.total_model_layers);
        }
        self.workers = fresh;
    }

    /// The number of workers.
    pub fn worker_count(&self) -> (r: usize)
        ensures
            r == self.worker_list().len(),
    {
        self.workers.len()
    }

    /// The worker with this id, if any.
    pub fn get_worker(&self, id: &str) -> (r: Option<&WorkerNode>)
        ensures
            has_worker(self.worker_list(), id@) ==> (r matches Some(w) && w@ == self.worker_list()[worker_index(
                self.worker_list(),
                id@,
            )]),
            !has_worker(self.worker_list(), id@) ==> r is None,
    {
        proof {
            use_type_invariant(self);
        }
        match find_worker(&self.workers, id) {
            Some(i) => {
                proof {
                    let list = views(self.workers@);
                    assert(list[i as int].id == id@);
                    assert(worker_index(list, id@) == i as int);
                }
                Some(&self.workers[i])
            },
            None => None,
        }
    }
}

} // verus!
