//! The dependency-ordered task scheduler.
//!
//! A task is identified by a stable name and declares the names of the
//! tasks it depends on.  The scheduler explores a task's dependency graph
//! depth first — the last-declared dependency first — records every visit,
//! and executes the record backwards, keeping only the first occurrence of
//! each task in that backward scan.  Every task therefore runs exactly
//! once, after its transitive dependencies, even when a task is reachable
//! along several paths.
//!
//! A cyclic declaration cannot be ordered; the scheduler detects the cycle
//! by bounding the exploration depth with the table size and reports it as
//! an error.

use crate::config::ToolchainConfiguration;
use crate::project::Project;
use vstd::prelude::*;

verus! {

/// The shared, read-only context that every task executes against.
pub struct TaskContext {
    pub project: Project,
    pub toolchain_configuration: ToolchainConfiguration,
}

/// A named operation with declared dependencies.
pub trait Task {
    fn id(&self) -> String;

    fn dependencies(&self) -> Vec<String>;

    fn on_execute(&mut self, context: &TaskContext);
}

/// The declarative part of a registered task: its name and the names it
/// depends on, in declaration order.
pub struct TaskDeclaration {
    pub id: String,
    pub dependencies: Vec<String>,
}

/// Why no execution order could be computed.
#[derive(Clone, Copy, Debug, PartialEq, Eq, Structural)]
pub enum TaskSchedulingError {
    /// The dependency declarations reach a task from itself.
    CircularDependency,
}

/// The index of the task with the given name, or `-1`.
pub open spec fn spec_task_index(tasks: Seq<TaskDeclaration>, id: Seq<char>) -> int
    decreases tasks.len(),
{
    if tasks.len() == 0 {
        -1
    } else if tasks[0].id@ == id {
        0
    } else if spec_task_index(tasks.drop_first(), id) == -1 {
        -1
    } else {
        spec_task_index(tasks.drop_first(), id) + 1
    }
}

/// The index of a task lies between `-1` and the table's length.
pub proof fn lemma_task_index_bounds(tasks: Seq<TaskDeclaration>, id: Seq<char>)
    ensures
        -1 <= spec_task_index(tasks, id) < tasks.len(),
    decreases tasks.len(),
{
    if tasks.len() > 0 && tasks[0].id@ != id {
        lemma_task_index_bounds(tasks.drop_first(), id);
    }
}

pub open spec fn spec_table_contains(tasks: Seq<TaskDeclaration>, id: Seq<char>) -> bool {
    spec_task_index(tasks, id) >= 0
}

/// The declared dependencies of a named task.
pub open spec fn spec_task_dependencies(tasks: Seq<TaskDeclaration>, id: Seq<char>) -> Seq<
    Seq<char>,
>
    recommends
        spec_table_contains(tasks, id),
{
    tasks[spec_task_index(tasks, id)].dependencies.deep_view()
}

/// Every declared dependency of every task is itself in the table.
pub open spec fn spec_table_closed(tasks: Seq<TaskDeclaration>) -> bool {
    forall|i: int, j: int|
        0 <= i < tasks.len() && 0 <= j < tasks[i].dependencies@.len() ==> spec_table_contains(
            tasks,
            (#[trigger] tasks[i].dependencies@[j])@,
        )
}

/// The visit record of the depth-first exploration rooted at `id`: the
/// task itself, then the full record of each declared dependency, the
/// last-declared one first.  `budget` bounds the depth; exhausting it
/// yields nothing.
pub open spec fn spec_visit(tasks: Seq<TaskDeclaration>, id: Seq<char>, budget: nat) -> Option<
    Seq<Seq<char>>,
>
    recommends
        spec_table_contains(tasks, id),
    decreases budget, 0int,
{
    if budget == 0 {
        None
    } else {
        match spec_visit_list(tasks, spec_task_dependencies(tasks, id), (budget - 1) as nat) {
            Some(rest) => Some(seq![id] + rest),
            None => None,
        }
    }
}

/// The concatenated visit records of `pending`, explored from its last
/// element down to its first.
pub open spec fn spec_visit_list(
    tasks: Seq<TaskDeclaration>,
    pending: Seq<Seq<char>>,
    budget: nat,
) -> Option<Seq<Seq<char>>>
    decreases budget, pending.len() + 1,
{
    if pending.len() == 0 {
        Some(Seq::empty())
    } else {
        match spec_visit(tasks, pending.last(), budget) {
            Some(first) => match spec_visit_list(tasks, pending.drop_last(), budget) {
                Some(rest) => Some(first + rest),
                None => None,
            },
            None => None,
        }
    }
}

/// A sequence without every occurrence of one value, order kept.
pub open spec fn spec_remove_value(s: Seq<Seq<char>>, v: Seq<char>) -> Seq<Seq<char>> {
    s.filter(|x: Seq<char>| x != v)
}

/// The record scanned from its end, keeping the first occurrence of each
/// task in that scan and discarding the rest.
pub open spec fn spec_dedup_from_end(r: Seq<Seq<char>>) -> Seq<Seq<char>>
    decreases r.len(),
{
    if r.len() == 0 {
        Seq::empty()
    } else {
        seq![r.last()] + spec_remove_value(spec_dedup_from_end(r.drop_last()), r.last())
    }
}

/// Scanning one more element at the front of the remaining record keeps
/// the output unchanged when the element was already seen, and appends it
/// otherwise.
proof fn lemma_dedup_prepend(s: Seq<Seq<char>>, x: Seq<char>)
    ensures
        spec_dedup_from_end(s).contains(x) ==> spec_dedup_from_end(seq![x] + s)
            == spec_dedup_from_end(s),
        !spec_dedup_from_end(s).contains(x) ==> spec_dedup_from_end(seq![x] + s)
            == spec_dedup_from_end(s).push(x),
    decreases s.len(),
{
    reveal(Seq::filter);
    let t = seq![x] + s;
    if s.len() == 0 {
        assert(t =~= seq![x]);
        assert(t.drop_last() =~= Seq::<Seq<char>>::empty());
        assert(spec_dedup_from_end(Seq::<Seq<char>>::empty()) == Seq::<Seq<char>>::empty());
        assert(spec_remove_value(Seq::<Seq<char>>::empty(), x) =~= Seq::<Seq<char>>::empty());
        assert(spec_dedup_from_end(t) =~= Seq::<Seq<char>>::empty().push(x));
    } else {
        let last = s.last();
        let d_prev = spec_dedup_from_end(s.drop_last());
        assert(t.last() == last);
        assert(t.drop_last() =~= seq![x] + s.drop_last());
        lemma_dedup_prepend(s.drop_last(), x);
        if x == last {
            if d_prev.contains(x) {
                assert(spec_dedup_from_end(t) == spec_dedup_from_end(s));
            } else {
                assert(spec_dedup_from_end(t.drop_last()) == d_prev.push(x));
                assert((d_prev.push(x)).drop_last() =~= d_prev);
                assert(spec_remove_value(d_prev.push(x), last) =~= spec_remove_value(
                    d_prev,
                    last,
                ));
                assert(spec_dedup_from_end(t) =~= spec_dedup_from_end(s));
            }
            assert(spec_dedup_from_end(s)[0] == x);
            assert(spec_dedup_from_end(s).contains(x));
        } else {
            if d_prev.contains(x) {
                assert(spec_dedup_from_end(t) == spec_dedup_from_end(s));
                let k = choose|k: int| 0 <= k < d_prev.len() && d_prev[k] == x;
                lemma_remove_value_keeps(d_prev, last, k);
                let m = choose|m: int|
                    0 <= m < spec_remove_value(d_prev, last).len() && spec_remove_value(
                        d_prev,
                        last,
                    )[m] == x;
                assert(spec_dedup_from_end(s)[m + 1] == x);
                assert(spec_dedup_from_end(s).contains(x));
            } else {
                assert(spec_dedup_from_end(t.drop_last()) == d_prev.push(x));
                assert((d_prev.push(x)).drop_last() =~= d_prev);
                assert(spec_remove_value(d_prev.push(x), last) =~= spec_remove_value(
                    d_prev,
                    last,
                ).push(x));
                assert(spec_dedup_from_end(t) =~= spec_dedup_from_end(s).push(x));
                assert(!spec_dedup_from_end(s).contains(x)) by {
                    if spec_dedup_from_end(s).contains(x) {
                        let k = choose|k: int|
                            0 <= k < spec_dedup_from_end(s).len() && spec_dedup_from_end(s)[k]
                                == x;
                        if k > 0 {
                            assert(spec_remove_value(d_prev, last).contains(x));
                            let m = choose|m: int|
                                0 <= m < spec_remove_value(d_prev, last).len()
                                    && spec_remove_value(d_prev, last)[m] == x;
                            lemma_remove_value_subset(d_prev, last, m);
                        }
                    }
                }
            }
        }
    }
}

/// An element of a filtered-out sequence that differs from the removed
/// value survives the removal.
proof fn lemma_remove_value_keeps(s: Seq<Seq<char>>, v: Seq<char>, k: int)
    requires
        0 <= k < s.len(),
        s[k] != v,
    ensures
        spec_remove_value(s, v).contains(s[k]),
{
    broadcast use vstd::seq_lib::group_filter_ensures;

    assert(s.filter(|x: Seq<char>| x != v).contains(s[k]));
}

/// An element of the removal's result is an element of the original.
proof fn lemma_remove_value_subset(s: Seq<Seq<char>>, v: Seq<char>, m: int)
    requires
        0 <= m < spec_remove_value(s, v).len(),
    ensures
        s.contains(spec_remove_value(s, v)[m]),
    decreases s.len(),
{
    reveal(Seq::filter);
    if s.len() > 0 {
        let filtered = spec_remove_value(s.drop_last(), v);
        if s.last() != v && m == spec_remove_value(s, v).len() - 1 {
            assert(spec_remove_value(s, v)[m] == s.last());
            assert(s.contains(s.last()));
        } else {
            lemma_remove_value_subset(s.drop_last(), v, m);
            let e = spec_remove_value(s, v)[m];
            let k = choose|k: int| 0 <= k < s.drop_last().len() && s.drop_last()[k] == e;
            assert(s[k] == e);
        }
    }
}

/// Every task appears exactly once in the deduplicated record.
pub proof fn lemma_dedup_no_duplicates(r: Seq<Seq<char>>)
    ensures
        spec_dedup_from_end(r).no_duplicates(),
    decreases r.len(),
{
    broadcast use vstd::seq_lib::group_filter_ensures;

    reveal(Seq::filter);
    if r.len() > 0 {
        lemma_dedup_no_duplicates(r.drop_last());
        let d_prev = spec_dedup_from_end(r.drop_last());
        let kept = spec_remove_value(d_prev, r.last());
        lemma_remove_value_no_duplicates(d_prev, r.last());
        assert forall|i: int, j: int|
            0 <= i < spec_dedup_from_end(r).len() && 0 <= j < spec_dedup_from_end(r).len() && i
                != j implies spec_dedup_from_end(r)[i] != spec_dedup_from_end(r)[j] by {
            if i == 0 || j == 0 {
                let m = if i == 0 {
                    j
                } else {
                    i
                };
                assert(spec_dedup_from_end(r)[m] == kept[m - 1]);
                lemma_remove_value_subset(d_prev, r.last(), m - 1);
            }
        }
    }
}

/// The largest index at which `x` occurs in `r`, or `-1`.
pub open spec fn spec_last_index(r: Seq<Seq<char>>, x: Seq<char>) -> int
    decreases r.len(),
{
    if r.len() == 0 {
        -1
    } else if r.last() == x {
        r.len() - 1
    } else {
        spec_last_index(r.drop_last(), x)
    }
}

proof fn lemma_last_index_properties(r: Seq<Seq<char>>, x: Seq<char>)
    ensures
        -1 <= spec_last_index(r, x) < r.len(),
        spec_last_index(r, x) >= 0 ==> r[spec_last_index(r, x)] == x,
        forall|q: int| spec_last_index(r, x) < q < r.len() ==> r[q] != x,
        r.contains(x) ==> spec_last_index(r, x) >= 0,
    decreases r.len(),
{
    if r.len() > 0 && r.last() != x {
        lemma_last_index_properties(r.drop_last(), x);
        if r.contains(x) {
            let k = choose|k: int| 0 <= k < r.len() && r[k] == x;
            assert(k < r.len() - 1);
            assert(r.drop_last()[k] == x);
            assert(r.drop_last().contains(x));
        }
        assert(forall|q: int|
            spec_last_index(r, x) < q < r.len() - 1 ==> r.drop_last()[q] == r[q] && r[q] != x);
    }
}

/// Every element of the deduplicated record occurs in the record.
proof fn lemma_dedup_subset(r: Seq<Seq<char>>, m: int)
    requires
        0 <= m < spec_dedup_from_end(r).len(),
    ensures
        r.contains(spec_dedup_from_end(r)[m]),
    decreases r.len(),
{
    if r.len() > 0 {
        if m == 0 {
            assert(r[r.len() - 1] == spec_dedup_from_end(r)[0]);
        } else {
            lemma_remove_value_subset(spec_dedup_from_end(r.drop_last()), r.last(), m - 1);
            let e = spec_dedup_from_end(r)[m];
            let k = choose|k: int|
                0 <= k < spec_dedup_from_end(r.drop_last()).len() && spec_dedup_from_end(
                    r.drop_last(),
                )[k] == e;
            lemma_dedup_subset(r.drop_last(), k);
            let q = choose|q: int| 0 <= q < r.drop_last().len() && r.drop_last()[q] == e;
            assert(r[q] == e);
        }
    }
}

/// An element that a filter keeps is kept at some position.
proof fn lemma_filter_keeps_index(s: Seq<Seq<char>>, v: Seq<char>, i: int)
    requires
        0 <= i < s.len(),
        s[i] != v,
    ensures
        exists|m: int|
            0 <= m < spec_remove_value(s, v).len() && spec_remove_value(s, v)[m] == s[i],
{
    lemma_remove_value_keeps(s, v, i);
    let e = s[i];
    let m = choose|m: int|
        0 <= m < spec_remove_value(s, v).len() && spec_remove_value(s, v)[m] == e;
}

/// Filtering keeps the relative order of the elements it keeps.
proof fn lemma_remove_value_order(s: Seq<Seq<char>>, v: Seq<char>, i1: int, i2: int)
    requires
        0 <= i1 < i2 < s.len(),
        s[i1] != v,
        s[i2] != v,
    ensures
        exists|m1: int, m2: int|
            0 <= m1 < m2 < spec_remove_value(s, v).len() && spec_remove_value(s, v)[m1] == s[i1]
                && spec_remove_value(s, v)[m2] == s[i2],
    decreases s.len(),
{
    reveal(Seq::filter);
    let kept = spec_remove_value(s, v);
    let prev = spec_remove_value(s.drop_last(), v);
    if i2 == s.len() - 1 {
        assert(kept == prev.push(s.last()));
        assert(s.drop_last()[i1] == s[i1]);
        lemma_filter_keeps_index(s.drop_last(), v, i1);
        let m1 = choose|m1: int| 0 <= m1 < prev.len() && prev[m1] == s[i1];
        assert(kept[m1] == s[i1]);
        assert(kept[prev.len() as int] == s[i2]);
    } else {
        assert(s.drop_last()[i1] == s[i1]);
        assert(s.drop_last()[i2] == s[i2]);
        lemma_remove_value_order(s.drop_last(), v, i1, i2);
        let (m1, m2) = choose|m1: int, m2: int|
            0 <= m1 < m2 < prev.len() && prev[m1] == s[i1] && prev[m2] == s[i2];
        if s.last() != v {
            assert(kept == prev.push(s.last()));
        }
        assert(kept[m1] == s[i1] && kept[m2] == s[i2]);
    }
}

/// In the deduplicated record, a value whose last occurrence comes later
/// in the record stands earlier than one whose last occurrence comes
/// sooner.
proof fn lemma_dedup_order(r: Seq<Seq<char>>, x: Seq<char>, y: Seq<char>)
    requires
        x != y,
        r.contains(x),
        r.contains(y),
        spec_last_index(r, x) < spec_last_index(r, y),
    ensures
        exists|jy: int, jx: int|
            0 <= jy < jx < spec_dedup_from_end(r).len() && spec_dedup_from_end(r)[jy] == y
                && spec_dedup_from_end(r)[jx] == x,
    decreases r.len(),
{
    lemma_last_index_properties(r, x);
    lemma_last_index_properties(r, y);
    let dedup = spec_dedup_from_end(r);
    let d_prev = spec_dedup_from_end(r.drop_last());
    if y == r.last() {
        // y heads the output; x occurs strictly earlier in the record
        assert(dedup[0] == y);
        let k = choose|k: int| 0 <= k < r.len() && r[k] == x;
        assert(k < r.len() - 1);
        assert(r.drop_last()[k] == x);
        assert(r.drop_last().contains(x));
        lemma_dedup_contains(r.drop_last(), x);
        let m = choose|m: int| 0 <= m < d_prev.len() && d_prev[m] == x;
        lemma_filter_keeps_index(d_prev, r.last(), m);
        let mx = choose|mx: int|
            0 <= mx < spec_remove_value(d_prev, r.last()).len() && spec_remove_value(
                d_prev,
                r.last(),
            )[mx] == x;
        assert(dedup[mx + 1] == x);
    } else {
        // x cannot be the last element: its last occurrence comes before y's
        assert(x != r.last());
        let kx = choose|kx: int| 0 <= kx < r.len() && r[kx] == x;
        let ky = choose|ky: int| 0 <= ky < r.len() && r[ky] == y;
        assert(kx < r.len() - 1 && ky < r.len() - 1);
        assert(r.drop_last()[kx] == x && r.drop_last()[ky] == y);
        lemma_last_index_properties(r.drop_last(), x);
        lemma_last_index_properties(r.drop_last(), y);
        lemma_dedup_order(r.drop_last(), x, y);
        let (jy, jx) = choose|jy: int, jx: int|
            0 <= jy < jx < d_prev.len() && d_prev[jy] == y && d_prev[jx] == x;
        lemma_remove_value_order(d_prev, r.last(), jy, jx);
        let (m1, m2) = choose|m1: int, m2: int|
            0 <= m1 < m2 < spec_remove_value(d_prev, r.last()).len() && spec_remove_value(
                d_prev,
                r.last(),
            )[m1] == y && spec_remove_value(d_prev, r.last())[m2] == x;
        assert(dedup[m1 + 1] == y && dedup[m2 + 1] == x);
    }
}

/// An element of the record survives deduplication.
proof fn lemma_dedup_contains(r: Seq<Seq<char>>, x: Seq<char>)
    requires
        r.contains(x),
    ensures
        spec_dedup_from_end(r).contains(x),
    decreases r.len(),
{
    if r.last() == x {
        assert(spec_dedup_from_end(r)[0] == x);
    } else {
        let k = choose|k: int| 0 <= k < r.len() && r[k] == x;
        assert(r.drop_last()[k] == x);
        assert(r.drop_last().contains(x));
        lemma_dedup_contains(r.drop_last(), x);
        let m = choose|m: int|
            0 <= m < spec_dedup_from_end(r.drop_last()).len() && spec_dedup_from_end(
                r.drop_last(),
            )[m] == x;
        lemma_filter_keeps_index(spec_dedup_from_end(r.drop_last()), r.last(), m);
        let mk = choose|mk: int|
            0 <= mk < spec_remove_value(spec_dedup_from_end(r.drop_last()), r.last()).len()
                && spec_remove_value(spec_dedup_from_end(r.drop_last()), r.last())[mk] == x;
        assert(spec_dedup_from_end(r)[mk + 1] == x);
    }
}

/// The shape of a visit record: it starts with the visited task, every
/// entry is in the table, and every dependency of every entry occurs again
/// later in the record.
proof fn lemma_visit_record(tasks: Seq<TaskDeclaration>, id: Seq<char>, budget: nat)
    requires
        spec_table_closed(tasks),
        spec_table_contains(tasks, id),
        spec_visit(tasks, id, budget) is Some,
    ensures
        spec_visit(tasks, id, budget)->0.len() > 0,
        spec_visit(tasks, id, budget)->0[0] == id,
        forall|p: int|
            0 <= p < spec_visit(tasks, id, budget)->0.len() ==> spec_table_contains(
                tasks,
                #[trigger] spec_visit(tasks, id, budget)->0[p],
            ),
        forall|p: int, d: Seq<char>|
            0 <= p < spec_visit(tasks, id, budget)->0.len() && spec_task_dependencies(
                tasks,
                spec_visit(tasks, id, budget)->0[p],
            ).contains(d) ==> exists|q: int|
                p < q < spec_visit(tasks, id, budget)->0.len() && spec_visit(
                    tasks,
                    id,
                    budget,
                )->0[q] == d,
    decreases budget, 0int,
{
    let rec = spec_visit(tasks, id, budget)->0;
    let deps = spec_task_dependencies(tasks, id);
    let rest = spec_visit_list(tasks, deps, (budget - 1) as nat)->0;
    lemma_task_index_bounds(tasks, id);
    assert(forall|k: int| 0 <= k < deps.len() ==> spec_table_contains(tasks, #[trigger] deps[k]));
    lemma_visit_list_record(tasks, deps, (budget - 1) as nat);
    assert(rec =~= seq![id] + rest);
    assert forall|p: int, d: Seq<char>|
        0 <= p < rec.len() && spec_task_dependencies(tasks, rec[p]).contains(d) implies exists|
        q: int,
    |
        p < q < rec.len() && rec[q] == d by {
        if p == 0 {
            let k = choose|k: int| 0 <= k < deps.len() && deps[k] == d;
            let q = choose|q: int| 0 <= q < rest.len() && rest[q] == deps[k];
            assert(rec[q + 1] == d);
        } else {
            assert(rest[p - 1] == rec[p]);
            let q = choose|q: int| p - 1 < q < rest.len() && rest[q] == d;
            assert(rec[q + 1] == d);
        }
    }
}

/// The shape of the concatenated visit records of a dependency list.
proof fn lemma_visit_list_record(tasks: Seq<TaskDeclaration>, pending: Seq<Seq<char>>, budget: nat)
    requires
        spec_table_closed(tasks),
        forall|k: int| 0 <= k < pending.len() ==> spec_table_contains(tasks, #[trigger] pending[k]),
        spec_visit_list(tasks, pending, budget) is Some,
    ensures
        forall|k: int|
            0 <= k < pending.len() ==> exists|q: int|
                0 <= q < spec_visit_list(tasks, pending, budget)->0.len() && spec_visit_list(
                    tasks,
                    pending,
                    budget,
                )->0[q] == #[trigger] pending[k],
        forall|p: int|
            0 <= p < spec_visit_list(tasks, pending, budget)->0.len() ==> spec_table_contains(
                tasks,
                #[trigger] spec_visit_list(tasks, pending, budget)->0[p],
            ),
        forall|p: int, d: Seq<char>|
            0 <= p < spec_visit_list(tasks, pending, budget)->0.len() && spec_task_dependencies(
                tasks,
                spec_visit_list(tasks, pending, budget)->0[p],
            ).contains(d) ==> exists|q: int|
                p < q < spec_visit_list(tasks, pending, budget)->0.len() && spec_visit_list(
                    tasks,
                    pending,
                    budget,
                )->0[q] == d,
    decreases budget, pending.len() + 1,
{
    if pending.len() > 0 {
        let r = spec_visit_list(tasks, pending, budget)->0;
        let first = spec_visit(tasks, pending.last(), budget)->0;
        let rest = spec_visit_list(tasks, pending.drop_last(), budget)->0;
        lemma_visit_record(tasks, pending.last(), budget);
        lemma_visit_list_record(tasks, pending.drop_last(), budget);
        assert(r =~= first + rest);
        assert forall|k: int| 0 <= k < pending.len() implies exists|q: int|
            0 <= q < r.len() && r[q] == #[trigger] pending[k] by {
            if k == pending.len() - 1 {
                assert(r[0] == pending[k]);
            } else {
                assert(pending.drop_last()[k] == pending[k]);
                let q = choose|q: int| 0 <= q < rest.len() && rest[q] == pending[k];
                assert(r[first.len() + q] == pending[k]);
            }
        }
        assert forall|p: int, d: Seq<char>|
            0 <= p < r.len() && spec_task_dependencies(tasks, r[p]).contains(d) implies exists|
            q: int,
        |
            p < q < r.len() && r[q] == d by {
            if p < first.len() {
                assert(first[p] == r[p]);
                let q = choose|q: int| p < q < first.len() && first[q] == d;
                assert(r[q] == d);
            } else {
                assert(rest[p - first.len()] == r[p]);
                let q = choose|q: int|
                    p - first.len() < q < rest.len() && rest[q] == d;
                assert(r[first.len() + q] == d);
            }
        }
    }
}

/// Dependency-ordered execution: in the computed order every task stands
/// strictly after each of its declared dependencies, and, each entry of the
/// order being in the table with the same guarantee, after its transitive
/// dependencies as well; and every task appears exactly once.
pub proof fn lemma_execution_order_respects_dependencies(
    tasks: Seq<TaskDeclaration>,
    root: Seq<char>,
    order: Seq<Seq<char>>,
)
    requires
        spec_table_closed(tasks),
        spec_table_contains(tasks, root),
        spec_visit(tasks, root, tasks.len() as nat) is Some,
        order == spec_dedup_from_end(spec_visit(tasks, root, tasks.len() as nat)->0),
    ensures
        order.no_duplicates(),
        order.contains(root),
        forall|i: int|
            0 <= i < order.len() ==> spec_table_contains(tasks, #[trigger] order[i]),
        forall|i: int, d: Seq<char>|
            0 <= i < order.len() && spec_task_dependencies(tasks, order[i]).contains(d)
                ==> exists|j: int| 0 <= j < i && order[j] == d,
{
    let rec = spec_visit(tasks, root, tasks.len() as nat)->0;
    lemma_visit_record(tasks, root, tasks.len() as nat);
    lemma_dedup_no_duplicates(rec);
    assert(rec[0] == root);
    assert(rec.contains(root));
    lemma_dedup_contains(rec, root);
    assert forall|i: int| 0 <= i < order.len() implies spec_table_contains(
        tasks,
        #[trigger] order[i],
    ) by {
        lemma_dedup_subset(rec, i);
        let k = choose|k: int| 0 <= k < rec.len() && rec[k] == order[i];
    }
    assert forall|i: int, d: Seq<char>|
        0 <= i < order.len() && spec_task_dependencies(tasks, order[i]).contains(d) implies exists|
        j: int,
    | 0 <= j < i && order[j] == d by {
        let t = order[i];
        lemma_dedup_subset(rec, i);
        lemma_last_index_properties(rec, t);
        let pt = spec_last_index(rec, t);
        assert(rec[pt] == t);
        // some later record entry is the dependency
        let q = choose|q: int| pt < q < rec.len() && rec[q] == d;
        assert(rec.contains(d));
        lemma_last_index_properties(rec, d);
        assert(spec_last_index(rec, d) >= q);
        assert(d != t);
        lemma_dedup_order(rec, t, d);
        let (jd, jt) = choose|jd: int, jt: int|
            0 <= jd < jt < order.len() && order[jd] == d && order[jt] == t;
        assert(jt == i) by {
            if jt != i {
                assert(order[jt] == order[i]);
            }
        }
    }
}

/// Finds a task in the table by name.
fn find_task(tasks: &Vec<TaskDeclaration>, id: &String) -> (r: Option<usize>)
    ensures
        match r {
            Some(i) => i < tasks@.len() && spec_task_index(tasks@, id@) == i as int,
            None => spec_task_index(tasks@, id@) == -1,
        },
{
    let n = tasks.len();
    let mut i: usize = 0;
    proof {
        assert(tasks@.skip(0) =~= tasks@);
    }
    while i < n
        invariant
            n == tasks@.len(),
            i <= n,
            spec_task_index(tasks@, id@) == if spec_task_index(tasks@.skip(i as int), id@) == -1 {
                -1int
            } else {
                i + spec_task_index(tasks@.skip(i as int), id@)
            },
        decreases n - i,
    {
        proof {
            assert(tasks@.skip(i as int)[0] == tasks@[i as int]);
            assert(tasks@.skip(i as int).drop_first() =~= tasks@.skip(i as int + 1));
        }
        if tasks[i].id == *id {
            return Some(i);
        }
        proof {
            assert(tasks@[i as int].id@ != id@);
            lemma_task_index_bounds(tasks@.skip(i as int + 1), id@);
            assert(spec_task_index(tasks@.skip(i as int), id@) == (
            if spec_task_index(tasks@.skip(i as int + 1), id@) == -1 {
                -1int
            } else {
                spec_task_index(tasks@.skip(i as int + 1), id@) + 1
            }));
        }
        i = i + 1;
    }
    proof {
        assert(tasks@.skip(n as int) =~= Seq::<TaskDeclaration>::empty());
    }
    None
}

/// Whether a name already stands in a list.
fn contains_id(list: &Vec<String>, id: &String) -> (r: bool)
    ensures
        r == list.deep_view().contains(id@),
{
    let n = list.len();
    let mut i: usize = 0;
    while i < n
        invariant
            n == list@.len(),
            i <= n,
            forall|j: int| 0 <= j < i ==> list.deep_view()[j] != id@,
        decreases n - i,
    {
        if list[i] == *id {
            proof {
                assert(list.deep_view()[i as int] == id@);
            }
            return true;
        }
        i = i + 1;
    }
    proof {
        assert(!list.deep_view().contains(id@)) by {
            if list.deep_view().contains(id@) {
                let j = choose|j: int|
                    0 <= j < list.deep_view().len() && list.deep_view()[j] == id@;
            }
        }
    }
    false
}

/// Explores `id` depth first within the given budget, appending every
/// visit to `record`; fails exactly when the budget is exhausted.
fn visit(tasks: &Vec<TaskDeclaration>, id: &String, budget: usize, record: &mut Vec<String>) -> (r:
    bool)
    requires
        spec_table_closed(tasks@),
        spec_table_contains(tasks@, id@),
    ensures
        r ==> (spec_visit(tasks@, id@, budget as nat) matches Some(v) && final(record).deep_view()
            == old(record).deep_view() + v),
        !r ==> spec_visit(tasks@, id@, budget as nat) is None,
    decreases budget, 0int,
{
    if budget == 0 {
        return false;
    }
    let ghost initial = record.deep_view();
    let index = match find_task(tasks, id) {
        Some(index) => index,
        None => {
            proof {
                assert(false);
            }
            return false;
        },
    };
    record.push(id.clone());
    proof {
        assert(record.deep_view() =~= initial + seq![id@]);
    }
    let declaration = &tasks[index];
    let deps = &declaration.dependencies;
    let ghost dv = deps.deep_view();
    let m = deps.len();
    let mut k: usize = m;
    let ghost mut accumulated: Seq<Seq<char>> = Seq::empty();
    proof {
        assert(dv == spec_task_dependencies(tasks@, id@));
        assert(dv.take(m as int) =~= dv);
        assert(initial + seq![id@] + accumulated =~= initial + seq![id@]);
    }
    while k > 0
        invariant
            spec_table_closed(tasks@),
            index < tasks@.len(),
            dv == spec_task_dependencies(tasks@, id@),
            deps == &tasks@[index as int].dependencies,
            dv == deps.deep_view(),
            m == deps@.len(),
            k <= m,
            budget >= 1,
            record.deep_view() == initial + seq![id@] + accumulated,
            spec_visit_list(tasks@, dv, (budget - 1) as nat) == (
            match spec_visit_list(tasks@, dv.take(k as int), (budget - 1) as nat) {
                Some(rest) => Some(accumulated + rest),
                None => None::<Seq<Seq<char>>>,
            }),
        decreases k,
    {
        proof {
            assert(dv.take(k as int).last() == dv[k as int - 1]);
            assert(dv.take(k as int).drop_last() =~= dv.take(k as int - 1));
            assert(spec_table_contains(tasks@, (tasks@[index as int].dependencies@[k as int
                - 1])@));
            assert(dv[k as int - 1] == (tasks@[index as int].dependencies@[k as int - 1])@);
        }
        let dependency = &deps[k - 1];
        let ok = visit(tasks, dependency, budget - 1, record);
        if !ok {
            proof {
                assert(spec_visit_list(tasks@, dv.take(k as int), (budget - 1) as nat) is None);
                assert(spec_visit_list(tasks@, dv, (budget - 1) as nat) is None);
            }
            return false;
        }
        proof {
            let sub = spec_visit(tasks@, dv[k as int - 1], (budget - 1) as nat)->0;
            accumulated = accumulated + sub;
            assert(record.deep_view() =~= initial + seq![id@] + accumulated);
        }
        k = k - 1;
    }
    proof {
        assert(dv.take(0) =~= Seq::<Seq<char>>::empty());
        assert(spec_visit_list(tasks@, dv.take(0), (budget - 1) as nat) == Some(Seq::<
            Seq<char>,
        >::empty()));
        assert(accumulated + Seq::<Seq<char>>::empty() =~= accumulated);
        assert(spec_visit_list(tasks@, dv, (budget - 1) as nat) == Some(accumulated));
        assert(spec_visit(tasks@, id@, budget as nat) == Some(seq![id@] + accumulated));
        assert(record.deep_view() =~= initial + (seq![id@] + accumulated));
    }
    true
}

/// Computes the order in which a task and its transitive dependencies
/// execute: the visit record is scanned from its end and only the first
/// occurrence of each task is kept, so that every task appears exactly
/// once and after all of its dependencies.  A cyclic declaration is
/// reported as an error instead of being explored without end.
pub fn execution_order(tasks: &Vec<TaskDeclaration>, root_task_id: &String) -> (r: Result<
    Vec<String>,
    TaskSchedulingError,
>)
    requires
        spec_table_closed(tasks@),
        spec_table_contains(tasks@, root_task_id@),
    ensures
        match r {
            Ok(order) => spec_visit(tasks@, root_task_id@, tasks@.len() as nat) matches Some(rec)
                && order.deep_view() == spec_dedup_from_end(rec),
            Err(e) => spec_visit(tasks@, root_task_id@, tasks@.len() as nat) is None && e
                == TaskSchedulingError::CircularDependency,
        },
{
    let mut record: Vec<String> = Vec::new();
    let ok = visit(tasks, root_task_id, tasks.len(), &mut record);
    if !ok {
        return Err(TaskSchedulingError::CircularDependency);
    }
    let ghost rec = record.deep_view();
    let n = record.len();
    let mut order: Vec<String> = Vec::new();
    let mut k: usize = n;
    proof {
        assert(rec.skip(n as int) =~= Seq::<Seq<char>>::empty());
        assert(order.deep_view() =~= spec_dedup_from_end(rec.skip(n as int)));
    }
    while k > 0
        invariant
            n == record@.len(),
            rec == record.deep_view(),
            k <= n,
            order.deep_view() == spec_dedup_from_end(rec.skip(k as int)),
        decreases k,
    {
        proof {
            assert(seq![rec[k as int - 1]] + rec.skip(k as int) =~= rec.skip(k as int - 1));
            lemma_dedup_prepend(rec.skip(k as int), rec[k as int - 1]);
        }
        let element = &record[k - 1];
        if !contains_id(&order, element) {
            let ghost before = order.deep_view();
            order.push(element.clone());
            proof {
                assert(order.deep_view() =~= before.push(rec[k as int - 1]));
            }
        }
        k = k - 1;
    }
    proof {
        assert(rec.skip(0) =~= rec);
    }
    Ok(order)
}

proof fn lemma_remove_value_no_duplicates(s: Seq<Seq<char>>, v: Seq<char>)
    requires
        s.no_duplicates(),
    ensures
        spec_remove_value(s, v).no_duplicates(),
    decreases s.len(),
{
    reveal(Seq::filter);
    if s.len() > 0 {
        assert(s.drop_last().no_duplicates());
        lemma_remove_value_no_duplicates(s.drop_last(), v);
        let prev = spec_remove_value(s.drop_last(), v);
        if s.last() != v {
            assert(spec_remove_value(s, v) == prev.push(s.last()));
            assert forall|i: int, j: int|
                0 <= i < prev.push(s.last()).len() && 0 <= j < prev.push(s.last()).len() && i
                    != j implies prev.push(s.last())[i] != prev.push(s.last())[j] by {
                if j == prev.len() {
                    if i < prev.len() {
                        lemma_remove_value_subset(s.drop_last(), v, i);
                        let k = choose|k: int|
                            0 <= k < s.drop_last().len() && s.drop_last()[k] == prev[i];
                        assert(s[k] == prev[i]);
                    }
                } else if i == prev.len() {
                    if j < prev.len() {
                        lemma_remove_value_subset(s.drop_last(), v, j);
                        let k = choose|k: int|
                            0 <= k < s.drop_last().len() && s.drop_last()[k] == prev[j];
                        assert(s[k] == prev[j]);
                    }
                }
            }
        }
    }
}

} // verus!
