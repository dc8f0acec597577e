//! The state of the results viewer: fetched results grouped by benchmark,
//! and what its tables and plots show of a benchmark's runs.
use vstd::prelude::*;

use crate::model::{Benchmark, BenchmarkGroup, Measurement, MetricId, Unit};
use crate::sorted::{has_key, lookup, texts_sorted, SortedMap, TextKey};
use crate::text::{
    compare_text, lemma_lex_asymmetric, lemma_lex_irreflexive, lemma_lex_transitive, lex_lt, owned,
    push_str, TextOrder,
};

verus! {

/// The texts that identify a group.
pub open spec fn group_key(g: BenchmarkGroup) -> (Seq<char>, Seq<char>) {
    (g.repository@, g.name@)
}

/// Groups are ordered by repository, then by name.
pub open spec fn group_lt(a: BenchmarkGroup, b: BenchmarkGroup) -> bool {
    lex_lt(a.repository@, b.repository@) || (a.repository@ == b.repository@ && lex_lt(
        a.name@,
        b.name@,
    ))
}

proof fn lemma_group_lt_transitive(a: BenchmarkGroup, b: BenchmarkGroup, c: BenchmarkGroup)
    requires
        group_lt(a, b),
        group_lt(b, c),
    ensures
        group_lt(a, c),
{
    if lex_lt(a.repository@, b.repository@) && lex_lt(b.repository@, c.repository@) {
        lemma_lex_transitive(a.repository@, b.repository@, c.repository@);
    } else if a.repository@ == b.repository@ && b.repository@ == c.repository@ {
        lemma_lex_transitive(a.name@, b.name@, c.name@);
    }
}

proof fn lemma_group_lt_irreflexive(a: BenchmarkGroup, b: BenchmarkGroup)
    requires
        group_key(a) == group_key(b),
    ensures
        !group_lt(a, b),
{
    lemma_lex_irreflexive(a.repository@);
    lemma_lex_irreflexive(a.name@);
}

/// The result of comparing two groups.
fn compare_groups(a: &BenchmarkGroup, b: &BenchmarkGroup) -> (r: TextOrder)
    ensures
        r == TextOrder::Less <==> group_lt(*a, *b),
        r == TextOrder::Equal <==> group_key(*a) == group_key(*b),
        r == TextOrder::Greater <==> group_lt(*b, *a),
{
    proof {
        lemma_lex_asymmetric(a.repository@, b.repository@);
        lemma_lex_asymmetric(a.name@, b.name@);
        lemma_lex_irreflexive(a.repository@);
        lemma_lex_irreflexive(a.name@);
    }
    match compare_text(a.repository.as_str(), b.repository.as_str()) {
        TextOrder::Equal => compare_text(a.name.as_str(), b.name.as_str()),
        other => other,
    }
}

/// The runs of `list` that belong to the group with texts `key`, in order.
pub open spec fn runs_of(list: Seq<Benchmark>, key: (Seq<char>, Seq<char>)) -> Seq<Benchmark>
    decreases list.len(),
{
    if list.len() == 0 {
        Seq::empty()
    } else {
        let r = runs_of(list.drop_last(), key);
        if group_key(list.last().group) == key {
            r.push(list.last())
        } else {
            r
        }
    }
}

/// Groups sorted strictly by [`group_lt`].
pub open spec fn groups_sorted(g: Seq<(BenchmarkGroup, Vec<Benchmark>)>) -> bool {
    forall|a: int, b: int| #![trigger g[a], g[b]] 0 <= a < b < g.len() ==> group_lt(g[a].0, g[b].0)
}

/// `grouped` holds the runs of `list` by group: one entry per group that
/// occurs, in group order, each with its runs in the order of `list`.
pub open spec fn grouped_by_benchmark(
    list: Seq<Benchmark>,
    grouped: Seq<(BenchmarkGroup, Vec<Benchmark>)>,
) -> bool {
    &&& groups_sorted(grouped)
    &&& forall|k: int|
        0 <= k < grouped.len() ==> (#[trigger] grouped[k]).1@ == runs_of(
            list,
            group_key(grouped[k].0),
        ) && grouped[k].1@.len() > 0
    &&& forall|m: int|
        0 <= m < list.len() ==> exists|k: int|
            0 <= k < grouped.len() && group_key((#[trigger] grouped[k]).0) == group_key(
                (#[trigger] list[m]).group,
            )
}

proof fn lemma_runs_of_push(list: Seq<Benchmark>, b: Benchmark, key: (Seq<char>, Seq<char>))
    ensures
        runs_of(list.push(b), key) == if group_key(b.group) == key {
            runs_of(list, key).push(b)
        } else {
            runs_of(list, key)
        },
{
    assert(list.push(b).drop_last() == list);
}

proof fn lemma_runs_of_absent(list: Seq<Benchmark>, key: (Seq<char>, Seq<char>))
    requires
        forall|m: int| 0 <= m < list.len() ==> group_key((#[trigger] list[m]).group) != key,
    ensures
        runs_of(list, key) == Seq::<Benchmark>::empty(),
    decreases list.len(),
{
    if list.len() > 0 {
        assert forall|m: int| 0 <= m < list.drop_last().len() implies group_key(
            (#[trigger] list.drop_last()[m]).group,
        ) != key by {
            assert(list.drop_last()[m] == list[m]);
        }
        lemma_runs_of_absent(list.drop_last(), key);
    }
}

/// Groups the fetched runs by benchmark, keeping the order of the runs.
pub fn group_benchmarks(list: Vec<Benchmark>) -> (r: Vec<(BenchmarkGroup, Vec<Benchmark>)>)
    ensures
        grouped_by_benchmark(list@, r@),
{
    let ghost input = list@;
    let mut rest = list;
    let mut groups: Vec<(BenchmarkGroup, Vec<Benchmark>)> = Vec::new();
    let n: usize = rest.len();
    let mut i: usize = 0;
    assert(input.take(0) == Seq::<Benchmark>::empty());
    assert(input.skip(0) == input);
    while i < n
        invariant
            n == input.len(),
            i <= n,
            rest@ == input.skip(i as int),
            grouped_by_benchmark(input.take(i as int), groups@),
        decreases n - i,
    {
        let b = rest.remove(0);
        assert(b == input[i as int]);
        assert(rest@ == input.skip(i + 1));
        let ghost before = groups@;
        let ghost seen = input.take(i as int);
        assert(input.take(i + 1) == seen.push(b));
        let ng: usize = groups.len();
        let mut j: usize = 0;
        let mut found = false;
        while j < ng
            invariant_except_break
                ng == groups@.len(),
                groups@ == before,
                groups_sorted(before),
                j <= ng,
                forall|a: int| 0 <= a < j ==> group_lt((#[trigger] before[a]).0, b.group),
                !found,
            ensures
                ng == groups@.len(),
                groups@ == before,
                j <= ng,
                forall|a: int| 0 <= a < j ==> group_lt((#[trigger] before[a]).0, b.group),
                found ==> j < ng && group_key(before[j as int].0) == group_key(b.group),
                !found ==> j == ng || group_lt(b.group, before[j as int].0),
            decreases ng - j,
        {
            let order = compare_groups(&groups[j].0, &b.group);
            if order == TextOrder::Less {
                j = j + 1;
            } else {
                if order == TextOrder::Equal {
                    found = true;
                }
                break;
            }
        }
        proof {
            if !found && j < ng {
                assert forall|a: int| j <= a < ng implies group_lt(
                    b.group,
                    (#[trigger] before[a]).0,
                ) by {
                    if a > j {
                        lemma_group_lt_transitive(b.group, before[j as int].0, before[a].0);
                    }
                }
            }
        }
        let ghost key = group_key(b.group);
        if found {
            let (g, mut runs) = groups.remove(j);
            runs.push(b);
            groups.insert(j, (g, runs));
            proof {
                assert(groups@ == before.update(j as int, (g, runs)));
                assert forall|k: int|
                    0 <= k < groups@.len() implies (#[trigger] groups@[k]).1@ == runs_of(
                    input.take(i + 1),
                    group_key(groups@[k].0),
                ) && groups@[k].1@.len() > 0 by {
                    lemma_runs_of_push(seen, b, group_key(groups@[k].0));
                    if k != j {
                        assert(groups@[k] == before[k]);
                        if group_key(before[k].0) == key {
                            if k < j {
                                lemma_group_lt_transitive(before[k].0, before[j as int].0, b.group);
                                lemma_group_lt_irreflexive(before[k].0, b.group);
                            } else {
                                lemma_group_lt_irreflexive(before[j as int].0, before[k].0);
                            }
                        }
                    }
                }
                assert forall|m: int| 0 <= m < input.take(i + 1).len() implies exists|k: int|
                    0 <= k < groups@.len() && group_key((#[trigger] groups@[k]).0) == group_key(
                        (#[trigger] input.take(i + 1)[m]).group,
                    ) by {
                    if m < i {
                        assert(input.take(i + 1)[m] == seen[m]);
                        let k = choose|k: int|
                            0 <= k < before.len() && group_key((#[trigger] before[k]).0)
                                == group_key((#[trigger] seen[m]).group);
                        assert(groups@[k].0 == before[k].0);
                    } else {
                        assert(groups@[j as int].0 == g);
                    }
                }
            }
        } else {
            let mut runs: Vec<Benchmark> = Vec::new();
            let g = b.group.copy();
            runs.push(b);
            groups.insert(j, (g, runs));
            proof {
                assert(groups@ == before.insert(j as int, (g, runs)));
                assert forall|a: int, c: int|
                    #![trigger groups@[a], groups@[c]]
                    0 <= a < c < groups@.len() implies group_lt(groups@[a].0, groups@[c].0) by {
                    if a < j && c < j {
                        assert(group_lt(before[a].0, before[c].0));
                    } else if a < j && c == j {
                    } else if a < j && c > j {
                        lemma_group_lt_transitive(before[a].0, b.group, before[c - 1].0);
                    } else if a == j {
                    } else {
                        assert(group_lt(before[a - 1].0, before[c - 1].0));
                    }
                }
                assert forall|m: int| 0 <= m < seen.len() implies group_key(
                    (#[trigger] seen[m]).group,
                ) != key by {
                    if group_key(seen[m].group) == key {
                        let k = choose|k: int|
                            0 <= k < before.len() && group_key((#[trigger] before[k]).0)
                                == group_key((#[trigger] seen[m]).group);
                        if k < j {
                            lemma_group_lt_irreflexive(before[k].0, b.group);
                        } else {
                            if k > j {
                                lemma_group_lt_transitive(b.group, before[j as int].0, before[k].0);
                            }
                            lemma_group_lt_irreflexive(b.group, before[k].0);
                        }
                    }
                }
                lemma_runs_of_absent(seen, key);
                assert forall|k: int|
                    0 <= k < groups@.len() implies (#[trigger] groups@[k]).1@ == runs_of(
                    input.take(i + 1),
                    group_key(groups@[k].0),
                ) && groups@[k].1@.len() > 0 by {
                    lemma_runs_of_push(seen, b, group_key(groups@[k].0));
                    if k < j {
                        assert(groups@[k] == before[k]);
                        if group_key(before[k].0) == key {
                            lemma_group_lt_irreflexive(before[k].0, b.group);
                        }
                    } else if k > j {
                        assert(groups@[k] == before[k - 1]);
                        if group_key(before[k - 1].0) == key {
                            lemma_group_lt_irreflexive(b.group, before[k - 1].0);
                        }
                    } else {
                        assert(runs@ == seq![b]);
                        assert(Seq::<Benchmark>::empty().push(b) == seq![b]);
                    }
                }
                assert forall|m: int| 0 <= m < input.take(i + 1).len() implies exists|k: int|
                    0 <= k < groups@.len() && group_key((#[trigger] groups@[k]).0) == group_key(
                        (#[trigger] input.take(i + 1)[m]).group,
                    ) by {
                    if m < i {
                        assert(input.take(i + 1)[m] == seen[m]);
                        let k = choose|k: int|
                            0 <= k < before.len() && group_key((#[trigger] before[k]).0)
                                == group_key((#[trigger] seen[m]).group);
                        if k < j {
                            assert(groups@[k].0 == before[k].0);
                        } else {
                            assert(groups@[k + 1].0 == before[k].0);
                        }
                    } else {
                        assert(groups@[j as int].0 == g);
                    }
                }
            }
        }
        i = i + 1;
    }
    assert(input.take(n as int) == input);
    groups
}

/// Some run of `runs` has a measurement with ID text `id`.
pub open spec fn measured(runs: Seq<Benchmark>, id: Seq<char>) -> bool {
    exists|r: int| 0 <= r < runs.len() && has_key((#[trigger] runs[r]).measurements@, id)
}

/// The IDs of all measurements of `runs`, without repetition, in order.
pub fn metric_ids(runs: &Vec<Benchmark>) -> (r: Vec<MetricId>)
    ensures
        texts_sorted(r@.map_values(|m: MetricId| m@)),
        forall|t: Seq<char>| r@.map_values(|m: MetricId| m@).contains(t) <==> measured(runs@, t),
{
    let mut set: SortedMap<MetricId, ()> = SortedMap::new();
    let nr: usize = runs.len();
    for i in 0..nr
        invariant
            nr == runs@.len(),
            forall|t: Seq<char>| #[trigger] has_key(set@, t) <==> measured(runs@.take(i as int), t),
    {
        let entries = runs[i].measurements.entries();
        let ne: usize = entries.len();
        let ghost before = set@;
        for j in 0..ne
            invariant
                ne == entries@.len(),
                entries@ == runs@[i as int].measurements@,
                forall|t: Seq<char>|
                    #[trigger] has_key(set@, t) <==> has_key(before, t) || has_key(
                        entries@.take(j as int),
                        t,
                    ),
        {
            set.insert(entries[j].0.copy(), ());
            proof {
                let tj = entries@.take(j as int);
                let tj1 = entries@.take(j + 1);
                assert forall|t: Seq<char>|
                    #[trigger] has_key(tj1, t) <==> has_key(tj, t) || t == entries@[j as int].0@ by {
                    if has_key(tj1, t) {
                        let q = choose|q: int| 0 <= q < tj1.len() && (#[trigger] tj1[q]).0.text() == t;
                        if q < j {
                            assert(tj[q] == tj1[q]);
                        }
                    }
                    if has_key(tj, t) {
                        let q = choose|q: int| 0 <= q < tj.len() && (#[trigger] tj[q]).0.text() == t;
                        assert(tj1[q] == tj[q]);
                    }
                    if t == entries@[j as int].0@ {
                        assert(tj1[j as int] == entries@[j as int]);
                    }
                }
            }
        }
        proof {
            assert(entries@.take(ne as int) == entries@);
            let ti = runs@.take(i as int);
            let ti1 = runs@.take(i + 1);
            assert forall|t: Seq<char>| #[trigger]
                has_key(set@, t) <==> measured(ti1, t) by {
                if measured(ti1, t) {
                    let q = choose|q: int| 0 <= q < ti1.len() && has_key((#[trigger] ti1[q]).measurements@, t);
                    if q < i {
                        assert(ti[q] == ti1[q]);
                        assert(measured(ti, t));
                    }
                }
                if measured(ti, t) {
                    let q = choose|q: int| 0 <= q < ti.len() && has_key((#[trigger] ti[q]).measurements@, t);
                    assert(ti1[q] == ti[q]);
                }
                if has_key(entries@, t) {
                    assert(ti1[i as int] == runs@[i as int]);
                }
            }
        }
    }
    assert(runs@.take(nr as int) == runs@);
    let keys = set.keys();
    let entries = set.entries();
    proof {
        let v = keys@.map_values(|m: MetricId| m@);
        assert forall|a: int, c: int| #![trigger v[a], v[c]] 0 <= a < c < v.len() implies lex_lt(
            v[a],
            v[c],
        ) by {
            assert(keys@[a] == entries@[a].0);
            assert(keys@[c] == entries@[c].0);
            assert(lex_lt(entries@[a].0@, entries@[c].0@));
        }
        assert forall|t: Seq<char>| #[trigger] v.contains(t) implies measured(runs@, t) by {
            let a = choose|a: int| 0 <= a < v.len() && v[a] == t;
            assert(keys@[a] == entries@[a].0);
            assert(has_key(set@, t));
        }
        assert forall|t: Seq<char>| #[trigger] measured(runs@, t) implies v.contains(t) by {
            assert(has_key(set@, t));
            let a = choose|a: int| 0 <= a < set@.len() && (#[trigger] set@[a]).0@ == t;
            assert(keys@[a] == set@[a].0);
            assert(v[a] == t);
        }
    }
    keys
}

/// Some entry among `entries` has ID text `id` and unit `unit`.
pub open spec fn has_in_unit(entries: Seq<(MetricId, Measurement)>, id: Seq<char>, unit: Unit) -> bool {
    exists|q: int|
        0 <= q < entries.len() && (#[trigger] entries[q]).0@ == id && entries[q].1.unit == unit
}

/// Some run of `runs` has a measurement with ID text `id` in unit `unit`.
pub open spec fn measured_in(runs: Seq<Benchmark>, id: Seq<char>, unit: Unit) -> bool {
    exists|r: int| 0 <= r < runs.len() && has_in_unit((#[trigger] runs[r]).measurements@, id, unit)
}

/// The IDs of the measurements of `runs` in unit `unit`, without repetition,
/// in order: the series drawn in the plot of that unit.
pub fn plot_metric_ids(runs: &Vec<Benchmark>, unit: Unit) -> (r: Vec<MetricId>)
    ensures
        texts_sorted(r@.map_values(|m: MetricId| m@)),
        forall|t: Seq<char>|
            r@.map_values(|m: MetricId| m@).contains(t) <==> measured_in(runs@, t, unit),
{
    let mut set: SortedMap<MetricId, ()> = SortedMap::new();
    let nr: usize = runs.len();
    for i in 0..nr
        invariant
            nr == runs@.len(),
            forall|t: Seq<char>|
                #[trigger] has_key(set@, t) <==> measured_in(runs@.take(i as int), t, unit),
    {
        let entries = runs[i].measurements.entries();
        let ne: usize = entries.len();
        let ghost before = set@;
        for j in 0..ne
            invariant
                ne == entries@.len(),
                entries@ == runs@[i as int].measurements@,
                forall|t: Seq<char>|
                    #[trigger] has_key(set@, t) <==> has_key(before, t) || has_in_unit(
                        entries@.take(j as int),
                        t,
                        unit,
                    ),
        {
            if entries[j].1.unit == unit {
                set.insert(entries[j].0.copy(), ());
            }
            proof {
                let tj = entries@.take(j as int);
                let tj1 = entries@.take(j + 1);
                assert forall|t: Seq<char>|
                    #[trigger] has_in_unit(tj1, t, unit) <==> has_in_unit(tj, t, unit) || (t
                        == entries@[j as int].0@ && entries@[j as int].1.unit == unit) by {
                    if has_in_unit(tj1, t, unit) {
                        let q = choose|q: int|
                            0 <= q < tj1.len() && (#[trigger] tj1[q]).0@ == t && tj1[q].1.unit
                                == unit;
                        if q < j {
                            assert(tj[q] == tj1[q]);
                        }
                    }
                    if has_in_unit(tj, t, unit) {
                        let q = choose|q: int|
                            0 <= q < tj.len() && (#[trigger] tj[q]).0@ == t && tj[q].1.unit == unit;
                        assert(tj1[q] == tj[q]);
                    }
                    if t == entries@[j as int].0@ && entries@[j as int].1.unit == unit {
                        assert(tj1[j as int] == entries@[j as int]);
                    }
                }
            }
        }
        proof {
            assert(entries@.take(ne as int) == entries@);
            let ti = runs@.take(i as int);
            let ti1 = runs@.take(i + 1);
            assert forall|t: Seq<char>| #[trigger] has_key(set@, t) <==> measured_in(ti1, t, unit) by {
                if measured_in(ti1, t, unit) {
                    let q = choose|q: int|
                        0 <= q < ti1.len() && has_in_unit((#[trigger] ti1[q]).measurements@, t, unit);
                    if q < i {
                        assert(ti[q] == ti1[q]);
                        assert(measured_in(ti, t, unit));
                    } else {
                        assert(ti1[q] == runs@[i as int]);
                    }
                }
                if measured_in(ti, t, unit) {
                    let q = choose|q: int|
                        0 <= q < ti.len() && has_in_unit((#[trigger] ti[q]).measurements@, t, unit);
                    assert(ti1[q] == ti[q]);
                }
                if has_in_unit(entries@, t, unit) {
                    assert(ti1[i as int] == runs@[i as int]);
                }
            }
        }
    }
    assert(runs@.take(nr as int) == runs@);
    let keys = set.keys();
    let entries = set.entries();
    proof {
        let v = keys@.map_values(|m: MetricId| m@);
        assert forall|a: int, c: int| #![trigger v[a], v[c]] 0 <= a < c < v.len() implies lex_lt(
            v[a],
            v[c],
        ) by {
            assert(keys@[a] == entries@[a].0);
            assert(keys@[c] == entries@[c].0);
            assert(lex_lt(entries@[a].0@, entries@[c].0@));
        }
        assert forall|t: Seq<char>| #[trigger] v.contains(t) implies measured_in(runs@, t, unit) by {
            let a = choose|a: int| 0 <= a < v.len() && v[a] == t;
            assert(keys@[a] == entries@[a].0);
            assert(has_key(set@, t));
        }
        assert forall|t: Seq<char>| #[trigger] measured_in(runs@, t, unit) implies v.contains(t) by {
            assert(has_key(set@, t));
            let a = choose|a: int| 0 <= a < set@.len() && (#[trigger] set@[a]).0@ == t;
            assert(keys@[a] == set@[a].0);
            assert(v[a] == t);
        }
    }
    keys
}

/// The label of measurement `id` in the newest run that has it.
pub open spec fn latest_label(runs: Seq<Benchmark>, id: Seq<char>) -> Option<Seq<char>>
    decreases runs.len(),
{
    if runs.len() == 0 {
        None
    } else {
        match lookup(runs.last().measurements@, id) {
            Some(m) => Some(m.label@),
            None => latest_label(runs.drop_last(), id),
        }
    }
}

/// The name shown for a measurement: its label in the newest run that has
/// it, else its ID.
pub fn metric_label(runs: &Vec<Benchmark>, id: &MetricId) -> (r: String)
    ensures
        r@ == match latest_label(runs@, id@) {
            Some(l) => l,
            None => id@,
        },
        forall|k: int|
            0 <= k < runs@.len() && (#[trigger] lookup(runs@[k].measurements@, id@)) is Some && (
            forall|j: int|
                k < j < runs@.len() ==> (#[trigger] lookup(runs@[j].measurements@, id@)) is None)
                ==> r@ == lookup(runs@[k].measurements@, id@)->0.label@,
        (forall|k: int|
            0 <= k < runs@.len() ==> (#[trigger] lookup(runs@[k].measurements@, id@)) is None)
            ==> r@ == id@,
{
    let mut i: usize = runs.len();
    assert(runs@.take(i as int) == runs@);
    while i > 0
        invariant
            i <= runs@.len(),
            latest_label(runs@, id@) == latest_label(runs@.take(i as int), id@),
            forall|j: int|
                i <= j < runs@.len() ==> (#[trigger] lookup(runs@[j].measurements@, id@)) is None,
        decreases i,
    {
        let ghost t = runs@.take(i as int);
        assert(t.last() == runs@[i - 1]);
        assert(t.drop_last() == runs@.take(i - 1));
        match runs[i - 1].measurements.get(id.as_str()) {
            Some(m) => {
                proof {
                    assert forall|k: int|
                        0 <= k < runs@.len() && (#[trigger] lookup(runs@[k].measurements@, id@))
                            is Some && (forall|j: int|
                            k < j < runs@.len() ==> (#[trigger] lookup(
                                runs@[j].measurements@,
                                id@,
                            )) is None) implies k == i - 1 by {
                        if k < i - 1 {
                            assert(lookup(runs@[i - 1].measurements@, id@) is None);
                        }
                    }
                }
                return owned(m.label.as_str());
            },
            None => {},
        }
        i = i - 1;
    }
    owned(id.as_str())
}

/// Some measurement of `runs` has unit `u`.
pub open spec fn unit_used(runs: Seq<Benchmark>, u: Unit) -> bool {
    exists|r: int, j: int|
        0 <= r < runs.len() && 0 <= j < runs[r].measurements@.len() && (
        #[trigger] runs[r].measurements@[j]).1.unit == u
}

/// The units of the measurements of `runs`: one plot is drawn per unit.
pub fn units(runs: &Vec<Benchmark>) -> (r: Vec<Unit>)
    ensures
        r@ == (if unit_used(runs@, Unit::BitsPerSecond) {
            seq![Unit::BitsPerSecond]
        } else {
            Seq::empty()
        }) + (if unit_used(runs@, Unit::Percent) {
            seq![Unit::Percent]
        } else {
            Seq::empty()
        }) + (if unit_used(runs@, Unit::Seconds) {
            seq![Unit::Seconds]
        } else {
            Seq::empty()
        }) + (if unit_used(runs@, Unit::Count) {
            seq![Unit::Count]
        } else {
            Seq::empty()
        }),
{
    let mut bits = false;
    let mut percent = false;
    let mut seconds = false;
    let mut count = false;
    let nr: usize = runs.len();
    for r in 0..nr
        invariant
            nr == runs@.len(),
            bits == unit_used(runs@.take(r as int), Unit::BitsPerSecond),
            percent == unit_used(runs@.take(r as int), Unit::Percent),
            seconds == unit_used(runs@.take(r as int), Unit::Seconds),
            count == unit_used(runs@.take(r as int), Unit::Count),
    {
        let entries = runs[r].measurements.entries();
        let ne: usize = entries.len();
        let ghost t0 = runs@.take(r as int);
        let ghost t1 = runs@.take(r + 1);
        let ghost b0 = bits;
        let ghost p0 = percent;
        let ghost s0 = seconds;
        let ghost c0 = count;
        for j in 0..ne
            invariant
                ne == entries@.len(),
                entries@ == runs@[r as int].measurements@,
                bits == (b0 || exists|q: int|
                    0 <= q < j && (#[trigger] entries@[q]).1.unit == Unit::BitsPerSecond),
                percent == (p0 || exists|q: int|
                    0 <= q < j && (#[trigger] entries@[q]).1.unit == Unit::Percent),
                seconds == (s0 || exists|q: int|
                    0 <= q < j && (#[trigger] entries@[q]).1.unit == Unit::Seconds),
                count == (c0 || exists|q: int|
                    0 <= q < j && (#[trigger] entries@[q]).1.unit == Unit::Count),
        {
            match entries[j].1.unit {
                Unit::BitsPerSecond => {
                    bits = true;
                },
                Unit::Percent => {
                    percent = true;
                },
                Unit::Seconds => {
                    seconds = true;
                },
                Unit::Count => {
                    count = true;
                },
            }
        }
        proof {
            assert forall|u: Unit| #[trigger]
                unit_used(t1, u) == (unit_used(t0, u) || exists|q: int|
                    0 <= q < ne && (#[trigger] entries@[q]).1.unit == u) by {
                if unit_used(t1, u) {
                    let (a, c) = choose|a: int, c: int|
                        0 <= a < t1.len() && 0 <= c < t1[a].measurements@.len() && (
                        #[trigger] t1[a].measurements@[c]).1.unit == u;
                    if a < r {
                        assert(t0[a] == t1[a]);
                        assert(t0[a].measurements@[c].1.unit == u);
                    } else {
                        assert(entries@[c].1.unit == u);
                    }
                }
                if unit_used(t0, u) {
                    let (a, c) = choose|a: int, c: int|
                        0 <= a < t0.len() && 0 <= c < t0[a].measurements@.len() && (
                        #[trigger] t0[a].measurements@[c]).1.unit == u;
                    assert(t1[a] == t0[a]);
                    assert(t1[a].measurements@[c].1.unit == u);
                }
                if exists|q: int| 0 <= q < ne && (#[trigger] entries@[q]).1.unit == u {
                    let q = choose|q: int| 0 <= q < ne && (#[trigger] entries@[q]).1.unit == u;
                    assert(t1[r as int] == runs@[r as int]);
                    assert(t1[r as int].measurements@[q].1.unit == u);
                }
            }
        }
    }
    assert(runs@.take(nr as int) == runs@);
    let mut out: Vec<Unit> = Vec::new();
    if bits {
        out.push(Unit::BitsPerSecond);
    }
    let ghost o1 = out@;
    if percent {
        out.push(Unit::Percent);
    }
    let ghost o2 = out@;
    if seconds {
        out.push(Unit::Seconds);
    }
    let ghost o3 = out@;
    if count {
        out.push(Unit::Count);
    }
    proof {
        assert(o1 == (if bits {
            seq![Unit::BitsPerSecond]
        } else {
            Seq::<Unit>::empty()
        }));
    }
    out
}

/// The points of one plotted series: for each run (by index) that measured
/// `id` in unit `unit`, its index and the value's bits.
pub open spec fn series_of(runs: Seq<Benchmark>, id: Seq<char>, unit: Unit) -> Seq<(usize, u64)>
    decreases runs.len(),
{
    if runs.len() == 0 {
        Seq::empty()
    } else {
        let earlier = series_of(runs.drop_last(), id, unit);
        match lookup(runs.last().measurements@, id) {
            Some(m) => if m.unit == unit {
                earlier.push(((runs.len() - 1) as usize, m.value_bits))
            } else {
                earlier
            },
            None => earlier,
        }
    }
}

/// Point `p` belongs to the series of `id` in the plot of `unit`: run `p.0`
/// measured `id` in that unit, and `p.1` is the value's bits.
pub open spec fn plotted_point(runs: Seq<Benchmark>, id: Seq<char>, unit: Unit, p: (usize, u64)) -> bool {
    &&& p.0 < runs.len()
    &&& lookup(runs[p.0 as int].measurements@, id) matches Some(m)
    &&& m.unit == unit
    &&& m.value_bits == p.1
}

/// The points of the series of measurement `id` in the plot of `unit`.
pub fn series(runs: &Vec<Benchmark>, id: &MetricId, unit: Unit) -> (r: Vec<(usize, u64)>)
    ensures
        r@ == series_of(runs@, id@, unit),
        forall|k: int|
            0 <= k < r@.len() ==> plotted_point(runs@, id@, unit, #[trigger] r@[k]),
        forall|a: int, b: int| 0 <= a < b < r@.len() ==> r@[a].0 < r@[b].0,
        forall|j: int|
            0 <= j < runs@.len() && (#[trigger] lookup(runs@[j].measurements@, id@)) is Some
                && lookup(runs@[j].measurements@, id@)->0.unit == unit ==> exists|k: int|
                0 <= k < r@.len() && (#[trigger] r@[k]).0 == j,
{
    let mut out: Vec<(usize, u64)> = Vec::new();
    let nr: usize = runs.len();
    assert(runs@.take(0) == Seq::<Benchmark>::empty());
    for i in 0..nr
        invariant
            nr == runs@.len(),
            out@ == series_of(runs@.take(i as int), id@, unit),
            forall|k: int|
                0 <= k < out@.len() ==> plotted_point(runs@, id@, unit, #[trigger] out@[k])
                    && out@[k].0 < i,
            forall|a: int, b: int| 0 <= a < b < out@.len() ==> out@[a].0 < out@[b].0,
            forall|j: int|
                0 <= j < i && (#[trigger] lookup(runs@[j].measurements@, id@)) is Some
                    && lookup(runs@[j].measurements@, id@)->0.unit == unit ==> exists|k: int|
                    0 <= k < out@.len() && (#[trigger] out@[k]).0 == j,
    {
        let ghost t = runs@.take(i + 1);
        assert(t.drop_last() == runs@.take(i as int));
        assert(t.last() == runs@[i as int]);
        let ghost before = out@;
        match runs[i].measurements.get(id.as_str()) {
            Some(m) => {
                if m.unit == unit {
                    out.push((i, m.value_bits));
                }
            },
            None => {},
        }
        proof {
            assert forall|k: int| 0 <= k < before.len() implies out@[k] == before[k] by {}
            assert forall|j: int|
                0 <= j < i + 1 && (#[trigger] lookup(runs@[j].measurements@, id@)) is Some
                    && lookup(runs@[j].measurements@, id@)->0.unit == unit implies exists|k: int|
                0 <= k < out@.len() && (#[trigger] out@[k]).0 == j by {
                if j < i {
                    let k = choose|k: int| 0 <= k < before.len() && (#[trigger] before[k]).0 == j;
                    assert(out@[k] == before[k]);
                } else {
                    assert(out@[before.len() as int].0 == j);
                }
            }
        }
    }
    assert(runs@.take(nr as int) == runs@);
    out
}

/// The results viewer's view of the server: the fetched results, the last
/// error, and whether a request is under way.
pub struct HttpProvider {
    benchmarks: Vec<(BenchmarkGroup, Vec<Benchmark>)>,
    error: Option<String>,
    loading: bool,
}

impl View for HttpProvider {
    type V = (Seq<(BenchmarkGroup, Vec<Benchmark>)>, Option<String>, bool);

    closed spec fn view(&self) -> (Seq<(BenchmarkGroup, Vec<Benchmark>)>, Option<String>, bool) {
        (self.benchmarks@, self.error, self.loading)
    }
}

impl HttpProvider {
    #[verifier::type_invariant]
    closed spec fn sorted(&self) -> bool {
        groups_sorted(self.benchmarks@)
    }

    /// A provider with no results that has started its first request; the
    /// caller starts the fetch.
    pub fn new() -> (r: HttpProvider)
        ensures
            r@.0.len() == 0,
            r@.1 is None,
            r@.2,
    {
        let mut p = HttpProvider { benchmarks: Vec::new(), error: None, loading: false };
        let _ = p.refresh();
        p
    }

    /// Starts a request unless one is under way: `true` when the caller must
    /// fetch the results; the last error is cleared.
    pub fn refresh(&mut self) -> (fetch: bool)
        ensures
            fetch == !old(self)@.2,
            old(self)@.2 ==> final(self)@ == old(self)@,
            !old(self)@.2 ==> final(self)@ == (old(self)@.0, None::<String>, true),
    {
        proof {
            use_type_invariant(&*self);
        }
        if self.loading {
            return false;
        }
        self.loading = true;
        self.error = None;
        true
    }

    /// Takes in the answer to a request, if one came: the runs grouped by
    /// benchmark, or the error; the request is over either way.
    pub fn update(&mut self, answer: Option<Result<Vec<Benchmark>, String>>)
        ensures
            answer is None ==> final(self)@ == old(self)@,
            answer matches Some(Ok(list)) ==> !final(self)@.2 && final(self)@.1 == old(self)@.1
                && grouped_by_benchmark(list@, final(self)@.0),
            answer matches Some(Err(e)) ==> final(self)@ == (old(self)@.0, Some(e), false),
    {
        proof {
            use_type_invariant(&*self);
        }
        match answer {
            Some(Ok(list)) => {
                self.benchmarks = group_benchmarks(list);
                self.loading = false;
            },
            Some(Err(e)) => {
                self.loading = false;
                self.error = Some(e);
            },
            None => {},
        }
    }

    /// The runs by benchmark, in group order.
    pub fn benchmarks(&self) -> (r: &Vec<(BenchmarkGroup, Vec<Benchmark>)>)
        ensures
            r@ == self@.0,
            groups_sorted(r@),
    {
        proof {
            use_type_invariant(self);
        }
        &self.benchmarks
    }

    /// The runs of the benchmark `group`, if any were fetched.
    pub fn runs(&self, group: &BenchmarkGroup) -> (r: Option<&Vec<Benchmark>>)
        ensures
            match r {
                Some(v) => exists|k: int|
                    0 <= k < self@.0.len() && group_key((#[trigger] self@.0[k]).0) == group_key(
                        *group,
                    ) && *v == self@.0[k].1,
                None => forall|k: int|
                    0 <= k < self@.0.len() ==> group_key((#[trigger] self@.0[k]).0) != group_key(
                        *group,
                    ),
            },
    {
        let n: usize = self.benchmarks.len();
        for i in 0..n
            invariant
                n == self@.0.len(),
                self@.0 == self.benchmarks@,
                forall|k: int|
                    0 <= k < i ==> group_key((#[trigger] self@.0[k]).0) != group_key(*group),
        {
            if compare_groups(&self.benchmarks[i].0, group) == TextOrder::Equal {
                return Some(&self.benchmarks[i].1);
            }
        }
        None
    }

    /// The error of the last request, if it failed.
    pub fn error(&self) -> (r: Option<&str>)
        ensures
            match r {
                Some(s) => self@.1 matches Some(e) && s@ == e@,
                None => self@.1 is None,
            },
    {
        match &self.error {
            Some(e) => Some(e.as_str()),
            None => None,
        }
    }

    pub fn is_loading(&self) -> (r: bool)
        ensures
            r == self@.2,
    {
        self.loading
    }
}

/// "failed to fetch benchmark results: {detail}"
pub fn fetch_error(detail: &str) -> (r: String)
    ensures
        r@ == "failed to fetch benchmark results: "@ + detail@,
{
    let mut s = owned("failed to fetch benchmark results: ");
    push_str(&mut s, detail);
    s
}

/// "failed to decode benchmark results: {detail}"
pub fn decode_error(detail: &str) -> (r: String)
    ensures
        r@ == "failed to decode benchmark results: "@ + detail@,
{
    let mut s = owned("failed to decode benchmark results: ");
    push_str(&mut s, detail);
    s
}

} // verus!
