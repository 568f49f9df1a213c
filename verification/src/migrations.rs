//! The migration registry: an ordered collection of versioned schema
//! migrations, applied in ascending version order exactly once each.
//!
//! The records may arrive in any source order; the registry orders them
//! by version.  Applying from a store version yields exactly the versions
//! above it, in ascending order, and re-running against the resulting
//! store version is a no-op.

use vstd::prelude::*;
use vstd::seq_lib::group_to_multiset_ensures;
use vstd::multiset::group_multiset_axioms;

verus! {

/// One schema migration: a version number, a human-readable description,
/// and the idempotent statement to run.
#[derive(PartialEq, Eq, Debug)]
pub struct MigrationRecord {
    pub version: i64,
    pub description: String,
    pub sql: String,
}

/// The version numbers of a record sequence, in order.
pub open spec fn versions_of(records: Seq<MigrationRecord>) -> Seq<i64> {
    records.map_values(|r: MigrationRecord| r.version)
}

/// Versions never decrease along the sequence.
pub open spec fn sorted_versions(vs: Seq<i64>) -> bool {
    forall|i: int, j: int| 0 <= i < j < vs.len() ==> vs[i] <= vs[j]
}

/// Versions strictly increase along the sequence: ordered, each version
/// occurring once.
pub open spec fn strictly_ascending(vs: Seq<i64>) -> bool {
    forall|i: int, j: int| 0 <= i < j < vs.len() ==> vs[i] < vs[j]
}

/// The record sequence is ordered by version.
pub open spec fn sorted_by_version(records: Seq<MigrationRecord>) -> bool {
    forall|i: int, j: int|
        0 <= i < j < records.len() ==> records[i].version <= records[j].version
}

/// A record sequence ordered by version has its version sequence ordered.
pub proof fn lemma_versions_sorted(records: Seq<MigrationRecord>)
    requires
        sorted_by_version(records),
    ensures
        sorted_versions(versions_of(records)),
{
    assert forall|i: int, j: int|
        0 <= i < j < versions_of(records).len() implies versions_of(records)[i] <= versions_of(
        records,
    )[j] by {
        assert(versions_of(records)[i] == records[i].version);
        assert(versions_of(records)[j] == records[j].version);
    }
}

/// The versions above `from`, in the order they stand in `vs`.
pub open spec fn pending_of(vs: Seq<i64>, from: i64) -> Seq<i64>
    decreases vs.len(),
{
    if vs.len() == 0 {
        Seq::empty()
    } else if vs.first() > from {
        seq![vs.first()] + pending_of(vs.drop_first(), from)
    } else {
        pending_of(vs.drop_first(), from)
    }
}

/// The store version after applying everything pending from `from`: the
/// last pending version, or `from` itself when nothing was pending.
pub open spec fn version_after(vs: Seq<i64>, from: i64) -> i64 {
    let p = pending_of(vs, from);
    if p.len() == 0 {
        from
    } else {
        p.last()
    }
}

/// Inserting an element anywhere in a sequence adds it, and nothing else,
/// to the sequence's multiset.
proof fn lemma_insert_to_multiset<A>(s: Seq<A>, pos: int, elt: A)
    requires
        0 <= pos <= s.len(),
    ensures
        s.insert(pos, elt).to_multiset() == s.to_multiset().insert(elt),
{
    broadcast use group_to_multiset_ensures, group_multiset_axioms;

    let t = s.insert(pos, elt);
    s.insert_ensures(pos, elt);
    t.remove_ensures(pos);
    assert(t.remove(pos) =~= s);
    assert(t[pos] == elt);
    assert(t.contains(elt));
    assert(t.to_multiset().count(elt) > 0);
    assert(s.to_multiset() == t.to_multiset().remove(elt));
    assert(t.to_multiset() =~= s.to_multiset().insert(elt));
}

/// The ordered collection of migrations.
pub struct MigrationRegistry {
    records: Vec<MigrationRecord>,
}

impl View for MigrationRegistry {
    type V = Seq<MigrationRecord>;

    closed spec fn view(&self) -> Seq<MigrationRecord> {
        self.records@
    }
}

impl MigrationRegistry {
    /// Builds the registry from records in any source order: the result
    /// is ordered by version and holds exactly the given records, each
    /// once.
    pub fn new(records: Vec<MigrationRecord>) -> (registry: Self)
        ensures
            sorted_by_version(registry@),
            registry@.to_multiset() == records@.to_multiset(),
            versions_of(registry@).to_multiset() == versions_of(records@).to_multiset(),
    {
        proof {
            broadcast use group_to_multiset_ensures, group_multiset_axioms;

        }
        let ghost orig = records@;
        let mut rest = records;
        let mut out: Vec<MigrationRecord> = Vec::new();
        proof {
            broadcast use group_to_multiset_ensures, group_multiset_axioms;

            assert(out@.to_multiset().add(rest@.to_multiset()) =~= orig.to_multiset());
            assert(versions_of(out@).to_multiset().add(versions_of(rest@).to_multiset())
                =~= versions_of(orig).to_multiset());
        }
        while rest.len() > 0
            invariant
                sorted_by_version(out@),
                out@.to_multiset().add(rest@.to_multiset()) == orig.to_multiset(),
                versions_of(out@).to_multiset().add(versions_of(rest@).to_multiset())
                    == versions_of(orig).to_multiset(),
            decreases rest@.len(),
        {
            let ghost rest_before = rest@;
            let next = rest.pop().unwrap();
            proof {
                broadcast use group_to_multiset_ensures, group_multiset_axioms;

                assert(rest_before =~= rest@.push(next));
                assert(rest_before.to_multiset() == rest@.to_multiset().insert(next));
                assert(versions_of(rest_before) =~= versions_of(rest@).push(next.version));
                assert(versions_of(rest_before).to_multiset() == versions_of(
                    rest@,
                ).to_multiset().insert(next.version));
            }
            let mut k: usize = 0;
            while k < out.len() && out[k].version <= next.version
                invariant
                    0 <= k <= out@.len(),
                    forall|j: int| 0 <= j < k ==> out@[j].version <= next.version,
                decreases out@.len() - k,
            {
                k = k + 1;
            }
            let ghost out_before = out@;
            proof {
                broadcast use group_to_multiset_ensures, group_multiset_axioms;

                lemma_insert_to_multiset(out@, k as int, next);
                out@.insert_ensures(k as int, next);
                assert(versions_of(out@.insert(k as int, next)) =~= versions_of(out@).insert(
                    k as int,
                    next.version,
                ));
                lemma_insert_to_multiset(versions_of(out@), k as int, next.version);
            }
            out.insert(k, next);
            proof {
                broadcast use group_to_multiset_ensures, group_multiset_axioms;

                out_before.insert_ensures(k as int, next);
                assert forall|i: int, j: int|
                    0 <= i < j < out@.len() implies out@[i].version <= out@[j].version by {
                    if j < k {
                        assert(out@[i] == out_before[i]);
                        assert(out@[j] == out_before[j]);
                    } else if j == k {
                        if i < k {
                            assert(out@[i] == out_before[i]);
                            assert(out@[j] == next);
                        }
                    } else {
                        assert(out@[j] == out_before[j - 1]);
                        if i < k {
                            assert(out@[i] == out_before[i]);
                        } else if i == k {
                            assert(out@[i] == next);
                            assert((k as int) < out_before.len());
                            assert(out_before[k as int].version > next.version);
                            assert(out_before[k as int].version <= out_before[j - 1].version || k as int == j - 1);
                        } else {
                            assert(out@[i] == out_before[i - 1]);
                        }
                    }
                }
                assert(out@.to_multiset().add(rest@.to_multiset()) =~= orig.to_multiset());
                assert(versions_of(out@).to_multiset().add(versions_of(rest@).to_multiset())
                    =~= versions_of(orig).to_multiset());
            }
        }
        proof {
            broadcast use group_to_multiset_ensures, group_multiset_axioms;

            assert(rest@ =~= Seq::<MigrationRecord>::empty());
            assert(rest@.to_multiset().len() == 0);
            assert(out@.to_multiset().add(rest@.to_multiset()) =~= out@.to_multiset());
            assert(versions_of(rest@) =~= Seq::<i64>::empty());
            assert(versions_of(rest@).to_multiset().len() == 0);
            assert(versions_of(out@).to_multiset().add(versions_of(rest@).to_multiset())
                =~= versions_of(out@).to_multiset());
        }
        MigrationRegistry { records: out }
    }

    /// How many migrations the registry holds.
    pub fn len(&self) -> (n: usize)
        ensures
            n == self@.len(),
    {
        self.records.len()
    }

    /// The version of the record at `index`.
    pub fn version_at(&self, index: usize) -> (version: i64)
        requires
            index < self@.len(),
        ensures
            version == self@[index as int].version,
    {
        self.records[index].version
    }

    /// The versions still to apply against a store at `store_version`:
    /// exactly those above it, in registry order.
    pub fn pending_versions(&self, store_version: i64) -> (pending: Vec<i64>)
        ensures
            pending@ == pending_of(versions_of(self@), store_version),
    {
        let ghost vs = versions_of(self@);
        let mut pending: Vec<i64> = Vec::new();
        let mut i: usize = 0;
        assert(vs.skip(0) =~= vs);
        assert(pending@ + pending_of(vs.skip(0), store_version) =~= pending_of(vs, store_version));
        while i < self.records.len()
            invariant
                0 <= i <= self@.len(),
                vs == versions_of(self@),
                vs.len() == self@.len(),
                pending_of(vs, store_version) == pending@ + pending_of(
                    vs.skip(i as int),
                    store_version,
                ),
            decreases self@.len() - i,
        {
            proof {
                assert(vs.skip(i as int).first() == vs[i as int]);
                assert(vs.skip(i as int).drop_first() =~= vs.skip(i as int + 1));
                assert(vs[i as int] == self@[i as int].version);
            }
            let version = self.records[i].version;
            if version > store_version {
                proof {
                    assert(pending@ + (seq![vs[i as int]] + pending_of(
                        vs.skip(i as int + 1),
                        store_version,
                    )) =~= pending@.push(version) + pending_of(vs.skip(i as int + 1), store_version));
                }
                pending.push(version);
            }
            i = i + 1;
        }
        assert(vs.skip(vs.len() as int) =~= Seq::<i64>::empty());
        assert(pending@ + pending_of(vs.skip(vs.len() as int), store_version) =~= pending@);
        pending
    }

    /// Applies from a store version: the versions run, in order, and the
    /// store version afterwards.
    pub fn apply_from(&self, store_version: i64) -> (outcome: (Vec<i64>, i64))
        ensures
            outcome.0@ == pending_of(versions_of(self@), store_version),
            outcome.1 == version_after(versions_of(self@), store_version),
    {
        let pending = self.pending_versions(store_version);
        let next = if pending.len() == 0 {
            store_version
        } else {
            pending[pending.len() - 1]
        };
        (pending, next)
    }
}

/// What is pending is exactly what lies above `from`: every pending
/// version is a version of the registry above `from`, and every version
/// above `from` is pending.
pub proof fn lemma_pending_membership(vs: Seq<i64>, from: i64)
    ensures
        forall|w: int| 0 <= w < pending_of(vs, from).len() ==> #[trigger] pending_of(vs, from)[w]
            > from,
        forall|w: int| 0 <= w < pending_of(vs, from).len() ==> vs.contains(
            #[trigger] pending_of(vs, from)[w],
        ),
        forall|i: int| 0 <= i < vs.len() && vs[i] > from ==> pending_of(vs, from).contains(
            #[trigger] vs[i],
        ),
    decreases vs.len(),
{
    if vs.len() > 0 {
        let tail = vs.drop_first();
        let p = pending_of(vs, from);
        let q = pending_of(tail, from);
        lemma_pending_membership(tail, from);
        assert(tail =~= vs.subrange(1, vs.len() as int));
        assert forall|w: int| 0 <= w < p.len() implies p[w] > from && vs.contains(p[w]) by {
            if vs.first() > from && w == 0 {
                assert(p[0] == vs[0]);
            } else {
                let wq: int = if vs.first() > from {
                    w - 1
                } else {
                    w
                };
                assert(p[w] == q[wq]);
                assert(q[wq] > from);
                assert(tail.contains(q[wq]));
                let u = choose|u: int| 0 <= u < tail.len() && tail[u] == q[wq];
                assert(vs[u + 1] == tail[u]);
                assert(vs.contains(p[w]));
            }
        }
        assert forall|i: int| 0 <= i < vs.len() && vs[i] > from implies p.contains(
            #[trigger] vs[i],
        ) by {
            if i == 0 {
                assert(vs.first() > from);
                assert(p[0] == vs[0]);
                assert(p.contains(p[0]));
            } else {
                assert(tail[i - 1] == vs[i]);
                assert(q.contains(tail[i - 1]));
                let u = choose|u: int| 0 <= u < q.len() && q[u] == vs[i];
                if vs.first() > from {
                    assert(p[u + 1] == q[u]);
                    assert(p.contains(p[u + 1]));
                } else {
                    assert(p[u] == q[u]);
                    assert(p.contains(p[u]));
                }
            }
        }
    }
}

/// When every version lies at or below `from`, nothing is pending.
pub proof fn lemma_pending_empty_when_applied(vs: Seq<i64>, from: i64)
    requires
        forall|i: int| 0 <= i < vs.len() ==> #[trigger] vs[i] <= from,
    ensures
        pending_of(vs, from).len() == 0,
    decreases vs.len(),
{
    if vs.len() > 0 {
        let tail = vs.drop_first();
        assert(tail =~= vs.subrange(1, vs.len() as int));
        assert forall|i: int| 0 <= i < tail.len() implies #[trigger] tail[i] <= from by {
            assert(tail[i] == vs[i + 1]);
        }
        lemma_pending_empty_when_applied(tail, from);
    }
}

/// Out of a registry with strictly ascending versions, the pending
/// versions are strictly ascending too: applied in ascending version
/// order, each exactly once.
pub proof fn lemma_pending_strictly_ascending(vs: Seq<i64>, from: i64)
    requires
        strictly_ascending(vs),
    ensures
        strictly_ascending(pending_of(vs, from)),
    decreases vs.len(),
{
    if vs.len() > 0 {
        let tail = vs.drop_first();
        let p = pending_of(vs, from);
        let q = pending_of(tail, from);
        assert(tail =~= vs.subrange(1, vs.len() as int));
        assert forall|i: int, j: int| 0 <= i < j < tail.len() implies tail[i] < tail[j] by {
            assert(tail[i] == vs[i + 1]);
            assert(tail[j] == vs[j + 1]);
        }
        lemma_pending_strictly_ascending(tail, from);
        lemma_pending_membership(tail, from);
        if vs.first() > from {
            assert forall|i: int, j: int| 0 <= i < j < p.len() implies p[i] < p[j] by {
                assert(p[j] == q[j - 1]);
                if i == 0 {
                    assert(p[0] == vs[0]);
                    assert(tail.contains(q[j - 1]));
                    let u = choose|u: int| 0 <= u < tail.len() && tail[u] == q[j - 1];
                    assert(tail[u] == vs[u + 1]);
                    assert(vs[0] < vs[u + 1]);
                } else {
                    assert(p[i] == q[i - 1]);
                }
            }
        } else {
            assert(p == q);
        }
    }
}

/// Re-running the registry against the store version that applying left
/// behind is a no-op: nothing is pending any more.
pub proof fn lemma_rerun_is_noop(vs: Seq<i64>, from: i64)
    requires
        strictly_ascending(vs),
    ensures
        pending_of(vs, version_after(vs, from)).len() == 0,
{
    let p = pending_of(vs, from);
    let f2 = version_after(vs, from);
    lemma_pending_membership(vs, from);
    lemma_pending_strictly_ascending(vs, from);
    assert forall|i: int| 0 <= i < vs.len() implies #[trigger] vs[i] <= f2 by {
        if vs[i] > from {
            assert(p.contains(vs[i]));
            let w = choose|w: int| 0 <= w < p.len() && p[w] == vs[i];
            assert(p[w] <= p[p.len() - 1]);
        } else {
            if p.len() > 0 {
                assert(p[p.len() - 1] > from);
            }
        }
    }
    lemma_pending_empty_when_applied(vs, f2);
}

/// A sequence ordered by version whose versions occur once each is
/// strictly ascending.
pub proof fn lemma_sorted_unique_strict(vs: Seq<i64>)
    requires
        sorted_versions(vs),
        vs.no_duplicates(),
    ensures
        strictly_ascending(vs),
{
}

/// Duplicate-freedom carries across multiset equality: ordering the
/// records loses no version and doubles none.
pub proof fn lemma_no_duplicates_transfer(a: Seq<i64>, b: Seq<i64>)
    requires
        a.to_multiset() == b.to_multiset(),
        a.no_duplicates(),
    ensures
        b.no_duplicates(),
{
    a.lemma_multiset_has_no_duplicates();
    b.lemma_multiset_has_no_duplicates_conv();
}

/// A registry built from records whose version numbers occur once each —
/// in whatever source order — applies its migrations in strictly
/// ascending version order, each exactly once, and re-running against the
/// store version left behind applies nothing.  The first two premises are
/// what `MigrationRegistry::new` establishes.
pub proof fn lemma_registry_applies_in_order(
    source: Seq<MigrationRecord>,
    ordered: Seq<MigrationRecord>,
    from: i64,
)
    requires
        sorted_by_version(ordered),
        versions_of(ordered).to_multiset() == versions_of(source).to_multiset(),
        versions_of(source).no_duplicates(),
    ensures
        strictly_ascending(pending_of(versions_of(ordered), from)),
        pending_of(versions_of(ordered), version_after(versions_of(ordered), from)).len() == 0,
{
    lemma_no_duplicates_transfer(versions_of(source), versions_of(ordered));
    lemma_versions_sorted(ordered);
    lemma_sorted_unique_strict(versions_of(ordered));
    lemma_pending_strictly_ascending(versions_of(ordered), from);
    lemma_rerun_is_noop(versions_of(ordered), from);
}

} // verus!