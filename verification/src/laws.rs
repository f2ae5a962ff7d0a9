//! The laws of the store: count conservation, idempotence of creation
//! and deletion, non-negative counts, reclaim soundness, and durable
//! reclaim equality, each proved over the transition relations that the
//! transactions' contracts establish.

use vstd::prelude::*;

use crate::datastore::{
    count_addr,
    create_commits,
    delete_commits,
    find_volume,
    has_volume,
    lemma_find_volume_at,
    lemma_find_volume_none,
    region_reclaimable,
    targets_of_data,
    DataStore,
};
use crate::model::{ResourcesView, Volume};
use crate::reclaim::{dec_resources, lemma_resources_round_trip};

verus! {

/// The live references to `addr`: over all volumes not yet
/// soft-deleted, how often `addr` occurs among their walked read-only
/// targets, counted with multiplicity.
pub open spec fn live_refs(vs: Seq<Volume>, addr: Seq<u8>) -> int
    decreases vs.len(),
{
    if vs.len() == 0 {
        0int
    } else {
        live_refs(vs.drop_last(), addr) + if vs.last().time_deleted is None {
            count_addr(targets_of_data(vs.last().data@), addr)
        } else {
            0int
        }
    }
}

/// Count conservation, as a relation: every snapshot row's count equals
/// a fixed base for its address plus the live references to it.
pub open spec fn counts_consistent(ds: DataStore, base: Map<Seq<u8>, int>) -> bool {
    forall|j: int|
        0 <= j < ds.region_snapshots@.len() ==> {
            let s = (#[trigger] ds.region_snapshots@[j])@;
            base.contains_key(s.snapshot_addr) && s.volume_references == base[s.snapshot_addr]
                + live_refs(ds.volumes@, s.snapshot_addr)
        }
}

proof fn lemma_count_addr_nonneg(ts: Seq<Seq<u8>>, addr: Seq<u8>)
    ensures
        count_addr(ts, addr) >= 0,
    decreases ts.len(),
{
    if ts.len() > 0 {
        lemma_count_addr_nonneg(ts.drop_last(), addr);
    }
}

proof fn lemma_live_refs_nonneg(vs: Seq<Volume>, addr: Seq<u8>)
    ensures
        live_refs(vs, addr) >= 0,
    decreases vs.len(),
{
    if vs.len() > 0 {
        lemma_live_refs_nonneg(vs.drop_last(), addr);
        lemma_count_addr_nonneg(targets_of_data(vs.last().data@), addr);
    }
}

/// Soft-deleting one row lowers the live references to every address
/// by exactly that volume's multiplicity for it.
proof fn lemma_live_refs_soft_delete(pre: Seq<Volume>, post: Seq<Volume>, i: int, addr: Seq<u8>)
    requires
        pre.len() == post.len(),
        0 <= i < pre.len(),
        forall|k: int| 0 <= k < pre.len() && k != i ==> post[k] == pre[k],
        pre[i].time_deleted is None,
        post[i].time_deleted is Some,
        post[i]@.data == pre[i]@.data,
    ensures
        live_refs(post, addr) == live_refs(pre, addr) - count_addr(
            targets_of_data(pre[i].data@),
            addr,
        ),
    decreases pre.len(),
{
    if i == pre.len() - 1 {
        assert(pre.drop_last() =~= post.drop_last());
    } else {
        assert(forall|k: int|
            0 <= k < pre.drop_last().len() && k != i ==> pre.drop_last()[k]
                == #[trigger] post.drop_last()[k]);
        assert(pre.drop_last()[i] == pre[i]);
        assert(post.drop_last()[i] == post[i]);
        lemma_live_refs_soft_delete(pre.drop_last(), post.drop_last(), i, addr);
        assert(post.last() == pre.last());
    }
}

/// Count conservation under a committed creation: if every snapshot
/// count equalled its base plus the live references to its address,
/// it still does once the new volume's references are added.
pub proof fn lemma_count_conservation_create(
    pre: DataStore,
    post: DataStore,
    v: Volume,
    base: Map<Seq<u8>, int>,
)
    requires
        create_commits(pre, post, v),
        v.time_deleted is None,
        counts_consistent(pre, base),
    ensures
        counts_consistent(post, base),
{
    assert forall|j: int| 0 <= j < post.region_snapshots@.len() implies {
        let s = (#[trigger] post.region_snapshots@[j])@;
        base.contains_key(s.snapshot_addr) && s.volume_references == base[s.snapshot_addr]
            + live_refs(post.volumes@, s.snapshot_addr)
    } by {
        let sp = pre.region_snapshots@[j]@;
        let so = post.region_snapshots@[j]@;
        let addr = sp.snapshot_addr;
        assert(so.snapshot_addr == addr && so.volume_references == sp.volume_references
            + count_addr(targets_of_data(v.data@), addr));
        assert(post.volumes@.drop_last() =~= pre.volumes@);
        assert(post.volumes@.last() == v);
        assert(live_refs(post.volumes@, addr) == live_refs(pre.volumes@, addr) + count_addr(
            targets_of_data(v.data@),
            addr,
        ));
    }
}

/// Count conservation under a committed deletion: the dropped counts
/// match exactly the references the soft-deleted volume stops holding.
pub proof fn lemma_count_conservation_delete(
    pre: DataStore,
    post: DataStore,
    volume_id: u128,
    rv: ResourcesView,
    base: Map<Seq<u8>, int>,
)
    requires
        pre.wf(),
        delete_commits(pre, post, volume_id, rv),
        counts_consistent(pre, base),
    ensures
        counts_consistent(post, base),
{
    assert(has_volume(pre.volumes@, volume_id)) by {
        if !has_volume(pre.volumes@, volume_id) {
            lemma_find_volume_none(pre.volumes@, volume_id);
        }
    }
    let i = choose|i: int| 0 <= i < pre.volumes@.len() && pre.volumes@[i].id == volume_id;
    assert(forall|k: int|
        0 <= k < pre.volumes@.len() && k != i ==> (#[trigger] pre.volumes@[k]).id != volume_id);
    lemma_find_volume_at(pre.volumes@, volume_id, i);
    assert(find_volume(pre.volumes@, volume_id) == Some(pre.volumes@[i]));
    let data = pre.volumes@[i].data@;
    assert forall|j: int| 0 <= j < post.region_snapshots@.len() implies {
        let s = (#[trigger] post.region_snapshots@[j])@;
        base.contains_key(s.snapshot_addr) && s.volume_references == base[s.snapshot_addr]
            + live_refs(post.volumes@, s.snapshot_addr)
    } by {
        let sp = pre.region_snapshots@[j]@;
        let so = post.region_snapshots@[j]@;
        let addr = sp.snapshot_addr;
        assert(so.snapshot_addr == addr && so.volume_references == sp.volume_references
            - count_addr(targets_of_data(data), addr));
        lemma_live_refs_soft_delete(pre.volumes@, post.volumes@, i, addr);
    }
}

/// Create idempotence: a committed creation leaves its own row behind,
/// so a repeated call meets that row and, by `volume_create`'s
/// contract, returns it unchanged and raises no count.
pub proof fn lemma_create_idempotent(pre: DataStore, mid: DataStore, v: Volume)
    requires
        pre.wf(),
        create_commits(pre, mid, v),
    ensures
        has_volume(mid.volumes@, v.id),
        forall|i: int|
            0 <= i < mid.volumes@.len() && (#[trigger] mid.volumes@[i]).id == v.id
                ==> mid.volumes@[i] == v,
{
    let n = mid.volumes@.len() - 1;
    assert(mid.volumes@[n] == v);
    assert forall|i: int|
        0 <= i < mid.volumes@.len() && (#[trigger] mid.volumes@[i]).id == v.id implies mid.volumes@[i]
        == v by {
        if i < n {
            assert(mid.volumes@[i] == pre.volumes@[i]);
        }
    }
}

/// Durable reclaim equality: after a committed deletion, the bytes
/// recorded in the row decode to exactly the set the call returned.
pub proof fn lemma_durable_reclaim(
    pre: DataStore,
    post: DataStore,
    volume_id: u128,
    rv: ResourcesView,
)
    requires
        pre.wf(),
        delete_commits(pre, post, volume_id, rv),
    ensures
        match find_volume(post.volumes@, volume_id) {
            Some(v) => v.time_deleted is Some && v.resources_to_clean_up is Some && dec_resources(
                v.resources_to_clean_up.unwrap()@,
            ) == Some(rv),
            None => false,
        },
{
    assert(has_volume(pre.volumes@, volume_id)) by {
        if !has_volume(pre.volumes@, volume_id) {
            lemma_find_volume_none(pre.volumes@, volume_id);
        }
    }
    let i = choose|i: int| 0 <= i < pre.volumes@.len() && pre.volumes@[i].id == volume_id;
    assert(forall|k: int|
        0 <= k < pre.volumes@.len() && k != i ==> (#[trigger] pre.volumes@[k]).id != volume_id);
    assert(post.volumes@[i]@.id == volume_id);
    assert forall|k: int| 0 <= k < i implies (#[trigger] post.volumes@[k]).id != volume_id by {
        assert(post.volumes@[k] == pre.volumes@[k]);
    }
    lemma_find_volume_at(post.volumes@, volume_id, i);
    lemma_resources_round_trip(rv);
    let row = post.volumes@[i];
    assert(row@.resources_to_clean_up == Some(crate::reclaim::enc_resources(rv)));
    assert(row.resources_to_clean_up is Some);
    assert(row.resources_to_clean_up.unwrap()@ == crate::reclaim::enc_resources(rv));
}

/// Delete idempotence: a committed deletion soft-deletes the row with
/// the returned set serialized into it, and that record decodes back
/// to the very set; by the deletion's contract every replay therefore
/// returns the same set and changes nothing.
pub proof fn lemma_delete_idempotent(
    pre: DataStore,
    mid: DataStore,
    volume_id: u128,
    rv: ResourcesView,
)
    requires
        pre.wf(),
        delete_commits(pre, mid, volume_id, rv),
    ensures
        match find_volume(mid.volumes@, volume_id) {
            Some(v) => v.time_deleted is Some && v.resources_to_clean_up is Some && dec_resources(
                v.resources_to_clean_up.unwrap()@,
            ) == Some(rv),
            None => false,
        },
{
    lemma_durable_reclaim(pre, mid, volume_id, rv);
}

/// Non-negative counts: a store whose counts are consistent with a
/// non-negative base holds no reference count below zero.
pub proof fn lemma_nonnegative_counts(ds: DataStore, base: Map<Seq<u8>, int>)
    requires
        counts_consistent(ds, base),
        forall|a: Seq<u8>| base.contains_key(a) ==> base[a] >= 0,
    ensures
        forall|j: int|
            0 <= j < ds.region_snapshots@.len() ==> (
            #[trigger] ds.region_snapshots@[j]).volume_references >= 0,
{
    assert forall|j: int| 0 <= j < ds.region_snapshots@.len() implies (
    #[trigger] ds.region_snapshots@[j]).volume_references >= 0 by {
        let addr = ds.region_snapshots@[j]@.snapshot_addr;
        lemma_live_refs_nonneg(ds.volumes@, addr);
    }
}

proof fn lemma_zeroed_snapshots_sound(
    snaps: Seq<crate::model::RegionSnapshot>,
    datasets: Seq<crate::model::Dataset>,
)
    ensures
        forall|j: int|
            0 <= j < crate::datastore::zeroed_snapshots(snaps, datasets).len() ==> (
            #[trigger] crate::datastore::zeroed_snapshots(
                snaps,
                datasets,
            )[j]).1.volume_references == 0,
    decreases snaps.len(),
{
    if snaps.len() > 0 {
        lemma_zeroed_snapshots_sound(snaps.drop_last(), datasets);
        let z = crate::datastore::zeroed_snapshots(snaps, datasets);
        let zr = crate::datastore::zeroed_snapshots(snaps.drop_last(), datasets);
        assert forall|j: int| 0 <= j < z.len() implies (#[trigger] z[j]).1.volume_references
            == 0 by {
            if j < zr.len() {
                assert(z[j] == zr[j]);
            } else {
                assert(snaps.last().volume_references == 0);
            }
        }
    }
}

proof fn lemma_reclaim_regions_sound(
    regions: Seq<crate::model::Region>,
    datasets: Seq<crate::model::Dataset>,
    snaps: Seq<crate::model::RegionSnapshot>,
    vid: u128,
)
    ensures
        forall|j: int|
            0 <= j < crate::datastore::reclaim_regions(regions, datasets, snaps, vid).len() ==> {
                let p = #[trigger] crate::datastore::reclaim_regions(
                    regions,
                    datasets,
                    snaps,
                    vid,
                )[j];
                p.1.volume_id == vid && region_reclaimable(p.1, snaps)
            },
    decreases regions.len(),
{
    if regions.len() > 0 {
        lemma_reclaim_regions_sound(regions.drop_last(), datasets, snaps, vid);
        let z = crate::datastore::reclaim_regions(regions, datasets, snaps, vid);
        let zr = crate::datastore::reclaim_regions(regions.drop_last(), datasets, snaps, vid);
        assert forall|j: int| 0 <= j < z.len() implies {
            let p = #[trigger] z[j];
            p.1.volume_id == vid && region_reclaimable(p.1, snaps)
        } by {
            if j < zr.len() {
                assert(z[j] == zr[j]);
            }
        }
    }
}

/// Reclaim soundness: in the state the deletion committed, every
/// snapshot pair of the returned set stands at zero references, and
/// no surviving snapshot row protects any region pair of the set.
pub proof fn lemma_reclaim_soundness(
    pre: DataStore,
    post: DataStore,
    volume_id: u128,
    rv: ResourcesView,
)
    requires
        delete_commits(pre, post, volume_id, rv),
    ensures
        forall|j: int|
            0 <= j < rv.datasets_and_snapshots.len() ==> (
            #[trigger] rv.datasets_and_snapshots[j]).1.volume_references == 0,
        forall|j: int|
            0 <= j < rv.datasets_and_regions.len() ==> region_reclaimable(
                (#[trigger] rv.datasets_and_regions[j]).1,
                post.region_snapshots@,
            ) && rv.datasets_and_regions[j].1.volume_id == volume_id,
{
    lemma_zeroed_snapshots_sound(post.region_snapshots@, pre.datasets@);
    lemma_reclaim_regions_sound(pre.regions@, pre.datasets@, post.region_snapshots@, volume_id);
}

} // verus!
