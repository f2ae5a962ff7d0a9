//! The store and its transactions: idempotent creation, idempotent
//! soft-deletion with durable capture of the reclaimable set, hard
//! deletion, and the sweeper's query.

use vstd::prelude::*;

use crate::codec::{dec_vcr_full, parse_volume_construction_request};
use crate::model::{
    CrucibleResources,
    CrucibleResourcesV1,
    Dataset,
    Region,
    RegionSnapshot,
    RegionSnapshotView,
    ResourcesView,
    Volume,
    VolumeError,
    VolumeView,
};
use crate::reclaim::{
    decode_resources,
    dec_resources,
    ds_views,
    enc_resources,
    encode_resources,
    resources_bounded,
    snap_bounded,
};
use crate::walker::{
    bytes_views,
    read_only_targets,
    resources_associated_with_volume,
    CrucibleTargets,
};
use crate::bytes_eq;
use crate::hex::{lemma_pow16_16, pow16};

verus! {

/// The relations of the backing store.
pub struct DataStore {
    pub volumes: Vec<Volume>,
    pub regions: Vec<Region>,
    pub datasets: Vec<Dataset>,
    pub region_snapshots: Vec<RegionSnapshot>,
}

/// Whether a row with this volume id is present.
pub open spec fn has_volume(vs: Seq<Volume>, id: u128) -> bool {
    exists|i: int| 0 <= i < vs.len() && vs[i].id == id
}

/// The first row with this volume id, front to back.
pub open spec fn find_volume(vs: Seq<Volume>, id: u128) -> Option<Volume>
    decreases vs.len(),
{
    if vs.len() == 0 {
        None
    } else if vs.first().id == id {
        Some(vs.first())
    } else {
        find_volume(vs.drop_first(), id)
    }
}

/// The first dataset row with this id, front to back.
pub open spec fn find_dataset(ds: Seq<Dataset>, id: u128) -> Option<Dataset>
    decreases ds.len(),
{
    if ds.len() == 0 {
        None
    } else if ds.first().id == id {
        Some(ds.first())
    } else {
        find_dataset(ds.drop_first(), id)
    }
}

/// The read-only targets of a serialized construction request; nothing
/// when the bytes do not decode.
pub open spec fn targets_of_data(data: Seq<u8>) -> Seq<Seq<u8>> {
    match dec_vcr_full(data) {
        Some(v) => read_only_targets(v),
        None => Seq::empty(),
    }
}

/// How often `addr` occurs among the targets.
pub open spec fn count_addr(ts: Seq<Seq<u8>>, addr: Seq<u8>) -> int
    decreases ts.len(),
{
    if ts.len() == 0 {
        0int
    } else {
        count_addr(ts.drop_last(), addr) + if ts.last() == addr {
            1int
        } else {
            0int
        }
    }
}

/// Row `b` is row `a` with its reference count moved by `d`.
pub open spec fn snap_shifted(a: RegionSnapshotView, b: RegionSnapshotView, d: int) -> bool {
    b.dataset_id == a.dataset_id && b.region_id == a.region_id && b.snapshot_id == a.snapshot_id
        && b.snapshot_addr == a.snapshot_addr && b.volume_references == a.volume_references + d
}

/// Every snapshot row's count moved by its address's multiplicity among
/// the targets, with the given sign.
pub open spec fn snaps_shifted(
    pre: Seq<RegionSnapshot>,
    post: Seq<RegionSnapshot>,
    ts: Seq<Seq<u8>>,
    sign: int,
) -> bool {
    post.len() == pre.len() && forall|j: int|
        0 <= j < pre.len() ==> snap_shifted(
            pre[j]@,
            #[trigger] post[j]@,
            sign * count_addr(ts, pre[j]@.snapshot_addr),
        )
}

/// Every shifted count stays inside the machine range.
pub open spec fn shift_fits(snaps: Seq<RegionSnapshot>, ts: Seq<Seq<u8>>, sign: int) -> bool {
    forall|j: int|
        0 <= j < snaps.len() ==> i64::MIN <= (#[trigger] snaps[j]@.volume_references) + sign
            * count_addr(ts, snaps[j]@.snapshot_addr) <= i64::MAX
}

/// No snapshot row of this region holds a live reference.
pub open spec fn region_reclaimable(r: Region, snaps: Seq<RegionSnapshot>) -> bool {
    forall|j: int|
        0 <= j < snaps.len() && (#[trigger] snaps[j]).region_id == r.id && snaps[j].dataset_id
            == r.dataset_id ==> snaps[j].volume_references == 0
}

/// The regions of this volume no surviving snapshot protects, joined to
/// their datasets, in table order.
pub open spec fn reclaim_regions(
    regions: Seq<Region>,
    datasets: Seq<Dataset>,
    snaps: Seq<RegionSnapshot>,
    vid: u128,
) -> Seq<(Dataset, Region)>
    decreases regions.len(),
{
    if regions.len() == 0 {
        Seq::empty()
    } else {
        let rest = reclaim_regions(regions.drop_last(), datasets, snaps, vid);
        let r = regions.last();
        if r.volume_id == vid && region_reclaimable(r, snaps) && find_dataset(
            datasets,
            r.dataset_id,
        ) is Some {
            rest.push((find_dataset(datasets, r.dataset_id).unwrap(), r))
        } else {
            rest
        }
    }
}

/// Every snapshot row at zero references, joined to its dataset, in
/// table order.
pub open spec fn zeroed_snapshots(snaps: Seq<RegionSnapshot>, datasets: Seq<Dataset>) -> Seq<
    (Dataset, RegionSnapshotView),
>
    decreases snaps.len(),
{
    if snaps.len() == 0 {
        Seq::empty()
    } else {
        let rest = zeroed_snapshots(snaps.drop_last(), datasets);
        let s = snaps.last();
        if s.volume_references == 0 && find_dataset(datasets, s.dataset_id) is Some {
            rest.push((find_dataset(datasets, s.dataset_id).unwrap(), s@))
        } else {
            rest
        }
    }
}

/// The sweeper's rows: each region of a soft-deleted volume that no
/// surviving snapshot protects, joined to dataset and volume.
pub open spec fn deleted_volume_regions(
    regions: Seq<Region>,
    datasets: Seq<Dataset>,
    snaps: Seq<RegionSnapshot>,
    volumes: Seq<Volume>,
) -> Seq<(Dataset, Region, VolumeView)>
    decreases regions.len(),
{
    if regions.len() == 0 {
        Seq::empty()
    } else {
        let rest = deleted_volume_regions(regions.drop_last(), datasets, snaps, volumes);
        let r = regions.last();
        match find_volume(volumes, r.volume_id) {
            Some(v) => {
                if v.time_deleted is Some && region_reclaimable(r, snaps) && find_dataset(
                    datasets,
                    r.dataset_id,
                ) is Some {
                    rest.push((find_dataset(datasets, r.dataset_id).unwrap(), r, v@))
                } else {
                    rest
                }
            },
            None => rest,
        }
    }
}

/// The images of a sequence of sweeper rows.
pub open spec fn triple_views(v: Seq<(Dataset, Region, Volume)>) -> Seq<
    (Dataset, Region, VolumeView),
> {
    Seq::new(v.len(), |i: int| (v[i].0, v[i].1, v[i].2@))
}

/// No table row was touched.
pub open spec fn store_unchanged(pre: DataStore, post: DataStore) -> bool {
    post.volumes@ == pre.volumes@ && post.regions@ == pre.regions@ && post.datasets@
        == pre.datasets@ && post.region_snapshots@ == pre.region_snapshots@
}

/// The commit of a first-time creation: the row inserted, every
/// snapshot count raised by the new volume's references to its address,
/// nothing else touched.
pub open spec fn create_commits(pre: DataStore, post: DataStore, v: Volume) -> bool {
    &&& !has_volume(pre.volumes@, v.id)
    &&& dec_vcr_full(v.data@) is Some
    &&& post.volumes@ == pre.volumes@.push(v)
    &&& post.regions@ == pre.regions@
    &&& post.datasets@ == pre.datasets@
    &&& snaps_shifted(pre.region_snapshots@, post.region_snapshots@, targets_of_data(v.data@), 1)
}

/// The commit of a first-time deletion: counts dropped, the reclaim set
/// computed on the dropped counts, and the row soft-deleted with that
/// set serialized beside the marker, all in one step.
pub open spec fn delete_commits(
    pre: DataStore,
    post: DataStore,
    volume_id: u128,
    rv: ResourcesView,
) -> bool {
    &&& match find_volume(pre.volumes@, volume_id) {
        Some(v) => v.time_deleted is None,
        None => false,
    }
    &&& post.volumes@.len() == pre.volumes@.len()
    &&& forall|i: int|
        0 <= i < pre.volumes@.len() && (#[trigger] pre.volumes@[i]).id != volume_id
            ==> post.volumes@[i] == pre.volumes@[i]
    &&& forall|i: int|
        0 <= i < pre.volumes@.len() && (#[trigger] pre.volumes@[i]).id == volume_id ==> {
            let nv = post.volumes@[i]@;
            &&& nv.id == volume_id
            &&& nv.data == pre.volumes@[i]@.data
            &&& nv.time_deleted is Some
            &&& nv.resources_to_clean_up == Some(enc_resources(rv))
        }
    &&& post.regions@ == pre.regions@
    &&& post.datasets@ == pre.datasets@
    &&& snaps_shifted(
        pre.region_snapshots@,
        post.region_snapshots@,
        targets_of_data(find_volume(pre.volumes@, volume_id).unwrap().data@),
        -1,
    )
    &&& rv.datasets_and_regions == reclaim_regions(
        pre.regions@,
        pre.datasets@,
        post.region_snapshots@,
        volume_id,
    )
    &&& rv.datasets_and_snapshots == zeroed_snapshots(post.region_snapshots@, pre.datasets@)
    &&& resources_bounded(rv)
}

impl DataStore {
    /// Well-formedness: unique ids per table, a unique address per
    /// snapshot row, and the soft-delete marker present exactly when
    /// the serialized reclaim set is.
    pub open spec fn wf(self) -> bool {
        &&& forall|i: int, j: int|
            0 <= i < j < self.volumes@.len() ==> (#[trigger] self.volumes@[i]).id
                != (#[trigger] self.volumes@[j]).id
        &&& forall|i: int, j: int|
            0 <= i < j < self.regions@.len() ==> (#[trigger] self.regions@[i]).id
                != (#[trigger] self.regions@[j]).id
        &&& forall|i: int, j: int|
            0 <= i < j < self.datasets@.len() ==> (#[trigger] self.datasets@[i]).id
                != (#[trigger] self.datasets@[j]).id
        &&& forall|i: int, j: int|
            0 <= i < j < self.region_snapshots@.len() ==> (
            #[trigger] self.region_snapshots@[i]).snapshot_addr@ != (
            #[trigger] self.region_snapshots@[j]).snapshot_addr@
        &&& forall|i: int|
            0 <= i < self.volumes@.len() ==> ((#[trigger] self.volumes@[i]).time_deleted is Some
                <==> self.volumes@[i].resources_to_clean_up is Some)
    }

    /// An empty store.
    pub fn new() -> (r: DataStore)
        ensures
            r.wf(),
            r.volumes@.len() == 0,
            r.regions@.len() == 0,
            r.datasets@.len() == 0,
            r.region_snapshots@.len() == 0,
    {
        DataStore {
            volumes: Vec::new(),
            regions: Vec::new(),
            datasets: Vec::new(),
            region_snapshots: Vec::new(),
        }
    }
}

/// The first index holding this volume id, if any.
fn find_volume_index(vs: &Vec<Volume>, id: u128) -> (r: Option<usize>)
    ensures
        match r {
            Some(i) => i < vs@.len() && vs@[i as int].id == id && forall|k: int|
                0 <= k < i ==> (#[trigger] vs@[k]).id != id,
            None => !has_volume(vs@, id),
        },
{
    let n: usize = vs.len();
    let mut i: usize = 0;
    while i < n
        invariant
            n == vs@.len(),
            0 <= i <= n,
            forall|k: int| 0 <= k < i ==> (#[trigger] vs@[k]).id != id,
        decreases n - i,
    {
        if vs[i].id == id {
            return Some(i);
        }
        i += 1;
    }
    None
}

/// `find_volume` returns the row at the first matching index.
pub proof fn lemma_find_volume_at(vs: Seq<Volume>, id: u128, i: int)
    requires
        0 <= i < vs.len(),
        vs[i].id == id,
        forall|k: int| 0 <= k < i ==> (#[trigger] vs[k]).id != id,
    ensures
        find_volume(vs, id) == Some(vs[i]),
    decreases vs.len(),
{
    if i == 0 {
    } else {
        assert(vs.first().id != id);
        let rest = vs.drop_first();
        assert(rest[i - 1] == vs[i]);
        assert(forall|k: int| 0 <= k < i - 1 ==> (#[trigger] rest[k]).id != id) by {
            assert(forall|k: int| 0 <= k < i - 1 ==> rest[k] == vs[k + 1]);
        }
        lemma_find_volume_at(rest, id, i - 1);
    }
}

/// A missing index means a missing row.
pub proof fn lemma_find_volume_none(vs: Seq<Volume>, id: u128)
    requires
        !has_volume(vs, id),
    ensures
        find_volume(vs, id) is None,
    decreases vs.len(),
{
    if vs.len() > 0 {
        assert(vs.first() == vs[0]);
        let rest = vs.drop_first();
        assert(!has_volume(rest, id)) by {
            assert(forall|k: int| 0 <= k < rest.len() ==> rest[k] == vs[k + 1]);
        }
        lemma_find_volume_none(rest, id);
    }
}

/// The first dataset row with this id.
fn find_dataset_exec(datasets: &Vec<Dataset>, id: u128) -> (r: Option<Dataset>)
    ensures
        r == find_dataset(datasets@, id),
{
    let n: usize = datasets.len();
    let mut i: usize = 0;
    proof {
        assert(datasets@.skip(0) =~= datasets@);
    }
    while i < n
        invariant
            n == datasets@.len(),
            0 <= i <= n,
            find_dataset(datasets@, id) == find_dataset(datasets@.skip(i as int), id),
        decreases n - i,
    {
        let ghost sk = datasets@.skip(i as int);
        if datasets[i].id == id {
            proof {
                assert(sk.first() == datasets@[i as int]);
            }
            return Some(datasets[i]);
        }
        proof {
            assert(sk.first() == datasets@[i as int]);
            assert(sk.drop_first() =~= datasets@.skip(i + 1));
        }
        i += 1;
    }
    proof {
        assert(datasets@.skip(n as int).len() == 0);
    }
    None
}

/// Copies a volume row.
pub fn clone_volume(v: &Volume) -> (r: Volume)
    ensures
        r@ == v@,
{
    Volume {
        id: v.id,
        data: crate::walker::clone_bytes(&v.data),
        time_deleted: match v.time_deleted {
            Some(t) => Some(t),
            None => None,
        },
        resources_to_clean_up: match &v.resources_to_clean_up {
            Some(b) => Some(crate::walker::clone_bytes(b)),
            None => None,
        },
    }
}

/// Copies a snapshot row.
pub fn clone_snapshot(s: &RegionSnapshot) -> (r: RegionSnapshot)
    ensures
        r@ == s@,
{
    RegionSnapshot {
        dataset_id: s.dataset_id,
        region_id: s.region_id,
        snapshot_id: s.snapshot_id,
        snapshot_addr: crate::walker::clone_bytes(&s.snapshot_addr),
        volume_references: s.volume_references,
    }
}

impl DataStore {
    /// Looks a volume up by id; an absent row is the one error.
    pub fn volume_get(&self, volume_id: u128) -> (r: Result<Volume, VolumeError>)
        requires
            self.wf(),
        ensures
            match r {
                Ok(v) => has_volume(self.volumes@, volume_id) && forall|i: int|
                    0 <= i < self.volumes@.len() && (#[trigger] self.volumes@[i]).id == volume_id
                        ==> v@ == self.volumes@[i]@,
                Err(e) => e == VolumeError::NotFound && !has_volume(self.volumes@, volume_id),
            },
    {
        match find_volume_index(&self.volumes, volume_id) {
            Some(i) => {
                let row = clone_volume(&self.volumes[i]);
                proof {
                    assert forall|k: int|
                        0 <= k < self.volumes@.len() && (#[trigger] self.volumes@[k]).id
                            == volume_id implies row@ == self.volumes@[k]@ by {
                        if k < i as int {
                        } else if k > i as int {
                            assert(self.volumes@[i as int].id == volume_id);
                        }
                    }
                }
                Ok(row)
            },
            None => Err(VolumeError::NotFound),
        }
    }

    /// Removes the row outright; the recorded reclaim set must already
    /// have been consumed. An absent row is the one error.
    pub fn volume_hard_delete(&mut self, volume_id: u128) -> (r: Result<(), VolumeError>)
        requires
            old(self).wf(),
        ensures
            final(self).wf(),
            !has_volume(old(self).volumes@, volume_id) ==> r == Err::<(), VolumeError>(
                VolumeError::NotFound,
            ) && store_unchanged(*old(self), *final(self)),
            has_volume(old(self).volumes@, volume_id) ==> r is Ok && forall|i: int|
                0 <= i < old(self).volumes@.len() && (#[trigger] old(self).volumes@[i]).id
                    == volume_id ==> final(self).volumes@ == old(self).volumes@.remove(i),
            final(self).regions@ == old(self).regions@,
            final(self).datasets@ == old(self).datasets@,
            final(self).region_snapshots@ == old(self).region_snapshots@,
    {
        match find_volume_index(&self.volumes, volume_id) {
            Some(i) => {
                self.volumes.remove(i);
                proof {
                    let pre = old(self).volumes@;
                    let post = self.volumes@;
                    assert forall|a: int, b: int| 0 <= a < b < post.len() implies (
                    #[trigger] post[a]).id != (#[trigger] post[b]).id by {
                        if a < i as int {
                            assert(post[a] == pre[a]);
                        } else {
                            assert(post[a] == pre[a + 1]);
                        }
                        if b < i as int {
                            assert(post[b] == pre[b]);
                        } else {
                            assert(post[b] == pre[b + 1]);
                        }
                    }
                    assert forall|a: int|
                        0 <= a < post.len() implies ((#[trigger] post[a]).time_deleted is Some
                        <==> post[a].resources_to_clean_up is Some) by {
                        if a < i as int {
                            assert(post[a] == pre[a]);
                        } else {
                            assert(post[a] == pre[a + 1]);
                        }
                    }
                    assert forall|k: int|
                        0 <= k < pre.len() && (#[trigger] pre[k]).id == volume_id implies post
                        == pre.remove(k) by {
                        if k < i as int {
                            assert(pre[i as int].id == volume_id);
                        } else if k > i as int {
                            assert(pre[i as int].id == volume_id);
                        }
                    }
                }
                Ok(())
            },
            None => Err(VolumeError::NotFound),
        }
    }
}

/// Relies on chrono's `Utc::now` for the soft-delete timestamp, as
/// seconds since the Unix epoch; nothing is assumed of the value.
#[verifier::external_body]
fn now_timestamp() -> i64 {
    chrono::Utc::now().timestamp()
}

/// How often `addr` occurs among the walked targets.
fn count_matches(targets: &Vec<Vec<u8>>, addr: &Vec<u8>) -> (c: u64)
    ensures
        c as int == count_addr(bytes_views(targets@), addr@),
{
    let ghost ts = bytes_views(targets@);
    let n: usize = targets.len();
    let mut c: u64 = 0;
    let mut i: usize = 0;
    proof {
        assert(ts.take(0) =~= Seq::<Seq<u8>>::empty());
    }
    while i < n
        invariant
            n == targets@.len(),
            ts == bytes_views(targets@),
            0 <= i <= n,
            c <= i,
            c as int == count_addr(ts.take(i as int), addr@),
        decreases n - i,
    {
        let eq = bytes_eq(&targets[i], addr);
        proof {
            assert(ts.take(i + 1).drop_last() =~= ts.take(i as int));
            assert(ts.take(i + 1).last() == ts[i as int]);
            assert(ts[i as int] == targets@[i as int]@);
        }
        if eq {
            c += 1;
        }
        i += 1;
    }
    proof {
        assert(ts.take(n as int) =~= ts);
    }
    c
}

/// Applies one volume's references to every snapshot row: each count
/// moves by the multiplicity of its address among the targets, raised
/// or lowered. Nothing is returned if any count would leave the
/// machine range.
fn shift_snapshots(snaps: &Vec<RegionSnapshot>, targets: &Vec<Vec<u8>>, raise: bool) -> (r: Option<
    Vec<RegionSnapshot>,
>)
    ensures
        ({
            let ts = bytes_views(targets@);
            let sign: int = if raise {
                1int
            } else {
                -1int
            };
            match r {
                Some(ns) => shift_fits(snaps@, ts, sign) && snaps_shifted(snaps@, ns@, ts, sign),
                None => !shift_fits(snaps@, ts, sign),
            }
        }),
{
    let ghost ts = bytes_views(targets@);
    let ghost sign: int = if raise {
        1int
    } else {
        -1int
    };
    let n: usize = snaps.len();
    let mut out: Vec<RegionSnapshot> = Vec::new();
    let mut j: usize = 0;
    while j < n
        invariant
            n == snaps@.len(),
            ts == bytes_views(targets@),
            sign == if raise {
                1int
            } else {
                -1int
            },
            0 <= j <= n,
            out@.len() == j,
            forall|k: int|
                0 <= k < j ==> snap_shifted(
                    snaps@[k]@,
                    #[trigger] out@[k]@,
                    sign * count_addr(ts, snaps@[k]@.snapshot_addr),
                ),
            forall|k: int|
                0 <= k < j ==> i64::MIN <= (#[trigger] snaps@[k]@.volume_references) + sign
                    * count_addr(ts, snaps@[k]@.snapshot_addr) <= i64::MAX,
        decreases n - j,
    {
        let s = &snaps[j];
        let c = count_matches(targets, &s.snapshot_addr);
        let sum: i128 = if raise {
            (s.volume_references as i128) + (c as i128)
        } else {
            (s.volume_references as i128) - (c as i128)
        };
        if sum > (i64::MAX as i128) || sum < (i64::MIN as i128) {
            proof {
                assert(!(i64::MIN <= snaps@[j as int]@.volume_references + sign * count_addr(
                    ts,
                    snaps@[j as int]@.snapshot_addr,
                ) <= i64::MAX));
            }
            return None;
        }
        let ns = RegionSnapshot {
            dataset_id: s.dataset_id,
            region_id: s.region_id,
            snapshot_id: s.snapshot_id,
            snapshot_addr: crate::walker::clone_bytes(&s.snapshot_addr),
            volume_references: sum as i64,
        };
        out.push(ns);
        j += 1;
    }
    Some(out)
}

/// No snapshot row of this region still holds a live reference.
fn region_all_zero(r: &Region, snaps: &Vec<RegionSnapshot>) -> (b: bool)
    ensures
        b == region_reclaimable(*r, snaps@),
{
    let n: usize = snaps.len();
    let mut j: usize = 0;
    while j < n
        invariant
            n == snaps@.len(),
            0 <= j <= n,
            forall|k: int|
                0 <= k < j && (#[trigger] snaps@[k]).region_id == r.id && snaps@[k].dataset_id
                    == r.dataset_id ==> snaps@[k].volume_references == 0,
        decreases n - j,
    {
        if snaps[j].region_id == r.id && snaps[j].dataset_id == r.dataset_id
            && snaps[j].volume_references != 0 {
            return false;
        }
        j += 1;
    }
    true
}

/// The regions of this volume no surviving snapshot protects, joined
/// to their datasets.
fn collect_reclaim_regions(
    regions: &Vec<Region>,
    datasets: &Vec<Dataset>,
    snaps: &Vec<RegionSnapshot>,
    vid: u128,
) -> (out: Vec<(Dataset, Region)>)
    ensures
        out@ == reclaim_regions(regions@, datasets@, snaps@, vid),
{
    let n: usize = regions.len();
    let mut out: Vec<(Dataset, Region)> = Vec::new();
    let mut i: usize = 0;
    proof {
        assert(regions@.take(0) =~= Seq::<Region>::empty());
        assert(out@ =~= reclaim_regions(regions@.take(0), datasets@, snaps@, vid));
    }
    while i < n
        invariant
            n == regions@.len(),
            0 <= i <= n,
            out@ == reclaim_regions(regions@.take(i as int), datasets@, snaps@, vid),
        decreases n - i,
    {
        let r = regions[i];
        proof {
            assert(regions@.take(i + 1).drop_last() =~= regions@.take(i as int));
            assert(regions@.take(i + 1).last() == regions@[i as int]);
        }
        if r.volume_id == vid {
            if region_all_zero(&r, snaps) {
                match find_dataset_exec(datasets, r.dataset_id) {
                    Some(d) => {
                        out.push((d, r));
                    },
                    None => {},
                }
            }
        }
        i += 1;
    }
    proof {
        assert(regions@.take(n as int) =~= regions@);
    }
    out
}

/// Every snapshot row at zero references, joined to its dataset.
fn collect_zeroed_snapshots(snaps: &Vec<RegionSnapshot>, datasets: &Vec<Dataset>) -> (out: Vec<
    (Dataset, RegionSnapshot),
>)
    ensures
        ds_views(out@) == zeroed_snapshots(snaps@, datasets@),
        forall|j: int| 0 <= j < out@.len() ==> snap_bounded(#[trigger] ds_views(out@)[j].1),
{
    let n: usize = snaps.len();
    let mut out: Vec<(Dataset, RegionSnapshot)> = Vec::new();
    let mut i: usize = 0;
    proof {
        lemma_pow16_16();
        assert(snaps@.take(0) =~= Seq::<RegionSnapshot>::empty());
        assert(ds_views(out@) =~= zeroed_snapshots(snaps@.take(0), datasets@));
    }
    while i < n
        invariant
            n == snaps@.len(),
            0 <= i <= n,
            ds_views(out@) == zeroed_snapshots(snaps@.take(i as int), datasets@),
            forall|j: int| 0 <= j < out@.len() ==> snap_bounded(#[trigger] ds_views(out@)[j].1),
            pow16(16) == 0x1_0000_0000_0000_0000,
        decreases n - i,
    {
        proof {
            assert(snaps@.take(i + 1).drop_last() =~= snaps@.take(i as int));
            assert(snaps@.take(i + 1).last() == snaps@[i as int]);
        }
        if snaps[i].volume_references == 0 {
            match find_dataset_exec(datasets, snaps[i].dataset_id) {
                Some(d) => {
                    let c = clone_snapshot(&snaps[i]);
                    let al: usize = c.snapshot_addr.len();
                    let ghost prev = out@;
                    out.push((d, c));
                    proof {
                        assert(out@ == prev.push((d, c)));
                        assert forall|j: int| 0 <= j < out@.len() implies #[trigger] ds_views(
                            out@,
                        )[j] == ds_views(prev).push((d, c@))[j] by {
                            if j < prev.len() {
                                assert(out@[j] == prev[j]);
                            } else {
                                assert(out@[j] == (d, c));
                            }
                        }
                        assert(ds_views(out@) =~= ds_views(prev).push((d, c@)));
                        assert(snap_bounded(c@));
                    }
                },
                None => {},
            }
        }
        i += 1;
    }
    proof {
        assert(snaps@.take(n as int) =~= snaps@);
    }
    out
}

/// An envelope that releases nothing.
fn empty_resources() -> (r: CrucibleResources)
    ensures
        r@ == ResourcesView::empty(),
{
    CrucibleResources::V1(CrucibleResourcesV1::default())
}

impl DataStore {
    /// Inserts a volume exactly once: a present row is returned
    /// untouched with no count raised; otherwise the row is inserted
    /// and every snapshot count rises by the new volume's references
    /// to its address, in one step. A body that does not decode, or a
    /// count that would leave the machine range, rolls everything back.
    pub fn volume_create(&mut self, volume: Volume) -> (r: Result<Volume, VolumeError>)
        requires
            old(self).wf(),
            volume.time_deleted is None,
            volume.resources_to_clean_up is None,
        ensures
            final(self).wf(),
            has_volume(old(self).volumes@, volume.id) ==> store_unchanged(
                *old(self),
                *final(self),
            ) && r is Ok && forall|i: int|
                0 <= i < old(self).volumes@.len() && (#[trigger] old(self).volumes@[i]).id
                    == volume.id ==> r->Ok_0@ == old(self).volumes@[i]@,
            !has_volume(old(self).volumes@, volume.id) && dec_vcr_full(volume.data@) is None
                ==> store_unchanged(*old(self), *final(self)) && r == Err::<Volume, VolumeError>(
                VolumeError::Internal,
            ),
            !has_volume(old(self).volumes@, volume.id) && dec_vcr_full(volume.data@) is Some
                && !shift_fits(
                old(self).region_snapshots@,
                targets_of_data(volume.data@),
                1,
            ) ==> store_unchanged(*old(self), *final(self)) && r == Err::<Volume, VolumeError>(
                VolumeError::Internal,
            ),
            !has_volume(old(self).volumes@, volume.id) && dec_vcr_full(volume.data@) is Some
                && shift_fits(old(self).region_snapshots@, targets_of_data(volume.data@), 1)
                ==> create_commits(*old(self), *final(self), volume) && r is Ok && r->Ok_0@
                == volume@,
    {
        match find_volume_index(&self.volumes, volume.id) {
            Some(i) => {
                let row = clone_volume(&self.volumes[i]);
                proof {
                    assert forall|k: int|
                        0 <= k < self.volumes@.len() && (#[trigger] self.volumes@[k]).id
                            == volume.id implies row@ == self.volumes@[k]@ by {
                        if k != i as int {
                            assert(self.volumes@[i as int].id == volume.id);
                        }
                    }
                }
                return Ok(row);
            },
            None => {},
        }
        let vcr = match parse_volume_construction_request(&volume.data) {
            Some(v) => v,
            None => {
                return Err(VolumeError::Internal);
            },
        };
        let mut crucible_targets = CrucibleTargets::new();
        resources_associated_with_volume(&vcr, &mut crucible_targets);
        let ghost ts = bytes_views(crucible_targets.read_only_targets@);
        proof {
            assert(ts =~= read_only_targets(vcr@));
            assert(ts == targets_of_data(volume.data@));
        }
        let new_snaps = match shift_snapshots(
            &self.region_snapshots,
            &crucible_targets.read_only_targets,
            true,
        ) {
            Some(ns) => ns,
            None => {
                return Err(VolumeError::Internal);
            },
        };
        let ret = clone_volume(&volume);
        self.volumes.push(volume);
        self.region_snapshots = new_snaps;
        proof {
            let pre = *old(self);
            assert forall|a: int, b: int|
                0 <= a < b < self.volumes@.len() implies (#[trigger] self.volumes@[a]).id != (
            #[trigger] self.volumes@[b]).id by {
                if b == self.volumes@.len() - 1 {
                    assert(self.volumes@[a] == pre.volumes@[a]);
                    assert(!(exists|k: int|
                        0 <= k < pre.volumes@.len() && pre.volumes@[k].id == volume.id));
                } else {
                    assert(self.volumes@[a] == pre.volumes@[a]);
                    assert(self.volumes@[b] == pre.volumes@[b]);
                }
            }
            assert forall|a: int|
                0 <= a < self.volumes@.len() implies ((#[trigger] self.volumes@[a]).time_deleted
                is Some <==> self.volumes@[a].resources_to_clean_up is Some) by {
                if a < self.volumes@.len() - 1 {
                    assert(self.volumes@[a] == pre.volumes@[a]);
                }
            }
            assert forall|a: int, b: int|
                0 <= a < b < self.region_snapshots@.len() implies (
            #[trigger] self.region_snapshots@[a]).snapshot_addr@ != (
            #[trigger] self.region_snapshots@[b]).snapshot_addr@ by {
                assert(self.region_snapshots@[a]@.snapshot_addr
                    == pre.region_snapshots@[a]@.snapshot_addr);
                assert(self.region_snapshots@[b]@.snapshot_addr
                    == pre.region_snapshots@[b]@.snapshot_addr);
            }
        }
        Ok(ret)
    }

    /// Soft-deletes a volume idempotently. The first call drops every
    /// snapshot count this volume referenced, computes the resources
    /// that thereby became unreferenced, and records that set in the
    /// row beside the soft-delete marker, all in one step; every later
    /// call reads the recorded set back and touches nothing. Deleting
    /// an absent row is not an error and returns the empty envelope.
    pub fn decrease_crucible_resource_count_and_soft_delete_volume(
        &mut self,
        volume_id: u128,
    ) -> (r: Result<CrucibleResources, VolumeError>)
        requires
            old(self).wf(),
        ensures
            final(self).wf(),
            !has_volume(old(self).volumes@, volume_id) ==> store_unchanged(
                *old(self),
                *final(self),
            ) && r is Ok && r->Ok_0@ == ResourcesView::empty(),
            (match find_volume(old(self).volumes@, volume_id) {
                Some(v) => v.time_deleted is Some && v.resources_to_clean_up is Some,
                None => false,
            }) ==> store_unchanged(*old(self), *final(self)) && (match dec_resources(
                find_volume(old(self).volumes@, volume_id).unwrap().resources_to_clean_up.unwrap()@,
            ) {
                Some(rv) => r is Ok && r->Ok_0@ == rv,
                None => r == Err::<CrucibleResources, VolumeError>(VolumeError::Internal),
            }),
            (match find_volume(old(self).volumes@, volume_id) {
                Some(v) => v.time_deleted is Some && v.resources_to_clean_up is None,
                None => false,
            }) ==> store_unchanged(*old(self), *final(self)) && r is Ok && r->Ok_0@
                == ResourcesView::empty(),
            (match find_volume(old(self).volumes@, volume_id) {
                Some(v) => v.time_deleted is None && dec_vcr_full(v.data@) is None,
                None => false,
            }) ==> store_unchanged(*old(self), *final(self)) && r == Err::<
                CrucibleResources,
                VolumeError,
            >(VolumeError::Internal),
            (match find_volume(old(self).volumes@, volume_id) {
                Some(v) => v.time_deleted is None && dec_vcr_full(v.data@) is Some && !shift_fits(
                    old(self).region_snapshots@,
                    targets_of_data(v.data@),
                    -1,
                ),
                None => false,
            }) ==> store_unchanged(*old(self), *final(self)) && r == Err::<
                CrucibleResources,
                VolumeError,
            >(VolumeError::Internal),
            (match find_volume(old(self).volumes@, volume_id) {
                Some(v) => v.time_deleted is None && dec_vcr_full(v.data@) is Some && shift_fits(
                    old(self).region_snapshots@,
                    targets_of_data(v.data@),
                    -1,
                ),
                None => false,
            }) ==> r is Ok && delete_commits(*old(self), *final(self), volume_id, r->Ok_0@),
    {
        let idx = match find_volume_index(&self.volumes, volume_id) {
            Some(i) => i,
            None => {
                proof {
                    lemma_find_volume_none(self.volumes@, volume_id);
                }
                return Ok(empty_resources());
            },
        };
        proof {
            lemma_find_volume_at(self.volumes@, volume_id, idx as int);
        }
        if self.volumes[idx].time_deleted.is_some() {
            match &self.volumes[idx].resources_to_clean_up {
                Some(bytes) => {
                    return match decode_resources(bytes) {
                        Some(res) => Ok(res),
                        None => Err(VolumeError::Internal),
                    };
                },
                None => {
                    return Ok(empty_resources());
                },
            }
        }
        let vcr = match parse_volume_construction_request(&self.volumes[idx].data) {
            Some(v) => v,
            None => {
                return Err(VolumeError::Internal);
            },
        };
        let mut crucible_targets = CrucibleTargets::new();
        resources_associated_with_volume(&vcr, &mut crucible_targets);
        let ghost ts = bytes_views(crucible_targets.read_only_targets@);
        proof {
            assert(ts =~= read_only_targets(vcr@));
            assert(ts == targets_of_data(old(self).volumes@[idx as int].data@));
        }
        let new_snaps = match shift_snapshots(
            &self.region_snapshots,
            &crucible_targets.read_only_targets,
            false,
        ) {
            Some(ns) => ns,
            None => {
                return Err(VolumeError::Internal);
            },
        };
        let dars = collect_reclaim_regions(&self.regions, &self.datasets, &new_snaps, volume_id);
        let dass = collect_zeroed_snapshots(&new_snaps, &self.datasets);
        let dl: usize = dars.len();
        let sl: usize = dass.len();
        proof {
            lemma_pow16_16();
            assert(usize::MAX as int <= u64::MAX as int);
            assert(dl as int == dars@.len() && (dl as int) < pow16(16));
            assert(sl as int == dass@.len() && (sl as int) < pow16(16));
        }
        let result = CrucibleResources::V1(
            CrucibleResourcesV1 { datasets_and_regions: dars, datasets_and_snapshots: dass },
        );
        proof {
            assert(result@.datasets_and_snapshots =~= ds_views(
                match result {
                    CrucibleResources::V1(ref v) => v.datasets_and_snapshots@,
                },
            ));
            assert(resources_bounded(result@));
        }
        let enc = encode_resources(&result);
        let now = now_timestamp();
        let old_row = self.volumes.remove(idx);
        let new_row = Volume {
            id: old_row.id,
            data: old_row.data,
            time_deleted: Some(now),
            resources_to_clean_up: Some(enc),
        };
        self.volumes.insert(idx, new_row);
        self.region_snapshots = new_snaps;
        proof {
            let pre = *old(self);
            assert forall|k: int|
                0 <= k < pre.volumes@.len() && k != idx as int implies #[trigger] self.volumes@[k]
                == pre.volumes@[k] by {
                if k < idx as int {
                } else {
                    assert(self.volumes@[k] == pre.volumes@.remove(idx as int).insert(
                        idx as int,
                        self.volumes@[idx as int],
                    )[k]);
                }
            }
            assert(self.volumes@.len() == pre.volumes@.len());
            assert forall|i: int|
                0 <= i < pre.volumes@.len() && (#[trigger] pre.volumes@[i]).id
                    == volume_id implies i == idx as int by {
                if i != idx as int {
                    assert(pre.volumes@[idx as int].id == volume_id);
                }
            }
            assert forall|a: int, b: int|
                0 <= a < b < self.volumes@.len() implies (#[trigger] self.volumes@[a]).id != (
            #[trigger] self.volumes@[b]).id by {
                assert(self.volumes@[a].id == pre.volumes@[a].id);
                assert(self.volumes@[b].id == pre.volumes@[b].id);
            }
            assert forall|a: int|
                0 <= a < self.volumes@.len() implies ((#[trigger] self.volumes@[a]).time_deleted
                is Some <==> self.volumes@[a].resources_to_clean_up is Some) by {
                if a != idx as int {
                    assert(self.volumes@[a] == pre.volumes@[a]);
                }
            }
            assert forall|a: int, b: int|
                0 <= a < b < self.region_snapshots@.len() implies (
            #[trigger] self.region_snapshots@[a]).snapshot_addr@ != (
            #[trigger] self.region_snapshots@[b]).snapshot_addr@ by {
                assert(self.region_snapshots@[a]@.snapshot_addr
                    == pre.region_snapshots@[a]@.snapshot_addr);
                assert(self.region_snapshots@[b]@.snapshot_addr
                    == pre.region_snapshots@[b]@.snapshot_addr);
            }
            assert(delete_commits(pre, *self, volume_id, result@));
        }
        Ok(result)
    }

    /// The sweeper's query: regions of soft-deleted volumes that no
    /// surviving snapshot protects, each with its dataset and volume
    /// row, one row per region in table order.
    pub fn find_deleted_volume_regions(&self) -> (r: Vec<(Dataset, Region, Volume)>)
        ensures
            triple_views(r@) == deleted_volume_regions(
                self.regions@,
                self.datasets@,
                self.region_snapshots@,
                self.volumes@,
            ),
    {
        let n: usize = self.regions.len();
        let mut out: Vec<(Dataset, Region, Volume)> = Vec::new();
        let mut i: usize = 0;
        proof {
            assert(self.regions@.take(0) =~= Seq::<Region>::empty());
            assert(triple_views(out@) =~= deleted_volume_regions(
                self.regions@.take(0),
                self.datasets@,
                self.region_snapshots@,
                self.volumes@,
            ));
        }
        while i < n
            invariant
                n == self.regions@.len(),
                0 <= i <= n,
                triple_views(out@) == deleted_volume_regions(
                    self.regions@.take(i as int),
                    self.datasets@,
                    self.region_snapshots@,
                    self.volumes@,
                ),
            decreases n - i,
        {
            proof {
                assert(self.regions@.take(i + 1).drop_last() =~= self.regions@.take(i as int));
                assert(self.regions@.take(i + 1).last() == self.regions@[i as int]);
            }
            let r = self.regions[i];
            match find_volume_index(&self.volumes, r.volume_id) {
                Some(vi) => {
                    proof {
                        lemma_find_volume_at(self.volumes@, r.volume_id, vi as int);
                    }
                    if self.volumes[vi].time_deleted.is_some() {
                        if region_all_zero(&r, &self.region_snapshots) {
                            match find_dataset_exec(&self.datasets, r.dataset_id) {
                                Some(d) => {
                                    let v = clone_volume(&self.volumes[vi]);
                                    let ghost prev = out@;
                                    out.push((d, r, v));
                                    proof {
                                        assert forall|j: int|
                                            0 <= j < out@.len() implies #[trigger] triple_views(
                                            out@,
                                        )[j] == triple_views(prev).push(
                                            (d, r, self.volumes@[vi as int]@),
                                        )[j] by {
                                            if j < prev.len() {
                                                assert(out@[j] == prev[j]);
                                            } else {
                                                assert(out@[j] == (d, r, v));
                                            }
                                        }
                                        assert(triple_views(out@) =~= triple_views(prev).push(
                                            (d, r, self.volumes@[vi as int]@),
                                        ));
                                    }
                                },
                                None => {},
                            }
                        }
                    }
                },
                None => {
                    proof {
                        lemma_find_volume_none(self.volumes@, r.volume_id);
                    }
                },
            }
            i += 1;
        }
        proof {
            assert(self.regions@.take(n as int) =~= self.regions@);
        }
        out
    }
}

} // verus!
