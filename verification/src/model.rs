//! Rows of the backing store and the values exchanged with callers.

use vstd::prelude::*;

verus! {

/// A volume row: a logical disk with its serialized construction request,
/// its soft-delete marker, and the durable record of the resources its
/// deletion released.
#[derive(Debug)]
pub struct Volume {
    pub id: u128,
    pub data: Vec<u8>,
    pub time_deleted: Option<i64>,
    pub resources_to_clean_up: Option<Vec<u8>>,
}

/// The mathematical image of a [`Volume`] row.
pub struct VolumeView {
    pub id: u128,
    pub data: Seq<u8>,
    pub time_deleted: Option<i64>,
    pub resources_to_clean_up: Option<Seq<u8>>,
}

impl View for Volume {
    type V = VolumeView;

    open spec fn view(&self) -> VolumeView {
        VolumeView {
            id: self.id,
            data: self.data@,
            time_deleted: self.time_deleted,
            resources_to_clean_up: match self.resources_to_clean_up {
                Some(ref b) => Some(b@),
                None => None,
            },
        }
    }
}

/// The host container of regions and snapshots on a storage server;
/// opaque to this core.
#[derive(Clone, Copy, PartialEq, Eq, Structural, Debug)]
pub struct Dataset {
    pub id: u128,
}

/// An exclusive read/write storage extent owned by one volume.
#[derive(Clone, Copy, PartialEq, Eq, Structural, Debug)]
pub struct Region {
    pub id: u128,
    pub volume_id: u128,
    pub dataset_id: u128,
}

/// A shared read-only point-in-time image, addressed by its network
/// endpoint and protected by a count of the live volumes referencing it.
#[derive(Debug)]
pub struct RegionSnapshot {
    pub dataset_id: u128,
    pub region_id: u128,
    pub snapshot_id: u128,
    pub snapshot_addr: Vec<u8>,
    pub volume_references: i64,
}

/// The mathematical image of a [`RegionSnapshot`] row.
pub struct RegionSnapshotView {
    pub dataset_id: u128,
    pub region_id: u128,
    pub snapshot_id: u128,
    pub snapshot_addr: Seq<u8>,
    pub volume_references: i64,
}

impl View for RegionSnapshot {
    type V = RegionSnapshotView;

    open spec fn view(&self) -> RegionSnapshotView {
        RegionSnapshotView {
            dataset_id: self.dataset_id,
            region_id: self.region_id,
            snapshot_id: self.snapshot_id,
            snapshot_addr: self.snapshot_addr@,
            volume_references: self.volume_references,
        }
    }
}

/// A recursive description of how a volume is assembled. Only `Region`
/// leaves with `read_only` set contribute targets to the reference counts.
#[derive(Debug)]
pub enum VolumeConstructionRequest {
    Volume {
        sub_volumes: Vec<VolumeConstructionRequest>,
        read_only_parent: Option<Box<VolumeConstructionRequest>>,
    },
    Url,
    Region { target: Vec<Vec<u8>>, read_only: bool },
    File,
}

/// The mathematical image of a construction request tree.
pub enum VcrView {
    Volume { sub_volumes: Seq<VcrView>, read_only_parent: Option<Box<VcrView>> },
    Url,
    Region { target: Seq<Seq<u8>>, read_only: bool },
    File,
}

/// The image of one construction-request node.
pub open spec fn vcr_view(v: VolumeConstructionRequest) -> VcrView
    decreases v, 0int,
{
    match v {
        VolumeConstructionRequest::Volume { sub_volumes, read_only_parent } => VcrView::Volume {
            sub_volumes: vcr_views(sub_volumes@, 0),
            read_only_parent: match read_only_parent {
                Some(p) => Some(Box::new(vcr_view(*p))),
                None => None,
            },
        },
        VolumeConstructionRequest::Url => VcrView::Url,
        VolumeConstructionRequest::Region { target, read_only } => VcrView::Region {
            target: Seq::new(target@.len(), |i: int| target@[i]@),
            read_only,
        },
        VolumeConstructionRequest::File => VcrView::File,
    }
}

/// The images of the nodes of `vs` from index `i` on.
pub open spec fn vcr_views(vs: Seq<VolumeConstructionRequest>, i: int) -> Seq<VcrView>
    decreases vs, vs.len() - i,
{
    if i < 0 || i >= vs.len() {
        Seq::empty()
    } else {
        seq![vcr_view(vs[i])] + vcr_views(vs, i + 1)
    }
}

impl View for VolumeConstructionRequest {
    type V = VcrView;

    open spec fn view(&self) -> VcrView {
        vcr_view(*self)
    }
}

/// The versioned envelope persisted in `resources_to_clean_up` and handed
/// to the reclaimer: the resources a deletion released.
#[derive(Debug)]
pub enum CrucibleResources {
    V1(CrucibleResourcesV1),
}

/// The current envelope: read/write regions of the deleted volume no
/// surviving snapshot protects, and snapshot rows whose reference count
/// reached zero.
#[derive(Debug)]
pub struct CrucibleResourcesV1 {
    pub datasets_and_regions: Vec<(Dataset, Region)>,
    pub datasets_and_snapshots: Vec<(Dataset, RegionSnapshot)>,
}

impl Default for CrucibleResourcesV1 {
    /// The envelope of a deletion that released nothing.
    fn default() -> (r: CrucibleResourcesV1)
        ensures
            r@ == ResourcesView::empty(),
    {
        let r = CrucibleResourcesV1 {
            datasets_and_regions: Vec::new(),
            datasets_and_snapshots: Vec::new(),
        };
        proof {
            assert(r@.datasets_and_regions =~= ResourcesView::empty().datasets_and_regions);
            assert(r@.datasets_and_snapshots =~= ResourcesView::empty().datasets_and_snapshots);
        }
        r
    }
}

/// The mathematical image of a [`CrucibleResources`] envelope.
pub struct ResourcesView {
    pub datasets_and_regions: Seq<(Dataset, Region)>,
    pub datasets_and_snapshots: Seq<(Dataset, RegionSnapshotView)>,
}

impl View for CrucibleResourcesV1 {
    type V = ResourcesView;

    open spec fn view(&self) -> ResourcesView {
        ResourcesView {
            datasets_and_regions: self.datasets_and_regions@,
            datasets_and_snapshots: Seq::new(
                self.datasets_and_snapshots@.len(),
                |i: int| (self.datasets_and_snapshots@[i].0, self.datasets_and_snapshots@[i].1@),
            ),
        }
    }
}

impl View for CrucibleResources {
    type V = ResourcesView;

    open spec fn view(&self) -> ResourcesView {
        match self {
            CrucibleResources::V1(v) => v@,
        }
    }
}

impl ResourcesView {
    /// The envelope of a deletion that released nothing.
    pub open spec fn empty() -> ResourcesView {
        ResourcesView {
            datasets_and_regions: Seq::empty(),
            datasets_and_snapshots: Seq::empty(),
        }
    }
}

/// The error kinds surfaced to callers: an absent row where one was
/// demanded, and internal faults (undecodable stored data, an unknown
/// envelope version, or a reference count leaving the machine range).
#[derive(Clone, Copy, PartialEq, Eq, Structural, Debug)]
pub enum VolumeError {
    NotFound,
    Internal,
}

} // verus!
