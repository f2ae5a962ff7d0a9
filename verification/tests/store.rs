use volume_reclaim::datastore::DataStore;
use volume_reclaim::codec::encode_volume_construction_request;
use volume_reclaim::model::{
    CrucibleResources, Dataset, Region, RegionSnapshot, Volume, VolumeConstructionRequest,
    VolumeError,
};
use volume_reclaim::reclaim::encode_resources;

fn region_leaf(targets: &[&str], read_only: bool) -> VolumeConstructionRequest {
    VolumeConstructionRequest::Region {
        target: targets.iter().map(|t| t.as_bytes().to_vec()).collect(),
        read_only,
    }
}

fn volume_row(id: u128, vcr: &VolumeConstructionRequest) -> Volume {
    Volume {
        id,
        data: encode_volume_construction_request(vcr),
        time_deleted: None,
        resources_to_clean_up: None,
    }
}

fn snapshot_row(dataset_id: u128, region_id: u128, snapshot_id: u128, addr: &str, refs: i64) -> RegionSnapshot {
    RegionSnapshot {
        dataset_id,
        region_id,
        snapshot_id,
        snapshot_addr: addr.as_bytes().to_vec(),
        volume_references: refs,
    }
}

fn unwrap_v1(r: CrucibleResources) -> (Vec<(Dataset, Region)>, Vec<(Dataset, RegionSnapshot)>) {
    match r {
        CrucibleResources::V1(v) => (v.datasets_and_regions, v.datasets_and_snapshots),
    }
}

#[test]
fn single_region_volume_no_snapshots() {
    let mut store = DataStore::new();
    let d1 = Dataset { id: 1 };
    let r1 = Region { id: 10, volume_id: 100, dataset_id: 1 };
    store.datasets.push(d1);
    store.regions.push(r1);

    let vcr = region_leaf(&["10.0.0.1:1000"], false);
    let v = volume_row(100, &vcr);
    let created = store.volume_create(v).unwrap();
    assert_eq!(created.id, 100);
    assert!(store.region_snapshots.is_empty());

    let set = store
        .decrease_crucible_resource_count_and_soft_delete_volume(100)
        .unwrap();
    let (dars, dass) = unwrap_v1(set);
    assert_eq!(dars, vec![(d1, r1)]);
    assert!(dass.is_empty());
}

#[test]
fn two_volumes_share_a_read_only_snapshot() {
    let mut store = DataStore::new();
    let d1 = Dataset { id: 1 };
    store.datasets.push(d1);
    store
        .region_snapshots
        .push(snapshot_row(1, 10, 20, "10.0.0.2:2000", 0));

    let vcr = region_leaf(&["10.0.0.2:2000"], true);
    store.volume_create(volume_row(101, &vcr)).unwrap();
    store.volume_create(volume_row(102, &vcr)).unwrap();
    assert_eq!(store.region_snapshots[0].volume_references, 2);

    let set1 = store
        .decrease_crucible_resource_count_and_soft_delete_volume(101)
        .unwrap();
    let (dars1, dass1) = unwrap_v1(set1);
    assert!(dars1.is_empty());
    assert!(dass1.is_empty());
    assert_eq!(store.region_snapshots[0].volume_references, 1);

    let set2 = store
        .decrease_crucible_resource_count_and_soft_delete_volume(102)
        .unwrap();
    let (dars2, dass2) = unwrap_v1(set2);
    assert!(dars2.is_empty());
    assert_eq!(dass2.len(), 1);
    assert_eq!(dass2[0].0, d1);
    assert_eq!(dass2[0].1.snapshot_addr, b"10.0.0.2:2000".to_vec());
    assert_eq!(dass2[0].1.volume_references, 0);
    assert_eq!(store.region_snapshots[0].volume_references, 0);
}

#[test]
fn replay_of_delete_returns_identical_bytes() {
    let mut store = DataStore::new();
    let d1 = Dataset { id: 1 };
    store.datasets.push(d1);
    store
        .region_snapshots
        .push(snapshot_row(1, 10, 20, "10.0.0.3:3000", 1));

    let vcr = region_leaf(&["10.0.0.3:3000"], true);
    store.volume_create(volume_row(200, &vcr)).unwrap();
    assert_eq!(store.region_snapshots[0].volume_references, 2);

    let first = store
        .decrease_crucible_resource_count_and_soft_delete_volume(200)
        .unwrap();
    assert_eq!(store.region_snapshots[0].volume_references, 1);
    let second = store
        .decrease_crucible_resource_count_and_soft_delete_volume(200)
        .unwrap();
    // the counter moved exactly once
    assert_eq!(store.region_snapshots[0].volume_references, 1);
    // byte-identical reclaim sets
    assert_eq!(encode_resources(&first), encode_resources(&second));
}

#[test]
fn nested_tree_counts_with_multiplicity() {
    let mut store = DataStore::new();
    store.datasets.push(Dataset { id: 1 });
    store.region_snapshots.push(snapshot_row(1, 10, 20, "A", 0));
    store.region_snapshots.push(snapshot_row(1, 11, 21, "B", 0));

    let tree = VolumeConstructionRequest::Volume {
        sub_volumes: vec![region_leaf(&["A"], true)],
        read_only_parent: Some(Box::new(region_leaf(&["B", "B"], true))),
    };
    store.volume_create(volume_row(300, &tree)).unwrap();
    assert_eq!(store.region_snapshots[0].volume_references, 1);
    assert_eq!(store.region_snapshots[1].volume_references, 2);

    store
        .decrease_crucible_resource_count_and_soft_delete_volume(300)
        .unwrap();
    assert_eq!(store.region_snapshots[0].volume_references, 0);
    assert_eq!(store.region_snapshots[1].volume_references, 0);
}

#[test]
fn delete_of_missing_volume_mutates_nothing() {
    let mut store = DataStore::new();
    store.datasets.push(Dataset { id: 1 });
    store.regions.push(Region { id: 10, volume_id: 100, dataset_id: 1 });
    store
        .region_snapshots
        .push(snapshot_row(1, 10, 20, "10.0.0.4:4000", 3));
    let vcr = region_leaf(&[], false);
    store.volume_create(volume_row(100, &vcr)).unwrap();

    let set = store
        .decrease_crucible_resource_count_and_soft_delete_volume(999)
        .unwrap();
    let (dars, dass) = unwrap_v1(set);
    assert!(dars.is_empty());
    assert!(dass.is_empty());
    assert_eq!(store.volumes.len(), 1);
    assert_eq!(store.volumes[0].time_deleted, None);
    assert_eq!(store.region_snapshots[0].volume_references, 3);
}

#[test]
fn sweeper_query_respects_surviving_snapshots() {
    let mut store = DataStore::new();
    let d1 = Dataset { id: 1 };
    let r1 = Region { id: 10, volume_id: 100, dataset_id: 1 };
    store.datasets.push(d1);
    store.regions.push(r1);
    store.region_snapshots.push(snapshot_row(1, 10, 20, "S", 1));

    let vcr = region_leaf(&["10.0.0.5:5000"], false);
    store.volume_create(volume_row(100, &vcr)).unwrap();
    store
        .decrease_crucible_resource_count_and_soft_delete_volume(100)
        .unwrap();

    // the sole region still has a snapshot holding one reference
    assert!(store.find_deleted_volume_regions().is_empty());

    store.region_snapshots[0].volume_references = 0;
    let rows = store.find_deleted_volume_regions();
    assert_eq!(rows.len(), 1);
    assert_eq!(rows[0].0, d1);
    assert_eq!(rows[0].1, r1);
    assert_eq!(rows[0].2.id, 100);
}

#[test]
fn create_is_idempotent() {
    let mut store = DataStore::new();
    store.region_snapshots.push(snapshot_row(1, 10, 20, "A", 0));
    let vcr = region_leaf(&["A"], true);
    let first = store.volume_create(volume_row(400, &vcr)).unwrap();
    let second = store.volume_create(volume_row(400, &vcr)).unwrap();
    assert_eq!(first.id, second.id);
    assert_eq!(first.data, second.data);
    assert_eq!(store.volumes.len(), 1);
    // the count rose once, not twice
    assert_eq!(store.region_snapshots[0].volume_references, 1);
}

#[test]
fn get_and_hard_delete_report_missing_rows() {
    let mut store = DataStore::new();
    assert_eq!(store.volume_get(7).unwrap_err(), VolumeError::NotFound);
    assert_eq!(store.volume_hard_delete(7).unwrap_err(), VolumeError::NotFound);

    let vcr = region_leaf(&[], false);
    store.volume_create(volume_row(7, &vcr)).unwrap();
    assert_eq!(store.volume_get(7).unwrap().id, 7);
    store.volume_hard_delete(7).unwrap();
    assert!(store.volumes.is_empty());
    assert_eq!(store.volume_get(7).unwrap_err(), VolumeError::NotFound);
}

#[test]
fn undecodable_volume_body_is_internal_and_rolls_back() {
    let mut store = DataStore::new();
    let v = Volume {
        id: 500,
        data: b"garbage".to_vec(),
        time_deleted: None,
        resources_to_clean_up: None,
    };
    assert_eq!(store.volume_create(v).unwrap_err(), VolumeError::Internal);
    assert!(store.volumes.is_empty());
}

#[test]
fn unknown_reclaim_version_is_internal() {
    let mut store = DataStore::new();
    // a soft-deleted row whose recorded envelope carries an unknown tag
    store.volumes.push(Volume {
        id: 600,
        data: b"U".to_vec(),
        time_deleted: Some(5),
        resources_to_clean_up: Some(b"V9garbage-with-a-future-tag".to_vec()),
    });
    let err = store
        .decrease_crucible_resource_count_and_soft_delete_volume(600)
        .unwrap_err();
    assert_eq!(err, VolumeError::Internal);
    // the row is untouched
    assert_eq!(store.volumes[0].time_deleted, Some(5));
}

#[test]
fn corrupt_body_on_first_delete_is_internal() {
    let mut store = DataStore::new();
    store.volumes.push(Volume {
        id: 700,
        data: b"not-a-request".to_vec(),
        time_deleted: None,
        resources_to_clean_up: None,
    });
    let err = store
        .decrease_crucible_resource_count_and_soft_delete_volume(700)
        .unwrap_err();
    assert_eq!(err, VolumeError::Internal);
    assert_eq!(store.volumes[0].time_deleted, None);
}

#[test]
fn counts_track_live_volumes_across_a_history() {
    let mut store = DataStore::new();
    store.datasets.push(Dataset { id: 1 });
    store.region_snapshots.push(snapshot_row(1, 10, 20, "A", 0));
    store.region_snapshots.push(snapshot_row(1, 11, 21, "B", 0));

    let va = region_leaf(&["A"], true);
    let vab = VolumeConstructionRequest::Volume {
        sub_volumes: vec![region_leaf(&["A"], true), region_leaf(&["B"], true)],
        read_only_parent: None,
    };
    store.volume_create(volume_row(1, &va)).unwrap();
    store.volume_create(volume_row(2, &vab)).unwrap();
    store.volume_create(volume_row(3, &vab)).unwrap();
    assert_eq!(store.region_snapshots[0].volume_references, 3);
    assert_eq!(store.region_snapshots[1].volume_references, 2);

    store
        .decrease_crucible_resource_count_and_soft_delete_volume(2)
        .unwrap();
    assert_eq!(store.region_snapshots[0].volume_references, 2);
    assert_eq!(store.region_snapshots[1].volume_references, 1);

    store
        .decrease_crucible_resource_count_and_soft_delete_volume(1)
        .unwrap();
    store
        .decrease_crucible_resource_count_and_soft_delete_volume(3)
        .unwrap();
    assert_eq!(store.region_snapshots[0].volume_references, 0);
    assert_eq!(store.region_snapshots[1].volume_references, 0);
}
