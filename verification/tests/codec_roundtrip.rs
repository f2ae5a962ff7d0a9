use volume_reclaim::codec::{encode_volume_construction_request, parse_volume_construction_request};
use volume_reclaim::model::{
    CrucibleResources, CrucibleResourcesV1, Dataset, Region, RegionSnapshot,
    VolumeConstructionRequest,
};
use volume_reclaim::reclaim::{decode_resources, encode_resources};

#[test]
fn construction_request_round_trips() {
    let tree = VolumeConstructionRequest::Volume {
        sub_volumes: vec![
            VolumeConstructionRequest::Url,
            VolumeConstructionRequest::Region {
                target: vec![b"10.0.0.1:1000".to_vec(), b"10.0.0.2:2000".to_vec()],
                read_only: true,
            },
            VolumeConstructionRequest::File,
            VolumeConstructionRequest::Volume {
                sub_volumes: vec![],
                read_only_parent: None,
            },
        ],
        read_only_parent: Some(Box::new(VolumeConstructionRequest::Region {
            target: vec![b"B".to_vec(), b"B".to_vec()],
            read_only: false,
        })),
    };
    let bytes = encode_volume_construction_request(&tree);
    let parsed = parse_volume_construction_request(&bytes).unwrap();
    assert_eq!(encode_volume_construction_request(&parsed), bytes);
}

#[test]
fn construction_request_rejects_trailing_bytes() {
    let mut bytes = encode_volume_construction_request(&VolumeConstructionRequest::Url);
    assert!(parse_volume_construction_request(&bytes).is_some());
    bytes.push(b'x');
    assert!(parse_volume_construction_request(&bytes).is_none());
}

#[test]
fn envelope_round_trips() {
    let d = Dataset { id: 0xfeed_beef };
    let r = Region { id: 7, volume_id: 8, dataset_id: 0xfeed_beef };
    let s = RegionSnapshot {
        dataset_id: 0xfeed_beef,
        region_id: 7,
        snapshot_id: 9,
        snapshot_addr: b"10.9.8.7:6543".to_vec(),
        volume_references: 0,
    };
    let env = CrucibleResources::V1(CrucibleResourcesV1 {
        datasets_and_regions: vec![(d, r)],
        datasets_and_snapshots: vec![(d, s)],
    });
    let bytes = encode_resources(&env);
    let back = decode_resources(&bytes).unwrap();
    assert_eq!(encode_resources(&back), bytes);
    match back {
        CrucibleResources::V1(v) => {
            assert_eq!(v.datasets_and_regions, vec![(d, r)]);
            assert_eq!(v.datasets_and_snapshots[0].1.snapshot_addr, b"10.9.8.7:6543".to_vec());
            assert_eq!(v.datasets_and_snapshots[0].1.volume_references, 0);
        }
    }
}

#[test]
fn envelope_rejects_unknown_version_tag() {
    let env = CrucibleResources::V1(CrucibleResourcesV1 {
        datasets_and_regions: vec![],
        datasets_and_snapshots: vec![],
    });
    let mut bytes = encode_resources(&env);
    assert!(decode_resources(&bytes).is_some());
    // a future version tag must be refused, not misread
    bytes[1] = b'2';
    assert!(decode_resources(&bytes).is_none());
}
