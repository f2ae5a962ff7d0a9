//! The construction-request walker: enumerates the read-only targets a
//! volume references, which are the targets whose snapshot reference
//! counts the transactions raise and lower.

use vstd::prelude::*;

use crate::model::{VcrView, VolumeConstructionRequest, vcr_view, vcr_views};

verus! {

/// The images of a sequence of byte strings.
pub open spec fn bytes_views(v: Seq<Vec<u8>>) -> Seq<Seq<u8>> {
    Seq::new(v.len(), |i: int| v[i]@)
}

/// The read-only targets of a construction request, in walk order:
/// sub-volumes first, then the read-only parent; only `Region` leaves
/// with `read_only` set contribute, and duplicates are preserved.
pub open spec fn read_only_targets(v: VcrView) -> Seq<Seq<u8>>
    decreases v, 0int,
{
    match v {
        VcrView::Volume { sub_volumes, read_only_parent } => list_read_only_targets(sub_volumes, 0)
            + match read_only_parent {
            Some(p) => read_only_targets(*p),
            None => Seq::empty(),
        },
        VcrView::Url => Seq::empty(),
        VcrView::Region { target, read_only } => if read_only {
            target
        } else {
            Seq::empty()
        },
        VcrView::File => Seq::empty(),
    }
}

/// The read-only targets of the nodes of `vs` from index `i` on.
pub open spec fn list_read_only_targets(vs: Seq<VcrView>, i: int) -> Seq<Seq<u8>>
    decreases vs, vs.len() - i,
{
    if i < 0 || i >= vs.len() {
        Seq::empty()
    } else {
        read_only_targets(vs[i]) + list_read_only_targets(vs, i + 1)
    }
}

/// The accumulator the walker fills.
pub struct CrucibleTargets {
    pub read_only_targets: Vec<Vec<u8>>,
}

impl CrucibleTargets {
    pub fn new() -> (r: CrucibleTargets)
        ensures
            r.read_only_targets@.len() == 0,
    {
        CrucibleTargets { read_only_targets: Vec::new() }
    }
}

/// How `vcr_views` relates to the image of each node.
pub proof fn lemma_vcr_views(vs: Seq<VolumeConstructionRequest>, i: int)
    requires
        0 <= i <= vs.len(),
    ensures
        vcr_views(vs, i).len() == vs.len() - i,
        forall|k: int|
            0 <= k < vs.len() - i ==> #[trigger] vcr_views(vs, i)[k] == vcr_view(vs[i + k]),
    decreases vs.len() - i,
{
    if i < vs.len() {
        lemma_vcr_views(vs, i + 1);
        assert forall|k: int| 0 <= k < vs.len() - i implies #[trigger] vcr_views(vs, i)[k]
            == vcr_view(vs[i + k]) by {
            if k > 0 {
                assert(vcr_views(vs, i)[k] == vcr_views(vs, i + 1)[k - 1]);
            }
        }
    }
}

/// Copies the bytes of a target.
pub fn clone_bytes(v: &Vec<u8>) -> (r: Vec<u8>)
    ensures
        r@ == v@,
{
    let mut r: Vec<u8> = Vec::new();
    let n: usize = v.len();
    let mut i: usize = 0;
    while i < n
        invariant
            n == v@.len(),
            0 <= i <= n,
            r@ == v@.subrange(0, i as int),
        decreases n - i,
    {
        r.push(v[i]);
        proof {
            assert(r@ =~= v@.subrange(0, i + 1));
        }
        i += 1;
    }
    proof {
        assert(r@ =~= v@);
    }
    r
}

/// Appends to the accumulator every read-only target that `vcr`
/// references, in walk order, leaving what was there untouched.
pub fn resources_associated_with_volume(
    vcr: &VolumeConstructionRequest,
    crucible_targets: &mut CrucibleTargets,
)
    ensures
        bytes_views(final(crucible_targets).read_only_targets@) == bytes_views(
            old(crucible_targets).read_only_targets@,
        ) + read_only_targets(vcr@),
    decreases *vcr, 0int, 0int,
{
    match vcr {
        VolumeConstructionRequest::Volume { sub_volumes, read_only_parent } => {
            let ghost vsv = vcr_views(sub_volumes@, 0);
            proof {
                lemma_vcr_views(sub_volumes@, 0);
            }
            walk_sub_volumes(sub_volumes, crucible_targets);
            match read_only_parent {
                Some(p) => {
                    resources_associated_with_volume(&**p, crucible_targets);
                },
                None => {},
            }
            proof {
                assert(bytes_views(crucible_targets.read_only_targets@) =~= bytes_views(
                    old(crucible_targets).read_only_targets@,
                ) + read_only_targets(vcr@));
            }
        },
        VolumeConstructionRequest::Url => {
            proof {
                assert(bytes_views(crucible_targets.read_only_targets@) =~= bytes_views(
                    old(crucible_targets).read_only_targets@,
                ) + read_only_targets(vcr@));
            }
        },
        VolumeConstructionRequest::Region { target, read_only } => {
            if *read_only {
                let ghost tv = read_only_targets(vcr@);
                let ghost base = old(crucible_targets).read_only_targets@;
                proof {
                    assert(tv.len() == target@.len());
                    assert(forall|k: int| 0 <= k < tv.len() ==> #[trigger] tv[k] == target@[k]@);
                }
                let n: usize = target.len();
                let mut i: usize = 0;
                while i < n
                    invariant
                        n == target@.len(),
                        0 <= i <= n,
                        tv.len() == n,
                        forall|k: int| 0 <= k < tv.len() ==> #[trigger] tv[k] == target@[k]@,
                        base == old(crucible_targets).read_only_targets@,
                        crucible_targets.read_only_targets@.len() == base.len() + i,
                        forall|k: int|
                            0 <= k < base.len()
                                ==> #[trigger] crucible_targets.read_only_targets@[k] == base[k],
                        forall|k: int|
                            0 <= k < i ==> #[trigger] crucible_targets.read_only_targets@[base.len()
                                + k]@ == tv[k],
                    decreases n - i,
                {
                    let t = clone_bytes(&target[i]);
                    crucible_targets.read_only_targets.push(t);
                    i += 1;
                }
                proof {
                    let cur = crucible_targets.read_only_targets@;
                    assert forall|k: int|
                        0 <= k < cur.len() implies #[trigger] bytes_views(cur)[k] == (bytes_views(
                        base,
                    ) + tv)[k] by {
                        assert(bytes_views(cur)[k] == cur[k]@);
                        if k < base.len() {
                            assert(cur[k] == base[k]);
                        } else {
                            let k2 = k - base.len();
                            assert(cur[base.len() + k2]@ == tv[k2]);
                        }
                    }
                    assert(bytes_views(cur) =~= bytes_views(base) + tv);
                }
            } else {
                proof {
                    assert(bytes_views(crucible_targets.read_only_targets@) =~= bytes_views(
                        old(crucible_targets).read_only_targets@,
                    ) + read_only_targets(vcr@));
                }
            }
        },
        VolumeConstructionRequest::File => {
            proof {
                assert(bytes_views(crucible_targets.read_only_targets@) =~= bytes_views(
                    old(crucible_targets).read_only_targets@,
                ) + read_only_targets(vcr@));
            }
        },
    }
}

/// Walks the sub-volumes of an interior node in order.
fn walk_sub_volumes(sub_volumes: &Vec<VolumeConstructionRequest>, crucible_targets: &mut CrucibleTargets)
    ensures
        bytes_views(final(crucible_targets).read_only_targets@) == bytes_views(
            old(crucible_targets).read_only_targets@,
        ) + list_read_only_targets(vcr_views(sub_volumes@, 0), 0),
    decreases sub_volumes@, sub_volumes@.len(), 1int,
{
    let ghost vsv = vcr_views(sub_volumes@, 0);
    proof {
        lemma_vcr_views(sub_volumes@, 0);
    }
    let n: usize = sub_volumes.len();
    let mut i: usize = 0;
    while i < n
        invariant
            n == sub_volumes@.len(),
            0 <= i <= n,
            vsv == vcr_views(sub_volumes@, 0),
            vsv.len() == n,
            forall|k: int| 0 <= k < n ==> #[trigger] vsv[k] == vcr_view(sub_volumes@[k]),
            bytes_views(crucible_targets.read_only_targets@) + list_read_only_targets(vsv, i as int)
                == bytes_views(old(crucible_targets).read_only_targets@)
                + list_read_only_targets(vsv, 0),
        decreases n - i,
    {
        let ghost before = bytes_views(crucible_targets.read_only_targets@);
        resources_associated_with_volume(&sub_volumes[i], crucible_targets);
        proof {
            assert(read_only_targets(sub_volumes@[i as int]@) == read_only_targets(vsv[i as int]));
            assert(bytes_views(crucible_targets.read_only_targets@) + list_read_only_targets(
                vsv,
                i + 1,
            ) =~= bytes_views(old(crucible_targets).read_only_targets@) + list_read_only_targets(
                vsv,
                0,
            )) by {
                assert(list_read_only_targets(vsv, i as int) == read_only_targets(vsv[i as int])
                    + list_read_only_targets(vsv, i + 1));
                assert((before + read_only_targets(vsv[i as int])) + list_read_only_targets(
                    vsv,
                    i + 1,
                ) =~= before + list_read_only_targets(vsv, i as int));
            }
        }
        i += 1;
    }
    proof {
        assert(list_read_only_targets(vsv, n as int) =~= Seq::<Seq<u8>>::empty());
        assert(bytes_views(crucible_targets.read_only_targets@) =~= bytes_views(
            old(crucible_targets).read_only_targets@,
        ) + list_read_only_targets(vsv, 0));
    }
}

} // verus!
