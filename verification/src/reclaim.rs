//! The persisted form of the reclaim envelope.
//!
//! The envelope is written with an explicit version tag (`V1`) so that
//! later variants can be added without breaking stored rows; a reader
//! refuses an unknown tag. Decoding what was encoded gives back exactly
//! the envelope that was written, which is what makes a replayed deletion
//! return the set recorded by the first one.

use vstd::prelude::*;

use crate::hex::{
    all_hex,
    dec_hex,
    enc_hex,
    lemma_enc_hex,
    lemma_pow16_16,
    lemma_pow16_32,
    pow16,
    push_hex,
    read_hex,
};
use crate::model::{
    CrucibleResources,
    CrucibleResourcesV1,
    Dataset,
    Region,
    RegionSnapshot,
    RegionSnapshotView,
    ResourcesView,
};
use crate::codec::copy_range;

verus! {

pub const VER_TAG_V: u8 = 86;

pub const VER_TAG_1: u8 = 49;

/// The bias that maps a signed reference count onto an unsigned hex field.
pub const REF_BIAS: u64 = 0x8000_0000_0000_0000;

/// Whether the `n` bytes at `pos` are hex digits lying inside `s`.
pub open spec fn hex_ok(s: Seq<u8>, pos: int, n: int) -> bool {
    0 <= pos && pos + n <= s.len() && all_hex(s.subrange(pos, pos + n))
}

/// The value of the `n`-digit hex field at `pos`.
pub open spec fn hex_at(s: Seq<u8>, pos: int, n: int) -> int {
    dec_hex(s.subrange(pos, pos + n))
}

/// The encoding of one snapshot row.
pub open spec fn enc_snap(sv: RegionSnapshotView) -> Seq<u8> {
    enc_hex(sv.dataset_id as int, 32) + enc_hex(sv.region_id as int, 32) + enc_hex(
        sv.snapshot_id as int,
        32,
    ) + enc_hex(sv.snapshot_addr.len() as int, 16) + sv.snapshot_addr + enc_hex(
        sv.volume_references + REF_BIAS,
        16,
    )
}

/// The encoding of one dataset/region pair.
pub open spec fn enc_dr(p: (Dataset, Region)) -> Seq<u8> {
    enc_hex(p.0.id as int, 32) + enc_hex(p.1.id as int, 32) + enc_hex(p.1.volume_id as int, 32)
        + enc_hex(p.1.dataset_id as int, 32)
}

/// The encoding of one dataset/snapshot pair.
pub open spec fn enc_ds(p: (Dataset, RegionSnapshotView)) -> Seq<u8> {
    enc_hex(p.0.id as int, 32) + enc_snap(p.1)
}

/// The encodings of the pairs of `ps` from index `i` on, in a row.
pub open spec fn enc_dr_list(ps: Seq<(Dataset, Region)>, i: int) -> Seq<u8>
    decreases ps.len() - i,
{
    if i < 0 || i >= ps.len() {
        Seq::empty()
    } else {
        enc_dr(ps[i]) + enc_dr_list(ps, i + 1)
    }
}

/// The encodings of the pairs of `ps` from index `i` on, in a row.
pub open spec fn enc_ds_list(ps: Seq<(Dataset, RegionSnapshotView)>, i: int) -> Seq<u8>
    decreases ps.len() - i,
{
    if i < 0 || i >= ps.len() {
        Seq::empty()
    } else {
        enc_ds(ps[i]) + enc_ds_list(ps, i + 1)
    }
}

/// The stored form of a whole envelope.
pub open spec fn enc_resources(rv: ResourcesView) -> Seq<u8> {
    seq![VER_TAG_V, VER_TAG_1] + enc_hex(rv.datasets_and_regions.len() as int, 16) + enc_dr_list(
        rv.datasets_and_regions,
        0,
    ) + enc_hex(rv.datasets_and_snapshots.len() as int, 16) + enc_ds_list(
        rv.datasets_and_snapshots,
        0,
    )
}

/// Decodes one dataset/region pair at `pos`.
pub open spec fn dec_dr(s: Seq<u8>, pos: int) -> Option<((Dataset, Region), int)> {
    if hex_ok(s, pos, 32) && hex_ok(s, pos + 32, 32) && hex_ok(s, pos + 64, 32) && hex_ok(
        s,
        pos + 96,
        32,
    ) {
        Some(
            (
                (
                    Dataset { id: hex_at(s, pos, 32) as u128 },
                    Region {
                        id: hex_at(s, pos + 32, 32) as u128,
                        volume_id: hex_at(s, pos + 64, 32) as u128,
                        dataset_id: hex_at(s, pos + 96, 32) as u128,
                    },
                ),
                pos + 128,
            ),
        )
    } else {
        None
    }
}

/// Decodes one snapshot row at `pos`.
pub open spec fn dec_snap(s: Seq<u8>, pos: int) -> Option<(RegionSnapshotView, int)> {
    if hex_ok(s, pos, 32) && hex_ok(s, pos + 32, 32) && hex_ok(s, pos + 64, 32) && hex_ok(
        s,
        pos + 96,
        16,
    ) {
        let l = hex_at(s, pos + 96, 16);
        if pos + 112 + l > s.len() || !hex_ok(s, pos + 112 + l, 16) {
            None
        } else {
            Some(
                (
                    RegionSnapshotView {
                        dataset_id: hex_at(s, pos, 32) as u128,
                        region_id: hex_at(s, pos + 32, 32) as u128,
                        snapshot_id: hex_at(s, pos + 64, 32) as u128,
                        snapshot_addr: s.subrange(pos + 112, pos + 112 + l),
                        volume_references: (hex_at(s, pos + 112 + l, 16) - REF_BIAS) as i64,
                    },
                    pos + 112 + l + 16,
                ),
            )
        }
    } else {
        None
    }
}

/// Decodes `count` dataset/region pairs in a row at `pos`.
pub open spec fn dec_dr_list(s: Seq<u8>, pos: int, count: int) -> Option<
    (Seq<(Dataset, Region)>, int),
>
    decreases s.len() - pos,
{
    if pos < 0 || pos > s.len() {
        None
    } else if count <= 0 {
        Some((Seq::empty(), pos))
    } else {
        match dec_dr(s, pos) {
            Some((p, p2)) => {
                if p2 <= pos || p2 > s.len() {
                    None
                } else {
                    match dec_dr_list(s, p2, count - 1) {
                        Some((rest, p3)) => Some((seq![p] + rest, p3)),
                        None => None,
                    }
                }
            },
            None => None,
        }
    }
}

/// Decodes `count` dataset/snapshot pairs in a row at `pos`.
pub open spec fn dec_ds_list(s: Seq<u8>, pos: int, count: int) -> Option<
    (Seq<(Dataset, RegionSnapshotView)>, int),
>
    decreases s.len() - pos,
{
    if pos < 0 || pos > s.len() {
        None
    } else if count <= 0 {
        Some((Seq::empty(), pos))
    } else if !hex_ok(s, pos, 32) {
        None
    } else {
        match dec_snap(s, pos + 32) {
            Some((sv, p2)) => {
                if p2 <= pos || p2 > s.len() {
                    None
                } else {
                    match dec_ds_list(s, p2, count - 1) {
                        Some((rest, p3)) => Some(
                            (seq![(Dataset { id: hex_at(s, pos, 32) as u128 }, sv)] + rest, p3),
                        ),
                        None => None,
                    }
                }
            },
            None => None,
        }
    }
}

/// Reads a whole byte string as one envelope: version tag, the two
/// lists, nothing trailing. An unknown version tag reads as nothing.
pub open spec fn dec_resources(s: Seq<u8>) -> Option<ResourcesView> {
    if s.len() < 18 || s[0] != VER_TAG_V || s[1] != VER_TAG_1 || !hex_ok(s, 2, 16) {
        None
    } else {
        match dec_dr_list(s, 18, hex_at(s, 2, 16)) {
            Some((drs, p2)) => {
                if !hex_ok(s, p2, 16) {
                    None
                } else {
                    match dec_ds_list(s, p2 + 16, hex_at(s, p2, 16)) {
                        Some((dss, p3)) => {
                            if p3 == s.len() {
                                Some(
                                    ResourcesView {
                                        datasets_and_regions: drs,
                                        datasets_and_snapshots: dss,
                                    },
                                )
                            } else {
                                None
                            }
                        },
                        None => None,
                    }
                }
            },
            None => None,
        }
    }
}

/// A snapshot row whose address length fits its hex field.
pub open spec fn snap_bounded(sv: RegionSnapshotView) -> bool {
    (sv.snapshot_addr.len() as int) < pow16(16)
}

/// An envelope whose list lengths and addresses fit their hex fields.
pub open spec fn resources_bounded(rv: ResourcesView) -> bool {
    (rv.datasets_and_regions.len() as int) < pow16(16) && (rv.datasets_and_snapshots.len() as int)
        < pow16(16) && forall|j: int|
        0 <= j < rv.datasets_and_snapshots.len() ==> snap_bounded(
            #[trigger] rv.datasets_and_snapshots[j].1,
        )
}

/// A slice of an embedded byte string is the matching slice of `s`.
proof fn lemma_embed_slice(s: Seq<u8>, pos: int, e: Seq<u8>, a: int, b: int)
    requires
        0 <= pos,
        pos + e.len() <= s.len(),
        s.subrange(pos, pos + e.len() as int) == e,
        0 <= a <= b <= e.len(),
    ensures
        s.subrange(pos + a, pos + b) == e.subrange(a, b),
{
    assert forall|j: int| 0 <= j < b - a implies s.subrange(pos + a, pos + b)[j] == e.subrange(
        a,
        b,
    )[j] by {
        assert(s.subrange(pos, pos + e.len() as int)[a + j] == e[a + j]);
    }
    assert(s.subrange(pos + a, pos + b) =~= e.subrange(a, b));
}

/// A hex field embedded at `pos` of `s` reads back as the value written.
proof fn lemma_field(s: Seq<u8>, pos: int, x: int, n: nat)
    requires
        0 <= x < pow16(n),
        0 <= pos,
        pos + n <= s.len(),
        s.subrange(pos, pos + n as int) == enc_hex(x, n),
    ensures
        hex_ok(s, pos, n as int),
        hex_at(s, pos, n as int) == x,
{
    lemma_enc_hex(x, n);
}

/// Ranges of `u128` and of the biased reference count.
proof fn lemma_id_range(x: u128)
    ensures
        0 <= x as int && (x as int) < pow16(32),
{
    lemma_pow16_32();
}

proof fn lemma_ref_range(r: i64)
    ensures
        0 <= r + REF_BIAS < pow16(16),
{
    lemma_pow16_16();
}

/// An embedded snapshot encoding decodes to the row that was written.
proof fn lemma_rt_snap(s: Seq<u8>, pos: int, sv: RegionSnapshotView)
    requires
        snap_bounded(sv),
        0 <= pos,
        pos + enc_snap(sv).len() <= s.len(),
        s.subrange(pos, pos + enc_snap(sv).len() as int) == enc_snap(sv),
    ensures
        enc_snap(sv).len() == 128 + sv.snapshot_addr.len(),
        dec_snap(s, pos) == Some((sv, pos + enc_snap(sv).len() as int)),
{
    let e = enc_snap(sv);
    let al = sv.snapshot_addr.len() as int;
    let h1 = enc_hex(sv.dataset_id as int, 32);
    let h2 = enc_hex(sv.region_id as int, 32);
    let h3 = enc_hex(sv.snapshot_id as int, 32);
    let h4 = enc_hex(al, 16);
    let h5 = enc_hex(sv.volume_references + REF_BIAS, 16);
    lemma_id_range(sv.dataset_id);
    lemma_id_range(sv.region_id);
    lemma_id_range(sv.snapshot_id);
    lemma_ref_range(sv.volume_references);
    lemma_pow16_16();
    lemma_enc_hex(sv.dataset_id as int, 32);
    lemma_enc_hex(sv.region_id as int, 32);
    lemma_enc_hex(sv.snapshot_id as int, 32);
    lemma_enc_hex(al, 16);
    lemma_enc_hex(sv.volume_references + REF_BIAS, 16);
    assert(e == h1 + h2 + h3 + h4 + sv.snapshot_addr + h5);
    assert(e.len() == 128 + al);
    lemma_embed_slice(s, pos, e, 0, 32);
    lemma_embed_slice(s, pos, e, 32, 64);
    lemma_embed_slice(s, pos, e, 64, 96);
    lemma_embed_slice(s, pos, e, 96, 112);
    lemma_embed_slice(s, pos, e, 112, 112 + al);
    lemma_embed_slice(s, pos, e, 112 + al, 128 + al);
    assert(e.subrange(0, 32) =~= h1);
    assert(e.subrange(32, 64) =~= h2);
    assert(e.subrange(64, 96) =~= h3);
    assert(e.subrange(96, 112) =~= h4);
    assert(e.subrange(112, 112 + al) =~= sv.snapshot_addr);
    assert(e.subrange(112 + al, 128 + al) =~= h5);
    lemma_field(s, pos, sv.dataset_id as int, 32);
    lemma_field(s, pos + 32, sv.region_id as int, 32);
    lemma_field(s, pos + 64, sv.snapshot_id as int, 32);
    lemma_field(s, pos + 96, al, 16);
    assert(s.subrange(pos + 112, pos + 112 + al) == sv.snapshot_addr);
    lemma_field(s, pos + 112 + al, sv.volume_references + REF_BIAS, 16);
    assert(((sv.volume_references + REF_BIAS) - REF_BIAS) as i64 == sv.volume_references);
}

/// An embedded dataset/region encoding decodes to the pair written.
proof fn lemma_rt_dr(s: Seq<u8>, pos: int, p: (Dataset, Region))
    requires
        0 <= pos,
        pos + 128 <= s.len(),
        s.subrange(pos, pos + 128) == enc_dr(p),
    ensures
        enc_dr(p).len() == 128,
        dec_dr(s, pos) == Some((p, pos + 128)),
{
    let e = enc_dr(p);
    let h1 = enc_hex(p.0.id as int, 32);
    let h2 = enc_hex(p.1.id as int, 32);
    let h3 = enc_hex(p.1.volume_id as int, 32);
    let h4 = enc_hex(p.1.dataset_id as int, 32);
    lemma_id_range(p.0.id);
    lemma_id_range(p.1.id);
    lemma_id_range(p.1.volume_id);
    lemma_id_range(p.1.dataset_id);
    lemma_enc_hex(p.0.id as int, 32);
    lemma_enc_hex(p.1.id as int, 32);
    lemma_enc_hex(p.1.volume_id as int, 32);
    lemma_enc_hex(p.1.dataset_id as int, 32);
    assert(e == h1 + h2 + h3 + h4);
    lemma_embed_slice(s, pos, e, 0, 32);
    lemma_embed_slice(s, pos, e, 32, 64);
    lemma_embed_slice(s, pos, e, 64, 96);
    lemma_embed_slice(s, pos, e, 96, 128);
    assert(e.subrange(0, 32) =~= h1);
    assert(e.subrange(32, 64) =~= h2);
    assert(e.subrange(64, 96) =~= h3);
    assert(e.subrange(96, 128) =~= h4);
    lemma_field(s, pos, p.0.id as int, 32);
    lemma_field(s, pos + 32, p.1.id as int, 32);
    lemma_field(s, pos + 64, p.1.volume_id as int, 32);
    lemma_field(s, pos + 96, p.1.dataset_id as int, 32);
}

/// An embedded run of dataset/region pairs decodes to the pairs written.
proof fn lemma_rt_dr_list(s: Seq<u8>, pos: int, ps: Seq<(Dataset, Region)>, i: int)
    requires
        0 <= i <= ps.len(),
        0 <= pos,
        pos + enc_dr_list(ps, i).len() <= s.len(),
        s.subrange(pos, pos + enc_dr_list(ps, i).len() as int) == enc_dr_list(ps, i),
    ensures
        enc_dr_list(ps, i).len() == 128 * (ps.len() - i),
        dec_dr_list(s, pos, ps.len() - i) == Some(
            (ps.subrange(i, ps.len() as int), pos + enc_dr_list(ps, i).len() as int),
        ),
    decreases ps.len() - i,
{
    if i == ps.len() {
        assert(ps.subrange(i, ps.len() as int) =~= Seq::<(Dataset, Region)>::empty());
    } else {
        let e = enc_dr_list(ps, i);
        assert(e == enc_dr(ps[i]) + enc_dr_list(ps, i + 1));
        lemma_id_range(ps[i].0.id);
        lemma_id_range(ps[i].1.id);
        lemma_id_range(ps[i].1.volume_id);
        lemma_id_range(ps[i].1.dataset_id);
        lemma_enc_hex(ps[i].0.id as int, 32);
        lemma_enc_hex(ps[i].1.id as int, 32);
        lemma_enc_hex(ps[i].1.volume_id as int, 32);
        lemma_enc_hex(ps[i].1.dataset_id as int, 32);
        assert(enc_dr(ps[i]).len() == 128);
        lemma_embed_slice(s, pos, e, 0, 128);
        lemma_embed_slice(s, pos, e, 128, e.len() as int);
        assert(e.subrange(0, 128) =~= enc_dr(ps[i]));
        assert(e.subrange(128, e.len() as int) =~= enc_dr_list(ps, i + 1));
        lemma_rt_dr(s, pos, ps[i]);
        lemma_rt_dr_list(s, pos + 128, ps, i + 1);
        assert(seq![ps[i]] + ps.subrange(i + 1, ps.len() as int) =~= ps.subrange(
            i,
            ps.len() as int,
        ));
    }
}

/// An embedded run of dataset/snapshot pairs decodes to the pairs written.
proof fn lemma_rt_ds_list(s: Seq<u8>, pos: int, ps: Seq<(Dataset, RegionSnapshotView)>, i: int)
    requires
        0 <= i <= ps.len(),
        forall|j: int| 0 <= j < ps.len() ==> snap_bounded(#[trigger] ps[j].1),
        0 <= pos,
        pos + enc_ds_list(ps, i).len() <= s.len(),
        s.subrange(pos, pos + enc_ds_list(ps, i).len() as int) == enc_ds_list(ps, i),
    ensures
        dec_ds_list(s, pos, ps.len() - i) == Some(
            (ps.subrange(i, ps.len() as int), pos + enc_ds_list(ps, i).len() as int),
        ),
    decreases ps.len() - i,
{
    if i == ps.len() {
        assert(ps.subrange(i, ps.len() as int) =~= Seq::<(Dataset, RegionSnapshotView)>::empty());
    } else {
        let e = enc_ds_list(ps, i);
        let e0 = enc_ds(ps[i]);
        let sn = enc_snap(ps[i].1);
        assert(e == e0 + enc_ds_list(ps, i + 1));
        lemma_id_range(ps[i].0.id);
        lemma_enc_hex(ps[i].0.id as int, 32);
        assert(e0 == enc_hex(ps[i].0.id as int, 32) + sn);
        assert(e == enc_hex(ps[i].0.id as int, 32) + sn + enc_ds_list(ps, i + 1));
        lemma_embed_slice(s, pos, e, 0, 32);
        lemma_embed_slice(s, pos, e, 32, 32 + sn.len() as int);
        lemma_embed_slice(s, pos, e, 32 + sn.len() as int, e.len() as int);
        assert(e.subrange(0, 32) =~= enc_hex(ps[i].0.id as int, 32));
        assert(e.subrange(32, 32 + sn.len() as int) =~= sn);
        assert(e.subrange(32 + sn.len() as int, e.len() as int) =~= enc_ds_list(ps, i + 1));
        lemma_field(s, pos, ps[i].0.id as int, 32);
        lemma_rt_snap(s, pos + 32, ps[i].1);
        let p2 = pos + 32 + sn.len() as int;
        lemma_rt_ds_list(s, p2, ps, i + 1);
        assert(seq![(Dataset { id: ps[i].0.id }, ps[i].1)] + ps.subrange(i + 1, ps.len() as int)
            =~= ps.subrange(i, ps.len() as int)) by {
            assert(Dataset { id: ps[i].0.id } == ps[i].0);
        }
    }
}

/// Decoding what was encoded yields back exactly the envelope written.
pub proof fn lemma_resources_round_trip(rv: ResourcesView)
    requires
        resources_bounded(rv),
    ensures
        dec_resources(enc_resources(rv)) == Some(rv),
{
    let s = enc_resources(rv);
    let drs = rv.datasets_and_regions;
    let dss = rv.datasets_and_snapshots;
    let h1 = enc_hex(drs.len() as int, 16);
    let l1 = enc_dr_list(drs, 0);
    let h2 = enc_hex(dss.len() as int, 16);
    let l2 = enc_ds_list(dss, 0);
    lemma_enc_hex(drs.len() as int, 16);
    lemma_enc_hex(dss.len() as int, 16);
    assert(s == seq![VER_TAG_V, VER_TAG_1] + h1 + l1 + h2 + l2);
    assert(s.len() == 18 + l1.len() + 16 + l2.len());
    assert(s[0] == VER_TAG_V && s[1] == VER_TAG_1);
    assert(s.subrange(2, 18) =~= h1);
    lemma_field(s, 2, drs.len() as int, 16);
    assert(s.subrange(18, 18 + l1.len() as int) =~= l1);
    lemma_rt_dr_list(s, 18, drs, 0);
    let p2 = 18 + l1.len() as int;
    assert(s.subrange(p2, p2 + 16) =~= h2);
    lemma_field(s, p2, dss.len() as int, 16);
    assert(s.subrange(p2 + 16, p2 + 16 + l2.len() as int) =~= l2);
    lemma_rt_ds_list(s, p2 + 16, dss, 0);
    assert(drs.subrange(0, drs.len() as int) =~= drs);
    assert(dss.subrange(0, dss.len() as int) =~= dss);
}

/// The images of a sequence of dataset/snapshot rows.
pub open spec fn ds_views(v: Seq<(Dataset, RegionSnapshot)>) -> Seq<(Dataset, RegionSnapshotView)> {
    Seq::new(v.len(), |i: int| (v[i].0, v[i].1@))
}

/// Maps a signed reference count onto its unsigned hex field.
fn bias_refs(r: i64) -> (b: u64)
    ensures
        b as int == r + REF_BIAS,
{
    if r >= 0 {
        (r as u64) + REF_BIAS
    } else {
        ((r + 0x4000_0000_0000_0000i64) + 0x4000_0000_0000_0000i64) as u64
    }
}

/// Reads a signed reference count back out of its unsigned hex field.
fn unbias_refs(b: u64) -> (r: i64)
    ensures
        r as int == b - REF_BIAS,
{
    if b >= REF_BIAS {
        (b - REF_BIAS) as i64
    } else {
        ((b as i64) - 0x4000_0000_0000_0000i64) - 0x4000_0000_0000_0000i64
    }
}

/// Appends the encodings of the dataset/region pairs from index `i` on.
fn push_dr_slice(out: &mut Vec<u8>, ps: &Vec<(Dataset, Region)>, i: usize)
    requires
        i <= ps@.len(),
    ensures
        final(out)@ == old(out)@ + enc_dr_list(ps@, i as int),
    decreases ps@.len() - i,
{
    proof {
        lemma_pow16_32();
    }
    if i < ps.len() {
        let p = &ps[i];
        push_hex(out, p.0.id, 32);
        push_hex(out, p.1.id, 32);
        push_hex(out, p.1.volume_id, 32);
        push_hex(out, p.1.dataset_id, 32);
        push_dr_slice(out, ps, i + 1);
        proof {
            assert(out@ =~= old(out)@ + enc_dr_list(ps@, i as int));
        }
    } else {
        proof {
            assert(out@ =~= old(out)@ + enc_dr_list(ps@, i as int));
        }
    }
}

/// Appends the encodings of the dataset/snapshot pairs from index `i` on.
fn push_ds_slice(out: &mut Vec<u8>, ps: &Vec<(Dataset, RegionSnapshot)>, i: usize)
    requires
        i <= ps@.len(),
    ensures
        final(out)@ == old(out)@ + enc_ds_list(ds_views(ps@), i as int),
    decreases ps@.len() - i,
{
    proof {
        lemma_pow16_16();
        lemma_pow16_32();
        assert(ds_views(ps@).len() == ps@.len());
    }
    if i < ps.len() {
        let snap = &ps[i].1;
        push_hex(out, ps[i].0.id, 32);
        let ghost o1 = out@;
        push_hex(out, snap.dataset_id, 32);
        push_hex(out, snap.region_id, 32);
        push_hex(out, snap.snapshot_id, 32);
        push_hex(out, snap.snapshot_addr.len() as u128, 16);
        let ghost o2 = out@;
        let mut k: usize = 0;
        while k < snap.snapshot_addr.len()
            invariant
                0 <= k <= snap.snapshot_addr@.len(),
                out@ == o2 + snap.snapshot_addr@.subrange(0, k as int),
            decreases snap.snapshot_addr@.len() - k,
        {
            out.push(snap.snapshot_addr[k]);
            proof {
                assert(out@ =~= o2 + snap.snapshot_addr@.subrange(0, k + 1));
            }
            k += 1;
        }
        let b = bias_refs(snap.volume_references);
        push_hex(out, b as u128, 16);
        push_ds_slice(out, ps, i + 1);
        proof {
            let sv = ps@[i as int].1@;
            assert(snap.snapshot_addr@.subrange(0, snap.snapshot_addr@.len() as int)
                =~= snap.snapshot_addr@);
            assert(ds_views(ps@)[i as int] == (ps@[i as int].0, sv));
            assert(out@ =~= old(out)@ + enc_ds_list(ds_views(ps@), i as int));
        }
    } else {
        proof {
            assert(out@ =~= old(out)@ + enc_ds_list(ds_views(ps@), i as int));
        }
    }
}

/// Writes an envelope in its stored textual form.
pub fn encode_resources(r: &CrucibleResources) -> (out: Vec<u8>)
    ensures
        out@ == enc_resources(r@),
{
    proof {
        lemma_pow16_16();
    }
    match r {
        CrucibleResources::V1(v) => {
            let mut out: Vec<u8> = Vec::new();
            out.push(VER_TAG_V);
            out.push(VER_TAG_1);
            push_hex(&mut out, v.datasets_and_regions.len() as u128, 16);
            push_dr_slice(&mut out, &v.datasets_and_regions, 0);
            push_hex(&mut out, v.datasets_and_snapshots.len() as u128, 16);
            push_ds_slice(&mut out, &v.datasets_and_snapshots, 0);
            proof {
                assert(v@.datasets_and_snapshots =~= ds_views(v.datasets_and_snapshots@));
                assert(out@ =~= enc_resources(r@));
            }
            out
        },
    }
}

/// Reads `count` dataset/region pairs in a row at `pos`.
fn parse_dr_list(bytes: &Vec<u8>, pos: usize, count: u128) -> (r: Option<
    (Vec<(Dataset, Region)>, usize),
>)
    ensures
        ({
            let sd = dec_dr_list(bytes@, pos as int, count as int);
            match r {
                Some(vp) => sd == Some((vp.0@, vp.1 as int)) && pos <= vp.1 <= bytes@.len(),
                None => sd is None,
            }
        }),
    decreases bytes@.len() - pos,
{
    let len: usize = bytes.len();
    if pos > len {
        return None;
    }
    if count == 0 {
        let empty: Vec<(Dataset, Region)> = Vec::new();
        proof {
            assert(empty@ =~= Seq::<(Dataset, Region)>::empty());
        }
        return Some((empty, pos));
    }
    match read_hex(bytes, pos, 32) {
        Some(f1) => match read_hex(bytes, pos + 32, 32) {
            Some(f2) => match read_hex(bytes, pos + 64, 32) {
                Some(f3) => match read_hex(bytes, pos + 96, 32) {
                    Some(f4) => {
                        let d = Dataset { id: f1 };
                        let reg = Region { id: f2, volume_id: f3, dataset_id: f4 };
                        match parse_dr_list(bytes, pos + 128, count - 1) {
                            Some((mut rest, p3)) => {
                                let ghost restseq = rest@;
                                rest.insert(0, (d, reg));
                                proof {
                                    assert(rest@ =~= seq![(d, reg)] + restseq);
                                }
                                Some((rest, p3))
                            },
                            None => None,
                        }
                    },
                    None => None,
                },
                None => None,
            },
            None => None,
        },
        None => None,
    }
}

/// Reads `count` dataset/snapshot pairs in a row at `pos`.
fn parse_ds_list(bytes: &Vec<u8>, pos: usize, count: u128) -> (r: Option<
    (Vec<(Dataset, RegionSnapshot)>, usize),
>)
    ensures
        ({
            let sd = dec_ds_list(bytes@, pos as int, count as int);
            match r {
                Some(vp) => sd == Some((ds_views(vp.0@), vp.1 as int)) && pos <= vp.1
                    <= bytes@.len(),
                None => sd is None,
            }
        }),
    decreases bytes@.len() - pos,
{
    let len: usize = bytes.len();
    if pos > len {
        return None;
    }
    if count == 0 {
        let empty: Vec<(Dataset, RegionSnapshot)> = Vec::new();
        proof {
            assert(ds_views(empty@) =~= Seq::<(Dataset, RegionSnapshotView)>::empty());
        }
        return Some((empty, pos));
    }
    match read_hex(bytes, pos, 32) {
        Some(f0) => match read_hex(bytes, pos + 32, 32) {
            Some(f1) => match read_hex(bytes, pos + 64, 32) {
                Some(f2) => match read_hex(bytes, pos + 96, 32) {
                    Some(f3) => match read_hex(bytes, pos + 128, 16) {
                        Some(al) => {
                            if al > (len - (pos + 144)) as u128 {
                                return None;
                            }
                            let alu = al as usize;
                            let addr = copy_range(bytes, pos + 144, pos + 144 + alu);
                            match read_hex(bytes, pos + 144 + alu, 16) {
                                Some(bref) => {
                                    proof {
                                        lemma_pow16_16();
                                    }
                                    let refs = unbias_refs(bref as u64);
                                    let d = Dataset { id: f0 };
                                    let snap = RegionSnapshot {
                                        dataset_id: f1,
                                        region_id: f2,
                                        snapshot_id: f3,
                                        snapshot_addr: addr,
                                        volume_references: refs,
                                    };
                                    match parse_ds_list(bytes, pos + 160 + alu, count - 1) {
                                        Some((mut rest, p3)) => {
                                            let ghost restseq = rest@;
                                            rest.insert(0, (d, snap));
                                            proof {
                                                assert(rest@ == restseq.insert(0, (d, snap)));
                                                assert forall|j: int|
                                                    0 <= j < rest@.len() implies #[trigger] ds_views(
                                                    rest@,
                                                )[j] == (seq![(d, snap@)] + ds_views(restseq))[j] by {
                                                    if j > 0 {
                                                        assert(rest@[j] == restseq[j - 1]);
                                                    }
                                                }
                                                assert(ds_views(rest@) =~= seq![(d, snap@)]
                                                    + ds_views(restseq));
                                            }
                                            Some((rest, p3))
                                        },
                                        None => None,
                                    }
                                },
                                None => None,
                            }
                        },
                        None => None,
                    },
                    None => None,
                },
                None => None,
            },
            None => None,
        },
        None => None,
    }
}

/// Reads a whole byte string as one envelope, refusing an unknown
/// version tag and trailing bytes.
pub fn decode_resources(bytes: &Vec<u8>) -> (r: Option<CrucibleResources>)
    ensures
        match r {
            Some(v) => dec_resources(bytes@) == Some(v@),
            None => dec_resources(bytes@) is None,
        },
{
    let len: usize = bytes.len();
    if len < 18 {
        return None;
    }
    if bytes[0] != VER_TAG_V || bytes[1] != VER_TAG_1 {
        return None;
    }
    match read_hex(bytes, 2, 16) {
        Some(c1) => match parse_dr_list(bytes, 18, c1) {
            Some((drs, p2)) => match read_hex(bytes, p2, 16) {
                Some(c2) => match parse_ds_list(bytes, p2 + 16, c2) {
                    Some((dss, p3)) => {
                        if p3 == len {
                            let built = CrucibleResources::V1(
                                CrucibleResourcesV1 {
                                    datasets_and_regions: drs,
                                    datasets_and_snapshots: dss,
                                },
                            );
                            proof {
                                let bv = built@;
                                assert(bv.datasets_and_snapshots =~= ds_views(
                                    match built {
                                        CrucibleResources::V1(ref v) => v.datasets_and_snapshots@,
                                    },
                                ));
                            }
                            Some(built)
                        } else {
                            None
                        }
                    },
                    None => None,
                },
                None => None,
            },
            None => None,
        },
        None => None,
    }
}

} // verus!
