//! The persisted textual form of construction requests.
//!
//! A request is written as a tagged string: `V` + sub-volume count + the
//! sub-volumes + (`P` + parent | `N`) for interior nodes, `R` + read-only
//! flag + target count + length-prefixed targets for region leaves, and
//! the bare tags `U` and `F` for the resource-free leaves. Counts and
//! lengths are fixed-width hex fields.

use vstd::prelude::*;

use crate::hex::{all_hex, dec_hex, enc_hex, lemma_enc_hex, lemma_pow16_16, pow16, push_hex, read_hex};
use crate::model::{VcrView, VolumeConstructionRequest, vcr_view, vcr_views};
use crate::walker::{bytes_views, lemma_vcr_views};

verus! {

pub const TAG_VOLUME: u8 = 86;

pub const TAG_URL: u8 = 85;

pub const TAG_REGION: u8 = 82;

pub const TAG_FILE: u8 = 70;

pub const TAG_PARENT: u8 = 80;

pub const TAG_NO_PARENT: u8 = 78;

pub const TAG_RO: u8 = 49;

pub const TAG_RW: u8 = 48;

/// Decodes one construction request starting at `pos`; yields the tree
/// and the position just past it.
pub open spec fn dec_vcr(s: Seq<u8>, pos: int) -> Option<(VcrView, int)>
    decreases s.len() - pos, 0int,
{
    if pos < 0 || pos >= s.len() {
        None
    } else if s[pos] == TAG_URL {
        Some((VcrView::Url, pos + 1))
    } else if s[pos] == TAG_FILE {
        Some((VcrView::File, pos + 1))
    } else if s[pos] == TAG_REGION {
        if pos + 18 > s.len() {
            None
        } else {
            let ro = s[pos + 1];
            if ro != TAG_RO && ro != TAG_RW {
                None
            } else {
                let cntseg = s.subrange(pos + 2, pos + 18);
                if !all_hex(cntseg) {
                    None
                } else {
                    match dec_targets(s, pos + 18, dec_hex(cntseg)) {
                        Some((ts, p2)) => Some(
                            (VcrView::Region { target: ts, read_only: ro == TAG_RO }, p2),
                        ),
                        None => None,
                    }
                }
            }
        }
    } else if s[pos] == TAG_VOLUME {
        if pos + 17 > s.len() {
            None
        } else {
            let cntseg = s.subrange(pos + 1, pos + 17);
            if !all_hex(cntseg) {
                None
            } else {
                match dec_vcr_list(s, pos + 17, dec_hex(cntseg)) {
                    Some((subs, p2)) => {
                        if p2 <= pos || p2 >= s.len() {
                            None
                        } else if s[p2] == TAG_NO_PARENT {
                            Some(
                                (
                                    VcrView::Volume {
                                        sub_volumes: subs,
                                        read_only_parent: None,
                                    },
                                    p2 + 1,
                                ),
                            )
                        } else if s[p2] == TAG_PARENT {
                            match dec_vcr(s, p2 + 1) {
                                Some((pv, p3)) => Some(
                                    (
                                        VcrView::Volume {
                                            sub_volumes: subs,
                                            read_only_parent: Some(Box::new(pv)),
                                        },
                                        p3,
                                    ),
                                ),
                                None => None,
                            }
                        } else {
                            None
                        }
                    },
                    None => None,
                }
            }
        }
    } else {
        None
    }
}

/// Decodes `count` construction requests in a row, starting at `pos`.
pub open spec fn dec_vcr_list(s: Seq<u8>, pos: int, count: int) -> Option<(Seq<VcrView>, int)>
    decreases s.len() - pos, 1int,
{
    if pos < 0 || pos > s.len() {
        None
    } else if count <= 0 {
        Some((Seq::empty(), pos))
    } else {
        match dec_vcr(s, pos) {
            Some((v, p2)) => {
                if p2 <= pos || p2 > s.len() {
                    None
                } else {
                    match dec_vcr_list(s, p2, count - 1) {
                        Some((rest, p3)) => Some((seq![v] + rest, p3)),
                        None => None,
                    }
                }
            },
            None => None,
        }
    }
}

/// Decodes `count` length-prefixed targets in a row, starting at `pos`.
pub open spec fn dec_targets(s: Seq<u8>, pos: int, count: int) -> Option<(Seq<Seq<u8>>, int)>
    decreases s.len() - pos,
{
    if pos < 0 || pos > s.len() {
        None
    } else if count <= 0 {
        Some((Seq::empty(), pos))
    } else if pos + 16 > s.len() {
        None
    } else {
        let lenseg = s.subrange(pos, pos + 16);
        if !all_hex(lenseg) {
            None
        } else {
            let l = dec_hex(lenseg);
            if l < 0 || pos + 16 + l > s.len() {
                None
            } else {
                match dec_targets(s, pos + 16 + l, count - 1) {
                    Some((rest, p2)) => Some((seq![s.subrange(pos + 16, pos + 16 + l)] + rest, p2)),
                    None => None,
                }
            }
        }
    }
}

/// A whole byte string read as one construction request.
pub open spec fn dec_vcr_full(s: Seq<u8>) -> Option<VcrView> {
    match dec_vcr(s, 0) {
        Some((v, p)) => if p == s.len() {
            Some(v)
        } else {
            None
        },
        None => None,
    }
}

/// The encoding of one construction request.
pub open spec fn enc_vcr(v: VcrView) -> Seq<u8>
    decreases v, 0int,
{
    match v {
        VcrView::Volume { sub_volumes, read_only_parent } => seq![TAG_VOLUME] + enc_hex(
            sub_volumes.len() as int,
            16,
        ) + enc_vcr_list(sub_volumes, 0) + match read_only_parent {
            Some(p) => seq![TAG_PARENT] + enc_vcr(*p),
            None => seq![TAG_NO_PARENT],
        },
        VcrView::Url => seq![TAG_URL],
        VcrView::Region { target, read_only } => seq![TAG_REGION] + seq![
            if read_only {
                TAG_RO
            } else {
                TAG_RW
            },
        ] + enc_hex(target.len() as int, 16) + enc_targets(target, 0),
        VcrView::File => seq![TAG_FILE],
    }
}

/// The encodings of the nodes of `vs` from index `i` on, in a row.
pub open spec fn enc_vcr_list(vs: Seq<VcrView>, i: int) -> Seq<u8>
    decreases vs, vs.len() - i,
{
    if i < 0 || i >= vs.len() {
        Seq::empty()
    } else {
        enc_vcr(vs[i]) + enc_vcr_list(vs, i + 1)
    }
}

/// One length-prefixed target.
pub open spec fn enc_target(t: Seq<u8>) -> Seq<u8> {
    enc_hex(t.len() as int, 16) + t
}

/// The targets of `ts` from index `i` on, each length-prefixed.
pub open spec fn enc_targets(ts: Seq<Seq<u8>>, i: int) -> Seq<u8>
    decreases ts.len() - i,
{
    if i < 0 || i >= ts.len() {
        Seq::empty()
    } else {
        enc_target(ts[i]) + enc_targets(ts, i + 1)
    }
}

/// Copies `bytes[start..end]`.
pub fn copy_range(bytes: &Vec<u8>, start: usize, end: usize) -> (r: Vec<u8>)
    requires
        start <= end <= bytes@.len(),
    ensures
        r@ == bytes@.subrange(start as int, end as int),
{
    let mut r: Vec<u8> = Vec::new();
    let mut i: usize = start;
    while i < end
        invariant
            start <= i <= end <= bytes@.len(),
            r@ == bytes@.subrange(start as int, i as int),
        decreases end - i,
    {
        r.push(bytes[i]);
        proof {
            assert(r@ =~= bytes@.subrange(start as int, i + 1));
        }
        i += 1;
    }
    r
}

/// Reads one construction request at `pos`, as the stored form defines it.
pub fn parse_vcr_at(bytes: &Vec<u8>, pos: usize) -> (r: Option<(VolumeConstructionRequest, usize)>)
    ensures
        ({
            let sd = dec_vcr(bytes@, pos as int);
            match r {
                Some(vp) => sd == Some((vp.0@, vp.1 as int)) && pos < vp.1 <= bytes@.len(),
                None => sd is None,
            }
        }),
    decreases bytes@.len() - pos, 0int,
{
    let len: usize = bytes.len();
    if pos >= len {
        return None;
    }
    let tag = bytes[pos];
    if tag == TAG_URL {
        Some((VolumeConstructionRequest::Url, pos + 1))
    } else if tag == TAG_FILE {
        Some((VolumeConstructionRequest::File, pos + 1))
    } else if tag == TAG_REGION {
        if len - pos < 18 {
            return None;
        }
        let ro = bytes[pos + 1];
        if ro != TAG_RO && ro != TAG_RW {
            return None;
        }
        match read_hex(bytes, pos + 2, 16) {
            Some(cnt) => {
                match parse_targets(bytes, pos + 18, cnt) {
                    Some((ts, p2)) => {
                        let built = VolumeConstructionRequest::Region {
                            target: ts,
                            read_only: ro == TAG_RO,
                        };
                        proof {
                            let bv = match built@ {
                                VcrView::Region { target: t, .. } => t,
                                _ => Seq::empty(),
                            };
                            let ghost tsv = match built {
                                VolumeConstructionRequest::Region { target: ref t, .. } => t@,
                                _ => Seq::empty(),
                            };
                            assert(bv =~= bytes_views(tsv));
                        }
                        Some((built, p2))
                    },
                    None => None,
                }
            },
            None => None,
        }
    } else if tag == TAG_VOLUME {
        if len - pos < 17 {
            return None;
        }
        match read_hex(bytes, pos + 1, 16) {
            Some(cnt) => {
                match parse_vcr_list(bytes, pos + 17, cnt) {
                    Some((subs, p2)) => {
                        if p2 <= pos || p2 >= len {
                            return None;
                        }
                        let t2 = bytes[p2];
                        if t2 == TAG_NO_PARENT {
                            Some(
                                (
                                    VolumeConstructionRequest::Volume {
                                        sub_volumes: subs,
                                        read_only_parent: None,
                                    },
                                    p2 + 1,
                                ),
                            )
                        } else if t2 == TAG_PARENT {
                            match parse_vcr_at(bytes, p2 + 1) {
                                Some((pv, p3)) => Some(
                                    (
                                        VolumeConstructionRequest::Volume {
                                            sub_volumes: subs,
                                            read_only_parent: Some(Box::new(pv)),
                                        },
                                        p3,
                                    ),
                                ),
                                None => None,
                            }
                        } else {
                            None
                        }
                    },
                    None => None,
                }
            },
            None => None,
        }
    } else {
        None
    }
}

/// Reads `count` construction requests in a row at `pos`.
fn parse_vcr_list(bytes: &Vec<u8>, pos: usize, count: u128) -> (r: Option<
    (Vec<VolumeConstructionRequest>, usize),
>)
    ensures
        ({
            let sd = dec_vcr_list(bytes@, pos as int, count as int);
            match r {
                Some(vp) => sd == Some((vcr_views(vp.0@, 0), vp.1 as int)) && pos <= vp.1
                    <= bytes@.len(),
                None => sd is None,
            }
        }),
    decreases bytes@.len() - pos, 1int,
{
    let len: usize = bytes.len();
    if pos > len {
        return None;
    }
    if count == 0 {
        proof {
            lemma_vcr_views(Seq::<VolumeConstructionRequest>::empty(), 0);
            assert(vcr_views(Seq::<VolumeConstructionRequest>::empty(), 0) =~= Seq::<
                VcrView,
            >::empty());
        }
        let empty: Vec<VolumeConstructionRequest> = Vec::new();
        return Some((empty, pos));
    }
    match parse_vcr_at(bytes, pos) {
        Some((v, p2)) => {
            if p2 <= pos || p2 > len {
                return None;
            }
            match parse_vcr_list(bytes, p2, count - 1) {
                Some((mut rest, p3)) => {
                    let ghost restseq = rest@;
                    rest.insert(0, v);
                    proof {
                        lemma_vcr_views(rest@, 0);
                        lemma_vcr_views(restseq, 0);
                        assert(rest@ == restseq.insert(0, v));
                        assert forall|k: int| 0 <= k < rest@.len() implies #[trigger] vcr_views(
                            rest@,
                            0,
                        )[k] == (seq![vcr_view(v)] + vcr_views(restseq, 0))[k] by {
                            assert(vcr_views(rest@, 0)[k] == vcr_view(rest@[k]));
                            if k > 0 {
                                assert(rest@[k] == restseq[k - 1]);
                            }
                        }
                        assert(vcr_views(rest@, 0) =~= seq![vcr_view(v)] + vcr_views(restseq, 0));
                    }
                    Some((rest, p3))
                },
                None => None,
            }
        },
        None => None,
    }
}

/// Reads `count` length-prefixed targets in a row at `pos`.
fn parse_targets(bytes: &Vec<u8>, pos: usize, count: u128) -> (r: Option<(Vec<Vec<u8>>, usize)>)
    ensures
        ({
            let sd = dec_targets(bytes@, pos as int, count as int);
            match r {
                Some(vp) => sd == Some((bytes_views(vp.0@), vp.1 as int)) && pos <= vp.1
                    <= bytes@.len(),
                None => sd is None,
            }
        }),
    decreases bytes@.len() - pos,
{
    let len: usize = bytes.len();
    if pos > len {
        return None;
    }
    if count == 0 {
        proof {
            assert(bytes_views(Seq::<Vec<u8>>::empty()) =~= Seq::<Seq<u8>>::empty());
        }
        let empty: Vec<Vec<u8>> = Vec::new();
        return Some((empty, pos));
    }
    if len - pos < 16 {
        return None;
    }
    match read_hex(bytes, pos, 16) {
        Some(l128) => {
            if l128 > (len - pos - 16) as u128 {
                return None;
            }
            let l = l128 as usize;
            let t = copy_range(bytes, pos + 16, pos + 16 + l);
            match parse_targets(bytes, pos + 16 + l, count - 1) {
                Some((mut rest, p2)) => {
                    let ghost restseq = rest@;
                    rest.insert(0, t);
                    proof {
                        assert(rest@ == restseq.insert(0, t));
                        assert forall|k: int| 0 <= k < rest@.len() implies #[trigger] bytes_views(
                            rest@,
                        )[k] == (seq![t@] + bytes_views(restseq))[k] by {
                            if k > 0 {
                                assert(rest@[k] == restseq[k - 1]);
                            }
                        }
                        assert(bytes_views(rest@) =~= seq![t@] + bytes_views(restseq));
                    }
                    Some((rest, p2))
                },
                None => None,
            }
        },
        None => None,
    }
}

/// Reads a whole byte string as one construction request, refusing
/// trailing bytes.
pub fn parse_volume_construction_request(data: &Vec<u8>) -> (r: Option<VolumeConstructionRequest>)
    ensures
        match r {
            Some(v) => dec_vcr_full(data@) == Some(v@),
            None => dec_vcr_full(data@) is None,
        },
{
    match parse_vcr_at(data, 0) {
        Some((v, p)) => {
            if p == data.len() {
                Some(v)
            } else {
                None
            }
        },
        None => None,
    }
}

/// Appends the encoding of `v`.
pub fn push_vcr(out: &mut Vec<u8>, v: &VolumeConstructionRequest)
    ensures
        final(out)@ == old(out)@ + enc_vcr(v@),
    decreases *v, 0int, 0int,
{
    proof {
        lemma_pow16_16();
    }
    match v {
        VolumeConstructionRequest::Volume { sub_volumes, read_only_parent } => {
            proof {
                lemma_vcr_views(sub_volumes@, 0);
            }
            out.push(TAG_VOLUME);
            push_hex(out, sub_volumes.len() as u128, 16);
            push_vcr_slice(out, sub_volumes, 0);
            match read_only_parent {
                Some(p) => {
                    out.push(TAG_PARENT);
                    push_vcr(out, &**p);
                },
                None => {
                    out.push(TAG_NO_PARENT);
                },
            }
            proof {
                assert(vcr_views(sub_volumes@, 0).len() == sub_volumes@.len());
                assert(out@ =~= old(out)@ + enc_vcr(v@));
            }
        },
        VolumeConstructionRequest::Url => {
            out.push(TAG_URL);
            proof {
                assert(out@ =~= old(out)@ + enc_vcr(v@));
            }
        },
        VolumeConstructionRequest::Region { target, read_only } => {
            let flag: u8 = if *read_only {
                TAG_RO
            } else {
                TAG_RW
            };
            out.push(TAG_REGION);
            let ghost o1 = out@;
            out.push(flag);
            let ghost o2 = out@;
            push_hex(out, target.len() as u128, 16);
            let ghost o3 = out@;
            push_targets(out, target, 0);
            proof {
                let tv = match v@ {
                    VcrView::Region { target: t, .. } => t,
                    _ => Seq::empty(),
                };
                assert(tv =~= bytes_views(target@));
                assert(o1 == old(out)@.push(TAG_REGION));
                assert(o2 == o1.push(flag));
                assert(o3 == o2 + enc_hex(target@.len() as int, 16));
                assert(out@ == o3 + enc_targets(tv, 0));
                assert(enc_vcr(v@) == seq![TAG_REGION] + seq![flag] + enc_hex(
                    tv.len() as int,
                    16,
                ) + enc_targets(tv, 0));
                assert(out@ =~= old(out)@ + enc_vcr(v@));
            }
        },
        VolumeConstructionRequest::File => {
            out.push(TAG_FILE);
            proof {
                assert(out@ =~= old(out)@ + enc_vcr(v@));
            }
        },
    }
}

/// Appends the encodings of the nodes of `vs` from index `i` on.
fn push_vcr_slice(out: &mut Vec<u8>, vs: &Vec<VolumeConstructionRequest>, i: usize)
    requires
        i <= vs@.len(),
    ensures
        final(out)@ == old(out)@ + enc_vcr_list(vcr_views(vs@, 0), i as int),
    decreases vs@, vs@.len() - i, 1int,
{
    proof {
        lemma_vcr_views(vs@, 0);
    }
    if i < vs.len() {
        push_vcr(out, &vs[i]);
        push_vcr_slice(out, vs, i + 1);
        proof {
            assert(vcr_views(vs@, 0)[i as int] == vcr_view(vs@[i as int]));
            assert(out@ =~= old(out)@ + enc_vcr_list(vcr_views(vs@, 0), i as int));
        }
    } else {
        proof {
            assert(out@ =~= old(out)@ + enc_vcr_list(vcr_views(vs@, 0), i as int));
        }
    }
}

/// Appends the length-prefixed targets of `ts` from index `i` on.
fn push_targets(out: &mut Vec<u8>, ts: &Vec<Vec<u8>>, i: usize)
    requires
        i <= ts@.len(),
    ensures
        final(out)@ == old(out)@ + enc_targets(bytes_views(ts@), i as int),
    decreases ts@.len() - i,
{
    proof {
        lemma_pow16_16();
    }
    if i < ts.len() {
        let t = &ts[i];
        push_hex(out, t.len() as u128, 16);
        let mut k: usize = 0;
        let ghost mid = out@;
        while k < t.len()
            invariant
                0 <= k <= t@.len(),
                out@ == mid + t@.subrange(0, k as int),
            decreases t@.len() - k,
        {
            out.push(t[k]);
            proof {
                assert(out@ =~= mid + t@.subrange(0, k + 1));
            }
            k += 1;
        }
        push_targets(out, ts, i + 1);
        proof {
            assert(bytes_views(ts@)[i as int] == ts@[i as int]@);
            assert(t@.subrange(0, t@.len() as int) =~= t@);
            assert(out@ =~= old(out)@ + enc_targets(bytes_views(ts@), i as int));
        }
    } else {
        proof {
            assert(out@ =~= old(out)@ + enc_targets(bytes_views(ts@), i as int));
        }
    }
}

/// A tree whose list lengths and target lengths fit their hex fields.
pub open spec fn vcr_bounded(v: VcrView) -> bool
    decreases v, 0int,
{
    match v {
        VcrView::Volume { sub_volumes, read_only_parent } => (sub_volumes.len() as int) < pow16(16)
            && vcr_list_bounded(sub_volumes, 0) && match read_only_parent {
            Some(p) => vcr_bounded(*p),
            None => true,
        },
        VcrView::Url => true,
        VcrView::Region { target, read_only } => (target.len() as int) < pow16(16) && forall|j: int|
            0 <= j < target.len() ==> ((#[trigger] target[j]).len() as int) < pow16(16),
        VcrView::File => true,
    }
}

/// Whether the nodes of `vs` from index `i` on are all bounded.
pub open spec fn vcr_list_bounded(vs: Seq<VcrView>, i: int) -> bool
    decreases vs, vs.len() - i,
{
    if i < 0 || i >= vs.len() {
        true
    } else {
        vcr_bounded(vs[i]) && vcr_list_bounded(vs, i + 1)
    }
}

/// Every encoding starts with its tag byte.
proof fn lemma_enc_vcr_len(v: VcrView)
    ensures
        enc_vcr(v).len() >= 1,
{
    match v {
        VcrView::Volume { sub_volumes, read_only_parent } => {},
        VcrView::Url => {},
        VcrView::Region { target, read_only } => {},
        VcrView::File => {},
    }
}

/// A slice of an embedded byte string is the matching slice of `s`.
proof fn lemma_slice_of(s: Seq<u8>, pos: int, e: Seq<u8>, a: int, b: int)
    requires
        0 <= pos,
        pos + e.len() <= s.len(),
        s.subrange(pos, pos + e.len() as int) == e,
        0 <= a <= b <= e.len(),
    ensures
        s.subrange(pos + a, pos + b) == e.subrange(a, b),
{
    assert forall|j: int| 0 <= j < b - a implies s.subrange(pos + a, pos + b)[j] == e.subrange(
        a,
        b,
    )[j] by {
        assert(s.subrange(pos, pos + e.len() as int)[a + j] == e[a + j]);
    }
    assert(s.subrange(pos + a, pos + b) =~= e.subrange(a, b));
}

/// An embedded encoding decodes to the tree that was written, and the
/// decoder stops exactly at its end.
pub proof fn lemma_vcr_round_trip(s: Seq<u8>, pos: int, v: VcrView)
    requires
        vcr_bounded(v),
        0 <= pos,
        pos + enc_vcr(v).len() <= s.len(),
        s.subrange(pos, pos + enc_vcr(v).len() as int) == enc_vcr(v),
    ensures
        dec_vcr(s, pos) == Some((v, pos + enc_vcr(v).len() as int)),
    decreases v, 0int, 0int,
{
    let e = enc_vcr(v);
    lemma_enc_vcr_len(v);
    assert(s[pos] == e[0]) by {
        assert(s.subrange(pos, pos + e.len() as int)[0] == e[0]);
    }
    match v {
        VcrView::Volume { sub_volumes, read_only_parent } => {
            let n = sub_volumes.len() as int;
            let h = enc_hex(n, 16);
            let l = enc_vcr_list(sub_volumes, 0);
            let tail: Seq<u8> = match read_only_parent {
                Some(p) => seq![TAG_PARENT] + enc_vcr(*p),
                None => seq![TAG_NO_PARENT],
            };
            lemma_enc_hex(n, 16);
            assert(e == seq![TAG_VOLUME] + h + l + tail);
            assert(e.len() == 17 + l.len() + tail.len());
            lemma_slice_of(s, pos, e, 1, 17);
            assert(e.subrange(1, 17) =~= h);
            lemma_slice_of(s, pos, e, 17, 17 + l.len() as int);
            assert(e.subrange(17, 17 + l.len() as int) =~= l);
            lemma_vcr_list_round_trip(s, pos + 17, sub_volumes, 0);
            assert(sub_volumes.subrange(0, n) =~= sub_volumes);
            let p2 = pos + 17 + l.len() as int;
            assert(s[p2] == e[17 + l.len() as int]) by {
                assert(s.subrange(pos, pos + e.len() as int)[17 + l.len() as int] == e[17
                    + l.len() as int]);
            }
            match read_only_parent {
                Some(p) => {
                    assert(e[17 + l.len() as int] == TAG_PARENT) by {
                        assert(tail[0] == TAG_PARENT);
                    }
                    lemma_slice_of(s, pos, e, 17 + l.len() as int + 1, e.len() as int);
                    assert(e.subrange(17 + l.len() as int + 1, e.len() as int) =~= enc_vcr(*p));
                    lemma_vcr_round_trip(s, p2 + 1, *p);
                },
                None => {
                    assert(e[17 + l.len() as int] == TAG_NO_PARENT) by {
                        assert(tail[0] == TAG_NO_PARENT);
                    }
                },
            }
        },
        VcrView::Url => {
            assert(e == seq![TAG_URL]);
        },
        VcrView::Region { target, read_only } => {
            let n = target.len() as int;
            let flag: u8 = if read_only {
                TAG_RO
            } else {
                TAG_RW
            };
            let h = enc_hex(n, 16);
            let t = enc_targets(target, 0);
            lemma_enc_hex(n, 16);
            assert(e == seq![TAG_REGION] + seq![flag] + h + t);
            assert(s[pos + 1] == e[1]) by {
                assert(s.subrange(pos, pos + e.len() as int)[1] == e[1]);
            }
            assert(e[1] == flag);
            lemma_slice_of(s, pos, e, 2, 18);
            assert(e.subrange(2, 18) =~= h);
            lemma_slice_of(s, pos, e, 18, e.len() as int);
            assert(e.subrange(18, e.len() as int) =~= t);
            lemma_targets_round_trip(s, pos + 18, target, 0);
            assert(target.subrange(0, n) =~= target);
        },
        VcrView::File => {
            assert(e == seq![TAG_FILE]);
        },
    }
}

/// An embedded run of encoded trees decodes to the trees written.
proof fn lemma_vcr_list_round_trip(s: Seq<u8>, pos: int, vs: Seq<VcrView>, i: int)
    requires
        0 <= i <= vs.len(),
        vcr_list_bounded(vs, i),
        0 <= pos,
        pos + enc_vcr_list(vs, i).len() <= s.len(),
        s.subrange(pos, pos + enc_vcr_list(vs, i).len() as int) == enc_vcr_list(vs, i),
    ensures
        dec_vcr_list(s, pos, vs.len() - i) == Some(
            (vs.subrange(i, vs.len() as int), pos + enc_vcr_list(vs, i).len() as int),
        ),
    decreases vs, vs.len() - i, 1int,
{
    if i == vs.len() {
        assert(vs.subrange(i, vs.len() as int) =~= Seq::<VcrView>::empty());
    } else {
        let e = enc_vcr_list(vs, i);
        let e0 = enc_vcr(vs[i]);
        assert(e == e0 + enc_vcr_list(vs, i + 1));
        lemma_enc_vcr_len(vs[i]);
        lemma_slice_of(s, pos, e, 0, e0.len() as int);
        assert(e.subrange(0, e0.len() as int) =~= e0);
        lemma_vcr_round_trip(s, pos, vs[i]);
        let p2 = pos + e0.len() as int;
        lemma_slice_of(s, pos, e, e0.len() as int, e.len() as int);
        assert(e.subrange(e0.len() as int, e.len() as int) =~= enc_vcr_list(vs, i + 1));
        lemma_vcr_list_round_trip(s, p2, vs, i + 1);
        assert(seq![vs[i]] + vs.subrange(i + 1, vs.len() as int) =~= vs.subrange(
            i,
            vs.len() as int,
        ));
    }
}

/// An embedded run of length-prefixed targets decodes to the targets
/// written.
proof fn lemma_targets_round_trip(s: Seq<u8>, pos: int, ts: Seq<Seq<u8>>, i: int)
    requires
        0 <= i <= ts.len(),
        forall|j: int| 0 <= j < ts.len() ==> ((#[trigger] ts[j]).len() as int) < pow16(16),
        0 <= pos,
        pos + enc_targets(ts, i).len() <= s.len(),
        s.subrange(pos, pos + enc_targets(ts, i).len() as int) == enc_targets(ts, i),
    ensures
        dec_targets(s, pos, ts.len() - i) == Some(
            (ts.subrange(i, ts.len() as int), pos + enc_targets(ts, i).len() as int),
        ),
    decreases ts.len() - i,
{
    if i == ts.len() {
        assert(ts.subrange(i, ts.len() as int) =~= Seq::<Seq<u8>>::empty());
    } else {
        let e = enc_targets(ts, i);
        let l = ts[i].len() as int;
        let h = enc_hex(l, 16);
        lemma_enc_hex(l, 16);
        assert(e == (h + ts[i]) + enc_targets(ts, i + 1));
        lemma_slice_of(s, pos, e, 0, 16);
        assert(e.subrange(0, 16) =~= h);
        lemma_slice_of(s, pos, e, 16, 16 + l);
        assert(e.subrange(16, 16 + l) =~= ts[i]);
        lemma_slice_of(s, pos, e, 16 + l, e.len() as int);
        assert(e.subrange(16 + l, e.len() as int) =~= enc_targets(ts, i + 1));
        lemma_targets_round_trip(s, pos + 16 + l, ts, i + 1);
        assert(seq![ts[i]] + ts.subrange(i + 1, ts.len() as int) =~= ts.subrange(
            i,
            ts.len() as int,
        ));
    }
}

/// Decoding what was encoded yields back exactly the tree written.
pub proof fn lemma_vcr_full_round_trip(v: VcrView)
    requires
        vcr_bounded(v),
    ensures
        dec_vcr_full(enc_vcr(v)) == Some(v),
{
    let s = enc_vcr(v);
    assert(s.subrange(0, s.len() as int) =~= s);
    lemma_vcr_round_trip(s, 0, v);
}

/// Writes a construction request in its stored textual form.
pub fn encode_volume_construction_request(v: &VolumeConstructionRequest) -> (r: Vec<u8>)
    ensures
        r@ == enc_vcr(v@),
{
    let mut out: Vec<u8> = Vec::new();
    push_vcr(&mut out, v);
    proof {
        assert(out@ =~= enc_vcr(v@));
    }
    out
}

} // verus!
