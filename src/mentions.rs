//! Per-interval mention lists, kept in a small inline vector, and the queries
//! that find the next and the last mention around a program point.

use vstd::prelude::*;
use smallvec::SmallVec;
use crate::data::{pos_of, InstPoint, Mention, Point};

verus! {

/// The mentions of one register, as (instruction index, mention flags),
/// sorted by instruction index, held in a small inline vector.
#[verifier::external_body]
pub struct MentionMap {
    inner: SmallVec<[(u32, u8); 2]>,
}

/// The items that a mention list holds, in order.
pub uninterp spec fn mention_entries(m: MentionMap) -> Seq<(u32, u8)>;

/// Relies on `SmallVec::new`: the new vector holds nothing.
#[verifier::external_body]
pub(crate) fn mentions_new() -> (r: MentionMap)
    ensures
        mention_entries(r) == Seq::<(u32, u8)>::empty(),
{
    MentionMap { inner: SmallVec::new() }
}

/// Relies on `SmallVec::push`: the item is appended after the others.
#[verifier::external_body]
pub(crate) fn mentions_push(m: &mut MentionMap, x: (u32, u8))
    requires
        mention_entries(*old(m)).len() < usize::MAX,
    ensures
        mention_entries(*final(m)) == mention_entries(*old(m)).push(x),
{
    m.inner.push(x)
}

/// Relies on `SmallVec::len`: the number of items held.
#[verifier::external_body]
pub(crate) fn mentions_len(m: &MentionMap) -> (r: usize)
    ensures
        r == mention_entries(*m).len(),
{
    m.inner.len()
}

/// Relies on indexing a `SmallVec` through its slice: the item at `i`.
#[verifier::external_body]
pub(crate) fn mentions_get(m: &MentionMap, i: usize) -> (r: (u32, u8))
    requires
        i < mention_entries(*m).len(),
    ensures
        r == mention_entries(*m)[i as int],
{
    m.inner[i]
}

/// A mention list holding the given items, in order.
pub fn mentions_from(items: &Vec<(u32, u8)>) -> (r: MentionMap)
    ensures
        mention_entries(r) == items@,
{
    let mut m = mentions_new();
    let mut i: usize = 0;
    while i < items.len()
        invariant
            i <= items@.len(),
            mention_entries(m) == items@.subrange(0, i as int),
        decreases items@.len() - i,
    {
        mentions_push(&mut m, items[i]);
        assert(items@.subrange(0, i + 1) == items@.subrange(0, i as int).push(items@[i as int]));
        i += 1;
    }
    assert(items@.subrange(0, items@.len() as int) == items@);
    m
}

/// The items of a mention list, in order.
pub fn mentions_to_vec(m: &MentionMap) -> (r: Vec<(u32, u8)>)
    ensures
        r@ == mention_entries(*m),
{
    let n = mentions_len(m);
    let mut out: Vec<(u32, u8)> = Vec::new();
    let mut i: usize = 0;
    while i < n
        invariant
            n == mention_entries(*m).len(),
            i <= n,
            out@ == mention_entries(*m).subrange(0, i as int),
        decreases n - i,
    {
        out.push(mentions_get(m, i));
        assert(mention_entries(*m).subrange(0, i + 1) == mention_entries(*m).subrange(0, i as int).push(
            mention_entries(*m)[i as int],
        ));
        i += 1;
    }
    assert(mention_entries(*m).subrange(0, n as int) == mention_entries(*m));
    out
}

/// Strictly increasing instruction indices, and each entry mentions something.
pub open spec fn mentions_wf(ms: Seq<(u32, u8)>) -> bool {
    &&& forall|i: int, j: int| 0 <= i < j < ms.len() ==> ms[i].0 < ms[j].0
    &&& forall|i: int| 0 <= i < ms.len() ==> #[trigger] Mention(ms[i].1).wf()
}

/// Mention `k` makes position `p` a point where the register is read or
/// written, looking forward: a use or a modification counts at the `Use`
/// point, a modification or a definition at the `Def` point.
pub open spec fn fwd_at(ms: Seq<(u32, u8)>, k: int, p: int) -> bool {
    let m = Mention(ms[k].1);
    &&& 0 <= k < ms.len()
    &&& ((p == pos_of(ms[k].0 as int, Point::Use) && (m.has_use() || m.has_mod())) || (p
        == pos_of(ms[k].0 as int, Point::Def) && (m.has_mod() || m.has_def())))
}

/// Looking backward a modification counts as a definition only: a use counts
/// at the `Use` point, a modification or a definition at the `Def` point.
pub open spec fn bwd_at(ms: Seq<(u32, u8)>, k: int, p: int) -> bool {
    let m = Mention(ms[k].1);
    &&& 0 <= k < ms.len()
    &&& ((p == pos_of(ms[k].0 as int, Point::Use) && m.has_use()) || (p == pos_of(
        ms[k].0 as int,
        Point::Def,
    ) && (m.has_mod() || m.has_def())))
}

pub open spec fn is_fwd(ms: Seq<(u32, u8)>, p: int) -> bool {
    exists|k: int| fwd_at(ms, k, p)
}

pub open spec fn is_bwd(ms: Seq<(u32, u8)>, p: int) -> bool {
    exists|k: int| bwd_at(ms, k, p)
}

/// The first entry whose instruction index is at least `iix`.
fn lower_bound(m: &MentionMap, iix: u32) -> (r: usize)
    requires
        mentions_wf(mention_entries(*m)),
    ensures
        r <= mention_entries(*m).len(),
        forall|k: int| 0 <= k < r ==> mention_entries(*m)[k].0 < iix,
        forall|k: int| r <= k < mention_entries(*m).len() ==> mention_entries(*m)[k].0 >= iix,
{
    let ghost ms = mention_entries(*m);
    let mut lo: usize = 0;
    let mut hi: usize = mentions_len(m);
    while lo < hi
        invariant
            lo <= hi <= ms.len(),
            mentions_wf(ms),
            ms == mention_entries(*m),
            forall|k: int| 0 <= k < lo ==> ms[k].0 < iix,
            forall|k: int| hi <= k < ms.len() ==> ms[k].0 >= iix,
        decreases hi - lo,
    {
        let mid = lo + (hi - lo) / 2;
        let e = mentions_get(m, mid);
        if e.0 < iix {
            lo = mid + 1;
        } else {
            hi = mid;
        }
    }
    lo
}

/// The mention flags that the list holds for instruction `iix`, if any.
pub fn mention_at(m: &MentionMap, iix: u32) -> (r: Option<u8>)
    requires
        mentions_wf(mention_entries(*m)),
    ensures
        r matches Some(x) ==> exists|k: int|
            0 <= k < mention_entries(*m).len() && mention_entries(*m)[k] == (iix, x),
        r is None ==> forall|k: int|
            0 <= k < mention_entries(*m).len() ==> mention_entries(*m)[k].0 != iix,
{
    let n = mentions_len(m);
    let idx = lower_bound(m, iix);
    if idx < n {
        let e = mentions_get(m, idx);
        if e.0 == iix {
            return Some(e.1);
        }
        assert forall|k: int| 0 <= k < mention_entries(*m).len() implies mention_entries(*m)[k].0
            != iix by {
            if k > idx {
                assert(mention_entries(*m)[idx as int].0 < mention_entries(*m)[k].0);
            }
        }
    }
    None
}

/// The first point of a mention, looking forward.
fn first_point(e: (u32, u8)) -> (r: InstPoint)
    requires
        Mention(e.1).wf(),
    ensures
        r.iix == e.0,
        fwd_at(seq![e], 0, r.pos()),
        forall|p: int| #[trigger] fwd_at(seq![e], 0, p) ==> r.pos() <= p,
{
    let m = Mention(e.1);
    let x = e.1;
    assert(x != 0 && x < 8 ==> (x & 1 != 0 || x & 2 != 0 || x & 4 != 0)) by (bit_vector);
    if m.is_use_or_mod() {
        InstPoint::new_use(e.0)
    } else {
        InstPoint::new_def(e.0)
    }
}

/// The last point of a mention, looking backward.
fn last_point(e: (u32, u8)) -> (r: InstPoint)
    requires
        Mention(e.1).wf(),
    ensures
        r.iix == e.0,
        bwd_at(seq![e], 0, r.pos()),
        forall|p: int| #[trigger] bwd_at(seq![e], 0, p) ==> p <= r.pos(),
{
    let m = Mention(e.1);
    let x = e.1;
    assert(x != 0 && x < 8 ==> (x & 1 != 0 || x & 2 != 0 || x & 4 != 0)) by (bit_vector);
    if m.is_mod_or_def() {
        InstPoint::new_def(e.0)
    } else {
        InstPoint::new_use(e.0)
    }
}

/// Finds the first point at or after `pos`, and inside `[start, end]`, where
/// the mentions read or write the register (a modification counts as a read).
pub fn next_use(m: &MentionMap, start: InstPoint, end: InstPoint, pos: InstPoint) -> (r: Option<
    InstPoint,
>)
    requires
        mentions_wf(mention_entries(*m)),
    ensures
        ({
            let ms = mention_entries(*m);
            let lo = if pos.pos() < start.pos() {
                start.pos()
            } else {
                pos.pos()
            };
            match r {
                Some(q) => is_fwd(ms, q.pos()) && lo <= q.pos() <= end.pos() && forall|p: int|
                    lo <= p < q.pos() ==> !is_fwd(ms, p),
                None => forall|p: int| lo <= p <= end.pos() ==> !is_fwd(ms, p),
            }
        }),
{
    let ghost ms = mention_entries(*m);
    let target = if pos.lt(&start) {
        start
    } else {
        pos
    };
    let n = mentions_len(m);
    let idx = lower_bound(m, target.iix);
    let cand: Option<InstPoint> = if idx == n {
        None
    } else {
        let e = mentions_get(m, idx);
        let ment = Mention(e.1);
        assert(ment.wf());
        if e.0 == target.iix {
            if target.pt == Point::Use {
                let q = first_point(e);
                assert(fwd_at(ms, idx as int, q.pos()));
                Some(q)
            } else if ment.is_mod_or_def() {
                assert(fwd_at(ms, idx as int, target.pos()));
                Some(target)
            } else if idx + 1 == n {
                None
            } else {
                let e2 = mentions_get(m, idx + 1);
                assert(Mention(ms[idx + 1].1).wf());
                let q = first_point(e2);
                assert(fwd_at(ms, idx + 1, q.pos()));
                Some(q)
            }
        } else {
            let q = first_point(e);
            assert(fwd_at(ms, idx as int, q.pos()));
            Some(q)
        }
    };
    assert(forall|k: int, p: int|
        fwd_at(ms, k, p) && target.pos() <= p && (cand is None || p < cand->Some_0.pos())
            ==> false) by {
        assert forall|k: int, p: int|
            fwd_at(ms, k, p) && target.pos() <= p && (cand is None || p
                < cand->Some_0.pos()) implies false by {
            if k < idx {
            } else if k == idx {
                assert(fwd_at(seq![ms[k]], 0, p));
            } else {
                assert(ms[idx as int].0 < ms[k].0);
                if k == idx + 1 {
                    assert(fwd_at(seq![ms[k]], 0, p));
                }
            }
        }
    }
    match cand {
        Some(q) => {
            if q.le(&end) {
                Some(q)
            } else {
                None
            }
        },
        None => None,
    }
}

/// Finds the last point at or before `pos`, and inside `[start, end]`, where
/// the mentions read or write the register (a modification counts as a write).
pub fn last_use(m: &MentionMap, start: InstPoint, end: InstPoint, pos: InstPoint) -> (r: Option<
    InstPoint,
>)
    requires
        mentions_wf(mention_entries(*m)),
    ensures
        ({
            let ms = mention_entries(*m);
            let hi = if end.pos() < pos.pos() {
                end.pos()
            } else {
                pos.pos()
            };
            match r {
                Some(q) => is_bwd(ms, q.pos()) && start.pos() <= q.pos() <= hi && forall|p: int|
                    q.pos() < p <= hi ==> !is_bwd(ms, p),
                None => forall|p: int| start.pos() <= p <= hi ==> !is_bwd(ms, p),
            }
        }),
{
    let ghost ms = mention_entries(*m);
    let target = if end.lt(&pos) {
        end
    } else {
        pos
    };
    let n = mentions_len(m);
    let idx = lower_bound(m, target.iix);
    let exact = idx < n && mentions_get(m, idx).0 == target.iix;
    let cand: Option<InstPoint> = if exact {
        let e = mentions_get(m, idx);
        let ment = Mention(e.1);
        assert(ment.wf());
        if target.pt == Point::Def {
            let q = last_point(e);
            assert(bwd_at(ms, idx as int, q.pos()));
            Some(q)
        } else if ment.is_use() {
            assert(bwd_at(ms, idx as int, target.pos()));
            Some(target)
        } else if idx == 0 {
            None
        } else {
            let e2 = mentions_get(m, idx - 1);
            assert(Mention(ms[idx - 1].1).wf());
            let q = last_point(e2);
            assert(bwd_at(ms, idx - 1, q.pos()));
            Some(q)
        }
    } else if idx == 0 {
        None
    } else {
        let e = mentions_get(m, idx - 1);
        assert(Mention(ms[idx - 1].1).wf());
        let q = last_point(e);
        assert(bwd_at(ms, idx - 1, q.pos()));
        Some(q)
    };
    assert(forall|k: int, p: int|
        bwd_at(ms, k, p) && p <= target.pos() && (cand is None || cand->Some_0.pos() < p)
            ==> false) by {
        assert forall|k: int, p: int|
            bwd_at(ms, k, p) && p <= target.pos() && (cand is None || cand->Some_0.pos()
                < p) implies false by {
            if k >= idx {
                if k > idx {
                    assert(ms[idx as int].0 < ms[k].0);
                } else {
                    assert(bwd_at(seq![ms[k]], 0, p));
                }
            } else if k == idx - 1 {
                assert(bwd_at(seq![ms[k]], 0, p));
            } else {
                assert(ms[k].0 < ms[idx - 1].0);
            }
        }
    }
    match cand {
        Some(q) => {
            if start.le(&q) {
                Some(q)
            } else {
                None
            }
        },
        None => None,
    }
}

} // verus!
