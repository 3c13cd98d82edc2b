//! Building the live intervals of virtual registers from the function and
//! its liveness: one interval per mentioned virtual register, spanning every
//! point at which it is mentioned or live across a block boundary.

use vstd::prelude::*;
use crate::analysis::{AnalysisInfo, info_exact};
use crate::data::{pos_of, InstPoint, Mention, Point, Reg, VirtualReg};
use crate::func::{Function, RealRegUniverse};
use crate::intervals::{
    frag_holds, frag_kind, frags_wf, kind_of, safepoint_entries, RangeFragKind, safepoints_new, safepoints_push, FixedInterval,
    Intervals, RangeFrag, SafepointList, VirtualInterval,
};
use crate::func::inst_regs;
use crate::liveness::{keys_fit, lemma_block_in_range, live_in, live_out, nkeys};
use crate::mentions::{mention_entries, mentions_new, mentions_push, mentions_wf, MentionMap};

verus! {

/// The list names virtual register `v`.
pub open spec fn names_vreg(s: Seq<Reg>, v: int) -> bool {
    exists|j: int| 0 <= j < s.len() && (#[trigger] s[j]) is Virtual && s[j]->Virtual_0.index == v
}

/// The mention flags of instruction `i` for virtual register `v`.
pub open spec fn vreg_flags(f: Function, i: int, v: int) -> u8 {
    ((if names_vreg(f.insns@[i].uses@, v) {
        1int
    } else {
        0int
    }) + (if names_vreg(f.insns@[i].mods@, v) {
        2int
    } else {
        0int
    }) + (if names_vreg(f.insns@[i].defs@, v) {
        4int
    } else {
        0int
    })) as u8
}

/// The mentions of `v` in the first `n` instructions, in order.
pub open spec fn vreg_mentions(f: Function, v: int, n: int) -> Seq<(u32, u8)>
    decreases n,
{
    if n <= 0 {
        Seq::empty()
    } else {
        let rest = vreg_mentions(f, v, n - 1);
        if vreg_flags(f, n - 1, v) != 0 {
            rest.push(((n - 1) as u32, vreg_flags(f, n - 1, v)))
        } else {
            rest
        }
    }
}

/// Position `p` is the `Use` or `Def` point of an instruction below `n` that
/// mentions `v`.
pub open spec fn mention_point(f: Function, v: int, p: int, n: int) -> bool {
    exists|i: int|
        0 <= i < n && #[trigger] vreg_flags(f, i, v) != 0 && (p == pos_of(i, Point::Use) || p
            == pos_of(i, Point::Def))
}

/// Position `p` is the first point of a block below `n` on entry to which
/// `v` is live, or the last point of one on exit from which it is live.
pub open spec fn boundary_point(f: Function, u: RealRegUniverse, v: int, p: int, n: int) -> bool {
    let k = u.regs@.len() + v;
    exists|b: int|
        0 <= b < n && ((live_in(f, u, k, b) && p == pos_of(#[trigger] f.blocks@[b].first as int, Point::Use))
            || (live_out(f, u, k, b) && p == pos_of(f.blocks@[b].end() - 1, Point::Def)))
}

/// A span point among the mention points and the boundaries of the first
/// `b` blocks.
pub open spec fn span_upto(f: Function, u: RealRegUniverse, v: int, p: int, b: int) -> bool {
    mention_point(f, v, p, f.insns@.len() as int) || boundary_point(f, u, v, p, b)
}

pub open spec fn span_point(f: Function, u: RealRegUniverse, v: int, p: int) -> bool {
    span_upto(f, u, v, p, f.nb())
}

/// Virtual register `v` is mentioned somewhere in the function.
pub open spec fn vreg_mentioned(f: Function, v: int) -> bool {
    exists|i: int| 0 <= i < f.insns@.len() && #[trigger] vreg_flags(f, i, v) != 0
}

/// The interval of `v` starts at the earliest and ends at the latest point
/// at which `v` is mentioned or live across a block boundary.
pub open spec fn spans_exactly(f: Function, u: RealRegUniverse, v: int, it: VirtualInterval) -> bool {
    &&& span_point(f, u, v, it.start.pos())
    &&& span_point(f, u, v, it.end.pos())
    &&& forall|p: int| span_point(f, u, v, p) ==> it.start.pos() <= p <= it.end.pos()
}

/// The marks say that `v` holds references.
pub open spec fn marked_ref(refs: Seq<bool>, v: int) -> bool {
    0 <= v < refs.len() && refs[v]
}

/// The safepoints among the first `n` whose `Use` point lies in `[lo, hi]`,
/// with their numbers.
pub open spec fn covered_safepoints(sps: Seq<u32>, lo: int, hi: int, n: int) -> Seq<(u32, usize)>
    decreases n,
{
    if n <= 0 {
        Seq::empty()
    } else {
        let rest = covered_safepoints(sps, lo, hi, n - 1);
        if lo <= pos_of(sps[n - 1] as int, Point::Use) <= hi {
            rest.push((sps[n - 1], (n - 1) as usize))
        } else {
            rest
        }
    }
}

proof fn lemma_flags_bits(x: u8)
    requires
        x < 8,
    ensures
        (x & 1 != 0) == (x % 2 == 1),
        (x & 2 != 0) == ((x / 2) % 2 == 1),
        (x & 4 != 0) == (x / 4 == 1),
{
    assert((x & 1 != 0) == (x % 2 == 1)) by (bit_vector)
        requires
            x < 8,
    ;
    assert((x & 2 != 0) == ((x / 2) % 2 == 1)) by (bit_vector)
        requires
            x < 8,
    ;
    assert((x & 4 != 0) == (x / 4 == 1)) by (bit_vector)
        requires
            x < 8,
    ;
}

/// The flags that the mention of `v` by instruction `i` carries.
pub proof fn lemma_vreg_flags(f: Function, i: int, v: int)
    ensures
        vreg_flags(f, i, v) < 8,
        Mention(vreg_flags(f, i, v)).has_use() == names_vreg(f.insns@[i].uses@, v),
        Mention(vreg_flags(f, i, v)).has_mod() == names_vreg(f.insns@[i].mods@, v),
        Mention(vreg_flags(f, i, v)).has_def() == names_vreg(f.insns@[i].defs@, v),
        vreg_flags(f, i, v) != 0 <==> (names_vreg(f.insns@[i].uses@, v) || names_vreg(
            f.insns@[i].mods@,
            v,
        ) || names_vreg(f.insns@[i].defs@, v)),
{
    lemma_flags_bits(vreg_flags(f, i, v));
}

pub proof fn lemma_vreg_mentions(f: Function, v: int, n: int)
    requires
        0 <= n <= f.insns@.len(),
        f.insns@.len() <= u32::MAX,
    ensures
        mentions_wf(vreg_mentions(f, v, n)),
        vreg_mentions(f, v, n).len() <= n,
        forall|k: int|
            0 <= k < vreg_mentions(f, v, n).len() ==> (#[trigger] vreg_mentions(f, v, n)[k]).0 < n
                && vreg_flags(f, vreg_mentions(f, v, n)[k].0 as int, v) == vreg_mentions(f, v, n)[k].1,
        forall|i: int|
            0 <= i < n && #[trigger] vreg_flags(f, i, v) != 0 ==> exists|k: int|
                0 <= k < vreg_mentions(f, v, n).len() && vreg_mentions(f, v, n)[k].0 == i,
    decreases n,
{
    if n > 0 {
        lemma_vreg_mentions(f, v, n - 1);
        lemma_vreg_flags(f, n - 1, v);
        let rest = vreg_mentions(f, v, n - 1);
        if vreg_flags(f, n - 1, v) != 0 {
            let x = ((n - 1) as u32, vreg_flags(f, n - 1, v));
            let s = rest.push(x);
            assert(s == vreg_mentions(f, v, n));
            assert(s[rest.len() as int] == x);
            assert forall|k: int| 0 <= k < rest.len() implies s[k] == rest[k] by {}
            assert forall|i: int, j: int| 0 <= i < j < s.len() implies s[i].0 < s[j].0 by {
                if j < rest.len() {
                } else {
                    assert(rest[i].0 < n - 1);
                }
            }
            assert forall|i: int| 0 <= i < s.len() implies #[trigger] Mention(s[i].1).wf() by {
                if i < rest.len() {
                    assert(Mention(rest[i].1).wf());
                } else {
                    lemma_flags_bits(x.1);
                }
            }
            assert forall|k: int| 0 <= k < s.len() implies (#[trigger] s[k]).0 < n && vreg_flags(
                f,
                s[k].0 as int,
                v,
            ) == s[k].1 by {
                if k < rest.len() {
                    assert(rest[k].0 < n - 1);
                }
            }
            assert forall|i: int| 0 <= i < n && #[trigger] vreg_flags(f, i, v) != 0 implies exists|
                k: int,
            | 0 <= k < s.len() && s[k].0 == i by {
                if i < n - 1 {
                    let k = choose|k: int| 0 <= k < rest.len() && rest[k].0 == i;
                    assert(s[k].0 == i);
                } else {
                    assert(s[rest.len() as int].0 == i);
                }
            }
        } else {
            assert(rest == vreg_mentions(f, v, n));
            assert forall|k: int| 0 <= k < rest.len() implies (#[trigger] rest[k]).0 < n && vreg_flags(
                f,
                rest[k].0 as int,
                v,
            ) == rest[k].1 by {
                assert(rest[k].0 < n - 1);
            }
            assert forall|i: int| 0 <= i < n && #[trigger] vreg_flags(f, i, v) != 0 implies exists|
                k: int,
            | 0 <= k < rest.len() && rest[k].0 == i by {
                if i < n - 1 {
                } else {
                }
            }
        }
    }
}

fn names_vreg_exec(list: &Vec<Reg>, v: u32) -> (r: bool)
    ensures
        r == names_vreg(list@, v as int),
{
    let mut j: usize = 0;
    while j < list.len()
        invariant
            j <= list@.len(),
            forall|j2: int|
                0 <= j2 < j ==> !((#[trigger] list@[j2]) is Virtual && list@[j2]->Virtual_0.index
                    == v),
        decreases list@.len() - j,
    {
        if let Reg::Virtual(x) = list[j] {
            if x.index == v {
                return true;
            }
        }
        j += 1;
    }
    false
}

fn vreg_flags_exec(f: &Function, i: usize, v: u32) -> (r: u8)
    requires
        i < f.insns@.len(),
    ensures
        r == vreg_flags(*f, i as int, v as int),
{
    let inst = &f.insns[i];
    let a: u8 = if names_vreg_exec(&inst.uses, v) {
        1
    } else {
        0
    };
    let b: u8 = if names_vreg_exec(&inst.mods, v) {
        2
    } else {
        0
    };
    let c: u8 = if names_vreg_exec(&inst.defs, v) {
        4
    } else {
        0
    };
    a + b + c
}

/// The mentions of `v`, and the span of its mention points, if any.
fn scan_mentions(f: &Function, v: u32) -> (r: (MentionMap, Option<(InstPoint, InstPoint)>))
    requires
        f.wf(),
    ensures
        mention_entries(r.0) == vreg_mentions(*f, v as int, f.insns@.len() as int),
        r.1 is None <==> !vreg_mentioned(*f, v as int),
        r.1 matches Some(se) ==> mention_point(*f, v as int, se.0.pos(), f.insns@.len() as int)
            && mention_point(*f, v as int, se.1.pos(), f.insns@.len() as int) && forall|p: int|
            mention_point(*f, v as int, p, f.insns@.len() as int) ==> se.0.pos() <= p
                <= se.1.pos(),
{
    let n = f.insns.len();
    let mut ms = mentions_new();
    let mut span: Option<(InstPoint, InstPoint)> = None;
    let mut i: usize = 0;
    while i < n
        invariant
            f.wf(),
            n == f.insns@.len(),
            i <= n,
            mention_entries(ms) == vreg_mentions(*f, v as int, i as int),
            span is None <==> forall|i2: int| 0 <= i2 < i ==> #[trigger] vreg_flags(*f, i2, v as int) == 0,
            span matches Some(se) ==> mention_point(*f, v as int, se.0.pos(), i as int)
                && mention_point(*f, v as int, se.1.pos(), i as int) && forall|p: int|
                mention_point(*f, v as int, p, i as int) ==> se.0.pos() <= p <= se.1.pos(),
        decreases n - i,
    {
        let fl = vreg_flags_exec(f, i, v);
        if fl != 0 {
            proof {
                lemma_vreg_mentions(*f, v as int, i as int);
            }
            mentions_push(&mut ms, (i as u32, fl));
            let u = InstPoint::new_use(i as u32);
            let d = InstPoint::new_def(i as u32);
            let ghost old_span = span;
            span = match span {
                None => Some((u, d)),
                Some(se) => Some((se.0, d)),
            };
            proof {
                let se = span->Some_0;
                assert(mention_point(*f, v as int, d.pos(), i + 1));
                assert(mention_point(*f, v as int, se.0.pos(), i + 1)) by {
                    if old_span is None {
                        assert(mention_point(*f, v as int, u.pos(), i + 1));
                    } else {
                        let w = choose|i2: int|
                            0 <= i2 < i && #[trigger] vreg_flags(*f, i2, v as int) != 0 && (se.0.pos()
                                == pos_of(i2, Point::Use) || se.0.pos() == pos_of(i2, Point::Def));
                    }
                }
                assert forall|p: int| #[trigger] mention_point(*f, v as int, p, i + 1) implies se.0.pos() <= p
                    <= se.1.pos() by {
                    let w = choose|i2: int|
                        0 <= i2 < i + 1 && #[trigger] vreg_flags(*f, i2, v as int) != 0 && (p
                            == pos_of(i2, Point::Use) || p == pos_of(i2, Point::Def));
                    if w < i {
                        assert(mention_point(*f, v as int, p, i as int));
                        if old_span is None {
                            assert(vreg_flags(*f, w, v as int) == 0);
                        }
                    } else if old_span is None {
                    }
                }
            }
        } else {
            proof {
                assert forall|p: int| #[trigger] mention_point(*f, v as int, p, i + 1) implies mention_point(
                    *f,
                    v as int,
                    p,
                    i as int,
                ) by {
                    let w = choose|i2: int|
                        0 <= i2 < i + 1 && #[trigger] vreg_flags(*f, i2, v as int) != 0 && (p
                            == pos_of(i2, Point::Use) || p == pos_of(i2, Point::Def));
                }
                if let Some(se) = span {
                    assert(mention_point(*f, v as int, se.0.pos(), i as int));
                    assert(mention_point(*f, v as int, se.1.pos(), i as int));
                    let w0 = choose|i2: int|
                        0 <= i2 < i && #[trigger] vreg_flags(*f, i2, v as int) != 0 && (se.0.pos()
                            == pos_of(i2, Point::Use) || se.0.pos() == pos_of(i2, Point::Def));
                    assert(mention_point(*f, v as int, se.0.pos(), i + 1));
                    let w1 = choose|i2: int|
                        0 <= i2 < i && #[trigger] vreg_flags(*f, i2, v as int) != 0 && (se.1.pos()
                            == pos_of(i2, Point::Use) || se.1.pos() == pos_of(i2, Point::Def));
                    assert(mention_point(*f, v as int, se.1.pos(), i + 1));
                }
            }
        }
        i += 1;
    }
    (ms, span)
}

pub open spec fn live_at_boundary(f: Function, u: RealRegUniverse, v: int, b: int, p: int) -> bool {
    let k = u.regs@.len() + v;
    (live_in(f, u, k, b) && p == pos_of(f.blocks@[b].first as int, Point::Use)) || (live_out(
        f,
        u,
        k,
        b,
    ) && p == pos_of(f.blocks@[b].end() - 1, Point::Def))
}

proof fn lemma_boundary_step(f: Function, u: RealRegUniverse, v: int, p: int, b: int)
    requires
        0 <= b,
    ensures
        boundary_point(f, u, v, p, b + 1) <==> (boundary_point(f, u, v, p, b) || live_at_boundary(
            f,
            u,
            v,
            b,
            p,
        )),
{
    if boundary_point(f, u, v, p, b + 1) {
        let w = choose|w: int|
            0 <= w < b + 1 && ((live_in(f, u, u.regs@.len() + v, w) && p == pos_of(
                #[trigger] f.blocks@[w].first as int,
                Point::Use,
            )) || (live_out(f, u, u.regs@.len() + v, w) && p == pos_of(f.blocks@[w].end() - 1, Point::Def)));
        if w < b {
            assert(boundary_point(f, u, v, p, b));
        }
    }
    if boundary_point(f, u, v, p, b) {
        let w = choose|w: int|
            0 <= w < b && ((live_in(f, u, u.regs@.len() + v, w) && p == pos_of(
                #[trigger] f.blocks@[w].first as int,
                Point::Use,
            )) || (live_out(f, u, u.regs@.len() + v, w) && p == pos_of(f.blocks@[w].end() - 1, Point::Def)));
        assert(boundary_point(f, u, v, p, b + 1));
    }
    if live_at_boundary(f, u, v, b, p) {
        assert(0 <= b < b + 1 && ((live_in(f, u, u.regs@.len() + v, b) && p == pos_of(
            f.blocks@[b].first as int,
            Point::Use,
        )) || (live_out(f, u, u.regs@.len() + v, b) && p == pos_of(f.blocks@[b].end() - 1, Point::Def))));
        assert(boundary_point(f, u, v, p, b + 1));
    }
}

/// Widens the span of a mentioned register to the block boundaries across
/// which it is live.
fn widen_span(
    f: &Function,
    u: &RealRegUniverse,
    info: &AnalysisInfo,
    v: u32,
    start: InstPoint,
    end: InstPoint,
) -> (r: (InstPoint, InstPoint))
    requires
        f.wf(),
        keys_fit(*f, *u),
        info_exact(*f, *u, *info),
        u.regs@.len() + v < nkeys(*f, *u),
        mention_point(*f, v as int, start.pos(), f.insns@.len() as int),
        mention_point(*f, v as int, end.pos(), f.insns@.len() as int),
        forall|p: int|
            mention_point(*f, v as int, p, f.insns@.len() as int) ==> start.pos() <= p <= end.pos(),
    ensures
        span_point(*f, *u, v as int, r.0.pos()),
        span_point(*f, *u, v as int, r.1.pos()),
        forall|p: int| span_point(*f, *u, v as int, p) ==> r.0.pos() <= p <= r.1.pos(),
{
    let k = u.regs.len() + v as usize;
    let ghost n = f.insns@.len() as int;
    let mut s = start;
    let mut e = end;
    let mut b: usize = 0;
    while b < f.blocks.len()
        invariant
            f.wf(),
            info_exact(*f, *u, *info),
            k == u.regs@.len() + v,
            k < nkeys(*f, *u),
            n == f.insns@.len(),
            b <= f.nb(),
            span_upto(*f, *u, v as int, s.pos(), b as int),
            span_upto(*f, *u, v as int, e.pos(), b as int),
            forall|p: int| #[trigger] span_upto(*f, *u, v as int, p, b as int) ==> s.pos() <= p <= e.pos(),
        decreases f.nb() - b,
    {
        proof {
            lemma_block_in_range(*f, b as int);
        }
        assert(info.live_in@[k as int]@.len() == f.nb());
        assert(info.live_out@[k as int]@.len() == f.nb());
        let lin = info.live_in[k][b];
        let lout = info.live_out[k][b];
        let first = InstPoint::new_use(f.blocks[b].first);
        let last = InstPoint::new_def(f.blocks[b].first + f.blocks[b].len - 1);
        let ghost s0 = s;
        let ghost e0 = e;
        if lin {
            if first.lt(&s) {
                s = first;
            }
            if e.lt(&first) {
                e = first;
            }
        }
        if lout {
            if last.lt(&s) {
                s = last;
            }
            if e.lt(&last) {
                e = last;
            }
        }
        proof {
            lemma_boundary_step(*f, *u, v as int, s.pos(), b as int);
            lemma_boundary_step(*f, *u, v as int, e.pos(), b as int);
            lemma_boundary_step(*f, *u, v as int, s0.pos(), b as int);
            lemma_boundary_step(*f, *u, v as int, e0.pos(), b as int);
            assert forall|p: int| #[trigger] span_upto(*f, *u, v as int, p, b + 1) implies s.pos()
                <= p <= e.pos() by {
                lemma_boundary_step(*f, *u, v as int, p, b as int);
                if span_upto(*f, *u, v as int, p, b as int) {
                } else {
                    assert(live_at_boundary(*f, *u, v as int, b as int, p));
                }
            }
        }
        b += 1;
    }
    (s, e)
}

fn is_marked(refs: &Vec<bool>, v: usize) -> (r: bool)
    ensures
        r == marked_ref(refs@, v as int),
{
    v < refs.len() && refs[v]
}

/// The safepoints whose `Use` point lies in `[lo, hi]`.
fn safepoints_within(sps: &Vec<u32>, lo: InstPoint, hi: InstPoint) -> (r: SafepointList)
    ensures
        safepoint_entries(r) == covered_safepoints(sps@, lo.pos(), hi.pos(), sps@.len() as int),
{
    let mut out = safepoints_new();
    let mut n: usize = 0;
    while n < sps.len()
        invariant
            n <= sps@.len(),
            safepoint_entries(out) == covered_safepoints(sps@, lo.pos(), hi.pos(), n as int),
            safepoint_entries(out).len() <= n,
        decreases sps@.len() - n,
    {
        let p = InstPoint::new_use(sps[n]);
        if lo.le(&p) && p.le(&hi) {
            safepoints_push(&mut out, (sps[n], n));
        }
        n += 1;
    }
    out
}

/// The interval of virtual register `v`, as built from the function.
pub open spec fn interval_of(
    f: Function,
    u: RealRegUniverse,
    v: int,
    it: VirtualInterval,
    refs: Seq<bool>,
    sps: Seq<u32>,
) -> bool {
    &&& it.vreg.index == v
    &&& 0 <= v < f.vreg_classes@.len()
    &&& it.vreg.class == f.vreg_classes@[v]
    &&& vreg_mentioned(f, v)
    &&& spans_exactly(f, u, v, it)
    &&& mention_entries(it.mentions) == vreg_mentions(f, v, f.insns@.len() as int)
    &&& it.ref_typed == marked_ref(refs, v)
    &&& safepoint_entries(it.safepoints) == covered_safepoints(
        sps,
        it.start.pos(),
        it.end.pos(),
        sps.len() as int,
    )
    &&& it.location is Unassigned
    &&& it.parent is None && it.ancestor is None && it.child is None
}

/// Builds one interval for each virtual register that the function
/// mentions, in register order.
pub fn build_virtual_intervals(
    f: &Function,
    u: &RealRegUniverse,
    info: &AnalysisInfo,
    ref_marks: &Vec<bool>,
    safepoint_insns: &Vec<u32>,
) -> (r: Vec<VirtualInterval>)
    requires
        f.wf(),
        keys_fit(*f, *u),
        info_exact(*f, *u, *info),
    ensures
        forall|j: int| 0 <= j < r@.len() ==> (#[trigger] r@[j]).id == j,
        forall|j: int|
            0 <= j < r@.len() ==> interval_of(
                *f,
                *u,
                (#[trigger] r@[j]).vreg.index as int,
                r@[j],
                ref_marks@,
                safepoint_insns@,
            ),
        forall|j1: int, j2: int| 0 <= j1 < j2 < r@.len() ==> r@[j1].vreg.index < r@[j2].vreg.index,
        forall|v: int|
            0 <= v < f.vreg_classes@.len() && #[trigger] vreg_mentioned(*f, v) ==> exists|j: int|
                0 <= j < r@.len() && r@[j].vreg.index == v,
{
    let nv = f.vreg_classes.len();
    let mut out: Vec<VirtualInterval> = Vec::new();
    let mut v: usize = 0;
    while v < nv
        invariant
            f.wf(),
            keys_fit(*f, *u),
            info_exact(*f, *u, *info),
            nv == f.vreg_classes@.len(),
            v <= nv,
            out@.len() <= v,
            forall|j: int| 0 <= j < out@.len() ==> (#[trigger] out@[j]).id == j,
            forall|j: int|
                0 <= j < out@.len() ==> interval_of(
                    *f,
                    *u,
                    (#[trigger] out@[j]).vreg.index as int,
                    out@[j],
                    ref_marks@,
                    safepoint_insns@,
                ),
            forall|j: int| 0 <= j < out@.len() ==> (#[trigger] out@[j]).vreg.index < v,
            forall|j1: int, j2: int|
                0 <= j1 < j2 < out@.len() ==> out@[j1].vreg.index < out@[j2].vreg.index,
            forall|v2: int|
                0 <= v2 < v && #[trigger] vreg_mentioned(*f, v2) ==> exists|j: int|
                    0 <= j < out@.len() && out@[j].vreg.index == v2,
        decreases nv - v,
    {
        let (ms, span) = scan_mentions(f, v as u32);
        if let Some((s0, e0)) = span {
            let (s, e) = widen_span(f, u, info, v as u32, s0, e0);
            let rt = is_marked(ref_marks, v);
            let sps = safepoints_within(safepoint_insns, s, e);
            let it = VirtualInterval::new(
                out.len(),
                VirtualReg { index: v as u32, class: f.vreg_classes[v] },
                s,
                e,
                ms,
                rt,
                sps,
            );
            let ghost prev = out@;
            out.push(it);
            assert(out@[out@.len() - 1].vreg.index == v);
            assert forall|v2: int|
                0 <= v2 < v + 1 && #[trigger] vreg_mentioned(*f, v2) implies exists|j: int|
                    0 <= j < out@.len() && out@[j].vreg.index == v2 by {
                if v2 < v {
                    let j = choose|j: int| 0 <= j < prev.len() && prev[j].vreg.index == v2;
                    assert(out@[j] == prev[j]);
                } else {
                    assert(out@[out@.len() - 1].vreg.index == v2);
                }
            }
        }
        v += 1;
    }
    out
}

/// Instruction `i` mentions the real register with index `k`.
pub open spec fn names_real(f: Function, i: int, k: int) -> bool {
    exists|j: int|
        0 <= j < inst_regs(f.insns@[i]).len() && (#[trigger] inst_regs(f.insns@[i])[j]) is Real
            && inst_regs(f.insns@[i])[j]->Real_0.index == k
}

/// Real register `k` is busy at position `p` of block `b` before its
/// last point: an instruction of `b` among its first `n` mentions it there,
/// or it is live on entry to `b` and `p` is the block's first point.
pub open spec fn busy_upto(f: Function, u: RealRegUniverse, k: int, b: int, p: int, n: int) -> bool {
    ||| exists|i: int|
        f.blocks@[b].first <= i < f.blocks@[b].first + n && #[trigger] names_real(f, i, k) && (p
            == pos_of(i, Point::Use) || p == pos_of(i, Point::Def))
    ||| live_in(f, u, k, b) && p == pos_of(f.blocks@[b].first as int, Point::Use)
}

/// Real register `k` is busy at position `p` of block `b`: an instruction
/// of `b` mentions it there, or it is live across the block's entry or exit
/// at `p`.
pub open spec fn busy(f: Function, u: RealRegUniverse, k: int, b: int, p: int) -> bool {
    busy_upto(f, u, k, b, p, f.blocks@[b].len as int) || (live_out(f, u, k, b) && p == pos_of(
        f.blocks@[b].end() - 1,
        Point::Def,
    ))
}

fn names_real_exec(f: &Function, i: usize, k: u32) -> (r: bool)
    requires
        f.wf(),
        i < f.insns@.len(),
    ensures
        r == names_real(*f, i as int, k as int),
{
    let inst = &f.insns[i];
    let n = crate::func::inst_reg_count(inst);
    let mut j: usize = 0;
    while j < n
        invariant
            i < f.insns@.len(),
            *inst == f.insns@[i as int],
            n == inst_regs(*inst).len(),
            j <= n,
            forall|j2: int|
                0 <= j2 < j ==> !((#[trigger] inst_regs(*inst)[j2]) is Real && inst_regs(
                    *inst,
                )[j2]->Real_0.index == k),
        decreases n - j,
    {
        if let Reg::Real(x) = crate::func::inst_reg_at(inst, j) {
            if x.index == k {
                return true;
            }
        }
        j += 1;
    }
    false
}

/// The span of the points of block `b` at which real register `k` is busy,
/// if it is busy there at all.
fn busy_span(f: &Function, u: &RealRegUniverse, info: &AnalysisInfo, k: u32, b: usize) -> (r: Option<
    (InstPoint, InstPoint),
>)
    requires
        f.wf(),
        info_exact(*f, *u, *info),
        (k as int) < nkeys(*f, *u),
        b < f.nb(),
    ensures
        r is None ==> forall|p: int| !busy(*f, *u, k as int, b as int, p),
        r matches Some(se) ==> busy(*f, *u, k as int, b as int, se.0.pos()) && busy(
            *f,
            *u,
            k as int,
            b as int,
            se.1.pos(),
        ) && forall|p: int| #[trigger] busy(*f, *u, k as int, b as int, p) ==> se.0.pos() <= p <= se.1.pos(),
{
    proof {
        lemma_block_in_range(*f, b as int);
    }
    let first = f.blocks[b].first;
    let len = f.blocks[b].len;
    assert(info.live_in@[k as int]@.len() == f.nb());
    assert(info.live_out@[k as int]@.len() == f.nb());
    let lin = info.live_in[k as usize][b];
    let lout = info.live_out[k as usize][b];
    let mut span: Option<(InstPoint, InstPoint)> = if lin {
        let p = InstPoint::new_use(first);
        Some((p, p))
    } else {
        None
    };
    let mut n: u32 = 0;
    while n < len
        invariant
            f.wf(),
            info_exact(*f, *u, *info),
            b < f.nb(),
            first == f.blocks@[b as int].first,
            len == f.blocks@[b as int].len,
            first + len <= f.insns@.len(),
            n <= len,
            lin == live_in(*f, *u, k as int, b as int),
            lin ==> (span is Some && span->Some_0.0.pos() == 2 * first),
            span matches Some(se) ==> se.0.pos() <= se.1.pos(),
            span is None ==> forall|p: int| !#[trigger] busy_upto(*f, *u, k as int, b as int, p, n as int),
            span matches Some(se) ==> busy_upto(*f, *u, k as int, b as int, se.0.pos(), n as int)
                && busy_upto(*f, *u, k as int, b as int, se.1.pos(), n as int) && se.0.pos() >= 2
                * first && (se.1.pos() <= 2 * first || se.1.pos() <= 2 * (first + n) - 1) && forall|p: int|
                #[trigger] busy_upto(*f, *u, k as int, b as int, p, n as int)
                    ==> se.0.pos() <= p <= se.1.pos(),
        decreases len - n,
    {
        let i = first + n;
        if names_real_exec(f, i as usize, k) {
            let pu = InstPoint::new_use(i);
            let pd = InstPoint::new_def(i);
            let ghost old_span = span;
            span = match span {
                None => Some((pu, pd)),
                Some(se) => Some((se.0, pd)),
            };
            proof {
                let se = span->Some_0;
                assert(busy_upto(*f, *u, k as int, b as int, pd.pos(), n + 1));
                assert(busy_upto(*f, *u, k as int, b as int, pu.pos(), n + 1));
                if let Some(ose) = old_span {
                    assert(busy_upto(*f, *u, k as int, b as int, ose.0.pos(), n as int));
                    assert(busy_upto(*f, *u, k as int, b as int, ose.0.pos(), n + 1));
                }
                assert forall|p: int|
                    #[trigger] busy_upto(*f, *u, k as int, b as int, p, n + 1) implies se.0.pos() <= p
                    <= se.1.pos() by {
                    if busy_upto(*f, *u, k as int, b as int, p, n as int) {
                    } else {
                        let w = choose|w: int|
                            f.blocks@[b as int].first <= w < f.blocks@[b as int].first + n + 1
                                && #[trigger] names_real(*f, w, k as int) && (p == pos_of(w, Point::Use)
                                || p == pos_of(w, Point::Def));
                        if w < first + n {
                            assert(busy_upto(*f, *u, k as int, b as int, p, n as int));
                        }
                    }
                }
            }
        } else {
            proof {
                assert forall|p: int| #[trigger] busy_upto(*f, *u, k as int, b as int, p, n + 1) implies busy_upto(
                    *f,
                    *u,
                    k as int,
                    b as int,
                    p,
                    n as int,
                ) by {
                    if exists|w: int|
                        f.blocks@[b as int].first <= w < f.blocks@[b as int].first + n + 1
                            && #[trigger] names_real(*f, w, k as int) && (p == pos_of(w, Point::Use)
                            || p == pos_of(w, Point::Def)) {
                        let w = choose|w: int|
                            f.blocks@[b as int].first <= w < f.blocks@[b as int].first + n + 1
                                && #[trigger] names_real(*f, w, k as int) && (p == pos_of(w, Point::Use)
                                || p == pos_of(w, Point::Def));
                        assert(w < first + n);
                    }
                }
                if let Some(se) = span {
                    assert forall|p: int|
                        #[trigger] busy_upto(*f, *u, k as int, b as int, p, n as int) implies busy_upto(
                            *f,
                            *u,
                            k as int,
                            b as int,
                            p,
                            n + 1,
                        ) by {
                        if exists|w: int|
                            f.blocks@[b as int].first <= w < f.blocks@[b as int].first + n
                                && #[trigger] names_real(*f, w, k as int) && (p == pos_of(w, Point::Use)
                                || p == pos_of(w, Point::Def)) {
                            let w = choose|w: int|
                                f.blocks@[b as int].first <= w < f.blocks@[b as int].first + n
                                    && #[trigger] names_real(*f, w, k as int) && (p == pos_of(
                                    w,
                                    Point::Use,
                                ) || p == pos_of(w, Point::Def));
                            assert(f.blocks@[b as int].first <= w < f.blocks@[b as int].first + n + 1);
                        }
                    }
                }
            }
        }
        n += 1;
    }
    if lout {
        let p = InstPoint::new_def(first + len - 1);
        span = match span {
            None => Some((p, p)),
            Some(se) => Some((se.0, p)),
        };
    }
    proof {
        if let Some(se) = span {
            assert forall|p: int| #[trigger] busy(*f, *u, k as int, b as int, p) implies se.0.pos()
                <= p <= se.1.pos() by {
                if busy_upto(*f, *u, k as int, b as int, p, len as int) {
                    if exists|w: int|
                        f.blocks@[b as int].first <= w < f.blocks@[b as int].first + len
                            && #[trigger] names_real(*f, w, k as int) && (p == pos_of(w, Point::Use)
                            || p == pos_of(w, Point::Def)) {
                        let w = choose|w: int|
                            f.blocks@[b as int].first <= w < f.blocks@[b as int].first + len
                                && #[trigger] names_real(*f, w, k as int) && (p == pos_of(w, Point::Use)
                                || p == pos_of(w, Point::Def));
                    }
                }
            }
        }
    }
    span
}

/// The first point of block `b` at which real register `k` is busy.
pub open spec fn busy_min(f: Function, u: RealRegUniverse, k: int, b: int) -> int {
    choose|p: int| busy(f, u, k, b, p) && forall|q: int| #[trigger] busy(f, u, k, b, q) ==> p <= q
}

/// The last point of block `b` at which real register `k` is busy.
pub open spec fn busy_max(f: Function, u: RealRegUniverse, k: int, b: int) -> int {
    choose|p: int| busy(f, u, k, b, p) && forall|q: int| #[trigger] busy(f, u, k, b, q) ==> q <= p
}

/// The spans of the busy points of real register `k`, one per block below
/// `n` in which it is busy, in block order, with the kind of each.
pub open spec fn busy_spans(f: Function, u: RealRegUniverse, k: int, n: int) -> Seq<(int, int, RangeFragKind)>
    decreases n,
{
    if n <= 0 {
        Seq::empty()
    } else {
        let rest = busy_spans(f, u, k, n - 1);
        if exists|p: int| #[trigger] busy(f, u, k, n - 1, p) {
            rest.push(
                (
                    busy_min(f, u, k, n - 1),
                    busy_max(f, u, k, n - 1),
                    frag_kind(live_in(f, u, k, n - 1), live_out(f, u, k, n - 1)),
                ),
            )
        } else {
            rest
        }
    }
}

pub open spec fn frag_span(fr: RangeFrag) -> (int, int, RangeFragKind) {
    (fr.first.pos(), fr.last.pos(), fr.kind)
}

/// The fragments of real register `k`: per block, in block order, the span
/// of the points at which it is busy.
pub open spec fn fixed_frags_exact(f: Function, u: RealRegUniverse, k: int, frags: Seq<RangeFrag>) -> bool {
    &&& frags_wf(frags)
    &&& frags.map_values(|fr: RangeFrag| frag_span(fr)) == busy_spans(f, u, k, f.nb())
    &&& forall|j: int| 0 <= j < frags.len() ==> !(#[trigger] frags[j]).ref_typed
    &&& forall|j: int|
        0 <= j < frags.len() ==> exists|b: int|
            0 <= b < f.nb() && busy(f, u, k, b, (#[trigger] frags[j]).first.pos()) && busy(
                f,
                u,
                k,
                b,
                frags[j].last.pos(),
            )
    &&& forall|b: int, p: int|
        0 <= b < f.nb() && #[trigger] busy(f, u, k, b, p) ==> exists|j: int|
            0 <= j < frags.len() && frag_holds(frags[j], p)
}

/// Later blocks come later in the instruction order.
pub proof fn lemma_block_order(f: Function, b1: int, b2: int)
    requires
        f.wf(),
        0 <= b1 < b2 < f.nb(),
    ensures
        f.blocks@[b1].end() <= f.blocks@[b2].first,
    decreases b2 - b1,
{
    assert(f.blocks@[b1 + 1].first == f.blocks@[b1].end());
    if b1 + 1 < b2 {
        lemma_block_order(f, b1 + 1, b2);
        assert(f.blocks@[b1 + 1].len >= 1);
    }
}

proof fn lemma_busy_in_block(f: Function, u: RealRegUniverse, k: int, b: int, p: int)
    requires
        f.wf(),
        0 <= b < f.nb(),
        busy(f, u, k, b, p),
    ensures
        2 * f.blocks@[b].first <= p <= 2 * f.blocks@[b].end() - 1,
{
    if exists|w: int|
        f.blocks@[b].first <= w < f.blocks@[b].first + f.blocks@[b].len && #[trigger] names_real(
            f,
            w,
            k,
        ) && (p == pos_of(w, Point::Use) || p == pos_of(w, Point::Def)) {
        let w = choose|w: int|
            f.blocks@[b].first <= w < f.blocks@[b].first + f.blocks@[b].len && #[trigger] names_real(
                f,
                w,
                k,
            ) && (p == pos_of(w, Point::Use) || p == pos_of(w, Point::Def));
    }
}

proof fn lemma_push_frag(prev: Seq<RangeFrag>, fr: RangeFrag)
    requires
        frags_wf(prev),
        fr.first.pos() <= fr.last.pos(),
        prev.len() > 0 ==> prev[prev.len() - 1].last.pos() < fr.first.pos(),
    ensures
        frags_wf(prev.push(fr)),
{
    let s = prev.push(fr);
    assert forall|i: int, j: int| 0 <= i < j < s.len() implies s[i].last.pos() < s[j].first.pos() by {
        if j == prev.len() && i < prev.len() - 1 {
            assert(prev[i].last.pos() < prev[prev.len() - 1].first.pos());
            assert(prev[prev.len() - 1].first.pos() <= prev[prev.len() - 1].last.pos());
        }
    }
}

/// The fixed interval of the real register with index `k`.
/// The fragments of real register `k` over the first `b` blocks.
pub open spec fn frags_upto(f: Function, u: RealRegUniverse, k: int, b: int, frags: Seq<RangeFrag>) -> bool {
    &&& frags_wf(frags)
    &&& frags.map_values(|fr: RangeFrag| frag_span(fr)) == busy_spans(f, u, k, b)
    &&& forall|j: int| 0 <= j < frags.len() ==> !(#[trigger] frags[j]).ref_typed
    &&& frags.len() > 0 ==> frags[frags.len() - 1].last.pos() <= 2 * (if b == 0 {
        0
    } else {
        f.blocks@[b - 1].end()
    }) - 1
    &&& forall|j: int|
        0 <= j < frags.len() ==> exists|b2: int|
            0 <= b2 < b && busy(f, u, k, b2, (#[trigger] frags[j]).first.pos()) && busy(
                f,
                u,
                k,
                b2,
                frags[j].last.pos(),
            )
    &&& forall|b2: int, p: int|
        0 <= b2 < b && #[trigger] busy(f, u, k, b2, p) ==> exists|j: int|
            0 <= j < frags.len() && frag_holds(frags[j], p)
}

proof fn lemma_frags_step(
    f: Function,
    u: RealRegUniverse,
    k: int,
    b: int,
    prev: Seq<RangeFrag>,
    fr: Option<RangeFrag>,
)
    requires
        f.wf(),
        0 <= b < f.nb(),
        frags_upto(f, u, k, b, prev),
        fr is None ==> forall|p: int| !busy(f, u, k, b, p),
        fr matches Some(x) ==> busy(f, u, k, b, x.first.pos()) && busy(f, u, k, b, x.last.pos())
            && !x.ref_typed && x.kind == frag_kind(live_in(f, u, k, b), live_out(f, u, k, b))
            && forall|p: int| #[trigger] busy(f, u, k, b, p) ==> x.first.pos() <= p <= x.last.pos(),
    ensures
        frags_upto(f, u, k, b + 1, match fr {
            Some(x) => prev.push(x),
            None => prev,
        }),
{
    lemma_block_in_range(f, b);
    if b > 0 {
        let bb = b - 1;
        assert(f.blocks@[bb + 1].first == f.blocks@[bb].end());
    }
    match fr {
        Some(x) => {
            lemma_busy_in_block(f, u, k, b, x.first.pos());
            lemma_busy_in_block(f, u, k, b, x.last.pos());
            lemma_push_frag(prev, x);
            let mn = busy_min(f, u, k, b);
            let mx = busy_max(f, u, k, b);
            assert(busy(f, u, k, b, mn) && forall|q: int| #[trigger] busy(f, u, k, b, q) ==> mn <= q);
            assert(busy(f, u, k, b, mx) && forall|q: int| #[trigger] busy(f, u, k, b, q) ==> q <= mx);
            assert(mn == x.first.pos());
            assert(mx == x.last.pos());
            let frags = prev.push(x);
            assert(frags.map_values(|fr: RangeFrag| frag_span(fr)) =~= prev.map_values(
                |fr: RangeFrag| frag_span(fr),
            ).push(frag_span(x)));
            assert forall|j: int|
                0 <= j < frags.len() implies exists|b2: int|
                    0 <= b2 < b + 1 && busy(f, u, k, b2, (#[trigger] frags[j]).first.pos())
                        && busy(f, u, k, b2, frags[j].last.pos()) by {
                if j < prev.len() {
                    assert(frags[j] == prev[j]);
                    let b2 = choose|b2: int|
                        0 <= b2 < b && busy(f, u, k, b2, (#[trigger] prev[j]).first.pos())
                            && busy(f, u, k, b2, prev[j].last.pos());
                } else {
                    assert(busy(f, u, k, b, frags[j].first.pos()));
                }
            }
            assert forall|b2: int, p: int|
                0 <= b2 < b + 1 && #[trigger] busy(f, u, k, b2, p) implies exists|j: int|
                    0 <= j < frags.len() && frag_holds(frags[j], p) by {
                if b2 < b {
                    let j = choose|j: int| 0 <= j < prev.len() && frag_holds(prev[j], p);
                    assert(frags[j] == prev[j]);
                } else {
                    assert(frag_holds(frags[frags.len() - 1], p));
                }
            }
        },
        None => {
            assert(!exists|p: int| busy(f, u, k, b, p));
        },
    }
}

/// The fixed interval of the real register with index `k`.
pub fn fixed_interval(f: &Function, u: &RealRegUniverse, info: &AnalysisInfo, k: usize) -> (r:
    FixedInterval)
    requires
        f.wf(),
        u.wf(),
        info_exact(*f, *u, *info),
        k < u.regs@.len(),
        k < nkeys(*f, *u),
    ensures
        r.reg == u.regs@[k as int],
        fixed_frags_exact(*f, *u, k as int, r.frags@),
{
    let mut frags: Vec<RangeFrag> = Vec::new();
    assert(u.regs@[k as int].index == k);
    assert(frags@.map_values(|fr: RangeFrag| frag_span(fr)) =~= busy_spans(*f, *u, k as int, 0));
    let mut b: usize = 0;
    while b < f.blocks.len()
        invariant
            f.wf(),
            info_exact(*f, *u, *info),
            k < nkeys(*f, *u),
            k <= u32::MAX,
            b <= f.nb(),
            frags_upto(*f, *u, k as int, b as int, frags@),
        decreases f.nb() - b,
    {
        let span = busy_span(f, u, info, k as u32, b);
        let ghost prev = frags@;
        if let Some((s0, e0)) = span {
            assert(info.live_in@[k as int]@.len() == f.nb());
            assert(info.live_out@[k as int]@.len() == f.nb());
            let kind = kind_of(info.live_in[k][b], info.live_out[k][b]);
            let fr = RangeFrag { first: s0, last: e0, kind, ref_typed: false };
            proof {
                lemma_frags_step(*f, *u, k as int, b as int, prev, Some(fr));
            }
            frags.push(fr);
        } else {
            proof {
                lemma_frags_step(*f, *u, k as int, b as int, prev, None);
            }
        }
        b += 1;
    }
    FixedInterval { reg: u.regs[k], frags }
}

/// The intervals built for a function: one virtual interval per mentioned
/// virtual register, in register order, and one fixed interval per
/// allocatable real register, in index order.
pub open spec fn intervals_built(
    f: Function,
    u: RealRegUniverse,
    refs: Seq<bool>,
    sps: Seq<u32>,
    r: Intervals,
) -> bool {
    &&& r.ids_wf()
    &&& forall|j: int|
        0 <= j < r.virtuals@.len() ==> interval_of(
            f,
            u,
            (#[trigger] r.virtuals@[j]).vreg.index as int,
            r.virtuals@[j],
            refs,
            sps,
        )
    &&& forall|j1: int, j2: int|
        0 <= j1 < j2 < r.virtuals@.len() ==> r.virtuals@[j1].vreg.index < r.virtuals@[j2].vreg.index
    &&& forall|v: int|
        0 <= v < f.vreg_classes@.len() && #[trigger] vreg_mentioned(f, v) ==> exists|j: int|
            0 <= j < r.virtuals@.len() && r.virtuals@[j].vreg.index == v
    &&& r.fixeds@.len() == u.allocable
    &&& forall|k: int|
        0 <= k < u.allocable ==> (#[trigger] r.fixeds@[k]).reg == u.regs@[k] && fixed_frags_exact(
            f,
            u,
            k,
            r.fixeds@[k].frags@,
        )
}

/// Builds the virtual and fixed intervals of a function from its analysis.
pub fn build_intervals(
    f: &Function,
    u: &RealRegUniverse,
    info: &AnalysisInfo,
    ref_marks: &Vec<bool>,
    safepoint_insns: &Vec<u32>,
) -> (r: Intervals)
    requires
        f.wf(),
        u.wf(),
        keys_fit(*f, *u),
        info_exact(*f, *u, *info),
    ensures
        intervals_built(*f, *u, ref_marks@, safepoint_insns@, r),
{
    let virtuals = build_virtual_intervals(f, u, info, ref_marks, safepoint_insns);
    let mut fixeds: Vec<FixedInterval> = Vec::new();
    let mut k: usize = 0;
    while k < u.allocable
        invariant
            f.wf(),
            u.wf(),
            info_exact(*f, *u, *info),
            k <= u.allocable,
            fixeds@.len() == k,
            forall|k2: int|
                0 <= k2 < k ==> (#[trigger] fixeds@[k2]).reg == u.regs@[k2] && fixed_frags_exact(
                    *f,
                    *u,
                    k2,
                    fixeds@[k2].frags@,
                ),
        decreases u.allocable - k,
    {
        fixeds.push(fixed_interval(f, u, info, k));
        k += 1;
    }
    Intervals { virtuals, fixeds }
}

} // verus!
