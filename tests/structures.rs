use regalloc::data::{InstPoint, Location, Mention, Point, RealReg, SpillSlot, VirtualReg};
use regalloc::intervals::{
    safepoints_from, safepoints_to_vec, FixedInterval, Intervals, RangeFrag, RangeFragKind, VirtualInterval,
};
use regalloc::ir::{SourceLoc, Value, ValueLabel, ValueLabelAssignments, ValueLabelStart};
use regalloc::mentions::{last_use, mention_at, mentions_from, mentions_to_vec, next_use, MentionMap};
use regalloc::rewrite::compute_stackmaps;

fn u(i: u32) -> InstPoint {
    InstPoint::new_use(i)
}

fn d(i: u32) -> InstPoint {
    InstPoint::new_def(i)
}

const USE: u8 = 1;
const MOD: u8 = 2;
const DEF: u8 = 4;

fn mentions(items: &[(u32, u8)]) -> MentionMap {
    mentions_from(&items.to_vec())
}

#[test]
fn mention_flags() {
    let mut m = Mention::new();
    assert!(!m.is_use() && !m.is_mod() && !m.is_def());
    m.add_use();
    assert!(m.is_use() && m.is_use_or_mod() && !m.is_mod_or_def());
    m.add_def();
    assert!(m.is_def() && m.is_mod_or_def() && !m.is_mod());
    let mut n = Mention::new();
    n.add_mod();
    assert!(n.is_mod() && n.is_use_or_mod() && n.is_mod_or_def() && !n.is_use());
    assert_eq!(m.0, 5);
}

#[test]
fn points_are_ordered() {
    assert!(u(3).lt(&d(3)));
    assert!(d(3).lt(&u(4)));
    assert!(!d(3).lt(&d(3)));
    assert!(d(3).le(&d(3)));
}

#[test]
fn locations() {
    let r = RealReg { index: 1, class: 0 };
    assert_eq!(Location::Reg(r).reg(), Some(r));
    assert_eq!(Location::Reg(r).spill(), None);
    assert_eq!(Location::Stack(SpillSlot(4)).spill(), Some(SpillSlot(4)));
    assert!(Location::Unassigned.is_none());
    assert!(!Location::Stack(SpillSlot(0)).is_none());
}

#[test]
fn next_use_finds_first_mention_after() {
    let m = mentions(&[(2, DEF), (5, USE), (7, MOD), (9, USE)]);
    assert_eq!(mentions_to_vec(&m), vec![(2, DEF), (5, USE), (7, MOD), (9, USE)]);
    assert_eq!(next_use(&m, d(2), u(9), u(0)), Some(d(2)));
    assert_eq!(next_use(&m, d(2), u(9), u(3)), Some(u(5)));
    assert_eq!(next_use(&m, d(2), u(9), d(5)), Some(u(7)));
    assert_eq!(next_use(&m, d(2), u(9), d(7)), Some(d(7)));
    assert_eq!(next_use(&m, d(2), d(7), u(8)), None);
    assert_eq!(mention_at(&m, 7), Some(MOD));
    assert_eq!(mention_at(&m, 6), None);
}

#[test]
fn last_use_finds_last_mention_before() {
    let m = mentions(&[(2, DEF), (5, USE), (7, MOD), (9, USE)]);
    assert_eq!(last_use(&m, d(2), u(9), u(9)), Some(u(9)));
    assert_eq!(last_use(&m, d(2), u(9), d(8)), Some(d(7)));
    assert_eq!(last_use(&m, d(2), u(9), u(7)), Some(u(5)));
    assert_eq!(last_use(&m, d(2), u(9), u(2)), None);
    assert_eq!(last_use(&m, d(2), u(9), d(2)), Some(d(2)));
}

#[test]
fn find_fragment_of_point() {
    let frag = |a: InstPoint, b: InstPoint| RangeFrag { first: a, last: b, kind: RangeFragKind::Local, ref_typed: false };
    let fi = FixedInterval {
        reg: RealReg { index: 0, class: 0 },
        frags: vec![frag(u(0), d(1)), frag(u(4), u(4)), frag(d(6), d(9))],
    };
    assert_eq!(fi.find_frag(d(0)), 0);
    assert_eq!(fi.find_frag(u(4)), 1);
    assert_eq!(fi.find_frag(u(8)), 2);
}

fn interval(id: usize, start: InstPoint, end: InstPoint) -> VirtualInterval {
    VirtualInterval::new(id, VirtualReg { index: id as u32, class: 0 }, start, end, mentions_from(&vec![]), false, safepoints_from(&vec![]))
}

#[test]
fn split_tree_links() {
    let mut ints = Intervals { virtuals: vec![], fixeds: vec![] };
    for id in 0..3 {
        ints.push_interval(interval(id, u(0), d(5)));
    }
    assert_eq!(ints.num_virtual_intervals(), 3);
    ints.set_child(0, 2);
    assert_eq!(ints.get(0).child, Some(2));
    ints.set_child(0, 1);
    assert_eq!(ints.get(0).child, Some(1));
    assert_eq!(ints.get(1).child, Some(2));
    assert_eq!(ints.get(2).parent, Some(1));
    ints.set_reg(1, RealReg { index: 3, class: 0 });
    ints.set_spill(2, SpillSlot(7));
    assert_eq!(ints.get(1).location, Location::Reg(RealReg { index: 3, class: 0 }));
    assert_eq!(ints.get(2).location, Location::Stack(SpillSlot(7)));
    assert!(ints.get(1).covers(d(5)) && !ints.get(1).covers(u(6)));
}

#[test]
fn stackmaps_list_stack_reference_intervals() {
    let mut a = interval(0, u(0), d(5));
    a.ref_typed = true;
    a.location = Location::Stack(SpillSlot(3));
    a.safepoints = safepoints_from(&vec![(2, 0)]);
    assert_eq!(safepoints_to_vec(&a.safepoints), vec![(2, 0)]);
    let mut b = interval(1, u(0), d(5));
    b.location = Location::Stack(SpillSlot(4));
    b.safepoints = safepoints_from(&vec![(2, 0)]);
    let mut c = interval(2, u(0), d(5));
    c.ref_typed = true;
    c.location = Location::Reg(RealReg { index: 0, class: 0 });
    c.safepoints = safepoints_from(&vec![(2, 0)]);
    let maps = compute_stackmaps(&vec![a, b, c], 2);
    assert_eq!(maps, vec![vec![SpillSlot(3)], vec![]]);
}

#[test]
fn value_labels() {
    let l = ValueLabel::new(7);
    assert_eq!(l.index(), 7);
    let s = ValueLabelStart { from: SourceLoc(3), label: l };
    match ValueLabelAssignments::Starts(vec![s]) {
        ValueLabelAssignments::Starts(v) => assert_eq!(v[0].label, ValueLabel(7)),
        _ => unreachable!(),
    }
    let a = ValueLabelAssignments::Alias { from: SourceLoc(1), value: Value(2) };
    assert!(matches!(a, ValueLabelAssignments::Alias { value: Value(2), .. }));
    let _ = Point::Use;
}

#[test]
fn stackmaps_are_sorted() {
    let mut a = interval(0, u(0), d(5));
    a.ref_typed = true;
    a.location = Location::Stack(SpillSlot(5));
    a.safepoints = safepoints_from(&vec![(2, 0)]);
    let mut b = interval(1, u(0), d(5));
    b.ref_typed = true;
    b.location = Location::Stack(SpillSlot(3));
    b.safepoints = safepoints_from(&vec![(2, 0)]);
    let mut c = interval(2, u(0), d(5));
    c.ref_typed = true;
    c.location = Location::Stack(SpillSlot(5));
    c.safepoints = safepoints_from(&vec![(2, 0)]);
    let maps = compute_stackmaps(&vec![a, b, c], 1);
    assert_eq!(maps, vec![vec![SpillSlot(3), SpillSlot(5)]]);
}

#[test]
fn set_child_to_current_child() {
    let mut ints = Intervals { virtuals: vec![], fixeds: vec![] };
    for id in 0..2 {
        ints.push_interval(interval(id, u(0), d(5)));
    }
    ints.set_child(0, 1);
    ints.set_child(0, 1);
    assert_eq!(ints.get(0).child, Some(1));
    assert_eq!(ints.get(1).child, Some(1));
    assert_eq!(ints.get(1).parent, Some(1));
    assert_eq!(ints.get(0).parent, None);
}
