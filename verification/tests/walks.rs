use pathtrace::aabb::{Aabb, AxisCut, Corner, Slabs};
use pathtrace::bvh::{build, Bvh};
use pathtrace::hit::{closest_hit, Crossing, Hit};
use pathtrace::walk::{Query, Walk};

fn wide() -> Slabs {
    let cut = AxisCut { at_min: i64::MIN, at_max: i64::MAX, reversed: false };
    Slabs { x: cut, y: cut, z: cut }
}

fn narrow(from: i64, to: i64) -> Slabs {
    let cut = AxisCut { at_min: from, at_max: to, reversed: false };
    Slabs { x: cut, y: cut, z: cut }
}

fn unit_box(at: i64) -> Aabb {
    Aabb { min: Corner { x: at, y: at, z: at }, max: Corner { x: at + 1, y: at + 1, z: at + 1 } }
}

/// Runs a walk to its end, answering from the lists, and counts the
/// questions of each sort.
fn run(
    tree: &Bvh,
    probes: &[Crossing],
    slabs: &[Slabs],
    t_min: i64,
    t_max: i64,
) -> (Option<Hit>, usize, usize) {
    let mut walk = Walk::start(tree, t_min, t_max);
    let mut probed = 0;
    let mut cut = 0;
    loop {
        match walk.query() {
            Query::Done(best) => return (best, probed, cut),
            Query::Probe { item } => {
                probed += 1;
                walk.answer_probe(probes[item]);
            }
            Query::Cut { id } => {
                cut += 1;
                walk.answer_cut(slabs[id]);
            }
        }
    }
}

#[test]
fn walk_of_a_leaf_asks_one_question() {
    let tree = build(&vec![unit_box(0)]);
    let walk = Walk::start(&tree, 0, 100);
    assert_eq!(walk.query(), Query::Probe { item: 0 });
    assert_eq!(run(&tree, &[Crossing::Twice(-1, 7)], &[], 0, 100), (Some(Hit { t: 7, item: 0 }), 1, 0));
    assert_eq!(run(&tree, &[Crossing::Miss], &[], 0, 100), (None, 1, 0));
}

#[test]
fn walk_starts_at_the_root_box() {
    let tree = build(&vec![unit_box(0), unit_box(5)]);
    let mut walk = Walk::start(&tree, 0, 100);
    assert_eq!(walk.query(), Query::Cut { id: 0 });
    walk.answer_cut(wide());
    assert_eq!(walk.query(), Query::Probe { item: 0 });
    walk.answer_probe(Crossing::Once(40));
    assert_eq!(walk.query(), Query::Probe { item: 1 });
    walk.answer_probe(Crossing::Once(30));
    assert_eq!(walk.query(), Query::Done(Some(Hit { t: 30, item: 1 })));
}

#[test]
fn walk_keeps_the_nearer_hit() {
    let tree = build(&vec![unit_box(0), unit_box(5)]);
    assert_eq!(
        run(&tree, &[Crossing::Once(30), Crossing::Once(40)], &[wide()], 0, 100).0,
        Some(Hit { t: 30, item: 0 })
    );
    assert_eq!(
        run(&tree, &[Crossing::Once(30), Crossing::Once(30)], &[wide()], 0, 100).0,
        Some(Hit { t: 30, item: 0 })
    );
}

#[test]
fn walk_never_opens_a_missed_box() {
    let boxes: Vec<Aabb> = (0..16).map(unit_box).collect();
    let probes: Vec<Crossing> = (0..16).map(|i| Crossing::Once(10 + i)).collect();
    let tree = build(&boxes);
    let shut = vec![narrow(-9, -8); 15];
    assert_eq!(run(&tree, &probes, &shut, 0, 100), (None, 0, 1));
}

#[test]
fn walk_prunes_boxes_behind_the_nearest_hit() {
    let tree = build(&vec![unit_box(0), unit_box(5), unit_box(9)]);
    let mut walk = Walk::start(&tree, 0, 100);
    let mut asked = Vec::new();
    loop {
        let q = walk.query();
        asked.push(q);
        match q {
            Query::Done(_) => break,
            Query::Probe { .. } => walk.answer_probe(Crossing::Once(10)),
            Query::Cut { id: 0 } => walk.answer_cut(wide()),
            Query::Cut { .. } => walk.answer_cut(narrow(20, 90)),
        }
    }
    assert_eq!(
        asked,
        vec![
            Query::Cut { id: 0 },
            Query::Probe { item: 0 },
            Query::Cut { id: 1 },
            Query::Done(Some(Hit { t: 10, item: 0 })),
        ]
    );
}

#[test]
fn walk_agrees_with_traversal_and_search() {
    let boxes: Vec<Aabb> = (0..25).map(|i| unit_box((11 * i) % 25)).collect();
    let probes: Vec<Crossing> = (0..25i64)
        .map(|i| match i % 3 {
            0 => Crossing::Miss,
            1 => Crossing::Once(10 + (17 * i) % 50),
            _ => Crossing::Twice((13 * i) % 40 + 5, (13 * i) % 40 - 20),
        })
        .collect();
    let tree = build(&boxes);
    let slabs = vec![wide(); 24];
    for (lo, hi) in [(0, 1000), (0, 12), (15, 40), (30, 31), (-100, 0), (59, 1000)] {
        let (found, probed, cut) = run(&tree, &probes, &slabs, lo, hi);
        assert_eq!(found, tree.hit(&probes, &slabs, lo, hi));
        assert_eq!(found.map(|h| h.t), closest_hit(&probes, lo, hi).map(|h| h.t));
        assert_eq!(probed, 25);
        assert_eq!(cut, 24);
    }
}
