use std::collections::HashMap;

use orbital::{BodyTag, Hierarchy, HierarchyError, ResolveStep};

/// Sun, with earth and mars orbiting it and a moon orbiting earth.
fn solar() -> (Hierarchy, Vec<BodyTag>) {
    let mut h = Hierarchy::new();
    let sun = h.add_body(None).unwrap();
    let earth = h.add_body(Some(sun)).unwrap();
    let mars = h.add_body(Some(sun)).unwrap();
    let moon = h.add_body(Some(earth)).unwrap();
    (h, vec![sun, earth, mars, moon])
}

/// Carries out a plan on integer offsets, counting how often each body's
/// motion is read.
fn run(h: &Hierarchy, plan: &[ResolveStep], motion: &[i64]) -> (HashMap<Option<usize>, i64>, Vec<usize>) {
    let mut pos: HashMap<Option<usize>, i64> = HashMap::new();
    let mut reads = vec![0usize; motion.len()];
    for step in plan {
        match *step {
            ResolveStep::Origin(b) => {
                pos.insert(Some(b), 0);
            }
            ResolveStep::Ascend(b) => {
                reads[b] += 1;
                let here = pos[&Some(b)];
                pos.insert(h.parent(b), here - motion[b]);
            }
            ResolveStep::Descend(b) => {
                reads[b] += 1;
                let above = pos[&h.parent(b)];
                pos.insert(Some(b), above + motion[b]);
            }
        }
    }
    (pos, reads)
}

#[test]
fn bodies_get_slots_in_insertion_order() {
    let (h, tags) = solar();
    assert_eq!(h.len(), 4);
    for (i, t) in tags.iter().enumerate() {
        assert_eq!(h.slot(*t), Some(i));
        assert_eq!(h.tag(i), *t);
    }
    assert_eq!(h.tags(), tags);
    assert_eq!(h.parent(0), None);
    assert_eq!(h.parent(1), Some(0));
    assert_eq!(h.parent(2), Some(0));
    assert_eq!(h.parent(3), Some(1));
}

#[test]
fn parent_from_another_hierarchy_is_refused() {
    let (mut h, _) = solar();
    let mut other = Hierarchy::new();
    let stranger = other.add_body(None).unwrap();
    assert_eq!(h.slot(stranger), None);
    assert_eq!(h.add_body(Some(stranger)), Err(HierarchyError::UnknownBody));
    assert_eq!(h.len(), 4);
}

#[test]
fn second_root_is_accepted() {
    let (mut h, _) = solar();
    let star = h.add_body(None).unwrap();
    assert_eq!(h.slot(star), Some(4));
    assert_eq!(h.parent(4), None);
}

#[test]
fn update_order_walks_from_roots_down() {
    let (h, _) = solar();
    assert_eq!(h.update_order(), vec![0, 2, 1, 3]);
}

#[test]
fn update_order_of_empty_hierarchy() {
    let h = Hierarchy::new();
    assert!(h.update_order().is_empty());
}

#[test]
fn update_order_covers_a_forest() {
    let mut h = Hierarchy::new();
    let a = h.add_body(None).unwrap();
    let b = h.add_body(None).unwrap();
    let c = h.add_body(Some(b)).unwrap();
    h.add_body(Some(a)).unwrap();
    h.add_body(Some(c)).unwrap();
    let order = h.update_order();
    assert_eq!(order.len(), 5);
    for (i, &body) in order.iter().enumerate() {
        if let Some(p) = h.parent(body) {
            assert!(order[..i].contains(&p));
        }
    }
}

#[test]
fn plan_from_sun_reads_each_motion_once() {
    let (h, tags) = solar();
    let plan = h.resolution_plan(tags[0], &tags).unwrap();
    assert_eq!(plan[0], ResolveStep::Origin(0));
    assert_eq!(plan[1], ResolveStep::Ascend(0));
    let motion = [5, 100, 300, 7];
    let (pos, reads) = run(&h, &plan, &motion);
    assert_eq!(reads, vec![1, 1, 1, 1]);
    assert_eq!(plan.len(), 5);
    assert_eq!(pos[&Some(0)], 0);
    assert_eq!(pos[&Some(1)], 100);
    assert_eq!(pos[&Some(2)], 300);
    assert_eq!(pos[&Some(3)], 107);
    assert_eq!(pos[&None], -5);
}

#[test]
fn moving_origin_shifts_by_a_constant() {
    let (h, tags) = solar();
    let motion = [5, 100, 300, 7];
    let from_sun = run(&h, &h.resolution_plan(tags[0], &tags).unwrap(), &motion).0;
    let from_earth = run(&h, &h.resolution_plan(tags[1], &tags).unwrap(), &motion).0;
    let shift = from_sun[&Some(1)];
    for b in 0..4 {
        assert_eq!(from_sun[&Some(b)] - from_earth[&Some(b)], shift);
    }
    assert_eq!(from_earth[&Some(0)], -100);
    assert_eq!(from_earth[&Some(3)], 7);
    assert_eq!(from_earth[&Some(2)], 200);
}

#[test]
fn traversal_order_does_not_change_results() {
    let (h, tags) = solar();
    let motion = [5, 100, 300, 7];
    let forward = h.resolution_plan(tags[3], &tags).unwrap();
    let reversed: Vec<BodyTag> = tags.iter().rev().copied().collect();
    let backward = h.resolution_plan(tags[3], &reversed).unwrap();
    let (first, first_reads) = run(&h, &forward, &motion);
    let (second, second_reads) = run(&h, &backward, &motion);
    assert_eq!(first, second);
    assert_eq!(first_reads, vec![1, 1, 1, 1]);
    assert_eq!(second_reads, vec![1, 1, 1, 1]);
    assert_eq!(first[&Some(2)], 300 - 107);
}

#[test]
fn plan_reaches_other_trees_through_the_common_frame() {
    let (mut h, mut tags) = solar();
    let star = h.add_body(None).unwrap();
    let planet = h.add_body(Some(star)).unwrap();
    tags.push(star);
    tags.push(planet);
    let motion = [5, 100, 300, 7, 1000, 20];
    let plan = h.resolution_plan(tags[3], &tags).unwrap();
    let (pos, reads) = run(&h, &plan, &motion);
    assert_eq!(reads, vec![1; 6]);
    assert_eq!(pos[&Some(5)], (1000 + 20) - (5 + 100 + 7));
}

#[test]
fn plan_with_unknown_tag_is_refused() {
    let (h, tags) = solar();
    let mut other = Hierarchy::new();
    let stranger = other.add_body(None).unwrap();
    assert_eq!(h.resolution_plan(stranger, &tags), Err(HierarchyError::UnknownBody));
    let mut visit = tags.clone();
    visit.push(stranger);
    assert_eq!(h.resolution_plan(tags[0], &visit), Err(HierarchyError::UnknownBody));
}

#[test]
fn plan_for_origin_alone_climbs_to_the_frame() {
    let (h, tags) = solar();
    let plan = h.resolution_plan(tags[3], &Vec::new()).unwrap();
    assert_eq!(
        plan,
        vec![
            ResolveStep::Origin(3),
            ResolveStep::Ascend(3),
            ResolveStep::Ascend(1),
            ResolveStep::Ascend(0),
        ]
    );
}

#[test]
fn full_plan_sets_every_body_once() {
    let (mut h, tags) = solar();
    let star = h.add_body(None).unwrap();
    let motion = [5, 100, 300, 7, 1000];
    let plan = h.full_resolution_plan(tags[2]).unwrap();
    let (pos, reads) = run(&h, &plan, &motion);
    assert_eq!(reads, vec![1; 5]);
    assert_eq!(plan.len(), 6);
    assert_eq!(pos[&Some(2)], 0);
    assert_eq!(pos[&Some(0)], -300);
    assert_eq!(pos[&Some(3)], 107 - 300);
    assert_eq!(pos[&Some(4)], 1000 - 305);
    let mut other = Hierarchy::new();
    assert_eq!(
        h.full_resolution_plan(other.add_body(None).unwrap()),
        Err(HierarchyError::UnknownBody)
    );
    assert_eq!(h.slot(star), Some(4));
}

#[test]
fn roots_and_satellites_follow_insertion_order() {
    let (mut h, _) = solar();
    h.add_body(None).unwrap();
    assert_eq!(h.roots(), &vec![0, 4]);
    assert_eq!(h.satellites(0), &vec![1, 2]);
    assert_eq!(h.satellites(1), &vec![3]);
    assert!(h.satellites(3).is_empty());
}
