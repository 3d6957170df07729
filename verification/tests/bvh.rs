use pathtracer::aabb::AABB;
use pathtracer::bvh::{BvhNode, Child};
use pathtracer::hittable::{HitRecord, Object};
use pathtracer::hittable_list::HittableList;
use pathtracer::interval::Interval;
use pathtracer::vec3::Vec3;
use std::cell::Cell;

fn object(handle: usize, a: (i64, i64, i64), b: (i64, i64, i64)) -> Object {
    Object { handle, bbox: AABB::new_points(&Vec3::new(a.0, a.1, a.2), &Vec3::new(b.0, b.1, b.2)) }
}

fn union_of(objects: &[Object]) -> AABB {
    let mut bbox = AABB::empty();
    for o in objects {
        bbox = AABB::new_aabb(&bbox, &o.bbox);
    }
    bbox
}

fn leaves(node: &BvhNode, out: &mut Vec<usize>) {
    for child in [&node.left, &node.right] {
        match child {
            Child::Leaf(o) => out.push(o.handle),
            Child::Branch(below) => leaves(below, out),
        }
    }
}

/// A step of a small generator of numbers that look random, for scenes that are the same in
/// every run.
fn next(state: &mut u64) -> i64 {
    *state = state.wrapping_mul(6364136223846793005).wrapping_add(1442695040888963407);
    ((*state >> 33) % 2001) as i64 - 1000
}

fn scene(count: usize, seed: u64) -> Vec<Object> {
    let mut state = seed;
    let mut objects = Vec::new();
    for handle in 0..count {
        let a = (next(&mut state), next(&mut state), next(&mut state));
        let size = (next(&mut state).abs() % 60, next(&mut state).abs() % 60, next(&mut state).abs() % 60);
        objects.push(object(handle, a, (a.0 + size.0, a.1 + size.1, a.2 + size.2)));
    }
    objects
}

/// A ray along one axis, from far below: it enters a box one unit behind its lower face if it
/// passes through the box at all, which it does where the two other coordinates of `through`
/// lie strictly inside the box.
struct AxisRay {
    axis: u32,
    through: (i64, i64),
}

impl AxisRay {
    fn others(&self, bbox: &AABB) -> (Interval, Interval) {
        match self.axis {
            0 => (bbox.y, bbox.z),
            1 => (bbox.x, bbox.z),
            _ => (bbox.x, bbox.y),
        }
    }

    fn crosses(&self, bbox: &AABB) -> bool {
        let (u, v) = self.others(bbox);
        u.surrounds(self.through.0) && v.surrounds(self.through.1)
    }

    fn entry(&self, o: &Object) -> Option<i64> {
        if self.crosses(&o.bbox) {
            Some(o.bbox.axis_interval(self.axis).min + 1)
        } else {
            None
        }
    }

    fn cull(&self, bbox: &AABB, range: &Interval) -> bool {
        let along = bbox.axis_interval(self.axis);
        self.crosses(bbox) && along.min < range.max && range.min < along.max
    }
}

fn closest_by_hand(ray: &AxisRay, objects: &[Object], ray_t: &Interval) -> Option<i64> {
    objects.iter().filter_map(|o| ray.entry(o)).filter(|t| ray_t.surrounds(*t)).min()
}

#[test]
fn node_over_one_object_has_it_twice() {
    let mut objects = vec![object(7, (0, 0, 0), (4, 4, 4))];
    let node = BvhNode::new(&mut objects, 0, 1);
    assert_eq!(node.left, Child::Leaf(objects[0]));
    assert_eq!(node.right, Child::Leaf(objects[0]));
    assert_eq!(node.bbox, objects[0].bbox);
    assert_eq!(node.bounding_box(), objects[0].bbox);
}

#[test]
fn node_over_two_objects_orders_them_along_the_longest_axis() {
    // The union is longest along y, and the second object begins lower on y.
    let a = object(0, (0, 50, 0), (4, 60, 4));
    let b = object(1, (1, 0, 1), (5, 10, 5));
    let mut objects = vec![a, b];
    let node = BvhNode::new(&mut objects, 0, 2);
    assert_eq!(node.left, Child::Leaf(b));
    assert_eq!(node.right, Child::Leaf(a));
    assert_eq!(node.bbox, AABB::new_aabb(&a.bbox, &b.bbox));
    // The vector itself keeps its order.
    assert_eq!(objects, vec![a, b]);
}

#[test]
fn node_over_two_objects_keeps_the_order_of_equals() {
    let a = object(0, (0, 0, 0), (4, 4, 100));
    let b = object(1, (9, 9, 0), (5, 5, 50));
    let mut objects = vec![a, b];
    let node = BvhNode::new(&mut objects, 0, 2);
    assert_eq!(node.left, Child::Leaf(a));
    assert_eq!(node.right, Child::Leaf(b));
    let mut objects = vec![b, a];
    let node = BvhNode::new(&mut objects, 0, 2);
    assert_eq!(node.left, Child::Leaf(b));
    assert_eq!(node.right, Child::Leaf(a));
}

#[test]
fn node_over_three_objects_sorts_and_splits_at_the_middle() {
    // Longest along x. Sorted along x: c, a, b; the left half is c alone.
    let a = object(0, (10, 0, 0), (20, 5, 5));
    let b = object(1, (30, 0, 0), (90, 5, 5));
    let c = object(2, (-40, 0, 0), (0, 5, 5));
    let mut objects = vec![a, b, c];
    let node = BvhNode::new(&mut objects, 0, 3);
    assert_eq!(objects, vec![c, a, b]);
    assert_eq!(node.bbox, union_of(&[a, b, c]));
    match &node.left {
        Child::Branch(left) => {
            assert_eq!(left.left, Child::Leaf(c));
            assert_eq!(left.right, Child::Leaf(c));
            assert_eq!(left.bbox, c.bbox);
        }
        Child::Leaf(_) => panic!("a node of three objects has nodes below it"),
    }
    match &node.right {
        Child::Branch(right) => {
            assert_eq!(right.left, Child::Leaf(a));
            assert_eq!(right.right, Child::Leaf(b));
            assert_eq!(right.bbox, AABB::new_aabb(&a.bbox, &b.bbox));
        }
        Child::Leaf(_) => panic!("a node of three objects has nodes below it"),
    }
}

#[test]
fn sorting_keeps_the_order_of_equal_keys() {
    // All boxes begin at x = 0 and the union is longest along x: sorting moves nothing.
    let mut objects: Vec<Object> =
        (0..7).map(|h| object(h, (0, h as i64, 0), (100 + h as i64, h as i64 + 3, 3))).collect();
    let before = objects.clone();
    BvhNode::new(&mut objects, 0, 7);
    assert_eq!(objects, before);
}

#[test]
fn building_touches_only_its_range() {
    let mut objects = scene(40, 11);
    let before = objects.clone();
    let node = BvhNode::new(&mut objects, 10, 30);
    assert_eq!(objects[..10], before[..10]);
    assert_eq!(objects[30..], before[30..]);
    let mut inside: Vec<usize> = objects[10..30].iter().map(|o| o.handle).collect();
    inside.sort();
    assert_eq!(inside, (10..30).collect::<Vec<usize>>());
    assert_eq!(node.bbox, union_of(&before[10..30]));
}

#[test]
fn the_leaves_are_the_objects() {
    for count in [1usize, 2, 3, 4, 5, 8, 17, 64, 100] {
        let mut objects = scene(count, count as u64);
        let node = BvhNode::new(&mut objects, 0, count);
        let mut found = Vec::new();
        leaves(&node, &mut found);
        // An object that is alone below its node is both of its children.
        assert!(found.len() >= count && found.len() <= 2 * count);
        found.sort();
        found.dedup();
        assert_eq!(found, (0..count).collect::<Vec<usize>>());
    }
}

#[test]
fn a_power_of_two_objects_are_leaves_once() {
    for count in [2usize, 4, 8, 64] {
        let mut objects = scene(count, count as u64);
        let node = BvhNode::new(&mut objects, 0, count);
        let mut found = Vec::new();
        leaves(&node, &mut found);
        assert_eq!(found.len(), count);
    }
}

fn height(node: &BvhNode) -> u32 {
    let below = |child: &Child| match child {
        Child::Leaf(_) => 0,
        Child::Branch(n) => height(n),
    };
    1 + below(&node.left).max(below(&node.right))
}

#[test]
fn the_hierarchy_is_balanced() {
    for count in 1usize..200 {
        let mut objects = scene(count, 31 * count as u64);
        let node = BvhNode::new(&mut objects, 0, count);
        let h = height(&node);
        // The height is the logarithm of the number of objects, rounded up.
        assert!(count <= 1 << h);
        assert!(1 << h <= 2 * count);
        if count >= 2 {
            assert!((1 << h) + 2 <= 2 * count);
        }
    }
    let mut objects = scene(1000, 1);
    assert_eq!(height(&BvhNode::new(&mut objects, 0, 1000)), 10);
    assert_eq!(height(&BvhNode::new(&mut objects, 0, 1)), 1);
    assert_eq!(height(&BvhNode::new(&mut objects, 0, 2)), 1);
    assert_eq!(height(&BvhNode::new(&mut objects, 0, 3)), 2);
}

fn check_boxes(node: &BvhNode) -> AABB {
    let mut bbox = AABB::empty();
    for child in [&node.left, &node.right] {
        let below = match child {
            Child::Leaf(o) => o.bbox,
            Child::Branch(n) => check_boxes(n),
        };
        bbox = AABB::new_aabb(&bbox, &below);
    }
    assert_eq!(node.bbox, bbox);
    bbox
}

#[test]
fn every_node_reports_the_union_of_its_children() {
    let mut objects = scene(77, 5);
    let node = BvhNode::new(&mut objects, 0, 77);
    check_boxes(&node);
}

#[test]
fn new_list_builds_over_the_whole_list() {
    let mut list = HittableList::new();
    let objects = scene(9, 3);
    for o in objects.iter() {
        list.add(*o);
    }
    let bbox = list.bounding_box();
    let node = BvhNode::new_list(&mut list);
    let mut again = objects.clone();
    let expected = BvhNode::new(&mut again, 0, 9);
    assert_eq!(node, expected);
    assert_eq!(list.len(), 9);
    for (k, o) in again.iter().enumerate() {
        assert_eq!(list.object(k), *o);
    }
    assert_eq!(list.bounding_box(), bbox);
    assert_eq!(node.bounding_box(), bbox);
}

fn list_of(objects: &[Object]) -> HittableList {
    let mut list = HittableList::new();
    for o in objects {
        list.add(*o);
    }
    list
}

#[test]
fn hierarchy_and_list_find_the_same_nearest_hit() {
    let mut state = 99u64;
    for count in [1usize, 2, 3, 7, 50, 200] {
        let objects = scene(count, 1000 + count as u64);
        let list = list_of(&objects);
        let mut arranged = objects.clone();
        let node = BvhNode::new(&mut arranged, 0, count);
        for _ in 0..200 {
            let ray = AxisRay {
                axis: (next(&mut state).unsigned_abs() % 3) as u32,
                through: (next(&mut state), next(&mut state)),
            };
            let low = next(&mut state);
            let ray_t = Interval::new(low, low + next(&mut state).abs() * 2);
            let probe = |handle: usize, range: Interval| {
                ray.entry(&objects[handle]).filter(|t| range.surrounds(*t))
            };
            let cull = |bbox: AABB, range: Interval| ray.cull(&bbox, &range);
            let mut by_list = HitRecord::new(-1, usize::MAX);
            let mut by_tree = HitRecord::new(-1, usize::MAX);
            let hit_list = list.hit(&ray_t, &mut by_list, &probe);
            let hit_tree = node.hit(&ray_t, &mut by_tree, &cull, &probe);
            let expected = closest_by_hand(&ray, &objects, &ray_t);
            assert_eq!(hit_list, expected.is_some());
            assert_eq!(hit_tree, expected.is_some());
            if let Some(t) = expected {
                assert_eq!(by_list.t, t);
                assert_eq!(by_tree.t, t);
                assert_eq!(ray.entry(&objects[by_list.object]), Some(t));
                assert_eq!(ray.entry(&objects[by_tree.object]), Some(t));
            } else {
                assert_eq!(by_list, HitRecord::new(-1, usize::MAX));
                assert_eq!(by_tree, HitRecord::new(-1, usize::MAX));
            }
        }
    }
}

#[test]
fn hierarchy_asks_fewer_objects_than_the_list() {
    let count = 512;
    let objects = scene(count, 4242);
    let mut arranged = objects.clone();
    let node = BvhNode::new(&mut arranged, 0, count);
    let ray = AxisRay { axis: 2, through: (objects[100].bbox.x.min + 1, objects[100].bbox.y.min + 1) };
    let asked = Cell::new(0usize);
    let probe = |handle: usize, range: Interval| {
        asked.set(asked.get() + 1);
        ray.entry(&objects[handle]).filter(|t| range.surrounds(*t))
    };
    let cull = |bbox: AABB, range: Interval| ray.cull(&bbox, &range);
    let mut rec = HitRecord::default();
    assert!(node.hit(&Interval::universe(), &mut rec, &cull, &probe));
    assert!(asked.get() < count / 4);
    assert_eq!(Some(rec.t), closest_by_hand(&ray, &objects, &Interval::universe()));
}

#[test]
fn a_ray_turned_away_at_the_root_asks_nothing() {
    let mut objects = scene(10, 1);
    let node = BvhNode::new(&mut objects, 0, 10);
    let asked = Cell::new(0usize);
    let probe = |_: usize, _: Interval| {
        asked.set(asked.get() + 1);
        Some(5i64)
    };
    let cull = |_: AABB, _: Interval| false;
    let mut rec = HitRecord::new(3, 3);
    assert!(!node.hit(&Interval::new(0, 100), &mut rec, &cull, &probe));
    assert_eq!(asked.get(), 0);
    assert_eq!(rec, HitRecord::new(3, 3));
}

#[test]
fn the_right_child_is_searched_up_to_the_hit_on_the_left() {
    let a = object(0, (0, 0, 0), (10, 10, 10));
    let b = object(1, (100, 0, 0), (110, 10, 10));
    let mut objects = vec![a, b];
    let node = BvhNode::new(&mut objects, 0, 2);
    let ranges = std::cell::RefCell::new(Vec::new());
    let probe = |handle: usize, range: Interval| {
        ranges.borrow_mut().push((handle, range));
        if handle == 0 {
            Some(40i64)
        } else {
            None
        }
    };
    let cull = |_: AABB, _: Interval| true;
    let mut rec = HitRecord::default();
    assert!(node.hit(&Interval::new(1, 1000), &mut rec, &cull, &probe));
    assert_eq!(rec, HitRecord::new(40, 0));
    assert_eq!(
        *ranges.borrow(),
        vec![(0, Interval::new(1, 1000)), (1, Interval::new(1, 40))]
    );
}

#[test]
fn the_list_narrows_the_range_with_every_hit() {
    let list = list_of(&scene(4, 8));
    let ranges = std::cell::RefCell::new(Vec::new());
    let answers = [Some(70i64), None, Some(30), Some(20)];
    let probe = |handle: usize, range: Interval| {
        ranges.borrow_mut().push(range.max);
        answers[handle]
    };
    let mut rec = HitRecord::default();
    assert!(list.hit(&Interval::new(0, 100), &mut rec, &probe));
    assert_eq!(rec, HitRecord::new(20, 3));
    assert_eq!(*ranges.borrow(), vec![100, 70, 70, 30]);
}

#[test]
fn an_empty_list_is_never_hit() {
    let list = HittableList::new();
    let probe = |_: usize, _: Interval| Some(1i64);
    let mut rec = HitRecord::new(9, 9);
    assert!(!list.hit(&Interval::universe(), &mut rec, &probe));
    assert_eq!(rec, HitRecord::new(9, 9));
    assert_eq!(list.len(), 0);
    assert_eq!(list.bounding_box(), AABB::empty());
}

#[test]
fn list_add_widens_the_box_and_clear_keeps_it() {
    let objects = scene(5, 77);
    let mut list = HittableList::new();
    let mut bbox = AABB::empty();
    for (k, o) in objects.iter().enumerate() {
        list.add(*o);
        bbox = AABB::new_aabb(&bbox, &o.bbox);
        assert_eq!(list.len(), k + 1);
        assert_eq!(list.object(k), *o);
        assert_eq!(list.bounding_box(), bbox);
    }
    list.clear();
    assert_eq!(list.len(), 0);
    assert_eq!(list.bounding_box(), bbox);
}

#[test]
fn list_random_names_an_object_of_the_list() {
    let objects: Vec<Object> =
        (0..5).map(|k| object(100 + 10 * k, (0, 0, 0), (1, 1, 1))).collect();
    let list = list_of(&objects);
    let mut seen = std::collections::BTreeSet::new();
    for _ in 0..500 {
        let handle = list.random();
        assert!(objects.iter().any(|o| o.handle == handle));
        seen.insert(handle);
    }
    // Five objects and five hundred draws: each is drawn.
    assert_eq!(seen.len(), 5);
}

#[test]
fn hit_record_default_is_zero() {
    assert_eq!(HitRecord::default(), HitRecord::new(0, 0));
    assert_eq!(HitRecord::new(4, 2).t, 4);
    assert_eq!(HitRecord::new(4, 2).object, 2);
}
