use konquer::quadtree::{CollisionQuadtree, EntityBody, CQT_MAX_OBJECTS_PER_NODE};
use konquer::{Rectangle2D, Vec2};

fn world() -> Rectangle2D {
    Rectangle2D { x: 0, y: 0, width: 1000, height: 1000 }
}

fn body(entity: usize, x: i64, y: i64, radius: i64) -> EntityBody {
    EntityBody { entity, position: Vec2::new(x, y), radius }
}

fn ids(v: &[EntityBody]) -> Vec<usize> {
    let mut r: Vec<usize> = v.iter().map(|e| e.entity).collect();
    r.sort();
    r
}

#[test]
fn find_index_picks_the_quadrant_that_holds_the_circle() {
    let t = CollisionQuadtree::new(0, world());
    assert_eq!(t.find_index(Vec2::new(750, 750), 10), 0);
    assert_eq!(t.find_index(Vec2::new(250, 750), 10), 1);
    assert_eq!(t.find_index(Vec2::new(250, 250), 10), 2);
    assert_eq!(t.find_index(Vec2::new(750, 250), 10), 3);
}

#[test]
fn find_index_is_ambiguous_on_and_across_midlines() {
    let t = CollisionQuadtree::new(0, world());
    assert_eq!(t.find_index(Vec2::new(500, 750), 10), -1);
    assert_eq!(t.find_index(Vec2::new(750, 495), 10), -1);
    // touching the vertical midline exactly stays ambiguous
    assert_eq!(t.find_index(Vec2::new(490, 750), 10), -1);
    assert_eq!(t.find_index(Vec2::new(489, 750), 10), 1);
}

#[test]
fn small_tree_retrieves_everything_it_holds() {
    let mut t = CollisionQuadtree::new(0, world());
    t.insert(body(1, 100, 100, 5));
    t.insert(body(2, 900, 900, 5));
    let mut out = Vec::new();
    t.retrieve(Vec2::new(100, 100), 5, &mut out);
    assert_eq!(ids(&out), vec![1, 2]);
    assert!(!t.is_split);
}

#[test]
fn node_splits_past_capacity_and_hands_records_down() {
    let mut t = CollisionQuadtree::new(0, world());
    for i in 0..=CQT_MAX_OBJECTS_PER_NODE {
        t.insert(body(i, 100 + (i as i64) * 5, 100, 2));
    }
    assert!(t.is_split);
    assert_eq!(t.nodes.len(), 4);
    // every record lies wholly within quadrant 2, so none stays at the root
    assert_eq!(t.entities.len(), 0);
    assert_eq!(t.nodes[0].entities.len() + t.nodes[1].entities.len(), 0);
    assert_eq!(t.nodes[3].entities.len(), 0);
    assert_eq!(t.nodes[2].level, 1);
    assert_eq!(t.nodes[0].bounds, Rectangle2D { x: 500, y: 500, width: 500, height: 500 });
    assert_eq!(t.nodes[1].bounds, Rectangle2D { x: 0, y: 500, width: 500, height: 500 });
    assert_eq!(t.nodes[2].bounds, Rectangle2D { x: 0, y: 0, width: 500, height: 500 });
    assert_eq!(t.nodes[3].bounds, Rectangle2D { x: 500, y: 0, width: 500, height: 500 });
    let mut out = Vec::new();
    t.retrieve(Vec2::new(100, 100), 2, &mut out);
    assert!(!out.is_empty());
}

#[test]
fn straddling_records_stay_at_the_split_node() {
    let mut t = CollisionQuadtree::new(0, world());
    for i in 0..=CQT_MAX_OBJECTS_PER_NODE {
        t.insert(body(i, 100 + (i as i64) * 5, 100, 2));
    }
    t.insert(body(500, 500, 500, 3));
    assert_eq!(ids(&t.entities), vec![500]);
    t.insert(body(501, 800, 800, 3));
    assert_eq!(ids(&t.entities), vec![500]);
    assert_eq!(ids(&t.nodes[0].entities), vec![501]);
}

fn seam_free(t: &CollisionQuadtree, p: Vec2, r: i64) -> bool {
    if !t.is_split {
        return true;
    }
    let i = t.find_index(p, r);
    i != -1 && seam_free(&t.nodes[i as usize], p, r)
}

#[test]
fn retrieval_covers_overlapping_records_away_from_seams() {
    let mut t = CollisionQuadtree::new(0, world());
    let mut all = Vec::new();
    for i in 0..300usize {
        let b = body(i, 10 + ((i * 37) % 980) as i64, 10 + ((i * 53) % 980) as i64, 4);
        all.push(b);
        t.insert(b);
    }
    assert!(t.is_split);
    let mut checked = 0;
    for qx in (30..1000).step_by(47) {
        for qy in (30..1000).step_by(41) {
            let (q, qr) = (Vec2::new(qx, qy), 25i64);
            if !seam_free(&t, q, qr) {
                continue;
            }
            checked += 1;
            let mut out = Vec::new();
            t.retrieve(q, qr, &mut out);
            let found = ids(&out);
            for b in &all {
                let (dx, dy) = (b.position.x - qx, b.position.y - qy);
                if dx * dx + dy * dy < (qr + b.radius) * (qr + b.radius) {
                    assert!(found.contains(&b.entity), "record {} missed", b.entity);
                }
            }
        }
    }
    assert!(checked > 0);
}

#[test]
fn query_across_a_seam_misses_records_below_it() {
    // a known limit of the index: a query that straddles a midline looks at
    // the node's own records only
    let mut t = CollisionQuadtree::new(0, world());
    for i in 0..=CQT_MAX_OBJECTS_PER_NODE {
        t.insert(body(i, 510 + (i as i64), 600, 2));
    }
    assert!(t.is_split);
    let mut out = Vec::new();
    t.retrieve(Vec2::new(500, 600), 20, &mut out);
    assert!(out.is_empty());
    // a query within the quadrant finds them
    let mut inside = Vec::new();
    t.retrieve(Vec2::new(530, 600), 20, &mut inside);
    assert!(ids(&inside).contains(&0));
}

#[test]
fn clear_empties_every_node_and_keeps_the_shape() {
    let mut t = CollisionQuadtree::new(0, world());
    for i in 0..100usize {
        t.insert(body(i, 100 + (i as i64) * 3, 100, 1));
    }
    assert!(t.is_split);
    t.clear();
    assert!(t.is_split);
    let mut out = Vec::new();
    t.retrieve(Vec2::new(150, 100), 10, &mut out);
    assert!(out.is_empty());
    t.insert(body(7, 150, 100, 1));
    t.retrieve(Vec2::new(150, 100), 10, &mut out);
    assert_eq!(ids(&out), vec![7]);
}

#[test]
fn deepest_level_keeps_growing_past_capacity() {
    let mut t = CollisionQuadtree::new(6, world());
    for i in 0..100usize {
        t.insert(body(i, 100, 100, 1));
    }
    assert!(!t.is_split);
    assert_eq!(t.entities.len(), 100);
}

#[test]
fn odd_extents_give_the_extra_unit_to_the_upper_right() {
    let mut t = CollisionQuadtree::new(0, Rectangle2D { x: 0, y: 0, width: 11, height: 7 });
    for i in 0..=CQT_MAX_OBJECTS_PER_NODE {
        t.insert(body(i, 1, 1, 0));
    }
    assert_eq!(t.nodes[0].bounds, Rectangle2D { x: 5, y: 3, width: 6, height: 4 });
    assert_eq!(t.nodes[2].bounds, Rectangle2D { x: 0, y: 0, width: 5, height: 3 });
}

fn big_world() -> Rectangle2D {
    Rectangle2D { x: 0, y: 0, width: 32768, height: 32768 }
}

#[test]
fn sixty_records_stay_and_the_sixty_first_splits_the_node() {
    let mut t = CollisionQuadtree::new(0, big_world());
    for i in 0..60 {
        t.insert(body(i, 1000, 1000, 1));
    }
    assert!(!t.is_split);
    assert_eq!(t.entities.len(), 60);
    t.insert(body(60, 1000, 1000, 1));
    assert!(t.is_split);
    assert_eq!(t.nodes.len(), 4);
    assert!(t.entities.is_empty());
    let mut below = Vec::new();
    t.nodes[2].retrieve(Vec2::new(1000, 1000), 1, &mut below);
    assert_eq!(below.len(), 61);
}

#[test]
fn wide_query_across_the_root_midlines_misses_the_split_records() {
    let mut t = CollisionQuadtree::new(0, big_world());
    for i in 0..61 {
        t.insert(body(i, 1000, 1000, 1));
    }
    let mut out = Vec::new();
    t.retrieve(Vec2::new(1000, 1000), 16000, &mut out);
    assert!(out.is_empty());
}

fn same_shape(a: &CollisionQuadtree, b: &CollisionQuadtree) -> bool {
    a.level == b.level
        && a.bounds == b.bounds
        && a.is_split == b.is_split
        && a.nodes.len() == b.nodes.len()
        && a.nodes.iter().zip(b.nodes.iter()).all(|(x, y)| same_shape(x, y))
}

fn snapshot(t: &CollisionQuadtree) -> CollisionQuadtree {
    let mut c = CollisionQuadtree::new(t.level, t.bounds);
    c.is_split = t.is_split;
    c.nodes = t.nodes.iter().map(snapshot).collect();
    c
}

#[test]
fn clear_keeps_the_shape_of_every_node() {
    let mut t = CollisionQuadtree::new(0, world());
    for i in 0..300usize {
        t.insert(body(i, 10 + ((i * 37) % 480) as i64, 10 + ((i * 53) % 480) as i64, 1));
    }
    let before = snapshot(&t);
    assert!(t.nodes[2].is_split);
    t.clear();
    assert!(same_shape(&t, &before));
}
