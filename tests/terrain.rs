use spacecraft::face::{Face, Point3, CUBE_HALF};
use spacecraft::quad_tree::{QuadTree, Quadrant, Splittable};
use spacecraft::terrain::{is_near, threshold, TerrainNode, MAX_DEPTH, ROOT_LENGTH};

#[test]
fn face_vectors() {
    assert_eq!(Face::Top.direction_vector(), Point3::new(0, 1, 0));
    assert_eq!(Face::Front.direction_vector(), Point3::new(0, 0, -1));
    assert_eq!(Face::Left.direction_vector(), Point3::new(-1, 0, 0));
    assert_eq!(
        Face::Bottom.perpendicular_vectors(),
        (Point3::new(1, 0, 0), Point3::new(0, 0, -1))
    );
    assert_eq!(
        Face::Back.perpendicular_vectors(),
        (Point3::new(1, 0, 0), Point3::new(0, -1, 0))
    );
}

#[test]
fn root_patch_covers_the_face() {
    let root = TerrainNode::root(Face::Right, 5);
    assert_eq!(root.center, Point3::new(CUBE_HALF, 0, 0));
    assert_eq!(root.length, ROOT_LENGTH);
    assert_eq!(root.scale, 5);
    assert_eq!(root.entity, None);
}

#[test]
fn child_centers_and_lengths() {
    let root = TerrainNode::root(Face::Top, 1);
    let quarter = ROOT_LENGTH / 4;
    let tl = root.split(Quadrant::TopLeft, 1);
    assert_eq!(tl.center, Point3::new(-quarter, CUBE_HALF, quarter));
    assert_eq!(tl.length * 2, root.length);
    assert_eq!(tl.face, Face::Top);
    let br = root.split(Quadrant::BottomRight, 1);
    assert_eq!(br.center, Point3::new(quarter, CUBE_HALF, -quarter));

    let bottom = TerrainNode::root(Face::Bottom, 1);
    let tr = bottom.split(Quadrant::TopRight, 1);
    assert_eq!(tr.center, Point3::new(quarter, -CUBE_HALF, -quarter));

    let grandchild = tl.split(Quadrant::TopRight, 2);
    assert_eq!(grandchild.length * 4, root.length);
    assert_eq!(grandchild.center, Point3::new(-quarter + quarter / 2, CUBE_HALF, quarter + quarter / 2));
}

#[test]
fn child_center_does_not_depend_on_order() {
    let root = TerrainNode::root(Face::Front, 3);
    let first = root.split(Quadrant::BottomLeft, 1);
    let _ = root.split(Quadrant::TopRight, 1);
    let _ = root.split(Quadrant::TopLeft, 1);
    let again = root.split(Quadrant::BottomLeft, 1);
    assert_eq!(first, again);
}

#[test]
fn lengths_halve_at_every_depth() {
    let mut tree: QuadTree<TerrainNode> = QuadTree::new(3, 0, TerrainNode::root(Face::Back, 2));
    let mut node = 0;
    for _ in 0..3 {
        assert!(tree.split(node));
        let children = tree.children(node).unwrap();
        for c in children {
            assert_eq!(tree.node(c).length * 2, tree.node(node).length);
        }
        node = children[1];
    }
}

#[test]
fn threshold_values() {
    assert_eq!(threshold(0), 7 * CUBE_HALF);
    assert_eq!(threshold(1), 7 * CUBE_HALF / 2);
    assert_eq!(threshold(MAX_DEPTH), 7);
}

#[test]
fn threshold_strictly_decreases() {
    for level in 0..MAX_DEPTH {
        assert!(threshold(level + 1) < threshold(level));
    }
}

#[test]
fn nearness_uses_the_level_threshold() {
    let root = TerrainNode::root(Face::Top, 1);
    let limit = threshold(0);
    assert!(is_near(Point3::new(0, CUBE_HALF, 0), &root, 0));
    assert!(is_near(Point3::new(0, CUBE_HALF + limit, 0), &root, 0));
    assert!(!is_near(Point3::new(0, CUBE_HALF + limit + 1, 0), &root, 0));
    assert!(!is_near(Point3::new(i64::MIN, i64::MAX, 0), &root, 0));
    let deepest = TerrainNode { length: 2, ..root };
    assert!(is_near(Point3::new(3, CUBE_HALF + 4, 0), &deepest, MAX_DEPTH));
    assert!(!is_near(Point3::new(5, CUBE_HALF + 5, 0), &deepest, MAX_DEPTH));
}
