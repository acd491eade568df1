use spacecraft::face::Face;
use spacecraft::quad_tree::QuadTree;
use spacecraft::terrain::TerrainNode;

fn one_level_tree() -> QuadTree<TerrainNode> {
    QuadTree::new(1, 0, TerrainNode::root(Face::Top, 1))
}

#[test]
fn should_split_quadtree() {
    let mut quad_tree = one_level_tree();
    quad_tree.split(0);

    assert!(quad_tree.has_children(0));
    let children = quad_tree.children(0).unwrap();
    assert_eq!(quad_tree.parent(children[0]), Some(0));
    assert_eq!(quad_tree.parent(children[1]), Some(0));
    assert_eq!(quad_tree.parent(children[2]), Some(0));
    assert_eq!(quad_tree.parent(children[3]), Some(0));
}

#[test]
fn should_merge_quadtree() {
    let mut quad_tree = one_level_tree();
    quad_tree.split(0);
    quad_tree.merge(0);

    assert!(!quad_tree.has_children(0));
}

#[test]
fn split_at_max_depth_is_refused() {
    let mut quad_tree: QuadTree<TerrainNode> = QuadTree::new(0, 0, TerrainNode::root(Face::Back, 1));
    assert!(!quad_tree.split(0));
    assert!(!quad_tree.has_children(0));
    assert_eq!(quad_tree.len(), 1);

    let mut deeper = one_level_tree();
    assert!(deeper.split(0));
    let children = deeper.children(0).unwrap();
    assert!(!deeper.split(children[2]));
    assert_eq!(deeper.len(), 5);
}

#[test]
fn split_twice_is_refused() {
    let mut quad_tree = one_level_tree();
    assert!(quad_tree.split(0));
    assert!(!quad_tree.split(0));
    assert_eq!(quad_tree.len(), 5);
}

#[test]
fn split_then_merge_keeps_the_node() {
    let mut quad_tree = one_level_tree();
    let before = *quad_tree.node(0);
    assert!(quad_tree.split(0));
    assert_eq!(quad_tree.merge(0), Some([1, 2, 3, 4]));
    assert_eq!(*quad_tree.node(0), before);
    assert_eq!(quad_tree.level(0), 0);
    assert_eq!(quad_tree.parent(0), None);
    assert_eq!(quad_tree.merge(0), None);
}

#[test]
fn children_stand_one_level_deeper() {
    let mut quad_tree = one_level_tree();
    quad_tree.split(0);
    for c in quad_tree.children(0).unwrap() {
        assert_eq!(quad_tree.level(c), 1);
        assert!(!quad_tree.has_children(c));
    }
}

#[test]
fn merged_children_are_detached() {
    let mut quad_tree = one_level_tree();
    quad_tree.split(0);
    assert!(quad_tree.is_attached(0));
    assert!(quad_tree.is_attached(3));
    quad_tree.merge(0);
    assert!(quad_tree.is_attached(0));
    assert!(!quad_tree.is_attached(3));
    assert!(!quad_tree.is_attached(17));
    quad_tree.split(0);
    assert!(quad_tree.is_attached(5));
    assert!(!quad_tree.is_attached(1));
}

#[test]
fn descendants_are_listed_depth_first() {
    let mut quad_tree: QuadTree<TerrainNode> = QuadTree::new(2, 0, TerrainNode::root(Face::Left, 1));
    quad_tree.split(0);
    quad_tree.split(2);
    let mut out = Vec::new();
    quad_tree.collect_descendants(0, &mut out);
    assert_eq!(out, vec![1, 2, 5, 6, 7, 8, 3, 4]);
    let mut leaf = vec![42];
    quad_tree.collect_descendants(1, &mut leaf);
    assert_eq!(leaf, vec![42]);
}
