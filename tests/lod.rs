use spacecraft::face::{Face, Point3, CUBE_HALF};
use spacecraft::mesh_queue::{MeshComputer, MeshRequest, MeshRequestKind, ScheduleError};
use spacecraft::planet::{MeshAction, Planet};
use spacecraft::terrain_quad_tree::TerrainQuadTree;
use spacecraft::{SpaceCraftPlugin, MESH_SIZE};

fn request(kind: MeshRequestKind, node: usize) -> MeshRequest {
    MeshRequest { kind, face: Face::Top, node, scale: 1 }
}

fn count(requests: &[MeshRequest], kind: MeshRequestKind) -> usize {
    requests.iter().filter(|r| r.kind == kind).count()
}

#[test]
fn queue_drains_in_schedule_order() {
    let mut queue = MeshComputer::with_capacity(10);
    let sent: Vec<MeshRequest> = (0..7)
        .map(|i| request(if i % 2 == 0 { MeshRequestKind::Create } else { MeshRequestKind::Remove }, i))
        .collect();
    for r in &sent {
        assert_eq!(queue.schedule(*r), Ok(()));
    }
    assert_eq!(queue.len(), 7);
    assert_eq!(queue.drain(), sent);
    assert_eq!(queue.len(), 0);
    assert_eq!(queue.drain(), Vec::new());
}

#[test]
fn full_queue_hands_the_request_back() {
    let mut queue = MeshComputer::with_capacity(2);
    assert_eq!(queue.schedule(request(MeshRequestKind::Create, 1)), Ok(()));
    assert_eq!(queue.room(), 1);
    assert_eq!(queue.schedule(request(MeshRequestKind::Create, 2)), Ok(()));
    assert_eq!(queue.room(), 0);
    let third = request(MeshRequestKind::Remove, 3);
    assert_eq!(queue.schedule(third), Err(ScheduleError::Full(third)));
    assert_eq!(queue.len(), 2);
    assert_eq!(
        queue.drain(),
        vec![request(MeshRequestKind::Create, 1), request(MeshRequestKind::Create, 2)]
    );
    assert_eq!(queue.schedule(third), Ok(()));
}

#[test]
fn single_slot_queue() {
    let mut queue = MeshComputer::with_capacity(1);
    assert_eq!(queue.capacity(), 1);
    assert_eq!(queue.schedule(request(MeshRequestKind::Create, 0)), Ok(()));
    let second = request(MeshRequestKind::Create, 9);
    assert_eq!(queue.schedule(second), Err(ScheduleError::Full(second)));
}

#[test]
fn default_queue_capacity() {
    let queue = MeshComputer::default();
    assert_eq!(queue.capacity(), 1000);
    assert_eq!(queue.len(), 0);
}

#[test]
fn camera_at_face_center_splits_two_levels() {
    let mut tree = TerrainQuadTree::new(2, 1, Face::Top);
    let mut queue = MeshComputer::default();
    tree.update(Point3::new(0, CUBE_HALF, 0), &mut queue);

    let requests = queue.drain();
    assert!(tree.quad_tree.has_children(0));
    let children = tree.quad_tree.children(0).unwrap();
    assert!(children.iter().any(|c| tree.quad_tree.has_children(*c)));
    assert_eq!(count(&requests, MeshRequestKind::Remove), 0);

    let depth_one: Vec<&MeshRequest> =
        requests.iter().filter(|r| tree.quad_tree.level(r.node) == 1).collect();
    let depth_two: Vec<&MeshRequest> =
        requests.iter().filter(|r| tree.quad_tree.level(r.node) == 2).collect();
    assert_eq!(depth_one.len(), 4);
    assert_eq!(depth_two.len(), 16);
    assert_eq!(requests.len(), 20);
    assert_eq!(requests[0], request(MeshRequestKind::Create, 1));
    assert_eq!(requests[4], request(MeshRequestKind::Create, 5));
    for r in &requests {
        assert_eq!(r.face, Face::Top);
        assert_eq!(r.kind, MeshRequestKind::Create);
    }
}

#[test]
fn camera_far_away_merges_back_to_the_root() {
    let mut tree = TerrainQuadTree::new(2, 1, Face::Top);
    let mut queue = MeshComputer::default();
    tree.update(Point3::new(0, CUBE_HALF, 0), &mut queue);
    let created = count(&queue.drain(), MeshRequestKind::Create);
    assert_eq!(created, 20);

    tree.update(Point3::new(0, 100 * CUBE_HALF, 0), &mut queue);
    let requests = queue.drain();
    assert!(!tree.quad_tree.has_children(0));
    assert_eq!(count(&requests, MeshRequestKind::Remove), created);
    assert_eq!(count(&requests, MeshRequestKind::Create), 0);
}

#[test]
fn far_camera_leaves_a_leaf_alone() {
    let mut tree = TerrainQuadTree::new(4, 1, Face::Front);
    let mut queue = MeshComputer::default();
    tree.update(Point3::new(0, 0, 100 * CUBE_HALF), &mut queue);
    assert!(!tree.quad_tree.has_children(0));
    assert_eq!(queue.len(), 0);
}

#[test]
fn no_split_without_room_in_the_queue() {
    let mut tree = TerrainQuadTree::new(2, 1, Face::Top);
    let mut queue = MeshComputer::with_capacity(3);
    tree.update(Point3::new(0, CUBE_HALF, 0), &mut queue);
    assert!(!tree.quad_tree.has_children(0));
    assert_eq!(queue.len(), 0);

    let mut roomy = MeshComputer::with_capacity(4);
    tree.update(Point3::new(0, CUBE_HALF, 0), &mut roomy);
    assert!(tree.quad_tree.has_children(0));
    assert_eq!(roomy.len(), 4);
}

#[test]
fn no_merge_without_room_in_the_queue() {
    let mut tree = TerrainQuadTree::new(1, 1, Face::Top);
    let mut queue = MeshComputer::with_capacity(4);
    tree.update(Point3::new(0, CUBE_HALF, 0), &mut queue);
    assert!(tree.quad_tree.has_children(0));
    tree.update(Point3::new(0, 100 * CUBE_HALF, 0), &mut queue);
    assert!(tree.quad_tree.has_children(0));
    queue.drain();
    tree.update(Point3::new(0, 100 * CUBE_HALF, 0), &mut queue);
    assert!(!tree.quad_tree.has_children(0));
    assert_eq!(queue.len(), 4);
}

#[test]
fn planet_queues_its_six_roots() {
    let mut queue = MeshComputer::default();
    let planet = Planet::new(3, 8, &mut queue);
    let requests = queue.drain();
    let faces: Vec<Face> = requests.iter().map(|r| r.face).collect();
    assert_eq!(
        faces,
        vec![Face::Back, Face::Front, Face::Left, Face::Right, Face::Top, Face::Bottom]
    );
    for r in &requests {
        assert_eq!(*r, MeshRequest { kind: MeshRequestKind::Create, face: r.face, node: 0, scale: 8 });
    }
    let actions = planet.plan(&requests);
    assert_eq!(actions.len(), 6);
    assert_eq!(
        actions[0],
        MeshAction::Build {
            face: Face::Back,
            node: 0,
            parent: None,
            center: Point3::new(0, 0, CUBE_HALF),
            length: 2 * CUBE_HALF,
            scale: 8
        }
    );
}

#[test]
fn stale_creation_is_skipped_and_removal_reveals_the_parent() {
    let mut queue = MeshComputer::default();
    let mut planet = Planet::new(1, 1, &mut queue);
    let roots = planet.compute_meshes(&mut queue);
    assert_eq!(roots.len(), 6);
    planet.attach_entity(Face::Top, 0, 77);
    assert_eq!(planet.entity(Face::Top, 0), Some(77));
    assert_eq!(planet.entity(Face::Top, 9), None);

    planet.update(Point3::new(0, CUBE_HALF, 0), &mut queue);
    assert!(planet.side(Face::Top).quad_tree.has_children(0));
    planet.update(Point3::new(0, 100 * CUBE_HALF, 0), &mut queue);
    assert!(!planet.side(Face::Top).quad_tree.has_children(0));

    let actions = planet.compute_meshes(&mut queue);
    assert_eq!(queue.len(), 0);
    assert!(actions.iter().all(|a| matches!(a, MeshAction::Teardown { .. })));
    let top: Vec<&MeshAction> = actions
        .iter()
        .filter(|a| matches!(a, MeshAction::Teardown { face: Face::Top, .. }))
        .collect();
    assert_eq!(top.len(), 4);
    for (k, a) in top.iter().enumerate() {
        assert_eq!(**a, MeshAction::Teardown { face: Face::Top, node: k + 1, reveal: Some(0) });
    }
}

#[test]
fn built_children_name_their_parent() {
    let mut queue = MeshComputer::default();
    let mut planet = Planet::new(2, 1, &mut queue);
    queue.drain();
    planet.update(Point3::new(CUBE_HALF, 0, 0), &mut queue);
    let actions = planet.compute_meshes(&mut queue);
    assert!(!actions.is_empty());
    for a in &actions {
        match a {
            MeshAction::Build { parent, .. } => assert!(parent.is_some()),
            MeshAction::Teardown { .. } => panic!("nothing was merged"),
        }
    }
    assert!(actions.iter().any(|a| matches!(a, MeshAction::Build { face: Face::Right, node: 1, parent: Some(0), .. })));
}

#[test]
fn plugin_scale_and_setup() {
    assert_eq!(SpaceCraftPlugin::planet_scale(1), MESH_SIZE);
    assert_eq!(SpaceCraftPlugin::planet_scale(10), 8192);
    let mut queue = MeshComputer::default();
    let _planet = SpaceCraftPlugin::setup(&mut queue);
    assert_eq!(queue.len(), 6);
}
