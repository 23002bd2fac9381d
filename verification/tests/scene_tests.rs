use gloom_rs::scene::{build_helicopter_scene, DrawCall, HelicopterScene, SceneGraph, Visit};

fn dc(vao_id: u32, index_count: i32) -> DrawCall {
    DrawCall { vao_id, index_count }
}

#[test]
fn walk_of_the_helicopter_scene() {
    let (g, ids) = build_helicopter_scene(dc(1, 600), dc(2, 300), dc(3, 30), dc(4, 60), dc(5, 9));
    assert_eq!(
        ids,
        HelicopterScene { root: 0, terrain: 1, body: 2, door: 3, main_rotor: 4, tail_rotor: 5 }
    );
    assert_eq!(g.len(), 6);
    let walk = g.draw_walk(ids.root).unwrap();
    let expected = vec![
        Visit::Enter { node: 0, draw: None },
        Visit::Enter { node: 1, draw: Some(dc(1, 600)) },
        Visit::Enter { node: 2, draw: Some(dc(2, 300)) },
        Visit::Enter { node: 3, draw: Some(dc(3, 30)) },
        Visit::Leave { node: 3 },
        Visit::Enter { node: 4, draw: Some(dc(4, 60)) },
        Visit::Leave { node: 4 },
        Visit::Enter { node: 5, draw: Some(dc(5, 9)) },
        Visit::Leave { node: 5 },
        Visit::Leave { node: 2 },
        Visit::Leave { node: 1 },
        Visit::Leave { node: 0 },
    ];
    assert_eq!(walk, expected);
}

#[test]
fn node_without_indices_is_not_drawn() {
    let mut g = SceneGraph::new();
    let a = g.add_node(7, 0);
    let b = g.add_node(8, -1);
    let c = g.add_node(9, 1);
    g.add_child(a, b);
    g.add_child(b, c);
    let walk = g.draw_walk(a).unwrap();
    assert_eq!(
        walk,
        vec![
            Visit::Enter { node: 0, draw: None },
            Visit::Enter { node: 1, draw: None },
            Visit::Enter { node: 2, draw: Some(dc(9, 1)) },
            Visit::Leave { node: 2 },
            Visit::Leave { node: 1 },
            Visit::Leave { node: 0 },
        ]
    );
}

#[test]
fn walk_from_inner_node_covers_only_its_subtree() {
    let (g, ids) = build_helicopter_scene(dc(1, 6), dc(2, 3), dc(3, 3), dc(4, 3), dc(5, 3));
    let walk = g.draw_walk(ids.main_rotor).unwrap();
    assert_eq!(walk, vec![Visit::Enter { node: 4, draw: Some(dc(4, 3)) }, Visit::Leave { node: 4 }]);
}

#[test]
fn shared_child_is_walked_under_each_parent() {
    let mut g = SceneGraph::new();
    let a = g.add_node(1, 3);
    let b = g.add_node(2, 3);
    let c = g.add_node(3, 3);
    g.add_child(a, c);
    g.add_child(a, b);
    g.add_child(b, c);
    let walk = g.draw_walk(a).unwrap();
    assert_eq!(walk.len(), 8);
    assert_eq!(walk[1], Visit::Enter { node: 2, draw: Some(dc(3, 3)) });
    assert_eq!(walk[4], Visit::Enter { node: 2, draw: Some(dc(3, 3)) });
}

#[test]
fn cycle_gives_no_walk() {
    let mut g = SceneGraph::new();
    let a = g.add_node(1, 3);
    let b = g.add_node(2, 3);
    g.add_child(a, b);
    g.add_child(b, a);
    assert_eq!(g.draw_walk(a), None);
}

#[test]
fn self_loop_gives_no_walk() {
    let mut g = SceneGraph::new();
    let a = g.add_node(1, 3);
    g.add_child(a, a);
    assert_eq!(g.draw_walk(a), None);
}

#[test]
fn children_and_draw_call_getters() {
    let (g, ids) = build_helicopter_scene(dc(1, 6), dc(2, 3), dc(3, 3), dc(4, 3), dc(5, 3));
    assert_eq!(g.children(ids.body).clone(), vec![3, 4, 5]);
    assert_eq!(g.draw_call(ids.terrain), (1, 6));
    assert_eq!(g.draw_call(ids.root), (0, -1));
}

#[test]
fn every_leave_closes_the_latest_open_node() {
    let mut g = SceneGraph::new();
    let a = g.add_node(1, 3);
    let b = g.add_node(2, 3);
    let c = g.add_node(3, 0);
    let d = g.add_node(4, 3);
    g.add_child(a, b);
    g.add_child(b, c);
    g.add_child(a, d);
    g.add_child(c, d);
    let walk = g.draw_walk(a).unwrap();
    let mut open: Vec<usize> = Vec::new();
    for v in walk.iter() {
        match *v {
            Visit::Enter { node, .. } => open.push(node),
            Visit::Leave { node } => assert_eq!(open.pop(), Some(node)),
        }
    }
    assert!(open.is_empty());
}
