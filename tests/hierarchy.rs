use rabex_env::prune::{prune_plan, PruneError};
use rabex_env::reach::{reachable, ObjectPtr, ReachError};
use rabex_env::scene::{PathLookup, SceneError, SceneLookup, TransformNode};

fn node(path_id: i64, game_object: i64, name: &str, father: Option<i64>, children: &[i64]) -> TransformNode {
    TransformNode { path_id, game_object, name: name.to_string(), father, children: children.to_vec() }
}

fn enemy_scene(second_enemy: bool) -> SceneLookup {
    let mut nodes = vec![
        node(1, 101, "Enemy", None, &[2]),
        node(2, 102, "Spawner", Some(1), &[3, 4]),
        node(3, 103, "Point", Some(2), &[]),
        node(4, 104, "Point", Some(2), &[]),
    ];
    if second_enemy {
        nodes.push(node(5, 105, "Enemy", None, &[]));
    }
    SceneLookup::new(nodes).ok().unwrap()
}

#[test]
fn scene_path_resolves_to_leaf() {
    let s = enemy_scene(false);
    assert_eq!(s.lookup_path("Enemy/Spawner"), PathLookup::Found(2));
    assert_eq!(s.lookup_path("Enemy"), PathLookup::Found(1));
    assert_eq!(s.roots(), vec![1]);
}

#[test]
fn scene_path_with_duplicate_leaves_picks_last() {
    let s = enemy_scene(false);
    assert_eq!(s.lookup_path("Enemy/Spawner/Point"), PathLookup::Found(4));
}

#[test]
fn scene_path_missing_segment_is_not_found() {
    let s = enemy_scene(false);
    assert_eq!(s.lookup_path("Enemy/Missing"), PathLookup::NotFound);
    assert_eq!(s.lookup_path("Nobody"), PathLookup::NotFound);
    assert_eq!(s.lookup_path("Enemy/Spawner/Point/Deeper"), PathLookup::NotFound);
}

#[test]
fn scene_path_with_ambiguous_root() {
    let s = enemy_scene(true);
    assert_eq!(s.lookup_path("Enemy/Spawner/Point"), PathLookup::Ambiguous);
    assert_eq!(s.lookup_path("Enemy"), PathLookup::Ambiguous);
}

#[test]
fn scene_index_errors() {
    let dup = SceneLookup::new(vec![node(1, 9, "A", None, &[]), node(1, 8, "B", None, &[])]);
    assert!(matches!(dup, Err(SceneError::DuplicatePathId(1))));
    let missing = SceneLookup::new(vec![node(1, 9, "A", None, &[7])]);
    assert!(matches!(missing, Err(SceneError::MissingChild(7))));
}

fn local(p: i64) -> ObjectPtr {
    ObjectPtr { file_id: 0, path_id: p }
}

fn graph(id: i64) -> Result<Vec<ObjectPtr>, String> {
    match id {
        1 => Ok(vec![local(2), ObjectPtr { file_id: 1, path_id: 50 }]),
        2 => Ok(vec![local(3), local(1), ObjectPtr { file_id: 1, path_id: 50 }]),
        3 => Ok(vec![]),
        4 => Ok(vec![local(3)]),
        5 => Ok(vec![local(99)]),
        6 => Err("bad type tree".to_string()),
        _ => Ok(vec![]),
    }
}

#[test]
fn reachability_stays_in_the_file_and_records_boundary() {
    let objects = vec![1, 2, 3, 4, 5, 6];
    let r = reachable(&objects, &vec![1], graph).ok().unwrap();
    let mut locals = r.locals.clone();
    locals.sort();
    assert_eq!(locals, vec![1, 2, 3]);
    assert_eq!(r.externals, vec![ObjectPtr { file_id: 1, path_id: 50 }]);
    assert!(!r.locals.contains(&4));
}

#[test]
fn reachability_errors() {
    let objects = vec![1, 2, 3, 4, 5, 6];
    assert!(matches!(reachable(&objects, &vec![5], graph), Err(ReachError::MissingObject(99))));
    assert!(matches!(reachable(&objects, &vec![7], graph), Err(ReachError::MissingObject(7))));
    assert!(matches!(reachable(&objects, &vec![6], graph), Err(ReachError::Scan(e)) if e == "bad type tree"));
}

#[test]
fn pointer_kinds() {
    assert!(local(0).is_null());
    assert!(!local(3).is_null());
    assert!(local(3).is_local());
    assert_eq!(ObjectPtr { file_id: 2, path_id: 3 }.externals_index(), Some(1));
    assert_eq!(local(3).externals_index(), None);
}

#[test]
fn pruning_rewrites_ancestor_children() {
    // Root -> A, B; A -> A1. Only A is kept.
    let s = SceneLookup::new(vec![
        node(10, 110, "Root", None, &[11, 12]),
        node(11, 111, "A", Some(10), &[13]),
        node(12, 112, "B", Some(10), &[]),
        node(13, 113, "A1", Some(11), &[]),
    ])
    .ok()
    .unwrap();
    let reach = vec![11, 111, 13, 113];
    let plan = prune_plan(&s, &reach, &vec![11], &vec![500], true).ok().unwrap();
    assert_eq!(plan.rewritten, vec![(10, vec![11])]);
    let mut kept = plan.reachable.clone();
    kept.sort();
    assert_eq!(kept, vec![10, 11, 13, 110, 111, 113, 500]);
    assert!(!plan.reachable.contains(&12));
    assert_eq!(plan.disabled, vec![111]);
    let plain = prune_plan(&s, &reach, &vec![11], &vec![], false).ok().unwrap();
    assert!(plain.disabled.is_empty());
}

#[test]
fn pruning_unknown_transform() {
    let s = enemy_scene(false);
    assert!(matches!(prune_plan(&s, &vec![], &vec![42], &vec![], false), Err(PruneError::MissingTransform(42))));
}

#[test]
fn transform_path_is_root_first() {
    let s = enemy_scene(false);
    assert_eq!(s.path_of(3), Some("Enemy/Spawner/Point".to_string()));
    assert_eq!(s.path_of(1), Some("Enemy".to_string()));
    assert_eq!(s.path_of(99), None);
    let cyclic = SceneLookup::new(vec![node(1, 9, "A", Some(2), &[2]), node(2, 8, "B", Some(1), &[1])]).ok().unwrap();
    assert_eq!(cyclic.path_of(1), None);
}
