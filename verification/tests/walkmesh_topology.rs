use aurora_forge::error::EditError;
use aurora_forge::resource::WalkmeshKind;
use aurora_forge::walkmesh_topology::{
    compact_vertex_indices, edge_issues, extrude_face, face_issues, face_vertices, remove_face,
    set_surface, split_face, weld_faces, check_walkmesh_kind, hook_only_walkmesh, walkmesh_part_name_ok, WalkmeshIssue, WalkmeshTopology,
};

fn square() -> WalkmeshTopology {
    WalkmeshTopology { vertex_count: 4, faces: vec![[0, 1, 2], [0, 2, 3]], surface_ids: vec![3, 4] }
}

#[test]
fn a_consistent_square_has_no_issue() {
    let topology = square();
    assert!(face_issues(4, &topology.faces, &vec![false, false]).is_empty());
    assert!(edge_issues(4, &topology.faces).is_empty());
}

#[test]
fn faces_are_checked_in_order() {
    let faces = vec![[0, 1, 2], [2, 1, 0], [0, 0, 1], [0, 1, 9], [1, 2, 0]];
    let issues = face_issues(3, &faces, &vec![false, true, false, false, false]);
    assert_eq!(
        issues,
        vec![
            WalkmeshIssue::FaceDuplicate { face: 1 },
            WalkmeshIssue::FaceZeroArea { face: 1 },
            WalkmeshIssue::FaceDegenerate { face: 2 },
            WalkmeshIssue::FaceVertexMissing { face: 3 },
            WalkmeshIssue::FaceDuplicate { face: 4 },
        ]
    );
}

#[test]
fn edges_shared_badly_are_reported_in_vertex_order() {
    let same_way = vec![[0, 1, 2], [0, 1, 3]];
    assert_eq!(
        edge_issues(4, &same_way),
        vec![WalkmeshIssue::EdgeOrientation { from: 0, to: 1 }]
    );
    let fan = vec![[0, 1, 2], [1, 0, 3], [0, 1, 4], [5, 3, 4], [3, 4, 6]];
    assert_eq!(
        edge_issues(7, &fan),
        vec![
            WalkmeshIssue::EdgeNonManifold { from: 0, to: 1, faces: 3 },
            WalkmeshIssue::EdgeOrientation { from: 3, to: 4 },
        ]
    );
    assert!(edge_issues(2, &vec![[0, 1, 2], [0, 1, 3]]).is_empty());
}

#[test]
fn splitting_a_face_joins_its_edges_to_the_centre() {
    let mut topology = square();
    assert_eq!(face_vertices(&topology, 1), Ok([0, 2, 3]));
    split_face(&mut topology, 1, 4);
    assert_eq!(topology.vertex_count, 5);
    assert_eq!(topology.faces, vec![[0, 1, 2], [0, 2, 4], [2, 3, 4], [3, 0, 4]]);
    assert_eq!(topology.surface_ids, vec![3, 4, 4, 4]);
    assert!(edge_issues(5, &topology.faces).is_empty());
}

#[test]
fn extruding_adds_seven_faces() {
    let mut topology = WalkmeshTopology { vertex_count: 3, faces: vec![[0, 1, 2]], surface_ids: Vec::new() };
    extrude_face(&mut topology, 0, 3);
    assert_eq!(topology.vertex_count, 6);
    assert_eq!(topology.faces.len(), 8);
    assert_eq!(topology.faces[1], [5, 4, 3]);
    assert_eq!(topology.faces[7], [0, 5, 3]);
    assert!(topology.surface_ids.is_empty());
    let mut surfaced = WalkmeshTopology { vertex_count: 3, faces: vec![[0, 1, 2]], surface_ids: vec![9] };
    extrude_face(&mut surfaced, 0, 3);
    assert_eq!(surfaced.surface_ids, vec![9; 8]);
}

#[test]
fn removing_a_face_drops_its_unused_vertices() {
    let mut topology = square();
    let kept = remove_face(&mut topology, 0).expect("removed");
    assert_eq!(kept, vec![0, 2, 3]);
    assert_eq!(topology.vertex_count, 3);
    assert_eq!(topology.faces, vec![[0, 1, 2]]);
    assert_eq!(topology.surface_ids, vec![4]);
    assert_eq!(remove_face(&mut topology, 5), Err(EditError::WalkmeshFaceNotFound));
}

#[test]
fn compaction_renumbers_used_vertices_in_order() {
    let (kept, faces) = compact_vertex_indices(6, &vec![[5, 1, 3], [3, 1, 5]]);
    assert_eq!(kept, vec![1, 3, 5]);
    assert_eq!(faces, vec![[2, 0, 1], [1, 0, 2]]);
}

#[test]
fn setting_a_surface_records_one_per_face() {
    let mut topology = WalkmeshTopology { vertex_count: 4, faces: vec![[0, 1, 2], [0, 2, 3]], surface_ids: Vec::new() };
    set_surface(&mut topology, 1, 7).expect("set");
    assert_eq!(topology.surface_ids, vec![0, 7]);
    assert_eq!(set_surface(&mut topology, 2, 1), Err(EditError::WalkmeshFaceNotFound));
}

#[test]
fn faces_that_name_missing_vertices_are_refused() {
    let topology = WalkmeshTopology { vertex_count: 2, faces: vec![[0, 1, 2]], surface_ids: Vec::new() };
    assert_eq!(face_vertices(&topology, 0), Err(EditError::WalkmeshFaceInvalid));
    assert_eq!(face_vertices(&topology, 1), Err(EditError::WalkmeshFaceNotFound));
}

#[test]
fn welding_merges_vertices_and_drops_collapsed_faces() {
    let mut topology = WalkmeshTopology {
        vertex_count: 5,
        faces: vec![[0, 1, 2], [1, 3, 2], [2, 3, 4]],
        surface_ids: vec![1],
    };
    let kept = weld_faces(&mut topology, &vec![0, 1, 2, 1, 3], 4).expect("welded");
    assert_eq!(kept, vec![0, 1, 2, 3]);
    assert_eq!(topology.faces, vec![[0, 1, 2], [2, 1, 3]]);
    assert_eq!(topology.surface_ids, vec![1, 0]);
    let mut broken = WalkmeshTopology { vertex_count: 3, faces: vec![[0, 1, 7]], surface_ids: Vec::new() };
    assert_eq!(weld_faces(&mut broken, &vec![0, 1, 2], 3), Err(EditError::WalkmeshFaceInvalid));
    assert_eq!(broken.faces, vec![[0, 1, 7]]);
}

#[test]
fn applies_all_lot20_topology_operations_with_validation() {
    let square = || WalkmeshTopology { vertex_count: 4, faces: vec![[0, 1, 2], [0, 2, 3]], surface_ids: vec![1, 1] };

    let mut split = square();
    split_face(&mut split, 0, 4);
    assert_eq!((split.vertex_count, split.faces.len()), (5, 4));
    assert!(edge_issues(split.vertex_count, &split.faces).is_empty());

    let mut removed = square();
    remove_face(&mut removed, 1).expect("remove");
    assert_eq!((removed.vertex_count, removed.faces.len()), (3, 1));
    assert!(edge_issues(removed.vertex_count, &removed.faces).is_empty());

    let mut extruded = WalkmeshTopology { vertex_count: 3, faces: vec![[0, 1, 2]], surface_ids: vec![3] };
    extrude_face(&mut extruded, 0, 3);
    assert_eq!((extruded.vertex_count, extruded.faces.len()), (6, 8));

    let mut welded = WalkmeshTopology { vertex_count: 4, faces: vec![[0, 1, 2], [0, 3, 2]], surface_ids: vec![4, 4] };
    weld_faces(&mut welded, &vec![0, 1, 2, 0], 3).expect("weld");
    assert_eq!((welded.vertex_count, welded.faces.len()), (3, 1));

    let mut adjusted = square();
    set_surface(&mut adjusted, 1, 18).expect("surface");
    assert_eq!(adjusted.surface_ids, vec![1, 18]);
}

#[test]
fn rejects_zero_area_walkmesh_faces() {
    let faces = vec![[0, 1, 2]];
    let issues = face_issues(3, &faces, &vec![true]);
    assert_eq!(issues, vec![WalkmeshIssue::FaceZeroArea { face: 0 }]);
}

#[test]
fn only_placeable_and_door_walkmeshes_may_hold_use_points_alone() {
    assert!(hook_only_walkmesh(WalkmeshKind::Pwk, 0, 0, 2));
    assert!(hook_only_walkmesh(WalkmeshKind::Dwk, 0, 0, 1));
    assert!(!hook_only_walkmesh(WalkmeshKind::Wok, 0, 0, 2));
    assert!(!hook_only_walkmesh(WalkmeshKind::Pwk, 3, 1, 2));
    assert!(!hook_only_walkmesh(WalkmeshKind::Pwk, 0, 0, 0));
}

#[test]
fn part_names_are_not_blank_and_at_most_63_bytes() {
    assert!(walkmesh_part_name_ok("use01"));
    assert!(!walkmesh_part_name_ok("  "));
    assert!(walkmesh_part_name_ok(&"a".repeat(63)));
    assert!(!walkmesh_part_name_ok(&"a".repeat(64)));
}

#[test]
fn area_walkmeshes_keep_known_surfaces_and_no_parts() {
    assert_eq!(check_walkmesh_kind(WalkmeshKind::Wok, &[0, 4, 19], 0, 0), Ok(()));
    assert_eq!(check_walkmesh_kind(WalkmeshKind::Wok, &[0, 20], 0, 0), Err(EditError::WalkmeshSurfaceInvalid));
    assert_eq!(check_walkmesh_kind(WalkmeshKind::Wok, &[-1], 1, 0), Err(EditError::WalkmeshSurfaceInvalid));
    assert_eq!(check_walkmesh_kind(WalkmeshKind::Wok, &[1], 1, 0), Err(EditError::WalkmeshWokStructureInvalid));
    assert_eq!(check_walkmesh_kind(WalkmeshKind::Wok, &[1], 0, 2), Err(EditError::WalkmeshWokStructureInvalid));
    assert_eq!(check_walkmesh_kind(WalkmeshKind::Pwk, &[30], 2, 2), Ok(()));
}
