use lnmai::layout::{missing_instances, plan_regions, RegionPlan};
use lnmai::obj::{parse_obj, MeshGroup};
use lnmai::scene::{parse_scene_instances, SceneInstance};

fn inst(label: &str, group_index: usize, angle: &str) -> SceneInstance {
    SceneInstance { label: label.to_string(), group_index, angle_deg: angle.to_string() }
}

fn summary(v: &[SceneInstance]) -> Vec<(String, usize, String)> {
    v.iter().map(|i| (i.label.clone(), i.group_index, i.angle_deg.clone())).collect()
}

fn block(name: &str, mesh_id: &str, angle: &str) -> String {
    format!(
        "--- !u!1 &100\nGameObject:\n  m_Name: {name}\n--- !u!33 &101\nMeshFilter:\n  m_Mesh: {{fileID: {mesh_id}, guid: 0123, type: 3}}\n--- !u!4 &102\nTransform:\n  m_LocalEulerAnglesHint: {{x: 0, y: 0, z: {angle}}}\n"
    )
}

#[test]
fn obj_reads_vertices_groups_and_faces() {
    let text = "# mesh\nv 1.5 2 -3\nv 4 5\nf 9 9 9\ng first\nf 1/1/1 2//2 3\nf 4 x 0\ng second\r\nf 1 2 3 4\r\n";
    let (vertices, groups) = parse_obj(text);
    assert_eq!(vertices.len(), 2);
    assert_eq!(vertices[0].x.as_deref(), Some("1.5"));
    assert_eq!(vertices[0].z.as_deref(), Some("-3"));
    assert_eq!(vertices[1].x.as_deref(), Some("4"));
    assert_eq!(vertices[1].z, None);
    assert_eq!(groups.len(), 2);
    assert_eq!(groups[0].faces, vec![vec![0, 1, 2], vec![3, usize::MAX]]);
    assert_eq!(groups[1].faces, vec![vec![0, 1, 2, 3]]);
}

#[test]
fn obj_without_groups_keeps_no_faces() {
    let (vertices, groups) = parse_obj("v 0 0 0\nf 1 1 1\n");
    assert_eq!(vertices.len(), 1);
    assert!(groups.is_empty());
    let (vertices, groups) = parse_obj("");
    assert!(vertices.is_empty() && groups.is_empty());
}

#[test]
fn obj_line_prefixes_need_the_space() {
    let (vertices, groups) = parse_obj("vn 0 0 1\nvt 0 0\ng\ngroup\nv\n");
    assert!(vertices.is_empty());
    assert!(groups.is_empty());
}

#[test]
fn scene_renumbers_rings_and_adds_the_centre_half() {
    let scene = format!(
        "%YAML 1.1\n{}{}{}{}",
        block("A2", "8939266724133516769", "-45"),
        block("A8", "-7746497135072881621", " 90 "),
        block("B5", "281315202980364329", "180"),
        block("D3", "6157117880141131119", "22.5"),
    );
    let got = parse_scene_instances(&scene).unwrap();
    assert_eq!(
        summary(&got),
        vec![
            ("A3".to_string(), 0, "-45".to_string()),
            ("A1".to_string(), 1, "90".to_string()),
            ("B6".to_string(), 2, "180".to_string()),
            ("D3".to_string(), 3, "22.5".to_string()),
            ("C1".to_string(), 0, "0".to_string()),
        ]
    );
}

#[test]
fn scene_skips_blocks_that_place_nothing() {
    let no_filter = "--- !u!1 &1\n  m_Name: A1\n  m_Mesh: {fileID: 8939266724133516769, guid: 1}\n";
    let unknown_mesh = block("A1", "12345", "10");
    let no_name = block("Z9", "8939266724133516769", "10");
    let scene = format!("{no_filter}{unknown_mesh}{no_name}");
    let got = parse_scene_instances(&scene).unwrap();
    assert_eq!(summary(&got), vec![("C1".to_string(), 0, "0".to_string())]);
    assert_eq!(summary(&parse_scene_instances("").unwrap()), vec![("C1".to_string(), 0, "0".to_string())]);
}

#[test]
fn scene_takes_the_first_name_in_area_order() {
    let b = format!(
        "--- !u!1 &1\n  m_Name: E1\n  m_Name: B1\nMeshFilter:\n  m_Mesh: {{fileID: -4909277789374002350, guid: 1}}\n  m_LocalEulerAnglesHint: {{x: 0, y: 0, z: 5}}\n"
    );
    let got = parse_scene_instances(&b).unwrap();
    assert_eq!(got[0].label, "B1");
    assert_eq!(got[0].group_index, 4);
}

#[test]
fn scene_angle_defaults_to_zero() {
    let b = "--- !u!1 &1\n  m_Name: C\nMeshFilter:\n  m_Mesh: {fileID: 8939266724133516769, guid: 1}\n  m_LocalEulerAnglesHint: {x: 0}\n";
    let got = parse_scene_instances(b).unwrap();
    assert_eq!(summary(&got)[0], ("C".to_string(), 0, "0".to_string()));
    let b = "--- !u!1 &1\n  m_Name: C\nMeshFilter:\n  m_Mesh: {fileID: 8939266724133516769, guid: 1}\n  m_LocalEulerAnglesHint: {x: 0, y: 0, z 7}\n";
    let got = parse_scene_instances(b).unwrap();
    assert_eq!(got[0].angle_deg, "0");
}

#[test]
fn scene_fails_on_unclosed_records() {
    let no_guid = "--- !u!1 &1\n  m_Name: A1\nMeshFilter:\n  m_Mesh: {fileID: 8939266724133516769}\n";
    assert!(parse_scene_instances(no_guid).is_err());
    let no_angle = "--- !u!1 &1\n  m_Name: A1\nMeshFilter:\n  m_Mesh: {fileID: 8939266724133516769, guid: 1}\n";
    assert!(parse_scene_instances(no_angle).is_err());
    let later_bad = format!("{}{}", block("A1", "8939266724133516769", "0"), no_guid);
    assert!(parse_scene_instances(&later_bad).is_err());
}

#[test]
fn missing_instances_are_the_built_in_five() {
    assert_eq!(
        summary(&missing_instances()),
        vec![
            ("A2".to_string(), 3, "-45".to_string()),
            ("B2".to_string(), 4, "-45".to_string()),
            ("C2".to_string(), 0, "180".to_string()),
            ("D1".to_string(), 2, "-90".to_string()),
            ("E1".to_string(), 1, "-90".to_string()),
        ]
    );
}

fn five_groups() -> Vec<MeshGroup> {
    vec![
        MeshGroup { faces: vec![vec![0, 1, 2, 3]] },
        MeshGroup { faces: vec![vec![0, 1, 2]] },
        MeshGroup { faces: vec![vec![1, 2], vec![0, 1, 2]] },
        MeshGroup { faces: vec![vec![3, 2, 1]] },
        MeshGroup { faces: vec![] },
    ]
}

fn plan_summary(v: &[RegionPlan]) -> Vec<(usize, String, String, Vec<(usize, usize, usize)>)> {
    v.iter().map(|r| (r.index, r.label.clone(), r.angle_deg.clone(), r.triangles.clone())).collect()
}

#[test]
fn plan_fans_faces_and_adds_missing_areas() {
    let placed = vec![inst("A3", 0, "-45"), inst("D1", 1, "0"), inst("C1", 0, "0")];
    let got = plan_regions(4, &five_groups(), &placed).unwrap();
    assert_eq!(
        plan_summary(&got),
        vec![
            (2, "A3".to_string(), "-45".to_string(), vec![(0, 1, 2), (0, 2, 3)]),
            (17, "D1".to_string(), "0".to_string(), vec![(0, 1, 2)]),
            (16, "C1".to_string(), "0".to_string(), vec![(0, 1, 2), (0, 2, 3)]),
            (1, "A2".to_string(), "-45".to_string(), vec![(3, 2, 1)]),
            (9, "B2".to_string(), "-45".to_string(), vec![]),
            (16, "C2".to_string(), "180".to_string(), vec![(0, 1, 2), (0, 2, 3)]),
            (25, "E1".to_string(), "-90".to_string(), vec![(0, 1, 2)]),
        ]
    );
}

#[test]
fn plan_fails_on_bad_group_vertex_or_name() {
    assert!(plan_regions(4, &five_groups(), &vec![inst("A3", 5, "0")]).is_none());
    assert!(plan_regions(3, &five_groups(), &vec![inst("A3", 0, "0")]).is_none());
    assert!(plan_regions(4, &five_groups(), &vec![inst("Q7", 0, "0")]).is_none());
    // the missing D1 uses group 2, whose short face is never checked
    let groups = vec![
        MeshGroup { faces: vec![vec![0, 1, 2]] },
        MeshGroup { faces: vec![vec![0, 1, 2]] },
        MeshGroup { faces: vec![vec![99, 98], vec![0, 1, 2]] },
        MeshGroup { faces: vec![vec![0, 1, 2]] },
        MeshGroup { faces: vec![vec![0, 1, 2]] },
    ];
    assert!(plan_regions(3, &groups, &vec![]).is_some());
    // a missing area whose group is absent spoils the plan
    let three: Vec<MeshGroup> = (0..3).map(|_| MeshGroup { faces: vec![vec![0, 1, 2]] }).collect();
    assert!(plan_regions(3, &three, &vec![]).is_none());
}

#[test]
fn plan_needs_some_triangle() {
    let groups: Vec<MeshGroup> = (0..5).map(|_| MeshGroup { faces: vec![vec![0, 1]] }).collect();
    assert!(plan_regions(2, &groups, &vec![]).is_none());
}

fn layout_regions(obj: &str, scene: &str) -> Option<Vec<RegionPlan>> {
    let (vertices, groups) = parse_obj(obj);
    let instances = parse_scene_instances(scene).ok()?;
    plan_regions(vertices.len(), &groups, &instances)
}

#[test]
fn layout_joins_mesh_and_scene() {
    let mut obj = String::new();
    for _ in 0..5 {
        obj.push_str("g part\n");
    }
    obj = format!("v 0 0 0\nv 1 0 0\nv 0 0 1\n{}f 1 2 3\n", obj);
    let scene = block("D1", "281315202980364329", "30");
    let got = layout_regions(&obj, &scene).unwrap();
    let labels: Vec<String> = got.iter().map(|r| r.label.clone()).collect();
    assert_eq!(labels, vec!["D1", "C1", "A2", "B2", "C2", "E1"]);
    assert_eq!(got[5].triangles, vec![]);
    assert_eq!(got[1].triangles, vec![]);
    assert!(got.iter().any(|r| r.triangles == vec![(0, 1, 2)]));
    assert!(layout_regions(&obj, "--- !u!1 m_Name: A1\nMeshFilter:\nm_Mesh: {fileID: 1").is_none());
    assert!(layout_regions("v 0 0 0\n", "").is_none());
}
