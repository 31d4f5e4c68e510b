use baboon::header::{ChimpExport, PropValue, PropertyBlock, PropertyEntry};
use baboon::level::{
    prim_name, unique_prim_name, weld, LevelScene, LevelSkips, StaticMesh, StaticVertex,
};
use baboon::package::{
    chimp_block_json, chimp_class_display_name, chimp_initial_view, chimp_material_names,
    chimp_mesh_kind, chimp_value_json, is_chimp_material_package, ChimpDocumentView,
    ChimpMeshKind, JsonValue,
};

#[test]
fn skips_are_counted_by_reason() {
    let mut skips = LevelSkips::default();
    skips.absorb(LevelSkips {
        inherited_mesh: 2,
        unresolved_mesh: 1,
        unreadable_instances: 3,
    });
    skips.absorb(LevelSkips {
        inherited_mesh: 1,
        ..LevelSkips::default()
    });
    assert_eq!(skips.inherited_mesh, 3);
    assert_eq!(skips.total(), 7);
}

#[test]
fn a_prim_name_is_an_identifier() {
    assert_eq!(prim_name("SM_Tree_Mangrove_A"), "SM_Tree_Mangrove_A");
    assert_eq!(prim_name("SM-Tree.01"), "SM_Tree_01");
    assert_eq!(prim_name("043ATWPYEEJ"), "_043ATWPYEEJ");
    assert_eq!(prim_name(""), "_");
    assert_eq!(prim_name("Éclair"), "_clair");
}

#[test]
fn colliding_leaves_get_distinct_prims() {
    let mut taken = Vec::new();
    assert_eq!(unique_prim_name("SM_Rock", &mut taken), "SM_Rock");
    assert_eq!(unique_prim_name("SM_Rock", &mut taken), "SM_Rock_1");
    assert_eq!(unique_prim_name("SM_Rock", &mut taken), "SM_Rock_2");
    assert_eq!(unique_prim_name("SM-Rock", &mut taken), "SM_Rock_3");
    assert_eq!(taken.len(), 4);
}

#[test]
fn a_freed_suffix_is_reused_first() {
    let mut taken = vec!["SM_Rock".to_owned(), "SM_Rock_2".to_owned()];
    assert_eq!(unique_prim_name("SM_Rock", &mut taken), "SM_Rock_1");
    assert_eq!(unique_prim_name("SM_Rock", &mut taken), "SM_Rock_3");
}

fn vertex(position: [f32; 3], normal: [f32; 3], uv: [f32; 2]) -> StaticVertex {
    StaticVertex {
        position: position.map(f32::to_bits),
        normal: normal.map(f32::to_bits),
        uv: uv.map(f32::to_bits),
    }
}

fn at(x: f32) -> StaticVertex {
    vertex([x, 0.0, 0.0], [0.0, 0.0, 1.0], [0.0, 0.0])
}

fn mesh_of(vertices: Vec<StaticVertex>, indices: Vec<u32>) -> StaticMesh {
    StaticMesh { indices, vertices }
}

fn floats<const N: usize>(bits: [u32; N]) -> [f32; N] {
    bits.map(f32::from_bits)
}

fn corners(mesh: &StaticMesh) -> Vec<([f32; 3], [f32; 3], [f32; 2])> {
    mesh.indices
        .iter()
        .map(|&index| {
            let vertex = &mesh.vertices[index as usize];
            (
                floats(vertex.position),
                floats(vertex.normal),
                floats(vertex.uv),
            )
        })
        .collect()
}

#[test]
fn duplicates_merge_and_the_surface_is_unchanged() {
    let mesh = mesh_of(
        vec![at(0.0), at(1.0), at(2.0), at(1.0), at(2.0), at(3.0)],
        vec![0, 1, 2, 3, 4, 5],
    );
    let (welded, report) = weld(&mesh);
    assert_eq!(report.before, 6);
    assert_eq!(report.after, 4);
    assert_eq!(report.merged(), 2);
    assert_eq!(welded.indices.len(), mesh.indices.len());
    assert_eq!(corners(&welded), corners(&mesh));
}

#[test]
fn a_hard_edge_is_not_welded_away() {
    let sharp = vertex([1.0, 2.0, 3.0], [1.0, 0.0, 0.0], [0.25, 0.5]);
    let other_face = vertex([1.0, 2.0, 3.0], [0.0, 1.0, 0.0], [0.25, 0.5]);
    let mesh = mesh_of(vec![sharp, other_face], vec![0, 1, 0]);
    let (welded, report) = weld(&mesh);
    assert_eq!(report.merged(), 0);
    assert_eq!(welded.vertices.len(), 2);
    assert_eq!(corners(&welded), corners(&mesh));
}

#[test]
fn a_uv_seam_is_not_welded_away() {
    let left = vertex([1.0, 2.0, 3.0], [0.0, 0.0, 1.0], [0.0, 0.5]);
    let right = vertex([1.0, 2.0, 3.0], [0.0, 0.0, 1.0], [1.0, 0.5]);
    let mesh = mesh_of(vec![left, right], vec![0, 1, 0]);
    let (welded, report) = weld(&mesh);
    assert_eq!(report.merged(), 0);
    assert_eq!(welded.vertices.len(), 2);
    assert_eq!(corners(&welded), corners(&mesh));
}

#[test]
fn normals_and_uvs_survive_a_merge_exactly() {
    let a = vertex([0.5, -1.5, 2.25], [0.0, 0.6, 0.8], [0.8423903, 0.125]);
    let mesh = mesh_of(vec![a, a, a], vec![0, 1, 2]);
    let (welded, _) = weld(&mesh);
    assert_eq!(welded.vertices.len(), 1);
    assert_eq!(floats(welded.vertices[0].normal), [0.0, 0.6, 0.8]);
    assert_eq!(floats(welded.vertices[0].uv), [0.8423903, 0.125]);
    assert_eq!(floats(welded.vertices[0].position), [0.5, -1.5, 2.25]);
}

#[test]
fn signed_zeroes_are_the_same_point() {
    let positive = vertex([0.0, 0.0, 1.0], [0.0, 0.0, 1.0], [0.0, 0.0]);
    let negative = vertex([-0.0, 0.0, 1.0], [0.0, -0.0, 1.0], [-0.0, 0.0]);
    let mesh = mesh_of(vec![positive, negative], vec![0, 1, 0]);
    let (_, report) = weld(&mesh);
    assert_eq!(report.merged(), 1);
}

#[test]
fn indices_are_remapped_rather_than_left_pointing_at_the_old_list() {
    let mesh = mesh_of(vec![at(0.0), at(0.0), at(1.0)], vec![2, 1, 0]);
    let (welded, _) = weld(&mesh);
    assert_eq!(welded.vertices.len(), 2);
    assert_eq!(welded.indices, vec![1, 0, 0]);
    assert_eq!(corners(&welded), corners(&mesh));
}

#[test]
fn an_empty_mesh_welds_to_nothing() {
    let (welded, report) = weld(&mesh_of(Vec::new(), Vec::new()));
    assert!(welded.vertices.is_empty());
    assert!(welded.indices.is_empty());
    assert_eq!(report.merged(), 0);
}

#[test]
fn an_out_of_range_index_is_left_as_it_was() {
    let mesh = mesh_of(vec![at(0.0), at(0.0)], vec![0, 1, 9]);
    let (welded, _) = weld(&mesh);
    assert_eq!(welded.indices, vec![0, 0, 9]);
}

fn export(class: &str) -> ChimpExport {
    ChimpExport {
        object: class.to_owned(),
        class: Some(class.to_owned()),
        decoded: Err(String::new()),
    }
}

#[test]
fn a_packages_mesh_kind_is_read_from_its_export_classes() {
    assert_eq!(chimp_mesh_kind(&vec![export("Texture2D")]), None);
    assert_eq!(
        chimp_mesh_kind(&vec![export("Material"), export("StaticMesh")]),
        Some(ChimpMeshKind::Static)
    );
    assert_eq!(
        chimp_mesh_kind(&vec![export("StaticMesh"), export("SkeletalMesh")]),
        Some(ChimpMeshKind::Skeletal)
    );
}

#[test]
fn a_document_opens_on_what_it_holds() {
    assert_eq!(chimp_initial_view(true, Some(ChimpMeshKind::Static)), ChimpDocumentView::Texture);
    assert_eq!(chimp_initial_view(false, Some(ChimpMeshKind::Skeletal)), ChimpDocumentView::Mesh);
    assert_eq!(chimp_initial_view(false, None), ChimpDocumentView::Document);
}

#[test]
fn a_mesh_import_is_a_material_by_the_prefix_the_game_uses() {
    assert!(is_chimp_material_package("/Game/Art/Materials/MI_Brute_Body"));
    assert!(is_chimp_material_package("/Game/Art/Materials/M_Master"));
    assert!(!is_chimp_material_package("/Game/Art/Textures/T_Brute_D"));
    assert!(!is_chimp_material_package("/Game/Art/SK_Brute"));
    assert!(!is_chimp_material_package("/Script/Engine"));
    assert!(!is_chimp_material_package("/Game/M_Things/SK_Brute"));
}

#[test]
fn a_meshs_materials_are_named_by_their_leaves() {
    let imports = vec![
        "/Game/Art/Materials/MI_Brute_Body".to_owned(),
        "/Game/Art/Textures/T_Brute_D".to_owned(),
        "/Game/Art/Materials/M_Master".to_owned(),
    ];
    assert_eq!(
        chimp_material_names(&imports),
        vec!["MI_Brute_Body".to_owned(), "M_Master".to_owned()]
    );
}

#[test]
fn raw_values_are_identified_without_embedding_binary_in_json() {
    assert_eq!(
        chimp_value_json(&PropValue::Raw(vec![1, 2, 3])),
        JsonValue::Object(vec![("unknown_bytes".to_owned(), JsonValue::UInt(3))])
    );
}

#[test]
fn a_property_block_becomes_an_object_of_its_properties() {
    let block = PropertyBlock {
        entries: vec![
            PropertyEntry {
                name: "Enabled".to_owned(),
                value: PropValue::Bool(true),
            },
            PropertyEntry {
                name: "Mesh".to_owned(),
                value: PropValue::Object(-2),
            },
            PropertyEntry {
                name: "Pairs".to_owned(),
                value: PropValue::MapPairs(vec![(
                    PropValue::Str("a".to_owned()),
                    PropValue::Int(-1),
                )]),
            },
            PropertyEntry {
                name: "Later".to_owned(),
                value: PropValue::Unset,
            },
        ],
    };
    assert_eq!(
        chimp_block_json(&block),
        JsonValue::Object(vec![
            ("Enabled".to_owned(), JsonValue::Bool(true)),
            (
                "Mesh".to_owned(),
                JsonValue::Object(vec![("object_index".to_owned(), JsonValue::Int(-2))])
            ),
            (
                "Pairs".to_owned(),
                JsonValue::Array(vec![JsonValue::Object(vec![
                    ("key".to_owned(), JsonValue::Str("a".to_owned())),
                    ("value".to_owned(), JsonValue::Int(-1)),
                ])])
            ),
            (
                "Later".to_owned(),
                JsonValue::Object(vec![("type".to_owned(), JsonValue::Str("Unset".to_owned()))])
            ),
        ])
    );
}

#[test]
fn readable_documents_are_the_default_view() {
    assert_eq!(ChimpDocumentView::default(), ChimpDocumentView::Document);
    assert_eq!(
        chimp_class_display_name(Some("/Script/Engine.BlueprintGeneratedClass")),
        "BlueprintGeneratedClass"
    );
    assert_eq!(chimp_class_display_name(None), "Unknown");
}

#[test]
fn a_class_name_skips_empty_trailing_segments() {
    assert_eq!(chimp_class_display_name(Some("/Script/Engine.")), "Engine");
    assert_eq!(chimp_class_display_name(Some("Texture2D")), "Texture2D");
    assert_eq!(chimp_class_display_name(Some("./")), "Unknown");
    assert_eq!(chimp_class_display_name(Some("")), "Unknown");
}

fn matrix(values: [f64; 16]) -> [u64; 16] {
    values.map(f64::to_bits)
}

const IDENTITY: [f64; 16] = [
    1.0, 0.0, 0.0, 0.0, //
    0.0, 1.0, 0.0, 0.0, //
    0.0, 0.0, 1.0, 0.0, //
    0.0, 0.0, 0.0, 1.0,
];

#[test]
fn a_scene_names_each_mesh_once() {
    let mut moved = IDENTITY;
    moved[12] = 5.0;
    let mut scene = LevelScene::default();
    scene.place("/Game/SM_Tree", matrix(IDENTITY));
    scene.place("/Game/SM_Rock", matrix(IDENTITY));
    scene.place("/Game/SM_Tree", matrix(moved));
    assert_eq!(scene.meshes, ["/Game/SM_Tree", "/Game/SM_Rock"]);
    assert_eq!(scene.placements.len(), 3);
    assert_eq!(scene.placements[2].mesh, 0);
    assert_eq!(f64::from_bits(scene.placements[2].world[12]), 5.0);
    assert_eq!(scene.mesh_index("/Game/SM_Rock"), 1);
    assert_eq!(scene.mesh_index("/Game/SM_Bush"), 2);
    assert_eq!(scene.meshes.len(), 3);
}

#[test]
fn other_shapes_are_shown_by_their_debug_text() {
    let text = "WithRemovals { removals: [Int(1)], inner: Array([Int(2)]) }";
    let value = PropValue::WithRemovals {
        removals: vec![PropValue::Int(1)],
        inner: Box::new(PropValue::Array(vec![PropValue::Int(2)])),
        debug: text.to_owned(),
    };
    assert_eq!(
        chimp_value_json(&value),
        JsonValue::Object(vec![("type".to_owned(), JsonValue::Str(text.to_owned()))])
    );
    let native = PropValue::Opaque("Native(Vec3d([1.0, 2.0, 3.0]))".to_owned());
    assert_eq!(
        chimp_value_json(&native),
        JsonValue::Object(vec![(
            "type".to_owned(),
            JsonValue::Str("Native(Vec3d([1.0, 2.0, 3.0]))".to_owned())
        )])
    );
}
