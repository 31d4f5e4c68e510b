
use baboon::extract::{
    chimp_level_cells, chimp_looks_like_level, chimp_mesh_texture_packages,
    chimp_mesh_texture_subject, chimp_texture_subject_of, format_remaining, prim_safe_name, ChimpLevelExportPrompt,
    ChimpLevelFormat, ChimpLevelJob, ChimpLevelPhase, ChimpMeshFormat, ChimpMeshTexturePrompt,
    ChimpPackageActions, ChimpTextureExport, ChimpTextureFormat, KitId,
};
use baboon::texture::{
    selected_texture_preview, smallest_mip_covering, ChimpTexturePreview,
};

#[test]
fn a_level_offers_a_menu_wherever_it_is_browsed() {
    let level = ChimpPackageActions::of("/Game/Levels/Halo1/Solo/C10/C10", Some("World"));
    assert!(level.level);
    assert!(level.any(), "a level must open a menu");
    assert!(!level.texture && !level.mesh);
}

#[test]
fn anything_the_menu_would_offer_opens_it() {
    for (package, kind) in [
        ("/Game/Levels/Halo1/Solo/C10/C10", Some("World")),
        ("/Game/Meshes/SM_Rock", Some("StaticMesh")),
        ("/Game/Characters/SK_Elite", Some("SkeletalMesh")),
        ("/Game/Textures/T_Bark", Some("Texture2D")),
        (
            "/Game/Levels/Halo1/Solo/C10/_Generated_/043ATWPYEEJ",
            Some("World"),
        ),
        ("/Game/Blueprints/BP_Door", Some("Blueprint")),
        ("/Game/Misc/Thing", None),
    ] {
        let actions = ChimpPackageActions::of(package, kind);
        assert_eq!(
            actions.any(),
            actions.texture || actions.mesh || actions.level,
            "{package} would draw entries into a menu that does not open"
        );
    }
}

#[test]
fn a_package_with_nothing_to_offer_opens_no_menu() {
    assert!(!ChimpPackageActions::of("/Game/Blueprints/BP_Door", Some("Blueprint")).any());
    assert!(!ChimpPackageActions::of(
        "/Game/Levels/Halo1/Solo/C10/_Generated_/043ATWPYEEJ",
        Some("World")
    )
    .any());
}

#[test]
fn a_mesh_name_names_the_model_its_textures_belong_to() {
    assert_eq!(
        chimp_mesh_texture_subject("/Game/Art/SM_AssaultRifle_GunBody_M_Default").as_deref(),
        Some("assaultrifle")
    );
    assert_eq!(
        chimp_mesh_texture_subject("/Game/Art/SK_Brute").as_deref(),
        Some("brute")
    );
    assert_eq!(
        chimp_mesh_texture_subject("/Game/Art/AssaultRifle_Body").as_deref(),
        Some("assaultrifle")
    );
    assert_eq!(
        chimp_mesh_texture_subject("/Game/Art/Warthog").as_deref(),
        Some("warthog")
    );
    assert_eq!(
        chimp_mesh_texture_subject("/Game/Art/SM_").as_deref(),
        Some("sm")
    );
    assert_eq!(chimp_mesh_texture_subject("").as_deref(), None);
}

#[test]
fn the_subject_matches_a_models_textures_and_not_the_shared_ones() {
    let subject = chimp_mesh_texture_subject("/Game/Art/SM_AssaultRifle_GunBody_M_Default")
        .expect("subject");
    let matches = |leaf: &str| leaf.to_lowercase().contains(&subject);
    assert!(matches("T_AssaultRifle_GunBody_D"));
    assert!(matches("T_assaultrifle_ORM"));
    assert!(matches("T_AssaultRifle_Decal_01"));
    assert!(!matches("T_MasterNoise_01"));
    assert!(!matches("T_Default_Normal"));
    assert!(!matches("T_Brute_D"));
}

#[test]
fn a_mesh_texture_prompt_names_its_format() {
    let prompt = ChimpMeshTexturePrompt {
        kit: KitId(1),
        package: "/Game/Art/SK_Brute".to_owned(),
        format: ChimpMeshFormat::Pskx,
        texture_export: ChimpTextureExport::default(),
        path: "C:/exports/brute.pskx".to_owned(),
    };
    assert_eq!(prompt.format_label(), "ActorX PSKX");
}

fn job_at(done: usize, total: usize) -> ChimpLevelJob {
    ChimpLevelJob {
        kit: KitId(0),
        name: "C10".to_owned(),
        phase: ChimpLevelPhase::ReadingCells,
        done,
        total,
    }
}

#[test]
fn a_progress_estimate_waits_until_it_has_something_to_go_on() {
    // Nothing before the first item, in the first second and a half, or once
    // every item is done.
    assert!(!job_at(0, 2334).has_estimate(10, 0));
    assert!(!job_at(3, 2334).has_estimate(0, 200_000_000));
    assert!(!job_at(2334, 2334).has_estimate(60, 0));
}

#[test]
fn an_estimate_starts_at_a_second_and_a_half() {
    assert!(!job_at(1, 2).has_estimate(1, 499_999_999));
    assert!(job_at(1, 2).has_estimate(1, 500_000_000));
    assert!(job_at(1_000, 2_000).has_estimate(60, 0));
}

#[test]
fn time_left_is_said_at_the_precision_it_is_known_to() {
    assert_eq!(format_remaining(3), "a few seconds");
    assert_eq!(format_remaining(42), "about 42s");
    assert_eq!(format_remaining(260), "about 4m 20s");
    assert_eq!(format_remaining(1_500), "about 25m");
}

#[test]
fn time_left_pads_seconds_and_changes_unit_at_the_edges() {
    assert_eq!(format_remaining(9), "a few seconds");
    assert_eq!(format_remaining(10), "about 10s");
    assert_eq!(format_remaining(60), "about 1m 00s");
    assert_eq!(format_remaining(65), "about 1m 05s");
    assert_eq!(format_remaining(599), "about 9m 59s");
    assert_eq!(format_remaining(600), "about 10m");
}

#[test]
fn a_persistent_level_is_recognised_by_its_folder() {
    assert!(chimp_looks_like_level("/Game/Levels/Halo1/Solo/C10/C10"));
    assert!(chimp_looks_like_level("/Game/Levels/Halo1/Solo/c10/C10"));
    assert!(!chimp_looks_like_level(
        "/Game/Levels/Halo1/Solo/C10/_Generated_/043ATWPYEEJ"
    ));
    assert!(!chimp_looks_like_level("/Game/Meshes/Rocks/SM_Rock_A"));
    assert!(!chimp_looks_like_level("/Game"));
    assert!(!chimp_looks_like_level(""));
}

#[test]
fn an_export_names_its_files_after_the_level() {
    let prompt = ChimpLevelExportPrompt {
        kit: KitId(0),
        package: "/Game/Levels/Halo1/Solo/C10/C10".to_owned(),
        cells: Vec::new(),
        format: ChimpLevelFormat::SegmentedUsd,
        nanite: true,
        split: true,
        triangles: 30_000_000,
        placements: 50_000,
    };
    assert_eq!(prompt.name(), "C10");
    assert_eq!(prompt.budget().triangles, 30_000_000);
    assert_eq!(prompt.budget().placements, 50_000);
}

#[test]
fn not_splitting_is_one_segment_rather_than_another_exporter() {
    let prompt = ChimpLevelExportPrompt {
        kit: KitId(0),
        package: "/Game/Levels/X/Small/Small".to_owned(),
        cells: Vec::new(),
        format: ChimpLevelFormat::Blender,
        nanite: false,
        split: false,
        triangles: 30_000_000,
        placements: 50_000,
    };
    assert_eq!(prompt.budget().triangles, usize::MAX);
    assert_eq!(prompt.budget().placements, usize::MAX);
}

#[test]
fn a_zero_budget_is_still_one_of_each() {
    let prompt = ChimpLevelExportPrompt {
        kit: KitId(0),
        package: "/Game/Levels/X/Small/Small".to_owned(),
        cells: Vec::new(),
        format: ChimpLevelFormat::SegmentedUsd,
        nanite: false,
        split: true,
        triangles: 0,
        placements: 0,
    };
    assert_eq!(prompt.budget().triangles, 1);
    assert_eq!(prompt.budget().placements, 1);
}

#[test]
fn a_prim_safe_name_replaces_what_a_file_name_cannot_hold() {
    assert_eq!(prim_safe_name("C10"), "C10");
    assert_eq!(prim_safe_name("My Level.v2"), "My_Level_v2");
}

#[test]
fn a_level_lists_its_cells_sorted() {
    let packages = vec![
        "/Game/Levels/X/C10/_Generated_/B".to_owned(),
        "/Game/Levels/X/C10/C10".to_owned(),
        "/Game/Levels/X/C10/_generated_/A".to_owned(),
        "/Game/Levels/X/Other/_Generated_/C".to_owned(),
    ];
    assert_eq!(
        chimp_level_cells(&packages, "/Game/Levels/X/C10/C10"),
        vec![
            "/Game/Levels/X/C10/_Generated_/B".to_owned(),
            "/Game/Levels/X/C10/_generated_/A".to_owned(),
        ]
    );
    assert!(chimp_level_cells(&packages, "NoFolder").is_empty());
}

#[test]
fn texture_formats_name_their_files() {
    assert_eq!(ChimpTextureFormat::Dds.extension(), "dds");
    assert_eq!(ChimpTextureFormat::Png.extension(), "png");
    assert_eq!(ChimpTextureExport::default().format, ChimpTextureFormat::Dds);
    assert!(ChimpTextureExport::default().split_udim);
    assert_eq!(ChimpMeshFormat::Jms.extension(), "jms");
}

fn import(name: &str, imports: Option<&[&str]>) -> (String, Option<Vec<String>>) {
    (
        name.to_owned(),
        imports.map(|list| list.iter().map(|item| item.to_string()).collect()),
    )
}

#[test]
fn mesh_texture_candidates_are_listed_once_in_first_seen_order() {
    let imports = vec![
        import("/Game/Art/Materials/MI_Brute_Body", Some(&["/Game/T/T_A", "/Game/T/T_B"])),
        import("/Game/Art/Materials/M_Master", Some(&["/Game/T/T_B", "/Game/T/T_C", "/Game/T/T_A"])),
    ];
    assert_eq!(
        chimp_mesh_texture_packages(&imports),
        vec![
            "/Game/T/T_A".to_owned(),
            "/Game/T/T_B".to_owned(),
            "/Game/T/T_C".to_owned()
        ]
    );
    assert!(chimp_mesh_texture_packages(&Vec::new()).is_empty());
}

#[test]
fn only_materials_that_were_read_are_looked_into() {
    let imports = vec![
        // Not a material: its imports are not texture candidates.
        import("/Game/Art/SK_Brute_Skeleton", Some(&["/Game/T/T_Skeleton"])),
        // A material that could not be read.
        import("/Game/Art/Materials/MI_Missing", None),
        import("/Game/Art/Materials/MI_Brute_Head", Some(&["/Game/T/T_Head"])),
        // The prefix is on the leaf, not anywhere in the path.
        import("/Game/M_Things/T_Other", Some(&["/Game/T/T_Other"])),
    ];
    assert_eq!(chimp_mesh_texture_packages(&imports), vec!["/Game/T/T_Head".to_owned()]);
}

fn preview(export_index: usize) -> ChimpTexturePreview {
    ChimpTexturePreview {
        export_index,
        surfaces: Err(format!("export {export_index}")),
    }
}

#[test]
fn texture_export_writes_the_selected_texture() {
    let previews = vec![preview(2), preview(5)];
    let pick = |index| selected_texture_preview(&previews, index).map(|p| p.export_index);

    assert_eq!(pick(Some(5)), Some(5), "the selected texture");
    assert_eq!(pick(Some(2)), Some(2));
    assert_eq!(pick(None), Some(2), "nothing selected: the first texture");
    assert_eq!(
        pick(Some(0)),
        Some(2),
        "a non-texture export selected: the first texture"
    );
    assert_eq!(
        selected_texture_preview(&Vec::new(), Some(5)).map(|p| p.export_index),
        None
    );
}

#[test]
fn a_thumbnail_uses_the_smallest_mip_that_still_covers_the_edge() {
    // 1024 -> 512 -> 256 -> 128 -> 64: a 128 edge stops at 128, level 3.
    assert_eq!(smallest_mip_covering(1024, 1024, 11, 128), 3);
    // Not enough mips to get there: the last one there is.
    assert_eq!(smallest_mip_covering(1024, 1024, 2, 128), 1);
    // Already too small to halve: the full image.
    assert_eq!(smallest_mip_covering(100, 50, 8, 128), 0);
    // The longer side decides, and halving stops at one pixel.
    assert_eq!(smallest_mip_covering(1, 512, 10, 64), 3);
    assert_eq!(smallest_mip_covering(1024, 1024, 0, 128), 0);
}

#[test]
fn the_subject_rule_works_on_the_lowered_leaf() {
    assert_eq!(chimp_texture_subject_of("sm_assaultrifle_gunbody").as_deref(), Some("assaultrifle"));
    assert_eq!(chimp_texture_subject_of("brute").as_deref(), Some("brute"));
    // A short first segment with nothing after it is the subject itself.
    assert_eq!(chimp_texture_subject_of("sm_").as_deref(), Some("sm"));
    assert_eq!(chimp_texture_subject_of("__").as_deref(), None);
    assert_eq!(chimp_texture_subject_of("").as_deref(), None);
}
