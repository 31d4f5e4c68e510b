use baboon::blam::{
    BlamFolderScan, BlamUiState, BITMAP_LIBRARY_KEY, BLAM_KEY,
    MODEL_LIBRARY_KEY,
};
use baboon::browser::group_tree_label_parts;
use baboon::text::contains_ignore_ascii_case;

#[test]
fn the_blam_pane_key_cannot_collide_with_a_tag_key() {
    assert!(BLAM_KEY.starts_with("tool:"));
    for prefix in ["cache:", "ublock:"] {
        assert!(!BLAM_KEY.starts_with(prefix));
    }
    assert_ne!(BLAM_KEY, BITMAP_LIBRARY_KEY);
    assert_ne!(BLAM_KEY, MODEL_LIBRARY_KEY);
}

#[test]
fn group_tree_label_splits_friendly_name_and_fourcc() {
    assert_eq!(
        group_tree_label_parts("control cntl"),
        ("control".to_owned(), "cntl".to_owned())
    );
    assert_eq!(
        group_tree_label_parts("bloc"),
        ("".to_owned(), "bloc".to_owned())
    );
}

#[test]
fn the_name_filter_matches_as_lowercasing_did() {
    let names = [
        "SM_Warthog_Chassis",
        "/Game/Vehicles/Warthog",
        "ÉCLAIR_Mesh",
        "éclair_mesh",
        "",
        "hog",
    ];
    for filter in ["", "hog", "warthog_c", "/game/", "éclair", "clair_m", "zzz"] {
        for name in names {
            assert_eq!(
                contains_ignore_ascii_case(name, filter),
                name.to_ascii_lowercase().contains(filter),
                "{name:?} / {filter:?}"
            );
        }
    }
}

#[test]
fn chimp_search_matching_is_case_insensitive_without_allocating_per_package() {
    assert!(contains_ignore_ascii_case("SM_SpiritDropShip_Body", "spirit"));
    assert!(contains_ignore_ascii_case("Texture2D", "texture2d"));
    assert!(!contains_ignore_ascii_case("StaticMesh", "skeletal"));
}

#[test]
fn an_uppercase_needle_is_matched_without_case_too() {
    assert!(contains_ignore_ascii_case("sm_spiritdropship", "SPIRIT"));
    assert!(contains_ignore_ascii_case("anything", ""));
    assert!(!contains_ignore_ascii_case("", "a"));
}

#[test]
fn a_rescan_seeds_the_ticks_and_remembers_the_trimmed_path() {
    let mut state = BlamUiState::default();
    state.import_render = true;
    state.asset_path = "  objects\\test ".to_owned();
    state.rescan(BlamFolderScan {
        render: false,
        collision: true,
        physics: false,
        structure: false,
    });

    assert!(!state.import_render, "missing render folder must untick");
    assert!(state.import_collision);
    assert!(!state.import_physics);
    assert!(!state.import_structure);
    assert_eq!(state.scanned_path.as_deref(), Some("objects\\test"));
}
