use baboon::cache_import::{
    Baboon, CacheImportDialog, FolderConversionProgress, Kit, KitSource, TagSource,
};
use baboon::extract::KitId;

fn loose(id: u64, label: &str, game: Option<&str>) -> Kit {
    Kit {
        id: KitId(id),
        source: Some(KitSource {
            label: label.to_owned(),
            source: TagSource::LooseFolder {
                root: format!("/kits/{label}"),
                game: game.map(str::to_owned),
            },
        }),
    }
}

fn cache(id: u64) -> Kit {
    Kit {
        id: KitId(id),
        source: Some(KitSource {
            label: "reach cache".to_owned(),
            source: TagSource::MonolithicCache,
        }),
    }
}

fn editor(kits: Vec<Kit>, active_kit: usize) -> Baboon {
    Baboon {
        kits,
        active_kit,
        cache_import_dialog: None,
        status: String::new(),
    }
}

#[test]
fn targets_are_loose_kits_with_a_game_ordered_by_label() {
    let state = editor(
        vec![
            cache(0),
            loose(1, "Zeta", Some("haloreach")),
            loose(2, "Alpha", Some("haloreach")),
            loose(3, "Mid", None),
            Kit { id: KitId(4), source: None },
            loose(5, "Alpha", Some("halo4")),
        ],
        0,
    );
    let targets = state.cache_import_targets();
    let labels: Vec<(&str, u64, &str)> = targets
        .iter()
        .map(|t| (t.label.as_str(), t.kit.0, t.game.as_str()))
        .collect();
    assert_eq!(
        labels,
        vec![("Alpha", 2, "haloreach"), ("Alpha", 5, "halo4"), ("Zeta", 1, "haloreach")]
    );
    assert_eq!(targets[2].tags_root, "/kits/Zeta");
}

#[test]
fn the_window_opens_only_with_something_to_import_and_somewhere_to_put_it() {
    let mut state = editor(vec![cache(0), loose(1, "Kit", Some("haloreach"))], 0);
    state.open_cache_import_dialog("objects\\weapons".to_owned(), 0);
    assert_eq!(state.status, "objects\\weapons holds no tags to import");
    assert!(state.cache_import_dialog.is_none());

    state.open_cache_import_dialog("objects\\weapons".to_owned(), 12);
    let dialog = state.cache_import_dialog.as_ref().expect("opened");
    assert_eq!(dialog.kit, KitId(0));
    assert_eq!(dialog.selected, 12);
    assert_eq!(dialog.target().map(|t| t.kit), Some(KitId(1)));

    state.open_cache_import_dialog("other".to_owned(), 3);
    assert_eq!(state.status, "A cache import is already open");

    let mut state = editor(vec![loose(1, "Kit", Some("haloreach"))], 0);
    state.open_cache_import_dialog(String::new(), 3);
    assert_eq!(state.status, "This is not a monolithic cache workspace");

    let mut state = editor(vec![cache(0)], 0);
    state.open_cache_import_dialog(String::new(), 3);
    assert!(state.status.starts_with("Open the editing kit these tags should land in first"));
    assert!(state.cache_import_dialog.is_none());
}

fn progress(processed: usize) -> FolderConversionProgress {
    FolderConversionProgress {
        phase: "Converting".to_owned(),
        current: "objects\\a".to_owned(),
        processed,
        total: 10,
        converted: processed,
        failed: 0,
    }
}

#[test]
fn progress_is_shown_only_while_running() {
    let mut state = editor(vec![cache(0), loose(1, "Kit", Some("haloreach"))], 0);
    state.open_cache_import_dialog(String::new(), 5);
    assert!(!state.handle_cache_import_progress(progress(1)));
    assert!(state.cache_import_dialog.as_ref().unwrap().progress.is_none());

    state.cache_import_dialog.as_mut().unwrap().running = true;
    state.handle_cache_import_progress(progress(4));
    let shown = state.cache_import_dialog.as_ref().unwrap().progress.as_ref().unwrap();
    assert_eq!(shown.processed, 4);
}

#[test]
fn a_target_past_the_list_is_none() {
    let dialog = CacheImportDialog {
        kit: KitId(0),
        prefix: String::new(),
        selected: 1,
        targets: Vec::new(),
        target_index: 0,
        running: false,
        progress: None,
        error: None,
    };
    assert!(dialog.target().is_none());
}
