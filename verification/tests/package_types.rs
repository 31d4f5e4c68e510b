use baboon::header::{
    EExportFilterFlags, FExportMapEntry, FPackageSummary, FZenPackageHeader, FZenVersioningInfo,
};
use baboon::names::{FMappedName, FNameMap};
use baboon::package::{
    chimp_document_container_label, chimp_package_type, chimp_type_index, scan_chimp_referrers,
    ChimpReferrerScan,
};

fn mapped(index: u32) -> FMappedName {
    FMappedName { index, number: 0 }
}

fn export(name: u32, outer_is_null: bool) -> FExportMapEntry {
    FExportMapEntry {
        object_name: mapped(name),
        outer_is_null,
        object_flags: 0,
        filter_flags: EExportFilterFlags::NoExportFilter,
        public_export_hash: 0,
    }
}

/// A package named by name 0, with `exports` as `(name index, top level)`.
fn header(names: &[&str], exports: &[(u32, bool)]) -> FZenPackageHeader {
    FZenPackageHeader {
        summary: FPackageSummary {
            name: mapped(0),
            package_flags: 0,
            has_versioning_info: 0,
        },
        is_unversioned: true,
        versioning_info: FZenVersioningInfo {
            zen_version: 3,
            file_version_ue4: 522,
            file_version_ue5: 1009,
            licensee_version: 0,
        },
        name_map: FNameMap {
            names: names.iter().map(|name| name.to_string()).collect(),
        },
        import_slots: Vec::new(),
        export_map: exports
            .iter()
            .map(|&(name, top)| export(name, top))
            .collect(),
        cell_export_map: Vec::new(),
        bulk_data_len: 0,
    }
}

fn classes(list: &[Option<&str>]) -> Vec<Option<String>> {
    list.iter().map(|class| class.map(str::to_owned)).collect()
}

#[test]
fn the_export_named_as_the_package_gives_its_type() {
    let header = header(
        &["/Game/Art/SM_Crate", "Helper", "SM_Crate"],
        &[(1, true), (2, true)],
    );
    let types = classes(&[Some("Texture2D"), Some("StaticMesh")]);
    assert_eq!(chimp_package_type(&header, &types).as_deref(), Some("StaticMesh"));
}

#[test]
fn any_blueprint_class_lists_the_package_as_a_blueprint() {
    let header = header(&["/Game/BP_Door", "SM_Crate"], &[(1, true)]);
    let types = classes(&[Some("WidgetBlueprintGeneratedClass")]);
    assert_eq!(chimp_package_type(&header, &types).as_deref(), Some("Blueprint"));
}

#[test]
fn without_a_named_export_a_blueprint_root_wins_over_the_first_root() {
    let header = header(
        &["/Game/Level", "A", "B", "C"],
        &[(1, true), (2, false), (3, true)],
    );
    let types = classes(&[Some("World"), Some("BlueprintGeneratedClass"), Some("BlueprintGeneratedClass")]);
    assert_eq!(chimp_package_type(&header, &types).as_deref(), Some("Blueprint"));

    // The inner export is no root, so the first root's type is used.
    let types = classes(&[Some("World"), Some("BlueprintGeneratedClass"), Some("Level")]);
    assert_eq!(chimp_package_type(&header, &types).as_deref(), Some("World"));
}

#[test]
fn class_paths_and_generated_classes_give_no_type() {
    let header = header(&["/Game/Thing", "Thing", "Other"], &[(1, true), (2, true)]);
    // The named export's class is a path: fall back to the other roots.
    let types = classes(&[Some("/Script/Engine.Thing"), Some("Material")]);
    assert_eq!(chimp_package_type(&header, &types).as_deref(), Some("Material"));
    let types = classes(&[Some("/Script/Engine.Thing"), Some("Skel#Generated")]);
    assert_eq!(chimp_package_type(&header, &types), None);
    let types = classes(&[None, None]);
    assert_eq!(chimp_package_type(&header, &types), None);
}

#[test]
fn packages_are_counted_by_type_in_name_order() {
    let index = chimp_type_index(vec![
        Some("StaticMesh".to_owned()),
        None,
        Some("Blueprint".to_owned()),
        Some("StaticMesh".to_owned()),
        None,
        Some("Material".to_owned()),
    ]);
    assert_eq!(index.failures, 2);
    assert_eq!(index.package_types.len(), 6);
    assert_eq!(
        index.type_counts,
        vec![
            ("Blueprint".to_owned(), 1),
            ("Material".to_owned(), 1),
            ("StaticMesh".to_owned(), 2),
        ]
    );
}

#[test]
fn nothing_mounted_counts_nothing() {
    let index = chimp_type_index(Vec::new());
    assert_eq!(index.failures, 0);
    assert!(index.type_counts.is_empty());
    assert!(index.package_types.is_empty());
}

fn package(name: &str, imports: Option<&[&str]>) -> (String, Option<Vec<String>>) {
    (
        name.to_owned(),
        imports.map(|list| list.iter().map(|import| import.to_string()).collect()),
    )
}

#[test]
fn referrers_are_the_packages_that_import_the_target() {
    let packages = vec![
        package("/Game/A", Some(&["/Game/Target", "/Script/Engine"])),
        package("/Game/Target", None),
        package("/Game/B", Some(&["/Script/Engine"])),
        package("/Game/C", None),
        package("/Game/D", Some(&["/game/TARGET"])),
    ];
    let scan = scan_chimp_referrers(&packages, "/Game/Target");
    assert_eq!(scan.referrers, vec!["/Game/A".to_owned(), "/Game/D".to_owned()]);
    // The target itself is not examined; the unreadable one is counted.
    assert_eq!(scan.scanned, 4);
    assert_eq!(scan.unreadable, 1);
}

#[test]
fn the_target_is_skipped_whatever_its_case() {
    let packages = vec![
        package("/GAME/TARGET", Some(&["/Game/Target"])),
        package("/Game/Other", Some(&[])),
    ];
    let scan = scan_chimp_referrers(&packages, "/game/target");
    assert!(scan.referrers.is_empty());
    assert_eq!(scan.scanned, 1);
    assert_eq!(scan.unreadable, 0);
}

#[test]
fn a_referrer_scan_keeps_what_it_could_not_rule_out_separate_from_what_it_cleared() {
    let clean = ChimpReferrerScan {
        referrers: Vec::new(),
        scanned: 100,
        unreadable: 0,
    };
    let partial = ChimpReferrerScan {
        referrers: Vec::new(),
        scanned: 100,
        unreadable: 3,
    };
    // Both found nothing; only one of them looked everywhere.
    assert!(clean.referrers.is_empty() && partial.referrers.is_empty());
    assert_eq!(clean.unreadable, 0);
    assert_ne!(partial.unreadable, 0);
}

/// An orphaned document keeps the container index it had before a remount;
/// the label must not index with it.
#[test]
fn an_orphaned_documents_header_names_no_container() {
    let containers = vec!["pakchunk0.utoc".to_owned()];
    assert_eq!(chimp_document_container_label(true, 3, &containers), "(no container)");
    assert_eq!(
        chimp_document_container_label(true, 0, &containers),
        "(no container)",
        "an orphan's old index names some other container now"
    );
    assert_eq!(chimp_document_container_label(false, 0, &containers), "pakchunk0.utoc");
}

#[test]
fn an_index_past_the_containers_names_none() {
    let containers = vec!["pakchunk0.utoc".to_owned()];
    assert_eq!(chimp_document_container_label(false, 1, &containers), "(no container)");
}
