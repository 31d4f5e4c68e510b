use baboon::header::{
    apply_chimp_export_edit, apply_chimp_export_metadata, apply_chimp_identity_edit,
    apply_chimp_import_slot, apply_chimp_name_rename, chimp_export_hash_desyncs,
    chimp_export_renamed_texts, chimp_header_survives_reopen, chimp_identity_candidate,
    chimp_import_edit_for, first_unresolvable_object_reference, import_slot_display,
    name_usage_tooltip, validate_chimp_header, validate_chimp_header_parts, ChimpDocument,
    ChimpExport, ChimpExportEdit, ChimpIdentityEdit, ChimpImportKind, ChimpNameUsage,
    EExportFilterFlags, Export, ExportBlock, FCellExportMapEntry, FExportMapEntry, FName,
    FPackageSummary, FZenPackageHeader, FZenVersioningInfo, ImportSlot, ImportTarget, PropValue,
    PropertyBlock, PropertyEntry, ReopenOutcome, CHIMP_OBJECT_FLAG_BITS,
    PACKAGE_NAME_RENAME_REFUSAL,
};
use baboon::header::{
    chimp_import_slot_for, chimp_public_exports_of, chimp_redecode_export, ChimpImportEdit,
};
use baboon::names::{FMappedName, FNameMap};
use baboon::usage::refresh_chimp_header_usage;

/// Stands in for the engine's public export hash in these tests: any
/// function of the name that tells the names used here apart will do, since
/// the edits only ever store, compare or pass it on.
fn stand_in_hash(name: &str) -> u64 {
    let mut hash: u64 = 0xcbf2_9ce4_8422_2325;
    for byte in name.to_ascii_lowercase().bytes() {
        hash ^= byte as u64;
        hash = hash.wrapping_mul(0x0000_0100_0000_01b3);
    }
    hash
}

fn mapped(index: u32, number: u32) -> FMappedName {
    FMappedName { index, number }
}

fn name_value(index: u32, number: u32, text: &str) -> PropValue {
    PropValue::Name(FName {
        index,
        number,
        text: text.to_owned(),
    })
}

fn entry(name: &str, value: PropValue) -> PropertyEntry {
    PropertyEntry {
        name: name.to_owned(),
        value,
    }
}

fn header_with_names(names: &[&str]) -> FZenPackageHeader {
    FZenPackageHeader {
        summary: FPackageSummary {
            name: mapped(0, 0),
            package_flags: 0x8000_0000,
            has_versioning_info: 0,
        },
        is_unversioned: true,
        versioning_info: FZenVersioningInfo {
            zen_version: 3,
            file_version_ue4: 522,
            file_version_ue5: 1009,
            licensee_version: 0,
        },
        name_map: FNameMap {
            names: names.iter().map(|name| name.to_string()).collect(),
        },
        import_slots: Vec::new(),
        export_map: vec![FExportMapEntry {
            object_name: mapped(0, 0),
            outer_is_null: true,
            object_flags: 0xb,
            filter_flags: EExportFilterFlags::NoExportFilter,
            public_export_hash: stand_in_hash(names[0]),
        }],
        cell_export_map: Vec::new(),
        bulk_data_len: 0,
    }
}

/// A package named `Warthog` with one export named after entry 1,
/// `Material`, whose properties name both entries.
fn rename_fixture() -> ChimpDocument {
    let mut header = header_with_names(&["Warthog", "Material"]);
    header.export_map[0].object_name = mapped(1, 0);
    header.export_map[0].public_export_hash = stand_in_hash("Material");
    let block = PropertyBlock {
        entries: vec![
            entry("Surface", name_value(1, 0, "Material")),
            entry(
                "Layers",
                PropValue::Array(vec![
                    name_value(1, 3, "Material_2"),
                    name_value(0, 0, "Warthog"),
                ]),
            ),
        ],
    };
    ChimpDocument {
        package: "/Game/Warthog".to_owned(),
        header,
        payloads: vec![vec![0u8; 4]],
        exports: vec![ChimpExport {
            object: "Material".to_owned(),
            class: Some("Material".to_owned()),
            decoded: Ok(Export {
                block: ExportBlock::Reflected(block),
            }),
        }],
    }
}

fn names_of(document: &ChimpDocument) -> Vec<String> {
    document.header.name_map.names.clone()
}

fn collect_names(value: &PropValue, seen: &mut Vec<String>) {
    match value {
        PropValue::Name(name) => seen.push(name.text.clone()),
        PropValue::Array(items) | PropValue::SetItems(items) => {
            for item in items {
                collect_names(item, seen);
            }
        }
        PropValue::MapPairs(pairs) => {
            for (key, value) in pairs {
                collect_names(key, seen);
                collect_names(value, seen);
            }
        }
        PropValue::Struct(block) => {
            for entry in &block.entries {
                collect_names(&entry.value, seen);
            }
        }
        PropValue::WithRemovals { removals, inner, .. } => {
            for item in removals {
                collect_names(item, seen);
            }
            collect_names(inner, seen);
        }
        _ => {}
    }
}

#[test]
fn a_name_reference_past_the_end_of_the_table_is_refused_not_fatal() {
    let mut header = header_with_names(&["Warthog"]);
    assert!(validate_chimp_header_parts("pkg", &header, 1, &Vec::new()).is_ok());

    header.summary.name = mapped(7, 0);
    let error = validate_chimp_header_parts("pkg", &header, 1, &Vec::new()).unwrap_err();
    assert!(error.contains("package name points outside"), "{error}");

    let mut header = header_with_names(&["Warthog"]);
    header.export_map[0].object_name = mapped(7, 0);
    let error = validate_chimp_header_parts("pkg", &header, 1, &Vec::new()).unwrap_err();
    assert!(error.contains("export 0's object name"), "{error}");
}

#[test]
fn a_payload_count_that_does_not_match_the_export_map_is_refused() {
    let header = header_with_names(&["Warthog"]);
    let error = validate_chimp_header_parts("pkg", &header, 0, &Vec::new()).unwrap_err();
    assert!(error.contains("0 export payloads for 1"), "{error}");
    assert_eq!(error, "pkg has 0 export payloads for 1 export map entries");
}

#[test]
fn a_cell_class_past_the_end_of_the_table_is_refused() {
    let mut header = header_with_names(&["Warthog"]);
    header.cell_export_map = vec![
        FCellExportMapEntry {
            cpp_class_info: mapped(0, 0),
        },
        FCellExportMapEntry {
            cpp_class_info: mapped(3, 0),
        },
    ];
    let error = validate_chimp_header_parts("pkg", &header, 1, &Vec::new()).unwrap_err();
    assert_eq!(
        error,
        "pkg: cell export 1's class name points outside the name map"
    );
}

#[test]
fn an_object_reference_past_the_end_of_the_import_map_is_refused() {
    let block = PropertyBlock {
        entries: vec![entry("Thing", PropValue::Object(-4))],
    };
    assert_eq!(first_unresolvable_object_reference(&block, 0), Some(3));
    assert_eq!(first_unresolvable_object_reference(&block, 4), None);
}

#[test]
fn the_first_bad_reference_is_found_wherever_it_hides() {
    let block = PropertyBlock {
        entries: vec![
            entry("Export", PropValue::Object(2)),
            entry(
                "Nested",
                PropValue::Struct(PropertyBlock {
                    entries: vec![entry(
                        "Pairs",
                        PropValue::MapPairs(vec![(PropValue::Int(1), PropValue::Object(-6))]),
                    )],
                }),
            ),
            entry("Later", PropValue::Object(-9)),
        ],
    };
    assert_eq!(first_unresolvable_object_reference(&block, 2), Some(5));
    let wrapped = PropertyBlock {
        entries: vec![entry(
            "Delta",
            PropValue::WithRemovals {
                removals: Vec::new(),
                inner: Box::new(PropValue::Array(vec![PropValue::Object(-1)])),
                debug: "WithRemovals { removals: [], inner: Array([Object(-1)]) }".to_owned(),
            },
        )],
    };
    assert_eq!(first_unresolvable_object_reference(&wrapped, 0), Some(0));
    assert_eq!(first_unresolvable_object_reference(&wrapped, 1), None);
}

#[test]
fn an_export_referencing_a_missing_import_fails_validation() {
    let document = rename_fixture();
    assert!(validate_chimp_header(&document).is_ok());
    let mut document = rename_fixture();
    document.exports[0].decoded = Ok(Export {
        block: ExportBlock::Reflected(PropertyBlock {
            entries: vec![entry("Thing", PropValue::Object(-1))],
        }),
    });
    assert_eq!(
        validate_chimp_header(&document).unwrap_err(),
        "/Game/Warthog: export 0 references import slot 0, but the import map has 0 slots"
    );
}

#[test]
fn renaming_the_packages_own_name_is_refused() {
    let mut document = rename_fixture();
    let error = apply_chimp_name_rename(&mut document, 0, "Scorpion").unwrap_err();
    assert!(error.contains("package's own name"), "{error}");
    assert_eq!(error, PACKAGE_NAME_RENAME_REFUSAL);
    assert_eq!(names_of(&document), ["Warthog", "Material"]);
}

#[test]
fn renaming_an_entry_past_the_end_is_refused() {
    let mut document = rename_fixture();
    let error = apply_chimp_name_rename(&mut document, 9, "Surface").unwrap_err();
    assert_eq!(error, "name map has no entry 9");
    assert_eq!(names_of(&document), ["Warthog", "Material"]);
}

#[test]
fn a_rename_refreshes_every_resolved_name_including_numbered_ones() {
    let mut document = rename_fixture();
    apply_chimp_name_rename(&mut document, 1, "  Surface ").unwrap();

    assert_eq!(names_of(&document), ["Warthog", "Surface"]);
    assert_eq!(document.exports[0].object, "Surface");

    let mut seen = Vec::new();
    let Ok(decoded) = &document.exports[0].decoded else {
        panic!("fixture decodes");
    };
    let ExportBlock::Reflected(block) = &decoded.block else {
        panic!("fixture is reflected");
    };
    for entry in &block.entries {
        collect_names(&entry.value, &mut seen);
    }
    seen.sort();
    assert_eq!(seen, ["Surface", "Surface_2", "Warthog"]);
}

#[test]
fn an_export_hash_desync_is_reported_before_the_rename() {
    let document = rename_fixture();
    let desyncs = |index: usize, text: &str| {
        let hashes: Vec<(usize, u64)> = chimp_export_renamed_texts(&document.header, index, text)
            .into_iter()
            .map(|(export, name)| (export, stand_in_hash(&name)))
            .collect();
        chimp_export_hash_desyncs(&document.header, &hashes)
    };
    assert_eq!(desyncs(1, "Surface"), vec![0]);
    assert!(desyncs(1, "Material").is_empty());
    assert!(desyncs(0, "Anything").is_empty());
}

#[test]
fn renamed_texts_carry_the_number_suffix() {
    let mut header = header_with_names(&["Warthog", "Material"]);
    header.export_map = vec![
        FExportMapEntry {
            object_name: mapped(1, 3),
            outer_is_null: true,
            object_flags: 0,
            filter_flags: EExportFilterFlags::NoExportFilter,
            public_export_hash: 0,
        },
        FExportMapEntry {
            object_name: mapped(0, 0),
            outer_is_null: true,
            object_flags: 0,
            filter_flags: EExportFilterFlags::NoExportFilter,
            public_export_hash: 0,
        },
        FExportMapEntry {
            object_name: mapped(1, 0),
            outer_is_null: true,
            object_flags: 0,
            filter_flags: EExportFilterFlags::NotForClient,
            public_export_hash: 0,
        },
    ];
    assert_eq!(
        chimp_export_renamed_texts(&header, 1, "Surface"),
        vec![(0, "Surface_2".to_owned()), (2, "Surface".to_owned())]
    );
}

#[test]
fn retargeting_one_import_slot_leaves_the_others_in_place() {
    let mut document = rename_fixture();
    let slots = vec![
        ImportSlot::Script(0x1234_5678_9abc_def0),
        ImportSlot::Package(ImportTarget {
            package: "/Game/One".to_owned(),
            object_hash: stand_in_hash("One"),
        }),
        ImportSlot::Null,
    ];
    document.header.import_slots = slots.clone();

    apply_chimp_import_slot(
        &mut document,
        1,
        ImportSlot::Package(ImportTarget {
            package: "/Game/Two".to_owned(),
            object_hash: stand_in_hash("Two"),
        }),
    )
    .unwrap();

    let after = &document.header.import_slots;
    assert_eq!(after.len(), 3);
    assert_eq!(after[0], slots[0], "slot 0 moved");
    assert_eq!(after[2], ImportSlot::Null, "slot 2 moved");
    let ImportSlot::Package(target) = &after[1] else {
        panic!("slot 1 is a package import");
    };
    assert_eq!(target.package, "/Game/Two");
    assert_eq!(target.object_hash, stand_in_hash("Two"));
}

#[test]
fn an_appended_slot_lands_at_the_end_and_is_refused_past_it() {
    let mut document = rename_fixture();
    document.header.import_slots = vec![ImportSlot::Null];

    apply_chimp_import_slot(&mut document, 1, ImportSlot::Null).unwrap();
    assert_eq!(document.header.import_slots.len(), 2);

    let error = apply_chimp_import_slot(&mut document, 5, ImportSlot::Null).unwrap_err();
    assert!(error.contains("past the end"), "{error}");
    assert_eq!(error, "Import slot 5 is past the end of a 2-slot import map");
    assert_eq!(document.header.import_slots.len(), 2);
}

fn export_edit(document: &ChimpDocument, object_name: &str) -> ChimpExportEdit {
    ChimpExportEdit {
        index: 0,
        object_name: object_name.to_owned(),
        object_flags: document.header.export_map[0].object_flags,
        filter_flags: document.header.export_map[0].filter_flags,
        recompute_hash: false,
    }
}

#[test]
fn renaming_an_export_interns_a_name_instead_of_rewriting_the_table() {
    let mut document = rename_fixture();
    let before = names_of(&document);

    let edit = export_edit(&document, "Surface");
    apply_chimp_export_metadata(&mut document, &edit, stand_in_hash("Surface"));

    let after = names_of(&document);
    assert_eq!(&after[..before.len()], &before[..]);
    assert_eq!(after.last().unwrap(), "Surface");
    assert_eq!(document.exports[0].object, "Surface");
}

#[test]
fn an_existing_name_is_reused_rather_than_appended() {
    let mut document = rename_fixture();
    let edit = export_edit(&document, " Warthog ");
    apply_chimp_export_metadata(&mut document, &edit, 0);
    assert_eq!(names_of(&document), ["Warthog", "Material"]);
    assert_eq!(document.header.export_map[0].object_name, mapped(0, 0));
    assert_eq!(document.exports[0].object, "Warthog");
}

#[test]
fn an_export_hash_moves_only_when_the_recompute_is_asked_for() {
    let mut document = rename_fixture();
    let original = document.header.export_map[0].public_export_hash;
    assert_eq!(original, stand_in_hash("Material"));

    let edit = export_edit(&document, "Surface");
    apply_chimp_export_metadata(&mut document, &edit, stand_in_hash("Surface"));
    assert_eq!(
        document.header.export_map[0].public_export_hash, original,
        "the hash must not follow the name on its own"
    );

    let mut edit = export_edit(&document, "Surface");
    edit.recompute_hash = true;
    apply_chimp_export_metadata(&mut document, &edit, stand_in_hash("Surface"));
    assert_eq!(
        document.header.export_map[0].public_export_hash,
        stand_in_hash("Surface")
    );
}

#[test]
fn an_export_name_with_a_number_suffix_round_trips_through_the_reference() {
    let mut document = rename_fixture();
    let edit = export_edit(&document, "Surface_3");
    apply_chimp_export_metadata(&mut document, &edit, 0);

    assert_eq!(document.exports[0].object, "Surface_3");
    assert_eq!(names_of(&document).last().unwrap(), "Surface");
    assert_eq!(document.header.export_map[0].object_name.number, 4);
}

#[test]
fn a_suffix_that_is_not_a_canonical_number_stays_in_the_name() {
    let mut document = rename_fixture();
    let edit = export_edit(&document, "Surface_03");
    apply_chimp_export_metadata(&mut document, &edit, 0);
    assert_eq!(names_of(&document).last().unwrap(), "Surface_03");
    assert_eq!(document.header.export_map[0].object_name.number, 0);
    assert_eq!(document.exports[0].object, "Surface_03");
}

#[test]
fn an_export_edit_is_refused_for_a_missing_export_or_an_empty_name() {
    let mut document = rename_fixture();
    let mut edit = export_edit(&document, "Surface");
    edit.index = 4;
    assert_eq!(
        apply_chimp_export_edit(&mut document, &edit, 0, Ok(None)).unwrap_err(),
        "Export 4 is no longer in this package"
    );
    let edit = export_edit(&document, "   ");
    assert_eq!(
        apply_chimp_export_edit(&mut document, &edit, 0, Ok(None)).unwrap_err(),
        "An export needs an object name"
    );
    assert_eq!(names_of(&document), ["Warthog", "Material"]);
}

#[test]
fn a_flag_change_that_no_longer_decodes_refuses_the_edit() {
    let mut document = rename_fixture();
    let mut edit = export_edit(&document, "Surface");
    edit.object_flags = 0x10;
    let error = apply_chimp_export_edit(
        &mut document,
        &edit,
        0,
        Err("Export 0 no longer decodes".to_owned()),
    )
    .unwrap_err();
    assert_eq!(error, "Export 0 no longer decodes");
    assert_eq!(document.header.export_map[0].object_flags, 0xb);
    assert_eq!(names_of(&document), ["Warthog", "Material"]);

    // The same flags again need no re-decode, whatever it would have said.
    let edit = export_edit(&document, "Surface");
    apply_chimp_export_edit(&mut document, &edit, 0, Err("unused".to_owned())).unwrap();
    assert_eq!(document.exports[0].object, "Surface");
}

#[test]
fn a_flag_change_takes_the_redecoded_value() {
    let mut document = rename_fixture();
    let mut edit = export_edit(&document, "Material");
    edit.object_flags = 0x10;
    let redecoded = Export {
        block: ExportBlock::NotSerialized,
    };
    apply_chimp_export_edit(&mut document, &edit, 0, Ok(Some(redecoded))).unwrap();
    assert_eq!(document.header.export_map[0].object_flags, 0x10);
    assert_eq!(
        document.exports[0].decoded,
        Ok(Export {
            block: ExportBlock::NotSerialized
        })
    );
}

fn identity_edit(document: &ChimpDocument) -> ChimpIdentityEdit {
    let versioning = &document.header.versioning_info;
    ChimpIdentityEdit {
        package_flags: format!("{:08X}", document.header.summary.package_flags),
        licensee_version: versioning.licensee_version,
        is_unversioned: document.header.is_unversioned,
        zen_version: versioning.zen_version,
        file_version_ue4: versioning.file_version_ue4,
        file_version_ue5: versioning.file_version_ue5,
    }
}

/// What writing the candidate and reading it back gives when the writer
/// keeps everything it writes.
fn faithful_reopen(document: &ChimpDocument, edit: &ChimpIdentityEdit) -> ReopenOutcome {
    let mut candidate = document.header.clone();
    chimp_identity_candidate(&mut candidate, edit).unwrap();
    ReopenOutcome::Reopened(candidate)
}

#[test]
fn a_flag_change_that_reopens_as_itself_is_applied() {
    let mut document = rename_fixture();
    let mut edit = identity_edit(&document);
    edit.package_flags = "80002200".to_owned();

    let reopened = faithful_reopen(&document, &edit);
    apply_chimp_identity_edit(&mut document, &edit, &reopened).unwrap();
    assert_eq!(document.header.summary.package_flags, 0x8000_2200);

    let mut edit = identity_edit(&document);
    edit.package_flags = "0x88002200".to_owned();
    let reopened = faithful_reopen(&document, &edit);
    apply_chimp_identity_edit(&mut document, &edit, &reopened).unwrap();
    assert_eq!(document.header.summary.package_flags, 0x8800_2200);
}

#[test]
fn an_unparseable_flag_value_changes_nothing() {
    let mut document = rename_fixture();
    let before = document.header.summary.package_flags;
    let mut edit = identity_edit(&document);
    edit.package_flags = "not hex".to_owned();

    let reopened = ReopenOutcome::NotReopened("unused".to_owned());
    let error = apply_chimp_identity_edit(&mut document, &edit, &reopened).unwrap_err();
    assert!(error.contains("hex value"), "{error}");
    assert_eq!(error, "\"not hex\" is not a 32-bit hex value");
    assert_eq!(document.header.summary.package_flags, before);
}

#[test]
fn flags_are_hex_of_either_case_with_an_optional_prefix_and_sign() {
    let document = rename_fixture();
    for (text, expected) in [
        ("ff", Some(0xffu32)),
        (" 0XfF ", Some(0xff)),
        ("+1A", Some(0x1a)),
        ("00000000ffffffff", Some(0xffff_ffff)),
        ("1_0", None),
        ("100000000", None),
        ("", None),
        ("0x", None),
        ("-1", None),
    ] {
        let mut edit = identity_edit(&document);
        edit.package_flags = text.to_owned();
        let mut header = document.header.clone();
        let result = chimp_identity_candidate(&mut header, &edit);
        match expected {
            Some(flags) => {
                assert!(result.is_ok(), "{text:?}");
                assert_eq!(header.summary.package_flags, flags, "{text:?}");
            }
            None => {
                assert!(result.is_err(), "{text:?}");
                assert_eq!(header.summary.package_flags, 0x8000_0000, "{text:?}");
            }
        }
    }
}

#[test]
fn turning_versioning_on_makes_the_fields_persist() {
    let mut document = rename_fixture();
    let mut edit = identity_edit(&document);
    edit.is_unversioned = false;
    edit.licensee_version = 7;
    edit.file_version_ue5 = 1013;

    let reopened = faithful_reopen(&document, &edit);
    apply_chimp_identity_edit(&mut document, &edit, &reopened).unwrap();
    assert!(!document.header.is_unversioned);
    assert_eq!(document.header.summary.has_versioning_info, 1);
    assert_eq!(document.header.versioning_info.licensee_version, 7);

    chimp_header_survives_reopen(
        &document.header,
        &ReopenOutcome::Reopened(document.header.clone()),
    )
    .unwrap();

    let mut edit = identity_edit(&document);
    edit.is_unversioned = true;
    let reopened = faithful_reopen(&document, &edit);
    apply_chimp_identity_edit(&mut document, &edit, &reopened).unwrap();
    assert!(document.header.is_unversioned);
    assert_eq!(document.header.summary.has_versioning_info, 0);
}

#[test]
fn versioning_fields_are_not_stored_while_a_package_is_unversioned() {
    let document = rename_fixture();
    assert!(document.header.is_unversioned, "the fixture is CE-shaped");

    let mut candidate = document.header.clone();
    candidate.versioning_info.licensee_version = 7;
    candidate.versioning_info.file_version_ue5 = 1;

    // The reader infers a versioning block for an unversioned package, so
    // what comes back differs in exactly the fields that are not written.
    let mut reopened = candidate.clone();
    reopened.versioning_info.licensee_version = 0;
    reopened.versioning_info.file_version_ue5 = 1009;
    chimp_header_survives_reopen(&candidate, &ReopenOutcome::Reopened(reopened)).unwrap();
}

#[test]
fn drift_is_reported_field_by_field() {
    let document = rename_fixture();
    let mut written = document.header.clone();
    written.is_unversioned = false;
    let mut reopened = written.clone();
    reopened.summary.package_flags = 0x1;
    reopened.versioning_info.licensee_version = -3;
    reopened.bulk_data_len = 2;
    let error =
        chimp_header_survives_reopen(&written, &ReopenOutcome::Reopened(reopened)).unwrap_err();
    assert_eq!(
        error,
        "The package does not read back as it was written, so the change was not applied:\n  \
         package flags was written as 0x80000000 and read back as 0x00000001\n  \
         licensee version was written as 0 and read back as -3\n  \
         bulk data entries was written as 0 and read back as 2"
    );
}

#[test]
fn the_reopen_gate_refuses_a_header_that_cannot_be_read_back() {
    let document = rename_fixture();
    let candidate = document.header.clone();
    let error = chimp_header_survives_reopen(
        &candidate,
        &ReopenOutcome::NotReopened("export bundle is empty".to_owned()),
    )
    .unwrap_err();
    assert!(error.contains("did not reopen"), "{error}");
    let error = chimp_header_survives_reopen(
        &candidate,
        &ReopenOutcome::NotWritten("no payloads".to_owned()),
    )
    .unwrap_err();
    assert_eq!(error, "The edited header could not be written: no payloads");
}

#[test]
fn a_drifting_identity_edit_leaves_the_document_alone() {
    let mut document = rename_fixture();
    let mut edit = identity_edit(&document);
    edit.package_flags = "1".to_owned();
    let reopened = ReopenOutcome::Reopened(document.header.clone());
    let error = apply_chimp_identity_edit(&mut document, &edit, &reopened).unwrap_err();
    assert!(error.contains("package flags was written as 0x00000001"), "{error}");
    assert_eq!(document.header.summary.package_flags, 0x8000_0000);
}

#[test]
fn the_named_object_flag_bits_match_the_engine_values() {
    let named: Vec<(u32, &str)> = CHIMP_OBJECT_FLAG_BITS.to_vec();
    assert_eq!(named[0], (0x0000_0001, "Public"));
    assert_eq!(named[1], (0x0000_0002, "Standalone"));
    assert_eq!(named[2], (0x0000_0008, "Transactional"));
    assert_eq!(named[3], (0x0000_0010, "ClassDefaultObject"));
    assert_eq!(named[4], (0x0000_0020, "ArchetypeObject"));

    let all: u32 = CHIMP_OBJECT_FLAG_BITS.iter().map(|(bit, _)| bit).sum();
    assert_eq!(0xb_u32 & !all, 0, "0xb is fully named");
    assert_eq!(0x1_u32 & !all, 0, "the generated-group value is fully named");
}

#[test]
fn name_usage_is_counted_and_its_sites_listed_once() {
    let mut usage = ChimpNameUsage::default();
    usage.record("package name".to_owned());
    usage.record("package name".to_owned());
    usage.record("export 0 object name".to_owned());
    assert_eq!(usage.count, 3);
    assert_eq!(usage.sites, vec!["package name", "export 0 object name"]);
    for site in 0..20 {
        usage.record(format!("export {site} properties"));
    }
    assert_eq!(usage.count, 23);
    assert_eq!(usage.sites.len(), 8);
}

#[test]
fn a_name_usage_tooltip_says_who_references_the_entry() {
    let usage = ChimpNameUsage::default();
    assert_eq!(name_usage_tooltip(&usage), "Nothing references this entry.");

    let mut usage = ChimpNameUsage::default();
    usage.is_package_identity = true;
    usage.record("package name".to_owned());
    usage.record("export 0 object name".to_owned());
    let tooltip = name_usage_tooltip(&usage);
    assert!(tooltip.starts_with("This entry is the package's own name."));
    assert!(tooltip.ends_with(
        "\nReferenced 2 time(s) by:\n  \u{2022} package name\n  \u{2022} export 0 object name"
    ));

    let mut usage = ChimpNameUsage::default();
    for site in 0..9 {
        usage.record(format!("site {site}"));
    }
    assert!(name_usage_tooltip(&usage).ends_with("  \u{2022} site 7\n  \u{2022} \u{2026}"));
}

#[test]
fn an_import_slot_is_shown_by_kind_and_target() {
    assert_eq!(
        import_slot_display(&ImportSlot::Null, None),
        ("null".to_owned(), "None".to_owned())
    );
    assert_eq!(
        import_slot_display(&ImportSlot::Script(0xAB), None),
        (
            "script".to_owned(),
            "unknown to this mount (0x00000000000000AB)".to_owned()
        )
    );
    assert_eq!(
        import_slot_display(&ImportSlot::Script(0xAB), Some("/Script/Engine.Actor".to_owned())),
        ("script".to_owned(), "/Script/Engine.Actor".to_owned())
    );
    assert_eq!(
        import_slot_display(
            &ImportSlot::Package(ImportTarget {
                package: "/Game/One".to_owned(),
                object_hash: 0x0123_4567_89AB_CDEF,
            }),
            None
        ),
        ("package".to_owned(), "/Game/One#0123456789ABCDEF".to_owned())
    );
}

#[test]
fn an_import_draft_is_seeded_from_the_slot() {
    let target = ImportTarget {
        package: "/Game/One".to_owned(),
        object_hash: 7,
    };
    let exports = vec![("Alpha".to_owned(), 3), ("Beta".to_owned(), 7)];
    let edit = chimp_import_edit_for(2, &ImportSlot::Package(target.clone()), None, Ok(exports.clone()));
    assert_eq!(edit.slot, 2);
    assert_eq!(edit.kind, ChimpImportKind::Package);
    assert_eq!(edit.package_path, "/Game/One");
    assert_eq!(edit.object_name, "Beta");
    assert_eq!(edit.resolved, Some(Ok(exports)));

    let edit = chimp_import_edit_for(0, &ImportSlot::Package(target), None, Err("not mounted".to_owned()));
    assert_eq!(edit.object_name, "");
    assert!(edit.resolved.is_none());

    let edit = chimp_import_edit_for(1, &ImportSlot::Script(9), None, Ok(Vec::new()));
    assert_eq!(edit.kind, ChimpImportKind::Script);
    assert_eq!(edit.script_path, "");
    let edit = chimp_import_edit_for(1, &ImportSlot::Null, None, Ok(Vec::new()));
    assert_eq!(edit.kind, ChimpImportKind::Null);
}

#[test]
fn header_usage_counts_every_reference_and_lists_where() {
    let mut document = rename_fixture();
    document.header.import_slots = vec![ImportSlot::Null, ImportSlot::Null];
    if let Ok(decoded) = &mut document.exports[0].decoded {
        if let ExportBlock::Reflected(block) = &mut decoded.block {
            block.entries.push(entry(
                "Owner",
                PropValue::MapPairs(vec![(PropValue::Object(-1), PropValue::Object(3))]),
            ));
        }
    }
    let usage = refresh_chimp_header_usage(&document);
    assert_eq!(usage.names.len(), 2);
    assert_eq!(usage.names[0].count, 2);
    assert_eq!(usage.names[0].sites, vec!["package name", "export 0 properties"]);
    assert!(usage.names[0].is_package_identity);
    assert_eq!(usage.names[1].count, 3);
    assert_eq!(
        usage.names[1].sites,
        vec!["export 0 object name", "export 0 properties"]
    );
    assert!(!usage.names[1].is_package_identity);
    assert_eq!(usage.import_references, vec![1, 0]);
}

#[test]
fn public_exports_are_listed_sorted_and_once() {
    let mut header = header_with_names(&["Warthog", "Material", "Alpha"]);
    let export = |index: u32, number: u32, hash: u64| FExportMapEntry {
        object_name: mapped(index, number),
        outer_is_null: true,
        object_flags: 0,
        filter_flags: EExportFilterFlags::NoExportFilter,
        public_export_hash: hash,
    };
    header.export_map = vec![
        export(1, 0, 9),
        export(2, 0, 4),
        export(1, 0, 9),
        export(0, 0, 0),
        export(7, 0, 5),
        export(1, 2, 1),
        export(1, 0, 3),
    ];
    assert_eq!(
        chimp_public_exports_of(&header),
        vec![
            ("Alpha".to_owned(), 4),
            ("Material".to_owned(), 3),
            ("Material".to_owned(), 9),
            ("Material_1".to_owned(), 1),
        ]
    );
}

fn empty_export() -> Export {
    Export {
        block: ExportBlock::NotSerialized,
    }
}

#[test]
fn a_redecode_reports_which_step_failed() {
    let document = rename_fixture();
    assert_eq!(
        chimp_redecode_export(&document, 0, 0x0b, Ok(()), Ok(empty_export())),
        Ok(Some(empty_export()))
    );
    assert_eq!(
        chimp_redecode_export(&document, 0, 0x0b, Err("no schema".to_owned()), Ok(empty_export())),
        Err("Could not re-serialize export 0: no schema".to_owned())
    );
    assert_eq!(
        chimp_redecode_export(&document, 0, 0x2a, Ok(()), Err("short read".to_owned())),
        Err("Export 0 no longer decodes with object flags 0x0000002A: short read".to_owned())
    );
}

#[test]
fn nothing_decoded_means_nothing_to_redecode() {
    let mut document = rename_fixture();
    document.exports[0].decoded = Err("bad".to_owned());
    assert_eq!(
        chimp_redecode_export(&document, 0, 0, Err("ignored".to_owned()), Err("ignored".to_owned())),
        Ok(None)
    );
    let mut document = rename_fixture();
    document.exports[0].class = None;
    assert_eq!(
        chimp_redecode_export(&document, 0, 0, Ok(()), Ok(empty_export())),
        Ok(None)
    );
}

fn import_draft(kind: ChimpImportKind) -> ChimpImportEdit {
    ChimpImportEdit {
        slot: 4,
        kind,
        script_path: " /Script/Engine.StaticMesh ".to_owned(),
        package_path: "  /Game/Art/SM_Crate\t".to_owned(),
        object_name: " SM_Crate ".to_owned(),
        resolved: None,
    }
}

#[test]
fn an_import_draft_commits_the_slot_its_kind_names() {
    let object_hash = stand_in_hash("SM_Crate");
    assert_eq!(
        chimp_import_slot_for(&import_draft(ChimpImportKind::Package), 7, object_hash),
        (
            4,
            ImportSlot::Package(ImportTarget {
                package: "/Game/Art/SM_Crate".to_owned(),
                object_hash,
            })
        )
    );
    assert_eq!(
        chimp_import_slot_for(&import_draft(ChimpImportKind::Script), 7, object_hash),
        (4, ImportSlot::Script(7))
    );
    assert_eq!(
        chimp_import_slot_for(&import_draft(ChimpImportKind::Null), 7, object_hash),
        (4, ImportSlot::Null)
    );
}
