use baboon::header::{
    ChimpDocument, ChimpExport, Export, ExportBlock, FPackageSummary,
    FZenPackageHeader, FZenVersioningInfo, ImportSlot, ImportTarget, PropValue, PropertyBlock,
    PropertyEntry,
};
use baboon::level::{chimp_attach_chain, read_cell_components, MAX_ATTACH_DEPTH};
use baboon::names::{FMappedName, FNameMap};

fn entry(name: &str, value: PropValue) -> PropertyEntry {
    PropertyEntry {
        name: name.to_owned(),
        value,
    }
}

fn component(class: &str, entries: Vec<PropertyEntry>) -> ChimpExport {
    ChimpExport {
        object: class.to_owned(),
        class: Some(class.to_owned()),
        decoded: Ok(Export {
            block: ExportBlock::Reflected(PropertyBlock { entries }),
        }),
    }
}

fn cell(exports: Vec<ChimpExport>, import_slots: Vec<ImportSlot>) -> ChimpDocument {
    ChimpDocument {
        package: "/Game/C10/_Generated_/Cell".to_owned(),
        header: FZenPackageHeader {
            summary: FPackageSummary {
                name: FMappedName { index: 0, number: 0 },
                package_flags: 0,
                has_versioning_info: 0,
            },
            is_unversioned: true,
            versioning_info: FZenVersioningInfo {
                zen_version: 3,
                file_version_ue4: 522,
                file_version_ue5: 1009,
                licensee_version: 0,
            },
            name_map: FNameMap {
                names: vec!["Cell".to_owned()],
            },
            import_slots,
            export_map: Vec::new(),
            cell_export_map: Vec::new(),
            bulk_data_len: 0,
        },
        payloads: Vec::new(),
        exports,
    }
}

fn package_slot(package: &str) -> ImportSlot {
    ImportSlot::Package(ImportTarget {
        package: package.to_owned(),
        object_hash: 0,
    })
}

#[test]
fn components_name_their_mesh_and_skips_are_told_apart() {
    let document = cell(
        vec![
            // 0: placed, attached to export 2.
            component(
                "StaticMeshComponent",
                vec![
                    entry("StaticMesh", PropValue::Object(-1)),
                    entry("AttachParent", PropValue::Object(3)),
                ],
            ),
            // 1: takes its mesh from a class default.
            component("StaticMeshComponent", vec![]),
            // 2: the parent scene component; not a mesh.
            component("SceneComponent", vec![]),
            // 3: a mesh reference to a slot that is not a package.
            component(
                "InstancedStaticMeshComponent",
                vec![entry("StaticMesh", PropValue::Object(-2))],
            ),
            // 4: instanced and placed.
            component(
                "InstancedStaticMeshComponent",
                vec![entry("StaticMesh", PropValue::Object(-1))],
            ),
        ],
        vec![package_slot("/Game/Props/SM_Crate"), ImportSlot::Null],
    );
    let reading = read_cell_components(&document);
    let placed: Vec<(usize, String, bool, Vec<usize>)> = reading
        .components
        .iter()
        .map(|c| (c.export, c.package.clone(), c.instanced, c.chain.clone()))
        .collect();
    assert_eq!(
        placed,
        vec![
            (0, "/Game/Props/SM_Crate".to_owned(), false, vec![0, 2]),
            (4, "/Game/Props/SM_Crate".to_owned(), true, vec![4]),
        ]
    );
    assert_eq!(reading.skips.inherited_mesh, 1);
    assert_eq!(reading.skips.unresolved_mesh, 1);
    assert_eq!(reading.skips.unreadable_instances, 0);
}

#[test]
fn an_undecoded_component_is_passed_over() {
    let mut broken = component("StaticMeshComponent", vec![]);
    broken.decoded = Err("bad".to_owned());
    let document = cell(vec![broken], vec![]);
    let reading = read_cell_components(&document);
    assert!(reading.components.is_empty());
    assert_eq!(reading.skips.inherited_mesh + reading.skips.unresolved_mesh, 0);
}

#[test]
fn an_attach_cycle_ends_the_chain() {
    let exports = vec![
        component("SceneComponent", vec![entry("AttachParent", PropValue::Object(2))]),
        component("SceneComponent", vec![entry("AttachParent", PropValue::Object(1))]),
    ];
    assert_eq!(chimp_attach_chain(&exports, 0), vec![0, 1]);
    assert_eq!(chimp_attach_chain(&exports, 1), vec![1, 0]);
    // A parent outside the package, or past the exports, ends it too.
    let exports = vec![
        component("SceneComponent", vec![entry("AttachParent", PropValue::Object(-4))]),
        component("SceneComponent", vec![entry("AttachParent", PropValue::Object(9))]),
    ];
    assert_eq!(chimp_attach_chain(&exports, 0), vec![0]);
    assert_eq!(chimp_attach_chain(&exports, 1), vec![1]);
    assert_eq!(chimp_attach_chain(&exports, 5), Vec::<usize>::new());
}

#[test]
fn a_runaway_chain_stops_at_the_depth_limit() {
    let exports: Vec<ChimpExport> = (0..40)
        .map(|k| {
            component(
                "SceneComponent",
                vec![entry("AttachParent", PropValue::Object(k + 2))],
            )
        })
        .collect();
    let chain = chimp_attach_chain(&exports, 0);
    assert_eq!(chain.len(), MAX_ATTACH_DEPTH);
    assert_eq!(chain, (0..MAX_ATTACH_DEPTH).collect::<Vec<_>>());
}
