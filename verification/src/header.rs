//! The Chimp package header as the editor holds it: the summary, the name
//! map, the export and import tables, and the decoded property values that
//! refer into them; with the checks run before a header is written.

use vstd::prelude::*;

use crate::names::{
    find_name, lemma_store_then_resolve, name_text, no_entry_message, parse_name, resolve,
    stored_index,
    FMappedName, FNameMap,
};
use crate::browser::views;
use crate::order::{
    chars_eq, chars_lt, lemma_seq_lt_total, lemma_seq_lt_transitive,
    seq_lt,
};
use crate::text::{
    chars_of, decimal, hex_upper, join, parse_hex_u32, parse_hex_u32_exec, push_decimal,
    push_hex_upper, push_joined, push_signed_decimal, push_str, signed_decimal, string_of, sub_chars,
    trim, trim_chars, trim_string,
};

verus! {

/// Which side of a networked game an export is cooked for.
#[derive(Clone, Copy, Debug, PartialEq, Eq, Structural)]
pub enum EExportFilterFlags {
    NoExportFilter,
    NotForClient,
    NotForServer,
}

/// One export-map entry.
#[derive(Clone, Copy, Debug, PartialEq, Eq, Structural)]
pub struct FExportMapEntry {
    pub object_name: FMappedName,
    /// Whether the export has no outer: a top-level object of its package.
    pub outer_is_null: bool,
    pub object_flags: u32,
    pub filter_flags: EExportFilterFlags,
    /// How other packages address this export: a hash of its object name.
    pub public_export_hash: u64,
}

/// One cell-export entry: only its class name refers into the name map.
#[derive(Clone, Copy, Debug, PartialEq, Eq, Structural)]
pub struct FCellExportMapEntry {
    pub cpp_class_info: FMappedName,
}

/// The package an import comes from, and the hash of the export it names.
#[derive(Clone, Debug, PartialEq, Eq)]
pub struct ImportTarget {
    pub package: String,
    pub object_hash: u64,
}

/// One import slot, in the position an object property addresses it by.
#[derive(Clone, Debug, PartialEq, Eq)]
pub enum ImportSlot {
    /// A `/Script` class, known only by the hash of its object path.
    Script(u64),
    Package(ImportTarget),
    Null,
}

#[derive(Clone, Copy, Debug, PartialEq, Eq, Structural)]
pub struct FPackageSummary {
    /// The package's own name: its identity.
    pub name: FMappedName,
    pub package_flags: u32,
    /// `1` when a versioning block is written, `0` when it is not.
    pub has_versioning_info: u32,
}

#[derive(Clone, Copy, Debug, PartialEq, Eq, Structural)]
pub struct FZenVersioningInfo {
    pub zen_version: u32,
    pub file_version_ue4: i32,
    pub file_version_ue5: i32,
    pub licensee_version: i32,
}

/// A package header: the tables every reference in the package lands in.
#[derive(Clone, Debug)]
pub struct FZenPackageHeader {
    pub summary: FPackageSummary,
    pub is_unversioned: bool,
    pub versioning_info: FZenVersioningInfo,
    pub name_map: FNameMap,
    pub import_slots: Vec<ImportSlot>,
    pub export_map: Vec<FExportMapEntry>,
    pub cell_export_map: Vec<FCellExportMapEntry>,
    /// How many bulk-data entries the header carries.
    pub bulk_data_len: usize,
}

/// A name as a decoded value carries it: the reference, and the text it
/// resolved to when it was read.
#[derive(Clone, Debug, PartialEq, Eq)]
pub struct FName {
    pub index: u32,
    pub number: u32,
    pub text: String,
}

#[derive(Clone, Debug, PartialEq, Eq)]
pub struct SoftObjectPath {
    pub package: String,
    pub asset: String,
    pub sub_path: String,
}

/// A decoded property value.
#[derive(Debug, PartialEq, Eq)]
pub enum PropValue {
    Bool(bool),
    Int(i64),
    /// A floating-point value, held as the bits of its `f64`.
    Float(u64),
    Name(FName),
    Str(String),
    /// An `FPackageIndex`: negative for an import slot, positive for an export.
    Object(i32),
    SoftObject(SoftObjectPath),
    Array(Vec<PropValue>),
    SetItems(Vec<PropValue>),
    MapPairs(Vec<(PropValue, PropValue)>),
    Struct(PropertyBlock),
    /// Bytes the decoder could not give a shape to.
    Raw(Vec<u8>),
    /// A container serialised as a change against its default, with the
    /// `{:?}` text the decoder gives for the whole value, which is how the
    /// property document shows it.
    WithRemovals { removals: Vec<PropValue>, inner: Box<PropValue>, debug: String },
    Unset,
    /// Any other shape, held as the `{:?}` text the decoder gives for it,
    /// which is how the property document shows it.
    Opaque(String),
}

#[derive(Debug, PartialEq, Eq)]
pub struct PropertyEntry {
    pub name: String,
    pub value: PropValue,
}

#[derive(Debug, PartialEq, Eq)]
pub struct PropertyBlock {
    pub entries: Vec<PropertyEntry>,
}

#[derive(Debug, PartialEq, Eq)]
pub enum ExportBlock {
    Reflected(PropertyBlock),
    Unreflected(PropertyBlock),
    NotSerialized,
}

#[derive(Debug, PartialEq, Eq)]
pub struct Export {
    pub block: ExportBlock,
}

/// One export as the document holds it: its display name, its class, and its
/// decoded value or the reason it did not decode.
#[derive(Debug)]
pub struct ChimpExport {
    pub object: String,
    pub class: Option<String>,
    pub decoded: Result<Export, String>,
}

/// An open package.
#[derive(Debug)]
pub struct ChimpDocument {
    pub package: String,
    pub header: FZenPackageHeader,
    pub payloads: Vec<Vec<u8>>,
    pub exports: Vec<ChimpExport>,
}

// ---------------------------------------------------------------------------
// References past the end of the import map
// ---------------------------------------------------------------------------

/// The import slot a negative `FPackageIndex` names: `-1` is slot 0.
pub open spec fn import_slot_of(index: i32) -> Option<usize> {
    if index < 0 {
        Some((-(index + 1)) as usize)
    } else {
        None
    }
}

/// The first object reference inside `v`, in reading order, that names an
/// import slot at or past `slots`. A change-against-default wrapper is looked
/// through to the container it wraps.
pub open spec fn bad_ref(v: PropValue, slots: usize) -> Option<usize>
    decreases v, 1int,
{
    match v {
        PropValue::WithRemovals { inner, .. } => match *inner {
            PropValue::Object(index) => bad_object(index, slots),
            PropValue::Array(items) => bad_ref_seq(items@, slots),
            PropValue::SetItems(items) => bad_ref_seq(items@, slots),
            PropValue::MapPairs(pairs) => bad_ref_pairs(pairs@, slots),
            PropValue::Struct(block) => bad_ref_entries(block.entries@, slots),
            _ => None,
        },
        PropValue::Object(index) => bad_object(index, slots),
        PropValue::Array(items) => bad_ref_seq(items@, slots),
        PropValue::SetItems(items) => bad_ref_seq(items@, slots),
        PropValue::MapPairs(pairs) => bad_ref_pairs(pairs@, slots),
        PropValue::Struct(block) => bad_ref_entries(block.entries@, slots),
        _ => None,
    }
}

pub open spec fn bad_object(index: i32, slots: usize) -> Option<usize> {
    match import_slot_of(index) {
        Some(slot) => if slot >= slots {
            Some(slot)
        } else {
            None
        },
        None => None,
    }
}

pub open spec fn bad_ref_seq(items: Seq<PropValue>, slots: usize) -> Option<usize>
    decreases items, 0int,
{
    if items.len() == 0 {
        None
    } else {
        match bad_ref_seq(items.subrange(0, items.len() - 1), slots) {
            Some(slot) => Some(slot),
            None => bad_ref(items[items.len() - 1], slots),
        }
    }
}

pub open spec fn bad_ref_pairs(pairs: Seq<(PropValue, PropValue)>, slots: usize) -> Option<usize>
    decreases pairs, 0int,
{
    if pairs.len() == 0 {
        None
    } else {
        match bad_ref_pairs(pairs.subrange(0, pairs.len() - 1), slots) {
            Some(slot) => Some(slot),
            None => match bad_ref(pairs[pairs.len() - 1].0, slots) {
                Some(slot) => Some(slot),
                None => bad_ref(pairs[pairs.len() - 1].1, slots),
            },
        }
    }
}

pub open spec fn bad_ref_entries(entries: Seq<PropertyEntry>, slots: usize) -> Option<usize>
    decreases entries, 0int,
{
    if entries.len() == 0 {
        None
    } else {
        match bad_ref_entries(entries.subrange(0, entries.len() - 1), slots) {
            Some(slot) => Some(slot),
            None => bad_ref(entries[entries.len() - 1].value, slots),
        }
    }
}

fn bad_object_exec(index: i32, slots: usize) -> (out: Option<usize>)
    ensures
        out == bad_object(index, slots),
{
    if index < 0 {
        let slot: usize = (-(index as i64 + 1)) as usize;
        if slot >= slots {
            Some(slot)
        } else {
            None
        }
    } else {
        None
    }
}

fn bad_ref_in(value: &PropValue, slots: usize) -> (out: Option<usize>)
    ensures
        out == bad_ref(*value, slots),
    decreases value, 1int,
{
    match value {
        PropValue::WithRemovals { inner, .. } => match &**inner {
            PropValue::Object(index) => bad_object_exec(*index, slots),
            PropValue::Array(items) => bad_ref_in_seq(items, slots),
            PropValue::SetItems(items) => bad_ref_in_seq(items, slots),
            PropValue::MapPairs(pairs) => bad_ref_in_pairs(pairs, slots),
            PropValue::Struct(block) => bad_ref_in_entries(&block.entries, slots),
            _ => None,
        },
        PropValue::Object(index) => bad_object_exec(*index, slots),
        PropValue::Array(items) => bad_ref_in_seq(items, slots),
        PropValue::SetItems(items) => bad_ref_in_seq(items, slots),
        PropValue::MapPairs(pairs) => bad_ref_in_pairs(pairs, slots),
        PropValue::Struct(block) => bad_ref_in_entries(&block.entries, slots),
        _ => None,
    }
}

fn bad_ref_in_seq(items: &Vec<PropValue>, slots: usize) -> (out: Option<usize>)
    ensures
        out == bad_ref_seq(items@, slots),
    decreases items, 0int,
{
    let mut found: Option<usize> = None;
    let mut i: usize = 0;
    while i < items.len()
        invariant
            i <= items.len(),
            found == bad_ref_seq(items@.subrange(0, i as int), slots),
        decreases items.len() - i,
    {
        proof {
            let t = items@.subrange(0, i + 1);
            assert(t.subrange(0, t.len() - 1) =~= items@.subrange(0, i as int));
            assert(t[t.len() - 1] == items@[i as int]);
        }
        if found.is_none() {
            found = bad_ref_in(&items[i], slots);
        }
        i += 1;
    }
    assert(items@.subrange(0, items.len() as int) =~= items@);
    found
}

fn bad_ref_in_pairs(pairs: &Vec<(PropValue, PropValue)>, slots: usize) -> (out: Option<usize>)
    ensures
        out == bad_ref_pairs(pairs@, slots),
    decreases pairs, 0int,
{
    let mut found: Option<usize> = None;
    let mut i: usize = 0;
    while i < pairs.len()
        invariant
            i <= pairs.len(),
            found == bad_ref_pairs(pairs@.subrange(0, i as int), slots),
        decreases pairs.len() - i,
    {
        proof {
            let t = pairs@.subrange(0, i + 1);
            assert(t.subrange(0, t.len() - 1) =~= pairs@.subrange(0, i as int));
            assert(t[t.len() - 1] == pairs@[i as int]);
        }
        if found.is_none() {
            found = bad_ref_in(&pairs[i].0, slots);
            if found.is_none() {
                found = bad_ref_in(&pairs[i].1, slots);
            }
        }
        i += 1;
    }
    assert(pairs@.subrange(0, pairs.len() as int) =~= pairs@);
    found
}

fn bad_ref_in_entries(entries: &Vec<PropertyEntry>, slots: usize) -> (out: Option<usize>)
    ensures
        out == bad_ref_entries(entries@, slots),
    decreases entries, 0int,
{
    let mut found: Option<usize> = None;
    let mut i: usize = 0;
    while i < entries.len()
        invariant
            i <= entries.len(),
            found == bad_ref_entries(entries@.subrange(0, i as int), slots),
        decreases entries.len() - i,
    {
        proof {
            let t = entries@.subrange(0, i + 1);
            assert(t.subrange(0, t.len() - 1) =~= entries@.subrange(0, i as int));
            assert(t[t.len() - 1] == entries@[i as int]);
        }
        if found.is_none() {
            found = bad_ref_in(&entries[i].value, slots);
        }
        i += 1;
    }
    assert(entries@.subrange(0, entries.len() as int) =~= entries@);
    found
}

/// The first negative `FPackageIndex` in `block` that names a slot past the
/// end of an import map of `slots` slots, if any.
pub fn first_unresolvable_object_reference(block: &PropertyBlock, slots: usize) -> (out: Option<
    usize,
>)
    ensures
        out == bad_ref_entries(block.entries@, slots),
{
    bad_ref_in_entries(&block.entries, slots)
}

// ---------------------------------------------------------------------------
// Header validation
// ---------------------------------------------------------------------------

/// The first reference in `refs` that points past a table of `len` entries.
pub open spec fn first_dangling(refs: Seq<FMappedName>, len: nat) -> Option<int>
    decreases refs.len(),
{
    if refs.len() == 0 {
        None
    } else {
        match first_dangling(refs.drop_last(), len) {
            Some(k) => Some(k),
            None => if refs.last().index >= len {
                Some(refs.len() - 1)
            } else {
                None
            },
        }
    }
}

pub open spec fn export_names(entries: Seq<FExportMapEntry>) -> Seq<FMappedName> {
    entries.map_values(|e: FExportMapEntry| e.object_name)
}

pub open spec fn cell_class_names(cells: Seq<FCellExportMapEntry>) -> Seq<FMappedName> {
    cells.map_values(|c: FCellExportMapEntry| c.cpp_class_info)
}

/// The reflected property block of a decoded export, when there is one.
pub open spec fn reflected_block(export: ChimpExport) -> Option<PropertyBlock> {
    match export.decoded {
        Ok(decoded) => match decoded.block {
            ExportBlock::Reflected(block) => Some(block),
            _ => None,
        },
        Err(_) => None,
    }
}

/// The first export whose properties name an import slot past `slots`, with
/// the slot it names.
pub open spec fn first_bad_export(exports: Seq<ChimpExport>, slots: usize) -> Option<(int, usize)>
    decreases exports.len(),
{
    if exports.len() == 0 {
        None
    } else {
        match first_bad_export(exports.drop_last(), slots) {
            Some(found) => Some(found),
            None => match reflected_block(exports.last()) {
                Some(block) => match bad_ref_entries(block.entries@, slots) {
                    Some(bad) => Some((exports.len() - 1, bad)),
                    None => None,
                },
                None => None,
            },
        }
    }
}

pub open spec fn payload_count_message(package: Seq<char>, payloads: nat, entries: nat) -> Seq<char> {
    package + " has "@ + decimal(payloads) + " export payloads for "@ + decimal(entries)
        + " export map entries"@
}

pub open spec fn package_name_message(package: Seq<char>) -> Seq<char> {
    package + ": the package name points outside the name map"@
}

pub open spec fn export_name_message(package: Seq<char>, k: nat) -> Seq<char> {
    package + ": export "@ + decimal(k) + "'s object name points outside the name map"@
}

pub open spec fn cell_name_message(package: Seq<char>, k: nat) -> Seq<char> {
    package + ": cell export "@ + decimal(k) + "'s class name points outside the name map"@
}

pub open spec fn import_reference_message(package: Seq<char>, k: nat, bad: nat, slots: nat) -> Seq<
    char,
> {
    package + ": export "@ + decimal(k) + " references import slot "@ + decimal(bad)
        + ", but the import map has "@ + decimal(slots) + " slots"@
}

/// What is wrong with a header, in the order the checks run: the payload
/// count, then every name reference, then every import reference in the
/// decoded properties. `None` when nothing is.
pub open spec fn header_problem(
    package: Seq<char>,
    header: FZenPackageHeader,
    payload_count: nat,
    exports: Seq<ChimpExport>,
) -> Option<Seq<char>> {
    let len = header.name_map.names@.len();
    if payload_count != header.export_map@.len() {
        Some(payload_count_message(package, payload_count, header.export_map@.len()))
    } else if header.summary.name.index >= len {
        Some(package_name_message(package))
    } else if let Some(k) = first_dangling(export_names(header.export_map@), len) {
        Some(export_name_message(package, k as nat))
    } else if let Some(k) = first_dangling(cell_class_names(header.cell_export_map@), len) {
        Some(cell_name_message(package, k as nat))
    } else if let Some((k, bad)) = first_bad_export(exports, header.import_slots@.len() as usize) {
        Some(import_reference_message(package, k as nat, bad as nat, header.import_slots@.len()))
    } else {
        None
    }
}

fn first_dangling_export(entries: &Vec<FExportMapEntry>, len: usize) -> (out: Option<usize>)
    ensures
        match first_dangling(export_names(entries@), len as nat) {
            Some(k) => out matches Some(x) && x == k && k < entries@.len(),
            None => out is None,
        },
{
    let mut found: Option<usize> = None;
    let mut i: usize = 0;
    while i < entries.len()
        invariant
            i <= entries.len(),
            match first_dangling(export_names(entries@.subrange(0, i as int)), len as nat) {
                Some(k) => found == Some(k as usize) && 0 <= k < i,
                None => found is None,
            },
        decreases entries.len() - i,
    {
        proof {
            let t = export_names(entries@.subrange(0, i + 1));
            assert(t.drop_last() =~= export_names(entries@.subrange(0, i as int)));
        }
        if found.is_none() && entries[i].object_name.index as usize >= len {
            found = Some(i);
        }
        i += 1;
    }
    assert(entries@.subrange(0, entries.len() as int) =~= entries@);
    found
}

fn first_dangling_cell(cells: &Vec<FCellExportMapEntry>, len: usize) -> (out: Option<usize>)
    ensures
        match first_dangling(cell_class_names(cells@), len as nat) {
            Some(k) => out matches Some(x) && x == k && k < cells@.len(),
            None => out is None,
        },
{
    let mut found: Option<usize> = None;
    let mut i: usize = 0;
    while i < cells.len()
        invariant
            i <= cells.len(),
            match first_dangling(cell_class_names(cells@.subrange(0, i as int)), len as nat) {
                Some(k) => found == Some(k as usize) && 0 <= k < i,
                None => found is None,
            },
        decreases cells.len() - i,
    {
        proof {
            let t = cell_class_names(cells@.subrange(0, i + 1));
            assert(t.drop_last() =~= cell_class_names(cells@.subrange(0, i as int)));
        }
        if found.is_none() && cells[i].cpp_class_info.index as usize >= len {
            found = Some(i);
        }
        i += 1;
    }
    assert(cells@.subrange(0, cells.len() as int) =~= cells@);
    found
}

fn first_bad_export_exec(exports: &Vec<ChimpExport>, slots: usize) -> (out: Option<(usize, usize)>)
    ensures
        match first_bad_export(exports@, slots) {
            Some((k, bad)) => out matches Some((x, b)) && x == k && b == bad && k < exports@.len(),
            None => out is None,
        },
{
    let mut found: Option<(usize, usize)> = None;
    let mut i: usize = 0;
    while i < exports.len()
        invariant
            i <= exports.len(),
            match first_bad_export(exports@.subrange(0, i as int), slots) {
                Some((k, bad)) => found == Some((k as usize, bad)) && 0 <= k < i,
                None => found is None,
            },
        decreases exports.len() - i,
    {
        proof {
            let t = exports@.subrange(0, i + 1);
            assert(t.drop_last() =~= exports@.subrange(0, i as int));
        }
        if found.is_none() {
            if let Ok(decoded) = &exports[i].decoded {
                if let ExportBlock::Reflected(block) = &decoded.block {
                    if let Some(bad) = first_unresolvable_object_reference(block, slots) {
                        found = Some((i, bad));
                    }
                }
            }
        }
        i += 1;
    }
    assert(exports@.subrange(0, exports.len() as int) =~= exports@);
    found
}

/// Structural checks over a header before it is written: the payloads pair
/// with the export map, every name reference lands inside the name map, and
/// every import reference in a decoded property lands inside the import map.
pub fn validate_chimp_header_parts(
    package: &str,
    header: &FZenPackageHeader,
    payload_count: usize,
    exports: &Vec<ChimpExport>,
) -> (out: Result<(), String>)
    ensures
        match header_problem(package@, *header, payload_count as nat, exports@) {
            Some(message) => out matches Err(e) && e@ == message,
            None => out is Ok,
        },
{
    let len = header.name_map.names.len();
    let mut message = chars_of(package);
    if payload_count != header.export_map.len() {
        push_str(&mut message, " has ");
        push_decimal(&mut message, payload_count as u64);
        push_str(&mut message, " export payloads for ");
        push_decimal(&mut message, header.export_map.len() as u64);
        push_str(&mut message, " export map entries");
        return Err(string_of(&message));
    }
    if header.summary.name.index as usize >= len {
        push_str(&mut message, ": the package name points outside the name map");
        return Err(string_of(&message));
    }
    if let Some(k) = first_dangling_export(&header.export_map, len) {
        push_str(&mut message, ": export ");
        push_decimal(&mut message, k as u64);
        push_str(&mut message, "'s object name points outside the name map");
        return Err(string_of(&message));
    }
    if let Some(k) = first_dangling_cell(&header.cell_export_map, len) {
        push_str(&mut message, ": cell export ");
        push_decimal(&mut message, k as u64);
        push_str(&mut message, "'s class name points outside the name map");
        return Err(string_of(&message));
    }
    let slots = header.import_slots.len();
    if let Some((k, bad)) = first_bad_export_exec(exports, slots) {
        push_str(&mut message, ": export ");
        push_decimal(&mut message, k as u64);
        push_str(&mut message, " references import slot ");
        push_decimal(&mut message, bad as u64);
        push_str(&mut message, ", but the import map has ");
        push_decimal(&mut message, slots as u64);
        push_str(&mut message, " slots");
        return Err(string_of(&message));
    }
    Ok(())
}

/// [`validate_chimp_header_parts`] over an open document.
pub fn validate_chimp_header(document: &ChimpDocument) -> (out: Result<(), String>)
    ensures
        match header_problem(
            document.package@,
            document.header,
            document.payloads@.len(),
            document.exports@,
        ) {
            Some(message) => out matches Err(e) && e@ == message,
            None => out is Ok,
        },
{
    validate_chimp_header_parts(
        document.package.as_str(),
        &document.header,
        document.payloads.len(),
        &document.exports,
    )
}

// ---------------------------------------------------------------------------
// Renaming a name-map entry
// ---------------------------------------------------------------------------

/// `b` is `a` with the text of every name that refers to entry `index`
/// recomposed from `base`, as the reader composes it; every other name, and
/// everything that is not a name, is as it was.
pub open spec fn renamed(a: PropValue, b: PropValue, index: int, base: Seq<char>) -> bool
    decreases a, 1int,
{
    match a {
        PropValue::Name(x) => b matches PropValue::Name(y) && y.index == x.index && y.number
            == x.number && y.text@ == (if x.index == index {
            name_text(base, x.number)
        } else {
            x.text@
        }),
        PropValue::Str(x) => b matches PropValue::Str(y) && y@ == x@,
        PropValue::Opaque(x) => b matches PropValue::Opaque(y) && y@ == x@,
        PropValue::Raw(x) => b matches PropValue::Raw(y) && y@ == x@,
        PropValue::SoftObject(x) => b matches PropValue::SoftObject(y) && y.package@ == x.package@
            && y.asset@ == x.asset@ && y.sub_path@ == x.sub_path@,
        PropValue::Array(xs) => b matches PropValue::Array(ys) && renamed_seq(
            xs@,
            ys@,
            index,
            base,
        ),
        PropValue::SetItems(xs) => b matches PropValue::SetItems(ys) && renamed_seq(
            xs@,
            ys@,
            index,
            base,
        ),
        PropValue::MapPairs(xs) => b matches PropValue::MapPairs(ys) && renamed_pairs(
            xs@,
            ys@,
            index,
            base,
        ),
        PropValue::Struct(x) => b matches PropValue::Struct(y) && renamed_entries(
            x.entries@,
            y.entries@,
            index,
            base,
        ),
        PropValue::WithRemovals { removals, inner, debug } => b matches PropValue::WithRemovals {
            removals: r,
            inner: i,
            debug: d,
        } && renamed_seq(removals@, r@, index, base) && renamed(*inner, *i, index, base) && d@ == debug@,
        _ => b == a,
    }
}

pub open spec fn renamed_seq(xs: Seq<PropValue>, ys: Seq<PropValue>, index: int, base: Seq<char>) -> bool
    decreases xs, 0int,
{
    &&& ys.len() == xs.len()
    &&& forall|k: int| 0 <= k < xs.len() ==> renamed(xs[k], #[trigger] ys[k], index, base)
}

pub open spec fn renamed_pairs(
    xs: Seq<(PropValue, PropValue)>,
    ys: Seq<(PropValue, PropValue)>,
    index: int,
    base: Seq<char>,
) -> bool
    decreases xs, 0int,
{
    &&& ys.len() == xs.len()
    &&& forall|k: int|
        0 <= k < xs.len() ==> renamed(xs[k].0, (#[trigger] ys[k]).0, index, base) && renamed(
            xs[k].1,
            ys[k].1,
            index,
            base,
        )
}

pub open spec fn renamed_entries(
    xs: Seq<PropertyEntry>,
    ys: Seq<PropertyEntry>,
    index: int,
    base: Seq<char>,
) -> bool
    decreases xs, 0int,
{
    &&& ys.len() == xs.len()
    &&& forall|k: int|
        0 <= k < xs.len() ==> (#[trigger] ys[k]).name@ == xs[k].name@ && renamed(
            xs[k].value,
            ys[k].value,
            index,
            base,
        )
}

fn renamed_value(value: &PropValue, index: usize, base: &Vec<char>) -> (out: PropValue)
    ensures
        renamed(*value, out, index as int, base@),
    decreases value, 1int,
{
    match value {
        PropValue::Bool(x) => PropValue::Bool(*x),
        PropValue::Int(x) => PropValue::Int(*x),
        PropValue::Float(x) => PropValue::Float(*x),
        PropValue::Object(x) => PropValue::Object(*x),
        PropValue::Unset => PropValue::Unset,
        PropValue::Name(x) => {
            let text = if x.index as usize == index {
                let mut t = base.clone();
                if x.number != 0 {
                    t.push('_');
                    push_decimal(&mut t, (x.number - 1) as u64);
                }
                assert(t@ =~= name_text(base@, x.number));
                string_of(&t)
            } else {
                x.text.clone()
            };
            PropValue::Name(FName { index: x.index, number: x.number, text })
        },
        PropValue::Str(x) => PropValue::Str(x.clone()),
        PropValue::Opaque(x) => PropValue::Opaque(x.clone()),
        PropValue::Raw(x) => {
            let mut bytes: Vec<u8> = Vec::new();
            let mut i: usize = 0;
            while i < x.len()
                invariant
                    i <= x.len(),
                    bytes@ == x@.subrange(0, i as int),
                decreases x.len() - i,
            {
                bytes.push(x[i]);
                i += 1;
            }
            assert(bytes@ =~= x@);
            PropValue::Raw(bytes)
        },
        PropValue::SoftObject(x) => PropValue::SoftObject(
            SoftObjectPath {
                package: x.package.clone(),
                asset: x.asset.clone(),
                sub_path: x.sub_path.clone(),
            },
        ),
        PropValue::Array(xs) => PropValue::Array(renamed_values(xs, index, base)),
        PropValue::SetItems(xs) => PropValue::SetItems(renamed_values(xs, index, base)),
        PropValue::MapPairs(xs) => PropValue::MapPairs(renamed_value_pairs(xs, index, base)),
        PropValue::Struct(x) => PropValue::Struct(
            PropertyBlock { entries: renamed_property_entries(&x.entries, index, base) },
        ),
        PropValue::WithRemovals { removals, inner, debug } => {
            let r = renamed_values(removals, index, base);
            let i = renamed_value(&**inner, index, base);
            PropValue::WithRemovals { removals: r, inner: Box::new(i), debug: debug.clone() }
        },
    }
}

fn renamed_values(xs: &Vec<PropValue>, index: usize, base: &Vec<char>) -> (out: Vec<PropValue>)
    ensures
        renamed_seq(xs@, out@, index as int, base@),
    decreases xs, 0int,
{
    let mut out: Vec<PropValue> = Vec::new();
    let mut i: usize = 0;
    while i < xs.len()
        invariant
            i <= xs.len(),
            out@.len() == i,
            forall|k: int| 0 <= k < i ==> renamed(xs@[k], #[trigger] out@[k], index as int, base@),
        decreases xs.len() - i,
    {
        let v = renamed_value(&xs[i], index, base);
        out.push(v);
        i += 1;
    }
    out
}

fn renamed_value_pairs(xs: &Vec<(PropValue, PropValue)>, index: usize, base: &Vec<char>) -> (out: Vec<
    (PropValue, PropValue),
>)
    ensures
        renamed_pairs(xs@, out@, index as int, base@),
    decreases xs, 0int,
{
    let mut out: Vec<(PropValue, PropValue)> = Vec::new();
    let mut i: usize = 0;
    while i < xs.len()
        invariant
            i <= xs.len(),
            out@.len() == i,
            forall|k: int|
                0 <= k < i ==> renamed(xs@[k].0, (#[trigger] out@[k]).0, index as int, base@) && renamed(
                    xs@[k].1,
                    out@[k].1,
                    index as int,
                    base@,
                ),
        decreases xs.len() - i,
    {
        let key = renamed_value(&xs[i].0, index, base);
        let value = renamed_value(&xs[i].1, index, base);
        out.push((key, value));
        i += 1;
    }
    out
}

fn renamed_property_entries(xs: &Vec<PropertyEntry>, index: usize, base: &Vec<char>) -> (out: Vec<
    PropertyEntry,
>)
    ensures
        renamed_entries(xs@, out@, index as int, base@),
    decreases xs, 0int,
{
    let mut out: Vec<PropertyEntry> = Vec::new();
    let mut i: usize = 0;
    while i < xs.len()
        invariant
            i <= xs.len(),
            out@.len() == i,
            forall|k: int|
                0 <= k < i ==> (#[trigger] out@[k]).name@ == xs@[k].name@ && renamed(
                    xs@[k].value,
                    out@[k].value,
                    index as int,
                    base@,
                ),
        decreases xs.len() - i,
    {
        let value = renamed_value(&xs[i].value, index, base);
        out.push(PropertyEntry { name: xs[i].name.clone(), value });
        i += 1;
    }
    out
}

/// Why the entry backing the package's own name cannot be renamed here.
pub const PACKAGE_NAME_RENAME_REFUSAL: &'static str = "This entry is the package's own name. Renaming a package has to move its chunk id and container-header entry with it, so it is a rename of the package rather than an edit of this table.";

/// `b` is export `a` after entry `index` was renamed to `base`: its display
/// name follows when its export-map entry names that entry, and the names in
/// its reflected properties are recomposed; nothing else moves.
pub open spec fn renamed_export(
    a: ChimpExport,
    b: ChimpExport,
    entry: Option<FExportMapEntry>,
    index: int,
    base: Seq<char>,
) -> bool {
    &&& b.class == a.class
    &&& match entry {
        Some(e) => if e.object_name.index == index {
            b.object@ == name_text(base, e.object_name.number)
        } else {
            b.object == a.object
        },
        None => b.object == a.object,
    }
    &&& match reflected_block(a) {
        Some(block) => b.decoded matches Ok(d) && d.block matches ExportBlock::Reflected(nb)
            && renamed_entries(block.entries@, nb.entries@, index, base),
        None => b.decoded == a.decoded,
    }
}

pub open spec fn entry_at(entries: Seq<FExportMapEntry>, k: int) -> Option<FExportMapEntry> {
    if 0 <= k < entries.len() {
        Some(entries[k])
    } else {
        None
    }
}

/// The whole effect of renaming entry `index` to `base`.
pub open spec fn renamed_document(a: ChimpDocument, b: ChimpDocument, index: int, base: Seq<char>) -> bool {
    &&& b.package == a.package
    &&& b.payloads == a.payloads
    &&& b.header.summary == a.header.summary
    &&& b.header.is_unversioned == a.header.is_unversioned
    &&& b.header.versioning_info == a.header.versioning_info
    &&& b.header.import_slots == a.header.import_slots
    &&& b.header.export_map == a.header.export_map
    &&& b.header.cell_export_map == a.header.cell_export_map
    &&& b.header.bulk_data_len == a.header.bulk_data_len
    &&& b.header.name_map.names@.len() == a.header.name_map.names@.len()
    &&& b.header.name_map.names@[index]@ == base
    &&& forall|j: int|
        0 <= j < a.header.name_map.names@.len() && j != index ==> #[trigger] b.header.name_map.names@[j]
            == a.header.name_map.names@[j]
    &&& b.exports@.len() == a.exports@.len()
    &&& forall|k: int|
        0 <= k < a.exports@.len() ==> renamed_export(
            a.exports@[k],
            #[trigger] b.exports@[k],
            entry_at(a.header.export_map@, k),
            index,
            base,
        )
}

pub open spec fn unchanged(a: ChimpDocument, b: ChimpDocument) -> bool {
    &&& b.package == a.package
    &&& b.payloads == a.payloads
    &&& b.header.summary == a.header.summary
    &&& b.header.is_unversioned == a.header.is_unversioned
    &&& b.header.versioning_info == a.header.versioning_info
    &&& b.header.import_slots == a.header.import_slots
    &&& b.header.export_map == a.header.export_map
    &&& b.header.cell_export_map == a.header.cell_export_map
    &&& b.header.bulk_data_len == a.header.bulk_data_len
    &&& b.header.name_map.names@ == a.header.name_map.names@
    &&& b.exports == a.exports
}

/// Rewrite one name-map entry, and everything that displays it.
///
/// The text is trimmed first. The entry backing the package's own name is
/// refused: the container addresses the package by a hash of it. Otherwise
/// every reference follows the entry by itself, and the resolved text that
/// export display names and decoded property names carry is recomposed, so a
/// later edit interning by string follows the rename rather than forking.
pub fn apply_chimp_name_rename(document: &mut ChimpDocument, index: usize, text: &str) -> (out:
    Result<(), String>)
    ensures
        index == old(document).header.summary.name.index ==> (out matches Err(e) && e@
            == PACKAGE_NAME_RENAME_REFUSAL@) && unchanged(*old(document), *final(document)),
        index != old(document).header.summary.name.index && index
            >= old(document).header.name_map.names@.len() ==> (out matches Err(e) && e@
            == no_entry_message(index as nat)) && unchanged(*old(document), *final(document)),
        index != old(document).header.summary.name.index && index
            < old(document).header.name_map.names@.len() ==> out is Ok && renamed_document(
            *old(document),
            *final(document),
            index as int,
            trim(text@),
        ),
{
    let trimmed = trim_string(text);
    if index == document.header.summary.name.index as usize {
        return Err(string_of(&chars_of(PACKAGE_NAME_RENAME_REFUSAL)));
    }
    if let Err(error) = document.header.name_map.rename(index, trimmed.as_str()) {
        return Err(error);
    }
    let base = chars_of(document.header.name_map.names[index].as_str());
    let ghost before = *old(document);
    let mut k: usize = 0;
    while k < document.exports.len()
        invariant
            k <= document.exports@.len(),
            index < before.header.name_map.names@.len(),
            base@ == trim(text@),
            document.package == before.package,
            document.payloads == before.payloads,
            document.header.summary == before.header.summary,
            document.header.is_unversioned == before.header.is_unversioned,
            document.header.versioning_info == before.header.versioning_info,
            document.header.import_slots == before.header.import_slots,
            document.header.export_map == before.header.export_map,
            document.header.cell_export_map == before.header.cell_export_map,
            document.header.bulk_data_len == before.header.bulk_data_len,
            document.header.name_map.names@.len() == before.header.name_map.names@.len(),
            document.header.name_map.names@[index as int]@ == trim(text@),
            forall|j: int|
                0 <= j < before.header.name_map.names@.len() && j != index
                    ==> #[trigger] document.header.name_map.names@[j]
                    == before.header.name_map.names@[j],
            document.exports@.len() == before.exports@.len(),
            forall|j: int|
                0 <= j < k ==> renamed_export(
                    before.exports@[j],
                    #[trigger] document.exports@[j],
                    entry_at(before.header.export_map@, j),
                    index as int,
                    base@,
                ),
            forall|j: int| k <= j < document.exports@.len() ==> #[trigger] document.exports@[j]
                == before.exports@[j],
        decreases document.exports@.len() - k,
    {
        let new_object: Option<String> = if k < document.header.export_map.len()
            && document.header.export_map[k].object_name.index as usize == index {
            let number = document.header.export_map[k].object_name.number;
            let mut t = base.clone();
            if number != 0 {
                t.push('_');
                push_decimal(&mut t, (number - 1) as u64);
            }
            assert(t@ =~= name_text(base@, number));
            Some(string_of(&t))
        } else {
            None
        };
        let new_block: Option<PropertyBlock> = match &document.exports[k].decoded {
            Ok(decoded) => match &decoded.block {
                ExportBlock::Reflected(block) => Some(
                    PropertyBlock { entries: renamed_property_entries(&block.entries, index, &base) },
                ),
                _ => None,
            },
            Err(_) => None,
        };
        let export = &mut document.exports[k];
        if let Some(object) = new_object {
            export.object = object;
        }
        if let Some(block) = new_block {
            export.decoded = Ok(Export { block: ExportBlock::Reflected(block) });
        }
        k += 1;
    }
    Ok(())
}

// ---------------------------------------------------------------------------
// Import slots
// ---------------------------------------------------------------------------

/// Nothing but the import slots differs between `a` and `b`.
pub open spec fn same_but_import_slots(a: ChimpDocument, b: ChimpDocument) -> bool {
    &&& b.package == a.package
    &&& b.payloads == a.payloads
    &&& b.header.summary == a.header.summary
    &&& b.header.is_unversioned == a.header.is_unversioned
    &&& b.header.versioning_info == a.header.versioning_info
    &&& b.header.export_map == a.header.export_map
    &&& b.header.cell_export_map == a.header.cell_export_map
    &&& b.header.bulk_data_len == a.header.bulk_data_len
    &&& b.header.name_map == a.header.name_map
    &&& b.exports == a.exports
}

pub open spec fn slot_past_end_message(index: nat, len: nat) -> Seq<char> {
    "Import slot "@ + decimal(index) + " is past the end of a "@ + decimal(len)
        + "-slot import map"@
}

/// Replace import slot `index`, or append one when `index` is the slot count.
///
/// Every other slot keeps its position, which is what keeps every object
/// property that addresses an import by position pointing where it did.
/// Past the end is refused: there is no slot to replace, and a gap cannot be
/// written.
pub fn apply_chimp_import_slot(document: &mut ChimpDocument, index: usize, slot: ImportSlot) -> (out:
    Result<(), String>)
    ensures
        index > old(document).header.import_slots@.len() ==> (out matches Err(e) && e@
            == slot_past_end_message(index as nat, old(document).header.import_slots@.len()))
            && unchanged(*old(document), *final(document)),
        index == old(document).header.import_slots@.len() ==> out is Ok
            && final(document).header.import_slots@ == old(document).header.import_slots@.push(slot)
            && same_but_import_slots(*old(document), *final(document)),
        index < old(document).header.import_slots@.len() ==> out is Ok
            && final(document).header.import_slots@ == old(document).header.import_slots@.update(
            index as int,
            slot,
        ) && same_but_import_slots(*old(document), *final(document)),
{
    let len = document.header.import_slots.len();
    if index > len {
        let mut message = chars_of("Import slot ");
        push_decimal(&mut message, index as u64);
        push_str(&mut message, " is past the end of a ");
        push_decimal(&mut message, len as u64);
        push_str(&mut message, "-slot import map");
        return Err(string_of(&message));
    }
    if index == len {
        document.header.import_slots.push(slot);
    } else {
        document.header.import_slots.set(index, slot);
    }
    Ok(())
}

// ---------------------------------------------------------------------------
// Export metadata
// ---------------------------------------------------------------------------

/// A drafted export-map entry.
pub struct ChimpExportEdit {
    pub index: usize,
    pub object_name: String,
    pub object_flags: u32,
    pub filter_flags: EExportFilterFlags,
    /// Recompute `public_export_hash` from the new object name. Importers
    /// hold the old hash, so this makes the package right and them wrong.
    pub recompute_hash: bool,
}

/// The reference `store` gives `text` in a table holding `names`.
pub open spec fn stored_name(names: Seq<String>, text: Seq<char>) -> FMappedName {
    FMappedName { index: stored_index(names, text) as u32, number: parse_name(text).1 }
}

/// `after` is `before` with `text` interned: unchanged when its base is
/// already there, else with the base appended.
pub open spec fn interned(before: Seq<String>, after: Seq<String>, text: Seq<char>) -> bool {
    &&& find_name(before, parse_name(text).0) is Some ==> after == before
    &&& find_name(before, parse_name(text).0) is None ==> after.len() == before.len() + 1
        && after.take(before.len() as int) == before && after.last()@ == parse_name(text).0
}

/// The effect of an export edit on a document: the entry takes the edited
/// flags and the interned name (and, when asked, `name_hash`), the export's
/// display name becomes the trimmed text, and its decoded value becomes
/// `decoded`. Nothing else moves.
pub open spec fn export_edit_applied(
    a: ChimpDocument,
    b: ChimpDocument,
    edit: ChimpExportEdit,
    name_hash: u64,
    decoded: Result<Export, String>,
) -> bool {
    let i = edit.index as int;
    let text = trim(edit.object_name@);
    let names = a.header.name_map.names@;
    &&& b.package == a.package
    &&& b.payloads == a.payloads
    &&& b.header.summary == a.header.summary
    &&& b.header.is_unversioned == a.header.is_unversioned
    &&& b.header.versioning_info == a.header.versioning_info
    &&& b.header.import_slots == a.header.import_slots
    &&& b.header.cell_export_map == a.header.cell_export_map
    &&& b.header.bulk_data_len == a.header.bulk_data_len
    &&& interned(names, b.header.name_map.names@, text)
    &&& b.header.export_map@ == a.header.export_map@.update(
        i,
        FExportMapEntry {
            object_name: stored_name(names, text),
            outer_is_null: a.header.export_map@[i].outer_is_null,
            object_flags: edit.object_flags,
            filter_flags: edit.filter_flags,
            public_export_hash: if edit.recompute_hash {
                name_hash
            } else {
                a.header.export_map@[i].public_export_hash
            },
        },
    )
    &&& b.exports@.len() == a.exports@.len()
    &&& forall|j: int| 0 <= j < a.exports@.len() && j != i ==> #[trigger] b.exports@[j] == a.exports@[j]
    &&& b.exports@[i].object@ == text
    &&& b.exports@[i].class == a.exports@[i].class
    &&& b.exports@[i].decoded == decoded
}

/// The half of an export edit that needs nothing but the document: the
/// name, the flags and the optional hash.
///
/// The name is interned, never renamed: an existing entry is reused, a new
/// one appended, and a trailing `_N` lands in the reference's number; other
/// references to any entry are untouched. `name_hash` is the public export
/// hash of the trimmed name, and is used only when the edit asks for it.
pub fn apply_chimp_export_metadata(document: &mut ChimpDocument, edit: &ChimpExportEdit, name_hash: u64)
    requires
        edit.index < old(document).header.export_map@.len(),
        edit.index < old(document).exports@.len(),
        old(document).header.name_map.names@.len() < u32::MAX,
    ensures
        export_edit_applied(
            *old(document),
            *final(document),
            *edit,
            name_hash,
            old(document).exports@[edit.index as int].decoded,
        ),
{
    let i = edit.index;
    let text = trim_string(edit.object_name.as_str());
    let ghost names = document.header.name_map.names@;
    let mapped = document.header.name_map.store(text.as_str());
    let old_hash = document.header.export_map[i].public_export_hash;
    let outer_is_null = document.header.export_map[i].outer_is_null;
    let entry = FExportMapEntry {
        object_name: mapped,
        outer_is_null,
        object_flags: edit.object_flags,
        filter_flags: edit.filter_flags,
        public_export_hash: if edit.recompute_hash {
            name_hash
        } else {
            old_hash
        },
    };
    document.header.export_map.set(i, entry);
    proof {
        lemma_store_then_resolve(names, document.header.name_map.names@, text@, mapped);
    }
    let object = match document.header.name_map.try_get(mapped) {
        Some(name) => name,
        None => String::new(),
    };
    let export = &mut document.exports[i];
    export.object = object;
}

pub open spec fn export_gone_message(index: nat) -> Seq<char> {
    "Export "@ + decimal(index) + " is no longer in this package"@
}

/// The decoded value an export edit leaves behind: the re-decode under the
/// new object flags when the flags changed and it produced one, else the
/// current one.
pub open spec fn decoded_after_edit(
    current: Result<Export, String>,
    flags_changed: bool,
    redecoded: Result<Option<Export>, String>,
) -> Result<Export, String> {
    if flags_changed {
        match redecoded {
            Ok(Some(export)) => Ok(export),
            _ => current,
        }
    } else {
        current
    }
}

/// The re-decode of export `index` under `object_flags`, from what the
/// outside writer and reader gave: `written` is the outcome of serializing
/// the export's current decoded value (kept, so unsaved property edits are
/// not lost), `reread` that of decoding those bytes under the flags.
/// `Ok(None)` when the export has no class or did not decode: there is
/// nothing to re-interpret, and neither outcome is consulted.
pub fn chimp_redecode_export(
    document: &ChimpDocument,
    index: usize,
    object_flags: u32,
    written: Result<(), String>,
    reread: Result<Export, String>,
) -> (out: Result<Option<Export>, String>)
    requires
        index < document.exports@.len(),
    ensures
        ({
            let export = document.exports@[index as int];
            if export.class is None || export.decoded is Err {
                out == Ok::<Option<Export>, String>(None)
            } else {
                match written {
                    Err(e) => out matches Err(m) && m@ == "Could not re-serialize export "@ + decimal(
                        index as nat,
                    ) + ": "@ + e@,
                    Ok(_) => match reread {
                        Err(e) => out matches Err(m) && m@ == "Export "@ + decimal(index as nat)
                            + " no longer decodes with object flags 0x"@ + hex_upper(object_flags as nat, 8)
                            + ": "@ + e@,
                        Ok(x) => out == Ok::<Option<Export>, String>(Some(x)),
                    },
                }
            }
        }),
{
    let export = &document.exports[index];
    if export.class.is_none() || export.decoded.is_err() {
        return Ok(None);
    }
    match written {
        Err(e) => {
            let mut m = chars_of("Could not re-serialize export ");
            push_decimal(&mut m, index as u64);
            push_str(&mut m, ": ");
            push_str(&mut m, e.as_str());
            Err(string_of(&m))
        },
        Ok(_) => match reread {
            Err(e) => {
                let mut m = chars_of("Export ");
                push_decimal(&mut m, index as u64);
                push_str(&mut m, " no longer decodes with object flags 0x");
                push_hex_upper(&mut m, object_flags as u64, 8);
                push_str(&mut m, ": ");
                push_str(&mut m, e.as_str());
                Err(string_of(&m))
            },
            Ok(x) => Ok(Some(x)),
        },
    }
}

/// Apply a drafted export-map entry.
///
/// `redecoded` is the export's current value written and read back under the
/// edited object flags: `Ok(None)` when there was nothing decoded to
/// re-read. It is consulted only when the flags change, since they select
/// how the same bytes decode; a failed re-decode refuses the edit and leaves
/// the document as it was.
pub fn apply_chimp_export_edit(
    document: &mut ChimpDocument,
    edit: &ChimpExportEdit,
    name_hash: u64,
    redecoded: Result<Option<Export>, String>,
) -> (out: Result<(), String>)
    requires
        old(document).exports@.len() == old(document).header.export_map@.len(),
        old(document).header.name_map.names@.len() < u32::MAX,
    ensures
        edit.index >= old(document).header.export_map@.len() ==> (out matches Err(e) && e@
            == export_gone_message(edit.index as nat)) && unchanged(*old(document), *final(document)),
        edit.index < old(document).header.export_map@.len() && trim(edit.object_name@).len() == 0
            ==> (out matches Err(e) && e@ == "An export needs an object name"@) && unchanged(
            *old(document),
            *final(document),
        ),
        edit.index < old(document).header.export_map@.len() && trim(edit.object_name@).len() > 0
            && edit.object_flags != old(document).header.export_map@[edit.index as int].object_flags
            && redecoded is Err ==> out == Err::<(), String>(redecoded->Err_0) && unchanged(
            *old(document),
            *final(document),
        ),
        edit.index < old(document).header.export_map@.len() && trim(edit.object_name@).len() > 0
            && !(edit.object_flags != old(document).header.export_map@[edit.index as int].object_flags
            && redecoded is Err) ==> out is Ok && export_edit_applied(
            *old(document),
            *final(document),
            *edit,
            name_hash,
            decoded_after_edit(
                old(document).exports@[edit.index as int].decoded,
                edit.object_flags != old(document).header.export_map@[edit.index as int].object_flags,
                redecoded,
            ),
        ),
{
    let index = edit.index;
    if index >= document.header.export_map.len() {
        let mut message = chars_of("Export ");
        push_decimal(&mut message, index as u64);
        push_str(&mut message, " is no longer in this package");
        return Err(string_of(&message));
    }
    let trimmed = trim_string(edit.object_name.as_str());
    if trimmed.as_str().unicode_len() == 0 {
        return Err(string_of(&chars_of("An export needs an object name")));
    }
    if edit.object_flags != document.header.export_map[index].object_flags {
        match redecoded {
            Err(error) => {
                return Err(error);
            },
            Ok(Some(export)) => {
                let slot = &mut document.exports[index];
                slot.decoded = Ok(export);
            },
            Ok(None) => {},
        }
    }
    apply_chimp_export_metadata(document, edit, name_hash);
    Ok(())
}

// ---------------------------------------------------------------------------
// Write-and-reopen gate
// ---------------------------------------------------------------------------

/// What became of a candidate header that was written and read back.
pub enum ReopenOutcome {
    Reopened(FZenPackageHeader),
    /// The writer refused it, with its reason.
    NotWritten(String),
    /// It was written but did not parse, with the reader's reason.
    NotReopened(String),
}

pub open spec fn drift_line(field: Seq<char>, intended: Seq<char>, got: Seq<char>) -> Seq<char> {
    field + " was written as "@ + intended + " and read back as "@ + got
}

/// `lines`, with a drift line for `field` when the two spellings differ.
pub open spec fn drift_check(
    lines: Seq<Seq<char>>,
    field: Seq<char>,
    intended: Seq<char>,
    got: Seq<char>,
) -> Seq<Seq<char>> {
    if intended == got {
        lines
    } else {
        lines.push(drift_line(field, intended, got))
    }
}

pub open spec fn bool_text(b: bool) -> Seq<char> {
    if b {
        "true"@
    } else {
        "false"@
    }
}

pub open spec fn flags_text(flags: u32) -> Seq<char> {
    "0x"@ + hex_upper(flags as nat, 8)
}

/// Every field of `written` that `reopened` does not give back, in the order
/// they are checked. The versioning block is compared only when it is
/// written at all: an unversioned package stores none, and the reader
/// infers one.
pub open spec fn drift_lines(written: FZenPackageHeader, reopened: FZenPackageHeader) -> Seq<Seq<char>> {
    let h = written;
    let r = reopened;
    let l1 = drift_check(
        Seq::empty(),
        "package flags"@,
        flags_text(h.summary.package_flags),
        flags_text(r.summary.package_flags),
    );
    let l2 = drift_check(l1, "unversioned"@, bool_text(h.is_unversioned), bool_text(r.is_unversioned));
    let l6 = if !h.is_unversioned {
        let l3 = drift_check(
            l2,
            "Zen version"@,
            decimal(h.versioning_info.zen_version as nat),
            decimal(r.versioning_info.zen_version as nat),
        );
        let l4 = drift_check(
            l3,
            "UE4 file version"@,
            signed_decimal(h.versioning_info.file_version_ue4 as int),
            signed_decimal(r.versioning_info.file_version_ue4 as int),
        );
        let l5 = drift_check(
            l4,
            "UE5 file version"@,
            signed_decimal(h.versioning_info.file_version_ue5 as int),
            signed_decimal(r.versioning_info.file_version_ue5 as int),
        );
        drift_check(
            l5,
            "licensee version"@,
            signed_decimal(h.versioning_info.licensee_version as int),
            signed_decimal(r.versioning_info.licensee_version as int),
        )
    } else {
        l2
    };
    let l7 = drift_check(
        l6,
        "bulk data entries"@,
        decimal(h.bulk_data_len as nat),
        decimal(r.bulk_data_len as nat),
    );
    let l8 = drift_check(
        l7,
        "name map entries"@,
        decimal(h.name_map.names@.len()),
        decimal(r.name_map.names@.len()),
    );
    let l9 = drift_check(
        l8,
        "import slots"@,
        decimal(h.import_slots@.len()),
        decimal(r.import_slots@.len()),
    );
    drift_check(
        l9,
        "export map entries"@,
        decimal(h.export_map@.len()),
        decimal(r.export_map@.len()),
    )
}

/// Why `written` did not survive `outcome`, or `None` when it did.
pub open spec fn reopen_verdict(written: FZenPackageHeader, outcome: ReopenOutcome) -> Option<Seq<char>> {
    match outcome {
        ReopenOutcome::NotWritten(reason) => Some(
            "The edited header could not be written: "@ + reason@,
        ),
        ReopenOutcome::NotReopened(reason) => Some("The edited header did not reopen: "@ + reason@),
        ReopenOutcome::Reopened(reopened) => {
            let lines = drift_lines(written, reopened);
            if lines.len() == 0 {
                None
            } else {
                Some(
                    "The package does not read back as it was written, so the change was not applied:\n  "@
                        + join(lines, "\n  "@),
                )
            }
        },
    }
}

proof fn lemma_drift_check(lines: Seq<Seq<char>>, field: Seq<char>, intended: Seq<char>, got: Seq<char>)
    ensures
        drift_check(lines, field, intended, got).len() >= lines.len(),
        drift_check(lines, field, intended, got).len() == lines.len() ==> intended == got,
{
}

/// A header passes the write-and-reopen check only when the reopened header
/// has as many bulk-data entries, name-map entries, import slots and
/// export-map entries as the written one, and the same unversioned flag.
pub proof fn lemma_reopen_accepts_only_matching_tables(written: FZenPackageHeader, reopened: FZenPackageHeader)
    requires
        reopen_verdict(written, ReopenOutcome::Reopened(reopened)) is None,
    ensures
        reopened.export_map@.len() == written.export_map@.len(),
        reopened.import_slots@.len() == written.import_slots@.len(),
        reopened.name_map.names@.len() == written.name_map.names@.len(),
        reopened.bulk_data_len == written.bulk_data_len,
        reopened.is_unversioned == written.is_unversioned,
{
    let h = written;
    let r = reopened;
    let l1 = drift_check(
        Seq::empty(),
        "package flags"@,
        flags_text(h.summary.package_flags),
        flags_text(r.summary.package_flags),
    );
    lemma_drift_check(Seq::empty(), "package flags"@, flags_text(h.summary.package_flags), flags_text(r.summary.package_flags));
    let l2 = drift_check(l1, "unversioned"@, bool_text(h.is_unversioned), bool_text(r.is_unversioned));
    lemma_drift_check(l1, "unversioned"@, bool_text(h.is_unversioned), bool_text(r.is_unversioned));
    let l6 = if !h.is_unversioned {
        let l3 = drift_check(
            l2,
            "Zen version"@,
            decimal(h.versioning_info.zen_version as nat),
            decimal(r.versioning_info.zen_version as nat),
        );
        let l4 = drift_check(
            l3,
            "UE4 file version"@,
            signed_decimal(h.versioning_info.file_version_ue4 as int),
            signed_decimal(r.versioning_info.file_version_ue4 as int),
        );
        let l5 = drift_check(
            l4,
            "UE5 file version"@,
            signed_decimal(h.versioning_info.file_version_ue5 as int),
            signed_decimal(r.versioning_info.file_version_ue5 as int),
        );
        drift_check(
            l5,
            "licensee version"@,
            signed_decimal(h.versioning_info.licensee_version as int),
            signed_decimal(r.versioning_info.licensee_version as int),
        )
    } else {
        l2
    };
    assert(l6.len() >= l2.len());
    let l7 = drift_check(l6, "bulk data entries"@, decimal(h.bulk_data_len as nat), decimal(r.bulk_data_len as nat));
    lemma_drift_check(l6, "bulk data entries"@, decimal(h.bulk_data_len as nat), decimal(r.bulk_data_len as nat));
    let l8 = drift_check(l7, "name map entries"@, decimal(h.name_map.names@.len()), decimal(r.name_map.names@.len()));
    lemma_drift_check(l7, "name map entries"@, decimal(h.name_map.names@.len()), decimal(r.name_map.names@.len()));
    let l9 = drift_check(l8, "import slots"@, decimal(h.import_slots@.len()), decimal(r.import_slots@.len()));
    lemma_drift_check(l8, "import slots"@, decimal(h.import_slots@.len()), decimal(r.import_slots@.len()));
    let l10 = drift_check(l9, "export map entries"@, decimal(h.export_map@.len()), decimal(r.export_map@.len()));
    lemma_drift_check(l9, "export map entries"@, decimal(h.export_map@.len()), decimal(r.export_map@.len()));
    assert(l10 == drift_lines(h, r));
    assert(l10.len() == 0);
    crate::text::lemma_decimal_injective(h.bulk_data_len as nat, r.bulk_data_len as nat);
    crate::text::lemma_decimal_injective(h.name_map.names@.len(), r.name_map.names@.len());
    crate::text::lemma_decimal_injective(h.import_slots@.len(), r.import_slots@.len());
    crate::text::lemma_decimal_injective(h.export_map@.len(), r.export_map@.len());
    if h.is_unversioned != r.is_unversioned {
        assert(bool_text(h.is_unversioned) != bool_text(r.is_unversioned)) by {
            reveal_strlit("true");
            reveal_strlit("false");
            assert(bool_text(true).len() != bool_text(false).len());
        }
    }
}

/// A header that comes back with a different number of export-map entries
/// is refused, and the refusal names the export map with both counts.
pub proof fn lemma_reopen_names_a_lost_export(written: FZenPackageHeader, reopened: FZenPackageHeader)
    requires
        reopened.export_map@.len() != written.export_map@.len(),
    ensures
        reopen_verdict(written, ReopenOutcome::Reopened(reopened)) matches Some(message)
            && crate::text::contains(
            message,
            "export map entries"@ + " was written as "@ + decimal(written.export_map@.len())
                + " and read back as "@ + decimal(reopened.export_map@.len()),
        ),
{
    let h = written;
    let r = reopened;
    let lines = drift_lines(h, r);
    let line = drift_line("export map entries"@, decimal(h.export_map@.len()), decimal(r.export_map@.len()));
    assert(decimal(h.export_map@.len()) != decimal(r.export_map@.len())) by {
        if decimal(h.export_map@.len()) == decimal(r.export_map@.len()) {
            crate::text::lemma_decimal_injective(h.export_map@.len(), r.export_map@.len());
        }
    }
    assert(lines.len() > 0 && lines.last() == line);
    let sep = "\n  "@;
    let j = join(lines, sep);
    assert(j.subrange(j.len() - line.len(), j.len() as int) =~= line);
    let m = "The package does not read back as it was written, so the change was not applied:\n  "@ + j;
    assert(m.subrange(m.len() - line.len(), m.len() as int) =~= line);
    assert(crate::text::occurs_at(m, line, m.len() - line.len()));
}

fn drift_check_exec(lines: &mut Vec<String>, field: &str, intended: Vec<char>, got: Vec<char>)
    ensures
        views(final(lines)@) == drift_check(views(old(lines)@), field@, intended@, got@),
{
    if !chars_eq(&intended, &got) {
        let mut line = chars_of(field);
        push_str(&mut line, " was written as ");
        let mut i: usize = 0;
        let ghost start = line@;
        while i < intended.len()
            invariant
                i <= intended.len(),
                line@ == start + intended@.subrange(0, i as int),
            decreases intended.len() - i,
        {
            line.push(intended[i]);
            i += 1;
        }
        assert(intended@.subrange(0, intended.len() as int) =~= intended@);
        push_str(&mut line, " and read back as ");
        let mut j: usize = 0;
        let ghost middle = line@;
        while j < got.len()
            invariant
                j <= got.len(),
                line@ == middle + got@.subrange(0, j as int),
            decreases got.len() - j,
        {
            line.push(got[j]);
            j += 1;
        }
        assert(got@.subrange(0, got.len() as int) =~= got@);
        let ghost before = lines@;
        let text = string_of(&line);
        lines.push(text);
        assert(views(lines@) =~= views(before).push(text@));
    }
}

fn flags_text_exec(flags: u32) -> (out: Vec<char>)
    ensures
        out@ == flags_text(flags),
{
    let mut out = chars_of("0x");
    push_hex_upper(&mut out, flags as u64, 8);
    out
}

fn bool_text_exec(b: bool) -> (out: Vec<char>)
    ensures
        out@ == bool_text(b),
{
    if b {
        chars_of("true")
    } else {
        chars_of("false")
    }
}

fn decimal_text(n: u64) -> (out: Vec<char>)
    ensures
        out@ == decimal(n as nat),
{
    let mut out: Vec<char> = Vec::new();
    push_decimal(&mut out, n);
    assert(out@ =~= decimal(n as nat));
    out
}

fn signed_text(i: i32) -> (out: Vec<char>)
    ensures
        out@ == signed_decimal(i as int),
{
    let mut out: Vec<char> = Vec::new();
    push_signed_decimal(&mut out, i as i64);
    assert(out@ =~= signed_decimal(i as int));
    out
}

/// Whether a header written and read back came back as itself.
///
/// `outcome` is what writing `written` and reopening the bytes gave. The
/// check compares what a version change can quietly stop writing: the
/// flags, the versioning block when there is one, and the table counts.
pub fn chimp_header_survives_reopen(written: &FZenPackageHeader, outcome: &ReopenOutcome) -> (out:
    Result<(), String>)
    ensures
        match reopen_verdict(*written, *outcome) {
            Some(message) => out matches Err(e) && e@ == message,
            None => out is Ok,
        },
{
    match outcome {
        ReopenOutcome::NotWritten(reason) => {
            let mut message = chars_of("The edited header could not be written: ");
            push_str(&mut message, reason.as_str());
            Err(string_of(&message))
        },
        ReopenOutcome::NotReopened(reason) => {
            let mut message = chars_of("The edited header did not reopen: ");
            push_str(&mut message, reason.as_str());
            Err(string_of(&message))
        },
        ReopenOutcome::Reopened(reopened) => {
            let h = written;
            let r = reopened;
            let mut lines: Vec<String> = Vec::new();
            assert(views(lines@) =~= Seq::<Seq<char>>::empty());
            drift_check_exec(
                &mut lines,
                "package flags",
                flags_text_exec(h.summary.package_flags),
                flags_text_exec(r.summary.package_flags),
            );
            drift_check_exec(
                &mut lines,
                "unversioned",
                bool_text_exec(h.is_unversioned),
                bool_text_exec(r.is_unversioned),
            );
            if !h.is_unversioned {
                drift_check_exec(
                    &mut lines,
                    "Zen version",
                    decimal_text(h.versioning_info.zen_version as u64),
                    decimal_text(r.versioning_info.zen_version as u64),
                );
                drift_check_exec(
                    &mut lines,
                    "UE4 file version",
                    signed_text(h.versioning_info.file_version_ue4),
                    signed_text(r.versioning_info.file_version_ue4),
                );
                drift_check_exec(
                    &mut lines,
                    "UE5 file version",
                    signed_text(h.versioning_info.file_version_ue5),
                    signed_text(r.versioning_info.file_version_ue5),
                );
                drift_check_exec(
                    &mut lines,
                    "licensee version",
                    signed_text(h.versioning_info.licensee_version),
                    signed_text(r.versioning_info.licensee_version),
                );
            }
            drift_check_exec(
                &mut lines,
                "bulk data entries",
                decimal_text(h.bulk_data_len as u64),
                decimal_text(r.bulk_data_len as u64),
            );
            drift_check_exec(
                &mut lines,
                "name map entries",
                decimal_text(h.name_map.names.len() as u64),
                decimal_text(r.name_map.names.len() as u64),
            );
            drift_check_exec(
                &mut lines,
                "import slots",
                decimal_text(h.import_slots.len() as u64),
                decimal_text(r.import_slots.len() as u64),
            );
            drift_check_exec(
                &mut lines,
                "export map entries",
                decimal_text(h.export_map.len() as u64),
                decimal_text(r.export_map.len() as u64),
            );
            assert(views(lines@) == drift_lines(*h, *r));
            if lines.len() == 0 {
                return Ok(());
            }
            let mut joined: Vec<char> = Vec::new();
            let mut k: usize = 0;
            while k < lines.len()
                invariant
                    k <= lines.len(),
                    joined@ == join(views(lines@).take(k as int), "\n  "@),
                decreases lines.len() - k,
            {
                let line = chars_of(lines[k].as_str());
                push_joined(&mut joined, k == 0, "\n  ", &line, Ghost(views(lines@).take(k as int)));
                assert(views(lines@).take(k as int).push(line@) =~= views(lines@).take(k + 1));
                k += 1;
            }
            assert(views(lines@).take(lines.len() as int) =~= views(lines@));
            let mut message = chars_of(
                "The package does not read back as it was written, so the change was not applied:\n  ",
            );
            let ghost prefix = message@;
            let mut m: usize = 0;
            while m < joined.len()
                invariant
                    m <= joined.len(),
                    message@ == prefix + joined@.subrange(0, m as int),
                decreases joined.len() - m,
            {
                message.push(joined[m]);
                m += 1;
            }
            assert(joined@.subrange(0, joined.len() as int) =~= joined@);
            Err(string_of(&message))
        },
    }
}

// ---------------------------------------------------------------------------
// Identity and versioning
// ---------------------------------------------------------------------------

/// A draft of the package's flags and versioning.
pub struct ChimpIdentityEdit {
    /// Free hex, with or without a `0x`.
    pub package_flags: String,
    pub licensee_version: i32,
    pub is_unversioned: bool,
    pub zen_version: u32,
    pub file_version_ue4: i32,
    pub file_version_ue5: i32,
}

/// `s` without a leading `0x` or `0X`.
pub open spec fn without_hex_prefix(s: Seq<char>) -> Seq<char> {
    if s.len() >= 2 && s[0] == '0' && (s[1] == 'x' || s[1] == 'X') {
        s.skip(2)
    } else {
        s
    }
}

/// The flags a drafted value spells: trimmed, an optional `0x` or `0X`, then
/// what `u32::from_str_radix(.., 16)` accepts.
pub open spec fn drafted_flags(text: Seq<char>) -> Option<u32> {
    parse_hex_u32(without_hex_prefix(trim(text)))
}

pub open spec fn flags_refusal(text: Seq<char>) -> Seq<char> {
    str_debug(text) + " is not a 32-bit hex value"@
}

/// `h` with the drafted identity in place; `has_versioning_info` is kept in
/// step with `is_unversioned`, because the writer derives one from the other.
pub open spec fn identity_candidate(h: FZenPackageHeader, edit: ChimpIdentityEdit, flags: u32) -> FZenPackageHeader {
    FZenPackageHeader {
        summary: FPackageSummary {
            name: h.summary.name,
            package_flags: flags,
            has_versioning_info: if edit.is_unversioned {
                0
            } else {
                1
            },
        },
        is_unversioned: edit.is_unversioned,
        versioning_info: FZenVersioningInfo {
            zen_version: edit.zen_version,
            file_version_ue4: edit.file_version_ue4,
            file_version_ue5: edit.file_version_ue5,
            licensee_version: edit.licensee_version,
        },
        name_map: h.name_map,
        import_slots: h.import_slots,
        export_map: h.export_map,
        cell_export_map: h.cell_export_map,
        bulk_data_len: h.bulk_data_len,
    }
}

/// The `{:?}` spelling of a string: quoted, with escapes.
pub uninterp spec fn str_debug(s: Seq<char>) -> Seq<char>;

/// `format!("{:?}", s)`: the string quoted and escaped as `Debug` writes
/// it. Its spelling is named, not stated.
#[verifier::external_body]
fn debug_text(s: &str) -> (out: String)
    ensures
        out@ == str_debug(s@),
{
    format!("{:?}", s)
}

/// Put a drafted identity into `header`, or refuse a flags value that is not
/// 32-bit hex and leave `header` as it was.
pub fn chimp_identity_candidate(header: &mut FZenPackageHeader, edit: &ChimpIdentityEdit) -> (out: Result<
    (),
    String,
>)
    ensures
        drafted_flags(edit.package_flags@) is None ==> (out matches Err(e) && e@ == flags_refusal(
            edit.package_flags@,
        )) && *final(header) == *old(header),
        drafted_flags(edit.package_flags@) matches Some(flags) ==> out is Ok && *final(header)
            == identity_candidate(*old(header), *edit, flags),
{
    let trimmed = trim_chars(&chars_of(edit.package_flags.as_str()));
    let digits = if trimmed.len() >= 2 && trimmed[0] == '0' && (trimmed[1] == 'x' || trimmed[1]
        == 'X') {
        let d = sub_chars(&trimmed, 2, trimmed.len());
        assert(d@ =~= trimmed@.skip(2));
        d
    } else {
        trimmed
    };
    let flags = match parse_hex_u32_exec(&digits) {
        Some(flags) => flags,
        None => {
            let mut message = chars_of(debug_text(edit.package_flags.as_str()).as_str());
            push_str(&mut message, " is not a 32-bit hex value");
            return Err(string_of(&message));
        },
    };
    header.summary.package_flags = flags;
    header.is_unversioned = edit.is_unversioned;
    header.summary.has_versioning_info = if edit.is_unversioned {
        0
    } else {
        1
    };
    header.versioning_info.zen_version = edit.zen_version;
    header.versioning_info.licensee_version = edit.licensee_version;
    header.versioning_info.file_version_ue4 = edit.file_version_ue4;
    header.versioning_info.file_version_ue5 = edit.file_version_ue5;
    Ok(())
}

/// Apply a drafted identity and versioning change, but only if it survives
/// a write and reopen.
///
/// `reopened` is what writing the candidate header (this document's header
/// with the draft put in by [`chimp_identity_candidate`]) and reading it back
/// gave. A refusal, for the flags or for drift, leaves the document as it was.
pub fn apply_chimp_identity_edit(
    document: &mut ChimpDocument,
    edit: &ChimpIdentityEdit,
    reopened: &ReopenOutcome,
) -> (out: Result<(), String>)
    ensures
        drafted_flags(edit.package_flags@) is None ==> (out matches Err(e) && e@ == flags_refusal(
            edit.package_flags@,
        )) && unchanged(*old(document), *final(document)),
        drafted_flags(edit.package_flags@) matches Some(flags) ==> match reopen_verdict(
            identity_candidate(old(document).header, *edit, flags),
            *reopened,
        ) {
            Some(message) => (out matches Err(e) && e@ == message) && unchanged(
                *old(document),
                *final(document),
            ),
            None => out is Ok && final(document).header == identity_candidate(
                old(document).header,
                *edit,
                flags,
            ) && final(document).package == old(document).package && final(document).payloads
                == old(document).payloads && final(document).exports == old(document).exports,
        },
{
    let summary = document.header.summary;
    let is_unversioned = document.header.is_unversioned;
    let versioning = document.header.versioning_info;
    chimp_identity_candidate(&mut document.header, edit)?;
    if let Err(error) = chimp_header_survives_reopen(&document.header, reopened) {
        document.header.summary = summary;
        document.header.is_unversioned = is_unversioned;
        document.header.versioning_info = versioning;
        return Err(error);
    }
    Ok(())
}

// ---------------------------------------------------------------------------
// Export hashes a rename would leave behind
// ---------------------------------------------------------------------------

/// For every export named by entry `index`, in order: its position, and the
/// name it would resolve to were that entry spelled `text`.
pub open spec fn renamed_texts(entries: Seq<FExportMapEntry>, index: int, text: Seq<char>) -> Seq<
    (int, Seq<char>),
>
    decreases entries.len(),
{
    if entries.len() == 0 {
        Seq::empty()
    } else {
        let rest = renamed_texts(entries.drop_last(), index, text);
        let name = entries.last().object_name;
        if name.index == index {
            rest.push((entries.len() - 1, name_text(text, name.number)))
        } else {
            rest
        }
    }
}

/// The names the exports backed by entry `index` would resolve to after it
/// were renamed to `text`, each beside its export's position: what their
/// public export hashes would have to be recomputed from.
pub fn chimp_export_renamed_texts(header: &FZenPackageHeader, index: usize, text: &str) -> (out: Vec<
    (usize, String),
>)
    ensures
        out@.len() == renamed_texts(header.export_map@, index as int, text@).len(),
        forall|j: int|
            0 <= j < out@.len() ==> (#[trigger] out@[j]).0 == renamed_texts(
                header.export_map@,
                index as int,
                text@,
            )[j].0 && out@[j].1@ == renamed_texts(header.export_map@, index as int, text@)[j].1,
{
    let base = chars_of(text);
    let mut out: Vec<(usize, String)> = Vec::new();
    let mut k: usize = 0;
    while k < header.export_map.len()
        invariant
            k <= header.export_map.len(),
            base@ == text@,
            out@.len() == renamed_texts(header.export_map@.take(k as int), index as int, text@).len(),
            forall|j: int|
                0 <= j < out@.len() ==> (#[trigger] out@[j]).0 == renamed_texts(
                    header.export_map@.take(k as int),
                    index as int,
                    text@,
                )[j].0 && out@[j].1@ == renamed_texts(
                    header.export_map@.take(k as int),
                    index as int,
                    text@,
                )[j].1,
        decreases header.export_map.len() - k,
    {
        proof {
            assert(header.export_map@.take(k + 1).drop_last() =~= header.export_map@.take(k as int));
        }
        let name = header.export_map[k].object_name;
        if name.index as usize == index {
            let mut t = base.clone();
            if name.number != 0 {
                t.push('_');
                push_decimal(&mut t, (name.number - 1) as u64);
            }
            assert(t@ =~= name_text(text@, name.number));
            out.push((k, string_of(&t)));
        }
        k += 1;
    }
    assert(header.export_map@.take(header.export_map.len() as int) =~= header.export_map@);
    out
}

/// The positions, in the order given, whose stored public export hash
/// differs from the hash beside them.
pub open spec fn desynced(entries: Seq<FExportMapEntry>, hashes: Seq<(usize, u64)>) -> Seq<usize>
    decreases hashes.len(),
{
    if hashes.len() == 0 {
        Seq::empty()
    } else {
        let rest = desynced(entries, hashes.drop_last());
        let (k, hash) = hashes.last();
        if k < entries.len() && entries[k as int].public_export_hash != hash {
            rest.push(k)
        } else {
            rest
        }
    }
}

/// The exports whose `public_export_hash` would no longer match their name,
/// given the hash of each renamed name from [`chimp_export_renamed_texts`].
///
/// Other packages address an export by that hash, so a rename that moves the
/// name without it leaves them pointing at nothing.
pub fn chimp_export_hash_desyncs(header: &FZenPackageHeader, hashes: &Vec<(usize, u64)>) -> (out: Vec<
    usize,
>)
    ensures
        out@ == desynced(header.export_map@, hashes@),
{
    let mut out: Vec<usize> = Vec::new();
    let mut i: usize = 0;
    while i < hashes.len()
        invariant
            i <= hashes.len(),
            out@ == desynced(header.export_map@, hashes@.take(i as int)),
        decreases hashes.len() - i,
    {
        proof {
            assert(hashes@.take(i + 1).drop_last() =~= hashes@.take(i as int));
        }
        let (k, hash) = hashes[i];
        if k < header.export_map.len() && header.export_map[k].public_export_hash != hash {
            out.push(k);
        }
        i += 1;
    }
    assert(hashes@.take(hashes.len() as int) =~= hashes@);
    out
}

// ---------------------------------------------------------------------------
// Who references a name
// ---------------------------------------------------------------------------

/// How often a name-map entry is referenced, and from where.
pub struct ChimpNameUsage {
    /// Every reference, including those `sites` summarises.
    pub count: usize,
    /// Where they are: distinct, and at most eight of them.
    pub sites: Vec<String>,
    /// This entry backs the package's own name.
    pub is_package_identity: bool,
}

impl Default for ChimpNameUsage {
    fn default() -> (out: Self)
        ensures
            out.count == 0,
            out.sites@.len() == 0,
            !out.is_package_identity,
    {
        ChimpNameUsage { count: 0, sites: Vec::new(), is_package_identity: false }
    }
}

pub open spec fn has_site(sites: Seq<String>, site: Seq<char>) -> bool {
    exists|i: int| 0 <= i < sites.len() && #[trigger] sites[i]@ == site
}

impl ChimpNameUsage {
    /// Count one more reference from `site`, listing the site when it is new
    /// and fewer than eight are listed.
    pub fn record(&mut self, site: String)
        requires
            old(self).count < usize::MAX,
        ensures
            final(self).count == old(self).count + 1,
            final(self).is_package_identity == old(self).is_package_identity,
            final(self).sites@ == if old(self).sites@.len() < 8 && !has_site(
                old(self).sites@,
                site@,
            ) {
                old(self).sites@.push(site)
            } else {
                old(self).sites@
            },
            old(self).sites@.len() <= 8 ==> final(self).sites@.len() <= 8,
            old(self).sites@.len() <= old(self).count ==> final(self).sites@.len() <= final(self).count,
    {
        self.count = self.count + 1;
        if self.sites.len() < 8 {
            let mut seen = false;
            let mut i: usize = 0;
            while i < self.sites.len()
                invariant
                    i <= self.sites.len(),
                    seen <==> exists|j: int| 0 <= j < i && #[trigger] self.sites@[j]@ == site@,
                decreases self.sites.len() - i,
            {
                if self.sites[i] == site {
                    seen = true;
                }
                i += 1;
            }
            if !seen {
                self.sites.push(site);
            }
        }
    }
}

/// The lines of a name-usage tooltip.
pub open spec fn tooltip_lines(usage: ChimpNameUsage) -> Seq<Seq<char>> {
    let identity = if usage.is_package_identity {
        seq![PACKAGE_IDENTITY_NOTE@]
    } else {
        Seq::empty()
    };
    if usage.count == 0 {
        identity.push("Nothing references this entry."@)
    } else {
        let listed = identity.push("Referenced "@ + decimal(usage.count as nat) + " time(s) by:"@)
            + usage.sites@.map_values(|site: String| "  \u{2022} "@ + site@);
        if usage.sites@.len() < usage.count && usage.sites@.len() == 8 {
            listed.push("  \u{2022} \u{2026}"@)
        } else {
            listed
        }
    }
}

/// What the tooltip says first about the entry backing the package's name.
pub const PACKAGE_IDENTITY_NOTE: &'static str = "This entry is the package's own name. The container addresses the package by a hash of it, so changing it here would not move the chunk that serves it.";

/// The tooltip of a name-map row: whether it is the package's identity, and
/// who references it.
pub fn name_usage_tooltip(usage: &ChimpNameUsage) -> (out: String)
    ensures
        out@ == join(tooltip_lines(*usage), "\n"@),
{
    let ghost identity: Seq<Seq<char>> = if usage.is_package_identity {
        seq![PACKAGE_IDENTITY_NOTE@]
    } else {
        Seq::empty()
    };
    let mut out: Vec<char> = Vec::new();
    let mut first = true;
    let ghost mut lines: Seq<Seq<char>> = Seq::empty();
    if usage.is_package_identity {
        push_joined(&mut out, first, "\n", &chars_of(PACKAGE_IDENTITY_NOTE), Ghost(lines));
        proof {
            lines = lines.push(PACKAGE_IDENTITY_NOTE@);
        }
        first = false;
    }
    assert(lines =~= identity);
    if usage.count == 0 {
        push_joined(&mut out, first, "\n", &chars_of("Nothing references this entry."), Ghost(lines));
        return string_of(&out);
    }
    let mut head = chars_of("Referenced ");
    push_decimal(&mut head, usage.count as u64);
    push_str(&mut head, " time(s) by:");
    push_joined(&mut out, first, "\n", &head, Ghost(lines));
    proof {
        lines = lines.push(head@);
    }
    first = false;
    let ghost listed_head = lines;
    let mut i: usize = 0;
    while i < usage.sites.len()
        invariant
            i <= usage.sites.len(),
            !first,
            lines.len() > 0,
            lines == listed_head + usage.sites@.take(i as int).map_values(
                |site: String| "  \u{2022} "@ + site@,
            ),
            out@ == join(lines, "\n"@),
        decreases usage.sites.len() - i,
    {
        let mut line = chars_of("  \u{2022} ");
        push_str(&mut line, usage.sites[i].as_str());
        push_joined(&mut out, first, "\n", &line, Ghost(lines));
        proof {
            assert(usage.sites@.take(i + 1).map_values(|site: String| "  \u{2022} "@ + site@)
                =~= usage.sites@.take(i as int).map_values(|site: String| "  \u{2022} "@ + site@).push(
                line@,
            ));
            lines = lines.push(line@);
        }
        i += 1;
    }
    assert(usage.sites@.take(usage.sites.len() as int) =~= usage.sites@);
    if usage.sites.len() < usage.count && usage.sites.len() == 8 {
        push_joined(&mut out, first, "\n", &chars_of("  \u{2022} \u{2026}"), Ghost(lines));
    }
    string_of(&out)
}

/// What the import table shows for a slot: its kind, and what it names.
/// `class_path` is the object path the mount knows a script import's hash
/// by, when it knows one.
pub open spec fn slot_display(slot: ImportSlot, class_path: Option<String>) -> (Seq<char>, Seq<char>) {
    match slot {
        ImportSlot::Script(hash) => (
            "script"@,
            match class_path {
                Some(path) => path@,
                None => "unknown to this mount (0x"@ + hex_upper(hash as nat, 16) + ")"@,
            },
        ),
        ImportSlot::Package(target) => (
            "package"@,
            target.package@ + "#"@ + hex_upper(target.object_hash as nat, 16),
        ),
        ImportSlot::Null => ("null"@, "None"@),
    }
}

pub fn import_slot_display(slot: &ImportSlot, class_path: Option<String>) -> (out: (String, String))
    ensures
        (out.0@, out.1@) == slot_display(*slot, class_path),
{
    match slot {
        ImportSlot::Script(hash) => {
            let text = match class_path {
                Some(path) => path,
                None => {
                    let mut t = chars_of("unknown to this mount (0x");
                    push_hex_upper(&mut t, *hash, 16);
                    push_str(&mut t, ")");
                    string_of(&t)
                },
            };
            (string_of(&chars_of("script")), text)
        },
        ImportSlot::Package(target) => {
            let mut t = chars_of(target.package.as_str());
            push_str(&mut t, "#");
            push_hex_upper(&mut t, target.object_hash, 16);
            (string_of(&chars_of("package")), string_of(&t))
        },
        ImportSlot::Null => (string_of(&chars_of("null")), string_of(&chars_of("None"))),
    }
}

// ---------------------------------------------------------------------------
// Import slot drafts
// ---------------------------------------------------------------------------

#[derive(Clone, Copy, Debug, PartialEq, Eq, Structural)]
pub enum ChimpImportKind {
    Script,
    Package,
    Null,
}

/// A draft import slot. Both names are text: a script import is stored as a
/// hash of its path and a package import names its object only by hash, so
/// whatever is typed is the only name either has.
pub struct ChimpImportEdit {
    /// The slot being edited, or the slot count for one being appended.
    pub slot: usize,
    pub kind: ChimpImportKind,
    pub script_path: String,
    pub package_path: String,
    /// Hashed on commit; never stored.
    pub object_name: String,
    /// The public exports of `package_path`, once asked for.
    pub resolved: Option<Result<Vec<(String, u64)>, String>>,
}

/// The slot an import draft commits: a script import by the hash of its
/// trimmed path (`script_hash`), a package import by its trimmed package
/// path and the public export hash of its trimmed object name
/// (`object_hash`), or the null slot. Both hashes are one-way functions of
/// the text and are computed by the caller; only the one the kind needs is
/// used.
pub fn chimp_import_slot_for(edit: &ChimpImportEdit, script_hash: u64, object_hash: u64) -> (out: (usize, ImportSlot))
    ensures
        out.0 == edit.slot,
        match edit.kind {
            ChimpImportKind::Script => out.1 == ImportSlot::Script(script_hash),
            ChimpImportKind::Package => out.1 matches ImportSlot::Package(target) && target.package@ == trim(
                edit.package_path@,
            ) && target.object_hash == object_hash,
            ChimpImportKind::Null => out.1 == ImportSlot::Null,
        },
{
    let slot = match edit.kind {
        ChimpImportKind::Script => ImportSlot::Script(script_hash),
        ChimpImportKind::Package => ImportSlot::Package(
            ImportTarget { package: trim_string(edit.package_path.as_str()), object_hash },
        ),
        ChimpImportKind::Null => ImportSlot::Null,
    };
    (edit.slot, slot)
}

/// The name of the first export in `exports` with public export hash `hash`.
pub open spec fn name_of_hash(exports: Seq<(String, u64)>, hash: u64) -> Option<Seq<char>>
    decreases exports.len(),
{
    if exports.len() == 0 {
        None
    } else if exports[0].1 == hash {
        Some(exports[0].0@)
    } else {
        name_of_hash(exports.drop_first(), hash)
    }
}

fn name_of_hash_exec(exports: &Vec<(String, u64)>, hash: u64) -> (out: String)
    ensures
        out@ == match name_of_hash(exports@, hash) {
            Some(name) => name,
            None => Seq::empty(),
        },
{
    let mut i: usize = 0;
    assert(exports@.skip(0) =~= exports@);
    while i < exports.len()
        invariant
            i <= exports.len(),
            name_of_hash(exports@, hash) == name_of_hash(exports@.skip(i as int), hash),
        decreases exports.len() - i,
    {
        assert(exports@.skip(i as int).drop_first() =~= exports@.skip(i + 1));
        assert(exports@.skip(i as int)[0] == exports@[i as int]);
        if exports[i].1 == hash {
            return exports[i].0.clone();
        }
        i += 1;
    }
    assert(exports@.skip(i as int).len() == 0);
    String::new()
}

/// Seed a draft from the slot as it stands.
///
/// `class_path` is the path the mount knows a script import's hash by, and
/// `public_exports` the public exports of a package import's package, as
/// `(object name, hash)`; each is read only for its kind of slot. A name
/// that cannot be recovered is left blank rather than guessed.
pub fn chimp_import_edit_for(
    slot: usize,
    current: &ImportSlot,
    class_path: Option<String>,
    public_exports: Result<Vec<(String, u64)>, String>,
) -> (out: ChimpImportEdit)
    ensures
        out.slot == slot,
        match *current {
            ImportSlot::Script(_) => {
                &&& out.kind == ChimpImportKind::Script
                &&& out.script_path@ == match class_path {
                    Some(path) => path@,
                    None => Seq::empty(),
                }
                &&& out.package_path@.len() == 0
                &&& out.object_name@.len() == 0
                &&& out.resolved is None
            },
            ImportSlot::Package(target) => {
                &&& out.kind == ChimpImportKind::Package
                &&& out.script_path@.len() == 0
                &&& out.package_path@ == target.package@
                &&& match public_exports {
                    Ok(exports) => out.object_name@ == match name_of_hash(
                        exports@,
                        target.object_hash,
                    ) {
                        Some(name) => name,
                        None => Seq::empty(),
                    } && out.resolved == Some(Ok::<Vec<(String, u64)>, String>(exports)),
                    Err(_) => out.object_name@.len() == 0 && out.resolved is None,
                }
            },
            ImportSlot::Null => {
                &&& out.kind == ChimpImportKind::Null
                &&& out.script_path@.len() == 0
                &&& out.package_path@.len() == 0
                &&& out.object_name@.len() == 0
                &&& out.resolved is None
            },
        },
{
    match current {
        ImportSlot::Script(_) => ChimpImportEdit {
            slot,
            kind: ChimpImportKind::Script,
            script_path: match class_path {
                Some(path) => path,
                None => String::new(),
            },
            package_path: String::new(),
            object_name: String::new(),
            resolved: None,
        },
        ImportSlot::Package(target) => {
            let (object_name, resolved) = match public_exports {
                Ok(exports) => {
                    let name = name_of_hash_exec(&exports, target.object_hash);
                    (name, Some(Ok(exports)))
                },
                Err(_) => (String::new(), None),
            };
            ChimpImportEdit {
                slot,
                kind: ChimpImportKind::Package,
                script_path: String::new(),
                package_path: target.package.clone(),
                object_name,
                resolved,
            }
        },
        ImportSlot::Null => ChimpImportEdit {
            slot,
            kind: ChimpImportKind::Null,
            script_path: String::new(),
            package_path: String::new(),
            object_name: String::new(),
            resolved: None,
        },
    }
}

/// The object flags the export editor names, with the engine's bit values.
/// `ClassDefaultObject` is the one that changes how a payload decodes.
pub const CHIMP_OBJECT_FLAG_BITS: [(u32, &'static str); 5] = [
    (0x0000_0001, "Public"),
    (0x0000_0002, "Standalone"),
    (0x0000_0008, "Transactional"),
    (0x0000_0010, "ClassDefaultObject"),
    (0x0000_0020, "ArchetypeObject"),
];

// ---------------------------------------------------------------------------
// A package's public exports
// ---------------------------------------------------------------------------

/// `(name, hash)` pairs in the order a sort of `(String, u64)` puts them.
pub open spec fn export_lt(a: (Seq<char>, u64), b: (Seq<char>, u64)) -> bool {
    seq_lt(a.0, b.0) || (a.0 == b.0 && a.1 < b.1)
}

proof fn lemma_export_lt_total(a: (Seq<char>, u64), b: (Seq<char>, u64))
    requires
        a != b,
    ensures
        export_lt(a, b) || export_lt(b, a),
{
    if a.0 != b.0 {
        lemma_seq_lt_total(a.0, b.0);
    }
}

proof fn lemma_export_lt_transitive(a: (Seq<char>, u64), b: (Seq<char>, u64), c: (Seq<char>, u64))
    requires
        export_lt(a, b),
        export_lt(b, c),
    ensures
        export_lt(a, c),
{
    if seq_lt(a.0, b.0) && seq_lt(b.0, c.0) {
        lemma_seq_lt_transitive(a.0, b.0, c.0);
    }
}

/// The exports other packages can name: those with a public export hash
/// and a name that resolves, as `(name, hash)`, in export order.
pub open spec fn public_candidates(names: Seq<String>, entries: Seq<FExportMapEntry>) -> Seq<
    (Seq<char>, u64),
>
    decreases entries.len(),
{
    if entries.len() == 0 {
        Seq::empty()
    } else {
        let rest = public_candidates(names, entries.drop_last());
        let e = entries.last();
        match resolve(names, e.object_name) {
            Some(text) => if e.public_export_hash != 0 {
                rest.push((text, e.public_export_hash))
            } else {
                rest
            },
            None => rest,
        }
    }
}

pub open spec fn pair_views(pairs: Seq<(String, u64)>) -> Seq<(Seq<char>, u64)> {
    pairs.map_values(|p: (String, u64)| (p.0@, p.1))
}

pub open spec fn strictly_sorted(pairs: Seq<(Seq<char>, u64)>) -> bool {
    forall|i: int, j: int| 0 <= i < j < pairs.len() ==> export_lt(#[trigger] pairs[i], #[trigger] pairs[j])
}

fn export_lt_exec(a: &(String, u64), b: &(String, u64)) -> (out: bool)
    ensures
        out == export_lt((a.0@, a.1), (b.0@, b.1)),
{
    let x = chars_of(a.0.as_str());
    let y = chars_of(b.0.as_str());
    chars_lt(&x, &y) || (chars_eq(&x, &y) && a.1 < b.1)
}

/// The public exports of a package, as `(object name, hash)`: every export
/// with a non-zero public export hash and a name that resolves, sorted and
/// each pair once. A hash is one-way, so this is what turns one back into
/// the name it came from.
pub fn chimp_public_exports_of(header: &FZenPackageHeader) -> (out: Vec<(String, u64)>)
    ensures
        strictly_sorted(pair_views(out@)),
        forall|x: (Seq<char>, u64)|
            pair_views(out@).contains(x) <==> public_candidates(
                header.name_map.names@,
                header.export_map@,
            ).contains(x),
{
    let mut out: Vec<(String, u64)> = Vec::new();
    let ghost names = header.name_map.names@;
    let mut k: usize = 0;
    while k < header.export_map.len()
        invariant
            k <= header.export_map.len(),
            names == header.name_map.names@,
            strictly_sorted(pair_views(out@)),
            forall|x: (Seq<char>, u64)|
                pair_views(out@).contains(x) <==> public_candidates(
                    names,
                    header.export_map@.take(k as int),
                ).contains(x),
        decreases header.export_map.len() - k,
    {
        proof {
            assert(header.export_map@.take(k + 1).drop_last() =~= header.export_map@.take(k as int));
        }
        let entry = header.export_map[k];
        let ghost before = pair_views(out@);
        let ghost cand_old = public_candidates(names, header.export_map@.take(k as int));
        let ghost cand_new = public_candidates(names, header.export_map@.take(k + 1));
        proof {
            assert(header.export_map@.take(k + 1).last() == entry);
        }
        if entry.public_export_hash != 0 {
            if let Some(text) = header.name_map.try_get(entry.object_name) {
                let item = (text, entry.public_export_hash);
                let ghost x = (item.0@, item.1);
                let mut p: usize = 0;
                while p < out.len() && export_lt_exec(&out[p], &item)
                    invariant
                        p <= out.len(),
                        pair_views(out@) == before,
                        x == (item.0@, item.1),
                        forall|i: int| 0 <= i < p ==> export_lt(#[trigger] before[i], x),
                    decreases out.len() - p,
                {
                    p += 1;
                }
                let duplicate = p < out.len() && !export_lt_exec(&item, &out[p]);
                if !duplicate {
                    proof {
                        assert forall|j: int| p <= j < before.len() implies export_lt(
                            x,
                            #[trigger] before[j],
                        ) by {
                            assert(!export_lt(before[p as int], x));
                            assert(export_lt(x, before[p as int]));
                            if j > p {
                                lemma_export_lt_transitive(x, before[p as int], before[j]);
                            }
                        }
                    }
                    out.insert(p, item);
                    proof {
                        let after = pair_views(out@);
                        assert(after =~= before.insert(p as int, x));
                        assert forall|i: int, j: int| 0 <= i < j < after.len() implies export_lt(
                            #[trigger] after[i],
                            #[trigger] after[j],
                        ) by {
                            if j < p {
                                assert(after[i] == before[i] && after[j] == before[j]);
                            } else if j == p {
                                assert(after[i] == before[i]);
                            } else if i < p {
                                assert(after[i] == before[i] && after[j] == before[j - 1]);
                                lemma_export_lt_transitive(before[i], x, before[j - 1]);
                            } else if i == p {
                                assert(after[j] == before[j - 1]);
                            } else {
                                assert(after[i] == before[i - 1] && after[j] == before[j - 1]);
                            }
                        }
                        assert forall|y: (Seq<char>, u64)| after.contains(y) <==> before.push(x).contains(
                            y,
                        ) by {
                            if after.contains(y) {
                                let i = choose|i: int| 0 <= i < after.len() && after[i] == y;
                                if i < p {
                                    assert(before.push(x)[i] == y);
                                } else if i == p {
                                    assert(before.push(x)[before.len() as int] == y);
                                } else {
                                    assert(before.push(x)[i - 1] == y);
                                }
                            }
                            if before.push(x).contains(y) {
                                let i = choose|i: int| 0 <= i < before.push(x).len() && before.push(x)[i] == y;
                                if i == before.len() {
                                    assert(after[p as int] == y);
                                } else if i < p {
                                    assert(after[i] == y);
                                } else {
                                    assert(after[i + 1] == y);
                                }
                            }
                        }
                        assert(cand_new == cand_old.push(x));
                        assert forall|y: (Seq<char>, u64)| after.contains(y) <==> cand_new.contains(y) by {
                            if before.push(x).contains(y) {
                                let i = choose|i: int| 0 <= i < before.push(x).len() && before.push(x)[i] == y;
                                if i == before.len() {
                                    assert(cand_new[cand_old.len() as int] == y);
                                } else {
                                    assert(before.contains(y));
                                    let m = choose|m: int| 0 <= m < cand_old.len() && cand_old[m] == y;
                                    assert(cand_new[m] == y);
                                }
                            }
                            if cand_new.contains(y) {
                                let m = choose|m: int| 0 <= m < cand_new.len() && cand_new[m] == y;
                                if m == cand_old.len() {
                                    assert(before.push(x)[before.len() as int] == y);
                                } else {
                                    assert(cand_old[m] == y);
                                    assert(before.contains(y));
                                    let i = choose|i: int| 0 <= i < before.len() && before[i] == y;
                                    assert(before.push(x)[i] == y);
                                }
                            }
                        }
                    }
                } else {
                    proof {
                        assert(!export_lt(before[p as int], x));
                        assert(!export_lt(x, before[p as int]));
                        if before[p as int] != x {
                            lemma_export_lt_total(before[p as int], x);
                        }
                        assert forall|y: (Seq<char>, u64)| before.contains(y) <==> before.push(x).contains(
                            y,
                        ) by {
                            if before.push(x).contains(y) {
                                let i = choose|i: int| 0 <= i < before.push(x).len() && before.push(x)[i] == y;
                                if i == before.len() {
                                    assert(before[p as int] == y);
                                } else {
                                    assert(before[i] == y);
                                }
                            }
                            if before.contains(y) {
                                let i = choose|i: int| 0 <= i < before.len() && before[i] == y;
                                assert(before.push(x)[i] == y);
                            }
                        }
                        assert(cand_new == cand_old.push(x));
                        assert forall|y: (Seq<char>, u64)| before.contains(y) <==> cand_new.contains(y) by {
                            if cand_new.contains(y) {
                                let m = choose|m: int| 0 <= m < cand_new.len() && cand_new[m] == y;
                                if m == cand_old.len() {
                                    assert(before.push(x)[before.len() as int] == y);
                                } else {
                                    assert(cand_old[m] == y);
                                }
                            }
                            if before.contains(y) {
                                assert(cand_old.contains(y));
                                let m = choose|m: int| 0 <= m < cand_old.len() && cand_old[m] == y;
                                assert(cand_new[m] == y);
                            }
                        }
                    }
                }
            } else {
                assert(cand_new == cand_old);
            }
        } else {
            assert(cand_new == cand_old);
        }
        k += 1;
    }
    assert(header.export_map@.take(k as int) =~= header.export_map@);
    out
}

} // verus!
