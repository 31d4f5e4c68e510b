//! What a package is, read off its exports and imports, and the JSON tree a
//! package's decoded properties are shown as.

use vstd::prelude::*;

use crate::browser::views;
use crate::header::{ChimpExport, FZenPackageHeader, PropValue, PropertyBlock, PropertyEntry};
use crate::names::resolve;
use crate::extract::slash_leaf;
use crate::order::{
    chars_eq, chars_lt, lemma_seq_lt_irreflexive, lemma_seq_lt_total, lemma_seq_lt_transitive, seq_lt,
};
use crate::text::{chars_of, contains, contains_exec, last_pos, lower, lower_chars, leaf, leaf_of, starts_with, starts_with_exec, string_of, sub_chars};

verus! {

#[derive(Clone, Copy, Debug, PartialEq, Eq, Structural)]
pub enum ChimpMeshKind {
    Skeletal,
    Static,
}

/// Which view a document opens in.
#[derive(Clone, Copy, Debug, PartialEq, Eq, Structural)]
pub enum ChimpDocumentView {
    /// The readable property document.
    Document,
    Texture,
    Mesh,
}

impl Default for ChimpDocumentView {
    fn default() -> (out: Self)
        ensures
            out == ChimpDocumentView::Document,
    {
        ChimpDocumentView::Document
    }
}

pub open spec fn class_is(export: ChimpExport, class: Seq<char>) -> bool {
    export.class matches Some(c) && c@ == class
}

/// Some export of `exports` has class `class`.
pub open spec fn has_class(exports: Seq<ChimpExport>, class: Seq<char>) -> bool {
    exists|i: int| 0 <= i < exports.len() && class_is(#[trigger] exports[i], class)
}

/// A package is a skeletal mesh when any export is one, else a static mesh
/// when any export is one; a skeletal mesh package carries static pieces too.
pub open spec fn mesh_kind_of(exports: Seq<ChimpExport>) -> Option<ChimpMeshKind> {
    if has_class(exports, "SkeletalMesh"@) {
        Some(ChimpMeshKind::Skeletal)
    } else if has_class(exports, "StaticMesh"@) {
        Some(ChimpMeshKind::Static)
    } else {
        None
    }
}

fn has_class_exec(exports: &Vec<ChimpExport>, class: &str) -> (out: bool)
    ensures
        out == has_class(exports@, class@),
{
    let wanted = chars_of(class);
    let mut i: usize = 0;
    while i < exports.len()
        invariant
            i <= exports.len(),
            wanted@ == class@,
            forall|j: int| 0 <= j < i ==> !class_is(#[trigger] exports@[j], class@),
        decreases exports.len() - i,
    {
        if let Some(c) = &exports[i].class {
            if chars_eq(&chars_of(c.as_str()), &wanted) {
                return true;
            }
        }
        i += 1;
    }
    false
}

/// The kind of mesh a package holds, read off its export classes.
pub fn chimp_mesh_kind(exports: &Vec<ChimpExport>) -> (out: Option<ChimpMeshKind>)
    ensures
        out == mesh_kind_of(exports@),
{
    if has_class_exec(exports, "SkeletalMesh") {
        Some(ChimpMeshKind::Skeletal)
    } else if has_class_exec(exports, "StaticMesh") {
        Some(ChimpMeshKind::Static)
    } else {
        None
    }
}

/// The view a freshly opened document starts in: its texture when it has
/// texture previews, its mesh when it is one, else the property document.
pub open spec fn initial_view(has_texture_previews: bool, mesh_kind: Option<ChimpMeshKind>) -> ChimpDocumentView {
    if has_texture_previews {
        ChimpDocumentView::Texture
    } else if mesh_kind is Some {
        ChimpDocumentView::Mesh
    } else {
        ChimpDocumentView::Document
    }
}

pub fn chimp_initial_view(has_texture_previews: bool, mesh_kind: Option<ChimpMeshKind>) -> (out:
    ChimpDocumentView)
    ensures
        out == initial_view(has_texture_previews, mesh_kind),
{
    if has_texture_previews {
        ChimpDocumentView::Texture
    } else if mesh_kind.is_some() {
        ChimpDocumentView::Mesh
    } else {
        ChimpDocumentView::default()
    }
}

/// The last `/`-separated segment of a package path.
pub open spec fn path_leaf(path: Seq<char>) -> Seq<char> {
    path.subrange(last_pos(path, crate::text::char_pred('/')), path.len() as int)
}

/// A package is a material when its leaf starts `MI_` or `M_`, the prefixes
/// the game uses.
pub open spec fn material_package(path: Seq<char>) -> bool {
    starts_with(path_leaf(path), "MI_"@) || starts_with(path_leaf(path), "M_"@)
}

fn path_leaf_exec(path: &Vec<char>) -> (out: Vec<char>)
    ensures
        out@ == path_leaf(path@),
{
    let mut k: usize = path.len();
    assert(path@.take(k as int) =~= path@);
    while k > 0 && path[k - 1] != '/'
        invariant
            k <= path.len(),
            last_pos(path@, crate::text::char_pred('/')) == last_pos(
                path@.take(k as int),
                crate::text::char_pred('/'),
            ),
        decreases k,
    {
        assert(path@.take(k as int).drop_last() =~= path@.take(k - 1));
        k -= 1;
    }
    if k > 0 {
        assert(path@.take(k as int).last() == '/');
    }
    sub_chars(path, k, path.len())
}

pub fn is_chimp_material_package(path: &str) -> (out: bool)
    ensures
        out == material_package(path@),
{
    let leaf = path_leaf_exec(&chars_of(path));
    starts_with_exec(&leaf, &chars_of("MI_")) || starts_with_exec(&leaf, &chars_of("M_"))
}

/// The materials a mesh imports, by leaf name, in import order.
pub open spec fn material_names(imported: Seq<Seq<char>>) -> Seq<Seq<char>>
    decreases imported.len(),
{
    if imported.len() == 0 {
        Seq::empty()
    } else {
        let rest = material_names(imported.drop_last());
        if material_package(imported.last()) {
            rest.push(path_leaf(imported.last()))
        } else {
            rest
        }
    }
}

/// The leaf names of the material packages among a header's imported
/// package names.
pub fn chimp_material_names(imported_package_names: &Vec<String>) -> (out: Vec<String>)
    ensures
        views(out@) == material_names(views(imported_package_names@)),
{
    let mut out: Vec<String> = Vec::new();
    let mut i: usize = 0;
    while i < imported_package_names.len()
        invariant
            i <= imported_package_names.len(),
            views(out@) == material_names(views(imported_package_names@).take(i as int)),
        decreases imported_package_names.len() - i,
    {
        proof {
            assert(views(imported_package_names@).take(i + 1).drop_last() =~= views(
                imported_package_names@,
            ).take(i as int));
        }
        let path = imported_package_names[i].as_str();
        if is_chimp_material_package(path) {
            let leaf = string_of(&path_leaf_exec(&chars_of(path)));
            let ghost before = out@;
            out.push(leaf);
            assert(views(out@) =~= views(before).push(leaf@));
        }
        i += 1;
    }
    assert(views(imported_package_names@).take(imported_package_names.len() as int) =~= views(
        imported_package_names@,
    ));
    out
}

pub open spec fn is_class_sep(c: char) -> bool {
    c == '.' || c == '/'
}

pub open spec fn class_sep_pred() -> spec_fn(char) -> bool {
    |c: char| is_class_sep(c)
}

pub open spec fn segment_pred() -> spec_fn(char) -> bool {
    |c: char| !is_class_sep(c)
}

/// The last non-empty segment of a class path split on `.` and `/`, or
/// `Unknown` when there is no class or no such segment.
pub open spec fn class_display_name(class: Option<Seq<char>>) -> Seq<char> {
    match class {
        Some(path) => {
            let end = last_pos(path, segment_pred());
            if end == 0 {
                "Unknown"@
            } else {
                let head = path.take(end);
                head.subrange(last_pos(head, class_sep_pred()), end)
            }
        },
        None => "Unknown"@,
    }
}

pub fn chimp_class_display_name(class: Option<&str>) -> (out: String)
    ensures
        out@ == class_display_name(
            match class {
                Some(c) => Some(c@),
                None => None,
            },
        ),
{
    match class {
        None => string_of(&chars_of("Unknown")),
        Some(c) => {
            let path = chars_of(c);
            let mut end: usize = path.len();
            assert(path@.take(end as int) =~= path@);
            while end > 0 && (path[end - 1] == '.' || path[end - 1] == '/')
                invariant
                    end <= path.len(),
                    last_pos(path@, segment_pred()) == last_pos(
                        path@.take(end as int),
                        segment_pred(),
                    ),
                decreases end,
            {
                assert(path@.take(end as int).drop_last() =~= path@.take(end - 1));
                end -= 1;
            }
            if end == 0 {
                return string_of(&chars_of("Unknown"));
            }
            assert(path@.take(end as int).last() == path@[end - 1]);
            let head = sub_chars(&path, 0, end);
            assert(head@ =~= path@.take(end as int));
            let mut start: usize = end;
            assert(head@.take(start as int) =~= head@);
            while start > 0 && !(head[start - 1] == '.' || head[start - 1] == '/')
                invariant
                    start <= end == head.len(),
                    last_pos(head@, class_sep_pred()) == last_pos(
                        head@.take(start as int),
                        class_sep_pred(),
                    ),
                decreases start,
            {
                assert(head@.take(start as int).drop_last() =~= head@.take(start - 1));
                start -= 1;
            }
            if start > 0 {
                assert(head@.take(start as int).last() == head@[start - 1]);
            }
            assert(head@.take(end as int) =~= head@);
            string_of(&sub_chars(&head, start, end))
        },
    }
}

// ---------------------------------------------------------------------------
// The type a package is listed under
// ---------------------------------------------------------------------------

pub open spec fn opt_view(s: Option<String>) -> Option<Seq<char>> {
    match s {
        Some(s) => Some(s@),
        None => None,
    }
}

/// The type one export's class key lists its package under: none for a
/// class key that is a path or names a generated class, `Blueprint` for any
/// blueprint class, otherwise the class itself.
pub open spec fn type_of_class(class: Option<Seq<char>>) -> Option<Seq<char>> {
    match class {
        None => None,
        Some(c) => if contains(c, "/"@) || contains(c, "#"@) {
            None
        } else if contains(c, "Blueprint"@) {
            Some("Blueprint"@)
        } else {
            Some(c)
        },
    }
}

/// The first `k` in `i..n` with `p(k)`.
pub open spec fn first_index(p: spec_fn(int) -> bool, i: int, n: int) -> Option<int>
    decreases n - i,
{
    if i >= n {
        None
    } else if p(i) {
        Some(i)
    } else {
        first_index(p, i + 1, n)
    }
}

/// Export `k` has no outer and is named as the package's leaf is.
pub open spec fn names_package(header: FZenPackageHeader, leaf: Seq<char>, k: int) -> bool {
    header.export_map@[k].outer_is_null && resolve(header.name_map.names@, header.export_map@[k].object_name)
        == Some(leaf)
}

pub open spec fn package_leaf(header: FZenPackageHeader) -> Seq<char> {
    slash_leaf(resolve(header.name_map.names@, header.summary.name).unwrap())
}

/// The type a package is listed under: that of the top-level export named
/// as the package is; failing that, `Blueprint` when any top-level export is
/// a blueprint; failing that, the type of the first top-level export that
/// has one. `classes` holds each export's class key.
pub open spec fn package_type(header: FZenPackageHeader, classes: Seq<Option<Seq<char>>>) -> Option<Seq<char>> {
    let n = header.export_map@.len() as int;
    let leaf = package_leaf(header);
    let primary = match first_index(|k: int| names_package(header, leaf, k), 0, n) {
        Some(k) => type_of_class(classes[k]),
        None => None,
    };
    if primary is Some {
        primary
    } else {
        fallback_type(header, classes)
    }
}

/// `Blueprint` when any top-level export is a blueprint, else the type of
/// the first top-level export that has one.
pub open spec fn fallback_type(header: FZenPackageHeader, classes: Seq<Option<Seq<char>>>) -> Option<Seq<char>> {
    let n = header.export_map@.len() as int;
    match first_index(
        |k: int| header.export_map@[k].outer_is_null && type_of_class(classes[k]) == Some("Blueprint"@),
        0,
        n,
    ) {
        Some(_) => Some("Blueprint"@),
        None => match first_index(
            |k: int| header.export_map@[k].outer_is_null && type_of_class(classes[k]) is Some,
            0,
            n,
        ) {
            Some(k) => type_of_class(classes[k]),
            None => None,
        },
    }
}

proof fn lemma_first_index_bounds(p: spec_fn(int) -> bool, i: int, n: int)
    ensures
        match first_index(p, i, n) {
            Some(j) => i <= j < n && p(j),
            None => true,
        },
    decreases n - i,
{
    if i < n && !p(i) {
        lemma_first_index_bounds(p, i + 1, n);
    }
}

fn type_of_class_exec(class: &Option<String>) -> (out: Option<String>)
    ensures
        opt_view(out) == type_of_class(opt_view(*class)),
{
    match class {
        None => None,
        Some(c) => {
            let chars = chars_of(c.as_str());
            if contains_exec(&chars, &chars_of("/")) || contains_exec(&chars, &chars_of("#")) {
                None
            } else if contains_exec(&chars, &chars_of("Blueprint")) {
                Some(string_of(&chars_of("Blueprint")))
            } else {
                Some(c.clone())
            }
        },
    }
}

pub(crate) proof fn lemma_first_index_step(p: spec_fn(int) -> bool, i: int, n: int)
    requires
        i < n,
        !p(i),
    ensures
        first_index(p, i, n) == first_index(p, i + 1, n),
{
}

/// The first top-level export named `leaf`.
fn find_named_export(header: &FZenPackageHeader, leaf: &Vec<char>) -> (out: Option<usize>)
    requires
        leaf@ == package_leaf(*header),
        forall|k: int|
            0 <= k < header.export_map@.len() && header.export_map@[k].outer_is_null && (forall|j: int|
                0 <= j < k ==> !names_package(*header, package_leaf(*header), j)) ==> (
            #[trigger] header.export_map@[k]).object_name.index < header.name_map.names@.len(),
    ensures
        match out {
            Some(k) => first_index(|k: int| names_package(*header, leaf@, k), 0, header.export_map@.len() as int)
                == Some(k as int) && k < header.export_map@.len(),
            None => first_index(|k: int| names_package(*header, leaf@, k), 0, header.export_map@.len() as int)
                is None,
        },
{
    let ghost named = |k: int| names_package(*header, leaf@, k);
    let n = header.export_map.len();
    let mut k: usize = 0;
    while k < n
        invariant
            n == header.export_map@.len(),
            k <= n,
            leaf@ == package_leaf(*header),
            named == (|k: int| names_package(*header, leaf@, k)),
            forall|j: int| 0 <= j < k ==> !names_package(*header, leaf@, j),
            first_index(named, 0, n as int) == first_index(named, k as int, n as int),
            forall|k: int|
                0 <= k < header.export_map@.len() && header.export_map@[k].outer_is_null && (forall|j: int|
                    0 <= j < k ==> !names_package(*header, package_leaf(*header), j)) ==> (
                #[trigger] header.export_map@[k]).object_name.index < header.name_map.names@.len(),
        decreases n - k,
    {
        let entry = &header.export_map[k];
        if entry.outer_is_null {
            assert(header.export_map@[k as int].object_name.index < header.name_map.names@.len());
            let found = match header.name_map.try_get(entry.object_name) {
                Some(text) => crate::order::chars_eq(&chars_of(text.as_str()), leaf),
                None => false,
            };
            if found {
                return Some(k);
            }
        }
        proof {
            lemma_first_index_step(named, k as int, n as int);
        }
        k += 1;
    }
    None
}

/// The type a package is listed under (see `package_type`), from its header
/// and each export's class key as the mount names it.
pub fn chimp_package_type(header: &FZenPackageHeader, classes: &Vec<Option<String>>) -> (out: Option<String>)
    requires
        classes@.len() == header.export_map@.len(),
        header.summary.name.index < header.name_map.names@.len(),
        forall|k: int|
            0 <= k < header.export_map@.len() && header.export_map@[k].outer_is_null && (forall|j: int|
                0 <= j < k ==> !names_package(*header, package_leaf(*header), j)) ==> (
            #[trigger] header.export_map@[k]).object_name.index < header.name_map.names@.len(),
    ensures
        opt_view(out) == package_type(*header, classes@.map_values(|c: Option<String>| opt_view(c))),
{
    let ghost cv = classes@.map_values(|c: Option<String>| opt_view(c));
    let n = header.export_map.len();
    let name = match header.name_map.try_get(header.summary.name) {
        Some(name) => name,
        None => {
            return None;
        },
    };
    let leaf = crate::extract::slash_leaf_of(&chars_of(name.as_str()));
    let ghost lf = leaf@;
    assert(lf == package_leaf(*header));
    let primary = find_named_export(header, &leaf);
    if let Some(k) = primary {
        let class = type_of_class_exec(&classes[k]);
        assert(cv[k as int] == opt_view(classes@[k as int]));
        if class.is_some() {
            return class;
        }
    }
    // Failing that, a blueprint among the top-level exports, else the first
    // top-level export with a type.
    let ghost blueprint = |k: int| header.export_map@[k].outer_is_null && type_of_class(cv[k]) == Some("Blueprint"@);
    let ghost typed = |k: int| header.export_map@[k].outer_is_null && type_of_class(cv[k]) is Some;
    let mut first_typed: Option<String> = None;
    let mut k: usize = 0;
    proof {
        lemma_first_index_bounds(typed, 0, n as int);
    }
    assert(package_type(*header, cv) == fallback_type(*header, cv));
    while k < n
        invariant
            package_type(*header, cv) == fallback_type(*header, cv),
            n == header.export_map@.len() == classes@.len() == cv.len(),
            k <= n,
            cv == classes@.map_values(|c: Option<String>| opt_view(c)),
            blueprint == (|k: int| header.export_map@[k].outer_is_null && type_of_class(cv[k]) == Some("Blueprint"@)),
            typed == (|k: int| header.export_map@[k].outer_is_null && type_of_class(cv[k]) is Some),
            first_index(blueprint, 0, n as int) == first_index(blueprint, k as int, n as int),
            match first_index(typed, 0, n as int) {
                Some(j) => if j < k {
                    first_typed matches Some(t) && Some(t@) == type_of_class(cv[j])
                } else {
                    first_typed is None && first_index(typed, k as int, n as int) == Some(j)
                },
                None => first_typed is None && first_index(typed, k as int, n as int) is None,
            },
        decreases n - k,
    {
        let ghost before = first_typed;
        if header.export_map[k].outer_is_null {
            let class = type_of_class_exec(&classes[k]);
            assert(cv[k as int] == opt_view(classes@[k as int]));
            match &class {
                Some(t) => {
                    if crate::order::chars_eq(&chars_of(t.as_str()), &chars_of("Blueprint")) {
                        return Some(string_of(&chars_of("Blueprint")));
                    }
                    if first_typed.is_none() {
                        first_typed = class;
                    }
                },
                None => {},
            }
        }
        proof {
            assert(cv[k as int] == opt_view(classes@[k as int]));
            lemma_first_index_step(blueprint, k as int, n as int);
            if !typed(k as int) {
                lemma_first_index_step(typed, k as int, n as int);
            } else {
                assert(first_index(typed, k as int, n as int) == Some(k as int));
            }
            lemma_first_index_bounds(typed, k as int, n as int);
        }
        k += 1;
    }
    first_typed
}

// ---------------------------------------------------------------------------
// Where a document came from
// ---------------------------------------------------------------------------

/// The label a document pane names its container by: `(no container)` for
/// an orphaned document, whose remembered index now addresses a different
/// list, and for an index past the end of `containers` (each container's
/// path as displayed).
pub open spec fn container_label(orphaned: bool, container: usize, containers: Seq<String>) -> Seq<char> {
    if orphaned || container >= containers.len() {
        "(no container)"@
    } else {
        containers[container as int]@
    }
}

/// Name the container a document was read from. `container` is the index
/// the document remembers; an orphan's, or one past the end, names none.
pub fn chimp_document_container_label(orphaned: bool, container: usize, containers: &Vec<String>) -> (out: String)
    ensures
        out@ == container_label(orphaned, container, containers@),
{
    if orphaned || container >= containers.len() {
        return string_of(&chars_of("(no container)"));
    }
    containers[container].clone()
}

// ---------------------------------------------------------------------------
// Counting packages by type
// ---------------------------------------------------------------------------

/// Every package's type, or `None` where it could not be told, with how
/// many packages each type lists and how many could not be told.
pub struct ChimpTypeIndex {
    /// Per package, in mount order.
    pub package_types: Vec<Option<String>>,
    /// Each type with its number of packages, by name in ascending order.
    pub type_counts: Vec<(String, usize)>,
    pub failures: usize,
}

pub open spec fn opt_views(types: Seq<Option<String>>) -> Seq<Option<Seq<char>>> {
    types.map_values(|t: Option<String>| opt_view(t))
}

/// How many of `types` are `Some(name)`.
pub open spec fn count_type(types: Seq<Option<Seq<char>>>, name: Seq<char>) -> nat
    decreases types.len(),
{
    if types.len() == 0 {
        0
    } else {
        count_type(types.drop_last(), name) + if types.last() == Some(name) {
            1nat
        } else {
            0nat
        }
    }
}

/// How many of `types` are `None`.
pub open spec fn count_failures(types: Seq<Option<Seq<char>>>) -> nat
    decreases types.len(),
{
    if types.len() == 0 {
        0
    } else {
        count_failures(types.drop_last()) + if types.last() is None {
            1nat
        } else {
            0nat
        }
    }
}

/// `counts` lists each type of `types` once, in ascending order, with its
/// number of packages, and nothing else.
pub open spec fn counts_types(types: Seq<Option<Seq<char>>>, counts: Seq<(String, usize)>) -> bool {
    &&& forall|a: int, b: int| 0 <= a < b < counts.len() ==> seq_lt(#[trigger] counts[a].0@, #[trigger] counts[b].0@)
    &&& forall|a: int| 0 <= a < counts.len() ==> #[trigger] counts[a].1 == count_type(types, counts[a].0@) && counts[a].1 > 0
    &&& forall|name: Seq<char>| #[trigger] count_type(types, name) > 0 ==> exists|a: int| 0 <= a < counts.len() && #[trigger] counts[a].0@ == name
}

proof fn lemma_counts_bounded(types: Seq<Option<Seq<char>>>, name: Seq<char>)
    ensures
        count_type(types, name) <= types.len(),
        count_failures(types) <= types.len(),
    decreases types.len(),
{
    if types.len() > 0 {
        lemma_counts_bounded(types.drop_last(), name);
    }
}

/// Count packages by type: each type once, with how many packages it lists,
/// and the packages whose type could not be told.
pub fn chimp_type_index(package_types: Vec<Option<String>>) -> (out: ChimpTypeIndex)
    ensures
        out.package_types@ == package_types@,
        out.failures == count_failures(opt_views(package_types@)),
        counts_types(opt_views(package_types@), out.type_counts@),
{
    let ghost types = opt_views(package_types@);
    let mut counts: Vec<(String, usize)> = Vec::new();
    let mut failures: usize = 0;
    let mut k: usize = 0;
    while k < package_types.len()
        invariant
            k <= package_types.len(),
            types == opt_views(package_types@),
            failures == count_failures(types.take(k as int)),
            counts_types(types.take(k as int), counts@),
        decreases package_types.len() - k,
    {
        let ghost before = types.take(k as int);
        let ghost after = types.take(k + 1);
        let ghost old_counts = counts@;
        proof {
            assert(after.drop_last() =~= before);
            assert(after.last() == types[k as int]);
            assert(types[k as int] == opt_view(package_types@[k as int]));
            lemma_counts_bounded(before, Seq::empty());
        }
        match &package_types[k] {
            None => {
                failures += 1;
                proof {
                    assert forall|name: Seq<char>| count_type(after, name) == count_type(before, name) by {}
                }
            },
            Some(t) => {
                let key = chars_of(t.as_str());
                let mut i: usize = 0;
                while i < counts.len() && chars_lt(&chars_of(counts[i].0.as_str()), &key)
                    invariant
                        i <= counts.len(),
                        counts@ == old_counts,
                        forall|a: int| 0 <= a < i ==> seq_lt(#[trigger] counts@[a].0@, key@),
                    decreases counts.len() - i,
                {
                    i += 1;
                }
                let found = i < counts.len() && chars_eq(&chars_of(counts[i].0.as_str()), &key);
                proof {
                    assert forall|name: Seq<char>| name != key@ implies count_type(after, name) == count_type(before, name) by {}
                    assert(count_type(after, key@) == count_type(before, key@) + 1);
                    lemma_counts_bounded(before, key@);
                    assert forall|a: int| 0 <= a < i implies counts@[a].0@ != key@ by {
                        lemma_seq_lt_irreflexive(key@);
                    }
                    if i < counts.len() && !found {
                        lemma_seq_lt_total(counts@[i as int].0@, key@);
                    }
                }
                if found {
                    let n = counts[i].1;
                    let name = counts[i].0.clone();
                    proof {
                        assert(n == count_type(before, key@));
                    }
                    counts.set(i, (name, n + 1));
                    proof {
                        assert forall|a: int| 0 <= a < counts@.len() && a != i implies counts@[a].0@ != key@ by {
                            if a > i {
                                assert(seq_lt(old_counts[i as int].0@, old_counts[a].0@));
                                lemma_seq_lt_irreflexive(key@);
                            }
                        }
                        assert forall|name: Seq<char>| #[trigger] count_type(after, name) > 0 implies exists|a: int|
                            0 <= a < counts@.len() && #[trigger] counts@[a].0@ == name by {
                            if name == key@ {
                                assert(counts@[i as int].0@ == name);
                            } else {
                                let a = choose|a: int| 0 <= a < old_counts.len() && #[trigger] old_counts[a].0@ == name;
                                assert(counts@[a].0@ == name);
                            }
                        }
                    }
                } else {
                    counts.insert(i, (t.clone(), 1));
                    proof {
                        let c = counts@;
                        assert forall|a: int| 0 <= a < c.len() && a != i implies #[trigger] c[a].0@ != key@ && c[a] == if a < i {
                            old_counts[a]
                        } else {
                            old_counts[a - 1]
                        } by {
                            lemma_seq_lt_irreflexive(key@);
                            if a > i {
                                if a - 1 > i {
                                    assert(seq_lt(old_counts[i as int].0@, old_counts[a - 1].0@));
                                    lemma_seq_lt_transitive(key@, old_counts[i as int].0@, old_counts[a - 1].0@);
                                }
                            }
                        }
                        assert forall|a: int, b: int| 0 <= a < b < c.len() implies seq_lt(#[trigger] c[a].0@, #[trigger] c[b].0@) by {
                            if b == i {
                                assert(seq_lt(old_counts[a].0@, key@));
                            } else if a == i {
                                if b - 1 > i {
                                    assert(seq_lt(old_counts[i as int].0@, old_counts[b - 1].0@));
                                    lemma_seq_lt_transitive(key@, old_counts[i as int].0@, old_counts[b - 1].0@);
                                }
                            } else if a < i && b > i {
                                assert(seq_lt(old_counts[a].0@, key@));
                                if b - 1 > i {
                                    assert(seq_lt(old_counts[i as int].0@, old_counts[b - 1].0@));
                                    lemma_seq_lt_transitive(key@, old_counts[i as int].0@, old_counts[b - 1].0@);
                                }
                                lemma_seq_lt_transitive(old_counts[a].0@, key@, old_counts[b - 1].0@);
                            } else if a > i {
                                assert(seq_lt(old_counts[a - 1].0@, old_counts[b - 1].0@));
                            } else {
                                assert(seq_lt(old_counts[a].0@, old_counts[b].0@));
                            }
                        }
                        assert(count_type(before, key@) == 0) by {
                            if count_type(before, key@) > 0 {
                                let a = choose|a: int| 0 <= a < old_counts.len() && #[trigger] old_counts[a].0@ == key@;
                                if a >= i {
                                    if a > i {
                                        assert(seq_lt(old_counts[i as int].0@, old_counts[a].0@));
                                        lemma_seq_lt_irreflexive(key@);
                                    }
                                }
                            }
                        }
                        assert forall|name: Seq<char>| #[trigger] count_type(after, name) > 0 implies exists|a: int|
                            0 <= a < c.len() && #[trigger] c[a].0@ == name by {
                            if name == key@ {
                                assert(c[i as int].0@ == name);
                            } else {
                                let a = choose|a: int| 0 <= a < old_counts.len() && #[trigger] old_counts[a].0@ == name;
                                if a < i {
                                    assert(c[a].0@ == name);
                                } else {
                                    assert(c[a + 1].0@ == name);
                                }
                            }
                        }
                    }
                }
            },
        }
        k += 1;
    }
    proof {
        assert(types.take(k as int) =~= types);
    }
    ChimpTypeIndex { package_types, type_counts: counts, failures }
}

// ---------------------------------------------------------------------------
// Who imports a package
// ---------------------------------------------------------------------------

/// What a sweep for "who imports this package" found.
pub struct ChimpReferrerScan {
    /// Packages whose import map names the target, in mount order.
    pub referrers: Vec<String>,
    /// How many packages were examined.
    pub scanned: usize,
    /// How many could not be read, and so could not be ruled out: "nothing
    /// imports this" and "nothing readable imports this" are different
    /// answers, and only the first makes renaming safe.
    pub unreadable: usize,
}

impl Default for ChimpReferrerScan {
    fn default() -> (out: Self)
        ensures
            out.referrers@.len() == 0,
            out.scanned == 0,
            out.unreadable == 0,
    {
        ChimpReferrerScan { referrers: Vec::new(), scanned: 0, unreadable: 0 }
    }
}

/// `str::eq_ignore_ascii_case`.
pub open spec fn same_ignoring_ascii_case(a: Seq<char>, b: Seq<char>) -> bool {
    lower(a) == lower(b)
}

pub open spec fn imports_target(imports: Vec<String>, target: Seq<char>) -> bool {
    exists|i: int| 0 <= i < imports@.len() && same_ignoring_ascii_case(#[trigger] imports@[i]@, target)
}

/// The sweep over `packages` (each a name and the package names its header
/// imports, or `None` when it could not be read): the referrers, how many
/// were examined, how many were unreadable. The target itself is skipped.
pub open spec fn referrer_scan(packages: Seq<(String, Option<Vec<String>>)>, target: Seq<char>) -> (Seq<Seq<char>>, nat, nat)
    decreases packages.len(),
{
    if packages.len() == 0 {
        (Seq::empty(), 0, 0)
    } else {
        let (referrers, scanned, unreadable) = referrer_scan(packages.drop_last(), target);
        let (name, imports) = packages.last();
        if same_ignoring_ascii_case(name@, target) {
            (referrers, scanned, unreadable)
        } else {
            match imports {
                None => (referrers, scanned + 1, unreadable + 1),
                Some(imports) => if imports_target(imports, target) {
                    (referrers.push(name@), scanned + 1, unreadable)
                } else {
                    (referrers, scanned + 1, unreadable)
                },
            }
        }
    }
}

/// A package the sweep examines: any but the target, ignoring ASCII case.
pub open spec fn examined(target: Seq<char>) -> spec_fn((String, Option<Vec<String>>)) -> bool {
    |p: (String, Option<Vec<String>>)| !same_ignoring_ascii_case(p.0@, target)
}

/// An examined package whose header could not be read.
pub open spec fn unreadable(target: Seq<char>) -> spec_fn((String, Option<Vec<String>>)) -> bool {
    |p: (String, Option<Vec<String>>)| !same_ignoring_ascii_case(p.0@, target) && p.1 is None
}

/// An examined, readable package that imports the target.
pub open spec fn refers(target: Seq<char>) -> spec_fn((String, Option<Vec<String>>)) -> bool {
    |p: (String, Option<Vec<String>>)|
        !same_ignoring_ascii_case(p.0@, target) && (p.1 matches Some(imports) && imports_target(
            imports,
            target,
        ))
}

pub open spec fn package_name(p: (String, Option<Vec<String>>)) -> Seq<char> {
    p.0@
}

/// What a referrer sweep finds, in so many words: it examines every package
/// but the target (ignoring ASCII case), counts those whose header could not
/// be read, and lists, in mount order, the readable ones that import the
/// target ignoring ASCII case; so the referrers and the unreadable never
/// outnumber the packages examined.
pub proof fn lemma_referrer_scan_law(packages: Seq<(String, Option<Vec<String>>)>, target: Seq<char>)
    ensures
        referrer_scan(packages, target).1 == packages.filter(examined(target)).len(),
        referrer_scan(packages, target).2 == packages.filter(unreadable(target)).len(),
        referrer_scan(packages, target).0 == packages.filter(refers(target)).map_values(
            |p: (String, Option<Vec<String>>)| package_name(p),
        ),
        referrer_scan(packages, target).0.len() + referrer_scan(packages, target).2 <= referrer_scan(
            packages,
            target,
        ).1,
    decreases packages.len(),
{
    reveal(Seq::filter);
    lemma_scan_bounded(packages, target);
    if packages.len() == 0 {
        assert(packages.filter(refers(target)).map_values(|p: (String, Option<Vec<String>>)| package_name(p))
            =~= Seq::<Seq<char>>::empty());
    } else {
        let before = packages.drop_last();
        let last = packages.last();
        lemma_referrer_scan_law(before, target);
        let f = before.filter(refers(target));
        if refers(target)(last) {
            assert(f.push(last).map_values(|p: (String, Option<Vec<String>>)| package_name(p)) =~= f.map_values(
                |p: (String, Option<Vec<String>>)| package_name(p),
            ).push(last.0@));
        }
    }
}

fn same_ignoring_ascii_case_exec(a: &Vec<char>, b: &Vec<char>) -> (out: bool)
    ensures
        out == same_ignoring_ascii_case(a@, b@),
{
    chars_eq(&lower_chars(a), &lower_chars(b))
}

/// A sweep examines each package at most once, and every package it
/// examined is either cleared, a referrer or unreadable: referrers and
/// unreadable packages together never outnumber the packages examined.
pub proof fn lemma_scan_bounded(packages: Seq<(String, Option<Vec<String>>)>, target: Seq<char>)
    ensures
        referrer_scan(packages, target).1 <= packages.len(),
        referrer_scan(packages, target).0.len() + referrer_scan(packages, target).2
            <= referrer_scan(packages, target).1,
    decreases packages.len(),
{
    if packages.len() > 0 {
        lemma_scan_bounded(packages.drop_last(), target);
    }
}

/// Find every mounted package whose import map names `target`, ignoring
/// ASCII case. `packages` holds each mounted package's name, in mount
/// order, with the package names its header imports, or `None` where the
/// header could not be read; the target itself is not examined.
pub fn scan_chimp_referrers(packages: &Vec<(String, Option<Vec<String>>)>, target: &str) -> (out: ChimpReferrerScan)
    ensures
        views(out.referrers@) == referrer_scan(packages@, target@).0,
        out.scanned == referrer_scan(packages@, target@).1,
        out.unreadable == referrer_scan(packages@, target@).2,
        out.referrers@.len() + out.unreadable <= out.scanned <= packages@.len(),
{
    let target_chars = chars_of(target);
    let mut scan = ChimpReferrerScan::default();
    let mut k: usize = 0;
    while k < packages.len()
        invariant
            k <= packages.len(),
            target_chars@ == target@,
            views(scan.referrers@) == referrer_scan(packages@.take(k as int), target@).0,
            scan.scanned == referrer_scan(packages@.take(k as int), target@).1,
            scan.unreadable == referrer_scan(packages@.take(k as int), target@).2,
        decreases packages.len() - k,
    {
        proof {
            assert(packages@.take(k + 1).drop_last() =~= packages@.take(k as int));
            assert(packages@.take(k + 1).last() == packages@[k as int]);
            lemma_scan_bounded(packages@.take(k as int), target@);
        }
        let name = &packages[k].0;
        if !same_ignoring_ascii_case_exec(&chars_of(name.as_str()), &target_chars) {
            scan.scanned += 1;
            match &packages[k].1 {
                None => {
                    scan.unreadable += 1;
                },
                Some(imports) => {
                    let mut i: usize = 0;
                    let mut found = false;
                    while i < imports.len() && !found
                        invariant
                            i <= imports.len(),
                            target_chars@ == target@,
                            found ==> imports_target(*imports, target@),
                            !found ==> forall|j: int| 0 <= j < i ==> !same_ignoring_ascii_case(#[trigger] imports@[j]@, target@),
                        decreases imports.len() - i + if found { 0int } else { 1int },
                    {
                        if same_ignoring_ascii_case_exec(&chars_of(imports[i].as_str()), &target_chars) {
                            found = true;
                        } else {
                            i += 1;
                        }
                    }
                    if found {
                        let ghost before = scan.referrers@;
                        scan.referrers.push(name.clone());
                        proof {
                            assert(views(scan.referrers@) =~= views(before).push(name@));
                        }
                    }
                },
            }
        }
        k += 1;
    }
    proof {
        assert(packages@.take(k as int) =~= packages@);
        lemma_scan_bounded(packages@, target@);
    }
    scan
}

// ---------------------------------------------------------------------------
// The JSON tree of decoded properties
// ---------------------------------------------------------------------------

/// A JSON value. An object keeps its members in the order they were made; a
/// later member of the same name replaces an earlier one when it is read as
/// a map.
#[derive(Debug, PartialEq)]
pub enum JsonValue {
    Null,
    Bool(bool),
    Int(i64),
    UInt(u64),
    /// A number, held as the bits of its `f64`.
    Float(u64),
    Str(String),
    Array(Vec<JsonValue>),
    Object(Vec<(String, JsonValue)>),
}

/// `j` is the single-member object `{key: value}`.
pub open spec fn single_member(j: JsonValue, key: Seq<char>, value: JsonValue) -> bool {
    j matches JsonValue::Object(fields) && fields@.len() == 1 && fields@[0].0@ == key && fields@[0].1
        == value
}

/// `j` is the string `text`.
pub open spec fn is_text(j: JsonValue, text: Seq<char>) -> bool {
    j matches JsonValue::Str(t) && t@ == text
}

/// `j` is the single-member object `{key: "text"}`.
pub open spec fn single_text_member(j: JsonValue, key: Seq<char>, text: Seq<char>) -> bool {
    j matches JsonValue::Object(fields) && fields@.len() == 1 && fields@[0].0@ == key && is_text(
        fields@[0].1,
        text,
    )
}

pub open spec fn text_member(field: (String, JsonValue), key: Seq<char>, text: Seq<char>) -> bool {
    field.0@ == key && is_text(field.1, text)
}

/// `j` is how the property document shows `v`: scalars as themselves, names
/// and strings as text, an object reference as `{"object_index": i}`,
/// containers element by element, a map as `[{"key", "value"}, ..]`, a
/// struct as an object of its properties, raw bytes by their count alone, and
/// anything else as `{"type": ..}` of the value's `{:?}` text.
pub open spec fn json_of(v: PropValue, j: JsonValue) -> bool
    decreases v, 1int,
{
    match v {
        PropValue::Bool(b) => j == JsonValue::Bool(b),
        PropValue::Int(i) => j == JsonValue::Int(i),
        PropValue::Float(bits) => j == JsonValue::Float(bits),
        PropValue::Name(n) => is_text(j, n.text@),
        PropValue::Str(x) => is_text(j, x@),
        PropValue::Object(i) => single_member(j, "object_index"@, JsonValue::Int(i as i64)),
        PropValue::SoftObject(p) => j matches JsonValue::Object(fields) && fields@.len() == 3
            && text_member(fields@[0], "package"@, p.package@) && text_member(
            fields@[1],
            "asset"@,
            p.asset@,
        ) && text_member(fields@[2], "sub_path"@, p.sub_path@),
        PropValue::Array(xs) => j matches JsonValue::Array(ys) && json_seq(xs@, ys@),
        PropValue::SetItems(xs) => j matches JsonValue::Array(ys) && json_seq(xs@, ys@),
        PropValue::MapPairs(ps) => j matches JsonValue::Array(ys) && json_pairs(ps@, ys@),
        PropValue::Struct(block) => json_block(block.entries@, j),
        PropValue::Raw(bytes) => single_member(
            j,
            "unknown_bytes"@,
            JsonValue::UInt(bytes@.len() as u64),
        ),
        PropValue::WithRemovals { debug, .. } => single_text_member(j, "type"@, debug@),
        PropValue::Unset => single_text_member(j, "type"@, "Unset"@),
        PropValue::Opaque(name) => single_text_member(j, "type"@, name@),
    }
}

pub open spec fn json_seq(xs: Seq<PropValue>, ys: Seq<JsonValue>) -> bool
    decreases xs, 0int,
{
    &&& ys.len() == xs.len()
    &&& forall|k: int| 0 <= k < xs.len() ==> json_of(xs[k], #[trigger] ys[k])
}

pub open spec fn json_pairs(ps: Seq<(PropValue, PropValue)>, ys: Seq<JsonValue>) -> bool
    decreases ps, 0int,
{
    &&& ys.len() == ps.len()
    &&& forall|k: int|
        0 <= k < ps.len() ==> {
            &&& (#[trigger] ys[k]) is Object
            &&& ys[k]->Object_0@.len() == 2
            &&& ys[k]->Object_0@[0].0@ == "key"@
            &&& json_of(ps[k].0, ys[k]->Object_0@[0].1)
            &&& ys[k]->Object_0@[1].0@ == "value"@
            &&& json_of(ps[k].1, ys[k]->Object_0@[1].1)
        }
}

/// `j` is the object of a property block: one member per property, in order.
pub open spec fn json_block(entries: Seq<PropertyEntry>, j: JsonValue) -> bool
    decreases entries, 0int,
{
    j matches JsonValue::Object(fields) && fields@.len() == entries.len() && forall|k: int|
        0 <= k < entries.len() ==> (#[trigger] fields@[k]).0@ == entries[k].name@ && json_of(
            entries[k].value,
            fields@[k].1,
        )
}

fn text_value(s: &String) -> (out: JsonValue)
    ensures
        out matches JsonValue::Str(t) && t@ == s@,
{
    JsonValue::Str(s.clone())
}

fn type_object(name: String) -> (out: JsonValue)
    ensures
        single_text_member(out, "type"@, name@),
{
    let mut fields: Vec<(String, JsonValue)> = Vec::new();
    fields.push((string_of(&chars_of("type")), JsonValue::Str(name)));
    JsonValue::Object(fields)
}

/// The JSON the property document shows for one value.
pub fn chimp_value_json(value: &PropValue) -> (out: JsonValue)
    ensures
        json_of(*value, out),
    decreases value, 1int,
{
    match value {
        PropValue::Bool(b) => JsonValue::Bool(*b),
        PropValue::Int(i) => JsonValue::Int(*i),
        PropValue::Float(bits) => JsonValue::Float(*bits),
        PropValue::Name(n) => text_value(&n.text),
        PropValue::Str(x) => text_value(x),
        PropValue::Object(i) => {
            let mut fields: Vec<(String, JsonValue)> = Vec::new();
            fields.push((string_of(&chars_of("object_index")), JsonValue::Int(*i as i64)));
            JsonValue::Object(fields)
        },
        PropValue::SoftObject(p) => {
            let mut fields: Vec<(String, JsonValue)> = Vec::new();
            fields.push((string_of(&chars_of("package")), text_value(&p.package)));
            fields.push((string_of(&chars_of("asset")), text_value(&p.asset)));
            fields.push((string_of(&chars_of("sub_path")), text_value(&p.sub_path)));
            JsonValue::Object(fields)
        },
        PropValue::Array(xs) => JsonValue::Array(chimp_values_json(xs)),
        PropValue::SetItems(xs) => JsonValue::Array(chimp_values_json(xs)),
        PropValue::MapPairs(ps) => JsonValue::Array(chimp_pairs_json(ps)),
        PropValue::Struct(block) => chimp_entries_json(&block.entries),
        PropValue::Raw(bytes) => {
            let mut fields: Vec<(String, JsonValue)> = Vec::new();
            fields.push((string_of(&chars_of("unknown_bytes")), JsonValue::UInt(bytes.len() as u64)));
            JsonValue::Object(fields)
        },
        PropValue::WithRemovals { debug, .. } => type_object(debug.clone()),
        PropValue::Unset => type_object(string_of(&chars_of("Unset"))),
        PropValue::Opaque(name) => type_object(name.clone()),
    }
}

fn chimp_pairs_json(ps: &Vec<(PropValue, PropValue)>) -> (out: Vec<JsonValue>)
    ensures
        json_pairs(ps@, out@),
    decreases ps, 0int,
{
    let mut ys: Vec<JsonValue> = Vec::new();
    let mut k: usize = 0;
    while k < ps.len()
        invariant
            k <= ps.len(),
            ys@.len() == k,
            forall|m: int|
                0 <= m < k ==> {
                    &&& (#[trigger] ys@[m]) is Object
                    &&& ys@[m]->Object_0@.len() == 2
                    &&& ys@[m]->Object_0@[0].0@ == "key"@
                    &&& json_of(ps@[m].0, ys@[m]->Object_0@[0].1)
                    &&& ys@[m]->Object_0@[1].0@ == "value"@
                    &&& json_of(ps@[m].1, ys@[m]->Object_0@[1].1)
                },
        decreases ps.len() - k,
    {
        let key = chimp_value_json(&ps[k].0);
        let val = chimp_value_json(&ps[k].1);
        let mut fields: Vec<(String, JsonValue)> = Vec::new();
        fields.push((string_of(&chars_of("key")), key));
        fields.push((string_of(&chars_of("value")), val));
        ys.push(JsonValue::Object(fields));
        k += 1;
    }
    ys
}

fn chimp_values_json(xs: &Vec<PropValue>) -> (out: Vec<JsonValue>)
    ensures
        json_seq(xs@, out@),
    decreases xs, 0int,
{
    let mut out: Vec<JsonValue> = Vec::new();
    let mut k: usize = 0;
    while k < xs.len()
        invariant
            k <= xs.len(),
            out@.len() == k,
            forall|m: int| 0 <= m < k ==> json_of(xs@[m], #[trigger] out@[m]),
        decreases xs.len() - k,
    {
        let j = chimp_value_json(&xs[k]);
        out.push(j);
        k += 1;
    }
    out
}

fn chimp_entries_json(entries: &Vec<PropertyEntry>) -> (out: JsonValue)
    ensures
        json_block(entries@, out),
    decreases entries, 0int,
{
    let mut fields: Vec<(String, JsonValue)> = Vec::new();
    let mut k: usize = 0;
    while k < entries.len()
        invariant
            k <= entries.len(),
            fields@.len() == k,
            forall|m: int|
                0 <= m < k ==> (#[trigger] fields@[m]).0@ == entries@[m].name@ && json_of(
                    entries@[m].value,
                    fields@[m].1,
                ),
        decreases entries.len() - k,
    {
        let j = chimp_value_json(&entries[k].value);
        fields.push((entries[k].name.clone(), j));
        k += 1;
    }
    JsonValue::Object(fields)
}

/// The JSON object of a property block: one member per property, in order.
pub fn chimp_block_json(block: &PropertyBlock) -> (out: JsonValue)
    ensures
        json_block(block.entries@, out),
{
    chimp_entries_json(&block.entries)
}

} // verus!
