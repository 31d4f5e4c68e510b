//! The tag browser's model: entries, the folder tree over them, and the rules
//! for naming, classifying, ordering and collecting them.

use vstd::prelude::*;

use crate::order::{
    chars_eq, items_of, key_class, key_views, keyed_lt, lemma_items_permuted, lemma_stable_sort_is_stable,
    lemma_stable_sort_items, seq_lt, sort_keyed, sorted_by_key, stable_sort, Keyed, SortKey,
};
use crate::text::{
    chars_of, ends_with, ends_with_exec, leaf, leaf_of, lower, lower_chars, rfind, rfind_char,
    split_state, string_of, sub_chars,
};

verus! {

/// Where a tag entry's bytes live.
pub enum TagEntryLocation {
    /// A loose file under the kit's tags folder.
    LooseFile(String),
    /// A tag inside a package container.
    Container { path: String },
    /// A tag inside a monolithic cache.
    Monolithic { index: usize },
}

/// One tag the browser lists.
pub struct TagEntry {
    /// The key the kit addresses the tag by.
    pub key: String,
    /// The path shown to the user, including the group extension.
    pub display_path: String,
    /// The group four-CC, big-endian.
    pub group_tag: u32,
    /// The group's name, where the source knows it.
    pub group_name: Option<String>,
    pub location: TagEntryLocation,
}

/// A folder in the browser tree: entries by index into the kit's entry list,
/// then sub-folders.
pub struct TagTreeNode {
    pub label: String,
    pub rel_path: String,
    pub entries: Vec<usize>,
    pub children: Vec<TagTreeNode>,
    pub entries_loaded: bool,
}

/// How a folder's contents are ordered for display.
#[derive(Clone, Copy, Debug, PartialEq, Eq, Structural)]
pub enum BrowserSort {
    /// The order the source listed them in.
    Natural,
    /// By file name, without case.
    Name,
    /// By group, then by file name.
    Type,
}

/// A pending "reveal in tree" request: the folder labels still to descend
/// through, and the leaf key to scroll to once they are all descended.
pub struct Reveal {
    pub key: String,
    pub remaining: Vec<String>,
}

// ---------------------------------------------------------------------------
// Specifications
// ---------------------------------------------------------------------------

/// The big-endian four-CC of four characters.
pub open spec fn fourcc(a: char, b: char, c: char, d: char) -> u32 {
    ((a as u32) * 0x100_0000 + (b as u32) * 0x1_0000 + (c as u32) * 0x100 + (d as u32)) as u32
}

pub open spec fn bitmap_group(group_tag: u32) -> bool {
    group_tag == fourcc('b', 'i', 't', 'm')
}

pub open spec fn material_shader_group(group_tag: u32) -> bool {
    group_tag == fourcc('m', 'a', 't', 's')
}

pub open spec fn hlsl_include_group(group_tag: u32) -> bool {
    group_tag == fourcc('h', 'l', 's', 'l')
}

pub open spec fn names_group(entry: TagEntry, name: Seq<char>) -> bool {
    entry.group_name matches Some(n) && n@ == name
}

/// A bitmap by group, by group name, or by its `.bitmap` extension.
pub open spec fn bitmap_tag(entry: TagEntry) -> bool {
    ||| bitmap_group(entry.group_tag)
    ||| names_group(entry, "bitmap"@)
    ||| ends_with(lower(entry.display_path@), ".bitmap"@)
}

pub open spec fn material_shader_tag(entry: TagEntry) -> bool {
    ||| material_shader_group(entry.group_tag)
    ||| names_group(entry, "material_shader"@)
    ||| ends_with(lower(entry.display_path@), ".material_shader"@)
}

pub open spec fn hlsl_include_tag(entry: TagEntry) -> bool {
    ||| hlsl_include_group(entry.group_tag)
    ||| names_group(entry, "hlsl_include"@)
    ||| ends_with(lower(entry.display_path@), ".hlsl_include"@)
}

/// Which entries a folder-wide collection keeps.
#[derive(Clone, Copy, Debug, PartialEq, Eq, Structural)]
pub enum KeyFilter {
    All,
    Bitmap,
    MaterialShader,
    HlslInclude,
}

pub open spec fn admits(filter: KeyFilter, entry: TagEntry) -> bool {
    match filter {
        KeyFilter::All => true,
        KeyFilter::Bitmap => bitmap_tag(entry),
        KeyFilter::MaterialShader => material_shader_tag(entry),
        KeyFilter::HlslInclude => hlsl_include_tag(entry),
    }
}

/// The keys of the entries `indices` names that exist and pass `filter`, in
/// order. An index past the end of `entries` names nothing.
pub open spec fn own_keys(indices: Seq<usize>, entries: Seq<TagEntry>, filter: KeyFilter) -> Seq<
    Seq<char>,
>
    decreases indices.len(),
{
    if indices.len() == 0 {
        Seq::empty()
    } else {
        let rest = own_keys(indices.drop_last(), entries, filter);
        let i = indices.last() as int;
        if i < entries.len() && admits(filter, entries[i]) {
            rest.push(entries[i].key@)
        } else {
            rest
        }
    }
}

/// Every key a folder holds, its own entries first and then each sub-folder's
/// in order, all the way down.
pub open spec fn node_keys(node: TagTreeNode, entries: Seq<TagEntry>, filter: KeyFilter) -> Seq<
    Seq<char>,
>
    decreases node, 1int,
{
    own_keys(node.entries@, entries, filter) + forest_keys(node.children@, entries, filter)
}

pub open spec fn forest_keys(
    nodes: Seq<TagTreeNode>,
    entries: Seq<TagEntry>,
    filter: KeyFilter,
) -> Seq<Seq<char>>
    decreases nodes, 0int,
{
    if nodes.len() == 0 {
        Seq::empty()
    } else {
        forest_keys(nodes.subrange(0, nodes.len() - 1), entries, filter) + node_keys(
            nodes[nodes.len() - 1],
            entries,
            filter,
        )
    }
}

pub open spec fn views(strings: Seq<String>) -> Seq<Seq<char>> {
    strings.map_values(|s: String| s@)
}

/// The file name a display path ends in, lowercased: the browser's name key.
pub open spec fn filename_lower(entry: TagEntry) -> Seq<char> {
    lower(leaf(entry.display_path@))
}

/// The key index `k` of `indices` sorts by under `sort`.
pub open spec fn entry_key(indices: Seq<usize>, entries: Seq<TagEntry>, sort: BrowserSort, k: int) -> SortKey {
    let e = entries[indices[k] as int];
    SortKey {
        item: indices[k],
        group: if sort == BrowserSort::Type { e.group_tag } else { 0 },
        name: filename_lower(e),
    }
}

/// The display order of `indices`: as given under `Natural`, otherwise the
/// stable sort by name (under `Type`, by group first).
pub open spec fn ordered(indices: Seq<usize>, entries: Seq<TagEntry>, sort: BrowserSort) -> Seq<usize> {
    if sort == BrowserSort::Natural {
        indices
    } else {
        items_of(stable_sort(Seq::new(indices.len(), |k: int| entry_key(indices, entries, sort, k))))
    }
}

/// The keys `indices` sort by under `sort`, in the order given.
pub open spec fn entry_keys(indices: Seq<usize>, entries: Seq<TagEntry>, sort: BrowserSort) -> Seq<SortKey> {
    Seq::new(indices.len(), |k: int| entry_key(indices, entries, sort, k))
}

/// Under `Name` and `Type`, the display order holds the given indices, each
/// as often as given, ascending by key (lowercased file name, under `Type`
/// after the group), with indices of equal keys in the order given.
pub proof fn lemma_ordered_is_a_stable_sort(indices: Seq<usize>, entries: Seq<TagEntry>, sort: BrowserSort)
    requires
        sort != BrowserSort::Natural,
    ensures
        ordered(indices, entries, sort) == items_of(stable_sort(entry_keys(indices, entries, sort))),
        items_of(entry_keys(indices, entries, sort)) == indices,
        ordered(indices, entries, sort).to_multiset() == indices.to_multiset(),
        sorted_by_key(stable_sort(entry_keys(indices, entries, sort))),
        forall|k: SortKey|
            #[trigger] key_class(stable_sort(entry_keys(indices, entries, sort)), k) == key_class(
                entry_keys(indices, entries, sort),
                k,
            ),
{
    let keys = entry_keys(indices, entries, sort);
    assert(keys =~= Seq::new(indices.len(), |k: int| entry_key(indices, entries, sort, k)));
    lemma_stable_sort_is_stable(keys);
    assert(items_of(keys) =~= indices);
    lemma_items_permuted(stable_sort(keys), keys);
}

/// The key child `k` sorts by: its label, without case.
pub open spec fn child_key(children: Seq<TagTreeNode>, k: int) -> SortKey {
    SortKey { item: k as usize, group: 0, name: lower(children[k].label@) }
}

pub open spec fn ordered_children(children: Seq<TagTreeNode>, sort: BrowserSort) -> Seq<usize> {
    if sort == BrowserSort::Natural {
        Seq::new(children.len(), |k: int| k as usize)
    } else {
        items_of(stable_sort(Seq::new(children.len(), |k: int| child_key(children, k))))
    }
}

/// Under `Name`, entries are ordered by their lowercased file name alone,
/// whatever their group: no entry comes after one whose lowercased file name
/// sorts strictly after its own. Under `Type`, entries are ordered by group
/// tag first, and by lowercased file name within a group.
pub proof fn lemma_sorted_by_name_and_type(indices: Seq<usize>, entries: Seq<TagEntry>, sort: BrowserSort)
    requires
        sort != BrowserSort::Natural,
    ensures
        ordered(indices, entries, sort).len() == indices.len(),
        sort == BrowserSort::Name ==> forall|i: int, j: int|
            0 <= i < j < indices.len() ==> !seq_lt(
                lower(leaf(entries[#[trigger] ordered(indices, entries, sort)[j] as int].display_path@)),
                lower(leaf(entries[#[trigger] ordered(indices, entries, sort)[i] as int].display_path@)),
            ),
        sort == BrowserSort::Type ==> forall|i: int, j: int|
            0 <= i < j < indices.len() ==> {
                let a = entries[#[trigger] ordered(indices, entries, sort)[i] as int];
                let b = entries[#[trigger] ordered(indices, entries, sort)[j] as int];
                &&& a.group_tag <= b.group_tag
                &&& a.group_tag == b.group_tag ==> !seq_lt(
                    lower(leaf(b.display_path@)),
                    lower(leaf(a.display_path@)),
                )
            },
{
    let keys = entry_keys(indices, entries, sort);
    let ss = stable_sort(keys);
    lemma_ordered_is_a_stable_sort(indices, entries, sort);
    lemma_stable_sort_items(keys);
    let out = ordered(indices, entries, sort);
    assert(out == items_of(ss));
    assert forall|p: int| 0 <= p < ss.len() implies {
        &&& (#[trigger] ss[p]).name == lower(leaf(entries[ss[p].item as int].display_path@))
        &&& ss[p].group == if sort == BrowserSort::Type { entries[ss[p].item as int].group_tag } else { 0 }
        &&& out[p] == ss[p].item
    } by {
        let k = choose|k: int| 0 <= k < keys.len() && ss[p] == keys[k];
        assert(keys[k] == entry_key(indices, entries, sort, k));
    }
    assert forall|i: int, j: int| 0 <= i < j < indices.len() implies !keyed_lt(#[trigger] ss[j], #[trigger] ss[i]) by {}
}

/// The keys a node's children sort by, in the order given.
pub open spec fn child_keys(children: Seq<TagTreeNode>) -> Seq<SortKey> {
    Seq::new(children.len(), |k: int| child_key(children, k))
}

/// Sorted, a node's children are every child position once, ascending by
/// lowercased label, with children of equal labels in the order given.
pub proof fn lemma_ordered_children_is_a_stable_sort(children: Seq<TagTreeNode>, sort: BrowserSort)
    requires
        sort != BrowserSort::Natural,
    ensures
        ordered_children(children, sort) == items_of(stable_sort(child_keys(children))),
        ordered_children(children, sort).to_multiset() == Seq::new(children.len(), |k: int| k as usize).to_multiset(),
        sorted_by_key(stable_sort(child_keys(children))),
        forall|k: SortKey|
            #[trigger] key_class(stable_sort(child_keys(children)), k) == key_class(child_keys(children), k),
{
    let keys = child_keys(children);
    assert(keys =~= Seq::new(children.len(), |k: int| child_key(children, k)));
    lemma_stable_sort_is_stable(keys);
    assert(items_of(keys) =~= Seq::new(children.len(), |k: int| k as usize));
    lemma_items_permuted(stable_sort(keys), keys);
}

/// `\` turned into `/`.
pub open spec fn slash_forward(s: Seq<char>) -> Seq<char> {
    s.map_values(|c: char| if c == '\\' { '/' } else { c })
}

/// The text before the last `.`, or all of it when there is none.
pub open spec fn without_extension(s: Seq<char>) -> Seq<char> {
    match rfind(s, '.') {
        Some(i) => s.take(i),
        None => s,
    }
}


/// The folder labels above a display path: every `/`- or `\`-separated
/// segment but the last.
pub open spec fn ancestors(display_path: Seq<char>) -> Seq<Seq<char>> {
    split_state(slash_forward(display_path), '/').0
}

/// What `Path::file_stem` gives for a bare file name, or `"tag"` when it has
/// none.
pub open spec fn file_stem(name: Seq<char>) -> Seq<char> {
    if name.len() == 0 || name == "."@ || name == ".."@ {
        "tag"@
    } else {
        match rfind(name, '.') {
            Some(i) => if i == 0 { name } else { name.take(i) },
            None => name,
        }
    }
}

/// A display path's leaf without its group extension.
pub open spec fn leaf_name(display_path: Seq<char>) -> Seq<char> {
    let l = leaf(display_path);
    match rfind(l, '.') {
        Some(i) => l.take(i),
        None => l,
    }
}

/// A label split at its last space into a friendly name and a four-CC.
pub open spec fn label_parts(label: Seq<char>) -> (Seq<char>, Seq<char>) {
    match rfind(label, ' ') {
        Some(i) => (label.take(i), label.skip(i + 1)),
        None => (Seq::empty(), label),
    }
}

// ---------------------------------------------------------------------------
// Reveal
// ---------------------------------------------------------------------------

fn clone_strings(v: &Vec<String>, from: usize) -> (out: Vec<String>)
    requires
        from <= v.len(),
    ensures
        views(out@) == views(v@).skip(from as int),
{
    let mut out: Vec<String> = Vec::new();
    let mut i = from;
    while i < v.len()
        invariant
            from <= i <= v.len(),
            views(out@) == views(v@).subrange(from as int, i as int),
        decreases v.len() - i,
    {
        let c = v[i].clone();
        let ghost before = out@;
        out.push(c);
        assert(views(out@) =~= views(before).push(c@));
        assert(views(out@) =~= views(v@).subrange(from as int, i + 1));
        i += 1;
    }
    out
}

impl Reveal {
    /// True when `label` is the next ancestor to descend into.
    pub fn matches_node(&self, label: &str) -> (out: bool)
        ensures
            out == (self.remaining@.len() > 0 && self.remaining@[0]@ == label@),
    {
        if self.remaining.len() == 0 {
            false
        } else {
            chars_eq(&chars_of(self.remaining[0].as_str()), &chars_of(label))
        }
    }

    /// The reveal a matching node forwards to its children: one segment
    /// shorter, and no shorter than empty.
    pub fn descend(&self) -> (out: Reveal)
        ensures
            out.key@ == self.key@,
            views(out.remaining@) == if self.remaining@.len() == 0 {
                Seq::empty()
            } else {
                views(self.remaining@).drop_first()
            },
    {
        let from: usize = if self.remaining.len() == 0 { 0 } else { 1 };
        let remaining = clone_strings(&self.remaining, from);
        proof {
            if self.remaining@.len() == 0 {
                assert(views(remaining@) =~= Seq::<Seq<char>>::empty());
            } else {
                assert(views(self.remaining@).skip(1) =~= views(self.remaining@).drop_first());
            }
        }
        Reveal { key: self.key.clone(), remaining }
    }

    /// The leaf key to scroll to, once every ancestor has been descended.
    pub fn leaf_key(&self) -> (out: Option<String>)
        ensures
            out is Some <==> self.remaining@.len() == 0,
            out matches Some(key) ==> key@ == self.key@,
    {
        if self.remaining.len() == 0 {
            Some(self.key.clone())
        } else {
            None
        }
    }
}

// ---------------------------------------------------------------------------
// Names
// ---------------------------------------------------------------------------

/// Forward-slash, extension-less relative path of an entry: the form shader
/// bitmap rows use for their references.
pub fn entry_rel_path(entry: &TagEntry) -> (out: String)
    ensures
        out@ == slash_forward(without_extension(entry.display_path@)),
{
    let display = chars_of(entry.display_path.as_str());
    let end = match rfind_char(&display, '.') {
        Some(dot) => dot,
        None => display.len(),
    };
    let mut out: Vec<char> = Vec::new();
    let mut i: usize = 0;
    while i < end
        invariant
            end <= display.len(),
            i <= end,
            out@ == slash_forward(display@.take(i as int)),
        decreases end - i,
    {
        let c = display[i];
        out.push(if c == '\\' { '/' } else { c });
        assert(slash_forward(display@.take(i + 1)) =~= slash_forward(display@.take(i as int)).push(
            if c == '\\' { '/' } else { c },
        ));
        i += 1;
    }
    assert(display@.take(end as int) =~= without_extension(display@));
    string_of(&out)
}

/// The lowercased file name an entry's display path ends in.
pub fn entry_filename_lower(entry: &TagEntry) -> (out: String)
    ensures
        out@ == filename_lower(*entry),
{
    let display = chars_of(entry.display_path.as_str());
    string_of(&lower_chars(&leaf_of(&display)))
}

/// The tab label of an opened tag: its file name.
pub fn tag_tab_label(entry: &TagEntry) -> (out: String)
    ensures
        out@ == leaf(entry.display_path@),
{
    string_of(&leaf_of(&chars_of(entry.display_path.as_str())))
}

/// The file name an entry's display path ends in.
pub fn tag_file_name(entry: &TagEntry) -> (out: String)
    ensures
        out@ == leaf(entry.display_path@),
{
    string_of(&leaf_of(&chars_of(entry.display_path.as_str())))
}

/// The entry's file name without its extension, or `"tag"` when there is no
/// file name to take it from.
pub fn tag_file_stem(entry: &TagEntry) -> (out: String)
    ensures
        out@ == file_stem(leaf(entry.display_path@)),
{
    let name = leaf_of(&chars_of(entry.display_path.as_str()));
    let dot = chars_of(".");
    let dots = chars_of("..");
    if name.len() == 0 || chars_eq(&name, &dot) || chars_eq(&name, &dots) {
        return string_of(&chars_of("tag"));
    }
    match rfind_char(&name, '.') {
        Some(i) => {
            if i == 0 {
                string_of(&name)
            } else {
                string_of(&sub_chars(&name, 0, i))
            }
        },
        None => string_of(&name),
    }
}

/// The file name a display path ends in, without its group extension.
pub fn tag_leaf_name(display_path: &str) -> (out: String)
    ensures
        out@ == leaf_name(display_path@),
{
    let l = leaf_of(&chars_of(display_path));
    match rfind_char(&l, '.') {
        Some(i) => string_of(&sub_chars(&l, 0, i)),
        None => string_of(&l),
    }
}

/// Folder-label ancestors of a tag's display path, the file name removed.
pub fn ancestor_labels(display_path: &str) -> (out: Vec<String>)
    ensures
        views(out@) == ancestors(display_path@),
{
    let chars = chars_of(display_path);
    let ghost forward = slash_forward(chars@);
    let mut done: Vec<String> = Vec::new();
    let mut open: Vec<char> = Vec::new();
    let mut i: usize = 0;
    while i < chars.len()
        invariant
            i <= chars.len(),
            forward == slash_forward(chars@),
            (views(done@), open@) == split_state(forward.take(i as int), '/'),
        decreases chars.len() - i,
    {
        let c = if chars[i] == '\\' { '/' } else { chars[i] };
        proof {
            assert(forward.take(i + 1).drop_last() =~= forward.take(i as int));
            assert(forward.take(i + 1).last() == c);
        }
        if c == '/' {
            done.push(string_of(&open));
            open = Vec::new();
            assert(views(done@) =~= split_state(forward.take(i + 1), '/').0);
            assert(open@ =~= split_state(forward.take(i + 1), '/').1);
        } else {
            open.push(c);
        }
        i += 1;
    }
    assert(forward.take(chars.len() as int) =~= forward);
    done
}

/// A group-tree label's friendly name and four-CC: split at the last space,
/// or no name at all when there is no space.
pub fn group_tree_label_parts(label: &str) -> (out: (String, String))
    ensures
        (out.0@, out.1@) == label_parts(label@),
{
    let chars = chars_of(label);
    match rfind_char(&chars, ' ') {
        Some(i) => (string_of(&sub_chars(&chars, 0, i)), string_of(&sub_chars(&chars, i + 1, chars.len()))),
        None => (String::new(), string_of(&chars)),
    }
}

// ---------------------------------------------------------------------------
// Classification
// ---------------------------------------------------------------------------

pub fn is_monolithic_entry(entry: &TagEntry) -> (out: bool)
    ensures
        out == (entry.location is Monolithic),
{
    match entry.location {
        TagEntryLocation::Monolithic { .. } => true,
        _ => false,
    }
}

pub fn is_bitmap_group(group_tag: u32) -> (out: bool)
    ensures
        out == bitmap_group(group_tag),
{
    group_tag == 0x6269_746D
}

pub fn is_material_shader_group(group_tag: u32) -> (out: bool)
    ensures
        out == material_shader_group(group_tag),
{
    group_tag == 0x6D61_7473
}

pub fn is_hlsl_include_group(group_tag: u32) -> (out: bool)
    ensures
        out == hlsl_include_group(group_tag),
{
    group_tag == 0x686C_736C
}

fn group_name_is(entry: &TagEntry, name: &str) -> (out: bool)
    ensures
        out == names_group(*entry, name@),
{
    match &entry.group_name {
        Some(n) => chars_eq(&chars_of(n.as_str()), &chars_of(name)),
        None => false,
    }
}

fn display_ends_with(entry: &TagEntry, suffix: &str) -> (out: bool)
    ensures
        out == ends_with(lower(entry.display_path@), suffix@),
{
    ends_with_exec(&lower_chars(&chars_of(entry.display_path.as_str())), &chars_of(suffix))
}

pub fn is_bitmap_tag(entry: &TagEntry) -> (out: bool)
    ensures
        out == bitmap_tag(*entry),
{
    is_bitmap_group(entry.group_tag) || group_name_is(entry, "bitmap") || display_ends_with(
        entry,
        ".bitmap",
    )
}

pub fn is_material_shader_browser_tag(entry: &TagEntry) -> (out: bool)
    ensures
        out == material_shader_tag(*entry),
{
    is_material_shader_group(entry.group_tag) || group_name_is(entry, "material_shader")
        || display_ends_with(entry, ".material_shader")
}

pub fn is_hlsl_include_tag(entry: &TagEntry) -> (out: bool)
    ensures
        out == hlsl_include_tag(*entry),
{
    is_hlsl_include_group(entry.group_tag) || group_name_is(entry, "hlsl_include")
        || display_ends_with(entry, ".hlsl_include")
}

pub open spec fn animation_group(g: u32) -> bool {
    ||| g == fourcc('j', 'm', 'a', 'd')
    ||| g == fourcc('h', 'l', 'm', 't')
    ||| g == fourcc('a', 'n', 't', 'r')
    ||| g == fourcc('m', 'o', 'd', 'e')
}

pub open spec fn geometry_group(g: u32) -> bool {
    ||| g == fourcc('h', 'l', 'm', 't')
    ||| g == fourcc('m', 'o', 'd', 'e')
    ||| g == fourcc('p', 'h', 'm', 'o')
    ||| g == fourcc('c', 'o', 'l', 'l')
    ||| g == fourcc('m', 'o', 'd', '2')
}

/// Groups whose animations the extractor can write out.
pub fn supports_animation_extraction(group_tag: u32) -> (out: bool)
    ensures
        out == animation_group(group_tag),
{
    group_tag == 0x6A6D_6164 || group_tag == 0x686C_6D74 || group_tag == 0x616E_7472
        || group_tag == 0x6D6F_6465
}

/// Groups whose model geometry the extractor can write out.
pub fn supports_tag_geometry_extraction(group_tag: u32) -> (out: bool)
    ensures
        out == geometry_group(group_tag),
{
    group_tag == 0x686C_6D74 || group_tag == 0x6D6F_6465 || group_tag == 0x7068_6D6F
        || group_tag == 0x636F_6C6C || group_tag == 0x6D6F_6432
}

/// Groups whose import info the extractor can write out: the geometry groups.
pub fn supports_tag_import_info_extraction(group_tag: u32) -> (out: bool)
    ensures
        out == geometry_group(group_tag),
{
    group_tag == 0x686C_6D74 || group_tag == 0x6D6F_6465 || group_tag == 0x7068_6D6F
        || group_tag == 0x636F_6C6C || group_tag == 0x6D6F_6432
}

/// Whether a tag's context menu offers an Extract submenu at all.
pub fn supports_tag_extract_menu(group_tag: u32) -> (out: bool)
    ensures
        out == (geometry_group(group_tag) || animation_group(group_tag)),
{
    supports_tag_geometry_extraction(group_tag) || supports_animation_extraction(group_tag)
        || supports_tag_import_info_extraction(group_tag)
}

// ---------------------------------------------------------------------------
// Folder-wide collections
// ---------------------------------------------------------------------------

fn admits_exec(filter: KeyFilter, entry: &TagEntry) -> (out: bool)
    ensures
        out == admits(filter, *entry),
{
    match filter {
        KeyFilter::All => true,
        KeyFilter::Bitmap => is_bitmap_tag(entry),
        KeyFilter::MaterialShader => is_material_shader_browser_tag(entry),
        KeyFilter::HlslInclude => is_hlsl_include_tag(entry),
    }
}

/// Append the keys `node` holds under `filter`, all the way down.
fn collect_keys_into(
    node: &TagTreeNode,
    entries: &Vec<TagEntry>,
    keys: &mut Vec<String>,
    filter: KeyFilter,
)
    ensures
        views(final(keys)@) == views(old(keys)@) + node_keys(*node, entries@, filter),
    decreases node,
{
    let ghost start = views(keys@);
    let mut i: usize = 0;
    while i < node.entries.len()
        invariant
            i <= node.entries.len(),
            views(keys@) == start + own_keys(node.entries@.take(i as int), entries@, filter),
        decreases node.entries.len() - i,
    {
        let index = node.entries[i];
        proof {
            assert(node.entries@.take(i + 1).drop_last() =~= node.entries@.take(i as int));
        }
        if index < entries.len() && admits_exec(filter, &entries[index]) {
            let key = entries[index].key.clone();
            let ghost before = keys@;
            keys.push(key);
            assert(views(keys@) =~= views(before).push(key@));
        }
        i += 1;
    }
    assert(node.entries@.take(node.entries.len() as int) =~= node.entries@);
    let ghost own = views(keys@);
    let mut j: usize = 0;
    while j < node.children.len()
        invariant
            j <= node.children.len(),
            views(keys@) == own + forest_keys(node.children@.take(j as int), entries@, filter),
        decreases node.children.len() - j,
    {
        proof {
            let t = node.children@.take(j + 1);
            assert(t.subrange(0, t.len() - 1) =~= node.children@.take(j as int));
            assert(t[t.len() - 1] == node.children@[j as int]);
        }
        collect_keys_into(&node.children[j], entries, keys, filter);
        j += 1;
    }
    assert(node.children@.take(node.children.len() as int) =~= node.children@);
}

/// Every tag key under `node`, its own entries first and then each sub-folder's.
pub fn collect_tag_keys(node: &TagTreeNode, entries: &Vec<TagEntry>) -> (out: Vec<String>)
    ensures
        views(out@) == node_keys(*node, entries@, KeyFilter::All),
{
    let mut keys = Vec::new();
    collect_tag_keys_into(node, entries, &mut keys);
    assert(views(Seq::<String>::empty()) =~= Seq::<Seq<char>>::empty());
    keys
}

pub fn collect_tag_keys_into(node: &TagTreeNode, entries: &Vec<TagEntry>, keys: &mut Vec<String>)
    ensures
        views(final(keys)@) == views(old(keys)@) + node_keys(*node, entries@, KeyFilter::All),
{
    collect_keys_into(node, entries, keys, KeyFilter::All)
}

/// Every bitmap tag key under `node`.
pub fn collect_bitmap_keys(node: &TagTreeNode, entries: &Vec<TagEntry>) -> (out: Vec<String>)
    ensures
        views(out@) == node_keys(*node, entries@, KeyFilter::Bitmap),
{
    let mut keys = Vec::new();
    collect_bitmap_keys_into(node, entries, &mut keys);
    assert(views(Seq::<String>::empty()) =~= Seq::<Seq<char>>::empty());
    keys
}

pub fn collect_bitmap_keys_into(node: &TagTreeNode, entries: &Vec<TagEntry>, keys: &mut Vec<String>)
    ensures
        views(final(keys)@) == views(old(keys)@) + node_keys(*node, entries@, KeyFilter::Bitmap),
{
    collect_keys_into(node, entries, keys, KeyFilter::Bitmap)
}

/// Every material shader key under `node`.
pub fn collect_material_shader_keys(node: &TagTreeNode, entries: &Vec<TagEntry>) -> (out: Vec<
    String,
>)
    ensures
        views(out@) == node_keys(*node, entries@, KeyFilter::MaterialShader),
{
    let mut keys = Vec::new();
    collect_material_shader_keys_into(node, entries, &mut keys);
    assert(views(Seq::<String>::empty()) =~= Seq::<Seq<char>>::empty());
    keys
}

pub fn collect_material_shader_keys_into(
    node: &TagTreeNode,
    entries: &Vec<TagEntry>,
    keys: &mut Vec<String>,
)
    ensures
        views(final(keys)@) == views(old(keys)@) + node_keys(
            *node,
            entries@,
            KeyFilter::MaterialShader,
        ),
{
    collect_keys_into(node, entries, keys, KeyFilter::MaterialShader)
}

/// Every HLSL include key under `node`.
pub fn collect_hlsl_include_keys(node: &TagTreeNode, entries: &Vec<TagEntry>) -> (out: Vec<
    String,
>)
    ensures
        views(out@) == node_keys(*node, entries@, KeyFilter::HlslInclude),
{
    let mut keys = Vec::new();
    collect_hlsl_include_keys_into(node, entries, &mut keys);
    assert(views(Seq::<String>::empty()) =~= Seq::<Seq<char>>::empty());
    keys
}

pub fn collect_hlsl_include_keys_into(
    node: &TagTreeNode,
    entries: &Vec<TagEntry>,
    keys: &mut Vec<String>,
)
    ensures
        views(final(keys)@) == views(old(keys)@) + node_keys(*node, entries@, KeyFilter::HlslInclude),
{
    collect_keys_into(node, entries, keys, KeyFilter::HlslInclude)
}

// ---------------------------------------------------------------------------
// Display order
// ---------------------------------------------------------------------------

/// A node's entry indices in display order. `Natural` keeps them as given;
/// `Name` and `Type` sort stably by lowercased file name, `Type` by group
/// four-CC first.
pub fn ordered_indices(indices: &Vec<usize>, entries: &Vec<TagEntry>, sort: BrowserSort) -> (out:
    Vec<usize>)
    requires
        sort != BrowserSort::Natural ==> forall|k: int|
            0 <= k < indices.len() ==> #[trigger] indices@[k] < entries.len(),
    ensures
        out@ == ordered(indices@, entries@, sort),
{
    if sort == BrowserSort::Natural {
        let mut out: Vec<usize> = Vec::new();
        let mut k: usize = 0;
        while k < indices.len()
            invariant
                k <= indices.len(),
                out@ == indices@.take(k as int),
            decreases indices.len() - k,
        {
            out.push(indices[k]);
            assert(indices@.take(k + 1) =~= indices@.take(k as int).push(indices@[k as int]));
            k += 1;
        }
        assert(indices@.take(indices.len() as int) =~= indices@);
        return out;
    }
    let mut keyed: Vec<Keyed> = Vec::new();
    let mut k: usize = 0;
    while k < indices.len()
        invariant
            sort != BrowserSort::Natural,
            forall|t: int| 0 <= t < indices.len() ==> #[trigger] indices@[t] < entries.len(),
            k <= indices.len(),
            key_views(keyed@) == Seq::new(k as nat, |t: int| entry_key(indices@, entries@, sort, t)),
        decreases indices.len() - k,
    {
        let entry = &entries[indices[k]];
        let group = if sort == BrowserSort::Type { entry.group_tag } else { 0 };
        let name = lower_chars(&leaf_of(&chars_of(entry.display_path.as_str())));
        let item = Keyed { item: indices[k], group, name };
        let ghost before = keyed@;
        keyed.push(item);
        assert(key_views(keyed@) =~= Seq::new(
            (k + 1) as nat,
            |t: int| entry_key(indices@, entries@, sort, t),
        )) by {
            assert(key_views(keyed@) =~= key_views(before).push(item@));
        }
        k += 1;
    }
    sort_keyed(keyed)
}

/// A node's children in display order: as given under `Natural`, otherwise
/// stably by lowercased label.
pub fn ordered_child_indices(children: &Vec<TagTreeNode>, sort: BrowserSort) -> (out: Vec<usize>)
    ensures
        out@ == ordered_children(children@, sort),
{
    if sort == BrowserSort::Natural {
        let mut out: Vec<usize> = Vec::new();
        let mut k: usize = 0;
        while k < children.len()
            invariant
                k <= children.len(),
                out@ == Seq::new(k as nat, |t: int| t as usize),
            decreases children.len() - k,
        {
            out.push(k);
            assert(out@ =~= Seq::new((k + 1) as nat, |t: int| t as usize));
            k += 1;
        }
        return out;
    }
    let mut keyed: Vec<Keyed> = Vec::new();
    let mut k: usize = 0;
    while k < children.len()
        invariant
            k <= children.len(),
            key_views(keyed@) == Seq::new(k as nat, |t: int| child_key(children@, t)),
        decreases children.len() - k,
    {
        let name = lower_chars(&chars_of(children[k].label.as_str()));
        let item = Keyed { item: k, group: 0, name };
        let ghost before = keyed@;
        keyed.push(item);
        assert(key_views(keyed@) =~= Seq::new((k + 1) as nat, |t: int| child_key(children@, t)))
            by {
            assert(key_views(keyed@) =~= key_views(before).push(item@));
        }
        k += 1;
    }
    sort_keyed(keyed)
}

} // verus!
