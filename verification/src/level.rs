//! The parts of a level export that are bookkeeping rather than geometry:
//! which components of a World Partition cell place a mesh and through which
//! attach chain, counting what a level read skipped, naming prototypes so USD
//! accepts them and no two collide, and welding a decoded mesh's duplicate
//! vertices.

use vstd::prelude::*;

use crate::browser::views;
use crate::header::{import_slot_of, ChimpDocument, ChimpExport, ExportBlock, ImportSlot, PropValue, PropertyBlock, PropertyEntry};
use crate::order::chars_eq;
use crate::package::{first_index, lemma_first_index_step};
use crate::text::{
    chars_of, decimal, is_ascii_alnum, is_ascii_digit, lemma_decimal_injective, push_decimal,
    string_of,
};

verus! {

/// Components a level read passed over, by reason.
#[derive(Clone, Copy, Debug, Default, PartialEq, Eq, Structural)]
pub struct LevelSkips {
    /// The mesh comes from a Blueprint class default in another package.
    pub inherited_mesh: usize,
    /// A mesh reference that did not resolve to an imported package.
    pub unresolved_mesh: usize,
    /// An instanced component whose placement array did not parse.
    pub unreadable_instances: usize,
}

impl LevelSkips {
    pub open spec fn sum(&self) -> int {
        self.inherited_mesh + self.unresolved_mesh + self.unreadable_instances
    }

    pub fn total(&self) -> (out: usize)
        requires
            self.sum() <= usize::MAX,
        ensures
            out == self.sum(),
    {
        self.inherited_mesh + self.unresolved_mesh + self.unreadable_instances
    }

    /// Add another read's skips to these, reason by reason.
    pub fn absorb(&mut self, other: LevelSkips)
        requires
            old(self).inherited_mesh + other.inherited_mesh <= usize::MAX,
            old(self).unresolved_mesh + other.unresolved_mesh <= usize::MAX,
            old(self).unreadable_instances + other.unreadable_instances <= usize::MAX,
        ensures
            final(self).inherited_mesh == old(self).inherited_mesh + other.inherited_mesh,
            final(self).unresolved_mesh == old(self).unresolved_mesh + other.unresolved_mesh,
            final(self).unreadable_instances == old(self).unreadable_instances
                + other.unreadable_instances,
    {
        self.inherited_mesh = self.inherited_mesh + other.inherited_mesh;
        self.unresolved_mesh = self.unresolved_mesh + other.unresolved_mesh;
        self.unreadable_instances = self.unreadable_instances + other.unreadable_instances;
    }
}

/// Absorbing one count after another gives the sum of all three totals.
pub proof fn lemma_absorb_adds_totals(before: LevelSkips, other: LevelSkips, after: LevelSkips)
    requires
        after.inherited_mesh == before.inherited_mesh + other.inherited_mesh,
        after.unresolved_mesh == before.unresolved_mesh + other.unresolved_mesh,
        after.unreadable_instances == before.unreadable_instances + other.unreadable_instances,
    ensures
        after.sum() == before.sum() + other.sum(),
{
}

// ---------------------------------------------------------------------------
// Prim names
// ---------------------------------------------------------------------------

pub open spec fn prim_char(c: char) -> char {
    if is_ascii_alnum(c) || c == '_' {
        c
    } else {
        '_'
    }
}

/// `raw` as a USD identifier: every character that is not an ASCII letter,
/// digit or `_` becomes `_`, and a name that is empty or leads with a digit
/// gets a leading `_`.
pub open spec fn prim_text(raw: Seq<char>) -> Seq<char> {
    let mapped = raw.map_values(|c: char| prim_char(c));
    if mapped.len() == 0 || is_ascii_digit(mapped[0]) {
        seq!['_'] + mapped
    } else {
        mapped
    }
}

/// A USD identifier: non-empty, ASCII letters, digits and `_`, not leading
/// with a digit.
pub open spec fn is_identifier(name: Seq<char>) -> bool {
    &&& name.len() > 0
    &&& !is_ascii_digit(name[0])
    &&& forall|i: int| 0 <= i < name.len() ==> is_ascii_alnum(#[trigger] name[i]) || name[i] == '_'
}

pub fn prim_name(raw: &str) -> (out: String)
    ensures
        out@ == prim_text(raw@),
{
    let chars = chars_of(raw);
    let mut mapped: Vec<char> = Vec::new();
    let mut i: usize = 0;
    while i < chars.len()
        invariant
            i <= chars.len(),
            chars@ == raw@,
            mapped@ == chars@.take(i as int).map_values(|c: char| prim_char(c)),
        decreases chars.len() - i,
    {
        let c = chars[i];
        let ok = ('0' <= c && c <= '9') || ('a' <= c && c <= 'z') || ('A' <= c && c <= 'Z') || c
            == '_';
        mapped.push(if ok { c } else { '_' });
        assert(chars@.take(i + 1).map_values(|c: char| prim_char(c)) =~= chars@.take(
            i as int,
        ).map_values(|c: char| prim_char(c)).push(prim_char(c)));
        i += 1;
    }
    assert(chars@.take(chars.len() as int) =~= chars@);
    if mapped.len() == 0 || ('0' <= mapped[0] && mapped[0] <= '9') {
        let mut out: Vec<char> = Vec::new();
        out.push('_');
        let mut j: usize = 0;
        while j < mapped.len()
            invariant
                j <= mapped.len(),
                out@ == seq!['_'] + mapped@.take(j as int),
            decreases mapped.len() - j,
        {
            out.push(mapped[j]);
            j += 1;
        }
        assert(mapped@.take(mapped.len() as int) =~= mapped@);
        string_of(&out)
    } else {
        string_of(&mapped)
    }
}

/// Every prim name is an identifier USD accepts.
pub proof fn lemma_prim_name_is_identifier(raw: Seq<char>)
    ensures
        is_identifier(prim_text(raw)),
{
    let mapped = raw.map_values(|c: char| prim_char(c));
    assert forall|i: int| 0 <= i < mapped.len() implies is_ascii_alnum(#[trigger] mapped[i])
        || mapped[i] == '_' by {}
    let name = prim_text(raw);
    if mapped.len() == 0 || is_ascii_digit(mapped[0]) {
        assert forall|i: int| 0 <= i < name.len() implies is_ascii_alnum(#[trigger] name[i])
            || name[i] == '_' by {
            if i > 0 {
                assert(name[i] == mapped[i - 1]);
            }
        }
    }
}

/// The `suffix`th alternative to a colliding prim name.
pub open spec fn suffixed(base: Seq<char>, suffix: nat) -> Seq<char> {
    base + seq!['_'] + decimal(suffix)
}

pub open spec fn taken_by(taken: Seq<String>, name: Seq<char>) -> bool {
    exists|i: int| 0 <= i < taken.len() && #[trigger] taken[i]@ == name
}

/// The name `unique_prim_name` gives: the prim name itself when it is free,
/// else the first `_1`, `_2`, ... alternative that is.
pub open spec fn unique_name(base: Seq<char>, taken: Seq<String>, suffix: nat) -> bool {
    &&& suffix == 0 ==> !taken_by(taken, base)
    &&& suffix > 0 ==> taken_by(taken, base) && !taken_by(taken, suffixed(base, suffix)) && forall|
        j: nat,
    |
        1 <= j < suffix ==> taken_by(taken, #[trigger] suffixed(base, j))
}

proof fn lemma_suffixed_injective(base: Seq<char>, a: nat, b: nat)
    requires
        suffixed(base, a) == suffixed(base, b),
    ensures
        a == b,
{
    let sa = suffixed(base, a);
    assert(sa.skip(base.len() as int + 1) =~= decimal(a));
    assert(suffixed(base, b).skip(base.len() as int + 1) =~= decimal(b));
    lemma_decimal_injective(a, b);
}

/// When the first `n` alternatives are all taken, the table holds at least
/// `n` names.
proof fn lemma_taken_bound(base: Seq<char>, taken: Seq<String>, n: nat)
    requires
        forall|j: nat| 1 <= j <= n ==> taken_by(taken, #[trigger] suffixed(base, j)),
    ensures
        n <= taken.len(),
{
    let candidates = Seq::new(n, |k: int| suffixed(base, (k + 1) as nat));
    assert(candidates.no_duplicates()) by {
        assert forall|a: int, b: int| 0 <= a < candidates.len() && 0 <= b < candidates.len() && a
            != b implies candidates[a] != candidates[b] by {
            if candidates[a] == candidates[b] {
                lemma_suffixed_injective(base, (a + 1) as nat, (b + 1) as nat);
            }
        }
    }
    candidates.unique_seq_to_set();
    let names = views(taken);
    assert(candidates.to_set().subset_of(names.to_set())) by {
        assert forall|x: Seq<char>| candidates.to_set().contains(x) implies names.to_set().contains(
            x,
        ) by {
            let k = choose|k: int| 0 <= k < candidates.len() && candidates[k] == x;
            assert(taken_by(taken, suffixed(base, (k + 1) as nat)));
            let i = choose|i: int| 0 <= i < taken.len() && #[trigger] taken[i]@ == suffixed(
                base,
                (k + 1) as nat,
            );
            assert(names[i] == x);
        }
    }
    vstd::set_lib::lemma_len_subset(candidates.to_set(), names.to_set());
    names.lemma_cardinality_of_set();
}

fn taken_exec(taken: &Vec<String>, name: &Vec<char>) -> (out: bool)
    ensures
        out == taken_by(taken@, name@),
{
    let text = string_of(name);
    let mut i: usize = 0;
    while i < taken.len()
        invariant
            i <= taken.len(),
            text@ == name@,
            forall|j: int| 0 <= j < i ==> #[trigger] taken@[j]@ != name@,
        decreases taken.len() - i,
    {
        if taken[i] == text {
            return true;
        }
        i += 1;
    }
    false
}

/// A prototype's prim name, kept unique among the names already `taken`,
/// which it joins.
///
/// The prim name of `raw` is used when it is free; otherwise the first of
/// `_1`, `_2`, ... after it that is. One of the first `taken.len() + 1`
/// alternatives is always free, so the search ends.
pub fn unique_prim_name(raw: &str, taken: &mut Vec<String>) -> (out: String)
    requires
        old(taken)@.len() < usize::MAX,
    ensures
        !taken_by(old(taken)@, out@),
        final(taken)@ == old(taken)@.push(out),
        exists|suffix: nat|
            unique_name(prim_text(raw@), old(taken)@, suffix) && out@ == if suffix == 0 {
                prim_text(raw@)
            } else {
                suffixed(prim_text(raw@), suffix)
            },
{
    let base = chars_of(prim_name(raw).as_str());
    if !taken_exec(taken, &base) {
        let name = string_of(&base);
        taken.push(name.clone());
        assert(unique_name(prim_text(raw@), old(taken)@, 0));
        return name;
    }
    let mut suffix: usize = 1;
    loop
        invariant
            1 <= suffix <= taken@.len() + 1,
            taken@ == old(taken)@,
            taken@.len() < usize::MAX,
            base@ == prim_text(raw@),
            taken_by(taken@, base@),
            forall|j: nat| 1 <= j < suffix ==> taken_by(taken@, #[trigger] suffixed(base@, j)),
        decreases taken@.len() + 1 - suffix,
    {
        let mut candidate = base.clone();
        candidate.push('_');
        push_decimal(&mut candidate, suffix as u64);
        assert(candidate@ =~= suffixed(base@, suffix as nat));
        if !taken_exec(taken, &candidate) {
            let name = string_of(&candidate);
            taken.push(name.clone());
            assert(unique_name(prim_text(raw@), old(taken)@, suffix as nat));
            return name;
        }
        proof {
            if suffix == taken@.len() + 1 {
                lemma_taken_bound(base@, taken@, suffix as nat);
            }
        }
        suffix += 1;
    }
}

// ---------------------------------------------------------------------------
// Welding duplicate vertices
// ---------------------------------------------------------------------------

/// A decoded vertex, each coordinate held as the bits of its `f32`.
#[derive(Clone, Copy, Debug, PartialEq, Eq)]
pub struct StaticVertex {
    pub position: [u32; 3],
    pub normal: [u32; 3],
    pub uv: [u32; 2],
}

#[derive(Debug, PartialEq, Eq)]
pub struct StaticMesh {
    pub indices: Vec<u32>,
    pub vertices: Vec<StaticVertex>,
}

/// What a weld removed.
#[derive(Clone, Copy, Debug, Default, PartialEq, Eq, Structural)]
pub struct WeldReport {
    pub before: usize,
    pub after: usize,
}

impl WeldReport {
    /// How many vertices the weld merged away.
    pub fn merged(&self) -> (out: usize)
        ensures
            out == if self.before >= self.after {
                self.before - self.after
            } else {
                0
            },
    {
        if self.before >= self.after {
            self.before - self.after
        } else {
            0
        }
    }
}

/// The bits of an `f32` with `-0.0` folded into `0.0`: the same point.
pub open spec fn folded(bits: u32) -> u32 {
    if bits == 0x8000_0000 {
        0
    } else {
        bits
    }
}

/// Everything that distinguishes a vertex: its position, normal and UV, bit
/// for bit, signs of zero aside.
pub open spec fn vertex_key(v: StaticVertex) -> Seq<u32> {
    seq![
        folded(v.position[0]),
        folded(v.position[1]),
        folded(v.position[2]),
        folded(v.normal[0]),
        folded(v.normal[1]),
        folded(v.normal[2]),
        folded(v.uv[0]),
        folded(v.uv[1]),
    ]
}

pub open spec fn has_key(vertices: Seq<StaticVertex>, key: Seq<u32>) -> bool {
    exists|j: int| 0 <= j < vertices.len() && vertex_key(#[trigger] vertices[j]) == key
}

/// The vertices a weld keeps: the first of each key, in order.
pub open spec fn welded(vertices: Seq<StaticVertex>) -> Seq<StaticVertex>
    decreases vertices.len(),
{
    if vertices.len() == 0 {
        Seq::empty()
    } else {
        let kept = welded(vertices.drop_last());
        if has_key(kept, vertex_key(vertices.last())) {
            kept
        } else {
            kept.push(vertices.last())
        }
    }
}

pub open spec fn keys_distinct(vertices: Seq<StaticVertex>) -> bool {
    forall|a: int, b: int|
        0 <= a < vertices.len() && 0 <= b < vertices.len() && a != b ==> vertex_key(
            #[trigger] vertices[a],
        ) != vertex_key(#[trigger] vertices[b])
}

fn folded_exec(bits: u32) -> (out: u32)
    ensures
        out == folded(bits),
{
    if bits == 0x8000_0000 {
        0
    } else {
        bits
    }
}

fn same_key(a: &StaticVertex, b: &StaticVertex) -> (out: bool)
    ensures
        out == (vertex_key(*a) == vertex_key(*b)),
{
    let same = folded_exec(a.position[0]) == folded_exec(b.position[0]) && folded_exec(
        a.position[1],
    ) == folded_exec(b.position[1]) && folded_exec(a.position[2]) == folded_exec(b.position[2])
        && folded_exec(a.normal[0]) == folded_exec(b.normal[0]) && folded_exec(a.normal[1])
        == folded_exec(b.normal[1]) && folded_exec(a.normal[2]) == folded_exec(b.normal[2])
        && folded_exec(a.uv[0]) == folded_exec(b.uv[0]) && folded_exec(a.uv[1]) == folded_exec(
        b.uv[1],
    );
    proof {
        if same {
            assert(vertex_key(*a) =~= vertex_key(*b));
        } else {
            if vertex_key(*a) == vertex_key(*b) {
                assert(vertex_key(*a)[0] == vertex_key(*b)[0]);
                assert(vertex_key(*a)[1] == vertex_key(*b)[1]);
                assert(vertex_key(*a)[2] == vertex_key(*b)[2]);
                assert(vertex_key(*a)[3] == vertex_key(*b)[3]);
                assert(vertex_key(*a)[4] == vertex_key(*b)[4]);
                assert(vertex_key(*a)[5] == vertex_key(*b)[5]);
                assert(vertex_key(*a)[6] == vertex_key(*b)[6]);
                assert(vertex_key(*a)[7] == vertex_key(*b)[7]);
            }
        }
    }
    same
}

/// Merge vertices that agree on position, normal and UV, rewriting the
/// indices to match.
///
/// The first vertex of each key is kept, in order, and no two kept vertices
/// share a key. Every index that named a vertex now names the kept vertex
/// with that vertex's key, so every corner of every triangle resolves to the
/// same attributes as before; an index past the end is left as it was.
pub fn weld(mesh: &StaticMesh) -> (out: (StaticMesh, WeldReport))
    requires
        mesh.vertices@.len() <= u32::MAX,
    ensures
        out.0.vertices@ == welded(mesh.vertices@),
        keys_distinct(out.0.vertices@),
        out.0.indices@.len() == mesh.indices@.len(),
        forall|k: int|
            0 <= k < mesh.indices@.len() ==> if (mesh.indices@[k] as int) < mesh.vertices@.len() {
                (#[trigger] out.0.indices@[k] as int) < out.0.vertices@.len() && vertex_key(
                    out.0.vertices@[out.0.indices@[k] as int],
                ) == vertex_key(mesh.vertices@[mesh.indices@[k] as int])
            } else {
                out.0.indices@[k] == mesh.indices@[k]
            },
        out.1 == (WeldReport { before: mesh.vertices@.len() as usize, after: out.0.vertices@.len() as usize }),
{
    let n = mesh.vertices.len();
    let mut kept: Vec<StaticVertex> = Vec::new();
    let mut remap: Vec<u32> = Vec::new();
    let mut i: usize = 0;
    while i < n
        invariant
            i <= n == mesh.vertices@.len() <= u32::MAX,
            kept@ == welded(mesh.vertices@.take(i as int)),
            kept@.len() <= i,
            keys_distinct(kept@),
            remap@.len() == i,
            forall|m: int|
                0 <= m < i ==> (#[trigger] remap@[m] as int) < kept@.len() && vertex_key(
                    kept@[remap@[m] as int],
                ) == vertex_key(mesh.vertices@[m]),
        decreases n - i,
    {
        let vertex = mesh.vertices[i];
        proof {
            assert(mesh.vertices@.take(i + 1).drop_last() =~= mesh.vertices@.take(i as int));
            assert(mesh.vertices@.take(i + 1).last() == vertex);
        }
        let mut j: usize = 0;
        let mut found = false;
        while j < kept.len()
            invariant_except_break
                !found,
            invariant
                j <= kept.len(),
                forall|m: int| 0 <= m < j ==> vertex_key(#[trigger] kept@[m]) != vertex_key(vertex),
            ensures
                found ==> j < kept.len() && vertex_key(kept@[j as int]) == vertex_key(vertex),
                !found ==> j == kept.len(),
            decreases kept.len() - j,
        {
            if same_key(&kept[j], &vertex) {
                found = true;
                break;
            }
            j += 1;
        }
        if found {
            assert(has_key(kept@, vertex_key(vertex)));
            remap.push(j as u32);
        } else {
            assert(!has_key(kept@, vertex_key(vertex)));
            let next = kept.len() as u32;
            kept.push(vertex);
            remap.push(next);
        }
        i += 1;
    }
    assert(mesh.vertices@.take(n as int) =~= mesh.vertices@);
    let mut indices: Vec<u32> = Vec::new();
    let mut k: usize = 0;
    while k < mesh.indices.len()
        invariant
            k <= mesh.indices.len(),
            n == mesh.vertices@.len(),
            remap@.len() == n,
            forall|m: int|
                0 <= m < n ==> (#[trigger] remap@[m] as int) < kept@.len() && vertex_key(
                    kept@[remap@[m] as int],
                ) == vertex_key(mesh.vertices@[m]),
            indices@.len() == k,
            forall|m: int|
                0 <= m < k ==> if (mesh.indices@[m] as int) < n {
                    (#[trigger] indices@[m] as int) < kept@.len() && vertex_key(
                        kept@[indices@[m] as int],
                    ) == vertex_key(mesh.vertices@[mesh.indices@[m] as int])
                } else {
                    indices@[m] == mesh.indices@[m]
                },
        decreases mesh.indices.len() - k,
    {
        let index = mesh.indices[k];
        if (index as usize) < n {
            indices.push(remap[index as usize]);
        } else {
            indices.push(index);
        }
        k += 1;
    }
    let after = kept.len();
    (StaticMesh { indices, vertices: kept }, WeldReport { before: n, after })
}

// ---------------------------------------------------------------------------
// A scene of placed meshes
// ---------------------------------------------------------------------------

/// One mesh placed in the world: which of the scene's meshes, and its
/// row-major world transform, each element held as the bits of its `f64`.
#[derive(Clone, Copy, Debug, PartialEq, Eq)]
pub struct MeshPlacement {
    pub mesh: usize,
    pub world: [u64; 16],
}

/// Every mesh placement gathered from one or more cells.
pub struct LevelScene {
    /// Unique mesh packages, in first-seen order.
    pub meshes: Vec<String>,
    pub placements: Vec<MeshPlacement>,
    pub skipped: LevelSkips,
    /// Cells that were read into this scene.
    pub cells: usize,
}

impl Default for LevelScene {
    fn default() -> (out: Self)
        ensures
            out.meshes@.len() == 0,
            out.placements@.len() == 0,
            out.skipped == LevelSkips::default_spec(),
            out.cells == 0,
    {
        LevelScene {
            meshes: Vec::new(),
            placements: Vec::new(),
            skipped: LevelSkips { inherited_mesh: 0, unresolved_mesh: 0, unreadable_instances: 0 },
            cells: 0,
        }
    }
}

impl LevelSkips {
    pub open spec fn default_spec() -> LevelSkips {
        LevelSkips { inherited_mesh: 0, unresolved_mesh: 0, unreadable_instances: 0 }
    }
}

/// The first position of `package` among `meshes`.
pub open spec fn mesh_position(meshes: Seq<String>, package: Seq<char>) -> Option<int> {
    if exists|j: int| 0 <= j < meshes.len() && #[trigger] meshes[j]@ == package {
        Some(choose|j: int| 0 <= j < meshes.len() && #[trigger] meshes[j]@ == package)
    } else {
        None
    }
}

pub open spec fn meshes_distinct(meshes: Seq<String>) -> bool {
    forall|a: int, b: int|
        0 <= a < meshes.len() && 0 <= b < meshes.len() && a != b ==> (#[trigger] meshes[a])@ != (
        #[trigger] meshes[b])@
}

impl LevelScene {
    /// Each mesh is named once, and every placement names one of them.
    pub open spec fn well_formed(&self) -> bool {
        &&& meshes_distinct(self.meshes@)
        &&& forall|p: int| 0 <= p < self.placements@.len() ==> (#[trigger] self.placements@[p]).mesh
            < self.meshes@.len()
    }

    /// Where `package` is among the scene's meshes, adding it when new.
    pub fn mesh_index(&mut self, package: &str) -> (out: usize)
        requires
            old(self).well_formed(),
        ensures
            final(self).well_formed(),
            final(self).placements == old(self).placements,
            final(self).skipped == old(self).skipped,
            final(self).cells == old(self).cells,
            out < final(self).meshes@.len(),
            final(self).meshes@[out as int]@ == package@,
            match mesh_position(old(self).meshes@, package@) {
                Some(j) => out == j && final(self).meshes@ == old(self).meshes@,
                None => out == old(self).meshes@.len() && final(self).meshes@.len() == old(
                    self,
                ).meshes@.len() + 1 && final(self).meshes@.take(old(self).meshes@.len() as int)
                    == old(self).meshes@,
            },
    {
        let wanted = chars_of(package);
        let mut j: usize = 0;
        while j < self.meshes.len()
            invariant
                j <= self.meshes.len(),
                wanted@ == package@,
                self.well_formed(),
                forall|k: int| 0 <= k < j ==> (#[trigger] self.meshes@[k])@ != package@,
            decreases self.meshes.len() - j,
        {
            if crate::order::chars_eq(&chars_of(self.meshes[j].as_str()), &wanted) {
                proof {
                    let p = choose|k: int| 0 <= k < self.meshes@.len() && #[trigger] self.meshes@[k]@
                        == package@;
                    assert(p == j as int);
                }
                return j;
            }
            j += 1;
        }
        let ghost before = self.meshes@;
        let name = string_of(&chars_of(package));
        self.meshes.push(name);
        proof {
            assert(self.meshes@.take(before.len() as int) =~= before);
            assert forall|a: int, b: int|
                0 <= a < self.meshes@.len() && 0 <= b < self.meshes@.len() && a != b implies (
                #[trigger] self.meshes@[a])@ != (#[trigger] self.meshes@[b])@ by {
                if a < before.len() && b < before.len() {
                    assert(self.meshes@[a] == before[a] && self.meshes@[b] == before[b]);
                } else if a < before.len() {
                    assert(self.meshes@[a] == before[a]);
                } else if b < before.len() {
                    assert(self.meshes@[b] == before[b]);
                }
            }
        }
        self.meshes.len() - 1
    }

    /// Place `package` at `world`, naming the mesh once however often it is
    /// placed.
    pub fn place(&mut self, package: &str, world: [u64; 16])
        requires
            old(self).well_formed(),
        ensures
            final(self).well_formed(),
            final(self).placements@.len() == old(self).placements@.len() + 1,
            final(self).placements@.take(old(self).placements@.len() as int) == old(
                self,
            ).placements@,
            final(self).placements@.last().world == world,
            final(self).meshes@[final(self).placements@.last().mesh as int]@ == package@,
            match mesh_position(old(self).meshes@, package@) {
                Some(j) => final(self).placements@.last().mesh == j && final(self).meshes@ == old(
                    self,
                ).meshes@,
                None => final(self).meshes@.len() == old(self).meshes@.len() + 1
                    && final(self).meshes@.take(old(self).meshes@.len() as int) == old(
                    self,
                ).meshes@,
            },
    {
        let mesh = self.mesh_index(package);
        let ghost before = self.placements@;
        self.placements.push(MeshPlacement { mesh, world });
        assert(self.placements@.take(before.len() as int) =~= before);
    }
}

// ---------------------------------------------------------------------------
// Reading a World Partition cell
// ---------------------------------------------------------------------------

/// How deep an `AttachParent` chain may go before it is treated as a cycle.
pub const MAX_ATTACH_DEPTH: usize = 32;

/// The position of the first entry of `entries` named `name`.
pub open spec fn property_index(entries: Seq<PropertyEntry>, name: Seq<char>) -> Option<int> {
    first_index(|k: int| entries[k].name@ == name, 0, entries.len() as int)
}

/// The value of the first entry named `name`.
pub open spec fn property(block: PropertyBlock, name: Seq<char>) -> Option<PropValue> {
    match property_index(block.entries@, name) {
        Some(k) => Some(block.entries@[k].value),
        None => None,
    }
}

/// An export's reflected property block, when it decoded to one.
pub open spec fn reflected(export: ChimpExport) -> Option<PropertyBlock> {
    match export.decoded {
        Ok(decoded) => match decoded.block {
            ExportBlock::Reflected(block) => Some(block),
            _ => None,
        },
        Err(_) => None,
    }
}

/// The package a component's `StaticMesh` property points at: an import
/// slot that names a package.
pub open spec fn mesh_package(block: PropertyBlock, slots: Seq<ImportSlot>) -> Option<Seq<char>> {
    match property(block, "StaticMesh"@) {
        Some(PropValue::Object(index)) => match import_slot_of(index) {
            Some(slot) => if slot < slots.len() {
                match slots[slot as int] {
                    ImportSlot::Package(target) => Some(target.package@),
                    _ => None,
                }
            } else {
                None
            },
            None => None,
        },
        _ => None,
    }
}

/// The export a component attaches to: a positive `AttachParent` is an
/// export of the same package; anything else attaches outside the cell.
pub open spec fn attach_parent(block: PropertyBlock) -> Option<usize> {
    match property(block, "AttachParent"@) {
        Some(PropValue::Object(parent)) => if parent > 0 {
            Some((parent - 1) as usize)
        } else {
            None
        },
        _ => None,
    }
}

/// The exports whose own transforms a component's world transform composes,
/// the component first: it and each parent it attaches to, stopping at an
/// export with no reflected block, at one already in the chain, or after
/// `MAX_ATTACH_DEPTH` of them.
pub open spec fn attach_chain(exports: Seq<ChimpExport>, at: Option<usize>, chain: Seq<usize>) -> Seq<usize>
    decreases MAX_ATTACH_DEPTH - chain.len(),
{
    match at {
        None => Seq::empty(),
        Some(current) => if chain.len() >= MAX_ATTACH_DEPTH || chain.contains(current) || current
            >= exports.len() {
            Seq::empty()
        } else {
            match reflected(exports[current as int]) {
                None => Seq::empty(),
                Some(block) => seq![current] + attach_chain(exports, attach_parent(block), chain.push(current)),
            }
        },
    }
}

pub open spec fn is_mesh_component(export: ChimpExport) -> bool {
    export.class matches Some(c) && (c@ == "StaticMeshComponent"@ || c@ == "InstancedStaticMeshComponent"@)
}

pub open spec fn is_instanced(export: ChimpExport) -> bool {
    export.class matches Some(c) && c@ == "InstancedStaticMeshComponent"@
}

/// A mesh component of the cell: its export, its mesh package, whether it
/// is instanced, and its attach chain.
pub struct CellComponent {
    pub export: usize,
    pub package: String,
    pub instanced: bool,
    pub chain: Vec<usize>,
}

/// What one cell places, before any transform is computed, and what it
/// passed over.
pub struct CellReading {
    pub components: Vec<CellComponent>,
    pub skips: LevelSkips,
}

pub open spec fn component_view(c: CellComponent) -> (usize, Seq<char>, bool, Seq<usize>) {
    (c.export, c.package@, c.instanced, c.chain@)
}

/// The mesh components among the first `n` exports, in export order.
pub open spec fn cell_components(document: ChimpDocument, n: int) -> Seq<(usize, Seq<char>, bool, Seq<usize>)>
    decreases n,
{
    if n <= 0 {
        Seq::empty()
    } else {
        let before = cell_components(document, n - 1);
        let k = n - 1;
        let export = document.exports@[k];
        match reflected(export) {
            Some(block) => if is_mesh_component(export) {
                match mesh_package(block, document.header.import_slots@) {
                    Some(package) => before.push(
                        (
                            k as usize,
                            package,
                            is_instanced(export),
                            attach_chain(document.exports@, Some(k as usize), Seq::empty()),
                        ),
                    ),
                    None => before,
                }
            } else {
                before
            },
            None => before,
        }
    }
}

/// How many of the first `n` exports are mesh components whose mesh could
/// not be read: `(inherited, unresolved)`. A component with no `StaticMesh`
/// of its own takes it from a Blueprint class default in another package.
pub open spec fn cell_skips(document: ChimpDocument, n: int) -> (nat, nat)
    decreases n,
{
    if n <= 0 {
        (0, 0)
    } else {
        let (inherited, unresolved) = cell_skips(document, n - 1);
        let export = document.exports@[n - 1];
        match reflected(export) {
            Some(block) => if is_mesh_component(export) && mesh_package(block, document.header.import_slots@) is None {
                if property(block, "StaticMesh"@) is Some {
                    (inherited, unresolved + 1)
                } else {
                    (inherited + 1, unresolved)
                }
            } else {
                (inherited, unresolved)
            },
            None => (inherited, unresolved),
        }
    }
}

fn property_index_exec(block: &PropertyBlock, name: &str) -> (out: Option<usize>)
    ensures
        match out {
            Some(k) => property_index(block.entries@, name@) == Some(k as int) && k < block.entries@.len(),
            None => property_index(block.entries@, name@) is None,
        },
{
    let ghost p = |k: int| block.entries@[k].name@ == name@;
    let target = chars_of(name);
    let n = block.entries.len();
    let mut k: usize = 0;
    while k < n
        invariant
            n == block.entries@.len(),
            k <= n,
            target@ == name@,
            p == (|k: int| block.entries@[k].name@ == name@),
            first_index(p, 0, n as int) == first_index(p, k as int, n as int),
        decreases n - k,
    {
        if chars_eq(&chars_of(block.entries[k].name.as_str()), &target) {
            return Some(k);
        }
        proof {
            lemma_first_index_step(p, k as int, n as int);
        }
        k += 1;
    }
    None
}

fn reflected_exec(export: &ChimpExport) -> (out: Option<&PropertyBlock>)
    ensures
        match reflected(*export) {
            Some(block) => out == Some(&block),
            None => out is None,
        },
{
    match &export.decoded {
        Ok(decoded) => match &decoded.block {
            ExportBlock::Reflected(block) => Some(block),
            _ => None,
        },
        Err(_) => None,
    }
}

fn import_slot_of_exec(index: i32) -> (out: Option<usize>)
    ensures
        out == import_slot_of(index),
{
    if index < 0 {
        let slot: i64 = -((index as i64) + 1);
        Some(slot as usize)
    } else {
        None
    }
}

fn mesh_package_exec(block: &PropertyBlock, slots: &Vec<ImportSlot>) -> (out: Option<String>)
    ensures
        match mesh_package(*block, slots@) {
            Some(package) => out matches Some(p) && p@ == package,
            None => out is None,
        },
{
    let k = match property_index_exec(block, "StaticMesh") {
        Some(k) => k,
        None => {
            return None;
        },
    };
    let index = match &block.entries[k].value {
        PropValue::Object(index) => *index,
        _ => {
            return None;
        },
    };
    let slot = match import_slot_of_exec(index) {
        Some(slot) => slot,
        None => {
            return None;
        },
    };
    if slot >= slots.len() {
        return None;
    }
    match &slots[slot] {
        ImportSlot::Package(target) => Some(target.package.clone()),
        _ => None,
    }
}

fn attach_parent_exec(block: &PropertyBlock) -> (out: Option<usize>)
    ensures
        out == attach_parent(*block),
{
    match property_index_exec(block, "AttachParent") {
        Some(k) => match &block.entries[k].value {
            PropValue::Object(parent) => if *parent > 0 {
                Some((*parent - 1) as usize)
            } else {
                None
            },
            _ => None,
        },
        None => None,
    }
}

fn contains_index(v: &Vec<usize>, x: usize) -> (out: bool)
    ensures
        out == v@.contains(x),
{
    let mut i: usize = 0;
    while i < v.len()
        invariant
            i <= v.len(),
            forall|j: int| 0 <= j < i ==> v@[j] != x,
        decreases v.len() - i,
    {
        if v[i] == x {
            return true;
        }
        i += 1;
    }
    false
}

/// The attach chain of export `index` (see `attach_chain`).
pub fn chimp_attach_chain(exports: &Vec<ChimpExport>, index: usize) -> (out: Vec<usize>)
    ensures
        out@ == attach_chain(exports@, Some(index), Seq::empty()),
{
    let mut chain: Vec<usize> = Vec::new();
    let mut at: Option<usize> = Some(index);
    assert(Seq::<usize>::empty() + attach_chain(exports@, at, chain@) =~= attach_chain(exports@, Some(index), Seq::empty()));
    loop
        invariant
            chain@.len() <= MAX_ATTACH_DEPTH,
            chain@ + attach_chain(exports@, at, chain@) == attach_chain(exports@, Some(index), Seq::empty()),
        decreases MAX_ATTACH_DEPTH - chain@.len(),
    {
        let current = match at {
            Some(current) => current,
            None => {
                assert(chain@ + Seq::<usize>::empty() =~= chain@);
                return chain;
            },
        };
        if chain.len() >= MAX_ATTACH_DEPTH || contains_index(&chain, current) || current >= exports.len() {
            assert(chain@ + Seq::<usize>::empty() =~= chain@);
            return chain;
        }
        let block = match reflected_exec(&exports[current]) {
            Some(block) => block,
            None => {
                assert(chain@ + Seq::<usize>::empty() =~= chain@);
                return chain;
            },
        };
        let ghost before = chain@;
        let parent = attach_parent_exec(block);
        chain.push(current);
        proof {
            assert(before + (seq![current] + attach_chain(exports@, parent, before.push(current)))
                =~= chain@ + attach_chain(exports@, parent, chain@));
        }
        at = parent;
    }
}

proof fn lemma_cell_skips_bounded(document: ChimpDocument, n: int)
    requires
        0 <= n,
    ensures
        cell_skips(document, n).0 + cell_skips(document, n).1 <= n,
    decreases n,
{
    if n > 0 {
        lemma_cell_skips_bounded(document, n - 1);
    }
}

/// Read one World Partition cell's mesh components: each component with a
/// reflected block whose `StaticMesh` names an imported package, with its
/// attach chain, in export order; and, counted rather than dropped, the
/// components whose mesh is inherited from a class default or does not
/// resolve. Instances and transforms are read from these afterwards.
pub fn read_cell_components(document: &ChimpDocument) -> (out: CellReading)
    ensures
        out.components@.map_values(|c: CellComponent| component_view(c)) == cell_components(
            *document,
            document.exports@.len() as int,
        ),
        out.skips.inherited_mesh == cell_skips(*document, document.exports@.len() as int).0,
        out.skips.unresolved_mesh == cell_skips(*document, document.exports@.len() as int).1,
        out.skips.unreadable_instances == 0,
{
    let mut components: Vec<CellComponent> = Vec::new();
    let mut inherited: usize = 0;
    let mut unresolved: usize = 0;
    let n = document.exports.len();
    let mut k: usize = 0;
    while k < n
        invariant
            n == document.exports@.len(),
            k <= n,
            components@.map_values(|c: CellComponent| component_view(c)) == cell_components(*document, k as int),
            inherited == cell_skips(*document, k as int).0,
            unresolved == cell_skips(*document, k as int).1,
        decreases n - k,
    {
        proof {
            lemma_cell_skips_bounded(*document, k as int);
        }
        let export = &document.exports[k];
        let is_component = match &export.class {
            Some(class) => {
                let c = chars_of(class.as_str());
                chars_eq(&c, &chars_of("StaticMeshComponent")) || chars_eq(&c, &chars_of("InstancedStaticMeshComponent"))
            },
            None => false,
        };
        let instanced = match &export.class {
            Some(class) => chars_eq(&chars_of(class.as_str()), &chars_of("InstancedStaticMeshComponent")),
            None => false,
        };
        if is_component {
            if let Some(block) = reflected_exec(export) {
                match mesh_package_exec(block, &document.header.import_slots) {
                    Some(package) => {
                        let chain = chimp_attach_chain(&document.exports, k);
                        let ghost before = components@;
                        let component = CellComponent { export: k, package, instanced, chain };
                        components.push(component);
                        proof {
                            assert(components@.map_values(|c: CellComponent| component_view(c))
                                =~= before.map_values(|c: CellComponent| component_view(c)).push(component_view(component)));
                        }
                    },
                    None => {
                        if property_index_exec(block, "StaticMesh").is_some() {
                            unresolved += 1;
                        } else {
                            inherited += 1;
                        }
                    },
                }
            }
        }
        k += 1;
    }
    CellReading {
        components,
        skips: LevelSkips { inherited_mesh: inherited, unresolved_mesh: unresolved, unreadable_instances: 0 },
    }
}

/// An attach chain never holds an export twice and is never longer than
/// `MAX_ATTACH_DEPTH`, whatever the `AttachParent` properties say: a cycle
/// or a runaway chain ends the walk rather than the program.
pub proof fn lemma_attach_chain_is_bounded(exports: Seq<ChimpExport>, at: Option<usize>, chain: Seq<usize>)
    requires
        chain.len() <= MAX_ATTACH_DEPTH,
        forall|a: int, b: int| 0 <= a < b < chain.len() ==> chain[a] != chain[b],
    ensures
        chain.len() + attach_chain(exports, at, chain).len() <= MAX_ATTACH_DEPTH,
        forall|a: int, b: int|
            0 <= a < b < (chain + attach_chain(exports, at, chain)).len() ==> (chain + attach_chain(
                exports,
                at,
                chain,
            ))[a] != (chain + attach_chain(exports, at, chain))[b],
        forall|i: int|
            0 <= i < attach_chain(exports, at, chain).len() ==> #[trigger] attach_chain(exports, at, chain)[i]
                < exports.len(),
    decreases MAX_ATTACH_DEPTH - chain.len(),
{
    match at {
        None => {
            assert(chain + attach_chain(exports, at, chain) =~= chain);
        },
        Some(current) => {
            if chain.len() >= MAX_ATTACH_DEPTH || chain.contains(current) || current >= exports.len() {
                assert(chain + attach_chain(exports, at, chain) =~= chain);
            } else {
                match reflected(exports[current as int]) {
                    None => {
                        assert(chain + attach_chain(exports, at, chain) =~= chain);
                    },
                    Some(block) => {
                        let next = chain.push(current);
                        assert forall|a: int, b: int| 0 <= a < b < next.len() implies next[a] != next[b] by {
                            if b == chain.len() {
                                assert(chain[a] != current);
                            }
                        }
                        lemma_attach_chain_is_bounded(exports, attach_parent(block), next);
                        let rest = attach_chain(exports, attach_parent(block), next);
                        assert(chain + attach_chain(exports, at, chain) =~= next + rest);
                        assert forall|i: int| 0 <= i < attach_chain(exports, at, chain).len() implies
                            #[trigger] attach_chain(exports, at, chain)[i] < exports.len() by {
                            if i > 0 {
                                assert(attach_chain(exports, at, chain)[i] == rest[i - 1]);
                            }
                        }
                    },
                }
            }
        },
    }
}

} // verus!
