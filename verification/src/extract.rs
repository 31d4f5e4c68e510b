//! Chimp extraction choices: the prompts that collect them, the names and
//! folders an export is written under, and the progress it reports.

use vstd::prelude::*;

use crate::order::{chars_eq, items_of, key_views, sort_keyed, stable_sort, Keyed, SortKey};
use crate::text::{
    char_pred, chars_of, decimal, decimal_chars, concat_chars, is_ascii_alnum, last_pos,
    lower, lower_chars, string_of, sub_chars,
};

verus! {

/// Identifies an open workspace.
#[derive(Clone, Copy, Debug, PartialEq, Eq, Structural)]
pub struct KitId(pub u64);

// ---------------------------------------------------------------------------
// Formats
// ---------------------------------------------------------------------------

/// How a Texture2D extraction is written.
#[derive(Clone, Copy, Debug, PartialEq, Eq, Structural)]
pub enum ChimpTextureFormat {
    Dds,
    Tiff,
    Png,
}

impl ChimpTextureFormat {
    pub fn label(self) -> (out: &'static str)
        ensures
            out@ == match self {
                ChimpTextureFormat::Dds => "DDS"@,
                ChimpTextureFormat::Tiff => "TIFF"@,
                ChimpTextureFormat::Png => "PNG"@,
            },
    {
        match self {
            ChimpTextureFormat::Dds => "DDS",
            ChimpTextureFormat::Tiff => "TIFF",
            ChimpTextureFormat::Png => "PNG",
        }
    }

    /// What choosing this format gets you, in the prompt.
    pub fn summary(self) -> (out: &'static str)
        ensures
            out@ == match self {
                ChimpTextureFormat::Dds => "The bytes the game ships: the cooked pixel format (BC1-BC7 and the uncompressed formats) with the whole mip chain, not a re-encode. The only choice that round-trips back into Unreal unchanged."@,
                ChimpTextureFormat::Tiff => "One flat RGBA8 image, uncompressed. Larger than PNG, and what most texture and compositing tools prefer to be handed."@,
                ChimpTextureFormat::Png => "One flat RGBA8 image, losslessly compressed. The smallest of the three and the one anything will open."@,
            },
    {
        match self {
            ChimpTextureFormat::Dds => "The bytes the game ships: the cooked pixel format (BC1-BC7 and the uncompressed formats) with the whole mip chain, not a re-encode. The only choice that round-trips back into Unreal unchanged.",
            ChimpTextureFormat::Tiff => "One flat RGBA8 image, uncompressed. Larger than PNG, and what most texture and compositing tools prefer to be handed.",
            ChimpTextureFormat::Png => "One flat RGBA8 image, losslessly compressed. The smallest of the three and the one anything will open.",
        }
    }

    /// The file extension written.
    pub fn extension(self) -> (out: &'static str)
        ensures
            out@ == match self {
                ChimpTextureFormat::Dds => "dds"@,
                ChimpTextureFormat::Tiff => "tif"@,
                ChimpTextureFormat::Png => "png"@,
            },
    {
        match self {
            ChimpTextureFormat::Dds => "dds",
            ChimpTextureFormat::Tiff => "tif",
            ChimpTextureFormat::Png => "png",
        }
    }

    /// The save dialog's filter: a name and the extensions it admits.
    pub fn filter(self) -> (out: (&'static str, Vec<&'static str>))
        ensures
            out.0@ == match self {
                ChimpTextureFormat::Dds => "DDS image"@,
                ChimpTextureFormat::Tiff => "TIFF image"@,
                ChimpTextureFormat::Png => "PNG image"@,
            },
            out.1@.len() == if self == ChimpTextureFormat::Tiff { 2int } else { 1int },
            out.1@[0]@ == match self {
                ChimpTextureFormat::Dds => "dds"@,
                ChimpTextureFormat::Tiff => "tif"@,
                ChimpTextureFormat::Png => "png"@,
            },
            self == ChimpTextureFormat::Tiff ==> out.1@[1]@ == "tiff"@,
    {
        match self {
            ChimpTextureFormat::Dds => ("DDS image", vec!["dds"]),
            ChimpTextureFormat::Tiff => ("TIFF image", vec!["tif", "tiff"]),
            ChimpTextureFormat::Png => ("PNG image", vec!["png"]),
        }
    }
}

/// How a Texture2D is written out.
#[derive(Clone, Copy, Debug, PartialEq, Eq, Structural)]
pub struct ChimpTextureExport {
    pub format: ChimpTextureFormat,
    /// Split a UDIM set into one numbered file per block.
    pub split_udim: bool,
}

impl Default for ChimpTextureExport {
    /// DDS and split UDIM: the pair that round-trips into Unreal.
    fn default() -> (out: Self)
        ensures
            out.format == ChimpTextureFormat::Dds,
            out.split_udim,
    {
        ChimpTextureExport { format: ChimpTextureFormat::Dds, split_udim: true }
    }
}

pub open spec fn texture_extension(format: ChimpTextureFormat) -> Seq<char> {
    match format {
        ChimpTextureFormat::Dds => "dds"@,
        ChimpTextureFormat::Tiff => "tif"@,
        ChimpTextureFormat::Png => "png"@,
    }
}

/// How many blocks across and down a texture is written as: a UDIM set's
/// block grid (at least one each way) when it is split, else one file.
pub open spec fn written_blocks(split_udim: bool, is_udim: bool, width: u32, height: u32) -> (u32, u32) {
    if split_udim && is_udim {
        (if width > 1 { width } else { 1 }, if height > 1 { height } else { 1 })
    } else {
        (1, 1)
    }
}

/// The block grid a Texture2D extraction writes (see `written_blocks`).
pub fn chimp_texture_blocks(export: ChimpTextureExport, surfaces: &crate::texture::Texture2dSurfaces) -> (out: (u32, u32))
    ensures
        out == written_blocks(export.split_udim, surfaces.is_udim, surfaces.width_in_blocks, surfaces.height_in_blocks),
{
    if export.split_udim && surfaces.is_udim {
        (
            if surfaces.width_in_blocks > 1 { surfaces.width_in_blocks } else { 1 },
            if surfaces.height_in_blocks > 1 { surfaces.height_in_blocks } else { 1 },
        )
    } else {
        (1, 1)
    }
}

/// The file one block of one layer is written to: the stem, `.layerN` when
/// there is more than one layer, the UDIM number `1001 + row * 10 + column`
/// (row 0 the top row) when there is more than one block, and the format's
/// extension.
pub open spec fn texture_file_name(
    stem: Seq<char>,
    layers: nat,
    layer: nat,
    blocks: (u32, u32),
    block: (u32, u32),
    format: ChimpTextureFormat,
) -> Seq<char> {
    stem + (if layers > 1 {
        ".layer"@ + decimal(layer)
    } else {
        Seq::empty()
    }) + (if blocks.0 * blocks.1 > 1 {
        "."@ + decimal((1001 + block.1 * 10 + block.0) as nat)
    } else {
        Seq::empty()
    }) + "."@ + texture_extension(format)
}

/// The file name of one written block (see `texture_file_name`).
pub fn chimp_texture_file_name(
    stem: &str,
    layers: usize,
    layer: usize,
    blocks: (u32, u32),
    block: (u32, u32),
    format: ChimpTextureFormat,
) -> (out: String)
    ensures
        out@ == texture_file_name(stem@, layers as nat, layer as nat, blocks, block, format),
{
    let mut name = chars_of(stem);
    let ghost n0 = name@;
    if layers > 1 {
        crate::text::push_str(&mut name, ".layer");
        crate::text::push_decimal(&mut name, layer as u64);
    }
    let ghost n1 = name@;
    let (bx, by) = blocks;
    assert((bx * by > 1) == ((bx > 1 && by > 0) || (by > 1 && bx > 0))) by (nonlinear_arith);
    if (bx > 1 && by > 0) || (by > 1 && bx > 0) {
        let udim: u64 = 1001 + (block.1 as u64) * 10 + (block.0 as u64);
        crate::text::push_str(&mut name, ".");
        crate::text::push_decimal(&mut name, udim);
    }
    let ghost n2 = name@;
    crate::text::push_str(&mut name, ".");
    crate::text::push_str(&mut name, format.extension());
    proof {
        let l: Seq<char> = if layers > 1 { ".layer"@ + decimal(layer as nat) } else { Seq::empty() };
        let u: Seq<char> = if blocks.0 * blocks.1 > 1 {
            "."@ + decimal((1001 + block.1 * 10 + block.0) as nat)
        } else {
            Seq::empty()
        };
        assert(n1 =~= n0 + l);
        assert(n2 =~= n0 + l + u);
        assert(name@ =~= n0 + l + u + "."@ + texture_extension(format));
    }
    string_of(&name)
}

/// How a whole level leaves Baboon.
#[derive(Clone, Copy, Debug, PartialEq, Eq, Structural)]
pub enum ChimpLevelFormat {
    /// One shared prototype library plus a file per region.
    SegmentedUsd,
    /// Raw geometry plus a script that builds `.blend` files from it.
    Blender,
}

impl ChimpLevelFormat {
    pub fn label(self) -> (out: &'static str)
        ensures
            out@ == match self {
                ChimpLevelFormat::SegmentedUsd => "USD (.usda)"@,
                ChimpLevelFormat::Blender => "Blender (.blend)"@,
            },
    {
        match self {
            ChimpLevelFormat::SegmentedUsd => "USD (.usda)",
            ChimpLevelFormat::Blender => "Blender (.blend)",
        }
    }

    pub fn summary(self) -> (out: &'static str)
        ensures
            out@ == match self {
                ChimpLevelFormat::SegmentedUsd => "A prototype library holding every mesh once, and a file per region that places them. Imports into any DCC that reads USD."@,
                ChimpLevelFormat::Blender => "Raw geometry and a script Blender runs to build one .blend per mesh and a master that places them as linked duplicates."@,
            },
    {
        match self {
            ChimpLevelFormat::SegmentedUsd => "A prototype library holding every mesh once, and a file per region that places them. Imports into any DCC that reads USD.",
            ChimpLevelFormat::Blender => "Raw geometry and a script Blender runs to build one .blend per mesh and a master that places them as linked duplicates.",
        }
    }
}

/// Which part of a level export is running.
#[derive(Clone, Copy, Debug, PartialEq, Eq, Structural)]
pub enum ChimpLevelPhase {
    ReadingCells,
    WritingMeshes,
    WritingSegments,
}

impl ChimpLevelPhase {
    pub fn label(self) -> (out: &'static str)
        ensures
            out@ == match self {
                ChimpLevelPhase::ReadingCells => "Reading cells"@,
                ChimpLevelPhase::WritingMeshes => "Writing meshes"@,
                ChimpLevelPhase::WritingSegments => "Writing segments"@,
            },
    {
        match self {
            ChimpLevelPhase::ReadingCells => "Reading cells",
            ChimpLevelPhase::WritingMeshes => "Writing meshes",
            ChimpLevelPhase::WritingSegments => "Writing segments",
        }
    }

    /// Where this phase sits, for "step 1 of 3".
    pub fn step(self) -> (out: usize)
        ensures
            out == match self {
                ChimpLevelPhase::ReadingCells => 1usize,
                ChimpLevelPhase::WritingMeshes => 2usize,
                ChimpLevelPhase::WritingSegments => 3usize,
            },
    {
        match self {
            ChimpLevelPhase::ReadingCells => 1,
            ChimpLevelPhase::WritingMeshes => 2,
            ChimpLevelPhase::WritingSegments => 3,
        }
    }
}

#[derive(Clone, Copy, Debug, PartialEq, Eq, Structural)]
pub enum ChimpMeshFormat {
    Jms,
    Psk,
    Pskx,
}

impl ChimpMeshFormat {
    pub fn extension(self) -> (out: &'static str)
        ensures
            out@ == match self {
                ChimpMeshFormat::Jms => "jms"@,
                ChimpMeshFormat::Psk => "psk"@,
                ChimpMeshFormat::Pskx => "pskx"@,
            },
    {
        match self {
            ChimpMeshFormat::Jms => "jms",
            ChimpMeshFormat::Psk => "psk",
            ChimpMeshFormat::Pskx => "pskx",
        }
    }

    pub fn label(self) -> (out: &'static str)
        ensures
            out@ == match self {
                ChimpMeshFormat::Jms => "JMS"@,
                ChimpMeshFormat::Psk => "ActorX PSK"@,
                ChimpMeshFormat::Pskx => "ActorX PSKX"@,
            },
    {
        match self {
            ChimpMeshFormat::Jms => "JMS",
            ChimpMeshFormat::Psk => "ActorX PSK",
            ChimpMeshFormat::Pskx => "ActorX PSKX",
        }
    }
}

/// How much of a mesh's texture set to export alongside it.
#[derive(Clone, Copy, Debug, PartialEq, Eq, Structural)]
pub enum ChimpTextureScope {
    /// No textures at all.
    NoTextures,
    /// Only textures whose name carries the mesh's own subject.
    Matching,
    /// Everything the materials reference.
    All,
}

// ---------------------------------------------------------------------------
// Names
// ---------------------------------------------------------------------------

/// Where a mesh's textures are written, relative to the mesh itself.
pub const CHIMP_TEXTURE_DIR: &'static str = "textures2d";

/// The text after the last `/`: a package path's leaf.
pub open spec fn slash_leaf(s: Seq<char>) -> Seq<char> {
    s.subrange(last_pos(s, char_pred('/')), s.len() as int)
}

pub(crate) fn slash_leaf_of(s: &Vec<char>) -> (out: Vec<char>)
    ensures
        out@ == slash_leaf(s@),
{
    proof {
        crate::text::lemma_last_pos(s@, char_pred('/'));
    }
    let start = match crate::text::rfind_char(s, '/') {
        Some(i) => i + 1,
        None => 0,
    };
    sub_chars(s, start, s.len())
}

/// What `str::to_lowercase` gives: the full Unicode lowercase mapping.
pub uninterp spec fn unicode_lower(s: Seq<char>) -> Seq<char>;

/// `str::to_lowercase`. The mapping is Unicode's (a character may lower to
/// several, and a final sigma depends on what follows), so the contract
/// names the result rather than stating it: it claims only that the result
/// is a function of the text.
#[verifier::external_body]
fn to_lowercase(s: &str) -> (out: String)
    ensures
        out@ == unicode_lower(s@),
{
    s.to_lowercase()
}

/// `c` kept when it is an ASCII letter, digit or `_`, otherwise `_`.
pub open spec fn safe_char(c: char) -> char {
    if is_ascii_alnum(c) || c == '_' {
        c
    } else {
        '_'
    }
}

/// A file-name-safe version of a package leaf, `"level"` when empty.
pub open spec fn safe_name(raw: Seq<char>) -> Seq<char> {
    if raw.len() == 0 {
        "level"@
    } else {
        raw.map_values(|c: char| safe_char(c))
    }
}

fn safe_char_exec(c: char) -> (out: char)
    ensures
        out == safe_char(c),
{
    if ('0' <= c && c <= '9') || ('a' <= c && c <= 'z') || ('A' <= c && c <= 'Z') || c == '_' {
        c
    } else {
        '_'
    }
}

fn safe_name_chars(raw: &Vec<char>) -> (out: Vec<char>)
    ensures
        out@ == safe_name(raw@),
{
    if raw.len() == 0 {
        return chars_of("level");
    }
    let mut out: Vec<char> = Vec::new();
    let mut i: usize = 0;
    while i < raw.len()
        invariant
            i <= raw.len(),
            out@ == raw@.take(i as int).map_values(|c: char| safe_char(c)),
        decreases raw.len() - i,
    {
        let c = safe_char_exec(raw[i]);
        out.push(c);
        assert(raw@.take(i + 1).map_values(|c: char| safe_char(c)) =~= raw@.take(i as int).map_values(
            |c: char| safe_char(c),
        ).push(c));
        i += 1;
    }
    assert(raw@.take(raw.len() as int) =~= raw@);
    out
}

/// A file-name-safe version of a package leaf.
pub fn prim_safe_name(raw: &str) -> (out: String)
    ensures
        out@ == safe_name(raw@),
{
    string_of(&safe_name_chars(&chars_of(raw)))
}

/// Whether a package is shaped like a World Partition persistent level:
/// named after the folder that holds it, as `.../C10/C10` is.
pub open spec fn looks_like_level(package: Seq<char>) -> bool {
    match crate::text::rfind(package, '/') {
        None => false,
        Some(i) => {
            let directory = package.take(i);
            let leaf = package.skip(i + 1);
            match crate::text::rfind(directory, '/') {
                None => false,
                Some(j) => leaf.len() > 0 && lower(leaf) == lower(directory.skip(j + 1)),
            }
        },
    }
}

pub fn chimp_looks_like_level(package: &str) -> (out: bool)
    ensures
        out == looks_like_level(package@),
{
    let p = chars_of(package);
    let i = match crate::text::rfind_char(&p, '/') {
        Some(i) => i,
        None => return false,
    };
    let directory = sub_chars(&p, 0, i);
    let leaf = sub_chars(&p, i + 1, p.len());
    assert(directory@ =~= p@.take(i as int));
    assert(leaf@ =~= p@.skip(i + 1));
    let j = match crate::text::rfind_char(&directory, '/') {
        Some(j) => j,
        None => return false,
    };
    let folder = sub_chars(&directory, j + 1, directory.len());
    assert(folder@ =~= directory@.skip(j + 1));
    leaf.len() > 0 && chars_eq(&lower_chars(&leaf), &lower_chars(&folder))
}

// ---------------------------------------------------------------------------
// Progress
// ---------------------------------------------------------------------------

/// A level export in flight, and how far along it is.
pub struct ChimpLevelJob {
    pub kit: KitId,
    pub name: String,
    pub phase: ChimpLevelPhase,
    pub done: usize,
    pub total: usize,
}

/// Whether a phase has anything honest to say about how long it has left
/// after running `secs` seconds and `nanos` nanoseconds: not before its first
/// item, not once every item is done, and not in its first second and a
/// half, when the first few items are no rate at all.
pub open spec fn estimate_ready(done: usize, total: usize, secs: u64, nanos: u32) -> bool {
    done > 0 && done < total && secs * 1_000_000_000 + nanos >= 1_500_000_000
}

impl ChimpLevelJob {
    /// Whether `remaining` gives an estimate after the phase has run
    /// `elapsed_secs` seconds and `elapsed_nanos` more nanoseconds. The
    /// estimate itself is the time so far per item, times the items left.
    pub fn has_estimate(&self, elapsed_secs: u64, elapsed_nanos: u32) -> (out: bool)
        requires
            elapsed_nanos < 1_000_000_000,
        ensures
            out == estimate_ready(self.done, self.total, elapsed_secs, elapsed_nanos),
    {
        if self.done == 0 || self.done >= self.total {
            return false;
        }
        elapsed_secs > 1 || (elapsed_secs == 1 && elapsed_nanos >= 500_000_000)
    }
}

/// `n` as at least two digits.
pub open spec fn pad2(n: nat) -> Seq<char> {
    if n < 10 {
        seq!['0'] + decimal(n)
    } else {
        decimal(n)
    }
}

/// "about 4m 20s", or "a few seconds" when there is no point being precise.
pub open spec fn remaining_text(seconds: nat) -> Seq<char> {
    if seconds < 10 {
        "a few seconds"@
    } else if seconds < 60 {
        "about "@ + decimal(seconds) + "s"@
    } else if seconds / 60 < 10 {
        "about "@ + decimal(seconds / 60) + "m "@ + pad2(seconds % 60) + "s"@
    } else {
        "about "@ + decimal(seconds / 60) + "m"@
    }
}

/// Time left, said at the precision it is known to.
pub fn format_remaining(seconds: u64) -> (out: String)
    ensures
        out@ == remaining_text(seconds as nat),
{
    if seconds < 10 {
        return string_of(&chars_of("a few seconds"));
    }
    let about = chars_of("about ");
    if seconds < 60 {
        let text = concat_chars(&concat_chars(&about, &decimal_chars(seconds)), &chars_of("s"));
        return string_of(&text);
    }
    let minutes = seconds / 60;
    let rest = seconds % 60;
    let head = concat_chars(&about, &decimal_chars(minutes));
    if minutes < 10 {
        let mut padded: Vec<char> = Vec::new();
        if rest < 10 {
            padded.push('0');
        }
        let padded = concat_chars(&padded, &decimal_chars(rest));
        assert(padded@ =~= pad2(rest as nat));
        let text = concat_chars(&concat_chars(&concat_chars(&head, &chars_of("m ")), &padded), &chars_of("s"));
        string_of(&text)
    } else {
        string_of(&concat_chars(&head, &chars_of("m")))
    }
}

// ---------------------------------------------------------------------------
// Level export prompt
// ---------------------------------------------------------------------------

/// How finely a level export is split into segments.
#[derive(Clone, Copy, Debug, PartialEq, Eq, Structural)]
pub struct SegmentBudget {
    pub triangles: usize,
    pub placements: usize,
}

/// A level waiting on the answer to "how, and split how far?".
pub struct ChimpLevelExportPrompt {
    pub kit: KitId,
    pub package: String,
    /// The `_Generated_` cells this level is made of.
    pub cells: Vec<String>,
    pub format: ChimpLevelFormat,
    /// Full Nanite geometry rather than the coarse fallback proxy.
    pub nanite: bool,
    pub split: bool,
    pub triangles: usize,
    pub placements: usize,
}

impl ChimpLevelExportPrompt {
    pub fn format_label(&self) -> (out: &'static str)
        ensures
            out@ == match self.format {
                ChimpLevelFormat::SegmentedUsd => "USD (.usda)"@,
                ChimpLevelFormat::Blender => "Blender (.blend)"@,
            },
    {
        self.format.label()
    }

    pub fn format_summary(&self) -> (out: &'static str)
        ensures
            out@ == match self.format {
                ChimpLevelFormat::SegmentedUsd => "A prototype library holding every mesh once, and a file per region that places them. Imports into any DCC that reads USD."@,
                ChimpLevelFormat::Blender => "Raw geometry and a script Blender runs to build one .blend per mesh and a master that places them as linked duplicates."@,
            },
    {
        self.format.summary()
    }

    /// What the exported files are named after: the level's leaf, made safe.
    pub fn name(&self) -> (out: String)
        ensures
            out@ == safe_name(slash_leaf(self.package@)),
    {
        let leaf = slash_leaf_of(&chars_of(self.package.as_str()));
        string_of(&safe_name_chars(&leaf))
    }

    /// The segment budget: the asked-for limits (at least one each) when
    /// splitting, otherwise a ceiling nothing reaches, so the level is one
    /// segment by the same path.
    pub fn budget(&self) -> (out: SegmentBudget)
        ensures
            self.split ==> out == (SegmentBudget {
                triangles: if self.triangles < 1 { 1 } else { self.triangles },
                placements: if self.placements < 1 { 1 } else { self.placements },
            }),
            !self.split ==> out == (SegmentBudget { triangles: usize::MAX, placements: usize::MAX }),
    {
        if self.split {
            SegmentBudget {
                triangles: if self.triangles < 1 { 1 } else { self.triangles },
                placements: if self.placements < 1 { 1 } else { self.placements },
            }
        } else {
            SegmentBudget { triangles: usize::MAX, placements: usize::MAX }
        }
    }
}

// ---------------------------------------------------------------------------
// Mesh textures
// ---------------------------------------------------------------------------

/// How many bytes UTF-8 spends on `c`.
pub open spec fn utf8_width(c: char) -> int {
    if (c as u32) < 0x80 {
        1
    } else if (c as u32) < 0x800 {
        2
    } else if (c as u32) < 0x10000 {
        3
    } else {
        4
    }
}

/// `str::len`: the UTF-8 length of `s` in bytes.
pub open spec fn utf8_len(s: Seq<char>) -> int
    decreases s.len(),
{
    if s.len() == 0 {
        0
    } else {
        utf8_len(s.drop_last()) + utf8_width(s.last())
    }
}

fn utf8_len_exec(s: &Vec<char>) -> (out: usize)
    requires
        s.len() < 0x1000_0000,
    ensures
        out == utf8_len(s@),
{
    let mut total: usize = 0;
    let mut i: usize = 0;
    while i < s.len()
        invariant
            i <= s.len() < 0x1000_0000,
            total == utf8_len(s@.take(i as int)),
            total <= 4 * i,
        decreases s.len() - i,
    {
        let c = s[i];
        let w: usize = if (c as u32) < 0x80 {
            1
        } else if (c as u32) < 0x800 {
            2
        } else if (c as u32) < 0x10000 {
            3
        } else {
            4
        };
        assert(s@.take(i + 1).drop_last() =~= s@.take(i as int));
        total = total + w;
        i += 1;
    }
    assert(s@.take(s.len() as int) =~= s@);
    total
}

/// The pieces of `s` split on `sep`, empty ones left out.
pub open spec fn nonempty_pieces(pieces: Seq<Seq<char>>) -> Seq<Seq<char>>
    decreases pieces.len(),
{
    if pieces.len() == 0 {
        Seq::empty()
    } else {
        let rest = nonempty_pieces(pieces.drop_last());
        if pieces.last().len() > 0 {
            rest.push(pieces.last())
        } else {
            rest
        }
    }
}

/// The word a mesh's own textures are expected to carry, from its lowercased
/// leaf: the first `_`-separated segment, or the second when the first is an
/// asset-type prefix of two bytes or fewer (`sm`, `sk`) and there is a
/// second. Empty segments do not count.
pub open spec fn subject_of_lowered(lowered: Seq<char>) -> Option<Seq<char>> {
    let parts = nonempty_pieces(crate::text::split(lowered, '_'));
    if parts.len() == 0 {
        None
    } else if utf8_len(parts[0]) <= 2 && parts.len() > 1 {
        Some(parts[1])
    } else {
        Some(parts[0])
    }
}

/// The word a mesh's own textures are expected to carry: the subject of its
/// package leaf, lowercased.
pub open spec fn texture_subject(package: Seq<char>) -> Option<Seq<char>> {
    subject_of_lowered(unicode_lower(slash_leaf(package)))
}

/// The texture subject of an already lowercased leaf (see
/// `subject_of_lowered`).
pub fn chimp_texture_subject_of(lowered_leaf: &str) -> (out: Option<String>)
    ensures
        match subject_of_lowered(lowered_leaf@) {
            None => out is None,
            Some(subject) => out matches Some(s) && s@ == subject,
        },
{
    let lowered = chars_of(lowered_leaf);
    let pieces = crate::text::split_chars(&lowered, '_');
    let ghost all = crate::text::split(lowered@, '_');
    let mut parts: Vec<Vec<char>> = Vec::new();
    let mut i: usize = 0;
    while i < pieces.len()
        invariant
            i <= pieces.len(),
            pieces@.len() == all.len(),
            forall|k: int| 0 <= k < pieces@.len() ==> #[trigger] pieces@[k]@ == all[k],
            parts@.len() == nonempty_pieces(all.take(i as int)).len(),
            forall|k: int| 0 <= k < parts@.len() ==> #[trigger] parts@[k]@ == nonempty_pieces(all.take(i as int))[k],
        decreases pieces.len() - i,
    {
        proof {
            assert(all.take(i + 1).drop_last() =~= all.take(i as int));
            assert(all.take(i + 1).last() == all[i as int]);
        }
        if pieces[i].len() > 0 {
            let piece = sub_chars(&pieces[i], 0, pieces[i].len());
            assert(piece@ =~= pieces@[i as int]@);
            parts.push(piece);
        }
        i += 1;
    }
    assert(all.take(all.len() as int) =~= all);
    if parts.len() == 0 {
        return None;
    }
    if parts[0].len() < 0x1000_0000 && utf8_len_exec(&parts[0]) <= 2 && parts.len() > 1 {
        Some(string_of(&parts[1]))
    } else {
        proof {
            if parts@[0]@.len() >= 0x1000_0000 {
                lemma_utf8_len_at_least(parts@[0]@);
            }
        }
        Some(string_of(&parts[0]))
    }
}

proof fn lemma_utf8_len_at_least(s: Seq<char>)
    ensures
        utf8_len(s) >= s.len(),
    decreases s.len(),
{
    if s.len() > 0 {
        lemma_utf8_len_at_least(s.drop_last());
    }
}

/// The word "matching textures" filters a mesh's texture candidates on: the
/// subject of its package leaf, lowercased with Unicode's full mapping.
pub fn chimp_mesh_texture_subject(package: &str) -> (out: Option<String>)
    ensures
        match texture_subject(package@) {
            None => out is None,
            Some(subject) => out matches Some(s) && s@ == subject,
        },
{
    let leaf = string_of(&slash_leaf_of(&chars_of(package)));
    let lowered = to_lowercase(leaf.as_str());
    chimp_texture_subject_of(lowered.as_str())
}

/// A mesh export waiting on the answer to "textures as well?".
pub struct ChimpMeshTexturePrompt {
    pub kit: KitId,
    pub package: String,
    pub format: ChimpMeshFormat,
    pub texture_export: ChimpTextureExport,
    /// Where the mesh itself is being written.
    pub path: String,
}

impl ChimpMeshTexturePrompt {
    pub fn format_label(&self) -> (out: &'static str)
        ensures
            out@ == match self.format {
                ChimpMeshFormat::Jms => "JMS"@,
                ChimpMeshFormat::Psk => "ActorX PSK"@,
                ChimpMeshFormat::Pskx => "ActorX PSKX"@,
            },
    {
        self.format.label()
    }

    /// The word "matching textures" would filter on, if one can be derived.
    pub fn texture_subject(&self) -> (out: Option<String>)
        ensures
            match texture_subject(self.package@) {
                None => out is None,
                Some(subject) => out matches Some(s) && s@ == subject,
            },
    {
        chimp_mesh_texture_subject(self.package.as_str())
    }
}

/// A texture export waiting on the answer to "which image format?".
pub struct ChimpTextureExportPrompt {
    pub kit: KitId,
    pub package: String,
    pub export: ChimpTextureExport,
    /// The export the open document has selected.
    pub export_index: Option<usize>,
}

impl ChimpTextureExportPrompt {
    /// The package's leaf.
    pub fn name(&self) -> (out: String)
        ensures
            out@ == slash_leaf(self.package@),
    {
        string_of(&slash_leaf_of(&chars_of(self.package.as_str())))
    }
}

/// What a package's context menu offers: one answer, used both to decide
/// whether to attach a menu and what goes in it.
#[derive(Clone, Copy, Debug, Default, PartialEq, Eq, Structural)]
pub struct ChimpPackageActions {
    pub texture: bool,
    pub mesh: bool,
    pub level: bool,
}

pub open spec fn kind_is(kind: Option<&str>, name: Seq<char>) -> bool {
    kind matches Some(k) && k@ == name
}

impl ChimpPackageActions {
    pub fn of(package: &str, kind: Option<&str>) -> (out: Self)
        ensures
            out.texture == kind_is(kind, "Texture2D"@),
            out.mesh == (kind_is(kind, "SkeletalMesh"@) || kind_is(kind, "StaticMesh"@)),
            out.level == looks_like_level(package@),
    {
        let (texture, mesh) = match kind {
            Some(k) => {
                let k = chars_of(k);
                (
                    chars_eq(&k, &chars_of("Texture2D")),
                    chars_eq(&k, &chars_of("SkeletalMesh")) || chars_eq(&k, &chars_of("StaticMesh")),
                )
            },
            None => (false, false),
        };
        ChimpPackageActions { texture, mesh, level: chimp_looks_like_level(package) }
    }

    /// Whether the menu offers anything at all, and so whether it opens.
    pub fn any(self) -> (out: bool)
        ensures
            out == (self.texture || self.mesh || self.level),
    {
        self.texture || self.mesh || self.level
    }
}

// ---------------------------------------------------------------------------
// Level cells
// ---------------------------------------------------------------------------

/// Where a level's cells live, lowercased: `{directory}/_Generated_/`.
pub open spec fn cell_prefix(package: Seq<char>) -> Option<Seq<char>> {
    match crate::text::rfind(package, '/') {
        None => None,
        Some(i) => Some(unicode_lower(package.take(i) + "/_Generated_/"@)),
    }
}

/// The package names whose lowercase form starts with `prefix`, in order.
pub open spec fn names_under(packages: Seq<String>, prefix: Seq<char>) -> Seq<Seq<char>>
    decreases packages.len(),
{
    if packages.len() == 0 {
        Seq::empty()
    } else {
        let rest = names_under(packages.drop_last(), prefix);
        if crate::text::starts_with(unicode_lower(packages.last()@), prefix) {
            rest.push(packages.last()@)
        } else {
            rest
        }
    }
}

/// `names` in `String` order.
pub open spec fn sorted_names(names: Seq<Seq<char>>) -> Seq<Seq<char>> {
    items_of(
        stable_sort(Seq::new(names.len(), |k: int| SortKey { item: k as usize, group: 0, name: names[k] })),
    ).map_values(|i: usize| names[i as int])
}

/// The cells of the level `package` among the mounted `packages`.
pub open spec fn level_cells(packages: Seq<String>, package: Seq<char>) -> Seq<Seq<char>> {
    match cell_prefix(package) {
        None => Seq::empty(),
        Some(prefix) => sorted_names(names_under(packages, prefix)),
    }
}

/// The cells a World Partition level is made of, sorted, or none when the
/// package sits in no folder.
pub fn chimp_level_cells(packages: &Vec<String>, package: &str) -> (out: Vec<String>)
    ensures
        crate::browser::views(out@) == level_cells(packages@, package@),
{
    let p = chars_of(package);
    let i = match crate::text::rfind_char(&p, '/') {
        Some(i) => i,
        None => {
            assert(crate::browser::views(Seq::<String>::empty()) =~= Seq::<Seq<char>>::empty());
            return Vec::new();
        },
    };
    let directory = sub_chars(&p, 0, i);
    assert(directory@ =~= p@.take(i as int));
    let raw_prefix = string_of(&concat_chars(&directory, &chars_of("/_Generated_/")));
    let prefix = chars_of(to_lowercase(raw_prefix.as_str()).as_str());
    let mut matching: Vec<String> = Vec::new();
    let mut k: usize = 0;
    while k < packages.len()
        invariant
            k <= packages.len(),
            cell_prefix(package@) == Some(prefix@),
            crate::browser::views(matching@) == names_under(packages@.take(k as int), prefix@),
        decreases packages.len() - k,
    {
        proof {
            assert(packages@.take(k + 1).drop_last() =~= packages@.take(k as int));
        }
        let lowered = chars_of(to_lowercase(packages[k].as_str()).as_str());
        if crate::text::starts_with_exec(&lowered, &prefix) {
            let name = packages[k].clone();
            let ghost before = matching@;
            matching.push(name);
            assert(crate::browser::views(matching@) =~= crate::browser::views(before).push(name@));
        }
        k += 1;
    }
    assert(packages@.take(packages.len() as int) =~= packages@);
    let ghost names = names_under(packages@, prefix@);
    let mut keyed: Vec<Keyed> = Vec::new();
    let mut t: usize = 0;
    while t < matching.len()
        invariant
            t <= matching.len(),
            crate::browser::views(matching@) == names,
            key_views(keyed@) == Seq::new(
                t as nat,
                |j: int| SortKey { item: j as usize, group: 0, name: names[j] },
            ),
        decreases matching.len() - t,
    {
        let item = Keyed { item: t, group: 0, name: chars_of(matching[t].as_str()) };
        let ghost before = keyed@;
        keyed.push(item);
        assert(key_views(keyed@) =~= Seq::new(
            (t + 1) as nat,
            |j: int| SortKey { item: j as usize, group: 0, name: names[j] },
        )) by {
            assert(key_views(keyed@) =~= key_views(before).push(item@));
        }
        t += 1;
    }
    let order = sort_keyed(keyed);
    let ghost keys = Seq::new(
        names.len(),
        |j: int| SortKey { item: j as usize, group: 0, name: names[j] },
    );
    proof {
        crate::order::lemma_stable_sort_items(keys);
    }
    let mut out: Vec<String> = Vec::new();
    let mut r: usize = 0;
    while r < order.len()
        invariant
            r <= order.len(),
            order@ == items_of(stable_sort(keys)),
            keys.len() == names.len(),
            crate::browser::views(matching@) == names,
            forall|j: int| 0 <= j < order@.len() ==> (#[trigger] order@[j] as int) < names.len(),
            crate::browser::views(out@) == order@.take(r as int).map_values(|x: usize| names[x as int]),
        decreases order.len() - r,
    {
        let name = matching[order[r]].clone();
        let ghost before = out@;
        out.push(name);
        assert(crate::browser::views(out@) =~= order@.take(r + 1).map_values(
            |x: usize| names[x as int],
        )) by {
            assert(crate::browser::views(out@) =~= crate::browser::views(before).push(name@));
        }
        r += 1;
    }
    assert(order@.take(order.len() as int) =~= order@);
    out
}

/// `names` with every repeat after the first dropped, in first-seen order.
pub open spec fn first_seen(names: Seq<Seq<char>>) -> Seq<Seq<char>>
    decreases names.len(),
{
    if names.len() == 0 {
        Seq::empty()
    } else {
        let rest = first_seen(names.drop_last());
        if rest.contains(names.last()) {
            rest
        } else {
            rest.push(names.last())
        }
    }
}

/// Every list of `lists`, one after another.
pub open spec fn flatten_views(lists: Seq<Vec<String>>) -> Seq<Seq<char>>
    decreases lists.len(),
{
    if lists.len() == 0 {
        Seq::empty()
    } else {
        flatten_views(lists.drop_last()) + crate::browser::views(lists.last()@)
    }
}

proof fn lemma_first_seen_push(names: Seq<Seq<char>>, name: Seq<char>)
    ensures
        first_seen(names.push(name)) == if first_seen(names).contains(name) {
            first_seen(names)
        } else {
            first_seen(names).push(name)
        },
{
    assert(names.push(name).drop_last() =~= names);
}

/// The import lists of the material packages among `imports` that were
/// read, in import order: a material is an import whose leaf has the
/// `M_`/`MI_` prefix the game's own content uses.
pub open spec fn material_lists(imports: Seq<(String, Option<Vec<String>>)>) -> Seq<Vec<String>>
    decreases imports.len(),
{
    if imports.len() == 0 {
        Seq::empty()
    } else {
        let before = material_lists(imports.drop_last());
        match imports.last().1 {
            Some(list) => if crate::package::material_package(imports.last().0@) {
                before.push(list)
            } else {
                before
            },
            None => before,
        }
    }
}

/// Every Texture2D candidate reachable from a mesh's materials: everything
/// its material packages import, each package once, in the order first met.
/// `imports` holds each package the mesh imports, with that package's own
/// imports where it was read; only materials are looked into.
pub fn chimp_mesh_texture_packages(imports: &Vec<(String, Option<Vec<String>>)>) -> (out: Vec<String>)
    ensures
        crate::browser::views(out@) == first_seen(flatten_views(material_lists(imports@))),
{
    let mut out: Vec<String> = Vec::new();
    let mut m: usize = 0;
    assert(crate::browser::views(out@) =~= first_seen(flatten_views(material_lists(imports@.take(0)))));
    while m < imports.len()
        invariant
            m <= imports.len(),
            crate::browser::views(out@) == first_seen(flatten_views(material_lists(imports@.take(m as int)))),
        decreases imports.len() - m,
    {
        proof {
            let t = imports@.take(m + 1);
            assert(t.drop_last() =~= imports@.take(m as int));
            assert(t.last() == imports@[m as int]);
        }
        let list = match &imports[m].1 {
            Some(list) => list,
            None => {
                m += 1;
                continue;
            },
        };
        if !crate::package::is_chimp_material_package(imports[m].0.as_str()) {
            m += 1;
            continue;
        }
        let ghost lists = material_lists(imports@.take(m as int));
        let ghost done = flatten_views(lists);
        let mut i: usize = 0;
        assert(done + crate::browser::views(list@).take(0) =~= done);
        while i < list.len()
            invariant
                i <= list.len(),
                crate::browser::views(out@) == first_seen(done + crate::browser::views(list@).take(i as int)),
            decreases list.len() - i,
        {
            let name = &list[i];
            let ghost prefix = done + crate::browser::views(list@).take(i as int);
            proof {
                assert(done + crate::browser::views(list@).take(i + 1) =~= prefix.push(name@));
                lemma_first_seen_push(prefix, name@);
            }
            let mut seen = false;
            let mut j: usize = 0;
            while j < out.len()
                invariant
                    j <= out.len(),
                    seen <==> exists|k: int| 0 <= k < j && #[trigger] out@[k]@ == name@,
                decreases out.len() - j,
            {
                if out[j] == *name {
                    seen = true;
                }
                j += 1;
            }
            proof {
                let v = crate::browser::views(out@);
                if seen {
                    let k = choose|k: int| 0 <= k < out@.len() && #[trigger] out@[k]@ == name@;
                    assert(v[k] == name@);
                } else {
                    assert forall|k: int| 0 <= k < v.len() implies v[k] != name@ by {
                        assert(v[k] == out@[k]@);
                    }
                }
            }
            if !seen {
                let ghost before = out@;
                out.push(name.clone());
                assert(crate::browser::views(out@) =~= crate::browser::views(before).push(name@));
            }
            i += 1;
        }
        proof {
            assert(crate::browser::views(list@).take(list.len() as int) =~= crate::browser::views(list@));
            assert(material_lists(imports@.take(m + 1)) == lists.push(*list));
            assert(lists.push(*list).drop_last() =~= lists);
        }
        m += 1;
    }
    assert(imports@.take(imports.len() as int) =~= imports@);
    out
}

/// Where `x` first occurs in `names`, when it does.
pub open spec fn first_pos(names: Seq<Seq<char>>, x: Seq<char>) -> int
    decreases names.len(),
{
    if names.len() == 0 {
        0
    } else if names.drop_last().contains(x) {
        first_pos(names.drop_last(), x)
    } else {
        names.len() - 1
    }
}

/// `first_seen` keeps discovery order: each name it keeps is where that name
/// first occurs, and the names it keeps come in the order they were first
/// met.
pub proof fn lemma_first_seen_order(names: Seq<Seq<char>>)
    ensures
        forall|i: int|
            0 <= i < first_seen(names).len() ==> 0 <= #[trigger] first_pos(names, first_seen(names)[i])
                < names.len() && names[first_pos(names, first_seen(names)[i])] == first_seen(names)[i],
        forall|i: int, j: int|
            0 <= i < j < first_seen(names).len() ==> first_pos(names, #[trigger] first_seen(names)[i])
                < first_pos(names, #[trigger] first_seen(names)[j]),
    decreases names.len(),
{
    if names.len() > 0 {
        let before = names.drop_last();
        let x = names.last();
        let r = first_seen(before);
        lemma_first_seen_order(before);
        lemma_first_seen_no_duplicates(before);
        assert forall|i: int| 0 <= i < r.len() implies #[trigger] first_pos(names, r[i]) == first_pos(before, r[i])
            && 0 <= first_pos(before, r[i]) < before.len() by {
            assert(r.contains(r[i]));
            assert(before.contains(r[i]));
            assert(first_pos(before, r[i]) < before.len());
        }
        if !r.contains(x) {
            assert(!before.contains(x));
            assert(first_pos(names, x) == names.len() - 1);
            let rr = r.push(x);
            assert forall|i: int| 0 <= i < rr.len() implies 0 <= #[trigger] first_pos(names, rr[i]) < names.len()
                && names[first_pos(names, rr[i])] == rr[i] by {
                if i < r.len() {
                    assert(rr[i] == r[i]);
                    assert(names[first_pos(before, r[i])] == before[first_pos(before, r[i])]);
                }
            }
            assert forall|i: int, j: int| 0 <= i < j < rr.len() implies first_pos(names, #[trigger] rr[i])
                < first_pos(names, #[trigger] rr[j]) by {
                assert(rr[i] == r[i]);
                if j < r.len() {
                    assert(rr[j] == r[j]);
                }
            }
        } else {
            assert forall|i: int| 0 <= i < r.len() implies 0 <= #[trigger] first_pos(names, r[i]) < names.len()
                && names[first_pos(names, r[i])] == r[i] by {
                assert(names[first_pos(before, r[i])] == before[first_pos(before, r[i])]);
            }
        }
    }
}

/// The texture candidates of a mesh are the import lists of its readable
/// material packages, one after another in import order, with later repeats
/// dropped: no package twice, every listed package once, and in the order
/// each was first met.
pub proof fn lemma_mesh_texture_packages(imports: Seq<(String, Option<Vec<String>>)>)
    ensures
        ({
            let names = flatten_views(material_lists(imports));
            let out = first_seen(names);
            &&& out.no_duplicates()
            &&& forall|name: Seq<char>| #[trigger] out.contains(name) <==> names.contains(name)
            &&& forall|i: int, j: int|
                0 <= i < j < out.len() ==> first_pos(names, #[trigger] out[i]) < first_pos(
                    names,
                    #[trigger] out[j],
                )
        }),
{
    let names = flatten_views(material_lists(imports));
    lemma_first_seen_no_duplicates(names);
    lemma_first_seen_order(names);
}

proof fn lemma_push_contains(s: Seq<Seq<char>>, x: Seq<char>)
    ensures
        forall|n: Seq<char>| #[trigger] s.push(x).contains(n) <==> (s.contains(n) || n == x),
{
    assert forall|n: Seq<char>| #[trigger] s.push(x).contains(n) <==> (s.contains(n) || n == x) by {
        if s.contains(n) {
            let k = choose|k: int| 0 <= k < s.len() && s[k] == n;
            assert(s.push(x)[k] == n);
        }
        if n == x {
            assert(s.push(x)[s.len() as int] == n);
        }
        if s.push(x).contains(n) {
            let k = choose|k: int| 0 <= k < s.push(x).len() && s.push(x)[k] == n;
            if k < s.len() {
                assert(s[k] == n);
            }
        }
    }
}

/// The texture candidates name each package once: `first_seen` keeps one of
/// each name, and every name it was given.
pub proof fn lemma_first_seen_no_duplicates(names: Seq<Seq<char>>)
    ensures
        first_seen(names).no_duplicates(),
        forall|name: Seq<char>| #[trigger] first_seen(names).contains(name) <==> names.contains(name),
    decreases names.len(),
{
    if names.len() > 0 {
        let before = names.drop_last();
        lemma_first_seen_no_duplicates(before);
        assert(names =~= before.push(names.last()));
        let r = first_seen(before);
        let x = names.last();
        lemma_push_contains(r, x);
        lemma_push_contains(before, x);
        if !r.contains(x) {
            assert forall|a: int, b: int| 0 <= a < b < r.push(x).len() implies r.push(x)[a] != r.push(x)[b] by {
                if b == r.len() {
                    assert(r[a] == r.push(x)[a]);
                }
            }
        }
    }
}

} // verus!
