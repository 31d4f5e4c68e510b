//! Texture2D surfaces as the viewer and the exporters see them: which export
//! is chosen, and which mip a GPU can hold.

use vstd::prelude::*;

use crate::text::{chars_of, concat_chars, decimal, push_decimal, push_str, string_of};

verus! {

/// One decoded mip level.
#[derive(Clone, Debug)]
pub struct MipSurface {
    pub width: u32,
    pub height: u32,
    /// The name of the level's pixel format.
    pub pixel_format: String,
    /// How many of the level's blocks have no tile of their own and are
    /// magnified from a coarser level.
    pub missing_tiles: usize,
}

/// Every mip of one layer, finest first.
pub struct TextureLayer {
    pub mips: Vec<MipSurface>,
}

/// Every layer a Texture2D stores.
pub struct Texture2dSurfaces {
    pub layers: Vec<TextureLayer>,
    pub is_virtual: bool,
    /// Whether the texture is a UDIM set of blocks.
    pub is_udim: bool,
    pub width_in_blocks: u32,
    pub height_in_blocks: u32,
}

/// One layer and mip of a texture as the shared bitmap viewer shows it.
pub struct BitmapPreviewData {
    pub width: u32,
    pub height: u32,
    pub image_count: usize,
    pub mip_count: usize,
    pub format_name: String,
    pub type_label: String,
    pub rgba: Vec<u8>,
}

/// One Texture2D export of a package, decoded or not.
pub struct ChimpTexturePreview {
    pub export_index: usize,
    pub surfaces: Result<Texture2dSurfaces, String>,
}

/// The largest side a GPU texture is trusted to hold: `max_side`, or 8192
/// while the real limit is not known.
pub open spec fn side_limit(max_side: usize) -> u32 {
    if max_side == 0 {
        8192
    } else {
        max_side as u32
    }
}

pub open spec fn fits(mip: MipSurface, limit: u32) -> bool {
    mip.width <= limit && mip.height <= limit
}

/// The position of the first mip in `mips` that fits under `limit`.
pub open spec fn first_fit(mips: Seq<MipSurface>, limit: u32) -> Option<int>
    decreases mips.len(),
{
    if mips.len() == 0 {
        None
    } else if fits(mips[0], limit) {
        Some(0)
    } else {
        match first_fit(mips.drop_first(), limit) {
            Some(k) => Some(k + 1),
            None => None,
        }
    }
}

/// The first mip of the first layer that fits under `limit`, or `0`.
pub open spec fn displayable_mip(surfaces: Texture2dSurfaces, limit: u32) -> int {
    if surfaces.layers@.len() == 0 {
        0
    } else {
        match first_fit(surfaces.layers@[0].mips@, limit) {
            Some(k) => k,
            None => 0,
        }
    }
}

proof fn lemma_first_fit(mips: Seq<MipSurface>, limit: u32, i: int)
    requires
        0 <= i <= mips.len(),
        forall|j: int| 0 <= j < i ==> !fits(#[trigger] mips[j], limit),
    ensures
        i < mips.len() && fits(mips[i], limit) ==> first_fit(mips, limit) == Some(i),
        i == mips.len() ==> first_fit(mips, limit) is None,
    decreases i,
{
    if i > 0 {
        let t = mips.drop_first();
        assert forall|j: int| 0 <= j < i - 1 implies !fits(#[trigger] t[j], limit) by {
            assert(t[j] == mips[j + 1]);
        }
        lemma_first_fit(t, limit, i - 1);
        assert(!fits(mips[0], limit));
        if i < mips.len() {
            assert(t[i - 1] == mips[i]);
        }
    }
}

proof fn lemma_first_fit_is_first(mips: Seq<MipSurface>, limit: u32)
    ensures
        match first_fit(mips, limit) {
            Some(k) => 0 <= k < mips.len() && mips[k].width <= limit && mips[k].height <= limit && forall|j: int|
                0 <= j < k ==> (#[trigger] mips[j]).width > limit || mips[j].height > limit,
            None => forall|j: int| 0 <= j < mips.len() ==> (#[trigger] mips[j]).width > limit || mips[j].height > limit,
        },
    decreases mips.len(),
{
    if mips.len() > 0 {
        let t = mips.drop_first();
        lemma_first_fit_is_first(t, limit);
        assert forall|j: int| 0 < j < mips.len() implies mips[j] == t[j - 1] by {}
    }
}

/// The mip a texture preview starts on is the first mip of the first layer
/// whose width and height are both within the side limit (8192 when the
/// GPU's is not known): every earlier mip is too wide or too tall. When none
/// is within it, or there is no layer, it is the base mip.
pub proof fn lemma_displayable_mip_is_first_that_fits(surfaces: Texture2dSurfaces, max_side: usize)
    ensures
        ({
            let limit = side_limit(max_side);
            let k = displayable_mip(surfaces, limit);
            if surfaces.layers@.len() > 0 && exists|m: int|
                0 <= m < surfaces.layers@[0].mips@.len() && (#[trigger] surfaces.layers@[0].mips@[m]).width <= limit
                    && surfaces.layers@[0].mips@[m].height <= limit {
                let mips = surfaces.layers@[0].mips@;
                &&& 0 <= k < mips.len()
                &&& mips[k].width <= limit && mips[k].height <= limit
                &&& forall|j: int| 0 <= j < k ==> (#[trigger] mips[j]).width > limit || mips[j].height > limit
            } else {
                k == 0
            }
        }),
{
    if surfaces.layers@.len() > 0 {
        lemma_first_fit_is_first(surfaces.layers@[0].mips@, side_limit(max_side));
    }
}

/// Largest mip index that is safe to upload as a GPU texture: the first
/// whose sides are within the limit, so an oversized base mip is skipped
/// rather than shown as noise.
pub fn first_displayable_mip(surfaces: &Texture2dSurfaces, max_side: usize) -> (out: usize)
    ensures
        out == displayable_mip(*surfaces, side_limit(max_side)),
{
    let limit: u32 = if max_side == 0 { 8192 } else { #[verifier::truncate] (max_side as u32) };
    if surfaces.layers.len() == 0 {
        return 0;
    }
    let mips = &surfaces.layers[0].mips;
    let mut i: usize = 0;
    while i < mips.len()
        invariant
            i <= mips.len(),
            surfaces.layers@.len() > 0,
            mips@ == surfaces.layers@[0].mips@,
            limit == side_limit(max_side),
            forall|j: int| 0 <= j < i ==> !fits(#[trigger] mips@[j], limit),
        decreases mips.len() - i,
    {
        if mips[i].width <= limit && mips[i].height <= limit {
            proof {
                lemma_first_fit(mips@, limit, i as int);
            }
            return i;
        }
        i += 1;
    }
    proof {
        lemma_first_fit(mips@, limit, i as int);
    }
    0
}

/// The preview of `export_index` when that export is a texture, otherwise
/// the first texture, otherwise none.
pub open spec fn selected_preview(previews: Seq<ChimpTexturePreview>, export_index: Option<usize>) -> Option<int> {
    match export_index {
        Some(index) if exists|k: int| 0 <= k < previews.len() && #[trigger] previews[k].export_index == index =>
            Some(choose|k: int| 0 <= k < previews.len() && previews[k].export_index == index
                && forall|j: int| 0 <= j < k ==> #[trigger] previews[j].export_index != index),
        _ => if previews.len() > 0 { Some(0) } else { None },
    }
}

fn find_export(previews: &Vec<ChimpTexturePreview>, index: usize) -> (out: Option<usize>)
    ensures
        match out {
            Some(k) => k < previews.len() && previews@[k as int].export_index == index
                && forall|j: int| 0 <= j < k ==> #[trigger] previews@[j].export_index != index,
            None => forall|j: int| 0 <= j < previews.len() ==> #[trigger] previews@[j].export_index != index,
        },
{
    let mut k: usize = 0;
    while k < previews.len()
        invariant
            k <= previews.len(),
            forall|j: int| 0 <= j < k ==> #[trigger] previews@[j].export_index != index,
        decreases previews.len() - k,
    {
        if previews[k].export_index == index {
            return Some(k);
        }
        k += 1;
    }
    None
}

/// The texture the user picked, or the first texture when the pick names no
/// texture (or nothing is picked).
pub fn selected_texture_preview(previews: &Vec<ChimpTexturePreview>, export_index: Option<usize>) -> (out: Option<&ChimpTexturePreview>)
    ensures
        match selected_preview(previews@, export_index) {
            Some(k) => out == Some(&previews@[k]),
            None => out is None,
        },
{
    if let Some(index) = export_index {
        if let Some(k) = find_export(previews, index) {
            let ghost p = previews@;
            proof {
                let c = choose|c: int| 0 <= c < p.len() && p[c].export_index == index
                    && forall|j: int| 0 <= j < c ==> #[trigger] p[j].export_index != index;
                assert(c == k) by {
                    if c < k {
                        assert(p[c].export_index != index);
                    } else if c > k {
                        assert(p[k as int].export_index != index);
                    }
                }
            }
            return Some(&previews[k]);
        }
    }
    if previews.len() > 0 {
        Some(&previews[0])
    } else {
        None
    }
}

/// The surfaces to export: those of the selected texture, or an error naming
/// the package when there is no texture or it did not decode.
pub fn chimp_selected_surfaces<'a>(previews: &'a Vec<ChimpTexturePreview>, package: &str, export_index: Option<usize>) -> (out: Result<&'a Texture2dSurfaces, String>)
    ensures
        match selected_preview(previews@, export_index) {
            None => out matches Err(e) && e@ == package@ + " has no Texture2D export"@,
            Some(k) => match &previews@[k].surfaces {
                Ok(surfaces) => out == Ok::<&Texture2dSurfaces, String>(surfaces),
                Err(error) => out matches Err(e) && e@ == package@ + ": "@ + error@,
            },
        },
{
    let selected = match selected_texture_preview(previews, export_index) {
        Some(selected) => selected,
        None => {
            return Err(string_of(&concat_chars(&chars_of(package), &chars_of(" has no Texture2D export"))));
        },
    };
    match &selected.surfaces {
        Ok(surfaces) => Ok(surfaces),
        Err(error) => Err(string_of(&concat_chars(&concat_chars(&chars_of(package), &chars_of(": ")), &chars_of(error.as_str())))),
    }
}

// ---------------------------------------------------------------------------
// Thumbnail mip choice
// ---------------------------------------------------------------------------

pub open spec fn halved(side: u32) -> u32 {
    if side / 2 >= 1 {
        side / 2
    } else {
        1
    }
}

pub open spec fn larger(a: u32, b: u32) -> u32 {
    if a >= b {
        a
    } else {
        b
    }
}

/// How many times a `width` x `height` image can be halved, with `levels`
/// mips in all, before its next level would drop below `max_edge` on its
/// longer side.
pub open spec fn mip_steps(width: u32, height: u32, levels: nat, max_edge: u32) -> nat
    decreases levels,
{
    if levels <= 1 {
        0
    } else if larger(halved(width), halved(height)) < max_edge {
        0
    } else {
        1 + mip_steps(halved(width), halved(height), (levels - 1) as nat, max_edge)
    }
}

/// The smallest mip of a `width` x `height` image with `mip_count` levels
/// whose longer side still covers `max_edge`: each halving rounds down and
/// stops at one pixel, and the full image is used when even its first
/// halving falls short.
pub fn smallest_mip_covering(width: u32, height: u32, mip_count: usize, max_edge: u32) -> (out: usize)
    ensures
        out == mip_steps(width, height, mip_count as nat, max_edge),
{
    let mut level: usize = 0;
    let mut w = width;
    let mut h = height;
    while level + 1 < mip_count
        invariant
            level < mip_count || (level == 0 && mip_count == 0),
            level + mip_steps(w, h, (mip_count - level) as nat, max_edge) == mip_steps(
                width,
                height,
                mip_count as nat,
                max_edge,
            ),
        decreases mip_count - level,
    {
        let next_w = if w / 2 >= 1 { w / 2 } else { 1 };
        let next_h = if h / 2 >= 1 { h / 2 } else { 1 };
        let longer = if next_w >= next_h { next_w } else { next_h };
        if longer < max_edge {
            return level;
        }
        w = next_w;
        h = next_h;
        level += 1;
    }
    level
}


// ---------------------------------------------------------------------------
// One layer and mip for the viewer
// ---------------------------------------------------------------------------

/// `index` held to `0..count`, and `0` when there is nothing.
pub open spec fn clamped_index(index: usize, count: nat) -> int {
    if count == 0 {
        0
    } else if index < count {
        index as int
    } else {
        count - 1
    }
}

/// The layer and mip the viewer shows for the asked ones: each held to what
/// the surfaces have.
pub open spec fn shown_mip(surfaces: Texture2dSurfaces, layer_index: usize, mip_index: usize) -> (int, int) {
    let layer = clamped_index(layer_index, surfaces.layers@.len());
    let mip = if layer < surfaces.layers@.len() {
        clamped_index(mip_index, surfaces.layers@[layer].mips@.len())
    } else {
        0
    };
    (layer, mip)
}

/// The viewer's description of a texture level.
pub open spec fn texture_type_label(surfaces: Texture2dSurfaces, layer: int, missing_tiles: usize) -> Seq<char> {
    "Texture2D"@ + (if surfaces.is_virtual {
        " • virtual"@
    } else {
        Seq::empty()
    }) + (if surfaces.is_udim {
        " • "@ + decimal(surfaces.width_in_blocks as nat) + "x"@ + decimal(
            surfaces.height_in_blocks as nat,
        ) + " UDIM"@
    } else {
        Seq::empty()
    }) + (if surfaces.layers@.len() > 1 {
        " • layer "@ + decimal(layer as nat)
    } else {
        Seq::empty()
    }) + (if missing_tiles > 0 {
        " • some blocks magnified (authored lower-resolution)"@
    } else {
        Seq::empty()
    })
}

fn clamp_index(index: usize, count: usize) -> (out: usize)
    ensures
        out == clamped_index(index, count as nat),
{
    if count == 0 {
        0
    } else if index < count {
        index
    } else {
        count - 1
    }
}

/// The layer and mip the viewer shows when asked for `layer_index` and
/// `mip_index`: the ones whose pixels are to be expanded.
pub fn chimp_texture_mip_indices(surfaces: &Texture2dSurfaces, layer_index: usize, mip_index: usize) -> (out: (usize, usize))
    ensures
        out.0 == shown_mip(*surfaces, layer_index, mip_index).0,
        out.1 == shown_mip(*surfaces, layer_index, mip_index).1,
{
    let layer = clamp_index(layer_index, surfaces.layers.len());
    let mip = if layer < surfaces.layers.len() {
        clamp_index(mip_index, surfaces.layers[layer].mips.len())
    } else {
        0
    };
    (layer, mip)
}

/// One layer and mip of a decoded texture in the shared bitmap viewer's
/// model. `rgba` is that level's pixels, expanded at the indices
/// `chimp_texture_mip_indices` gives, or why they could not be. Layer and mip
/// counts come from the surfaces, so the viewer's steppers work unchanged.
pub fn chimp_texture_mip_data(
    surfaces: &Texture2dSurfaces,
    layer_index: usize,
    mip_index: usize,
    rgba: Result<Vec<u8>, String>,
) -> (out: Result<BitmapPreviewData, String>)
    ensures
        ({
            let (layer, mip) = shown_mip(*surfaces, layer_index, mip_index);
            if surfaces.layers@.len() == 0 {
                out matches Err(e) && e@ == "texture has no layers"@
            } else if surfaces.layers@[layer].mips@.len() == 0 {
                out matches Err(e) && e@ == "texture layer has no mip 0"@
            } else {
                let level = surfaces.layers@[layer].mips@[mip];
                match rgba {
                    Err(error) => out matches Err(e) && e@ == error@,
                    Ok(pixels) => out matches Ok(data) && {
                        &&& data.width == level.width
                        &&& data.height == level.height
                        &&& data.image_count == surfaces.layers@.len()
                        &&& data.mip_count == surfaces.layers@[layer].mips@.len()
                        &&& data.format_name@ == level.pixel_format@
                        &&& data.type_label@ == texture_type_label(*surfaces, layer, level.missing_tiles)
                        &&& data.rgba@ == pixels@
                    },
                }
            }
        }),
{
    let (layer, mip) = chimp_texture_mip_indices(surfaces, layer_index, mip_index);
    if surfaces.layers.len() == 0 {
        return Err(string_of(&chars_of("texture has no layers")));
    }
    let mips = &surfaces.layers[layer].mips;
    if mips.len() == 0 {
        return Err(string_of(&chars_of("texture layer has no mip 0")));
    }
    let level = &mips[mip];
    let pixels = match rgba {
        Ok(pixels) => pixels,
        Err(error) => {
            return Err(error);
        },
    };
    let mut name = chars_of("Texture2D");
    let ghost n0 = name@;
    if surfaces.is_virtual {
        push_str(&mut name, " • virtual");
    }
    let ghost n1 = name@;
    if surfaces.is_udim {
        push_str(&mut name, " • ");
        push_decimal(&mut name, surfaces.width_in_blocks as u64);
        push_str(&mut name, "x");
        push_decimal(&mut name, surfaces.height_in_blocks as u64);
        push_str(&mut name, " UDIM");
    }
    let ghost n2 = name@;
    if surfaces.layers.len() > 1 {
        push_str(&mut name, " • layer ");
        push_decimal(&mut name, layer as u64);
    }
    let ghost n3 = name@;
    if level.missing_tiles > 0 {
        push_str(&mut name, " • some blocks magnified (authored lower-resolution)");
    }
    proof {
        let s = *surfaces;
        let v: Seq<char> = if s.is_virtual { " • virtual"@ } else { Seq::empty() };
        let u: Seq<char> = if s.is_udim {
            " • "@ + decimal(s.width_in_blocks as nat) + "x"@ + decimal(s.height_in_blocks as nat) + " UDIM"@
        } else {
            Seq::empty()
        };
        let l: Seq<char> = if s.layers@.len() > 1 { " • layer "@ + decimal(layer as nat) } else { Seq::empty() };
        let m: Seq<char> = if level.missing_tiles > 0 {
            " • some blocks magnified (authored lower-resolution)"@
        } else {
            Seq::empty()
        };
        assert(n1 =~= n0 + v);
        assert(n2 =~= n0 + v + u);
        assert(n3 =~= n0 + v + u + l);
        assert(name@ =~= n0 + v + u + l + m);
    }
    Ok(BitmapPreviewData {
        width: level.width,
        height: level.height,
        image_count: surfaces.layers.len(),
        mip_count: mips.len(),
        format_name: level.pixel_format.clone(),
        type_label: string_of(&name),
        rgba: pixels,
    })
}

} // verus!
