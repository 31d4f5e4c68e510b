use baboon::extract::{
    chimp_texture_blocks, chimp_texture_file_name, ChimpTextureExport, ChimpTextureFormat,
};
use baboon::texture::{
    chimp_texture_mip_data, chimp_texture_mip_indices, first_displayable_mip, MipSurface,
    Texture2dSurfaces, TextureLayer,
};

fn mip(width: u32, height: u32, missing_tiles: usize) -> MipSurface {
    MipSurface {
        width,
        height,
        pixel_format: "BC1".to_owned(),
        missing_tiles,
    }
}

fn surfaces(layers: Vec<Vec<MipSurface>>) -> Texture2dSurfaces {
    Texture2dSurfaces {
        layers: layers.into_iter().map(|mips| TextureLayer { mips }).collect(),
        is_virtual: false,
        is_udim: false,
        width_in_blocks: 1,
        height_in_blocks: 1,
    }
}

#[test]
fn the_first_mip_a_gpu_can_hold_is_shown_first() {
    let texture = surfaces(vec![vec![mip(16384, 8192, 0), mip(8192, 4096, 0), mip(4096, 2048, 0)]]);
    assert_eq!(first_displayable_mip(&texture, 0), 1);
    assert_eq!(first_displayable_mip(&texture, 4096), 2);
    assert_eq!(first_displayable_mip(&texture, 16384), 0);
    // Nothing fits: the base mip, rather than nothing at all.
    assert_eq!(first_displayable_mip(&texture, 1024), 0);
    assert_eq!(first_displayable_mip(&surfaces(vec![]), 0), 0);
}

#[test]
fn asked_indices_are_held_to_what_the_texture_has() {
    let texture = surfaces(vec![vec![mip(4, 4, 0), mip(2, 2, 0)], vec![mip(4, 4, 0)]]);
    assert_eq!(chimp_texture_mip_indices(&texture, 0, 1), (0, 1));
    assert_eq!(chimp_texture_mip_indices(&texture, 0, 9), (0, 1));
    assert_eq!(chimp_texture_mip_indices(&texture, 7, 3), (1, 0));
    assert_eq!(chimp_texture_mip_indices(&surfaces(vec![]), 2, 2), (0, 0));
}

#[test]
fn a_level_is_described_for_the_viewer() {
    let mut texture = surfaces(vec![vec![mip(8, 4, 0), mip(4, 2, 3)], vec![mip(8, 4, 0)]]);
    texture.is_virtual = true;
    texture.is_udim = true;
    texture.width_in_blocks = 2;
    texture.height_in_blocks = 3;
    let data = chimp_texture_mip_data(&texture, 0, 5, Ok(vec![1, 2, 3, 4])).unwrap();
    assert_eq!((data.width, data.height), (4, 2));
    assert_eq!(data.image_count, 2);
    assert_eq!(data.mip_count, 2);
    assert_eq!(data.format_name, "BC1");
    assert_eq!(data.rgba, vec![1, 2, 3, 4]);
    assert_eq!(
        data.type_label,
        "Texture2D • virtual • 2x3 UDIM • layer 0 • some blocks magnified (authored lower-resolution)"
    );

    let plain = surfaces(vec![vec![mip(8, 4, 0)]]);
    let data = chimp_texture_mip_data(&plain, 0, 0, Ok(Vec::new())).unwrap();
    assert_eq!(data.type_label, "Texture2D");
}

#[test]
fn a_level_that_is_not_there_is_an_error() {
    let empty = surfaces(vec![]);
    assert_eq!(
        chimp_texture_mip_data(&empty, 0, 0, Ok(Vec::new())).err().as_deref(),
        Some("texture has no layers")
    );
    let no_mips = surfaces(vec![vec![]]);
    assert_eq!(
        chimp_texture_mip_data(&no_mips, 0, 4, Ok(Vec::new())).err().as_deref(),
        Some("texture layer has no mip 0")
    );
    let texture = surfaces(vec![vec![mip(8, 4, 0)]]);
    assert_eq!(
        chimp_texture_mip_data(&texture, 0, 0, Err("bad block".to_owned())).err().as_deref(),
        Some("bad block")
    );
}

#[test]
fn a_split_udim_set_is_written_block_by_block() {
    let mut texture = surfaces(vec![vec![mip(8, 8, 0)]]);
    texture.is_udim = true;
    texture.width_in_blocks = 3;
    texture.height_in_blocks = 2;
    let split = ChimpTextureExport { format: ChimpTextureFormat::Dds, split_udim: true };
    let whole = ChimpTextureExport { format: ChimpTextureFormat::Png, split_udim: false };
    assert_eq!(chimp_texture_blocks(split, &texture), (3, 2));
    assert_eq!(chimp_texture_blocks(whole, &texture), (1, 1));
    texture.width_in_blocks = 0;
    assert_eq!(chimp_texture_blocks(split, &texture), (1, 2));
    texture.is_udim = false;
    assert_eq!(chimp_texture_blocks(split, &texture), (1, 1));

    // Row 1, column 2 of a 3x2 set: 1001 + 10 + 2.
    assert_eq!(
        chimp_texture_file_name("T_Rock", 1, 0, (3, 2), (2, 1), ChimpTextureFormat::Dds),
        "T_Rock.1013.dds"
    );
    assert_eq!(
        chimp_texture_file_name("T_Rock", 2, 1, (3, 2), (0, 0), ChimpTextureFormat::Tiff),
        "T_Rock.layer1.1001.tif"
    );
    assert_eq!(
        chimp_texture_file_name("T_Rock", 1, 0, (1, 1), (0, 0), ChimpTextureFormat::Png),
        "T_Rock.png"
    );
}
