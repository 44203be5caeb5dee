use rosten::texture::{
    retile_layers, texture_array_from_png, texture_from_png, LayoutCache, LayoutKey,
    TextureCache, TextureError,
};

/// Encodes raw RGBA pixels as a PNG through the png crate.
fn encode_png(width: u32, height: u32, data: &[u8]) -> Vec<u8> {
    let mut out: Vec<u8> = Vec::new();
    {
        let mut encoder = png::Encoder::new(&mut out, width, height);
        encoder.set_color(png::ColorType::Rgba);
        encoder.set_depth(png::BitDepth::Eight);
        let mut writer = encoder.write_header().unwrap();
        writer.write_image_data(data).unwrap();
    }
    out
}

#[test]
fn retile_reorders_rows_into_layers() {
    // a 2x2 atlas of 1x2 tiles: four pixel rows of one pixel each; the
    // two rows of the left tile must become consecutive
    let pixels: Vec<u8> = vec![
        10, 11, 12, 13, // row 0, tile column 0
        20, 21, 22, 23, // row 0, tile column 1
        30, 31, 32, 33, // row 1, tile column 0
        40, 41, 42, 43, // row 1, tile column 1
    ];
    let out = retile_layers(&pixels, 2, 2, 1, 2);
    let expected: Vec<u8> = vec![
        10, 11, 12, 13, // layer 0 (left tile), row 0
        30, 31, 32, 33, // layer 0, row 1
        20, 21, 22, 23, // layer 1 (right tile), row 0
        40, 41, 42, 43, // layer 1, row 1
    ];
    assert_eq!(out, expected);
}

#[test]
fn retile_identity_for_single_row_tiles() {
    let pixels: Vec<u8> = (0u8..16).collect();
    let out = retile_layers(&pixels, 2, 2, 1, 1);
    assert_eq!(out, pixels);
}

#[test]
fn texture_cache_idempotent_while_alive() {
    let mut cache = TextureCache::new();
    let path = String::from("assets/textures/tiles.png");
    let data: Vec<u8> = vec![255; 4 * 2 * 2];
    let bytes = encode_png(2, 2, &data);

    let t1 = texture_from_png(&mut cache, &path, &bytes).unwrap();
    let t2 = texture_from_png(&mut cache, &path, &bytes).unwrap();
    // same path and dimensions while alive: the same underlying resource
    assert_eq!(t1, t2);
    assert_eq!(t1.width, 2);
    assert_eq!(t1.height, 2);
    assert_eq!(t1.array_layers, 1);

    // a different path is a different resource
    let other = String::from("assets/textures/other.png");
    let t3 = texture_from_png(&mut cache, &other, &bytes).unwrap();
    assert_ne!(t1.id, t3.id);
}

#[test]
fn texture_cache_recreates_after_release() {
    let mut cache = TextureCache::new();
    let path = String::from("a.png");
    let data: Vec<u8> = vec![0; 4];
    let bytes = encode_png(1, 1, &data);
    let t1 = texture_from_png(&mut cache, &path, &bytes).unwrap();
    cache.release(&path, 1, 1, 1);
    cache.release(&path, 1, 1, 1);
    let t2 = texture_from_png(&mut cache, &path, &bytes).unwrap();
    // both loads released: the resource was reclaimed and recreated
    assert_ne!(t1.id, t2.id);
}

#[test]
fn texture_rejects_undecodable_bytes() {
    let mut cache = TextureCache::new();
    let path = String::from("bad.png");
    let garbage: Vec<u8> = vec![1, 2, 3, 4, 5];
    assert_eq!(
        texture_from_png(&mut cache, &path, &garbage),
        Err(TextureError::DecodeFailure)
    );
}

#[test]
fn texture_rejects_non_rgba_format() {
    let mut cache = TextureCache::new();
    let path = String::from("gray.png");
    let mut out: Vec<u8> = Vec::new();
    {
        let mut encoder = png::Encoder::new(&mut out, 2, 2);
        encoder.set_color(png::ColorType::Grayscale);
        encoder.set_depth(png::BitDepth::Eight);
        let mut writer = encoder.write_header().unwrap();
        writer.write_image_data(&[1, 2, 3, 4]).unwrap();
    }
    assert_eq!(
        texture_from_png(&mut cache, &path, &out),
        Err(TextureError::UnsupportedFormat)
    );
}

#[test]
fn texture_array_retiles_and_counts_layers() {
    let mut cache = TextureCache::new();
    let path = String::from("atlas.png");
    let pixels: Vec<u8> = vec![
        10, 11, 12, 13, 20, 21, 22, 23, //
        30, 31, 32, 33, 40, 41, 42, 43,
    ];
    let bytes = encode_png(2, 2, &pixels);
    let (t, data) = texture_array_from_png(&mut cache, &path, &bytes, 1, 2).unwrap();
    assert_eq!(t.width, 1);
    assert_eq!(t.height, 2);
    assert_eq!(t.array_layers, 2);
    let expected: Vec<u8> = vec![
        10, 11, 12, 13, 30, 31, 32, 33, //
        20, 21, 22, 23, 40, 41, 42, 43,
    ];
    assert_eq!(data.unwrap(), expected);

    // a second load hits the cache and carries no upload data
    let (t2, data2) = texture_array_from_png(&mut cache, &path, &bytes, 1, 2).unwrap();
    assert_eq!(t, t2);
    assert!(data2.is_none());
}

#[test]
fn texture_array_requires_exact_multiple() {
    let mut cache = TextureCache::new();
    let path = String::from("atlas.png");
    let pixels: Vec<u8> = vec![0; 4 * 3 * 2];
    let bytes = encode_png(3, 2, &pixels);
    assert_eq!(
        texture_array_from_png(&mut cache, &path, &bytes, 2, 2),
        Err(TextureError::BadDimensions)
    );
}

#[test]
fn layout_cache_shares_per_stage_and_filter() {
    let mut cache = LayoutCache::new();
    let nearest = LayoutKey { shader_stages: 0x10, min_filter: 0, mag_filter: 0 };
    let linear = LayoutKey { shader_stages: 0x10, min_filter: 1, mag_filter: 1 };

    let a = cache.load_or_create(nearest);
    let b = cache.load_or_create(nearest);
    let c = cache.load_or_create(linear);
    // one layout per stage/filter combination, shared while held
    assert_eq!(a, b);
    assert_ne!(a, c);

    // dropping every holder lets the slot die; the next lookup
    // recreates the layout
    cache.release(nearest);
    cache.release(nearest);
    let d = cache.load_or_create(nearest);
    assert_ne!(a, d);
}
