use std::collections::HashSet;
use std::io::Cursor;
use std::sync::Arc;

use siglus_scene_vm::assets::{load_image_any, ImageError, RgbaImage};
use siglus_scene_vm::composed_descriptor::{
    g00_composite_component_names, normalized_g00_composite_descriptor,
    parse_g00_composite_descriptor, DescriptorError,
};
use siglus_scene_vm::font_fallback::{
    fallback_sources, font_covers, insert_lru, is_supported_font_path, note_primary_font,
    platform_fallback_candidates, read_setting, runtime_candidates, ChainSetting, FallbackState,
    FontPlatform, RasterKey, ResolveStep,
};
use siglus_scene_vm::glyph_atlas::{
    character, compose, enabled, ink_bbox, is_empty_cut, row_from_stem, template, AtlasTemplate,
    RasterGlyph,
};
use siglus_scene_vm::image_compose::{
    compose_cg_base_delta_image, compose_g00_cut, compose_g00_pixel,
};
use siglus_scene_vm::image_loading::{
    cg_base_path, check_canvas, cut_of, ComposeStep, LoadStep, WantedFile,
};
use siglus_scene_vm::image_manager::{
    Color, CompositeKey, ImageKey, ImageManager, ImageManagerError,
};
use siglus_scene_vm::image_store::ImageId;
use siglus_scene_vm::jpeg_backend::{accept, prepare};
use siglus_scene_vm::movie::preview_cache::PreviewCache;

fn rgba(width: u32, height: u32, center: (i32, i32), rgba: Vec<u8>) -> RgbaImage {
    RgbaImage { width, height, center_x: center.0, center_y: center.1, rgba }
}

fn pixel() -> RgbaImage {
    rgba(1, 1, (0, 0), vec![255; 4])
}

fn wanted(path: &str, as_it_stands: Option<&str>, in_project: Option<&str>) -> WantedFile {
    WantedFile {
        path: path.to_string(),
        as_it_stands: as_it_stands.map(str::to_string),
        in_project: in_project.map(str::to_string),
    }
}

fn key(path: &str, frame_index: usize) -> ImageKey {
    ImageKey { path: path.to_string(), frame_index }
}

#[test]
fn cache_budget_evicts_cold_albums_atomically_but_keeps_live_animation() {
    let mut images = ImageManager::new(".".to_string());
    images.cache_budget_bytes = 8;
    let mut albums: Vec<Vec<ImageId>> = Vec::new();
    for name in ["live.g00", "cold.g00"] {
        let ids: Vec<ImageId> = (0..2).map(|_| images.insert_image(pixel())).collect();
        for (frame_index, id) in ids.iter().enumerate() {
            images.key_to_id.insert(key(name, frame_index), *id);
        }
        images.g00_album_to_ids.insert(name.to_string(), ids.clone());
        albums.push(ids);
    }
    let roots: HashSet<u32> = [albums[0][0].0].into_iter().collect();
    assert_eq!(images.collect_cached_assets(&roots), 2);
    assert_eq!(images.resident_bytes(), 8);
    for id in &albums[0] {
        assert!(images.get(*id).is_some());
    }
    for id in &albums[1] {
        assert!(images.get(*id).is_none());
    }
    assert!(!images.g00_album_to_ids.contains_key(&"cold.g00".to_string()));
    assert!(images.key_to_id.entries.iter().all(|e| albums[0].contains(&e.1)));
    let next = images.insert_image(pixel());
    assert!(next.0 > albums[1][1].0, "evicted IDs must never alias new pixels");
}

#[test]
fn cache_keeps_external_owners_and_non_reconstructible_images() {
    let mut images = ImageManager::new(".".to_string());
    images.cache_budget_bytes = 0;
    let generated = images.insert_image(pixel());
    let held = images.insert_image(pixel());
    images.key_to_id.insert(key("held.png", 0), held);
    let owner = images.get(held).unwrap().clone();
    assert_eq!(images.collect_cached_assets(&Default::default()), 0);
    drop(owner);
    assert_eq!(images.collect_cached_assets(&Default::default()), 1);
    assert!(images.get(generated).is_some());
    assert_eq!(images.resident_bytes(), 4);
}

#[test]
fn debug_info_reports_composed_descriptor_origin() {
    let mut images = ImageManager::new(".".to_string());
    let id = images.insert_image(rgba(1, 1, (0, 0), vec![255, 255, 255, 255]));
    images.composite_to_id.insert(
        CompositeKey {
            append_dir: "PDT".to_string(),
            descriptor: "base(0,0,0)|face(0,0,2)".to_string(),
        },
        id,
    );
    let info = images.debug_image_info(id).expect("debug image info");
    assert_eq!(info.composite_append_dir.as_deref(), Some("PDT"));
    assert_eq!(info.composite_descriptor.as_deref(), Some("base(0,0,0)|face(0,0,2)"));
    assert!(info.source_path.is_none());
    assert!(info.frame_index.is_none());
}

#[test]
fn parses_siglus_composed_descriptor() {
    let parts = parse_g00_composite_descriptor(
        " bs3_rk2_base41(0, 0, 0) | bs3_rk2_face001(12, -3, 4, blend=1) ",
    )
    .expect("composed descriptor");
    assert_eq!(parts.len(), 2);
    assert_eq!(parts[0].file_name, "bs3_rk2_base41");
    assert_eq!((parts[0].x, parts[0].y, parts[0].cut_no, parts[0].blend_type), (0, 0, 0, 0));
    assert_eq!(parts[1].file_name, "bs3_rk2_face001");
    assert_eq!((parts[1].x, parts[1].y, parts[1].cut_no, parts[1].blend_type), (12, -3, 4, 1));
}

#[test]
fn descriptors_that_are_not_composed_are_refused() {
    assert_eq!(parse_g00_composite_descriptor("a").err(), Some(DescriptorError::NotComposed));
    assert_eq!(parse_g00_composite_descriptor("a(0,0|b").err(), Some(DescriptorError::Unterminated));
    assert_eq!(
        parse_g00_composite_descriptor("a(x,0,0)|b").err(),
        Some(DescriptorError::InvalidX)
    );
    assert_eq!(
        parse_g00_composite_descriptor("a(0,0,0)x|b").err(),
        Some(DescriptorError::UnexpectedCharacter)
    );
    assert_eq!(
        normalized_g00_composite_descriptor(" a (0, 1, 2) | b "),
        normalized_g00_composite_descriptor("a(0,1,2)|b")
    );
    assert_eq!(
        g00_composite_component_names("a(0,0,0)|b(1,1,0)"),
        Some(vec!["a".to_string(), "b".to_string()])
    );
}

#[test]
fn composed_cut_uses_base_and_overlay_centers() {
    let mut base = rgba(4, 4, (2, 2), vec![0; 4 * 4 * 4]);
    let overlay = rgba(2, 2, (1, 1), vec![255; 2 * 2 * 4]);
    compose_g00_cut(&mut base, &overlay, 1, 1, 0);
    for y in 0..4usize {
        for x in 0..4usize {
            let alpha = base.rgba[(y * 4 + x) * 4 + 3];
            assert_eq!(alpha, if (1..3).contains(&x) && (1..3).contains(&y) { 255 } else { 0 });
        }
    }
    assert_eq!((base.center_x, base.center_y), (2, 2));
}

#[test]
fn cg_delta_is_restored_onto_full_base_canvas() {
    let base = rgba(4, 3, (0, 0), vec![0; 4 * 3 * 4]);
    let delta = rgba(1, 1, (-2, -1), vec![255, 0, 0, 255]);
    let composed = compose_cg_base_delta_image(&base, &delta);
    assert_eq!((composed.width, composed.height), (4, 3));
    assert_eq!((composed.center_x, composed.center_y), (0, 0));
    assert_eq!(&composed.rgba[(1 * 4 + 2) * 4..(1 * 4 + 3) * 4], &[255, 0, 0, 255]);
    assert_eq!(composed.rgba.iter().filter(|&&value| value != 0).count(), 2);
}

#[test]
fn cg_base_path_only_matches_delta_g00_names() {
    assert_eq!(
        cg_base_path("g00/cg_sr09_0101.g00"),
        Some("g00/cg_sr09_0101__base.g00".to_string())
    );
    assert!(cg_base_path("g00/CG_SR09_0101__BASE.G00").is_none());
    assert!(cg_base_path("g00/chr_0101.g00").is_none());
    assert!(cg_base_path("g00/cg_sr09_0101.png").is_none());
}

#[test]
fn opaque_add_source_still_uses_tona_add_equation() {
    let mut base = rgba(1, 1, (0, 0), vec![20, 40, 60, 128]);
    let overlay = rgba(1, 1, (0, 0), vec![200, 100, 50, 255]);
    compose_g00_cut(&mut base, &overlay, 0, 0, 1);
    let expected = |sc: i64, dc: i64| {
        let sa = 255i64;
        let da = 128i64;
        let ra = 255i64;
        ((sa * da * (sc + dc).min(255) + sa * (255 - da) * sc + (255 - sa) * da * dc) / ra / 255)
            as u8
    };
    assert_eq!(base.rgba, vec![expected(200, 20), expected(100, 40), expected(50, 60), 255]);
}

#[test]
fn composed_alpha_matches_tona_integer_equation() {
    let mut base = rgba(1, 1, (0, 0), vec![20, 40, 60, 128]);
    let overlay = rgba(1, 1, (0, 0), vec![200, 100, 50, 128]);
    compose_g00_cut(&mut base, &overlay, 0, 0, 0);
    let sa = 128i64;
    let da = 128i64;
    let ra = sa + da - sa * da / 255;
    let expected =
        |sc: i64, dc: i64| ((((255 * sa * sc) + ((255 - sa) * da * dc)) >> 8) / ra) as u8;
    assert_eq!(
        base.rgba,
        vec![expected(200, 20), expected(100, 40), expected(50, 60), ra as u8]
    );
}

#[test]
fn composed_cut_fast_rows_match_scalar_across_alpha_modes_and_clipping() {
    for width in [1u32, 3, 4, 5, 17] {
        for alpha_mode in 0..3 {
            let make = |salt: usize| {
                rgba(
                    width,
                    5,
                    (0, 0),
                    (0..width as usize * 5 * 4)
                        .map(|i| {
                            if i % 4 == 3 {
                                match alpha_mode {
                                    0 => 255,
                                    1 => [0, 255][(i / 4 + salt) % 2],
                                    _ => [0, 1, 127, 254, 255][(i / 4 + salt) % 5],
                                }
                            } else {
                                (i * 71 + salt * 43) as u8
                            }
                        })
                        .collect(),
                )
            };
            let source = make(2);
            for (x, y) in [(-2, -1), (0, 0), (1, 2), (20, 0)] {
                for blend in [0, 1, 2, 3, -1] {
                    let mut actual = make(1);
                    let mut expected = actual.clone();
                    for sy in 0..5i32 {
                        for sx in 0..width as i32 {
                            let (dx, dy) = (sx + x, sy + y);
                            if dx < 0 || dy < 0 || dx >= width as i32 || dy >= 5 {
                                continue;
                            }
                            let si = (sy as usize * width as usize + sx as usize) * 4;
                            let di = (dy as usize * width as usize + dx as usize) * 4;
                            let at = |v: &Vec<u8>, i: usize| [v[i], v[i + 1], v[i + 2], v[i + 3]];
                            let mixed = compose_g00_pixel(
                                at(&expected.rgba, di),
                                at(&source.rgba, si),
                                blend,
                            );
                            expected.rgba[di..di + 4].copy_from_slice(&mixed);
                        }
                    }
                    compose_g00_cut(&mut actual, &source, x, y, blend);
                    assert_eq!(
                        actual.rgba, expected.rgba,
                        "width={width} alpha={alpha_mode} offset=({x},{y}) blend={blend}"
                    );
                }
            }
        }
    }
}

#[test]
fn pictures_are_loaded_step_by_step() {
    let mut images = ImageManager::new("game".to_string());
    let step = images.load_g00("bg01", 0, Some(wanted("g00/bg01.g00", Some("g00/bg01.g00"), None)));
    assert!(matches!(step, Ok(LoadStep::NeedAlbum)));
    images.insert_g00_album("g00/bg01.g00", vec![pixel(), pixel()]).unwrap();
    let ready = images.load_g00("bg01", 1, Some(wanted("g00/bg01.g00", Some("g00/bg01.g00"), None)));
    assert!(matches!(ready, Ok(LoadStep::Ready(ImageId(1)))));
    let missing = images.load_g00("bg01", 2, Some(wanted("g00/bg01.g00", Some("g00/bg01.g00"), None)));
    assert!(matches!(
        missing,
        Err(ImageManagerError::FrameOutOfRange { index: 2, count: 2 })
    ));
    assert!(matches!(images.load_g00("x", 0, None), Err(ImageManagerError::NotFound)));
    assert!(matches!(images.load_bg(None), Err(ImageManagerError::NotFound)));
    let png = key("bg/a.png", 0);
    assert!(matches!(images.load_picture(&png), Ok(LoadStep::NeedImage)));
    let id = images.insert_file_image(key("bg/a.png", 0), pixel());
    assert!(matches!(images.load_picture(&png), Ok(LoadStep::Ready(found)) if found == id));
    let file = wanted("BG/a.png", Some("bg/a.png"), None);
    assert!(matches!(images.load_file(&file, 0), Ok(LoadStep::Ready(found)) if found == id));
    assert!(matches!(
        images.insert_g00_album("g00/none.g00", vec![]),
        Err(ImageManagerError::NoFrames)
    ));
}

#[test]
fn relative_paths_are_relative_to_the_game() {
    let images = ImageManager::new("game".to_string());
    assert_eq!(images.file_path(&wanted("bg/a.png", None, None)), "game/bg/a.png");
    assert_eq!(images.file_path(&wanted("bg/a.png", None, Some("game/BG/A.png"))), "game/BG/A.png");
    assert_eq!(images.file_path(&wanted("bg/a.png", Some("BG/a.png"), None)), "BG/a.png");
    assert_eq!(
        images.file_path(&wanted("bg/a.png", Some("BG/a.png"), Some("game/BG/A.png"))),
        "game/BG/A.png"
    );
    assert_eq!(images.file_path(&wanted("/bg/a.png", None, None)), "/bg/a.png");
    assert_eq!(
        images.file_path(&wanted("/bg/a.png", Some("/BG/a.png"), Some("game/a.png"))),
        "/BG/a.png"
    );
}

#[test]
fn files_of_the_game_come_before_others_of_the_same_path() {
    let mut images = ImageManager::new("game".to_string());
    let other = images.insert_file_image(key("a.png", 0), rgba(1, 1, (0, 0), vec![1, 1, 1, 1]));
    let own = images.insert_file_image(key("game/a.png", 0), rgba(1, 1, (0, 0), vec![2, 2, 2, 2]));
    let both = wanted("a.png", Some("a.png"), Some("game/a.png"));
    assert!(matches!(images.load_file(&both, 0), Ok(LoadStep::Ready(found)) if found == own));
    assert_eq!(images.get(own).unwrap().rgba, vec![2, 2, 2, 2]);
    let outside = wanted("a.png", Some("a.png"), None);
    assert!(matches!(images.load_file(&outside, 0), Ok(LoadStep::Ready(found)) if found == other));
}

#[test]
fn owners_keep_images_and_counts_decide() {
    let mut images = ImageManager::new("game".to_string());
    images.cache_budget_bytes = 0;
    let ids: Vec<ImageId> = (0..3).map(|_| images.insert_image(pixel())).collect();
    for (i, id) in ids.iter().enumerate() {
        images.key_to_id.insert(key("a.png", i), *id);
    }
    let roots: HashSet<u32> = [ids[2].0].into_iter().collect();
    assert_eq!(images.live_places(&roots, &vec![1, 2, 1]), vec![false, true, true]);
    let owner = Arc::clone(images.get(ids[1]).unwrap());
    assert_eq!(images.collect_cached_assets(&roots), 1);
    assert!(images.get(ids[0]).is_none());
    assert!(images.get(ids[1]).is_some());
    assert_eq!(images.live_places(&roots, &vec![5, 1, 1]), vec![false, false, true]);
    drop(owner);
    assert_eq!(images.collect_cached_assets(&roots), 1);
    assert!(images.get(ids[1]).is_none());
    assert_eq!(images.resident_bytes(), 4);
}

#[test]
fn bytes_are_counted_through_all_changes() {
    let mut images = ImageManager::new("game".to_string());
    let white = images.solid_rgba(Color { r: 255, g: 255, b: 255, a: 255 });
    let black = images.solid_rgba(Color { r: 0, g: 0, b: 0, a: 255 });
    assert_ne!(white, black);
    assert_eq!(images.resident_bytes(), 8);
    assert_eq!(images.solid_rgba(Color { r: 255, g: 255, b: 255, a: 255 }), white);
    assert_eq!(images.resident_bytes(), 8);
    let id = images.insert_image(pixel());
    images.replace_image(id, rgba(2, 1, (0, 0), vec![7; 8])).unwrap();
    assert_eq!(images.resident_bytes(), 16);
    images.insert_g00_album("a.g00", vec![pixel(), pixel()]).unwrap();
    assert_eq!(images.resident_bytes(), 24);
    let parts = match images.load_g00_composed("a(0,0,0)|b(0,0,0)") {
        Ok(ComposeStep::Compose(parts)) => parts,
        other => panic!("unexpected {other:?}"),
    };
    assert!(check_canvas(&parts[0]).is_ok());
    let blank = match images.load_g00_composed("(0,1,0)|b(0,0,0)") {
        Ok(ComposeStep::Compose(parts)) => parts,
        other => panic!("unexpected {other:?}"),
    };
    assert!(matches!(check_canvas(&blank[0]), Err(ImageManagerError::BlankBase)));
    let refused = images.compose_g00("(0,1,0)|b(0,0,0)", &blank, &vec![None, Some(id)]);
    assert!(matches!(refused, Err(ImageManagerError::BlankBase)));
    let missing = images.compose_g00("a(0,0,0)|b(0,0,0)", &parts, &vec![Some(id), None]);
    assert!(matches!(missing, Err(ImageManagerError::MissingImage)));
    assert_eq!(images.resident_bytes(), 24);
    images.compose_g00("a(0,0,0)|b(0,0,0)", &parts, &vec![Some(id), Some(white)]).unwrap();
    assert_eq!(images.resident_bytes(), 32);
    assert_eq!(images.get(black).unwrap().rgba, vec![0, 0, 0, 255]);
}

#[test]
fn composed_pictures_are_drawn_once() {
    let mut images = ImageManager::new("game".to_string());
    let base = images.insert_image(rgba(2, 1, (0, 0), vec![1, 1, 1, 255, 2, 2, 2, 255]));
    let face = images.insert_image(rgba(1, 1, (0, 0), vec![9, 9, 9, 255]));
    let parts = match images.load_g00_composed("base(0,0,0)|face(1,0,0)") {
        Ok(ComposeStep::Compose(parts)) => parts,
        other => panic!("unexpected {other:?}"),
    };
    let id = images
        .compose_g00("base(0,0,0)|face(1,0,0)", &parts, &vec![Some(base), Some(face)])
        .unwrap();
    assert_eq!(images.get(id).unwrap().rgba, vec![1, 1, 1, 255, 9, 9, 9, 255]);
    assert!(matches!(
        images.load_g00_composed(" base(0, 0, 0)|face(1,0,0)"),
        Ok(ComposeStep::Ready(found)) if found == id
    ));
}

#[test]
fn differences_are_drawn_over_their_base_once() {
    let mut images = ImageManager::new("game".to_string());
    images.set_current_append_dir("one".to_string());
    images.set_current_append_dir_ref("two");
    assert_eq!(images.current_append_dir(), "two");
    let base = images.insert_image(rgba(2, 1, (0, 0), vec![1, 1, 1, 255, 2, 2, 2, 255]));
    let delta = images.insert_image(rgba(2, 1, (0, 0), vec![9, 9, 9, 255, 0, 0, 0, 0]));
    let whole = images.compose_cg_base_delta("g00/cg01_1.g00", 0, delta, base).unwrap();
    assert_eq!(images.get(whole).unwrap().rgba, vec![9, 9, 9, 255, 2, 2, 2, 255]);
    let again = images.compose_cg_base_delta("g00/cg01_1.g00", 0, delta, base).unwrap();
    assert_eq!(again, whole);
    let album = vec![base, delta];
    assert_eq!((cut_of(&album, -3), cut_of(&album, 1), cut_of(&album, 8)), (base, delta, delta));
    images.g00_album_to_ids.insert("cg.g00".to_string(), album);
    let mut live: HashSet<u32> = [base.0].into_iter().collect();
    images.pin_live_albums(&mut live);
    assert!(live.contains(&delta.0) && !live.contains(&whole.0));
    let once = live.clone();
    images.pin_live_albums(&mut live);
    assert_eq!(live, once);
}

#[test]
fn images_are_shared_replaced_and_filled() {
    let mut images = ImageManager::new("game".to_string());
    let red = images.solid_rgba(Color { r: 255, g: 0, b: 0, a: 255 });
    assert_eq!(images.solid_rgba(Color { r: 255, g: 0, b: 0, a: 255 }), red);
    assert_eq!(images.get(red).unwrap().rgba, vec![255, 0, 0, 255]);
    let version = images.get_entry(red).unwrap().1;
    images.replace_image(red, rgba(1, 2, (0, 0), vec![7; 8])).unwrap();
    assert!(images.get_entry(red).unwrap().1 > version);
    assert_eq!(images.resident_bytes(), 8);
    let share = images.take_share(red).unwrap();
    assert!(Arc::ptr_eq(&share, images.get(red).unwrap()));
    assert!(matches!(
        images.replace_image(ImageId(44), pixel()),
        Err(ImageManagerError::InvalidImageId(ImageId(44)))
    ));
}

fn empty_cut() -> RgbaImage {
    rgba(1, 1, (0, 0), vec![0, 0, 0, 0])
}

/// A stand-in atlas cut: an opaque black bar with a white outline.
fn cut(ink_height: u32, outline_px: i32) -> RgbaImage {
    let (width, height) = (48u32, 40u32);
    let mut pixels = vec![0u8; (width * height * 4) as usize];
    let ink_top = (height - ink_height) / 2;
    let ink_bottom = ink_top + ink_height;
    for y in ink_top..ink_bottom {
        for x in 8..40 {
            let index = ((y * width + x) * 4) as usize;
            pixels[index..index + 4].copy_from_slice(&[0, 0, 0, 255]);
        }
    }
    for y in 0..height as i32 {
        for x in 0..width as i32 {
            let index = ((y as u32 * width + x as u32) * 4) as usize;
            if pixels[index + 3] != 0 {
                continue;
            }
            let near_ink = (0..=outline_px).any(|dx| {
                (0..=outline_px).any(|dy| {
                    let inside_ink = (ink_top as i32..ink_bottom as i32).contains(&(y + dy))
                        && (8..40).contains(&(x + dx));
                    let inside_ink_neg = (ink_top as i32..ink_bottom as i32).contains(&(y - dy))
                        && (8..40).contains(&(x - dx));
                    inside_ink || inside_ink_neg
                })
            });
            if near_ink {
                pixels[index..index + 4].copy_from_slice(&[255, 255, 255, 255]);
            }
        }
    }
    rgba(width, height, (0, 0), pixels)
}

#[test]
fn atlas_rows_come_from_the_file_stem() {
    assert_eq!(row_from_stem("_moji_AN48_0084"), Some(84));
    assert_eq!(row_from_stem("_moji_SE24_0012"), Some(12));
    assert_eq!(row_from_stem("_exmoji_c01_48"), None);
    assert_eq!(row_from_stem("_moji_AN48_84"), None);
    assert_eq!(row_from_stem("bg101"), None);
}

#[test]
fn atlas_cells_decode_to_their_unicode_code() {
    assert_eq!(character(84, 189, 441), Some('酱'));
    assert_eq!(character(48, 359, 441), Some('吗'));
    assert_eq!(character(0, 0, 441), None);
}

#[test]
fn only_placeholder_cuts_look_empty() {
    assert!(is_empty_cut(&empty_cut()));
    assert!(!is_empty_cut(&cut(20, 2)));
    let mut opaque = empty_cut();
    opaque.rgba[3] = 255;
    assert!(!is_empty_cut(&opaque));
}

#[test]
fn template_measures_cell_ink_and_outline() {
    let frames = vec![empty_cut(), cut(20, 2), cut(30, 4)];
    let template = template(&frames).expect("template from real cuts");
    assert_eq!((template.width, template.height), (48, 40));
    assert_eq!(template.ink_px, 30);
    assert_eq!(template.outline_px, 4);
}

#[test]
fn composed_glyph_is_dark_inside_a_white_outline() {
    let template = AtlasTemplate { width: 16, height: 16, ink_px: 4, outline_px: 2 };
    let glyph = RasterGlyph { width: 4, height: 4, bitmap: vec![255; 16] };
    let bbox = ink_bbox(&glyph).unwrap();
    let cut = compose(&template, &glyph, bbox).unwrap();
    assert_eq!((cut.width, cut.height), (16, 16));
    let middle = (8 * 16 + 8) * 4;
    assert_eq!(cut.rgba[middle + 3], 255);
    assert_eq!(cut.rgba[middle], 0);
    assert!(cut.rgba.chunks_exact(4).any(|p| p[3] > 0 && p[0] > 200));
    assert!(!enabled(Some("0")));
}

/// Decodes with a stand-in for the host's decoder.
fn decode_with(
    host: fn(&[u8], u32, u32, &mut [u8]) -> i32,
    src: &[u8],
    width: u32,
    height: u32,
) -> Option<Vec<u8>> {
    let mut pixels = prepare(width, height)?;
    let status = host(src, width, height, &mut pixels);
    accept(status, pixels)
}

fn accepted(src: &[u8], w: u32, h: u32, dst: &mut [u8]) -> i32 {
    assert_eq!(src, [0xff, 0xd8]);
    assert_eq!((w, h, dst.len()), (2, 1, 8));
    dst.copy_from_slice(&[1, 2, 3, 255, 4, 5, 6, 255]);
    0
}

fn rejected(_: &[u8], _: u32, _: u32, _: &mut [u8]) -> i32 {
    -1
}

#[test]
fn host_decoder_output_is_owned_and_rejection_falls_back() {
    assert_eq!(
        decode_with(accepted, &[0xff, 0xd8], 2, 1).unwrap(),
        [1, 2, 3, 255, 4, 5, 6, 255]
    );
    assert!(decode_with(rejected, &[], 2, 1).is_none());
}

#[test]
fn invalid_dimensions_do_not_allocate_or_call_backend() {
    assert!(decode_with(accepted, &[], 0, 1).is_none());
    assert!(decode_with(accepted, &[], u32::MAX, u32::MAX).is_none());
    assert!(decode_with(accepted, &[], 65535, 65535).is_none());
}

fn picture(value: u8) -> Arc<RgbaImage> {
    Arc::new(rgba(1, 1, (0, 0), vec![value; 4]))
}

#[test]
fn preview_cache_is_lru_bounded_and_replacement_accounts_bytes() {
    let mut cache = PreviewCache::new();
    let a = picture(1);
    cache.insert_with_limits("a".into(), Arc::clone(&a), 8, 2);
    cache.insert_with_limits("b".into(), picture(2), 8, 2);
    assert!(Arc::ptr_eq(&cache.get("a").unwrap(), &a));
    cache.insert_with_limits("c".into(), picture(3), 8, 2);
    assert!(cache.get("b").is_none());
    assert_eq!(cache.bytes, 8);
    cache.insert_with_limits("a".into(), picture(4), 8, 2);
    assert_eq!(cache.bytes, 8);
    assert_eq!(cache.get("a").unwrap().rgba, vec![4; 4]);
    cache.insert_with_limits("oversized".into(), picture(5), 3, 2);
    assert!(cache.get("oversized").is_none());
}

#[test]
fn bmp_with_zero_alpha_decodes_opaque() {
    let width = 2u32;
    let height = 2u32;
    let pixels: [u8; 16] = [
        0x20, 0x30, 0x40, 0x00, 0x50, 0x60, 0x70, 0x00, 0x11, 0x22, 0x33, 0x00, 0x44, 0x55, 0x66,
        0x00,
    ];
    let mut bytes = Vec::new();
    bytes.extend_from_slice(b"BM");
    bytes.extend_from_slice(&(54u32 + 16).to_le_bytes());
    bytes.extend_from_slice(&0u16.to_le_bytes());
    bytes.extend_from_slice(&0u16.to_le_bytes());
    bytes.extend_from_slice(&54u32.to_le_bytes());
    bytes.extend_from_slice(&40u32.to_le_bytes());
    bytes.extend_from_slice(&(width as i32).to_le_bytes());
    bytes.extend_from_slice(&(-(height as i32)).to_le_bytes());
    bytes.extend_from_slice(&1u16.to_le_bytes());
    bytes.extend_from_slice(&32u16.to_le_bytes());
    bytes.extend_from_slice(&0u32.to_le_bytes());
    bytes.extend_from_slice(&16u32.to_le_bytes());
    bytes.extend_from_slice(&0i32.to_le_bytes());
    bytes.extend_from_slice(&0i32.to_le_bytes());
    bytes.extend_from_slice(&0u32.to_le_bytes());
    bytes.extend_from_slice(&0u32.to_le_bytes());
    bytes.extend_from_slice(&pixels);
    let image = load_image_any("save/thumb.bmp", &bytes, None, 0).expect("decode temp bmp");
    assert_eq!((image.width, image.height), (width, height));
    assert!(
        image.rgba.chunks_exact(4).all(|px| px[3] == 255),
        "all-zero BMP alpha must decode opaque: {:?}",
        image.rgba
    );
}

#[test]
fn files_are_decoded_by_their_extension() {
    let source = image::RgbaImage::from_raw(2, 1, vec![1, 2, 3, 4, 5, 6, 7, 0]).unwrap();
    let mut png = Cursor::new(Vec::new());
    source.write_to(&mut png, image::ImageFormat::Png).unwrap();
    let decoded = load_image_any("a/B.PNG", png.get_ref(), None, 0).unwrap();
    assert_eq!((decoded.width, decoded.height), (2, 1));
    assert_eq!(decoded.rgba, vec![1, 2, 3, 4, 5, 6, 7, 0]);
    assert_eq!(load_image_any("a.png", b"no", None, 0).err(), Some(ImageError::Decode));
    assert_eq!(load_image_any("a.xyz", b"", None, 0).err(), Some(ImageError::UnsupportedExtension));
    assert_eq!(load_image_any("a.DDS", b"DDS |", None, 0).err(), Some(ImageError::UnsupportedExtension));
    let frames = vec![pixel()];
    assert_eq!(load_image_any("a.g00", b"", Some(&frames), 0).unwrap().rgba, vec![255; 4]);
    assert_eq!(
        load_image_any("a.g00", b"", Some(&frames), 3).err(),
        Some(ImageError::FrameOutOfRange { index: 3, count: 1 })
    );
}

/// A face with one character, `A`.
fn tiny_font() -> Vec<u8> {
    let mut head = vec![0u8; 54];
    head[1] = 1;
    head[18..20].copy_from_slice(&1000u16.to_be_bytes());
    let mut hhea = vec![0u8; 36];
    hhea[1] = 1;
    hhea[4..6].copy_from_slice(&800i16.to_be_bytes());
    let maxp = vec![0, 0, 0x50, 0, 0, 2];
    let mut cmap = Vec::new();
    for v in [0u16, 1, 0, 3, 0, 12, 6, 12, 0, 65, 1, 1] {
        cmap.extend_from_slice(&v.to_be_bytes());
    }
    let tables: [(&[u8; 4], Vec<u8>); 4] =
        [(b"cmap", cmap), (b"head", head), (b"hhea", hhea), (b"maxp", maxp)];
    let mut out = vec![0, 1, 0, 0, 0, 4, 0, 64, 0, 2, 0, 0];
    let mut at = 12 + 16 * 4u32;
    for (tag, data) in &tables {
        out.extend_from_slice(*tag);
        out.extend_from_slice(&[0; 4]);
        out.extend_from_slice(&at.to_be_bytes());
        out.extend_from_slice(&(data.len() as u32).to_be_bytes());
        at += data.len() as u32;
    }
    for (_, data) in &tables {
        out.extend_from_slice(data);
    }
    out
}

#[test]
fn faces_cover_the_characters_they_have() {
    let font = tiny_font();
    assert!(font_covers(&font, 'A'));
    assert!(!font_covers(&font, 'B'));
    assert!(!font_covers(b"no face", 'A'));
}

#[test]
fn missing_characters_come_from_the_chain() {
    let mut st = FallbackState::new();
    note_primary_font(&mut st, "game", Some("main.ttf"));
    assert_eq!(st.generation, 1);
    note_primary_font(&mut st, "game", Some("main.ttf"));
    note_primary_font(&mut st, "game/", Some("main.ttf/."));
    assert_eq!(st.generation, 1);
    let primary = b"no face".to_vec();
    assert_eq!(st.resolve_face(&primary, 'A'), ResolveStep::NeedChain);
    st.set_chain(
        vec![
            ("a.ttf".to_string(), "env:a.ttf".to_string()),
            ("b.ttf".to_string(), "b.ttf".to_string()),
        ],
        false,
    );
    assert_eq!(st.resolve_face(&primary, 'A'), ResolveStep::NeedFont(0));
    st.set_font(0, None);
    assert_eq!(st.resolve_face(&primary, 'A'), ResolveStep::NeedFont(1));
    st.set_font(1, Some(tiny_font()));
    assert_eq!(st.resolve_face(&primary, 'A'), ResolveStep::Face(2));
    assert_eq!(st.resolve_face(&primary, 'Z'), ResolveStep::Face(0));
    assert_eq!((st.stats_miss, st.resolved_chars), (1, 2));
    assert_eq!(st.stats_face_hits, vec![0, 1]);
    assert_eq!(st.resolve_face(&tiny_font(), 'A'), ResolveStep::Face(2));
    note_primary_font(&mut st, "", None);
    assert_eq!(st.project_dir, None);
    assert_eq!(st.chain.len(), 0);
    assert_eq!(st.generation, 2);
}

#[test]
fn bounded_table_drops_the_entry_used_least_recently() {
    let mut entries: Vec<(char, (u32, u64))> = Vec::new();
    insert_lru(&mut entries, 'a', (1, 5), 2);
    insert_lru(&mut entries, 'b', (2, 4), 2);
    insert_lru(&mut entries, 'c', (3, 6), 2);
    assert_eq!(entries, vec![('a', (1, 5)), ('c', (3, 6))]);
    insert_lru(&mut entries, 'a', (9, 7), 2);
    assert_eq!(entries, vec![('a', (9, 7)), ('c', (3, 6))]);
    let mut st = FallbackState::new();
    let k = RasterKey { face: 1, ch: 'x', px: 80 };
    assert_eq!(st.find_raster(k), None);
    st.insert_raster(k, RasterGlyph { width: 1, height: 1, bitmap: vec![3] });
    assert_eq!(st.find_raster(k), Some(0));
    assert_eq!(st.raster_stamp, 2);
}

#[test]
fn chain_files_come_in_order_and_once() {
    assert!(matches!(read_setting(" OFF "), ChainSetting::Off));
    match read_setting("a.ttf: b.ttf ;;c.otf") {
        ChainSetting::Files(files) => assert_eq!(files, vec!["a.ttf", "b.ttf", "c.otf"]),
        ChainSetting::Off => panic!("not off"),
    }
    let owned = |list: &[&str]| list.iter().map(|s| s.to_string()).collect::<Vec<String>>();
    let chain = fallback_sources(
        Some("x.ttf:gone.ttf"),
        &owned(&["g/b.ttf", "g/A.ttf", "main.ttf", "g/notes.txt"]),
        &owned(&["/sys/s.ttc", "x.ttf", "/sys/gone.ttc"]),
        &owned(&["/sys/s.ttc"]),
        &owned(&["x.ttf", "/sys/s.ttc"]),
        Some("main.ttf"),
    );
    let paths: Vec<&str> = chain.iter().map(|p| p.0.as_str()).collect();
    assert_eq!(paths, vec!["x.ttf", "g/A.ttf", "g/b.ttf", "/sys/s.ttc"]);
    let names: Vec<&str> = chain.iter().map(|p| p.1.as_str()).collect();
    assert_eq!(names, vec!["env:x.ttf", "game:A.ttf", "game:b.ttf", "/sys/s.ttc"]);
    let twice = fallback_sources(
        Some("/fonts/a.ttf;/fonts//a.ttf;/fonts/./main.ttf"),
        &owned(&["/fonts/a.ttf/"]),
        &owned(&[]),
        &owned(&[]),
        &owned(&["/fonts/a.ttf", "/fonts//a.ttf", "/fonts/./main.ttf"]),
        Some("/fonts/main.ttf"),
    );
    assert_eq!(twice, vec![("/fonts/a.ttf".to_string(), "env:/fonts/a.ttf".to_string())]);
    let none = Vec::new();
    let off = fallback_sources(Some("off"), &owned(&["g/b.ttf"]), &none, &none, &none, None);
    assert!(off.is_empty());
    let windows = platform_fallback_candidates(FontPlatform::Windows, Some("D:/Win"));
    assert_eq!(windows[0], "D:/Win/Fonts/msyh.ttc");
    assert_eq!(platform_fallback_candidates(FontPlatform::Unix, None).len(), 9);
    assert_eq!(runtime_candidates(Some("/bin"))[3], "/bin/fonts/aetherkiri-runtime-cjk.otf");
    assert!(is_supported_font_path("a/B.TTC"));
    assert!(!is_supported_font_path("a/B.woff"));
}

#[test]
fn the_same_path_in_other_words_finds_the_picture() {
    let mut images = ImageManager::new("game".to_string());
    let id = images.insert_file_image(key("bg//a.png", 2), pixel());
    assert!(matches!(
        images.load_picture(&key("bg/./a.png", 2)),
        Ok(LoadStep::Ready(found)) if found == id
    ));
    assert!(matches!(images.load_picture(&key("bg/a.png", 1)), Ok(LoadStep::NeedImage)));
    images.insert_g00_album("g00//a.g00", vec![pixel()]).unwrap();
    assert!(images.g00_album_to_ids.contains_key(&"g00/a.g00".to_string()));
    let mut cache = PreviewCache::new();
    cache.insert("mov//a.omv".to_string(), Arc::new(pixel()));
    assert!(cache.get("mov/a.omv").is_some());
    cache.insert("mov/a.omv".to_string(), Arc::new(pixel()));
    assert_eq!(cache.len(), 1);
}

#[test]
fn characters_are_told_once_with_their_face() {
    let mut st = FallbackState::new();
    note_primary_font(&mut st, "game", None);
    st.set_chain(
        vec![
            ("a.ttf".to_string(), "env:a.ttf".to_string()),
            ("b.ttf".to_string(), "b.ttf".to_string()),
        ],
        false,
    );
    assert_eq!(
        st.chain_notice(),
        "[aetherkiri-font] glyph fallback chain gen=1 faces=2 [env:a.ttf, b.ttf]"
    );
    st.set_font(0, None);
    st.set_font(1, Some(tiny_font()));
    let none = b"no face".to_vec();
    let (step, report) = st.resolve_and_report(&none, 'A', true);
    assert_eq!(step, ResolveStep::Face(2));
    assert_eq!(report.source.as_deref(), Some("fallback2 b.ttf"));
    assert_eq!(report.summary, None);
    let (step, report) = st.resolve_and_report(&none, 'A', true);
    assert_eq!((step, report.source), (ResolveStep::Face(2), None));
    let (_, report) = st.resolve_and_report(&none, 'Z', false);
    assert_eq!(report.source, None);
    st.resolved_chars = 511;
    let (_, report) = st.resolve_and_report(&none, 'Y', true);
    assert_eq!(report.source.as_deref(), Some("primary"));
    assert_eq!(
        report.summary.as_deref(),
        Some("[aetherkiri-font] stats gen=1 primary=0 fallback1=0 fallback2=1 miss=2 chars=512")
    );
    assert!(st.logged_chars.contains(&u32::from('A')) && st.logged_chars.len() == 2);
    assert_eq!(st.report_choice(true, 5, 'w').source.as_deref(), Some("fallback5"));
    st.logged_chars = (0..4096).collect();
    assert_eq!(st.report_choice(true, 0, '\u{3042}').source, None);
    note_primary_font(&mut st, "other", None);
    assert!(st.logged_chars.is_empty());
}
