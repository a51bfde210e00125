use siglus_scene_vm::runtime::save_header_cache::{
    index_files, save_file_name, save_number, Moment, SaveHeaderCache, SaveSlotState, SlotStep,
    Stamp,
};
use siglus_scene_vm::runtime::scene_metadata::SceneMetadata;
use siglus_scene_vm::runtime::stream::{push_bool, push_str, StreamError, StreamReader};
use siglus_scene_vm::vm::indexed_save::{
    detect_indexed_local_layout, indexed_scene_name, probe_indexed_local_stream, IndexedLayout,
    LayoutSizes, ListForms,
};
use siglus_scene_vm::vm::local_settings::{
    read_indexed_local_settings, read_short_local_settings,
};
use siglus_scene_vm::vm::short_mwnd::restore_window;
use siglus_scene_vm::vm::short_records::{
    read_short_effect_range, read_short_group, read_short_mwnd_head, read_short_object_blend, read_short_object_clip,
    read_short_object_place, read_short_object_source_clip, read_short_page_head, read_short_pcmch,
    read_short_sound_head, read_short_sound_tail, read_short_waku, read_short_world,
};
use siglus_scene_vm::vm::short_save::{
    finish_page, frame_template, none_if_empty, normalize_short_call_returns, object_used, picture_of,
    read_object_names, read_short_btn_select,
    read_short_msg_back, read_short_object_head, restore_pages, short_object_slot_saved,
    ConfigEntry, Glyph, ShortSaveError,
};

fn window_bytes(target: i32) -> Vec<u8> {
    let mut bytes = Vec::new();
    for v in 0..38 {
        put(&mut bytes, v);
    }
    bytes.extend_from_slice(&[1; 4]);
    put(&mut bytes, 38);
    put(&mut bytes, target);
    bytes.push(1);
    put(&mut bytes, 40);
    put(&mut bytes, 41);
    bytes.push(1);
    for v in 42..48 {
        put(&mut bytes, v);
    }
    bytes
}

fn put(out: &mut Vec<u8>, v: i32) {
    out.extend_from_slice(&v.to_le_bytes());
}

#[test]
fn call_results_move_to_the_caller() {
    let mut forms = vec![0, 10, 20];
    normalize_short_call_returns(&mut forms, -1);
    assert_eq!(forms, vec![10, 20, -1]);
    let mut none: Vec<i32> = Vec::new();
    normalize_short_call_returns(&mut none, -1);
    assert!(none.is_empty());
}

#[test]
fn worlds_groups_and_channels_are_read() {
    let mut bytes = Vec::new();
    for v in 1..=12 {
        put(&mut bytes, v);
    }
    let world = read_short_world(&mut StreamReader::new(&bytes)).unwrap();
    assert_eq!((world.mode, world.camera_eye, world.mono), (1, (2, 3, 4), 12));
    let mut bytes = Vec::new();
    for v in [5, 6, -1, 9] {
        put(&mut bytes, v);
    }
    bytes.extend_from_slice(&[1, 0, 1, 7]);
    let mut rd = StreamReader::new(&bytes);
    let group = read_short_group(&mut rd).unwrap();
    assert_eq!((group.order, group.cancel_se_no, group.decided_button_no), (5, -1, 9));
    assert!(group.started && !group.wait_flag && group.cancel_flag);
    assert_eq!(rd.remaining(), 0);
    let mut bytes = Vec::new();
    push_str(&mut bytes, "rain");
    for v in [1, 2, 3, 4, 200] {
        put(&mut bytes, v);
    }
    for flag in [true, false, false, true] {
        push_bool(&mut bytes, flag);
    }
    let ch = read_short_pcmch(&mut StreamReader::new(&bytes)).unwrap();
    assert_eq!((ch.pcm_name.as_str(), ch.koe_no, ch.volume), ("rain", 1, 200));
    assert!(ch.loop_flag && ch.bgm_fade_source_flag);
    bytes.pop();
    assert_eq!(
        read_short_pcmch(&mut StreamReader::new(&bytes)).err(),
        Some(StreamError::Truncated)
    );
}

#[test]
fn sounds_and_windows_are_read() {
    let mut bytes = Vec::new();
    push_str(&mut bytes, "theme");
    put(&mut bytes, 300);
    push_bool(&mut bytes, true);
    put(&mut bytes, -4);
    put(&mut bytes, 80);
    let head = read_short_sound_head(&mut StreamReader::new(&bytes)).unwrap();
    assert_eq!(head.bgm_regist_name, "theme");
    assert_eq!((head.bgm_volume, head.koe_volume, head.pcm_volume), (255, 0, 80));
    assert!(head.bgm_loop_flag);
    let mut bytes = Vec::new();
    put(&mut bytes, 17);
    push_str(&mut bytes, "op.mpg");
    let tail = read_short_sound_tail(&mut StreamReader::new(&bytes)).unwrap();
    assert_eq!((tail.se_volume, tail.mov_file_name.as_str()), (17, "op.mpg"));
    let bytes = window_bytes(39);
    let mut rd = StreamReader::new(&bytes);
    let window = read_short_mwnd_head(&mut rd).unwrap();
    assert_eq!((window.order, window.window_pos, window.window_size), (0, (5, 6), (7, 8)));
    assert_eq!(rd.remaining(), 0);
    assert_eq!(none_if_empty(String::new()), None);
    assert_eq!(none_if_empty("a".to_string()), Some("a".to_string()));
}

#[test]
fn window_frames_have_their_color_bytes_turned() {
    let mut bytes = Vec::new();
    for v in [3, 10, 11, 12, 13] {
        put(&mut bytes, v);
    }
    bytes.extend_from_slice(&[1, 2, 3, 4]);
    bytes.extend_from_slice(&[1, 0, 9, 9]);
    for v in [77, 5, 6, 7] {
        put(&mut bytes, v);
    }
    let waku = read_short_waku(&mut StreamReader::new(&bytes)).unwrap();
    assert_eq!(waku.template_no, 3);
    assert_eq!(waku.filter_margin, (10, 11, 12, 13));
    assert_eq!(waku.filter_color, (4, 3, 2, 1));
    assert!(waku.filter_config_color && !waku.filter_config_tr);
    assert_eq!((waku.key_icon_mode, waku.key_icon_pos), (5, (6, 7)));
}

#[test]
fn history_of_messages_is_read() {
    let mut bytes = Vec::new();
    put(&mut bytes, 1);
    push_bool(&mut bytes, true);
    push_str(&mut bytes, "text");
    push_str(&mut bytes, "name");
    put(&mut bytes, 4);
    put(&mut bytes, 5);
    put(&mut bytes, 2);
    put(&mut bytes, 100);
    put(&mut bytes, 101);
    put(&mut bytes, 0);
    put(&mut bytes, 6);
    push_str(&mut bytes, "debug");
    put(&mut bytes, 7);
    put(&mut bytes, 8);
    for v in [-3, 0, 1] {
        put(&mut bytes, v);
    }
    push_bool(&mut bytes, true);
    let back = read_short_msg_back(&mut StreamReader::new(&bytes)).unwrap();
    assert_eq!((back.history_cnt, back.history.len()), (1, 256));
    let unused = &back.history[1..];
    assert!(unused.iter().all(|m| m.msg_str.is_empty() && m.koe_no_list.is_empty() && !m.pct_flag));
    let m = &back.history[0];
    assert_eq!((m.msg_str.as_str(), m.disp_name.as_str()), ("text", "name"));
    assert_eq!(m.koe_no_list, vec![100, 101]);
    assert_eq!((m.koe_play_no, m.scn_no, m.line_no), (6, 7, 8));
    assert_eq!((back.history_cnt_max, back.history_start_pos, back.history_insert_pos), (256, 0, 1));
    assert!(back.new_msg_flag);
    let many = 1000i32.to_le_bytes();
    assert_eq!(
        read_short_msg_back(&mut StreamReader::new(&many)).err(),
        Some(StreamError::InvalidCount)
    );
}

#[test]
fn plain_parts_of_objects_are_read() {
    let mut bytes = Vec::new();
    for v in 1..=11 {
        put(&mut bytes, v);
    }
    for name in ["file", "", "scene", "command"] {
        push_str(&mut bytes, name);
    }
    let mut rd = StreamReader::new(&bytes);
    let place = read_short_object_place(&mut rd).unwrap();
    assert_eq!((place.order, place.layer, place.world), (1, 2, 3));
    assert_eq!(read_short_object_clip(&mut rd).unwrap().clip_use, 4);
    let clip = read_short_object_source_clip(&mut rd).unwrap();
    assert_eq!((clip.src_clip_use, clip.src_clip), (5, (6, 7, 8, 9)));
    let blend = read_short_object_blend(&mut rd).unwrap();
    assert_eq!((blend.light_no, blend.blend), (10, 11));
    let names = read_object_names(&mut rd, 0).unwrap();
    assert_eq!(names.file_name.as_deref(), Some("file"));
    assert_eq!(names.string_value, None);
    assert_eq!((names.button_scn_name.as_str(), names.button_cmd_name.as_str()), ("scene", "command"));
    assert!(names.used);
    assert_eq!(rd.remaining(), 0);
    assert_eq!(read_object_names(&mut rd, 1).err(), Some(StreamError::Truncated));
    assert_eq!((picture_of(-1, 7, 3), picture_of(0, 7, 3)), (7, 3));
    let effect = read_short_effect_range(&mut StreamReader::new(&bytes)).unwrap();
    assert_eq!((effect.begin_order, effect.end_order), (1, 2));
    assert_eq!((effect.begin_layer, effect.end_layer), (3, 4));
    assert_eq!(frame_template(Some(2), 3), Some(2));
    assert_eq!(frame_template(Some(3), 3), None);
    assert_eq!(frame_template(Some(-1), 3), None);
    assert_eq!(frame_template(None, 3), None);
}

#[test]
fn weather_objects_and_open_choices_are_refused() {
    let mut bytes = Vec::new();
    put(&mut bytes, 4);
    for _ in 0..21 {
        put(&mut bytes, 0);
    }
    assert!(matches!(
        read_short_object_head(&mut StreamReader::new(&bytes)),
        Err(ShortSaveError::Weather)
    ));
    bytes[0] = 2;
    assert!(matches!(
        read_short_object_head(&mut StreamReader::new(&bytes)),
        Err(ShortSaveError::Stream(StreamError::Truncated))
    ));
    bytes.extend_from_slice(&[0; 72]);
    put(&mut bytes, 31);
    bytes.extend_from_slice(&[1, 0, 0, 1]);
    for v in 0..14 {
        put(&mut bytes, v);
    }
    let (base, work) = read_short_object_head(&mut StreamReader::new(&bytes)).unwrap();
    assert_eq!((base.object_type, work.thumb_save_no, work.disp), (2, 31, 13));
    assert!(work.movie_loop && work.movie_pause && work.button_enabled && work.button_push_keep);
    assert!(object_used(0, &Some("a".to_string()), &None));
    assert!(!object_used(0, &None, &None));

    let mut bytes = Vec::new();
    put(&mut bytes, 1);
    bytes.extend_from_slice(&[0; 104]);
    bytes.extend_from_slice(&[1, 0, 1]);
    let mut open = bytes.clone();
    put(&mut bytes, 0);
    assert!(read_short_btn_select(&mut StreamReader::new(&bytes)).unwrap().appear_flag);
    put(&mut open, 1);
    put(&mut open, 0);
    assert!(matches!(
        read_short_btn_select(&mut StreamReader::new(&open)),
        Err(ShortSaveError::ActiveSelection)
    ));
}

fn page_bytes(debug: &str) -> Vec<u8> {
    let mut bytes = Vec::new();
    for v in 0..20 {
        put(&mut bytes, if v == 10 { -1 } else { v });
    }
    bytes.extend_from_slice(&0x3042u16.to_le_bytes());
    put(&mut bytes, 1);
    put(&mut bytes, 2);
    bytes.extend_from_slice(&[1, 0]);
    put(&mut bytes, 3);
    put(&mut bytes, 4);
    bytes.push(1);
    put(&mut bytes, 5);
    put(&mut bytes, 6);
    push_str(&mut bytes, debug);
    push_str(&mut bytes, "");
    bytes
}

fn glyph(code: i64, ruby: bool) -> Glyph {
    Glyph { moji_type: 0, code, ruby, reveal_index: 0 }
}

#[test]
fn pages_get_their_text_and_numbers() {
    let head = read_short_page_head(&mut StreamReader::new(&page_bytes(""))).unwrap();
    let page = finish_page(head, vec![glyph(0x41, false), glyph(0x42, true), glyph(0x1_0043, false)]);
    assert_eq!(page.msg_text, "AC");
    assert_eq!(page.indent_moji, Some('あ'));
    assert_eq!(page.shadow_color, None);
    assert_eq!(page.moji_color, Some(9));
    assert!(page.ruby_pending.is_none());
    let numbers: Vec<usize> = page.glyphs.iter().map(|g| g.reveal_index).collect();
    assert_eq!(numbers, vec![1, 1, 2]);
    let head = read_short_page_head(&mut StreamReader::new(&page_bytes("noted"))).unwrap();
    let second = finish_page(head, vec![glyph(0x44, false)]);
    assert_eq!(second.msg_text, "noted");
    let head = read_short_page_head(&mut StreamReader::new(&page_bytes(""))).unwrap();
    let third = finish_page(head, vec![glyph(0x45, false)]);
    let mut pages = vec![page, second, third];
    restore_pages(&mut pages, 1);
    assert_eq!(pages.len(), 2);
    assert_eq!(pages[1].glyphs[0].reveal_index, 3);
}

#[test]
fn settings_decide_which_objects_are_saved() {
    let entry = |key: [&str; 3], value: &str| ConfigEntry {
        key_parts: key.iter().map(|s| s.to_string()).collect(),
        first_item: Some(value.to_string()),
    };
    let entries = vec![
        entry(["OBJECT", "2-4", "USE"], "0"),
        entry(["OBJECT", " 3 ", "USE"], "1"),
        entry(["OBJECT", "9", "SAVE"], "0"),
        entry(["OBJECT", "x", "SAVE"], "0"),
    ];
    assert!(short_object_slot_saved(&entries, 1));
    assert!(!short_object_slot_saved(&entries, 2));
    assert!(short_object_slot_saved(&entries, 3));
    assert!(!short_object_slot_saved(&entries, 9));
}

fn settings_bytes(indexed: bool) -> Vec<u8> {
    let mut bytes = Vec::new();
    for v in [11, 12, 13, 14] {
        put(&mut bytes, v);
    }
    push_str(&mut bytes, "title");
    if indexed {
        put(&mut bytes, 5);
    }
    bytes.extend_from_slice(&[1, 0]);
    if indexed {
        bytes.push(1);
    }
    bytes.extend_from_slice(&[0, 1]);
    bytes.extend_from_slice(&[0, 1, 0, 0, 0, 0, 1]);
    if indexed {
        bytes.extend_from_slice(&[1, 1]);
    }
    bytes.push(1);
    if indexed {
        put(&mut bytes, 30);
        put(&mut bytes, 40);
    }
    put(&mut bytes, 50);
    bytes.extend_from_slice(&[0, 0, 1]);
    if indexed {
        bytes.extend_from_slice(&[1, 0]);
    }
    bytes.extend_from_slice(&[1, 0]);
    let mut keys = [0u8; 256];
    keys[27] = 1;
    bytes.extend_from_slice(&keys);
    bytes.extend_from_slice(&[0, 0, 0, 0, 0, 1, 1, 1]);
    if indexed {
        bytes.extend_from_slice(&[1, 0, 1]);
    }
    bytes
}

#[test]
fn local_settings_of_both_layouts_are_read() {
    let bytes = settings_bytes(false);
    let mut rd = StreamReader::new(&bytes);
    let s = read_short_local_settings(&mut rd, 2).unwrap();
    assert_eq!(rd.remaining(), 0);
    assert_eq!((s.cur_koe_no, s.cur_chr_no, s.cursor_no, s.msg_speed), (11, 12, 0, 50));
    assert_eq!(s.current_save_scene_title, "title");
    assert_eq!(s.mwnd_btn_disable, vec![false, true]);
    assert!(s.syscom_menu_disable && s.skip_disable && s.shortcut_disable && s.auto_mode_flag);
    assert_eq!((s.auto_mode_moji_wait, s.font_bold), (-1, -1));
    assert!(s.cursor_disp_off && !s.cursor_runtime_visible);
    assert!(s.key_disable[27] && !s.key_disable[28]);
    assert!(s.quake_stop_flag && s.cg_table_off && s.bgmfade_flag && !s.dont_set_save_point);
    assert_eq!(s.replay_koe, Some((11, 12)));

    let bytes = settings_bytes(true);
    let mut rd = StreamReader::new(&bytes);
    let s = read_indexed_local_settings(&mut rd, 2).unwrap();
    assert_eq!(rd.remaining(), 0);
    assert_eq!((s.cursor_no, s.auto_mode_moji_wait, s.auto_mode_min_wait), (5, 30, 40));
    assert!(s.mwnd_btn_disable_all && s.msg_back_off && s.msg_back_disp_off && s.multi_msg_mode);
    assert!(s.dont_set_save_point && !s.ignore_r_flag && s.wait_display_vsync_off_flag);
    assert!(read_indexed_local_settings(&mut StreamReader::new(&bytes[..300]), 2).is_err());
}

#[test]
fn fronts_of_saves_are_probed() {
    let sizes = LayoutSizes { element_capacity: 1, proc_trailer_bytes: 2, settings_bytes: 3 };
    let forms = ListForms { int_list: 8, str_list: 9 };
    let mut bytes = Vec::new();
    for v in [0, 1, 2] {
        put(&mut bytes, v);
    }
    bytes.extend_from_slice(&[0; 16]);
    put(&mut bytes, 1);
    for v in [1, 8, 0] {
        put(&mut bytes, v);
    }
    push_str(&mut bytes, "p");
    bytes.extend_from_slice(&[0; 8]);
    put(&mut bytes, 0);
    put(&mut bytes, 0);
    put(&mut bytes, 1);
    put(&mut bytes, 99);
    bytes.extend_from_slice(&[0; 2]);
    put(&mut bytes, 0);
    bytes.extend_from_slice(&[0; 24 + 16]);
    push_str(&mut bytes, "scene");
    bytes.extend_from_slice(&[0; 5]);
    let mut rd = StreamReader::new(&bytes);
    assert!(probe_indexed_local_stream(&mut rd, sizes, forms, 2));
    assert_eq!(rd.remaining(), 0);
    bytes[0..4].copy_from_slice(&(-1i32).to_le_bytes());
    assert!(!probe_indexed_local_stream(&mut StreamReader::new(&bytes), sizes, forms, 2));
    assert_eq!(detect_indexed_local_layout(true, true), Some(IndexedLayout::ShortElements));
    assert_eq!(detect_indexed_local_layout(false, true), Some(IndexedLayout::Indexed));
    assert_eq!(detect_indexed_local_layout(false, false), None);
    let meta = SceneMetadata::from_rows(vec![("a".to_string(), 1)]);
    assert_eq!(indexed_scene_name(&meta, 0).as_deref(), Some("a"));
    assert_eq!(indexed_scene_name(&meta, -1), None);
    assert_eq!(indexed_scene_name(&meta, 1), None);
}

fn stamp(len: u64, secs: i64) -> Stamp {
    let at = Moment { secs, nanos: 0 };
    Stamp { len, modified: Some(at), changed: at }
}

fn file(name: &str) -> (String, String) {
    (name.to_string(), format!("savedata/{name}"))
}

fn header(year: i32) -> Option<SaveSlotState> {
    Some(SaveSlotState { exist: true, year, title: "中文 / 日本語".to_string() })
}

#[test]
fn save_files_are_known_by_their_names() {
    assert_eq!(save_file_name(7), "0007.sav");
    assert_eq!(save_file_name(123456), "123456.sav");
    assert_eq!(save_number("0007.SAV"), Some(7));
    assert_eq!(save_number("7.sav"), None);
    assert_eq!(save_number("00007.sav"), None);
    assert_eq!(save_number("12345.sav"), Some(12345));
    assert_eq!(save_number("read.sav"), None);
    let list = index_files(&vec![file("0002.SAV"), file("0002.sav"), file("x"), file("0001.sav")]);
    assert_eq!(
        list,
        vec![(2, "savedata/0002.sav".to_string()), (1, "savedata/0001.sav".to_string())]
    );
}

#[test]
fn headers_are_read_once_and_again_after_a_change() {
    let mut cache = SaveHeaderCache::new();
    assert!(cache.needs_scan("savedata", stamp(1, 1)));
    cache.take_listing("savedata", stamp(1, 1), &vec![file("0000.sav")]);
    assert!(!cache.needs_scan("savedata", stamp(1, 1)));
    assert!(cache.needs_scan("savedata", stamp(1, 2)));
    assert!(cache.needs_scan("other", stamp(1, 1)));
    assert!(!cache.needs_scan("savedata//", stamp(1, 1)));
    assert_eq!(cache.path_of(0), Some("savedata/0000.sav"));
    assert!(matches!(cache.slot_step(1, None), SlotStep::Known(s) if !s.exist));
    assert!(matches!(
        cache.slot_step(0, Some(stamp(10, 5))),
        SlotStep::Read(path) if path == "savedata/0000.sav"
    ));
    let shown = cache.set_slot(0, stamp(10, 5), header(2026));
    assert_eq!((shown.exist, shown.year), (true, 2026));
    for _ in 0..3 {
        assert!(matches!(
            cache.slot_step(0, Some(stamp(10, 5))),
            SlotStep::Known(s) if s.year == 2026
        ));
    }
    assert!(matches!(cache.slot_step(0, Some(stamp(11, 5))), SlotStep::Read(_)));
    cache.take_listing("savedata", stamp(2, 2), &vec![file("0000.sav"), file("0002.sav")]);
    assert!(matches!(
        cache.slot_step(0, Some(stamp(10, 5))),
        SlotStep::Known(s) if s.year == 2026
    ));
    let other_words = vec![("0000.sav".to_string(), "savedata/./0000.sav".to_string())];
    cache.take_listing("savedata/.", stamp(3, 3), &other_words);
    assert!(matches!(
        cache.slot_step(0, Some(stamp(10, 5))),
        SlotStep::Known(s) if s.year == 2026
    ));
    assert!(matches!(cache.slot_step(0, None), SlotStep::Known(s) if !s.exist));
    assert!(matches!(cache.slot_step(0, Some(stamp(10, 5))), SlotStep::Read(_)));
    cache.set_slot(0, stamp(10, 5), None);
    assert!(matches!(cache.slot_step(0, Some(stamp(10, 5))), SlotStep::Known(s) if !s.exist));
    cache.directory_failed();
    assert_eq!(cache.path_of(0), None);
    assert!(cache.needs_scan("savedata", stamp(2, 2)));
}

#[test]
fn windows_have_their_layout_from_the_last_page() {
    let page = |debug: &str, first: i32| {
        let mut bytes = page_bytes(debug);
        bytes[..4].copy_from_slice(&first.to_le_bytes());
        let head = read_short_page_head(&mut StreamReader::new(&bytes)).unwrap();
        finish_page(head, vec![glyph(0x41, false)])
    };
    let head = |target| read_short_mwnd_head(&mut StreamReader::new(&window_bytes(target))).unwrap();
    let window = restore_window(head(1), vec![page("a", 70), page("b", 71), page("c", 72)]);
    assert_eq!(window.window_moji_cnt, Some((72, 1)));
    assert_eq!((window.message_pos, window.moji_space), ((2, 3), Some((7, 8))));
    assert_eq!((window.message_margin, window.ruby_size), ((13, 14, 15, 16), Some(11)));
    assert_eq!(window.ruby_space, Some(12));
    assert_eq!(window.message_pages.len(), 1);
    let shown = window.shown.unwrap();
    assert_eq!((shown.msg_text.as_str(), shown.glyphs[0].reveal_index), ("b", 2));
    let empty = restore_window(head(1), vec![]);
    assert!(empty.shown.is_none() && empty.message_pages.is_empty());
    assert_eq!((empty.window_moji_cnt, empty.message_pos), (None, (9, 10)));
    let last = restore_window(head(9), vec![page("a", 1), page("b", 2)]);
    assert_eq!(last.shown.unwrap().msg_text, "b");
}
