use siglus_scene_vm::desktop_icon::{
    application_id, icon_candidates, is_icon_file, stable_hash,
};
use siglus_scene_vm::emote_backend::{
    error_text, register_answer, sources, target_size, BackendFacts, ControlStep, EmoteError,
    Players,
};
use siglus_scene_vm::lang_variant::{
    map_file_candidate, note_variant_file_used, selection, variant_save_dir, zh_hans, ReportState,
    Selection,
};
use siglus_scene_vm::number_text::{decimal_i64, padded_decimal, parse_i64};
use siglus_scene_vm::paths::{is_same_path, join_path, normalize_siglus_path, path_has_extension, with_extension};
use siglus_scene_vm::perf_flags::{is_set, is_truthy, slot_index, slot_key, value, FlagTable, Variable};
use siglus_scene_vm::platform_time::{
    local_log_timestamp, local_time_at, local_time_fields, log_timestamp, log_timestamp_of,
    millis_of, unix_time_millis, unix_time_secs,
    LocalTimeFields,
};
use siglus_scene_vm::runtime::capture_flags::{decode_bmp, encode as encode_capture, CaptureError};
use siglus_scene_vm::runtime::machine_names::{
    android_cpu_name, linux_cpu_name, linux_os_name, macos_cpu_name, macos_os_name, printed_text,
    windows_cpu_name, windows_os_name,
};
use siglus_scene_vm::runtime::net::{NetError, OpenExit, TnmNet};
use siglus_scene_vm::runtime::platform::{encode, parse_form, PlatformBridge};
use siglus_scene_vm::runtime::scene_metadata::{PackedScene, SceneMetadata};
use siglus_scene_vm::runtime::string_semantics::{
    ascii_upper, display_width, left_by_display_width, mid_by_display_width,
    right_by_display_width, rsearch_ascii_case_insensitive, search_ascii_case_insensitive,
    utf16_code_unit, utf16_left, utf16_len, utf16_right, utf16_slice,
};
use siglus_scene_vm::text_map::TextMap;
use siglus_scene_vm::wasm_vfs::{VfsError, WasmDirectoryVfs};

#[test]
fn utf16_script_indexes_are_not_utf8_offsets() {
    assert_eq!(search_ascii_case_insensitive("あいう", "う"), Some(2));
    assert_eq!(utf16_len("A😀B"), 4);
    assert_eq!(utf16_code_unit("A😀B", 1), Some(0xD83D));
    assert_eq!(utf16_code_unit("A😀B", 2), Some(0xDE00));
}

#[test]
fn halfwidth_katakana_counts_as_one_column() {
    assert_eq!(display_width("Aｱあ"), 4);
}

#[test]
fn mid_len_uses_absolute_display_positions_like_tstr() {
    assert_eq!(mid_by_display_width("あいう", 1, Some(2)), "");
    assert_eq!(mid_by_display_width("あいう", 2, Some(2)), "い");
}

#[test]
fn text_is_cut_by_units_and_by_columns() {
    assert_eq!(utf16_slice("abcdef", 2, Some(3)), "cde");
    assert_eq!(utf16_left("abc", 2), "ab");
    assert_eq!(utf16_right("abc", 2), "bc");
    assert_eq!(left_by_display_width("あいう", 3), "あ");
    assert_eq!(right_by_display_width("あいう", 4), "いう");
    assert_eq!(rsearch_ascii_case_insensitive("aXbx", "X"), Some(3));
    assert_eq!(ascii_upper("aあz"), "AあZ");
}

fn bmp(trailer: &[u8]) -> Vec<u8> {
    let mut bytes = vec![0; 14];
    bytes[..2].copy_from_slice(b"BM");
    bytes[2..6].copy_from_slice(&14u32.to_le_bytes());
    bytes.extend_from_slice(trailer);
    bytes
}

#[test]
fn round_trip_keeps_signed_flags_and_unicode_strings() {
    let flags = vec![-1, i32::MIN as i64, 345];
    let strings = vec!["中文 日本語 🌸\nline".into(), String::new()];
    let bytes = bmp(&encode_capture(&flags, &strings));
    assert_eq!(decode_bmp(&bytes).unwrap(), (flags, strings));
    assert_eq!(u32::from_le_bytes(bytes[2..6].try_into().unwrap()), 14);
}

#[test]
fn missing_or_truncated_metadata_is_not_success() {
    assert!(decode_bmp(&bmp(&[])).is_err());
    let mut bytes = bmp(&encode_capture(&[1], &["test".into()]));
    bytes.pop();
    assert!(decode_bmp(&bytes).is_err());
}

#[test]
fn captures_are_refused_with_their_reason() {
    assert_eq!(decode_bmp(b"PNG").err(), Some(CaptureError::NotBitmap));
    let mut bytes = bmp(&encode_capture(&[1], &[]));
    bytes[2] = 0xff;
    assert_eq!(decode_bmp(&bytes).err(), Some(CaptureError::InvalidLength));
    let mut negative = bmp(&encode_capture(&[1], &[]));
    negative[14 + 3] = 0x80;
    assert_eq!(decode_bmp(&negative).err(), Some(CaptureError::NegativeField));
}

#[test]
fn form_round_trip_preserves_unicode_paths_and_delimiters() {
    let path = "/savedata/截图 & +.bmp";
    let form = parse_form(&format!("path={}", encode(path))).unwrap();
    assert_eq!(form.get("path").unwrap(), path);
    assert!(parse_form("path=%FF").is_none());
    assert!(parse_form("path=%A").is_none());
}

#[test]
fn bridge_requests_are_numbered_and_encoded() {
    let mut bridge = PlatformBridge { attached: true, last_id: 4 };
    assert_eq!(bridge.next_id(), 5);
    let text = bridge.request("open", &[("path".to_string(), "a b".to_string())]).unwrap();
    assert_eq!(text, format!("path={}", encode("a b")));
    bridge.attached = false;
    assert_eq!(bridge.request("open", &[]), None);
    assert!(!bridge.available());
}

fn candidate(name: &str) -> Option<String> {
    map_file_candidate(name, Selection::Auto)
}

#[test]
fn maps_known_extensions() {
    assert_eq!(candidate("Gameexe.dat").as_deref(), Some("Gameexe.chs"));
    assert_eq!(candidate("Scene.pck").as_deref(), Some("Scene.chs"));
    assert_eq!(candidate("g00/bg_aaa01.g00").as_deref(), Some("g00/bg_aaa01.g01"));
    assert_eq!(candidate("dat/sfight_map.dbs").as_deref(), Some("dat/sfight_map.dbc"));
}

#[test]
fn leaves_unmapped_names_alone() {
    assert_eq!(candidate("Gameexe.chs"), None);
    assert_eq!(candidate("bgm/track01.ogg"), None);
    assert_eq!(candidate("dat/spfont.otf"), None);
    assert_eq!(candidate("Scene.pck.bak").as_deref(), None);
    assert_eq!(candidate(".dat"), None);
}

#[test]
fn extension_case_is_normalized() {
    assert_eq!(candidate("GAMEEXE.DAT").as_deref(), Some("GAMEEXE.chs"));
}

#[test]
fn original_files_are_kept_where_they_are_asked_for() {
    assert_eq!(map_file_candidate("Scene.pck", Selection::Original), None);
    assert_eq!(variant_save_dir("g", "g/savedata", Selection::Original, true), None);
    assert_eq!(zh_hans().ext_map.len(), 4);
    let mut state = ReportState::new();
    let first = note_variant_file_used(&mut state, Selection::Auto);
    assert!(first.announce && first.file);
    let second = note_variant_file_used(&mut state, Selection::Auto);
    assert!(!second.announce && second.file);
    assert_eq!(selection(None), Selection::Auto);
}

#[test]
fn numbers_are_written_and_read() {
    assert_eq!(decimal_i64(i64::MIN), "-9223372036854775808");
    assert_eq!(padded_decimal(-7, 4), "-007");
    assert_eq!(parse_i64("+12"), Some(12));
    assert_eq!(parse_i64("-9223372036854775808"), Some(i64::MIN));
    assert_eq!(parse_i64("9223372036854775808"), None);
    assert_eq!(parse_i64("1x"), None);
}

#[test]
fn paths_are_joined_and_renamed() {
    assert_eq!(join_path("a", "b"), "a/b");
    assert_eq!(join_path("a/", "/b"), "/b");
    assert_eq!(with_extension("a/b.c.d", "wav"), "a/b.c.wav");
    assert_eq!(with_extension("a/.b", "wav"), "a/.b.wav");
    assert_eq!(with_extension("a/b.", "wav"), "a/b.wav");
    assert_eq!(with_extension("a/b/", "wav"), "a/b.wav");
    assert_eq!(with_extension("a/..", "wav"), "a/..");
    assert!(path_has_extension("a/b."));
    assert!(!path_has_extension("a.b/c"));
    assert_eq!(normalize_siglus_path("a\\b/./c"), "a/b/c");
}

#[test]
fn flags_are_read_once_from_their_slots() {
    let mut flags = FlagTable::new();
    flags.push(Variable::Text("1".to_string()));
    flags.push(Variable::Text("0".to_string()));
    flags.push(Variable::Absent);
    flags.push(Variable::Bytes);
    while flags.slots.len() < 28 {
        flags.push(Variable::Absent);
    }
    let first = slot_key(0).unwrap();
    let second = slot_key(1).unwrap();
    let third = slot_key(2).unwrap();
    assert_eq!(slot_index(second), Some(1));
    assert!(is_set(&flags, first, false));
    assert!(is_set(&flags, second, false));
    assert!(is_truthy(&flags, first, None));
    assert!(!is_truthy(&flags, second, None));
    assert!(!is_set(&flags, third, true));
    let fourth = slot_key(3).unwrap();
    assert!(is_set(&flags, fourth, false));
    assert!(!is_truthy(&flags, fourth, Some("1")));
    assert_eq!(value(&flags, fourth, Some("1")), None);
    assert_eq!(value(&flags, first, None), Some("1"));
    assert_eq!(value(&flags, third, Some("1")), None);
    assert!(is_set(&flags, "SOMETHING_ELSE", true));
    assert!(is_truthy(&flags, "SOMETHING_ELSE", Some("yes")));
    assert_eq!(value(&flags, "SOMETHING_ELSE", Some("raw")), Some("raw"));
    assert_eq!(value(&flags, "SOMETHING_ELSE", None), None);
}

#[test]
fn clock_gives_a_time_of_this_century() {
    let secs = unix_time_secs();
    assert!(secs > 1_600_000_000);
    assert!(unix_time_millis() / 1000 >= secs as u128);
    let now = local_time_fields(0).unwrap();
    assert!(now.year >= 2020 && (1..=12).contains(&now.month) && (1..=31).contains(&now.day));
    assert!(now.weekday_sunday0 < 7 && now.hour < 24 && now.minute < 60);
    assert!(local_log_timestamp(0).unwrap().len() >= log_timestamp(&now).len());
}

#[test]
fn clocks_without_a_date_give_no_fields() {
    assert_eq!(local_time_at(None, 0), None);
    assert_eq!(local_time_at(Some((8_210_266_876_800, 0)), 0), None);
    assert_eq!(local_time_at(Some((u64::MAX, 0)), 0), None);
    assert_eq!(local_time_at(Some((0, 1_000_000_000)), 0), None);
    assert_eq!(local_time_at(Some((0, 0)), 86_400), None);
    assert_eq!(local_time_at(Some((0, 0)), -86_400), None);
    assert_eq!(local_time_fields(86_400), None);
    assert_eq!(local_log_timestamp(-86_400), None);
    let last = local_time_at(Some((8_210_266_876_799, 0)), 0).unwrap();
    assert_eq!((last.year, last.month, last.day), (262_142, 12, 31));
    let next = local_time_at(Some((8_210_266_876_799, 0)), 1).unwrap();
    assert_eq!((next.year, next.month, next.day, next.hour), (262_143, 1, 1, 0));
    assert_eq!(next.weekday_sunday0, (last.weekday_sunday0 + 1) % 7);
    let t = local_time_at(Some((1_700_000_000, 123_456_789)), 32_400).unwrap();
    assert_eq!((t.year, t.month, t.day, t.weekday_sunday0), (2023, 11, 15, 3));
    assert_eq!((t.hour, t.minute, t.second, t.millisecond), (7, 13, 20, 123));
    let first = local_time_at(Some((0, 0)), -1).unwrap();
    assert_eq!((first.year, first.month, first.day, first.weekday_sunday0), (1969, 12, 31, 3));
    assert_eq!((first.hour, first.minute, first.second), (23, 59, 59));
    let leap = local_time_at(Some((951_782_400, 0)), 0).unwrap();
    assert_eq!((leap.year, leap.month, leap.day), (2000, 2, 29));
    assert_eq!(log_timestamp_of(None), None);
    assert_eq!(log_timestamp_of(Some(t)), Some(log_timestamp(&t)));
    assert_eq!(millis_of(None), 0);
    assert_eq!(millis_of(Some(1_700_000_000_123)), 1_700_000_000_123);
}

#[test]
fn log_times_are_written_with_zeros() {
    let t = LocalTimeFields {
        year: 2026,
        month: 1,
        day: 2,
        weekday_sunday0: 5,
        hour: 3,
        minute: 4,
        second: 5,
        millisecond: 6,
    };
    let text = log_timestamp(&t);
    assert!(text.contains("2026") && text.contains("03:04:05"));
}

#[test]
fn icons_and_hashes() {
    assert_eq!(stable_hash(b""), 0xcbf2_9ce4_8422_2325);
    assert_eq!(stable_hash(b"a"), 0xaf63_dc4c_8601_ec8c);
    assert_ne!(application_id(b"/games/a"), application_id(b"/games/b"));
    let named = vec!["game/icon.png".to_string()];
    let files: Vec<String> =
        ["game/train.ICO", "game/a.png", "game/Bus.ico"].iter().map(|f| f.to_string()).collect();
    assert_eq!(
        icon_candidates(&named, &files),
        vec!["game/icon.png", "game/Bus.ico", "game/train.ICO"]
    );
    assert!(is_icon_file("train.ICO"));
}

#[test]
fn openers_leave_their_trace() {
    let mut net = TnmNet::new();
    assert!(net.open_url("http://x", OpenExit::Success).is_ok());
    assert_eq!(net.last_target.as_deref(), Some("http://x"));
    net.note_status(200);
    assert_eq!(net.last_status, Some(200));
    assert!(matches!(net.open_file(None, OpenExit::Success), Err(NetError::NonUtf8Path)));
    assert_eq!(net.last_status, Some(200));
    let failed = net.open_file(Some("a.txt"), OpenExit::Failed("exit code: 3".to_string()));
    assert!(matches!(failed, Err(NetError::Message(m)) if m.ends_with("exit code: 3")));
    assert_eq!(net.last_status, None);
    assert!(matches!(net.open_target("a", OpenExit::NotStarted), Err(NetError::NotStarted)));
    assert_eq!(net.last_error, None);
    let _ = net.open_target("a", OpenExit::Unsupported);
    assert_eq!(
        net.last_error.as_deref(),
        Some("external opener is not implemented on this platform")
    );
}

#[test]
fn machine_is_named_by_its_own_files() {
    let release = "NAME=x\nPRETTY_NAME=\"\"\nPRETTY_NAME=\"A \\\"B\\\" \\\\\"\r\n";
    assert_eq!(linux_os_name(Some(release), "x86_64"), "A \"B\" \\ x86_64");
    assert_eq!(linux_os_name(None, "arm"), "Linux arm");
    let info = "processor : 0\nmodel name\t:  Big   CPU @ 3GHz \nHardware : H\n";
    assert_eq!(linux_cpu_name(Some(info)), "Big CPU @ 3GHz");
    assert_eq!(linux_cpu_name(Some("model name:\nHardware: H\n")), "H");
    assert_eq!(linux_cpu_name(Some("x\n")), "不明な CPU");
}

#[test]
fn machines_are_named_by_what_they_print() {
    assert_eq!(printed_text(" a b \n").as_deref(), Some("a b"));
    assert_eq!(printed_text(" \n"), None);
    assert_eq!(
        windows_os_name(Some("Windows™  10®  Pro"), "x86_64"),
        "Windows(TM) 10(R) Pro"
    );
    assert_eq!(windows_os_name(None, "x86_64"), "Windows x86_64");
    assert_eq!(windows_cpu_name(Some("Big   CPU")), "Big CPU");
    assert_eq!(windows_cpu_name(Some("  ")), "不明な CPU");
    assert_eq!(
        macos_os_name(None, Some("14.1"), Some("23B74"), "aarch64"),
        "macOS 14.1 (23B74) aarch64"
    );
    assert_eq!(macos_os_name(Some("Mac OS X"), Some(""), None, "x86_64"), "Mac OS X x86_64");
    let report = "Hardware:\n      Chip:  \n      Processor Name:  M  One\n";
    assert_eq!(macos_cpu_name(None, Some(report), Some("Mac1,1")), "M One");
    assert_eq!(macos_cpu_name(Some("A  B"), Some(report), None), "A B");
    assert_eq!(macos_cpu_name(None, Some("x"), Some("Mac1,1")), "Mac1,1");
    assert_eq!(macos_cpu_name(None, None, None), "不明な CPU");
    assert_eq!(android_cpu_name(Some("a: b\nHardware : Q  1\n"), "arm"), "Q 1");
    assert_eq!(android_cpu_name(Some("Processor:\nHardware: H\n"), "arm"), "arm");
    assert_eq!(android_cpu_name(None, "arm"), "arm");
}

#[test]
fn scenes_are_found_by_name_and_number() {
    let packed = vec![
        PackedScene { name: Some("start".to_string()), read_flag_cnt: Some(3) },
        PackedScene { name: None, read_flag_cnt: None },
    ];
    let meta = SceneMetadata::from_pack(&packed, TextMap::new());
    assert_eq!(meta.rows[0].0, "start");
    let meta = SceneMetadata::from_rows(vec![("a".to_string(), 1), ("B".to_string(), 2)]);
    assert_eq!(meta.find_scene_no("B"), Some(1));
    assert_eq!(meta.find_scene_no("b"), Some(1));
    assert_eq!(meta.find_scene_no("c"), None);
}

/// A stand-in for the host's library: numbered players with one value each.
struct FakeLibrary {
    values: Vec<i32>,
    created: usize,
    destroyed: usize,
}

impl FakeLibrary {
    fn create(&mut self, value: i32) -> u64 {
        self.created += 1;
        self.values.push(value);
        self.values.len() as u64 - 1
    }

    fn control(&mut self, players: &mut Players, id: &mut usize, amount: i32) {
        let handle = match players.control_step(*id) {
            ControlStep::Use(handle) => handle,
            ControlStep::Fork(handle) => {
                let copy = self.create(self.values[handle as usize]);
                *id = players.forked(*id, copy);
                copy
            }
        };
        self.values[handle as usize] += amount;
    }

    fn query(&self, players: &Players, id: usize) -> i32 {
        self.values[players.instances[id].handle as usize]
    }

    fn release(&mut self, players: &mut Players, id: usize) {
        if players.release(id).is_some() {
            self.destroyed += 1;
        }
    }
}

#[test]
fn multi_sources_use_one_player_and_clones_own_independent_state() {
    let given = sources(vec![vec![1; 3], vec![2; 4]]).unwrap();
    assert_eq!(given.len(), 2);
    assert_eq!(given[0].size, 3);
    assert_eq!(given[1].size, 4);
    let mut library = FakeLibrary { values: Vec::new(), created: 0, destroyed: 0 };
    let mut players = Players::new();
    let mut player = players.created(library.create(0));
    let saved = player;
    players.share(saved);
    library.control(&mut players, &mut player, 16);
    assert_eq!(library.query(&players, player), 16);
    assert_eq!(library.query(&players, saved), 0);
    assert_eq!(target_size(1, 1), Ok(4));
    assert!(target_size(u32::MAX, 2).is_err());
    library.release(&mut players, player);
    library.release(&mut players, saved);
    assert_eq!(library.created, 2);
    assert_eq!(library.destroyed, 2);
}

#[test]
fn backends_must_be_complete() {
    let all = BackendFacts {
        version: 1,
        size: 56,
        create: true,
        destroy: true,
        clone_player: true,
        control: true,
        render_rgba: true,
    };
    assert_eq!(register_answer(Some(all), 56, false), 0);
    assert_eq!(register_answer(Some(all), 56, true), -2);
    assert_eq!(register_answer(Some(BackendFacts { control: false, ..all }), 56, false), -1);
    assert_eq!(register_answer(None, 56, false), -1);
    assert_eq!(sources(vec![]).err(), Some(EmoteError::SourceCount));
    assert_eq!(target_size(0, 5), Err(EmoteError::TargetTooLarge));
    assert_eq!(error_text(b"bad \xe5\x90\x97\0rest"), "bad 吗");
    assert_eq!(error_text(&[0, 65]), "host E-mote backend failed");
}

#[test]
fn browser_files_are_asked_for_by_resource_paths() {
    let vfs = WasmDirectoryVfs::new(7);
    assert_eq!(vfs.known_file_count(), 7);
    assert_eq!(vfs.request(".\\bgm//BGM016.nwa"), "bgm/BGM016.nwa");
    assert_eq!(vfs.request(&vfs.request("a\\.\\b/")), "a/b");
    assert!(matches!(vfs.read_all("./", Some(vec![1])), Err(VfsError::EmptyPath)));
    assert!(matches!(vfs.read_all("a//b", None), Err(VfsError::NotFound(p)) if p == "a/b"));
    assert_eq!(vfs.read_all("a", Some(vec![1, 2])).unwrap(), vec![1, 2]);
    let names = vec![Some("x".to_string()), Some("y".to_string())];
    assert_eq!(vfs.list_dir("g00", &names).unwrap(), vec!["x", "y"]);
    let mixed = vec![Some("x".to_string()), None];
    assert!(matches!(vfs.list_dir("g00/", &mixed), Err(VfsError::NotText(p)) if p == "g00"));
}

#[test]
fn paths_are_compared_part_by_part() {
    assert!(is_same_path("/fonts//a.ttf", "/fonts/a.ttf"));
    assert!(is_same_path("/fonts/./a.ttf/", "/fonts/a.ttf"));
    assert!(is_same_path("./a", ".//./a/."));
    assert!(is_same_path("", ""));
    assert!(!is_same_path("./a", "a"));
    assert!(!is_same_path("/a", "a"));
    assert!(!is_same_path("/", "."));
    assert!(!is_same_path("a/../b", "b"));
    assert!(!is_same_path("/fonts/a.ttf", "/fonts/A.ttf"));
    assert!(!is_same_path("a/b", "a/b/c"));
}

#[test]
fn bytes_behind_a_capture_do_not_matter() {
    let mut bytes = bmp(&encode_capture(&[7, -1], &["a".into(), "".into()]));
    bytes.extend([9u8; 5]);
    assert_eq!(decode_bmp(&bytes), Ok((vec![7, -1], vec!["a".to_string(), String::new()])));
}
