use std::collections::HashMap;

use siglus_scene_vm::platform_time::local_time_at;
use siglus_scene_vm::runtime::context::{
    BgmEntry, BgmTableOps, CommandContext, FormError, Gameexe, Globals, Ids, IntListOps, KeyOps,
    KeyState, PcmEventLine, PcmEventOps, PcmEventState, PcmEventType, Request, StrListOps,
    SystemState, Tables, TextOps, VmCallMeta,
};
use siglus_scene_vm::runtime::flow::{
    FlowError, HostFlowSnapshot, ProcFlow, ProcType, SyscomPendingProc, SyscomPendingProcKind,
};
use siglus_scene_vm::runtime::forms::bgm_table;
use siglus_scene_vm::runtime::forms::int_list;
use siglus_scene_vm::runtime::forms::int_list::{bit_get, bit_set, logical_size};
use siglus_scene_vm::runtime::forms::joypad;
use siglus_scene_vm::runtime::forms::pcmevent;
use siglus_scene_vm::runtime::forms::str_list;
use siglus_scene_vm::runtime::forms::system;
use siglus_scene_vm::runtime::forms::system::SystemStep;
use siglus_scene_vm::runtime::forms::timewait;
use siglus_scene_vm::runtime::stream::StreamReader;
use siglus_scene_vm::runtime::value::Value;
use siglus_scene_vm::runtime::wait::{VmWait, WaitTarget};
use siglus_scene_vm::text_map::TextMap;
use siglus_scene_vm::vm::load_wipe::load_wipe_of;
use siglus_scene_vm::vm::native_proc::{
    backlog_target, conclude, decode_native_proc, native_proc_flow, native_stage_child,
    poll_native_proc, preflight_original_local_procs, proceed, unavailable_load_text, Focus,
    NativeError, NativeFacts, NativeRecord, NativeStep, StageCodes, MIN_RECORD,
};
use siglus_scene_vm::vm::window_animation::{
    animated_windows, animation_elapsed, is_driven, poll_native_mwnd, restart_animation, ChildPlace,
    Restart, SavedAnime, WindowWork,
};

#[test]
fn packed_access_uses_signed_i32_storage() {
    let mut words = vec![0_i64];
    bit_set(25, &mut words, 8, 3, 0xAB);
    assert_eq!(bit_get(25, &words, 8, 3), 0xAB);
    assert_eq!(words[0], i64::from(0xAB00_0000u32 as i32));

    bit_set(25, &mut words, 32, 0, 0xFFFF_FFFFu32 as i64);
    assert_eq!(words[0], -1);
    assert_eq!(bit_get(25, &words, 32, 0), -1);
}

#[test]
fn packed_access_does_not_grow_or_alias() {
    let mut words = vec![0x1234_i64];
    let before = words.clone();
    bit_set(25, &mut words, 8, 4, 0xCD);
    bit_set(25, &mut words, 16, -1, 0xFFFF);
    assert_eq!(words, before);
    assert_eq!(bit_get(25, &words, 8, 4), 0);
    assert_eq!(bit_get(25, &words, 16, -1), 0);
}

#[test]
fn logical_sizes_match_cpp_views() {
    assert_eq!(logical_size(7, 1), 224);
    assert_eq!(logical_size(7, 2), 112);
    assert_eq!(logical_size(7, 4), 56);
    assert_eq!(logical_size(7, 8), 28);
    assert_eq!(logical_size(7, 16), 14);
    assert_eq!(logical_size(7, 32), 7);
}

fn no_wait() -> VmWait {
    VmWait {
        waiting_for_key: false,
        system_modal: false,
        target: WaitTarget::Nothing,
        pending_value: None,
        native_returns: false,
        native_key: false,
    }
}

fn ids() -> Ids {
    Ids {
        elm_array: -1,
        fixed_array: -2,
        fm_str: 20,
        local_int_lists: [25, 26, 27, 28, 29, 30, 31],
        global_int_lists: [32, 33],
        local_str_list: 34,
        global_str_list: 35,
        local_names: 36,
        global_names: 37,
        int_list: IntListOps {
            bit: [1, 2],
            bit2: [3, 4],
            bit4: [5, 6],
            bit8: [7, 8],
            bit16: [9, 10],
            init: 11,
            resize: 12,
            get_size: 13,
            clear: 14,
            sets: 15,
        },
        str_list: StrListOps { init: 1, resize: 2, get_size: 3, sets: 4 },
        text: TextOps {
            upper: 1,
            lower: 2,
            cnt: 3,
            len: 4,
            left: 5,
            left_len: 6,
            right: 7,
            right_len: 8,
            mid: 9,
            mid_len: 10,
            search: 11,
            search_last: 12,
            get_code: 13,
            to_num: 14,
        },
        bgm_table: BgmTableOps {
            get_count: 0,
            get_listen_by_name: 1,
            set_listen_current: 2,
            set_all_flag: 3,
        },
        pcm_event: PcmEventOps {
            start_oneshot: 0,
            start_loop: 1,
            start_random: 2,
            stop: 3,
            check: 4,
            wait: 5,
            wait_key: 6,
        },
        form_global_pcm_event: 50,
        form_global_joypad: 51,
        key: KeyOps { on_down: 0, on_up: 1, on_down_up: 2, is_down: 3, is_up: 4 },
        steam_set_achievement: 0,
        steam_reset_all_status: 1,
    }
}

fn context() -> CommandContext {
    CommandContext {
        ids: ids(),
        tables: Tables { gameexe: None },
        vm_call: None,
        stack: Vec::new(),
        globals: Globals {
            int_lists: HashMap::new(),
            str_lists: HashMap::new(),
            pcm_event_lists: HashMap::new(),
            rng_state: 1,
            bgm_table_flags: Vec::new(),
            bgm_table_all_flag: false,
            bgm_table_listened: TextMap::new(),
            system: SystemState {
                active_flag: true,
                debug_flag: false,
                debug_logs: Vec::new(),
                dummy_checks: Vec::new(),
                messagebox_history: Vec::new(),
                messagebox_response_queue: Vec::new(),
                bench_dialogs: Vec::new(),
                language_code: "ja".to_string(),
                chihaya_display_adapter_name: " GPU ".to_string(),
            },
        },
        wait: no_wait(),
        joypad: Vec::new(),
        project_dir: "game".to_string(),
        save_dir: "game/savedata".to_string(),
        current_scene_name: Some("start".to_string()),
        current_line_no: 7,
        utc_offset: 0,
        requests: Vec::new(),
    }
}

fn call(form: i32, op: i32, ret_form: i64) -> Option<VmCallMeta> {
    Some(VmCallMeta { element: vec![form, op], al_id: 0, ret_form })
}

fn bgm_context() -> CommandContext {
    let mut ctx = context();
    ctx.tables.gameexe = Some(Gameexe {
        numbers: TextMap::new(),
        bgm: vec![BgmEntry {
            first_item: Some("BGM079".to_string()),
            regist_name: Some("bgm079".to_string()),
            whole: Some("\"BGM079\",\"bgm079\"".to_string()),
        }],
    });
    ctx.globals.bgm_table_flags = vec![true];
    ctx
}

#[test]
fn get_listen_by_name_takes_opcode_from_vm_call() {
    let mut ctx = bgm_context();
    ctx.vm_call = call(40, ctx.ids.bgm_table.get_listen_by_name, 10);
    assert!(bgm_table::dispatch(&mut ctx, &[Value::Str("bgm079".into())]).unwrap());
    assert_eq!(ctx.stack.pop().and_then(|value| value.as_i64()), Some(1));
}

#[test]
fn set_listen_by_name_uses_script_arguments_without_stack_result() {
    let mut ctx = bgm_context();
    ctx.globals.bgm_table_flags[0] = false;
    ctx.vm_call = call(40, ctx.ids.bgm_table.set_listen_current, 0);
    assert!(
        bgm_table::dispatch(&mut ctx, &[Value::Str("BGM079".into()), Value::Int(1)]).unwrap()
    );
    assert_eq!(ctx.globals.bgm_table_flags[0], true);
    assert!(ctx.stack.is_empty());
}

#[test]
fn numbers_of_a_list_are_set_and_read() {
    let mut ctx = context();
    ctx.vm_call = call(99, ctx.ids.int_list.resize, 0);
    assert!(int_list::dispatch(&mut ctx, 99, &[Value::Int(4)]).unwrap());
    ctx.vm_call = call(99, ctx.ids.int_list.sets, 0);
    let given = [Value::Int(1), Value::Int(8), Value::Int(-9)];
    assert!(int_list::dispatch(&mut ctx, 99, &given).unwrap());
    assert_eq!(ctx.globals.int_lists[&99], vec![0, 8, -9, 0]);
    ctx.vm_call = call(99, ctx.ids.int_list.get_size, 10);
    assert!(int_list::dispatch(&mut ctx, 99, &[]).unwrap());
    assert_eq!(ctx.stack.pop().unwrap().as_i64(), Some(4));
}

#[test]
fn text_commands_follow_the_script_language() {
    let ops = ids().text;
    let at = |op: i32, params: &[Value]| str_list::execute_str_op(&ops, "aBあ", op, params, 0);
    assert_eq!(at(ops.upper, &[]).as_str(), Some("ABあ"));
    assert_eq!(at(ops.lower, &[]).as_str(), Some("abあ"));
    assert_eq!(at(ops.cnt, &[]).as_i64(), Some(3));
    assert_eq!(at(ops.len, &[]).as_i64(), Some(4));
    assert_eq!(at(ops.left, &[Value::Int(2)]).as_str(), Some("aB"));
    assert_eq!(at(ops.search, &[Value::Str("b".into())]).as_i64(), Some(1));
    assert_eq!(at(ops.search, &[Value::Str("z".into())]).as_i64(), Some(-1));
}

#[test]
fn joypad_keys_are_checked_against_the_pad() {
    let mut ctx = context();
    ctx.joypad =
        vec![KeyState { is_down: true, down_stock: false, up_stock: false, down_up_stock: false }];
    ctx.vm_call = Some(VmCallMeta { element: vec![51, 0, -1, 9, 3], al_id: 0, ret_form: 10 });
    assert_eq!(joypad::dispatch(&mut ctx, &[]), Err(FormError::JoypadKeyOutOfRange(9)));
    ctx.vm_call = Some(VmCallMeta { element: vec![51, 0, -1, 0, 3], al_id: 0, ret_form: 10 });
    assert_eq!(joypad::dispatch(&mut ctx, &[]), Ok(true));
    assert_eq!(ctx.stack.pop().unwrap().as_i64(), Some(1));
    ctx.vm_call = Some(VmCallMeta { element: vec![51, 0, -1, 0, 77], al_id: 0, ret_form: 10 });
    assert_eq!(joypad::dispatch(&mut ctx, &[]), Err(FormError::UnsupportedJoypadOperation(77)));
}

#[test]
fn time_wait_holds_the_script() {
    let mut ctx = context();
    assert!(timewait::dispatch(&mut ctx, true, &[Value::Int(250)]).unwrap());
    assert_eq!(ctx.wait.target, WaitTarget::Time { ms: 250, key: true });
}

fn oneshot() -> PcmEventState {
    let mut st = PcmEventState::new();
    st.event_type = PcmEventType::OneShot;
    st.lines = vec![PcmEventLine {
        file_name: "a".to_string(),
        probability: 1,
        min_time: 10,
        max_time: 20,
    }];
    st
}

#[test]
fn sound_events_play_their_lines() {
    let mut st = oneshot();
    let mut rng = 5u32;
    let first = pcmevent::prepare_next_play(&mut st, &mut rng).expect("a line to play");
    assert_eq!(first.file_name, "a");
    assert!(pcmevent::prepare_next_play(&mut st, &mut rng).is_none());
    let drawn = pcmevent::random_exclusive(&mut rng, 3, 9);
    assert!((3..9).contains(&drawn));
    assert!(!PcmEventState::new().is_active());
}

#[test]
fn a_frame_plays_what_is_due() {
    let mut st = oneshot();
    let mut rng = 5u32;
    st.next_time = 30;
    pcmevent::advance(&mut st, 20, 50);
    assert_eq!(st.cur_time, 20);
    assert!(pcmevent::next_play_in_frame(&mut st, &mut rng, 0).is_none());
    st.real_flag = true;
    pcmevent::advance(&mut st, 20, 50);
    pcmevent::advance(&mut st, 20, -5);
    assert_eq!(st.cur_time, 70);
    assert!(pcmevent::next_play_in_frame(&mut st, &mut rng, pcmevent::PLAYS_PER_FRAME).is_none());
    let pending = pcmevent::next_play_in_frame(&mut st, &mut rng, 0).expect("a line to play");
    assert_eq!(st.cur_time, 0);
    let target = pcmevent::play_target(&pending);
    assert_eq!(target, pcmevent::PlayTarget::Global);
    pcmevent::schedule_next(&mut st, &mut rng, &pending, 1000);
    assert!((10..20).contains(&st.next_time));
    let timed = pcmevent::PendingEventPlay { time_type: true, min_time: 7, max_time: 7, ..pending };
    pcmevent::schedule_next(&mut st, &mut rng, &timed, 1000);
    assert_eq!(st.next_time, 1007);
}

#[test]
fn system_commands_ask_the_host() {
    let mut ctx = context();
    ctx.vm_call = call(60, system::CHECK_ACTIVE, 10);
    assert!(matches!(system::dispatch(&mut ctx, 60, &[]), SystemStep::Done));
    assert_eq!(ctx.stack.pop().unwrap().as_i64(), Some(1));
    ctx.vm_call = call(60, system::GET_SPEC_INFO_FOR_CHIHAYA_BENCH, 20);
    assert!(matches!(system::dispatch(&mut ctx, 60, &[]), SystemStep::SpecInfo));
    system::give_spec_info(&mut ctx, "Linux x86_64", "CPU");
    assert_eq!(
        ctx.stack.pop().unwrap().as_str(),
        Some("OS = Linux x86_64\nCPU = CPU\nビデオカード = GPU")
    );
    ctx.vm_call = call(60, system::CHECK_FILE_EXIST, 10);
    match system::dispatch(&mut ctx, 60, &[Value::Str("dat\\a.txt".into())]) {
        SystemStep::CheckFile(path) => assert_eq!(path, "game/dat/a.txt"),
        other => panic!("unexpected {other:?}"),
    }
    system::checked_file(&mut ctx, true);
    assert_eq!(ctx.stack.pop().unwrap().as_i64(), Some(1));
    ctx.vm_call = call(60, system::SHELL_OPEN_WEB, 0);
    assert!(matches!(
        system::dispatch(&mut ctx, 60, &[Value::Str("http://x".into())]),
        SystemStep::Done
    ));
    assert!(matches!(ctx.requests.last(), Some(Request::OpenUrl(url)) if url == "http://x"));
    ctx.vm_call = call(60, system::MESSAGEBOX_YESNO, 10);
    assert!(matches!(
        system::dispatch(&mut ctx, 60, &[Value::Str("ok?".into())]),
        SystemStep::Done
    ));
    match ctx.requests.last() {
        Some(Request::MessageBox { text, buttons, .. }) => {
            assert_eq!(text, "ok?");
            assert_eq!(buttons.len(), 2);
        }
        other => panic!("unexpected {other:?}"),
    }
    system::opened_file(&mut ctx, "a.txt", Some("/game/a.txt"));
    let logged = ctx.globals.system.debug_logs.last().map(String::as_str);
    assert_eq!(logged, Some("shell_open_file:/game/a.txt"));
    assert_eq!(system::debug_log_line("T", Some("s"), 3, "m"), "T\t(s.ss line=3)\tm");
}

fn empty_flow() -> HostFlowSnapshot {
    HostFlowSnapshot {
        flow: ProcFlow { stack: Vec::new(), booted_menu: false, pending_syscom_proc: None },
        suspended_waits: Vec::new(),
        host_frame: 0,
    }
}

#[test]
fn nested_flow_restores_options_deadlines_and_suspended_return_values() {
    let mut saved = empty_flow();
    saved.host_frame = 100;
    saved.flow.booted_menu = true;
    saved.flow.push(ProcType::Script, 7);
    saved.flow.push(ProcType::TimeWait, 99);
    saved.flow.top_mut().unwrap().deadline_frame = Some(130);
    let mut wait = no_wait();
    wait.wait_key();
    wait.pending_value = Some(Value::Int(42));
    saved.suspended_waits.push((1, wait, "SAVE_SCENE".into()));
    saved.flow.pending_syscom_proc = Some(SyscomPendingProc {
        kind: SyscomPendingProcKind::ReturnToSel,
        warning: true,
        se_play: false,
        fade_out: true,
        leave_msgbk: true,
        save_id: 0x1234567812345678,
        save_tid: Some([2026, 9, 9, 12, 34, 56, 789]),
    });
    let mut bytes = Vec::new();
    saved.write_extension(&mut bytes);
    let mut loaded =
        HostFlowSnapshot::read_extension(&mut StreamReader::new(&bytes), 900).unwrap().unwrap();
    assert_eq!(loaded.flow.stack.len(), 2);
    assert_eq!(loaded.flow.stack[0].option, 7);
    assert_eq!(loaded.flow.top().unwrap().deadline_frame, Some(930));
    loaded.rebase_host_frame(2000);
    assert_eq!(loaded.flow.top().unwrap().deadline_frame, Some(2030));
    let pending = loaded.flow.pending_syscom_proc.as_ref().unwrap();
    assert_eq!(pending.save_id, 0x1234567812345678);
    assert_eq!(pending.save_tid, Some([2026, 9, 9, 12, 34, 56, 789]));
    assert!(loaded.suspended_waits[0].1.waiting_for_key);
    assert_eq!(
        loaded.suspended_waits[0].1.pending_value.as_ref().unwrap().as_i64(),
        Some(42)
    );
    assert_eq!(loaded.suspended_waits[0].2, "SAVE_SCENE");
}

#[test]
fn absent_extension_leaves_native_reader_untouched() {
    let bytes = 123i32.to_le_bytes();
    let mut rd = StreamReader::new(&bytes);
    assert!(HostFlowSnapshot::read_extension(&mut rd, 0).unwrap().is_none());
    assert_eq!(rd.i32().unwrap(), 123);
}

#[test]
fn cut_extension_is_refused() {
    let mut saved = empty_flow();
    saved.flow.push(ProcType::Script, 1);
    let mut bytes = Vec::new();
    saved.write_extension(&mut bytes);
    bytes.truncate(bytes.len() - 1);
    let r = HostFlowSnapshot::read_extension(&mut StreamReader::new(&bytes), 0);
    assert!(matches!(r, Err(FlowError::Stream(_)) | Err(FlowError::Wait(_))));
}

#[test]
fn native_records_must_be_whole() {
    assert!(matches!(decode_native_proc(&[0; 3], None), Err(NativeError::Truncated)));
    let mut bytes = vec![0; 147];
    bytes[0] = 18;
    bytes[132] = 5;
    bytes[140] = 1;
    bytes[143] = 9;
    let whole = decode_native_proc(&bytes, Some(140)).unwrap();
    assert_eq!((whole.kind, whole.al_id, whole.option), (18, 5, 9));
    assert_eq!(whole.args, vec![0; 4]);
    assert!(whole.key && !whole.skip_disabled && !whole.leaves_result);
    assert!(matches!(decode_native_proc(&bytes, None), Err(NativeError::InvalidArguments)));
    assert!(matches!(decode_native_proc(&bytes, Some(3)), Err(NativeError::InvalidArguments)));
    assert!(matches!(decode_native_proc(&bytes, Some(141)), Err(NativeError::Truncated)));
    bytes.push(0);
    assert!(matches!(decode_native_proc(&bytes, Some(140)), Err(NativeError::TrailingData)));
    let record = NativeRecord {
        kind: 9999,
        element: Vec::new(),
        al_id: 0,
        args: Vec::new(),
        key: false,
        skip_disabled: false,
        leaves_result: false,
        option: 0,
    };
    let facts = no_facts();
    let mut wait = no_wait();
    assert!(matches!(
        poll_native_proc(&record, false, facts, &mut wait),
        Err(NativeError::Unsupported(9999)) | Err(NativeError::InvalidKind(9999))
    ));
}

fn no_facts() -> NativeFacts {
    NativeFacts {
        skipping: false,
        sel_window: None,
        window_selects: false,
        buttons_select: false,
        sel_group: None,
        group_selects: false,
        decide: None,
        game_time: 0,
        counter: None,
        backlog_known: false,
        load_wipe: (0, 1000),
    }
}

fn record_bytes(kind: i32) -> Vec<u8> {
    let mut bytes = vec![0; MIN_RECORD];
    bytes[..4].copy_from_slice(&kind.to_le_bytes());
    bytes
}

#[test]
fn saved_stacks_are_looked_at_before_they_are_resumed() {
    let good = record_bytes(3);
    assert_eq!(preflight_original_local_procs(&good, 1, &[record_bytes(4)]), Ok(()));
    assert_eq!(
        preflight_original_local_procs(&good, 4097, &[]),
        Err(NativeError::InvalidStackSize)
    );
    assert_eq!(
        preflight_original_local_procs(&good, 2, &[record_bytes(4), record_bytes(11)]),
        Err(NativeError::InvalidKind(11))
    );
    assert_eq!(preflight_original_local_procs(&[0; 9], 0, &[]), Err(NativeError::Truncated));
    assert!(matches!(native_proc_flow(Vec::new()), Ok(None)));
    assert!(matches!(
        native_proc_flow(vec![record_bytes(52)]),
        Err(NativeError::InvalidKind(52))
    ));
}

#[test]
fn paths_name_a_stage_and_a_child() {
    let codes = StageCodes { back: 37, front: 38, next: 73, array: -1 };
    assert_eq!(native_stage_child(&[38, 2, -1, 5], 2, codes, false), Some((1, 5)));
    assert_eq!(native_stage_child(&[49, -1, 4, 2, -1, 5], 2, codes, true), Some((4, 5)));
    assert_eq!(native_stage_child(&[49, -1, 4, 2, -1, 5], 2, codes, false), None);
    assert_eq!(native_stage_child(&[38, 2, -1, -5], 2, codes, false), None);
    assert_eq!(animation_elapsed(500, 200), 300);
    assert_eq!(animation_elapsed(200, 500), 0);
}

fn wait_record() -> NativeRecord {
    NativeRecord {
        kind: 27,
        element: Vec::new(),
        al_id: 0,
        args: Vec::new(),
        key: true,
        skip_disabled: true,
        leaves_result: true,
        option: 0,
    }
}

#[test]
fn keys_cut_a_resumed_wait_short() {
    let mut wait = no_wait();
    let mut facts = no_facts();
    let record = wait_record();
    let poll = proceed(&record, true, facts, &mut wait);
    assert_eq!(poll.step, NativeStep::Poll);
    assert!(wait.native_returns && wait.native_key);
    facts.decide = Some(1);
    let poll = proceed(&record, false, facts, &mut wait);
    assert_eq!(poll.step, NativeStep::CutShort { wipe: false, quake: false });
    assert_eq!(poll.push, Some(1));
    let poll = conclude(&record, true, &mut wait);
    assert_eq!((poll.step, poll.push), (NativeStep::Done(false), None));
    let poll = conclude(&record, false, &mut wait);
    assert_eq!(poll.step, NativeStep::Done(true));
}

#[test]
fn waits_are_told_how_long_they_last() {
    let mut wait = no_wait();
    wait.wait_ms(30);
    assert_eq!(wait.target, WaitTarget::Time { ms: 30, key: false });
    wait.wait_ms_key(40);
    assert_eq!(wait.target, WaitTarget::Time { ms: 40, key: true });
}

#[test]
fn the_wipe_after_a_load_is_set_by_two_numbers() {
    assert_eq!(load_wipe_of(None), (0, 1000));
    assert_eq!(load_wipe_of(Some("")), (0, 1000));
    assert_eq!(load_wipe_of(Some("12")), (12, 1000));
    assert_eq!(load_wipe_of(Some("3, 250, 9")), (3, 250));
    assert_eq!(load_wipe_of(Some("(-1)x-20")), (-1, -20));
    assert_eq!(load_wipe_of(Some("1-2,--4,99999999999,7")), (7, 1000));
    let record = NativeRecord { kind: 3, ..wait_record() };
    let mut wait = no_wait();
    let facts = NativeFacts { load_wipe: load_wipe_of(Some("5,60")), ..no_facts() };
    assert_eq!(
        poll_native_proc(&record, false, facts, &mut wait).unwrap().step,
        NativeStep::LoadWipe { start: true, wipe_type: 5, duration: 60 }
    );
}

#[test]
fn resumed_selections_get_the_focus() {
    let place = ChildPlace { form: 49, stage: 1, index: 2 };
    let mut wait = no_wait();
    let facts = NativeFacts { sel_window: Some(place), window_selects: true, ..no_facts() };
    let record = NativeRecord { kind: 14, ..wait_record() };
    let poll = poll_native_proc(&record, false, facts, &mut wait).unwrap();
    assert_eq!(poll.step, NativeStep::Done(false));
    assert_eq!(poll.focus, Some(Focus::Window(Some(place))));
    assert!(wait.system_modal);
    let poll = poll_native_proc(&record, true, facts, &mut wait).unwrap();
    assert_eq!((poll.step, poll.focus), (NativeStep::Done(false), None));
    let group = NativeRecord { kind: 16, ..wait_record() };
    let poll = poll_native_proc(&group, false, no_facts(), &mut no_wait()).unwrap();
    assert_eq!((poll.step, poll.focus), (NativeStep::Done(true), Some(Focus::Group(None))));
    let buttons = NativeRecord { kind: 15, ..wait_record() };
    let facts = NativeFacts { buttons_select: true, ..no_facts() };
    let poll = poll_native_proc(&buttons, false, facts, &mut no_wait()).unwrap();
    assert_eq!((poll.step, poll.focus), (NativeStep::Done(false), None));
}

#[test]
fn window_animations_complete_when_none_goes_on() {
    let anime = |anime_type| Some(SavedAnime { anime_type, duration: 400, start: 100 });
    let work = |anime_type| {
        Some(WindowWork { time: 250, open_anime: anime(anime_type), close_anime: None })
    };
    assert_eq!(
        restart_animation(work(2), true),
        Some(Restart { anime_type: 2, duration: 400, elapsed: 150 })
    );
    assert_eq!(restart_animation(work(2), false), None);
    assert_eq!(restart_animation(work(-1), true), None);
    assert_eq!(restart_animation(None, true), None);
    assert!(is_driven(work(-1), true, true) && !is_driven(work(-1), true, false));
    let mut windows = vec![work(1), None, work(-1), work(2)];
    assert!(!poll_native_mwnd(&mut windows, true, false, &vec![true, true, true, false]));
    assert_eq!(windows[0], work(1));
    assert_eq!(windows[2], work(-1));
    let finished = Some(SavedAnime { anime_type: -1, duration: 0, start: 0 });
    assert_eq!(windows[3].unwrap().open_anime, finished);
    assert!(poll_native_mwnd(&mut windows, true, true, &vec![false; 4]));
    assert_eq!(windows[0].unwrap().open_anime, finished);
    assert_eq!(windows[1], None);
    let place = |stage, index| ChildPlace { form: 9, stage, index };
    assert_eq!(
        animated_windows(true, 9, &vec![(0, 1), (2, 2)], None),
        vec![place(0, 0), place(2, 0), place(2, 1)]
    );
    assert_eq!(animated_windows(false, 9, &vec![(0, 1)], Some(place(1, 4))), vec![place(1, 4)]);
    assert_eq!(animated_windows(false, 9, &vec![(0, 1)], None), vec![]);
}

#[test]
fn loads_go_back_to_a_known_place_of_the_backlog() {
    let place = [1, 2, 3, 4, 5, 6, 7];
    assert_eq!(backlog_target(Some([0; 7]), place), Some([0; 7]));
    assert_eq!(backlog_target(None, place), Some(place));
    assert_eq!(backlog_target(None, [0, 0, 0, 0, 0, 0, 9]), Some([0, 0, 0, 0, 0, 0, 9]));
    assert_eq!(backlog_target(None, [0; 7]), None);
    assert_eq!(
        unavailable_load_text("why"),
        "This save cannot be resumed safely.\nwhy\nThe current game state has been kept."
    );
}

#[test]
fn scripts_get_the_time_of_the_machine() {
    let now = local_time_at(Some((1_700_000_000, 5_000_000)), 0);
    let mut ctx = context();
    let args = [Value::Element(vec![1]), Value::Int(0), Value::Element(vec![3, 4])];
    system::give_calendar(&mut ctx, &args, now);
    assert_eq!(ctx.requests.len(), 2);
    assert!(matches!(&ctx.requests[0], Request::Assign { chain, value: 2023 } if *chain == [1]));
    assert!(matches!(&ctx.requests[1], Request::Assign { chain, value: 14 } if *chain == [3, 4]));
    ctx.requests.clear();
    system::write_debug_log(&mut ctx, "hello".to_string(), now);
    assert!(matches!(
        &ctx.requests[0],
        Request::AppendDebugLog(line)
            if line == "[2023-11-14 22:13:20]\t(start.ss line=7)\thello"
    ));
    system::write_debug_log(&mut ctx, String::new(), now);
    system::write_debug_log(&mut ctx, "kept".to_string(), None);
    system::give_calendar(&mut ctx, &args, None);
    assert_eq!(ctx.requests.len(), 1);
    assert_eq!(ctx.globals.system.debug_logs, vec!["hello", "", "kept"]);
    ctx.utc_offset = 3_600;
    ctx.vm_call = call(60, system::GET_CALENDAR, 0);
    assert!(matches!(system::dispatch(&mut ctx, 60, &args), SystemStep::Done));
    assert_eq!(ctx.requests.len(), 3);
}
