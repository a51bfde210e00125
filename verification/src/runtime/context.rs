//! The state that script commands read and change.

use vstd::prelude::*;
use std::collections::HashMap;
use crate::runtime::value::Value;
use crate::runtime::wait::VmWait;
use crate::text_map::TextMap;

verus! {

/// The numbers that the script compiler gives to elements, lists and
/// commands.
#[derive(Debug, Clone, Copy)]
pub struct Ids {
    pub elm_array: i32,
    /// The number that stands for an index in every game, besides the one
    /// above.
    pub fixed_array: i32,
    /// The number of a text result.
    pub fm_str: i64,
    /// The number lists whose length `FLAG.CNT` gives.
    pub local_int_lists: [u32; 7],
    /// The number lists whose length `GLOBAL_FLAG.CNT` gives.
    pub global_int_lists: [u32; 2],
    pub local_str_list: u32,
    pub global_str_list: u32,
    /// The lists of names.
    pub local_names: u32,
    pub global_names: u32,
    pub int_list: IntListOps,
    pub str_list: StrListOps,
    pub text: TextOps,
    pub bgm_table: BgmTableOps,
    pub pcm_event: PcmEventOps,
    pub form_global_pcm_event: u32,
    pub form_global_joypad: u32,
    pub key: KeyOps,
    pub steam_set_achievement: i32,
    pub steam_reset_all_status: i32,
}

/// The commands of a number list. The first five choose the width of its
/// fields.
#[derive(Debug, Clone, Copy)]
pub struct IntListOps {
    pub bit: [i32; 2],
    pub bit2: [i32; 2],
    pub bit4: [i32; 2],
    pub bit8: [i32; 2],
    pub bit16: [i32; 2],
    pub init: i32,
    pub resize: i32,
    pub get_size: i32,
    pub clear: i32,
    pub sets: i32,
}

#[derive(Debug, Clone, Copy)]
pub struct StrListOps {
    pub init: i32,
    pub resize: i32,
    pub get_size: i32,
    pub sets: i32,
}

#[derive(Debug, Clone, Copy)]
pub struct TextOps {
    pub upper: i32,
    pub lower: i32,
    pub cnt: i32,
    pub len: i32,
    pub left: i32,
    pub left_len: i32,
    pub right: i32,
    pub right_len: i32,
    pub mid: i32,
    pub mid_len: i32,
    pub search: i32,
    pub search_last: i32,
    pub get_code: i32,
    pub to_num: i32,
}

#[derive(Debug, Clone, Copy)]
pub struct BgmTableOps {
    pub get_count: i32,
    pub get_listen_by_name: i32,
    pub set_listen_current: i32,
    pub set_all_flag: i32,
}

#[derive(Debug, Clone, Copy)]
pub struct PcmEventOps {
    pub start_oneshot: i32,
    pub start_loop: i32,
    pub start_random: i32,
    pub stop: i32,
    pub check: i32,
    pub wait: i32,
    pub wait_key: i32,
}

#[derive(Debug, Clone, Copy)]
pub struct KeyOps {
    pub on_down: i32,
    pub on_up: i32,
    pub on_down_up: i32,
    pub is_down: i32,
    pub is_up: i32,
}

/// One entry of the music table, as the configuration gives it.
#[derive(Debug)]
pub struct BgmEntry {
    pub first_item: Option<String>,
    pub regist_name: Option<String>,
    pub whole: Option<String>,
}

/// The configuration of a game.
#[derive(Debug)]
pub struct Gameexe {
    /// The numbers, by their keys.
    pub numbers: TextMap<usize>,
    pub bgm: Vec<BgmEntry>,
}

#[derive(Debug)]
pub struct Tables {
    pub gameexe: Option<Gameexe>,
}

/// The call that the script machine is carrying out.
#[derive(Debug)]
pub struct VmCallMeta {
    pub element: Vec<i32>,
    pub al_id: i64,
    pub ret_form: i64,
}

/// How a sound event chooses its lines.
#[derive(Debug, Clone, Copy, PartialEq, Eq, Structural)]
pub enum PcmEventType {
    Idle,
    OneShot,
    Loop,
    Random,
}

/// One sound of an event and the time until the next.
#[derive(Debug)]
pub struct PcmEventLine {
    pub file_name: String,
    pub probability: i32,
    pub min_time: i32,
    pub max_time: i32,
}

/// A sound event.
#[derive(Debug)]
pub struct PcmEventState {
    pub event_type: PcmEventType,
    pub pcm_buf_no: i32,
    pub volume_type: i32,
    pub chara_no: i32,
    pub bgm_fade_target_flag: bool,
    pub bgm_fade2_target_flag: bool,
    pub bgm_fade_source_flag: bool,
    pub real_flag: bool,
    pub time_type: bool,
    pub cur_time: i64,
    pub next_time: i64,
    pub cur_line_no: i32,
    pub last_line_no: i32,
    pub lines: Vec<PcmEventLine>,
}

#[derive(Debug)]
pub struct MessageBoxRecord {
    pub kind: i32,
    pub text: String,
    pub debug_only: bool,
}

/// What the system commands read and change.
#[derive(Debug)]
pub struct SystemState {
    pub active_flag: bool,
    pub debug_flag: bool,
    pub debug_logs: Vec<String>,
    /// The dummy files that have been checked. None occurs twice.
    pub dummy_checks: Vec<String>,
    pub messagebox_history: Vec<MessageBoxRecord>,
    /// Answers that stand ready for message boxes.
    pub messagebox_response_queue: Vec<i64>,
    pub bench_dialogs: Vec<String>,
    pub language_code: String,
    pub chihaya_display_adapter_name: String,
}

#[derive(Debug)]
pub struct Globals {
    pub int_lists: HashMap<u32, Vec<i64>>,
    pub str_lists: HashMap<u32, Vec<String>>,
    pub pcm_event_lists: HashMap<u32, Vec<PcmEventState>>,
    pub rng_state: u32,
    pub bgm_table_flags: Vec<bool>,
    pub bgm_table_all_flag: bool,
    pub bgm_table_listened: TextMap<bool>,
    pub system: SystemState,
}

/// The state of one joypad key.
#[derive(Debug, Clone, Copy, PartialEq, Eq, Structural)]
pub struct KeyState {
    pub is_down: bool,
    pub down_stock: bool,
    pub up_stock: bool,
    pub down_up_stock: bool,
}

#[derive(Debug)]
pub struct MessageBoxButton {
    pub label: String,
    pub value: i64,
}

/// Something that a command asks of the host.
#[derive(Debug)]
pub enum Request {
    OpenUrl(String),
    MessageBox { kind: i32, debug_only: bool, text: String, buttons: Vec<MessageBoxButton> },
    BenchDialog(String),
    AppendDebugLog(String),
    StopGlobalPcm,
    StopPcmSlot(usize),
    UpdateAudioRouting,
    Assign { chain: Vec<i32>, value: i64 },
    WaitBoundary,
    /// Store or read a property of a form that has no rule of its own.
    Property { form: u32, op: i32 },
    StatefulForm { form: u32 },
}

#[derive(Debug)]
pub struct CommandContext {
    pub ids: Ids,
    pub tables: Tables,
    pub vm_call: Option<VmCallMeta>,
    pub stack: Vec<Value>,
    pub globals: Globals,
    pub wait: VmWait,
    pub joypad: Vec<KeyState>,
    pub project_dir: String,
    pub save_dir: String,
    pub current_scene_name: Option<String>,
    pub current_line_no: i64,
    /// How many seconds the machine's clock is ahead of UTC.
    pub utc_offset: i32,
    pub requests: Vec<Request>,
}

/// Why a command is refused.
#[derive(Debug, Clone, Copy, PartialEq, Eq, Structural)]
pub enum FormError {
    MissingOpcode,
    InvalidOpcode(i32),
    JoypadKeyOutOfRange(i32),
    UnsupportedJoypadOperation(i32),
}

impl CommandContext {
    /// The tables by text hold every key once.
    pub open spec fn wf(&self) -> bool {
        &&& self.tables.gameexe matches Some(cfg) ==> cfg.numbers.wf()
        &&& self.globals.bgm_table_listened.wf()
    }
}

/// The number that the configuration gives for `key`.
pub open spec fn config_number(tables: Tables, key: Seq<char>) -> Option<usize> {
    match tables.gameexe {
        Some(cfg) => if cfg.numbers@.dom().contains(key) {
            Some(cfg.numbers@[key])
        } else {
            None
        },
        None => None,
    }
}

pub fn find_number(tables: &Tables, key: &str) -> (r: Option<usize>)
    requires
        tables.gameexe matches Some(cfg) ==> cfg.numbers.wf(),
    ensures
        r == config_number(*tables, key@),
{
    match &tables.gameexe {
        Some(cfg) => match cfg.numbers.get(key) {
            Some(v) => Some(*v),
            None => None,
        },
        None => None,
    }
}

/// The number of flags that the configuration gives, with or without `#`
/// before the key.
pub open spec fn flag_count(tables: Tables, global: bool) -> Option<usize> {
    let marked = config_number(
        tables,
        if global {
            "#GLOBAL_FLAG.CNT"@
        } else {
            "#FLAG.CNT"@
        },
    );
    if marked is Some {
        marked
    } else {
        config_number(
            tables,
            if global {
                "GLOBAL_FLAG.CNT"@
            } else {
                "FLAG.CNT"@
            },
        )
    }
}

/// The length of the lists of flags: at most 10000, and 1000 where the
/// configuration gives none.
pub open spec fn flag_length(tables: Tables, global: bool) -> int {
    match flag_count(tables, global) {
        Some(n) => if n > 10000 {
            10000
        } else {
            n as int
        },
        None => 1000,
    }
}

/// The length of the lists of flags, and whether the configuration gives it.
pub fn configured_count_info(tables: &Tables, global: bool) -> (r: (usize, bool))
    requires
        tables.gameexe matches Some(cfg) ==> cfg.numbers.wf(),
    ensures
        r.0 == flag_length(*tables, global),
        r.1 == flag_count(*tables, global) is Some,
{
    let marked: Option<usize> = if global {
        find_number(tables, "#GLOBAL_FLAG.CNT")
    } else {
        find_number(tables, "#FLAG.CNT")
    };
    let found: Option<usize> = match marked {
        Some(n) => Some(n),
        None => if global {
            find_number(tables, "GLOBAL_FLAG.CNT")
        } else {
            find_number(tables, "FLAG.CNT")
        },
    };
    match found {
        Some(n) => (
            if n > 10000 {
                10000
            } else {
                n
            },
            true,
        ),
        None => (1000, false),
    }
}

/// As many flags as the settings name are kept, but no more than 10000, and 1000 where the
/// settings name no number. The key with the mark in front counts before the one without it.
pub proof fn flags_are_as_many_as_the_settings_name(tables: Tables, cfg: Gameexe)
    requires
        tables.gameexe == Some(cfg),
    ensures
        ({
            let m = cfg.numbers@;
            let least = |n: usize| if n > 10000 { 10000int } else { n as int };
            &&& m.contains_key("#FLAG.CNT"@) ==> flag_length(tables, false) == least(
                m["#FLAG.CNT"@],
            )
            &&& !m.contains_key("#FLAG.CNT"@) && m.contains_key("FLAG.CNT"@) ==> flag_length(
                tables,
                false,
            ) == least(m["FLAG.CNT"@])
            &&& !m.contains_key("#FLAG.CNT"@) && !m.contains_key("FLAG.CNT"@) ==> flag_length(
                tables,
                false,
            ) == 1000
            &&& m.contains_key("#GLOBAL_FLAG.CNT"@) ==> flag_length(tables, true) == least(
                m["#GLOBAL_FLAG.CNT"@],
            )
            &&& !m.contains_key("#GLOBAL_FLAG.CNT"@) && m.contains_key("GLOBAL_FLAG.CNT"@)
                ==> flag_length(tables, true) == least(m["GLOBAL_FLAG.CNT"@])
            &&& !m.contains_key("#GLOBAL_FLAG.CNT"@) && !m.contains_key("GLOBAL_FLAG.CNT"@)
                ==> flag_length(tables, true) == 1000
        }),
{
}

/// Without settings there are 1000 flags of each kind.
pub proof fn flags_without_settings(tables: Tables, global: bool)
    requires
        tables.gameexe is None,
    ensures
        flag_length(tables, global) == 1000,
{
}

} // verus!
