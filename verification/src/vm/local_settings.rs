//! The settings of a scene in the two oldest save layouts.

use vstd::prelude::*;
use crate::bytes;
use crate::runtime::stream::{Parsed, StreamError, StreamReader};
use crate::vm::record;
use crate::vm::record::{
    flag_field,
    int_field,
    push_kinds,
    read_record,
    text_field,
    Field,
    FieldView,
    Kind,
};
use crate::vm::short_layout;

verus! {

/// The settings that a save holds of a scene.
#[derive(Debug)]
pub struct LocalSettings {
    pub cur_koe_no: i64,
    pub cur_chr_no: i64,
    pub cur_read_flag_scn_no: i64,
    pub cur_read_flag_flag_no: i64,
    pub current_save_scene_title: String,
    pub cursor_no: i64,
    pub syscom_menu_disable: bool,
    pub hide_mwnd_disable: bool,
    pub mwnd_btn_disable_all: bool,
    pub mwnd_btn_touch_disable: bool,
    pub skip_disable: bool,
    pub ctrl_disable: bool,
    pub not_stop_skip_by_click: bool,
    pub not_skip_msg_by_click: bool,
    pub skip_unread_message: bool,
    pub shortcut_disable: bool,
    pub msg_back_off: bool,
    pub msg_back_disp_off: bool,
    pub auto_mode_flag: bool,
    pub auto_mode_moji_wait: i64,
    pub auto_mode_min_wait: i64,
    pub msg_speed: i64,
    pub msg_nowait: bool,
    pub async_msg_mode: bool,
    pub async_msg_mode_once: bool,
    pub multi_msg_mode: bool,
    pub skip_trigger: bool,
    pub cursor_disp_off: bool,
    pub cursor_move_by_key_disable: bool,
    pub mwnd_anime_on_flag: bool,
    pub mwnd_anime_off_flag: bool,
    pub mwnd_disp_off_flag: bool,
    pub koe_dont_stop_on_flag: bool,
    pub koe_dont_stop_off_flag: bool,
    pub quake_stop_flag: bool,
    pub cg_table_off: bool,
    pub bgmfade_flag: bool,
    pub dont_set_save_point: bool,
    pub ignore_r_flag: bool,
    pub wait_display_vsync_off_flag: bool,
    /// Whether each button of the message window is switched off.
    pub mwnd_btn_disable: Vec<bool>,
    /// Whether each key is switched off.
    pub key_disable: Vec<bool>,
    pub cursor_runtime_visible: bool,
    pub current_save_full_message: String,
    pub font_name: String,
    pub font_bold: i64,
    pub font_shadow: i64,
    pub msg_back_disable: bool,
    pub auto_mode_moji_cnt: i64,
    pub mouse_cursor_hide_onoff: i64,
    pub mouse_cursor_hide_time: i64,
    pub msg_back_save_cntr: i64,
    pub emote_mouth_stop_flag: bool,
    pub time_stop_flag: bool,
    pub counter_time_stop_flag: bool,
    pub frame_action_time_stop_flag: bool,
    pub stage_time_stop_flag: bool,
    /// The voice and the character to be heard again.
    pub replay_koe: Option<(i64, i64)>,
}

/// `n` flags from place `at` on.
pub open spec fn flags_from(f: Seq<FieldView>, at: int, n: int) -> Seq<bool> {
    Seq::new(n as nat, |i: int| record::flag_at(f, at + i))
}

/// How many fields stand where only the later of the two layouts has one.
pub open spec fn later(indexed: bool) -> int {
    if indexed {
        1
    } else {
        0
    }
}

/// The fields of the settings, for a message window with `n` buttons.
pub open spec fn settings_kinds(n: int, indexed: bool) -> Seq<Kind> {
    let d = later(indexed);
    record::rep(Kind::Int, 4) + record::rep(Kind::Text, 1) + record::rep(Kind::Int, d)
        + record::rep(Kind::Flag, 10 + 3 * d + n) + record::rep(Kind::Int, 1 + 2 * d) + record::rep(
        Kind::Flag,
        269 + 5 * d,
    )
}

/// Whether the settings are those that the fields say. What a layout lacks has
/// a fixed value.
pub open spec fn settings_from(
    s: LocalSettings,
    f: Seq<FieldView>,
    n: int,
    indexed: bool,
) -> bool {
    let d = later(indexed);
    &&& s.cur_koe_no == record::int_at(f, 0)
    &&& s.cur_chr_no == record::int_at(f, 1)
    &&& s.cur_read_flag_scn_no == record::int_at(f, 2)
    &&& s.cur_read_flag_flag_no == record::int_at(f, 3)
    &&& s.current_save_scene_title@ == record::text_at(f, 4)
    &&& s.cursor_no == (if indexed {
        record::int_at(f, 5)
    } else {
        0
    })
    &&& s.syscom_menu_disable == record::flag_at(f, 5 + d)
    &&& s.hide_mwnd_disable == record::flag_at(f, 6 + d)
    &&& s.mwnd_btn_disable_all == (if indexed {
        record::flag_at(f, 7 + d)
    } else {
        false
    })
    &&& s.mwnd_btn_touch_disable == record::flag_at(f, 7 + 2 * d + n)
    &&& s.skip_disable == record::flag_at(f, 8 + 2 * d + n)
    &&& s.ctrl_disable == record::flag_at(f, 9 + 2 * d + n)
    &&& s.not_stop_skip_by_click == record::flag_at(f, 10 + 2 * d + n)
    &&& s.not_skip_msg_by_click == record::flag_at(f, 11 + 2 * d + n)
    &&& s.skip_unread_message == record::flag_at(f, 12 + 2 * d + n)
    &&& s.shortcut_disable == record::flag_at(f, 13 + 2 * d + n)
    &&& s.msg_back_off == (if indexed {
        record::flag_at(f, 14 + 2 * d + n)
    } else {
        false
    })
    &&& s.msg_back_disp_off == (if indexed {
        record::flag_at(f, 15 + 2 * d + n)
    } else {
        false
    })
    &&& s.auto_mode_flag == record::flag_at(f, 14 + 4 * d + n)
    &&& s.auto_mode_moji_wait == (if indexed {
        record::int_at(f, 15 + 4 * d + n) as int
    } else {
        -1
    })
    &&& s.auto_mode_min_wait == (if indexed {
        record::int_at(f, 16 + 4 * d + n) as int
    } else {
        -1
    })
    &&& s.msg_speed == record::int_at(f, 15 + 6 * d + n)
    &&& s.msg_nowait == record::flag_at(f, 16 + 6 * d + n)
    &&& s.async_msg_mode == record::flag_at(f, 17 + 6 * d + n)
    &&& s.async_msg_mode_once == record::flag_at(f, 18 + 6 * d + n)
    &&& s.multi_msg_mode == (if indexed {
        record::flag_at(f, 19 + 6 * d + n)
    } else {
        false
    })
    &&& s.skip_trigger == (if indexed {
        record::flag_at(f, 20 + 6 * d + n)
    } else {
        false
    })
    &&& s.cursor_disp_off == record::flag_at(f, 19 + 8 * d + n)
    &&& s.cursor_move_by_key_disable == record::flag_at(f, 20 + 8 * d + n)
    &&& s.mwnd_anime_on_flag == record::flag_at(f, 277 + 8 * d + n)
    &&& s.mwnd_anime_off_flag == record::flag_at(f, 278 + 8 * d + n)
    &&& s.mwnd_disp_off_flag == record::flag_at(f, 279 + 8 * d + n)
    &&& s.koe_dont_stop_on_flag == record::flag_at(f, 280 + 8 * d + n)
    &&& s.koe_dont_stop_off_flag == record::flag_at(f, 281 + 8 * d + n)
    &&& s.quake_stop_flag == record::flag_at(f, 282 + 8 * d + n)
    &&& s.cg_table_off == record::flag_at(f, 283 + 8 * d + n)
    &&& s.bgmfade_flag == record::flag_at(f, 284 + 8 * d + n)
    &&& s.dont_set_save_point == (if indexed {
        record::flag_at(f, 285 + 8 * d + n)
    } else {
        false
    })
    &&& s.ignore_r_flag == (if indexed {
        record::flag_at(f, 286 + 8 * d + n)
    } else {
        false
    })
    &&& s.wait_display_vsync_off_flag == (if indexed {
        record::flag_at(f, 287 + 8 * d + n)
    } else {
        false
    })
    &&& s.mwnd_btn_disable@ == flags_from(f, 7 + 2 * d, n)
    &&& s.key_disable@ == flags_from(f, 21 + 8 * d + n, 256)
    &&& s.cursor_runtime_visible == !s.cursor_disp_off
    &&& s.current_save_full_message@ == Seq::<char>::empty()
    &&& s.font_name@ == Seq::<char>::empty()
    &&& s.font_bold == -1
    &&& s.font_shadow == -1
    &&& !s.msg_back_disable
    &&& s.auto_mode_moji_cnt == 0
    &&& s.mouse_cursor_hide_onoff == -1
    &&& s.mouse_cursor_hide_time == -1
    &&& s.msg_back_save_cntr == 0
    &&& !s.emote_mouth_stop_flag
    &&& !s.time_stop_flag
    &&& !s.counter_time_stop_flag
    &&& !s.frame_action_time_stop_flag
    &&& !s.stage_time_stop_flag
    &&& s.replay_koe == (if s.cur_koe_no >= 0 {
        Some((s.cur_koe_no, s.cur_chr_no))
    } else {
        None
    })
}

fn settings_layout(n: usize, indexed: bool) -> (kinds: Vec<Kind>)
    requires
        n <= usize::MAX - 1000,
    ensures
        kinds@ == settings_kinds(n as int, indexed),
{
    let d: usize = if indexed {
        1
    } else {
        0
    };
    let mut kinds: Vec<Kind> = Vec::new();
    push_kinds(&mut kinds, Kind::Int, 4);
    push_kinds(&mut kinds, Kind::Text, 1);
    push_kinds(&mut kinds, Kind::Int, d);
    push_kinds(&mut kinds, Kind::Flag, 10 + 3 * d + n);
    push_kinds(&mut kinds, Kind::Int, 1 + 2 * d);
    push_kinds(&mut kinds, Kind::Flag, 269 + 5 * d);
    proof {
        assert(kinds@ =~= settings_kinds(n as int, indexed));
    }
    kinds
}

fn take_flags(f: &Vec<Field>, at: usize, n: usize) -> (r: Vec<bool>)
    requires
        at + n <= f@.len(),
    ensures
        r@ == flags_from(record::views(f@), at as int, n as int),
{
    let len: usize = f.len();
    let ghost all = flags_from(record::views(f@), at as int, n as int);
    let mut r: Vec<bool> = Vec::new();
    let mut i: usize = 0;
    while i < n
        invariant
            i <= n,
            at + n <= len == f@.len(),
            all == flags_from(record::views(f@), at as int, n as int),
            r@ == all.take(i as int),
        decreases n - i,
    {
        r.push(flag_field(f, at + i));
        i = i + 1;
        proof {
            assert(r@ =~= all.take(i as int));
        }
    }
    proof {
        assert(r@ =~= all);
    }
    r
}

/// What reading the settings gives.
pub open spec fn settings_of(b: Seq<u8>, n: int, indexed: bool) -> Parsed<Seq<FieldView>> {
    record::fields_of(b, settings_kinds(n, indexed))
}

fn read_settings(rd: &mut StreamReader, n: usize, indexed: bool) -> (r: Result<
    LocalSettings,
    StreamError,
>)
    requires
        old(rd).wf(),
        n <= usize::MAX - 1000,
    ensures
        final(rd).wf(),
        final(rd).data == old(rd).data,
        match (r, settings_of(old(rd).rest(), n as int, indexed)) {
            (Ok(s), Ok(p)) => settings_from(s, p.0, n as int, indexed) && final(rd).rest() == p.1,
            (Err(a), Err(b)) => a == b,
            _ => false,
        },
{
    let d: usize = if indexed {
        1
    } else {
        0
    };
    let kinds = settings_layout(n, indexed);
    let f = match read_record(rd, &kinds) {
        Ok(f) => f,
        Err(e) => {
            return Err(e);
        },
    };
    proof {
        assert(f@.len() == 285 + 11 * d + n);
    }
    let cur_koe_no: i64 = int_field(&f, 0);
    let cur_chr_no: i64 = int_field(&f, 1);
    let cursor_disp_off: bool = flag_field(&f, 19 + 8 * d + n);
    let s = LocalSettings {
        cur_koe_no,
        cur_chr_no,
        cur_read_flag_scn_no: int_field(&f, 2),
        cur_read_flag_flag_no: int_field(&f, 3),
        current_save_scene_title: text_field(&f, 4),
        cursor_no: if indexed {
            int_field(&f, 5)
        } else {
            0
        },
        syscom_menu_disable: flag_field(&f, 5 + d),
        hide_mwnd_disable: flag_field(&f, 6 + d),
        mwnd_btn_disable_all: if indexed {
            flag_field(&f, 7 + d)
        } else {
            false
        },
        mwnd_btn_touch_disable: flag_field(&f, 7 + 2 * d + n),
        skip_disable: flag_field(&f, 8 + 2 * d + n),
        ctrl_disable: flag_field(&f, 9 + 2 * d + n),
        not_stop_skip_by_click: flag_field(&f, 10 + 2 * d + n),
        not_skip_msg_by_click: flag_field(&f, 11 + 2 * d + n),
        skip_unread_message: flag_field(&f, 12 + 2 * d + n),
        shortcut_disable: flag_field(&f, 13 + 2 * d + n),
        msg_back_off: if indexed {
            flag_field(&f, 14 + 2 * d + n)
        } else {
            false
        },
        msg_back_disp_off: if indexed {
            flag_field(&f, 15 + 2 * d + n)
        } else {
            false
        },
        auto_mode_flag: flag_field(&f, 14 + 4 * d + n),
        auto_mode_moji_wait: if indexed {
            int_field(&f, 15 + 4 * d + n)
        } else {
            -1
        },
        auto_mode_min_wait: if indexed {
            int_field(&f, 16 + 4 * d + n)
        } else {
            -1
        },
        msg_speed: int_field(&f, 15 + 6 * d + n),
        msg_nowait: flag_field(&f, 16 + 6 * d + n),
        async_msg_mode: flag_field(&f, 17 + 6 * d + n),
        async_msg_mode_once: flag_field(&f, 18 + 6 * d + n),
        multi_msg_mode: if indexed {
            flag_field(&f, 19 + 6 * d + n)
        } else {
            false
        },
        skip_trigger: if indexed {
            flag_field(&f, 20 + 6 * d + n)
        } else {
            false
        },
        cursor_disp_off,
        cursor_move_by_key_disable: flag_field(&f, 20 + 8 * d + n),
        mwnd_anime_on_flag: flag_field(&f, 277 + 8 * d + n),
        mwnd_anime_off_flag: flag_field(&f, 278 + 8 * d + n),
        mwnd_disp_off_flag: flag_field(&f, 279 + 8 * d + n),
        koe_dont_stop_on_flag: flag_field(&f, 280 + 8 * d + n),
        koe_dont_stop_off_flag: flag_field(&f, 281 + 8 * d + n),
        quake_stop_flag: flag_field(&f, 282 + 8 * d + n),
        cg_table_off: flag_field(&f, 283 + 8 * d + n),
        bgmfade_flag: flag_field(&f, 284 + 8 * d + n),
        dont_set_save_point: if indexed {
            flag_field(&f, 285 + 8 * d + n)
        } else {
            false
        },
        ignore_r_flag: if indexed {
            flag_field(&f, 286 + 8 * d + n)
        } else {
            false
        },
        wait_display_vsync_off_flag: if indexed {
            flag_field(&f, 287 + 8 * d + n)
        } else {
            false
        },
        mwnd_btn_disable: take_flags(&f, 7 + 2 * d, n),
        key_disable: take_flags(&f, 21 + 8 * d + n, 256),
        cursor_runtime_visible: !cursor_disp_off,
        current_save_full_message: String::new(),
        font_name: String::new(),
        font_bold: -1,
        font_shadow: -1,
        msg_back_disable: false,
        auto_mode_moji_cnt: 0,
        mouse_cursor_hide_onoff: -1,
        mouse_cursor_hide_time: -1,
        msg_back_save_cntr: 0,
        emote_mouth_stop_flag: false,
        time_stop_flag: false,
        counter_time_stop_flag: false,
        frame_action_time_stop_flag: false,
        stage_time_stop_flag: false,
        replay_koe: if cur_koe_no >= 0 {
            Some((cur_koe_no, cur_chr_no))
        } else {
            None
        },
    };
    proof {
        assert(s.current_save_full_message@ =~= Seq::<char>::empty());
        assert(s.font_name@ =~= Seq::<char>::empty());
    }
    Ok(s)
}

/// Reads the settings of the oldest layout.
pub fn read_short_local_settings(rd: &mut StreamReader, button_count: usize) -> (r: Result<
    LocalSettings,
    StreamError,
>)
    requires
        old(rd).wf(),
        button_count <= usize::MAX - 1000,
    ensures
        final(rd).wf(),
        final(rd).data == old(rd).data,
        match (r, settings_of(old(rd).rest(), button_count as int, false)) {
            (Ok(s), Ok(p)) => settings_from(s, p.0, button_count as int, false) && final(rd).rest()
                == p.1,
            (Err(a), Err(b)) => a == b,
            _ => false,
        },
{
    read_settings(rd, button_count, false)
}

/// Reads the settings of the layout that came after it.
pub fn read_indexed_local_settings(rd: &mut StreamReader, button_count: usize) -> (r: Result<
    LocalSettings,
    StreamError,
>)
    requires
        old(rd).wf(),
        button_count <= usize::MAX - 1000,
    ensures
        final(rd).wf(),
        final(rd).data == old(rd).data,
        match (r, settings_of(old(rd).rest(), button_count as int, true)) {
            (Ok(s), Ok(p)) => settings_from(s, p.0, button_count as int, true) && final(rd).rest()
                == p.1,
            (Err(a), Err(b)) => a == b,
            _ => false,
        },
{
    read_settings(rd, button_count, true)
}

/// The settings of the oldest layout: four words and a title, and then the marks in single bytes,
/// with the speed of the messages between them. What the layout does not hold keeps its usual value.
#[verifier::spinoff_prover]
#[verifier::rlimit(80)]
pub proof fn settings_are_read_in_their_order(s: LocalSettings, b: Seq<u8>, n: int)
    requires
        n >= 0,
        settings_of(b, n, false) is Ok,
        settings_from(s, settings_of(b, n, false)->Ok_0.0, n, false),
    ensures
        ({
            let p = short_layout::text_end(b, 16);
            &&& s.cur_koe_no == bytes::i32_at(b, 0)
            &&& s.cur_chr_no == bytes::i32_at(b, 4)
            &&& s.cur_read_flag_scn_no == bytes::i32_at(b, 8)
            &&& s.cur_read_flag_flag_no == bytes::i32_at(b, 12)
            &&& s.current_save_scene_title@ == short_layout::text_from(b, 16)
            &&& s.cursor_no == 0
            &&& s.syscom_menu_disable == (b[p] != 0)
            &&& s.hide_mwnd_disable == (b[p + 1] != 0)
            &&& s.mwnd_btn_disable_all == false
            &&& s.mwnd_btn_touch_disable == (b[p + 2 + n] != 0)
            &&& s.skip_disable == (b[p + 3 + n] != 0)
            &&& s.ctrl_disable == (b[p + 4 + n] != 0)
            &&& s.not_stop_skip_by_click == (b[p + 5 + n] != 0)
            &&& s.not_skip_msg_by_click == (b[p + 6 + n] != 0)
            &&& s.skip_unread_message == (b[p + 7 + n] != 0)
            &&& s.shortcut_disable == (b[p + 8 + n] != 0)
            &&& s.msg_back_off == false
            &&& s.msg_back_disp_off == false
            &&& s.auto_mode_flag == (b[p + 9 + n] != 0)
            &&& s.auto_mode_moji_wait == -1
            &&& s.auto_mode_min_wait == -1
            &&& s.msg_speed == bytes::i32_at(b, p + 10 + n)
            &&& s.msg_nowait == (b[p + 14 + n] != 0)
            &&& s.async_msg_mode == (b[p + 15 + n] != 0)
            &&& s.async_msg_mode_once == (b[p + 16 + n] != 0)
            &&& s.multi_msg_mode == false
            &&& s.skip_trigger == false
            &&& s.cursor_disp_off == (b[p + 17 + n] != 0)
            &&& s.cursor_move_by_key_disable == (b[p + 18 + n] != 0)
            &&& s.mwnd_anime_on_flag == (b[p + 275 + n] != 0)
            &&& s.mwnd_anime_off_flag == (b[p + 276 + n] != 0)
            &&& s.mwnd_disp_off_flag == (b[p + 277 + n] != 0)
            &&& s.koe_dont_stop_on_flag == (b[p + 278 + n] != 0)
            &&& s.koe_dont_stop_off_flag == (b[p + 279 + n] != 0)
            &&& s.quake_stop_flag == (b[p + 280 + n] != 0)
            &&& s.cg_table_off == (b[p + 281 + n] != 0)
            &&& s.bgmfade_flag == (b[p + 282 + n] != 0)
            &&& s.dont_set_save_point == false
            &&& s.ignore_r_flag == false
            &&& s.wait_display_vsync_off_flag == false
            &&& s.mwnd_btn_disable@ == Seq::new(n as nat, |i: int| b[p + 2 + i] != 0)
            &&& s.key_disable@ == Seq::new(256int as nat, |i: int| b[p + 19 + n + i] != 0)
            &&& s.cursor_runtime_visible == !s.cursor_disp_off
        }),
{
    assert(b.skip(0) =~= b);
    let p = short_layout::text_end(b, 16);
    let k0 = record::rep(Kind::Int, 4);
    let k1 = record::rep(Kind::Text, 1);
    let k2 = record::rep(Kind::Int, 0);
    let k3 = record::rep(Kind::Flag, 10 + n);
    let k4 = record::rep(Kind::Int, 1);
    let k5 = record::rep(Kind::Flag, 269);
    assert(settings_kinds(n, false) =~= k0 + k1 + k2 + k3 + k4 + k5);
    short_layout::lemma_behind(b, k0 + k1 + k2 + k3 + k4, k5);
    short_layout::lemma_behind(b, k0 + k1 + k2 + k3, k4);
    short_layout::lemma_behind(b, k0 + k1 + k2, k3);
    short_layout::lemma_behind(b, k0 + k1, k2);
    short_layout::lemma_behind(b, k0, k1);
    short_layout::lemma_ints(b, 0, 4);
    short_layout::lemma_text(b, 16);
    short_layout::lemma_ints(b, p, 0);
    short_layout::lemma_flags(b, p + 0, 10 + n);
    short_layout::lemma_ints(b, p + 10 + n, 1);
    short_layout::lemma_flags(b, p + 14 + n, 269);
    let f = settings_of(b, n, false)->Ok_0.0;
    assert(flags_from(f, 7, n) =~= Seq::new(n as nat, |i: int| b[p + 2 + i] != 0));
    assert(flags_from(f, 21 + n, 256) =~= Seq::new(256int as nat, |i: int| b[p + 19 + n + i] != 0));
}

/// The settings of a layout that counts its parts: four words and a title, the cursor, and then the marks
/// in single bytes, with the times of the automatic mode and the speed of the messages between them.
#[verifier::spinoff_prover]
#[verifier::rlimit(80)]
pub proof fn indexed_settings_are_read_in_their_order(s: LocalSettings, b: Seq<u8>, n: int)
    requires
        n >= 0,
        settings_of(b, n, true) is Ok,
        settings_from(s, settings_of(b, n, true)->Ok_0.0, n, true),
    ensures
        ({
            let p = short_layout::text_end(b, 16);
            &&& s.cur_koe_no == bytes::i32_at(b, 0)
            &&& s.cur_chr_no == bytes::i32_at(b, 4)
            &&& s.cur_read_flag_scn_no == bytes::i32_at(b, 8)
            &&& s.cur_read_flag_flag_no == bytes::i32_at(b, 12)
            &&& s.current_save_scene_title@ == short_layout::text_from(b, 16)
            &&& s.cursor_no == bytes::i32_at(b, p)
            &&& s.syscom_menu_disable == (b[p + 4] != 0)
            &&& s.hide_mwnd_disable == (b[p + 5] != 0)
            &&& s.mwnd_btn_disable_all == (b[p + 6] != 0)
            &&& s.mwnd_btn_touch_disable == (b[p + 7 + n] != 0)
            &&& s.skip_disable == (b[p + 8 + n] != 0)
            &&& s.ctrl_disable == (b[p + 9 + n] != 0)
            &&& s.not_stop_skip_by_click == (b[p + 10 + n] != 0)
            &&& s.not_skip_msg_by_click == (b[p + 11 + n] != 0)
            &&& s.skip_unread_message == (b[p + 12 + n] != 0)
            &&& s.shortcut_disable == (b[p + 13 + n] != 0)
            &&& s.msg_back_off == (b[p + 14 + n] != 0)
            &&& s.msg_back_disp_off == (b[p + 15 + n] != 0)
            &&& s.auto_mode_flag == (b[p + 16 + n] != 0)
            &&& s.auto_mode_moji_wait == bytes::i32_at(b, p + 17 + n)
            &&& s.auto_mode_min_wait == bytes::i32_at(b, p + 21 + n)
            &&& s.msg_speed == bytes::i32_at(b, p + 25 + n)
            &&& s.msg_nowait == (b[p + 29 + n] != 0)
            &&& s.async_msg_mode == (b[p + 30 + n] != 0)
            &&& s.async_msg_mode_once == (b[p + 31 + n] != 0)
            &&& s.multi_msg_mode == (b[p + 32 + n] != 0)
            &&& s.skip_trigger == (b[p + 33 + n] != 0)
            &&& s.cursor_disp_off == (b[p + 34 + n] != 0)
            &&& s.cursor_move_by_key_disable == (b[p + 35 + n] != 0)
            &&& s.mwnd_anime_on_flag == (b[p + 292 + n] != 0)
            &&& s.mwnd_anime_off_flag == (b[p + 293 + n] != 0)
            &&& s.mwnd_disp_off_flag == (b[p + 294 + n] != 0)
            &&& s.koe_dont_stop_on_flag == (b[p + 295 + n] != 0)
            &&& s.koe_dont_stop_off_flag == (b[p + 296 + n] != 0)
            &&& s.quake_stop_flag == (b[p + 297 + n] != 0)
            &&& s.cg_table_off == (b[p + 298 + n] != 0)
            &&& s.bgmfade_flag == (b[p + 299 + n] != 0)
            &&& s.dont_set_save_point == (b[p + 300 + n] != 0)
            &&& s.ignore_r_flag == (b[p + 301 + n] != 0)
            &&& s.wait_display_vsync_off_flag == (b[p + 302 + n] != 0)
            &&& s.mwnd_btn_disable@ == Seq::new(n as nat, |i: int| b[p + 7 + i] != 0)
            &&& s.key_disable@ == Seq::new(256int as nat, |i: int| b[p + 36 + n + i] != 0)
            &&& s.cursor_runtime_visible == !s.cursor_disp_off
        }),
{
    assert(b.skip(0) =~= b);
    let p = short_layout::text_end(b, 16);
    let k0 = record::rep(Kind::Int, 4);
    let k1 = record::rep(Kind::Text, 1);
    let k2 = record::rep(Kind::Int, 1);
    let k3 = record::rep(Kind::Flag, 13 + n);
    let k4 = record::rep(Kind::Int, 3);
    let k5 = record::rep(Kind::Flag, 274);
    assert(settings_kinds(n, true) =~= k0 + k1 + k2 + k3 + k4 + k5);
    short_layout::lemma_behind(b, k0 + k1 + k2 + k3 + k4, k5);
    short_layout::lemma_behind(b, k0 + k1 + k2 + k3, k4);
    short_layout::lemma_behind(b, k0 + k1 + k2, k3);
    short_layout::lemma_behind(b, k0 + k1, k2);
    short_layout::lemma_behind(b, k0, k1);
    short_layout::lemma_ints(b, 0, 4);
    short_layout::lemma_text(b, 16);
    short_layout::lemma_ints(b, p, 1);
    short_layout::lemma_flags(b, p + 4, 13 + n);
    short_layout::lemma_ints(b, p + 17 + n, 3);
    short_layout::lemma_flags(b, p + 29 + n, 274);
    let f = settings_of(b, n, true)->Ok_0.0;
    assert(flags_from(f, 9, n) =~= Seq::new(n as nat, |i: int| b[p + 7 + i] != 0));
    assert(flags_from(f, 29 + n, 256) =~= Seq::new(256int as nat, |i: int| b[p + 36 + n + i] != 0));
}

} // verus!
