//! The records of the oldest save layout.

use vstd::prelude::*;
use crate::runtime::stream::{StreamError, StreamReader};
use crate::vm::record;
use crate::vm::record::{
    flag_field,
    half_field,
    int_field,
    push_kinds,
    read_record,
    text_field,
    FieldView,
    Kind,
};

verus! {

/// A volume within its limits.
pub open spec fn volume(v: i64) -> u8 {
    if v < 0 {
        0
    } else if v > 255 {
        255
    } else {
        v as u8
    }
}

fn clamp_volume(v: i64) -> (r: u8)
    ensures
        r == volume(v),
{
    if v < 0 {
        0
    } else if v > 255 {
        255
    } else {
        v as u8
    }
}

/// The bytes of a color, the highest first.
pub open spec fn color_of(v: i64) -> (u8, u8, u8, u8) {
    let w = v as int % 0x1_0000_0000;
    (
        (w / 0x100_0000) as u8,
        (w / 0x1_0000 % 0x100) as u8,
        (w / 0x100 % 0x100) as u8,
        (w % 0x100) as u8,
    )
}

fn split_color(v: i64) -> (r: (u8, u8, u8, u8))
    requires
        i32::MIN <= v <= i32::MAX,
    ensures
        r == color_of(v),
{
    let w: u64 = if v < 0 {
        (v + 0x1_0000_0000) as u64
    } else {
        v as u64
    };
    (
        (w / 0x100_0000) as u8,
        (w / 0x1_0000 % 0x100) as u8,
        (w / 0x100 % 0x100) as u8,
        (w % 0x100) as u8,
    )
}

/// A camera and what it looks at.
#[derive(Debug)]
pub struct ShortWorld {
    pub mode: i64,
    pub camera_eye: (i64, i64, i64),
    pub camera_pint: (i64, i64, i64),
    pub camera_up: (i64, i64, i64),
    pub camera_view_angle: i64,
    pub mono: i64,
}

pub open spec fn world_kinds() -> Seq<Kind> {
    record::rep(Kind::Int, 12)
}

/// Whether the record is what the fields say.
pub open spec fn world_from(r: ShortWorld, f: Seq<FieldView>) -> bool {
    &&& r.mode == record::int_at(f, 0)
    &&& r.camera_eye == (record::int_at(f, 1), record::int_at(f, 2), record::int_at(f, 3))
    &&& r.camera_pint == (record::int_at(f, 4), record::int_at(f, 5), record::int_at(f, 6))
    &&& r.camera_up == (record::int_at(f, 7), record::int_at(f, 8), record::int_at(f, 9))
    &&& r.camera_view_angle == record::int_at(f, 10)
    &&& r.mono == record::int_at(f, 11)
}

pub fn read_short_world(rd: &mut StreamReader) -> (r: Result<ShortWorld, StreamError>)
    requires
        old(rd).wf(),
    ensures
        final(rd).wf(),
        final(rd).data == old(rd).data,
        match (r, record::fields_of(old(rd).rest(), world_kinds())) {
            (Ok(v), Ok(p)) => world_from(v, p.0) && final(rd).rest() == p.1,
            (Err(a), Err(b)) => a == b,
            _ => false,
        },
{
    let mut kinds: Vec<Kind> = Vec::new();
    push_kinds(&mut kinds, Kind::Int, 12);
    proof {
        assert(kinds@ =~= world_kinds());
    }
    let f = match read_record(rd, &kinds) {
        Ok(f) => f,
        Err(e) => {
            return Err(e);
        },
    };
    Ok(
        ShortWorld {
            mode: int_field(&f, 0),
            camera_eye: (int_field(&f, 1), int_field(&f, 2), int_field(&f, 3)),
            camera_pint: (int_field(&f, 4), int_field(&f, 5), int_field(&f, 6)),
            camera_up: (int_field(&f, 7), int_field(&f, 8), int_field(&f, 9)),
            camera_view_angle: int_field(&f, 10),
            mono: int_field(&f, 11),
        },
    )
}

/// A group of buttons.
#[derive(Debug)]
pub struct ShortGroup {
    pub order: i64,
    pub layer: i64,
    pub cancel_se_no: i64,
    pub decided_button_no: i64,
    pub started: bool,
    pub wait_flag: bool,
    pub cancel_flag: bool,
}

pub open spec fn group_kinds() -> Seq<Kind> {
    record::rep(Kind::Int, 4) + record::rep(Kind::Flag, 3) + record::rep(Kind::Skip(1), 1)
}

/// Whether the record is what the fields say.
pub open spec fn group_from(r: ShortGroup, f: Seq<FieldView>) -> bool {
    &&& r.order == record::int_at(f, 0)
    &&& r.layer == record::int_at(f, 1)
    &&& r.cancel_se_no == record::int_at(f, 2)
    &&& r.decided_button_no == record::int_at(f, 3)
    &&& r.started == record::flag_at(f, 4)
    &&& r.wait_flag == record::flag_at(f, 5)
    &&& r.cancel_flag == record::flag_at(f, 6)
}

pub fn read_short_group(rd: &mut StreamReader) -> (r: Result<ShortGroup, StreamError>)
    requires
        old(rd).wf(),
    ensures
        final(rd).wf(),
        final(rd).data == old(rd).data,
        match (r, record::fields_of(old(rd).rest(), group_kinds())) {
            (Ok(v), Ok(p)) => group_from(v, p.0) && final(rd).rest() == p.1,
            (Err(a), Err(b)) => a == b,
            _ => false,
        },
{
    let mut kinds: Vec<Kind> = Vec::new();
    push_kinds(&mut kinds, Kind::Int, 4);
    push_kinds(&mut kinds, Kind::Flag, 3);
    push_kinds(&mut kinds, Kind::Skip(1), 1);
    proof {
        assert(kinds@ =~= group_kinds());
    }
    let f = match read_record(rd, &kinds) {
        Ok(f) => f,
        Err(e) => {
            return Err(e);
        },
    };
    Ok(
        ShortGroup {
            order: int_field(&f, 0),
            layer: int_field(&f, 1),
            cancel_se_no: int_field(&f, 2),
            decided_button_no: int_field(&f, 3),
            started: flag_field(&f, 4),
            wait_flag: flag_field(&f, 5),
            cancel_flag: flag_field(&f, 6),
        },
    )
}

/// A channel of sounds.
#[derive(Debug)]
pub struct ShortPcmCh {
    pub pcm_name: String,
    pub koe_no: i64,
    pub se_no: i64,
    pub volume_type: i64,
    pub chara_no: i64,
    pub volume: i64,
    pub loop_flag: bool,
    pub bgm_fade_target_flag: bool,
    pub bgm_fade2_target_flag: bool,
    pub bgm_fade_source_flag: bool,
}

pub open spec fn pcmch_kinds() -> Seq<Kind> {
    record::rep(Kind::Text, 1) + record::rep(Kind::Int, 5) + record::rep(Kind::Flag, 4)
}

/// Whether the record is what the fields say.
pub open spec fn pcmch_from(r: ShortPcmCh, f: Seq<FieldView>) -> bool {
    &&& r.pcm_name@ == record::text_at(f, 0)
    &&& r.koe_no == record::int_at(f, 1)
    &&& r.se_no == record::int_at(f, 2)
    &&& r.volume_type == record::int_at(f, 3)
    &&& r.chara_no == record::int_at(f, 4)
    &&& r.volume == record::int_at(f, 5)
    &&& r.loop_flag == record::flag_at(f, 6)
    &&& r.bgm_fade_target_flag == record::flag_at(f, 7)
    &&& r.bgm_fade2_target_flag == record::flag_at(f, 8)
    &&& r.bgm_fade_source_flag == record::flag_at(f, 9)
}

pub fn read_short_pcmch(rd: &mut StreamReader) -> (r: Result<ShortPcmCh, StreamError>)
    requires
        old(rd).wf(),
    ensures
        final(rd).wf(),
        final(rd).data == old(rd).data,
        match (r, record::fields_of(old(rd).rest(), pcmch_kinds())) {
            (Ok(v), Ok(p)) => pcmch_from(v, p.0) && final(rd).rest() == p.1,
            (Err(a), Err(b)) => a == b,
            _ => false,
        },
{
    let mut kinds: Vec<Kind> = Vec::new();
    push_kinds(&mut kinds, Kind::Text, 1);
    push_kinds(&mut kinds, Kind::Int, 5);
    push_kinds(&mut kinds, Kind::Flag, 4);
    proof {
        assert(kinds@ =~= pcmch_kinds());
    }
    let f = match read_record(rd, &kinds) {
        Ok(f) => f,
        Err(e) => {
            return Err(e);
        },
    };
    Ok(
        ShortPcmCh {
            pcm_name: text_field(&f, 0),
            koe_no: int_field(&f, 1),
            se_no: int_field(&f, 2),
            volume_type: int_field(&f, 3),
            chara_no: int_field(&f, 4),
            volume: int_field(&f, 5),
            loop_flag: flag_field(&f, 6),
            bgm_fade_target_flag: flag_field(&f, 7),
            bgm_fade2_target_flag: flag_field(&f, 8),
            bgm_fade_source_flag: flag_field(&f, 9),
        },
    )
}

/// What stands before the channels of the sound record.
#[derive(Debug)]
pub struct ShortSoundHead {
    pub bgm_regist_name: String,
    pub bgm_volume: u8,
    pub bgm_loop_flag: bool,
    pub koe_volume: u8,
    pub pcm_volume: u8,
}

pub open spec fn sound_head_kinds() -> Seq<Kind> {
    record::rep(Kind::Text, 1)
        + record::rep(Kind::Int, 1)
        + record::rep(Kind::Flag, 1)
        + record::rep(Kind::Int, 2)
}

/// Whether the record is what the fields say.
pub open spec fn sound_head_from(r: ShortSoundHead, f: Seq<FieldView>) -> bool {
    &&& r.bgm_regist_name@ == record::text_at(f, 0)
    &&& r.bgm_volume == volume(record::int_at(f, 1))
    &&& r.bgm_loop_flag == record::flag_at(f, 2)
    &&& r.koe_volume == volume(record::int_at(f, 3))
    &&& r.pcm_volume == volume(record::int_at(f, 4))
}

pub fn read_short_sound_head(rd: &mut StreamReader) -> (r: Result<ShortSoundHead, StreamError>)
    requires
        old(rd).wf(),
    ensures
        final(rd).wf(),
        final(rd).data == old(rd).data,
        match (r, record::fields_of(old(rd).rest(), sound_head_kinds())) {
            (Ok(v), Ok(p)) => sound_head_from(v, p.0) && final(rd).rest() == p.1,
            (Err(a), Err(b)) => a == b,
            _ => false,
        },
{
    let mut kinds: Vec<Kind> = Vec::new();
    push_kinds(&mut kinds, Kind::Text, 1);
    push_kinds(&mut kinds, Kind::Int, 1);
    push_kinds(&mut kinds, Kind::Flag, 1);
    push_kinds(&mut kinds, Kind::Int, 2);
    proof {
        assert(kinds@ =~= sound_head_kinds());
    }
    let f = match read_record(rd, &kinds) {
        Ok(f) => f,
        Err(e) => {
            return Err(e);
        },
    };
    Ok(
        ShortSoundHead {
            bgm_regist_name: text_field(&f, 0),
            bgm_volume: clamp_volume(int_field(&f, 1)),
            bgm_loop_flag: flag_field(&f, 2),
            koe_volume: clamp_volume(int_field(&f, 3)),
            pcm_volume: clamp_volume(int_field(&f, 4)),
        },
    )
}

/// What stands behind the channels of the sound record.
#[derive(Debug)]
pub struct ShortSoundTail {
    pub se_volume: u8,
    pub mov_file_name: String,
}

pub open spec fn sound_tail_kinds() -> Seq<Kind> {
    record::rep(Kind::Int, 1) + record::rep(Kind::Text, 1)
}

/// Whether the record is what the fields say.
pub open spec fn sound_tail_from(r: ShortSoundTail, f: Seq<FieldView>) -> bool {
    &&& r.se_volume == volume(record::int_at(f, 0))
    &&& r.mov_file_name@ == record::text_at(f, 1)
}

pub fn read_short_sound_tail(rd: &mut StreamReader) -> (r: Result<ShortSoundTail, StreamError>)
    requires
        old(rd).wf(),
    ensures
        final(rd).wf(),
        final(rd).data == old(rd).data,
        match (r, record::fields_of(old(rd).rest(), sound_tail_kinds())) {
            (Ok(v), Ok(p)) => sound_tail_from(v, p.0) && final(rd).rest() == p.1,
            (Err(a), Err(b)) => a == b,
            _ => false,
        },
{
    let mut kinds: Vec<Kind> = Vec::new();
    push_kinds(&mut kinds, Kind::Int, 1);
    push_kinds(&mut kinds, Kind::Text, 1);
    proof {
        assert(kinds@ =~= sound_tail_kinds());
    }
    let f = match read_record(rd, &kinds) {
        Ok(f) => f,
        Err(e) => {
            return Err(e);
        },
    };
    Ok(
        ShortSoundTail {
            se_volume: clamp_volume(int_field(&f, 0)),
            mov_file_name: text_field(&f, 1),
        },
    )
}

/// A message window, up to its messages. The animation that the record names last counts.
#[derive(Debug)]
pub struct ShortMwndHead {
    pub order: i64,
    pub layer: i64,
    pub world: i64,
    pub novel_mode: i64,
    pub mwnd_extend_type: i64,
    pub window_pos: (i64, i64),
    pub window_size: (i64, i64),
    pub message_pos: (i64, i64),
    pub message_margin: (i64, i64, i64, i64),
    pub name_disp_mode: i64,
    pub name_bracket: i64,
    pub name_extend_type: i64,
    pub name_window_pos: (i64, i64),
    pub name_window_size: (i64, i64),
    pub name_window_rect: (i64, i64, i64, i64),
    pub name_message_pos: (i64, i64),
    pub name_message_margin: (i64, i64, i64, i64),
    pub overflow_check_size: i64,
    pub time: i64,
    pub msg_block_started: bool,
    pub window_appear: bool,
    pub open: bool,
    pub name_appear: bool,
    pub clear_ready: bool,
    pub auto_mode_end_moji_cnt: i64,
    pub target_msg_no: i64,
    pub slide_msg: bool,
    pub slide_time: i64,
    pub koe: Option<(i64, i64)>,
    pub koe_play_flag: bool,
    pub open_anime_type: i64,
    pub open_anime_time: i64,
    pub open_anime_start_time: i64,
    pub close_anime_type: i64,
    pub close_anime_time: i64,
    pub close_anime_start_time: i64,
}

pub open spec fn mwnd_head_kinds() -> Seq<Kind> {
    record::rep(Kind::Int, 38)
        + record::rep(Kind::Flag, 4)
        + record::rep(Kind::Int, 2)
        + record::rep(Kind::Flag, 1)
        + record::rep(Kind::Int, 2)
        + record::rep(Kind::Flag, 1)
        + record::rep(Kind::Int, 6)
}

/// Whether the record is what the fields say.
pub open spec fn mwnd_head_from(r: ShortMwndHead, f: Seq<FieldView>) -> bool {
    &&& r.order == record::int_at(f, 0)
    &&& r.layer == record::int_at(f, 1)
    &&& r.world == record::int_at(f, 2)
    &&& r.novel_mode == record::int_at(f, 3)
    &&& r.mwnd_extend_type == record::int_at(f, 4)
    &&& r.window_pos == (record::int_at(f, 5), record::int_at(f, 6))
    &&& r.window_size == (record::int_at(f, 7), record::int_at(f, 8))
    &&& r.message_pos == (record::int_at(f, 9), record::int_at(f, 10))
    &&& r.message_margin == (record::int_at(f, 11), record::int_at(f, 12), record::int_at(f, 13), record::int_at(f, 14))
    &&& r.name_disp_mode == record::int_at(f, 15)
    &&& r.name_bracket == record::int_at(f, 16)
    &&& r.name_extend_type == record::int_at(f, 17)
    &&& r.name_window_pos == (record::int_at(f, 18), record::int_at(f, 19))
    &&& r.name_window_size == (record::int_at(f, 20), record::int_at(f, 21))
    &&& r.name_window_rect == (record::int_at(f, 22), record::int_at(f, 23), record::int_at(f, 24), record::int_at(f, 25))
    &&& r.name_message_pos == (record::int_at(f, 26), record::int_at(f, 27))
    &&& r.name_message_margin == (record::int_at(f, 28), record::int_at(f, 29), record::int_at(f, 30), record::int_at(f, 31))
    &&& r.overflow_check_size == record::int_at(f, 32)
    &&& r.time == record::int_at(f, 37)
    &&& r.msg_block_started == record::flag_at(f, 38)
    &&& r.window_appear == record::flag_at(f, 39)
    &&& r.open == record::flag_at(f, 39)
    &&& r.name_appear == record::flag_at(f, 40)
    &&& r.clear_ready == record::flag_at(f, 41)
    &&& r.auto_mode_end_moji_cnt == record::int_at(f, 42)
    &&& r.target_msg_no == record::int_at(f, 43)
    &&& r.slide_msg == record::flag_at(f, 44)
    &&& r.slide_time == record::int_at(f, 45)
    &&& r.koe == (if record::flag_at(f, 47) {
        Some((record::int_at(f, 46), 0i64))
    } else {
        None
    })
    &&& r.koe_play_flag == record::flag_at(f, 47)
    &&& r.open_anime_type == record::int_at(f, 48)
    &&& r.open_anime_time == record::int_at(f, 49)
    &&& r.open_anime_start_time == record::int_at(f, 50)
    &&& r.close_anime_type == record::int_at(f, 51)
    &&& r.close_anime_time == record::int_at(f, 52)
    &&& r.close_anime_start_time == record::int_at(f, 53)
}

pub fn read_short_mwnd_head(rd: &mut StreamReader) -> (r: Result<ShortMwndHead, StreamError>)
    requires
        old(rd).wf(),
    ensures
        final(rd).wf(),
        final(rd).data == old(rd).data,
        match (r, record::fields_of(old(rd).rest(), mwnd_head_kinds())) {
            (Ok(v), Ok(p)) => mwnd_head_from(v, p.0) && final(rd).rest() == p.1,
            (Err(a), Err(b)) => a == b,
            _ => false,
        },
{
    let mut kinds: Vec<Kind> = Vec::new();
    push_kinds(&mut kinds, Kind::Int, 38);
    push_kinds(&mut kinds, Kind::Flag, 4);
    push_kinds(&mut kinds, Kind::Int, 2);
    push_kinds(&mut kinds, Kind::Flag, 1);
    push_kinds(&mut kinds, Kind::Int, 2);
    push_kinds(&mut kinds, Kind::Flag, 1);
    push_kinds(&mut kinds, Kind::Int, 6);
    proof {
        assert(kinds@ =~= mwnd_head_kinds());
    }
    let f = match read_record(rd, &kinds) {
        Ok(f) => f,
        Err(e) => {
            return Err(e);
        },
    };
    Ok(
        ShortMwndHead {
            order: int_field(&f, 0),
            layer: int_field(&f, 1),
            world: int_field(&f, 2),
            novel_mode: int_field(&f, 3),
            mwnd_extend_type: int_field(&f, 4),
            window_pos: (int_field(&f, 5), int_field(&f, 6)),
            window_size: (int_field(&f, 7), int_field(&f, 8)),
            message_pos: (int_field(&f, 9), int_field(&f, 10)),
            message_margin: (int_field(&f, 11), int_field(&f, 12), int_field(&f, 13), int_field(&f, 14)),
            name_disp_mode: int_field(&f, 15),
            name_bracket: int_field(&f, 16),
            name_extend_type: int_field(&f, 17),
            name_window_pos: (int_field(&f, 18), int_field(&f, 19)),
            name_window_size: (int_field(&f, 20), int_field(&f, 21)),
            name_window_rect: (int_field(&f, 22), int_field(&f, 23), int_field(&f, 24), int_field(&f, 25)),
            name_message_pos: (int_field(&f, 26), int_field(&f, 27)),
            name_message_margin: (int_field(&f, 28), int_field(&f, 29), int_field(&f, 30), int_field(&f, 31)),
            overflow_check_size: int_field(&f, 32),
            time: int_field(&f, 37),
            msg_block_started: flag_field(&f, 38),
            window_appear: flag_field(&f, 39),
            open: flag_field(&f, 39),
            name_appear: flag_field(&f, 40),
            clear_ready: flag_field(&f, 41),
            auto_mode_end_moji_cnt: int_field(&f, 42),
            target_msg_no: int_field(&f, 43),
            slide_msg: flag_field(&f, 44),
            slide_time: int_field(&f, 45),
            koe: if flag_field(&f, 47) {
                Some((int_field(&f, 46), 0))
            } else {
                None
            },
            koe_play_flag: flag_field(&f, 47),
            open_anime_type: int_field(&f, 48),
            open_anime_time: int_field(&f, 49),
            open_anime_start_time: int_field(&f, 50),
            close_anime_type: int_field(&f, 51),
            close_anime_time: int_field(&f, 52),
            close_anime_start_time: int_field(&f, 53),
        },
    )
}

/// A page of a message window, up to its characters.
#[derive(Debug)]
pub struct ShortPageHead {
    pub window_moji_cnt: (i64, i64),
    pub cursor_pos: (i64, i64),
    pub moji_rep_pos: (i64, i64),
    pub moji_size: i64,
    pub moji_space: (i64, i64),
    pub moji_color: i64,
    pub shadow_color: i64,
    pub ruby_size: i64,
    pub ruby_space: i64,
    pub message_margin: (i64, i64, i64, i64),
    pub chara_moji_color: i64,
    pub chara_shadow_color: i64,
    pub indent_pos: i64,
    pub indent_unit: u16,
    pub indent_count: i64,
    pub cur_msg_type: i64,
    pub cur_msg_type_decided: bool,
    pub line_head: bool,
    pub ruby_start_pos: (i64, i64),
    pub ruby_start_ready: bool,
    pub disp_moji_cnt: i64,
    pub hide_moji_cnt: i64,
    pub debug_msg: String,
    pub ruby: String,
}

pub open spec fn page_head_kinds() -> Seq<Kind> {
    record::rep(Kind::Int, 20)
        + record::rep(Kind::Half, 1)
        + record::rep(Kind::Int, 2)
        + record::rep(Kind::Flag, 2)
        + record::rep(Kind::Int, 2)
        + record::rep(Kind::Flag, 1)
        + record::rep(Kind::Int, 2)
        + record::rep(Kind::Text, 2)
}

/// Whether the record is what the fields say.
pub open spec fn page_head_from(r: ShortPageHead, f: Seq<FieldView>) -> bool {
    &&& r.window_moji_cnt == (record::int_at(f, 0), record::int_at(f, 1))
    &&& r.cursor_pos == (record::int_at(f, 2), record::int_at(f, 3))
    &&& r.moji_rep_pos == (record::int_at(f, 4), record::int_at(f, 5))
    &&& r.moji_size == record::int_at(f, 6)
    &&& r.moji_space == (record::int_at(f, 7), record::int_at(f, 8))
    &&& r.moji_color == record::int_at(f, 9)
    &&& r.shadow_color == record::int_at(f, 10)
    &&& r.ruby_size == record::int_at(f, 11)
    &&& r.ruby_space == record::int_at(f, 12)
    &&& r.message_margin == (record::int_at(f, 13), record::int_at(f, 14), record::int_at(f, 15), record::int_at(f, 16))
    &&& r.chara_moji_color == record::int_at(f, 17)
    &&& r.chara_shadow_color == record::int_at(f, 18)
    &&& r.indent_pos == record::int_at(f, 19)
    &&& r.indent_unit == record::half_at(f, 20)
    &&& r.indent_count == record::int_at(f, 21)
    &&& r.cur_msg_type == record::int_at(f, 22)
    &&& r.cur_msg_type_decided == record::flag_at(f, 23)
    &&& r.line_head == record::flag_at(f, 24)
    &&& r.ruby_start_pos == (record::int_at(f, 25), record::int_at(f, 26))
    &&& r.ruby_start_ready == record::flag_at(f, 27)
    &&& r.disp_moji_cnt == record::int_at(f, 28)
    &&& r.hide_moji_cnt == record::int_at(f, 29)
    &&& r.debug_msg@ == record::text_at(f, 30)
    &&& r.ruby@ == record::text_at(f, 31)
}

pub fn read_short_page_head(rd: &mut StreamReader) -> (r: Result<ShortPageHead, StreamError>)
    requires
        old(rd).wf(),
    ensures
        final(rd).wf(),
        final(rd).data == old(rd).data,
        match (r, record::fields_of(old(rd).rest(), page_head_kinds())) {
            (Ok(v), Ok(p)) => page_head_from(v, p.0) && final(rd).rest() == p.1,
            (Err(a), Err(b)) => a == b,
            _ => false,
        },
{
    let mut kinds: Vec<Kind> = Vec::new();
    push_kinds(&mut kinds, Kind::Int, 20);
    push_kinds(&mut kinds, Kind::Half, 1);
    push_kinds(&mut kinds, Kind::Int, 2);
    push_kinds(&mut kinds, Kind::Flag, 2);
    push_kinds(&mut kinds, Kind::Int, 2);
    push_kinds(&mut kinds, Kind::Flag, 1);
    push_kinds(&mut kinds, Kind::Int, 2);
    push_kinds(&mut kinds, Kind::Text, 2);
    proof {
        assert(kinds@ =~= page_head_kinds());
    }
    let f = match read_record(rd, &kinds) {
        Ok(f) => f,
        Err(e) => {
            return Err(e);
        },
    };
    Ok(
        ShortPageHead {
            window_moji_cnt: (int_field(&f, 0), int_field(&f, 1)),
            cursor_pos: (int_field(&f, 2), int_field(&f, 3)),
            moji_rep_pos: (int_field(&f, 4), int_field(&f, 5)),
            moji_size: int_field(&f, 6),
            moji_space: (int_field(&f, 7), int_field(&f, 8)),
            moji_color: int_field(&f, 9),
            shadow_color: int_field(&f, 10),
            ruby_size: int_field(&f, 11),
            ruby_space: int_field(&f, 12),
            message_margin: (int_field(&f, 13), int_field(&f, 14), int_field(&f, 15), int_field(&f, 16)),
            chara_moji_color: int_field(&f, 17),
            chara_shadow_color: int_field(&f, 18),
            indent_pos: int_field(&f, 19),
            indent_unit: half_field(&f, 20),
            indent_count: int_field(&f, 21),
            cur_msg_type: int_field(&f, 22),
            cur_msg_type_decided: flag_field(&f, 23),
            line_head: flag_field(&f, 24),
            ruby_start_pos: (int_field(&f, 25), int_field(&f, 26)),
            ruby_start_ready: flag_field(&f, 27),
            disp_moji_cnt: int_field(&f, 28),
            hide_moji_cnt: int_field(&f, 29),
            debug_msg: text_field(&f, 30),
            ruby: text_field(&f, 31),
        },
    )
}

/// The frame of a window, up to its faces and objects.
#[derive(Debug)]
pub struct ShortWaku {
    pub template_no: i64,
    pub filter_margin: (i64, i64, i64, i64),
    pub filter_color: (u8, u8, u8, u8),
    pub filter_config_color: bool,
    pub filter_config_tr: bool,
    pub key_icon_mode: i64,
    pub key_icon_pos: (i64, i64),
}

pub open spec fn waku_kinds() -> Seq<Kind> {
    record::rep(Kind::Int, 6)
        + record::rep(Kind::Flag, 2)
        + record::rep(Kind::Skip(2), 1)
        + record::rep(Kind::Int, 4)
}

/// Whether the record is what the fields say.
pub open spec fn waku_from(r: ShortWaku, f: Seq<FieldView>) -> bool {
    &&& r.template_no == record::int_at(f, 0)
    &&& r.filter_margin == (record::int_at(f, 1), record::int_at(f, 2), record::int_at(f, 3), record::int_at(f, 4))
    &&& r.filter_color == color_of(record::int_at(f, 5))
    &&& r.filter_config_color == record::flag_at(f, 6)
    &&& r.filter_config_tr == record::flag_at(f, 7)
    &&& r.key_icon_mode == record::int_at(f, 10)
    &&& r.key_icon_pos == (record::int_at(f, 11), record::int_at(f, 12))
}

pub fn read_short_waku(rd: &mut StreamReader) -> (r: Result<ShortWaku, StreamError>)
    requires
        old(rd).wf(),
    ensures
        final(rd).wf(),
        final(rd).data == old(rd).data,
        match (r, record::fields_of(old(rd).rest(), waku_kinds())) {
            (Ok(v), Ok(p)) => waku_from(v, p.0) && final(rd).rest() == p.1,
            (Err(a), Err(b)) => a == b,
            _ => false,
        },
{
    let mut kinds: Vec<Kind> = Vec::new();
    push_kinds(&mut kinds, Kind::Int, 6);
    push_kinds(&mut kinds, Kind::Flag, 2);
    push_kinds(&mut kinds, Kind::Skip(2), 1);
    push_kinds(&mut kinds, Kind::Int, 4);
    proof {
        assert(kinds@ =~= waku_kinds());
    }
    let f = match read_record(rd, &kinds) {
        Ok(f) => f,
        Err(e) => {
            return Err(e);
        },
    };
    Ok(
        ShortWaku {
            template_no: int_field(&f, 0),
            filter_margin: (int_field(&f, 1), int_field(&f, 2), int_field(&f, 3), int_field(&f, 4)),
            filter_color: split_color(int_field(&f, 5)),
            filter_config_color: flag_field(&f, 6),
            filter_config_tr: flag_field(&f, 7),
            key_icon_mode: int_field(&f, 10),
            key_icon_pos: (int_field(&f, 11), int_field(&f, 12)),
        },
    )
}

/// What an object is, up to what weather would need.
#[derive(Debug)]
pub struct ShortObjectBase {
    pub object_type: i64,
    pub wipe_copy: i64,
    pub wipe_erase: i64,
    pub rect: (i64, i64, i64, i64),
    pub rect_color_argb: i64,
    pub moji_size: i64,
    pub moji_space: (i64, i64),
    pub moji_cnt: i64,
    pub moji_color: i64,
    pub shadow_color: i64,
    pub shadow_mode: i64,
    pub number_value: i64,
    pub keta_max: i64,
    pub disp_zero: i64,
    pub disp_sign: i64,
    pub tumeru_sign: i64,
    pub space_mod: i64,
    pub space: i64,
}

pub open spec fn object_base_kinds() -> Seq<Kind> {
    record::rep(Kind::Int, 22)
}

/// Whether the record is what the fields say.
pub open spec fn object_base_from(r: ShortObjectBase, f: Seq<FieldView>) -> bool {
    &&& r.object_type == record::int_at(f, 0)
    &&& r.wipe_copy == record::int_at(f, 1)
    &&& r.wipe_erase == record::int_at(f, 2)
    &&& r.rect == (record::int_at(f, 3), record::int_at(f, 4), record::int_at(f, 5), record::int_at(f, 6))
    &&& r.rect_color_argb == record::int_at(f, 7)
    &&& r.moji_size == record::int_at(f, 8)
    &&& r.moji_space == (record::int_at(f, 9), record::int_at(f, 10))
    &&& r.moji_cnt == record::int_at(f, 11)
    &&& r.moji_color == record::int_at(f, 12)
    &&& r.shadow_color == record::int_at(f, 13)
    &&& r.shadow_mode == record::int_at(f, 14)
    &&& r.number_value == record::int_at(f, 15)
    &&& r.keta_max == record::int_at(f, 16)
    &&& r.disp_zero == record::int_at(f, 17)
    &&& r.disp_sign == record::int_at(f, 18)
    &&& r.tumeru_sign == record::int_at(f, 19)
    &&& r.space_mod == record::int_at(f, 20)
    &&& r.space == record::int_at(f, 21)
}

pub fn read_short_object_base(rd: &mut StreamReader) -> (r: Result<ShortObjectBase, StreamError>)
    requires
        old(rd).wf(),
    ensures
        final(rd).wf(),
        final(rd).data == old(rd).data,
        match (r, record::fields_of(old(rd).rest(), object_base_kinds())) {
            (Ok(v), Ok(p)) => object_base_from(v, p.0) && final(rd).rest() == p.1,
            (Err(a), Err(b)) => a == b,
            _ => false,
        },
{
    let mut kinds: Vec<Kind> = Vec::new();
    push_kinds(&mut kinds, Kind::Int, 22);
    proof {
        assert(kinds@ =~= object_base_kinds());
    }
    let f = match read_record(rd, &kinds) {
        Ok(f) => f,
        Err(e) => {
            return Err(e);
        },
    };
    Ok(
        ShortObjectBase {
            object_type: int_field(&f, 0),
            wipe_copy: int_field(&f, 1),
            wipe_erase: int_field(&f, 2),
            rect: (int_field(&f, 3), int_field(&f, 4), int_field(&f, 5), int_field(&f, 6)),
            rect_color_argb: int_field(&f, 7),
            moji_size: int_field(&f, 8),
            moji_space: (int_field(&f, 9), int_field(&f, 10)),
            moji_cnt: int_field(&f, 11),
            moji_color: int_field(&f, 12),
            shadow_color: int_field(&f, 13),
            shadow_mode: int_field(&f, 14),
            number_value: int_field(&f, 15),
            keta_max: int_field(&f, 16),
            disp_zero: int_field(&f, 17),
            disp_sign: int_field(&f, 18),
            tumeru_sign: int_field(&f, 19),
            space_mod: int_field(&f, 20),
            space: int_field(&f, 21),
        },
    )
}

/// The film and the button of an object.
#[derive(Debug)]
pub struct ShortObjectWork {
    pub thumb_save_no: i64,
    pub movie_loop: bool,
    pub movie_auto_free: bool,
    pub movie_real_time: bool,
    pub movie_pause: bool,
    pub button_sys_type: i64,
    pub button_sys_type_opt: i64,
    pub button_action_no: i64,
    pub button_se_no: i64,
    pub button_no: i64,
    pub button_group_no: i64,
    pub button_enabled: bool,
    pub button_push_keep: bool,
    pub button_state: i64,
    pub button_mode: i64,
    pub button_cut_no: i64,
    pub button_decided_action_z_no: i64,
    pub disp: i64,
}

pub open spec fn object_work_kinds() -> Seq<Kind> {
    record::rep(Kind::Skip(72), 1)
        + record::rep(Kind::Int, 1)
        + record::rep(Kind::Flag, 4)
        + record::rep(Kind::Int, 14)
}

/// Whether the record is what the fields say.
pub open spec fn object_work_from(r: ShortObjectWork, f: Seq<FieldView>) -> bool {
    &&& r.thumb_save_no == record::int_at(f, 1)
    &&& r.movie_loop == record::flag_at(f, 2)
    &&& r.movie_auto_free == record::flag_at(f, 3)
    &&& r.movie_real_time == record::flag_at(f, 4)
    &&& r.movie_pause == record::flag_at(f, 5)
    &&& r.button_sys_type == record::int_at(f, 6)
    &&& r.button_sys_type_opt == record::int_at(f, 7)
    &&& r.button_action_no == record::int_at(f, 8)
    &&& r.button_se_no == record::int_at(f, 9)
    &&& r.button_no == record::int_at(f, 10)
    &&& r.button_group_no == record::int_at(f, 11)
    &&& r.button_enabled == (record::int_at(f, 8) >= 0)
    &&& r.button_push_keep == (record::int_at(f, 12) != 0)
    &&& r.button_state == record::int_at(f, 13)
    &&& r.button_mode == record::int_at(f, 14)
    &&& r.button_cut_no == record::int_at(f, 15)
    &&& r.button_decided_action_z_no == record::int_at(f, 18)
    &&& r.disp == record::int_at(f, 19)
}

pub fn read_short_object_work(rd: &mut StreamReader) -> (r: Result<ShortObjectWork, StreamError>)
    requires
        old(rd).wf(),
    ensures
        final(rd).wf(),
        final(rd).data == old(rd).data,
        match (r, record::fields_of(old(rd).rest(), object_work_kinds())) {
            (Ok(v), Ok(p)) => object_work_from(v, p.0) && final(rd).rest() == p.1,
            (Err(a), Err(b)) => a == b,
            _ => false,
        },
{
    let mut kinds: Vec<Kind> = Vec::new();
    push_kinds(&mut kinds, Kind::Skip(72), 1);
    push_kinds(&mut kinds, Kind::Int, 1);
    push_kinds(&mut kinds, Kind::Flag, 4);
    push_kinds(&mut kinds, Kind::Int, 14);
    proof {
        assert(kinds@ =~= object_work_kinds());
    }
    let f = match read_record(rd, &kinds) {
        Ok(f) => f,
        Err(e) => {
            return Err(e);
        },
    };
    Ok(
        ShortObjectWork {
            thumb_save_no: int_field(&f, 1),
            movie_loop: flag_field(&f, 2),
            movie_auto_free: flag_field(&f, 3),
            movie_real_time: flag_field(&f, 4),
            movie_pause: flag_field(&f, 5),
            button_sys_type: int_field(&f, 6),
            button_sys_type_opt: int_field(&f, 7),
            button_action_no: int_field(&f, 8),
            button_se_no: int_field(&f, 9),
            button_no: int_field(&f, 10),
            button_group_no: int_field(&f, 11),
            button_enabled: int_field(&f, 8) >= 0,
            button_push_keep: int_field(&f, 12) != 0,
            button_state: int_field(&f, 13),
            button_mode: int_field(&f, 14),
            button_cut_no: int_field(&f, 15),
            button_decided_action_z_no: int_field(&f, 18),
            disp: int_field(&f, 19),
        },
    )
}

/// What an effect covers, behind its events.
#[derive(Debug)]
pub struct ShortEffectRange {
    pub begin_order: i64,
    pub end_order: i64,
    pub begin_layer: i64,
    pub end_layer: i64,
}

pub open spec fn effect_range_kinds() -> Seq<Kind> {
    record::rep(Kind::Int, 4)
}

/// Whether the record is what the fields say.
pub open spec fn effect_range_from(r: ShortEffectRange, f: Seq<FieldView>) -> bool {
    &&& r.begin_order == record::int_at(f, 0)
    &&& r.end_order == record::int_at(f, 1)
    &&& r.begin_layer == record::int_at(f, 2)
    &&& r.end_layer == record::int_at(f, 3)
}

pub fn read_short_effect_range(rd: &mut StreamReader) -> (r: Result<ShortEffectRange, StreamError>)
    requires
        old(rd).wf(),
    ensures
        final(rd).wf(),
        final(rd).data == old(rd).data,
        match (r, record::fields_of(old(rd).rest(), effect_range_kinds())) {
            (Ok(v), Ok(p)) => effect_range_from(v, p.0) && final(rd).rest() == p.1,
            (Err(a), Err(b)) => a == b,
            _ => false,
        },
{
    let mut kinds: Vec<Kind> = Vec::new();
    push_kinds(&mut kinds, Kind::Int, 4);
    proof {
        assert(kinds@ =~= effect_range_kinds());
    }
    let f = match read_record(rd, &kinds) {
        Ok(f) => f,
        Err(e) => {
            return Err(e);
        },
    };
    Ok(
        ShortEffectRange {
            begin_order: int_field(&f, 0),
            end_order: int_field(&f, 1),
            begin_layer: int_field(&f, 2),
            end_layer: int_field(&f, 3),
        },
    )
}

/// Where an object stands among the others.
#[derive(Debug)]
pub struct ShortObjectPlace {
    pub order: i64,
    pub layer: i64,
    pub world: i64,
}

pub open spec fn object_place_kinds() -> Seq<Kind> {
    record::rep(Kind::Int, 3)
}

/// Whether the record is what the fields say.
pub open spec fn object_place_from(r: ShortObjectPlace, f: Seq<FieldView>) -> bool {
    &&& r.order == record::int_at(f, 0)
    &&& r.layer == record::int_at(f, 1)
    &&& r.world == record::int_at(f, 2)
}

pub fn read_short_object_place(rd: &mut StreamReader) -> (r: Result<ShortObjectPlace, StreamError>)
    requires
        old(rd).wf(),
    ensures
        final(rd).wf(),
        final(rd).data == old(rd).data,
        match (r, record::fields_of(old(rd).rest(), object_place_kinds())) {
            (Ok(v), Ok(p)) => object_place_from(v, p.0) && final(rd).rest() == p.1,
            (Err(a), Err(b)) => a == b,
            _ => false,
        },
{
    let mut kinds: Vec<Kind> = Vec::new();
    push_kinds(&mut kinds, Kind::Int, 3);
    proof {
        assert(kinds@ =~= object_place_kinds());
    }
    let f = match read_record(rd, &kinds) {
        Ok(f) => f,
        Err(e) => {
            return Err(e);
        },
    };
    Ok(
        ShortObjectPlace {
            order: int_field(&f, 0),
            layer: int_field(&f, 1),
            world: int_field(&f, 2),
        },
    )
}

/// Whether an object is clipped. The edges are events.
#[derive(Debug)]
pub struct ShortObjectClip {
    pub clip_use: i64,
}

pub open spec fn object_clip_kinds() -> Seq<Kind> {
    record::rep(Kind::Int, 1)
}

/// Whether the record is what the fields say.
pub open spec fn object_clip_from(r: ShortObjectClip, f: Seq<FieldView>) -> bool {
    &&& r.clip_use == record::int_at(f, 0)
}

pub fn read_short_object_clip(rd: &mut StreamReader) -> (r: Result<ShortObjectClip, StreamError>)
    requires
        old(rd).wf(),
    ensures
        final(rd).wf(),
        final(rd).data == old(rd).data,
        match (r, record::fields_of(old(rd).rest(), object_clip_kinds())) {
            (Ok(v), Ok(p)) => object_clip_from(v, p.0) && final(rd).rest() == p.1,
            (Err(a), Err(b)) => a == b,
            _ => false,
        },
{
    let mut kinds: Vec<Kind> = Vec::new();
    push_kinds(&mut kinds, Kind::Int, 1);
    proof {
        assert(kinds@ =~= object_clip_kinds());
    }
    let f = match read_record(rd, &kinds) {
        Ok(f) => f,
        Err(e) => {
            return Err(e);
        },
    };
    Ok(
        ShortObjectClip {
            clip_use: int_field(&f, 0),
        },
    )
}

/// The part of its picture that an object shows.
#[derive(Debug)]
pub struct ShortObjectSourceClip {
    pub src_clip_use: i64,
    pub src_clip: (i64, i64, i64, i64),
}

pub open spec fn object_source_clip_kinds() -> Seq<Kind> {
    record::rep(Kind::Int, 5)
}

/// Whether the record is what the fields say.
pub open spec fn object_source_clip_from(r: ShortObjectSourceClip, f: Seq<FieldView>) -> bool {
    &&& r.src_clip_use == record::int_at(f, 0)
    &&& r.src_clip == (
        record::int_at(f, 1),
        record::int_at(f, 2),
        record::int_at(f, 3),
        record::int_at(f, 4),
    )
}

pub fn read_short_object_source_clip(rd: &mut StreamReader) -> (r: Result<ShortObjectSourceClip, StreamError>)
    requires
        old(rd).wf(),
    ensures
        final(rd).wf(),
        final(rd).data == old(rd).data,
        match (r, record::fields_of(old(rd).rest(), object_source_clip_kinds())) {
            (Ok(v), Ok(p)) => object_source_clip_from(v, p.0) && final(rd).rest() == p.1,
            (Err(a), Err(b)) => a == b,
            _ => false,
        },
{
    let mut kinds: Vec<Kind> = Vec::new();
    push_kinds(&mut kinds, Kind::Int, 5);
    proof {
        assert(kinds@ =~= object_source_clip_kinds());
    }
    let f = match read_record(rd, &kinds) {
        Ok(f) => f,
        Err(e) => {
            return Err(e);
        },
    };
    Ok(
        ShortObjectSourceClip {
            src_clip_use: int_field(&f, 0),
            src_clip: (int_field(&f, 1), int_field(&f, 2), int_field(&f, 3), int_field(&f, 4)),
        },
    )
}

/// How an object is lit and drawn over what is below.
#[derive(Debug)]
pub struct ShortObjectBlend {
    pub light_no: i64,
    pub blend: i64,
}

pub open spec fn object_blend_kinds() -> Seq<Kind> {
    record::rep(Kind::Int, 2)
}

/// Whether the record is what the fields say.
pub open spec fn object_blend_from(r: ShortObjectBlend, f: Seq<FieldView>) -> bool {
    &&& r.light_no == record::int_at(f, 0)
    &&& r.blend == record::int_at(f, 1)
}

pub fn read_short_object_blend(rd: &mut StreamReader) -> (r: Result<ShortObjectBlend, StreamError>)
    requires
        old(rd).wf(),
    ensures
        final(rd).wf(),
        final(rd).data == old(rd).data,
        match (r, record::fields_of(old(rd).rest(), object_blend_kinds())) {
            (Ok(v), Ok(p)) => object_blend_from(v, p.0) && final(rd).rest() == p.1,
            (Err(a), Err(b)) => a == b,
            _ => false,
        },
{
    let mut kinds: Vec<Kind> = Vec::new();
    push_kinds(&mut kinds, Kind::Int, 2);
    proof {
        assert(kinds@ =~= object_blend_kinds());
    }
    let f = match read_record(rd, &kinds) {
        Ok(f) => f,
        Err(e) => {
            return Err(e);
        },
    };
    Ok(
        ShortObjectBlend {
            light_no: int_field(&f, 0),
            blend: int_field(&f, 1),
        },
    )
}

/// The file, the text and the command of an object.
#[derive(Debug)]
pub struct ShortObjectNames {
    pub file_name: String,
    pub string_value: String,
    pub button_scn_name: String,
    pub button_cmd_name: String,
}

pub open spec fn object_names_kinds() -> Seq<Kind> {
    record::rep(Kind::Text, 4)
}

/// Whether the record is what the fields say.
pub open spec fn object_names_from(r: ShortObjectNames, f: Seq<FieldView>) -> bool {
    &&& r.file_name@ == record::text_at(f, 0)
    &&& r.string_value@ == record::text_at(f, 1)
    &&& r.button_scn_name@ == record::text_at(f, 2)
    &&& r.button_cmd_name@ == record::text_at(f, 3)
}

pub fn read_short_object_names(rd: &mut StreamReader) -> (r: Result<ShortObjectNames, StreamError>)
    requires
        old(rd).wf(),
    ensures
        final(rd).wf(),
        final(rd).data == old(rd).data,
        match (r, record::fields_of(old(rd).rest(), object_names_kinds())) {
            (Ok(v), Ok(p)) => object_names_from(v, p.0) && final(rd).rest() == p.1,
            (Err(a), Err(b)) => a == b,
            _ => false,
        },
{
    let mut kinds: Vec<Kind> = Vec::new();
    push_kinds(&mut kinds, Kind::Text, 4);
    proof {
        assert(kinds@ =~= object_names_kinds());
    }
    let f = match read_record(rd, &kinds) {
        Ok(f) => f,
        Err(e) => {
            return Err(e);
        },
    };
    Ok(
        ShortObjectNames {
            file_name: text_field(&f, 0),
            string_value: text_field(&f, 1),
            button_scn_name: text_field(&f, 2),
            button_cmd_name: text_field(&f, 3),
        },
    )
}

/// A choice by buttons, up to its items.
#[derive(Debug)]
pub struct ShortBtnSelectHead {
    pub template_no: i64,
    pub appear_flag: bool,
    pub processing_flag_0: bool,
    pub processing_flag_1: bool,
}

pub open spec fn btn_select_head_kinds() -> Seq<Kind> {
    record::rep(Kind::Int, 1) + record::rep(Kind::Skip(104), 1) + record::rep(Kind::Flag, 3)
}

/// Whether the record is what the fields say.
pub open spec fn btn_select_head_from(r: ShortBtnSelectHead, f: Seq<FieldView>) -> bool {
    &&& r.template_no == record::int_at(f, 0)
    &&& r.appear_flag == record::flag_at(f, 2)
    &&& r.processing_flag_0 == record::flag_at(f, 3)
    &&& r.processing_flag_1 == record::flag_at(f, 4)
}

pub fn read_short_btn_select_head(rd: &mut StreamReader) -> (r: Result<ShortBtnSelectHead, StreamError>)
    requires
        old(rd).wf(),
    ensures
        final(rd).wf(),
        final(rd).data == old(rd).data,
        match (r, record::fields_of(old(rd).rest(), btn_select_head_kinds())) {
            (Ok(v), Ok(p)) => btn_select_head_from(v, p.0) && final(rd).rest() == p.1,
            (Err(a), Err(b)) => a == b,
            _ => false,
        },
{
    let mut kinds: Vec<Kind> = Vec::new();
    push_kinds(&mut kinds, Kind::Int, 1);
    push_kinds(&mut kinds, Kind::Skip(104), 1);
    push_kinds(&mut kinds, Kind::Flag, 3);
    proof {
        assert(kinds@ =~= btn_select_head_kinds());
    }
    let f = match read_record(rd, &kinds) {
        Ok(f) => f,
        Err(e) => {
            return Err(e);
        },
    };
    Ok(
        ShortBtnSelectHead {
            template_no: int_field(&f, 0),
            appear_flag: flag_field(&f, 2),
            processing_flag_0: flag_field(&f, 3),
            processing_flag_1: flag_field(&f, 4),
        },
    )
}

/// A message in the history, up to its voices.
#[derive(Debug)]
pub struct ShortMsgHead {
    pub pct_flag: bool,
    pub msg_str: String,
    pub original_name: String,
    pub pct_pos_x: i64,
    pub pct_pos_y: i64,
}

pub open spec fn msg_head_kinds() -> Seq<Kind> {
    record::rep(Kind::Flag, 1) + record::rep(Kind::Text, 2) + record::rep(Kind::Int, 2)
}

/// Whether the record is what the fields say.
pub open spec fn msg_head_from(r: ShortMsgHead, f: Seq<FieldView>) -> bool {
    &&& r.pct_flag == record::flag_at(f, 0)
    &&& r.msg_str@ == record::text_at(f, 1)
    &&& r.original_name@ == record::text_at(f, 2)
    &&& r.pct_pos_x == record::int_at(f, 3)
    &&& r.pct_pos_y == record::int_at(f, 4)
}

pub fn read_short_msg_head(rd: &mut StreamReader) -> (r: Result<ShortMsgHead, StreamError>)
    requires
        old(rd).wf(),
    ensures
        final(rd).wf(),
        final(rd).data == old(rd).data,
        match (r, record::fields_of(old(rd).rest(), msg_head_kinds())) {
            (Ok(v), Ok(p)) => msg_head_from(v, p.0) && final(rd).rest() == p.1,
            (Err(a), Err(b)) => a == b,
            _ => false,
        },
{
    let mut kinds: Vec<Kind> = Vec::new();
    push_kinds(&mut kinds, Kind::Flag, 1);
    push_kinds(&mut kinds, Kind::Text, 2);
    push_kinds(&mut kinds, Kind::Int, 2);
    proof {
        assert(kinds@ =~= msg_head_kinds());
    }
    let f = match read_record(rd, &kinds) {
        Ok(f) => f,
        Err(e) => {
            return Err(e);
        },
    };
    Ok(
        ShortMsgHead {
            pct_flag: flag_field(&f, 0),
            msg_str: text_field(&f, 1),
            original_name: text_field(&f, 2),
            pct_pos_x: int_field(&f, 3),
            pct_pos_y: int_field(&f, 4),
        },
    )
}

/// A message in the history, behind its voices.
#[derive(Debug)]
pub struct ShortMsgTail {
    pub koe_play_no: i64,
    pub debug_msg: String,
    pub scn_no: i64,
    pub line_no: i64,
}

pub open spec fn msg_tail_kinds() -> Seq<Kind> {
    record::rep(Kind::Int, 1) + record::rep(Kind::Text, 1) + record::rep(Kind::Int, 2)
}

/// Whether the record is what the fields say.
pub open spec fn msg_tail_from(r: ShortMsgTail, f: Seq<FieldView>) -> bool {
    &&& r.koe_play_no == record::int_at(f, 0)
    &&& r.debug_msg@ == record::text_at(f, 1)
    &&& r.scn_no == record::int_at(f, 2)
    &&& r.line_no == record::int_at(f, 3)
}

pub fn read_short_msg_tail(rd: &mut StreamReader) -> (r: Result<ShortMsgTail, StreamError>)
    requires
        old(rd).wf(),
    ensures
        final(rd).wf(),
        final(rd).data == old(rd).data,
        match (r, record::fields_of(old(rd).rest(), msg_tail_kinds())) {
            (Ok(v), Ok(p)) => msg_tail_from(v, p.0) && final(rd).rest() == p.1,
            (Err(a), Err(b)) => a == b,
            _ => false,
        },
{
    let mut kinds: Vec<Kind> = Vec::new();
    push_kinds(&mut kinds, Kind::Int, 1);
    push_kinds(&mut kinds, Kind::Text, 1);
    push_kinds(&mut kinds, Kind::Int, 2);
    proof {
        assert(kinds@ =~= msg_tail_kinds());
    }
    let f = match read_record(rd, &kinds) {
        Ok(f) => f,
        Err(e) => {
            return Err(e);
        },
    };
    Ok(
        ShortMsgTail {
            koe_play_no: int_field(&f, 0),
            debug_msg: text_field(&f, 1),
            scn_no: int_field(&f, 2),
            line_no: int_field(&f, 3),
        },
    )
}

/// The places of the history.
#[derive(Debug)]
pub struct ShortHistoryTail {
    pub start_pos: i64,
    pub last_pos: i64,
    pub insert_pos: i64,
    pub new_msg_flag: bool,
}

pub open spec fn history_tail_kinds() -> Seq<Kind> {
    record::rep(Kind::Int, 3) + record::rep(Kind::Flag, 1)
}

/// Whether the record is what the fields say.
pub open spec fn history_tail_from(r: ShortHistoryTail, f: Seq<FieldView>) -> bool {
    &&& r.start_pos == record::int_at(f, 0)
    &&& r.last_pos == record::int_at(f, 1)
    &&& r.insert_pos == record::int_at(f, 2)
    &&& r.new_msg_flag == record::flag_at(f, 3)
}

pub fn read_short_history_tail(rd: &mut StreamReader) -> (r: Result<ShortHistoryTail, StreamError>)
    requires
        old(rd).wf(),
    ensures
        final(rd).wf(),
        final(rd).data == old(rd).data,
        match (r, record::fields_of(old(rd).rest(), history_tail_kinds())) {
            (Ok(v), Ok(p)) => history_tail_from(v, p.0) && final(rd).rest() == p.1,
            (Err(a), Err(b)) => a == b,
            _ => false,
        },
{
    let mut kinds: Vec<Kind> = Vec::new();
    push_kinds(&mut kinds, Kind::Int, 3);
    push_kinds(&mut kinds, Kind::Flag, 1);
    proof {
        assert(kinds@ =~= history_tail_kinds());
    }
    let f = match read_record(rd, &kinds) {
        Ok(f) => f,
        Err(e) => {
            return Err(e);
        },
    };
    Ok(
        ShortHistoryTail {
            start_pos: int_field(&f, 0),
            last_pos: int_field(&f, 1),
            insert_pos: int_field(&f, 2),
            new_msg_flag: flag_field(&f, 3),
        },
    )
}

} // verus!
