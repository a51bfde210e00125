//! Where the fields of the oldest save layout stand in its bytes.

use vstd::prelude::*;
use crate::bytes;
use crate::runtime::stream;
use crate::text;
use crate::vm::record;
use crate::vm::record::{FieldView, Kind};
use crate::vm::short_records;
use crate::vm::short_records::{
    ShortBtnSelectHead,
    ShortEffectRange,
    ShortGroup,
    ShortHistoryTail,
    ShortMsgHead,
    ShortMsgTail,
    ShortMwndHead,
    ShortObjectBase,
    ShortObjectBlend,
    ShortObjectClip,
    ShortObjectNames,
    ShortObjectPlace,
    ShortObjectSourceClip,
    ShortObjectWork,
    ShortPageHead,
    ShortPcmCh,
    ShortSoundHead,
    ShortSoundTail,
    ShortWaku,
    ShortWorld,
};

verus! {

/// The text that begins at a place: how many units it has, then the units.
pub open spec fn text_from(b: Seq<u8>, at: int) -> Seq<char> {
    text::decoded_lossy(
        Seq::new(bytes::i32_at(b, at) as nat, |i: int| bytes::u16_at(b, at + 4 + 2 * i) as u16),
    )
}

/// Where the text that begins at a place ends.
pub open spec fn text_end(b: Seq<u8>, at: int) -> int {
    at + 4 + 2 * bytes::i32_at(b, at)
}

/// What the first fields are does not depend on the fields behind them.
pub proof fn lemma_behind(b: Seq<u8>, a: Seq<Kind>, c: Seq<Kind>)
    requires
        record::fields_of(b, a + c) is Ok,
    ensures
        record::fields_of(b, a) is Ok,
        record::fields_of(record::fields_of(b, a)->Ok_0.1, c) is Ok,
        record::fields_of(b, a + c)->Ok_0.1 == record::fields_of(
            record::fields_of(b, a)->Ok_0.1,
            c,
        )->Ok_0.1,
        record::fields_of(b, a + c)->Ok_0.0 == record::fields_of(b, a)->Ok_0.0
            + record::fields_of(record::fields_of(b, a)->Ok_0.1, c)->Ok_0.0,
    decreases c.len(),
{
    if c.len() == 0 {
        assert(a + c =~= a);
        assert(record::fields_of(b, a)->Ok_0.0 + Seq::<FieldView>::empty()
            =~= record::fields_of(b, a)->Ok_0.0);
    } else {
        assert((a + c).drop_last() =~= a + c.drop_last());
        assert((a + c).last() == c.last());
        lemma_behind(b, a, c.drop_last());
        let front = record::fields_of(b, a)->Ok_0.0;
        let mid = record::fields_of(b, a)->Ok_0.1;
        let more = record::fields_of(mid, c.drop_last())->Ok_0.0;
        let last = record::fields_of(mid, c)->Ok_0.0.last();
        assert(front + more.push(last) =~= (front + more).push(last));
    }
}

/// Words stand one behind the other.
pub proof fn lemma_ints(b: Seq<u8>, at: int, n: int)
    requires
        0 <= at <= b.len(),
        n >= 0,
        record::fields_of(b.skip(at), record::rep(Kind::Int, n)) is Ok,
    ensures
        record::fields_of(b.skip(at), record::rep(Kind::Int, n))->Ok_0.0.len() == n,
        record::fields_of(b.skip(at), record::rep(Kind::Int, n))->Ok_0.1 == b.skip(at + 4 * n),
        at + 4 * n <= b.len(),
        forall|i: int|
            0 <= i < n
                ==> #[trigger] record::fields_of(b.skip(at), record::rep(Kind::Int, n))->Ok_0.0[i]
                == FieldView::Int(bytes::i32_at(b, at + 4 * i)),
    decreases n,
{
    reveal(stream::i32_of);
    let kinds = record::rep(Kind::Int, n);
    if n == 0 {
        assert(b.skip(at + 4 * n) =~= b.skip(at));
    } else {
        assert(kinds.drop_last() =~= record::rep(Kind::Int, n - 1));
        assert(kinds.last() == Kind::Int);
        lemma_ints(b, at, n - 1);
        let rest = b.skip(at + 4 * (n - 1));
        assert(record::field_of(rest, Kind::Int) is Ok);
        assert(rest.skip(4) =~= b.skip(at + 4 * n));
    }
}

/// Marks stand one behind the other.
pub proof fn lemma_flags(b: Seq<u8>, at: int, n: int)
    requires
        0 <= at <= b.len(),
        n >= 0,
        record::fields_of(b.skip(at), record::rep(Kind::Flag, n)) is Ok,
    ensures
        record::fields_of(b.skip(at), record::rep(Kind::Flag, n))->Ok_0.0.len() == n,
        record::fields_of(b.skip(at), record::rep(Kind::Flag, n))->Ok_0.1 == b.skip(at + n),
        at + n <= b.len(),
        forall|i: int|
            0 <= i < n
                ==> #[trigger] record::fields_of(b.skip(at), record::rep(Kind::Flag, n))->Ok_0.0[i]
                == FieldView::Flag(b[at + i] != 0),
    decreases n,
{
    reveal(stream::bool_of);
    let kinds = record::rep(Kind::Flag, n);
    if n == 0 {
        assert(b.skip(at + n) =~= b.skip(at));
    } else {
        assert(kinds.drop_last() =~= record::rep(Kind::Flag, n - 1));
        assert(kinds.last() == Kind::Flag);
        lemma_flags(b, at, n - 1);
        let rest = b.skip(at + n - 1);
        assert(record::field_of(rest, Kind::Flag) is Ok);
        assert(rest.skip(1) =~= b.skip(at + n));
    }
}

/// A single field is what is read at its place.
proof fn lemma_one(b: Seq<u8>, kind: Kind)
    requires
        record::fields_of(b, record::rep(kind, 1)) is Ok,
    ensures
        record::field_of(b, kind) is Ok,
        record::fields_of(b, record::rep(kind, 1))->Ok_0.0 == seq![record::field_of(b, kind)->Ok_0.0],
        record::fields_of(b, record::rep(kind, 1))->Ok_0.1 == record::field_of(b, kind)->Ok_0.1,
{
    let kinds = record::rep(kind, 1);
    assert(kinds.drop_last() =~= Seq::<Kind>::empty());
    assert(record::fields_of(b, kinds.drop_last()) == Ok::<(Seq<FieldView>, Seq<u8>), stream::StreamError>((Seq::<FieldView>::empty(), b)));
    assert(kinds.last() == kind);
    assert(record::fields_of(b, kinds)->Ok_0.0 =~= seq![record::field_of(b, kind)->Ok_0.0]);
}

/// Two bytes are one unit.
proof fn lemma_half(b: Seq<u8>, at: int)
    requires
        0 <= at <= b.len(),
        record::fields_of(b.skip(at), record::rep(Kind::Half, 1)) is Ok,
    ensures
        record::fields_of(b.skip(at), record::rep(Kind::Half, 1))->Ok_0.0 == seq![
            FieldView::Half(bytes::u16_at(b, at)),
        ],
        record::fields_of(b.skip(at), record::rep(Kind::Half, 1))->Ok_0.1 == b.skip(at + 2),
        at + 2 <= b.len(),
{
    reveal(record::half_of);
    lemma_one(b.skip(at), Kind::Half);
    assert(b.skip(at).skip(2) =~= b.skip(at + 2));
}

/// Bytes that are left out keep their room.
proof fn lemma_skipped(b: Seq<u8>, at: int, n: usize)
    requires
        0 <= at <= b.len(),
        record::fields_of(b.skip(at), record::rep(Kind::Skip(n), 1)) is Ok,
    ensures
        record::fields_of(b.skip(at), record::rep(Kind::Skip(n), 1))->Ok_0.0.len() == 1,
        record::fields_of(b.skip(at), record::rep(Kind::Skip(n), 1))->Ok_0.1 == b.skip(at + n),
        at + n <= b.len(),
{
    reveal(stream::raw_of);
    lemma_one(b.skip(at), Kind::Skip(n));
    assert(b.skip(at).skip(n as int) =~= b.skip(at + n));
}

/// A text ends behind its last unit.
pub proof fn lemma_text(b: Seq<u8>, at: int)
    requires
        0 <= at <= b.len(),
        record::fields_of(b.skip(at), record::rep(Kind::Text, 1)) is Ok,
    ensures
        record::fields_of(b.skip(at), record::rep(Kind::Text, 1))->Ok_0.0 == seq![
            FieldView::Text(text_from(b, at)),
        ],
        record::fields_of(b.skip(at), record::rep(Kind::Text, 1))->Ok_0.1 == b.skip(text_end(b, at)),
        at <= text_end(b, at) <= b.len(),
{
    reveal(stream::i32_of);
    reveal(stream::string_of);
    lemma_one(b.skip(at), Kind::Text);
    let n: int = bytes::i32_at(b, at);
    assert(bytes::i32_at(b.skip(at), 0) == n);
    let rest = b.skip(at).skip(4);
    assert(rest.skip(2 * n) =~= b.skip(text_end(b, at)));
    assert(stream::units_at(rest, n) =~= Seq::new(
        n as nat,
        |i: int| bytes::u16_at(b, at + 4 + 2 * i) as u16,
    ));
}

/// A volume is cut to what a byte holds.
pub proof fn volumes_stay_within_a_byte(v: i64)
    ensures
        0 <= v <= 255 ==> short_records::volume(v) == v,
        v < 0 ==> short_records::volume(v) == 0,
        v > 255 ==> short_records::volume(v) == 255,
{
}

/// A world: its mode, where the camera stands, what it looks at and which way is up, then the angle of the view and the tone, each a word of four bytes, one behind the other.
pub proof fn worlds_are_read_in_their_order(r: ShortWorld, b: Seq<u8>)
    requires
        record::fields_of(b, short_records::world_kinds()) is Ok,
        short_records::world_from(r, record::fields_of(b, short_records::world_kinds())->Ok_0.0),
    ensures
        ({
            &&& r.mode == bytes::i32_at(b, 0) as i64
            &&& r.camera_eye == (bytes::i32_at(b, 4) as i64, bytes::i32_at(b, 8) as i64, bytes::i32_at(b, 12) as i64)
            &&& r.camera_pint == (bytes::i32_at(b, 16) as i64, bytes::i32_at(b, 20) as i64, bytes::i32_at(b, 24) as i64)
            &&& r.camera_up == (bytes::i32_at(b, 28) as i64, bytes::i32_at(b, 32) as i64, bytes::i32_at(b, 36) as i64)
            &&& r.camera_view_angle == bytes::i32_at(b, 40) as i64
            &&& r.mono == bytes::i32_at(b, 44) as i64
            &&& record::fields_of(b, short_records::world_kinds())->Ok_0.1 == b.skip(48)
        }),
{
    assert(b.skip(0) =~= b);
    let k0 = record::rep(Kind::Int, 12);
    assert(short_records::world_kinds() =~= k0);
    lemma_ints(b, 0, 12);
}

/// A group of buttons: four words, then a byte for each of its three marks.
pub proof fn groups_are_read_in_their_order(r: ShortGroup, b: Seq<u8>)
    requires
        record::fields_of(b, short_records::group_kinds()) is Ok,
        short_records::group_from(r, record::fields_of(b, short_records::group_kinds())->Ok_0.0),
    ensures
        ({
            &&& r.order == bytes::i32_at(b, 0) as i64
            &&& r.layer == bytes::i32_at(b, 4) as i64
            &&& r.cancel_se_no == bytes::i32_at(b, 8) as i64
            &&& r.decided_button_no == bytes::i32_at(b, 12) as i64
            &&& r.started == (b[16] != 0)
            &&& r.wait_flag == (b[17] != 0)
            &&& r.cancel_flag == (b[18] != 0)
            &&& record::fields_of(b, short_records::group_kinds())->Ok_0.1 == b.skip(20)
        }),
{
    assert(b.skip(0) =~= b);
    let k0 = record::rep(Kind::Int, 4);
    let k1 = record::rep(Kind::Flag, 3);
    let k2 = record::rep(Kind::Skip(1), 1);
    let a1 = k0 + k1;
    let a2 = a1 + k2;
    assert(short_records::group_kinds() =~= a2);
    lemma_behind(b, a1, k2);
    lemma_behind(b, k0, k1);
    lemma_ints(b, 0, 4);
    lemma_flags(b, 16, 3);
    lemma_skipped(b, 19, 1);
}

/// A channel of sounds: its file, then five words, then a byte for each of its four marks.
pub proof fn channels_are_read_in_their_order(r: ShortPcmCh, b: Seq<u8>)
    requires
        record::fields_of(b, short_records::pcmch_kinds()) is Ok,
        short_records::pcmch_from(r, record::fields_of(b, short_records::pcmch_kinds())->Ok_0.0),
    ensures
        ({
            let p1 = text_end(b, 0);
            &&& r.pcm_name@ == text_from(b, 0)
            &&& r.koe_no == bytes::i32_at(b, p1) as i64
            &&& r.se_no == bytes::i32_at(b, p1 + 4) as i64
            &&& r.volume_type == bytes::i32_at(b, p1 + 8) as i64
            &&& r.chara_no == bytes::i32_at(b, p1 + 12) as i64
            &&& r.volume == bytes::i32_at(b, p1 + 16) as i64
            &&& r.loop_flag == (b[p1 + 20] != 0)
            &&& r.bgm_fade_target_flag == (b[p1 + 21] != 0)
            &&& r.bgm_fade2_target_flag == (b[p1 + 22] != 0)
            &&& r.bgm_fade_source_flag == (b[p1 + 23] != 0)
            &&& record::fields_of(b, short_records::pcmch_kinds())->Ok_0.1 == b.skip(p1 + 24)
        }),
{
    assert(b.skip(0) =~= b);
    let k0 = record::rep(Kind::Text, 1);
    let k1 = record::rep(Kind::Int, 5);
    let k2 = record::rep(Kind::Flag, 4);
    let a1 = k0 + k1;
    let a2 = a1 + k2;
    assert(short_records::pcmch_kinds() =~= a2);
    lemma_behind(b, a1, k2);
    lemma_behind(b, k0, k1);
    lemma_text(b, 0);
    let p1 = text_end(b, 0);
    lemma_ints(b, p1, 5);
    lemma_flags(b, p1 + 20, 4);
}

/// The sounds begin with the music: its name, its volume and whether it is repeated, then the volumes of the voices and of the other sounds.
pub proof fn sounds_begin_with_their_music(r: ShortSoundHead, b: Seq<u8>)
    requires
        record::fields_of(b, short_records::sound_head_kinds()) is Ok,
        short_records::sound_head_from(r, record::fields_of(b, short_records::sound_head_kinds())->Ok_0.0),
    ensures
        ({
            let p1 = text_end(b, 0);
            &&& r.bgm_regist_name@ == text_from(b, 0)
            &&& r.bgm_volume == short_records::volume(bytes::i32_at(b, p1) as i64)
            &&& r.bgm_loop_flag == (b[p1 + 4] != 0)
            &&& r.koe_volume == short_records::volume(bytes::i32_at(b, p1 + 5) as i64)
            &&& r.pcm_volume == short_records::volume(bytes::i32_at(b, p1 + 9) as i64)
            &&& record::fields_of(b, short_records::sound_head_kinds())->Ok_0.1 == b.skip(p1 + 13)
        }),
{
    assert(b.skip(0) =~= b);
    let k0 = record::rep(Kind::Text, 1);
    let k1 = record::rep(Kind::Int, 1);
    let k2 = record::rep(Kind::Flag, 1);
    let k3 = record::rep(Kind::Int, 2);
    let a1 = k0 + k1;
    let a2 = a1 + k2;
    let a3 = a2 + k3;
    assert(short_records::sound_head_kinds() =~= a3);
    lemma_behind(b, a2, k3);
    lemma_behind(b, a1, k2);
    lemma_behind(b, k0, k1);
    lemma_text(b, 0);
    let p1 = text_end(b, 0);
    lemma_ints(b, p1, 1);
    lemma_flags(b, p1 + 4, 1);
    lemma_ints(b, p1 + 5, 2);
}

/// The sounds end with the volume of the effects and the name of the movie.
pub proof fn sounds_end_with_their_movie(r: ShortSoundTail, b: Seq<u8>)
    requires
        record::fields_of(b, short_records::sound_tail_kinds()) is Ok,
        short_records::sound_tail_from(r, record::fields_of(b, short_records::sound_tail_kinds())->Ok_0.0),
    ensures
        ({
            let p1 = text_end(b, 4);
            &&& r.se_volume == short_records::volume(bytes::i32_at(b, 0) as i64)
            &&& r.mov_file_name@ == text_from(b, 4)
            &&& record::fields_of(b, short_records::sound_tail_kinds())->Ok_0.1 == b.skip(p1)
        }),
{
    assert(b.skip(0) =~= b);
    let k0 = record::rep(Kind::Int, 1);
    let k1 = record::rep(Kind::Text, 1);
    let a1 = k0 + k1;
    assert(short_records::sound_tail_kinds() =~= a1);
    lemma_behind(b, k0, k1);
    lemma_ints(b, 0, 1);
    lemma_text(b, 4);
    let p1 = text_end(b, 4);
}

/// A message window: what it looks like in words of four bytes, and its marks in single bytes between them.
pub proof fn message_windows_are_read_in_their_order(r: ShortMwndHead, b: Seq<u8>)
    requires
        record::fields_of(b, short_records::mwnd_head_kinds()) is Ok,
        short_records::mwnd_head_from(r, record::fields_of(b, short_records::mwnd_head_kinds())->Ok_0.0),
    ensures
        ({
            &&& r.order == bytes::i32_at(b, 0) as i64
            &&& r.layer == bytes::i32_at(b, 4) as i64
            &&& r.world == bytes::i32_at(b, 8) as i64
            &&& r.novel_mode == bytes::i32_at(b, 12) as i64
            &&& r.mwnd_extend_type == bytes::i32_at(b, 16) as i64
            &&& r.window_pos == (bytes::i32_at(b, 20) as i64, bytes::i32_at(b, 24) as i64)
            &&& r.window_size == (bytes::i32_at(b, 28) as i64, bytes::i32_at(b, 32) as i64)
            &&& r.message_pos == (bytes::i32_at(b, 36) as i64, bytes::i32_at(b, 40) as i64)
            &&& r.message_margin == (bytes::i32_at(b, 44) as i64, bytes::i32_at(b, 48) as i64, bytes::i32_at(b, 52) as i64, bytes::i32_at(b, 56) as i64)
            &&& r.name_disp_mode == bytes::i32_at(b, 60) as i64
            &&& r.name_bracket == bytes::i32_at(b, 64) as i64
            &&& r.name_extend_type == bytes::i32_at(b, 68) as i64
            &&& r.name_window_pos == (bytes::i32_at(b, 72) as i64, bytes::i32_at(b, 76) as i64)
            &&& r.name_window_size == (bytes::i32_at(b, 80) as i64, bytes::i32_at(b, 84) as i64)
            &&& r.name_window_rect == (bytes::i32_at(b, 88) as i64, bytes::i32_at(b, 92) as i64, bytes::i32_at(b, 96) as i64, bytes::i32_at(b, 100) as i64)
            &&& r.name_message_pos == (bytes::i32_at(b, 104) as i64, bytes::i32_at(b, 108) as i64)
            &&& r.name_message_margin == (bytes::i32_at(b, 112) as i64, bytes::i32_at(b, 116) as i64, bytes::i32_at(b, 120) as i64, bytes::i32_at(b, 124) as i64)
            &&& r.overflow_check_size == bytes::i32_at(b, 128) as i64
            &&& r.time == bytes::i32_at(b, 148) as i64
            &&& r.msg_block_started == (b[152] != 0)
            &&& r.window_appear == (b[153] != 0)
            &&& r.open == (b[153] != 0)
            &&& r.name_appear == (b[154] != 0)
            &&& r.clear_ready == (b[155] != 0)
            &&& r.auto_mode_end_moji_cnt == bytes::i32_at(b, 156) as i64
            &&& r.target_msg_no == bytes::i32_at(b, 160) as i64
            &&& r.slide_msg == (b[164] != 0)
            &&& r.slide_time == bytes::i32_at(b, 165) as i64
            &&& r.koe == (if (b[173] != 0) {
                Some((bytes::i32_at(b, 169) as i64, 0i64))
            } else {
                None
            })
            &&& r.koe_play_flag == (b[173] != 0)
            &&& r.open_anime_type == bytes::i32_at(b, 174) as i64
            &&& r.open_anime_time == bytes::i32_at(b, 178) as i64
            &&& r.open_anime_start_time == bytes::i32_at(b, 182) as i64
            &&& r.close_anime_type == bytes::i32_at(b, 186) as i64
            &&& r.close_anime_time == bytes::i32_at(b, 190) as i64
            &&& r.close_anime_start_time == bytes::i32_at(b, 194) as i64
            &&& record::fields_of(b, short_records::mwnd_head_kinds())->Ok_0.1 == b.skip(198)
        }),
{
    assert(b.skip(0) =~= b);
    let k0 = record::rep(Kind::Int, 38);
    let k1 = record::rep(Kind::Flag, 4);
    let k2 = record::rep(Kind::Int, 2);
    let k3 = record::rep(Kind::Flag, 1);
    let k4 = record::rep(Kind::Int, 2);
    let k5 = record::rep(Kind::Flag, 1);
    let k6 = record::rep(Kind::Int, 6);
    let a1 = k0 + k1;
    let a2 = a1 + k2;
    let a3 = a2 + k3;
    let a4 = a3 + k4;
    let a5 = a4 + k5;
    let a6 = a5 + k6;
    assert(short_records::mwnd_head_kinds() =~= a6);
    lemma_behind(b, a5, k6);
    lemma_behind(b, a4, k5);
    lemma_behind(b, a3, k4);
    lemma_behind(b, a2, k3);
    lemma_behind(b, a1, k2);
    lemma_behind(b, k0, k1);
    lemma_ints(b, 0, 38);
    lemma_flags(b, 152, 4);
    lemma_ints(b, 156, 2);
    lemma_flags(b, 164, 1);
    lemma_ints(b, 165, 2);
    lemma_flags(b, 173, 1);
    lemma_ints(b, 174, 6);
}

/// A page of messages: its layout in words of four bytes, the character of its indent in two, and its marks in single bytes.
pub proof fn pages_are_read_in_their_order(r: ShortPageHead, b: Seq<u8>)
    requires
        record::fields_of(b, short_records::page_head_kinds()) is Ok,
        short_records::page_head_from(r, record::fields_of(b, short_records::page_head_kinds())->Ok_0.0),
    ensures
        ({
            let p1 = text_end(b, 109);
            let p2 = text_end(b, p1);
            &&& r.window_moji_cnt == (bytes::i32_at(b, 0) as i64, bytes::i32_at(b, 4) as i64)
            &&& r.cursor_pos == (bytes::i32_at(b, 8) as i64, bytes::i32_at(b, 12) as i64)
            &&& r.moji_rep_pos == (bytes::i32_at(b, 16) as i64, bytes::i32_at(b, 20) as i64)
            &&& r.moji_size == bytes::i32_at(b, 24) as i64
            &&& r.moji_space == (bytes::i32_at(b, 28) as i64, bytes::i32_at(b, 32) as i64)
            &&& r.moji_color == bytes::i32_at(b, 36) as i64
            &&& r.shadow_color == bytes::i32_at(b, 40) as i64
            &&& r.ruby_size == bytes::i32_at(b, 44) as i64
            &&& r.ruby_space == bytes::i32_at(b, 48) as i64
            &&& r.message_margin == (bytes::i32_at(b, 52) as i64, bytes::i32_at(b, 56) as i64, bytes::i32_at(b, 60) as i64, bytes::i32_at(b, 64) as i64)
            &&& r.chara_moji_color == bytes::i32_at(b, 68) as i64
            &&& r.chara_shadow_color == bytes::i32_at(b, 72) as i64
            &&& r.indent_pos == bytes::i32_at(b, 76) as i64
            &&& r.indent_unit == bytes::u16_at(b, 80) as u16
            &&& r.indent_count == bytes::i32_at(b, 82) as i64
            &&& r.cur_msg_type == bytes::i32_at(b, 86) as i64
            &&& r.cur_msg_type_decided == (b[90] != 0)
            &&& r.line_head == (b[91] != 0)
            &&& r.ruby_start_pos == (bytes::i32_at(b, 92) as i64, bytes::i32_at(b, 96) as i64)
            &&& r.ruby_start_ready == (b[100] != 0)
            &&& r.disp_moji_cnt == bytes::i32_at(b, 101) as i64
            &&& r.hide_moji_cnt == bytes::i32_at(b, 105) as i64
            &&& r.debug_msg@ == text_from(b, 109)
            &&& r.ruby@ == text_from(b, p1)
            &&& record::fields_of(b, short_records::page_head_kinds())->Ok_0.1 == b.skip(p2)
        }),
{
    assert(b.skip(0) =~= b);
    let k0 = record::rep(Kind::Int, 20);
    let k1 = record::rep(Kind::Half, 1);
    let k2 = record::rep(Kind::Int, 2);
    let k3 = record::rep(Kind::Flag, 2);
    let k4 = record::rep(Kind::Int, 2);
    let k5 = record::rep(Kind::Flag, 1);
    let k6 = record::rep(Kind::Int, 2);
    let k7 = record::rep(Kind::Text, 1);
    let k8 = record::rep(Kind::Text, 1);
    let a1 = k0 + k1;
    let a2 = a1 + k2;
    let a3 = a2 + k3;
    let a4 = a3 + k4;
    let a5 = a4 + k5;
    let a6 = a5 + k6;
    let a7 = a6 + k7;
    let a8 = a7 + k8;
    assert(short_records::page_head_kinds() =~= a8);
    lemma_behind(b, a7, k8);
    lemma_behind(b, a6, k7);
    lemma_behind(b, a5, k6);
    lemma_behind(b, a4, k5);
    lemma_behind(b, a3, k4);
    lemma_behind(b, a2, k3);
    lemma_behind(b, a1, k2);
    lemma_behind(b, k0, k1);
    lemma_ints(b, 0, 20);
    lemma_half(b, 80);
    lemma_ints(b, 82, 2);
    lemma_flags(b, 90, 2);
    lemma_ints(b, 92, 2);
    lemma_flags(b, 100, 1);
    lemma_ints(b, 101, 2);
    lemma_text(b, 109);
    let p1 = text_end(b, 109);
    lemma_text(b, p1);
    let p2 = text_end(b, p1);
}

/// The frame of a window: its template, the margins and the color of its filter, two marks, and behind two bytes that are left out and one word the icon of its keys.
pub proof fn frames_are_read_in_their_order(r: ShortWaku, b: Seq<u8>)
    requires
        record::fields_of(b, short_records::waku_kinds()) is Ok,
        short_records::waku_from(r, record::fields_of(b, short_records::waku_kinds())->Ok_0.0),
    ensures
        ({
            &&& r.template_no == bytes::i32_at(b, 0) as i64
            &&& r.filter_margin == (bytes::i32_at(b, 4) as i64, bytes::i32_at(b, 8) as i64, bytes::i32_at(b, 12) as i64, bytes::i32_at(b, 16) as i64)
            &&& r.filter_color == short_records::color_of(bytes::i32_at(b, 20) as i64)
            &&& r.filter_config_color == (b[24] != 0)
            &&& r.filter_config_tr == (b[25] != 0)
            &&& r.key_icon_mode == bytes::i32_at(b, 32) as i64
            &&& r.key_icon_pos == (bytes::i32_at(b, 36) as i64, bytes::i32_at(b, 40) as i64)
            &&& record::fields_of(b, short_records::waku_kinds())->Ok_0.1 == b.skip(44)
        }),
{
    assert(b.skip(0) =~= b);
    let k0 = record::rep(Kind::Int, 6);
    let k1 = record::rep(Kind::Flag, 2);
    let k2 = record::rep(Kind::Skip(2), 1);
    let k3 = record::rep(Kind::Int, 4);
    let a1 = k0 + k1;
    let a2 = a1 + k2;
    let a3 = a2 + k3;
    assert(short_records::waku_kinds() =~= a3);
    lemma_behind(b, a2, k3);
    lemma_behind(b, a1, k2);
    lemma_behind(b, k0, k1);
    lemma_ints(b, 0, 6);
    lemma_flags(b, 24, 2);
    lemma_skipped(b, 26, 2);
    lemma_ints(b, 28, 4);
}

/// The front of an object: twenty-two words, one behind the other.
pub proof fn objects_are_read_in_their_order(r: ShortObjectBase, b: Seq<u8>)
    requires
        record::fields_of(b, short_records::object_base_kinds()) is Ok,
        short_records::object_base_from(r, record::fields_of(b, short_records::object_base_kinds())->Ok_0.0),
    ensures
        ({
            &&& r.object_type == bytes::i32_at(b, 0) as i64
            &&& r.wipe_copy == bytes::i32_at(b, 4) as i64
            &&& r.wipe_erase == bytes::i32_at(b, 8) as i64
            &&& r.rect == (bytes::i32_at(b, 12) as i64, bytes::i32_at(b, 16) as i64, bytes::i32_at(b, 20) as i64, bytes::i32_at(b, 24) as i64)
            &&& r.rect_color_argb == bytes::i32_at(b, 28) as i64
            &&& r.moji_size == bytes::i32_at(b, 32) as i64
            &&& r.moji_space == (bytes::i32_at(b, 36) as i64, bytes::i32_at(b, 40) as i64)
            &&& r.moji_cnt == bytes::i32_at(b, 44) as i64
            &&& r.moji_color == bytes::i32_at(b, 48) as i64
            &&& r.shadow_color == bytes::i32_at(b, 52) as i64
            &&& r.shadow_mode == bytes::i32_at(b, 56) as i64
            &&& r.number_value == bytes::i32_at(b, 60) as i64
            &&& r.keta_max == bytes::i32_at(b, 64) as i64
            &&& r.disp_zero == bytes::i32_at(b, 68) as i64
            &&& r.disp_sign == bytes::i32_at(b, 72) as i64
            &&& r.tumeru_sign == bytes::i32_at(b, 76) as i64
            &&& r.space_mod == bytes::i32_at(b, 80) as i64
            &&& r.space == bytes::i32_at(b, 84) as i64
            &&& record::fields_of(b, short_records::object_base_kinds())->Ok_0.1 == b.skip(88)
        }),
{
    assert(b.skip(0) =~= b);
    let k0 = record::rep(Kind::Int, 22);
    assert(short_records::object_base_kinds() =~= k0);
    lemma_ints(b, 0, 22);
}

/// The work of an object, behind 72 bytes that are left out. A button is in use where its action has a number.
pub proof fn work_of_objects_is_read_in_its_order(r: ShortObjectWork, b: Seq<u8>)
    requires
        record::fields_of(b, short_records::object_work_kinds()) is Ok,
        short_records::object_work_from(r, record::fields_of(b, short_records::object_work_kinds())->Ok_0.0),
    ensures
        ({
            &&& r.thumb_save_no == bytes::i32_at(b, 72) as i64
            &&& r.movie_loop == (b[76] != 0)
            &&& r.movie_auto_free == (b[77] != 0)
            &&& r.movie_real_time == (b[78] != 0)
            &&& r.movie_pause == (b[79] != 0)
            &&& r.button_sys_type == bytes::i32_at(b, 80) as i64
            &&& r.button_sys_type_opt == bytes::i32_at(b, 84) as i64
            &&& r.button_action_no == bytes::i32_at(b, 88) as i64
            &&& r.button_se_no == bytes::i32_at(b, 92) as i64
            &&& r.button_no == bytes::i32_at(b, 96) as i64
            &&& r.button_group_no == bytes::i32_at(b, 100) as i64
            &&& r.button_enabled == (bytes::i32_at(b, 88) as i64 >= 0)
            &&& r.button_push_keep == (bytes::i32_at(b, 104) as i64 != 0)
            &&& r.button_state == bytes::i32_at(b, 108) as i64
            &&& r.button_mode == bytes::i32_at(b, 112) as i64
            &&& r.button_cut_no == bytes::i32_at(b, 116) as i64
            &&& r.button_decided_action_z_no == bytes::i32_at(b, 128) as i64
            &&& r.disp == bytes::i32_at(b, 132) as i64
            &&& record::fields_of(b, short_records::object_work_kinds())->Ok_0.1 == b.skip(136)
        }),
{
    assert(b.skip(0) =~= b);
    let k0 = record::rep(Kind::Skip(72), 1);
    let k1 = record::rep(Kind::Int, 1);
    let k2 = record::rep(Kind::Flag, 4);
    let k3 = record::rep(Kind::Int, 14);
    let a1 = k0 + k1;
    let a2 = a1 + k2;
    let a3 = a2 + k3;
    assert(short_records::object_work_kinds() =~= a3);
    lemma_behind(b, a2, k3);
    lemma_behind(b, a1, k2);
    lemma_behind(b, k0, k1);
    lemma_skipped(b, 0, 72);
    lemma_ints(b, 72, 1);
    lemma_flags(b, 76, 4);
    lemma_ints(b, 80, 14);
}

/// The range of an effect: where its orders begin and end, then where its layers do.
pub proof fn ranges_of_effects_are_read_in_their_order(r: ShortEffectRange, b: Seq<u8>)
    requires
        record::fields_of(b, short_records::effect_range_kinds()) is Ok,
        short_records::effect_range_from(r, record::fields_of(b, short_records::effect_range_kinds())->Ok_0.0),
    ensures
        ({
            &&& r.begin_order == bytes::i32_at(b, 0) as i64
            &&& r.end_order == bytes::i32_at(b, 4) as i64
            &&& r.begin_layer == bytes::i32_at(b, 8) as i64
            &&& r.end_layer == bytes::i32_at(b, 12) as i64
            &&& record::fields_of(b, short_records::effect_range_kinds())->Ok_0.1 == b.skip(16)
        }),
{
    assert(b.skip(0) =~= b);
    let k0 = record::rep(Kind::Int, 4);
    assert(short_records::effect_range_kinds() =~= k0);
    lemma_ints(b, 0, 4);
}

/// The place of an object: its order, its layer and its world.
pub proof fn places_of_objects_are_read_in_their_order(r: ShortObjectPlace, b: Seq<u8>)
    requires
        record::fields_of(b, short_records::object_place_kinds()) is Ok,
        short_records::object_place_from(r, record::fields_of(b, short_records::object_place_kinds())->Ok_0.0),
    ensures
        ({
            &&& r.order == bytes::i32_at(b, 0) as i64
            &&& r.layer == bytes::i32_at(b, 4) as i64
            &&& r.world == bytes::i32_at(b, 8) as i64
            &&& record::fields_of(b, short_records::object_place_kinds())->Ok_0.1 == b.skip(12)
        }),
{
    assert(b.skip(0) =~= b);
    let k0 = record::rep(Kind::Int, 3);
    assert(short_records::object_place_kinds() =~= k0);
    lemma_ints(b, 0, 3);
}

/// Whether an object is clipped.
pub proof fn clips_of_objects_are_read(r: ShortObjectClip, b: Seq<u8>)
    requires
        record::fields_of(b, short_records::object_clip_kinds()) is Ok,
        short_records::object_clip_from(r, record::fields_of(b, short_records::object_clip_kinds())->Ok_0.0),
    ensures
        ({
            &&& r.clip_use == bytes::i32_at(b, 0) as i64
            &&& record::fields_of(b, short_records::object_clip_kinds())->Ok_0.1 == b.skip(4)
        }),
{
    assert(b.skip(0) =~= b);
    let k0 = record::rep(Kind::Int, 1);
    assert(short_records::object_clip_kinds() =~= k0);
    lemma_ints(b, 0, 1);
}

/// Whether the picture of an object is clipped, and to which edges.
pub proof fn source_clips_of_objects_are_read_in_their_order(r: ShortObjectSourceClip, b: Seq<u8>)
    requires
        record::fields_of(b, short_records::object_source_clip_kinds()) is Ok,
        short_records::object_source_clip_from(r, record::fields_of(b, short_records::object_source_clip_kinds())->Ok_0.0),
    ensures
        ({
            &&& r.src_clip_use == bytes::i32_at(b, 0) as i64
            &&& r.src_clip == (
                bytes::i32_at(b, 4) as i64,
                bytes::i32_at(b, 8) as i64,
                bytes::i32_at(b, 12) as i64,
                bytes::i32_at(b, 16) as i64,
            )
            &&& record::fields_of(b, short_records::object_source_clip_kinds())->Ok_0.1 == b.skip(20)
        }),
{
    assert(b.skip(0) =~= b);
    let k0 = record::rep(Kind::Int, 5);
    assert(short_records::object_source_clip_kinds() =~= k0);
    lemma_ints(b, 0, 5);
}

/// The light of an object and how it is blended.
pub proof fn blends_of_objects_are_read_in_their_order(r: ShortObjectBlend, b: Seq<u8>)
    requires
        record::fields_of(b, short_records::object_blend_kinds()) is Ok,
        short_records::object_blend_from(r, record::fields_of(b, short_records::object_blend_kinds())->Ok_0.0),
    ensures
        ({
            &&& r.light_no == bytes::i32_at(b, 0) as i64
            &&& r.blend == bytes::i32_at(b, 4) as i64
            &&& record::fields_of(b, short_records::object_blend_kinds())->Ok_0.1 == b.skip(8)
        }),
{
    assert(b.skip(0) =~= b);
    let k0 = record::rep(Kind::Int, 2);
    assert(short_records::object_blend_kinds() =~= k0);
    lemma_ints(b, 0, 2);
}

/// The four texts of an object, one behind the other.
pub proof fn names_of_objects_are_read_in_their_order(r: ShortObjectNames, b: Seq<u8>)
    requires
        record::fields_of(b, short_records::object_names_kinds()) is Ok,
        short_records::object_names_from(r, record::fields_of(b, short_records::object_names_kinds())->Ok_0.0),
    ensures
        ({
            let p1 = text_end(b, 0);
            let p2 = text_end(b, p1);
            let p3 = text_end(b, p2);
            let p4 = text_end(b, p3);
            &&& r.file_name@ == text_from(b, 0)
            &&& r.string_value@ == text_from(b, p1)
            &&& r.button_scn_name@ == text_from(b, p2)
            &&& r.button_cmd_name@ == text_from(b, p3)
            &&& record::fields_of(b, short_records::object_names_kinds())->Ok_0.1 == b.skip(p4)
        }),
{
    assert(b.skip(0) =~= b);
    let k0 = record::rep(Kind::Text, 1);
    let k1 = record::rep(Kind::Text, 1);
    let k2 = record::rep(Kind::Text, 1);
    let k3 = record::rep(Kind::Text, 1);
    let a1 = k0 + k1;
    let a2 = a1 + k2;
    let a3 = a2 + k3;
    assert(short_records::object_names_kinds() =~= a3);
    lemma_behind(b, a2, k3);
    lemma_behind(b, a1, k2);
    lemma_behind(b, k0, k1);
    lemma_text(b, 0);
    let p1 = text_end(b, 0);
    lemma_text(b, p1);
    let p2 = text_end(b, p1);
    lemma_text(b, p2);
    let p3 = text_end(b, p2);
    lemma_text(b, p3);
    let p4 = text_end(b, p3);
}

/// The front of a selection by buttons: its template, 104 bytes that are left out, and three marks.
pub proof fn selections_of_buttons_are_read_in_their_order(r: ShortBtnSelectHead, b: Seq<u8>)
    requires
        record::fields_of(b, short_records::btn_select_head_kinds()) is Ok,
        short_records::btn_select_head_from(r, record::fields_of(b, short_records::btn_select_head_kinds())->Ok_0.0),
    ensures
        ({
            &&& r.template_no == bytes::i32_at(b, 0) as i64
            &&& r.appear_flag == (b[108] != 0)
            &&& r.processing_flag_0 == (b[109] != 0)
            &&& r.processing_flag_1 == (b[110] != 0)
            &&& record::fields_of(b, short_records::btn_select_head_kinds())->Ok_0.1 == b.skip(111)
        }),
{
    assert(b.skip(0) =~= b);
    let k0 = record::rep(Kind::Int, 1);
    let k1 = record::rep(Kind::Skip(104), 1);
    let k2 = record::rep(Kind::Flag, 3);
    let a1 = k0 + k1;
    let a2 = a1 + k2;
    assert(short_records::btn_select_head_kinds() =~= a2);
    lemma_behind(b, a1, k2);
    lemma_behind(b, k0, k1);
    lemma_ints(b, 0, 1);
    lemma_skipped(b, 4, 104);
    lemma_flags(b, 108, 3);
}

/// A message begins with its mark, its text and the name of who says it, and where its picture stands.
pub proof fn messages_begin_with_their_text(r: ShortMsgHead, b: Seq<u8>)
    requires
        record::fields_of(b, short_records::msg_head_kinds()) is Ok,
        short_records::msg_head_from(r, record::fields_of(b, short_records::msg_head_kinds())->Ok_0.0),
    ensures
        ({
            let p1 = text_end(b, 1);
            let p2 = text_end(b, p1);
            &&& r.pct_flag == (b[0] != 0)
            &&& r.msg_str@ == text_from(b, 1)
            &&& r.original_name@ == text_from(b, p1)
            &&& r.pct_pos_x == bytes::i32_at(b, p2) as i64
            &&& r.pct_pos_y == bytes::i32_at(b, p2 + 4) as i64
            &&& record::fields_of(b, short_records::msg_head_kinds())->Ok_0.1 == b.skip(p2 + 8)
        }),
{
    assert(b.skip(0) =~= b);
    let k0 = record::rep(Kind::Flag, 1);
    let k1 = record::rep(Kind::Text, 1);
    let k2 = record::rep(Kind::Text, 1);
    let k3 = record::rep(Kind::Int, 2);
    let a1 = k0 + k1;
    let a2 = a1 + k2;
    let a3 = a2 + k3;
    assert(short_records::msg_head_kinds() =~= a3);
    lemma_behind(b, a2, k3);
    lemma_behind(b, a1, k2);
    lemma_behind(b, k0, k1);
    lemma_flags(b, 0, 1);
    lemma_text(b, 1);
    let p1 = text_end(b, 1);
    lemma_text(b, p1);
    let p2 = text_end(b, p1);
    lemma_ints(b, p2, 2);
}

/// A message ends with its voice, a note, and the scene and the line that it came from.
pub proof fn messages_end_with_their_line(r: ShortMsgTail, b: Seq<u8>)
    requires
        record::fields_of(b, short_records::msg_tail_kinds()) is Ok,
        short_records::msg_tail_from(r, record::fields_of(b, short_records::msg_tail_kinds())->Ok_0.0),
    ensures
        ({
            let p1 = text_end(b, 4);
            &&& r.koe_play_no == bytes::i32_at(b, 0) as i64
            &&& r.debug_msg@ == text_from(b, 4)
            &&& r.scn_no == bytes::i32_at(b, p1) as i64
            &&& r.line_no == bytes::i32_at(b, p1 + 4) as i64
            &&& record::fields_of(b, short_records::msg_tail_kinds())->Ok_0.1 == b.skip(p1 + 8)
        }),
{
    assert(b.skip(0) =~= b);
    let k0 = record::rep(Kind::Int, 1);
    let k1 = record::rep(Kind::Text, 1);
    let k2 = record::rep(Kind::Int, 2);
    let a1 = k0 + k1;
    let a2 = a1 + k2;
    assert(short_records::msg_tail_kinds() =~= a2);
    lemma_behind(b, a1, k2);
    lemma_behind(b, k0, k1);
    lemma_ints(b, 0, 1);
    lemma_text(b, 4);
    let p1 = text_end(b, 4);
    lemma_ints(b, p1, 2);
}

/// The history ends with where it starts, where it ends and where the next message goes.
pub proof fn histories_end_with_their_places(r: ShortHistoryTail, b: Seq<u8>)
    requires
        record::fields_of(b, short_records::history_tail_kinds()) is Ok,
        short_records::history_tail_from(r, record::fields_of(b, short_records::history_tail_kinds())->Ok_0.0),
    ensures
        ({
            &&& r.start_pos == bytes::i32_at(b, 0) as i64
            &&& r.last_pos == bytes::i32_at(b, 4) as i64
            &&& r.insert_pos == bytes::i32_at(b, 8) as i64
            &&& r.new_msg_flag == (b[12] != 0)
            &&& record::fields_of(b, short_records::history_tail_kinds())->Ok_0.1 == b.skip(13)
        }),
{
    assert(b.skip(0) =~= b);
    let k0 = record::rep(Kind::Int, 3);
    let k1 = record::rep(Kind::Flag, 1);
    let a1 = k0 + k1;
    assert(short_records::history_tail_kinds() =~= a1);
    lemma_behind(b, k0, k1);
    lemma_ints(b, 0, 3);
    lemma_flags(b, 12, 1);
}

/// A color is a word: its parts are the bytes of the word, the highest first.
pub proof fn colors_are_words_of_four_parts(v: i64)
    requires
        i32::MIN <= v <= i32::MAX,
    ensures
        ({
            let (a, r, g, b) = short_records::color_of(v);
            bytes::signed(a * 0x100_0000 + r * 0x1_0000 + g * 0x100 + b) == v
        }),
{
    let w: int = v as int % 0x1_0000_0000;
    assert(w == if v < 0 { v + 0x1_0000_0000 } else { v as int });
}

} // verus!
