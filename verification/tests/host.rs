use siglus_scene_vm::aether_host::{
    at_least_one, centered, map_button, phone_step_answer, preedit_cursor, FrameDesc,
    SiglusAetherHost, StepOutcome, VmMouseButton, SIGLUS_AK_EXIT_REQUESTED,
    SIGLUS_AK_INTERNAL_ERROR, SIGLUS_AK_INVALID_ARGUMENT, SIGLUS_AK_INVALID_STATE,
    SIGLUS_AK_NOT_SUPPORTED, SIGLUS_AK_OK,
};
use siglus_scene_vm::desktop_chihaya_bench::{
    DesktopChihayaBenchWindow, DialogEvent, DialogKey, DialogStep,
};
use siglus_scene_vm::render::shared_metal::{
    SelectStep, SharedMetalPresenter, TargetError, TargetFacts,
};
use siglus_scene_vm::runtime::gray_mask::GrayMask;
use siglus_scene_vm::runtime::wipe_directions::make_direction;
use siglus_scene_vm::runtime::wipe_mask::{angular_request, can_generate, generate, gray_from_palette};
use siglus_scene_vm::runtime::wipe_random::make_random_blocks;
use siglus_scene_vm::runtime::wipe_rings::make_square;

#[test]
fn shell_opens_one_game_at_a_time() {
    let mut host = SiglusAetherHost::new();
    assert_eq!(host.with_inner(), SIGLUS_AK_INVALID_STATE);
    assert_eq!(host.last_error, "no game is open");
    assert_eq!(host.begin_open(Some("bad root")), SIGLUS_AK_INVALID_ARGUMENT);
    assert_eq!(host.begin_open(None), SIGLUS_AK_OK);
    assert_eq!(host.finish_open(Some("no renderer")), SIGLUS_AK_INTERNAL_ERROR);
    assert_eq!(host.finish_open(None), SIGLUS_AK_OK);
    assert_eq!(host.begin_open(None), SIGLUS_AK_INVALID_STATE);
    assert_eq!(host.last_error, "a game is already open");
    assert_eq!(host.with_inner(), SIGLUS_AK_OK);
    assert_eq!(host.step_answer(StepOutcome::Running), SIGLUS_AK_OK);
    assert_eq!(host.step_answer(StepOutcome::Exit), SIGLUS_AK_EXIT_REQUESTED);
    assert_eq!(host.step_answer(StepOutcome::Failed("x".into())), SIGLUS_AK_INTERNAL_ERROR);
    assert_eq!(host.last_error, "x");
    assert_eq!(host.screen_size_answer(None), SIGLUS_AK_NOT_SUPPORTED);
    let none = FrameDesc { width: 0, height: 0, stride: 0 };
    assert_eq!(host.frame_desc_answer(None), (SIGLUS_AK_NOT_SUPPORTED, none));
    let desc = Some(FrameDesc { width: 3, height: 2, stride: 12 });
    assert_eq!(host.frame_desc_answer(desc), (SIGLUS_AK_OK, desc.unwrap()));
    assert_eq!(host.frame_room(false, desc, 99), Err(SIGLUS_AK_INVALID_ARGUMENT));
    assert_eq!(host.frame_room(true, desc, 23), Err(SIGLUS_AK_INTERNAL_ERROR));
    assert_eq!(host.last_error, "frame buffer too small: need 24 bytes, got 23");
    assert_eq!(host.frame_room(true, desc, 24), Ok(24));
    host.close();
    assert_eq!(host.last_error, "");
    assert_eq!(host.frame_room(true, desc, 24), Err(SIGLUS_AK_INVALID_STATE));
}

#[test]
fn host_numbers_are_mapped() {
    assert_eq!(map_button(0), VmMouseButton::Left);
    assert_eq!(map_button(2), VmMouseButton::Middle);
    assert_eq!(map_button(-4), VmMouseButton::Other(0));
    assert_eq!(map_button(300), VmMouseButton::Other(255));
    assert_eq!(at_least_one(0), 1);
    assert_eq!(centered(100, 60), 20);
    assert_eq!(centered(10, 60), 0);
    assert_eq!(preedit_cursor(1, 3), Some((1, 3)));
    assert_eq!(preedit_cursor(-1, 3), None);
    assert_eq!(phone_step_answer(false, &StepOutcome::Running), 2);
    assert_eq!(phone_step_answer(true, &StepOutcome::Exit), 1);
}

#[test]
fn dialog_scrolls_copies_and_closes() {
    let text: String = (0..30).map(|i| format!("line {i}\r\n")).collect();
    let mut d = DesktopChihayaBenchWindow::new(5, "  ", &text);
    assert_eq!(d.title, "Siglus");
    assert_eq!(d.lines.len(), 30);
    assert_eq!(d.body(2), "line 0\nline 1");
    assert_eq!(d.handle_key(DialogKey::PageDown, 10), DialogStep::Redraw);
    assert_eq!(d.scroll_line, 10);
    d.handle_key(DialogKey::End, 10);
    assert_eq!(d.scroll_line, 20);
    assert_eq!(d.counter(10).as_deref(), Some("21 / 30"));
    d.wheel(-100, 10);
    assert_eq!(d.scroll_line, 0);
    assert_eq!(d.handle_key(DialogKey::Enter, 10), DialogStep::Close);
    d.handle_key(DialogKey::Tab, 10);
    assert_eq!(d.handle_key(DialogKey::Space, 10), DialogStep::Copy);
    d.copied(Some("why"));
    assert!(d.notice.as_deref().unwrap().ends_with("\nwhy"));
    assert_eq!(d.handle_key(DialogKey::ArrowDown, 10), DialogStep::Nothing);
    assert_eq!(d.clicked(Some(1)), DialogStep::Redraw);
    assert_eq!(d.clicked(Some(1)), DialogStep::Close);
    assert_eq!(d.clicked(None), DialogStep::Nothing);
    d.pointer_moved(Some(1));
    assert_eq!(d.selected, 1);
    let resized = DialogEvent::SurfaceResized { width: 0, height: 50 };
    d.scroll_line = 25;
    assert_eq!(d.handle_window_event(resized, 10), DialogStep::Resize { width: 1, height: 50 });
    assert_eq!((d.scroll_line, d.request_id()), (20, 5));
    let moved = DialogEvent::PointerMoved { hit: Some(0) };
    assert_eq!(d.handle_window_event(moved, 10), DialogStep::Redraw);
    let enter = DialogEvent::KeyPressed { key: DialogKey::Enter };
    assert_eq!(d.handle_window_event(enter, 10), DialogStep::Copy);
    assert_eq!(d.handle_window_event(DialogEvent::CloseRequested, 10), DialogStep::Close);
    assert_eq!(d.handle_window_event(DialogEvent::RedrawRequested, 10), DialogStep::Render);
    d.clamp_scroll(100);
    assert_eq!(d.counter(100), None);
}

fn facts() -> TargetFacts {
    TargetFacts { width: 4, height: 2, is_bgra8: true, same_device: true }
}

#[test]
fn shared_targets_are_checked_and_become_ready() {
    let mut p = SharedMetalPresenter::new();
    assert_eq!(p.select(0, facts(), 4, 2), Ok(SelectStep::Park));
    assert_eq!(p.present(), Ok(None));
    assert_eq!(p.select(1, facts(), 5, 2), Err(TargetError::SizeMismatch));
    let rgba = TargetFacts { is_bgra8: false, ..facts() };
    assert_eq!(p.select(1, rgba, 4, 2), Err(TargetError::WrongFormat));
    let other = TargetFacts { same_device: false, ..facts() };
    assert_eq!(p.select(1, other, 4, 2), Err(TargetError::OtherDevice));
    assert_eq!(p.select(1, facts(), 4, 2), Ok(SelectStep::Import));
    assert!(p.target_ready(1));
    assert_eq!(p.present(), Ok(Some(1)));
    assert!(!p.target_ready(1));
    p.finished(1);
    assert!(p.target_ready(1));
    assert_eq!(p.select(1, facts(), 4, 2), Ok(SelectStep::Use));
    for key in 2..9 {
        assert_eq!(p.select(key, facts(), 4, 2), Ok(SelectStep::Import));
    }
    assert_eq!(p.select(9, facts(), 4, 2), Err(TargetError::TooManyTargets));
    p.clear();
    p.active = Some(3);
    assert_eq!(p.present(), Err(TargetError::Released));
}

fn rows(mask: &GrayMask) -> Vec<Vec<u8>> {
    mask.pixels.chunks_exact(mask.width as usize).map(|r| r.to_vec()).collect()
}

#[test]
fn wipes_have_their_tones() {
    assert_eq!(rows(&make_direction(3, 1, false, 2)), vec![vec![255, 128, 0]]);
    assert_eq!(rows(&make_direction(3, 1, false, 3)), vec![vec![0, 127, 255]]);
    assert_eq!(rows(&make_direction(1, 3, false, 0)), vec![vec![255], vec![128], vec![0]]);
    assert_eq!(rows(&make_direction(1, 3, true, 0)), vec![vec![0], vec![127], vec![255]]);
    assert_eq!(
        rows(&make_square(4, 4, false)),
        vec![
            vec![255, 255, 255, 255],
            vec![255, 0, 0, 255],
            vec![255, 0, 0, 255],
            vec![255, 255, 255, 255],
        ]
    );
    let a = make_random_blocks(16, 16, 4, 4, 7);
    let b = make_random_blocks(16, 16, 4, 4, 7);
    assert_eq!(a.pixels, b.pixels);
}

#[test]
fn masks_are_generated_by_their_numbers() {
    let mask = generate(5, &[], 4, 4, 0, None).unwrap();
    assert_eq!((mask.width, mask.height, mask.pixels.len()), (4, 4, 16));
    assert!(generate(-1, &[], 4, 4, 0, None).is_none());
    assert_eq!((gray_from_palette(3, false), gray_from_palette(300, true)), (252, 255));
    assert!(angular_request(5, &[], 4, 4).is_none());
    let mut shuffled = generate(40, &[0, 1, 1], 17, 3, 9, None).unwrap().pixels;
    assert_eq!(shuffled, generate(40, &[0, 1, 1], 17, 3, 9, None).unwrap().pixels);
    shuffled.sort();
    assert_eq!(shuffled, (0..51).map(|i| (255 * i / 50) as u8).collect::<Vec<u8>>());
    assert!(can_generate(40, 16_777_216, 1));
    assert!(!can_generate(102, 16_777_216, 1));
    assert!(!can_generate(40, u32::MAX, 2));
    assert!(can_generate(-1, u32::MAX, u32::MAX));
    let single = generate(5, &[], 0, 0, 0, None).unwrap();
    assert_eq!((single.width, single.height), (1, 1));
}
