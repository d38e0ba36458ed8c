use tilegame::motor::gfx::{render_region, Blit, NinePatch, TextureRegion};
use tilegame::motor::joystick::{Controller, ControllerAction, ControllerEvent, MotorJoystick};
use tilegame::motor::keyboard::MotorKeyboard;
use tilegame::motor::mouse::{MotorMouse, MouseEvent};
use tilegame::motor::timer::{MotorTimer, Tick};

#[test]
fn mouse_follows_motion() {
    let mut mouse = MotorMouse::new();
    assert_eq!(mouse.get_position(), (0, 0));
    mouse.handle_event(MouseEvent::Motion { x: 12, y: -3 });
    assert_eq!(mouse.get_position(), (12, -3));
    mouse.handle_event(MouseEvent::ButtonDown);
    mouse.handle_event(MouseEvent::ButtonUp);
    mouse.handle_event(MouseEvent::Wheel);
    assert_eq!(mouse.get_position(), (12, -3));
    mouse.handle_event(MouseEvent::Motion { x: i32::MAX, y: i32::MIN });
    assert_eq!(mouse.get_position(), (i32::MAX, i32::MIN));
}

#[test]
fn timer_interval() {
    assert_eq!(MotorTimer::new(60, 5).interval, 16);
    assert_eq!(MotorTimer::new(1, 5).interval, 1000);
    assert_eq!(MotorTimer::new(1001, 5).interval, 0);
    let timer = MotorTimer::new(60, 5);
    assert_eq!(timer.last_tick, 5);
    assert_eq!(timer.last_second, 5);
    assert_eq!(timer.fps, 0);
    assert!(!timer.log_enabled);
}

#[test]
fn timer_waits_out_the_interval() {
    let mut timer = MotorTimer::new(60, 100);
    assert_eq!(timer.tick(100), Tick::Wait { millis: 16 });
    assert_eq!(timer.tick(110), Tick::Wait { millis: 6 });
    assert_eq!(timer.tick(115), Tick::Wait { millis: 1 });
    assert_eq!(timer.last_tick, 100);
    assert_eq!(timer.tick(116), Tick::Frame { elapsed: 16, fps: None });
    assert_eq!(timer.last_tick, 116);
    assert_eq!(timer.tick(120), Tick::Wait { millis: 12 });
    assert_eq!(timer.tick(150), Tick::Frame { elapsed: 34, fps: None });
    assert_eq!(timer.fps, 0);
}

#[test]
fn timer_counts_frames_by_the_second() {
    let mut timer = MotorTimer::new(100, 0);
    timer.set_enable_fps_log(true);
    assert!(timer.log_enabled);
    let mut now = 0;
    let mut reports = Vec::new();
    for _ in 0..250 {
        now += 10;
        match timer.tick(now) {
            Tick::Frame { elapsed, fps } => {
                assert_eq!(elapsed, 10);
                if let Some(fps) = fps {
                    reports.push((now, fps));
                }
            }
            Tick::Wait { .. } => panic!("the interval is over"),
        }
    }
    assert_eq!(reports, vec![(1010, 101), (2020, 101)]);
    assert_eq!(timer.last_second, 2020);
    assert_eq!(timer.fps, 48);
}

#[test]
fn timer_on_a_clock_that_starts_over() {
    let mut timer = MotorTimer::new(50, u32::MAX - 5);
    assert_eq!(timer.tick(4), Tick::Wait { millis: 10 });
    assert_eq!(timer.tick(14), Tick::Frame { elapsed: 20, fps: None });
}

#[test]
fn timer_frame_count_stops_at_its_limit() {
    let mut timer = MotorTimer::new(1000, 0);
    timer.set_enable_fps_log(true);
    timer.fps = u16::MAX - 1;
    assert_eq!(timer.tick(1), Tick::Frame { elapsed: 1, fps: None });
    assert_eq!(timer.fps, u16::MAX);
    assert_eq!(timer.tick(2), Tick::Frame { elapsed: 1, fps: None });
    assert_eq!(timer.fps, u16::MAX);
}

#[test]
fn texture_region() {
    let region = TextureRegion::new(1, 2, 3, 4);
    assert_eq!(region.xywh(), (1, 2, 3, 4));
    assert_eq!(
        render_region(&region, (-5, 6)),
        Blit { region, x: -5, y: 6, w: 3, h: 4 }
    );
}

#[test]
fn nine_patch_is_cut_by_its_borders() {
    let patch = match NinePatch::new(TextureRegion::new(0, 8, 8, 8), 3, 3, 3, 3) {
        Some(patch) => patch,
        None => panic!("the borders fit"),
    };
    assert_eq!(patch.top_left.xywh(), (0, 8, 3, 3));
    assert_eq!(patch.top_center.xywh(), (3, 8, 2, 3));
    assert_eq!(patch.top_right.xywh(), (5, 8, 3, 3));
    assert_eq!(patch.middle_left.xywh(), (0, 11, 3, 2));
    assert_eq!(patch.middle_center.xywh(), (3, 11, 3, 2));
    assert_eq!(patch.middle_right.xywh(), (0, 11, 3, 2));
    assert_eq!(patch.bottom_left.xywh(), (0, 13, 3, 3));
    assert_eq!(patch.bottom_center.xywh(), (3, 13, 2, 3));
    assert_eq!(patch.bottom_right.xywh(), (5, 13, 3, 3));
}

#[test]
fn nine_patch_whose_borders_do_not_fit() {
    assert!(NinePatch::new(TextureRegion::new(0, 0, 8, 8), 5, 4, 1, 1).is_none());
    assert!(NinePatch::new(TextureRegion::new(0, 0, 8, 8), 1, 1, 8, 1).is_none());
    assert!(NinePatch::new(TextureRegion::new(u32::MAX, 0, 8, 8), 1, 1, 1, 1).is_none());
    assert!(NinePatch::new(TextureRegion::new(0, u32::MAX - 7, 8, 8), 1, 1, 1, 1).is_none());
    assert!(NinePatch::new(TextureRegion::new(0, 0, 8, 8), u32::MAX, u32::MAX, 0, 0).is_none());
    assert!(NinePatch::new(TextureRegion::new(0, 0, 8, 8), 4, 4, 4, 4).is_some());
    assert!(NinePatch::new(TextureRegion::new(u32::MAX - 8, 0, 8, 8), 1, 1, 1, 1).is_some());
}

#[test]
fn nine_patch_is_laid_out_row_by_row() {
    let patch = match NinePatch::new(TextureRegion::new(0, 8, 8, 8), 3, 3, 3, 3) {
        Some(patch) => patch,
        None => panic!("the borders fit"),
    };
    let blits = match patch.render(1, 0, 47, 20) {
        Some(blits) => blits,
        None => panic!("the patch fits"),
    };
    let expected = vec![
        Blit { region: patch.top_left, x: 1, y: 0, w: 3, h: 3 },
        Blit { region: patch.top_center, x: 4, y: 0, w: 41, h: 3 },
        Blit { region: patch.top_right, x: 45, y: 0, w: 3, h: 3 },
        Blit { region: patch.middle_left, x: 1, y: 3, w: 3, h: 14 },
        Blit { region: patch.middle_center, x: 4, y: 3, w: 41, h: 14 },
        Blit { region: patch.middle_right, x: 45, y: 3, w: 3, h: 14 },
        Blit { region: patch.bottom_left, x: 1, y: 17, w: 3, h: 3 },
        Blit { region: patch.bottom_center, x: 4, y: 17, w: 41, h: 3 },
        Blit { region: patch.bottom_right, x: 45, y: 17, w: 3, h: 3 },
    ];
    assert_eq!(blits, expected);
}

#[test]
fn nine_patch_that_cannot_be_laid_out() {
    let patch = match NinePatch::new(TextureRegion::new(0, 8, 8, 8), 3, 3, 3, 3) {
        Some(patch) => patch,
        None => panic!("the borders fit"),
    };
    assert!(patch.render(0, 0, 5, 20).is_none());
    assert!(patch.render(0, 0, 20, 5).is_none());
    assert!(patch.render(i32::MAX, 0, 20, 20).is_none());
    assert!(patch.render(0, i32::MAX - 19, 20, 20).is_none());
    assert!(patch.render(0, 0, u32::MAX, 20).is_none());
    assert!(patch.render(-100, -100, 6, 6).is_some());
    assert!(patch.render(i32::MAX - 20, i32::MAX - 20, 20, 20).is_some());
}

#[test]
fn keyboard_tells_held_from_just_pressed() {
    let mut keyboard = MotorKeyboard::new();
    assert!(!keyboard.is_key_pressed(4));
    assert!(!keyboard.is_key_just_pressed(4));
    keyboard.update(&vec![4, 7]);
    assert!(keyboard.is_key_pressed(4));
    assert!(keyboard.is_key_pressed(7));
    assert!(!keyboard.is_key_pressed(5));
    assert!(keyboard.is_key_just_pressed(4));
    assert!(keyboard.is_key_just_pressed(7));
    keyboard.update(&vec![7, 9, 9]);
    assert!(!keyboard.is_key_pressed(4));
    assert!(keyboard.is_key_pressed(7));
    assert!(keyboard.is_key_pressed(9));
    assert!(!keyboard.is_key_just_pressed(7));
    assert!(keyboard.is_key_just_pressed(9));
    assert!(!keyboard.is_key_just_pressed(4));
    keyboard.update(&Vec::new());
    assert!(!keyboard.is_key_pressed(7));
    assert!(!keyboard.is_key_just_pressed(9));
    keyboard.update(&vec![7]);
    assert!(keyboard.is_key_just_pressed(7));
}

fn controller(id: i32, name: &str) -> Controller<u8> {
    Controller { id, name: name.to_string(), game_controller: 0 }
}

#[test]
fn joystick_list() {
    let mut joystick: MotorJoystick<u8> = MotorJoystick::new();
    assert_eq!(joystick.get_controller_id(), None);
    assert!(joystick.get_controller(0).is_none());
    joystick.add_controller(controller(3, "a"));
    joystick.add_controller(controller(1, "b"));
    joystick.add_controller(controller(3, "c"));
    assert_eq!(joystick.get_controller_id(), Some(3));
    assert_eq!(joystick.get_controller(3).map(|c| c.name.as_str()), Some("a"));
    assert_eq!(joystick.get_controller(1).map(|c| c.name.as_str()), Some("b"));
    assert!(joystick.get_controller(2).is_none());
    assert!(joystick.remove_controller(2).is_none());
    assert_eq!(joystick.remove_controller(3).map(|c| c.name), Some("a".to_string()));
    assert_eq!(joystick.get_controller_id(), Some(1));
    assert_eq!(joystick.get_controller(3).map(|c| c.name.as_str()), Some("c"));
    assert_eq!(joystick.remove_controller(1).map(|c| c.name), Some("b".to_string()));
    assert_eq!(joystick.remove_controller(3).map(|c| c.name), Some("c".to_string()));
    assert_eq!(joystick.get_controller_id(), None);
    assert!(joystick.remove_controller(3).is_none());
}

#[test]
fn joystick_events() {
    assert_eq!(
        MotorJoystick::<u8>::handle_event(ControllerEvent::DeviceAdded { which: 2 }),
        ControllerAction::Open { id: 2 }
    );
    assert_eq!(
        MotorJoystick::<u8>::handle_event(ControllerEvent::DeviceRemoved { which: 5 }),
        ControllerAction::Close { id: 5 }
    );
    for event in [
        ControllerEvent::DeviceRemapped,
        ControllerEvent::AxisMotion,
        ControllerEvent::ButtonDown,
        ControllerEvent::ButtonUp,
    ] {
        assert_eq!(MotorJoystick::<u8>::handle_event(event), ControllerAction::Nothing);
    }
}
