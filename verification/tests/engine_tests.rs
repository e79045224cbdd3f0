use park_engine::audio::{choose_output_config, output_buffer_len, output_sample_rate, OutputConfig};
use park_engine::engine::{next_fixed_step, FixedStep};
use park_engine::event::{InputEvent, Vec2_32};
use park_engine::input::{Button, GameInput, Key, WindowInput};
use park_engine::shared_data::{system_data, SharedData};

#[test]
fn fixed_steps_run_whole_steps_and_swap_on_last() {
    let mut last = 0u64;
    let now = 35u64;
    let mut runs = Vec::new();
    loop {
        let (step, next) = next_fixed_step(now, last, 10);
        last = next;
        match step {
            FixedStep::Done => break,
            FixedStep::Run { swap } => runs.push(swap),
        }
    }
    assert_eq!(runs, vec![false, false, true]);
    assert_eq!(last, 30);
}

#[test]
fn no_fixed_step_before_a_step_passed() {
    assert_eq!(next_fixed_step(9, 0, 10), (FixedStep::Done, 0));
    assert_eq!(next_fixed_step(0, 50, 10), (FixedStep::Done, 50));
    assert_eq!(next_fixed_step(10, 0, 10), (FixedStep::Run { swap: true }, 10));
}

#[test]
fn ring_read_at_offset_one_after_swap_finds_last_write() {
    let mut d: SharedData<(), u32> = SharedData::new((), vec![0, 0, 0]);
    *d.write_multiple() = 7;
    d.swap_multiple();
    assert_eq!(*d.read_multiple(1), 7);
    *d.write_multiple() = 8;
    d.swap_multiple();
    assert_eq!(*d.read_multiple(1), 8);
    assert_eq!(*d.read_multiple(2), 7);
}

#[test]
fn ring_turns_around_after_len_swaps() {
    let mut d: SharedData<u8, u32> = SharedData::new(4, vec![1, 2, 3]);
    *d.write_multiple() = 9;
    d.swap_multiple();
    d.swap_multiple();
    d.swap_multiple();
    assert_eq!(*d.write_multiple(), 9);
    assert_eq!(*d.read_single(), 4);
    *d.write_single() = 5;
    assert_eq!(*d.read_single(), 5);
}

#[test]
fn system_data_starts_empty() {
    let s = system_data();
    assert_eq!(s.static_mesh.read_single().locations.len(), 0);
}

#[test]
fn game_input_reports_changes_and_axes() {
    let mut g = GameInput::new(800, 600);
    g.handle_input(WindowInput::CursorMoved(Vec2_32 { x: 5, y: 6 }));
    g.handle_input(WindowInput::Key { key: Key::W, pressed: true });
    g.handle_input(WindowInput::Key { key: Key::A, pressed: true });
    g.handle_input(WindowInput::MouseButton { button: Button::Left, pressed: true });
    g.set_camera_zoom(0x4248_0000);
    let mut events = Vec::new();
    g.update(&mut events);
    assert_eq!(
        events,
        vec![
            InputEvent::CursorMoved,
            InputEvent::MouseButton(true),
            InputEvent::CameraMoveAxis(Vec2_32 { x: 0xbf80_0000, y: 0x3f80_0000 }),
            InputEvent::CameraRotateAxis(Vec2_32 { x: 0, y: 0 }),
            InputEvent::CameraZoom(0x4248_0000),
        ]
    );
    let mut events = Vec::new();
    g.handle_input(WindowInput::Key { key: Key::W, pressed: false });
    g.update(&mut events);
    assert_eq!(
        events,
        vec![
            InputEvent::CameraMoveAxis(Vec2_32 { x: 0xbf80_0000, y: 0 }),
            InputEvent::CameraRotateAxis(Vec2_32 { x: 0, y: 0 }),
            InputEvent::CameraZoom(0),
        ]
    );
    assert_eq!(g.cursor_position(), Vec2_32 { x: 5, y: 6 });
}

#[test]
fn space_or_middle_button_turns_camera() {
    let mut g = GameInput::new(1, 1);
    assert!(!g.camera_rotating());
    g.handle_input(WindowInput::Key { key: Key::Space, pressed: true });
    assert!(g.camera_rotating());
    g.handle_input(WindowInput::MouseButton { button: Button::Middle, pressed: false });
    assert!(!g.camera_rotating());
    g.handle_input(WindowInput::Resized { width: 3, height: 4 });
    assert_eq!(g.window_size(), (3, 4));
}

#[test]
fn audio_settings_follow_device_limits() {
    let mono = OutputConfig { float_samples: true, channels: 1 };
    let ints = OutputConfig { float_samples: false, channels: 2 };
    let stereo = OutputConfig { float_samples: true, channels: 2 };
    assert_eq!(choose_output_config(&[mono, ints, stereo]), Some(2));
    assert_eq!(choose_output_config(&[mono]), None);
    assert_eq!(output_sample_rate(44100), 44100);
    assert_eq!(output_sample_rate(96000), 48000);
    assert_eq!(output_buffer_len(Some((1024, 4096))), Some(1024));
    assert_eq!(output_buffer_len(Some((64, 256))), Some(256));
    assert_eq!(output_buffer_len(Some((64, 4096))), Some(512));
    assert_eq!(output_buffer_len(None), None);
}
