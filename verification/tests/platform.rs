use renderer::platform::buffer::{vertex_attributes, BufferElement, BufferLayout, BufferUsage};
use renderer::platform::event::{KeyCode, KeyboardEvent, MouseButton, WindowEvent, KEYS, MOUSE_BUTTONS};
use renderer::platform::format::Format;
use renderer::platform::frame_tracker::{pace, Pace};
use renderer::platform::input::{Keyboard, MouseButtons};
use renderer::platform::program::{ScalarKind, ShaderDataType, ShaderSource};
use renderer::platform::window::{resized, WindowAttributes, WindowPosition, WindowSize};

#[test]
fn test_input() {
    let mut keyboard = Keyboard::new();
    let event = KeyboardEvent::KeyPressed(KeyCode::A);
    keyboard.clear();
    keyboard.handle_keyboard_event(&event);
    assert!(keyboard.is_key_pressed(KeyCode::A));
}

#[test]
fn keyboard_starts_idle() {
    let keyboard = Keyboard::new();
    for key in [KeyCode::Digit1, KeyCode::A, KeyCode::Escape, KeyCode::OSRight] {
        assert!(!keyboard.is_key_pressed(key));
        assert!(!keyboard.is_key_held(key));
        assert!(!keyboard.is_key_released(key));
    }
}

#[test]
fn key_press_is_counted_once_while_held() {
    let mut keyboard = Keyboard::new();
    keyboard.handle_keyboard_event(&KeyboardEvent::KeyPressed(KeyCode::W));
    assert!(keyboard.is_key_pressed(KeyCode::W));
    assert!(keyboard.is_key_held(KeyCode::W));
    assert!(!keyboard.is_key_released(KeyCode::W));
    // the key repeats while it is down
    keyboard.handle_keyboard_event(&KeyboardEvent::KeyPressed(KeyCode::W));
    assert!(!keyboard.is_key_pressed(KeyCode::W));
    assert!(keyboard.is_key_held(KeyCode::W));
}

#[test]
fn key_release_ends_hold() {
    let mut keyboard = Keyboard::new();
    keyboard.handle_keyboard_event(&KeyboardEvent::KeyPressed(KeyCode::Space));
    keyboard.handle_keyboard_event(&KeyboardEvent::KeyReleased(KeyCode::Space));
    assert!(keyboard.is_key_pressed(KeyCode::Space));
    assert!(!keyboard.is_key_held(KeyCode::Space));
    assert!(keyboard.is_key_released(KeyCode::Space));
}

#[test]
fn keyboard_clear_keeps_what_is_held() {
    let mut keyboard = Keyboard::new();
    keyboard.handle_keyboard_event(&KeyboardEvent::KeyPressed(KeyCode::A));
    keyboard.handle_keyboard_event(&KeyboardEvent::KeyPressed(KeyCode::B));
    keyboard.handle_keyboard_event(&KeyboardEvent::KeyReleased(KeyCode::B));
    keyboard.clear();
    assert!(!keyboard.is_key_pressed(KeyCode::A));
    assert!(keyboard.is_key_held(KeyCode::A));
    assert!(!keyboard.is_key_released(KeyCode::B));
    assert!(!keyboard.is_key_held(KeyCode::B));
}

#[test]
fn keys_do_not_disturb_each_other() {
    let mut keyboard = Keyboard::new();
    keyboard.handle_keyboard_event(&KeyboardEvent::KeyPressed(KeyCode::OSRight));
    assert!(keyboard.is_key_held(KeyCode::OSRight));
    assert!(!keyboard.is_key_held(KeyCode::OSLeft));
    assert!(!keyboard.is_key_held(KeyCode::Digit1));
}

#[test]
fn key_places_follow_the_declaration() {
    assert_eq!(KEYS, 108);
    assert_eq!(KeyCode::Digit1.index(), 0);
    assert_eq!(KeyCode::Digit0.index(), 9);
    assert_eq!(KeyCode::A.index(), 10);
    assert_eq!(KeyCode::Z.index(), 35);
    assert_eq!(KeyCode::F1.index(), 36);
    assert_eq!(KeyCode::F12.index(), 47);
    assert_eq!(KeyCode::Apostrophe.index(), 48);
    assert_eq!(KeyCode::Escape.index(), 62);
    assert_eq!(KeyCode::ScrollLock.index(), 86);
    assert_eq!(KeyCode::Numlock.index(), 87);
    assert_eq!(KeyCode::OSLeft.index(), 106);
    assert_eq!(KeyCode::OSRight.index(), 107);
}

#[test]
fn mouse_button_places() {
    assert_eq!(MOUSE_BUTTONS, 6);
    assert_eq!(MouseButton::Left.index(), 0);
    assert_eq!(MouseButton::Right.index(), 1);
    assert_eq!(MouseButton::Middle.index(), 2);
    assert_eq!(MouseButton::Back.index(), 3);
    assert_eq!(MouseButton::Forward.index(), 4);
    assert_eq!(MouseButton::Other.index(), 5);
}

#[test]
fn window_size_and_position() {
    let size = WindowSize::new(1200, 800);
    assert_eq!(size.width, 1200);
    assert_eq!(size.height, 800);
    assert_eq!(size, WindowSize { width: 1200, height: 800 });
    let position = WindowPosition::new(3, 4);
    assert_eq!(position.x, 3);
    assert_eq!(position.y, 4);
    assert!(matches!(WindowEvent::Resized(size), WindowEvent::Resized(s) if s.width == 1200));
}

#[test]
fn window_attributes_default() {
    let attributes = WindowAttributes::default();
    assert_eq!(attributes.title, "App");
    assert!(attributes.resizable);
    assert!(!attributes.maximised);
    assert!(!attributes.minimised);
    assert!(!attributes.focused);
    assert!(!attributes.fullscreen);
    assert_eq!(attributes.position, WindowPosition::new(0, 0));
    assert_eq!(attributes.size, WindowSize::new(640, 480));
    assert!(attributes.max_size.is_none());
    assert!(attributes.min_size.is_none());
    assert_eq!(attributes.swap_interval, 1);
    assert!(attributes.fps_limit.is_none());
    assert!(!attributes.grabbed_cursor);
    assert!(attributes.visible_cursor);
}

#[test]
fn resize_to_nothing_minimises() {
    let mut attributes = WindowAttributes::default();
    assert!(!resized(&mut attributes, WindowSize::new(0, 0)));
    assert!(attributes.minimised);
    assert_eq!(attributes.size, WindowSize::new(640, 480));
    assert!(resized(&mut attributes, WindowSize::new(800, 600)));
    assert!(!attributes.minimised);
    assert_eq!(attributes.size, WindowSize::new(800, 600));
    assert!(resized(&mut attributes, WindowSize::new(0, 10)));
    assert_eq!(attributes.size, WindowSize::new(0, 10));
}

#[test]
fn shader_data_type_sizes() {
    let all = [
        (ShaderDataType::Uint1, 1),
        (ShaderDataType::Uint2, 2),
        (ShaderDataType::Uint3, 3),
        (ShaderDataType::Uint4, 4),
        (ShaderDataType::Int1, 1),
        (ShaderDataType::Int2, 2),
        (ShaderDataType::Int3, 3),
        (ShaderDataType::Int4, 4),
        (ShaderDataType::Float1, 1),
        (ShaderDataType::Float2, 2),
        (ShaderDataType::Float3, 3),
        (ShaderDataType::Float4, 4),
        (ShaderDataType::Mat2f, 4),
        (ShaderDataType::Mat3f, 9),
        (ShaderDataType::Mat4f, 16),
    ];
    for (data_type, count) in all {
        assert_eq!(data_type.element_count(), count);
        assert_eq!(data_type.size_bytes(), 4 * count);
    }
}

#[test]
fn shader_source_keeps_both_texts() {
    let source = ShaderSource::new("void main() {}", "out vec4 colour;");
    assert_eq!(source.vertex, "void main() {}");
    assert_eq!(source.fragment, "out vec4 colour;");
}

#[test]
fn buffer_element_new() {
    let element = BufferElement::new(ShaderDataType::Float3, "position");
    assert_eq!(element.name, "position");
    assert_eq!(element.count, 3);
    assert_eq!(element.offset, 0);
    assert!(!element.normalised);
}

#[test]
fn buffer_layout_offsets_are_prefix_sums() {
    let elements = vec![
        BufferElement::new(ShaderDataType::Float2, "position"),
        BufferElement::new(ShaderDataType::Float2, "uv"),
        BufferElement::new(ShaderDataType::Mat4f, "transform"),
        BufferElement::new(ShaderDataType::Uint1, "id"),
    ];
    let layout = BufferLayout::new(elements, 6, 0, BufferUsage::StaticDraw);
    let offsets: Vec<u32> = layout.elements.iter().map(|e| e.offset).collect();
    assert_eq!(offsets, vec![0, 8, 16, 80]);
    assert_eq!(layout.stride, 84);
    assert_eq!(layout.buffer_size, 504);
    assert_eq!(layout.divisor, 0);
    assert!(matches!(layout.usage, BufferUsage::StaticDraw));
    assert_eq!(layout.elements[2].name, "transform");
}

#[test]
fn buffer_layout_without_elements() {
    let layout = BufferLayout::new(Vec::new(), 10, 1, BufferUsage::StreamCopy);
    assert_eq!(layout.stride, 0);
    assert_eq!(layout.buffer_size, 0);
    assert_eq!(layout.divisor, 1);
}

#[test]
fn format_bytes() {
    assert_eq!(Format::RGB.bytes(), 12);
    assert_eq!(Format::RGBA.bytes(), 16);
    assert_eq!(Format::RGBU8.bytes(), 3);
    assert_eq!(Format::RGBAU8.bytes(), 4);
}

#[test]
fn format_image_bytes() {
    assert_eq!(Format::RGB.image_bytes(400, 300), Some(400 * 300 * 12));
    assert_eq!(Format::RGBAU8.image_bytes(0, 300), Some(0));
    assert_eq!(Format::RGBA.image_bytes(usize::MAX, 2), None);
    assert_eq!(Format::RGBA.image_bytes(usize::MAX / 16 + 1, 1), None);
}

#[test]
fn pace_sleeps_while_ahead() {
    // sixty frames a second, three frames in: the fourth is due at 50 ms
    let frame = 16_666_666u128;
    assert_eq!(pace(40_000_000, frame, 3), Pace::Sleep(9_999_998));
    assert_eq!(pace(49_999_998, frame, 3), Pace::Reset);
    assert_eq!(pace(60_000_000, frame, 3), Pace::Reset);
    // without a limit, and before the first frame, nothing is slept
    assert_eq!(pace(1, 0, 7), Pace::Reset);
    assert_eq!(pace(0, frame, 0), Pace::Reset);
    assert_eq!(pace(0, frame, 1), Pace::Sleep(frame));
}

#[test]
fn mouse_buttons_press_and_release() {
    let mut buttons = MouseButtons::new();
    assert!(!buttons.is_button_pressed(MouseButton::Left));
    buttons.press(MouseButton::Left);
    assert!(buttons.is_button_pressed(MouseButton::Left));
    assert!(buttons.is_button_held(MouseButton::Left));
    assert!(!buttons.is_button_released(MouseButton::Left));
    assert!(!buttons.is_button_held(MouseButton::Right));
    // a press counts each time, also while the button is held
    buttons.clear();
    assert!(!buttons.is_button_pressed(MouseButton::Left));
    assert!(buttons.is_button_held(MouseButton::Left));
    buttons.press(MouseButton::Left);
    assert!(buttons.is_button_pressed(MouseButton::Left));
    buttons.release(MouseButton::Left);
    assert!(!buttons.is_button_held(MouseButton::Left));
    assert!(buttons.is_button_released(MouseButton::Left));
    buttons.press(MouseButton::Other);
    buttons.clear();
    assert!(!buttons.is_button_released(MouseButton::Left));
    assert!(buttons.is_button_held(MouseButton::Other));
}

#[test]
fn scalar_kinds() {
    assert_eq!(ShaderDataType::Uint3.scalar_kind(), ScalarKind::UnsignedInt);
    assert_eq!(ShaderDataType::Int1.scalar_kind(), ScalarKind::Int);
    assert_eq!(ShaderDataType::Float4.scalar_kind(), ScalarKind::Float);
    assert_eq!(ShaderDataType::Mat3f.scalar_kind(), ScalarKind::Float);
}

#[test]
fn vertex_attributes_are_numbered_through() {
    let first = BufferLayout::new(
        vec![
            BufferElement::new(ShaderDataType::Float3, "position"),
            BufferElement::new(ShaderDataType::Uint1, "id"),
        ],
        4,
        0,
        BufferUsage::StaticDraw,
    );
    let empty = BufferLayout::new(Vec::new(), 4, 0, BufferUsage::StaticDraw);
    let second = BufferLayout::new(
        vec![BufferElement::new(ShaderDataType::Mat4f, "transform")],
        16,
        1,
        BufferUsage::DynamicDraw,
    );
    let attributes = vertex_attributes(&[first, empty, second]);
    let seen: Vec<(u32, usize, u32, ScalarKind, u32, u32, Option<u32>)> = attributes
        .iter()
        .map(|a| (a.index, a.buffer, a.count, a.kind, a.stride, a.offset, a.divisor))
        .collect();
    assert_eq!(
        seen,
        vec![
            (0, 0, 3, ScalarKind::Float, 16, 0, None),
            (1, 0, 1, ScalarKind::UnsignedInt, 16, 12, None),
            (2, 2, 16, ScalarKind::Float, 64, 0, Some(1)),
        ]
    );
    assert!(attributes.iter().all(|a| !a.normalised));
    assert!(vertex_attributes(&[]).is_empty());
}
