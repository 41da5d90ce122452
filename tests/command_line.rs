use hand_gesture_control::split_command_line;

#[test]
fn words_are_split_on_white_space() {
    assert_eq!(split_command_line("  ls  -la\t/tmp \n"), vec!["ls", "-la", "/tmp"]);
}

#[test]
fn empty_line_has_no_words() {
    assert!(split_command_line("").is_empty());
    assert!(split_command_line(" \t ").is_empty());
}

#[test]
fn unicode_space_separates_words() {
    assert_eq!(split_command_line("xdotool\u{a0}key\u{3000}ctrl+c"), vec!["xdotool", "key", "ctrl+c"]);
}

#[test]
fn non_ascii_words_are_kept_whole() {
    assert_eq!(split_command_line("echo héllo wörld"), vec!["echo", "héllo", "wörld"]);
}

use hand_gesture_control::{Action, Axis, Command, KeyEvent, MouseButton, ScrollCommand};

fn scroll(custom: Option<&str>, axis: Axis) -> Command {
    Command::Scroll(ScrollCommand {
        custom_command: custom.map(String::from),
        factor_bits: 1000f32.to_bits(),
        axis,
    })
}

#[test]
fn command_line_spawns_its_words() {
    let c = Command::Execute(String::from("notify-send  hello"));
    assert_eq!(c.action(3, 4), Action::Spawn(vec![String::from("notify-send"), String::from("hello")]));
    assert_eq!(Command::Disabled.action(3, 4), Action::Nothing);
}

#[test]
fn mouse_commands_press_release_click() {
    assert_eq!(Command::Mouse(MouseButton::Left, KeyEvent::Press).action(0, 0), Action::MouseDown(MouseButton::Left));
    assert_eq!(Command::Mouse(MouseButton::Right, KeyEvent::Release).action(0, 0), Action::MouseUp(MouseButton::Right));
    assert_eq!(Command::Mouse(MouseButton::Middle, KeyEvent::Click).action(0, 0), Action::MouseClick(MouseButton::Middle));
}

#[test]
fn scroll_moves_along_its_axis_only() {
    assert_eq!(scroll(None, Axis::X).action(12, -7), Action::Scroll(12, 0));
    assert_eq!(scroll(None, Axis::Y).action(12, -7), Action::Scroll(0, -7));
}

#[test]
fn custom_scroll_gets_offset_as_last_argument() {
    assert_eq!(
        scroll(Some("xdotool click"), Axis::Y).action(12, -7),
        Action::Spawn(vec![String::from("xdotool"), String::from("click"), String::from("-7")])
    );
    assert_eq!(
        scroll(Some("cmd"), Axis::X).action(120, 0),
        Action::Spawn(vec![String::from("cmd"), String::from("120")])
    );
}
