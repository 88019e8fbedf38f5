use slam_rs::config::{remove_check_sign, LayoutConfig, CHECK_SIGN};
use slam_rs::screen::{
    Layout, Mode, Orientation, Output, Position, Rate, Resolution, State,
};

fn text(s: &str) -> String {
    s.to_string()
}

fn connected(name: &str) -> Output {
    Output {
        name: text(name),
        mode: Mode {
            resolution: Resolution { height: 1920, width: 1080 },
            rate: Rate { value: 60 },
        },
        is_primary: false,
        state: State::Connected,
        position: Position::Center,
        orientation: Orientation::Normal,
    }
}

fn layout(name: &str, outputs: Vec<Output>) -> Layout {
    let mut layout = Layout::new();
    layout.name = text(name);
    for output in outputs {
        layout.add(output);
    }
    layout
}

#[test]
fn output_new_is_switched_off() {
    let output = Output::new();
    assert_eq!(output.name, "");
    assert_eq!(output.mode, Mode::default());
    assert!(!output.is_primary);
    assert_eq!(output.state, State::Disconnected);
    assert_eq!(output.position, Position::Center);
    assert_eq!(output.orientation, Orientation::Normal);
    assert_eq!(Output::switched_off("DP-1"), Output { name: text("DP-1"), ..Output::new() });
    assert_eq!(Output::default(), Output { state: State::Connected, ..Output::new() });
}

#[test]
fn output_arguments_when_switched_off() {
    assert_eq!(Output::switched_off("DP-1").xrandr_args(), vec!["--output DP-1", "--off"]);
}

#[test]
fn output_arguments_when_connected() {
    assert_eq!(
        connected("eDP-1").xrandr_args(),
        vec!["--output eDP-1", "--mode 1920x1080 --rate 60", "--rotate normal"]
    );
    let placed = Output {
        is_primary: true,
        position: Position::LeftOf(text("eDP-1")),
        orientation: Orientation::Right,
        ..connected("HDMI-1")
    };
    assert_eq!(
        placed.xrandr_args(),
        vec![
            "--output HDMI-1",
            "--mode 1920x1080 --rate 60",
            "--rotate right",
            "--left-of eDP-1",
            "--primary"
        ]
    );
}

#[test]
fn output_arguments_when_duplicated() {
    let mirror = Output { state: State::Duplicated(text("eDP-1")), ..connected("HDMI-1") };
    assert_eq!(
        mirror.xrandr_args(),
        vec![
            "--output HDMI-1",
            "--same-as eDP-1",
            "--mode 1920x1080 --rate 60",
            "--rotate normal"
        ]
    );
}

#[test]
fn layout_new_is_empty() {
    let layout = Layout::new();
    assert!(layout.is_empty());
    assert_eq!(layout.len(), 0);
    assert_eq!(layout.name, "");
    assert!(!layout.is_current);
    assert_eq!(layout.get("eDP-1"), None);
    assert_eq!(Layout::default(), Layout::new());
}

#[test]
fn layout_add_and_get() {
    let mut layout = Layout::new();
    layout.add(connected("eDP-1"));
    layout.add(Output::switched_off("HDMI-1"));
    assert!(!layout.is_empty());
    assert_eq!(layout.len(), 2);
    assert_eq!(layout.get("eDP-1"), Some(&connected("eDP-1")));
    assert_eq!(layout.get("HDMI-1"), Some(&Output::switched_off("HDMI-1")));
    assert_eq!(layout.get("DP-1"), None);
    assert_eq!(layout.find("HDMI-1"), Some(1));
    assert_eq!(layout.output_at(0), &connected("eDP-1"));
}

#[test]
fn layout_add_replaces_by_name() {
    let mut layout = Layout::new();
    layout.add(connected("eDP-1"));
    layout.add(connected("HDMI-1"));
    layout.add(Output::switched_off("eDP-1"));
    assert_eq!(layout.len(), 2);
    assert_eq!(layout.get("eDP-1"), Some(&Output::switched_off("eDP-1")));
    assert_eq!(layout.find("eDP-1"), Some(0));
    assert_eq!(layout.get("HDMI-1"), Some(&connected("HDMI-1")));
}

#[test]
fn layout_arguments_follow_the_outputs() {
    let layout = layout("desk", vec![connected("eDP-1"), Output::switched_off("HDMI-1")]);
    assert_eq!(
        layout.xrandr_args(),
        vec![
            "--output eDP-1",
            "--mode 1920x1080 --rate 60",
            "--rotate normal",
            "--output HDMI-1",
            "--off"
        ]
    );
    assert_eq!(Layout::new().xrandr_args(), Vec::<String>::new());
}

#[test]
fn layout_clone_is_equal() {
    let first = layout("desk", vec![connected("eDP-1"), Output::switched_off("HDMI-1")]);
    assert_eq!(first.clone(), first);
}

#[test]
fn config_new_is_empty() {
    let config = LayoutConfig::new("/tmp/config.toml");
    assert!(config.is_empty());
    assert_eq!(config.file, "/tmp/config.toml");
    assert_eq!(config.layout_names(), Vec::<String>::new());
    assert_eq!(config.get("desk"), None);
}

#[test]
fn config_add_get_remove() {
    let mut config = LayoutConfig::new("c");
    let desk = layout("desk", vec![connected("eDP-1")]);
    let sofa = layout("sofa", vec![Output::switched_off("eDP-1")]);
    config.add(&desk);
    config.add(&sofa);
    assert!(!config.is_empty());
    assert_eq!(config.get("desk"), Some(&desk));
    assert_eq!(config.get("sofa"), Some(&sofa));
    assert_eq!(config.layout_names(), vec!["desk", "sofa"]);
    config.remove("desk");
    assert_eq!(config.get("desk"), None);
    assert_eq!(config.layout_names(), vec!["sofa"]);
    config.remove("nothing");
    assert_eq!(config.layout_names(), vec!["sofa"]);
    config.remove("sofa");
    assert!(config.is_empty());
}

#[test]
fn config_add_replaces_by_name() {
    let mut config = LayoutConfig::new("c");
    config.add(&layout("desk", vec![connected("eDP-1")]));
    config.add(&layout("sofa", vec![]));
    let changed = layout("desk", vec![Output::switched_off("eDP-1")]);
    config.add(&changed);
    assert_eq!(config.layout_names(), vec!["desk", "sofa"]);
    assert_eq!(config.get("desk"), Some(&changed));
}

#[test]
fn config_apply_marks_one_layout() {
    let mut config = LayoutConfig::new("c");
    config.add(&layout("desk", vec![connected("eDP-1")]));
    config.add(&layout("sofa", vec![Output::switched_off("eDP-1")]));
    assert_eq!(
        config.xrandr_args("desk"),
        Some(vec![
            text("--output eDP-1"),
            text("--mode 1920x1080 --rate 60"),
            text("--rotate normal")
        ])
    );
    assert!(config.apply("desk", true));
    assert_eq!(config.layout_names(), vec![format!("desk{}", CHECK_SIGN), text("sofa")]);
    assert!(config.apply("sofa", true));
    assert_eq!(config.layout_names(), vec![text("desk"), format!("sofa{}", CHECK_SIGN)]);
    assert!(config.get("sofa").unwrap().is_current);
    assert!(!config.get("desk").unwrap().is_current);
}

#[test]
fn config_apply_of_an_absent_layout_changes_nothing() {
    let mut config = LayoutConfig::new("c");
    config.add(&layout("desk", vec![connected("eDP-1")]));
    config.add(&layout("sofa", vec![]));
    assert!(config.apply("desk", true));
    let before = config.clone();
    assert_eq!(config.xrandr_args("balcony"), None);
    assert!(!config.apply("balcony", true));
    assert_eq!(config, before);
    assert!(!config.apply("", true));
    assert_eq!(config, before);
}

#[test]
fn config_apply_that_failed_changes_nothing() {
    let mut config = LayoutConfig::new("c");
    config.add(&layout("desk", vec![connected("eDP-1")]));
    config.add(&layout("sofa", vec![]));
    assert!(config.apply("desk", true));
    let before = config.clone();
    assert!(!config.apply("sofa", false));
    assert_eq!(config, before);
}

#[test]
fn config_mark_layout_as_current() {
    let mut config = LayoutConfig::new("c");
    config.add(&layout("desk", vec![]));
    config.add(&layout("sofa", vec![]));
    config.mark_layout_as_current("sofa");
    assert_eq!(config.layout_names(), vec!["desk", "sofa ✓"]);
    config.mark_layout_as_current("nothing");
    assert_eq!(config.layout_names(), vec!["desk", "sofa"]);
}

#[test]
fn check_sign_is_removed_everywhere() {
    assert_eq!(CHECK_SIGN, " ✓");
    assert_eq!(remove_check_sign("desk ✓"), "desk");
    assert_eq!(remove_check_sign("desk"), "desk");
    assert_eq!(remove_check_sign(" ✓"), "");
    assert_eq!(remove_check_sign(""), "");
    assert_eq!(remove_check_sign("a ✓b ✓ ✓c"), "abc");
    assert_eq!(remove_check_sign("a ✓"), "a");
    assert_eq!(remove_check_sign("a✓ "), "a✓ ");
    assert_eq!(remove_check_sign("a  ✓"), "a ");
}
