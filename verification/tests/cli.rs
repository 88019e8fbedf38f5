use slam_rs::cli::cmd::{fetched, Cmd, Error};
use slam_rs::cli::dmenu::{judge, Dmenu, Message};
use slam_rs::cli::xrandr::{
    count_outputs, list_outputs, parse_screen_output, screens_from, screens_from_captures,
    Xrandr, SCREEN_BLOCK,
};
use slam_rs::config::LayoutConfig;
use slam_rs::screen as display;
use slam_rs::ui::{
    apply_new_layout_message, choose_layout_message, confirmation, confirmed,
    create_layout_message, remove_layout_message, start_message, StartOption,
};

fn text(s: &str) -> String {
    s.to_string()
}

fn texts(list: &[&str]) -> Vec<String> {
    list.iter().map(|s| s.to_string()).collect()
}

#[test]
fn command_line_of_a_program() {
    let cmd = Cmd::new(text("\"/usr/bin/xrandr\""), &texts(&["--verbose", "-q"]));
    assert_eq!(cmd.bin_path, "\"/usr/bin/xrandr\"");
    assert_eq!(cmd.args, texts(&["--verbose", "-q"]));
    assert_eq!(cmd.to_string(), "\"/usr/bin/xrandr\" --verbose -q");
    assert_eq!(Cmd::new(text("xrandr"), &[]).to_string(), "xrandr ");
    assert_eq!(Cmd::new(text("xrandr"), &texts(&["-q"])).to_string(), "xrandr -q");
}

#[test]
fn output_of_a_command_is_trimmed() {
    assert_eq!(fetched("  eDP-1 connected\n"), Ok(text("eDP-1 connected")));
    assert_eq!(fetched("a b"), Ok(text("a b")));
    assert_eq!(fetched("\n"), Ok(text("")));
    assert_eq!(fetched("\t x \u{a0}\n"), Ok(text("x")));
    assert_eq!(fetched(""), Err(Error::EmptyOutput));
}

#[test]
fn command_error_messages() {
    assert_eq!(
        Error::Utf8(text("bad byte")).to_string(),
        "Unable to decode Utf-8 command output: bad byte"
    );
    assert_eq!(Error::Io(text("not found")).to_string(), "Failed to run the command: not found");
    assert_eq!(Error::InvalidOutput.to_string(), "Output didn't match given options.");
    assert_eq!(Error::EmptyOutput.to_string(), "Expected output, found empty value.");
}

#[test]
fn menu_command_line() {
    let menu = Dmenu::new(text("\"/usr/bin/dmenu\""), None);
    assert_eq!(menu.cmd.args, texts(&["-l 5", "-g 1", "-p"]));
    let message = Message::new(&texts(&["No", "Yes"]), "Add another screen?");
    assert_eq!(
        menu.to_cmd(&message),
        "printf \"No\nYes\" | \"/usr/bin/dmenu\" -l 5 -g 1 -p \"Add another screen?\""
    );
    let plain = Dmenu::new(text("dmenu"), Some(&texts(&["-p"])));
    assert_eq!(
        plain.to_cmd(&Message::new(&[], "Name?")),
        "printf \"\" | dmenu -p \"Name?\""
    );
}

#[test]
fn message_contains_its_choices() {
    let message = Message::new(&texts(&["A", "B"]), "Which?");
    assert_eq!(message.prompt, texts(&["A", "B"]));
    assert_eq!(message.content, "Which?");
    assert!(message.contains(&text("A")));
    assert!(message.contains(&text("B")));
    assert!(!message.contains(&text("C")));
    assert!(!message.contains(&text("")));
    assert!(!Message::new(&[], "Which?").contains(&text("A")));
}

#[test]
fn answers_of_the_menu_are_judged() {
    let message = Message::new(&texts(&["A", "B"]), "Which?");
    assert_eq!(judge(&message, Ok(text("A")), true), Ok(text("A")));
    assert_eq!(judge(&message, Ok(text("C")), true), Err(Error::InvalidOutput));
    assert_eq!(judge(&message, Ok(text("C")), false), Ok(text("C")));
    assert_eq!(judge(&message, Ok(text("")), false), Ok(text("")));
    assert_eq!(judge(&message, Ok(text("")), true), Err(Error::InvalidOutput));
    assert_eq!(judge(&message, Err(Error::EmptyOutput), true), Err(Error::EmptyOutput));
    assert_eq!(judge(&message, Err(Error::EmptyOutput), false), Err(Error::EmptyOutput));
    assert_eq!(
        judge(&message, Err(Error::Io(text("gone"))), true),
        Err(Error::Io(text("gone")))
    );
    assert_eq!(
        judge(&message, Err(Error::Utf8(text("byte 3"))), false),
        Err(Error::Utf8(text("byte 3")))
    );
}

#[test]
fn display_tool_command_lines() {
    let tool = Xrandr::new(text("xrandr"), None);
    assert_eq!(tool.cmd.args, Vec::<String>::new());
    assert_eq!(
        tool.modes_command(),
        "xrandr  | grep -Ev \"disconnected|Screen\" | awk '{print $1, $2}' | awk -F'[/+* ]' '{print $1\" \"$2}'"
    );
    assert_eq!(tool.connected_command(), "xrandr  | grep \" connected\"");
    assert_eq!(tool.disconnected_command(), "xrandr  | grep \" disconnected\"");
    assert_eq!(
        tool.command_with_args(&texts(&["--output eDP-1", "--off"])),
        "xrandr  --output eDP-1 --off"
    );
    let verbose = Xrandr::new(text("xrandr"), Some(&texts(&["--verbose"])));
    assert_eq!(verbose.command_with_args(&vec![]), "xrandr --verbose ");
}

#[test]
fn first_word_of_a_line() {
    assert_eq!(parse_screen_output("eDP-1 connected primary"), Some(text("eDP-1")));
    assert_eq!(parse_screen_output("  HDMI-1\tdisconnected"), Some(text("HDMI-1")));
    assert_eq!(parse_screen_output("DP-1"), Some(text("DP-1")));
    assert_eq!(parse_screen_output(""), None);
    assert_eq!(parse_screen_output("   \t "), None);
}

#[test]
fn outputs_of_a_listing() {
    assert_eq!(
        list_outputs("eDP-1 connected primary\nHDMI-1 connected\n\n  DP-1 connected"),
        texts(&["eDP-1", "HDMI-1", "DP-1"])
    );
    assert_eq!(list_outputs(""), Vec::<String>::new());
    assert_eq!(list_outputs("\n\n"), Vec::<String>::new());
    assert_eq!(list_outputs("VGA-1 disconnected"), texts(&["VGA-1"]));
}

#[test]
fn lines_of_a_listing_are_counted() {
    assert_eq!(count_outputs("eDP-1 connected\nHDMI-1 connected"), 2);
    assert_eq!(count_outputs("eDP-1 connected"), 1);
    assert_eq!(count_outputs(""), 1);
    assert_eq!(count_outputs("\n\n"), 3);
}

#[test]
fn screens_of_a_listing() {
    let listing = "eDP-1 connected\n1920x1080 60.02\n1920x1080 59.97\n1280x720 60.00\nHDMI-1 connected\n3840x2160 30.00\n1920x1080i 60.00\n";
    let screens = screens_from(listing).unwrap();
    assert_eq!(screens.len(), 2);
    assert_eq!(screens[0].name, "eDP-1");
    assert_eq!(screens[0].modes.resolutions(), vec!["1920x1080", "1280x720"]);
    assert_eq!(screens[0].modes.rates(), vec!["60"]);
    assert_eq!(screens[1].name, "HDMI-1");
    assert_eq!(screens[1].modes.resolutions(), vec!["3840x2160"]);
    assert_eq!(screens[1].modes.rates(), vec!["30"]);
    assert_eq!(screens_from(""), Ok(vec![]));
    assert_eq!(screens_from("eDP-1 connected\n"), Ok(vec![]));
}

#[test]
fn screens_of_a_listing_fail_on_a_mode_out_of_range() {
    assert_eq!(
        screens_from("eDP-1 connected\n1920x1080 60.02\nHDMI-1 connected\n99999x1 60.00\n"),
        Err(display::Error::InvalidResolution(text("99999x1")))
    );
}

#[test]
fn a_later_screen_replaces_an_earlier_one_of_its_name() {
    let blocks = vec![
        texts(&["A connected\n1x1 1.0\n", "A"]),
        texts(&["B connected\n2x2 2.0\n", "B"]),
        texts(&["A connected\n3x3 3.0\n", "A"]),
    ];
    let screens = screens_from_captures(&blocks).unwrap();
    assert_eq!(screens.len(), 2);
    assert_eq!(screens[0].name, "A");
    assert_eq!(screens[0].modes.resolutions(), vec!["3x3"]);
    assert_eq!(screens[1].name, "B");
    assert_eq!(screens[1].modes.rates(), vec!["2"]);
}

#[test]
fn screen_block_pattern() {
    assert_eq!(
        SCREEN_BLOCK,
        r"(.+) connected".to_string()
            + "\n"
            + r"(?:[\da-zA-Z]+x[\da-zA-Z]+ [\da-zA-Z]+\.[\da-zA-Z]+"
            + "\n)+"
    );
}

#[test]
fn start_options() {
    assert_eq!(
        StartOption::list(),
        vec!["Apply Layout", "Remove Layout", "New Layout", "Exit"]
    );
    for option in [
        StartOption::ApplyLayout,
        StartOption::RemoveLayout,
        StartOption::NewLayout,
        StartOption::Exit,
    ] {
        assert_eq!(StartOption::from(option.to_string()), option);
        assert_eq!(StartOption::labelled(&option.to_string()), Some(option));
    }
    assert_eq!(StartOption::NewLayout.to_string(), "New Layout");
    assert_eq!(StartOption::labelled("Quit"), None);
}

#[test]
fn questions_around_the_wizard() {
    assert_eq!(start_message(), Message::new(&StartOption::list(), "Choose an option:"));
    assert_eq!(confirmation("Sure?"), Message::new(&texts(&["No", "Yes"]), "Sure?"));
    assert!(confirmed("Yes"));
    assert!(!confirmed("No"));
    assert!(!confirmed("yes"));
    assert_eq!(
        remove_layout_message("desk").content,
        "Do you really want to remove 'desk' layout? This operation will be irreversible!"
    );
    assert_eq!(apply_new_layout_message().content, "Apply new layout?");
    assert_eq!(
        create_layout_message().content,
        "You don't have any layouts yet. Create one?"
    );
    let mut config = LayoutConfig::new("c");
    let mut desk = display::Layout::new();
    desk.name = text("desk");
    config.add(&desk);
    assert_eq!(choose_layout_message(&config), Message::new(&texts(&["desk"]), "Choose layout:"));
}

#[test]
fn search_finds_the_groups_of_each_match() {
    assert_eq!(
        slam_rs::pattern::search(r"(\d+)-(\w)?", "a 12-b, 7- and 345-c"),
        Ok(vec![texts(&["12-b", "12", "b"]), texts(&["7-", "7", ""]), texts(&["345-c", "345", "c"])])
    );
    assert_eq!(slam_rs::pattern::search("x+", "abc"), Ok(vec![]));
    assert_eq!(slam_rs::pattern::search("", "ab").map(|found| found.len()), Ok(3));
}

#[test]
fn search_rejects_what_is_no_pattern() {
    assert_eq!(
        slam_rs::pattern::search("(", "abc"),
        Err(display::Error::InvalidPattern(text("(")))
    );
    assert_eq!(
        slam_rs::pattern::search(r"\w{100000}", "abc"),
        Err(display::Error::InvalidPattern(text(r"\w{100000}")))
    );
}
