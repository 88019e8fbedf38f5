use slam_rs::app;
use slam_rs::cli::cmd;
use slam_rs::cli::dmenu::Message;
use slam_rs::config::LayoutConfig;
use slam_rs::screen as model;
use slam_rs::session::{Action, Event, Stage};
use slam_rs::ui::{StartOption, UserInterface};

fn text(s: &str) -> String {
    s.to_string()
}

fn texts(list: &[&str]) -> Vec<String> {
    list.iter().map(|s| s.to_string()).collect()
}

fn answer(s: &str) -> Event {
    Event::Answer(Ok(text(s)))
}

fn ask(choices: &[&str], question: &str) -> Action {
    Action::Ask(Message::new(&texts(choices), question))
}

fn consent(question: &str) -> Action {
    ask(&["No", "Yes"], question)
}

fn start_question() -> Action {
    Action::Ask(Message::new(&StartOption::list(), "Choose an option:"))
}

fn named(name: &str, outputs: Vec<model::Output>) -> model::Layout {
    let mut layout = model::Layout::new();
    layout.name = text(name);
    for output in outputs {
        layout.add(output);
    }
    layout
}

fn catalog(names: &[&str]) -> LayoutConfig {
    let mut config = LayoutConfig::new("c");
    for name in names {
        config.add(&named(name, vec![model::Output::switched_off("eDP-1")]));
    }
    config
}

const LISTING: &str = "eDP-1 connected\n1920x1080 60.02\n1280x720 59.97\nHDMI-1 connected\n3840x2160 30.00\n";

/// Runs the events one after the other and hands back the last action.
fn feed(ui: &mut UserInterface, events: Vec<Event>) -> Action {
    let mut action = Action::Exit;
    for event in events {
        action = ui.next(event);
    }
    action
}

#[test]
fn session_starts_with_the_options() {
    let mut ui = UserInterface::new(catalog(&[]));
    assert_eq!(ui.stage(), Stage::Over);
    assert_eq!(ui.start(), start_question());
    assert_eq!(ui.stage(), Stage::Start);
    assert_eq!(ui.next(answer("Nothing")), start_question());
    assert_eq!(ui.stage(), Stage::Start);
    assert_eq!(ui.next(answer("Exit")), Action::Exit);
    assert_eq!(ui.stage(), Stage::Over);
    assert_eq!(ui.next(answer("Apply Layout")), Action::Exit);
}

#[test]
fn session_ends_when_the_menu_writes_nothing() {
    let mut ui = UserInterface::new(catalog(&["desk"]));
    ui.start();
    assert_eq!(ui.next(Event::Answer(Err(cmd::Error::EmptyOutput))), Action::Exit);
    assert_eq!(ui.stage(), Stage::Over);
}

#[test]
fn session_fails_when_the_menu_fails() {
    let mut ui = UserInterface::new(catalog(&["desk"]));
    ui.start();
    assert_eq!(
        ui.next(Event::Answer(Err(cmd::Error::Io(text("no bash"))))),
        Action::Fail(app::Error::CmdError(cmd::Error::Io(text("no bash"))))
    );
}

#[test]
fn session_applies_a_layout_and_leaves() {
    let mut ui = UserInterface::new(catalog(&["desk", "sofa"]));
    ui.start();
    assert_eq!(ui.next(answer("Apply Layout")), ask(&["desk", "sofa"], "Choose layout:"));
    assert_eq!(ui.next(answer("balcony")), ask(&["desk", "sofa"], "Choose layout:"));
    assert_eq!(ui.next(answer("sofa")), Action::Invoke(texts(&["--output eDP-1", "--off"])));
    assert_eq!(ui.stage(), Stage::Applying);
    assert_eq!(ui.next(Event::Ran(Ok(()))), Action::Save);
    assert_eq!(ui.config().layout_names(), vec!["desk", "sofa ✓"]);
    assert_eq!(ui.next(Event::Saved), Action::Exit);
}

#[test]
fn session_keeps_the_mark_when_the_display_tool_fails() {
    let mut ui = UserInterface::new(catalog(&["desk", "sofa"]));
    ui.start();
    feed(&mut ui, vec![answer("Apply Layout"), answer("desk"), Event::Ran(Ok(())), Event::Saved]);
    let mut ui = UserInterface::new(ui.config().clone());
    ui.start();
    feed(&mut ui, vec![answer("Apply Layout"), answer("sofa")]);
    assert_eq!(
        ui.next(Event::Ran(Err(cmd::Error::Io(text("gone"))))),
        Action::Fail(app::Error::CmdError(cmd::Error::Io(text("gone"))))
    );
    assert_eq!(ui.config().layout_names(), vec!["desk ✓", "sofa"]);
}

#[test]
fn session_accepts_the_marked_name() {
    let mut config = catalog(&["desk", "sofa"]);
    config.apply("desk", true);
    let mut ui = UserInterface::new(config);
    ui.start();
    assert_eq!(ui.next(answer("Remove Layout")), ask(&["desk ✓", "sofa"], "Choose layout:"));
    assert_eq!(ui.next(answer("desk")), ask(&["desk ✓", "sofa"], "Choose layout:"));
    assert_eq!(
        ui.next(answer("desk ✓")),
        consent("Do you really want to remove 'desk' layout? This operation will be irreversible!")
    );
}

#[test]
fn session_removes_a_layout_after_consent() {
    let mut ui = UserInterface::new(catalog(&["desk", "sofa"]));
    ui.start();
    let question =
        "Do you really want to remove 'desk' layout? This operation will be irreversible!";
    feed(&mut ui, vec![answer("Remove Layout")]);
    assert_eq!(ui.next(answer("desk")), consent(question));
    assert_eq!(ui.next(answer("Sure")), consent(question));
    assert_eq!(ui.next(answer("No")), start_question());
    assert_eq!(ui.config().layout_names(), vec!["desk", "sofa"]);
    feed(&mut ui, vec![answer("Remove Layout"), answer("desk")]);
    assert_eq!(ui.next(answer("Yes")), Action::Save);
    assert_eq!(ui.config().layout_names(), vec!["sofa"]);
    assert_eq!(ui.next(Event::Saved), start_question());
}

#[test]
fn session_makes_a_layout() {
    let mut ui = UserInterface::new(catalog(&[]));
    ui.start();
    assert_eq!(ui.next(answer("New Layout")), Action::ListScreens);
    assert_eq!(
        ui.next(Event::Output(Ok(text(LISTING)))),
        ask(&[], "What is the name of a new layout? (created are listed below)")
    );
    assert_eq!(ui.stage(), Stage::Wizard);
    assert_eq!(ui.next(answer("desk")), ask(&["eDP-1", "HDMI-1"], "What screen to connect?"));
    assert_eq!(ui.next(answer("VGA-1")), ask(&["eDP-1", "HDMI-1"], "What screen to connect?"));
    let last = feed(
        &mut ui,
        vec![
            answer("eDP-1"),
            answer("Connected"),
            answer("1280x720"),
            answer("60"),
            answer("Normal"),
            answer("Center"),
            answer("Yes"),
            answer("No"),
        ],
    );
    assert_eq!(last, Action::ListDisconnected);
    assert_eq!(ui.next(Event::Output(Ok(text("DP-1 disconnected\nDP-2 disconnected")))), Action::Save);
    assert_eq!(ui.stage(), Stage::SaveNew);
    let layout = ui.config().get("desk").unwrap().clone();
    assert_eq!(layout.len(), 4);
    assert!(layout.get("eDP-1").unwrap().is_primary);
    assert_eq!(layout.get("HDMI-1"), Some(&model::Output::switched_off("HDMI-1")));
    assert_eq!(layout.get("DP-1"), Some(&model::Output::switched_off("DP-1")));
    assert_eq!(layout.get("DP-2"), Some(&model::Output::switched_off("DP-2")));
    assert_eq!(ui.next(Event::Saved), consent("Apply new layout?"));
    assert_eq!(ui.next(answer("Perhaps")), consent("Apply new layout?"));
    assert_eq!(
        ui.next(answer("Yes")),
        Action::Invoke(texts(&[
            "--output eDP-1",
            "--mode 1280x720 --rate 60",
            "--rotate normal",
            "--primary",
            "--output HDMI-1",
            "--off",
            "--output DP-1",
            "--off",
            "--output DP-2",
            "--off"
        ]))
    );
    assert_eq!(ui.next(Event::Ran(Ok(()))), Action::Save);
    assert_eq!(ui.config().layout_names(), vec!["desk ✓"]);
    assert_eq!(ui.next(Event::Saved), start_question());
}

#[test]
fn session_makes_a_layout_without_disconnected_outputs() {
    let mut ui = UserInterface::new(catalog(&[]));
    ui.start();
    feed(
        &mut ui,
        vec![
            answer("New Layout"),
            Event::Output(Ok(text(LISTING))),
            answer("desk"),
            answer("HDMI-1"),
            answer("Disconnected"),
            answer("No"),
        ],
    );
    assert_eq!(ui.next(Event::Output(Err(cmd::Error::EmptyOutput))), Action::Save);
    assert_eq!(ui.config().get("desk").unwrap().len(), 2);
    assert_eq!(ui.next(Event::Saved), consent("Apply new layout?"));
    assert_eq!(ui.next(answer("No")), start_question());
}

#[test]
fn session_fails_when_the_listing_fails() {
    let mut ui = UserInterface::new(catalog(&[]));
    ui.start();
    ui.next(answer("New Layout"));
    assert_eq!(
        ui.next(Event::Output(Err(cmd::Error::EmptyOutput))),
        Action::Fail(app::Error::CmdError(cmd::Error::EmptyOutput))
    );
    let mut ui = UserInterface::new(catalog(&[]));
    ui.start();
    ui.next(answer("New Layout"));
    assert_eq!(
        ui.next(Event::Output(Ok(text("eDP-1 connected\n99999x1 60.00\n")))),
        Action::Fail(app::Error::ScreenError(model::Error::InvalidResolution(text("99999x1"))))
    );
}

#[test]
fn session_tells_when_no_monitor_is_connected() {
    let mut ui = UserInterface::new(catalog(&[]));
    ui.start();
    ui.next(answer("New Layout"));
    assert_eq!(
        ui.next(Event::Output(Ok(text("nothing of use")))),
        Action::Show(Message::new(&[], "You don't have any monitors connected."))
    );
    assert_eq!(ui.stage(), Stage::NoMonitors);
    assert_eq!(ui.next(Event::Ran(Ok(()))), start_question());
}

#[test]
fn session_offers_to_make_the_first_layout() {
    let mut ui = UserInterface::new(catalog(&[]));
    ui.start();
    assert_eq!(
        ui.next(answer("Apply Layout")),
        consent("You don't have any layouts yet. Create one?")
    );
    assert_eq!(ui.next(answer("No")), Action::Exit);
    let mut ui = UserInterface::new(catalog(&[]));
    ui.start();
    ui.next(answer("Remove Layout"));
    assert_eq!(
        ui.next(answer("No")),
        consent("Do you really want to remove '' layout? This operation will be irreversible!")
    );
    let mut ui = UserInterface::new(catalog(&[]));
    ui.start();
    ui.next(answer("Apply Layout"));
    assert_eq!(ui.next(answer("Yes")), Action::ListScreens);
    let last = feed(
        &mut ui,
        vec![
            Event::Output(Ok(text(LISTING))),
            answer("desk"),
            answer("eDP-1"),
            answer("Disconnected"),
            answer("No"),
            Event::Output(Ok(text(""))),
            Event::Saved,
            answer("No"),
        ],
    );
    assert_eq!(last, Action::Exit);
    assert_eq!(ui.config().layout_names(), vec!["desk"]);
}

#[test]
fn session_rejects_an_event_it_does_not_wait_for() {
    let mut ui = UserInterface::new(catalog(&["desk"]));
    ui.start();
    assert_eq!(ui.next(Event::Saved), Action::Fail(app::Error::InternalError));
    assert_eq!(ui.stage(), Stage::Over);
    let mut ui = UserInterface::new(catalog(&["desk"]));
    ui.start();
    assert_eq!(
        ui.next(Event::Output(Ok(text("x")))),
        Action::Fail(app::Error::InternalError)
    );
    let mut ui = UserInterface::new(catalog(&["desk"]));
    ui.start();
    ui.next(answer("New Layout"));
    assert_eq!(ui.next(answer("desk")), Action::Fail(app::Error::InternalError));
}

#[test]
fn run_error_messages() {
    assert_eq!(
        app::Error::ScreenError(model::Error::InvalidRate(text("x"))).to_string(),
        "Failed to read screen properties: Invalid refresh rate: x"
    );
    assert_eq!(
        app::Error::ConfigError(slam_rs::config::Error::Io(text("denied"))).to_string(),
        "Failed to read config file: denied"
    );
    assert_eq!(
        app::Error::ConfigError(slam_rs::config::Error::TomlDe(text("line 1"))).to_string(),
        "Invalid layout config structure: line 1"
    );
    assert_eq!(
        app::Error::ConfigError(slam_rs::config::Error::TomlSer(text("map"))).to_string(),
        "Error serializing layout config: map"
    );
    assert_eq!(
        app::Error::CmdError(cmd::Error::InvalidOutput).to_string(),
        "Output didn't match given options."
    );
    assert_eq!(app::Error::InternalError.to_string(), "Unexpected error occured!");
    assert_eq!(
        app::Error::from(cmd::Error::EmptyOutput),
        app::Error::CmdError(cmd::Error::EmptyOutput)
    );
    assert_eq!(
        app::Error::from(model::Error::InvalidRate(text("x"))),
        app::Error::ScreenError(model::Error::InvalidRate(text("x")))
    );
    assert_eq!(
        app::Error::from(slam_rs::config::Error::Io(text("x"))),
        app::Error::ConfigError(slam_rs::config::Error::Io(text("x")))
    );
}
