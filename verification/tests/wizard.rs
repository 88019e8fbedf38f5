use slam_rs::config::LayoutConfig;
use slam_rs::modes::OutputModes;
use slam_rs::screen::{
    Layout, Mode, Orientation, Output, Position, Rate, Resolution, State,
};
use slam_rs::builder::{LayoutBuilder, Screen};
use slam_rs::wizard::Step;

fn text(s: &str) -> String {
    s.to_string()
}

fn screen(name: &str) -> Screen {
    Screen {
        name: text(name),
        modes: OutputModes::from_str("1920x1080 60.00\n1280x720 75.00\n").unwrap(),
    }
}

fn screens(names: &[&str]) -> Vec<Screen> {
    names.iter().map(|name| screen(name)).collect()
}

fn builder(names: &[&str]) -> LayoutBuilder {
    LayoutBuilder::new(screens(names), &LayoutConfig::new("c"))
}

fn answers(builder: &mut LayoutBuilder, responses: &[&str]) {
    for response in responses {
        assert!(builder.answer(response), "{} at {:?}", response, builder.step());
    }
}

fn connected(name: &str, position: Position, is_primary: bool) -> Output {
    Output {
        name: text(name),
        mode: Mode {
            resolution: Resolution { height: 1920, width: 1080 },
            rate: Rate { value: 60 },
        },
        is_primary,
        state: State::Connected,
        position,
        orientation: Orientation::Normal,
    }
}

#[test]
fn wizard_starts_with_the_name() {
    let builder = builder(&["A", "B"]);
    assert_eq!(builder.step(), Step::LayoutName);
    assert!(!builder.is_finished());
    assert!(!builder.validates());
    let message = builder.message();
    assert_eq!(message.prompt, Vec::<String>::new());
    assert_eq!(message.content, "What is the name of a new layout? (created are listed below)");
}

#[test]
fn wizard_offers_the_existing_names() {
    let mut config = LayoutConfig::new("c");
    let mut desk = Layout::new();
    desk.name = text("desk");
    config.add(&desk);
    let mut sofa = Layout::new();
    sofa.name = text("sofa");
    config.add(&sofa);
    config.apply("sofa", true);
    let builder = LayoutBuilder::new(screens(&["A"]), &config);
    assert_eq!(builder.options(), vec!["desk", "sofa ✓"]);
}

#[test]
fn wizard_without_monitors() {
    let mut builder = builder(&[]);
    assert_eq!(builder.step(), Step::NoMonitors);
    assert_eq!(builder.question(), "You don't have any monitors connected.");
    assert_eq!(builder.options(), Vec::<String>::new());
    assert!(builder.answer("anything"));
    assert!(builder.is_finished());
    assert_eq!(builder.finish(&vec![text("X")]), None);
}

#[test]
fn wizard_asks_again_for_an_empty_name() {
    let mut builder = builder(&["A"]);
    assert!(builder.answer(""));
    assert_eq!(builder.step(), Step::EmptyName);
    assert_eq!(
        builder.question(),
        "Layout name should not be empty string (press any key to continue)"
    );
    assert!(builder.answer("whatever"));
    assert_eq!(builder.step(), Step::LayoutName);
    assert!(builder.answer(" ✓"));
    assert_eq!(builder.step(), Step::EmptyName);
}

#[test]
fn wizard_asks_before_it_overwrites() {
    let mut config = LayoutConfig::new("c");
    let mut desk = Layout::new();
    desk.name = text("desk");
    config.add(&desk);
    config.apply("desk", true);
    let mut builder = LayoutBuilder::new(screens(&["A"]), &config);
    assert!(builder.answer("desk ✓"));
    assert_eq!(builder.step(), Step::Overwrite);
    assert_eq!(builder.question(), "Do you really want to overwrite existing layout: `desk`?");
    assert_eq!(builder.options(), vec!["No", "Yes"]);
    assert!(!builder.answer("Maybe"));
    assert_eq!(builder.step(), Step::Overwrite);
    assert!(builder.answer("No"));
    assert_eq!(builder.step(), Step::LayoutName);
    assert!(builder.answer("desk"));
    assert_eq!(builder.step(), Step::Overwrite);
    assert!(builder.answer("Yes"));
    assert_eq!(builder.step(), Step::OutputName);
}

#[test]
fn wizard_keeps_the_question_after_an_answer_that_is_no_choice() {
    let mut builder = builder(&["A", "B"]);
    answers(&mut builder, &["desk"]);
    assert_eq!(builder.step(), Step::OutputName);
    assert!(builder.validates());
    assert!(!builder.answer("C"));
    assert_eq!(builder.step(), Step::OutputName);
    assert_eq!(builder.options(), vec!["A", "B"]);
    answers(&mut builder, &["A"]);
    assert!(!builder.answer("connected"));
    assert_eq!(builder.step(), Step::OutputState);
    answers(&mut builder, &["Connected"]);
    assert!(!builder.answer("1x1"));
    assert_eq!(builder.step(), Step::OutputResolution);
}

#[test]
fn wizard_sets_up_one_of_two_outputs() {
    let mut builder = builder(&["A", "B"]);
    answers(&mut builder, &["desk", "A", "Connected"]);
    assert_eq!(builder.step(), Step::OutputResolution);
    assert_eq!(builder.question(), "Choose resolution:");
    assert_eq!(builder.options(), vec!["1920x1080", "1280x720"]);
    answers(&mut builder, &["1920x1080"]);
    assert_eq!(builder.step(), Step::OutputRate);
    assert_eq!(builder.options(), vec!["75", "60"]);
    answers(&mut builder, &["60"]);
    assert_eq!(builder.step(), Step::OutputOrientation);
    assert_eq!(builder.options(), vec!["Normal", "Inverted", "Left", "Right"]);
    answers(&mut builder, &["Normal"]);
    assert_eq!(builder.step(), Step::OutputPosition);
    assert_eq!(builder.options(), vec!["Center", "Left of", "Right of", "Above", "Below"]);
    answers(&mut builder, &["Center"]);
    assert_eq!(builder.step(), Step::Primary);
    assert_eq!(builder.question(), "Make screen A primary? (only once)");
    answers(&mut builder, &["Yes"]);
    assert_eq!(builder.step(), Step::AnotherScreen);
    assert_eq!(builder.question(), "Add another screen?");
    answers(&mut builder, &["No"]);
    assert!(builder.is_finished());
    let layout = builder.finish(&vec![]).unwrap();
    assert_eq!(layout.name, "desk");
    assert!(!layout.is_current);
    assert_eq!(layout.len(), 2);
    assert_eq!(layout.get("A"), Some(&connected("A", Position::Center, true)));
    assert_eq!(layout.get("B"), Some(&Output::switched_off("B")));
}

#[test]
fn wizard_switches_off_what_is_disconnected() {
    let mut builder = builder(&["A", "B"]);
    answers(&mut builder, &["desk", "B", "Disconnected"]);
    assert_eq!(builder.step(), Step::AnotherScreen);
    answers(&mut builder, &["No"]);
    let layout = builder.finish(&vec![text("VGA-1"), text("DP-2")]).unwrap();
    assert_eq!(layout.len(), 4);
    assert_eq!(layout.output_at(0), &Output::switched_off("B"));
    assert_eq!(layout.output_at(1), &Output::switched_off("A"));
    assert_eq!(layout.output_at(2), &Output::switched_off("VGA-1"));
    assert_eq!(layout.output_at(3), &Output::switched_off("DP-2"));
}

#[test]
fn wizard_asks_for_the_primary_output_once() {
    let mut builder = builder(&["A", "B", "C"]);
    answers(
        &mut builder,
        &["desk", "A", "Connected", "1280x720", "75", "Left", "Center", "No", "Yes"],
    );
    assert_eq!(builder.step(), Step::OutputName);
    assert_eq!(builder.options(), vec!["B", "C"]);
    answers(&mut builder, &["B", "Connected", "1920x1080", "60", "Normal", "Center", "Yes", "Yes"]);
    answers(&mut builder, &["C", "Connected", "1920x1080", "60", "Normal", "Center"]);
    assert!(builder.is_finished());
    let layout = builder.finish(&vec![]).unwrap();
    assert!(!layout.get("A").unwrap().is_primary);
    assert!(layout.get("B").unwrap().is_primary);
    assert!(!layout.get("C").unwrap().is_primary);
    assert_eq!(layout.get("A").unwrap().orientation, Orientation::Left);
    assert_eq!(
        layout.get("A").unwrap().mode,
        Mode { resolution: Resolution { height: 1280, width: 720 }, rate: Rate { value: 75 } }
    );
}

#[test]
fn wizard_ends_when_every_output_is_set_up() {
    let mut builder = builder(&["A"]);
    answers(&mut builder, &["desk", "A", "Disconnected"]);
    assert!(builder.is_finished());
    assert_eq!(builder.question(), "");
    assert!(builder.answer("more"));
    assert!(builder.is_finished());
    let layout = builder.finish(&vec![]).unwrap();
    assert_eq!(layout.len(), 1);
    assert_eq!(layout.get("A"), Some(&Output::switched_off("A")));
}

#[test]
fn wizard_mirrors_another_output() {
    let mut builder = builder(&["A", "B"]);
    answers(&mut builder, &["desk", "A", "Duplicated"]);
    assert_eq!(builder.step(), Step::DuplicatedScreen);
    assert_eq!(builder.question(), "Choose duplicated screen:");
    assert_eq!(builder.options(), vec!["B"]);
    assert!(!builder.answer("A"));
    answers(&mut builder, &["B", "1920x1080", "60", "Normal"]);
    assert_eq!(builder.step(), Step::Primary);
    answers(&mut builder, &["No", "No"]);
    let layout = builder.finish(&vec![]).unwrap();
    assert_eq!(
        layout.get("A"),
        Some(&Output {
            state: State::Duplicated(text("B")),
            ..connected("A", Position::Center, false)
        })
    );
    assert_eq!(layout.get("B"), Some(&Output::switched_off("B")));
}

#[test]
fn wizard_places_an_output_next_to_another() {
    let mut builder = builder(&["A", "B"]);
    answers(&mut builder, &["desk", "A", "Connected", "1920x1080", "60", "Normal", "Left of"]);
    assert_eq!(builder.step(), Step::RelativeScreen);
    assert_eq!(builder.question(), "Choose relative screen:");
    assert_eq!(builder.options(), vec!["B"]);
    assert!(!builder.answer("A"));
    answers(&mut builder, &["B", "No", "No"]);
    let layout = builder.finish(&vec![]).unwrap();
    assert_eq!(layout.get("A"), Some(&connected("A", Position::LeftOf(text("B")), false)));
}

#[test]
fn wizard_offers_only_the_centre_to_a_single_output() {
    let mut builder = builder(&["A"]);
    answers(&mut builder, &["desk", "A", "Connected", "1920x1080", "60", "Normal"]);
    assert_eq!(builder.step(), Step::OutputPosition);
    assert_eq!(builder.options(), vec!["Center"]);
    assert!(!builder.answer("Left of"));
    answers(&mut builder, &["Center", "Yes"]);
    assert!(builder.is_finished());
}

#[test]
fn wizard_does_not_offer_an_output_that_refers_to_a_third() {
    let mut builder = builder(&["A", "B", "C"]);
    // B is placed next to C.
    answers(
        &mut builder,
        &["desk", "B", "Connected", "1920x1080", "60", "Normal", "Right of", "C", "No", "Yes"],
    );
    // A may refer to C but not to B, which refers to C already.
    answers(&mut builder, &["A", "Connected", "1920x1080", "60", "Normal", "Left of"]);
    assert_eq!(builder.options(), vec!["C"]);
    assert!(!builder.answer("B"));
    assert_eq!(builder.step(), Step::RelativeScreen);
    answers(&mut builder, &["C", "No", "Yes"]);
    // C may refer to A and to B: both refer to C itself.
    answers(&mut builder, &["C", "Connected", "1920x1080", "60", "Normal", "Above"]);
    assert_eq!(builder.options(), vec!["A", "B"]);
    answers(&mut builder, &["A", "No"]);
    assert!(builder.is_finished());
    let layout = builder.finish(&vec![]).unwrap();
    assert_eq!(layout.get("B").unwrap().position, Position::RightOf(text("C")));
    assert_eq!(layout.get("A").unwrap().position, Position::LeftOf(text("C")));
    assert_eq!(layout.get("C").unwrap().position, Position::Above(text("A")));
}

#[test]
fn wizard_forces_the_centre_when_every_other_output_refers_elsewhere() {
    let mut builder = builder(&["A", "B", "C"]);
    answers(
        &mut builder,
        &["desk", "A", "Connected", "1920x1080", "60", "Normal", "Below", "B", "No", "Yes"],
    );
    answers(
        &mut builder,
        &["B", "Connected", "1920x1080", "60", "Normal", "Below", "A", "No", "Yes"],
    );
    answers(&mut builder, &["C", "Connected", "1920x1080", "60", "Normal"]);
    assert_eq!(builder.step(), Step::OutputPosition);
    assert_eq!(builder.options(), vec!["Center"]);
}

#[test]
fn wizard_without_an_output_hands_out_nothing() {
    let mut builder = builder(&["A"]);
    answers(&mut builder, &["desk"]);
    assert_eq!(builder.finish(&vec![text("B")]), None);
}

#[test]
fn wizard_keeps_every_reference_inside_the_layout() {
    let mut builder = builder(&["A", "B", "C"]);
    answers(
        &mut builder,
        &["desk", "A", "Connected", "1920x1080", "60", "Normal", "Left of", "B", "Yes", "Yes"],
    );
    answers(&mut builder, &["C", "Duplicated", "A", "1920x1080", "60", "Inverted", "No"]);
    let layout = builder.finish(&vec![text("D")]).unwrap();
    assert_eq!(layout.len(), 4);
    for index in 0..layout.len() {
        let output = layout.output_at(index);
        let reference = match &output.position {
            Position::Center => None,
            Position::LeftOf(name)
            | Position::RightOf(name)
            | Position::Above(name)
            | Position::Below(name) => Some(name),
        };
        if let Some(name) = reference {
            assert_ne!(name, &output.name);
            assert!(layout.get(name).is_some());
        }
        if let State::Duplicated(name) = &output.state {
            assert_ne!(name, &output.name);
            assert!(layout.get(name).is_some());
        }
    }
    assert_eq!(layout.get("B"), Some(&Output::switched_off("B")));
    assert_eq!(layout.get("D"), Some(&Output::switched_off("D")));
    let primaries = (0..layout.len()).filter(|index| layout.output_at(*index).is_primary).count();
    assert_eq!(primaries, 1);
}
