use slam_rs::screen::{
    Error, Mode, Orientation, Position, Rate, Resolution, State, ToXrandrArg,
};

fn text(s: &str) -> String {
    s.to_string()
}

#[test]
fn resolution_reads_height_then_width() {
    let parsed = Resolution::from_str("1920x1080").unwrap();
    assert_eq!(parsed, Resolution { height: 1920, width: 1080 });
}

#[test]
fn resolution_text_round_trip() {
    for s in ["1920x1080", "1x1", "65535x65535", "800x600", "10x9"] {
        assert_eq!(Resolution::from_str(s).unwrap().to_string(), s);
    }
}

#[test]
fn resolution_value_round_trip() {
    for (height, width) in [(1u16, 1u16), (7, 65535), (1080, 1920), (65535, 1), (100, 100)] {
        let resolution = Resolution { height, width };
        assert_eq!(Resolution::from_str(&resolution.to_string()), Ok(resolution));
        assert_eq!(Resolution::from(resolution.to_string()), resolution);
    }
}

#[test]
fn resolution_accepts_sign_and_leading_zeros() {
    assert_eq!(Resolution::from_str("+7x007"), Ok(Resolution { height: 7, width: 7 }));
}

#[test]
fn resolution_rejects_what_is_not_two_positive_parts() {
    for s in [
        "", "x", "1920", "1920x", "x1080", "axb", "1x2x3", "1xx2", "0x5", "5x0", "65536x1",
        "1x65536", "-1x2", "1 x2", "+x1", "1x+", "99999999999999999999x1",
    ] {
        assert_eq!(Resolution::from_str(s), Err(Error::InvalidResolution(text(s))), "{}", s);
    }
}

#[test]
fn resolution_to_string_has_no_padding() {
    assert_eq!(Resolution { height: 1920, width: 1080 }.to_string(), "1920x1080");
    assert_eq!(Resolution { height: 0, width: 0 }.to_string(), "0x0");
    assert_eq!(Resolution::default(), Resolution { height: 0, width: 0 });
}

#[test]
fn resolution_is_ordered_by_height_then_width() {
    let low = Resolution { height: 720, width: 1280 };
    let mid = Resolution { height: 1080, width: 1 };
    let high = Resolution { height: 1080, width: 1920 };
    assert!(low < mid);
    assert!(mid < high);
    assert!(low < high);
}

#[test]
fn resolution_precedes_by_height_then_width() {
    let low = Resolution { height: 720, width: 1280 };
    let mid = Resolution { height: 1080, width: 1 };
    let high = Resolution { height: 1080, width: 1920 };
    assert!(low.precedes(&mid));
    assert!(mid.precedes(&high));
    assert!(!high.precedes(&mid));
    assert!(!mid.precedes(&mid));
    assert!(Rate { value: 59 }.precedes(&Rate { value: 60 }));
    assert!(!Rate { value: 60 }.precedes(&Rate { value: 60 }));
    assert!(Rate { value: 59 } < Rate { value: 60 });
}

#[test]
fn rate_rounds_to_nearest() {
    assert_eq!(Rate::from_str("59.94").unwrap().value, 60);
    assert_eq!(Rate::from_str("60.00").unwrap().value, 60);
    assert_eq!(Rate::from_str("59.95").unwrap().value, 60);
    assert_eq!(Rate::from_str("59.49").unwrap().value, 59);
    assert_eq!(Rate::from_str("59.5").unwrap().value, 60);
    assert_eq!(Rate::from_str("74.97").unwrap().value, 75);
    assert_eq!(Rate::from_str("0.4").unwrap().value, 0);
    assert_eq!(Rate::from_str("0.5").unwrap().value, 1);
}

#[test]
fn rate_reads_plain_decimal_numbers() {
    assert_eq!(Rate::from_str("60"), Ok(Rate { value: 60 }));
    assert_eq!(Rate::from_str("60."), Ok(Rate { value: 60 }));
    assert_eq!(Rate::from_str(".5"), Ok(Rate { value: 1 }));
    assert_eq!(Rate::from_str("+59.6"), Ok(Rate { value: 60 }));
    assert_eq!(Rate::from_str("007.2"), Ok(Rate { value: 7 }));
}

#[test]
fn rate_stays_within_its_range() {
    assert_eq!(Rate::from_str("-3.7"), Ok(Rate { value: 0 }));
    assert_eq!(Rate::from_str("-0.2"), Ok(Rate { value: 0 }));
    assert_eq!(Rate::from_str("65534.4"), Ok(Rate { value: 65534 }));
    assert_eq!(Rate::from_str("65534.5"), Ok(Rate { value: 65535 }));
    assert_eq!(Rate::from_str("65535.9"), Ok(Rate { value: 65535 }));
    assert_eq!(Rate::from_str("70000"), Ok(Rate { value: 65535 }));
    assert_eq!(Rate::from_str("99999999999999999999999.1"), Ok(Rate { value: 65535 }));
}

#[test]
fn rate_rejects_what_is_no_decimal_number() {
    for s in ["", ".", "+", "-", "abc", "6o", "1.2.3", "1e3", "inf", "nan", " 60", "60 ", "--1"] {
        assert_eq!(Rate::from_str(s), Err(Error::InvalidRate(text(s))), "{}", s);
    }
}

#[test]
fn rate_value_round_trip() {
    for value in [0u16, 1, 9, 10, 59, 60, 144, 65535] {
        let rate = Rate { value };
        assert_eq!(Rate::from_str(&rate.to_string()), Ok(rate));
        assert_eq!(Rate::from(rate.to_string()), rate);
    }
    assert_eq!(Rate { value: 75 }.to_string(), "75");
    assert_eq!(Rate::default(), Rate { value: 0 });
}

#[test]
fn mode_argument() {
    let mode = Mode {
        resolution: Resolution { height: 1920, width: 1080 },
        rate: Rate { value: 60 },
    };
    assert_eq!(mode.to_xrandr_arg(), "--mode 1920x1080 --rate 60");
    assert_eq!(
        Mode::default(),
        Mode { resolution: Resolution { height: 0, width: 0 }, rate: Rate { value: 0 } }
    );
}

#[test]
fn position_labels() {
    assert_eq!(Position::list(), vec!["Center", "Left of", "Right of", "Above", "Below"]);
    assert_eq!(Position::Center.to_string(), "Center");
    assert_eq!(Position::LeftOf(text("a")).to_string(), "Left of");
    assert_eq!(Position::RightOf(text("a")).to_string(), "Right of");
    assert_eq!(Position::Above(text("a")).to_string(), "Above");
    assert_eq!(Position::Below(text("a")).to_string(), "Below");
}

#[test]
fn position_from_label() {
    assert_eq!(Position::from("Center", None), Position::Center);
    assert_eq!(Position::from("Center", Some(text("B"))), Position::Center);
    assert_eq!(Position::from("Left of", Some(text("B"))), Position::LeftOf(text("B")));
    assert_eq!(Position::from("Right of", Some(text("B"))), Position::RightOf(text("B")));
    assert_eq!(Position::from("Above", Some(text("B"))), Position::Above(text("B")));
    assert_eq!(Position::from("Below", Some(text("B"))), Position::Below(text("B")));
}

#[test]
fn position_without_label_or_reference() {
    assert_eq!(Position::labelled("Left of", None), Err(Error::InvalidPosition(text("Left of"))));
    assert_eq!(
        Position::labelled("Beside", Some(text("B"))),
        Err(Error::InvalidPosition(text("Beside")))
    );
    assert_eq!(Position::labelled("center", None), Err(Error::InvalidPosition(text("center"))));
    assert_eq!(Position::labelled("Below", Some(text("B"))), Ok(Position::Below(text("B"))));
}

#[test]
fn position_arguments() {
    assert_eq!(Position::Center.to_xrandr_arg(), "");
    assert_eq!(Position::LeftOf(text("x")).to_xrandr_arg(), "--left-of x");
    assert_eq!(Position::RightOf(text("x")).to_xrandr_arg(), "--right-of x");
    assert_eq!(Position::Above(text("x")).to_xrandr_arg(), "--above x");
    assert_eq!(Position::Below(text("x")).to_xrandr_arg(), "--below x");
    assert_eq!(Position::default(), Position::Center);
}

#[test]
fn state_labels() {
    assert_eq!(State::list(), vec!["Connected", "Duplicated", "Disconnected"]);
    assert_eq!(State::Connected.to_string(), "Connected");
    assert_eq!(State::Duplicated(text("a")).to_string(), "Duplicated");
    assert_eq!(State::Disconnected.to_string(), "Disconnected");
}

#[test]
fn state_from_label() {
    assert_eq!(State::from("Connected", None), State::Connected);
    assert_eq!(State::from("Disconnected", Some(text("B"))), State::Disconnected);
    assert_eq!(State::from("Duplicated", Some(text("B"))), State::Duplicated(text("B")));
    assert_eq!(State::labelled("Duplicated", None), None);
    assert_eq!(State::labelled("Off", None), None);
}

#[test]
fn state_arguments() {
    assert_eq!(State::Disconnected.to_xrandr_arg(), "--off");
    assert_eq!(State::Connected.to_xrandr_arg(), "");
    assert_eq!(State::Duplicated(text("HDMI-1")).to_xrandr_arg(), "--same-as HDMI-1");
    assert_eq!(State::default(), State::Connected);
}

#[test]
fn orientation_labels_and_arguments() {
    assert_eq!(Orientation::list(), vec!["Normal", "Inverted", "Left", "Right"]);
    for (orientation, label, arg) in [
        (Orientation::Normal, "Normal", "--rotate normal"),
        (Orientation::Inverted, "Inverted", "--rotate inverted"),
        (Orientation::Left, "Left", "--rotate left"),
        (Orientation::Right, "Right", "--rotate right"),
    ] {
        assert_eq!(orientation.to_string(), label);
        assert_eq!(orientation.to_xrandr_arg(), arg);
        assert_eq!(Orientation::from(text(label)), orientation);
        assert_eq!(Orientation::labelled(label), Some(orientation));
    }
    assert_eq!(Orientation::labelled("Sideways"), None);
    assert_eq!(Orientation::default(), Orientation::Normal);
}

#[test]
fn error_messages() {
    assert_eq!(Error::InvalidResolution(text("a")).to_string(), "Invalid resolution: a");
    assert_eq!(Error::InvalidRate(text("b")).to_string(), "Invalid refresh rate: b");
    assert_eq!(Error::InvalidPosition(text("c")).to_string(), "Invalid position: c");
    assert_eq!(Error::InvalidPattern(text("(")).to_string(), "Invalid pattern: (");
}
