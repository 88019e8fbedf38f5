//! The display model: resolutions, refresh rates, modes, and the state,
//! position and orientation of an output, each with its notation.

use crate::text::{
    all_digits, chars_of, decimal, decimal_text, digit_value, digits_value, find_char, first_at,
    is_canonical, is_digit, lemma_canonical_decimal, lemma_decimal_value, lemma_digits_concat,
    lemma_digits_from_front, lemma_first_at, pow10, read_digits, same_text, text_if, texts,
};
pub use crate::layout::{Layout, LayoutView, Output, OutputView, Outputs};
pub use crate::modes::{sort_and_filter_unique, ModesView, OutputModes};
use vstd::prelude::*;

verus! {

/// What can be wrong with a text that should describe a display.
#[derive(Debug, PartialEq, Eq)]
pub enum Error {
    /// The text is no resolution; it is carried along.
    InvalidResolution(String),
    /// The text is no refresh rate; it is carried along.
    InvalidRate(String),
    /// The text is no position; it is carried along.
    InvalidPosition(String),
    /// The search pattern, carried along, could not be compiled.
    InvalidPattern(String),
}

impl Clone for Error {
    fn clone(&self) -> (out: Self)
        ensures
            out@ == self@,
    {
        match self {
            Error::InvalidResolution(text) => Error::InvalidResolution(text.clone()),
            Error::InvalidRate(text) => Error::InvalidRate(text.clone()),
            Error::InvalidPosition(text) => Error::InvalidPosition(text.clone()),
            Error::InvalidPattern(text) => Error::InvalidPattern(text.clone()),
        }
    }
}

/// An `Error` with its text as a sequence of characters.
pub enum ErrorView {
    InvalidResolution(Seq<char>),
    InvalidRate(Seq<char>),
    InvalidPosition(Seq<char>),
    InvalidPattern(Seq<char>),
}

impl View for Error {
    type V = ErrorView;

    open spec fn view(&self) -> ErrorView {
        match self {
            Error::InvalidResolution(text) => ErrorView::InvalidResolution(text@),
            Error::InvalidRate(text) => ErrorView::InvalidRate(text@),
            Error::InvalidPosition(text) => ErrorView::InvalidPosition(text@),
            Error::InvalidPattern(text) => ErrorView::InvalidPattern(text@),
        }
    }
}

impl Error {
    /// The message for the user: what was expected, then the offending text.
    pub open spec fn message(self) -> Seq<char> {
        match self {
            Error::InvalidPosition(text) => "Invalid position: "@ + text@,
            Error::InvalidResolution(text) => "Invalid resolution: "@ + text@,
            Error::InvalidRate(text) => "Invalid refresh rate: "@ + text@,
            Error::InvalidPattern(text) => "Invalid pattern: "@ + text@,
        }
    }

    /// The message for the user.
    pub fn to_string(&self) -> (out: String)
        ensures
            out@ == self.message(),
    {
        match self {
            Error::InvalidPosition(text) => {
                let mut out = "Invalid position: ".to_owned();
                out.append(text.as_str());
                out
            },
            Error::InvalidResolution(text) => {
                let mut out = "Invalid resolution: ".to_owned();
                out.append(text.as_str());
                out
            },
            Error::InvalidRate(text) => {
                let mut out = "Invalid refresh rate: ".to_owned();
                out.append(text.as_str());
                out
            },
            Error::InvalidPattern(text) => {
                let mut out = "Invalid pattern: ".to_owned();
                out.append(text.as_str());
                out
            },
        }
    }
}

/// A value that has a notation on the command line of the display tool.
pub trait ToXrandrArg {
    /// The notation, as a sequence of characters; empty where the value needs
    /// no argument.
    spec fn xrandr_arg(&self) -> Seq<char>;

    /// The notation.
    fn to_xrandr_arg(&self) -> (arg: String)
        ensures
            arg@ == self.xrandr_arg(),
    ;
}

/// The number that `s` denotes as a part of a resolution: an optional `+`,
/// then decimal digits, at least one, for a number from 1 to 65535.
pub open spec fn positive_u16(s: Seq<char>) -> Option<u16> {
    let digits = if s.len() > 0 && s[0] == '+' {
        s.skip(1)
    } else {
        s
    };
    if digits.len() > 0 && all_digits(digits) && 1 <= digits_value(digits) <= u16::MAX {
        Some(digits_value(digits) as u16)
    } else {
        None
    }
}

/// The resolution that `s` denotes: exactly two parts with an `x` between
/// them, the height and then the width, each a `positive_u16`.
pub open spec fn resolution_of(s: Seq<char>) -> Option<Resolution> {
    let at = first_at(s, 'x');
    if at < s.len() {
        match (positive_u16(s.take(at)), positive_u16(s.skip(at + 1))) {
            (Some(height), Some(width)) => Some(Resolution { height, width }),
            _ => None,
        }
    } else {
        None
    }
}

/// How many lines and columns of pixels a mode has. Ordered by height, then
/// by width.
#[derive(Debug, Clone, Copy, PartialEq, Eq, Structural, PartialOrd, Ord, Hash)]
pub struct Resolution {
    pub height: u16,
    pub width: u16,
}

impl Default for Resolution {
    fn default() -> (out: Self)
        ensures
            out == (Resolution { height: 0, width: 0 }),
    {
        Resolution { height: 0, width: 0 }
    }
}

impl Resolution {
    /// The notation `HxW`.
    pub open spec fn text(self) -> Seq<char> {
        decimal(self.height as nat) + seq!['x'] + decimal(self.width as nat)
    }

    /// The place in the order of all resolutions: by height, then by width.
    pub open spec fn rank(self) -> u32 {
        (self.height * 0x1_0000 + self.width) as u32
    }

    /// Whether `self` comes before `other` in the order.
    pub open spec fn is_below(self, other: Resolution) -> bool {
        self.height < other.height || (self.height == other.height && self.width
            < other.width)
    }

    /// Whether `self` comes before `other` in the order.
    pub fn precedes(&self, other: &Resolution) -> (before: bool)
        ensures
            before == self.is_below(*other),
    {
        self.height < other.height || (self.height == other.height && self.width < other.width)
    }

    /// Reads a resolution. `InvalidResolution` carries the text that is none.
    pub fn from_str(resolution: &str) -> (out: Result<Resolution, Error>)
        ensures
            match out {
                Ok(found) => resolution_of(resolution@) == Some(found),
                Err(error) => resolution_of(resolution@) is None && error@
                    == ErrorView::InvalidResolution(resolution@),
            },
    {
        let chars = chars_of(resolution);
        let at = find_char(&chars, 0, 'x');
        assert(chars@.subrange(0, chars.len() as int) == chars@);
        if at == chars.len() {
            return Err(Error::InvalidResolution(resolution.to_owned()));
        }
        proof {
            assert(chars@.take(at as int) == chars@.subrange(0, at as int));
            assert(chars@.skip(at + 1) == chars@.subrange(at + 1, chars.len() as int));
        }
        let height = read_part(&chars, 0, at);
        let width = read_part(&chars, at + 1, chars.len());
        match (height, width) {
            (Some(height), Some(width)) => Ok(Resolution { height, width }),
            _ => Err(Error::InvalidResolution(resolution.to_owned())),
        }
    }

    /// The resolution that `resolution` denotes, for a text that denotes one:
    /// a text that `to_string` wrote for a parsed resolution always does.
    pub fn from(resolution: String) -> (out: Resolution)
        requires
            resolution_of(resolution@) is Some,
        ensures
            resolution_of(resolution@) == Some(out),
    {
        match Resolution::from_str(resolution.as_str()) {
            Ok(found) => found,
            Err(_) => Resolution { height: 0, width: 0 },
        }
    }

    /// The notation `HxW`.
    pub fn to_string(&self) -> (out: String)
        ensures
            out@ == self.text(),
    {
        let mut out = decimal_text(self.height);
        out.push('x');
        let width = decimal_text(self.width);
        out.append(width.as_str());
        out
    }
}

/// Reads `chars[from..to]` as a part of a resolution.
fn read_part(chars: &Vec<char>, from: usize, to: usize) -> (out: Option<u16>)
    requires
        from <= to <= chars.len(),
    ensures
        out == positive_u16(chars@.subrange(from as int, to as int)),
{
    let ghost part = chars@.subrange(from as int, to as int);
    let start = if from < to && chars[from] == '+' {
        from + 1
    } else {
        from
    };
    proof {
        if start == from + 1 {
            assert(part[0] == '+');
            assert(part.skip(1) == chars@.subrange(start as int, to as int));
        } else {
            if part.len() > 0 {
                assert(part[0] == chars@[from as int]);
            }
        }
    }
    if start == to {
        return None;
    }
    match read_digits(chars, start, to, 0x1_0000) {
        Some(value) => {
            if 1 <= value && value <= 0xffff {
                Some(value as u16)
            } else {
                None
            }
        },
        None => None,
    }
}

/// The refresh rate that `s` denotes: a decimal number, which is an optional
/// sign, then digits with at most one point among them, and at least one
/// digit. It is rounded to the nearest whole number, a half upwards, and kept
/// within 0 and 65535.
pub open spec fn rate_of(s: Seq<char>) -> Option<Rate> {
    let negative = s.len() > 0 && s[0] == '-';
    let body = if s.len() > 0 && (s[0] == '-' || s[0] == '+') {
        s.skip(1)
    } else {
        s
    };
    let point = first_at(body, '.');
    let whole = body.take(point);
    let fraction = if point < body.len() {
        body.skip(point + 1)
    } else {
        Seq::empty()
    };
    if all_digits(whole) && all_digits(fraction) && whole.len() + fraction.len() > 0 {
        Some(Rate { value: rounded(negative, whole, fraction) })
    } else {
        None
    }
}

/// The number with the digits `whole` before the point and `fraction` after
/// it, rounded to the nearest whole number, a half upwards, and kept within 0
/// and 65535: a first digit of the fraction from 5 on rounds upwards.
pub open spec fn rounded(negative: bool, whole: Seq<char>, fraction: Seq<char>) -> u16 {
    let up: nat = if fraction.len() > 0 && fraction[0] >= '5' {
        1
    } else {
        0
    };
    if negative {
        0
    } else if digits_value(whole) + up >= u16::MAX {
        u16::MAX
    } else {
        (digits_value(whole) + up) as u16
    }
}

/// Zero for a negative number, else `value` where it is below 65535, and
/// 65535 from there on.
fn saturate(negative: bool, value: u32) -> (out: u16)
    ensures
        out == if negative {
            0
        } else if value >= u16::MAX {
            u16::MAX as int
        } else {
            value as int
        },
{
    if negative {
        0
    } else if value >= 0xffff {
        0xffff
    } else {
        value as u16
    }
}

/// How often per second a mode redraws the picture, as a whole number.
#[derive(Debug, Clone, Copy, PartialEq, Eq, Structural, PartialOrd, Ord, Hash)]
pub struct Rate {
    pub value: u16,
}

impl Default for Rate {
    fn default() -> (out: Self)
        ensures
            out == (Rate { value: 0 }),
    {
        Rate { value: 0 }
    }
}

impl Rate {
    /// The notation: the number in decimal.
    pub open spec fn text(self) -> Seq<char> {
        decimal(self.value as nat)
    }

    /// Whether `self` is the lower rate.
    pub fn precedes(&self, other: &Rate) -> (before: bool)
        ensures
            before == (self.value < other.value),
    {
        self.value < other.value
    }

    /// Reads a refresh rate. `InvalidRate` carries the text that is none.
    pub fn from_str(rate: &str) -> (out: Result<Rate, Error>)
        ensures
            match out {
                Ok(found) => rate_of(rate@) == Some(found),
                Err(error) => rate_of(rate@) is None && error@ == ErrorView::InvalidRate(rate@),
            },
    {
        let chars = chars_of(rate);
        let signed = chars.len() > 0 && (chars[0] == '-' || chars[0] == '+');
        let negative = chars.len() > 0 && chars[0] == '-';
        let start: usize = if signed {
            1
        } else {
            0
        };
        let at = find_char(&chars, start, '.');
        let fraction_start: usize = if at < chars.len() {
            at + 1
        } else {
            at
        };
        let ghost body = chars@.subrange(start as int, chars.len() as int);
        let ghost whole = chars@.subrange(start as int, at as int);
        let ghost fraction = chars@.subrange(fraction_start as int, chars.len() as int);
        proof {
            assert(body == if signed {
                chars@.skip(1)
            } else {
                chars@
            });
            assert(body.take(at - start) == whole);
            if at < chars.len() {
                assert(body.skip(at - start + 1) == fraction);
            } else {
                assert(fraction == Seq::<char>::empty());
            }
        }
        let whole_value = read_digits(&chars, start, at, 0x1_0000);
        let fraction_value = read_digits(&chars, fraction_start, chars.len(), 0);
        if at - start + (chars.len() - fraction_start) == 0 {
            return Err(Error::InvalidRate(rate.to_owned()));
        }
        match (whole_value, fraction_value) {
            (Some(whole_value), Some(_)) => {
                let up: u32 = if fraction_start < chars.len() && chars[fraction_start] >= '5' {
                    1
                } else {
                    0
                };
                proof {
                    if fraction.len() > 0 {
                        assert(fraction[0] == chars@[fraction_start as int]);
                    }
                }
                Ok(Rate { value: saturate(negative, whole_value + up) })
            },
            _ => Err(Error::InvalidRate(rate.to_owned())),
        }
    }

    /// The rate that `rate` denotes, for a text that denotes one: a text that
    /// `to_string` wrote always does.
    pub fn from(rate: String) -> (out: Rate)
        requires
            rate_of(rate@) is Some,
        ensures
            rate_of(rate@) == Some(out),
    {
        match Rate::from_str(rate.as_str()) {
            Ok(found) => found,
            Err(_) => Rate { value: 0 },
        }
    }

    /// The notation: the number in decimal.
    pub fn to_string(&self) -> (out: String)
        ensures
            out@ == self.text(),
    {
        decimal_text(self.value)
    }
}

/// A resolution together with a refresh rate: one way to drive an output.
#[derive(Debug, Clone, Copy, PartialEq, Eq, Structural)]
pub struct Mode {
    pub resolution: Resolution,
    pub rate: Rate,
}

impl Default for Mode {
    fn default() -> (out: Self)
        ensures
            out == Mode::blank(),
    {
        Mode { resolution: Resolution { height: 0, width: 0 }, rate: Rate { value: 0 } }
    }
}

impl Mode {
    /// The mode of an output that is not driven: all zero.
    pub open spec fn blank() -> Mode {
        Mode { resolution: Resolution { height: 0, width: 0 }, rate: Rate { value: 0 } }
    }
}

impl ToXrandrArg for Mode {
    open spec fn xrandr_arg(&self) -> Seq<char> {
        "--mode "@ + self.resolution.text() + " --rate "@ + self.rate.text()
    }

    fn to_xrandr_arg(&self) -> (arg: String) {
        let mut arg = "--mode ".to_owned();
        let resolution = self.resolution.to_string();
        arg.append(resolution.as_str());
        arg.append(" --rate ");
        let rate = self.rate.to_string();
        arg.append(rate.as_str());
        arg
    }
}

/// Where an output stands: in the middle, or at one side of another output,
/// which is given by its name.
#[derive(Debug, PartialEq, Eq)]
pub enum Position {
    Center,
    LeftOf(String),
    RightOf(String),
    Above(String),
    Below(String),
}

/// A `Position` with the name it refers to as a sequence of characters.
pub enum PositionView {
    Center,
    LeftOf(Seq<char>),
    RightOf(Seq<char>),
    Above(Seq<char>),
    Below(Seq<char>),
}

impl PositionView {
    /// The label under which the position is offered for choice.
    pub open spec fn label(self) -> Seq<char> {
        match self {
            PositionView::Center => "Center"@,
            PositionView::LeftOf(_) => "Left of"@,
            PositionView::RightOf(_) => "Right of"@,
            PositionView::Above(_) => "Above"@,
            PositionView::Below(_) => "Below"@,
        }
    }

    /// The name of the output that the position refers to, if it refers to one.
    pub open spec fn reference(self) -> Option<Seq<char>> {
        match self {
            PositionView::Center => None,
            PositionView::LeftOf(name) => Some(name),
            PositionView::RightOf(name) => Some(name),
            PositionView::Above(name) => Some(name),
            PositionView::Below(name) => Some(name),
        }
    }

    /// The position with the given label: `Center` needs no reference and
    /// ignores one, each other label needs one. `None` for any other label and
    /// for a missing reference.
    pub open spec fn labelled(label: Seq<char>, reference: Option<Seq<char>>) -> Option<
        PositionView,
    > {
        if label == "Center"@ {
            Some(PositionView::Center)
        } else {
            match reference {
                None => None,
                Some(name) => if label == "Left of"@ {
                    Some(PositionView::LeftOf(name))
                } else if label == "Right of"@ {
                    Some(PositionView::RightOf(name))
                } else if label == "Above"@ {
                    Some(PositionView::Above(name))
                } else if label == "Below"@ {
                    Some(PositionView::Below(name))
                } else {
                    None
                },
            }
        }
    }

    /// The argument that places an output so; none for the middle.
    pub open spec fn xrandr_arg(self) -> Seq<char> {
        match self {
            PositionView::Center => ""@,
            PositionView::LeftOf(name) => "--left-of "@ + name,
            PositionView::RightOf(name) => "--right-of "@ + name,
            PositionView::Above(name) => "--above "@ + name,
            PositionView::Below(name) => "--below "@ + name,
        }
    }
}

impl View for Position {
    type V = PositionView;

    open spec fn view(&self) -> PositionView {
        match self {
            Position::Center => PositionView::Center,
            Position::LeftOf(name) => PositionView::LeftOf(name@),
            Position::RightOf(name) => PositionView::RightOf(name@),
            Position::Above(name) => PositionView::Above(name@),
            Position::Below(name) => PositionView::Below(name@),
        }
    }
}

impl Clone for Position {
    fn clone(&self) -> (out: Self)
        ensures
            out@ == self@,
    {
        match self {
            Position::Center => Position::Center,
            Position::LeftOf(name) => Position::LeftOf(name.clone()),
            Position::RightOf(name) => Position::RightOf(name.clone()),
            Position::Above(name) => Position::Above(name.clone()),
            Position::Below(name) => Position::Below(name.clone()),
        }
    }
}

impl Default for Position {
    fn default() -> (out: Self)
        ensures
            out@ == PositionView::Center,
    {
        Position::Center
    }
}

impl Position {
    /// The labels of all positions, in the order in which they are offered.
    pub open spec fn labels() -> Seq<Seq<char>> {
        seq!["Center"@, "Left of"@, "Right of"@, "Above"@, "Below"@]
    }

    /// The labels of all positions, in the order in which they are offered.
    pub fn list() -> (out: Vec<String>)
        ensures
            texts(out@) == Position::labels(),
    {
        let mut out: Vec<String> = Vec::new();
        out.push("Center".to_owned());
        out.push("Left of".to_owned());
        out.push("Right of".to_owned());
        out.push("Above".to_owned());
        out.push("Below".to_owned());
        assert(texts(out@) =~= Position::labels());
        out
    }

    /// The position with the label `position`; `InvalidPosition` with the
    /// label where there is no such position or where it needs a reference
    /// and `relative_screen` gives none.
    pub fn labelled(position: &str, relative_screen: Option<String>) -> (out: Result<
        Position,
        Error,
    >)
        ensures
            match out {
                Ok(found) => Some(found@) == PositionView::labelled(
                    position@,
                    text_if(relative_screen),
                ),
                Err(error) => PositionView::labelled(position@, text_if(relative_screen))
                    is None && error@ == ErrorView::InvalidPosition(position@),
            },
    {
        if same_text(position, "Center") {
            return Ok(Position::Center);
        }
        match relative_screen {
            None => Err(Error::InvalidPosition(position.to_owned())),
            Some(name) => {
                if same_text(position, "Left of") {
                    Ok(Position::LeftOf(name))
                } else if same_text(position, "Right of") {
                    Ok(Position::RightOf(name))
                } else if same_text(position, "Above") {
                    Ok(Position::Above(name))
                } else if same_text(position, "Below") {
                    Ok(Position::Below(name))
                } else {
                    Err(Error::InvalidPosition(position.to_owned()))
                }
            },
        }
    }

    /// The position with the label `position`, which must be one of `labels`;
    /// any but `Center` must come with the screen that it refers to.
    pub fn from(position: &str, relative_screen: Option<String>) -> (out: Position)
        requires
            PositionView::labelled(position@, text_if(relative_screen)) is Some,
        ensures
            Some(out@) == PositionView::labelled(
                position@,
                text_if(relative_screen),
            ),
    {
        match Position::labelled(position, relative_screen) {
            Ok(found) => found,
            Err(_) => Position::Center,
        }
    }

    /// The label under which the position is offered for choice.
    pub fn to_string(&self) -> (out: String)
        ensures
            out@ == self@.label(),
    {
        match self {
            Position::Center => "Center".to_owned(),
            Position::LeftOf(_) => "Left of".to_owned(),
            Position::RightOf(_) => "Right of".to_owned(),
            Position::Below(_) => "Below".to_owned(),
            Position::Above(_) => "Above".to_owned(),
        }
    }
}

impl ToXrandrArg for Position {
    open spec fn xrandr_arg(&self) -> Seq<char> {
        self@.xrandr_arg()
    }

    fn to_xrandr_arg(&self) -> (arg: String) {
        match self {
            Position::Center => "".to_owned(),
            Position::LeftOf(name) => {
                let mut arg = "--left-of ".to_owned();
                arg.append(name.as_str());
                arg
            },
            Position::RightOf(name) => {
                let mut arg = "--right-of ".to_owned();
                arg.append(name.as_str());
                arg
            },
            Position::Below(name) => {
                let mut arg = "--below ".to_owned();
                arg.append(name.as_str());
                arg
            },
            Position::Above(name) => {
                let mut arg = "--above ".to_owned();
                arg.append(name.as_str());
                arg
            },
        }
    }
}

/// Whether an output shows a picture of its own, the picture of another
/// output, given by its name, or none.
#[derive(Debug, PartialEq, Eq)]
pub enum State {
    Connected,
    Duplicated(String),
    Disconnected,
}

/// A `State` with the name it refers to as a sequence of characters.
pub enum StateView {
    Connected,
    Duplicated(Seq<char>),
    Disconnected,
}

impl StateView {
    /// The label under which the state is offered for choice.
    pub open spec fn label(self) -> Seq<char> {
        match self {
            StateView::Connected => "Connected"@,
            StateView::Duplicated(_) => "Duplicated"@,
            StateView::Disconnected => "Disconnected"@,
        }
    }

    /// The name of the output whose picture is shown, if it is another's.
    pub open spec fn reference(self) -> Option<Seq<char>> {
        match self {
            StateView::Duplicated(name) => Some(name),
            _ => None,
        }
    }

    /// The state with the given label: `Duplicated` needs the name of the
    /// output that is mirrored, the others ignore one. `None` for any other
    /// label and for a missing name.
    pub open spec fn labelled(label: Seq<char>, reference: Option<Seq<char>>) -> Option<
        StateView,
    > {
        if label == "Connected"@ {
            Some(StateView::Connected)
        } else if label == "Disconnected"@ {
            Some(StateView::Disconnected)
        } else if label == "Duplicated"@ {
            match reference {
                Some(name) => Some(StateView::Duplicated(name)),
                None => None,
            }
        } else {
            None
        }
    }

    /// The argument that puts an output into the state; none for `Connected`.
    pub open spec fn xrandr_arg(self) -> Seq<char> {
        match self {
            StateView::Disconnected => "--off"@,
            StateView::Connected => ""@,
            StateView::Duplicated(name) => "--same-as "@ + name,
        }
    }
}

impl View for State {
    type V = StateView;

    open spec fn view(&self) -> StateView {
        match self {
            State::Connected => StateView::Connected,
            State::Duplicated(name) => StateView::Duplicated(name@),
            State::Disconnected => StateView::Disconnected,
        }
    }
}

impl Clone for State {
    fn clone(&self) -> (out: Self)
        ensures
            out@ == self@,
    {
        match self {
            State::Connected => State::Connected,
            State::Duplicated(name) => State::Duplicated(name.clone()),
            State::Disconnected => State::Disconnected,
        }
    }
}

impl Default for State {
    fn default() -> (out: Self)
        ensures
            out@ == StateView::Connected,
    {
        State::Connected
    }
}

impl State {
    /// The labels of all states, in the order in which they are offered.
    pub open spec fn labels() -> Seq<Seq<char>> {
        seq!["Connected"@, "Duplicated"@, "Disconnected"@]
    }

    /// The labels of all states, in the order in which they are offered.
    pub fn list() -> (out: Vec<String>)
        ensures
            texts(out@) == State::labels(),
    {
        let mut out: Vec<String> = Vec::new();
        out.push("Connected".to_owned());
        out.push("Duplicated".to_owned());
        out.push("Disconnected".to_owned());
        assert(texts(out@) =~= State::labels());
        out
    }

    /// The state with the label `state`, if there is one and, where it needs
    /// the mirrored screen, `duplicated_screen` gives it.
    pub fn labelled(state: &str, duplicated_screen: Option<String>) -> (out: Option<State>)
        ensures
            match out {
                Some(found) => Some(found@) == StateView::labelled(
                    state@,
                    text_if(duplicated_screen),
                ),
                None => StateView::labelled(state@, text_if(duplicated_screen)) is None,
            },
    {
        if same_text(state, "Connected") {
            Some(State::Connected)
        } else if same_text(state, "Disconnected") {
            Some(State::Disconnected)
        } else if same_text(state, "Duplicated") {
            match duplicated_screen {
                Some(name) => Some(State::Duplicated(name)),
                None => None,
            }
        } else {
            None
        }
    }

    /// The state with the label `state`, which must be one of `labels`;
    /// `Duplicated` must come with the screen that is mirrored.
    pub fn from(state: &str, duplicated_screen: Option<String>) -> (out: State)
        requires
            StateView::labelled(state@, text_if(duplicated_screen)) is Some,
        ensures
            Some(out@) == StateView::labelled(
                state@,
                text_if(duplicated_screen),
            ),
    {
        match State::labelled(state, duplicated_screen) {
            Some(found) => found,
            None => State::Connected,
        }
    }

    /// The label under which the state is offered for choice.
    pub fn to_string(&self) -> (out: String)
        ensures
            out@ == self@.label(),
    {
        match self {
            State::Connected => "Connected".to_owned(),
            State::Duplicated(_) => "Duplicated".to_owned(),
            State::Disconnected => "Disconnected".to_owned(),
        }
    }
}

impl ToXrandrArg for State {
    open spec fn xrandr_arg(&self) -> Seq<char> {
        self@.xrandr_arg()
    }

    fn to_xrandr_arg(&self) -> (arg: String) {
        match self {
            State::Disconnected => "--off".to_owned(),
            State::Connected => "".to_owned(),
            State::Duplicated(name) => {
                let mut arg = "--same-as ".to_owned();
                arg.append(name.as_str());
                arg
            },
        }
    }
}

/// Which way up an output shows its picture.
#[derive(Debug, Clone, Copy, PartialEq, Eq, Structural)]
pub enum Orientation {
    Normal,
    Inverted,
    Left,
    Right,
}

impl Default for Orientation {
    fn default() -> (out: Self)
        ensures
            out == Orientation::Normal,
    {
        Orientation::Normal
    }
}

impl Orientation {
    /// The label under which the orientation is offered for choice.
    pub open spec fn label(self) -> Seq<char> {
        match self {
            Orientation::Normal => "Normal"@,
            Orientation::Inverted => "Inverted"@,
            Orientation::Left => "Left"@,
            Orientation::Right => "Right"@,
        }
    }

    /// The orientation with the given label, if there is one.
    pub open spec fn labelled_spec(label: Seq<char>) -> Option<Orientation> {
        if label == "Normal"@ {
            Some(Orientation::Normal)
        } else if label == "Inverted"@ {
            Some(Orientation::Inverted)
        } else if label == "Left"@ {
            Some(Orientation::Left)
        } else if label == "Right"@ {
            Some(Orientation::Right)
        } else {
            None
        }
    }

    /// The labels of all orientations, in the order in which they are offered.
    pub open spec fn labels() -> Seq<Seq<char>> {
        seq!["Normal"@, "Inverted"@, "Left"@, "Right"@]
    }

    /// The labels of all orientations, in the order in which they are offered.
    pub fn list() -> (out: Vec<String>)
        ensures
            texts(out@) == Orientation::labels(),
    {
        let mut out: Vec<String> = Vec::new();
        out.push("Normal".to_owned());
        out.push("Inverted".to_owned());
        out.push("Left".to_owned());
        out.push("Right".to_owned());
        assert(texts(out@) =~= Orientation::labels());
        out
    }

    /// The orientation with the label `orientation`, if there is one.
    pub fn labelled(orientation: &str) -> (out: Option<Orientation>)
        ensures
            out == Orientation::labelled_spec(orientation@),
    {
        if same_text(orientation, "Normal") {
            Some(Orientation::Normal)
        } else if same_text(orientation, "Inverted") {
            Some(Orientation::Inverted)
        } else if same_text(orientation, "Left") {
            Some(Orientation::Left)
        } else if same_text(orientation, "Right") {
            Some(Orientation::Right)
        } else {
            None
        }
    }

    /// The orientation with the label `orientation`, which must be one of
    /// `labels`.
    pub fn from(orientation: String) -> (out: Orientation)
        requires
            Orientation::labelled_spec(orientation@) is Some,
        ensures
            Some(out) == Orientation::labelled_spec(orientation@),
    {
        match Orientation::labelled(orientation.as_str()) {
            Some(found) => found,
            None => Orientation::Normal,
        }
    }

    /// The label under which the orientation is offered for choice.
    pub fn to_string(&self) -> (out: String)
        ensures
            out@ == self.label(),
    {
        match self {
            Orientation::Normal => "Normal".to_owned(),
            Orientation::Inverted => "Inverted".to_owned(),
            Orientation::Left => "Left".to_owned(),
            Orientation::Right => "Right".to_owned(),
        }
    }
}

impl ToXrandrArg for Orientation {
    open spec fn xrandr_arg(&self) -> Seq<char> {
        match self {
            Orientation::Normal => "--rotate normal"@,
            Orientation::Inverted => "--rotate inverted"@,
            Orientation::Left => "--rotate left"@,
            Orientation::Right => "--rotate right"@,
        }
    }

    fn to_xrandr_arg(&self) -> (arg: String) {
        match self {
            Orientation::Normal => "--rotate normal".to_owned(),
            Orientation::Inverted => "--rotate inverted".to_owned(),
            Orientation::Left => "--rotate left".to_owned(),
            Orientation::Right => "--rotate right".to_owned(),
        }
    }
}

/// The notation of a resolution with a positive height and width reads back
/// as that resolution.
pub proof fn lemma_resolution_reads_back(resolution: Resolution)
    requires
        resolution.height >= 1,
        resolution.width >= 1,
    ensures
        resolution_of(resolution.text()) == Some(resolution),
{
    let height = decimal(resolution.height as nat);
    let width = decimal(resolution.width as nat);
    let s = resolution.text();
    lemma_decimal_value(resolution.height as nat);
    lemma_decimal_value(resolution.width as nat);
    assert forall|i: int| 0 <= i < height.len() implies s[i] != 'x' by {
        assert(is_digit(height[i]));
    }
    lemma_first_at(s, 'x', height.len() as int);
    assert(s.take(height.len() as int) =~= height);
    assert(s.skip(height.len() as int + 1) =~= width);
    assert(is_digit(height[0]) && is_digit(width[0]));
}

/// A text `HxW`, in which `H` and `W` are numbers from 1 to 65535 written in
/// digits without leading zeros, reads as a resolution whose notation is that
/// same text.
pub proof fn lemma_resolution_text_round_trip(height: Seq<char>, width: Seq<char>)
    requires
        is_canonical(height),
        is_canonical(width),
        1 <= digits_value(height) <= u16::MAX,
        1 <= digits_value(width) <= u16::MAX,
    ensures
        resolution_of(height + seq!['x'] + width) matches Some(resolution) && resolution.text()
            == height + seq!['x'] + width,
{
    let resolution = Resolution {
        height: digits_value(height) as u16,
        width: digits_value(width) as u16,
    };
    lemma_canonical_decimal(height);
    lemma_canonical_decimal(width);
    lemma_resolution_reads_back(resolution);
}

/// The notation of a rate reads back as that rate.
pub proof fn lemma_rate_reads_back(rate: Rate)
    ensures
        rate_of(rate.text()) == Some(rate),
{
    let s = rate.text();
    lemma_decimal_value(rate.value as nat);
    assert(is_digit(s[0]));
    assert forall|i: int| 0 <= i < s.len() implies s[i] != '.' by {
        assert(is_digit(s[i]));
    }
    lemma_first_at(s, '.', s.len() as int);
    assert(s.take(s.len() as int) =~= s);
}

/// Rounding goes to the nearest whole number, a half upwards: with `k` digits
/// after the point, the digits without the point denote the number times ten
/// to the power of `k`, and that differs from the rounded number, times the
/// same power, by at most half that power; by exactly half only from below.
pub proof fn lemma_rounds_to_nearest(whole: Seq<char>, fraction: Seq<char>)
    requires
        all_digits(whole),
        all_digits(fraction),
        digits_value(whole) < u16::MAX,
    ensures
        ({
            let scale = pow10(fraction.len());
            let exact = digits_value(whole + fraction);
            let nearest = rounded(false, whole, fraction) as nat;
            2 * nearest * scale - scale <= 2 * exact < 2 * nearest * scale + scale
        }),
{
    let scale = pow10(fraction.len());
    let w = digits_value(whole);
    let f = digits_value(fraction);
    lemma_digits_concat(whole, fraction);
    if fraction.len() == 0 {
        assert(2 * w * 1 - 1 <= 2 * (w * 1 + 0) < 2 * w * 1 + 1);
    } else {
        lemma_digits_from_front(fraction);
        let p = pow10((fraction.len() - 1) as nat);
        let d = digit_value(fraction[0]);
        let r = digits_value(fraction.skip(1));
        assert(scale == 10 * p);
        assert(is_digit(fraction[0]));
        assert(r < p) by {
            if fraction.len() > 1 {
                let rest = fraction.skip(1);
                assert forall|i: int| 0 <= i < rest.len() implies is_digit(#[trigger] rest[i]) by {
                    assert(rest[i] == fraction[i + 1]);
                }
                lemma_digits_from_front(rest);
            } else {
                assert(fraction.skip(1) =~= Seq::<char>::empty());
            }
        }
        if fraction[0] >= '5' {
            assert(d >= 5);
            assert(2 * (w + 1) * (10 * p) - 10 * p <= 2 * (w * (10 * p) + (d * p + r)) < 2 * (w
                + 1) * (10 * p) + 10 * p) by (nonlinear_arith)
                requires
                    5 <= d < 10,
                    0 <= r < p,
            ;
        } else {
            assert(d < 5);
            assert(2 * w * (10 * p) - 10 * p <= 2 * (w * (10 * p) + (d * p + r)) < 2 * w * (10
                * p) + 10 * p) by (nonlinear_arith)
                requires
                    0 <= d < 5,
                    0 <= r < p,
            ;
        }
    }
}

} // verus!
