//! The wizard that builds a layout, as a state machine: a sequence of
//! questions, each with the choices it offers, what every answer makes of the
//! layout so far, and what holds of every state on the way.
//!
//! The wizard asks nothing itself: `crate::builder::LayoutBuilder` holds the
//! state, says what to ask, takes what came back, and hands out the layout.

use crate::config::{without_check_sign, ConfigView};
use crate::layout::{LayoutView, OutputView};
use crate::screen::{
    Mode, Orientation, Position, PositionView, Rate, Resolution, State, StateView,
};
use crate::text::first_index;
use vstd::prelude::*;

verus! {

/// The question that the wizard waits to have answered.
#[derive(Debug, Clone, Copy, PartialEq, Eq, Structural)]
pub enum Step {
    /// No output is connected; any answer ends the wizard.
    NoMonitors,
    /// The name of the new layout.
    LayoutName,
    /// The name was empty; any answer leads back to the name.
    EmptyName,
    /// Whether to replace the layout that has the name already.
    Overwrite,
    /// Which output to set up next.
    OutputName,
    /// The state of the output.
    OutputState,
    /// Which other output the output mirrors.
    DuplicatedScreen,
    /// The resolution of the output.
    OutputResolution,
    /// The refresh rate of the output.
    OutputRate,
    /// The orientation of the output.
    OutputOrientation,
    /// Where the output stands.
    OutputPosition,
    /// Next to which other output it stands.
    RelativeScreen,
    /// Whether the output is the primary one.
    Primary,
    /// Whether to set up another output.
    AnotherScreen,
    /// Nothing is left to ask.
    Finished,
}

/// A connected output and what it supports, with its texts as sequences of
/// characters.
pub struct ScreenView {
    pub name: Seq<char>,
    pub resolutions: Seq<Resolution>,
    pub rates: Seq<Rate>,
}

/// The two answers to a question that asks for consent, in the order in which
/// they are offered.
pub open spec fn no_or_yes() -> Seq<Seq<char>> {
    seq!["No"@, "Yes"@]
}

/// Whether every flag is set.
pub open spec fn all_true(flags: Seq<bool>) -> bool {
    forall|i: int| 0 <= i < flags.len() ==> flags[i]
}

/// The names of `screens`, in their order.
pub open spec fn names_of(screens: Seq<ScreenView>) -> Seq<Seq<char>> {
    Seq::new(screens.len(), |i: int| screens[i].name)
}

/// The names of those of `screens` that are not yet assigned, in their order.
pub open spec fn unassigned(screens: Seq<ScreenView>, assigned: Seq<bool>) -> Seq<Seq<char>>
    decreases screens.len(),
{
    if screens.len() == 0 || assigned.len() != screens.len() {
        Seq::empty()
    } else {
        let earlier = unassigned(screens.drop_last(), assigned.drop_last());
        if assigned.last() {
            earlier
        } else {
            earlier.push(screens.last().name)
        }
    }
}

/// The names among `names` other than `own`, in their order.
pub open spec fn others(names: Seq<Seq<char>>, own: Seq<char>) -> Seq<Seq<char>>
    decreases names.len(),
{
    if names.len() == 0 {
        Seq::empty()
    } else {
        let earlier = others(names.drop_last(), own);
        if names.last() == own {
            earlier
        } else {
            earlier.push(names.last())
        }
    }
}

/// The output next to which `name` was placed, as `relative` records it: the
/// last record for `name` counts.
pub open spec fn reference_of(relative: Seq<(Seq<char>, Seq<char>)>, name: Seq<char>) -> Option<
    Seq<char>,
>
    decreases relative.len(),
{
    if relative.len() == 0 {
        None
    } else if relative.last().0 == name {
        Some(relative.last().1)
    } else {
        reference_of(relative.drop_last(), name)
    }
}

/// Whether the output `own` may be placed next to `candidate`: not where
/// `candidate` was itself placed next to an output other than `own`.
pub open spec fn may_refer(
    relative: Seq<(Seq<char>, Seq<char>)>,
    candidate: Seq<char>,
    own: Seq<char>,
) -> bool {
    match reference_of(relative, candidate) {
        Some(reference) => reference == own,
        None => true,
    }
}

/// Those of `names` next to which the output `own` may be placed, in their
/// order: the names other than `own` for which `may_refer` holds.
pub open spec fn candidates(
    names: Seq<Seq<char>>,
    relative: Seq<(Seq<char>, Seq<char>)>,
    own: Seq<char>,
) -> Seq<Seq<char>>
    decreases names.len(),
{
    if names.len() == 0 {
        Seq::empty()
    } else {
        let earlier = candidates(names.drop_last(), relative, own);
        if names.last() != own && may_refer(relative, names.last(), own) {
            earlier.push(names.last())
        } else {
            earlier
        }
    }
}

/// The names that the outputs of a layout refer to are names of `names`, and
/// none is the output's own.
pub open spec fn refers_within(output: OutputView, names: Seq<Seq<char>>) -> bool {
    &&& output.position.reference() matches Some(reference) ==> reference != output.name
        && names.contains(reference)
    &&& output.state.reference() matches Some(reference) ==> reference != output.name
        && names.contains(reference)
}

/// Whatever `output` refers to is an output of `layout` other than itself.
pub open spec fn refers_inside(output: OutputView, layout: LayoutView) -> bool {
    &&& output.position.reference() matches Some(reference) ==> reference != output.name
        && layout.has(reference)
    &&& output.state.reference() matches Some(reference) ==> reference != output.name
        && layout.has(reference)
}

/// Where `output` stands next to another output, `relative` has that on
/// record.
pub open spec fn recorded(relative: Seq<(Seq<char>, Seq<char>)>, output: OutputView) -> bool {
    output.position.reference() matches Some(reference) ==> reference_of(relative, output.name)
        == Some(reference)
}

/// `layout` with each of `names` in it as an output that is switched off, put
/// in one after the other.
pub open spec fn with_switched_off(layout: LayoutView, names: Seq<Seq<char>>) -> LayoutView
    decreases names.len(),
{
    if names.len() == 0 {
        layout
    } else {
        with_switched_off(layout, names.drop_last()).with(OutputView::switched_off(names.last()))
    }
}

/// The state of the wizard.
pub struct BuilderView {
    /// The question that waits for its answer.
    pub step: Step,
    /// The names of the layouts that exist already.
    pub taken: Seq<Seq<char>>,
    /// Those names as they are offered, the current one marked.
    pub offered: Seq<Seq<char>>,
    /// The connected outputs.
    pub screens: Seq<ScreenView>,
    /// For each connected output, whether the layout has it already.
    pub assigned: Seq<bool>,
    /// Which connected output is being set up.
    pub current: int,
    /// Which output was placed next to which.
    pub relative: Seq<(Seq<char>, Seq<char>)>,
    /// Whether an output of the layout is the primary one already.
    pub primary_selected: bool,
    /// The layout so far.
    pub layout: LayoutView,
    /// The output that is being set up.
    pub output: OutputView,
    /// The position chosen for it, while the output it refers to is asked for.
    pub position_label: Seq<char>,
}

impl BuilderView {
    /// The state in which the wizard starts.
    pub open spec fn start(screens: Seq<ScreenView>, config: ConfigView) -> BuilderView {
        BuilderView {
            step: if screens.len() == 0 {
                Step::NoMonitors
            } else {
                Step::LayoutName
            },
            taken: Seq::new(config.layouts.len(), |i: int| config.layouts[i].name),
            offered: config.layout_names(),
            screens,
            assigned: Seq::new(screens.len(), |i: int| false),
            current: 0,
            relative: Seq::empty(),
            primary_selected: false,
            layout: LayoutView { name: Seq::empty(), is_current: false, outputs: Seq::empty() },
            output: OutputView::switched_off(Seq::empty()),
            position_label: Seq::empty(),
        }
    }

    /// The names of the connected outputs.
    pub open spec fn names(self) -> Seq<Seq<char>> {
        names_of(self.screens)
    }

    /// The outputs next to which the output that is being set up may be placed.
    pub open spec fn candidates(self) -> Seq<Seq<char>> {
        candidates(self.names(), self.relative, self.output.name)
    }

    /// The choices that the question offers.
    pub open spec fn options(self) -> Seq<Seq<char>> {
        match self.step {
            Step::NoMonitors => Seq::empty(),
            Step::LayoutName => self.offered,
            Step::EmptyName => Seq::empty(),
            Step::Overwrite => no_or_yes(),
            Step::OutputName => unassigned(self.screens, self.assigned),
            Step::OutputState => State::labels(),
            Step::DuplicatedScreen => others(self.names(), self.output.name),
            Step::OutputResolution => Seq::new(
                self.screens[self.current].resolutions.len(),
                |i: int| self.screens[self.current].resolutions[i].text(),
            ),
            Step::OutputRate => Seq::new(
                self.screens[self.current].rates.len(),
                |i: int| self.screens[self.current].rates[i].text(),
            ),
            Step::OutputOrientation => Orientation::labels(),
            Step::OutputPosition => if self.candidates().len() > 0 {
                Position::labels()
            } else {
                seq!["Center"@]
            },
            Step::RelativeScreen => self.candidates(),
            Step::Primary => no_or_yes(),
            Step::AnotherScreen => no_or_yes(),
            Step::Finished => Seq::empty(),
        }
    }

    /// Whether an answer counts only if it is one of the choices.
    pub open spec fn validates(self) -> bool {
        match self.step {
            Step::NoMonitors | Step::LayoutName | Step::EmptyName | Step::Finished => false,
            _ => true,
        }
    }

    /// The question in words.
    pub open spec fn question(self) -> Seq<char> {
        match self.step {
            Step::NoMonitors => "You don't have any monitors connected."@,
            Step::LayoutName => "What is the name of a new layout? (created are listed below)"@,
            Step::EmptyName =>
                "Layout name should not be empty string (press any key to continue)"@,
            Step::Overwrite => "Do you really want to overwrite existing layout: `"@
                + self.layout.name + "`?"@,
            Step::OutputName => "What screen to connect?"@,
            Step::OutputState => "Choose state:"@,
            Step::DuplicatedScreen => "Choose duplicated screen:"@,
            Step::OutputResolution => "Choose resolution:"@,
            Step::OutputRate => "Choose rate:"@,
            Step::OutputOrientation => "Choose orientation:"@,
            Step::OutputPosition => "Choose position:"@,
            Step::RelativeScreen => "Choose relative screen:"@,
            Step::Primary => "Make screen "@ + self.output.name + " primary? (only once)"@,
            Step::AnotherScreen => "Add another screen?"@,
            Step::Finished => ""@,
        }
    }

    /// Whether every connected output is in the layout.
    pub open spec fn all_assigned(self) -> bool {
        all_true(self.assigned)
    }

    /// Where the first connected output of that name stands that is not yet
    /// assigned.
    pub open spec fn first_unassigned(self, name: Seq<char>, i: int) -> bool {
        &&& 0 <= i < self.screens.len()
        &&& self.screens[i].name == name
        &&& !self.assigned[i]
        &&& forall|j: int|
            0 <= j < i ==> !((#[trigger] self.screens[j]).name == name && !self.assigned[j])
    }

    /// The state once the output that is being set up is put into the layout:
    /// it counts as assigned, and the next question is whether to go on, if
    /// any output is left.
    pub open spec fn committed(self) -> BuilderView {
        let assigned = self.assigned.update(self.current, true);
        BuilderView {
            step: if all_true(assigned) {
                Step::Finished
            } else {
                Step::AnotherScreen
            },
            assigned,
            layout: self.layout.with(self.output),
            ..self
        }
    }

    /// The state once the mode and the place of the output are settled: the
    /// question whether it is the primary one, unless another output is that
    /// already; then the output goes into the layout at once.
    pub open spec fn placed(self) -> BuilderView {
        if self.primary_selected {
            self.committed()
        } else {
            BuilderView { step: Step::Primary, ..self }
        }
    }

    /// The state after the answer `response`. An answer that is none of the
    /// choices, where it has to be one, changes nothing: the same question is
    /// asked again.
    pub open spec fn answered(self, response: Seq<char>) -> BuilderView {
        if self.validates() && !self.options().contains(response) {
            self
        } else {
            match self.step {
                Step::NoMonitors => BuilderView { step: Step::Finished, ..self },
                Step::LayoutName => {
                    let name = without_check_sign(response);
                    BuilderView {
                        step: if name.len() == 0 {
                            Step::EmptyName
                        } else if self.taken.contains(name) {
                            Step::Overwrite
                        } else {
                            Step::OutputName
                        },
                        layout: LayoutView { name, ..self.layout },
                        ..self
                    }
                },
                Step::EmptyName => BuilderView { step: Step::LayoutName, ..self },
                Step::Overwrite => BuilderView {
                    step: if response == "Yes"@ {
                        Step::OutputName
                    } else {
                        Step::LayoutName
                    },
                    ..self
                },
                Step::OutputName => BuilderView {
                    step: Step::OutputState,
                    current: choose|i: int| self.first_unassigned(response, i),
                    output: OutputView::switched_off(response),
                    ..self
                },
                Step::OutputState => if response == "Duplicated"@ {
                    BuilderView { step: Step::DuplicatedScreen, ..self }
                } else if response == "Connected"@ {
                    BuilderView {
                        step: Step::OutputResolution,
                        output: OutputView { state: StateView::Connected, ..self.output },
                        ..self
                    }
                } else {
                    (BuilderView {
                        output: OutputView { state: StateView::Disconnected, ..self.output },
                        ..self
                    }).committed()
                },
                Step::DuplicatedScreen => BuilderView {
                    step: Step::OutputResolution,
                    output: OutputView { state: StateView::Duplicated(response), ..self.output },
                    ..self
                },
                Step::OutputResolution => BuilderView {
                    step: Step::OutputRate,
                    output: OutputView {
                        mode: Mode {
                            resolution: self.screens[self.current].resolutions[first_index(
                                self.options(),
                                response,
                            )],
                            ..self.output.mode
                        },
                        ..self.output
                    },
                    ..self
                },
                Step::OutputRate => BuilderView {
                    step: Step::OutputOrientation,
                    output: OutputView {
                        mode: Mode {
                            rate: self.screens[self.current].rates[first_index(
                                self.options(),
                                response,
                            )],
                            ..self.output.mode
                        },
                        ..self.output
                    },
                    ..self
                },
                Step::OutputOrientation => {
                    let turned = BuilderView {
                        output: OutputView {
                            orientation: Orientation::labelled_spec(response)->0,
                            ..self.output
                        },
                        ..self
                    };
                    if self.output.state is Connected {
                        BuilderView { step: Step::OutputPosition, ..turned }
                    } else {
                        turned.placed()
                    }
                },
                Step::OutputPosition => if response == "Center"@ {
                    (BuilderView {
                        output: OutputView { position: PositionView::Center, ..self.output },
                        ..self
                    }).placed()
                } else {
                    BuilderView { step: Step::RelativeScreen, position_label: response, ..self }
                },
                Step::RelativeScreen => (BuilderView {
                    relative: self.relative.push((self.output.name, response)),
                    output: OutputView {
                        position: PositionView::labelled(self.position_label, Some(response))->0,
                        ..self.output
                    },
                    ..self
                }).placed(),
                Step::Primary => (BuilderView {
                    primary_selected: self.primary_selected || response == "Yes"@,
                    output: OutputView { is_primary: response == "Yes"@, ..self.output },
                    ..self
                }).committed(),
                Step::AnotherScreen => BuilderView {
                    step: if response == "Yes"@ {
                        Step::OutputName
                    } else {
                        Step::Finished
                    },
                    ..self
                },
                Step::Finished => self,
            }
        }
    }

    /// The layout that the wizard hands out at the end: none where no output
    /// was set up; else the layout so far, then each connected output that was
    /// not set up, and then each of `disconnected`, as an output that is
    /// switched off.
    pub open spec fn finished(self, disconnected: Seq<Seq<char>>) -> Option<LayoutView> {
        if self.layout.outputs.len() == 0 {
            None
        } else {
            Some(
                with_switched_off(
                    with_switched_off(self.layout, unassigned(self.screens, self.assigned)),
                    disconnected,
                ),
            )
        }
    }

    /// Whether the wizard is setting up an output: the questions from the
    /// state of the output to whether it is the primary one.
    pub open spec fn in_output(self) -> bool {
        match self.step {
            Step::OutputState | Step::DuplicatedScreen | Step::OutputResolution | Step::OutputRate
            | Step::OutputOrientation | Step::OutputPosition | Step::RelativeScreen
            | Step::Primary => true,
            _ => false,
        }
    }

    /// Whether the output that is being set up can go into the layout: it is
    /// a connected output, what it refers to is connected too, and if it is
    /// primary, no output of the layout is.
    pub open spec fn ready(self) -> bool {
        &&& 0 <= self.current < self.screens.len()
        &&& self.output.name == self.screens[self.current].name
        &&& refers_within(self.output, self.names())
        &&& self.output.is_primary ==> self.primary_selected && forall|i: int|
            0 <= i < self.layout.outputs.len() ==> !(#[trigger] self.layout.outputs[i]).is_primary
    }

    /// What holds of the layout so far: no name stands twice in it, at most
    /// one output is primary, and then the wizard knows of it; each output
    /// refers to connected outputs other than itself; and each connected
    /// output that counts as assigned is in it.
    pub open spec fn layout_wf(self) -> bool {
        &&& self.assigned.len() == self.screens.len()
        &&& self.layout.distinct()
        &&& self.layout.at_most_one_primary()
        &&& forall|i: int|
            0 <= i < self.layout.outputs.len() && (#[trigger] self.layout.outputs[i]).is_primary
                ==> self.primary_selected
        &&& forall|i: int|
            0 <= i < self.layout.outputs.len() ==> refers_within(
                #[trigger] self.layout.outputs[i],
                self.names(),
            )
        &&& forall|k: int|
            0 <= k < self.screens.len() && #[trigger] self.assigned[k] ==> self.layout.has(
                self.screens[k].name,
            )
    }

    /// What holds of the output that is being set up, question by question.
    pub open spec fn output_wf(self) -> bool {
        &&& self.in_output() ==> {
            &&& 0 <= self.current < self.screens.len()
            &&& !self.assigned[self.current]
            &&& self.output.name == self.screens[self.current].name
            &&& !self.output.is_primary
            &&& refers_within(self.output, self.names())
        }
        &&& self.step is OutputState || self.step is DuplicatedScreen ==> self.output
            == OutputView::switched_off(self.output.name)
        &&& self.step is OutputResolution || self.step is OutputRate || self.step
            is OutputOrientation ==> !(self.output.state is Disconnected) && self.output.position
            is Center
        &&& self.step is OutputPosition || self.step is RelativeScreen ==> self.output.state
            is Connected && self.output.position is Center
        &&& self.step is Primary ==> !(self.output.state is Disconnected) && !self.primary_selected
        &&& self.step is RelativeScreen ==> self.position_label != "Center"@
            && Position::labels().contains(self.position_label)
    }

    /// What holds between the questions that set up outputs: there is an
    /// output left to set up where one is asked for, the layout is empty as
    /// long as its name is asked for, and it has a name once that is settled.
    pub open spec fn progress_wf(self) -> bool {
        &&& self.step is OutputName || self.step is AnotherScreen || self.step is LayoutName
            || self.step is EmptyName || self.step is Overwrite ==> !self.all_assigned()
        &&& self.step is LayoutName || self.step is EmptyName || self.step is Overwrite
            || self.step is NoMonitors ==> self.layout.outputs.len() == 0
        &&& self.step is LayoutName || self.step is EmptyName || self.step is NoMonitors
            || self.step is Finished || self.layout.name.len() > 0
        &&& self.layout.outputs.len() > 0 ==> self.layout.name.len() > 0
    }

    /// What holds, beyond `wf`, of every state that the wizard reaches where
    /// no two connected outputs have the same name: the layout holds only
    /// outputs that count as assigned, and the wizard has a record of each
    /// output of the layout that stands next to another.
    pub open spec fn consistent(self) -> bool {
        &&& self.names().no_duplicates()
        &&& forall|i: int|
            0 <= i < self.layout.outputs.len() ==> exists|k: int|
                0 <= k < self.screens.len() && self.assigned[k] && (#[trigger] self.screens[k]).name
                    == (#[trigger] self.layout.outputs[i]).name
        &&& forall|i: int|
            0 <= i < self.layout.outputs.len() ==> recorded(
                self.relative,
                #[trigger] self.layout.outputs[i],
            )
        &&& self.in_output() ==> recorded(self.relative, self.output)
    }

    /// What holds of every state that the wizard reaches.
    pub open spec fn wf(self) -> bool {
        &&& self.layout_wf()
        &&& self.output_wf()
        &&& self.progress_wf()
    }
}

/// `others` keeps exactly the names other than `own`.
pub proof fn lemma_others(names: Seq<Seq<char>>, own: Seq<char>)
    ensures
        forall|name: Seq<char>| #[trigger]
            others(names, own).contains(name) <==> (names.contains(name) && name != own),
    decreases names.len(),
{
    if names.len() > 0 {
        let head = names.drop_last();
        lemma_others(head, own);
        let kept = others(names, own);
        let earlier = others(head, own);
        assert forall|name: Seq<char>| #[trigger]
            kept.contains(name) <==> (names.contains(name) && name != own) by {
            if kept.contains(name) {
                let i = choose|i: int| 0 <= i < kept.len() && kept[i] == name;
                if names.last() != own && i == earlier.len() {
                    assert(names[names.len() - 1] == name);
                } else {
                    assert(earlier[i] == name);
                    assert(earlier.contains(name));
                    let j = choose|j: int| 0 <= j < head.len() && head[j] == name;
                    assert(names[j] == name);
                }
            }
            if names.contains(name) && name != own {
                let j = choose|j: int| 0 <= j < names.len() && names[j] == name;
                if j == names.len() - 1 {
                    assert(kept[earlier.len() as int] == name);
                } else {
                    assert(head[j] == name);
                    assert(head.contains(name));
                    assert(earlier.contains(name));
                    let i = choose|i: int| 0 <= i < earlier.len() && earlier[i] == name;
                    assert(kept[i] == name);
                }
            }
        }
    }
}

/// An output is offered as a reference exactly if it is another connected
/// output that was not itself placed next to a third one: one that was placed
/// next to an output other than `own` is not offered.
pub proof fn lemma_candidates(
    names: Seq<Seq<char>>,
    relative: Seq<(Seq<char>, Seq<char>)>,
    own: Seq<char>,
)
    ensures
        forall|name: Seq<char>| #[trigger]
            candidates(names, relative, own).contains(name) <==> (names.contains(name) && name
                != own && may_refer(relative, name, own)),
    decreases names.len(),
{
    if names.len() > 0 {
        let head = names.drop_last();
        lemma_candidates(head, relative, own);
        let kept = candidates(names, relative, own);
        let earlier = candidates(head, relative, own);
        let takes = names.last() != own && may_refer(relative, names.last(), own);
        assert forall|name: Seq<char>| #[trigger]
            kept.contains(name) <==> (names.contains(name) && name != own && may_refer(
                relative,
                name,
                own,
            )) by {
            if kept.contains(name) {
                let i = choose|i: int| 0 <= i < kept.len() && kept[i] == name;
                if takes && i == earlier.len() {
                    assert(names[names.len() - 1] == name);
                } else {
                    assert(earlier[i] == name);
                    assert(earlier.contains(name));
                    let j = choose|j: int| 0 <= j < head.len() && head[j] == name;
                    assert(names[j] == name);
                }
            }
            if names.contains(name) && name != own && may_refer(relative, name, own) {
                let j = choose|j: int| 0 <= j < names.len() && names[j] == name;
                if j == names.len() - 1 {
                    assert(kept[earlier.len() as int] == name);
                } else {
                    assert(head[j] == name);
                    assert(head.contains(name));
                    assert(earlier.contains(name));
                    let i = choose|i: int| 0 <= i < earlier.len() && earlier[i] == name;
                    assert(kept[i] == name);
                }
            }
        }
    }
}

/// `unassigned` keeps exactly the names of the outputs that are not assigned.
pub proof fn lemma_unassigned(screens: Seq<ScreenView>, assigned: Seq<bool>)
    requires
        assigned.len() == screens.len(),
    ensures
        forall|name: Seq<char>| #[trigger]
            unassigned(screens, assigned).contains(name) <==> exists|k: int|
                0 <= k < screens.len() && !assigned[k] && (#[trigger] screens[k]).name == name,
    decreases screens.len(),
{
    if screens.len() > 0 {
        let head = screens.drop_last();
        let flags = assigned.drop_last();
        lemma_unassigned(head, flags);
        let kept = unassigned(screens, assigned);
        let earlier = unassigned(head, flags);
        assert forall|name: Seq<char>| #[trigger]
            kept.contains(name) <==> exists|k: int|
                0 <= k < screens.len() && !assigned[k] && (#[trigger] screens[k]).name
                    == name by {
            if kept.contains(name) {
                let i = choose|i: int| 0 <= i < kept.len() && kept[i] == name;
                if !assigned.last() && i == earlier.len() {
                    assert(screens[screens.len() - 1].name == name);
                } else {
                    assert(earlier[i] == name);
                    assert(earlier.contains(name));
                    let k = choose|k: int|
                        0 <= k < head.len() && !flags[k] && (#[trigger] head[k]).name == name;
                    assert(screens[k].name == name && !assigned[k]);
                }
            }
            if exists|k: int|
                0 <= k < screens.len() && !assigned[k] && (#[trigger] screens[k]).name == name {
                let k = choose|k: int|
                    0 <= k < screens.len() && !assigned[k] && (#[trigger] screens[k]).name
                        == name;
                if k == screens.len() - 1 {
                    assert(kept[earlier.len() as int] == name);
                } else {
                    assert(head[k].name == name && !flags[k]);
                    assert(earlier.contains(name));
                    let i = choose|i: int| 0 <= i < earlier.len() && earlier[i] == name;
                    assert(kept[i] == name);
                }
            }
        }
    }
}

/// Where an output of a name is not yet assigned, there is a first such
/// output.
proof fn lemma_first_unassigned(state: BuilderView, name: Seq<char>, k: int)
    requires
        0 <= k < state.screens.len(),
        state.screens[k].name == name,
        !state.assigned[k],
    ensures
        exists|i: int| state.first_unassigned(name, i),
    decreases k,
{
    if exists|j: int| 0 <= j < k && state.screens[j].name == name && !state.assigned[j] {
        let j = choose|j: int| 0 <= j < k && state.screens[j].name == name && !state.assigned[j];
        lemma_first_unassigned(state, name, j);
    } else {
        assert(state.first_unassigned(name, k));
    }
}

/// Putting the output that is being set up into the layout leads to a state
/// of which `wf` holds again.
proof fn lemma_committed(state: BuilderView)
    requires
        state.assigned.len() == state.screens.len(),
        state.layout.distinct(),
        state.layout.at_most_one_primary(),
        forall|i: int|
            0 <= i < state.layout.outputs.len() && (#[trigger] state.layout.outputs[i]).is_primary
                ==> state.primary_selected,
        forall|i: int|
            0 <= i < state.layout.outputs.len() ==> refers_within(
                #[trigger] state.layout.outputs[i],
                state.names(),
            ),
        forall|k: int|
            0 <= k < state.screens.len() && #[trigger] state.assigned[k] ==> state.layout.has(
                state.screens[k].name,
            ),
        state.ready(),
        state.layout.name.len() > 0,
    ensures
        state.committed().wf(),
{
    let after = state.committed();
    crate::layout::lemma_with(state.layout, state.output);
    crate::layout::lemma_with_primary(state.layout, state.output);
    assert(after.names() == state.names());
    assert forall|i: int|
        0 <= i < after.layout.outputs.len() && (#[trigger] after.layout.outputs[i]).is_primary
        implies after.primary_selected by {
        if after.layout.outputs[i] != state.output {
            assert(state.layout.outputs[i].is_primary);
        }
    }
    assert forall|i: int| 0 <= i < after.layout.outputs.len() implies refers_within(
        #[trigger] after.layout.outputs[i],
        after.names(),
    ) by {
        if after.layout.outputs[i] != state.output {
            assert(refers_within(state.layout.outputs[i], state.names()));
        }
    }
    assert forall|k: int|
        0 <= k < after.screens.len() && #[trigger] after.assigned[k] implies after.layout.has(
        after.screens[k].name,
    ) by {
        if k != state.current {
            assert(state.assigned[k]);
            assert(state.layout.has(state.screens[k].name));
        }
        assert(after.layout.has(after.screens[k].name));
    }
}

/// The wizard starts in a state of which `wf` holds.
pub proof fn lemma_start_wf(screens: Seq<ScreenView>, config: ConfigView)
    ensures
        BuilderView::start(screens, config).wf(),
{
    let state = BuilderView::start(screens, config);
    if screens.len() > 0 {
        assert(!state.assigned[0]);
    }
}

/// Every answer leads from a state of which `wf` holds to one of which it
/// holds again: at most one output of the layout is primary, each output
/// refers to connected outputs other than itself, and each output that counts
/// as assigned is in the layout.
pub proof fn lemma_answered_wf(state: BuilderView, response: Seq<char>)
    requires
        state.wf(),
    ensures
        state.answered(response).wf(),
{
    let after = state.answered(response);
    if state.validates() && !state.options().contains(response) {
    } else {
        assert(after.names() == state.names());
        match state.step {
            Step::NoMonitors => {
            },
            Step::LayoutName => {
                assert(after.layout.outputs == state.layout.outputs);
            },
            Step::EmptyName => {
            },
            Step::Overwrite => {
            },
            Step::OutputName => {
                lemma_unassigned(state.screens, state.assigned);
                assert(unassigned(state.screens, state.assigned).contains(response));
                let k = choose|k: int|
                    0 <= k < state.screens.len() && !state.assigned[k]
                        && (#[trigger] state.screens[k]).name == response;
                lemma_first_unassigned(state, response, k);
                assert(state.first_unassigned(response, after.current));
            },
            Step::OutputState => {
                lemma_answered_state(state, response);
            },
            Step::DuplicatedScreen => {
                lemma_others(state.names(), state.output.name);
                assert(others(state.names(), state.output.name).contains(response));
            },
            Step::OutputResolution => {
            },
            Step::OutputRate => {
            },
            Step::OutputOrientation => {
                lemma_answered_orientation(state, response);
            },
            Step::OutputPosition => {
                lemma_answered_position(state, response);
            },
            Step::RelativeScreen => {
                lemma_answered_relative(state, response);
            },
            Step::Primary => {
                let chosen = BuilderView {
                    primary_selected: state.primary_selected || response == "Yes"@,
                    output: OutputView { is_primary: response == "Yes"@, ..state.output },
                    ..state
                };
                assert(chosen.names() == state.names());
                lemma_committed(chosen);
            },
            Step::AnotherScreen => {
            },
            Step::Finished => {},
        }
    }
}

/// `wf` holds after the state of an output is chosen.
proof fn lemma_answered_state(state: BuilderView, response: Seq<char>)
    requires
        state.wf(),
        state.step is OutputState,
        state.options().contains(response),
    ensures
        state.answered(response).wf(),
{
    let after = state.answered(response);
    assert(after.names() == state.names());
    if response == "Duplicated"@ {
    } else if response == "Connected"@ {
    } else {
        let chosen = BuilderView {
            output: OutputView { state: StateView::Disconnected, ..state.output },
            ..state
        };
        assert(chosen.names() == state.names());
        lemma_committed(chosen);
    }
}

/// `wf` holds of `placed` where the output that is being set up is a
/// connected output that is not switched off, not primary, and refers to
/// connected outputs other than itself.
proof fn lemma_placed(state: BuilderView)
    requires
        state.layout_wf(),
        0 <= state.current < state.screens.len(),
        !state.assigned[state.current],
        state.output.name == state.screens[state.current].name,
        !state.output.is_primary,
        refers_within(state.output, state.names()),
        !(state.output.state is Disconnected),
        state.layout.name.len() > 0,
    ensures
        state.placed().wf(),
{
    if state.primary_selected {
        lemma_committed(state);
    } else {
        let after = state.placed();
        assert(after.names() == state.names());
    }
}

/// `wf` holds after the orientation of an output is chosen.
proof fn lemma_answered_orientation(state: BuilderView, response: Seq<char>)
    requires
        state.wf(),
        state.step is OutputOrientation,
        state.options().contains(response),
    ensures
        state.answered(response).wf(),
{
    let turned = BuilderView {
        output: OutputView {
            orientation: Orientation::labelled_spec(response)->0,
            ..state.output
        },
        ..state
    };
    assert(turned.names() == state.names());
    assert(turned.layout_wf());
    if state.output.state is Connected {
        let after = BuilderView { step: Step::OutputPosition, ..turned };
        assert(after.names() == state.names());
    } else {
        lemma_placed(turned);
    }
}

/// `wf` holds after the position of an output is chosen.
proof fn lemma_answered_position(state: BuilderView, response: Seq<char>)
    requires
        state.wf(),
        state.step is OutputPosition,
        state.options().contains(response),
    ensures
        state.answered(response).wf(),
{
    if response == "Center"@ {
        let centred = BuilderView {
            output: OutputView { position: PositionView::Center, ..state.output },
            ..state
        };
        assert(centred.names() == state.names());
        assert(centred.layout_wf());
        lemma_placed(centred);
    } else {
        let after = state.answered(response);
        assert(after.names() == state.names());
        if state.candidates().len() == 0 {
            let only = seq!["Center"@];
            let i = choose|i: int| 0 <= i < only.len() && only[i] == response;
            assert(only[i] == "Center"@);
        }
    }
}

/// `wf` holds after the output is chosen next to which another is placed.
proof fn lemma_answered_relative(state: BuilderView, response: Seq<char>)
    requires
        state.wf(),
        state.step is RelativeScreen,
        state.options().contains(response),
    ensures
        state.answered(response).wf(),
{
    lemma_candidates(state.names(), state.relative, state.output.name);
    assert(candidates(state.names(), state.relative, state.output.name).contains(response));
    let labels = Position::labels();
    let i = choose|i: int| 0 <= i < labels.len() && labels[i] == state.position_label;
    assert(labels[i] == state.position_label);
    let position = PositionView::labelled(state.position_label, Some(response));
    assert(position is Some);
    assert(position->0.reference() == Some(response));
    let related = BuilderView {
        relative: state.relative.push((state.output.name, response)),
        output: OutputView { position: position->0, ..state.output },
        ..state
    };
    assert(related.names() == state.names());
    assert(related.layout_wf());
    lemma_placed(related);
}

/// Putting outputs that are switched off into a layout: each of them is then
/// in the layout, switched off; the outputs of all other names stay as they
/// were; no name stands twice; and no output becomes primary.
pub proof fn lemma_with_switched_off(layout: LayoutView, names: Seq<Seq<char>>)
    requires
        layout.distinct(),
    ensures
        ({
            let after = with_switched_off(layout, names);
            &&& after.distinct()
            &&& after.name == layout.name
            &&& after.is_current == layout.is_current
            &&& layout.at_most_one_primary() ==> after.at_most_one_primary()
            &&& forall|name: Seq<char>|
                names.contains(name) ==> #[trigger] after.output_named(name) == Some(
                    OutputView::switched_off(name),
                )
            &&& forall|name: Seq<char>|
                !names.contains(name) ==> #[trigger] after.output_named(name)
                    == layout.output_named(name)
            &&& forall|name: Seq<char>| #[trigger]
                after.has(name) <==> (layout.has(name) || names.contains(name))
            &&& forall|i: int|
                0 <= i < after.outputs.len() ==> (#[trigger] after.outputs[i])
                    == OutputView::switched_off(after.outputs[i].name) || (0 <= i
                    < layout.outputs.len() && after.outputs[i] == layout.outputs[i])
        }),
    decreases names.len(),
{
    if names.len() > 0 {
        let head = names.drop_last();
        let last = names.last();
        let before = with_switched_off(layout, head);
        let after = with_switched_off(layout, names);
        let output = OutputView::switched_off(last);
        lemma_with_switched_off(layout, head);
        crate::layout::lemma_with(before, output);
        if layout.at_most_one_primary() {
            crate::layout::lemma_with_primary(before, output);
        }
        assert(names[names.len() - 1] == last);
        assert forall|name: Seq<char>| names.contains(name) <==> (head.contains(name) || name
            == last) by {
            if names.contains(name) {
                let i = choose|i: int| 0 <= i < names.len() && names[i] == name;
                if i < head.len() {
                    assert(head[i] == name);
                }
            }
            if head.contains(name) {
                let i = choose|i: int| 0 <= i < head.len() && head[i] == name;
                assert(names[i] == name);
            }
        }
        assert forall|name: Seq<char>| names.contains(name) implies #[trigger] after.output_named(
            name,
        ) == Some(OutputView::switched_off(name)) by {
            if name != last {
                assert(head.contains(name));
                assert(before.output_named(name) == Some(OutputView::switched_off(name)));
            }
        }
        assert forall|name: Seq<char>| !names.contains(name) implies #[trigger] after.output_named(
            name,
        ) == layout.output_named(name) by {
            assert(!head.contains(name));
            assert(before.output_named(name) == layout.output_named(name));
        }
        assert forall|name: Seq<char>| #[trigger]
            after.has(name) <==> (layout.has(name) || names.contains(name)) by {
            assert(before.has(name) <==> (layout.has(name) || head.contains(name)));
        }
        assert forall|i: int| 0 <= i < after.outputs.len() implies (#[trigger] after.outputs[i])
            == OutputView::switched_off(after.outputs[i].name) || (0 <= i < layout.outputs.len()
            && after.outputs[i] == layout.outputs[i]) by {
            if after.outputs[i] != output {
                assert(after.outputs[i] == before.outputs[i]);
            }
        }
    }
}

/// What the wizard hands out at the end is complete and consistent: it has a
/// name; no name stands twice; at most one output is primary; every connected
/// output has an entry; each connected output that was not set up, and each
/// disconnected output, has an entry that is switched off; each output that
/// was set up and is neither keeps what was chosen for it; and whatever an
/// output refers to has an entry and is another output.
pub proof fn lemma_finished(state: BuilderView, disconnected: Seq<Seq<char>>)
    requires
        state.wf(),
        state.finished(disconnected) is Some,
    ensures
        ({
            let layout = state.finished(disconnected)->0;
            let left = unassigned(state.screens, state.assigned);
            &&& layout.distinct()
            &&& layout.at_most_one_primary()
            &&& layout.name == state.layout.name
            &&& layout.name.len() > 0
            &&& forall|k: int|
                0 <= k < state.screens.len() ==> layout.has((#[trigger] state.screens[k]).name)
            &&& forall|k: int|
                0 <= k < state.screens.len() && !state.assigned[k] ==> layout.output_named(
                    (#[trigger] state.screens[k]).name,
                ) == Some(OutputView::switched_off(state.screens[k].name))
            &&& forall|name: Seq<char>|
                disconnected.contains(name) ==> #[trigger] layout.output_named(name) == Some(
                    OutputView::switched_off(name),
                )
            &&& forall|name: Seq<char>|
                !disconnected.contains(name) && !left.contains(name)
                    ==> #[trigger] layout.output_named(name) == state.layout.output_named(name)
            &&& forall|i: int|
                0 <= i < layout.outputs.len() ==> refers_inside(
                    #[trigger] layout.outputs[i],
                    layout,
                )
        }),
{
    let left = unassigned(state.screens, state.assigned);
    let middle = with_switched_off(state.layout, left);
    let layout = with_switched_off(middle, disconnected);
    lemma_unassigned(state.screens, state.assigned);
    lemma_with_switched_off(state.layout, left);
    lemma_with_switched_off(middle, disconnected);
    assert forall|k: int| 0 <= k < state.screens.len() implies layout.has(
        (#[trigger] state.screens[k]).name,
    ) by {
        let name = state.screens[k].name;
        if state.assigned[k] {
            assert(state.layout.has(name));
        } else {
            assert(left.contains(name));
        }
        assert(middle.has(name));
        assert(layout.has(name));
    }
    assert forall|k: int|
        0 <= k < state.screens.len() && !state.assigned[k] implies layout.output_named(
        (#[trigger] state.screens[k]).name,
    ) == Some(OutputView::switched_off(state.screens[k].name)) by {
        let name = state.screens[k].name;
        assert(left.contains(name));
        assert(middle.output_named(name) == Some(OutputView::switched_off(name)));
        if !disconnected.contains(name) {
            assert(layout.output_named(name) == middle.output_named(name));
        }
    }
    assert forall|name: Seq<char>|
        !disconnected.contains(name) && !left.contains(name) implies #[trigger] layout.output_named(
        name,
    ) == state.layout.output_named(name) by {
        assert(layout.output_named(name) == middle.output_named(name));
        assert(middle.output_named(name) == state.layout.output_named(name));
    }
    assert forall|i: int| 0 <= i < layout.outputs.len() implies refers_within(
        #[trigger] layout.outputs[i],
        state.names(),
    ) by {
        if layout.outputs[i] != OutputView::switched_off(layout.outputs[i].name) {
            assert(layout.outputs[i] == middle.outputs[i]);
            if middle.outputs[i] != OutputView::switched_off(middle.outputs[i].name) {
                assert(middle.outputs[i] == state.layout.outputs[i]);
                assert(refers_within(state.layout.outputs[i], state.names()));
            }
        }
    }
    assert forall|name: Seq<char>| state.names().contains(name) implies layout.has(name) by {
        let k = choose|k: int| 0 <= k < state.names().len() && state.names()[k] == name;
        assert(state.screens[k].name == name);
    }
    assert forall|i: int| 0 <= i < layout.outputs.len() implies refers_inside(
        #[trigger] layout.outputs[i],
        layout,
    ) by {
        assert(refers_within(layout.outputs[i], state.names()));
    }
}

/// The wizard starts in a state of which `consistent` holds, where no two
/// connected outputs have the same name.
pub proof fn lemma_start_consistent(screens: Seq<ScreenView>, config: ConfigView)
    requires
        names_of(screens).no_duplicates(),
    ensures
        BuilderView::start(screens, config).consistent(),
{
}

/// Whether the output that is being set up can go into the layout with
/// `consistent` kept: it is a connected output that is not assigned, and what
/// the wizard has on record for it is what it refers to.
pub open spec fn pending(state: BuilderView) -> bool {
    &&& state.assigned.len() == state.screens.len()
    &&& 0 <= state.current < state.screens.len()
    &&& !state.assigned[state.current]
    &&& state.output.name == state.screens[state.current].name
    &&& state.names().no_duplicates()
    &&& forall|i: int|
        0 <= i < state.layout.outputs.len() ==> exists|k: int|
            0 <= k < state.screens.len() && state.assigned[k] && (#[trigger] state.screens[k]).name
                == (#[trigger] state.layout.outputs[i]).name
    &&& forall|i: int|
        0 <= i < state.layout.outputs.len() ==> recorded(
            state.relative,
            #[trigger] state.layout.outputs[i],
        )
    &&& recorded(state.relative, state.output)
}

/// The output that is being set up is not in the layout yet.
proof fn lemma_own_name_is_new(state: BuilderView)
    requires
        pending(state),
    ensures
        !state.layout.has(state.output.name),
{
    if state.layout.has(state.output.name) {
        let i = choose|i: int|
            0 <= i < state.layout.outputs.len() && #[trigger] state.layout.outputs[i].name
                == state.output.name;
        let k = choose|k: int|
            0 <= k < state.screens.len() && state.assigned[k] && (#[trigger] state.screens[k]).name
                == (#[trigger] state.layout.outputs[i]).name;
        assert(state.names()[k] == state.names()[state.current]);
    }
}

/// `consistent` holds once the output that is being set up is put into the
/// layout.
proof fn lemma_committed_consistent(state: BuilderView)
    requires
        pending(state),
    ensures
        state.committed().consistent(),
{
    let after = state.committed();
    lemma_own_name_is_new(state);
    assert(after.names() == state.names());
    assert(after.layout.outputs == state.layout.outputs.push(state.output));
    assert forall|i: int| 0 <= i < after.layout.outputs.len() implies exists|k: int|
        0 <= k < after.screens.len() && after.assigned[k] && (#[trigger] after.screens[k]).name
            == (#[trigger] after.layout.outputs[i]).name by {
        if i < state.layout.outputs.len() {
            let k = choose|k: int|
                0 <= k < state.screens.len() && state.assigned[k]
                    && (#[trigger] state.screens[k]).name
                    == (#[trigger] state.layout.outputs[i]).name;
            assert(after.assigned[k] && after.screens[k].name == after.layout.outputs[i].name);
        } else {
            let k = state.current;
            assert(after.assigned[k] && after.screens[k].name == after.layout.outputs[i].name);
        }
    }
    assert forall|i: int| 0 <= i < after.layout.outputs.len() implies recorded(
        after.relative,
        #[trigger] after.layout.outputs[i],
    ) by {
        if i < state.layout.outputs.len() {
            assert(after.layout.outputs[i] == state.layout.outputs[i]);
        }
    }
}

/// `consistent` holds of `placed`.
proof fn lemma_placed_consistent(state: BuilderView)
    requires
        pending(state),
    ensures
        state.placed().consistent(),
{
    if state.primary_selected {
        lemma_committed_consistent(state);
    } else {
        let after = state.placed();
        assert(after.names() == state.names());
        assert(after.layout.outputs == state.layout.outputs);
    }
}

/// A record for one name leaves what is recorded for every other name.
proof fn lemma_reference_of_push(
    relative: Seq<(Seq<char>, Seq<char>)>,
    own: Seq<char>,
    reference: Seq<char>,
    name: Seq<char>,
)
    ensures
        reference_of(relative.push((own, reference)), name) == if name == own {
            Some(reference)
        } else {
            reference_of(relative, name)
        },
{
    let longer = relative.push((own, reference));
    assert(longer.last() == (own, reference));
    assert(longer.drop_last() == relative);
}

/// Every answer leads from a state of which `wf` and `consistent` hold to
/// one of which `consistent` holds again.
pub proof fn lemma_answered_consistent(state: BuilderView, response: Seq<char>)
    requires
        state.wf(),
        state.consistent(),
    ensures
        state.answered(response).consistent(),
{
    let after = state.answered(response);
    if state.validates() && !state.options().contains(response) {
    } else {
        assert(after.names() == state.names());
        match state.step {
            Step::NoMonitors => {},
            Step::LayoutName => {
                assert(after.layout.outputs == state.layout.outputs);
            },
            Step::EmptyName => {},
            Step::Overwrite => {},
            Step::OutputName => {},
            Step::OutputState => {
                if response == "Duplicated"@ {
                } else if response == "Connected"@ {
                } else {
                    let chosen = BuilderView {
                        output: OutputView { state: StateView::Disconnected, ..state.output },
                        ..state
                    };
                    assert(chosen.names() == state.names());
                    lemma_committed_consistent(chosen);
                }
            },
            Step::DuplicatedScreen => {},
            Step::OutputResolution => {},
            Step::OutputRate => {},
            Step::OutputOrientation => {
                let turned = BuilderView {
                    output: OutputView {
                        orientation: Orientation::labelled_spec(response)->0,
                        ..state.output
                    },
                    ..state
                };
                assert(turned.names() == state.names());
                if state.output.state is Connected {
                } else {
                    lemma_placed_consistent(turned);
                }
            },
            Step::OutputPosition => {
                if response == "Center"@ {
                    let centred = BuilderView {
                        output: OutputView { position: PositionView::Center, ..state.output },
                        ..state
                    };
                    assert(centred.names() == state.names());
                    lemma_placed_consistent(centred);
                }
            },
            Step::RelativeScreen => {
                lemma_related_consistent(state, response);
            },
            Step::Primary => {
                let chosen = BuilderView {
                    primary_selected: state.primary_selected || response == "Yes"@,
                    output: OutputView { is_primary: response == "Yes"@, ..state.output },
                    ..state
                };
                assert(chosen.names() == state.names());
                lemma_committed_consistent(chosen);
            },
            Step::AnotherScreen => {},
            Step::Finished => {},
        }
    }
}

/// `consistent` holds after an output is placed next to another.
proof fn lemma_related_consistent(state: BuilderView, response: Seq<char>)
    requires
        state.wf(),
        state.consistent(),
        state.step is RelativeScreen,
        state.options().contains(response),
    ensures
        state.answered(response).consistent(),
{
    let labels = Position::labels();
    let i = choose|i: int| 0 <= i < labels.len() && labels[i] == state.position_label;
    assert(labels[i] == state.position_label);
    let position = PositionView::labelled(state.position_label, Some(response));
    assert(position is Some);
    assert(position->0.reference() == Some(response));
    let related = BuilderView {
        relative: state.relative.push((state.output.name, response)),
        output: OutputView { position: position->0, ..state.output },
        ..state
    };
    assert(pending(state));
    lemma_own_name_is_new(state);
    lemma_reference_of_push(state.relative, state.output.name, response, state.output.name);
    assert(related.names() == state.names());
    assert forall|i: int| 0 <= i < related.layout.outputs.len() implies recorded(
        related.relative,
        #[trigger] related.layout.outputs[i],
    ) by {
        let name = state.layout.outputs[i].name;
        assert(state.layout.has(name));
        lemma_reference_of_push(state.relative, state.output.name, response, name);
    }
    assert(pending(related));
    lemma_placed_consistent(related);
}

/// An output of the layout that stands next to an output other than the one
/// that is being set up is not offered as a reference for that one.
pub proof fn lemma_placed_elsewhere_is_no_candidate(state: BuilderView, i: int)
    requires
        state.wf(),
        state.consistent(),
        0 <= i < state.layout.outputs.len(),
        state.layout.outputs[i].position.reference() matches Some(target) && target
            != state.output.name,
    ensures
        !state.candidates().contains(state.layout.outputs[i].name),
{
    lemma_candidates(state.names(), state.relative, state.output.name);
}

} // verus!
