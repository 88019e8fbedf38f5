//! A run of the program as a sequence of steps: what the program does next,
//! and what it makes of what came back.
//!
//! The program asks the user, questions the display tool and saves the
//! catalog; between two such actions it decides. The decisions stand here:
//! `SessionView::next` leads from a state and an event to the next state and
//! the next action.

use crate::app;
use crate::cli::cmd;
use crate::cli::dmenu::MessageView;
use crate::cli::xrandr::{catalog_in, first_words};
use crate::config::{without_check_sign, ConfigView};
use crate::ui::StartOption;
use crate::wizard::{no_or_yes, BuilderView};
use vstd::prelude::*;

verus! {

/// What the user set out to do at the start.
#[derive(Debug, Clone, Copy, PartialEq, Eq, Structural)]
pub enum Purpose {
    Create,
    Apply,
    Remove,
}

/// What the program waits for.
#[derive(Debug, Clone, Copy, PartialEq, Eq, Structural)]
pub enum Stage {
    /// The answer to what to do.
    Start,
    /// The answer to whether to make a layout, there being none.
    CreateFirst,
    /// The answer to which layout is meant.
    ChooseLayout,
    /// What the display tool lists of the connected outputs.
    Screens,
    /// The notice that no output is connected, to have been shown.
    NoMonitors,
    /// The answer to a question of the wizard.
    Wizard,
    /// What the display tool lists of the disconnected outputs.
    Disconnected,
    /// The catalog with the new layout, to have been saved.
    SaveNew,
    /// The answer to whether to apply the new layout.
    ApplyNew,
    /// The display tool, to have set the layout up.
    Applying,
    /// The catalog with the mark of the current layout, to have been saved.
    SaveApplied,
    /// The answer to whether to remove the layout.
    ConfirmRemove,
    /// The catalog without the layout, to have been saved.
    SaveRemoved,
    /// Nothing: the run is over.
    Over,
}

/// What came back from an action.
#[derive(Debug, PartialEq, Eq)]
pub enum Event {
    /// The answer of the user, or why there is none.
    Answer(Result<String, cmd::Error>),
    /// What the display tool listed, or why it did not.
    Output(Result<String, cmd::Error>),
    /// Whether a command ran.
    Ran(Result<(), cmd::Error>),
    /// The catalog was saved.
    Saved,
}

/// An `Event` with its texts as sequences of characters.
pub enum EventView {
    Answer(Result<Seq<char>, cmd::ErrorView>),
    Output(Result<Seq<char>, cmd::ErrorView>),
    Ran(Result<(), cmd::ErrorView>),
    Saved,
}

impl View for Event {
    type V = EventView;

    open spec fn view(&self) -> EventView {
        match self {
            Event::Answer(Ok(answer)) => EventView::Answer(Ok(answer@)),
            Event::Answer(Err(error)) => EventView::Answer(Err(error@)),
            Event::Output(Ok(text)) => EventView::Output(Ok(text@)),
            Event::Output(Err(error)) => EventView::Output(Err(error@)),
            Event::Ran(Ok(_)) => EventView::Ran(Ok(())),
            Event::Ran(Err(error)) => EventView::Ran(Err(error@)),
            Event::Saved => EventView::Saved,
        }
    }
}

/// What the program is to do next.
#[derive(Debug, PartialEq, Eq)]
pub enum Action {
    /// Put the question to the user and hand back the answer.
    Ask(crate::cli::dmenu::Message),
    /// Show the message to the user and hand back whether that worked.
    Show(crate::cli::dmenu::Message),
    /// Have the display tool list the connected outputs with their modes,
    /// and hand the listing back.
    ListScreens,
    /// Have the display tool list the disconnected outputs, and hand the
    /// listing back.
    ListDisconnected,
    /// Have the display tool apply the arguments, and hand back whether that
    /// worked.
    Invoke(Vec<String>),
    /// Save the catalog, and say when that is done.
    Save,
    /// Leave: all is well.
    Exit,
    /// Leave with the error.
    Fail(app::Error),
}

/// An `Action` with its texts as sequences of characters.
pub enum ActionView {
    Ask(MessageView),
    Show(MessageView),
    ListScreens,
    ListDisconnected,
    Invoke(Seq<Seq<char>>),
    Save,
    Exit,
    Fail(app::ErrorView),
}

impl View for Action {
    type V = ActionView;

    open spec fn view(&self) -> ActionView {
        match self {
            Action::Ask(message) => ActionView::Ask(message@),
            Action::Show(message) => ActionView::Show(message@),
            Action::ListScreens => ActionView::ListScreens,
            Action::ListDisconnected => ActionView::ListDisconnected,
            Action::Invoke(args) => ActionView::Invoke(crate::text::texts(args@)),
            Action::Save => ActionView::Save,
            Action::Exit => ActionView::Exit,
            Action::Fail(error) => ActionView::Fail(error@),
        }
    }
}

/// The question that asks for consent to `content`.
pub open spec fn consent_to(content: Seq<char>) -> ActionView {
    ActionView::Ask(MessageView { prompt: no_or_yes(), content })
}

/// The question whether to remove the layout called `name`.
pub open spec fn removal_of(name: Seq<char>) -> ActionView {
    consent_to(
        "Do you really want to remove '"@ + name
            + "' layout? This operation will be irreversible!"@,
    )
}

/// The state of a run.
pub struct SessionView {
    /// What the program waits for.
    pub stage: Stage,
    /// What the user set out to do.
    pub purpose: Purpose,
    /// Whether the layout that is applied is one that was just made.
    pub applying_new: bool,
    /// The catalog.
    pub config: ConfigView,
    /// The wizard, while a layout is made.
    pub builder: Option<BuilderView>,
    /// The name of the layout that is dealt with.
    pub name: Seq<char>,
}

impl SessionView {
    /// The state in which a run starts, before its first question.
    pub open spec fn start(config: ConfigView) -> SessionView {
        SessionView {
            stage: Stage::Over,
            purpose: Purpose::Create,
            applying_new: false,
            config,
            builder: None,
            name: Seq::empty(),
        }
    }

    /// The run is over.
    pub open spec fn over(self, action: ActionView) -> (SessionView, ActionView) {
        (SessionView { stage: Stage::Over, builder: None, ..self }, action)
    }

    /// The first question of every round: what to do.
    pub open spec fn ask_start(self) -> (SessionView, ActionView) {
        (
            SessionView { stage: Stage::Start, builder: None, ..self },
            ActionView::Ask(
                MessageView { prompt: StartOption::labels(), content: "Choose an option:"@ },
            ),
        )
    }

    /// The question which layout is meant; where there is none, the question
    /// whether to make one.
    pub open spec fn select(self) -> (SessionView, ActionView) {
        if self.config.layouts.len() == 0 {
            (
                SessionView { stage: Stage::CreateFirst, ..self },
                consent_to("You don't have any layouts yet. Create one?"@),
            )
        } else {
            (
                SessionView { stage: Stage::ChooseLayout, ..self },
                ActionView::Ask(
                    MessageView { prompt: self.config.layout_names(), content: "Choose layout:"@ },
                ),
            )
        }
    }

    /// What follows once the layout `name` is chosen: it is applied, and the
    /// run is over; or the question whether to remove it.
    pub open spec fn chosen(self, name: Seq<char>) -> (SessionView, ActionView) {
        let named = SessionView { name, builder: None, ..self };
        match self.purpose {
            Purpose::Remove => (
                SessionView { stage: Stage::ConfirmRemove, ..named },
                removal_of(name),
            ),
            _ => match named.config.layout_named(name) {
                Some(layout) => (
                    SessionView { stage: Stage::Applying, applying_new: false, ..named },
                    ActionView::Invoke(layout.xrandr_args()),
                ),
                None => named.over(ActionView::Exit),
            },
        }
    }

    /// What follows once the making of a layout is through: the next round
    /// where that was what the user set out to do; else what follows the
    /// choice of a layout, with no name chosen.
    pub open spec fn created(self) -> (SessionView, ActionView) {
        match self.purpose {
            Purpose::Create => self.ask_start(),
            _ => self.chosen(Seq::empty()),
        }
    }

    /// The next step of the wizard: the notice that no output is connected;
    /// the next question; or, at its end, the listing of the disconnected
    /// outputs.
    pub open spec fn wizard(self, builder: BuilderView) -> (SessionView, ActionView) {
        let held = SessionView { builder: Some(builder), ..self };
        let message = MessageView { prompt: builder.options(), content: builder.question() };
        if builder.step is NoMonitors {
            (SessionView { stage: Stage::NoMonitors, ..held }, ActionView::Show(message))
        } else if builder.step is Finished {
            (SessionView { stage: Stage::Disconnected, ..held }, ActionView::ListDisconnected)
        } else {
            (SessionView { stage: Stage::Wizard, ..held }, ActionView::Ask(message))
        }
    }

    /// What follows the listing of the disconnected outputs, whose names are
    /// `disconnected`: the layout of the wizard goes into the catalog, which
    /// is saved; where the wizard has none, the making of a layout is through.
    pub open spec fn finished(self, disconnected: Seq<Seq<char>>) -> (SessionView, ActionView) {
        match self.builder {
            Some(builder) => match builder.finished(disconnected) {
                Some(layout) => (
                    SessionView {
                        stage: Stage::SaveNew,
                        config: self.config.with(layout),
                        builder: None,
                        name: layout.name,
                        ..self
                    },
                    ActionView::Save,
                ),
                None => (SessionView { builder: None, ..self }).created(),
            },
            None => self.over(ActionView::Fail(app::ErrorView::InternalError)),
        }
    }

    /// What follows the answer `answer` to a question that asks for
    /// consent, where `yes` follows a yes, `no` a no, and `again` any other
    /// answer.
    pub open spec fn consented(
        answer: Seq<char>,
        again: (SessionView, ActionView),
        yes: (SessionView, ActionView),
        no: (SessionView, ActionView),
    ) -> (SessionView, ActionView) {
        if answer == "Yes"@ {
            yes
        } else if answer == "No"@ {
            no
        } else {
            again
        }
    }

    /// What follows the answer `answer` of the user.
    pub open spec fn answered(self, answer: Seq<char>) -> (SessionView, ActionView) {
        match self.stage {
            Stage::Start => match StartOption::labelled_spec(answer) {
                None => self.ask_start(),
                Some(StartOption::NewLayout) => (
                    SessionView { stage: Stage::Screens, purpose: Purpose::Create, ..self },
                    ActionView::ListScreens,
                ),
                Some(StartOption::ApplyLayout) => (SessionView {
                    purpose: Purpose::Apply,
                    ..self
                }).select(),
                Some(StartOption::RemoveLayout) => (SessionView {
                    purpose: Purpose::Remove,
                    ..self
                }).select(),
                Some(StartOption::Exit) => self.over(ActionView::Exit),
            },
            Stage::CreateFirst => SessionView::consented(
                answer,
                self.select(),
                (SessionView { stage: Stage::Screens, ..self }, ActionView::ListScreens),
                self.chosen(Seq::empty()),
            ),
            Stage::ChooseLayout => if self.config.layout_names().contains(answer) {
                self.chosen(without_check_sign(answer))
            } else {
                self.select()
            },
            Stage::Wizard => match self.builder {
                Some(builder) => self.wizard(builder.answered(answer)),
                None => self.over(ActionView::Fail(app::ErrorView::InternalError)),
            },
            Stage::ApplyNew => SessionView::consented(
                answer,
                (self, consent_to("Apply new layout?"@)),
                match self.config.layout_named(self.name) {
                    Some(layout) => (
                        SessionView { stage: Stage::Applying, applying_new: true, ..self },
                        ActionView::Invoke(layout.xrandr_args()),
                    ),
                    None => self.created(),
                },
                self.created(),
            ),
            Stage::ConfirmRemove => SessionView::consented(
                answer,
                (self, removal_of(self.name)),
                (
                    SessionView {
                        stage: Stage::SaveRemoved,
                        config: self.config.without(self.name),
                        ..self
                    },
                    ActionView::Save,
                ),
                self.ask_start(),
            ),
            _ => self.over(ActionView::Fail(app::ErrorView::InternalError)),
        }
    }

    /// What follows the event `event`: the next state and the next action.
    ///
    /// A menu that wrote nothing means that the user gave up, and the run is
    /// over; so is it, with the error, where a command failed. A listing of
    /// the disconnected outputs that is empty lists none. An event that the
    /// program does not wait for ends the run with an error.
    pub open spec fn next(self, event: EventView) -> (SessionView, ActionView) {
        match (self.stage, event) {
            (Stage::Over, _) => self.over(ActionView::Exit),
            (_, EventView::Answer(Err(cmd::ErrorView::EmptyOutput))) => self.over(ActionView::Exit),
            (_, EventView::Answer(Err(error))) => self.over(
                ActionView::Fail(app::ErrorView::CmdError(error)),
            ),
            (_, EventView::Answer(Ok(answer))) => self.answered(answer),
            (Stage::Screens, EventView::Output(Ok(listing))) => match catalog_in(listing) {
                Ok(screens) => self.wizard(BuilderView::start(screens, self.config)),
                Err(error) => self.over(ActionView::Fail(app::ErrorView::ScreenError(error))),
            },
            (Stage::Disconnected, EventView::Output(Ok(listing))) => self.finished(
                first_words(listing),
            ),
            (Stage::Disconnected, EventView::Output(Err(cmd::ErrorView::EmptyOutput))) => {
                self.finished(Seq::empty())
            },
            (_, EventView::Output(Err(error))) => self.over(
                ActionView::Fail(app::ErrorView::CmdError(error)),
            ),
            (_, EventView::Ran(Err(error))) => self.over(
                ActionView::Fail(app::ErrorView::CmdError(error)),
            ),
            (Stage::NoMonitors, EventView::Ran(Ok(_))) => (SessionView {
                builder: None,
                ..self
            }).created(),
            (Stage::Applying, EventView::Ran(Ok(_))) => (
                SessionView {
                    stage: Stage::SaveApplied,
                    config: if self.config.has(self.name) {
                        self.config.with_current(self.name)
                    } else {
                        self.config
                    },
                    ..self
                },
                ActionView::Save,
            ),
            (Stage::SaveNew, EventView::Saved) => (
                SessionView { stage: Stage::ApplyNew, ..self },
                consent_to("Apply new layout?"@),
            ),
            (Stage::SaveApplied, EventView::Saved) => if self.applying_new {
                self.created()
            } else {
                self.over(ActionView::Exit)
            },
            (Stage::SaveRemoved, EventView::Saved) => self.ask_start(),
            _ => self.over(ActionView::Fail(app::ErrorView::InternalError)),
        }
    }

    /// What holds of every state that a run reaches: while the wizard is at
    /// work, its state is one that it reaches.
    pub open spec fn wf(self) -> bool {
        self.builder matches Some(builder) ==> builder.wf()
    }
}

/// Every event leads from a state of which `wf` holds to one of which it
/// holds again.
pub proof fn lemma_next_wf(state: SessionView, event: EventView)
    requires
        state.wf(),
    ensures
        state.next(event).0.wf(),
{
    match (state.stage, event) {
        (Stage::Screens, EventView::Output(Ok(listing))) => {
            match catalog_in(listing) {
                Ok(screens) => {
                    crate::wizard::lemma_start_wf(screens, state.config);
                },
                Err(_) => {},
            }
        },
        (_, EventView::Answer(Ok(answer))) => {
            match state.builder {
                Some(builder) => {
                    crate::wizard::lemma_answered_wf(builder, answer);
                },
                None => {},
            }
        },
        _ => {},
    }
}

/// Whenever a step changes the catalog, the next action is to save it: what
/// the file holds never falls behind by more than the step that is being
/// saved. In particular an attempt to apply a layout that fails, and a layout
/// that is not there, leave the catalog and its mark as they were.
pub proof fn lemma_changes_are_saved(state: SessionView, event: EventView)
    ensures
        state.next(event).0.config != state.config ==> state.next(event).1 is Save,
{
}

} // verus!
