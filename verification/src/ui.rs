//! A run of the program at work: what the user can do at the start, the
//! questions around the wizard, and the steps of a run, one action after the
//! other.

use crate::app::Error;
use crate::builder::{consent, LayoutBuilder};
use crate::cli::cmd;
use crate::cli::dmenu::Message;
use crate::cli::xrandr::{list_outputs, screens_from};
use crate::config::{remove_check_sign, LayoutConfig};
use crate::session::{lemma_next_wf, Action, Event, Purpose, SessionView, Stage};
use crate::text::{contains_text, same_text, texts};
use crate::wizard::{no_or_yes, Step};
use vstd::prelude::*;

verus! {

/// What the user can do at the start.
#[derive(Debug, Clone, Copy, PartialEq, Eq, Structural)]
pub enum StartOption {
    ApplyLayout,
    RemoveLayout,
    NewLayout,
    Exit,
}

impl StartOption {
    /// The label under which the option is offered for choice.
    pub open spec fn label(self) -> Seq<char> {
        match self {
            StartOption::NewLayout => "New Layout"@,
            StartOption::RemoveLayout => "Remove Layout"@,
            StartOption::ApplyLayout => "Apply Layout"@,
            StartOption::Exit => "Exit"@,
        }
    }

    /// The option with the given label, if there is one.
    pub open spec fn labelled_spec(label: Seq<char>) -> Option<StartOption> {
        if label == "New Layout"@ {
            Some(StartOption::NewLayout)
        } else if label == "Remove Layout"@ {
            Some(StartOption::RemoveLayout)
        } else if label == "Exit"@ {
            Some(StartOption::Exit)
        } else if label == "Apply Layout"@ {
            Some(StartOption::ApplyLayout)
        } else {
            None
        }
    }

    /// The labels of all options, in the order in which they are offered.
    pub open spec fn labels() -> Seq<Seq<char>> {
        seq!["Apply Layout"@, "Remove Layout"@, "New Layout"@, "Exit"@]
    }

    /// The labels of all options, in the order in which they are offered.
    pub fn list() -> (out: Vec<String>)
        ensures
            texts(out@) == StartOption::labels(),
    {
        let mut out: Vec<String> = Vec::new();
        out.push("Apply Layout".to_owned());
        out.push("Remove Layout".to_owned());
        out.push("New Layout".to_owned());
        out.push("Exit".to_owned());
        assert(texts(out@) =~= StartOption::labels());
        out
    }

    /// The option with the label `action`, if there is one.
    pub fn labelled(action: &str) -> (out: Option<StartOption>)
        ensures
            out == StartOption::labelled_spec(action@),
    {
        if same_text(action, "New Layout") {
            Some(StartOption::NewLayout)
        } else if same_text(action, "Remove Layout") {
            Some(StartOption::RemoveLayout)
        } else if same_text(action, "Exit") {
            Some(StartOption::Exit)
        } else if same_text(action, "Apply Layout") {
            Some(StartOption::ApplyLayout)
        } else {
            None
        }
    }

    /// The option with the label `action`, which must be one of `labels`.
    pub fn from(action: String) -> (out: StartOption)
        requires
            StartOption::labelled_spec(action@) is Some,
        ensures
            Some(out) == StartOption::labelled_spec(action@),
    {
        match StartOption::labelled(action.as_str()) {
            Some(found) => found,
            None => StartOption::Exit,
        }
    }

    /// The label under which the option is offered for choice.
    pub fn to_string(&self) -> (out: String)
        ensures
            out@ == self.label(),
    {
        match self {
            StartOption::NewLayout => "New Layout".to_owned(),
            StartOption::RemoveLayout => "Remove Layout".to_owned(),
            StartOption::ApplyLayout => "Apply Layout".to_owned(),
            StartOption::Exit => "Exit".to_owned(),
        }
    }
}

/// The question with which everything starts: what to do.
pub fn start_message() -> (out: Message)
    ensures
        texts(out.prompt@) == StartOption::labels(),
        out.content@ == "Choose an option:"@,
{
    Message { prompt: StartOption::list(), content: "Choose an option:".to_owned() }
}

/// The question that asks for consent to `content`: the choices are no and
/// yes.
pub fn confirmation(content: &str) -> (out: Message)
    ensures
        texts(out.prompt@) == no_or_yes(),
        out.content@ == content@,
{
    Message { prompt: consent(), content: content.to_owned() }
}

/// Whether `answer` gives consent: it is `Yes`.
pub fn confirmed(answer: &str) -> (yes: bool)
    ensures
        yes == (answer@ == "Yes"@),
{
    same_text(answer, "Yes")
}

/// The question which of the layouts of `config` is meant: its names are the
/// choices, the current one marked.
pub fn choose_layout_message(config: &LayoutConfig) -> (out: Message)
    ensures
        texts(out.prompt@) == config@.layout_names(),
        out.content@ == "Choose layout:"@,
{
    Message { prompt: config.layout_names(), content: "Choose layout:".to_owned() }
}

/// The question whether to remove the layout called `layout_name`.
pub fn remove_layout_message(layout_name: &str) -> (out: Message)
    ensures
        texts(out.prompt@) == no_or_yes(),
        out.content@ == "Do you really want to remove '"@ + layout_name@
            + "' layout? This operation will be irreversible!"@,
{
    let mut content = "Do you really want to remove '".to_owned();
    content.append(layout_name);
    content.append("' layout? This operation will be irreversible!");
    Message { prompt: consent(), content }
}

/// The question whether to apply the layout that was just made.
pub fn apply_new_layout_message() -> (out: Message)
    ensures
        texts(out.prompt@) == no_or_yes(),
        out.content@ == "Apply new layout?"@,
{
    confirmation("Apply new layout?")
}

/// The question whether to make a layout, there being none.
pub fn create_layout_message() -> (out: Message)
    ensures
        texts(out.prompt@) == no_or_yes(),
        out.content@ == "You don't have any layouts yet. Create one?"@,
{
    confirmation("You don't have any layouts yet. Create one?")
}

/// A run of the program between two actions: it holds the catalog and, while
/// a layout is made, the wizard.
#[derive(Debug)]
pub struct UserInterface {
    stage: Stage,
    purpose: Purpose,
    applying_new: bool,
    config: LayoutConfig,
    builder: Option<LayoutBuilder>,
    name: String,
}

impl View for UserInterface {
    type V = SessionView;

    closed spec fn view(&self) -> SessionView {
        SessionView {
            stage: self.stage,
            purpose: self.purpose,
            applying_new: self.applying_new,
            config: self.config@,
            builder: match self.builder {
                Some(builder) => Some(builder@),
                None => None,
            },
            name: self.name@,
        }
    }
}

impl UserInterface {
    /// A run that has not started yet, with the catalog `config`.
    pub fn new(config: LayoutConfig) -> (out: UserInterface)
        ensures
            out@ == SessionView::start(config@),
            out@.wf(),
    {
        UserInterface {
            stage: Stage::Over,
            purpose: Purpose::Create,
            applying_new: false,
            config,
            builder: None,
            name: String::new(),
        }
    }

    /// The catalog.
    pub fn config(&self) -> (config: &LayoutConfig)
        ensures
            config@ == self@.config,
    {
        &self.config
    }

    /// What the run waits for.
    pub fn stage(&self) -> (stage: Stage)
        ensures
            stage == self@.stage,
    {
        self.stage
    }

    /// Starts a round: the user is asked what to do.
    pub fn start(&mut self) -> (action: Action)
        requires
            old(self)@.wf(),
        ensures
            (final(self)@, action@) == old(self)@.ask_start(),
            final(self)@.wf(),
    {
        self.ask_start()
    }

    /// Takes in what came back from the last action, and says what to do
    /// next.
    pub fn next(&mut self, event: Event) -> (action: Action)
        requires
            old(self)@.wf(),
        ensures
            (final(self)@, action@) == old(self)@.next(event@),
            final(self)@.wf(),
    {
        proof {
            lemma_next_wf(self@, event@);
        }
        if let Stage::Over = self.stage {
            return self.over(Action::Exit);
        }
        match event {
            Event::Answer(Err(error)) => {
                if let cmd::Error::EmptyOutput = &error {
                    self.over(Action::Exit)
                } else {
                    self.over(Action::Fail(Error::CmdError(error)))
                }
            },
            Event::Answer(Ok(answer)) => self.answered(answer.as_str()),
            Event::Output(Ok(listing)) => match self.stage {
                Stage::Screens => match screens_from(listing.as_str()) {
                    Ok(screens) => {
                        let builder = LayoutBuilder::new(screens, &self.config);
                        self.wizard(builder)
                    },
                    Err(error) => self.over(Action::Fail(Error::ScreenError(error))),
                },
                Stage::Disconnected => {
                    let disconnected = list_outputs(listing.as_str());
                    self.finished(&disconnected)
                },
                _ => self.over(Action::Fail(Error::InternalError)),
            },
            Event::Output(Err(error)) => {
                if let Stage::Disconnected = self.stage {
                    if let cmd::Error::EmptyOutput = &error {
                        let disconnected: Vec<String> = Vec::new();
                        assert(texts(disconnected@) =~= Seq::<Seq<char>>::empty());
                        return self.finished(&disconnected);
                    }
                }
                self.over(Action::Fail(Error::CmdError(error)))
            },
            Event::Ran(Err(error)) => self.over(Action::Fail(Error::CmdError(error))),
            Event::Ran(Ok(_)) => match self.stage {
                Stage::NoMonitors => {
                    self.builder = None;
                    self.created()
                },
                Stage::Applying => {
                    self.config.apply(self.name.as_str(), true);
                    self.stage = Stage::SaveApplied;
                    Action::Save
                },
                _ => self.over(Action::Fail(Error::InternalError)),
            },
            Event::Saved => match self.stage {
                Stage::SaveNew => {
                    self.stage = Stage::ApplyNew;
                    Action::Ask(apply_new_layout_message())
                },
                Stage::SaveApplied => {
                    if self.applying_new {
                        self.created()
                    } else {
                        self.over(Action::Exit)
                    }
                },
                Stage::SaveRemoved => self.ask_start(),
                _ => self.over(Action::Fail(Error::InternalError)),
            },
        }
    }

    /// Ends the run with `action`.
    fn over(&mut self, action: Action) -> (out: Action)
        ensures
            (final(self)@, out@) == old(self)@.over(action@),
    {
        self.stage = Stage::Over;
        self.builder = None;
        action
    }

    /// Asks what to do.
    fn ask_start(&mut self) -> (action: Action)
        ensures
            (final(self)@, action@) == old(self)@.ask_start(),
    {
        self.stage = Stage::Start;
        self.builder = None;
        Action::Ask(start_message())
    }

    /// Asks which layout is meant, or whether to make one.
    fn select(&mut self) -> (action: Action)
        ensures
            (final(self)@, action@) == old(self)@.select(),
    {
        if self.config.is_empty() {
            self.stage = Stage::CreateFirst;
            Action::Ask(create_layout_message())
        } else {
            self.stage = Stage::ChooseLayout;
            Action::Ask(choose_layout_message(&self.config))
        }
    }

    /// Goes on with the layout called `name`.
    fn chosen(&mut self, name: String) -> (action: Action)
        ensures
            (final(self)@, action@) == old(self)@.chosen(name@),
    {
        self.name = name;
        self.builder = None;
        match self.purpose {
            Purpose::Remove => {
                self.stage = Stage::ConfirmRemove;
                Action::Ask(remove_layout_message(self.name.as_str()))
            },
            _ => match self.config.xrandr_args(self.name.as_str()) {
                Some(args) => {
                    self.stage = Stage::Applying;
                    self.applying_new = false;
                    Action::Invoke(args)
                },
                None => self.over(Action::Exit),
            },
        }
    }

    /// Goes on after the making of a layout.
    fn created(&mut self) -> (action: Action)
        ensures
            (final(self)@, action@) == old(self)@.created(),
    {
        match self.purpose {
            Purpose::Create => self.ask_start(),
            _ => self.chosen(String::new()),
        }
    }

    /// Goes on with the wizard in the state `builder`.
    fn wizard(&mut self, builder: LayoutBuilder) -> (action: Action)
        requires
            builder@.wf(),
        ensures
            (final(self)@, action@) == old(self)@.wizard(builder@),
    {
        let action = match builder.step() {
            Step::NoMonitors => {
                self.stage = Stage::NoMonitors;
                Action::Show(builder.message())
            },
            Step::Finished => {
                self.stage = Stage::Disconnected;
                Action::ListDisconnected
            },
            _ => {
                self.stage = Stage::Wizard;
                Action::Ask(builder.message())
            },
        };
        self.builder = Some(builder);
        action
    }

    /// Goes on after the listing of the disconnected outputs.
    fn finished(&mut self, disconnected: &Vec<String>) -> (action: Action)
        requires
            old(self)@.wf(),
        ensures
            (final(self)@, action@) == old(self)@.finished(texts(disconnected@)),
    {
        match self.builder.take() {
            Some(builder) => match builder.finish(disconnected) {
                Some(layout) => {
                    self.config.add(&layout);
                    self.name = layout.name;
                    self.stage = Stage::SaveNew;
                    Action::Save
                },
                None => self.created(),
            },
            None => self.over(Action::Fail(Error::InternalError)),
        }
    }

    /// Takes the answer `answer` of the user in.
    fn answered(&mut self, answer: &str) -> (action: Action)
        requires
            old(self)@.wf(),
        ensures
            (final(self)@, action@) == old(self)@.answered(answer@),
    {
        match self.stage {
            Stage::Start => match StartOption::labelled(answer) {
                None => self.ask_start(),
                Some(StartOption::NewLayout) => {
                    self.stage = Stage::Screens;
                    self.purpose = Purpose::Create;
                    Action::ListScreens
                },
                Some(StartOption::ApplyLayout) => {
                    self.purpose = Purpose::Apply;
                    self.select()
                },
                Some(StartOption::RemoveLayout) => {
                    self.purpose = Purpose::Remove;
                    self.select()
                },
                Some(StartOption::Exit) => self.over(Action::Exit),
            },
            Stage::CreateFirst => {
                if same_text(answer, "Yes") {
                    self.stage = Stage::Screens;
                    Action::ListScreens
                } else if same_text(answer, "No") {
                    self.chosen(String::new())
                } else {
                    self.select()
                }
            },
            Stage::ChooseLayout => {
                let names = self.config.layout_names();
                if contains_text(&names, answer) {
                    self.chosen(remove_check_sign(answer))
                } else {
                    self.select()
                }
            },
            Stage::Wizard => match self.builder.take() {
                Some(builder) => {
                    let mut builder = builder;
                    builder.answer(answer);
                    self.wizard(builder)
                },
                None => self.over(Action::Fail(Error::InternalError)),
            },
            Stage::ApplyNew => {
                if same_text(answer, "Yes") {
                    match self.config.xrandr_args(self.name.as_str()) {
                        Some(args) => {
                            self.stage = Stage::Applying;
                            self.applying_new = true;
                            Action::Invoke(args)
                        },
                        None => self.created(),
                    }
                } else if same_text(answer, "No") {
                    self.created()
                } else {
                    Action::Ask(apply_new_layout_message())
                }
            },
            Stage::ConfirmRemove => {
                if same_text(answer, "Yes") {
                    self.config.remove(self.name.as_str());
                    self.stage = Stage::SaveRemoved;
                    Action::Save
                } else if same_text(answer, "No") {
                    self.ask_start()
                } else {
                    Action::Ask(remove_layout_message(self.name.as_str()))
                }
            },
            _ => self.over(Action::Fail(Error::InternalError)),
        }
    }
}

} // verus!
