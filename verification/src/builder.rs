//! The wizard at work: it holds the state between two questions, says what
//! to ask next, and takes each answer in.

use crate::cli::dmenu::Message;
use crate::config::{remove_check_sign, LayoutConfig};
use crate::layout::{Layout, Output};
use crate::modes::OutputModes;
use crate::screen::{Orientation, Position, State};
use crate::text::{contains_text, copy_texts, position_of, same_text, texts};
use crate::wizard::{
    all_true, candidates, lemma_answered_consistent, lemma_answered_wf, lemma_finished,
    lemma_start_consistent, lemma_start_wf, lemma_unassigned, may_refer, names_of, no_or_yes,
    others, reference_of, unassigned, with_switched_off, BuilderView, ScreenView, Step,
};
use vstd::prelude::*;

verus! {

/// A connected output and what it supports.
#[derive(Debug, PartialEq, Eq)]
pub struct Screen {
    pub name: String,
    pub modes: OutputModes,
}

impl Clone for Screen {
    fn clone(&self) -> (out: Self)
        ensures
            out@ == self@,
    {
        Screen { name: self.name.clone(), modes: self.modes.clone() }
    }
}

impl View for Screen {
    type V = ScreenView;

    open spec fn view(&self) -> ScreenView {
        ScreenView {
            name: self.name@,
            resolutions: self.modes.resolutions@,
            rates: self.modes.rates@,
        }
    }
}

/// The views of a list of screens, element by element.
pub open spec fn screen_views(screens: Seq<Screen>) -> Seq<ScreenView> {
    Seq::new(screens.len(), |i: int| screens[i]@)
}

/// A note that one output was placed next to another.
#[derive(Debug)]
struct Relation {
    output: String,
    reference: String,
}

/// The notes of a list, each as a pair of names.
spec fn relations(list: Seq<Relation>) -> Seq<(Seq<char>, Seq<char>)> {
    Seq::new(list.len(), |i: int| (list[i].output@, list[i].reference@))
}

/// The wizard between two questions.
#[derive(Debug)]
pub struct LayoutBuilder {
    step: Step,
    taken: Vec<String>,
    offered: Vec<String>,
    screens: Vec<Screen>,
    assigned: Vec<bool>,
    current: usize,
    relative: Vec<Relation>,
    primary_selected: bool,
    layout: Layout,
    output: Output,
    position_label: String,
}

impl View for LayoutBuilder {
    type V = BuilderView;

    closed spec fn view(&self) -> BuilderView {
        BuilderView {
            step: self.step,
            taken: texts(self.taken@),
            offered: texts(self.offered@),
            screens: screen_views(self.screens@),
            assigned: self.assigned@,
            current: self.current as int,
            relative: relations(self.relative@),
            primary_selected: self.primary_selected,
            layout: self.layout@,
            output: self.output@,
            position_label: self.position_label@,
        }
    }
}

/// The two answers to a question that asks for consent.
pub fn consent() -> (out: Vec<String>)
    ensures
        texts(out@) == no_or_yes(),
{
    let mut out: Vec<String> = Vec::new();
    out.push("No".to_owned());
    out.push("Yes".to_owned());
    assert(texts(out@) =~= no_or_yes());
    out
}

impl LayoutBuilder {
    /// The wizard at its start, for the connected outputs `screens` and the
    /// layouts that `config` holds already.
    pub fn new(screens: Vec<Screen>, config: &LayoutConfig) -> (out: LayoutBuilder)
        ensures
            out@ == BuilderView::start(screen_views(screens@), config@),
            out@.wf(),
            names_of(screen_views(screens@)).no_duplicates() ==> out@.consistent(),
    {
        let mut taken: Vec<String> = Vec::new();
        let mut i: usize = 0;
        while i < config.layouts.len()
            invariant
                i <= config.layouts.len(),
                taken.len() == i,
                forall|j: int| 0 <= j < i ==> taken[j]@ == config@.layouts[j].name,
            decreases config.layouts.len() - i,
        {
            taken.push(config.layouts[i].name.clone());
            i += 1;
        }
        let mut assigned: Vec<bool> = Vec::new();
        let mut i: usize = 0;
        while i < screens.len()
            invariant
                i <= screens.len(),
                assigned.len() == i,
                forall|j: int| 0 <= j < i ==> !assigned[j],
            decreases screens.len() - i,
        {
            assigned.push(false);
            i += 1;
        }
        let step = if screens.len() == 0 {
            Step::NoMonitors
        } else {
            Step::LayoutName
        };
        let out = LayoutBuilder {
            step,
            taken,
            offered: config.layout_names(),
            screens,
            assigned,
            current: 0,
            relative: Vec::new(),
            primary_selected: false,
            layout: Layout::new(),
            output: Output::new(),
            position_label: String::new(),
        };
        proof {
            let start = BuilderView::start(screen_views(screens@), config@);
            assert(out@.taken =~= start.taken);
            assert(out@.assigned =~= start.assigned);
            assert(out@.relative =~= start.relative);
            lemma_start_wf(screen_views(screens@), config@);
            if names_of(screen_views(screens@)).no_duplicates() {
                lemma_start_consistent(screen_views(screens@), config@);
            }
        }
        out
    }

    /// The question that waits for its answer.
    pub fn step(&self) -> (step: Step)
        ensures
            step == self@.step,
    {
        self.step
    }

    /// Whether nothing is left to ask.
    pub fn is_finished(&self) -> (finished: bool)
        ensures
            finished == (self@.step is Finished),
    {
        match self.step {
            Step::Finished => true,
            _ => false,
        }
    }

    /// Whether an answer counts only if it is one of the choices.
    pub fn validates(&self) -> (validates: bool)
        ensures
            validates == self@.validates(),
    {
        match self.step {
            Step::NoMonitors | Step::LayoutName | Step::EmptyName | Step::Finished => false,
            _ => true,
        }
    }

    /// The names of the connected outputs.
    fn names(&self) -> (out: Vec<String>)
        ensures
            texts(out@) == self@.names(),
    {
        let mut out: Vec<String> = Vec::new();
        let mut i: usize = 0;
        while i < self.screens.len()
            invariant
                i <= self.screens.len(),
                out.len() == i,
                forall|j: int| 0 <= j < i ==> out[j]@ == self.screens[j].name@,
            decreases self.screens.len() - i,
        {
            out.push(self.screens[i].name.clone());
            i += 1;
        }
        assert(texts(out@) =~= self@.names());
        out
    }

    /// The names of the connected outputs that are not yet assigned.
    fn unassigned_names(&self) -> (out: Vec<String>)
        requires
            self@.assigned.len() == self@.screens.len(),
        ensures
            texts(out@) == unassigned(self@.screens, self@.assigned),
    {
        let mut out: Vec<String> = Vec::new();
        let mut i: usize = 0;
        let ghost screens = self@.screens;
        let ghost assigned = self@.assigned;
        assert(texts(out@) =~= unassigned(screens.take(0), assigned.take(0)));
        while i < self.screens.len()
            invariant
                i <= self.screens.len(),
                screens == self@.screens,
                assigned == self@.assigned,
                assigned.len() == screens.len(),
                texts(out@) == unassigned(screens.take(i as int), assigned.take(i as int)),
            decreases self.screens.len() - i,
        {
            proof {
                assert(screens.take(i + 1).drop_last() =~= screens.take(i as int));
                assert(assigned.take(i + 1).drop_last() =~= assigned.take(i as int));
                assert(screens.take(i + 1).last() == screens[i as int]);
                assert(assigned.take(i + 1).last() == assigned[i as int]);
            }
            if !self.assigned[i] {
                let ghost before = texts(out@);
                out.push(self.screens[i].name.clone());
                assert(texts(out@) =~= before.push(screens[i as int].name));
            }
            i += 1;
        }
        assert(screens.take(self.screens.len() as int) =~= screens);
        assert(assigned.take(self.screens.len() as int) =~= assigned);
        out
    }

    /// The names of the connected outputs other than the one that is being
    /// set up.
    fn other_names(&self) -> (out: Vec<String>)
        ensures
            texts(out@) == others(self@.names(), self@.output.name),
    {
        let names = self.names();
        let ghost all = texts(names@);
        let ghost own = self.output.name@;
        let mut out: Vec<String> = Vec::new();
        let mut i: usize = 0;
        assert(texts(out@) =~= others(all.take(0), own));
        while i < names.len()
            invariant
                i <= names.len(),
                all == texts(names@),
                own == self.output.name@,
                texts(out@) == others(all.take(i as int), own),
            decreases names.len() - i,
        {
            proof {
                assert(all.take(i + 1).drop_last() =~= all.take(i as int));
                assert(all.take(i + 1).last() == names[i as int]@);
            }
            if !same_text(names[i].as_str(), self.output.name.as_str()) {
                let ghost before = texts(out@);
                out.push(names[i].clone());
                assert(texts(out@) =~= before.push(names[i as int]@));
            }
            i += 1;
        }
        assert(all.take(names.len() as int) =~= all);
        out
    }

    /// Whether the output that is being set up may be placed next to
    /// `candidate`.
    fn may_refer(&self, candidate: &str) -> (may: bool)
        ensures
            may == may_refer(self@.relative, candidate@, self@.output.name),
    {
        let ghost all = relations(self.relative@);
        let mut i: usize = self.relative.len();
        assert(all.take(i as int) =~= all);
        while i > 0
            invariant
                i <= self.relative.len(),
                all == relations(self.relative@),
                reference_of(all, candidate@) == reference_of(all.take(i as int), candidate@),
            decreases i,
        {
            i -= 1;
            proof {
                assert(all.take(i + 1).drop_last() =~= all.take(i as int));
                assert(all.take(i + 1).last() == all[i as int]);
            }
            if same_text(self.relative[i].output.as_str(), candidate) {
                return same_text(self.relative[i].reference.as_str(), self.output.name.as_str());
            }
        }
        true
    }

    /// The names of the outputs next to which the output that is being set
    /// up may be placed.
    fn candidate_names(&self) -> (out: Vec<String>)
        ensures
            texts(out@) == self@.candidates(),
    {
        let names = self.names();
        let ghost all = texts(names@);
        let ghost own = self.output.name@;
        let ghost relative = relations(self.relative@);
        let mut out: Vec<String> = Vec::new();
        let mut i: usize = 0;
        assert(texts(out@) =~= candidates(all.take(0), relative, own));
        while i < names.len()
            invariant
                i <= names.len(),
                all == texts(names@),
                own == self@.output.name,
                relative == self@.relative,
                texts(out@) == candidates(all.take(i as int), relative, own),
            decreases names.len() - i,
        {
            proof {
                assert(all.take(i + 1).drop_last() =~= all.take(i as int));
                assert(all.take(i + 1).last() == names[i as int]@);
            }
            if !same_text(names[i].as_str(), self.output.name.as_str()) && self.may_refer(
                names[i].as_str(),
            ) {
                let ghost before = texts(out@);
                out.push(names[i].clone());
                assert(texts(out@) =~= before.push(names[i as int]@));
            }
            i += 1;
        }
        assert(all.take(names.len() as int) =~= all);
        out
    }

    /// The choices that the question offers.
    pub fn options(&self) -> (out: Vec<String>)
        requires
            self@.wf(),
        ensures
            texts(out@) == self@.options(),
    {
        match self.step {
            Step::NoMonitors | Step::EmptyName | Step::Finished => {
                let out: Vec<String> = Vec::new();
                assert(texts(out@) =~= Seq::<Seq<char>>::empty());
                out
            },
            Step::LayoutName => copy_texts(&self.offered),
            Step::Overwrite | Step::Primary | Step::AnotherScreen => consent(),
            Step::OutputName => self.unassigned_names(),
            Step::OutputState => State::list(),
            Step::DuplicatedScreen => self.other_names(),
            Step::OutputResolution => {
                let out = self.screens[self.current].modes.resolutions();
                assert(texts(out@) =~= self@.options());
                out
            },
            Step::OutputRate => {
                let out = self.screens[self.current].modes.rates();
                assert(texts(out@) =~= self@.options());
                out
            },
            Step::OutputOrientation => Orientation::list(),
            Step::OutputPosition => {
                let candidates = self.candidate_names();
                if candidates.len() > 0 {
                    Position::list()
                } else {
                    let mut out: Vec<String> = Vec::new();
                    out.push("Center".to_owned());
                    assert(texts(out@) =~= seq!["Center"@]);
                    out
                }
            },
            Step::RelativeScreen => self.candidate_names(),
        }
    }

    /// The question in words.
    pub fn question(&self) -> (out: String)
        ensures
            out@ == self@.question(),
    {
        match self.step {
            Step::NoMonitors => "You don't have any monitors connected.".to_owned(),
            Step::LayoutName => {
                "What is the name of a new layout? (created are listed below)".to_owned()
            },
            Step::EmptyName => {
                "Layout name should not be empty string (press any key to continue)".to_owned()
            },
            Step::Overwrite => {
                let mut out = "Do you really want to overwrite existing layout: `".to_owned();
                out.append(self.layout.name.as_str());
                out.append("`?");
                out
            },
            Step::OutputName => "What screen to connect?".to_owned(),
            Step::OutputState => "Choose state:".to_owned(),
            Step::DuplicatedScreen => "Choose duplicated screen:".to_owned(),
            Step::OutputResolution => "Choose resolution:".to_owned(),
            Step::OutputRate => "Choose rate:".to_owned(),
            Step::OutputOrientation => "Choose orientation:".to_owned(),
            Step::OutputPosition => "Choose position:".to_owned(),
            Step::RelativeScreen => "Choose relative screen:".to_owned(),
            Step::Primary => {
                let mut out = "Make screen ".to_owned();
                out.append(self.output.name.as_str());
                out.append(" primary? (only once)");
                out
            },
            Step::AnotherScreen => "Add another screen?".to_owned(),
            Step::Finished => "".to_owned(),
        }
    }

    /// What to ask next: the choices and the question.
    pub fn message(&self) -> (out: Message)
        requires
            self@.wf(),
        ensures
            texts(out.prompt@) == self@.options(),
            out.content@ == self@.question(),
    {
        Message { prompt: self.options(), content: self.question() }
    }

    /// Puts the output that is being set up into the layout.
    fn commit(&mut self)
        requires
            old(self)@.current < old(self)@.assigned.len(),
        ensures
            final(self)@ == old(self)@.committed(),
    {
        self.assigned.set(self.current, true);
        self.layout.add(self.output.clone());
        let mut all = true;
        let mut i: usize = 0;
        while i < self.assigned.len()
            invariant
                i <= self.assigned.len(),
                all == all_true(self.assigned@.take(i as int)),
            decreases self.assigned.len() - i,
        {
            proof {
                let seen = self.assigned@.take(i as int);
                let next = self.assigned@.take(i + 1);
                assert(forall|j: int| 0 <= j < seen.len() ==> seen[j] == next[j]);
                assert(next[i as int] == self.assigned@[i as int]);
                if all_true(next) {
                    assert forall|j: int| 0 <= j < seen.len() implies seen[j] by {
                        assert(next[j]);
                    }
                }
            }
            if !self.assigned[i] {
                all = false;
            }
            i += 1;
        }
        assert(self.assigned@.take(self.assigned.len() as int) =~= self.assigned@);
        if all {
            self.step = Step::Finished;
        } else {
            self.step = Step::AnotherScreen;
        }
    }

    /// Goes on once the mode and the place of the output are settled.
    fn place(&mut self)
        requires
            old(self)@.current < old(self)@.assigned.len(),
        ensures
            final(self)@ == old(self)@.placed(),
    {
        if self.primary_selected {
            self.commit();
        } else {
            self.step = Step::Primary;
        }
    }

    /// Takes the answer `response` to the question in: the wizard goes on to
    /// the next question; where the answer had to be one of the choices and
    /// is none, it stays where it was.
    pub fn answer(&mut self, response: &str) -> (accepted: bool)
        requires
            old(self)@.wf(),
        ensures
            final(self)@ == old(self)@.answered(response@),
            final(self)@.wf(),
            old(self)@.consistent() ==> final(self)@.consistent(),
            accepted == !(old(self)@.validates() && !old(self)@.options().contains(response@)),
    {
        proof {
            lemma_answered_wf(self@, response@);
            if self@.consistent() {
                lemma_answered_consistent(self@, response@);
            }
        }
        let options = self.options();
        let chosen = position_of(&options, response);
        if self.validates() && chosen.is_none() {
            return false;
        }
        match self.step {
            Step::NoMonitors => {
                self.step = Step::Finished;
            },
            Step::LayoutName => {
                let name = remove_check_sign(response);
                if name.as_str().is_empty() {
                    self.step = Step::EmptyName;
                } else if contains_text(&self.taken, name.as_str()) {
                    self.step = Step::Overwrite;
                } else {
                    self.step = Step::OutputName;
                }
                self.layout.name = name;
            },
            Step::EmptyName => {
                self.step = Step::LayoutName;
            },
            Step::Overwrite => {
                if same_text(response, "Yes") {
                    self.step = Step::OutputName;
                } else {
                    self.step = Step::LayoutName;
                }
            },
            Step::OutputName => {
                self.choose_output(response);
            },
            Step::OutputState => {
                if same_text(response, "Duplicated") {
                    self.step = Step::DuplicatedScreen;
                } else if same_text(response, "Connected") {
                    self.output.state = State::Connected;
                    self.step = Step::OutputResolution;
                } else {
                    self.output.state = State::Disconnected;
                    self.commit();
                }
            },
            Step::DuplicatedScreen => {
                self.output.state = State::Duplicated(response.to_owned());
                self.step = Step::OutputResolution;
            },
            Step::OutputResolution => {
                let at = chosen.unwrap();
                self.output.mode.resolution = self.screens[self.current].modes.resolutions[at];
                self.step = Step::OutputRate;
            },
            Step::OutputRate => {
                let at = chosen.unwrap();
                self.output.mode.rate = self.screens[self.current].modes.rates[at];
                self.step = Step::OutputOrientation;
            },
            Step::OutputOrientation => {
                match Orientation::labelled(response) {
                    Some(orientation) => {
                        self.output.orientation = orientation;
                    },
                    None => {},
                }
                if let State::Connected = &self.output.state {
                    self.step = Step::OutputPosition;
                } else {
                    self.place();
                }
            },
            Step::OutputPosition => {
                if same_text(response, "Center") {
                    self.output.position = Position::Center;
                    self.place();
                } else {
                    self.position_label = response.to_owned();
                    self.step = Step::RelativeScreen;
                }
            },
            Step::RelativeScreen => {
                self.relate(response);
            },
            Step::Primary => {
                let primary = same_text(response, "Yes");
                self.output.is_primary = primary;
                self.primary_selected = self.primary_selected || primary;
                self.commit();
            },
            Step::AnotherScreen => {
                if same_text(response, "Yes") {
                    self.step = Step::OutputName;
                } else {
                    self.step = Step::Finished;
                }
            },
            Step::Finished => {},
        }
        true
    }

    /// Starts to set up the output called `response`, the first of that name
    /// that is not yet assigned.
    fn choose_output(&mut self, response: &str)
        requires
            old(self)@.wf(),
            old(self)@.step is OutputName,
            old(self)@.options().contains(response@),
        ensures
            final(self)@ == old(self)@.answered(response@),
    {
        proof {
            lemma_unassigned(self@.screens, self@.assigned);
            assert(unassigned(self@.screens, self@.assigned).contains(response@));
        }
        let mut i: usize = 0;
        while i < self.screens.len() && !(!self.assigned[i] && same_text(
            self.screens[i].name.as_str(),
            response,
        ))
            invariant
                i <= self.screens.len(),
                self.assigned.len() == self.screens.len(),
                forall|j: int|
                    0 <= j < i ==> !((#[trigger] self@.screens[j]).name == response@
                        && !self@.assigned[j]),
            decreases self.screens.len() - i,
        {
            i += 1;
        }
        proof {
            if i == self.screens.len() {
                let k = choose|k: int|
                    0 <= k < self@.screens.len() && !self@.assigned[k]
                        && (#[trigger] self@.screens[k]).name == response@;
                assert(false);
            }
            assert(self@.first_unassigned(response@, i as int));
            let chosen = choose|k: int| self@.first_unassigned(response@, k);
            assert(self@.first_unassigned(response@, chosen));
            assert(chosen == i);
        }
        self.current = i;
        self.output = Output::switched_off(response);
        self.step = Step::OutputState;
    }

    /// Places the output that is being set up next to the output called
    /// `response`.
    fn relate(&mut self, response: &str)
        requires
            old(self)@.wf(),
            old(self)@.step is RelativeScreen,
            old(self)@.options().contains(response@),
        ensures
            final(self)@ == old(self)@.answered(response@),
    {
        let ghost before = self@;
        self.relative.push(
            Relation { output: self.output.name.clone(), reference: response.to_owned() },
        );
        assert(self@.relative =~= before.relative.push((before.output.name, response@)));
        match Position::labelled(self.position_label.as_str(), Some(response.to_owned())) {
            Ok(position) => {
                self.output.position = position;
            },
            Err(_) => {
                proof {
                    let labels = Position::labels();
                    let i = choose|i: int|
                        0 <= i < labels.len() && labels[i] == before.position_label;
                    assert(labels[i] == before.position_label);
                    assert(false);
                }
            },
        }
        self.place();
    }

    /// The layout at the end: none where no output was set up; else the
    /// layout so far, with each connected output that was not set up and each
    /// of `disconnected` in it as an output that is switched off.
    pub fn finish(self, disconnected: &Vec<String>) -> (out: Option<Layout>)
        requires
            self@.wf(),
        ensures
            match out {
                Some(layout) => Some(layout@) == self@.finished(texts(disconnected@))
                    && layout.wf() && layout@.at_most_one_primary() && layout@.name.len() > 0,
                None => self@.finished(texts(disconnected@)) is None,
            },
    {
        if self.layout.is_empty() {
            return None;
        }
        let left = self.unassigned_names();
        let mut layout = self.layout;
        switch_off(&mut layout, &left);
        switch_off(&mut layout, disconnected);
        proof {
            lemma_finished(self@, texts(disconnected@));
        }
        Some(layout)
    }
}

/// Puts each of `names` into `layout` as an output that is switched off.
fn switch_off(layout: &mut Layout, names: &Vec<String>)
    ensures
        final(layout)@ == with_switched_off(old(layout)@, texts(names@)),
{
    let ghost start = layout@;
    let ghost all = texts(names@);
    let mut i: usize = 0;
    assert(all.take(0) =~= Seq::<Seq<char>>::empty());
    while i < names.len()
        invariant
            i <= names.len(),
            all == texts(names@),
            layout@ == with_switched_off(start, all.take(i as int)),
        decreases names.len() - i,
    {
        proof {
            assert(all.take(i + 1).drop_last() =~= all.take(i as int));
            assert(all.take(i + 1).last() == names[i as int]@);
        }
        layout.add(Output::switched_off(names[i].as_str()));
        i += 1;
    }
    assert(all.take(names.len() as int) =~= all);
}

} // verus!
