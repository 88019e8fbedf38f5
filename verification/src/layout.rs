//! Outputs and layouts: the full configuration of one display, and a named
//! arrangement of several, with the arguments that make the display tool set
//! them up.

use crate::screen::{
    Mode, Orientation, Position, PositionView, State, StateView, ToXrandrArg,
};
use crate::text::{same_text, texts};
use vstd::prelude::*;

verus! {

/// One display connector and the configuration chosen for it.
#[derive(Debug, PartialEq, Eq)]
pub struct Output {
    pub name: String,
    pub mode: Mode,
    pub is_primary: bool,
    pub state: State,
    pub position: Position,
    pub orientation: Orientation,
}

/// An `Output` with its texts as sequences of characters.
pub struct OutputView {
    pub name: Seq<char>,
    pub mode: Mode,
    pub is_primary: bool,
    pub state: StateView,
    pub position: PositionView,
    pub orientation: Orientation,
}

impl OutputView {
    /// The output `name` switched off: no mode, not primary, in the middle,
    /// upright.
    pub open spec fn switched_off(name: Seq<char>) -> OutputView {
        OutputView {
            name,
            mode: Mode::blank(),
            is_primary: false,
            state: StateView::Disconnected,
            position: PositionView::Center,
            orientation: Orientation::Normal,
        }
    }

    /// The arguments that set the output up: its name and its state; then,
    /// unless it is switched off, its mode, its orientation, its position and
    /// whether it is the primary one. `Connected` and `Center` need no
    /// argument and give none.
    pub open spec fn xrandr_args(self) -> Seq<Seq<char>> {
        let name = seq!["--output "@ + self.name];
        let state = match self.state {
            StateView::Connected => Seq::<Seq<char>>::empty(),
            _ => seq![self.state.xrandr_arg()],
        };
        let position = match self.position {
            PositionView::Center => Seq::<Seq<char>>::empty(),
            _ => seq![self.position.xrandr_arg()],
        };
        let primary = if self.is_primary {
            seq!["--primary"@]
        } else {
            Seq::<Seq<char>>::empty()
        };
        if self.state is Disconnected {
            name + state
        } else {
            name + state + seq![self.mode.xrandr_arg(), self.orientation.xrandr_arg()] + position
                + primary
        }
    }
}

impl View for Output {
    type V = OutputView;

    open spec fn view(&self) -> OutputView {
        OutputView {
            name: self.name@,
            mode: self.mode,
            is_primary: self.is_primary,
            state: self.state@,
            position: self.position@,
            orientation: self.orientation,
        }
    }
}

impl Clone for Output {
    fn clone(&self) -> (out: Self)
        ensures
            out@ == self@,
    {
        Output {
            name: self.name.clone(),
            mode: self.mode,
            is_primary: self.is_primary,
            state: self.state.clone(),
            position: self.position.clone(),
            orientation: self.orientation,
        }
    }
}

impl Default for Output {
    fn default() -> (out: Self)
        ensures
            out@ == (OutputView {
                state: StateView::Connected,
                ..OutputView::switched_off(Seq::empty())
            }),
    {
        Output {
            name: String::new(),
            mode: Mode::default(),
            is_primary: false,
            state: State::Connected,
            position: Position::Center,
            orientation: Orientation::Normal,
        }
    }
}

impl Output {
    /// An output without a name, switched off.
    pub fn new() -> (out: Output)
        ensures
            out@ == OutputView::switched_off(Seq::empty()),
    {
        Output {
            name: String::new(),
            mode: Mode::default(),
            is_primary: false,
            state: State::Disconnected,
            position: Position::Center,
            orientation: Orientation::Normal,
        }
    }

    /// The output `name`, switched off.
    pub fn switched_off(name: &str) -> (out: Output)
        ensures
            out@ == OutputView::switched_off(name@),
    {
        let mut out = Output::new();
        out.name = name.to_owned();
        out
    }

    /// The arguments that set the output up.
    pub fn xrandr_args(&self) -> (args: Vec<String>)
        ensures
            texts(args@) == self@.xrandr_args(),
    {
        let mut args: Vec<String> = Vec::new();
        let mut name = "--output ".to_owned();
        name.append(self.name.as_str());
        args.push(name);
        match &self.state {
            State::Connected => {},
            state => {
                args.push(state.to_xrandr_arg());
            },
        }
        if let State::Disconnected = &self.state {
            assert(texts(args@) =~= self@.xrandr_args());
            return args;
        }
        args.push(self.mode.to_xrandr_arg());
        args.push(self.orientation.to_xrandr_arg());
        match &self.position {
            Position::Center => {},
            position => {
                args.push(position.to_xrandr_arg());
            },
        }
        if self.is_primary {
            args.push("--primary".to_owned());
        }
        assert(texts(args@) =~= self@.xrandr_args());
        args
    }
}

/// A `Layout` with its texts as sequences of characters and its outputs in
/// the order in which they were added.
pub struct LayoutView {
    pub name: Seq<char>,
    pub is_current: bool,
    pub outputs: Seq<OutputView>,
}

impl LayoutView {
    /// Whether the layout has an output of that name.
    pub open spec fn has(self, name: Seq<char>) -> bool {
        exists|i: int| 0 <= i < self.outputs.len() && #[trigger] self.outputs[i].name == name
    }

    /// Whether the first output of that name stands at `i`.
    pub open spec fn first_named(self, name: Seq<char>, i: int) -> bool {
        &&& 0 <= i < self.outputs.len()
        &&& self.outputs[i].name == name
        &&& forall|j: int| 0 <= j < i ==> (#[trigger] self.outputs[j]).name != name
    }

    /// Where the first output of that name stands, for a layout that has one.
    pub open spec fn place(self, name: Seq<char>) -> int {
        choose|i: int| self.first_named(name, i)
    }

    /// The output of that name, if the layout has one.
    pub open spec fn output_named(self, name: Seq<char>) -> Option<OutputView> {
        if self.has(name) {
            Some(self.outputs[self.place(name)])
        } else {
            None
        }
    }

    /// No two outputs have the same name.
    pub open spec fn distinct(self) -> bool {
        forall|i: int, j: int|
            0 <= i < self.outputs.len() && 0 <= j < self.outputs.len()
                && #[trigger] self.outputs[i].name == #[trigger] self.outputs[j].name ==> i == j
    }

    /// At most one output is the primary one.
    pub open spec fn at_most_one_primary(self) -> bool {
        forall|i: int, j: int|
            0 <= i < self.outputs.len() && 0 <= j < self.outputs.len()
                && #[trigger] self.outputs[i].is_primary && #[trigger] self.outputs[j].is_primary
                ==> i == j
    }

    /// The layout with `output` in it: in the place of the output of the same
    /// name where there is one, else at the end.
    pub open spec fn with(self, output: OutputView) -> LayoutView {
        LayoutView {
            outputs: if self.has(output.name) {
                self.outputs.update(self.place(output.name), output)
            } else {
                self.outputs.push(output)
            },
            ..self
        }
    }

    /// The arguments that set the whole layout up: those of each output, in
    /// the order of the outputs.
    pub open spec fn xrandr_args(self) -> Seq<Seq<char>> {
        all_args(self.outputs)
    }
}

/// The arguments of each of `outputs`, one output after the other.
pub open spec fn all_args(outputs: Seq<OutputView>) -> Seq<Seq<char>>
    decreases outputs.len(),
{
    if outputs.len() == 0 {
        Seq::empty()
    } else {
        all_args(outputs.drop_last()) + outputs.last().xrandr_args()
    }
}

/// The views of a list of outputs, element by element.
pub open spec fn output_views(outputs: Seq<Output>) -> Seq<OutputView> {
    Seq::new(outputs.len(), |i: int| outputs[i]@)
}

/// The outputs of a layout.
pub type Outputs = Vec<Output>;

/// A named arrangement of outputs, at most one under each name.
#[derive(Debug, PartialEq, Eq)]
pub struct Layout {
    pub name: String,
    pub is_current: bool,
    pub outputs: Outputs,
}

impl View for Layout {
    type V = LayoutView;

    open spec fn view(&self) -> LayoutView {
        LayoutView {
            name: self.name@,
            is_current: self.is_current,
            outputs: output_views(self.outputs@),
        }
    }
}

impl Clone for Layout {
    fn clone(&self) -> (out: Self)
        ensures
            out@ == self@,
    {
        let mut outputs: Vec<Output> = Vec::new();
        let mut i: usize = 0;
        while i < self.outputs.len()
            invariant
                i <= self.outputs.len(),
                outputs.len() == i,
                forall|j: int| 0 <= j < i ==> outputs[j]@ == self.outputs[j]@,
            decreases self.outputs.len() - i,
        {
            outputs.push(self.outputs[i].clone());
            i += 1;
        }
        let out = Layout { name: self.name.clone(), is_current: self.is_current, outputs };
        assert(out@.outputs =~= self@.outputs);
        out
    }
}

impl Default for Layout {
    fn default() -> (out: Self)
        ensures
            out@ == (LayoutView { name: Seq::empty(), is_current: false, outputs: Seq::empty() }),
    {
        Layout::new()
    }
}

impl Layout {
    /// No two outputs have the same name: every layout that `new` and `add`
    /// make is so.
    pub open spec fn wf(&self) -> bool {
        self@.distinct()
    }

    /// A layout without a name and without outputs.
    pub fn new() -> (out: Layout)
        ensures
            out@ == (LayoutView { name: Seq::empty(), is_current: false, outputs: Seq::empty() }),
            out.wf(),
    {
        let out = Layout { name: String::new(), is_current: false, outputs: Vec::new() };
        assert(out@.outputs =~= Seq::<OutputView>::empty());
        out
    }

    /// Whether the layout has no outputs.
    pub fn is_empty(&self) -> (empty: bool)
        ensures
            empty == (self@.outputs.len() == 0),
    {
        self.outputs.is_empty()
    }

    /// How many outputs the layout has.
    pub fn len(&self) -> (count: usize)
        ensures
            count == self@.outputs.len(),
    {
        self.outputs.len()
    }

    /// The output at `index`, in the order in which they were added.
    pub fn output_at(&self, index: usize) -> (output: &Output)
        requires
            index < self@.outputs.len(),
        ensures
            output@ == self@.outputs[index as int],
    {
        &self.outputs[index]
    }

    /// Where the output called `output_name` stands, if there is one.
    pub fn find(&self, output_name: &str) -> (found: Option<usize>)
        ensures
            match found {
                Some(i) => self@.has(output_name@) && self@.place(output_name@) == i
                    && self@.first_named(output_name@, i as int),
                None => !self@.has(output_name@),
            },
    {
        let mut i: usize = 0;
        while i < self.outputs.len()
            invariant
                i <= self.outputs.len(),
                forall|j: int| 0 <= j < i ==> self@.outputs[j].name != output_name@,
            decreases self.outputs.len() - i,
        {
            if same_text(self.outputs[i].name.as_str(), output_name) {
                assert(self@.first_named(output_name@, i as int));
                return Some(i);
            }
            i += 1;
        }
        None
    }

    /// Puts `output` into the layout: in the place of the output of the same
    /// name where there is one, else at the end.
    pub fn add(&mut self, output: Output)
        ensures
            final(self)@ == old(self)@.with(output@),
            old(self).wf() ==> final(self).wf(),
    {
        let ghost before = self@;
        match self.find(output.name.as_str()) {
            Some(i) => {
                self.outputs.set(i, output);
                assert(self@.outputs =~= before.outputs.update(i as int, output@));
            },
            None => {
                self.outputs.push(output);
                assert(self@.outputs =~= before.outputs.push(output@));
            },
        }
    }

    /// The output called `output_name`, if the layout has one.
    pub fn get(&self, output_name: &str) -> (found: Option<&Output>)
        ensures
            match found {
                Some(output) => Some(output@) == self@.output_named(output_name@),
                None => self@.output_named(output_name@) is None,
            },
    {
        match self.find(output_name) {
            Some(i) => {
                Some(&self.outputs[i])
            },
            None => None,
        }
    }

    /// The arguments that set the whole layout up: those of each output, in
    /// the order of the outputs.
    pub fn xrandr_args(&self) -> (args: Vec<String>)
        ensures
            texts(args@) == self@.xrandr_args(),
    {
        let mut args: Vec<String> = Vec::new();
        let mut i: usize = 0;
        assert(texts(args@) =~= all_args(self@.outputs.take(0)));
        while i < self.outputs.len()
            invariant
                i <= self.outputs.len(),
                texts(args@) == all_args(self@.outputs.take(i as int)),
            decreases self.outputs.len() - i,
        {
            let mut more = self.outputs[i].xrandr_args();
            proof {
                let next = self@.outputs.take(i + 1);
                assert(next.drop_last() =~= self@.outputs.take(i as int));
                assert(next.last() == self.outputs[i as int]@);
            }
            let ghost before = args@;
            let ghost added = more@;
            args.append(&mut more);
            assert(texts(args@) =~= texts(before) + texts(added));
            i += 1;
        }
        assert(self@.outputs.take(self.outputs.len() as int) =~= self@.outputs);
        args
    }
}

/// In a layout without repeated names, an output stands at the place of its
/// name.
pub proof fn lemma_place(layout: LayoutView, i: int)
    requires
        layout.distinct(),
        0 <= i < layout.outputs.len(),
    ensures
        layout.has(layout.outputs[i].name),
        layout.first_named(layout.outputs[i].name, i),
        layout.place(layout.outputs[i].name) == i,
        layout.output_named(layout.outputs[i].name) == Some(layout.outputs[i]),
{
    let name = layout.outputs[i].name;
    assert(layout.first_named(name, i));
    let at = layout.place(name);
    assert(layout.first_named(name, at));
}

/// Putting an output into a layout without repeated names leaves no name
/// repeated, makes the output the one of its name, and leaves the outputs of
/// all other names as they were.
pub proof fn lemma_with(layout: LayoutView, output: OutputView)
    requires
        layout.distinct(),
    ensures
        layout.with(output).distinct(),
        layout.with(output).name == layout.name,
        layout.with(output).is_current == layout.is_current,
        layout.with(output).output_named(output.name) == Some(output),
        layout.has(output.name) ==> 0 <= layout.place(output.name) < layout.outputs.len(),
        forall|name: Seq<char>|
            name != output.name ==> #[trigger] layout.with(output).output_named(name)
                == layout.output_named(name),
        forall|name: Seq<char>| #[trigger]
            layout.with(output).has(name) <==> (layout.has(name) || name == output.name),
        forall|i: int|
            0 <= i < layout.with(output).outputs.len() ==> #[trigger] layout.with(
                output,
            ).outputs[i] == output || (0 <= i < layout.outputs.len() && layout.with(
                output,
            ).outputs[i] == layout.outputs[i]),
{
    let after = layout.with(output);
    if layout.has(output.name) {
        let witness = choose|i: int|
            0 <= i < layout.outputs.len() && #[trigger] layout.outputs[i].name == output.name;
        lemma_place(layout, witness);
        let at = layout.place(output.name);
        assert(after.outputs == layout.outputs.update(at, output));
        assert(after.outputs[at].name == output.name);
        assert(after.distinct()) by {
            assert forall|i: int, j: int|
                0 <= i < after.outputs.len() && 0 <= j < after.outputs.len()
                    && #[trigger] after.outputs[i].name == #[trigger] after.outputs[j].name
                implies i == j by {
                assert(after.outputs[i].name == layout.outputs[i].name);
                assert(after.outputs[j].name == layout.outputs[j].name);
            }
        }
        lemma_place(after, at);
        assert forall|name: Seq<char>| #[trigger]
            after.has(name) <==> (layout.has(name) || name == output.name) by {
            if after.has(name) {
                let i = choose|i: int|
                    0 <= i < after.outputs.len() && #[trigger] after.outputs[i].name == name;
                assert(layout.outputs[i].name == name);
            }
            if layout.has(name) {
                let i = choose|i: int|
                    0 <= i < layout.outputs.len() && #[trigger] layout.outputs[i].name == name;
                assert(after.outputs[i].name == name);
            }
        }
        assert forall|name: Seq<char>| name != output.name implies #[trigger] after.output_named(
            name,
        ) == layout.output_named(name) by {
            if layout.has(name) {
                let i = choose|i: int|
                    0 <= i < layout.outputs.len() && #[trigger] layout.outputs[i].name == name;
                lemma_place(layout, i);
                assert(after.outputs[i] == layout.outputs[i]);
                lemma_place(after, i);
            }
        }
    } else {
        assert(after.outputs == layout.outputs.push(output));
        let at = layout.outputs.len() as int;
        assert(after.outputs[at] == output);
        assert(after.distinct()) by {
            assert forall|i: int, j: int|
                0 <= i < after.outputs.len() && 0 <= j < after.outputs.len()
                    && #[trigger] after.outputs[i].name == #[trigger] after.outputs[j].name
                implies i == j by {
                if i < at {
                    assert(after.outputs[i].name == layout.outputs[i].name);
                }
                if j < at {
                    assert(after.outputs[j].name == layout.outputs[j].name);
                }
            }
        }
        lemma_place(after, at);
        assert forall|name: Seq<char>| #[trigger]
            after.has(name) <==> (layout.has(name) || name == output.name) by {
            if after.has(name) {
                let i = choose|i: int|
                    0 <= i < after.outputs.len() && #[trigger] after.outputs[i].name == name;
                if i < at {
                    assert(layout.outputs[i].name == name);
                }
            }
            if layout.has(name) {
                let i = choose|i: int|
                    0 <= i < layout.outputs.len() && #[trigger] layout.outputs[i].name == name;
                assert(after.outputs[i].name == name);
            }
        }
        assert forall|name: Seq<char>| name != output.name implies #[trigger] after.output_named(
            name,
        ) == layout.output_named(name) by {
            if layout.has(name) {
                let i = choose|i: int|
                    0 <= i < layout.outputs.len() && #[trigger] layout.outputs[i].name == name;
                lemma_place(layout, i);
                assert(after.outputs[i] == layout.outputs[i]);
                lemma_place(after, i);
            }
        }
    }
}

/// Putting an output into a layout leaves at most one primary output, where
/// the layout had at most one and has none if the output that comes in is
/// primary itself.
pub proof fn lemma_with_primary(layout: LayoutView, output: OutputView)
    requires
        layout.distinct(),
        layout.at_most_one_primary(),
        output.is_primary ==> forall|i: int|
            0 <= i < layout.outputs.len() ==> !(#[trigger] layout.outputs[i]).is_primary,
    ensures
        layout.with(output).at_most_one_primary(),
{
    lemma_with(layout, output);
    let after = layout.with(output);
    assert forall|i: int, j: int|
        0 <= i < after.outputs.len() && 0 <= j < after.outputs.len()
            && #[trigger] after.outputs[i].is_primary
            && #[trigger] after.outputs[j].is_primary implies i == j by {
        if after.outputs[i] != output {
            assert(layout.outputs[i].is_primary);
        }
        if after.outputs[j] != output {
            assert(layout.outputs[j].is_primary);
        }
        if layout.has(output.name) {
            let at = layout.place(output.name);
            if i != at {
                assert(after.outputs[i] == layout.outputs[i]);
            }
            if j != at {
                assert(after.outputs[j] == layout.outputs[j]);
            }
        } else {
            let at = layout.outputs.len() as int;
            if i != at {
                assert(after.outputs[i] == layout.outputs[i]);
            }
            if j != at {
                assert(after.outputs[j] == layout.outputs[j]);
            }
        }
    }
}

} // verus!
