//! The catalog of named layouts, with the mark of the one that was applied
//! last.

use crate::layout::{Layout, LayoutView};
use crate::text::{chars_of, same_text, texts};
use vstd::prelude::*;

verus! {

/// What follows the name of the current layout where the names are listed.
pub const CHECK_SIGN: &'static str = " ✓";

/// What can go wrong where the catalog is read or written; the reason is
/// carried along.
#[derive(Debug, PartialEq, Eq)]
pub enum Error {
    /// The file could not be read or written.
    Io(String),
    /// What the file holds is no catalog.
    TomlDe(String),
    /// The catalog could not be written down.
    TomlSer(String),
}

impl Clone for Error {
    fn clone(&self) -> (out: Self)
        ensures
            out == *self,
    {
        match self {
            Error::Io(reason) => Error::Io(reason.clone()),
            Error::TomlDe(reason) => Error::TomlDe(reason.clone()),
            Error::TomlSer(reason) => Error::TomlSer(reason.clone()),
        }
    }
}

/// An `Error` with its text as a sequence of characters.
pub enum ErrorView {
    Io(Seq<char>),
    TomlDe(Seq<char>),
    TomlSer(Seq<char>),
}

impl View for Error {
    type V = ErrorView;

    open spec fn view(&self) -> ErrorView {
        match self {
            Error::Io(reason) => ErrorView::Io(reason@),
            Error::TomlDe(reason) => ErrorView::TomlDe(reason@),
            Error::TomlSer(reason) => ErrorView::TomlSer(reason@),
        }
    }
}

impl Error {
    /// The message for the user.
    pub open spec fn message(self) -> Seq<char> {
        match self {
            Error::Io(reason) => "Failed to read config file: "@ + reason@,
            Error::TomlDe(reason) => "Invalid layout config structure: "@ + reason@,
            Error::TomlSer(reason) => "Error serializing layout config: "@ + reason@,
        }
    }

    /// The message for the user.
    pub fn to_string(&self) -> (out: String)
        ensures
            out@ == self.message(),
    {
        match self {
            Error::Io(reason) => {
                let mut out = "Failed to read config file: ".to_owned();
                out.append(reason.as_str());
                out
            },
            Error::TomlDe(reason) => {
                let mut out = "Invalid layout config structure: ".to_owned();
                out.append(reason.as_str());
                out
            },
            Error::TomlSer(reason) => {
                let mut out = "Error serializing layout config: ".to_owned();
                out.append(reason.as_str());
                out
            },
        }
    }
}

/// The layouts of a catalog.
pub type Layouts = Vec<Layout>;

/// `CHECK_SIGN`, character by character.
pub open spec fn check_sign() -> Seq<char> {
    seq![' ', '✓']
}

/// `s` without any `CHECK_SIGN` in it: read from the left, each one found is
/// left out, and reading goes on behind it.
pub open spec fn without_check_sign(s: Seq<char>) -> Seq<char>
    decreases s.len(),
{
    if s.len() == 0 {
        s
    } else if s.len() >= 2 && s[0] == ' ' && s[1] == '✓' {
        without_check_sign(s.skip(2))
    } else {
        seq![s[0]] + without_check_sign(s.skip(1))
    }
}

/// `text` without any `CHECK_SIGN` in it.
pub fn remove_check_sign(text: &str) -> (out: String)
    ensures
        out@ == without_check_sign(text@),
{
    let chars = chars_of(text);
    let mut out = String::new();
    let mut i: usize = 0;
    assert(chars@.skip(0) == chars@);
    while i < chars.len()
        invariant
            i <= chars.len(),
            out@ + without_check_sign(chars@.skip(i as int)) == without_check_sign(chars@),
        decreases chars.len() - i,
    {
        let ghost rest = chars@.skip(i as int);
        if i + 1 < chars.len() && chars[i] == ' ' && chars[i + 1] == '✓' {
            proof {
                assert(rest[0] == ' ' && rest[1] == '✓');
                assert(rest.skip(2) == chars@.skip(i + 2));
            }
            i += 2;
        } else {
            proof {
                assert(rest[0] == chars@[i as int]);
                if rest.len() >= 2 {
                    assert(rest[1] == chars@[i + 1]);
                }
                assert(rest.skip(1) == chars@.skip(i + 1));
                assert(out@.push(chars@[i as int]) + without_check_sign(rest.skip(1)) == out@ + (
                seq![rest[0]] + without_check_sign(rest.skip(1))));
            }
            out.push(chars[i]);
            i += 1;
        }
    }
    assert(out@ + Seq::<char>::empty() == out@);
    out
}

/// A `LayoutConfig` with its texts as sequences of characters.
pub struct ConfigView {
    pub file: Seq<char>,
    pub layouts: Seq<LayoutView>,
}

impl ConfigView {
    /// Whether the first layout of that name stands at `i`.
    pub open spec fn first_named(self, name: Seq<char>, i: int) -> bool {
        &&& 0 <= i < self.layouts.len()
        &&& self.layouts[i].name == name
        &&& forall|j: int| 0 <= j < i ==> (#[trigger] self.layouts[j]).name != name
    }

    /// Whether the catalog has a layout of that name.
    pub open spec fn has(self, name: Seq<char>) -> bool {
        exists|i: int| 0 <= i < self.layouts.len() && #[trigger] self.layouts[i].name == name
    }

    /// Where the first layout of that name stands, for a catalog that has one.
    pub open spec fn place(self, name: Seq<char>) -> int {
        choose|i: int| self.first_named(name, i)
    }

    /// The layout of that name, if the catalog has one.
    pub open spec fn layout_named(self, name: Seq<char>) -> Option<LayoutView> {
        if self.has(name) {
            Some(self.layouts[self.place(name)])
        } else {
            None
        }
    }

    /// No two layouts have the same name.
    pub open spec fn distinct(self) -> bool {
        forall|i: int, j: int|
            0 <= i < self.layouts.len() && 0 <= j < self.layouts.len()
                && #[trigger] self.layouts[i].name == #[trigger] self.layouts[j].name ==> i == j
    }

    /// The catalog with `layout` in it: in the place of the layout of the same
    /// name where there is one, else at the end.
    pub open spec fn with(self, layout: LayoutView) -> ConfigView {
        ConfigView {
            layouts: if self.has(layout.name) {
                self.layouts.update(self.place(layout.name), layout)
            } else {
                self.layouts.push(layout)
            },
            ..self
        }
    }

    /// The catalog without the layout of that name; the catalog itself where
    /// it has none.
    pub open spec fn without(self, name: Seq<char>) -> ConfigView {
        ConfigView {
            layouts: if self.has(name) {
                self.layouts.remove(self.place(name))
            } else {
                self.layouts
            },
            ..self
        }
    }

    /// The catalog in which the layouts of that name, and no others, are
    /// marked as current.
    pub open spec fn with_current(self, name: Seq<char>) -> ConfigView {
        ConfigView {
            layouts: Seq::new(
                self.layouts.len(),
                |i: int|
                    LayoutView { is_current: self.layouts[i].name == name, ..self.layouts[i] },
            ),
            ..self
        }
    }

    /// The names of the layouts in their order, the name of each current one
    /// followed by `CHECK_SIGN`.
    pub open spec fn layout_names(self) -> Seq<Seq<char>> {
        Seq::new(
            self.layouts.len(),
            |i: int|
                if self.layouts[i].is_current {
                    self.layouts[i].name + check_sign()
                } else {
                    self.layouts[i].name
                },
        )
    }
}

/// The views of a list of layouts, element by element.
pub open spec fn layout_views(layouts: Seq<Layout>) -> Seq<LayoutView> {
    Seq::new(layouts.len(), |i: int| layouts[i]@)
}

/// The catalog of layouts, at most one under each name, in the order in which
/// their names came in, and the place where it is kept.
#[derive(Debug, PartialEq, Eq)]
pub struct LayoutConfig {
    pub file: String,
    pub layouts: Layouts,
}

impl Clone for LayoutConfig {
    fn clone(&self) -> (out: Self)
        ensures
            out@ == self@,
    {
        let mut layouts: Vec<Layout> = Vec::new();
        let mut i: usize = 0;
        while i < self.layouts.len()
            invariant
                i <= self.layouts.len(),
                layouts.len() == i,
                forall|j: int| 0 <= j < i ==> layouts[j]@ == self.layouts[j]@,
            decreases self.layouts.len() - i,
        {
            layouts.push(self.layouts[i].clone());
            i += 1;
        }
        let out = LayoutConfig { file: self.file.clone(), layouts };
        assert(out@.layouts =~= self@.layouts);
        out
    }
}

impl View for LayoutConfig {
    type V = ConfigView;

    open spec fn view(&self) -> ConfigView {
        ConfigView { file: self.file@, layouts: layout_views(self.layouts@) }
    }
}

impl LayoutConfig {
    /// No two layouts have the same name: every catalog that `new`, `add`,
    /// `remove` and `apply` make is so.
    pub open spec fn wf(&self) -> bool {
        self@.distinct()
    }

    /// An empty catalog that is kept at `config_path`.
    pub fn new(config_path: &str) -> (out: LayoutConfig)
        ensures
            out@ == (ConfigView { file: config_path@, layouts: Seq::empty() }),
            out.wf(),
    {
        let out = LayoutConfig { file: config_path.to_owned(), layouts: Vec::new() };
        assert(out@.layouts =~= Seq::<LayoutView>::empty());
        out
    }

    /// Where the layout called `layout_name` stands, if there is one.
    pub fn find(&self, layout_name: &str) -> (found: Option<usize>)
        ensures
            match found {
                Some(i) => self@.has(layout_name@) && self@.place(layout_name@) == i
                    && self@.first_named(layout_name@, i as int),
                None => !self@.has(layout_name@),
            },
    {
        let mut i: usize = 0;
        while i < self.layouts.len()
            invariant
                i <= self.layouts.len(),
                forall|j: int| 0 <= j < i ==> self@.layouts[j].name != layout_name@,
            decreases self.layouts.len() - i,
        {
            if same_text(self.layouts[i].name.as_str(), layout_name) {
                assert(self@.first_named(layout_name@, i as int));
                return Some(i);
            }
            i += 1;
        }
        None
    }

    /// The layout called `layout_name`, if the catalog has one.
    pub fn get(&self, layout_name: &str) -> (found: Option<&Layout>)
        ensures
            match found {
                Some(layout) => Some(layout@) == self@.layout_named(layout_name@),
                None => self@.layout_named(layout_name@) is None,
            },
    {
        match self.find(layout_name) {
            Some(i) => Some(&self.layouts[i]),
            None => None,
        }
    }

    /// The names of the layouts in their order, the name of each current one
    /// followed by `CHECK_SIGN`.
    pub fn layout_names(&self) -> (names: Vec<String>)
        ensures
            texts(names@) == self@.layout_names(),
    {
        let mut names: Vec<String> = Vec::new();
        let mut i: usize = 0;
        while i < self.layouts.len()
            invariant
                i <= self.layouts.len(),
                names@.len() == i,
                forall|j: int| 0 <= j < i ==> names@[j]@ == self@.layout_names()[j],
            decreases self.layouts.len() - i,
        {
            let mut name = self.layouts[i].name.clone();
            if self.layouts[i].is_current {
                proof {
                    reveal_strlit(" ✓");
                    assert(CHECK_SIGN@ =~= check_sign());
                }
                name.append(CHECK_SIGN);
            }
            names.push(name);
            i += 1;
        }
        assert(texts(names@) =~= self@.layout_names());
        names
    }

    /// Whether the catalog has no layouts.
    pub fn is_empty(&self) -> (empty: bool)
        ensures
            empty == (self@.layouts.len() == 0),
    {
        self.layouts.is_empty()
    }

    /// The arguments for the display tool that set up the layout called
    /// `layout_name`; none where the catalog has no such layout, and then
    /// nothing is to be done.
    pub fn xrandr_args(&self, layout_name: &str) -> (args: Option<Vec<String>>)
        ensures
            match args {
                Some(args) => self@.layout_named(layout_name@) matches Some(layout) && texts(args@)
                    == layout.xrandr_args(),
                None => !self@.has(layout_name@),
            },
    {
        match self.get(layout_name) {
            Some(layout) => Some(layout.xrandr_args()),
            None => None,
        }
    }

    /// Takes note of how applying the layout called `layout_name` went. Where
    /// the catalog has that layout and the display tool succeeded with
    /// `xrandr_args`, that layout and no other is marked as current, and the
    /// result is `true`: the catalog has to be saved. Else nothing changes.
    pub fn apply(&mut self, layout_name: &str, succeeded: bool) -> (marked: bool)
        ensures
            marked == (succeeded && old(self)@.has(layout_name@)),
            final(self)@ == if marked {
                old(self)@.with_current(layout_name@)
            } else {
                old(self)@
            },
            old(self).wf() ==> final(self).wf(),
    {
        if !succeeded {
            return false;
        }
        match self.find(layout_name) {
            Some(_) => {
                self.mark_layout_as_current(layout_name);
                true
            },
            None => false,
        }
    }

    /// Marks the layouts called `layout_name`, and no others, as current.
    pub fn mark_layout_as_current(&mut self, layout_name: &str)
        ensures
            final(self)@ == old(self)@.with_current(layout_name@),
            old(self).wf() ==> final(self).wf(),
    {
        let ghost before = self@;
        let mut i: usize = 0;
        while i < self.layouts.len()
            invariant
                i <= self.layouts.len(),
                self@.file == before.file,
                self@.layouts.len() == before.layouts.len(),
                forall|j: int|
                    0 <= j < i ==> self@.layouts[j] == before.with_current(
                        layout_name@,
                    ).layouts[j],
                forall|j: int|
                    i <= j < self.layouts.len() ==> self@.layouts[j] == before.layouts[j],
            decreases self.layouts.len() - i,
        {
            let current = same_text(self.layouts[i].name.as_str(), layout_name);
            let mut layout = self.layouts[i].clone();
            layout.is_current = current;
            let ghost marked = layout@;
            let ghost earlier = self@.layouts;
            self.layouts.set(i, layout);
            proof {
                assert(self@.layouts =~= earlier.update(i as int, marked));
                assert(marked == before.with_current(layout_name@).layouts[i as int]);
            }
            i += 1;
        }
        assert(self@.layouts =~= before.with_current(layout_name@).layouts);
    }

    /// Takes the layout called `layout_name` out of the catalog, if it is
    /// there.
    pub fn remove(&mut self, layout_name: &str)
        ensures
            final(self)@ == old(self)@.without(layout_name@),
            old(self).wf() ==> final(self).wf(),
    {
        let ghost before = self@;
        match self.find(layout_name) {
            Some(i) => {
                self.layouts.remove(i);
                assert(self@.layouts =~= before.layouts.remove(i as int));
            },
            None => {},
        }
    }

    /// Puts a copy of `layout` into the catalog: in the place of the layout of
    /// the same name where there is one, else at the end.
    pub fn add(&mut self, layout: &Layout)
        ensures
            final(self)@ == old(self)@.with(layout@),
            old(self).wf() ==> final(self).wf(),
    {
        let ghost before = self@;
        match self.find(layout.name.as_str()) {
            Some(i) => {
                self.layouts.set(i, layout.clone());
                assert(self@.layouts =~= before.layouts.update(i as int, layout@));
            },
            None => {
                self.layouts.push(layout.clone());
                assert(self@.layouts =~= before.layouts.push(layout@));
            },
        }
    }
}

/// After a layout is marked as current in a catalog in which no name stands
/// twice, that layout and no other is current, and nothing else has changed.
pub proof fn lemma_with_current(config: ConfigView, name: Seq<char>)
    requires
        config.distinct(),
    ensures
        config.with_current(name).distinct(),
        config.with_current(name).layout_names().len() == config.layouts.len(),
        forall|i: int|
            0 <= i < config.layouts.len() ==> (#[trigger] config.with_current(name).layouts[i])
                == (LayoutView { is_current: config.layouts[i].name == name, ..config.layouts[i] }),
        forall|i: int, j: int|
            0 <= i < config.layouts.len() && 0 <= j < config.layouts.len()
                && (#[trigger] config.with_current(name).layouts[i]).is_current
                && (#[trigger] config.with_current(name).layouts[j]).is_current ==> i == j,
{
    let after = config.with_current(name);
    assert forall|i: int, j: int|
        0 <= i < after.layouts.len() && 0 <= j < after.layouts.len()
            && #[trigger] after.layouts[i].name == #[trigger] after.layouts[j].name implies i
        == j by {
        assert(config.layouts[i].name == config.layouts[j].name);
    }
    assert forall|i: int, j: int|
        0 <= i < config.layouts.len() && 0 <= j < config.layouts.len()
            && (#[trigger] after.layouts[i]).is_current
            && (#[trigger] after.layouts[j]).is_current implies i == j by {
        assert(config.layouts[i].name == config.layouts[j].name);
    }
}

/// In a catalog in which no name stands twice, a layout stands at the place
/// of its name.
pub proof fn lemma_place(config: ConfigView, i: int)
    requires
        config.distinct(),
        0 <= i < config.layouts.len(),
    ensures
        config.has(config.layouts[i].name),
        config.place(config.layouts[i].name) == i,
        config.layout_named(config.layouts[i].name) == Some(config.layouts[i]),
{
    let name = config.layouts[i].name;
    assert(config.first_named(name, i));
    let at = config.place(name);
    assert(config.first_named(name, at));
}

/// Putting a layout into a catalog in which no name stands twice leaves no
/// name standing twice, makes the layout the one of its name, and leaves the
/// layouts of all other names as they were.
pub proof fn lemma_with(config: ConfigView, layout: LayoutView)
    requires
        config.distinct(),
    ensures
        config.with(layout).distinct(),
        config.with(layout).layout_named(layout.name) == Some(layout),
        forall|name: Seq<char>|
            name != layout.name ==> #[trigger] config.with(layout).layout_named(name)
                == config.layout_named(name),
{
    let after = config.with(layout);
    if config.has(layout.name) {
        let witness = choose|i: int|
            0 <= i < config.layouts.len() && #[trigger] config.layouts[i].name == layout.name;
        lemma_place(config, witness);
        let at = config.place(layout.name);
        assert(after.layouts == config.layouts.update(at, layout));
        assert(after.distinct()) by {
            assert forall|i: int, j: int|
                0 <= i < after.layouts.len() && 0 <= j < after.layouts.len()
                    && #[trigger] after.layouts[i].name == #[trigger] after.layouts[j].name
                implies i == j by {
                assert(after.layouts[i].name == config.layouts[i].name);
                assert(after.layouts[j].name == config.layouts[j].name);
            }
        }
        lemma_place(after, at);
        assert forall|name: Seq<char>| name != layout.name implies #[trigger] after.layout_named(
            name,
        ) == config.layout_named(name) by {
            if config.has(name) {
                let i = choose|i: int|
                    0 <= i < config.layouts.len() && #[trigger] config.layouts[i].name == name;
                lemma_place(config, i);
                assert(after.layouts[i] == config.layouts[i]);
                lemma_place(after, i);
            } else if after.has(name) {
                let i = choose|i: int|
                    0 <= i < after.layouts.len() && #[trigger] after.layouts[i].name == name;
                assert(config.layouts[i].name == name);
            }
        }
    } else {
        assert(after.layouts == config.layouts.push(layout));
        let at = config.layouts.len() as int;
        assert(after.distinct()) by {
            assert forall|i: int, j: int|
                0 <= i < after.layouts.len() && 0 <= j < after.layouts.len()
                    && #[trigger] after.layouts[i].name == #[trigger] after.layouts[j].name
                implies i == j by {
                if i < at {
                    assert(after.layouts[i].name == config.layouts[i].name);
                }
                if j < at {
                    assert(after.layouts[j].name == config.layouts[j].name);
                }
            }
        }
        lemma_place(after, at);
        assert forall|name: Seq<char>| name != layout.name implies #[trigger] after.layout_named(
            name,
        ) == config.layout_named(name) by {
            if config.has(name) {
                let i = choose|i: int|
                    0 <= i < config.layouts.len() && #[trigger] config.layouts[i].name == name;
                lemma_place(config, i);
                assert(after.layouts[i] == config.layouts[i]);
                lemma_place(after, i);
            } else if after.has(name) {
                let i = choose|i: int|
                    0 <= i < after.layouts.len() && #[trigger] after.layouts[i].name == name;
                assert(config.layouts[i].name == name);
            }
        }
    }
}

/// Taking a layout out of a catalog in which no name stands twice leaves no
/// name standing twice, leaves no layout of that name, and leaves the layouts
/// of all other names as they were.
pub proof fn lemma_without(config: ConfigView, name: Seq<char>)
    requires
        config.distinct(),
    ensures
        config.without(name).distinct(),
        !config.without(name).has(name),
        forall|other: Seq<char>|
            other != name ==> #[trigger] config.without(name).layout_named(other)
                == config.layout_named(other),
{
    let after = config.without(name);
    if config.has(name) {
        let witness = choose|i: int|
            0 <= i < config.layouts.len() && #[trigger] config.layouts[i].name == name;
        lemma_place(config, witness);
        let at = config.place(name);
        assert(after.layouts == config.layouts.remove(at));
        assert forall|i: int| 0 <= i < after.layouts.len() implies #[trigger] after.layouts[i]
            == config.layouts[if i < at {
            i
        } else {
            i + 1
        }] by {}
        assert(after.distinct()) by {
            assert forall|i: int, j: int|
                0 <= i < after.layouts.len() && 0 <= j < after.layouts.len()
                    && #[trigger] after.layouts[i].name == #[trigger] after.layouts[j].name
                implies i == j by {
                let a = if i < at {
                    i
                } else {
                    i + 1
                };
                let b = if j < at {
                    j
                } else {
                    j + 1
                };
                assert(config.layouts[a].name == config.layouts[b].name);
            }
        }
        assert(!after.has(name)) by {
            if after.has(name) {
                let i = choose|i: int|
                    0 <= i < after.layouts.len() && #[trigger] after.layouts[i].name == name;
                let a = if i < at {
                    i
                } else {
                    i + 1
                };
                assert(config.layouts[a].name == config.layouts[at].name);
            }
        }
        assert forall|other: Seq<char>| other != name implies #[trigger] after.layout_named(
            other,
        ) == config.layout_named(other) by {
            if config.has(other) {
                let i = choose|i: int|
                    0 <= i < config.layouts.len() && #[trigger] config.layouts[i].name == other;
                lemma_place(config, i);
                let a = if i < at {
                    i
                } else {
                    i - 1
                };
                assert(after.layouts[a] == config.layouts[i]);
                lemma_place(after, a);
            } else if after.has(other) {
                let i = choose|i: int|
                    0 <= i < after.layouts.len() && #[trigger] after.layouts[i].name == other;
                let a = if i < at {
                    i
                } else {
                    i + 1
                };
                assert(config.layouts[a].name == other);
            }
        }
    }
}

} // verus!
