//! The display tool: the command lines that question it and that make it set
//! a layout up, and the reading of what it lists.

use crate::cli::cmd::Cmd;
use crate::modes::{group, modes_in, OutputModes};
use crate::pattern::{groups, search, search_result};
use crate::screen::{Error, ErrorView};
use crate::text::{
    chars_of, find_char, first_at, first_word, join, joined, same_text, skip_space, skip_word,
    text_of, texts,
};
use crate::builder::{screen_views, Screen};
use crate::wizard::{names_of, ScreenView};
use vstd::prelude::*;

verus! {

/// The pattern of what the listing of modes holds for one connected output:
/// the line that names it, then the lines of its modes, at least one.
pub const SCREEN_BLOCK: &'static str =
    "(.+) connected\n(?:[\\da-zA-Z]+x[\\da-zA-Z]+ [\\da-zA-Z]+\\.[\\da-zA-Z]+\n)+";

/// The filters behind the display tool that leave of its listing, for each
/// connected output, the line that names it and the lines of its modes.
pub const MODES_FILTER: &'static str =
    " | grep -Ev \"disconnected|Screen\" | awk '{print $1, $2}' | awk -F'[/+* ]' '{print $1\" \"$2}'";

/// The filter that leaves the lines of the connected outputs.
pub const CONNECTED_FILTER: &'static str = " | grep \" connected\"";

/// The filter that leaves the lines of the disconnected outputs.
pub const DISCONNECTED_FILTER: &'static str = " | grep \" disconnected\"";

/// The display tool.
#[derive(Debug, PartialEq, Eq)]
pub struct Xrandr {
    pub cmd: Cmd,
}

impl Clone for Xrandr {
    fn clone(&self) -> (out: Self)
        ensures
            out.cmd.bin_path@ == self.cmd.bin_path@,
            texts(out.cmd.args@) == texts(self.cmd.args@),
    {
        Xrandr { cmd: self.cmd.clone() }
    }
}

impl Xrandr {
    /// The display tool at `bin_path`, called with `args` each time; with no
    /// arguments where none are given.
    pub fn new(bin_path: String, args: Option<&[String]>) -> (out: Xrandr)
        ensures
            out.cmd.bin_path@ == bin_path@,
            texts(out.cmd.args@) == match args {
                Some(args) => texts(args@),
                None => Seq::empty(),
            },
    {
        match args {
            Some(args) => Xrandr { cmd: Cmd::new(bin_path, args) },
            None => {
                let cmd = Cmd { bin_path, args: Vec::new() };
                assert(texts(cmd.args@) =~= Seq::<Seq<char>>::empty());
                Xrandr { cmd }
            },
        }
    }

    /// The command line that lists, for each connected output, its name and
    /// its modes.
    pub fn modes_command(&self) -> (out: String)
        ensures
            out@ == self.cmd.line() + MODES_FILTER@,
    {
        let mut out = self.cmd.to_string();
        out.append(MODES_FILTER);
        out
    }

    /// The command line that lists the connected outputs.
    pub fn connected_command(&self) -> (out: String)
        ensures
            out@ == self.cmd.line() + CONNECTED_FILTER@,
    {
        let mut out = self.cmd.to_string();
        out.append(CONNECTED_FILTER);
        out
    }

    /// The command line that lists the disconnected outputs.
    pub fn disconnected_command(&self) -> (out: String)
        ensures
            out@ == self.cmd.line() + DISCONNECTED_FILTER@,
    {
        let mut out = self.cmd.to_string();
        out.append(DISCONNECTED_FILTER);
        out
    }

    /// The command line that makes the display tool apply `args`: the tool, a
    /// blank, and the arguments with a blank between each two.
    pub fn command_with_args(&self, args: &Vec<String>) -> (out: String)
        ensures
            out@ == self.cmd.line() + " "@ + joined(texts(args@), " "@),
    {
        let mut out = self.cmd.to_string();
        out.append(" ");
        let args = join(args, " ");
        out.append(args.as_str());
        out
    }
}

/// The first word of `line`, if it has one: the name of the output that the
/// line is about.
pub fn parse_screen_output(line: &str) -> (out: Option<String>)
    ensures
        crate::text::text_if(out) == first_word(line@),
{
    let chars = chars_of(line);
    assert(chars@.subrange(0, chars.len() as int) == chars@);
    let from = skip_space(&chars, 0, chars.len());
    if from == chars.len() {
        return None;
    }
    let to = skip_word(&chars, from, chars.len());
    let ghost rest = chars@.subrange(from as int, chars.len() as int);
    assert(rest.take(to - from) == chars@.subrange(from as int, to as int));
    Some(text_of(&chars, from, to))
}

/// The first word of each line of `s` that has one, the lines being what
/// stands between two line feeds.
pub open spec fn first_words(s: Seq<char>) -> Seq<Seq<char>>
    decreases s.len(),
{
    let end = first_at(s, '\n');
    let head = match first_word(s.take(end)) {
        Some(word) => seq![word],
        None => Seq::empty(),
    };
    if 0 <= end < s.len() {
        head + first_words(s.skip(end + 1))
    } else {
        head
    }
}

/// How many lines `s` has: one more than it has line feeds.
pub open spec fn line_count(s: Seq<char>) -> nat
    decreases s.len(),
{
    let end = first_at(s, '\n');
    if 0 <= end < s.len() {
        1 + line_count(s.skip(end + 1))
    } else {
        1
    }
}

/// The names of the outputs that `listing` lists, one to a line: the first
/// word of each line.
pub fn list_outputs(listing: &str) -> (out: Vec<String>)
    ensures
        texts(out@) == first_words(listing@),
{
    let chars = chars_of(listing);
    let mut out: Vec<String> = Vec::new();
    let mut from: usize = 0;
    let mut done = false;
    assert(chars@.skip(0) == chars@);
    assert(texts(out@) + first_words(chars@) =~= first_words(chars@));
    while !done
        invariant
            from <= chars.len(),
            !done ==> texts(out@) + first_words(chars@.skip(from as int)) == first_words(chars@),
            done ==> texts(out@) == first_words(chars@),
        decreases chars.len() - from + if done { 0int } else { 1int },
    {
        let end = find_char(&chars, from, '\n');
        let ghost rest = chars@.skip(from as int);
        let ghost before = texts(out@);
        proof {
            assert(rest == chars@.subrange(from as int, chars.len() as int));
            assert(rest.take(end - from) == chars@.subrange(from as int, end as int));
        }
        let start = skip_space(&chars, from, end);
        if start < end {
            let stop = skip_word(&chars, start, end);
            let ghost tail = chars@.subrange(start as int, end as int);
            assert(tail.take(stop - start) == chars@.subrange(start as int, stop as int));
            out.push(text_of(&chars, start, stop));
            assert(texts(out@) =~= before + seq![tail.take(stop - start)]);
        }
        if end >= chars.len() {
            done = true;
            assert(texts(out@) =~= before + first_words(rest));
        } else {
            proof {
                assert(rest.skip(end - from + 1) == chars@.skip(end + 1));
                assert(texts(out@) + first_words(chars@.skip(end + 1)) =~= before + first_words(
                    rest,
                ));
            }
            from = end + 1;
        }
    }
    out
}

/// How many lines `listing` has, one to an output. The count must fit: the
/// listing is shorter than the greatest number.
pub fn count_outputs(listing: &str) -> (count: usize)
    requires
        listing@.len() < usize::MAX,
    ensures
        count == line_count(listing@),
{
    let chars = chars_of(listing);
    let mut count: usize = 1;
    let mut from: usize = 0;
    assert(chars@.skip(0) == chars@);
    loop
        invariant
            chars@ == listing@,
            from <= chars.len() < usize::MAX,
            1 <= count <= from + 1,
            count - 1 + line_count(chars@.skip(from as int)) == line_count(chars@),
        decreases chars.len() - from,
    {
        let end = find_char(&chars, from, '\n');
        let ghost rest = chars@.skip(from as int);
        assert(rest == chars@.subrange(from as int, chars.len() as int));
        if end >= chars.len() {
            return count;
        }
        assert(rest.skip(end - from + 1) == chars@.skip(end + 1));
        count += 1;
        from = end + 1;
    }
}

/// Whether the first screen of that name stands at `i`.
pub open spec fn first_screen(list: Seq<ScreenView>, name: Seq<char>, i: int) -> bool {
    &&& 0 <= i < list.len()
    &&& list[i].name == name
    &&& forall|j: int| 0 <= j < i ==> (#[trigger] list[j]).name != name
}

/// `list` with `screen` in it: in the place of the first screen of the same
/// name where there is one, else at the end.
pub open spec fn with_screen(list: Seq<ScreenView>, screen: ScreenView) -> Seq<ScreenView> {
    if exists|i: int| first_screen(list, screen.name, i) {
        list.update(choose|i: int| first_screen(list, screen.name, i), screen)
    } else {
        list.push(screen)
    }
}

/// The screen that one match of `SCREEN_BLOCK` gives: its first group is the
/// name, and the whole match is the listing of the modes.
pub open spec fn screen_of(block: Seq<Seq<char>>) -> Result<ScreenView, ErrorView> {
    match modes_in(group(block, 0)) {
        Err(error) => Err(error),
        Ok(modes) => Ok(
            ScreenView {
                name: group(block, 1),
                resolutions: modes.resolutions,
                rates: modes.rates,
            },
        ),
    }
}

/// The screens that the matches `blocks` give, one to a name, a later match
/// taking the place of an earlier one of the same name; the error of the
/// first match that gives no screen.
pub open spec fn catalog_of(blocks: Seq<Seq<Seq<char>>>) -> Result<Seq<ScreenView>, ErrorView>
    decreases blocks.len(),
{
    if blocks.len() == 0 {
        Ok(Seq::empty())
    } else {
        match catalog_of(blocks.drop_last()) {
            Err(error) => Err(error),
            Ok(list) => match screen_of(blocks.last()) {
                Err(error) => Err(error),
                Ok(screen) => Ok(with_screen(list, screen)),
            },
        }
    }
}

/// The screens that `listing` lists, where `listing` is what
/// `modes_command` writes: each stretch that matches `SCREEN_BLOCK` gives one.
pub open spec fn catalog_in(listing: Seq<char>) -> Result<Seq<ScreenView>, ErrorView> {
    match search_result(SCREEN_BLOCK@, listing) {
        Ok(blocks) => catalog_of(blocks),
        Err(error) => Err(error),
    }
}

/// Reads the screens that the matches `blocks` give, each the list of its
/// groups: the whole match, then the name of the output.
pub fn screens_from_captures(blocks: &Vec<Vec<String>>) -> (out: Result<Vec<Screen>, Error>)
    ensures
        match out {
            Ok(screens) => catalog_of(groups(blocks@)) == Ok::<Seq<ScreenView>, ErrorView>(
                screen_views(screens@),
            ) && names_of(screen_views(screens@)).no_duplicates(),
            Err(error) => catalog_of(groups(blocks@)) == Err::<Seq<ScreenView>, ErrorView>(
                error@,
            ),
        },
{
    let ghost all = groups(blocks@);
    let mut screens: Vec<Screen> = Vec::new();
    let empty = String::new();
    let mut i: usize = 0;
    assert(all.take(0) =~= Seq::<Seq<Seq<char>>>::empty());
    assert(screen_views(screens@) =~= Seq::<ScreenView>::empty());
    while i < blocks.len()
        invariant
            i <= blocks.len(),
            all == groups(blocks@),
            empty@ == Seq::<char>::empty(),
            catalog_of(all.take(i as int)) == Ok::<Seq<ScreenView>, ErrorView>(
                screen_views(screens@),
            ),
        decreases blocks.len() - i,
    {
        let block = &blocks[i];
        proof {
            assert(all.take(i + 1).drop_last() =~= all.take(i as int));
            assert(all.take(i + 1).last() == texts(block@));
        }
        let whole = if 0 < block.len() {
            &block[0]
        } else {
            &empty
        };
        let name = if 1 < block.len() {
            &block[1]
        } else {
            &empty
        };
        let modes = match OutputModes::from_str(whole.as_str()) {
            Ok(modes) => modes,
            Err(error) => {
                proof {
                    lemma_catalog_error(all, i as int);
                }
                return Err(error);
            },
        };
        let screen = Screen { name: name.clone(), modes };
        put_screen(&mut screens, screen);
        i += 1;
    }
    assert(all.take(blocks.len() as int) =~= all);
    proof {
        lemma_catalog_of(all);
    }
    Ok(screens)
}

/// An error among the first matches is the error of all of them.
proof fn lemma_catalog_error(blocks: Seq<Seq<Seq<char>>>, i: int)
    requires
        0 <= i < blocks.len(),
        catalog_of(blocks.take(i + 1)) is Err,
    ensures
        catalog_of(blocks) == catalog_of(blocks.take(i + 1)),
    decreases blocks.len(),
{
    if i + 1 == blocks.len() {
        assert(blocks.take(i + 1) =~= blocks);
    } else {
        let head = blocks.drop_last();
        assert(head.take(i + 1) =~= blocks.take(i + 1));
        lemma_catalog_error(head, i);
    }
}

/// Where a screen of a name stands in a list, there is a first such screen.
proof fn lemma_first_screen(list: Seq<ScreenView>, name: Seq<char>, k: int)
    requires
        0 <= k < list.len(),
        list[k].name == name,
    ensures
        exists|i: int| first_screen(list, name, i),
    decreases k,
{
    if exists|j: int| 0 <= j < k && list[j].name == name {
        let j = choose|j: int| 0 <= j < k && list[j].name == name;
        lemma_first_screen(list, name, j);
    } else {
        assert(first_screen(list, name, k));
    }
}

/// Putting a screen into a list in which no name stands twice leaves no name
/// standing twice.
pub proof fn lemma_with_screen(list: Seq<ScreenView>, screen: ScreenView)
    requires
        names_of(list).no_duplicates(),
    ensures
        names_of(with_screen(list, screen)).no_duplicates(),
{
    let after = with_screen(list, screen);
    if exists|i: int| first_screen(list, screen.name, i) {
        let at = choose|i: int| first_screen(list, screen.name, i);
        assert(names_of(after) =~= names_of(list));
    } else {
        assert forall|i: int, j: int|
            0 <= i < names_of(after).len() && 0 <= j < names_of(after).len() && i
                != j implies names_of(after)[i] != names_of(after)[j] by {
            if i < list.len() && j < list.len() {
                assert(names_of(list)[i] != names_of(list)[j]);
            } else if i < list.len() {
                if list[i].name == screen.name {
                    lemma_first_screen(list, screen.name, i);
                }
            } else if j < list.len() {
                if list[j].name == screen.name {
                    lemma_first_screen(list, screen.name, j);
                }
            }
        }
    }
}

/// No name stands twice among the screens that matches give.
pub proof fn lemma_catalog_of(blocks: Seq<Seq<Seq<char>>>)
    ensures
        catalog_of(blocks) matches Ok(list) ==> names_of(list).no_duplicates(),
    decreases blocks.len(),
{
    if blocks.len() > 0 {
        lemma_catalog_of(blocks.drop_last());
        match catalog_of(blocks.drop_last()) {
            Ok(list) => match screen_of(blocks.last()) {
                Ok(screen) => {
                    lemma_with_screen(list, screen);
                },
                Err(_) => {},
            },
            Err(_) => {},
        }
    }
}

/// Puts `screen` into `screens`: in the place of the first screen of the same
/// name where there is one, else at the end.
fn put_screen(screens: &mut Vec<Screen>, screen: Screen)
    ensures
        screen_views(final(screens)@) == with_screen(screen_views(old(screens)@), screen@),
{
    let ghost before = screen_views(screens@);
    let mut i: usize = 0;
    while i < screens.len()
        invariant
            i <= screens.len(),
            before == screen_views(screens@),
            before == screen_views(old(screens)@),
            forall|j: int| 0 <= j < i ==> (#[trigger] before[j]).name != screen@.name,
        decreases screens.len() - i,
    {
        if same_text(screens[i].name.as_str(), screen.name.as_str()) {
            proof {
                assert(before[i as int] == screens[i as int]@);
                assert(first_screen(before, screen@.name, i as int));
                let chosen = choose|k: int| first_screen(before, screen@.name, k);
                assert(first_screen(before, screen@.name, chosen));
                assert(chosen == i);
                assert(with_screen(before, screen@) == before.update(i as int, screen@));
            }
            let ghost view = screen@;
            screens.set(i, screen);
            assert(screen_views(screens@) =~= before.update(i as int, view));
            return;
        }
        proof {
            assert(before[i as int] == screens[i as int]@);
        }
        i += 1;
    }
    proof {
        if exists|k: int| first_screen(before, screen@.name, k) {
            let k = choose|k: int| first_screen(before, screen@.name, k);
            assert(before[k].name != screen@.name);
        }
    }
    let ghost view = screen@;
    screens.push(screen);
    assert(screen_views(screens@) =~= before.push(view));
}

/// Reads the connected outputs and what each supports from `listing`, which
/// is what `Xrandr::modes_command` writes.
pub fn screens_from(listing: &str) -> (out: Result<Vec<Screen>, Error>)
    ensures
        match out {
            Ok(screens) => catalog_in(listing@) == Ok::<Seq<ScreenView>, ErrorView>(
                screen_views(screens@),
            ) && names_of(screen_views(screens@)).no_duplicates(),
            Err(error) => catalog_in(listing@) == Err::<Seq<ScreenView>, ErrorView>(error@),
        },
{
    match search(SCREEN_BLOCK, listing) {
        Ok(blocks) => screens_from_captures(&blocks),
        Err(error) => Err(error),
    }
}

} // verus!
