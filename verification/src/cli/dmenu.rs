//! The menu that puts a question to the user: what it is asked, and what an
//! answer is worth.

use crate::cli::cmd::{Cmd, CmdResult, Error, ErrorView};
use crate::text::{contains_text, copy_texts, join, joined, texts};
use vstd::prelude::*;

verus! {

/// The menu program.
#[derive(Debug, PartialEq, Eq)]
pub struct Dmenu {
    pub cmd: Cmd,
}

impl Clone for Dmenu {
    fn clone(&self) -> (out: Self)
        ensures
            out.cmd.bin_path@ == self.cmd.bin_path@,
            texts(out.cmd.args@) == texts(self.cmd.args@),
    {
        Dmenu { cmd: self.cmd.clone() }
    }
}

impl Dmenu {
    /// The arguments with which the menu is called where none are given: five
    /// lines, one column, and the question as the prompt.
    pub open spec fn default_args() -> Seq<Seq<char>> {
        seq!["-l 5"@, "-g 1"@, "-p"@]
    }

    /// The menu at `bin_path`, called with `args`; with `default_args` where
    /// none are given.
    pub fn new(bin_path: String, args: Option<&[String]>) -> (out: Dmenu)
        ensures
            out.cmd.bin_path@ == bin_path@,
            texts(out.cmd.args@) == match args {
                Some(args) => texts(args@),
                None => Dmenu::default_args(),
            },
    {
        match args {
            Some(args) => Dmenu { cmd: Cmd::new(bin_path, args) },
            None => {
                let mut args: Vec<String> = Vec::new();
                args.push("-l 5".to_owned());
                args.push("-g 1".to_owned());
                args.push("-p".to_owned());
                assert(texts(args@) =~= Dmenu::default_args());
                Dmenu { cmd: Cmd { bin_path, args } }
            },
        }
    }

    /// The command line that puts `message` to the user: the choices, one to
    /// a line, are written to the menu, and the question is its last argument.
    pub open spec fn command(&self, message: &Message) -> Seq<char> {
        "printf \""@ + joined(texts(message.prompt@), "\n"@) + "\" | "@ + self.cmd.line() + " \""@
            + message.content@ + "\""@
    }

    /// The command line that puts `message` to the user.
    pub fn to_cmd(&self, message: &Message) -> (out: String)
        ensures
            out@ == self.command(message),
    {
        let mut out = "printf \"".to_owned();
        let choices = join(&message.prompt, "\n");
        out.append(choices.as_str());
        out.append("\" | ");
        let cmd = self.cmd.to_string();
        out.append(cmd.as_str());
        out.append(" \"");
        out.append(message.content.as_str());
        out.append("\"");
        out
    }
}

/// A question for the menu: the choices it offers, in `prompt`, and the
/// question in words, in `content`.
#[derive(Debug, PartialEq, Eq)]
pub struct Message {
    pub prompt: Vec<String>,
    pub content: String,
}

impl Clone for Message {
    fn clone(&self) -> (out: Self)
        ensures
            out@ == self@,
    {
        Message { prompt: copy_texts(&self.prompt), content: self.content.clone() }
    }
}

/// A `Message` with its texts as sequences of characters.
pub struct MessageView {
    pub prompt: Seq<Seq<char>>,
    pub content: Seq<char>,
}

impl View for Message {
    type V = MessageView;

    open spec fn view(&self) -> MessageView {
        MessageView { prompt: texts(self.prompt@), content: self.content@ }
    }
}

impl Message {
    /// The question `content` with the choices `prompt`.
    pub fn new(prompt: &[String], content: &str) -> (out: Message)
        ensures
            texts(out.prompt@) == texts(prompt@),
            out.content@ == content@,
    {
        let mut choices: Vec<String> = Vec::new();
        let mut i: usize = 0;
        while i < prompt.len()
            invariant
                i <= prompt.len(),
                choices.len() == i,
                forall|j: int| 0 <= j < i ==> choices[j]@ == prompt[j]@,
            decreases prompt.len() - i,
        {
            choices.push(prompt[i].clone());
            i += 1;
        }
        assert(texts(choices@) =~= texts(prompt@));
        Message { prompt: choices, content: content.to_owned() }
    }

    /// Whether `choice` is one of the choices.
    pub fn contains(&self, choice: &String) -> (found: bool)
        ensures
            found == texts(self.prompt@).contains(choice@),
    {
        contains_text(&self.prompt, choice.as_str())
    }
}

/// A result of a command with its texts as sequences of characters.
pub open spec fn result_view(output: CmdResult<String>) -> Result<Seq<char>, ErrorView> {
    match output {
        Ok(text) => Ok(text@),
        Err(error) => Err(error@),
    }
}

/// What the answer `output` to a question with the choices `choices` is
/// worth: an answer counts if it is one of the choices, or if any answer will
/// do because `validate_output` is off; else it is `InvalidOutput`, and the
/// question is to be asked again. A menu that failed has failed;
/// `EmptyOutput` among the failures means that the user gave up.
pub open spec fn judged(
    choices: Seq<Seq<char>>,
    output: Result<Seq<char>, ErrorView>,
    validate_output: bool,
) -> Result<Seq<char>, ErrorView> {
    match output {
        Ok(answer) => if !validate_output || choices.contains(answer) {
            Ok(answer)
        } else {
            Err(ErrorView::InvalidOutput)
        },
        Err(error) => Err(error),
    }
}

/// Judges the answer `output` of the menu to `message`.
pub fn judge(message: &Message, output: CmdResult<String>, validate_output: bool) -> (out:
    CmdResult<String>)
    ensures
        result_view(out) == judged(message@.prompt, result_view(output), validate_output),
{
    match output {
        Ok(answer) => {
            if !validate_output || message.contains(&answer) {
                Ok(answer)
            } else {
                Err(Error::InvalidOutput)
            }
        },
        Err(error) => Err(error),
    }
}

} // verus!
