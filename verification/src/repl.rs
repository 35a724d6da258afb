//! The decisions of the interactive loop: what a line that the user typed
//! means, and what the loop does next. The loop itself, which reads the lines
//! and prints the results, is the caller's.
//!
//! Lines are gathered until one does not end in a backslash; then what has
//! been gathered is evaluated. While nothing has been gathered, a line may be
//! a command: `:q`, `:quit` and `:exit` leave the loop, `:h` and `:help` ask
//! for help, `:bench` asks for the benchmark, and a line that starts with
//! `:save` or `:w` writes to a file, whose name follows the first space.

use crate::text::{
    chars_of, ends_with, has_prefix, has_suffix, is_blank, is_text, push_char, push_text,
    run_back, run_end, run_start, run_to, slice_of, starts_with, text_of, trim, trimmed,
    CharClass,
};
use vstd::prelude::*;

verus! {

/// What the loop does after a line.
#[derive(Debug, Clone, PartialEq)]
pub enum Action {
    /// Leave the loop.
    Quit,
    /// Print the help.
    Help,
    /// Run the benchmark.
    Bench,
    /// Write `content` to the file at `path`, and then leave the loop if
    /// `quit` is set.
    Save { path: String, content: String, quit: bool },
    /// Evaluate the text and print its results.
    Evaluate(String),
    /// Read another line: the statement is not complete.
    More,
}

/// The mathematical value of an [`Action`].
pub enum ActionView {
    Quit,
    Help,
    Bench,
    Save { path: Seq<char>, content: Seq<char>, quit: bool },
    Evaluate(Seq<char>),
    More,
}

impl View for Action {
    type V = ActionView;

    open spec fn view(&self) -> ActionView {
        match self {
            Action::Quit => ActionView::Quit,
            Action::Help => ActionView::Help,
            Action::Bench => ActionView::Bench,
            Action::Save { path, content, quit } => ActionView::Save {
                path: path@,
                content: content@,
                quit: *quit,
            },
            Action::Evaluate(text) => ActionView::Evaluate(text@),
            Action::More => ActionView::More,
        }
    }
}

/// `s` without the white space at its end.
pub open spec fn trim_end(s: Seq<char>) -> Seq<char> {
    s.take(run_start(s, s.len() as int, CharClass::Blank))
}

/// The name that a file has when the command gives none.
pub open spec fn default_name() -> Seq<char> {
    "history"@
}

/// The extension of the files that the loop writes.
pub open spec fn extension() -> Seq<char> {
    ".arith"@
}

/// The name of the file in a command that writes: what follows the first
/// space, trimmed, or the default name where no space or nothing follows.
pub open spec fn file_name(command: Seq<char>) -> Seq<char> {
    let space = run_end(command, 0, CharClass::Word);
    if space + 1 < command.len() {
        trim(command.skip(space + 1))
    } else {
        default_name()
    }
}

/// The path for a file name: a doubled extension loses one, a name without
/// the extension gets it, and a name with the extension stays.
pub open spec fn output_path(name: Seq<char>) -> Seq<char> {
    if ends_with(name, extension() + extension()) {
        name.take(name.len() - extension().len())
    } else if !ends_with(name, extension()) {
        name + extension()
    } else {
        name
    }
}

/// Whether a line is a command that writes to a file.
pub open spec fn is_save(line: Seq<char>) -> bool {
    starts_with(line, ":save"@) || starts_with(line, ":w"@) || starts_with(line, ":wq"@)
}

/// What a line means while nothing has been gathered, if it is a command.
pub open spec fn command_of(line: Seq<char>, gathered: Seq<char>) -> Option<ActionView> {
    if line == ":q"@ || line == ":quit"@ || line == ":exit"@ {
        Some(ActionView::Quit)
    } else if line == ":h"@ || line == ":help"@ {
        Some(ActionView::Help)
    } else if line == ":bench"@ {
        Some(ActionView::Bench)
    } else if is_save(line) {
        Some(
            ActionView::Save {
                path: output_path(file_name(line)),
                content: gathered,
                quit: starts_with(line, ":wq"@),
            },
        )
    } else {
        None
    }
}

/// What the loop does after a line, and what it has gathered then.
///
/// The line loses the white space at its end. While nothing has been
/// gathered, a command is obeyed. Any other line is gathered, with a line
/// feed after it; if it ends in a backslash the loop reads on, and else what
/// has been gathered is evaluated and nothing is left.
pub open spec fn after_line(gathered: Seq<char>, line: Seq<char>) -> (ActionView, Seq<char>) {
    let input = trim_end(line);
    let command = if gathered.len() == 0 {
        command_of(input, gathered)
    } else {
        None
    };
    match command {
        Some(action) => (action, Seq::empty()),
        None => {
            let all = (gathered + input).push('\n');
            if input.len() > 0 && input.last() == '\\' {
                (ActionView::More, all)
            } else {
                (ActionView::Evaluate(all), Seq::empty())
            }
        },
    }
}

/// The state of the interactive loop: the lines that have been gathered and
/// not yet evaluated.
pub struct Session {
    gathered_text: String,
}

impl View for Session {
    type V = Seq<char>;

    closed spec fn view(&self) -> Seq<char> {
        self.gathered_text@
    }
}

/// The path for a file name.
pub fn path_for(name: &str) -> (path: String)
    ensures
        path@ == output_path(name@),
{
    let chars = chars_of(name);
    let mut doubled = String::new();
    push_text(&mut doubled, ".arith");
    push_text(&mut doubled, ".arith");
    let single = chars_of(".arith");
    if has_suffix(&chars, doubled.as_str()) {
        proof {
            assert(chars@.take(chars@.len() - single@.len()) =~= chars@.subrange(
                0,
                chars@.len() - single@.len(),
            ));
        }
        text_of(&chars, 0, chars.len() - single.len())
    } else if !has_suffix(&chars, ".arith") {
        let mut path = text_of(&chars, 0, chars.len());
        assert(chars@.subrange(0, chars@.len() as int) =~= chars@);
        push_text(&mut path, ".arith");
        path
    } else {
        assert(chars@.subrange(0, chars@.len() as int) =~= chars@);
        text_of(&chars, 0, chars.len())
    }
}

/// The name of the file in a command that writes.
fn name_in(command: &Vec<char>) -> (name: String)
    ensures
        name@ == file_name(command@),
{
    let space = run_to(command, 0, CharClass::Word);
    if space < command.len() && space + 1 < command.len() {
        let rest = slice_of(command, space + 1, command.len());
        assert(rest@ =~= command@.skip(space + 1));
        let name = trimmed(&rest);
        assert(name@.subrange(0, name@.len() as int) =~= name@);
        text_of(&name, 0, name.len())
    } else {
        let mut name = String::new();
        push_text(&mut name, "history");
        assert(name@ =~= default_name());
        name
    }
}

impl Session {
    /// A session in which nothing has been gathered.
    pub fn new() -> (session: Session)
        ensures
            session@ == Seq::<char>::empty(),
    {
        Session { gathered_text: String::new() }
    }

    /// Whether lines have been gathered, so that the next line continues a
    /// statement.
    pub fn is_continuing(&self) -> (r: bool)
        ensures
            r == (self@.len() > 0),
    {
        !self.gathered_text.as_str().is_empty()
    }

    /// Takes a line that the user typed and says what the loop does next.
    pub fn line(&mut self, line: &str) -> (action: Action)
        ensures
            (action@, final(self)@) == after_line(old(self)@, line@),
    {
        let typed = chars_of(line);
        let end = run_back(&typed, typed.len(), CharClass::Blank);
        let input = slice_of(&typed, 0, end);
        assert(input@ =~= trim_end(line@));
        if self.gathered_text.as_str().is_empty() {
            if is_text(&input, ":q") || is_text(&input, ":quit") || is_text(&input, ":exit") {
                self.gathered_text = String::new();
                return Action::Quit;
            }
            if is_text(&input, ":h") || is_text(&input, ":help") {
                self.gathered_text = String::new();
                return Action::Help;
            }
            if is_text(&input, ":bench") {
                self.gathered_text = String::new();
                return Action::Bench;
            }
            let quit = has_prefix(&input, ":wq");
            if has_prefix(&input, ":save") || has_prefix(&input, ":w") || quit {
                let name = name_in(&input);
                let path = path_for(name.as_str());
                let content = self.gathered_text.clone();
                self.gathered_text = String::new();
                return Action::Save { path, content, quit };
            }
        }
        let ghost before = self.gathered_text@;
        push_text(&mut self.gathered_text, line_text(&input).as_str());
        push_char(&mut self.gathered_text, '\n');
        assert(self.gathered_text@ =~= (before + input@).push('\n'));
        let n = input.len();
        if n > 0 && input[n - 1] == '\\' {
            Action::More
        } else {
            let text = self.gathered_text.clone();
            self.gathered_text = String::new();
            Action::Evaluate(text)
        }
    }

    /// At the end of the input: the text that is still to be evaluated, if
    /// what has been gathered is not blank. Nothing is left then.
    pub fn end(&mut self) -> (rest: Option<String>)
        ensures
            final(self)@ == Seq::<char>::empty(),
            match rest {
                Some(text) => text@ == old(self)@ && !is_blank(old(self)@),
                None => is_blank(old(self)@),
            },
    {
        let chars = chars_of(self.gathered_text.as_str());
        let blank = run_to(&chars, 0, CharClass::Blank) >= chars.len();
        let text = self.gathered_text.clone();
        self.gathered_text = String::new();
        if blank {
            None
        } else {
            Some(text)
        }
    }
}

/// The string of the characters of `v`.
fn line_text(v: &Vec<char>) -> (s: String)
    ensures
        s@ == v@,
{
    assert(v@.subrange(0, v@.len() as int) =~= v@);
    text_of(v, 0, v.len())
}

} // verus!
