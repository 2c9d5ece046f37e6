//! The read-eval-print loop: what a line of input asks for.

use vstd::prelude::*;
use crate::text::{
    all_space, char_at, chars_of, find_char, is_space, law_trimming, lemma_char_at,
    lemma_char_at_is, same_text, string_of, texts,
    trim, trimmed,
};

verus! {

/// The state of the loop.
pub struct CliRepl {
    /// The session in use, once there is one.
    pub session_id: Option<u64>,
    /// The registered custom commands, each once.
    pub shell_commands: Vec<String>,
}

/// What a line of input asks for.
pub enum ReplAction {
    /// Nothing; read the next line.
    Skip,
    /// Leave the loop.
    Exit,
    /// Start a new session.
    Reset,
    /// Print the help.
    Help,
    /// Hand `command` to the handler registered under `prefix`.
    Custom { prefix: String, command: String },
    /// Print this message.
    Print(String),
    /// Run the agent on this input.
    Turn(String),
}

/// The mathematical value of a [`ReplAction`].
pub enum ReplView {
    Skip,
    Exit,
    Reset,
    Help,
    Custom { prefix: Seq<char>, command: Seq<char> },
    Print(Seq<char>),
    Turn(Seq<char>),
}

impl View for ReplAction {
    type V = ReplView;

    open spec fn view(&self) -> ReplView {
        match *self {
            ReplAction::Skip => ReplView::Skip,
            ReplAction::Exit => ReplView::Exit,
            ReplAction::Reset => ReplView::Reset,
            ReplAction::Help => ReplView::Help,
            ReplAction::Custom { prefix, command } => ReplView::Custom {
                prefix: prefix@,
                command: command@,
            },
            ReplAction::Print(s) => ReplView::Print(s@),
            ReplAction::Turn(s) => ReplView::Turn(s@),
        }
    }
}

/// The part of a command before its first space; all of it without one.
pub open spec fn command_prefix(command: Seq<char>) -> Seq<char> {
    match char_at(command, ' ') {
        Some(k) => command.take(k),
        None => command,
    }
}

pub open spec fn unknown_command(command: Seq<char>) -> Seq<char> {
    ">>> Unknown command: ."@ + command
}

/// What a command, the text behind the dot, asks for.
pub open spec fn command_meaning(commands: Seq<Seq<char>>, command: Seq<char>) -> ReplView {
    if command == "exit"@ || command == "quit"@ {
        ReplView::Exit
    } else if command == "reset"@ {
        ReplView::Reset
    } else if command == "help"@ {
        ReplView::Help
    } else if commands.contains(command_prefix(command)) {
        ReplView::Custom { prefix: command_prefix(command), command }
    } else {
        ReplView::Print(unknown_command(command))
    }
}

/// What a line asks for: nothing when blank, a command when it starts with a
/// dot, a turn of the agent otherwise.
pub open spec fn line_meaning(commands: Seq<Seq<char>>, line: Seq<char>) -> ReplView {
    let input = trimmed(line);
    if input.len() == 0 {
        ReplView::Skip
    } else if input[0] == '.' {
        command_meaning(commands, input.drop_first())
    } else {
        ReplView::Turn(input)
    }
}

/// The lines that help prints.
pub const HELP_TEXT: &'static str = ">>> .exit - quit\n>>> .reset - new session\n>>> .help - this message\n";

/// The lines printed at the start.
pub const BANNER_TEXT: &'static str = ">>> Agent REPL started\n>>> Commands: .help, .reset, .exit\n";

/// What is printed when the session has been reset.
pub const RESET_TEXT: &'static str = ">>> Session reset\n";

/// What is printed before a line is read.
pub const INPUT_PROMPT: &'static str = "\nUser > ";

impl CliRepl {
    /// Every custom command is registered once.
    pub open spec fn wf(&self) -> bool {
        texts(self.shell_commands@).no_duplicates()
    }

    pub fn new() -> (r: Self)
        ensures
            r.wf(),
            r.session_id is None,
            texts(r.shell_commands@) == Seq::<Seq<char>>::empty(),
    {
        let r = CliRepl { session_id: None, shell_commands: Vec::new() };
        assert(texts(r.shell_commands@) == Seq::<Seq<char>>::empty());
        r
    }

    fn position(&self, prefix: &str) -> (r: Option<usize>)
        ensures
            match r {
                Some(i) => i < self.shell_commands@.len() && self.shell_commands@[i as int]@
                    == prefix@,
                None => !texts(self.shell_commands@).contains(prefix@),
            },
    {
        let mut i: usize = 0;
        while i < self.shell_commands.len()
            invariant
                i <= self.shell_commands@.len(),
                forall|j: int| 0 <= j < i ==> texts(self.shell_commands@)[j] != prefix@,
            decreases self.shell_commands@.len() - i,
        {
            if same_text(self.shell_commands[i].as_str(), prefix) {
                return Some(i);
            }
            i += 1;
        }
        None
    }

    /// Registers a custom command; one that is there already stays once.
    pub fn register_shell_command(&mut self, prefix: &str)
        requires
            old(self).wf(),
        ensures
            final(self).wf(),
            final(self).session_id == old(self).session_id,
            texts(final(self).shell_commands@) == if texts(old(self).shell_commands@).contains(
                prefix@,
            ) {
                texts(old(self).shell_commands@)
            } else {
                texts(old(self).shell_commands@).push(prefix@)
            },
    {
        let ghost before = texts(self.shell_commands@);
        match self.position(prefix) {
            Some(i) => {
                assert(before[i as int] == prefix@);
            },
            None => {
                self.shell_commands.push(prefix.to_owned());
                assert(texts(self.shell_commands@) == before.push(prefix@));
            },
        }
    }

    /// What a line of input asks for.
    pub fn interpret(&self, line: &str) -> (r: ReplAction)
        ensures
            r@ == line_meaning(texts(self.shell_commands@), line@),
    {
        let input = trim(line);
        let v = chars_of(input.as_str());
        if v.len() == 0 {
            return ReplAction::Skip;
        }
        if v[0] != '.' {
            return ReplAction::Turn(input);
        }
        let command = string_of(&v, 1, v.len());
        assert(command@ == trimmed(line@).drop_first());
        let c = command.as_str();
        if same_text(c, "exit") || same_text(c, "quit") {
            ReplAction::Exit
        } else if same_text(c, "reset") {
            ReplAction::Reset
        } else if same_text(c, "help") {
            ReplAction::Help
        } else {
            let w = chars_of(c);
            assert(w@.skip(0) == w@);
            let end: usize = match find_char(&w, 0, ' ') {
                Some(k) => k,
                None => w.len(),
            };
            let prefix = string_of(&w, 0, end);
            assert(prefix@ == command_prefix(command@));
            match self.position(prefix.as_str()) {
                Some(i) => {
                    assert(texts(self.shell_commands@)[i as int] == prefix@);
                    ReplAction::Custom { prefix, command }
                },
                None => self.unknown(c),
            }
        }
    }

    /// What follows once a custom handler has looked at `command`: nothing if
    /// it took the command, the message for an unknown command if it did not.
    pub fn after_custom(&self, command: &str, handled: bool) -> (r: ReplAction)
        ensures
            r@ == if handled {
                ReplView::Skip
            } else {
                ReplView::Print(unknown_command(command@))
            },
    {
        if handled {
            ReplAction::Skip
        } else {
            self.unknown(command)
        }
    }

    fn unknown(&self, command: &str) -> (r: ReplAction)
        ensures
            r@ == ReplView::Print(unknown_command(command@)),
    {
        let mut m = ">>> Unknown command: .".to_owned();
        m.append(command);
        ReplAction::Print(m)
    }

    /// Takes a session into use.
    pub fn use_session(&mut self, id: u64)
        ensures
            final(self).session_id == Some(id),
            final(self).shell_commands == old(self).shell_commands,
    {
        self.session_id = Some(id);
    }
}

/// A built-in command cannot be taken over by a custom one.
pub proof fn law_builtin_commands_win(commands: Seq<Seq<char>>, command: Seq<char>)
    requires
        command == "exit"@ || command == "quit"@ || command == "reset"@ || command == "help"@,
    ensures
        command_meaning(commands, command) == command_meaning(Seq::empty(), command),
{
}

/// The agent runs only on input that is not blank and does not start with a
/// dot, and then on the trimmed line.
pub proof fn law_commands_never_reach_the_agent(commands: Seq<Seq<char>>, line: Seq<char>)
    ensures
        line_meaning(commands, line) matches ReplView::Turn(s) ==> s == trimmed(line) && s.len() > 0
            && s[0] != '.',
        trimmed(line).len() > 0 && trimmed(line)[0] == '.' ==> line_meaning(commands, line)
            !is Turn,
{
}

/// A line is looked at without the white space around it: nothing is left to
/// do for a blank one, text goes to the agent as it is, and a command is what
/// stands behind its dot.
pub proof fn law_lines_mean_what_they_say(
    commands: Seq<Seq<char>>,
    a: Seq<char>,
    core: Seq<char>,
    b: Seq<char>,
)
    requires
        all_space(a),
        all_space(b),
        core.len() > 0 ==> !is_space(core[0]) && !is_space(core.last()),
    ensures
        ({
            let m = line_meaning(commands, a + core + b);
            &&& core.len() == 0 ==> m is Skip
            &&& core.len() > 0 && core[0] != '.' ==> m == ReplView::Turn(core)
            &&& core == ".exit"@ || core == ".quit"@ ==> m is Exit
            &&& core == ".reset"@ ==> m is Reset
            &&& core == ".help"@ ==> m is Help
        }),
{
    law_trimming(a, core, b);
    reveal_strlit(".exit");
    reveal_strlit(".quit");
    reveal_strlit(".reset");
    reveal_strlit(".help");
    reveal_strlit("exit");
    reveal_strlit("quit");
    reveal_strlit("reset");
    reveal_strlit("help");
    let c = core.drop_first();
    if core == ".exit"@ {
        assert(c =~= "exit"@);
    }
    if core == ".quit"@ {
        assert(c =~= "quit"@);
    }
    if core == ".reset"@ {
        assert(c =~= "reset"@);
        assert(c.len() == 5);
    }
    if core == ".help"@ {
        assert(c =~= "help"@);
        assert(c[0] == 'h' && "exit"@[0] == 'e' && "quit"@[0] == 'q' && "reset"@.len() == 5);
    }
}

/// A command that is not built in goes to the handler registered for its first
/// word, whatever follows that, with the whole command; without one it is
/// unknown.
pub proof fn law_custom_commands_go_by_their_first_word(
    commands: Seq<Seq<char>>,
    word: Seq<char>,
    rest: Seq<char>,
)
    requires
        !word.contains(' '),
        word != "exit"@ && word != "quit"@ && word != "reset"@ && word != "help"@,
    ensures
        commands.contains(word) ==> command_meaning(commands, word + seq![' '] + rest) == (
        ReplView::Custom { prefix: word, command: word + seq![' '] + rest }),
        commands.contains(word) ==> command_meaning(commands, word) == (ReplView::Custom {
            prefix: word,
            command: word,
        }),
        !commands.contains(word) ==> command_meaning(commands, word + seq![' '] + rest)
            == ReplView::Print(">>> Unknown command: ."@ + (word + seq![' '] + rest)),
        !commands.contains(word) ==> command_meaning(commands, word) == ReplView::Print(
            ">>> Unknown command: ."@ + word,
        ),
{
    let c = word + seq![' '] + rest;
    let n = word.len() as int;
    assert(c[n] == ' ');
    assert forall|i: int| 0 <= i < n implies c[i] != ' ' by {
        assert(c[i] == word[i]);
        assert(word.contains(word[i]));
    }
    lemma_char_at_is(c, ' ', n);
    assert(c.take(n) =~= word);
    lemma_char_at(word, ' ');
    reveal_strlit("exit");
    reveal_strlit("quit");
    reveal_strlit("reset");
    reveal_strlit("help");
    assert(c.contains(c[n]));
    assert(!"exit"@.contains(' '));
    assert(!"quit"@.contains(' '));
    assert(!"reset"@.contains(' '));
    assert(!"help"@.contains(' '));
}

/// An action stands for what it says.
pub proof fn law_actions_stand_for_themselves(a: ReplAction, text: String, prefix: String)
    ensures
        a@ is Skip <==> a is Skip,
        a@ is Exit <==> a is Exit,
        a@ is Reset <==> a is Reset,
        a@ is Help <==> a is Help,
        (ReplAction::Print(text))@ == ReplView::Print(text@),
        (ReplAction::Turn(text))@ == ReplView::Turn(text@),
        (ReplAction::Custom { prefix, command: text })@ == (ReplView::Custom {
            prefix: prefix@,
            command: text@,
        }),
{
}

} // verus!
