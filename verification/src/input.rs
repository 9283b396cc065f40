//! The command-line state machine: key events in, typed commands out.
//!
//! Two modes exist.  In `Normal` mode a decimal prefix may be typed before a
//! command key; any key that produces a real command consumes the prefix.
//! `/` enters `Search` mode, where printable keys grow a pattern, Backspace
//! shrinks it, Enter commits it as a `Search` command, and Ctrl-c abandons
//! it.  The whole machine is pure and verified against a step function.

use vstd::prelude::*;

verus! {

/// A classified key event, as the terminal input layer reports it.
#[derive(Debug, Clone, Copy, PartialEq, Eq, Structural)]
pub enum UserInput {
    Ctrl(char),
    Char(char),
    Num(char),
    Backspace,
    NoOp,
}

/// A navigation or search command produced from one key event.
#[derive(Debug, PartialEq)]
pub enum Command {
    UpOneLine,
    UpHalfScreen,
    UpOneScreen,
    DownOneLine,
    DownHalfScreen,
    DownOneScreen,
    JumpBeginning,
    JumpEnd,
    JumpPercent(u64),
    JumpNextMatch,
    JumpPrevMatch,
    Search(String),
    NextFile,
    Quit,
    NoOp,
}

/// Spec-level mirror of `Command`, with mathematical payloads, used to state
/// what the state machine produces.
pub enum SpecCmd {
    UpOneLine,
    UpHalfScreen,
    UpOneScreen,
    DownOneLine,
    DownHalfScreen,
    DownOneScreen,
    JumpBeginning,
    JumpEnd,
    JumpPercent(int),
    JumpNextMatch,
    JumpPrevMatch,
    Search(Seq<char>),
    NextFile,
    Quit,
    NoOp,
}

/// True when the executable command carries the same meaning and payload as
/// the spec-level command.
pub open spec fn cmd_matches(c: &Command, sc: SpecCmd) -> bool {
    match (c, sc) {
        (Command::UpOneLine, SpecCmd::UpOneLine) => true,
        (Command::UpHalfScreen, SpecCmd::UpHalfScreen) => true,
        (Command::UpOneScreen, SpecCmd::UpOneScreen) => true,
        (Command::DownOneLine, SpecCmd::DownOneLine) => true,
        (Command::DownHalfScreen, SpecCmd::DownHalfScreen) => true,
        (Command::DownOneScreen, SpecCmd::DownOneScreen) => true,
        (Command::JumpBeginning, SpecCmd::JumpBeginning) => true,
        (Command::JumpEnd, SpecCmd::JumpEnd) => true,
        (Command::JumpPercent(p), SpecCmd::JumpPercent(v)) => *p as int == v,
        (Command::JumpNextMatch, SpecCmd::JumpNextMatch) => true,
        (Command::JumpPrevMatch, SpecCmd::JumpPrevMatch) => true,
        (Command::Search(s), SpecCmd::Search(q)) => s@ == q,
        (Command::NextFile, SpecCmd::NextFile) => true,
        (Command::Quit, SpecCmd::Quit) => true,
        (Command::NoOp, SpecCmd::NoOp) => true,
        _ => false,
    }
}

/// True of a decimal digit character.
pub open spec fn is_digit_char(c: char) -> bool {
    '0' <= c && c <= '9'
}

/// True when every character of `s` is a decimal digit.
pub open spec fn all_digits(s: Seq<char>) -> bool {
    forall|i: int| 0 <= i < s.len() ==> is_digit_char(#[trigger] s[i])
}

/// Numeric value of a digit character.
pub open spec fn digit_of(c: char) -> int {
    c as int - '0' as int
}

/// Value of the first `i` characters of a digit string read as a decimal
/// number.
pub open spec fn prefix_val(s: Seq<char>, i: int) -> int
    decreases i,
{
    if i <= 0 {
        0
    } else {
        prefix_val(s, i - 1) * 10 + digit_of(s[i - 1])
    }
}

/// Value of a digit string read as decimal, saturated at `u64::MAX`.
pub open spec fn sat_val(s: Seq<char>) -> int {
    if prefix_val(s, s.len() as int) <= u64::MAX as int {
        prefix_val(s, s.len() as int)
    } else {
        u64::MAX as int
    }
}

/// One step of the state machine in `Normal` mode: the new mode (`true` for
/// `Search`), the new prefix buffer, and the command produced.
pub open spec fn normal_step(buffer: Seq<char>, input: UserInput) -> (bool, Seq<char>, SpecCmd) {
    let empty = Seq::<char>::empty();
    match input {
        UserInput::Char(c) => {
            if c == 'q' {
                (false, empty, SpecCmd::Quit)
            } else if c == 'd' {
                (false, empty, SpecCmd::DownHalfScreen)
            } else if c == 'u' {
                (false, empty, SpecCmd::UpHalfScreen)
            } else if c == 'f' {
                (false, empty, SpecCmd::DownOneScreen)
            } else if c == 'b' {
                (false, empty, SpecCmd::UpOneScreen)
            } else if c == 'j' {
                (false, empty, SpecCmd::DownOneLine)
            } else if c == 'k' {
                (false, empty, SpecCmd::UpOneLine)
            } else if c == 'g' {
                (false, empty, SpecCmd::JumpBeginning)
            } else if c == 'G' {
                (false, empty, SpecCmd::JumpEnd)
            } else if c == 'p' {
                (false, empty, SpecCmd::JumpPercent(sat_val(buffer)))
            } else if c == 'n' {
                (false, empty, SpecCmd::JumpNextMatch)
            } else if c == 'N' {
                (false, empty, SpecCmd::JumpPrevMatch)
            } else if c == '/' {
                (true, buffer, SpecCmd::NoOp)
            } else if c == '>' {
                (false, empty, SpecCmd::NextFile)
            } else {
                (false, buffer, SpecCmd::NoOp)
            }
        },
        UserInput::Ctrl(c) => {
            if c == 'd' {
                (false, empty, SpecCmd::DownHalfScreen)
            } else if c == 'u' {
                (false, empty, SpecCmd::UpHalfScreen)
            } else if c == 'f' {
                (false, empty, SpecCmd::DownOneScreen)
            } else if c == 'b' {
                (false, empty, SpecCmd::UpOneScreen)
            } else {
                (false, buffer, SpecCmd::NoOp)
            }
        },
        UserInput::Num(c) => (false, buffer.push(c), SpecCmd::NoOp),
        UserInput::Backspace => (false, buffer, SpecCmd::NoOp),
        UserInput::NoOp => (false, buffer, SpecCmd::NoOp),
    }
}

/// One step of the state machine in `Search` mode: Enter commits the
/// pattern, Ctrl-c abandons it, Backspace shrinks it, printable keys grow
/// it.
pub open spec fn search_step(buffer: Seq<char>, input: UserInput) -> (bool, Seq<char>, SpecCmd) {
    let empty = Seq::<char>::empty();
    match input {
        UserInput::Ctrl(c) => {
            if c == 'c' {
                (false, empty, SpecCmd::NoOp)
            } else {
                (true, buffer, SpecCmd::NoOp)
            }
        },
        UserInput::Char(c) => {
            if c == '\n' {
                (false, empty, SpecCmd::Search(buffer))
            } else {
                (true, buffer.push(c), SpecCmd::NoOp)
            }
        },
        UserInput::Num(c) => (true, buffer.push(c), SpecCmd::NoOp),
        UserInput::Backspace => {
            if buffer.len() == 0 {
                (true, buffer, SpecCmd::NoOp)
            } else {
                (true, buffer.drop_last(), SpecCmd::NoOp)
            }
        },
        UserInput::NoOp => (true, buffer, SpecCmd::NoOp),
    }
}

/// One step of the state machine in either mode.
pub open spec fn cl_step(in_search: bool, buffer: Seq<char>, input: UserInput) -> (
    bool,
    Seq<char>,
    SpecCmd,
) {
    if in_search {
        search_step(buffer, input)
    } else {
        normal_step(buffer, input)
    }
}

/// The decimal digit character for a value below ten.
pub open spec fn digit_char(d: int) -> char {
    if d == 0 {
        '0'
    } else if d == 1 {
        '1'
    } else if d == 2 {
        '2'
    } else if d == 3 {
        '3'
    } else if d == 4 {
        '4'
    } else if d == 5 {
        '5'
    } else if d == 6 {
        '6'
    } else if d == 7 {
        '7'
    } else if d == 8 {
        '8'
    } else {
        '9'
    }
}

/// Decimal representation of a non-negative number, most significant digit
/// first.
pub open spec fn dec_digits(n: int) -> Seq<char>
    decreases n,
{
    if n < 10 {
        seq![digit_char(n)]
    } else {
        dec_digits(n / 10).push(digit_char(n % 10))
    }
}

/// The status-line text: in `Normal` mode a colon, followed by the numeric
/// prefix when it is nonzero; in `Search` mode a slash followed by the
/// pattern typed so far.
pub open spec fn text_spec(in_search: bool, buffer: Seq<char>) -> Seq<char> {
    if in_search {
        seq!['/'] + buffer
    } else if sat_val(buffer) == 0 {
        seq![':']
    } else {
        seq![':'] + dec_digits(sat_val(buffer))
    }
}

/// True of a key event as the input layer delivers it: a `Num` event
/// always carries a decimal digit (see `parse_char`).
pub open spec fn input_wf(input: UserInput) -> bool {
    match input {
        UserInput::Num(c) => is_digit_char(c),
        _ => true,
    }
}

/// Classifies a typed character as a digit or an ordinary character.
pub fn parse_char(c: char) -> (r: UserInput)
    ensures
        r == if is_digit_char(c) {
            UserInput::Num(c)
        } else {
            UserInput::Char(c)
        },
{
    if c >= '0' && c <= '9' {
        UserInput::Num(c)
    } else {
        UserInput::Char(c)
    }
}

enum Mode {
    Normal,
    Search,
}

/// The mode machine with its prefix-or-pattern buffer.
pub struct CommandLine {
    mode: Mode,
    buffer: Vec<char>,
}

/// Relies on `String::push`: appends exactly the one character.
#[verifier::external_body]
fn push_char(s: &mut String, c: char)
    ensures
        final(s)@ == old(s)@.push(c),
{
    s.push(c);
}

/// The character for one decimal digit.
fn digit_to_char(d: u64) -> (r: char)
    requires
        d <= 9,
    ensures
        r == digit_char(d as int),
{
    if d == 0 {
        '0'
    } else if d == 1 {
        '1'
    } else if d == 2 {
        '2'
    } else if d == 3 {
        '3'
    } else if d == 4 {
        '4'
    } else if d == 5 {
        '5'
    } else if d == 6 {
        '6'
    } else if d == 7 {
        '7'
    } else if d == 8 {
        '8'
    } else {
        '9'
    }
}

/// Builds a `String` holding exactly the given characters.
fn chars_to_string(v: &Vec<char>) -> (r: String)
    ensures
        r@ == v@,
{
    let mut s = String::new();
    let mut i: usize = 0;
    while i < v.len()
        invariant
            i <= v@.len(),
            s@ == v@.take(i as int),
        decreases v@.len() - i,
    {
        push_char(&mut s, v[i]);
        proof {
            assert(v@.take(i as int).push(v@[i as int]) =~= v@.take(i + 1));
        }
        i = i + 1;
    }
    proof {
        assert(v@.take(v@.len() as int) =~= v@);
    }
    s
}

impl CommandLine {
    /// True in `Search` mode.
    pub closed spec fn in_search(&self) -> bool {
        self.mode is Search
    }

    /// The characters currently in the buffer: a numeric prefix in `Normal`
    /// mode, a pattern in `Search` mode.
    pub closed spec fn buffer_view(&self) -> Seq<char> {
        self.buffer@
    }

    /// In `Normal` mode the buffer holds only digits.
    pub open spec fn wf(&self) -> bool {
        !self.in_search() ==> all_digits(self.buffer_view())
    }

    /// A fresh machine: `Normal` mode, empty buffer.
    pub fn new() -> (r: CommandLine)
        ensures
            !r.in_search(),
            r.buffer_view().len() == 0,
            r.wf(),
    {
        CommandLine { mode: Mode::Normal, buffer: Vec::new() }
    }

    /// The decimal value of the numeric prefix, saturated at `u64::MAX`.
    fn number(&self) -> (r: u64)
        requires
            all_digits(self.buffer_view()),
        ensures
            r as int == sat_val(self.buffer_view()),
    {
        let mut tot: u64 = 0;
        let mut i: usize = 0;
        let n = self.buffer.len();
        while i < n
            invariant
                n == self.buffer@.len(),
                i <= n,
                all_digits(self.buffer@),
                tot as int == if prefix_val(self.buffer@, i as int) <= u64::MAX as int {
                    prefix_val(self.buffer@, i as int)
                } else {
                    u64::MAX as int
                },
                prefix_val(self.buffer@, i as int) >= 0,
            decreases n - i,
        {
            let c = self.buffer[i];
            let d = (c as u32 - '0' as u32) as u64;
            proof {
                assert(is_digit_char(self.buffer@[i as int]));
                assert(0 <= digit_of(self.buffer@[i as int]) <= 9);
                assert(d as int == digit_of(self.buffer@[i as int]));
                assert(prefix_val(self.buffer@, i + 1) == prefix_val(self.buffer@, i as int) * 10
                    + digit_of(self.buffer@[i as int]));
            }
            if tot > u64::MAX / 10 {
                tot = u64::MAX;
            } else {
                let t2 = tot * 10;
                if d > u64::MAX - t2 {
                    tot = u64::MAX;
                } else {
                    tot = t2 + d;
                }
            }
            i = i + 1;
        }
        tot
    }

    /// Runs one key event through the machine and returns the command it
    /// produces, updating mode and buffer as the step function says.
    pub fn parse_input(&mut self, input: &UserInput) -> (r: Command)
        requires
            old(self).wf(),
            input_wf(*input),
        ensures
            ({
                let (sm, buf, sc) = cl_step(old(self).in_search(), old(self).buffer_view(), *input);
                &&& final(self).in_search() == sm
                &&& final(self).buffer_view() == buf
                &&& cmd_matches(&r, sc)
                &&& final(self).wf()
            }),
    {
        match self.mode {
            Mode::Normal => self.normal_parse(input),
            Mode::Search => self.search_parse(input),
        }
    }

    /// Renders the status line for the current mode and buffer.
    pub fn text(&self) -> (r: String)
        requires
            self.wf(),
        ensures
            r@ == text_spec(self.in_search(), self.buffer_view()),
    {
        match self.mode {
            Mode::Normal => {
                let n = self.number();
                let mut s = String::new();
                push_char(&mut s, ':');
                proof {
                    assert(s@ =~= seq![':']);
                }
                if n == 0 {
                    return s;
                }
                let mut rev: Vec<char> = Vec::new();
                let mut m = n;
                while m >= 10
                    invariant
                        dec_digits(n as int) =~= dec_digits(m as int) + rev@.reverse(),
                    decreases m,
                {
                    let d = m % 10;
                    let c = digit_to_char(d);
                    let ghost old_rev = rev@;
                    rev.push(c);
                    proof {
                        assert(dec_digits(m as int) == dec_digits(m as int / 10).push(
                            digit_char(m as int % 10),
                        ));
                        assert(rev@.reverse() =~= seq![c] + old_rev.reverse());
                        assert(dec_digits((m / 10) as int) + rev@.reverse() =~= dec_digits(
                            m as int,
                        ) + old_rev.reverse());
                    }
                    m = m / 10;
                }
                let c0 = digit_to_char(m);
                let ghost old_rev = rev@;
                rev.push(c0);
                proof {
                    assert(rev@.reverse() =~= seq![c0] + old_rev.reverse());
                    assert(dec_digits(n as int) =~= rev@.reverse());
                }
                loop
                    invariant
                        s@ + rev@.reverse() =~= seq![':'] + dec_digits(n as int),
                        n as int == sat_val(self.buffer_view()),
                        !self.in_search(),
                        n != 0,
                    decreases rev@.len(),
                {
                    let ghost before = rev@;
                    match rev.pop() {
                        Some(c) => {
                            push_char(&mut s, c);
                            proof {
                                assert(before.reverse() =~= seq![before.last()]
                                    + before.drop_last().reverse());
                            }
                        },
                        None => {
                            proof {
                                assert(s@ =~= seq![':'] + dec_digits(n as int));
                            }
                            return s;
                        },
                    }
                }
            },
            Mode::Search => {
                let mut s = String::new();
                push_char(&mut s, '/');
                proof {
                    assert(s@ =~= seq!['/']);
                }
                let mut i: usize = 0;
                while i < self.buffer.len()
                    invariant
                        i <= self.buffer@.len(),
                        s@ =~= seq!['/'] + self.buffer@.take(i as int),
                        self.in_search(),
                        self.wf(),
                    decreases self.buffer@.len() - i,
                {
                    push_char(&mut s, self.buffer[i]);
                    proof {
                        assert((seq!['/'] + self.buffer@.take(i as int)).push(
                            self.buffer@[i as int],
                        ) =~= seq!['/'] + self.buffer@.take(i + 1));
                    }
                    i = i + 1;
                }
                proof {
                    assert(self.buffer@.take(self.buffer@.len() as int) =~= self.buffer@);
                }
                s
            },
        }
    }

    fn normal_parse(&mut self, input: &UserInput) -> (r: Command)
        requires
            old(self).wf(),
            input_wf(*input),
            !old(self).in_search(),
        ensures
            ({
                let (sm, buf, sc) = normal_step(old(self).buffer_view(), *input);
                &&& final(self).in_search() == sm
                &&& final(self).buffer_view() == buf
                &&& cmd_matches(&r, sc)
                &&& final(self).wf()
            }),
    {
        let command = match input {
            UserInput::Char(c) => {
                let c = *c;
                if c == 'q' {
                    Command::Quit
                } else if c == 'd' {
                    Command::DownHalfScreen
                } else if c == 'u' {
                    Command::UpHalfScreen
                } else if c == 'f' {
                    Command::DownOneScreen
                } else if c == 'b' {
                    Command::UpOneScreen
                } else if c == 'j' {
                    Command::DownOneLine
                } else if c == 'k' {
                    Command::UpOneLine
                } else if c == 'g' {
                    Command::JumpBeginning
                } else if c == 'G' {
                    Command::JumpEnd
                } else if c == 'p' {
                    Command::JumpPercent(self.number())
                } else if c == 'n' {
                    Command::JumpNextMatch
                } else if c == 'N' {
                    Command::JumpPrevMatch
                } else if c == '/' {
                    self.mode = Mode::Search;
                    Command::NoOp
                } else if c == '>' {
                    Command::NextFile
                } else {
                    Command::NoOp
                }
            },
            UserInput::Ctrl(c) => {
                let c = *c;
                if c == 'd' {
                    Command::DownHalfScreen
                } else if c == 'u' {
                    Command::UpHalfScreen
                } else if c == 'f' {
                    Command::DownOneScreen
                } else if c == 'b' {
                    Command::UpOneScreen
                } else {
                    Command::NoOp
                }
            },
            UserInput::Num(c) => {
                self.buffer.push(*c);
                Command::NoOp
            },
            _ => Command::NoOp,
        };
        if !(matches!(command, Command::NoOp)) {
            self.buffer = Vec::new();
        }
        command
    }

    fn search_parse(&mut self, input: &UserInput) -> (r: Command)
        requires
            old(self).wf(),
            old(self).in_search(),
        ensures
            ({
                let (sm, buf, sc) = search_step(old(self).buffer_view(), *input);
                &&& final(self).in_search() == sm
                &&& final(self).buffer_view() == buf
                &&& cmd_matches(&r, sc)
                &&& final(self).wf()
            }),
    {
        match input {
            UserInput::Ctrl(c) => {
                if *c == 'c' {
                    self.mode = Mode::Normal;
                    self.buffer = Vec::new();
                    Command::NoOp
                } else {
                    Command::NoOp
                }
            },
            UserInput::Char(c) => {
                if *c == '\n' {
                    let pattern = chars_to_string(&self.buffer);
                    self.buffer = Vec::new();
                    self.mode = Mode::Normal;
                    Command::Search(pattern)
                } else {
                    self.buffer.push(*c);
                    Command::NoOp
                }
            },
            UserInput::Num(c) => {
                self.buffer.push(*c);
                Command::NoOp
            },
            UserInput::Backspace => {
                let _ = self.buffer.pop();
                Command::NoOp
            },
            UserInput::NoOp => Command::NoOp,
        }
    }
}

} // verus!

