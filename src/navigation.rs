//! Moving between the title view and the slides, and the keys that do it.
use vstd::prelude::*;
use crate::text::string_of;

verus! {

/// A key as the session sees it.
#[derive(PartialEq, Eq, Structural, Clone, Copy, Debug)]
pub enum Key {
    Esc,
    Char(char),
    Left,
    Right,
    Other,
}

/// What an input event asks of the session.
#[derive(PartialEq, Eq, Structural, Clone, Copy, Debug)]
pub enum Command {
    StepBack,
    StepForward,
    Quit,
    Ignore,
}

/// The command of a key event; only presses count, releases and repeats
/// are ignored.
pub open spec fn key_command(key: Key, pressed: bool) -> Command {
    if !pressed {
        Command::Ignore
    } else {
        match key {
            Key::Esc => Command::Quit,
            Key::Char(c) => if c == 'q' {
                Command::Quit
            } else {
                Command::Ignore
            },
            Key::Left => Command::StepBack,
            Key::Right => Command::StepForward,
            Key::Other => Command::Ignore,
        }
    }
}

/// Escape and `q` quit, the left arrow steps back, the right arrow steps
/// forward; every other key, and every event that is no press, is ignored.
pub fn command_for(key: Key, pressed: bool) -> (r: Command)
    ensures
        r == key_command(key, pressed),
{
    if !pressed {
        return Command::Ignore;
    }
    match key {
        Key::Esc => Command::Quit,
        Key::Char(c) => if c == 'q' {
            Command::Quit
        } else {
            Command::Ignore
        },
        Key::Left => Command::StepBack,
        Key::Right => Command::StepForward,
        Key::Other => Command::Ignore,
    }
}

/// The index after `c`, from index `i` in a deck of `n` slides: stepping
/// back stops at the title view (0), stepping forward at the last slide (`n`).
pub open spec fn next_index(i: nat, n: nat, c: Command) -> nat {
    match c {
        Command::StepBack => if i == 0 {
            0
        } else {
            (i - 1) as nat
        },
        Command::StepForward => if i < n {
            i + 1
        } else {
            i
        },
        _ => i,
    }
}

/// The index after each command of `cs` in turn, from index `i`.
pub open spec fn run_commands(i: nat, n: nat, cs: Seq<Command>) -> nat
    decreases cs.len(),
{
    if cs.len() == 0 {
        i
    } else {
        run_commands(next_index(i, n, cs[0]), n, cs.drop_first())
    }
}

pub open spec fn digit_char(d: nat) -> char {
    seq!['0', '1', '2', '3', '4', '5', '6', '7', '8', '9'][d as int]
}

/// The decimal digits of `n`.
pub open spec fn decimal(n: nat) -> Seq<char>
    decreases n,
{
    if n < 10 {
        seq![digit_char(n)]
    } else {
        decimal(n / 10).push(digit_char(n % 10))
    }
}

/// The counter shown at index `i` of `n` slides: the view's number out of
/// all views, title view included, both counted from one.
pub open spec fn counter_text(i: nat, n: nat) -> Seq<char> {
    seq!['['] + decimal(i + 1) + seq!['/'] + decimal(n + 1) + seq![']']
}

/// Appends the decimal digits of `n`.
pub fn push_decimal(out: &mut Vec<char>, n: usize)
    ensures
        final(out)@ == old(out)@ + decimal(n as nat),
    decreases n,
{
    let digits = vec!['0', '1', '2', '3', '4', '5', '6', '7', '8', '9'];
    if n >= 10 {
        push_decimal(out, n / 10);
    }
    let ghost mid = out@;
    out.push(digits[n % 10]);
    assert(digits@[(n % 10) as int] == digit_char((n % 10) as nat));
    if n < 10 {
        assert(out@ =~= old(out)@ + decimal(n as nat));
    } else {
        assert(out@ =~= old(out)@ + decimal(n as nat));
    }
}

/// Which view is shown: 0 is the title view, `k` in `1..=slide_count` is
/// slide `k - 1`.
#[derive(Debug)]
pub struct Navigation {
    index: usize,
    slide_count: usize,
}

impl View for Navigation {
    /// The index and the number of slides.
    type V = (nat, nat);

    closed spec fn view(&self) -> (nat, nat) {
        (self.index as nat, self.slide_count as nat)
    }
}

impl Navigation {
    /// The index never exceeds the number of slides.
    pub open spec fn wf(&self) -> bool {
        self@.0 <= self@.1
    }

    /// The session's start: the title view of a deck of `slide_count` slides.
    pub fn new(slide_count: usize) -> (r: Navigation)
        ensures
            r@ == (0nat, slide_count as nat),
            r.wf(),
    {
        Navigation { index: 0, slide_count }
    }

    pub fn index(&self) -> (r: usize)
        ensures
            r == self@.0,
    {
        self.index
    }

    pub fn slide_count(&self) -> (r: usize)
        ensures
            r == self@.1,
    {
        self.slide_count
    }

    /// The position counter of the footer bar, `[index + 1/slide_count + 1]`.
    pub fn counter_label(&self) -> (r: String)
        requires
            self.wf(),
            self@.1 < usize::MAX,
        ensures
            r@ == counter_text(self@.0, self@.1),
    {
        let mut out: Vec<char> = Vec::new();
        out.push('[');
        push_decimal(&mut out, self.index + 1);
        out.push('/');
        push_decimal(&mut out, self.slide_count + 1);
        out.push(']');
        assert(out@ =~= counter_text(self@.0, self@.1));
        string_of(out.as_slice())
    }

    /// One step back, staying at the title view when already there.
    pub fn step_back(&mut self)
        requires
            old(self).wf(),
        ensures
            final(self).wf(),
            final(self)@ == (next_index(old(self)@.0, old(self)@.1, Command::StepBack), old(
                self,
            )@.1),
    {
        if self.index > 0 {
            self.index = self.index - 1;
        }
    }

    /// One step forward, staying at the last slide when already there.
    pub fn step_forward(&mut self)
        requires
            old(self).wf(),
        ensures
            final(self).wf(),
            final(self)@ == (next_index(old(self)@.0, old(self)@.1, Command::StepForward), old(
                self,
            )@.1),
    {
        if self.index < self.slide_count {
            self.index = self.index + 1;
        }
    }

    /// Applies a command; returns whether the session goes on, which it does
    /// for every command but `Quit`.
    pub fn apply(&mut self, c: Command) -> (running: bool)
        requires
            old(self).wf(),
        ensures
            final(self).wf(),
            final(self)@ == (next_index(old(self)@.0, old(self)@.1, c), old(self)@.1),
            running == (c != Command::Quit),
    {
        match c {
            Command::StepBack => {
                self.step_back();
                true
            },
            Command::StepForward => {
                self.step_forward();
                true
            },
            Command::Quit => false,
            Command::Ignore => true,
        }
    }
}

/// Whatever commands come, from the title view the index stays within
/// `0..=n`; stepping back at the title view and stepping forward at the last
/// slide change nothing.
pub proof fn lemma_navigation_in_range(n: nat, cs: Seq<Command>)
    ensures
        run_commands(0, n, cs) <= n,
        next_index(0, n, Command::StepBack) == 0,
        next_index(n, n, Command::StepForward) == n,
{
    lemma_run_in_range(0, n, cs);
}

/// From an index within `0..=n`, any commands keep it there.
pub proof fn lemma_run_in_range(i: nat, n: nat, cs: Seq<Command>)
    requires
        i <= n,
    ensures
        run_commands(i, n, cs) <= n,
    decreases cs.len(),
{
    if cs.len() > 0 {
        lemma_run_in_range(next_index(i, n, cs[0]), n, cs.drop_first());
    }
}

} // verus!
