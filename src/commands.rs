use vstd::prelude::*;
use vstd::string::*;

verus! {

/// A control command typed by the user while the simulation runs.
#[derive(Clone, Copy, Debug, PartialEq, Eq, Structural)]
pub enum Command {
    Pause,
    Resume,
    Faster,
    Slower,
    ToggleWrap,
    Step,
}

/// The command that a token names, if it belongs to the vocabulary.
pub open spec fn command_of(token: Seq<char>) -> Option<Command> {
    if token == "pause"@ {
        Some(Command::Pause)
    } else if token == "resume"@ {
        Some(Command::Resume)
    } else if token == "faster"@ {
        Some(Command::Faster)
    } else if token == "slower"@ {
        Some(Command::Slower)
    } else if token == "toggle_wrap"@ {
        Some(Command::ToggleWrap)
    } else if token == "step"@ {
        Some(Command::Step)
    } else {
        None
    }
}

/// What `str::trim` leaves of a line: it depends on the characters alone.
pub uninterp spec fn trimmed(s: Seq<char>) -> Seq<char>;

/// An ASCII letter, digit or underscore: none of them is whitespace.
pub open spec fn is_word_char(c: char) -> bool {
    ('a' <= c <= 'z') || ('A' <= c <= 'Z') || ('0' <= c <= '9') || c == '_'
}

/// Relies on `str::trim`: strips leading and trailing whitespace (Unicode
/// `White_Space`), so what is left is no longer than the line, and a line
/// that starts and ends with a non-whitespace character is left whole.
#[verifier::external_body]
fn trim_line(line: &str) -> (r: &str)
    ensures
        r@ == trimmed(line@),
        r@.len() <= line@.len(),
        line@.len() == 0 ==> r@.len() == 0,
        line@.len() > 0 && is_word_char(line@[0]) && is_word_char(line@.last()) ==> r@ == line@,
{
    line.trim()
}

/// Whether two strings hold the same characters.
pub fn same_text(a: &str, b: &str) -> (r: bool)
    ensures
        r == (a@ == b@),
{
    let n = a.unicode_len();
    if n != b.unicode_len() {
        return false;
    }
    let mut i: usize = 0;
    while i < n
        invariant
            n == a@.len(),
            n == b@.len(),
            i <= n,
            forall|j: int| 0 <= j < i ==> a@[j] == b@[j],
        decreases n - i,
    {
        if a.get_char(i) != b.get_char(i) {
            return false;
        }
        i += 1;
    }
    assert(a@ =~= b@);
    true
}

/// The command that a token names, or `None` for a word outside the vocabulary.
pub fn parse_command(token: &str) -> (r: Option<Command>)
    ensures
        r == command_of(token@),
{
    if same_text(token, "pause") {
        Some(Command::Pause)
    } else if same_text(token, "resume") {
        Some(Command::Resume)
    } else if same_text(token, "faster") {
        Some(Command::Faster)
    } else if same_text(token, "slower") {
        Some(Command::Slower)
    } else if same_text(token, "toggle_wrap") {
        Some(Command::ToggleWrap)
    } else if same_text(token, "step") {
        Some(Command::Step)
    } else {
        None
    }
}

/// The command on an input line, read with surrounding whitespace removed.
pub fn parse_command_line(line: &str) -> (r: Option<Command>)
    ensures
        r == command_of(trimmed(line@)),
        line@.len() > 0 && is_word_char(line@[0]) && is_word_char(line@.last()) ==> r
            == command_of(line@),
        line@.len() == 0 ==> r is None,
{
    proof {
        reveal_strlit("pause");
        reveal_strlit("resume");
        reveal_strlit("faster");
        reveal_strlit("slower");
        reveal_strlit("toggle_wrap");
        reveal_strlit("step");
    }
    parse_command(trim_line(line))
}

} // verus!
