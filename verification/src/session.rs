//! The session protocol's decisions.
//!
//! The interactive loop around the calculator reads lines and paints screens
//! — plain I/O that lives outside the library. What the loop *decides* on
//! each line is settled here: whether a line ends the session, folds the
//! bindings into the standing formula, closes the binding phase, or is a
//! binding equation to parse.

use vstd::prelude::*;

verus! {

/// What a line of input asks the session to do.
#[derive(Clone, Copy, PartialEq, Eq, Structural, Debug)]
pub enum Command {
    /// The literal `exit`: end the session.
    Exit,
    /// The literal `inline`: fold the bindings into the formula and clear
    /// them.
    Inline,
    /// An empty line: end the binding phase and evaluate.
    Finish,
    /// Anything else: treat the line as an equation.
    Equation,
}

/// Which command a line of input denotes.
pub open spec fn classify_spec(line: Seq<char>) -> Command {
    if line == "exit"@ {
        Command::Exit
    } else if line == "inline"@ {
        Command::Inline
    } else if line == ""@ {
        Command::Finish
    } else {
        Command::Equation
    }
}

/// Classifies one line of input.
pub fn classify_line(line: &String) -> (r: Command)
    ensures
        r == classify_spec(line@),
{
    proof {
        reveal_strlit("exit");
        reveal_strlit("inline");
        reveal_strlit("");
    }
    let exit_word: String = "exit".to_owned();
    let inline_word: String = "inline".to_owned();
    let empty_word: String = "".to_owned();
    if line.eq(&exit_word) {
        Command::Exit
    } else if line.eq(&inline_word) {
        Command::Inline
    } else if line.eq(&empty_word) {
        Command::Finish
    } else {
        Command::Equation
    }
}

} // verus!
