//! The console abstraction: a stack of line buffers.
//!
//! A `Console` is one screenful of accumulated lines; the `ConsoleManager`
//! keeps a stack of them, the head receiving all output, so that a nested
//! dialogue can open its own screen and leave it again. Only the buffers are
//! modelled here — putting the head's lines on a terminal is plain I/O and
//! lives outside the library.

use vstd::prelude::*;

verus! {

/// One screenful of output lines.
pub struct Console {
    lines: Vec<String>,
}

/// The lines a console holds, as character sequences.
pub open spec fn lines_view(ls: Seq<String>) -> Seq<Seq<char>> {
    ls.map_values(|s: String| s@)
}

impl View for Console {
    type V = Seq<Seq<char>>;

    closed spec fn view(&self) -> Seq<Seq<char>> {
        lines_view(self.lines@)
    }
}

impl Console {
    /// An empty console.
    pub fn new() -> (r: Console)
        ensures
            r@ == Seq::<Seq<char>>::empty(),
    {
        let c = Console { lines: Vec::new() };
        proof {
            assert(c@ =~= Seq::<Seq<char>>::empty());
        }
        c
    }

    /// Appends a line as it is.
    pub fn print(&mut self, line: String)
        ensures
            final(self)@ == old(self)@.push(line@),
    {
        let ghost lv = line@;
        self.lines.push(line);
        proof {
            assert(self@ =~= old(self)@.push(lv));
        }
    }

    /// Appends a line with a newline at its end.
    pub fn println(&mut self, line: String)
        ensures
            final(self)@ == old(self)@.push(line@ + "\n"@),
    {
        let ghost lv = line@;
        let mut owned = line;
        owned.append("\n");
        self.lines.push(owned);
        proof {
            assert(self@ =~= old(self)@.push(lv + "\n"@));
        }
    }

    /// Forgets every line.
    pub fn clear(&mut self)
        ensures
            final(self)@ == Seq::<Seq<char>>::empty(),
    {
        self.lines.clear();
        proof {
            assert(self@ =~= Seq::<Seq<char>>::empty());
        }
    }

    /// The lines held, for a caller that wants to show them.
    pub fn line_at(&self, i: usize) -> (r: &String)
        requires
            i < self@.len(),
        ensures
            r@ == self@[i as int],
    {
        &self.lines[i]
    }

    /// How many lines the console holds.
    pub fn line_count(&self) -> (r: usize)
        ensures
            r == self@.len(),
    {
        self.lines.len()
    }
}

/// A stack of consoles; the head — the last one — receives all output.
pub struct ConsoleManager {
    consoles: Vec<Console>,
}

/// The stack of screens, each a sequence of lines.
pub open spec fn consoles_view(cs: Seq<Console>) -> Seq<Seq<Seq<char>>> {
    cs.map_values(|c: Console| c@)
}

impl View for ConsoleManager {
    type V = Seq<Seq<Seq<char>>>;

    closed spec fn view(&self) -> Seq<Seq<Seq<char>>> {
        consoles_view(self.consoles@)
    }
}

impl ConsoleManager {
    /// A manager with one empty console.
    pub fn new() -> (r: ConsoleManager)
        ensures
            r@ == seq![Seq::<Seq<char>>::empty()],
    {
        let mut consoles: Vec<Console> = Vec::new();
        consoles.push(Console::new());
        let m = ConsoleManager { consoles };
        proof {
            assert(m@ =~= seq![Seq::<Seq<char>>::empty()]);
        }
        m
    }

    /// The console all output currently goes to.
    pub fn head(&mut self) -> (r: &mut Console)
        requires
            old(self)@.len() > 0,
        ensures
            (*r)@ == old(self)@.last(),
            final(self)@ == old(self)@.update(old(self)@.len() - 1, final(r)@),
    {
        let i = self.consoles.len() - 1;
        proof {
            assert(self@[i as int] == self.consoles@[i as int]@);
        }
        &mut self.consoles[i]
    }

    /// Opens a fresh console on top of the stack.
    pub fn join(&mut self)
        ensures
            final(self)@ == old(self)@.push(Seq::<Seq<char>>::empty()),
    {
        self.consoles.push(Console::new());
        proof {
            assert(self@ =~= old(self)@.push(Seq::<Seq<char>>::empty()));
        }
    }

    /// Leaves the head console; with none left, nothing changes.
    pub fn leave(&mut self)
        ensures
            old(self)@.len() > 0 ==> final(self)@ == old(self)@.drop_last(),
            old(self)@.len() == 0 ==> final(self)@ == old(self)@,
    {
        if self.consoles.len() > 0 {
            self.consoles.pop();
            proof {
                assert(self@ =~= old(self)@.drop_last());
            }
        }
    }

    /// Appends a line to the head console.
    pub fn print(&mut self, line: String)
        requires
            old(self)@.len() > 0,
        ensures
            final(self)@ == old(self)@.update(
                old(self)@.len() - 1,
                old(self)@.last().push(line@),
            ),
    {
        let ghost lv = line@;
        let head = self.head();
        head.print(line);
    }

    /// Appends a line, with a newline, to the head console.
    pub fn println(&mut self, line: String)
        requires
            old(self)@.len() > 0,
        ensures
            final(self)@ == old(self)@.update(
                old(self)@.len() - 1,
                old(self)@.last().push(line@ + "\n"@),
            ),
    {
        let head = self.head();
        head.println(line);
    }

    /// Clears the head console's lines.
    pub fn clear(&mut self)
        requires
            old(self)@.len() > 0,
        ensures
            final(self)@ == old(self)@.update(old(self)@.len() - 1, Seq::<Seq<char>>::empty()),
    {
        let head = self.head();
        head.clear();
    }

    /// The lines of the head console, for the shell that shows them.
    pub fn head_lines(&self) -> (r: Vec<String>)
        requires
            self@.len() > 0,
        ensures
            lines_view(r@) == self@.last(),
    {
        let i = self.consoles.len() - 1;
        proof {
            assert(self@[i as int] == self.consoles@[i as int]@);
        }
        let c = &self.consoles[i];
        let mut out: Vec<String> = Vec::new();
        let mut j: usize = 0;
        while j < c.line_count()
            invariant
                j <= c@.len(),
                lines_view(out@) =~= c@.subrange(0, j as int),
            decreases c@.len() - j,
        {
            let line = c.line_at(j);
            let copied = line.clone();
            let ghost prev = out@;
            let ghost cv = copied@;
            out.push(copied);
            proof {
                assert(lines_view(out@) =~= lines_view(prev).push(cv));
                assert(lines_view(out@) =~= c@.subrange(0, j as int + 1));
            }
            j = j + 1;
        }
        proof {
            assert(c@.subrange(0, c@.len() as int) =~= c@);
            assert(lines_view(out@) =~= self@.last());
        }
        out
    }
}

} // verus!
