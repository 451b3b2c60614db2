//! The output sink: text that the front end has yet to show.

use vstd::prelude::*;
use vstd::string::*;

verus! {

/// Text written by the commands and not yet handed to the terminal.
pub struct ReplOutput {
    pending: String,
}

impl View for ReplOutput {
    type V = Seq<char>;

    closed spec fn view(&self) -> Seq<char> {
        self.pending@
    }
}

/// A text followed by a line feed.
pub open spec fn line(text: Seq<char>) -> Seq<char> {
    text.push('\n')
}

impl ReplOutput {
    /// A sink with nothing written to it.
    pub fn new() -> (out: ReplOutput)
        ensures
            out@ == Seq::<char>::empty(),
    {
        ReplOutput { pending: String::new() }
    }

    /// Writes `text` and ends the line.
    pub fn repl_write_line(&mut self, text: &str)
        ensures
            final(self)@ == old(self)@ + line(text@),
    {
        self.pending.append(text);
        self.pending.append("\n");
        proof {
            reveal_strlit("\n");
            assert("\n"@ =~= seq!['\n']);
            assert(self@ =~= old(self)@ + line(text@));
        }
    }

    /// Writes `text` without ending the line.
    pub fn repl_write(&mut self, text: &str)
        ensures
            final(self)@ == old(self)@ + text@,
    {
        self.pending.append(text);
    }

    /// Hands out what was written, and leaves the sink empty.
    pub fn take(&mut self) -> (text: String)
        ensures
            text@ == old(self)@,
            final(self)@ == Seq::<char>::empty(),
    {
        let text = self.pending.clone();
        self.pending = String::new();
        text
    }
}

} // verus!
