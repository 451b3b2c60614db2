//! The line editor: what each key press does to the input line, the
//! history, the store and the output.

use crate::command::{parsed, Command};
use crate::entry::Entry;
use crate::executor::{executed, Executor, ReplControl};
use crate::output::{line, ReplOutput};
use crate::store::Store;
use crate::time::{now, Timestamp};
use vstd::prelude::*;
use vstd::string::*;

verus! {

/// `String::push` appends one character to the end of the string.
pub assume_specification[ String::push ](s: &mut String, ch: char)
    ensures
        final(s)@ == old(s)@.push(ch),
;

/// `String::pop` removes the last character and returns it, or returns
/// `None` and leaves the string as it is where the string is empty.
pub assume_specification[ String::pop ](s: &mut String) -> (ch: Option<char>)
    ensures
        old(s)@.len() > 0 ==> ch == Some(old(s)@.last()) && final(s)@ == old(s)@.drop_last(),
        old(s)@.len() == 0 ==> ch is None && final(s)@ == old(s)@,
;

/// A key press, as far as the line editor tells keys apart.
#[derive(Clone, Copy, Debug)]
pub enum Key {
    Char(char),
    Enter,
    Up,
    Down,
    Backspace,
    Other,
}

/// The session: the store, the output sink, the line being edited and the
/// lines entered before it.
pub struct Core {
    store: Store,
    output: ReplOutput,
    buffer: String,
    history: Vec<String>,
    history_index: Option<usize>,
}

/// The history position after the up key: one line further back, or the
/// newest line where none was selected; none while the history is empty.
pub open spec fn index_after_up(index: Option<usize>, len: nat) -> Option<usize> {
    match index {
        Some(i) => if i > 0 {
            Some((i - 1) as usize)
        } else {
            Some(i)
        },
        None => if len > 0 {
            Some((len - 1) as usize)
        } else {
            None
        },
    }
}

/// The report that ends a session.
pub open spec fn farewell() -> Seq<char> {
    "\rBye!"@ + line("\r"@)
}

impl Core {
    /// The line being edited.
    pub closed spec fn spec_buffer(&self) -> Seq<char> {
        self.buffer@
    }

    /// The lines entered so far, oldest first.
    pub closed spec fn spec_history(&self) -> Seq<Seq<char>> {
        Seq::new(self.history.len() as nat, |i: int| self.history[i]@)
    }

    /// The selected history line, if one is selected.
    pub closed spec fn spec_index(&self) -> Option<usize> {
        self.history_index
    }

    /// The store.
    pub closed spec fn spec_store(&self) -> Store {
        self.store
    }

    /// The text written and not yet taken.
    pub closed spec fn spec_output(&self) -> Seq<char> {
        self.output@
    }

    /// The store is well formed and the selected line exists.
    pub closed spec fn wf(&self) -> bool {
        &&& self.store.wf()
        &&& self.history_index matches Some(i) ==> i < self.history.len()
    }

    /// Whether `self` differs from `before` in the line being edited and the
    /// selected history line at most.
    pub open spec fn same_session(&self, before: &Core) -> bool {
        &&& self.spec_store() == before.spec_store()
        &&& self.spec_output() == before.spec_output()
        &&& self.spec_history() == before.spec_history()
    }

    /// A session on an empty store.
    pub fn new() -> (core: Core)
        ensures
            core.wf(),
            core.spec_store()@ == Map::<Seq<char>, Entry>::empty(),
            core.spec_buffer() == Seq::<char>::empty(),
            core.spec_history() == Seq::<Seq<char>>::empty(),
            core.spec_index() is None,
            core.spec_output() == Seq::<char>::empty(),
    {
        Core::with_store(Store::new())
    }

    /// A session on a given store.
    pub fn with_store(store: Store) -> (core: Core)
        requires
            store.wf(),
        ensures
            core.wf(),
            core.spec_store() == store,
            core.spec_buffer() == Seq::<char>::empty(),
            core.spec_history() == Seq::<Seq<char>>::empty(),
            core.spec_index() is None,
            core.spec_output() == Seq::<char>::empty(),
    {
        let core = Core {
            store,
            output: ReplOutput::new(),
            buffer: String::new(),
            history: Vec::new(),
            history_index: None,
        };
        assert(core.spec_history() =~= Seq::<Seq<char>>::empty());
        core
    }

    /// What the enter key does at clock reading `now`: the line ends, no
    /// history line stays selected, and the input line is carried out as a
    /// command. On `exit` the farewell is written and the line is kept;
    /// otherwise the line, unless empty, joins the history and a new empty
    /// line begins.
    pub open spec fn entered(&self, before: &Core, now: Option<Timestamp>, control: ReplControl)
        -> bool {
        let told = if control == ReplControl::Exit {
            farewell()
        } else {
            Seq::<char>::empty()
        };
        &&& self.spec_index() is None
        &&& (exists|reported: Seq<char>|
            self.spec_output() == reported + told && #[trigger] executed(
                parsed(before.spec_buffer()),
                now,
                before.spec_store()@,
                before.spec_store().key_order(),
                before.spec_output() + line(Seq::<char>::empty()),
                self.spec_store()@,
                reported,
                control,
            ))
        &&& if control == ReplControl::Exit {
            self.spec_buffer() == before.spec_buffer() && self.spec_history()
                == before.spec_history()
        } else {
            self.spec_buffer() == Seq::<char>::empty() && self.spec_history() == if before.spec_buffer().len()
                > 0 {
                before.spec_history().push(before.spec_buffer())
            } else {
                before.spec_history()
            }
        }
    }

    /// What a key press other than enter does to the line being edited and
    /// to the selected history line.
    pub open spec fn edited(&self, before: &Core, key: Key) -> bool {
        let history = before.spec_history();
        match key {
            Key::Char(c) => self.spec_buffer() == before.spec_buffer().push(c)
                && self.spec_index() == before.spec_index(),
            Key::Up => {
                let index = index_after_up(before.spec_index(), history.len());
                &&& self.spec_index() == index
                &&& self.spec_buffer() == match index {
                    Some(i) => history[i as int],
                    None => before.spec_buffer(),
                }
            },
            Key::Down => match before.spec_index() {
                Some(i) => if i + 1 < history.len() {
                    self.spec_index() == Some((i + 1) as usize) && self.spec_buffer() == history[i
                        + 1]
                } else {
                    self.spec_index() is None && self.spec_buffer() == Seq::<char>::empty()
                },
                None => self.spec_index() is None && self.spec_buffer() == before.spec_buffer(),
            },
            Key::Backspace => {
                &&& self.spec_buffer() == if before.spec_buffer().len() > 0 {
                    before.spec_buffer().drop_last()
                } else {
                    before.spec_buffer()
                }
                &&& self.spec_index() == if self.spec_buffer().len() == 0 {
                    None
                } else {
                    before.spec_index()
                }
            },
            _ => self.spec_buffer() == before.spec_buffer() && self.spec_index()
                == before.spec_index(),
        }
    }

    /// Handles one key press at a given clock reading, and says whether the
    /// session goes on.
    pub fn handle_key_at(&mut self, key: Key, now: Option<Timestamp>) -> (control: ReplControl)
        requires
            old(self).wf(),
            now matches Some(at) ==> at.wf(),
        ensures
            final(self).wf(),
            final(self).spec_store().wf(),
            match key {
                Key::Enter => final(self).entered(old(self), now, control),
                _ => control == ReplControl::Continue && final(self).same_session(old(self))
                    && final(self).edited(old(self), key),
            },
    {
        match key {
            Key::Char(c) => {
                self.buffer.push(c);
                ReplControl::Continue
            },
            Key::Enter => {
                self.output.repl_write_line("");
                self.history_index = None;
                proof {
                    reveal_strlit("");
                    assert(""@ =~= Seq::<char>::empty());
                }
                let command = Command::parse(self.buffer.clone());
                let executor = Executor::new();
                let ghost history = self.spec_history();
                let control = executor.execute_command_at(
                    &command,
                    &mut self.store,
                    &mut self.output,
                    now,
                );
                let ghost reported = self.output@;
                match control {
                    ReplControl::Exit => {
                        self.output.repl_write("\rBye!");
                        self.output.repl_write_line("\r");
                        proof {
                            assert(self.output@ =~= reported + farewell());
                            assert(self.spec_history() =~= history);
                            assert(executed(
                                parsed(old(self).spec_buffer()),
                                now,
                                old(self).spec_store()@,
                                old(self).spec_store().key_order(),
                                old(self).spec_output() + line(Seq::<char>::empty()),
                                self.spec_store()@,
                                reported,
                                control,
                            ));
                        }
                    },
                    ReplControl::Continue => {
                        if !self.buffer.as_str().is_empty() {
                            self.history.push(self.buffer.clone());
                            proof {
                                assert(self.spec_history() =~= history.push(self.buffer@));
                            }
                        } else {
                            proof {
                                assert(self.spec_history() =~= history);
                            }
                        }
                        self.buffer = String::new();
                        proof {
                            assert(self.output@ =~= reported + Seq::<char>::empty());
                            assert(executed(
                                parsed(old(self).spec_buffer()),
                                now,
                                old(self).spec_store()@,
                                old(self).spec_store().key_order(),
                                old(self).spec_output() + line(Seq::<char>::empty()),
                                self.spec_store()@,
                                reported,
                                control,
                            ));
                        }
                    },
                }
                control
            },
            Key::Up => {
                match self.history_index {
                    Some(i) => {
                        if i > 0 {
                            self.history_index = Some(i - 1);
                        }
                    },
                    None => {
                        if self.history.len() > 0 {
                            self.history_index = Some(self.history.len() - 1);
                        }
                    },
                }
                match self.history_index {
                    Some(i) => {
                        self.buffer = self.history[i].clone();
                    },
                    None => {},
                }
                ReplControl::Continue
            },
            Key::Down => {
                match self.history_index {
                    Some(i) => {
                        if i + 1 < self.history.len() {
                            self.history_index = Some(i + 1);
                            self.buffer = self.history[i + 1].clone();
                        } else {
                            self.history_index = None;
                            self.buffer = String::new();
                        }
                    },
                    None => {},
                }
                ReplControl::Continue
            },
            Key::Backspace => {
                self.buffer.pop();
                if self.buffer.as_str().is_empty() {
                    self.history_index = None;
                }
                ReplControl::Continue
            },
            Key::Other => ReplControl::Continue,
        }
    }

    /// Handles one key press at the current wall-clock time. A key other
    /// than enter edits the line whatever the clock reads.
    pub fn handle_key(&mut self, key: Key) -> (control: ReplControl)
        requires
            old(self).wf(),
        ensures
            final(self).wf(),
            match key {
                Key::Enter => exists|at: Option<Timestamp>|
                    (at matches Some(t) ==> t.wf()) && #[trigger] final(self).entered(
                        old(self),
                        at,
                        control,
                    ),
                _ => control == ReplControl::Continue && final(self).same_session(old(self))
                    && final(self).edited(old(self), key),
            },
    {
        let at = now();
        let control = self.handle_key_at(key, at);
        assert(key is Enter ==> self.entered(old(self), at, control));
        control
    }

    /// The line being edited.
    pub fn buffer(&self) -> (text: &String)
        ensures
            text@ == self.spec_buffer(),
    {
        &self.buffer
    }

    /// The selected history line, if one is selected.
    pub fn history_index(&self) -> (index: Option<usize>)
        ensures
            index == self.spec_index(),
    {
        self.history_index
    }

    /// The number of lines in the history.
    pub fn history_len(&self) -> (len: usize)
        ensures
            len == self.spec_history().len(),
    {
        self.history.len()
    }

    /// Hands out the text written since the last call.
    pub fn take_output(&mut self) -> (text: String)
        requires
            old(self).wf(),
        ensures
            final(self).wf(),
            text@ == old(self).spec_output(),
            final(self).spec_output() == Seq::<char>::empty(),
            final(self).spec_store() == old(self).spec_store(),
            final(self).spec_buffer() == old(self).spec_buffer(),
            final(self).spec_history() == old(self).spec_history(),
            final(self).spec_index() == old(self).spec_index(),
    {
        self.output.take()
    }

    /// The store, for saving at the end of the session.
    pub fn store_mut(&mut self) -> (store: &mut Store)
        ensures
            *store == old(self).spec_store(),
            final(self).spec_store() == *final(store),
            final(self).spec_output() == old(self).spec_output(),
            final(self).spec_buffer() == old(self).spec_buffer(),
            final(self).spec_history() == old(self).spec_history(),
            final(self).spec_index() == old(self).spec_index(),
    {
        &mut self.store
    }
}

} // verus!
