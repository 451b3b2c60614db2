//! Carries a command out on the store and reports through the output sink.

use crate::command::{Command, CommandView};
use crate::entry::Entry;
use crate::output::{line, ReplOutput};
use crate::store::{after_lookup, lookup, Store};
use crate::time::{now, Timestamp};
use vstd::prelude::*;
use vstd::string::*;

verus! {

/// Whether the session goes on after a command.
#[derive(Clone, Copy, Debug, PartialEq, Eq)]
pub enum ReplControl {
    Continue,
    Exit,
}

/// Carries commands out.
pub struct Executor {}

/// The report of a lookup: the value that was found, or the key that was not.
pub open spec fn lookup_report(key: Seq<char>, found: Option<Entry>) -> Seq<char> {
    match found {
        Some(entry) => line("\rValue: "@ + entry.value@),
        None => line("\rKey not found: "@ + key),
    }
}

/// The report of an input that is no command.
pub open spec fn unknown_report(text: Seq<char>) -> Seq<char> {
    line("\rUnknown command: "@ + text)
}

/// The listing of keys: one line for each, in order.
pub open spec fn keys_report(keys: Seq<Seq<char>>) -> Seq<char>
    decreases keys.len(),
{
    if keys.len() == 0 {
        Seq::empty()
    } else {
        keys_report(keys.drop_last()) + line("\r"@ + keys.last())
    }
}

/// Whether `after` is `before` with `key` set to an entry that holds `value`
/// and expires at `deadline`.
pub open spec fn is_put(
    before: Map<Seq<char>, Entry>,
    after: Map<Seq<char>, Entry>,
    key: Seq<char>,
    value: Seq<char>,
    deadline: Option<Timestamp>,
) -> bool {
    &&& after.contains_key(key)
    &&& after[key].value@ == value
    &&& after[key].expire_at == deadline
    &&& after == before.insert(key, after[key])
}

/// What carrying out `command` at clock reading `now` does: the store and the
/// output after it, and whether the session goes on.
pub open spec fn executed(
    command: CommandView,
    now: Option<Timestamp>,
    store: Map<Seq<char>, Entry>,
    key_order: Seq<Seq<char>>,
    output: Seq<char>,
    store_after: Map<Seq<char>, Entry>,
    output_after: Seq<char>,
    control: ReplControl,
) -> bool {
    match command {
        CommandView::Get(key) => {
            &&& store_after == after_lookup(store, key, now)
            &&& output_after == output + lookup_report(key, lookup(store, key, now))
            &&& control == ReplControl::Continue
        },
        CommandView::Put(key, value, ttl) => {
            &&& is_put(store, store_after, key, value, Entry::spec_deadline(ttl, now))
            &&& output_after == output
            &&& control == ReplControl::Continue
        },
        CommandView::Delete(key) => {
            &&& store_after == store.remove(key)
            &&& output_after == output
            &&& control == ReplControl::Continue
        },
        CommandView::Keys => {
            &&& store_after == store
            &&& output_after == output + keys_report(key_order)
            &&& control == ReplControl::Continue
        },
        CommandView::Exit => {
            &&& store_after == store
            &&& output_after == output
            &&& control == ReplControl::Exit
        },
        CommandView::Empty => {
            &&& store_after == store
            &&& output_after == output
            &&& control == ReplControl::Continue
        },
        CommandView::Unknown(text) => {
            &&& store_after == store
            &&& output_after == output + unknown_report(text)
            &&& control == ReplControl::Continue
        },
    }
}

impl Executor {
    pub fn new() -> (e: Executor) {
        Executor {  }
    }

    /// Writes one line for each key.
    fn report_keys(keys: &Vec<String>, output: &mut ReplOutput)
        ensures
            final(output)@ == old(output)@ + keys_report(
                Seq::new(keys.len() as nat, |i: int| keys[i]@),
            ),
    {
        let ghost all = Seq::new(keys.len() as nat, |i: int| keys[i]@);
        let ghost start = output@;
        let mut i: usize = 0;
        assert(all.take(0) =~= Seq::<Seq<char>>::empty());
        assert(start + keys_report(all.take(0)) =~= start);
        while i < keys.len()
            invariant
                i <= keys.len(),
                all == Seq::new(keys.len() as nat, |i: int| keys[i]@),
                output@ == start + keys_report(all.take(i as int)),
            decreases keys.len() - i,
        {
            let ghost sofar = output@;
            output.repl_write("\r");
            output.repl_write_line(keys[i].as_str());
            proof {
                assert(all.take(i + 1).drop_last() =~= all.take(i as int));
                assert(all.take(i + 1).last() == keys[i as int]@);
                assert(output@ =~= sofar + line("\r"@ + keys[i as int]@));
                assert(output@ =~= start + keys_report(all.take(i + 1)));
            }
            i += 1;
        }
        assert(all.take(keys.len() as int) =~= all);
    }

    /// Carries out `command` at a given clock reading.
    pub fn execute_command_at(
        &self,
        command: &Command,
        store: &mut Store,
        output: &mut ReplOutput,
        now: Option<Timestamp>,
    ) -> (control: ReplControl)
        requires
            old(store).wf(),
            now matches Some(at) ==> at.wf(),
        ensures
            final(store).wf(),
            executed(
                command@,
                now,
                old(store)@,
                old(store).key_order(),
                old(output)@,
                final(store)@,
                final(output)@,
                control,
            ),
    {
        let ghost out0 = output@;
        match command {
            Command::Get(key) => {
                match store.get_at(key.as_str(), now) {
                    Some(entry) => {
                        let text = String::from_str("\rValue: ").concat(entry.value().as_str());
                        output.repl_write_line(text.as_str());
                    },
                    None => {
                        let text = String::from_str("\rKey not found: ").concat(key.as_str());
                        output.repl_write_line(text.as_str());
                    },
                }
                ReplControl::Continue
            },
            Command::Put(key, value, ttl) => {
                store.set(key.clone(), Entry::new_at(value.clone(), *ttl, now));
                ReplControl::Continue
            },
            Command::Delete(key) => {
                store.delete(key.as_str());
                ReplControl::Continue
            },
            Command::Keys => {
                let keys = store.keys();
                Self::report_keys(&keys, output);
                assert(Seq::new(keys.len() as nat, |i: int| keys[i]@) =~= store.key_order());
                ReplControl::Continue
            },
            Command::Exit => ReplControl::Exit,
            Command::Empty => ReplControl::Continue,
            Command::Unknown(text) => {
                let report = String::from_str("\rUnknown command: ").concat(text.as_str());
                output.repl_write_line(report.as_str());
                ReplControl::Continue
            },
        }
    }

    /// Carries out `command` at the current wall-clock time.
    pub fn execute_command(&self, command: &Command, store: &mut Store, output: &mut ReplOutput)
        -> (control: ReplControl)
        requires
            old(store).wf(),
        ensures
            final(store).wf(),
            exists|at: Option<Timestamp>|
                (at matches Some(t) ==> t.wf()) && #[trigger] executed(
                    command@,
                    at,
                    old(store)@,
                    old(store).key_order(),
                    old(output)@,
                    final(store)@,
                    final(output)@,
                    control,
                ),
    {
        let at = now();
        let ghost before = store@;
        let ghost order = store.key_order();
        let ghost out0 = output@;
        let control = self.execute_command_at(command, store, output, at);
        assert(executed(command@, at, before, order, out0, store@, output@, control));
        control
    }
}

} // verus!
