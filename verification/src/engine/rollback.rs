//! Taking back the profiles of a batch that were already replaced, the last one first.

use crate::engine::transaction::{requested, Act, Work};
use crate::error::{outcome, Error};
use crate::id::{shown, shown_text};
use crate::model::{Profile, ProtectionProfile};
use crate::text::{strings, text4};
use vstd::prelude::*;

verus! {

/// A profile that was put in force, and what was in force before it.
#[derive(Debug)]
pub struct Replacement {
    pub current: ProtectionProfile,
    pub previous: Option<ProtectionProfile>,
}

/// A profile that was put in force, and what was in force before it, as values.
pub struct Exchange {
    pub current: Profile,
    pub previous: Option<Profile>,
}

impl View for Replacement {
    type V = Exchange;

    open spec fn view(&self) -> Exchange {
        Exchange {
            current: self.current@,
            previous: match self.previous {
                Some(previous) => Some(previous@),
                None => None,
            },
        }
    }
}

pub open spec fn exchanges(list: Seq<Replacement>) -> Seq<Exchange> {
    list.map_values(|item: Replacement| item@)
}

/// What is being done with the profile that is taken back.
#[derive(Clone, Copy, Debug)]
pub enum Undoing {
    /// It is taken out.
    Removing,
    /// Its snapshot is deleted.
    Forgetting,
    /// The previous version is built.
    Rebuilding,
    /// The previous version is installed.
    Reinstalling,
    /// The snapshot of the previous version is stored.
    Resaving,
}

/// Taking back profiles.
#[derive(Debug)]
pub struct Rollback {
    pub completed: Vec<Replacement>,
    /// How many profiles are still to be taken back.
    pub left: usize,
    pub undoing: Undoing,
    pub failures: Vec<String>,
}

/// Taking back profiles, as a value.
pub struct Return {
    pub completed: Seq<Exchange>,
    pub left: nat,
    pub undoing: Undoing,
    pub failures: Seq<Seq<char>>,
}

impl View for Rollback {
    type V = Return;

    open spec fn view(&self) -> Return {
        Return {
            completed: exchanges(self.completed@),
            left: self.left as nat,
            undoing: self.undoing,
            failures: strings(self.failures@),
        }
    }
}

/// Whether a rollback stands where it can.
pub open spec fn is_sound(rollback: Return) -> bool {
    &&& rollback.left <= rollback.completed.len()
    &&& rollback.left > 0 && !(rollback.undoing is Removing) && !(rollback.undoing is Forgetting)
        ==> rollback.completed[rollback.left - 1].previous is Some
}

/// A rollback before anything is done.
pub open spec fn begun(completed: Seq<Exchange>) -> Return {
    Return {
        completed,
        left: completed.len(),
        undoing: Undoing::Removing,
        failures: Seq::empty(),
    }
}

/// What a rollback asks to be done next.
pub open spec fn asked(rollback: Return) -> Option<Work> {
    if rollback.left == 0 {
        None
    } else {
        let item = rollback.completed[rollback.left - 1];
        match rollback.undoing {
            Undoing::Removing => Some(Work::Teardown(item.current)),
            Undoing::Forgetting => Some(Work::RemoveState(item.current.id)),
            Undoing::Rebuilding => Some(Work::Prepare(item.previous->Some_0)),
            Undoing::Reinstalling => Some(Work::Install(item.previous->Some_0)),
            Undoing::Resaving => Some(Work::Save(item.previous->Some_0)),
        }
    }
}

pub open spec fn unremoved(id: u128, message: Seq<char>) -> Seq<char> {
    "could not remove "@ + shown(id) + ": "@ + message
}

pub open spec fn unrestored(id: u128, message: Seq<char>) -> Seq<char> {
    "could not restore "@ + shown(id) + ": "@ + message
}

/// A rollback that goes on with the next profile.
pub open spec fn advanced(rollback: Return) -> Return {
    Return { left: (rollback.left - 1) as nat, undoing: Undoing::Removing, ..rollback }
}

/// A rollback that notes a failure and goes on with the next profile.
pub open spec fn noted(rollback: Return, failure: Seq<char>) -> Return {
    advanced(Return { failures: rollback.failures.push(failure), ..rollback })
}

/// A rollback after what it asked for was done, or failed. A failure stops the work on one profile,
/// not on the others.
pub open spec fn moved(rollback: Return, reply: Result<(), Seq<char>>) -> Return {
    if rollback.left == 0 {
        rollback
    } else {
        let item = rollback.completed[rollback.left - 1];
        match reply {
            Ok(_) => match rollback.undoing {
                Undoing::Removing => Return { undoing: Undoing::Forgetting, ..rollback },
                Undoing::Forgetting => if item.previous is Some {
                    Return { undoing: Undoing::Rebuilding, ..rollback }
                } else {
                    advanced(rollback)
                },
                Undoing::Rebuilding => Return { undoing: Undoing::Reinstalling, ..rollback },
                Undoing::Reinstalling => Return { undoing: Undoing::Resaving, ..rollback },
                Undoing::Resaving => advanced(rollback),
            },
            Err(message) => if rollback.undoing is Removing || rollback.undoing is Forgetting {
                noted(rollback, unremoved(item.current.id, message))
            } else {
                noted(rollback, unrestored(item.previous->Some_0.id, message))
            },
        }
    }
}

/// Texts in a row, with a separator between them.
pub open spec fn joined(list: Seq<Seq<char>>, separator: Seq<char>) -> Seq<char>
    decreases list.len(),
{
    if list.len() == 0 {
        Seq::empty()
    } else if list.len() == 1 {
        list[0]
    } else {
        joined(list.drop_last(), separator) + separator + list.last()
    }
}

/// What a rollback that is over comes to.
pub open spec fn concluded(rollback: Return) -> Result<(), Seq<char>> {
    if rollback.failures.len() == 0 {
        Ok(())
    } else {
        Err(joined(rollback.failures, "; "@))
    }
}

/// Puts texts in a row.
pub fn join_texts(list: &Vec<String>, separator: &str) -> (result: String)
    ensures
        result@ == joined(strings(list@), separator@),
{
    let ghost all = strings(list@);
    if list.len() == 0 {
        return String::new();
    }
    let mut result = list[0].clone();
    let mut index: usize = 1;
    assert(all.take(1) =~= seq![all[0]]);
    assert(all[0] == list@[0]@);
    while index < list.len()
        invariant
            1 <= index <= list@.len(),
            all == strings(list@),
            result@ == joined(all.take(index as int), separator@),
        decreases list.len() - index,
    {
        assert(all.take(index + 1).drop_last() =~= all.take(index as int));
        assert(all[index as int] == list@[index as int]@);
        result.append(separator);
        result.append(list[index].as_str());
        index += 1;
    }
    assert(all.take(all.len() as int) =~= all);
    result
}

impl Rollback {
    /// A rollback before anything is done.
    pub fn new(completed: Vec<Replacement>) -> (result: Self)
        ensures
            result@ == begun(exchanges(completed@)),
            is_sound(result@),
    {
        let left: usize = completed.len();
        let failures: Vec<String> = Vec::new();
        assert(strings(failures@) =~= Seq::<Seq<char>>::empty());
        Rollback { completed, left, undoing: Undoing::Removing, failures }
    }

    /// What is to be done next, until the rollback is over.
    pub fn next(&self) -> (result: Option<Act>)
        requires
            is_sound(self@),
        ensures
            requested(result) == asked(self@),
    {
        if self.left == 0 {
            return None;
        }
        let item = &self.completed[self.left - 1];
        assert(exchanges(self.completed@)[self.left - 1] == item@);
        match self.undoing {
            Undoing::Removing => Some(Act::Teardown(item.current.clone())),
            Undoing::Forgetting => Some(Act::RemoveState(item.current.id)),
            Undoing::Rebuilding => match &item.previous {
                Some(previous) => Some(Act::Prepare(previous.clone())),
                None => None,
            },
            Undoing::Reinstalling => match &item.previous {
                Some(previous) => Some(Act::Install(previous.clone())),
                None => None,
            },
            Undoing::Resaving => match &item.previous {
                Some(previous) => Some(Act::Save(previous.clone())),
                None => None,
            },
        }
    }

    /// Takes the result of what was asked for.
    pub fn advance(&mut self, reply: Result<(), Error>)
        requires
            is_sound(old(self)@),
        ensures
            final(self)@ == moved(old(self)@, outcome(reply)),
            is_sound(final(self)@),
    {
        if self.left == 0 {
            return;
        }
        let item = &self.completed[self.left - 1];
        assert(exchanges(self.completed@)[self.left - 1] == item@);
        match reply {
            Ok(_) => match self.undoing {
                Undoing::Removing => {
                    self.undoing = Undoing::Forgetting;
                },
                Undoing::Forgetting => {
                    if item.previous.is_some() {
                        self.undoing = Undoing::Rebuilding;
                    } else {
                        self.left = self.left - 1;
                        self.undoing = Undoing::Removing;
                    }
                },
                Undoing::Rebuilding => {
                    self.undoing = Undoing::Reinstalling;
                },
                Undoing::Reinstalling => {
                    self.undoing = Undoing::Resaving;
                },
                Undoing::Resaving => {
                    self.left = self.left - 1;
                    self.undoing = Undoing::Removing;
                },
            },
            Err(error) => {
                let message = match self.undoing {
                    Undoing::Removing | Undoing::Forgetting => text4(
                        "could not remove ",
                        shown_text(item.current.id).as_str(),
                        ": ",
                        error.message.as_str(),
                    ),
                    _ => {
                        let id: u128 = match &item.previous {
                            Some(previous) => previous.id,
                            None => item.current.id,
                        };
                        text4(
                            "could not restore ",
                            shown_text(id).as_str(),
                            ": ",
                            error.message.as_str(),
                        )
                    },
                };
                let ghost before = self.failures@;
                self.failures.push(message);
                assert(strings(self.failures@) =~= strings(before).push(message@));
                self.left = self.left - 1;
                self.undoing = Undoing::Removing;
            },
        }
    }

    /// What a rollback that is over comes to.
    pub fn conclude(&self) -> (result: Result<(), Error>)
        ensures
            outcome(result) == concluded(self@),
    {
        assert(strings(self.failures@).len() == self.failures@.len());
        if self.failures.len() == 0 {
            Ok(())
        } else {
            Err(Error { message: join_texts(&self.failures, "; ") })
        }
    }
}

/// How far the work on one profile is from its end.
pub open spec fn effort(undoing: Undoing) -> int {
    match undoing {
        Undoing::Removing => 5,
        Undoing::Forgetting => 4,
        Undoing::Rebuilding => 3,
        Undoing::Reinstalling => 2,
        Undoing::Resaving => 1,
    }
}

/// How far a rollback is from its end.
pub open spec fn remaining(rollback: Return) -> int {
    if rollback.left == 0 {
        0
    } else {
        5 * (rollback.left - 1) + effort(rollback.undoing)
    }
}

/// Every reply brings a rollback closer to its end, whatever fails, and no profile is forgotten:
/// work on the profiles before the current one is still to come.
pub proof fn rollbacks_end(rollback: Return, reply: Result<(), Seq<char>>)
    requires
        asked(rollback) is Some,
        is_sound(rollback),
    ensures
        0 <= remaining(moved(rollback, reply)) < remaining(rollback),
        moved(rollback, reply).left == rollback.left || (moved(rollback, reply).left
            == rollback.left - 1 && moved(rollback, reply).undoing is Removing),
        moved(rollback, reply).completed == rollback.completed,
        is_sound(moved(rollback, reply)),
{
}

/// A failure is noted exactly where a reply was one, and none is lost.
pub proof fn rollbacks_note_every_failure(rollback: Return, reply: Result<(), Seq<char>>)
    requires
        asked(rollback) is Some,
    ensures
        reply is Ok <==> moved(rollback, reply).failures == rollback.failures,
        reply is Err <==> moved(rollback, reply).failures.len() == rollback.failures.len() + 1,
        rollback.failures.is_prefix_of(moved(rollback, reply).failures),
{
    assert(rollback.failures.is_prefix_of(rollback.failures));
    if reply is Err {
        let after = moved(rollback, reply).failures;
        assert(after.subrange(0, rollback.failures.len() as int) =~= rollback.failures);
        assert(after.len() == rollback.failures.len() + 1);
    }
}

/// A profile that replaced another is taken back completely: it is taken out, its snapshot is
/// deleted, and the previous version is built, installed and stored again.
pub proof fn undisturbed_rollbacks_restore(rollback: Return)
    requires
        rollback.left > 0,
        rollback.undoing is Removing,
    ensures
        ({
            let done: Result<(), Seq<char>> = Ok(());
            let item = rollback.completed[rollback.left - 1];
            let second = moved(rollback, done);
            let third = moved(second, done);
            &&& asked(rollback) == Some(Work::Teardown(item.current))
            &&& asked(second) == Some(Work::RemoveState(item.current.id))
            &&& item.previous is None ==> third == advanced(rollback)
            &&& item.previous matches Some(old) ==> {
                let fourth = moved(third, done);
                let fifth = moved(fourth, done);
                &&& asked(third) == Some(Work::Prepare(old))
                &&& asked(fourth) == Some(Work::Install(old))
                &&& asked(fifth) == Some(Work::Save(old))
                &&& moved(fifth, done) == advanced(rollback)
            }
        }),
{
}

} // verus!
