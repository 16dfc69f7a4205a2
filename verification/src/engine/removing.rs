//! Removing an applied profile. What is removed is what the snapshot says, not what the
//! configuration says.

use crate::engine::state::optional_profile;
use crate::error::{outcome, Error};
use crate::model::{Profile, ProtectionProfile};
use vstd::prelude::*;

verus! {

/// Where a removal stands.
#[derive(Debug)]
pub enum RemovalStage {
    /// The profile is being taken out.
    TearingDown(ProtectionProfile),
    /// The snapshot is being deleted.
    Forgetting,
    /// The removal is over. Where it succeeded, it says whether there was anything to remove.
    Over(Result<bool, Error>),
}

/// Where a removal stands, as a value.
pub enum RemovalPhase {
    TearingDown(Profile),
    Forgetting,
    Over(Result<bool, Seq<char>>),
}

impl View for RemovalStage {
    type V = RemovalPhase;

    open spec fn view(&self) -> RemovalPhase {
        match self {
            RemovalStage::TearingDown(profile) => RemovalPhase::TearingDown(profile@),
            RemovalStage::Forgetting => RemovalPhase::Forgetting,
            RemovalStage::Over(result) => RemovalPhase::Over(outcome(*result)),
        }
    }
}

/// A removal after its snapshot was loaded.
pub open spec fn after_loading(loaded: Result<Option<Profile>, Seq<char>>) -> RemovalPhase {
    match loaded {
        Err(message) => RemovalPhase::Over(Err(message)),
        Ok(None) => RemovalPhase::Over(Ok(false)),
        Ok(Some(profile)) => RemovalPhase::TearingDown(profile),
    }
}

/// A removal after work on it was done, or failed.
pub open spec fn after_work(phase: RemovalPhase, reply: Result<(), Seq<char>>) -> RemovalPhase {
    match (phase, reply) {
        (RemovalPhase::TearingDown(_), Ok(_)) => RemovalPhase::Forgetting,
        (RemovalPhase::TearingDown(_), Err(message)) => RemovalPhase::Over(Err(message)),
        (RemovalPhase::Forgetting, Ok(_)) => RemovalPhase::Over(Ok(true)),
        (RemovalPhase::Forgetting, Err(message)) => RemovalPhase::Over(Err(message)),
        (other, _) => other,
    }
}

/// Begins to remove a profile, given the snapshot that was loaded of it.
pub fn remove_profile(snapshot: Result<Option<ProtectionProfile>, Error>) -> (result: RemovalStage)
    ensures
        result@ == after_loading(optional_profile(snapshot)),
{
    match snapshot {
        Err(error) => RemovalStage::Over(Err(error)),
        Ok(None) => RemovalStage::Over(Ok(false)),
        Ok(Some(profile)) => RemovalStage::TearingDown(profile),
    }
}

impl RemovalStage {
    /// Takes the result of taking the profile out, or of deleting its snapshot.
    pub fn advance(self, reply: Result<(), Error>) -> (result: Self)
        ensures
            result@ == after_work(self@, outcome(reply)),
    {
        match self {
            RemovalStage::TearingDown(_) => match reply {
                Ok(_) => RemovalStage::Forgetting,
                Err(error) => RemovalStage::Over(Err(error)),
            },
            RemovalStage::Forgetting => match reply {
                Ok(_) => RemovalStage::Over(Ok(true)),
                Err(error) => RemovalStage::Over(Err(error)),
            },
            other => other,
        }
    }
}

/// A profile is taken out exactly as its snapshot says, and the snapshot is deleted only after that
/// succeeded.
pub proof fn removals_follow_the_snapshot(
    loaded: Result<Option<Profile>, Seq<char>>,
    reply: Result<(), Seq<char>>,
)
    ensures
        after_loading(loaded) is TearingDown <==> (loaded is Ok && loaded->Ok_0 is Some),
        after_loading(loaded) matches RemovalPhase::TearingDown(profile) ==> loaded == Ok::<
            Option<Profile>,
            Seq<char>,
        >(Some(profile)),
        after_work(after_loading(loaded), reply) is Forgetting <==> after_loading(loaded) is TearingDown
            && reply is Ok,
{
}

} // verus!
