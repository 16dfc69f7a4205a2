//! Finding out whether a profile is in force: both modules are installed, and there is a rule for
//! every path.

use crate::command::{Call, Invocation, Output};
use crate::engine::observe::{
    find_module, find_rule, list_modules, list_rules, module_listing, module_present, rule_listing,
    rule_present,
};
use crate::engine::steps::rule_regex;
use crate::error::{outcome, Error};
use crate::model::{names_of, Profile, ProtectionProfile};
use crate::policy::{recursive_directory_regex, selinux_path_regex};
use crate::text::strings;
use vstd::prelude::*;

verus! {

/// Something that has to be there.
#[derive(Debug)]
pub enum Probe {
    Module(String),
    Rule { path: String, executable: bool },
}

/// Something that has to be there, as a value.
pub enum Sign {
    Module(Seq<char>),
    Rule { path: Seq<char>, executable: bool },
}

impl View for Probe {
    type V = Sign;

    open spec fn view(&self) -> Sign {
        match self {
            Probe::Module(module) => Sign::Module(module@),
            Probe::Rule { path, executable } => Sign::Rule {
                path: path@,
                executable: *executable,
            },
        }
    }
}

pub open spec fn signs(list: Seq<Probe>) -> Seq<Sign> {
    list.map_values(|item: Probe| item@)
}

/// What has to be there for a profile to be in force.
pub open spec fn signs_of(profile: Profile) -> Seq<Sign> {
    seq![
        Sign::Module(names_of(profile.id).module),
        Sign::Module(names_of(profile.id).deny_module),
        Sign::Rule { path: profile.executable, executable: true },
    ] + profile.data_directories.map_values(
        |path: Seq<char>| Sign::Rule { path, executable: false },
    )
}

/// An inspection.
#[derive(Debug)]
pub struct Inspection {
    pub probes: Vec<Probe>,
    /// How many probes were found.
    pub found: usize,
    /// What the inspection came to before its end, if it did.
    pub verdict: Option<Result<bool, Error>>,
}

/// An inspection, as a value.
pub struct Look {
    pub signs: Seq<Sign>,
    pub found: nat,
    pub verdict: Option<Result<bool, Seq<char>>>,
}

impl View for Inspection {
    type V = Look;

    open spec fn view(&self) -> Look {
        Look {
            signs: signs(self.probes@),
            found: self.found as nat,
            verdict: match self.verdict {
                Some(result) => Some(outcome(result)),
                None => None,
            },
        }
    }
}

/// What an inspection waits for.
#[derive(Debug)]
pub enum Progress {
    /// The output of a command.
    Waiting(Invocation),
    /// Nothing: it is over.
    Over(Result<bool, Error>),
}

/// What an inspection waits for, as a value.
pub enum Sight {
    Waiting(Call),
    Over(Result<bool, Seq<char>>),
}

impl View for Progress {
    type V = Sight;

    open spec fn view(&self) -> Sight {
        match self {
            Progress::Waiting(invocation) => Sight::Waiting(invocation@),
            Progress::Over(result) => Sight::Over(outcome(*result)),
        }
    }
}

/// An inspection before its first probe.
pub open spec fn begun(profile: Profile) -> Look {
    Look { signs: signs_of(profile), found: 0, verdict: None }
}

/// What an inspection waits for.
pub open spec fn sight(look: Look) -> Sight {
    if let Some(result) = look.verdict {
        Sight::Over(result)
    } else if look.found >= look.signs.len() {
        Sight::Over(Ok(true))
    } else {
        match look.signs[look.found as int] {
            Sign::Module(_) => Sight::Waiting(module_listing()),
            Sign::Rule { path, executable } => match rule_regex(path, executable) {
                Ok(_) => Sight::Waiting(rule_listing()),
                Err(message) => Sight::Over(Err(message)),
            },
        }
    }
}

/// Whether something is there, as the output of the command says.
pub open spec fn is_seen(sign: Sign, ran: Result<Output, Seq<char>>) -> Result<bool, Seq<char>> {
    match sign {
        Sign::Module(module) => module_present(ran, module),
        Sign::Rule { path, executable } => match rule_regex(path, executable) {
            Ok(regex) => rule_present(ran, regex),
            Err(message) => Err(message),
        },
    }
}

/// An inspection after the output of a command.
pub open spec fn moved(look: Look, ran: Result<Output, Seq<char>>) -> Look {
    match is_seen(look.signs[look.found as int], ran) {
        Ok(true) => Look { found: look.found + 1, ..look },
        other => Look { verdict: Some(other), ..look },
    }
}

impl Inspection {
    /// An inspection before its first probe.
    pub fn new(profile: &ProtectionProfile) -> (result: Self)
        ensures
            result@ == begun(profile@),
    {
        let ids = profile.identifiers();
        let mut probes: Vec<Probe> = Vec::new();
        probes.push(Probe::Module(ids.module));
        probes.push(Probe::Module(ids.deny_module));
        probes.push(Probe::Rule { path: profile.executable.clone(), executable: true });
        let ghost all = strings(profile.data_directories@);
        let ghost rule = |path: Seq<char>| Sign::Rule { path, executable: false };
        let ghost head = signs(probes@);
        assert(head + all.take(0).map_values(rule) =~= head);
        let mut index: usize = 0;
        while index < profile.data_directories.len()
            invariant
                index <= profile.data_directories@.len(),
                all == strings(profile.data_directories@),
                rule == (|path: Seq<char>| Sign::Rule { path, executable: false }),
                signs(probes@) == head + all.take(index as int).map_values(rule),
            decreases profile.data_directories.len() - index,
        {
            let ghost before = probes@;
            assert(all[index as int] == profile.data_directories@[index as int]@);
            let path = profile.data_directories[index].clone();
            probes.push(Probe::Rule { path, executable: false });
            let ghost longer = all.take(index + 1);
            assert(signs(probes@) =~= signs(before).push(rule(all[index as int])));
            assert(longer.map_values(rule) =~= all.take(index as int).map_values(rule).push(
                rule(all[index as int]),
            ));
            assert(signs(probes@) =~= head + longer.map_values(rule));
            index += 1;
        }
        assert(all.take(all.len() as int) =~= all);
        let result = Inspection { probes, found: 0, verdict: None };
        assert(result@.signs =~= signs_of(profile@));
        result
    }

    /// What the inspection waits for.
    pub fn status(&self) -> (result: Progress)
        ensures
            result@ == sight(self@),
    {
        match &self.verdict {
            Some(Ok(answer)) => {
                return Progress::Over(Ok(*answer));
            },
            Some(Err(error)) => {
                return Progress::Over(Err(Error { message: error.message.clone() }));
            },
            None => {},
        }
        assert(signs(self.probes@).len() == self.probes@.len());
        if self.found >= self.probes.len() {
            return Progress::Over(Ok(true));
        }
        assert(signs(self.probes@)[self.found as int] == self.probes@[self.found as int]@);
        match &self.probes[self.found] {
            Probe::Module(_) => Progress::Waiting(list_modules()),
            Probe::Rule { path, executable } => {
                let regex = if *executable {
                    selinux_path_regex(path.as_str())
                } else {
                    recursive_directory_regex(path.as_str())
                };
                match regex {
                    Ok(_) => Progress::Waiting(list_rules()),
                    Err(error) => Progress::Over(Err(error)),
                }
            },
        }
    }

    /// Takes the output of the command that the inspection waits for.
    pub fn advance(&mut self, ran: Result<Output, Error>)
        requires
            sight(old(self)@) is Waiting,
        ensures
            final(self)@ == moved(old(self)@, outcome(ran)),
    {
        let index: usize = self.found;
        assert(signs(self.probes@).len() == self.probes@.len());
        assert(index < self.probes.len());
        assert(signs(self.probes@)[index as int] == self.probes@[index as int]@);
        let seen = match &self.probes[index] {
            Probe::Module(module) => find_module(ran, module.as_str()),
            Probe::Rule { path, executable } => {
                let regex = if *executable {
                    selinux_path_regex(path.as_str())
                } else {
                    recursive_directory_regex(path.as_str())
                };
                match regex {
                    Ok(regex) => find_rule(ran, regex.as_str()),
                    Err(error) => Err(error),
                }
            },
        };
        match seen {
            Ok(true) => {
                self.found = index + 1;
            },
            other => {
                self.verdict = Some(other);
            },
        }
    }
}

/// An inspection ends, and finds a profile in force exactly where every answer showed what was
/// looked for.
pub proof fn inspections_look_at_everything(look: Look, ran: Result<Output, Seq<char>>)
    requires
        sight(look) is Waiting,
    ensures
        look.verdict is None && look.found < look.signs.len(),
        moved(look, ran).verdict is None <==> is_seen(look.signs[look.found as int], ran) == Ok::<
            bool,
            Seq<char>,
        >(true),
        moved(look, ran).verdict is None ==> moved(look, ran).found == look.found + 1,
        moved(look, ran).verdict is Some ==> sight(moved(look, ran)) == Sight::Over(
            is_seen(look.signs[look.found as int], ran),
        ),
{
}

} // verus!
