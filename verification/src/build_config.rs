//! The settings of the installed reference policy, as far as generated modules are built with
//! them. The settings file is read here, without running Make.

use crate::error::{in_context, outcome, viewed, Error};
use crate::policy::is_word_character;
use crate::text::{
    begins, characters, decimal, decimal_text, find_char, lemma_occurrence, lemma_position,
    lemma_trimmed_push, lemma_trimmed_range, lines, lines_of, number_complaint, optional,
    parsed_number, parted, position, read_number, reads, slices, split_once, starts_with, strings,
    text2, text3, to_text, trim, trim_start, trimmed, trimmed_start, without_return,
};
use vstd::prelude::*;
use vstd::slice::slice_subrange;

verus! {

/// The settings that generated modules are built with.
#[derive(Debug, Eq, PartialEq)]
pub struct PolicyBuildConfig {
    pub policy_type: String,
    pub distribution: Option<String>,
    pub direct_initrc: bool,
    pub ubac: bool,
    pub mls_sensitivities: u32,
    pub mls_categories: u32,
    pub mcs_categories: u32,
}

/// The settings, as values.
pub struct Settings {
    pub policy_type: Seq<char>,
    pub distribution: Option<Seq<char>>,
    pub direct_initrc: bool,
    pub ubac: bool,
    pub mls_sensitivities: u32,
    pub mls_categories: u32,
    pub mcs_categories: u32,
}

impl View for PolicyBuildConfig {
    type V = Settings;

    open spec fn view(&self) -> Settings {
        Settings {
            policy_type: self.policy_type@,
            distribution: optional(self.distribution),
            direct_initrc: self.direct_initrc,
            ubac: self.ubac,
            mls_sensitivities: self.mls_sensitivities,
            mls_categories: self.mls_categories,
            mcs_categories: self.mcs_categories,
        }
    }
}

/// The settings where the file says nothing.
pub open spec fn default_settings() -> Settings {
    Settings {
        policy_type: "standard"@,
        distribution: None,
        direct_initrc: false,
        ubac: false,
        mls_sensitivities: 16,
        mls_categories: 1024,
        mcs_categories: 1024,
    }
}

impl Default for PolicyBuildConfig {
    fn default() -> (result: Self)
        ensures
            result@ == default_settings(),
    {
        PolicyBuildConfig {
            policy_type: "standard".to_owned(),
            distribution: None,
            direct_initrc: false,
            ubac: false,
            mls_sensitivities: 16,
            mls_categories: 1024,
            mcs_categories: 1024,
        }
    }
}

/// A macro definition on the command line.
pub open spec fn definition(name: Seq<char>) -> Seq<Seq<char>> {
    seq!["-D"@, name]
}

/// A macro definition that is there only in some cases.
pub open spec fn definition_if(condition: bool, name: Seq<char>) -> Seq<Seq<char>> {
    if condition {
        definition(name)
    } else {
        Seq::empty()
    }
}

/// Whether modules are built with sensitivities and categories.
pub open spec fn is_multilevel(settings: Settings) -> bool {
    settings.policy_type == "mcs"@ || settings.policy_type == "mls"@
}

/// The macro definitions that stand for the settings.
pub open spec fn definitions(settings: Settings) -> Seq<Seq<char>> {
    definition_if(settings.policy_type == "mcs"@, "enable_mcs"@) + definition_if(
        settings.policy_type != "mcs"@ && settings.policy_type == "mls"@,
        "enable_mls"@,
    ) + match settings.distribution {
        Some(distribution) => definition("distro_"@ + distribution),
        None => Seq::empty(),
    } + definition_if(settings.direct_initrc, "direct_sysadm_daemon"@) + definition_if(
        settings.ubac,
        "enable_ubac"@,
    ) + definition("hide_broken_symptoms"@) + definition(
        "mls_num_sens="@ + decimal(settings.mls_sensitivities as nat),
    ) + definition("mls_num_cats="@ + decimal(settings.mls_categories as nat)) + definition(
        "mcs_num_cats="@ + decimal(settings.mcs_categories as nat),
    )
}

fn push_definition(arguments: &mut Vec<String>, name: String)
    ensures
        strings(final(arguments)@) == strings(old(arguments)@) + definition(name@),
{
    let ghost before = arguments@;
    arguments.push("-D".to_owned());
    arguments.push(name);
    assert(strings(arguments@) =~= strings(before) + definition(name@));
}

impl PolicyBuildConfig {
    /// Whether modules are built with sensitivities and categories.
    pub fn uses_mls_symbols(&self) -> (result: bool)
        ensures
            result == is_multilevel(self@),
    {
        let chars = characters(self.policy_type.as_str());
        reads(chars.as_slice(), "mcs") || reads(chars.as_slice(), "mls")
    }

    /// The macro definitions that stand for the settings, as arguments.
    pub fn m4_arguments(&self) -> (result: Vec<String>)
        ensures
            strings(result@) == definitions(self@),
    {
        let mut arguments: Vec<String> = Vec::new();
        assert(strings(arguments@) =~= Seq::<Seq<char>>::empty());
        let kind = characters(self.policy_type.as_str());
        if reads(kind.as_slice(), "mcs") {
            push_definition(&mut arguments, "enable_mcs".to_owned());
        } else if reads(kind.as_slice(), "mls") {
            push_definition(&mut arguments, "enable_mls".to_owned());
        }
        if let Some(distribution) = &self.distribution {
            push_definition(&mut arguments, text2("distro_", distribution.as_str()));
        }
        if self.direct_initrc {
            push_definition(&mut arguments, "direct_sysadm_daemon".to_owned());
        }
        if self.ubac {
            push_definition(&mut arguments, "enable_ubac".to_owned());
        }
        push_definition(&mut arguments, "hide_broken_symptoms".to_owned());
        let sensitivities = decimal_text(self.mls_sensitivities as u64);
        push_definition(&mut arguments, text2("mls_num_sens=", sensitivities.as_str()));
        let categories = decimal_text(self.mls_categories as u64);
        push_definition(&mut arguments, text2("mls_num_cats=", categories.as_str()));
        let compartments = decimal_text(self.mcs_categories as u64);
        push_definition(&mut arguments, text2("mcs_num_cats=", compartments.as_str()));
        assert(strings(arguments@) =~= definitions(self@));
        arguments
    }
}

/// A line of the settings file without its comment and without a leading `override`.
pub open spec fn statement(line: Seq<char>) -> Seq<char> {
    let content = trimmed(line.take(position(line, '#') as int));
    if begins(content, "override "@) {
        trimmed_start(content.skip("override "@.len() as int))
    } else {
        content
    }
}

/// The two sides of a Make assignment. An unconditional operator is looked for first.
pub open spec fn assignment(text: Seq<char>) -> Option<(Seq<char>, Seq<char>)> {
    match parted(text, ":="@) {
        Some(sides) => Some(sides),
        None => match parted(text, "?="@) {
            Some(sides) => Some(sides),
            None => parted(text, "="@),
        },
    }
}

/// Splits a Make assignment into its two sides.
pub fn split_make_assignment(line: &[char]) -> (result: Option<(&[char], &[char])>)
    ensures
        match result {
            Some((key, value)) => assignment(line@) == Some((key@, value@)),
            None => assignment(line@) is None,
        },
{
    let unconditional = characters(":=");
    if let Some(sides) = split_once(line, unconditional.as_slice()) {
        return Some(sides);
    }
    let conditional = characters("?=");
    if let Some(sides) = split_once(line, conditional.as_slice()) {
        return Some(sides);
    }
    let plain = characters("=");
    split_once(line, plain.as_slice())
}

/// Whether a value can become part of a macro name: at most 64 letters, digits and underscores.
pub open spec fn is_build_token(value: Seq<char>) -> bool {
    value.len() <= 64 && forall|i: int|
        0 <= i < value.len() ==> is_word_character(#[trigger] value[i])
}

fn token_character(character: char) -> (result: bool)
    ensures
        result == is_word_character(character),
{
    let code: u32 = character as u32;
    (65 <= code && code <= 90) || (97 <= code && code <= 122) || (48 <= code && code <= 57) || code
        == 95
}

/// Refuses a value that cannot become part of a macro name.
pub fn validate_build_token(value: &[char], label: &str) -> (result: Result<(), Error>)
    ensures
        outcome(result) == if is_build_token(value@) {
            Ok::<(), Seq<char>>(())
        } else {
            Err(label@ + " contains unsupported characters"@)
        },
{
    let mut valid = value.len() <= 64;
    let mut index: usize = 0;
    while valid && index < value.len()
        invariant
            index <= value@.len(),
            valid ==> value@.len() <= 64 && forall|i: int|
                0 <= i < index ==> is_word_character(#[trigger] value@[i]),
            !valid ==> !is_build_token(value@),
        decreases value.len() - index,
    {
        if !token_character(value[index]) {
            valid = false;
        }
        index += 1;
    }
    if valid {
        Ok(())
    } else {
        Err(Error { message: text2(label, " contains unsupported characters") })
    }
}

/// What a setting that is switched on or off says.
pub open spec fn switched(value: Seq<char>, key: Seq<char>) -> Result<bool, Seq<char>> {
    if value == "y"@ {
        Ok(true)
    } else if value == "n"@ {
        Ok(false)
    } else {
        Err("SELinux build setting "@ + key + " must be 'y' or 'n'"@)
    }
}

/// Reads a setting that is switched on or off.
pub fn parse_yes_no(value: &[char], key: &str) -> (result: Result<bool, Error>)
    ensures
        outcome(result) == switched(value@, key@),
{
    proof {
        reveal_strlit("y");
        reveal_strlit("n");
        assert("y"@[0] != "n"@[0]);
    }
    if reads(value, "y") {
        Ok(true)
    } else if reads(value, "n") {
        Ok(false)
    } else {
        Err(Error { message: text3("SELinux build setting ", key, " must be 'y' or 'n'") })
    }
}

/// The largest number that a setting states.
pub const MAX_BUILD_NUMBER: u32 = 65536;

/// What a numeric setting says, from what the reader of numbers said.
pub open spec fn accepted_number(read: Result<u32, Seq<char>>, key: Seq<char>) -> Result<
    u32,
    Seq<char>,
> {
    match read {
        Err(complaint) => Err(
            in_context(complaint, "SELinux build setting "@ + key + " must be a number"@),
        ),
        Ok(number) => if number == 0 || number > MAX_BUILD_NUMBER {
            Err("SELinux build setting "@ + key + " is outside the supported range"@)
        } else {
            Ok(number)
        },
    }
}

/// What a numeric setting says.
pub open spec fn counted(value: Seq<char>, key: Seq<char>) -> Result<u32, Seq<char>> {
    accepted_number(
        match parsed_number(value) {
            Some(number) => Ok(number),
            None => Err(number_complaint(value)),
        },
        key,
    )
}

/// The outcome of reading a numeric setting, from what the reader of numbers said.
pub fn accept_build_number(read: Result<u32, String>, key: &str) -> (result: Result<u32, Error>)
    ensures
        outcome(result) == accepted_number(
            match read {
                Ok(number) => Ok(number),
                Err(complaint) => Err(complaint@),
            },
            key@,
        ),
{
    match read {
        Err(complaint) => Err(
            Error::new(complaint.as_str()).context(
                text3("SELinux build setting ", key, " must be a number").as_str(),
            ),
        ),
        Ok(number) => if number == 0 || number > MAX_BUILD_NUMBER {
            Err(
                Error {
                    message: text3(
                        "SELinux build setting ",
                        key,
                        " is outside the supported range",
                    ),
                },
            )
        } else {
            Ok(number)
        },
    }
}

/// Reads a numeric setting.
pub fn parse_build_number(value: &[char], key: &str) -> (result: Result<u32, Error>)
    ensures
        outcome(result) == counted(value@, key@),
{
    let text = to_text(value);
    accept_build_number(read_number(text.as_str()), key)
}

pub open spec fn is_policy_type(value: Seq<char>) -> bool {
    value == "standard"@ || value == "mcs"@ || value == "mls"@
}

/// The settings after one assignment. Keys that are not used here change nothing.
pub open spec fn assigned(
    settings: Settings,
    key: Seq<char>,
    value: Seq<char>,
) -> Result<Settings, Seq<char>> {
    if key == "TYPE"@ {
        if is_policy_type(value) {
            Ok(Settings { policy_type: value, ..settings })
        } else {
            Err("Unsupported SELinux policy type '"@ + value + "'"@)
        }
    } else if key == "DISTRO"@ {
        if is_build_token(value) {
            let distribution = if value.len() == 0 {
                None
            } else {
                Some(value)
            };
            Ok(Settings { distribution, ..settings })
        } else {
            Err("SELinux policy distribution"@ + " contains unsupported characters"@)
        }
    } else if key == "DIRECT_INITRC"@ {
        match switched(value, key) {
            Ok(direct_initrc) => Ok(Settings { direct_initrc, ..settings }),
            Err(message) => Err(message),
        }
    } else if key == "UBAC"@ {
        match switched(value, key) {
            Ok(ubac) => Ok(Settings { ubac, ..settings }),
            Err(message) => Err(message),
        }
    } else if key == "MLS_SENS"@ {
        match counted(value, key) {
            Ok(mls_sensitivities) => Ok(Settings { mls_sensitivities, ..settings }),
            Err(message) => Err(message),
        }
    } else if key == "MLS_CATS"@ {
        match counted(value, key) {
            Ok(mls_categories) => Ok(Settings { mls_categories, ..settings }),
            Err(message) => Err(message),
        }
    } else if key == "MCS_CATS"@ {
        match counted(value, key) {
            Ok(mcs_categories) => Ok(Settings { mcs_categories, ..settings }),
            Err(message) => Err(message),
        }
    } else {
        Ok(settings)
    }
}

/// The settings after one line of the file.
pub open spec fn after_line(settings: Settings, line: Seq<char>) -> Result<Settings, Seq<char>> {
    match assignment(statement(line)) {
        Some((key, value)) => assigned(settings, trimmed(key), trimmed(value)),
        None => Ok(settings),
    }
}

/// The settings after the first `count` lines, or the first error.
pub open spec fn after_lines(lines: Seq<Seq<char>>, count: nat) -> Result<Settings, Seq<char>>
    decreases count,
{
    if count == 0 {
        Ok(default_settings())
    } else {
        match after_lines(lines, (count - 1) as nat) {
            Ok(settings) => after_line(settings, lines[count - 1]),
            Err(message) => Err(message),
        }
    }
}

/// The settings that a file states.
pub open spec fn parsed_settings(text: Seq<char>) -> Result<Settings, Seq<char>> {
    after_lines(lines_of(text), lines_of(text).len())
}

fn line_statement(line: &[char]) -> (result: &[char])
    ensures
        result@ == statement(line@),
{
    proof {
        assert(line@.skip(0) == line@);
        reveal_strlit("override ");
    }
    let end = find_char(line, 0, '#');
    let content = trim(slice_subrange(line, 0, end));
    assert(line@.subrange(0, end as int) == line@.take(end as int));
    let prefix = characters("override ");
    if starts_with(content, prefix.as_slice()) {
        assert(content.len() == content@.len());
        trim_start(slice_subrange(content, prefix.len(), content.len()))
    } else {
        content
    }
}

/// Applies one assignment.
fn assign(config: PolicyBuildConfig, key: &[char], value: &[char]) -> (result: Result<
    PolicyBuildConfig,
    Error,
>)
    ensures
        viewed(result) == assigned(config@, key@, value@),
{
    let mut config = config;
    if reads(key, "TYPE") {
        if reads(value, "standard") || reads(value, "mcs") || reads(value, "mls") {
            config.policy_type = to_text(value);
            Ok(config)
        } else {
            let shown = to_text(value);
            let message = text3("Unsupported SELinux policy type '", shown.as_str(), "'");
            Err(Error { message })
        }
    } else if reads(key, "DISTRO") {
        match validate_build_token(value, "SELinux policy distribution") {
            Err(error) => Err(error),
            Ok(()) => {
                config.distribution = if value.len() == 0 {
                    None
                } else {
                    Some(to_text(value))
                };
                Ok(config)
            },
        }
    } else if reads(key, "DIRECT_INITRC") {
        match parse_yes_no(value, "DIRECT_INITRC") {
            Ok(answer) => {
                config.direct_initrc = answer;
                Ok(config)
            },
            Err(error) => Err(error),
        }
    } else if reads(key, "UBAC") {
        match parse_yes_no(value, "UBAC") {
            Ok(answer) => {
                config.ubac = answer;
                Ok(config)
            },
            Err(error) => Err(error),
        }
    } else if reads(key, "MLS_SENS") {
        match parse_build_number(value, "MLS_SENS") {
            Ok(number) => {
                config.mls_sensitivities = number;
                Ok(config)
            },
            Err(error) => Err(error),
        }
    } else if reads(key, "MLS_CATS") {
        match parse_build_number(value, "MLS_CATS") {
            Ok(number) => {
                config.mls_categories = number;
                Ok(config)
            },
            Err(error) => Err(error),
        }
    } else if reads(key, "MCS_CATS") {
        match parse_build_number(value, "MCS_CATS") {
            Ok(number) => {
                config.mcs_categories = number;
                Ok(config)
            },
            Err(error) => Err(error),
        }
    } else {
        Ok(config)
    }
}

/// Reads the settings file of the installed reference policy.
pub fn parse_policy_build_config(text: &str) -> (result: Result<PolicyBuildConfig, Error>)
    ensures
        viewed(result) == parsed_settings(text@),
{
    let chars = characters(text);
    let list = lines(chars.as_slice());
    let ghost all = lines_of(text@);
    let mut config = PolicyBuildConfig::default();
    let mut index: usize = 0;
    while index < list.len()
        invariant
            index <= list@.len(),
            slices(list@) == all,
            all == lines_of(text@),
            after_lines(all, index as nat) == Ok::<Settings, Seq<char>>(config@),
        decreases list.len() - index,
    {
        assert(slices(list@)[index as int] == list@[index as int]@);
        let content = line_statement(list[index]);
        if let Some((key, value)) = split_make_assignment(content) {
            match assign(config, trim(key), trim(value)) {
                Ok(next) => {
                    config = next;
                },
                Err(error) => {
                    proof {
                        lemma_error_stays(all, (index + 1) as nat, all.len());
                    }
                    return Err(error);
                },
            }
        }
        index += 1;
    }
    Ok(config)
}

proof fn lemma_error_stays(lines: Seq<Seq<char>>, hit: nat, count: nat)
    requires
        hit <= count,
        after_lines(lines, hit) is Err,
    ensures
        after_lines(lines, count) == after_lines(lines, hit),
    decreases count,
{
    if hit < count {
        lemma_error_stays(lines, hit, (count - 1) as nat);
    }
}

/// Whether settings are within their bounds.
pub open spec fn is_bounded(settings: Settings) -> bool {
    &&& is_policy_type(settings.policy_type)
    &&& settings.distribution matches Some(token) ==> is_build_token(token) && token.len() > 0
    &&& 1 <= settings.mls_sensitivities <= MAX_BUILD_NUMBER
    &&& 1 <= settings.mls_categories <= MAX_BUILD_NUMBER
    &&& 1 <= settings.mcs_categories <= MAX_BUILD_NUMBER
}

proof fn lemma_bounded(lines: Seq<Seq<char>>, count: nat)
    ensures
        after_lines(lines, count) matches Ok(settings) ==> is_bounded(settings),
    decreases count,
{
    if count > 0 {
        lemma_bounded(lines, (count - 1) as nat);
    }
}

/// Whatever the settings file holds, settings that are read from it are within their bounds.
pub proof fn read_settings_are_bounded(text: Seq<char>)
    ensures
        parsed_settings(text) matches Ok(settings) ==> is_bounded(settings),
{
    lemma_bounded(lines_of(text), lines_of(text).len());
}

/// Whether an argument is made of letters, digits, underscores, and the signs of a definition.
pub open spec fn is_plain_argument(argument: Seq<char>) -> bool {
    forall|i: int|
        0 <= i < argument.len() ==> is_word_character(#[trigger] argument[i]) || argument[i] == '='
            || argument[i] == '-'
}

proof fn lemma_decimal_is_plain(value: nat)
    ensures
        is_plain_argument(decimal(value)),
    decreases value,
{
    if value >= 10 {
        lemma_decimal_is_plain(value / 10);
    }
}

proof fn lemma_plain_sum(left: Seq<char>, right: Seq<char>)
    requires
        is_plain_argument(left),
        is_plain_argument(right),
    ensures
        is_plain_argument(left + right),
{
}

pub open spec fn all_plain(list: Seq<Seq<char>>) -> bool {
    forall|i: int| 0 <= i < list.len() ==> is_plain_argument(#[trigger] list[i])
}

proof fn lemma_plain_definition(name: Seq<char>)
    requires
        is_plain_argument(name),
    ensures
        all_plain(definition(name)),
{
    reveal_strlit("-D");
}

proof fn lemma_plain_concat(left: Seq<Seq<char>>, right: Seq<Seq<char>>)
    requires
        all_plain(left),
        all_plain(right),
    ensures
        all_plain(left + right),
{
}

/// The definitions made of bounded settings hold nothing but plain characters: no setting can
/// bring an option, a path or a command into the arguments.
pub proof fn definitions_are_plain(settings: Settings)
    requires
        is_bounded(settings),
    ensures
        all_plain(definitions(settings)),
{
    reveal_strlit("enable_mcs");
    reveal_strlit("enable_mls");
    reveal_strlit("distro_");
    reveal_strlit("direct_sysadm_daemon");
    reveal_strlit("enable_ubac");
    reveal_strlit("hide_broken_symptoms");
    reveal_strlit("mls_num_sens=");
    reveal_strlit("mls_num_cats=");
    reveal_strlit("mcs_num_cats=");
    let a = definition_if(settings.policy_type == "mcs"@, "enable_mcs"@);
    lemma_plain_definition("enable_mcs"@);
    let b = definition_if(
        settings.policy_type != "mcs"@ && settings.policy_type == "mls"@,
        "enable_mls"@,
    );
    lemma_plain_definition("enable_mls"@);
    lemma_plain_concat(a, b);
    let c = match settings.distribution {
        Some(distribution) => definition("distro_"@ + distribution),
        None => Seq::empty(),
    };
    if let Some(distribution) = settings.distribution {
        lemma_plain_sum("distro_"@, distribution);
        lemma_plain_definition("distro_"@ + distribution);
    }
    lemma_plain_concat(a + b, c);
    let d = definition_if(settings.direct_initrc, "direct_sysadm_daemon"@);
    lemma_plain_definition("direct_sysadm_daemon"@);
    lemma_plain_concat(a + b + c, d);
    let e = definition_if(settings.ubac, "enable_ubac"@);
    lemma_plain_definition("enable_ubac"@);
    lemma_plain_concat(a + b + c + d, e);
    let f = definition("hide_broken_symptoms"@);
    lemma_plain_definition("hide_broken_symptoms"@);
    lemma_plain_concat(a + b + c + d + e, f);
    lemma_decimal_is_plain(settings.mls_sensitivities as nat);
    lemma_plain_sum("mls_num_sens="@, decimal(settings.mls_sensitivities as nat));
    let g = definition("mls_num_sens="@ + decimal(settings.mls_sensitivities as nat));
    lemma_plain_definition("mls_num_sens="@ + decimal(settings.mls_sensitivities as nat));
    lemma_plain_concat(a + b + c + d + e + f, g);
    lemma_decimal_is_plain(settings.mls_categories as nat);
    lemma_plain_sum("mls_num_cats="@, decimal(settings.mls_categories as nat));
    let h = definition("mls_num_cats="@ + decimal(settings.mls_categories as nat));
    lemma_plain_definition("mls_num_cats="@ + decimal(settings.mls_categories as nat));
    lemma_plain_concat(a + b + c + d + e + f + g, h);
    lemma_decimal_is_plain(settings.mcs_categories as nat);
    lemma_plain_sum("mcs_num_cats="@, decimal(settings.mcs_categories as nat));
    let i = definition("mcs_num_cats="@ + decimal(settings.mcs_categories as nat));
    lemma_plain_definition("mcs_num_cats="@ + decimal(settings.mcs_categories as nat));
    lemma_plain_concat(a + b + c + d + e + f + g + h, i);
}

/// The settings after lines that follow other settings, or the first error.
pub open spec fn continued(settings: Settings, lines: Seq<Seq<char>>) -> Result<Settings, Seq<char>>
    decreases lines.len(),
{
    if lines.len() == 0 {
        Ok(settings)
    } else {
        match after_line(settings, lines[0]) {
            Ok(next) => continued(next, lines.skip(1)),
            Err(message) => Err(message),
        }
    }
}

proof fn lemma_continued_last(settings: Settings, lines: Seq<Seq<char>>)
    requires
        lines.len() > 0,
    ensures
        continued(settings, lines) == match continued(settings, lines.drop_last()) {
            Ok(next) => after_line(next, lines.last()),
            Err(message) => Err(message),
        },
    decreases lines.len(),
{
    if lines.len() > 1 {
        assert(lines.drop_last()[0] == lines[0]);
        assert(lines.skip(1).drop_last() =~= lines.drop_last().skip(1));
        if let Ok(next) = after_line(settings, lines[0]) {
            lemma_continued_last(next, lines.skip(1));
        }
    } else {
        reveal_with_fuel(continued, 2);
        assert(lines.drop_last() =~= Seq::<Seq<char>>::empty());
    }
}

proof fn lemma_continued(lines: Seq<Seq<char>>, count: nat)
    requires
        count <= lines.len(),
    ensures
        after_lines(lines, count) == continued(default_settings(), lines.take(count as int)),
    decreases count,
{
    if count > 0 {
        let part = lines.take(count as int);
        lemma_continued(lines, (count - 1) as nat);
        lemma_continued_last(default_settings(), part);
        assert(part.drop_last() =~= lines.take(count - 1));
    }
}

/// What a line assigns: a setting and its value.
pub open spec fn entry(line: Seq<char>) -> Option<(Seq<char>, Seq<char>)> {
    match assignment(statement(line)) {
        Some((key, value)) => Some((trimmed(key), trimmed(value))),
        None => None,
    }
}

/// Whether a line assigns a setting.
pub open spec fn assigns(line: Seq<char>, key: Seq<char>) -> bool {
    entry(line) matches Some((found, _)) && found == key
}

/// Whether one of some lines assigns a setting.
pub open spec fn some_assigns(lines: Seq<Seq<char>>, key: Seq<char>) -> bool {
    exists|i: int| 0 <= i < lines.len() && assigns(#[trigger] lines[i], key)
}

/// Settings with those that some lines assign taken from others.
pub open spec fn merged(left: Settings, right: Settings, lines: Seq<Seq<char>>) -> Settings {
    Settings {
        policy_type: if some_assigns(lines, "TYPE"@) {
            right.policy_type
        } else {
            left.policy_type
        },
        distribution: if some_assigns(lines, "DISTRO"@) {
            right.distribution
        } else {
            left.distribution
        },
        direct_initrc: if some_assigns(lines, "DIRECT_INITRC"@) {
            right.direct_initrc
        } else {
            left.direct_initrc
        },
        ubac: if some_assigns(lines, "UBAC"@) {
            right.ubac
        } else {
            left.ubac
        },
        mls_sensitivities: if some_assigns(lines, "MLS_SENS"@) {
            right.mls_sensitivities
        } else {
            left.mls_sensitivities
        },
        mls_categories: if some_assigns(lines, "MLS_CATS"@) {
            right.mls_categories
        } else {
            left.mls_categories
        },
        mcs_categories: if some_assigns(lines, "MCS_CATS"@) {
            right.mcs_categories
        } else {
            left.mcs_categories
        },
    }
}

proof fn lemma_keys_differ()
    ensures
        "TYPE"@ != "DISTRO"@ && "TYPE"@ != "DIRECT_INITRC"@ && "TYPE"@ != "UBAC"@ && "TYPE"@
            != "MLS_SENS"@ && "TYPE"@ != "MLS_CATS"@ && "TYPE"@ != "MCS_CATS"@,
        "DISTRO"@ != "DIRECT_INITRC"@ && "DISTRO"@ != "UBAC"@ && "DISTRO"@ != "MLS_SENS"@
            && "DISTRO"@ != "MLS_CATS"@ && "DISTRO"@ != "MCS_CATS"@,
        "DIRECT_INITRC"@ != "UBAC"@ && "DIRECT_INITRC"@ != "MLS_SENS"@ && "DIRECT_INITRC"@
            != "MLS_CATS"@ && "DIRECT_INITRC"@ != "MCS_CATS"@,
        "UBAC"@ != "MLS_SENS"@ && "UBAC"@ != "MLS_CATS"@ && "UBAC"@ != "MCS_CATS"@,
        "MLS_SENS"@ != "MLS_CATS"@ && "MLS_SENS"@ != "MCS_CATS"@ && "MLS_CATS"@ != "MCS_CATS"@,
{
    reveal_strlit("TYPE");
    reveal_strlit("DISTRO");
    reveal_strlit("DIRECT_INITRC");
    reveal_strlit("UBAC");
    reveal_strlit("MLS_SENS");
    reveal_strlit("MLS_CATS");
    reveal_strlit("MCS_CATS");
    assert("TYPE"@.len() == 4 && "DISTRO"@.len() == 6 && "DIRECT_INITRC"@.len() == 13);
    assert("UBAC"@.len() == 4 && "MLS_SENS"@.len() == 8);
    assert("MLS_CATS"@.len() == 8 && "MCS_CATS"@.len() == 8);
    assert("TYPE"@[0] == 'T' && "UBAC"@[0] == 'U');
    assert("MLS_SENS"@[4] == 'S' && "MLS_CATS"@[4] == 'C' && "MCS_CATS"@[4] == 'C');
    assert("MLS_CATS"@[1] == 'L' && "MCS_CATS"@[1] == 'C');
}

/// A line does the same to all settings: it fails alike, and sets what it assigns alike.
proof fn lemma_line_merges(left: Settings, right: Settings, line: Seq<char>)
    ensures
        match (after_line(left, line), after_line(right, line)) {
            (Ok(first), Ok(second)) => first == merged(left, second, seq![line]),
            (Err(first), Err(second)) => first == second,
            _ => false,
        },
{
    lemma_keys_differ();
    let lines = seq![line];
    assert(lines[0] == line);
    assert forall|key: Seq<char>| #[trigger] some_assigns(lines, key) <==> assigns(line, key) by {
        if assigns(line, key) {
            assert(assigns(lines[0], key));
        }
    }
    if let (Ok(first), Ok(second)) = (after_line(left, line), after_line(right, line)) {
        assert(first =~= merged(left, second, lines));
    }
}

proof fn lemma_some_assigns(lines: Seq<Seq<char>>, key: Seq<char>)
    requires
        lines.len() > 0,
    ensures
        some_assigns(lines, key) <==> assigns(lines[0], key) || some_assigns(lines.skip(1), key),
        some_assigns(seq![lines[0]], key) <==> assigns(lines[0], key),
{
    let rest = lines.skip(1);
    if some_assigns(lines, key) {
        let i = choose|i: int| 0 <= i < lines.len() && assigns(#[trigger] lines[i], key);
        if i > 0 {
            assert(assigns(rest[i - 1], key));
        }
    }
    if some_assigns(rest, key) {
        let i = choose|i: int| 0 <= i < rest.len() && assigns(#[trigger] rest[i], key);
        assert(assigns(lines[i + 1], key));
    }
    let single = seq![lines[0]];
    if assigns(lines[0], key) {
        assert(assigns(single[0], key));
    }
}

proof fn lemma_merging(left: Settings, right: Settings, lines: Seq<Seq<char>>)
    ensures
        match (continued(left, lines), continued(right, lines)) {
            (Ok(first), Ok(second)) => first == merged(left, second, lines),
            (Err(first), Err(second)) => first == second,
            _ => false,
        },
    decreases lines.len(),
{
    if lines.len() == 0 {
        assert(merged(left, right, lines) =~= left);
    } else {
        let rest = lines.skip(1);
        lemma_line_merges(left, right, lines[0]);
        if let (Ok(one), Ok(two)) = (after_line(left, lines[0]), after_line(right, lines[0])) {
            lemma_merging(one, two, rest);
            lemma_merging(two, two, rest);
            lemma_some_assigns(lines, "TYPE"@);
            lemma_some_assigns(lines, "DISTRO"@);
            lemma_some_assigns(lines, "DIRECT_INITRC"@);
            lemma_some_assigns(lines, "UBAC"@);
            lemma_some_assigns(lines, "MLS_SENS"@);
            lemma_some_assigns(lines, "MLS_CATS"@);
            lemma_some_assigns(lines, "MCS_CATS"@);
            if let (Ok(first), Ok(second)) = (continued(one, rest), continued(two, rest)) {
                assert(first =~= merged(left, second, lines));
            }
        }
    }
}

proof fn lemma_return_does_not_count(line: Seq<char>)
    ensures
        statement(without_return(line)) == statement(line),
{
    if line.len() > 0 && line.last() == '\r' {
        let short = line.drop_last();
        lemma_position(line, '#');
        lemma_position(short, '#');
        let long_end = position(line, '#') as int;
        let short_end = position(short, '#') as int;
        if long_end < line.len() {
            assert(long_end < short.len());
            assert(short[long_end] == '#');
            if short_end < long_end {
                assert(line[short_end] == short[short_end]);
            }
            assert(short_end == long_end);
            assert(short.take(short_end) =~= line.take(long_end));
        } else {
            if short_end < short.len() {
                assert(line[short_end] == short[short_end]);
            }
            assert(short.take(short_end) =~= short);
            assert(line.take(long_end) =~= short.push('\r'));
            lemma_trimmed_push(short, '\r');
        }
    }
}

proof fn lemma_nothing_assigned(text: Seq<char>)
    requires
        text.len() == 0,
    ensures
        entry(text) is None,
{
    lemma_trimmed_range(text);
    lemma_position(text, '#');
    let content = trimmed(text.take(position(text, '#') as int));
    lemma_trimmed_range(text.take(position(text, '#') as int));
    assert(content.len() == 0);
    reveal_strlit("override ");
    reveal_strlit(":=");
    reveal_strlit("?=");
    reveal_strlit("=");
    assert("override "@.len() == 9 && ":="@.len() == 2 && "?="@.len() == 2 && "="@.len() == 1);
    lemma_occurrence(content, ":="@, 0);
    lemma_occurrence(content, "?="@, 0);
    lemma_occurrence(content, "="@, 0);
}

proof fn lemma_joined(settings: Settings, first: Seq<char>, second: Seq<char>)
    ensures
        continued(settings, lines_of(first + seq!['\n'] + second)) == match continued(
            settings,
            lines_of(first),
        ) {
            Ok(next) => continued(next, lines_of(second)),
            Err(message) => Err(message),
        },
    decreases first.len(),
{
    let text = first + seq!['\n'] + second;
    let end = position(first, '\n') as int;
    lemma_position(first, '\n');
    lemma_position(text, '\n');
    assert(text[first.len() as int] == '\n');
    if end < first.len() {
        assert(text[end] == first[end]);
    }
    assert(position(text, '\n') == end) by {
        let other = position(text, '\n') as int;
        if other < end {
            assert(text[other] == first[other]);
        }
    }
    if end < first.len() {
        let rest = first.skip(end + 1);
        let line = without_return(first.take(end));
        assert(text.take(end) =~= first.take(end));
        assert(text.skip(end + 1) =~= rest + seq!['\n'] + second);
        assert(lines_of(first)[0] == line);
        assert(lines_of(first).skip(1) =~= lines_of(rest));
        assert(lines_of(text)[0] == line);
        assert(lines_of(text).skip(1) =~= lines_of(rest + seq!['\n'] + second));
        if let Ok(next) = after_line(settings, line) {
            lemma_joined(next, rest, second);
        }
    } else {
        let line = without_return(first);
        assert(text.take(end) =~= first);
        assert(text.skip(end + 1) =~= second);
        assert(lines_of(text)[0] == line);
        assert(lines_of(text).skip(1) =~= lines_of(second));
        lemma_return_does_not_count(first);
        reveal_with_fuel(continued, 2);
        if first.len() == 0 {
            lemma_nothing_assigned(first);
            assert(entry(line) is None);
        } else {
            assert(lines_of(first) =~= seq![first]);
            assert(lines_of(first).skip(1) =~= Seq::<Seq<char>>::empty());
        }
    }
}

/// The settings of one text with another below it: the last assignment wins, and what is wrong with
/// either text is wrong with both together, whatever comes after it.
pub proof fn later_settings_win(first: Seq<char>, second: Seq<char>)
    ensures
        parsed_settings(first + seq!['\n'] + second) == match (
            parsed_settings(first),
            parsed_settings(second),
        ) {
            (Ok(left), Ok(right)) => Ok::<Settings, Seq<char>>(
                merged(left, right, lines_of(second)),
            ),
            (Err(message), _) => Err(message),
            (_, Err(message)) => Err(message),
        },
{
    let text = first + seq!['\n'] + second;
    let start = default_settings();
    lemma_continued(lines_of(text), lines_of(text).len());
    lemma_continued(lines_of(first), lines_of(first).len());
    lemma_continued(lines_of(second), lines_of(second).len());
    assert(lines_of(text).take(lines_of(text).len() as int) =~= lines_of(text));
    assert(lines_of(first).take(lines_of(first).len() as int) =~= lines_of(first));
    assert(lines_of(second).take(lines_of(second).len() as int) =~= lines_of(second));
    lemma_joined(start, first, second);
    if let Ok(left) = parsed_settings(first) {
        lemma_merging(left, start, lines_of(second));
    }
}

} // verus!
