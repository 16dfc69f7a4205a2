//! The command line, the template, and what is printed.

use crate::bytes::lossy;
use crate::cli::{help, ordered, removal_report, selected_preview, status_lines, Order};
use crate::diagnostics::line;
use crate::engine::reconcile::StatusRow;
use crate::helper_client::{selected_helper, unanswered, Sibling};
use crate::id::{id_complaint, parsed_id, shown};
use crate::model::Profile;
use crate::path::extension_of;
use crate::policy::{preview, rendered};
use crate::template::{new_file, template};
use crate::text::{decimal, trimmed};
use vstd::prelude::*;

verus! {

proof fn lemma_words_differ()
    ensures
        "help"@.len() == 4,
        "--help"@.len() == 6 && "--help"@[0] == '-',
        "-h"@.len() == 2 && "-h"@[1] == 'h',
        "version"@.len() == 7,
        "--version"@.len() == 9 && "--version"@[0] == '-',
        "-V"@.len() == 2 && "-V"@[1] == 'V',
        "generate"@.len() == 8 && "generate"@[0] == 'g',
        "validate"@.len() == 8 && "validate"@[0] == 'v',
        "render"@.len() == 6 && "render"@[0] == 'r' && "render"@[2] == 'n',
        "apply"@.len() == 5,
        "status"@.len() == 6 && "status"@[0] == 's',
        "supervise"@.len() == 9 && "supervise"@[0] == 's',
        "remove"@.len() == 6 && "remove"@[0] == 'r' && "remove"@[2] == 'm',
{
    reveal_strlit("help");
    reveal_strlit("--help");
    reveal_strlit("-h");
    reveal_strlit("version");
    reveal_strlit("--version");
    reveal_strlit("-V");
    reveal_strlit("generate");
    reveal_strlit("validate");
    reveal_strlit("render");
    reveal_strlit("apply");
    reveal_strlit("status");
    reveal_strlit("supervise");
    reveal_strlit("remove");
}

/// What every user can ask for: help, by its three words or none, the version by its three words, and
/// a template, for a path or for the usual one.
pub proof fn everyone_can_ask_for_help(user: u32, path: Seq<char>, further: Seq<Seq<char>>)
    requires
        further.len() > 2,
        further[0] == "generate"@,
    ensures
        ordered(Seq::empty(), user) == Ok::<Order, Seq<char>>(Order::Help),
        ordered(seq!["help"@], user) == Ok::<Order, Seq<char>>(Order::Help),
        ordered(seq!["--help"@], user) == Ok::<Order, Seq<char>>(Order::Help),
        ordered(seq!["-h"@], user) == Ok::<Order, Seq<char>>(Order::Help),
        ordered(seq!["version"@], user) == Ok::<Order, Seq<char>>(Order::Version),
        ordered(seq!["--version"@], user) == Ok::<Order, Seq<char>>(Order::Version),
        ordered(seq!["-V"@], user) == Ok::<Order, Seq<char>>(Order::Version),
        ordered(seq!["generate"@], user) == Ok::<Order, Seq<char>>(Order::Generate(None)),
        ordered(seq!["generate"@, path], user) == Ok::<Order, Seq<char>>(
            Order::Generate(Some(path)),
        ),
        ordered(further, user) == Err::<Order, Seq<char>>("Usage: microvisor generate [output.yml]"@),
{
    lemma_words_differ();
}

/// What root can ask for: each command by its word and with the number of arguments that it takes.
pub proof fn root_can_ask_for_everything(text: Seq<char>)
    ensures
        ordered(seq!["validate"@], 0) == Ok::<Order, Seq<char>>(Order::Validate),
        ordered(seq!["apply"@], 0) == Ok::<Order, Seq<char>>(Order::Apply),
        ordered(seq!["status"@], 0) == Ok::<Order, Seq<char>>(Order::Status),
        ordered(seq!["supervise"@], 0) == Ok::<Order, Seq<char>>(Order::Supervise),
        parsed_id(text) matches Some(id) ==> ordered(seq!["render"@, text], 0) == Ok::<
            Order,
            Seq<char>,
        >(Order::Render(id)),
        parsed_id(text) matches Some(id) ==> ordered(seq!["remove"@, text], 0) == Ok::<
            Order,
            Seq<char>,
        >(Order::Remove(id)),
        parsed_id(text) is None ==> ordered(seq!["render"@, text], 0) == Err::<Order, Seq<char>>(
            "Invalid profile ID '"@ + text + "'"@ + ": "@ + id_complaint(text),
        ),
        parsed_id(text) is None ==> ordered(seq!["remove"@, text], 0) == Err::<Order, Seq<char>>(
            "Invalid profile ID '"@ + text + "'"@ + ": "@ + id_complaint(text),
        ),
{
    lemma_words_differ();
}

/// Whether a word is a command that takes nothing else.
pub open spec fn is_single(word: Seq<char>) -> bool {
    word == "validate"@ || word == "apply"@ || word == "status"@ || word == "supervise"@
}

/// Whether a word is a command that takes an identifier.
pub open spec fn takes_id(word: Seq<char>) -> bool {
    word == "render"@ || word == "remove"@
}

/// Whether arguments are among those that every user can give.
pub open spec fn is_open(arguments: Seq<Seq<char>>) -> bool {
    arguments.len() == 0 || arguments[0] == "generate"@ || (arguments.len() == 1 && (arguments[0]
        == "help"@ || arguments[0] == "--help"@ || arguments[0] == "-h"@ || arguments[0]
        == "version"@ || arguments[0] == "--version"@ || arguments[0] == "-V"@))
}

/// Everything else is refused: to anyone but root because of who asks, and to root where it is no
/// command or has the wrong number of arguments.
pub proof fn other_arguments_are_refused(arguments: Seq<Seq<char>>, user: u32)
    requires
        !is_open(arguments),
    ensures
        user != 0 ==> ordered(arguments, user) == Err::<Order, Seq<char>>(
            "Microvisor must run as root"@,
        ),
        user == 0 && !(arguments.len() == 1 && is_single(arguments[0])) && !(arguments.len() == 2
            && takes_id(arguments[0])) ==> ordered(arguments, user) == Err::<Order, Seq<char>>(
            "Invalid command. Run 'microvisor help' for usage"@,
        ),
{
}

/// What help says.
pub proof fn help_names_every_command(version: Seq<char>)
    ensures
        help(version) == "Microvisor "@ + version
            + "\nHeadless SELinux protection profile manager\n\n"@
            + "Usage:\nmicrovisor validate\nmicrovisor render <profile-id>\nmicrovisor apply\n"@
            + "microvisor status\nmicrovisor supervise\nmicrovisor remove <profile-id>\n"@
            + "microvisor generate [output.yml]\nmicrovisor help\nmicrovisor version\n\n"@
            + "Configuration: "@ + "/etc/microvisor.yml"@
            + "\nGenerate, help, and version do not require root. All other commands do."@,
{
}

/// A report has one line for each row, in the order of the rows: the identifier, the state and the
/// name, with tabs between them. A report without rows says so.
pub proof fn reports_have_a_line_for_each_row(list: Seq<StatusRow>, index: int)
    ensures
        list.len() == 0 ==> status_lines(list) == seq!["No configured or applied profiles."@],
        list.len() > 0 ==> status_lines(list).len() == list.len(),
        0 <= index < list.len() ==> status_lines(list)[index] == shown(list[index].id) + "\t"@
            + list[index].state + "\t"@ + list[index].name,
{
}

/// What is said of a removal.
pub proof fn removals_are_reported(id: u128)
    ensures
        removal_report(id, true) == "Removed profile "@ + shown(id) + "."@,
        removal_report(id, false) == "Profile "@ + shown(id) + " is not applied."@,
{
}

/// The preview of a profile is that of the first one with its identifier, where it is valid, and
/// there is none where no profile has it.
pub proof fn previews_are_selected_by_identifier(list: Seq<Profile>, id: u128, index: int)
    requires
        0 <= index < list.len() ==> list[index].id == id && forall|i: int|
            0 <= i < index ==> (#[trigger] list[i]).id != id,
    ensures
        0 <= index < list.len() ==> selected_preview(list, id) == rendered(
            list[index],
            preview(list[index]),
        ),
        (forall|i: int| 0 <= i < list.len() ==> (#[trigger] list[i]).id != id) ==> selected_preview(
            list,
            id,
        ) == Err::<Seq<char>, Seq<char>>("No configured profile exists for "@ + shown(id)),
{
    let probe = crate::engine::overlap::with_id_at(list, id);
    crate::search::lemma_first_of_none(list.len(), probe);
    if 0 <= index < list.len() {
        assert(probe(index) is Some);
        let hit = crate::search::lemma_first_of_some(list.len(), probe);
        crate::search::lemma_first_of_none(hit as nat, probe);
        if hit > index {
            assert(probe(index) is None);
        }
        if hit < index {
            assert(list[hit].id != id);
        }
    }
    if forall|i: int| 0 <= i < list.len() ==> (#[trigger] list[i]).id != id {
        assert forall|i: int| 0 <= i < list.len() implies (#[trigger] probe(i)) is None by {
            assert(list[i].id != id);
        }
    }
}

/// The template holds one profile with the identifier, and it is written to files whose name ends
/// with `.yml`, and to no others.
pub proof fn templates_hold_the_identifier(path: Seq<char>, id: u128)
    ensures
        template(id)
            == "# Replace the name and absolute paths before installing as /etc/microvisor.yml.\n"@
            + "schema_version: 1\n"@ + "profiles:\n"@ + ("  - id: "@ + shown(id) + "\n"@) + (
        "    name: Replace with application name\n"@
            + "    executable: /absolute/path/to/application\n"@ + "    data_directories:\n"@
            + "      - /absolute/path/to/application-data\n"@ + "    launch_domain: unconfined_t\n"@
            + "    launch_role: unconfined_r\n"@ + "    block_ptrace: true\n"@
            + "    block_fd_use: false\n"@),
        extension_of(path) == Some("yml"@) ==> new_file(path, id) == Ok::<Seq<char>, Seq<char>>(
            template(id),
        ),
        extension_of(path) != Some("yml"@) ==> new_file(path, id) == Err::<Seq<char>, Seq<char>>(
            "Generated configuration file names must end with '.yml'"@,
        ),
{
}

/// A diagnostic line names the process, the level and the component before the message.
pub proof fn diagnostics_name_their_source(
    process: u32,
    level: Seq<char>,
    target: Seq<char>,
    message: Seq<char>,
)
    ensures
        line(process, level, target, message) == "microvisor["@ + decimal(process as nat) + "] "@
            + level + " "@ + target + ": "@ + message,
{
}

/// Which helper is run: the one that is asked for, in development an executable sibling, and
/// otherwise the installed one.
pub proof fn helpers_are_selected(path: Seq<char>, sibling: Option<Sibling>, development: bool)
    ensures
        selected_helper(Some(path), sibling, development) == path,
        selected_helper(None, None, development) == "/usr/libexec/microvisor-helper"@,
        selected_helper(None, sibling, false) == "/usr/libexec/microvisor-helper"@,
        sibling matches Some(candidate) ==> selected_helper(None, sibling, true) == if (
        candidate.found matches Some(facts) && facts.file && facts.mode & 0o111 != 0) {
            sibling->Some_0.path@
        } else {
            "/usr/libexec/microvisor-helper"@
        },
{
}

/// What is said where the helper gave no answer: what it wrote to its errors, or why there is nothing.
pub proof fn missing_answers_are_explained(errors: Seq<u8>)
    ensures
        unanswered(true, errors) == "The helper returned an invalid response"@,
        unanswered(false, errors) == if trimmed(lossy(errors)).len() > 0 {
            trimmed(lossy(errors))
        } else {
            "The privileged operation was cancelled or failed"@
        },
{
}

} // verus!
