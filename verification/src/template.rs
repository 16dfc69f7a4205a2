//! The configuration template that a user edits and installs.

use crate::config::{accepted, profile_fault_at, wanted_profiles, Configuration};
use crate::error::{viewed, Error};
use crate::id::{lemma_shown, random_id, shown, shown_text};
use crate::model::{is_random_id, Profile, PROFILE_SCHEMA_VERSION};
use crate::path::{
    extension, extension_of, lemma_first_segment, lemma_only_segment, named, names, parts,
    segments, Part,
};
use crate::policy::{directory_fault_at, is_identifier, is_unsafe_path, profile_fault};
use crate::search::lemma_first_of_none;
use crate::text::{ends, same_text, text2};
use crate::yaml::{
    is_accepted, is_plain_character, lemma_accepted, lemma_accepted_line, lemma_comment_line,
    lemma_plain_line, yaml_fault,
};
use vstd::prelude::*;

verus! {

/// The lines of the template before the identifier.
pub open spec fn template_head() -> Seq<char> {
    "# Replace the name and absolute paths before installing as /etc/microvisor.yml.\n"@
        + "schema_version: 1\n"@ + "profiles:\n"@
}

/// The lines of the template behind the identifier.
pub open spec fn template_tail() -> Seq<char> {
    "    name: Replace with application name\n"@ + "    executable: /absolute/path/to/application\n"@
        + "    data_directories:\n"@ + "      - /absolute/path/to/application-data\n"@
        + "    launch_domain: unconfined_t\n"@ + "    launch_role: unconfined_r\n"@
        + "    block_ptrace: true\n"@ + "    block_fd_use: false\n"@
}

/// The template with an identifier.
pub open spec fn template(id: u128) -> Seq<char> {
    template_head() + ("  - id: "@ + shown(id) + "\n"@) + template_tail()
}

/// Where the template is written unless a path is given.
pub fn default_path(_id: u128) -> (result: String)
    ensures
        result@ == "microvisor.yml"@,
{
    "microvisor.yml".to_owned()
}

/// The template with an identifier.
pub fn render(id: u128) -> (result: String)
    ensures
        result@ == template(id),
{
    let mut head =
        "# Replace the name and absolute paths before installing as /etc/microvisor.yml.\n".to_owned();
    head.append("schema_version: 1\n");
    head.append("profiles:\n");
    let mut line = "  - id: ".to_owned();
    line.append(shown_text(id).as_str());
    line.append("\n");
    let mut tail = "    name: Replace with application name\n".to_owned();
    tail.append("    executable: /absolute/path/to/application\n");
    tail.append("    data_directories:\n");
    tail.append("      - /absolute/path/to/application-data\n");
    tail.append("    launch_domain: unconfined_t\n");
    tail.append("    launch_role: unconfined_r\n");
    tail.append("    block_ptrace: true\n");
    tail.append("    block_fd_use: false\n");
    let mut result = text2(head.as_str(), line.as_str());
    result.append(tail.as_str());
    result
}

/// What is written to a new file, or why the file is not accepted.
pub open spec fn new_file(path: Seq<char>, id: u128) -> Result<Seq<char>, Seq<char>> {
    if extension_of(path) == Some("yml"@) {
        Ok(template(id))
    } else {
        Err("Generated configuration file names must end with '.yml'"@)
    }
}

/// What is written to a new file. The name has to be one that the loader accepts.
pub fn write_new(path: &str, id: u128) -> (result: Result<String, Error>)
    ensures
        viewed(result) == new_file(path@, id),
{
    let accepted = match extension(path) {
        Some(found) => same_text(found.as_str(), "yml"),
        None => false,
    };
    if !accepted {
        return Err(Error::new("Generated configuration file names must end with '.yml'"));
    }
    Ok(render(id))
}

/// A template that is to be written.
#[derive(Debug)]
pub struct Generated {
    pub path: String,
    pub id: u128,
    pub text: String,
}

/// Makes a template with a new identifier, for a path or for where templates go by themselves.
pub fn generate(output: Option<String>) -> (result: Result<Generated, Error>)
    ensures
        ({
            let path = match output {
                Some(path) => path@,
                None => "microvisor.yml"@,
            };
            match result {
                Ok(made) => {
                    &&& is_random_id(made.id)
                    &&& made.path@ == path
                    &&& new_file(path, made.id) == Ok::<Seq<char>, Seq<char>>(made.text@)
                },
                Err(error) => forall|id: u128|
                    #[trigger] new_file(path, id) == Err::<Seq<char>, Seq<char>>(error@),
            }
        }),
{
    let id: u128 = random_id();
    let path = match output {
        Some(path) => path,
        None => default_path(id),
    };
    match write_new(path.as_str(), id) {
        Ok(text) => Ok(Generated { path, id, text }),
        Err(error) => Err(error),
    }
}

/// Whether a text is one line of plain characters with a letter at an index.
pub open spec fn is_plain_text(line: Seq<char>, index: int) -> bool {
    &&& line.len() > 1
    &&& line.last() == '\n'
    &&& forall|i: int| 0 <= i < line.len() - 1 ==> is_plain_character(#[trigger] line[i])
    &&& 0 <= index < line.len() - 1
    &&& 97 <= line[index] as int <= 122
}

proof fn lemma_plain_text(line: Seq<char>, index: int, rest: Seq<char>)
    requires
        is_plain_text(line, index),
        is_accepted(rest),
    ensures
        is_accepted(line + rest),
{
    let content = line.drop_last();
    assert forall|i: int| 0 <= i < content.len() implies is_plain_character(
        #[trigger] content[i],
    ) by {
        assert(is_plain_character(line[i]));
    }
    assert(content[index] == line[index]);
    lemma_plain_line(content, index);
    assert(is_plain_character(line[line.len() - 2]));
    lemma_accepted_line(line, rest);
}

proof fn lemma_tail()
    ensures
        is_accepted(template_tail()),
{
    let a = "    name: Replace with application name\n"@;
    let b = "    executable: /absolute/path/to/application\n"@;
    let c = "    data_directories:\n"@;
    let d = "      - /absolute/path/to/application-data\n"@;
    let e = "    launch_domain: unconfined_t\n"@;
    let f = "    launch_role: unconfined_r\n"@;
    let g = "    block_ptrace: true\n"@;
    let h = "    block_fd_use: false\n"@;
    let nothing = Seq::<char>::empty();
    assert(is_accepted(nothing));
    reveal_strlit("    block_fd_use: false\n");
    assert(is_plain_text(h, 4));
    lemma_plain_text(h, 4, nothing);
    reveal_strlit("    block_ptrace: true\n");
    assert(is_plain_text(g, 4));
    lemma_plain_text(g, 4, h + nothing);
    reveal_strlit("    launch_role: unconfined_r\n");
    assert(is_plain_text(f, 4));
    lemma_plain_text(f, 4, g + (h + nothing));
    reveal_strlit("    launch_domain: unconfined_t\n");
    assert(is_plain_text(e, 4));
    lemma_plain_text(e, 4, f + (g + (h + nothing)));
    reveal_strlit("      - /absolute/path/to/application-data\n");
    assert(is_plain_text(d, 9));
    lemma_plain_text(d, 9, e + (f + (g + (h + nothing))));
    reveal_strlit("    data_directories:\n");
    assert(is_plain_text(c, 4));
    lemma_plain_text(c, 4, d + (e + (f + (g + (h + nothing)))));
    reveal_strlit("    executable: /absolute/path/to/application\n");
    assert(is_plain_text(b, 4));
    lemma_plain_text(b, 4, c + (d + (e + (f + (g + (h + nothing))))));
    reveal_strlit("    name: Replace with application name\n");
    assert(is_plain_text(a, 4));
    let rest = b + (c + (d + (e + (f + (g + (h + nothing))))));
    lemma_plain_text(a, 4, rest);
    lemma_associate(a, b, c, d, e, f, g, h);
}

proof fn lemma_associate(
    a: Seq<char>,
    b: Seq<char>,
    c: Seq<char>,
    d: Seq<char>,
    e: Seq<char>,
    f: Seq<char>,
    g: Seq<char>,
    h: Seq<char>,
)
    ensures
        a + (b + (c + (d + (e + (f + (g + (h + Seq::<char>::empty()))))))) == a + b + c + d + e + f
            + g + h,
{
    let left = a + (b + (c + (d + (e + (f + (g + (h + Seq::<char>::empty())))))));
    let right = a + b + c + d + e + f + g + h;
    assert(left =~= right);
}

proof fn lemma_id_line(id: u128)
    ensures
        is_plain_text("  - id: "@ + shown(id) + "\n"@, 4),
{
    let line = "  - id: "@ + shown(id) + "\n"@;
    reveal_strlit("  - id: ");
    reveal_strlit("\n");
    lemma_shown(id);
    assert("  - id: "@.len() == 8);
    assert forall|i: int| 0 <= i < line.len() - 1 implies is_plain_character(#[trigger] line[i]) by {
        if i >= 8 {
            assert(line[i] == shown(id)[i - 8]);
        } else {
            assert(line[i] == "  - id: "@[i]);
        }
    }
    assert(line[4] == 'i');
}

/// Whether a text is one comment line.
pub open spec fn is_comment_text(line: Seq<char>) -> bool {
    &&& line.len() > 2
    &&& line[0] == '#'
    &&& line.last() == '\n'
    &&& line[line.len() - 2] != '\r'
    &&& forall|i: int| 0 <= i < line.len() - 1 ==> #[trigger] line[i] != '\n'
}

proof fn lemma_title()
    ensures
        is_comment_text(
            "# Replace the name and absolute paths before installing as /etc/microvisor.yml.\n"@,
        ),
{
    reveal_strlit(
        "# Replace the name and absolute paths before installing as /etc/microvisor.yml.\n",
    );
}

proof fn lemma_comment_text(line: Seq<char>, rest: Seq<char>)
    requires
        is_comment_text(line),
        is_accepted(rest),
    ensures
        is_accepted(line + rest),
{
    assert(line.drop_last()[0] == '#');
    lemma_comment_line(line.drop_last());
    lemma_accepted_line(line, rest);
}

proof fn lemma_second(rest: Seq<char>)
    requires
        is_accepted(rest),
    ensures
        is_accepted("schema_version: 1\n"@ + ("profiles:\n"@ + rest)),
{
    reveal_strlit("profiles:\n");
    assert(is_plain_text("profiles:\n"@, 0));
    lemma_plain_text("profiles:\n"@, 0, rest);
    reveal_strlit("schema_version: 1\n");
    assert(is_plain_text("schema_version: 1\n"@, 0));
    lemma_plain_text("schema_version: 1\n"@, 0, "profiles:\n"@ + rest);
}

proof fn lemma_five(a: Seq<char>, b: Seq<char>, c: Seq<char>, d: Seq<char>, e: Seq<char>)
    ensures
        a + (b + (c + (d + e))) == a + b + c + d + e,
{
    assert(a + (b + (c + (d + e))) =~= a + b + c + d + e);
}

/// The template keeps to the accepted subset of YAML, whatever the identifier.
pub proof fn templates_are_accepted(id: u128)
    ensures
        yaml_fault(template(id)) is None,
{
    let line = "  - id: "@ + shown(id) + "\n"@;
    let tail = template_tail();
    lemma_tail();
    lemma_id_line(id);
    lemma_plain_text(line, 4, tail);
    lemma_second(line + tail);
    lemma_title();
    lemma_comment_text(
        "# Replace the name and absolute paths before installing as /etc/microvisor.yml.\n"@,
        "schema_version: 1\n"@ + ("profiles:\n"@ + (line + tail)),
    );
    lemma_five(
        "# Replace the name and absolute paths before installing as /etc/microvisor.yml.\n"@,
        "schema_version: 1\n"@,
        "profiles:\n"@,
        line,
        tail,
    );
    lemma_accepted(template(id));
}

/// The profile that the template holds.
pub open spec fn template_profile(id: u128) -> Profile {
    Profile {
        schema_version: PROFILE_SCHEMA_VERSION,
        id,
        name: "Replace with application name"@,
        executable: "/absolute/path/to/application"@,
        data_directories: seq!["/absolute/path/to/application-data"@],
        launch_domain: "unconfined_t"@,
        launch_role: "unconfined_r"@,
        block_ptrace: true,
        block_fd_use: false,
    }
}

/// A switch as it is written.
pub open spec fn switch(on: bool) -> Seq<char> {
    if on {
        "true"@
    } else {
        "false"@
    }
}

/// A profile with one directory as the only one of a configuration, below a comment.
pub open spec fn written(profile: Profile) -> Seq<char> {
    template_head() + ("  - id: "@ + shown(profile.id) + "\n"@) + (("    name: "@ + profile.name
        + "\n"@) + ("    executable: "@ + profile.executable + "\n"@) + "    data_directories:\n"@ + (
    "      - "@ + profile.data_directories[0] + "\n"@) + ("    launch_domain: "@
        + profile.launch_domain + "\n"@) + ("    launch_role: "@ + profile.launch_role + "\n"@) + (
    "    block_ptrace: "@ + switch(profile.block_ptrace) + "\n"@) + ("    block_fd_use: "@ + switch(
        profile.block_fd_use,
    ) + "\n"@))
}

proof fn lemma_written_paths()
    ensures
        "    executable: /absolute/path/to/application\n"@ == "    executable: "@
            + "/absolute/path/to/application"@ + "\n"@,
        "      - /absolute/path/to/application-data\n"@ == "      - "@
            + "/absolute/path/to/application-data"@ + "\n"@,
        "    name: Replace with application name\n"@ == "    name: "@
            + "Replace with application name"@ + "\n"@,
{
    reveal_strlit("\n");
    reveal_strlit("    executable: /absolute/path/to/application\n");
    reveal_strlit("    executable: ");
    reveal_strlit("/absolute/path/to/application");
    assert("    executable: /absolute/path/to/application\n"@ =~= "    executable: "@
        + "/absolute/path/to/application"@ + "\n"@);
    reveal_strlit("      - /absolute/path/to/application-data\n");
    reveal_strlit("      - ");
    reveal_strlit("/absolute/path/to/application-data");
    assert("      - /absolute/path/to/application-data\n"@ =~= "      - "@
        + "/absolute/path/to/application-data"@ + "\n"@);
    reveal_strlit("    name: Replace with application name\n");
    reveal_strlit("    name: ");
    reveal_strlit("Replace with application name");
    assert("    name: Replace with application name\n"@ =~= "    name: "@
        + "Replace with application name"@ + "\n"@);
}

proof fn lemma_written_options()
    ensures
        "    launch_domain: unconfined_t\n"@ == "    launch_domain: "@ + "unconfined_t"@ + "\n"@,
        "    launch_role: unconfined_r\n"@ == "    launch_role: "@ + "unconfined_r"@ + "\n"@,
        "    block_ptrace: true\n"@ == "    block_ptrace: "@ + "true"@ + "\n"@,
        "    block_fd_use: false\n"@ == "    block_fd_use: "@ + "false"@ + "\n"@,
{
    reveal_strlit("\n");
    reveal_strlit("    launch_domain: unconfined_t\n");
    reveal_strlit("    launch_domain: ");
    reveal_strlit("unconfined_t");
    assert("    launch_domain: unconfined_t\n"@ =~= "    launch_domain: "@ + "unconfined_t"@ + "\n"@);
    reveal_strlit("    launch_role: unconfined_r\n");
    reveal_strlit("    launch_role: ");
    reveal_strlit("unconfined_r");
    assert("    launch_role: unconfined_r\n"@ =~= "    launch_role: "@ + "unconfined_r"@ + "\n"@);
    reveal_strlit("    block_ptrace: true\n");
    reveal_strlit("    block_ptrace: ");
    reveal_strlit("true");
    assert("    block_ptrace: true\n"@ =~= "    block_ptrace: "@ + "true"@ + "\n"@);
    reveal_strlit("    block_fd_use: false\n");
    reveal_strlit("    block_fd_use: ");
    reveal_strlit("false");
    assert("    block_fd_use: false\n"@ =~= "    block_fd_use: "@ + "false"@ + "\n"@);
}

/// A path of four plain names is safe, and names enough for a protected directory.
proof fn lemma_four_names(
    path: Seq<char>,
    first: Seq<char>,
    second: Seq<char>,
    third: Seq<char>,
    fourth: Seq<char>,
)
    requires
        path == seq!['/'] + (first + seq!['/'] + (second + seq!['/'] + (third + seq!['/']
            + fourth))),
        first.len() > 2 && second.len() > 2 && fourth.len() > 2,
        third.len() == 2 && third[0] != '.',
        !first.contains('/') && !second.contains('/') && !third.contains('/') && !fourth.contains(
            '/',
        ),
    ensures
        !parts(path).contains(Part::Parent),
        names(parts(path)) == 4,
{
    let none = Seq::<char>::empty();
    assert(none + seq!['/'] + (first + seq!['/'] + (second + seq!['/'] + (third + seq!['/']
        + fourth))) =~= path);
    lemma_first_segment(
        none,
        first + seq!['/'] + (second + seq!['/'] + (third + seq!['/'] + fourth)),
    );
    lemma_first_segment(first, second + seq!['/'] + (third + seq!['/'] + fourth));
    lemma_first_segment(second, third + seq!['/'] + fourth);
    lemma_first_segment(third, fourth);
    lemma_only_segment(fourth);
    let list = seq![none, first, second, third, fourth];
    assert(segments(path) =~= list);
    assert(list.drop_last() =~= seq![none, first, second, third]);
    assert(list.drop_last().drop_last() =~= seq![none, first, second]);
    assert(list.drop_last().drop_last().drop_last() =~= seq![none, first]);
    assert(list.drop_last().drop_last().drop_last().drop_last() =~= seq![none]);
    reveal_with_fuel(named, 6);
    assert(seq!['.'].len() == 1 && seq!['.', '.'].len() == 2);
    assert(seq!['.', '.'][0] == '.');
    let found = seq![
        Part::Root,
        Part::Name(first),
        Part::Name(second),
        Part::Name(third),
        Part::Name(fourth),
    ];
    assert(path[0] == '/');
    assert(parts(path) =~= found);
    assert(found.drop_last() =~= seq![
        Part::Root,
        Part::Name(first),
        Part::Name(second),
        Part::Name(third),
    ]);
    reveal_with_fuel(names, 6);
}

proof fn lemma_template_paths()
    ensures
        !is_unsafe_path("/absolute/path/to/application"@),
        !is_unsafe_path("/absolute/path/to/application-data"@),
        names(parts("/absolute/path/to/application-data"@)) == 4,
{
    reveal_strlit("/absolute/path/to/application");
    reveal_strlit("/absolute/path/to/application-data");
    reveal_strlit("absolute");
    reveal_strlit("path");
    reveal_strlit("to");
    reveal_strlit("application");
    reveal_strlit("application-data");
    assert("/absolute/path/to/application"@ =~= seq!['/'] + ("absolute"@ + seq!['/'] + ("path"@
        + seq!['/'] + ("to"@ + seq!['/'] + "application"@))));
    assert("/absolute/path/to/application-data"@ =~= seq!['/'] + ("absolute"@ + seq!['/'] + ("path"@
        + seq!['/'] + ("to"@ + seq!['/'] + "application-data"@))));
    lemma_four_names(
        "/absolute/path/to/application"@,
        "absolute"@,
        "path"@,
        "to"@,
        "application"@,
    );
    lemma_four_names(
        "/absolute/path/to/application-data"@,
        "absolute"@,
        "path"@,
        "to"@,
        "application-data"@,
    );
}

proof fn lemma_template_names()
    ensures
        is_identifier("unconfined_t"@) && ends("unconfined_t"@, "_t"@),
        is_identifier("unconfined_r"@) && ends("unconfined_r"@, "_r"@),
{
    reveal_strlit("unconfined_t");
    reveal_strlit("unconfined_r");
    reveal_strlit("_t");
    reveal_strlit("_r");
    assert("unconfined_t"@.skip(10) =~= "_t"@);
    assert("unconfined_r"@.skip(10) =~= "_r"@);
}

/// The template is what one profile looks like that is valid as it stands: it has the identifier,
/// the supported version, tracing blocked and file descriptors not.
pub proof fn templates_hold_a_valid_profile(id: u128)
    ensures
        template(id) == written(template_profile(id)),
        profile_fault(template_profile(id)) is None,
        template_profile(id).id == id,
        template_profile(id).schema_version == 1,
        template_profile(id).block_ptrace,
        !template_profile(id).block_fd_use,
{
    let profile = template_profile(id);
    let paths = profile.data_directories;
    lemma_written_paths();
    lemma_written_options();
    lemma_template_paths();
    lemma_template_names();
    let probe = directory_fault_at(paths);
    assert(probe(0) is None);
    lemma_first_of_none(paths.len(), probe);
}

/// A reader that finds in the template what it holds makes the configuration one that is accepted,
/// with that one profile.
pub proof fn templates_load(id: u128, configuration: Configuration)
    requires
        configuration.schema_version == PROFILE_SCHEMA_VERSION,
        wanted_profiles(configuration.profiles@) == seq![template_profile(id)],
    ensures
        yaml_fault(template(id)) is None,
        accepted(Ok(configuration)) == Ok::<Seq<Profile>, Seq<char>>(seq![template_profile(id)]),
{
    templates_are_accepted(id);
    templates_hold_a_valid_profile(id);
    let list = wanted_profiles(configuration.profiles@);
    assert(profile_fault_at(list)(0) is None);
    lemma_first_of_none(list.len(), profile_fault_at(list));
}

} // verus!
