//! Profiles, their names, and the policy that is generated from them.

use crate::laws::text::{
    affixes_stand_at_the_ends, is_line, lemma_ends_occurs, lemma_line_end, lemma_line_occurs,
    lemma_unlined_concat, lines_read_back, unlined,
};
use crate::model::{
    blank_profile, generated_names_are_well_formed, is_generated_name, is_name_character,
    module_name, names_belong_to_one_profile, names_of, same_profile, Names, Profile,
};
use crate::path::{names, parts, path_equal, Part};
use crate::policy::{
    deny_module, deny_statement, directory_fault_at, directory_regex, escaped, every_access,
    file_classes, file_statements, has_control, is_control, is_identifier, is_meta, is_unsafe_path,
    is_word_character, path_regex, process_statements, profile_fault, rendered, subject_statements,
};
use crate::search::lemma_first_of_none;
use crate::text::{ends, lines_of, occurs};
use vstd::prelude::*;

verus! {

/// The names of a profile begin with the name of its base module, which is `microvisor_` and the
/// digits of its identifier. No two of them are the same, and no two profiles share one.
pub proof fn names_are_told_apart(id: u128, other: u128)
    ensures
        ({
            let own = names_of(id);
            let base = own.module;
            &&& base == "microvisor_"@ + crate::id::compact(id)
            &&& own.deny_module == base + "_deny"@
            &&& own.app_type == base + "_t"@
            &&& own.exec_type == base + "_exec_t"@
            &&& own.data_type == base + "_data_t"@
            &&& own.allowed_attribute == base + "_allowed_subjects"@
            &&& own.denied_attribute == base + "_denied_subjects"@
            &&& name_list(id).no_duplicates()
            &&& id != other ==> forall|i: int, j: int|
                0 <= i < 7 && 0 <= j < 7 ==> #[trigger] name_list(id)[i] != #[trigger] name_list(
                    other,
                )[j]
        }),
{
    reveal_strlit("_deny");
    reveal_strlit("_t");
    reveal_strlit("_exec_t");
    reveal_strlit("_data_t");
    reveal_strlit("_allowed_subjects");
    reveal_strlit("_denied_subjects");
    let endings = seq![
        Seq::<char>::empty(),
        "_deny"@,
        "_t"@,
        "_exec_t"@,
        "_data_t"@,
        "_allowed_subjects"@,
        "_denied_subjects"@,
    ];
    assert("_exec_t"@[1] == 'e' && "_data_t"@[1] == 'd');
    assert(endings.no_duplicates()) by {
        assert("_deny"@.len() == 5 && "_t"@.len() == 2 && "_exec_t"@.len() == 7);
        assert("_data_t"@.len() == 7 && "_allowed_subjects"@.len() == 17);
        assert("_denied_subjects"@.len() == 16);
    }
    assert(module_name(id) + Seq::<char>::empty() =~= module_name(id));
    assert(module_name(other) + Seq::<char>::empty() =~= module_name(other));
    assert forall|i: int| 0 <= i < 7 implies #[trigger] name_list(id)[i] == module_name(id)
        + endings[i] by {}
    assert forall|j: int| 0 <= j < 7 implies #[trigger] name_list(other)[j] == module_name(other)
        + endings[j] by {}
    assert forall|i: int, j: int|
        0 <= i < 7 && 0 <= j < 7 && i != j implies name_list(id)[i] != name_list(id)[j] by {
        names_belong_to_one_profile(id, id, endings[i], endings[j]);
        assert(name_list(id)[i] == module_name(id) + endings[i]);
        assert(name_list(id)[j] == module_name(id) + endings[j]);
    }
    assert forall|i: int, j: int|
        id != other && 0 <= i < 7 && 0 <= j < 7 implies #[trigger] name_list(id)[i]
        != #[trigger] name_list(other)[j] by {
        names_belong_to_one_profile(id, other, endings[i], endings[j]);
        assert(name_list(id)[i] == module_name(id) + endings[i]);
        assert(name_list(other)[j] == module_name(other) + endings[j]);
    }
}

/// The names of a profile in a row.
pub open spec fn name_list(id: u128) -> Seq<Seq<char>> {
    let own = names_of(id);
    seq![
        own.module,
        own.deny_module,
        own.app_type,
        own.exec_type,
        own.data_type,
        own.allowed_attribute,
        own.denied_attribute,
    ]
}

/// Profiles say the same exactly where every field agrees; paths agree where their components do.
pub proof fn equal_profiles_agree_in_every_field(left: Profile, right: Profile)
    ensures
        same_profile(left, right) <==> {
            &&& left.schema_version == right.schema_version
            &&& left.id == right.id
            &&& left.name == right.name
            &&& parts(left.executable) == parts(right.executable)
            &&& left.data_directories.len() == right.data_directories.len()
            &&& forall|i: int|
                0 <= i < left.data_directories.len() ==> parts(#[trigger] left.data_directories[i])
                    == parts(right.data_directories[i])
            &&& left.launch_domain == right.launch_domain
            &&& left.launch_role == right.launch_role
            &&& left.block_ptrace == right.block_ptrace
            &&& left.block_fd_use == right.block_fd_use
        },
        same_profile(left, left),
        same_profile(left, right) == same_profile(right, left),
{
    if forall|i: int|
        0 <= i < left.data_directories.len() ==> parts(#[trigger] left.data_directories[i])
            == parts(right.data_directories[i]) {
        assert forall|i: int| 0 <= i < left.data_directories.len() implies path_equal(
            #[trigger] left.data_directories[i],
            right.data_directories[i],
        ) by {
            assert(parts(left.data_directories[i]) == parts(right.data_directories[i]));
        }
    }
    if same_profile(left, right) {
        assert forall|i: int| 0 <= i < right.data_directories.len() implies path_equal(
            #[trigger] right.data_directories[i],
            left.data_directories[i],
        ) by {
            assert(path_equal(left.data_directories[i], right.data_directories[i]));
        }
    }
    if same_profile(right, left) {
        assert forall|i: int| 0 <= i < left.data_directories.len() implies path_equal(
            #[trigger] left.data_directories[i],
            right.data_directories[i],
        ) by {
            assert(path_equal(right.data_directories[i], left.data_directories[i]));
        }
    }
}

/// A new profile is empty but for the desktop's launch domain and role. Tracing is blocked, and file
/// descriptors are not.
pub proof fn new_profiles_are_blank(id: u128)
    ensures
        blank_profile(id).schema_version == 1,
        blank_profile(id).id == id,
        blank_profile(id).name.len() == 0,
        blank_profile(id).executable.len() == 0,
        blank_profile(id).data_directories.len() == 0,
        blank_profile(id).launch_domain == "unconfined_t"@,
        blank_profile(id).launch_role == "unconfined_r"@,
        blank_profile(id).block_ptrace,
        !blank_profile(id).block_fd_use,
{
}

/// Whether a path begins at the root, holds no control character and never steps back.
pub open spec fn is_plain_path(path: Seq<char>) -> bool {
    &&& path.len() > 0
    &&& path[0] == '/'
    &&& forall|i: int|
        0 <= i < path.len() ==> !((#[trigger] path[i]) as int <= 31 || 127 <= path[i] as int <= 159)
    &&& forall|i: int| 0 <= i < parts(path).len() ==> !(#[trigger] parts(path)[i] is Parent)
}

/// Whether a text is a name of the policy language with an ending.
pub open spec fn is_name_with(text: Seq<char>, ending: Seq<char>) -> bool {
    &&& text.len() > ending.len()
    &&& text.skip(text.len() - ending.len()) == ending
    &&& 65 <= text[0] as int <= 90 || 97 <= text[0] as int <= 122
    &&& forall|i: int|
        0 <= i < text.len() ==> {
            let code = (#[trigger] text[i]) as int;
            65 <= code <= 90 || 97 <= code <= 122 || 48 <= code <= 57 || code == 95
        }
}

pub proof fn lemma_plain_path(path: Seq<char>)
    ensures
        is_unsafe_path(path) <==> !is_plain_path(path),
{
    if has_control(path) {
        let i = choose|i: int| 0 <= i < path.len() && is_control(#[trigger] path[i]);
        assert(path[i] as int <= 31 || 127 <= path[i] as int <= 159);
    }
    if forall|i: int|
        0 <= i < path.len() ==> !((#[trigger] path[i]) as int <= 31 || 127 <= path[i] as int <= 159) {
        assert(!has_control(path));
    } else {
        let i = choose|i: int|
            0 <= i < path.len() && ((#[trigger] path[i]) as int <= 31 || 127 <= path[i] as int
                <= 159);
        assert(is_control(path[i]));
    }
    if parts(path).contains(Part::Parent) {
        let i = choose|i: int| 0 <= i < parts(path).len() && parts(path)[i] == Part::Parent;
        assert(parts(path)[i] is Parent);
    } else {
        assert forall|i: int| 0 <= i < parts(path).len() implies !(
        #[trigger] parts(path)[i] is Parent) by {
            if parts(path)[i] is Parent {
                assert(parts(path)[i] == Part::Parent);
            }
        }
    }
}

pub proof fn lemma_name_with(text: Seq<char>, ending: Seq<char>)
    requires
        ending.len() == 2,
        ending[0] == '_',
    ensures
        is_identifier(text) && ends(text, ending) <==> is_name_with(text, ending),
{
    if ends(text, ending) {
        assert(text.skip(text.len() - 2) =~= text.subrange(text.len() - 2, text.len() as int));
        if is_identifier(text) && text.len() == 2 {
            assert(text.subrange(0, 2)[0] == text[0]);
            assert(ending[0] == text[0]);
        }
    }
    if is_identifier(text) {
        assert forall|i: int| 0 <= i < text.len() implies {
            let code = (#[trigger] text[i]) as int;
            65 <= code <= 90 || 97 <= code <= 122 || 48 <= code <= 57 || code == 95
        } by {
            assert(is_word_character(text[i]));
        }
    }
    if is_name_with(text, ending) {
        assert(text.subrange(text.len() - 2, text.len() as int) =~= text.skip(text.len() - 2));
        assert forall|i: int| 0 <= i < text.len() implies is_word_character(#[trigger] text[i]) by {
            let code = text[i] as int;
            assert(65 <= code <= 90 || 97 <= code <= 122 || 48 <= code <= 57 || code == 95);
        }
    }
}

/// A profile is valid exactly where it has the supported version, plain paths, a launch domain that
/// ends with `_t`, a launch role that ends with `_r`, and protected directories of at least three
/// names each, none listed twice.
pub proof fn valid_profiles_keep_every_rule(profile: Profile)
    ensures
        profile_fault(profile) is None <==> {
            &&& profile.schema_version == 1
            &&& is_plain_path(profile.executable)
            &&& is_name_with(profile.launch_domain, "_t"@)
            &&& is_name_with(profile.launch_role, "_r"@)
            &&& forall|i: int|
                0 <= i < profile.data_directories.len() ==> is_plain_path(
                    #[trigger] profile.data_directories[i],
                ) && names(parts(profile.data_directories[i])) >= 3
            &&& forall|i: int, j: int|
                0 <= i < j < profile.data_directories.len() ==> parts(
                    #[trigger] profile.data_directories[i],
                ) != parts(#[trigger] profile.data_directories[j])
        },
{
    reveal_strlit("_t");
    reveal_strlit("_r");
    let paths = profile.data_directories;
    let probe = directory_fault_at(paths);
    lemma_plain_path(profile.executable);
    lemma_name_with(profile.launch_domain, "_t"@);
    lemma_name_with(profile.launch_role, "_r"@);
    lemma_first_of_none(paths.len(), probe);
    assert forall|i: int| 0 <= i < paths.len() implies (#[trigger] is_unsafe_path(paths[i])
        <==> !is_plain_path(paths[i])) by {
        lemma_plain_path(paths[i]);
    }
    if profile_fault(profile) is None {
        assert forall|i: int| 0 <= i < paths.len() implies is_plain_path(#[trigger] paths[i])
            && names(parts(paths[i])) >= 3 by {
            assert(probe(i) is None);
            assert(!is_unsafe_path(paths[i]));
        }
        assert forall|i: int, j: int| 0 <= i < j < paths.len() implies parts(#[trigger] paths[i])
            != parts(#[trigger] paths[j]) by {
            assert(probe(j) is None);
            assert(!crate::policy::is_repeated(paths, j));
            assert(!path_equal(paths[i], paths[j]));
        }
    }
    if (forall|i: int|
        0 <= i < paths.len() ==> is_plain_path(#[trigger] paths[i]) && names(parts(paths[i])) >= 3)
        && (forall|i: int, j: int|
        0 <= i < j < paths.len() ==> parts(#[trigger] paths[i]) != parts(#[trigger] paths[j])) {
        assert forall|i: int| 0 <= i < paths.len() implies (#[trigger] probe(i)) is None by {
            assert(is_plain_path(paths[i]));
            assert(!is_unsafe_path(paths[i]));
            if crate::policy::is_repeated(paths, i) {
                let k = choose|k: int| 0 <= k < i && path_equal(#[trigger] paths[k], paths[i]);
                assert(parts(paths[k]) != parts(paths[i]));
            }
        }
    }
}

/// Nothing is rendered of a profile that is not valid, and everything of one that is.
pub proof fn only_valid_profiles_are_rendered(profile: Profile, text: Seq<char>)
    ensures
        profile_fault(profile) is None ==> rendered(profile, text) == Ok::<Seq<char>, Seq<char>>(
            text,
        ),
        profile_fault(profile) is Some ==> rendered(profile, text) == Err::<Seq<char>, Seq<char>>(
            profile_fault(profile)->Some_0,
        ),
{
}

/// An expression is made character by character: a backslash goes before each of the characters that
/// mean more than themselves, and nothing else changes.
pub proof fn expressions_are_made_character_by_character(
    left: Seq<char>,
    right: Seq<char>,
    character: char,
)
    ensures
        escaped(left + right) == escaped(left) + escaped(right),
        escaped(seq![character]) == if ".^$*+?()[]{}|\\"@.contains(character) {
            seq!['\\', character]
        } else {
            seq![character]
        },
        path_regex(left) is Ok <==> !has_control(left),
        path_regex(left) is Ok ==> path_regex(left)->Ok_0 == escaped(left) && directory_regex(left)
            == Ok::<Seq<char>, Seq<char>>(escaped(left) + "(/.*)?"@),
        path_regex(left) is Err ==> directory_regex(left) is Err,
    decreases right.len(),
{
    lemma_escaped_concat(left, right);
    lemma_meta(character);
    let single = seq![character];
    assert(single.drop_last() =~= Seq::<char>::empty());
    reveal_with_fuel(escaped, 2);
    assert(escaped(single) =~= if is_meta(character) {
        seq!['\\', character]
    } else {
        seq![character]
    });
}

proof fn lemma_escaped_concat(left: Seq<char>, right: Seq<char>)
    ensures
        escaped(left + right) == escaped(left) + escaped(right),
    decreases right.len(),
{
    if right.len() == 0 {
        assert(left + right =~= left);
        assert(escaped(left) + escaped(right) =~= escaped(left));
    } else {
        lemma_escaped_concat(left, right.drop_last());
        assert((left + right).drop_last() =~= left + right.drop_last());
        assert((left + right).last() == right.last());
        assert(escaped(left + right) =~= escaped(left) + escaped(right));
    }
}

proof fn lemma_meta(character: char)
    ensures
        is_meta(character) <==> ".^$*+?()[]{}|\\"@.contains(character),
{
    reveal_strlit(".^$*+?()[]{}|\\");
    let all = ".^$*+?()[]{}|\\"@;
    assert(all[0] == '.' && all[1] == '^' && all[2] == '$' && all[3] == '*' && all[4] == '+');
    assert(all[5] == '?' && all[6] == '(' && all[7] == ')' && all[8] == '[' && all[9] == ']');
    assert(all[10] == '{' && all[11] == '}' && all[12] == '|' && all[13] == '\\');
    assert(all.len() == 14);
}

/// A line that denies subjects a permission on an object.
pub open spec fn denial(
    subjects: Seq<char>,
    object: Seq<char>,
    permission: Seq<char>,
) -> Seq<char> {
    "(deny "@ + subjects + " "@ + object + " ("@ + permission + "))"@
}

/// The lines that divide all subjects into the application and the others.
pub open spec fn division(module: Seq<char>) -> Seq<Seq<char>> {
    let allowed = module + "_allowed_subjects"@;
    let denied = module + "_denied_subjects"@;
    seq![
        "(typeattribute "@ + allowed + ")"@,
        "(typeattribute "@ + denied + ")"@,
        "(typeattributeset "@ + allowed + " ("@ + (module + "_t"@) + "))"@,
        "(typeattributeset "@ + denied + " (not ("@ + allowed + ")))"@,
    ]
}

/// The lines that deny the others every access to the data.
pub open spec fn data_denials(module: Seq<char>) -> Seq<Seq<char>> {
    let denied = module + "_denied_subjects"@;
    let data = module + "_data_t"@;
    seq![
        denial(denied, data, "file (all)"@),
        denial(denied, data, "dir (all)"@),
        denial(denied, data, "lnk_file (all)"@),
        denial(denied, data, "chr_file (all)"@),
        denial(denied, data, "blk_file (all)"@),
        denial(denied, data, "sock_file (all)"@),
        denial(denied, data, "fifo_file (all)"@),
    ]
}

/// A line where an option asks for it.
pub open spec fn where_asked(option: bool, line: Seq<char>) -> Seq<Seq<char>> {
    if option {
        seq![line]
    } else {
        Seq::empty()
    }
}

/// The lines of the deny module: the division of subjects, the denials for each class of files, and
/// one for each option that is set.
pub open spec fn deny_lines(profile: Profile) -> Seq<Seq<char>> {
    let module = names_of(profile.id).module;
    let denied = module + "_denied_subjects"@;
    let application = module + "_t"@;
    division(module) + data_denials(module) + where_asked(
        profile.block_ptrace,
        denial(denied, application, "process (ptrace)"@),
    ) + where_asked(profile.block_fd_use, denial(denied, application, "fd (use)"@))
}

proof fn lemma_denial(subjects: Seq<char>, object: Seq<char>, permission: Seq<char>)
    ensures
        deny_statement(subjects, object, permission) == denial(subjects, object, permission) + seq![
            '\n',
        ],
{
    reveal_strlit("))\n");
    reveal_strlit("))");
    assert("))\n"@ =~= "))"@ + seq!['\n']);
    assert(deny_statement(subjects, object, permission) =~= denial(subjects, object, permission)
        + seq!['\n']);
}

proof fn lemma_single(line: Seq<char>)
    ensures
        unlined(seq![line]) == line + seq!['\n'],
        unlined(Seq::<Seq<char>>::empty()) == Seq::<char>::empty(),
{
    reveal_with_fuel(unlined, 3);
    assert(seq![line].skip(1) =~= Seq::<Seq<char>>::empty());
    assert(unlined(seq![line]) =~= line + seq!['\n']);
}

proof fn lemma_division(id: u128)
    ensures
        subject_statements(names_of(id)) == unlined(division(names_of(id).module)),
{
    let module = names_of(id).module;
    let own = names_of(id);
    reveal_strlit(")\n");
    reveal_strlit("))\n");
    reveal_strlit(")))\n");
    reveal_strlit(")");
    reveal_strlit("))");
    reveal_strlit(")))");
    assert(")\n"@ =~= ")"@ + seq!['\n']);
    assert("))\n"@ =~= "))"@ + seq!['\n']);
    assert(")))\n"@ =~= ")))"@ + seq!['\n']);
    let lines = division(module);
    let a = lines[0];
    let b = lines[1];
    let c = lines[2];
    let d = lines[3];
    reveal_with_fuel(unlined, 5);
    assert(lines.skip(1) =~= seq![b, c, d]);
    assert(lines.skip(1).skip(1) =~= seq![c, d]);
    assert(lines.skip(1).skip(1).skip(1) =~= seq![d]);
    assert(lines.skip(1).skip(1).skip(1).skip(1) =~= Seq::<Seq<char>>::empty());
    lemma_four_lines(a, b, c, d);
    lemma_subject_lines(own, a, b, c, d);
}

proof fn lemma_four_lines(a: Seq<char>, b: Seq<char>, c: Seq<char>, d: Seq<char>)
    ensures
        a + seq!['\n'] + (b + seq!['\n'] + (c + seq!['\n'] + (d + seq!['\n']
            + Seq::<char>::empty()))) == (a + seq!['\n']) + (b + seq!['\n']) + (c + seq!['\n']) + (d
            + seq!['\n']),
{
    assert(a + seq!['\n'] + (b + seq!['\n'] + (c + seq!['\n'] + (d + seq!['\n']
        + Seq::<char>::empty()))) =~= (a + seq!['\n']) + (b + seq!['\n']) + (c + seq!['\n']) + (d
        + seq!['\n']));
}

proof fn lemma_subject_lines(own: Names, a: Seq<char>, b: Seq<char>, c: Seq<char>, d: Seq<char>)
    requires
        a == "(typeattribute "@ + own.allowed_attribute + ")"@,
        b == "(typeattribute "@ + own.denied_attribute + ")"@,
        c == "(typeattributeset "@ + own.allowed_attribute + " ("@ + own.app_type + "))"@,
        d == "(typeattributeset "@ + own.denied_attribute + " (not ("@ + own.allowed_attribute
            + ")))"@,
        ")\n"@ == ")"@ + seq!['\n'],
        "))\n"@ == "))"@ + seq!['\n'],
        ")))\n"@ == ")))"@ + seq!['\n'],
    ensures
        subject_statements(own) == (a + seq!['\n']) + (b + seq!['\n']) + (c + seq!['\n']) + (d
            + seq!['\n']),
{
    let one = "(typeattribute "@ + own.allowed_attribute + ")\n"@;
    let two = "(typeattribute "@ + own.denied_attribute + ")\n"@;
    let three = "(typeattributeset "@ + own.allowed_attribute + " ("@ + own.app_type + "))\n"@;
    let four = "(typeattributeset "@ + own.denied_attribute + " (not ("@ + own.allowed_attribute
        + ")))\n"@;
    assert(one =~= a + seq!['\n']);
    assert(two =~= b + seq!['\n']);
    assert(three =~= c + seq!['\n']);
    assert(four =~= d + seq!['\n']);
    assert(subject_statements(own) =~= one + two + three + four);
}

proof fn lemma_class_line(own: Names, index: nat, permission: Seq<char>)
    requires
        index < 7,
        permission == every_access(file_classes()[index as int]),
    ensures
        file_statements(own, index + 1) == file_statements(own, index) + (denial(
            own.denied_attribute,
            own.data_type,
            permission,
        ) + seq!['\n']),
{
    lemma_denial(own.denied_attribute, own.data_type, permission);
}

proof fn lemma_classes()
    ensures
        every_access("file"@) == "file (all)"@,
        every_access("dir"@) == "dir (all)"@,
        every_access("lnk_file"@) == "lnk_file (all)"@,
        every_access("chr_file"@) == "chr_file (all)"@,
        every_access("blk_file"@) == "blk_file (all)"@,
        every_access("sock_file"@) == "sock_file (all)"@,
        every_access("fifo_file"@) == "fifo_file (all)"@,
{
    reveal_strlit(" (all)");
    reveal_strlit("file");
    reveal_strlit("file (all)");
    assert("file"@ + " (all)"@ =~= "file (all)"@);
    reveal_strlit("dir");
    reveal_strlit("dir (all)");
    assert("dir"@ + " (all)"@ =~= "dir (all)"@);
    reveal_strlit("lnk_file");
    reveal_strlit("lnk_file (all)");
    assert("lnk_file"@ + " (all)"@ =~= "lnk_file (all)"@);
    reveal_strlit("chr_file");
    reveal_strlit("chr_file (all)");
    assert("chr_file"@ + " (all)"@ =~= "chr_file (all)"@);
    reveal_strlit("blk_file");
    reveal_strlit("blk_file (all)");
    assert("blk_file"@ + " (all)"@ =~= "blk_file (all)"@);
    reveal_strlit("sock_file");
    reveal_strlit("sock_file (all)");
    assert("sock_file"@ + " (all)"@ =~= "sock_file (all)"@);
    reveal_strlit("fifo_file");
    reveal_strlit("fifo_file (all)");
    assert("fifo_file"@ + " (all)"@ =~= "fifo_file (all)"@);
}

proof fn lemma_unlined_push(lines: Seq<Seq<char>>, line: Seq<char>)
    ensures
        unlined(lines.push(line)) == unlined(lines) + (line + seq!['\n']),
{
    lemma_unlined_concat(lines, seq![line]);
    lemma_single(line);
    assert(lines.push(line) =~= lines + seq![line]);
}

proof fn lemma_data_denials(own: Names, lines: Seq<Seq<char>>, count: nat)
    requires
        count <= 7,
        lines.len() == 7,
        forall|i: int|
            0 <= i < 7 ==> #[trigger] lines[i] == denial(
                own.denied_attribute,
                own.data_type,
                every_access(file_classes()[i]),
            ),
    ensures
        file_statements(own, count) == unlined(lines.take(count as int)),
    decreases count,
{
    if count > 0 {
        let before = (count - 1) as nat;
        lemma_data_denials(own, lines, before);
        lemma_class_line(own, before, every_access(file_classes()[count - 1]));
        lemma_unlined_push(lines.take(count - 1), lines[count - 1]);
        assert(lines.take(count - 1).push(lines[count - 1]) =~= lines.take(count as int));
    } else {
        lemma_single(lines[0]);
        assert(lines.take(0) =~= Seq::<Seq<char>>::empty());
    }
}

/// The deny module is made of its lines: it divides the subjects, denies the others every access to
/// files of each class that carry the data type, and denies them tracing and file descriptors of
/// the application where the options ask for it, each by itself. It denies nothing else.
pub proof fn deny_module_holds_its_lines(profile: Profile)
    ensures
        deny_module(profile) == unlined(deny_lines(profile)),
        lines_of(deny_module(profile)) == deny_lines(profile),
{
    let own = names_of(profile.id);
    let module = own.module;
    let files = data_denials(module);
    let ptrace = denial(own.denied_attribute, own.app_type, "process (ptrace)"@);
    let fd_use = denial(own.denied_attribute, own.app_type, "fd (use)"@);
    let third = where_asked(profile.block_ptrace, ptrace);
    let fourth = where_asked(profile.block_fd_use, fd_use);
    lemma_division(profile.id);
    lemma_classes();
    lemma_data_denials(own, files, 7);
    assert(files.take(7) =~= files);
    lemma_denial(own.denied_attribute, own.app_type, "process (ptrace)"@);
    lemma_denial(own.denied_attribute, own.app_type, "fd (use)"@);
    lemma_single(ptrace);
    lemma_single(fd_use);
    lemma_unlined_concat(division(module), files);
    lemma_unlined_concat(division(module) + files, third);
    lemma_unlined_concat(division(module) + files + third, fourth);
    assert(process_statements(own, profile.block_ptrace, profile.block_fd_use) =~= unlined(third)
        + unlined(fourth));
    assert(deny_module(profile) =~= unlined(division(module)) + unlined(files) + unlined(third)
        + unlined(fourth));
    lemma_deny_lines_are_lines(profile);
    lines_read_back(deny_lines(profile));
}

/// Whether a text is one line that ends with a bracket.
spec fn is_bracketed(text: Seq<char>) -> bool {
    text.len() > 0 && text.last() == ')' && !text.contains('\n')
}

proof fn lemma_bracketed(first: Seq<char>, second: Seq<char>)
    requires
        !first.contains('\n'),
        is_bracketed(second),
    ensures
        is_bracketed(first + second),
{
    let whole = first + second;
    assert(whole.last() == second.last());
    if whole.contains('\n') {
        let i = choose|i: int| 0 <= i < whole.len() && whole[i] == '\n';
        if i < first.len() {
            assert(first[i] == '\n');
        } else {
            assert(second[i - first.len()] == '\n');
        }
    }
}

proof fn lemma_plain_name(text: Seq<char>)
    requires
        is_generated_name(text),
    ensures
        !text.contains('\n'),
{
    if text.contains('\n') {
        let i = choose|i: int| 0 <= i < text.len() && text[i] == '\n';
        assert(is_name_character(text[i]));
    }
}

proof fn lemma_denial_line(subjects: Seq<char>, object: Seq<char>, permission: Seq<char>)
    requires
        !subjects.contains('\n'),
        !object.contains('\n'),
        !permission.contains('\n'),
    ensures
        is_line(denial(subjects, object, permission)),
{
    reveal_strlit("))");
    reveal_strlit(" (");
    reveal_strlit(" ");
    reveal_strlit("(deny ");
    let whole = denial(subjects, object, permission);
    assert(is_bracketed("))"@));
    lemma_bracketed(permission, "))"@);
    lemma_bracketed(" ("@, permission + "))"@);
    lemma_bracketed(object, " ("@ + (permission + "))"@));
    lemma_bracketed(" "@, object + (" ("@ + (permission + "))"@)));
    lemma_bracketed(subjects, " "@ + (object + (" ("@ + (permission + "))"@))));
    lemma_bracketed("(deny "@, subjects + (" "@ + (object + (" ("@ + (permission + "))"@)))));
    assert(whole =~= "(deny "@ + (subjects + (" "@ + (object + (" ("@ + (permission + "))"@))))));
}

proof fn lemma_division_lines(id: u128, index: int)
    requires
        0 <= index < 4,
    ensures
        is_line(division(names_of(id).module)[index]),
{
    let own = names_of(id);
    generated_names_are_well_formed(id);
    lemma_plain_name(own.allowed_attribute);
    lemma_plain_name(own.denied_attribute);
    lemma_plain_name(own.app_type);
    reveal_strlit(")");
    reveal_strlit("))");
    reveal_strlit(")))");
    reveal_strlit(" (");
    reveal_strlit(" (not (");
    reveal_strlit("(typeattribute ");
    reveal_strlit("(typeattributeset ");
    assert(is_bracketed(")"@) && is_bracketed("))"@) && is_bracketed(")))"@));
    let line = division(own.module)[index];
    if index == 0 {
        lemma_bracketed(own.allowed_attribute, ")"@);
        lemma_bracketed("(typeattribute "@, own.allowed_attribute + ")"@);
        assert(line =~= "(typeattribute "@ + (own.allowed_attribute + ")"@));
    } else if index == 1 {
        lemma_bracketed(own.denied_attribute, ")"@);
        lemma_bracketed("(typeattribute "@, own.denied_attribute + ")"@);
        assert(line =~= "(typeattribute "@ + (own.denied_attribute + ")"@));
    } else if index == 2 {
        lemma_bracketed(own.app_type, "))"@);
        lemma_bracketed(" ("@, own.app_type + "))"@);
        lemma_bracketed(own.allowed_attribute, " ("@ + (own.app_type + "))"@));
        lemma_bracketed(
            "(typeattributeset "@,
            own.allowed_attribute + (" ("@ + (own.app_type + "))"@)),
        );
        assert(line =~= "(typeattributeset "@ + (own.allowed_attribute + (" ("@ + (own.app_type
            + "))"@))));
    } else {
        lemma_bracketed(own.allowed_attribute, ")))"@);
        lemma_bracketed(" (not ("@, own.allowed_attribute + ")))"@);
        lemma_bracketed(own.denied_attribute, " (not ("@ + (own.allowed_attribute + ")))"@));
        lemma_bracketed(
            "(typeattributeset "@,
            own.denied_attribute + (" (not ("@ + (own.allowed_attribute + ")))"@)),
        );
        assert(line =~= "(typeattributeset "@ + (own.denied_attribute + (" (not ("@ + (
        own.allowed_attribute + ")))"@))));
    }
}

proof fn lemma_permissions()
    ensures
        !"file (all)"@.contains('\n'),
        !"dir (all)"@.contains('\n'),
        !"lnk_file (all)"@.contains('\n'),
        !"chr_file (all)"@.contains('\n'),
        !"blk_file (all)"@.contains('\n'),
        !"sock_file (all)"@.contains('\n'),
        !"fifo_file (all)"@.contains('\n'),
        !"process (ptrace)"@.contains('\n'),
        !"fd (use)"@.contains('\n'),
{
    reveal_strlit("file (all)");
    reveal_strlit("dir (all)");
    reveal_strlit("lnk_file (all)");
    reveal_strlit("chr_file (all)");
    reveal_strlit("blk_file (all)");
    reveal_strlit("sock_file (all)");
    reveal_strlit("fifo_file (all)");
    reveal_strlit("process (ptrace)");
    reveal_strlit("fd (use)");
}

/// The permission at a place among the denials of data.
spec fn permission_at(index: int) -> Seq<char> {
    seq![
        "file (all)"@,
        "dir (all)"@,
        "lnk_file (all)"@,
        "chr_file (all)"@,
        "blk_file (all)"@,
        "sock_file (all)"@,
        "fifo_file (all)"@,
    ][index]
}

proof fn lemma_data_line(id: u128, index: int)
    requires
        0 <= index < 7,
    ensures
        data_denials(names_of(id).module)[index] == denial(
            names_of(id).denied_attribute,
            names_of(id).data_type,
            permission_at(index),
        ),
        !permission_at(index).contains('\n'),
        is_line(data_denials(names_of(id).module)[index]),
{
    let own = names_of(id);
    generated_names_are_well_formed(id);
    lemma_plain_name(own.denied_attribute);
    lemma_plain_name(own.data_type);
    lemma_permissions();
    lemma_denial_line(own.denied_attribute, own.data_type, permission_at(index));
}

/// What a line of the deny module is: one of the division, a denial for a class of files, or one that
/// an option asks for.
spec fn line_kind(profile: Profile, line: Seq<char>) -> bool {
    let own = names_of(profile.id);
    ||| exists|i: int| 0 <= i < 4 && line == #[trigger] division(own.module)[i]
    ||| exists|i: int| 0 <= i < 7 && line == #[trigger] data_denials(own.module)[i]
    ||| profile.block_ptrace && line == denial(
        own.denied_attribute,
        own.app_type,
        "process (ptrace)"@,
    )
    ||| profile.block_fd_use && line == denial(own.denied_attribute, own.app_type, "fd (use)"@)
}

proof fn lemma_line_kind(profile: Profile, index: int)
    requires
        0 <= index < deny_lines(profile).len(),
    ensures
        line_kind(profile, deny_lines(profile)[index]),
{
    let own = names_of(profile.id);
    let lines = deny_lines(profile);
    let files = data_denials(own.module);
    if index < 4 {
        assert(lines[index] == division(own.module)[index]);
    } else if index < 11 {
        assert(lines[index] == files[index - 4]);
    }
}

proof fn lemma_deny_lines_are_lines(profile: Profile)
    ensures
        forall|i: int| 0 <= i < deny_lines(profile).len() ==> is_line(#[trigger] deny_lines(profile)[i]),
{
    let own = names_of(profile.id);
    let lines = deny_lines(profile);
    assert forall|i: int| 0 <= i < lines.len() implies is_line(#[trigger] lines[i]) by {
        lemma_line_kind(profile, i);
        generated_names_are_well_formed(profile.id);
        lemma_plain_name(own.denied_attribute);
        lemma_plain_name(own.app_type);
        lemma_permissions();
        lemma_denial_line(own.denied_attribute, own.app_type, "process (ptrace)"@);
        lemma_denial_line(own.denied_attribute, own.app_type, "fd (use)"@);
        if exists|k: int| 0 <= k < 4 && lines[i] == #[trigger] division(own.module)[k] {
            let k = choose|k: int| 0 <= k < 4 && lines[i] == #[trigger] division(own.module)[k];
            lemma_division_lines(profile.id, k);
        } else if exists|k: int| 0 <= k < 7 && lines[i] == #[trigger] data_denials(own.module)[k] {
            let k = choose|k: int| 0 <= k < 7 && lines[i] == #[trigger] data_denials(own.module)[k];
            lemma_data_line(profile.id, k);
        }
    }
}

/// How a line ends: the characters at its end, from the last on.
spec fn from_end(line: Seq<char>, place: int) -> char {
    line[line.len() - place]
}

proof fn lemma_ending(line: Seq<char>, ending: Seq<char>, place: int)
    requires
        ends(line, ending),
        1 <= place <= ending.len(),
    ensures
        from_end(line, place) == from_end(ending, place),
{
    let tail = line.subrange(line.len() - ending.len(), line.len() as int);
    assert(tail == ending);
    assert(tail[ending.len() - place] == line[line.len() - place]);
}

proof fn lemma_division_ends(id: u128, index: int)
    requires
        0 <= index < 4,
    ensures
        ({
            let line = division(names_of(id).module)[index];
            line.len() >= 4 && (from_end(line, 2) != ')' || from_end(line, 3) != ')' || from_end(
                line,
                4,
            ) == 's')
        }),
{
    reveal_strlit(")");
    reveal_strlit("))");
    reveal_strlit(")))");
    reveal_strlit("_allowed_subjects");
    reveal_strlit("_denied_subjects");
    reveal_strlit("_t");
    let own = names_of(id);
    let line = division(own.module)[index];
    if index == 0 {
        assert(from_end(line, 2) == own.allowed_attribute.last());
        assert(own.allowed_attribute.last() == "_allowed_subjects"@.last());
    } else if index == 1 {
        assert(from_end(line, 2) == own.denied_attribute.last());
        assert(own.denied_attribute.last() == "_denied_subjects"@.last());
    } else if index == 2 {
        assert(from_end(line, 3) == own.app_type.last());
        assert(own.app_type.last() == "_t"@.last());
    } else {
        assert(from_end(line, 4) == own.allowed_attribute.last());
        assert(own.allowed_attribute.last() == "_allowed_subjects"@.last());
    }
}

proof fn lemma_permission_ends(index: int)
    requires
        0 <= index < 7,
    ensures
        permission_at(index).len() >= 6,
        from_end(permission_at(index), 1) == ')',
        from_end(permission_at(index), 2) == 'l',
{
    reveal_strlit("file (all)");
    reveal_strlit("dir (all)");
    reveal_strlit("lnk_file (all)");
    reveal_strlit("chr_file (all)");
    reveal_strlit("blk_file (all)");
    reveal_strlit("sock_file (all)");
    reveal_strlit("fifo_file (all)");
    let list = seq![
        "file (all)"@,
        "dir (all)"@,
        "lnk_file (all)"@,
        "chr_file (all)"@,
        "blk_file (all)"@,
        "sock_file (all)"@,
        "fifo_file (all)"@,
    ];
    assert(list[0] == "file (all)"@ && list[1] == "dir (all)"@ && list[2] == "lnk_file (all)"@);
    assert(list[3] == "chr_file (all)"@ && list[4] == "blk_file (all)"@);
    assert(list[5] == "sock_file (all)"@ && list[6] == "fifo_file (all)"@);
}

proof fn lemma_denial_ends(
    subjects: Seq<char>,
    object: Seq<char>,
    permission: Seq<char>,
    place: int,
)
    requires
        3 <= place <= permission.len() + 2,
    ensures
        from_end(denial(subjects, object, permission), place) == from_end(permission, place - 2),
        from_end(denial(subjects, object, permission), 1) == ')',
        from_end(denial(subjects, object, permission), 2) == ')',
{
    reveal_strlit("))");
    let whole = denial(subjects, object, permission);
    let head = "(deny "@ + subjects + " "@ + object + " ("@;
    assert(whole =~= head + permission + "))"@);
    assert(whole.len() == head.len() + permission.len() + 2);
}

/// Whether a line ends with the denial of a permission that ends with two characters in brackets.
proof fn lemma_only_option(profile: Profile, index: int, permission: Seq<char>)
    requires
        0 <= index < deny_lines(profile).len(),
        permission == "process (ptrace)"@ || permission == "fd (use)"@,
        ends(deny_lines(profile)[index], " ("@ + permission + "))"@),
    ensures
        permission == "process (ptrace)"@ ==> profile.block_ptrace,
        permission == "fd (use)"@ ==> profile.block_fd_use,
{
    let own = names_of(profile.id);
    let line = deny_lines(profile)[index];
    let ending = " ("@ + permission + "))"@;
    reveal_strlit("process (ptrace)");
    reveal_strlit("fd (use)");
    reveal_strlit("))");
    reveal_strlit(" (");
    let ptrace = "process (ptrace)"@;
    let fd_use = "fd (use)"@;
    assert(ptrace.len() == 16 && fd_use.len() == 8);
    assert(from_end(ptrace, 1) == ')' && from_end(ptrace, 2) == 'e' && from_end(ptrace, 3) == 'c');
    assert(from_end(fd_use, 1) == ')' && from_end(fd_use, 2) == 'e' && from_end(fd_use, 3) == 's');
    assert(ending.len() == permission.len() + 4);
    assert(from_end(ending, 2) == ')' && from_end(ending, 3) == from_end(permission, 1));
    assert(from_end(ending, 4) == from_end(permission, 2));
    assert(from_end(ending, 5) == from_end(permission, 3));
    lemma_ending(line, ending, 2);
    lemma_ending(line, ending, 3);
    lemma_ending(line, ending, 4);
    lemma_ending(line, ending, 5);
    lemma_line_kind(profile, index);
    if exists|k: int| 0 <= k < 4 && line == #[trigger] division(own.module)[k] {
        let k = choose|k: int| 0 <= k < 4 && line == #[trigger] division(own.module)[k];
        lemma_division_ends(profile.id, k);
    } else if exists|k: int| 0 <= k < 7 && line == #[trigger] data_denials(own.module)[k] {
        let k = choose|k: int| 0 <= k < 7 && line == #[trigger] data_denials(own.module)[k];
        lemma_data_line(profile.id, k);
        lemma_permission_ends(k);
        lemma_denial_ends(own.denied_attribute, own.data_type, permission_at(k), 4);
    } else if line == denial(own.denied_attribute, own.app_type, ptrace) && profile.block_ptrace {
        lemma_denial_ends(own.denied_attribute, own.app_type, ptrace, 5);
    } else {
        lemma_denial_ends(own.denied_attribute, own.app_type, fd_use, 5);
    }
}

proof fn lemma_option_shows(profile: Profile, permission: Seq<char>)
    requires
        permission == "process (ptrace)"@ && profile.block_ptrace || permission == "fd (use)"@
            && profile.block_fd_use,
    ensures
        occurs(deny_module(profile), " ("@ + permission + "))\n"@),
{
    let own = names_of(profile.id);
    let line = denial(own.denied_attribute, own.app_type, permission);
    let lines = deny_lines(profile);
    let index = if permission == "process (ptrace)"@ && profile.block_ptrace {
        11
    } else {
        lines.len() - 1
    };
    assert(lines[index] == line);
    deny_module_holds_its_lines(profile);
    lemma_line_occurs(lines, index);
    reveal_strlit("))");
    reveal_strlit("))\n");
    assert("))\n"@ =~= "))"@ + seq!['\n']);
    let head = "(deny "@ + own.denied_attribute + " "@ + own.app_type;
    assert(line + seq!['\n'] =~= head + (" ("@ + permission + "))\n"@));
    affixes_stand_at_the_ends(head, " ("@ + permission + "))\n"@);
    lemma_ends_occurs(deny_module(profile), line + seq!['\n'], " ("@ + permission + "))\n"@);
}

/// The deny module denies tracing exactly where the profile blocks it, and file descriptors exactly
/// where the profile blocks them, whoever would be denied: neither option brings the other with it.
pub proof fn denials_follow_the_options(profile: Profile)
    ensures
        occurs(deny_module(profile), " (process (ptrace)))\n"@) <==> profile.block_ptrace,
        occurs(deny_module(profile), " (fd (use)))\n"@) <==> profile.block_fd_use,
{
    reveal_strlit(" (process (ptrace)))\n");
    reveal_strlit(" (fd (use)))\n");
    reveal_strlit(" (");
    reveal_strlit("))\n");
    reveal_strlit("))");
    reveal_strlit("process (ptrace)");
    reveal_strlit("fd (use)");
    assert(" (process (ptrace)))\n"@ =~= " ("@ + "process (ptrace)"@ + "))\n"@);
    assert(" (fd (use)))\n"@ =~= " ("@ + "fd (use)"@ + "))\n"@);
    let one = " ("@ + "process (ptrace)"@ + "))"@;
    let two = " ("@ + "fd (use)"@ + "))"@;
    assert(" (process (ptrace)))\n"@ =~= one + seq!['\n']);
    assert(" (fd (use)))\n"@ =~= two + seq!['\n']);
    assert(!one.contains('\n'));
    assert(!two.contains('\n'));
    deny_module_holds_its_lines(profile);
    lemma_deny_lines_are_lines(profile);
    if profile.block_ptrace {
        lemma_option_shows(profile, "process (ptrace)"@);
    }
    if profile.block_fd_use {
        lemma_option_shows(profile, "fd (use)"@);
    }
    if occurs(deny_module(profile), one + seq!['\n']) {
        let index = lemma_line_end(deny_lines(profile), one);
        lemma_only_option(profile, index, "process (ptrace)"@);
    }
    if occurs(deny_module(profile), two + seq!['\n']) {
        let index = lemma_line_end(deny_lines(profile), two);
        lemma_only_option(profile, index, "fd (use)"@);
    }
}

} // verus!
