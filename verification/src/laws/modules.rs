//! The texts that are loaded or shown: the base module of a profile and its preview.

use crate::laws::text::{lemma_unlined_concat, unlined};
use crate::model::{names_of, Profile};
use crate::policy::{
    access_statements, base_module, deny_module, directory_operation, directory_operations, escaped,
    executable_operation, preview, requirements, transition_statements, type_statements,
};
use vstd::prelude::*;

verus! {

/// A statement that lets one type manage files of another.
pub open spec fn managing(kind: Seq<char>, application: Seq<char>, data: Seq<char>) -> Seq<char> {
    "manage_"@ + kind + "_pattern("@ + application + ", "@ + data + ", "@ + data + ")"@
}

/// The lines that name the module and what it takes from the installed policy.
pub open spec fn opening_lines(profile: Profile) -> Seq<Seq<char>> {
    seq![
        "policy_module("@ + names_of(profile.id).module + ", 1.0.0)"@,
        ""@,
        "gen_require(`"@,
        "\ttype "@ + profile.launch_domain + ";"@,
        "\trole "@ + profile.launch_role + ";"@,
        "')"@,
        ""@,
    ]
}

/// The lines that declare the types of the application, of its executable and of its data.
pub open spec fn type_lines(module: Seq<char>) -> Seq<Seq<char>> {
    seq![
        "type "@ + (module + "_t"@) + ";"@,
        "type "@ + (module + "_exec_t"@) + ";"@,
        "type "@ + (module + "_data_t"@) + ";"@,
        ""@,
        "domain_type("@ + (module + "_t"@) + ")"@,
        "domain_entry_file("@ + (module + "_t"@) + ", "@ + (module + "_exec_t"@) + ")"@,
        "files_type("@ + (module + "_data_t"@) + ")"@,
        ""@,
    ]
}

/// The lines that lead from the launch domain into that of the application.
pub open spec fn entry_lines(profile: Profile) -> Seq<Seq<char>> {
    let module = names_of(profile.id).module;
    seq![
        "role "@ + profile.launch_role + " types "@ + (module + "_t"@) + ";"@,
        "domtrans_pattern("@ + profile.launch_domain + ", "@ + (module + "_exec_t"@) + ", "@ + (module
            + "_t"@) + ")"@,
        ""@,
    ]
}

/// The lines that say what the application may do.
pub open spec fn access_lines(module: Seq<char>) -> Seq<Seq<char>> {
    let application = module + "_t"@;
    let data = module + "_data_t"@;
    seq![
        "unconfined_domain("@ + application + ")"@,
        managing("dirs"@, application, data),
        managing("files"@, application, data),
        managing("lnk_files"@, application, data),
        managing("sock_files"@, application, data),
        managing("fifo_files"@, application, data),
    ]
}

/// A line with its end.
spec fn ended(line: Seq<char>) -> Seq<char> {
    line + seq!['\n']
}

proof fn lemma_three(a: Seq<char>, b: Seq<char>, c: Seq<char>)
    ensures
        unlined(seq![a, b, c]) == ended(a) + ended(b) + ended(c),
        unlined(seq![a]) == ended(a),
        unlined(seq![a, b]) == ended(a) + ended(b),
{
    reveal_with_fuel(unlined, 4);
    let all = seq![a, b, c];
    assert(all.skip(1) =~= seq![b, c]);
    assert(seq![b, c].skip(1) =~= seq![c]);
    assert(seq![a, b].skip(1) =~= seq![b]);
    assert(seq![c].skip(1) =~= Seq::<Seq<char>>::empty());
    assert(seq![b].skip(1) =~= Seq::<Seq<char>>::empty());
    assert(seq![a].skip(1) =~= Seq::<Seq<char>>::empty());
    assert(unlined(seq![c]) =~= ended(c));
    assert(unlined(seq![b]) =~= ended(b));
    assert(unlined(seq![a]) =~= ended(a));
    assert(unlined(seq![b, c]) =~= ended(b) + ended(c));
    assert(unlined(seq![a, b]) =~= ended(a) + ended(b));
    assert(unlined(all) =~= ended(a) + ended(b) + ended(c));
}

proof fn lemma_opening(profile: Profile)
    ensures
        unlined(opening_lines(profile)) == "policy_module("@ + names_of(profile.id).module
            + ", 1.0.0)\n\n"@ + requirements(profile.launch_domain, profile.launch_role),
{
    let module = names_of(profile.id).module;
    let domain = profile.launch_domain;
    let role = profile.launch_role;
    let lines = opening_lines(profile);
    let nl = seq!['\n'];
    reveal_strlit(", 1.0.0)\n\n");
    reveal_strlit(", 1.0.0)");
    assert(", 1.0.0)\n\n"@ =~= ", 1.0.0)"@ + nl + nl);
    reveal_strlit("gen_require(`\n\ttype ");
    reveal_strlit("gen_require(`");
    reveal_strlit("\ttype ");
    assert("gen_require(`\n\ttype "@ =~= "gen_require(`"@ + nl + "\ttype "@);
    reveal_strlit(";\n\trole ");
    reveal_strlit(";");
    reveal_strlit("\trole ");
    assert(";\n\trole "@ =~= ";"@ + nl + "\trole "@);
    reveal_strlit(";\n')\n\n");
    reveal_strlit("')");
    assert(";\n')\n\n"@ =~= ";"@ + nl + "')"@ + nl + nl);
    reveal_strlit("");
    lemma_three(lines[0], lines[1], lines[2]);
    lemma_three(lines[3], lines[4], lines[5]);
    lemma_three(lines[6], lines[6], lines[6]);
    let first = seq![lines[0], lines[1], lines[2]];
    let second = seq![lines[3], lines[4], lines[5]];
    let third = seq![lines[6]];
    lemma_unlined_concat(first, second);
    lemma_unlined_concat(first + second, third);
    assert(first + second + third =~= lines);
    assert(""@ =~= Seq::<char>::empty());
    lemma_opening_pieces(
        "policy_module("@,
        module,
        ", 1.0.0)"@,
        "gen_require(`"@,
        "\ttype "@,
        domain,
        ";"@,
        "\trole "@,
        role,
        "')"@,
        nl,
    );
}

proof fn lemma_opening_pieces(
    a: Seq<char>,
    b: Seq<char>,
    c: Seq<char>,
    d: Seq<char>,
    e: Seq<char>,
    f: Seq<char>,
    g: Seq<char>,
    h: Seq<char>,
    i: Seq<char>,
    j: Seq<char>,
    nl: Seq<char>,
)
    ensures
        (a + b + c + nl) + (Seq::<char>::empty() + nl) + (d + nl) + ((e + f + g + nl) + (h + i + g
            + nl) + (j + nl)) + (Seq::<char>::empty() + nl) == a + b + (c + nl + nl) + ((d + nl + e)
            + f + (g + nl + h) + i + (g + nl + j + nl + nl)),
{
    let none = Seq::<char>::empty();
    assert(none + nl =~= nl);
    let left = (a + b + c + nl) + nl + (d + nl) + ((e + f + g + nl) + (h + i + g + nl) + (j + nl))
        + nl;
    let right = a + b + (c + nl + nl) + ((d + nl + e) + f + (g + nl + h) + i + (g + nl + j + nl
        + nl));
    assert((d + nl + e) + f + (g + nl + h) + i + (g + nl + j + nl + nl) =~= (d + nl) + ((e + f + g
        + nl) + (h + i + g + nl) + (j + nl)) + nl);
    assert(a + b + (c + nl + nl) =~= (a + b + c + nl) + nl);
    assert(left =~= right);
}

proof fn lemma_types(id: u128)
    ensures
        unlined(type_lines(names_of(id).module)) == type_statements(names_of(id)),
{
    let own = names_of(id);
    let lines = type_lines(own.module);
    let nl = seq!['\n'];
    reveal_strlit(";\ntype ");
    reveal_strlit(";");
    reveal_strlit("type ");
    assert(";\ntype "@ =~= ";"@ + nl + "type "@);
    reveal_strlit(";\n\ndomain_type(");
    reveal_strlit("domain_type(");
    assert(";\n\ndomain_type("@ =~= ";"@ + nl + nl + "domain_type("@);
    reveal_strlit(")\ndomain_entry_file(");
    reveal_strlit(")");
    reveal_strlit("domain_entry_file(");
    assert(")\ndomain_entry_file("@ =~= ")"@ + nl + "domain_entry_file("@);
    reveal_strlit(")\nfiles_type(");
    reveal_strlit("files_type(");
    assert(")\nfiles_type("@ =~= ")"@ + nl + "files_type("@);
    reveal_strlit(")\n\n");
    assert(")\n\n"@ =~= ")"@ + nl + nl);
    reveal_strlit("");
    assert(""@ =~= Seq::<char>::empty());
    lemma_three(lines[0], lines[1], lines[2]);
    lemma_three(lines[3], lines[4], lines[5]);
    lemma_three(lines[6], lines[7], lines[7]);
    let first = seq![lines[0], lines[1], lines[2]];
    let second = seq![lines[3], lines[4], lines[5]];
    let third = seq![lines[6], lines[7]];
    lemma_unlined_concat(first, second);
    lemma_unlined_concat(first + second, third);
    assert(first + second + third =~= lines);
    lemma_type_pieces(
        "type "@,
        own.app_type,
        ";"@,
        own.exec_type,
        own.data_type,
        "domain_type("@,
        ")"@,
        "domain_entry_file("@,
        ", "@,
        "files_type("@,
        nl,
    );
}

proof fn lemma_type_pieces(
    a: Seq<char>,
    b: Seq<char>,
    c: Seq<char>,
    d: Seq<char>,
    e: Seq<char>,
    f: Seq<char>,
    g: Seq<char>,
    h: Seq<char>,
    i: Seq<char>,
    j: Seq<char>,
    nl: Seq<char>,
)
    ensures
        ((a + b + c + nl) + (a + d + c + nl) + (a + e + c + nl)) + ((Seq::<char>::empty() + nl) + (f
            + b + g + nl) + (h + b + i + d + g + nl)) + ((j + e + g + nl) + (Seq::<char>::empty()
            + nl)) == a + b + (c + nl + a) + d + (c + nl + a) + e + (c + nl + nl + f) + b + (g + nl
            + h) + b + i + d + (g + nl + j) + e + (g + nl + nl),
{
    let none = Seq::<char>::empty();
    assert(none + nl =~= nl);
    let one = (a + b + c + nl) + (a + d + c + nl) + (a + e + c + nl);
    let two = nl + (f + b + g + nl) + (h + b + i + d + g + nl);
    let three = (j + e + g + nl) + nl;
    let half = a + b + (c + nl + a) + d + (c + nl + a) + e + (c + nl + nl + f);
    assert(half =~= one + nl + f);
    let more = half + b + (g + nl + h) + b + i + d + (g + nl + j);
    assert(more =~= one + two + j);
    assert(more + e + (g + nl + nl) =~= one + two + three);
}

proof fn lemma_entry(profile: Profile)
    ensures
        unlined(entry_lines(profile)) == transition_statements(
            names_of(profile.id),
            profile.launch_domain,
            profile.launch_role,
        ),
{
    let own = names_of(profile.id);
    let lines = entry_lines(profile);
    let nl = seq!['\n'];
    let domain = profile.launch_domain;
    let role = profile.launch_role;
    reveal_strlit(";\ndomtrans_pattern(");
    reveal_strlit(";");
    reveal_strlit("domtrans_pattern(");
    assert(";\ndomtrans_pattern("@ =~= ";"@ + nl + "domtrans_pattern("@);
    reveal_strlit(")\n\n");
    reveal_strlit(")");
    assert(")\n\n"@ =~= ")"@ + nl + nl);
    reveal_strlit("");
    assert(""@ =~= Seq::<char>::empty());
    lemma_three(lines[0], lines[1], lines[2]);
    assert(lines =~= seq![lines[0], lines[1], lines[2]]);
    assert(ended(lines[2]) =~= nl);
    let first = "role "@ + role + " types "@ + own.app_type;
    assert(ended(lines[0]) =~= first + (";"@ + nl));
    let second = domain + ", "@ + own.exec_type + ", "@ + own.app_type;
    assert(ended(lines[1]) + nl =~= "domtrans_pattern("@ + second + (")"@ + nl + nl));
    assert(transition_statements(own, domain, role) =~= first + (";"@ + nl) + ("domtrans_pattern("@
        + second + (")"@ + nl + nl)));
}

proof fn lemma_patterns()
    ensures
        ")\nmanage_dirs_pattern("@ == ")"@ + seq!['\n'] + ("manage_"@ + "dirs"@ + "_pattern("@),
        ")\nmanage_files_pattern("@ == ")"@ + seq!['\n'] + ("manage_"@ + "files"@ + "_pattern("@),
        ")\nmanage_lnk_files_pattern("@ == ")"@ + seq!['\n'] + ("manage_"@ + "lnk_files"@
            + "_pattern("@),
        ")\nmanage_sock_files_pattern("@ == ")"@ + seq!['\n'] + ("manage_"@ + "sock_files"@
            + "_pattern("@),
        ")\nmanage_fifo_files_pattern("@ == ")"@ + seq!['\n'] + ("manage_"@ + "fifo_files"@
            + "_pattern("@),
        ")\n"@ == ")"@ + seq!['\n'],
{
    reveal_strlit(")\nmanage_dirs_pattern(");
    reveal_strlit(")\nmanage_files_pattern(");
    reveal_strlit(")\nmanage_lnk_files_pattern(");
    reveal_strlit(")\nmanage_sock_files_pattern(");
    reveal_strlit(")\nmanage_fifo_files_pattern(");
    reveal_strlit(")\n");
    reveal_strlit(")");
    reveal_strlit("manage_");
    reveal_strlit("_pattern(");
    reveal_strlit("dirs");
    reveal_strlit("files");
    reveal_strlit("lnk_files");
    reveal_strlit("sock_files");
    reveal_strlit("fifo_files");
}

proof fn lemma_access(id: u128)
    ensures
        unlined(access_lines(names_of(id).module)) == access_statements(names_of(id)),
{
    let own = names_of(id);
    let lines = access_lines(own.module);
    lemma_patterns();
    lemma_three(lines[0], lines[1], lines[2]);
    lemma_three(lines[3], lines[4], lines[5]);
    let first = seq![lines[0], lines[1], lines[2]];
    let second = seq![lines[3], lines[4], lines[5]];
    lemma_unlined_concat(first, second);
    assert(first + second =~= lines);
    lemma_access_pieces(
        "unconfined_domain("@,
        own.app_type,
        own.data_type,
        ", "@,
        ")"@,
        seq!['\n'],
        "manage_"@ + "dirs"@ + "_pattern("@,
        "manage_"@ + "files"@ + "_pattern("@,
        "manage_"@ + "lnk_files"@ + "_pattern("@,
        "manage_"@ + "sock_files"@ + "_pattern("@,
        "manage_"@ + "fifo_files"@ + "_pattern("@,
    );
}

proof fn lemma_access_pieces(
    u: Seq<char>,
    t: Seq<char>,
    d: Seq<char>,
    c: Seq<char>,
    b: Seq<char>,
    nl: Seq<char>,
    k1: Seq<char>,
    k2: Seq<char>,
    k3: Seq<char>,
    k4: Seq<char>,
    k5: Seq<char>,
)
    ensures
        ((u + t + b + nl) + (k1 + t + c + d + c + d + b + nl) + (k2 + t + c + d + c + d + b + nl))
            + ((k3 + t + c + d + c + d + b + nl) + (k4 + t + c + d + c + d + b + nl) + (k5 + t + c
            + d + c + d + b + nl)) == u + t + (b + nl + k1) + t + c + d + c + d + (b + nl + k2) + t
            + c + d + c + d + (b + nl + k3) + t + c + d + c + d + (b + nl + k4) + t + c + d + c + d
            + (b + nl + k5) + t + c + d + c + d + (b + nl),
{
    let none = Seq::<char>::empty();
    let start = u + t + b + nl;
    let m1 = k1 + t + c + d + c + d + b + nl;
    let m2 = k2 + t + c + d + c + d + b + nl;
    let m3 = k3 + t + c + d + c + d + b + nl;
    let m4 = k4 + t + c + d + c + d + b + nl;
    let m5 = k5 + t + c + d + c + d + b + nl;
    assert(u + t + (b + nl + k1) =~= start + k1);
    lemma_access_step(start, k1, t, c, d, b, nl, k2);
    lemma_access_step(start + m1, k2, t, c, d, b, nl, k3);
    lemma_access_step(start + m1 + m2, k3, t, c, d, b, nl, k4);
    lemma_access_step(start + m1 + m2 + m3, k4, t, c, d, b, nl, k5);
    lemma_access_step(start + m1 + m2 + m3 + m4, k5, t, c, d, b, nl, none);
    assert(b + nl + none =~= b + nl);
    let all = start + m1 + m2 + m3 + m4 + m5;
    assert(all + none =~= all);
    assert(all =~= (start + m1 + m2) + (m3 + m4 + m5));
}

proof fn lemma_access_step(
    x: Seq<char>,
    k: Seq<char>,
    t: Seq<char>,
    c: Seq<char>,
    d: Seq<char>,
    b: Seq<char>,
    nl: Seq<char>,
    next: Seq<char>,
)
    ensures
        (x + k) + t + c + d + c + d + (b + nl + next) == (x + (k + t + c + d + c + d + b + nl)) + next,
{
    let middle = t + c + d + c + d;
    assert((x + k) + t + c + d + c + d =~= (x + k) + middle);
    assert(k + t + c + d + c + d + b + nl =~= k + middle + b + nl);
    assert((x + k) + middle + (b + nl + next) =~= (x + (k + middle + b + nl)) + next);
}

/// The base module is made of its lines: it names the module, takes the launch domain and role from
/// the installed policy, declares the three types, leads from the launch domain into that of the
/// application, and lets the application do what an unconfined domain may and everything with its
/// data.
pub proof fn base_module_holds_its_lines(profile: Profile)
    ensures
        base_module(profile) == unlined(
            opening_lines(profile) + type_lines(names_of(profile.id).module) + entry_lines(profile)
                + access_lines(names_of(profile.id).module),
        ),
{
    let module = names_of(profile.id).module;
    let a = opening_lines(profile);
    let b = type_lines(module);
    let c = entry_lines(profile);
    let d = access_lines(module);
    lemma_opening(profile);
    lemma_types(profile.id);
    lemma_entry(profile);
    lemma_access(profile.id);
    lemma_unlined_concat(a, b);
    lemma_unlined_concat(a + b, c);
    lemma_unlined_concat(a + b + c, d);
    assert(base_module(profile) =~= unlined(a) + unlined(b) + unlined(c) + unlined(d));
}

/// A preview shows both modules under their names and the rule of the executable, and one rule for
/// each directory, in their order.
pub proof fn previews_show_everything(
    profile: Profile,
    directories: Seq<Seq<char>>,
    directory: Seq<char>,
)
    ensures
        ({
            let module = names_of(profile.id).module;
            let empty = Profile { data_directories: Seq::empty(), ..profile };
            let fewer = Profile { data_directories: directories, ..profile };
            let more = Profile { data_directories: directories.push(directory), ..profile };
            &&& preview(empty) == "# "@ + module + ".te\n"@ + base_module(profile) + "\n# "@ + (module
                + "_deny"@) + ".cil\n"@ + deny_module(profile) + "\n# File contexts\n"@ + (
            "semanage fcontext -a -f f -t "@ + (module + "_exec_t"@) + " '"@ + escaped(
                profile.executable,
            ) + "'\n"@)
            &&& preview(more) == preview(fewer) + ("semanage fcontext -a -t "@ + (module
                + "_data_t"@) + " '"@ + (escaped(directory) + "(/.*)?"@) + "'\n"@)
        }),
{
    let own = names_of(profile.id);
    let empty = Profile { data_directories: Seq::empty(), ..profile };
    let fewer = Profile { data_directories: directories, ..profile };
    let more = Profile { data_directories: directories.push(directory), ..profile };
    assert(directories.push(directory).drop_last() =~= directories);
    assert(directories.push(directory).last() == directory);
    assert(directory_operations(own, Seq::empty()) =~= Seq::<char>::empty());
    let head = "# "@ + own.module + ".te\n"@ + base_module(profile) + "\n# "@ + own.deny_module
        + ".cil\n"@ + deny_module(profile) + "\n# File contexts\n"@ + executable_operation(
        own,
        escaped(profile.executable),
    );
    assert(base_module(empty) == base_module(profile) && base_module(fewer) == base_module(profile));
    assert(base_module(more) == base_module(profile));
    assert(deny_module(empty) == deny_module(profile) && deny_module(fewer) == deny_module(profile));
    assert(deny_module(more) == deny_module(profile));
    assert(preview(empty) =~= head);
    let last = directory_operation(own, escaped(directory) + "(/.*)?"@);
    let rest = directory_operations(own, directories);
    assert(preview(fewer) == head + rest);
    assert(preview(more) == head + (rest + last));
    assert(head + (rest + last) =~= head + rest + last);
}

} // verus!
