//! Laws of the `project.pbxproj` edits: they keep the sections' names and
//! order, they leave the library mentioned where they add it, and running them
//! a second time changes nothing (the group edit: wherever the library stays
//! mentioned after it); printing sections distributes over concatenation; and
//! the install script puts the library and its header where the edited
//! project looks for them.

use vstd::prelude::*;
use crate::configuration::{bridge_h_file_name, lib_executable_name, libs_directory_path, Config};
use crate::generators::gen_install_sh::install_sh_code;
use crate::paths::{file_name, is_normal_component, law_file_name_of_join};
use crate::injectors::inject_pbxproj::{
    add_unless_present, append_unless_present, arch_search_paths_line, bridging_header_line,
    build_file_line, build_file_step, children_id, children_open, edited_sections, end_marker,
    file_reference_step, frameworks_child, frameworks_phase_block, frameworks_step, group_block,
    group_step, group_with_header, group_with_lib, header_file_ref_line, index_from,
    lib_file_ref_line, lib_search, modified_build_settings, native_frameworks_id, parse_outcome,
    printed, products_child, project_group_marker, search_paths_line, section_index,
    sections_of, with_content, header_cut, BEGIN_MARK, BRIDGE_HEADER_ID, DEFAULT_FRAMEWORKS_ID, LIB_FILE_ID,
    LIB_FILE_REF, SectionText,
};
use crate::text::{
    ascii, byte_find, char_index_at, contains, find, find_from, lemma_ascii_bytes,
    lemma_ascii_parts, lemma_contains, lemma_contains_middle, lemma_contains_prefix,
    lemma_contains_suffix, lemma_contains_trans, lemma_find_from, lemma_find_skip, lemma_rfind_at_most, occurs_at,
    rfind, skip_chars, trim, trim_end, trim_start,
};

verus! {

/// The names of the sections, in order.
pub open spec fn names(secs: Seq<SectionText>) -> Seq<Seq<char>> {
    secs.map_values(|s: SectionText| s.0)
}

proof fn lemma_index_from_with_content(
    secs: Seq<SectionText>,
    k: int,
    c: Seq<char>,
    name: Seq<char>,
    i: int,
)
    requires
        0 <= k < secs.len(),
    ensures
        index_from(with_content(secs, k, c), name, i) == index_from(secs, name, i),
    decreases secs.len() - i,
{
    if i < 0 || i >= secs.len() {
    } else {
        assert(with_content(secs, k, c)[i].0 == secs[i].0);
        lemma_index_from_with_content(secs, k, c, name, i + 1);
    }
}

/// Replacing the content of a section does not move any section.
pub proof fn lemma_section_index_with_content(
    secs: Seq<SectionText>,
    k: int,
    c: Seq<char>,
    name: Seq<char>,
)
    requires
        0 <= k < secs.len(),
    ensures
        section_index(with_content(secs, k, c), name) == section_index(secs, name),
        names(with_content(secs, k, c)) == names(secs),
{
    lemma_index_from_with_content(secs, k, c, name, 0);
    assert(names(with_content(secs, k, c)) =~= names(secs));
}

proof fn lemma_index_in_range(secs: Seq<SectionText>, name: Seq<char>, i: int)
    ensures
        index_from(secs, name, i) matches Some(k) ==> i <= k < secs.len() && secs[k].0 == name,
    decreases secs.len() - i,
{
    if i < 0 || i >= secs.len() {
    } else if secs[i].0 == name {
    } else {
        lemma_index_in_range(secs, name, i + 1);
    }
}

/// `secs` with `f` applied to the content of the first section named `name`.
pub open spec fn edit_at(
    secs: Seq<SectionText>,
    name: Seq<char>,
    f: spec_fn(Seq<char>) -> Seq<char>,
) -> Seq<SectionText> {
    match section_index(secs, name) {
        None => secs,
        Some(k) => with_content(secs, k, f(secs[k].1)),
    }
}

/// Editing one section keeps the names, positions and other sections.
proof fn lemma_edit_at(secs: Seq<SectionText>, name: Seq<char>, f: spec_fn(Seq<char>) -> Seq<char>)
    ensures
        names(edit_at(secs, name, f)) == names(secs),
        edit_at(secs, name, f).len() == secs.len(),
        forall|m: Seq<char>|
            #![trigger section_index(edit_at(secs, name, f), m)]
            section_index(edit_at(secs, name, f), m) == section_index(secs, m),
        forall|i: int|
            0 <= i < secs.len() && section_index(secs, name) != Some(i) ==> #[trigger] edit_at(
                secs,
                name,
                f,
            )[i] == secs[i],
        section_index(secs, name) matches Some(k) ==> 0 <= k < secs.len() && secs[k].0 == name
            && edit_at(secs, name, f)[k] == (secs[k].0, f(secs[k].1)),
{
    lemma_index_in_range(secs, name, 0);
    if let Some(k) = section_index(secs, name) {
        let c = f(secs[k].1);
        lemma_section_index_with_content(secs, k, c, name);
        assert forall|m: Seq<char>|
            #![trigger section_index(edit_at(secs, name, f), m)]
            section_index(edit_at(secs, name, f), m) == section_index(secs, m) by {
            lemma_section_index_with_content(secs, k, c, m);
        }
    } else {
        assert(names(edit_at(secs, name, f)) =~= names(secs));
    }
}

proof fn lemma_edit_fixed(secs: Seq<SectionText>, name: Seq<char>, f: spec_fn(Seq<char>) -> Seq<char>)
    requires
        section_index(secs, name) matches Some(k) ==> f(secs[k].1) == secs[k].1,
    ensures
        edit_at(secs, name, f) == secs,
{
    lemma_index_in_range(secs, name, 0);
    if let Some(k) = section_index(secs, name) {
        assert(with_content(secs, k, secs[k].1) =~= secs);
    }
}

/// `c`, followed by `addition` unless `c` contains `needle`.
pub open spec fn add_content(c: Seq<char>, needle: Seq<char>, addition: Seq<char>) -> Seq<char> {
    if contains(c, needle) {
        c
    } else {
        c + addition
    }
}

proof fn lemma_add_is_edit(secs: Seq<SectionText>, name: Seq<char>, needle: Seq<char>, addition: Seq<char>)
    ensures
        add_unless_present(secs, name, needle, addition) == edit_at(
            secs,
            name,
            |c: Seq<char>| add_content(c, needle, addition),
        ),
{
    lemma_index_in_range(secs, name, 0);
    if let Some(k) = section_index(secs, name) {
        if contains(secs[k].1, needle) {
            assert(with_content(secs, k, secs[k].1) =~= secs);
        }
    }
}

proof fn lemma_add_content_idempotent(c: Seq<char>, needle: Seq<char>, addition: Seq<char>)
    requires
        contains(addition, needle),
    ensures
        add_content(add_content(c, needle, addition), needle, addition) == add_content(
            c,
            needle,
            addition,
        ),
{
    if !contains(c, needle) {
        lemma_contains_suffix(c, addition, needle);
    }
}

/// Adding text to a section keeps the names and order of all sections.
pub proof fn lemma_add_keeps_names(
    secs: Seq<SectionText>,
    name: Seq<char>,
    needle: Seq<char>,
    addition: Seq<char>,
)
    ensures
        names(add_unless_present(secs, name, needle, addition)) == names(secs),
{
    lemma_index_in_range(secs, name, 0);
    if let Some(k) = section_index(secs, name) {
        lemma_section_index_with_content(secs, k, secs[k].1 + addition, name);
    }
}

/// Adding text that contains `needle` unless `needle` is present already is
/// idempotent, and afterwards the section (if any) contains `needle`.
pub proof fn lemma_add_unless_present_idempotent(
    secs: Seq<SectionText>,
    name: Seq<char>,
    needle: Seq<char>,
    addition: Seq<char>,
)
    requires
        contains(addition, needle),
    ensures
        add_unless_present(add_unless_present(secs, name, needle, addition), name, needle, addition)
            == add_unless_present(secs, name, needle, addition),
        section_index(add_unless_present(secs, name, needle, addition), name) == section_index(
            secs,
            name,
        ),
        section_index(secs, name) matches Some(k) ==> contains(
            add_unless_present(secs, name, needle, addition)[k].1,
            needle,
        ),
{
    lemma_index_in_range(secs, name, 0);
    if let Some(k) = section_index(secs, name) {
        if !contains(secs[k].1, needle) {
            let after = with_content(secs, k, secs[k].1 + addition);
            lemma_section_index_with_content(secs, k, secs[k].1 + addition, name);
            lemma_contains_suffix(secs[k].1, addition, needle);
            assert(after[k].1 == secs[k].1 + addition);
        }
    }
}

proof fn lemma_distinct_section_names()
    ensures
        "PBXBuildFile section"@ != "PBXFileReference section"@,
        "PBXBuildFile section"@ != "PBXFrameworksBuildPhase section"@,
        "PBXBuildFile section"@ != "PBXGroup section"@,
        "PBXBuildFile section"@ != "PBXNativeTarget section"@,
        "PBXFileReference section"@ != "PBXFrameworksBuildPhase section"@,
        "PBXFileReference section"@ != "PBXGroup section"@,
        "PBXFileReference section"@ != "PBXNativeTarget section"@,
        "PBXFrameworksBuildPhase section"@ != "PBXGroup section"@,
        "PBXFrameworksBuildPhase section"@ != "PBXNativeTarget section"@,
        "PBXGroup section"@ != "PBXNativeTarget section"@,
{
    reveal_strlit("PBXBuildFile section");
    reveal_strlit("PBXFileReference section");
    reveal_strlit("PBXFrameworksBuildPhase section");
    reveal_strlit("PBXGroup section");
    reveal_strlit("PBXNativeTarget section");
    assert("PBXBuildFile section"@.len() == 20);
    assert("PBXFileReference section"@.len() == 24);
    assert("PBXFrameworksBuildPhase section"@.len() == 31);
    assert("PBXGroup section"@.len() == 16);
    assert("PBXNativeTarget section"@.len() == 23);
}

proof fn lemma_build_file_addition(lib: Seq<char>)
    ensures
        contains(build_file_line(lib) + "\n"@, lib),
{
    let x = build_file_line(lib) + "\n"@;
    let a = "\t\t"@ + LIB_FILE_ID@ + " /* "@;
    let b = x.skip((a.len() + lib.len()) as int);
    assert(x =~= a + lib + b);
    lemma_contains_middle(a, lib, b);
}

proof fn lemma_file_reference_addition(lib: Seq<char>, header: Seq<char>)
    ensures
        contains(lib_file_ref_line(lib) + "\n"@ + header_file_ref_line(header) + "\n"@, lib),
{
    let x = lib_file_ref_line(lib) + "\n"@ + header_file_ref_line(header) + "\n"@;
    let a = "\t\t"@ + LIB_FILE_REF@ + " /* "@;
    let b = x.skip((a.len() + lib.len()) as int);
    assert(x =~= a + lib + b);
    lemma_contains_middle(a, lib, b);
}

proof fn lemma_frameworks_addition(id: Seq<char>, lib: Seq<char>)
    ensures
        contains(frameworks_phase_block(id, lib) + "\n"@, lib),
{
    let x = frameworks_phase_block(id, lib) + "\n"@;
    let a = "\t\t"@ + id + " /* Frameworks */ = {\n"@ + "\t\t\tisa = PBXFrameworksBuildPhase;\n"@
        + "\t\t\tbuildActionMask = 2147483647;\n"@ + "\t\t\tfiles = (\n"@ + "\t\t\t\t"@ + LIB_FILE_ID@
        + " /* "@;
    let b = x.skip((a.len() + lib.len()) as int);
    assert(x =~= a + lib + b);
    lemma_contains_middle(a, lib, b);
}

/// Adding to the frameworks build-phase section leaves the native target's
/// `Frameworks` phase as it was.
proof fn lemma_frameworks_id_kept(secs: Seq<SectionText>, needle: Seq<char>, addition: Seq<char>)
    ensures
        native_frameworks_id(
            add_unless_present(secs, "PBXFrameworksBuildPhase section"@, needle, addition),
        ) == native_frameworks_id(secs),
{
    lemma_index_in_range(secs, "PBXFrameworksBuildPhase section"@, 0);
    lemma_index_in_range(secs, "PBXNativeTarget section"@, 0);
    if let Some(k) = section_index(secs, "PBXFrameworksBuildPhase section"@) {
        if !contains(secs[k].1, needle) {
            let c = secs[k].1 + addition;
            lemma_section_index_with_content(secs, k, c, "PBXNativeTarget section"@);
            reveal_strlit("PBXFrameworksBuildPhase section");
            reveal_strlit("PBXNativeTarget section");
            assert("PBXFrameworksBuildPhase section"@ != "PBXNativeTarget section"@) by {
                assert("PBXFrameworksBuildPhase section"@.len() != "PBXNativeTarget section"@.len());
            }
            if let Some(j) = section_index(secs, "PBXNativeTarget section"@) {
                assert(j != k);
                assert(with_content(secs, k, c)[j] == secs[j]);
            }
        }
    }
}

/// The native target's `Frameworks` phase only depends on the native target
/// section.
proof fn lemma_frameworks_id_same(s: Seq<SectionText>, t: Seq<SectionText>)
    requires
        section_index(s, "PBXNativeTarget section"@) == section_index(t, "PBXNativeTarget section"@),
        section_index(s, "PBXNativeTarget section"@) matches Some(k) ==> s[k] == t[k],
    ensures
        native_frameworks_id(s) == native_frameworks_id(t),
{
}

/// Entering the library's build file twice is entering it once; afterwards
/// the `PBXBuildFile` section, if there is one, mentions the library, and the
/// sections keep their names and order.
pub proof fn law_build_file_step(config: &Config, secs: Seq<SectionText>)
    ensures
        build_file_step(config, build_file_step(config, secs)) == build_file_step(config, secs),
        names(build_file_step(config, secs)) == names(secs),
        section_index(secs, "PBXBuildFile section"@) matches Some(k) ==> contains(
            build_file_step(config, secs)[k].1,
            lib_executable_name(config.rust_file_name@),
        ),
{
    let lib = lib_executable_name(config.rust_file_name@);
    let addition = build_file_line(lib) + "\n"@;
    lemma_build_file_addition(lib);
    lemma_add_unless_present_idempotent(secs, "PBXBuildFile section"@, lib, addition);
    lemma_add_keeps_names(secs, "PBXBuildFile section"@, lib, addition);
}

/// Entering the library's and the header's file references twice is entering
/// them once; afterwards the `PBXFileReference` section, if there is one,
/// mentions the library, and the sections keep their names and order.
pub proof fn law_file_reference_step(config: &Config, secs: Seq<SectionText>)
    ensures
        file_reference_step(config, file_reference_step(config, secs)) == file_reference_step(
            config,
            secs,
        ),
        names(file_reference_step(config, secs)) == names(secs),
        section_index(secs, "PBXFileReference section"@) matches Some(k) ==> contains(
            file_reference_step(config, secs)[k].1,
            lib_executable_name(config.rust_file_name@),
        ),
{
    let lib = lib_executable_name(config.rust_file_name@);
    let header = bridge_h_file_name(config.rust_file_name@);
    let addition = lib_file_ref_line(lib) + "\n"@ + header_file_ref_line(header) + "\n"@;
    lemma_file_reference_addition(lib, header);
    lemma_add_unless_present_idempotent(secs, "PBXFileReference section"@, lib, addition);
    lemma_add_keeps_names(secs, "PBXFileReference section"@, lib, addition);
}

/// Entering the library's frameworks build phase twice is entering it once;
/// afterwards the `PBXFrameworksBuildPhase` section, if there is one,
/// mentions the library, and the sections keep their names and order.
pub proof fn law_frameworks_step(config: &Config, secs: Seq<SectionText>)
    ensures
        frameworks_step(config, frameworks_step(config, secs)) == frameworks_step(config, secs),
        names(frameworks_step(config, secs)) == names(secs),
        section_index(secs, "PBXFrameworksBuildPhase section"@) matches Some(k) ==> contains(
            frameworks_step(config, secs)[k].1,
            lib_executable_name(config.rust_file_name@),
        ),
{
    let lib = lib_executable_name(config.rust_file_name@);
    let id = native_frameworks_id(secs)->Ok_0;
    let addition = frameworks_phase_block(id, lib) + "\n"@;
    lemma_frameworks_addition(id, lib);
    lemma_add_unless_present_idempotent(secs, "PBXFrameworksBuildPhase section"@, lib, addition);
    lemma_add_keeps_names(secs, "PBXFrameworksBuildPhase section"@, lib, addition);
    lemma_frameworks_id_kept(secs, lib, addition);
}

/// The native target's `Frameworks` phase is the one listed first: with a
/// `PBXNativeTarget` section, the identifier found is the trimmed text from
/// the last line break before the first ` /* Frameworks */,` of that section
/// up to it; there is none without such an entry, and without the section
/// the error names the section.
pub proof fn law_native_frameworks_id_first(secs: Seq<SectionText>)
    ensures
        section_index(secs, "PBXNativeTarget section"@) is None ==> native_frameworks_id(secs)
            == Err::<Seq<char>, Seq<char>>("Cannot find the PBXNativeTarget section"@),
        section_index(secs, "PBXNativeTarget section"@) matches Some(k) ==> {
            let c = secs[k].1;
            &&& !contains(c, frameworks_child()) ==> native_frameworks_id(secs) is Err
            &&& native_frameworks_id(secs) is Ok ==> contains(c, frameworks_child())
            &&& forall|l: int, n: int|
                #![trigger occurs_at(c, frameworks_child(), l), c[n]]
                occurs_at(c, frameworks_child(), l) && (forall|j: int|
                    0 <= j < l ==> !occurs_at(c, frameworks_child(), j)) && 0 <= n < l && c[n]
                    == '\n' && (forall|j: int| n < j < l ==> c[j] != '\n') ==> native_frameworks_id(secs)
                    == Ok::<Seq<char>, Seq<char>>(trim(c.subrange(n, l)))
        },
{
    if let Some(k) = section_index(secs, "PBXNativeTarget section"@) {
        let c = secs[k].1;
        let fc = frameworks_child();
        lemma_find_from(c, fc, 0);
        lemma_contains(c, fc);
        reveal_strlit("\n");
        assert forall|l: int, n: int|
            #![trigger occurs_at(c, fc, l), c[n]]
            occurs_at(c, fc, l) && (forall|j: int| 0 <= j < l ==> !occurs_at(c, fc, j)) && 0 <= n
                < l && c[n] == '\n' && (forall|j: int| n < j < l ==> c[j] != '\n') implies native_frameworks_id(
            secs,
        ) == Ok::<Seq<char>, Seq<char>>(trim(c.subrange(n, l))) by {
            let f = find(c, fc)->0;
            assert(f == l);
            let before = c.take(l);
            lemma_rfind_at_most(before, "\n"@, before.len() - 1);
            assert(before.subrange(n, n + 1) =~= "\n"@) by {
                assert(before[n] == c[n]);
            }
            assert(occurs_at(before, "\n"@, n));
            let m = rfind(before, "\n"@)->0;
            assert(m == n) by {
                if m > n {
                    assert(before.subrange(m, m + 1)[0] == before[m]);
                    assert(c[m] == before[m]);
                }
            }
            assert(before.skip(n) =~= c.subrange(n, l));
        }
    }
}

/// The group block for `lib` mentions `lib`.
proof fn lemma_group_block_mentions(id: Seq<char>, lib: Seq<char>)
    ensures
        contains(group_block(id, lib) + "\n"@, lib),
{
    let x = group_block(id, lib) + "\n"@;
    let a = "\t\t"@ + id + " /* Frameworks */ = {\n"@ + "\t\t\tisa = PBXGroup;\n"@ + "\t\t\tchildren = (\n"@
        + "\t\t\t\t"@ + LIB_FILE_REF@ + " /* "@;
    let b = x.skip((a.len() + lib.len()) as int);
    assert(x =~= a + lib + b);
    lemma_contains_middle(a, lib, b);
}

/// Once the library's `Frameworks` group is in the group section, adding
/// it again changes nothing.
pub proof fn law_group_with_lib(lib: Seq<char>, c: Seq<char>)
    ensures
        group_with_lib(lib, c) matches Some(c1) ==> contains(c1, lib) && group_with_lib(lib, c1)
            == Some(c1),
{
    if !contains(c, lib) {
        match children_id(c, frameworks_child()) {
            Some(id) => {
                lemma_group_block_mentions(trim(id), lib);
                lemma_contains_suffix(c, group_block(trim(id), lib) + "\n"@, lib);
                assert(c + group_block(trim(id), lib) + "\n"@ =~= c + (group_block(trim(id), lib)
                    + "\n"@));
            },
            None => match find(c, products_child()) {
                None => {},
                Some(p) => {
                    let at = p + products_child().len();
                    let head = c.take(at) + "\n\t\t\t\t"@ + DEFAULT_FRAMEWORKS_ID@ + frameworks_child()
                        + c.skip(at);
                    let block = group_block(trim(DEFAULT_FRAMEWORKS_ID@), lib) + "\n"@;
                    lemma_group_block_mentions(trim(DEFAULT_FRAMEWORKS_ID@), lib);
                    lemma_contains_suffix(head, block, lib);
                    assert(head + group_block(trim(DEFAULT_FRAMEWORKS_ID@), lib) + "\n"@ =~= head
                        + block);
                },
            },
        }
    }
}

/// Once the bridging header is listed in the group section, listing it again
/// changes nothing.
pub proof fn law_group_with_header(header: Seq<char>, dir_name: Seq<char>, c: Seq<char>)
    ensures
        group_with_header(header, dir_name, group_with_header(header, dir_name, c))
            == group_with_header(header, dir_name, c),
{
    if !contains(c, header) {
        if let Some(mid) = header_cut(dir_name, c) {
            if let Some(at) = char_index_at(c, mid) {
                let a = c.take(at) + "\n"@ + "\t\t\t\t"@ + BRIDGE_HEADER_ID@ + " /* "@;
                let b = " */,"@ + c.skip(at);
                let c2 = c.take(at) + "\n"@ + "\t\t\t\t"@ + BRIDGE_HEADER_ID@ + " /* "@ + header
                    + " */,"@ + c.skip(at);
                assert(c2 =~= a + header + b);
                lemma_contains_middle(a, header, b);
            }
        }
    }
}

/// Text put in at a position right after a `(` keeps every occurrence of a
/// string without `(`.
proof fn lemma_insert_after_paren(c: Seq<char>, at: int, x: Seq<char>, p: Seq<char>)
    requires
        1 <= at <= c.len(),
        c[at - 1] == '(',
        forall|i: int| 0 <= i < p.len() ==> p[i] != '(',
        contains(c, p),
    ensures
        contains(c.take(at) + x + c.skip(at), p),
{
    lemma_contains(c, p);
    let i = choose|i: int| occurs_at(c, p, i);
    let r = c.take(at) + x + c.skip(at);
    if i + p.len() <= at {
        assert(r.subrange(i, i + p.len()) =~= c.subrange(i, i + p.len()));
        assert(occurs_at(r, p, i));
    } else if i >= at {
        let j = i + x.len();
        assert(r.subrange(j, j + p.len()) =~= c.subrange(i, i + p.len()));
        assert(occurs_at(r, p, j));
    } else {
        assert(p[at - 1 - i] == c.subrange(i, i + p.len())[at - 1 - i]);
        assert(false);
    }
    lemma_contains(r, p);
}

/// Listing the header in ASCII text keeps the library mentioned, for a
/// library name without `(`.
proof fn lemma_header_keeps_lib(header: Seq<char>, dir_name: Seq<char>, c: Seq<char>, lib: Seq<char>)
    requires
        contains(c, lib),
        ascii(c),
        forall|i: int| 0 <= i < lib.len() ==> lib[i] != '(',
    ensures
        contains(group_with_header(header, dir_name, c), lib),
{
    if !contains(c, header) {
        lemma_ascii_bytes(c);
        let marker = project_group_marker(dir_name);
        assert(byte_find(c, marker) == find(c, marker));
        lemma_find_from(c, marker, 0);
        if let Some(lp) = find(c, marker) {
            lemma_ascii_parts(c, Seq::empty());
            assert(skip_chars(c, lp) == c.skip(lp));
            assert(c.skip(lp) =~= c.subrange(lp, c.len() as int));
            lemma_ascii_bytes(c.skip(lp));
            assert(byte_find(c.skip(lp), children_open()) == find(c.skip(lp), children_open()));
            lemma_find_skip(c, children_open(), lp);
            if let Some(lc) = find_from(c, children_open(), lp) {
                lemma_find_from(c, children_open(), lp);
                reveal_strlit("children = (");
                let at = lc + children_open().len();
                assert(header_cut(dir_name, c) == Some(at));
                assert(char_index_at(c, at) == Some(at));
                assert(c[at - 1] == c.subrange(lc, at)[11]);
                let x = "\n"@ + "\t\t\t\t"@ + BRIDGE_HEADER_ID@ + " /* "@ + header + " */,"@;
                lemma_insert_after_paren(c, at, x, lib);
                assert(c.take(at) + x + c.skip(at) =~= c.take(at) + "\n"@ + "\t\t\t\t"@ + BRIDGE_HEADER_ID@
                    + " /* "@ + header + " */,"@ + c.skip(at));
            }
        }
    }
}

proof fn lemma_trim_ascii(s: Seq<char>)
    requires
        ascii(s),
    ensures
        ascii(trim_start(s)),
        ascii(trim_end(s)),
        ascii(trim(s)),
    decreases s.len(),
{
    lemma_ascii_parts(s, Seq::empty());
    if s.len() > 0 {
        assert(s.drop_first() =~= s.subrange(1, s.len() as int));
        assert(s.drop_last() =~= s.subrange(0, s.len() - 1));
        lemma_trim_ascii(s.drop_first());
        lemma_trim_ascii(s.drop_last());
    }
    if ascii(trim_start(s)) {
        lemma_trim_end_ascii(trim_start(s));
    }
}

proof fn lemma_trim_end_ascii(s: Seq<char>)
    requires
        ascii(s),
    ensures
        ascii(trim_end(s)),
    decreases s.len(),
{
    lemma_ascii_parts(s, Seq::empty());
    if s.len() > 0 {
        assert(s.drop_last() =~= s.subrange(0, s.len() - 1));
        lemma_trim_end_ascii(s.drop_last());
    }
}

/// The group block for an ASCII identifier and library is ASCII.
proof fn lemma_group_block_ascii(id: Seq<char>, lib: Seq<char>)
    requires
        ascii(id),
        ascii(lib),
    ensures
        ascii(group_block(id, lib) + "\n"@),
{
    reveal_strlit("\t\t");
    reveal_strlit(" /* Frameworks */ = {\n");
    reveal_strlit("\t\t\tisa = PBXGroup;\n");
    reveal_strlit("\t\t\tchildren = (\n");
    reveal_strlit("\t\t\t\t");
    reveal_strlit("F9A8DB082A39639800A5F46A");
    reveal_strlit(" /* ");
    reveal_strlit(" */,\n");
    reveal_strlit("\t\t\t);\n");
    reveal_strlit("\t\t\tname = Frameworks;\n");
    reveal_strlit("\t\t\tsourceTree = \"<group>\";\n");
    reveal_strlit("\t\t};\n");
    reveal_strlit("\n");
    let p1 = "\t\t"@ + id;
    lemma_ascii_parts("\t\t"@, id);
    let p2 = p1 + " /* Frameworks */ = {\n"@;
    lemma_ascii_parts(p1, " /* Frameworks */ = {\n"@);
    let p3 = p2 + "\t\t\tisa = PBXGroup;\n"@;
    lemma_ascii_parts(p2, "\t\t\tisa = PBXGroup;\n"@);
    let p4 = p3 + "\t\t\tchildren = (\n"@;
    lemma_ascii_parts(p3, "\t\t\tchildren = (\n"@);
    let p5 = p4 + "\t\t\t\t"@;
    lemma_ascii_parts(p4, "\t\t\t\t"@);
    let p6 = p5 + LIB_FILE_REF@;
    lemma_ascii_parts(p5, LIB_FILE_REF@);
    let p7 = p6 + " /* "@;
    lemma_ascii_parts(p6, " /* "@);
    let p8 = p7 + lib;
    lemma_ascii_parts(p7, lib);
    let p9 = p8 + " */,\n"@;
    lemma_ascii_parts(p8, " */,\n"@);
    let p10 = p9 + "\t\t\t);\n"@;
    lemma_ascii_parts(p9, "\t\t\t);\n"@);
    let p11 = p10 + "\t\t\tname = Frameworks;\n"@;
    lemma_ascii_parts(p10, "\t\t\tname = Frameworks;\n"@);
    let p12 = p11 + "\t\t\tsourceTree = \"<group>\";\n"@;
    lemma_ascii_parts(p11, "\t\t\tsourceTree = \"<group>\";\n"@);
    let p13 = p12 + "\t\t};\n"@;
    lemma_ascii_parts(p12, "\t\t};\n"@);
    lemma_ascii_parts(p13, "\n"@);
}

/// Adding the library's `Frameworks` group to ASCII text with an ASCII
/// library name gives ASCII text.
proof fn lemma_group_with_lib_ascii(lib: Seq<char>, c: Seq<char>)
    requires
        ascii(c),
        ascii(lib),
    ensures
        group_with_lib(lib, c) matches Some(c1) ==> ascii(c1),
{
    lemma_ascii_parts(c, Seq::empty());
    reveal_strlit("\n");
    if !contains(c, lib) {
        match children_id(c, frameworks_child()) {
            Some(id) => {
                let l = find(c, frameworks_child())->0;
                lemma_find_from(c, frameworks_child(), 0);
                let before = c.take(l);
                assert(before =~= c.subrange(0, l));
                lemma_ascii_parts(before, Seq::empty());
                let n = rfind(before, "\n"@)->0;
                lemma_rfind_at_most(before, "\n"@, before.len() - 1);
                assert(before.skip(n) =~= before.subrange(n, before.len() as int));
                lemma_trim_ascii(before.skip(n));
                lemma_trim_ascii(id);
                lemma_group_block_ascii(trim(id), lib);
                lemma_ascii_parts(c, group_block(trim(id), lib) + "\n"@);
                assert(c + group_block(trim(id), lib) + "\n"@ =~= c + (group_block(trim(id), lib) + "\n"@));
            },
            None => match find(c, products_child()) {
                None => {},
                Some(p) => {
                    lemma_find_from(c, products_child(), 0);
                    let at = p + products_child().len();
                    reveal_strlit("\n\t\t\t\t");
                    reveal_strlit("F9A8DB072A39639700A5F46A");
                    reveal_strlit(" /* Frameworks */,");
                    reveal_strlit("\t\t");
                    reveal_strlit("");
                    assert(c.take(at) =~= c.subrange(0, at));
                    assert(c.skip(at) =~= c.subrange(at, c.len() as int));
                    let q1 = c.take(at) + "\n\t\t\t\t"@;
                    lemma_ascii_parts(c.take(at), "\n\t\t\t\t"@);
                    let q2 = q1 + DEFAULT_FRAMEWORKS_ID@;
                    lemma_ascii_parts(q1, DEFAULT_FRAMEWORKS_ID@);
                    let q3 = q2 + frameworks_child();
                    lemma_ascii_parts(q2, frameworks_child());
                    let q4 = q3 + c.skip(at);
                    lemma_ascii_parts(q3, c.skip(at));
                    lemma_trim_ascii(DEFAULT_FRAMEWORKS_ID@);
                    lemma_group_block_ascii(trim(DEFAULT_FRAMEWORKS_ID@), lib);
                    lemma_ascii_parts(q4, group_block(trim(DEFAULT_FRAMEWORKS_ID@), lib) + "\n"@);
                    assert(q4 + group_block(trim(DEFAULT_FRAMEWORKS_ID@), lib) + "\n"@ =~= q4 + (
                    group_block(trim(DEFAULT_FRAMEWORKS_ID@), lib) + "\n"@));
                },
            },
        }
    }
}

/// The group section's content after the library's `Frameworks` group and
/// the bridging header were entered.
pub open spec fn group_content(config: &Config, c: Seq<char>) -> Seq<char> {
    match group_with_lib(lib_executable_name(config.rust_file_name@), c) {
        None => c,
        Some(c1) => group_with_header(
            bridge_h_file_name(config.rust_file_name@),
            config.ios_dir_name()->0,
            c1,
        ),
    }
}

proof fn lemma_group_is_edit(config: &Config, secs: Seq<SectionText>)
    ensures
        group_step(config, secs) == edit_at(
            secs,
            "PBXGroup section"@,
            |c: Seq<char>| group_content(config, c),
        ),
{
    lemma_index_in_range(secs, "PBXGroup section"@, 0);
    if let Some(k) = section_index(secs, "PBXGroup section"@) {
        if group_with_lib(lib_executable_name(config.rust_file_name@), secs[k].1) is None {
            assert(with_content(secs, k, secs[k].1) =~= secs);
        }
    }
}

/// Wherever the group section is edited, the library is still mentioned
/// afterwards. (Listing the bridging header right after a `(` can split an
/// occurrence of a library name that holds `(`; nothing else can.)
pub open spec fn group_keeps_lib(config: &Config, secs: Seq<SectionText>) -> bool {
    match section_index(secs, "PBXGroup section"@) {
        None => true,
        Some(k) => match group_with_lib(lib_executable_name(config.rust_file_name@), secs[k].1) {
            None => true,
            Some(_) => contains(group_content(config, secs[k].1), lib_executable_name(config.rust_file_name@)),
        },
    }
}

proof fn lemma_group_content_idempotent(config: &Config, c: Seq<char>)
    requires
        group_with_lib(lib_executable_name(config.rust_file_name@), c) is None || contains(
            group_content(config, c),
            lib_executable_name(config.rust_file_name@),
        ),
    ensures
        group_content(config, group_content(config, c)) == group_content(config, c),
{
    let lib = lib_executable_name(config.rust_file_name@);
    let header = bridge_h_file_name(config.rust_file_name@);
    let dir = config.ios_dir_name()->0;
    law_group_with_lib(lib, c);
    if let Some(c1) = group_with_lib(lib, c) {
        let c2 = group_with_header(header, dir, c1);
        law_group_with_lib(lib, c2);
        law_group_with_header(header, dir, c1);
    }
}

/// For an ASCII crate name without `(` and an ASCII group section, the
/// library stays mentioned wherever the group section is edited.
pub proof fn law_group_keeps_lib_without_paren(config: &Config, secs: Seq<SectionText>)
    requires
        forall|i: int|
            0 <= i < config.rust_file_name@.len() ==> config.rust_file_name@[i] != '(',
        ascii(config.rust_file_name@),
        section_index(secs, "PBXGroup section"@) matches Some(k) ==> ascii(secs[k].1),
    ensures
        group_keeps_lib(config, secs),
{
    let lib = lib_executable_name(config.rust_file_name@);
    let header = bridge_h_file_name(config.rust_file_name@);
    let dir = config.ios_dir_name()->0;
    if let Some(k) = section_index(secs, "PBXGroup section"@) {
        let c = secs[k].1;
        law_group_with_lib(lib, c);
        if let Some(c1) = group_with_lib(lib, c) {
            reveal_strlit("lib");
            reveal_strlit(".a");
            assert forall|i: int| 0 <= i < lib.len() implies lib[i] != '(' by {
                if 3 <= i < 3 + config.rust_file_name@.len() {
                    assert(lib[i] == config.rust_file_name@[i - 3]);
                }
            }
            lemma_ascii_parts("lib"@, config.rust_file_name@);
            lemma_ascii_parts("lib"@ + config.rust_file_name@, ".a"@);
            lemma_group_with_lib_ascii(lib, c);
            lemma_header_keeps_lib(header, dir, c1, lib);
        }
    }
}

/// Editing the group section twice is editing it once, wherever the library
/// stays mentioned after the first edit, and the sections keep their names
/// and order.
pub proof fn law_group_step(config: &Config, secs: Seq<SectionText>)
    requires
        group_keeps_lib(config, secs),
    ensures
        group_step(config, group_step(config, secs)) == group_step(config, secs),
        names(group_step(config, secs)) == names(secs),
{
    let fg = |c: Seq<char>| group_content(config, c);
    lemma_group_is_edit(config, secs);
    lemma_edit_at(secs, "PBXGroup section"@, fg);
    let after = group_step(config, secs);
    lemma_group_is_edit(config, after);
    if let Some(k) = section_index(secs, "PBXGroup section"@) {
        lemma_group_content_idempotent(config, secs[k].1);
    }
    lemma_edit_fixed(after, "PBXGroup section"@, fg);
}

/// Entering the library, its header and its `Frameworks` group and build
/// phase into the sections a second time changes nothing (wherever the
/// library stays mentioned after the group section was edited), and the
/// sections keep their names and order.
pub proof fn law_edited_sections_idempotent(config: &Config, secs: Seq<SectionText>)
    requires
        group_keeps_lib(config, secs),
    ensures
        edited_sections(config, edited_sections(config, secs)) == edited_sections(config, secs),
        names(edited_sections(config, secs)) == names(secs),
{
    let lib = lib_executable_name(config.rust_file_name@);
    let header = bridge_h_file_name(config.rust_file_name@);
    let nb = "PBXBuildFile section"@;
    let nr = "PBXFileReference section"@;
    let nf = "PBXFrameworksBuildPhase section"@;
    let ng = "PBXGroup section"@;
    let nn = "PBXNativeTarget section"@;
    let ab = build_file_line(lib) + "\n"@;
    let ar = lib_file_ref_line(lib) + "\n"@ + header_file_ref_line(header) + "\n"@;
    let fb = |c: Seq<char>| add_content(c, lib, ab);
    let fr = |c: Seq<char>| add_content(c, lib, ar);
    let fg = |c: Seq<char>| group_content(config, c);

    let s1 = build_file_step(config, secs);
    let s2 = file_reference_step(config, s1);
    let id = native_frameworks_id(s2)->Ok_0;
    let af = frameworks_phase_block(id, lib) + "\n"@;
    let ff = |c: Seq<char>| add_content(c, lib, af);
    let s3 = frameworks_step(config, s2);
    let t = group_step(config, s3);

    lemma_add_is_edit(secs, nb, lib, ab);
    lemma_add_is_edit(s1, nr, lib, ar);
    lemma_add_is_edit(s2, nf, lib, af);
    lemma_group_is_edit(config, s3);
    assert(s1 == edit_at(secs, nb, fb));
    assert(s2 == edit_at(s1, nr, fr));
    assert(s3 == edit_at(s2, nf, ff));
    assert(t == edit_at(s3, ng, fg));

    lemma_edit_at(secs, nb, fb);
    lemma_edit_at(s1, nr, fr);
    lemma_edit_at(s2, nf, ff);
    lemma_edit_at(s3, ng, fg);
    lemma_distinct_section_names();
    lemma_build_file_addition(lib);
    lemma_file_reference_addition(lib, header);
    lemma_frameworks_addition(id, lib);
    lemma_index_in_range(secs, nb, 0);
    lemma_index_in_range(secs, nr, 0);
    lemma_index_in_range(secs, nf, 0);
    lemma_index_in_range(secs, ng, 0);
    lemma_index_in_range(secs, nn, 0);

    // Every name sits at the same position in all the stages.
    assert(section_index(s1, nr) == section_index(secs, nr));
    assert(section_index(s2, nf) == section_index(secs, nf));
    assert(section_index(s3, ng) == section_index(secs, ng));
    assert(section_index(s2, nn) == section_index(secs, nn));
    assert(section_index(t, nb) == section_index(secs, nb));
    assert(section_index(t, nr) == section_index(secs, nr));
    assert(section_index(t, nf) == section_index(secs, nf));
    assert(section_index(t, ng) == section_index(secs, ng));
    assert(section_index(t, nn) == section_index(secs, nn));

    // Second pass, build files.
    if let Some(k) = section_index(secs, nb) {
        assert(t[k] == s3[k]);
        assert(s3[k] == s2[k]);
        assert(s2[k] == s1[k]);
        lemma_add_content_idempotent(secs[k].1, lib, ab);
    }
    lemma_edit_fixed(t, nb, fb);
    lemma_add_is_edit(t, nb, lib, ab);
    assert(build_file_step(config, t) == t);

    // File references.
    if let Some(k) = section_index(secs, nr) {
        assert(t[k] == s3[k]);
        assert(s3[k] == s2[k]);
        lemma_add_content_idempotent(s1[k].1, lib, ar);
    }
    lemma_edit_fixed(t, nr, fr);
    lemma_add_is_edit(t, nr, lib, ar);
    assert(file_reference_step(config, t) == t);

    // Frameworks build phase, under the same identifier.
    if let Some(k) = section_index(secs, nn) {
        assert(secs[k].0 == nn);
        assert(section_index(s3, ng) != Some(k)) by {
            if let Some(g) = section_index(secs, ng) {
                assert(secs[g].0 == ng);
            }
        }
        assert(section_index(s2, nf) != Some(k)) by {
            if let Some(f) = section_index(secs, nf) {
                assert(secs[f].0 == nf);
            }
        }
        assert(edit_at(s3, ng, fg)[k] == s3[k]);
        assert(edit_at(s2, nf, ff)[k] == s2[k]);
    }
    lemma_frameworks_id_same(s2, t);
    if let Some(k) = section_index(secs, nf) {
        assert(t[k] == s3[k]);
        lemma_add_content_idempotent(s2[k].1, lib, af);
    }
    lemma_edit_fixed(t, nf, ff);
    lemma_add_is_edit(t, nf, lib, af);
    assert(frameworks_step(config, t) == t);

    // Group.
    if let Some(k) = section_index(secs, ng) {
        assert(s3[k] == secs[k]);
        lemma_group_content_idempotent(config, s3[k].1);
    }
    lemma_edit_fixed(t, ng, fg);
    lemma_group_is_edit(config, t);
    assert(group_step(config, t) == t);
}

proof fn lemma_append_unless_present(s: Seq<char>, line: Seq<char>)
    ensures
        contains(append_unless_present(s, line), line),
        s.is_prefix_of(append_unless_present(s, line)),
        append_unless_present(append_unless_present(s, line), line) == append_unless_present(
            s,
            line,
        ),
{
    if !contains(s, line) {
        lemma_contains_middle(s, line, Seq::empty());
        assert(s + line + Seq::empty() =~= s + line);
        assert((s + line).subrange(0, s.len() as int) =~= s);
    } else {
        assert(s.subrange(0, s.len() as int) =~= s);
    }
}

/// What a prefix contains, the whole contains.
pub proof fn lemma_prefix_contains(s: Seq<char>, t: Seq<char>, p: Seq<char>)
    requires
        s.is_prefix_of(t),
        contains(s, p),
    ensures
        contains(t, p),
{
    assert(t =~= s + t.skip(s.len() as int));
    lemma_contains_prefix(s, t.skip(s.len() as int), p);
}

/// Setting the search paths and the bridging header in build settings keeps
/// the settings as a prefix, leaves all three lines in them, and setting them
/// again changes nothing.
pub proof fn law_modified_build_settings(
    libs: Seq<char>,
    dir_name: Seq<char>,
    header: Seq<char>,
    bs: Seq<char>,
)
    ensures
        bs.is_prefix_of(modified_build_settings(libs, dir_name, header, bs)),
        contains(modified_build_settings(libs, dir_name, header, bs), search_paths_line(libs)),
        contains(modified_build_settings(libs, dir_name, header, bs), arch_search_paths_line(libs)),
        contains(
            modified_build_settings(libs, dir_name, header, bs),
            bridging_header_line(dir_name, header),
        ),
        modified_build_settings(
            libs,
            dir_name,
            header,
            modified_build_settings(libs, dir_name, header, bs),
        ) == modified_build_settings(libs, dir_name, header, bs),
{
    let l1 = search_paths_line(libs);
    let l2 = arch_search_paths_line(libs);
    let l3 = bridging_header_line(dir_name, header);
    let r1 = append_unless_present(bs, l1);
    let r2 = append_unless_present(r1, l2);
    let r3 = append_unless_present(r2, l3);
    lemma_append_unless_present(bs, l1);
    lemma_append_unless_present(r1, l2);
    lemma_append_unless_present(r2, l3);
    lemma_prefix_contains(r1, r3, l1);
    lemma_prefix_contains(r2, r3, l2);
    assert(bs.is_prefix_of(r3)) by {
        assert(r3.subrange(0, bs.len() as int) =~= r2.subrange(0, bs.len() as int));
        assert(r2.subrange(0, bs.len() as int) =~= r1.subrange(0, bs.len() as int));
    }
    assert(append_unless_present(r3, l1) == r3);
    lemma_prefix_contains(r3, r3, l2);
    assert(append_unless_present(r3, l2) == r3);
}

/// No sections print as nothing; one section prints as its content between
/// its `/* Begin NAME */` line and its `/* End NAME */` line.
pub proof fn law_printed_single(s: SectionText)
    ensures
        printed(Seq::empty()) == Seq::<char>::empty(),
        printed(seq![s]) == "/* Begin "@ + s.0 + " */\n"@ + s.1 + end_marker(s.0) + "\n"@,
{
    assert(seq![s].drop_last() =~= Seq::<SectionText>::empty());
    assert(Seq::<char>::empty() + "/* Begin "@ =~= "/* Begin "@);
}

/// Printing two lists of sections one after the other prints the first and
/// then the second.
pub proof fn law_printed_concat(a: Seq<SectionText>, b: Seq<SectionText>)
    ensures
        printed(a + b) == printed(a) + printed(b),
    decreases b.len(),
{
    if b.len() == 0 {
        assert(a + b =~= a);
        assert(printed(a) + printed(b) =~= printed(a));
    } else {
        let s = b.last();
        let t = "/* Begin "@ + s.0 + " */\n"@ + s.1 + end_marker(s.0) + "\n"@;
        assert((a + b).drop_last() =~= a + b.drop_last());
        assert((a + b).last() == s);
        law_printed_concat(a, b.drop_last());
        assert(printed(a + b) =~= printed(a + b.drop_last()) + t);
        assert(printed(b) =~= printed(b.drop_last()) + t);
        assert(printed(a + b) =~= printed(a) + printed(b));
    }
}

/// Whatever a section's content mentions, the printed sections mention.
pub proof fn lemma_printed_mentions(secs: Seq<SectionText>, k: int, p: Seq<char>)
    requires
        0 <= k < secs.len(),
        contains(secs[k].1, p),
    ensures
        contains(printed(secs), p),
    decreases secs.len(),
{
    let last = secs.last();
    let rest = printed(secs.drop_last());
    let tail = "/* Begin "@ + last.0 + " */\n"@ + last.1 + end_marker(last.0) + "\n"@;
    assert(printed(secs) =~= rest + tail);
    if k == secs.len() - 1 {
        let a = rest + "/* Begin "@ + last.0 + " */\n"@;
        let b = end_marker(last.0) + "\n"@;
        assert(printed(secs) =~= a + last.1 + b);
        lemma_contains_middle(a, last.1, b);
        lemma_contains_trans(printed(secs), last.1, p);
    } else {
        assert(secs.drop_last()[k] == secs[k]);
        lemma_printed_mentions(secs.drop_last(), k, p);
        lemma_contains_prefix(rest, tail, p);
    }
}

/// A successful edit of a project that has a `PBXBuildFile` section yields
/// a text that mentions the library.
pub proof fn law_edit_mentions_library(config: &Config, libs: Seq<char>, c: Seq<char>)
    requires
        sections_of(c) is Some,
        section_index(sections_of(c)->0, "PBXBuildFile section"@) is Some,
        parse_outcome(config, libs, c) is Ok,
    ensures
        contains(parse_outcome(config, libs, c)->Ok_0, lib_executable_name(config.rust_file_name@)),
{
    let lib = lib_executable_name(config.rust_file_name@);
    let header = bridge_h_file_name(config.rust_file_name@);
    let s0 = sections_of(c)->0;
    let nb = "PBXBuildFile section"@;
    let nr = "PBXFileReference section"@;
    let nf = "PBXFrameworksBuildPhase section"@;
    let ng = "PBXGroup section"@;
    let nx = "XCBuildConfiguration section"@;
    let s1 = build_file_step(config, s0);
    let s2 = file_reference_step(config, s1);
    let id = native_frameworks_id(s2)->Ok_0;
    let s3 = frameworks_step(config, s2);
    let t = group_step(config, s3);
    let ab = build_file_line(lib) + "\n"@;
    let ar = lib_file_ref_line(lib) + "\n"@ + header_file_ref_line(header) + "\n"@;
    let af = frameworks_phase_block(id, lib) + "\n"@;
    let fb = |x: Seq<char>| add_content(x, lib, ab);
    let fr = |x: Seq<char>| add_content(x, lib, ar);
    let ff = |x: Seq<char>| add_content(x, lib, af);
    let fg = |x: Seq<char>| group_content(config, x);
    lemma_add_is_edit(s0, nb, lib, ab);
    lemma_add_is_edit(s1, nr, lib, ar);
    lemma_add_is_edit(s2, nf, lib, af);
    lemma_group_is_edit(config, s3);
    lemma_edit_at(s0, nb, fb);
    lemma_edit_at(s1, nr, fr);
    lemma_edit_at(s2, nf, ff);
    lemma_edit_at(s3, ng, fg);
    lemma_distinct_section_names();
    lemma_index_in_range(s0, nb, 0);
    lemma_index_in_range(s0, nr, 0);
    lemma_index_in_range(s0, nf, 0);
    lemma_index_in_range(s0, ng, 0);
    lemma_index_in_range(s0, nx, 0);
    law_build_file_step(config, s0);
    let k = section_index(s0, nb)->0;
    assert(s0[k].0 == nb);
    assert(section_index(s1, nr) != Some(k)) by {
        if let Some(r) = section_index(s0, nr) {
            assert(s0[r].0 == nr);
        }
    }
    assert(section_index(s2, nf) != Some(k)) by {
        if let Some(f) = section_index(s0, nf) {
            assert(s0[f].0 == nf);
        }
    }
    assert(section_index(s3, ng) != Some(k)) by {
        if let Some(g) = section_index(s0, ng) {
            assert(s0[g].0 == ng);
        }
    }
    assert(edit_at(s1, nr, fr)[k] == s1[k]);
    assert(edit_at(s2, nf, ff)[k] == s2[k]);
    assert(edit_at(s3, ng, fg)[k] == s3[k]);
    assert(t[k] == s1[k]);
    assert(contains(t[k].1, lib));
    assert(t == edited_sections(config, s0));
    let secs = lib_search(config, libs, t).0;
    assert(secs.len() == t.len() && secs[k] == t[k]) by {
        reveal_strlit("XCBuildConfiguration section");
        reveal_strlit("PBXBuildFile section");
        assert(nx != nb) by {
            assert(nx.len() != nb.len());
        }
        if let Some(x) = section_index(t, nx) {
            lemma_index_in_range(t, nx, 0);
            assert(t[x].0 == nx);
        }
    }
    lemma_printed_mentions(secs, k, lib);
    let b = find(c, BEGIN_MARK@)->0;
    let tt = rfind(c, " section */"@)->0;
    let out = c.take(b) + printed(secs) + c.skip(tt + " section */"@.len());
    assert(parse_outcome(config, libs, c)->Ok_0 == out);
    lemma_contains_suffix(c.take(b), printed(secs), lib);
    lemma_contains_prefix(c.take(b) + printed(secs), c.skip(tt + " section */"@.len()), lib);
}

/// A successful edit of a project that has a `PBXFrameworksBuildPhase`
/// section leaves that section listing the library, and the edited text
/// mentioning it.
pub proof fn law_edit_lists_library_in_frameworks_phase(config: &Config, libs: Seq<char>, c: Seq<char>)
    requires
        sections_of(c) is Some,
        section_index(sections_of(c)->0, "PBXFrameworksBuildPhase section"@) is Some,
        parse_outcome(config, libs, c) is Ok,
    ensures
        contains(
            lib_search(config, libs, edited_sections(config, sections_of(c)->0)).0[section_index(
                sections_of(c)->0,
                "PBXFrameworksBuildPhase section"@,
            )->0].1,
            lib_executable_name(config.rust_file_name@),
        ),
        contains(parse_outcome(config, libs, c)->Ok_0, lib_executable_name(config.rust_file_name@)),
{
    let lib = lib_executable_name(config.rust_file_name@);
    let header = bridge_h_file_name(config.rust_file_name@);
    let s0 = sections_of(c)->0;
    let nb = "PBXBuildFile section"@;
    let nr = "PBXFileReference section"@;
    let nf = "PBXFrameworksBuildPhase section"@;
    let ng = "PBXGroup section"@;
    let nx = "XCBuildConfiguration section"@;
    let s1 = build_file_step(config, s0);
    let s2 = file_reference_step(config, s1);
    let s3 = frameworks_step(config, s2);
    let t = group_step(config, s3);
    let ab = build_file_line(lib) + "\n"@;
    let ar = lib_file_ref_line(lib) + "\n"@ + header_file_ref_line(header) + "\n"@;
    let fb = |x: Seq<char>| add_content(x, lib, ab);
    let fr = |x: Seq<char>| add_content(x, lib, ar);
    let fg = |x: Seq<char>| group_content(config, x);
    lemma_add_is_edit(s0, nb, lib, ab);
    lemma_add_is_edit(s1, nr, lib, ar);
    lemma_group_is_edit(config, s3);
    lemma_edit_at(s0, nb, fb);
    lemma_edit_at(s1, nr, fr);
    lemma_edit_at(s3, ng, fg);
    lemma_distinct_section_names();
    lemma_index_in_range(s0, nb, 0);
    lemma_index_in_range(s0, nr, 0);
    lemma_index_in_range(s0, nf, 0);
    lemma_index_in_range(s0, ng, 0);
    let k = section_index(s0, nf)->0;
    assert(s0[k].0 == nf);
    assert(section_index(s2, nf) == Some(k));
    law_frameworks_step(config, s2);
    assert(contains(s3[k].1, lib));
    assert(section_index(s3, ng) != Some(k)) by {
        if let Some(g) = section_index(s0, ng) {
            assert(s0[g].0 == ng);
        }
    }
    assert(edit_at(s3, ng, fg)[k] == s3[k]);
    assert(t[k] == s3[k]);
    assert(t == edited_sections(config, s0));
    let secs = lib_search(config, libs, t).0;
    assert(secs.len() == t.len() && secs[k] == t[k]) by {
        reveal_strlit("XCBuildConfiguration section");
        reveal_strlit("PBXFrameworksBuildPhase section");
        assert(nx != nf) by {
            assert(nx.len() != nf.len());
        }
        if let Some(x) = section_index(t, nx) {
            lemma_index_in_range(t, nx, 0);
            assert(t[x].0 == nx);
        }
    }
    lemma_printed_mentions(secs, k, lib);
    let b = find(c, BEGIN_MARK@)->0;
    let tt = rfind(c, " section */"@)->0;
    let out = c.take(b) + printed(secs) + c.skip(tt + " section */"@.len());
    assert(parse_outcome(config, libs, c)->Ok_0 == out);
    lemma_contains_suffix(c.take(b), printed(secs), lib);
    lemma_contains_prefix(c.take(b) + printed(secs), c.skip(tt + " section */"@.len()), lib);
}

/// `libs` is a normal path component.
proof fn lemma_libs_is_component()
    ensures
        is_normal_component("libs"@),
{
    reveal_strlit("libs");
    assert("libs"@.len() == 4);
    assert("libs"@ != seq!['.']) by {
        assert("libs"@.len() != seq!['.'].len());
    }
    assert("libs"@ != seq!['.', '.']) by {
        assert("libs"@.len() != seq!['.', '.'].len());
    }
}

proof fn lemma_script_parts(
    rust_dir: Seq<char>,
    rust_file_name: Seq<char>,
    ios_dir: Seq<char>,
    ios_dir_name: Seq<char>,
    libs: Seq<char>,
)
    ensures
        ({
            let lib = lib_executable_name(rust_file_name);
            let header = bridge_h_file_name(rust_file_name);
            let script = install_sh_code(rust_dir, rust_file_name, ios_dir, ios_dir_name, libs);
            &&& contains(script, "mkdir "@ + libs + "\n"@)
            &&& contains(script, "cp target/universal/release/"@ + lib + " "@ + libs + "\n"@)
            &&& contains(script, ios_dir + "/"@ + ios_dir_name + "/"@ + header + "\n"@)
        }),
{
    let lib = lib_executable_name(rust_file_name);
    let header = bridge_h_file_name(rust_file_name);
    let script = install_sh_code(rust_dir, rust_file_name, ios_dir, ios_dir_name, libs);
    let a1 = "#!/bin/sh\n\ncd "@ + rust_dir + "\ncargo lipo --release\ncbindgen src/lib.rs -l c > "@
        + rust_file_name + ".h\n\n# mkdir "@ + ios_dir + "/include\n"@;
    let m1 = "mkdir "@ + libs + "\n"@;
    let a3 = a1 + m1 + "cp "@ + rust_file_name + ".h "@;
    let m3 = ios_dir + "/"@ + ios_dir_name + "/"@ + header + "\n"@;
    let m2 = "cp target/universal/release/"@ + lib + " "@ + libs + "\n"@;
    assert(script =~= a1 + m1 + ("cp "@ + rust_file_name + ".h "@ + m3 + m2));
    lemma_contains_middle(a1, m1, "cp "@ + rust_file_name + ".h "@ + m3 + m2);
    assert(script =~= a3 + m3 + m2);
    lemma_contains_middle(a3, m3, m2);
    assert(script =~= (a3 + m3) + m2 + Seq::empty());
    lemma_contains_middle(a3 + m3, m2, Seq::empty());
}

/// The install script puts the library and the bridging header where the
/// edited project looks for them: it creates the `libs` directory that the
/// search paths name and copies the library into it, and it copies the header
/// to `{ios_dir}/{ios_dir_name}/{header}`, the file that the bridging-header
/// setting `{ios_dir_name}/{header}` names; the `libs` directory is the one
/// the library's file reference (`libs/{library}`) points into.
pub proof fn law_install_script_matches_project(
    rust_dir: Seq<char>,
    rust_file_name: Seq<char>,
    ios_dir: Seq<char>,
    ios_dir_name: Seq<char>,
    expanded_ios_dir: Seq<char>,
)
    ensures
        ({
            let libs = libs_directory_path(expanded_ios_dir);
            let lib = lib_executable_name(rust_file_name);
            let header = bridge_h_file_name(rust_file_name);
            let script = install_sh_code(rust_dir, rust_file_name, ios_dir, ios_dir_name, libs);
            &&& contains(script, "mkdir "@ + libs + "\n"@)
            &&& contains(script, "cp target/universal/release/"@ + lib + " "@ + libs + "\n"@)
            &&& contains(script, ios_dir + "/"@ + ios_dir_name + "/"@ + header + "\n"@)
            &&& contains(search_paths_line(libs), libs)
            &&& contains(bridging_header_line(ios_dir_name, header), ios_dir_name + "/"@ + header)
            &&& file_name(libs) == Some("libs"@)
        }),
{
    let libs = libs_directory_path(expanded_ios_dir);
    let header = bridge_h_file_name(rust_file_name);
    lemma_script_parts(rust_dir, rust_file_name, ios_dir, ios_dir_name, libs);
    let l1 = search_paths_line(libs);
    let p1 = "\t\t\tLIBRARY_SEARCH_PATHS = \""@;
    assert(l1 =~= p1 + libs + "\";\n"@);
    lemma_contains_middle(p1, libs, "\";\n"@);
    let l3 = bridging_header_line(ios_dir_name, header);
    let p3 = "\t\t\t\tSWIFT_OBJC_BRIDGING_HEADER = \""@;
    assert(l3 =~= p3 + (ios_dir_name + "/"@ + header) + "\";\n\t\t\t"@);
    lemma_contains_middle(p3, ios_dir_name + "/"@ + header, "\";\n\t\t\t"@);
    lemma_libs_is_component();
    law_file_name_of_join(expanded_ios_dir, "libs"@);
}

} // verus!
