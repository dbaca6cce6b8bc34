//! Editing of an Xcode `project.pbxproj` file so that the iOS app links the
//! generated static library and uses its bridging header.
//!
//! A `project.pbxproj` is cut into sections, each enclosed in
//! `/* Begin NAME */` and `/* End NAME */`; the edits are made section by
//! section and the file is printed again from its sections.
//!
//! Searches give byte offsets (`byte_find`, `byte_rfind`), and several steps
//! then use such an offset as a number of characters to pass over or to
//! keep. On ASCII text the two agree; on other text the steps land where
//! these numbers lead, and the specifications say exactly where.

use vstd::prelude::*;
use crate::configuration::{bridge_h_file_name, lib_executable_name, libs_directory_path, Config};
use crate::injectors::build_configurations::law_lib_search_sets_both_configurations;
use crate::paths::{expand_tilde, file_name, file_name_of, join, path_join, tilde_outcome};
use crate::text::{
    byte_len, char_index_at, char_index_of, lemma_byte_len_prefix_grows, lemma_char_index_from,
    ascii, byte_find, byte_find_chars, byte_rfind, byte_rfind_chars, contains, contains_str,
    decimal, decimal_chars, extend_chars, find, find_chars, find_from, from_chars,
    lemma_byte_len_split, lemma_find_from, lemma_rfind_at_most, replace_all,
    replace_chars, rfind, rfind_chars, skip_chars, slice_chars, str_byte_len, str_eq, take_chars,
    to_chars, trim, trim_chars,
};

verus! {

/// Where a section's opening marker starts.
pub const BEGIN_MARK: &'static str = "/* Begin";

/// The end of a comment.
pub const COMMENT_END: &'static str = "*/";

/// The word removed from an opening marker's label to get the section name.
pub const BEGIN_WORD: &'static str = "Begin ";

/// One section of a `project.pbxproj`: its name (such as `PBXGroup section`)
/// and the text between its markers.
pub struct Section {
    pub name: String,
    pub content: String,
}

/// A section as plain text: (name, content).
pub type SectionText = (Seq<char>, Seq<char>);

/// The sections as plain text.
pub open spec fn model(secs: Seq<Section>) -> Seq<SectionText> {
    secs.map_values(|s: Section| (s.name@, s.content@))
}

impl Section {
    /// Replaces the content of the section.
    pub fn set_content(&mut self, content: &str)
        ensures
            final(self).name == old(self).name,
            final(self).content@ == content@,
    {
        self.content = content.to_owned();
    }
}

/// `/* End NAME */`.
pub open spec fn end_marker(name: Seq<char>) -> Seq<char> {
    "/* End "@ + name + " */"@
}

/// The sections of `c` found from `k` on, or `None` where the search runs
/// into a negative length (`attempt to subtract with overflow`).
///
/// From `k` (a number of characters to pass over), the next `/* Begin` is
/// looked for and found at `i`, `k` plus its byte offset in the rest; from
/// character `i`, the next `*/` is found at `j` likewise. The label runs from
/// character `i + 3` for `j - 4 - i` characters; the section is named by the
/// label with every `Begin ` taken out. Its end marker `/* End NAME */` is
/// looked for in the whole text, at byte offset `e`; the content runs from
/// character `j + 2` for `e - j - 2` characters, and the search resumes at
/// `e`. The search stops when any of these is missing.
pub open spec fn section_scan(c: Seq<char>, k: int) -> Option<Seq<SectionText>>
    decreases byte_len(c) + 1 - k,
{
    if k < 0 {
        Some(Seq::empty())
    } else {
        match byte_find(skip_chars(c, k), BEGIN_MARK@) {
            None => Some(Seq::empty()),
            Some(f) => {
                let i = k + f;
                match byte_find(skip_chars(c, i), COMMENT_END@) {
                    None => Some(Seq::empty()),
                    Some(g) => {
                        let j = i + g;
                        if g < 4 {
                            None
                        } else {
                            let name = replace_all(
                                take_chars(skip_chars(c, i + 3), j - 4 - i),
                                BEGIN_WORD@,
                                Seq::empty(),
                            );
                            match byte_find(c, end_marker(name)) {
                                None => Some(Seq::empty()),
                                Some(e) => if e < j + 2 {
                                    None
                                } else {
                                    proof {
                                        lemma_find_from(c, end_marker(name), 0);
                                        lemma_byte_len_split(c, find(c, end_marker(name))->0);
                                    }
                                    match section_scan(c, e) {
                                        None => None,
                                        Some(rest) => Some(
                                            seq![
                                                (
                                                    name,
                                                    take_chars(skip_chars(c, j + 2), e - j - 2),
                                                ),
                                            ] + rest,
                                        ),
                                    }
                                },
                            }
                        }
                    },
                }
            },
        }
    }
}

/// The sections of the text `c`, or `None` where cutting it into sections
/// fails (see `section_scan`).
pub open spec fn sections_of(c: Seq<char>) -> Option<Seq<SectionText>> {
    section_scan(c, 0)
}

/// The characters of `v` after the first `n`, as a vector.
fn skip_vec(v: &Vec<char>, n: usize) -> (r: Vec<char>)
    ensures
        r@ == skip_chars(v@, n as int),
{
    let start = if n <= v.len() {
        n
    } else {
        v.len()
    };
    let r = slice_chars(v, start, v.len());
    assert(r@ =~= skip_chars(v@, n as int));
    r
}

/// The first `n` characters of `v`, as a vector.
fn take_vec(v: &Vec<char>, n: usize) -> (r: Vec<char>)
    ensures
        r@ == take_chars(v@, n as int),
{
    let end = if n <= v.len() {
        n
    } else {
        v.len()
    };
    let r = slice_chars(v, 0, end);
    assert(r@ =~= take_chars(v@, n as int));
    r
}

/// `n` plus the bytes of the characters of `c` after the first `n` is at
/// most the bytes of `c`, where there are such characters.
proof fn lemma_skip_bytes(c: Seq<char>, n: int)
    requires
        0 <= n <= c.len(),
    ensures
        n + byte_len(skip_chars(c, n)) <= byte_len(c),
{
    lemma_byte_len_split(c, n);
}

/// A byte offset found in `s` is at most the bytes of `s`.
proof fn lemma_found_bytes(s: Seq<char>, p: Seq<char>)
    ensures
        byte_find(s, p) matches Some(b) ==> 0 <= b <= byte_len(s),
{
    lemma_find_from(s, p, 0);
    if let Some(i) = find(s, p) {
        lemma_byte_len_split(s, i);
    }
}

/// The bytes of an occurrence found in `s` end within `s`.
proof fn lemma_found_bytes_end(s: Seq<char>, p: Seq<char>)
    ensures
        byte_find(s, p) matches Some(b) ==> b + p.len() <= byte_len(s),
{
    lemma_find_from(s, p, 0);
    if let Some(i) = find(s, p) {
        if p.len() > 0 {
            lemma_byte_len_prefix_grows(s, i, i + p.len());
        } else {
            assert(s.take(i) =~= s.take(i + p.len()));
        }
        lemma_byte_len_split(s, i + p.len());
    }
}

/// Cuts `content` into sections; `None` exactly where `sections_of` is.
pub fn scan_sections(content: &str) -> (r: Option<Vec<Section>>)
    ensures
        r is None <==> sections_of(content@) is None,
        r matches Some(v) ==> model(v@) == sections_of(content@)->0,
{
    let total = str_byte_len(content);
    let c = to_chars(content);
    let begin = to_chars(BEGIN_MARK);
    let close = to_chars(COMMENT_END);
    let word = to_chars(BEGIN_WORD);
    let empty: Vec<char> = Vec::new();
    let end_open = to_chars("/* End ");
    let end_close = to_chars(" */");
    let mut sections: Vec<Section> = Vec::new();
    let mut k: usize = 0;
    proof {
        reveal_strlit("Begin ");
    }
    assert(model(sections@) =~= Seq::<SectionText>::empty());
    loop
        invariant
            c@ == content@,
            total == byte_len(c@),
            begin@ == BEGIN_MARK@,
            close@ == COMMENT_END@,
            word@ == BEGIN_WORD@,
            word@.len() > 0,
            empty@ == Seq::<char>::empty(),
            end_open@ == "/* End "@,
            end_close@ == " */"@,
            k <= total,
            section_scan(c@, k as int) is None ==> sections_of(c@) is None,
            section_scan(c@, k as int) matches Some(rest) ==> sections_of(c@) == Some(
                model(sections@) + rest,
            ),
        decreases total - k,
    {
        let ghost before = sections@;
        let rest = skip_vec(&c, k);
        proof {
            if k <= c@.len() {
                lemma_skip_bytes(c@, k as int);
            }
        }
        let f = match byte_find_chars(&rest, &begin) {
            None => {
                assert(model(sections@) + Seq::<SectionText>::empty() =~= model(sections@));
                return Some(sections);
            },
            Some(f) => f,
        };
        proof {
            lemma_found_bytes(rest@, begin@);
            reveal_strlit("/* Begin");
            if k > c@.len() {
                assert(rest@.len() == 0);
                lemma_find_from(rest@, begin@, 0);
            }
        }
        let i = k + f;
        let rest2 = skip_vec(&c, i);
        proof {
            if i <= c@.len() {
                lemma_skip_bytes(c@, i as int);
            }
        }
        let g = match byte_find_chars(&rest2, &close) {
            None => {
                assert(model(sections@) + Seq::<SectionText>::empty() =~= model(sections@));
                return Some(sections);
            },
            Some(g) => g,
        };
        proof {
            lemma_found_bytes(rest2@, close@);
            reveal_strlit("*/");
            if i > c@.len() {
                assert(rest2@.len() == 0);
                lemma_find_from(rest2@, close@, 0);
            }
        }
        let j = i + g;
        if g < 4 {
            return None;
        }
        let after_open = skip_vec(&c, i + 3);
        let label = take_vec(&after_open, j - 4 - i);
        let name = replace_chars(&label, &word, &empty);
        let mut marker = end_open.clone();
        extend_chars(&mut marker, &name);
        extend_chars(&mut marker, &end_close);
        assert(marker@ == end_marker(name@));
        let e = match byte_find_chars(&c, &marker) {
            None => {
                assert(model(sections@) + Seq::<SectionText>::empty() =~= model(sections@));
                return Some(sections);
            },
            Some(e) => e,
        };
        if e < j || e - j < 2 {
            return None;
        }
        proof {
            lemma_found_bytes(c@, marker@);
        }
        let after_close = skip_vec(&c, j + 2);
        let body = take_vec(&after_close, e - j - 2);
        let section = Section { name: from_chars(&name), content: from_chars(&body) };
        sections.push(section);
        proof {
            assert(model(sections@) =~= model(before).push((name@, body@)));
            if let Some(rest) = section_scan(c@, e as int) {
                assert(model(before) + (seq![(name@, body@)] + rest) =~= model(sections@) + rest);
            }
        }
        k = e;
    }
}

/// Cuts `content` into sections.
pub fn get_sections(content: &str) -> (r: Vec<Section>)
    requires
        sections_of(content@) is Some,
    ensures
        model(r@) == sections_of(content@)->0,
{
    match scan_sections(content) {
        Some(v) => v,
        None => {
            // Ruled out by the precondition.
            assert(false);
            Vec::new()
        },
    }
}

/// The text of the sections, each between its markers.
pub open spec fn printed(secs: Seq<SectionText>) -> Seq<char>
    decreases secs.len(),
{
    if secs.len() == 0 {
        Seq::empty()
    } else {
        let s = secs.last();
        printed(secs.drop_last()) + "/* Begin "@ + s.0 + " */\n"@ + s.1 + end_marker(s.0) + "\n"@
    }
}

/// Prints the sections, each between `/* Begin NAME */` and `/* End NAME */`
/// lines.
pub fn print_sections(sections: &Vec<Section>) -> (r: String)
    ensures
        r@ == printed(model(sections@)),
{
    let mut result = String::new();
    let mut i: usize = 0;
    while i < sections.len()
        invariant
            i <= sections@.len(),
            result@ == printed(model(sections@).take(i as int)),
        decreases sections@.len() - i,
    {
        let section = &sections[i];
        result.append("/* Begin ");
        result.append(section.name.as_str());
        result.append(" */\n");
        result.append(section.content.as_str());
        result.append("/* End ");
        result.append(section.name.as_str());
        result.append(" */");
        result.append("\n");
        proof {
            let m = model(sections@);
            assert(m.take(i + 1).drop_last() =~= m.take(i as int));
            assert(m.take(i + 1).last() == (section.name@, section.content@));
        }
        i = i + 1;
    }
    assert(model(sections@).take(sections@.len() as int) =~= model(sections@));
    result
}

/// The identifier given to the library's build file.
pub const LIB_FILE_ID: &'static str = "F9A8DB0E2A3F60CC00A5F46A";

/// The identifier given to the library's file reference.
pub const LIB_FILE_REF: &'static str = "F9A8DB082A39639800A5F46A";

/// The identifier given to the bridging header's file reference.
pub const BRIDGE_HEADER_ID: &'static str = "F9A8DB0B2A3D489100A5F46A";

/// The identifier given to a `Frameworks` group that the project lacks.
pub const DEFAULT_FRAMEWORKS_ID: &'static str = "F9A8DB072A39639700A5F46A";

/// The first position at or after `k` of a section named `name`.
pub open spec fn index_from(secs: Seq<SectionText>, name: Seq<char>, k: int) -> Option<int>
    decreases secs.len() - k,
{
    if k < 0 || k >= secs.len() {
        None
    } else if secs[k].0 == name {
        Some(k)
    } else {
        index_from(secs, name, k + 1)
    }
}

/// The position of the first section named `name`.
pub open spec fn section_index(secs: Seq<SectionText>, name: Seq<char>) -> Option<int> {
    index_from(secs, name, 0)
}

/// `secs` with the content of section `k` replaced by `c`.
pub open spec fn with_content(secs: Seq<SectionText>, k: int, c: Seq<char>) -> Seq<SectionText> {
    secs.update(k, (secs[k].0, c))
}

/// `secs` where the first section named `name`, if there is one and its
/// content does not contain `needle`, has `addition` appended to its content.
pub open spec fn add_unless_present(
    secs: Seq<SectionText>,
    name: Seq<char>,
    needle: Seq<char>,
    addition: Seq<char>,
) -> Seq<SectionText> {
    match section_index(secs, name) {
        None => secs,
        Some(k) => if contains(secs[k].1, needle) {
            secs
        } else {
            with_content(secs, k, secs[k].1 + addition)
        },
    }
}

pub proof fn lemma_index_from(secs: Seq<SectionText>, name: Seq<char>, k: int)
    ensures
        index_from(secs, name, k) matches Some(i) ==> {
            &&& k <= i < secs.len()
            &&& secs[i].0 == name
            &&& forall|j: int| k <= j < i ==> secs[j].0 != name
        },
        0 <= k && index_from(secs, name, k) is None ==> forall|j: int|
            k <= j < secs.len() ==> secs[j].0 != name,
    decreases secs.len() - k,
{
    if k < 0 || k >= secs.len() {
    } else if secs[k].0 == name {
    } else {
        lemma_index_from(secs, name, k + 1);
    }
}

/// The position of the first section named `name`.
pub fn find_section(sections: &Vec<Section>, name: &str) -> (r: Option<usize>)
    ensures
        r matches Some(k) ==> section_index(model(sections@), name@) == Some(k as int),
        r is None ==> section_index(model(sections@), name@) is None,
{
    let mut k: usize = 0;
    while k < sections.len()
        invariant
            k <= sections@.len(),
            section_index(model(sections@), name@) == index_from(
                model(sections@),
                name@,
                k as int,
            ),
        decreases sections@.len() - k,
    {
        if str_eq(sections[k].name.as_str(), name) {
            return Some(k);
        }
        k = k + 1;
    }
    None
}

/// Appends `addition` to the content of the first section named `name`,
/// unless there is no such section or its content already contains `needle`.
pub fn add_to_section_unless_present(
    sections: &mut Vec<Section>,
    name: &str,
    needle: &str,
    addition: &str,
)
    ensures
        model(final(sections)@) == add_unless_present(
            model(old(sections)@),
            name@,
            needle@,
            addition@,
        ),
{
    if let Some(k) = find_section(sections, name) {
        proof {
            lemma_index_from(model(sections@), name@, 0);
        }
        if !contains_str(sections[k].content.as_str(), needle) {
            let mut content = sections[k].content.clone();
            content.append(addition);
            let ghost old_model = model(sections@);
            sections[k].set_content(content.as_str());
            assert(model(sections@) =~= with_content(old_model, k as int, old_model[k as int].1
                + addition@));
        }
    }
}

/// The `PBXBuildFile` line for the library `lib`.
pub open spec fn build_file_line(lib: Seq<char>) -> Seq<char> {
    "\t\t"@ + LIB_FILE_ID@ + " /* "@ + lib + " in Frameworks */ = {isa = PBXBuildFile; fileRef = "@
        + LIB_FILE_REF@ + " /* "@ + lib + " */; };"@
}

/// The build-file section after the library was added to it.
pub open spec fn build_file_step(config: &Config, secs: Seq<SectionText>) -> Seq<SectionText> {
    let lib = lib_executable_name(config.rust_file_name@);
    add_unless_present(secs, "PBXBuildFile section"@, lib, build_file_line(lib) + "\n"@)
}

/// Adds the library's build file to the `PBXBuildFile` section, unless the
/// section already mentions the library.
pub fn handle_pbx_build_file_section(config: &Config, sections: &mut Vec<Section>)
    ensures
        model(final(sections)@) == build_file_step(config, model(old(sections)@)),
{
    let lib_name = config.get_ios_lib_executable_name();
    let mut line = String::new();
    line.append("\t\t");
    line.append(LIB_FILE_ID);
    line.append(" /* ");
    line.append(lib_name.as_str());
    line.append(" in Frameworks */ = {isa = PBXBuildFile; fileRef = ");
    line.append(LIB_FILE_REF);
    line.append(" /* ");
    line.append(lib_name.as_str());
    line.append(" */; };");
    line.append("\n");
    add_to_section_unless_present(sections, "PBXBuildFile section", lib_name.as_str(), line.as_str());
}

/// The `PBXFileReference` line for the library `lib`.
pub open spec fn lib_file_ref_line(lib: Seq<char>) -> Seq<char> {
    "\t\t"@ + LIB_FILE_REF@ + " /* "@ + lib
        + " */ = {isa = PBXFileReference; lastKnownFileType = archive.ar; name = "@ + lib
        + "; path = libs/"@ + lib + "; sourceTree = \"<group>\"; };"@
}

/// The `PBXFileReference` line for the bridging header `header`.
pub open spec fn header_file_ref_line(header: Seq<char>) -> Seq<char> {
    "\t\t"@ + BRIDGE_HEADER_ID@ + " /* "@ + header
        + " */ = {isa = PBXFileReference; lastKnownFileType = sourcecode.c.h; path = \""@ + header
        + "\"; sourceTree = \"<group>\"; };"@
}

/// The file-reference section after the library and the header were added.
pub open spec fn file_reference_step(config: &Config, secs: Seq<SectionText>) -> Seq<SectionText> {
    let lib = lib_executable_name(config.rust_file_name@);
    let header = bridge_h_file_name(config.rust_file_name@);
    add_unless_present(
        secs,
        "PBXFileReference section"@,
        lib,
        lib_file_ref_line(lib) + "\n"@ + header_file_ref_line(header) + "\n"@,
    )
}

/// Adds file references for the library and the bridging header to the
/// `PBXFileReference` section, unless the section already mentions the
/// library.
pub fn handle_pbx_file_reference_section(config: &Config, sections: &mut Vec<Section>)
    ensures
        model(final(sections)@) == file_reference_step(config, model(old(sections)@)),
{
    let lib_name = config.get_ios_lib_executable_name();
    let header = config.get_bridge_h_file_name();
    let lib = lib_name.as_str();
    let mut lines = String::new();
    lines.append("\t\t");
    lines.append(LIB_FILE_REF);
    lines.append(" /* ");
    lines.append(lib);
    lines.append(" */ = {isa = PBXFileReference; lastKnownFileType = archive.ar; name = ");
    lines.append(lib);
    lines.append("; path = libs/");
    lines.append(lib);
    lines.append("; sourceTree = \"<group>\"; };");
    lines.append("\n");
    lines.append("\t\t");
    lines.append(BRIDGE_HEADER_ID);
    lines.append(" /* ");
    lines.append(header.as_str());
    lines.append(" */ = {isa = PBXFileReference; lastKnownFileType = sourcecode.c.h; path = \"");
    lines.append(header.as_str());
    lines.append("\"; sourceTree = \"<group>\"; };");
    lines.append("\n");
    assert(lines@ =~= lib_file_ref_line(lib@) + "\n"@ + header_file_ref_line(header@) + "\n"@);
    add_to_section_unless_present(sections, "PBXFileReference section", lib, lines.as_str());
}

/// The identifier on the line before the first occurrence of `identifier`
/// in `c`: the text from the last line break before the occurrence up to
/// the occurrence, trimmed.
pub open spec fn children_id(c: Seq<char>, identifier: Seq<char>) -> Option<Seq<char>> {
    match find(c, identifier) {
        None => None,
        Some(l) => {
            let before = c.take(l);
            match rfind(before, "\n"@) {
                None => None,
                Some(n) => Some(trim(before.skip(n))),
            }
        },
    }
}

/// The identifier in front of `identifier` in `section_content`; `None` if
/// `identifier` does not occur or no line break precedes it.
pub fn get_pbx_group_children_id(section_content: &str, identifier: &str) -> (r: Option<String>)
    ensures
        r matches Some(id) ==> children_id(section_content@, identifier@) == Some(id@),
        r is None ==> children_id(section_content@, identifier@) is None,
{
    let c = to_chars(section_content);
    let ident = to_chars(identifier);
    let newline = to_chars("\n");
    let l = find_chars(&c, &ident)?;
    proof {
        lemma_find_from(c@, ident@, 0);
    }
    let before = slice_chars(&c, 0, l);
    assert(before@ =~= c@.take(l as int));
    let n = rfind_chars(&before, &newline)?;
    proof {
        lemma_rfind_at_most(before@, newline@, before@.len() - newline@.len());
    }
    let tail = slice_chars(&before, n, before.len());
    assert(tail@ =~= before@.skip(n as int));
    let id = trim_chars(&tail);
    Some(from_chars(&id))
}

/// The marker of the `Frameworks` build phase in a native target.
pub open spec fn frameworks_child() -> Seq<char> {
    " /* Frameworks */,"@
}

/// The identifier of the `Frameworks` build phase of the first native
/// target, or why there is none.
pub open spec fn native_frameworks_id(secs: Seq<SectionText>) -> Result<Seq<char>, Seq<char>> {
    match section_index(secs, "PBXNativeTarget section"@) {
        None => Err("Cannot find the PBXNativeTarget section"@),
        Some(k) => match children_id(secs[k].1, frameworks_child()) {
            None => Err("Cannot find Frameworks section in PBXNativeTarget section"@),
            Some(id) => Ok(id),
        },
    }
}

/// The identifier of the `Frameworks` build phase of the first native
/// target; an error if there is no `PBXNativeTarget` section or no
/// `Frameworks` entry in it.
pub fn get_frameworks_id_from_pbx_native_target_section(sections: &Vec<Section>) -> (r: Result<
    String,
    String,
>)
    ensures
        r matches Ok(id) ==> native_frameworks_id(model(sections@)) == Ok::<Seq<char>, Seq<char>>(
            id@,
        ),
        r matches Err(e) ==> native_frameworks_id(model(sections@)) == Err::<Seq<char>, Seq<char>>(
            e@,
        ),
{
    match find_section(sections, "PBXNativeTarget section") {
        None => {
            let mut e = String::new();
            e.append("Cannot find the PBXNativeTarget section");
            Err(e)
        },
        Some(k) => {
            proof {
                lemma_index_from(model(sections@), "PBXNativeTarget section"@, 0);
            }
            match get_pbx_group_children_id(sections[k].content.as_str(), " /* Frameworks */,") {
                None => {
                    let mut e = String::new();
                    e.append("Cannot find Frameworks section in PBXNativeTarget section");
                    Err(e)
                },
                Some(id) => Ok(id),
            }
        },
    }
}

/// The `PBXFrameworksBuildPhase` entry `id` that links the library `lib`.
pub open spec fn frameworks_phase_block(id: Seq<char>, lib: Seq<char>) -> Seq<char> {
    "\t\t"@ + id + " /* Frameworks */ = {\n"@ + "\t\t\tisa = PBXFrameworksBuildPhase;\n"@
        + "\t\t\tbuildActionMask = 2147483647;\n"@ + "\t\t\tfiles = (\n"@ + "\t\t\t\t"@
        + LIB_FILE_ID@ + " /* "@ + lib + " in Frameworks */,\n"@ + "\t\t\t);\n"@
        + "\t\t\trunOnlyForDeploymentPostprocessing = 0;\n"@ + "\t\t};\n"@
}

/// The frameworks build-phase section after the library was added to it,
/// under the identifier of the native target's `Frameworks` phase.
pub open spec fn frameworks_step(config: &Config, secs: Seq<SectionText>) -> Seq<SectionText> {
    let lib = lib_executable_name(config.rust_file_name@);
    let id = native_frameworks_id(secs)->Ok_0;
    add_unless_present(
        secs,
        "PBXFrameworksBuildPhase section"@,
        lib,
        frameworks_phase_block(id, lib) + "\n"@,
    )
}

/// Adds a frameworks build phase that links the library to the
/// `PBXFrameworksBuildPhase` section, unless the section already mentions the
/// library. The phase gets the identifier of the native target's
/// `Frameworks` phase, which must exist.
pub fn handle_pbx_frameworks_build_phase_section(config: &Config, sections: &mut Vec<Section>)
    requires
        native_frameworks_id(model(old(sections)@)) is Ok,
    ensures
        model(final(sections)@) == frameworks_step(config, model(old(sections)@)),
{
    let frameworks_id = match get_frameworks_id_from_pbx_native_target_section(sections) {
        Ok(id) => id,
        Err(_) => {
            // Ruled out by the precondition.
            assert(false);
            String::new()
        },
    };
    let lib_name = config.get_ios_lib_executable_name();
    let mut block = String::new();
    block.append("\t\t");
    block.append(frameworks_id.as_str());
    block.append(" /* Frameworks */ = {\n");
    block.append("\t\t\tisa = PBXFrameworksBuildPhase;\n");
    block.append("\t\t\tbuildActionMask = 2147483647;\n");
    block.append("\t\t\tfiles = (\n");
    block.append("\t\t\t\t");
    block.append(LIB_FILE_ID);
    block.append(" /* ");
    block.append(lib_name.as_str());
    block.append(" in Frameworks */,\n");
    block.append("\t\t\t);\n");
    block.append("\t\t\trunOnlyForDeploymentPostprocessing = 0;\n");
    block.append("\t\t};\n");
    block.append("\n");
    assert(block@ =~= frameworks_phase_block(frameworks_id@, lib_name@) + "\n"@);
    add_to_section_unless_present(
        sections,
        "PBXFrameworksBuildPhase section",
        lib_name.as_str(),
        block.as_str(),
    );
}

/// The marker of the `Products` group among a group's children.
pub open spec fn products_child() -> Seq<char> {
    " /* Products */,"@
}

/// The `Frameworks` group `id` holding the library `lib`.
pub open spec fn group_block(id: Seq<char>, lib: Seq<char>) -> Seq<char> {
    "\t\t"@ + id + " /* Frameworks */ = {\n"@ + "\t\t\tisa = PBXGroup;\n"@ + "\t\t\tchildren = (\n"@
        + "\t\t\t\t"@ + LIB_FILE_REF@ + " /* "@ + lib + " */,\n"@ + "\t\t\t);\n"@
        + "\t\t\tname = Frameworks;\n"@ + "\t\t\tsourceTree = \"<group>\";\n"@ + "\t\t};\n"@
}

/// The group section `c` with a `Frameworks` group holding the library
/// `lib`, unless `c` already mentions the library. The group takes the
/// identifier of the existing `Frameworks` child; where there is none, a
/// `Frameworks` child with the default identifier is first put after the
/// `Products` child. `None` where there is neither (the section is then left
/// as it is).
pub open spec fn group_with_lib(lib: Seq<char>, c: Seq<char>) -> Option<Seq<char>> {
    if contains(c, lib) {
        Some(c)
    } else {
        match children_id(c, frameworks_child()) {
            Some(id) => Some(c + group_block(trim(id), lib) + "\n"@),
            None => match find(c, products_child()) {
                None => None,
                Some(p) => {
                    let at = p + products_child().len();
                    Some(c.take(at) + "\n\t\t\t\t"@ + DEFAULT_FRAMEWORKS_ID@ + frameworks_child()
                        + c.skip(at) + group_block(trim(DEFAULT_FRAMEWORKS_ID@), lib) + "\n"@)
                },
            },
        }
    }
}

/// How the group of the iOS project directory `dir_name` begins.
pub open spec fn project_group_marker(dir_name: Seq<char>) -> Seq<char> {
    " /* "@ + dir_name + " */ = {"@
}

/// The start of a group's list of children.
pub open spec fn children_open() -> Seq<char> {
    "children = ("@
}

/// Where the bridging header's line is put in: the byte offset of the
/// project group's marker, plus the byte offset of `children = (` in the
/// characters after that many characters, plus the 12 bytes of
/// `children = (`; `None` where either is missing.
pub open spec fn header_cut(dir_name: Seq<char>, c: Seq<char>) -> Option<int> {
    match byte_find(c, project_group_marker(dir_name)) {
        None => None,
        Some(lp) => match byte_find(skip_chars(c, lp), children_open()) {
            None => None,
            Some(f) => Some(lp + f + 12),
        },
    }
}

/// Putting the bridging header's line in panics: the place found is not a
/// character boundary of `c`.
pub open spec fn header_insert_panics(header: Seq<char>, dir_name: Seq<char>, c: Seq<char>) -> bool {
    &&& !contains(c, header)
    &&& header_cut(dir_name, c) matches Some(mid)
    &&& char_index_at(c, mid) is None
}

/// The group section `c` with the bridging header `header` listed first
/// among the children of the project group `dir_name` (at the place
/// `header_cut` finds), unless `c` already mentions the header or has no
/// such group or list.
pub open spec fn group_with_header(header: Seq<char>, dir_name: Seq<char>, c: Seq<char>) -> Seq<char> {
    if contains(c, header) {
        c
    } else {
        match header_cut(dir_name, c) {
            None => c,
            Some(mid) => match char_index_at(c, mid) {
                None => c,
                Some(at) => c.take(at) + "\n"@ + "\t\t\t\t"@ + BRIDGE_HEADER_ID@ + " /* "@ + header
                    + " */,"@ + c.skip(at),
            },
        }
    }
}

/// Whether editing the group section looks up the name of the iOS project
/// directory: the library part of the edit went through and the header is
/// not mentioned yet.
pub open spec fn group_needs_dir_name(config: &Config, secs: Seq<SectionText>) -> bool {
    match section_index(secs, "PBXGroup section"@) {
        None => false,
        Some(k) => match group_with_lib(lib_executable_name(config.rust_file_name@), secs[k].1) {
            None => false,
            Some(c1) => !contains(c1, bridge_h_file_name(config.rust_file_name@)),
        },
    }
}

/// Editing the group section panics when it lists the bridging header:
/// the place found for its line is not a character boundary.
pub open spec fn group_header_panic(config: &Config, secs: Seq<SectionText>) -> Option<int> {
    match section_index(secs, "PBXGroup section"@) {
        None => None,
        Some(k) => match group_with_lib(lib_executable_name(config.rust_file_name@), secs[k].1) {
            None => None,
            Some(c1) => if header_insert_panics(
                bridge_h_file_name(config.rust_file_name@),
                config.ios_dir_name()->0,
                c1,
            ) {
                header_cut(config.ios_dir_name()->0, c1)
            } else {
                None
            },
        },
    }
}

/// The message for a cut at byte offset `mid` that is not a character
/// boundary.
pub open spec fn boundary_panic_message(mid: int) -> Seq<char> {
    "byte index "@ + decimal(mid as nat) + " is not a char boundary"@
}

/// The sections after the group section was given the library's
/// `Frameworks` group and the bridging header.
pub open spec fn group_step(config: &Config, secs: Seq<SectionText>) -> Seq<SectionText> {
    match section_index(secs, "PBXGroup section"@) {
        None => secs,
        Some(k) => match group_with_lib(lib_executable_name(config.rust_file_name@), secs[k].1) {
            None => secs,
            Some(c1) => with_content(
                secs,
                k,
                group_with_header(
                    bridge_h_file_name(config.rust_file_name@),
                    config.ios_dir_name()->0,
                    c1,
                ),
            ),
        },
    }
}

/// The group section `content` with the library's `Frameworks` group (see
/// `group_with_lib`).
#[verifier::rlimit(40)]
pub fn group_content_with_lib(lib_name: &str, content: &str) -> (r: Option<String>)
    ensures
        r matches Some(c) ==> group_with_lib(lib_name@, content@) == Some(c@),
        r is None ==> group_with_lib(lib_name@, content@) is None,
{
    let mut result = content.to_owned();
    if contains_str(content, lib_name) {
        return Some(result);
    }
    let frameworks_id = match get_pbx_group_children_id(content, " /* Frameworks */,") {
        Some(id) => id,
        None => {
            let c = to_chars(content);
            let products = to_chars(" /* Products */,");
            let p = match find_chars(&c, &products) {
                None => return None,
                Some(p) => p,
            };
            proof {
                lemma_find_from(c@, products@, 0);
                assert(c@.len() == c.len());
            }
            let at = p + products.len();
            let mut edited = slice_chars(&c, 0, at);
            let middle = to_chars("\n\t\t\t\t");
            extend_chars(&mut edited, &middle);
            let default_id = to_chars(DEFAULT_FRAMEWORKS_ID);
            extend_chars(&mut edited, &default_id);
            let child = to_chars(" /* Frameworks */,");
            extend_chars(&mut edited, &child);
            let post = slice_chars(&c, at, c.len());
            extend_chars(&mut edited, &post);
            result = from_chars(&edited);
            proof {
                assert(result@ =~= content@.take(at as int) + "\n\t\t\t\t"@ + DEFAULT_FRAMEWORKS_ID@
                    + frameworks_child() + content@.skip(at as int));
            }
            DEFAULT_FRAMEWORKS_ID.to_owned()
        },
    };
    let id_chars = to_chars(frameworks_id.as_str());
    let trimmed = from_chars(&trim_chars(&id_chars));
    let ghost before = result@;
    result.append("\t\t");
    result.append(trimmed.as_str());
    result.append(" /* Frameworks */ = {\n");
    result.append("\t\t\tisa = PBXGroup;\n");
    result.append("\t\t\tchildren = (\n");
    result.append("\t\t\t\t");
    result.append(LIB_FILE_REF);
    result.append(" /* ");
    result.append(lib_name);
    result.append(" */,\n");
    result.append("\t\t\t);\n");
    result.append("\t\t\tname = Frameworks;\n");
    result.append("\t\t\tsourceTree = \"<group>\";\n");
    result.append("\t\t};\n");
    result.append("\n");
    assert(result@ =~= before + group_block(trimmed@, lib_name@) + "\n"@);
    Some(result)
}

/// The group section `content` with the bridging header listed in the
/// project group (see `group_with_header`).
pub fn group_content_with_header(header: &str, dir_name: &str, content: &str) -> (r: String)
    requires
        !header_insert_panics(header@, dir_name@, content@),
    ensures
        r@ == group_with_header(header@, dir_name@, content@),
{
    if contains_str(content, header) {
        return content.to_owned();
    }
    let at = match header_position(dir_name, content) {
        (_, None) => return content.to_owned(),
        (_, Some(at)) => at,
    };
    let c = to_chars(content);
    proof {
        lemma_char_index_from(c@, header_cut(dir_name@, content@)->0, 0);
    }
    let mut edited = slice_chars(&c, 0, at);
    let line_start = to_chars("\n");
    extend_chars(&mut edited, &line_start);
    let indent = to_chars("\t\t\t\t");
    extend_chars(&mut edited, &indent);
    let id = to_chars(BRIDGE_HEADER_ID);
    extend_chars(&mut edited, &id);
    let open_comment = to_chars(" /* ");
    extend_chars(&mut edited, &open_comment);
    let h = to_chars(header);
    extend_chars(&mut edited, &h);
    let close_comment = to_chars(" */,");
    extend_chars(&mut edited, &close_comment);
    let post = slice_chars(&c, at, c.len());
    extend_chars(&mut edited, &post);
    let r = from_chars(&edited);
    assert(r@ =~= content@.take(at as int) + "\n"@ + "\t\t\t\t"@ + BRIDGE_HEADER_ID@ + " /* "@
        + header@ + " */,"@ + content@.skip(at as int));
    r
}

/// Where the bridging header's line goes in `content` (see `header_cut`),
/// and the character position of that place where it is a character
/// boundary.
fn header_position(dir_name: &str, content: &str) -> (r: (Option<usize>, Option<usize>))
    ensures
        r.0 matches Some(mid) ==> header_cut(dir_name@, content@) == Some(mid as int),
        r.0 is None ==> header_cut(dir_name@, content@) is None,
        r.0 is None ==> r.1 is None,
        r.0 matches Some(mid) ==> (r.1 matches Some(at) ==> char_index_at(content@, mid as int)
            == Some(at as int)) && (r.1 is None ==> char_index_at(content@, mid as int) is None),
{
    let total = str_byte_len(content);
    let mut marker = String::new();
    marker.append(" /* ");
    marker.append(dir_name);
    marker.append(" */ = {");
    let c = to_chars(content);
    let m = to_chars(marker.as_str());
    let opener = to_chars("children = (");
    let lp = match byte_find_chars(&c, &m) {
        None => return (None, None),
        Some(lp) => lp,
    };
    let rest = skip_vec(&c, lp);
    proof {
        lemma_found_bytes(c@, m@);
        if lp <= c@.len() {
            lemma_skip_bytes(c@, lp as int);
        }
    }
    let f = match byte_find_chars(&rest, &opener) {
        None => return (None, None),
        Some(f) => f,
    };
    proof {
        reveal_strlit("children = (");
        lemma_found_bytes_end(rest@, opener@);
        if lp > c@.len() {
            assert(rest@.len() == 0);
            lemma_find_from(rest@, opener@, 0);
        }
    }
    let mid = lp + f + 12;
    (Some(mid), char_index_of(&c, mid))
}

/// Adds to the first `PBXGroup` section a `Frameworks` group holding the
/// library, and lists the bridging header in the project's group.
pub fn handle_pbx_group_section(config: &Config, sections: &mut Vec<Section>)
    requires
        group_needs_dir_name(config, model(old(sections)@)) ==> config.ios_dir_name() is Some,
        group_header_panic(config, model(old(sections)@)) is None,
    ensures
        model(final(sections)@) == group_step(config, model(old(sections)@)),
{
    let k = match find_section(sections, "PBXGroup section") {
        None => return,
        Some(k) => k,
    };
    proof {
        lemma_index_from(model(sections@), "PBXGroup section"@, 0);
    }
    let ghost old_model = model(sections@);
    let lib_name = config.get_ios_lib_executable_name();
    let with_lib = match group_content_with_lib(lib_name.as_str(), sections[k].content.as_str()) {
        None => return,
        Some(c) => c,
    };
    let header = config.get_bridge_h_file_name();
    let content = if contains_str(with_lib.as_str(), header.as_str()) {
        with_lib
    } else {
        let dir_name = config.get_ios_dir_name();
        group_content_with_header(header.as_str(), dir_name.as_str(), with_lib.as_str())
    };
    sections[k].set_content(content.as_str());
    assert(model(sections@) =~= with_content(old_model, k as int, content@));
}

/// The start of a `buildSettings` block.
pub open spec fn build_settings_open() -> Seq<char> {
    "buildSettings = {"@
}

/// The end of a block.
pub open spec fn block_close() -> Seq<char> {
    "};"@
}

/// The `buildSettings` block around character position `index` of `c`:
/// from the last `buildSettings = {` that ends by `index` up to the first
/// `};` from `index` on (exclusive), with both positions.
pub open spec fn block_at(c: Seq<char>, index: int) -> Option<(Seq<char>, int, int)> {
    match rfind(take_chars(c, index), build_settings_open()) {
        None => None,
        Some(l1) => match find_from(c, block_close(), index) {
            None => None,
            Some(l2) => Some((c.subrange(l1, l2), l1, l2)),
        },
    }
}

/// Where the `buildSettings` block near `index` begins and ends, as found:
/// the byte offset of the last `buildSettings = {` among the first `index`
/// characters, and `index` plus the byte offset of the first `};` among the
/// characters after them.
pub open spec fn build_settings_bounds(c: Seq<char>, index: int) -> Option<(int, int)> {
    match byte_rfind(take_chars(c, index), build_settings_open()) {
        None => None,
        Some(l1) => match byte_find(skip_chars(c, index), block_close()) {
            None => None,
            Some(f) => Some((l1, index + f)),
        },
    }
}

/// Cutting out the block near `index` underflows: its end lies before its
/// start (`attempt to subtract with overflow`).
pub open spec fn build_settings_underflow(c: Seq<char>, index: int) -> bool {
    build_settings_bounds(c, index) matches Some((l1, l2)) && l2 < l1
}

/// The `buildSettings` block near `index`, with its start and end as found
/// (see `build_settings_bounds`): `l2 - l1` characters from character `l1`.
pub open spec fn build_settings_at(c: Seq<char>, index: int) -> Option<(Seq<char>, int, int)> {
    match build_settings_bounds(c, index) {
        None => None,
        Some((l1, l2)) => Some((take_chars(skip_chars(c, l1), l2 - l1), l1, l2)),
    }
}

/// Where the `buildSettings` block near `index` of `section_content` begins
/// and ends, as found (see `build_settings_bounds`).
pub fn find_build_settings_bounds(section_content: &str, index: usize) -> (r: Option<(usize, usize)>)
    ensures
        r matches Some((l1, l2)) ==> build_settings_bounds(section_content@, index as int) == Some(
            (l1 as int, l2 as int),
        ),
        r is None ==> build_settings_bounds(section_content@, index as int) is None,
{
    let total = str_byte_len(section_content);
    let c = to_chars(section_content);
    let open = to_chars("buildSettings = {");
    let close = to_chars("};");
    let cut = if index <= c.len() {
        index
    } else {
        c.len()
    };
    let prefix = slice_chars(&c, 0, cut);
    let rest = slice_chars(&c, cut, c.len());
    proof {
        reveal_strlit("};");
        assert(prefix@ =~= take_chars(c@, index as int));
        assert(rest@ =~= skip_chars(c@, index as int));
        lemma_byte_len_split(c@, cut as int);
        assert(c@.take(cut as int) =~= prefix@);
        assert(c@.skip(cut as int) =~= rest@);
    }
    let l1 = byte_rfind_chars(&prefix, &open);
    let f = byte_find_chars(&rest, &close);
    if l1.is_none() || f.is_none() {
        return None;
    }
    let l1 = l1.unwrap();
    let f = f.unwrap();
    proof {
        lemma_find_from(rest@, close@, 0);
        let fi = find(rest@, close@)->0;
        lemma_byte_len_split(rest@, fi);
    }
    Some((l1, index + f))
}

/// The `buildSettings` block near `index` of `section_content`, with its
/// start and end as found.
pub fn get_build_settings(section_content: &str, index: usize) -> (r: Option<(String, usize, usize)>)
    requires
        !build_settings_underflow(section_content@, index as int),
    ensures
        r matches Some((piece, l1, l2)) ==> build_settings_at(section_content@, index as int)
            == Some((piece@, l1 as int, l2 as int)),
        r is None ==> build_settings_at(section_content@, index as int) is None,
{
    let (l1, l2) = match find_build_settings_bounds(section_content, index) {
        None => return None,
        Some(b) => b,
    };
    let c = to_chars(section_content);
    let start = if l1 <= c.len() {
        l1
    } else {
        c.len()
    };
    let n = l2 - l1;
    let avail = c.len() - start;
    let end = if n <= avail {
        start + n
    } else {
        c.len()
    };
    let piece = slice_chars(&c, start, end);
    assert(piece@ =~= take_chars(skip_chars(c@, l1 as int), l2 - l1));
    Some((from_chars(&piece), l1, l2))
}

/// The line setting the library search paths to `libs`.
pub open spec fn search_paths_line(libs: Seq<char>) -> Seq<char> {
    "\t\t\tLIBRARY_SEARCH_PATHS = \""@ + libs + "\";\n"@
}

/// The line setting the library search paths of every architecture to `libs`.
pub open spec fn arch_search_paths_line(libs: Seq<char>) -> Seq<char> {
    "\t\t\t\t\"LIBRARY_SEARCH_PATHS[arch=*]\" = \""@ + libs + "\";\n"@
}

/// The line setting the Objective-C bridging header to `{dir}/{header}`.
pub open spec fn bridging_header_line(dir_name: Seq<char>, header: Seq<char>) -> Seq<char> {
    "\t\t\t\tSWIFT_OBJC_BRIDGING_HEADER = \""@ + dir_name + "/"@ + header + "\";\n\t\t\t"@
}

/// `s`, followed by `line` unless `s` already contains it.
pub open spec fn append_unless_present(s: Seq<char>, line: Seq<char>) -> Seq<char> {
    if contains(s, line) {
        s
    } else {
        s + line
    }
}

/// The build settings `bs` with the library search paths and the bridging
/// header set, each line added unless already present.
pub open spec fn modified_build_settings(
    libs: Seq<char>,
    dir_name: Seq<char>,
    header: Seq<char>,
    bs: Seq<char>,
) -> Seq<char> {
    append_unless_present(
        append_unless_present(append_unless_present(bs, search_paths_line(libs)), arch_search_paths_line(libs)),
        bridging_header_line(dir_name, header),
    )
}

/// Appends `line` to `s` unless `s` already contains it.
fn push_unless_present(s: &mut String, line: &str)
    ensures
        final(s)@ == append_unless_present(old(s)@, line@),
{
    if !contains_str(s.as_str(), line) {
        s.append(line);
    }
}

/// Sets the library search paths to `libs_path` and the bridging header in
/// the build settings `build_settings`.
pub fn modify_build_settings(config: &Config, libs_path: &str, build_settings: &str) -> (r: String)
    requires
        config.ios_dir_name() is Some,
    ensures
        r@ == modified_build_settings(
            libs_path@,
            config.ios_dir_name()->0,
            bridge_h_file_name(config.rust_file_name@),
            build_settings@,
        ),
{
    let mut result = build_settings.to_owned();
    let ios_dir_name = config.get_ios_dir_name();
    let bridge_header_name = config.get_bridge_h_file_name();
    let mut line1 = String::new();
    line1.append("\t\t\tLIBRARY_SEARCH_PATHS = \"");
    line1.append(libs_path);
    line1.append("\";\n");
    let mut line2 = String::new();
    line2.append("\t\t\t\t\"LIBRARY_SEARCH_PATHS[arch=*]\" = \"");
    line2.append(libs_path);
    line2.append("\";\n");
    let mut line3 = String::new();
    line3.append("\t\t\t\tSWIFT_OBJC_BRIDGING_HEADER = \"");
    line3.append(ios_dir_name.as_str());
    line3.append("/");
    line3.append(bridge_header_name.as_str());
    line3.append("\";\n\t\t\t");
    push_unless_present(&mut result, line1.as_str());
    push_unless_present(&mut result, line2.as_str());
    push_unless_present(&mut result, line3.as_str());
    result
}

/// The message for a missing `buildSettings` block near `index`.
pub open spec fn missing_build_settings_message(index: int) -> Seq<char> {
    "Cannot find the buildSettings section near location "@ + decimal(index as nat)
}

/// `c` with the `buildSettings` block near `index` modified (the characters
/// before its start, the modified block, the characters from its end on),
/// or the error when there is no such block.
pub open spec fn processed(config: &Config, libs: Seq<char>, c: Seq<char>, index: int) -> Result<
    Seq<char>,
    Seq<char>,
> {
    match build_settings_at(c, index) {
        None => Err(missing_build_settings_message(index)),
        Some((piece, l1, l2)) => Ok(
            take_chars(c, l1) + modified_build_settings(
                libs,
                config.ios_dir_name()->0,
                bridge_h_file_name(config.rust_file_name@),
                piece,
            ) + skip_chars(c, l2),
        ),
    }
}

/// Modifies the `buildSettings` block near `index` of the section; an
/// error, and the section left as it is, when there is no such block.
pub fn process_build_settings(config: &Config, libs_path: &str, section: &mut Section, index: usize) -> (r:
    Result<(), String>)
    requires
        !build_settings_underflow(old(section).content@, index as int),
        build_settings_bounds(old(section).content@, index as int) is Some ==> config.ios_dir_name() is Some,
    ensures
        final(section).name == old(section).name,
        match processed(config, libs_path@, old(section).content@, index as int) {
            Ok(c) => r is Ok && final(section).content@ == c,
            Err(e) => r matches Err(m) && m@ == e && final(section).content@ == old(section).content@,
        },
{
    match get_build_settings(section.content.as_str(), index) {
        None => {
            let mut e = String::new();
            e.append("Cannot find the buildSettings section near location ");
            let digits = from_chars(&decimal_chars(index));
            e.append(digits.as_str());
            Err(e)
        },
        Some((piece, l1, l2)) => {
            let modified = modify_build_settings(config, libs_path, piece.as_str());
            let c = to_chars(section.content.as_str());
            let pre_end = if l1 <= c.len() {
                l1
            } else {
                c.len()
            };
            let post_start = if l2 <= c.len() {
                l2
            } else {
                c.len()
            };
            let mut out = slice_chars(&c, 0, pre_end);
            let m = to_chars(modified.as_str());
            extend_chars(&mut out, &m);
            let post = slice_chars(&c, post_start, c.len());
            extend_chars(&mut out, &post);
            let new_content = from_chars(&out);
            assert(new_content@ =~= take_chars(c@, l1 as int) + modified@ + skip_chars(c@, l2 as int));
            section.set_content(new_content.as_str());
            Ok(())
        },
    }
}

/// The setting that marks each build configuration of the app target.
pub open spec fn ld_runpath() -> Seq<char> {
    "LD_RUNPATH_SEARCH_PATHS"@
}

/// The outcome of setting the search paths and bridging header in the
/// build configurations: the sections afterwards, and the error if any.
///
/// In the first `XCBuildConfiguration` section, the first and the last
/// `LD_RUNPATH_SEARCH_PATHS` (by byte offset) must be two different
/// occurrences (one for each build configuration). The `buildSettings`
/// block near the first is modified; then the block near the last
/// occurrence in the content as it now stands is modified.
pub open spec fn lib_search(config: &Config, libs: Seq<char>, secs: Seq<SectionText>) -> (
    Seq<SectionText>,
    Result<(), Seq<char>>,
) {
    match section_index(secs, "XCBuildConfiguration section"@) {
        None => (secs, Ok(())),
        Some(k) => {
            let c = secs[k].1;
            match byte_find(c, ld_runpath()) {
                None => (secs, Err("Cannot find the first LD_RUNPATH_SEARCH_PATHS"@)),
                Some(l1) => match byte_rfind(c, ld_runpath()) {
                    None => (secs, Err("Cannot find the second LD_RUNPATH_SEARCH_PATHS"@)),
                    Some(l2) => if l1 == l2 {
                        (secs, Err("We only found 1 LD_RUNPATH_SEARCH_PATHS"@))
                    } else {
                        match processed(config, libs, c, l1) {
                            Err(e) => (secs, Err(e)),
                            Ok(c1) => match byte_rfind(c1, ld_runpath()) {
                                None => (
                                    with_content(secs, k, c1),
                                    Err("Cannot find the second LD_RUNPATH_SEARCH_PATHS"@),
                                ),
                                Some(m) => match processed(config, libs, c1, m) {
                                    Err(e) => (with_content(secs, k, c1), Err(e)),
                                    Ok(c2) => (with_content(secs, k, c2), Ok(())),
                                },
                            },
                        }
                    },
                },
            }
        },
    }
}

/// The build settings `b` hold both search-path lines for `libs` and the
/// bridging header line for `{dir_name}/{header}`.
pub open spec fn holds_search_settings(
    libs: Seq<char>,
    dir_name: Seq<char>,
    header: Seq<char>,
    b: Seq<char>,
) -> bool {
    &&& contains(b, search_paths_line(libs))
    &&& contains(b, arch_search_paths_line(libs))
    &&& contains(b, bridging_header_line(dir_name, header))
}

/// The `buildSettings` block around character position `i` of `c` exists
/// and holds the search paths and the bridging header.
pub open spec fn block_holds_search_settings(
    libs: Seq<char>,
    dir_name: Seq<char>,
    header: Seq<char>,
    c: Seq<char>,
    i: int,
) -> bool {
    match block_at(c, i) {
        Some((b, _, _)) => holds_search_settings(libs, dir_name, header, b),
        None => false,
    }
}

/// Both build configurations of the content `c` are set: the first and the
/// last `LD_RUNPATH_SEARCH_PATHS` are two different occurrences, and the
/// `buildSettings` blocks around each hold the search paths and the
/// bridging header.
pub open spec fn both_configurations_set(
    libs: Seq<char>,
    dir_name: Seq<char>,
    header: Seq<char>,
    c: Seq<char>,
) -> bool {
    match (find(c, ld_runpath()), rfind(c, ld_runpath())) {
        (Some(f), Some(l)) => {
            &&& f != l
            &&& block_holds_search_settings(libs, dir_name, header, c, f)
            &&& block_holds_search_settings(libs, dir_name, header, c, l)
        },
        _ => false,
    }
}

/// The three setting lines are ASCII.
pub open spec fn ascii_setting_lines(libs: Seq<char>, dir_name: Seq<char>, header: Seq<char>) -> bool {
    &&& ascii(search_paths_line(libs))
    &&& ascii(arch_search_paths_line(libs))
    &&& ascii(bridging_header_line(dir_name, header))
}

/// None of the three setting lines contains `LD_RUNPATH_SEARCH_PATHS` or
/// the end of a block, `};`.
pub open spec fn plain_setting_lines(libs: Seq<char>, dir_name: Seq<char>, header: Seq<char>) -> bool {
    &&& !contains(search_paths_line(libs), ld_runpath())
    &&& !contains(search_paths_line(libs), block_close())
    &&& !contains(arch_search_paths_line(libs), ld_runpath())
    &&& !contains(arch_search_paths_line(libs), block_close())
    &&& !contains(bridging_header_line(dir_name, header), ld_runpath())
    &&& !contains(bridging_header_line(dir_name, header), block_close())
}

/// The panic that setting the search paths runs into, if any: cutting out a
/// block underflows, or the first block is found and there is no name of
/// the iOS project directory for the bridging header.
pub open spec fn lib_search_panic(config: &Config, libs: Seq<char>, secs: Seq<SectionText>) -> Option<
    Seq<char>,
> {
    match section_index(secs, "XCBuildConfiguration section"@) {
        None => None,
        Some(k) => {
            let c = secs[k].1;
            match (byte_find(c, ld_runpath()), byte_rfind(c, ld_runpath())) {
                (Some(l1), Some(l2)) => if l1 == l2 {
                    None
                } else if build_settings_underflow(c, l1) {
                    Some("attempt to subtract with overflow"@)
                } else if build_settings_bounds(c, l1) is None {
                    None
                } else if config.ios_dir_name() is None {
                    Some("called `Option::unwrap()` on a `None` value"@)
                } else {
                    let c1 = processed(config, libs, c, l1)->Ok_0;
                    match byte_rfind(c1, ld_runpath()) {
                        Some(m) => if build_settings_underflow(c1, m) {
                            Some("attempt to subtract with overflow"@)
                        } else {
                            None
                        },
                        None => None,
                    }
                },
                _ => None,
            }
        },
    }
}

/// Sets the library search paths to `libs_path` and the bridging header in
/// the two build configurations of the first `XCBuildConfiguration`
/// section (see `lib_search`).
pub fn handle_lib_search(config: &Config, libs_path: &str, sections: &mut Vec<Section>) -> (r:
    Result<(), String>)
    requires
        lib_search_panic(config, libs_path@, model(old(sections)@)) is None,
    ensures
        model(final(sections)@) == lib_search(config, libs_path@, model(old(sections)@)).0,
        match lib_search(config, libs_path@, model(old(sections)@)).1 {
            Ok(_) => r is Ok,
            Err(e) => r matches Err(m) && m@ == e,
        },
        match section_index(model(old(sections)@), "XCBuildConfiguration section"@) {
            Some(k) => r is Ok && ascii(model(old(sections)@)[k].1) && ascii_setting_lines(
                libs_path@,
                config.ios_dir_name()->0,
                bridge_h_file_name(config.rust_file_name@),
            ) && plain_setting_lines(
                libs_path@,
                config.ios_dir_name()->0,
                bridge_h_file_name(config.rust_file_name@),
            ) ==> both_configurations_set(
                libs_path@,
                config.ios_dir_name()->0,
                bridge_h_file_name(config.rust_file_name@),
                model(final(sections)@)[k].1,
            ),
            None => true,
        },
{
    let ghost old_model = model(sections@);
    let k = match find_section(sections, "XCBuildConfiguration section") {
        None => return Ok(()),
        Some(k) => k,
    };
    proof {
        lemma_index_from(old_model, "XCBuildConfiguration section"@, 0);
    }
    let total = str_byte_len(sections[k].content.as_str());
    let c = to_chars(sections[k].content.as_str());
    let ld = to_chars("LD_RUNPATH_SEARCH_PATHS");
    let loc1 = match byte_find_chars(&c, &ld) {
        None => {
            let mut e = String::new();
            e.append("Cannot find the first LD_RUNPATH_SEARCH_PATHS");
            return Err(e);
        },
        Some(l) => l,
    };
    let loc2 = match byte_rfind_chars(&c, &ld) {
        None => {
            let mut e = String::new();
            e.append("Cannot find the second LD_RUNPATH_SEARCH_PATHS");
            return Err(e);
        },
        Some(l) => l,
    };
    if loc1 == loc2 {
        let mut e = String::new();
        e.append("We only found 1 LD_RUNPATH_SEARCH_PATHS");
        return Err(e);
    }
    let mut section = Section { name: sections[k].name.clone(), content: sections[k].content.clone() };
    let first = process_build_settings(config, libs_path, &mut section, loc1);
    if let Err(e) = first {
        return Err(e);
    }
    let edited_total = str_byte_len(section.content.as_str());
    let edited = to_chars(section.content.as_str());
    let second = match byte_rfind_chars(&edited, &ld) {
        None => {
            let mut e = String::new();
            e.append("Cannot find the second LD_RUNPATH_SEARCH_PATHS");
            Err(e)
        },
        Some(loc) => process_build_settings(config, libs_path, &mut section, loc),
    };
    sections[k].set_content(section.content.as_str());
    assert(model(sections@) =~= with_content(old_model, k as int, section.content@));
    proof {
        if second is Ok && ascii(old_model[k as int].1) && ascii_setting_lines(
            libs_path@,
            config.ios_dir_name()->0,
            bridge_h_file_name(config.rust_file_name@),
        ) && plain_setting_lines(
            libs_path@,
            config.ios_dir_name()->0,
            bridge_h_file_name(config.rust_file_name@),
        ) {
            law_lib_search_sets_both_configurations(config, libs_path@, old_model);
        }
    }
    match second {
        Err(e) => Err(e),
        Ok(()) => Ok(()),
    }
}

/// The text that ends a section marker.
pub open spec fn section_suffix() -> Seq<char> {
    " section */"@
}

/// The sections after the library, its header and its search paths were
/// entered, up to (not including) the build configurations.
pub open spec fn edited_sections(config: &Config, secs: Seq<SectionText>) -> Seq<SectionText> {
    group_step(
        config,
        frameworks_step(config, file_reference_step(config, build_file_step(config, secs))),
    )
}

/// The edited `project.pbxproj` text for `c`, with `libs` as the library
/// search path, or the error that stops the edit.
///
/// The text before the first `/* Begin` and after the last ` section */`
/// is kept; in between, the edited sections are printed.
pub open spec fn parse_outcome(config: &Config, libs: Seq<char>, c: Seq<char>) -> Result<
    Seq<char>,
    Seq<char>,
> {
    let edited = edited_sections(config, sections_of(c)->0);
    let (secs, r) = lib_search(config, libs, edited);
    match r {
        Err(e) => Err(e),
        Ok(_) => match find(c, BEGIN_MARK@) {
            None => Err("Cannot find initial section of pbxproj file"@),
            Some(b) => match rfind(c, section_suffix()) {
                None => Err("Cannot find trailing section of pbxproj file"@),
                Some(t) => Ok(c.take(b) + printed(secs) + c.skip(t + section_suffix().len())),
            },
        },
    }
}

/// The message of the panic that editing the text `c`, with `libs` as the
/// library search path, runs into, if any: the sections cannot be cut out,
/// the native target has no `Frameworks` phase, the name of the iOS project
/// directory is needed for the group section and there is none, the place
/// for the bridging header's line is not a character boundary (the message
/// then names the byte offset), or setting the search paths panics (see
/// `lib_search_panic`).
pub open spec fn parse_panic(config: &Config, libs: Seq<char>, c: Seq<char>) -> Option<Seq<char>> {
    match sections_of(c) {
        None => Some("attempt to subtract with overflow"@),
        Some(s0) => {
            let s2 = file_reference_step(config, build_file_step(config, s0));
            match native_frameworks_id(s2) {
                Err(e) => Some(e),
                Ok(_) => {
                    let s3 = frameworks_step(config, s2);
                    if config.ios_dir_name() is None && group_needs_dir_name(config, s3) {
                        Some("called `Option::unwrap()` on a `None` value"@)
                    } else if let Some(mid) = group_header_panic(config, s3) {
                        Some(boundary_panic_message(mid))
                    } else {
                        lib_search_panic(config, libs, group_step(config, s3))
                    }
                },
            }
        },
    }
}

/// A `Result` of strings as plain text.
pub open spec fn result_text(r: Result<String, String>) -> Result<Seq<char>, Seq<char>> {
    match r {
        Ok(s) => Ok(s@),
        Err(e) => Err(e@),
    }
}

/// Whether editing the group section needs the name of the iOS project
/// directory (see `group_needs_dir_name`).
fn group_needs_dir_name_now(config: &Config, sections: &Vec<Section>) -> (b: bool)
    ensures
        b == group_needs_dir_name(config, model(sections@)),
{
    let k = match find_section(sections, "PBXGroup section") {
        None => return false,
        Some(k) => k,
    };
    proof {
        lemma_index_from(model(sections@), "PBXGroup section"@, 0);
    }
    let lib_name = config.get_ios_lib_executable_name();
    match group_content_with_lib(lib_name.as_str(), sections[k].content.as_str()) {
        None => false,
        Some(c1) => {
            let header = config.get_bridge_h_file_name();
            !contains_str(c1.as_str(), header.as_str())
        },
    }
}

/// The message of the panic that listing the bridging header runs into, if
/// any (see `group_header_panic`).
fn group_header_panic_message(config: &Config, sections: &Vec<Section>) -> (r: Option<String>)
    requires
        group_needs_dir_name(config, model(sections@)) ==> config.ios_dir_name() is Some,
    ensures
        r matches Some(m) ==> group_header_panic(config, model(sections@)) matches Some(mid)
            && m@ == boundary_panic_message(mid),
        r is None ==> group_header_panic(config, model(sections@)) is None,
{
    let k = match find_section(sections, "PBXGroup section") {
        None => return None,
        Some(k) => k,
    };
    proof {
        lemma_index_from(model(sections@), "PBXGroup section"@, 0);
    }
    let lib_name = config.get_ios_lib_executable_name();
    let with_lib = match group_content_with_lib(lib_name.as_str(), sections[k].content.as_str()) {
        None => return None,
        Some(c) => c,
    };
    let header = config.get_bridge_h_file_name();
    if contains_str(with_lib.as_str(), header.as_str()) {
        return None;
    }
    let dir_name = config.get_ios_dir_name();
    match header_position(dir_name.as_str(), with_lib.as_str()) {
        (Some(mid), None) => {
            let mut m = String::new();
            m.append("byte index ");
            let digits = from_chars(&decimal_chars(mid));
            m.append(digits.as_str());
            m.append(" is not a char boundary");
            Some(m)
        },
        _ => None,
    }
}

/// The message of the panic that setting the search paths runs into, if any
/// (see `lib_search_panic`).
fn lib_search_panic_message(config: &Config, libs_path: &str, sections: &Vec<Section>) -> (r: Option<
    String,
>)
    ensures
        r matches Some(m) ==> lib_search_panic(config, libs_path@, model(sections@)) == Some(m@),
        r is None ==> lib_search_panic(config, libs_path@, model(sections@)) is None,
{
    let k = match find_section(sections, "XCBuildConfiguration section") {
        None => return None,
        Some(k) => k,
    };
    proof {
        lemma_index_from(model(sections@), "XCBuildConfiguration section"@, 0);
    }
    let total = str_byte_len(sections[k].content.as_str());
    let c = to_chars(sections[k].content.as_str());
    let ld = to_chars("LD_RUNPATH_SEARCH_PATHS");
    let l1 = match byte_find_chars(&c, &ld) {
        None => return None,
        Some(l) => l,
    };
    let l2 = match byte_rfind_chars(&c, &ld) {
        None => return None,
        Some(l) => l,
    };
    if l1 == l2 {
        return None;
    }
    match find_build_settings_bounds(sections[k].content.as_str(), l1) {
        None => return None,
        Some((a, b)) => {
            if b < a {
                let mut m = String::new();
                m.append("attempt to subtract with overflow");
                return Some(m);
            }
        },
    }
    if file_name_of(config.ios_dir.as_str()).is_none() {
        let mut m = String::new();
        m.append("called `Option::unwrap()` on a `None` value");
        return Some(m);
    }
    let mut section = Section { name: sections[k].name.clone(), content: sections[k].content.clone() };
    let _ = process_build_settings(config, libs_path, &mut section, l1);
    let edited_total = str_byte_len(section.content.as_str());
    let edited = to_chars(section.content.as_str());
    let m = match byte_rfind_chars(&edited, &ld) {
        None => return None,
        Some(m) => m,
    };
    match find_build_settings_bounds(section.content.as_str(), m) {
        Some((a, b)) => if b < a {
            let mut msg = String::new();
            msg.append("attempt to subtract with overflow");
            Some(msg)
        } else {
            None
        },
        None => None,
    }
}

/// The message of the panic that editing `content`, with `libs_path` as the
/// library search path, runs into, if any (see `parse_panic`).
pub fn parse_panic_message(config: &Config, libs_path: &str, content: &str) -> (r: Option<String>)
    ensures
        r matches Some(m) ==> parse_panic(config, libs_path@, content@) == Some(m@),
        r is None ==> parse_panic(config, libs_path@, content@) is None,
{
    let mut sections = match scan_sections(content) {
        None => {
            let mut m = String::new();
            m.append("attempt to subtract with overflow");
            return Some(m);
        },
        Some(v) => v,
    };
    handle_pbx_build_file_section(config, &mut sections);
    handle_pbx_file_reference_section(config, &mut sections);
    if let Err(e) = get_frameworks_id_from_pbx_native_target_section(&sections) {
        return Some(e);
    }
    handle_pbx_frameworks_build_phase_section(config, &mut sections);
    let has_dir_name = file_name_of(config.ios_dir.as_str()).is_some();
    if !has_dir_name && group_needs_dir_name_now(config, &sections) {
        let mut m = String::new();
        m.append("called `Option::unwrap()` on a `None` value");
        return Some(m);
    }
    if let Some(m) = group_header_panic_message(config, &sections) {
        return Some(m);
    }
    handle_pbx_group_section(config, &mut sections);
    lib_search_panic_message(config, libs_path, &sections)
}

/// Whether editing the text `c` reports, on its way, that the group section
/// lists no `Frameworks` child: the edits reach the group section without a
/// panic, and that section does not mention the library yet and has no
/// `Frameworks` child.
pub open spec fn missing_frameworks_notice(config: &Config, c: Seq<char>) -> bool {
    match sections_of(c) {
        None => false,
        Some(s0) => {
            let s2 = file_reference_step(config, build_file_step(config, s0));
            match native_frameworks_id(s2) {
                Err(_) => false,
                Ok(_) => {
                    let s3 = frameworks_step(config, s2);
                    match section_index(s3, "PBXGroup section"@) {
                        None => false,
                        Some(k) => !contains(s3[k].1, lib_executable_name(config.rust_file_name@))
                            && children_id(s3[k].1, frameworks_child()) is None,
                    }
                },
            }
        },
    }
}

/// Whether editing `content` reports that the group section lists no
/// `Frameworks` child (see `missing_frameworks_notice`).
pub fn reports_missing_frameworks(config: &Config, content: &str) -> (b: bool)
    ensures
        b == missing_frameworks_notice(config, content@),
{
    let mut sections = match scan_sections(content) {
        None => return false,
        Some(v) => v,
    };
    handle_pbx_build_file_section(config, &mut sections);
    handle_pbx_file_reference_section(config, &mut sections);
    if get_frameworks_id_from_pbx_native_target_section(&sections).is_err() {
        return false;
    }
    handle_pbx_frameworks_build_phase_section(config, &mut sections);
    let k = match find_section(&sections, "PBXGroup section") {
        None => return false,
        Some(k) => k,
    };
    proof {
        lemma_index_from(model(sections@), "PBXGroup section"@, 0);
    }
    let lib_name = config.get_ios_lib_executable_name();
    !contains_str(sections[k].content.as_str(), lib_name.as_str()) && get_pbx_group_children_id(
        sections[k].content.as_str(),
        " /* Frameworks */,",
    ).is_none()
}

/// Edits the text of a `project.pbxproj`, with `libs_path` as the library
/// search path (see `parse_outcome`).
pub fn parse_with_libs_path(config: &Config, libs_path: &str, content: String) -> (r: Result<
    String,
    String,
>)
    requires
        parse_panic(config, libs_path@, content@) is None,
    ensures
        result_text(r) == parse_outcome(config, libs_path@, content@),
{
    let mut sections = get_sections(content.as_str());
    handle_pbx_build_file_section(config, &mut sections);
    handle_pbx_file_reference_section(config, &mut sections);
    handle_pbx_frameworks_build_phase_section(config, &mut sections);
    handle_pbx_group_section(config, &mut sections);
    match handle_lib_search(config, libs_path, &mut sections) {
        Err(e) => return Err(e),
        Ok(()) => {},
    }
    let c = to_chars(content.as_str());
    let begin = to_chars(BEGIN_MARK);
    let suffix = to_chars(" section */");
    let b = match find_chars(&c, &begin) {
        None => {
            let mut e = String::new();
            e.append("Cannot find initial section of pbxproj file");
            return Err(e);
        },
        Some(b) => b,
    };
    let t = match rfind_chars(&c, &suffix) {
        None => {
            let mut e = String::new();
            e.append("Cannot find trailing section of pbxproj file");
            return Err(e);
        },
        Some(t) => t,
    };
    proof {
        lemma_find_from(c@, begin@, 0);
        lemma_rfind_at_most(c@, suffix@, c@.len() - suffix@.len());
        assert(c@.len() == c.len());
    }
    let mut out = slice_chars(&c, 0, b);
    let printed_sections = to_chars(print_sections(&sections).as_str());
    extend_chars(&mut out, &printed_sections);
    let post = slice_chars(&c, t + suffix.len(), c.len());
    extend_chars(&mut out, &post);
    Ok(from_chars(&out))
}

/// Edits the text of a `project.pbxproj` so that the app links the library
/// and uses its bridging header; the library search path is the iOS
/// project's `libs` directory, with a leading `~` of `ios_dir` expanded.
pub fn parse(config: &Config, content: String) -> (r: Result<String, String>)
    requires
        forall|expanded: Seq<char>|
            #[trigger] tilde_outcome(config.ios_dir@, expanded) ==> parse_panic(
                config,
                libs_directory_path(expanded),
                content@,
            ) is None,
    ensures
        exists|expanded: Seq<char>|
            #![trigger tilde_outcome(config.ios_dir@, expanded)]
            tilde_outcome(config.ios_dir@, expanded) && result_text(r) == parse_outcome(
                config,
                libs_directory_path(expanded),
                content@,
            ),
{
    let libs_path = config.get_ios_libs_directory_path();
    parse_with_libs_path(config, libs_path.as_str(), content)
}

/// The `project.pbxproj` of the Xcode project in the (expanded) iOS project
/// directory `dir`: `{dir}/{name}.xcodeproj/project.pbxproj`, where `name` is
/// the final component of `dir`; `None` where `dir` has none.
pub open spec fn pbxproj_path_in(dir: Seq<char>) -> Option<Seq<char>> {
    match file_name(dir) {
        None => None,
        Some(name) => Some(
            path_join(path_join(dir, name + ".xcodeproj"@), "project.pbxproj"@),
        ),
    }
}

/// The path of the `project.pbxproj` in the expanded iOS project directory.
pub fn pbxproj_path(expanded_ios_dir: &str) -> (r: Option<String>)
    ensures
        r matches Some(p) ==> pbxproj_path_in(expanded_ios_dir@) == Some(p@),
        r is None ==> pbxproj_path_in(expanded_ios_dir@) is None,
{
    let name = file_name_of(expanded_ios_dir)?;
    let mut xcodeproj = name;
    xcodeproj.append(".xcodeproj");
    let project = join(expanded_ios_dir, xcodeproj.as_str());
    Some(join(project.as_str(), "project.pbxproj"))
}

/// The path of the iOS app's `project.pbxproj`, with a leading `~` of
/// `ios_dir` expanded; `None` where the expanded directory has no final
/// component.
pub fn project_pbxproj_path(config: &Config) -> (r: Option<String>)
    ensures
        exists|expanded: Seq<char>|
            #![trigger tilde_outcome(config.ios_dir@, expanded)]
            tilde_outcome(config.ios_dir@, expanded) && match r {
                Some(p) => pbxproj_path_in(expanded) == Some(p@),
                None => pbxproj_path_in(expanded) is None,
            },
{
    let expanded = expand_tilde(config.ios_dir.as_str());
    pbxproj_path(expanded.as_str())
}

} // verus!
