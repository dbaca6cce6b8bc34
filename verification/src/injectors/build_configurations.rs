//! The law of setting the library search paths: after a successful run, both
//! build configurations of the app target hold the search paths and the
//! bridging header.
//!
//! Each of the two edits appends setting lines at the end of a
//! `buildSettings` block, just before its `};`. The lines begin with a tab
//! and end with a tab or a newline, so (unless they contain them) they never
//! make or break an occurrence of `LD_RUNPATH_SEARCH_PATHS` or `};`: every
//! occurrence after the insertion point simply moves by the length of the
//! inserted text.

use vstd::prelude::*;
use crate::configuration::{bridge_h_file_name, Config};
use crate::injectors::inject_pbxproj::{
    append_unless_present, arch_search_paths_line, ascii_setting_lines, block_at, block_close,
    both_configurations_set, bridging_header_line, build_settings_open, ld_runpath,
    lemma_index_from, lib_search, missing_build_settings_message, modified_build_settings,
    plain_setting_lines, processed, search_paths_line, section_index, with_content, SectionText,
};
use crate::injectors::properties::{
    law_modified_build_settings, lemma_prefix_contains, lemma_section_index_with_content,
};
use crate::text::{
    ascii, byte_find, byte_rfind, contains, find, find_from, lemma_ascii_bytes, lemma_ascii_parts,
    lemma_contains, lemma_find_from, lemma_find_from_is, lemma_find_skip, lemma_rfind_at_most,
    lemma_rfind_at_most_is, occurs_at, rfind, skip_chars, take_chars,
};

verus! {

/// `x` holds no occurrence of `p`, and neither its first nor its last
/// character occurs in `p`: `x` never forms `p` with the text around it.
pub open spec fn sealed(x: Seq<char>, p: Seq<char>) -> bool {
    &&& !contains(x, p)
    &&& x.len() > 0 ==> !p.contains(x[0]) && !p.contains(x.last())
}

/// `c` with the `buildSettings` block around character position `index`
/// modified, or the error when there is no such block.
pub open spec fn char_processed(config: &Config, libs: Seq<char>, c: Seq<char>, index: int) -> Result<
    Seq<char>,
    Seq<char>,
> {
    match block_at(c, index) {
        None => Err(missing_build_settings_message(index)),
        Some((piece, l1, l2)) => Ok(
            c.take(l1) + modified_build_settings(
                libs,
                config.ios_dir_name()->0,
                bridge_h_file_name(config.rust_file_name@),
                piece,
            ) + c.skip(l2),
        ),
    }
}

/// Appending ASCII lines to ASCII build settings leaves them ASCII.
proof fn lemma_modified_ascii(libs: Seq<char>, dir_name: Seq<char>, header: Seq<char>, b: Seq<char>)
    requires
        ascii(b),
        ascii_setting_lines(libs, dir_name, header),
    ensures
        ascii(modified_build_settings(libs, dir_name, header, b)),
{
    let r1 = append_unless_present(b, search_paths_line(libs));
    let r2 = append_unless_present(r1, arch_search_paths_line(libs));
    lemma_ascii_parts(b, search_paths_line(libs));
    lemma_ascii_parts(r1, arch_search_paths_line(libs));
    lemma_ascii_parts(r2, bridging_header_line(dir_name, header));
}

/// On ASCII text, the block found near `i` is the block around character
/// position `i`, and modifying it gives an ASCII text.
proof fn lemma_processed_ascii(config: &Config, libs: Seq<char>, c: Seq<char>, i: int)
    requires
        ascii(c),
        0 <= i <= c.len(),
        ascii_setting_lines(libs, config.ios_dir_name()->0, bridge_h_file_name(config.rust_file_name@)),
    ensures
        processed(config, libs, c, i) == char_processed(config, libs, c, i),
        processed(config, libs, c, i) matches Ok(c1) ==> ascii(c1),
{
    let bso = build_settings_open();
    let cl = block_close();
    lemma_ascii_parts(c, Seq::empty());
    assert(take_chars(c, i) == c.take(i));
    assert(skip_chars(c, i) == c.skip(i));
    assert(c.take(i) =~= c.subrange(0, i));
    assert(c.skip(i) =~= c.subrange(i, c.len() as int));
    lemma_ascii_bytes(c.take(i));
    lemma_ascii_bytes(c.skip(i));
    assert(byte_rfind(c.take(i), bso) == rfind(c.take(i), bso));
    assert(byte_find(c.skip(i), cl) == find(c.skip(i), cl));
    lemma_find_skip(c, cl, i);
    lemma_rfind_at_most(c.take(i), bso, c.take(i).len() - bso.len());
    lemma_find_from(c, cl, i);
    if let Some(a) = rfind(c.take(i), bso) {
        if let Some(e) = find_from(c, cl, i) {
            assert(occurs_at(c.take(i), bso, a));
            assert(skip_chars(c, a) == c.skip(a));
            assert(take_chars(c.skip(a), e - a) =~= c.subrange(a, e));
            assert(take_chars(c, a) == c.take(a));
            assert(skip_chars(c, e) == c.skip(e));
            let piece = c.subrange(a, e);
            lemma_modified_ascii(
                libs,
                config.ios_dir_name()->0,
                bridge_h_file_name(config.rust_file_name@),
                piece,
            );
            let m = modified_build_settings(
                libs,
                config.ios_dir_name()->0,
                bridge_h_file_name(config.rust_file_name@),
                piece,
            );
            assert(c.take(a) =~= c.subrange(0, a));
            assert(c.skip(e) =~= c.subrange(e, c.len() as int));
            lemma_ascii_parts(c.take(a), m);
            lemma_ascii_parts(c.take(a) + m, c.skip(e));
        }
    }
}

proof fn lemma_pattern_chars()
    ensures
        ld_runpath().len() > 0,
        block_close().len() == 2,
        block_close()[0] == '}',
        block_close()[1] == ';',
        ld_runpath()[0] == 'L',
        build_settings_open().len() > 0,
        !ld_runpath().contains('\t'),
        !ld_runpath().contains('\n'),
        !ld_runpath().contains('}'),
        !block_close().contains('\t'),
        !block_close().contains('\n'),
{
    reveal_strlit("LD_RUNPATH_SEARCH_PATHS");
    reveal_strlit("buildSettings = {");
    reveal_strlit("};");
}

proof fn lemma_empty_sealed(p: Seq<char>)
    requires
        p.len() > 0,
    ensures
        sealed(Seq::empty(), p),
{
    assert(find_from(Seq::<char>::empty(), p, 0) is None);
}

proof fn lemma_sealed_concat(x: Seq<char>, y: Seq<char>, p: Seq<char>)
    requires
        sealed(x, p),
        sealed(y, p),
    ensures
        sealed(x + y, p),
{
    let xy = x + y;
    lemma_contains(x, p);
    lemma_contains(y, p);
    lemma_contains(xy, p);
    assert forall|i: int| !occurs_at(xy, p, i) by {
        if occurs_at(xy, p, i) {
            if i + p.len() <= x.len() {
                assert(x.subrange(i, i + p.len()) =~= xy.subrange(i, i + p.len()));
                assert(occurs_at(x, p, i));
            } else if i >= x.len() {
                assert(y.subrange(i - x.len(), i - x.len() + p.len()) =~= xy.subrange(
                    i,
                    i + p.len(),
                ));
                assert(occurs_at(y, p, i - x.len()));
            } else {
                let d = x.len() - 1 - i;
                assert(xy.subrange(i, i + p.len())[d] == xy[x.len() - 1]);
                assert(p[d] == x.last());
                assert(p.contains(x.last()));
            }
        }
    }
    if xy.len() > 0 {
        if x.len() > 0 {
            assert(xy[0] == x[0]);
        } else {
            assert(xy[0] == y[0]);
        }
        if y.len() > 0 {
            assert(xy.last() == y.last());
        } else {
            assert(xy.last() == x.last());
        }
    }
}

/// A setting line without `p` is sealed against `p`.
proof fn lemma_lines_sealed(libs: Seq<char>, dir_name: Seq<char>, header: Seq<char>, p: Seq<char>)
    requires
        !p.contains('\t'),
        !p.contains('\n'),
        !contains(search_paths_line(libs), p),
        !contains(arch_search_paths_line(libs), p),
        !contains(bridging_header_line(dir_name, header), p),
    ensures
        sealed(search_paths_line(libs), p),
        sealed(arch_search_paths_line(libs), p),
        sealed(bridging_header_line(dir_name, header), p),
{
    reveal_strlit("\t\t\tLIBRARY_SEARCH_PATHS = \"");
    reveal_strlit("\t\t\t\t\"LIBRARY_SEARCH_PATHS[arch=*]\" = \"");
    reveal_strlit("\t\t\t\tSWIFT_OBJC_BRIDGING_HEADER = \"");
    reveal_strlit("\";\n");
    reveal_strlit("\";\n\t\t\t");
    let l1 = search_paths_line(libs);
    let l2 = arch_search_paths_line(libs);
    let l3 = bridging_header_line(dir_name, header);
    assert(l1[0] == '\t');
    assert(l1.last() == '\n');
    assert(l2[0] == '\t');
    assert(l2.last() == '\n');
    assert(l3[0] == '\t');
    assert(l3.last() == '\t');
}

/// Appending a sealed line unless present keeps the first `n` characters and
/// a sealed rest.
proof fn lemma_append_sealed(s: Seq<char>, line: Seq<char>, n: int, p: Seq<char>)
    requires
        0 <= n <= s.len(),
        sealed(s.skip(n), p),
        sealed(line, p),
    ensures
        n <= append_unless_present(s, line).len(),
        append_unless_present(s, line).take(n) == s.take(n),
        sealed(append_unless_present(s, line).skip(n), p),
{
    if !contains(s, line) {
        let t = s + line;
        assert(t.skip(n) =~= s.skip(n) + line);
        assert(t.take(n) =~= s.take(n));
        lemma_sealed_concat(s.skip(n), line, p);
    }
}

/// The settings added to build settings `b` form a sealed text after `b`.
proof fn lemma_modified_tail(
    libs: Seq<char>,
    dir_name: Seq<char>,
    header: Seq<char>,
    b: Seq<char>,
    p: Seq<char>,
)
    requires
        p.len() > 0,
        sealed(search_paths_line(libs), p),
        sealed(arch_search_paths_line(libs), p),
        sealed(bridging_header_line(dir_name, header), p),
    ensures
        modified_build_settings(libs, dir_name, header, b) == b + modified_build_settings(
            libs,
            dir_name,
            header,
            b,
        ).skip(b.len() as int),
        sealed(modified_build_settings(libs, dir_name, header, b).skip(b.len() as int), p),
{
    let n = b.len() as int;
    let r1 = append_unless_present(b, search_paths_line(libs));
    let r2 = append_unless_present(r1, arch_search_paths_line(libs));
    let r3 = append_unless_present(
        r2,
        bridging_header_line(dir_name, header),
    );
    lemma_empty_sealed(p);
    assert(b.skip(n) =~= Seq::<char>::empty());
    lemma_append_sealed(b, search_paths_line(libs), n, p);
    lemma_append_sealed(r1, arch_search_paths_line(libs), n, p);
    lemma_append_sealed(r2, bridging_header_line(dir_name, header), n, p);
    assert(b.take(n) =~= b);
    assert(r3 =~= r3.take(n) + r3.skip(n));
}

/// The occurrences of `p` in `t`, which is `s` with the sealed `x` put in at
/// `b` where no occurrence in `s` spans `b`: those of `s` before `b`, and
/// those from `b` on moved by the length of `x`.
proof fn lemma_insert_occurrences(s: Seq<char>, b: int, x: Seq<char>, t: Seq<char>, p: Seq<char>)
    requires
        0 <= b <= s.len(),
        p.len() > 0,
        sealed(x, p),
        t == s.take(b) + x + s.skip(b),
        forall|j: int| j < b < j + p.len() ==> !occurs_at(s, p, j),
    ensures
        forall|i: int|
            #[trigger] occurs_at(t, p, i) <==> ((i < b && occurs_at(s, p, i)) || (i >= b + x.len()
                && occurs_at(s, p, i - x.len()))),
{
    lemma_contains(x, p);
    assert forall|i: int|
        #[trigger] occurs_at(t, p, i) <==> ((i < b && occurs_at(s, p, i)) || (i >= b + x.len()
            && occurs_at(s, p, i - x.len()))) by {
        if i + p.len() <= b {
            if 0 <= i {
                assert(t.subrange(i, i + p.len()) =~= s.subrange(i, i + p.len()));
            }
        } else if i >= b + x.len() {
            if i + p.len() <= t.len() {
                assert(t.subrange(i, i + p.len()) =~= s.subrange(
                    i - x.len(),
                    i - x.len() + p.len(),
                ));
            }
        } else if occurs_at(t, p, i) {
            if x.len() == 0 {
                assert(t =~= s);
            } else if i >= b && i + p.len() <= b + x.len() {
                assert(x.subrange(i - b, i - b + p.len()) =~= t.subrange(i, i + p.len()));
                assert(occurs_at(x, p, i - b));
            } else if i < b {
                assert(t.subrange(i, i + p.len())[b - i] == t[b]);
                assert(t[b] == x[0]);
                assert(p.contains(x[0]));
            } else {
                let q = b + x.len() - 1;
                assert(t.subrange(i, i + p.len())[q - i] == t[q]);
                assert(t[q] == x.last());
                assert(p.contains(x.last()));
            }
        }
    }
}

/// No occurrence of `LD_RUNPATH_SEARCH_PATHS` or `};` spans the start of a
/// `};`.
proof fn lemma_no_span(s: Seq<char>, b: int, p: Seq<char>)
    requires
        occurs_at(s, block_close(), b),
        p == ld_runpath() || p == block_close(),
    ensures
        forall|j: int| j < b < j + p.len() ==> !occurs_at(s, p, j),
{
    lemma_pattern_chars();
    assert(s.subrange(b, b + 2)[0] == s[b]);
    assert forall|j: int| j < b < j + p.len() implies !occurs_at(s, p, j) by {
        if occurs_at(s, p, j) {
            assert(s.subrange(j, j + p.len())[b - j] == s[b]);
            if p == block_close() {
                assert(p[1] == ';');
            } else {
                assert(p.contains('}'));
            }
        }
    }
}

/// What one edit of a `buildSettings` block does: `c2` is `c` with the
/// sealed settings `x` put in just before the `};` at `e` that ends the
/// block, which starts at `a`.
proof fn lemma_edit_step(config: &Config, libs: Seq<char>, c: Seq<char>, i: int, c2: Seq<char>) -> (r: (
    Seq<char>,
    int,
    int,
))
    requires
        char_processed(config, libs, c, i) == Ok::<Seq<char>, Seq<char>>(c2),
        0 <= i,
        occurs_at(c, ld_runpath(), i),
        plain_setting_lines(libs, config.ios_dir_name()->0, bridge_h_file_name(config.rust_file_name@)),
    ensures
        ({
            let (x, a, e) = r;
            let m = modified_build_settings(
                libs,
                config.ios_dir_name()->0,
                bridge_h_file_name(config.rust_file_name@),
                c.subrange(a, e),
            );
            &&& 0 <= a <= i < e
            &&& e + 2 <= c.len()
            &&& rfind(take_chars(c, i), build_settings_open()) == Some(a)
            &&& find_from(c, block_close(), i) == Some(e)
            &&& occurs_at(c, block_close(), e)
            &&& forall|j: int| i <= j < e ==> !occurs_at(c, block_close(), j)
            &&& c2 == c.take(e) + x + c.skip(e)
            &&& m == c2.subrange(a, e + x.len())
            &&& sealed(x, ld_runpath())
            &&& sealed(x, block_close())
            &&& forall|j: int| j < e < j + ld_runpath().len() ==> !occurs_at(c, ld_runpath(), j)
            &&& forall|j: int| j < e < j + block_close().len() ==> !occurs_at(c, block_close(), j)
        }),
{
    let dir = config.ios_dir_name()->0;
    let header = bridge_h_file_name(config.rust_file_name@);
    let ld = ld_runpath();
    let bso = build_settings_open();
    let cl = block_close();
    lemma_pattern_chars();
    let (piece, a, e) = block_at(c, i)->0;
    assert(take_chars(c, i) == c.take(i));
    lemma_rfind_at_most(c.take(i), bso, i - bso.len());
    lemma_find_from(c, cl, i);
    assert(occurs_at(c.take(i), bso, a));
    assert(c.subrange(i, i + ld.len())[0] == c[i]);
    assert(c.subrange(e, e + 2)[0] == c[e]);
    let m = modified_build_settings(libs, dir, header, piece);
    lemma_lines_sealed(libs, dir, header, ld);
    lemma_lines_sealed(libs, dir, header, cl);
    lemma_modified_tail(libs, dir, header, piece, ld);
    lemma_modified_tail(libs, dir, header, piece, cl);
    let x = m.skip(piece.len() as int);
    assert(c.take(a) + piece =~= c.take(e));
    assert(c2 =~= c.take(e) + x + c.skip(e));
    assert(m =~= c2.subrange(a, e + x.len()));
    lemma_no_span(c, e, ld);
    lemma_no_span(c, e, cl);
    (x, a, e)
}

/// In the final content the first occurrence of `LD_RUNPATH_SEARCH_PATHS`
/// is still at `l1` and the last one is at `m`, where the second edit took
/// place.
proof fn lemma_positions(
    c: Seq<char>,
    c1: Seq<char>,
    c2: Seq<char>,
    x1: Seq<char>,
    e1: int,
    x2: Seq<char>,
    e2: int,
    l1: int,
    m: int,
)
    requires
        find(c, ld_runpath()) == Some(l1),
        rfind(c1, ld_runpath()) == Some(m),
        0 <= l1 < m < e2 <= c1.len(),
        l1 < e1 <= c.len(),
        c1 == c.take(e1) + x1 + c.skip(e1),
        c2 == c1.take(e2) + x2 + c1.skip(e2),
        sealed(x1, ld_runpath()),
        sealed(x2, ld_runpath()),
        forall|j: int| j < e1 < j + ld_runpath().len() ==> !occurs_at(c, ld_runpath(), j),
        forall|j: int| j < e2 < j + ld_runpath().len() ==> !occurs_at(c1, ld_runpath(), j),
    ensures
        find(c2, ld_runpath()) == Some(l1),
        rfind(c2, ld_runpath()) == Some(m),
{
    let ld = ld_runpath();
    lemma_pattern_chars();
    lemma_find_from(c, ld, 0);
    lemma_rfind_at_most(c1, ld, c1.len() - ld.len());
    lemma_insert_occurrences(c, e1, x1, c1, ld);
    lemma_insert_occurrences(c1, e2, x2, c2, ld);
    assert(occurs_at(c1, ld, l1));
    assert(occurs_at(c2, ld, l1));
    assert forall|j: int| 0 <= j < l1 implies !occurs_at(c2, ld, j) by {
        if occurs_at(c2, ld, j) {
            assert(occurs_at(c1, ld, j));
            assert(occurs_at(c, ld, j));
        }
    }
    lemma_find_from_is(c2, ld, 0, l1);
    assert(occurs_at(c2, ld, m));
    assert forall|j: int| m < j <= c2.len() - ld.len() implies !occurs_at(c2, ld, j) by {
        if occurs_at(c2, ld, j) {
            if j < e2 {
                assert(occurs_at(c1, ld, j));
            } else {
                assert(occurs_at(c1, ld, j - x2.len()));
            }
        }
    }
    lemma_rfind_at_most_is(c2, ld, c2.len() - ld.len(), m);
}

/// The block around the first occurrence in the final content begins with
/// the block as the first edit left it.
proof fn lemma_first_block(
    c: Seq<char>,
    c1: Seq<char>,
    c2: Seq<char>,
    x1: Seq<char>,
    a1: int,
    e1: int,
    x2: Seq<char>,
    e2: int,
    l1: int,
    m: int,
)
    requires
        find_from(c, block_close(), l1) == Some(e1),
        rfind(take_chars(c, l1), build_settings_open()) == Some(a1),
        0 <= a1 <= l1 < e1 <= c.len(),
        l1 <= m <= e2 <= c1.len(),
        occurs_at(c1, block_close(), e2),
        c1 == c.take(e1) + x1 + c.skip(e1),
        c2 == c1.take(e2) + x2 + c1.skip(e2),
        sealed(x1, block_close()),
        sealed(x2, block_close()),
        forall|j: int| j < e1 < j + block_close().len() ==> !occurs_at(c, block_close(), j),
        forall|j: int| j < e2 < j + block_close().len() ==> !occurs_at(c1, block_close(), j),
    ensures
        block_at(c2, l1) matches Some((b, _, _)) && c1.subrange(a1, e1 + x1.len()).is_prefix_of(b),
{
    let cl = block_close();
    lemma_pattern_chars();
    lemma_find_from(c, cl, l1);
    lemma_insert_occurrences(c, e1, x1, c1, cl);
    lemma_insert_occurrences(c1, e2, x2, c2, cl);
    let big_e = e1 + x1.len();
    assert(occurs_at(c1, cl, big_e));
    assert forall|j: int| l1 <= j < big_e implies !occurs_at(c1, cl, j) by {
        if occurs_at(c1, cl, j) {
            assert(occurs_at(c, cl, j));
        }
    }
    assert(big_e <= e2);
    let big_e2 = if big_e < e2 {
        big_e
    } else {
        big_e + x2.len()
    };
    assert(occurs_at(c2, cl, big_e2));
    assert forall|j: int| l1 <= j < big_e2 implies !occurs_at(c2, cl, j) by {
        if occurs_at(c2, cl, j) {
            assert(occurs_at(c1, cl, j));
        }
    }
    lemma_find_from_is(c2, cl, l1, big_e2);
    assert(take_chars(c2, l1) =~= take_chars(c, l1));
    let b1 = c2.subrange(a1, big_e2);
    assert(block_at(c2, l1) == Some((b1, a1, big_e2)));
    assert(c2.subrange(a1, big_e) =~= c1.subrange(a1, big_e));
    assert(b1.subrange(0, big_e - a1) =~= c2.subrange(a1, big_e));
}

/// The block around the last occurrence in the final content is the block
/// as the second edit left it.
proof fn lemma_last_block(c1: Seq<char>, c2: Seq<char>, x2: Seq<char>, a2: int, e2: int, m: int)
    requires
        find_from(c1, block_close(), m) == Some(e2),
        rfind(take_chars(c1, m), build_settings_open()) == Some(a2),
        0 <= a2 <= m < e2 <= c1.len(),
        c2 == c1.take(e2) + x2 + c1.skip(e2),
        sealed(x2, block_close()),
        forall|j: int| j < e2 < j + block_close().len() ==> !occurs_at(c1, block_close(), j),
    ensures
        block_at(c2, m) == Some((c2.subrange(a2, e2 + x2.len()), a2, e2 + x2.len())),
{
    let cl = block_close();
    lemma_pattern_chars();
    lemma_find_from(c1, cl, m);
    lemma_insert_occurrences(c1, e2, x2, c2, cl);
    assert(occurs_at(c2, cl, e2 + x2.len()));
    assert forall|j: int| m <= j < e2 + x2.len() implies !occurs_at(c2, cl, j) by {
        if occurs_at(c2, cl, j) {
            assert(occurs_at(c1, cl, j));
        }
    }
    lemma_find_from_is(c2, cl, m, e2 + x2.len());
    assert(take_chars(c2, m) =~= take_chars(c1, m));
}

/// The two edits of the build configurations' content `c` leave both
/// configurations set.
proof fn lemma_two_edits(config: &Config, libs: Seq<char>, c: Seq<char>, c1: Seq<char>, c2: Seq<char>)
    requires
        find(c, ld_runpath()) is Some,
        rfind(c, ld_runpath()) is Some,
        find(c, ld_runpath()) != rfind(c, ld_runpath()),
        char_processed(config, libs, c, find(c, ld_runpath())->0) == Ok::<Seq<char>, Seq<char>>(c1),
        rfind(c1, ld_runpath()) is Some,
        char_processed(config, libs, c1, rfind(c1, ld_runpath())->0) == Ok::<Seq<char>, Seq<char>>(c2),
        plain_setting_lines(libs, config.ios_dir_name()->0, bridge_h_file_name(config.rust_file_name@)),
    ensures
        both_configurations_set(
            libs,
            config.ios_dir_name()->0,
            bridge_h_file_name(config.rust_file_name@),
            c2,
        ),
{
    let dir = config.ios_dir_name()->0;
    let header = bridge_h_file_name(config.rust_file_name@);
    let ld = ld_runpath();
    lemma_pattern_chars();
    let l1 = find(c, ld)->0;
    let l2 = rfind(c, ld)->0;
    lemma_find_from(c, ld, 0);
    lemma_rfind_at_most(c, ld, c.len() - ld.len());
    let m = rfind(c1, ld)->0;

    let (x1, a1, e1) = lemma_edit_step(config, libs, c, l1, c1);
    lemma_insert_occurrences(c, e1, x1, c1, ld);
    let s2 = if l2 < e1 {
        l2
    } else {
        l2 + x1.len()
    };
    assert(occurs_at(c1, ld, s2));
    lemma_rfind_at_most(c1, ld, c1.len() - ld.len());
    assert(l1 < m);
    let (x2, a2, e2) = lemma_edit_step(config, libs, c1, m, c2);

    lemma_positions(c, c1, c2, x1, e1, x2, e2, l1, m);
    lemma_first_block(c, c1, c2, x1, a1, e1, x2, e2, l1, m);
    lemma_last_block(c1, c2, x2, a2, e2, m);

    let mb1 = modified_build_settings(libs, dir, header, c.subrange(a1, e1));
    law_modified_build_settings(libs, dir, header, c.subrange(a1, e1));
    let (b1, _, _) = block_at(c2, l1)->0;
    lemma_prefix_contains(mb1, b1, search_paths_line(libs));
    lemma_prefix_contains(mb1, b1, arch_search_paths_line(libs));
    lemma_prefix_contains(mb1, b1, bridging_header_line(dir, header));
    law_modified_build_settings(libs, dir, header, c1.subrange(a2, e2));
}

/// After the library search paths were set without error, both build
/// configurations hold them: in the build configurations' section, the
/// first and the last `LD_RUNPATH_SEARCH_PATHS` are two different
/// occurrences, and the `buildSettings` blocks around each hold both
/// search-path lines and the bridging header line. (This holds for ASCII
/// text, where byte offsets are character positions, and where the lines
/// themselves contain neither `LD_RUNPATH_SEARCH_PATHS` nor `};`.)
pub proof fn law_lib_search_sets_both_configurations(
    config: &Config,
    libs: Seq<char>,
    secs: Seq<SectionText>,
)
    requires
        lib_search(config, libs, secs).1 is Ok,
        section_index(secs, "XCBuildConfiguration section"@) is Some,
        ascii(secs[section_index(secs, "XCBuildConfiguration section"@)->0].1),
        ascii_setting_lines(libs, config.ios_dir_name()->0, bridge_h_file_name(config.rust_file_name@)),
        plain_setting_lines(libs, config.ios_dir_name()->0, bridge_h_file_name(config.rust_file_name@)),
    ensures
        section_index(lib_search(config, libs, secs).0, "XCBuildConfiguration section"@)
            == section_index(secs, "XCBuildConfiguration section"@),
        both_configurations_set(
            libs,
            config.ios_dir_name()->0,
            bridge_h_file_name(config.rust_file_name@),
            lib_search(config, libs, secs).0[section_index(
                secs,
                "XCBuildConfiguration section"@,
            )->0].1,
        ),
{
    let xc = "XCBuildConfiguration section"@;
    let ld = ld_runpath();
    let k = section_index(secs, xc)->0;
    lemma_index_from(secs, xc, 0);
    let c = secs[k].1;
    lemma_ascii_bytes(c);
    assert(byte_find(c, ld) == find(c, ld));
    assert(byte_rfind(c, ld) == rfind(c, ld));
    lemma_find_from(c, ld, 0);
    let l1 = find(c, ld)->0;
    lemma_processed_ascii(config, libs, c, l1);
    let c1 = char_processed(config, libs, c, l1)->Ok_0;
    lemma_ascii_bytes(c1);
    assert(byte_rfind(c1, ld) == rfind(c1, ld));
    lemma_rfind_at_most(c1, ld, c1.len() - ld.len());
    let m = rfind(c1, ld)->0;
    lemma_processed_ascii(config, libs, c1, m);
    let c2 = char_processed(config, libs, c1, m)->Ok_0;
    assert(lib_search(config, libs, secs).0 == with_content(secs, k, c2));
    lemma_section_index_with_content(secs, k, c2, xc);
    lemma_two_edits(config, libs, c, c1, c2);
}

} // verus!
