//! Reading printed sections back: cutting the printed text of sections into
//! sections gives the same names in the same order, each content preceded by
//! the newline that follows its opening marker.

use vstd::prelude::*;
use crate::injectors::inject_pbxproj::{
    end_marker, printed, section_scan, sections_of, SectionText, BEGIN_MARK, BEGIN_WORD,
    COMMENT_END,
};
use crate::injectors::properties::law_printed_concat;
use crate::text::{
    ascii, byte_find, lemma_ascii_bytes, lemma_ascii_parts, lemma_find_skip, skip_chars,
    take_chars, contains, find, find_from, lemma_contains, lemma_find_from, lemma_find_from_is, occurs_at,
    replace_all, replace_from,
};

verus! {

/// The name given by the opening marker at character `i` whose comment ends
/// at character `j`: the text from after `/* ` up to the character before
/// `*/`, with every `Begin ` taken out.
pub open spec fn section_label(c: Seq<char>, i: int, j: int) -> Seq<char> {
    replace_all(c.subrange(i + 3, j - 1), BEGIN_WORD@, Seq::empty())
}

/// The sections of `c` found from character `k` on, with every position
/// counted in characters: the next `/* Begin` from `k`, the next `*/` from
/// there, the label in between, the first `/* End NAME */` of the whole
/// text, and the content up to it; `None` where that end marker lies before
/// the content.
pub open spec fn char_section_scan(c: Seq<char>, k: int) -> Option<Seq<SectionText>>
    decreases c.len() - k,
{
    match find_from(c, BEGIN_MARK@, k) {
        None => Some(Seq::empty()),
        Some(i) => match find_from(c, COMMENT_END@, i) {
            None => Some(Seq::empty()),
            Some(j) => {
                let name = section_label(c, i, j);
                match find(c, end_marker(name)) {
                    None => Some(Seq::empty()),
                    Some(e) => if e < j + 2 {
                        None
                    } else {
                        proof {
                            lemma_find_from(c, BEGIN_MARK@, k);
                            lemma_find_from(c, COMMENT_END@, i);
                            lemma_find_from(c, end_marker(name), 0);
                        }
                        match char_section_scan(c, e) {
                            None => None,
                            Some(rest) => Some(seq![(name, c.subrange(j + 2, e))] + rest),
                        }
                    },
                }
            },
        },
    }
}

proof fn lemma_begin_close(c: Seq<char>, i: int, j: int)
    requires
        occurs_at(c, BEGIN_MARK@, i),
        occurs_at(c, COMMENT_END@, j),
        i <= j,
    ensures
        i + 4 <= j,
{
    reveal_strlit("/* Begin");
    reveal_strlit("*/");
    assert(c[i] == c.subrange(i, i + 8)[0]);
    assert(c[i + 1] == c.subrange(i, i + 8)[1]);
    assert(c[i + 2] == c.subrange(i, i + 8)[2]);
    assert(c[i + 3] == c.subrange(i, i + 8)[3]);
    assert(c[j] == c.subrange(j, j + 2)[0]);
    assert(c[j + 1] == c.subrange(j, j + 2)[1]);
}

/// On ASCII text, cutting into sections by byte offsets is cutting by
/// character positions.
pub proof fn lemma_scan_ascii(c: Seq<char>, k: int)
    requires
        ascii(c),
        0 <= k <= c.len(),
    ensures
        section_scan(c, k) == char_section_scan(c, k),
    decreases c.len() - k,
{
    lemma_ascii_parts(c, Seq::empty());
    lemma_ascii_bytes(c);
    assert(skip_chars(c, k) == c.skip(k));
    assert(c.skip(k) =~= c.subrange(k, c.len() as int));
    lemma_ascii_bytes(c.skip(k));
    assert(byte_find(c.skip(k), BEGIN_MARK@) == find(c.skip(k), BEGIN_MARK@));
    lemma_find_skip(c, BEGIN_MARK@, k);
    lemma_find_from(c, BEGIN_MARK@, k);
    if let Some(i) = find_from(c, BEGIN_MARK@, k) {
        assert(skip_chars(c, i) == c.skip(i));
        assert(c.skip(i) =~= c.subrange(i, c.len() as int));
        lemma_ascii_bytes(c.skip(i));
        assert(byte_find(c.skip(i), COMMENT_END@) == find(c.skip(i), COMMENT_END@));
        lemma_find_skip(c, COMMENT_END@, i);
        lemma_find_from(c, COMMENT_END@, i);
        if let Some(j) = find_from(c, COMMENT_END@, i) {
            lemma_begin_close(c, i, j);
            assert(skip_chars(c, i + 3) == c.skip(i + 3));
            assert(take_chars(c.skip(i + 3), j - 4 - i) =~= c.subrange(i + 3, j - 1));
            let name = section_label(c, i, j);
            assert(byte_find(c, end_marker(name)) == find(c, end_marker(name)));
            lemma_find_from(c, end_marker(name), 0);
            if let Some(e) = find(c, end_marker(name)) {
                if e >= j + 2 {
                    assert(skip_chars(c, j + 2) == c.skip(j + 2));
                    assert(take_chars(c.skip(j + 2), e - j - 2) =~= c.subrange(j + 2, e));
                    lemma_scan_ascii(c, e);
                }
            }
        }
    }
}

/// Printed ASCII sections are ASCII text.
proof fn lemma_printed_ascii(ss: Seq<SectionText>)
    requires
        forall|i: int| 0 <= i < ss.len() ==> ascii(#[trigger] ss[i].0) && ascii(ss[i].1),
    ensures
        ascii(printed(ss)),
    decreases ss.len(),
{
    if ss.len() > 0 {
        let s = ss.last();
        assert(ss.last() == ss[ss.len() - 1]);
        assert forall|i: int| 0 <= i < ss.drop_last().len() implies ascii(#[trigger] ss.drop_last()[i].0)
            && ascii(ss.drop_last()[i].1) by {
            assert(ss.drop_last()[i] == ss[i]);
        }
        lemma_printed_ascii(ss.drop_last());
        reveal_strlit("/* Begin ");
        reveal_strlit(" */\n");
        reveal_strlit("/* End ");
        reveal_strlit(" */");
        reveal_strlit("\n");
        let a0 = printed(ss.drop_last());
        lemma_ascii_parts(a0, "/* Begin "@);
        lemma_ascii_parts(a0 + "/* Begin "@, s.0);
        lemma_ascii_parts(a0 + "/* Begin "@ + s.0, " */\n"@);
        lemma_ascii_parts(a0 + "/* Begin "@ + s.0 + " */\n"@, s.1);
        lemma_ascii_parts("/* End "@, s.0);
        lemma_ascii_parts("/* End "@ + s.0, " */"@);
        lemma_ascii_parts(a0 + "/* Begin "@ + s.0 + " */\n"@ + s.1, end_marker(s.0));
        lemma_ascii_parts(a0 + "/* Begin "@ + s.0 + " */\n"@ + s.1 + end_marker(s.0), "\n"@);
    }
}

/// The opening line of a section named `name`.
pub open spec fn begin_line(name: Seq<char>) -> Seq<char> {
    "/* Begin "@ + name + " */\n"@
}

/// The printed text of one section.
pub open spec fn section_text(s: SectionText) -> Seq<char> {
    begin_line(s.0) + s.1 + end_marker(s.0) + "\n"@
}

/// A name without `/*`, `*/` and the word `Begin `.
pub open spec fn plain_name(name: Seq<char>) -> bool {
    &&& !contains(name, "/*"@)
    &&& !contains(name, "*/"@)
    &&& !contains(name, BEGIN_WORD@)
}

/// Two characters `c0`, `c1` at `k` of a name make it hold `c0 c1`.
proof fn lemma_pair_in(name: Seq<char>, k: int, pair: Seq<char>)
    requires
        pair.len() == 2,
        0 <= k,
        k + 1 < name.len(),
        name[k] == pair[0],
        name[k + 1] == pair[1],
    ensures
        contains(name, pair),
{
    assert(name.subrange(k, k + 2) =~= pair);
    assert(occurs_at(name, pair, k));
    lemma_contains(name, pair);
}

/// Sections whose printed text can be read back: distinct plain names, and
/// contents without `/* End `.
pub open spec fn readable_sections(ss: Seq<SectionText>) -> bool {
    &&& forall|i: int, j: int| 0 <= i < j < ss.len() ==> ss[i].0 != ss[j].0
    &&& forall|i: int| 0 <= i < ss.len() ==> plain_name(#[trigger] ss[i].0)
    &&& forall|i: int| 0 <= i < ss.len() ==> !contains(#[trigger] ss[i].1, "/* End "@)
}

/// The sections as reading their printed text gives them back: each content
/// preceded by a newline.
pub open spec fn read_back(ss: Seq<SectionText>) -> Seq<SectionText> {
    ss.map_values(|s: SectionText| (s.0, "\n"@ + s.1))
}

proof fn lemma_begin_line(name: Seq<char>)
    requires
        plain_name(name),
    ensures
        begin_line(name).len() == name.len() + 13,
        begin_line(name).subrange(0, 8) == BEGIN_MARK@,
        begin_line(name).subrange(3, name.len() as int + 9) == BEGIN_WORD@ + name,
        begin_line(name)[0] == '/',
        begin_line(name)[1] == '*',
        begin_line(name)[2] == ' ',
        begin_line(name)[3] == 'B',
        begin_line(name)[name.len() as int + 10] == '*',
        begin_line(name)[name.len() as int + 11] == '/',
        begin_line(name)[name.len() as int + 12] == '\n',
        forall|r: int|
            0 <= r && r + 1 < name.len() + 13 && #[trigger] begin_line(name)[r] == '/'
                && begin_line(name)[r + 1] == '*' ==> r == 0,
        forall|r: int|
            0 <= r && r + 1 < name.len() + 13 && #[trigger] begin_line(name)[r] == '*'
                && begin_line(name)[r + 1] == '/' ==> r == name.len() + 10,
{
    reveal_strlit("/* Begin ");
    reveal_strlit(" */\n");
    reveal_strlit("/* Begin");
    reveal_strlit("Begin ");
    reveal_strlit("/*");
    reveal_strlit("*/");
    let b = begin_line(name);
    let n = name.len() as int;
    assert(b.subrange(0, 8) =~= BEGIN_MARK@);
    assert(b.subrange(3, n + 9) =~= BEGIN_WORD@ + name);
    assert forall|r: int|
        0 <= r && r + 1 < n + 13 && #[trigger] b[r] == '/' && b[r + 1] == '*' implies r == 0 by {
        if 9 <= r && r + 1 < 9 + n {
            lemma_pair_in(name, r - 9, "/*"@);
        } else if 9 <= r && r < 9 + n {
            assert(b[r + 1] == ' ');
        }
    }
    assert forall|r: int|
        0 <= r && r + 1 < n + 13 && #[trigger] b[r] == '*' && b[r + 1] == '/' implies r == n
            + 10 by {
        if 9 <= r && r + 1 < 9 + n {
            lemma_pair_in(name, r - 9, "*/"@);
        } else if 9 <= r && r < 9 + n {
            assert(b[r + 1] == ' ');
        } else if r == 8 && n > 0 {
            assert(b[r] == ' ');
        }
    }
}

proof fn lemma_end_line(name: Seq<char>)
    requires
        plain_name(name),
    ensures
        end_marker(name).len() == name.len() + 10,
        (end_marker(name) + "\n"@).len() == name.len() + 11,
        end_marker(name).subrange(0, 7) == "/* End "@,
        end_marker(name).subrange(7, name.len() as int + 7) == name,
        end_marker(name)[0] == '/',
        end_marker(name)[1] == '*',
        end_marker(name)[3] == 'E',
        end_marker(name)[name.len() as int + 8] == '*',
        end_marker(name)[name.len() as int + 9] == '/',
        (end_marker(name) + "\n"@)[name.len() as int + 10] == '\n',
        forall|r: int|
            0 <= r && r + 1 < name.len() + 10 && #[trigger] end_marker(name)[r] == '/'
                && end_marker(name)[r + 1] == '*' ==> r == 0,
        forall|r: int|
            0 <= r && r + 1 < name.len() + 10 && #[trigger] end_marker(name)[r] == '*'
                && end_marker(name)[r + 1] == '/' ==> r == name.len() + 8,
        forall|d: int| 1 <= d <= 6 ==> #[trigger] end_marker(name)[d] != '/',
{
    reveal_strlit("/* End ");
    reveal_strlit(" */");
    reveal_strlit("\n");
    reveal_strlit("/*");
    reveal_strlit("*/");
    let m = end_marker(name);
    let n = name.len() as int;
    assert(m.subrange(0, 7) =~= "/* End "@);
    assert(m.subrange(7, n + 7) =~= name);
    assert forall|r: int|
        0 <= r && r + 1 < n + 10 && #[trigger] m[r] == '/' && m[r + 1] == '*' implies r == 0 by {
        if 7 <= r && r + 1 < 7 + n {
            lemma_pair_in(name, r - 7, "/*"@);
        } else if 7 <= r && r < 7 + n {
            assert(m[r + 1] == ' ');
        }
    }
    assert forall|r: int|
        0 <= r && r + 1 < n + 10 && #[trigger] m[r] == '*' && m[r + 1] == '/' implies r == n + 8 by {
        if 7 <= r && r + 1 < 7 + n {
            lemma_pair_in(name, r - 7, "*/"@);
        } else if 7 <= r && r < 7 + n {
            assert(m[r + 1] == ' ');
        } else if r == 6 && n > 0 {
            assert(m[r] == ' ');
        }
    }
}

/// Where the parts of a section's text lie.
proof fn lemma_section_layout(s: SectionText)
    requires
        plain_name(s.0),
    ensures
        section_text(s).len() == 2 * s.0.len() as int + s.1.len() as int + 24,
        section_text(s).subrange(0, s.0.len() as int + 13) == begin_line(s.0),
        section_text(s).subrange(s.0.len() as int + 13, s.0.len() as int + 13 + s.1.len()) == s.1,
        section_text(s).subrange(
            s.0.len() as int + 13 + s.1.len(),
            2 * s.0.len() as int + 23 + s.1.len(),
        ) == end_marker(s.0),
        section_text(s)[2 * s.0.len() as int + 23 + s.1.len()] == '\n',
        forall|r: int|
            0 <= r < s.0.len() as int + 13 ==> #[trigger] section_text(s)[r] == begin_line(s.0)[r],
        forall|r: int|
            0 <= r < s.1.len() ==> #[trigger] section_text(s)[s.0.len() as int + 13 + r] == s.1[r],
        forall|r: int|
            0 <= r < s.0.len() as int + 10 ==> #[trigger] section_text(s)[s.0.len() as int + 13 + s.1.len() as int + r]
                == end_marker(s.0)[r],
{
    lemma_begin_line(s.0);
    lemma_end_line(s.0);
    reveal_strlit("\n");
    let t = section_text(s);
    let b = s.0.len() as int + 13;
    let e = b + s.1.len();
    assert(t.subrange(0, b) =~= begin_line(s.0));
    assert(t.subrange(b, e) =~= s.1);
    assert(t.subrange(e, e + s.0.len() as int + 10) =~= end_marker(s.0));
}

/// The printed sections are the sections before `i`, section `i`, and the
/// sections after it.
proof fn lemma_split(ss: Seq<SectionText>, i: int)
    requires
        0 <= i < ss.len(),
    ensures
        printed(ss) == printed(ss.take(i)) + section_text(ss[i]) + printed(ss.skip(i + 1)),
        printed(ss.take(i + 1)) == printed(ss.take(i)) + section_text(ss[i]),
{
    law_printed_concat(ss.take(i + 1), ss.skip(i + 1));
    assert(ss.take(i + 1) + ss.skip(i + 1) =~= ss);
    assert(ss.take(i + 1).drop_last() =~= ss.take(i));
    assert(printed(ss.take(i + 1)) =~= printed(ss.take(i)) + section_text(ss[i]));
}

/// Non-empty printed sections end with a newline.
proof fn lemma_printed_ends(ss: Seq<SectionText>)
    requires
        ss.len() > 0,
    ensures
        printed(ss).len() > 0,
        printed(ss).last() == '\n',
{
    reveal_strlit("\n");
}

/// An end marker of a plain name does not occur at `q` in `x` where `x`
/// holds, after `p`, the text of a section with a plain name and without
/// `/* End ` in its content, and `q` lies in its opening line or content.
proof fn lemma_no_end_in_head(x: Seq<char>, p: Seq<char>, s: SectionText, name: Seq<char>, q: int)
    requires
        x.subrange(p.len() as int, p.len() as int + section_text(s).len()) == section_text(s),
        p.len() as int + section_text(s).len() <= x.len(),
        plain_name(s.0),
        plain_name(name),
        !contains(s.1, "/* End "@),
        p.len() <= q < p.len() as int + s.0.len() as int + 13 + s.1.len(),
    ensures
        !occurs_at(x, end_marker(name), q),
{
    lemma_section_layout(s);
    lemma_begin_line(s.0);
    lemma_end_line(name);
    lemma_end_line(s.0);
    let pat = end_marker(name);
    let t = section_text(s);
    let o = p.len() as int;
    let b = s.0.len() as int + 13;
    let e = b + s.1.len();
    if occurs_at(x, pat, q) {
        assert(x.subrange(q, q + pat.len())[0] == x[q]);
        assert(x[q] == t[q - o]);
        if q - o < b {
            assert(t[q - o] == begin_line(s.0)[q - o]);
            if q - o == 0 {
                assert(x.subrange(q, q + pat.len())[3] == x[q + 3]);
                assert(x[q + 3] == t[3]);
                assert(t[3] == begin_line(s.0)[3]);
            } else {
                assert(x.subrange(q, q + pat.len())[1] == x[q + 1]);
                assert(x[q + 1] == t[q - o + 1]);
                assert(t[q - o + 1] == begin_line(s.0)[q - o + 1]);
            }
        } else if q + 7 <= o + e {
            let k = q - o - b;
            assert(s.1.subrange(k, k + 7) =~= "/* End "@) by {
                assert forall|m: int| 0 <= m < 7 implies #[trigger] s.1.subrange(k, k + 7)[m]
                    == "/* End "@[m] by {
                    assert(x.subrange(q, q + pat.len())[m] == x[q + m]);
                    assert(x[q + m] == t[b + k + m]);
                    assert(t[b + k + m] == s.1[k + m]);
                    assert(pat.subrange(0, 7)[m] == pat[m]);
                }
            }
            assert(occurs_at(s.1, "/* End "@, k));
            lemma_contains(s.1, "/* End "@);
        } else {
            let d = o + e - q;
            assert(x.subrange(q, q + pat.len())[d] == x[o + e]);
            assert(x[o + e] == t[e]);
            assert(t[e] == end_marker(s.0)[0]);
        }
    }
}

/// The end marker of another plain name does not occur where a section's
/// end marker begins.
proof fn lemma_no_end_at_other_end(x: Seq<char>, p: Seq<char>, s: SectionText, name: Seq<char>)
    requires
        x.subrange(p.len() as int, p.len() as int + section_text(s).len()) == section_text(s),
        p.len() as int + section_text(s).len() <= x.len(),
        plain_name(s.0),
        plain_name(name),
        s.0 != name,
    ensures
        !occurs_at(x, end_marker(name), p.len() as int + s.0.len() as int + 13 + s.1.len()),
{
    lemma_section_layout(s);
    lemma_end_line(name);
    lemma_end_line(s.0);
    let pat = end_marker(name);
    let t = section_text(s);
    let o = p.len() as int;
    let e = s.0.len() as int + 13 + s.1.len();
    let q = o + e;
    if occurs_at(x, pat, q) {
        let n = s.0.len() as int;
        let nn = name.len() as int;
        if n == nn {
            assert(s.0 =~= name) by {
                assert forall|m: int| 0 <= m < n implies #[trigger] s.0[m] == name[m] by {
                    assert(x.subrange(q, q + pat.len())[7 + m] == x[q + 7 + m]);
                    assert(x[q + 7 + m] == t[e + 7 + m]);
                    assert(t[e + 7 + m] == end_marker(s.0)[7 + m]);
                    assert(end_marker(s.0).subrange(7, n + 7)[m] == end_marker(s.0)[7 + m]);
                    assert(pat.subrange(7, nn + 7)[m] == pat[7 + m]);
                }
            }
        } else if n < nn {
            let d = 8 + n;
            assert(x.subrange(q, q + pat.len())[d] == x[q + d]);
            assert(x[q + d] == t[e + d]);
            assert(t[e + d] == end_marker(s.0)[d]);
            assert(pat[d] == '*');
        } else {
            let d = 8 + nn;
            assert(x.subrange(q, q + pat.len())[d] == x[q + d]);
            assert(x[q + d] == t[e + d]);
            assert(t[e + d] == end_marker(s.0)[d]);
            assert(end_marker(s.0)[d] == '*');
        }
    }
}

/// Neither an end marker nor an opening marker occurs after the start of a
/// section's end marker, within its end line.
proof fn lemma_nothing_in_end_line(x: Seq<char>, p: Seq<char>, s: SectionText, pat: Seq<char>, q: int)
    requires
        x.subrange(p.len() as int, p.len() as int + section_text(s).len()) == section_text(s),
        p.len() as int + section_text(s).len() <= x.len(),
        plain_name(s.0),
        pat.len() >= 2,
        pat[0] == '/',
        pat[1] == '*',
        pat.len() >= 4 && pat[3] == 'B' || q > p.len() as int + s.0.len() as int + 13 + s.1.len(),
        p.len() as int + s.0.len() as int + 13 + s.1.len() <= q < p.len() as int + section_text(s).len(),
    ensures
        !occurs_at(x, pat, q),
{
    lemma_section_layout(s);
    lemma_end_line(s.0);
    let t = section_text(s);
    let o = p.len() as int;
    let e = s.0.len() as int + 13 + s.1.len();
    if occurs_at(x, pat, q) {
        assert(x.subrange(q, q + pat.len())[0] == x[q]);
        assert(x.subrange(q, q + pat.len())[1] == x[q + 1]);
        assert(x[q] == t[q - o]);
        if q - o < e + s.0.len() as int + 10 {
            assert(t[q - o] == end_marker(s.0)[q - o - e]);
            if q - o == e {
                assert(x.subrange(q, q + pat.len())[3] == x[q + 3]);
                assert(x[q + 3] == t[e + 3]);
                assert(t[e + 3] == end_marker(s.0)[3]);
            } else {
                assert(x[q + 1] == t[q - o + 1]);
            }
        }
    }
}

/// An end marker of a name does not cross the end of a text that ends with
/// a newline into a text that begins with `/*`.
proof fn lemma_no_end_across(x: Seq<char>, a: Seq<char>, name: Seq<char>, q: int)
    requires
        a.len() > 0,
        a.last() == '\n',
        a.len() + 1 < x.len(),
        x.subrange(0, a.len() as int) == a,
        x[a.len() as int] == '/',
        x[a.len() as int + 1] == '*',
        plain_name(name),
        q < a.len() < q + end_marker(name).len(),
    ensures
        !occurs_at(x, end_marker(name), q),
{
    lemma_end_line(name);
    let pat = end_marker(name);
    if occurs_at(x, pat, q) {
        let d = a.len() - 1 - q;
        assert(x.subrange(q, q + pat.len())[d] == x[a.len() - 1]);
        assert(x.subrange(0, a.len() as int)[a.len() - 1] == x[a.len() - 1]);
        assert(a.last() == a[a.len() - 1]);
        assert(x.subrange(q, q + pat.len())[d + 1] == x[a.len() as int]);
        assert(pat[d + 1] == '/');
        assert(pat[d] == '\n');
        if d + 2 < pat.len() {
            assert(x.subrange(q, q + pat.len())[d + 2] == x[a.len() as int + 1]);
            assert(pat[d + 2] == '*');
        }
    }
}

/// The end marker of a plain name other than a section's does not occur in
/// the section's text that follows `a` in `x`.
proof fn lemma_no_end_in_section(x: Seq<char>, a: Seq<char>, s: SectionText, name: Seq<char>, q: int)
    requires
        x == a + section_text(s),
        plain_name(s.0),
        plain_name(name),
        !contains(s.1, "/* End "@),
        s.0 != name,
        a.len() <= q,
    ensures
        !occurs_at(x, end_marker(name), q),
{
    lemma_section_layout(s);
    lemma_end_line(name);
    let pat = end_marker(name);
    assert(x.subrange(a.len() as int, a.len() as int + section_text(s).len()) =~= section_text(s));
    if q < a.len() as int + s.0.len() as int + 13 + s.1.len() {
        lemma_no_end_in_head(x, a, s, name, q);
    } else if q == a.len() as int + s.0.len() as int + 13 + s.1.len() {
        lemma_no_end_at_other_end(x, a, s, name);
    } else if q < x.len() {
        lemma_nothing_in_end_line(x, a, s, pat, q);
    }
}

/// Readable sections stay readable when the last ones are left out.
proof fn lemma_readable_take(ss: Seq<SectionText>, n: int)
    requires
        readable_sections(ss),
        0 <= n <= ss.len(),
    ensures
        readable_sections(ss.take(n)),
{
    let t = ss.take(n);
    assert forall|i: int, j: int| 0 <= i < j < t.len() implies t[i].0 != t[j].0 by {
        assert(t[i] == ss[i]);
        assert(t[j] == ss[j]);
    }
    assert forall|i: int| 0 <= i < t.len() implies plain_name(#[trigger] t[i].0) by {
        assert(t[i] == ss[i]);
    }
    assert forall|i: int| 0 <= i < t.len() implies !contains(#[trigger] t[i].1, "/* End "@) by {
        assert(t[i] == ss[i]);
    }
}

/// The end marker of a plain name other than a section's does not occur
/// in printed text without it followed by the section's text.
proof fn lemma_no_end_in_concat(x: Seq<char>, a: Seq<char>, s: SectionText, name: Seq<char>, q: int)
    requires
        x == a + section_text(s),
        !contains(a, end_marker(name)),
        a.len() > 0 ==> a.last() == '\n',
        plain_name(s.0),
        plain_name(name),
        !contains(s.1, "/* End "@),
        s.0 != name,
    ensures
        !occurs_at(x, end_marker(name), q),
{
    let pat = end_marker(name);
    lemma_end_line(name);
    lemma_contains(a, pat);
    if occurs_at(x, pat, q) {
        if q + pat.len() <= a.len() {
            assert(x.subrange(q, q + pat.len()) =~= a.subrange(q, q + pat.len()));
            assert(occurs_at(a, pat, q));
        } else if q < a.len() {
            lemma_begin_line(s.0);
            lemma_section_layout(s);
            assert(x.subrange(0, a.len() as int) =~= a);
            assert(x[a.len() as int] == section_text(s)[0]);
            assert(section_text(s)[0] == begin_line(s.0)[0]);
            assert(x[a.len() as int + 1] == section_text(s)[1]);
            assert(section_text(s)[1] == begin_line(s.0)[1]);
            lemma_no_end_across(x, a, name, q);
        } else {
            lemma_no_end_in_section(x, a, s, name, q);
        }
    }
}

/// The end marker of a plain name that no section has does not occur in the
/// printed sections.
proof fn lemma_no_foreign_end(ss: Seq<SectionText>, name: Seq<char>)
    requires
        readable_sections(ss),
        plain_name(name),
        forall|i: int| 0 <= i < ss.len() ==> ss[i].0 != name,
    ensures
        !contains(printed(ss), end_marker(name)),
    decreases ss.len(),
{
    let pat = end_marker(name);
    lemma_end_line(name);
    if ss.len() > 0 {
        let n = ss.len() - 1;
        let a = printed(ss.take(n));
        let s = ss[n];
        lemma_split(ss, n);
        assert(ss.skip(n + 1) =~= Seq::<SectionText>::empty());
        let x = printed(ss);
        assert(x =~= a + section_text(s));
        lemma_readable_take(ss, n);
        assert forall|i: int| 0 <= i < ss.take(n).len() implies ss.take(n)[i].0 != name by {
            assert(ss.take(n)[i] == ss[i]);
        }
        lemma_no_foreign_end(ss.take(n), name);
        assert(plain_name(ss[n].0));
        assert(!contains(ss[n].1, "/* End "@));
        if n > 0 {
            lemma_printed_ends(ss.take(n));
        }
        assert forall|q: int| !occurs_at(x, pat, q) by {
            lemma_no_end_in_concat(x, a, s, name, q);
        }
        lemma_contains(x, pat);
    } else {
        lemma_find_from(printed(ss), pat, 0);
    }
}

/// Where section `i` begins in the printed sections.
pub open spec fn section_start(ss: Seq<SectionText>, i: int) -> int {
    printed(ss.take(i)).len() as int
}

/// Where cutting the printed sections resumes before section `i`: the start
/// of the text, or the end marker of the section before.
pub open spec fn resume_point(ss: Seq<SectionText>, i: int) -> int {
    if i <= 0 {
        0
    } else {
        section_start(ss, i) - ss[i - 1].0.len() - 11
    }
}

proof fn lemma_readable_at(ss: Seq<SectionText>, i: int)
    requires
        readable_sections(ss),
        0 <= i < ss.len(),
    ensures
        plain_name(ss[i].0),
        !contains(ss[i].1, "/* End "@),
        forall|j: int| 0 <= j < i ==> ss.take(i)[j].0 != ss[i].0,
        readable_sections(ss.take(i)),
{
    lemma_readable_take(ss, i);
    assert forall|j: int| 0 <= j < i implies ss.take(i)[j].0 != ss[i].0 by {
        assert(ss.take(i)[j] == ss[j]);
    }
}

/// The opening marker of section `i` is the first one from the resume point.
proof fn lemma_begin_found(ss: Seq<SectionText>, i: int)
    requires
        readable_sections(ss),
        0 <= i < ss.len(),
    ensures
        find_from(printed(ss), BEGIN_MARK@, resume_point(ss, i)) == Some(section_start(ss, i)),
{
    let c = printed(ss);
    let o = section_start(ss, i);
    lemma_readable_at(ss, i);
    lemma_split(ss, i);
    lemma_section_layout(ss[i]);
    lemma_begin_line(ss[i].0);
    let t = section_text(ss[i]);
    assert(c.subrange(o, o + 8) =~= t.subrange(0, 8));
    assert(t.subrange(0, 8) =~= begin_line(ss[i].0).subrange(0, 8));
    reveal_strlit("/* Begin");
    if i > 0 {
        lemma_readable_at(ss, i - 1);
        lemma_split(ss, i - 1);
        let p = printed(ss.take(i - 1));
        let s1 = ss[i - 1];
        assert(ss.take(i).take(i - 1) =~= ss.take(i - 1));
        assert(c.subrange(p.len() as int, p.len() as int + section_text(s1).len()) =~= section_text(s1));
        lemma_section_layout(s1);
        assert forall|q: int| resume_point(ss, i) <= q < o implies !occurs_at(c, BEGIN_MARK@, q) by {
            lemma_nothing_in_end_line(c, p, s1, BEGIN_MARK@, q);
        }
    }
    lemma_find_from_is(c, BEGIN_MARK@, resume_point(ss, i), o);
}

/// No opening marker follows the last section's end marker.
proof fn lemma_begin_none(ss: Seq<SectionText>)
    requires
        readable_sections(ss),
    ensures
        find_from(printed(ss), BEGIN_MARK@, resume_point(ss, ss.len() as int)) is None,
{
    let c = printed(ss);
    reveal_strlit("/* Begin");
    lemma_find_from(c, BEGIN_MARK@, resume_point(ss, ss.len() as int));
    if ss.len() > 0 {
        let n = ss.len() - 1;
        lemma_readable_at(ss, n);
        lemma_split(ss, n);
        assert(ss.skip(n + 1) =~= Seq::<SectionText>::empty());
        let p = printed(ss.take(n));
        let s1 = ss[n];
        assert(ss.take(n + 1) =~= ss);
        assert(c =~= p + section_text(s1));
        assert(c.subrange(p.len() as int, p.len() as int + section_text(s1).len()) =~= section_text(s1));
        lemma_section_layout(s1);
        assert forall|q: int| resume_point(ss, ss.len() as int) <= q implies !occurs_at(
            c,
            BEGIN_MARK@,
            q,
        ) by {
            if q < c.len() {
                lemma_nothing_in_end_line(c, p, s1, BEGIN_MARK@, q);
            }
        }
    }
}

/// The comment of section `i`'s opening marker ends just after its name.
proof fn lemma_close_found(ss: Seq<SectionText>, i: int)
    requires
        readable_sections(ss),
        0 <= i < ss.len(),
    ensures
        find_from(printed(ss), COMMENT_END@, section_start(ss, i)) == Some(
            section_start(ss, i) + ss[i].0.len() as int + 10,
        ),
{
    let c = printed(ss);
    let o = section_start(ss, i);
    let n = ss[i].0.len() as int;
    lemma_readable_at(ss, i);
    lemma_split(ss, i);
    lemma_section_layout(ss[i]);
    lemma_begin_line(ss[i].0);
    reveal_strlit("*/");
    let t = section_text(ss[i]);
    let b = begin_line(ss[i].0);
    assert forall|r: int| 0 <= r < n + 13 implies #[trigger] c[o + r] == b[r] by {
        assert(c[o + r] == t[r]);
    }
    assert(c.subrange(o + n + 10, o + n + 12) =~= COMMENT_END@) by {
        assert(c[o + n + 10] == b[n + 10]);
        assert(c[o + n + 11] == b[n + 11]);
    }
    assert forall|q: int| o <= q < o + n + 10 implies !occurs_at(c, COMMENT_END@, q) by {
        if occurs_at(c, COMMENT_END@, q) {
            assert(c.subrange(q, q + 2)[0] == c[q]);
            assert(c.subrange(q, q + 2)[1] == c[q + 1]);
            assert(c[q] == b[q - o]);
            assert(c[q + 1] == b[q - o + 1]);
        }
    }
    lemma_find_from_is(c, COMMENT_END@, o, o + n + 10);
}

/// Taking `Begin ` out of `Begin NAME` leaves the plain name.
proof fn lemma_label_name(name: Seq<char>)
    requires
        plain_name(name),
    ensures
        replace_all(BEGIN_WORD@ + name, BEGIN_WORD@, Seq::empty()) == name,
{
    reveal_strlit("Begin ");
    let w = BEGIN_WORD@;
    let l = w + name;
    assert(l.subrange(0, 6) =~= w);
    lemma_find_from_is(l, w, 0, 0);
    lemma_find_from(l, w, 6);
    lemma_contains(name, w);
    if let Some(k) = find_from(l, w, 6) {
        assert(l.subrange(k, k + 6) =~= name.subrange(k - 6, k));
        assert(occurs_at(name, w, k - 6));
    }
    assert(find_from(l, w, 6) is None);
    assert(l.subrange(6, l.len() as int) =~= name);
    assert(replace_from(l, w, Seq::empty(), 6) == name);
    assert(replace_from(l, w, Seq::empty(), 0) == l.subrange(0, 0) + Seq::<char>::empty()
        + replace_from(l, w, Seq::empty(), 6));
    assert(l.subrange(0, 0) + Seq::<char>::empty() + name =~= name);
}

/// A section's own end marker does not occur before it.
proof fn lemma_no_own_end_before(x: Seq<char>, a: Seq<char>, s: SectionText, b: Seq<char>, q: int)
    requires
        x == a + section_text(s) + b,
        !contains(a, end_marker(s.0)),
        a.len() > 0 ==> a.last() == '\n',
        plain_name(s.0),
        !contains(s.1, "/* End "@),
        q < a.len() as int + s.0.len() as int + 13 + s.1.len(),
    ensures
        !occurs_at(x, end_marker(s.0), q),
{
    let pat = end_marker(s.0);
    let t = section_text(s);
    lemma_end_line(s.0);
    lemma_contains(a, pat);
    if occurs_at(x, pat, q) {
        lemma_section_layout(s);
        lemma_begin_line(s.0);
        assert(x.subrange(a.len() as int, a.len() as int + t.len()) =~= t);
        if q + pat.len() <= a.len() {
            assert(x.subrange(q, q + pat.len()) =~= a.subrange(q, q + pat.len()));
            assert(occurs_at(a, pat, q));
        } else if q < a.len() {
            assert(x.subrange(0, a.len() as int) =~= a);
            assert(x[a.len() as int] == t[0]);
            assert(t[0] == begin_line(s.0)[0]);
            assert(x[a.len() as int + 1] == t[1]);
            assert(t[1] == begin_line(s.0)[1]);
            lemma_no_end_across(x, a, s.0, q);
        } else {
            lemma_no_end_in_head(x, a, s, s.0, q);
        }
    }
}

/// Section `i`'s end marker is the first one of its name in the whole text.
proof fn lemma_end_found(ss: Seq<SectionText>, i: int)
    requires
        readable_sections(ss),
        0 <= i < ss.len(),
    ensures
        find(printed(ss), end_marker(ss[i].0)) == Some(
            section_start(ss, i) + ss[i].0.len() + 13 + ss[i].1.len(),
        ),
{
    let c = printed(ss);
    let s = ss[i];
    let a = printed(ss.take(i));
    let o = section_start(ss, i);
    let e = o + s.0.len() + 13 + s.1.len();
    let pat = end_marker(s.0);
    lemma_readable_at(ss, i);
    lemma_split(ss, i);
    lemma_no_foreign_end(ss.take(i), s.0);
    if i > 0 {
        lemma_printed_ends(ss.take(i));
    }
    assert forall|q: int| 0 <= q < e implies !occurs_at(c, pat, q) by {
        lemma_no_own_end_before(c, a, s, printed(ss.skip(i + 1)), q);
    }
    lemma_section_layout(s);
    lemma_end_line(s.0);
    let t = section_text(s);
    assert(c.subrange(e, e + pat.len()) =~= pat) by {
        assert forall|r: int| 0 <= r < pat.len() implies #[trigger] c.subrange(e, e + pat.len())[r]
            == pat[r] by {
            assert(c[e + r] == t[s.0.len() as int + 13 + s.1.len() + r]);
        }
    }
    lemma_find_from_is(c, pat, 0, e);
}

/// Cutting the printed sections from the resume point before section `i`
/// gives sections `i` and after, read back.
proof fn lemma_scan_from(ss: Seq<SectionText>, i: int)
    requires
        readable_sections(ss),
        0 <= i <= ss.len(),
    ensures
        char_section_scan(printed(ss), resume_point(ss, i)) == Some(read_back(ss).skip(i)),
    decreases ss.len() - i,
{
    let c = printed(ss);
    if i == ss.len() {
        lemma_begin_none(ss);
        assert(read_back(ss).skip(i) =~= Seq::<SectionText>::empty());
    } else {
        let s = ss[i];
        let o = section_start(ss, i);
        let n = s.0.len() as int;
        let j = o + n + 10;
        let e = o + n + 13 + s.1.len();
        lemma_readable_at(ss, i);
        lemma_begin_found(ss, i);
        lemma_close_found(ss, i);
        lemma_end_found(ss, i);
        lemma_split(ss, i);
        lemma_section_layout(s);
        lemma_begin_line(s.0);
        let t = section_text(s);
        assert(c.subrange(o + 3, j - 1) =~= begin_line(s.0).subrange(3, n + 9)) by {
            assert forall|r: int| 0 <= r < n + 6 implies #[trigger] c.subrange(o + 3, j - 1)[r]
                == begin_line(s.0).subrange(3, n + 9)[r] by {
                assert(c[o + 3 + r] == t[3 + r]);
            }
        }
        lemma_label_name(s.0);
        assert(section_label(c, o, j) == s.0);
        assert(c.subrange(j + 2, e) =~= "\n"@ + s.1) by {
            reveal_strlit("\n");
            assert forall|r: int| 0 <= r < s.1.len() as int + 1 implies #[trigger] c.subrange(j + 2, e)[r]
                == ("\n"@ + s.1)[r] by {
                assert(c[j + 2 + r] == t[n + 12 + r]);
                if r == 0 {
                    assert(t[n + 12] == begin_line(s.0)[n + 12]);
                } else {
                    assert(t[n + 13 + (r - 1)] == s.1[r - 1]);
                }
            }
        }
        assert(resume_point(ss, i + 1) == e) by {
            assert(printed(ss.take(i + 1)).len() == o + t.len());
        }
        lemma_scan_from(ss, i + 1);
        assert(read_back(ss).skip(i) =~= seq![(s.0, "\n"@ + s.1)] + read_back(ss).skip(i + 1));
    }
}

/// Printing sections and cutting the text into sections again gives the
/// same names in the same order, each content preceded by the newline that
/// follows its opening marker. This holds where the names are distinct and
/// hold neither `/*`, `*/` nor `Begin `, no content holds `/* End `, and all
/// of them are ASCII (where byte offsets are character positions).
pub proof fn law_sections_of_printed(ss: Seq<SectionText>)
    requires
        readable_sections(ss),
        forall|i: int| 0 <= i < ss.len() ==> ascii(#[trigger] ss[i].0) && ascii(ss[i].1),
    ensures
        sections_of(printed(ss)) == Some(read_back(ss)),
{
    lemma_scan_from(ss, 0);
    lemma_printed_ascii(ss);
    lemma_scan_ascii(printed(ss), 0);
    assert(read_back(ss).skip(0) =~= read_back(ss));
}

} // verus!
