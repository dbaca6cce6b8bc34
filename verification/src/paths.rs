//! Unix path operations on path strings: joining a relative or absolute
//! segment, and the final component of a path.

use vstd::prelude::*;
use crate::text::{
    extend_chars, from_chars, lemma_rfind_at_most, occurs_at, rfind, rfind_chars, slice_chars,
    to_chars,
};

verus! {

/// `base` extended by `seg`: an absolute `seg` replaces `base`; otherwise a
/// separator is put between them unless `base` is empty or already ends in one
/// (`Path::join` on Unix).
pub open spec fn path_join(base: Seq<char>, seg: Seq<char>) -> Seq<char> {
    if seg.len() > 0 && seg[0] == '/' {
        seg
    } else if base.len() == 0 || base.last() == '/' {
        base + seg
    } else {
        base + seq!['/'] + seg
    }
}

/// The final normal component of a path (`Path::file_name` on Unix):
/// trailing separators and `.` components are skipped; a final `..`, a bare
/// root and an empty path have none.
pub open spec fn file_name(p: Seq<char>) -> Option<Seq<char>>
    decreases p.len(),
{
    if p.len() == 0 {
        None
    } else if p.last() == '/' {
        file_name(p.drop_last())
    } else {
        let k = match rfind(p, seq!['/']) {
            Some(i) => i + 1,
            None => 0,
        };
        proof {
            lemma_rfind_at_most(p, seq!['/'], p.len() - 1);
            assert(0 <= k <= p.len());
        }
        let seg = p.skip(k);
        if seg == seq!['.'] {
            proof {
                assert(seg.len() == 1);
            }
            file_name(p.take(k))
        } else if seg == seq!['.', '.'] {
            None
        } else {
            Some(seg)
        }
    }
}

/// Joins `seg` onto `base` as `Path::join` does on Unix.
pub fn join(base: &str, seg: &str) -> (r: String)
    ensures
        r@ == path_join(base@, seg@),
{
    let b = to_chars(base);
    let s = to_chars(seg);
    if s.len() > 0 && s[0] == '/' {
        return from_chars(&s);
    }
    let mut out = b.clone();
    if b.len() > 0 && b[b.len() - 1] != '/' {
        out.push('/');
    }
    extend_chars(&mut out, &s);
    proof {
        if b@.len() > 0 {
            assert(b@.last() == b@[b@.len() - 1]);
        }
    }
    from_chars(&out)
}

/// The final normal component of the path `p`, if it has one.
pub fn file_name_of(p: &str) -> (r: Option<String>)
    ensures
        r matches Some(n) ==> file_name(p@) == Some(n@),
        r is None ==> file_name(p@) is None,
{
    let v = to_chars(p);
    let mut end: usize = v.len();
    let slash: Vec<char> = vec!['/'];
    let dot: Vec<char> = vec!['.'];
    let dotdot: Vec<char> = vec!['.', '.'];
    assert(v@.take(v@.len() as int) =~= v@);
    loop
        invariant
            v@ == p@,
            end <= v@.len(),
            file_name(v@) == file_name(v@.take(end as int)),
            slash@ == seq!['/'],
            dot@ == seq!['.'],
            dotdot@ == seq!['.', '.'],
        decreases end,
    {
        let ghost q = v@.take(end as int);
        if end == 0 {
            return None;
        }
        if v[end - 1] == '/' {
            assert(q.drop_last() =~= v@.take(end - 1));
            end = end - 1;
        } else {
            let head = slice_chars(&v, 0, end);
            assert(head@ =~= q);
            let found = rfind_chars(&head, &slash);
            proof {
                lemma_rfind_at_most(q, seq!['/'], q.len() - 1);
                assert(q.last() == v@[end - 1]);
            }
            let k: usize = match found {
                Some(i) => i + 1,
                None => 0,
            };
            let seg = slice_chars(&v, k, end);
            assert(seg@ =~= q.skip(k as int));
            if seg.len() == 1 && seg[0] == '.' {
                assert(seg@ =~= seq!['.']);
                assert(q.take(k as int) =~= v@.take(k as int));
                end = k;
            } else if seg.len() == 2 && seg[0] == '.' && seg[1] == '.' {
                assert(seg@ =~= seq!['.', '.']);
                return None;
            } else {
                assert(seg@ != seq!['.']);
                assert(seg@ != seq!['.', '.']);
                return Some(from_chars(&seg));
            }
        }
    }
}

/// The length of what precedes the first component of `p` (on Unix): the
/// root `/`, or a leading `.` that stands alone or before a separator.
pub open spec fn lead_len(p: Seq<char>) -> int {
    if p.len() > 0 && (p[0] == '/' || (p[0] == '.' && (p.len() == 1 || p[1] == '/'))) {
        1
    } else {
        0
    }
}

/// The last separator of `p` that lies after the first `lead` characters.
pub open spec fn body_separator(p: Seq<char>, lead: int) -> Option<int> {
    match rfind(p, seq!['/']) {
        Some(i) => if i >= lead {
            Some(i)
        } else {
            None
        },
        None => None,
    }
}

/// Where the last component of `p` begins.
pub open spec fn component_start(p: Seq<char>, lead: int) -> int {
    match body_separator(p, lead) {
        Some(i) => i + 1,
        None => lead,
    }
}

/// Where `p` is cut to drop its last component with its separator.
pub open spec fn component_cut(p: Seq<char>, lead: int) -> int {
    match body_separator(p, lead) {
        Some(i) => i,
        None => lead,
    }
}

/// A component that path parsing passes over: empty (between separators)
/// or `.`.
pub open spec fn passed_over(c: Seq<char>) -> bool {
    c.len() == 0 || c == seq!['.']
}

/// Where the last component lies, and that no separator follows the one
/// before it.
pub proof fn lemma_component_positions(p: Seq<char>, lead: int)
    requires
        0 <= lead < p.len(),
    ensures
        lead <= component_cut(p, lead) < component_start(p, lead) <= p.len()
            || component_cut(p, lead) == lead == component_start(p, lead),
        component_cut(p, lead) < p.len(),
        body_separator(p, lead) matches Some(i) ==> p[i] == '/' && forall|j: int|
            i < j < p.len() ==> p[j] != '/',
        body_separator(p, lead) is None ==> forall|j: int| lead <= j < p.len() ==> p[j] != '/',
{
    lemma_rfind_at_most(p, seq!['/'], p.len() - 1);
    if let Some(i) = rfind(p, seq!['/']) {
        assert(p.subrange(i, i + 1)[0] == p[i]);
    }
    assert forall|j: int| 0 <= j < p.len() && p[j] == '/' implies occurs_at(p, seq!['/'], j) by {
        assert(p.subrange(j, j + 1) =~= seq!['/']);
    }
}

/// `p` without its trailing separators and `.` components, keeping the
/// first `lead` characters.
pub open spec fn trim_back(p: Seq<char>, lead: int) -> Seq<char>
    decreases p.len(),
{
    if lead < 0 || p.len() <= lead {
        p
    } else if passed_over(p.skip(component_start(p, lead))) {
        proof {
            lemma_component_positions(p, lead);
        }
        trim_back(p.take(component_cut(p, lead)), lead)
    } else {
        p
    }
}

/// The parent of `p` whose first `lead` characters precede its components.
pub open spec fn parent_from(p: Seq<char>, lead: int) -> Option<Seq<char>>
    decreases p.len(),
{
    if lead < 0 || p.len() <= lead {
        if p.len() == 0 || p[0] == '/' {
            None
        } else {
            Some(Seq::empty())
        }
    } else if passed_over(p.skip(component_start(p, lead))) {
        proof {
            lemma_component_positions(p, lead);
        }
        parent_from(p.take(component_cut(p, lead)), lead)
    } else {
        Some(trim_back(p.take(component_cut(p, lead)), lead))
    }
}

/// The path without its final component (`Path::parent` on Unix): `None`
/// for an empty path and for a bare root; `Some` of the empty path for a
/// relative path of one component. Separators and `.` components at the end
/// are passed over.
pub open spec fn path_parent(p: Seq<char>) -> Option<Seq<char>> {
    parent_from(p, lead_len(p))
}

/// Where the last component of `v`'s first `end` characters begins, and
/// where they are cut to drop it.
fn last_component(v: &Vec<char>, end: usize, lead: usize) -> (r: (usize, usize))
    requires
        lead < end <= v@.len(),
    ensures
        r.0 == component_cut(v@.take(end as int), lead as int),
        r.1 == component_start(v@.take(end as int), lead as int),
        r.0 < end,
        r.1 <= end,
{
    let head = slice_chars(v, 0, end);
    let slash: Vec<char> = vec!['/'];
    assert(head@ =~= v@.take(end as int));
    assert(slash@ =~= seq!['/']);
    proof {
        lemma_component_positions(v@.take(end as int), lead as int);
    }
    match rfind_chars(&head, &slash) {
        Some(i) => if i >= lead {
            proof {
                lemma_rfind_at_most(head@, slash@, head@.len() - 1);
            }
            (i, i + 1)
        } else {
            (lead, lead)
        },
        None => (lead, lead),
    }
}

/// Whether `v[start..end]` is passed over.
fn is_passed_over(v: &Vec<char>, start: usize, end: usize) -> (b: bool)
    requires
        start <= end <= v@.len(),
    ensures
        b == passed_over(v@.take(end as int).skip(start as int)),
{
    let r = end - start == 0 || (end - start == 1 && v[start] == '.');
    proof {
        let c = v@.take(end as int).skip(start as int);
        if end - start == 1 {
            assert(c[0] == v@[start as int]);
            if v[start as int] == '.' {
                assert(c =~= seq!['.']);
            }
        }
    }
    r
}

/// The parent of the path `p`, if it has one.
pub fn parent_of(p: &str) -> (r: Option<String>)
    ensures
        r matches Some(d) ==> path_parent(p@) == Some(d@),
        r is None ==> path_parent(p@) is None,
{
    let v = to_chars(p);
    let lead: usize = if v.len() > 0 && (v[0] == '/' || (v[0] == '.' && (v.len() == 1 || v[1]
        == '/'))) {
        1
    } else {
        0
    };
    assert(lead == lead_len(v@));
    let mut end: usize = v.len();
    assert(v@.take(end as int) =~= v@);
    loop
        invariant
            v@ == p@,
            lead <= 1,
            lead == lead_len(p@),
            end <= v@.len(),
            parent_from(v@, lead as int) == parent_from(v@.take(end as int), lead as int),
        decreases end,
    {
        let ghost q = v@.take(end as int);
        if end <= lead {
            if end == 0 || v[0] == '/' {
                return None;
            } else {
                assert(q[0] == v@[0]);
                return Some(String::new());
            }
        }
        let (cut, start) = last_component(&v, end, lead);
        if is_passed_over(&v, start, end) {
            assert(q.take(cut as int) =~= v@.take(cut as int));
            end = cut;
        } else {
            assert(q.take(cut as int) =~= v@.take(cut as int));
            let e = trimmed_end(&v, cut, lead);
            let d = slice_chars(&v, 0, e);
            assert(d@ =~= v@.take(e as int));
            return Some(from_chars(&d));
        }
    }
}

/// The end of `v`'s first `end` characters with the trailing separators and
/// `.` components dropped.
fn trimmed_end(v: &Vec<char>, end: usize, lead: usize) -> (e: usize)
    requires
        end <= v@.len(),
    ensures
        e <= end,
        v@.take(e as int) == trim_back(v@.take(end as int), lead as int),
{
    let mut e = end;
    loop
        invariant
            e <= end <= v@.len(),
            trim_back(v@.take(end as int), lead as int) == trim_back(v@.take(e as int), lead as int),
        decreases e,
    {
        let ghost q = v@.take(e as int);
        if e <= lead {
            return e;
        }
        let (cut, start) = last_component(v, e, lead);
        if is_passed_over(v, start, e) {
            assert(q.take(cut as int) =~= v@.take(cut as int));
            e = cut;
        } else {
            return e;
        }
    }
}

/// The file of the same name as `p` one directory further up: the name of
/// `p` joined onto the parent of `p`'s directory; `None` where `p` has no
/// name or there is no such directory.
pub fn next_config_candidate(p: &str) -> (r: Option<String>)
    ensures
        r is Some <==> (file_name(p@) is Some && path_parent(p@) is Some && path_parent(
            path_parent(p@)->0,
        ) is Some),
        r matches Some(q) ==> q@ == path_join(
            path_parent(path_parent(p@)->0)->0,
            file_name(p@)->0,
        ),
{
    let name = match file_name_of(p) {
        Some(n) => n,
        None => return None,
    };
    let dir = match parent_of(p) {
        Some(d) => d,
        None => return None,
    };
    let grand = match parent_of(dir.as_str()) {
        Some(g) => g,
        None => return None,
    };
    Some(join(grand.as_str(), name.as_str()))
}

/// `p` begins with a `~` that stands for the home directory: a `~` alone
/// or followed by a separator.
pub open spec fn tilde_applies(p: Seq<char>) -> bool {
    p.len() > 0 && p[0] == '~' && (p.len() == 1 || p[1] == '/')
}

/// `r` is a possible outcome of expanding a leading `~` of `p`: where the
/// `~` applies, it is replaced by the home directory (never empty) when one
/// is known and `p` is kept otherwise; any other `p` is kept as it is.
pub open spec fn tilde_outcome(p: Seq<char>, r: Seq<char>) -> bool {
    if tilde_applies(p) {
        r == p || exists|home: Seq<char>| home.len() > 0 && r == home + p.skip(1)
    } else {
        r == p
    }
}

/// Expands a leading `~` to the home directory (`shellexpand::tilde`).
///
/// The home directory comes from the environment (`dirs::home_dir`, which
/// never gives an empty one: an empty `HOME` and an empty entry of the user
/// database both count as unknown), so the contract says that the result is
/// `p` with the `~` replaced by some non-empty string, or `p` itself where
/// no home directory is known; which home directory is used is left unsaid.
#[verifier::external_body]
pub(crate) fn expand_tilde(p: &str) -> (r: String)
    ensures
        tilde_outcome(p@, r@),
{
    shellexpand::tilde(p).into_owned()
}

/// Expanding a leading `~` keeps everything after the `~` and puts a
/// non-empty home directory in its place, or changes nothing; a path
/// without such a `~` is never changed.
pub proof fn law_tilde_expansion(p: Seq<char>, r: Seq<char>)
    requires
        tilde_outcome(p, r),
    ensures
        !tilde_applies(p) ==> r == p,
        tilde_applies(p) && r != p ==> r.len() > p.len() - 1 && r.skip(r.len() - (p.len() - 1))
            == p.skip(1) && r.take(r.len() - (p.len() - 1)).len() > 0,
        tilde_applies(p) && r != p && p.len() > 1 ==> r[r.len() - (p.len() - 1)] == '/',
{
    if tilde_applies(p) && r != p {
        let home = choose|home: Seq<char>| home.len() > 0 && r == home + p.skip(1);
        assert(r.skip(home.len() as int) =~= p.skip(1));
        if p.len() > 1 {
            assert(r[home.len() as int] == p[1]);
        }
    }
}

/// A single normal path component: not empty, without separator, and
/// neither `.` nor `..`.
pub open spec fn is_normal_component(name: Seq<char>) -> bool {
    &&& name.len() > 0
    &&& forall|i: int| 0 <= i < name.len() ==> name[i] != '/'
    &&& name != seq!['.']
    &&& name != seq!['.', '.']
}

/// The last separator of `x + name`, for a `name` without separators and an
/// `x` that is empty or ends in a separator.
proof fn lemma_last_separator(x: Seq<char>, name: Seq<char>)
    requires
        x.len() == 0 || x.last() == '/',
        forall|i: int| 0 <= i < name.len() ==> name[i] != '/',
    ensures
        rfind(x + name, seq!['/']) == (if x.len() > 0 {
            Some(x.len() - 1)
        } else {
            None::<int>
        }),
{
    let p = x + name;
    let slash = seq!['/'];
    lemma_rfind_at_most(p, slash, p.len() - 1);
    assert forall|j: int| x.len() <= j < p.len() implies !occurs_at(p, slash, j) by {
        assert(p[j] == name[j - x.len()]);
        if occurs_at(p, slash, j) {
            assert(p.subrange(j, j + 1)[0] == p[j]);
        }
    }
    if x.len() > 0 {
        assert(p[x.len() - 1] == x.last());
        assert(p.subrange(x.len() - 1, x.len() as int) =~= slash);
        assert(occurs_at(p, slash, x.len() - 1));
    }
}

/// Joining a normal component onto any path makes it the final component.
pub proof fn law_file_name_of_join(base: Seq<char>, name: Seq<char>)
    requires
        is_normal_component(name),
    ensures
        file_name(path_join(base, name)) == Some(name),
{
    let x = if base.len() == 0 || base.last() == '/' {
        base
    } else {
        base + seq!['/']
    };
    let p = path_join(base, name);
    assert(p =~= x + name);
    assert(p.last() == name.last());
    assert(name.last() == name[name.len() - 1]);
    lemma_last_separator(x, name);
    assert(p.skip(x.len() as int) =~= name);
}

} // verus!
