//! File names and extensions of Unix paths, taken from the path text alone.
//!
//! A path is read as its components: the maximal runs of characters between
//! `/` separators. Runs that are `.` stand for the current directory and are
//! passed over; the final remaining component is the file name, unless it is
//! `..`. The extension is what follows the last `.` of the file name, when
//! that `.` is not the name's first character.
use vstd::prelude::*;
use vstd::string::StrSliceExecFns;

verus! {

broadcast use vstd::string::group_string_axioms;

/// `p[s..e]` is a component of `p`: a maximal non-empty run of characters
/// other than the separator `/`.
pub open spec fn is_component(p: Seq<char>, s: int, e: int) -> bool {
    &&& 0 <= s < e <= p.len()
    &&& (s == 0 || p[s - 1] == '/')
    &&& (e == p.len() || p[e] == '/')
    &&& forall|k: int| s <= k < e ==> p[k] != '/'
}

/// The component `.`, which names the current directory.
pub open spec fn is_cur_dir(c: Seq<char>) -> bool {
    c == seq!['.']
}

/// The component `..`, which names the parent directory.
pub open spec fn is_parent_dir(c: Seq<char>) -> bool {
    c == seq!['.', '.']
}

/// `p[s..e]` is the last component of `p` that is not `.`: every component
/// that follows it is `.`.
pub open spec fn is_final_component(p: Seq<char>, s: int, e: int) -> bool {
    &&& is_component(p, s, e)
    &&& !is_cur_dir(p.subrange(s, e))
    &&& forall|s2: int, e2: int|
        #![trigger is_component(p, s2, e2)]
        is_component(p, s2, e2) && e <= s2 ==> is_cur_dir(p.subrange(s2, e2))
}

/// The file name of `p`: its final component, unless there is none or it is
/// `..`.
pub open spec fn file_name(p: Seq<char>) -> Option<Seq<char>> {
    if exists|s: int, e: int| is_final_component(p, s, e) {
        let (s, e) = choose|s: int, e: int| is_final_component(p, s, e);
        if is_parent_dir(p.subrange(s, e)) {
            None
        } else {
            Some(p.subrange(s, e))
        }
    } else {
        None
    }
}

/// `name[d]` is the last `.` of `name`.
pub open spec fn is_last_dot(name: Seq<char>, d: int) -> bool {
    &&& 0 <= d < name.len()
    &&& name[d] == '.'
    &&& forall|k: int| d < k < name.len() ==> name[k] != '.'
}

/// The extension of a file name: the text after its last `.`, provided that
/// `.` is not the first character of the name.
pub open spec fn name_extension(name: Seq<char>) -> Option<Seq<char>> {
    if exists|d: int| 0 < d && is_last_dot(name, d) {
        let d = choose|d: int| 0 < d && is_last_dot(name, d);
        Some(name.subrange(d + 1, name.len() as int))
    } else {
        None
    }
}

/// The extension of the path `p`, the extension of its file name.
pub open spec fn path_extension(p: Seq<char>) -> Option<Seq<char>> {
    match file_name(p) {
        Some(name) => name_extension(name),
        None => None,
    }
}

/// Two components are either the same run, or the earlier one ends before
/// the later one starts.
proof fn lemma_components_ordered(p: Seq<char>, s1: int, e1: int, s2: int, e2: int)
    requires
        is_component(p, s1, e1),
        is_component(p, s2, e2),
        s1 <= s2,
    ensures
        s1 == s2 ==> e1 == e2,
        s1 < s2 ==> e1 < s2,
{
    if s1 < s2 {
        assert(p[s2 - 1] == '/');
        if s2 - 1 < e1 {
            assert(p[s2 - 1] != '/');
        }
    } else {
        if e1 < e2 {
            assert(p[e1] == '/');
            assert(p[e1] != '/');
        }
        if e2 < e1 {
            assert(p[e2] == '/');
            assert(p[e2] != '/');
        }
    }
}

/// A path has at most one final component.
proof fn lemma_final_component_unique(p: Seq<char>, s1: int, e1: int, s2: int, e2: int)
    requires
        is_final_component(p, s1, e1),
        is_final_component(p, s2, e2),
    ensures
        s1 == s2,
        e1 == e2,
{
    if s1 <= s2 {
        lemma_components_ordered(p, s1, e1, s2, e2);
        if s1 < s2 {
            assert(is_component(p, s2, e2));
        }
    } else {
        lemma_components_ordered(p, s2, e2, s1, e1);
        assert(is_component(p, s1, e1));
    }
}

/// A name has at most one last `.`.
proof fn lemma_last_dot_unique(name: Seq<char>, d1: int, d2: int)
    requires
        is_last_dot(name, d1),
        is_last_dot(name, d2),
    ensures
        d1 == d2,
{
    if d1 < d2 {
        assert(name[d2] == '.');
    }
    if d2 < d1 {
        assert(name[d1] == '.');
    }
}

/// Appending a separator to `p` neither adds nor changes a component.
proof fn lemma_trailing_separator_components(p: Seq<char>, s: int, e: int)
    ensures
        is_component(p.push('/'), s, e) <==> is_component(p, s, e),
        is_component(p, s, e) ==> p.push('/').subrange(s, e) == p.subrange(s, e),
{
    let q = p.push('/');
    if is_component(q, s, e) {
        if e == q.len() {
            assert(q[e - 1] != '/');
        }
        assert forall|k: int| s <= k < e implies p[k] != '/' by {
            assert(q[k] != '/');
        }
        if s > 0 {
            assert(q[s - 1] == p[s - 1]);
        }
        if e < p.len() {
            assert(q[e] == p[e]);
        }
    }
    if is_component(p, s, e) {
        assert forall|k: int| s <= k < e implies q[k] != '/' by {
            assert(p[k] != '/');
        }
        if s > 0 {
            assert(q[s - 1] == p[s - 1]);
        }
        if e < p.len() {
            assert(q[e] == p[e]);
        }
        assert(q.subrange(s, e) =~= p.subrange(s, e));
    }
}

/// Appending a separator to `p` keeps its final component.
proof fn lemma_trailing_separator_final(p: Seq<char>, s: int, e: int)
    ensures
        is_final_component(p.push('/'), s, e) <==> is_final_component(p, s, e),
{
    let q = p.push('/');
    lemma_trailing_separator_components(p, s, e);
    if is_final_component(q, s, e) {
        assert forall|s2: int, e2: int|
            #![trigger is_component(p, s2, e2)]
            is_component(p, s2, e2) && e <= s2 implies is_cur_dir(p.subrange(s2, e2)) by {
            lemma_trailing_separator_components(p, s2, e2);
        }
    }
    if is_final_component(p, s, e) {
        assert forall|s2: int, e2: int|
            #![trigger is_component(q, s2, e2)]
            is_component(q, s2, e2) && e <= s2 implies is_cur_dir(q.subrange(s2, e2)) by {
            lemma_trailing_separator_components(p, s2, e2);
        }
    }
}

/// Law: trailing separators do not change a path's file name or extension;
/// `dir/report.pdf/` has the extension of `dir/report.pdf`.
pub proof fn lemma_trailing_separator_keeps_extension(p: Seq<char>)
    ensures
        file_name(p.push('/')) == file_name(p),
        path_extension(p.push('/')) == path_extension(p),
{
    let q = p.push('/');
    if exists|s: int, e: int| is_final_component(p, s, e) {
        let (s, e) = choose|s: int, e: int| is_final_component(p, s, e);
        lemma_trailing_separator_final(p, s, e);
        let (s2, e2) = choose|s2: int, e2: int| is_final_component(q, s2, e2);
        lemma_trailing_separator_final(p, s2, e2);
        lemma_final_component_unique(p, s, e, s2, e2);
        lemma_trailing_separator_components(p, s, e);
    } else {
        if exists|s: int, e: int| is_final_component(q, s, e) {
            let (s, e) = choose|s: int, e: int| is_final_component(q, s, e);
            lemma_trailing_separator_final(p, s, e);
        }
    }
}

/// `p` and `q` have the same length, and their separators and dots stand at
/// the same positions.
pub open spec fn same_separators(p: Seq<char>, q: Seq<char>) -> bool {
    &&& p.len() == q.len()
    &&& forall|k: int|
        0 <= k < p.len() ==> ((p[k] == '/') == (q[k] == '/') && (p[k] == '.') == (q[k] == '.'))
}

/// `.` and `..`, character by character.
proof fn lemma_dot_components(c: Seq<char>)
    ensures
        is_cur_dir(c) <==> (c.len() == 1 && c[0] == '.'),
        is_parent_dir(c) <==> (c.len() == 2 && c[0] == '.' && c[1] == '.'),
{
    let one = seq!['.'];
    let two = seq!['.', '.'];
    assert(one.len() == 1 && one[0] == '.');
    assert(two.len() == 2 && two[0] == '.' && two[1] == '.');
    if c.len() == 1 && c[0] == '.' {
        assert(c =~= one);
    }
    if c.len() == 2 && c[0] == '.' && c[1] == '.' {
        assert(c =~= two);
    }
}

/// Paths with the same separators and dots have the same components, and
/// the same `.` and `..` components among them.
proof fn lemma_same_separators_components(p: Seq<char>, q: Seq<char>, s: int, e: int)
    requires
        same_separators(p, q),
    ensures
        is_component(p, s, e) <==> is_component(q, s, e),
        is_component(p, s, e) ==> (is_cur_dir(p.subrange(s, e)) <==> is_cur_dir(
            q.subrange(s, e),
        )),
        is_component(p, s, e) ==> (is_parent_dir(p.subrange(s, e)) <==> is_parent_dir(
            q.subrange(s, e),
        )),
{
    if is_component(p, s, e) {
        assert forall|k: int| s <= k < e implies q[k] != '/' by {
            assert(p[k] != '/');
        }
        if s > 0 {
            assert(p[s - 1] == '/');
        }
        if e < p.len() {
            assert(p[e] == '/');
        }
    }
    if is_component(q, s, e) {
        assert forall|k: int| s <= k < e implies p[k] != '/' by {
            assert(q[k] != '/');
        }
        if s > 0 {
            assert(q[s - 1] == '/');
        }
        if e < p.len() {
            assert(q[e] == '/');
        }
    }
    if is_component(p, s, e) {
        let a = p.subrange(s, e);
        let b = q.subrange(s, e);
        lemma_dot_components(a);
        lemma_dot_components(b);
        if a.len() >= 1 {
            assert(a[0] == p[s] && b[0] == q[s]);
        }
        if a.len() >= 2 {
            assert(a[1] == p[s + 1] && b[1] == q[s + 1]);
        }
    }
}

/// Paths with the same separators and dots have the same final component.
proof fn lemma_same_separators_final(p: Seq<char>, q: Seq<char>, s: int, e: int)
    requires
        same_separators(p, q),
    ensures
        is_final_component(p, s, e) <==> is_final_component(q, s, e),
{
    lemma_same_separators_components(p, q, s, e);
    if is_final_component(p, s, e) {
        assert forall|s2: int, e2: int|
            #![trigger is_component(q, s2, e2)]
            is_component(q, s2, e2) && e <= s2 implies is_cur_dir(q.subrange(s2, e2)) by {
            lemma_same_separators_components(p, q, s2, e2);
        }
    }
    if is_final_component(q, s, e) {
        assert forall|s2: int, e2: int|
            #![trigger is_component(p, s2, e2)]
            is_component(p, s2, e2) && e <= s2 implies is_cur_dir(p.subrange(s2, e2)) by {
            lemma_same_separators_components(p, q, s2, e2);
        }
    }
}

/// Paths with the same separators and dots either both have an extension or
/// both lack one; when they have one, it stands at the same positions
/// `span` in both.
pub proof fn lemma_same_separators_extension(p: Seq<char>, q: Seq<char>) -> (span: (int, int))
    requires
        same_separators(p, q),
    ensures
        path_extension(p) is None <==> path_extension(q) is None,
        path_extension(p) is Some ==> 0 <= span.0 <= span.1 <= p.len() && path_extension(p)
            == Some(p.subrange(span.0, span.1)) && path_extension(q) == Some(
            q.subrange(span.0, span.1),
        ),
{
    if exists|s: int, e: int| is_final_component(p, s, e) {
        let (s, e) = choose|s: int, e: int| is_final_component(p, s, e);
        lemma_same_separators_final(p, q, s, e);
        let (s2, e2) = choose|s2: int, e2: int| is_final_component(q, s2, e2);
        lemma_same_separators_final(p, q, s2, e2);
        lemma_final_component_unique(p, s, e, s2, e2);
        lemma_same_separators_components(p, q, s, e);
        let a = p.subrange(s, e);
        let b = q.subrange(s, e);
        if is_parent_dir(a) {
            return (0, 0);
        }
        assert(file_name(p) == Some(a));
        assert(file_name(q) == Some(b));
        assert forall|d: int| is_last_dot(a, d) <==> is_last_dot(b, d) by {
            if 0 <= d < a.len() {
                assert(a[d] == p[s + d] && b[d] == q[s + d]);
                assert forall|k: int| d < k < a.len() implies (a[k] == '.') == (b[k] == '.') by {
                    assert(a[k] == p[s + k] && b[k] == q[s + k]);
                }
            }
        }
        if exists|d: int| 0 < d && is_last_dot(a, d) {
            let d = choose|d: int| 0 < d && is_last_dot(a, d);
            let d2 = choose|d2: int| 0 < d2 && is_last_dot(b, d2);
            lemma_last_dot_unique(b, d, d2);
            assert(a.subrange(d + 1, a.len() as int) =~= p.subrange(s + d + 1, e));
            assert(b.subrange(d + 1, b.len() as int) =~= q.subrange(s + d + 1, e));
            return (s + d + 1, e);
        } else {
            return (0, 0);
        }
    } else {
        if exists|s: int, e: int| is_final_component(q, s, e) {
            let (s, e) = choose|s: int, e: int| is_final_component(q, s, e);
            lemma_same_separators_final(p, q, s, e);
        }
        (0, 0)
    }
}

/// Law: a path whose last part is a name `stem.ext`, after nothing or after a
/// separator, has the extension `ext`, when the stem is not empty and holds
/// no separator, and `ext` is not empty and holds neither separator nor dot.
pub proof fn lemma_extension_of_named_file(
    prefix: Seq<char>,
    stem: Seq<char>,
    ext: Seq<char>,
)
    requires
        prefix.len() == 0 || prefix.last() == '/',
        stem.len() > 0,
        ext.len() > 0,
        forall|k: int| 0 <= k < stem.len() ==> stem[k] != '/',
        forall|k: int| 0 <= k < ext.len() ==> ext[k] != '/' && ext[k] != '.',
    ensures
        path_extension(prefix + stem + seq!['.'] + ext) == Some(ext),
{
    let name = stem + seq!['.'] + ext;
    let p = prefix + name;
    assert(p =~= prefix + stem + seq!['.'] + ext);
    let s = prefix.len() as int;
    let e = p.len() as int;
    assert forall|k: int| s <= k < e implies p[k] != '/' by {
        assert(p[k] == name[k - s]);
        if k - s < stem.len() {
            assert(name[k - s] == stem[k - s]);
        } else if k - s > stem.len() {
            assert(name[k - s] == ext[k - s - stem.len() - 1]);
        }
    }
    if s > 0 {
        assert(p[s - 1] == prefix.last());
    }
    assert(p.subrange(s, e) =~= name);
    lemma_dot_components(name);
    assert(is_component(p, s, e));
    assert(is_final_component(p, s, e));
    let (s1, e1) = choose|s1: int, e1: int| is_final_component(p, s1, e1);
    lemma_final_component_unique(p, s1, e1, s, e);
    assert(file_name(p) == Some(name));
    let d = stem.len() as int;
    assert(name[d] == '.');
    assert forall|k: int| d < k < name.len() implies name[k] != '.' by {
        assert(name[k] == ext[k - d - 1]);
    }
    assert(is_last_dot(name, d));
    let d1 = choose|d1: int| 0 < d1 && is_last_dot(name, d1);
    lemma_last_dot_unique(name, d1, d);
    assert(name.subrange(d + 1, name.len() as int) =~= ext);
}

/// Law: a hidden file's name, a dot followed by text with no dot or
/// separator, has no extension, after nothing or after a separator.
pub proof fn lemma_hidden_file_has_no_extension(prefix: Seq<char>, rest: Seq<char>)
    requires
        prefix.len() == 0 || prefix.last() == '/',
        rest.len() > 0,
        forall|k: int| 0 <= k < rest.len() ==> rest[k] != '/' && rest[k] != '.',
    ensures
        path_extension(prefix + seq!['.'] + rest) is None,
{
    let name = seq!['.'] + rest;
    let p = prefix + name;
    assert(p =~= prefix + seq!['.'] + rest);
    let s = prefix.len() as int;
    let e = p.len() as int;
    assert forall|k: int| s <= k < e implies p[k] != '/' by {
        assert(p[k] == name[k - s]);
        if k - s > 0 {
            assert(name[k - s] == rest[k - s - 1]);
        }
    }
    if s > 0 {
        assert(p[s - 1] == prefix.last());
    }
    assert(p.subrange(s, e) =~= name);
    lemma_dot_components(name);
    if name.len() == 2 {
        assert(name[1] == rest[0]);
    }
    assert(is_final_component(p, s, e));
    let (s1, e1) = choose|s1: int, e1: int| is_final_component(p, s1, e1);
    lemma_final_component_unique(p, s1, e1, s, e);
    assert(file_name(p) == Some(name));
    if exists|d: int| 0 < d && is_last_dot(name, d) {
        let d = choose|d: int| 0 < d && is_last_dot(name, d);
        assert(name[d] == rest[d - 1]);
    }
}

/// The characters of `s`, one by one.
pub(crate) fn chars_of(s: &str) -> (v: Vec<char>)
    ensures
        v@ == s@,
{
    let mut v: Vec<char> = Vec::new();
    for c in it: s.chars()
        invariant
            v@ == it.seq().take(it.index() as int),
    {
        v.push(c);
    }
    v
}

/// The positions `(s, e)` of the final component of `p`, if there is one and
/// it is not `..`.
fn file_name_span(p: &Vec<char>) -> (r: Option<(usize, usize)>)
    ensures
        match r {
            Some((s, e)) => is_final_component(p@, s as int, e as int) && !is_parent_dir(
                p@.subrange(s as int, e as int),
            ),
            None => forall|s: int, e: int|
                is_final_component(p@, s, e) ==> is_parent_dir(p@.subrange(s, e)),
        },
{
    let n = p.len();
    let mut end: usize = n;
    loop
        invariant
            end <= n,
            n == p@.len(),
            end == n || p@[end as int] == '/',
            forall|s2: int, e2: int|
                #![trigger is_component(p@, s2, e2)]
                is_component(p@, s2, e2) && end <= s2 ==> is_cur_dir(p@.subrange(s2, e2)),
        decreases end,
    {
        let ghost end0 = end;
        while end > 0 && p[end - 1] == '/'
            invariant
                end <= end0,
                end <= n,
                n == p@.len(),
                end == n || p@[end as int] == '/',
                forall|s2: int, e2: int|
                    #![trigger is_component(p@, s2, e2)]
                    is_component(p@, s2, e2) && end <= s2 ==> is_cur_dir(p@.subrange(s2, e2)),
            decreases end,
        {
            assert forall|s2: int, e2: int|
                #![trigger is_component(p@, s2, e2)]
                is_component(p@, s2, e2) && end - 1 <= s2 implies is_cur_dir(
                p@.subrange(s2, e2),
            ) by {
                if s2 == end - 1 {
                    assert(p@[s2] != '/');
                }
            }
            end = end - 1;
        }
        if end == 0 {
            assert forall|s: int, e: int|
                is_final_component(p@, s, e) implies is_parent_dir(p@.subrange(s, e)) by {
                assert(is_component(p@, s, e));
            }
            return None;
        }
        let mut start: usize = end;
        while start > 0 && p[start - 1] != '/'
            invariant
                start <= end,
                end <= n,
                n == p@.len(),
                forall|k: int| start <= k < end ==> p@[k] != '/',
            decreases start,
        {
            start = start - 1;
        }
        assert(p@[end - 1] != '/');
        assert(is_component(p@, start as int, end as int));
        let ghost comp = p@.subrange(start as int, end as int);
        if end - start == 1 && p[start] == '.' {
            assert(comp =~= seq!['.']);
            if start == 0 {
                assert forall|s: int, e: int|
                    is_final_component(p@, s, e) implies is_parent_dir(p@.subrange(s, e)) by {
                    assert(is_component(p@, s, e));
                    if s < start as int {
                        lemma_components_ordered(p@, s, e, start as int, end as int);
                    } else {
                        lemma_components_ordered(p@, start as int, end as int, s, e);
                    }
                }
                return None;
            }
            let ghost old_end = end;
            assert forall|s2: int, e2: int|
                #![trigger is_component(p@, s2, e2)]
                is_component(p@, s2, e2) && start - 1 <= s2 implies is_cur_dir(
                p@.subrange(s2, e2),
            ) by {
                if s2 < old_end {
                    if s2 == start - 1 {
                        assert(p@[s2] != '/');
                    } else {
                        lemma_components_ordered(p@, start as int, old_end as int, s2, e2);
                        if s2 > start {
                            assert(p@[s2 - 1] != '/');
                        }
                    }
                }
            }
            end = start - 1;
        } else if end - start == 2 && p[start] == '.' && p[start + 1] == '.' {
            assert(comp =~= seq!['.', '.']);
            assert(is_final_component(p@, start as int, end as int));
            assert forall|s: int, e: int|
                is_final_component(p@, s, e) implies is_parent_dir(p@.subrange(s, e)) by {
                lemma_final_component_unique(p@, s, e, start as int, end as int);
            }
            return None;
        } else {
            proof {
                if comp == seq!['.'] {
                    assert(comp.len() == 1 && comp[0] == '.');
                }
                if comp == seq!['.', '.'] {
                    assert(comp.len() == 2 && comp[0] == '.' && comp[1] == '.');
                }
            }
            return Some((start, end));
        }
    }
}

/// The position of the last `.` in `p[s..e]`, if there is one.
fn last_dot_in(p: &Vec<char>, s: usize, e: usize) -> (r: Option<usize>)
    requires
        s <= e <= p@.len(),
    ensures
        match r {
            Some(d) => s <= d < e && is_last_dot(
                p@.subrange(s as int, e as int),
                d - s,
            ),
            None => forall|k: int| s <= k < e ==> p@[k] != '.',
        },
{
    let mut i: usize = e;
    while i > s
        invariant
            s <= i <= e,
            e <= p@.len(),
            forall|k: int| i <= k < e ==> p@[k] != '.',
        decreases i,
    {
        if p[i - 1] == '.' {
            return Some(i - 1);
        }
        i = i - 1;
    }
    None
}

/// The extension of `path`, as the text after the last `.` of its file name.
pub fn extension(path: &str) -> (r: Option<&str>)
    ensures
        match r {
            Some(x) => path_extension(path@) == Some(x@),
            None => path_extension(path@) is None,
        },
{
    let p = chars_of(path);
    match file_name_span(&p) {
        None => {
            proof {
                if exists|s: int, e: int| is_final_component(p@, s, e) {
                    let (s, e) = choose|s: int, e: int| is_final_component(p@, s, e);
                    assert(is_parent_dir(p@.subrange(s, e)));
                }
            }
            None
        },
        Some((s, e)) => {
            let ghost name = p@.subrange(s as int, e as int);
            proof {
                let (s1, e1) = choose|s1: int, e1: int| is_final_component(p@, s1, e1);
                lemma_final_component_unique(p@, s1, e1, s as int, e as int);
                assert(file_name(p@) == Some(name));
            }
            match last_dot_in(&p, s, e) {
                Some(d) if d > s => {
                    proof {
                        let d1 = choose|d1: int| 0 < d1 && is_last_dot(name, d1);
                        lemma_last_dot_unique(name, d1, d - s);
                        assert(name.subrange(d - s + 1, name.len() as int) =~= p@.subrange(
                            d + 1,
                            e as int,
                        ));
                    }
                    Some(path.substring_char(d + 1, e))
                },
                Some(d) => {
                    proof {
                        if exists|d1: int| 0 < d1 && is_last_dot(name, d1) {
                            let d1 = choose|d1: int| 0 < d1 && is_last_dot(name, d1);
                            lemma_last_dot_unique(name, d1, d - s);
                        }
                    }
                    None
                },
                None => {
                    proof {
                        if exists|d1: int| 0 < d1 && is_last_dot(name, d1) {
                            let d1 = choose|d1: int| 0 < d1 && is_last_dot(name, d1);
                            assert(p@[s + d1] == '.');
                        }
                    }
                    None
                },
            }
        },
    }
}

} // verus!
