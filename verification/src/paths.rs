//! Paths as text: components, file names, extensions, prefixes and
//! joining, with `/` as the separator.
use vstd::prelude::*;

use crate::text::{
    chars_of, split_chars, split_on, string_from_chars, string_push, push_text, views,
};

verus! {

/// The single-character texts `"/"` (the root) and `"."` (the current
/// directory) as components.
pub open spec fn root_comp() -> Seq<char> {
    seq!['/']
}

pub open spec fn cur_comp() -> Seq<char> {
    seq!['.']
}

pub open spec fn parent_comp() -> Seq<char> {
    seq!['.', '.']
}

/// The pieces between separators that name something: not empty and not
/// `.`.
pub open spec fn normal_parts(pieces: Seq<Seq<char>>) -> Seq<Seq<char>>
    decreases pieces.len(),
{
    if pieces.len() == 0 {
        seq![]
    } else {
        let prev = normal_parts(pieces.drop_last());
        let p = pieces.last();
        if p.len() == 0 || p == cur_comp() {
            prev
        } else {
            prev.push(p)
        }
    }
}

/// The components of a path: a root `/` when it starts with a separator,
/// a `.` when it starts with the current directory, then its named pieces.
pub open spec fn components(s: Seq<char>) -> Seq<Seq<char>> {
    let lead = if s.len() > 0 && s[0] == '/' {
        seq![root_comp()]
    } else if s == cur_comp() || (s.len() > 1 && s[0] == '.' && s[1] == '/') {
        seq![cur_comp()]
    } else {
        seq![]
    };
    lead + normal_parts(split_on(s, '/'))
}

/// Joining pieces with `sep` between them.
pub open spec fn join_with(parts: Seq<Seq<char>>, sep: char) -> Seq<char>
    decreases parts.len(),
{
    if parts.len() == 0 {
        seq![]
    } else if parts.len() == 1 {
        parts[0]
    } else {
        join_with(parts.drop_last(), sep) + seq![sep] + parts.last()
    }
}

/// The text of a path made of `comps`.
pub open spec fn render(comps: Seq<Seq<char>>) -> Seq<char> {
    if comps.len() > 0 && comps[0] == root_comp() {
        root_comp() + join_with(comps.drop_first(), '/')
    } else {
        join_with(comps, '/')
    }
}

/// The last component of a path, when it names a file or directory.
pub open spec fn file_name_of(s: Seq<char>) -> Option<Seq<char>> {
    let c = components(s);
    if c.len() == 0 || c.last() == root_comp() || c.last() == cur_comp() || c.last()
        == parent_comp() {
        None
    } else {
        Some(c.last())
    }
}

/// The index of the last `.` in `s`, or -1.
pub open spec fn last_dot(s: Seq<char>) -> int
    decreases s.len(),
{
    if s.len() == 0 {
        -1
    } else if s.last() == '.' {
        s.len() - 1
    } else {
        last_dot(s.drop_last())
    }
}

/// The extension of a path: what follows the last `.` of its file name,
/// unless that dot starts the name or there is none.
pub open spec fn extension_of(s: Seq<char>) -> Option<Seq<char>> {
    match file_name_of(s) {
        Some(name) => {
            let k = last_dot(name);
            if k <= 0 {
                None
            } else {
                Some(name.skip(k + 1))
            }
        },
        None => None,
    }
}

/// `path` relative to `base`: the components of `path` after those of
/// `base`, when `base`'s components begin `path`'s.
pub open spec fn relative_to(path: Seq<char>, base: Seq<char>) -> Option<Seq<char>> {
    let pc = components(path);
    let bc = components(base);
    if bc.len() <= pc.len() && pc.take(bc.len() as int) == bc {
        Some(render(pc.skip(bc.len() as int)))
    } else {
        None
    }
}

/// Joining a path and a component the way `PathBuf::join` does: an
/// absolute component replaces the path; otherwise a separator is added
/// unless the path is empty or already ends with one.
pub open spec fn joined(base: Seq<char>, comp: Seq<char>) -> Seq<char> {
    if comp.len() > 0 && comp[0] == '/' {
        comp
    } else if base.len() == 0 {
        comp
    } else if base.last() == '/' {
        base + comp
    } else {
        base + seq!['/'] + comp
    }
}

/// Every backslash replaced by a forward slash.
pub open spec fn forward_slashes(s: Seq<char>) -> Seq<char> {
    s.map_values(|c: char| if c == '\\' { '/' } else { c })
}

fn keep_normal(pieces: &Vec<String>) -> (r: Vec<String>)
    ensures
        views(r@) == normal_parts(views(pieces@)),
{
    let mut r: Vec<String> = Vec::new();
    let mut i: usize = 0;
    assert(views(pieces@).take(0) =~= Seq::<Seq<char>>::empty());
    assert(views(r@) =~= Seq::<Seq<char>>::empty());
    while i < pieces.len()
        invariant
            0 <= i <= pieces@.len(),
            views(r@) == normal_parts(views(pieces@).take(i as int)),
        decreases pieces@.len() - i,
    {
        let p = pieces[i].as_str();
        let pc = chars_of(p);
        assert(views(pieces@).take(i + 1).drop_last() =~= views(pieces@).take(i as int));
        assert(views(pieces@).take(i + 1).last() == pc@);
        let is_cur = pc.len() == 1 && pc[0] == '.';
        assert(is_cur <==> pc@ == cur_comp()) by {
            if pc@.len() == 1 && pc@[0] == '.' {
                assert(pc@ =~= cur_comp());
            }
        }
        if !(pc.len() == 0 || is_cur) {
            let ghost r0 = r@;
            r.push(string_from_chars(&pc));
            assert(views(r@) =~= views(r0).push(pc@));
        }
        i = i + 1;
    }
    assert(views(pieces@).take(pieces@.len() as int) =~= views(pieces@));
    r
}

/// The components of a path (see [`components`]).
pub fn path_components(s: &str) -> (r: Vec<String>)
    ensures
        views(r@) == components(s@),
{
    let cs = chars_of(s);
    let pieces = split_chars(&cs, '/');
    let normal = keep_normal(&pieces);
    let mut r: Vec<String> = Vec::new();
    if cs.len() > 0 && cs[0] == '/' {
        let v = vec!['/'];
        assert(v@ =~= root_comp());
        let x = string_from_chars(&v);
        r.push(x);
        assert(views(r@) =~= seq![x@]);
    } else if (cs.len() == 1 && cs[0] == '.') || (cs.len() > 1 && cs[0] == '.' && cs[1] == '/') {
        let v = vec!['.'];
        assert(v@ =~= cur_comp());
        let x = string_from_chars(&v);
        r.push(x);
        assert(views(r@) =~= seq![x@]);
        assert(cs@.len() == 1 && cs@[0] == '.' ==> cs@ =~= cur_comp());
    } else {
        assert(views(r@) =~= Seq::<Seq<char>>::empty());
        assert(cs@ != cur_comp());
    }
    let ghost lead = views(r@);
    let mut i: usize = 0;
    while i < normal.len()
        invariant
            0 <= i <= normal@.len(),
            views(r@) == lead + views(normal@).take(i as int),
        decreases normal@.len() - i,
    {
        let ghost r0 = r@;
        r.push(string_from_chars(&chars_of(normal[i].as_str())));
        assert(views(r@) =~= views(r0).push(normal@[i as int]@));
        assert(views(normal@).take(i + 1) =~= views(normal@).take(i as int).push(normal@[i as int]@));
        i = i + 1;
    }
    assert(views(normal@).take(normal@.len() as int) =~= views(normal@));
    r
}

fn join_parts(parts: &Vec<String>, from: usize) -> (r: String)
    requires
        from <= parts@.len(),
    ensures
        r@ == join_with(views(parts@).skip(from as int), '/'),
{
    let mut r = String::new();
    let mut i: usize = from;
    assert(views(parts@).subrange(from as int, from as int) =~= Seq::<Seq<char>>::empty());
    while i < parts.len()
        invariant
            from <= i <= parts@.len(),
            r@ == join_with(views(parts@).subrange(from as int, i as int), '/'),
        decreases parts@.len() - i,
    {
        let ghost before = r@;
        if i > from {
            string_push(&mut r, '/');
        }
        push_text(&mut r, parts[i].as_str());
        proof {
            let vs = views(parts@).subrange(from as int, i + 1);
            assert(vs.drop_last() =~= views(parts@).subrange(from as int, i as int));
            assert(vs.last() == parts@[i as int]@);
            if i == from {
                assert(before =~= Seq::<char>::empty());
                assert(r@ =~= vs[0]);
            }
        }
        i = i + 1;
    }
    assert(views(parts@).subrange(from as int, parts@.len() as int) =~= views(parts@).skip(
        from as int,
    ));
    r
}

/// Renders components as a path (see [`render`]).
pub fn render_components(comps: &Vec<String>, from: usize) -> (r: String)
    requires
        from <= comps@.len(),
    ensures
        r@ == render(views(comps@).skip(from as int)),
{
    let ghost c = views(comps@).skip(from as int);
    if from < comps.len() {
        let first = chars_of(comps[from].as_str());
        if first.len() == 1 && first[0] == '/' {
            assert(first@ =~= root_comp());
            assert(c[0] == first@);
            let rest = join_parts(comps, from + 1);
            assert(views(comps@).skip(from + 1) =~= c.drop_first());
            let mut r = String::new();
            string_push(&mut r, '/');
            push_text(&mut r, rest.as_str());
            assert(r@ =~= root_comp() + rest@);
            return r;
        }
        assert(c[0] == first@);
        assert(first@ != root_comp()) by {
            if first@ == root_comp() {
                assert(first@.len() == 1 && first@[0] == '/');
            }
        }
    }
    join_parts(comps, from)
}

/// The last component of a path, when it names something (see
/// [`file_name_of`]).
pub fn file_name(s: &str) -> (r: Option<String>)
    ensures
        match file_name_of(s@) {
            Some(n) => r matches Some(x) && x@ == n,
            None => r is None,
        },
{
    let comps = path_components(s);
    if comps.len() == 0 {
        return None;
    }
    let last = chars_of(comps[comps.len() - 1].as_str());
    let ghost lv = views(comps@).last();
    assert(lv == last@);
    let is_root = last.len() == 1 && last[0] == '/';
    let is_cur = last.len() == 1 && last[0] == '.';
    let is_parent = last.len() == 2 && last[0] == '.' && last[1] == '.';
    assert(is_root <==> last@ == root_comp()) by {
        if last@.len() == 1 && last@[0] == '/' {
            assert(last@ =~= root_comp());
        }
    }
    assert(is_cur <==> last@ == cur_comp()) by {
        if last@.len() == 1 && last@[0] == '.' {
            assert(last@ =~= cur_comp());
        }
    }
    assert(is_parent <==> last@ == parent_comp()) by {
        if last@.len() == 2 && last@[0] == '.' && last@[1] == '.' {
            assert(last@ =~= parent_comp());
        }
    }
    if is_root || is_cur || is_parent {
        None
    } else {
        Some(string_from_chars(&last))
    }
}

fn find_last_dot(s: &[char]) -> (r: usize)
    ensures
        r as int == last_dot(s@) + 1,
        r <= s@.len(),
{
    let mut j: usize = s.len();
    assert(s@.take(j as int) =~= s@);
    while j > 0 && s[j - 1] != '.'
        invariant
            0 <= j <= s@.len(),
            last_dot(s@) == last_dot(s@.take(j as int)),
        decreases j,
    {
        assert(s@.take(j as int).drop_last() =~= s@.take(j - 1));
        j = j - 1;
    }
    assert(j == 0 ==> s@.take(0) =~= Seq::<char>::empty());
    j
}

/// The extension of a path (see [`extension_of`]).
pub fn extension(s: &str) -> (r: Option<String>)
    ensures
        match extension_of(s@) {
            Some(e) => r matches Some(x) && x@ == e,
            None => r is None,
        },
{
    match file_name(s) {
        None => None,
        Some(name) => {
            let nc = chars_of(name.as_str());
            let after = find_last_dot(&nc);
            if after <= 1 {
                None
            } else {
                let mut out: Vec<char> = Vec::new();
                let mut i: usize = after;
                while i < nc.len()
                    invariant
                        after <= i <= nc@.len(),
                        out@ == nc@.subrange(after as int, i as int),
                    decreases nc@.len() - i,
                {
                    out.push(nc[i]);
                    assert(nc@.subrange(after as int, i as int).push(nc@[i as int]) =~= nc@.subrange(
                        after as int,
                        i + 1,
                    ));
                    i = i + 1;
                }
                assert(nc@.subrange(after as int, nc@.len() as int) =~= nc@.skip(after as int));
                Some(string_from_chars(&out))
            }
        },
    }
}

fn same_text(a: &String, b: &String) -> (r: bool)
    ensures
        r == (a@ == b@),
{
    a.eq(b)
}

/// `path` relative to `base` (see [`relative_to`]).
pub fn strip_prefix(path: &str, base: &str) -> (r: Option<String>)
    ensures
        match relative_to(path@, base@) {
            Some(x) => r matches Some(y) && y@ == x,
            None => r is None,
        },
{
    let pc = path_components(path);
    let bc = path_components(base);
    if bc.len() > pc.len() {
        return None;
    }
    let mut i: usize = 0;
    while i < bc.len()
        invariant
            0 <= i <= bc@.len() <= pc@.len(),
            views(pc@) == components(path@),
            views(bc@) == components(base@),
            forall|k: int| 0 <= k < i ==> views(pc@)[k] == views(bc@)[k],
        decreases bc@.len() - i,
    {
        let same = same_text(&pc[i], &bc[i]);
        assert(views(pc@)[i as int] == pc@[i as int]@);
        assert(views(bc@)[i as int] == bc@[i as int]@);
        if !same {
            assert(views(pc@).take(bc@.len() as int)[i as int] != views(bc@)[i as int]);
            assert(views(pc@).take(bc@.len() as int) != views(bc@));
            return None;
        }
        i = i + 1;
    }
    assert(views(pc@).take(bc@.len() as int) =~= views(bc@));
    Some(render_components(&pc, bc.len()))
}

/// Joins a path and a component (see [`joined`]).
pub fn join_path(base: &str, comp: &str) -> (r: String)
    ensures
        r@ == joined(base@, comp@),
{
    let bc = chars_of(base);
    let cc = chars_of(comp);
    let mut r = String::new();
    if cc.len() > 0 && cc[0] == '/' {
        push_text(&mut r, comp);
        assert(r@ =~= comp@);
        return r;
    }
    if bc.len() > 0 {
        push_text(&mut r, base);
        if bc[bc.len() - 1] != '/' {
            string_push(&mut r, '/');
        }
    }
    push_text(&mut r, comp);
    assert(bc@.len() == 0 ==> r@ =~= comp@);
    r
}

/// Replaces every backslash by a forward slash.
pub fn to_forward_slashes(s: &str) -> (r: String)
    ensures
        r@ == forward_slashes(s@),
{
    let cs = chars_of(s);
    let mut out: Vec<char> = Vec::new();
    let mut i: usize = 0;
    while i < cs.len()
        invariant
            0 <= i <= cs@.len(),
            out@ == forward_slashes(cs@.take(i as int)),
        decreases cs@.len() - i,
    {
        let c = cs[i];
        out.push(if c == '\\' { '/' } else { c });
        assert(forward_slashes(cs@.take(i + 1)) =~= forward_slashes(cs@.take(i as int)).push(
            if c == '\\' { '/' } else { c },
        ));
        i = i + 1;
    }
    assert(cs@.take(cs@.len() as int) =~= cs@);
    string_from_chars(&out)
}

/// `path` starts with `base`: `base`'s components begin `path`'s.
pub open spec fn path_starts_with(path: Seq<char>, base: Seq<char>) -> bool {
    relative_to(path, base) is Some
}

/// Two paths have the same components.
pub open spec fn same_path_spec(a: Seq<char>, b: Seq<char>) -> bool {
    components(a) == components(b)
}

/// Compares two paths by their components (see [`same_path_spec`]).
pub fn same_path(a: &str, b: &str) -> (r: bool)
    ensures
        r == same_path_spec(a@, b@),
{
    let ac = path_components(a);
    let bc = path_components(b);
    if ac.len() != bc.len() {
        assert(views(ac@).len() != views(bc@).len());
        return false;
    }
    let mut i: usize = 0;
    while i < ac.len()
        invariant
            0 <= i <= ac@.len(),
            ac@.len() == bc@.len(),
            views(ac@) == components(a@),
            views(bc@) == components(b@),
            forall|k: int| 0 <= k < i ==> views(ac@)[k] == views(bc@)[k],
        decreases ac@.len() - i,
    {
        let same = same_text(&ac[i], &bc[i]);
        assert(views(ac@)[i as int] == ac@[i as int]@);
        assert(views(bc@)[i as int] == bc@[i as int]@);
        if !same {
            assert(views(ac@)[i as int] != views(bc@)[i as int]);
            return false;
        }
        i = i + 1;
    }
    assert(views(ac@) =~= views(bc@));
    true
}

} // verus!
