//! The search path: the directories in which a command name is looked up,
//! and the lookup itself.

use crate::text::{chars_of, string_of};
use crate::tokenizer::{char_views, string_views};
use vstd::prelude::*;

verus! {

/// The fields of `s` between colons, in order, empty ones included.
pub open spec fn split_fields(s: Seq<char>) -> Seq<Seq<char>>
    decreases s.len(),
{
    if s.len() == 0 {
        seq![seq![]]
    } else {
        let init = split_fields(s.drop_last());
        if s.last() == ':' {
            init.push(seq![])
        } else {
            init.update(init.len() - 1, init.last().push(s.last()))
        }
    }
}

/// The directories that a search path names: none for an empty value.
pub open spec fn search_dirs(path_var: Seq<char>) -> Seq<Seq<char>> {
    if path_var.len() == 0 {
        seq![]
    } else {
        split_fields(path_var)
    }
}

/// `name` taken relative to `dir`: an absolute name stands alone, and a
/// separator goes between the two unless `dir` is empty or ends in one.
pub open spec fn joined_path(dir: Seq<char>, name: Seq<char>) -> Seq<char> {
    if name.len() > 0 && name[0] == '/' {
        name
    } else if dir.len() == 0 {
        name
    } else if dir.last() == '/' {
        dir + name
    } else {
        dir + seq!['/'] + name
    }
}

/// The paths at which `name` is looked for, in the order of the search path.
pub open spec fn candidates(name: Seq<char>, path_var: Seq<char>) -> Seq<Seq<char>> {
    search_dirs(path_var).map_values(|d: Seq<char>| joined_path(d, name))
}

/// A call of the probe `f` on the path `p` answered `b`.
pub open spec fn probe_said<F: Fn(&str) -> bool>(f: F, p: Seq<char>, b: bool) -> bool {
    exists|x: &str| x@ == p && call_ensures(f, (x,), b)
}

/// The probe said no to each path before index `i` of `paths`, and yes to the
/// one at `i`.
pub open spec fn found_first<F: Fn(&str) -> bool>(f: F, paths: Seq<Seq<char>>, i: int) -> bool {
    &&& 0 <= i < paths.len()
    &&& probe_said(f, paths[i], true)
    &&& forall|k: int| 0 <= k < i ==> probe_said(f, #[trigger] paths[k], false)
}

/// The probe said no to every path of `paths`.
pub open spec fn found_none<F: Fn(&str) -> bool>(f: F, paths: Seq<Seq<char>>) -> bool {
    forall|k: int| 0 <= k < paths.len() ==> probe_said(f, #[trigger] paths[k], false)
}

/// The directories of the search path `path_var`, in order.
pub fn env_paths(path_var: &str) -> (r: Vec<String>)
    ensures
        string_views(r@) == search_dirs(path_var@),
{
    let s = chars_of(path_var);
    if s.len() == 0 {
        let r: Vec<String> = Vec::new();
        assert(string_views(r@) =~= seq![]);
        return r;
    }
    let mut fields: Vec<Vec<char>> = Vec::new();
    let mut current: Vec<char> = Vec::new();
    let mut i: usize = 0;
    assert(s@.take(0) =~= seq![]);
    assert(char_views(fields@).push(current@) =~= seq![seq![]]);
    while i < s.len()
        invariant
            i <= s.len(),
            split_fields(s@.take(i as int)) == char_views(fields@).push(current@),
        decreases s.len() - i,
    {
        let c = s[i];
        assert(s@.take(i + 1).drop_last() =~= s@.take(i as int));
        if c == ':' {
            let ghost done = fields@;
            let ghost finished = current@;
            fields.push(current);
            current = Vec::new();
            assert(char_views(fields@).push(current@) =~= char_views(done).push(finished).push(
                seq![],
            ));
        } else {
            let ghost before = current@;
            current.push(c);
            assert(char_views(fields@).push(current@) =~= char_views(fields@).push(before).update(
                fields@.len() as int,
                before.push(c),
            ));
        }
        i = i + 1;
    }
    assert(s@.take(s.len() as int) =~= s@);
    let ghost done = fields@;
    let ghost finished = current@;
    fields.push(current);
    assert(char_views(fields@) =~= char_views(done).push(finished));
    let mut out: Vec<String> = Vec::new();
    let mut k: usize = 0;
    while k < fields.len()
        invariant
            k <= fields.len(),
            out@.len() == k,
            forall|j: int| 0 <= j < k ==> (#[trigger] out@[j])@ == fields@[j]@,
        decreases fields.len() - k,
    {
        out.push(string_of(&fields[k]));
        k = k + 1;
    }
    assert(string_views(out@) =~= char_views(fields@));
    out
}

/// `name` taken relative to the directory `dir`.
pub fn join_path(dir: &str, name: &str) -> (r: String)
    ensures
        r@ == joined_path(dir@, name@),
{
    let d = chars_of(dir);
    let n = chars_of(name);
    if n.len() > 0 && n[0] == '/' {
        name.to_owned()
    } else if d.len() == 0 {
        name.to_owned()
    } else if d[d.len() - 1] == '/' {
        let mut r = dir.to_owned();
        r.append(name);
        r
    } else {
        let mut r = dir.to_owned();
        r.append("/");
        r.append(name);
        proof {
            reveal_strlit("/");
        }
        assert(r@ =~= dir@ + seq!['/'] + name@);
        r
    }
}

/// Looks `name` up on the search path `path_var`: the first of its
/// candidate paths that the probe `is_file` accepts, asking in order and
/// stopping at the first yes.
pub fn find_binary<F: Fn(&str) -> bool>(name: &str, path_var: &str, is_file: &F) -> (r: Option<
    String,
>)
    requires
        forall|p: &str| call_requires(*is_file, (p,)),
    ensures
        match r {
            Some(found) => exists|i: int|
                found_first(*is_file, candidates(name@, path_var@), i) && found@ == candidates(
                    name@,
                    path_var@,
                )[i],
            None => found_none(*is_file, candidates(name@, path_var@)),
        },
{
    let dirs = env_paths(path_var);
    let ghost cands = candidates(name@, path_var@);
    assert(cands.len() == dirs@.len());
    let mut i: usize = 0;
    while i < dirs.len()
        invariant
            i <= dirs.len(),
            cands == candidates(name@, path_var@),
            cands.len() == dirs@.len(),
            string_views(dirs@) == search_dirs(path_var@),
            forall|p: &str| call_requires(*is_file, (p,)),
            forall|k: int| 0 <= k < i ==> probe_said(*is_file, #[trigger] cands[k], false),
        decreases dirs.len() - i,
    {
        let path = join_path(dirs[i].as_str(), name);
        assert(path@ == cands[i as int]);
        let yes = is_file(path.as_str());
        if yes {
            assert(found_first(*is_file, cands, i as int));
            return Some(path);
        }
        i = i + 1;
    }
    None
}

} // verus!
