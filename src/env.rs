//! Environment composition: which entry of which layer lands where, and the
//! glue declarations gathered from the packages.
use vstd::prelude::*;
use crate::pkg::{Glue, GlueView};
use crate::run::{join_proper, relative_path};
use crate::text::{join_path, join_path_str, str_eq};

verus! {

/// The kind of an entry of a package tree.
#[derive(Debug, Clone, Copy, PartialEq, Eq, Structural)]
pub enum EntryKind {
    File,
    Symlink,
    Dir,
}

/// What the environment builder does for one entry.
#[derive(Debug, Clone, Copy, PartialEq, Eq, Structural)]
pub enum EnvAction {
    /// Hard-link the regular file into the environment.
    HardLink,
    /// Recreate the symlink with the same target.
    Symlink,
    /// Create the directory.
    CreateDir,
}

/// The action for a kind of entry that nothing earlier occupies.
pub open spec fn action_for(k: EntryKind) -> EnvAction {
    match k {
        EntryKind::File => EnvAction::HardLink,
        EntryKind::Symlink => EnvAction::Symlink,
        EntryKind::Dir => EnvAction::CreateDir,
    }
}

/// A path relative to a package root lies in the reserved metadata
/// directory `dpt`: its first component is `dpt`.
pub open spec fn is_meta_path(p: Seq<char>) -> bool {
    &&& p.len() >= 3
    &&& p[0] == 'd' && p[1] == 'p' && p[2] == 't'
    &&& (p.len() == 3 || p[3] == '/')
}

/// Whether a relative path lies in the metadata directory.
pub fn is_meta(p: &str) -> (r: bool)
    ensures
        r == is_meta_path(p@),
{
    let len = p.unicode_len();
    len >= 3 && p.get_char(0) == 'd' && p.get_char(1) == 'p' && p.get_char(2) == 't' && (len == 3
        || p.get_char(3) == '/')
}

/// Entry `i` of the walk is taken: it is outside the metadata directory
/// and no earlier entry outside it has the same path.
pub open spec fn taken(es: Seq<(Seq<char>, nat, EntryKind)>, i: int) -> bool {
    &&& !is_meta_path(es[i].0)
    &&& forall|j: int| 0 <= j < i && !is_meta_path(es[j].0) ==> es[j].0 != es[i].0
}

/// The union of the first `n` entries of a walk: each taken entry with its
/// layer and action, in walk order.
pub open spec fn union_plan(es: Seq<(Seq<char>, nat, EntryKind)>, n: int) -> Seq<(Seq<char>, nat, EnvAction)>
    decreases n,
{
    if n <= 0 {
        Seq::empty()
    } else if taken(es, n - 1) {
        union_plan(es, n - 1).push((es[n - 1].0, es[n - 1].1, action_for(es[n - 1].2)))
    } else {
        union_plan(es, n - 1)
    }
}

/// The view of a walk of the layers.
pub open spec fn walk_view(w: Seq<(String, usize, EntryKind)>) -> Seq<(Seq<char>, nat, EntryKind)> {
    w.map_values(|e: (String, usize, EntryKind)| (e.0@, e.1 as nat, e.2))
}

/// The view of a plan.
pub open spec fn plan_view(p: Seq<(String, usize, EnvAction)>) -> Seq<(Seq<char>, nat, EnvAction)> {
    p.map_values(|e: (String, usize, EnvAction)| (e.0@, e.1 as nat, e.2))
}

/// Plans the union of package trees. `walk` lists every entry of every
/// layer (base first, then packages in solver order) as (path relative to
/// the layer's root, layer, kind); the first entry at a path wins and
/// entries in the metadata directory are left out.
pub fn plan_union(walk: &Vec<(String, usize, EntryKind)>) -> (r: Vec<(String, usize, EnvAction)>)
    ensures
        plan_view(r@) == union_plan(walk_view(walk@), walk@.len() as int),
{
    let ghost es = walk_view(walk@);
    let mut out: Vec<(String, usize, EnvAction)> = Vec::new();
    let mut claimed: Vec<&str> = Vec::new();
    let mut i: usize = 0;
    while i < walk.len()
        invariant
            i <= walk.len(),
            es == walk_view(walk@),
            plan_view(out@) == union_plan(es, i as int),
            claimed@.len() == out@.len(),
            forall|c: int| 0 <= c < claimed@.len() ==> (#[trigger] claimed@[c])@ == out@[c].0@,
        decreases walk.len() - i,
    {
        let e = &walk[i];
        let p = e.0.as_str();
        assert(es[i as int] == (e.0@, e.1 as nat, e.2));
        if !is_meta(p) {
            let mut c: usize = 0;
            let mut seen = false;
            while c < claimed.len()
                invariant
                    c <= claimed.len(),
                    !seen ==> forall|d: int| 0 <= d < c ==> (#[trigger] claimed@[d])@ != p@,
                    seen ==> exists|d: int| 0 <= d < claimed@.len() && (#[trigger] claimed@[d])@ == p@,
                decreases claimed.len() - c,
            {
                if str_eq(claimed[c], p) {
                    seen = true;
                }
                c += 1;
            }
            proof {
                lemma_plan_paths(es, i as int, p@);
                if seen {
                    let d = choose|d: int| 0 <= d < claimed@.len() && (#[trigger] claimed@[d])@ == p@;
                    assert(plan_view(out@)[d].0 == p@);
                    assert(!taken(es, i as int));
                } else {
                    assert forall|k: int| 0 <= k < union_plan(es, i as int).len() implies (#[trigger] union_plan(es, i as int)[k]).0 != p@ by {
                        assert(plan_view(out@)[k].0 == claimed@[k]@);
                    }
                    assert(taken(es, i as int));
                }
            }
            if !seen {
                let action = match e.2 {
                    EntryKind::File => EnvAction::HardLink,
                    EntryKind::Symlink => EnvAction::Symlink,
                    EntryKind::Dir => EnvAction::CreateDir,
                };
                out.push((e.0.clone(), e.1, action));
                claimed.push(p);
                assert(plan_view(out@) =~= union_plan(es, i as int + 1));
            }
        }
        i += 1;
    }
    out
}

/// The first layer to ship a path wins: where the walk lists the layers in
/// order, each planned entry comes from the lowest layer that has an entry
/// at its path outside the metadata directory, and no other entry at that
/// path is planned.
pub proof fn lemma_union_first_wins(es: Seq<(Seq<char>, nat, EntryKind)>, k: int, j: int)
    requires
        forall|a: int, b: int| 0 <= a <= b < es.len() ==> es[a].1 <= es[b].1,
        0 <= k < union_plan(es, es.len() as int).len(),
        0 <= j < es.len(),
        !is_meta_path(es[j].0),
        es[j].0 == union_plan(es, es.len() as int)[k].0,
    ensures
        union_plan(es, es.len() as int)[k].1 <= es[j].1,
        forall|m: int| 0 <= m < union_plan(es, es.len() as int).len() && m != k ==>
            (#[trigger] union_plan(es, es.len() as int)[m]).0 != union_plan(es, es.len() as int)[k].0,
{
    let plan = union_plan(es, es.len() as int);
    lemma_plan_sources(es, es.len() as int, k);
    let i = source_of(es, es.len() as int, k);
    if j < i {
        assert(es[j].0 != es[i].0);
    }
    assert forall|m: int| 0 <= m < plan.len() && m != k implies (#[trigger] plan[m]).0 != plan[k].0 by {
        lemma_plan_distinct(es, es.len() as int, m, k);
    }
}

proof fn lemma_plan_paths(es: Seq<(Seq<char>, nat, EntryKind)>, n: int, p: Seq<char>)
    requires
        0 <= n <= es.len(),
    ensures
        (exists|k: int| 0 <= k < union_plan(es, n).len() && (#[trigger] union_plan(es, n)[k]).0 == p)
            <==> (exists|j: int| 0 <= j < n && !is_meta_path(es[j].0) && (#[trigger] es[j]).0 == p),
    decreases n,
{
    if n > 0 {
        lemma_plan_paths(es, n - 1, p);
        let prev = union_plan(es, n - 1);
        let cur = union_plan(es, n);
        if exists|k: int| 0 <= k < cur.len() && (#[trigger] cur[k]).0 == p {
            let k = choose|k: int| 0 <= k < cur.len() && (#[trigger] cur[k]).0 == p;
            if k < prev.len() {
                assert(cur[k] == prev[k]);
                assert(exists|k: int| 0 <= k < prev.len() && (#[trigger] prev[k]).0 == p);
                let j = choose|j: int| 0 <= j < n - 1 && !is_meta_path(es[j].0) && (#[trigger] es[j]).0 == p;
                assert(0 <= j < n);
            } else {
                assert(taken(es, n - 1));
                assert(es[n - 1].0 == p);
            }
        }
        if exists|j: int| 0 <= j < n && !is_meta_path(es[j].0) && (#[trigger] es[j]).0 == p {
            let j = choose|j: int| 0 <= j < n && !is_meta_path(es[j].0) && (#[trigger] es[j]).0 == p;
            if j < n - 1 {
                let k = choose|k: int| 0 <= k < prev.len() && (#[trigger] prev[k]).0 == p;
                if taken(es, n - 1) {
                    assert(cur[k] == prev[k]);
                } else {
                    assert(cur == prev);
                }
                assert(cur[k].0 == p);
            } else if taken(es, n - 1) {
                assert(cur[prev.len() as int].0 == p);
            } else {
                let j2 = choose|j2: int| 0 <= j2 < n - 1 && !is_meta_path(es[j2].0) && es[j2].0 == es[n - 1].0;
                assert(es[j2].0 == p);
                let k = choose|k: int| 0 <= k < prev.len() && (#[trigger] prev[k]).0 == p;
                assert(cur == prev);
                assert(cur[k].0 == p);
            }
        }
    }
}

/// Entry `i` of the walk is where planned entry `k` of the first `n` comes from.
pub open spec fn sourced_by(es: Seq<(Seq<char>, nat, EntryKind)>, n: int, k: int, i: int) -> bool {
    0 <= i < n && taken(es, i) && union_plan(es, n)[k] == (es[i].0, es[i].1, action_for(es[i].2))
}

/// The walk entry that planned entry `k` of the first `n` comes from.
pub open spec fn source_of(es: Seq<(Seq<char>, nat, EntryKind)>, n: int, k: int) -> int
    decreases n,
{
    if n <= 0 {
        0
    } else if taken(es, n - 1) && k == union_plan(es, n - 1).len() {
        n - 1
    } else {
        source_of(es, n - 1, k)
    }
}

proof fn lemma_plan_sources(es: Seq<(Seq<char>, nat, EntryKind)>, n: int, k: int)
    requires
        0 <= n <= es.len(),
        0 <= k < union_plan(es, n).len(),
    ensures
        sourced_by(es, n, k, source_of(es, n, k)),
    decreases n,
{
    if n > 0 {
        let prev = union_plan(es, n - 1);
        let cur = union_plan(es, n);
        if k < prev.len() {
            lemma_plan_sources(es, n - 1, k);
            assert(cur[k] == prev[k]);
        }
    }
}

proof fn lemma_plan_distinct(es: Seq<(Seq<char>, nat, EntryKind)>, n: int, m: int, k: int)
    requires
        0 <= n <= es.len(),
        0 <= m < union_plan(es, n).len(),
        0 <= k < union_plan(es, n).len(),
        m != k,
    ensures
        union_plan(es, n)[m].0 != union_plan(es, n)[k].0,
    decreases n,
{
    let prev = union_plan(es, n - 1);
    let cur = union_plan(es, n);
    if m < prev.len() && k < prev.len() {
        lemma_plan_distinct(es, n - 1, m, k);
    } else {
        let (old_one, new_one) = if m < prev.len() { (m, k) } else { (k, m) };
        lemma_plan_sources(es, n - 1, old_one);
        let i = source_of(es, n - 1, old_one);
        assert(taken(es, n - 1));
        assert(cur[new_one].0 == es[n - 1].0);
        assert(cur[old_one] == prev[old_one]);
    }
}

/// The glue declarations after adding `new` to `glues`: each one not
/// already present is appended, in order.
pub open spec fn merged_glue(glues: Seq<GlueView>, new: Seq<GlueView>) -> Seq<GlueView>
    decreases new.len(),
{
    if new.len() == 0 {
        glues
    } else {
        let m = merged_glue(glues, new.drop_last());
        if m.contains(new.last()) {
            m
        } else {
            m.push(new.last())
        }
    }
}

/// The view of a list of glue declarations.
pub open spec fn glue_view(g: Seq<Glue>) -> Seq<GlueView> {
    g.map_values(|x: Glue| x@)
}

/// Adds a package's glue declarations to those collected so far.
pub fn merge_glue(glues: &mut Vec<Glue>, new: &Vec<Glue>)
    ensures
        glue_view(final(glues)@) == merged_glue(glue_view(old(glues)@), glue_view(new@)),
{
    let ghost start = glue_view(glues@);
    let mut i: usize = 0;
    while i < new.len()
        invariant
            i <= new.len(),
            glue_view(glues@) == merged_glue(start, glue_view(new@).take(i as int)),
            start == glue_view(old(glues)@),
        decreases new.len() - i,
    {
        let ghost t = glue_view(new@).take(i as int + 1);
        assert(t.drop_last() =~= glue_view(new@).take(i as int));
        assert(t.last() == new@[i as int]@);
        let mut found = false;
        let mut j: usize = 0;
        while j < glues.len()
            invariant
                j <= glues.len(),
                i < new.len(),
                !found ==> forall|k: int| 0 <= k < j ==> glues@[k]@ != new@[i as int]@,
                found ==> glue_view(glues@).contains(new@[i as int]@),
            decreases glues.len() - j,
        {
            if glues[j] == new[i] {
                assert(glue_view(glues@)[j as int] == new@[i as int]@);
                found = true;
            }
            j += 1;
        }
        proof {
            if !found && glue_view(glues@).contains(new@[i as int]@) {
                let k = choose|k: int| 0 <= k < glue_view(glues@).len() && glue_view(glues@)[k] == new@[i as int]@;
                assert(glues@[k]@ == new@[i as int]@);
            }
        }
        if !found {
            glues.push(new[i].duplicate());
            assert(glue_view(glues@) =~= merged_glue(start, t));
        }
        i += 1;
    }
    assert(glue_view(new@).take(new.len() as int) =~= glue_view(new@));
}

/// The patterns to expand for one glue declaration over the package
/// directories: each pattern below each directory, directories outermost.
pub open spec fn glue_patterns(g: GlueView, dirs: Seq<Seq<char>>) -> Seq<(Seq<char>, Seq<char>)>
    decreases dirs.len(),
{
    match g {
        GlueView::Bin => Seq::empty(),
        GlueView::Glob(ps) => if dirs.len() == 0 {
            Seq::empty()
        } else {
            glue_patterns(g, dirs.drop_last()) + ps.map_values(
                |p: Seq<char>| (dirs.last(), join_path(dirs.last(), relative_path(p))),
            )
        },
    }
}

/// The (package directory, pattern) pairs a glue declaration expands; the
/// `Bin` kind expands nothing, as the host's dispatcher handles it.
pub fn generate_glue_for_directory(glue: &Glue, pkg_dirs: &Vec<String>) -> (r: Vec<(String, String)>)
    ensures
        r@.map_values(|e: (String, String)| (e.0@, e.1@)) == glue_patterns(glue@, pkg_dirs@.map_values(|d: String| d@)),
{
    let ghost ds = pkg_dirs@.map_values(|d: String| d@);
    let mut out: Vec<(String, String)> = Vec::new();
    match glue {
        Glue::Bin => {},
        Glue::Glob(x) => {
            let ghost ps = x@.map_values(|p: String| p@);
            let mut i: usize = 0;
            while i < pkg_dirs.len()
                invariant
                    i <= pkg_dirs.len(),
                    ds == pkg_dirs@.map_values(|d: String| d@),
                    ps == x@.map_values(|p: String| p@),
                    glue@ == GlueView::Glob(ps),
                    out@.map_values(|e: (String, String)| (e.0@, e.1@)) == glue_patterns(glue@, ds.take(i as int)),
                decreases pkg_dirs.len() - i,
            {
                let dir = &pkg_dirs[i];
                let ghost t = ds.take(i as int + 1);
                assert(t.drop_last() =~= ds.take(i as int));
                assert(t.last() == dir@);
                let ghost before = out@.map_values(|e: (String, String)| (e.0@, e.1@));
                let mut j: usize = 0;
                while j < x.len()
                    invariant
                        j <= x.len(),
                        ps == x@.map_values(|p: String| p@),
                        out@.map_values(|e: (String, String)| (e.0@, e.1@)) == before + ps.take(j as int).map_values(
                            |p: Seq<char>| (dir@, join_path(dir@, relative_path(p))),
                        ),
                    decreases x.len() - j,
                {
                    let pattern = join_proper(dir.as_str(), x[j].as_str());
                    let ghost old_map = out@.map_values(|e: (String, String)| (e.0@, e.1@));
                    let ghost entry = (dir@, pattern@);
                    out.push((dir.clone(), pattern));
                    assert(out@.map_values(|e: (String, String)| (e.0@, e.1@)) =~= old_map.push(entry));
                    assert(ps.take(j as int + 1) =~= ps.take(j as int).push(x@[j as int]@));
                    assert(ps.take(j as int + 1).map_values(|p: Seq<char>| (dir@, join_path(dir@, relative_path(p))))
                        =~= ps.take(j as int).map_values(|p: Seq<char>| (dir@, join_path(dir@, relative_path(p)))).push(
                        (dir@, join_path(dir@, relative_path(x@[j as int]@)))));
                    assert(out@.map_values(|e: (String, String)| (e.0@, e.1@)) =~= before + ps.take(j as int + 1).map_values(
                        |p: Seq<char>| (dir@, join_path(dir@, relative_path(p))),
                    ));
                    j += 1;
                }
                assert(ps.take(x.len() as int) =~= ps);
                i += 1;
            }
            assert(ds.take(pkg_dirs.len() as int) =~= ds);
        },
    }
    out
}

/// Where a file matched below a package directory lands in the
/// environment: at the same path relative to the directory.
pub open spec fn glue_target(out_dir: Seq<char>, dir: Seq<char>, file: Seq<char>) -> Option<Seq<char>> {
    let n = dir.len();
    if file.len() > n + 1 && file.take(n as int) == dir && file[n as int] == '/' {
        Some(join_path(out_dir, file.skip(n as int + 1)))
    } else {
        None
    }
}

/// The environment path of a file matched below a package directory, or
/// none where the file is not below it.
pub fn glue_target_path(out_dir: &str, dir: &str, file: &str) -> (r: Option<String>)
    ensures
        r matches Some(x) ==> glue_target(out_dir@, dir@, file@) == Some(x@),
        r is None <==> glue_target(out_dir@, dir@, file@) is None,
{
    let n = dir.unicode_len();
    let len = file.unicode_len();
    if len > n && len - n > 1 {
        let head = file.substring_char(0, n);
        if str_eq(head, dir) && file.get_char(n) == '/' {
            let rest = file.substring_char(n + 1, len);
            assert(rest@ =~= file@.skip(n as int + 1));
            return Some(join_path_str(out_dir, rest));
        }
        proof {
            assert(head@ =~= file@.take(n as int));
        }
    }
    None
}

} // verus!
