//! Uninstall planning: who depends on what, and what may be removed.
use vstd::prelude::*;
use crate::pkg::Package;
use crate::repo::{contains_package, records, OnlinePackage, OnlineRecord};

verus! {

/// An installed package with what the uninstall planner knows of it.
#[derive(Debug, Clone)]
pub struct OnlinePackageWithDependCount {
    pub pkg: OnlinePackage,
    /// How many other installed packages need this one.
    pub depends_count: u32,
    /// Whether the package was installed by hand.
    pub manually_installed: bool,
    /// The installed packages that need this one.
    pub dependers: Vec<OnlinePackage>,
}

/// Errors of uninstall planning.
#[derive(Debug, Clone)]
pub enum UninstallError {
    /// A closure names a package that is not installed.
    UnknownDependency,
    /// The package to remove is not installed.
    NotInstalled,
    /// The package to remove is needed by these packages.
    DependedUpon(Vec<OnlinePackage>),
}

/// Package `q` needs package `k`: `k`'s record is in `q`'s closure and is not
/// `q` itself.
pub open spec fn is_depender(ps: Seq<OnlineRecord>, cl: Seq<Seq<OnlineRecord>>, q: int, k: int) -> bool {
    ps[q] != ps[k] && cl[q].contains(ps[k])
}

/// The packages among the first `q` that need package `k`, in order.
pub open spec fn dependers_upto(ps: Seq<OnlineRecord>, cl: Seq<Seq<OnlineRecord>>, k: int, q: int) -> Seq<OnlineRecord>
    decreases q,
{
    if q <= 0 {
        Seq::empty()
    } else if is_depender(ps, cl, q - 1, k) {
        dependers_upto(ps, cl, k, q - 1).push(ps[q - 1])
    } else {
        dependers_upto(ps, cl, k, q - 1)
    }
}

/// Every package that needs package `k`, in order.
pub open spec fn dependers(ps: Seq<OnlineRecord>, cl: Seq<Seq<OnlineRecord>>, k: int) -> Seq<OnlineRecord> {
    dependers_upto(ps, cl, k, ps.len() as int)
}

/// Every record of every closure is installed, or is the closure's own package.
pub open spec fn closures_known(ps: Seq<OnlineRecord>, cl: Seq<Seq<OnlineRecord>>) -> bool {
    forall|q: int, j: int|
        0 <= q < cl.len() && 0 <= j < cl[q].len() ==> (#[trigger] cl[q][j]) == ps[q] || ps.contains(
            cl[q][j],
        )
}

/// The views of a list of closures.
pub open spec fn closure_records(cl: Seq<Vec<OnlinePackage>>) -> Seq<Seq<OnlineRecord>> {
    cl.map_values(|c: Vec<OnlinePackage>| records(c@))
}

proof fn lemma_dependers_len(ps: Seq<OnlineRecord>, cl: Seq<Seq<OnlineRecord>>, k: int, q: int)
    ensures
        dependers_upto(ps, cl, k, q).len() <= if q < 0 { 0 } else { q },
    decreases q,
{
    if q > 0 {
        lemma_dependers_len(ps, cl, k, q - 1);
    }
}

/// Whether every closure's records are installed packages.
fn check_closures(packages: &Vec<OnlinePackage>, closures: &Vec<Vec<OnlinePackage>>) -> (r: bool)
    requires
        closures@.len() == packages@.len(),
    ensures
        r == closures_known(records(packages@), closure_records(closures@)),
{
    let ghost ps = records(packages@);
    let ghost cl = closure_records(closures@);
    let mut q: usize = 0;
    while q < closures.len()
        invariant
            q <= closures.len(),
            closures@.len() == packages@.len(),
            ps == records(packages@),
            cl == closure_records(closures@),
            forall|a: int, j: int|
                0 <= a < q && 0 <= j < cl[a].len() ==> (#[trigger] cl[a][j]) == ps[a] || ps.contains(cl[a][j]),
        decreases closures.len() - q,
    {
        let c = &closures[q];
        let mut j: usize = 0;
        while j < c.len()
            invariant
                j <= c.len(),
                q < closures.len(),
                closures@.len() == packages@.len(),
                ps == records(packages@),
                cl == closure_records(closures@),
                c == closures@[q as int],
                forall|a: int, b: int|
                    0 <= a < q && 0 <= b < cl[a].len() ==> (#[trigger] cl[a][b]) == ps[a] || ps.contains(cl[a][b]),
                forall|b: int| 0 <= b < j ==> (#[trigger] cl[q as int][b]) == ps[q as int] || ps.contains(cl[q as int][b]),
            decreases c.len() - j,
        {
            assert(cl[q as int][j as int] == c@[j as int]@);
            assert(ps[q as int] == packages@[q as int]@);
            if !(c[j] == packages[q]) && !contains_package(packages, &c[j]) {
                return false;
            }
            j += 1;
        }
        q += 1;
    }
    true
}

/// For each installed package: how many other installed packages need it,
/// which ones, and whether it was installed by hand. `closures[q]` is the
/// resolved closure of `packages[q]`; `manual[q]` its manual-install mark.
pub fn get_dependency_count_for_packages(
    packages: &Vec<OnlinePackage>,
    manual: &Vec<bool>,
    closures: &Vec<Vec<OnlinePackage>>,
) -> (r: Result<Vec<OnlinePackageWithDependCount>, UninstallError>)
    requires
        manual@.len() == packages@.len(),
        closures@.len() == packages@.len(),
        packages@.len() <= u32::MAX,
    ensures
        r is Ok <==> closures_known(records(packages@), closure_records(closures@)),
        r matches Err(e) ==> e is UnknownDependency,
        r matches Ok(t) ==> t@.len() == packages@.len() && forall|k: int|
            0 <= k < t@.len() ==> {
                &&& (#[trigger] t@[k]).pkg@ == packages@[k]@
                &&& t@[k].manually_installed == manual@[k]
                &&& records(t@[k].dependers@) == dependers(records(packages@), closure_records(closures@), k)
                &&& t@[k].depends_count as int == t@[k].dependers@.len()
            },
{
    if !check_closures(packages, closures) {
        return Err(UninstallError::UnknownDependency);
    }
    let ghost ps = records(packages@);
    let ghost cl = closure_records(closures@);
    let mut out: Vec<OnlinePackageWithDependCount> = Vec::new();
    let mut k: usize = 0;
    while k < packages.len()
        invariant
            k <= packages.len(),
            manual@.len() == packages@.len(),
            closures@.len() == packages@.len(),
            packages@.len() <= u32::MAX,
            ps == records(packages@),
            cl == closure_records(closures@),
            out@.len() == k,
            forall|a: int|
                0 <= a < k ==> {
                    &&& (#[trigger] out@[a]).pkg@ == packages@[a]@
                    &&& out@[a].manually_installed == manual@[a]
                    &&& records(out@[a].dependers@) == dependers(ps, cl, a)
                    &&& out@[a].depends_count as int == out@[a].dependers@.len()
                },
        decreases packages.len() - k,
    {
        let mut ds: Vec<OnlinePackage> = Vec::new();
        let mut count: u32 = 0;
        let mut q: usize = 0;
        while q < packages.len()
            invariant
                q <= packages.len(),
                k < packages.len(),
                closures@.len() == packages@.len(),
                packages@.len() <= u32::MAX,
                ps == records(packages@),
                cl == closure_records(closures@),
                records(ds@) == dependers_upto(ps, cl, k as int, q as int),
                count as int == ds@.len(),
            decreases packages.len() - q,
        {
            proof {
                lemma_dependers_len(ps, cl, k as int, q as int);
                assert(ps[q as int] == packages@[q as int]@);
                assert(ps[k as int] == packages@[k as int]@);
                assert(cl[q as int] == records(closures@[q as int]@));
            }
            if !(packages[q] == packages[k]) && contains_package(&closures[q], &packages[k]) {
                ds.push(packages[q].duplicate());
                count = count + 1;
                assert(records(ds@) =~= dependers_upto(ps, cl, k as int, q as int + 1));
            }
            q += 1;
        }
        out.push(OnlinePackageWithDependCount {
            pkg: packages[k].duplicate(),
            depends_count: count,
            manually_installed: manual[k],
            dependers: ds,
        });
        k += 1;
    }
    Ok(out)
}

/// The identity of a counted package.
pub open spec fn counted_identity(e: OnlinePackageWithDependCount) -> (Seq<char>, Seq<char>) {
    (e.pkg.name@, e.pkg.version@)
}

/// An entry may go: it is the requested package, or nothing needs it and it
/// was not installed by hand.
pub open spec fn removable(e: OnlinePackageWithDependCount, target: Option<(Seq<char>, Seq<char>)>) -> bool {
    target == Some(counted_identity(e)) || (e.depends_count == 0 && !e.manually_installed)
}

/// Index of the first entry with identity `t`, or the length.
pub open spec fn first_with_identity(cs: Seq<OnlinePackageWithDependCount>, t: (Seq<char>, Seq<char>)) -> int
    decreases cs.len(),
{
    if cs.len() == 0 {
        0
    } else if counted_identity(cs[0]) == t {
        0
    } else {
        1 + first_with_identity(cs.drop_first(), t)
    }
}

/// The identities that one pass of uninstalling removes, in order.
pub open spec fn removals(cs: Seq<OnlinePackageWithDependCount>, target: Option<(Seq<char>, Seq<char>)>) -> Seq<(Seq<char>, Seq<char>)>
    decreases cs.len(),
{
    if cs.len() == 0 {
        Seq::empty()
    } else {
        let rest = removals(cs.drop_last(), target);
        if removable(cs.last(), target) {
            rest.push(counted_identity(cs.last()))
        } else {
            rest
        }
    }
}

proof fn lemma_first_with_identity(cs: Seq<OnlinePackageWithDependCount>, t: (Seq<char>, Seq<char>), k: int)
    requires
        0 <= k <= cs.len(),
        forall|j: int| 0 <= j < k ==> counted_identity(cs[j]) != t,
        k == cs.len() || counted_identity(cs[k]) == t,
    ensures
        first_with_identity(cs, t) == k,
    decreases k,
{
    if k > 0 {
        lemma_first_with_identity(cs.drop_first(), t, k - 1);
    }
}

/// One pass of uninstalling: the packages to remove. With a requested
/// package, fails when it is not installed, or when other packages need it
/// (naming them), and then nothing is removed.
pub fn uninstall_package_and_deps(counts: &Vec<OnlinePackageWithDependCount>, package: Option<&Package>) -> (r: Result<Vec<Package>, UninstallError>)
    ensures
        match package {
            None => r matches Ok(x) && x@.map_values(|p: Package| p@) == removals(counts@, None),
            Some(t) => {
                let k = first_with_identity(counts@, t@);
                if k >= counts@.len() {
                    r matches Err(e) && e is NotInstalled
                } else if counts@[k].depends_count > 0 {
                    r matches Err(e) && e matches UninstallError::DependedUpon(d) && records(d@) == records(counts@[k].dependers@)
                } else {
                    r matches Ok(x) && x@.map_values(|p: Package| p@) == removals(counts@, Some(t@))
                }
            },
        },
{
    let ghost target: Option<(Seq<char>, Seq<char>)> = match package {
        None => None,
        Some(t) => Some(t@),
    };
    if let Some(t) = package {
        let mut k: usize = 0;
        while k < counts.len() && !(counts[k].pkg.name == t.name && counts[k].pkg.version == t.version)
            invariant
                k <= counts.len(),
                forall|j: int| 0 <= j < k ==> counted_identity(counts@[j]) != t@,
            decreases counts.len() - k,
        {
            k += 1;
        }
        proof {
            lemma_first_with_identity(counts@, t@, k as int);
        }
        if k == counts.len() {
            return Err(UninstallError::NotInstalled);
        }
        if counts[k].depends_count > 0 {
            let mut d: Vec<OnlinePackage> = Vec::new();
            let mut j: usize = 0;
            while j < counts[k].dependers.len()
                invariant
                    k < counts.len(),
                    j <= counts@[k as int].dependers@.len(),
                    d@.len() == j,
                    forall|a: int| 0 <= a < j ==> d@[a]@ == counts@[k as int].dependers@[a]@,
                decreases counts@[k as int].dependers@.len() - j,
            {
                d.push(counts[k].dependers[j].duplicate());
                j += 1;
            }
            assert(records(d@) =~= records(counts@[k as int].dependers@));
            return Err(UninstallError::DependedUpon(d));
        }
    }
    let mut out: Vec<Package> = Vec::new();
    let mut i: usize = 0;
    while i < counts.len()
        invariant
            i <= counts.len(),
            target == match package {
                None => None,
                Some(t) => Some(t@),
            },
            out@.map_values(|p: Package| p@) == removals(counts@.take(i as int), target),
        decreases counts.len() - i,
    {
        let ghost s = counts@.take(i as int + 1);
        assert(s.drop_last() =~= counts@.take(i as int));
        let e = &counts[i];
        let is_target = match package {
            Some(t) => e.pkg.name == t.name && e.pkg.version == t.version,
            None => false,
        };
        if is_target || (e.depends_count == 0 && !e.manually_installed) {
            out.push(Package { name: e.pkg.name.clone(), version: e.pkg.version.clone() });
            assert(out@.map_values(|p: Package| p@) =~= removals(s, target));
        }
        i += 1;
    }
    assert(counts@.take(counts.len() as int) =~= counts@);
    Ok(out)
}

} // verus!
