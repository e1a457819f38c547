//! The repository index: package records, lookups and the solver's inputs.
use vstd::prelude::*;
use std::cmp::Ordering;
use crate::pkg::{
    clone_dependencies, dependencies_eq, deps_view, package_of_string, string_to_package,
    Dependency, Package,
};
use crate::text::{
    ends_with_char, first_index_of_char, is_blank, push_char, starts_with_char, str_eq, str_is_blank,
};
use crate::doc::{
    as_string, first_arg, get_first_arg, get_prop, prop, value_as_string, Child, DocError, Node,
};
use crate::version::{
    bumped, first_index_of, format_version, lemma_parse_format_round_trip, parse_version,
    version_cmp, Version,
};

verus! {

/// A package record of a repository index.
#[derive(Debug, Clone)]
pub struct OnlinePackage {
    pub name: String,
    pub version: String,
    pub url: String,
    pub depends: Vec<Dependency>,
}

/// The abstract form of a package record.
pub struct OnlineRecord {
    pub name: Seq<char>,
    pub version: Seq<char>,
    pub url: Seq<char>,
    pub depends: Seq<(Seq<char>, Seq<char>)>,
}

impl View for OnlinePackage {
    type V = OnlineRecord;

    open spec fn view(&self) -> OnlineRecord {
        OnlineRecord {
            name: self.name@,
            version: self.version@,
            url: self.url@,
            depends: deps_view(self.depends@),
        }
    }
}

/// The views of a list of records.
pub open spec fn records(ps: Seq<OnlinePackage>) -> Seq<OnlineRecord> {
    ps.map_values(|p: OnlinePackage| p@)
}

impl OnlinePackage {
    /// The identity of this record; consumes it.
    pub fn to_package(self) -> (r: Package)
        ensures
            r@ == (self.name@, self.version@),
    {
        Package { name: self.name, version: self.version }
    }

    /// A copy of this record.
    pub fn duplicate(&self) -> (r: OnlinePackage)
        ensures
            r@ == self@,
    {
        OnlinePackage {
            name: self.name.clone(),
            version: self.version.clone(),
            url: self.url.clone(),
            depends: clone_dependencies(&self.depends),
        }
    }

    /// The human-readable form `OnlinePackage: <name> <version> <url>`.
    pub fn to_string(&self) -> (r: String)
        ensures
            r@ == "OnlinePackage: "@ + self.name@ + seq![' '] + self.version@ + seq![' ']
                + self.url@,
    {
        let mut r = String::from_str("OnlinePackage: ");
        r.append(self.name.as_str());
        push_char(&mut r, ' ');
        r.append(self.version.as_str());
        push_char(&mut r, ' ');
        r.append(self.url.as_str());
        r
    }
}

impl PartialEq for OnlinePackage {
    fn eq(&self, other: &OnlinePackage) -> (r: bool) {
        self.name == other.name && self.version == other.version && self.url == other.url
            && dependencies_eq(&self.depends, &other.depends)
    }
}

impl vstd::std_specs::cmp::PartialEqSpecImpl for OnlinePackage {
    open spec fn obeys_eq_spec() -> bool {
        true
    }

    open spec fn eq_spec(&self, other: &OnlinePackage) -> bool {
        self@ == other@
    }
}

/// Whether an install fetched the package or found it already in place.
#[derive(Debug, Clone, Copy, PartialEq, Eq, Structural)]
pub enum InstallResult {
    Installed,
    Ignored,
}

/// Errors of the repository lookups.
#[derive(Debug, Clone, Copy, PartialEq, Eq, Structural)]
pub enum RepoError {
    /// No record carries the requested name (and version).
    NotFound,
    /// A version string or a version constraint does not parse.
    InvalidVersion,
}

/// Lines of a text as `str::lines` gives them: split at `\n`, with one `\r`
/// before the `\n` removed; a final line ending is optional.
pub open spec fn text_lines(s: Seq<char>) -> Seq<Seq<char>>
    decreases s.len(),
{
    if s.len() == 0 {
        Seq::empty()
    } else {
        let k = first_index_of(s, '\n');
        if k >= s.len() {
            seq![s]
        } else {
            let line = s.take(k as int);
            let line = if line.len() > 0 && line.last() == '\r' {
                line.drop_last()
            } else {
                line
            };
            seq![line] + text_lines(s.skip(k as int + 1))
        }
    }
}

/// The repository base URLs of a repository list: its non-blank lines.
pub open spec fn repository_lines(s: Seq<char>) -> Seq<Seq<char>> {
    text_lines(s).filter(|l: Seq<char>| !is_blank(l))
}

/// The URLs listed one per non-blank line of `repo_file`, in order.
pub fn get_repositories(repo_file: &str) -> (r: Vec<String>)
    ensures
        r@.map_values(|x: String| x@) == repository_lines(repo_file@),
{
    let len = repo_file.unicode_len();
    let mut out: Vec<String> = Vec::new();
    let mut pos: usize = 0;
    proof {
        assert(repo_file@.skip(0) =~= repo_file@);
        assert(out@.map_values(|x: String| x@) + repository_lines(repo_file@)
            =~= repository_lines(repo_file@));
    }
    while pos < len
        invariant
            pos <= len,
            len == repo_file@.len(),
            repository_lines(repo_file@) == out@.map_values(|x: String| x@)
                + repository_lines(repo_file@.skip(pos as int)),
        decreases len - pos,
    {
        let ghost rest = repo_file@.skip(pos as int);
        let k = first_index_of_char(repo_file, '\n', pos);
        let mut end = k;
        if k < len && k > pos && repo_file.get_char(k - 1) == '\r' {
            end = k - 1;
        }
        let line = repo_file.substring_char(pos, end);
        let blank = str_is_blank(line);
        let ghost prev = out@.map_values(|x: String| x@);
        proof {
            crate::version::lemma_first_index_of_shift(repo_file@, '\n', pos as int, k as int);
            assert(rest.len() > 0);
            if k < len {
                assert(rest.take((k - pos) as int) =~= repo_file@.subrange(pos as int, k as int));
                assert(rest.skip((k - pos) as int + 1) =~= repo_file@.skip(k as int + 1));
                assert(line@ =~= (if repo_file@.subrange(pos as int, k as int).len() > 0
                    && repo_file@.subrange(pos as int, k as int).last() == '\r' {
                    repo_file@.subrange(pos as int, k as int).drop_last()
                } else {
                    repo_file@.subrange(pos as int, k as int)
                }));
                assert(text_lines(rest) == seq![line@] + text_lines(repo_file@.skip(k as int + 1)));
            } else {
                assert(rest =~= line@);
                assert(text_lines(rest) == seq![line@]);
                assert(repo_file@.skip(len as int) =~= Seq::<char>::empty());
                assert(text_lines(repo_file@.skip(len as int)) =~= Seq::<Seq<char>>::empty());
            }
            let next = if k < len { repo_file@.skip(k as int + 1) } else { repo_file@.skip(len as int) };
            lemma_filter_cons(line@, text_lines(next));
        }
        if !blank {
            out.push(String::from_str(line));
            proof {
                assert(out@.map_values(|x: String| x@) =~= prev.push(line@));
            }
        }
        if k < len {
            pos = k + 1;
        } else {
            pos = len;
        }
        proof {
            let next = repo_file@.skip(pos as int);
            if blank {
                assert(repository_lines(rest) == repository_lines(next));
            } else {
                assert(repository_lines(rest) == seq![line@] + repository_lines(next));
                assert(prev + repository_lines(rest) =~= prev.push(line@) + repository_lines(next));
            }
        }
    }
    proof {
        assert(repo_file@.skip(len as int) =~= Seq::<char>::empty());
        assert(text_lines(Seq::<char>::empty()) =~= Seq::<Seq<char>>::empty());
        assert(repository_lines(Seq::<char>::empty()) =~= Seq::<Seq<char>>::empty());
        assert(out@.map_values(|x: String| x@) + Seq::<Seq<char>>::empty()
            =~= out@.map_values(|x: String| x@));
    }
    out
}

proof fn lemma_filter_cons(l: Seq<char>, rest: Seq<Seq<char>>)
    ensures
        (seq![l] + rest).filter(|x: Seq<char>| !is_blank(x)) == if !is_blank(l) {
            seq![l] + rest.filter(|x: Seq<char>| !is_blank(x))
        } else {
            rest.filter(|x: Seq<char>| !is_blank(x))
        },
{
    rest.lemma_filter_prepend(l, |x: Seq<char>| !is_blank(x));
}

/// A URL with a path component appended; a `/` is inserted only where
/// neither side has one.
pub open spec fn url_join(base: Seq<char>, ext: Seq<char>) -> Seq<char> {
    if (base.len() > 0 && base.last() == '/') || (ext.len() > 0 && ext[0] == '/') {
        base + ext
    } else {
        base + seq!['/'] + ext
    }
}

/// Adds a component onto the end of a URL.
pub fn push_onto_url(base: &str, ext: &str) -> (r: String)
    ensures
        r@ == url_join(base@, ext@),
{
    let mut r = String::from_str(base);
    if !(ends_with_char(base, '/') || starts_with_char(ext, '/')) {
        push_char(&mut r, '/');
    }
    r.append(ext);
    r
}

/// The outcome of a search through a list of records.
pub enum Lookup {
    /// The record at this index.
    Found(int),
    /// A record with the name carries a version that does not parse.
    BadVersion,
    /// No record matches.
    Missing,
}

/// The first record from `i` on whose name is `name` and whose version
/// equals `version` component for component.
pub open spec fn lookup_from(ps: Seq<OnlineRecord>, name: Seq<char>, version: Seq<char>, i: int) -> Lookup
    decreases ps.len() - i,
{
    if i < 0 || i >= ps.len() {
        Lookup::Missing
    } else if ps[i].name == name {
        match (parse_version(ps[i].version), parse_version(version)) {
            (Some(a), Some(b)) => if a == b {
                Lookup::Found(i)
            } else {
                lookup_from(ps, name, version, i + 1)
            },
            _ => Lookup::BadVersion,
        }
    } else {
        lookup_from(ps, name, version, i + 1)
    }
}

proof fn lemma_lookup_in_range(ps: Seq<OnlineRecord>, name: Seq<char>, version: Seq<char>, i: int)
    ensures
        lookup_from(ps, name, version, i) matches Lookup::Found(k) ==> 0 <= i <= k < ps.len()
            && ps[k].name == name,
    decreases ps.len() - i,
{
    if 0 <= i < ps.len() {
        lemma_lookup_in_range(ps, name, version, i + 1);
    }
}

/// The record matching a package identity by name and version.
pub open spec fn lookup(ps: Seq<OnlineRecord>, name: Seq<char>, version: Seq<char>) -> Lookup {
    lookup_from(ps, name, version, 0)
}

/// Finds the record of a package by name and version; the first match wins.
pub fn package_to_onlinepackage(package: &Package, packages: &Vec<OnlinePackage>) -> (r: Result<OnlinePackage, RepoError>)
    ensures
        match lookup(records(packages@), package.name@, package.version@) {
            Lookup::Found(i) => r matches Ok(p) && p@ == packages@[i]@,
            Lookup::BadVersion => r == Err::<OnlinePackage, RepoError>(RepoError::InvalidVersion),
            Lookup::Missing => r == Err::<OnlinePackage, RepoError>(RepoError::NotFound),
        },
{
    let ghost ps = records(packages@);
    let mut i: usize = 0;
    while i < packages.len()
        invariant
            i <= packages.len(),
            ps == records(packages@),
            lookup(ps, package.name@, package.version@) == lookup_from(ps, package.name@, package.version@, i as int),
        decreases packages.len() - i,
    {
        let pkg = &packages[i];
        if pkg.name == package.name {
            let a = Version::from_str(pkg.version.as_str());
            let b = Version::from_str(package.version.as_str());
            match (a, b) {
                (Ok(x), Ok(y)) => {
                    if x == y {
                        return Ok(pkg.duplicate());
                    }
                },
                _ => {
                    return Err(RepoError::InvalidVersion);
                },
            }
        }
        i += 1;
    }
    Err(RepoError::NotFound)
}

/// The newest record named `name` from `i` on, `best` being the index of the
/// newest seen so far (negative for none) and `best_v` its version: a record
/// replaces the current one only when its version compares greater.
pub open spec fn newest_from(ps: Seq<OnlineRecord>, name: Seq<char>, i: int, best: int, best_v: Seq<u32>) -> Lookup
    decreases ps.len() - i,
{
    if i < 0 || i >= ps.len() {
        if best < 0 {
            Lookup::Missing
        } else {
            Lookup::Found(best)
        }
    } else if ps[i].name == name {
        match parse_version(ps[i].version) {
            None => Lookup::BadVersion,
            Some(v) => if best < 0 || version_cmp(v, best_v) == Ordering::Greater {
                newest_from(ps, name, i + 1, i, v)
            } else {
                newest_from(ps, name, i + 1, best, best_v)
            },
        }
    } else {
        newest_from(ps, name, i + 1, best, best_v)
    }
}

/// The newest record of a name; among equal versions the first listed.
pub open spec fn newest(ps: Seq<OnlineRecord>, name: Seq<char>) -> Lookup {
    newest_from(ps, name, 0, -1, Seq::empty())
}

/// Finds the record with the greatest version among those named `package`.
pub fn newest_package_from_name(package: &str, packages: &Vec<OnlinePackage>) -> (r: Result<OnlinePackage, RepoError>)
    ensures
        match newest(records(packages@), package@) {
            Lookup::Found(i) => r matches Ok(p) && p@ == packages@[i]@,
            Lookup::BadVersion => r == Err::<OnlinePackage, RepoError>(RepoError::InvalidVersion),
            Lookup::Missing => r == Err::<OnlinePackage, RepoError>(RepoError::NotFound),
        },
{
    let ghost ps = records(packages@);
    let mut newest_version: Option<Version> = None;
    let mut newest_index: usize = 0;
    let mut i: usize = 0;
    while i < packages.len()
        invariant
            i <= packages.len(),
            ps == records(packages@),
            newest_version is Some ==> newest_index < i,
            newest(ps, package@) == match newest_version {
                None => newest_from(ps, package@, i as int, -1, Seq::empty()),
                Some(v) => newest_from(ps, package@, i as int, newest_index as int, v@),
            },
        decreases packages.len() - i,
    {
        let pkg = &packages[i];
        if str_eq(pkg.name.as_str(), package) {
            match Version::from_str(pkg.version.as_str()) {
                Err(_) => {
                    return Err(RepoError::InvalidVersion);
                },
                Ok(v) => {
                    let greater = match &newest_version {
                        None => true,
                        Some(x) => matches!(v.cmp(x), Ordering::Greater),
                    };
                    if greater {
                        newest_version = Some(v);
                        newest_index = i;
                    }
                },
            }
        }
        i += 1;
    }
    match newest_version {
        None => Err(RepoError::NotFound),
        Some(_) => Ok(packages[newest_index].duplicate()),
    }
}

/// A version constraint as a set of versions.
#[derive(Debug, Clone)]
pub enum VersionRange {
    /// Every version.
    Full,
    /// Versions that compare at least as great as this one.
    HigherThan(Version),
    /// Versions that compare equal to this one.
    Singleton(Version),
}

/// The abstract form of a version constraint.
pub enum RangeView {
    Full,
    HigherThan(Seq<u32>),
    Singleton(Seq<u32>),
}

impl View for VersionRange {
    type V = RangeView;

    open spec fn view(&self) -> RangeView {
        match self {
            VersionRange::Full => RangeView::Full,
            VersionRange::HigherThan(v) => RangeView::HigherThan(v@),
            VersionRange::Singleton(v) => RangeView::Singleton(v@),
        }
    }
}

/// What a constraint string means: empty is any version; `>=V` is from `V`
/// on; `>V` is from `V` with its last component bumped on; anything else is
/// exactly `V`.
pub open spec fn range_of(s: Seq<char>) -> Option<RangeView> {
    if s.len() == 0 {
        Some(RangeView::Full)
    } else if s.len() >= 2 && s[0] == '>' && s[1] == '=' {
        match parse_version(s.skip(2)) {
            Some(v) => Some(RangeView::HigherThan(v)),
            None => None,
        }
    } else if s[0] == '>' {
        match parse_version(s.skip(1)) {
            Some(v) => if v.last() < u32::MAX {
                Some(RangeView::HigherThan(bumped(v)))
            } else {
                None
            },
            None => None,
        }
    } else {
        match parse_version(s) {
            Some(v) => Some(RangeView::Singleton(v)),
            None => None,
        }
    }
}

/// Parses a version constraint.
pub fn parse_version_range(vr: &str) -> (r: Result<VersionRange, RepoError>)
    ensures
        r is Ok <==> range_of(vr@) is Some,
        r matches Ok(x) ==> range_of(vr@) == Some(x@),
        r matches Err(e) ==> e == RepoError::InvalidVersion,
{
    let len = vr.unicode_len();
    if len == 0 {
        return Ok(VersionRange::Full);
    }
    if len >= 2 && vr.get_char(0) == '>' && vr.get_char(1) == '=' {
        let rest = vr.substring_char(2, len);
        assert(rest@ =~= vr@.skip(2));
        match Version::from_str(rest) {
            Ok(v) => Ok(VersionRange::HigherThan(v)),
            Err(_) => Err(RepoError::InvalidVersion),
        }
    } else if vr.get_char(0) == '>' {
        let rest = vr.substring_char(1, len);
        assert(rest@ =~= vr@.skip(1));
        match Version::from_str(rest) {
            Ok(v) => {
                let n = v.components();
                proof {
                    crate::version::lemma_parse_nonempty(rest@);
                }
                if n[n.len() - 1] < u32::MAX {
                    Ok(VersionRange::HigherThan(v.bump()))
                } else {
                    Err(RepoError::InvalidVersion)
                }
            },
            Err(_) => Err(RepoError::InvalidVersion),
        }
    } else {
        match Version::from_str(vr) {
            Ok(v) => Ok(VersionRange::Singleton(v)),
            Err(_) => Err(RepoError::InvalidVersion),
        }
    }
}

/// One package version of the solver's input: its name, version and the
/// constraints on its dependencies.
#[derive(Debug, Clone)]
pub struct ProviderEntry {
    pub name: String,
    pub version: Version,
    pub dependencies: Vec<(String, VersionRange)>,
}

/// Every constraint of a dependency list parses.
pub open spec fn ranges_parse(d: Seq<(Seq<char>, Seq<char>)>) -> bool {
    forall|j: int| 0 <= j < d.len() ==> (#[trigger] range_of(d[j].1)) is Some
}

/// `r` is the list of constraints that `d` states.
pub open spec fn ranges_match(r: Seq<(String, VersionRange)>, d: Seq<(Seq<char>, Seq<char>)>) -> bool {
    &&& r.len() == d.len()
    &&& forall|j: int|
        0 <= j < d.len() ==> (#[trigger] r[j]).0@ == d[j].0 && range_of(d[j].1) == Some(r[j].1@)
}

/// Every version and constraint of the records parses.
pub open spec fn provider_parses(ps: Seq<OnlineRecord>) -> bool {
    forall|i: int|
        0 <= i < ps.len() ==> parse_version((#[trigger] ps[i]).version) is Some && ranges_parse(
            ps[i].depends,
        )
}

/// `e` is the solver's entry for the record `p`.
pub open spec fn entry_matches(e: ProviderEntry, p: OnlineRecord) -> bool {
    &&& e.name@ == p.name
    &&& parse_version(p.version) == Some(e.version@)
    &&& ranges_match(e.dependencies@, p.depends)
}

/// The constraints of a dependency list.
pub fn dependency_ranges(deps: &Vec<Dependency>) -> (r: Result<Vec<(String, VersionRange)>, RepoError>)
    ensures
        r is Ok <==> ranges_parse(deps_view(deps@)),
        r matches Ok(x) ==> ranges_match(x@, deps_view(deps@)),
        r matches Err(e) ==> e == RepoError::InvalidVersion,
{
    let ghost d = deps_view(deps@);
    let mut out: Vec<(String, VersionRange)> = Vec::new();
    let mut j: usize = 0;
    while j < deps.len()
        invariant
            j <= deps.len(),
            d == deps_view(deps@),
            d.len() == deps.len(),
            ranges_match(out@, d.take(j as int)),
            forall|k: int| 0 <= k < j ==> (#[trigger] range_of(d[k].1)) is Some,
        decreases deps.len() - j,
    {
        let dep = &deps[j];
        assert(d[j as int] == dep@);
        match parse_version_range(dep.version.as_str()) {
            Ok(range) => {
                out.push((dep.name.clone(), range));
                assert(d.take(j as int + 1)[j as int] == d[j as int]);
            },
            Err(e) => {
                assert(range_of(d[j as int].1) is None);
                return Err(e);
            },
        }
        j += 1;
    }
    assert(d.take(deps.len() as int) =~= d);
    Ok(out)
}

/// The solver's input for a list of records: each record's name, version
/// and dependency constraints, in order.
pub fn get_dependency_provider_for_packages(packages: &Vec<OnlinePackage>) -> (r: Result<Vec<ProviderEntry>, RepoError>)
    ensures
        r is Ok <==> provider_parses(records(packages@)),
        r matches Ok(t) ==> t@.len() == packages@.len() && forall|i: int|
            0 <= i < t@.len() ==> entry_matches(#[trigger] t@[i], packages@[i]@),
        r matches Err(e) ==> e == RepoError::InvalidVersion,
{
    let ghost ps = records(packages@);
    let mut out: Vec<ProviderEntry> = Vec::new();
    let mut i: usize = 0;
    while i < packages.len()
        invariant
            i <= packages.len(),
            ps == records(packages@),
            out@.len() == i,
            forall|k: int| 0 <= k < i ==> entry_matches(#[trigger] out@[k], packages@[k]@),
            forall|k: int|
                0 <= k < i ==> parse_version((#[trigger] ps[k]).version) is Some && ranges_parse(
                    ps[k].depends,
                ),
        decreases packages.len() - i,
    {
        let pkg = &packages[i];
        assert(ps[i as int] == pkg@);
        let dependencies = match dependency_ranges(&pkg.depends) {
            Ok(x) => x,
            Err(e) => {
                return Err(e);
            },
        };
        let version = match Version::from_str(pkg.version.as_str()) {
            Ok(v) => v,
            Err(_) => {
                return Err(RepoError::InvalidVersion);
            },
        };
        out.push(ProviderEntry { name: pkg.name.clone(), version, dependencies });
        i += 1;
    }
    Ok(out)
}

/// The name of the solver's synthetic root package.
pub const ROOT_NAME: &'static str = "world";

/// The constraints the synthetic root places on the selected packages: an
/// exact version where one is given, any version otherwise.
pub open spec fn root_range(version: Seq<char>) -> Option<RangeView> {
    if version.len() == 0 {
        Some(RangeView::Full)
    } else {
        match parse_version(version) {
            Some(v) => Some(RangeView::Singleton(v)),
            None => None,
        }
    }
}

/// The dependencies of the synthetic root: one per selected package.
pub fn root_dependencies(selected: &Vec<Package>) -> (r: Result<Vec<(String, VersionRange)>, RepoError>)
    ensures
        r is Ok <==> forall|i: int| 0 <= i < selected@.len() ==> (#[trigger] root_range(selected@[i].version@)) is Some,
        r matches Ok(x) ==> x@.len() == selected@.len() && forall|i: int| 0 <= i < x@.len() ==>
            (#[trigger] x@[i]).0@ == selected@[i].name@ && root_range(selected@[i].version@) == Some(x@[i].1@),
        r matches Err(e) ==> e == RepoError::InvalidVersion,
{
    let mut out: Vec<(String, VersionRange)> = Vec::new();
    let mut i: usize = 0;
    while i < selected.len()
        invariant
            i <= selected.len(),
            out@.len() == i,
            forall|k: int| 0 <= k < i ==> (#[trigger] root_range(selected@[k].version@)) is Some,
            forall|k: int| 0 <= k < i ==>
                (#[trigger] out@[k]).0@ == selected@[k].name@ && root_range(selected@[k].version@) == Some(out@[k].1@),
        decreases selected.len() - i,
    {
        let p = &selected[i];
        if p.version.as_str().unicode_len() == 0 {
            out.push((p.name.clone(), VersionRange::Full));
        } else {
            match Version::from_str(p.version.as_str()) {
                Ok(v) => {
                    out.push((p.name.clone(), VersionRange::Singleton(v)));
                },
                Err(_) => {
                    assert(root_range(selected@[i as int].version@) is None);
                    return Err(RepoError::InvalidVersion);
                },
            }
        }
        i += 1;
    }
    Ok(out)
}

/// The pairs of a solver assignment other than the synthetic root.
pub open spec fn non_root(sol: Seq<(String, Version)>) -> Seq<(String, Version)> {
    sol.filter(|p: (String, Version)| p.0@ != ROOT_NAME@)
}

/// `r` lists, for each pair of `sol`, the record that `lookup` finds for it.
pub open spec fn records_found(r: Seq<OnlinePackage>, ps: Seq<OnlineRecord>, sol: Seq<(String, Version)>) -> bool {
    &&& r.len() == sol.len()
    &&& forall|i: int|
        0 <= i < sol.len() ==> match lookup(ps, (#[trigger] sol[i]).0@, format_version(sol[i].1@)) {
            Lookup::Found(k) => r[i]@ == ps[k],
            _ => false,
        }
}

/// Maps a solver assignment back to the records of the index, dropping the
/// synthetic root; fails where a pair has no record.
pub fn records_for_solution(solution: &Vec<(String, Version)>, packages: &Vec<OnlinePackage>) -> (r: Result<Vec<OnlinePackage>, RepoError>)
    ensures
        r is Ok <==> forall|i: int| 0 <= i < non_root(solution@).len() ==>
            lookup(records(packages@), (#[trigger] non_root(solution@)[i]).0@, format_version(non_root(solution@)[i].1@)) is Found,
        r matches Ok(x) ==> records_found(x@, records(packages@), non_root(solution@)),
{
    let ghost ps = records(packages@);
    let ghost pred = |p: (String, Version)| p.0@ != ROOT_NAME@;
    let mut out: Vec<OnlinePackage> = Vec::new();
    let mut i: usize = 0;
    while i < solution.len()
        invariant
            i <= solution.len(),
            ps == records(packages@),
            pred == (|p: (String, Version)| p.0@ != ROOT_NAME@),
            records_found(out@, ps, solution@.take(i as int).filter(pred)),
        decreases solution.len() - i,
    {
        proof {
            lemma_filter_step(solution@, pred, i as int);
        }
        let pair = &solution[i];
        if !str_eq(pair.0.as_str(), ROOT_NAME) {
            let v = &pair.1;
            let p = Package { name: pair.0.clone(), version: v.to_string() };
            let ghost prev_out = out@;
            let ghost f_old = solution@.take(i as int).filter(pred);
            match package_to_onlinepackage(&p, packages) {
                Ok(x) => {
                    out.push(x);
                    proof {
                        let f = f_old.push(solution@[i as int]);
                        assert forall|j: int| 0 <= j < f.len() implies match lookup(ps, (#[trigger] f[j]).0@, format_version(f[j].1@)) {
                            Lookup::Found(k) => out@[j]@ == ps[k],
                            _ => false,
                        } by {
                            if j < f_old.len() {
                                assert(f[j] == f_old[j]);
                                assert(out@[j] == prev_out[j]);
                            } else {
                                assert(f[j] == solution@[i as int]);
                                assert(p.name@ == f[j].0@);
                                assert(p.version@ == format_version(f[j].1@));
                                lemma_lookup_in_range(ps, p.name@, p.version@, 0);
                                match lookup(ps, p.name@, p.version@) {
                                    Lookup::Found(k) => {
                                        assert(ps[k] == packages@[k]@);
                                    },
                                    _ => {},
                                }
                            }
                        }
                    }
                },
                Err(e) => {
                    proof {
                        let f = solution@.take(i as int + 1).filter(pred);
                        assert(f.last() == solution@[i as int]);
                        lemma_filter_prefix(solution@, pred, i as int + 1, solution@.len() as int);
                        assert(solution@.take(solution@.len() as int) =~= solution@);
                        let k = f.len() - 1;
                        assert(non_root(solution@)[k] == f[k]);
                        assert(!(lookup(records(packages@), non_root(solution@)[k].0@, format_version(non_root(solution@)[k].1@)) is Found));
                    }
                    return Err(e);
                },
            }
        }
        i += 1;
    }
    assert(solution@.take(solution.len() as int) =~= solution@);
    Ok(out)
}

proof fn lemma_filter_step(s: Seq<(String, Version)>, pred: spec_fn((String, Version)) -> bool, i: int)
    requires
        0 <= i < s.len(),
    ensures
        s.take(i + 1).filter(pred) == if pred(s[i]) {
            s.take(i).filter(pred).push(s[i])
        } else {
            s.take(i).filter(pred)
        },
{
    reveal(Seq::filter);
    let t = s.take(i + 1);
    assert(t.drop_last() =~= s.take(i));
    assert(t.last() == s[i]);
}

proof fn lemma_filter_prefix(s: Seq<(String, Version)>, pred: spec_fn((String, Version)) -> bool, n: int, m: int)
    requires
        0 <= n <= m <= s.len(),
    ensures
        s.take(m).filter(pred).len() >= s.take(n).filter(pred).len(),
        forall|j: int| 0 <= j < s.take(n).filter(pred).len() ==> s.take(m).filter(pred)[j] == s.take(n).filter(pred)[j],
    decreases m - n,
{
    if n < m {
        lemma_filter_prefix(s, pred, n, m - 1);
        lemma_filter_step(s, pred, m - 1);
    }
}

/// What a user's package argument names: `<name>-<version>` where that
/// identity is in the list, else the newest record named by the whole argument.
pub open spec fn friendly_package(arg: Seq<char>, ps: Seq<OnlineRecord>) -> Result<(Seq<char>, Seq<char>), RepoError> {
    let direct = match package_of_string(arg) {
        Some(p) => lookup(ps, p.0, p.1) is Found,
        None => false,
    };
    if direct {
        Ok(package_of_string(arg).unwrap())
    } else {
        match newest(ps, arg) {
            Lookup::Found(i) => Ok((ps[i].name, ps[i].version)),
            Lookup::BadVersion => Err(RepoError::InvalidVersion),
            Lookup::Missing => Err(RepoError::NotFound),
        }
    }
}

/// Resolves a user's package argument against a list of records.
pub fn friendly_str_to_package(arg: &str, pkgs: &Vec<OnlinePackage>) -> (r: Result<Package, RepoError>)
    ensures
        match friendly_package(arg@, records(pkgs@)) {
            Ok(p) => r matches Ok(x) && x@ == p,
            Err(e) => r == Err::<Package, RepoError>(e),
        },
{
    proof {
        lemma_newest_in_range(records(pkgs@), arg@, 0, -1, Seq::empty());
    }
    if let Ok(x) = string_to_package(arg) {
        if package_to_onlinepackage(&x, pkgs).is_ok() {
            return Ok(x);
        }
    }
    match newest_package_from_name(arg, pkgs) {
        Ok(p) => Ok(p.to_package()),
        Err(e) => Err(e),
    }
}

proof fn lemma_newest_in_range(ps: Seq<OnlineRecord>, name: Seq<char>, i: int, best: int, best_v: Seq<u32>)
    requires
        best < ps.len(),
    ensures
        newest_from(ps, name, i, best, best_v) matches Lookup::Found(k) ==> 0 <= k < ps.len(),
    decreases ps.len() - i,
{
    if 0 <= i < ps.len() {
        if ps[i].name == name {
            match parse_version(ps[i].version) {
                Some(v) => {
                    lemma_newest_in_range(ps, name, i + 1, i, v);
                    lemma_newest_in_range(ps, name, i + 1, best, best_v);
                },
                None => {},
            }
        } else {
            lemma_newest_in_range(ps, name, i + 1, best, best_v);
        }
    }
}

/// The records of `s` with later repeats of an equal record dropped.
pub open spec fn dedup(s: Seq<OnlineRecord>) -> Seq<OnlineRecord>
    decreases s.len(),
{
    if s.len() == 0 {
        s
    } else {
        let d = dedup(s.drop_last());
        if d.contains(s.last()) {
            d
        } else {
            d.push(s.last())
        }
    }
}

/// Whether a list of records holds one equal to `p`.
pub fn contains_package(l: &Vec<OnlinePackage>, p: &OnlinePackage) -> (r: bool)
    ensures
        r == records(l@).contains(p@),
{
    let mut i: usize = 0;
    while i < l.len()
        invariant
            i <= l.len(),
            forall|j: int| 0 <= j < i ==> l@[j]@ != p@,
        decreases l.len() - i,
    {
        if l[i] == *p {
            assert(records(l@)[i as int] == p@);
            return true;
        }
        i += 1;
    }
    proof {
        if records(l@).contains(p@) {
            let j = choose|j: int| 0 <= j < records(l@).len() && records(l@)[j] == p@;
            assert(l@[j]@ == p@);
        }
    }
    false
}

/// Drops every record equal to an earlier one, keeping the first of each.
pub fn remove_duplicates(l: Vec<OnlinePackage>) -> (r: Vec<OnlinePackage>)
    ensures
        records(r@) == dedup(records(l@)),
{
    let mut out: Vec<OnlinePackage> = Vec::new();
    let mut i: usize = 0;
    while i < l.len()
        invariant
            i <= l.len(),
            records(out@) == dedup(records(l@).take(i as int)),
        decreases l.len() - i,
    {
        let ghost t = records(l@).take(i as int + 1);
        assert(t.drop_last() =~= records(l@).take(i as int));
        assert(t.last() == l@[i as int]@);
        if !contains_package(&out, &l[i]) {
            out.push(l[i].duplicate());
            assert(records(out@) =~= dedup(records(l@).take(i as int)).push(l@[i as int]@));
        }
        i += 1;
    }
    assert(records(l@).take(l.len() as int) =~= records(l@));
    out
}

/// What an install does with a store entry.
#[derive(Debug, Clone, Copy, PartialEq, Eq, Structural)]
pub enum InstallPlan {
    /// The entry is complete and no reinstall was asked for: nothing to do.
    Ignore,
    /// There is no entry: fetch and unpack it.
    Fetch,
    /// The entry is partial, or a reinstall was asked for: remove it, then
    /// fetch and unpack it.
    Replace,
}

/// The install plan for what is on disk.
pub open spec fn install_plan_for(entry_exists: bool, sentinel_exists: bool, reinstall: bool) -> InstallPlan {
    if !entry_exists {
        InstallPlan::Fetch
    } else if sentinel_exists && !reinstall {
        InstallPlan::Ignore
    } else {
        InstallPlan::Replace
    }
}

/// What an install reports for a plan it carried out.
pub open spec fn result_for(plan: InstallPlan) -> InstallResult {
    if plan == InstallPlan::Ignore {
        InstallResult::Ignored
    } else {
        InstallResult::Installed
    }
}

/// Decides an install from what is on disk: an entry counts as installed
/// only with its completion sentinel.
pub fn plan_install(entry_exists: bool, sentinel_exists: bool, reinstall: bool) -> (r: InstallPlan)
    ensures
        r == install_plan_for(entry_exists, sentinel_exists, reinstall),
{
    if !entry_exists {
        InstallPlan::Fetch
    } else if sentinel_exists && !reinstall {
        InstallPlan::Ignore
    } else {
        InstallPlan::Replace
    }
}

/// The result an install reports for a plan that was carried out.
pub fn install_result(plan: InstallPlan) -> (r: InstallResult)
    ensures
        r == result_for(plan),
{
    match plan {
        InstallPlan::Ignore => InstallResult::Ignored,
        _ => InstallResult::Installed,
    }
}

/// Installing is idempotent: an install that completes leaves the entry and
/// its sentinel, so the next install without a reinstall is ignored, and
/// one with a reinstall replaces the entry; an entry without its sentinel
/// is always replaced.
pub proof fn lemma_install_idempotent(entry_exists: bool, sentinel_exists: bool, reinstall: bool)
    ensures
        install_plan_for(true, true, false) == InstallPlan::Ignore,
        result_for(install_plan_for(true, true, false)) == InstallResult::Ignored,
        install_plan_for(true, true, true) == InstallPlan::Replace,
        result_for(install_plan_for(true, true, true)) == InstallResult::Installed,
        install_plan_for(true, false, reinstall) == InstallPlan::Replace,
        !(entry_exists && sentinel_exists) ==> result_for(install_plan_for(entry_exists, sentinel_exists, reinstall)) == InstallResult::Installed,
{
}

/// Whether a package still has to be installed: no entry of the done list
/// holds it.
pub fn needs_install(done_list: &Vec<(OnlinePackage, InstallResult)>, pkg: &OnlinePackage) -> (r: bool)
    ensures
        r == !exists|i: int| 0 <= i < done_list@.len() && (#[trigger] done_list@[i]).0@ == pkg@,
{
    let mut i: usize = 0;
    while i < done_list.len()
        invariant
            i <= done_list.len(),
            forall|j: int| 0 <= j < i ==> (#[trigger] done_list@[j]).0@ != pkg@,
        decreases done_list.len() - i,
    {
        if done_list[i].0 == *pkg {
            return false;
        }
        i += 1;
    }
    true
}

/// A required string property of a node.
pub open spec fn string_prop(es: Seq<crate::doc::Entry>, key: Seq<char>) -> Result<Seq<char>, DocError> {
    match prop(es, key) {
        None => Err(DocError::MissingProperty),
        Some(v) => as_string(v),
    }
}

/// Reads a required string property of a node.
pub fn get_kdl_string_prop(prop_name: &str, entries: &Vec<crate::doc::Entry>) -> (r: Result<String, DocError>)
    ensures
        match string_prop(entries@, prop_name@) {
            Ok(s) => r matches Ok(x) && x@ == s,
            Err(e) => r == Err::<String, DocError>(e),
        },
{
    match get_prop(entries, prop_name) {
        None => Err(DocError::MissingProperty),
        Some(v) => value_as_string(v),
    }
}

/// A `depends` node: its first argument names the package, its `version`
/// property (empty where absent) constrains it.
pub open spec fn dependency_of(c: Child) -> Result<(Seq<char>, Seq<char>), DocError> {
    match first_arg(c.entries@) {
        None => Err(DocError::MissingArgument),
        Some(v) => match as_string(v) {
            Err(e) => Err(e),
            Ok(name) => match prop(c.entries@, "version"@) {
                None => Ok((name, Seq::empty())),
                Some(w) => match as_string(w) {
                    Ok(ver) => Ok((name, ver)),
                    Err(e) => Err(e),
                },
            },
        },
    }
}

/// The dependencies a package node's children declare; children other than
/// `depends` are ignored, and the first malformed one fails the whole.
pub open spec fn dependencies_of(cs: Seq<Child>) -> Result<Seq<(Seq<char>, Seq<char>)>, DocError>
    decreases cs.len(),
{
    if cs.len() == 0 {
        Ok(Seq::empty())
    } else {
        match dependencies_of(cs.drop_last()) {
            Err(e) => Err(e),
            Ok(ds) => if cs.last().name@ == "depends"@ {
                match dependency_of(cs.last()) {
                    Ok(d) => Ok(ds.push(d)),
                    Err(e) => Err(e),
                }
            } else {
                Ok(ds)
            },
        }
    }
}

/// `s` begins with `p`.
pub open spec fn has_prefix(s: Seq<char>, p: Seq<char>) -> bool {
    s.len() >= p.len() && s.take(p.len() as int) == p
}

/// The URL of a package path in an index: an absolute `http://` or
/// `https://` URL as it stands, anything else joined onto the base URL.
pub open spec fn resolve_url(base: Seq<char>, path: Seq<char>) -> Seq<char> {
    if has_prefix(path, "http://"@) || has_prefix(path, "https://"@) {
        path
    } else {
        url_join(base, path)
    }
}

/// Whether `s` begins with `p`.
fn starts_with_str(s: &str, p: &str) -> (r: bool)
    ensures
        r == has_prefix(s@, p@),
{
    let n = p.unicode_len();
    if s.unicode_len() < n {
        return false;
    }
    let head = s.substring_char(0, n);
    str_eq(head, p)
}

/// Resolves a package path of an index against the repository's base URL.
pub fn resolve_package_url(base: &str, path: &str) -> (r: String)
    ensures
        r@ == resolve_url(base@, path@),
{
    if starts_with_str(path, "http://") || starts_with_str(path, "https://") {
        String::from_str(path)
    } else {
        push_onto_url(base, path)
    }
}

/// The record a `package` node describes, its path resolved against the base URL.
pub open spec fn record_of(n: Node, base: Seq<char>) -> Result<OnlineRecord, DocError> {
    match string_prop(n.entries@, "name"@) {
        Err(e) => Err(e),
        Ok(name) => match string_prop(n.entries@, "version"@) {
            Err(e) => Err(e),
            Ok(version) => match string_prop(n.entries@, "path"@) {
                Err(e) => Err(e),
                Ok(path) => {
                    let deps = match n.children {
                        None => Ok(Seq::empty()),
                        Some(cs) => dependencies_of(cs@),
                    };
                    match deps {
                        Err(e) => Err(e),
                        Ok(d) => Ok(OnlineRecord { name, version, url: resolve_url(base, path), depends: d }),
                    }
                },
            },
        },
    }
}

/// The records of an index document: one per `package` node, in order;
/// other nodes are ignored, and the first malformed package fails the whole.
pub open spec fn index_records(ns: Seq<Node>, base: Seq<char>) -> Result<Seq<OnlineRecord>, DocError>
    decreases ns.len(),
{
    if ns.len() == 0 {
        Ok(Seq::empty())
    } else {
        match index_records(ns.drop_last(), base) {
            Err(e) => Err(e),
            Ok(rs) => if ns.last().name@ == "package"@ {
                match record_of(ns.last(), base) {
                    Ok(r) => Ok(rs.push(r)),
                    Err(e) => Err(e),
                }
            } else {
                Ok(rs)
            },
        }
    }
}

/// Reads the dependencies declared by a package node's children.
fn parse_depends(cs: &Vec<Child>) -> (r: Result<Vec<Dependency>, DocError>)
    ensures
        match dependencies_of(cs@) {
            Ok(d) => r matches Ok(x) && deps_view(x@) == d,
            Err(e) => r == Err::<Vec<Dependency>, DocError>(e),
        },
{
    let mut out: Vec<Dependency> = Vec::new();
    let mut i: usize = 0;
    assert(cs@.take(0) =~= Seq::<Child>::empty());
    assert(deps_view(out@) =~= Seq::<(Seq<char>, Seq<char>)>::empty());
    while i < cs.len()
        invariant
            i <= cs.len(),
            dependencies_of(cs@.take(i as int)) == Ok::<Seq<(Seq<char>, Seq<char>)>, DocError>(deps_view(out@)),
        decreases cs.len() - i,
    {
        let ghost t = cs@.take(i as int + 1);
        assert(t.drop_last() =~= cs@.take(i as int));
        assert(t.last() == cs@[i as int]);
        let c = &cs[i];
        if str_eq(c.name.as_str(), "depends") {
            let name = match get_first_arg(&c.entries) {
                None => {
                    proof { lemma_prefix_error_deps(cs@, i as int + 1); }
                    return Err(DocError::MissingArgument);
                },
                Some(v) => match value_as_string(v) {
                    Ok(x) => x,
                    Err(e) => {
                        proof { lemma_prefix_error_deps(cs@, i as int + 1); }
                        return Err(e);
                    },
                },
            };
            let version = match get_prop(&c.entries, "version") {
                None => String::new(),
                Some(w) => match value_as_string(w) {
                    Ok(x) => x,
                    Err(e) => {
                        proof { lemma_prefix_error_deps(cs@, i as int + 1); }
                        return Err(e);
                    },
                },
            };
            let ghost prev = deps_view(out@);
            let ghost d = (name@, version@);
            assert(dependency_of(*c) == Ok::<(Seq<char>, Seq<char>), DocError>(d));
            out.push(Dependency { name, version });
            assert(deps_view(out@) =~= prev.push(d));
        }
        i += 1;
    }
    assert(cs@.take(cs.len() as int) =~= cs@);
    Ok(out)
}

proof fn lemma_prefix_error_index(ns: Seq<Node>, base: Seq<char>, i: int)
    requires
        0 <= i <= ns.len(),
        index_records(ns.take(i), base) is Err,
    ensures
        index_records(ns, base) == index_records(ns.take(i), base),
    decreases ns.len() - i,
{
    if i < ns.len() {
        let t = ns.take(i + 1);
        assert(t.drop_last() =~= ns.take(i));
        lemma_prefix_error_index(ns, base, i + 1);
    } else {
        assert(ns.take(i) =~= ns);
    }
}

proof fn lemma_prefix_error_deps(cs: Seq<Child>, i: int)
    requires
        0 <= i <= cs.len(),
        dependencies_of(cs.take(i)) is Err,
    ensures
        dependencies_of(cs) == dependencies_of(cs.take(i)),
    decreases cs.len() - i,
{
    if i < cs.len() {
        let t = cs.take(i + 1);
        assert(t.drop_last() =~= cs.take(i));
        lemma_prefix_error_deps(cs, i + 1);
    } else {
        assert(cs.take(i) =~= cs);
    }
}

/// Reads a repository index document into package records; each record's
/// relative path is joined onto the repository's base URL.
pub fn parse_repository_index(index: &Vec<Node>, base_url: &str) -> (r: Result<Vec<OnlinePackage>, DocError>)
    ensures
        match index_records(index@, base_url@) {
            Ok(rs) => r matches Ok(x) && records(x@) == rs,
            Err(e) => r == Err::<Vec<OnlinePackage>, DocError>(e),
        },
{
    let mut ret: Vec<OnlinePackage> = Vec::new();
    let mut i: usize = 0;
    assert(index@.take(0) =~= Seq::<Node>::empty());
    assert(records(ret@) =~= Seq::<OnlineRecord>::empty());
    while i < index.len()
        invariant
            i <= index.len(),
            index_records(index@.take(i as int), base_url@) == Ok::<Seq<OnlineRecord>, DocError>(records(ret@)),
        decreases index.len() - i,
    {
        let ghost t = index@.take(i as int + 1);
        assert(t.drop_last() =~= index@.take(i as int));
        assert(t.last() == index@[i as int]);
        let pkg = &index[i];
        if str_eq(pkg.name.as_str(), "package") {
            let name = match get_kdl_string_prop("name", &pkg.entries) {
                Ok(x) => x,
                Err(e) => {
                    proof { lemma_prefix_error_index(index@, base_url@, i as int + 1); }
                    return Err(e);
                },
            };
            let version = match get_kdl_string_prop("version", &pkg.entries) {
                Ok(x) => x,
                Err(e) => {
                    proof { lemma_prefix_error_index(index@, base_url@, i as int + 1); }
                    return Err(e);
                },
            };
            let path = match get_kdl_string_prop("path", &pkg.entries) {
                Ok(x) => x,
                Err(e) => {
                    proof { lemma_prefix_error_index(index@, base_url@, i as int + 1); }
                    return Err(e);
                },
            };
            let url = resolve_package_url(base_url, path.as_str());
            let depends = match &pkg.children {
                None => Vec::new(),
                Some(cs) => match parse_depends(cs) {
                    Ok(d) => d,
                    Err(e) => {
                        proof { lemma_prefix_error_index(index@, base_url@, i as int + 1); }
                        return Err(e);
                    },
                },
            };
            proof {
                if pkg.children is None {
                    assert(deps_view(depends@) =~= Seq::<(Seq<char>, Seq<char>)>::empty());
                }
            }
            let ghost prev = records(ret@);
            let ghost rec = OnlineRecord { name: name@, version: version@, url: url@, depends: deps_view(depends@) };
            assert(record_of(*pkg, base_url@) == Ok::<OnlineRecord, DocError>(rec));
            ret.push(OnlinePackage { name, version, url, depends });
            assert(records(ret@) =~= prev.push(rec));
        }
        i += 1;
    }
    assert(index@.take(index.len() as int) =~= index@);
    Ok(ret)
}

/// The URL of a repository's index file.
pub fn index_url(repo: &str) -> (r: String)
    ensures
        r@ == url_join(repo@, "index.kdl"@),
{
    push_onto_url(repo, "index.kdl")
}

/// The records of every repository, concatenated in the order the
/// repositories are listed.
pub open spec fn all_records(indexes: Seq<(String, Vec<Node>)>) -> Result<Seq<OnlineRecord>, DocError>
    decreases indexes.len(),
{
    if indexes.len() == 0 {
        Ok(Seq::empty())
    } else {
        match all_records(indexes.drop_last()) {
            Err(e) => Err(e),
            Ok(rs) => match index_records(indexes.last().1@, indexes.last().0@) {
                Err(e) => Err(e),
                Ok(more) => Ok(rs + more),
            },
        }
    }
}

/// Every package that the repositories offer: `indexes` pairs each
/// repository's base URL with its fetched index document, in the order the
/// repositories are listed.
pub fn get_all_available_packages(indexes: &Vec<(String, Vec<Node>)>) -> (r: Result<Vec<OnlinePackage>, DocError>)
    ensures
        match all_records(indexes@) {
            Ok(rs) => r matches Ok(x) && records(x@) == rs,
            Err(e) => r == Err::<Vec<OnlinePackage>, DocError>(e),
        },
{
    let mut ret: Vec<OnlinePackage> = Vec::new();
    let mut i: usize = 0;
    assert(indexes@.take(0) =~= Seq::<(String, Vec<Node>)>::empty());
    assert(records(ret@) =~= Seq::<OnlineRecord>::empty());
    while i < indexes.len()
        invariant
            i <= indexes.len(),
            all_records(indexes@.take(i as int)) == Ok::<Seq<OnlineRecord>, DocError>(records(ret@)),
        decreases indexes.len() - i,
    {
        let ghost t = indexes@.take(i as int + 1);
        assert(t.drop_last() =~= indexes@.take(i as int));
        assert(t.last() == indexes@[i as int]);
        let repo = &indexes[i];
        match parse_repository_index(&repo.1, repo.0.as_str()) {
            Err(e) => {
                proof { lemma_prefix_error_all(indexes@, i as int + 1); }
                return Err(e);
            },
            Ok(mut packages) => {
                let ghost before = records(ret@);
                let ghost more = records(packages@);
                ret.append(&mut packages);
                assert(records(ret@) =~= before + more);
            },
        }
        i += 1;
    }
    assert(indexes@.take(indexes.len() as int) =~= indexes@);
    Ok(ret)
}

proof fn lemma_prefix_error_all(ns: Seq<(String, Vec<Node>)>, i: int)
    requires
        0 <= i <= ns.len(),
        all_records(ns.take(i)) is Err,
    ensures
        all_records(ns) == all_records(ns.take(i)),
    decreases ns.len() - i,
{
    if i < ns.len() {
        let t = ns.take(i + 1);
        assert(t.drop_last() =~= ns.take(i));
        lemma_prefix_error_all(ns, i + 1);
    } else {
        assert(ns.take(i) =~= ns);
    }
}

/// The done list holds a record equal to `p`.
pub open spec fn in_done(done: Seq<(OnlinePackage, InstallResult)>, p: OnlineRecord) -> bool {
    exists|i: int| 0 <= i < done.len() && (#[trigger] done[i]).0@ == p
}

/// No two entries of the done list hold equal records.
pub open spec fn installed_once(done: Seq<(OnlinePackage, InstallResult)>) -> bool {
    forall|i: int, j: int| 0 <= i < j < done.len() ==> (#[trigger] done[i]).0@ != (#[trigger] done[j]).0@
}

/// The walk that installs packages and then their dependencies, depth
/// first: the tool installs the package the walk hands out and reports its
/// result and resolved dependencies back.
pub struct InstallWalk {
    done: Vec<(OnlinePackage, InstallResult)>,
    /// Dependencies still to visit; the last is visited first.
    stack: Vec<OnlinePackage>,
    /// The package handed out and not yet reported.
    pending: Option<OnlinePackage>,
    /// Every package the walk was asked to install or found as a dependency.
    seen: Ghost<Seq<OnlineRecord>>,
}

impl InstallWalk {
    /// The packages installed so far, in order, with their results.
    pub closed spec fn done_view(&self) -> Seq<(OnlinePackage, InstallResult)> {
        self.done@
    }

    /// The packages installed so far, in order, with their results.
    pub fn done(&self) -> (r: &Vec<(OnlinePackage, InstallResult)>)
        ensures
            r@ == self.done_view(),
    {
        &self.done
    }

    /// The packages handed out to the tool or found as dependencies.
    pub closed spec fn seen(&self) -> Seq<OnlineRecord> {
        self.seen@
    }

    /// The package handed out and not yet reported.
    pub closed spec fn pending(&self) -> Option<OnlineRecord> {
        match self.pending {
            Some(p) => Some(p@),
            None => None,
        }
    }

    /// The walk's invariant: nothing is installed twice, the pending package
    /// is not installed yet, and every package seen is installed, pending, or
    /// still to visit.
    pub closed spec fn wf(&self) -> bool {
        &&& forall|i: int, j: int|
            0 <= i < j < self.done@.len() ==> (#[trigger] self.done@[i]).0@ != (#[trigger] self.done@[j]).0@
        &&& (self.pending matches Some(p) ==> !in_done(self.done@, p@))
        &&& forall|k: int|
            0 <= k < self.seen@.len() ==> in_done(self.done@, #[trigger] self.seen@[k]) || self.pending() == Some(
                self.seen@[k],
            ) || records(self.stack@).contains(self.seen@[k])
    }

    /// A walk that has installed nothing.
    pub fn new() -> (r: InstallWalk)
        ensures
            r.wf(),
            r.done_view().len() == 0,
            r.pending() is None,
            r.seen().len() == 0,
    {
        InstallWalk { done: Vec::new(), stack: Vec::new(), pending: None, seen: Ghost(Seq::empty()) }
    }

    /// Asks for a package to be installed; the walk hands it out at once.
    pub fn begin(&mut self, pkg: &OnlinePackage) -> (r: OnlinePackage)
        requires
            old(self).wf(),
            old(self).pending() is None,
            !in_done(old(self).done_view(), pkg@),
        ensures
            final(self).wf(),
            r@ == pkg@,
            final(self).pending() == Some(pkg@),
            final(self).done_view() == old(self).done_view(),
            final(self).seen() == old(self).seen().push(pkg@),
    {
        let ghost old_seen = self.seen@;
        self.pending = Some(pkg.duplicate());
        self.seen = Ghost(old_seen.push(pkg@));
        assert forall|k: int| 0 <= k < self.seen@.len() implies in_done(self.done@, #[trigger] self.seen@[k])
            || self.pending() == Some(self.seen@[k]) || records(self.stack@).contains(self.seen@[k]) by {
            if k < old_seen.len() {
                assert(self.seen@[k] == old_seen[k]);
            }
        }
        pkg.duplicate()
    }

    /// Reports that the pending package was installed with `result`, and
    /// that it needs `deps`, which are visited next, first to last.
    pub fn installed(&mut self, result: InstallResult, deps: Vec<OnlinePackage>)
        requires
            old(self).wf(),
            old(self).pending() is Some,
        ensures
            final(self).wf(),
            installed_once(final(self).done_view()),
            final(self).pending() is None,
            final(self).done_view().len() == old(self).done_view().len() + 1,
            final(self).done_view().drop_last() == old(self).done_view(),
            final(self).done_view().last().0@ == old(self).pending().unwrap(),
            final(self).done_view().last().1 == result,
            final(self).seen() == old(self).seen() + records(deps@),
    {
        let pkg = match self.pending.take() {
            Some(p) => p,
            None => {
                return;
            },
        };
        let ghost pv = pkg@;
        let ghost old_done = self.done@;
        let ghost old_stack = records(self.stack@);
        let ghost old_seen = self.seen@;
        self.done.push((pkg, result));
        assert(in_done(self.done@, pv)) by {
            assert(self.done@[self.done@.len() - 1].0@ == pv);
        }
        assert forall|p: OnlineRecord| in_done(old_done, p) implies in_done(self.done@, p) by {
            let i = choose|i: int| 0 <= i < old_done.len() && (#[trigger] old_done[i]).0@ == p;
            assert(self.done@[i] == old_done[i]);
        }
        let ghost new_done = self.done@;
        let mut j: usize = deps.len();
        while j > 0
            invariant
                j <= deps@.len(),
                self.done@ == new_done,
                self.pending is None,
                self.seen@ == old_seen,
                forall|k: int| 0 <= k < old_stack.len() ==> records(self.stack@).contains(#[trigger] old_stack[k]),
                forall|k: int| j <= k < deps@.len() ==> records(self.stack@).contains(#[trigger] deps@[k]@),
            decreases j,
        {
            let ghost before = records(self.stack@);
            self.stack.push(deps[j - 1].duplicate());
            assert(records(self.stack@) =~= before.push(deps@[j - 1]@));
            assert forall|x: OnlineRecord| before.contains(x) implies records(self.stack@).contains(x) by {
                let i = choose|i: int| 0 <= i < before.len() && before[i] == x;
                assert(records(self.stack@)[i] == x);
            }
            assert(records(self.stack@)[before.len() as int] == deps@[j - 1]@);
            j -= 1;
        }
        let ghost new_seen = old_seen + records(deps@);
        self.seen = Ghost(new_seen);
        assert forall|k: int| 0 <= k < self.seen@.len() implies in_done(self.done@, #[trigger] self.seen@[k])
            || self.pending() == Some(self.seen@[k]) || records(self.stack@).contains(self.seen@[k]) by {
            if k < old_seen.len() {
                assert(self.seen@[k] == old_seen[k]);
                if records(self.stack@).contains(old_seen[k]) {
                } else if old_stack.contains(old_seen[k]) {
                    let i = choose|i: int| 0 <= i < old_stack.len() && old_stack[i] == old_seen[k];
                    assert(records(self.stack@).contains(old_stack[i]));
                } else if old_seen[k] == pv {
                } else {
                    assert(in_done(old_done, old_seen[k]));
                }
            } else {
                assert(self.seen@[k] == deps@[k - old_seen.len()]@);
                assert(records(self.stack@).contains(deps@[k - old_seen.len()]@));
            }
        }
        assert forall|a: int, b: int| 0 <= a < b < self.done@.len() implies (#[trigger] self.done@[a]).0@ != (#[trigger] self.done@[b]).0@ by {
            if b == self.done@.len() - 1 {
                assert(self.done@[a] == old_done[a]);
                if old_done[a].0@ == pv {
                    assert(in_done(old_done, pv));
                }
            } else {
                assert(self.done@[a] == old_done[a]);
                assert(self.done@[b] == old_done[b]);
            }
        }
    }

    /// The next dependency to install, skipping those already installed;
    /// `None` once none is left, and then every package seen is installed.
    pub fn next(&mut self) -> (r: Option<OnlinePackage>)
        requires
            old(self).wf(),
            old(self).pending() is None,
        ensures
            final(self).wf(),
            installed_once(final(self).done_view()),
            final(self).done_view() == old(self).done_view(),
            final(self).seen() == old(self).seen(),
            match r {
                Some(x) => final(self).pending() == Some(x@) && !in_done(final(self).done_view(), x@),
                None => final(self).pending() is None && forall|k: int|
                    0 <= k < final(self).seen().len() ==> in_done(final(self).done_view(), #[trigger] final(self).seen()[k]),
            },
    {
        while self.stack.len() > 0
            invariant
                self.wf(),
                self.pending() is None,
                self.done@ == old(self).done_view(),
                self.seen() == old(self).seen(),
            decreases self.stack@.len(),
        {
            let ghost before = records(self.stack@);
            let x = match self.stack.pop() {
                Some(x) => x,
                None => {
                    return None;
                },
            };
            assert(before =~= records(self.stack@).push(x@));
            let fresh = needs_install(&self.done, &x);
            proof {
                assert forall|k: int| 0 <= k < self.seen@.len() implies in_done(self.done@, #[trigger] self.seen@[k])
                    || (fresh && x@ == self.seen@[k]) || records(self.stack@).contains(self.seen@[k]) by {
                    if before.contains(self.seen@[k]) && !records(self.stack@).contains(self.seen@[k]) {
                        let i = choose|i: int| 0 <= i < before.len() && before[i] == self.seen@[k];
                        if i < before.len() - 1 {
                            assert(records(self.stack@)[i] == before[i]);
                        }
                        assert(x@ == self.seen@[k]);
                    }
                }
            }
            if fresh {
                self.pending = Some(x.duplicate());
                return Some(x);
            }
        }
        proof {
            assert forall|k: int| 0 <= k < self.seen@.len() implies in_done(self.done@, #[trigger] self.seen@[k]) by {
                assert(records(self.stack@).len() == 0);
            }
        }
        None
    }
}

} // verus!
