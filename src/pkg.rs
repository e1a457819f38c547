//! Package identities, dependency records and package configurations.
use vstd::prelude::*;
use crate::text::{push_char, str_eq};
use crate::version::{parse_version, Version};

verus! {

/// A dependency record: a package name and a version constraint.
#[derive(Debug, Clone)]
pub struct Dependency {
    pub name: String,
    pub version: String,
}

impl View for Dependency {
    type V = (Seq<char>, Seq<char>);

    open spec fn view(&self) -> (Seq<char>, Seq<char>) {
        (self.name@, self.version@)
    }
}

impl Dependency {
    /// A copy of this record.
    pub fn duplicate(&self) -> (r: Dependency)
        ensures
            r@ == self@,
    {
        Dependency { name: self.name.clone(), version: self.version.clone() }
    }
}

impl PartialEq for Dependency {
    fn eq(&self, other: &Dependency) -> (r: bool) {
        self.name == other.name && self.version == other.version
    }
}

impl vstd::std_specs::cmp::PartialEqSpecImpl for Dependency {
    open spec fn obeys_eq_spec() -> bool {
        true
    }

    open spec fn eq_spec(&self, other: &Dependency) -> bool {
        self@ == other@
    }
}

/// A package identity: a name and a version string.
#[derive(Debug, Clone)]
pub struct Package {
    pub name: String,
    pub version: String,
}

impl View for Package {
    type V = (Seq<char>, Seq<char>);

    open spec fn view(&self) -> (Seq<char>, Seq<char>) {
        (self.name@, self.version@)
    }
}

impl Package {
    pub fn new(name: String, version: String) -> (r: Package)
        ensures
            r@ == (name@, version@),
    {
        Package { name, version }
    }

    /// A copy of this identity.
    pub fn duplicate(&self) -> (r: Package)
        ensures
            r@ == self@,
    {
        Package { name: self.name.clone(), version: self.version.clone() }
    }

    /// The human-readable form `Package: <name> <version>`.
    pub fn to_string(&self) -> (r: String)
        ensures
            r@ == "Package: "@ + self.name@ + seq![' '] + self.version@,
    {
        let mut r = String::from_str("Package: ");
        r.append(self.name.as_str());
        push_char(&mut r, ' ');
        r.append(self.version.as_str());
        r
    }
}

impl PartialEq for Package {
    fn eq(&self, other: &Package) -> (r: bool) {
        self.name == other.name && self.version == other.version
    }
}

impl vstd::std_specs::cmp::PartialEqSpecImpl for Package {
    open spec fn obeys_eq_spec() -> bool {
        true
    }

    open spec fn eq_spec(&self, other: &Package) -> bool {
        self@ == other@
    }
}

/// A post-union pass that a package declares.
#[derive(Debug, Clone)]
pub enum Glue {
    /// Multi-call binaries; handled by the host's dispatcher.
    Bin,
    /// Files matched by these patterns are linked into the environment.
    Glob(Vec<String>),
}

/// The abstract form of a glue declaration.
pub enum GlueView {
    Bin,
    Glob(Seq<Seq<char>>),
}

impl View for Glue {
    type V = GlueView;

    open spec fn view(&self) -> GlueView {
        match self {
            Glue::Bin => GlueView::Bin,
            Glue::Glob(p) => GlueView::Glob(p@.map_values(|x: String| x@)),
        }
    }
}

impl Glue {
    /// A copy of this declaration.
    pub fn duplicate(&self) -> (r: Glue)
        ensures
            r@ == self@,
    {
        match self {
            Glue::Bin => Glue::Bin,
            Glue::Glob(p) => Glue::Glob(clone_strings(p)),
        }
    }
}

/// A copy of a list of strings.
pub fn clone_strings(v: &Vec<String>) -> (r: Vec<String>)
    ensures
        r@.map_values(|x: String| x@) == v@.map_values(|x: String| x@),
{
    let mut r: Vec<String> = Vec::new();
    let mut i: usize = 0;
    while i < v.len()
        invariant
            i <= v.len(),
            r@.len() == i,
            forall|j: int| 0 <= j < i ==> r@[j]@ == v@[j]@,
        decreases v.len() - i,
    {
        r.push(v[i].clone());
        i += 1;
    }
    assert(r@.map_values(|x: String| x@) =~= v@.map_values(|x: String| x@));
    r
}

/// Two lists of strings hold the same texts in the same order.
pub fn strings_eq(a: &Vec<String>, b: &Vec<String>) -> (r: bool)
    ensures
        r == (a@.map_values(|x: String| x@) == b@.map_values(|x: String| x@)),
{
    if a.len() != b.len() {
        assert(a@.map_values(|x: String| x@).len() != b@.map_values(|x: String| x@).len());
        return false;
    }
    let mut i: usize = 0;
    while i < a.len()
        invariant
            i <= a.len(),
            a.len() == b.len(),
            forall|j: int| 0 <= j < i ==> a@[j]@ == b@[j]@,
        decreases a.len() - i,
    {
        if a[i] != b[i] {
            assert(a@.map_values(|x: String| x@)[i as int] != b@.map_values(|x: String| x@)[i as int]);
            return false;
        }
        i += 1;
    }
    assert(a@.map_values(|x: String| x@) =~= b@.map_values(|x: String| x@));
    true
}

impl PartialEq for Glue {
    fn eq(&self, other: &Glue) -> (r: bool) {
        match (self, other) {
            (Glue::Bin, Glue::Bin) => true,
            (Glue::Glob(a), Glue::Glob(b)) => strings_eq(a, b),
            _ => false,
        }
    }
}

impl vstd::std_specs::cmp::PartialEqSpecImpl for Glue {
    open spec fn obeys_eq_spec() -> bool {
        true
    }

    open spec fn eq_spec(&self, other: &Glue) -> bool {
        self@ == other@
    }
}

/// The configuration a package carries inside its own tree.
#[derive(Debug, Clone)]
pub struct PackageConfig {
    pub name: String,
    pub version: String,
    pub depends: Vec<Dependency>,
    pub glue: Vec<Glue>,
}

/// The view of a list of dependencies.
pub open spec fn deps_view(d: Seq<Dependency>) -> Seq<(Seq<char>, Seq<char>)> {
    d.map_values(|x: Dependency| x@)
}

/// Two lists of dependencies are equal record by record.
pub fn dependencies_eq(a: &Vec<Dependency>, b: &Vec<Dependency>) -> (r: bool)
    ensures
        r == (deps_view(a@) == deps_view(b@)),
{
    if a.len() != b.len() {
        assert(deps_view(a@).len() != deps_view(b@).len());
        return false;
    }
    let mut i: usize = 0;
    while i < a.len()
        invariant
            i <= a.len(),
            a.len() == b.len(),
            forall|j: int| 0 <= j < i ==> a@[j]@ == b@[j]@,
        decreases a.len() - i,
    {
        if a[i] != b[i] {
            assert(deps_view(a@)[i as int] != deps_view(b@)[i as int]);
            return false;
        }
        i += 1;
    }
    assert(deps_view(a@) =~= deps_view(b@));
    true
}

/// A copy of a list of dependencies.
pub fn clone_dependencies(v: &Vec<Dependency>) -> (r: Vec<Dependency>)
    ensures
        deps_view(r@) == deps_view(v@),
{
    let mut r: Vec<Dependency> = Vec::new();
    let mut i: usize = 0;
    while i < v.len()
        invariant
            i <= v.len(),
            r@.len() == i,
            forall|j: int| 0 <= j < i ==> r@[j]@ == v@[j]@,
        decreases v.len() - i,
    {
        r.push(v[i].duplicate());
        i += 1;
    }
    assert(deps_view(r@) =~= deps_view(v@));
    r
}

impl PartialEq for PackageConfig {
    fn eq(&self, other: &PackageConfig) -> (r: bool) {
        self.name == other.name && self.version == other.version && dependencies_eq(
            &self.depends,
            &other.depends,
        )
    }
}

impl vstd::std_specs::cmp::PartialEqSpecImpl for PackageConfig {
    open spec fn obeys_eq_spec() -> bool {
        true
    }

    /// Configurations are equal by name, version and dependencies; glue is
    /// not compared.
    open spec fn eq_spec(&self, other: &PackageConfig) -> bool {
        &&& self.name@ == other.name@
        &&& self.version@ == other.version@
        &&& deps_view(self.depends@) == deps_view(other.depends@)
    }
}

/// Errors of looking up a piece of a split string.
#[derive(Debug, Clone, Copy, PartialEq, Eq, Structural)]
pub enum PieceError {
    /// The index is past the last piece.
    OutOfRange,
}

/// The `i`-th piece of a split string, or an error past the end.
pub fn index_or_err_str(s: &Vec<&str>, i: usize) -> (r: Result<String, PieceError>)
    ensures
        r is Ok <==> i < s@.len(),
        r matches Ok(x) ==> x@ == s@[i as int]@,
{
    if i < s.len() {
        Ok(String::from_str(s[i]))
    } else {
        Err(PieceError::OutOfRange)
    }
}

/// Index of the last `c` in `s`, or `-1` when there is none.
pub open spec fn last_index_of(s: Seq<char>, c: char) -> int
    decreases s.len(),
{
    if s.len() == 0 {
        -1
    } else if s.last() == c {
        s.len() - 1
    } else {
        last_index_of(s.drop_last(), c)
    }
}

/// Errors of reading a package identity from one string.
#[derive(Debug, Clone, Copy, PartialEq, Eq, Structural)]
pub enum PackageError {
    /// The string would give a package with an empty name.
    EmptyName,
}

/// What `<name>-<version>` reads as: the last `-`-separated segment is the
/// version when it parses, the rest the name; otherwise the whole string is
/// the name and the version is empty. `None` where the name would be empty.
pub open spec fn package_of_string(s: Seq<char>) -> Option<(Seq<char>, Seq<char>)> {
    let d = last_index_of(s, '-');
    let candidate = s.skip(d + 1);
    if parse_version(candidate) is Some {
        if d <= 0 {
            None
        } else {
            Some((s.take(d), candidate))
        }
    } else if s.len() == 0 {
        None
    } else {
        Some((s, Seq::<char>::empty()))
    }
}

proof fn lemma_last_index_of(s: Seq<char>, c: char, k: int)
    requires
        -1 <= k < s.len(),
        forall|j: int| k < j < s.len() ==> s[j] != c,
        k == -1 || s[k] == c,
    ensures
        last_index_of(s, c) == k,
    decreases s.len(),
{
    if s.len() > 0 && s.last() != c {
        lemma_last_index_of(s.drop_last(), c, k);
    }
}

/// Reads a package identity from `<name>-<version>`.
pub fn string_to_package(s: &str) -> (r: Result<Package, PackageError>)
    ensures
        r is Ok <==> package_of_string(s@) is Some,
        r matches Ok(p) ==> package_of_string(s@) == Some(p@),
{
    let len = s.unicode_len();
    let mut k: usize = len;
    while k > 0 && s.get_char(k - 1) != '-'
        invariant
            k <= len,
            len == s@.len(),
            forall|j: int| k <= j < len ==> s@[j] != '-',
        decreases k,
    {
        k -= 1;
    }
    proof {
        lemma_last_index_of(s@, '-', k as int - 1);
    }
    let candidate = s.substring_char(k, len);
    assert(candidate@ =~= s@.skip(k as int));
    match Version::from_str(candidate) {
        Ok(_) => {
            if k <= 1 {
                Err(PackageError::EmptyName)
            } else {
                let name = s.substring_char(0, k - 1);
                assert(name@ =~= s@.take(k as int - 1));
                Ok(Package { name: String::from_str(name), version: String::from_str(candidate) })
            }
        },
        Err(_) => {
            if len == 0 {
                Err(PackageError::EmptyName)
            } else {
                Ok(Package { name: String::from_str(s), version: String::new() })
            }
        },
    }
}

} // verus!
