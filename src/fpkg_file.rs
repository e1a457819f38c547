//! The fpkg manifest: packages, users and groups read from a document.
use vstd::prelude::*;
use crate::doc::{as_string, as_u64, find_node, first_named, value_as_string, value_as_u64, Child, DocError, Node};
use crate::pkg::{clone_strings, strings_eq, Package};
use crate::text::{join_path, join_path_str};

verus! {

/// A user account of the fpkg manifest.
#[derive(Debug, Clone)]
pub struct User {
    pub username: String,
    pub password: String,
    pub uid: u64,
    pub gid: u64,
    pub gecos: String,
    pub home_dir: String,
    pub shell: String,
}

/// The abstract form of a user account.
pub struct UserView {
    pub username: Seq<char>,
    pub password: Seq<char>,
    pub uid: u64,
    pub gid: u64,
    pub gecos: Seq<char>,
    pub home_dir: Seq<char>,
    pub shell: Seq<char>,
}

impl View for User {
    type V = UserView;

    open spec fn view(&self) -> UserView {
        UserView {
            username: self.username@,
            password: self.password@,
            uid: self.uid,
            gid: self.gid,
            gecos: self.gecos@,
            home_dir: self.home_dir@,
            shell: self.shell@,
        }
    }
}

/// A group of the fpkg manifest.
#[derive(Debug, Clone)]
pub struct Group {
    pub groupname: String,
    pub gid: u64,
    pub members: Vec<String>,
}

/// The abstract form of a group.
pub struct GroupView {
    pub groupname: Seq<char>,
    pub gid: u64,
    pub members: Seq<Seq<char>>,
}

impl View for Group {
    type V = GroupView;

    open spec fn view(&self) -> GroupView {
        GroupView { groupname: self.groupname@, gid: self.gid, members: self.members@.map_values(|m: String| m@) }
    }
}

impl PartialEq for User {
    fn eq(&self, other: &User) -> (r: bool) {
        self.username == other.username && self.password == other.password && self.uid == other.uid
            && self.gid == other.gid && self.gecos == other.gecos && self.home_dir == other.home_dir
            && self.shell == other.shell
    }
}

impl vstd::std_specs::cmp::PartialEqSpecImpl for User {
    open spec fn obeys_eq_spec() -> bool {
        true
    }

    open spec fn eq_spec(&self, other: &User) -> bool {
        self@ == other@
    }
}

impl PartialEq for Group {
    fn eq(&self, other: &Group) -> (r: bool) {
        self.groupname == other.groupname && self.gid == other.gid && strings_eq(&self.members, &other.members)
    }
}

impl vstd::std_specs::cmp::PartialEqSpecImpl for Group {
    open spec fn obeys_eq_spec() -> bool {
        true
    }

    open spec fn eq_spec(&self, other: &Group) -> bool {
        self@ == other@
    }
}

/// The fpkg manifest.
#[derive(Debug, Clone)]
pub struct FpkgFile {
    pub packages: Vec<Package>,
    pub users: Vec<User>,
    pub groups: Vec<Group>,
}

/// The children of the first top-level node named `name`; none where there
/// is no such node or it has no block.
pub open spec fn section(ns: Seq<Node>, name: Seq<char>) -> Seq<Child> {
    let k = first_named(ns, name);
    if k < ns.len() {
        match ns[k].children {
            Some(cs) => cs@,
            None => Seq::empty(),
        }
    } else {
        Seq::empty()
    }
}

/// Reads every child with `f`, in order; the first error fails the whole.
pub open spec fn read_all<T>(cs: Seq<Child>, f: spec_fn(Child) -> Result<T, DocError>) -> Result<Seq<T>, DocError>
    decreases cs.len(),
{
    if cs.len() == 0 {
        Ok(Seq::empty())
    } else {
        match read_all(cs.drop_last(), f) {
            Err(e) => Err(e),
            Ok(xs) => match f(cs.last()) {
                Ok(x) => Ok(xs.push(x)),
                Err(e) => Err(e),
            },
        }
    }
}

proof fn lemma_read_all_step<T>(cs: Seq<Child>, f: spec_fn(Child) -> Result<T, DocError>, i: int)
    requires
        0 <= i < cs.len(),
    ensures
        read_all(cs.take(i + 1), f) == match read_all(cs.take(i), f) {
            Err(e) => Err(e),
            Ok(xs) => match f(cs[i]) {
                Ok(x) => Ok(xs.push(x)),
                Err(e) => Err(e),
            },
        },
{
    let t = cs.take(i + 1);
    assert(t.drop_last() =~= cs.take(i));
    assert(t.last() == cs[i]);
}

proof fn lemma_read_all_error<T>(cs: Seq<Child>, f: spec_fn(Child) -> Result<T, DocError>, i: int)
    requires
        0 <= i <= cs.len(),
        read_all(cs.take(i), f) is Err,
    ensures
        read_all(cs, f) == read_all(cs.take(i), f),
    decreases cs.len() - i,
{
    if i < cs.len() {
        lemma_read_all_step(cs, f, i);
        lemma_read_all_error(cs, f, i + 1);
    } else {
        assert(cs.take(i) =~= cs);
    }
}

/// A package line: the node's name, and its first value as the version
/// (empty where it has none).
pub open spec fn package_line(c: Child) -> Result<(Seq<char>, Seq<char>), DocError> {
    if c.entries@.len() == 0 {
        Ok((c.name@, Seq::empty()))
    } else {
        match as_string(c.entries@[0].value) {
            Ok(v) => Ok((c.name@, v)),
            Err(e) => Err(e),
        }
    }
}

/// A user line: the node's name, then password, uid, gid, gecos, home
/// directory and shell as its first six values.
pub open spec fn user_line(c: Child) -> Result<UserView, DocError> {
    let es = c.entries@;
    if es.len() < 6 {
        Err(DocError::NotEnoughEntries)
    } else {
        match (as_string(es[0].value), as_u64(es[1].value), as_u64(es[2].value), as_string(es[3].value), as_string(es[4].value), as_string(es[5].value)) {
            (Err(e), _, _, _, _, _) => Err(e),
            (Ok(_), Err(e), _, _, _, _) => Err(e),
            (Ok(_), Ok(_), Err(e), _, _, _) => Err(e),
            (Ok(_), Ok(_), Ok(_), Err(e), _, _) => Err(e),
            (Ok(_), Ok(_), Ok(_), Ok(_), Err(e), _) => Err(e),
            (Ok(_), Ok(_), Ok(_), Ok(_), Ok(_), Err(e)) => Err(e),
            (Ok(password), Ok(uid), Ok(gid), Ok(gecos), Ok(home_dir), Ok(shell)) => Ok(
                UserView { username: c.name@, password, uid, gid, gecos, home_dir, shell },
            ),
        }
    }
}

/// A group line: the node's name, its first value as the gid, and the names
/// of its children as the members.
pub open spec fn group_line(c: Child) -> Result<GroupView, DocError> {
    if c.entries@.len() == 0 {
        Err(DocError::MissingArgument)
    } else {
        match as_u64(c.entries@[0].value) {
            Err(e) => Err(e),
            Ok(gid) => Ok(GroupView {
                groupname: c.name@,
                gid,
                members: match c.children {
                    Some(ms) => ms@.map_values(|m: String| m@),
                    None => Seq::empty(),
                },
            }),
        }
    }
}

/// The abstract form of a whole fpkg manifest.
pub struct FpkgView {
    pub packages: Seq<(Seq<char>, Seq<char>)>,
    pub users: Seq<UserView>,
    pub groups: Seq<GroupView>,
}

/// What a document says as an fpkg manifest: its `packages`, `users` and
/// `groups` sections, read in that order.
pub open spec fn fpkg_of(ns: Seq<Node>) -> Result<FpkgView, DocError> {
    match read_all(section(ns, "packages"@), |c: Child| package_line(c)) {
        Err(e) => Err(e),
        Ok(packages) => match read_all(section(ns, "users"@), |c: Child| user_line(c)) {
            Err(e) => Err(e),
            Ok(users) => match read_all(section(ns, "groups"@), |c: Child| group_line(c)) {
                Err(e) => Err(e),
                Ok(groups) => Ok(FpkgView { packages, users, groups }),
            },
        },
    }
}

/// The children of the first node named `name`.
fn section_children<'a>(file: &'a Vec<Node>, name: &str) -> (r: Option<&'a Vec<Child>>)
    ensures
        match r {
            Some(cs) => cs@ == section(file@, name@),
            None => section(file@, name@) == Seq::<Child>::empty(),
        },
{
    match find_node(file, name) {
        Some(n) => match &n.children {
            Some(cs) => Some(cs),
            None => None,
        },
        None => None,
    }
}

fn read_packages(cs: &Vec<Child>) -> (r: Result<Vec<Package>, DocError>)
    ensures
        match read_all(cs@, |c: Child| package_line(c)) {
            Ok(xs) => r matches Ok(v) && v@.map_values(|p: Package| p@) == xs,
            Err(e) => r == Err::<Vec<Package>, DocError>(e),
        },
{
    let ghost f = |c: Child| package_line(c);
    let mut out: Vec<Package> = Vec::new();
    let mut i: usize = 0;
    assert(cs@.take(0) =~= Seq::<Child>::empty());
    assert(out@.map_values(|p: Package| p@) =~= Seq::<(Seq<char>, Seq<char>)>::empty());
    while i < cs.len()
        invariant
            i <= cs.len(),
            f == (|c: Child| package_line(c)),
            read_all(cs@.take(i as int), f) == Ok::<Seq<(Seq<char>, Seq<char>)>, DocError>(out@.map_values(|p: Package| p@)),
        decreases cs.len() - i,
    {
        proof { lemma_read_all_step(cs@, f, i as int); }
        let c = &cs[i];
        let version = if c.entries.len() == 0 {
            String::new()
        } else {
            match value_as_string(&c.entries[0].value) {
                Ok(v) => v,
                Err(e) => {
                    proof { lemma_read_all_error(cs@, f, i as int + 1); }
                    return Err(e);
                },
            }
        };
        let ghost prev = out@.map_values(|p: Package| p@);
        out.push(Package::new(c.name.clone(), version));
        assert(out@.map_values(|p: Package| p@) =~= prev.push(out@.last()@));
        i += 1;
    }
    assert(cs@.take(cs.len() as int) =~= cs@);
    Ok(out)
}

fn read_users(cs: &Vec<Child>) -> (r: Result<Vec<User>, DocError>)
    ensures
        match read_all(cs@, |c: Child| user_line(c)) {
            Ok(xs) => r matches Ok(v) && v@.map_values(|u: User| u@) == xs,
            Err(e) => r == Err::<Vec<User>, DocError>(e),
        },
{
    let ghost f = |c: Child| user_line(c);
    let mut out: Vec<User> = Vec::new();
    let mut i: usize = 0;
    assert(cs@.take(0) =~= Seq::<Child>::empty());
    assert(out@.map_values(|u: User| u@) =~= Seq::<UserView>::empty());
    while i < cs.len()
        invariant
            i <= cs.len(),
            f == (|c: Child| user_line(c)),
            read_all(cs@.take(i as int), f) == Ok::<Seq<UserView>, DocError>(out@.map_values(|u: User| u@)),
        decreases cs.len() - i,
    {
        proof { lemma_read_all_step(cs@, f, i as int); }
        let c = &cs[i];
        let es = &c.entries;
        if es.len() < 6 {
            proof { lemma_read_all_error(cs@, f, i as int + 1); }
            return Err(DocError::NotEnoughEntries);
        }
        let password = value_as_string(&es[0].value);
        let uid = value_as_u64(&es[1].value);
        let gid = value_as_u64(&es[2].value);
        let gecos = value_as_string(&es[3].value);
        let home_dir = value_as_string(&es[4].value);
        let shell = value_as_string(&es[5].value);
        match (password, uid, gid, gecos, home_dir, shell) {
            (Ok(password), Ok(uid), Ok(gid), Ok(gecos), Ok(home_dir), Ok(shell)) => {
                let ghost prev = out@.map_values(|u: User| u@);
                out.push(User { username: c.name.clone(), password, uid, gid, gecos, home_dir, shell });
                assert(out@.map_values(|u: User| u@) =~= prev.push(out@.last()@));
            },
            (p, u, g, ge, h, s) => {
                let e = if let Err(e) = p {
                    e
                } else if let Err(e) = u {
                    e
                } else if let Err(e) = g {
                    e
                } else if let Err(e) = ge {
                    e
                } else if let Err(e) = h {
                    e
                } else if let Err(e) = s {
                    e
                } else {
                    DocError::NotEnoughEntries
                };
                proof { lemma_read_all_error(cs@, f, i as int + 1); }
                return Err(e);
            },
        }
        i += 1;
    }
    assert(cs@.take(cs.len() as int) =~= cs@);
    Ok(out)
}

fn read_groups(cs: &Vec<Child>) -> (r: Result<Vec<Group>, DocError>)
    ensures
        match read_all(cs@, |c: Child| group_line(c)) {
            Ok(xs) => r matches Ok(v) && v@.map_values(|g: Group| g@) == xs,
            Err(e) => r == Err::<Vec<Group>, DocError>(e),
        },
{
    let ghost f = |c: Child| group_line(c);
    let mut out: Vec<Group> = Vec::new();
    let mut i: usize = 0;
    assert(cs@.take(0) =~= Seq::<Child>::empty());
    assert(out@.map_values(|g: Group| g@) =~= Seq::<GroupView>::empty());
    while i < cs.len()
        invariant
            i <= cs.len(),
            f == (|c: Child| group_line(c)),
            read_all(cs@.take(i as int), f) == Ok::<Seq<GroupView>, DocError>(out@.map_values(|g: Group| g@)),
        decreases cs.len() - i,
    {
        proof { lemma_read_all_step(cs@, f, i as int); }
        let c = &cs[i];
        if c.entries.len() == 0 {
            proof { lemma_read_all_error(cs@, f, i as int + 1); }
            return Err(DocError::MissingArgument);
        }
        let gid = match value_as_u64(&c.entries[0].value) {
            Ok(g) => g,
            Err(e) => {
                proof { lemma_read_all_error(cs@, f, i as int + 1); }
                return Err(e);
            },
        };
        let members = match &c.children {
            Some(ms) => clone_strings(ms),
            None => Vec::new(),
        };
        proof {
            if c.children is None {
                assert(members@.map_values(|m: String| m@) =~= Seq::<Seq<char>>::empty());
            }
        }
        let ghost prev = out@.map_values(|g: Group| g@);
        out.push(Group { groupname: c.name.clone(), gid, members });
        assert(out@.map_values(|g: Group| g@) =~= prev.push(out@.last()@));
        i += 1;
    }
    assert(cs@.take(cs.len() as int) =~= cs@);
    Ok(out)
}

/// Reads an fpkg manifest from its document.
pub fn parse_fpkg_file(file: &Vec<Node>) -> (r: Result<FpkgFile, DocError>)
    ensures
        match fpkg_of(file@) {
            Ok(v) => r matches Ok(x) && x.packages@.map_values(|p: Package| p@) == v.packages
                && x.users@.map_values(|u: User| u@) == v.users
                && x.groups@.map_values(|g: Group| g@) == v.groups,
            Err(e) => r matches Err(x) && x == e,
        },
{
    let empty: Vec<Child> = Vec::new();
    assert(empty@ =~= Seq::<Child>::empty());
    let packages = match section_children(file, "packages") {
        Some(cs) => read_packages(cs),
        None => read_packages(&empty),
    };
    let packages = match packages {
        Ok(p) => p,
        Err(e) => {
            return Err(e);
        },
    };
    let users = match section_children(file, "users") {
        Some(cs) => read_users(cs),
        None => read_users(&empty),
    };
    let users = match users {
        Ok(u) => u,
        Err(e) => {
            return Err(e);
        },
    };
    let groups = match section_children(file, "groups") {
        Some(cs) => read_groups(cs),
        None => read_groups(&empty),
    };
    let groups = match groups {
        Ok(g) => g,
        Err(e) => {
            return Err(e);
        },
    };
    Ok(FpkgFile { packages, users, groups })
}

/// Where the fpkg manifest lives in its directory.
pub fn get_fpkg_file_location(fpkg_dir: &str) -> (r: String)
    ensures
        r@ == join_path(fpkg_dir@, "fpkg.kdl"@),
{
    join_path_str(fpkg_dir, "fpkg.kdl")
}

/// Where the fpkg lockfile lives in its directory.
pub fn get_fpkg_lock_location(fpkg_dir: &str) -> (r: String)
    ensures
        r@ == join_path(fpkg_dir@, "fpkg.lock"@),
{
    join_path_str(fpkg_dir, "fpkg.lock")
}

} // verus!
