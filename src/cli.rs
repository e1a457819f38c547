//! Command-level decisions: which commands need root, how the run commands
//! read their arguments, and what `gen-index` records for an archive.
use vstd::prelude::*;
use crate::pkg::{clone_dependencies, deps_view, PackageConfig};
use crate::repo::{OnlinePackage, OnlineRecord};
use crate::text::str_eq;

verus! {

/// The exit code for a usage error.
pub const EXIT_USAGE: i32 = 64;

/// Commands that run without root: every other command needs an effective
/// uid of 0.
pub open spec fn runs_unprivileged(cmd: Seq<char>) -> bool {
    cmd == "gen-pkg"@ || cmd == "gen-index"@
}

/// Whether a command needs the tool to run as root.
pub fn command_requires_root(cmd: &str) -> (r: bool)
    ensures
        r == !runs_unprivileged(cmd@),
{
    !(str_eq(cmd, "gen-pkg") || str_eq(cmd, "gen-index"))
}

/// How the run commands read their arguments so far.
#[derive(Debug, Clone, Copy, PartialEq, Eq, Structural)]
pub enum ArgMode {
    /// Package names, or `--cmd`/`-c`, or `--`.
    Packages,
    /// The next argument names the command.
    Command,
    /// Everything from here on goes to the child.
    Child,
}

/// The arguments of `run-multi` and `dev-env`: packages, the command to
/// run, and the child's arguments.
#[derive(Debug, Clone)]
pub struct RunArgs {
    pub packages: Vec<String>,
    pub cmd: Option<String>,
    pub child_args: Vec<String>,
    pub mode: ArgMode,
}

/// The abstract form of the run arguments.
pub struct RunArgsView {
    pub packages: Seq<Seq<char>>,
    pub cmd: Option<Seq<char>>,
    pub child_args: Seq<Seq<char>>,
    pub mode: ArgMode,
}

impl View for RunArgs {
    type V = RunArgsView;

    open spec fn view(&self) -> RunArgsView {
        RunArgsView {
            packages: self.packages@.map_values(|s: String| s@),
            cmd: match self.cmd {
                Some(c) => Some(c@),
                None => None,
            },
            child_args: self.child_args@.map_values(|s: String| s@),
            mode: self.mode,
        }
    }
}

/// The run arguments after one more argument: `--cmd` or `-c` names the
/// command with the argument after it; `--` hands the rest to the child;
/// anything else names a package.
pub open spec fn arg_step(s: RunArgsView, t: Seq<char>) -> RunArgsView {
    match s.mode {
        ArgMode::Child => RunArgsView { child_args: s.child_args.push(t), ..s },
        ArgMode::Command => RunArgsView { cmd: Some(t), mode: ArgMode::Packages, ..s },
        ArgMode::Packages => if t == "--"@ {
            RunArgsView { mode: ArgMode::Child, ..s }
        } else if t == "--cmd"@ || t == "-c"@ {
            RunArgsView { mode: ArgMode::Command, ..s }
        } else {
            RunArgsView { packages: s.packages.push(t), ..s }
        },
    }
}

/// The run arguments that a list of arguments gives.
pub open spec fn run_args_of(ts: Seq<Seq<char>>) -> RunArgsView
    decreases ts.len(),
{
    if ts.len() == 0 {
        RunArgsView { packages: Seq::empty(), cmd: None, child_args: Seq::empty(), mode: ArgMode::Packages }
    } else {
        arg_step(run_args_of(ts.drop_last()), ts.last())
    }
}

/// Reads the arguments that follow `run-multi` or `dev-env`.
pub fn parse_run_args(args: &Vec<String>) -> (r: RunArgs)
    ensures
        r@ == run_args_of(args@.map_values(|s: String| s@)),
{
    let ghost ts = args@.map_values(|s: String| s@);
    let mut r = RunArgs { packages: Vec::new(), cmd: None, child_args: Vec::new(), mode: ArgMode::Packages };
    assert(r@.packages =~= Seq::<Seq<char>>::empty());
    assert(r@.child_args =~= Seq::<Seq<char>>::empty());
    let mut i: usize = 0;
    while i < args.len()
        invariant
            i <= args.len(),
            ts == args@.map_values(|s: String| s@),
            r@ == run_args_of(ts.take(i as int)),
        decreases args.len() - i,
    {
        let ghost t = ts.take(i as int + 1);
        assert(t.drop_last() =~= ts.take(i as int));
        assert(t.last() == args@[i as int]@);
        let ghost before = r@;
        let a = &args[i];
        match r.mode {
            ArgMode::Child => {
                r.child_args.push(a.clone());
                assert(r@.child_args =~= before.child_args.push(a@));
            },
            ArgMode::Command => {
                r.cmd = Some(a.clone());
                r.mode = ArgMode::Packages;
            },
            ArgMode::Packages => {
                if str_eq(a.as_str(), "--") {
                    r.mode = ArgMode::Child;
                } else if str_eq(a.as_str(), "--cmd") || str_eq(a.as_str(), "-c") {
                    r.mode = ArgMode::Command;
                } else {
                    r.packages.push(a.clone());
                    assert(r@.packages =~= before.packages.push(a@));
                }
            },
        }
        assert(r@ == arg_step(before, a@));
        i += 1;
    }
    assert(ts.take(args.len() as int) =~= ts);
    r
}

/// An archive's path with a leading `./` removed.
pub open spec fn index_path(p: Seq<char>) -> Seq<char> {
    if p.len() >= 2 && p[0] == '.' && p[1] == '/' {
        p.skip(2)
    } else {
        p
    }
}

/// Index of the last `/` of `p`, or `-1`.
pub open spec fn last_slash(p: Seq<char>) -> int
    decreases p.len(),
{
    if p.len() == 0 {
        -1
    } else if p.last() == '/' {
        p.len() - 1
    } else {
        last_slash(p.drop_last())
    }
}

/// The file name of a path has the extension `.dpt`: it ends in `.dpt` and
/// has more before it.
pub open spec fn is_archive_path(p: Seq<char>) -> bool {
    let name = p.skip(last_slash(p) + 1);
    &&& name.len() > 4
    &&& name.skip(name.len() - 4) == seq!['.', 'd', 'p', 't']
}

proof fn lemma_last_slash(p: Seq<char>, k: int)
    requires
        -1 <= k < p.len(),
        forall|j: int| k < j < p.len() ==> p[j] != '/',
        k == -1 || p[k] == '/',
    ensures
        last_slash(p) == k,
    decreases p.len(),
{
    if p.len() > 0 && p.last() != '/' {
        lemma_last_slash(p.drop_last(), k);
    }
}

/// Whether a path names a package archive.
pub fn is_package_archive(path: &str) -> (r: bool)
    ensures
        r == is_archive_path(path@),
{
    let len = path.unicode_len();
    let mut k: usize = len;
    while k > 0 && path.get_char(k - 1) != '/'
        invariant
            k <= len,
            len == path@.len(),
            forall|j: int| k <= j < len ==> path@[j] != '/',
        decreases k,
    {
        k -= 1;
    }
    proof {
        lemma_last_slash(path@, k as int - 1);
    }
    let ghost name = path@.skip(k as int);
    if len - k <= 4 {
        return false;
    }
    let r = path.get_char(len - 4) == '.' && path.get_char(len - 3) == 'd' && path.get_char(len - 2) == 'p'
        && path.get_char(len - 1) == 't';
    assert(name.skip(name.len() - 4) =~= path@.skip(len as int - 4));
    assert(r == (path@.skip(len as int - 4) =~= seq!['.', 'd', 'p', 't']));
    r
}

/// The index record of an archive: what it declares of itself, with its
/// path as the URL.
pub open spec fn archive_record(path: Seq<char>, c: PackageConfig) -> OnlineRecord {
    OnlineRecord { name: c.name@, version: c.version@, url: index_path(path), depends: deps_view(c.depends@) }
}

/// The index record `gen-index` writes for an archive found at `path`
/// (relative to the directory scanned) that declares `cfg`.
pub fn gen_index_record(path: &str, cfg: &PackageConfig) -> (r: OnlinePackage)
    ensures
        r@ == archive_record(path@, *cfg),
{
    let len = path.unicode_len();
    let url = if len >= 2 && path.get_char(0) == '.' && path.get_char(1) == '/' {
        let rest = path.substring_char(2, len);
        assert(rest@ =~= path@.skip(2));
        String::from_str(rest)
    } else {
        String::from_str(path)
    };
    OnlinePackage {
        name: cfg.name.clone(),
        version: cfg.version.clone(),
        url,
        depends: clone_dependencies(&cfg.depends),
    }
}

} // verus!
