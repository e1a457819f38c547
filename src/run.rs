//! The sandbox's decisions: scratch names, bind targets, the executable to
//! start, exit codes and the unmount teardown.
use vstd::prelude::*;
use rand::Rng;
use crate::pkg::Package;
use crate::text::{join_path, join_path_str, push_char, push_decimal, decimal};

verus! {

/// The scratch area used when none is configured.
pub const DEFAULT_RUN_DIR: &'static str = "/dpt/run/";

/// The token that starts the second stage (chroot, privilege drop, exec).
pub const SECOND_STAGE_TOKEN: &'static str = "chroot-not-intended-for-interactive-use";

/// The exit code reported for a child that ended without one.
pub const SIGNALLED_EXIT_CODE: i32 = 89;

/// How many unmount passes teardown makes before it gives up.
pub const UNMOUNT_PASSES: u32 = 10;

/// Length of the random part of a scratch directory's name.
pub const SCRATCH_NAME_LEN: usize = 10;

/// The scratch area: the configured one, else the default.
pub fn get_run_location(configured: Option<String>) -> (r: String)
    ensures
        r@ == match configured {
            Some(x) => x@,
            None => DEFAULT_RUN_DIR@,
        },
{
    match configured {
        Some(x) => x,
        None => String::from_str(DEFAULT_RUN_DIR),
    }
}

/// `c` is an ASCII letter or digit.
pub open spec fn is_alphanumeric(c: char) -> bool {
    ('a' <= c && c <= 'z') || ('A' <= c && c <= 'Z') || ('0' <= c && c <= '9')
}

/// Relies on `rand::rng` and the `rand::distr::Alphanumeric` distribution:
/// one of `A-Z`, `a-z`, `0-9`, drawn from the thread's generator.
#[verifier::external_body]
fn random_alphanumeric() -> (c: char)
    ensures
        is_alphanumeric(c),
{
    rand::rng().sample(rand::distr::Alphanumeric) as char
}

/// A random string of ASCII letters and digits.
pub fn get_random_string(length: usize) -> (r: String)
    ensures
        r@.len() == length,
        forall|i: int| 0 <= i < r@.len() ==> is_alphanumeric(#[trigger] r@[i]),
{
    let mut ret = String::new();
    let mut i: usize = 0;
    while i < length
        invariant
            i <= length,
            ret@.len() == i,
            forall|j: int| 0 <= j < ret@.len() ==> is_alphanumeric(#[trigger] ret@[j]),
        decreases length - i,
    {
        let c = random_alphanumeric();
        push_char(&mut ret, c);
        i += 1;
    }
    ret
}

/// A path with its leading `/`s removed.
pub open spec fn relative_path(a: Seq<char>) -> Seq<char>
    decreases a.len(),
{
    if a.len() > 0 && a[0] == '/' {
        relative_path(a.drop_first())
    } else {
        a
    }
}

/// Makes a path relative by removing its leading `/`s.
pub fn make_path_relative(a: &str) -> (r: String)
    ensures
        r@ == relative_path(a@),
{
    let len = a.unicode_len();
    let mut i: usize = 0;
    assert(a@.skip(0) =~= a@);
    while i < len && a.get_char(i) == '/'
        invariant
            i <= len,
            len == a@.len(),
            relative_path(a@) == relative_path(a@.skip(i as int)),
        decreases len - i,
    {
        assert(a@.skip(i as int).drop_first() =~= a@.skip(i as int + 1));
        i += 1;
    }
    let rest = a.substring_char(i, len);
    assert(rest@ =~= a@.skip(i as int));
    String::from_str(rest)
}

/// Joins `b` below `a` even where `b` is absolute.
pub fn join_proper(a: &str, b: &str) -> (r: String)
    ensures
        r@ == join_path(a@, relative_path(b@)),
{
    let rel = make_path_relative(b);
    join_path_str(a, rel.as_str())
}

/// The scratch directory for one run.
pub fn scratch_location(run_dir: &str, name: &str) -> (r: String)
    ensures
        r@ == join_path(run_dir@, name@),
{
    join_path_str(run_dir, name)
}

/// The host directories bound into every sandbox, relative to `/`.
pub fn auto_binds() -> (r: Vec<&'static str>)
    ensures
        r@.len() == 8,
        r@[0]@ == "dev"@,
        r@[1]@ == "mnt"@,
        r@[2]@ == "media"@,
        r@[3]@ == "run"@,
        r@[4]@ == "var"@,
        r@[5]@ == "home"@,
        r@[6]@ == "tmp"@,
        r@[7]@ == "proc"@,
{
    vec!["dev", "mnt", "media", "run", "var", "home", "tmp", "proc"]
}

/// The host directory `/<name>` and its bind target in the scratch directory.
pub open spec fn bind_pair(scratch: Seq<char>, name: Seq<char>) -> (Seq<char>, Seq<char>) {
    (seq!['/'] + name, join_path(scratch, name))
}

/// The binds to make, as (host source, target) pairs, in the order of
/// `names`: those whose host directory exists and whose target does not.
pub open spec fn binds_to_make(scratch: Seq<char>, names: Seq<Seq<char>>, on_host: Seq<bool>, in_scratch: Seq<bool>) -> Seq<(Seq<char>, Seq<char>)>
    decreases names.len(),
{
    if names.len() == 0 {
        Seq::empty()
    } else {
        let n = (names.len() - 1) as int;
        let rest = binds_to_make(scratch, names.drop_last(), on_host, in_scratch);
        if on_host[n] && !in_scratch[n] {
            rest.push(bind_pair(scratch, names[n]))
        } else {
            rest
        }
    }
}

/// The binds to make for a scratch directory; `on_host[i]` and
/// `in_scratch[i]` say whether `names[i]` exists on the host and already in
/// the scratch directory.
pub fn bind_targets(scratch: &str, names: &Vec<&str>, on_host: &Vec<bool>, in_scratch: &Vec<bool>) -> (r: Vec<(String, String)>)
    requires
        on_host@.len() == names@.len(),
        in_scratch@.len() == names@.len(),
    ensures
        r@.map_values(|p: (String, String)| (p.0@, p.1@)) == binds_to_make(
            scratch@,
            names@.map_values(|s: &str| s@),
            on_host@,
            in_scratch@,
        ),
{
    let ghost ns = names@.map_values(|s: &str| s@);
    let mut out: Vec<(String, String)> = Vec::new();
    let mut i: usize = 0;
    while i < names.len()
        invariant
            i <= names.len(),
            on_host@.len() == names@.len(),
            in_scratch@.len() == names@.len(),
            ns == names@.map_values(|s: &str| s@),
            out@.map_values(|p: (String, String)| (p.0@, p.1@)) == binds_to_make(
                scratch@,
                ns.take(i as int),
                on_host@,
                in_scratch@,
            ),
        decreases names.len() - i,
    {
        let ghost t = ns.take(i as int + 1);
        assert(t.drop_last() =~= ns.take(i as int));
        if on_host[i] && !in_scratch[i] {
            let mut src = String::new();
            push_char(&mut src, '/');
            src.append(names[i]);
            let target = join_path_str(scratch, names[i]);
            out.push((src, target));
            assert(out@.map_values(|p: (String, String)| (p.0@, p.1@)) =~= binds_to_make(
                scratch@,
                t,
                on_host@,
                in_scratch@,
            ));
        }
        i += 1;
    }
    assert(ns.take(names.len() as int) =~= ns);
    out
}

/// The executable to start inside the sandbox: `/bin/<cmd>` where the
/// environment has it, else `/usr/bin/<cmd>`, else none.
pub fn locate_executable(in_bin: bool, in_usr_bin: bool, cmd: &str) -> (r: Option<String>)
    ensures
        r matches Some(x) ==> x@ == (if in_bin {
            join_path("/bin"@, cmd@)
        } else {
            join_path("/usr/bin"@, cmd@)
        }),
        r is None <==> !in_bin && !in_usr_bin,
{
    if in_bin {
        Some(join_path_str("/bin", cmd))
    } else if in_usr_bin {
        Some(join_path_str("/usr/bin", cmd))
    } else {
        None
    }
}

/// The tool's exit code for a child's: its own, or 89 where it had none.
pub fn child_exit_code(code: Option<i32>) -> (r: i32)
    ensures
        r == match code {
            Some(c) => c,
            None => SIGNALLED_EXIT_CODE,
        },
{
    match code {
        Some(c) => c,
        None => SIGNALLED_EXIT_CODE,
    }
}

/// The command to run: the one given, else the first package's name.
pub fn command_name(pkgs: &Vec<Package>, cmd: Option<&str>) -> (r: Option<String>)
    ensures
        r is None <==> cmd is None && pkgs@.len() == 0,
        r matches Some(x) ==> x@ == match cmd {
            Some(c) => c@,
            None => pkgs@[0].name@,
        },
{
    match cmd {
        Some(c) => Some(String::from_str(c)),
        None => if pkgs.len() == 0 {
            None
        } else {
            Some(pkgs[0].name.clone())
        },
    }
}

/// The arguments of the second stage: the token, the scratch directory, the
/// user id, the executable, `replace` or `new`, then the child's arguments.
pub open spec fn second_stage_arguments(dir: Seq<char>, uid: u32, exe: Seq<char>, replace: bool, args: Seq<Seq<char>>) -> Seq<Seq<char>> {
    seq![
        SECOND_STAGE_TOKEN@,
        dir,
        decimal(uid as nat),
        exe,
        if replace { "replace"@ } else { "new"@ },
    ] + args
}

/// Builds the second stage's arguments.
pub fn second_stage_args(dir: &str, uid: u32, exe: &str, replace: bool, args: &Vec<String>) -> (r: Vec<String>)
    ensures
        r@.map_values(|s: String| s@) == second_stage_arguments(dir@, uid, exe@, replace, args@.map_values(|s: String| s@)),
{
    let mut out: Vec<String> = Vec::new();
    out.push(String::from_str(SECOND_STAGE_TOKEN));
    out.push(String::from_str(dir));
    let mut u = String::new();
    push_decimal(&mut u, uid as u64);
    assert(u@ =~= decimal(uid as nat));
    out.push(u);
    out.push(String::from_str(exe));
    if replace {
        out.push(String::from_str("replace"));
    } else {
        out.push(String::from_str("new"));
    }
    let ghost head = out@.map_values(|s: String| s@);
    assert(head =~= seq![
        SECOND_STAGE_TOKEN@,
        dir@,
        decimal(uid as nat),
        exe@,
        if replace { "replace"@ } else { "new"@ },
    ]);
    let mut i: usize = 0;
    while i < args.len()
        invariant
            i <= args.len(),
            out@.len() == 5 + i,
            head.len() == 5,
            forall|j: int| 0 <= j < 5 ==> (#[trigger] out@[j])@ == head[j],
            forall|j: int| 0 <= j < i ==> (#[trigger] out@[5 + j])@ == args@[j]@,
        decreases args.len() - i,
    {
        out.push(args[i].clone());
        i += 1;
    }
    let ghost a = args@.map_values(|s: String| s@);
    assert forall|j: int| 0 <= j < out@.len() implies (#[trigger] out@[j])@ == (head + a)[j] by {
        if j >= 5 {
            assert(out@[5 + (j - 5)]@ == args@[j - 5]@);
        }
    }
    assert(out@.map_values(|s: String| s@) =~= second_stage_arguments(dir@, uid, exe@, replace, args@.map_values(|s: String| s@)));
    out
}

/// What teardown does after an unmount pass.
#[derive(Debug, Clone, Copy, PartialEq, Eq, Structural)]
pub enum TeardownStep {
    /// Every bind is gone: remove the scratch directory.
    RemoveScratch,
    /// Binds remain and passes are left: unmount again.
    Retry,
    /// Binds remain after the last pass: stop without removing anything.
    Abort,
}

/// Decides teardown after `passes_done` unmount passes left `remaining` binds.
pub fn teardown_step(passes_done: u32, remaining: usize) -> (r: TeardownStep)
    ensures
        r == next_teardown(passes_done as nat, remaining as nat),
{
    if remaining == 0 {
        TeardownStep::RemoveScratch
    } else if passes_done < UNMOUNT_PASSES {
        TeardownStep::Retry
    } else {
        TeardownStep::Abort
    }
}

/// The teardown decision after `passes_done` passes leaving `remaining` binds.
pub open spec fn next_teardown(passes_done: nat, remaining: nat) -> TeardownStep {
    if remaining == 0 {
        TeardownStep::RemoveScratch
    } else if passes_done < UNMOUNT_PASSES {
        TeardownStep::Retry
    } else {
        TeardownStep::Abort
    }
}

/// How a teardown ends when pass `p` (from 1) leaves `left[p - 1]` binds,
/// starting after `done` passes.
pub open spec fn teardown_outcome(left: Seq<nat>, done: nat) -> TeardownStep
    decreases UNMOUNT_PASSES - done,
{
    if done >= left.len() || done >= UNMOUNT_PASSES {
        TeardownStep::Abort
    } else {
        match next_teardown(done + 1, left[done as int]) {
            TeardownStep::Retry => teardown_outcome(left, done + 1),
            s => s,
        }
    }
}

/// Teardown removes the scratch directory exactly when some pass within the
/// budget leaves no bind mounted; otherwise it aborts and removes nothing.
pub proof fn lemma_teardown_safety(left: Seq<nat>)
    requires
        left.len() >= UNMOUNT_PASSES,
    ensures
        teardown_outcome(left, 0) == TeardownStep::RemoveScratch <==> exists|p: int|
            0 <= p < UNMOUNT_PASSES && left[p] == 0,
        teardown_outcome(left, 0) == TeardownStep::Abort <==> forall|p: int|
            0 <= p < UNMOUNT_PASSES ==> left[p] > 0,
{
    lemma_teardown_from(left, 0);
}

proof fn lemma_teardown_from(left: Seq<nat>, done: nat)
    requires
        left.len() >= UNMOUNT_PASSES,
        done <= UNMOUNT_PASSES,
    ensures
        teardown_outcome(left, done) != TeardownStep::Retry,
        teardown_outcome(left, done) == TeardownStep::RemoveScratch <==> exists|p: int|
            done <= p < UNMOUNT_PASSES && left[p] == 0,
    decreases UNMOUNT_PASSES - done,
{
    if done < UNMOUNT_PASSES {
        lemma_teardown_from(left, done + 1);
        if left[done as int] != 0 {
            assert forall|p: int| done <= p < UNMOUNT_PASSES && left[p] == 0 implies done + 1 <= p by {}
        }
    }
}

} // verus!
