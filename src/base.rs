//! The base skeleton: account databases, login defaults and the directory
//! layout generated from the manifest.
use vstd::prelude::*;
use crate::dpt_file::{DptFile, Group, User};
use crate::text::{decimal, push_char, push_decimal};

verus! {

/// The `/etc/passwd` line of a user.
pub open spec fn passwd_line(u: User) -> Seq<char> {
    u.username@ + seq![':', 'x', ':'] + decimal(u.uid as nat) + seq![':'] + decimal(u.gid as nat)
        + seq![':'] + u.gecos@ + seq![':'] + u.home@ + seq![':'] + u.shell@ + seq!['\n']
}

/// The whole `/etc/passwd`: one line per user, in order.
pub open spec fn passwd_text(us: Seq<User>) -> Seq<char>
    decreases us.len(),
{
    if us.len() == 0 {
        Seq::empty()
    } else {
        passwd_text(us.drop_last()) + passwd_line(us.last())
    }
}

/// Texts joined with a separator between neighbours.
pub open spec fn join_with(ms: Seq<Seq<char>>, sep: char) -> Seq<char>
    decreases ms.len(),
{
    if ms.len() == 0 {
        Seq::empty()
    } else if ms.len() == 1 {
        ms[0]
    } else {
        join_with(ms.drop_last(), sep) + seq![sep] + ms.last()
    }
}

/// The `/etc/group` line of a group: members comma-joined.
pub open spec fn group_line(g: Group) -> Seq<char> {
    g.groupname@ + seq![':', '*', ':'] + decimal(g.gid as nat) + seq![':'] + join_with(
        g.members@.map_values(|m: String| m@),
        ',',
    ) + seq!['\n']
}

/// The whole `/etc/group`: one line per group, in order.
pub open spec fn group_text(gs: Seq<Group>) -> Seq<char>
    decreases gs.len(),
{
    if gs.len() == 0 {
        Seq::empty()
    } else {
        group_text(gs.drop_last()) + group_line(gs.last())
    }
}

/// Appends a user's `/etc/passwd` line.
fn push_passwd_line(s: &mut String, u: &User)
    ensures
        final(s)@ == old(s)@ + passwd_line(*u),
{
    s.append(u.username.as_str());
    push_char(s, ':');
    push_char(s, 'x');
    push_char(s, ':');
    push_decimal(s, u.uid);
    push_char(s, ':');
    push_decimal(s, u.gid);
    push_char(s, ':');
    s.append(u.gecos.as_str());
    push_char(s, ':');
    s.append(u.home.as_str());
    push_char(s, ':');
    s.append(u.shell.as_str());
    push_char(s, '\n');
    assert(s@ =~= old(s)@ + passwd_line(*u));
}

/// The `/etc/passwd` of the manifest's users.
pub fn build_passwd(dpt: &DptFile) -> (r: String)
    ensures
        r@ == passwd_text(dpt.users@),
{
    let mut passwd = String::new();
    let mut i: usize = 0;
    while i < dpt.users.len()
        invariant
            i <= dpt.users.len(),
            passwd@ == passwd_text(dpt.users@.take(i as int)),
        decreases dpt.users.len() - i,
    {
        push_passwd_line(&mut passwd, &dpt.users[i]);
        let ghost t = dpt.users@.take(i as int + 1);
        assert(t.drop_last() =~= dpt.users@.take(i as int));
        i += 1;
    }
    assert(dpt.users@.take(dpt.users.len() as int) =~= dpt.users@);
    passwd
}

/// Appends a group's `/etc/group` line.
fn push_group_line(s: &mut String, g: &Group)
    ensures
        final(s)@ == old(s)@ + group_line(*g),
{
    let ghost ms = g.members@.map_values(|m: String| m@);
    s.append(g.groupname.as_str());
    push_char(s, ':');
    push_char(s, '*');
    push_char(s, ':');
    push_decimal(s, g.gid);
    push_char(s, ':');
    let ghost before = s@;
    let mut i: usize = 0;
    while i < g.members.len()
        invariant
            i <= g.members.len(),
            ms == g.members@.map_values(|m: String| m@),
            s@ == before + join_with(ms.take(i as int), ','),
        decreases g.members.len() - i,
    {
        if i > 0 {
            push_char(s, ',');
        }
        s.append(g.members[i].as_str());
        proof {
            let t = ms.take(i as int + 1);
            assert(t.drop_last() =~= ms.take(i as int));
            assert(t.last() == g.members@[i as int]@);
            if i == 0 {
                assert(t.len() == 1);
                assert(join_with(ms.take(0), ',') =~= Seq::<char>::empty());
            }
        }
        assert(s@ =~= before + join_with(ms.take(i as int + 1), ','));
        i += 1;
    }
    assert(ms.take(g.members.len() as int) =~= ms);
    push_char(s, '\n');
    assert(s@ =~= old(s)@ + group_line(*g));
}

/// The `/etc/group` of the manifest's groups.
pub fn build_group(dpt: &DptFile) -> (r: String)
    ensures
        r@ == group_text(dpt.groups@),
{
    let mut group = String::new();
    let mut i: usize = 0;
    while i < dpt.groups.len()
        invariant
            i <= dpt.groups.len(),
            group@ == group_text(dpt.groups@.take(i as int)),
        decreases dpt.groups.len() - i,
    {
        push_group_line(&mut group, &dpt.groups[i]);
        let ghost t = dpt.groups@.take(i as int + 1);
        assert(t.drop_last() =~= dpt.groups@.take(i as int));
        i += 1;
    }
    assert(dpt.groups@.take(dpt.groups.len() as int) =~= dpt.groups@);
    group
}

/// The fixed `/etc/login.defs` of every base.
pub const LOGIN_DEFS: &'static str = "
FAIL_DELAY            3
FAILLOG_ENAB          yes
LOG_UNKFAIL_ENAB      no
LOG_OK_LOGINS         no
LASTLOG_ENAB          yes
MAIL_CHECK_ENAB       yes
OBSCURE_CHECKS_ENAB   yes
PORTTIME_CHECKS_ENAB  yes
QUOTAS_ENAB           yes
SYSLOG_SU_ENAB        yes
SYSLOG_SG_ENAB        yes
CONSOLE               /etc/securetty
MOTD_FILE             /etc/motd
FTMP_FILE             /var/log/btmp
NOLOGINS_FILE         /etc/nologin
SU_NAME               su
MAIL_DIR              /var/mail
HUSHLOGIN_FILE        .hushlogin
ENV_HZ                HZ=100
ENV_SUPATH            PATH=/usr/sbin:/usr/bin
ENV_PATH              PATH=/usr/bin
TTYGROUP              tty
TTYPERM               0600
ERASECHAR             0177
KILLCHAR              025
UMASK                 022
PASS_MAX_DAYS         99999
PASS_MIN_DAYS         0
PASS_MIN_LEN          5
PASS_WARN_AGE         7
SU_WHEEL_ONLY         no
UID_MIN               1000
UID_MAX               60000
SYS_UID_MIN           101
SYS_UID_MAX           999
SUB_UID_MIN           100000
SUB_UID_MAX           600100000
SUB_UID_COUNT         65536
GID_MIN               1000
GID_MAX               60000
SYS_GID_MIN           101
SYS_GID_MAX           999
SUB_GID_MIN           100000
SUB_GID_MAX           600100000
SUB_GID_COUNT         65536
LOGIN_RETRIES         5
LOGIN_TIMEOUT         60
PASS_CHANGE_TRIES     5
PASS_ALWAYS_WARN      yes
CHFN_AUTH             yes
CHFN_RESTRICT         rwh
ENCRYPT_METHOD        YESCRYPT
DEFAULT_HOME          yes
NONEXISTENT           /nonexistent
ENVIRON_FILE          /etc/environment
USERGROUPS_ENAB       yes
PREVENT_NO_AUTH       superuser
";

/// The `/etc/login.defs` of every base.
pub fn build_login_dot_defs() -> (r: String)
    ensures
        r@ == LOGIN_DEFS@,
{
    String::from_str(LOGIN_DEFS)
}

/// The directories of the base skeleton, relative to the base directory.
pub fn base_directories() -> (r: Vec<&'static str>)
    ensures
        r@.len() == 3,
        r@[0]@ == "usr/bin"@,
        r@[1]@ == "usr/lib"@,
        r@[2]@ == "etc"@,
{
    vec!["usr/bin", "usr/lib", "etc"]
}

/// The relative symlinks of the base skeleton, as (target, link) pairs.
pub fn base_symlinks() -> (r: Vec<(&'static str, &'static str)>)
    ensures
        r@.len() == 6,
        r@[0].0@ == "usr/lib"@ && r@[0].1@ == "lib"@,
        r@[1].0@ == "usr/lib"@ && r@[1].1@ == "lib64"@,
        r@[2].0@ == "usr/bin"@ && r@[2].1@ == "bin"@,
        r@[3].0@ == "usr/bin"@ && r@[3].1@ == "sbin"@,
        r@[4].0@ == "bin"@ && r@[4].1@ == "usr/sbin"@,
        r@[5].0@ == "lib"@ && r@[5].1@ == "usr/lib64"@,
{
    vec![
        ("usr/lib", "lib"),
        ("usr/lib", "lib64"),
        ("usr/bin", "bin"),
        ("usr/bin", "sbin"),
        ("bin", "usr/sbin"),
        ("lib", "usr/lib64"),
    ]
}

/// The files of the base skeleton and their contents, relative to the base
/// directory.
pub fn base_files(dpt: &DptFile) -> (r: Vec<(&'static str, String)>)
    ensures
        r@.len() == 3,
        r@[0].0@ == "etc/passwd"@ && r@[0].1@ == passwd_text(dpt.users@),
        r@[1].0@ == "etc/group"@ && r@[1].1@ == group_text(dpt.groups@),
        r@[2].0@ == "etc/login.defs"@ && r@[2].1@ == LOGIN_DEFS@,
{
    vec![
        ("etc/passwd", build_passwd(dpt)),
        ("etc/group", build_group(dpt)),
        ("etc/login.defs", build_login_dot_defs()),
    ]
}

/// A step of the base rebuild that moves whole directories.
#[derive(Debug, Clone, Copy, PartialEq, Eq, Structural)]
pub enum BaseStep {
    /// Delete `base.bak`.
    RemoveBackup,
    /// Rename `base.bak` to `base`.
    RestoreBackup,
    /// Rename `base` to `base.bak`.
    MoveToBackup,
    /// Delete `base`.
    RemoveBase,
}

/// The steps before the skeleton is built, from what exists: a backup
/// without a base is an interrupted rebuild's, and is restored first.
pub open spec fn before_build(base_exists: bool, backup_exists: bool) -> Seq<BaseStep> {
    if base_exists {
        if backup_exists {
            seq![BaseStep::RemoveBackup, BaseStep::MoveToBackup]
        } else {
            seq![BaseStep::MoveToBackup]
        }
    } else if backup_exists {
        seq![BaseStep::RestoreBackup, BaseStep::MoveToBackup]
    } else {
        Seq::empty()
    }
}

/// The steps after the skeleton was built: on success the backup goes; on
/// failure the partial base goes and the backup comes back.
pub open spec fn after_build(succeeded: bool, base_exists: bool, backup_exists: bool) -> Seq<BaseStep> {
    if succeeded {
        if backup_exists {
            seq![BaseStep::RemoveBackup]
        } else {
            Seq::empty()
        }
    } else {
        (if base_exists {
            seq![BaseStep::RemoveBase]
        } else {
            Seq::empty()
        }) + (if backup_exists {
            seq![BaseStep::RestoreBackup]
        } else {
            Seq::empty()
        })
    }
}

/// Plans the steps before building the base skeleton.
pub fn steps_before_build(base_exists: bool, backup_exists: bool) -> (r: Vec<BaseStep>)
    ensures
        r@ == before_build(base_exists, backup_exists),
{
    let r = if base_exists {
        if backup_exists {
            vec![BaseStep::RemoveBackup, BaseStep::MoveToBackup]
        } else {
            vec![BaseStep::MoveToBackup]
        }
    } else if backup_exists {
        vec![BaseStep::RestoreBackup, BaseStep::MoveToBackup]
    } else {
        Vec::new()
    };
    assert(r@ =~= before_build(base_exists, backup_exists));
    r
}

/// Plans the steps after building the base skeleton.
pub fn steps_after_build(succeeded: bool, base_exists: bool, backup_exists: bool) -> (r: Vec<BaseStep>)
    ensures
        r@ == after_build(succeeded, base_exists, backup_exists),
{
    let mut r: Vec<BaseStep> = Vec::new();
    if succeeded {
        if backup_exists {
            r.push(BaseStep::RemoveBackup);
        }
    } else {
        if base_exists {
            r.push(BaseStep::RemoveBase);
        }
        if backup_exists {
            r.push(BaseStep::RestoreBackup);
        }
    }
    assert(r@ =~= after_build(succeeded, base_exists, backup_exists));
    r
}

/// The base and backup directories, each absent or holding some tree.
pub struct BaseDirs {
    pub base: Option<int>,
    pub backup: Option<int>,
}

/// The directories after one step.
pub open spec fn apply_step(d: BaseDirs, s: BaseStep) -> BaseDirs {
    match s {
        BaseStep::RemoveBackup => BaseDirs { base: d.base, backup: None },
        BaseStep::RestoreBackup => BaseDirs { base: d.backup, backup: None },
        BaseStep::MoveToBackup => BaseDirs { base: None, backup: d.base },
        BaseStep::RemoveBase => BaseDirs { base: None, backup: d.backup },
    }
}

/// The directories after a list of steps.
pub open spec fn apply_steps(d: BaseDirs, ss: Seq<BaseStep>) -> BaseDirs
    decreases ss.len(),
{
    if ss.len() == 0 {
        d
    } else {
        apply_steps(apply_step(d, ss[0]), ss.drop_first())
    }
}

/// The base that a rebuild starts from: the base, or, after an interrupted
/// rebuild, the backup.
pub open spec fn previous_base(d: BaseDirs) -> Option<int> {
    if d.base is Some {
        d.base
    } else {
        d.backup
    }
}

proof fn lemma_apply_concat(d: BaseDirs, a: Seq<BaseStep>, b: Seq<BaseStep>)
    ensures
        apply_steps(d, a + b) == apply_steps(apply_steps(d, a), b),
    decreases a.len(),
{
    if a.len() > 0 {
        assert((a + b).drop_first() =~= a.drop_first() + b);
        lemma_apply_concat(apply_step(d, a[0]), a.drop_first(), b);
    } else {
        assert(a + b =~= b);
    }
}

/// The rebuild is atomic: whatever state an earlier run left, a rebuild
/// that succeeds leaves the new base and no backup, and one that fails
/// (leaving any partial base) restores the previous base and no backup.
pub proof fn lemma_base_rebuild_atomic(start: BaseDirs, built: int, partial: Option<int>)
    ensures
        ({
            let ready = apply_steps(start, before_build(start.base is Some, start.backup is Some));
            &&& ready.base is None
            &&& ready.backup == previous_base(start)
            &&& apply_steps(
                BaseDirs { base: Some(built), backup: ready.backup },
                after_build(true, true, ready.backup is Some),
            ) == BaseDirs { base: Some(built), backup: None }
            &&& apply_steps(
                BaseDirs { base: partial, backup: ready.backup },
                after_build(false, partial is Some, ready.backup is Some),
            ) == BaseDirs { base: previous_base(start), backup: None }
        }),
{
    let ready = apply_steps(start, before_build(start.base is Some, start.backup is Some));
    let s = before_build(start.base is Some, start.backup is Some);
    reveal_with_fuel(apply_steps, 3);
    let failed = BaseDirs { base: partial, backup: ready.backup };
    let a: Seq<BaseStep> = if partial is Some { seq![BaseStep::RemoveBase] } else { Seq::empty() };
    let b: Seq<BaseStep> = if ready.backup is Some { seq![BaseStep::RestoreBackup] } else { Seq::empty() };
    lemma_apply_concat(failed, a, b);
    assert(after_build(false, partial is Some, ready.backup is Some) == a + b);
}

} // verus!
