use dpt::base::{
    base_directories, base_files, base_symlinks, build_group, build_login_dot_defs, build_passwd,
    steps_after_build, steps_before_build, BaseStep, LOGIN_DEFS,
};
use dpt::dpt_file::{get_dpt_file_location, get_dpt_lock_location, DptFile, Group, User};

fn manifest() -> DptFile {
    DptFile {
        packages: vec![],
        users: vec![User {
            username: "john".into(),
            password: "Hashed password".into(),
            uid: 1000,
            gid: 1000,
            gecos: "John, Room 5".into(),
            home: "/home/john".into(),
            shell: "/usr/bin/fish".into(),
        }],
        groups: vec![
            Group { groupname: "me".into(), gid: 1, members: vec!["someone".into(), "someone_else".into()] },
            Group { groupname: "empty".into(), gid: 2, members: vec![] },
        ],
        services: None,
    }
}

#[test]
fn passwd_line_of_a_user() {
    assert_eq!(build_passwd(&manifest()), "john:x:1000:1000:John, Room 5:/home/john:/usr/bin/fish\n");
    let mut two = manifest();
    two.users.push(User {
        username: "root".into(),
        password: "".into(),
        uid: 0,
        gid: 0,
        gecos: "".into(),
        home: "/root".into(),
        shell: "/bin/sh".into(),
    });
    assert_eq!(
        build_passwd(&two),
        "john:x:1000:1000:John, Room 5:/home/john:/usr/bin/fish\nroot:x:0:0::/root:/bin/sh\n"
    );
}

#[test]
fn group_lines() {
    assert_eq!(build_group(&manifest()), "me:*:1:someone,someone_else\nempty:*:2:\n");
}

#[test]
fn login_defs_fixed() {
    let defs = build_login_dot_defs();
    assert_eq!(defs, LOGIN_DEFS);
    assert!(defs.contains("UID_MIN               1000\n"));
    assert!(defs.starts_with("\nFAIL_DELAY"));
}

#[test]
fn skeleton_layout() {
    assert_eq!(base_directories(), vec!["usr/bin", "usr/lib", "etc"]);
    let links = base_symlinks();
    assert_eq!(links[0], ("usr/lib", "lib"));
    assert_eq!(links[4], ("bin", "usr/sbin"));
    assert_eq!(links[5], ("lib", "usr/lib64"));
    let files = base_files(&manifest());
    assert_eq!(files[0].0, "etc/passwd");
    assert_eq!(files[1].1, "me:*:1:someone,someone_else\nempty:*:2:\n");
}

#[test]
fn rebuild_steps() {
    assert_eq!(steps_before_build(true, false), vec![BaseStep::MoveToBackup]);
    assert_eq!(steps_before_build(false, true), vec![BaseStep::RestoreBackup, BaseStep::MoveToBackup]);
    assert_eq!(steps_before_build(true, true), vec![BaseStep::RemoveBackup, BaseStep::MoveToBackup]);
    assert!(steps_before_build(false, false).is_empty());
    assert_eq!(steps_after_build(true, true, true), vec![BaseStep::RemoveBackup]);
    assert_eq!(steps_after_build(false, true, true), vec![BaseStep::RemoveBase, BaseStep::RestoreBackup]);
    assert_eq!(steps_after_build(false, false, false), vec![]);
}

#[test]
fn manifest_locations() {
    assert_eq!(get_dpt_file_location("/dpt"), "/dpt/dpt.ron");
    assert_eq!(get_dpt_lock_location("/dpt"), "/dpt/dpt.lock");
}
