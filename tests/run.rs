use dpt::pkg::Package;
use dpt::run::{
    auto_binds, bind_targets, child_exit_code, command_name, get_random_string, get_run_location,
    join_proper, locate_executable, make_path_relative, second_stage_args, teardown_step,
    TeardownStep, SCRATCH_NAME_LEN,
};

#[test]
fn random_names() {
    let a = get_random_string(SCRATCH_NAME_LEN);
    assert_eq!(a.len(), 10);
    assert!(a.chars().all(|c| c.is_ascii_alphanumeric()));
    assert_eq!(get_random_string(0), "");
}

#[test]
fn relative_paths() {
    assert_eq!(make_path_relative("/usr/bin"), "usr/bin");
    assert_eq!(make_path_relative("usr/bin"), "usr/bin");
    assert_eq!(make_path_relative("//a"), "a");
    assert_eq!(join_proper("/dpt/store/a", "/usr/lib/*.so"), "/dpt/store/a/usr/lib/*.so");
    assert_eq!(get_run_location(None), "/dpt/run/");
}

#[test]
fn binds_for_missing_targets() {
    let names = auto_binds();
    assert_eq!(names.len(), 8);
    assert_eq!(names[5], "home");
    let on_host = vec![true, true, false, true, true, true, true, true];
    let in_scratch = vec![false, false, false, false, false, false, false, true];
    let binds = bind_targets("/dpt/run/abc", &names, &on_host, &in_scratch);
    assert_eq!(binds.len(), 6);
    assert_eq!(binds[0], ("/dev".to_string(), "/dpt/run/abc/dev".to_string()));
    assert_eq!(binds[5], ("/tmp".to_string(), "/dpt/run/abc/tmp".to_string()));
}

#[test]
fn executable_and_exit_codes() {
    assert_eq!(locate_executable(true, true, "fish"), Some("/bin/fish".to_string()));
    assert_eq!(locate_executable(false, true, "fish"), Some("/usr/bin/fish".to_string()));
    assert_eq!(locate_executable(false, false, "fish"), None);
    assert_eq!(child_exit_code(Some(3)), 3);
    assert_eq!(child_exit_code(None), 89);
    let pkgs = vec![Package::new("fish".to_string(), "4.0.0".to_string())];
    assert_eq!(command_name(&pkgs, None), Some("fish".to_string()));
    assert_eq!(command_name(&pkgs, Some("bash")), Some("bash".to_string()));
    assert_eq!(command_name(&vec![], None), None);
}

#[test]
fn second_stage_arguments() {
    let args = second_stage_args("/dpt/run/abc", 1000, "/usr/bin/fish", false, &vec!["-c".to_string()]);
    assert_eq!(
        args,
        vec!["chroot-not-intended-for-interactive-use", "/dpt/run/abc", "1000", "/usr/bin/fish", "new", "-c"]
    );
}

#[test]
fn teardown_removes_only_when_unmounted() {
    assert_eq!(teardown_step(1, 0), TeardownStep::RemoveScratch);
    assert_eq!(teardown_step(1, 2), TeardownStep::Retry);
    assert_eq!(teardown_step(9, 1), TeardownStep::Retry);
    assert_eq!(teardown_step(10, 1), TeardownStep::Abort);
    assert_eq!(teardown_step(10, 0), TeardownStep::RemoveScratch);
}
