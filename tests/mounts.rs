use dpt::mounts::{mounts_under, nth_word, path_depth, path_is_under};

#[test]
fn words_of_mountinfo_lines() {
    let line = "27 24 0:23 / /proc rw,nosuid - proc proc rw";
    assert_eq!(nth_word(line, 4), Some("/proc".to_string()));
    assert_eq!(nth_word("  a\tb  ", 1), Some("b".to_string()));
    assert_eq!(nth_word("a b c", 4), None);
}

#[test]
fn paths_below_a_directory() {
    assert!(path_is_under("/dpt/run/x/dev", "/dpt/run/x"));
    assert!(path_is_under("/dpt/run/x", "/dpt/run/x"));
    assert!(!path_is_under("/dpt/run/xy", "/dpt/run/x"));
    assert!(path_is_under("/a", "/"));
    assert_eq!(path_depth("/dpt/run/x"), 3);
    assert_eq!(path_depth("/"), 0);
}

#[test]
fn mounts_deepest_first() {
    let lines: Vec<String> = vec![
        "1 0 0:1 / / rw - ext4 /dev/sda rw",
        "2 1 0:2 / /dpt/run/x rw - none none rw",
        "3 2 0:3 / /dpt/run/x/dev rw - devtmpfs dev rw",
        "4 3 0:4 / /dpt/run/x/dev/pts rw - devpts pts rw",
        "5 2 0:5 / /dpt/run/x/tmp rw - tmpfs tmp rw",
        "6 1 0:6 / /dpt/run/xy rw - tmpfs tmp rw",
        "short line",
    ]
    .into_iter()
    .map(String::from)
    .collect();
    assert_eq!(
        mounts_under(&lines, "/dpt/run/x"),
        vec!["/dpt/run/x/dev/pts", "/dpt/run/x/dev", "/dpt/run/x/tmp", "/dpt/run/x"]
    );
}
