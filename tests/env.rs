use dpt::env::{
    generate_glue_for_directory, glue_target_path, is_meta, merge_glue, plan_union, EntryKind,
    EnvAction,
};
use dpt::pkg::Glue;

#[test]
fn first_layer_wins() {
    let walk = vec![
        ("usr".to_string(), 1usize, EntryKind::Dir),
        ("usr/bin".to_string(), 1, EntryKind::Dir),
        ("usr/bin/x".to_string(), 1, EntryKind::File),
        ("dpt".to_string(), 1, EntryKind::Dir),
        ("dpt/pkg.ron".to_string(), 1, EntryKind::File),
        ("usr".to_string(), 2, EntryKind::Dir),
        ("usr/bin".to_string(), 2, EntryKind::Dir),
        ("usr/bin/x".to_string(), 2, EntryKind::File),
        ("usr/bin/y".to_string(), 2, EntryKind::Symlink),
    ];
    let plan = plan_union(&walk);
    assert_eq!(
        plan,
        vec![
            ("usr".to_string(), 1, EnvAction::CreateDir),
            ("usr/bin".to_string(), 1, EnvAction::CreateDir),
            ("usr/bin/x".to_string(), 1, EnvAction::HardLink),
            ("usr/bin/y".to_string(), 2, EnvAction::Symlink),
        ]
    );
}

#[test]
fn meta_paths() {
    assert!(is_meta("dpt"));
    assert!(is_meta("dpt/pkg.ron"));
    assert!(!is_meta("dpts"));
    assert!(!is_meta("usr/dpt"));
}

#[test]
fn glue_merging_and_patterns() {
    let mut glues = vec![Glue::Bin];
    merge_glue(
        &mut glues,
        &vec![Glue::Bin, Glue::Glob(vec!["/usr/lib/systemd/system/*.service".to_string()])],
    );
    merge_glue(&mut glues, &vec![Glue::Glob(vec!["/usr/lib/systemd/system/*.service".to_string()])]);
    assert_eq!(glues.len(), 2);
    let dirs = vec!["/dpt/store/a-1".to_string(), "/dpt/store/b-2/".to_string()];
    let patterns = generate_glue_for_directory(&glues[1], &dirs);
    assert_eq!(
        patterns,
        vec![
            ("/dpt/store/a-1".to_string(), "/dpt/store/a-1/usr/lib/systemd/system/*.service".to_string()),
            ("/dpt/store/b-2/".to_string(), "/dpt/store/b-2/usr/lib/systemd/system/*.service".to_string()),
        ]
    );
    assert!(generate_glue_for_directory(&Glue::Bin, &dirs).is_empty());
    assert_eq!(
        glue_target_path("/run/x", "/dpt/store/a-1", "/dpt/store/a-1/usr/lib/a.service"),
        Some("/run/x/usr/lib/a.service".to_string())
    );
    assert_eq!(glue_target_path("/run/x", "/dpt/store/a-1", "/dpt/store/a-10/f"), None);
}
