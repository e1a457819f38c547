use dpt::doc::{Child, DocError, Entry, Node, Value};
use dpt::fpkg_file::{get_fpkg_file_location, get_fpkg_lock_location, parse_fpkg_file, Group, User};
use dpt::pkg::Package;

fn arg(v: Value) -> Entry {
    Entry { name: None, value: v }
}

fn text(s: &str) -> Value {
    Value::Str(s.to_string())
}

fn leaf(name: &str, entries: Vec<Entry>) -> Child {
    Child { name: name.to_string(), entries, children: None }
}

fn section(name: &str, children: Vec<Child>) -> Node {
    Node { name: name.to_string(), entries: vec![], children: Some(children) }
}

#[test]
fn fpkg_file_package_array() {
    let doc = vec![section(
        "packages",
        vec![
            leaf("gcc", vec![]),
            leaf("binutils", vec![]),
            leaf("fish", vec![arg(text("4.0.0"))]),
            leaf("yazi", vec![]),
        ],
    )];
    let out = parse_fpkg_file(&doc).unwrap();
    assert_eq!(
        out.packages,
        vec![
            Package::new("gcc".into(), "".into()),
            Package::new("binutils".into(), "".into()),
            Package::new("fish".into(), "4.0.0".into()),
            Package::new("yazi".into(), "".into())
        ]
    )
}

#[test]
fn fpkg_file_users_array() {
    let doc = vec![section(
        "users",
        vec![
            leaf(
                "john",
                vec![
                    arg(text("Hashed password")),
                    arg(Value::Int(1000)),
                    arg(Value::Int(1000)),
                    arg(text("John, Room 5")),
                    arg(text("/home/john")),
                    arg(text("/usr/bin/fish")),
                ],
            ),
            leaf(
                "george",
                vec![
                    arg(text("HashBrowns")),
                    arg(Value::Int(1001)),
                    arg(Value::Int(1002)),
                    arg(text("George, Room 8")),
                    arg(text("/home/george")),
                    arg(text("/bin/bash")),
                ],
            ),
        ],
    )];
    let out = parse_fpkg_file(&doc).unwrap();
    assert_eq!(
        out.users,
        vec![
            User {
                username: "john".into(),
                password: "Hashed password".into(),
                uid: 1000,
                gid: 1000,
                gecos: "John, Room 5".into(),
                home_dir: "/home/john".into(),
                shell: "/usr/bin/fish".into()
            },
            User {
                username: "george".into(),
                password: "HashBrowns".into(),
                uid: 1001,
                gid: 1002,
                gecos: "George, Room 8".into(),
                home_dir: "/home/george".into(),
                shell: "/bin/bash".into()
            }
        ]
    )
}

#[test]
fn fpkg_file_groups_array() {
    let doc = vec![section(
        "groups",
        vec![
            Child {
                name: "me".to_string(),
                entries: vec![arg(Value::Int(1))],
                children: Some(vec!["someone".to_string(), "someone_else".to_string()]),
            },
            Child {
                name: "nobody".to_string(),
                entries: vec![arg(Value::Int(65536))],
                children: Some(vec!["noone".to_string()]),
            },
            leaf("empty", vec![arg(Value::Int(2))]),
        ],
    )];
    let out = parse_fpkg_file(&doc).unwrap();
    assert_eq!(
        out.groups,
        vec![
            Group { groupname: "me".into(), gid: 1, members: vec!["someone".into(), "someone_else".into()] },
            Group { groupname: "nobody".into(), gid: 65536, members: vec!["noone".into()] },
            Group { groupname: "empty".into(), gid: 2, members: vec![] }
        ]
    )
}

#[test]
fn fpkg_file_errors() {
    let short = vec![section("users", vec![leaf("john", vec![arg(text("pw"))])])];
    assert_eq!(parse_fpkg_file(&short).unwrap_err(), DocError::NotEnoughEntries);
    let negative = vec![section("groups", vec![leaf("g", vec![arg(Value::Int(-1))])])];
    assert_eq!(parse_fpkg_file(&negative).unwrap_err(), DocError::OutOfRange);
    let no_gid = vec![section("groups", vec![leaf("g", vec![])])];
    assert_eq!(parse_fpkg_file(&no_gid).unwrap_err(), DocError::MissingArgument);
    let bad_uid = vec![section(
        "users",
        vec![leaf(
            "john",
            vec![arg(text("pw")), arg(text("x")), arg(Value::Int(1)), arg(text("g")), arg(text("h")), arg(text("s"))],
        )],
    )];
    assert_eq!(parse_fpkg_file(&bad_uid).unwrap_err(), DocError::NotAnInteger);
    let bad_version = vec![section("packages", vec![leaf("fish", vec![arg(Value::Int(4))])])];
    assert_eq!(parse_fpkg_file(&bad_version).unwrap_err(), DocError::NotAString);
    let empty = parse_fpkg_file(&vec![]).unwrap();
    assert!(empty.packages.is_empty() && empty.users.is_empty() && empty.groups.is_empty());
}

#[test]
fn fpkg_locations() {
    assert_eq!(get_fpkg_file_location("/fpkg"), "/fpkg/fpkg.kdl");
    assert_eq!(get_fpkg_lock_location("/fpkg/"), "/fpkg/fpkg.lock");
}
