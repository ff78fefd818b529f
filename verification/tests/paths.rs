use dylint::paths::{join_path, normalize_path};

#[test]
fn joining_paths() {
    assert_eq!(join_path("/ws", "lints"), "/ws/lints");
    assert_eq!(join_path("/ws/", "lints"), "/ws/lints");
    assert_eq!(join_path("/ws", "/abs"), "/abs");
    assert_eq!(join_path("", "rel"), "rel");
    assert_eq!(join_path("a", ""), "a/");
}

#[test]
fn normalizing_paths() {
    assert_eq!(normalize_path("/ws/../x"), "/x");
    assert_eq!(normalize_path("/ws/./a//b/"), "/ws/a/b");
    assert_eq!(normalize_path("/.."), "/");
    assert_eq!(normalize_path("../a"), "a");
    assert_eq!(normalize_path("a/b/../../.."), "");
    assert_eq!(normalize_path("./a"), "a");
    assert_eq!(normalize_path(""), "");
    assert_eq!(normalize_path("/"), "/");
}
