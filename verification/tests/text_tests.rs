use river::text::extension_of;

fn ext(p: &str) -> Option<String> {
    extension_of(p)
}

#[test]
fn extension_follows_last_dot() {
    assert_eq!(ext("a.png"), Some("png".to_string()));
    assert_eq!(ext("./pics/x.tar.gz"), Some("gz".to_string()));
    assert_eq!(ext("/home/me/b.JPG"), Some("JPG".to_string()));
    assert_eq!(ext("a."), Some("".to_string()));
    assert_eq!(ext("..x"), Some("x".to_string()));
    assert_eq!(ext("dir/b.c/"), Some("c".to_string()));
}

#[test]
fn extension_absent() {
    assert_eq!(ext(".profile"), None);
    assert_eq!(ext("dir.d/file"), None);
    assert_eq!(ext("noext"), None);
    assert_eq!(ext(""), None);
    assert_eq!(ext("/"), None);
    assert_eq!(ext("a/.."), None);
    assert_eq!(ext("."), None);
}

#[test]
fn extension_agrees_with_std_paths() {
    for p in ["a.png", "./pics/x.tar.gz", "a.", "..x", "dir/b.c/", ".profile", "dir.d/file", "noext", "", "/", "a/..", ".", "a/./b.gif", "x//y.mp4"] {
        let std = std::path::Path::new(p).extension().map(|e| e.to_str().unwrap().to_string());
        assert_eq!(ext(p), std, "{}", p);
    }
}
