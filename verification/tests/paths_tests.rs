use rustwebserver::paths::{join_path, path_components, path_extension, path_file_name, starts_with_path};

fn comps(p: &str) -> Vec<String> {
    let cs: Vec<char> = p.chars().collect();
    path_components(&cs).into_iter().map(|c| c.into_iter().collect()).collect()
}

fn s(v: Option<Vec<char>>) -> Option<String> {
    v.map(|c| c.into_iter().collect())
}

fn chars(p: &str) -> Vec<char> {
    p.chars().collect()
}

#[test]
fn components_normalise_like_std() {
    assert_eq!(comps("/a//b/./c/"), vec!["/", "a", "b", "c"]);
    assert_eq!(comps("./a/b"), vec![".", "a", "b"]);
    assert_eq!(comps("a/./b/."), vec!["a", "b"]);
    assert_eq!(comps("/"), vec!["/"]);
    assert_eq!(comps(""), Vec::<String>::new());
    assert_eq!(comps("/a/../b"), vec!["/", "a", "..", "b"]);
    assert_eq!(comps("."), vec!["."]);
}

#[test]
fn components_agree_with_std_path() {
    for p in ["/a//b/./c/", "./a/b", "a/./b/.", "/", "", "/a/../b", ".", "..", "a/..", "./", ".//x", "x/.y"] {
        let ours = comps(p);
        let std_: Vec<String> = std::path::Path::new(p)
            .components()
            .map(|c| c.as_os_str().to_string_lossy().into_owned())
            .collect();
        assert_eq!(ours, std_, "components of {:?}", p);
    }
}

#[test]
fn starts_with_is_by_component() {
    assert!(starts_with_path("/srv/www/a.txt", "/srv/www"));
    assert!(starts_with_path("/srv/www", "/srv/www"));
    assert!(starts_with_path("/srv/www/", "/srv/www"));
    assert!(!starts_with_path("/srv/wwwx/a", "/srv/www"));
    assert!(!starts_with_path("/srv", "/srv/www"));
    assert!(!starts_with_path("/etc/passwd", "/srv/www"));
    assert!(starts_with_path("/anything", "/"));
}

#[test]
fn starts_with_agrees_with_std_path() {
    let cases = [
        ("/srv/www/a.txt", "/srv/www"),
        ("/srv/wwwx/a", "/srv/www"),
        ("/srv//www/./a", "/srv/www/"),
        ("a/b", "a"),
        ("./a/b", "a"),
        ("/a", "a"),
    ];
    for (p, b) in cases {
        assert_eq!(starts_with_path(p, b), std::path::Path::new(p).starts_with(b), "{:?} {:?}", p, b);
    }
}

#[test]
fn file_name_and_extension() {
    assert_eq!(s(path_file_name(&chars("/a/b.txt"))), Some("b.txt".to_string()));
    assert_eq!(s(path_file_name(&chars("/a/b/.."))), None);
    assert_eq!(s(path_file_name(&chars("/"))), None);
    assert_eq!(s(path_extension(&chars("/a/b.tar.gz"))), Some("gz".to_string()));
    assert_eq!(s(path_extension(&chars("/a/.profile"))), None);
    assert_eq!(s(path_extension(&chars("/a/x."))), Some(String::new()));
    assert_eq!(s(path_extension(&chars("/a/x"))), None);
}

#[test]
fn prefix_order_on_paths() {
    assert!(starts_with_path("/srv/www", "/srv/www"));
    assert!(starts_with_path("/srv/www/a/b", "/srv/www/a"));
    assert!(starts_with_path("/srv/www/a", "/srv/www"));
    assert!(starts_with_path("/srv/www/a/b", "/srv/www"));
}

#[test]
fn join_agrees_with_std_path() {
    let cases = [("/srv", "a/b"), ("/srv/", "a"), ("", "a"), ("/srv", "/etc"), ("srv", ""), ("/", "x")];
    for (b, r) in cases {
        let ours: String = join_path(&chars(b), &chars(r)).into_iter().collect();
        let std_ = std::path::Path::new(b).join(r).to_string_lossy().into_owned();
        assert_eq!(ours, std_, "{:?} + {:?}", b, r);
    }
}
