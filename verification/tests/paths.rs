use esycpy::normalize::{fix_path, fix_windows_path};
use esycpy::path::{ancestors, file_name, join, parent};

#[test]
fn weird_paths() {
    assert_eq!(
        "c:\\abc\\der\\mea\\fal",
        fix_windows_path(String::from("c:\\/abc/der//mea\\fal")).as_str()
    );
}

#[test]
fn test_sting_find() {
    let test_str = "c:\\hello\\there\\*.xml";
    assert_eq!(Some(String::from("c:\\hello\\there")), parent(test_str));
}

#[test]
fn fix_path_positive() {
    assert_eq!(
        fix_path("c:\\\\\\Users\\\\\\\\test///dir"),
        String::from("c:/Users/test/dir")
    );
    assert_eq!(fix_path("/mnt///dr"), String::from("/mnt/dr"));
}

#[test]
fn windows_form_halves_runs_of_backslashes() {
    assert_eq!(fix_windows_path(String::from("a////b")), "a\\\\b");
    assert_eq!(fix_windows_path(String::from("a///b")), "a\\\\b");
    assert_eq!(fix_windows_path(String::from("")), "");
}

#[test]
fn slash_form_of_edge_cases() {
    assert_eq!(fix_path(""), "");
    assert_eq!(fix_path("\\"), "/");
    assert_eq!(fix_path("/\\/"), "/");
    assert_eq!(fix_path("a\\/b"), "a/b");
}

#[test]
fn file_name_is_the_final_segment() {
    assert_eq!(file_name("root/d1/f11.file"), Some(String::from("f11.file")));
    assert_eq!(file_name("c:\\yo\\man\\*.mercury"), Some(String::from("*.mercury")));
    assert_eq!(file_name("root/"), Some(String::from("root")));
    assert_eq!(file_name("plain"), Some(String::from("plain")));
}

#[test]
fn file_name_is_missing_without_a_segment() {
    assert_eq!(file_name(""), None);
    assert_eq!(file_name("/"), None);
    assert_eq!(file_name("\\\\"), None);
}

#[test]
fn two_dots_are_no_name() {
    assert_eq!(file_name("a/.."), None);
    assert_eq!(file_name(".."), None);
    assert_eq!(file_name("/.."), None);
    assert_eq!(file_name("a\\..\\"), None);
    assert_eq!(parent("a/.."), Some(String::from("a")));
    assert_eq!(file_name("a/..."), Some(String::from("...")));
    assert_eq!(file_name("a/..b"), Some(String::from("..b")));
}

#[test]
fn a_single_dot_is_passed_over() {
    assert_eq!(file_name("dir/."), Some(String::from("dir")));
    assert_eq!(file_name("dir/*/."), Some(String::from("*")));
    assert_eq!(parent("dir/*/."), Some(String::from("dir")));
    assert_eq!(file_name("."), None);
    assert_eq!(file_name("./"), None);
    assert_eq!(file_name("/."), None);
    assert_eq!(parent("a/./b"), Some(String::from("a")));
    assert_eq!(parent("./a"), Some(String::from(".")));
    assert_eq!(file_name("a/.hidden"), Some(String::from(".hidden")));
}

#[test]
fn parent_of_each_shape() {
    assert_eq!(parent("a/b/c"), Some(String::from("a/b")));
    assert_eq!(parent("a/b/"), Some(String::from("a")));
    assert_eq!(parent("a//b"), Some(String::from("a")));
    assert_eq!(parent("/users"), Some(String::from("/")));
    assert_eq!(parent("users"), Some(String::from("")));
    assert_eq!(parent("/"), None);
    assert_eq!(parent(""), None);
}

#[test]
fn join_puts_one_separator_between() {
    assert_eq!(join("dest", "f1.file"), "dest/f1.file");
    assert_eq!(join("dest/", "f1.file"), "dest/f1.file");
    assert_eq!(join("dest\\", "f1.file"), "dest\\f1.file");
    assert_eq!(join("", "f1.file"), "f1.file");
}

#[test]
fn ancestors_run_up_to_the_top() {
    assert_eq!(
        ancestors("/invalid/path"),
        vec![
            String::from("/invalid/path"),
            String::from("/invalid"),
            String::from("/"),
        ]
    );
    assert_eq!(
        ancestors(" c:/users"),
        vec![String::from(" c:/users"), String::from(" c:"), String::from("")]
    );
    assert_eq!(ancestors(""), vec![String::from("")]);
}

#[test]
fn plain_paths_are_read_as_the_standard_library_reads_them() {
    let samples = [
        "a/b/c",
        "/a",
        "a",
        "a/b/",
        "/",
        "",
        "a//b",
        "./a/b",
        "/usr/lib/x.so",
        "root/d1/d12/f12.file",
        "//",
        "/a/",
        "a/.",
        "a/..",
        "..",
        ".",
        "./",
        "a/./b",
        "/.",
        "./a",
        "a/b/.",
        "dir/*/.",
        "./.",
        "/..",
        "a/./",
        "a/b/./.",
        "/./a",
        "././a",
        "a//./b",
        "a/.b",
        "a/b.",
        "...",
        "/a/..",
        ".a",
        "a/.//",
        "./..",
    ];
    for sample in samples {
        let path = std::path::Path::new(sample);
        let name = path
            .file_name()
            .map(|n| n.to_string_lossy().into_owned());
        let up = path.parent().map(|p| p.to_string_lossy().into_owned());
        assert_eq!(file_name(sample), name, "final segment of {:?}", sample);
        assert_eq!(parent(sample), up, "parent of {:?}", sample);
    }
}

#[test]
fn join_agrees_with_the_standard_library_on_relative_names() {
    let cases = [("dest", "f1.file"), ("dest/", "f1.file"), ("", "f1.file"), ("/", "a")];
    for (dir, name) in cases {
        let expected = std::path::Path::new(dir)
            .join(name)
            .to_string_lossy()
            .into_owned();
        assert_eq!(join(dir, name), expected);
    }
}
