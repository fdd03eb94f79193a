use fuide::pathinput::{common_prefix, complete_dir, complete_entries, expand};

#[test]
fn common_prefix_of_candidates() {
    assert_eq!(
        common_prefix(&["Documents/".into(), "Downloads/".into()]),
        "Do"
    );
    assert_eq!(common_prefix(&["a/".into()]), "a/");
    assert_eq!(common_prefix(&[]), "");
}

#[test]
fn common_prefix_stops_at_the_first_difference() {
    assert_eq!(common_prefix(&["abc".into(), "abd".into(), "ab".into()]), "ab");
    assert_eq!(common_prefix(&["x".into(), "y".into()]), "");
    assert_eq!(common_prefix(&["über".into(), "übel".into()]), "übe");
}

#[test]
fn expand_handles_tilde_relative_and_dotdot() {
    let cwd = "/a/b";
    let home = "/home/pilot";
    assert_eq!(expand("~", cwd, Some(home)), home);
    assert_eq!(expand("~/x", cwd, Some(home)), "/home/pilot/x");
    assert_eq!(expand("c/./d", cwd, Some(home)), "/a/b/c/d");
    assert_eq!(expand("../c", cwd, Some(home)), "/a/c");
    assert_eq!(expand("/..", cwd, Some(home)), "/");
    assert_eq!(expand("/x/", cwd, Some(home)), "/x");
}

#[test]
fn expand_without_home_uses_the_root() {
    assert_eq!(expand("~", "/a", None), "/");
    assert_eq!(expand("~/x", "/a", None), "/x");
}

fn listing() -> Vec<(bool, String)> {
    vec![
        (false, "dance.mp3".to_string()),
        (true, "Downloads".to_string()),
        (true, ".config".to_string()),
        (false, "Do.txt".to_string()),
        (true, "Documents".to_string()),
    ]
}

#[test]
fn complete_lists_directories_and_optionally_files() {
    let abs = "/tmp/scratch-complete";
    assert_eq!(complete_dir("do", abs, None), Some(abs.to_string()));
    assert_eq!(
        complete_entries("do", listing(), false, 10),
        ["Documents/", "Downloads/"]
    );
    assert_eq!(
        complete_entries("d", listing(), true, 10),
        ["Documents/", "Downloads/", "dance.mp3", "Do.txt"],
        "directories first, then files, case-insensitive"
    );
    let typed = format!("{abs}/.c");
    assert_eq!(complete_dir(&typed, "/elsewhere", None), Some(abs.to_string()));
    assert_eq!(
        complete_entries(&typed, listing(), false, 10),
        [format!("{abs}/.config/")]
    );
    assert_eq!(complete_entries(&format!("{abs}/"), listing(), false, 10).len(), 2);
    assert_eq!(complete_dir("", abs, None), None);
    assert_eq!(complete_dir("~", abs, None), None);
    assert_eq!(complete_entries("d", listing(), true, 1).len(), 1);
}

#[test]
fn complete_keeps_the_typed_prefix_style() {
    assert_eq!(complete_dir("~/Do", "/cwd", Some("/home/pilot")), Some("/home/pilot".to_string()));
    assert_eq!(
        complete_entries("~/Do", listing(), false, 10),
        ["~/Documents/", "~/Downloads/"]
    );
    assert_eq!(complete_dir("sub/x", "/cwd", None), Some("/cwd/sub".to_string()));
}
