use fp::project::files::{FileEntry, ListingKey};
use fp::project::Project;
use fp::order::Key;
use fp::sorter::{Candidate, Sorter};

#[test]
fn a_project_is_the_directory_above_its_marker() {
    let project = Project::new("/home/me/app/.git");
    assert_eq!(project.path(), "/home/me/app");
    if std::path::MAIN_SEPARATOR == '/' {
        assert_eq!(project.components(), &vec!["/", "home", "me", "app"]);
    }
    assert_eq!(project.to_text(), "/home/me/app");
}

#[test]
fn a_project_holds_its_parts_as_they_are_given() {
    let project = Project::from_parts(
        "C:\\work\\app".to_string(),
        vec!["C:".to_string(), "work".to_string(), "app".to_string()],
    );
    assert_eq!(project.path(), "C:\\work\\app");
    assert_eq!(project.components(), &vec!["C:", "work", "app"]);
    let outer = Project::from_parts(
        "C:\\work".to_string(),
        vec!["C:".to_string(), "work".to_string()],
    );
    assert!(project.is_nested_in(&outer));
    assert!(!outer.is_nested_in(&project));
    assert!(!project.is_same_as(&outer));
    let empty = Project::from_parts(String::new(), Vec::new());
    assert_eq!(empty.path(), "");
    assert!(empty.components().is_empty());
    assert!(project.is_nested_in(&empty));
}

#[test]
fn a_path_without_a_parent_stays_as_it_is() {
    assert_eq!(Project::new("").path(), "");
    if std::path::MAIN_SEPARATOR == '/' {
        assert_eq!(Project::new("/").path(), "/");
        assert_eq!(Project::new("app").path(), "");
        assert!(Project::new("app").components().is_empty());
    }
}

#[test]
fn the_path_of_a_project_begins_the_path_it_was_made_of() {
    for path in ["/home/me/app/Cargo.toml", "a/b/", "a//b", "./a/b", "a/../b", "x"] {
        assert!(path.starts_with(Project::new(path).path()), "{path:?}");
    }
}

#[test]
fn projects_at_the_same_place() {
    let one = Project::new("/home/me/app/.git");
    let other = Project::new("/home/me/app/Cargo.toml");
    let third = Project::new("/home/me/other/Cargo.toml");
    assert!(one.is_same_as(&other));
    assert!(other.is_same_as(&one));
    assert!(one.is_same_as(&one));
    assert!(!one.is_same_as(&third));
    assert!(!one.is_nested_in(&other));
    assert!(!one.is_nested_in(&one));
}

#[test]
fn a_project_inside_another() {
    let outer = Project::new("/home/me/app/.git");
    let inner = Project::new("/home/me/app/tools/gen/Cargo.toml");
    let beside = Project::new("/home/me/application/.git");
    assert!(inner.is_nested_in(&outer));
    assert!(!outer.is_nested_in(&inner));
    // whole components count, not characters
    assert!(!beside.is_nested_in(&outer));
    assert!(!outer.is_nested_in(&beside));
}

#[test]
fn a_copy_of_a_project_is_at_the_same_place() {
    let project = Project::new("/home/me/app/.git");
    let copy = project.clone();
    assert_eq!(copy.path(), project.path());
    assert_eq!(copy.components(), project.components());
    let copy = project.duplicate();
    assert_eq!(copy.path(), project.path());
    assert!(copy.is_same_as(&project));
}

#[test]
fn projects_are_ranked_by_their_paths() {
    let projects = vec![
        Project::new("zzz/.git"),
        Project::new("my-other-app/.git"),
        Project::new("my-app/.git"),
    ];
    let mut sorter = Sorter::default();
    let ranked = sorter.sort(&projects, "app");
    let paths: Vec<&str> = ranked.iter().map(|project| project.path()).collect();
    assert_eq!(paths, vec!["my-app", "my-other-app", "zzz"]);
}

fn entry(name: &str, is_dir: bool) -> FileEntry {
    FileEntry {
        path: format!("/home/me/app/{name}"),
        name: name.to_string(),
        is_dir,
    }
}

fn names(files: &[FileEntry]) -> Vec<&str> {
    files.iter().map(|file| file.name.as_str()).collect()
}

#[test]
fn files_are_listed_directories_first_and_then_by_name() {
    let files = vec![
        entry("README.md", false),
        entry("src", true),
        entry(".gitignore", false),
        entry("Cargo.toml", false),
        entry(".git", true),
        entry("target", true),
        entry("build.rs", false),
    ];
    let sorted = Project::sorted_files(files);
    assert_eq!(
        names(&sorted),
        vec![
            ".git",
            "src",
            "target",
            "build.rs",
            "Cargo.toml",
            ".gitignore",
            "README.md"
        ]
    );
    assert_eq!(sorted[0].path, "/home/me/app/.git");
    assert!(sorted[0].is_dir && !sorted[3].is_dir);
}

#[test]
fn files_in_order_stay_as_they_stand() {
    let files = vec![
        entry("a", true),
        entry("A", true),
        entry(".a", true),
        entry("a", false),
        entry("..A", false),
    ];
    let sorted = Project::sorted_files(files);
    assert_eq!(names(&sorted), vec!["a", "A", ".a", "a", "..A"]);
    assert!(Project::sorted_files(Vec::new()).is_empty());
}

#[test]
fn files_listed_by_the_same_all_come_out() {
    let files = vec![
        entry("b", false),
        entry("A", false),
        entry("a", false),
        entry(".a", false),
    ];
    let sorted = Project::sorted_files(files);
    assert_eq!(sorted[3].name, "b");
    let mut first: Vec<&str> = names(&sorted[..3]);
    first.sort();
    assert_eq!(first, vec![".a", "A", "a"]);
}

#[test]
fn listing_keys_are_ordered_like_texts() {
    let names = ["", "a", "ab", "abc", "b", "B", ".b", "é", "z", "zz", "...", "a.b"];
    for one in names {
        for other in names {
            for (one_is_dir, other_is_dir) in [(false, false), (true, true)] {
                let expected = one.to_lowercase().trim_start_matches('.')
                    <= other.to_lowercase().trim_start_matches('.');
                assert_eq!(
                    ListingKey::of(&entry(one, one_is_dir))
                        .is_no_later(&ListingKey::of(&entry(other, other_is_dir))),
                    expected,
                    "{one:?} and {other:?}"
                );
            }
            assert!(ListingKey::of(&entry(one, true)).is_no_later(&ListingKey::of(&entry(other, false))));
            assert!(!ListingKey::of(&entry(one, false)).is_no_later(&ListingKey::of(&entry(other, true))));
        }
    }
    assert!(1i16.is_no_later(&1) && 1i16.is_no_later(&2) && !2i16.is_no_later(&1));
}
