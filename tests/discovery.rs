use nester::file_obtainer::{
    is_accepted_name, Configuration, ConfigurationBuilder, DiscoveryError, Entry, Step, Walk,
};

fn file(dir: &str, name: &str) -> Entry {
    Entry { path: format!("{}/{}", dir, name), name: name.to_string(), is_dir: false }
}

fn dir(parent: &str, name: &str) -> Entry {
    Entry { path: format!("{}/{}", parent, name), name: name.to_string(), is_dir: true }
}

fn config(root: &str, endings: &[&str]) -> Configuration {
    ConfigurationBuilder::new(root.to_string())
        .add_file_endings(endings.iter().map(|e| e.to_string()).collect())
        .build()
}

/// Drives a walk over a tree given as a listing function; returns the result
/// and every directory that was asked for.
fn run(
    config: Configuration,
    list: &dyn Fn(&str) -> Option<Vec<Entry>>,
) -> (Result<Vec<String>, DiscoveryError>, Vec<String>) {
    let mut walk = Walk::new(config);
    let mut asked = vec![walk.pending().unwrap().clone()];
    let mut listing = list(&asked[0]);
    loop {
        match walk.on_listing(listing) {
            Step::List(p) => {
                listing = list(&p);
                asked.push(p);
            }
            Step::Done(files) => return (Ok(files), asked),
            Step::Failed(e) => return (Err(e), asked),
        }
    }
}

fn deep_tree(path: &str) -> Option<Vec<Entry>> {
    match path {
        "root" => Some(vec![dir("root", "a"), file("root", "top.rs"), file("root", "notes.txt")]),
        "root/a" => Some(vec![dir("root/a", "b"), file("root/a", "one.rs")]),
        "root/a/b" => Some(vec![dir("root/a/b", "c"), file("root/a/b", "two.txt")]),
        "root/a/b/c" => Some(vec![file("root/a/b/c", "deep.rs"), file("root/a/b/c", "Makefile")]),
        _ => None,
    }
}

#[test]
fn builder_defaults_to_no_endings() {
    let c = ConfigurationBuilder::new("src".to_string()).build();
    assert_eq!(c.root_dir(), "src");
    assert!(c.file_endings().is_empty());
}

#[test]
fn builder_keeps_endings() {
    let c = config("src", &[".cs", ".rs"]);
    assert_eq!(c.file_endings(), &vec![".cs".to_string(), ".rs".to_string()]);
}

#[test]
fn listed_extension_is_rejected_with_or_without_dot() {
    assert!(!is_accepted_name(&vec![".txt".to_string()], "b.txt"));
    assert!(!is_accepted_name(&vec!["txt".to_string()], "b.txt"));
    assert!(is_accepted_name(&vec![".txt".to_string()], "a.rs"));
    assert!(is_accepted_name(&vec![".txt".to_string()], "a.txtx"));
    assert!(!is_accepted_name(&vec![".gz".to_string()], "a.tar.gz"));
    assert!(is_accepted_name(&vec![".tar".to_string()], "a.tar.gz"));
}

#[test]
fn empty_filter_keeps_every_file() {
    assert!(is_accepted_name(&vec![], "a.rs"));
    assert!(is_accepted_name(&vec![], "b.txt"));
}

#[test]
fn file_without_extension_is_kept() {
    let endings = vec![".rs".to_string(), "".to_string(), ".".to_string()];
    assert!(is_accepted_name(&endings, "Makefile"));
    assert!(is_accepted_name(&endings, ".bashrc"));
    assert!(!is_accepted_name(&endings, "odd."));
}

#[test]
fn finds_files_at_every_depth() {
    let (result, asked) = run(config("root", &[".txt"]), &deep_tree);
    let files = result.unwrap();
    assert_eq!(
        files,
        vec!["root/top.rs", "root/a/one.rs", "root/a/b/c/deep.rs", "root/a/b/c/Makefile"]
    );
    assert_eq!(asked, vec!["root", "root/a", "root/a/b", "root/a/b/c"]);
}

#[test]
fn empty_filter_finds_all_files_of_tree() {
    let (result, _) = run(config("root", &[]), &deep_tree);
    assert_eq!(result.unwrap().len(), 6);
}

#[test]
fn walk_is_breadth_first() {
    let tree = |p: &str| -> Option<Vec<Entry>> {
        match p {
            "r" => Some(vec![dir("r", "x"), dir("r", "y"), file("r", "f.rs")]),
            "r/x" => Some(vec![dir("r/x", "z"), file("r/x", "g.rs")]),
            "r/y" => Some(vec![file("r/y", "h.rs")]),
            "r/x/z" => Some(vec![file("r/x/z", "i.rs")]),
            _ => None,
        }
    };
    let (result, asked) = run(config("r", &[]), &tree);
    assert_eq!(asked, vec!["r", "r/x", "r/y", "r/x/z"]);
    assert_eq!(result.unwrap(), vec!["r/f.rs", "r/x/g.rs", "r/y/h.rs", "r/x/z/i.rs"]);
}

#[test]
fn empty_root_gives_empty_collection() {
    let mut walk = Walk::new(config("empty", &[".rs"]));
    assert_eq!(walk.on_listing(Some(vec![])), Step::Done(vec![]));
    assert!(walk.pending().is_none());
}

#[test]
fn missing_root_fails_before_any_other_listing() {
    let (result, asked) = run(config("does/not/exist", &[]), &|_: &str| None);
    assert_eq!(result, Err(DiscoveryError::RootUnreadable("does/not/exist".to_string())));
    assert_eq!(asked, vec!["does/not/exist"]);
}

#[test]
fn unreadable_subdirectory_fails_the_walk() {
    let tree = |p: &str| -> Option<Vec<Entry>> {
        match p {
            "r" => Some(vec![file("r", "a.rs"), dir("r", "locked")]),
            _ => None,
        }
    };
    let (result, _) = run(config("r", &[]), &tree);
    assert_eq!(result, Err(DiscoveryError::DirectoryUnreadable("r/locked".to_string())));
}

#[test]
fn walk_asks_for_root_first() {
    let walk = Walk::new(config("start", &[]));
    assert_eq!(walk.pending(), Some(&"start".to_string()));
}
