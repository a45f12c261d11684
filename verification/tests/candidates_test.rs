use thwack::candidates::Candidates;
use thwack::query::Query;
use thwack::starting_point::StartingPoint;

const ROOT: &str = "/home/user/app";

fn tracked_files() -> Vec<&'static str> {
    vec![
        ".browserslistrc",
        ".config/bar.toml",
        ".config/ok.toml",
        ".editorconfig",
        ".env",
        ".env.local",
        ".gitignore",
        ".npmrc",
        ".nvmrc",
        "Dockerfile",
        "LICENSE",
        "README.md",
        "lib/a/b/c/index.js",
        "lib/a/b/c/☕.js",
        "lib/a/b/index.js",
        "lib/a/index.js",
        "lib/bar.js",
        "lib/index.js",
        "package-lock.json",
        "package.json",
        "src/a/__test__.js",
        "src/a/b/c/index.js",
        "src/a/b/index.js",
        "src/a/index.js",
        "src/a/☕.js",
        "src/foo.js",
        "src/index.js",
        "tsconfig.json",
        "☕.txt",
    ]
}

/// The absolute paths the directory walker would hand over for the test
/// tree; with `respect_ignores` the gitignored file and the repository
/// metadata stay out, as the gitignore-aware walker leaves them out.
fn walked_paths(respect_ignores: bool) -> Vec<String> {
    let mut rels = tracked_files();
    if !respect_ignores {
        rels.push("log.txt");
        rels.push(".git/config");
    }
    rels.iter().map(|r| format!("{}/{}", ROOT, r)).collect()
}

fn starting_point() -> StartingPoint {
    StartingPoint::new(String::from(ROOT))
}

fn relative_paths(candidates: &Candidates) -> Vec<String> {
    candidates
        .paths()
        .iter()
        .map(|p| p.relative.replace('\\', "/"))
        .collect()
}

#[test]
fn test_candidates_without_query() {
    let starting_point = starting_point();
    let query = Query::new("");
    let paths = walked_paths(true);

    let candidates = Candidates::new(3, &starting_point, &paths, &query);
    let result = relative_paths(&candidates);
    assert_eq!(result, &[".browserslistrc", ".editorconfig", ".env"]);
}

#[test]
fn test_candidates_with_query() {
    let starting_point = starting_point();
    let query = Query::new("bar");
    let paths = walked_paths(true);
    let candidates = Candidates::new(5, &starting_point, &paths, &query);
    let result = relative_paths(&candidates);
    assert_eq!(result, &[".config/bar.toml", "lib/bar.js"]);
}

#[test]
fn test_candidates_without_repo() {
    let starting_point = starting_point();
    let query = Query::new("");
    let paths = walked_paths(false);

    let candidates = Candidates::new(100, &starting_point, &paths, &query);
    let result = relative_paths(&candidates);
    assert!(result.contains(&"log.txt".to_string()));
    assert!(result.contains(&".git/config".to_string()));
}

#[test]
fn test_move_down() {
    let starting_point = starting_point();
    let query = Query::new("");
    let paths = walked_paths(true);

    let mut candidates = Candidates::new(3, &starting_point, &paths, &query);
    assert_eq!(candidates.selected, Some(0));
    candidates.move_down();
    assert_eq!(candidates.selected, Some(1));
    candidates.move_down();
    assert_eq!(candidates.selected, Some(2));
    candidates.move_down();
    assert_eq!(candidates.selected, Some(2));
    candidates.move_down();
    assert_eq!(candidates.selected, Some(2));

    let mut candidates = Candidates::new(0, &starting_point, &paths, &query);
    candidates.move_down();
    assert_eq!(candidates.selected, None);
    candidates.move_down();
    assert_eq!(candidates.selected, None);
}

#[test]
fn test_move_up() {
    let starting_point = starting_point();
    let query = Query::new("");
    let paths = walked_paths(true);

    let mut candidates = Candidates::new(3, &starting_point, &paths, &query);
    assert_eq!(candidates.selected, Some(0));
    candidates.move_up();
    assert_eq!(candidates.selected, Some(0));
    candidates.move_down();
    candidates.move_down();
    candidates.move_down();
    assert_eq!(candidates.selected, Some(2));
    candidates.move_up();
    assert_eq!(candidates.selected, Some(1));
    candidates.move_up();
    assert_eq!(candidates.selected, Some(0));
    candidates.move_up();
    assert_eq!(candidates.selected, Some(0));

    let mut candidates = Candidates::new(0, &starting_point, &paths, &query);
    candidates.move_up();
    assert_eq!(candidates.selected, None);
    candidates.move_up();
    assert_eq!(candidates.selected, None);
}

#[test]
fn test_selected() {
    let starting_point = starting_point();
    let query = Query::new("");
    let paths = walked_paths(true);

    let mut candidates = Candidates::new(3, &starting_point, &paths, &query);
    assert_eq!(candidates.selected().unwrap().relative(), ".browserslistrc");

    candidates.move_down();
    assert!(candidates
        .selected()
        .unwrap()
        .relative()
        .ends_with(".editorconfig"));

    candidates.move_down();
    assert!(candidates.selected().unwrap().relative().ends_with(".env"));

    candidates.move_up();
    candidates.move_up();
    assert_eq!(candidates.selected().unwrap().relative(), ".browserslistrc");
}

#[test]
fn test_selected_none_at_started() {
    let starting_point = starting_point();
    let query = Query::new("ABCABC!!!!!!!!!");
    let paths = walked_paths(false);

    let mut candidates = Candidates::new(3, &starting_point, &paths, &query);
    assert!(candidates.selected().is_none());

    candidates.move_down();
    assert!(candidates.selected().is_none());

    candidates.move_down();
}

#[test]
fn test_paths() {
    let starting_point = starting_point();
    let query = Query::new("");
    let paths = walked_paths(true);

    let candidates = Candidates::new(3, &starting_point, &paths, &query);
    let result: Vec<String> = candidates
        .paths()
        .iter()
        .map(|p| p.relative.replace('\\', "/"))
        .collect();
    assert_eq!(result, &[".browserslistrc", ".editorconfig", ".env"]);
}
