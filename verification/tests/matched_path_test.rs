use thwack::candidates::sort_matched_paths;
use thwack::matched_path::{Chunk, MatchedPath};

fn new(query: &str, starting_point: &str, absolute: &str) -> MatchedPath {
    MatchedPath::new(query, starting_point, absolute).unwrap()
}

fn chunk_values(chunks: &[Chunk]) -> Vec<(String, bool)> {
    chunks.iter().map(|c| (c.value.clone(), c.matched)).collect()
}

fn expected_chunks(expected: &[(&str, bool)]) -> Vec<(String, bool)> {
    expected.iter().map(|(v, m)| (v.to_string(), *m)).collect()
}

fn assert_chunks_eq_relative(path: MatchedPath, max_width: usize) {
    let chunks: String = path
        .relative_chunks(max_width)
        .iter()
        .map(|c| c.value.clone())
        .collect::<Vec<String>>()
        .join("");
    assert_eq!(chunks, path.relative)
}

#[test]
fn returns_new_instance() {
    let p = new("abc.txt", "/", "/abc/abc/abc.txt");
    assert_eq!(p.absolute, "/abc/abc/abc.txt");
    assert_eq!(p.relative, "abc/abc/abc.txt");
    assert_eq!(p.absolute_positions, vec![9, 10, 11, 12, 13, 14, 15]);
    assert_eq!(p.relative_positions, vec![8, 9, 10, 11, 12, 13, 14]);
    assert_eq!(p.depth, 2);

    let p = new("abc", "/", "/abc/abc/abc.txt");
    assert_eq!(p.absolute, "/abc/abc/abc.txt");
    assert_eq!(p.relative, "abc/abc/abc.txt");
    assert_eq!(p.absolute_positions, vec![9, 10, 11]);
    assert_eq!(p.relative_positions, vec![8, 9, 10]);
    assert_eq!(p.depth, 2);

    let p = new(
        "tem",
        "C:\\Documents",
        "C:\\Documents\\Newsletters\\Summer2018.pdf",
    );
    assert_eq!(p.absolute, "C:\\Documents\\Newsletters\\Summer2018.pdf");
    assert_eq!(p.relative, "Newsletters\\Summer2018.pdf");
    assert_eq!(p.absolute_positions, vec![20, 21, 28]);
    assert_eq!(p.relative_positions, vec![7, 8, 15]);
    assert_eq!(p.depth, 1);

    let p = new("foo☕t", "\\Folder\\", "\\Folder\\foo\\bar\\☕.txt");
    assert_eq!(p.absolute, "\\Folder\\foo\\bar\\☕.txt");
    assert_eq!(p.relative, "foo\\bar\\☕.txt");
    assert_eq!(p.absolute_positions, vec![8, 9, 10, 16, 22]);
    assert_eq!(p.relative_positions, vec![0, 1, 2, 8, 14]);
    assert_eq!(p.depth, 2);

    let p = new("a\u{310}e\u{301}o\u{308}\u{332}", "/", "/abc/Aa\u{310}Be\u{301}o\u{308}\u{332}.txt");
    assert_eq!(p.absolute, "/abc/Aa\u{310}Be\u{301}o\u{308}\u{332}.txt");
    assert_eq!(p.relative, "abc/Aa\u{310}Be\u{301}o\u{308}\u{332}.txt");
    assert_eq!(p.absolute_positions, vec![6, 10, 13]);
    assert_eq!(p.relative_positions, vec![5, 9, 12]);
    assert_eq!(p.depth, 1);
}

#[test]
fn joined_chunks_are_equal_to_relative() {
    assert_chunks_eq_relative(new("abc", "/home", "/home/abc.txt"), 30);
    assert_chunks_eq_relative(new("sbc", "/", "/home/src/abc.txt"), 30);
    assert_chunks_eq_relative(new("☕lover", "/", "/Docs/☕/level/oh/version.txt"), 30);
    assert_chunks_eq_relative(new("passwd", "/etc", "/etc/passwd"), 30);
}

#[test]
fn returns_absolute() {
    let path = new("abc", "/home", "/home/abc.txt");
    assert_eq!(path.absolute(), "/home/abc.txt");
}

#[test]
fn returns_truncated_absolute() {
    let path = new("abc", "/home", "/home/☕/special/test/bar/🚞/abc.txt");
    assert_eq!(
        path.truncated_absolute(100),
        "/home/☕/special/test/bar/🚞/abc.txt"
    );

    let path = new("abc", "/home", "/home/☕/special/test/bar/🚞/abc.txt");
    assert_eq!(path.truncated_absolute(20), "...st/bar/🚞/abc.txt");
}

#[test]
fn returns_absolute_chunks() {
    assert_eq!(
        chunk_values(&new("foo.txt", "/", "/foo/abc/foo.txt").absolute_chunks(30)),
        expected_chunks(&[("/foo/abc/", false), ("foo.txt", true)]),
    );
    assert_eq!(
        chunk_values(&new("abc.txt", "/", "/morning/morning/abc.txt").absolute_chunks(30)),
        expected_chunks(&[("/morning/morning/", false), ("abc.txt", true)]),
    );
    assert_eq!(
        chunk_values(
            &new(
                "gs",
                "C:\\Downloads",
                "C:\\Downloads\\Final\\Porting\\Special2019.pdf"
            )
            .absolute_chunks(28)
        ),
        expected_chunks(&[
            ("...l\\Portin", false),
            ("g", true),
            ("\\", false),
            ("S", true),
            ("pecial2019.pdf", false),
        ]),
    );
    assert_eq!(
        chunk_values(
            &new("👩‍🔬🗑", "C:\\", "C:\\Documents\\👩‍🔬\\🦑\\abcde\\🗑🌍.txt").absolute_chunks(24)
        ),
        expected_chunks(&[
            ("...", false),
            ("👩‍🔬", true),
            ("\\🦑\\abcde\\", false),
            ("🗑", true),
            ("🌍.txt", false),
        ]),
    );
}

#[test]
fn returns_relative_chunks() {
    assert_eq!(
        chunk_values(&new("abc.txt", "/", "/abc/abc/abc.txt").relative_chunks(30)),
        expected_chunks(&[("abc/abc/", false), ("abc.txt", true)]),
    );
    assert_eq!(
        chunk_values(&new("abc", "/", "/abc/abc/abc.txt").relative_chunks(30)),
        expected_chunks(&[("abc/abc/", false), ("abc", true), (".txt", false)]),
    );
    assert_eq!(
        chunk_values(
            &new(
                "tem",
                "C:\\Documents",
                "C:\\Documents\\Newsletters\\Summer2018.pdf"
            )
            .relative_chunks(30)
        ),
        expected_chunks(&[
            ("Newslet", false),
            ("te", true),
            ("rs\\Sum", false),
            ("m", true),
            ("er2018.pdf", false),
        ]),
    );
    assert_eq!(
        chunk_values(&new("foo☕t", "\\Folder\\", "\\Folder\\foo\\bar\\☕.txt").relative_chunks(30)),
        expected_chunks(&[
            ("foo", true),
            ("\\bar\\", false),
            ("☕", true),
            (".tx", false),
            ("t", true),
        ]),
    );
    assert_eq!(
        chunk_values(&new("a\u{310}e\u{301}o\u{308}\u{332}", "/", "/abc/Aa\u{310}Be\u{301}o\u{308}\u{332}.txt").relative_chunks(30)),
        expected_chunks(&[
            ("abc/A", false),
            ("a\u{310}", true),
            ("B", false),
            ("e\u{301}o\u{308}\u{332}", true),
            (".txt", false),
        ]),
    );
    assert_eq!(
        chunk_values(&new("☕.txt", "/", "/abc/☕/abc/☕.txt").relative_chunks(15)),
        expected_chunks(&[(".../abc/", false), ("☕.txt", true)]),
    );
    assert_eq!(
        chunk_values(
            &new("👩‍🔬☕", "C:\\", "C:\\Documents\\👩‍🔬\\🦑\\abcde\\☕🌍.txt").relative_chunks(24)
        ),
        expected_chunks(&[
            ("...\\🦑\\abcde\\", false),
            ("☕", true),
            ("🌍.txt", false),
        ]),
    );
}

#[test]
fn distance() {
    assert_eq!(new("abc", "/home", "/home/abc.txt").distance(), 2);
    assert_eq!(new("abc", "/home", "/home/a123bc.txt").distance(), 5);
    assert_eq!(new("foo.txt", "/home", "/home/ok/foo.txt").distance(), 6);
    assert_eq!(
        new("foo.txt", "/home", "/home/ok/f1o1o/ok.txt").distance(),
        11
    );
    assert_eq!(new("foo.txt", "/home", "/home/ok/foo/ok.txt").distance(), 9);
}

#[test]
fn sort() {
    let mut given = vec![
        new("abc.txt", "/home", "/home/abc.txt"),
        new("abc.txt", "/home", "/home/a12bc.txt"),
        new("abc.txt", "/home", "/home/a123bc.txt"),
        new("abc.txt", "/home", "/home/abc/cat.txt"),
        new("abc.txt", "/home", "/home/abc/src/abc.txt"),
        new("abc.txt", "/home", "/home/src/abc.txt"),
        new("abc.txt", "/home", "/home/src/n1/n2/aXbc.txt"),
        new("abc.txt", "/home", "/home/src/n1/n2/Foo-aXbc.txt"),
        new("abc.txt", "/home", "/home/src/n1/n2/Foo-aXbXc.txt"),
        new("abc.txt", "/home", "/home/src/n1/n2/abc.txt"),
        new("abc.txt", "/home", "/home/lib/abc!.txt"),
    ];
    sort_matched_paths(&mut given);
    let order: Vec<String> = given.iter().map(|p| p.absolute.clone()).collect();
    assert_eq!(
        order,
        vec![
            String::from("/home/abc.txt"),
            String::from("/home/src/abc.txt"),
            String::from("/home/abc/src/abc.txt"),
            String::from("/home/src/n1/n2/abc.txt"),
            String::from("/home/lib/abc!.txt"),
            String::from("/home/src/n1/n2/Foo-aXbc.txt"),
            String::from("/home/src/n1/n2/aXbc.txt"),
            String::from("/home/a12bc.txt"),
            String::from("/home/src/n1/n2/Foo-aXbXc.txt"),
            String::from("/home/a123bc.txt"),
            String::from("/home/abc/cat.txt"),
        ],
    );
}

#[test]
fn empty_query_matches_with_no_positions() {
    let p = new("", "/home", "/home/abc.txt");
    assert_eq!(p.relative, "abc.txt");
    assert_eq!(p.absolute_positions, Vec::<usize>::new());
    assert_eq!(p.relative_positions, Vec::<usize>::new());
    assert_eq!(p.distance(), 0);
}

#[test]
fn no_match_returns_none() {
    assert!(MatchedPath::new("zzz", "/home", "/home/abc.txt").is_none());
    assert!(MatchedPath::new("cba", "/home", "/home/abc").is_none());
}

#[test]
fn match_is_case_insensitive_in_ascii_only() {
    let p = new("licenSE", "/home", "/home/LICENSE");
    assert_eq!(p.relative_positions, vec![0, 1, 2, 3, 4, 5, 6]);
    assert!(MatchedPath::new("☕", "/home", "/home/abc.txt").is_none());
}

#[test]
fn chunks_round_trip_for_many_widths() {
    for width in 0..40 {
        let p = new("abc", "/home", "/home/☕/special/test/bar/🚞/abc.txt");
        let joined: String = p
            .absolute_chunks(width)
            .iter()
            .map(|c| c.value.clone())
            .collect::<Vec<String>>()
            .join("");
        if joined.starts_with("...") {
            assert!(p.absolute.ends_with(&joined[3..]));
        } else {
            assert_eq!(joined, p.absolute);
        }
    }
}

#[test]
fn truncation_elides_everything_when_no_suffix_fits() {
    // three 2-column clusters are 6 columns wide; at a budget of 4 not
    // even the last cluster fits behind the ellipsis, so only the
    // ellipsis is shown
    let p = new("", "/", "/☕☕☕");
    let chunks = p.relative_chunks(4);
    assert_eq!(chunk_values(&chunks), expected_chunks(&[("...", false)]));
    assert_eq!(p.truncated_relative(4), "...");
}

#[test]
fn query_normalization_for_separator_conventions() {
    // forward-slash hosts keep the query as typed
    assert_eq!(thwack::matched_path::normalize_query("src/ab"), "src/ab");
    // backslash-separator hosts treat every typed slash as the native
    // separator
    assert_eq!(
        thwack::matched_path::normalize_query_backslash("src/a/b☕"),
        "src\\a\\b☕"
    );
    assert_eq!(thwack::matched_path::normalize_query_backslash(""), "");
    assert_eq!(thwack::matched_path::normalize_query_backslash("abc"), "abc");
}
