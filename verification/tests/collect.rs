use file_analyzer::collect::collect_one_dir;
use file_analyzer::collect::collect_txt_files;
use file_analyzer::collect::file_entry;
use file_analyzer::collect::has_text_extension;
use file_analyzer::collect::DirEntry;
use file_analyzer::collect::DirListing;
use file_analyzer::collect::DirScan;

fn file(path: &str, extension: Option<&str>) -> DirEntry {
    DirEntry::File { path: path.to_string(), extension: extension.map(|e| e.to_string()) }
}

fn dir(path: &str, entries: Vec<DirEntry>) -> DirEntry {
    DirEntry::Directory { path: path.to_string(), listing: DirListing::Entries(entries) }
}

fn scan(path: &str, entries: Vec<DirEntry>) -> DirScan {
    DirScan { path: path.to_string(), listing: DirListing::Entries(entries) }
}

#[test]
fn text_extension_in_any_case() {
    assert!(has_text_extension("txt"));
    assert!(has_text_extension("TXT"));
    assert!(has_text_extension("tXt"));
    assert!(has_text_extension("Txt"));
}

#[test]
fn other_extensions_are_not_text() {
    assert!(!has_text_extension(""));
    assert!(!has_text_extension("tx"));
    assert!(!has_text_extension("txt2"));
    assert!(!has_text_extension(".txt"));
    assert!(!has_text_extension("md"));
    assert!(!has_text_extension("tyt"));
    assert!(!has_text_extension("axt"));
    assert!(!has_text_extension("txa"));
    assert!(!has_text_extension("t\u{00d7}t"));
}

#[test]
fn no_directories_give_nothing() {
    let (files, errors) = collect_txt_files(&[]);
    assert!(files.is_empty());
    assert!(errors.is_empty());
}

#[test]
fn only_text_files_are_collected() {
    let roots = [scan(
        "data",
        vec![
            file("data/a.txt", Some("txt")),
            file("data/b.md", Some("md")),
            file("data/README", None),
            file("data/C.TXT", Some("TXT")),
            DirEntry::Other,
        ],
    )];
    let (files, errors) = collect_txt_files(&roots);
    assert_eq!(files, vec!["data/a.txt".to_string(), "data/C.TXT".to_string()]);
    assert!(errors.is_empty());
}

#[test]
fn directories_are_walked_depth_first_in_listing_order() {
    let roots = [
        scan(
            "one",
            vec![
                file("one/z.txt", Some("txt")),
                dir(
                    "one/sub",
                    vec![
                        file("one/sub/a.txt", Some("txt")),
                        dir("one/sub/deep", vec![file("one/sub/deep/m.txt", Some("txt"))]),
                        file("one/sub/b.txt", Some("txt")),
                    ],
                ),
                file("one/y.txt", Some("txt")),
            ],
        ),
        scan("two", vec![file("two/k.txt", Some("txt"))]),
    ];
    let (files, errors) = collect_txt_files(&roots);
    assert_eq!(
        files,
        vec![
            "one/z.txt".to_string(),
            "one/sub/a.txt".to_string(),
            "one/sub/deep/m.txt".to_string(),
            "one/sub/b.txt".to_string(),
            "one/y.txt".to_string(),
            "two/k.txt".to_string(),
        ]
    );
    assert!(errors.is_empty());
}

#[test]
fn an_unreadable_root_is_recorded_and_the_others_are_walked() {
    let roots = [
        DirScan { path: "gone".to_string(), listing: DirListing::Unreadable("not found".to_string()) },
        scan("here", vec![file("here/a.txt", Some("txt"))]),
    ];
    let (files, errors) = collect_txt_files(&roots);
    assert_eq!(files, vec!["here/a.txt".to_string()]);
    assert_eq!(errors.len(), 1);
    assert_eq!(errors[0].filename, "gone");
    assert_eq!(errors[0].operation, "read_dir");
    assert_eq!(errors[0].message, "not found");
}

#[test]
fn a_bad_entry_does_not_end_the_walk() {
    let roots = [scan(
        "d",
        vec![
            file("d/a.txt", Some("txt")),
            DirEntry::Unreadable("io".to_string()),
            DirEntry::NoMetadata { path: "d/odd".to_string(), message: "stat".to_string() },
            DirEntry::Directory {
                path: "d/locked".to_string(),
                listing: DirListing::Unreadable("denied".to_string()),
            },
            file("d/b.txt", Some("txt")),
        ],
    )];
    let (files, errors) = collect_txt_files(&roots);
    assert_eq!(files, vec!["d/a.txt".to_string(), "d/b.txt".to_string()]);
    assert_eq!(errors.len(), 3);
    assert_eq!(errors[0].filename, "d");
    assert_eq!(errors[0].operation, "read_dir_entry");
    assert_eq!(errors[0].message, "io");
    assert_eq!(errors[1].filename, "d/odd");
    assert_eq!(errors[1].operation, "metadata");
    assert_eq!(errors[1].message, "stat");
    assert_eq!(errors[2].filename, "d/locked");
    assert_eq!(errors[2].operation, "read_dir");
    assert_eq!(errors[2].message, "denied");
}

#[test]
fn an_unreadable_entry_of_a_subdirectory_is_charged_to_that_directory() {
    let roots = [scan("top", vec![dir("top/in", vec![DirEntry::Unreadable("x".to_string())])])];
    let (_, errors) = collect_txt_files(&roots);
    assert_eq!(errors.len(), 1);
    assert_eq!(errors[0].filename, "top/in");
    assert_eq!(errors[0].operation, "read_dir_entry");
}

#[test]
fn the_same_directory_twice_gives_its_files_twice() {
    let roots = [
        scan("d", vec![file("d/a.txt", Some("txt"))]),
        scan("d", vec![file("d/a.txt", Some("txt"))]),
    ];
    let (files, _) = collect_txt_files(&roots);
    assert_eq!(files, vec!["d/a.txt".to_string(), "d/a.txt".to_string()]);
}

#[test]
fn collect_one_dir_adds_to_what_is_there() {
    let mut files = vec!["before.txt".to_string()];
    let mut errors = Vec::new();
    let listing = DirListing::Entries(vec![file("d/a.txt", Some("txt"))]);
    collect_one_dir("d", &listing, &mut files, &mut errors);
    assert_eq!(files, vec!["before.txt".to_string(), "d/a.txt".to_string()]);
    assert!(errors.is_empty());
}

#[test]
fn file_entry_finds_the_extension_of_the_name() {
    match file_entry("data/notes.TXT".to_string()) {
        DirEntry::File { path, extension } => {
            assert_eq!(path, "data/notes.TXT");
            assert_eq!(extension, Some("TXT".to_string()));
        },
        other => panic!("not a file: {:?}", other),
    }
    match file_entry("data.d/notes".to_string()) {
        DirEntry::File { path, extension } => {
            assert_eq!(path, "data.d/notes");
            assert_eq!(extension, None);
        },
        other => panic!("not a file: {:?}", other),
    }
    match file_entry("data/.txt".to_string()) {
        DirEntry::File { extension, .. } => assert_eq!(extension, None),
        other => panic!("not a file: {:?}", other),
    }
}

#[test]
fn file_entries_are_collected_by_their_extension() {
    let roots = [scan(
        "d",
        vec![
            file_entry("d/a.txt".to_string()),
            file_entry("d/b.rs".to_string()),
            file_entry("d/c.tar.TxT".to_string()),
            file_entry("d/txt".to_string()),
        ],
    )];
    let (files, errors) = collect_txt_files(&roots);
    assert_eq!(files, vec!["d/a.txt".to_string(), "d/c.tar.TxT".to_string()]);
    assert!(errors.is_empty());
}

#[test]
fn an_extension_is_a_stretch_of_the_path() {
    let paths = ["d/a.txt", "d/c.tar.TxT", "d.x/e", "a.b/", ".txt", "x/.", "..", "", "a b.c d"];
    for path in paths {
        match file_entry(path.to_string()) {
            DirEntry::File { path: kept, extension } => {
                assert_eq!(kept, path);
                if let Some(e) = extension {
                    assert!(path.contains(e.as_str()));
                }
            },
            other => panic!("not a file: {:?}", other),
        }
    }
}
