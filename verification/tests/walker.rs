use dotfiles::error::{Error, Errors, InnerError, IoFailure, IoKind};
use dotfiles::path::RelPath;
use dotfiles::walker::{
    classify, merge, prepared, DirStep, Entry, EntryKind, ListFailure, Listing, Work,
};

fn rel(names: &[&str]) -> RelPath {
    let mut path = RelPath::root();
    for name in names {
        path = path.child(name);
    }
    path
}

fn failure(kind: IoKind, message: &str) -> IoFailure {
    IoFailure { kind, message: message.to_string() }
}

fn located(at: &str, message: &str) -> Error {
    Error::new(at.to_string(), InnerError::Io(failure(IoKind::Other, message)))
}

fn entry(name: &str, kind: EntryKind) -> Entry {
    Entry { name: name.to_string(), kind: Ok(kind) }
}

fn unreadable(name: &str, message: &str) -> Entry {
    Entry { name: name.to_string(), kind: Err(failure(IoKind::Other, message)) }
}

fn step() -> DirStep {
    DirStep {
        relative: rel(&["sub"]),
        source: "tpl/sub".to_string(),
        dest: Some("build/sub".to_string()),
    }
}

#[test]
fn created_directory_is_prepared() {
    assert_eq!(prepared("build/sub", Ok(())), Ok(()));
}

#[test]
fn existing_directory_is_prepared() {
    assert_eq!(prepared("build/sub", Err(failure(IoKind::AlreadyExists, "File exists"))), Ok(()));
}

#[test]
fn other_creation_failure_ends_the_subtree() {
    assert_eq!(
        prepared("build/sub", Err(failure(IoKind::Other, "denied"))),
        Err(Errors::from(located("build/sub", "denied")))
    );
    assert_eq!(
        prepared("build/sub", Err(failure(IoKind::NotFound, "no parent"))),
        Err(Errors::from(Error::new(
            "build/sub".to_string(),
            InnerError::Io(failure(IoKind::NotFound, "no parent"))
        )))
    );
}

#[test]
fn entries_become_tasks_in_listing_order() {
    let listing = Listing {
        entries: vec![
            entry("d1", EntryKind::Directory),
            entry("f1", EntryKind::File),
            entry("link", EntryKind::Other),
            entry("f2.tpl", EntryKind::File),
            entry("d2", EntryKind::Directory),
        ],
        failure: None,
    };
    assert_eq!(
        classify(&step(), listing),
        Ok(Work {
            dirs: vec![rel(&["sub", "d1"]), rel(&["sub", "d2"])],
            files: vec![rel(&["sub", "f1"]), rel(&["sub", "f2.tpl"])],
            unreadable: Errors::new(),
        })
    );
}

#[test]
fn empty_directory_has_no_task() {
    let listing = Listing { entries: vec![], failure: None };
    assert_eq!(classify(&step(), listing), Ok(Work { dirs: vec![], files: vec![], unreadable: Errors::new() }));
}

#[test]
fn entries_that_are_neither_are_passed_over() {
    let listing = Listing {
        entries: vec![entry("socket", EntryKind::Other), entry("link", EntryKind::Other)],
        failure: None,
    };
    assert_eq!(classify(&step(), listing), Ok(Work { dirs: vec![], files: vec![], unreadable: Errors::new() }));
}

#[test]
fn unreadable_directory_gives_one_error_at_the_directory() {
    let listing = Listing {
        entries: vec![],
        failure: Some(ListFailure::Open(failure(IoKind::Other, "denied"))),
    };
    assert_eq!(classify(&step(), listing), Err(Errors::from(located("tpl/sub", "denied"))));
}

#[test]
fn failed_listing_gives_no_partial_result() {
    let listing = Listing {
        entries: vec![entry("f1", EntryKind::File), entry("d1", EntryKind::Directory)],
        failure: Some(ListFailure::Next(failure(IoKind::Other, "io"))),
    };
    assert_eq!(classify(&step(), listing), Err(Errors::from(located("tpl/sub", "io"))));
}

#[test]
fn failed_metadata_is_located_at_the_entry() {
    let listing = Listing {
        entries: vec![entry("f1", EntryKind::File), unreadable("gone", "stat")],
        failure: None,
    };
    let work = classify(&step(), listing).unwrap();
    assert_eq!(work.unreadable, Errors::from(located("tpl/sub/gone", "stat")));
}

#[test]
fn failed_metadata_keeps_no_other_entry_from_its_task() {
    let listing = Listing {
        entries: vec![
            entry("d1", EntryKind::Directory),
            unreadable("gone", "stat"),
            entry("f1", EntryKind::File),
            entry("link", EntryKind::Other),
            unreadable("lost", "again"),
            entry("f2", EntryKind::File),
        ],
        failure: None,
    };
    assert_eq!(
        classify(&step(), listing),
        Ok(Work {
            dirs: vec![rel(&["sub", "d1"])],
            files: vec![rel(&["sub", "f1"]), rel(&["sub", "f2"])],
            unreadable: Errors::from(vec![
                located("tpl/sub/gone", "stat"),
                located("tpl/sub/lost", "again"),
            ]),
        })
    );
}

#[test]
fn failed_listing_outweighs_failed_metadata() {
    let listing = Listing {
        entries: vec![unreadable("gone", "stat"), entry("f1", EntryKind::File)],
        failure: Some(ListFailure::Next(failure(IoKind::Other, "io"))),
    };
    assert_eq!(classify(&step(), listing), Err(Errors::from(located("tpl/sub", "io"))));
}

#[test]
fn one_unreadable_entry_fails_the_level_with_one_error() {
    let listing = Listing {
        entries: vec![
            entry("f1", EntryKind::File),
            unreadable("gone", "vanished"),
            entry("f2", EntryKind::File),
        ],
        failure: None,
    };
    let work = classify(&step(), listing).unwrap();
    assert_eq!(work.files.len(), 2);
    let files: Vec<Result<Vec<u8>, Error>> = vec![Ok(vec![1]), Ok(vec![2])];
    assert_eq!(
        merge(work.unreadable, files, vec![]),
        Err(Errors::from(located("tpl/sub/gone", "vanished")))
    );
}

#[test]
fn failures_of_the_level_come_before_those_of_its_tasks() {
    let own = Errors::from(located("tpl/gone", "stat"));
    let files: Vec<Result<Vec<u8>, Error>> = vec![Err(located("tpl/f", "read"))];
    let dirs: Vec<Result<Vec<u8>, Errors>> = vec![Err(Errors::from(located("tpl/d/x", "bad")))];
    assert_eq!(
        merge(own, files, dirs),
        Err(Errors::from(vec![
            located("tpl/gone", "stat"),
            located("tpl/f", "read"),
            located("tpl/d/x", "bad"),
        ]))
    );
}

#[test]
fn level_without_failure_succeeds_with_everything_produced() {
    let files = vec![Ok(vec!["a"]), Ok(vec![]), Ok(vec!["b", "c"])];
    let dirs = vec![Ok(vec!["d"]), Ok(vec!["e"])];
    assert_eq!(merge(Errors::new(), files, dirs), Ok(vec!["a", "b", "c", "d", "e"]));
}

#[test]
fn empty_level_succeeds() {
    let files: Vec<Result<Vec<u8>, Error>> = vec![];
    let dirs: Vec<Result<Vec<u8>, Errors>> = vec![];
    assert_eq!(merge(Errors::new(), files, dirs), Ok(vec![]));
}

#[test]
fn one_unreadable_file_among_ten() {
    let mut files: Vec<Result<Vec<()>, Error>> = Vec::new();
    for i in 0..10 {
        if i == 3 {
            files.push(Err(located("tpl/f3", "unreadable")));
        } else {
            files.push(Ok(vec![()]));
        }
    }
    let processed = files.iter().filter(|result| result.is_ok()).count();
    assert_eq!(processed, 9);
    let errors = merge(Errors::new(), files, vec![]).unwrap_err();
    assert_eq!(errors, Errors::from(located("tpl/f3", "unreadable")));
    assert_eq!(errors.log()[0], "1 errors occured:");
}

#[test]
fn failures_of_files_come_before_those_of_subdirectories() {
    let files: Vec<Result<Vec<()>, Error>> =
        vec![Err(located("f1", "x")), Ok(vec![]), Err(located("f3", "y"))];
    let mut below = Errors::from(located("d1/a", "p"));
    below.push(located("d1/b", "q"));
    let dirs: Vec<Result<Vec<()>, Errors>> =
        vec![Err(below), Ok(vec![()]), Err(Errors::from(located("d3/c", "r")))];
    let errors = merge(Errors::new(), files, dirs).unwrap_err();
    assert_eq!(
        errors,
        Errors::from(vec![
            located("f1", "x"),
            located("f3", "y"),
            located("d1/a", "p"),
            located("d1/b", "q"),
            located("d3/c", "r"),
        ])
    );
}

#[test]
fn failing_subdirectory_fails_the_level() {
    let files: Vec<Result<Vec<u8>, Error>> = vec![Ok(vec![1]), Ok(vec![2])];
    let dirs: Vec<Result<Vec<u8>, Errors>> = vec![Err(Errors::from(located("d/x", "bad")))];
    assert_eq!(merge(Errors::new(), files, dirs), Err(Errors::from(located("d/x", "bad"))));
}

#[test]
fn subdirectory_that_failed_without_failures_does_not_fail_the_level() {
    let files: Vec<Result<Vec<u8>, Error>> = vec![Ok(vec![1])];
    let dirs: Vec<Result<Vec<u8>, Errors>> = vec![Err(Errors::new()), Ok(vec![2])];
    assert_eq!(merge(Errors::new(), files, dirs), Ok(vec![1, 2]));
}
