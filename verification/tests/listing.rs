use blaze::error::NavError;
use blaze::listing::{Entry, EntryKind, Listing, RawChild, ReadFailure};
use blaze::path::Path;

fn drive() -> Path {
    Path::parse("C:\\data").unwrap()
}

fn posix() -> Path {
    Path::parse("/srv/data").unwrap()
}

fn child(name: &str, kind: Option<EntryKind>) -> RawChild {
    RawChild { name: Some(name.to_string()), kind }
}

fn entries(listing: &Listing) -> Vec<(String, EntryKind, bool)> {
    let mut all = Vec::new();
    for i in 0..listing.len() {
        let e = listing.get(i).unwrap();
        all.push((e.name.clone(), e.kind, e.selected));
    }
    all
}

#[test]
fn an_empty_directory_lists_as_an_empty_sequence() {
    let listing = Listing::list(&drive(), &Ok(Vec::new())).expect("no error for an empty directory");
    assert!(listing.is_empty());
    assert_eq!(listing.len(), 0);
    assert_eq!(listing.get(0), None);
}

#[test]
fn one_file_and_one_directory_list_as_two_entries_in_order() {
    let read = Ok(vec![
        child("report.txt", Some(EntryKind::File)),
        child("backups", Some(EntryKind::Directory)),
    ]);
    let listing = Listing::list(&drive(), &read).unwrap();
    assert_eq!(listing.len(), 2);
    assert_eq!(
        listing.get(0),
        Some(&Entry { name: "report.txt".to_string(), kind: EntryKind::File, selected: false })
    );
    assert_eq!(
        listing.get(1),
        Some(&Entry { name: "backups".to_string(), kind: EntryKind::Directory, selected: false })
    );
    assert_eq!(listing.get(2), None);
}

#[test]
fn the_order_of_the_report_is_kept() {
    let read = vec![
        child("zeta", Some(EntryKind::Directory)),
        child("alpha", Some(EntryKind::File)),
        child("Mid", Some(EntryKind::File)),
        child("alpha", Some(EntryKind::Directory)),
    ];
    let listing = Listing::classify(&drive(), &read);
    assert_eq!(
        entries(&listing),
        vec![
            ("zeta".to_string(), EntryKind::Directory, false),
            ("alpha".to_string(), EntryKind::File, false),
            ("Mid".to_string(), EntryKind::File, false),
            ("alpha".to_string(), EntryKind::Directory, false),
        ]
    );
}

#[test]
fn a_child_of_unknown_kind_is_left_out_and_the_rest_is_listed() {
    let read = vec![
        child("first", Some(EntryKind::File)),
        child("locked", None),
        child("last", Some(EntryKind::Directory)),
    ];
    let listing = Listing::classify(&drive(), &read);
    assert_eq!(
        entries(&listing),
        vec![
            ("first".to_string(), EntryKind::File, false),
            ("last".to_string(), EntryKind::Directory, false),
        ]
    );
    assert_eq!(Listing::count_omitted(&drive(), &read), 1);
}

#[test]
fn a_child_whose_name_is_no_segment_is_left_out() {
    let read = vec![
        child("", Some(EntryKind::File)),
        child(".", Some(EntryKind::Directory)),
        child("..", Some(EntryKind::Directory)),
        child("a/b", Some(EntryKind::File)),
        child("a\\b", Some(EntryKind::File)),
        child("kept", Some(EntryKind::File)),
    ];
    let listing = Listing::classify(&drive(), &read);
    assert_eq!(entries(&listing), vec![("kept".to_string(), EntryKind::File, false)]);
    assert_eq!(Listing::count_omitted(&drive(), &read), 5);
}

#[test]
fn a_child_with_a_backslash_in_its_name_is_shown_below_the_posix_root() {
    let read = vec![
        child("a\\b", Some(EntryKind::Directory)),
        child("a/b", Some(EntryKind::File)),
        child("..", Some(EntryKind::Directory)),
        child("kept", Some(EntryKind::File)),
    ];
    let listing = Listing::classify(&posix(), &read);
    assert_eq!(
        entries(&listing),
        vec![
            ("a\\b".to_string(), EntryKind::Directory, false),
            ("kept".to_string(), EntryKind::File, false),
        ]
    );
    assert_eq!(Listing::count_omitted(&posix(), &read), 2);
    assert_eq!(Listing::count_omitted(&drive(), &read), 3);
}

#[test]
fn the_same_report_lists_alike_below_either_root_where_no_name_holds_a_backslash() {
    let read = vec![
        child("report.txt", Some(EntryKind::File)),
        child("locked", None),
        child("backups", Some(EntryKind::Directory)),
    ];
    assert_eq!(Listing::classify(&posix(), &read), Listing::classify(&drive(), &read));
    assert_eq!(Listing::list(&posix(), &Ok(read)).unwrap().len(), 2);
}

#[test]
fn a_child_whose_name_is_no_text_is_left_out() {
    let read = vec![
        child("first", Some(EntryKind::File)),
        RawChild { name: None, kind: Some(EntryKind::File) },
        RawChild { name: None, kind: None },
        child("last", Some(EntryKind::Directory)),
    ];
    let listing = Listing::classify(&drive(), &read);
    assert_eq!(
        entries(&listing),
        vec![
            ("first".to_string(), EntryKind::File, false),
            ("last".to_string(), EntryKind::Directory, false),
        ]
    );
    assert_eq!(Listing::count_omitted(&drive(), &read), 2);
}

#[test]
fn nothing_is_counted_as_omitted_where_all_are_shown() {
    let read = vec![child("a", Some(EntryKind::File)), child("b", Some(EntryKind::Directory))];
    assert_eq!(Listing::count_omitted(&drive(), &read), 0);
    assert_eq!(Listing::count_omitted(&posix(), &Vec::new()), 0);
}

#[test]
fn every_child_unreadable_still_gives_a_listing() {
    let read = Ok(vec![child("x", None), child("y", None)]);
    let listing = Listing::list(&drive(), &read).unwrap();
    assert!(listing.is_empty());
}

#[test]
fn each_read_failure_has_its_own_error() {
    assert_eq!(Listing::list(&drive(), &Err(ReadFailure::NotFound)), Err(NavError::NotFound));
    assert_eq!(Listing::list(&drive(), &Err(ReadFailure::NotADirectory)), Err(NavError::NotADirectory));
    assert_eq!(
        Listing::list(&drive(), &Err(ReadFailure::PermissionDenied)),
        Err(NavError::PermissionDenied)
    );
    assert_eq!(Listing::list(&drive(), &Err(ReadFailure::Other)), Err(NavError::Io));
}

#[test]
fn a_cloned_listing_holds_the_same_entries() {
    let read = vec![child("a", Some(EntryKind::File)), child("b", Some(EntryKind::Directory))];
    let listing = Listing::classify(&drive(), &read);
    let copy = listing.clone();
    assert_eq!(copy, listing);
    assert_eq!(entries(&copy), entries(&listing));
}

#[test]
fn a_cloned_entry_is_equal_to_its_source() {
    let e = Entry { name: "report.txt".to_string(), kind: EntryKind::File, selected: true };
    assert_eq!(e.clone(), e);
}
