use blaze::cache::EntriesCache;
use blaze::error::NavError;
use blaze::known::{locate, KnownLocation, Resolution};
use blaze::listing::{Entry, EntryKind, Listing, RawChild, ReadFailure};
use blaze::navigation::{start_candidate, NavigationController};
use blaze::path::Path;
use blaze::volume::list_volumes;

type Read = Result<Vec<RawChild>, ReadFailure>;

fn child(name: &str, kind: EntryKind) -> RawChild {
    RawChild { name: Some(name.to_string()), kind: Some(kind) }
}

/// A small tree that stands for the host.
fn host(location: &str) -> Read {
    match location {
        "C:\\" => Ok(vec![
            child("Users", EntryKind::Directory),
            child("report.txt", EntryKind::File),
            child("empty", EntryKind::Directory),
            child("vault", EntryKind::Directory),
        ]),
        "C:\\Users" => Ok(vec![child("alice", EntryKind::Directory)]),
        "C:\\Users\\alice" => Ok(vec![
            child("Downloads", EntryKind::Directory),
            child("notes.md", EntryKind::File),
        ]),
        "C:\\Users\\alice\\Downloads" => Ok(vec![child("setup.exe", EntryKind::File)]),
        "C:\\empty" => Ok(Vec::new()),
        "C:\\vault" => Err(ReadFailure::PermissionDenied),
        "C:\\report.txt" => Err(ReadFailure::NotADirectory),
        "D:\\" => Ok(vec![child("media", EntryKind::Directory)]),
        "E:\\" => Err(ReadFailure::Other),
        _ => Err(ReadFailure::NotFound),
    }
}

fn at(location: &str) -> NavigationController {
    let path = Path::parse(location).unwrap();
    NavigationController::start(path, &host(location)).unwrap()
}

fn go(nav: &mut NavigationController, target: Result<Path, NavError>) -> Result<(), NavError> {
    let target = target?;
    let read = host(&target.to_text());
    nav.arrive(target, &read)
}

fn found(text: &str) -> Resolution {
    Resolution::Found(text.to_string())
}

fn shows_the_host(nav: &NavigationController) -> bool {
    let here = nav.current_path().to_text();
    Listing::list(nav.current_path(), &host(&here)).as_ref() == Ok(nav.current_listing())
}

#[test]
fn start_shows_the_first_location() {
    let nav = at("C:\\");
    assert_eq!(nav.current_path().to_text(), "C:\\");
    assert_eq!(nav.current_listing().len(), 4);
    assert_eq!(nav.state().current_path(), nav.current_path());
    assert_eq!(nav.state().current_listing(), nav.current_listing());
    assert!(shows_the_host(&nav));
}

#[test]
fn start_fails_where_the_first_location_cannot_be_read() {
    let path = Path::parse("Q:\\").unwrap();
    assert_eq!(NavigationController::start(path, &host("Q:\\")), Err(NavError::NotFound));
    let path = Path::parse("E:\\").unwrap();
    assert_eq!(NavigationController::start(path, &host("E:\\")), Err(NavError::Io));
}

#[test]
fn reload_leads_to_the_current_location() {
    let mut nav = at("C:\\Users");
    assert_eq!(nav.reload().to_text(), "C:\\Users");
    let target = nav.reload();
    let fresh = Ok(vec![child("alice", EntryKind::Directory), child("bob", EntryKind::Directory)]);
    assert_eq!(nav.arrive(target, &fresh), Ok(()));
    assert_eq!(nav.current_path().to_text(), "C:\\Users");
    assert_eq!(nav.current_listing().len(), 2);
    assert_eq!(nav.current_listing().get(1).unwrap().name, "bob");
}

#[test]
fn descend_moves_path_and_listing_together() {
    let mut nav = at("C:\\");
    let target = nav.descend("Users");
    assert_eq!(go(&mut nav, target), Ok(()));
    assert_eq!(nav.current_path().to_text(), "C:\\Users");
    assert_eq!(
        nav.current_listing().get(0),
        Some(&Entry { name: "alice".to_string(), kind: EntryKind::Directory, selected: false })
    );
    assert_eq!(nav.current_listing().len(), 1);
    assert!(shows_the_host(&nav));
}

#[test]
fn descend_into_an_empty_directory_shows_nothing() {
    let mut nav = at("C:\\");
    let target = nav.descend("empty");
    assert_eq!(go(&mut nav, target), Ok(()));
    assert_eq!(nav.current_path().to_text(), "C:\\empty");
    assert!(nav.current_listing().is_empty());
}

#[test]
fn descend_on_a_file_fails_with_not_a_directory_and_changes_nothing() {
    let mut nav = at("C:\\");
    let listing = nav.current_listing().clone();
    let target = nav.descend("report.txt");
    assert_eq!(go(&mut nav, target), Err(NavError::NotADirectory));
    assert_eq!(nav.current_path().to_text(), "C:\\");
    assert_eq!(nav.current_listing(), &listing);
}

#[test]
fn descend_on_a_missing_name_fails_with_not_found_and_changes_nothing() {
    let mut nav = at("C:\\Users");
    let listing = nav.current_listing().clone();
    let target = nav.descend("nobody");
    assert_eq!(go(&mut nav, target), Err(NavError::NotFound));
    assert_eq!(nav.current_path().to_text(), "C:\\Users");
    assert_eq!(nav.current_listing(), &listing);
}

#[test]
fn descend_where_the_host_refuses_fails_with_permission_denied() {
    let mut nav = at("C:\\");
    let listing = nav.current_listing().clone();
    let target = nav.descend("vault");
    assert_eq!(go(&mut nav, target), Err(NavError::PermissionDenied));
    assert_eq!(nav.current_path().to_text(), "C:\\");
    assert_eq!(nav.current_listing(), &listing);
}

#[test]
fn descend_by_a_name_with_a_separator_is_turned_away() {
    let nav = at("C:\\");
    assert_eq!(nav.descend("Users\\alice"), Err(NavError::InvalidName));
    assert_eq!(nav.descend(".."), Err(NavError::InvalidName));
    assert_eq!(nav.descend(""), Err(NavError::InvalidName));
    assert_eq!(nav.current_path().to_text(), "C:\\");
}

#[test]
fn below_the_posix_root_one_can_descend_by_a_name_with_a_backslash() {
    let root = Path::parse("/").unwrap();
    let read = Ok(vec![child("a\\b", EntryKind::Directory), child("etc", EntryKind::Directory)]);
    let mut nav = NavigationController::start(root, &read).unwrap();
    assert_eq!(nav.current_listing().len(), 2);
    let name = nav.current_listing().get(0).unwrap().name.clone();
    let target = nav.descend(&name).unwrap();
    assert_eq!(target.to_text(), "/a\\b");
    assert_eq!(nav.arrive(target, &Ok(Vec::new())), Ok(()));
    assert_eq!(nav.current_path().to_text(), "/a\\b");
    assert_eq!(nav.ascend().unwrap().to_text(), "/");
}

#[test]
fn one_can_descend_by_the_name_of_every_entry_shown() {
    for start in ["C:\\", "C:\\Users", "C:\\Users\\alice", "D:\\"] {
        let nav = at(start);
        let listing = nav.current_listing();
        for index in 0..listing.len() {
            let entry = listing.get(index).unwrap();
            assert!(nav.descend(&entry.name).is_ok());
            assert!(nav.current_path().admits(&entry.name));
        }
    }
}

#[test]
fn ascend_goes_to_the_parent() {
    let mut nav = at("C:\\Users\\alice");
    let target = nav.ascend();
    assert_eq!(go(&mut nav, target), Ok(()));
    assert_eq!(nav.current_path().to_text(), "C:\\Users");
    assert!(shows_the_host(&nav));
    let target = nav.ascend();
    assert_eq!(go(&mut nav, target), Ok(()));
    assert_eq!(nav.current_path().to_text(), "C:\\");
    assert!(shows_the_host(&nav));
}

#[test]
fn ascend_at_a_volume_root_fails_with_at_root_and_changes_nothing() {
    let mut nav = at("C:\\");
    let listing = nav.current_listing().clone();
    let target = nav.ascend();
    assert_eq!(target, Err(NavError::AtRoot));
    assert_eq!(go(&mut nav, target), Err(NavError::AtRoot));
    assert_eq!(nav.current_path().to_text(), "C:\\");
    assert_eq!(nav.current_listing(), &listing);
}

#[test]
fn descend_then_ascend_returns_to_the_same_state() {
    let mut nav = at("C:\\Users");
    let listing = nav.current_listing().clone();
    let target = nav.descend("alice");
    assert_eq!(go(&mut nav, target), Ok(()));
    let target = nav.ascend();
    assert_eq!(go(&mut nav, target), Ok(()));
    assert_eq!(nav.current_path(), &Path::parse("C:\\Users").unwrap());
    assert_eq!(nav.current_listing(), &listing);
}

#[test]
fn ascend_after_a_jump_goes_to_the_parent_by_syntax() {
    let mut nav = at("D:\\");
    let target = nav.jump_to_resolved(&found("C:\\Users\\alice\\Downloads"));
    assert_eq!(go(&mut nav, target), Ok(()));
    assert_eq!(nav.current_path().to_text(), "C:\\Users\\alice\\Downloads");
    let target = nav.ascend();
    assert_eq!(go(&mut nav, target), Ok(()));
    assert_eq!(nav.current_path().to_text(), "C:\\Users\\alice");
}

#[test]
fn the_listing_matches_the_host_after_every_operation() {
    let mut nav = at("C:\\");
    assert!(shows_the_host(&nav));
    let steps: Vec<(&str, bool)> = vec![
        ("Users", true),
        ("alice", true),
        ("notes.md", false),
        ("Downloads", true),
        ("missing", false),
    ];
    for (name, moves) in steps {
        let target = nav.descend(name);
        assert_eq!(go(&mut nav, target).is_ok(), moves);
        assert!(shows_the_host(&nav));
    }
    for _ in 0..5 {
        let target = nav.ascend();
        let _ = go(&mut nav, target);
        assert!(shows_the_host(&nav));
    }
    let target = nav.jump_to_volume("D:\\");
    assert_eq!(go(&mut nav, target), Ok(()));
    assert!(shows_the_host(&nav));
    let target = nav.jump_to_volume("E:\\");
    assert_eq!(go(&mut nav, target), Err(NavError::Io));
    assert!(shows_the_host(&nav));
    assert_eq!(nav.current_path().to_text(), "D:\\");
}

#[test]
fn jump_to_volume_leads_to_the_volume_s_root() {
    let mut nav = at("C:\\Users\\alice");
    let target = nav.jump_to_volume("D:\\");
    assert_eq!(go(&mut nav, target), Ok(()));
    assert_eq!(nav.current_path().to_text(), "D:\\");
    assert!(nav.current_path().is_root());
    assert_eq!(nav.current_listing().get(0).unwrap().name, "media");
}

#[test]
fn jump_to_volume_turns_away_what_is_no_root() {
    let nav = at("C:\\");
    assert_eq!(nav.jump_to_volume("D:"), Err(NavError::InvalidPath));
    assert_eq!(nav.jump_to_volume("D:\\media"), Err(NavError::InvalidPath));
    assert_eq!(nav.jump_to_volume(""), Err(NavError::InvalidPath));
}

#[test]
fn jump_to_a_missing_volume_changes_nothing() {
    let mut nav = at("C:\\Users");
    let listing = nav.current_listing().clone();
    let target = nav.jump_to_volume("Q:\\");
    assert_eq!(go(&mut nav, target), Err(NavError::NotFound));
    assert_eq!(nav.current_path().to_text(), "C:\\Users");
    assert_eq!(nav.current_listing(), &listing);
}

#[test]
fn an_unavailable_known_location_changes_nothing() {
    let mut nav = at("C:\\Users");
    let listing = nav.current_listing().clone();
    assert_eq!(locate(&Resolution::Missing), Err(NavError::Unavailable));
    let target = nav.jump_to_resolved(&Resolution::Missing);
    assert_eq!(target, Err(NavError::Unavailable));
    assert_eq!(go(&mut nav, target), Err(NavError::Unavailable));
    assert_eq!(nav.current_path().to_text(), "C:\\Users");
    assert_eq!(nav.current_listing(), &listing);
}

#[test]
fn a_known_location_leads_to_the_path_that_the_host_names() {
    assert_eq!(locate(&found("/home/alice/Downloads")), Path::parse("/home/alice/Downloads"));
    assert_eq!(
        locate(&found("C:\\Users\\alice\\Music")).unwrap().to_text(),
        "C:\\Users\\alice\\Music"
    );
}

#[test]
fn a_jump_to_a_resolved_location_moves_path_and_listing_together() {
    let mut nav = at("D:\\");
    let target = nav.jump_to_resolved(&found("C:\\Users\\alice"));
    assert_eq!(go(&mut nav, target), Ok(()));
    assert_eq!(nav.current_path().to_text(), "C:\\Users\\alice");
    assert_eq!(nav.current_listing().len(), 2);
    assert!(shows_the_host(&nav));
    let target = nav.jump_to_resolved(&found("C:\\Users\\carol"));
    assert_eq!(go(&mut nav, target), Err(NavError::NotFound));
    assert_eq!(nav.current_path().to_text(), "C:\\Users\\alice");
    assert_eq!(nav.jump_to_resolved(&found("alice")), Err(NavError::InvalidPath));
}

#[test]
fn a_known_location_that_is_no_absolute_path_is_turned_away() {
    assert_eq!(locate(&found("Downloads")), Err(NavError::InvalidPath));
    assert_eq!(locate(&found("~/Downloads")), Err(NavError::InvalidPath));
    assert_eq!(locate(&found("/home/alice/")), Err(NavError::InvalidPath));
    assert_eq!(locate(&found("")), Err(NavError::InvalidPath));
}

#[test]
fn a_known_location_whose_path_is_no_text_is_turned_away_and_changes_nothing() {
    let mut nav = at("C:\\Users");
    let listing = nav.current_listing().clone();
    assert_eq!(locate(&Resolution::NotText), Err(NavError::InvalidPath));
    let target = nav.jump_to_resolved(&Resolution::NotText);
    assert_eq!(go(&mut nav, target), Err(NavError::InvalidPath));
    assert_eq!(nav.current_path().to_text(), "C:\\Users");
    assert_eq!(nav.current_listing(), &listing);
}

#[test]
fn the_answer_alone_decides_where_a_known_location_lies() {
    let all = [
        KnownLocation::Downloads,
        KnownLocation::Documents,
        KnownLocation::Pictures,
        KnownLocation::Music,
        KnownLocation::Videos,
        KnownLocation::Desktop,
    ];
    let nav = at("C:\\");
    for (i, location) in all.iter().enumerate() {
        for other in &all[i + 1..] {
            assert_ne!(location, other);
        }
        let answer = found(&format!("C:\\Users\\alice\\{:?}", location));
        let target = nav.jump_to_resolved(&answer).unwrap();
        assert_eq!(target.to_text(), format!("C:\\Users\\alice\\{:?}", location));
    }
}

#[test]
fn the_browser_tries_the_volumes_in_order_and_then_the_posix_root() {
    let volumes = vec!["C:\\".to_string(), "D:\\".to_string()];
    assert_eq!(start_candidate(&volumes, 0).unwrap().to_text(), "C:\\");
    assert_eq!(start_candidate(&volumes, 1).unwrap().to_text(), "D:\\");
    assert_eq!(start_candidate(&volumes, 2).unwrap().to_text(), "/");
    assert_eq!(start_candidate(&volumes, 3), None);
    assert_eq!(start_candidate(&volumes, usize::MAX), None);
    assert!(start_candidate(&volumes, 1).unwrap().is_root());
}

#[test]
fn without_volumes_the_browser_tries_the_posix_root_alone() {
    let volumes = Vec::new();
    assert_eq!(start_candidate(&volumes, 0).unwrap().to_text(), "/");
    assert_eq!(start_candidate(&volumes, 1), None);
}

#[test]
fn a_volume_that_names_no_root_is_passed_over_at_the_start() {
    let volumes = vec!["C:".to_string(), "D:\\data".to_string(), "E:\\".to_string()];
    assert_eq!(start_candidate(&volumes, 0), None);
    assert_eq!(start_candidate(&volumes, 1), None);
    assert_eq!(start_candidate(&volumes, 2).unwrap().to_text(), "E:\\");
    assert_eq!(start_candidate(&volumes, 3).unwrap().to_text(), "/");
}

#[test]
fn the_first_candidate_that_can_be_read_is_where_the_browser_starts() {
    let volumes = vec!["Q:\\".to_string(), "E:\\".to_string(), "D:\\".to_string()];
    let mut started = None;
    for tried in 0..=volumes.len() {
        if let Some(root) = start_candidate(&volumes, tried) {
            let read = host(&root.to_text());
            if let Ok(nav) = NavigationController::start(root, &read) {
                started = Some(nav);
                break;
            }
        }
    }
    assert_eq!(started.unwrap().current_path().to_text(), "D:\\");
}

#[test]
fn every_listed_volume_is_a_root_to_jump_to() {
    let nav = at("C:\\");
    let volumes = list_volumes();
    assert!(volumes.len() <= 26);
    for (i, volume) in volumes.iter().enumerate() {
        let root = nav.jump_to_volume(volume).expect("a volume names a root");
        assert!(root.is_root());
        assert_eq!(&root.to_text(), volume);
        assert_eq!(volume.chars().count(), 3);
        assert!(volume.ends_with(":\\"));
        for later in &volumes[i + 1..] {
            assert!(volume < later);
        }
    }
}

#[test]
fn open_file_gives_the_full_path_of_the_entry() {
    let file = Entry { name: "report.txt".to_string(), kind: EntryKind::File, selected: false };
    assert_eq!(at("C:\\").open_file(&file), Ok("C:\\report.txt".to_string()));
    let file = Entry { name: "notes.md".to_string(), kind: EntryKind::File, selected: true };
    assert_eq!(at("C:\\Users\\alice").open_file(&file), Ok("C:\\Users\\alice\\notes.md".to_string()));
}

#[test]
fn open_file_turns_away_a_name_that_is_no_segment() {
    let file = Entry { name: "..".to_string(), kind: EntryKind::File, selected: false };
    let nav = at("C:\\Users");
    assert_eq!(nav.open_file(&file), Err(NavError::InvalidName));
    assert_eq!(nav.current_path().to_text(), "C:\\Users");
}

#[test]
fn a_failed_launch_is_reported_and_changes_nothing() {
    let nav = at("C:\\Users");
    let listing = nav.current_listing().clone();
    assert_eq!(nav.launched(true), Ok(()));
    assert_eq!(nav.launched(false), Err(NavError::LaunchFailed));
    assert_eq!(nav.current_path().to_text(), "C:\\Users");
    assert_eq!(nav.current_listing(), &listing);
}

#[test]
fn a_fresh_cache_is_empty_and_marked() {
    let fresh = EntriesCache::default();
    assert!(fresh.cache.is_empty());
    assert_eq!(fresh.generated_by, "Blaze v0.1");
}
