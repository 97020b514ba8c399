//! What a directory shows: its children, each classified as a file or a
//! directory, in the order in which the host reported them.
//!
//! Reading a directory is the caller's work. The caller hands over the
//! location, what the host said of each child there, or why the read failed,
//! and gets a listing or a typed failure back. A child whose kind the host could not tell, whose name
//! is not text, or whose name could not stand as a path segment is left out;
//! it never fails the listing as a whole.

use crate::error::NavError;
use crate::path::{valid_name, Path};
use vstd::prelude::*;

verus! {

/// What a child is, as far as navigation cares.
#[derive(Clone, Copy, Debug, PartialEq, Eq, Structural)]
pub enum EntryKind {
    File,
    Directory,
}

/// One child of a listed location.
#[derive(Debug, PartialEq, Eq)]
pub struct Entry {
    /// The last segment of the child's path.
    pub name: String,
    pub kind: EntryKind,
    /// A mark of the presentation layer; navigation never reads it.
    pub selected: bool,
}

/// An entry by its content.
pub struct EntryView {
    pub name: Seq<char>,
    pub kind: EntryKind,
    pub selected: bool,
}

impl View for Entry {
    type V = EntryView;

    open spec fn view(&self) -> EntryView {
        EntryView { name: self.name@, kind: self.kind, selected: self.selected }
    }
}

impl Clone for Entry {
    fn clone(&self) -> (copy: Self)
        ensures
            copy@ == self@,
    {
        Entry { name: self.name.clone(), kind: self.kind, selected: self.selected }
    }
}

/// What the host reported of one child: its name, where the name is text,
/// and its kind, where the host could tell it.
#[derive(Debug, PartialEq, Eq)]
pub struct RawChild {
    pub name: Option<String>,
    pub kind: Option<EntryKind>,
}

/// A reported child by its content.
pub struct RawChildView {
    pub name: Option<Seq<char>>,
    pub kind: Option<EntryKind>,
}

impl View for RawChild {
    type V = RawChildView;

    open spec fn view(&self) -> RawChildView {
        RawChildView {
            name: match self.name {
                Some(name) => Some(name@),
                None => None,
            },
            kind: self.kind,
        }
    }
}

/// Why the host could not enumerate a location.
#[derive(Clone, Copy, Debug, PartialEq, Eq, Structural)]
pub enum ReadFailure {
    NotFound,
    NotADirectory,
    PermissionDenied,
    /// Any other failure of the platform.
    Other,
}

/// The failure that navigation reports for a failed read.
pub open spec fn error_of(failure: ReadFailure) -> NavError {
    match failure {
        ReadFailure::NotFound => NavError::NotFound,
        ReadFailure::NotADirectory => NavError::NotADirectory,
        ReadFailure::PermissionDenied => NavError::PermissionDenied,
        ReadFailure::Other => NavError::Io,
    }
}

/// The reported children of a sequence, each by its content.
pub open spec fn reports_of(children: Seq<RawChild>) -> Seq<RawChildView> {
    Seq::new(children.len(), |i: int| children[i]@)
}

/// The entries of a sequence, each by its content.
pub open spec fn entries_of(entries: Seq<Entry>) -> Seq<EntryView> {
    Seq::new(entries.len(), |i: int| entries[i]@)
}

/// A reported child appears in the listing when its kind is known and its
/// name is text that can stand as a segment below a root whose separator is
/// `sep`.
pub open spec fn shown(child: RawChildView, sep: char) -> bool {
    child.kind is Some && child.name is Some && valid_name(child.name->0, sep)
}

/// The entry that a shown child becomes: never selected.
pub open spec fn entry_of(child: RawChildView) -> EntryView
    recommends
        child.kind is Some,
        child.name is Some,
{
    EntryView { name: child.name->0, kind: child.kind->0, selected: false }
}

/// The listing of the children reported below a root whose separator is
/// `sep`: the shown ones, as entries, in the order of the report.
pub open spec fn listed(children: Seq<RawChildView>, sep: char) -> Seq<EntryView>
    decreases children.len(),
{
    if children.len() == 0 {
        Seq::empty()
    } else if shown(children.last(), sep) {
        listed(children.drop_last(), sep).push(entry_of(children.last()))
    } else {
        listed(children.drop_last(), sep)
    }
}

/// How many of the reported children the listing leaves out.
pub open spec fn omitted(children: Seq<RawChildView>, sep: char) -> nat {
    (children.len() - listed(children, sep).len()) as nat
}

/// What listing gives for the outcome of a read below a root whose
/// separator is `sep`.
pub open spec fn list_spec(read: Result<Seq<RawChildView>, ReadFailure>, sep: char) -> Result<
    Seq<EntryView>,
    NavError,
> {
    match read {
        Ok(children) => Ok(listed(children, sep)),
        Err(failure) => Err(error_of(failure)),
    }
}

/// A listing never holds more entries than children were reported.
pub proof fn lemma_listed_len(children: Seq<RawChildView>, sep: char)
    ensures
        listed(children, sep).len() <= children.len(),
    decreases children.len(),
{
    if children.len() > 0 {
        lemma_listed_len(children.drop_last(), sep);
    }
}

/// Every entry of a listing stands for a shown child of the report, and so
/// has a name by which one can descend; none is selected.
pub proof fn lemma_listed_entries(children: Seq<RawChildView>, sep: char, i: int)
    requires
        0 <= i < listed(children, sep).len(),
    ensures
        valid_name(listed(children, sep)[i].name, sep),
        !listed(children, sep)[i].selected,
        exists|j: int|
            0 <= j < children.len() && shown(children[j], sep) && listed(children, sep)[i]
                == entry_of(#[trigger] children[j]),
    decreases children.len(),
{
    let before = children.drop_last();
    if shown(children.last(), sep) && i == listed(before, sep).len() {
        assert(listed(children, sep)[i] == entry_of(children[children.len() - 1]));
    } else {
        lemma_listed_entries(before, sep, i);
        let j = choose|j: int|
            0 <= j < before.len() && shown(before[j], sep) && listed(before, sep)[i]
                == entry_of(#[trigger] before[j]);
        assert(before[j] == children[j]);
    }
}

/// Listing keeps the order of the report: the listing of two reports, one
/// after the other, is the listing of the first followed by that of the
/// second.
pub proof fn lemma_listed_concat(
    first: Seq<RawChildView>,
    second: Seq<RawChildView>,
    sep: char,
)
    ensures
        listed(first + second, sep) == listed(first, sep) + listed(second, sep),
    decreases second.len(),
{
    if second.len() == 0 {
        assert(first + second =~= first);
        assert(listed(first, sep) + listed(second, sep) =~= listed(first, sep));
    } else {
        lemma_listed_concat(first, second.drop_last(), sep);
        assert((first + second).drop_last() =~= first + second.drop_last());
        assert((first + second).last() == second.last());
        if shown(second.last(), sep) {
            assert((listed(first, sep) + listed(second.drop_last(), sep)).push(
                entry_of(second.last()),
            ) =~= listed(first, sep) + listed(second, sep));
        }
    }
}

/// Where every reported child is shown, the listing has one entry for each,
/// at the same place.
pub proof fn lemma_listed_all_shown(children: Seq<RawChildView>, sep: char)
    requires
        forall|i: int| 0 <= i < children.len() ==> shown(#[trigger] children[i], sep),
    ensures
        listed(children, sep).len() == children.len(),
        forall|i: int|
            0 <= i < children.len() ==> #[trigger] listed(children, sep)[i] == entry_of(
                children[i],
            ),
    decreases children.len(),
{
    if children.len() > 0 {
        let before = children.drop_last();
        assert forall|i: int| 0 <= i < before.len() implies shown(#[trigger] before[i], sep) by {
            assert(before[i] == children[i]);
        }
        lemma_listed_all_shown(before, sep);
        assert(shown(children[children.len() - 1], sep));
        assert forall|i: int| 0 <= i < children.len() implies #[trigger] listed(children, sep)[i]
            == entry_of(children[i]) by {
            if i < before.len() {
                assert(listed(children, sep)[i] == listed(before, sep)[i]);
                assert(before[i] == children[i]);
            }
        }
    }
}

/// An ordered sequence of entries, produced for one location at one time.
#[derive(Debug, PartialEq, Eq)]
pub struct Listing {
    entries: Vec<Entry>,
}

impl View for Listing {
    type V = Seq<EntryView>;

    closed spec fn view(&self) -> Seq<EntryView> {
        entries_of(self.entries@)
    }
}

impl Clone for Listing {
    fn clone(&self) -> (copy: Self)
        ensures
            copy@ == self@,
    {
        let mut entries: Vec<Entry> = Vec::new();
        let n = self.entries.len();
        let mut i: usize = 0;
        while i < n
            invariant
                i <= n == self.entries.len(),
                entries_of(entries@) == entries_of(self.entries@).take(i as int),
            decreases n - i,
        {
            let ghost before = entries@;
            entries.push(self.entries[i].clone());
            assert(entries_of(entries@) =~= entries_of(before).push(self.entries@[i as int]@));
            assert(entries_of(self.entries@).take(i + 1) =~= entries_of(self.entries@).take(
                i as int,
            ).push(self.entries@[i as int]@));
            i += 1;
        }
        assert(entries_of(self.entries@).take(n as int) =~= entries_of(self.entries@));
        Listing { entries }
    }
}

impl Listing {
    /// The listing of the children that the host reported at `location`.
    pub fn classify(location: &Path, children: &Vec<RawChild>) -> (listing: Listing)
        ensures
            listing@ == listed(reports_of(children@), location@.separator()),
    {
        let ghost reports = reports_of(children@);
        let ghost sep = location@.separator();
        let mut entries: Vec<Entry> = Vec::new();
        let n = children.len();
        let mut i: usize = 0;
        while i < n
            invariant
                i <= n == children.len(),
                reports == reports_of(children@),
                sep == location@.separator(),
                entries_of(entries@) == listed(reports.take(i as int), sep),
            decreases n - i,
        {
            let child = &children[i];
            let ghost before = entries@;
            proof {
                assert(reports.take(i + 1).drop_last() =~= reports.take(i as int));
                assert(reports.take(i + 1).last() == child@);
            }
            match (&child.name, child.kind) {
                (Some(name), Some(kind)) => {
                    if location.admits(name.as_str()) {
                        entries.push(Entry { name: name.clone(), kind, selected: false });
                        assert(entries_of(entries@) =~= entries_of(before).push(entry_of(child@)));
                    }
                },
                _ => {},
            }
            i += 1;
        }
        assert(reports.take(n as int) =~= reports);
        Listing { entries }
    }

    /// The listing of `location` for the outcome of reading it: the
    /// classified children, or the failure that stands for the host's.
    pub fn list(location: &Path, read: &Result<Vec<RawChild>, ReadFailure>) -> (result: Result<
        Listing,
        NavError,
    >)
        ensures
            match (read, result) {
                (Ok(children), Ok(listing)) => listing@ == listed(
                    reports_of(children@),
                    location@.separator(),
                ),
                (Err(failure), Err(e)) => e == error_of(*failure),
                _ => false,
            },
    {
        match read {
            Ok(children) => Ok(Listing::classify(location, children)),
            Err(failure) => Err(
                match failure {
                    ReadFailure::NotFound => NavError::NotFound,
                    ReadFailure::NotADirectory => NavError::NotADirectory,
                    ReadFailure::PermissionDenied => NavError::PermissionDenied,
                    ReadFailure::Other => NavError::Io,
                },
            ),
        }
    }

    /// How many of the children reported at `location` its listing leaves
    /// out, for the caller that wants to warn of them.
    pub fn count_omitted(location: &Path, children: &Vec<RawChild>) -> (count: usize)
        ensures
            count == omitted(reports_of(children@), location@.separator()),
    {
        let listing = Listing::classify(location, children);
        proof {
            lemma_listed_len(reports_of(children@), location@.separator());
        }
        children.len() - listing.entries.len()
    }

    /// The number of entries.
    pub fn len(&self) -> (n: usize)
        ensures
            n == self@.len(),
    {
        self.entries.len()
    }

    /// Whether the location showed no entry.
    pub fn is_empty(&self) -> (empty: bool)
        ensures
            empty == (self@.len() == 0),
    {
        self.entries.len() == 0
    }

    /// The entry at `index`, where there is one.
    pub fn get(&self, index: usize) -> (entry: Option<&Entry>)
        ensures
            match entry {
                Some(e) => index < self@.len() && e@ == self@[index as int],
                None => index >= self@.len(),
            },
    {
        if index < self.entries.len() {
            Some(&self.entries[index])
        } else {
            None
        }
    }
}

} // verus!
