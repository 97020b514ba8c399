//! The navigation state and the operations that move it.
//!
//! The controller owns the pair of current location and current listing. An
//! operation runs in two steps. First the controller says where the operation
//! leads: `reload`, `descend`, `ascend`, `jump_to_resolved` and
//! `jump_to_volume` each give the location to read, or the reason why there
//! is none. A jump to a known location takes the host's answer to where that
//! location lies, which the caller has asked for. Then the
//! caller reads that location and hands the outcome to `arrive`, which moves
//! location and listing together, or leaves both as they were. Nothing else
//! changes the state, so the two never drift apart.
//!
//! `step` states a whole operation at once, on a host that answers every
//! read, and the laws below it say what holds of every operation.
//!
//! Opening a file runs the same way: `open_file` gives the text to hand to
//! the host's launcher, and `launched` takes in whether the launcher
//! started.

use crate::error::NavError;
use crate::known::{locate, located, Resolution, ResolutionView};
use crate::listing::{
    error_of, lemma_listed_entries, listed, list_spec, reports_of, Entry, EntryKind, EntryView,
    Listing, RawChild, RawChildView, ReadFailure,
};
use crate::path::{
    lemma_descend_then_ascend, valid_name, valid_root, Path, PathView,
};
use vstd::prelude::*;

verus! {

/// The state by its content: where the browser stands and what it shows.
pub struct StateView {
    pub path: PathView,
    pub listing: Seq<EntryView>,
}

impl StateView {
    /// The location is a well-formed path, and one can descend from it by
    /// the name of each entry shown.
    pub open spec fn wf(self) -> bool {
        &&& self.path.wf()
        &&& forall|i: int|
            0 <= i < self.listing.len() ==> valid_name(
                (#[trigger] self.listing[i]).name,
                self.path.separator(),
            )
    }
}

/// The outcome of a read by its content.
pub open spec fn read_view(read: Result<Vec<RawChild>, ReadFailure>) -> Result<
    Seq<RawChildView>,
    ReadFailure,
> {
    match read {
        Ok(children) => Ok(reports_of(children@)),
        Err(failure) => Err(failure),
    }
}

/// The state after the outcome of reading `target` has come in: at `target`
/// with its listing where the read succeeded, unchanged where it failed.
pub open spec fn arrival(
    state: StateView,
    target: PathView,
    read: Result<Seq<RawChildView>, ReadFailure>,
) -> StateView {
    match read {
        Ok(children) => StateView { path: target, listing: listed(children, target.separator()) },
        Err(_) => state,
    }
}

/// What `arrive` reports for the outcome of a read.
pub open spec fn arrival_report(read: Result<Seq<RawChildView>, ReadFailure>) -> Result<
    (),
    NavError,
> {
    match read {
        Ok(_) => Ok(()),
        Err(failure) => Err(error_of(failure)),
    }
}

/// What the user can ask of the browser. A jump to a known location carries
/// the host's answer to where that location lies.
pub enum Operation {
    Reload,
    Descend(Seq<char>),
    Ascend,
    JumpToKnown(ResolutionView),
    JumpToVolume(Seq<char>),
}

/// Where an operation leads from a state, or why it leads nowhere.
pub open spec fn target_of(state: StateView, operation: Operation) -> Result<PathView, NavError> {
    match operation {
        Operation::Reload => Ok(state.path),
        Operation::Descend(name) => if valid_name(name, state.path.separator()) {
            Ok(state.path.child(name))
        } else {
            Err(NavError::InvalidName)
        },
        Operation::Ascend => if state.path.is_root() {
            Err(NavError::AtRoot)
        } else {
            Ok(state.path.parent())
        },
        Operation::JumpToKnown(answer) => located(answer),
        Operation::JumpToVolume(volume) => if valid_root(volume) {
            Ok(PathView { root: volume, segments: Seq::empty() })
        } else {
            Err(NavError::InvalidPath)
        },
    }
}

/// The target that an operation computed, by its content.
pub open spec fn target_view(result: Result<Path, NavError>) -> Result<PathView, NavError> {
    match result {
        Ok(path) => Ok(path@),
        Err(e) => Err(e),
    }
}

/// A whole operation on a host that answers each read as `host` says: the
/// state that it leaves, and what it reports.
pub open spec fn step(
    state: StateView,
    operation: Operation,
    host: spec_fn(PathView) -> Result<Seq<RawChildView>, ReadFailure>,
) -> (StateView, Result<(), NavError>) {
    match target_of(state, operation) {
        Ok(target) => (arrival(state, target, host(target)), arrival_report(host(target))),
        Err(e) => (state, Err(e)),
    }
}

/// The state shows what listing its location gives on a host that answers
/// each read as `host` says.
pub open spec fn consistent(
    state: StateView,
    host: spec_fn(PathView) -> Result<Seq<RawChildView>, ReadFailure>,
) -> bool {
    list_spec(host(state.path), state.path.separator()) == Ok::<Seq<EntryView>, NavError>(
        state.listing,
    )
}

/// An arrival at a well-formed path leaves a well-formed state.
pub proof fn lemma_arrival_is_well_formed(
    state: StateView,
    target: PathView,
    read: Result<Seq<RawChildView>, ReadFailure>,
)
    requires
        state.wf(),
        target.wf(),
    ensures
        arrival(state, target, read).wf(),
{
    match read {
        Ok(children) => {
            let next = arrival(state, target, read);
            assert forall|i: int| 0 <= i < next.listing.len() implies valid_name(
                (#[trigger] next.listing[i]).name,
                next.path.separator(),
            ) by {
                lemma_listed_entries(children, target.separator(), i);
            }
        },
        Err(_) => {},
    }
}

/// An operation either succeeds, and then the browser stands where the
/// operation leads and shows what the host has there, or fails, and then
/// the state is as it was.
pub proof fn lemma_step_is_atomic(
    state: StateView,
    operation: Operation,
    host: spec_fn(PathView) -> Result<Seq<RawChildView>, ReadFailure>,
)
    ensures
        ({
            let (next, report) = step(state, operation, host);
            match report {
                Ok(_) => {
                    &&& target_of(state, operation) == Ok::<PathView, NavError>(next.path)
                    &&& consistent(next, host)
                },
                Err(_) => next == state,
            }
        }),
{
}

/// A state that shows what the host has keeps doing so after every
/// operation, whether the operation succeeds or fails.
pub proof fn lemma_step_keeps_consistency(
    state: StateView,
    operation: Operation,
    host: spec_fn(PathView) -> Result<Seq<RawChildView>, ReadFailure>,
)
    requires
        consistent(state, host),
    ensures
        consistent(step(state, operation, host).0, host),
{
}

/// Ascending at a volume root reports that there is no parent and changes
/// nothing.
pub proof fn lemma_ascend_at_root(
    state: StateView,
    host: spec_fn(PathView) -> Result<Seq<RawChildView>, ReadFailure>,
)
    requires
        state.path.is_root(),
    ensures
        step(state, Operation::Ascend, host) == (state, Err::<(), NavError>(NavError::AtRoot)),
{
}

/// Descending through a name under which the host has no directory but
/// something else reports so and changes nothing.
pub proof fn lemma_descend_on_a_file(
    state: StateView,
    name: Seq<char>,
    host: spec_fn(PathView) -> Result<Seq<RawChildView>, ReadFailure>,
)
    requires
        valid_name(name, state.path.separator()),
        host(state.path.child(name)) == Err::<Seq<RawChildView>, ReadFailure>(
            ReadFailure::NotADirectory,
        ),
    ensures
        step(state, Operation::Descend(name), host) == (
            state,
            Err::<(), NavError>(NavError::NotADirectory),
        ),
{
}

/// A jump to a known location that the host does not have reports that the
/// location is unavailable and changes nothing.
pub proof fn lemma_jump_to_unavailable(
    state: StateView,
    host: spec_fn(PathView) -> Result<Seq<RawChildView>, ReadFailure>,
)
    ensures
        step(state, Operation::JumpToKnown(ResolutionView::Missing), host) == (
            state,
            Err::<(), NavError>(NavError::Unavailable),
        ),
{
}

/// Descending through a name and ascending again, both with success, leads
/// back to the location where one stood; and to the very state, where that
/// state showed what the host has.
pub proof fn lemma_descend_then_ascend_returns(
    state: StateView,
    name: Seq<char>,
    host: spec_fn(PathView) -> Result<Seq<RawChildView>, ReadFailure>,
)
    requires
        state.path.wf(),
        step(state, Operation::Descend(name), host).1 is Ok,
        step(step(state, Operation::Descend(name), host).0, Operation::Ascend, host).1 is Ok,
    ensures
        ({
            let down = step(state, Operation::Descend(name), host).0;
            let up = step(down, Operation::Ascend, host).0;
            &&& down.path == state.path.child(name)
            &&& up.path == state.path
            &&& consistent(state, host) ==> up == state
        }),
{
    lemma_descend_then_ascend(state.path, name);
}

/// The pair of current location and current listing.
#[derive(Debug, PartialEq, Eq)]
pub struct NavigationState {
    current_path: Path,
    current_listing: Listing,
}

impl View for NavigationState {
    type V = StateView;

    closed spec fn view(&self) -> StateView {
        StateView { path: self.current_path@, listing: self.current_listing@ }
    }
}

impl NavigationState {
    /// What holds of every state: it stands at a well-formed path, and one
    /// can descend from there by the name of each entry shown.
    #[verifier::type_invariant]
    pub open spec fn well_formed(&self) -> bool {
        self@.wf()
    }

    /// The state at `path`, given the outcome of reading it.
    fn at(path: Path, read: &Result<Vec<RawChild>, ReadFailure>) -> (result: Result<
        NavigationState,
        NavError,
    >)
        ensures
            match *read {
                Ok(children) => result is Ok && result->Ok_0@ == (StateView {
                    path: path@,
                    listing: listed(reports_of(children@), path@.separator()),
                }),
                Err(failure) => result == Err::<NavigationState, NavError>(error_of(failure)),
            },
    {
        match Listing::list(&path, read) {
            Ok(listing) => {
                proof {
                    use_type_invariant(&path);
                    lemma_arrival_is_well_formed(
                        StateView { path: path@, listing: Seq::empty() },
                        path@,
                        read_view(*read),
                    );
                }
                Ok(NavigationState { current_path: path, current_listing: listing })
            },
            Err(e) => Err(e),
        }
    }

    /// Where the browser stands.
    pub fn current_path(&self) -> (path: &Path)
        ensures
            path@ == self@.path,
            self@.wf(),
    {
        proof {
            use_type_invariant(self);
        }
        &self.current_path
    }

    /// What the browser shows there.
    pub fn current_listing(&self) -> (listing: &Listing)
        ensures
            listing@ == self@.listing,
            self@.wf(),
    {
        proof {
            use_type_invariant(self);
        }
        &self.current_listing
    }
}

/// The owner of the navigation state.
#[derive(Debug, PartialEq, Eq)]
pub struct NavigationController {
    state: NavigationState,
}

impl View for NavigationController {
    type V = StateView;

    closed spec fn view(&self) -> StateView {
        self.state@
    }
}

/// The text of the root to try at place `tried` when the browser starts:
/// the volumes in their order, and behind them the root of a POSIX tree.
pub open spec fn candidate_text(volumes: Seq<String>, tried: int) -> Seq<char> {
    if 0 <= tried < volumes.len() {
        volumes[tried]@
    } else {
        seq!['/']
    }
}

/// The root to try at place `tried` when the browser starts. There is none
/// beyond the last place, and none where a volume's text names no root.
pub fn start_candidate(volumes: &Vec<String>, tried: usize) -> (candidate: Option<Path>)
    ensures
        match candidate {
            Some(root) => {
                &&& tried <= volumes@.len()
                &&& valid_root(candidate_text(volumes@, tried as int))
                &&& root@ == (PathView {
                    root: candidate_text(volumes@, tried as int),
                    segments: Seq::empty(),
                })
            },
            None => tried > volumes@.len() || !valid_root(
                candidate_text(volumes@, tried as int),
            ),
        },
{
    let n = volumes.len();
    if tried > n {
        return None;
    }
    proof {
        reveal_strlit("/");
        assert("/"@ =~= seq!['/']);
    }
    let found = if tried < n {
        Path::volume_root(volumes[tried].as_str())
    } else {
        Path::volume_root("/")
    };
    match found {
        Ok(root) => Some(root),
        Err(_) => None,
    }
}

impl NavigationController {
    /// The controller at `path`, given the outcome of reading it. Where the
    /// read failed there is nothing to show and no controller.
    pub fn start(path: Path, read: &Result<Vec<RawChild>, ReadFailure>) -> (result: Result<
        NavigationController,
        NavError,
    >)
        ensures
            match *read {
                Ok(children) => result is Ok && result->Ok_0@ == (StateView {
                    path: path@,
                    listing: listed(reports_of(children@), path@.separator()),
                }),
                Err(failure) => result == Err::<NavigationController, NavError>(
                    error_of(failure),
                ),
            },
    {
        match NavigationState::at(path, read) {
            Ok(state) => Ok(NavigationController { state }),
            Err(e) => Err(e),
        }
    }

    /// The published state.
    pub fn state(&self) -> (state: &NavigationState)
        ensures
            state@ == self@,
            self@.wf(),
    {
        proof {
            use_type_invariant(&self.state);
        }
        &self.state
    }

    /// Where the browser stands.
    pub fn current_path(&self) -> (path: &Path)
        ensures
            path@ == self@.path,
            self@.wf(),
    {
        self.state.current_path()
    }

    /// What the browser shows there. One can descend by the name of each
    /// entry.
    pub fn current_listing(&self) -> (listing: &Listing)
        ensures
            listing@ == self@.listing,
            self@.wf(),
    {
        self.state.current_listing()
    }

    /// Where a reload leads: to the current location.
    pub fn reload(&self) -> (target: Path)
        ensures
            target@ == self@.path,
            target_of(self@, Operation::Reload) == Ok::<PathView, NavError>(target@),
    {
        self.state.current_path.clone()
    }

    /// Where descending through `name` leads: to the child of that name,
    /// unless the name cannot stand as a segment.
    pub fn descend(&self, name: &str) -> (result: Result<Path, NavError>)
        ensures
            match result {
                Ok(target) => valid_name(name@, self@.path.separator()) && target@
                    == self@.path.child(name@),
                Err(e) => !valid_name(name@, self@.path.separator()) && e
                    == NavError::InvalidName,
            },
            target_view(result) == target_of(self@, Operation::Descend(name@)),
    {
        self.state.current_path.descend(name)
    }

    /// Where ascending leads: to the parent, by the shape of the current
    /// path alone. At a volume root there is no parent.
    pub fn ascend(&self) -> (result: Result<Path, NavError>)
        ensures
            match result {
                Ok(target) => !self@.path.is_root() && target@ == self@.path.parent(),
                Err(e) => self@.path.is_root() && e == NavError::AtRoot,
            },
            target_view(result) == target_of(self@, Operation::Ascend),
    {
        self.state.current_path.ascend()
    }

    /// Where a jump to a known location leads, given the host's answer to
    /// where that location lies: to the path that the answer names. A
    /// missing folder means that the location is unavailable.
    pub fn jump_to_resolved(&self, answer: &Resolution) -> (result: Result<Path, NavError>)
        ensures
            target_view(result) == target_of(self@, Operation::JumpToKnown(answer@)),
    {
        locate(answer)
    }

    /// Where a jump to a volume leads: to the bare root that the volume
    /// names.
    pub fn jump_to_volume(&self, volume: &str) -> (result: Result<Path, NavError>)
        ensures
            match result {
                Ok(target) => valid_root(volume@) && target@ == (PathView {
                    root: volume@,
                    segments: Seq::empty(),
                }),
                Err(e) => !valid_root(volume@) && e == NavError::InvalidPath,
            },
            target_view(result) == target_of(self@, Operation::JumpToVolume(volume@)),
    {
        Path::volume_root(volume)
    }

    /// The text of the path of a listed file, for the host's launcher.
    pub fn open_file(&self, entry: &Entry) -> (result: Result<String, NavError>)
        requires
            entry@.kind == EntryKind::File,
        ensures
            match result {
                Ok(text) => valid_name(entry@.name, self@.path.separator()) && text@
                    == self@.path.child(entry@.name).text(),
                Err(e) => !valid_name(entry@.name, self@.path.separator()) && e
                    == NavError::InvalidName,
            },
    {
        match self.state.current_path.descend(entry.name.as_str()) {
            Ok(path) => Ok(path.to_text()),
            Err(e) => Err(e),
        }
    }

    /// Takes in whether the host's launcher started. A launch that failed
    /// is reported; the state is the same either way.
    pub fn launched(&self, started: bool) -> (result: Result<(), NavError>)
        ensures
            result == if started {
                Ok::<(), NavError>(())
            } else {
                Err::<(), NavError>(NavError::LaunchFailed)
            },
    {
        if started {
            Ok(())
        } else {
            Err(NavError::LaunchFailed)
        }
    }

    /// Takes in the outcome of reading `target`. Where the read succeeded the
    /// browser stands at `target` and shows its listing; where it failed the
    /// state is as before and the failure is reported.
    pub fn arrive(&mut self, target: Path, read: &Result<Vec<RawChild>, ReadFailure>) -> (result:
        Result<(), NavError>)
        ensures
            final(self)@ == arrival(old(self)@, target@, read_view(*read)),
            result == arrival_report(read_view(*read)),
            result is Err ==> final(self)@ == old(self)@,
    {
        match NavigationState::at(target, read) {
            Ok(state) => {
                self.state = state;
                Ok(())
            },
            Err(e) => Err(e),
        }
    }
}

} // verus!
