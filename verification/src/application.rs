use vstd::prelude::*;

use crate::backend::WallpaperBackend;
use crate::domain::{
    BatchSetReport, ScreenDescriptor, ScreenId, ScreenOperationError, WallpaperAssignment,
    WallpaperOptions, WallpaperSetRequest, WallpaperState,
};
use crate::domain::lists_screen;
use crate::error::{error_code_text, error_message_text, WallpaperError};
use crate::image::{
    answered_by, image_check_result, is_image_path, validate_image_path, FsAnswers, FsErrorKind,
    ImageFileSystem,
};
use crate::store::{clone_states, StoreView, WallpaperStateStore};
use crate::text::{paths_equal, same_path};

verus! {

/// `state` shows the image at `path` (paths compared as paths).
pub open spec fn shows_path(state: WallpaperState, path: Seq<char>) -> bool {
    state.image_path matches Some(p) && paths_equal(p@, path)
}

/// `after` is `before` with one screen's state read again from the system.
pub open spec fn one_state_read(before: StoreView, after: StoreView) -> bool {
    exists|s: WallpaperState| #[trigger] before.upserted(s) == after
}

/// What setting one screen's wallpaper does to the cached store.
///
/// Success is only reported after the system was read back showing the
/// requested image, and that read is what the store then holds; a failure
/// leaves the store as it was or holds a fresh read of one screen; an image
/// of an unsupported format is refused before the system is touched.
pub open spec fn single_set_outcome(
    before: StoreView,
    after: StoreView,
    assignment: WallpaperAssignment,
    result: Result<(), WallpaperError>,
) -> bool {
    &&& result is Ok ==> is_image_path(assignment.image_path@) && exists|s: WallpaperState|
        #[trigger] before.upserted(s) == after && shows_path(s, assignment.image_path@)
    &&& result is Err ==> after == before || one_state_read(before, after)
    &&& !is_image_path(assignment.image_path@) ==> result is Err && after == before
}

/// The assignment at `i` targets a screen that an earlier assignment targets.
pub open spec fn repeats_earlier(assignments: Seq<WallpaperAssignment>, i: int) -> bool {
    exists|j: int| 0 <= j < i && assignments[j].screen_id@ == (#[trigger] assignments[i]).screen_id@
}

/// `i` is the first assignment that repeats a screen.
pub open spec fn first_repeat(assignments: Seq<WallpaperAssignment>, i: int) -> bool {
    &&& 0 <= i < assignments.len()
    &&& repeats_earlier(assignments, i)
    &&& forall|k: int| 0 <= k < i ==> !repeats_earlier(assignments, k)
}

/// Some screen is targeted twice.
pub open spec fn has_repeat(assignments: Seq<WallpaperAssignment>) -> bool {
    exists|i: int| 0 <= i < assignments.len() && repeats_earlier(assignments, i)
}

/// The identifiers of the assignments among the first `n` that succeeded, in order.
pub open spec fn succeeded_ids(
    assignments: Seq<WallpaperAssignment>,
    outcomes: Seq<Result<(), WallpaperError>>,
    n: nat,
) -> Seq<ScreenId>
    decreases n,
{
    if n == 0 {
        seq![]
    } else {
        succeeded_ids(assignments, outcomes, (n - 1) as nat) + if outcomes[n - 1] is Ok {
            seq![assignments[n - 1].screen_id]
        } else {
            seq![]
        }
    }
}

/// The assignments among the first `n` that failed, with their errors, in order.
pub open spec fn failures(
    assignments: Seq<WallpaperAssignment>,
    outcomes: Seq<Result<(), WallpaperError>>,
    n: nat,
) -> Seq<(WallpaperAssignment, WallpaperError)>
    decreases n,
{
    if n == 0 {
        seq![]
    } else {
        failures(assignments, outcomes, (n - 1) as nat) + match outcomes[n - 1] {
            Ok(_) => seq![],
            Err(e) => seq![(assignments[n - 1], e)],
        }
    }
}

/// A report entry describes the failure of `assignment` with `error`.
pub open spec fn describes_failure(
    entry: ScreenOperationError,
    assignment: WallpaperAssignment,
    error: WallpaperError,
) -> bool {
    &&& entry.screen_id == assignment.screen_id
    &&& entry.image_path == assignment.image_path
    &&& entry.error_code@ == error_code_text(error)
    &&& entry.message@ == error_message_text(error)
}

/// `report` records the outcomes of the first `n` assignments.
pub open spec fn report_covers(
    report: BatchSetReport,
    assignments: Seq<WallpaperAssignment>,
    outcomes: Seq<Result<(), WallpaperError>>,
    n: nat,
) -> bool {
    &&& report.succeeded@ == succeeded_ids(assignments, outcomes, n)
    &&& report.failed@.len() == failures(assignments, outcomes, n).len()
    &&& forall|j: int|
        0 <= j < report.failed@.len() ==> describes_failure(
            #[trigger] report.failed@[j],
            failures(assignments, outcomes, n)[j].0,
            failures(assignments, outcomes, n)[j].1,
        )
}

/// A valid batch was carried out screen by screen with these outcomes: the
/// report lists them, an unsupported image never succeeded, and the batch
/// succeeds exactly when no screen failed, else fails with the report.
pub open spec fn batch_settled(
    assignments: Seq<WallpaperAssignment>,
    outcomes: Seq<Result<(), WallpaperError>>,
    result: Result<BatchSetReport, WallpaperError>,
) -> bool {
    &&& outcomes.len() == assignments.len()
    &&& forall|i: int|
        0 <= i < assignments.len() && !is_image_path(assignments[i].image_path@) ==> (
        #[trigger] outcomes[i]) is Err
    &&& match result {
        Ok(report) => report_covers(report, assignments, outcomes, assignments.len() as nat)
            && report.failed@.len() == 0,
        Err(WallpaperError::PartialFailure(report)) => report_covers(
            report,
            assignments,
            outcomes,
            assignments.len() as nat,
        ) && report.failed@.len() > 0,
        Err(_) => false,
    }
}

/// What setting a batch of assignments gives: an empty batch and a batch
/// that targets a screen twice are refused before anything is set (naming
/// the first repeated screen); otherwise every assignment is tried.
pub open spec fn batch_outcome<B: WallpaperBackend, F: ImageFileSystem>(
    backend: B,
    files: F,
    assignments: Seq<WallpaperAssignment>,
    before: StoreView,
    after: StoreView,
    result: Result<BatchSetReport, WallpaperError>,
) -> bool {
    if assignments.len() == 0 {
        result matches Err(WallpaperError::EmptyBatchRequest) && after == before
    } else if has_repeat(assignments) {
        &&& after == before
        &&& result matches Err(WallpaperError::DuplicateScreenAssignment(id)) && exists|i: int|
            #[trigger] first_repeat(assignments, i) && id == assignments[i].screen_id
    } else {
        exists|outcomes: Seq<Result<(), WallpaperError>>, stores: Seq<StoreView>|
            #[trigger] batch_carried_out(
                backend,
                files,
                assignments,
                outcomes,
                stores,
                before,
                after,
                result,
            )
    }
}

/// The store went from `stores[i]` to `stores[i + 1]` by setting the `i`th
/// assignment, with outcome `outcomes[i]`, for answers that the backend and
/// the file system gave to the queries of that set.
pub open spec fn batch_step<B: WallpaperBackend, F: ImageFileSystem>(
    backend: B,
    files: F,
    assignments: Seq<WallpaperAssignment>,
    outcomes: Seq<Result<(), WallpaperError>>,
    stores: Seq<StoreView>,
    i: int,
) -> bool {
    exists|answers: SetAnswers|
        set_answers_given(backend, files, assignments[i], answers) && #[trigger] set_result(
            stores[i],
            stores[i + 1],
            assignments[i],
            answers,
            outcomes[i],
        )
}

/// A valid batch carried out one assignment after the other through the
/// stores `stores`, settled by its outcomes; when some screen failed,
/// everything was read again afterwards.
pub open spec fn batch_carried_out<B: WallpaperBackend, F: ImageFileSystem>(
    backend: B,
    files: F,
    assignments: Seq<WallpaperAssignment>,
    outcomes: Seq<Result<(), WallpaperError>>,
    stores: Seq<StoreView>,
    before: StoreView,
    after: StoreView,
    result: Result<BatchSetReport, WallpaperError>,
) -> bool {
    &&& batch_settled(assignments, outcomes, result)
    &&& stores.len() == assignments.len() + 1
    &&& stores[0] == before
    &&& forall|i: int|
        0 <= i < assignments.len() ==> #[trigger] batch_step(
            backend,
            files,
            assignments,
            outcomes,
            stores,
            i,
        )
    &&& if result is Ok {
        after == stores[assignments.len() as int]
    } else {
        exists|
            listing: Result<Vec<ScreenDescriptor>, WallpaperError>,
            refreshed: Result<Vec<WallpaperState>, WallpaperError>,
        |
            #[trigger] refresh_given(
                backend,
                stores[assignments.len() as int],
                after,
                listing,
                refreshed,
            )
    }
}

/// One assignment per screen, in screen order, all with the same image and options.
pub open spec fn spread_assignments(
    screens: Seq<ScreenDescriptor>,
    image_path: String,
    options: WallpaperOptions,
) -> Seq<WallpaperAssignment> {
    Seq::new(
        screens.len(),
        |i: int|
            WallpaperAssignment { screen_id: screens[i].screen_id, image_path, options },
    )
}

/// `listing` is an answer of the backend to a request for its screens.
pub open spec fn listed_by<B: WallpaperBackend>(
    backend: B,
    listing: Result<Vec<ScreenDescriptor>, WallpaperError>,
) -> bool {
    call_ensures(B::list_screens, (&backend,), listing)
}

/// `read` is an answer of the backend to a request for the state of screen `id`.
pub open spec fn read_by<B: WallpaperBackend>(
    backend: B,
    id: ScreenId,
    read: Result<WallpaperState, WallpaperError>,
) -> bool {
    call_ensures(B::get_wallpaper, (&backend, &id), read)
}

/// `set` is an answer of the backend to a request to carry out `assignment`.
pub open spec fn set_by<B: WallpaperBackend>(
    backend: B,
    assignment: WallpaperAssignment,
    set: Result<(), WallpaperError>,
) -> bool {
    call_ensures(B::set_wallpaper, (&backend, &assignment), set)
}

/// What setting one image on every screen gives when the backend lists
/// `listing`: its error, with nothing changed, or the batch of one
/// assignment per listed screen.
pub open spec fn all_screens_result<B: WallpaperBackend, F: ImageFileSystem>(
    backend: B,
    files: F,
    image_path: String,
    options: WallpaperOptions,
    before: StoreView,
    after: StoreView,
    listing: Result<Vec<ScreenDescriptor>, WallpaperError>,
    result: Result<BatchSetReport, WallpaperError>,
) -> bool {
    &&& listed_by(backend, listing)
    &&& match listing {
        Err(e) => result == Err::<BatchSetReport, WallpaperError>(e) && after == before,
        Ok(screens) => batch_outcome(
            backend,
            files,
            spread_assignments(screens@, image_path, options),
            before,
            after,
            result,
        ),
    }
}

/// What setting one image on every screen gives, whatever the backend lists.
pub open spec fn all_screens_outcome<B: WallpaperBackend, F: ImageFileSystem>(
    backend: B,
    files: F,
    image_path: String,
    options: WallpaperOptions,
    before: StoreView,
    after: StoreView,
    result: Result<BatchSetReport, WallpaperError>,
) -> bool {
    exists|listing: Result<Vec<ScreenDescriptor>, WallpaperError>|
        #[trigger] all_screens_result(
            backend,
            files,
            image_path,
            options,
            before,
            after,
            listing,
            result,
        )
}

/// What refreshing gives when the backend lists `listing`: its error, with
/// nothing changed; or the states read, one per listed screen, which then
/// replace the store together with the screens; or, when a read fails, an
/// error with nothing changed. With no screen listed there is nothing to
/// read, and the refresh succeeds.
pub open spec fn refresh_result(
    before: StoreView,
    after: StoreView,
    listing: Result<Vec<ScreenDescriptor>, WallpaperError>,
    result: Result<Vec<WallpaperState>, WallpaperError>,
) -> bool {
    match listing {
        Err(e) => result == Err::<Vec<WallpaperState>, WallpaperError>(e) && after == before,
        Ok(screens) => {
            &&& screens@.len() == 0 ==> result is Ok
            &&& match result {
                Ok(states) => after == StoreView::replaced(screens@, states@) && states@.len()
                    == screens@.len(),
                Err(_) => after == before,
            }
        },
    }
}

/// The backend answered a state for screen `id`.
pub open spec fn state_read_by<B: WallpaperBackend>(backend: B, id: ScreenId) -> bool {
    exists|state: WallpaperState|
        #[trigger] read_by(backend, id, Ok::<WallpaperState, WallpaperError>(state))
}

/// The states are the backend's answers for the listed screens, in order:
/// the `i`th state is what it answered for the `i`th screen; an error is its
/// answer for the first screen whose read failed, every earlier read having
/// given a state.
pub open spec fn reads_given<B: WallpaperBackend>(
    backend: B,
    screens: Seq<ScreenDescriptor>,
    result: Result<Vec<WallpaperState>, WallpaperError>,
) -> bool {
    match result {
        Ok(states) => states@.len() == screens.len() && forall|i: int|
            0 <= i < screens.len() ==> #[trigger] read_by(
                backend,
                screens[i].screen_id,
                Ok::<WallpaperState, WallpaperError>(states@[i]),
            ),
        Err(e) => exists|k: int|
            0 <= k < screens.len() && #[trigger] read_by(
                backend,
                screens[k].screen_id,
                Err::<WallpaperState, WallpaperError>(e),
            ) && forall|j: int| 0 <= j < k ==> #[trigger] state_read_by(backend, screens[j].screen_id),
    }
}

/// What refreshing gives when the backend answers `listing` to the request
/// for its screens and then answers the reads of their states.
pub open spec fn refresh_given<B: WallpaperBackend>(
    backend: B,
    before: StoreView,
    after: StoreView,
    listing: Result<Vec<ScreenDescriptor>, WallpaperError>,
    result: Result<Vec<WallpaperState>, WallpaperError>,
) -> bool {
    &&& listed_by(backend, listing)
    &&& refresh_result(before, after, listing, result)
    &&& (listing matches Ok(screens) ==> reads_given(backend, screens@, result))
}

/// What the read-back after a successful set gives: success exactly when
/// the screen shows the requested image, else the mismatch.
pub open spec fn read_back_result(
    assignment: WallpaperAssignment,
    latest: WallpaperState,
    result: Result<(), WallpaperError>,
) -> bool {
    if shows_path(latest, assignment.image_path@) {
        result is Ok
    } else {
        result matches Err(e) && (e matches WallpaperError::ReadAfterWriteMismatch {
            screen_id,
            expected,
            actual,
        } && screen_id == assignment.screen_id && expected == assignment.image_path && actual
            == latest.image_path)
    }
}

/// What checking an assignment gives when the backend lists `listing` and the
/// file system answers `files`: the listing's error, a missing screen, or the
/// image check.
pub open spec fn assignment_check_result(
    assignment: WallpaperAssignment,
    listing: Result<Vec<ScreenDescriptor>, WallpaperError>,
    files: FsAnswers,
    result: Result<(), WallpaperError>,
) -> bool {
    match listing {
        Err(e) => result == Err::<(), WallpaperError>(e),
        Ok(screens) => if !lists_screen(screens@, assignment.screen_id@) {
            result matches Err(e) && (e matches WallpaperError::ScreenNotFound(id) && id
                == assignment.screen_id)
        } else {
            image_check_result(assignment.image_path@, files, result)
        },
    }
}

/// The answers of the system to the queries of setting one screen.
pub struct SetAnswers {
    /// The screens listed.
    pub listing: Result<Vec<ScreenDescriptor>, WallpaperError>,
    /// The file system's answers about the image.
    pub files: FsAnswers,
    /// The answer to the set.
    pub set: Result<(), WallpaperError>,
    /// The screen's state read after the set.
    pub read: Result<WallpaperState, WallpaperError>,
}

/// The listing and the file-system answers of an assignment check are what
/// the backend and the file system answered to its queries.
pub open spec fn check_answers_given<B: WallpaperBackend, F: ImageFileSystem>(
    backend: B,
    files: F,
    assignment: WallpaperAssignment,
    listing: Result<Vec<ScreenDescriptor>, WallpaperError>,
    fs: FsAnswers,
) -> bool {
    &&& listed_by(backend, listing)
    &&& (listing matches Ok(screens) && lists_screen(screens@, assignment.screen_id@))
        ==> answered_by(files, assignment.image_path@, fs)
}

/// The answers of a single set are what the backend and the file system
/// answered to its queries: the listing, the image check, the set of this
/// very assignment and the read of its screen.
pub open spec fn set_answers_given<B: WallpaperBackend, F: ImageFileSystem>(
    backend: B,
    files: F,
    assignment: WallpaperAssignment,
    answers: SetAnswers,
) -> bool {
    &&& check_answers_given(backend, files, assignment, answers.listing, answers.files)
    &&& assignment_check_result(assignment, answers.listing, answers.files, Ok(())) ==> {
        &&& set_by(backend, assignment, answers.set)
        &&& read_by(backend, assignment.screen_id, answers.read)
    }
}

/// What setting one screen gives when the system answers `answers`: a
/// failed check changes nothing; after a successful set the screen is read
/// back, the read goes into the store, and the set succeeds exactly when it
/// shows the image; after a failed set the screen is read again and a
/// successful read goes into the store, and the set's error is returned.
pub open spec fn set_result(
    before: StoreView,
    after: StoreView,
    assignment: WallpaperAssignment,
    answers: SetAnswers,
    result: Result<(), WallpaperError>,
) -> bool {
    if !assignment_check_result(assignment, answers.listing, answers.files, Ok(())) {
        after == before && assignment_check_result(
            assignment,
            answers.listing,
            answers.files,
            result,
        )
    } else {
        match answers.set {
            Ok(_) => match answers.read {
                Err(e) => result == Err::<(), WallpaperError>(e) && after == before,
                Ok(latest) => after == before.upserted(latest) && read_back_result(
                    assignment,
                    latest,
                    result,
                ),
            },
            Err(e) => result == Err::<(), WallpaperError>(e) && match answers.read {
                Ok(s) => after == before.upserted(s),
                Err(_) => after == before,
            },
        }
    }
}

/// The outcome of a request without its report.
pub open spec fn without_report(result: Result<BatchSetReport, WallpaperError>) -> Result<
    (),
    WallpaperError,
> {
    match result {
        Ok(_) => Ok(()),
        Err(e) => Err(e),
    }
}

/// Records what the system showed after a set: the read state goes into the
/// store, and the set succeeded exactly when it shows the requested image.
pub fn record_read_back(
    store: &mut WallpaperStateStore,
    assignment: &WallpaperAssignment,
    latest: WallpaperState,
) -> (result: Result<(), WallpaperError>)
    ensures
        final(store)@ == old(store)@.upserted(latest),
        read_back_result(*assignment, latest, result),
        result is Ok <==> (latest.image_path matches Some(p) && paths_equal(
            p@,
            assignment.image_path@,
        )),
{
    let shows = match &latest.image_path {
        Some(p) => same_path(p.as_str(), assignment.image_path.as_str()),
        None => false,
    };
    if shows {
        store.upsert_state(latest);
        Ok(())
    } else {
        let actual = match &latest.image_path {
            Some(p) => Some(p.clone()),
            None => None,
        };
        store.upsert_state(latest);
        Err(
            WallpaperError::ReadAfterWriteMismatch {
                screen_id: assignment.screen_id.clone(),
                expected: assignment.image_path.clone(),
                actual,
            },
        )
    }
}

/// Adds one assignment's outcome to a batch report.
pub fn record_outcome(
    report: &mut BatchSetReport,
    assignment: &WallpaperAssignment,
    outcome: Result<(), WallpaperError>,
)
    ensures
        outcome is Ok ==> final(report).succeeded@ == old(report).succeeded@.push(
            assignment.screen_id,
        ) && final(report).failed@ == old(report).failed@,
        outcome matches Err(e) ==> {
            &&& final(report).succeeded@ == old(report).succeeded@
            &&& final(report).failed@.len() == old(report).failed@.len() + 1
            &&& final(report).failed@.drop_last() == old(report).failed@
            &&& describes_failure(final(report).failed@.last(), *assignment, e)
        },
{
    match outcome {
        Ok(()) => report.succeeded.push(assignment.screen_id.clone()),
        Err(error) => {
            let entry = ScreenOperationError {
                screen_id: assignment.screen_id.clone(),
                image_path: assignment.image_path.clone(),
                error_code: String::from_str(error.code()),
                message: error.message(),
            };
            report.failed.push(entry);
            assert(report.failed@.drop_last() =~= old(report).failed@);
        },
    }
}

/// One assignment per screen, in screen order, all with the same image and options.
fn assignments_for_screens(
    screens: &Vec<ScreenDescriptor>,
    image_path: &String,
    options: WallpaperOptions,
) -> (assignments: Vec<WallpaperAssignment>)
    ensures
        assignments@ == spread_assignments(screens@, *image_path, options),
        assignments@.len() == screens@.len(),
        forall|i: int|
            0 <= i < screens@.len() ==> (#[trigger] assignments@[i]).screen_id == screens@[i].screen_id
                && assignments@[i].image_path == *image_path && assignments@[i].options == options,
{
    let mut assignments: Vec<WallpaperAssignment> = Vec::new();
    let mut i: usize = 0;
    while i < screens.len()
        invariant
            i <= screens@.len(),
            assignments@ == spread_assignments(screens@, *image_path, options).take(i as int),
        decreases screens@.len() - i,
    {
        assignments.push(
            WallpaperAssignment {
                screen_id: screens[i].screen_id.clone(),
                image_path: image_path.clone(),
                options,
            },
        );
        assert(assignments@ =~= spread_assignments(screens@, *image_path, options).take(i + 1));
        i = i + 1;
    }
    assert(assignments@ =~= spread_assignments(screens@, *image_path, options));
    assignments
}

/// Reads and sets wallpapers through a backend, keeping a store of what the
/// system was last seen to show.
pub struct WallpaperManager<B: WallpaperBackend, F: ImageFileSystem> {
    backend: B,
    files: F,
    store: WallpaperStateStore,
}

impl<B: WallpaperBackend, F: ImageFileSystem> WallpaperManager<B, F> {
    /// What the manager last read from the system.
    pub closed spec fn cached(&self) -> StoreView {
        self.store@
    }

    /// The backend the manager talks to.
    pub closed spec fn backend_of(&self) -> B {
        self.backend
    }

    /// The file system the manager checks images on.
    pub closed spec fn files_of(&self) -> F {
        self.files
    }

    pub fn new(backend: B, files: F) -> (manager: Self)
        ensures
            manager.cached() == StoreView::empty(),
            manager.backend_of() == backend,
            manager.files_of() == files,
    {
        WallpaperManager { backend, files, store: WallpaperStateStore::new() }
    }

    pub fn store(&self) -> (store: &WallpaperStateStore)
        ensures
            store@ == self.cached(),
    {
        &self.store
    }

    /// Reads every screen and its wallpaper, and replaces the store with them.
    pub fn refresh(&mut self) -> (result: Result<Vec<WallpaperState>, WallpaperError>)
        ensures
            final(self).backend_of() == old(self).backend_of(),
            final(self).files_of() == old(self).files_of(),
            exists|listing: Result<Vec<ScreenDescriptor>, WallpaperError>|
                #[trigger] refresh_given(
                    old(self).backend_of(),
                    old(self).cached(),
                    final(self).cached(),
                    listing,
                    result,
                ),
    {
        let listing = self.backend.list_screens();
        let ghost listed = listing;
        let screens = match listing {
            Ok(screens) => screens,
            Err(e) => {
                let result = Err(e);
                assert(refresh_given(old(self).backend_of(), old(self).cached(), self.cached(), listed, result));
                return result;
            },
        };
        let read = self.read_states(&screens);
        let ghost reads = read;
        let states = match read {
            Ok(states) => states,
            Err(e) => {
                let result = Err(e);
                assert(result == reads);
                assert(refresh_given(old(self).backend_of(), old(self).cached(), self.cached(), listed, result));
                return result;
            },
        };
        let copy = clone_states(&states);
        self.store.replace(screens, copy);
        let result = Ok(states);
        assert(result == reads);
        assert(refresh_given(old(self).backend_of(), old(self).cached(), self.cached(), listed, result));
        result
    }

    /// Carries out a request.
    pub fn apply(&mut self, request: WallpaperSetRequest) -> (result: Result<
        BatchSetReport,
        WallpaperError,
    >)
        ensures
            final(self).backend_of() == old(self).backend_of(),
            final(self).files_of() == old(self).files_of(),
            match request {
                WallpaperSetRequest::ApplyToScreen(assignment) => {
                    &&& exists|answers: SetAnswers|
                        set_answers_given(
                            old(self).backend_of(),
                            old(self).files_of(),
                            assignment,
                            answers,
                        ) && #[trigger] set_result(
                            old(self).cached(),
                            final(self).cached(),
                            assignment,
                            answers,
                            without_report(result),
                        )
                    &&& single_set_outcome(
                        old(self).cached(),
                        final(self).cached(),
                        assignment,
                        without_report(result),
                    )
                    &&& result matches Ok(report) ==> (report.succeeded@ == seq![
                        assignment.screen_id,
                    ] && report.failed@.len() == 0)
                },
                WallpaperSetRequest::ApplyToAllScreens { image_path, options } => all_screens_outcome(
                    old(self).backend_of(),
                    old(self).files_of(),
                    image_path,
                    options,
                    old(self).cached(),
                    final(self).cached(),
                    result,
                ),
                WallpaperSetRequest::ApplyPerScreen(assignments) => batch_outcome(
                    old(self).backend_of(),
                    old(self).files_of(),
                    assignments@,
                    old(self).cached(),
                    final(self).cached(),
                    result,
                ),
            },
    {
        match request {
            WallpaperSetRequest::ApplyToScreen(assignment) => {
                let screen_id = assignment.screen_id.clone();
                let ghost requested = assignment;
                let outcome = self.set_for_screen(assignment);
                let ghost answers = choose|a: SetAnswers|
                    set_answers_given(self.backend, self.files, requested, a) && #[trigger] set_result(
                        old(self).cached(),
                        self.cached(),
                        requested,
                        a,
                        outcome,
                    );
                let ghost settled = outcome;
                let result = match outcome {
                    Ok(unit) => {
                        assert(settled == Ok::<(), WallpaperError>(unit));
                        let mut succeeded = Vec::new();
                        succeeded.push(screen_id);
                        Ok(BatchSetReport { succeeded, failed: Vec::new() })
                    },
                    Err(e) => Err(e),
                };
                assert(without_report(result) == settled);
                assert(set_result(
                    old(self).cached(),
                    self.cached(),
                    requested,
                    answers,
                    without_report(result),
                ));
                result
            },
            WallpaperSetRequest::ApplyToAllScreens { image_path, options } => self.set_for_all(
                image_path,
                options,
            ),
            WallpaperSetRequest::ApplyPerScreen(assignments) => self.set_batch(assignments),
        }
    }

    /// Sets one screen's wallpaper: the screen must be listed by the system and
    /// the image must pass validation; after the set, the system is read back
    /// and the set only succeeds when it shows the image. When the set itself
    /// fails, the screen's state is read again.
    pub fn set_for_screen(&mut self, assignment: WallpaperAssignment) -> (result: Result<
        (),
        WallpaperError,
    >)
        ensures
            final(self).backend_of() == old(self).backend_of(),
            final(self).files_of() == old(self).files_of(),
            exists|answers: SetAnswers|
                set_answers_given(old(self).backend_of(), old(self).files_of(), assignment, answers)
                    && #[trigger] set_result(
                    old(self).cached(),
                    final(self).cached(),
                    assignment,
                    answers,
                    result,
                ),
            single_set_outcome(old(self).cached(), final(self).cached(), assignment, result),
    {
        let ghost before = self.cached();
        let checked = self.validate_assignment(&assignment);
        let ghost (listing, files) = choose|l: Result<Vec<ScreenDescriptor>, WallpaperError>, f: FsAnswers|
            check_answers_given(self.backend, self.files, assignment, l, f)
                && #[trigger] assignment_check_result(assignment, l, f, checked);
        let ghost unasked: Result<WallpaperState, WallpaperError> = Err(
            WallpaperError::ScreenTopologyChanged,
        );
        if let Err(e) = checked {
            let result = Err(e);
            proof {
                let answers = SetAnswers { listing, files, set: Ok(()), read: unasked };
                lemma_check_decides(assignment, listing, files, result);
                assert(set_answers_given(self.backend, self.files, assignment, answers));
                assert(set_result(before, self.cached(), assignment, answers, result));
                lemma_set_summary(before, self.cached(), assignment, answers, result);
            }
            return result;
        }
        let set_answer = self.backend.set_wallpaper(&assignment);
        match set_answer {
            Ok(()) => {
                let result = self.confirm_assignment(&assignment);
                proof {
                    let read = choose|r: Result<WallpaperState, WallpaperError>|
                        read_by(self.backend, assignment.screen_id, r) && #[trigger] confirm_result(
                            before,
                            self.cached(),
                            assignment,
                            r,
                            result,
                        );
                    let answers = SetAnswers { listing, files, set: set_answer, read };
                    assert(set_answers_given(self.backend, self.files, assignment, answers));
                    assert(set_result(before, self.cached(), assignment, answers, result));
                    lemma_set_summary(before, self.cached(), assignment, answers, result);
                }
                result
            },
            Err(error) => {
                let ghost failure = error;
                self.reload_screen_state(&assignment.screen_id);
                let result = Err(error);
                proof {
                    let read = choose|r: Result<WallpaperState, WallpaperError>|
                        read_by(self.backend, assignment.screen_id, r) && #[trigger] reread_result(
                            before,
                            self.cached(),
                            r,
                        );
                    let answers = SetAnswers { listing, files, set: set_answer, read };
                    assert(set_answers_given(self.backend, self.files, assignment, answers));
                    assert(set_result(before, self.cached(), assignment, answers, result));
                    lemma_set_summary(before, self.cached(), assignment, answers, result);
                }
                result
            },
        }
    }

    /// Sets the same image on every screen the system lists.
    pub fn set_for_all(&mut self, image_path: String, options: WallpaperOptions) -> (result:
        Result<BatchSetReport, WallpaperError>)
        ensures
            final(self).backend_of() == old(self).backend_of(),
            final(self).files_of() == old(self).files_of(),
            all_screens_outcome(
                old(self).backend_of(),
                old(self).files_of(),
                image_path,
                options,
                old(self).cached(),
                final(self).cached(),
                result,
            ),
    {
        let listing = self.backend.list_screens();
        let ghost listed = listing;
        let screens = match listing {
            Ok(screens) => screens,
            Err(e) => {
                let result = Err(e);
                assert(all_screens_result(
                    self.backend,
                    self.files,
                    image_path,
                    options,
                    old(self).cached(),
                    self.cached(),
                    listed,
                    result,
                ));
                return result;
            },
        };
        let assignments = assignments_for_screens(&screens, &image_path, options);
        let result = self.set_batch(assignments);
        assert(all_screens_result(
            self.backend,
            self.files,
            image_path,
            options,
            old(self).cached(),
            self.cached(),
            listed,
            result,
        ));
        result
    }

    /// Sets a batch of assignments screen by screen, collecting per-screen
    /// outcomes; when some screen failed, everything is read again and the
    /// batch fails with its report.
    pub fn set_batch(&mut self, assignments: Vec<WallpaperAssignment>) -> (result: Result<
        BatchSetReport,
        WallpaperError,
    >)
        ensures
            final(self).backend_of() == old(self).backend_of(),
            final(self).files_of() == old(self).files_of(),
            batch_outcome(
                old(self).backend_of(),
                old(self).files_of(),
                assignments@,
                old(self).cached(),
                final(self).cached(),
                result,
            ),
    {
        self.validate_batch(&assignments)?;
        let mut report = BatchSetReport::default();
        let ghost mut outcomes: Seq<Result<(), WallpaperError>> = seq![];
        let ghost mut stores: Seq<StoreView> = seq![self.cached()];
        proof {
            assert(report.succeeded@ =~= succeeded_ids(assignments@, outcomes, 0));
        }
        let mut i: usize = 0;
        while i < assignments.len()
            invariant
                i <= assignments@.len(),
                outcomes.len() == i,
                stores.len() == i + 1,
                stores[0] == old(self).cached(),
                stores[i as int] == self.cached(),
                forall|k: int|
                    0 <= k < i ==> #[trigger] batch_step(
                        old(self).backend_of(),
                        old(self).files_of(),
                        assignments@,
                        outcomes,
                        stores,
                        k,
                    ),
                self.backend_of() == old(self).backend_of(),
                self.files_of() == old(self).files_of(),
                report_covers(report, assignments@, outcomes, i as nat),
                forall|k: int|
                    0 <= k < i && !is_image_path(assignments@[k].image_path@) ==> (
                    #[trigger] outcomes[k]) is Err,
            decreases assignments@.len() - i,
        {
            let ghost store_before = self.cached();
            let outcome = self.set_for_screen(assignments[i].clone());
            let ghost before_report = report;
            proof {
                let ghost earlier = outcomes;
                let ghost earlier_stores = stores;
                outcomes = outcomes.push(outcome);
                stores = stores.push(self.cached());
                assert(outcomes.drop_last() =~= earlier);
                let ghost backend = old(self).backend_of();
                let ghost files = old(self).files_of();
                assert forall|k: int| 0 <= k < i + 1 implies #[trigger] batch_step(
                    backend,
                    files,
                    assignments@,
                    outcomes,
                    stores,
                    k,
                ) by {
                    if k < i {
                        assert(batch_step(backend, files, assignments@, earlier, earlier_stores, k));
                        let answers = choose|answers: SetAnswers|
                            set_answers_given(backend, files, assignments@[k], answers)
                                && #[trigger] set_result(
                                earlier_stores[k],
                                earlier_stores[k + 1],
                                assignments@[k],
                                answers,
                                earlier[k],
                            );
                        assert(set_result(stores[k], stores[k + 1], assignments@[k], answers, outcomes[k]));
                    } else {
                        let answers = choose|answers: SetAnswers|
                            set_answers_given(backend, files, assignments@[k], answers)
                                && #[trigger] set_result(
                                store_before,
                                self.cached(),
                                assignments@[k],
                                answers,
                                outcome,
                            );
                        assert(set_result(stores[k], stores[k + 1], assignments@[k], answers, outcomes[k]));
                    }
                }
            }
            record_outcome(&mut report, &assignments[i], outcome);
            proof {
                lemma_report_step(before_report, report, assignments@, outcomes, i as nat);
            }
            i = i + 1;
        }
        proof {
            assert(outcomes.len() == assignments@.len());
        }
        if report.is_success() {
            proof {
                assert(batch_carried_out(
                    self.backend,
                    self.files,
                    assignments@,
                    outcomes,
                    stores,
                    old(self).cached(),
                    self.cached(),
                    Ok(report),
                ));
            }
            Ok(report)
        } else {
            let ghost store_before = self.cached();
            let refreshed = self.refresh();
            proof {
                let listing = choose|l: Result<Vec<ScreenDescriptor>, WallpaperError>|
                    #[trigger] refresh_given(self.backend, store_before, self.cached(), l, refreshed);
                assert(refresh_given(
                    self.backend,
                    stores[assignments@.len() as int],
                    self.cached(),
                    listing,
                    refreshed,
                ));
                assert(batch_carried_out(
                    self.backend,
                    self.files,
                    assignments@,
                    outcomes,
                    stores,
                    old(self).cached(),
                    self.cached(),
                    Err(WallpaperError::PartialFailure(report)),
                ));
            }
            Err(WallpaperError::PartialFailure(report))
        }
    }

    /// The screen must be listed and the image must pass validation.
    fn validate_assignment(&self, assignment: &WallpaperAssignment) -> (result: Result<
        (),
        WallpaperError,
    >)
        ensures
            exists|listing: Result<Vec<ScreenDescriptor>, WallpaperError>, files: FsAnswers|
                check_answers_given(self.backend, self.files, *assignment, listing, files)
                    && #[trigger] assignment_check_result(*assignment, listing, files, result),
    {
        let listing = self.backend.list_screens();
        let ghost listed = listing;
        let ghost no_files = FsAnswers {
            link: Err(FsErrorKind::Other),
            link_target: Err(FsErrorKind::Other),
            target: Err(FsErrorKind::Other),
            open: Err(FsErrorKind::Other),
        };
        let screens = match listing {
            Ok(screens) => screens,
            Err(e) => {
                let result = Err(e);
                assert(check_answers_given(self.backend, self.files, *assignment, listed, no_files));
                assert(assignment_check_result(*assignment, listed, no_files, result));
                return result;
            },
        };
        if let Err(e) = require_listed(&screens, &assignment.screen_id) {
            let result = Err(e);
            assert(check_answers_given(self.backend, self.files, *assignment, listed, no_files));
            assert(assignment_check_result(*assignment, listed, no_files, result));
            return result;
        }
        let result = validate_image_path(&self.files, assignment.image_path.as_str());
        proof {
            let files = choose|f: FsAnswers|
                answered_by(self.files, assignment.image_path@, f) && #[trigger] image_check_result(
                    assignment.image_path@,
                    f,
                    result,
                );
            assert(check_answers_given(self.backend, self.files, *assignment, listed, files));
            assert(assignment_check_result(*assignment, listed, files, result));
        }
        result
    }

    /// A batch must not be empty nor target a screen twice.
    fn validate_batch(&self, assignments: &Vec<WallpaperAssignment>) -> (result: Result<
        (),
        WallpaperError,
    >)
        ensures
            assignments@.len() == 0 ==> result matches Err(WallpaperError::EmptyBatchRequest),
            assignments@.len() > 0 && has_repeat(assignments@) ==> (result matches Err(
                WallpaperError::DuplicateScreenAssignment(id),
            ) && exists|i: int| #[trigger]
                first_repeat(assignments@, i) && id == assignments@[i].screen_id),
            assignments@.len() > 0 && !has_repeat(assignments@) ==> result is Ok,
    {
        if assignments.len() == 0 {
            return Err(WallpaperError::EmptyBatchRequest);
        }
        let mut seen: Vec<ScreenId> = Vec::new();
        let mut i: usize = 0;
        while i < assignments.len()
            invariant
                i <= assignments@.len(),
                seen@.len() == i,
                forall|t: int| 0 <= t < i ==> (#[trigger] seen@[t])@ == assignments@[t].screen_id@,
                forall|k: int| 0 <= k < i ==> !repeats_earlier(assignments@, k),
            decreases assignments@.len() - i,
        {
            let id = &assignments[i].screen_id;
            if crate::domain::contains_id(&seen, id) {
                proof {
                    let t = choose|t: int| 0 <= t < seen@.len() && (#[trigger] seen@[t])@ == id@;
                    assert(assignments@[t].screen_id@ == assignments@[i as int].screen_id@);
                    assert(repeats_earlier(assignments@, i as int));
                    assert(first_repeat(assignments@, i as int));
                    assert(has_repeat(assignments@));
                }
                return Err(WallpaperError::DuplicateScreenAssignment(id.clone()));
            }
            proof {
                assert(!repeats_earlier(assignments@, i as int)) by {
                    if repeats_earlier(assignments@, i as int) {
                        let j = choose|j: int|
                            0 <= j < i && assignments@[j].screen_id@ == (
                            #[trigger] assignments@[i as int]).screen_id@;
                        assert(seen@[j]@ == id@);
                    }
                }
            }
            seen.push(id.clone());
            i = i + 1;
        }
        Ok(())
    }

    /// Reads the state of every screen, in order.
    fn read_states(&self, screens: &Vec<ScreenDescriptor>) -> (result: Result<
        Vec<WallpaperState>,
        WallpaperError,
    >)
        ensures
            result matches Ok(states) ==> states@.len() == screens@.len(),
            screens@.len() == 0 ==> (result matches Ok(states) && states@.len() == 0),
            reads_given(self.backend, screens@, result),
    {
        let mut states: Vec<WallpaperState> = Vec::new();
        let mut i: usize = 0;
        while i < screens.len()
            invariant
                i <= screens@.len(),
                states@.len() == i,
                forall|k: int|
                    0 <= k < i ==> #[trigger] read_by(
                        self.backend,
                        screens@[k].screen_id,
                        Ok::<WallpaperState, WallpaperError>(states@[k]),
                    ),
            decreases screens@.len() - i,
        {
            let read = self.backend.get_wallpaper(&screens[i].screen_id);
            let ghost answer = read;
            match read {
                Ok(state) => {
                    let ghost before = states@;
                    states.push(state);
                    assert forall|k: int| 0 <= k < i + 1 implies #[trigger] read_by(
                        self.backend,
                        screens@[k].screen_id,
                        Ok::<WallpaperState, WallpaperError>(states@[k]),
                    ) by {
                        if k < i {
                            assert(states@[k] == before[k]);
                        }
                    }
                },
                Err(e) => {
                    let result = Err(e);
                    assert(read_by(self.backend, screens@[i as int].screen_id, answer));
                    assert forall|j: int| 0 <= j < i implies #[trigger] state_read_by(
                        self.backend,
                        screens@[j].screen_id,
                    ) by {
                        assert(read_by(
                            self.backend,
                            screens@[j].screen_id,
                            Ok::<WallpaperState, WallpaperError>(states@[j]),
                        ));
                    }
                    assert(reads_given(self.backend, screens@, result));
                    return result;
                },
            }
            i = i + 1;
        }
        Ok(states)
    }

    /// Reads the screen back after a set and records what it shows.
    fn confirm_assignment(&mut self, assignment: &WallpaperAssignment) -> (result: Result<
        (),
        WallpaperError,
    >)
        ensures
            final(self).backend_of() == old(self).backend_of(),
            final(self).files_of() == old(self).files_of(),
            exists|read: Result<WallpaperState, WallpaperError>|
                read_by(old(self).backend_of(), assignment.screen_id, read) && #[trigger] confirm_result(
                    old(self).cached(),
                    final(self).cached(),
                    *assignment,
                    read,
                    result,
                ),
    {
        let read = self.backend.get_wallpaper(&assignment.screen_id);
        let ghost answer = read;
        match read {
            Ok(latest) => {
                let result = record_read_back(&mut self.store, assignment, latest);
                assert(confirm_result(old(self).cached(), self.cached(), *assignment, answer, result));
                result
            },
            Err(e) => {
                let result = Err(e);
                assert(confirm_result(old(self).cached(), self.cached(), *assignment, answer, result));
                result
            },
        }
    }

    /// Reads a screen's state again, keeping the store when the read fails.
    fn reload_screen_state(&mut self, screen_id: &ScreenId)
        ensures
            final(self).backend_of() == old(self).backend_of(),
            final(self).files_of() == old(self).files_of(),
            exists|read: Result<WallpaperState, WallpaperError>|
                read_by(old(self).backend_of(), *screen_id, read) && #[trigger] reread_result(
                    old(self).cached(),
                    final(self).cached(),
                    read,
                ),
    {
        let read = self.backend.get_wallpaper(screen_id);
        let ghost answer = read;
        if let Ok(state) = read {
            self.store.upsert_state(state);
        }
        assert(reread_result(old(self).cached(), self.cached(), answer));
    }
}

/// The screen must be among the listed screens.
pub fn require_listed(screens: &Vec<ScreenDescriptor>, screen_id: &ScreenId) -> (result: Result<
    (),
    WallpaperError,
>)
    ensures
        result is Ok <==> crate::domain::lists_screen(screens@, screen_id@),
        result matches Err(e) ==> (e matches WallpaperError::ScreenNotFound(id) && id == *screen_id),
{
    if crate::domain::screen_listed(screens, screen_id) {
        Ok(())
    } else {
        Err(WallpaperError::ScreenNotFound(screen_id.clone()))
    }
}

/// What the read-back after a set gives: the read's error with nothing
/// changed, or the read goes into the store and decides the outcome.
pub open spec fn confirm_result(
    before: StoreView,
    after: StoreView,
    assignment: WallpaperAssignment,
    read: Result<WallpaperState, WallpaperError>,
    result: Result<(), WallpaperError>,
) -> bool {
    match read {
        Err(e) => result == Err::<(), WallpaperError>(e) && after == before,
        Ok(latest) => after == before.upserted(latest) && read_back_result(
            assignment,
            latest,
            result,
        ),
    }
}

/// What reading a screen again gives: a successful read goes into the store.
pub open spec fn reread_result(
    before: StoreView,
    after: StoreView,
    read: Result<WallpaperState, WallpaperError>,
) -> bool {
    match read {
        Ok(s) => after == before.upserted(s),
        Err(_) => after == before,
    }
}

/// A failed check is decided by the same answers that a passing one needs.
proof fn lemma_check_decides(
    assignment: WallpaperAssignment,
    listing: Result<Vec<ScreenDescriptor>, WallpaperError>,
    files: FsAnswers,
    result: Result<(), WallpaperError>,
)
    requires
        assignment_check_result(assignment, listing, files, result),
        result is Err,
    ensures
        !assignment_check_result(assignment, listing, files, Ok(())),
{
}

/// The exact outcome of a single set implies its summary.
proof fn lemma_set_summary(
    before: StoreView,
    after: StoreView,
    assignment: WallpaperAssignment,
    answers: SetAnswers,
    result: Result<(), WallpaperError>,
)
    requires
        set_result(before, after, assignment, answers, result),
    ensures
        single_set_outcome(before, after, assignment, result),
{
    if assignment_check_result(assignment, answers.listing, answers.files, Ok(())) {
        match answers.set {
            Ok(_) => match answers.read {
                Ok(latest) => {
                    assert(before.upserted(latest) == after);
                },
                Err(_) => {},
            },
            Err(_) => match answers.read {
                Ok(s) => {
                    assert(before.upserted(s) == after);
                },
                Err(_) => {},
            },
        }
    }
}

/// Counting facts about the first `n` outcomes of a batch.
proof fn lemma_outcome_counts(
    assignments: Seq<WallpaperAssignment>,
    outcomes: Seq<Result<(), WallpaperError>>,
    n: nat,
)
    requires
        n <= outcomes.len(),
        n <= assignments.len(),
    ensures
        succeeded_ids(assignments, outcomes, n).len() + failures(assignments, outcomes, n).len()
            == n,
        failures(assignments, outcomes, n).len() == 0 <==> forall|i: int|
            0 <= i < n ==> (#[trigger] outcomes[i]) is Ok,
    decreases n,
{
    if n > 0 {
        lemma_outcome_counts(assignments, outcomes, (n - 1) as nat);
        if failures(assignments, outcomes, (n - 1) as nat).len() != 0 {
            let i = choose|i: int| 0 <= i < n - 1 && !((#[trigger] outcomes[i]) is Ok);
        }
    }
}

/// A carried-out batch reports every assignment exactly once, as succeeded
/// or failed, and succeeds exactly when every screen succeeded.
pub proof fn lemma_batch_report_complete(
    assignments: Seq<WallpaperAssignment>,
    outcomes: Seq<Result<(), WallpaperError>>,
    result: Result<BatchSetReport, WallpaperError>,
)
    requires
        batch_settled(assignments, outcomes, result),
    ensures
        result matches Ok(report) ==> report.succeeded@.len() == assignments.len(),
        result matches Err(e) ==> (e matches WallpaperError::PartialFailure(report)
            && report.succeeded@.len() + report.failed@.len() == assignments.len()),
        result is Ok <==> forall|i: int| 0 <= i < assignments.len() ==> (#[trigger] outcomes[i]) is Ok,
{
    lemma_outcome_counts(assignments, outcomes, assignments.len() as nat);
}

/// The backend gives one answer to each read: two reads of a screen give
/// the same answer.
pub open spec fn reads_determined<B: WallpaperBackend>(backend: B) -> bool {
    forall|id: ScreenId, x: Result<WallpaperState, WallpaperError>, y: Result<
        WallpaperState,
        WallpaperError,
    >|
        #![trigger read_by(backend, id, x), read_by(backend, id, y)]
        read_by(backend, id, x) && read_by(backend, id, y) ==> x == y
}

/// Two refresh results say the same: the same states, or the same error.
pub open spec fn same_refresh_result(
    first: Result<Vec<WallpaperState>, WallpaperError>,
    second: Result<Vec<WallpaperState>, WallpaperError>,
) -> bool {
    match (first, second) {
        (Ok(a), Ok(b)) => a@ == b@,
        (Err(e), Err(f)) => e == f,
        _ => false,
    }
}

/// Refreshing twice against a backend that lists the same screens both
/// times and answers each read the same way gives the same result twice,
/// and the second refresh leaves the store as the first left it.
pub proof fn lemma_refresh_repeats<B: WallpaperBackend>(
    backend: B,
    first_before: StoreView,
    first_after: StoreView,
    second_after: StoreView,
    listing: Result<Vec<ScreenDescriptor>, WallpaperError>,
    first: Result<Vec<WallpaperState>, WallpaperError>,
    second: Result<Vec<WallpaperState>, WallpaperError>,
)
    requires
        reads_determined(backend),
        refresh_given(backend, first_before, first_after, listing, first),
        refresh_given(backend, first_after, second_after, listing, second),
    ensures
        second_after == first_after,
        same_refresh_result(first, second),
{
    if let Ok(screens) = listing {
        let s = screens@;
        match (first, second) {
            (Ok(a), Ok(b)) => {
                assert forall|i: int| 0 <= i < s.len() implies a@[i] == b@[i] by {
                    assert(read_by(backend, s[i].screen_id, Ok::<WallpaperState, WallpaperError>(a@[i])));
                    assert(read_by(backend, s[i].screen_id, Ok::<WallpaperState, WallpaperError>(b@[i])));
                }
                assert(a@ =~= b@);
            },
            (Ok(a), Err(f)) => {
                let k = choose|k: int|
                    0 <= k < s.len() && #[trigger] read_by(
                        backend,
                        s[k].screen_id,
                        Err::<WallpaperState, WallpaperError>(f),
                    ) && forall|j: int| 0 <= j < k ==> #[trigger] state_read_by(backend, s[j].screen_id);
                assert(read_by(backend, s[k].screen_id, Ok::<WallpaperState, WallpaperError>(a@[k])));
            },
            (Err(e), Ok(b)) => {
                let k = choose|k: int|
                    0 <= k < s.len() && #[trigger] read_by(
                        backend,
                        s[k].screen_id,
                        Err::<WallpaperState, WallpaperError>(e),
                    ) && forall|j: int| 0 <= j < k ==> #[trigger] state_read_by(backend, s[j].screen_id);
                assert(read_by(backend, s[k].screen_id, Ok::<WallpaperState, WallpaperError>(b@[k])));
            },
            (Err(e), Err(f)) => {
                let k = choose|k: int|
                    0 <= k < s.len() && #[trigger] read_by(
                        backend,
                        s[k].screen_id,
                        Err::<WallpaperState, WallpaperError>(e),
                    ) && forall|j: int| 0 <= j < k ==> #[trigger] state_read_by(backend, s[j].screen_id);
                let m = choose|m: int|
                    0 <= m < s.len() && #[trigger] read_by(
                        backend,
                        s[m].screen_id,
                        Err::<WallpaperState, WallpaperError>(f),
                    ) && forall|j: int| 0 <= j < m ==> #[trigger] state_read_by(backend, s[j].screen_id);
                if k < m {
                    assert(state_read_by(backend, s[k].screen_id));
                    let st = choose|st: WallpaperState|
                        #[trigger] read_by(backend, s[k].screen_id, Ok::<WallpaperState, WallpaperError>(st));
                } else if m < k {
                    assert(state_read_by(backend, s[m].screen_id));
                    let st = choose|st: WallpaperState|
                        #[trigger] read_by(backend, s[m].screen_id, Ok::<WallpaperState, WallpaperError>(st));
                }
            },
        }
    }
}

/// Setting the same screen twice, when the check passes both times and the
/// backend answers the set and the read-back the same way both times, gives
/// the same result twice, and the second set leaves the store as the first
/// left it.
pub proof fn lemma_set_repeats(
    first_before: StoreView,
    first_after: StoreView,
    second_after: StoreView,
    assignment: WallpaperAssignment,
    first_answers: SetAnswers,
    second_answers: SetAnswers,
    first: Result<(), WallpaperError>,
    second: Result<(), WallpaperError>,
)
    requires
        assignment_check_result(assignment, first_answers.listing, first_answers.files, Ok(())),
        assignment_check_result(assignment, second_answers.listing, second_answers.files, Ok(())),
        first_answers.set == second_answers.set,
        first_answers.read == second_answers.read,
        set_result(first_before, first_after, assignment, first_answers, first),
        set_result(first_after, second_after, assignment, second_answers, second),
    ensures
        second_after == first_after,
        second == first,
{
    if let Ok(latest) = first_answers.read {
        crate::store::lemma_latest_read_wins(first_before, latest, latest);
        if first_answers.set is Ok && !shows_path(latest, assignment.image_path@) {
            let mismatch = WallpaperError::ReadAfterWriteMismatch {
                screen_id: assignment.screen_id,
                expected: assignment.image_path,
                actual: latest.image_path,
            };
            assert(first == Err::<(), WallpaperError>(mismatch));
            assert(second == Err::<(), WallpaperError>(mismatch));
        }
    }
    if let (Ok(u), Ok(w)) = (first, second) {
        assert(u == w);
    }
}

/// Setting one image on every screen hands each listed screen, in order, an
/// assignment of that image with exactly the requested options.
pub proof fn lemma_spread_carries_request(
    screens: Seq<ScreenDescriptor>,
    image_path: String,
    options: WallpaperOptions,
)
    ensures
        spread_assignments(screens, image_path, options).len() == screens.len(),
        forall|i: int|
            0 <= i < screens.len() ==> (#[trigger] spread_assignments(screens, image_path, options)[i]).screen_id
                == screens[i].screen_id && spread_assignments(screens, image_path, options)[i].image_path
                == image_path && spread_assignments(screens, image_path, options)[i].options == options,
{
}

/// A read-back confirms a set exactly when the screen shows an image whose
/// path is the requested one; otherwise the set fails with a mismatch that
/// names the screen, the requested path and what the screen showed, which
/// may be no image at all.
pub proof fn lemma_read_back_confirms_exactly(
    assignment: WallpaperAssignment,
    latest: WallpaperState,
    result: Result<(), WallpaperError>,
)
    requires
        read_back_result(assignment, latest, result),
    ensures
        result is Ok <==> (latest.image_path matches Some(p) && paths_equal(
            p@,
            assignment.image_path@,
        )),
        latest.image_path is None ==> result == Err::<(), WallpaperError>(
            WallpaperError::ReadAfterWriteMismatch {
                screen_id: assignment.screen_id,
                expected: assignment.image_path,
                actual: None,
            },
        ),
{
}

/// A single set succeeds only when the set itself succeeded and the screen,
/// read back, shows an image whose path is the requested one.
pub proof fn lemma_set_success_is_confirmed(
    before: StoreView,
    after: StoreView,
    assignment: WallpaperAssignment,
    answers: SetAnswers,
    result: Result<(), WallpaperError>,
)
    requires
        set_result(before, after, assignment, answers, result),
        result is Ok,
    ensures
        answers.set is Ok,
        answers.read matches Ok(latest) && latest.image_path matches Some(p) && paths_equal(
            p@,
            assignment.image_path@,
        ),
        after == before.upserted(answers.read->Ok_0),
{
}

/// One more outcome extends the report's coverage by one assignment.
proof fn lemma_report_step(
    before: BatchSetReport,
    after: BatchSetReport,
    assignments: Seq<WallpaperAssignment>,
    outcomes: Seq<Result<(), WallpaperError>>,
    n: nat,
)
    requires
        n < assignments.len(),
        outcomes.len() == n + 1,
        report_covers(before, assignments, outcomes.drop_last(), n),
        outcomes[n as int] is Ok ==> after.succeeded@ == before.succeeded@.push(
            assignments[n as int].screen_id,
        ) && after.failed@ == before.failed@,
        outcomes[n as int] matches Err(e) ==> after.succeeded@ == before.succeeded@
            && after.failed@.len() == before.failed@.len() + 1 && after.failed@.drop_last()
            == before.failed@ && describes_failure(after.failed@.last(), assignments[n as int], e),
    ensures
        report_covers(after, assignments, outcomes, (n + 1) as nat),
{
    let earlier = outcomes.drop_last();
    lemma_outcome_prefix(assignments, earlier, outcomes, n);
    let f_before = failures(assignments, outcomes, n);
    let f_after = failures(assignments, outcomes, (n + 1) as nat);
    match outcomes[n as int] {
        Ok(_) => {
            assert(after.succeeded@ =~= succeeded_ids(assignments, outcomes, (n + 1) as nat));
            assert(f_after =~= f_before);
        },
        Err(e) => {
            assert(after.succeeded@ =~= succeeded_ids(assignments, outcomes, (n + 1) as nat));
            assert(f_after =~= f_before.push((assignments[n as int], e)));
            assert(after.failed@[before.failed@.len() as int] == after.failed@.last());
        },
    }
    assert forall|j: int| 0 <= j < after.failed@.len() implies describes_failure(
        #[trigger] after.failed@[j],
        f_after[j].0,
        f_after[j].1,
    ) by {
        if j < before.failed@.len() {
            assert(after.failed@[j] == before.failed@[j]);
            assert(f_after[j] == f_before[j]);
            assert(describes_failure(before.failed@[j], f_before[j].0, f_before[j].1));
        }
    }
}

/// The report's view of the first `n` outcomes only depends on those outcomes.
proof fn lemma_outcome_prefix(
    assignments: Seq<WallpaperAssignment>,
    first: Seq<Result<(), WallpaperError>>,
    second: Seq<Result<(), WallpaperError>>,
    n: nat,
)
    requires
        n <= first.len(),
        n <= second.len(),
        forall|i: int| 0 <= i < n ==> first[i] == second[i],
    ensures
        succeeded_ids(assignments, first, n) == succeeded_ids(assignments, second, n),
        failures(assignments, first, n) == failures(assignments, second, n),
    decreases n,
{
    if n > 0 {
        lemma_outcome_prefix(assignments, first, second, (n - 1) as nat);
        assert(first[n - 1] == second[n - 1]);
    }
}

} // verus!
