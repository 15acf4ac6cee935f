//! The relocation engine's decisions: validating the input path against
//! the requested mode, deciding per file whether and where to move it,
//! and emitting the event stream for a whole run.
//!
//! The engine itself touches no filesystem.  The caller observes the
//! filesystem (does the input path exist and what is it, which candidate
//! destinations exist, did a rename succeed) and feeds those plain
//! observations in; every decision taken on them is verified here.

use vstd::prelude::*;

use crate::events::{
    dir_message_suffix, dir_message_suffix_bytes, event_views, file_message_suffix,
    file_message_suffix_bytes, EngineError, EventView, FileEvent,
};
use crate::filter::{byte_views, normalize_extensions, is_eligible, spec_eligible, spec_normalize};
use crate::names::{
    candidate_name, copy_range, first_free, lemma_first_free_at, spec_candidate, spec_ext,
    split_file_name,
};

verus! {

/// Whether the input path names a single file or a directory tree.
#[derive(Debug, Clone, Copy, PartialEq, Eq, Structural)]
pub enum Mode {
    SingleFile,
    DirectoryTree,
}

/// One request, immutable once submitted: where to read, which
/// extensions to admit, where to move.  Paths are byte strings.
#[derive(Debug, Clone)]
pub struct RelocationRequest {
    pub input_path: Vec<u8>,
    pub output_path: Vec<u8>,
    pub extensions: Vec<u8>,
    pub mode: Mode,
}

/// A destination path: the output directory joined with a base name.
/// Byte 47 is `/`.
pub open spec fn spec_join(dir: Seq<u8>, name: Seq<u8>) -> Seq<u8> {
    if dir.len() == 0 {
        name
    } else if dir.last() == 47 {
        dir + name
    } else {
        dir + seq![47u8] + name
    }
}

/// Joins the output directory with a base name.
pub fn join_path(dir: &Vec<u8>, name: &Vec<u8>) -> (r: Vec<u8>)
    ensures
        r@ == spec_join(dir@, name@),
{
    let mut out = copy_range(dir, 0, dir.len());
    proof {
        assert(dir@.subrange(0, dir@.len() as int) =~= dir@);
    }
    if dir.len() > 0 && dir[dir.len() - 1] != 47 {
        out.push(47);
    }
    let mut i: usize = 0;
    let ghost prefix = out@;
    while i < name.len()
        invariant
            i <= name.len(),
            out@ == prefix + name@.subrange(0, i as int),
        decreases name.len() - i,
    {
        out.push(name[i]);
        i = i + 1;
        proof {
            assert(out@ =~= prefix + name@.subrange(0, i as int));
        }
    }
    proof {
        assert(prefix + name@.subrange(0, name@.len() as int) =~= spec_join(dir@, name@));
    }
    out
}

/// Whether the input path fits the requested mode: a regular file for
/// `SingleFile`, a directory for `DirectoryTree`.
pub open spec fn spec_input_ok(mode: Mode, input_is_file: bool, input_is_dir: bool) -> bool {
    match mode {
        Mode::SingleFile => input_is_file,
        Mode::DirectoryTree => input_is_dir,
    }
}

/// The message of the event emitted when the input path fails validation.
pub open spec fn spec_invalid_message(mode: Mode, input_path: Seq<u8>) -> Seq<u8> {
    match mode {
        Mode::SingleFile => input_path + file_message_suffix(),
        Mode::DirectoryTree => input_path + dir_message_suffix(),
    }
}

/// Checks the input path against the mode.  A mismatch yields the
/// `InvalidInput` event to emit and the error the run ends with.
pub fn validate_input(
    mode: Mode,
    input_path: &Vec<u8>,
    input_is_file: bool,
    input_is_dir: bool,
) -> (r: Option<(FileEvent, EngineError)>)
    ensures
        r is None <==> spec_input_ok(mode, input_is_file, input_is_dir),
        r matches Some(p) ==> p.0@ == (EventView::InvalidInput {
            message: spec_invalid_message(mode, input_path@),
        }) && p.1 == EngineError::InvalidInput,
{
    let ok = match mode {
        Mode::SingleFile => input_is_file,
        Mode::DirectoryTree => input_is_dir,
    };
    if ok {
        None
    } else {
        let mut message = copy_range(input_path, 0, input_path.len());
        proof {
            assert(input_path@.subrange(0, input_path@.len() as int) =~= input_path@);
        }
        let suffix = match mode {
            Mode::SingleFile => file_message_suffix_bytes(),
            Mode::DirectoryTree => dir_message_suffix_bytes(),
        };
        let mut i: usize = 0;
        while i < suffix.len()
            invariant
                i <= suffix.len(),
                message@ == input_path@ + suffix@.subrange(0, i as int),
        decreases suffix.len() - i,
        {
            message.push(suffix[i]);
            i = i + 1;
            proof {
                assert(message@ =~= input_path@ + suffix@.subrange(0, i as int));
            }
        }
        proof {
            assert(input_path@ + suffix@.subrange(0, suffix@.len() as int) =~= input_path@
                + suffix@);
        }
        Some((FileEvent::InvalidInput { message }, EngineError::InvalidInput))
    }
}

/// The extension of an optional base name; a missing name has none.
pub open spec fn spec_name_ext(name: Option<Seq<u8>>) -> Option<Seq<u8>> {
    match name {
        Some(n) => spec_ext(n),
        None => None,
    }
}

/// What the engine decides to do with one traversed file.
#[derive(Debug, Clone, Copy, PartialEq, Eq, Structural)]
pub enum FilePlan {
    /// The file fails the extension filter: silently passed over.
    Ineligible,
    /// The file is eligible but its base name could not be determined:
    /// a `SkippedInvalidName` event, and no move.
    InvalidName,
    /// The file is to be moved, under the first free candidate name.
    Move,
}

/// The decision taken for one file with the given optional base name.
pub open spec fn spec_plan(filter: Seq<Seq<u8>>, name: Option<Seq<u8>>) -> FilePlan {
    if !spec_eligible(filter, spec_name_ext(name)) {
        FilePlan::Ineligible
    } else if name is None {
        FilePlan::InvalidName
    } else {
        FilePlan::Move
    }
}

/// Decides what to do with one file: pass it over when it fails the
/// filter, report an undeterminable base name, or move it.
pub fn plan_file(filter: &Vec<Vec<u8>>, name: Option<&Vec<u8>>) -> (r: FilePlan)
    ensures
        r == spec_plan(
            byte_views(filter@),
            match name {
                Some(n) => Some(n@),
                None => None,
            },
        ),
{
    match name {
        None => {
            if is_eligible(filter, None) {
                FilePlan::InvalidName
            } else {
                FilePlan::Ineligible
            }
        },
        Some(n) => {
            let (_stem, ext) = split_file_name(n);
            let eligible = match &ext {
                Some(x) => is_eligible(filter, Some(x)),
                None => is_eligible(filter, None),
            };
            if eligible {
                FilePlan::Move
            } else {
                FilePlan::Ineligible
            }
        },
    }
}

/// A probe for a free destination name: candidate 0 is the base name
/// itself, and candidate `n` carries the counter suffix `_{n}`.
pub struct Probe {
    pub name: Vec<u8>,
    pub counter: u64,
}

impl Probe {
    /// Starts probing for the given base name.
    pub fn new(name: Vec<u8>) -> (p: Probe)
        ensures
            p.name@ == name@,
            p.counter == 0,
    {
        Probe { name, counter: 0 }
    }

    /// The candidate destination name at the current counter.
    pub fn candidate(&self) -> (c: Vec<u8>)
        ensures
            c@ == spec_candidate(self.name@, self.counter as nat),
    {
        candidate_name(&self.name, self.counter)
    }

    /// Moves to the next candidate after the current one was observed
    /// to exist.
    pub fn advance(&mut self)
        requires
            old(self).counter < u64::MAX,
        ensures
            final(self).name@ == old(self).name@,
            final(self).counter == old(self).counter + 1,
    {
        self.counter = self.counter + 1;
    }
}

/// Resolves the destination for one file from a sequence of existence
/// observations: `obs[k]` says whether candidate `k` already existed.
/// The result is the first free counter and its candidate name, or
/// nothing when every probed candidate existed.
pub fn resolve_destination(name: &Vec<u8>, obs: &Vec<bool>) -> (r: Option<(u64, Vec<u8>)>)
    ensures
        r matches Some(p) ==> first_free(obs@) < obs@.len() && p.0 as int == first_free(obs@)
            && p.1@ == spec_candidate(name@, p.0 as nat),
        r is None ==> first_free(obs@) == obs@.len(),
{
    let mut i: usize = 0;
    while i < obs.len()
        invariant
            i <= obs.len(),
            forall|m: int| 0 <= m < i ==> obs@[m],
        decreases obs.len() - i,
    {
        if !obs[i] {
            proof {
                lemma_first_free_at(obs@, i as int);
            }
            let c = candidate_name(name, i as u64);
            return Some((i as u64, c));
        }
        i = i + 1;
    }
    proof {
        lemma_first_free_at(obs@, obs@.len() as int);
    }
    None
}

/// The single outcome event for a file whose move was attempted.
pub fn move_outcome(src: Vec<u8>, dst: Vec<u8>, rename_ok: bool, error_message: Vec<u8>) -> (e:
    FileEvent)
    ensures
        rename_ok ==> e@ == (EventView::Moved { src: src@, dst: dst@ }),
        !rename_ok ==> e@ == (EventView::MoveError { src: src@, message: error_message@ }),
{
    if rename_ok {
        FileEvent::Moved { src, dst }
    } else {
        FileEvent::MoveError { src, message: error_message }
    }
}

/// What the caller observed of one traversed file: its path, its base
/// name if one could be determined, the existence observations of the
/// probed candidates, and how the rename went.
pub struct FileObs {
    pub src_path: Vec<u8>,
    pub name: Option<Vec<u8>>,
    pub probes: Vec<bool>,
    pub rename_ok: bool,
    pub rename_error: Vec<u8>,
}

/// The mathematical shape of a `FileObs`.
pub struct FileObsView {
    pub src_path: Seq<u8>,
    pub name: Option<Seq<u8>>,
    pub probes: Seq<bool>,
    pub rename_ok: bool,
    pub rename_error: Seq<u8>,
}

impl View for FileObs {
    type V = FileObsView;

    open spec fn view(&self) -> FileObsView {
        FileObsView {
            src_path: self.src_path@,
            name: match self.name {
                Some(n) => Some(n@),
                None => None,
            },
            probes: self.probes@,
            rename_ok: self.rename_ok,
            rename_error: self.rename_error@,
        }
    }
}

/// The views of a sequence of file observations.
pub open spec fn obs_views(s: Seq<FileObs>) -> Seq<FileObsView> {
    s.map_values(|f: FileObs| f@)
}

/// The events one file contributes: none when it fails the filter, one
/// skip report when its name is missing, and otherwise exactly one
/// move outcome, with the destination resolved at the first free
/// candidate.
pub open spec fn spec_events_for(filter: Seq<Seq<u8>>, out_dir: Seq<u8>, f: FileObsView) -> Seq<
    EventView,
> {
    if !spec_eligible(filter, spec_name_ext(f.name)) {
        Seq::empty()
    } else {
        match f.name {
            None => seq![EventView::SkippedInvalidName { src: f.src_path }],
            Some(n) => {
                let dst = spec_join(out_dir, spec_candidate(n, first_free(f.probes) as nat));
                if f.rename_ok {
                    seq![EventView::Moved { src: f.src_path, dst }]
                } else {
                    seq![EventView::MoveError { src: f.src_path, message: f.rename_error }]
                }
            },
        }
    }
}

/// The events of a whole traversal, in traversal order.
pub open spec fn spec_file_events(
    filter: Seq<Seq<u8>>,
    out_dir: Seq<u8>,
    files: Seq<FileObsView>,
) -> Seq<EventView>
    decreases files.len(),
{
    if files.len() == 0 {
        Seq::empty()
    } else {
        spec_file_events(filter, out_dir, files.drop_last()) + spec_events_for(
            filter,
            out_dir,
            files.last(),
        )
    }
}

/// The full event stream of a run that passed validation: the per-file
/// events followed by the one `Completed` marker.
pub open spec fn spec_run_events(
    filter: Seq<Seq<u8>>,
    out_dir: Seq<u8>,
    files: Seq<FileObsView>,
) -> Seq<EventView> {
    spec_file_events(filter, out_dir, files) + seq![EventView::Completed]
}

/// An observation record is well formed when the probes of a file that
/// was actually probed end in a free candidate: the caller's probe loop
/// only stops once an existence check comes back negative.
pub open spec fn obs_wf(filter: Seq<Seq<u8>>, f: FileObsView) -> bool {
    spec_eligible(filter, spec_name_ext(f.name)) && f.name is Some ==> first_free(f.probes)
        < f.probes.len()
}

proof fn lemma_file_events_snoc(filter: Seq<Seq<u8>>, out_dir: Seq<u8>, files: Seq<FileObsView>)
    requires
        files.len() > 0,
    ensures
        spec_file_events(filter, out_dir, files) == spec_file_events(
            filter,
            out_dir,
            files.drop_last(),
        ) + spec_events_for(filter, out_dir, files.last()),
{
}

/// Whether `e` is the move outcome (success or failure) for the file
/// at source path `src`.
pub open spec fn is_outcome_for(e: EventView, src: Seq<u8>) -> bool {
    match e {
        EventView::Moved { src: s, dst } => s == src,
        EventView::MoveError { src: s, message } => s == src,
        _ => false,
    }
}

/// How many move outcomes a stream holds for the file at `src`.
pub open spec fn count_outcomes(evs: Seq<EventView>, src: Seq<u8>) -> nat
    decreases evs.len(),
{
    if evs.len() == 0 {
        0
    } else {
        count_outcomes(evs.drop_last(), src) + (if is_outcome_for(evs.last(), src) {
            1nat
        } else {
            0nat
        })
    }
}

proof fn lemma_count_outcomes_add(a: Seq<EventView>, b: Seq<EventView>, src: Seq<u8>)
    ensures
        count_outcomes(a + b, src) == count_outcomes(a, src) + count_outcomes(b, src),
    decreases b.len(),
{
    if b.len() == 0 {
        assert(a + b =~= a);
    } else {
        lemma_count_outcomes_add(a, b.drop_last(), src);
        assert((a + b).drop_last() =~= a + b.drop_last());
        assert((a + b).last() == b.last());
    }
}

proof fn lemma_count_events_for(filter: Seq<Seq<u8>>, out_dir: Seq<u8>, f: FileObsView, src: Seq<u8>)
    ensures
        count_outcomes(spec_events_for(filter, out_dir, f), src) == (
        if spec_eligible(filter, spec_name_ext(f.name)) && f.name is Some && f.src_path == src {
            1nat
        } else {
            0nat
        }),
{
    let evs = spec_events_for(filter, out_dir, f);
    if !spec_eligible(filter, spec_name_ext(f.name)) {
        assert(count_outcomes(evs, src) == 0);
    } else {
        assert(evs.len() == 1);
        assert(evs.drop_last() =~= Seq::<EventView>::empty());
        assert(count_outcomes(evs.drop_last(), src) == 0);
        match f.name {
            None => {
                assert(!is_outcome_for(evs.last(), src));
            },
            Some(n) => {
                assert(is_outcome_for(evs.last(), src) == (f.src_path == src));
            },
        }
    }
}

proof fn lemma_no_outcome_for_absent(
    filter: Seq<Seq<u8>>,
    out_dir: Seq<u8>,
    files: Seq<FileObsView>,
    src: Seq<u8>,
)
    requires
        forall|j: int| 0 <= j < files.len() ==> (#[trigger] files[j]).src_path != src,
    ensures
        count_outcomes(spec_file_events(filter, out_dir, files), src) == 0,
    decreases files.len(),
{
    if files.len() > 0 {
        lemma_no_outcome_for_absent(filter, out_dir, files.drop_last(), src);
        lemma_count_events_for(filter, out_dir, files.last(), src);
        lemma_count_outcomes_add(
            spec_file_events(filter, out_dir, files.drop_last()),
            spec_events_for(filter, out_dir, files.last()),
            src,
        );
    }
}

/// Exactly one move outcome is emitted for each eligible file whose
/// base name could be determined — `Moved` when its rename succeeded,
/// `MoveError` when it failed — and none for any other file, provided
/// the traversed source paths are distinct.
pub proof fn lemma_one_outcome_per_file(
    filter: Seq<Seq<u8>>,
    out_dir: Seq<u8>,
    files: Seq<FileObsView>,
    i: int,
)
    requires
        0 <= i < files.len(),
        forall|j: int, k: int|
            0 <= j < files.len() && 0 <= k < files.len() && j != k ==> (#[trigger] files[j]).src_path
                != (#[trigger] files[k]).src_path,
    ensures
        spec_eligible(filter, spec_name_ext(files[i].name)) && files[i].name is Some
            ==> count_outcomes(spec_file_events(filter, out_dir, files), files[i].src_path) == 1,
        !(spec_eligible(filter, spec_name_ext(files[i].name)) && files[i].name is Some)
            ==> count_outcomes(spec_file_events(filter, out_dir, files), files[i].src_path) == 0,
    decreases files.len(),
{
    let src = files[i].src_path;
    lemma_count_events_for(filter, out_dir, files.last(), src);
    lemma_count_outcomes_add(
        spec_file_events(filter, out_dir, files.drop_last()),
        spec_events_for(filter, out_dir, files.last()),
        src,
    );
    if i == files.len() - 1 {
        assert(forall|j: int|
            0 <= j < files.drop_last().len() ==> (#[trigger] files.drop_last()[j]).src_path
                != src);
        lemma_no_outcome_for_absent(filter, out_dir, files.drop_last(), src);
    } else {
        assert(files.last().src_path != src);
        lemma_one_outcome_per_file(filter, out_dir, files.drop_last(), i);
    }
}

proof fn lemma_no_completed_in_file_events(
    filter: Seq<Seq<u8>>,
    out_dir: Seq<u8>,
    files: Seq<FileObsView>,
)
    ensures
        forall|i: int|
            0 <= i < spec_file_events(filter, out_dir, files).len() ==> !(#[trigger] spec_file_events(
                filter,
                out_dir,
                files,
            )[i] is Completed),
    decreases files.len(),
{
    if files.len() > 0 {
        lemma_no_completed_in_file_events(filter, out_dir, files.drop_last());
    }
}

/// `Completed` is emitted exactly once per run that passes validation,
/// and always last: it closes the stream, and no earlier event is one.
pub proof fn lemma_completed_once_and_last(
    filter: Seq<Seq<u8>>,
    out_dir: Seq<u8>,
    files: Seq<FileObsView>,
)
    ensures
        spec_run_events(filter, out_dir, files).len() >= 1,
        spec_run_events(filter, out_dir, files).last() is Completed,
        forall|i: int|
            0 <= i < spec_run_events(filter, out_dir, files).len() - 1 ==> !(
            #[trigger] spec_run_events(filter, out_dir, files)[i] is Completed),
{
    lemma_no_completed_in_file_events(filter, out_dir, files);
    assert(forall|i: int|
        0 <= i < spec_run_events(filter, out_dir, files).len() - 1 ==> spec_run_events(
            filter,
            out_dir,
            files,
        )[i] == spec_file_events(filter, out_dir, files)[i]);
}

/// Replays a whole run from the caller's observations: the outcome of
/// creating the output directory, what the input path turned out to be,
/// and one record per traversed file.  Returns the event stream, in
/// emission order, and the run's result.
pub fn relocate_events(
    req: &RelocationRequest,
    mkdir_ok: bool,
    input_is_file: bool,
    input_is_dir: bool,
    files: &Vec<FileObs>,
) -> (r: (Vec<FileEvent>, Result<(), EngineError>))
    requires
        mkdir_ok && spec_input_ok(req.mode, input_is_file, input_is_dir) ==> forall|i: int|
            0 <= i < files@.len() ==> obs_wf(spec_normalize(req.extensions@), #[trigger] files@[i]@),
    ensures
        !mkdir_ok ==> event_views(r.0@) == Seq::<EventView>::empty() && r.1 == Err::<
            (),
            EngineError,
        >(EngineError::Io),
        mkdir_ok && !spec_input_ok(req.mode, input_is_file, input_is_dir) ==> event_views(r.0@)
            == seq![
            (EventView::InvalidInput { message: spec_invalid_message(req.mode, req.input_path@) }),
        ] && r.1 == Err::<(), EngineError>(EngineError::InvalidInput),
        mkdir_ok && spec_input_ok(req.mode, input_is_file, input_is_dir) ==> event_views(r.0@)
            == spec_run_events(spec_normalize(req.extensions@), req.output_path@, obs_views(files@))
            && r.1 == Ok::<(), EngineError>(()),
{
    let mut events: Vec<FileEvent> = Vec::new();
    if !mkdir_ok {
        proof {
            assert(event_views(events@) =~= Seq::<EventView>::empty());
        }
        return (events, Err(EngineError::Io));
    }
    match validate_input(req.mode, &req.input_path, input_is_file, input_is_dir) {
        Some(pair) => {
            let ghost pv = pair.0@;
            events.push(pair.0);
            proof {
                assert(event_views(events@) =~= seq![pv]);
            }
            return (events, Err(pair.1));
        },
        None => {},
    }
    let filter = normalize_extensions(&req.extensions);
    let ghost nf = spec_normalize(req.extensions@);
    let ghost out_dir = req.output_path@;
    proof {
        assert(obs_views(files@.take(0)) =~= Seq::<FileObsView>::empty());
        assert(event_views(events@) =~= spec_file_events(nf, out_dir, obs_views(files@.take(0))));
    }
    let mut idx: usize = 0;
    while idx < files.len()
        invariant
            idx <= files.len(),
            byte_views(filter@) == nf,
            nf == spec_normalize(req.extensions@),
            out_dir == req.output_path@,
            forall|i: int| 0 <= i < files@.len() ==> obs_wf(nf, #[trigger] files@[i]@),
            event_views(events@) == spec_file_events(nf, out_dir, obs_views(files@.take(idx as int))),
        decreases files.len() - idx,
    {
        let file = &files[idx];
        let ghost fv = file@;
        proof {
            assert(obs_wf(nf, files@[idx as int]@));
        }
        let plan = plan_file(&filter, file.name.as_ref());
        match plan {
            FilePlan::Ineligible => {
                proof {
                    assert(spec_events_for(nf, out_dir, fv) =~= Seq::<EventView>::empty());
                }
            },
            FilePlan::InvalidName => {
                let src = copy_range(&file.src_path, 0, file.src_path.len());
                proof {
                    assert(file.src_path@.subrange(0, file.src_path@.len() as int)
                        =~= file.src_path@);
                }
                events.push(FileEvent::SkippedInvalidName { src });
            },
            FilePlan::Move => {
                match &file.name {
                    Some(n) => {
                        match resolve_destination(n, &file.probes) {
                            Some(resolved) => {
                                let dst = join_path(&req.output_path, &resolved.1);
                                let src = copy_range(&file.src_path, 0, file.src_path.len());
                                let err = copy_range(
                                    &file.rename_error,
                                    0,
                                    file.rename_error.len(),
                                );
                                proof {
                                    assert(file.src_path@.subrange(
                                        0,
                                        file.src_path@.len() as int,
                                    ) =~= file.src_path@);
                                    assert(file.rename_error@.subrange(
                                        0,
                                        file.rename_error@.len() as int,
                                    ) =~= file.rename_error@);
                                }
                                let ev = move_outcome(src, dst, file.rename_ok, err);
                                events.push(ev);
                            },
                            None => {
                                // Ruled out: a well-formed record of an
                                // eligible named file ends its probes free.
                                proof {
                                    assert(false);
                                }
                            },
                        }
                    },
                    None => {
                        proof {
                            assert(false);
                        }
                    },
                }
            },
        }
        idx = idx + 1;
        proof {
            let taken = obs_views(files@.take(idx as int));
            assert(taken.drop_last() =~= obs_views(files@.take(idx - 1)));
            assert(taken.last() == fv);
            lemma_file_events_snoc(nf, out_dir, taken);
            assert(event_views(events@) =~= spec_file_events(nf, out_dir, taken));
        }
    }
    proof {
        assert(files@.take(files@.len() as int) =~= files@);
    }
    events.push(FileEvent::Completed);
    proof {
        assert(event_views(events@) =~= spec_run_events(nf, out_dir, obs_views(files@)));
    }
    (events, Ok(()))
}

} // verus!
