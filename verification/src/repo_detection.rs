//! Detecting the reference repositories of a document.
//!
//! Candidates come from the links of the document or from a web search, and a
//! verifier may have judged them. Unofficial ones are dropped unless the
//! workspace accepts them.

use vstd::prelude::*;

use crate::tasks::{
    cat, mark, parse_uuid, progress_views, uuid_reading, FailureKind, Progress, TaskFailure,
};
use crate::text::chars_of;

verus! {

broadcast use vstd::string::group_string_axioms;

/// What the verifier says of a candidate.
#[derive(Clone, Copy, Debug, PartialEq, Eq, Structural)]
pub enum VerificationVerdict {
    Official,
    ThirdParty,
    Unrelated,
    Inconclusive,
}

/// Where a candidate comes from.
#[derive(Clone, Copy, Debug, PartialEq, Eq, Structural)]
pub enum DetectionLayer {
    /// The links of the document.
    Links,
    /// A web search.
    WebSearch,
}

/// A repository that may be the reference implementation.
#[derive(Clone, Copy, Debug, PartialEq, Eq, Structural)]
pub struct RepoCandidate {
    pub layer: DetectionLayer,
    /// Nothing if the verifier could not judge it.
    pub verdict: Option<VerificationVerdict>,
}

/// A candidate is kept: it is not known to be unofficial, or that is accepted.
pub open spec fn keeps(c: RepoCandidate, accept_unofficial: bool) -> bool {
    accept_unofficial || !(c.verdict == Some(VerificationVerdict::ThirdParty) || c.verdict == Some(
        VerificationVerdict::Unrelated,
    ))
}

/// The places of the candidates that are kept.
pub open spec fn kept_places(all: Seq<RepoCandidate>, accept_unofficial: bool) -> Seq<usize>
    decreases all.len(),
{
    if all.len() == 0 {
        Seq::empty()
    } else {
        let before = kept_places(all.drop_last(), accept_unofficial);
        if keeps(all.last(), accept_unofficial) {
            before.push((all.len() - 1) as usize)
        } else {
            before
        }
    }
}

/// The places of the candidates that are kept, in order.
pub fn retained_candidates(all: &Vec<RepoCandidate>, accept_unofficial: bool) -> (r: Vec<usize>)
    ensures
        r@ == kept_places(all@, accept_unofficial),
        forall|k: int| 0 <= k < r@.len() ==> #[trigger] r@[k] < all@.len(),
{
    let mut r: Vec<usize> = Vec::new();
    let mut i: usize = 0;
    assert(all@.take(0) =~= Seq::<RepoCandidate>::empty());
    while i < all.len()
        invariant
            i <= all@.len(),
            r@ == kept_places(all@.take(i as int), accept_unofficial),
            forall|k: int| 0 <= k < r@.len() ==> #[trigger] r@[k] < i,
        decreases all.len() - i,
    {
        assert(all@.take(i + 1).drop_last() =~= all@.take(i as int));
        let c = all[i];
        let unofficial = match c.verdict {
            Some(v) => v == VerificationVerdict::ThirdParty || v == VerificationVerdict::Unrelated,
            None => false,
        };
        if accept_unofficial || !unofficial {
            r.push(i);
        }
        i = i + 1;
    }
    assert(all@.take(i as int) =~= all@);
    r
}

/// A candidate is kept exactly if its place is among those kept.
pub proof fn law_kept_exactly(all: Seq<RepoCandidate>, accept_unofficial: bool, i: int)
    requires
        all.len() <= usize::MAX,
        0 <= i < all.len(),
    ensures
        keeps(all[i], accept_unofficial) <==> kept_places(all, accept_unofficial).contains(
            i as usize,
        ),
    decreases all.len(),
{
    let front = all.drop_last();
    let before = kept_places(front, accept_unofficial);
    let n = all.len() - 1;
    lemma_places_below(front, accept_unofficial);
    if i < n {
        law_kept_exactly(front, accept_unofficial, i);
        if keeps(all.last(), accept_unofficial) {
            let after = before.push(n as usize);
            if before.contains(i as usize) {
                let k = choose|k: int| 0 <= k < before.len() && before[k] == i as usize;
                assert(after[k] == i as usize);
            }
            if after.contains(i as usize) {
                let k = choose|k: int| 0 <= k < after.len() && after[k] == i as usize;
                assert(k < before.len());
                assert(before[k] == i as usize);
            }
        }
    } else if keeps(all.last(), accept_unofficial) {
        assert(kept_places(all, accept_unofficial)[before.len() as int] == n as usize);
    }
}

proof fn lemma_places_below(all: Seq<RepoCandidate>, accept_unofficial: bool)
    requires
        all.len() <= usize::MAX,
    ensures
        forall|k: int|
            0 <= k < kept_places(all, accept_unofficial).len() ==> #[trigger] kept_places(
                all,
                accept_unofficial,
            )[k] < all.len(),
    decreases all.len(),
{
    if all.len() > 0 {
        lemma_places_below(all.drop_last(), accept_unofficial);
        let before = kept_places(all.drop_last(), accept_unofficial);
        let after = kept_places(all, accept_unofficial);
        assert forall|k: int| 0 <= k < after.len() implies #[trigger] after[k] < all.len() by {
            if k < before.len() {
                assert(after[k] == before[k]);
            }
        }
    }
}

/// How many of the kept candidates come from a layer.
pub open spec fn layer_count(
    all: Seq<RepoCandidate>,
    kept: Seq<usize>,
    layer: DetectionLayer,
) -> nat
    decreases kept.len(),
{
    if kept.len() == 0 {
        0
    } else {
        layer_count(all, kept.drop_last(), layer) + (if all[kept.last() as int].layer == layer {
            1nat
        } else {
            0nat
        })
    }
}

fn count_layer(all: &Vec<RepoCandidate>, kept: &Vec<usize>, layer: DetectionLayer) -> (r: usize)
    requires
        forall|k: int| 0 <= k < kept@.len() ==> #[trigger] kept@[k] < all@.len(),
    ensures
        r == layer_count(all@, kept@, layer),
{
    let mut r: usize = 0;
    let mut i: usize = 0;
    assert(kept@.take(0) =~= Seq::<usize>::empty());
    while i < kept.len()
        invariant
            i <= kept@.len(),
            r <= i,
            r == layer_count(all@, kept@.take(i as int), layer),
            forall|k: int| 0 <= k < kept@.len() ==> #[trigger] kept@[k] < all@.len(),
        decreases kept.len() - i,
    {
        assert(kept@.take(i + 1).drop_last() =~= kept@.take(i as int));
        if all[kept[i]].layer == layer {
            r = r + 1;
        }
        i = i + 1;
    }
    assert(kept@.take(i as int) =~= kept@);
    r
}

/// The address of an optional service: where none is set, one at which nobody
/// answers.
pub fn service_url(setting: Option<&str>) -> (r: String)
    ensures
        r@ == (match setting {
            Some(s) => if s@.len() > 0 {
                s@
            } else {
                "http://localhost:0"@
            },
            None => "http://localhost:0"@,
        }),
{
    if let Some(s) = setting {
        if chars_of(s).len() > 0 {
            return s.to_owned();
        }
    }
    "http://localhost:0".to_owned()
}

// ---------------------------------------------------------------------------
// The task
// ---------------------------------------------------------------------------

/// Where the task stands.
#[derive(Clone, Copy, Debug, PartialEq, Eq, Structural)]
pub enum DetectStage {
    Entering,
    LoadingPdf,
    OpeningStorage,
    MarkingRunning,
    Detecting,
    RecordingFailure,
    Persisting,
    MarkingComplete,
    Finished,
    Failed,
    Cancelled,
}

/// What came of loading a PDF.
#[derive(Clone, Debug)]
pub enum PdfLoad {
    NoStorage,
    Failed { error: String },
    Missing,
    Loaded,
}

/// The task of detecting the repositories of a document, on its own or as part
/// of reading the document.
#[derive(Clone, Debug)]
pub struct DetectRun {
    /// Whether the task stands on its own.
    pub own_task: bool,
    pub stage: DetectStage,
    pub candidates: Vec<RepoCandidate>,
    /// The places of the candidates that are kept.
    pub kept: Vec<usize>,
    /// What ends the task once it is recorded.
    pub kind: FailureKind,
    pub complaint: String,
}

/// What happened outside.
#[derive(Debug)]
pub enum DetectEvent {
    Gate { cancelled: bool },
    PdfLoaded { load: PdfLoad },
    StorageOpened { error: Option<String> },
    /// The run was marked, or could not be.
    RunningMarked,
    /// What was detected, and whether unofficial candidates are accepted.
    Detected { candidates: Result<Vec<RepoCandidate>, String>, accept_unofficial: bool },
    /// The failure was recorded, or could not be.
    FailureRecorded,
    Persisted { error: Option<String> },
    /// The run was marked, or could not be.
    CompleteMarked,
}

/// What to do next.
#[derive(Clone, Debug)]
pub enum DetectTodo {
    LoadPdf { id: u128 },
    OpenStorage,
    MarkRunning,
    Detect,
    RecordFailure { error: String },
    Persist,
    MarkComplete { links: usize, web_search: usize },
    Finish { total: usize, links: usize, web_search: usize },
    Fail { failure: TaskFailure },
    Cancel,
}

/// What to report, and what to do next.
#[derive(Clone, Debug)]
pub struct DetectDirective {
    pub progress: Vec<Progress>,
    pub todo: DetectTodo,
}

impl DetectRun {
    /// The task can be in this state.
    pub open spec fn wf(self) -> bool {
        &&& self.stage == DetectStage::Entering || self.stage == DetectStage::LoadingPdf
            ==> self.own_task
        &&& forall|k: int|
            0 <= k < self.kept@.len() ==> #[trigger] self.kept@[k] < self.candidates@.len()
    }

    /// The event can happen in this state.
    pub open spec fn expects(self, event: DetectEvent) -> bool {
        match event {
            DetectEvent::Gate { .. } => self.stage == DetectStage::Entering,
            DetectEvent::PdfLoaded { .. } => self.stage == DetectStage::LoadingPdf,
            DetectEvent::StorageOpened { .. } => self.stage == DetectStage::OpeningStorage,
            DetectEvent::RunningMarked => self.stage == DetectStage::MarkingRunning,
            DetectEvent::Detected { .. } => self.stage == DetectStage::Detecting,
            DetectEvent::FailureRecorded => self.stage == DetectStage::RecordingFailure,
            DetectEvent::Persisted { .. } => self.stage == DetectStage::Persisting,
            DetectEvent::CompleteMarked => self.stage == DetectStage::MarkingComplete,
        }
    }

    /// The failure that an event causes at once: its sort and what it says.
    pub open spec fn fault(self, pdf_id: Option<Seq<char>>, event: DetectEvent) -> Option<
        (FailureKind, Seq<char>),
    > {
        match event {
            DetectEvent::Gate { cancelled: false } => match pdf_id {
                Some(id) => match uuid_reading(id) {
                    Err(e) => Some((FailureKind::Process, "Invalid pdf_id: "@ + e)),
                    Ok(_) => None,
                },
                None => None,
            },
            DetectEvent::PdfLoaded { load } => match load {
                PdfLoad::NoStorage => Some((FailureKind::Process, "PDF storage not available"@)),
                PdfLoad::Failed { error } => Some(
                    (FailureKind::Process, "Failed to fetch PDF: "@ + error@),
                ),
                PdfLoad::Missing => Some(
                    (
                        FailureKind::NotFound,
                        "PDF not found: "@ + (match pdf_id {
                            Some(id) => id,
                            None => Seq::empty(),
                        }),
                    ),
                ),
                PdfLoad::Loaded => None,
            },
            DetectEvent::StorageOpened { error: Some(e) } => Some(
                (FailureKind::Process, "repo storage: "@ + e@),
            ),
            DetectEvent::FailureRecorded => Some((self.kind, self.complaint@)),
            _ => None,
        }
    }

    /// Where the task stands after an event.
    pub open spec fn stage_after(self, pdf_id: Option<Seq<char>>, event: DetectEvent) -> DetectStage {
        if self.fault(pdf_id, event) is Some {
            DetectStage::Failed
        } else {
            match event {
                DetectEvent::Gate { cancelled } => if cancelled {
                    DetectStage::Cancelled
                } else if pdf_id is Some {
                    DetectStage::LoadingPdf
                } else {
                    DetectStage::OpeningStorage
                },
                DetectEvent::PdfLoaded { .. } => DetectStage::OpeningStorage,
                DetectEvent::StorageOpened { .. } => DetectStage::MarkingRunning,
                DetectEvent::RunningMarked => DetectStage::Detecting,
                DetectEvent::Detected { candidates, .. } => if candidates is Ok {
                    DetectStage::Persisting
                } else {
                    DetectStage::RecordingFailure
                },
                DetectEvent::FailureRecorded => DetectStage::Failed,
                DetectEvent::Persisted { error } => if error is Some {
                    DetectStage::RecordingFailure
                } else {
                    DetectStage::MarkingComplete
                },
                DetectEvent::CompleteMarked => DetectStage::Finished,
            }
        }
    }

    /// What the task knows after an event.
    pub open spec fn follows(
        self,
        pdf_id: Option<Seq<char>>,
        event: DetectEvent,
        next: DetectRun,
    ) -> bool {
        &&& next.own_task == self.own_task
        &&& next.stage == self.stage_after(pdf_id, event)
        &&& match event {
            DetectEvent::Detected { candidates: Ok(v), accept_unofficial } => next.candidates@
                == v@ && next.kept@ == kept_places(v@, accept_unofficial),
            _ => next.candidates@ == self.candidates@ && next.kept@ == self.kept@,
        }
        &&& match event {
            DetectEvent::Detected { candidates: Err(e), .. } => next.kind == FailureKind::Process
                && next.complaint@ == "repo detection failed: "@ + e@,
            DetectEvent::Persisted { error: Some(e) } => next.kind == FailureKind::Storage
                && next.complaint@ == "persist candidates: "@ + e@,
            _ => next.kind == self.kind && next.complaint@ == self.complaint@,
        }
    }

    pub open spec fn links(self) -> nat {
        layer_count(self.candidates@, self.kept@, DetectionLayer::Links)
    }

    pub open spec fn web_search(self) -> nat {
        layer_count(self.candidates@, self.kept@, DetectionLayer::WebSearch)
    }

    /// What to do after an event.
    pub open spec fn orders(
        self,
        pdf_id: Option<Seq<char>>,
        event: DetectEvent,
        todo: DetectTodo,
    ) -> bool {
        match self.stage_after(pdf_id, event) {
            DetectStage::Entering => false,
            DetectStage::LoadingPdf => pdf_id matches Some(text) && todo matches DetectTodo::LoadPdf {
                id,
            } && uuid_reading(text) == Ok::<u128, Seq<char>>(id),
            DetectStage::OpeningStorage => todo is OpenStorage,
            DetectStage::MarkingRunning => todo is MarkRunning,
            DetectStage::Detecting => todo is Detect,
            DetectStage::RecordingFailure => todo matches DetectTodo::RecordFailure { error }
                && match event {
                DetectEvent::Detected { candidates: Err(e), .. } => error@ == e@,
                DetectEvent::Persisted { error: Some(e) } => error@ == e@,
                _ => false,
            },
            DetectStage::Persisting => todo is Persist,
            DetectStage::MarkingComplete => todo matches DetectTodo::MarkComplete {
                links,
                web_search,
            } && links == self.links() && web_search == self.web_search(),
            DetectStage::Finished => todo matches DetectTodo::Finish { total, links, web_search }
                && total == self.kept@.len() && links == self.links() && web_search
                == self.web_search(),
            DetectStage::Failed => todo matches DetectTodo::Fail { failure } && self.fault(
                pdf_id,
                event,
            ) matches Some((kind, message)) && failure.says(kind, message),
            DetectStage::Cancelled => todo is Cancel,
        }
    }

    /// The progress that is reported after an event. Only a task of its own
    /// reports any.
    pub open spec fn progress_after(self, event: DetectEvent) -> Seq<(Seq<char>, u32, u8)> {
        match event {
            DetectEvent::Gate { cancelled: false } => seq![("repo_detecting"@, 1u32, 10u8)],
            DetectEvent::CompleteMarked => if self.own_task {
                seq![("completed"@, 1u32, 100u8)]
            } else {
                Seq::empty()
            },
            _ => Seq::empty(),
        }
    }

    /// A new task of its own, which first asks whether it was cancelled, or a new
    /// part of reading a document, which first opens its storage.
    pub fn new(own_task: bool) -> (r: Self)
        ensures
            r.wf(),
            r.own_task == own_task,
            r.stage == (if own_task {
                DetectStage::Entering
            } else {
                DetectStage::OpeningStorage
            }),
            r.candidates@.len() == 0,
            r.kept@.len() == 0,
            r.kind == FailureKind::Process,
            r.complaint@.len() == 0,
    {
        DetectRun {
            own_task,
            stage: if own_task {
                DetectStage::Entering
            } else {
                DetectStage::OpeningStorage
            },
            candidates: Vec::new(),
            kept: Vec::new(),
            kind: FailureKind::Process,
            complaint: String::new(),
        }
    }

    fn fail(&mut self, kind: FailureKind, message: String) -> (todo: DetectTodo)
        ensures
            *final(self) == (DetectRun { stage: DetectStage::Failed, ..*old(self) }),
            todo matches DetectTodo::Fail { failure } && failure.says(kind, message@),
    {
        self.stage = DetectStage::Failed;
        DetectTodo::Fail { failure: TaskFailure::new(kind, message) }
    }

    /// Takes in what happened and says what to report and to do next.
    pub fn step(&mut self, pdf_id: Option<&str>, event: DetectEvent) -> (d: DetectDirective)
        requires
            old(self).wf(),
            old(self).expects(event),
        ensures
            ({
                let id = match pdf_id {
                    Some(s) => Some(s@),
                    None => None,
                };
                &&& final(self).wf()
                &&& old(self).follows(id, event, *final(self))
                &&& old(self).orders(id, event, d.todo)
                &&& progress_views(d.progress@) == old(self).progress_after(event)
            }),
    {
        let nothing: Vec<Progress> = Vec::new();
        assert(progress_views(nothing@) =~= Seq::<(Seq<char>, u32, u8)>::empty());
        match event {
            DetectEvent::Gate { cancelled } => {
                if cancelled {
                    self.stage = DetectStage::Cancelled;
                    return DetectDirective { progress: nothing, todo: DetectTodo::Cancel };
                }
                let todo = match pdf_id {
                    Some(text) => match parse_uuid(text) {
                        Ok(id) => {
                            self.stage = DetectStage::LoadingPdf;
                            DetectTodo::LoadPdf { id }
                        },
                        Err(e) => self.fail(
                            FailureKind::Process,
                            cat("Invalid pdf_id: ", e.as_str()),
                        ),
                    },
                    None => {
                        self.stage = DetectStage::OpeningStorage;
                        DetectTodo::OpenStorage
                    },
                };
                DetectDirective { progress: mark("repo_detecting", 1, 10), todo }
            },
            DetectEvent::PdfLoaded { load } => {
                let todo = match &load {
                    PdfLoad::NoStorage => self.fail(
                        FailureKind::Process,
                        "PDF storage not available".to_owned(),
                    ),
                    PdfLoad::Failed { error } => self.fail(
                        FailureKind::Process,
                        cat("Failed to fetch PDF: ", error.as_str()),
                    ),
                    PdfLoad::Missing => {
                        proof {
                            reveal_strlit("");
                            assert(""@ =~= Seq::<char>::empty());
                        }
                        let id = match pdf_id {
                            Some(text) => text,
                            None => "",
                        };
                        self.fail(FailureKind::NotFound, cat("PDF not found: ", id))
                    },
                    PdfLoad::Loaded => {
                        self.stage = DetectStage::OpeningStorage;
                        DetectTodo::OpenStorage
                    },
                };
                DetectDirective { progress: nothing, todo }
            },
            DetectEvent::StorageOpened { error } => {
                let todo = match &error {
                    Some(e) => self.fail(FailureKind::Process, cat("repo storage: ", e.as_str())),
                    None => {
                        self.stage = DetectStage::MarkingRunning;
                        DetectTodo::MarkRunning
                    },
                };
                DetectDirective { progress: nothing, todo }
            },
            DetectEvent::RunningMarked => {
                self.stage = DetectStage::Detecting;
                DetectDirective { progress: nothing, todo: DetectTodo::Detect }
            },
            DetectEvent::Detected { candidates, accept_unofficial } => match candidates {
                Ok(v) => {
                    self.kept = retained_candidates(&v, accept_unofficial);
                    self.candidates = v;
                    self.stage = DetectStage::Persisting;
                    DetectDirective { progress: nothing, todo: DetectTodo::Persist }
                },
                Err(e) => {
                    self.kind = FailureKind::Process;
                    self.complaint = cat("repo detection failed: ", e.as_str());
                    self.stage = DetectStage::RecordingFailure;
                    DetectDirective {
                        progress: nothing,
                        todo: DetectTodo::RecordFailure { error: e },
                    }
                },
            },
            DetectEvent::FailureRecorded => {
                let message = self.complaint.clone();
                let kind = self.kind;
                let todo = self.fail(kind, message);
                DetectDirective { progress: nothing, todo }
            },
            DetectEvent::Persisted { error } => match error {
                Some(e) => {
                    self.kind = FailureKind::Storage;
                    self.complaint = cat("persist candidates: ", e.as_str());
                    self.stage = DetectStage::RecordingFailure;
                    DetectDirective {
                        progress: nothing,
                        todo: DetectTodo::RecordFailure { error: e },
                    }
                },
                None => {
                    self.stage = DetectStage::MarkingComplete;
                    let links = count_layer(&self.candidates, &self.kept, DetectionLayer::Links);
                    let web_search = count_layer(
                        &self.candidates,
                        &self.kept,
                        DetectionLayer::WebSearch,
                    );
                    DetectDirective {
                        progress: nothing,
                        todo: DetectTodo::MarkComplete { links, web_search },
                    }
                },
            },
            DetectEvent::CompleteMarked => {
                self.stage = DetectStage::Finished;
                let links = count_layer(&self.candidates, &self.kept, DetectionLayer::Links);
                let web_search = count_layer(
                    &self.candidates,
                    &self.kept,
                    DetectionLayer::WebSearch,
                );
                let total = self.kept.len();
                let progress = if self.own_task {
                    mark("completed", 1, 100)
                } else {
                    nothing
                };
                DetectDirective { progress, todo: DetectTodo::Finish { total, links, web_search } }
            },
        }
    }
}

/// How far a stage is along the task.
pub open spec fn detect_rank(stage: DetectStage) -> int {
    match stage {
        DetectStage::Entering => 0,
        DetectStage::LoadingPdf => 1,
        DetectStage::OpeningStorage => 2,
        DetectStage::MarkingRunning => 3,
        DetectStage::Detecting => 4,
        DetectStage::Persisting => 5,
        DetectStage::MarkingComplete => 6,
        DetectStage::RecordingFailure => 7,
        _ => 8,
    }
}

/// Every event takes the task to a later stage, so it ends; and every failure
/// after the run was marked is recorded before the task ends.
pub proof fn law_detection_advances(
    run: DetectRun,
    pdf_id: Option<Seq<char>>,
    event: DetectEvent,
    next: DetectRun,
)
    requires
        run.wf(),
        run.expects(event),
        run.follows(pdf_id, event, next),
    ensures
        detect_rank(next.stage) > detect_rank(run.stage),
        next.stage == DetectStage::Failed && detect_rank(run.stage) >= 3 ==> run.stage
            == DetectStage::RecordingFailure,
{
}

/// The two layers make up all that is kept.
pub proof fn law_layers_make_up_all(all: Seq<RepoCandidate>, kept: Seq<usize>)
    ensures
        layer_count(all, kept, DetectionLayer::Links) + layer_count(
            all,
            kept,
            DetectionLayer::WebSearch,
        ) == kept.len(),
    decreases kept.len(),
{
    if kept.len() > 0 {
        law_layers_make_up_all(all, kept.drop_last());
    }
}

} // verus!
