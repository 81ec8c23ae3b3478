//! The course of the algorithm extraction tasks.

use vstd::prelude::*;

use crate::algorithm_extraction::{
    append_texts, count_found, distinct_algorithms, extract_detail, extract_progress,
    first_places, found_in, insert_flag, name_keys, pair_count, pairs_of, pass_percent,
    percent_of_pass, scan_detail, scan_progress, with_flag, DetailModel, DetectionError, Flagged,
    StageDetail, StoreError,
};
use crate::tasks::{
    and_mark, mark, name_view, progress_views, FailureKind, Progress, TaskFailure,
};
use crate::text::strs;

verus! {

broadcast use vstd::string::group_string_axioms;

// ---------------------------------------------------------------------------
// The task of its own
// ---------------------------------------------------------------------------

/// Where the task stands.
#[derive(Clone, Copy, Debug, PartialEq, Eq, Structural)]
pub enum ExtractStage {
    Entering,
    /// The layout of the pages is being searched.
    Detecting,
    /// The chunks are being scanned.
    Scanning,
    EnteringExtraction,
    Extracting,
    EnteringVerification,
    Verifying,
    Storing,
    Embedding,
    Finished,
    Failed,
    Cancelled,
}

/// The task of extracting the algorithms of a document.
#[derive(Clone, Debug)]
pub struct ExtractRun {
    /// Whether the algorithms are found by the layout of the pages.
    pub from_layout: bool,
    /// How many chunks there are to scan otherwise.
    pub chunks: usize,
    pub stage: ExtractStage,
    /// How many results of the current pass came.
    pub completed: usize,
    /// Where algorithms were found.
    pub flagged: Vec<Flagged>,
    /// The names of all that was extracted.
    pub names: Vec<String>,
    /// The places of those to keep.
    pub kept: Vec<usize>,
    pub approved: bool,
}

/// What happened outside.
#[derive(Clone, Debug)]
pub enum ExtractEvent {
    Gate { cancelled: bool },
    /// The layout shows this many blocks.
    Detected { blocks: usize },
    DetectionFailed { error: DetectionError },
    /// A pair was scanned, and if that worked, this many algorithms were found.
    Scanned { cancelled: bool, pair: usize, found: Option<usize> },
    /// A pair was extracted, and if that worked, it gave algorithms of these
    /// names.
    Extracted { cancelled: bool, names: Option<Vec<String>> },
    Verified { auto_approve: bool },
    Stored { error: Option<StoreError> },
    /// The vectors were made, or could not be.
    Embedded,
}

/// What the task came to.
#[derive(Clone, Copy, Debug, PartialEq, Eq, Structural)]
pub enum ExtractReport {
    NoBlocks,
    NoAlgorithms { pairs_scanned: usize },
    Stored { algorithm_count: usize, identified: u128, auto_approved: bool, embedded: bool },
}

/// What to do next.
#[derive(Clone, Debug)]
pub enum ExtractTodo {
    CheckCancelled,
    Detect,
    /// Start scanning the pairs.
    Scan { pairs: usize },
    /// Start extracting the flagged pairs.
    Extract,
    /// Wait for the next result.
    Await,
    Verify,
    /// Replace what is stored by the kept algorithms.
    Store { approved: bool },
    Embed,
    Finish { report: ExtractReport },
    Fail { failure: TaskFailure },
    Cancel,
}

/// What to report, and what to do next.
#[derive(Clone, Debug)]
pub struct ExtractDirective {
    pub status: Option<&'static str>,
    pub progress: Vec<Progress>,
    pub detail: Option<StageDetail>,
    pub todo: ExtractTodo,
}

/// Each block that the layout shows holds one algorithm.
pub open spec fn layout_flags(blocks: nat) -> Seq<Flagged> {
    Seq::new(blocks, |i: int| Flagged { pair: i as usize, found: 1 })
}

/// The view of an optional detail.
pub open spec fn detail_view(d: Option<StageDetail>) -> Option<DetailModel> {
    match d {
        Some(x) => Some(x@),
        None => None,
    }
}

impl ExtractRun {
    pub open spec fn pairs(self) -> nat {
        pairs_of(self.chunks as nat)
    }

    /// The task can be in this state.
    pub open spec fn wf(self) -> bool {
        match self.stage {
            ExtractStage::Entering => self.completed == 0 && self.flagged@.len() == 0
                && self.names@.len() == 0,
            ExtractStage::Detecting => self.from_layout,
            ExtractStage::Scanning => !self.from_layout && self.completed < self.pairs(),
            ExtractStage::EnteringExtraction => self.flagged@.len() > 0,
            ExtractStage::Extracting => self.completed < self.flagged@.len(),
            ExtractStage::EnteringVerification => self.kept_is_right(),
            ExtractStage::Verifying => self.kept_is_right(),
            ExtractStage::Storing => self.kept_is_right(),
            ExtractStage::Embedding => self.kept_is_right() && self.approved && self.kept@.len()
                > 0,
            _ => true,
        }
    }

    /// What is kept is what was extracted, each algorithm once.
    pub open spec fn kept_is_right(self) -> bool {
        self.kept@ == first_places(name_keys(strs(self.names@)))
    }

    /// The event can happen in this state.
    pub open spec fn expects(self, event: ExtractEvent) -> bool {
        match event {
            ExtractEvent::Gate { .. } => self.stage == ExtractStage::Entering || self.stage
                == ExtractStage::EnteringExtraction || self.stage
                == ExtractStage::EnteringVerification,
            ExtractEvent::Detected { .. } => self.stage == ExtractStage::Detecting,
            ExtractEvent::DetectionFailed { .. } => self.stage == ExtractStage::Detecting,
            ExtractEvent::Scanned { .. } => self.stage == ExtractStage::Scanning,
            ExtractEvent::Extracted { .. } => self.stage == ExtractStage::Extracting,
            ExtractEvent::Verified { .. } => self.stage == ExtractStage::Verifying,
            ExtractEvent::Stored { .. } => self.stage == ExtractStage::Storing,
            ExtractEvent::Embedded => self.stage == ExtractStage::Embedding,
        }
    }

    /// The event says that the task was cancelled.
    pub open spec fn cancels(event: ExtractEvent) -> bool {
        match event {
            ExtractEvent::Gate { cancelled } => cancelled,
            ExtractEvent::Scanned { cancelled, .. } => cancelled,
            ExtractEvent::Extracted { cancelled, .. } => cancelled,
            _ => false,
        }
    }

    /// Where algorithms were found, after an event.
    pub open spec fn flagged_after(self, event: ExtractEvent) -> Seq<Flagged> {
        match event {
            ExtractEvent::Detected { blocks } => layout_flags(blocks as nat),
            ExtractEvent::Scanned { cancelled, pair, found } => match found {
                Some(n) => if !cancelled && n > 0 {
                    with_flag(self.flagged@, Flagged { pair, found: n })
                } else {
                    self.flagged@
                },
                None => self.flagged@,
            },
            _ => self.flagged@,
        }
    }

    /// The names of all that was extracted, after an event.
    pub open spec fn names_after(self, event: ExtractEvent) -> Seq<Seq<char>> {
        match event {
            ExtractEvent::Extracted { cancelled, names } => match names {
                Some(v) => if !cancelled {
                    strs(self.names@) + strs(v@)
                } else {
                    strs(self.names@)
                },
                None => strs(self.names@),
            },
            _ => strs(self.names@),
        }
    }

    /// How many results of the current pass came, after an event.
    pub open spec fn completed_after(self, event: ExtractEvent) -> int {
        match event {
            ExtractEvent::Gate { .. } => 0,
            ExtractEvent::Scanned { cancelled, .. } => if cancelled {
                self.completed as int
            } else {
                self.completed + 1
            },
            ExtractEvent::Extracted { cancelled, .. } => if cancelled {
                self.completed as int
            } else {
                self.completed + 1
            },
            _ => self.completed as int,
        }
    }

    /// Where the task stands after an event.
    pub open spec fn stage_after(self, event: ExtractEvent) -> ExtractStage {
        if Self::cancels(event) {
            ExtractStage::Cancelled
        } else {
            match event {
                ExtractEvent::Gate { .. } => match self.stage {
                    ExtractStage::Entering => if self.from_layout {
                        ExtractStage::Detecting
                    } else if self.chunks == 0 {
                        ExtractStage::Failed
                    } else {
                        ExtractStage::Scanning
                    },
                    ExtractStage::EnteringExtraction => ExtractStage::Extracting,
                    _ => ExtractStage::Verifying,
                },
                ExtractEvent::Detected { blocks } => if blocks == 0 {
                    ExtractStage::Finished
                } else {
                    ExtractStage::EnteringExtraction
                },
                ExtractEvent::DetectionFailed { .. } => ExtractStage::Failed,
                ExtractEvent::Scanned { .. } => if self.completed + 1 < self.pairs() {
                    ExtractStage::Scanning
                } else if self.flagged_after(event).len() == 0 {
                    ExtractStage::Finished
                } else {
                    ExtractStage::EnteringExtraction
                },
                ExtractEvent::Extracted { .. } => if self.completed + 1 < self.flagged@.len() {
                    ExtractStage::Extracting
                } else {
                    ExtractStage::EnteringVerification
                },
                ExtractEvent::Verified { .. } => ExtractStage::Storing,
                ExtractEvent::Stored { error } => if error is Some {
                    ExtractStage::Failed
                } else if self.approved && self.kept@.len() > 0 {
                    ExtractStage::Embedding
                } else {
                    ExtractStage::Finished
                },
                ExtractEvent::Embedded => ExtractStage::Finished,
            }
        }
    }

    /// The status that the document gets.
    pub open spec fn status_after(self, event: ExtractEvent) -> Option<Seq<char>> {
        if Self::cancels(event) {
            None
        } else {
            match event {
                ExtractEvent::Gate { .. } => match self.stage {
                    ExtractStage::Entering => Some("algo_identifying"@),
                    ExtractStage::EnteringExtraction => Some("algo_extracting"@),
                    _ => Some("algo_verifying"@),
                },
                ExtractEvent::Stored { error } => if error is Some {
                    None
                } else if self.stage_after(event) == ExtractStage::Embedding {
                    Some("algo_embedding"@)
                } else {
                    Some("completed"@)
                },
                ExtractEvent::Embedded => None,
                _ => if self.stage_after(event) == ExtractStage::Finished {
                    Some("completed"@)
                } else {
                    None
                },
            }
        }
    }

    /// The progress that is reported.
    pub open spec fn progress_after(self, event: ExtractEvent) -> Seq<(Seq<char>, u32, u8)> {
        let done = if self.stage_after(event) == ExtractStage::Finished {
            seq![("completed"@, 3u32, 100u8)]
        } else {
            Seq::empty()
        };
        if Self::cancels(event) {
            Seq::empty()
        } else {
            match event {
                ExtractEvent::Gate { .. } => match self.stage {
                    ExtractStage::Entering => seq![("algo_identifying"@, 3u32, 15u8)],
                    ExtractStage::EnteringExtraction => seq![("algo_extracting"@, 3u32, 40u8)],
                    _ => seq![("algo_verifying"@, 3u32, 70u8)],
                },
                ExtractEvent::Detected { .. } => seq![("algo_identifying"@, 3u32, 40u8)] + done,
                ExtractEvent::DetectionFailed { .. } => Seq::empty(),
                ExtractEvent::Scanned { .. } => seq![
                    (
                        "algo_identifying"@,
                        3u32,
                        pass_percent(10, self.completed + 1, self.pairs() as int) as u8,
                    ),
                ] + done,
                ExtractEvent::Extracted { .. } => seq![
                    (
                        "algo_extracting"@,
                        3u32,
                        pass_percent(40, self.completed + 1, self.flagged@.len() as int) as u8,
                    ),
                ],
                ExtractEvent::Verified { .. } => seq![("storing"@, 3u32, 90u8)],
                ExtractEvent::Stored { error } => if error is Some {
                    Seq::empty()
                } else if self.stage_after(event) == ExtractStage::Embedding {
                    seq![("algo_embedding"@, 4u32, 92u8)]
                } else {
                    done
                },
                ExtractEvent::Embedded => Seq::empty(),
            }
        }
    }

    /// The detail that is reported.
    pub open spec fn detail_after(self, event: ExtractEvent) -> Option<DetailModel> {
        if Self::cancels(event) {
            None
        } else {
            match event {
                ExtractEvent::Gate { .. } => if self.stage == ExtractStage::Entering
                    && self.from_layout {
                    Some(
                        DetailModel {
                            stage: "algo_identifying"@,
                            message: "Detecting algorithm blocks via layout detection + VLM"@,
                            done: 1,
                            total: 10,
                        },
                    )
                } else {
                    None
                },
                ExtractEvent::Scanned { .. } => Some(
                    scan_progress((self.completed + 1) as nat, self.pairs()),
                ),
                ExtractEvent::Extracted { .. } => Some(
                    extract_progress((self.completed + 1) as nat, self.flagged@.len()),
                ),
                _ => None,
            }
        }
    }

    /// What the task came to, if an event ends it.
    pub open spec fn report_after(self, event: ExtractEvent) -> ExtractReport {
        match event {
            ExtractEvent::Detected { .. } => ExtractReport::NoBlocks,
            ExtractEvent::Scanned { .. } => ExtractReport::NoAlgorithms {
                pairs_scanned: self.pairs() as usize,
            },
            _ => ExtractReport::Stored {
                algorithm_count: self.kept.len(),
                identified: found_in(self.flagged@) as u128,
                auto_approved: self.approved,
                embedded: event is Embedded,
            },
        }
    }

    /// What is said where an event makes the task fail.
    pub open spec fn complaint(self, event: ExtractEvent) -> Seq<char> {
        match event {
            ExtractEvent::DetectionFailed { error } => error.message(),
            ExtractEvent::Stored { error: Some(e) } => e.message(),
            _ => "No chunks provided"@,
        }
    }

    /// What to do after an event.
    pub open spec fn orders(self, event: ExtractEvent, todo: ExtractTodo) -> bool {
        match self.stage_after(event) {
            ExtractStage::Entering => false,
            ExtractStage::Detecting => todo is Detect,
            ExtractStage::Scanning => if event is Gate {
                todo == (ExtractTodo::Scan { pairs: self.pairs() as usize })
            } else {
                todo is Await
            },
            ExtractStage::EnteringExtraction => todo is CheckCancelled,
            ExtractStage::Extracting => if event is Gate {
                todo is Extract
            } else {
                todo is Await
            },
            ExtractStage::EnteringVerification => todo is CheckCancelled,
            ExtractStage::Verifying => todo is Verify,
            ExtractStage::Storing => event matches ExtractEvent::Verified { auto_approve } && todo
                == (ExtractTodo::Store { approved: auto_approve }),
            ExtractStage::Embedding => todo is Embed,
            ExtractStage::Finished => todo == (ExtractTodo::Finish {
                report: self.report_after(event),
            }),
            ExtractStage::Failed => todo matches ExtractTodo::Fail { failure } && failure.says(
                FailureKind::Process,
                self.complaint(event),
            ),
            ExtractStage::Cancelled => todo is Cancel,
        }
    }

    /// The state that follows.
    pub open spec fn follows(self, event: ExtractEvent, next: ExtractRun) -> bool {
        &&& next.from_layout == self.from_layout
        &&& next.chunks == self.chunks
        &&& next.stage == self.stage_after(event)
        &&& next.completed == self.completed_after(event)
        &&& next.flagged@ == self.flagged_after(event)
        &&& strs(next.names@) == self.names_after(event)
        &&& next.approved == (match event {
            ExtractEvent::Verified { auto_approve } => auto_approve,
            _ => self.approved,
        })
        &&& next.stage != ExtractStage::EnteringVerification ==> next.kept@ == self.kept@
        &&& next.stage == ExtractStage::EnteringVerification ==> next.kept_is_right()
    }

    /// A new task. The first thing to do is to ask whether it was cancelled.
    pub fn new(from_layout: bool, chunks: usize) -> (r: Self)
        ensures
            r.wf(),
            r.stage == ExtractStage::Entering,
            r.from_layout == from_layout,
            r.chunks == chunks,
            r.completed == 0,
            r.flagged@.len() == 0,
            r.names@.len() == 0,
            r.kept@.len() == 0,
            !r.approved,
    {
        ExtractRun {
            from_layout,
            chunks,
            stage: ExtractStage::Entering,
            completed: 0,
            flagged: Vec::new(),
            names: Vec::new(),
            kept: Vec::new(),
            approved: false,
        }
    }

    fn fail(&mut self, message: String) -> (todo: ExtractTodo)
        ensures
            final(self).stage == ExtractStage::Failed,
            *final(self) == (ExtractRun { stage: ExtractStage::Failed, ..*old(self) }),
            todo matches ExtractTodo::Fail { failure } && failure.says(
                FailureKind::Process,
                message@,
            ),
    {
        self.stage = ExtractStage::Failed;
        ExtractTodo::Fail { failure: TaskFailure::new(FailureKind::Process, message) }
    }

    fn gate_step(&mut self) -> (d: ExtractDirective)
        requires
            old(self).wf(),
            old(self).expects(ExtractEvent::Gate { cancelled: false }),
        ensures
            final(self).wf(),
            old(self).follows(ExtractEvent::Gate { cancelled: false }, *final(self)),
            name_view(d.status) == old(self).status_after(ExtractEvent::Gate { cancelled: false }),
            progress_views(d.progress@) == old(self).progress_after(
                ExtractEvent::Gate { cancelled: false },
            ),
            detail_view(d.detail) == old(self).detail_after(
                ExtractEvent::Gate { cancelled: false },
            ),
            old(self).orders(ExtractEvent::Gate { cancelled: false }, d.todo),
    {
        self.completed = 0;
        match self.stage {
            ExtractStage::Entering => {
                let progress = mark("algo_identifying", 3, 15);
                let mut detail = None;
                let todo = if self.from_layout {
                    self.stage = ExtractStage::Detecting;
                    detail = Some(
                        StageDetail {
                            stage: "algo_identifying",
                            message: "Detecting algorithm blocks via layout detection + VLM".to_owned(),
                            done: 1,
                            total: 10,
                        },
                    );
                    ExtractTodo::Detect
                } else if self.chunks == 0 {
                    self.fail("No chunks provided".to_owned())
                } else {
                    self.stage = ExtractStage::Scanning;
                    ExtractTodo::Scan { pairs: pair_count(self.chunks) }
                };
                ExtractDirective { status: Some("algo_identifying"), progress, detail, todo }
            },
            ExtractStage::EnteringExtraction => {
                self.stage = ExtractStage::Extracting;
                ExtractDirective {
                    status: Some("algo_extracting"),
                    progress: mark("algo_extracting", 3, 40),
                    detail: None,
                    todo: ExtractTodo::Extract,
                }
            },
            _ => {
                self.stage = ExtractStage::Verifying;
                ExtractDirective {
                    status: Some("algo_verifying"),
                    progress: mark("algo_verifying", 3, 70),
                    detail: None,
                    todo: ExtractTodo::Verify,
                }
            },
        }
    }

    fn detected_step(&mut self, blocks: usize) -> (d: ExtractDirective)
        requires
            old(self).wf(),
            old(self).expects(ExtractEvent::Detected { blocks }),
        ensures
            final(self).wf(),
            old(self).follows(ExtractEvent::Detected { blocks }, *final(self)),
            name_view(d.status) == old(self).status_after(ExtractEvent::Detected { blocks }),
            progress_views(d.progress@) == old(self).progress_after(
                ExtractEvent::Detected { blocks },
            ),
            detail_view(d.detail) == old(self).detail_after(ExtractEvent::Detected { blocks }),
            old(self).orders(ExtractEvent::Detected { blocks }, d.todo),
    {
        let mut flags: Vec<Flagged> = Vec::new();
        let mut i: usize = 0;
        while i < blocks
            invariant
                i <= blocks,
                flags@ == layout_flags(i as nat),
            decreases blocks - i,
        {
            flags.push(Flagged { pair: i, found: 1 });
            i = i + 1;
            assert(layout_flags(i as nat) =~= layout_flags((i - 1) as nat).push(
                Flagged { pair: (i - 1) as usize, found: 1 },
            ));
        }
        self.flagged = flags;
        let progress = mark("algo_identifying", 3, 40);
        let ghost first = progress_views(progress@);
        if blocks == 0 {
            self.stage = ExtractStage::Finished;
            let progress = and_mark(progress, "completed", 3, 100);
            assert(first.push(("completed"@, 3u32, 100u8)) =~= first + seq![
                ("completed"@, 3u32, 100u8),
            ]);
            ExtractDirective {
                status: Some("completed"),
                progress,
                detail: None,
                todo: ExtractTodo::Finish { report: ExtractReport::NoBlocks },
            }
        } else {
            self.stage = ExtractStage::EnteringExtraction;
            assert(first =~= first + Seq::<(Seq<char>, u32, u8)>::empty());
            ExtractDirective {
                status: None,
                progress,
                detail: None,
                todo: ExtractTodo::CheckCancelled,
            }
        }
    }

    fn scanned_step(&mut self, pair: usize, found: Option<usize>) -> (d: ExtractDirective)
        requires
            old(self).wf(),
            old(self).expects(ExtractEvent::Scanned { cancelled: false, pair, found }),
        ensures
            final(self).wf(),
            old(self).follows(
                ExtractEvent::Scanned { cancelled: false, pair, found },
                *final(self),
            ),
            name_view(d.status) == old(self).status_after(
                ExtractEvent::Scanned { cancelled: false, pair, found },
            ),
            progress_views(d.progress@) == old(self).progress_after(
                ExtractEvent::Scanned { cancelled: false, pair, found },
            ),
            detail_view(d.detail) == old(self).detail_after(
                ExtractEvent::Scanned { cancelled: false, pair, found },
            ),
            old(self).orders(ExtractEvent::Scanned { cancelled: false, pair, found }, d.todo),
    {
        let pairs = pair_count(self.chunks);
        self.completed = self.completed + 1;
        let progress = mark(
            "algo_identifying",
            3,
            percent_of_pass(10, self.completed, pairs),
        );
        let ghost first = progress_views(progress@);
        let detail = Some(scan_detail(self.completed, pairs));
        if let Some(n) = found {
            if n > 0 {
                insert_flag(&mut self.flagged, Flagged { pair, found: n });
            }
        }
        assert(first =~= first + Seq::<(Seq<char>, u32, u8)>::empty());
        assert(first.push(("completed"@, 3u32, 100u8)) =~= first + seq![
            ("completed"@, 3u32, 100u8),
        ]);
        if self.completed < pairs {
            return ExtractDirective { status: None, progress, detail, todo: ExtractTodo::Await };
        }
        if self.flagged.len() == 0 {
            self.stage = ExtractStage::Finished;
            ExtractDirective {
                status: Some("completed"),
                progress: and_mark(progress, "completed", 3, 100),
                detail,
                todo: ExtractTodo::Finish {
                    report: ExtractReport::NoAlgorithms { pairs_scanned: pairs },
                },
            }
        } else {
            self.stage = ExtractStage::EnteringExtraction;
            ExtractDirective { status: None, progress, detail, todo: ExtractTodo::CheckCancelled }
        }
    }

    fn extracted_step(&mut self, names: Option<Vec<String>>) -> (d: ExtractDirective)
        requires
            old(self).wf(),
            old(self).expects(ExtractEvent::Extracted { cancelled: false, names }),
        ensures
            final(self).wf(),
            old(self).follows(ExtractEvent::Extracted { cancelled: false, names }, *final(self)),
            name_view(d.status) == old(self).status_after(
                ExtractEvent::Extracted { cancelled: false, names },
            ),
            progress_views(d.progress@) == old(self).progress_after(
                ExtractEvent::Extracted { cancelled: false, names },
            ),
            detail_view(d.detail) == old(self).detail_after(
                ExtractEvent::Extracted { cancelled: false, names },
            ),
            old(self).orders(ExtractEvent::Extracted { cancelled: false, names }, d.todo),
    {
        let total = self.flagged.len();
        self.completed = self.completed + 1;
        let progress = mark("algo_extracting", 3, percent_of_pass(40, self.completed, total));
        let detail = Some(extract_detail(self.completed, total));
        if let Some(v) = &names {
            append_texts(&mut self.names, v);
        }
        if self.completed < total {
            return ExtractDirective { status: None, progress, detail, todo: ExtractTodo::Await };
        }
        self.kept = distinct_algorithms(&self.names);
        self.stage = ExtractStage::EnteringVerification;
        ExtractDirective { status: None, progress, detail, todo: ExtractTodo::CheckCancelled }
    }

    fn stored_step(&mut self, error: Option<StoreError>) -> (d: ExtractDirective)
        requires
            old(self).wf(),
            old(self).expects(ExtractEvent::Stored { error }),
        ensures
            final(self).wf(),
            old(self).follows(ExtractEvent::Stored { error }, *final(self)),
            name_view(d.status) == old(self).status_after(ExtractEvent::Stored { error }),
            progress_views(d.progress@) == old(self).progress_after(
                ExtractEvent::Stored { error },
            ),
            detail_view(d.detail) == old(self).detail_after(ExtractEvent::Stored { error }),
            old(self).orders(ExtractEvent::Stored { error }, d.todo),
    {
        if let Some(e) = &error {
            let progress: Vec<Progress> = Vec::new();
            assert(progress_views(progress@) =~= Seq::<(Seq<char>, u32, u8)>::empty());
            return ExtractDirective {
                status: None,
                progress,
                detail: None,
                todo: self.fail(e.text()),
            };
        }
        if self.approved && self.kept.len() > 0 {
            self.stage = ExtractStage::Embedding;
            return ExtractDirective {
                status: Some("algo_embedding"),
                progress: mark("algo_embedding", 4, 92),
                detail: None,
                todo: ExtractTodo::Embed,
            };
        }
        self.stage = ExtractStage::Finished;
        let report = ExtractReport::Stored {
            algorithm_count: self.kept.len(),
            identified: count_found(&self.flagged),
            auto_approved: self.approved,
            embedded: false,
        };
        ExtractDirective {
            status: Some("completed"),
            progress: mark("completed", 3, 100),
            detail: None,
            todo: ExtractTodo::Finish { report },
        }
    }

    /// Takes in what happened and says what to report and to do next.
    pub fn step(&mut self, event: ExtractEvent) -> (d: ExtractDirective)
        requires
            old(self).wf(),
            old(self).expects(event),
        ensures
            final(self).wf(),
            old(self).follows(event, *final(self)),
            name_view(d.status) == old(self).status_after(event),
            progress_views(d.progress@) == old(self).progress_after(event),
            detail_view(d.detail) == old(self).detail_after(event),
            old(self).orders(event, d.todo),
    {
        let nothing: Vec<Progress> = Vec::new();
        assert(progress_views(nothing@) =~= Seq::<(Seq<char>, u32, u8)>::empty());
        let cancelled = match &event {
            ExtractEvent::Gate { cancelled } => *cancelled,
            ExtractEvent::Scanned { cancelled, .. } => *cancelled,
            ExtractEvent::Extracted { cancelled, .. } => *cancelled,
            _ => false,
        };
        if cancelled {
            if let ExtractEvent::Gate { .. } = &event {
                self.completed = 0;
            }
            self.stage = ExtractStage::Cancelled;
            return ExtractDirective {
                status: None,
                progress: nothing,
                detail: None,
                todo: ExtractTodo::Cancel,
            };
        }
        match event {
            ExtractEvent::Gate { .. } => self.gate_step(),
            ExtractEvent::Detected { blocks } => self.detected_step(blocks),
            ExtractEvent::DetectionFailed { error } => {
                let todo = self.fail(error.text());
                ExtractDirective { status: None, progress: nothing, detail: None, todo }
            },
            ExtractEvent::Scanned { pair, found, .. } => self.scanned_step(pair, found),
            ExtractEvent::Extracted { names, .. } => self.extracted_step(names),
            ExtractEvent::Verified { auto_approve } => {
                self.approved = auto_approve;
                self.stage = ExtractStage::Storing;
                ExtractDirective {
                    status: None,
                    progress: mark("storing", 3, 90),
                    detail: None,
                    todo: ExtractTodo::Store { approved: auto_approve },
                }
            },
            ExtractEvent::Stored { error } => self.stored_step(error),
            ExtractEvent::Embedded => {
                self.stage = ExtractStage::Finished;
                let report = ExtractReport::Stored {
                    algorithm_count: self.kept.len(),
                    identified: count_found(&self.flagged),
                    auto_approved: self.approved,
                    embedded: true,
                };
                ExtractDirective {
                    status: None,
                    progress: nothing,
                    detail: None,
                    todo: ExtractTodo::Finish { report },
                }
            },
        }
    }
}

/// How far a stage is along the task.
pub open spec fn extract_rank(stage: ExtractStage) -> int {
    match stage {
        ExtractStage::Entering => 0,
        ExtractStage::Detecting => 1,
        ExtractStage::Scanning => 1,
        ExtractStage::EnteringExtraction => 2,
        ExtractStage::Extracting => 3,
        ExtractStage::EnteringVerification => 4,
        ExtractStage::Verifying => 5,
        ExtractStage::Storing => 6,
        ExtractStage::Embedding => 7,
        _ => 8,
    }
}

/// Every event takes the task to a later stage, or to the next result of the
/// pass that it is in, so the task ends.
pub proof fn law_extraction_advances(run: ExtractRun, event: ExtractEvent)
    requires
        run.wf(),
        run.expects(event),
    ensures
        extract_rank(run.stage_after(event)) > extract_rank(run.stage) || (run.stage_after(event)
            == run.stage && run.completed_after(event) == run.completed + 1
            && run.completed_after(event) <= run.pairs() + run.flagged@.len()),
{
}

/// The highest per cent that was reported, once algorithms are being extracted.
pub open spec fn extract_floor(run: ExtractRun) -> int {
    match run.stage {
        ExtractStage::EnteringExtraction => 40,
        ExtractStage::Extracting => pass_percent(
            40,
            run.completed as int,
            run.flagged@.len() as int,
        ),
        ExtractStage::EnteringVerification => 70,
        ExtractStage::Verifying => 70,
        ExtractStage::Storing => 90,
        ExtractStage::Embedding => 92,
        _ => 100,
    }
}

/// Once algorithms are being extracted, the reported progress never goes back.
pub proof fn law_extraction_progress(run: ExtractRun, event: ExtractEvent, next: ExtractRun, k: int)
    requires
        run.wf(),
        run.expects(event),
        run.follows(event, next),
        extract_rank(run.stage) >= 2,
        0 <= k < run.progress_after(event).len(),
    ensures
        extract_floor(run) <= run.progress_after(event)[k].2,
        !(next.stage == ExtractStage::Failed || next.stage == ExtractStage::Cancelled)
            ==> run.progress_after(event)[k].2 == extract_floor(next),
{
    if run.stage == ExtractStage::Extracting {
        crate::algorithm_extraction::law_pass_percent_grows(
            40,
            run.completed as int,
            run.completed + 1,
            run.flagged@.len() as int,
        );
    }
    if next.stage == ExtractStage::Extracting && event is Gate {
        assert(pass_percent(40, 0, run.flagged@.len() as int) == 40) by {
            crate::algorithm_extraction::law_pass_percent_grows(
                40,
                0,
                0,
                run.flagged@.len() as int,
            );
            assert(0int * 30 / run.flagged@.len() as int == 0) by (nonlinear_arith)
                requires
                    run.flagged@.len() > 0,
            ;
        }
    }
}

/// A cancelled task ends at once: it reports nothing, and what it found stays as
/// it was.
pub proof fn law_cancelled_at_once(run: ExtractRun, event: ExtractEvent, next: ExtractRun)
    requires
        run.follows(event, next),
        ExtractRun::cancels(event),
    ensures
        next.stage == ExtractStage::Cancelled,
        next.flagged@ == run.flagged@,
        strs(next.names@) == strs(run.names@),
        next.kept@ == run.kept@,
        run.progress_after(event).len() == 0,
        run.status_after(event) is None,
        forall|later: ExtractEvent| !next.expects(later),
{
}

// ---------------------------------------------------------------------------
// As part of reading a document
// ---------------------------------------------------------------------------

/// Where the second and third pass stand.
#[derive(Clone, Copy, Debug, PartialEq, Eq, Structural)]
pub enum Pass23Stage {
    NotStarted,
    Extracting,
    Verifying,
    Storing,
    Embedding,
    Finished,
    Failed,
}

/// The second and third pass over blocks that were found while the document was
/// read.
#[derive(Clone, Debug)]
pub struct Pass23Run {
    pub blocks: usize,
    pub stage: Pass23Stage,
    /// How many results of the second pass came.
    pub completed: usize,
    /// How many of them were failures.
    pub failures: usize,
    /// The names of all that was extracted.
    pub names: Vec<String>,
    /// The places of those to keep.
    pub kept: Vec<usize>,
    pub approved: bool,
}

/// What happened outside.
#[derive(Clone, Debug)]
pub enum Pass23Event {
    Start,
    /// A block was extracted, and if that worked, it gave algorithms of these
    /// names.
    Extracted { names: Option<Vec<String>> },
    Verified { auto_approve: bool },
    Stored { error: Option<StoreError> },
    /// The vectors were made, or could not be.
    Embedded,
}

/// What to do next.
#[derive(Clone, Debug)]
pub enum Pass23Todo {
    /// Start extracting the blocks, each on its own.
    Extract,
    /// Wait for the next result.
    Await,
    Verify,
    Store { approved: bool },
    Embed,
    /// So many algorithms were stored, and so many blocks could not be read.
    Finish { count: usize, failures: usize },
    Fail { failure: TaskFailure },
}

/// What to report, and what to do next.
#[derive(Clone, Debug)]
pub struct Pass23Directive {
    pub status: Option<&'static str>,
    pub progress: Vec<Progress>,
    pub detail: Option<StageDetail>,
    pub todo: Pass23Todo,
}

impl Pass23Run {
    /// What is kept is what was extracted, each algorithm once.
    pub open spec fn kept_is_right(self) -> bool {
        self.kept@ == first_places(name_keys(strs(self.names@)))
    }

    /// The passes can be in this state.
    pub open spec fn wf(self) -> bool {
        &&& self.failures <= self.completed <= self.blocks
        &&& match self.stage {
            Pass23Stage::NotStarted => self.completed == 0 && self.names@.len() == 0,
            Pass23Stage::Extracting => self.completed < self.blocks,
            Pass23Stage::Verifying => self.kept_is_right() && self.kept@.len() > 0,
            Pass23Stage::Storing => self.kept_is_right() && self.kept@.len() > 0,
            Pass23Stage::Embedding => self.kept_is_right() && self.kept@.len() > 0,
            Pass23Stage::Finished => self.kept_is_right(),
            _ => true,
        }
    }

    /// The event can happen in this state.
    pub open spec fn expects(self, event: Pass23Event) -> bool {
        match event {
            Pass23Event::Start => self.stage == Pass23Stage::NotStarted,
            Pass23Event::Extracted { .. } => self.stage == Pass23Stage::Extracting,
            Pass23Event::Verified { .. } => self.stage == Pass23Stage::Verifying,
            Pass23Event::Stored { .. } => self.stage == Pass23Stage::Storing,
            Pass23Event::Embedded => self.stage == Pass23Stage::Embedding,
        }
    }

    pub open spec fn names_after(self, event: Pass23Event) -> Seq<Seq<char>> {
        match event {
            Pass23Event::Extracted { names: Some(v) } => strs(self.names@) + strs(v@),
            _ => strs(self.names@),
        }
    }

    pub open spec fn completed_after(self, event: Pass23Event) -> int {
        if event is Extracted {
            self.completed + 1
        } else {
            self.completed as int
        }
    }

    pub open spec fn failures_after(self, event: Pass23Event) -> int {
        if event matches Pass23Event::Extracted { names } && names is None {
            self.failures + 1
        } else {
            self.failures as int
        }
    }

    /// Which algorithms are kept once every block had its turn.
    pub open spec fn kept_then(self, event: Pass23Event) -> Seq<usize> {
        first_places(name_keys(self.names_after(event)))
    }

    /// Where the passes stand after an event.
    pub open spec fn stage_after(self, event: Pass23Event) -> Pass23Stage {
        match event {
            Pass23Event::Start | Pass23Event::Extracted { .. } => if self.completed_after(event)
                < self.blocks {
                Pass23Stage::Extracting
            } else if self.kept_then(event).len() == 0 {
                Pass23Stage::Finished
            } else {
                Pass23Stage::Verifying
            },
            Pass23Event::Verified { .. } => Pass23Stage::Storing,
            Pass23Event::Stored { error } => if error is Some {
                Pass23Stage::Failed
            } else if self.approved {
                Pass23Stage::Embedding
            } else {
                Pass23Stage::Finished
            },
            Pass23Event::Embedded => Pass23Stage::Finished,
        }
    }

    /// The state that follows.
    pub open spec fn follows(self, event: Pass23Event, next: Pass23Run) -> bool {
        &&& next.blocks == self.blocks
        &&& next.stage == self.stage_after(event)
        &&& next.completed == self.completed_after(event)
        &&& next.failures == self.failures_after(event)
        &&& strs(next.names@) == self.names_after(event)
        &&& next.kept@ == (if (event is Start || event is Extracted) && self.completed_after(event)
            >= self.blocks {
            self.kept_then(event)
        } else {
            self.kept@
        })
        &&& next.approved == (match event {
            Pass23Event::Verified { auto_approve } => auto_approve,
            _ => self.approved,
        })
    }

    /// What is reported after an event.
    pub open spec fn reports(self, event: Pass23Event, d: Pass23Directive) -> bool {
        let verifying = self.stage_after(event) == Pass23Stage::Verifying;
        &&& name_view(d.status) == (if verifying {
            Some("algo_verifying"@)
        } else {
            None
        })
        &&& progress_views(d.progress@) == (if verifying {
            seq![("algo_verifying"@, 6u32, 85u8)]
        } else {
            Seq::empty()
        })
        &&& detail_view(d.detail) == (if event is Extracted {
            Some(extract_progress((self.completed + 1) as nat, self.blocks as nat))
        } else {
            None
        })
    }

    /// What to do after an event.
    pub open spec fn orders(self, event: Pass23Event, todo: Pass23Todo) -> bool {
        match self.stage_after(event) {
            Pass23Stage::NotStarted => false,
            Pass23Stage::Extracting => if event is Start {
                todo is Extract
            } else {
                todo is Await
            },
            Pass23Stage::Verifying => todo is Verify,
            Pass23Stage::Storing => event matches Pass23Event::Verified { auto_approve } && todo
                == (Pass23Todo::Store { approved: auto_approve }),
            Pass23Stage::Embedding => todo is Embed,
            Pass23Stage::Finished => todo matches Pass23Todo::Finish { count, failures } && count
                == (if event is Start || event is Extracted {
                0
            } else {
                self.kept@.len()
            }) && failures == self.failures_after(event),
            Pass23Stage::Failed => todo matches Pass23Todo::Fail { failure } && event
                matches Pass23Event::Stored { error: Some(e) } && failure.says(
                FailureKind::Process,
                e.message(),
            ),
        }
    }

    /// The passes over so many blocks.
    pub fn new(blocks: usize) -> (r: Self)
        ensures
            r.wf(),
            r.stage == Pass23Stage::NotStarted,
            r.blocks == blocks,
            r.completed == 0,
            r.failures == 0,
            r.names@.len() == 0,
            r.kept@.len() == 0,
            !r.approved,
    {
        Pass23Run {
            blocks,
            stage: Pass23Stage::NotStarted,
            completed: 0,
            failures: 0,
            names: Vec::new(),
            kept: Vec::new(),
            approved: false,
        }
    }

    /// Goes on when a result came.
    fn go_on(&mut self, starting: bool, detail: Option<StageDetail>) -> (d: Pass23Directive)
        requires
            old(self).failures <= old(self).completed <= old(self).blocks,
        ensures
            final(self).blocks == old(self).blocks,
            final(self).completed == old(self).completed,
            final(self).failures == old(self).failures,
            final(self).names == old(self).names,
            final(self).approved == old(self).approved,
            d.detail == detail,
            ({
                let kept = first_places(name_keys(strs(old(self).names@)));
                if old(self).completed < old(self).blocks {
                    &&& final(self).kept == old(self).kept
                    &&& final(self).stage == Pass23Stage::Extracting
                    &&& d.status is None
                    &&& progress_views(d.progress@) == Seq::<(Seq<char>, u32, u8)>::empty()
                    &&& if starting {
                        d.todo is Extract
                    } else {
                        d.todo is Await
                    }
                } else if kept.len() == 0 {
                    &&& final(self).kept@ == kept
                    &&& final(self).stage == Pass23Stage::Finished
                    &&& d.status is None
                    &&& progress_views(d.progress@) == Seq::<(Seq<char>, u32, u8)>::empty()
                    &&& d.todo == (Pass23Todo::Finish { count: 0, failures: old(self).failures })
                } else {
                    &&& final(self).kept@ == kept
                    &&& final(self).stage == Pass23Stage::Verifying
                    &&& name_view(d.status) == Some("algo_verifying"@)
                    &&& progress_views(d.progress@) == seq![("algo_verifying"@, 6u32, 85u8)]
                    &&& d.todo is Verify
                }
            }),
    {
        let nothing: Vec<Progress> = Vec::new();
        assert(progress_views(nothing@) =~= Seq::<(Seq<char>, u32, u8)>::empty());
        if self.completed < self.blocks {
            self.stage = Pass23Stage::Extracting;
            let todo = if starting {
                Pass23Todo::Extract
            } else {
                Pass23Todo::Await
            };
            return Pass23Directive { status: None, progress: nothing, detail, todo };
        }
        self.kept = distinct_algorithms(&self.names);
        if self.kept.len() == 0 {
            self.stage = Pass23Stage::Finished;
            return Pass23Directive {
                status: None,
                progress: nothing,
                detail,
                todo: Pass23Todo::Finish { count: 0, failures: self.failures },
            };
        }
        self.stage = Pass23Stage::Verifying;
        Pass23Directive {
            status: Some("algo_verifying"),
            progress: mark("algo_verifying", 6, 85),
            detail,
            todo: Pass23Todo::Verify,
        }
    }

    /// Takes in what happened and says what to report and to do next.
    pub fn step(&mut self, event: Pass23Event) -> (d: Pass23Directive)
        requires
            old(self).wf(),
            old(self).expects(event),
        ensures
            final(self).wf(),
            old(self).follows(event, *final(self)),
            old(self).reports(event, d),
            old(self).orders(event, d.todo),
    {
        let nothing: Vec<Progress> = Vec::new();
        assert(progress_views(nothing@) =~= Seq::<(Seq<char>, u32, u8)>::empty());
        match event {
            Pass23Event::Start => self.go_on(true, None),
            Pass23Event::Extracted { names } => {
                self.completed = self.completed + 1;
                match &names {
                    Some(v) => append_texts(&mut self.names, v),
                    None => {
                        self.failures = self.failures + 1;
                    },
                }
                let detail = Some(extract_detail(self.completed, self.blocks));
                self.go_on(false, detail)
            },
            Pass23Event::Verified { auto_approve } => {
                self.approved = auto_approve;
                self.stage = Pass23Stage::Storing;
                Pass23Directive {
                    status: None,
                    progress: nothing,
                    detail: None,
                    todo: Pass23Todo::Store { approved: auto_approve },
                }
            },
            Pass23Event::Stored { error } => {
                let todo = match &error {
                    Some(e) => {
                        self.stage = Pass23Stage::Failed;
                        Pass23Todo::Fail {
                            failure: TaskFailure::new(FailureKind::Process, e.text()),
                        }
                    },
                    None => {
                        if self.approved {
                            self.stage = Pass23Stage::Embedding;
                            Pass23Todo::Embed
                        } else {
                            self.stage = Pass23Stage::Finished;
                            Pass23Todo::Finish {
                                count: self.kept.len(),
                                failures: self.failures,
                            }
                        }
                    },
                };
                Pass23Directive { status: None, progress: nothing, detail: None, todo }
            },
            Pass23Event::Embedded => {
                self.stage = Pass23Stage::Finished;
                Pass23Directive {
                    status: None,
                    progress: nothing,
                    detail: None,
                    todo: Pass23Todo::Finish { count: self.kept.len(), failures: self.failures },
                }
            },
        }
    }
}

/// How many blocks could not be read.
pub open spec fn unread(events: Seq<Pass23Event>) -> nat
    decreases events.len(),
{
    if events.len() == 0 {
        0
    } else {
        unread(events.drop_last()) + (if events.last() matches Pass23Event::Extracted { names }
            && names is None {
            1nat
        } else {
            0nat
        })
    }
}

/// The states of the passes one after the other, each following from the one
/// before by its event.
pub open spec fn pass_course(states: Seq<Pass23Run>, events: Seq<Pass23Event>) -> bool {
    &&& states.len() == events.len() + 1
    &&& states[0].wf() && states[0].stage == Pass23Stage::NotStarted
    &&& forall|i: int|
        0 <= i < events.len() ==> states[i].expects(#[trigger] events[i]) && states[i].follows(
            events[i],
            states[i + 1],
        )
}

/// The failures that are reported are exactly the blocks that could not be read:
/// an algorithm that was extracted twice, or a block without one, is no failure.
pub proof fn law_failures_are_unread(states: Seq<Pass23Run>, events: Seq<Pass23Event>)
    requires
        pass_course(states, events),
    ensures
        states.last().failures == unread(events),
    decreases events.len(),
{
    if events.len() > 0 {
        let fewer = events.drop_last();
        let front = states.drop_last();
        assert(pass_course(front, fewer)) by {
            assert forall|i: int| 0 <= i < fewer.len() implies front[i].expects(
                #[trigger] fewer[i],
            ) && front[i].follows(fewer[i], front[i + 1]) by {
                assert(events[i] == fewer[i]);
            }
        }
        law_failures_are_unread(front, fewer);
        let n = events.len() - 1;
        assert(states[n].follows(events[n], states[n + 1]));
    }
}

} // verus!
