//! The course of reading a PDF.
//!
//! A PDF is converted to text, its text is stored and searched, and then its
//! algorithms, repositories, figures and tables enrich it. What the text depends
//! on must work; what only enriches it may fail and then makes the document a
//! partial failure; what only helps is passed over where it fails.

use vstd::prelude::*;

use crate::conversion::{opt_view, PdfParserBackend};
use crate::figures::ExtractedFigure;
use crate::metadata::{field_views, Field};
use crate::naming::{deserved_name, new_filename, FrontMatter};
use crate::pdf_plan::{
    chunk_keys, chunk_keys_in, chunker_input, chunker_text, content_for_record, conversion_plan,
    final_status, final_status_of, insert_metadata, insert_metadata_of, is_plan, low_content,
    low_content_message, low_content_text, low_content_warning, pages_known, record_content,
    strip_nul_bytes, vision_model, vision_model_of, vision_timeout, without_nul, ConversionPlan,
    ConversionRequest, PdfInfo, PdfOwner,
};
use crate::tables::ExtractedTable;
use crate::tasks::{
    and_mark, cat, cat4, is_scoped, is_uuid, name_view, progress_views, reads_as_uuid, scoped,
    FailureKind, Progress, TaskFailure,
};
use crate::text::{chars_of, decimal, put_decimal, put_str, string_of, strs};

verus! {

broadcast use vstd::string::group_string_axioms;

/// What the task is about.
#[derive(Clone, Debug)]
pub struct PdfJob {
    pub owner: PdfOwner,
    /// The document that the PDF was read into before.
    pub existing_document_id: Option<String>,
    pub request: ConversionRequest,
    pub source_url: Option<String>,
    /// Whether only the text is wanted.
    pub skip_extraction: bool,
    /// What the way of conversion is called.
    pub method: String,
}

impl PdfJob {
    pub open spec fn reprocesses(self) -> bool {
        self.existing_document_id is Some
    }

    /// A PDF that was read before is not resumed.
    pub open spec fn wf(self) -> bool {
        self.request.is_reprocess == self.reprocesses()
    }
}

/// Where the task stands.
#[derive(Clone, Copy, Debug, PartialEq, Eq, Structural)]
pub enum PdfStage {
    Loading,
    MarkingProcessing,
    /// The id of the new document is kept, so that a retry uses it again.
    SavingId,
    WritingMetadata,
    EarlyRecord,
    DroppingContent,
    ListingKeys,
    DroppingChunks,
    PurgingVectors,
    PurgingRows,
    PurgingGraph,
    GateConvert,
    MakingProvider,
    Converting,
    ReportingTimeout,
    StoringMarkdown,
    ReadingFrontMatter,
    UpdatingFilename,
    SyncingTitle,
    EarlyFigures,
    EarlyTables,
    GateInsert,
    References,
    Inserting,
    Algorithms,
    ReloadingPdf,
    Repos,
    Figures,
    FigureVectors,
    FigureEntities,
    Tables,
    TableVectors,
    TableEntities,
    Classifying,
    Recording,
    Linking,
    Closing,
    FlaggingSkipped,
    Cleaning,
    Finished,
    Failed,
    Cancelled,
}

/// How far a stage is along the task.
pub open spec fn pdf_rank(stage: PdfStage) -> int {
    match stage {
        PdfStage::Loading => 0,
        PdfStage::MarkingProcessing => 1,
        PdfStage::SavingId => 2,
        PdfStage::WritingMetadata => 3,
        PdfStage::EarlyRecord => 4,
        PdfStage::DroppingContent => 5,
        PdfStage::ListingKeys => 6,
        PdfStage::DroppingChunks => 7,
        PdfStage::PurgingVectors => 8,
        PdfStage::PurgingRows => 9,
        PdfStage::PurgingGraph => 10,
        PdfStage::GateConvert => 11,
        PdfStage::MakingProvider => 12,
        PdfStage::Converting => 13,
        PdfStage::ReportingTimeout => 14,
        PdfStage::StoringMarkdown => 15,
        PdfStage::ReadingFrontMatter => 16,
        PdfStage::UpdatingFilename => 17,
        PdfStage::SyncingTitle => 18,
        PdfStage::EarlyFigures => 19,
        PdfStage::EarlyTables => 20,
        PdfStage::GateInsert => 21,
        PdfStage::References => 22,
        PdfStage::Inserting => 23,
        PdfStage::Algorithms => 24,
        PdfStage::ReloadingPdf => 25,
        PdfStage::Repos => 26,
        PdfStage::Figures => 27,
        PdfStage::FigureVectors => 28,
        PdfStage::FigureEntities => 29,
        PdfStage::Tables => 30,
        PdfStage::TableVectors => 31,
        PdfStage::TableEntities => 32,
        PdfStage::Classifying => 33,
        PdfStage::Recording => 34,
        PdfStage::Linking => 35,
        PdfStage::Closing => 36,
        PdfStage::FlaggingSkipped => 37,
        PdfStage::Cleaning => 38,
        PdfStage::Finished => 39,
        PdfStage::Failed => 40,
        PdfStage::Cancelled => 40,
    }
}

/// What the course of the task depends on.
#[derive(Clone, Copy, Debug, PartialEq, Eq, Structural)]
pub struct PdfFacts {
    pub reprocesses: bool,
    /// The document's id is a UUID, so that it has a record.
    pub has_record: bool,
    pub old_chunks: bool,
    pub vision: bool,
    pub figures: bool,
    pub tables: bool,
    pub blocks: bool,
    pub skip: bool,
}

/// The first stage of what remains when tables were dealt with.
pub open spec fn past_tables(f: PdfFacts) -> PdfStage {
    if f.has_record {
        PdfStage::Recording
    } else {
        PdfStage::Closing
    }
}

/// The first stage of what remains when figures were dealt with.
pub open spec fn past_figures(f: PdfFacts) -> PdfStage {
    if f.tables {
        PdfStage::Tables
    } else {
        past_tables(f)
    }
}

/// The first stage of what remains when algorithms and repositories were dealt
/// with.
pub open spec fn past_repos(f: PdfFacts) -> PdfStage {
    if f.figures {
        PdfStage::Figures
    } else {
        past_figures(f)
    }
}

/// The stage that follows where nothing ends the task.
pub open spec fn stage_past(stage: PdfStage, f: PdfFacts) -> PdfStage {
    match stage {
        PdfStage::Loading => PdfStage::MarkingProcessing,
        PdfStage::MarkingProcessing => if f.reprocesses {
            PdfStage::WritingMetadata
        } else {
            PdfStage::SavingId
        },
        PdfStage::SavingId => PdfStage::WritingMetadata,
        PdfStage::WritingMetadata => if f.has_record {
            PdfStage::EarlyRecord
        } else if f.reprocesses {
            PdfStage::DroppingContent
        } else {
            PdfStage::GateConvert
        },
        PdfStage::EarlyRecord => if f.reprocesses {
            PdfStage::DroppingContent
        } else {
            PdfStage::GateConvert
        },
        PdfStage::DroppingContent => PdfStage::ListingKeys,
        PdfStage::ListingKeys => if f.old_chunks {
            PdfStage::DroppingChunks
        } else {
            PdfStage::PurgingVectors
        },
        PdfStage::DroppingChunks => PdfStage::PurgingVectors,
        PdfStage::PurgingVectors => if f.has_record {
            PdfStage::PurgingRows
        } else {
            PdfStage::PurgingGraph
        },
        PdfStage::PurgingRows => PdfStage::PurgingGraph,
        PdfStage::PurgingGraph => PdfStage::GateConvert,
        PdfStage::GateConvert => if f.vision {
            PdfStage::MakingProvider
        } else {
            PdfStage::Converting
        },
        PdfStage::MakingProvider => PdfStage::Converting,
        PdfStage::Converting => PdfStage::StoringMarkdown,
        PdfStage::ReportingTimeout => PdfStage::Failed,
        PdfStage::StoringMarkdown => PdfStage::ReadingFrontMatter,
        PdfStage::ReadingFrontMatter => PdfStage::UpdatingFilename,
        PdfStage::UpdatingFilename => PdfStage::SyncingTitle,
        PdfStage::SyncingTitle => if f.figures {
            PdfStage::EarlyFigures
        } else if f.tables {
            PdfStage::EarlyTables
        } else {
            PdfStage::GateInsert
        },
        PdfStage::EarlyFigures => if f.tables {
            PdfStage::EarlyTables
        } else {
            PdfStage::GateInsert
        },
        PdfStage::EarlyTables => PdfStage::GateInsert,
        PdfStage::GateInsert => PdfStage::References,
        PdfStage::References => PdfStage::Inserting,
        PdfStage::Inserting => if f.skip {
            past_repos(f)
        } else if f.blocks {
            PdfStage::Algorithms
        } else {
            PdfStage::ReloadingPdf
        },
        PdfStage::Algorithms => PdfStage::ReloadingPdf,
        PdfStage::ReloadingPdf => PdfStage::Repos,
        PdfStage::Repos => past_repos(f),
        PdfStage::Figures => PdfStage::FigureVectors,
        PdfStage::FigureVectors => if f.skip {
            past_figures(f)
        } else {
            PdfStage::FigureEntities
        },
        PdfStage::FigureEntities => past_figures(f),
        PdfStage::Tables => PdfStage::TableVectors,
        PdfStage::TableVectors => if f.skip {
            past_tables(f)
        } else {
            PdfStage::TableEntities
        },
        PdfStage::TableEntities => if f.has_record {
            PdfStage::Classifying
        } else {
            past_tables(f)
        },
        PdfStage::Classifying => past_tables(f),
        PdfStage::Recording => PdfStage::Linking,
        PdfStage::Linking => PdfStage::Closing,
        PdfStage::Closing => if f.skip {
            PdfStage::FlaggingSkipped
        } else {
            PdfStage::Cleaning
        },
        PdfStage::FlaggingSkipped => PdfStage::Cleaning,
        PdfStage::Cleaning => PdfStage::Finished,
        PdfStage::Finished => PdfStage::Finished,
        PdfStage::Failed => PdfStage::Failed,
        PdfStage::Cancelled => PdfStage::Cancelled,
    }
}

fn after_figures(f: &PdfFacts) -> (r: PdfStage)
    ensures
        r == past_figures(*f),
{
    if f.tables {
        PdfStage::Tables
    } else if f.has_record {
        PdfStage::Recording
    } else {
        PdfStage::Closing
    }
}

fn after_repos(f: &PdfFacts) -> (r: PdfStage)
    ensures
        r == past_repos(*f),
{
    if f.figures {
        PdfStage::Figures
    } else {
        after_figures(f)
    }
}

fn before_conversion(stage: PdfStage, f: &PdfFacts) -> (r: PdfStage)
    requires
        pdf_rank(stage) <= 11,
    ensures
        r == stage_past(stage, *f),
{
    let cleanup = if f.reprocesses {
        PdfStage::DroppingContent
    } else {
        PdfStage::GateConvert
    };
    match stage {
        PdfStage::Loading => PdfStage::MarkingProcessing,
        PdfStage::MarkingProcessing => if f.reprocesses {
            PdfStage::WritingMetadata
        } else {
            PdfStage::SavingId
        },
        PdfStage::SavingId => PdfStage::WritingMetadata,
        PdfStage::WritingMetadata => if f.has_record {
            PdfStage::EarlyRecord
        } else {
            cleanup
        },
        PdfStage::EarlyRecord => cleanup,
        PdfStage::DroppingContent => PdfStage::ListingKeys,
        PdfStage::ListingKeys => if f.old_chunks {
            PdfStage::DroppingChunks
        } else {
            PdfStage::PurgingVectors
        },
        PdfStage::DroppingChunks => PdfStage::PurgingVectors,
        PdfStage::PurgingVectors => if f.has_record {
            PdfStage::PurgingRows
        } else {
            PdfStage::PurgingGraph
        },
        PdfStage::PurgingRows => PdfStage::PurgingGraph,
        PdfStage::PurgingGraph => PdfStage::GateConvert,
        _ => if f.vision {
            PdfStage::MakingProvider
        } else {
            PdfStage::Converting
        },
    }
}

fn next_stage(stage: PdfStage, f: &PdfFacts) -> (r: PdfStage)
    ensures
        r == stage_past(stage, *f),
{
    let early_tables = if f.tables {
        PdfStage::EarlyTables
    } else {
        PdfStage::GateInsert
    };
    let end = if f.has_record {
        PdfStage::Recording
    } else {
        PdfStage::Closing
    };
    match stage {
        PdfStage::MakingProvider => PdfStage::Converting,
        PdfStage::Converting => PdfStage::StoringMarkdown,
        PdfStage::ReportingTimeout => PdfStage::Failed,
        PdfStage::StoringMarkdown => PdfStage::ReadingFrontMatter,
        PdfStage::ReadingFrontMatter => PdfStage::UpdatingFilename,
        PdfStage::UpdatingFilename => PdfStage::SyncingTitle,
        PdfStage::SyncingTitle => if f.figures {
            PdfStage::EarlyFigures
        } else {
            early_tables
        },
        PdfStage::EarlyFigures => early_tables,
        PdfStage::EarlyTables => PdfStage::GateInsert,
        PdfStage::GateInsert => PdfStage::References,
        PdfStage::References => PdfStage::Inserting,
        PdfStage::Inserting => if f.skip {
            after_repos(f)
        } else if f.blocks {
            PdfStage::Algorithms
        } else {
            PdfStage::ReloadingPdf
        },
        PdfStage::Algorithms => PdfStage::ReloadingPdf,
        PdfStage::ReloadingPdf => PdfStage::Repos,
        PdfStage::Repos => after_repos(f),
        PdfStage::Figures => PdfStage::FigureVectors,
        PdfStage::FigureVectors => if f.skip {
            after_figures(f)
        } else {
            PdfStage::FigureEntities
        },
        PdfStage::FigureEntities => after_figures(f),
        PdfStage::Tables => PdfStage::TableVectors,
        PdfStage::TableVectors => if f.skip {
            end
        } else {
            PdfStage::TableEntities
        },
        PdfStage::TableEntities => if f.has_record {
            PdfStage::Classifying
        } else {
            end
        },
        PdfStage::Classifying => end,
        PdfStage::Recording => PdfStage::Linking,
        PdfStage::Linking => PdfStage::Closing,
        PdfStage::Closing => if f.skip {
            PdfStage::FlaggingSkipped
        } else {
            PdfStage::Cleaning
        },
        PdfStage::FlaggingSkipped => PdfStage::Cleaning,
        PdfStage::Cleaning => PdfStage::Finished,
        PdfStage::Finished => PdfStage::Finished,
        PdfStage::Failed => PdfStage::Failed,
        PdfStage::Cancelled => PdfStage::Cancelled,
        other => before_conversion(other, f),
    }
}

/// What came of a conversion.
#[derive(Clone, Debug)]
pub enum ConversionOutcome {
    Done {
        markdown: String,
        figures: Vec<ExtractedFigure>,
        tables: Vec<ExtractedTable>,
        blocks: usize,
    },
    Failed { error: String },
    TimedOut,
}

/// What happened outside.
#[derive(Debug)]
pub enum PdfEvent {
    /// The PDF, if it is there.
    Loaded { pdf: Result<Option<PdfInfo>, String> },
    /// What was to be done was done, or went wrong.
    Done { error: Option<String> },
    /// All keys of the store; none if they could not be listed.
    Keys { keys: Vec<String> },
    Gate { cancelled: bool },
    Converted { outcome: ConversionOutcome },
    /// What the first page says, if it could be read.
    FrontMatterRead { front: Option<FrontMatter> },
    /// The text was stored, with this final status if it says one.
    Inserted { result: Result<Option<String>, TaskFailure> },
    /// The algorithms were extracted, and so many blocks could not be read; or
    /// nothing where the extraction failed.
    AlgorithmsExtracted { failures: Option<usize> },
}

/// What to do next.
#[derive(Clone, Debug)]
pub enum PdfTodo {
    LoadPdf,
    MarkProcessing,
    SaveId,
    /// Write the metadata that the document has from the start.
    WriteMetadata { key: String },
    EnsureRecord { title: String, content: String, status: &'static str },
    DeleteContent { key: String },
    ListKeys,
    DeleteChunks,
    PurgeVectors,
    PurgeRows,
    PurgeGraph,
    CheckCancelled { stage: &'static str },
    MakeProvider { provider: String, model: String },
    Convert { plan: ConversionPlan },
    /// Mark the document as failed, with this message.
    ReportTimeout { message: String },
    StoreMarkdown { model: Option<String> },
    ReadFrontMatter,
    UpdateFilename { name: String },
    SyncTitle { name: String },
    BackfillFigures,
    BackfillTables,
    ParseReferences,
    InsertText { text: String, metadata: Vec<Field> },
    /// Extract the algorithms, with the models of this workspace if it is worth
    /// looking up.
    ExtractAlgorithms { workspace: Option<String> },
    ReloadPdf,
    DetectRepos,
    EmbedFigures,
    ReadFigures,
    EmbedTables,
    LinkTables,
    ClassifyTables,
    LinkPdf,
    SetFinalStatus { status: String },
    FlagSkipped,
    RemoveProgress,
    Finish,
    Fail { failure: TaskFailure },
    Cancel,
}

/// What to report, and what to do next.
#[derive(Clone, Debug)]
pub struct PdfDirective {
    pub status: Option<&'static str>,
    pub progress: Vec<Progress>,
    pub todo: PdfTodo,
}

/// The task of reading a PDF.
#[derive(Clone, Debug)]
pub struct PdfRun {
    pub stage: PdfStage,
    pub document_id: String,
    /// Whether the document has a record.
    pub has_record: bool,
    pub pdf: PdfInfo,
    /// The keys of the chunks that the document had.
    pub old_chunks: Vec<String>,
    pub markdown: String,
    /// How many bytes a page has where that is suspiciously little.
    pub low_content: Option<usize>,
    pub figures: Vec<ExtractedFigure>,
    pub tables: Vec<ExtractedTable>,
    pub blocks: usize,
    /// The name that the document should get.
    pub new_name: String,
    pub text_status: String,
    pub enrichment_failed: bool,
}

/// What is said where there is no storage for PDFs.
pub open spec fn no_storage() -> Seq<char> {
    "PDF storage not available (postgres feature enabled but storage not initialized)"@
}

/// What is said in the document where its conversion took too long.
pub open spec fn timeout_notice(seconds: nat, provider: Seq<char>) -> Seq<char> {
    "Vision extraction timed out after "@ + decimal(seconds)
        + "s. Check that the LLM provider ("@ + provider + ") is reachable."@
}

/// What is said by the task where the conversion took too long.
pub open spec fn timeout_failure(seconds: nat, pdf_id: Seq<char>, provider: Seq<char>) -> Seq<char> {
    "Vision extraction timed out after "@ + decimal(seconds) + "s for PDF "@ + pdf_id
        + ". Provider '"@ + provider + "' may be unresponsive."@
}

impl PdfRun {
    pub open spec fn facts(self, job: PdfJob) -> PdfFacts {
        PdfFacts {
            reprocesses: job.reprocesses(),
            has_record: self.has_record,
            old_chunks: self.old_chunks@.len() > 0,
            vision: job.request.backend == PdfParserBackend::Vision,
            figures: self.figures@.len() > 0,
            tables: self.tables@.len() > 0,
            blocks: self.blocks > 0,
            skip: job.skip_extraction,
        }
    }

    /// The task can be in this state.
    pub open spec fn wf(self, job: PdfJob) -> bool {
        &&& job.wf()
        &&& self.has_record == is_uuid(self.document_id@)
        &&& (self.stage == PdfStage::MakingProvider || self.stage == PdfStage::ReportingTimeout)
            ==> job.request.backend == PdfParserBackend::Vision
        &&& job.request.backend != PdfParserBackend::VlmOcr ==> self.figures@.len() == 0
            && self.tables@.len() == 0 && self.blocks == 0
    }

    /// The event can happen in this state.
    pub open spec fn expects(self, job: PdfJob, event: PdfEvent) -> bool {
        match event {
            PdfEvent::Loaded { .. } => self.stage == PdfStage::Loading,
            PdfEvent::Keys { .. } => self.stage == PdfStage::ListingKeys,
            PdfEvent::Gate { .. } => self.stage == PdfStage::GateConvert || self.stage
                == PdfStage::GateInsert,
            PdfEvent::Converted { outcome } => self.stage == PdfStage::Converting && (outcome
                is TimedOut ==> job.request.backend == PdfParserBackend::Vision),
            PdfEvent::FrontMatterRead { .. } => self.stage == PdfStage::ReadingFrontMatter,
            PdfEvent::Inserted { .. } => self.stage == PdfStage::Inserting,
            PdfEvent::AlgorithmsExtracted { .. } => self.stage == PdfStage::Algorithms,
            PdfEvent::Done { .. } => !(self.stage == PdfStage::Loading || self.stage
                == PdfStage::ListingKeys || self.stage == PdfStage::GateConvert || self.stage
                == PdfStage::GateInsert || self.stage == PdfStage::Converting || self.stage
                == PdfStage::ReadingFrontMatter || self.stage == PdfStage::Inserting || self.stage
                == PdfStage::Algorithms || self.stage == PdfStage::Finished || self.stage
                == PdfStage::Failed || self.stage == PdfStage::Cancelled),
        }
    }

    /// The failure that an event causes: its sort and what it says.
    pub open spec fn fault(self, job: PdfJob, event: PdfEvent) -> Option<
        (FailureKind, Seq<char>),
    > {
        match event {
            PdfEvent::Loaded { pdf } => match pdf {
                Err(e) => Some(
                    (
                        FailureKind::Storage,
                        "Failed to load PDF "@ + job.owner.pdf_id@ + ": "@ + e@,
                    ),
                ),
                Ok(None) => Some(
                    (FailureKind::NotFound, "PDF not found: "@ + job.owner.pdf_id@),
                ),
                Ok(Some(_)) => None,
            },
            PdfEvent::Gate { cancelled: false } => if self.stage == PdfStage::GateConvert
                && job.request.backend == PdfParserBackend::Vision && !job.request.enable_vision {
                Some(
                    (
                        FailureKind::UnsupportedOperation,
                        "Vision PDF extraction requires enable_vision=true."@,
                    ),
                )
            } else {
                None
            },
            PdfEvent::Converted { outcome: ConversionOutcome::Failed { error } } => Some(
                (FailureKind::Processing, "PDF conversion failed: "@ + error@),
            ),
            PdfEvent::Inserted { result: Err(f) } => Some((f.kind, f.message@)),
            PdfEvent::Done { error } => if self.stage == PdfStage::ReportingTimeout {
                Some(
                    (
                        FailureKind::Timeout,
                        timeout_failure(
                            vision_timeout(job.request, pages_known(self.pdf.page_count)) as nat,
                            job.owner.pdf_id@,
                            job.request.vision_provider@,
                        ),
                    ),
                )
            } else {
                match error {
                    None => None,
                    Some(e) => match self.stage {
                        PdfStage::MarkingProcessing | PdfStage::WritingMetadata
                        | PdfStage::StoringMarkdown => Some((FailureKind::Storage, e@)),
                        PdfStage::EarlyRecord => Some(
                            (
                                FailureKind::Storage,
                                "Failed to create early documents row: "@ + e@,
                            ),
                        ),
                        PdfStage::MakingProvider => Some(
                            (
                                FailureKind::Processing,
                                "Failed to create vision provider '"@
                                    + job.request.vision_provider@ + "': "@ + e@,
                            ),
                        ),
                        _ => None,
                    },
                }
            },
            _ => None,
        }
    }

    /// The event is a failure that makes the document a partial one.
    pub open spec fn degrades(self, event: PdfEvent) -> bool {
        match event {
            PdfEvent::Done { error: Some(_) } => self.stage == PdfStage::Repos || self.stage
                == PdfStage::Figures || self.stage == PdfStage::Tables,
            PdfEvent::AlgorithmsExtracted { failures } => failures != Some(0usize),
            _ => false,
        }
    }

    /// What the first page makes of the document's name.
    pub open spec fn name_from(self, job: PdfJob, front: Option<FrontMatter>) -> Option<Seq<char>> {
        let name = deserved_name(front, opt_view(job.source_url));
        if name == Some(self.pdf.filename@) {
            None
        } else {
            name
        }
    }

    /// What the task knows after an event.
    pub open spec fn learns(self, job: PdfJob, event: PdfEvent, next: PdfRun) -> bool {
        &&& next.document_id@ == self.document_id@
        &&& next.has_record == self.has_record
        &&& match event {
            PdfEvent::Loaded { pdf: Ok(Some(p)) } => next.pdf == p,
            PdfEvent::Done { error: None } => if self.stage == PdfStage::UpdatingFilename {
                next.pdf.filename@ == self.new_name@ && next.pdf.page_count == self.pdf.page_count
                    && next.pdf.file_size_bytes == self.pdf.file_size_bytes
                    && next.pdf.sha256_checksum@ == self.pdf.sha256_checksum@
            } else {
                next.pdf == self.pdf
            },
            _ => next.pdf == self.pdf,
        }
        &&& match event {
            PdfEvent::Keys { keys } => strs(next.old_chunks@) == chunk_keys_in(
                strs(keys@),
                self.document_id@,
            ),
            _ => next.old_chunks == self.old_chunks,
        }
        &&& match event {
            PdfEvent::Converted {
                outcome: ConversionOutcome::Done { markdown, figures, tables, blocks },
            } => {
                &&& next.markdown@ == without_nul(markdown@)
                &&& match next.low_content {
                    Some(n) => low_content(
                        job.request.backend,
                        next.markdown@,
                        self.pdf.page_count,
                    ) == Some(n as int),
                    None => low_content(
                        job.request.backend,
                        next.markdown@,
                        self.pdf.page_count,
                    ) is None,
                }
                &&& if job.request.backend == PdfParserBackend::VlmOcr {
                    next.figures == figures && next.tables == tables && next.blocks == blocks
                } else {
                    next.figures@.len() == 0 && next.tables@.len() == 0 && next.blocks == 0
                }
            },
            _ => next.markdown == self.markdown && next.low_content == self.low_content
                && next.figures == self.figures && next.tables == self.tables && next.blocks
                == self.blocks,
        }
        &&& match event {
            PdfEvent::FrontMatterRead { front } => match self.name_from(job, front) {
                Some(n) => next.new_name@ == n,
                None => next.new_name == self.new_name,
            },
            _ => next.new_name == self.new_name,
        }
        &&& match event {
            PdfEvent::Inserted { result: Ok(status) } => next.text_status@ == (match status {
                Some(s) => s@,
                None => "completed"@,
            }),
            _ => next.text_status == self.text_status,
        }
        &&& next.enrichment_failed == (self.enrichment_failed || self.degrades(event))
    }

    /// Where the task stands after an event, given what it knows then.
    pub open spec fn stage_after(self, job: PdfJob, event: PdfEvent, f: PdfFacts) -> PdfStage {
        if event == (PdfEvent::Gate { cancelled: true }) {
            PdfStage::Cancelled
        } else if self.fault(job, event) is Some {
            PdfStage::Failed
        } else {
            match event {
                PdfEvent::Converted { outcome: ConversionOutcome::TimedOut } => {
                    PdfStage::ReportingTimeout
                },
                PdfEvent::FrontMatterRead { front } => if self.name_from(job, front) is Some {
                    PdfStage::UpdatingFilename
                } else {
                    stage_past(PdfStage::SyncingTitle, f)
                },
                PdfEvent::Done { error } => if self.stage == PdfStage::UpdatingFilename && error
                    is Some {
                    stage_past(PdfStage::SyncingTitle, f)
                } else {
                    stage_past(self.stage, f)
                },
                _ => stage_past(self.stage, f),
            }
        }
    }

    /// The state that follows.
    pub open spec fn follows(self, job: PdfJob, event: PdfEvent, next: PdfRun) -> bool {
        &&& self.learns(job, event, next)
        &&& next.stage == self.stage_after(job, event, next.facts(job))
    }
}

/// A step from one stage to another passes a rank, unless the task ended early.
pub open spec fn passes(from: PdfStage, to: PdfStage, rank: int) -> bool {
    pdf_rank(from) < rank <= pdf_rank(to) <= 39
}

/// A list with a mark if something holds.
pub open spec fn with_mark(
    list: Seq<(Seq<char>, u32, u8)>,
    holds: bool,
    stage: Seq<char>,
    step: u32,
    percent: u8,
) -> Seq<(Seq<char>, u32, u8)> {
    if holds {
        list.push((stage, step, percent))
    } else {
        list
    }
}

/// The progress that is reported between two stages.
pub open spec fn progress_between(from: PdfStage, to: PdfStage) -> Seq<(Seq<char>, u32, u8)> {
    let l0 = Seq::<(Seq<char>, u32, u8)>::empty();
    let l1 = with_mark(l0, passes(from, to, 2), "pdf_loading"@, 1, 5);
    let l2 = with_mark(l1, passes(from, to, 11), "pdf_converting"@, 2, 10);
    let l3 = with_mark(l2, passes(from, to, 15), "storing_markdown"@, 3, 45);
    let l4 = with_mark(l3, passes(from, to, 21), "entity_extraction"@, 5, 60);
    let l5 = with_mark(l4, to == PdfStage::Algorithms, "algo_extracting"@, 5, 70);
    let l6 = with_mark(l5, passes(from, to, 27), "media_enrichment"@, 6, 75);
    let l7 = with_mark(l6, to == PdfStage::Classifying, "classifying_tables"@, 6, 90);
    let l8 = with_mark(l7, passes(from, to, 34), "linking"@, 5, 95);
    with_mark(l8, passes(from, to, 38), "completed"@, 7, 100)
}

/// The status that the document gets between two stages.
pub open spec fn status_between(from: PdfStage, to: PdfStage) -> Option<Seq<char>> {
    if to == PdfStage::Algorithms {
        Some("algo_extracting"@)
    } else if to == PdfStage::Classifying {
        Some("classifying_tables"@)
    } else if passes(from, to, 27) {
        Some("media_enrichment"@)
    } else {
        None
    }
}

fn rank_of(stage: PdfStage) -> (r: u8)
    ensures
        r == pdf_rank(stage),
{
    match stage {
        PdfStage::Loading => 0,
        PdfStage::MarkingProcessing => 1,
        PdfStage::SavingId => 2,
        PdfStage::WritingMetadata => 3,
        PdfStage::EarlyRecord => 4,
        PdfStage::DroppingContent => 5,
        PdfStage::ListingKeys => 6,
        PdfStage::DroppingChunks => 7,
        PdfStage::PurgingVectors => 8,
        PdfStage::PurgingRows => 9,
        PdfStage::PurgingGraph => 10,
        PdfStage::GateConvert => 11,
        PdfStage::MakingProvider => 12,
        PdfStage::Converting => 13,
        PdfStage::ReportingTimeout => 14,
        PdfStage::StoringMarkdown => 15,
        PdfStage::ReadingFrontMatter => 16,
        PdfStage::UpdatingFilename => 17,
        PdfStage::SyncingTitle => 18,
        PdfStage::EarlyFigures => 19,
        PdfStage::EarlyTables => 20,
        PdfStage::GateInsert => 21,
        PdfStage::References => 22,
        PdfStage::Inserting => 23,
        PdfStage::Algorithms => 24,
        PdfStage::ReloadingPdf => 25,
        PdfStage::Repos => 26,
        PdfStage::Figures => 27,
        PdfStage::FigureVectors => 28,
        PdfStage::FigureEntities => 29,
        PdfStage::Tables => 30,
        PdfStage::TableVectors => 31,
        PdfStage::TableEntities => 32,
        PdfStage::Classifying => 33,
        PdfStage::Recording => 34,
        PdfStage::Linking => 35,
        PdfStage::Closing => 36,
        PdfStage::FlaggingSkipped => 37,
        PdfStage::Cleaning => 38,
        PdfStage::Finished => 39,
        PdfStage::Failed => 40,
        PdfStage::Cancelled => 40,
    }
}

fn does_pass(from: PdfStage, to: PdfStage, rank: u8) -> (r: bool)
    ensures
        r == passes(from, to, rank as int),
{
    let a = rank_of(from);
    let b = rank_of(to);
    a < rank && rank <= b && b <= 39
}

fn maybe_mark(
    list: Vec<Progress>,
    holds: bool,
    stage: &'static str,
    step: u32,
    percent: u8,
) -> (r: Vec<Progress>)
    ensures
        progress_views(r@) == with_mark(progress_views(list@), holds, stage@, step, percent),
{
    if holds {
        and_mark(list, stage, step, percent)
    } else {
        list
    }
}

fn progress_of(from: PdfStage, to: PdfStage) -> (r: Vec<Progress>)
    ensures
        progress_views(r@) == progress_between(from, to),
{
    let l0: Vec<Progress> = Vec::new();
    assert(progress_views(l0@) =~= Seq::<(Seq<char>, u32, u8)>::empty());
    let l1 = maybe_mark(l0, does_pass(from, to, 2), "pdf_loading", 1, 5);
    let l2 = maybe_mark(l1, does_pass(from, to, 11), "pdf_converting", 2, 10);
    let l3 = maybe_mark(l2, does_pass(from, to, 15), "storing_markdown", 3, 45);
    let l4 = maybe_mark(l3, does_pass(from, to, 21), "entity_extraction", 5, 60);
    let l5 = maybe_mark(l4, to == PdfStage::Algorithms, "algo_extracting", 5, 70);
    let l6 = maybe_mark(l5, does_pass(from, to, 27), "media_enrichment", 6, 75);
    let l7 = maybe_mark(l6, to == PdfStage::Classifying, "classifying_tables", 6, 90);
    let l8 = maybe_mark(l7, does_pass(from, to, 34), "linking", 5, 95);
    maybe_mark(l8, does_pass(from, to, 38), "completed", 7, 100)
}

fn status_of(from: PdfStage, to: PdfStage) -> (r: Option<&'static str>)
    ensures
        name_view(r) == status_between(from, to),
{
    if to == PdfStage::Algorithms {
        Some("algo_extracting")
    } else if to == PdfStage::Classifying {
        Some("classifying_tables")
    } else if does_pass(from, to, 27) {
        Some("media_enrichment")
    } else {
        None
    }
}

fn timeout_notice_of(seconds: u64, provider: &str) -> (r: String)
    ensures
        r@ == timeout_notice(seconds as nat, provider@),
{
    let mut out = chars_of("Vision extraction timed out after ");
    put_decimal(seconds, &mut out);
    put_str("s. Check that the LLM provider (", &mut out);
    put_str(provider, &mut out);
    put_str(") is reachable.", &mut out);
    assert(out@ =~= timeout_notice(seconds as nat, provider@));
    string_of(&out)
}

fn timeout_failure_of(seconds: u64, pdf_id: &str, provider: &str) -> (r: String)
    ensures
        r@ == timeout_failure(seconds as nat, pdf_id@, provider@),
{
    let mut out = chars_of("Vision extraction timed out after ");
    put_decimal(seconds, &mut out);
    put_str("s for PDF ", &mut out);
    put_str(pdf_id, &mut out);
    put_str(". Provider '", &mut out);
    put_str(provider, &mut out);
    put_str("' may be unresponsive.", &mut out);
    assert(out@ =~= timeout_failure(seconds as nat, pdf_id@, provider@));
    string_of(&out)
}

impl PdfRun {
    /// What to do in a state that no failure led to.
    pub open spec fn orders(self, job: PdfJob, todo: PdfTodo) -> bool {
        match self.stage {
            PdfStage::Loading => todo is LoadPdf,
            PdfStage::MarkingProcessing => todo is MarkProcessing,
            PdfStage::SavingId => todo is SaveId,
            PdfStage::WritingMetadata => todo matches PdfTodo::WriteMetadata { key } && key@
                == self.document_id@ + "-metadata"@,
            PdfStage::EarlyRecord => todo matches PdfTodo::EnsureRecord { title, content, status }
                && title@ == self.pdf.filename@ && content@.len() == 0 && status@
                == "processing"@,
            PdfStage::DroppingContent => todo matches PdfTodo::DeleteContent { key } && key@
                == self.document_id@ + "-content"@,
            PdfStage::ListingKeys => todo is ListKeys,
            PdfStage::DroppingChunks => todo is DeleteChunks,
            PdfStage::PurgingVectors => todo is PurgeVectors,
            PdfStage::PurgingRows => todo is PurgeRows,
            PdfStage::PurgingGraph => todo is PurgeGraph,
            PdfStage::GateConvert => todo matches PdfTodo::CheckCancelled { stage } && stage@
                == "pre-vision-extraction"@,
            PdfStage::MakingProvider => todo matches PdfTodo::MakeProvider { provider, model }
                && provider@ == job.request.vision_provider@ && vision_model(job.request) == Some(
                model@,
            ),
            PdfStage::Converting => todo matches PdfTodo::Convert { plan } && is_plan(
                plan,
                job.request,
                self.pdf.page_count,
            ),
            PdfStage::ReportingTimeout => todo matches PdfTodo::ReportTimeout { message }
                && message@ == timeout_notice(
                vision_timeout(job.request, pages_known(self.pdf.page_count)) as nat,
                job.request.vision_provider@,
            ),
            PdfStage::StoringMarkdown => todo matches PdfTodo::StoreMarkdown { model } && opt_view(
                model,
            ) == vision_model(job.request),
            PdfStage::ReadingFrontMatter => todo is ReadFrontMatter,
            PdfStage::UpdatingFilename => todo matches PdfTodo::UpdateFilename { name } && name@
                == self.new_name@,
            PdfStage::SyncingTitle => todo matches PdfTodo::SyncTitle { name } && name@
                == self.pdf.filename@,
            PdfStage::EarlyFigures => todo is BackfillFigures,
            PdfStage::EarlyTables => todo is BackfillTables,
            PdfStage::GateInsert => todo matches PdfTodo::CheckCancelled { stage } && stage@
                == "pre-text-insert"@,
            PdfStage::References => todo is ParseReferences,
            PdfStage::Inserting => todo matches PdfTodo::InsertText { text, metadata } && text@
                == chunker_text(self.markdown@, self.tables@) && field_views(metadata@)
                == insert_metadata_of(
                self.document_id@,
                self.pdf.filename@,
                self.pdf,
                job.owner,
                vision_model(job.request),
                job.method@,
                if self.low_content is Some {
                    Some(low_content_text())
                } else {
                    None
                },
                job.skip_extraction,
            ),
            PdfStage::Algorithms => todo matches PdfTodo::ExtractAlgorithms { workspace }
                && opt_view(workspace) == (if scoped(job.owner.workspace_id@) {
                Some(job.owner.workspace_id@)
            } else {
                None
            }),
            PdfStage::ReloadingPdf => todo is ReloadPdf,
            PdfStage::Repos => todo is DetectRepos,
            PdfStage::Figures => todo is BackfillFigures,
            PdfStage::FigureVectors => todo is EmbedFigures,
            PdfStage::FigureEntities => todo is ReadFigures,
            PdfStage::Tables => todo is BackfillTables,
            PdfStage::TableVectors => todo is EmbedTables,
            PdfStage::TableEntities => todo is LinkTables,
            PdfStage::Classifying => todo is ClassifyTables,
            PdfStage::Recording => todo matches PdfTodo::EnsureRecord { title, content, status }
                && title@ == self.pdf.filename@ && content@ == record_content(self.markdown@)
                && status@ == "indexed"@,
            PdfStage::Linking => todo is LinkPdf,
            PdfStage::Closing => todo matches PdfTodo::SetFinalStatus { status } && status@
                == final_status(self.text_status@, self.enrichment_failed),
            PdfStage::FlaggingSkipped => todo is FlagSkipped,
            PdfStage::Cleaning => todo is RemoveProgress,
            PdfStage::Finished => todo is Finish,
            PdfStage::Failed => true,
            PdfStage::Cancelled => todo is Cancel,
        }
    }

    /// Begins the task. A new document gets the fresh id; one that was read
    /// before keeps its own.
    pub fn start(job: &PdfJob, has_storage: bool, fresh_id: String) -> (r: Result<
        PdfRun,
        TaskFailure,
    >)
        requires
            job.wf(),
        ensures
            match r {
                Err(f) => !has_storage && f.says(FailureKind::UnsupportedOperation, no_storage()),
                Ok(run) => {
                    &&& has_storage
                    &&& run.wf(*job)
                    &&& run.stage == PdfStage::Loading
                    &&& run.document_id@ == (match job.existing_document_id {
                        Some(d) => d@,
                        None => fresh_id@,
                    })
                    &&& run.has_record == is_uuid(run.document_id@)
                    &&& run.pdf.filename@.len() == 0
                    &&& run.pdf.page_count is None
                    &&& run.pdf.file_size_bytes == 0
                    &&& run.pdf.sha256_checksum@.len() == 0
                    &&& run.old_chunks@.len() == 0
                    &&& run.markdown@.len() == 0
                    &&& run.low_content is None
                    &&& run.figures@.len() == 0
                    &&& run.tables@.len() == 0
                    &&& run.blocks == 0
                    &&& run.new_name@.len() == 0
                    &&& run.text_status@.len() == 0
                    &&& !run.enrichment_failed
                },
            },
    {
        if !has_storage {
            return Err(
                TaskFailure::new(
                    FailureKind::UnsupportedOperation,
                    "PDF storage not available (postgres feature enabled but storage not initialized)".to_owned(),
                ),
            );
        }
        let document_id = match &job.existing_document_id {
            Some(d) => d.clone(),
            None => fresh_id,
        };
        let has_record = reads_as_uuid(document_id.as_str());
        Ok(
            PdfRun {
                stage: PdfStage::Loading,
                document_id,
                has_record,
                pdf: PdfInfo {
                    filename: String::new(),
                    page_count: None,
                    file_size_bytes: 0,
                    sha256_checksum: String::new(),
                },
                old_chunks: Vec::new(),
                markdown: String::new(),
                low_content: None,
                figures: Vec::new(),
                tables: Vec::new(),
                blocks: 0,
                new_name: String::new(),
                text_status: String::new(),
                enrichment_failed: false,
            },
        )
    }

    fn facts_of(&self, job: &PdfJob) -> (r: PdfFacts)
        ensures
            r == self.facts(*job),
    {
        PdfFacts {
            reprocesses: job.existing_document_id.is_some(),
            has_record: self.has_record,
            old_chunks: self.old_chunks.len() > 0,
            vision: job.request.backend == PdfParserBackend::Vision,
            figures: self.figures.len() > 0,
            tables: self.tables.len() > 0,
            blocks: self.blocks > 0,
            skip: job.skip_extraction,
        }
    }

    fn timeout_secs(&self, job: &PdfJob) -> (r: u64)
        requires
            job.request.backend == PdfParserBackend::Vision,
        ensures
            r == vision_timeout(job.request, pages_known(self.pdf.page_count)),
    {
        match conversion_plan(&job.request, self.pdf.page_count).timeout_secs {
            Some(t) => t,
            None => 0,
        }
    }

    fn early_todo(&self, job: &PdfJob) -> (todo: PdfTodo)
        requires
            self.wf(*job),
            pdf_rank(self.stage) <= 15,
        ensures
            self.orders(*job, todo),
    {
        match self.stage {
            PdfStage::Loading => PdfTodo::LoadPdf,
            PdfStage::MarkingProcessing => PdfTodo::MarkProcessing,
            PdfStage::SavingId => PdfTodo::SaveId,
            PdfStage::WritingMetadata => PdfTodo::WriteMetadata {
                key: cat(self.document_id.as_str(), "-metadata"),
            },
            PdfStage::EarlyRecord => PdfTodo::EnsureRecord {
                title: self.pdf.filename.clone(),
                content: String::new(),
                status: "processing",
            },
            PdfStage::DroppingContent => PdfTodo::DeleteContent {
                key: cat(self.document_id.as_str(), "-content"),
            },
            PdfStage::ListingKeys => PdfTodo::ListKeys,
            PdfStage::DroppingChunks => PdfTodo::DeleteChunks,
            PdfStage::PurgingVectors => PdfTodo::PurgeVectors,
            PdfStage::PurgingRows => PdfTodo::PurgeRows,
            PdfStage::PurgingGraph => PdfTodo::PurgeGraph,
            PdfStage::GateConvert => PdfTodo::CheckCancelled { stage: "pre-vision-extraction" },
            PdfStage::MakingProvider => {
                let model = match vision_model_of(&job.request) {
                    Some(m) => m,
                    None => String::new(),
                };
                PdfTodo::MakeProvider { provider: job.request.vision_provider.clone(), model }
            },
            PdfStage::Converting => PdfTodo::Convert {
                plan: conversion_plan(&job.request, self.pdf.page_count),
            },
            PdfStage::ReportingTimeout => PdfTodo::ReportTimeout {
                message: timeout_notice_of(
                    self.timeout_secs(job),
                    job.request.vision_provider.as_str(),
                ),
            },
            _ => PdfTodo::StoreMarkdown { model: vision_model_of(&job.request) },
        }
    }

    fn insert_todo(&self, job: &PdfJob) -> (todo: PdfTodo)
        requires
            self.stage == PdfStage::Inserting,
        ensures
            self.orders(*job, todo),
    {
        let warning = low_content_message(self.low_content);
        let model = vision_model_of(&job.request);
        let metadata = insert_metadata(
            self.document_id.as_str(),
            self.pdf.filename.as_str(),
            &self.pdf,
            &job.owner,
            &model,
            job.method.as_str(),
            &warning,
            job.skip_extraction,
        );
        PdfTodo::InsertText {
            text: chunker_input(self.markdown.as_str(), &self.tables),
            metadata,
        }
    }

    fn current_todo(&self, job: &PdfJob) -> (todo: PdfTodo)
        requires
            self.wf(*job),
            self.stage != PdfStage::Failed,
        ensures
            self.orders(*job, todo),
    {
        match self.stage {
            PdfStage::ReadingFrontMatter => PdfTodo::ReadFrontMatter,
            PdfStage::UpdatingFilename => PdfTodo::UpdateFilename { name: self.new_name.clone() },
            PdfStage::SyncingTitle => PdfTodo::SyncTitle { name: self.pdf.filename.clone() },
            PdfStage::EarlyFigures => PdfTodo::BackfillFigures,
            PdfStage::EarlyTables => PdfTodo::BackfillTables,
            PdfStage::GateInsert => PdfTodo::CheckCancelled { stage: "pre-text-insert" },
            PdfStage::References => PdfTodo::ParseReferences,
            PdfStage::Inserting => self.insert_todo(job),
            PdfStage::Algorithms => PdfTodo::ExtractAlgorithms {
                workspace: if is_scoped(job.owner.workspace_id.as_str()) {
                    Some(job.owner.workspace_id.clone())
                } else {
                    None
                },
            },
            PdfStage::ReloadingPdf => PdfTodo::ReloadPdf,
            PdfStage::Repos => PdfTodo::DetectRepos,
            PdfStage::Figures => PdfTodo::BackfillFigures,
            PdfStage::FigureVectors => PdfTodo::EmbedFigures,
            PdfStage::FigureEntities => PdfTodo::ReadFigures,
            PdfStage::Tables => PdfTodo::BackfillTables,
            PdfStage::TableVectors => PdfTodo::EmbedTables,
            PdfStage::TableEntities => PdfTodo::LinkTables,
            PdfStage::Classifying => PdfTodo::ClassifyTables,
            PdfStage::Recording => PdfTodo::EnsureRecord {
                title: self.pdf.filename.clone(),
                content: content_for_record(self.markdown.as_str()),
                status: "indexed",
            },
            PdfStage::Linking => PdfTodo::LinkPdf,
            PdfStage::Closing => PdfTodo::SetFinalStatus {
                status: final_status_of(self.text_status.as_str(), self.enrichment_failed),
            },
            PdfStage::FlaggingSkipped => PdfTodo::FlagSkipped,
            PdfStage::Cleaning => PdfTodo::RemoveProgress,
            PdfStage::Finished => PdfTodo::Finish,
            PdfStage::Cancelled => PdfTodo::Cancel,
            PdfStage::Failed => PdfTodo::Cancel,
            _ => self.early_todo(job),
        }
    }

    /// What the first thing to do is.
    pub fn first_todo(&self, job: &PdfJob) -> (todo: PdfTodo)
        requires
            self.wf(*job),
            self.stage == PdfStage::Loading,
        ensures
            self.orders(*job, todo),
    {
        self.current_todo(job)
    }

    /// What an event that was not expected to fail says where it did.
    fn done_fault(&self, job: &PdfJob, error: &Option<String>) -> (r: Option<TaskFailure>)
        requires
            self.wf(*job),
            self.expects(*job, PdfEvent::Done { error: *error }),
        ensures
            match r {
                Some(f) => self.fault(*job, PdfEvent::Done { error: *error }) matches Some((k, m))
                    && f.says(k, m),
                None => self.fault(*job, PdfEvent::Done { error: *error }) is None,
            },
    {
        if self.stage == PdfStage::ReportingTimeout {
            let message = timeout_failure_of(
                self.timeout_secs(job),
                job.owner.pdf_id.as_str(),
                job.request.vision_provider.as_str(),
            );
            return Some(TaskFailure::new(FailureKind::Timeout, message));
        }
        match error {
            None => None,
            Some(e) => match self.stage {
                PdfStage::MarkingProcessing | PdfStage::WritingMetadata
                | PdfStage::StoringMarkdown => Some(
                    TaskFailure::new(FailureKind::Storage, e.clone()),
                ),
                PdfStage::EarlyRecord => Some(
                    TaskFailure::new(
                        FailureKind::Storage,
                        cat("Failed to create early documents row: ", e.as_str()),
                    ),
                ),
                PdfStage::MakingProvider => Some(
                    TaskFailure::new(
                        FailureKind::Processing,
                        cat4(
                            "Failed to create vision provider '",
                            job.request.vision_provider.as_str(),
                            "': ",
                            e.as_str(),
                        ),
                    ),
                ),
                _ => None,
            },
        }
    }

    /// Goes to a stage and says what to report and to do.
    fn enter(&mut self, job: &PdfJob, stage: PdfStage) -> (d: PdfDirective)
        requires
            (PdfRun { stage, ..*old(self) }).wf(*job),
            stage != PdfStage::Failed,
        ensures
            *final(self) == (PdfRun { stage, ..*old(self) }),
            name_view(d.status) == status_between(old(self).stage, stage),
            progress_views(d.progress@) == progress_between(old(self).stage, stage),
            final(self).orders(*job, d.todo),
    {
        let from = self.stage;
        self.stage = stage;
        PdfDirective {
            status: status_of(from, stage),
            progress: progress_of(from, stage),
            todo: self.current_todo(job),
        }
    }

    fn fail(&mut self, failure: TaskFailure) -> (d: PdfDirective)
        ensures
            *final(self) == (PdfRun { stage: PdfStage::Failed, ..*old(self) }),
            name_view(d.status) == status_between(old(self).stage, PdfStage::Failed),
            progress_views(d.progress@) == progress_between(old(self).stage, PdfStage::Failed),
            d.todo == (PdfTodo::Fail { failure }),
    {
        let from = self.stage;
        self.stage = PdfStage::Failed;
        PdfDirective {
            status: status_of(from, PdfStage::Failed),
            progress: progress_of(from, PdfStage::Failed),
            todo: PdfTodo::Fail { failure },
        }
    }

    /// What a step does: it goes on as it should, and says what to report and to
    /// do.
    pub open spec fn steps(
        self,
        job: PdfJob,
        event: PdfEvent,
        next: PdfRun,
        d: PdfDirective,
    ) -> bool {
        &&& next.wf(job)
        &&& self.follows(job, event, next)
        &&& name_view(d.status) == status_between(self.stage, next.stage)
        &&& progress_views(d.progress@) == progress_between(self.stage, next.stage)
        &&& next.orders(job, d.todo)
        &&& match self.fault(job, event) {
            Some((k, m)) => event == (PdfEvent::Gate { cancelled: true }) || (d.todo
                matches PdfTodo::Fail { failure } && failure.says(k, m)),
            None => true,
        }
    }

    fn loaded(&mut self, job: &PdfJob, pdf: Result<Option<PdfInfo>, String>) -> (d: PdfDirective)
        requires
            old(self).wf(*job),
            old(self).expects(*job, PdfEvent::Loaded { pdf }),
        ensures
            old(self).steps(*job, PdfEvent::Loaded { pdf }, *final(self), d),
    {
        match pdf {
            Err(e) => self.fail(
                TaskFailure::new(
                    FailureKind::Storage,
                    cat4("Failed to load PDF ", job.owner.pdf_id.as_str(), ": ", e.as_str()),
                ),
            ),
            Ok(None) => self.fail(
                TaskFailure::new(
                    FailureKind::NotFound,
                    cat("PDF not found: ", job.owner.pdf_id.as_str()),
                ),
            ),
            Ok(Some(p)) => {
                self.pdf = p;
                self.enter(job, PdfStage::MarkingProcessing)
            },
        }
    }

    fn keys_listed(&mut self, job: &PdfJob, keys: Vec<String>) -> (d: PdfDirective)
        requires
            old(self).wf(*job),
            old(self).expects(*job, PdfEvent::Keys { keys }),
        ensures
            old(self).steps(*job, PdfEvent::Keys { keys }, *final(self), d),
    {
        self.old_chunks = chunk_keys(&keys, self.document_id.as_str());
        let facts = self.facts_of(job);
        self.enter(job, next_stage(PdfStage::ListingKeys, &facts))
    }

    fn gate(&mut self, job: &PdfJob, cancelled: bool) -> (d: PdfDirective)
        requires
            old(self).wf(*job),
            old(self).expects(*job, PdfEvent::Gate { cancelled }),
        ensures
            old(self).steps(*job, PdfEvent::Gate { cancelled }, *final(self), d),
    {
        if cancelled {
            return self.enter(job, PdfStage::Cancelled);
        }
        if self.stage == PdfStage::GateConvert && job.request.backend == PdfParserBackend::Vision
            && !job.request.enable_vision {
            return self.fail(
                TaskFailure::new(
                    FailureKind::UnsupportedOperation,
                    "Vision PDF extraction requires enable_vision=true.".to_owned(),
                ),
            );
        }
        let facts = self.facts_of(job);
        self.enter(job, next_stage(self.stage, &facts))
    }

    fn converted(&mut self, job: &PdfJob, outcome: ConversionOutcome) -> (d: PdfDirective)
        requires
            old(self).wf(*job),
            old(self).expects(*job, PdfEvent::Converted { outcome }),
        ensures
            old(self).steps(*job, PdfEvent::Converted { outcome }, *final(self), d),
    {
        match outcome {
            ConversionOutcome::Failed { error } => self.fail(
                TaskFailure::new(
                    FailureKind::Processing,
                    cat("PDF conversion failed: ", error.as_str()),
                ),
            ),
            ConversionOutcome::TimedOut => self.enter(job, PdfStage::ReportingTimeout),
            ConversionOutcome::Done { markdown, figures, tables, blocks } => {
                self.markdown = strip_nul_bytes(markdown);
                self.low_content = low_content_warning(
                    job.request.backend,
                    self.markdown.as_str(),
                    self.pdf.page_count,
                );
                if job.request.backend == PdfParserBackend::VlmOcr {
                    self.figures = figures;
                    self.tables = tables;
                    self.blocks = blocks;
                }
                self.enter(job, PdfStage::StoringMarkdown)
            },
        }
    }

    fn front_matter_read(&mut self, job: &PdfJob, front: Option<FrontMatter>) -> (d: PdfDirective)
        requires
            old(self).wf(*job),
            old(self).expects(*job, PdfEvent::FrontMatterRead { front }),
        ensures
            old(self).steps(*job, PdfEvent::FrontMatterRead { front }, *final(self), d),
    {
        let url = match &job.source_url {
            Some(u) => Some(u.as_str()),
            None => None,
        };
        let name = new_filename(&front, url, self.pdf.filename.as_str());
        assert(opt_view(name) == self.name_from(*job, front));
        match name {
            Some(n) => {
                self.new_name = n;
                self.enter(job, PdfStage::UpdatingFilename)
            },
            None => {
                let facts = self.facts_of(job);
                self.enter(job, next_stage(PdfStage::SyncingTitle, &facts))
            },
        }
    }

    fn inserted(&mut self, job: &PdfJob, result: Result<Option<String>, TaskFailure>) -> (d:
        PdfDirective)
        requires
            old(self).wf(*job),
            old(self).expects(*job, PdfEvent::Inserted { result }),
        ensures
            old(self).steps(*job, PdfEvent::Inserted { result }, *final(self), d),
    {
        match result {
            Err(f) => self.fail(f),
            Ok(status) => {
                self.text_status = match status {
                    Some(s) => s,
                    None => "completed".to_owned(),
                };
                let facts = self.facts_of(job);
                self.enter(job, next_stage(PdfStage::Inserting, &facts))
            },
        }
    }

    fn done(&mut self, job: &PdfJob, error: Option<String>) -> (d: PdfDirective)
        requires
            old(self).wf(*job),
            old(self).expects(*job, PdfEvent::Done { error }),
        ensures
            old(self).steps(*job, PdfEvent::Done { error }, *final(self), d),
    {
        if let Some(f) = self.done_fault(job, &error) {
            return self.fail(f);
        }
        let went_wrong = error.is_some();
        if self.stage == PdfStage::UpdatingFilename {
            if went_wrong {
                let facts = self.facts_of(job);
                return self.enter(job, next_stage(PdfStage::SyncingTitle, &facts));
            }
            self.pdf.filename = self.new_name.clone();
        }
        if went_wrong && (self.stage == PdfStage::Repos || self.stage == PdfStage::Figures
            || self.stage == PdfStage::Tables) {
            self.enrichment_failed = true;
        }
        let facts = self.facts_of(job);
        self.enter(job, next_stage(self.stage, &facts))
    }

    /// Takes in what happened and says what to report and to do next.
    pub fn step(&mut self, job: &PdfJob, event: PdfEvent) -> (d: PdfDirective)
        requires
            old(self).wf(*job),
            old(self).expects(*job, event),
        ensures
            old(self).steps(*job, event, *final(self), d),
    {
        match event {
            PdfEvent::Loaded { pdf } => self.loaded(job, pdf),
            PdfEvent::Keys { keys } => self.keys_listed(job, keys),
            PdfEvent::Gate { cancelled } => self.gate(job, cancelled),
            PdfEvent::Converted { outcome } => self.converted(job, outcome),
            PdfEvent::FrontMatterRead { front } => self.front_matter_read(job, front),
            PdfEvent::Inserted { result } => self.inserted(job, result),
            PdfEvent::AlgorithmsExtracted { failures } => {
                let fine = match failures {
                    Some(n) => n == 0,
                    None => false,
                };
                if !fine {
                    self.enrichment_failed = true;
                }
                let facts = self.facts_of(job);
                self.enter(job, next_stage(PdfStage::Algorithms, &facts))
            },
            PdfEvent::Done { error } => self.done(job, error),
        }
    }
}

// ---------------------------------------------------------------------------
// What holds of the course
// ---------------------------------------------------------------------------

/// Every event takes the task to a later stage, so the task ends.
pub proof fn law_reading_advances(run: PdfRun, job: PdfJob, event: PdfEvent, next: PdfRun)
    requires
        run.wf(job),
        run.expects(job, event),
        run.follows(job, event, next),
    ensures
        pdf_rank(next.stage) > pdf_rank(run.stage),
{
}

/// Where only the text is wanted, no stage is entered in which a language model
/// is asked about the document.
pub proof fn law_text_only(run: PdfRun, job: PdfJob, event: PdfEvent, next: PdfRun)
    requires
        run.wf(job),
        run.expects(job, event),
        run.follows(job, event, next),
        job.skip_extraction,
        !(run.stage == PdfStage::Algorithms || run.stage == PdfStage::ReloadingPdf || run.stage
            == PdfStage::Repos || run.stage == PdfStage::FigureEntities || run.stage
            == PdfStage::TableEntities || run.stage == PdfStage::Classifying),
    ensures
        !(next.stage == PdfStage::Algorithms || next.stage == PdfStage::ReloadingPdf || next.stage
            == PdfStage::Repos || next.stage == PdfStage::FigureEntities || next.stage
            == PdfStage::TableEntities || next.stage == PdfStage::Classifying),
{
}

/// The record of a document is there before anything is stored that refers to
/// it: no step gets past the record without coming from it.
pub proof fn law_record_comes_first(run: PdfRun, job: PdfJob, event: PdfEvent, next: PdfRun)
    requires
        run.wf(job),
        run.expects(job, event),
        run.follows(job, event, next),
        run.has_record,
        passes(run.stage, next.stage, 5),
    ensures
        run.stage == PdfStage::EarlyRecord,
        event == (PdfEvent::Done { error: None }),
{
}

/// A document that was read before is cleaned up before it is converted again.
pub proof fn law_cleaned_before_converted(run: PdfRun, job: PdfJob, event: PdfEvent, next: PdfRun)
    requires
        run.wf(job),
        run.expects(job, event),
        run.follows(job, event, next),
        job.reprocesses(),
        passes(run.stage, next.stage, 11),
    ensures
        run.stage == PdfStage::PurgingGraph,
{
}

/// The text of a document is stored before its enrichment begins, and its
/// enrichment is over before its final status is set.
pub proof fn law_text_before_enrichment(run: PdfRun, job: PdfJob, event: PdfEvent, next: PdfRun)
    requires
        run.wf(job),
        run.expects(job, event),
        run.follows(job, event, next),
        passes(run.stage, next.stage, 24),
    ensures
        run.stage == PdfStage::Inserting,
        event matches PdfEvent::Inserted { result: Ok(_) },
{
}

/// The highest per cent that can have been reported when a stage is reached.
pub open spec fn pdf_percent(stage: PdfStage) -> int {
    let r = pdf_rank(stage);
    if r < 2 {
        0
    } else if r < 11 {
        5
    } else if r < 15 {
        10
    } else if r < 21 {
        45
    } else if r < 24 {
        60
    } else if r < 27 {
        70
    } else if r < 33 {
        75
    } else if r < 34 {
        90
    } else if r < 38 {
        95
    } else {
        100
    }
}

proof fn lemma_with_mark(
    list: Seq<(Seq<char>, u32, u8)>,
    holds: bool,
    stage: Seq<char>,
    step: u32,
    percent: u8,
    low: int,
    high: int,
)
    requires
        forall|k: int| 0 <= k < list.len() ==> low < (#[trigger] list[k]).2 <= high,
        holds ==> low < percent <= high,
    ensures
        forall|k: int|
            0 <= k < with_mark(list, holds, stage, step, percent).len() ==> low < (
            #[trigger] with_mark(list, holds, stage, step, percent)[k]).2 <= high,
{
}

/// The progress that is reported never goes back: every mark of a step is above
/// all that could be reported before, and not above what is then the highest.
pub proof fn law_reading_progress(from: PdfStage, to: PdfStage)
    requires
        pdf_rank(from) < pdf_rank(to),
    ensures
        pdf_percent(from) <= pdf_percent(to),
        forall|k: int|
            0 <= k < progress_between(from, to).len() ==> pdf_percent(from) < (
            #[trigger] progress_between(from, to)[k]).2 <= pdf_percent(to),
{
    let low = pdf_percent(from);
    let high = pdf_percent(to);
    let l0 = Seq::<(Seq<char>, u32, u8)>::empty();
    let l1 = with_mark(l0, passes(from, to, 2), "pdf_loading"@, 1, 5);
    lemma_with_mark(l0, passes(from, to, 2), "pdf_loading"@, 1, 5, low, high);
    let l2 = with_mark(l1, passes(from, to, 11), "pdf_converting"@, 2, 10);
    lemma_with_mark(l1, passes(from, to, 11), "pdf_converting"@, 2, 10, low, high);
    let l3 = with_mark(l2, passes(from, to, 15), "storing_markdown"@, 3, 45);
    lemma_with_mark(l2, passes(from, to, 15), "storing_markdown"@, 3, 45, low, high);
    let l4 = with_mark(l3, passes(from, to, 21), "entity_extraction"@, 5, 60);
    lemma_with_mark(l3, passes(from, to, 21), "entity_extraction"@, 5, 60, low, high);
    let l5 = with_mark(l4, to == PdfStage::Algorithms, "algo_extracting"@, 5, 70);
    lemma_with_mark(l4, to == PdfStage::Algorithms, "algo_extracting"@, 5, 70, low, high);
    let l6 = with_mark(l5, passes(from, to, 27), "media_enrichment"@, 6, 75);
    lemma_with_mark(l5, passes(from, to, 27), "media_enrichment"@, 6, 75, low, high);
    let l7 = with_mark(l6, to == PdfStage::Classifying, "classifying_tables"@, 6, 90);
    lemma_with_mark(l6, to == PdfStage::Classifying, "classifying_tables"@, 6, 90, low, high);
    let l8 = with_mark(l7, passes(from, to, 34), "linking"@, 5, 95);
    lemma_with_mark(l7, passes(from, to, 34), "linking"@, 5, 95, low, high);
    lemma_with_mark(l8, passes(from, to, 38), "completed"@, 7, 100, low, high);
}

/// A state follows from another by an event that can happen there.
pub open spec fn pdf_step(job: PdfJob, run: PdfRun, event: PdfEvent, next: PdfRun) -> bool {
    run.wf(job) && run.expects(job, event) && run.follows(job, event, next)
}

/// The states of the task one after the other, each following from the one before
/// by its event.
pub open spec fn pdf_course(job: PdfJob, states: Seq<PdfRun>, events: Seq<PdfEvent>) -> bool {
    &&& states.len() == events.len() + 1
    &&& !states[0].enrichment_failed
    &&& forall|i: int|
        0 <= i < events.len() ==> pdf_step(job, states[i], #[trigger] events[i], states[i + 1])
}

/// A document is marked as a partial failure exactly if a stage of its enrichment
/// failed: its algorithms, its repositories, or the rows of its figures or tables.
/// No other failure does that.
pub proof fn law_enrichment_failures(job: PdfJob, states: Seq<PdfRun>, events: Seq<PdfEvent>)
    requires
        pdf_course(job, states, events),
    ensures
        states.last().enrichment_failed <==> exists|i: int|
            0 <= i < events.len() && states[i].degrades(#[trigger] events[i]),
    decreases events.len(),
{
    if events.len() > 0 {
        let fewer = events.drop_last();
        let front = states.drop_last();
        let n = events.len() - 1;
        assert(front[0] == states[0]);
        assert forall|i: int| 0 <= i < fewer.len() implies pdf_step(
            job,
            front[i],
            #[trigger] fewer[i],
            front[i + 1],
        ) by {
            assert(events[i] == fewer[i]);
            assert(front[i] == states[i] && front[i + 1] == states[i + 1]);
        }
        law_enrichment_failures(job, front, fewer);
        assert(pdf_step(job, states[n], events[n], states[n + 1]));
        if exists|i: int| 0 <= i < fewer.len() && front[i].degrades(#[trigger] fewer[i]) {
            let i = choose|i: int| 0 <= i < fewer.len() && front[i].degrades(#[trigger] fewer[i]);
            assert(states[i].degrades(events[i]));
        }
        if exists|i: int| 0 <= i < events.len() && states[i].degrades(#[trigger] events[i]) {
            let i = choose|i: int|
                0 <= i < events.len() && states[i].degrades(#[trigger] events[i]);
            if i < n {
                assert(front[i].degrades(fewer[i]));
            }
        }
    }
}

} // verus!
