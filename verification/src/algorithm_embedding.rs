//! Making approved algorithms searchable.
//!
//! Each algorithm is written out as a text, embedded and stored. An algorithm
//! that is gone is passed over; a failing service ends the task.

use vstd::prelude::*;

use crate::metadata::{
    field_views, float_field, optional_field, optional_text, text_field, texts_field, Field,
    MetaModel,
};
use crate::tasks::{cat, cat4, parse_uuid, uuid_reading, FailureKind, Progress, TaskFailure};
use crate::text::{
    chars_of, decimal, join, join_of, put_decimal, put_str, string_of, strs, texts,
};

verus! {

broadcast use vstd::string::group_string_axioms;

// ---------------------------------------------------------------------------
// Algorithms as texts
// ---------------------------------------------------------------------------

#[derive(Clone, Debug)]
pub struct AlgorithmStep {
    pub number: u64,
    pub action: String,
    pub details: String,
}

/// A stored algorithm, as far as its vector depends on it.
#[derive(Clone, Debug)]
pub struct StoredAlgorithm {
    pub id: String,
    pub document_id: String,
    pub name: String,
    pub description: Option<String>,
    pub steps: Vec<AlgorithmStep>,
    pub pseudocode: Option<String>,
    pub tags: Vec<String>,
    /// The bits of a double-precision number.
    pub confidence: u64,
    pub tenant_id: String,
    pub workspace_id: String,
}

/// `Step {number}: {action} {details}`.
pub open spec fn step_line(s: AlgorithmStep) -> Seq<char> {
    "Step "@ + decimal(s.number as nat) + ": "@ + s.action@ + " "@ + s.details@
}

/// An optional text as a list.
pub open spec fn as_list(s: Option<String>) -> Seq<Seq<char>> {
    match s {
        Some(t) => seq![t@],
        None => Seq::empty(),
    }
}

/// The parts of an algorithm's text: its name, its description, its steps and
/// its pseudocode.
pub open spec fn algorithm_parts(a: StoredAlgorithm) -> Seq<Seq<char>> {
    seq![a.name@] + as_list(a.description) + a.steps@.map_values(
        |s: AlgorithmStep| step_line(s),
    ) + as_list(a.pseudocode)
}

/// The text of an algorithm.
pub open spec fn algorithm_text(a: StoredAlgorithm) -> Seq<char> {
    join(algorithm_parts(a), "\n"@)
}

/// The text that an algorithm's vector is made from.
pub fn embedding_text(a: &StoredAlgorithm) -> (r: String)
    ensures
        r@ == algorithm_text(*a),
{
    let mut parts: Vec<Vec<char>> = Vec::new();
    parts.push(chars_of(a.name.as_str()));
    assert(texts(parts@) =~= seq![a.name@]);
    if let Some(d) = &a.description {
        parts.push(chars_of(d.as_str()));
    }
    let ghost head = seq![a.name@] + as_list(a.description);
    assert(texts(parts@) =~= head);
    let ghost all = a.steps@.map_values(|s: AlgorithmStep| step_line(s));
    let mut i: usize = 0;
    assert(head + all.take(0) =~= head);
    while i < a.steps.len()
        invariant
            i <= a.steps@.len(),
            all == a.steps@.map_values(|s: AlgorithmStep| step_line(s)),
            texts(parts@) == head + all.take(i as int),
        decreases a.steps.len() - i,
    {
        let s = &a.steps[i];
        let mut line = chars_of("Step ");
        put_decimal(s.number, &mut line);
        put_str(": ", &mut line);
        put_str(s.action.as_str(), &mut line);
        put_str(" ", &mut line);
        put_str(s.details.as_str(), &mut line);
        assert(line@ =~= step_line(*s));
        let ghost before = texts(parts@);
        let ghost x = line@;
        parts.push(line);
        assert(texts(parts@) =~= before.push(x));
        assert(all.take(i + 1) =~= all.take(i as int).push(all[i as int]));
        assert(head + all.take(i + 1) =~= (head + all.take(i as int)).push(all[i as int]));
        i = i + 1;
    }
    assert(all.take(i as int) =~= all);
    if let Some(p) = &a.pseudocode {
        let ghost before = texts(parts@);
        parts.push(chars_of(p.as_str()));
        assert(texts(parts@) =~= before.push(p@));
    }
    assert(texts(parts@) =~= algorithm_parts(*a));
    string_of(&join_of(&parts, &chars_of("\n")))
}

/// The metadata of an algorithm's vector.
pub open spec fn algorithm_metadata(a: StoredAlgorithm) -> Seq<(Seq<char>, MetaModel)> {
    seq![
        ("type"@, MetaModel::Text("algorithm"@)),
        ("algorithm_id"@, MetaModel::Text(a.id@)),
        ("document_id"@, MetaModel::Text(a.document_id@)),
        ("name"@, MetaModel::Text(a.name@)),
        ("description"@, optional_text(crate::conversion::opt_view(a.description))),
        ("tags"@, MetaModel::Texts(strs(a.tags@))),
        ("confidence"@, MetaModel::Float(a.confidence)),
        ("tenant_id"@, MetaModel::Text(a.tenant_id@)),
        ("workspace_id"@, MetaModel::Text(a.workspace_id@)),
    ]
}

/// The id and the metadata of an algorithm's vector.
pub fn algorithm_vector(a: &StoredAlgorithm) -> (r: (String, Vec<Field>))
    ensures
        r.0@ == "algorithm:"@ + a.id@,
        field_views(r.1@) == algorithm_metadata(*a),
{
    let fields = vec![
        text_field("type", "algorithm"),
        text_field("algorithm_id", a.id.as_str()),
        text_field("document_id", a.document_id.as_str()),
        text_field("name", a.name.as_str()),
        optional_field("description", &a.description),
        texts_field("tags", &a.tags),
        float_field("confidence", a.confidence),
        text_field("tenant_id", a.tenant_id.as_str()),
        text_field("workspace_id", a.workspace_id.as_str()),
    ];
    assert(field_views(fields@) =~= algorithm_metadata(*a));
    (cat("algorithm:", a.id.as_str()), fields)
}

// ---------------------------------------------------------------------------
// The task
// ---------------------------------------------------------------------------

/// What can be missing when the task starts.
#[derive(Clone, Debug)]
pub enum SetupError {
    NoDatabaseUrl,
    Connect { error: String },
    NoWorkspaceService,
    Workspace { error: String },
    WorkspaceMissing,
    Provider { error: String },
    VectorStorage { error: String },
}

impl SetupError {
    pub open spec fn message(self) -> Seq<char> {
        match self {
            SetupError::NoDatabaseUrl => "DATABASE_URL not set"@,
            SetupError::Connect { error } => "Failed to connect to database: "@ + error@,
            SetupError::NoWorkspaceService => "No workspace service"@,
            SetupError::Workspace { error } => "Failed to get workspace: "@ + error@,
            SetupError::WorkspaceMissing => "Workspace not found"@,
            SetupError::Provider { error } => "Failed to create embedding provider: "@ + error@,
            SetupError::VectorStorage { error } => "Failed to get vector storage: "@ + error@,
        }
    }

    fn text(&self) -> (r: String)
        ensures
            r@ == self.message(),
    {
        match self {
            SetupError::NoDatabaseUrl => "DATABASE_URL not set".to_owned(),
            SetupError::Connect { error } => cat(
                "Failed to connect to database: ",
                error.as_str(),
            ),
            SetupError::NoWorkspaceService => "No workspace service".to_owned(),
            SetupError::Workspace { error } => cat("Failed to get workspace: ", error.as_str()),
            SetupError::WorkspaceMissing => "Workspace not found".to_owned(),
            SetupError::Provider { error } => cat(
                "Failed to create embedding provider: ",
                error.as_str(),
            ),
            SetupError::VectorStorage { error } => cat(
                "Failed to get vector storage: ",
                error.as_str(),
            ),
        }
    }
}

/// Where the task stands.
#[derive(Clone, Copy, Debug, PartialEq, Eq, Structural)]
pub enum AlgoEmbedPhase {
    Entering,
    SettingUp,
    /// Before the algorithm in hand.
    Gate,
    Fetching,
    Embedding,
    Upserting,
    Finished,
    Failed,
    Cancelled,
}

/// The task of embedding algorithms.
#[derive(Clone, Debug)]
pub struct AlgoEmbedRun {
    /// Whether this is a task of its own and not a part of reading a document,
    /// which says itself when the document is completed.
    pub own_task: bool,
    /// The algorithm in hand.
    pub index: usize,
    /// How many vectors were stored.
    pub embedded: usize,
    pub phase: AlgoEmbedPhase,
    /// The algorithm in hand, once it was fetched.
    pub current: Option<StoredAlgorithm>,
}

/// What came of asking for a vector.
#[derive(Clone, Debug)]
pub enum VectorOutcome {
    Vector,
    /// The service answered without a vector.
    Nothing,
    Failed { error: String },
}

/// What happened outside.
#[derive(Clone, Debug)]
pub enum AlgoEmbedEvent {
    Gate { cancelled: bool },
    SetUp { error: Option<SetupError> },
    /// The algorithm in hand, if it could be fetched.
    Fetched { algorithm: Option<StoredAlgorithm> },
    Embedded { outcome: VectorOutcome },
    Upserted { error: Option<String> },
}

/// What to do next.
#[derive(Clone, Debug)]
pub enum AlgoEmbedTodo {
    SetUp,
    CheckCancelled,
    Fetch { id: u128 },
    Embed { text: String },
    Upsert { vector_id: String, metadata: Vec<Field> },
    Finish { algorithms_embedded: usize },
    Fail { failure: TaskFailure },
    Cancel,
}

/// What to report, and what to do next.
#[derive(Clone, Debug)]
pub struct AlgoEmbedDirective {
    pub status: Option<&'static str>,
    pub progress: Vec<Progress>,
    pub todo: AlgoEmbedTodo,
}

/// How far the task is when the `i`-th of `n` vectors was stored.
pub open spec fn embed_percent(i: int, n: int) -> int {
    10 + (i + 1) * 80 / (if n > 1 {
        n
    } else {
        1
    })
}

proof fn lemma_embed_percent(i: int, n: int)
    requires
        0 <= i < n,
    ensures
        10 <= embed_percent(i, n) <= 90,
{
    assert(0 <= (i + 1) * 80 / n <= 80) by (nonlinear_arith)
        requires
            0 <= i < n,
    ;
}

/// Storing a later vector never takes the progress back.
pub proof fn law_embed_percent_grows(i: int, j: int, n: int)
    requires
        0 <= i <= j < n,
    ensures
        10 <= embed_percent(i, n) <= embed_percent(j, n) <= 90,
        embed_percent(n - 1, n) == 90,
{
    lemma_embed_percent(i, n);
    lemma_embed_percent(j, n);
    assert((i + 1) * 80 / n <= (j + 1) * 80 / n) by (nonlinear_arith)
        requires
            0 <= i <= j < n,
    ;
    assert(n * 80 / n == 80) by (nonlinear_arith)
        requires
            n > 0,
    ;
}

fn percent_of(i: usize, n: usize) -> (r: u8)
    requires
        i < n,
    ensures
        r == embed_percent(i as int, n as int),
{
    proof {
        lemma_embed_percent(i as int, n as int);
        assert((i + 1) * 80 <= u128::MAX) by (nonlinear_arith)
            requires
                i + 1 <= u64::MAX + 1,
        ;
    }
    let part: u128 = (i as u128 + 1) * 80 / (n as u128);
    10 + part as u8
}

impl AlgoEmbedRun {
    /// The task can be in this state.
    pub open spec fn wf(self, ids: Seq<String>) -> bool {
        &&& self.embedded <= self.index <= ids.len()
        &&& (self.phase == AlgoEmbedPhase::Gate || self.phase == AlgoEmbedPhase::Fetching
            || self.phase == AlgoEmbedPhase::Embedding || self.phase
            == AlgoEmbedPhase::Upserting) ==> self.index < ids.len()
        &&& (self.phase == AlgoEmbedPhase::Embedding || self.phase == AlgoEmbedPhase::Upserting)
            ==> self.current is Some
        &&& self.phase == AlgoEmbedPhase::Finished ==> self.index == ids.len()
        &&& (self.phase == AlgoEmbedPhase::Entering || self.phase == AlgoEmbedPhase::SettingUp)
            ==> self.index == 0 && self.embedded == 0
    }

    /// The event can happen in this state.
    pub open spec fn expects(self, event: AlgoEmbedEvent) -> bool {
        match event {
            AlgoEmbedEvent::Gate { .. } => self.phase == AlgoEmbedPhase::Entering || self.phase
                == AlgoEmbedPhase::Gate,
            AlgoEmbedEvent::SetUp { .. } => self.phase == AlgoEmbedPhase::SettingUp,
            AlgoEmbedEvent::Fetched { .. } => self.phase == AlgoEmbedPhase::Fetching,
            AlgoEmbedEvent::Embedded { .. } => self.phase == AlgoEmbedPhase::Embedding,
            AlgoEmbedEvent::Upserted { .. } => self.phase == AlgoEmbedPhase::Upserting,
        }
    }

    /// Whether the algorithm in hand is done with after an event.
    pub open spec fn moves_on(self, event: AlgoEmbedEvent) -> bool {
        match event {
            AlgoEmbedEvent::Fetched { algorithm } => algorithm is None,
            AlgoEmbedEvent::Embedded { outcome } => outcome is Nothing,
            AlgoEmbedEvent::Upserted { error } => error is None,
            _ => false,
        }
    }

    /// The place in the list after an event.
    pub open spec fn index_after(self, event: AlgoEmbedEvent) -> int {
        if self.moves_on(event) {
            self.index + 1
        } else {
            self.index as int
        }
    }

    /// How many vectors were stored after an event.
    pub open spec fn embedded_after(self, event: AlgoEmbedEvent) -> int {
        if event matches AlgoEmbedEvent::Upserted { error } && error is None {
            self.embedded + 1
        } else {
            self.embedded as int
        }
    }

    /// Where the task stands when the algorithm in hand is the `i`-th.
    pub open spec fn phase_at(ids: Seq<String>, i: int) -> AlgoEmbedPhase {
        if i < ids.len() {
            AlgoEmbedPhase::Gate
        } else {
            AlgoEmbedPhase::Finished
        }
    }

    /// Where the task stands after an event.
    pub open spec fn phase_after(self, ids: Seq<String>, event: AlgoEmbedEvent) -> AlgoEmbedPhase {
        if self.moves_on(event) {
            Self::phase_at(ids, self.index + 1)
        } else {
            match event {
                AlgoEmbedEvent::Gate { cancelled } => if cancelled {
                    AlgoEmbedPhase::Cancelled
                } else if self.phase == AlgoEmbedPhase::Entering {
                    AlgoEmbedPhase::SettingUp
                } else if uuid_reading(ids[self.index as int]@) is Ok {
                    AlgoEmbedPhase::Fetching
                } else {
                    AlgoEmbedPhase::Failed
                },
                AlgoEmbedEvent::SetUp { error } => if error is None {
                    Self::phase_at(ids, 0)
                } else {
                    AlgoEmbedPhase::Failed
                },
                AlgoEmbedEvent::Fetched { .. } => AlgoEmbedPhase::Embedding,
                AlgoEmbedEvent::Embedded { outcome } => if outcome is Vector {
                    AlgoEmbedPhase::Upserting
                } else {
                    AlgoEmbedPhase::Failed
                },
                AlgoEmbedEvent::Upserted { .. } => AlgoEmbedPhase::Failed,
            }
        }
    }

    /// What is said where an event ends the task.
    pub open spec fn complaint(self, ids: Seq<String>, event: AlgoEmbedEvent) -> Seq<char> {
        match event {
            AlgoEmbedEvent::Gate { .. } => match uuid_reading(ids[self.index as int]@) {
                Err(e) => "Invalid algorithm ID "@ + ids[self.index as int]@ + ": "@ + e,
                Ok(_) => Seq::empty(),
            },
            AlgoEmbedEvent::SetUp { error } => match error {
                Some(e) => e.message(),
                None => Seq::empty(),
            },
            AlgoEmbedEvent::Embedded { outcome } => match outcome {
                VectorOutcome::Failed { error } => "Embedding generation failed: "@ + error@,
                _ => Seq::empty(),
            },
            AlgoEmbedEvent::Upserted { error } => match error {
                Some(e) => "Failed to store embedding: "@ + e@,
                None => Seq::empty(),
            },
            _ => Seq::empty(),
        }
    }

    /// What is reported after an event. Only a task of its own reports that the
    /// document is completed.
    pub open spec fn reports(
        self,
        ids: Seq<String>,
        event: AlgoEmbedEvent,
        d: AlgoEmbedDirective,
    ) -> bool {
        let stored = event matches AlgoEmbedEvent::Upserted { error } && error is None;
        let done = self.phase_after(ids, event) == AlgoEmbedPhase::Finished;
        let entered = self.phase_after(ids, event) == AlgoEmbedPhase::SettingUp;
        let pct = embed_percent(self.index as int, ids.len() as int);
        &&& entered ==> (d.status matches Some(s) && s@ == "algo_embedding"@)
        &&& done && self.own_task ==> (d.status matches Some(s) && s@ == "completed"@)
        &&& !entered && !(done && self.own_task) ==> d.status is None
        &&& d.progress@.len() == (if entered || stored {
            1nat
        } else {
            0nat
        }) + (if done && self.own_task {
            1nat
        } else {
            0nat
        })
        &&& entered ==> d.progress@[0].is("algo_embedding"@, 1, 10)
        &&& stored ==> d.progress@[0].is("algo_embedding"@, 1, pct)
        &&& done && self.own_task ==> d.progress@.last().is("completed"@, 1, 100)
    }

    /// What to do after an event.
    pub open spec fn orders(
        self,
        ids: Seq<String>,
        event: AlgoEmbedEvent,
        todo: AlgoEmbedTodo,
    ) -> bool {
        match self.phase_after(ids, event) {
            AlgoEmbedPhase::Entering => false,
            AlgoEmbedPhase::SettingUp => todo is SetUp,
            AlgoEmbedPhase::Gate => todo is CheckCancelled,
            AlgoEmbedPhase::Fetching => todo matches AlgoEmbedTodo::Fetch { id } && uuid_reading(
                ids[self.index as int]@,
            ) == Ok::<u128, Seq<char>>(id),
            AlgoEmbedPhase::Embedding => todo matches AlgoEmbedTodo::Embed { text }
                && event matches AlgoEmbedEvent::Fetched { algorithm: Some(a) } && text@
                == algorithm_text(a),
            AlgoEmbedPhase::Upserting => todo matches AlgoEmbedTodo::Upsert { vector_id, metadata }
                && self.current matches Some(a) && vector_id@ == "algorithm:"@ + a.id@
                && field_views(metadata@) == algorithm_metadata(a),
            AlgoEmbedPhase::Finished => todo matches AlgoEmbedTodo::Finish { algorithms_embedded }
                && algorithms_embedded == ids.len(),
            AlgoEmbedPhase::Failed => todo matches AlgoEmbedTodo::Fail { failure } && failure.says(
                FailureKind::Process,
                self.complaint(ids, event),
            ),
            AlgoEmbedPhase::Cancelled => todo is Cancel,
        }
    }

    /// A new task of its own. The first thing to do is to ask whether it was
    /// cancelled.
    pub fn new() -> (r: Self)
        ensures
            r == (AlgoEmbedRun {
                own_task: true,
                index: 0,
                embedded: 0,
                phase: AlgoEmbedPhase::Entering,
                current: None,
            }),
            forall|ids: Seq<String>| r.wf(ids),
    {
        AlgoEmbedRun {
            own_task: true,
            index: 0,
            embedded: 0,
            phase: AlgoEmbedPhase::Entering,
            current: None,
        }
    }

    /// A new part of reading a document, which begins in the same way.
    pub fn part() -> (r: Self)
        ensures
            r == (AlgoEmbedRun {
                own_task: false,
                index: 0,
                embedded: 0,
                phase: AlgoEmbedPhase::Entering,
                current: None,
            }),
            forall|ids: Seq<String>| r.wf(ids),
    {
        AlgoEmbedRun {
            own_task: false,
            index: 0,
            embedded: 0,
            phase: AlgoEmbedPhase::Entering,
            current: None,
        }
    }

    fn fail(&mut self, message: String) -> (d: AlgoEmbedDirective)
        ensures
            final(self).phase == AlgoEmbedPhase::Failed,
            final(self).own_task == old(self).own_task,
            final(self).index == old(self).index,
            final(self).embedded == old(self).embedded,
            d.status is None,
            d.progress@.len() == 0,
            d.todo matches AlgoEmbedTodo::Fail { failure } && failure.says(
                FailureKind::Process,
                message@,
            ),
    {
        self.phase = AlgoEmbedPhase::Failed;
        AlgoEmbedDirective {
            status: None,
            progress: Vec::new(),
            todo: AlgoEmbedTodo::Fail { failure: TaskFailure::new(FailureKind::Process, message) },
        }
    }

    /// Turns to the `i`-th algorithm.
    fn turn_to(&mut self, ids: &Vec<String>, i: usize, progress: Vec<Progress>) -> (d:
        AlgoEmbedDirective)
        ensures
            final(self).phase == Self::phase_at(ids@, i as int),
            final(self).own_task == old(self).own_task,
            final(self).index == i,
            final(self).embedded == old(self).embedded,
            i < ids@.len() ==> d.status is None && d.progress == progress && d.todo
                is CheckCancelled,
            i >= ids@.len() ==> d.todo == (AlgoEmbedTodo::Finish {
                algorithms_embedded: ids.len(),
            }),
            i >= ids@.len() && old(self).own_task ==> {
                &&& d.status matches Some(s) && s@ == "completed"@
                &&& d.progress@.len() == progress@.len() + 1
                &&& d.progress@.last().is("completed"@, 1, 100)
                &&& progress@.len() > 0 ==> d.progress@[0] == progress@[0]
            },
            i >= ids@.len() && !old(self).own_task ==> d.status is None && d.progress == progress,
    {
        self.index = i;
        if i < ids.len() {
            self.phase = AlgoEmbedPhase::Gate;
            AlgoEmbedDirective { status: None, progress, todo: AlgoEmbedTodo::CheckCancelled }
        } else {
            self.phase = AlgoEmbedPhase::Finished;
            if !self.own_task {
                return AlgoEmbedDirective {
                    status: None,
                    progress,
                    todo: AlgoEmbedTodo::Finish { algorithms_embedded: ids.len() },
                };
            }
            let mut all = progress;
            all.push(Progress { stage: "completed", step: 1, percent: 100 });
            AlgoEmbedDirective {
                status: Some("completed"),
                progress: all,
                todo: AlgoEmbedTodo::Finish { algorithms_embedded: ids.len() },
            }
        }
    }

    /// Takes in what happened and says what to report and to do next.
    pub fn step(&mut self, ids: &Vec<String>, event: AlgoEmbedEvent) -> (d: AlgoEmbedDirective)
        requires
            old(self).wf(ids@),
            old(self).expects(event),
        ensures
            final(self).wf(ids@),
            final(self).own_task == old(self).own_task,
            final(self).index == old(self).index_after(event),
            final(self).embedded == old(self).embedded_after(event),
            final(self).phase == old(self).phase_after(ids@, event),
            final(self).phase == AlgoEmbedPhase::Embedding ==> (event
                matches AlgoEmbedEvent::Fetched { algorithm } && final(self).current == algorithm),
            final(self).phase == AlgoEmbedPhase::Upserting ==> final(self).current == old(
                self,
            ).current,
            old(self).reports(ids@, event, d),
            old(self).orders(ids@, event, d.todo),
    {
        let len = ids.len();
        assert(self.index <= len);
        match event {
            AlgoEmbedEvent::Gate { cancelled } => {
                if cancelled {
                    self.phase = AlgoEmbedPhase::Cancelled;
                    return AlgoEmbedDirective {
                        status: None,
                        progress: Vec::new(),
                        todo: AlgoEmbedTodo::Cancel,
                    };
                }
                if self.phase == AlgoEmbedPhase::Entering {
                    self.phase = AlgoEmbedPhase::SettingUp;
                    let p = Progress { stage: "algo_embedding", step: 1, percent: 10 };
                    return AlgoEmbedDirective {
                        status: Some("algo_embedding"),
                        progress: vec![p],
                        todo: AlgoEmbedTodo::SetUp,
                    };
                }
                let id = ids[self.index].as_str();
                match parse_uuid(id) {
                    Ok(v) => {
                        self.phase = AlgoEmbedPhase::Fetching;
                        AlgoEmbedDirective {
                            status: None,
                            progress: Vec::new(),
                            todo: AlgoEmbedTodo::Fetch { id: v },
                        }
                    },
                    Err(e) => {
                        self.fail(cat4("Invalid algorithm ID ", id, ": ", e.as_str()))
                    },
                }
            },
            AlgoEmbedEvent::SetUp { error } => match error {
                Some(e) => self.fail(e.text()),
                None => self.turn_to(ids, 0, Vec::new()),
            },
            AlgoEmbedEvent::Fetched { algorithm } => match algorithm {
                None => {
                    let next = self.index + 1;
                    self.turn_to(ids, next, Vec::new())
                },
                Some(a) => {
                    let text = embedding_text(&a);
                    self.current = Some(a);
                    self.phase = AlgoEmbedPhase::Embedding;
                    AlgoEmbedDirective {
                        status: None,
                        progress: Vec::new(),
                        todo: AlgoEmbedTodo::Embed { text },
                    }
                },
            },
            AlgoEmbedEvent::Embedded { outcome } => match outcome {
                VectorOutcome::Failed { error } => self.fail(
                    cat("Embedding generation failed: ", error.as_str()),
                ),
                VectorOutcome::Nothing => {
                    let next = self.index + 1;
                    self.turn_to(ids, next, Vec::new())
                },
                VectorOutcome::Vector => {
                    self.phase = AlgoEmbedPhase::Upserting;
                    let todo = match &self.current {
                        Some(a) => {
                            let (vector_id, metadata) = algorithm_vector(a);
                            AlgoEmbedTodo::Upsert { vector_id, metadata }
                        },
                        None => AlgoEmbedTodo::Cancel,
                    };
                    AlgoEmbedDirective { status: None, progress: Vec::new(), todo }
                },
            },
            AlgoEmbedEvent::Upserted { error } => match error {
                Some(e) => self.fail(cat("Failed to store embedding: ", e.as_str())),
                None => {
                    self.embedded = self.embedded + 1;
                    let p = Progress {
                        stage: "algo_embedding",
                        step: 1,
                        percent: percent_of(self.index, ids.len()),
                    };
                    let next = self.index + 1;
                    self.turn_to(ids, next, vec![p])
                },
            },
        }
    }
}

/// The task never goes back to an earlier algorithm, and turns to a later one
/// only when it is done with the one in hand.
pub proof fn law_algorithms_in_order(run: AlgoEmbedRun, ids: Seq<String>, event: AlgoEmbedEvent)
    requires
        run.wf(ids),
        run.expects(event),
    ensures
        run.index <= run.index_after(event) <= run.index + 1,
        run.index_after(event) <= ids.len(),
        run.embedded_after(event) <= run.index_after(event),
        run.embedded_after(event) > run.embedded ==> run.index_after(event) == run.index + 1,
{
}

} // verus!
