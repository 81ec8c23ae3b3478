//! Labelling tables with the help of a language model.
//!
//! Each table without a label is shown to the model, whose reply is read for
//! one of four labels. A table that cannot be labelled is left for later and
//! does not stop the others.

use vstd::prelude::*;

use crate::conversion::opt_view;
use crate::tasks::{cat, parse_uuid, uuid_reading, FailureKind, TaskFailure};
use crate::text::{
    byte_count, chars_of, chars_within, count_within, index_of, is_one_of, lemma_index_of,
    lemma_index_of_is, lowercase, names, put_all, put_range, put_str, range_of, string_of,
    to_lowercase, trim, trim_of, trimmed,
};

verus! {

broadcast use vstd::string::group_string_axioms;

// ---------------------------------------------------------------------------
// The prompt
// ---------------------------------------------------------------------------

/// How many bytes of a table's HTML are shown to the model.
pub const HTML_LIMIT: usize = 8000;

/// How many characters of a reply are kept as a rationale.
pub const RATIONALE_LIMIT: usize = 240;

/// The labels of tables.
pub open spec fn table_types() -> Seq<Seq<char>> {
    seq!["performance"@, "quality"@, "complexity"@, "other"@]
}

/// The part of the HTML that is shown.
pub open spec fn html_shown(html: Seq<char>) -> Seq<char> {
    html.take(chars_within(html, HTML_LIMIT as nat) as int)
}

/// The limit does not fall inside a character.
pub open spec fn limit_between_chars(html: Seq<char>) -> bool {
    byte_count(html) <= HTML_LIMIT || byte_count(html_shown(html)) == HTML_LIMIT
}

pub open spec fn caption_shown(caption: Seq<char>) -> Seq<char> {
    if trim(caption).len() == 0 {
        "(no caption detected)"@
    } else {
        trim(caption)
    }
}

/// What stands before the caption in a prompt.
pub open spec fn prompt_head() -> Seq<char> {
    "Classify the following table from an academic / technical paper into exactly one of these categories:\n"@
        + "- \"performance\": runtime / throughput / latency / memory / cost benchmarks.\n"@
        + "- \"quality\":     accuracy / F1 / BLEU / win-rate / human-eval / robustness scores.\n"@
        + "- \"complexity\":  big-O / step counts / round complexity / asymptotic comparisons.\n"@
        + "- \"other\":       anything else (datasets, hyperparameters, ablation knobs, etc.).\n"@
        + "\nReply with ONLY a single-line JSON object of this exact shape:\n"@
        + "{\"table_type\": \"<one of the four labels above>\", \"rationale\": \"<one short sentence>\"}\n"@
        + "\nCaption: "@
}

/// The prompt for one table.
pub open spec fn classification_prompt(caption: Seq<char>, html: Seq<char>) -> Seq<char> {
    prompt_head() + caption_shown(caption) + "\nHTML: "@ + html_shown(html) + "\n"@
}

/// Whether the HTML can be cut at the limit.
pub fn can_be_cut(html: &str) -> (r: bool)
    ensures
        r == limit_between_chars(html@),
{
    let v = chars_of(html);
    let n = count_within(&v, HTML_LIMIT);
    if n == v.len() {
        assert(v@.take(n as int) =~= v@);
        true
    } else {
        proof {
            crate::text::lemma_bytes_grow(v@, n + 1);
        }
        let one_less = count_within(&v, HTML_LIMIT - 1);
        proof {
            // The characters that fit into one byte less are fewer exactly when
            // the last byte was needed.
            if byte_count(v@.take(n as int)) == HTML_LIMIT {
                if one_less >= n {
                    let t = v@.take(one_less as int);
                    crate::text::lemma_bytes_grow(t, n as int);
                    assert(t.take(n as int) =~= v@.take(n as int));
                }
            } else {
                if one_less < n {
                    let t = v@.take(n as int);
                    crate::text::lemma_bytes_grow(t, one_less + 1);
                    assert(t.take(one_less + 1) =~= v@.take(one_less + 1));
                }
            }
        }
        one_less < n
    }
}

/// The prompt for one table.
pub fn build_classification_prompt(caption: &str, html: &str) -> (r: String)
    requires
        limit_between_chars(html@),
    ensures
        r@ == classification_prompt(caption@, html@),
{
    let mut out: Vec<char> = Vec::new();
    put_str(
        "Classify the following table from an academic / technical paper into exactly one of these categories:\n",
        &mut out,
    );
    put_str(
        "- \"performance\": runtime / throughput / latency / memory / cost benchmarks.\n",
        &mut out,
    );
    put_str(
        "- \"quality\":     accuracy / F1 / BLEU / win-rate / human-eval / robustness scores.\n",
        &mut out,
    );
    put_str(
        "- \"complexity\":  big-O / step counts / round complexity / asymptotic comparisons.\n",
        &mut out,
    );
    put_str(
        "- \"other\":       anything else (datasets, hyperparameters, ablation knobs, etc.).\n",
        &mut out,
    );
    put_str("\nReply with ONLY a single-line JSON object of this exact shape:\n", &mut out);
    put_str(
        "{\"table_type\": \"<one of the four labels above>\", \"rationale\": \"<one short sentence>\"}\n",
        &mut out,
    );
    put_str("\nCaption: ", &mut out);
    let ghost head = out@;
    assert(head =~= prompt_head());
    let c = trim_of(&chars_of(caption));
    if c.len() == 0 {
        put_str("(no caption detected)", &mut out);
    } else {
        put_all(&c, &mut out);
    }
    assert(out@ =~= head + caption_shown(caption@));
    put_str("\nHTML: ", &mut out);
    let v = chars_of(html);
    let n = count_within(&v, HTML_LIMIT);
    put_range(&v, 0, n, &mut out);
    put_str("\n", &mut out);
    assert(v@.subrange(0, n as int) =~= v@.take(n as int));
    assert(out@ =~= classification_prompt(caption@, html@));
    string_of(&out)
}

// ---------------------------------------------------------------------------
// The reply
// ---------------------------------------------------------------------------

/// The place behind the brace that closes what is open, reading on from `i`
/// with `depth` braces open.
pub open spec fn object_end(t: Seq<char>, i: int, depth: int) -> Option<int>
    decreases t.len() - i,
{
    if i < 0 || i >= t.len() {
        None
    } else if t[i] == '{' {
        object_end(t, i + 1, depth + 1)
    } else if t[i] == '}' {
        if depth == 1 {
            Some(i + 1)
        } else {
            object_end(t, i + 1, depth - 1)
        }
    } else {
        object_end(t, i + 1, depth)
    }
}

/// The first text in balanced braces. Quoted braces count like others.
pub open spec fn first_json_object(t: Seq<char>) -> Option<Seq<char>> {
    match index_of(t, '{') {
        Some(k) => match object_end(t, k, 0) {
            Some(e) => Some(t.subrange(k, e)),
            None => None,
        },
        None => None,
    }
}

proof fn lemma_object_end(t: Seq<char>, i: int, depth: int)
    requires
        0 <= i,
        depth >= 0,
        depth == 0 ==> i < t.len() && t[i] == '{',
    ensures
        match object_end(t, i, depth) {
            Some(e) => i < e <= t.len() && t[e - 1] == '}',
            None => true,
        },
    decreases t.len() - i,
{
    if i < t.len() {
        if t[i] == '{' {
            lemma_object_end(t, i + 1, depth + 1);
        } else if t[i] == '}' {
            if depth > 1 {
                lemma_object_end(t, i + 1, depth - 1);
            }
        } else {
            lemma_object_end(t, i + 1, depth);
        }
    }
}

/// The object that is read begins and ends with a brace.
pub proof fn law_object_in_braces(t: Seq<char>)
    ensures
        match first_json_object(t) {
            Some(o) => o.len() >= 2 && o[0] == '{' && o.last() == '}',
            None => true,
        },
{
    lemma_index_of(t, '{');
    if let Some(k) = index_of(t, '{') {
        lemma_object_end(t, k, 0);
    }
}

/// The first text in balanced braces.
pub fn extract_first_json_object(s: &Vec<char>) -> (r: Option<Vec<char>>)
    ensures
        match r {
            Some(o) => first_json_object(s@) == Some(o@),
            None => first_json_object(s@) is None,
        },
{
    let mut k: usize = 0;
    while k < s.len() && s[k] != '{'
        invariant
            k <= s@.len(),
            forall|j: int| 0 <= j < k ==> s@[j] != '{',
        decreases s.len() - k,
    {
        k = k + 1;
    }
    proof {
        lemma_index_of_is(s@, '{', k as int);
    }
    let len = s.len();
    if k >= len {
        return None;
    }
    let mut depth: usize = 0;
    let mut i: usize = k;
    while i < len
        invariant
            k <= i <= len,
            k < len,
            len == s@.len(),
            s@[k as int] == '{',
            depth <= i - k,
            depth == 0 ==> i == k,
            index_of(s@, '{') == Some(k as int),
            object_end(s@, k as int, 0) == object_end(s@, i as int, depth as int),
        decreases len - i,
    {
        let c = s[i];
        if c == '{' {
            depth = depth + 1;
        } else if c == '}' {
            if depth == 1 {
                return Some(range_of(s, k, i + 1));
            }
            depth = depth - 1;
        }
        i = i + 1;
    }
    None
}

/// At most `most` characters of a text, marked where it was cut.
pub open spec fn shortened(s: Seq<char>, most: nat) -> Seq<char> {
    if s.len() <= most {
        s
    } else {
        s.take(most as int) + "…"@
    }
}

fn short(s: &str, most: usize) -> (r: String)
    ensures
        r@ == shortened(s@, most as nat),
{
    let v = chars_of(s);
    if v.len() <= most {
        return string_of(&v);
    }
    let mut out = range_of(&v, 0, most);
    assert(out@ =~= s@.take(most as int));
    put_str("…", &mut out);
    string_of(&out)
}

/// The string that a JSON text holds under a key: nothing if the text is no
/// JSON, and nothing inside if it is no object with a string there.
pub uninterp spec fn json_field_text(text: Seq<char>, key: Seq<char>) -> Option<Option<Seq<char>>>;

/// `serde_json::from_str` on `text`, then `serde_json::Value::get` with the key
/// and `as_str`. It is a function of the text and the key.
#[verifier::external_body]
fn json_field(text: &str, key: &str) -> (r: Option<Option<String>>)
    ensures
        match r {
            Some(s) => json_field_text(text@, key@) == Some(opt_view(s)),
            None => json_field_text(text@, key@) is None,
        },
{
    let root: serde_json::Value = serde_json::from_str(text).ok()?;
    Some(root.get(key).and_then(|v| v.as_str()).map(|s| s.to_string()))
}

/// The part of a reply that should be JSON.
pub open spec fn json_part(reply: Seq<char>) -> Seq<char> {
    match first_json_object(trim(reply)) {
        Some(o) => o,
        None => trim(reply),
    }
}

/// The label for what the reply says.
pub open spec fn label_for(said: Option<Seq<char>>) -> Seq<char> {
    match said {
        Some(s) => if table_types().contains(lowercase(trim(s))) {
            lowercase(trim(s))
        } else {
            "other"@
        },
        None => "other"@,
    }
}

/// The rationale for what the reply says.
pub open spec fn rationale_for(said: Option<Seq<char>>, reply: Seq<char>) -> Seq<char> {
    match said {
        Some(s) => if trim(s).len() > 0 {
            trim(s)
        } else {
            shortened(reply, RATIONALE_LIMIT as nat)
        },
        None => shortened(reply, RATIONALE_LIMIT as nat),
    }
}

/// What is kept of a reply that is no JSON.
pub open spec fn unreadable(reply: Seq<char>) -> (Seq<char>, Seq<char>) {
    ("other"@, "unparseable LLM reply: "@ + shortened(reply, RATIONALE_LIMIT as nat))
}

/// Label and rationale of a reply.
pub open spec fn classification(reply: Seq<char>) -> (Seq<char>, Seq<char>) {
    match json_field_text(json_part(reply), "table_type"@) {
        None => unreadable(reply),
        Some(label) => (
            label_for(label),
            rationale_for(
                match json_field_text(json_part(reply), "rationale"@) {
                    Some(why) => why,
                    None => None,
                },
                reply,
            ),
        ),
    }
}

/// Label and rationale, given what the JSON of the reply holds under the two
/// keys.
pub fn classification_from_fields(
    table_type: Option<String>,
    rationale: Option<String>,
    reply: &str,
) -> (r: (String, String))
    ensures
        r.0@ == label_for(opt_view(table_type)),
        r.1@ == rationale_for(opt_view(rationale), reply@),
        table_types().contains(r.0@),
{
    let label = match table_type {
        Some(s) => {
            let low = to_lowercase(trimmed(s.as_str()).as_str());
            let list = vec!["performance", "quality", "complexity", "other"];
            assert(names(list@) =~= table_types());
            if is_one_of(&chars_of(low.as_str()), &list) {
                low
            } else {
                "other".to_owned()
            }
        },
        None => "other".to_owned(),
    };
    assert(table_types()[3] == "other"@);
    let why = match rationale {
        Some(s) => {
            let t = trim_of(&chars_of(s.as_str()));
            if t.len() > 0 {
                string_of(&t)
            } else {
                short(reply, RATIONALE_LIMIT)
            }
        },
        None => short(reply, RATIONALE_LIMIT),
    };
    (label, why)
}

/// Label and rationale of a reply. The reply may hold more than the JSON. A
/// reply that cannot be read makes the table `other`.
pub fn parse_classification_response(reply: &str) -> (r: (String, String))
    ensures
        (r.0@, r.1@) == classification(reply@),
        table_types().contains(r.0@),
{
    let t = trim_of(&chars_of(reply));
    let blob = match extract_first_json_object(&t) {
        Some(o) => string_of(&o),
        None => string_of(&t),
    };
    match json_field(blob.as_str(), "table_type") {
        None => {
            let mut out = chars_of("unparseable LLM reply: ");
            put_str(short(reply, RATIONALE_LIMIT).as_str(), &mut out);
            assert(table_types()[3] == "other"@);
            ("other".to_owned(), string_of(&out))
        },
        Some(label) => {
            let why = match json_field(blob.as_str(), "rationale") {
                Some(why) => why,
                None => None,
            };
            classification_from_fields(label, why, reply)
        },
    }
}

// ---------------------------------------------------------------------------
// The run over a document
// ---------------------------------------------------------------------------

/// A table that has no label.
#[derive(Clone, Debug)]
pub struct TableRow {
    pub table_id: String,
    pub html: String,
    pub caption: Option<String>,
}

/// Where a run stands.
#[derive(Clone, Copy, Debug, PartialEq, Eq, Structural)]
pub enum ClassifyPhase {
    /// Between two tables.
    Ready,
    /// The model was asked about the table in hand.
    Asked,
    /// The label of the table in hand is being stored.
    Storing,
    Finished,
}

/// A run over the tables of a document.
#[derive(Clone, Copy, Debug, PartialEq, Eq, Structural)]
pub struct ClassifyRun {
    /// The table in hand.
    pub row: usize,
    pub classified: usize,
    pub phase: ClassifyPhase,
}

/// What happened outside.
#[derive(Clone, Debug)]
pub enum ClassifyEvent {
    /// The run goes on with the next table, unless it was cancelled.
    Proceed { cancelled: bool },
    /// The model replied.
    Replied { reply: String },
    /// The model could not be asked.
    CallFailed,
    /// The label was stored, or could not be.
    Stored { ok: bool },
}

/// What to do next.
#[derive(Clone, Debug)]
pub enum ClassifyAction {
    Ask { prompt: String },
    Store { table_id: String, label: String, rationale: String },
    /// Come back with whether the run was cancelled.
    GoOn,
    Finish { classified: usize, total: usize },
}

impl ClassifyRun {
    /// The run can be in this state.
    pub open spec fn wf(self, rows: Seq<TableRow>) -> bool {
        &&& self.classified <= self.row <= rows.len()
        &&& (self.phase == ClassifyPhase::Asked || self.phase == ClassifyPhase::Storing)
            ==> self.row < rows.len()
    }

    /// The event can happen in this state.
    pub open spec fn expects(self, event: ClassifyEvent) -> bool {
        match event {
            ClassifyEvent::Proceed { .. } => self.phase == ClassifyPhase::Ready,
            ClassifyEvent::Replied { .. } => self.phase == ClassifyPhase::Asked,
            ClassifyEvent::CallFailed => self.phase == ClassifyPhase::Asked,
            ClassifyEvent::Stored { .. } => self.phase == ClassifyPhase::Storing,
        }
    }

    /// The event makes the run ask about the table in hand.
    pub open spec fn asks(self, rows: Seq<TableRow>, event: ClassifyEvent) -> bool {
        event == (ClassifyEvent::Proceed { cancelled: false }) && self.row < rows.len()
    }

    /// The state after an event.
    pub open spec fn after(self, total: nat, event: ClassifyEvent) -> ClassifyRun {
        match event {
            ClassifyEvent::Proceed { cancelled } => if cancelled || self.row >= total {
                ClassifyRun { phase: ClassifyPhase::Finished, ..self }
            } else {
                ClassifyRun { phase: ClassifyPhase::Asked, ..self }
            },
            ClassifyEvent::Replied { .. } => ClassifyRun { phase: ClassifyPhase::Storing, ..self },
            ClassifyEvent::CallFailed => ClassifyRun {
                row: (self.row + 1) as usize,
                phase: ClassifyPhase::Ready,
                ..self
            },
            ClassifyEvent::Stored { ok } => ClassifyRun {
                row: (self.row + 1) as usize,
                classified: if ok {
                    (self.classified + 1) as usize
                } else {
                    self.classified
                },
                phase: ClassifyPhase::Ready,
            },
        }
    }

    /// A new run.
    pub fn start() -> (r: Self)
        ensures
            r == (ClassifyRun { row: 0, classified: 0, phase: ClassifyPhase::Ready }),
            forall|rows: Seq<TableRow>| r.wf(rows),
    {
        ClassifyRun { row: 0, classified: 0, phase: ClassifyPhase::Ready }
    }

    /// Takes in what happened and says what to do next.
    pub fn step(&mut self, rows: &Vec<TableRow>, event: ClassifyEvent) -> (action: ClassifyAction)
        requires
            old(self).wf(rows@),
            old(self).expects(event),
            old(self).asks(rows@, event) ==> limit_between_chars(rows@[old(self).row as int].html@),
        ensures
            final(self).wf(rows@),
            *final(self) == old(self).after(rows@.len(), event),
            match event {
                ClassifyEvent::Proceed { cancelled } => if cancelled || old(self).row
                    >= rows@.len() {
                    action == (ClassifyAction::Finish {
                        classified: old(self).classified,
                        total: rows.len(),
                    })
                } else {
                    action matches ClassifyAction::Ask { prompt } && prompt@
                        == classification_prompt(
                        match rows@[old(self).row as int].caption {
                            Some(c) => c@,
                            None => Seq::empty(),
                        },
                        rows@[old(self).row as int].html@,
                    )
                },
                ClassifyEvent::Replied { reply } => action matches ClassifyAction::Store {
                    table_id,
                    label,
                    rationale,
                } && table_id@ == rows@[old(self).row as int].table_id@ && (label@, rationale@)
                    == classification(reply@) && table_types().contains(label@),
                ClassifyEvent::CallFailed => action is GoOn,
                ClassifyEvent::Stored { .. } => action is GoOn,
            },
    {
        match event {
            ClassifyEvent::Proceed { cancelled } => {
                if cancelled || self.row >= rows.len() {
                    self.phase = ClassifyPhase::Finished;
                    return ClassifyAction::Finish {
                        classified: self.classified,
                        total: rows.len(),
                    };
                }
                self.phase = ClassifyPhase::Asked;
                let row = &rows[self.row];
                let prompt = match &row.caption {
                    Some(c) => build_classification_prompt(c.as_str(), row.html.as_str()),
                    None => {
                        proof {
                            reveal_strlit("");
                            assert(""@ =~= Seq::<char>::empty());
                        }
                        build_classification_prompt("", row.html.as_str())
                    },
                };
                ClassifyAction::Ask { prompt }
            },
            ClassifyEvent::Replied { reply } => {
                self.phase = ClassifyPhase::Storing;
                let (label, rationale) = parse_classification_response(reply.as_str());
                ClassifyAction::Store {
                    table_id: rows[self.row].table_id.clone(),
                    label,
                    rationale,
                }
            },
            ClassifyEvent::CallFailed => {
                self.row = self.row + 1;
                self.phase = ClassifyPhase::Ready;
                ClassifyAction::GoOn
            },
            ClassifyEvent::Stored { ok } => {
                self.row = self.row + 1;
                if ok {
                    self.classified = self.classified + 1;
                }
                self.phase = ClassifyPhase::Ready;
                ClassifyAction::GoOn
            },
        }
    }
}

/// The number of the document whose tables are to be labelled.
pub fn classification_document(document_id: &str) -> (r: Result<u128, TaskFailure>)
    ensures
        match uuid_reading(document_id@) {
            Ok(v) => r == Ok::<u128, TaskFailure>(v),
            Err(e) => r matches Err(f) && f.says(
                FailureKind::Process,
                "Invalid document_id: "@ + e,
            ),
        },
{
    match parse_uuid(document_id) {
        Ok(v) => Ok(v),
        Err(e) => Err(
            TaskFailure::new(FailureKind::Process, cat("Invalid document_id: ", e.as_str())),
        ),
    }
}

/// The state after several events.
pub open spec fn run_after(run: ClassifyRun, total: nat, events: Seq<ClassifyEvent>) -> ClassifyRun
    decreases events.len(),
{
    if events.len() == 0 {
        run
    } else {
        run_after(run, total, events.drop_last()).after(total, events.last())
    }
}

/// Each event can happen when it happens.
pub open spec fn possible(run: ClassifyRun, total: nat, events: Seq<ClassifyEvent>) -> bool
    decreases events.len(),
{
    events.len() == 0 || (possible(run, total, events.drop_last()) && run_after(
        run,
        total,
        events.drop_last(),
    ).expects(events.last()))
}

/// How many labels were stored.
pub open spec fn stores(events: Seq<ClassifyEvent>) -> nat
    decreases events.len(),
{
    if events.len() == 0 {
        0
    } else {
        stores(events.drop_last()) + (if events.last() matches ClassifyEvent::Stored { ok } && ok {
            1nat
        } else {
            0nat
        })
    }
}

/// A run reports as classified exactly the tables whose label was stored, which
/// are no more than there are tables; and a run that was never cancelled ends
/// only when every table had its turn.
pub proof fn law_classified_are_stored(rows: Seq<TableRow>, events: Seq<ClassifyEvent>)
    requires
        rows.len() < usize::MAX,
        possible(
            ClassifyRun { row: 0, classified: 0, phase: ClassifyPhase::Ready },
            rows.len(),
            events,
        ),
    ensures
        ({
            let end = run_after(
                ClassifyRun { row: 0, classified: 0, phase: ClassifyPhase::Ready },
                rows.len(),
                events,
            );
            &&& end.wf(rows)
            &&& end.classified == stores(events)
            &&& end.classified <= rows.len()
            &&& (end.phase == ClassifyPhase::Finished && forall|i: int|
                0 <= i < events.len() ==> !(#[trigger] events[i] matches ClassifyEvent::Proceed {
                    cancelled,
                } && cancelled)) ==> end.row == rows.len()
        }),
    decreases events.len(),
{
    if events.len() > 0 {
        let before = events.drop_last();
        law_classified_are_stored(rows, before);
        assert(events.last() == events[events.len() - 1]);
        assert forall|i: int| 0 <= i < before.len() implies before[i] == events[i] by {}
    }
}

// ---------------------------------------------------------------------------
// Laws of replies
// ---------------------------------------------------------------------------

/// Text without braces is passed over.
proof fn lemma_no_braces(t: Seq<char>, i: int, k: int, depth: int)
    requires
        0 <= i <= k <= t.len(),
        forall|j: int| i <= j < k ==> #[trigger] t[j] != '{' && t[j] != '}',
    ensures
        object_end(t, i, depth) == object_end(t, k, depth),
    decreases k - i,
{
    if i < k {
        lemma_no_braces(t, i + 1, k, depth);
    }
}

/// The object of a reply is read from its first brace to the one that closes it,
/// with whatever stands before and behind, and with an object inside.
pub proof fn law_object_read(
    a: Seq<char>,
    x: Seq<char>,
    y: Seq<char>,
    z: Seq<char>,
    b: Seq<char>,
)
    requires
        !a.contains('{'),
        !x.contains('{'),
        !x.contains('}'),
        !y.contains('{'),
        !y.contains('}'),
        !z.contains('{'),
        !z.contains('}'),
    ensures
        first_json_object(a + "{"@ + x + "}"@ + b) == Some("{"@ + x + "}"@),
        first_json_object(a + "{"@ + x + "{"@ + y + "}"@ + z + "}"@ + b) == Some(
            "{"@ + x + "{"@ + y + "}"@ + z + "}"@,
        ),
        first_json_object(a) is None,
        first_json_object(a + "{"@ + x) is None,
{
    reveal_strlit("{");
    reveal_strlit("}");
    let k = a.len() as int;
    lemma_index_of(a, '{');
    if let Some(m) = index_of(a, '{') {
        assert(a.contains(a[m]));
    }
    let t = a + "{"@ + x + "}"@ + b;
    let e = k + 1 + x.len() as int;
    assert(t.take(k) =~= a);
    lemma_brace_at(t, a);
    assert forall|j: int| k + 1 <= j < e implies #[trigger] t[j] != '{' && t[j] != '}' by {
        assert(t[j] == x[j - k - 1] && x.contains(x[j - k - 1]));
    }
    lemma_no_braces(t, k + 1, e, 1);
    assert(t[e] == '}');
    assert(t.subrange(k, e + 1) =~= "{"@ + x + "}"@);
    let u = a + "{"@ + x + "{"@ + y + "}"@ + z + "}"@ + b;
    let f = e + 1 + y.len() as int;
    let g = f + 1 + z.len() as int;
    assert(u.take(k) =~= a);
    lemma_brace_at(u, a);
    assert forall|j: int| k + 1 <= j < e implies #[trigger] u[j] != '{' && u[j] != '}' by {
        assert(u[j] == x[j - k - 1] && x.contains(x[j - k - 1]));
    }
    assert(u[e] == '{');
    assert forall|j: int| e + 1 <= j < f implies #[trigger] u[j] != '{' && u[j] != '}' by {
        assert(u[j] == y[j - e - 1] && y.contains(y[j - e - 1]));
    }
    assert(u[f] == '}');
    assert forall|j: int| f + 1 <= j < g implies #[trigger] u[j] != '{' && u[j] != '}' by {
        assert(u[j] == z[j - f - 1] && z.contains(z[j - f - 1]));
    }
    assert(u[g] == '}');
    lemma_no_braces(u, k + 1, e, 1);
    lemma_no_braces(u, e + 1, f, 2);
    lemma_no_braces(u, f + 1, g, 1);
    assert(u.subrange(k, g + 1) =~= "{"@ + x + "{"@ + y + "}"@ + z + "}"@);
    let v = a + "{"@ + x;
    assert(v.take(k) =~= a);
    lemma_brace_at(v, a);
    assert forall|j: int| k + 1 <= j < e implies #[trigger] v[j] != '{' && v[j] != '}' by {
        assert(v[j] == x[j - k - 1] && x.contains(x[j - k - 1]));
    }
    lemma_no_braces(v, k + 1, e, 1);
}

/// The first brace of a text that begins with text without one.
proof fn lemma_brace_at(t: Seq<char>, a: Seq<char>)
    requires
        !a.contains('{'),
        a.len() < t.len(),
        t.take(a.len() as int) == a,
        t[a.len() as int] == '{',
    ensures
        index_of(t, '{') == Some(a.len() as int),
        object_end(t, a.len() as int, 0) == object_end(t, a.len() as int + 1, 1),
{
    assert forall|j: int| 0 <= j < a.len() implies #[trigger] t[j] != '{' by {
        assert(t.take(a.len() as int)[j] == t[j]);
        assert(a.contains(a[j]));
    }
    lemma_index_of_is(t, '{', a.len() as int);
}

/// The label of a reply is always one of the four. It is the one that the reply
/// names, white space and case aside; whatever else the reply says counts as
/// `other`.
pub proof fn law_labels(said: Seq<char>)
    ensures
        ({
            let l = label_for(Some(said));
            let s = lowercase(trim(said));
            &&& l == "performance"@ || l == "quality"@ || l == "complexity"@ || l == "other"@
            &&& s == "performance"@ ==> l == "performance"@
            &&& s == "quality"@ ==> l == "quality"@
            &&& s == "complexity"@ ==> l == "complexity"@
            &&& s != "performance"@ && s != "quality"@ && s != "complexity"@ ==> l == "other"@
        }),
        label_for(None) == "other"@,
{
    let s = lowercase(trim(said));
    let all = table_types();
    if all.contains(s) {
        let i = choose|i: int| 0 <= i < all.len() && all[i] == s;
        assert(i == 0 || i == 1 || i == 2 || i == 3);
    }
    assert(all[0] == "performance"@ && all[1] == "quality"@ && all[2] == "complexity"@);
}

/// The rationale is what the reply gives, trimmed; where it gives none, the first
/// 240 characters of the reply stand in, with a mark if there are more.
pub proof fn law_rationales(said: Seq<char>, reply: Seq<char>)
    ensures
        trim(said).len() > 0 ==> rationale_for(Some(said), reply) == trim(said),
        trim(said).len() == 0 ==> rationale_for(Some(said), reply) == rationale_for(None, reply),
        reply.len() <= 240 ==> rationale_for(None, reply) == reply,
        reply.len() > 240 ==> rationale_for(None, reply) == reply.take(240) + "…"@,
        unreadable(reply) == ("other"@, "unparseable LLM reply: "@ + rationale_for(None, reply)),
{
}

/// A reply that holds no JSON is labelled `other`; the JSON is looked for in its
/// first object, or in all of it, trimmed, where it has none.
pub proof fn law_reply_read(reply: Seq<char>)
    ensures
        ({
            let part = match first_json_object(trim(reply)) {
                Some(o) => o,
                None => trim(reply),
            };
            &&& json_field_text(part, "table_type"@) is None ==> classification(reply).0
                == "other"@
            &&& json_field_text(part, "table_type"@) matches Some(l) ==> classification(reply).0
                == label_for(l)
            &&& json_field_text(part, "table_type"@) is Some && json_field_text(
                part,
                "rationale"@,
            ) is Some ==> classification(reply).1 == rationale_for(
                json_field_text(part, "rationale"@)->0,
                reply,
            )
        }),
{
}

/// Of a table's text at most 8000 bytes are shown, from its start, and all of it
/// if it has no more; a table without a caption is shown as such.
pub proof fn law_table_shown(html: Seq<char>, caption: Seq<char>)
    ensures
        byte_count(html_shown(html)) <= 8000,
        html_shown(html).len() <= html.len(),
        html_shown(html) == html.take(html_shown(html).len() as int),
        byte_count(html) <= 8000 ==> html_shown(html) == html,
        trim(caption).len() == 0 ==> caption_shown(caption) == "(no caption detected)"@,
        trim(caption).len() > 0 ==> caption_shown(caption) == trim(caption),
{
    lemma_within(html, 8000);
    assert(html.take(html.len() as int) =~= html);
}

proof fn lemma_within(t: Seq<char>, most: nat)
    ensures
        chars_within(t, most) <= t.len(),
        byte_count(t.take(chars_within(t, most) as int)) <= most,
    decreases t.len(),
{
    if byte_count(t) <= most || t.len() == 0 {
        assert(t.take(t.len() as int) =~= t);
    } else {
        lemma_within(t.drop_last(), most);
        let n = chars_within(t, most) as int;
        assert(t.drop_last().take(n) =~= t.take(n));
    }
}

} // verus!
