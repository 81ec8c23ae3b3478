//! What holds of outcomes: what is stored, what is said, and what becomes of
//! pages, tables and algorithms.

use vstd::prelude::*;

use crate::algorithm_embedding::{AlgoEmbedEvent, AlgoEmbedRun, SetupError, VectorOutcome};
use crate::algorithm_extraction::{extract_progress, name_key, scan_progress};
use crate::backfill::{
    backfill_complaint, no_place, serves_figure, serves_table, FigureRow, Medium, TableContentRow,
};
use crate::chunk::Chunk;
use crate::conversion::{
    block_views, blocks_from, opt_view, pages_present, request_text, PageResult, RecognitionTask,
};
use crate::figures::{figures_taken, ExtractedFigure};
use crate::layout::LayoutElement;
use crate::page_runs::{
    by_page, figures_out, BlockEvent, BlockRun, BlockStage, BlockTodo, ConvertDirective,
    ConvertEvent, ConvertNotice, ConvertRun, ConvertStage, ConvertTodo, Wanted,
};
use crate::safety_limits::missing_key_message;
use crate::table_classification::{
    caption_shown, classification_prompt, html_shown, limit_between_chars, shortened, ClassifyEvent,
    ClassifyPhase, ClassifyRun,
};
use crate::tables::{row_views, ExtractedTable};
use crate::tasks::{hex_char, hyphenated, pow16, unknown_model, unknown_provider, uuid_reading};
use crate::text::{byte_count, decimal, digit, strs, trim, white_space};

verus! {

// ---------------------------------------------------------------------------
// Rows
// ---------------------------------------------------------------------------

/// The row of a figure holds what the figure holds: its caption, its id, its
/// bytes and what they are.
pub proof fn law_row_of_a_figure(row: FigureRow, fig: ExtractedFigure)
    requires
        serves_figure(row, fig),
    ensures
        row.content@ == fig.caption@,
        row.figure_id@ == fig.id@,
        row.media_bytes@ == fig.image_bytes@,
        row.media_mime@ == fig.mime@,
{
}

/// The row of a table holds what the table holds: its caption, its id, its HTML,
/// its headers and its rows.
pub proof fn law_row_of_a_table(row: TableContentRow, table: ExtractedTable)
    requires
        serves_table(row, table),
    ensures
        row.content@ == table.caption@,
        row.table_id@ == table.id@,
        row.table_html@ == table.html@,
        strs(row.headers@) == strs(table.headers@),
        row_views(row.rows@) == row_views(table.rows@),
{
}

/// What is said where rows could not be stored names how many of how many, and
/// the first error.
pub proof fn law_backfill_texts(failed: nat, total: nat, error: Seq<char>)
    ensures
        backfill_complaint(Medium::Figure, failed, total, error) == "figure"@ + " backfill: "@
            + decimal(failed) + "/"@ + decimal(total) + " inserts failed (first error: "@ + error
            + ")"@,
        backfill_complaint(Medium::Table, failed, total, error) == "table"@ + " backfill: "@
            + decimal(failed) + "/"@ + decimal(total) + " inserts failed (first error: "@ + error
            + ")"@,
        no_place(Medium::Figure) == "figure row index out of range"@,
        no_place(Medium::Table) == "table row index out of range"@,
{
}

// ---------------------------------------------------------------------------
// Pages
// ---------------------------------------------------------------------------

/// How many pages have markdown: all exactly where each has, none exactly where
/// none has.
pub proof fn law_pages_counted(pages: Seq<PageResult>, order: Seq<usize>, n: int)
    requires
        0 <= n <= order.len(),
    ensures
        pages_present(pages, order, n) <= n,
        pages_present(pages, order, n) == n <==> forall|k: int|
            0 <= k < n ==> pages[#[trigger] order[k] as int].markdown is Some,
        pages_present(pages, order, n) == 0 <==> forall|k: int|
            0 <= k < n ==> pages[#[trigger] order[k] as int].markdown is None,
    decreases n,
{
    if n > 0 {
        law_pages_counted(pages, order, n - 1);
        assert(0 <= n - 1 < n);
        let last = pages[order[n - 1] as int];
        if last.markdown is Some {
            assert(!(forall|k: int| 0 <= k < n ==> pages[#[trigger] order[k] as int].markdown
                is None)) by {
                if forall|k: int| 0 <= k < n ==> pages[#[trigger] order[k] as int].markdown
                    is None {
                    assert(pages[order[n - 1] as int].markdown is None);
                }
            }
        }
        if forall|k: int| 0 <= k < n ==> pages[#[trigger] order[k] as int].markdown is Some {
            assert(pages[order[n - 1] as int].markdown is Some);
        }
    }
}

/// A page that was read is kept with its number behind those before it, and told
/// of under the number that counts from one, unless nothing was kept of it; a
/// failed one is told of with its error. The last page ends the conversion.
pub proof fn law_pages_told(
    run: ConvertRun,
    index: usize,
    outcome: Result<String, String>,
    next: ConvertRun,
    d: ConvertDirective,
)
    requires
        run.steps(ConvertEvent::PageRead { index, outcome }, next, d),
    ensures
        next.results@.len() == run.results@.len() + 1,
        forall|k: int| 0 <= k < run.results@.len() ==> #[trigger] next.results@[k]
            == run.results@[k],
        next.results@.last().index == index,
        opt_view(next.results@.last().markdown) == run.kept(outcome),
        outcome matches Err(e) ==> (d.notice matches ConvertNotice::PageError {
            page,
            pages,
            error,
        } && page == index + 1 && pages == run.page_count && error@ == e@),
        run.kept(outcome) matches Some(md) ==> (d.notice matches ConvertNotice::PageComplete {
            page,
            pages,
            bytes,
        } && page == index + 1 && pages == run.page_count && bytes == byte_count(md)),
        outcome is Ok && run.kept(outcome) is None ==> d.notice is Nothing,
        next.results@.len() < run.page_count ==> d.todo is Await,
        next.results@.len() >= run.page_count ==> next.stage == ConvertStage::Finished
            || next.stage == ConvertStage::Failed,
        d.todo matches ConvertTodo::Finish { markdown, .. } ==> trim(markdown@).len() > 0,
{
    let after = next.results@;
    assert forall|k: int| 0 <= k < run.results@.len() implies #[trigger] after[k]
        == run.results@[k] by {
        assert(after.drop_last()[k] == after[k]);
    }
}

/// The blocks of a page come behind those before it; a page that could not be
/// read adds none. The last page ends the search with the blocks in page order,
/// and the blocks are as many as were found.
pub proof fn law_blocks_gathered(
    run: BlockRun,
    page: usize,
    regions: Option<(Vec<LayoutElement>, Vec<String>)>,
    next: BlockRun,
    todo: BlockTodo,
)
    requires
        run.steps(BlockEvent::PageRead { page, regions }, next, todo),
    ensures
        regions matches Some((elements, texts)) ==> block_views(next.blocks@) == block_views(
            run.blocks@,
        ) + blocks_from(elements@, texts@, page, 0),
        regions is None ==> block_views(next.blocks@) == block_views(run.blocks@),
        next.done == run.done + 1,
        next.done < run.page_count ==> next.stage == BlockStage::ReadingPages,
        next.done >= run.page_count ==> next.stage == BlockStage::Finished && (
        todo matches BlockTodo::Finish { blocks } && blocks@.len() == next.blocks@.len()
            && by_page(next.blocks@, blocks@)),
{
    assert(block_views(run.blocks@) + Seq::empty() =~= block_views(run.blocks@));
}

/// A document without pages has no blocks; what fails ends the search.
pub proof fn law_block_search_ends(run: BlockRun, event: BlockEvent, next: BlockRun, todo: BlockTodo)
    requires
        run.steps(event, next, todo),
    ensures
        event matches BlockEvent::Rendered { pages: Ok(n) } ==> (n == 0 ==> (
        todo matches BlockTodo::Finish { blocks } && blocks@.len() == 0)),
        event matches BlockEvent::Rendered { pages: Ok(n) } ==> (n > 0 ==> next.page_count == n
            && todo is BuildPredictor),
        event matches BlockEvent::Rendered { pages: Err(_) } ==> todo is Fail,
        event is DirectoryFailed ==> todo is Fail,
        event matches BlockEvent::LayoutModel { exists: false, .. } ==> todo is Fail,
        event matches BlockEvent::LayoutModel { exists: true, .. } ==> todo is Render,
        event matches BlockEvent::PredictorBuilt { error: Some(_) } ==> todo is Fail,
        event matches BlockEvent::PredictorBuilt { error: None } ==> todo is BuildPool,
        event matches BlockEvent::PoolBuilt { error: Some(_) } ==> todo is Fail,
        event matches BlockEvent::PoolBuilt { error: None } ==> todo is ReadPages,
        todo is Fail ==> next.stage == BlockStage::Failed,
{
}

// ---------------------------------------------------------------------------
// Tables
// ---------------------------------------------------------------------------

/// Tables are classified one after the other: a table is done with when its
/// label was stored or when asking failed, and only one whose label was stored
/// is counted. A cancelled run asks no more.
pub proof fn law_tables_classified_in_turn(run: ClassifyRun, total: nat, event: ClassifyEvent)
    requires
        run.expects(event),
        run.row < usize::MAX,
        run.classified < usize::MAX,
    ensures
        event is CallFailed ==> run.after(total, event).row == run.row + 1 && run.after(
            total,
            event,
        ).classified == run.classified && run.after(total, event).phase == ClassifyPhase::Ready,
        event matches ClassifyEvent::Stored { ok } ==> run.after(total, event).row == run.row + 1
            && run.after(total, event).phase == ClassifyPhase::Ready && (ok ==> run.after(
            total,
            event,
        ).classified == run.classified + 1) && (!ok ==> run.after(total, event).classified
            == run.classified),
        event is Replied ==> run.after(total, event).phase == ClassifyPhase::Storing && run.after(
            total,
            event,
        ).row == run.row,
        event matches ClassifyEvent::Proceed { cancelled: true } ==> run.after(total, event).phase
            == ClassifyPhase::Finished,
        event matches ClassifyEvent::Proceed { cancelled: false } ==> (run.row < total
            ==> run.after(total, event).phase == ClassifyPhase::Asked),
        event matches ClassifyEvent::Proceed { cancelled: false } ==> (run.row >= total
            ==> run.after(total, event).phase == ClassifyPhase::Finished),
{
}

/// What is asked about a table ends with its caption and its HTML, behind a
/// heading that is the same for all tables and names the four labels.
pub proof fn law_question_about_a_table(
    caption: Seq<char>,
    html: Seq<char>,
    other_caption: Seq<char>,
    other_html: Seq<char>,
) -> (p: int)
    ensures
        0 <= p,
        classification_prompt(caption, html).skip(p) == caption_shown(caption) + "\nHTML: "@
            + html_shown(html) + "\n"@,
        classification_prompt(caption, html).take(p) == classification_prompt(
            other_caption,
            other_html,
        ).take(p),
        classification_prompt(caption, html).take(p)
            == "Classify the following table from an academic / technical paper into exactly one of these categories:\n"@
            + "- \"performance\": runtime / throughput / latency / memory / cost benchmarks.\n"@
            + "- \"quality\":     accuracy / F1 / BLEU / win-rate / human-eval / robustness scores.\n"@
            + "- \"complexity\":  big-O / step counts / round complexity / asymptotic comparisons.\n"@
            + "- \"other\":       anything else (datasets, hyperparameters, ablation knobs, etc.).\n"@
            + "\nReply with ONLY a single-line JSON object of this exact shape:\n"@
            + "{\"table_type\": \"<one of the four labels above>\", \"rationale\": \"<one short sentence>\"}\n"@
            + "\nCaption: "@,
{
    let head = crate::table_classification::prompt_head();
    let p = head.len() as int;
    let t = classification_prompt(caption, html);
    let u = classification_prompt(other_caption, other_html);
    assert(t.skip(p) =~= caption_shown(caption) + "\nHTML: "@ + html_shown(html) + "\n"@);
    assert(t.take(p) =~= head);
    assert(u.take(p) =~= head);
    p
}

/// A text is kept whole where it is short enough, else its beginning with a mark.
pub proof fn law_shortened(s: Seq<char>, most: nat)
    ensures
        s.len() <= most ==> shortened(s, most) == s,
        s.len() > most ==> shortened(s, most) == s.take(most as int) + "…"@,
        shortened(s, most).len() <= most + "…"@.len(),
{
}

// ---------------------------------------------------------------------------
// Texts
// ---------------------------------------------------------------------------

/// What is said of a key that is missing names the variable and the provider.
pub proof fn law_missing_key(var: Seq<char>, name: Seq<char>)
    ensures
        missing_key_message(var, name) == var + " is not set. To use the "@ + name
            + " provider, set the environment variable and restart the server. Alternatively, select the Ollama provider which runs locally."@,
{
}

/// What is said of a provider or a model that is not configured names it.
pub proof fn law_unknown_models(provider: Seq<char>, model: Seq<char>)
    ensures
        unknown_provider(provider) == "provider "@ + provider + " not in models.toml"@,
        unknown_model(model, provider) == "model "@ + model + " not in provider "@ + provider,
{
}

/// What is said while algorithms are looked for and extracted counts what is
/// done of all there is.
pub proof fn law_algorithm_counts(done: nat, total: nat)
    ensures
        scan_progress(done, total).stage == "algo_identifying"@,
        scan_progress(done, total).message == "Identifying algorithms: chunks "@ + decimal(done)
            + "/"@ + decimal(total),
        extract_progress(done, total).stage == "algo_extracting"@,
        extract_progress(done, total).message == "Extracting algorithms: "@ + decimal(done) + "/"@
            + decimal(total),
        scan_progress(done, total).done == done && scan_progress(done, total).total == total,
        extract_progress(done, total).done == done && extract_progress(done, total).total == total,
{
}

/// White space around the name of an algorithm does not make it another name.
pub proof fn law_names_ignore_white_space(a: Seq<char>, x: Seq<char>, b: Seq<char>)
    requires
        forall|i: int| 0 <= i < a.len() ==> white_space(#[trigger] a[i]),
        forall|i: int| 0 <= i < b.len() ==> white_space(#[trigger] b[i]),
        x.len() > 0,
        !white_space(x[0]),
        !white_space(x.last()),
    ensures
        name_key(a + x + b) == name_key(x),
{
    let t = a + x + b;
    let (i, j) = crate::text::law_trim(t);
    assert(trim(t) == t.subrange(i, j));
    let (k, l) = crate::text::law_trim(x);
    lemma_trimmed_is(t, a, x, b);
    let none = Seq::<char>::empty();
    assert(x =~= none + x + none);
    lemma_trimmed_is(x, none, x, none);
}

proof fn lemma_trimmed_is(t: Seq<char>, a: Seq<char>, x: Seq<char>, b: Seq<char>)
    requires
        t == a + x + b,
        forall|i: int| 0 <= i < a.len() ==> white_space(#[trigger] a[i]),
        forall|i: int| 0 <= i < b.len() ==> white_space(#[trigger] b[i]),
        x.len() > 0,
        !white_space(x[0]),
        !white_space(x.last()),
    ensures
        trim(t) == x,
{
    let (i, j) = crate::text::law_trim(t);
    let p = a.len() as int;
    let q = p + x.len();
    assert(t[p] == x[0]);
    assert(t[q - 1] == x.last());
    if p < i {
        assert(white_space(t[p]));
    }
    if q > j {
        assert(white_space(t[q - 1]));
    }
    if i < p {
        assert(t[i] == a[i]);
    }
    if j > q {
        assert(t[j - 1] == b[j - 1 - q]);
    }
    assert(t.subrange(p, q) =~= x);
}

/// A request to recognise an image holds the image, the instruction and the
/// limit, and the model where one is named.
pub proof fn law_requests(image: Seq<char>, prompt: Seq<char>, limit: nat, model: Seq<char>)
    ensures
        request_text(image, prompt, limit, None) == "{\"max_tokens\":"@ + decimal(limit)
            + ",\"messages\":[{\"content\":[{\"image_url\":{\"url\":"@ + image
            + "},\"type\":\"image_url\"},{\"text\":"@ + prompt
            + ",\"type\":\"text\"}],\"role\":\"user\"}]"@ + ",\"temperature\":0.0}"@,
        request_text(image, prompt, limit, Some(model)) == "{\"max_tokens\":"@ + decimal(limit)
            + ",\"messages\":[{\"content\":[{\"image_url\":{\"url\":"@ + image
            + "},\"type\":\"image_url\"},{\"text\":"@ + prompt
            + ",\"type\":\"text\"}],\"role\":\"user\"}]"@ + ",\"model\":"@ + model
            + ",\"temperature\":0.0}"@,
{
    let none = Seq::<char>::empty();
    let head = "{\"max_tokens\":"@ + decimal(limit)
        + ",\"messages\":[{\"content\":[{\"image_url\":{\"url\":"@ + image
        + "},\"type\":\"image_url\"},{\"text\":"@ + prompt
        + ",\"type\":\"text\"}],\"role\":\"user\"}]"@;
    assert(head + none =~= head);
    assert(head + (",\"model\":"@ + model) =~= head + ",\"model\":"@ + model);
}

/// The instructions for an image.
pub proof fn law_instructions(task: RecognitionTask)
    ensures
        task == RecognitionTask::Ocr ==> task.prompt()
            == "Recognize all text in this image exactly as it appears. Preserve line breaks and formatting."@,
        task == RecognitionTask::Table ==> task.prompt()
            == "Parse the table in this image into HTML. Use <table>, <tr>, <th>, <td> tags."@,
        task == RecognitionTask::Formula ==> task.prompt()
            == "Output the mathematical formula in this image as LaTeX. Only output the LaTeX expression, no explanation."@,
        task == RecognitionTask::Chart ==> task.prompt()
            == "Parse the chart in this image. Use Mermaid format for flowcharts, Markdown for other charts."@,
{
}

/// What is said where algorithms cannot be embedded names what failed and why.
pub proof fn law_embedding_complaints(run: AlgoEmbedRun, ids: Seq<String>, e: String)
    ensures
        run.complaint(ids, AlgoEmbedEvent::Upserted { error: Some(e) })
            == "Failed to store embedding: "@ + e@,
        run.complaint(
            ids,
            AlgoEmbedEvent::Embedded { outcome: VectorOutcome::Failed { error: e } },
        ) == "Embedding generation failed: "@ + e@,
        uuid_reading(ids[run.index as int]@) matches Err(m) ==> run.complaint(
            ids,
            AlgoEmbedEvent::Gate { cancelled: false },
        ) == "Invalid algorithm ID "@ + ids[run.index as int]@ + ": "@ + m,
        (SetupError::Connect { error: e }).message() == "Failed to connect to database: "@ + e@,
        (SetupError::Workspace { error: e }).message() == "Failed to get workspace: "@ + e@,
        (SetupError::Provider { error: e }).message() == "Failed to create embedding provider: "@
            + e@,
        (SetupError::VectorStorage { error: e }).message() == "Failed to get vector storage: "@
            + e@,
{
}

// ---------------------------------------------------------------------------
// Identifiers
// ---------------------------------------------------------------------------

/// What a lower-case hexadecimal digit stands for.
pub open spec fn hex_value(c: char) -> int {
    if '0' <= c <= '9' {
        c as int - '0' as int
    } else {
        c as int - 'a' as int + 10
    }
}

/// The number that hexadecimal digits write, hyphens left out.
pub open spec fn hex_number(t: Seq<char>) -> int
    decreases t.len(),
{
    if t.len() == 0 {
        0
    } else if t.last() == '-' {
        hex_number(t.drop_last())
    } else {
        16 * hex_number(t.drop_last()) + hex_value(t.last())
    }
}

/// A UUID writes its number: 32 lower-case hexadecimal digits in groups of eight,
/// four, four, four and twelve.
pub proof fn law_uuid_writes_its_number(v: u128)
    ensures
        hyphenated(v).len() == 36,
        forall|k: int|
            0 <= k < 36 ==> ((#[trigger] hyphenated(v)[k]) == '-' <==> k == 8 || k == 13 || k == 18
                || k == 23),
        forall|k: int|
            0 <= k < 36 && (#[trigger] hyphenated(v)[k]) != '-' ==> '0' <= hyphenated(v)[k] <= '9'
                || 'a' <= hyphenated(v)[k] <= 'f',
        hex_number(hyphenated(v)) == v,
{
    let t = hyphenated(v);
    assert forall|k: int| 0 <= k < 36 && !(k == 8 || k == 13 || k == 18 || k == 23) implies (
    '0' <= #[trigger] t[k] <= '9' || 'a' <= t[k] <= 'f') by {
        lemma_digit(v as nat / pow16((31 - place(k)) as nat));
    }
    lemma_prefix(v, 36);
    assert(t.take(36) =~= t);
    assert(pow16(0) == 1);
    assert(v as nat / 1 == v);
}

/// Which digit stands at a place.
spec fn place(k: int) -> int {
    if k < 8 {
        k
    } else if k < 13 {
        k - 1
    } else if k < 18 {
        k - 2
    } else if k < 23 {
        k - 3
    } else {
        k - 4
    }
}

/// How many digits stand before a place.
spec fn digits_before(k: int) -> int {
    if k <= 8 {
        k
    } else if k <= 13 {
        k - 1
    } else if k <= 18 {
        k - 2
    } else if k <= 23 {
        k - 3
    } else {
        k - 4
    }
}

proof fn lemma_digit(n: nat)
    ensures
        hex_value(hex_char(n as int % 16)) == n as int % 16,
        '0' <= hex_char(n as int % 16) <= '9' || 'a' <= hex_char(n as int % 16) <= 'f',
{
    let d = n as int % 16;
    if d < 10 {
        assert(hex_char(d) == digit(d));
    }
}

proof fn lemma_pow16(n: nat)
    ensures
        pow16(n) > 0,
    decreases n,
{
    if n > 0 {
        lemma_pow16((n - 1) as nat);
    }
}

/// The first places write the number without its last digits.
proof fn lemma_prefix(v: u128, k: int)
    requires
        0 <= k <= 36,
    ensures
        hex_number(hyphenated(v).take(k)) == v as nat / pow16((32 - digits_before(k)) as nat),
    decreases k,
{
    let t = hyphenated(v);
    if k == 0 {
        reveal_with_fuel(pow16, 33);
        assert(pow16(32) == 0x1_0000_0000_0000_0000_0000_0000_0000_0000nat);
        assert(v as nat / pow16(32) == 0) by (nonlinear_arith)
            requires
                (v as nat) < pow16(32),
        ;
    } else {
        lemma_prefix(v, k - 1);
        assert(t.take(k).drop_last() =~= t.take(k - 1));
        assert(t.take(k).last() == t[k - 1]);
        let i = digits_before(k - 1);
        if k - 1 == 8 || k - 1 == 13 || k - 1 == 18 || k - 1 == 23 {
            assert(digits_before(k) == i);
        } else {
            assert(place(k - 1) == i);
            assert(digits_before(k) == i + 1);
            let p = pow16((31 - i) as nat);
            lemma_pow16((31 - i) as nat);
            let n = v as nat / p;
            lemma_digit(n);
            assert(t[k - 1] == hex_char(n as int % 16));
            assert(pow16((32 - i) as nat) == 16 * p);
            vstd::arithmetic::div_mod::lemma_div_denominator(v as int, p as int, 16);
            assert(p * 16 == 16 * p);
            assert(v as nat / pow16((32 - i) as nat) == n / 16);
            assert(n == 16 * (n / 16) + n % 16);
        }
    }
}

// ---------------------------------------------------------------------------
// Media and chunks
// ---------------------------------------------------------------------------

/// Figures are only taken out of a page where they are wanted; else the page
/// stays and gives none.
pub proof fn law_only_wanted_figures(
    wanted: Wanted,
    md: Seq<char>,
    elements: Seq<LayoutElement>,
    encoded: Seq<Option<Vec<u8>>>,
    page: u32,
)
    ensures
        !wanted.figures ==> figures_out(wanted, md, elements, encoded, page).0 == md && figures_out(
            wanted,
            md,
            elements,
            encoded,
            page,
        ).1.len() == 0,
        wanted.figures ==> figures_out(wanted, md, elements, encoded, page) == figures_taken(
            md,
            elements,
            encoded,
            page,
            0,
        ),
{
}

/// A chunk without more has neither a place nor models nor a table.
pub proof fn law_plain_chunks(c: Chunk)
    requires
        c.plain(),
    ensures
        c.start_line is None,
        c.end_line is None,
        c.start_offset is None,
        c.end_offset is None,
        c.llm_model is None,
        c.embedding_model is None,
        c.embedding_dimension is None,
        c.table_id is None,
{
}

/// The HTML of a table can be cut unless the limit falls inside a character: a
/// text within the limit can, and a longer one of which exactly the limit fits.
pub proof fn law_html_can_be_cut(html: Seq<char>)
    ensures
        byte_count(html) <= 8000 ==> limit_between_chars(html),
        byte_count(html) > 8000 ==> (limit_between_chars(html) <==> byte_count(html_shown(html))
            == 8000),
{
}

} // verus!
