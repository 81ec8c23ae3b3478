//! Extracting algorithms from a document in three passes.
//!
//! The first pass finds where algorithms stand, by layout or by scanning
//! neighbouring chunks; the second extracts them; the third verifies them. What
//! was extracted twice is kept once.

use vstd::prelude::*;

use crate::conversion::AlgorithmBlock;
use crate::tasks::{
    cat, cat3, is_scoped, parse_uuid, scoped, uuid_reading, FailureKind, ModelChoice,
    TaskFailure, WorkspaceModels,
};
use crate::text::{
    chars_of, decimal, join, join_of, lowercase, parts, parts_of, put_decimal, put_str, same_str,
    same_text, string_of, strs, texts, to_lowercase, trim, trimmed, Separator,
};

verus! {

broadcast use vstd::string::group_string_axioms;

// ---------------------------------------------------------------------------
// Which models to ask
// ---------------------------------------------------------------------------

/// The workspace to look up for its models: none if there is nobody to ask or
/// nothing worth asking for, and an error if its id is none.
pub fn algorithm_workspace(workspace_id: &str, has_service: bool) -> (r: Result<
    Option<u128>,
    String,
>)
    ensures
        if !has_service || !scoped(workspace_id@) {
            r == Ok::<Option<u128>, String>(None)
        } else {
            match uuid_reading(workspace_id@) {
                Ok(v) => r == Ok::<Option<u128>, String>(Some(v)),
                Err(e) => r matches Err(m) && m@ == "Invalid workspace ID: "@ + e,
            }
        },
{
    if !has_service || !is_scoped(workspace_id) {
        return Ok(None);
    }
    match parse_uuid(workspace_id) {
        Ok(v) => Ok(Some(v)),
        Err(e) => Err(cat("Invalid workspace ID: ", e.as_str())),
    }
}

/// What came of looking up the workspace, or what to say instead.
pub fn found_workspace(
    workspace_id: &str,
    lookup: Result<Option<WorkspaceModels>, String>,
) -> (r: Result<WorkspaceModels, String>)
    ensures
        match lookup {
            Ok(Some(w)) => r == Ok::<WorkspaceModels, String>(w),
            Ok(None) => r matches Err(m) && m@ == "Workspace not found: "@ + workspace_id@,
            Err(e) => r matches Err(m) && m@ == "Failed to get workspace: "@ + e@,
        },
{
    match lookup {
        Ok(Some(w)) => Ok(w),
        Ok(None) => Err(cat("Workspace not found: ", workspace_id)),
        Err(e) => Err(cat("Failed to get workspace: ", e.as_str())),
    }
}

/// What a model is for.
#[derive(Clone, Copy, Debug, PartialEq, Eq, Structural)]
pub enum PassKind {
    /// Finding and verifying.
    Analysis,
    Extraction,
}

impl PassKind {
    /// The model that the workspace names for this, if it names provider and
    /// model.
    pub open spec fn own(self, w: WorkspaceModels) -> Option<(Seq<char>, Seq<char>)> {
        let (p, m) = match self {
            PassKind::Analysis => (
                w.algorithm_analysis_llm_provider,
                w.algorithm_analysis_llm_model,
            ),
            PassKind::Extraction => (
                w.algorithm_extraction_llm_provider,
                w.algorithm_extraction_llm_model,
            ),
        };
        match (p, m) {
            (Some(p), Some(m)) => Some((p@, m@)),
            _ => None,
        }
    }
}

/// The model is the one named for the pass, else the workspace's own where the
/// server insists on those, else the server's.
pub open spec fn is_model_for(
    choice: ModelChoice,
    pass: PassKind,
    w: WorkspaceModels,
    strict: bool,
) -> bool {
    match pass.own(w) {
        Some((p, m)) => choice.names(p, m),
        None => if strict {
            choice.names(w.llm_provider@, w.llm_model@)
        } else {
            choice is ServerDefault
        },
    }
}

fn named_or(
    provider: &Option<String>,
    model: &Option<String>,
    w: &WorkspaceModels,
    strict: bool,
) -> (r: ModelChoice)
    ensures
        match (*provider, *model) {
            (Some(p), Some(m)) => r.names(p@, m@),
            _ => if strict {
                r.names(w.llm_provider@, w.llm_model@)
            } else {
                r is ServerDefault
            },
        },
{
    if let Some(p) = provider {
        if let Some(m) = model {
            return ModelChoice::Named { provider: p.clone(), model: m.clone() };
        }
    }
    if strict {
        ModelChoice::Named { provider: w.llm_provider.clone(), model: w.llm_model.clone() }
    } else {
        ModelChoice::ServerDefault
    }
}

/// The models for analysis and for extraction.
pub fn resolve_algorithm_llm_providers(w: &WorkspaceModels, strict: bool) -> (r: (
    ModelChoice,
    ModelChoice,
))
    ensures
        is_model_for(r.0, PassKind::Analysis, *w, strict),
        is_model_for(r.1, PassKind::Extraction, *w, strict),
{
    (
        named_or(
            &w.algorithm_analysis_llm_provider,
            &w.algorithm_analysis_llm_model,
            w,
            strict,
        ),
        named_or(
            &w.algorithm_extraction_llm_provider,
            &w.algorithm_extraction_llm_model,
            w,
            strict,
        ),
    )
}

/// What is said where a model cannot be set up.
pub fn provider_failure(pass: PassKind, w: &WorkspaceModels, error: &str) -> (r: TaskFailure)
    ensures
        r.says(
            FailureKind::Process,
            "LLM provider error: "@ + (if pass.own(*w) is None {
                "Failed to create workspace LLM provider: "@
            } else if pass == PassKind::Analysis {
                "Failed to create analysis LLM provider: "@
            } else {
                "Failed to create extraction LLM provider: "@
            }) + error@,
        ),
{
    let own = match pass {
        PassKind::Analysis => w.algorithm_analysis_llm_provider.is_some()
            && w.algorithm_analysis_llm_model.is_some(),
        PassKind::Extraction => w.algorithm_extraction_llm_provider.is_some()
            && w.algorithm_extraction_llm_model.is_some(),
    };
    let what = if !own {
        "Failed to create workspace LLM provider: "
    } else {
        match pass {
            PassKind::Analysis => "Failed to create analysis LLM provider: ",
            PassKind::Extraction => "Failed to create extraction LLM provider: ",
        }
    };
    TaskFailure::new(FailureKind::Process, cat3("LLM provider error: ", what, error))
}

/// Whether extracted algorithms are approved without review.
pub fn resolve_algorithm_review_mode(w: &WorkspaceModels) -> (r: bool)
    ensures
        r == (w.algorithm_review_mode matches Some(m) && m@ == "auto"@),
{
    match &w.algorithm_review_mode {
        Some(m) => same_str(m.as_str(), "auto"),
        None => false,
    }
}

// ---------------------------------------------------------------------------
// Finding
// ---------------------------------------------------------------------------

/// An algorithm that was found but not read yet.
#[derive(Clone, Debug)]
pub struct AlgorithmCandidate {
    pub id: String,
    pub name: String,
    pub description: String,
    pub location: String,
    pub algorithm_type: String,
}

/// What a candidate is, as a mathematical value.
#[verifier::ext_equal]
pub struct CandidateModel {
    pub id: Seq<char>,
    pub name: Seq<char>,
    pub description: Seq<char>,
    pub location: Seq<char>,
    pub algorithm_type: Seq<char>,
}

impl View for AlgorithmCandidate {
    type V = CandidateModel;

    open spec fn view(&self) -> CandidateModel {
        CandidateModel {
            id: self.id@,
            name: self.name@,
            description: self.description@,
            location: self.location@,
            algorithm_type: self.algorithm_type@,
        }
    }
}

/// The candidate for the `i`-th block that the layout shows.
pub open spec fn layout_candidate(i: int, page: usize) -> CandidateModel {
    CandidateModel {
        id: "A"@ + decimal((i + 1) as nat),
        name: "Algorithm block (page "@ + decimal(page as nat) + ")"@,
        description: "Detected by layout analysis"@,
        location: "Page "@ + decimal(page as nat),
        algorithm_type: "Algorithm"@,
    }
}

/// The candidates for the blocks that the layout shows, one each.
pub fn layout_inventory(blocks: &Vec<AlgorithmBlock>) -> (r: Vec<AlgorithmCandidate>)
    ensures
        r@.len() == blocks@.len(),
        forall|i: int|
            0 <= i < blocks@.len() ==> (#[trigger] r@[i])@ == layout_candidate(
                i,
                blocks@[i].page,
            ),
{
    let mut r: Vec<AlgorithmCandidate> = Vec::new();
    let mut i: usize = 0;
    let len = blocks.len();
    while i < len
        invariant
            i <= len,
            len == blocks@.len(),
            r@.len() == i,
            forall|k: int|
                0 <= k < i ==> (#[trigger] r@[k])@ == layout_candidate(k, blocks@[k].page),
        decreases len - i,
    {
        let page = blocks[i].page as u64;
        let mut id = chars_of("A");
        put_decimal(i as u64 + 1, &mut id);
        let mut name = chars_of("Algorithm block (page ");
        put_decimal(page, &mut name);
        put_str(")", &mut name);
        let mut location = chars_of("Page ");
        put_decimal(page, &mut location);
        let c = AlgorithmCandidate {
            id: string_of(&id),
            name: string_of(&name),
            description: "Detected by layout analysis".to_owned(),
            location: string_of(&location),
            algorithm_type: "Algorithm".to_owned(),
        };
        assert(c@ =~= layout_candidate(i as int, blocks@[i as int].page));
        r.push(c);
        i = i + 1;
    }
    r
}

/// How many pairs of neighbouring chunks there are to scan: a single chunk is
/// scanned alone.
pub open spec fn pairs_of(chunks: nat) -> nat {
    if chunks <= 1 {
        chunks
    } else {
        (chunks - 1) as nat
    }
}

/// How many pairs of neighbouring chunks there are to scan.
pub fn pair_count(chunks: usize) -> (r: usize)
    ensures
        r == pairs_of(chunks as nat),
{
    if chunks <= 1 {
        chunks
    } else {
        chunks - 1
    }
}

/// The second chunk of a pair, if it has one. Blocks that the layout shows stand
/// alone.
pub open spec fn partner(pair: int, chunks: int, from_layout: bool) -> Option<int> {
    if !from_layout && pair + 1 < chunks {
        Some(pair + 1)
    } else {
        None
    }
}

/// The second chunk of a pair, if it has one.
pub fn second_chunk(pair: usize, chunks: usize, from_layout: bool) -> (r: Option<usize>)
    ensures
        match r {
            Some(k) => partner(pair as int, chunks as int, from_layout) == Some(k as int),
            None => partner(pair as int, chunks as int, from_layout) is None,
        },
{
    if !from_layout && pair < chunks && chunks - pair > 1 {
        Some(pair + 1)
    } else {
        None
    }
}

/// Any two neighbouring chunks of a text are scanned together, so no border
/// between chunks goes unread.
pub proof fn law_borders_are_read(chunks: nat, k: nat)
    requires
        k + 1 < chunks,
    ensures
        k < pairs_of(chunks),
        partner(k as int, chunks as int, false) == Some((k + 1) as int),
{
}

/// A pair in which algorithms were found.
#[derive(Clone, Copy, Debug, PartialEq, Eq, Structural)]
pub struct Flagged {
    pub pair: usize,
    /// How many algorithms were found.
    pub found: usize,
}

/// The list, ordered by pair, with one more.
pub open spec fn with_flag(list: Seq<Flagged>, f: Flagged) -> Seq<Flagged>
    decreases list.len(),
{
    if list.len() == 0 || list.last().pair <= f.pair {
        list.push(f)
    } else {
        with_flag(list.drop_last(), f).push(list.last())
    }
}

/// The pairs stand in order.
pub open spec fn by_pair(list: Seq<Flagged>) -> bool {
    forall|i: int, j: int|
        0 <= i < j < list.len() ==> (#[trigger] list[i]).pair <= (#[trigger] list[j]).pair
}

/// Whatever the order in which the scans end, the pairs are extracted in the
/// order of the document, and none is lost.
pub proof fn law_flags_in_order(list: Seq<Flagged>, f: Flagged)
    requires
        by_pair(list),
    ensures
        by_pair(with_flag(list, f)),
        with_flag(list, f).to_multiset() == list.to_multiset().insert(f),
    decreases list.len(),
{
    broadcast use vstd::seq_lib::group_to_multiset_ensures;

    if list.len() == 0 || list.last().pair <= f.pair {
        let r = list.push(f);
        assert forall|i: int, j: int| 0 <= i < j < r.len() implies (#[trigger] r[i]).pair <= (
        #[trigger] r[j]).pair by {
            if j == list.len() {
                if i < list.len() - 1 {
                    assert(list[i].pair <= list[list.len() - 1].pair);
                }
            }
        }
    } else {
        let front = list.drop_last();
        law_flags_in_order(front, f);
        let w = with_flag(front, f);
        let r = w.push(list.last());
        assert forall|i: int| 0 <= i < w.len() implies (#[trigger] w[i]).pair
            <= list.last().pair by {
            assert(w.to_multiset().contains(w[i]));
            if w[i] != f {
                assert(front.to_multiset().contains(w[i]));
                assert(front.contains(w[i]));
                let k = choose|k: int| 0 <= k < front.len() && front[k] == w[i];
                assert(list[k].pair <= list[list.len() - 1].pair);
            }
        }
        assert(list =~= front.push(list.last()));
        assert(r.to_multiset() =~= list.to_multiset().insert(f));
    }
}

pub(crate) fn insert_flag(list: &mut Vec<Flagged>, f: Flagged)
    ensures
        final(list)@ == with_flag(old(list)@, f),
{
    let ghost before = list@;
    let mut i: usize = list.len();
    let mut tail: Vec<Flagged> = Vec::new();
    while i > 0 && list[i - 1].pair > f.pair
        invariant
            i == list@.len(),
            i <= before.len(),
            list@ == before.take(i as int),
            tail@.len() == before.len() - i,
            forall|k: int|
                0 <= k < tail@.len() ==> #[trigger] tail@[k] == before[before.len() - 1 - k],
            with_flag(before, f) == with_flag(list@, f) + before.skip(i as int),
        decreases i,
    {
        let ghost cur = list@;
        let x = list.pop().unwrap();
        tail.push(x);
        i = i - 1;
        proof {
            assert(cur.last() == before[i as int]);
            assert(list@ =~= cur.drop_last());
            assert(with_flag(cur, f) == with_flag(list@, f).push(before[i as int]));
            assert(with_flag(list@, f).push(before[i as int]) + before.skip(i + 1)
                =~= with_flag(list@, f) + before.skip(i as int));
        }
    }
    assert(before.take(i as int) =~= list@);
    list.push(f);
    let ghost head = list@;
    let mut k: usize = tail.len();
    assert(before.skip(i as int).take(0) =~= Seq::<Flagged>::empty());
    while k > 0
        invariant
            k == tail@.len(),
            i <= before.len(),
            k <= before.len() - i,
            forall|j: int|
                0 <= j < tail@.len() ==> #[trigger] tail@[j] == before[before.len() - 1 - j],
            list@ == head + before.skip(i as int).take(before.len() - i - k),
        decreases k,
    {
        let ghost cur = list@;
        let ghost rest = before.skip(i as int);
        let x = tail.pop().unwrap();
        k = k - 1;
        list.push(x);
        proof {
            let n = before.len() - i - k;
            assert(x == rest[n - 1]);
            assert(rest.take(n) =~= rest.take(n - 1).push(rest[n - 1]));
            assert(list@ =~= head + rest.take(n));
        }
    }
    proof {
        let rest = before.skip(i as int);
        assert(rest.take(rest.len() as int) =~= rest);
    }
}

/// How many algorithms were found.
pub open spec fn found_in(list: Seq<Flagged>) -> nat
    decreases list.len(),
{
    if list.len() == 0 {
        0
    } else {
        found_in(list.drop_last()) + list.last().found as nat
    }
}

/// How many algorithms were found.
pub(crate) fn count_found(list: &Vec<Flagged>) -> (r: u128)
    ensures
        r == found_in(list@),
{
    let mut r: u128 = 0;
    let mut i: usize = 0;
    assert(list@.take(0) =~= Seq::<Flagged>::empty());
    while i < list.len()
        invariant
            i <= list@.len(),
            r == found_in(list@.take(i as int)),
            r <= i * u64::MAX,
        decreases list.len() - i,
    {
        assert(list@.take(i + 1).drop_last() =~= list@.take(i as int));
        assert(i * u64::MAX + u64::MAX == (i + 1) * u64::MAX) by (nonlinear_arith);
        assert((i + 1) * u64::MAX <= u128::MAX) by (nonlinear_arith)
            requires
                i + 1 <= u64::MAX,
        ;
        r = r + list[i].found as u128;
        i = i + 1;
    }
    assert(list@.take(i as int) =~= list@);
    r
}

// ---------------------------------------------------------------------------
// Keeping each algorithm once
// ---------------------------------------------------------------------------

/// What two names of the same algorithm share: the name in lower case, without
/// white space at its ends, and with single spaces inside.
pub open spec fn name_key(name: Seq<char>) -> Seq<char> {
    join(parts(Separator::White, lowercase(trim(name)), 0), " "@)
}

/// What two names of the same algorithm share.
pub fn algorithm_key(name: &str) -> (r: Vec<char>)
    ensures
        r@ == name_key(name@),
{
    let low = to_lowercase(trimmed(name).as_str());
    join_of(&parts_of(Separator::White, &chars_of(low.as_str())), &chars_of(" "))
}

/// The keys of a list of names.
pub open spec fn name_keys(names: Seq<Seq<char>>) -> Seq<Seq<char>> {
    names.map_values(|n: Seq<char>| name_key(n))
}

/// The places of the keys that did not occur before.
pub open spec fn first_places(keys: Seq<Seq<char>>) -> Seq<usize>
    decreases keys.len(),
{
    if keys.len() == 0 {
        Seq::empty()
    } else {
        let before = first_places(keys.drop_last());
        if keys.drop_last().contains(keys.last()) {
            before
        } else {
            before.push((keys.len() - 1) as usize)
        }
    }
}

/// The places of the algorithms to keep: of those with the same name, the first.
pub fn distinct_algorithms(names: &Vec<String>) -> (r: Vec<usize>)
    ensures
        r@ == first_places(name_keys(strs(names@))),
        forall|k: int| 0 <= k < r@.len() ==> #[trigger] r@[k] < names@.len(),
{
    let ghost keys = name_keys(strs(names@));
    let mut seen: Vec<Vec<char>> = Vec::new();
    let mut r: Vec<usize> = Vec::new();
    let mut i: usize = 0;
    assert(keys.len() == names@.len());
    assert(keys.take(0) =~= Seq::<Seq<char>>::empty());
    assert(texts(seen@) =~= keys.take(0));
    while i < names.len()
        invariant
            i <= names@.len(),
            keys == name_keys(strs(names@)),
            keys.len() == names@.len(),
            texts(seen@) == keys.take(i as int),
            seen@.len() == i,
            r@ == first_places(keys.take(i as int)),
            forall|k: int| 0 <= k < r@.len() ==> #[trigger] r@[k] < i,
        decreases names.len() - i,
    {
        let key = algorithm_key(names[i].as_str());
        assert(keys[i as int] == key@) by {
            assert(strs(names@)[i as int] == names@[i as int]@);
        }
        let mut known = false;
        let mut j: usize = 0;
        while j < seen.len() && !known
            invariant
                j <= seen@.len(),
                texts(seen@) == keys.take(i as int),
                seen@.len() == i,
                known ==> keys.take(i as int).contains(key@),
                !known ==> forall|k: int| 0 <= k < j ==> #[trigger] keys.take(i as int)[k] != key@,
            decreases seen.len() - j + (if known {
                0int
            } else {
                1int
            }),
        {
            assert(texts(seen@)[j as int] == seen@[j as int]@);
            if same_text(&seen[j], &key) {
                assert(keys.take(i as int)[j as int] == key@);
                known = true;
            } else {
                j = j + 1;
            }
        }
        assert(known == keys.take(i as int).contains(key@));
        assert(keys.take(i + 1).drop_last() =~= keys.take(i as int));
        assert(keys.take(i + 1).last() == key@);
        if !known {
            r.push(i);
        }
        let ghost before = texts(seen@);
        seen.push(key);
        assert(texts(seen@) =~= before.push(keys[i as int]));
        assert(keys.take(i + 1) =~= keys.take(i as int).push(keys[i as int]));
        i = i + 1;
    }
    assert(keys.take(i as int) =~= keys);
    r
}

/// Every algorithm shares its name with a kept one that did not come later.
pub proof fn law_every_name_kept(keys: Seq<Seq<char>>, i: int) -> (a: int)
    requires
        keys.len() <= usize::MAX,
        0 <= i < keys.len(),
    ensures
        0 <= a < first_places(keys).len(),
        first_places(keys)[a] <= i,
        keys[first_places(keys)[a] as int] == keys[i],
    decreases keys.len(),
{
    let front = keys.drop_last();
    let n = keys.len() - 1;
    if i < n {
        law_every_name_kept(front, i)
    } else if front.contains(keys.last()) {
        let m = choose|m: int| 0 <= m < front.len() && front[m] == keys.last();
        law_every_name_kept(front, m)
    } else {
        first_places(front).len() as int
    }
}

proof fn lemma_place_in_range(keys: Seq<Seq<char>>, a: int)
    requires
        keys.len() <= usize::MAX,
        0 <= a < first_places(keys).len(),
    ensures
        first_places(keys)[a] < keys.len(),
    decreases keys.len(),
{
    if a < first_places(keys.drop_last()).len() {
        lemma_place_in_range(keys.drop_last(), a);
    }
}

/// The kept algorithms have different names and stand in order.
pub proof fn law_kept_names_differ(keys: Seq<Seq<char>>, a: int, b: int)
    requires
        keys.len() <= usize::MAX,
        0 <= a < b < first_places(keys).len(),
    ensures
        first_places(keys)[a] < first_places(keys)[b] < keys.len(),
        keys[first_places(keys)[a] as int] != keys[first_places(keys)[b] as int],
    decreases keys.len(),
{
    let front = keys.drop_last();
    let before = first_places(front);
    lemma_place_in_range(keys, b);
    if b < before.len() {
        law_kept_names_differ(front, a, b);
    } else {
        lemma_place_in_range(front, a);
        let k = before[a] as int;
        assert(front[k] == keys[k]);
        assert(front.contains(front[k]));
    }
}

/// What is stored as description: nothing where it is empty.
pub fn stored_description(description: String) -> (r: Option<String>)
    ensures
        description@.len() == 0 ==> r is None,
        description@.len() > 0 ==> r == Some(description),
{
    if chars_of(description.as_str()).len() == 0 {
        None
    } else {
        Some(description)
    }
}

// ---------------------------------------------------------------------------
// Progress
// ---------------------------------------------------------------------------

/// How far a pass is that begins at `from` when `done` of `total` results came:
/// a pass takes thirty per cent.
pub open spec fn pass_percent(from: int, done: int, total: int) -> int {
    from + done * 30 / (if total > 1 {
        total
    } else {
        1
    })
}

proof fn lemma_pass_percent(from: int, done: int, total: int)
    requires
        0 <= done <= total,
    ensures
        from <= pass_percent(from, done, total) <= from + 30,
{
    if total >= 1 {
        assert(0 <= done * 30 / total <= 30) by (nonlinear_arith)
            requires
                0 <= done <= total,
                total >= 1,
        ;
    }
}

/// A further result never takes the progress of a pass back, and the last one
/// completes its thirty per cent.
pub proof fn law_pass_percent_grows(from: int, a: int, b: int, total: int)
    requires
        0 <= a <= b <= total,
        total >= 1,
    ensures
        from <= pass_percent(from, a, total) <= pass_percent(from, b, total) <= from + 30,
        pass_percent(from, total, total) == from + 30,
{
    lemma_pass_percent(from, a, total);
    lemma_pass_percent(from, b, total);
    assert(a * 30 / total <= b * 30 / total) by (nonlinear_arith)
        requires
            0 <= a <= b,
            total >= 1,
    ;
    assert(total * 30 / total == 30) by (nonlinear_arith)
        requires
            total >= 1,
    ;
}

pub(crate) fn percent_of_pass(from: u8, done: usize, total: usize) -> (r: u8)
    requires
        done <= total,
        from <= 200,
    ensures
        r == pass_percent(from as int, done as int, total as int),
{
    proof {
        lemma_pass_percent(from as int, done as int, total as int);
        assert(done * 30 <= u128::MAX) by (nonlinear_arith)
            requires
                done <= u64::MAX,
        ;
    }
    let by = if total > 1 {
        total
    } else {
        1
    };
    let part: u128 = done as u128 * 30 / (by as u128);
    proof {
        assert(part <= 30);
    }
    from + part as u8
}

/// A message about a pass, with how much of it is done.
#[derive(Clone, Debug)]
pub struct StageDetail {
    pub stage: &'static str,
    pub message: String,
    pub done: usize,
    pub total: usize,
}

/// What a stage detail is, as a mathematical value.
#[verifier::ext_equal]
pub struct DetailModel {
    pub stage: Seq<char>,
    pub message: Seq<char>,
    pub done: int,
    pub total: int,
}

impl View for StageDetail {
    type V = DetailModel;

    open spec fn view(&self) -> DetailModel {
        DetailModel {
            stage: self.stage@,
            message: self.message@,
            done: self.done as int,
            total: self.total as int,
        }
    }
}

/// `{what}{done}/{total}`.
pub open spec fn tally(what: Seq<char>, done: nat, total: nat) -> Seq<char> {
    what + decimal(done) + "/"@ + decimal(total)
}

/// What is said while chunks are scanned.
pub open spec fn scan_progress(done: nat, total: nat) -> DetailModel {
    DetailModel {
        stage: "algo_identifying"@,
        message: tally("Identifying algorithms: chunks "@, done, total),
        done: done as int,
        total: total as int,
    }
}

/// What is said while algorithms are extracted.
pub open spec fn extract_progress(done: nat, total: nat) -> DetailModel {
    DetailModel {
        stage: "algo_extracting"@,
        message: tally("Extracting algorithms: "@, done, total),
        done: done as int,
        total: total as int,
    }
}

fn tally_of(what: &str, done: usize, total: usize) -> (r: String)
    ensures
        r@ == tally(what@, done as nat, total as nat),
{
    let mut out = chars_of(what);
    put_decimal(done as u64, &mut out);
    put_str("/", &mut out);
    put_decimal(total as u64, &mut out);
    string_of(&out)
}

pub(crate) fn scan_detail(done: usize, total: usize) -> (r: StageDetail)
    ensures
        r@ == scan_progress(done as nat, total as nat),
{
    StageDetail {
        stage: "algo_identifying",
        message: tally_of("Identifying algorithms: chunks ", done, total),
        done,
        total,
    }
}

pub(crate) fn extract_detail(done: usize, total: usize) -> (r: StageDetail)
    ensures
        r@ == extract_progress(done as nat, total as nat),
{
    StageDetail {
        stage: "algo_extracting",
        message: tally_of("Extracting algorithms: ", done, total),
        done,
        total,
    }
}

/// Appends texts to a list.
pub(crate) fn append_texts(list: &mut Vec<String>, more: &Vec<String>)
    ensures
        strs(final(list)@) == strs(old(list)@) + strs(more@),
{
    let ghost before = strs(list@);
    let ghost all = strs(more@);
    let mut i: usize = 0;
    assert(strs(list@) =~= before + all.take(0));
    while i < more.len()
        invariant
            i <= more@.len(),
            all == strs(more@),
            strs(list@) == before + all.take(i as int),
        decreases more.len() - i,
    {
        let ghost cur = strs(list@);
        list.push(more[i].clone());
        assert(strs(list@) =~= cur.push(all[i as int]));
        assert(all.take(i + 1) =~= all.take(i as int).push(all[i as int]));
        assert(strs(list@) =~= before + all.take(i + 1));
        i = i + 1;
    }
    assert(all.take(i as int) =~= all);
}

// ---------------------------------------------------------------------------
// What can go wrong
// ---------------------------------------------------------------------------

/// Why the layout of a document could not be searched.
#[derive(Clone, Debug)]
pub enum DetectionError {
    InvalidPdfId { error: String },
    NoPdfStorage,
    Fetch { error: String },
    PdfMissing,
    Panicked { error: String },
    Failed { error: String },
}

impl DetectionError {
    pub open spec fn message(self) -> Seq<char> {
        match self {
            DetectionError::InvalidPdfId { error } => "Invalid pdf_id: "@ + error@,
            DetectionError::NoPdfStorage => "PDF storage not available"@,
            DetectionError::Fetch { error } => "Failed to fetch PDF: "@ + error@,
            DetectionError::PdfMissing => "PDF not found"@,
            DetectionError::Panicked { error } => "Layout detection task panicked: "@ + error@,
            DetectionError::Failed { error } => "Algorithm block detection failed: "@ + error@,
        }
    }

    pub fn text(&self) -> (r: String)
        ensures
            r@ == self.message(),
    {
        match self {
            DetectionError::InvalidPdfId { error } => cat("Invalid pdf_id: ", error.as_str()),
            DetectionError::NoPdfStorage => "PDF storage not available".to_owned(),
            DetectionError::Fetch { error } => cat("Failed to fetch PDF: ", error.as_str()),
            DetectionError::PdfMissing => "PDF not found".to_owned(),
            DetectionError::Panicked { error } => cat(
                "Layout detection task panicked: ",
                error.as_str(),
            ),
            DetectionError::Failed { error } => cat(
                "Algorithm block detection failed: ",
                error.as_str(),
            ),
        }
    }
}

/// The number of the PDF whose layout is to be searched, or why the text names
/// none.
pub fn detection_pdf(pdf_id: &str) -> (r: Result<u128, DetectionError>)
    ensures
        match uuid_reading(pdf_id@) {
            Ok(v) => r == Ok::<u128, DetectionError>(v),
            Err(e) => r matches Err(DetectionError::InvalidPdfId { error }) && error@ == e,
        },
{
    match parse_uuid(pdf_id) {
        Ok(v) => Ok(v),
        Err(error) => Err(DetectionError::InvalidPdfId { error }),
    }
}

/// Why algorithms could not be stored.
#[derive(Clone, Debug)]
pub enum StoreError {
    NoDatabaseUrl,
    Connect { error: String },
    Failed { error: String },
}

impl StoreError {
    pub open spec fn message(self) -> Seq<char> {
        match self {
            StoreError::NoDatabaseUrl => "DATABASE_URL not set for algorithm storage"@,
            StoreError::Connect { error } => "Failed to connect to database: "@ + error@,
            StoreError::Failed { error } => "Failed to store algorithms: "@ + error@,
        }
    }

    pub fn text(&self) -> (r: String)
        ensures
            r@ == self.message(),
    {
        match self {
            StoreError::NoDatabaseUrl => "DATABASE_URL not set for algorithm storage".to_owned(),
            StoreError::Connect { error } => cat(
                "Failed to connect to database: ",
                error.as_str(),
            ),
            StoreError::Failed { error } => cat("Failed to store algorithms: ", error.as_str()),
        }
    }
}

} // verus!
