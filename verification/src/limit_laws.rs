//! Laws of settings, limits and providers.

use vstd::prelude::*;

use crate::conversion::PdfParserBackend;
use crate::pdf_plan::{
    chunk_keys_in, default_concurrency, dpi_for, low_content, pages_known, record_content,
    without_nul,
};
use crate::safety_limits::{
    clamped, key_needed, local_names, local_provider, model_of, number_setting, outer_timeout,
    page_limit, page_seconds, size_setting, SafetyLimitsConfig,
};
use crate::text::{
    ascii_digit, byte_count, chars_within, decimal, law_decimal_read_back, lowered, parsed,
    stands_at,
};

verus! {

broadcast use vstd::string::group_string_axioms;

// ---------------------------------------------------------------------------
// Settings
// ---------------------------------------------------------------------------

/// A number that is set in decimal notation is the one that is used; where
/// nothing or no number is set the default is.
pub proof fn law_setting_used(n: nat, default: int, t: Seq<char>, i: int)
    requires
        n <= u64::MAX,
        0 <= i < t.len(),
        !ascii_digit(t[i]),
        i > 0 || t[i] != '+',
    ensures
        number_setting(Some(decimal(n)), default) == n,
        n <= usize::MAX ==> size_setting(Some(decimal(n)), default) == n,
        n > usize::MAX ==> size_setting(Some(decimal(n)), default) == default,
        number_setting(None, default) == default,
        number_setting(Some(t), default) == default,
        number_setting(Some(Seq::empty()), default) == default,
{
    law_decimal_read_back(n);
    let d = t.skip(1);
    if i > 0 {
        assert(d[i - 1] == t[i]);
    }
    assert(parsed(t) is None);
}

/// A clamped number lies between the bounds, is the nearest such number, and
/// never falls where the number rises.
pub proof fn law_clamped(n: int, m: int, low: int, high: int)
    requires
        low <= high,
    ensures
        low <= clamped(n, low, high) <= high,
        low <= n <= high ==> clamped(n, low, high) == n,
        n < low ==> clamped(n, low, high) == low,
        n > high ==> clamped(n, low, high) == high,
        n <= m ==> clamped(n, low, high) <= clamped(m, low, high),
{
}

/// Limits lie within the bounds if at least one and at most 32768 tokens may be
/// generated in ten seconds to ten minutes.
pub proof fn law_bounds_of_limits(c: SafetyLimitsConfig)
    ensures
        c.within_bounds() <==> 1 <= c.max_tokens <= 32768 && 10 <= c.timeout_secs <= 600,
{
}

// ---------------------------------------------------------------------------
// Providers
// ---------------------------------------------------------------------------

/// The keys that providers need. One that is not among them needs none.
pub proof fn law_keys_of_providers(other: Seq<char>)
    requires
        other != "openai"@,
        other != "anthropic"@,
        other != "gemini"@,
        other != "mistral"@,
        other != "xai"@,
        other != "openrouter"@,
    ensures
        key_needed("openai"@) == Some(("OPENAI_API_KEY"@, "OpenAI"@)),
        key_needed("anthropic"@) == Some(("ANTHROPIC_API_KEY"@, "Anthropic"@)),
        key_needed("gemini"@) == Some(("GEMINI_API_KEY"@, "Gemini"@)),
        key_needed("mistral"@) == Some(("MISTRAL_API_KEY"@, "Mistral"@)),
        key_needed("xai"@) == Some(("XAI_API_KEY"@, "xAI"@)),
        key_needed("openrouter"@) == Some(("OPENROUTER_API_KEY"@, "OpenRouter"@)),
        key_needed(other) is None,
{
    reveal_strlit("openai");
    reveal_strlit("anthropic");
    reveal_strlit("gemini");
    reveal_strlit("mistral");
    reveal_strlit("xai");
    reveal_strlit("openrouter");
    assert("openai"@.len() == 6 && "openai"@[0] == 'o' && "openai"@[2] == 'e');
    assert("anthropic"@.len() == 9 && "anthropic"@[0] == 'a' && "anthropic"@[2] == 't');
    assert("gemini"@.len() == 6 && "gemini"@[0] == 'g' && "gemini"@[2] == 'm');
    assert("mistral"@.len() == 7 && "mistral"@[0] == 'm' && "mistral"@[2] == 's');
    assert("xai"@.len() == 3 && "xai"@[0] == 'x' && "xai"@[2] == 'i');
    assert("openrouter"@.len() == 10 && "openrouter"@[0] == 'o' && "openrouter"@[2] == 'e');
}

/// The default models of providers. One that is not among them has the same as
/// the first.
pub proof fn law_models_of_providers(anthropic: Seq<char>, other: Seq<char>)
    requires
        other != "anthropic"@,
        other != "gemini"@,
        other != "xai"@,
        other != "openrouter"@,
        other != "ollama"@,
        other != "lmstudio"@,
        other != "lm-studio"@,
        other != "lm_studio"@,
        other != "minimax"@,
        other != "mock"@,
    ensures
        model_of("openai"@, anthropic) == "gpt-4.1-nano"@,
        model_of("gemini"@, anthropic) == "gemini-2.5-flash"@,
        model_of("xai"@, anthropic) == "grok-4-1-fast"@,
        model_of("openrouter"@, anthropic) == "openai/gpt-4o-mini"@,
        model_of("ollama"@, anthropic) == "gemma3:12b"@,
        model_of("lmstudio"@, anthropic) == "gemma-3n-e4b-it"@,
        model_of("lm-studio"@, anthropic) == "gemma-3n-e4b-it"@,
        model_of("lm_studio"@, anthropic) == "gemma-3n-e4b-it"@,
        model_of("minimax"@, anthropic) == "MiniMax-M2.7"@,
        model_of("mock"@, anthropic) == "mock-model"@,
        model_of("anthropic"@, anthropic) == anthropic,
        model_of(other, anthropic) == "gpt-4.1-nano"@,
{
    reveal_strlit("openai");
    reveal_strlit("gemini");
    reveal_strlit("xai");
    reveal_strlit("openrouter");
    reveal_strlit("ollama");
    reveal_strlit("lmstudio");
    reveal_strlit("lm-studio");
    reveal_strlit("lm_studio");
    reveal_strlit("minimax");
    reveal_strlit("mock");
    reveal_strlit("anthropic");
    assert("openai"@.len() == 6 && "openai"@[0] == 'o' && "openai"@[2] == 'e');
    assert("gemini"@.len() == 6 && "gemini"@[0] == 'g' && "gemini"@[2] == 'm');
    assert("xai"@.len() == 3 && "xai"@[0] == 'x' && "xai"@[2] == 'i');
    assert("openrouter"@.len() == 10 && "openrouter"@[0] == 'o' && "openrouter"@[2] == 'e');
    assert("ollama"@.len() == 6 && "ollama"@[0] == 'o' && "ollama"@[2] == 'l');
    assert("lmstudio"@.len() == 8 && "lmstudio"@[0] == 'l' && "lmstudio"@[2] == 's');
    assert("lm-studio"@.len() == 9 && "lm-studio"@[0] == 'l' && "lm-studio"@[2] == '-');
    assert("lm_studio"@.len() == 9 && "lm_studio"@[0] == 'l' && "lm_studio"@[2] == '_');
    assert("minimax"@.len() == 7 && "minimax"@[0] == 'm' && "minimax"@[2] == 'n');
    assert("mock"@.len() == 4 && "mock"@[0] == 'm' && "mock"@[2] == 'c');
    assert("anthropic"@.len() == 9 && "anthropic"@[0] == 'a' && "anthropic"@[2] == 't');
}

/// Which providers run on the same machine, whatever the case of the name.
pub proof fn law_local_providers(name: Seq<char>)
    ensures
        local_provider(name) <==> lowered(name) == "ollama"@ || lowered(name) == "lmstudio"@
            || lowered(name) == "lm-studio"@ || lowered(name) == "lm_studio"@ || lowered(name)
            == "mock"@,
{
    let all = local_names();
    let l = lowered(name);
    assert(all[0] == "ollama"@);
    assert(all[1] == "lmstudio"@);
    assert(all[2] == "lm-studio"@);
    assert(all[3] == "lm_studio"@);
    assert(all[4] == "mock"@);
    if all.contains(l) {
        let i = choose|i: int| 0 <= i < all.len() && all[i] == l;
        assert(i == 0 || i == 1 || i == 2 || i == 3 || i == 4);
    }
}

/// The time that a page is expected to take: what is set, but at least five
/// seconds; else half a minute with a local provider and eight seconds with
/// another.
pub proof fn law_page_seconds(provider: Seq<char>, n: nat)
    requires
        n <= u64::MAX,
    ensures
        n >= 5 ==> page_seconds(provider, Some(decimal(n))) == n,
        n < 5 ==> page_seconds(provider, Some(decimal(n))) == 5,
        local_provider(provider) ==> page_seconds(provider, None) == 30,
        !local_provider(provider) ==> page_seconds(provider, None) == 8,
{
    law_decimal_read_back(n);
}

/// The time that a page may take: what is set, but at least ten seconds; else ten
/// minutes with a local provider and two with another.
pub proof fn law_page_limit(provider: Seq<char>, n: nat)
    requires
        n <= u64::MAX,
    ensures
        n >= 10 ==> page_limit(provider, Some(decimal(n))) == n,
        n < 10 ==> page_limit(provider, Some(decimal(n))) == 10,
        local_provider(provider) ==> page_limit(provider, None) == 600,
        !local_provider(provider) ==> page_limit(provider, None) == 120,
{
    law_decimal_read_back(n);
}

/// The time that a document may take: two minutes and the time of its pages, or a
/// day if that is more.
pub proof fn law_outer_timeout(per_page: int, pages: int)
    requires
        per_page >= 0,
        pages >= 0,
    ensures
        120 + per_page * pages <= 86400 ==> outer_timeout(per_page, pages) == 120 + per_page
            * pages,
        120 + per_page * pages > 86400 ==> outer_timeout(per_page, pages) == 86400,
{
    assert(per_page * pages >= 0) by (nonlinear_arith)
        requires
            per_page >= 0,
            pages >= 0,
    ;
}

// ---------------------------------------------------------------------------
// Documents
// ---------------------------------------------------------------------------

/// How many pages are converted at a time where nothing is set: two with a local
/// provider; with another ten of a document of up to 49 pages, eight of one of up
/// to 199, five of one of up to 499 and three of a longer one.
pub proof fn law_default_concurrency(provider: Seq<char>, pages: int)
    ensures
        local_provider(provider) ==> default_concurrency(provider, pages) == 2,
        !local_provider(provider) && pages < 50 ==> default_concurrency(provider, pages) == 10,
        !local_provider(provider) && 50 <= pages < 200 ==> default_concurrency(provider, pages)
            == 8,
        !local_provider(provider) && 200 <= pages < 500 ==> default_concurrency(provider, pages)
            == 5,
        !local_provider(provider) && pages >= 500 ==> default_concurrency(provider, pages) == 3,
{
}

/// The resolution of the pages: what is set if it fits, else 150 for a document
/// of fewer than 500 pages, 120 for one of fewer than 1000 and 100 for a longer
/// one.
pub proof fn law_resolution(n: nat, pages: int)
    requires
        n <= u32::MAX,
    ensures
        dpi_for(Some(decimal(n)), pages) == n,
        pages < 500 ==> dpi_for(None, pages) == 150,
        500 <= pages < 1000 ==> dpi_for(None, pages) == 120,
        pages >= 1000 ==> dpi_for(None, pages) == 100,
{
    law_decimal_read_back(n);
}

/// The record of a document holds its text from the start, at most 65536 bytes of
/// it, and all of it if it has no more.
pub proof fn law_record_content(markdown: Seq<char>)
    ensures
        byte_count(record_content(markdown)) <= 65536,
        record_content(markdown).len() <= markdown.len(),
        record_content(markdown) == markdown.take(record_content(markdown).len() as int),
        byte_count(markdown) <= 65536 ==> record_content(markdown) == markdown,
        record_content(markdown).len() < markdown.len() ==> byte_count(
            markdown.take(record_content(markdown).len() as int + 1),
        ) > 65536,
{
    lemma_within(markdown, 65536);
    assert(markdown.take(markdown.len() as int) =~= markdown);
}

proof fn lemma_within(t: Seq<char>, most: nat)
    ensures
        chars_within(t, most) <= t.len(),
        byte_count(t.take(chars_within(t, most) as int)) <= most,
        chars_within(t, most) < t.len() ==> byte_count(
            t.take(chars_within(t, most) as int + 1),
        ) > most,
    decreases t.len(),
{
    if byte_count(t) <= most || t.len() == 0 {
        assert(t.take(t.len() as int) =~= t);
    } else {
        let u = t.drop_last();
        lemma_within(u, most);
        let n = chars_within(t, most) as int;
        assert(u.take(n) =~= t.take(n));
        if n < u.len() {
            assert(u.take(n + 1) =~= t.take(n + 1));
        } else {
            assert(t.take(n + 1) =~= t);
        }
    }
}

/// Nothing but NUL is lost, and the rest stays in order: the two sides of any
/// other character are cleaned by themselves.
pub proof fn law_only_nul_goes(a: Seq<char>, c: char, b: Seq<char>)
    requires
        c != '\0',
    ensures
        without_nul(a + seq![c] + b) == without_nul(a) + seq![c] + without_nul(b),
    decreases b.len(),
{
    let t = a + seq![c] + b;
    if b.len() == 0 {
        assert(t.drop_last() =~= a);
        assert(t.last() == c);
        assert(without_nul(t) =~= without_nul(a) + seq![c] + without_nul(b));
    } else {
        law_only_nul_goes(a, c, b.drop_last());
        assert(t.drop_last() =~= a + seq![c] + b.drop_last());
        assert(t.last() == b.last());
        assert(without_nul(t) =~= without_nul(a) + seq![c] + without_nul(b));
    }
}

/// The keys of a document's chunks are those that begin with its id and
/// `-chunk-`: all of them and no others.
pub proof fn law_chunk_keys(keys: Seq<Seq<char>>, document_id: Seq<char>, key: Seq<char>)
    ensures
        chunk_keys_in(keys, document_id).contains(key) <==> keys.contains(key) && stands_at(
            key,
            0,
            document_id + "-chunk-"@,
        ),
        chunk_keys_in(keys, document_id).len() <= keys.len(),
    decreases keys.len(),
{
    if keys.len() > 0 {
        let front = keys.drop_last();
        let before = chunk_keys_in(front, document_id);
        let all = chunk_keys_in(keys, document_id);
        let last = keys.last();
        law_chunk_keys(front, document_id, key);
        assert(keys[keys.len() - 1] == last);
        if keys.contains(key) && key != last {
            let i = choose|i: int| 0 <= i < keys.len() && keys[i] == key;
            assert(front[i] == key);
        }
        if front.contains(key) {
            let i = choose|i: int| 0 <= i < front.len() && front[i] == key;
            assert(keys[i] == key);
        }
        if stands_at(last, 0, document_id + "-chunk-"@) {
            assert(all[all.len() - 1] == last);
            if before.contains(key) {
                let i = choose|i: int| 0 <= i < before.len() && before[i] == key;
                assert(all[i] == key);
            }
            if all.contains(key) && key != last {
                let i = choose|i: int| 0 <= i < all.len() && all[i] == key;
                assert(before[i] == key);
            }
        }
    }
}

/// A document that no vision model read has suspiciously little text if it has
/// fewer than 50 bytes for each page; an unknown number of pages counts as one.
pub proof fn law_low_content(backend: PdfParserBackend, markdown: Seq<char>, page_count: Option<i32>)
    ensures
        backend == PdfParserBackend::Vision ==> low_content(backend, markdown, page_count) is None,
        backend != PdfParserBackend::Vision && pages_known(page_count) <= 1 ==> (low_content(
            backend,
            markdown,
            page_count,
        ) is Some <==> byte_count(markdown) < 50),
        backend != PdfParserBackend::Vision && pages_known(page_count) > 1 ==> (low_content(
            backend,
            markdown,
            page_count,
        ) is Some <==> byte_count(markdown) < 50 * pages_known(page_count)),
        page_count is None ==> pages_known(page_count) == 0,
{
    let n = byte_count(markdown) as int;
    let p = pages_known(page_count);
    if p > 1 {
        assert(n / p < 50 <==> n < 50 * p) by (nonlinear_arith)
            requires
                p > 1,
                n >= 0,
        ;
    }
}

} // verus!
