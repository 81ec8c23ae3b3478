//! Names of documents.
//!
//! A document whose first page could be read is renamed after its first author,
//! its year and its title.

use vstd::prelude::*;

use crate::conversion::opt_view;
use crate::metadata::{field_views, text_field, Field, MetaModel};
use crate::text::{
    ascii_digit, chars_of, is_digit, join, join_of, lemma_join_front, lemma_run_bounds,
    lemma_run_is, parts, parts_of, put_all, put_range, put_str, range_of, run, same_str,
    string_of, trim, trim_of, white_space, Separator,
};

verus! {

broadcast use vstd::string::group_string_axioms;

// ---------------------------------------------------------------------------
// Years
// ---------------------------------------------------------------------------

pub open spec fn is_ascii_digit() -> spec_fn(char) -> bool {
    |c: char| ascii_digit(c)
}

/// The place up to which the number of an id is looked for: five characters
/// behind the point at `dot`, or the end.
pub open spec fn number_end(t: Seq<char>, dot: int) -> int {
    if dot + 6 <= t.len() {
        dot + 6
    } else {
        t.len() as int
    }
}

/// An arXiv id begins at `i`: the digits from there on are four, and a point and
/// five more digits follow.
pub open spec fn id_at(t: Seq<char>, i: int) -> bool {
    let dot = run(t, i, is_ascii_digit());
    &&& dot == i + 4
    &&& dot + 6 <= t.len()
    &&& t[dot] == '.'
    &&& forall|k: int| dot < k < dot + 6 ==> ascii_digit(#[trigger] t[k])
}

/// Where reading goes on if no id begins at `i`.
pub open spec fn past(t: Seq<char>, i: int) -> int {
    let e = run(t, i, is_ascii_digit());
    let j = if e == i + 4 && e < t.len() && t[e] == '.' {
        number_end(t, e)
    } else {
        e
    };
    if j < t.len() && !ascii_digit(t[j]) {
        j + 1
    } else {
        j
    }
}

/// The year of the first arXiv id from `i` on.
pub open spec fn year_from(t: Seq<char>, i: int) -> Option<Seq<char>>
    decreases t.len() - i,
{
    if i < 0 || i >= t.len() {
        None
    } else if id_at(t, i) {
        Some("20"@ + t.subrange(i, i + 2))
    } else if i < past(t, i) <= t.len() {
        year_from(t, past(t, i))
    } else {
        None
    }
}

/// The year of the arXiv id in an address: `.../pdf/2506.09452` gives `2025`.
/// There is none if the address holds no such id.
pub fn derive_arxiv_year(source_url: &str) -> (r: Option<String>)
    ensures
        opt_view(r) == year_from(source_url@, 0),
        r matches Some(y) ==> y@.len() == "20"@.len() + 2,
{
    let t = chars_of(source_url);
    let len = t.len();
    let mut i: usize = 0;
    while i < len
        invariant
            i <= len,
            len == t@.len(),
            t@ == source_url@,
            year_from(t@, 0) == year_from(t@, i as int),
        decreases len - i,
    {
        let mut e: usize = i;
        while e < len && is_digit(t[e])
            invariant
                i <= e <= len,
                len == t@.len(),
                forall|k: int| i <= k < e ==> is_ascii_digit()(#[trigger] t@[k]),
            decreases len - e,
        {
            e = e + 1;
        }
        proof {
            lemma_run_is(t@, i as int, e as int, is_ascii_digit());
        }
        let mut j: usize = e;
        if e - i == 4 && e < len && t[e] == '.' {
            j = if len - e >= 6 {
                e + 6
            } else {
                len
            };
            let mut k: usize = e + 1;
            while k < j && is_digit(t[k])
                invariant
                    e < k <= j <= len,
                    len == t@.len(),
                    j == number_end(t@, e as int),
                    forall|a: int| e < a < k ==> ascii_digit(#[trigger] t@[a]),
                decreases j - k,
            {
                k = k + 1;
            }
            if k == j && len - e >= 6 {
                assert(id_at(t@, i as int));
                let mut out = chars_of("20");
                put_range(&t, i, i + 2, &mut out);
                assert(out@ =~= "20"@ + t@.subrange(i as int, i + 2));
                return Some(string_of(&out));
            }
            assert(!id_at(t@, i as int));
        }
        if j < len && !is_digit(t[j]) {
            j = j + 1;
        }
        assert(j == past(t@, i as int));
        assert(j > i) by {
            if e == i {
                assert(!ascii_digit(t@[i as int]));
            }
        }
        i = j;
    }
    None
}

// ---------------------------------------------------------------------------
// File names
// ---------------------------------------------------------------------------

/// How many characters of a title a name holds.
pub const TITLE_CAP: usize = 120;

/// A control character.
pub open spec fn control(c: char) -> bool {
    c <= '\u{1f}' || ('\u{7f}' <= c && c <= '\u{9f}')
}

/// A character that file names should not hold. A colon may stand.
pub open spec fn hostile(c: char) -> bool {
    c == '/' || c == '\\' || c == '<' || c == '>' || c == '"' || c == '|' || c == '?' || c == '*'
        || control(c)
}

/// `s` with hostile characters replaced.
pub open spec fn disarmed(s: Seq<char>) -> Seq<char> {
    s.map_values(
        |c: char|
            if hostile(c) {
                '_'
            } else {
                c
            },
    )
}

/// A point or a space.
pub open spec fn edge(c: char) -> bool {
    c == '.' || c == ' '
}

pub open spec fn is_edge() -> spec_fn(char) -> bool {
    |c: char| edge(c)
}

/// `s` without the points and spaces at its end.
pub open spec fn without_back(s: Seq<char>) -> Seq<char>
    decreases s.len(),
{
    if s.len() > 0 && edge(s.last()) {
        without_back(s.drop_last())
    } else {
        s
    }
}

/// `s` without the points and spaces at its ends.
pub open spec fn without_edges(s: Seq<char>) -> Seq<char> {
    without_back(s.skip(run(s, 0, is_edge())))
}

/// A text as part of a file name: hostile characters are replaced, white space
/// is collapsed, and points and spaces at the ends are dropped.
pub open spec fn sanitized(s: Seq<char>) -> Seq<char> {
    without_edges(join(parts(Separator::White, disarmed(s), 0), " "@))
}

/// A text as part of a file name.
pub fn sanitize_filename_segment(s: &str) -> (r: String)
    ensures
        r@ == sanitized(s@),
{
    let t = chars_of(s);
    let mut out: Vec<char> = Vec::new();
    let mut i: usize = 0;
    while i < t.len()
        invariant
            i <= t@.len(),
            out@ == disarmed(t@).take(i as int),
        decreases t.len() - i,
    {
        let c = t[i];
        let bad = c == '/' || c == '\\' || c == '<' || c == '>' || c == '"' || c == '|' || c == '?'
            || c == '*' || c <= '\u{1f}' || ('\u{7f}' <= c && c <= '\u{9f}');
        out.push(
            if bad {
                '_'
            } else {
                c
            },
        );
        assert(disarmed(t@).take(i + 1) =~= disarmed(t@).take(i as int).push(
            disarmed(t@)[i as int],
        ));
        i = i + 1;
    }
    assert(disarmed(t@).take(i as int) =~= disarmed(t@));
    let words = parts_of(Separator::White, &out);
    let flat = join_of(&words, &chars_of(" "));
    let len = flat.len();
    let mut a: usize = 0;
    while a < len && (flat[a] == '.' || flat[a] == ' ')
        invariant
            a <= len,
            len == flat@.len(),
            forall|k: int| 0 <= k < a ==> is_edge()(#[trigger] flat@[k]),
        decreases len - a,
    {
        a = a + 1;
    }
    proof {
        lemma_run_is(flat@, 0, a as int, is_edge());
    }
    let ghost tail = flat@.skip(a as int);
    let mut b: usize = len;
    assert(tail =~= flat@.subrange(a as int, b as int));
    while b > a && (flat[b - 1] == '.' || flat[b - 1] == ' ')
        invariant
            a <= b <= len,
            len == flat@.len(),
            without_back(tail) == without_back(flat@.subrange(a as int, b as int)),
        decreases b,
    {
        assert(flat@.subrange(a as int, b as int).drop_last() =~= flat@.subrange(
            a as int,
            b - 1,
        ));
        b = b - 1;
    }
    string_of(&range_of(&flat, a, b))
}

/// The name of a document: `{author} et al. - {year} - {title}.pdf`, without
/// the year where there is none. At most `TITLE_CAP` characters of the title are
/// kept.
pub open spec fn citation_filename(
    author: Seq<char>,
    year: Option<Seq<char>>,
    title: Seq<char>,
) -> Seq<char> {
    let full = sanitized(title);
    let short = if full.len() <= TITLE_CAP {
        full
    } else {
        full.take(TITLE_CAP as int)
    };
    match year {
        Some(y) => if y.len() > 0 {
            sanitized(author) + " et al. - "@ + y + " - "@ + short + ".pdf"@
        } else {
            sanitized(author) + " et al. - "@ + short + ".pdf"@
        },
        None => sanitized(author) + " et al. - "@ + short + ".pdf"@,
    }
}

/// The name of a document after its first author, its year and its title.
pub fn format_citation_filename(author: &str, year: Option<&str>, title: &str) -> (r: String)
    ensures
        r@ == citation_filename(
            author@,
            match year {
                Some(y) => Some(y@),
                None => None,
            },
            title@,
        ),
{
    let mut out: Vec<char> = Vec::new();
    put_str(sanitize_filename_segment(author).as_str(), &mut out);
    put_str(" et al. - ", &mut out);
    if let Some(y) = year {
        let v = chars_of(y);
        if v.len() > 0 {
            put_all(&v, &mut out);
            put_str(" - ", &mut out);
        }
    }
    let t = chars_of(sanitize_filename_segment(title).as_str());
    let n = if t.len() <= TITLE_CAP {
        t.len()
    } else {
        TITLE_CAP
    };
    assert(t@.subrange(0, n as int) =~= if t@.len() <= TITLE_CAP {
        t@
    } else {
        t@.take(TITLE_CAP as int)
    });
    put_range(&t, 0, n, &mut out);
    put_str(".pdf", &mut out);
    assert(out@ =~= citation_filename(
        author@,
        match year {
            Some(y) => Some(y@),
            None => None,
        },
        title@,
    ));
    string_of(&out)
}

// ---------------------------------------------------------------------------
// Renaming
// ---------------------------------------------------------------------------

/// What the first page says of a document.
#[derive(Clone, Debug)]
pub struct FrontMatter {
    pub title: String,
    pub first_author: Option<String>,
}

/// The name that a document deserves: none if its first page could not be read
/// or names no author.
pub open spec fn deserved_name(front: Option<FrontMatter>, source_url: Option<Seq<char>>) -> Option<
    Seq<char>,
> {
    match front {
        Some(f) => match f.first_author {
            Some(a) => if trim(a@).len() > 0 {
                Some(
                    citation_filename(
                        trim(a@),
                        match source_url {
                            Some(u) => year_from(u, 0),
                            None => None,
                        },
                        f.title@,
                    ),
                )
            } else {
                None
            },
            None => None,
        },
        None => None,
    }
}

/// The new name of a document, if it should get one: the one it deserves, unless
/// it has that already.
pub fn new_filename(
    front: &Option<FrontMatter>,
    source_url: Option<&str>,
    filename: &str,
) -> (r: Option<String>)
    ensures
        opt_view(r) == ({
            let name = deserved_name(
                *front,
                match source_url {
                    Some(u) => Some(u@),
                    None => None,
                },
            );
            if name == Some(filename@) {
                None
            } else {
                name
            }
        }),
{
    let f = match front {
        Some(f) => f,
        None => {
            return None;
        },
    };
    let a = match &f.first_author {
        Some(a) => trim_of(&chars_of(a.as_str())),
        None => {
            return None;
        },
    };
    if a.len() == 0 {
        return None;
    }
    let author = string_of(&a);
    let year = match source_url {
        Some(u) => derive_arxiv_year(u),
        None => None,
    };
    let name = match &year {
        Some(y) => format_citation_filename(author.as_str(), Some(y.as_str()), f.title.as_str()),
        None => format_citation_filename(author.as_str(), None, f.title.as_str()),
    };
    if same_str(name.as_str(), filename) {
        None
    } else {
        Some(name)
    }
}

// ---------------------------------------------------------------------------
// What holds of names
// ---------------------------------------------------------------------------

/// No character is hostile.
pub open spec fn harmless(s: Seq<char>) -> bool {
    forall|k: int| 0 <= k < s.len() ==> !hostile(#[trigger] s[k])
}

/// Words with single spaces between them.
pub open spec fn single_spaced(s: Seq<char>) -> bool {
    &&& forall|k: int| 0 <= k < s.len() && white_space(#[trigger] s[k]) ==> s[k] == ' '
    &&& forall|k: int|
        0 <= k < s.len() && #[trigger] s[k] == ' ' ==> 0 < k < s.len() - 1 && s[k + 1] != ' '
}

proof fn lemma_joined_parts(t: Seq<char>, i: int)
    requires
        0 <= i <= t.len(),
        harmless(t),
    ensures
        single_spaced(join(parts(Separator::White, t, i), " "@)),
        harmless(join(parts(Separator::White, t, i), " "@)),
        parts(Separator::White, t, i).len() > 0 ==> join(
            parts(Separator::White, t, i),
            " "@,
        ).len() > 0,
    decreases t.len() - i,
{
    reveal_strlit(" ");
    let sep = Separator::White;
    let a = run(t, i, sep.yes());
    lemma_run_bounds(t, i, sep.yes());
    let b = run(t, a, sep.no());
    lemma_run_bounds(t, a, sep.no());
    if a < b {
        let w = t.subrange(a, b);
        let rest = parts(sep, t, b);
        let all = parts(sep, t, i);
        lemma_joined_parts(t, b);
        assert forall|k: int| 0 <= k < w.len() implies !white_space(#[trigger] w[k]) && !hostile(
            w[k],
        ) by {
            assert(sep.no()(t[a + k]));
        }
        if rest.len() == 0 {
            assert(all =~= seq![w]);
        } else {
            assert(all.skip(1) =~= rest);
            lemma_join_front(all, " "@);
            let z = join(rest, " "@);
            let u = w + " "@ + z;
            assert forall|k: int| 0 <= k < u.len() && white_space(#[trigger] u[k]) implies u[k]
                == ' ' by {
                if k > w.len() {
                    assert(u[k] == z[k - w.len() - 1]);
                }
            }
            assert forall|k: int| 0 <= k < u.len() && #[trigger] u[k] == ' ' implies 0 < k
                < u.len() - 1 && u[k + 1] != ' ' by {
                if k < w.len() {
                    assert(u[k] == w[k]);
                } else if k == w.len() {
                    assert(u[k + 1] == z[0]);
                } else {
                    let m = k - w.len() - 1;
                    assert(u[k] == z[m]);
                    assert(u[k + 1] == z[m + 1]);
                }
            }
            assert forall|k: int| 0 <= k < u.len() implies !hostile(#[trigger] u[k]) by {
                if k < w.len() {
                    assert(u[k] == w[k]);
                } else if k > w.len() {
                    assert(u[k] == z[k - w.len() - 1]);
                }
            }
        }
    }
}

proof fn lemma_parts_of_spaced(t: Seq<char>, i: int)
    requires
        single_spaced(t),
        0 <= i < t.len(),
        i == 0 || t[i - 1] == ' ',
    ensures
        join(parts(Separator::White, t, i), " "@) == t.skip(i),
        parts(Separator::White, t, i).len() > 0,
    decreases t.len() - i,
{
    reveal_strlit(" ");
    let sep = Separator::White;
    assert(t[i] != ' ') by {
        if i > 0 {
            assert(t[i - 1] == ' ');
        }
    }
    assert(!white_space(t[i]));
    assert(run(t, i, sep.yes()) == i);
    let b = run(t, i, sep.no());
    lemma_run_bounds(t, i, sep.no());
    assert(sep.no()(t[i]));
    assert(b > i);
    let w = t.subrange(i, b);
    let rest = parts(sep, t, b);
    let all = parts(sep, t, i);
    assert(all == seq![w] + rest);
    if b == t.len() {
        assert(run(t, b, sep.yes()) == b);
        assert(rest =~= Seq::<Seq<char>>::empty());
        assert(all =~= seq![w]);
        assert(w =~= t.skip(i));
    } else {
        assert(white_space(t[b]));
        assert(t[b] == ' ');
        lemma_parts_of_spaced(t, b + 1);
        assert(sep.yes()(t[b]));
        assert(run(t, b, sep.yes()) == run(t, b + 1, sep.yes()));
        assert(t[b + 1] != ' ');
        assert(!sep.yes()(t[b + 1]));
        assert(run(t, b + 1, sep.yes()) == b + 1);
        lemma_run_bounds(t, b + 1, sep.no());
        assert(rest =~= parts(sep, t, b + 1));
        assert(all.skip(1) =~= rest);
        lemma_join_front(all, " "@);
        assert(w + " "@ + t.skip(b + 1) =~= t.skip(i));
    }
}

proof fn lemma_without_back(s: Seq<char>)
    ensures
        without_back(s).len() <= s.len(),
        without_back(s) == s.take(without_back(s).len() as int),
        without_back(s).len() > 0 ==> !edge(without_back(s).last()),
    decreases s.len(),
{
    if s.len() > 0 && edge(s.last()) {
        lemma_without_back(s.drop_last());
        let n = without_back(s).len() as int;
        assert(s.drop_last().take(n) =~= s.take(n));
    } else {
        assert(s.take(s.len() as int) =~= s);
    }
}

/// A sanitised text can be part of a file name: it holds no hostile character,
/// does not begin or end in a point or a space, has single spaces for all its
/// white space, and sanitising it again changes nothing.
pub proof fn law_sanitized(s: Seq<char>)
    ensures
        harmless(sanitized(s)),
        sanitized(s).len() > 0 ==> !edge(sanitized(s)[0]) && !edge(sanitized(s).last()),
        single_spaced(sanitized(s)),
        sanitized(sanitized(s)) == sanitized(s),
{
    let u = join(parts(Separator::White, disarmed(s), 0), " "@);
    assert(harmless(disarmed(s)));
    lemma_joined_parts(disarmed(s), 0);
    let a = run(u, 0, is_edge());
    lemma_run_bounds(u, 0, is_edge());
    let v = u.skip(a);
    let r = sanitized(s);
    lemma_without_back(v);
    assert(r == v.take(r.len() as int));
    assert forall|k: int| 0 <= k < r.len() implies r[k] == #[trigger] u[a + k] by {}
    assert forall|k: int| 0 <= k < r.len() implies !hostile(#[trigger] r[k]) by {
        assert(r[k] == u[a + k]);
    }
    if r.len() > 0 {
        assert(r[0] == u[a + 0]);
        assert(!is_edge()(u[a]));
        assert(single_spaced(r)) by {
            assert forall|k: int| 0 <= k < r.len() && white_space(#[trigger] r[k]) implies r[k]
                == ' ' by {
                assert(r[k] == u[a + k]);
            }
            assert forall|k: int| 0 <= k < r.len() && #[trigger] r[k] == ' ' implies 0 < k
                < r.len() - 1 && r[k + 1] != ' ' by {
                assert(r[k] == u[a + k]);
                assert(u[a + k + 1] != ' ');
                assert(r[r.len() - 1] == r.last());
                assert(r[k + 1] == u[a + (k + 1)]);
            }
        }
        assert(disarmed(r) =~= r);
        lemma_parts_of_spaced(r, 0);
        assert(r.skip(0) =~= r);
        assert(run(r, 0, is_edge()) == 0);
        assert(without_back(r) == r);
    } else {
        assert(disarmed(r) =~= r);
        assert(run(r, 0, Separator::White.yes()) == 0);
        assert(parts(Separator::White, r, 0) =~= Seq::<Seq<char>>::empty());
        assert(join(parts(Separator::White, r, 0), " "@) =~= r);
        assert(r.skip(run(r, 0, is_edge())) =~= r);
    }
}

/// The name of a document holds no hostile character, whatever its author and
/// title are.
pub proof fn law_citation_harmless(author: Seq<char>, year: Option<Seq<char>>, title: Seq<char>)
    requires
        year matches Some(y) ==> harmless(y),
    ensures
        harmless(citation_filename(author, year, title)),
{
    reveal_strlit(" et al. - ");
    reveal_strlit(" - ");
    reveal_strlit(".pdf");
    law_sanitized(author);
    law_sanitized(title);
    assert(harmless(" et al. - "@));
    assert(harmless(" - "@));
    assert(harmless(".pdf"@));
    let full = sanitized(title);
    let short = if full.len() <= TITLE_CAP {
        full
    } else {
        full.take(TITLE_CAP as int)
    };
    assert(harmless(short));
    lemma_harmless_sum(sanitized(author), " et al. - "@);
    let head = sanitized(author) + " et al. - "@;
    lemma_harmless_sum(head, short);
    lemma_harmless_sum(head + short, ".pdf"@);
    if let Some(y) = year {
        lemma_harmless_sum(head, y);
        lemma_harmless_sum(head + y, " - "@);
        lemma_harmless_sum(head + y + " - "@, short);
        lemma_harmless_sum(head + y + " - "@ + short, ".pdf"@);
    }
}

proof fn lemma_harmless_sum(a: Seq<char>, b: Seq<char>)
    requires
        harmless(a),
        harmless(b),
    ensures
        harmless(a + b),
{
    assert forall|k: int| 0 <= k < (a + b).len() implies !hostile(#[trigger] (a + b)[k]) by {
        if k < a.len() {
            assert((a + b)[k] == a[k]);
        } else {
            assert((a + b)[k] == b[k - a.len()]);
        }
    }
}

/// A word of a file name: neither white space nor a point, nor anything that a
/// file name should not hold.
pub open spec fn name_word(w: Seq<char>) -> bool {
    w.len() > 0 && forall|i: int|
        0 <= i < w.len() ==> !white_space(#[trigger] w[i]) && w[i] != '.' && w[i] != '/' && w[i]
            != '\\' && w[i] != '<' && w[i] != '>' && w[i] != '"' && w[i] != '|' && w[i] != '?'
            && w[i] != '*' && w[i] > '\u{1f}' && !('\u{7f}' <= w[i] <= '\u{9f}')
}

/// A word stays as it is, white space between two words becomes one space,
/// whatever and however much it is, and a character that a file name should not
/// hold becomes an underscore. Points and spaces at the ends go.
pub proof fn law_words_of_a_name(x: Seq<char>, y: Seq<char>, gap: Seq<char>, c: char)
    requires
        name_word(x),
        name_word(y),
        gap.len() > 0,
        forall|i: int|
            0 <= i < gap.len() ==> white_space(#[trigger] gap[i]) && gap[i] > '\u{1f}' && !('\u{7f}'
                <= gap[i] <= '\u{9f}'),
        c == '/' || c == '\\' || c == '<' || c == '>' || c == '"' || c == '|' || c == '?' || c == '*'
            || c <= '\u{1f}' || '\u{7f}' <= c <= '\u{9f}',
    ensures
        sanitized(x) == x,
        sanitized(x + gap + y) == x + " "@ + y,
        sanitized(x + seq![c] + y) == x + "_"@ + y,
        sanitized(". "@ + x + " ."@) == x,
{
    reveal_strlit(" ");
    reveal_strlit("_");
    reveal_strlit(". ");
    reveal_strlit(" .");
    lemma_word_alone(x);
    // Two words.
    let t = x + gap + y;
    let sep = Separator::White;
    assert(disarmed(t) =~= t) by {
        assert forall|i: int| 0 <= i < t.len() implies !hostile(#[trigger] t[i]) by {
            let n = x.len() as int;
            let m = n + gap.len();
            if i < n {
                assert(t[i] == x[i]);
            } else if i < m {
                assert(t[i] == gap[i - n]);
            } else {
                assert(t[i] == y[i - m]);
            }
        }
    }
    lemma_two_parts(x, gap, y);
    let two = x + " "@ + y;
    assert(join(seq![x, y], " "@) =~= two) by {
        reveal_with_fuel(join, 3);
        assert(seq![x, y].drop_last() =~= seq![x]);
    }
    lemma_no_edges(two);
    // A character between them.
    let u = x + seq![c] + y;
    let v = x + "_"@ + y;
    assert(disarmed(u) =~= v) by {
        assert forall|i: int| 0 <= i < u.len() implies #[trigger] disarmed(u)[i] == v[i] by {
            let n = x.len() as int;
            if i < n {
                assert(u[i] == x[i]);
            } else if i == n {
                assert(u[i] == c);
            } else {
                assert(u[i] == y[i - n - 1]);
            }
        }
    }
    assert(name_word(v)) by {
        assert forall|i: int|
            0 <= i < v.len() implies !white_space(#[trigger] v[i]) && v[i] != '.' && v[i] != '/'
            && v[i] != '\\' && v[i] != '<' && v[i] != '>' && v[i] != '"' && v[i] != '|' && v[i] != '?'
            && v[i] != '*' && v[i] > '\u{1f}' && !('\u{7f}' <= v[i] <= '\u{9f}') by {
            let n = x.len() as int;
            if i < n {
                assert(v[i] == x[i]);
            } else if i > n {
                assert(v[i] == y[i - n - 1]);
            }
        }
    }
    lemma_word_alone(v);
    assert(disarmed(v) =~= v);
    // Points and spaces at the ends.
    lemma_edges_go(x);
}

/// Text with neither a point nor a space at its ends keeps them.
proof fn lemma_no_edges(s: Seq<char>)
    requires
        s.len() > 0,
        !edge(s[0]),
        !edge(s.last()),
    ensures
        without_edges(s) == s,
{
    lemma_run_is(s, 0, 0, is_edge());
    assert(s.skip(0) =~= s);
}

/// A single word has one part.
proof fn lemma_one_part(t: Seq<char>, a: int, b: int)
    requires
        0 <= a < b <= t.len(),
        forall|i: int| a <= i < b ==> !white_space(#[trigger] t[i]),
        b < t.len() ==> white_space(t[b]),
    ensures
        parts(Separator::White, t, a) == seq![t.subrange(a, b)] + parts(Separator::White, t, b),
{
    let sep = Separator::White;
    lemma_run_is(t, a, a, sep.yes());
    assert forall|k: int| a <= k < b implies sep.no()(#[trigger] t[k]) by {}
    lemma_run_is(t, a, b, sep.no());
}

proof fn lemma_word_alone(x: Seq<char>)
    requires
        name_word(x),
    ensures
        sanitized(x) == x,
        disarmed(x) == x,
{
    assert(disarmed(x) =~= x) by {
        assert forall|i: int| 0 <= i < x.len() implies !hostile(#[trigger] x[i]) by {}
    }
    let n = x.len() as int;
    lemma_one_part(x, 0, n);
    lemma_run_is(x, n, n, Separator::White.yes());
    lemma_run_is(x, n, n, Separator::White.no());
    assert(parts(Separator::White, x, n) =~= Seq::<Seq<char>>::empty());
    assert(x.subrange(0, n) =~= x);
    assert(parts(Separator::White, x, 0) =~= seq![x]);
    assert(join(seq![x], " "@) == x);
    assert(!white_space(x[0]) && !white_space(x[n - 1]));
    lemma_no_edges(x);
}

proof fn lemma_two_parts(x: Seq<char>, gap: Seq<char>, y: Seq<char>)
    requires
        name_word(x),
        name_word(y),
        gap.len() > 0,
        forall|i: int| 0 <= i < gap.len() ==> white_space(#[trigger] gap[i]),
    ensures
        parts(Separator::White, x + gap + y, 0) == seq![x, y],
{
    let sep = Separator::White;
    let t = x + gap + y;
    let n = x.len() as int;
    let m = n + gap.len();
    let e = t.len() as int;
    assert forall|i: int| 0 <= i < n implies !white_space(#[trigger] t[i]) by {
        assert(t[i] == x[i]);
    }
    assert(t[n] == gap[0]);
    lemma_one_part(t, 0, n);
    assert forall|k: int| n <= k < m implies sep.yes()(#[trigger] t[k]) by {
        assert(t[k] == gap[k - n]);
    }
    assert forall|i: int| m <= i < e implies !white_space(#[trigger] t[i]) by {
        assert(t[i] == y[i - m]);
    }
    assert(!white_space(t[m]));
    lemma_run_is(t, n, m, sep.yes());
    lemma_run_is(t, m, m, sep.yes());
    assert forall|k: int| m <= k < e implies sep.no()(#[trigger] t[k]) by {}
    lemma_run_is(t, m, e, sep.no());
    lemma_run_is(t, e, e, sep.yes());
    lemma_run_is(t, e, e, sep.no());
    assert(parts(sep, t, e) =~= Seq::<Seq<char>>::empty());
    assert(t.subrange(0, n) =~= x);
    assert(t.subrange(m, e) =~= y);
    assert(parts(sep, t, n) =~= seq![y]);
    assert(parts(sep, t, 0) =~= seq![x, y]);
}

proof fn lemma_edges_go(x: Seq<char>)
    requires
        name_word(x),
    ensures
        sanitized(". "@ + x + " ."@) == x,
{
    reveal_strlit(" ");
    reveal_strlit(". ");
    reveal_strlit(" .");
    let sep = Separator::White;
    let t = ". "@ + x + " ."@;
    let n = 2 + x.len() as int;
    let e = n + 2;
    assert forall|i: int| 2 <= i < n implies #[trigger] t[i] == x[i - 2] by {}
    assert(t[0] == '.' && t[1] == ' ' && t[n] == ' ' && t[n + 1] == '.');
    assert(disarmed(t) =~= t) by {
        assert forall|i: int| 0 <= i < t.len() implies !hostile(#[trigger] t[i]) by {
            if 2 <= i < n {
                assert(t[i] == x[i - 2]);
            }
        }
    }
    lemma_one_part(t, 0, 1);
    assert forall|k: int| 1 <= k < 2 implies sep.yes()(#[trigger] t[k]) by {}
    assert(t[2] == x[0]);
    lemma_run_is(t, 1, 2, sep.yes());
    assert forall|k: int| 2 <= k < n implies sep.no()(#[trigger] t[k]) by {
        assert(t[k] == x[k - 2]);
    }
    lemma_run_is(t, 2, n, sep.no());
    assert forall|k: int| n <= k < n + 1 implies sep.yes()(#[trigger] t[k]) by {}
    lemma_run_is(t, n, n + 1, sep.yes());
    assert forall|k: int| n + 1 <= k < e implies sep.no()(#[trigger] t[k]) by {}
    lemma_run_is(t, n + 1, e, sep.no());
    lemma_run_is(t, e, e, sep.yes());
    lemma_run_is(t, e, e, sep.no());
    assert(parts(sep, t, e) =~= Seq::<Seq<char>>::empty());
    let dot = seq!['.'];
    assert(t.subrange(0, 1) =~= dot);
    assert(t.subrange(2, n) =~= x);
    assert(t.subrange(n + 1, e) =~= dot);
    assert(parts(sep, t, n) =~= seq![dot]);
    assert(parts(sep, t, 1) =~= seq![x, dot]);
    assert(parts(sep, t, 0) =~= seq![dot, x, dot]);
    assert(join(seq![dot, x, dot], " "@) =~= t) by {
        reveal_with_fuel(join, 4);
        assert(seq![dot, x, dot].drop_last() =~= seq![dot, x]);
        assert(seq![dot, x].drop_last() =~= seq![dot]);
    }
    assert forall|k: int| 0 <= k < 2 implies is_edge()(#[trigger] t[k]) by {}
    assert(!white_space(x[0]));
    lemma_run_is(t, 0, 2, is_edge());
    let u = t.skip(2);
    assert(u =~= x + " ."@);
    assert(u.drop_last() =~= x + " "@);
    assert(u.drop_last().drop_last() =~= x);
    assert(x.last() == x[x.len() - 1]);
    reveal_with_fuel(without_back, 3);
}

/// The year of an arXiv id is `20` and its first two digits, wherever in an
/// address the id stands; an address without digits has none.
pub proof fn law_arxiv_year(a: Seq<char>, d: Seq<char>, n: Seq<char>, b: Seq<char>)
    requires
        forall|i: int| 0 <= i < a.len() ==> !ascii_digit(#[trigger] a[i]),
        d.len() == 4,
        n.len() == 5,
        forall|i: int| 0 <= i < d.len() ==> ascii_digit(#[trigger] d[i]),
        forall|i: int| 0 <= i < n.len() ==> ascii_digit(#[trigger] n[i]),
    ensures
        year_from(a + d + "."@ + n + b, 0) == Some("20"@ + seq![d[0], d[1]]),
        year_from(a, 0) is None,
{
    reveal_strlit(".");
    let t = a + d + "."@ + n + b;
    let k = a.len() as int;
    assert forall|i: int| 0 <= i < k implies !ascii_digit(#[trigger] t[i]) by {
        assert(t[i] == a[i]);
    }
    assert forall|i: int| k <= i < k + 4 implies is_ascii_digit()(#[trigger] t[i]) by {
        assert(t[i] == d[i - k]);
    }
    assert(t[k + 4] == '.');
    lemma_run_is(t, k, k + 4, is_ascii_digit());
    assert forall|i: int| k + 4 < i < k + 10 implies ascii_digit(#[trigger] t[i]) by {
        assert(t[i] == n[i - k - 5]);
    }
    assert(id_at(t, k));
    lemma_year_behind(t, 0, k);
    lemma_year_behind(a, 0, k);
    assert(t.subrange(k, k + 2) =~= seq![d[0], d[1]]);
}

/// What is no digit is passed over.
proof fn lemma_year_behind(t: Seq<char>, i: int, k: int)
    requires
        0 <= i <= k <= t.len(),
        forall|j: int| i <= j < k ==> !ascii_digit(#[trigger] t[j]),
    ensures
        year_from(t, i) == year_from(t, k),
    decreases k - i,
{
    if i < k {
        lemma_run_is(t, i, i, is_ascii_digit());
        assert(past(t, i) == i + 1);
        lemma_year_behind(t, i + 1, k);
    }
}

/// The parts of a citation name: the author, the year where there is one, and at
/// most 120 characters of the title.
pub proof fn law_citation_parts(author: Seq<char>, year: Seq<char>, title: Seq<char>)
    requires
        year.len() > 0,
    ensures
        ({
            let a = sanitized(author);
            let t = sanitized(title);
            &&& t.len() <= 120 ==> citation_filename(author, Some(year), title) == a
                + " et al. - "@ + year + " - "@ + t + ".pdf"@
            &&& t.len() <= 120 ==> citation_filename(author, None, title) == a + " et al. - "@ + t
                + ".pdf"@
            &&& t.len() > 120 ==> citation_filename(author, Some(year), title) == a
                + " et al. - "@ + year + " - "@ + t.take(120) + ".pdf"@
            &&& t.len() > 120 ==> citation_filename(author, None, title) == a + " et al. - "@
                + t.take(120) + ".pdf"@
        }),
        citation_filename(author, Some(Seq::empty()), title) == citation_filename(
            author,
            None,
            title,
        ),
{
}

/// A number that is no id does not hide the year of an id behind it.
pub proof fn law_other_numbers_pass(x: Seq<char>, c: char, rest: Seq<char>)
    requires
        x.len() != 4,
        forall|i: int| 0 <= i < x.len() ==> ascii_digit(#[trigger] x[i]),
        !ascii_digit(c),
    ensures
        year_from(x + seq![c] + rest, 0) == year_from(rest, 0),
{
    let t = x + seq![c] + rest;
    let n = x.len() as int;
    assert forall|i: int| 0 <= i < n implies is_ascii_digit()(#[trigger] t[i]) by {
        assert(t[i] == x[i]);
    }
    assert(t[n] == c);
    lemma_run_is(t, 0, n, is_ascii_digit());
    assert(past(t, 0) == n + 1);
    assert(t.skip(n + 1) =~= rest);
    lemma_year_from_there(t, n + 1, 0);
}

proof fn lemma_digits_behind(t: Seq<char>, k: int, i: int)
    requires
        0 <= k <= t.len(),
        0 <= i,
    ensures
        run(t, k + i, is_ascii_digit()) == k + run(t.skip(k), i, is_ascii_digit()),
    decreases t.len() - k - i,
{
    if k + i < t.len() {
        assert(t.skip(k)[i] == t[i + k]);
        if ascii_digit(t[k + i]) {
            lemma_digits_behind(t, k, i + 1);
        }
    }
}

/// What is before a place does not matter to what is read from there.
proof fn lemma_year_from_there(t: Seq<char>, k: int, i: int)
    requires
        0 <= k <= t.len(),
        0 <= i,
    ensures
        year_from(t, k + i) == year_from(t.skip(k), i),
    decreases t.len() - k - i,
{
    let u = t.skip(k);
    if k + i < t.len() {
        lemma_digits_behind(t, k, i);
        lemma_run_bounds(u, i, is_ascii_digit());
        let dot = run(u, i, is_ascii_digit());
        assert forall|j: int| 0 <= j < u.len() implies #[trigger] u[j] == t[k + j] by {}
        assert(id_at(t, k + i) == id_at(u, i)) by {
            if id_at(u, i) {
                assert forall|j: int| k + dot < j < k + dot + 6 implies ascii_digit(
                    #[trigger] t[j],
                ) by {
                    assert(u[j - k] == t[k + (j - k)]);
                }
            }
            if id_at(t, k + i) {
                assert forall|j: int| dot < j < dot + 6 implies ascii_digit(#[trigger] u[j]) by {
                    assert(u[j] == t[k + j]);
                }
            }
        }
        assert(past(t, k + i) == k + past(u, i));
        if id_at(u, i) {
            assert(t.subrange(k + i, k + i + 2) =~= u.subrange(i, i + 2));
        } else if i < past(u, i) <= u.len() {
            lemma_year_from_there(t, k, past(u, i));
        }
    }
}

/// A document is named after its first author, trimmed, the year of its address
/// and its title; without an author it gets no name.
pub proof fn law_deserved_name(front: FrontMatter, url: Seq<char>)
    ensures
        front.first_author matches Some(a) ==> (trim(a@).len() > 0 ==> deserved_name(
            Some(front),
            Some(url),
        ) == Some(citation_filename(trim(a@), year_from(url, 0), front.title@)) && deserved_name(
            Some(front),
            None,
        ) == Some(citation_filename(trim(a@), None, front.title@))),
        front.first_author is None ==> deserved_name(Some(front), Some(url)) is None,
        front.first_author matches Some(a) && trim(a@).len() == 0 ==> deserved_name(
            Some(front),
            Some(url),
        ) is None,
        deserved_name(None, Some(url)) is None,
{
}

// ---------------------------------------------------------------------------
// The record of a renamed document
// ---------------------------------------------------------------------------

/// Where the record of a document is kept.
pub fn record_key(document_id: &str) -> (r: String)
    ensures
        r@ == document_id@ + "-metadata"@,
{
    crate::tasks::cat(document_id, "-metadata")
}

/// What is set in the record of a document that gets a new name.
pub fn renamed_fields(new_name: &str) -> (r: Vec<Field>)
    ensures
        field_views(r@) == seq![
            ("title"@, MetaModel::Text(new_name@)),
            ("file_name"@, MetaModel::Text(new_name@)),
        ],
{
    let r = vec![text_field("title", new_name), text_field("file_name", new_name)];
    assert(field_views(r@) =~= seq![
        ("title"@, MetaModel::Text(new_name@)),
        ("file_name"@, MetaModel::Text(new_name@)),
    ]);
    r
}

} // verus!
