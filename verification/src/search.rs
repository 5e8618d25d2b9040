//! Game search ranking and web search results.
//!
//! Fetching the game list, the download statistics and the search page is
//! I/O; what is decided from the fetched data is here: how a query and a game
//! name are normalised, how each game is scored, which games are shown, and
//! which results a search page yields.

use vstd::prelude::*;
use crate::selection::{is_selection, is_strict_total, lemma_selection_unique};
use crate::text::{
    all_ascii, ascii_alphanumeric, ascii_lower, lemma_ascii_lower_twice, lemma_trim_end_within,
    lemma_trim_start_within, lemma_trim_twice, trim_start,
    alphanumeric, ascii_lower_chars, ascii_lower_seq, chars_eq, chars_of,
    contains, contains_seq, is_alphanumeric, lowercase_of, occurs_at, owned, seqs_of,
    split_whitespace, split_ws, starts_with, starts_with_seq, string_from_chars, to_lowercase,
    trim_chars, trim_seq, utf8_bytes, utf8_len, utf8_len_of,
};

verus! {

/// Errors of the search service.
pub enum SearchError {
    /// The HTTP request failed; the text describes why.
    RequestFailed(String),
    /// A response could not be read.
    ParseError(String),
    /// The search found nothing.
    NoResults,
}

impl SearchError {
    /// The message shown for this error.
    pub fn message(&self) -> (res: String)
        ensures
            match self {
                SearchError::RequestFailed(e) => res@ == "HTTP request failed: "@ + e@,
                SearchError::ParseError(e) => res@ == "Parse error: "@ + e@,
                SearchError::NoResults => res@ == "No results found"@,
            },
    {
        match self {
            SearchError::RequestFailed(e) => {
                let mut s = owned("HTTP request failed: ");
                s.append(e.as_str());
                s
            },
            SearchError::ParseError(e) => {
                let mut s = owned("Parse error: ");
                s.append(e.as_str());
                s
            },
            SearchError::NoResults => owned("No results found"),
        }
    }
}

/// A game found on UnionCrax, as shown to users.
pub struct GameInfo {
    pub title: String,
    pub url: String,
    pub description: Option<String>,
    pub source: String,
    pub download_count: Option<u64>,
    pub view_count: Option<u64>,
    pub size: Option<String>,
    pub appid: Option<String>,
}

/// A game as the UnionCrax game list describes it.
pub struct UnionCraxGame {
    pub name: Option<String>,
    pub description: Option<String>,
    pub appid: Option<String>,
    pub id: Option<String>,
    pub size: Option<String>,
    pub source: Option<String>,
}

/// The download statistics of one game, keyed by its app id.
pub struct GameStats {
    pub appid: String,
    pub downloads: Option<u64>,
    pub views: Option<u64>,
}

/// One result of a web search.
pub struct WebSearchResult {
    pub title: String,
    pub url: String,
    pub description: String,
    pub source: String,
}

// ------------------------------------------------------------------
// Normalisation
// ------------------------------------------------------------------

/// The view of an optional string, with a default for `None`.
pub open spec fn text_or(s: Option<String>, default: Seq<char>) -> Seq<char> {
    match s {
        Some(t) => t@,
        None => default,
    }
}

/// Separator characters: neither alphanumeric nor a space.
pub open spec fn is_separator(c: char) -> bool {
    !alphanumeric(c) && c != ' '
}

/// A separator becomes a space; other characters stay.
pub open spec fn separator_to_space(c: char) -> char {
    if is_separator(c) {
        ' '
    } else {
        c
    }
}

/// `s` with every separator turned into a space.
pub open spec fn separators_to_spaces(s: Seq<char>) -> Seq<char>
    decreases s.len(),
{
    if s.len() == 0 {
        s
    } else {
        separators_to_spaces(s.drop_last()).push(separator_to_space(s.last()))
    }
}

/// `s` lowercased, with every separator turned into a space, and trimmed.
pub open spec fn normalized(s: Seq<char>) -> Seq<char> {
    trim_seq(separators_to_spaces(ascii_lower_seq(lowercase_of(s))))
}

/// An ASCII separator: neither an ASCII letter or digit nor a space.
pub open spec fn ascii_separator_to_space(c: char) -> char {
    if !ascii_alphanumeric(c) && c != ' ' {
        ' '
    } else {
        c
    }
}

/// `s` with every ASCII separator turned into a space.
pub open spec fn ascii_separators_to_spaces(s: Seq<char>) -> Seq<char>
    decreases s.len(),
{
    if s.len() == 0 {
        s
    } else {
        ascii_separators_to_spaces(s.drop_last()).push(ascii_separator_to_space(s.last()))
    }
}

/// The normal form of ASCII text: ASCII lowercase, every character that is
/// neither a letter, a digit nor a space turned into a space, trimmed.
pub open spec fn ascii_normalized(s: Seq<char>) -> Seq<char> {
    trim_seq(ascii_separators_to_spaces(ascii_lower_seq(s)))
}

/// A character of normal text: a lowercase ASCII letter, a digit or a space.
pub open spec fn is_normal_char(c: char) -> bool {
    c == ' ' || ('a' <= c <= 'z') || ('0' <= c <= '9')
}

proof fn lemma_ascii_separators_pointwise(s: Seq<char>)
    ensures
        ascii_separators_to_spaces(s).len() == s.len(),
        forall|i: int|
            0 <= i < s.len() ==> #[trigger] ascii_separators_to_spaces(s)[i] == ascii_separator_to_space(
                s[i],
            ),
    decreases s.len(),
{
    if s.len() > 0 {
        lemma_ascii_separators_pointwise(s.drop_last());
        assert forall|i: int| 0 <= i < s.len() implies #[trigger] ascii_separators_to_spaces(s)[i]
            == ascii_separator_to_space(s[i]) by {
            if i < s.len() - 1 {
                assert(s.drop_last()[i] == s[i]);
            }
        }
    }
}

proof fn lemma_normal_text_is_fixed(r: Seq<char>)
    requires
        forall|i: int| 0 <= i < r.len() ==> is_normal_char(#[trigger] r[i]),
    ensures
        ascii_lower_seq(r) == r,
        ascii_separators_to_spaces(r) == r,
{
    lemma_ascii_separators_pointwise(r);
    assert(ascii_lower_seq(r) =~= r);
    assert(ascii_separators_to_spaces(r) =~= r);
}

/// Normal text holds only lowercase ASCII letters, digits and spaces, has no
/// surrounding whitespace, and is its own normal form.
pub proof fn law_normal_form_is_stable(s: Seq<char>)
    ensures
        forall|i: int|
            0 <= i < ascii_normalized(s).len() ==> is_normal_char(#[trigger] ascii_normalized(s)[i]),
        all_ascii(ascii_normalized(s)),
        trim_seq(ascii_normalized(s)) == ascii_normalized(s),
        ascii_normalized(ascii_normalized(s)) == ascii_normalized(s),
{
    let x = ascii_lower_seq(s);
    let y = ascii_separators_to_spaces(x);
    let r = trim_seq(y);
    lemma_ascii_separators_pointwise(x);
    assert forall|j: int| 0 <= j < y.len() implies is_normal_char(#[trigger] y[j]) by {
        assert(y[j] == ascii_separator_to_space(x[j]));
        assert(x[j] == ascii_lower(s[j]));
        let c = s[j];
        if 'A' <= c <= 'Z' {
            assert((((c as u32) + 32) as char) as u32 == (c as u32) + 32);
        }
    }
    assert forall|i: int| 0 <= i < r.len() implies is_normal_char(#[trigger] r[i]) by {
        let c = r[i];
        assert(r.contains(c));
        lemma_trim_end_within(trim_start(y), c);
        lemma_trim_start_within(y, c);
        let j = choose|j: int| 0 <= j < y.len() && y[j] == c;
        assert(is_normal_char(y[j]));
    }
    assert forall|i: int| 0 <= i < r.len() implies (#[trigger] r[i] as u32) < 128 by {
        assert(is_normal_char(r[i]));
    }
    lemma_trim_twice(y);
    lemma_normal_text_is_fixed(r);
}

/// Normalises a string for matching: lowercase, separators become spaces,
/// surrounding whitespace removed.
pub fn normalize_string(s: &str) -> (res: Vec<char>)
    ensures
        res@ == normalized(s@),
        all_ascii(s@) ==> res@ == ascii_normalized(s@),
{
    let lower = to_lowercase(s);
    let chars = chars_of(lower.as_str());
    let ascii = ascii_lower_chars(&chars);
    proof {
        if all_ascii(s@) {
            lemma_ascii_lower_twice(s@);
        }
    }
    let mut mapped: Vec<char> = Vec::new();
    let mut i: usize = 0;
    assert(ascii@.take(0) =~= Seq::<char>::empty());
    while i < ascii.len()
        invariant
            i <= ascii.len(),
            mapped@ == separators_to_spaces(ascii@.take(i as int)),
            all_ascii(s@) ==> ascii@ == ascii_lower_seq(s@) && all_ascii(ascii@),
            all_ascii(s@) ==> mapped@ == ascii_separators_to_spaces(ascii@.take(i as int)),
        decreases ascii.len() - i,
    {
        let c = ascii[i];
        if !is_alphanumeric(c) && c != ' ' {
            mapped.push(' ');
        } else {
            mapped.push(c);
        }
        assert(ascii@.take(i + 1).drop_last() =~= ascii@.take(i as int));
        i += 1;
    }
    assert(ascii@.take(ascii.len() as int) =~= ascii@);
    trim_chars(&mapped)
}

// ------------------------------------------------------------------
// Scoring
// ------------------------------------------------------------------

/// The words of `words` longer than two bytes, in order.
pub open spec fn long_words(words: Seq<Seq<char>>) -> Seq<Seq<char>>
    decreases words.len(),
{
    if words.len() == 0 {
        words
    } else if utf8_len(words.last()) > 2 {
        long_words(words.drop_last()).push(words.last())
    } else {
        long_words(words.drop_last())
    }
}

/// The words of a normalised query that count: those longer than two bytes.
pub open spec fn query_words_of(q: Seq<char>) -> Seq<Seq<char>> {
    long_words(split_ws(q))
}

/// The points that the query words give a game: 25 for each word longer than
/// three bytes found in the name, else 8 if found in the description.
pub open spec fn word_points(words: Seq<Seq<char>>, name: Seq<char>, desc: Seq<char>) -> int
    decreases words.len(),
{
    if words.len() == 0 {
        0
    } else {
        let w = words.last();
        word_points(words.drop_last(), name, desc) + if utf8_len(w) > 3 {
            if contains_seq(name, w) {
                25int
            } else if contains_seq(desc, w) {
                8int
            } else {
                0int
            }
        } else {
            0int
        }
    }
}

/// The app id of a game: its `appid`, else its `id`, else empty.
pub open spec fn game_appid(g: UnionCraxGame) -> Seq<char> {
    match g.appid {
        Some(a) => a@,
        None => text_or(g.id, seq![]),
    }
}

/// The points that the normalised name earns against the normalised query:
/// 100 for an exact match, 60 if the name contains the query and their
/// lengths differ by fewer than ten bytes, 40 if the query contains a name
/// longer than four bytes, 30 if the name starts with the query.
pub open spec fn name_points(name: Seq<char>, q: Seq<char>) -> int {
    let gap = utf8_len(name) - utf8_len(q);
    (if name == q {
        100int
    } else {
        0int
    }) + (if contains_seq(name, q) && -10 < gap < 10 {
        60int
    } else {
        0int
    }) + (if contains_seq(q, name) && utf8_len(name) > 4 {
        40int
    } else {
        0int
    }) + (if starts_with_seq(name, q) {
        30int
    } else {
        0int
    })
}

/// The score of a game for a normalised query `q` with query words `words`:
/// name points, word points, and 20 if its app id equals the query.
#[verifier::opaque]
pub open spec fn game_score(q: Seq<char>, words: Seq<Seq<char>>, g: UnionCraxGame) -> int {
    let name = normalized(text_or(g.name, seq![]));
    let desc = normalized(text_or(g.description, seq![]));
    name_points(name, q) + word_points(words, name, desc) + (if game_appid(g) == q {
        20int
    } else {
        0int
    })
}

proof fn lemma_occurs_len(s: Seq<char>, p: Seq<char>)
    requires
        contains_seq(s, p),
    ensures
        p.len() <= s.len(),
        p.len() == s.len() ==> s == p,
{
    let i = choose|i: int| occurs_at(s, p, i);
    if p.len() == s.len() {
        assert(i == 0);
        assert(s.subrange(0, s.len() as int) =~= s);
    }
}

/// A name equal to the query earns at least 100 name points more than any
/// other name: the exact-match bonus comes on top of every point another
/// name can earn by containing or starting with the query.
pub proof fn law_exact_name_match_scores_highest(name: Seq<char>, q: Seq<char>)
    requires
        name != q,
    ensures
        name_points(q, q) >= name_points(name, q) + 100,
{
    assert(occurs_at(q, q, 0)) by {
        assert(q.subrange(0, q.len() as int) =~= q);
    }
    assert(contains_seq(q, q));
    assert(starts_with_seq(q, q));
    assert(name_points(q, q) >= 190);
    if contains_seq(name, q) {
        lemma_occurs_len(name, q);
        if contains_seq(q, name) {
            lemma_occurs_len(q, name);
            assert(false);
        }
    } else {
        assert(!starts_with_seq(name, q));
    }
}

/// Of two games whose query words earn the first at least as many points, a
/// game whose normalised name is the query scores strictly more than one
/// whose normalised name is not.
pub proof fn law_exact_name_match_outranks(
    q: Seq<char>,
    words: Seq<Seq<char>>,
    g1: UnionCraxGame,
    g2: UnionCraxGame,
)
    requires
        normalized(text_or(g1.name, seq![])) == q,
        normalized(text_or(g2.name, seq![])) != q,
        word_points(words, normalized(text_or(g2.name, seq![])), normalized(text_or(g2.description, seq![])))
            <= word_points(words, q, normalized(text_or(g1.description, seq![]))),
    ensures
        game_score(q, words, g1) > game_score(q, words, g2),
{
    reveal(game_score);
    law_exact_name_match_scores_highest(normalized(text_or(g2.name, seq![])), q);
}

/// The name points (see `name_points`).
fn name_points_of(name: &Vec<char>, q: &Vec<char>) -> (res: i128)
    ensures
        res == name_points(name@, q@),
{
    let name_len = utf8_len_of(name) as i128;
    let q_len = utf8_len_of(q) as i128;
    let mut score: i128 = 0;
    if chars_eq(name, q) {
        score = score + 100;
    }
    let gap = name_len - q_len;
    if contains(name, q) && -10 < gap && gap < 10 {
        score = score + 60;
    }
    if contains(q, name) && name_len > 4 {
        score = score + 40;
    }
    if starts_with(name, q) {
        score = score + 30;
    }
    score
}

/// The words of a normalised query longer than two bytes.
pub fn query_words(q: &Vec<char>) -> (res: Vec<Vec<char>>)
    ensures
        seqs_of(res@) == query_words_of(q@),
{
    let words = split_whitespace(q);
    let mut out: Vec<Vec<char>> = Vec::new();
    let mut i: usize = 0;
    assert(seqs_of(words@).take(0) =~= Seq::<Seq<char>>::empty());
    assert(seqs_of(out@) =~= Seq::<Seq<char>>::empty());
    while i < words.len()
        invariant
            i <= words.len(),
            seqs_of(out@) == long_words(seqs_of(words@).take(i as int)),
        decreases words.len() - i,
    {
        let ghost w = seqs_of(words@)[i as int];
        assert(seqs_of(words@).take(i + 1) =~= seqs_of(words@).take(i as int).push(w));
        assert(seqs_of(words@).take(i + 1).drop_last() =~= seqs_of(words@).take(i as int));
        if utf8_len_of(&words[i]) > 2 {
            let ghost old_out = seqs_of(out@);
            out.push(words[i].clone());
            assert(seqs_of(out@) =~= old_out.push(w));
        }
        i += 1;
    }
    assert(seqs_of(words@).take(words.len() as int) =~= seqs_of(words@));
    out
}

/// The word points of a game (see `word_points`).
fn word_points_of(words: &Vec<Vec<char>>, name: &Vec<char>, desc: &Vec<char>) -> (res: i128)
    ensures
        res == word_points(seqs_of(words@), name@, desc@),
        0 <= res <= 25 * words.len(),
{
    let mut pts: i128 = 0;
    let mut i: usize = 0;
    while i < words.len()
        invariant
            i <= words.len(),
            pts == word_points(seqs_of(words@).take(i as int), name@, desc@),
            0 <= pts <= 25 * i,
        decreases words.len() - i,
    {
        assert(seqs_of(words@).take(i + 1).drop_last() =~= seqs_of(words@).take(i as int));
        assert(seqs_of(words@).take(i + 1).last() == words@[i as int]@);
        if utf8_len_of(&words[i]) > 3 {
            if contains(name, &words[i]) {
                pts = pts + 25;
            } else if contains(desc, &words[i]) {
                pts = pts + 8;
            }
        }
        i += 1;
    }
    assert(seqs_of(words@).take(words.len() as int) =~= seqs_of(words@));
    pts
}

/// The app id of a game (see `game_appid`).
fn appid_of(g: &UnionCraxGame) -> (res: Vec<char>)
    ensures
        res@ == game_appid(*g),
{
    match &g.appid {
        Some(a) => chars_of(a.as_str()),
        None => match &g.id {
            Some(i) => chars_of(i.as_str()),
            None => Vec::new(),
        },
    }
}

/// Normalises an optional text, taking `None` as the empty text.
fn normalize_opt(s: &Option<String>) -> (res: Vec<char>)
    ensures
        res@ == normalized(text_or(*s, seq![])),
{
    match s {
        Some(t) => normalize_string(t.as_str()),
        None => {
            proof {
                reveal_strlit("");
            }
            let e = "";
            assert(e@ =~= Seq::<char>::empty());
            normalize_string(e)
        },
    }
}

/// The score of game `g` for the normalised query `q` and its words.
pub fn score_game(q: &Vec<char>, words: &Vec<Vec<char>>, g: &UnionCraxGame) -> (res: i128)
    requires
        seqs_of(words@) == query_words_of(q@),
    ensures
        res == game_score(q@, query_words_of(q@), *g),
{
    reveal(game_score);
    let name = normalize_opt(&g.name);
    let desc = normalize_opt(&g.description);
    let np = name_points_of(&name, q);
    let wp = word_points_of(words, &name, &desc);
    let ap: i128 = if chars_eq(&appid_of(g), q) {
        20
    } else {
        0
    };
    np + wp + ap
}

// ------------------------------------------------------------------
// Choosing the games to show
// ------------------------------------------------------------------

/// The least score for a game to be shown.
pub const SCORE_THRESHOLD: i128 = 60;

/// The most games shown for one search.
pub const MAX_RESULTS: usize = 3;

/// Game `i` ranks before game `j`: a higher score, or the same score and an
/// earlier place in the list (a stable sort by descending score).
pub open spec fn ranks_before(scores: Seq<i128>, i: int, j: int) -> bool {
    scores[i] > scores[j] || (scores[i] == scores[j] && i < j)
}

/// `picked` lists the best-ranked games whose score reaches the threshold, best
/// first, at most `MAX_RESULTS` of them: every qualifying game is listed, or is
/// ranked after all listed ones when the list is full.
pub open spec fn is_top_selection(scores: Seq<i128>, picked: Seq<usize>) -> bool {
    &&& picked.len() <= MAX_RESULTS
    &&& forall|k: int|
        0 <= k < picked.len() ==> #[trigger] picked[k] < scores.len() && scores[picked[k] as int]
            >= SCORE_THRESHOLD
    &&& forall|k: int, l: int|
        0 <= k < l < picked.len() ==> ranks_before(
            scores,
            #[trigger] picked[k] as int,
            #[trigger] picked[l] as int,
        )
    &&& forall|i: int|
        0 <= i < scores.len() && scores[i] >= SCORE_THRESHOLD && !(#[trigger] picked.contains(
            i as usize,
        )) ==> picked.len() == MAX_RESULTS && forall|k: int|
            0 <= k < picked.len() ==> ranks_before(scores, #[trigger] picked[k] as int, i)
}

/// The games shown for a search are determined by the scores: two lists
/// that both meet the description of the best-ranked qualifying games are
/// the same list.
pub proof fn law_top_selection_is_unique(scores: Seq<i128>, p1: Seq<usize>, p2: Seq<usize>)
    requires
        is_top_selection(scores, p1),
        is_top_selection(scores, p2),
    ensures
        p1 == p2,
{
    let before = |i: int, j: int| ranks_before(scores, i, j);
    let eligible = |i: int| scores[i] >= SCORE_THRESHOLD;
    let n = scores.len() as int;
    assert(is_strict_total(before, n));
    assert(is_selection(before, eligible, n, MAX_RESULTS as int, p1));
    assert(is_selection(before, eligible, n, MAX_RESULTS as int, p2));
    lemma_selection_unique(before, eligible, n, MAX_RESULTS as int, p1, p2);
}

/// Whether `x` is one of the indices in `v`.
fn contains_index(v: &Vec<usize>, x: usize) -> (res: bool)
    ensures
        res == v@.contains(x),
{
    let mut k: usize = 0;
    while k < v.len()
        invariant
            k <= v.len(),
            forall|j: int| 0 <= j < k ==> v@[j] != x,
        decreases v.len() - k,
    {
        if v[k] == x {
            return true;
        }
        k += 1;
    }
    false
}

/// Picks the games to show: the (at most three) best-ranked games whose score
/// reaches the threshold, best first.
pub fn select_top(scores: &Vec<i128>) -> (res: Vec<usize>)
    ensures
        is_top_selection(scores@, res@),
{
    let n = scores.len();
    let mut picked: Vec<usize> = Vec::new();
    let mut round: usize = 0;
    while round < MAX_RESULTS
        invariant
            n == scores.len(),
            picked.len() == round,
            round <= MAX_RESULTS,
            forall|k: int|
                0 <= k < picked.len() ==> #[trigger] picked@[k] < n && scores@[picked@[k] as int]
                    >= SCORE_THRESHOLD,
            forall|k: int, l: int|
                0 <= k < l < picked.len() ==> ranks_before(
                    scores@,
                    #[trigger] picked@[k] as int,
                    #[trigger] picked@[l] as int,
                ),
            forall|i: int, k: int|
                #![trigger picked@[k], scores@[i]]
                0 <= i < n && scores@[i] >= SCORE_THRESHOLD && !picked@.contains(i as usize) && 0
                    <= k < picked.len() ==> ranks_before(scores@, picked@[k] as int, i),
        decreases MAX_RESULTS - round,
    {
        let mut best: Option<usize> = None;
        let mut i: usize = 0;
        while i < n
            invariant
                n == scores.len(),
                i <= n,
                match best {
                    Some(b) => b < i && scores@[b as int] >= SCORE_THRESHOLD && !picked@.contains(
                        b,
                    ) && forall|j: int|
                        0 <= j < i && j != b && scores@[j] >= SCORE_THRESHOLD
                            && !picked@.contains(j as usize) ==> ranks_before(
                            scores@,
                            b as int,
                            j,
                        ),
                    None => forall|j: int|
                        0 <= j < i ==> !(scores@[j] >= SCORE_THRESHOLD && !picked@.contains(
                            j as usize,
                        )),
                },
            decreases n - i,
        {
            let is_picked = contains_index(&picked, i);
            let ghost old_best = best;
            if scores[i] >= SCORE_THRESHOLD && !is_picked {
                match best {
                    Some(b) => {
                        if scores[i] > scores[b] {
                            best = Some(i);
                        }
                    },
                    None => {
                        best = Some(i);
                    },
                }
            }
            proof {
                match best {
                    Some(nb) => {
                        assert forall|j: int|
                            0 <= j < i + 1 && j != nb && scores@[j] >= SCORE_THRESHOLD
                                && !picked@.contains(j as usize) implies ranks_before(
                            scores@,
                            nb as int,
                            j,
                        ) by {
                            match old_best {
                                Some(ob) => {
                                    if j < i && j != ob {
                                        assert(ranks_before(scores@, ob as int, j));
                                    }
                                },
                                None => {},
                            }
                        }
                    },
                    None => {},
                }
            }
            i += 1;
        }
        match best {
            None => {
                assert forall|j: int|
                    0 <= j < n && scores@[j] >= SCORE_THRESHOLD implies #[trigger] picked@.contains(
                    j as usize,
                ) by {}
                return picked;
            },
            Some(b) => {
                let ghost old_picked = picked@;
                picked.push(b);
                proof {
                    assert forall|k: int, l: int|
                        0 <= k < l < picked.len() implies ranks_before(
                        scores@,
                        #[trigger] picked@[k] as int,
                        #[trigger] picked@[l] as int,
                    ) by {
                        if l == picked.len() - 1 {
                            assert(picked@[l] == b);
                            assert(old_picked[k] == picked@[k]);
                        } else {
                            assert(old_picked[k] == picked@[k]);
                            assert(old_picked[l] == picked@[l]);
                        }
                    }
                    assert forall|i: int, k: int|
                        #![trigger picked@[k], scores@[i]]
                        0 <= i < n && scores@[i] >= SCORE_THRESHOLD && !picked@.contains(i as usize)
                            && 0 <= k < picked.len() implies ranks_before(
                        scores@,
                        picked@[k] as int,
                        i,
                    ) by {
                        assert(!old_picked.contains(i as usize)) by {
                            if old_picked.contains(i as usize) {
                                let m = choose|m: int|
                                    0 <= m < old_picked.len() && old_picked[m] == i as usize;
                                assert(picked@[m] == i as usize);
                            }
                        }
                        assert(i != b as int) by {
                            assert(picked@[picked.len() - 1] == b);
                        }
                        if k < old_picked.len() {
                            assert(old_picked[k] == picked@[k]);
                        }
                    }
                    assert forall|k: int|
                        0 <= k < picked.len() implies #[trigger] picked@[k] < n
                        && scores@[picked@[k] as int] >= SCORE_THRESHOLD by {
                        if k < old_picked.len() {
                            assert(old_picked[k] == picked@[k]);
                        }
                    }
                }
            },
        }
        round += 1;
    }
    picked
}

// ------------------------------------------------------------------
// Building the results
// ------------------------------------------------------------------

/// The view of an optional string.
pub open spec fn opt_view(o: Option<String>) -> Option<Seq<char>> {
    match o {
        Some(s) => Some(s@),
        None => None,
    }
}

/// A copy of an optional string.
pub fn clone_opt(o: &Option<String>) -> (res: Option<String>)
    ensures
        opt_view(res) == opt_view(*o),
{
    match o {
        Some(s) => Some(s.clone()),
        None => None,
    }
}

/// The statistics entry for an app id: the first entry with that id.
pub open spec fn stats_for(stats: Seq<GameStats>, appid: Seq<char>) -> Option<GameStats>
    decreases stats.len(),
{
    if stats.len() == 0 {
        None
    } else if stats[0].appid@ == appid {
        Some(stats[0])
    } else {
        stats_for(stats.drop_first(), appid)
    }
}

/// The download count recorded for an app id.
pub open spec fn downloads_for(stats: Seq<GameStats>, appid: Seq<char>) -> Option<u64> {
    match stats_for(stats, appid) {
        Some(s) => s.downloads,
        None => None,
    }
}

/// The view count recorded for an app id.
pub open spec fn views_for(stats: Seq<GameStats>, appid: Seq<char>) -> Option<u64> {
    match stats_for(stats, appid) {
        Some(s) => s.views,
        None => None,
    }
}

/// Looks up the statistics of an app id.
fn find_stats(stats: &Vec<GameStats>, appid: &Vec<char>) -> (res: (Option<u64>, Option<u64>))
    ensures
        res.0 == downloads_for(stats@, appid@),
        res.1 == views_for(stats@, appid@),
{
    let mut i: usize = 0;
    assert(stats@.skip(0) =~= stats@);
    while i < stats.len()
        invariant
            i <= stats.len(),
            stats_for(stats@, appid@) == stats_for(stats@.skip(i as int), appid@),
        decreases stats.len() - i,
    {
        assert(stats@.skip(i as int).drop_first() =~= stats@.skip(i + 1));
        assert(stats@.skip(i as int)[0] == stats@[i as int]);
        let id = chars_of(stats[i].appid.as_str());
        if chars_eq(&id, appid) {
            return (stats[i].downloads, stats[i].views);
        }
        i += 1;
    }
    (None, None)
}

/// The app id of a game as an optional string: `appid`, else `id`.
pub open spec fn game_appid_opt(g: UnionCraxGame) -> Option<Seq<char>> {
    match g.appid {
        Some(a) => Some(a@),
        None => opt_view(g.id),
    }
}

/// `info` is how game `g` is shown, with the statistics `stats` and the site `base`.
pub open spec fn shows_game(info: GameInfo, g: UnionCraxGame, stats: Seq<GameStats>, base: Seq<char>) -> bool {
    &&& info.title@ == text_or(g.name, "Unknown"@) + " - Free Download on UnionCrax"@
    &&& info.url@ == base + "/game/"@ + game_appid(g)
    &&& opt_view(info.description) == opt_view(g.description)
    &&& info.source@ == text_or(g.source, "UnionCrax"@)
    &&& info.download_count == downloads_for(stats, game_appid(g))
    &&& info.view_count == views_for(stats, game_appid(g))
    &&& opt_view(info.size) == opt_view(g.size)
    &&& opt_view(info.appid) == game_appid_opt(g)
}

/// A string holding `s`, or `default` when `s` is `None`.
fn text_or_default(s: &Option<String>, default: &str) -> (res: String)
    ensures
        res@ == text_or(*s, default@),
{
    match s {
        Some(t) => t.clone(),
        None => owned(default),
    }
}

/// How game `g` is shown: its title, page and statistics.
pub fn game_info(g: &UnionCraxGame, stats: &Vec<GameStats>, base: &str) -> (res: GameInfo)
    ensures
        shows_game(res, *g, stats@, base@),
{
    let mut title = text_or_default(&g.name, "Unknown");
    title.append(" - Free Download on UnionCrax");
    let appid = appid_of(g);
    let appid_text = string_from_chars(&appid);
    let mut url = owned(base);
    url.append("/game/");
    url.append(appid_text.as_str());
    let (downloads, views) = find_stats(stats, &appid);
    let appid_opt = match &g.appid {
        Some(a) => Some(a.clone()),
        None => clone_opt(&g.id),
    };
    GameInfo {
        title,
        url,
        description: clone_opt(&g.description),
        source: text_or_default(&g.source, "UnionCrax"),
        download_count: downloads,
        view_count: views,
        size: clone_opt(&g.size),
        appid: appid_opt,
    }
}

/// The scores of all games for a query.
pub open spec fn game_scores(query: Seq<char>, games: Seq<UnionCraxGame>) -> Seq<i128> {
    let q = normalized(query);
    Seq::new(games.len(), |i: int| game_score(q, query_words_of(q), games[i]) as i128)
}

/// The games to show for a search query (the search logic of
/// `SearchService::search_union_crax_games`): every game is scored against the
/// normalised query, and the best-ranked ones reaching the threshold are shown,
/// at most three, best first.
pub fn rank_games(
    query: &str,
    games: &Vec<UnionCraxGame>,
    stats: &Vec<GameStats>,
    base: &str,
) -> (res: Vec<GameInfo>)
    ensures
        exists|picked: Seq<usize>|
            #![trigger is_top_selection(game_scores(query@, games@), picked)]
            is_top_selection(game_scores(query@, games@), picked) && res@.len() == picked.len()
                && forall|k: int|
                0 <= k < picked.len() ==> shows_game(
                    #[trigger] res@[k],
                    games@[picked[k] as int],
                    stats@,
                    base@,
                ),
{
    let q = normalize_string(query);
    let words = query_words(&q);
    let mut scores: Vec<i128> = Vec::new();
    let mut i: usize = 0;
    while i < games.len()
        invariant
            i <= games.len(),
            q@ == normalized(query@),
            seqs_of(words@) == query_words_of(q@),
            scores.len() == i,
            forall|j: int| 0 <= j < i ==> #[trigger] scores@[j] == game_scores(query@, games@)[j],
        decreases games.len() - i,
    {
        let s = score_game(&q, &words, &games[i]);
        scores.push(s);
        i += 1;
    }
    assert(scores@ =~= game_scores(query@, games@));
    let picked = select_top(&scores);
    let mut res: Vec<GameInfo> = Vec::new();
    let mut k: usize = 0;
    while k < picked.len()
        invariant
            k <= picked.len(),
            is_top_selection(scores@, picked@),
            scores.len() == games.len(),
            res.len() == k,
            forall|m: int|
                0 <= m < k ==> shows_game(
                    #[trigger] res@[m],
                    games@[picked@[m] as int],
                    stats@,
                    base@,
                ),
        decreases picked.len() - k,
    {
        assert(picked@[k as int] < scores.len());
        res.push(game_info(&games[picked[k]], stats, base));
        k += 1;
    }
    res
}

/// Two game descriptions show the same thing.
pub open spec fn same_info(a: GameInfo, b: GameInfo) -> bool {
    &&& a.title@ == b.title@
    &&& a.url@ == b.url@
    &&& opt_view(a.description) == opt_view(b.description)
    &&& a.source@ == b.source@
    &&& a.download_count == b.download_count
    &&& a.view_count == b.view_count
    &&& opt_view(a.size) == opt_view(b.size)
    &&& opt_view(a.appid) == opt_view(b.appid)
}

/// A copy of a game description.
pub fn copy_info(g: &GameInfo) -> (res: GameInfo)
    ensures
        same_info(res, *g),
{
    GameInfo {
        title: g.title.clone(),
        url: g.url.clone(),
        description: clone_opt(&g.description),
        source: g.source.clone(),
        download_count: g.download_count,
        view_count: g.view_count,
        size: clone_opt(&g.size),
        appid: clone_opt(&g.appid),
    }
}

/// The answer to a search for one game (`search_google_for_union_crax`):
/// the best-ranked game, or `NoResults` when there is none.
pub fn best_game(games: &Vec<GameInfo>) -> (res: Result<Option<GameInfo>, SearchError>)
    ensures
        games.len() == 0 <==> res matches Err(SearchError::NoResults),
        games.len() > 0 ==> (res matches Ok(Some(g)) && same_info(g, games@[0])),
{
    if games.len() == 0 {
        Err(SearchError::NoResults)
    } else {
        Ok(Some(copy_info(&games[0])))
    }
}

// ------------------------------------------------------------------
// URL encoding
// ------------------------------------------------------------------

/// Characters that stand for themselves in a URL.
pub open spec fn is_unreserved(c: char) -> bool {
    ||| 'A' <= c <= 'Z'
    ||| 'a' <= c <= 'z'
    ||| '0' <= c <= '9'
    ||| c == '-'
    ||| c == '_'
    ||| c == '.'
    ||| c == '~'
}

/// The uppercase hexadecimal digit for `d < 16`.
pub open spec fn hex_digit(d: int) -> char {
    if d < 10 {
        ((48 + d) as u32) as char
    } else {
        ((55 + d) as u32) as char
    }
}

/// Each byte written as `%` and two uppercase hexadecimal digits.
pub open spec fn percent_bytes(b: Seq<u8>) -> Seq<char>
    decreases b.len(),
{
    if b.len() == 0 {
        seq![]
    } else {
        percent_bytes(b.drop_last()) + seq![
            '%',
            hex_digit(b.last() as int / 16),
            hex_digit(b.last() as int % 16),
        ]
    }
}

/// How one character is written in a URL.
pub open spec fn encode_char(c: char) -> Seq<char> {
    if is_unreserved(c) {
        seq![c]
    } else if c == ' ' {
        seq!['%', '2', '0']
    } else {
        percent_bytes(vstd::utf8::encode_scalar(c as u32))
    }
}

/// A text written for use in a URL.
pub open spec fn url_encoded(s: Seq<char>) -> Seq<char>
    decreases s.len(),
{
    if s.len() == 0 {
        seq![]
    } else {
        url_encoded(s.drop_last()) + encode_char(s.last())
    }
}

fn hex(d: u8) -> (res: char)
    requires
        d < 16,
    ensures
        res == hex_digit(d as int),
{
    if d < 10 {
        (48 + d) as char
    } else {
        (55 + d) as char
    }
}

/// Percent-encodes a text: unreserved characters stay, a space becomes `%20`,
/// every other character becomes its UTF-8 bytes in `%XX` form.
pub fn encode(s: &str) -> (res: String)
    ensures
        res@ == url_encoded(s@),
{
    let chars = chars_of(s);
    let mut out: Vec<char> = Vec::new();
    let mut i: usize = 0;
    assert(chars@.take(0) =~= Seq::<char>::empty());
    while i < chars.len()
        invariant
            i <= chars.len(),
            out@ == url_encoded(chars@.take(i as int)),
        decreases chars.len() - i,
    {
        let c = chars[i];
        let ghost before = out@;
        if ('A' <= c && c <= 'Z') || ('a' <= c && c <= 'z') || ('0' <= c && c <= '9') || c == '-'
            || c == '_' || c == '.' || c == '~' {
            out.push(c);
            assert(out@ =~= before + seq![c]);
        } else if c == ' ' {
            out.push('%');
            out.push('2');
            out.push('0');
            assert(out@ =~= before + seq!['%', '2', '0']);
        } else {
            let bytes = utf8_bytes(c);
            let mut k: usize = 0;
            assert(bytes@.take(0) =~= Seq::<u8>::empty());
            assert(before + percent_bytes(bytes@.take(0)) =~= before);
            while k < bytes.len()
                invariant
                    k <= bytes.len(),
                    out@ == before + percent_bytes(bytes@.take(k as int)),
                decreases bytes.len() - k,
            {
                let b = bytes[k];
                out.push('%');
                out.push(hex(b / 16));
                out.push(hex(b % 16));
                assert(bytes@.take(k + 1).drop_last() =~= bytes@.take(k as int));
                assert(bytes@.take(k + 1).last() == b);
                assert(out@ =~= before + percent_bytes(bytes@.take(k + 1)));
                k += 1;
            }
            assert(bytes@.take(bytes.len() as int) =~= bytes@);
        }
        assert(chars@.take(i + 1).drop_last() =~= chars@.take(i as int));
        assert(chars@.take(i + 1).last() == c);
        i += 1;
    }
    assert(chars@.take(chars.len() as int) =~= chars@);
    string_from_chars(&out)
}

/// Characters that may appear in a percent-encoded text.
pub open spec fn url_safe(c: char) -> bool {
    is_unreserved(c) || c == '%'
}

proof fn lemma_percent_bytes_safe(b: Seq<u8>)
    ensures
        forall|i: int| 0 <= i < percent_bytes(b).len() ==> url_safe(#[trigger] percent_bytes(b)[i]),
    decreases b.len(),
{
    if b.len() > 0 {
        lemma_percent_bytes_safe(b.drop_last());
        let hi = b.last() as int / 16;
        let lo = b.last() as int % 16;
        assert(url_safe(hex_digit(hi)) && url_safe(hex_digit(lo)));
        let p = percent_bytes(b.drop_last());
        let e = seq!['%', hex_digit(hi), hex_digit(lo)];
        assert forall|i: int| 0 <= i < percent_bytes(b).len() implies url_safe(
            #[trigger] percent_bytes(b)[i],
        ) by {
            if i < p.len() {
                assert(percent_bytes(b)[i] == p[i]);
            } else {
                assert(percent_bytes(b)[i] == e[i - p.len()]);
            }
        }
    }
}

/// A percent-encoded text holds only unreserved characters and `%`.
pub proof fn law_url_encoded_is_url_safe(s: Seq<char>)
    ensures
        forall|i: int| 0 <= i < url_encoded(s).len() ==> url_safe(#[trigger] url_encoded(s)[i]),
    decreases s.len(),
{
    if s.len() > 0 {
        law_url_encoded_is_url_safe(s.drop_last());
        let c = s.last();
        let p = url_encoded(s.drop_last());
        let e = encode_char(c);
        assert forall|i: int| 0 <= i < e.len() implies url_safe(#[trigger] e[i]) by {
            if !is_unreserved(c) && c != ' ' {
                lemma_percent_bytes_safe(vstd::utf8::encode_scalar(c as u32));
            }
        }
        assert forall|i: int| 0 <= i < url_encoded(s).len() implies url_safe(
            #[trigger] url_encoded(s)[i],
        ) by {
            if i < p.len() {
                assert(url_encoded(s)[i] == p[i]);
            } else {
                assert(url_encoded(s)[i] == e[i - p.len()]);
            }
        }
    }
}

/// A text made only of unreserved characters is its own encoding.
pub proof fn law_url_encoded_keeps_unreserved(s: Seq<char>)
    requires
        forall|i: int| 0 <= i < s.len() ==> is_unreserved(#[trigger] s[i]),
    ensures
        url_encoded(s) == s,
    decreases s.len(),
{
    if s.len() > 0 {
        law_url_encoded_keeps_unreserved(s.drop_last());
        assert(s.drop_last().push(s.last()) =~= s);
        assert(is_unreserved(s[s.len() - 1]));
    }
}

/// An uppercase hexadecimal digit.
pub open spec fn is_hex_digit(c: char) -> bool {
    ('0' <= c <= '9') || ('A' <= c <= 'F')
}

/// The value of an uppercase hexadecimal digit.
pub open spec fn hex_value(c: char) -> int {
    if '0' <= c <= '9' {
        c as int - 48
    } else {
        c as int - 55
    }
}

/// Percent-decoding: `%` followed by two uppercase hexadecimal digits is the
/// byte they write; every other character stands for its own code as a byte.
pub open spec fn percent_decoded(s: Seq<char>) -> Seq<u8>
    decreases s.len(),
{
    if s.len() == 0 {
        seq![]
    } else if s.len() >= 3 && s[0] == '%' && is_hex_digit(s[1]) && is_hex_digit(s[2]) {
        seq![(hex_value(s[1]) * 16 + hex_value(s[2])) as u8] + percent_decoded(
            s.subrange(3, s.len() as int),
        )
    } else {
        seq![(s[0] as u32) as u8] + percent_decoded(s.drop_first())
    }
}

proof fn lemma_hex_digit_value(d: int)
    requires
        0 <= d < 16,
    ensures
        is_hex_digit(hex_digit(d)),
        hex_value(hex_digit(d)) == d,
{
    if d < 10 {
        assert((((48 + d) as u32) as char) as int == 48 + d);
    } else {
        assert((((55 + d) as u32) as char) as int == 55 + d);
    }
}

proof fn lemma_percent_bytes_front(b: Seq<u8>)
    requires
        b.len() > 0,
    ensures
        percent_bytes(b) == seq!['%', hex_digit(b[0] as int / 16), hex_digit(b[0] as int % 16)]
            + percent_bytes(b.drop_first()),
    decreases b.len(),
{
    let h = seq!['%', hex_digit(b[0] as int / 16), hex_digit(b[0] as int % 16)];
    if b.len() == 1 {
        assert(percent_bytes(b.drop_last()) =~= Seq::<char>::empty());
        assert(percent_bytes(b.drop_first()) =~= Seq::<char>::empty());
        assert(b.last() == b[0]);
        assert(percent_bytes(b) =~= h + percent_bytes(b.drop_first()));
    } else {
        lemma_percent_bytes_front(b.drop_last());
        assert(b.drop_last().drop_first() =~= b.drop_first().drop_last());
        assert(b.drop_first().last() == b.last());
        assert(b.drop_last()[0] == b[0]);
        assert(percent_bytes(b) =~= h + percent_bytes(b.drop_first()));
    }
}

proof fn lemma_decode_percent_bytes(b: Seq<u8>, rest: Seq<char>)
    ensures
        percent_decoded(percent_bytes(b) + rest) == b + percent_decoded(rest),
    decreases b.len(),
{
    if b.len() == 0 {
        assert(percent_bytes(b) + rest =~= rest);
        assert(b + percent_decoded(rest) =~= percent_decoded(rest));
    } else {
        lemma_percent_bytes_front(b);
        let x = b[0] as int;
        let h = seq!['%', hex_digit(x / 16), hex_digit(x % 16)];
        let t = percent_bytes(b.drop_first()) + rest;
        let s = h + t;
        assert(percent_bytes(b) + rest =~= s);
        lemma_hex_digit_value(x / 16);
        lemma_hex_digit_value(x % 16);
        assert(s[0] == '%' && s[1] == hex_digit(x / 16) && s[2] == hex_digit(x % 16));
        assert(s.subrange(3, s.len() as int) =~= t);
        assert((x / 16 * 16 + x % 16) as u8 == b[0]);
        lemma_decode_percent_bytes(b.drop_first(), rest);
        assert(seq![b[0]] + (b.drop_first() + percent_decoded(rest)) =~= b + percent_decoded(rest));
    }
}

proof fn lemma_decode_encoded_char(c: char, rest: Seq<char>)
    ensures
        percent_decoded(encode_char(c) + rest) == vstd::utf8::encode_scalar(c as u32) + percent_decoded(
            rest,
        ),
{
    let v = c as u32;
    if is_unreserved(c) {
        let s = seq![c] + rest;
        assert(s[0] == c);
        assert(s.drop_first() =~= rest);
        assert(v < 128);
        assert((v & 0x7F) as u8 == v as u8) by (bit_vector)
            requires
                v < 128,
        ;
    } else if c == ' ' {
        let s = seq!['%', '2', '0'] + rest;
        assert(s[0] == '%' && s[1] == '2' && s[2] == '0');
        assert(s.subrange(3, s.len() as int) =~= rest);
        assert(v == 32);
        assert((v & 0x7F) as u8 == 32) by (bit_vector)
            requires
                v == 32,
        ;
    } else {
        lemma_decode_percent_bytes(vstd::utf8::encode_scalar(v), rest);
    }
}

proof fn lemma_url_encoded_front(s: Seq<char>)
    requires
        s.len() > 0,
    ensures
        url_encoded(s) == encode_char(s[0]) + url_encoded(s.drop_first()),
    decreases s.len(),
{
    if s.len() == 1 {
        assert(url_encoded(s.drop_last()) =~= Seq::<char>::empty());
        assert(url_encoded(s.drop_first()) =~= Seq::<char>::empty());
        assert(s.last() == s[0]);
        assert(url_encoded(s) =~= encode_char(s[0]) + url_encoded(s.drop_first()));
    } else {
        lemma_url_encoded_front(s.drop_last());
        assert(s.drop_last().drop_first() =~= s.drop_first().drop_last());
        assert(s.drop_first().last() == s.last());
        assert(s.drop_last()[0] == s[0]);
        assert(url_encoded(s) =~= encode_char(s[0]) + url_encoded(s.drop_first()));
    }
}

proof fn lemma_decoded_is_utf8(s: Seq<char>)
    ensures
        percent_decoded(url_encoded(s)) == vstd::utf8::encode_utf8(s),
    decreases s.len(),
{
    if s.len() > 0 {
        lemma_url_encoded_front(s);
        lemma_decode_encoded_char(s[0], url_encoded(s.drop_first()));
        lemma_decoded_is_utf8(s.drop_first());
    }
}

/// Percent-decoding an encoded text and reading the bytes as UTF-8 gives the
/// text back.
pub proof fn law_url_encoding_decodes_back(s: Seq<char>)
    ensures
        vstd::utf8::decode_utf8(percent_decoded(url_encoded(s))) == s,
{
    lemma_decoded_is_utf8(s);
    vstd::utf8::encode_utf8_decode_utf8(s);
}

/// Two texts with the same encoding are the same text.
pub proof fn law_url_encoding_is_injective(a: Seq<char>, b: Seq<char>)
    requires
        url_encoded(a) == url_encoded(b),
    ensures
        a == b,
{
    law_url_encoding_decodes_back(a);
    law_url_encoding_decodes_back(b);
}

/// The address of a web search for `query` with the given search engine prefix.
pub fn web_search_url(search_engine: &str, query: &str) -> (res: String)
    ensures
        res@ == search_engine@ + url_encoded(query@),
{
    let mut url = owned(search_engine);
    let q = encode(query);
    url.append(q.as_str());
    url
}

// ------------------------------------------------------------------
// Web search results
// ------------------------------------------------------------------

/// A line of a search page that marks a result.
pub open spec fn is_result_line(line: Seq<char>) -> bool {
    contains_seq(line, "class=\"g\""@) || contains_seq(line, "class='g'"@)
}

/// The number of result lines of a page, given that `cur` is the part of a
/// line already read. Lines end at `\n`; a `\r` before it never matters here,
/// as no marker holds one.
pub open spec fn result_lines_from(s: Seq<char>, cur: Seq<char>) -> nat
    decreases s.len(),
{
    if s.len() == 0 {
        if is_result_line(cur) {
            1
        } else {
            0
        }
    } else if s[0] == '\n' {
        (if is_result_line(cur) {
            1nat
        } else {
            0nat
        }) + result_lines_from(s.drop_first(), seq![])
    } else {
        result_lines_from(s.drop_first(), cur.push(s[0]))
    }
}

/// The number of lines of a search page that mark a result.
pub open spec fn result_line_count(html: Seq<char>) -> nat {
    result_lines_from(html, seq![])
}

/// Whether a line marks a search result.
fn result_line(line: &Vec<char>) -> (res: bool)
    ensures
        res == is_result_line(line@),
        res ==> line.len() > 0,
{
    proof {
        reveal_strlit("class=\"g\"");
        reveal_strlit("class='g'");
    }
    let double = chars_of("class=\"g\"");
    let single = chars_of("class='g'");
    contains(line, &double) || contains(line, &single)
}

/// Counts the lines of a search page that mark a result.
pub fn count_result_lines(html: &str) -> (res: usize)
    ensures
        res == result_line_count(html@),
{
    let chars = chars_of(html);
    let mut cur: Vec<char> = Vec::new();
    let mut count: usize = 0;
    let mut i: usize = 0;
    assert(chars@.skip(0) =~= chars@);
    while i < chars.len()
        invariant
            i <= chars.len(),
            count + result_lines_from(chars@.skip(i as int), cur@) == result_line_count(html@),
            chars@ == html@,
            count + cur.len() <= i,
        decreases chars.len() - i,
    {
        let ghost rest = chars@.skip(i as int);
        assert(rest.drop_first() =~= chars@.skip(i + 1));
        assert(rest[0] == chars@[i as int]);
        if chars[i] == '\n' {
            if result_line(&cur) {
                count += 1;
            }
            cur = Vec::new();
            assert(cur@ =~= Seq::<char>::empty());
        } else {
            cur.push(chars[i]);
        }
        i += 1;
    }
    if result_line(&cur) {
        count += 1;
    }
    count
}

/// The results of a web search for `query` whose page is `html` and address
/// `search_url` (the decisions of `perform_web_search`): one result per result
/// line of the page, or one pointing to the search itself when there is none.
pub fn web_results(html: &str, query: &str, search_url: &str) -> (res: Vec<WebSearchResult>)
    ensures
        result_line_count(html@) > 0 ==> res.len() == result_line_count(html@) && forall|k: int|
            0 <= k < res.len() ==> {
                &&& (#[trigger] res@[k]).title@ == "Search result"@
                &&& res@[k].url@ == search_url@
                &&& res@[k].description@ == "Results for "@ + query@
                &&& res@[k].source@ == "Web Search"@
            },
        result_line_count(html@) == 0 ==> res.len() == 1 && {
            &&& res@[0].title@ == "Search results for \""@ + query@ + "\""@
            &&& res@[0].url@ == search_url@
            &&& res@[0].description@ == "Find information about "@ + query@ + " on the web"@
            &&& res@[0].source@ == "Web Search"@
        },
{
    let n = count_result_lines(html);
    let mut results: Vec<WebSearchResult> = Vec::new();
    let mut k: usize = 0;
    while k < n
        invariant
            k <= n,
            n == result_line_count(html@),
            results.len() == k,
            forall|m: int|
                0 <= m < k ==> {
                    &&& (#[trigger] results@[m]).title@ == "Search result"@
                    &&& results@[m].url@ == search_url@
                    &&& results@[m].description@ == "Results for "@ + query@
                    &&& results@[m].source@ == "Web Search"@
                },
        decreases n - k,
    {
        let mut description = owned("Results for ");
        description.append(query);
        results.push(
            WebSearchResult {
                title: owned("Search result"),
                url: owned(search_url),
                description,
                source: owned("Web Search"),
            },
        );
        k += 1;
    }
    if n == 0 {
        let mut title = owned("Search results for \"");
        title.append(query);
        title.append("\"");
        let mut description = owned("Find information about ");
        description.append(query);
        description.append(" on the web");
        results.push(
            WebSearchResult {
                title,
                url: owned(search_url),
                description,
                source: owned("Web Search"),
            },
        );
    }
    results
}

} // verus!
