//! Decisions of the note search: result limits, which files are indexed,
//! and the snippet shown for a hit.

use vstd::prelude::*;
use crate::text::{
    chars_of, concatenate, contains_chars, join_space, join_words, lowercase, seq_contains,
    split_whitespace, split_ws_seq, str_eq, to_lowercase, views,
};

verus! {

/// Options of a search.
#[derive(Debug)]
pub struct SearchOptions {
    /// The most hits wanted; 0 asks for the default.
    pub limit: usize,
}

/// A note as it is indexed.
#[derive(Debug)]
pub struct Note {
    pub title: String,
    pub content: String,
    pub path: String,
    pub timestamp: i64,
}

/// The number of hits a search collects: the asked limit, 50 when none is
/// asked.
pub fn effective_limit(options: &SearchOptions) -> (r: usize)
    ensures
        r == if options.limit > 0 {
            options.limit
        } else {
            50
        },
{
    if options.limit > 0 {
        options.limit
    } else {
        50
    }
}

/// Whether a file with extension `ext` is indexed: every file when no
/// extensions are given, otherwise those whose extension is listed.
pub fn extension_selected(extensions: &Vec<String>, ext: &str) -> (r: bool)
    ensures
        r == (extensions@.len() == 0 || exists|i: int|
            0 <= i < extensions@.len() && (#[trigger] extensions@[i])@ == ext@),
{
    if extensions.len() == 0 {
        return true;
    }
    let mut i: usize = 0;
    while i < extensions.len()
        invariant
            i <= extensions.len(),
            forall|j: int| 0 <= j < i ==> (#[trigger] extensions@[j])@ != ext@,
        decreases extensions.len() - i,
    {
        if str_eq(extensions[i].as_str(), ext) {
            return true;
        }
        i += 1;
    }
    false
}

/// Whether the text of a file with extension `ext` can be read: `txt` and
/// `md` files.
pub fn is_text_extension(ext: &str) -> (r: bool)
    ensures
        r == (ext@ == "txt"@ || ext@ == "md"@),
{
    str_eq(ext, "txt") || str_eq(ext, "md")
}

/// Whether updating a note must first remove the entry at its old path.
pub fn must_remove_old(old_path: &str, new_path: &str) -> (r: bool)
    ensures
        r == (old_path@ != new_path@),
{
    !str_eq(old_path, new_path)
}

/// The lower-cased query words.
pub open spec fn lowered(ws: Seq<Seq<char>>) -> Seq<Seq<char>> {
    ws.map_values(|w: Seq<char>| lowercase(w))
}

/// How many lower-cased query words the lower-cased word contains.
pub open spec fn word_score(word: Seq<char>, qlows: Seq<Seq<char>>) -> nat
    decreases qlows.len(),
{
    if qlows.len() == 0 {
        0
    } else {
        word_score(word, qlows.drop_last()) + if seq_contains(lowercase(word), qlows.last()) {
            1nat
        } else {
            0nat
        }
    }
}

/// The first position of the highest score among the first `n` words, and
/// that score; position 0 while no word scores.
pub open spec fn best(words: Seq<Seq<char>>, qlows: Seq<Seq<char>>, n: int) -> (int, nat)
    decreases n,
{
    if n <= 0 {
        (0, 0)
    } else {
        let (p, s) = best(words, qlows, n - 1);
        let sc = word_score(words[n - 1], qlows);
        if sc > s {
            (n - 1, sc)
        } else {
            (p, s)
        }
    }
}

/// The snippet of a hit: the words from 30 before the best-scoring word to
/// 30 after it, joined by spaces, with `...` in front when words were cut
/// at the start; nothing for empty content.
pub open spec fn snippet(content: Seq<char>, query: Seq<char>) -> Seq<char> {
    if content.len() == 0 {
        seq![]
    } else {
        let ws = split_ws_seq(content);
        let p = best(ws, lowered(split_ws_seq(query)), ws.len() as int).0;
        let start = if p >= 30 {
            p - 30
        } else {
            0
        };
        let end = if p + 30 < ws.len() {
            p + 30
        } else {
            ws.len() as int
        };
        let body = join_space(ws.subrange(start, end));
        if start > 0 {
            "..."@ + body
        } else {
            body
        }
    }
}

proof fn lemma_best_bounds(words: Seq<Seq<char>>, qlows: Seq<Seq<char>>, n: int)
    ensures
        0 <= best(words, qlows, n).0,
        n > 0 ==> best(words, qlows, n).0 < n,
        n <= 0 ==> best(words, qlows, n).0 == 0,
    decreases n,
{
    if n > 0 {
        lemma_best_bounds(words, qlows, n - 1);
    }
}

fn score_word(word: &str, qlows: &Vec<Vec<char>>) -> (r: usize)
    ensures
        r == word_score(word@, qlows@.map_values(|q: Vec<char>| q@)),
{
    let lw = chars_of(to_lowercase(word).as_str());
    let ghost ql = qlows@.map_values(|q: Vec<char>| q@);
    let mut count: usize = 0;
    let mut k: usize = 0;
    assert(ql.take(0) =~= Seq::<Seq<char>>::empty());
    while k < qlows.len()
        invariant
            k <= qlows.len(),
            ql == qlows@.map_values(|q: Vec<char>| q@),
            lw@ == lowercase(word@),
            count <= k,
            count == word_score(word@, ql.take(k as int)),
        decreases qlows.len() - k,
    {
        assert(ql.take(k + 1).drop_last() =~= ql.take(k as int));
        assert(ql.take(k + 1).last() == qlows@[k as int]@);
        if contains_chars(&lw, &qlows[k]) {
            count = count + 1;
        }
        k += 1;
    }
    assert(ql.take(k as int) =~= ql);
    count
}

/// The snippet shown for a hit with text `content` on `query`.
pub fn make_snippet(content: &str, query: &str) -> (r: String)
    ensures
        r@ == snippet(content@, query@),
{
    if content.is_empty() {
        return String::new();
    }
    let words = split_whitespace(content);
    let qwords = split_whitespace(query);
    let mut qlows: Vec<Vec<char>> = Vec::new();
    let mut k: usize = 0;
    while k < qwords.len()
        invariant
            k <= qwords.len(),
            qlows@.map_values(|q: Vec<char>| q@) == lowered(views(qwords@)).take(k as int),
        decreases qwords.len() - k,
    {
        let lq = chars_of(to_lowercase(qwords[k].as_str()).as_str());
        let ghost before = qlows@;
        qlows.push(lq);
        assert(qlows@.map_values(|q: Vec<char>| q@) =~= before.map_values(|q: Vec<char>| q@).push(
            lq@,
        ));
        assert(lowered(views(qwords@)).take(k + 1) =~= lowered(views(qwords@)).take(k as int).push(
            lowercase(qwords@[k as int]@),
        ));
        k += 1;
    }
    assert(lowered(views(qwords@)).take(k as int) =~= lowered(views(qwords@)));
    let ghost ql = lowered(split_ws_seq(query@));
    let ghost ws = split_ws_seq(content@);
    let mut best_pos: usize = 0;
    let mut best_score: usize = 0;
    let mut i: usize = 0;
    while i < words.len()
        invariant
            i <= words.len(),
            views(words@) == ws,
            qlows@.map_values(|q: Vec<char>| q@) == ql,
            (best_pos as int, best_score as nat) == best(ws, ql, i as int),
        decreases words.len() - i,
    {
        let score = score_word(words[i].as_str(), &qlows);
        assert(ws[i as int] == words@[i as int]@);
        if score > best_score {
            best_score = score;
            best_pos = i;
        }
        i += 1;
    }
    proof {
        lemma_best_bounds(ws, ql, ws.len() as int);
    }
    let start: usize = if best_pos >= 30 { best_pos - 30 } else { 0 };
    let end: usize = if words.len() - best_pos > 30 { best_pos + 30 } else { words.len() };
    let body = join_words(&words, start, end);
    if start > 0 {
        proof {
            reveal_strlit("...");
        }
        concatenate("...", body.as_str())
    } else {
        body
    }
}

/// A snippet shows at most 60 words, and it starts with `...` exactly when
/// words before it were left out.
pub proof fn lemma_snippet_window(content: Seq<char>, query: Seq<char>)
    requires
        content.len() > 0,
    ensures
        ({
            let ws = split_ws_seq(content);
            let p = best(ws, lowered(split_ws_seq(query)), ws.len() as int).0;
            let start = if p >= 30 {
                p - 30
            } else {
                0
            };
            let end = if p + 30 < ws.len() {
                p + 30
            } else {
                ws.len() as int
            };
            &&& 0 <= start <= end <= ws.len()
            &&& end - start <= 60
            &&& start <= p
        }),
{
    let ws = split_ws_seq(content);
    lemma_best_bounds(ws, lowered(split_ws_seq(query)), ws.len() as int);
}

/// A word's score adds up over the query words: the score against two
/// lists of query words is the sum of the scores against each.
pub proof fn lemma_word_score_append(word: Seq<char>, a: Seq<Seq<char>>, b: Seq<Seq<char>>)
    ensures
        word_score(word, a + b) == word_score(word, a) + word_score(word, b),
    decreases b.len(),
{
    if b.len() == 0 {
        assert(a + b =~= a);
    } else {
        lemma_word_score_append(word, a, b.drop_last());
        assert((a + b).drop_last() =~= a + b.drop_last());
        assert((a + b).last() == b.last());
    }
}

/// Against one query word, a word scores 1 when that query word occurs as
/// a run of characters somewhere in the lower-cased word, and 0 otherwise.
pub proof fn lemma_word_score_single(word: Seq<char>, q: Seq<char>)
    ensures
        word_score(word, seq![q]) == if exists|i: int|
            0 <= i && i + q.len() <= lowercase(word).len() && #[trigger] lowercase(word).subrange(i, i + q.len())
                == q {
            1nat
        } else {
            0nat
        },
{
    assert(seq![q].drop_last() =~= Seq::<Seq<char>>::empty());
    assert(seq![q].last() == q);
    let lw = lowercase(word);
    assert(word_score(word, Seq::<Seq<char>>::empty()) == 0);
    if exists|i: int| 0 <= i && i + q.len() <= lw.len() && #[trigger] lw.subrange(i, i + q.len()) == q {
        let i = choose|i: int| 0 <= i && i + q.len() <= lw.len() && #[trigger] lw.subrange(i, i + q.len()) == q;
        assert(crate::text::occurs_at(lw, q, i));
    }
    if seq_contains(lw, q) {
        let i = choose|i: int| crate::text::occurs_at(lw, q, i);
        assert(lw.subrange(i, i + q.len()) == q);
    }
}

/// The word at the position `best` picks scores the most among the first
/// `n` words, and every word before it scores less: it is the first word
/// of highest score.
pub proof fn lemma_best_is_first_highest(words: Seq<Seq<char>>, qlows: Seq<Seq<char>>, n: int)
    requires
        0 < n <= words.len(),
    ensures
        best(words, qlows, n).1 == word_score(words[best(words, qlows, n).0], qlows),
        forall|i: int| 0 <= i < n ==> word_score(#[trigger] words[i], qlows) <= best(words, qlows, n).1,
        forall|i: int| 0 <= i < best(words, qlows, n).0 ==> word_score(#[trigger] words[i], qlows) < best(
            words,
            qlows,
            n,
        ).1,
    decreases n,
{
    lemma_best_bounds(words, qlows, n);
    if n == 1 {
        assert(best(words, qlows, 0) == (0int, 0nat));
    } else {
        lemma_best_is_first_highest(words, qlows, n - 1);
        lemma_best_bounds(words, qlows, n - 1);
    }
}

} // verus!
