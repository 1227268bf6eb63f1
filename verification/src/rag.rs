//! The financial-tips knowledge base and keyword retrieval over it.
//!
//! A tip is scored against the words of a query (both compared in lower
//! case): 10 points when its category contains a word, 5 when its text does,
//! 3 for each of its tags that does, and a bonus of 15 when its whole
//! category equals one of the words. Retrieval lists the best-scoring tips,
//! highest score first, ties in knowledge-base order.
use vstd::prelude::*;

use crate::ranking::ints;
use crate::ranking::is_top_ranking;
use crate::ranking::lemma_top_ranking_exists;
use crate::ranking::lemma_top_ranking_prefix;
use crate::ranking::lemma_top_ranking_unique;
use crate::ranking::lemma_equal_scores_keep_order;
use crate::ranking::min_nat;
use crate::ranking::ranks_ahead;
use crate::ranking::top_ranking;
use crate::ranking::top_ranking_positions;
use crate::text::char_vecs_view;
use crate::text::chars_equal;
use crate::text::chars_of;
use crate::text::contains_chars;
use crate::text::contains_seq;
use crate::text::lowercase_of;
use crate::text::split_whitespace;
use crate::text::split_whitespace_chars;
use crate::text::to_lowercase;
use crate::text::ascii_lowercase;
use crate::text::ascii_uppercase;
use crate::text::lemma_ascii_case_folds;
use crate::text::lemma_ascii_lowercase_words_multiset;
use crate::text::lemma_split_whitespace_ascii_lowercase;
use vstd::utf8::is_ascii_chars;

verus! {

/// A financial tip of the knowledge base.
#[derive(Debug, Clone)]
pub struct FinancialTip {
    pub id: u32,
    pub category: String,
    pub tip: String,
    pub tags: Vec<String>,
}

/// The knowledge base as it is stored: a list of tips.
#[derive(Debug, Clone)]
pub struct TipsDatabase {
    pub tips: Vec<FinancialTip>,
}

/// Retrieves the tips most relevant to a query.
pub struct RagRetriever {
    tips: Vec<FinancialTip>,
}

impl View for RagRetriever {
    type V = Seq<FinancialTip>;

    /// The tips, in knowledge-base order.
    closed spec fn view(&self) -> Seq<FinancialTip> {
        self.tips@
    }
}

// ---------------------------------------------------------------------------
// Relevance
// ---------------------------------------------------------------------------

/// The words of a query: its lower-case form split at whitespace.
pub open spec fn query_words(query: Seq<char>) -> Seq<Seq<char>> {
    split_whitespace(lowercase_of(query))
}

/// How many of `tags` contain `w`.
pub open spec fn tag_hits(tags: Seq<Seq<char>>, w: Seq<char>) -> nat
    decreases tags.len(),
{
    if tags.len() == 0 {
        0
    } else {
        tag_hits(tags.drop_last(), w) + if contains_seq(tags.last(), w) {
            1nat
        } else {
            0nat
        }
    }
}

/// Points one query word earns a tip with the given (lower-case) category,
/// text and tags.
pub open spec fn word_points(
    category: Seq<char>,
    text: Seq<char>,
    tags: Seq<Seq<char>>,
    w: Seq<char>,
) -> nat {
    (if contains_seq(category, w) {
        10nat
    } else {
        0nat
    }) + (if contains_seq(text, w) {
        5nat
    } else {
        0nat
    }) + 3 * tag_hits(tags, w)
}

/// Points all query words earn together.
pub open spec fn words_points(
    category: Seq<char>,
    text: Seq<char>,
    tags: Seq<Seq<char>>,
    words: Seq<Seq<char>>,
) -> nat
    decreases words.len(),
{
    if words.len() == 0 {
        0
    } else {
        words_points(category, text, tags, words.drop_last()) + word_points(
            category,
            text,
            tags,
            words.last(),
        )
    }
}

/// The relevance of a tip with the given lower-case category, text and tags:
/// the points of the words, plus 15 when a word equals the category.
pub open spec fn lowered_relevance(
    category: Seq<char>,
    text: Seq<char>,
    tags: Seq<Seq<char>>,
    words: Seq<Seq<char>>,
) -> nat {
    words_points(category, text, tags, words) + if words.contains(category) {
        15nat
    } else {
        0nat
    }
}

/// The lower-case forms of a tip's tags.
pub open spec fn lowered_tags(tags: Seq<String>) -> Seq<Seq<char>> {
    tags.map_values(|t: String| lowercase_of(t@))
}

/// The relevance of `tip` to the (lower-case) query words `words`.
pub open spec fn relevance(tip: FinancialTip, words: Seq<Seq<char>>) -> nat {
    lowered_relevance(
        lowercase_of(tip.category@),
        lowercase_of(tip.tip@),
        lowered_tags(tip.tags@),
        words,
    )
}

/// The relevance of every tip, in knowledge-base order.
pub open spec fn relevances(tips: Seq<FinancialTip>, words: Seq<Seq<char>>) -> Seq<int> {
    tips.map_values(|t: FinancialTip| relevance(t, words) as int)
}

/// Every tip's relevance to `words` can be counted in a machine word.
pub open spec fn scores_fit(tips: Seq<FinancialTip>, words: Seq<Seq<char>>) -> bool {
    forall|i: int| 0 <= i < tips.len() ==> #[trigger] relevance(tips[i], words) <= usize::MAX
}

/// What retrieval returns: the tips at the positions of the top-`k`
/// ranking by relevance.
pub open spec fn retrieval(tips: Seq<FinancialTip>, words: Seq<Seq<char>>, k: nat) -> Seq<
    FinancialTip,
> {
    top_ranking(relevances(tips, words), k).map_values(|i: int| tips[i])
}

proof fn lemma_tag_hits_prefix(tags: Seq<Seq<char>>, w: Seq<char>, j: int)
    requires
        0 <= j <= tags.len(),
    ensures
        tag_hits(tags.take(j), w) <= tag_hits(tags, w),
    decreases tags.len(),
{
    if j < tags.len() {
        lemma_tag_hits_prefix(tags.drop_last(), w, j);
        assert(tags.drop_last().take(j) =~= tags.take(j));
    } else {
        assert(tags.take(j) =~= tags);
    }
}

proof fn lemma_words_points_prefix(
    category: Seq<char>,
    text: Seq<char>,
    tags: Seq<Seq<char>>,
    words: Seq<Seq<char>>,
    j: int,
)
    requires
        0 <= j <= words.len(),
    ensures
        words_points(category, text, tags, words.take(j)) <= words_points(
            category,
            text,
            tags,
            words,
        ),
    decreases words.len(),
{
    if j < words.len() {
        lemma_words_points_prefix(category, text, tags, words.drop_last(), j);
        assert(words.drop_last().take(j) =~= words.take(j));
    } else {
        assert(words.take(j) =~= words);
    }
}

/// Law: a word added to a query never lowers a tip's relevance.
pub proof fn lemma_relevance_grows_with_words(
    category: Seq<char>,
    text: Seq<char>,
    tags: Seq<Seq<char>>,
    words: Seq<Seq<char>>,
    w: Seq<char>,
)
    ensures
        lowered_relevance(category, text, tags, words) <= lowered_relevance(
            category,
            text,
            tags,
            words.push(w),
        ),
{
    assert(words.push(w).drop_last() =~= words);
    if words.contains(category) {
        let i = choose|i: int| 0 <= i < words.len() && words[i] == category;
        assert(words.push(w)[i] == category);
    }
}

/// Law: a query without words gives every tip relevance 0.
pub proof fn lemma_no_words_no_relevance(tip: FinancialTip)
    ensures
        relevance(tip, Seq::empty()) == 0,
{
}

proof fn lemma_tag_hits_count(tags: Seq<String>, w: Seq<char>)
    ensures
        tag_hits(lowered_tags(tags), w) == tags.filter(
            |t: String| contains_seq(lowercase_of(t@), w),
        ).len(),
    decreases tags.len(),
{
    reveal(Seq::filter);
    if tags.len() > 0 {
        lemma_tag_hits_count(tags.drop_last(), w);
        assert(lowered_tags(tags).drop_last() =~= lowered_tags(tags.drop_last()));
    }
}

/// Law: a further query word `w` adds to a tip's relevance 10 when the
/// tip's lower-case category contains it, 5 when its lower-case text does
/// (whether or not the category does), 3 for each of its tags whose lower
/// case contains it, and 15 when it is the first word equal to the
/// lower-case category.
pub proof fn lemma_relevance_of_added_word(tip: FinancialTip, words: Seq<Seq<char>>, w: Seq<char>)
    ensures
        relevance(tip, words.push(w)) == relevance(tip, words) + (if contains_seq(
            lowercase_of(tip.category@),
            w,
        ) {
            10int
        } else {
            0int
        }) + (if contains_seq(lowercase_of(tip.tip@), w) {
            5int
        } else {
            0int
        }) + 3 * tip.tags@.filter(|t: String| contains_seq(lowercase_of(t@), w)).len() + (
        if lowercase_of(tip.category@) == w && !words.contains(lowercase_of(tip.category@)) {
            15int
        } else {
            0int
        }),
{
    let c = lowercase_of(tip.category@);
    let all = words.push(w);
    lemma_tag_hits_count(tip.tags@, w);
    assert(all.drop_last() =~= words);
    if words.contains(c) {
        let i = choose|i: int| 0 <= i < words.len() && words[i] == c;
        assert(all[i] == c);
    }
    if c == w {
        assert(all[words.len() as int] == c);
    }
    if all.contains(c) && !words.contains(c) {
        let i = choose|i: int| 0 <= i < all.len() && all[i] == c;
        if i < words.len() {
            assert(words[i] == c);
        }
    }
}

/// Law: the relevance of a tip to the single word `w`: 10 when its
/// lower-case category contains `w`, 5 when its lower-case text does, 3 for
/// each of its tags whose lower case contains `w`, and 15 more when `w` is
/// its whole lower-case category.
pub proof fn lemma_relevance_of_one_word(tip: FinancialTip, w: Seq<char>)
    ensures
        relevance(tip, seq![w]) == (if contains_seq(lowercase_of(tip.category@), w) {
            10int
        } else {
            0int
        }) + (if contains_seq(lowercase_of(tip.tip@), w) {
            5int
        } else {
            0int
        }) + 3 * tip.tags@.filter(|t: String| contains_seq(lowercase_of(t@), w)).len() + (
        if lowercase_of(tip.category@) == w {
            15int
        } else {
            0int
        }),
{
    let none = Seq::<Seq<char>>::empty();
    assert(none.push(w) =~= seq![w]);
    lemma_relevance_of_added_word(tip, none, w);
}

/// Law: a word that both the lower-case category and the lower-case text of
/// a tip contain earns it at least 15 points.
pub proof fn lemma_category_and_text_both_count(tip: FinancialTip, w: Seq<char>)
    requires
        contains_seq(lowercase_of(tip.category@), w),
        contains_seq(lowercase_of(tip.tip@), w),
    ensures
        relevance(tip, seq![w]) >= 15,
{
    lemma_relevance_of_one_word(tip, w);
}

/// Law: a tip with one more tag `g`, and otherwise the same category and
/// text, is 3 points more relevant for each query word that the lower case
/// of `g` contains.
pub proof fn lemma_relevance_of_added_tag(
    tip: FinancialTip,
    more: FinancialTip,
    g: String,
    words: Seq<Seq<char>>,
)
    requires
        more.category@ == tip.category@,
        more.tip@ == tip.tip@,
        more.tags@ == tip.tags@.push(g),
    ensures
        relevance(more, words) == relevance(tip, words) + 3 * words.filter(
            |w: Seq<char>| contains_seq(lowercase_of(g@), w),
        ).len(),
    decreases words.len(),
{
    reveal(Seq::filter);
    if words.len() > 0 {
        let rest = words.drop_last();
        let w = words.last();
        assert(rest.push(w) =~= words);
        lemma_relevance_of_added_tag(tip, more, g, rest);
        lemma_relevance_of_added_word(tip, rest, w);
        lemma_relevance_of_added_word(more, rest, w);
        assert(more.tags@.drop_last() =~= tip.tags@);
    }
}

// ---------------------------------------------------------------------------
// Scoring
// ---------------------------------------------------------------------------

/// The relevance of a tip with lower-case category, text and tags to the
/// lower-case query words, or `None` when it cannot be counted in a machine
/// word.
fn score_lowered(
    category: &Vec<char>,
    text: &Vec<char>,
    tags: &Vec<Vec<char>>,
    words: &Vec<Vec<char>>,
) -> (s: Option<usize>)
    ensures
        s is Some <==> lowered_relevance(
            category@,
            text@,
            char_vecs_view(tags@),
            char_vecs_view(words@),
        ) <= usize::MAX,
        s matches Some(v) ==> v == lowered_relevance(
            category@,
            text@,
            char_vecs_view(tags@),
            char_vecs_view(words@),
        ),
{
    let ghost tv = char_vecs_view(tags@);
    let ghost wv = char_vecs_view(words@);
    let ghost total = lowered_relevance(category@, text@, tv, wv);
    let mut score: usize = 0;
    for i in 0..words.len()
        invariant
            tv == char_vecs_view(tags@),
            wv == char_vecs_view(words@),
            total == lowered_relevance(category@, text@, tv, wv),
            score == words_points(category@, text@, tv, wv.take(i as int)),
    {
        let w = &words[i];
        let ghost before = score as nat;
        proof {
            assert(wv.take(i + 1).drop_last() =~= wv.take(i as int));
            assert(wv.take(i + 1).last() == w@);
            lemma_words_points_prefix(category@, text@, tv, wv, i + 1);
            lemma_tag_hits_prefix(tv, w@, tv.len() as int);
            assert(tv.take(tv.len() as int) =~= tv);
            assert(before + word_points(category@, text@, tv, w@) <= total);
        }
        let in_category = contains_chars(category, w);
        if in_category {
            match score.checked_add(10) {
                Some(v) => {
                    score = v;
                },
                None => {
                    return None;
                },
            }
        }
        let in_text = contains_chars(text, w);
        if in_text {
            match score.checked_add(5) {
                Some(v) => {
                    score = v;
                },
                None => {
                    return None;
                },
            }
        }
        let ghost base = score as nat;
        assert(base == before + (if in_category {
            10nat
        } else {
            0nat
        }) + (if in_text {
            5nat
        } else {
            0nat
        }));
        for j in 0..tags.len()
            invariant
                tv == char_vecs_view(tags@),
                wv == char_vecs_view(words@),
                w@ == wv[i as int],
                total == lowered_relevance(category@, text@, tv, wv),
                base + 3 * tag_hits(tv, w@) == before + word_points(category@, text@, tv, w@),
                before + word_points(category@, text@, tv, w@) <= total,
                score == base + 3 * tag_hits(tv.take(j as int), w@),
        {
            proof {
                assert(tv.take(j + 1).drop_last() =~= tv.take(j as int));
                assert(tv.take(j + 1).last() == tags@[j as int]@);
                lemma_tag_hits_prefix(tv, w@, j + 1);
            }
            if contains_chars(&tags[j], w) {
                match score.checked_add(3) {
                    Some(v) => {
                        score = v;
                    },
                    None => {
                        return None;
                    },
                }
            }
        }
        proof {
            assert(tv.take(tags@.len() as int) =~= tv);
        }
    }
    proof {
        assert(wv.take(words@.len() as int) =~= wv);
    }
    let mut exact = false;
    for i in 0..words.len()
        invariant
            wv == char_vecs_view(words@),
            exact == wv.take(i as int).contains(category@),
    {
        let ghost t0 = wv.take(i as int);
        let ghost t1 = wv.take(i + 1);
        proof {
            assert(t1 =~= t0.push(words@[i as int]@));
        }
        if chars_equal(&words[i], category) {
            exact = true;
        }
        proof {
            if t0.contains(category@) {
                let q = choose|q: int| 0 <= q < t0.len() && t0[q] == category@;
                assert(t1[q] == category@);
            }
            if t1.contains(category@) && !t0.contains(category@) {
                let q = choose|q: int| 0 <= q < t1.len() && t1[q] == category@;
                if q < i {
                    assert(t0[q] == category@);
                }
            }
            if words@[i as int]@ == category@ {
                assert(t1[i as int] == category@);
            }
        }
    }
    proof {
        assert(wv.take(words@.len() as int) =~= wv);
    }
    if exact {
        match score.checked_add(15) {
            Some(v) => {
                score = v;
            },
            None => {
                return None;
            },
        }
    }
    Some(score)
}

/// The lower-case forms of the given strings, as characters.
fn lowered_chars(strings: &Vec<String>) -> (r: Vec<Vec<char>>)
    ensures
        char_vecs_view(r@) == lowered_tags(strings@),
{
    let mut r: Vec<Vec<char>> = Vec::new();
    for j in 0..strings.len()
        invariant
            char_vecs_view(r@) == lowered_tags(strings@).take(j as int),
    {
        let lower = to_lowercase(strings[j].as_str());
        let chars = chars_of(lower.as_str());
        let ghost old_r = r@;
        r.push(chars);
        proof {
            assert(char_vecs_view(r@) =~= char_vecs_view(old_r).push(chars@));
            assert(lowered_tags(strings@).take(j + 1) =~= lowered_tags(strings@).take(
                j as int,
            ).push(lowercase_of(strings@[j as int]@)));
        }
    }
    proof {
        assert(lowered_tags(strings@).take(strings@.len() as int) =~= lowered_tags(strings@));
    }
    r
}

/// The relevance of `tip` to lower-case query words given as characters, or
/// `None` when it cannot be counted in a machine word.
fn score_tip(tip: &FinancialTip, words: &Vec<Vec<char>>) -> (s: Option<usize>)
    ensures
        s is Some <==> relevance(*tip, char_vecs_view(words@)) <= usize::MAX,
        s matches Some(v) ==> v == relevance(*tip, char_vecs_view(words@)),
{
    let category = chars_of(to_lowercase(tip.category.as_str()).as_str());
    let text = chars_of(to_lowercase(tip.tip.as_str()).as_str());
    let tags = lowered_chars(&tip.tags);
    score_lowered(&category, &text, &tags, words)
}

/// The word list of a query: its lower-case form split at whitespace.
fn words_of_query(query: &str) -> (words: Vec<Vec<char>>)
    ensures
        char_vecs_view(words@) == query_words(query@),
        is_ascii_chars(query@) ==> char_vecs_view(words@) == split_whitespace(
            ascii_lowercase(query@),
        ),
{
    let lowered = to_lowercase(query);
    let chars = chars_of(lowered.as_str());
    split_whitespace_chars(&chars)
}

/// The tips ranked by relevance to lower-case words given as characters,
/// cut to `top_k`, or `None` when some tip's relevance cannot be counted in
/// a machine word.
fn retrieve_words<'a>(tips: &'a Vec<FinancialTip>, words: &Vec<Vec<char>>, top_k: usize) -> (r:
    Option<Vec<&'a FinancialTip>>)
    ensures
        r is Some <==> scores_fit(tips@, char_vecs_view(words@)),
        r matches Some(v) ==> {
            &&& v@.len() == min_nat(top_k as nat, tips@.len())
            &&& v@.len() == retrieval(tips@, char_vecs_view(words@), top_k as nat).len()
            &&& forall|p: int|
                0 <= p < v@.len() ==> *v@[p] == retrieval(
                    tips@,
                    char_vecs_view(words@),
                    top_k as nat,
                )[p]
        },
{
    let ghost wv = char_vecs_view(words@);
    let mut scores: Vec<usize> = Vec::new();
    for i in 0..tips.len()
        invariant
            wv == char_vecs_view(words@),
            ints(scores@) == relevances(tips@, wv).take(i as int),
            forall|t: int| 0 <= t < i ==> #[trigger] relevance(tips@[t], wv) <= usize::MAX,
    {
        let ghost old_scores = scores@;
        match score_tip(&tips[i], words) {
            Some(s) => {
                scores.push(s);
                proof {
                    assert(ints(scores@) =~= ints(old_scores).push(s as int));
                    assert(relevances(tips@, wv).take(i + 1) =~= relevances(tips@, wv).take(
                        i as int,
                    ).push(relevance(tips@[i as int], wv) as int));
                }
            },
            None => {
                return None;
            },
        }
    }
    proof {
        assert(relevances(tips@, wv).take(tips@.len() as int) =~= relevances(tips@, wv));
    }
    let order = top_ranking_positions(&scores, top_k);
    let ghost ranking = top_ranking(relevances(tips@, wv), top_k as nat);
    let ghost expected = retrieval(tips@, wv, top_k as nat);
    proof {
        assert(ints(order@) == ranking);
        assert forall|p: int| 0 <= p < order@.len() implies #[trigger] order@[p]
            < tips@.len() by {
            assert(ints(order@)[p] == order@[p] as int);
        }
    }
    let mut out: Vec<&FinancialTip> = Vec::new();
    for p in 0..order.len()
        invariant
            ints(order@) == ranking,
            expected == retrieval(tips@, wv, top_k as nat),
            ranking == top_ranking(relevances(tips@, wv), top_k as nat),
            forall|q: int| 0 <= q < order@.len() ==> #[trigger] order@[q] < tips@.len(),
            out@.len() == p,
            forall|q: int| 0 <= q < p ==> *out@[q] == expected[q],
    {
        let i = order[p];
        out.push(&tips[i]);
        proof {
            assert(ints(order@)[p as int] == i as int);
        }
    }
    proof {
        lemma_top_ranking_exists(relevances(tips@, wv), top_k as nat);
    }
    Some(out)
}

impl RagRetriever {
    /// A retriever over the given tips, in that order.
    pub fn new(tips: Vec<FinancialTip>) -> (r: Self)
        ensures
            r@ == tips@,
    {
        RagRetriever { tips }
    }

    /// A retriever over the tips of a knowledge base.
    pub fn from_database(db: TipsDatabase) -> (r: Self)
        ensures
            r@ == db.tips@,
    {
        RagRetriever { tips: db.tips }
    }

    /// The relevance of `tip` to the given query words (compared as given;
    /// the tip's category, text and tags are lower-cased first).
    pub fn calculate_relevance(&self, tip: &FinancialTip, query_words: &[&str]) -> (score: usize)
        requires
            relevance(*tip, query_words@.map_values(|w: &str| w@)) <= usize::MAX,
        ensures
            score == relevance(*tip, query_words@.map_values(|w: &str| w@)),
    {
        let mut words: Vec<Vec<char>> = Vec::new();
        for i in 0..query_words.len()
            invariant
                char_vecs_view(words@) == query_words@.map_values(|w: &str| w@).take(i as int),
        {
            let chars = chars_of(query_words[i]);
            let ghost old_words = words@;
            words.push(chars);
            proof {
                assert(char_vecs_view(words@) =~= char_vecs_view(old_words).push(chars@));
                assert(query_words@.map_values(|w: &str| w@).take(i + 1) =~= query_words@.map_values(
                    |w: &str| w@,
                ).take(i as int).push(query_words@[i as int]@));
            }
        }
        proof {
            assert(query_words@.map_values(|w: &str| w@).take(query_words@.len() as int)
                =~= query_words@.map_values(|w: &str| w@));
        }
        match score_tip(tip, &words) {
            Some(score) => score,
            None => {
                proof {
                    assert(false);
                }
                0
            },
        }
    }

    /// The `top_k` tips most relevant to `query`, most relevant first; tips
    /// of equal relevance come in knowledge-base order.
    pub fn retrieve(&self, query: &str, top_k: usize) -> (r: Vec<&FinancialTip>)
        requires
            scores_fit(self@, query_words(query@)),
        ensures
            r@.len() == min_nat(top_k as nat, self@.len()),
            r@.len() == retrieval(self@, query_words(query@), top_k as nat).len(),
            forall|p: int|
                0 <= p < r@.len() ==> *r@[p] == retrieval(self@, query_words(query@), top_k as nat)[p],
            is_ascii_chars(query@) ==> forall|p: int|
                0 <= p < r@.len() ==> *r@[p] == retrieval(
                    self@,
                    split_whitespace(ascii_lowercase(query@)),
                    top_k as nat,
                )[p],
    {
        let words = words_of_query(query);
        match retrieve_words(&self.tips, &words, top_k) {
            Some(found) => found,
            None => {
                proof {
                    assert(false);
                }
                Vec::new()
            },
        }
    }

    /// Like `retrieve`, but answers `None` instead when some tip's relevance
    /// to the query could not be counted in a machine word.
    pub fn retrieve_checked(&self, query: &str, top_k: usize) -> (r: Option<Vec<&FinancialTip>>)
        ensures
            r is Some <==> scores_fit(self@, query_words(query@)),
            r matches Some(v) ==> {
                &&& v@.len() == min_nat(top_k as nat, self@.len())
                &&& v@.len() == retrieval(self@, query_words(query@), top_k as nat).len()
                &&& forall|p: int|
                    0 <= p < v@.len() ==> *v@[p] == retrieval(
                        self@,
                        query_words(query@),
                        top_k as nat,
                    )[p]
                &&& is_ascii_chars(query@) ==> forall|p: int|
                    0 <= p < v@.len() ==> *v@[p] == retrieval(
                        self@,
                        split_whitespace(ascii_lowercase(query@)),
                        top_k as nat,
                    )[p]
            },
    {
        let words = words_of_query(query);
        retrieve_words(&self.tips, &words, top_k)
    }

    /// All tips, in knowledge-base order.
    pub fn get_all_tips(&self) -> (r: &[FinancialTip])
        ensures
            r@ == self@,
    {
        self.tips.as_slice()
    }

    /// The number of tips.
    pub fn get_tip_count(&self) -> (n: usize)
        ensures
            n == self@.len(),
    {
        self.tips.len()
    }
}

// ---------------------------------------------------------------------------
// Laws of retrieval
// ---------------------------------------------------------------------------

/// Law: retrieval returns `min(k, n)` tips.
pub proof fn lemma_retrieval_len(tips: Seq<FinancialTip>, words: Seq<Seq<char>>, k: nat)
    ensures
        retrieval(tips, words, k).len() == min_nat(k, tips.len()),
{
    lemma_top_ranking_exists(relevances(tips, words), k);
}

/// Law: retrieved tips come in order of decreasing relevance, and tips of
/// equal relevance in knowledge-base order; every tip left out is no more
/// relevant than any tip retrieved.
pub proof fn lemma_retrieval_ranked(tips: Seq<FinancialTip>, words: Seq<Seq<char>>, k: nat)
    ensures
        ({
            let r = top_ranking(relevances(tips, words), k);
            &&& forall|p: int, q: int|
                0 <= p < q < r.len() ==> relevance(tips[r[p]], words) >= relevance(
                    tips[r[q]],
                    words,
                ) && (relevance(tips[r[p]], words) == relevance(tips[r[q]], words) ==> r[p]
                    < r[q])
            &&& forall|p: int, j: int|
                0 <= p < r.len() && 0 <= j < tips.len() && !r.contains(j) ==> relevance(
                    tips[j],
                    words,
                ) <= relevance(tips[r[p]], words)
        }),
{
    let s = relevances(tips, words);
    lemma_top_ranking_exists(s, k);
    let r = top_ranking(s, k);
    assert forall|p: int, q: int| 0 <= p < q < r.len() implies relevance(tips[r[p]], words)
        >= relevance(tips[r[q]], words) && (relevance(tips[r[p]], words) == relevance(
        tips[r[q]],
        words,
    ) ==> r[p] < r[q]) by {
        assert(ranks_ahead(s, r[p], r[q]));
        assert(0 <= r[p] < tips.len() && 0 <= r[q] < tips.len());
    }
    assert forall|p: int, j: int|
        0 <= p < r.len() && 0 <= j < tips.len() && !r.contains(j) implies relevance(
        tips[j],
        words,
    ) <= relevance(tips[r[p]], words) by {
        assert(ranks_ahead(s, r[p], j));
        assert(0 <= r[p] < tips.len());
    }
}

/// Law: asking for fewer tips gives the start of what asking for more gives.
pub proof fn lemma_retrieval_prefix(
    tips: Seq<FinancialTip>,
    words: Seq<Seq<char>>,
    k1: nat,
    k2: nat,
)
    requires
        k1 <= k2,
    ensures
        retrieval(tips, words, k1) == retrieval(tips, words, k2).take(
            min_nat(k1, tips.len()) as int,
        ),
{
    let s = relevances(tips, words);
    lemma_top_ranking_exists(s, k2);
    lemma_top_ranking_exists(s, k1);
    let r2 = top_ranking(s, k2);
    lemma_top_ranking_prefix(s, r2, k1, k2);
    let m = min_nat(k1, tips.len()) as int;
    lemma_top_ranking_unique(s, r2.take(m), top_ranking(s, k1), k1);
    assert(retrieval(tips, words, k1) =~= retrieval(tips, words, k2).take(m));
}

/// Law: a query without words retrieves the first `k` tips, in
/// knowledge-base order.
pub proof fn lemma_retrieval_without_words(tips: Seq<FinancialTip>, k: nat)
    ensures
        retrieval(tips, Seq::empty(), k) == tips.take(min_nat(k, tips.len()) as int),
{
    let s = relevances(tips, Seq::empty());
    assert forall|i: int, j: int| 0 <= i < s.len() && 0 <= j < s.len() implies s[i] == s[j] by {
        lemma_no_words_no_relevance(tips[i]);
        lemma_no_words_no_relevance(tips[j]);
    }
    lemma_equal_scores_keep_order(s, k);
    assert(retrieval(tips, Seq::empty(), k) =~= tips.take(min_nat(k, tips.len()) as int));
}

/// Law: retrieval is determined by the tips, the words and the cut: any
/// listing of positions that ranks the tips as retrieval does gives the same
/// tips.
pub proof fn lemma_retrieval_unique(
    tips: Seq<FinancialTip>,
    words: Seq<Seq<char>>,
    k: nat,
    r: Seq<int>,
)
    requires
        is_top_ranking(relevances(tips, words), r, k),
    ensures
        r.map_values(|i: int| tips[i]) == retrieval(tips, words, k),
{
    let s = relevances(tips, words);
    lemma_top_ranking_exists(s, k);
    lemma_top_ranking_unique(s, r, top_ranking(s, k), k);
}

/// Law: an ASCII query and its upper-case form have the same lower-case
/// words, so they retrieve the same tips.
pub proof fn lemma_retrieval_ignores_ascii_case(
    tips: Seq<FinancialTip>,
    query: Seq<char>,
    k: nat,
)
    requires
        is_ascii_chars(query),
    ensures
        is_ascii_chars(ascii_uppercase(query)),
        retrieval(tips, split_whitespace(ascii_lowercase(ascii_uppercase(query))), k) == retrieval(
            tips,
            split_whitespace(ascii_lowercase(query)),
            k,
        ),
{
    lemma_ascii_case_folds(query);
}

proof fn lemma_words_points_remove(
    category: Seq<char>,
    text: Seq<char>,
    tags: Seq<Seq<char>>,
    words: Seq<Seq<char>>,
    i: int,
)
    requires
        0 <= i < words.len(),
    ensures
        words_points(category, text, tags, words) == words_points(
            category,
            text,
            tags,
            words.remove(i),
        ) + word_points(category, text, tags, words[i]),
    decreases words.len(),
{
    if i == words.len() - 1 {
        assert(words.remove(i) =~= words.drop_last());
    } else {
        lemma_words_points_remove(category, text, tags, words.drop_last(), i);
        assert(words.remove(i).drop_last() =~= words.drop_last().remove(i));
        assert(words.remove(i).last() == words.last());
    }
}

/// Law: the points words earn a tip depend only on which words there are
/// and how often, not on their order.
pub proof fn lemma_words_points_ignore_order(
    category: Seq<char>,
    text: Seq<char>,
    tags: Seq<Seq<char>>,
    words1: Seq<Seq<char>>,
    words2: Seq<Seq<char>>,
)
    requires
        words1.to_multiset() == words2.to_multiset(),
    ensures
        words_points(category, text, tags, words1) == words_points(category, text, tags, words2),
    decreases words1.len(),
{
    broadcast use vstd::seq_lib::group_to_multiset_ensures;

    if words1.len() == 0 {
        assert(words2.to_multiset().len() == 0);
        assert(words2.len() == 0);
    } else {
        let a = words1.last();
        let rest = words1.drop_last();
        assert(rest.push(a) =~= words1);
        assert(words1.to_multiset() =~= rest.to_multiset().insert(a));
        assert(words2.to_multiset().count(a) > 0);
        assert(words2.contains(a));
        let i = choose|i: int| 0 <= i < words2.len() && words2[i] == a;
        let rest2 = words2.remove(i);
        assert(rest2.to_multiset() =~= words2.to_multiset().remove(a));
        assert(rest2.to_multiset() =~= rest.to_multiset());
        lemma_words_points_ignore_order(category, text, tags, rest, rest2);
        lemma_words_points_remove(category, text, tags, words2, i);
    }
}

/// Law: a tip's relevance depends only on which query words there are and
/// how often, not on their order.
pub proof fn lemma_relevance_ignores_word_order(
    tip: FinancialTip,
    words1: Seq<Seq<char>>,
    words2: Seq<Seq<char>>,
)
    requires
        words1.to_multiset() == words2.to_multiset(),
    ensures
        relevance(tip, words1) == relevance(tip, words2),
{
    broadcast use vstd::seq_lib::group_to_multiset_ensures;

    let c = lowercase_of(tip.category@);
    lemma_words_points_ignore_order(
        c,
        lowercase_of(tip.tip@),
        lowered_tags(tip.tags@),
        words1,
        words2,
    );
    assert(words1.contains(c) <==> words1.to_multiset().count(c) > 0);
    assert(words2.contains(c) <==> words2.to_multiset().count(c) > 0);
}

/// Law: retrieval depends only on which query words there are and how
/// often, not on their order.
pub proof fn lemma_retrieval_ignores_word_order(
    tips: Seq<FinancialTip>,
    words1: Seq<Seq<char>>,
    words2: Seq<Seq<char>>,
    k: nat,
)
    requires
        words1.to_multiset() == words2.to_multiset(),
    ensures
        retrieval(tips, words1, k) == retrieval(tips, words2, k),
{
    assert forall|i: int| 0 <= i < tips.len() implies #[trigger] relevances(tips, words1)[i]
        == relevances(tips, words2)[i] by {
        lemma_relevance_ignores_word_order(tips[i], words1, words2);
    }
    assert(relevances(tips, words1) =~= relevances(tips, words2));
}

/// Law: two queries that hold the same whitespace-separated words, as
/// often, in any order and with any whitespace between them, have lower-case
/// words that retrieve the same tips (for ASCII queries these are the words
/// `retrieve` uses).
pub proof fn lemma_retrieval_ignores_query_word_order(
    tips: Seq<FinancialTip>,
    query1: Seq<char>,
    query2: Seq<char>,
    k: nat,
)
    requires
        split_whitespace(query1).to_multiset() == split_whitespace(query2).to_multiset(),
    ensures
        retrieval(tips, split_whitespace(ascii_lowercase(query1)), k) == retrieval(
            tips,
            split_whitespace(ascii_lowercase(query2)),
            k,
        ),
{
    lemma_split_whitespace_ascii_lowercase(query1);
    lemma_split_whitespace_ascii_lowercase(query2);
    lemma_ascii_lowercase_words_multiset(split_whitespace(query1), split_whitespace(query2));
    lemma_retrieval_ignores_word_order(
        tips,
        split_whitespace(ascii_lowercase(query1)),
        split_whitespace(ascii_lowercase(query2)),
        k,
    );
}

} // verus!
