//! Planning one full build: the corpus in reverse discovery order, one
//! output path per document, and the listing page.
use vstd::prelude::*;

use crate::errors::ChabloError;
use crate::models::{Article, TopPage, UpdatedTitle};
use crate::parser::{article_matches, parse, parse_err, parse_ok};
use crate::text::{
    lemma_strip_slashes_id, lemma_strip_slashes_no_slash, remove_slash_chars, strip_slashes,
};

verus! {

/// Strips every path separator from a title.
pub fn remove_slashes(title: &str) -> (r: UpdatedTitle)
    ensures
        r.0@ == strip_slashes(title@),
        forall|i: int| 0 <= i < r.0@.len() ==> r.0@[i] != '/',
{
    proof {
        lemma_strip_slashes_no_slash(title@);
    }
    UpdatedTitle(remove_slash_chars(title))
}

/// Whether `s` holds a path separator.
fn contains_slash(s: &str) -> (r: bool)
    ensures
        r == exists|i: int| 0 <= i < s@.len() && s@[i] == '/',
{
    let n = s.unicode_len();
    let mut i: usize = 0;
    while i < n
        invariant
            n == s@.len(),
            i <= n,
            forall|j: int| 0 <= j < i ==> s@[j] != '/',
        decreases n - i,
    {
        if s.get_char(i) == '/' {
            return true;
        }
        i += 1;
    }
    false
}

/// Where the page of a document with this title is written: the title
/// with slashes stripped, under the output root.
pub open spec fn article_out_path(title: Seq<char>) -> Seq<char> {
    "public/"@ + strip_slashes(title) + ".html"@
}

/// Sanitization law: past its fixed directory prefix, an output path
/// derived from a title never holds a `/`, whatever the title holds.
pub proof fn lemma_out_path_no_slash(title: Seq<char>)
    ensures
        forall|i: int|
            "public/"@.len() <= i < article_out_path(title).len() ==> article_out_path(title)[i]
                != '/',
{
    reveal_strlit("public/");
    reveal_strlit(".html");
    lemma_strip_slashes_no_slash(title);
    let p = article_out_path(title);
    let stripped = strip_slashes(title);
    assert forall|i: int| "public/"@.len() <= i < p.len() implies p[i] != '/' by {
        if i < "public/"@.len() + stripped.len() {
            assert(p[i] == stripped[i - "public/"@.len()]);
        } else {
            assert(p[i] == ".html"@[i - "public/"@.len() - stripped.len()]);
        }
    }
}

/// The output file name of each document, in corpus order.
pub fn build_articles(articles: &Vec<Article>) -> (r: Vec<String>)
    ensures
        r@.len() == articles@.len(),
        forall|i: int|
            0 <= i < r@.len() ==> #[trigger] r@[i]@ == article_out_path(articles@[i].title@),
{
    let mut paths: Vec<String> = Vec::new();
    let mut idx: usize = 0;
    while idx < articles.len()
        invariant
            idx <= articles@.len(),
            paths@.len() == idx,
            forall|i: int|
                0 <= i < idx ==> #[trigger] paths@[i]@ == article_out_path(articles@[i].title@),
        decreases articles@.len() - idx,
    {
        let title = &articles[idx].title;
        let path = if contains_slash(title.as_str()) {
            let removed_title = remove_slashes(title.as_str());
            String::from_str("public/").concat(removed_title.0.as_str()).concat(".html")
        } else {
            proof {
                lemma_strip_slashes_id(title@);
            }
            String::from_str("public/").concat(title.as_str()).concat(".html")
        };
        proof {
            assert(path@ =~= article_out_path(articles@[idx as int].title@));
        }
        paths.push(path);
        idx += 1;
    }
    paths
}

/// Builds the corpus from the discovered sources, one document per
/// `(path, content)` pair, in reverse discovery order, stopping at the
/// first document that does not parse.
pub fn collect_articles(sources: &Vec<(String, String)>) -> (r: Result<
    Vec<Article>,
    ChabloError,
>)
    ensures
        r is Ok <==> (forall|k: int|
            0 <= k < sources@.len() ==> parse_ok(
                #[trigger] sources@[k].0@,
                sources@[k].1@,
            )),
        r matches Ok(articles) ==> {
            &&& articles@.len() == sources@.len()
            &&& forall|k: int|
                0 <= k < articles@.len() ==> article_matches(
                    #[trigger] articles@[k],
                    sources@[sources@.len() - 1 - k].0@,
                    sources@[sources@.len() - 1 - k].1@,
                )
        },
        r matches Err(e) ==> exists|k: int|
            {
                &&& 0 <= k < sources@.len()
                &&& !parse_ok(
                    #[trigger] sources@[sources@.len() - 1 - k].0@,
                    sources@[sources@.len() - 1 - k].1@,
                )
                &&& forall|m: int|
                    0 <= m < k ==> parse_ok(
                        #[trigger] sources@[sources@.len() - 1 - m].0@,
                        sources@[sources@.len() - 1 - m].1@,
                    )
                &&& e == parse_err(
                    sources@[sources@.len() - 1 - k].0@,
                    sources@[sources@.len() - 1 - k].1@,
                )
            },
{
    let n = sources.len();
    let mut articles: Vec<Article> = Vec::new();
    let mut idx: usize = 0;
    while idx < n
        invariant
            n == sources@.len(),
            idx <= n,
            articles@.len() == idx,
            forall|k: int|
                0 <= k < idx ==> parse_ok(
                    #[trigger] sources@[n - 1 - k].0@,
                    sources@[n - 1 - k].1@,
                ),
            forall|k: int|
                0 <= k < idx ==> article_matches(
                    #[trigger] articles@[k],
                    sources@[n - 1 - k].0@,
                    sources@[n - 1 - k].1@,
                ),
        decreases n - idx,
    {
        let entry = &sources[n - 1 - idx];
        match parse(entry.0.as_str(), entry.1.as_str()) {
            Ok(article) => {
                articles.push(article);
            },
            Err(e) => {
                return Err(e);
            },
        }
        idx += 1;
    }
    proof {
        assert forall|k: int| 0 <= k < n implies parse_ok(
            #[trigger] sources@[k].0@,
            sources@[k].1@,
        ) by {
            assert(parse_ok(sources@[n - 1 - (n - 1 - k)].0@, sources@[n - 1 - (n - 1 - k)].1@));
        }
    }
    Ok(articles)
}

/// Everything one build writes: the listing page model, the output file
/// of every document, and where the listing page itself goes.
pub struct BuildPlan {
    pub toppage: TopPage,
    pub article_paths: Vec<String>,
    pub index_path: String,
}

/// Plans one full build over the discovered sources: the corpus in
/// reverse discovery order, an output path per document, and the listing
/// page at its fixed place. The plan is a function of the sources alone,
/// so an unchanged source directory plans the same build twice.
pub fn build(sources: &Vec<(String, String)>) -> (r: Result<BuildPlan, ChabloError>)
    ensures
        r is Ok <==> (forall|k: int|
            0 <= k < sources@.len() ==> parse_ok(
                #[trigger] sources@[k].0@,
                sources@[k].1@,
            )),
        r matches Ok(plan) ==> {
            &&& plan.toppage.articles@.len() == sources@.len()
            &&& forall|k: int|
                0 <= k < plan.toppage.articles@.len() ==> article_matches(
                    #[trigger] plan.toppage.articles@[k],
                    sources@[sources@.len() - 1 - k].0@,
                    sources@[sources@.len() - 1 - k].1@,
                )
            &&& plan.article_paths@.len() == sources@.len()
            &&& forall|k: int|
                0 <= k < plan.article_paths@.len() ==> #[trigger] plan.article_paths@[k]@
                    == article_out_path(plan.toppage.articles@[k].title@)
            &&& plan.index_path@ == "public/index.html"@
        },
        r matches Err(e) ==> exists|k: int|
            {
                &&& 0 <= k < sources@.len()
                &&& !parse_ok(
                    #[trigger] sources@[sources@.len() - 1 - k].0@,
                    sources@[sources@.len() - 1 - k].1@,
                )
                &&& e == parse_err(
                    sources@[sources@.len() - 1 - k].0@,
                    sources@[sources@.len() - 1 - k].1@,
                )
            },
{
    let articles = match collect_articles(sources) {
        Ok(articles) => articles,
        Err(e) => {
            return Err(e);
        },
    };
    let article_paths = build_articles(&articles);
    let toppage = TopPage { articles };
    Ok(BuildPlan { toppage, article_paths, index_path: String::from_str("public/index.html") })
}

/// Determinism law: the record built from a source is pinned field by
/// field, so two builds over the same path and content agree on every
/// document.
pub proof fn lemma_article_deterministic(
    a1: Article,
    a2: Article,
    path: Seq<char>,
    content: Seq<char>,
)
    requires
        article_matches(a1, path, content),
        article_matches(a2, path, content),
    ensures
        a1.id@ == a2.id@,
        a1.title@ == a2.title@,
        a1.body.0@ == a2.body.0@,
        a1.date == a2.date,
        a1.path@ == a2.path@,
{
}

/// `a` comes before `b` in character order.
pub open spec fn lex_le(a: Seq<char>, b: Seq<char>) -> bool
    decreases a.len(),
{
    if a.len() == 0 {
        true
    } else if b.len() == 0 {
        false
    } else if (a[0] as u32) < (b[0] as u32) {
        true
    } else if (a[0] as u32) > (b[0] as u32) {
        false
    } else {
        lex_le(a.drop_first(), b.drop_first())
    }
}

/// Corpus order law: the corpus takes its document `k` from source
/// `n-1-k`, so names discovered in ascending order come out newest
/// first, in descending order.
pub proof fn lemma_corpus_descending(paths: Seq<Seq<char>>)
    requires
        forall|i: int, j: int|
            0 <= i < j < paths.len() ==> lex_le(#[trigger] paths[i], #[trigger] paths[j]),
    ensures
        forall|i: int, j: int|
            0 <= i < j < paths.len() ==> lex_le(
                #[trigger] paths[paths.len() - 1 - j],
                #[trigger] paths[paths.len() - 1 - i],
            ),
{
}

} // verus!
