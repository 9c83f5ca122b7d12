//! Rows of the index turned into search results, in the index's order.

use vstd::prelude::*;
use crate::snippet::{extract_snippet, snippet_of};
use crate::text::no_newline;

verus! {

/// One row that the index returned for a query.
pub struct RawMatch {
    pub path: String,
    pub category: String,
    pub title: String,
    /// The full text of the document.
    pub body: String,
    /// The relevance score, written as a JSON number; lower ranks first.
    pub rank: String,
}

/// One result: a row whose body is replaced by a snippet.
pub struct SearchResult {
    pub path: String,
    pub category: String,
    pub title: String,
    pub snippet: String,
    /// The relevance score, written as a JSON number, where one is known.
    pub rank: Option<String>,
}

impl RawMatch {
    /// The rank is JSON number text, which holds no line feed.
    pub open spec fn wf(self) -> bool {
        no_newline(self.rank@)
    }
}

impl SearchResult {
    /// The rank, where there is one, is JSON number text, which holds no
    /// line feed.
    pub open spec fn wf(self) -> bool {
        self.rank is Some ==> no_newline(self.rank->0@)
    }
}

/// Why a query produced no output.
pub enum SearchError {
    /// The index store is missing or cannot be opened.
    IndexUnavailable(String),
    /// The index engine rejected the query expression.
    QuerySyntaxError(String),
    /// A value could not be encoded.
    SerializationError,
}

/// The category filter as characters.
pub open spec fn filter_view(category: Option<&str>) -> Option<Seq<char>> {
    match category {
        Some(c) => Some(c@),
        None => None,
    }
}

/// Whether a row passes the category filter.
pub open spec fn accepts(category: Option<Seq<char>>, row: RawMatch) -> bool {
    match category {
        Some(c) => row.category@ == c,
        None => true,
    }
}

/// The rows kept, in order: those that pass the filter, at most `limit`.
pub open spec fn selected(rows: Seq<RawMatch>, category: Option<Seq<char>>, limit: int) -> Seq<RawMatch>
    decreases rows.len(),
{
    if rows.len() == 0 {
        Seq::empty()
    } else {
        let prev = selected(rows.drop_last(), category, limit);
        if prev.len() < limit && accepts(category, rows.last()) {
            prev.push(rows.last())
        } else {
            prev
        }
    }
}

/// `r` is the result made of `row` for `query` with snippet budget `max_snippet`.
pub open spec fn result_of(r: SearchResult, row: RawMatch, query: Seq<char>, max_snippet: int) -> bool {
    &&& r.path@ == row.path@
    &&& r.category@ == row.category@
    &&& r.title@ == row.title@
    &&& r.snippet@ == snippet_of(row.body@, query, max_snippet)
    &&& r.rank == Some(row.rank)
}

/// The results made of the rows that `selected` keeps, one for one, in order.
pub open spec fn results_of(
    r: Seq<SearchResult>,
    rows: Seq<RawMatch>,
    query: Seq<char>,
    category: Option<Seq<char>>,
    limit: int,
    max_snippet: int,
) -> bool {
    let kept = selected(rows, category, limit);
    &&& r.len() == kept.len()
    &&& forall|i: int| 0 <= i < r.len() ==> result_of(#[trigger] r[i], kept[i], query, max_snippet)
}

/// At most `limit` rows are kept.
pub proof fn lemma_selected_limit(rows: Seq<RawMatch>, category: Option<Seq<char>>, limit: int)
    requires
        0 <= limit,
    ensures
        selected(rows, category, limit).len() <= limit,
    decreases rows.len(),
{
    if rows.len() > 0 {
        lemma_selected_limit(rows.drop_last(), category, limit);
    }
}

/// Under a category filter, every row kept has that category.
pub proof fn lemma_selected_category(rows: Seq<RawMatch>, c: Seq<char>, limit: int)
    ensures
        forall|i: int|
            0 <= i < selected(rows, Some(c), limit).len()
                ==> (#[trigger] selected(rows, Some(c), limit)[i]).category@ == c,
    decreases rows.len(),
{
    if rows.len() > 0 {
        lemma_selected_category(rows.drop_last(), c, limit);
        let prev = selected(rows.drop_last(), Some(c), limit);
        assert(forall|i: int| 0 <= i < prev.len() ==> (#[trigger] prev[i]).category@ == c);
        if prev.len() < limit && accepts(Some(c), rows.last()) {
            assert(forall|i: int| 0 <= i < prev.len() ==> #[trigger] prev.push(rows.last())[i] == prev[i]);
        }
    }
}

/// Without a filter, the rows kept are the first `limit` rows, in the
/// order the index returned them.
pub proof fn lemma_selected_unfiltered(rows: Seq<RawMatch>, limit: int)
    requires
        0 <= limit,
    ensures
        selected(rows, None, limit) == rows.take(if limit < rows.len() { limit } else { rows.len() as int }),
    decreases rows.len(),
{
    if rows.len() > 0 {
        lemma_selected_unfiltered(rows.drop_last(), limit);
        let n = rows.len() as int;
        if limit < n {
            assert(rows.drop_last().take(limit) =~= rows.take(limit));
        } else {
            assert(rows.drop_last().take(n - 1).push(rows.last()) =~= rows.take(n));
        }
    } else {
        assert(rows.take(0) =~= Seq::<RawMatch>::empty());
    }
}

/// Whether `row` passes the filter `category`.
fn passes(category: &Option<String>, row: &RawMatch) -> (r: bool)
    ensures
        r == accepts(
            match category {
                Some(c) => Some(c@),
                None => None,
            },
            *row,
        ),
{
    match category {
        Some(c) => row.category == *c,
        None => true,
    }
}

/// The results for `query` made of the rows that the index returned, in
/// their order: rows outside `category`, where one is given, are left out,
/// at most `limit` are kept, and each body becomes a snippet of about
/// `max_snippet` characters.
pub fn collect_results(
    rows: &Vec<RawMatch>,
    query: &str,
    category: Option<&str>,
    limit: usize,
    max_snippet: usize,
) -> (r: Vec<SearchResult>)
    ensures
        results_of(r@, rows@, query@, filter_view(category), limit as int, max_snippet as int),
        r@.len() <= limit,
        (forall|i: int| 0 <= i < rows@.len() ==> (#[trigger] rows@[i]).wf())
            ==> forall|i: int| 0 <= i < r@.len() ==> (#[trigger] r@[i]).wf(),
        category is Some ==> forall|i: int|
            0 <= i < r@.len() ==> (#[trigger] r@[i]).category@ == category->0@,
{
    let filter: Option<String> = match category {
        Some(c) => Some(String::from_str(c)),
        None => None,
    };
    let ghost cat = filter_view(category);
    assert(cat == match filter {
        Some(c) => Some(c@),
        None => None::<Seq<char>>,
    });
    let mut out: Vec<SearchResult> = Vec::new();
    let mut i: usize = 0;
    while i < rows.len()
        invariant
            i <= rows@.len(),
            cat == match filter {
                Some(c) => Some(c@),
                None => None::<Seq<char>>,
            },
            results_of(out@, rows@.subrange(0, i as int), query@, cat, limit as int, max_snippet as int),
            (forall|k: int| 0 <= k < rows@.len() ==> (#[trigger] rows@[k]).wf())
                ==> forall|j: int| 0 <= j < out@.len() ==> (#[trigger] out@[j]).wf(),
        decreases rows@.len() - i,
    {
        let ghost before = out@;
        assert(rows@.subrange(0, i + 1).drop_last() =~= rows@.subrange(0, i as int));
        let row = &rows[i];
        if out.len() < limit && passes(&filter, row) {
            let res = SearchResult {
                path: row.path.clone(),
                category: row.category.clone(),
                title: row.title.clone(),
                snippet: extract_snippet(row.body.as_str(), query, max_snippet),
                rank: Some(row.rank.clone()),
            };
            out.push(res);
            assert(forall|j: int| 0 <= j < before.len() ==> out@[j] == before[j]);
        }
        i = i + 1;
    }
    assert(rows@.subrange(0, rows@.len() as int) =~= rows@);
    proof {
        lemma_selected_limit(rows@, cat, limit as int);
        if let Some(c) = cat {
            lemma_selected_category(rows@, c, limit as int);
        }
    }
    out
}

} // verus!
