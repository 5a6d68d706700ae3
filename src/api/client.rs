//! User-level queries to the API and their translation to API requests.
use vstd::prelude::*;

use crate::api::piste::{
    api_fond_name, Constraint, DateRange, Field, FieldType, Filter, FilterType, Fond, MatchType,
    Operator, Pagination, Search, SearchQuery,
};
use crate::text::{decimal, owned, push_decimal};

verus! {

/// A search as users state it: a text, a page, an optional range of years
/// and an optional dataset (none means all datasets).
#[derive(Debug, Clone)]
pub struct PageQuery {
    /// The searched text.
    pub text: String,
    /// The page asked for.
    pub page: u8,
    pub start_year: Option<u64>,
    pub end_year: Option<u64>,
    /// The dataset searched; `None` searches them all.
    pub fond: Option<Fond>,
}

impl PageQuery {
    /// A copy of this query.
    pub fn duplicate(&self) -> (r: PageQuery)
        ensures
            r == *self,
    {
        PageQuery {
            text: self.text.clone(),
            page: self.page,
            start_year: self.start_year,
            end_year: self.end_year,
            fond: self.fond,
        }
    }
}

/// `YYYY-01-01`, the first day of a year.
pub open spec fn new_year_date(y: u64) -> Seq<char> {
    decimal(y as nat) + "-01-01"@
}

/// The dataset name sent in a query: the dataset's name, or `ALL`.
pub open spec fn query_fond_name(f: Option<Fond>) -> Seq<char> {
    match f {
        Some(f) => api_fond_name(f),
        None => "ALL"@,
    }
}

fn first_day_of_year(y: u64) -> (r: String)
    ensures
        r@ == new_year_date(y),
{
    let mut s = String::new();
    push_decimal(&mut s, y);
    s.append("-01-01");
    s
}


/// What the API query built from a `PageQuery` holds: one field searching
/// all of a document for one of the words of the text (edit distance up to
/// 2), pages of 100, the given page, and, when both years are given, a filter
/// on the decision date from January 1st of the first year to January 1st of
/// the second, sorted by signature date.
pub open spec fn is_query_for(q: SearchQuery, pq: PageQuery) -> bool {
    let both = pq.start_year is Some && pq.end_year is Some;
    &&& q.fond@ == query_fond_name(pq.fond)
    &&& !q.search.from_advanced
    &&& q.search.fields@.len() == 1
    &&& q.search.fields@[0].constraints@.len() == 1
    &&& q.search.fields@[0].constraints@[0].value@ == pq.text@
    &&& q.search.fields@[0].constraints@[0].fuzzy == 2
    &&& q.search.fields@[0].constraints@[0].operator == Operator::And
    &&& q.search.fields@[0].constraints@[0].match_type == MatchType::OneOfTheWords
    &&& q.search.fields@[0].operator == Operator::And
    &&& q.search.fields@[0].field_type == FieldType::All
    &&& q.search.page_size == 100
    &&& q.search.operator == Operator::And
    &&& q.search.pagination == Pagination::Default
    &&& q.search.page_number == pq.page
    &&& (both ==> {
        &&& q.search.filters is Some
        &&& q.search.filters->0@.len() == 1
        &&& q.search.filters->0@[0].dates.start@ == new_year_date(pq.start_year->0)
        &&& q.search.filters->0@[0].dates.end@ == new_year_date(pq.end_year->0)
        &&& q.search.filters->0@[0].facette == FilterType::DecisionDate
        &&& q.search.sort is Some
        &&& q.search.sort->0@ == "SIGNATURE_DATE_DESC"@
    })
    &&& (!both ==> q.search.filters is None && q.search.sort is None)
    &&& q.search.second_sort is Some
    &&& q.search.second_sort->0@ == "ID"@
}

impl SearchQuery {
    /// The API query that asks for the page described by `pq`.
    pub fn from(pq: &PageQuery) -> (r: SearchQuery)
        ensures
            is_query_for(r, *pq),
    {
        let (filters, sort) = match (pq.start_year, pq.end_year) {
            (Some(start), Some(end)) => {
                let range = DateRange { start: first_day_of_year(start), end: first_day_of_year(end) };
                (
                    Some(vec![Filter { dates: range, facette: FilterType::DecisionDate }]),
                    Some(owned("SIGNATURE_DATE_DESC")),
                )
            },
            _ => (None, None),
        };
        let fond = match pq.fond {
            Some(f) => owned(f.as_str()),
            None => owned("ALL"),
        };
        let constraint = Constraint {
            value: pq.text.clone(),
            fuzzy: 2,
            operator: Operator::And,
            match_type: MatchType::OneOfTheWords,
        };
        let field = Field {
            constraints: vec![constraint],
            operator: Operator::And,
            field_type: FieldType::All,
        };
        SearchQuery {
            search: Search {
                from_advanced: false,
                fields: vec![field],
                page_size: 100,
                operator: Operator::And,
                pagination: Pagination::Default,
                page_number: pq.page,
                filters,
                sort,
                second_sort: Some(owned("ID")),
            },
            fond,
        }
    }
}

/// Name of the file that receives the results of a query: `<text>-<fond>.json`,
/// with `all` when no dataset is given.
pub open spec fn results_file_name_of(pq: PageQuery) -> Seq<char> {
    pq.text@ + "-"@ + match pq.fond {
        Some(f) => api_fond_name(f),
        None => "all"@,
    } + ".json"@
}

/// The name of the file that receives the results of a query.
pub fn results_file_name(pq: &PageQuery) -> (r: String)
    ensures
        r@ == results_file_name_of(*pq),
{
    let mut s = pq.text.clone();
    s.append("-");
    match pq.fond {
        Some(f) => s.append(f.as_str()),
        None => s.append("all"),
    }
    s.append(".json");
    s
}

} // verus!
