//! Data structures of the Légifrance API on the Piste gateway: the datasets,
//! the authentication exchange, and search queries and responses.
use vstd::prelude::*;

verus! {

/// Version of the API this model follows.
pub const VERSION: &'static str = "2.4.2";

/// Endpoint that hands out OAuth tokens.
pub const OAUTH_URL: &'static str = "https://oauth.piste.gouv.fr/api/oauth/token";

/// Base address of the API (production).
pub const API_URL: &'static str = "https://api.piste.gouv.fr/dila/legifrance/lf-engine-app";

/// Endpoint used to consult a document of a dataset without its own endpoint.
pub const GENERIC_CONSULT_ENDPOINT: &'static str = "/consult/getArticle";

/// A dataset searchable through the API.
#[derive(Debug, Clone, Copy, PartialEq, Eq, Structural)]
pub enum Fond {
    /// Official journal of the French Republic.
    Jorf,
    /// National commission on informatics and liberty.
    Cnil,
    Cetat,
    Juri,
    Jufi,
    Constit,
    Kali,
    CodeDate,
    LodaDate,
    Circ,
    Acco,
}

/// The name of a dataset in the API.
pub open spec fn api_fond_name(f: Fond) -> Seq<char> {
    match f {
        Fond::Jorf => "JORF"@,
        Fond::Cnil => "CNIL"@,
        Fond::Cetat => "CETAT"@,
        Fond::Juri => "JURI"@,
        Fond::Jufi => "JUFI"@,
        Fond::Constit => "CONSTIT"@,
        Fond::Kali => "KALI"@,
        Fond::CodeDate => "CODE_DATE"@,
        Fond::LodaDate => "LODA_DATE"@,
        Fond::Circ => "CIRC"@,
        Fond::Acco => "ACCO"@,
    }
}

/// The dedicated consultation endpoint of a dataset, if it has one.
pub open spec fn consult_endpoint_of(f: Fond) -> Option<Seq<char>> {
    match f {
        Fond::Jorf => Some("/consult/jorf"@),
        Fond::Cnil => Some("/consult/cnil"@),
        Fond::Cetat => None,
        Fond::Juri => Some("/consult/juri"@),
        Fond::Jufi => None,
        Fond::Constit => None,
        Fond::Kali => Some("/consult/kaliCont"@),
        Fond::CodeDate => Some("/consult/code"@),
        Fond::LodaDate => Some("/consult/law_decree"@),
        Fond::Circ => Some("/consult/circulaire"@),
        Fond::Acco => Some("/consult/acco"@),
    }
}

impl Fond {
    /// Every dataset of the API, in declaration order.
    pub fn all() -> (r: Vec<Fond>)
        ensures
            r@ == seq![
                Fond::Jorf,
                Fond::Cnil,
                Fond::Cetat,
                Fond::Juri,
                Fond::Jufi,
                Fond::Constit,
                Fond::Kali,
                Fond::CodeDate,
                Fond::LodaDate,
                Fond::Circ,
                Fond::Acco,
            ],
    {
        let r = vec![
            Fond::Jorf,
            Fond::Cnil,
            Fond::Cetat,
            Fond::Juri,
            Fond::Jufi,
            Fond::Constit,
            Fond::Kali,
            Fond::CodeDate,
            Fond::LodaDate,
            Fond::Circ,
            Fond::Acco,
        ];
        assert(r@ =~= seq![
            Fond::Jorf,
            Fond::Cnil,
            Fond::Cetat,
            Fond::Juri,
            Fond::Jufi,
            Fond::Constit,
            Fond::Kali,
            Fond::CodeDate,
            Fond::LodaDate,
            Fond::Circ,
            Fond::Acco,
        ]);
        r
    }

    /// The name of the dataset in the API.
    pub fn as_str(&self) -> (r: &'static str)
        ensures
            r@ == api_fond_name(*self),
    {
        match self {
            Fond::Jorf => "JORF",
            Fond::Cnil => "CNIL",
            Fond::Cetat => "CETAT",
            Fond::Juri => "JURI",
            Fond::Jufi => "JUFI",
            Fond::Constit => "CONSTIT",
            Fond::Kali => "KALI",
            Fond::CodeDate => "CODE_DATE",
            Fond::LodaDate => "LODA_DATE",
            Fond::Circ => "CIRC",
            Fond::Acco => "ACCO",
        }
    }

    /// The dedicated consultation endpoint of the dataset, if it has one.
    pub fn api_consult_endpoint(&self) -> (r: Option<&'static str>)
        ensures
            match consult_endpoint_of(*self) {
                Some(e) => r is Some && r->0@ == e,
                None => r is None,
            },
    {
        match self {
            Fond::Jorf => Some("/consult/jorf"),
            Fond::Cnil => Some("/consult/cnil"),
            Fond::Cetat => None,
            Fond::Juri => Some("/consult/juri"),
            Fond::Jufi => None,
            Fond::Constit => None,
            Fond::Kali => Some("/consult/kaliCont"),
            Fond::CodeDate => Some("/consult/code"),
            Fond::LodaDate => Some("/consult/law_decree"),
            Fond::Circ => Some("/consult/circulaire"),
            Fond::Acco => Some("/consult/acco"),
        }
    }

    /// The endpoint used to consult a document of the dataset: its dedicated
    /// endpoint, or the generic article endpoint when it has none.
    pub fn consult_endpoint(&self) -> (r: &'static str)
        ensures
            match consult_endpoint_of(*self) {
                Some(e) => r@ == e,
                None => r@ == GENERIC_CONSULT_ENDPOINT@,
            },
    {
        match self.api_consult_endpoint() {
            Some(e) => e,
            None => GENERIC_CONSULT_ENDPOINT,
        }
    }
}

/// The body of an authentication request, sent form-encoded to `OAUTH_URL`.
#[derive(Debug, Clone)]
pub struct AuthBody {
    pub grant_type: String,
    pub client_id: String,
    pub client_secret: String,
    pub scope: String,
}

/// The answer to an authentication request. The token is typically valid
/// for one hour and is sent as `Authorization: Bearer <token>`.
#[derive(Debug, Clone)]
pub struct AuthResponse {
    pub access_token: String,
    pub token_type: String,
    pub expires_in: u64,
    pub scope: String,
}

/// A search query, as sent to the `/search` endpoints.
#[derive(Debug, Clone)]
pub struct SearchQuery {
    /// Search criteria (`recherche`).
    pub search: Search,
    /// Dataset name, or `ALL`.
    pub fond: String,
}

/// The criteria of a search.
#[derive(Debug, Clone)]
pub struct Search {
    /// Whether the search comes from the advanced search form; best left false.
    pub from_advanced: bool,
    /// Fields searched and their constraints (`champs`).
    pub fields: Vec<Field>,
    /// Page size, from 1 to 100.
    pub page_size: u8,
    /// How the fields combine (`operateur`).
    pub operator: Operator,
    /// Kind of pagination; best left `Default`.
    pub pagination: Pagination,
    /// Page number, from 1 to 100.
    pub page_number: u8,
    /// Filters (`filtres`).
    pub filters: Option<Vec<Filter>>,
    /// Sort order.
    pub sort: Option<String>,
    /// Sort order among ties.
    pub second_sort: Option<String>,
}

/// Kind of pagination (`DEFAUT` or `ARTICLE`).
#[derive(Debug, Clone, Copy, PartialEq, Eq, Structural)]
pub enum Pagination {
    Default,
    Article,
}

/// Conjunction (`ET`) or disjunction (`OU`).
#[derive(Debug, Clone, Copy, PartialEq, Eq, Structural)]
pub enum Operator {
    And,
    Or,
}

/// A filter of a search: a date range on a date field.
#[derive(Debug, Clone)]
pub struct Filter {
    pub dates: DateRange,
    pub facette: FilterType,
}

/// The date field a filter applies to.
#[derive(Debug, Clone, Copy, PartialEq, Eq, Structural)]
pub enum FilterType {
    DecisionDate,
    SignatureDate,
    PublicationDate,
    EffectDate,
}

/// A range of dates, each written `YYYY-MM-DD`.
#[derive(Debug, Clone)]
pub struct DateRange {
    pub start: String,
    pub end: String,
}

/// A searched field and its constraints.
#[derive(Debug, Clone)]
pub struct Field {
    /// Constraints (`criteres`).
    pub constraints: Vec<Constraint>,
    pub operator: Operator,
    pub field_type: FieldType,
}

/// One constraint of a searched field.
#[derive(Debug, Clone)]
pub struct Constraint {
    /// The searched value (`valeur`).
    pub value: String,
    /// Largest edit distance allowed: 0, 1 or 2 (`proximite`).
    pub fuzzy: u8,
    pub operator: Operator,
    pub match_type: MatchType,
}

/// The answer to a search.
#[derive(Debug, Clone)]
pub struct SearchResponse {
    /// Number of results the query matches, which may exceed what the pages can reach.
    pub total_result_number: u64,
    pub results: Vec<SearchResult>,
}

/// How the words of a constraint must match.
#[derive(Debug, Clone, Copy, PartialEq, Eq, Structural)]
pub enum MatchType {
    OneOfTheWords,
    Exact,
    AllOfTheWordsInAField,
    NoneOfTheWords,
    NoMatchToThisExpression,
}

/// Which part of a document a field searches.
#[derive(Debug, Clone, Copy, PartialEq, Eq, Structural)]
pub enum FieldType {
    All,
    Title,
    Text,
}

/// One result of a search.
#[derive(Debug, Clone)]
pub struct SearchResult {
    pub date: Option<String>,
    pub date_publication: Option<String>,
    pub date_signature: Option<String>,
    pub date_diffusion: Option<String>,
    pub titles: Vec<SearchResultTitle>,
    pub text: Option<String>,
    /// Current legal status (`etat`).
    pub legal_status: Option<String>,
    /// Dataset of origin (`origin`).
    pub fond: Option<Fond>,
    /// Kind of document (`type`).
    pub doctype: Option<String>,
    pub nature: Option<String>,
}

/// A title of a search result.
#[derive(Debug, Clone)]
pub struct SearchResultTitle {
    pub title: String,
    pub id: String,
    /// Chronological identifier.
    pub cid: String,
}

impl SearchResult {
    /// The chronological identifier of the first title, if any.
    pub fn first_cid(&self) -> (r: Option<String>)
        ensures
            match r {
                Some(c) => self.titles@.len() > 0 && c@ == self.titles@[0].cid@,
                None => self.titles@.len() == 0,
            },
    {
        if self.titles.len() > 0 {
            Some(self.titles[0].cid.clone())
        } else {
            None
        }
    }
}

} // verus!
