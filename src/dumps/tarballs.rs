//! Tarballs published on the DILA server: their names, dates and addresses,
//! the listing of a directory page, and the documents built from their XML files.
use vstd::prelude::*;

use crate::dumps::fonds::{fond_name, Fond, BASE_URL};
use crate::text::{
    after_last, all_digits, before_first, digits_value, is_digit, owned, parse_u64,
    parse_u64_spec, sorted_unique, str_after_last, str_before_first, strictly_sorted, views,
    chars_lt,
};

verus! {

/// A calendar date (proleptic Gregorian).
#[derive(Debug, Clone, Copy, PartialEq, Eq, PartialOrd, Ord, Hash, Structural)]
pub struct Date {
    pub year: i32,
    pub month: u32,
    pub day: u32,
}

impl Date {
    pub fn year(&self) -> (r: i32)
        ensures
            r == self.year,
    {
        self.year
    }

    pub fn month(&self) -> (r: u32)
        ensures
            r == self.month,
    {
        self.month
    }

    pub fn day(&self) -> (r: u32)
        ensures
            r == self.day,
    {
        self.day
    }
}

pub open spec fn is_leap_year(y: int) -> bool {
    (y % 4 == 0 && y % 100 != 0) || y % 400 == 0
}

pub open spec fn days_in_month(y: int, m: int) -> int {
    if m == 2 {
        if is_leap_year(y) {
            29
        } else {
            28
        }
    } else if m == 4 || m == 6 || m == 9 || m == 11 {
        30
    } else {
        31
    }
}

pub open spec fn is_valid_date(y: int, m: int, d: int) -> bool {
    1 <= m <= 12 && 1 <= d <= days_in_month(y, m)
}

/// Exactly eight ASCII digits, as in `YYYYMMDD`.
pub open spec fn eight_digits(s: Seq<char>) -> bool {
    s.len() == 8 && all_digits(s)
}

/// The date written `YYYYMMDD` by eight digits, when that date exists.
pub open spec fn date_of_digits(s: Seq<char>) -> Option<Date> {
    let y = digits_value(s.subrange(0, 4));
    let m = digits_value(s.subrange(4, 6));
    let d = digits_value(s.subrange(6, 8));
    if is_valid_date(y, m, d) {
        Some(Date { year: y as i32, month: m as u32, day: d as u32 })
    } else {
        None
    }
}

/// The part of a tarball name that holds its date: after the last `_`, before the next `-`.
pub open spec fn date_segment(name: Seq<char>) -> Seq<char> {
    before_first(after_last(name, '_'), '-')
}

/// The date of a tarball, read from its name.
pub open spec fn tarball_date(name: Seq<char>) -> Option<Date> {
    let seg = date_segment(name);
    if eight_digits(seg) {
        date_of_digits(seg)
    } else {
        None
    }
}

/// The error returned when a tarball name holds no valid `YYYYMMDD` date.
#[derive(Debug, Clone, Copy, PartialEq, Eq, Structural)]
pub struct InvalidTarballDate;

/// Relies on chrono's `NaiveDate::parse_from_str` with the format `%Y%m%d`:
/// on eight ASCII digits it reads four for the year, two for the month and
/// two for the day, and succeeds exactly when that date exists.
#[verifier::external_body]
fn parse_yyyymmdd(s: &str) -> (r: Option<Date>)
    requires
        eight_digits(s@),
    ensures
        r == date_of_digits(s@),
{
    chrono::NaiveDate::parse_from_str(s, "%Y%m%d").ok().map(
        |d| Date {
            year: chrono::Datelike::year(&d),
            month: chrono::Datelike::month(&d),
            day: chrono::Datelike::day(&d),
        },
    )
}

fn is_eight_digits(s: &str) -> (r: bool)
    ensures
        r == eight_digits(s@),
{
    if s.unicode_len() != 8 {
        return false;
    }
    let mut i: usize = 0;
    while i < 8
        invariant
            s@.len() == 8,
            i <= 8,
            forall|j: int| 0 <= j < i ==> is_digit(#[trigger] s@[j]),
        decreases 8 - i,
    {
        let c = s.get_char(i);
        if c < '0' || c > '9' {
            assert(!is_digit(s@[i as int]));
            return false;
        }
        i += 1;
    }
    true
}

/// Reads the date of a tarball from its name, `FOND_YYYYMMDD-HHMMSS.tar.gz`.
pub fn extract_date_from_tarball_name(name: &str) -> (r: Result<Date, InvalidTarballDate>)
    ensures
        match tarball_date(name@) {
            Some(d) => r == Ok::<Date, InvalidTarballDate>(d),
            None => r == Err::<Date, InvalidTarballDate>(InvalidTarballDate),
        },
{
    let seg = str_before_first(str_after_last(name, '_'), '-');
    if !is_eight_digits(seg) {
        return Err(InvalidTarballDate);
    }
    match parse_yyyymmdd(seg) {
        Some(d) => Ok(d),
        None => Err(InvalidTarballDate),
    }
}


/// A tarball of a dataset, with the date read from its name.
#[derive(Debug, Clone, PartialEq, Eq)]
pub struct Tarball {
    /// File name, typically `FOND_YYYYMMDD-HHMMSS.tar.gz`.
    pub name: String,
    /// Dataset the tarball belongs to.
    pub fond: Fond,
    /// Date of the tarball, read from its name.
    pub time: Date,
}

/// The names of a list of tarballs.
pub open spec fn tarball_names(v: Seq<Tarball>) -> Seq<Seq<char>> {
    v.map_values(|t: Tarball| t.name@)
}

/// The address of a tarball on the DILA server: `<base>/<fond>/<name>`.
pub open spec fn tarball_url_of(t: Tarball) -> Seq<char> {
    BASE_URL@ + "/"@ + fond_name(t.fond) + "/"@ + t.name@
}

impl Tarball {
    /// A copy of this tarball.
    pub fn duplicate(&self) -> (r: Tarball)
        ensures
            r == *self,
    {
        Tarball { name: self.name.clone(), fond: self.fond, time: self.time }
    }

    /// The address of the tarball on the DILA server.
    pub fn url(&self) -> (r: String)
        ensures
            r@ == tarball_url_of(*self),
    {
        let mut u = owned(BASE_URL);
        u.append("/");
        u.append(self.fond.as_str());
        u.append("/");
        u.append(self.name.as_str());
        u
    }

    /// A short label for messages: `FOND_name`.
    pub fn label(&self) -> (r: String)
        ensures
            r@ == fond_name(self.fond) + "_"@ + self.name@,
    {
        let mut u = owned(self.fond.as_str());
        u.append("_");
        u.append(self.name.as_str());
        u
    }
}

/// The substrings of a listing page that match `\w*-\w*.tar.gz`, in order.
pub uninterp spec fn tarball_name_matches(page: Seq<char>) -> Seq<Seq<char>>;

/// Relies on `regex::Regex::find_iter` with the pattern `\w*-\w*.tar.gz`:
/// the successive non-overlapping leftmost-first matches in the page.
#[verifier::external_body]
pub(crate) fn find_tarball_names(page: &str) -> (r: Vec<String>)
    ensures
        views(r@) == tarball_name_matches(page@),
{
    let re = regex::Regex::new(r"\w*-\w*.tar.gz").unwrap();
    re.find_iter(page).map(|m| m.as_str().to_string()).collect()
}

/// Whether `n` is one of the substrings of the page that match the tarball pattern.
pub open spec fn listed_name(page: Seq<char>, n: Seq<char>) -> bool {
    tarball_name_matches(page).contains(n)
}

/// The tarballs of a listing page: the distinct names that match the tarball
/// pattern and hold a valid date, in increasing order of name.
pub fn get_tarballs_from_page_content(fond: &Fond, content: &str) -> (r: Vec<Tarball>)
    ensures
        is_listing_of(content@, *fond, r@),
{
    let found = find_tarball_names(content);
    let names = sorted_unique(&found);
    let ghost nv = views(names@);
    let mut out: Vec<Tarball> = Vec::new();
    let mut i: usize = 0;
    while i < names.len()
        invariant
            i <= names.len(),
            nv == views(names@),
            strictly_sorted(nv),
            forall|n: Seq<char>| nv.contains(n) <==> tarball_name_matches(content@).contains(n),
            strictly_sorted(tarball_names(out@)),
            forall|a: int|
                0 <= a < out.len() ==> (#[trigger] out@[a]).fond == *fond && tarball_date(
                    out@[a].name@,
                ) == Some(out@[a].time),
            forall|a: int, k: int|
                0 <= a < out.len() && i <= k < nv.len() ==> chars_lt(
                    (#[trigger] out@[a]).name@,
                    #[trigger] nv[k],
                ),
            forall|n: Seq<char>|
                (nv.subrange(0, i as int).contains(n) && tarball_date(n) is Some)
                    <==> tarball_names(out@).contains(n),
        decreases names.len() - i,
    {
        let ghost before = out@;
        let ghost n_i = nv[i as int];
        assert(names@[i as int]@ == n_i);
        let pushed = match extract_date_from_tarball_name(names[i].as_str()) {
            Ok(d) => {
                out.push(Tarball { name: names[i].clone(), fond: *fond, time: d });
                true
            },
            Err(_) => false,
        };
        proof {
            let sub = nv.subrange(0, i as int);
            let sub2 = nv.subrange(0, i + 1);
            assert(sub2 =~= sub.push(n_i));
            if pushed {
                assert(tarball_names(out@) =~= tarball_names(before).push(n_i));
            } else {
                assert(out@ == before);
            }
            assert forall|a: int, b: int|
                0 <= a < b < tarball_names(out@).len() implies chars_lt(
                tarball_names(out@)[a],
                tarball_names(out@)[b],
            ) by {
                if pushed && b == out.len() - 1 {
                    assert(out@[a] == before[a]);
                    assert(chars_lt(before[a].name@, nv[i as int]));
                } else {
                    assert(tarball_names(out@)[a] == tarball_names(before)[a]);
                    assert(tarball_names(out@)[b] == tarball_names(before)[b]);
                }
            }
            assert forall|a: int, k: int|
                0 <= a < out.len() && i + 1 <= k < nv.len() implies chars_lt(
                (#[trigger] out@[a]).name@,
                #[trigger] nv[k],
            ) by {
                if pushed && a == out.len() - 1 {
                    assert(out@[a].name@ == nv[i as int]);
                } else {
                    assert(out@[a] == before[a]);
                }
            }
            assert forall|n: Seq<char>|
                (sub2.contains(n) && tarball_date(n) is Some) <==> tarball_names(out@).contains(
                    n,
                ) by {
                if sub2.contains(n) && tarball_date(n) is Some {
                    let k = choose|k: int| 0 <= k < sub2.len() && sub2[k] == n;
                    if k < i {
                        assert(sub[k] == n);
                        assert(sub.contains(n));
                        assert(tarball_names(before).contains(n));
                        let k2 = choose|k2: int|
                            0 <= k2 < tarball_names(before).len() && tarball_names(before)[k2] == n;
                        assert(tarball_names(out@)[k2] == n);
                    } else {
                        assert(n == n_i);
                        assert(pushed);
                        assert(tarball_names(out@)[out.len() - 1] == n);
                    }
                }
                if tarball_names(out@).contains(n) {
                    let k = choose|k: int|
                        0 <= k < tarball_names(out@).len() && tarball_names(out@)[k] == n;
                    if pushed && k == out.len() - 1 {
                        assert(sub2[i as int] == n);
                    } else {
                        assert(tarball_names(before)[k] == n);
                        assert(tarball_names(before).contains(n));
                        let k2 = choose|k2: int| 0 <= k2 < sub.len() && sub[k2] == n;
                        assert(sub2[k2] == n);
                    }
                }
            }
        }
        i += 1;
    }
    assert(nv.subrange(0, i as int) =~= nv);
    out
}


/// The "year" group of each successive match of `(?<year>\d*)-\d*-\d*</DATE` in a document.
pub uninterp spec fn year_groups_in(doc: Seq<char>) -> Seq<Seq<char>>;

/// Relies on `regex::Regex::captures_iter` with the pattern
/// `(?<year>\d*)-\d*-\d*</DATE`: the text of the `year` group of each
/// successive non-overlapping match, in order.
#[verifier::external_body]
fn find_year_groups(doc: &str) -> (r: Vec<String>)
    ensures
        views(r@) == year_groups_in(doc@),
{
    let re = regex::Regex::new(r"(?<year>\d*)-\d*-\d*</DATE").unwrap();
    re.captures_iter(doc).map(|c| c["year"].to_string()).collect()
}

/// The first of the candidate years that reads as a `u64`.
pub open spec fn first_year(groups: Seq<Seq<char>>) -> Option<u64>
    decreases groups.len(),
{
    if groups.len() == 0 {
        None
    } else {
        match parse_u64_spec(groups[0]) {
            Some(y) => Some(y),
            None => first_year(groups.drop_first()),
        }
    }
}

/// The year of a document: the first date-like group before a closing
/// `DATE…` tag whose year part reads as a number.
pub open spec fn document_year(doc: Seq<char>) -> Option<u64> {
    first_year(year_groups_in(doc))
}

/// The error returned when a document holds no readable year.
#[derive(Debug, Clone, Copy, PartialEq, Eq, Structural)]
pub struct MissingYear;

/// The first of the candidate year strings that reads as a `u64`.
pub fn first_parsable_year(groups: &Vec<String>) -> (r: Option<u64>)
    ensures
        r == first_year(views(groups@)),
{
    let ghost g = views(groups@);
    assert(g.skip(0) =~= g);
    let mut i: usize = 0;
    while i < groups.len()
        invariant
            i <= groups.len(),
            g == views(groups@),
            first_year(g) == first_year(g.skip(i as int)),
        decreases groups.len() - i,
    {
        let ghost rest = g.skip(i as int);
        assert(rest[0] == groups@[i as int]@);
        assert(rest.drop_first() =~= g.skip(i + 1));
        match parse_u64(groups[i].as_str()) {
            Some(y) => {
                return Some(y);
            },
            None => {},
        }
        i += 1;
    }
    assert(g.skip(i as int).len() == 0);
    None
}

/// The year of a document, as used to index it.
pub fn get_year_juri(doc: &str) -> (r: Result<u64, MissingYear>)
    ensures
        match document_year(doc@) {
            Some(y) => r == Ok::<u64, MissingYear>(y),
            None => r == Err::<u64, MissingYear>(MissingYear),
        },
{
    let groups = find_year_groups(doc);
    match first_parsable_year(&groups) {
        Some(y) => Ok(y),
        None => Err(MissingYear),
    }
}

/// A document ready for the full-text index.
#[derive(Debug, Clone, PartialEq, Eq)]
pub struct IndexDocument {
    /// Path of the XML file, relative to the extraction root.
    pub path: String,
    /// The raw XML text.
    pub body: String,
    /// The year read from the document.
    pub year: u64,
}

impl IndexDocument {
    /// Builds the index document of an XML file, or `MissingYear` when it
    /// holds no readable year (such a file is left out of the index).
    pub fn from_xml(path: String, body: String) -> (r: Result<IndexDocument, MissingYear>)
        ensures
            match document_year(body@) {
                Some(y) => r is Ok && r->Ok_0.path@ == path@ && r->Ok_0.body@ == body@
                    && r->Ok_0.year == y,
                None => r == Err::<IndexDocument, MissingYear>(MissingYear),
            },
    {
        match get_year_juri(body.as_str()) {
            Ok(year) => Ok(IndexDocument { path, body, year }),
            Err(e) => Err(e),
        }
    }
}

/// The tarballs of `tarballs` whose file is not yet present, in order;
/// `present[i]` tells whether the file of `tarballs[i]` already exists.
pub open spec fn missing_tarballs(tarballs: Seq<Tarball>, present: Seq<bool>) -> Seq<Tarball>
    decreases tarballs.len(),
{
    if tarballs.len() == 0 || present.len() == 0 {
        Seq::empty()
    } else {
        let rest = missing_tarballs(tarballs.drop_last(), present.drop_last());
        if present.last() {
            rest
        } else {
            rest.push(tarballs.last())
        }
    }
}

/// Selects the tarballs to download: those whose target file does not exist yet.
pub fn tarballs_to_fetch(tarballs: &Vec<Tarball>, present: &Vec<bool>) -> (r: Vec<Tarball>)
    requires
        tarballs.len() == present.len(),
    ensures
        r@ == missing_tarballs(tarballs@, present@),
        forall|t: Tarball|
            r@.contains(t) ==> exists|j: int|
                0 <= j < tarballs.len() && !present@[j] && tarballs@[j] == t,
{
    let mut r: Vec<Tarball> = Vec::new();
    let mut i: usize = 0;
    while i < tarballs.len()
        invariant
            i <= tarballs.len(),
            tarballs.len() == present.len(),
            r@ == missing_tarballs(tarballs@.subrange(0, i as int), present@.subrange(0, i as int)),
        decreases tarballs.len() - i,
    {
        let ghost t2 = tarballs@.subrange(0, i + 1);
        let ghost p2 = present@.subrange(0, i + 1);
        assert(t2.drop_last() =~= tarballs@.subrange(0, i as int));
        assert(p2.drop_last() =~= present@.subrange(0, i as int));
        if !present[i] {
            r.push(tarballs[i].duplicate());
        }
        i += 1;
    }
    assert(tarballs@.subrange(0, i as int) =~= tarballs@);
    assert(present@.subrange(0, i as int) =~= present@);
    proof {
        lemma_missing_members(tarballs@, present@);
    }
    r
}

/// Every member of `missing_tarballs` comes from a position that is not present.
proof fn lemma_missing_members(tarballs: Seq<Tarball>, present: Seq<bool>)
    requires
        tarballs.len() == present.len(),
    ensures
        forall|t: Tarball|
            missing_tarballs(tarballs, present).contains(t) ==> exists|j: int|
                0 <= j < tarballs.len() && !present[j] && tarballs[j] == t,
    decreases tarballs.len(),
{
    if tarballs.len() > 0 {
        lemma_missing_members(tarballs.drop_last(), present.drop_last());
        let rest = missing_tarballs(tarballs.drop_last(), present.drop_last());
        assert forall|t: Tarball|
            missing_tarballs(tarballs, present).contains(t) implies exists|j: int|
                0 <= j < tarballs.len() && !present[j] && tarballs[j] == t by {
            let m = missing_tarballs(tarballs, present);
            let k = choose|k: int| 0 <= k < m.len() && m[k] == t;
            if k < rest.len() {
                assert(rest[k] == t);
                assert(rest.contains(t));
                let j = choose|j: int|
                    0 <= j < tarballs.drop_last().len() && !present.drop_last()[j]
                        && tarballs.drop_last()[j] == t;
                assert(tarballs[j] == t && !present[j]);
            } else {
                assert(tarballs[tarballs.len() - 1] == t);
            }
        }
    }
}


/// Number of tarballs that the one-shot mode downloads, extracts and indexes at a time.
pub const CHUNK_SIZE: usize = 10;

/// The chunks laid end to end.
pub open spec fn concat_chunks(c: Seq<Seq<Tarball>>) -> Seq<Tarball>
    decreases c.len(),
{
    if c.len() == 0 {
        Seq::empty()
    } else {
        concat_chunks(c.drop_last()) + c.last()
    }
}

/// A listing in reverse order: newest names first.
pub open spec fn newest_first(s: Seq<Tarball>) -> Seq<Tarball> {
    Seq::new(s.len(), |i: int| s[s.len() - 1 - i])
}

pub open spec fn chunk_views(r: Seq<Vec<Tarball>>) -> Seq<Seq<Tarball>> {
    r.map_values(|c: Vec<Tarball>| c@)
}

/// The processing order of the one-shot mode: the listing reversed, then cut
/// into consecutive chunks of `size` tarballs (the last one may be shorter).
pub fn plan_chunks(listing: &Vec<Tarball>, size: usize) -> (r: Vec<Vec<Tarball>>)
    requires
        size > 0,
    ensures
        concat_chunks(chunk_views(r@)) == newest_first(listing@),
        forall|k: int| 0 <= k < r.len() ==> 0 < (#[trigger] r@[k]).len() <= size,
        forall|k: int| 0 <= k < r.len() - 1 ==> (#[trigger] r@[k]).len() == size,
{
    let n = listing.len();
    let mut r: Vec<Vec<Tarball>> = Vec::new();
    let mut cur: Vec<Tarball> = Vec::new();
    let mut j: usize = n;
    while j > 0
        invariant
            j <= n,
            n == listing.len(),
            concat_chunks(chunk_views(r@)) + cur@ == newest_first(listing@).subrange(0, n - j),
            cur.len() < size,
            forall|k: int| 0 <= k < r.len() ==> (#[trigger] r@[k]).len() == size,
        decreases j,
    {
        let ghost before = concat_chunks(chunk_views(r@)) + cur@;
        cur.push(listing[j - 1].duplicate());
        assert(concat_chunks(chunk_views(r@)) + cur@ =~= before.push(listing@[j - 1]));
        assert(newest_first(listing@).subrange(0, n - j + 1) =~= newest_first(listing@).subrange(
            0,
            n - j,
        ).push(listing@[j - 1]));
        if cur.len() == size {
            let ghost old_r = r@;
            let full = cur;
            cur = Vec::new();
            r.push(full);
            assert(chunk_views(r@).drop_last() =~= chunk_views(old_r));
            assert(concat_chunks(chunk_views(r@)) + cur@ =~= concat_chunks(chunk_views(old_r))
                + full@);
        }
        j -= 1;
    }
    assert(newest_first(listing@).subrange(0, n as int) =~= newest_first(listing@));
    if cur.len() > 0 {
        let ghost old_r = r@;
        let last = cur;
        r.push(last);
        assert(chunk_views(r@).drop_last() =~= chunk_views(old_r));
    } else {
        assert(concat_chunks(chunk_views(r@)) + cur@ =~= concat_chunks(chunk_views(r@)));
    }
    r
}


/// A file name that the extraction step takes for an archive: it has a
/// non-empty stem and its last extension is `gz`.
pub open spec fn is_archive_name_spec(name: Seq<char>) -> bool {
    let ext = after_last(name, '.');
    &&& ext.len() + 1 < name.len()
    &&& ext == "gz"@
}

/// Whether a file name is taken for an archive to extract (`*.tar.gz`, `*.gz`).
pub fn is_archive_name(name: &str) -> (r: bool)
    ensures
        r == is_archive_name_spec(name@),
{
    let ext = str_after_last(name, '.');
    let e = ext.unicode_len();
    let n = name.unicode_len();
    n > e && n - e > 1 && crate::text::str_eq(ext, "gz")
}


/// What the listing of a page returns for a dataset: the distinct names of
/// the page that match the tarball pattern and hold a valid date, sorted,
/// each with that date and the dataset.
pub open spec fn is_listing_of(page: Seq<char>, fond: Fond, r: Seq<Tarball>) -> bool {
    &&& strictly_sorted(tarball_names(r))
    &&& forall|i: int|
        0 <= i < r.len() ==> (#[trigger] r[i]).fond == fond && tarball_date(r[i].name@) == Some(
            r[i].time,
        )
    &&& forall|n: Seq<char>|
        (listed_name(page, n) && tarball_date(n) is Some) <==> tarball_names(r).contains(n)
}

/// Listing is a function of the page: two listings of the same page for the
/// same dataset hold the same names, in the same order, with the same dates.
pub proof fn lemma_listing_determined(page: Seq<char>, fond: Fond, a: Seq<Tarball>, b: Seq<Tarball>)
    requires
        is_listing_of(page, fond, a),
        is_listing_of(page, fond, b),
    ensures
        tarball_names(a) == tarball_names(b),
        a.len() == b.len(),
        forall|i: int| 0 <= i < a.len() ==> a[i].time == b[i].time && a[i].fond == b[i].fond,
{
    assert forall|n: Seq<char>| tarball_names(a).contains(n) <==> tarball_names(b).contains(n) by {
        if tarball_names(a).contains(n) {
            assert(listed_name(page, n) && tarball_date(n) is Some);
        }
        if tarball_names(b).contains(n) {
            assert(listed_name(page, n) && tarball_date(n) is Some);
        }
    }
    crate::text::lemma_sorted_same_elements(tarball_names(a), tarball_names(b));
    assert forall|i: int| 0 <= i < a.len() implies a[i].time == b[i].time && a[i].fond == b[i].fond by {
        assert(tarball_names(a)[i] == tarball_names(b)[i]);
        assert(b[i].name@ == a[i].name@);
        assert(tarball_date(a[i].name@) == Some(a[i].time));
        assert(tarball_date(b[i].name@) == Some(b[i].time));
    }
}

/// When every tarball's file is already present, nothing is downloaded.
pub proof fn lemma_all_present_fetch_nothing(tarballs: Seq<Tarball>, present: Seq<bool>)
    requires
        tarballs.len() == present.len(),
        forall|i: int| 0 <= i < present.len() ==> #[trigger] present[i],
    ensures
        missing_tarballs(tarballs, present).len() == 0,
    decreases tarballs.len(),
{
    if tarballs.len() > 0 {
        assert(present.last());
        lemma_all_present_fetch_nothing(tarballs.drop_last(), present.drop_last());
    }
}

} // verus!
