//! Metadata and text of the XML records stored in the DILA archive dumps.
//!
//! The XML text is read as a stream of events; a single-state machine
//! copies the character data of a fixed set of elements into a record.
use quick_xml::events::Event::{Empty, End, Eof, Start, Text};
use quick_xml::Reader;
use vstd::prelude::*;

use crate::text::{owned, str_eq};

verus! {

/// One event of an XML document, as the record parser sees it.
#[derive(Debug, Clone, PartialEq, Eq)]
pub enum XmlEvent {
    /// An opening tag, by name.
    Start(String),
    /// A closing tag, by name.
    End(String),
    /// Character data, unescaped.
    Text(String),
    /// An empty-element tag such as `<br/>`, by name.
    Empty(String),
    /// Anything else (comments, declarations, CDATA, ...).
    Other,
}

/// The value of an [`XmlEvent`].
pub enum XmlToken {
    Start(Seq<char>),
    End(Seq<char>),
    Text(Seq<char>),
    Empty(Seq<char>),
    Other,
}

impl View for XmlEvent {
    type V = XmlToken;

    open spec fn view(&self) -> XmlToken {
        match self {
            XmlEvent::Start(n) => XmlToken::Start(n@),
            XmlEvent::End(n) => XmlToken::End(n@),
            XmlEvent::Text(t) => XmlToken::Text(t@),
            XmlEvent::Empty(n) => XmlToken::Empty(n@),
            XmlEvent::Other => XmlToken::Other,
        }
    }
}

pub open spec fn event_views(v: Seq<XmlEvent>) -> Seq<XmlToken> {
    v.map_values(|e: XmlEvent| e@)
}

/// The events of an XML document, up to its end or its first error.
pub uninterp spec fn xml_tokens(xml: Seq<char>) -> Seq<XmlToken>;

/// Whether the reader reaches the end of the document without a reader or
/// unescaping error.
pub uninterp spec fn xml_well_formed(xml: Seq<char>) -> bool;

/// Relies on quick_xml's `Reader::read_event` and `BytesText::unescape`:
/// the events of the document in order, up to the end of input or the first
/// reader or unescaping error, and whether the end was reached without error.
#[verifier::external_body]
fn xml_events(xml: &str) -> (r: (Vec<XmlEvent>, bool))
    ensures
        event_views(r.0@) == xml_tokens(xml@),
        r.1 == xml_well_formed(xml@),
{
    let mut reader = Reader::from_str(xml);
    let mut out = Vec::new();
    loop {
        out.push(match reader.read_event() {
            Ok(Start(e)) => XmlEvent::Start(String::from_utf8_lossy(e.name().0).into()),
            Ok(End(e)) => XmlEvent::End(String::from_utf8_lossy(e.name().0).into()),
            Ok(Empty(e)) => XmlEvent::Empty(String::from_utf8_lossy(e.name().0).into()),
            Ok(Text(t)) => match t.unescape() { Ok(s) => XmlEvent::Text(s.into_owned()), _ => return (out, false) },
            Ok(Eof) => return (out, true),
            Ok(_) => XmlEvent::Other,
            _ => return (out, false),
        });
    }
}

/// The element whose character data is being read.
#[derive(Debug, Clone, Copy, PartialEq, Eq, Structural)]
pub enum ReadingState {
    ID,
    OldID,
    Origin,
    URL,
    Nature,
    Title,
    DecisionDate,
    Jurisdiction,
    JuriCode,
    Requester,
    President,
    Lawyers,
    Rapporteur,
    GovernmentCommissioner,
    ECLICode,
    Text,
}

/// The field read from an element, by tag name.
pub open spec fn state_for_tag(t: Seq<char>) -> Option<ReadingState> {
    if t == "ID"@ {
        Some(ReadingState::ID)
    } else if t == "ANCIEN_ID"@ {
        Some(ReadingState::OldID)
    } else if t == "ORIGINE"@ {
        Some(ReadingState::Origin)
    } else if t == "URL"@ {
        Some(ReadingState::URL)
    } else if t == "NATURE"@ {
        Some(ReadingState::Nature)
    } else if t == "TITRE"@ {
        Some(ReadingState::Title)
    } else if t == "DATE_DEC"@ {
        Some(ReadingState::DecisionDate)
    } else if t == "JURIDICTION"@ {
        Some(ReadingState::Jurisdiction)
    } else if t == "NUMERO"@ {
        Some(ReadingState::JuriCode)
    } else if t == "DEMANDEUR"@ {
        Some(ReadingState::Requester)
    } else if t == "PRESIDENT"@ {
        Some(ReadingState::President)
    } else if t == "AVOCATS"@ {
        Some(ReadingState::Lawyers)
    } else if t == "RAPPORTEUR"@ {
        Some(ReadingState::Rapporteur)
    } else if t == "COMMISSAIRE_GVT"@ {
        Some(ReadingState::GovernmentCommissioner)
    } else if t == "ECLI"@ {
        Some(ReadingState::ECLICode)
    } else if t == "CONTENU"@ {
        Some(ReadingState::Text)
    } else {
        None
    }
}

/// The field read from an element with tag `e`, if it is one of the recognised tags.
pub fn event_to_reading_state(e: &str) -> (r: Option<ReadingState>)
    ensures
        r == state_for_tag(e@),
{
    if str_eq(e, "ID") {
        Some(ReadingState::ID)
    } else if str_eq(e, "ANCIEN_ID") {
        Some(ReadingState::OldID)
    } else if str_eq(e, "ORIGINE") {
        Some(ReadingState::Origin)
    } else if str_eq(e, "URL") {
        Some(ReadingState::URL)
    } else if str_eq(e, "NATURE") {
        Some(ReadingState::Nature)
    } else if str_eq(e, "TITRE") {
        Some(ReadingState::Title)
    } else if str_eq(e, "DATE_DEC") {
        Some(ReadingState::DecisionDate)
    } else if str_eq(e, "JURIDICTION") {
        Some(ReadingState::Jurisdiction)
    } else if str_eq(e, "NUMERO") {
        Some(ReadingState::JuriCode)
    } else if str_eq(e, "DEMANDEUR") {
        Some(ReadingState::Requester)
    } else if str_eq(e, "PRESIDENT") {
        Some(ReadingState::President)
    } else if str_eq(e, "AVOCATS") {
        Some(ReadingState::Lawyers)
    } else if str_eq(e, "RAPPORTEUR") {
        Some(ReadingState::Rapporteur)
    } else if str_eq(e, "COMMISSAIRE_GVT") {
        Some(ReadingState::GovernmentCommissioner)
    } else if str_eq(e, "ECLI") {
        Some(ReadingState::ECLICode)
    } else if str_eq(e, "CONTENU") {
        Some(ReadingState::Text)
    } else {
        None
    }
}


/// Metadata and text of a decision from the DILA database, as found in
/// its XML file (not normalised).
#[derive(Debug, Clone, PartialEq, Eq)]
pub struct PreDilaText {
    /// Identifier of the decision in the DILA database.
    pub id: String,
    /// Identifier of the decision before the 2015 reform.
    pub oldid: String,
    /// Dataset of origin (e.g. "CETAT").
    pub origin: String,
    /// Path of the XML file in the DILA archive.
    pub url: String,
    /// Kind of decision (e.g. "Texte", "Arrêt", "Ordonnance").
    pub nature: String,
    /// Title of the decision.
    pub title: Option<String>,
    /// Date of the decision, `YYYY-MM-DD`.
    pub decision_date: Option<String>,
    /// Jurisdiction (e.g. "Conseil d'État").
    pub jurisdiction: Option<String>,
    /// Number of the decision within its jurisdiction.
    pub juri_code: Option<String>,
    /// The party that made the request.
    pub requester: Option<String>,
    /// The presiding judge.
    pub president: Option<String>,
    /// The lawyers.
    pub lawyers: Option<String>,
    /// The reporting judge.
    pub rapporteur: Option<String>,
    /// The government commissioner.
    pub government_commissioner: Option<String>,
    /// European Case Law Identifier.
    pub ecli_code: Option<String>,
    /// Full text of the decision (`<br/>` markers kept).
    pub text: String,
}

/// The value of a [`PreDilaText`].
pub struct RecordView {
    pub id: Seq<char>,
    pub oldid: Seq<char>,
    pub origin: Seq<char>,
    pub url: Seq<char>,
    pub nature: Seq<char>,
    pub title: Option<Seq<char>>,
    pub decision_date: Option<Seq<char>>,
    pub jurisdiction: Option<Seq<char>>,
    pub juri_code: Option<Seq<char>>,
    pub requester: Option<Seq<char>>,
    pub president: Option<Seq<char>>,
    pub lawyers: Option<Seq<char>>,
    pub rapporteur: Option<Seq<char>>,
    pub government_commissioner: Option<Seq<char>>,
    pub ecli_code: Option<Seq<char>>,
    pub text: Seq<char>,
}

pub open spec fn opt_view(o: Option<String>) -> Option<Seq<char>> {
    match o {
        Some(s) => Some(s@),
        None => None,
    }
}

impl View for PreDilaText {
    type V = RecordView;

    open spec fn view(&self) -> RecordView {
        RecordView {
            id: self.id@,
            oldid: self.oldid@,
            origin: self.origin@,
            url: self.url@,
            nature: self.nature@,
            title: opt_view(self.title),
            decision_date: opt_view(self.decision_date),
            jurisdiction: opt_view(self.jurisdiction),
            juri_code: opt_view(self.juri_code),
            requester: opt_view(self.requester),
            president: opt_view(self.president),
            lawyers: opt_view(self.lawyers),
            rapporteur: opt_view(self.rapporteur),
            government_commissioner: opt_view(self.government_commissioner),
            ecli_code: opt_view(self.ecli_code),
            text: self.text@,
        }
    }
}

/// The record before any element was read: empty required fields, no optional field.
pub open spec fn empty_record() -> RecordView {
    RecordView {
        id: Seq::empty(),
        oldid: Seq::empty(),
        origin: Seq::empty(),
        url: Seq::empty(),
        nature: Seq::empty(),
        title: None,
        decision_date: None,
        jurisdiction: None,
        juri_code: None,
        requester: None,
        president: None,
        lawyers: None,
        rapporteur: None,
        government_commissioner: None,
        ecli_code: None,
        text: Seq::empty(),
    }
}

/// Character data `t` read in state `st`: it replaces a scalar field, and is
/// appended to the text.
pub open spec fn apply_text(r: RecordView, st: ReadingState, t: Seq<char>) -> RecordView {
    match st {
        ReadingState::ID => RecordView { id: t, ..r },
        ReadingState::OldID => RecordView { oldid: t, ..r },
        ReadingState::Origin => RecordView { origin: t, ..r },
        ReadingState::URL => RecordView { url: t, ..r },
        ReadingState::Nature => RecordView { nature: t, ..r },
        ReadingState::Title => RecordView { title: Some(t), ..r },
        ReadingState::DecisionDate => RecordView { decision_date: Some(t), ..r },
        ReadingState::Jurisdiction => RecordView { jurisdiction: Some(t), ..r },
        ReadingState::JuriCode => RecordView { juri_code: Some(t), ..r },
        ReadingState::Requester => RecordView { requester: Some(t), ..r },
        ReadingState::President => RecordView { president: Some(t), ..r },
        ReadingState::Lawyers => RecordView { lawyers: Some(t), ..r },
        ReadingState::Rapporteur => RecordView { rapporteur: Some(t), ..r },
        ReadingState::GovernmentCommissioner => RecordView { government_commissioner: Some(t), ..r },
        ReadingState::ECLICode => RecordView { ecli_code: Some(t), ..r },
        ReadingState::Text => RecordView { text: r.text + t, ..r },
    }
}

/// The marker kept in the text for an empty element: `<name/>`.
pub open spec fn empty_marker(n: Seq<char>) -> Seq<char> {
    "<"@ + n + "/>"@
}

/// One step of the parser: an opening recognised tag selects its field, the
/// matching closing tag ends it, character data goes to the selected field,
/// and an empty element read inside the text is kept there as `<name/>`.
pub open spec fn step(s: (RecordView, Option<ReadingState>), e: XmlToken) -> (
    RecordView,
    Option<ReadingState>,
) {
    match e {
        XmlToken::Start(n) => match state_for_tag(n) {
            Some(st) => (s.0, Some(st)),
            None => s,
        },
        XmlToken::End(n) => if state_for_tag(n) == s.1 {
            (s.0, None)
        } else {
            s
        },
        XmlToken::Text(t) => match s.1 {
            Some(st) => (apply_text(s.0, st, t), s.1),
            None => s,
        },
        XmlToken::Empty(n) => if s.1 == Some(ReadingState::Text) {
            (RecordView { text: s.0.text + empty_marker(n), ..s.0 }, s.1)
        } else {
            s
        },
        XmlToken::Other => s,
    }
}

/// The parser's record and state after a sequence of events.
pub open spec fn run(events: Seq<XmlToken>) -> (RecordView, Option<ReadingState>)
    decreases events.len(),
{
    if events.len() == 0 {
        (empty_record(), None)
    } else {
        step(run(events.drop_last()), events.last())
    }
}

/// The record read from a sequence of events.
pub open spec fn record_of_events(events: Seq<XmlToken>) -> RecordView {
    run(events).0
}

impl PreDilaText {
    /// The empty record.
    pub fn new() -> (r: PreDilaText)
        ensures
            r@ == empty_record(),
    {
        PreDilaText {
            id: String::new(),
            oldid: String::new(),
            origin: String::new(),
            url: String::new(),
            nature: String::new(),
            title: None,
            decision_date: None,
            jurisdiction: None,
            juri_code: None,
            requester: None,
            president: None,
            lawyers: None,
            rapporteur: None,
            government_commissioner: None,
            ecli_code: None,
            text: String::new(),
        }
    }
}

impl Default for PreDilaText {
    fn default() -> (r: PreDilaText)
        ensures
            r@ == empty_record(),
    {
        PreDilaText::new()
    }
}

/// Stores the character data `text` read in `reading_state` into the record.
pub fn update_pre_dila(pre_dila: &mut PreDilaText, reading_state: &Option<ReadingState>, text: &str)
    ensures
        final(pre_dila)@ == match *reading_state {
            Some(st) => apply_text(old(pre_dila)@, st, text@),
            None => old(pre_dila)@,
        },
{
    if let Some(state) = reading_state {
        match state {
            ReadingState::ID => pre_dila.id = owned(text),
            ReadingState::OldID => pre_dila.oldid = owned(text),
            ReadingState::Origin => pre_dila.origin = owned(text),
            ReadingState::URL => pre_dila.url = owned(text),
            ReadingState::Nature => pre_dila.nature = owned(text),
            ReadingState::Title => pre_dila.title = Some(owned(text)),
            ReadingState::DecisionDate => pre_dila.decision_date = Some(owned(text)),
            ReadingState::Jurisdiction => pre_dila.jurisdiction = Some(owned(text)),
            ReadingState::JuriCode => pre_dila.juri_code = Some(owned(text)),
            ReadingState::Requester => pre_dila.requester = Some(owned(text)),
            ReadingState::President => pre_dila.president = Some(owned(text)),
            ReadingState::Lawyers => pre_dila.lawyers = Some(owned(text)),
            ReadingState::Rapporteur => pre_dila.rapporteur = Some(owned(text)),
            ReadingState::GovernmentCommissioner => {
                pre_dila.government_commissioner = Some(owned(text))
            },
            ReadingState::ECLICode => pre_dila.ecli_code = Some(owned(text)),
            ReadingState::Text => pre_dila.text.append(text),
        }
    }
}

fn same_state(a: &Option<ReadingState>, b: &Option<ReadingState>) -> (r: bool)
    ensures
        r == (*a == *b),
{
    match (a, b) {
        (Some(x), Some(y)) => *x == *y,
        (None, None) => true,
        _ => false,
    }
}

/// Runs the parser over a sequence of events and returns the record read.
pub fn record_from_events(events: &Vec<XmlEvent>) -> (r: PreDilaText)
    ensures
        r@ == record_of_events(event_views(events@)),
{
    let ghost ev = event_views(events@);
    let mut pre_dila = PreDilaText::new();
    let mut reading_state: Option<ReadingState> = None;
    let mut i: usize = 0;
    assert(ev.subrange(0, 0) =~= Seq::<XmlToken>::empty());
    while i < events.len()
        invariant
            i <= events.len(),
            ev == event_views(events@),
            (pre_dila@, reading_state) == run(ev.subrange(0, i as int)),
        decreases events.len() - i,
    {
        assert(ev.subrange(0, i + 1).drop_last() =~= ev.subrange(0, i as int));
        assert(ev.subrange(0, i + 1).last() == events@[i as int]@);
        match &events[i] {
            XmlEvent::Start(name) => {
                if let Some(s) = event_to_reading_state(name.as_str()) {
                    reading_state = Some(s);
                }
            },
            XmlEvent::End(name) => {
                let s = event_to_reading_state(name.as_str());
                if same_state(&s, &reading_state) {
                    reading_state = None;
                }
            },
            XmlEvent::Text(t) => {
                update_pre_dila(&mut pre_dila, &reading_state, t.as_str());
            },
            XmlEvent::Empty(name) => {
                if same_state(&reading_state, &Some(ReadingState::Text)) {
                    let ghost before = pre_dila.text@;
                    pre_dila.text.append("<");
                    pre_dila.text.append(name.as_str());
                    pre_dila.text.append("/>");
                    assert(pre_dila.text@ =~= before + empty_marker(name@));
                }
            },
            XmlEvent::Other => {},
        }
        i += 1;
    }
    assert(ev.subrange(0, i as int) =~= ev);
    pre_dila
}

/// The error returned for a document that cannot be read to its end.
#[derive(Debug, Clone, Copy, PartialEq, Eq, Structural)]
pub struct XmlMalformed;

/// Reads the record of an XML document, or `XmlMalformed` when the document
/// cannot be read to its end.
pub fn pre_dila_from_str(xml: &str) -> (r: Result<PreDilaText, XmlMalformed>)
    ensures
        xml_well_formed(xml@) ==> r is Ok && r->Ok_0@ == record_of_events(xml_tokens(xml@)),
        !xml_well_formed(xml@) ==> r == Err::<PreDilaText, XmlMalformed>(XmlMalformed),
{
    let (events, complete) = xml_events(xml);
    if !complete {
        return Err(XmlMalformed);
    }
    Ok(record_from_events(&events))
}


/// The total count recorded for key `k` in a list of (key, count) entries.
pub open spec fn count_in<K>(e: Seq<(K, nat)>, k: K) -> nat
    decreases e.len(),
{
    if e.len() == 0 {
        0
    } else {
        count_in(e.drop_last(), k) + if e.last().0 == k {
            e.last().1
        } else {
            0
        }
    }
}

/// The number of times `k` occurs in `s`.
pub open spec fn occurrences<K>(s: Seq<K>, k: K) -> nat
    decreases s.len(),
{
    if s.len() == 0 {
        0
    } else {
        occurrences(s.drop_last(), k) + if s.last() == k {
            1nat
        } else {
            0nat
        }
    }
}

/// Adding one to entry `i` adds one to the count of its key only; an entry is at most its key's count.
proof fn lemma_count_update<K>(e: Seq<(K, nat)>, i: int, k: K)
    requires
        0 <= i < e.len(),
    ensures
        count_in(e.update(i, (e[i].0, e[i].1 + 1)), k) == count_in(e, k) + if e[i].0 == k {
            1nat
        } else {
            0nat
        },
        e[i].0 == k ==> e[i].1 <= count_in(e, k),
    decreases e.len(),
{
    let u = e.update(i, (e[i].0, e[i].1 + 1));
    if i == e.len() - 1 {
        assert(u.drop_last() =~= e.drop_last());
    } else {
        assert(u.drop_last() =~= e.drop_last().update(i, (e[i].0, e[i].1 + 1)));
        lemma_count_update(e.drop_last(), i, k);
    }
}

/// A new entry `(key, 1)` adds one to the count of `key` only.
proof fn lemma_count_push<K>(e: Seq<(K, nat)>, key: K, k: K)
    ensures
        count_in(e.push((key, 1)), k) == count_in(e, k) + if key == k {
            1nat
        } else {
            0nat
        },
{
    assert(e.push((key, 1)).drop_last() =~= e);
}

/// The sum of all counts.
pub open spec fn count_sum<K>(e: Seq<(K, nat)>) -> nat
    decreases e.len(),
{
    if e.len() == 0 {
        0
    } else {
        count_sum(e.drop_last()) + e.last().1
    }
}

/// The count of one key is at most the sum of all counts.
proof fn lemma_count_le_sum<K>(e: Seq<(K, nat)>, k: K)
    ensures
        count_in(e, k) <= count_sum(e),
    decreases e.len(),
{
    if e.len() > 0 {
        lemma_count_le_sum(e.drop_last(), k);
    }
}

/// Adding one to an entry adds one to the sum.
proof fn lemma_sum_update<K>(e: Seq<(K, nat)>, i: int)
    requires
        0 <= i < e.len(),
    ensures
        count_sum(e.update(i, (e[i].0, e[i].1 + 1))) == count_sum(e) + 1,
    decreases e.len(),
{
    let u = e.update(i, (e[i].0, e[i].1 + 1));
    if i == e.len() - 1 {
        assert(u.drop_last() =~= e.drop_last());
    } else {
        assert(u.drop_last() =~= e.drop_last().update(i, (e[i].0, e[i].1 + 1)));
        lemma_sum_update(e.drop_last(), i);
    }
}

/// The entries of a prefix count no more than all entries.
proof fn lemma_count_prefix<K>(e: Seq<(K, nat)>, i: int, k: K)
    requires
        0 <= i <= e.len(),
    ensures
        count_in(e.subrange(0, i), k) <= count_in(e, k),
    decreases e.len(),
{
    if i == e.len() {
        assert(e.subrange(0, i) =~= e);
    } else {
        assert(e.drop_last().subrange(0, i) =~= e.subrange(0, i));
        lemma_count_prefix(e.drop_last(), i, k);
    }
}

/// The number of opening and closing tags seen for each tag name.
pub struct TagCount {
    entries: Vec<(String, usize)>,
    total: usize,
}

pub open spec fn tag_entries(v: Seq<(String, usize)>) -> Seq<(Seq<char>, nat)> {
    v.map_values(|p: (String, usize)| (p.0@, p.1 as nat))
}

/// The tag names of a sequence of events: one for each opening or closing
/// tag, two for each empty-element tag (it opens and closes its element).
pub open spec fn tag_names(events: Seq<XmlToken>) -> Seq<Seq<char>>
    decreases events.len(),
{
    if events.len() == 0 {
        Seq::empty()
    } else {
        let rest = tag_names(events.drop_last());
        match events.last() {
            XmlToken::Start(n) => rest.push(n),
            XmlToken::End(n) => rest.push(n),
            XmlToken::Empty(n) => rest.push(n).push(n),
            _ => rest,
        }
    }
}

impl TagCount {
    /// The count for tag name `k`.
    pub closed spec fn count(&self, k: Seq<char>) -> nat {
        count_in(tag_entries(self.entries@), k)
    }

    /// The sum of the counts of all tags.
    pub closed spec fn sum(&self) -> nat {
        count_sum(tag_entries(self.entries@))
    }

    pub closed spec fn wf(&self) -> bool {
        self.total as nat == self.sum()
    }

    /// No tag seen yet.
    pub fn new() -> (r: TagCount)
        ensures
            r.wf(),
            r.sum() == 0,
            forall|k: Seq<char>| r.count(k) == 0,
    {
        let r = TagCount { entries: Vec::new(), total: 0 };
        assert(tag_entries(r.entries@) =~= Seq::<(Seq<char>, nat)>::empty());
        r
    }

    /// The sum of the counts of all tags.
    pub fn total(&self) -> (r: usize)
        requires
            self.wf(),
        ensures
            r == self.sum(),
    {
        self.total
    }

    /// The count for tag name `k`.
    pub fn get(&self, k: &str) -> (r: usize)
        requires
            self.wf(),
        ensures
            r == self.count(k@),
    {
        let ghost e = tag_entries(self.entries@);
        proof {
            lemma_count_le_sum(e, k@);
        }
        let mut i: usize = 0;
        let mut total: usize = 0;
        assert(e.subrange(0, 0) =~= Seq::<(Seq<char>, nat)>::empty());
        while i < self.entries.len()
            invariant
                self.wf(),
                i <= self.entries.len(),
                e == tag_entries(self.entries@),
                count_in(e, k@) <= self.total,
                total == count_in(e.subrange(0, i as int), k@),
            decreases self.entries.len() - i,
        {
            assert(e.subrange(0, i + 1).drop_last() =~= e.subrange(0, i as int));
            proof {
                lemma_count_prefix(e, i + 1, k@);
            }
            if str_eq(self.entries[i].0.as_str(), k) {
                total = total + self.entries[i].1;
            }
            i += 1;
        }
        assert(e.subrange(0, i as int) =~= e);
        total
    }

    /// The tag names seen, with their counts.
    pub fn entries(&self) -> (r: &Vec<(String, usize)>)
        ensures
            forall|k: Seq<char>| self.count(k) == count_in(tag_entries(r@), k),
    {
        &self.entries
    }

    /// Adds one to the count of `k`.
    fn bump(&mut self, k: &str)
        requires
            old(self).wf(),
            old(self).sum() < usize::MAX,
        ensures
            final(self).wf(),
            final(self).sum() == old(self).sum() + 1,
            forall|j: Seq<char>|
                final(self).count(j) == old(self).count(j) + if j == k@ {
                    1nat
                } else {
                    0nat
                },
    {
        let ghost e = tag_entries(self.entries@);
        let mut i: usize = 0;
        while i < self.entries.len() && !str_eq(self.entries[i].0.as_str(), k)
            invariant
                i <= self.entries.len(),
                e == tag_entries(self.entries@),
                *self == *old(self),
            decreases self.entries.len() - i,
        {
            i += 1;
        }
        if i < self.entries.len() {
            proof {
                lemma_count_update(e, i as int, k@);
                lemma_count_le_sum(e, k@);
                lemma_sum_update(e, i as int);
            }
            let c = self.entries[i].1;
            let name = self.entries[i].0.clone();
            self.entries.set(i, (name, c + 1));
            self.total = self.total + 1;
            proof {
                assert(tag_entries(self.entries@) =~= e.update(
                    i as int,
                    (e[i as int].0, e[i as int].1 + 1),
                ));
                assert forall|j: Seq<char>|
                    self.count(j) == old(self).count(j) + if j == k@ {
                        1nat
                    } else {
                        0nat
                    } by {
                    lemma_count_update(e, i as int, j);
                }
            }
        } else {
            self.entries.push((owned(k), 1));
            self.total = self.total + 1;
            proof {
                assert(tag_entries(self.entries@) =~= e.push((k@, 1nat)));
                assert(tag_entries(self.entries@).drop_last() =~= e);
                assert forall|j: Seq<char>|
                    self.count(j) == old(self).count(j) + if j == k@ {
                        1nat
                    } else {
                        0nat
                    } by {
                    lemma_count_push(e, k@, j);
                }
            }
        }
    }
}


/// Counts the tags of a sequence of events, by name: opening and closing tags
/// once each, empty-element tags twice.
pub fn count_tags_in_events(events: &Vec<XmlEvent>, tag_count: &mut TagCount)
    requires
        old(tag_count).wf(),
        old(tag_count).sum() + 2 * events.len() <= usize::MAX,
    ensures
        final(tag_count).wf(),
        forall|k: Seq<char>|
            final(tag_count).count(k) == old(tag_count).count(k) + occurrences(
                tag_names(event_views(events@)),
                k,
            ),
{
    let ghost ev = event_views(events@);
    let mut i: usize = 0;
    assert(ev.subrange(0, 0) =~= Seq::<XmlToken>::empty());
    while i < events.len()
        invariant
            i <= events.len(),
            ev == event_views(events@),
            tag_count.wf(),
            tag_count.sum() <= old(tag_count).sum() + 2 * i,
            old(tag_count).sum() + 2 * events.len() <= usize::MAX,
            forall|k: Seq<char>|
                tag_count.count(k) == old(tag_count).count(k) + occurrences(
                    tag_names(ev.subrange(0, i as int)),
                    k,
                ),
        decreases events.len() - i,
    {
        let ghost pre = tag_names(ev.subrange(0, i as int));
        assert(ev.subrange(0, i + 1).drop_last() =~= ev.subrange(0, i as int));
        assert(ev.subrange(0, i + 1).last() == events@[i as int]@);
        match &events[i] {
            XmlEvent::Start(name) => {
                tag_count.bump(name.as_str());
                assert(pre.push(name@).drop_last() =~= pre);
            },
            XmlEvent::End(name) => {
                tag_count.bump(name.as_str());
                assert(pre.push(name@).drop_last() =~= pre);
            },
            XmlEvent::Empty(name) => {
                tag_count.bump(name.as_str());
                tag_count.bump(name.as_str());
                assert(pre.push(name@).drop_last() =~= pre);
                assert(pre.push(name@).push(name@).drop_last() =~= pre.push(name@));
                assert forall|k: Seq<char>|
                    occurrences(pre.push(name@).push(name@), k) == occurrences(pre, k) + if name@
                        == k {
                        2nat
                    } else {
                        0nat
                    } by {
                    assert(occurrences(pre.push(name@), k) == occurrences(pre, k) + if name@ == k {
                        1nat
                    } else {
                        0nat
                    });
                }
            },
            _ => {},
        }
        i += 1;
    }
    assert(ev.subrange(0, i as int) =~= ev);
}

/// Counts the opening and closing tags of an XML document, by name: each
/// element adds two to the count of its tag. Returns false, leaving the counts
/// unchanged, when they could grow past `usize::MAX`.
pub fn count_tags(xml: &str, tag_count: &mut TagCount) -> (r: bool)
    requires
        old(tag_count).wf(),
    ensures
        final(tag_count).wf(),
        r == (old(tag_count).sum() + 2 * xml_tokens(xml@).len() <= usize::MAX),
        r ==> forall|k: Seq<char>|
            final(tag_count).count(k) == old(tag_count).count(k) + occurrences(
                tag_names(xml_tokens(xml@)),
                k,
            ),
        !r ==> *final(tag_count) == *old(tag_count),
{
    let (events, _) = xml_events(xml);
    assert(events@.len() == event_views(events@).len());
    if events.len() > (usize::MAX - tag_count.total()) / 2 {
        return false;
    }
    count_tags_in_events(&events, tag_count);
    true
}

/// A law article cited in a text: a one-letter code prefix and a number
/// (as in `R. 421-1`).
#[derive(Debug, Clone, PartialEq, Eq, Hash)]
pub struct LawCode {
    pub prefix: String,
    pub number: String,
}

/// The (prefix, number) pairs of the successive matches of `([A-Z])\.\s+([0-9-]+)`.
pub uninterp spec fn law_citations_in(s: Seq<char>) -> Seq<(Seq<char>, Seq<char>)>;

#[verifier::external_type_specification]
#[verifier::external_body]
pub struct ExRegex(regex::Regex);

/// The compiled law-citation pattern `([A-Z])\.\s+([0-9-]+)`, built once by
/// [`law_regex`] and reused for every text scanned.
pub struct LawPattern {
    re: regex::Regex,
}

/// Relies on `regex::Regex::new`: it compiles the constant, valid pattern
/// `([A-Z])\.\s+([0-9-]+)`, which is the only pattern a `LawPattern` holds.
#[verifier::external_body]
pub fn law_regex() -> LawPattern {
    LawPattern { re: regex::Regex::new(r"([A-Z])\.\s+([0-9-]+)").unwrap() }
}

/// Relies on `regex::Regex::captures_iter` with the law-citation pattern
/// (the only one a `LawPattern` holds): the two groups of each successive
/// non-overlapping match, in order. Each match spans at least four
/// characters, so there are no more matches than characters.
#[verifier::external_body]
fn find_law_citations(pattern: &LawPattern, s: &str) -> (r: Vec<(String, String)>)
    ensures
        r@.map_values(|p: (String, String)| (p.0@, p.1@)) == law_citations_in(s@),
        r@.len() <= s@.len(),
{
    pattern.re.captures_iter(s).map(|c| (c[1].to_string(), c[2].to_string())).collect()
}

pub open spec fn law_entries(v: Seq<(LawCode, usize)>) -> Seq<((Seq<char>, Seq<char>), nat)> {
    v.map_values(|p: (LawCode, usize)| ((p.0.prefix@, p.0.number@), p.1 as nat))
}

/// The number of citations seen for each law article.
pub struct LawCount {
    entries: Vec<(LawCode, usize)>,
    total: usize,
}

impl LawCount {
    /// The count for the article `(prefix, number)`.
    pub closed spec fn count(&self, k: (Seq<char>, Seq<char>)) -> nat {
        count_in(law_entries(self.entries@), k)
    }

    /// The sum of the counts of all articles.
    pub closed spec fn sum(&self) -> nat {
        count_sum(law_entries(self.entries@))
    }

    pub closed spec fn wf(&self) -> bool {
        self.total as nat == self.sum()
    }

    /// No citation seen yet.
    pub fn new() -> (r: LawCount)
        ensures
            r.wf(),
            r.sum() == 0,
            forall|k: (Seq<char>, Seq<char>)| r.count(k) == 0,
    {
        let r = LawCount { entries: Vec::new(), total: 0 };
        assert(law_entries(r.entries@) =~= Seq::<((Seq<char>, Seq<char>), nat)>::empty());
        r
    }

    /// The sum of the counts of all articles.
    pub fn total(&self) -> (r: usize)
        requires
            self.wf(),
        ensures
            r == self.sum(),
    {
        self.total
    }

    /// The count for the article `(prefix, number)`.
    pub fn get(&self, prefix: &str, number: &str) -> (r: usize)
        requires
            self.wf(),
        ensures
            r == self.count((prefix@, number@)),
    {
        let ghost e = law_entries(self.entries@);
        let ghost k = (prefix@, number@);
        proof {
            lemma_count_le_sum(e, k);
        }
        let mut i: usize = 0;
        let mut total: usize = 0;
        assert(e.subrange(0, 0) =~= Seq::<((Seq<char>, Seq<char>), nat)>::empty());
        while i < self.entries.len()
            invariant
                self.wf(),
                i <= self.entries.len(),
                e == law_entries(self.entries@),
                k == (prefix@, number@),
                count_in(e, k) <= self.total,
                total == count_in(e.subrange(0, i as int), k),
            decreases self.entries.len() - i,
        {
            assert(e.subrange(0, i + 1).drop_last() =~= e.subrange(0, i as int));
            proof {
                lemma_count_prefix(e, i + 1, k);
            }
            let code = &self.entries[i].0;
            if str_eq(code.prefix.as_str(), prefix) && str_eq(code.number.as_str(), number) {
                total = total + self.entries[i].1;
            }
            i += 1;
        }
        assert(e.subrange(0, i as int) =~= e);
        total
    }

    /// The articles seen, with their counts.
    pub fn entries(&self) -> (r: &Vec<(LawCode, usize)>)
        ensures
            forall|k: (Seq<char>, Seq<char>)| self.count(k) == count_in(law_entries(r@), k),
    {
        &self.entries
    }

    /// Adds one to the count of `(prefix, number)`.
    fn bump(&mut self, prefix: String, number: String)
        requires
            old(self).wf(),
            old(self).sum() < usize::MAX,
        ensures
            final(self).wf(),
            final(self).sum() == old(self).sum() + 1,
            forall|j: (Seq<char>, Seq<char>)|
                final(self).count(j) == old(self).count(j) + if j == (prefix@, number@) {
                    1nat
                } else {
                    0nat
                },
    {
        let ghost e = law_entries(self.entries@);
        let ghost k = (prefix@, number@);
        let mut i: usize = 0;
        while i < self.entries.len() && !(str_eq(self.entries[i].0.prefix.as_str(), prefix.as_str())
            && str_eq(self.entries[i].0.number.as_str(), number.as_str()))
            invariant
                i <= self.entries.len(),
                e == law_entries(self.entries@),
                *self == *old(self),
            decreases self.entries.len() - i,
        {
            i += 1;
        }
        if i < self.entries.len() {
            proof {
                lemma_count_update(e, i as int, k);
                lemma_count_le_sum(e, k);
                lemma_sum_update(e, i as int);
            }
            let c = self.entries[i].1;
            let code = LawCode {
                prefix: self.entries[i].0.prefix.clone(),
                number: self.entries[i].0.number.clone(),
            };
            self.entries.set(i, (code, c + 1));
            self.total = self.total + 1;
            proof {
                assert(law_entries(self.entries@) =~= e.update(
                    i as int,
                    (e[i as int].0, e[i as int].1 + 1),
                ));
                assert forall|j: (Seq<char>, Seq<char>)|
                    self.count(j) == old(self).count(j) + if j == k {
                        1nat
                    } else {
                        0nat
                    } by {
                    lemma_count_update(e, i as int, j);
                }
            }
        } else {
            self.entries.push((LawCode { prefix, number }, 1));
            self.total = self.total + 1;
            proof {
                assert(law_entries(self.entries@) =~= e.push((k, 1nat)));
                assert(law_entries(self.entries@).drop_last() =~= e);
                assert forall|j: (Seq<char>, Seq<char>)|
                    self.count(j) == old(self).count(j) + if j == k {
                        1nat
                    } else {
                        0nat
                    } by {
                    lemma_count_push(e, k, j);
                }
            }
        }
    }
}


/// Tallies the law articles cited in `s`: each match of `([A-Z])\.\s+([0-9-]+)`
/// adds one to the count of its (prefix, number) pair.
pub fn law_uses(s: &str, count: &mut LawCount)
    requires
        old(count).wf(),
        old(count).sum() + s@.len() <= usize::MAX,
    ensures
        final(count).wf(),
        forall|k: (Seq<char>, Seq<char>)|
            final(count).count(k) == old(count).count(k) + occurrences(law_citations_in(s@), k),
{
    let pattern = law_regex();
    law_uses_with(&pattern, s, count);
}

/// As [`law_uses`], with a pattern compiled once by [`law_regex`] and shared
/// across many texts.
pub fn law_uses_with(pattern: &LawPattern, s: &str, count: &mut LawCount)
    requires
        old(count).wf(),
        old(count).sum() + s@.len() <= usize::MAX,
    ensures
        final(count).wf(),
        forall|k: (Seq<char>, Seq<char>)|
            final(count).count(k) == old(count).count(k) + occurrences(law_citations_in(s@), k),
{
    let found = find_law_citations(pattern, s);
    let ghost cites = found@.map_values(|p: (String, String)| (p.0@, p.1@));
    let mut i: usize = 0;
    assert(cites.subrange(0, 0) =~= Seq::<(Seq<char>, Seq<char>)>::empty());
    while i < found.len()
        invariant
            i <= found.len(),
            found.len() <= s@.len(),
            cites == found@.map_values(|p: (String, String)| (p.0@, p.1@)),
            count.wf(),
            count.sum() <= old(count).sum() + i,
            old(count).sum() + s@.len() <= usize::MAX,
            forall|k: (Seq<char>, Seq<char>)|
                count.count(k) == old(count).count(k) + occurrences(cites.subrange(0, i as int), k),
        decreases found.len() - i,
    {
        assert(cites.subrange(0, i + 1).drop_last() =~= cites.subrange(0, i as int));
        assert(cites.subrange(0, i + 1).last() == (found@[i as int].0@, found@[i as int].1@));
        let prefix = found[i].0.clone();
        let number = found[i].1.clone();
        count.bump(prefix, number);
        i += 1;
    }
    assert(cites.subrange(0, i as int) =~= cites);
}

} // verus!
