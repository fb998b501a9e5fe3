//! Streaming reader of Cobertura coverage documents.
//!
//! The document is a tree of elements. A `class` element at depth 5 opens the
//! record of one source file and names it in its `filename` attribute; `line`
//! elements at depths 6 to 8 inside it give a line `number` and its `hits`.
//! The reader keeps only the current depth and the record in progress.
use crate::coverage::{add_line_spec, empty_file_coverage, CoverageProvider, FileCoverage, FileCoverageView};
use crate::decimal::{decimal_or_zero, parse_u32};
use quick_xml::events::{BytesStart, Event};
use quick_xml::reader::Reader;
use vstd::prelude::*;
use vstd::string::StringSliceAdditionalSpecFns;
use vstd::utf8::{decode_utf8, valid_utf8};

verus! {

/// quick_xml's streaming reader, carried as an opaque value.
#[verifier::external_type_specification]
#[verifier::external_body]
#[verifier::reject_recursive_types(R)]
pub struct ExXmlReader<R>(Reader<R>);

/// quick_xml's start tag, carried as an opaque value.
#[verifier::external_type_specification]
#[verifier::external_body]
pub struct ExBytesStart<'a>(BytesStart<'a>);


/// An attribute as the document writes it: raw name and raw value.
pub struct XmlAttribute {
    pub key: Vec<u8>,
    pub value: Vec<u8>,
}

/// A start tag: its raw name and its attributes, `None` standing for an
/// attribute that could not be read.
pub struct XmlElement {
    pub name: Vec<u8>,
    pub attributes: Vec<Option<XmlAttribute>>,
}

/// One event of the document, as the reader acts on it.
pub enum XmlEvent {
    /// `<name ...>`
    Start(XmlElement),
    /// `<name .../>`: a start and an end at once.
    Empty(XmlElement),
    /// `</name>`
    End(Vec<u8>),
    /// The end of the document.
    Eof,
    /// Input that is not well-formed.
    Malformed,
    /// Text, comments, declarations: nothing that the reader acts on.
    Other,
}

/// What the reader does after an event.
#[derive(Clone, Copy, Debug, PartialEq, Eq, Structural)]
pub enum ReadEventReturn {
    /// The record of a file is complete.
    Return,
    /// Read on.
    Continue,
    /// The sequence of records ends.
    End,
}

/// The value of the first attribute named `key`.
pub open spec fn attribute_value(attrs: Seq<Option<XmlAttribute>>, key: Seq<u8>) -> Option<Seq<u8>>
    decreases attrs.len(),
{
    if attrs.len() == 0 {
        None
    } else if attrs[0] is Some && attrs[0]->0.key@ == key {
        Some(attrs[0]->0.value@)
    } else {
        attribute_value(attrs.drop_first(), key)
    }
}

/// Every attribute could be read.
pub open spec fn attributes_readable(attrs: Seq<Option<XmlAttribute>>) -> bool {
    forall|i: int| 0 <= i < attrs.len() ==> #[trigger] attrs[i] is Some
}

/// The text that UTF-8 bytes encode; empty for bytes that are not UTF-8.
pub open spec fn text_or_empty(b: Seq<u8>) -> Seq<char> {
    if valid_utf8(b) {
        decode_utf8(b)
    } else {
        Seq::empty()
    }
}

/// The effect of a start tag `el` at depth `depth` on the record `f`: the
/// new record, whether the record in progress is to be dropped, and the
/// outcome. A `class` without `filename`, or with an attribute that does
/// not decode, opens a record that is dropped; a `line` with such an
/// attribute, or without `number` or `hits`, is skipped. Reading goes on in
/// every case.
pub open spec fn start_spec(depth: nat, dropping: bool, el: XmlElement, f: FileCoverageView) -> (
    FileCoverageView,
    bool,
    ReadEventReturn,
) {
    let readable = attributes_readable(el.attributes@);
    if el.name@ == "class".spec_bytes() && depth == 5 {
        match if readable {
            attribute_value(el.attributes@, "filename".spec_bytes())
        } else {
            None
        } {
            Some(v) => (
                FileCoverageView { path: text_or_empty(v), lines: Map::empty() },
                false,
                ReadEventReturn::Continue,
            ),
            None => (empty_file_coverage(), true, ReadEventReturn::Continue),
        }
    } else if el.name@ == "line".spec_bytes() && 6 <= depth <= 8 {
        let number = attribute_value(el.attributes@, "number".spec_bytes());
        let hits = attribute_value(el.attributes@, "hits".spec_bytes());
        if readable && number is Some && hits is Some {
            (
                add_line_spec(f, decimal_or_zero(number->0), decimal_or_zero(hits->0) > 0),
                dropping,
                ReadEventReturn::Continue,
            )
        } else {
            (f, dropping, ReadEventReturn::Continue)
        }
    } else {
        (f, dropping, ReadEventReturn::Continue)
    }
}

/// A `line` entry whose number reads as zero, or does not read as a number,
/// leaves the record as it is, whatever its hit count.
pub proof fn lemma_line_zero_is_dropped(depth: nat, dropping: bool, el: XmlElement, f: FileCoverageView)
    requires
        el.name@ == "line".spec_bytes(),
        attribute_value(el.attributes@, "number".spec_bytes()) matches Some(n) && decimal_or_zero(n) == 0,
    ensures
        start_spec(depth, dropping, el, f).0 == f,
{
    reveal_strlit("line");
    reveal_strlit("class");
    vstd::string::is_ascii_spec_bytes("line");
    vstd::string::is_ascii_spec_bytes("class");
    assert("line".spec_bytes().len() != "class".spec_bytes().len());
}

/// The effect of an end tag named `name` at depth `depth`: the end of a
/// file's `class` completes its record, unless the record is dropped.
pub open spec fn end_spec(depth: nat, dropping: bool, name: Seq<u8>) -> (bool, ReadEventReturn) {
    if name == "class".spec_bytes() && depth == 5 {
        (false, if dropping { ReadEventReturn::Continue } else { ReadEventReturn::Return })
    } else {
        (dropping, ReadEventReturn::Continue)
    }
}

/// The depth, the dropping mark, the record and the outcome after `e`.
pub open spec fn event_spec(depth: nat, dropping: bool, e: XmlEvent, f: FileCoverageView) -> (
    nat,
    bool,
    FileCoverageView,
    ReadEventReturn,
) {
    match e {
        XmlEvent::Start(el) => {
            if depth >= u32::MAX {
                (depth, dropping, f, ReadEventReturn::End)
            } else {
                let (g, dr, r) = start_spec(depth + 1, dropping, el, f);
                (depth + 1, dr, g, r)
            }
        },
        XmlEvent::Empty(el) => {
            if depth >= u32::MAX {
                (depth, dropping, f, ReadEventReturn::End)
            } else {
                let (g, dr, r) = start_spec(depth + 1, dropping, el, f);
                if r == ReadEventReturn::End {
                    (depth + 1, dr, g, r)
                } else {
                    let (dr2, r2) = end_spec(depth + 1, dr, el.name@);
                    (depth, dr2, g, r2)
                }
            }
        },
        XmlEvent::End(name) => {
            if depth == 0 {
                (depth, dropping, f, ReadEventReturn::End)
            } else {
                let (dr, r) = end_spec(depth, dropping, name@);
                ((depth - 1) as nat, dr, f, r)
            }
        },
        XmlEvent::Eof => (depth, dropping, f, ReadEventReturn::End),
        XmlEvent::Malformed => (depth, dropping, f, ReadEventReturn::End),
        XmlEvent::Other => (depth, dropping, f, ReadEventReturn::Continue),
    }
}

/// The `index`-th event (from zero) that the parser hands out when it reads
/// `document` from its start.
pub uninterp spec fn xml_event(document: Seq<u8>, index: nat) -> XmlEvent;

/// How many bytes of `document` the parser has read after handing out
/// `events` events from its start.
pub uninterp spec fn xml_offset(document: Seq<u8>, events: nat) -> nat;

/// The state of a reader: events read, bytes read, whether it stood still
/// once, depth, whether the record in progress is dropped, whether the
/// sequence ended, and whether it ended early.
pub struct ReaderState {
    pub count: nat,
    pub position: nat,
    pub stalled: bool,
    pub depth: nat,
    pub dropping: bool,
    pub finished: bool,
    pub truncated: bool,
}

/// The state of a reader at the start of a document.
pub open spec fn initial_state() -> ReaderState {
    ReaderState {
        count: 0,
        position: 0,
        stalled: false,
        depth: 0,
        dropping: false,
        finished: false,
        truncated: false,
    }
}

/// The next event as the reader takes it: the parser's next event, or
/// `Malformed` when the parser does not move forward twice in a row or
/// overruns the document.
pub open spec fn guarded_event(doc: Seq<u8>, st: ReaderState) -> (XmlEvent, ReaderState) {
    if st.count >= u64::MAX {
        (XmlEvent::Malformed, st)
    } else {
        let e = xml_event(doc, st.count);
        let p = xml_offset(doc, st.count + 1);
        let moved = st.position < p && p <= doc.len();
        let stands = !moved && !st.stalled && p == st.position;
        let ev = if e is Eof {
            XmlEvent::Eof
        } else if moved || stands {
            e
        } else {
            XmlEvent::Malformed
        };
        (
            ev,
            ReaderState {
                count: st.count + 1,
                position: if moved {
                    p
                } else {
                    st.position
                },
                stalled: if moved {
                    false
                } else if stands {
                    true
                } else {
                    st.stalled
                },
                ..st
            },
        )
    }
}

/// One event read and acted on.
pub open spec fn step_spec(doc: Seq<u8>, st: ReaderState, f: FileCoverageView) -> (
    ReaderState,
    FileCoverageView,
    ReadEventReturn,
) {
    let (ev, s1) = guarded_event(doc, st);
    let (d, dr, g, r) = event_spec(s1.depth, s1.dropping, ev, f);
    (ReaderState { depth: d, dropping: dr, truncated: s1.truncated || ev is Malformed, ..s1 }, g, r)
}

/// A measure of what is left to read.
pub open spec fn work(doc: Seq<u8>, st: ReaderState) -> nat {
    2 * (doc.len() - st.position) as nat + if st.stalled {
        0nat
    } else {
        1nat
    }
}

/// The state once the sequence has ended; it ended early when an element
/// was still open.
pub open spec fn ended(st: ReaderState) -> ReaderState {
    ReaderState { depth: 0, dropping: false, finished: true, truncated: st.truncated || st.depth > 0, ..st }
}

/// Reads on from `st` with record `f` in progress until a record is complete
/// (`Some`) or the sequence ends (`None`, the record in progress dropped).
pub open spec fn scan(doc: Seq<u8>, st: ReaderState, f: FileCoverageView) -> (Option<FileCoverageView>, ReaderState)
    decreases work(doc, st),
{
    if st.position > doc.len() {
        (None, ended(st))
    } else {
        let (s1, g, r) = step_spec(doc, st, f);
        if r == ReadEventReturn::Return {
            (Some(g), s1)
        } else if r == ReadEventReturn::End {
            (None, ended(s1))
        } else {
            scan(doc, s1, g)
        }
    }
}

/// What one request for the next record gives, and the state after it.
pub open spec fn next_call(doc: Seq<u8>, st: ReaderState) -> (Option<FileCoverageView>, ReaderState) {
    if st.finished {
        (None, st)
    } else {
        scan(doc, st, empty_file_coverage())
    }
}

/// The state after `n` requests for the next record.
pub open spec fn state_after(doc: Seq<u8>, st: ReaderState, n: nat) -> ReaderState
    decreases n,
{
    if n == 0 {
        st
    } else {
        next_call(doc, state_after(doc, st, (n - 1) as nat)).1
    }
}

/// What the request for a record gives after `i` requests.
pub open spec fn record_at(doc: Seq<u8>, st: ReaderState, i: nat) -> Option<FileCoverageView> {
    next_call(doc, state_after(doc, st, i)).0
}

/// The first `n` records of the document.
pub open spec fn records(doc: Seq<u8>, st: ReaderState, n: nat) -> Seq<FileCoverageView> {
    Seq::new(n, |i: int| record_at(doc, st, i as nat)->0)
}

proof fn lemma_step_progress(doc: Seq<u8>, st: ReaderState, f: FileCoverageView)
    requires
        st.position <= doc.len(),
    ensures
        step_spec(doc, st, f).0.position <= doc.len(),
        step_spec(doc, st, f).2 != ReadEventReturn::End ==> work(doc, step_spec(doc, st, f).0) < work(doc, st),
{
}

pub proof fn lemma_scan_progress(doc: Seq<u8>, st: ReaderState, f: FileCoverageView)
    requires
        st.position <= doc.len(),
    ensures
        scan(doc, st, f).1.position <= doc.len(),
        scan(doc, st, f).0 is Some ==> work(doc, scan(doc, st, f).1) < work(doc, st) && !scan(doc, st, f).1.finished
            == !st.finished,
        scan(doc, st, f).0 is None ==> scan(doc, st, f).1.finished,
    decreases work(doc, st),
{
    lemma_step_progress(doc, st, f);
    let (s1, g, r) = step_spec(doc, st, f);
    if r == ReadEventReturn::Continue {
        lemma_scan_progress(doc, s1, g);
    }
}

pub fn bytes_equal(a: &[u8], b: &[u8]) -> (r: bool)
    ensures
        r == (a@ == b@),
{
    if a.len() != b.len() {
        return false;
    }
    let mut i: usize = 0;
    while i < a.len()
        invariant
            a.len() == b.len(),
            i <= a.len(),
            forall|j: int| 0 <= j < i ==> a@[j] == b@[j],
        decreases a.len() - i,
    {
        if a[i] != b[i] {
            return false;
        }
        i = i + 1;
    }
    assert(a@ =~= b@);
    true
}

/// Whether a tag or attribute name is `expected`.
fn is_name(name: &[u8], expected: &str) -> (r: bool)
    ensures
        r == (name@ == expected.spec_bytes()),
{
    bytes_equal(name, expected.as_bytes())
}

/// The value of the first attribute named `key`.
fn find_attribute<'b>(attrs: &'b Vec<Option<XmlAttribute>>, key: &str) -> (r: Option<&'b Vec<u8>>)
    ensures
        match r {
            Some(v) => attribute_value(attrs@, key.spec_bytes()) == Some(v@),
            None => attribute_value(attrs@, key.spec_bytes()) is None,
        },
{
    let mut i: usize = 0;
    assert(attrs@.subrange(0, attrs@.len() as int) == attrs@);
    while i < attrs.len()
        invariant
            i <= attrs.len(),
            attribute_value(attrs@, key.spec_bytes()) == attribute_value(
                attrs@.subrange(i as int, attrs@.len() as int),
                key.spec_bytes(),
            ),
        decreases attrs.len() - i,
    {
        let ghost rest = attrs@.subrange(i as int, attrs@.len() as int);
        assert(rest.drop_first() == attrs@.subrange(i + 1, attrs@.len() as int));
        match &attrs[i] {
            Some(a) => {
                if is_name(a.key.as_slice(), key) {
                    return Some(&a.value);
                }
            },
            None => {},
        }
        i = i + 1;
    }
    None
}

fn all_attributes_readable(attrs: &Vec<Option<XmlAttribute>>) -> (r: bool)
    ensures
        r == attributes_readable(attrs@),
{
    let mut i: usize = 0;
    while i < attrs.len()
        invariant
            i <= attrs.len(),
            forall|j: int| 0 <= j < i ==> #[trigger] attrs@[j] is Some,
        decreases attrs.len() - i,
    {
        if attrs[i].is_none() {
            return false;
        }
        i = i + 1;
    }
    true
}

/// Relies on std::str::from_utf8: it succeeds exactly on valid UTF-8, and the
/// text then holds the characters that the bytes encode.
#[verifier::external_body]
fn utf8_text(bytes: &[u8]) -> (r: Option<String>)
    ensures
        r is Some <==> valid_utf8(bytes@),
        r matches Some(s) ==> s@ == decode_utf8(bytes@),
{
    std::str::from_utf8(bytes).ok().map(|s| s.to_string())
}

/// The document and quick_xml's reader over it, with the number of events
/// read so far. Only the reading wrappers below touch it.
pub struct XmlSource<'a> {
    reader: Reader<&'a [u8]>,
    document: &'a [u8],
    count: u64,
}

impl<'a> XmlSource<'a> {
    pub closed spec fn document(&self) -> Seq<u8> {
        self.document@
    }

    pub closed spec fn count(&self) -> nat {
        self.count as nat
    }
}

/// Relies on quick_xml's Reader::from_reader: a reader at the start of
/// `document`, no event read yet.
#[verifier::external_body]
fn xml_source<'a>(document: &'a [u8]) -> (r: XmlSource<'a>)
    ensures
        r.document() == document@,
        r.count() == 0,
{
    XmlSource { reader: Reader::from_reader(document), document, count: 0 }
}

/// Relies on quick_xml's Reader::read_event, reading a byte slice: the events
/// it hands out depend on the document alone, so the next one is the event
/// with the number of those already read.
#[verifier::external_body]
fn next_xml_event(source: &mut XmlSource) -> (r: XmlEvent)
    requires
        old(source).count() < u64::MAX,
    ensures
        final(source).document() == old(source).document(),
        final(source).count() == old(source).count() + 1,
        r == xml_event(old(source).document(), old(source).count()),
{
    source.count += 1;
    match source.reader.read_event() {
        Ok(Event::Start(e)) => XmlEvent::Start(xml_element(&e)),
        Ok(Event::Empty(e)) => XmlEvent::Empty(xml_element(&e)),
        Ok(Event::End(e)) => XmlEvent::End(e.name().as_ref().to_vec()),
        Ok(Event::Eof) => XmlEvent::Eof,
        Ok(_) => XmlEvent::Other,
        Err(_) => XmlEvent::Malformed,
    }
}

/// Relies on quick_xml's BytesStart::name and BytesStart::attributes: the
/// raw name and raw attributes of a start tag (the conversion part of
/// `next_xml_event`).
#[verifier::external_body]
fn xml_element(e: &BytesStart) -> XmlElement {
    let attributes = e.attributes().map(|a| match a {
        Ok(a) => Some(XmlAttribute { key: a.key.as_ref().to_vec(), value: a.value.to_vec() }),
        Err(_) => None,
    });
    XmlElement { name: e.name().as_ref().to_vec(), attributes: attributes.collect() }
}

/// Relies on quick_xml's Reader::buffer_position: the bytes read after the
/// events read so far.
#[verifier::external_body]
fn source_position(source: &XmlSource) -> (r: usize)
    ensures
        r == xml_offset(source.document(), source.count()),
{
    source.reader.buffer_position()
}

/// Reads the records of a Cobertura document one source file at a time.
pub struct CoverageFileIterator<'a> {
    source: XmlSource<'a>,
    length: usize,
    position: usize,
    level: u32,
    stalled: bool,
    dropping: bool,
    finished: bool,
    truncated: bool,
}

impl<'a> CoverageFileIterator<'a> {
    /// The document read.
    pub closed spec fn document(&self) -> Seq<u8> {
        self.source.document()
    }

    /// Where the reader stands.
    pub closed spec fn state(&self) -> ReaderState {
        ReaderState {
            count: self.source.count(),
            position: self.position as nat,
            stalled: self.stalled,
            depth: self.level as nat,
            dropping: self.dropping,
            finished: self.finished,
            truncated: self.truncated,
        }
    }

    pub closed spec fn wf(&self) -> bool {
        &&& self.position <= self.length
        &&& self.length == self.source.document().len()
        &&& self.finished ==> self.level == 0 && !self.dropping
    }

    pub proof fn lemma_position_in_document(&self)
        requires
            self.wf(),
        ensures
            self.state().position <= self.document().len(),
    {
    }

    /// A reader at the start of `document`.
    pub fn new(document: &'a [u8]) -> (r: Self)
        ensures
            r.wf(),
            r.document() == document@,
            r.state() == initial_state(),
    {
        CoverageFileIterator {
            source: xml_source(document),
            length: document.len(),
            position: 0,
            level: 0,
            stalled: false,
            dropping: false,
            finished: false,
            truncated: false,
        }
    }

    /// Whether the sequence ended inside an element or on input that is not
    /// well-formed, so that records of the document may be missing.
    pub fn is_truncated(&self) -> (r: bool)
        ensures
            r == self.state().truncated,
    {
        self.truncated
    }

    fn match_start_tag(&mut self, e: &XmlElement, coverage_file: &mut FileCoverage) -> (r: ReadEventReturn)
        requires
            old(coverage_file).wf(),
        ensures
            final(coverage_file).wf(),
            (final(coverage_file)@, final(self).state().dropping, r) == start_spec(
                old(self).state().depth,
                old(self).state().dropping,
                *e,
                old(coverage_file)@,
            ),
            final(self).state() == (ReaderState { dropping: final(self).state().dropping, ..old(self).state() }),
            final(self).document() == old(self).document(),
            final(self).length == old(self).length,
            final(self).finished == old(self).finished,
    {
        let readable = all_attributes_readable(&e.attributes);
        if is_name(e.name.as_slice(), "class") && self.level == 5 {
            coverage_file.reset();
            let filename = if readable {
                find_attribute(&e.attributes, "filename")
            } else {
                None
            };
            match filename {
                Some(filename) => {
                    let path = match utf8_text(filename.as_slice()) {
                        Some(text) => text,
                        None => String::new(),
                    };
                    coverage_file.set_path(path);
                    self.dropping = false;
                },
                None => {
                    self.dropping = true;
                },
            }
            ReadEventReturn::Continue
        } else if is_name(e.name.as_slice(), "line") && 6 <= self.level && self.level <= 8 {
            let number = find_attribute(&e.attributes, "number");
            let hits = find_attribute(&e.attributes, "hits");
            if readable {
                match (number, hits) {
                    (Some(number), Some(hits)) => {
                        let number = match parse_u32(number.as_slice()) {
                            Some(n) => n,
                            None => 0,
                        };
                        let hits = match parse_u32(hits.as_slice()) {
                            Some(n) => n,
                            None => 0,
                        };
                        coverage_file.add_line(number, hits > 0);
                    },
                    _ => {},
                }
            }
            ReadEventReturn::Continue
        } else {
            ReadEventReturn::Continue
        }
    }

    fn match_end_tag(&mut self, name: &[u8]) -> (r: ReadEventReturn)
        ensures
            (final(self).state().dropping, r) == end_spec(old(self).state().depth, old(self).state().dropping, name@),
            final(self).state() == (ReaderState { dropping: final(self).state().dropping, ..old(self).state() }),
            final(self).document() == old(self).document(),
            final(self).length == old(self).length,
            final(self).finished == old(self).finished,
    {
        if is_name(name, "class") && self.level == 5 {
            let r = if self.dropping {
                ReadEventReturn::Continue
            } else {
                ReadEventReturn::Return
            };
            self.dropping = false;
            r
        } else {
            ReadEventReturn::Continue
        }
    }

    /// Acts on one event: moves the depth, fills the record in progress, and
    /// says whether the record is complete or the sequence ends.
    pub fn apply_event(&mut self, event: &XmlEvent, coverage_file: &mut FileCoverage) -> (r: ReadEventReturn)
        requires
            old(self).wf(),
            !old(self).state().finished,
            old(coverage_file).wf(),
        ensures
            final(self).wf(),
            final(coverage_file).wf(),
            final(self).document() == old(self).document(),
            ({
                let (d, dr, g, r2) = event_spec(
                    old(self).state().depth,
                    old(self).state().dropping,
                    *event,
                    old(coverage_file)@,
                );
                &&& final(self).state() == (ReaderState { depth: d, dropping: dr, ..old(self).state() })
                &&& final(coverage_file)@ == g
                &&& r == r2
            }),
    {
        match event {
            XmlEvent::Start(e) => {
                if self.level == u32::MAX {
                    return ReadEventReturn::End;
                }
                self.level = self.level + 1;
                self.match_start_tag(e, coverage_file)
            },
            XmlEvent::Empty(e) => {
                if self.level == u32::MAX {
                    return ReadEventReturn::End;
                }
                self.level = self.level + 1;
                let r = self.match_start_tag(e, coverage_file);
                if r == ReadEventReturn::End {
                    return r;
                }
                let r = self.match_end_tag(e.name.as_slice());
                self.level = self.level - 1;
                r
            },
            XmlEvent::End(name) => {
                if self.level == 0 {
                    return ReadEventReturn::End;
                }
                let r = self.match_end_tag(name.as_slice());
                self.level = self.level - 1;
                r
            },
            XmlEvent::Eof => ReadEventReturn::End,
            XmlEvent::Malformed => ReadEventReturn::End,
            XmlEvent::Other => ReadEventReturn::Continue,
        }
    }

    /// Reads the next event and acts on it. The parser may report one event
    /// without moving forward (text at the very end); a second such event in
    /// a row counts as input that is not well-formed.
    fn read_event_into(&mut self, coverage_file: &mut FileCoverage) -> (r: ReadEventReturn)
        requires
            old(self).wf(),
            !old(self).state().finished,
            old(coverage_file).wf(),
        ensures
            final(self).wf(),
            final(coverage_file).wf(),
            final(self).document() == old(self).document(),
            (final(self).state(), final(coverage_file)@, r) == step_spec(
                old(self).document(),
                old(self).state(),
                old(coverage_file)@,
            ),
    {
        let event = if self.source.count == u64::MAX {
            XmlEvent::Malformed
        } else {
            let e = next_xml_event(&mut self.source);
            let position = source_position(&self.source);
            let moved = self.position < position && position <= self.length;
            let stands = !moved && !self.stalled && position == self.position;
            let ev = match e {
                XmlEvent::Eof => XmlEvent::Eof,
                other => if moved || stands {
                    other
                } else {
                    XmlEvent::Malformed
                },
            };
            if moved {
                self.position = position;
                self.stalled = false;
            } else if stands {
                self.stalled = true;
            }
            ev
        };
        let malformed = match &event {
            XmlEvent::Malformed => true,
            _ => false,
        };
        let r = self.apply_event(&event, coverage_file);
        if malformed {
            self.truncated = true;
        }
        r
    }

    /// Ends the sequence: no record is in progress any more.
    fn reset_and_empty_file_coverage(&mut self) -> (r: Option<FileCoverage>)
        requires
            old(self).wf(),
        ensures
            final(self).wf(),
            final(self).document() == old(self).document(),
            final(self).state() == ended(old(self).state()),
            r is None,
    {
        if self.level > 0 {
            self.truncated = true;
        }
        self.level = 0;
        self.dropping = false;
        self.finished = true;
        None
    }

    /// The record of the next source file, or `None` once the document is
    /// read, or cut short, or not well-formed; the record in progress at
    /// that point is dropped. After `None`, every call gives `None`.
    pub fn next_file(&mut self) -> (r: Option<FileCoverage>)
        requires
            old(self).wf(),
        ensures
            final(self).wf(),
            final(self).document() == old(self).document(),
            final(self).state() == next_call(old(self).document(), old(self).state()).1,
            match r {
                Some(f) => f.wf() && next_call(old(self).document(), old(self).state()).0 == Some(f@),
                None => next_call(old(self).document(), old(self).state()).0 is None,
            },
    {
        if self.finished {
            return None;
        }
        let mut coverage_file = FileCoverage::default();
        let ghost doc = self.document();
        let ghost start = self.state();
        loop
            invariant
                self.wf(),
                coverage_file.wf(),
                !self.state().finished,
                !start.finished,
                self.document() == doc,
                doc == old(self).document(),
                start == old(self).state(),
                scan(doc, self.state(), coverage_file@) == scan(doc, start, empty_file_coverage()),
            decreases work(doc, self.state()),
        {
            let ghost before = self.state();
            let ghost before_file = coverage_file@;
            proof {
                lemma_step_progress(doc, before, before_file);
            }
            let r = self.read_event_into(&mut coverage_file);
            match r {
                ReadEventReturn::Return => {
                    return Some(coverage_file);
                },
                ReadEventReturn::End => {
                    return self.reset_and_empty_file_coverage();
                },
                ReadEventReturn::Continue => {},
            }
        }
    }

    /// Every remaining record, in document order: the records that calls of
    /// [`Self::next_file`] give before the first `None`.
    pub fn collect_files(&mut self) -> (r: Vec<FileCoverage>)
        requires
            old(self).wf(),
        ensures
            final(self).wf(),
            final(self).document() == old(self).document(),
            forall|i: int| 0 <= i < r.len() ==> #[trigger] r@[i].wf() && record_at(
                old(self).document(),
                old(self).state(),
                i as nat,
            ) == Some(r@[i]@),
            record_at(old(self).document(), old(self).state(), r.len() as nat) is None,
            final(self).state() == state_after(old(self).document(), old(self).state(), (r.len() + 1) as nat),
    {
        let mut files: Vec<FileCoverage> = Vec::new();
        let ghost doc = self.document();
        let ghost start = self.state();
        loop
            invariant
                self.wf(),
                self.document() == doc,
                doc == old(self).document(),
                start == old(self).state(),
                self.state() == state_after(doc, start, files.len() as nat),
                forall|i: int| 0 <= i < files.len() ==> #[trigger] files@[i].wf() && record_at(doc, start, i as nat)
                    == Some(files@[i]@),
            decreases work(doc, self.state()),
        {
            let ghost before = self.state();
            proof {
                if !before.finished {
                    lemma_scan_progress(doc, before, empty_file_coverage());
                }
            }
            match self.next_file() {
                Some(f) => {
                    files.push(f);
                },
                None => {
                    return files;
                },
            }
        }
    }
}

/// The Cobertura format.
pub struct Provider {
    path: String,
}

impl Provider {
    pub closed spec fn spec_path(&self) -> Seq<char> {
        self.path@
    }

    /// The provider of the Cobertura report at `path`.
    pub fn load_from_file(path: &str) -> (r: Result<Provider, String>)
        ensures
            r matches Ok(p) && p.spec_path() == path@,
    {
        Ok(Provider { path: path.to_owned() })
    }
}

impl CoverageProvider for Provider {
    open spec fn name(&self) -> Seq<char> {
        "cobertura"@
    }

    open spec fn reads_documents(&self) -> bool {
        true
    }

    open spec fn reader_error(&self) -> Seq<char> {
        Seq::empty()
    }

    fn get_name(&self) -> (r: &str) {
        "cobertura"
    }

    fn iter_files<'a>(&self, document: &'a [u8]) -> (r: Result<CoverageFileIterator<'a>, String>) {
        Ok(CoverageFileIterator::new(document))
    }
}

} // verus!
