//! XML documents as an arena of elements in document order, built from the
//! events `quick_xml` reads. Attributes are kept as name and value pairs in
//! the order written, not in a map: their names are strings, and a std map
//! keyed by strings has no specified contents to state contracts over.
use quick_xml::events::Event;
use vstd::prelude::*;
use vstd::string::StrSliceExecFns;
use vstd::string::StringExecFns;

use crate::text::{chars_of, compare_text, decimal, push_char, push_decimal, push_str, string_from, xml_trim, xml_trimmed};
use crate::xml::XmlEvent::{CData, Empty, End, Eof, Other, Reference, Start, Text};

verus! {

#[verifier::external_type_specification]
#[verifier::external_body]
#[verifier::reject_recursive_types(R)]
pub struct ExQuickXmlReader<R>(quick_xml::Reader<R>);

#[verifier::external_type_specification]
#[verifier::external_body]
pub struct ExQuickXmlBytesStart<'i>(quick_xml::events::BytesStart<'i>);

/// A start tag as plain values: the element name, and its attributes in the
/// order written (or the text of the first attribute that could not be read).
pub type StartTag = (String, Result<Vec<(String, String)>, String>);

/// One event of the XML reader, as far as documents need it.
pub enum XmlEvent {
    Start(StartTag),
    Empty(StartTag),
    Text(String),
    /// A character or entity reference, by what stands between `&` and `;`.
    Reference(String),
    CData(String),
    End(String),
    Eof,
    Other,
}

/// An attribute list as text pairs.
pub open spec fn pair_views(attributes: Seq<(String, String)>) -> Seq<(Seq<char>, Seq<char>)> {
    attributes.map_values(|p: (String, String)| (p.0@, p.1@))
}

/// What one read of the XML reader gives, as text: an event, or a failure
/// with its byte position and message.
pub enum XmlEventView {
    Start { name: Seq<char>, attributes: Result<Seq<(Seq<char>, Seq<char>)>, Seq<char>> },
    Empty { name: Seq<char>, attributes: Result<Seq<(Seq<char>, Seq<char>)>, Seq<char>> },
    Text(Seq<char>),
    Reference(Seq<char>),
    CData(Seq<char>),
    End(Seq<char>),
    Eof,
    Other,
    Failed { position: u64, message: Seq<char> },
}

/// The attributes of a start tag as text.
pub open spec fn attributes_view(attributes: Result<Vec<(String, String)>, String>) -> Result<
    Seq<(Seq<char>, Seq<char>)>,
    Seq<char>,
> {
    match attributes {
        Ok(a) => Ok(pair_views(a@)),
        Err(m) => Err(m@),
    }
}

/// One read of the XML reader as text.
pub open spec fn event_view(read: Result<XmlEvent, (u64, String)>) -> XmlEventView {
    match read {
        Err((position, message)) => XmlEventView::Failed { position, message: message@ },
        Ok(XmlEvent::Start((name, attributes))) => XmlEventView::Start {
            name: name@,
            attributes: attributes_view(attributes),
        },
        Ok(XmlEvent::Empty((name, attributes))) => XmlEventView::Empty {
            name: name@,
            attributes: attributes_view(attributes),
        },
        Ok(XmlEvent::Text(t)) => XmlEventView::Text(t@),
        Ok(XmlEvent::Reference(n)) => XmlEventView::Reference(n@),
        Ok(XmlEvent::CData(t)) => XmlEventView::CData(t@),
        Ok(XmlEvent::End(n)) => XmlEventView::End(n@),
        Ok(XmlEvent::Eof) => XmlEventView::Eof,
        Ok(XmlEvent::Other) => XmlEventView::Other,
    }
}

/// The read numbered `index` (from zero) that a `quick_xml` reader created
/// from `xml` by `Reader::from_str` gives, as `read_xml_event` converts it:
/// the event from `Reader::read_event`, with each start tag's name and its
/// attributes as `start_tag` reads them (`BytesStart::attributes`, values
/// by `Attribute::normalized_value`, or the first error's text), or the
/// reader's error position and the error's text. The reader reads nothing
/// but the text, so each read is fixed by the text and the number of reads
/// before it. Left unsaid: that every read but the one giving `Eof` or an
/// error consumes at least one byte of the text. Documents are read for at
/// most `4 * len + 1` events on that ground (`built_document`); a reader that
/// kept returning events past that would see its document finished there.
pub uninterp spec fn xml_event_at(xml: Seq<char>, index: nat) -> XmlEventView;

/// A `quick_xml` reader over a text, with the text and the number of reads
/// made so far.
pub(crate) struct XmlCursor<'a> {
    reader: quick_xml::Reader<&'a [u8]>,
    text: Ghost<Seq<char>>,
    reads: Ghost<nat>,
}

impl<'a> XmlCursor<'a> {
    /// The text being read.
    pub(crate) closed spec fn spec_text(self) -> Seq<char> {
        self.text@
    }

    /// The number of reads made so far.
    pub(crate) closed spec fn spec_reads(self) -> nat {
        self.reads@
    }

    /// `quick_xml::Reader::from_str` with the default configuration (text
    /// is reported as written, white space included): a reader at the start
    /// of `xml`, with no reads made.
    #[verifier::external_body]
    pub(crate) fn new(xml: &'a str) -> (cursor: XmlCursor<'a>)
        ensures
            cursor.spec_text() == xml@,
            cursor.spec_reads() == 0,
    {
        XmlCursor { reader: quick_xml::Reader::from_str(xml), text: Ghost(xml@), reads: Ghost(0) }
    }
}

/// `BytesStart::name`, and `BytesStart::attributes` with each value
/// unescaped by `Attribute::normalized_value` (XML 1.0 rules): the name, and
/// the attributes in the order written or the text of the first failure.
/// What they are is stated, as part of the event, by `read_xml_event`.
#[verifier::external_body]
fn start_tag(tag: &quick_xml::events::BytesStart<'_>) -> StartTag {
    let mut attributes = Vec::new();
    for attribute in tag.attributes() {
        let attribute = match attribute {
            Ok(a) => a,
            Err(error) => return (tag.name().as_ref().to_owned(), Err(error.to_string())),
        };
        match attribute.normalized_value(quick_xml::XmlVersion::Implicit1_0) {
            Ok(value) => attributes.push((attribute.key.as_ref().to_owned(), value.into_owned())),
            Err(error) => return (tag.name().as_ref().to_owned(), Err(error.to_string())),
        }
    }
    (tag.name().as_ref().to_owned(), Ok(attributes))
}

/// `quick_xml::Reader::read_event`: the next event, owned, with text,
/// references and CDATA content as written, start tags as names and
/// attributes, and end tags by name; a failure carries the reader's error
/// position and the error's text. The reader reads only its text, so the
/// read is the one `xml_event_at` names for the text and the number of reads
/// made before.
#[verifier::external_body]
pub(crate) fn read_xml_event(cursor: &mut XmlCursor) -> (read: Result<XmlEvent, (u64, String)>)
    ensures
        event_view(read) == xml_event_at(old(cursor).spec_text(), old(cursor).spec_reads()),
        final(cursor).spec_text() == old(cursor).spec_text(),
        final(cursor).spec_reads() == old(cursor).spec_reads() + 1,
{
    match cursor.reader.read_event() {
        Ok(Event::Start(tag)) => Ok(Start(start_tag(&tag))),
        Ok(Event::Empty(tag)) => Ok(Empty(start_tag(&tag))),
        Ok(Event::Text(text)) => Ok(Text(text.to_string())),
        Ok(Event::GeneralRef(name)) => Ok(Reference(name.to_string())),
        Ok(Event::CData(text)) => Ok(CData(text.to_string())),
        Ok(Event::End(end)) => Ok(End(end.to_string())),
        Ok(Event::Eof) => Ok(Eof),
        Ok(_) => Ok(Other),
        Err(e) => Err((cursor.reader.error_position(), e.to_string())),
    }
}

/// Why a document could not be read.
#[derive(Debug)]
pub enum XmlError {
    /// The reader failed at `position` (in bytes).
    Read { position: u64, message: String },
    /// An attribute of a start tag could not be read.
    Attribute { message: String },
    /// A start tag names the same attribute twice.
    DuplicateAttribute { element: String, key: String },
    /// A closing tag has no opening tag.
    UnmatchedClose,
    /// A closing tag does not match the innermost open element.
    CloseMismatch { element: String },
    /// A second element stands at the top level.
    MultipleRoots,
    /// The input ended inside an element.
    Unclosed,
    /// The input holds no element.
    NoRoot,
}

/// An `XmlError` with its texts as character sequences.
pub enum XmlErrorView {
    Read { position: u64, message: Seq<char> },
    Attribute { message: Seq<char> },
    DuplicateAttribute { element: Seq<char>, key: Seq<char> },
    UnmatchedClose,
    CloseMismatch { element: Seq<char> },
    MultipleRoots,
    Unclosed,
    NoRoot,
}

/// The error as text.
pub open spec fn error_view(e: XmlError) -> XmlErrorView {
    match e {
        XmlError::Read { position, message } => XmlErrorView::Read { position, message: message@ },
        XmlError::Attribute { message } => XmlErrorView::Attribute { message: message@ },
        XmlError::DuplicateAttribute { element, key } => XmlErrorView::DuplicateAttribute {
            element: element@,
            key: key@,
        },
        XmlError::UnmatchedClose => XmlErrorView::UnmatchedClose,
        XmlError::CloseMismatch { element } => XmlErrorView::CloseMismatch { element: element@ },
        XmlError::MultipleRoots => XmlErrorView::MultipleRoots,
        XmlError::Unclosed => XmlErrorView::Unclosed,
        XmlError::NoRoot => XmlErrorView::NoRoot,
    }
}

/// One element: its name, its attributes in the order written, and the
/// element it stands in (none for the root).
pub struct Element {
    pub name: String,
    pub attributes: Vec<(String, String)>,
    pub parent: Option<usize>,
}

/// A document: its elements in document order, each after the element it
/// stands in, and the text written directly in each.
pub struct Document {
    pub elements: Vec<Element>,
    pub texts: Vec<String>,
}

/// An element as text.
pub struct ElementView {
    pub name: Seq<char>,
    pub attributes: Seq<(Seq<char>, Seq<char>)>,
    pub parent: Option<usize>,
}

/// A document as text: its elements and the text directly in each.
pub struct DocView {
    pub elements: Seq<ElementView>,
    pub texts: Seq<Seq<char>>,
}

/// The element as text.
pub open spec fn element_view(e: Element) -> ElementView {
    ElementView { name: e.name@, attributes: pair_views(e.attributes@), parent: e.parent }
}

/// The elements as text.
pub open spec fn element_views(elements: Seq<Element>) -> Seq<ElementView> {
    elements.map_values(|e: Element| element_view(e))
}

/// The views of a sequence of texts.
pub open spec fn text_views(texts: Seq<String>) -> Seq<Seq<char>> {
    texts.map_values(|t: String| t@)
}

/// The document as text.
pub open spec fn doc_view(d: Document) -> DocView {
    DocView { elements: element_views(d.elements@), texts: text_views(d.texts@) }
}

/// Whether `doc` is a document tree: one text per element, and every element
/// after its parent.
pub open spec fn is_tree(doc: &Document) -> bool {
    &&& doc.texts@.len() == doc.elements@.len()
    &&& forall|j: int|
        0 <= j < doc.elements@.len() ==> match (#[trigger] doc.elements@[j]).parent {
            Some(p) => p < j,
            None => true,
        }
}

/// Whether no two attributes share a name.
pub open spec fn distinct_keys(attributes: Seq<(String, String)>) -> bool {
    forall|a: int, b: int| 0 <= a < b < attributes.len() ==> attributes[a].0@ != attributes[b].0@
}

/// Whether attribute `b` repeats the name of an attribute before it.
pub open spec fn repeats_earlier(attributes: Seq<(Seq<char>, Seq<char>)>, b: int) -> bool {
    exists|a: int| 0 <= a < b && #[trigger] attributes[a].0 == attributes[b].0
}

/// The first attribute at or after `b` that repeats an earlier name.
pub open spec fn repeat_from(attributes: Seq<(Seq<char>, Seq<char>)>, b: nat) -> Option<nat>
    decreases attributes.len() - b,
{
    if b >= attributes.len() {
        None
    } else if repeats_earlier(attributes, b as int) {
        Some(b)
    } else {
        repeat_from(attributes, b + 1)
    }
}

/// The first attribute that repeats an earlier name, if any.
pub open spec fn first_repeat(attributes: Seq<(Seq<char>, Seq<char>)>) -> Option<nat> {
    repeat_from(attributes, 0)
}

/// Checks that no attribute name repeats; the error names the element and
/// the first repeated attribute.
fn check_attributes(name: &String, attributes: &Vec<(String, String)>) -> (checked: Result<(), XmlError>)
    ensures
        checked is Ok <==> distinct_keys(attributes@),
        checked is Ok <==> first_repeat(pair_views(attributes@)) is None,
        checked matches Err(e) ==> (e matches XmlError::DuplicateAttribute { element, key } && element@
            == name@ && (first_repeat(pair_views(attributes@)) matches Some(b) && key@ == pair_views(
            attributes@,
        )[b as int].0)),
{
    let ghost pv = pair_views(attributes@);
    let n = attributes.len();
    let mut b: usize = 0;
    while b < n
        invariant
            n == attributes@.len(),
            pv == pair_views(attributes@),
            pv.len() == n,
            b <= n,
            forall|x: int, y: int| 0 <= x < y < b ==> attributes@[x].0@ != attributes@[y].0@,
            first_repeat(pv) == repeat_from(pv, b as nat),
        decreases n - b,
    {
        let mut a: usize = 0;
        while a < b
            invariant
                n == attributes@.len(),
                pv == pair_views(attributes@),
                pv.len() == n,
                a <= b < n,
                forall|x: int, y: int| 0 <= x < y < b ==> attributes@[x].0@ != attributes@[y].0@,
                forall|x: int| 0 <= x < a ==> attributes@[x].0@ != attributes@[b as int].0@,
                first_repeat(pv) == repeat_from(pv, b as nat),
            decreases b - a,
        {
            let (_, same) = compare_text(attributes[a].0.as_str(), attributes[b].0.as_str());
            if same {
                assert(pv[a as int].0 == pv[b as int].0);
                assert(repeats_earlier(pv, b as int));
                return Err(
                    XmlError::DuplicateAttribute { element: name.clone(), key: attributes[b].0.clone() },
                );
            }
            a += 1;
        }
        assert(!repeats_earlier(pv, b as int)) by {
            assert forall|x: int| 0 <= x < b implies pv[x].0 != pv[b as int].0 by {
                assert(pv[x].0 == attributes@[x].0@);
            }
        }
        b += 1;
    }
    Ok(())
}

/// The state of a document being read: its elements and texts so far, the
/// elements still open (innermost last), and the root once closed.
pub struct BuildState {
    pub elements: Seq<ElementView>,
    pub texts: Seq<Seq<char>>,
    pub open: Seq<usize>,
    pub root: Option<usize>,
}

/// Nothing read yet.
pub open spec fn empty_state() -> BuildState {
    BuildState { elements: Seq::empty(), texts: Seq::empty(), open: Seq::empty(), root: None }
}

/// `s` with an element added by a tag named `name` with `attributes`: it
/// stands in the innermost open element and has no text yet.
pub open spec fn spec_opened(s: BuildState, name: Seq<char>, attributes: Seq<(Seq<char>, Seq<char>)>) -> BuildState {
    BuildState {
        elements: s.elements.push(
            ElementView {
                name,
                attributes,
                parent: if s.open.len() == 0 {
                    None
                } else {
                    Some(s.open.last())
                },
            },
        ),
        texts: s.texts.push(Seq::empty()),
        open: s.open,
        root: s.root,
    }
}

/// Element `index` is closed in `s`: with nothing else open it becomes the
/// root, unless a root was closed before.
pub open spec fn spec_close(s: BuildState, index: usize) -> Result<BuildState, XmlErrorView> {
    if s.open.len() == 0 {
        if s.root is Some {
            Err(XmlErrorView::MultipleRoots)
        } else {
            Ok(BuildState { elements: s.elements, texts: s.texts, open: s.open, root: Some(index) })
        }
    } else {
        Ok(s)
    }
}

/// A start tag: refused when an attribute name repeats, else the element
/// opens.
pub open spec fn spec_start(s: BuildState, name: Seq<char>, attributes: Seq<(Seq<char>, Seq<char>)>) -> Result<
    BuildState,
    XmlErrorView,
> {
    match first_repeat(attributes) {
        Some(b) => Err(XmlErrorView::DuplicateAttribute { element: name, key: attributes[b as int].0 }),
        None => {
            let t = spec_opened(s, name, attributes);
            Ok(
                BuildState {
                    elements: t.elements,
                    texts: t.texts,
                    open: t.open.push(s.elements.len() as usize),
                    root: t.root,
                },
            )
        },
    }
}

/// An empty-element tag: refused when an attribute name repeats, else the
/// element opens and closes at once.
pub open spec fn spec_empty(s: BuildState, name: Seq<char>, attributes: Seq<(Seq<char>, Seq<char>)>) -> Result<
    BuildState,
    XmlErrorView,
> {
    match first_repeat(attributes) {
        Some(b) => Err(XmlErrorView::DuplicateAttribute { element: name, key: attributes[b as int].0 }),
        None => spec_close(spec_opened(s, name, attributes), s.elements.len() as usize),
    }
}

/// A closing tag named `name`: it must close the innermost open element.
pub open spec fn spec_end(s: BuildState, name: Seq<char>) -> Result<BuildState, XmlErrorView> {
    if s.open.len() == 0 {
        Err(XmlErrorView::UnmatchedClose)
    } else {
        let index = s.open.last();
        if s.elements[index as int].name != name {
            Err(XmlErrorView::CloseMismatch { element: s.elements[index as int].name })
        } else {
            spec_close(
                BuildState { elements: s.elements, texts: s.texts, open: s.open.drop_last(), root: s.root },
                index,
            )
        }
    }
}

/// Text `t` appended to the innermost open element (dropped outside every
/// element).
pub open spec fn spec_text(s: BuildState, t: Seq<char>) -> BuildState {
    if s.open.len() == 0 {
        s
    } else {
        let top = s.open.last() as int;
        BuildState { elements: s.elements, texts: s.texts.update(top, s.texts[top] + t), open: s.open, root: s.root }
    }
}

/// A run of character data: appended without its surrounding XML white
/// space, and dropped when that leaves nothing.
pub open spec fn spec_run(s: BuildState, run: Seq<char>) -> BuildState {
    if xml_trimmed(run).len() == 0 {
        s
    } else {
        spec_text(s, xml_trimmed(run))
    }
}

/// The document read, once the input ends: every element must be closed and
/// there must be a root.
pub open spec fn spec_finish(s: BuildState) -> Result<(DocView, usize), XmlErrorView> {
    if s.open.len() > 0 {
        Err(XmlErrorView::Unclosed)
    } else {
        match s.root {
            None => Err(XmlErrorView::NoRoot),
            Some(r) => Ok((DocView { elements: s.elements, texts: s.texts }, r)),
        }
    }
}

/// What one read does to a document being read with a pending run of
/// character data.
pub enum Step {
    Continue(BuildState, Seq<char>),
    Finished(BuildState),
    Failed(XmlErrorView),
}

/// One read: character data and references extend the pending run; any
/// other event first adds the run as text, then acts.
pub open spec fn step(s: BuildState, run: Seq<char>, event: XmlEventView) -> Step {
    match event {
        XmlEventView::Failed { position, message } => Step::Failed(XmlErrorView::Read { position, message }),
        XmlEventView::Text(t) => Step::Continue(s, run + t),
        XmlEventView::Reference(n) => Step::Continue(s, run + seq!['&'] + n + seq![';']),
        XmlEventView::Start { name, attributes } => match attributes {
            Err(m) => Step::Failed(XmlErrorView::Attribute { message: m }),
            Ok(a) => match spec_start(spec_run(s, run), name, a) {
                Ok(t) => Step::Continue(t, Seq::empty()),
                Err(e) => Step::Failed(e),
            },
        },
        XmlEventView::Empty { name, attributes } => match attributes {
            Err(m) => Step::Failed(XmlErrorView::Attribute { message: m }),
            Ok(a) => match spec_empty(spec_run(s, run), name, a) {
                Ok(t) => Step::Continue(t, Seq::empty()),
                Err(e) => Step::Failed(e),
            },
        },
        XmlEventView::CData(t) => Step::Continue(spec_text(spec_run(s, run), t), Seq::empty()),
        XmlEventView::End(n) => match spec_end(spec_run(s, run), n) {
            Ok(t) => Step::Continue(t, Seq::empty()),
            Err(e) => Step::Failed(e),
        },
        XmlEventView::Eof => Step::Finished(spec_run(s, run)),
        XmlEventView::Other => Step::Continue(spec_run(s, run), Seq::empty()),
    }
}

/// The document read from `xml` from read `i` on, in state `s` with pending
/// run `run`, reading at most up to read `limit`.
pub open spec fn build_from(xml: Seq<char>, limit: nat, i: nat, s: BuildState, run: Seq<char>) -> Result<
    (DocView, usize),
    XmlErrorView,
>
    decreases limit + 1 - i,
{
    if i > limit {
        spec_finish(s)
    } else {
        match step(s, run, xml_event_at(xml, i)) {
            Step::Continue(t, r) => build_from(xml, limit, i + 1, t, r),
            Step::Finished(t) => spec_finish(t),
            Step::Failed(e) => Err(e),
        }
    }
}

/// The document read from `xml`, with the index of its root, or why it
/// could not be read. Reads stop within `4 * len + 1`: a character takes at
/// most four bytes, and every read but the last consumes at least one byte
/// (quick-xml's behaviour, not stated by `xml_event_at`).
pub open spec fn built_document(xml: Seq<char>) -> Result<(DocView, usize), XmlErrorView> {
    build_from(xml, 4 * xml.len(), 0, empty_state(), Seq::empty())
}

/// Whether `element` is the element a tag named `name` with `attributes`
/// adds while `open` are open: it stands in the innermost of them.
pub open spec fn opened_as(element: Element, name: Seq<char>, attributes: Seq<(String, String)>, open: Seq<usize>) -> bool {
    &&& element.name@ == name
    &&& element.attributes@ == attributes
    &&& element.parent == if open.len() == 0 {
        None::<usize>
    } else {
        Some(open.last())
    }
}

/// A document being read: the elements so far, and the elements still
/// open, innermost last.
pub struct DocumentBuilder {
    doc: Document,
    open: Vec<usize>,
    root: Option<usize>,
}

/// The state of a document being read, as text.
pub open spec fn state_of(b: DocumentBuilder) -> BuildState {
    BuildState {
        elements: element_views(b.spec_elements()),
        texts: b.spec_texts(),
        open: b.spec_open(),
        root: b.spec_root(),
    }
}

impl DocumentBuilder {
    /// The invariant every method keeps.
    pub closed spec fn well_formed(self) -> bool {
        &&& is_tree(&self.doc)
        &&& forall|k: int| 0 <= k < self.open@.len() ==> #[trigger] self.open@[k] < self.doc.elements@.len()
        &&& self.root matches Some(r) ==> r < self.doc.elements@.len()
    }

    /// The elements read so far.
    pub closed spec fn spec_elements(self) -> Seq<Element> {
        self.doc.elements@
    }

    /// The elements still open, innermost last.
    pub closed spec fn spec_open(self) -> Seq<usize> {
        self.open@
    }

    /// The element standing at the top level, once it is closed.
    pub closed spec fn spec_root(self) -> Option<usize> {
        self.root
    }

    /// The text read so far directly inside each element.
    pub closed spec fn spec_texts(self) -> Seq<Seq<char>> {
        text_views(self.doc.texts@)
    }

    /// An empty document.
    pub fn new() -> (builder: DocumentBuilder)
        ensures
            builder.well_formed(),
            builder.spec_elements() == Seq::<Element>::empty(),
            builder.spec_open() == Seq::<usize>::empty(),
            builder.spec_root() is None,
            builder.spec_texts() == Seq::<Seq<char>>::empty(),
            state_of(builder) == empty_state(),
    {
        let builder = DocumentBuilder {
            doc: Document { elements: Vec::new(), texts: Vec::new() },
            open: Vec::new(),
            root: None,
        };
        assert(text_views(builder.doc.texts@) =~= Seq::<Seq<char>>::empty());
        assert(element_views(builder.doc.elements@) =~= Seq::<ElementView>::empty());
        builder
    }

    /// Adds an element named `name`; it stands in the innermost open element.
    fn add(&mut self, name: String, attributes: Vec<(String, String)>) -> (index: usize)
        requires
            old(self).well_formed(),
        ensures
            final(self).well_formed(),
            index == old(self).spec_elements().len(),
            final(self).spec_elements().len() == index + 1,
            final(self).spec_elements().subrange(0, index as int) == old(self).spec_elements(),
            final(self).spec_elements()[index as int].name == name,
            final(self).spec_elements()[index as int].attributes@ == attributes@,
            final(self).spec_elements()[index as int].parent == if old(self).spec_open().len() == 0 {
                None::<usize>
            } else {
                Some(old(self).spec_open().last())
            },
            final(self).spec_open() == old(self).spec_open(),
            final(self).spec_root() == old(self).spec_root(),
            final(self).spec_texts() == old(self).spec_texts().push(Seq::<char>::empty()),
            state_of(*final(self)) == spec_opened(state_of(*old(self)), name@, pair_views(attributes@)),
    {
        let ghost name_view = name@;
        let ghost pairs = pair_views(attributes@);
        let index = self.doc.elements.len();
        let parent = if self.open.len() == 0 {
            None
        } else {
            Some(self.open[self.open.len() - 1])
        };
        self.doc.elements.push(Element { name, attributes, parent });
        self.doc.texts.push(String::new());
        assert(self.doc.elements@.subrange(0, index as int) =~= old(self).doc.elements@);
        assert(text_views(self.doc.texts@) =~= text_views(old(self).doc.texts@).push(Seq::<char>::empty()));
        assert(element_views(self.doc.elements@) =~= element_views(old(self).doc.elements@).push(
            ElementView { name: name_view, attributes: pairs, parent },
        ));
        index
    }

    /// Closes element `index`: it becomes the root when nothing else is
    /// open, which fails when a root was closed before.
    fn close(&mut self, index: usize) -> (closed: Result<(), XmlError>)
        requires
            old(self).well_formed(),
            index < old(self).spec_elements().len(),
        ensures
            final(self).well_formed(),
            final(self).spec_elements() == old(self).spec_elements(),
            final(self).spec_open() == old(self).spec_open(),
            final(self).spec_texts() == old(self).spec_texts(),
            old(self).spec_open().len() > 0 ==> closed is Ok && final(self).spec_root() == old(
                self,
            ).spec_root(),
            old(self).spec_open().len() == 0 ==> if old(self).spec_root() is Some {
                closed matches Err(XmlError::MultipleRoots)
            } else {
                closed is Ok && final(self).spec_root() == Some(index)
            },
            match spec_close(state_of(*old(self)), index) {
                Ok(t) => closed is Ok && state_of(*final(self)) == t,
                Err(e) => closed matches Err(x) && error_view(x) == e,
            },
    {
        if self.open.len() == 0 {
            if self.root.is_some() {
                return Err(XmlError::MultipleRoots);
            }
            self.root = Some(index);
        }
        Ok(())
    }

    /// A start tag: the element opens, inside the innermost open element.
    pub fn start(&mut self, name: String, attributes: Vec<(String, String)>) -> (started: Result<(), XmlError>)
        requires
            old(self).well_formed(),
        ensures
            final(self).well_formed(),
            started is Ok <==> distinct_keys(attributes@),
            started matches Err(e) ==> (e matches XmlError::DuplicateAttribute { element, key }
                && element@ == name@),
            started is Err ==> {
                &&& final(self).spec_elements() == old(self).spec_elements()
                &&& final(self).spec_open() == old(self).spec_open()
                &&& final(self).spec_root() == old(self).spec_root()
                &&& final(self).spec_texts() == old(self).spec_texts()
            },
            started is Ok ==> {
                &&& final(self).spec_elements().len() == old(self).spec_elements().len() + 1
                &&& final(self).spec_elements().subrange(0, old(self).spec_elements().len() as int)
                    == old(self).spec_elements()
                &&& opened_as(final(self).spec_elements().last(), name@, attributes@, old(self).spec_open())
                &&& final(self).spec_open() == old(self).spec_open().push(old(self).spec_elements().len() as usize)
                &&& final(self).spec_root() == old(self).spec_root()
                &&& final(self).spec_texts() == old(self).spec_texts().push(Seq::<char>::empty())
            },
            match spec_start(state_of(*old(self)), name@, pair_views(attributes@)) {
                Ok(t) => started is Ok && state_of(*final(self)) == t,
                Err(e) => started matches Err(x) && error_view(x) == e,
            },
    {
        check_attributes(&name, &attributes)?;
        let index = self.add(name, attributes);
        self.open.push(index);
        Ok(())
    }

    /// An empty-element tag: the element opens and closes at once.
    pub fn empty(&mut self, name: String, attributes: Vec<(String, String)>) -> (added: Result<(), XmlError>)
        requires
            old(self).well_formed(),
        ensures
            final(self).well_formed(),
            !distinct_keys(attributes@) ==> (added matches Err(e) && e matches XmlError::DuplicateAttribute {
                element,
                key,
            } && element@ == name@),
            !distinct_keys(attributes@) ==> {
                &&& final(self).spec_elements() == old(self).spec_elements()
                &&& final(self).spec_open() == old(self).spec_open()
                &&& final(self).spec_root() == old(self).spec_root()
                &&& final(self).spec_texts() == old(self).spec_texts()
            },
            distinct_keys(attributes@) ==> {
                &&& final(self).spec_elements().len() == old(self).spec_elements().len() + 1
                &&& final(self).spec_elements().subrange(0, old(self).spec_elements().len() as int)
                    == old(self).spec_elements()
                &&& opened_as(final(self).spec_elements().last(), name@, attributes@, old(self).spec_open())
                &&& final(self).spec_texts() == old(self).spec_texts().push(Seq::<char>::empty())
                &&& added is Ok ==> final(self).spec_root() == if old(self).spec_open().len() == 0 {
                    Some(old(self).spec_elements().len() as usize)
                } else {
                    old(self).spec_root()
                }
                &&& final(self).spec_open() == old(self).spec_open()
                &&& old(self).spec_open().len() == 0 && old(self).spec_root() is Some ==> (added matches Err(
                    XmlError::MultipleRoots,
                ))
                &&& !(old(self).spec_open().len() == 0 && old(self).spec_root() is Some) ==> added is Ok
            },
            match spec_empty(state_of(*old(self)), name@, pair_views(attributes@)) {
                Ok(t) => added is Ok && state_of(*final(self)) == t,
                Err(e) => added matches Err(x) && error_view(x) == e,
            },
    {
        check_attributes(&name, &attributes)?;
        let index = self.add(name, attributes);
        self.close(index)
    }

    /// Text inside the innermost open element is appended to its text; text
    /// outside every element is dropped.
    pub fn text(&mut self, text: &str)
        requires
            old(self).well_formed(),
        ensures
            final(self).well_formed(),
            final(self).spec_elements() == old(self).spec_elements(),
            final(self).spec_open() == old(self).spec_open(),
            final(self).spec_root() == old(self).spec_root(),
            final(self).spec_texts() == if old(self).spec_open().len() == 0 {
                old(self).spec_texts()
            } else {
                let top = old(self).spec_open().last() as int;
                old(self).spec_texts().update(top, old(self).spec_texts()[top] + text@)
            },
            state_of(*final(self)) == spec_text(state_of(*old(self)), text@),
    {
        if self.open.len() == 0 {
            return;
        }
        let top = self.open[self.open.len() - 1];
        let mut updated = self.doc.texts[top].clone();
        let ghost base = self.doc.texts@[top as int]@;
        assert(updated@ == base);
        let chars = chars_of(text);
        let mut k: usize = 0;
        while k < chars.len()
            invariant
                k <= chars@.len(),
                updated@ == base + chars@.take(k as int),
            decreases chars@.len() - k,
        {
            push_char(&mut updated, chars[k]);
            assert(chars@.take(k + 1) =~= chars@.take(k as int).push(chars@[k as int]));
            k += 1;
        }
        assert(chars@.take(chars@.len() as int) =~= chars@);
        self.doc.texts.set(top, updated);
        assert(text_views(self.doc.texts@) =~= text_views(old(self).doc.texts@).update(
            top as int,
            base + text@,
        ));
    }

    /// A run of character data between two pieces of markup: without its
    /// surrounding XML white space it is appended as text, and a run of white
    /// space alone is dropped.
    pub fn text_run(&mut self, run: &[char])
        requires
            old(self).well_formed(),
        ensures
            final(self).well_formed(),
            final(self).spec_elements() == old(self).spec_elements(),
            final(self).spec_open() == old(self).spec_open(),
            final(self).spec_root() == old(self).spec_root(),
            final(self).spec_texts() == if old(self).spec_open().len() == 0 || xml_trimmed(run@).len()
                == 0 {
                old(self).spec_texts()
            } else {
                let top = old(self).spec_open().last() as int;
                old(self).spec_texts().update(top, old(self).spec_texts()[top] + xml_trimmed(run@))
            },
            state_of(*final(self)) == spec_run(state_of(*old(self)), run@),
    {
        let kept = xml_trim(run);
        if kept.len() > 0 {
            let text = string_from(kept.as_slice());
            self.text(text.as_str());
        }
    }

    /// A closing tag: it must close the innermost open element, by name.
    pub fn end(&mut self, name: &str) -> (ended: Result<(), XmlError>)
        requires
            old(self).well_formed(),
        ensures
            final(self).well_formed(),
            final(self).spec_elements() == old(self).spec_elements(),
            final(self).spec_texts() == old(self).spec_texts(),
            old(self).spec_open().len() == 0 ==> (ended matches Err(XmlError::UnmatchedClose)),
            old(self).spec_open().len() > 0 && old(self).spec_elements()[old(self).spec_open().last() as int].name@
                != name@ ==> (ended matches Err(XmlError::CloseMismatch { element }) && element@
                == old(self).spec_elements()[old(self).spec_open().last() as int].name@),
            old(self).spec_open().len() > 0 && old(self).spec_elements()[old(self).spec_open().last() as int].name@
                == name@ ==> {
                &&& final(self).spec_open() == old(self).spec_open().drop_last()
                &&& old(self).spec_open().len() == 1 && old(self).spec_root() is Some ==> (ended matches Err(
                    XmlError::MultipleRoots,
                ))
                &&& !(old(self).spec_open().len() == 1 && old(self).spec_root() is Some) ==> ended is Ok
            },
            match spec_end(state_of(*old(self)), name@) {
                Ok(t) => ended is Ok && state_of(*final(self)) == t,
                Err(e) => ended matches Err(x) && error_view(x) == e,
            },
    {
        if self.open.len() == 0 {
            return Err(XmlError::UnmatchedClose);
        }
        let index = self.open.pop().unwrap();
        let (_, same) = compare_text(self.doc.elements[index].name.as_str(), name);
        if !same {
            return Err(XmlError::CloseMismatch { element: self.doc.elements[index].name.clone() });
        }
        self.close(index)
    }

    /// The finished document, with the index of its root; it fails when an
    /// element is still open or there is no element.
    pub fn finish(self) -> (document: Result<(Document, usize), XmlError>)
        requires
            self.well_formed(),
        ensures
            self.spec_open().len() > 0 ==> (document matches Err(XmlError::Unclosed)),
            self.spec_open().len() == 0 && self.spec_root() is None ==> (document matches Err(
                XmlError::NoRoot,
            )),
            self.spec_open().len() == 0 && self.spec_root() is Some ==> (document matches Ok((d, r))
                && is_tree(&d) && d.elements@ == self.spec_elements() && text_views(d.texts@)
                == self.spec_texts() && Some(r) == self.spec_root()),
            finished_as(document, spec_finish(state_of(self))),
    {
        if self.open.len() > 0 {
            return Err(XmlError::Unclosed);
        }
        match self.root {
            None => Err(XmlError::NoRoot),
            Some(r) => Ok((self.doc, r)),
        }
    }
}

/// Whether `document` is the outcome `expected` describes as text.
pub open spec fn finished_as(
    document: Result<(Document, usize), XmlError>,
    expected: Result<(DocView, usize), XmlErrorView>,
) -> bool {
    match (document, expected) {
        (Ok((d, r)), Ok((v, w))) => doc_view(d) == v && r == w,
        (Err(e), Err(v)) => error_view(e) == v,
        _ => false,
    }
}

/// Reads `xml` into a document: its elements with their attributes and
/// text, and the index of the root element; the outcome is the one
/// `built_document` describes for the reader's events on `xml`.
pub fn parse_document(xml: &str) -> (document: Result<(Document, usize), XmlError>)
    ensures
        document matches Ok((d, r)) ==> is_tree(&d) && r < d.elements@.len(),
        finished_as(document, built_document(xml@)),
{
    let mut cursor = XmlCursor::new(xml);
    let mut builder = DocumentBuilder::new();
    // Every read but the last consumes at least one byte, and a character
    // takes at most four, so the end comes within `4 * len + 1` reads.
    let limit = (xml.unicode_len() as u128) * 4;
    let ghost target = built_document(xml@);
    let mut reads: u128 = 0;
    let mut finished = false;
    // Character data and references between two pieces of markup form one run.
    let mut run: Vec<char> = Vec::new();
    assert(run@ =~= Seq::<char>::empty());
    while !finished && reads <= limit
        invariant
            builder.well_formed(),
            limit == 4 * xml@.len(),
            cursor.spec_text() == xml@,
            cursor.spec_reads() == reads,
            target == built_document(xml@),
            !finished ==> build_from(xml@, limit as nat, reads as nat, state_of(builder), run@)
                == target,
            finished ==> spec_finish(state_of(builder)) == target,
        decreases limit + 1 - reads,
    {
        let ghost s = state_of(builder);
        let ghost pending = run@;
        let read = read_xml_event(&mut cursor);
        let ghost seen = xml_event_at(xml@, reads as nat);
        assert(event_view(read) == seen);
        assert(target == match step(s, pending, seen) {
            Step::Continue(t, r) => build_from(xml@, limit as nat, (reads + 1) as nat, t, r),
            Step::Finished(t) => spec_finish(t),
            Step::Failed(e) => Err(e),
        });
        reads += 1;
        let event = match read {
            Ok(event) => event,
            Err((position, message)) => return Err(XmlError::Read { position, message }),
        };
        let in_run = match &event {
            XmlEvent::Text(_) | XmlEvent::Reference(_) => true,
            _ => false,
        };
        if !in_run {
            builder.text_run(run.as_slice());
            run.clear();
        }
        match event {
            XmlEvent::Start((name, attributes)) => {
                let attributes = match attributes {
                    Ok(a) => a,
                    Err(message) => return Err(XmlError::Attribute { message }),
                };
                match builder.start(name, attributes) {
                    Ok(()) => {},
                    Err(e) => return Err(e),
                }
            },
            XmlEvent::Empty((name, attributes)) => {
                let attributes = match attributes {
                    Ok(a) => a,
                    Err(message) => return Err(XmlError::Attribute { message }),
                };
                match builder.empty(name, attributes) {
                    Ok(()) => {},
                    Err(e) => return Err(e),
                }
            },
            XmlEvent::Text(text) => {
                let mut chars = chars_of(text.as_str());
                run.append(&mut chars);
                assert(step(s, pending, seen) == Step::Continue(s, run@));
            },
            XmlEvent::Reference(name) => {
                let mut chars = chars_of(name.as_str());
                run.push('&');
                run.append(&mut chars);
                run.push(';');
                assert(run@ =~= pending + seq!['&'] + name@ + seq![';']);
                assert(step(s, pending, seen) == Step::Continue(s, run@));
            },
            XmlEvent::CData(text) => builder.text(text.as_str()),
            XmlEvent::End(name) => match builder.end(name.as_str()) {
                Ok(()) => {},
                Err(e) => return Err(e),
            },
            XmlEvent::Eof => {
                finished = true;
            },
            XmlEvent::Other => {},
        }
    }
    builder.finish()
}

impl XmlError {
    /// The text this error displays.
    pub open spec fn spec_message(&self) -> Seq<char> {
        match self {
            XmlError::Read { position, message } => "read XML near byte "@ + decimal(*position as nat)
                + ": "@ + message@,
            XmlError::Attribute { message } => "parse XML attribute: "@ + message@,
            XmlError::DuplicateAttribute { element, key } => "XML element "@ + element@
                + " contains duplicate attribute "@ + key@,
            XmlError::UnmatchedClose => "XML closing tag has no opening tag"@,
            XmlError::CloseMismatch { element } => "XML closing tag does not match "@ + element@,
            XmlError::MultipleRoots => "XML has more than one root element"@,
            XmlError::Unclosed => "XML ended before all elements were closed"@,
            XmlError::NoRoot => "XML has no root element"@,
        }
    }

    /// Renders the error.
    pub fn message(&self) -> (text: String)
        ensures
            text@ == self.spec_message(),
    {
        let mut text = String::new();
        match self {
            XmlError::Read { position, message } => {
                push_str(&mut text, "read XML near byte ");
                push_decimal(&mut text, *position);
                push_str(&mut text, ": ");
                push_str(&mut text, message.as_str());
            },
            XmlError::Attribute { message } => {
                push_str(&mut text, "parse XML attribute: ");
                push_str(&mut text, message.as_str());
            },
            XmlError::DuplicateAttribute { element, key } => {
                push_str(&mut text, "XML element ");
                push_str(&mut text, element.as_str());
                push_str(&mut text, " contains duplicate attribute ");
                push_str(&mut text, key.as_str());
            },
            XmlError::UnmatchedClose => push_str(&mut text, "XML closing tag has no opening tag"),
            XmlError::CloseMismatch { element } => {
                push_str(&mut text, "XML closing tag does not match ");
                push_str(&mut text, element.as_str());
            },
            XmlError::MultipleRoots => push_str(&mut text, "XML has more than one root element"),
            XmlError::Unclosed => push_str(&mut text, "XML ended before all elements were closed"),
            XmlError::NoRoot => push_str(&mut text, "XML has no root element"),
        }
        assert(text@ =~= self.spec_message());
        text
    }
}

} // verus!
