use vstd::prelude::*;

use vstd::string::StrSliceExecFns;

use quick_xml::events::Event;

use crate::network::app_data::from_utf8_lossy;
use crate::strmap::StrMap;
use crate::text::owned;

verus! {

// ── Tokens ───────────────────────────────────────────────────────────────

/// One token of an XML document, as the tokenizer reports it: element
/// names and attribute texts as text, text content already unescaped (or
/// the reason it could not be).
pub enum XmlToken {
    Start(Seq<char>, Seq<AttrView>),
    Empty(Seq<char>, Seq<AttrView>),
    End(Seq<char>),
    Text(Result<Seq<char>, Seq<char>>),
    Eof,
    Error(Seq<char>),
    Other,
}

/// One token of an XML document.
pub enum XmlEvent {
    /// An opening tag with its attributes (name and raw value).
    Start { name: String, attrs: Vec<Result<(String, String), String>> },
    /// A self-closing tag with its attributes.
    Empty { name: String, attrs: Vec<Result<(String, String), String>> },
    /// A closing tag.
    End { name: String },
    /// Text content, unescaped, or why it could not be unescaped.
    Text(Result<String, String>),
    /// The end of the document.
    Eof,
    /// A syntax error; the document ends here.
    Error(String),
    /// Anything else: comments, declarations, CDATA.
    Other,
}

/// One attribute as the tokenizer reads it: its name and raw value, or
/// why it could not be read.
pub type AttrView = Result<(Seq<char>, Seq<char>), Seq<char>>;

/// The view of one attribute.
pub open spec fn attr_view(a: Result<(String, String), String>) -> AttrView {
    match a {
        Ok(p) => Ok((p.0@, p.1@)),
        Err(e) => Err(e@),
    }
}

/// The view of a tag's attributes.
pub open spec fn attrs_view(a: Seq<Result<(String, String), String>>) -> Seq<AttrView> {
    a.map_values(|p: Result<(String, String), String>| attr_view(p))
}

impl View for XmlEvent {
    type V = XmlToken;

    open spec fn view(&self) -> XmlToken {
        match self {
            XmlEvent::Start { name, attrs } => XmlToken::Start(name@, attrs_view(attrs@)),
            XmlEvent::Empty { name, attrs } => XmlToken::Empty(name@, attrs_view(attrs@)),
            XmlEvent::End { name } => XmlToken::End(name@),
            XmlEvent::Text(t) => XmlToken::Text(
                match t {
                    Ok(s) => Ok(s@),
                    Err(e) => Err(e@),
                },
            ),
            XmlEvent::Eof => XmlToken::Eof,
            XmlEvent::Error(e) => XmlToken::Error(e@),
            XmlEvent::Other => XmlToken::Other,
        }
    }
}

/// The `k`-th token (from 0) that the tokenizer reads from `xml` with text
/// trimming on.
pub uninterp spec fn glitch_xml_token(xml: Seq<char>, k: nat) -> XmlToken;

#[verifier::external_type_specification]
#[verifier::external_body]
#[verifier::reject_recursive_types(R)]
pub struct ExXmlReader<R>(quick_xml::Reader<R>);

#[verifier::external_type_specification]
#[verifier::external_body]
pub struct ExBytesStart<'a>(quick_xml::events::BytesStart<'a>);

#[verifier::external_type_specification]
#[verifier::external_body]
pub struct ExBytesText<'a>(quick_xml::events::BytesText<'a>);

/// Trusted: the attributes of a tag, through `BytesStart::attributes`, in
/// order, one for one: names and raw (not unescaped) values read as text,
/// or the message of an attribute that does not parse.
#[verifier::external_body]
fn attr_pairs(e: &quick_xml::events::BytesStart) -> Vec<Result<(String, String), String>> {
    e.attributes().map(|a| match a {
        Ok(a) => Ok((from_utf8_lossy(a.key.as_ref()), from_utf8_lossy(&a.value))),
        Err(err) => Err(err.to_string()),
    }).collect()
}

/// Trusted: the unescaped text of a text token, through
/// `BytesText::unescape`, or the error's message.
#[verifier::external_body]
fn text_of(e: &quick_xml::events::BytesText) -> Result<String, String> {
    match e.unescape() {
        Ok(t) => Ok(t.into_owned()),
        Err(err) => Err(err.to_string()),
    }
}

/// Reads the tokens of one XML document in order.
pub(crate) struct GlitchXmlReader<'a> {
    reader: quick_xml::Reader<&'a [u8]>,
    xml: Ghost<Seq<char>>,
    count: Ghost<nat>,
}

impl<'a> GlitchXmlReader<'a> {
    /// The document being read.
    pub(crate) closed spec fn source(&self) -> Seq<char> {
        self.xml@
    }

    /// How many tokens have been read.
    pub(crate) closed spec fn position(&self) -> nat {
        self.count@
    }

    /// Trusted: a reader for `xml` through `quick_xml::Reader::from_str`,
    /// with text trimmed at both ends.
    #[verifier::external_body]
    pub(crate) fn new(xml: &'a str) -> (r: Self)
        ensures
            r.source() == xml@,
            r.position() == 0,
    {
        let mut reader = quick_xml::Reader::from_str(xml);
        reader.config_mut().trim_text(true);
        GlitchXmlReader { reader, xml: Ghost(xml@), count: Ghost(0) }
    }

    /// Trusted: the next token, through `Reader::read_event`, converted
    /// one for one (names as text, text unescaped, errors as their message).
    #[verifier::external_body]
    pub(crate) fn next(&mut self) -> (e: XmlEvent)
        ensures
            e@ == glitch_xml_token(old(self).source(), old(self).position()),
            final(self).source() == old(self).source(),
            final(self).position() == old(self).position() + 1,
    {
        self.count = Ghost((self.count@ + 1) as nat);
        match self.reader.read_event() {
            Ok(Event::Start(e)) => XmlEvent::Start { name: from_utf8_lossy(e.name().as_ref()), attrs: attr_pairs(&e) },
            Ok(Event::Empty(e)) => XmlEvent::Empty { name: from_utf8_lossy(e.name().as_ref()), attrs: attr_pairs(&e) },
            Ok(Event::End(e)) => XmlEvent::End { name: from_utf8_lossy(e.name().as_ref()) },
            Ok(Event::Text(e)) => XmlEvent::Text(text_of(&e)),
            Ok(Event::Eof) => XmlEvent::Eof,
            Ok(_) => XmlEvent::Other,
            Err(err) => XmlEvent::Error(err.to_string()),
        }
    }
}

/// Whether a token ends the document.
pub open spec fn is_last_token(t: XmlToken) -> bool {
    t is Eof || t is Error
}

/// The tokens of `xml` from the `k`-th on, up to and including the one that
/// ends the document, but no more than `fuel` of them.
pub open spec fn tokens_from(xml: Seq<char>, k: nat, fuel: nat) -> Seq<XmlToken>
    decreases fuel,
{
    if fuel == 0 {
        Seq::empty()
    } else {
        let t = glitch_xml_token(xml, k);
        if is_last_token(t) {
            seq![t]
        } else {
            seq![t] + tokens_from(xml, k + 1, (fuel - 1) as nat)
        }
    }
}

/// The views of a list of tokens.
pub open spec fn events_view(v: Seq<XmlEvent>) -> Seq<XmlToken> {
    v.map_values(|e: XmlEvent| e@)
}

/// Read every token of `xml`, up to the end of the document (every token
/// but the last takes up at least one byte, so there are at most one more
/// tokens than bytes).
pub fn tokenize(xml: &str) -> (v: Vec<XmlEvent>)
    ensures
        events_view(v@) == tokens_from(xml@, 0, (xml.len() + 1) as nat),
{
    let fuel0 = xml.len();
    let mut reader = GlitchXmlReader::new(xml);
    let mut v: Vec<XmlEvent> = Vec::new();
    let mut fuel: usize = fuel0;
    loop
        invariant
            reader.source() == xml@,
            fuel0 == xml.len(),
            fuel <= fuel0,
            reader.position() == fuel0 - fuel,
            events_view(v@) + tokens_from(xml@, reader.position(), (fuel + 1) as nat)
                == tokens_from(xml@, 0, (fuel0 + 1) as nat),
        decreases fuel,
    {
        let ghost k = reader.position();
        let e = reader.next();
        let last = match &e {
            XmlEvent::Eof => true,
            XmlEvent::Error(_) => true,
            _ => false,
        };
        let ghost before = v@;
        v.push(e);
        proof {
            assert(events_view(v@) =~= events_view(before).push(e@));
        }
        if last || fuel == 0 {
            proof {
                assert(is_last_token(e@) == last);
                if !last {
                    assert(tokens_from(xml@, k + 1, 0) =~= Seq::<XmlToken>::empty());
                }
                assert(tokens_from(xml@, k, (fuel + 1) as nat) =~= seq![e@]);
                assert(events_view(v@) =~= tokens_from(xml@, 0, (fuel0 + 1) as nat));
            }
            return v;
        }
        fuel = fuel - 1;
        proof {
            assert(events_view(before).push(e@) + tokens_from(xml@, k + 1, (fuel + 1) as nat)
                =~= events_view(before) + tokens_from(xml@, k, (fuel + 2) as nat));
        }
    }
}

// ── Values ───────────────────────────────────────────────────────────────

/// A value of Glitch's typed-value XML, as a mathematical value.
pub enum XmlTree {
    Int(i64),
    Str(Seq<char>),
    Bool(bool),
    Null,
    Object(Map<Seq<char>, XmlTree>),
    ObjRef(Seq<char>, Seq<char>),
}

/// A value of Glitch's typed-value XML: `<int>`, `<str>`, `<bool>`,
/// `<null/>`, `<object>` (and `<objrefs>`) with named children, and
/// `<objref>` pointing at another object.
pub enum XmlValue {
    Int(i64),
    Str(String),
    Bool(bool),
    Null,
    Object(StrMap<XmlValue>),
    ObjRef { tsid: String, label: String },
}

impl XmlValue {
    /// The integer, for an `<int>`.
    pub fn as_int(&self) -> (r: Option<i64>)
        ensures
            r == (match self {
                XmlValue::Int(v) => Some(*v),
                _ => None,
            }),
    {
        match self {
            XmlValue::Int(v) => Some(*v),
            _ => None,
        }
    }

    /// The text, for a `<str>`.
    pub fn as_str(&self) -> (r: Option<&str>)
        ensures
            match r {
                Some(t) => self is Str && t@ == self->Str_0@,
                None => !(self is Str),
            },
    {
        match self {
            XmlValue::Str(v) => Some(v.as_str()),
            _ => None,
        }
    }

    /// The flag, for a `<bool>`.
    pub fn as_bool(&self) -> (r: Option<bool>)
        ensures
            r == (match self {
                XmlValue::Bool(b) => Some(*b),
                _ => None,
            }),
    {
        match self {
            XmlValue::Bool(b) => Some(*b),
            _ => None,
        }
    }

    /// The named children, for an object.
    pub fn as_object(&self) -> (r: Option<&StrMap<XmlValue>>)
        ensures
            match r {
                Some(m) => self is Object && *m == self->Object_0,
                None => !(self is Object),
            },
    {
        match self {
            XmlValue::Object(m) => Some(m),
            _ => None,
        }
    }

    /// The child called `key`, for an object.
    pub fn get(&self, key: &str) -> (r: Option<&XmlValue>)
        ensures
            match r {
                Some(v) => self is Object && self->Object_0@.contains_key(key@) && *v == self->Object_0@[key@],
                None => !(self is Object && self->Object_0@.contains_key(key@)),
            },
    {
        match self {
            XmlValue::Object(m) => {
                let n = m.entries.len();
                let mut i: usize = n;
                proof {
                    assert(m.entries@.take(n as int) =~= m.entries@);
                }
                while i > 0
                    invariant
                        self is Object,
                        self->Object_0 == *m,
                        n == m.entries@.len(),
                        i <= n,
                        crate::strmap::lookup(m.entries@, key@) == crate::strmap::lookup(
                            m.entries@.take(i as int),
                            key@,
                        ),
                    decreases i,
                {
                    let ghost pre = m.entries@.take(i as int);
                    proof {
                        assert(pre.last() == m.entries@[i - 1]);
                        assert(pre.drop_last() =~= m.entries@.take(i - 1));
                    }
                    if crate::strmap::str_eq(m.entries[i - 1].0.as_str(), key) {
                        proof {
                            assert(crate::strmap::lookup(pre, key@) == Some(m.entries@[i - 1].1));
                            assert(m@.contains_key(key@));
                        }
                        return Some(&m.entries[i - 1].1);
                    }
                    i = i - 1;
                }
                proof {
                    assert(m.entries@.take(0).len() == 0);
                }
                None
            },
            _ => None,
        }
    }
}

/// The mathematical value of `v`.
pub open spec fn tree_of(v: XmlValue) -> XmlTree
    decreases v,
{
    match v {
        XmlValue::Int(i) => XmlTree::Int(i),
        XmlValue::Str(s) => XmlTree::Str(s@),
        XmlValue::Bool(b) => XmlTree::Bool(b),
        XmlValue::Null => XmlTree::Null,
        XmlValue::Object(m) => XmlTree::Object(trees_of(m.entries@)),
        XmlValue::ObjRef { tsid, label } => XmlTree::ObjRef(tsid@, label@),
    }
}

/// The named children of an object, as mathematical values; a later entry
/// wins over an earlier one with the same name.
pub open spec fn trees_of(s: Seq<(String, XmlValue)>) -> Map<Seq<char>, XmlTree>
    decreases s,
{
    if s.len() == 0 {
        Map::empty()
    } else {
        trees_of(s.drop_last()).insert(s.last().0@, tree_of(s.last().1))
    }
}

/// The children, entry by entry, are what the map view looks up.
pub proof fn lemma_trees_of(s: Seq<(String, XmlValue)>, k: Seq<char>)
    ensures
        trees_of(s).contains_key(k) <==> crate::strmap::lookup(s, k) is Some,
        crate::strmap::lookup(s, k) is Some ==> trees_of(s)[k] == tree_of(crate::strmap::lookup(s, k)->0),
    decreases s.len(),
{
    if s.len() > 0 {
        lemma_trees_of(s.drop_last(), k);
    }
}

/// Inserting into a name map inserts into its mathematical value.
pub proof fn lemma_trees_insert(before: Seq<(String, XmlValue)>, after: Seq<(String, XmlValue)>, k: Seq<char>, v: XmlValue)
    requires
        crate::strmap::map_of(after) == crate::strmap::map_of(before).insert(k, v),
    ensures
        trees_of(after) == trees_of(before).insert(k, tree_of(v)),
{
    assert forall|x: Seq<char>| #[trigger] trees_of(after).contains_key(x) == trees_of(before).insert(k, tree_of(v)).contains_key(x) by {
        lemma_trees_of(after, x);
        lemma_trees_of(before, x);
        assert(crate::strmap::map_of(after).contains_key(x) == (crate::strmap::lookup(after, x) is Some));
        assert(crate::strmap::map_of(before).contains_key(x) == (crate::strmap::lookup(before, x) is Some));
    }
    assert forall|x: Seq<char>| #[trigger] trees_of(after).contains_key(x) implies trees_of(after)[x] == trees_of(before).insert(k, tree_of(v))[x] by {
        lemma_trees_of(after, x);
        lemma_trees_of(before, x);
        assert(crate::strmap::map_of(after)[x] == crate::strmap::lookup(after, x)->0);
        if x != k {
            assert(crate::strmap::map_of(before)[x] == crate::strmap::lookup(before, x)->0);
        }
    }
    assert(trees_of(after) =~= trees_of(before).insert(k, tree_of(v)));
}

// ── Integers ─────────────────────────────────────────────────────────────

/// Whether `d` is a non-empty run of ASCII digits.
pub open spec fn all_digits(d: Seq<char>) -> bool {
    d.len() > 0 && forall|i: int| 0 <= i < d.len() ==> '0' <= #[trigger] d[i] <= '9'
}

/// The decimal value of a run of ASCII digits.
pub open spec fn digits_value(d: Seq<char>) -> int
    decreases d.len(),
{
    if d.len() == 0 {
        0
    } else {
        10 * digits_value(d.drop_last()) + (d.last() as int - '0' as int)
    }
}

/// The integer that `t` writes, as `i64`'s `FromStr` reads it: an optional
/// `+` or `-`, then one or more ASCII digits, within the range of `i64`.
pub open spec fn parse_i64_spec(t: Seq<char>) -> Option<i64> {
    let neg = t.len() > 0 && t[0] == '-';
    let signed = t.len() > 0 && (t[0] == '-' || t[0] == '+');
    let d = if signed {
        t.drop_first()
    } else {
        t
    };
    if !all_digits(d) {
        None
    } else {
        let v = if neg {
            -digits_value(d)
        } else {
            digits_value(d)
        };
        if i64::MIN <= v <= i64::MAX {
            Some(v as i64)
        } else {
            None
        }
    }
}

/// Digit values only grow as digits are added.
pub proof fn lemma_digits_value_nonneg(d: Seq<char>)
    requires
        forall|i: int| 0 <= i < d.len() ==> '0' <= #[trigger] d[i] <= '9',
    ensures
        digits_value(d) >= 0,
    decreases d.len(),
{
    if d.len() > 0 {
        lemma_digits_value_nonneg(d.drop_last());
    }
}

/// Read an `i64` written in decimal.
pub fn parse_i64(t: &str) -> (r: Option<i64>)
    ensures
        r == parse_i64_spec(t@),
{
    let n = t.unicode_len();
    let mut start: usize = 0;
    let mut neg = false;
    if n > 0 {
        let c = t.get_char(0);
        if c == '-' {
            neg = true;
            start = 1;
        } else if c == '+' {
            start = 1;
        }
    }
    let ghost d = t@.skip(start as int);
    proof {
        if n > 0 && (t@[0] == '-' || t@[0] == '+') {
            assert(d =~= t@.drop_first());
        } else {
            assert(d =~= t@);
        }
    }
    if start >= n {
        proof {
            assert(d.len() == 0);
            assert(!all_digits(d));
        }
        return None;
    }
    let limit: i128 = 9_223_372_036_854_775_808;
    let cap: i128 = 9_223_372_036_854_775_809;
    let mut v: i128 = 0;
    let mut i: usize = start;
    while i < n
        invariant
            n == t@.len(),
            d == t@.skip(start as int),
            start <= 1,
            (t@.len() > 0 && (t@[0] == '-' || t@[0] == '+')) == (start == 1),
            neg == (t@.len() > 0 && t@[0] == '-'),
            d == (if t@.len() > 0 && (t@[0] == '-' || t@[0] == '+') {
                t@.drop_first()
            } else {
                t@
            }),
            start <= i <= n,
            0 <= v <= cap,
            limit == 9_223_372_036_854_775_808i128,
            cap == limit + 1,
            forall|j: int| 0 <= j < i - start ==> '0' <= #[trigger] d[j] <= '9',
            v == digits_value(d.take(i - start)) || (v == cap && digits_value(d.take(i - start)) >= cap),
        decreases n - i,
    {
        let c = t.get_char(i);
        proof {
            assert(d[i - start] == c);
            assert(d.take(i - start + 1).drop_last() =~= d.take(i - start));
            assert(d.take(i - start + 1).last() == c);
        }
        if c < '0' || c > '9' {
            proof {
                assert(!all_digits(d));
            }
            return None;
        }
        let digit = (c as u32 - '0' as u32) as i128;
        proof {
            lemma_digits_value_nonneg(d.take(i - start));
        }
        if v >= cap || v * 10 + digit >= cap {
            v = cap;
        } else {
            v = v * 10 + digit;
        }
        i = i + 1;
    }
    proof {
        assert(d.take(n - start) =~= d);
        assert(all_digits(d));
    }
    if neg {
        if v > limit {
            None
        } else {
            Some((0 - v) as i64)
        }
    } else {
        if v >= limit {
            None
        } else {
            Some(v as i64)
        }
    }
}

// ── Reading values from tokens ───────────────────────────────────────────

/// The value of the first readable attribute called `name`; attributes
/// that could not be read are passed over.
pub open spec fn attr_of(attrs: Seq<AttrView>, name: Seq<char>) -> Option<Seq<char>>
    decreases attrs.len(),
{
    if attrs.len() == 0 {
        None
    } else if attrs[0] matches Ok(p) && p.0 == name {
        Some(attrs[0]->Ok_0.1)
    } else {
        attr_of(attrs.drop_first(), name)
    }
}

/// The value of the first readable attribute called `name`, or empty text.
pub open spec fn attr_or_empty(attrs: Seq<AttrView>, name: Seq<char>) -> Seq<char> {
    match attr_of(attrs, name) {
        Some(v) => v,
        None => Seq::empty(),
    }
}

/// The message for a document that ends inside `<tag>`.
pub open spec fn eof_in(tag: Seq<char>) -> Seq<char> {
    "Unexpected EOF reading <"@ + tag + ">"@
}

/// Reading the text of `<tag>` from token `i` on: the last text before the
/// closing tag, and the position after it.
pub open spec fn read_text_spec(ts: Seq<XmlToken>, i: int, tag: Seq<char>, text: Seq<char>) -> (
    Result<Seq<char>, Seq<char>>,
    int,
)
    decreases ts.len() - i,
{
    if i < 0 || i >= ts.len() {
        (Err(eof_in(tag)), ts.len() as int)
    } else {
        match ts[i] {
            XmlToken::Text(Ok(t)) => read_text_spec(ts, i + 1, tag, t),
            XmlToken::Text(Err(m)) => (Err(m), i + 1),
            XmlToken::End(n) => if n == tag {
                (Ok(text), i + 1)
            } else {
                read_text_spec(ts, i + 1, tag, text)
            },
            XmlToken::Eof => (Err(eof_in(tag)), i + 1),
            XmlToken::Error(m) => (Err("XML error in <"@ + tag + ">: "@ + m), i + 1),
            _ => read_text_spec(ts, i + 1, tag, text),
        }
    }
}

/// Skipping an element `<tag>` whose opening tag was read, from token `i`
/// on, `depth` levels deep: every opening tag goes one level down, every
/// closing `</tag>` one up; the position after the last closing tag (or
/// after the end of the document).
pub open spec fn skip_spec(ts: Seq<XmlToken>, i: int, tag: Seq<char>, depth: int) -> int
    decreases ts.len() - i,
{
    if i < 0 || i >= ts.len() {
        ts.len() as int
    } else {
        match ts[i] {
            XmlToken::Start(_, _) => skip_spec(ts, i + 1, tag, depth + 1),
            XmlToken::End(n) => if n == tag {
                if depth - 1 == 0 {
                    i + 1
                } else {
                    skip_spec(ts, i + 1, tag, depth - 1)
                }
            } else {
                skip_spec(ts, i + 1, tag, depth)
            },
            XmlToken::Eof => i + 1,
            XmlToken::Error(_) => i + 1,
            _ => skip_spec(ts, i + 1, tag, depth),
        }
    }
}

/// Where reading goes on after a child that started at `i` and ended
/// before `j`.
pub open spec fn step(ts: Seq<XmlToken>, i: int, j: int) -> int {
    if i < j <= ts.len() {
        j
    } else {
        i + 1
    }
}

/// The children after a typed text element `<name id="id">t</name>`.
pub open spec fn with_text_value(m: Map<Seq<char>, XmlTree>, name: Seq<char>, id: Seq<char>, t: Seq<char>) -> Map<Seq<char>, XmlTree> {
    if name == "int"@ {
        match parse_i64_spec(t) {
            Some(v) => m.insert(id, XmlTree::Int(v)),
            None => m,
        }
    } else if name == "str"@ {
        m.insert(id, XmlTree::Str(t))
    } else {
        m.insert(id, XmlTree::Bool(t == "true"@))
    }
}

/// The children after a self-closing element.
pub open spec fn with_empty_value(m: Map<Seq<char>, XmlTree>, name: Seq<char>, attrs: Seq<AttrView>) -> Map<Seq<char>, XmlTree> {
    let id = attr_or_empty(attrs, "id"@);
    if name == "null"@ {
        m.insert(id, XmlTree::Null)
    } else if name == "objref"@ {
        m.insert(id, XmlTree::ObjRef(attr_or_empty(attrs, "tsid"@), attr_or_empty(attrs, "label"@)))
    } else {
        m
    }
}

/// Reading the children of an element `<parent>` from token `i` on, with
/// the children `m` read so far: the object when `</parent>` is reached,
/// and the position after it. Nested `<object>` and `<objrefs>` elements
/// become objects (kept only with a non-empty `id`); `<int>`, `<str>` and
/// `<bool>` hold text (an `<int>` that is no integer is left out);
/// `<objref>` and `<null/>` stand for themselves; anything else is skipped.
pub open spec fn children_spec(ts: Seq<XmlToken>, i: int, parent: Seq<char>, m: Map<Seq<char>, XmlTree>) -> (
    Result<XmlTree, Seq<char>>,
    int,
)
    decreases ts.len() - i,
{
    if i < 0 || i >= ts.len() {
        (Err("Unexpected end of XML in object"@), ts.len() as int)
    } else {
        match ts[i] {
            XmlToken::Start(name, attrs) => {
                let id = attr_or_empty(attrs, "id"@);
                if name == "object"@ || name == "objrefs"@ {
                    let sub = children_spec(ts, i + 1, name, Map::empty());
                    match sub.0 {
                        Err(e) => (Err(e), sub.1),
                        Ok(v) => children_spec(
                            ts,
                            step(ts, i, sub.1),
                            parent,
                            if id.len() > 0 {
                                m.insert(id, v)
                            } else {
                                m
                            },
                        ),
                    }
                } else if name == "int"@ || name == "str"@ || name == "bool"@ {
                    let rt = read_text_spec(ts, i + 1, name, Seq::empty());
                    match rt.0 {
                        Err(e) => (Err(e), rt.1),
                        Ok(t) => children_spec(ts, step(ts, i, rt.1), parent, with_text_value(m, name, id, t)),
                    }
                } else if name == "objref"@ {
                    children_spec(
                        ts,
                        step(ts, i, skip_spec(ts, i + 1, name, 1)),
                        parent,
                        m.insert(id, XmlTree::ObjRef(attr_or_empty(attrs, "tsid"@), attr_or_empty(attrs, "label"@))),
                    )
                } else {
                    children_spec(ts, step(ts, i, skip_spec(ts, i + 1, name, 1)), parent, m)
                }
            },
            XmlToken::Empty(name, attrs) => children_spec(ts, i + 1, parent, with_empty_value(m, name, attrs)),
            XmlToken::End(n) => if n == parent {
                (Ok(XmlTree::Object(m)), i + 1)
            } else {
                children_spec(ts, i + 1, parent, m)
            },
            XmlToken::Eof => (Err("Unexpected end of XML in object"@), i + 1),
            XmlToken::Error(msg) => (Err("XML error: "@ + msg), i + 1),
            _ => children_spec(ts, i + 1, parent, m),
        }
    }
}

/// Reading a document from token `i` on: the value of the first
/// `<game_object>` or `<object>` element.
pub open spec fn root_spec(ts: Seq<XmlToken>, i: int) -> Result<XmlTree, Seq<char>>
    decreases ts.len() - i,
{
    if i < 0 || i >= ts.len() {
        Err("Unexpected end of XML"@)
    } else {
        match ts[i] {
            XmlToken::Start(name, _) => if name == "game_object"@ || name == "object"@ {
                children_spec(ts, i + 1, name, Map::empty()).0
            } else {
                root_spec(ts, i + 1)
            },
            XmlToken::Eof => Err("Unexpected end of XML"@),
            XmlToken::Error(msg) => Err("XML parse error: "@ + msg),
            _ => root_spec(ts, i + 1),
        }
    }
}

/// The view of a reading result.
pub open spec fn result_view(r: Result<XmlValue, String>) -> Result<XmlTree, Seq<char>> {
    match r {
        Ok(v) => Ok(tree_of(v)),
        Err(e) => Err(e@),
    }
}

/// The view of a text reading result.
pub open spec fn text_result_view(r: Result<String, String>) -> Result<Seq<char>, Seq<char>> {
    match r {
        Ok(v) => Ok(v@),
        Err(e) => Err(e@),
    }
}

/// The value of the first readable attribute called `name`, or empty text.
pub fn attr_value(attrs: &Vec<Result<(String, String), String>>, name: &str) -> (r: String)
    ensures
        r@ == attr_or_empty(attrs_view(attrs@), name@),
{
    let n = attrs.len();
    let mut i: usize = 0;
    proof {
        assert(attrs_view(attrs@).skip(0) =~= attrs_view(attrs@));
    }
    while i < n
        invariant
            n == attrs@.len(),
            0 <= i <= n,
            attr_of(attrs_view(attrs@), name@) == attr_of(attrs_view(attrs@).skip(i as int), name@),
        decreases n - i,
    {
        proof {
            let rest = attrs_view(attrs@).skip(i as int);
            assert(rest[0] == attr_view(attrs@[i as int]));
            assert(rest.drop_first() =~= attrs_view(attrs@).skip(i + 1));
        }
        match &attrs[i] {
            Ok(p) => {
                if crate::strmap::str_eq(p.0.as_str(), name) {
                    return p.1.clone();
                }
            },
            Err(_) => {},
        }
        i = i + 1;
    }
    proof {
        assert(attrs_view(attrs@).skip(n as int).len() == 0);
    }
    String::new()
}

/// `a` + `b` + `c` as one string.
fn concat3(a: &str, b: &str, c: &str) -> (r: String)
    ensures
        r@ == a@ + b@ + c@,
{
    let mut r = crate::text::concat2(a, b);
    crate::text::push_str(&mut r, c);
    r
}

/// Read the text of `<tag>` from token `i` on (the opening tag was read):
/// the last text before `</tag>`, and the position after it.
pub fn read_text(ts: &Vec<XmlEvent>, i: usize, tag: &str) -> (r: (Result<String, String>, usize))
    ensures
        (text_result_view(r.0), r.1 as int) == read_text_spec(events_view(ts@), i as int, tag@, Seq::empty()),
        r.1 <= ts@.len(),
        i < ts@.len() ==> r.1 > i,
{
    let ghost v = events_view(ts@);
    let n = ts.len();
    let mut k: usize = i;
    let mut text = String::new();
    while k < n
        invariant
            n == ts@.len(),
            v == events_view(ts@),
            i <= k,
            read_text_spec(v, i as int, tag@, Seq::empty()) == read_text_spec(v, k as int, tag@, text@),
        decreases n - k,
    {
        proof {
            assert(v[k as int] == ts@[k as int]@);
        }
        match &ts[k] {
            XmlEvent::Text(Ok(t)) => {
                text = t.clone();
            },
            XmlEvent::Text(Err(m)) => {
                return (Err(m.clone()), k + 1);
            },
            XmlEvent::End { name } => {
                if crate::strmap::str_eq(name.as_str(), tag) {
                    return (Ok(text), k + 1);
                }
            },
            XmlEvent::Eof => {
                return (Err(concat3("Unexpected EOF reading <", tag, ">")), k + 1);
            },
            XmlEvent::Error(m) => {
                let mut e = concat3("XML error in <", tag, ">: ");
                crate::text::push_str(&mut e, m.as_str());
                return (Err(e), k + 1);
            },
            _ => {},
        }
        k = k + 1;
    }
    (Err(concat3("Unexpected EOF reading <", tag, ">")), n)
}

/// Skip the element `<tag>` whose opening tag was read, from token `i` on;
/// the position after it.
pub fn skip_to_end(ts: &Vec<XmlEvent>, i: usize, tag: &str) -> (r: usize)
    ensures
        r as int == skip_spec(events_view(ts@), i as int, tag@, 1),
        r <= ts@.len(),
        i < ts@.len() ==> r > i,
{
    let ghost v = events_view(ts@);
    let n = ts.len();
    let mut k: usize = i;
    let mut depth: u128 = 1;
    if k >= n {
        return n;
    }
    while k < n
        invariant
            n == ts@.len(),
            v == events_view(ts@),
            i <= k,
            i < n,
            depth >= 1,
            depth <= k - i + 1,
            skip_spec(v, i as int, tag@, 1) == skip_spec(v, k as int, tag@, depth as int),
        decreases n - k,
    {
        proof {
            assert(v[k as int] == ts@[k as int]@);
        }
        match &ts[k] {
            XmlEvent::Start { .. } => {
                depth = depth + 1;
            },
            XmlEvent::End { name } => {
                if crate::strmap::str_eq(name.as_str(), tag) {
                    if depth - 1 == 0 {
                        return k + 1;
                    }
                    depth = depth - 1;
                }
            },
            XmlEvent::Eof => {
                return k + 1;
            },
            XmlEvent::Error(_) => {
                return k + 1;
            },
            _ => {},
        }
        k = k + 1;
    }
    n
}

/// Read the children of `<parent>` from token `i` on (its opening tag was
/// read): the object when `</parent>` is reached, and the position after it.
pub fn parse_children(ts: &Vec<XmlEvent>, i: usize, parent: &str) -> (r: (Result<XmlValue, String>, usize))
    ensures
        (result_view(r.0), r.1 as int) == children_spec(events_view(ts@), i as int, parent@, Map::empty()),
        r.1 <= ts@.len(),
        i < ts@.len() ==> r.1 > i,
    decreases ts@.len() - i,
{
    let ghost v = events_view(ts@);
    let n = ts.len();
    let mut k: usize = i;
    let mut map: StrMap<XmlValue> = StrMap::new();
    proof {
        assert(trees_of(map.entries@) =~= Map::<Seq<char>, XmlTree>::empty());
    }
    while k < n
        invariant
            n == ts@.len(),
            v == events_view(ts@),
            i <= k,
            map.wf(),
            children_spec(v, i as int, parent@, Map::empty()) == children_spec(
                v,
                k as int,
                parent@,
                trees_of(map.entries@),
            ),
        decreases n - k,
    {
        let ghost m0 = trees_of(map.entries@);
        let ghost e0 = map.entries@;
        proof {
            assert(v[k as int] == ts@[k as int]@);
        }
        match &ts[k] {
            XmlEvent::Start { name, attrs } => {
                let id = attr_value(attrs, "id");
                if crate::strmap::str_eq(name.as_str(), "object") || crate::strmap::str_eq(name.as_str(), "objrefs") {
                    let (sub, j) = parse_children(ts, k + 1, name.as_str());
                    match sub {
                        Err(e) => {
                            return (Err(e), j);
                        },
                        Ok(val) => {
                            if !id.as_str().is_empty() {
                                let ghost idv = id@;
                                map.insert(id, val);
                                proof {
                                    lemma_trees_insert(e0, map.entries@, idv, val);
                                }
                            }
                            k = j;
                        },
                    }
                } else if crate::strmap::str_eq(name.as_str(), "int") || crate::strmap::str_eq(name.as_str(), "str")
                    || crate::strmap::str_eq(name.as_str(), "bool") {
                    let (rt, j) = read_text(ts, k + 1, name.as_str());
                    match rt {
                        Err(e) => {
                            return (Err(e), j);
                        },
                        Ok(t) => {
                            let ghost idv = id@;
                            if crate::strmap::str_eq(name.as_str(), "int") {
                                match parse_i64(t.as_str()) {
                                    Some(x) => {
                                        map.insert(id, XmlValue::Int(x));
                                        proof {
                                            lemma_trees_insert(e0, map.entries@, idv, XmlValue::Int(x));
                                        }
                                    },
                                    None => {},
                                }
                            } else if crate::strmap::str_eq(name.as_str(), "str") {
                                let tv = XmlValue::Str(t);
                                let ghost tvv = tv;
                                map.insert(id, tv);
                                proof {
                                    lemma_trees_insert(e0, map.entries@, idv, tvv);
                                }
                            } else {
                                let b = crate::strmap::str_eq(t.as_str(), "true");
                                map.insert(id, XmlValue::Bool(b));
                                proof {
                                    lemma_trees_insert(e0, map.entries@, idv, XmlValue::Bool(b));
                                }
                            }
                            k = j;
                        },
                    }
                } else if crate::strmap::str_eq(name.as_str(), "objref") {
                    let tsid = attr_value(attrs, "tsid");
                    let label = attr_value(attrs, "label");
                    let rv = XmlValue::ObjRef { tsid, label };
                    let ghost rvv = rv;
                    let ghost idv = id@;
                    map.insert(id, rv);
                    proof {
                        lemma_trees_insert(e0, map.entries@, idv, rvv);
                    }
                    k = skip_to_end(ts, k + 1, "objref");
                } else {
                    k = skip_to_end(ts, k + 1, name.as_str());
                }
            },
            XmlEvent::Empty { name, attrs } => {
                let id = attr_value(attrs, "id");
                let ghost idv = id@;
                if crate::strmap::str_eq(name.as_str(), "null") {
                    map.insert(id, XmlValue::Null);
                    proof {
                        lemma_trees_insert(e0, map.entries@, idv, XmlValue::Null);
                    }
                } else if crate::strmap::str_eq(name.as_str(), "objref") {
                    let tsid = attr_value(attrs, "tsid");
                    let label = attr_value(attrs, "label");
                    let rv = XmlValue::ObjRef { tsid, label };
                    let ghost rvv = rv;
                    map.insert(id, rv);
                    proof {
                        lemma_trees_insert(e0, map.entries@, idv, rvv);
                    }
                }
                k = k + 1;
            },
            XmlEvent::End { name } => {
                if crate::strmap::str_eq(name.as_str(), parent) {
                    return (Ok(XmlValue::Object(map)), k + 1);
                }
                k = k + 1;
            },
            XmlEvent::Eof => {
                return (Err(owned("Unexpected end of XML in object")), k + 1);
            },
            XmlEvent::Error(m) => {
                return (Err(crate::text::concat2("XML error: ", m.as_str())), k + 1);
            },
            _ => {
                k = k + 1;
            },
        }
    }
    (Err(owned("Unexpected end of XML in object")), n)
}

/// Read a document of Glitch's typed-value XML: the value of its first
/// `<game_object>` or `<object>` element.
pub fn parse_glitch_xml(xml: &str) -> (r: Result<XmlValue, String>)
    ensures
        result_view(r) == root_spec(tokens_from(xml@, 0, (xml.len() + 1) as nat), 0),
{
    let ts = tokenize(xml);
    let ghost v = events_view(ts@);
    let n = ts.len();
    let mut k: usize = 0;
    while k < n
        invariant
            n == ts@.len(),
            v == events_view(ts@),
            v == tokens_from(xml@, 0, (xml.len() + 1) as nat),
            root_spec(v, 0) == root_spec(v, k as int),
        decreases n - k,
    {
        proof {
            assert(v[k as int] == ts@[k as int]@);
        }
        match &ts[k] {
            XmlEvent::Start { name, .. } => {
                if crate::strmap::str_eq(name.as_str(), "game_object") || crate::strmap::str_eq(name.as_str(), "object") {
                    let (r, _) = parse_children(&ts, k + 1, name.as_str());
                    return r;
                }
            },
            XmlEvent::Eof => {
                return Err(owned("Unexpected end of XML"));
            },
            XmlEvent::Error(m) => {
                return Err(crate::text::concat2("XML parse error: ", m.as_str()));
            },
            _ => {},
        }
        k = k + 1;
    }
    Err(owned("Unexpected end of XML"))
}

} // verus!
