//! Records as the logging facility hands them over, the events made from
//! them, and the message that a recipient receives.

use crate::attributes::Attributes;
use crate::decimal::{decimal, render_signed, render_truth, render_unsigned, signed_decimal, truth_text};
use crate::level::{LogLevel, Severity};
use vstd::prelude::*;
use vstd::string::*;

verus! {

/// The value of a structured field of a record.
pub enum AttrValue {
    /// Text, taken as it is.
    Text(String),
    /// A signed number.
    Signed(i64),
    /// An unsigned number.
    Unsigned(u64),
    /// A truth value.
    Flag(bool),
    /// A value that has no text form.
    Opaque,
}

impl AttrValue {
    /// The text form of the value, where it has one.
    pub open spec fn rendered(self) -> Option<Seq<char>> {
        match self {
            AttrValue::Text(text) => Some(text@),
            AttrValue::Signed(i) => Some(signed_decimal(i as int)),
            AttrValue::Unsigned(n) => Some(decimal(n as nat)),
            AttrValue::Flag(b) => Some(truth_text(b)),
            AttrValue::Opaque => None,
        }
    }

    /// Renders the value as text; `None` for a value without a text form.
    pub fn render(&self) -> (text: Option<String>)
        ensures
            match text {
                Some(t) => self.rendered() == Some(t@),
                None => self.rendered() is None,
            },
    {
        match self {
            AttrValue::Text(text) => Some(text.clone()),
            AttrValue::Signed(i) => Some(render_signed(*i)),
            AttrValue::Unsigned(n) => Some(render_unsigned(*n)),
            AttrValue::Flag(b) => Some(render_truth(*b)),
            AttrValue::Opaque => None,
        }
    }
}

/// A structured field of a record: a key and its value.
pub struct RawAttribute {
    pub key: String,
    pub value: AttrValue,
}

/// A log record as the logging facility hands it over.
pub struct RawRecord {
    pub severity: Severity,
    /// The message, formatting already applied.
    pub message: String,
    /// The structured fields, in the order in which the record yields them.
    pub attributes: Vec<RawAttribute>,
    pub file: Option<String>,
    pub line: Option<u32>,
}

/// A field of a record: its key, and its value's text form where it has one.
pub type RawPair = (Seq<char>, Option<Seq<char>>);

impl RawRecord {
    /// The fields of the record, each value in its text form.
    pub open spec fn pairs(&self) -> Seq<RawPair> {
        self.attributes@.map_values(|a: RawAttribute| (a.key@, a.value.rendered()))
    }
}

/// The attribute mapping that is extracted from the fields of a record:
/// fields without a text form are left out, and of two fields with one key
/// the later one stays.
pub open spec fn extracted_attributes(pairs: Seq<RawPair>) -> Map<Seq<char>, Seq<char>>
    decreases pairs.len(),
{
    if pairs.len() == 0 {
        Map::empty()
    } else {
        let earlier = extracted_attributes(pairs.drop_last());
        match pairs.last().1 {
            Some(text) => earlier.insert(pairs.last().0, text),
            None => earlier,
        }
    }
}

/// What an event holds.
pub ghost struct LogEventView {
    pub level: LogLevel,
    pub message: Seq<char>,
    pub attributes: Map<Seq<char>, Seq<char>>,
    pub source_file: Option<Seq<char>>,
    pub source_line: Option<Seq<char>>,
}

/// What a delivered message holds. A missing file or line is empty text.
pub ghost struct WireMessageView {
    pub level: LogLevel,
    pub message: Seq<char>,
    pub attributes: Map<Seq<char>, Seq<char>>,
    pub line: Seq<char>,
    pub file: Seq<char>,
}

/// The text of an optional string.
pub open spec fn text_of(text: Option<String>) -> Option<Seq<char>> {
    match text {
        Some(t) => Some(t@),
        None => None,
    }
}

/// The event that is extracted from a record.
pub open spec fn extracted(record: RawRecord) -> LogEventView {
    LogEventView {
        level: LogLevel::of(record.severity),
        message: record.message@,
        attributes: extracted_attributes(record.pairs()),
        source_file: text_of(record.file),
        source_line: match record.line {
            Some(line) => Some(decimal(line as nat)),
            None => None,
        },
    }
}

/// The message that carries an event to a recipient.
pub open spec fn wire_of(event: LogEventView) -> WireMessageView {
    WireMessageView {
        level: event.level,
        message: event.message,
        attributes: event.attributes,
        line: match event.source_line {
            Some(line) => line,
            None => Seq::empty(),
        },
        file: match event.source_file {
            Some(file) => file,
            None => Seq::empty(),
        },
    }
}

/// A normalised log event. It is built once and never changed.
pub struct LogEvent {
    level: LogLevel,
    message: String,
    attributes: Attributes,
    source_file: Option<String>,
    source_line: Option<String>,
}

impl View for LogEvent {
    type V = LogEventView;

    closed spec fn view(&self) -> LogEventView {
        LogEventView {
            level: self.level,
            message: self.message@,
            attributes: self.attributes@,
            source_file: text_of(self.source_file),
            source_line: text_of(self.source_line),
        }
    }
}

fn duplicate_text(text: &Option<String>) -> (copy: Option<String>)
    ensures
        copy == *text,
{
    match text {
        Some(t) => Some(t.clone()),
        None => None,
    }
}

impl LogEvent {
    /// Builds the event of a record: the severity mapped to its level, the
    /// message as it is, every field that has a text form as an attribute,
    /// the file as it is and the line as a decimal numeral.
    pub fn extract(record: &RawRecord) -> (event: LogEvent)
        ensures
            event@ == extracted(*record),
    {
        let mut attributes = Attributes::new();
        let mut i: usize = 0;
        while i < record.attributes.len()
            invariant
                i <= record.attributes@.len(),
                record.pairs().len() == record.attributes@.len(),
                attributes@ == extracted_attributes(record.pairs().take(i as int)),
            decreases record.attributes@.len() - i,
        {
            let field = &record.attributes[i];
            proof {
                let upto = record.pairs().take(i + 1);
                assert(upto.drop_last() == record.pairs().take(i as int));
                assert(upto.last() == (field.key@, field.value.rendered()));
            }
            match field.value.render() {
                Some(text) => {
                    attributes.insert(field.key.clone(), text);
                },
                None => {},
            }
            i += 1;
        }
        assert(record.pairs().take(i as int) == record.pairs());
        let source_line = match record.line {
            Some(line) => Some(render_unsigned(line as u64)),
            None => None,
        };
        LogEvent {
            level: LogLevel::from_severity(record.severity),
            message: record.message.clone(),
            attributes,
            source_file: duplicate_text(&record.file),
            source_line,
        }
    }

    pub fn level(&self) -> (level: LogLevel)
        ensures
            level == self@.level,
    {
        self.level
    }

    pub fn message(&self) -> (message: &String)
        ensures
            message@ == self@.message,
    {
        &self.message
    }

    pub fn attributes(&self) -> (attributes: &Attributes)
        ensures
            attributes@ == self@.attributes,
    {
        &self.attributes
    }

    pub fn source_file(&self) -> (file: &Option<String>)
        ensures
            text_of(*file) == self@.source_file,
    {
        &self.source_file
    }

    pub fn source_line(&self) -> (line: &Option<String>)
        ensures
            text_of(*line) == self@.source_line,
    {
        &self.source_line
    }

    /// A copy that holds the same as the event.
    pub fn duplicate(&self) -> (copy: LogEvent)
        ensures
            copy@ == self@,
    {
        LogEvent {
            level: self.level,
            message: self.message.clone(),
            attributes: self.attributes.duplicate(),
            source_file: duplicate_text(&self.source_file),
            source_line: duplicate_text(&self.source_line),
        }
    }

    /// The message that carries the event to a recipient.
    pub fn to_wire(&self) -> (message: WireMessage)
        ensures
            message@ == wire_of(self@),
    {
        let line = match &self.source_line {
            Some(line) => line.clone(),
            None => String::new(),
        };
        let file = match &self.source_file {
            Some(file) => file.clone(),
            None => String::new(),
        };
        WireMessage {
            level: self.level,
            message: self.message.clone(),
            attributes: self.attributes.duplicate(),
            line,
            file,
        }
    }
}

/// The message that a recipient receives, in its extended form.
pub struct WireMessage {
    pub level: LogLevel,
    pub message: String,
    pub attributes: Attributes,
    pub line: String,
    pub file: String,
}

impl View for WireMessage {
    type V = WireMessageView;

    open spec fn view(&self) -> WireMessageView {
        WireMessageView {
            level: self.level,
            message: self.message@,
            attributes: self.attributes@,
            line: self.line@,
            file: self.file@,
        }
    }
}

impl WireMessage {
    /// The minimal form of the message: the level's tag and the text.
    pub fn minimal(&self) -> (pair: (&'static str, &String))
        ensures
            pair.0@ == self@.level.tag_chars(),
            pair.1@ == self@.message,
    {
        (self.level.tag(), &self.message)
    }
}

/// Whether some field with this key has a text form.
pub open spec fn has_text(pairs: Seq<RawPair>, key: Seq<char>) -> bool {
    exists|i: int| 0 <= i < pairs.len() && (#[trigger] pairs[i]).0 == key && pairs[i].1 is Some
}

/// Whether the field at `at` has a text form and no later field with its key
/// has one.
pub open spec fn is_latest_text(pairs: Seq<RawPair>, at: int) -> bool {
    &&& 0 <= at < pairs.len()
    &&& pairs[at].1 is Some
    &&& forall|j: int|
        at < j < pairs.len() && (#[trigger] pairs[j]).0 == pairs[at].0 ==> pairs[j].1 is None
}

/// The extracted mapping holds exactly the fields that have a text form:
/// its keys are the keys of those fields, and under each key stands the text
/// of the last such field.
pub proof fn lemma_extracted_attributes(pairs: Seq<RawPair>)
    ensures
        extracted_attributes(pairs).dom().finite(),
        forall|key: Seq<char>| #[trigger]
            extracted_attributes(pairs).dom().contains(key) <==> has_text(pairs, key),
        forall|at: int| #[trigger]
            is_latest_text(pairs, at) ==> extracted_attributes(pairs)[pairs[at].0] == pairs[at].1->0,
    decreases pairs.len(),
{
    if pairs.len() > 0 {
        let front = pairs.drop_last();
        let last = pairs.last();
        lemma_extracted_attributes(front);
        assert forall|key: Seq<char>| #[trigger]
            extracted_attributes(pairs).dom().contains(key) <==> has_text(pairs, key) by {
            if has_text(pairs, key) {
                let i = choose|i: int|
                    0 <= i < pairs.len() && (#[trigger] pairs[i]).0 == key && pairs[i].1 is Some;
                if i < front.len() {
                    assert(front[i] == pairs[i]);
                    assert(has_text(front, key));
                }
            }
            if has_text(front, key) {
                let i = choose|i: int|
                    0 <= i < front.len() && (#[trigger] front[i]).0 == key && front[i].1 is Some;
                assert(pairs[i] == front[i]);
            }
            if key == last.0 && last.1 is Some {
                assert(pairs[pairs.len() - 1] == last);
            }
        }
        assert forall|at: int| #[trigger] is_latest_text(pairs, at) implies extracted_attributes(
            pairs,
        )[pairs[at].0] == pairs[at].1->0 by {
            if at < front.len() {
                assert(front[at] == pairs[at]);
                assert(is_latest_text(front, at)) by {
                    assert forall|j: int|
                        at < j < front.len() && (#[trigger] front[j]).0
                            == front[at].0 implies front[j].1 is None by {
                        assert(pairs[j] == front[j]);
                    }
                }
                if last.0 == pairs[at].0 {
                    assert(pairs[pairs.len() - 1].1 is None);
                }
            }
        }
    }
}

/// Of a record whose fields have keys that differ from one another, the
/// extracted mapping holds every field with a text form under its own key,
/// and nothing else.
pub proof fn lemma_extracted_distinct(pairs: Seq<RawPair>)
    requires
        forall|i: int, j: int|
            0 <= i < pairs.len() && 0 <= j < pairs.len() && i != j ==> (#[trigger] pairs[i]).0 != (
            #[trigger] pairs[j]).0,
    ensures
        forall|i: int|
            0 <= i < pairs.len() ==> (extracted_attributes(pairs).dom().contains(
                (#[trigger] pairs[i]).0,
            ) <==> pairs[i].1 is Some),
        forall|i: int|
            0 <= i < pairs.len() && (#[trigger] pairs[i]).1 is Some ==> extracted_attributes(
                pairs,
            )[pairs[i].0] == pairs[i].1->0,
        forall|key: Seq<char>| #[trigger]
            extracted_attributes(pairs).dom().contains(key) ==> has_text(pairs, key),
{
    lemma_extracted_attributes(pairs);
    assert forall|i: int| 0 <= i < pairs.len() implies (extracted_attributes(
        pairs,
    ).dom().contains((#[trigger] pairs[i]).0) <==> pairs[i].1 is Some) by {
        if has_text(pairs, pairs[i].0) {
            let k = choose|k: int|
                0 <= k < pairs.len() && (#[trigger] pairs[k]).0 == pairs[i].0 && pairs[k].1 is Some;
            assert(k == i);
        }
    }
    assert forall|i: int| 0 <= i < pairs.len() && (#[trigger] pairs[i]).1 is Some implies
        extracted_attributes(pairs)[pairs[i].0] == pairs[i].1->0 by {
        assert(is_latest_text(pairs, i));
    }
}

} // verus!
