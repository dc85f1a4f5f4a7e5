//! Parsed configuration documents as plain values.
use crate::text::same_text;
use vstd::prelude::*;

verus! {

/// A JSON value as `serde_json` holds it.
#[verifier::external_type_specification]
#[verifier::external_body]
pub struct ExJsonValue(serde_json::Value);

/// A TOML value as `toml` holds it.
#[verifier::external_type_specification]
#[verifier::external_body]
pub struct ExTomlValue(toml::Value);

/// A parsed JSON or TOML document.
pub enum Document {
    Null,
    Bool(bool),
    Number(String),
    Text(String),
    List(Vec<Document>),
    Table(Vec<(String, Document)>),
}

/// What a document holds.
pub ghost enum Doc {
    Null,
    Bool(bool),
    Number(Seq<char>),
    Text(Seq<char>),
    List(Seq<Doc>),
    Table(Seq<(Seq<char>, Doc)>),
}

impl View for Document {
    type V = Doc;

    open spec fn view(&self) -> Doc
        decreases self,
    {
        match self {
            Document::Null => Doc::Null,
            Document::Bool(b) => Doc::Bool(*b),
            Document::Number(text) => Doc::Number(text@),
            Document::Text(text) => Doc::Text(text@),
            Document::List(items) => Doc::List(
                Seq::new(
                    items@.len(),
                    |i: int|
                        if 0 <= i < items@.len() {
                            items@[i]@
                        } else {
                            Doc::Null
                        },
                ),
            ),
            Document::Table(entries) => Doc::Table(
                Seq::new(
                    entries@.len(),
                    |i: int|
                        if 0 <= i < entries@.len() {
                            (entries@[i].0@, entries@[i].1@)
                        } else {
                            (seq![], Doc::Null)
                        },
                ),
            ),
        }
    }
}

/// The first entry of a table under a key.
pub open spec fn entry_of(entries: Seq<(Seq<char>, Doc)>, key: Seq<char>) -> Option<Doc>
    decreases entries.len(),
{
    if entries.len() == 0 {
        None
    } else if entries[0].0 == key {
        Some(entries[0].1)
    } else {
        entry_of(entries.skip(1), key)
    }
}

impl Doc {
    /// What a table holds under a key.
    pub open spec fn field(self, key: Seq<char>) -> Option<Doc> {
        match self {
            Doc::Table(entries) => entry_of(entries, key),
            _ => None,
        }
    }

    /// Whether there is a table under the key.
    pub open spec fn has_table(self, key: Seq<char>) -> bool {
        self.field(key) matches Some(Doc::Table(_))
    }
}

impl Document {
    /// What a table holds under a key.
    pub fn field(&self, key: &str) -> (r: Option<&Document>)
        ensures
            match r {
                Some(found) => self@.field(key@) == Some(found@),
                None => self@.field(key@) is None,
            },
    {
        match self {
            Document::Table(entries) => {
                let ghost all = self@->Table_0;
                let mut i: usize = 0;
                proof {
                    reveal_with_fuel(<Document as View>::view, 2);
                    assert(all.skip(0) =~= all);
                }
                while i < entries.len()
                    invariant
                        i <= entries.len(),
                        self@ == Doc::Table(all),
                        all.len() == entries@.len(),
                        forall|j: int|
                            0 <= j < all.len() ==> #[trigger] all[j] == (
                                entries@[j].0@,
                                entries@[j].1@,
                            ),
                        entry_of(all, key@) == entry_of(all.skip(i as int), key@),
                    decreases entries.len() - i,
                {
                    assert(all.skip(i as int)[0] == all[i as int]);
                    assert(all.skip(i as int).skip(1) =~= all.skip(i + 1));
                    if same_text(entries[i].0.as_str(), key) {
                        return Some(&entries[i].1);
                    }
                    i = i + 1;
                }
                None
            },
            _ => None,
        }
    }

    pub fn is_table(&self) -> (r: bool)
        ensures
            r == (self@ is Table),
    {
        matches!(self, Document::Table(_))
    }

    pub fn is_list(&self) -> (r: bool)
        ensures
            r == (self@ is List),
    {
        matches!(self, Document::List(_))
    }

    /// The text, if the document is one.
    pub fn as_text(&self) -> (r: Option<&str>)
        ensures
            match r {
                Some(text) => self@ == Doc::Text(text@),
                None => !(self@ is Text),
            },
    {
        match self {
            Document::Text(text) => Some(text.as_str()),
            _ => None,
        }
    }

    /// Turns a value of `serde_json` into a document: null, booleans, numbers,
    /// strings, arrays and objects one for one, a number as its text.
    #[verifier::external_body]
    fn from_json(value: serde_json::Value) -> Document {
        match value {
            serde_json::Value::Null => Document::Null,
            serde_json::Value::Bool(b) => Document::Bool(b),
            serde_json::Value::Number(n) => Document::Number(n.to_string()),
            serde_json::Value::String(s) => Document::Text(s),
            serde_json::Value::Array(items) => {
                Document::List(items.into_iter().map(Document::from_json).collect())
            },
            serde_json::Value::Object(map) => Document::Table(
                map.into_iter().map(|(key, item)| (key, Document::from_json(item))).collect(),
            ),
        }
    }

    /// Turns a value of `toml` into a document one for one; integers and floats
    /// become the text that std prints for them, datetimes the one that `toml`
    /// prints.
    #[verifier::external_body]
    fn from_toml(value: toml::Value) -> Document {
        match value {
            toml::Value::String(s) => Document::Text(s),
            toml::Value::Boolean(b) => Document::Bool(b),
            toml::Value::Array(items) => {
                Document::List(items.into_iter().map(Document::from_toml).collect())
            },
            toml::Value::Table(map) => Document::Table(
                map.into_iter().map(|(key, item)| (key, Document::from_toml(item))).collect(),
            ),
            toml::Value::Integer(n) => Document::Number(n.to_string()),
            toml::Value::Float(x) => Document::Number(x.to_string()),
            toml::Value::Datetime(moment) => Document::Number(moment.to_string()),
        }
    }
}

/// What `serde_json::from_slice` reads from these bytes, or that it fails.
pub uninterp spec fn json_document(bytes: Seq<u8>) -> Option<Doc>;

/// What `toml::from_str` reads from this text, or that it fails.
pub uninterp spec fn toml_document(text: Seq<char>) -> Option<Doc>;

/// Reads JSON with `serde_json::from_slice`, whose outcome depends on the bytes
/// alone.
#[verifier::external_body]
pub(crate) fn parse_json(bytes: &[u8]) -> (r: Option<Document>)
    ensures
        match r {
            Some(document) => json_document(bytes@) == Some(document@),
            None => json_document(bytes@) is None,
        },
{
    serde_json::from_slice::<serde_json::Value>(bytes).ok().map(Document::from_json)
}

/// Reads TOML with `toml::from_str`, whose outcome depends on the text alone.
#[verifier::external_body]
pub(crate) fn parse_toml_text(text: &str) -> (r: Option<Document>)
    ensures
        match r {
            Some(document) => toml_document(text@) == Some(document@),
            None => toml_document(text@) is None,
        },
{
    toml::from_str::<toml::Value>(text).ok().map(Document::from_toml)
}

} // verus!
