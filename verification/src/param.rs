//! Link parameters and their values.
use crate::text::{
    lemma_percent_round_trip, lowercased, no_percent, percent_decode_utf8, percent_decoded,
    percent_encode, percent_encoded, to_lowercase,
};
use vstd::prelude::*;
use vstd::std_specs::convert::FromSpecImpl;
use vstd::string::*;

verus! {

/// The character encoding of a compound value, as a mathematical value.
pub ghost enum EncodingModel {
    Utf8,
    Extension(Seq<char>),
}

/// A parameter value, as a mathematical value.
pub ghost enum ValueModel {
    Simple(Seq<char>),
    Compound { encoding: EncodingModel, language: Option<Seq<char>>, value: Seq<char> },
}

/// A parameter, as a mathematical value.
pub ghost struct ParamModel {
    pub name: Seq<char>,
    pub value: Option<ValueModel>,
}

/// The charset token that selects UTF-8, in lower case.
pub open spec fn utf8_token() -> Seq<char> {
    seq!['u', 't', 'f', '-', '8']
}

/// The encoding that a charset token denotes: UTF-8 if the token is `utf-8`
/// in any case, else an extension named by the token in lower case.
pub open spec fn encoding_of(token: Seq<char>) -> EncodingModel {
    if lowercased(token) == utf8_token() {
        EncodingModel::Utf8
    } else {
        EncodingModel::Extension(lowercased(token))
    }
}

impl EncodingModel {
    /// The charset token written on the wire.
    pub open spec fn label(self) -> Seq<char> {
        match self {
            EncodingModel::Utf8 => seq!['U', 'T', 'F', '-', '8'],
            EncodingModel::Extension(token) => token,
        }
    }
}

impl ValueModel {
    /// The text of the value.
    pub open spec fn text(self) -> Seq<char> {
        match self {
            ValueModel::Simple(text) => text,
            ValueModel::Compound { value, .. } => value,
        }
    }

    /// The wire form: a simple value as it is, a compound value as
    /// `charset'language'text`, with the text percent-encoded under UTF-8 and
    /// untouched under any other encoding.
    pub open spec fn wire(self) -> Seq<char> {
        match self {
            ValueModel::Simple(text) => text,
            ValueModel::Compound { encoding, language, value } => {
                encoding.label() + seq!['\''] + (match language {
                    Some(tag) => tag,
                    None => Seq::empty(),
                }) + seq!['\''] + (match encoding {
                    EncodingModel::Utf8 => percent_encoded(value),
                    EncodingModel::Extension(_) => value,
                })
            },
        }
    }
}

/// The compound value that an extended value denotes: its text is
/// percent-decoded under UTF-8, and must then be UTF-8; under any other
/// encoding it is kept as written.
pub open spec fn extended_value(
    encoding: EncodingModel,
    language: Option<Seq<char>>,
    raw: Seq<char>,
) -> Option<ValueModel> {
    match encoding {
        EncodingModel::Utf8 => match percent_decoded(raw) {
            Some(text) => Some(
                ValueModel::Compound { encoding: EncodingModel::Utf8, language, value: text },
            ),
            None => None,
        },
        EncodingModel::Extension(_) => Some(
            ValueModel::Compound { encoding, language, value: raw },
        ),
    }
}

/// The view of an optional text.
pub open spec fn text_model(text: Option<String>) -> Option<Seq<char>> {
    match text {
        Some(t) => Some(t@),
        None => None,
    }
}

/// The view of an optional value.
pub open spec fn value_model(value: Option<Value>) -> Option<ValueModel> {
    match value {
        Some(v) => Some(v@),
        None => None,
    }
}

/// The views of a list of parameters.
pub open spec fn param_models(params: Seq<Param>) -> Seq<ParamModel> {
    params.map_values(|p: Param| p@)
}

/// The character encoding of a compound value: UTF-8, or an extension
/// charset named by its lower-cased token.
#[derive(Debug, PartialEq)]
pub enum Encoding {
    Utf8,
    Extension(String),
}

impl View for Encoding {
    type V = EncodingModel;

    open spec fn view(&self) -> EncodingModel {
        match self {
            Encoding::Utf8 => EncodingModel::Utf8,
            Encoding::Extension(token) => EncodingModel::Extension(token@),
        }
    }
}

impl Clone for Encoding {
    fn clone(&self) -> (copy: Encoding)
        ensures
            copy == *self,
    {
        match self {
            Encoding::Utf8 => Encoding::Utf8,
            Encoding::Extension(token) => Encoding::Extension(token.clone()),
        }
    }
}

impl From<&str> for Encoding {
    /// Reads a charset token, whatever its case.
    fn from(s: &str) -> (encoding: Encoding)
        ensures
            encoding@ == encoding_of(s@),
    {
        let lower = to_lowercase(s);
        let utf8 = String::from_str("utf-8");
        proof {
            reveal_strlit("utf-8");
            assert(utf8@ =~= utf8_token());
        }
        if lower == utf8 {
            Encoding::Utf8
        } else {
            Encoding::Extension(lower)
        }
    }
}

impl FromSpecImpl<&str> for Encoding {
    open spec fn obeys_from_spec() -> bool {
        false
    }

    open spec fn from_spec(s: &str) -> Encoding {
        Encoding::Utf8
    }
}

impl Encoding {
    /// The charset token written on the wire: `UTF-8`, or the extension's.
    pub fn to_string(&self) -> (label: String)
        ensures
            label@ == self@.label(),
    {
        match self {
            Encoding::Utf8 => {
                proof {
                    reveal_strlit("UTF-8");
                    assert("UTF-8"@ =~= EncodingModel::Utf8.label());
                }
                String::from_str("UTF-8")
            },
            Encoding::Extension(token) => token.clone(),
        }
    }
}

/// A value: a simple text, or a compound of text, character encoding and an
/// optional language tag. Under an encoding other than UTF-8 the text of a
/// compound value is kept as it was written, percent-encoded.
#[derive(Debug, PartialEq)]
pub enum Value {
    Simple(String),
    Compound { encoding: Encoding, language: Option<String>, value: String },
}

impl View for Value {
    type V = ValueModel;

    open spec fn view(&self) -> ValueModel {
        match self {
            Value::Simple(text) => ValueModel::Simple(text@),
            Value::Compound { encoding, language, value } => ValueModel::Compound {
                encoding: encoding@,
                language: text_model(*language),
                value: value@,
            },
        }
    }
}

impl Clone for Value {
    fn clone(&self) -> (copy: Value)
        ensures
            copy == *self,
    {
        match self {
            Value::Simple(text) => Value::Simple(text.clone()),
            Value::Compound { encoding, language, value } => {
                let language = match language {
                    Some(tag) => Some(tag.clone()),
                    None => None,
                };
                Value::Compound { encoding: encoding.clone(), language, value: value.clone() }
            },
        }
    }
}

impl From<&str> for Value {
    fn from(s: &str) -> (value: Value)
        ensures
            value@ == ValueModel::Simple(s@),
    {
        Value::Simple(s.to_owned())
    }
}

impl FromSpecImpl<&str> for Value {
    open spec fn obeys_from_spec() -> bool {
        false
    }

    open spec fn from_spec(s: &str) -> Value {
        Value::Simple(arbitrary())
    }
}

impl From<String> for Value {
    fn from(s: String) -> (value: Value)
        ensures
            value@ == ValueModel::Simple(s@),
    {
        Value::Simple(s)
    }
}

impl FromSpecImpl<String> for Value {
    open spec fn obeys_from_spec() -> bool {
        true
    }

    open spec fn from_spec(s: String) -> Value {
        Value::Simple(s)
    }
}

impl Value {
    /// Decodes an extended value from its three parts. There is no value
    /// where the encoding is UTF-8 and the percent-decoded text is not.
    pub fn extended(encoding: Encoding, language: Option<String>, raw: &str) -> (value: Option<
        Value,
    >)
        ensures
            value_model(value) == extended_value(encoding@, text_model(language), raw@),
    {
        match encoding {
            Encoding::Utf8 => match percent_decode_utf8(raw) {
                Ok(text) => Some(
                    Value::Compound { encoding: Encoding::Utf8, language, value: text },
                ),
                Err(_) => None,
            },
            Encoding::Extension(token) => Some(
                Value::Compound {
                    encoding: Encoding::Extension(token),
                    language,
                    value: raw.to_owned(),
                },
            ),
        }
    }

    /// The text of a simple or a compound value.
    pub fn text(&self) -> (text: &str)
        ensures
            text@ == self@.text(),
    {
        match self {
            Value::Simple(value) => value.as_str(),
            Value::Compound { value, .. } => value.as_str(),
        }
    }

    /// Whether the value is compound.
    pub fn is_compound(&self) -> (compound: bool)
        ensures
            compound == (self@ is Compound),
    {
        match self {
            Value::Compound { .. } => true,
            _ => false,
        }
    }

    /// Whether the value is simple.
    pub fn is_simple(&self) -> (simple: bool)
        ensures
            simple == (self@ is Simple),
    {
        match self {
            Value::Simple(_) => true,
            _ => false,
        }
    }

    /// The wire form of the value. A simple value is its own wire form.
    pub fn to_string(&self) -> (wire: String)
        ensures
            wire@ == self@.wire(),
            self@ matches ValueModel::Simple(text) ==> wire@ == text,
    {
        match self {
            Value::Simple(text) => text.clone(),
            Value::Compound { encoding, language, value } => {
                let mut wire = encoding.to_string();
                proof {
                    reveal_strlit("'");
                    assert("'"@ =~= seq!['\'']);
                }
                wire.append("'");
                match language {
                    Some(tag) => wire.append(tag.as_str()),
                    None => {
                        assert(wire@ + Seq::<char>::empty() =~= wire@);
                    },
                }
                wire.append("'");
                match encoding {
                    Encoding::Utf8 => {
                        let encoded = percent_encode(value.as_str());
                        wire.append(encoded.as_str());
                    },
                    Encoding::Extension(_) => wire.append(value.as_str()),
                }
                wire
            },
        }
    }
}

/// A link parameter: a name and, unless the parameter is a bare token, a
/// value.
#[derive(Debug, PartialEq)]
pub struct Param {
    name: String,
    value: Option<Value>,
}

impl View for Param {
    type V = ParamModel;

    closed spec fn view(&self) -> ParamModel {
        ParamModel { name: self.name@, value: value_model(self.value) }
    }
}

impl Clone for Param {
    fn clone(&self) -> (copy: Param)
        ensures
            copy == *self,
    {
        let value = match &self.value {
            Some(v) => Some(v.clone()),
            None => None,
        };
        Param { name: self.name.clone(), value }
    }
}

impl Param {
    /// A parameter of the given name and value.
    pub fn new(name: &str, value: Option<Value>) -> (param: Param)
        ensures
            param@ == (ParamModel { name: name@, value: value_model(value) }),
    {
        Param { name: name.to_owned(), value }
    }

    /// The name, as it was written.
    pub fn name(&self) -> (name: &str)
        ensures
            name@ == self@.name,
    {
        self.name.as_str()
    }

    /// The value, if the parameter has one.
    pub fn value(&self) -> (value: &Option<Value>)
        ensures
            value_model(*value) == self@.value,
    {
        &self.value
    }

    /// Consumes the param and returns its value.
    pub fn into_value(self) -> (value: Option<Value>)
        ensures
            value_model(value) == self@.value,
    {
        self.value
    }

    /// Whether the value is compound, as that of a parameter written with a
    /// star (`title*`) is.
    pub fn is_star(&self) -> (star: bool)
        ensures
            star == (self@.value matches Some(ValueModel::Compound { .. })),
    {
        match self.value {
            Some(Value::Compound { .. }) => true,
            _ => false,
        }
    }
}

/// A simple value is its own wire form.
pub proof fn lemma_simple_wire(text: Seq<char>)
    ensures
        ValueModel::Simple(text).wire() == text,
{
}

/// Reading back what was written: the text that a compound value shows on
/// the wire decodes, under the value's encoding and language, to the value.
/// Under UTF-8 this holds of a text without `%`: a `%` is written as it is,
/// and is read as the start of an encoded byte where two hexadecimal digits
/// follow it.
pub proof fn lemma_wire_round_trip(value: ValueModel)
    requires
        value is Compound,
        value->encoding is Utf8 ==> no_percent(value->value),
    ensures
        ({
            let written = match value->encoding {
                EncodingModel::Utf8 => percent_encoded(value->value),
                EncodingModel::Extension(_) => value->value,
            };
            extended_value(value->encoding, value->language, written) == Some(value)
        }),
{
    if value->encoding is Utf8 {
        lemma_percent_round_trip(value->value);
    }
}

} // verus!
