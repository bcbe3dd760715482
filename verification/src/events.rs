//! The translated event model: qualified names, attributes, events, and the
//! error taxonomy, together with their mathematical models.

use vstd::prelude::*;

verus! {

/// The errors a pull of the translator can surface.
#[derive(Debug, PartialEq, Eq)]
pub enum XmlError {
    /// A raw byte sequence for a name, attribute value, or text run is not
    /// valid UTF-8.
    InvalidUtf8,
    /// Qualified-name syntax violated (empty local part or prefix, illegal
    /// characters).
    InvalidName,
    /// An entity or numeric character reference is malformed or unrecognized.
    InvalidEntity,
    /// An end tag asked for a namespace-scope pop with no frame left.
    ScopeUnderflow,
    /// The tokenizer reported a syntax or read error; the description is kept.
    UnderlyingReadFailure(String),
}

/// Mathematical model of an [`XmlError`].
pub ghost enum ErrorModel {
    InvalidUtf8,
    InvalidName,
    InvalidEntity,
    ScopeUnderflow,
    UnderlyingReadFailure(Seq<char>),
}

impl View for XmlError {
    type V = ErrorModel;

    open spec fn view(&self) -> ErrorModel {
        match self {
            XmlError::InvalidUtf8 => ErrorModel::InvalidUtf8,
            XmlError::InvalidName => ErrorModel::InvalidName,
            XmlError::InvalidEntity => ErrorModel::InvalidEntity,
            XmlError::ScopeUnderflow => ErrorModel::ScopeUnderflow,
            XmlError::UnderlyingReadFailure(m) => ErrorModel::UnderlyingReadFailure(m@),
        }
    }
}

/// An element or attribute identifier: a local name, an optional namespace
/// prefix as written, and the namespace URI the prefix resolves to in the
/// active scope (absent if unbound).
pub struct QualifiedName {
    pub prefix: Option<String>,
    pub local: String,
    pub namespace: Option<String>,
}

/// Mathematical model of a [`QualifiedName`].
pub ghost struct QNameModel {
    pub prefix: Option<Seq<char>>,
    pub local: Seq<char>,
    pub namespace: Option<Seq<char>>,
}

impl View for QualifiedName {
    type V = QNameModel;

    open spec fn view(&self) -> QNameModel {
        QNameModel {
            prefix: match self.prefix {
                Some(p) => Some(p@),
                None => None,
            },
            local: self.local@,
            namespace: match self.namespace {
                Some(n) => Some(n@),
                None => None,
            },
        }
    }
}

impl Clone for QualifiedName {
    fn clone(&self) -> (r: Self)
        ensures
            r@ == self@,
    {
        QualifiedName {
            prefix: match &self.prefix {
                Some(p) => Some(p.clone()),
                None => None,
            },
            local: self.local.clone(),
            namespace: match &self.namespace {
                Some(n) => Some(n.clone()),
                None => None,
            },
        }
    }
}

/// One attribute of a start tag; the value is fully entity-decoded text.
pub struct Attribute {
    pub name: QualifiedName,
    pub value: String,
}

/// Mathematical model of an [`Attribute`].
pub ghost struct AttributeModel {
    pub name: QNameModel,
    pub value: Seq<char>,
}

impl View for Attribute {
    type V = AttributeModel;

    open spec fn view(&self) -> AttributeModel {
        AttributeModel { name: self.name@, value: self.value@ }
    }
}

/// One prefix-to-URI binding of a namespace scope. The default namespace is
/// bound under the empty prefix.
pub struct NsBinding {
    pub prefix: String,
    pub uri: String,
}

impl View for NsBinding {
    type V = (Seq<char>, Seq<char>);

    open spec fn view(&self) -> (Seq<char>, Seq<char>) {
        (self.prefix@, self.uri@)
    }
}

impl Clone for NsBinding {
    fn clone(&self) -> (r: Self)
        ensures
            r@ == self@,
    {
        NsBinding { prefix: self.prefix.clone(), uri: self.uri.clone() }
    }
}

/// A translated event handed to the downstream consumer.
pub enum XmlEvent {
    StartElement {
        name: QualifiedName,
        attributes: Vec<Attribute>,
        /// Snapshot of the active prefix-to-URI bindings, outermost frame
        /// first; a later binding shadows an earlier one of the same prefix.
        namespace: Vec<NsBinding>,
    },
    EndElement {
        name: QualifiedName,
    },
    Characters(String),
}

/// Mathematical model of an [`XmlEvent`].
pub ghost enum EventModel {
    Start {
        name: QNameModel,
        attributes: Seq<AttributeModel>,
        namespace: Seq<(Seq<char>, Seq<char>)>,
    },
    End { name: QNameModel },
    Characters(Seq<char>),
}

impl View for XmlEvent {
    type V = EventModel;

    open spec fn view(&self) -> EventModel {
        match self {
            XmlEvent::StartElement { name, attributes, namespace } => EventModel::Start {
                name: name@,
                attributes: attributes@.map_values(|a: Attribute| a@),
                namespace: namespace@.map_values(|b: NsBinding| b@),
            },
            XmlEvent::EndElement { name } => EventModel::End { name: name@ },
            XmlEvent::Characters(t) => EventModel::Characters(t@),
        }
    }
}

} // verus!
