//! The event translator: a pull-based state machine that maps raw tokenizer
//! tokens to translated events, expanding self-closing elements, tracking
//! namespace scopes, and treating errors and end-of-input as terminal.

use vstd::prelude::*;
use vstd::string::StringExecFns;

use quick_xml::Reader;
use quick_xml::events::BytesStart;
use quick_xml::events::Event;

use crate::events::Attribute;
use crate::events::AttributeModel;
use crate::events::ErrorModel;
use crate::events::EventModel;
use crate::events::NsBinding;
use crate::events::QNameModel;
use crate::events::QualifiedName;
use crate::events::XmlError;
use crate::events::XmlEvent;
use crate::qname::opt_str_model;
use crate::qname::qname_model;
use crate::scope::NamespaceScope;
use crate::scope::flatten_model;
use crate::scope::frame_model;
use crate::scope::resolve_model;
use crate::text::all_space;
use crate::text::is_all_space;
use crate::text::ref_model;
use crate::text::text_model;
use crate::text::decode_ref;
use crate::text::decode_text;
use crate::qname::split_name;

verus! {

/// One raw attribute as the tokenizer hands it out: undecoded key and value
/// bytes.
pub struct RawAttr {
    pub key: Vec<u8>,
    pub value: Vec<u8>,
}

/// Mathematical model of a [`RawAttr`].
pub ghost struct RawAttrModel {
    pub key: Seq<u8>,
    pub value: Seq<u8>,
}

impl View for RawAttr {
    type V = RawAttrModel;

    open spec fn view(&self) -> RawAttrModel {
        RawAttrModel { key: self.key@, value: self.value@ }
    }
}

/// One raw token pulled from the tokenizer.
pub enum RawToken {
    /// An open tag with children expected.
    Open { name: Vec<u8>, attrs: Vec<RawAttr> },
    /// A self-closing tag.
    SelfClose { name: Vec<u8>, attrs: Vec<RawAttr> },
    /// A close tag.
    Close { name: Vec<u8> },
    /// A raw text run between tags (entity references still escaped).
    Text { content: Vec<u8> },
    /// A standalone entity or character reference in text, without `&` / `;`.
    Ref { name: Vec<u8> },
    /// A token with no translation: comment, processing instruction,
    /// doctype, declaration, or CDATA.
    Other,
    /// End of input.
    Eof,
    /// The tokenizer reported an error; its description is kept.
    Fault { message: String },
}

/// Mathematical model of a [`RawToken`].
pub ghost enum RawTokenModel {
    Open { name: Seq<u8>, attrs: Seq<RawAttrModel> },
    SelfClose { name: Seq<u8>, attrs: Seq<RawAttrModel> },
    Close { name: Seq<u8> },
    Text { content: Seq<u8> },
    Ref { name: Seq<u8> },
    Other,
    Eof,
    Fault { message: Seq<char> },
}

impl View for RawToken {
    type V = RawTokenModel;

    open spec fn view(&self) -> RawTokenModel {
        match self {
            RawToken::Open { name, attrs } => RawTokenModel::Open {
                name: name@,
                attrs: attrs@.map_values(|a: RawAttr| a@),
            },
            RawToken::SelfClose { name, attrs } => RawTokenModel::SelfClose {
                name: name@,
                attrs: attrs@.map_values(|a: RawAttr| a@),
            },
            RawToken::Close { name } => RawTokenModel::Close { name: name@ },
            RawToken::Text { content } => RawTokenModel::Text { content: content@ },
            RawToken::Ref { name } => RawTokenModel::Ref { name: name@ },
            RawToken::Other => RawTokenModel::Other,
            RawToken::Eof => RawTokenModel::Eof,
            RawToken::Fault { message } => RawTokenModel::Fault { message: message@ },
        }
    }
}

/// An attribute after decoding, before namespace resolution.
pub struct DecAttr {
    pub prefix: Option<String>,
    pub local: String,
    pub value: String,
}

/// Mathematical model of a decoded attribute.
pub ghost struct DecAttrModel {
    pub prefix: Option<Seq<char>>,
    pub local: Seq<char>,
    pub value: Seq<char>,
}

impl View for DecAttr {
    type V = DecAttrModel;

    open spec fn view(&self) -> DecAttrModel {
        DecAttrModel { prefix: opt_str_model(self.prefix), local: self.local@, value: self.value@ }
    }
}

/// The models of a run of decoded attributes.
pub open spec fn dec_attr_models(s: Seq<DecAttr>) -> Seq<DecAttrModel> {
    s.map_values(|d: DecAttr| d@)
}

/// What decoding one raw attribute yields: key as a qualified name, value
/// entity-decoded.
pub open spec fn attr_model(a: RawAttrModel) -> Result<DecAttrModel, ErrorModel> {
    match qname_model(a.key) {
        Err(e) => Err(e),
        Ok(pl) => match text_model(a.value) {
            Err(e) => Err(e),
            Ok(v) => Ok(DecAttrModel { prefix: pl.0, local: pl.1, value: v }),
        },
    }
}

/// The characters of the reserved `xmlns` name.
pub open spec fn xmlns_seq() -> Seq<char> {
    seq!['x', 'm', 'l', 'n', 's']
}

/// The namespace declaration a decoded attribute makes, if any: `xmlns`
/// binds the default (empty) prefix, `xmlns:p` binds `p`.
pub open spec fn ns_decl_of(d: DecAttrModel) -> Option<(Seq<char>, Seq<char>)> {
    if d.prefix is None && d.local == xmlns_seq() {
        Some((Seq::empty(), d.value))
    } else if d.prefix == Some(xmlns_seq()) {
        Some((d.local, d.value))
    } else {
        None
    }
}

/// Decodes a raw attribute run and extracts its namespace declarations: the
/// first decode failure wins; the plain attributes and the declarations each
/// keep their document order.
pub open spec fn attrs_model(attrs: Seq<RawAttrModel>) -> Result<
    (Seq<DecAttrModel>, Seq<(Seq<char>, Seq<char>)>),
    ErrorModel,
>
    decreases attrs.len(),
{
    if attrs.len() == 0 {
        Ok((Seq::empty(), Seq::empty()))
    } else {
        match attr_model(attrs[0]) {
            Err(e) => Err(e),
            Ok(d) => match attrs_model(attrs.skip(1)) {
                Err(e) => Err(e),
                Ok(rest) => match ns_decl_of(d) {
                    Some(b) => Ok((rest.0, seq![b] + rest.1)),
                    None => Ok((seq![d] + rest.0, rest.1)),
                },
            },
        }
    }
}

/// The prefix a name is resolved under: its written prefix, or the empty
/// (default) prefix.
pub open spec fn prefix_key(p: Option<Seq<char>>) -> Seq<char> {
    match p {
        Some(s) => s,
        None => Seq::empty(),
    }
}

/// What translating a start (or self-closing) tag yields: the resolved
/// element name, the resolved non-declaration attributes, the scope snapshot,
/// and the scope stack with the tag's new frame pushed.
pub open spec fn start_model(
    scopes: Seq<Seq<(Seq<char>, Seq<char>)>>,
    name: Seq<u8>,
    attrs: Seq<RawAttrModel>,
) -> Result<
    (QNameModel, Seq<AttributeModel>, Seq<(Seq<char>, Seq<char>)>, Seq<Seq<(Seq<char>, Seq<char>)>>),
    ErrorModel,
> {
    match qname_model(name) {
        Err(e) => Err(e),
        Ok(pl) => match attrs_model(attrs) {
            Err(e) => Err(e),
            Ok(df) => {
                let scopes2 = scopes.push(df.1);
                let qn = QNameModel {
                    prefix: pl.0,
                    local: pl.1,
                    namespace: resolve_model(scopes2, prefix_key(pl.0)),
                };
                let ats = df.0.map_values(
                    |d: DecAttrModel| AttributeModel {
                        name: QNameModel {
                            prefix: d.prefix,
                            local: d.local,
                            namespace: resolve_model(scopes2, prefix_key(d.prefix)),
                        },
                        value: d.value,
                    },
                );
                Ok((qn, ats, flatten_model(scopes2), scopes2))
            },
        },
    }
}

/// Clones an optional string.
fn clone_opt_string(o: &Option<String>) -> (r: Option<String>)
    ensures
        opt_str_model(r) == opt_str_model(*o),
{
    match o {
        Some(s) => Some(s.clone()),
        None => None,
    }
}

/// The string a name's prefix is resolved under.
fn prefix_key_exec(p: &Option<String>) -> (r: String)
    ensures
        r@ == prefix_key(opt_str_model(*p)),
{
    match p {
        Some(s) => s.clone(),
        None => String::new(),
    }
}

/// Decodes the attribute run of a start tag, splitting off its namespace
/// declarations.
#[verifier::loop_isolation(false)]
fn decode_attrs(attrs: &Vec<RawAttr>) -> (r: Result<(Vec<DecAttr>, Vec<NsBinding>), XmlError>)
    ensures
        match r {
            Ok(pf) => attrs_model(attrs@.map_values(|a: RawAttr| a@)) == Ok::<_, ErrorModel>(
                (dec_attr_models(pf.0@), frame_model(pf.1@)),
            ),
            Err(e) => attrs_model(attrs@.map_values(|a: RawAttr| a@)) == Err::<
                (Seq<DecAttrModel>, Seq<(Seq<char>, Seq<char>)>),
                _,
            >(e@),
        },
{
    let ghost am = attrs@.map_values(|a: RawAttr| a@);
    let xmlns_key = String::from_str("xmlns");
    proof {
        reveal_strlit("xmlns");
        assert(xmlns_key@ =~= xmlns_seq());
    }
    let mut plain: Vec<DecAttr> = Vec::new();
    let mut frame: Vec<NsBinding> = Vec::new();
    let mut i: usize = 0;
    proof {
        assert(am.skip(0) =~= am);
        if let Ok(rest) = attrs_model(am) {
            assert(dec_attr_models(plain@) + rest.0 =~= rest.0);
            assert(frame_model(frame@) + rest.1 =~= rest.1);
        }
    }
    while i < attrs.len()
        invariant
            i <= attrs.len(),
            am.len() == attrs@.len(),
            xmlns_key@ == xmlns_seq(),
            match attrs_model(am.skip(i as int)) {
                Ok(rest) => attrs_model(am) matches Ok(whole) && whole.0 == dec_attr_models(
                    plain@,
                ) + rest.0 && whole.1 == frame_model(frame@) + rest.1,
                Err(e) => attrs_model(am) == Err::<
                    (Seq<DecAttrModel>, Seq<(Seq<char>, Seq<char>)>),
                    ErrorModel,
                >(e),
            },
        decreases attrs@.len() - i,
    {
        let ghost suffix = am.skip(i as int);
        proof {
            assert(suffix[0] == am[i as int]);
            assert(am[i as int] == attrs@[i as int]@);
            assert(suffix.skip(1) =~= am.skip(i as int + 1));
        }
        let a = &attrs[i];
        let (p, l) = match split_name(&a.key) {
            Err(e) => {
                proof {
                    assert(attr_model(am[i as int]) == Err::<DecAttrModel, ErrorModel>(e@));
                    assert(attrs_model(suffix) == Err::<
                        (Seq<DecAttrModel>, Seq<(Seq<char>, Seq<char>)>),
                        ErrorModel,
                    >(e@));
                }
                return Err(e);
            },
            Ok(pl) => pl,
        };
        let value = match decode_text(&a.value) {
            Err(e) => {
                proof {
                    assert(attr_model(am[i as int]) == Err::<DecAttrModel, ErrorModel>(e@));
                    assert(attrs_model(suffix) == Err::<
                        (Seq<DecAttrModel>, Seq<(Seq<char>, Seq<char>)>),
                        ErrorModel,
                    >(e@));
                }
                return Err(e);
            },
            Ok(v) => v,
        };
        let d = DecAttr { prefix: p, local: l, value };
        proof {
            assert(attr_model(am[i as int]) == Ok::<DecAttrModel, ErrorModel>(d@));
        }
        let is_default_decl = match &d.prefix {
            None => d.local.eq(&xmlns_key),
            Some(_) => false,
        };
        let is_prefixed_decl = match &d.prefix {
            Some(pp) => pp.eq(&xmlns_key),
            None => false,
        };
        let ghost frame_old = frame@;
        let ghost plain_old = plain@;
        if is_default_decl {
            proof {
                assert(ns_decl_of(d@) == Some((Seq::<char>::empty(), d@.value)));
            }
            frame.push(NsBinding { prefix: String::new(), uri: d.value });
            proof {
                assert(frame_model(frame@) =~= frame_model(frame_old) + seq![
                    (Seq::<char>::empty(), d@.value),
                ]);
            }
        } else if is_prefixed_decl {
            proof {
                assert(ns_decl_of(d@) == Some((d@.local, d@.value)));
            }
            let uri = d.value;
            let local = d.local;
            frame.push(NsBinding { prefix: local, uri });
            proof {
                assert(frame_model(frame@) =~= frame_model(frame_old) + seq![
                    (d@.local, d@.value),
                ]);
            }
        } else {
            proof {
                assert(ns_decl_of(d@) is None);
            }
            plain.push(d);
            proof {
                assert(dec_attr_models(plain@) =~= dec_attr_models(plain_old) + seq![
                    attr_model(am[i as int])->Ok_0,
                ]);
            }
        }
        proof {
            if let Ok(rest) = attrs_model(am.skip(i as int + 1)) {
                let dd = attr_model(am[i as int])->Ok_0;
                match ns_decl_of(dd) {
                    Some(b) => {
                        assert(attrs_model(suffix) == Ok::<_, ErrorModel>(
                            (rest.0, seq![b] + rest.1),
                        ));
                        assert((frame_model(frame_old) + seq![b]) + rest.1 =~= frame_model(
                            frame_old,
                        ) + (seq![b] + rest.1));
                    },
                    None => {
                        assert(attrs_model(suffix) == Ok::<_, ErrorModel>(
                            (seq![dd] + rest.0, rest.1),
                        ));
                        assert((dec_attr_models(plain_old) + seq![dd]) + rest.0 =~= dec_attr_models(
                            plain_old,
                        ) + (seq![dd] + rest.0));
                    },
                }
            }
        }
        i = i + 1;
    }
    proof {
        assert(am.skip(am.len() as int) =~= Seq::<RawAttrModel>::empty());
        if let Ok(whole) = attrs_model(am) {
            assert(dec_attr_models(plain@) + Seq::<DecAttrModel>::empty() =~= dec_attr_models(
                plain@,
            ));
            assert(frame_model(frame@) + Seq::<(Seq<char>, Seq<char>)>::empty() =~= frame_model(
                frame@,
            ));
        }
    }
    Ok((plain, frame))
}

/// Translates a start (or self-closing) tag: decodes the element name and the
/// attributes, pushes the tag's namespace frame, and builds the
/// `StartElement` event exactly as `start_model` says. On an error the scope
/// stack is left unchanged.
#[verifier::loop_isolation(false)]
fn build_start(scopes: &mut NamespaceScope, name: &Vec<u8>, attrs: &Vec<RawAttr>) -> (r: Result<
    (QualifiedName, XmlEvent),
    XmlError,
>)
    ensures
        match r {
            Ok(qe) => start_model(
                old(scopes)@,
                name@,
                attrs@.map_values(|a: RawAttr| a@),
            ) matches Ok(t) && qe.0@ == t.0 && qe.1@ == EventModel::Start {
                name: t.0,
                attributes: t.1,
                namespace: t.2,
            } && final(scopes)@ == t.3,
            Err(e) => start_model(old(scopes)@, name@, attrs@.map_values(|a: RawAttr| a@))
                == Err::<
                (
                    QNameModel,
                    Seq<AttributeModel>,
                    Seq<(Seq<char>, Seq<char>)>,
                    Seq<Seq<(Seq<char>, Seq<char>)>>,
                ),
                _,
            >(e@) && final(scopes)@ == old(scopes)@,
        },
{
    let ghost am = attrs@.map_values(|a: RawAttr| a@);
    let (p, l) = match split_name(name) {
        Err(e) => {
            return Err(e);
        },
        Ok(pl) => pl,
    };
    let (plain, frame) = match decode_attrs(attrs) {
        Err(e) => {
            return Err(e);
        },
        Ok(pf) => pf,
    };
    let ghost ds = dec_attr_models(plain@);
    let ghost scopes2 = old(scopes)@.push(frame_model(frame@));
    scopes.push_frame(frame);
    let key = prefix_key_exec(&p);
    let ns = scopes.resolve(&key);
    let qn = QualifiedName { prefix: p, local: l, namespace: ns };
    let ghost t = start_model(old(scopes)@, name@, am)->Ok_0;
    proof {
        assert(scopes@ == scopes2);
        assert(qn@ == t.0);
    }
    let mut out_attrs: Vec<Attribute> = Vec::new();
    let ghost fatt = |d: DecAttrModel| AttributeModel {
        name: QNameModel {
            prefix: d.prefix,
            local: d.local,
            namespace: resolve_model(scopes2, prefix_key(d.prefix)),
        },
        value: d.value,
    };
    let mut k: usize = 0;
    proof {
        assert(out_attrs@.map_values(|a: Attribute| a@) =~= ds.take(0).map_values(fatt));
    }
    while k < plain.len()
        invariant
            k <= plain@.len(),
            ds.len() == plain@.len(),
            scopes@ == scopes2,
            out_attrs@.map_values(|a: Attribute| a@) == ds.take(k as int).map_values(fatt),
        decreases plain@.len() - k,
    {
        let d = &plain[k];
        let akey = prefix_key_exec(&d.prefix);
        let ans = scopes.resolve(&akey);
        let att = Attribute {
            name: QualifiedName {
                prefix: clone_opt_string(&d.prefix),
                local: d.local.clone(),
                namespace: ans,
            },
            value: d.value.clone(),
        };
        proof {
            assert(ds[k as int] == d@);
            assert(att@ == fatt(ds[k as int]));
        }
        let ghost out_old = out_attrs@;
        let ghost aview = att@;
        out_attrs.push(att);
        proof {
            assert(out_attrs@.map_values(|a: Attribute| a@) =~= out_old.map_values(
                |a: Attribute| a@,
            ).push(aview));
            assert(ds.take(k as int + 1).map_values(fatt) =~= ds.take(k as int).map_values(
                fatt,
            ).push(fatt(ds[k as int])));
            assert(out_attrs@.map_values(|a: Attribute| a@) =~= ds.take(k as int + 1).map_values(
                fatt,
            ));
        }
        k = k + 1;
    }
    proof {
        assert(ds.take(ds.len() as int) =~= ds);
        assert(out_attrs@.map_values(|a: Attribute| a@) == t.1);
    }
    let namespace = scopes.snapshot();
    let qn2 = qn.clone();
    let ev = XmlEvent::StartElement { name: qn, attributes: out_attrs, namespace };
    proof {
        assert(ev@ == EventModel::Start { name: t.0, attributes: t.1, namespace: t.2 });
    }
    Ok((qn2, ev))
}

/// One outcome of feeding a raw token to the translator core.
pub enum StepResult {
    /// A translated event to hand to the consumer.
    Emit(XmlEvent),
    /// The token has no translation; pull the next one.
    Skip,
    /// End of input: the sequence is exhausted.
    Done,
    /// A terminal error.
    Fault(XmlError),
}

/// Mathematical model of a [`StepResult`].
pub ghost enum StepModel {
    Emit(EventModel),
    Skip,
    Done,
    Fault(ErrorModel),
}

impl View for StepResult {
    type V = StepModel;

    open spec fn view(&self) -> StepModel {
        match self {
            StepResult::Emit(ev) => StepModel::Emit(ev@),
            StepResult::Skip => StepModel::Skip,
            StepResult::Done => StepModel::Done,
            StepResult::Fault(e) => StepModel::Fault(e@),
        }
    }
}

/// Mathematical model of the translator state.
pub ghost struct CoreModel {
    /// The buffered `EndElement` name of an expanded self-closing tag.
    pub pending: Option<QNameModel>,
    /// Once true, every pull yields exhaustion, permanently.
    pub finished: bool,
    /// The active namespace scope stack.
    pub scopes: Seq<Seq<(Seq<char>, Seq<char>)>>,
}

/// The model state with the finished flag raised.
pub open spec fn halt(s: CoreModel) -> CoreModel {
    CoreModel { pending: s.pending, finished: true, scopes: s.scopes }
}

/// The translator state before anything was pulled.
pub open spec fn init_model() -> CoreModel {
    CoreModel { pending: None, finished: false, scopes: Seq::empty() }
}

/// What emitting the pending `EndElement` yields: the event, with the frame
/// of its expanded self-closing tag popped; nothing, if no event is pending.
pub open spec fn pending_model(s: CoreModel) -> (CoreModel, Option<EventModel>) {
    match s.pending {
        None => (s, None),
        Some(qn) => (
            CoreModel { pending: None, finished: s.finished, scopes: s.scopes.drop_last() },
            Some(EventModel::End { name: qn }),
        ),
    }
}

/// The transition of the translator core on one raw token, from a running
/// state with an empty pending slot.
pub open spec fn step_model(s: CoreModel, t: RawTokenModel) -> (CoreModel, StepModel) {
    match t {
        RawTokenModel::Open { name, attrs } => match start_model(s.scopes, name, attrs) {
            Err(e) => (halt(s), StepModel::Fault(e)),
            Ok(r4) => (
                CoreModel { pending: s.pending, finished: s.finished, scopes: r4.3 },
                StepModel::Emit(
                    EventModel::Start { name: r4.0, attributes: r4.1, namespace: r4.2 },
                ),
            ),
        },
        RawTokenModel::SelfClose { name, attrs } => match start_model(s.scopes, name, attrs) {
            Err(e) => (halt(s), StepModel::Fault(e)),
            Ok(r4) => (
                CoreModel { pending: Some(r4.0), finished: s.finished, scopes: r4.3 },
                StepModel::Emit(
                    EventModel::Start { name: r4.0, attributes: r4.1, namespace: r4.2 },
                ),
            ),
        },
        RawTokenModel::Close { name } => match qname_model(name) {
            Err(e) => (halt(s), StepModel::Fault(e)),
            Ok(pl) => if s.scopes.len() == 0 {
                (halt(s), StepModel::Fault(ErrorModel::ScopeUnderflow))
            } else {
                (
                    CoreModel {
                        pending: s.pending,
                        finished: s.finished,
                        scopes: s.scopes.drop_last(),
                    },
                    StepModel::Emit(
                        EventModel::End {
                            name: QNameModel {
                                prefix: pl.0,
                                local: pl.1,
                                namespace: resolve_model(s.scopes, prefix_key(pl.0)),
                            },
                        },
                    ),
                )
            },
        },
        RawTokenModel::Text { content } => match text_model(content) {
            Err(e) => (halt(s), StepModel::Fault(e)),
            Ok(tx) => if tx.len() == 0 || (s.scopes.len() == 0 && all_space(tx)) {
                (s, StepModel::Skip)
            } else {
                (s, StepModel::Emit(EventModel::Characters(tx)))
            },
        },
        RawTokenModel::Ref { name } => match ref_model(name) {
            Err(e) => (halt(s), StepModel::Fault(e)),
            Ok(tx) => (s, StepModel::Emit(EventModel::Characters(tx))),
        },
        RawTokenModel::Other => (s, StepModel::Skip),
        RawTokenModel::Eof => (halt(s), StepModel::Done),
        RawTokenModel::Fault { message } => (
            halt(s),
            StepModel::Fault(ErrorModel::UnderlyingReadFailure(message)),
        ),
    }
}

/// The translator core: everything of the translator but the tokenizer
/// itself.
pub struct TranslatorCore {
    pending: Option<QualifiedName>,
    finished: bool,
    scopes: NamespaceScope,
}

impl View for TranslatorCore {
    type V = CoreModel;

    closed spec fn view(&self) -> CoreModel {
        CoreModel {
            pending: match self.pending {
                Some(qn) => Some(qn@),
                None => None,
            },
            finished: self.finished,
            scopes: self.scopes@,
        }
    }
}

impl TranslatorCore {
    /// The state invariant: a pending end always has the frame of its
    /// self-closing tag still on the stack.
    pub open spec fn wf(&self) -> bool {
        self@.pending is Some ==> self@.scopes.len() > 0
    }

    /// A fresh core: running, nothing pending, no scope open.
    pub fn new() -> (r: Self)
        ensures
            r.wf(),
            r@ == init_model(),
    {
        TranslatorCore { pending: None, finished: false, scopes: NamespaceScope::new() }
    }

    /// Ends the sequence permanently.
    pub fn finish(&mut self)
        ensures
            final(self)@ == halt(old(self)@),
    {
        self.finished = true;
    }

    /// Whether the sequence is over, permanently.
    pub fn is_finished(&self) -> (r: bool)
        ensures
            r == self@.finished,
    {
        self.finished
    }

    /// Emits the buffered `EndElement` of an expanded self-closing tag, if
    /// one is pending, and pops the frame that tag pushed.
    pub fn take_pending(&mut self) -> (r: Option<XmlEvent>)
        requires
            old(self).wf(),
        ensures
            final(self).wf(),
            final(self)@ == pending_model(old(self)@).0,
            match r {
                Some(ev) => pending_model(old(self)@).1 == Some(ev@),
                None => pending_model(old(self)@).1 is None,
            },
    {
        match self.pending.take() {
            None => None,
            Some(qn) => {
                let popped = self.scopes.pop_frame();
                proof {
                    assert(popped);
                }
                Some(XmlEvent::EndElement { name: qn })
            },
        }
    }

    /// Feeds one raw token to the running core; the state and the outcome
    /// are exactly those of `step_model`.
    pub fn step(&mut self, tok: RawToken) -> (r: StepResult)
        requires
            old(self).wf(),
            !old(self)@.finished,
            old(self)@.pending is None,
        ensures
            final(self).wf(),
            final(self)@ == step_model(old(self)@, tok@).0,
            r@ == step_model(old(self)@, tok@).1,
    {
        match tok {
            RawToken::Open { name, attrs } => match build_start(&mut self.scopes, &name, &attrs) {
                Ok(qe) => StepResult::Emit(qe.1),
                Err(e) => {
                    self.finished = true;
                    StepResult::Fault(e)
                },
            },
            RawToken::SelfClose { name, attrs } => match build_start(
                &mut self.scopes,
                &name,
                &attrs,
            ) {
                Ok(qe) => {
                    self.pending = Some(qe.0);
                    StepResult::Emit(qe.1)
                },
                Err(e) => {
                    self.finished = true;
                    StepResult::Fault(e)
                },
            },
            RawToken::Close { name } => match split_name(&name) {
                Err(e) => {
                    self.finished = true;
                    StepResult::Fault(e)
                },
                Ok(pl) => {
                    if self.scopes.depth() == 0 {
                        self.finished = true;
                        StepResult::Fault(XmlError::ScopeUnderflow)
                    } else {
                        let (p, l) = pl;
                        let key = prefix_key_exec(&p);
                        let ns = self.scopes.resolve(&key);
                        let popped = self.scopes.pop_frame();
                        proof {
                            assert(popped);
                        }
                        StepResult::Emit(
                            XmlEvent::EndElement {
                                name: QualifiedName { prefix: p, local: l, namespace: ns },
                            },
                        )
                    }
                },
            },
            RawToken::Text { content } => match decode_text(&content) {
                Err(e) => {
                    self.finished = true;
                    StepResult::Fault(e)
                },
                Ok(s) => {
                    // A whitespace-only run outside any element belongs to the
                    // prolog or epilog and has no translation.
                    if s.as_str().is_empty() || (self.scopes.depth() == 0 && is_all_space(
                        s.as_str(),
                    )) {
                        StepResult::Skip
                    } else {
                        StepResult::Emit(XmlEvent::Characters(s))
                    }
                },
            },
            RawToken::Ref { name } => match decode_ref(&name) {
                Err(e) => {
                    self.finished = true;
                    StepResult::Fault(e)
                },
                Ok(s) => StepResult::Emit(XmlEvent::Characters(s)),
            },
            RawToken::Other => StepResult::Skip,
            RawToken::Eof => {
                self.finished = true;
                StepResult::Done
            },
            RawToken::Fault { message } => {
                self.finished = true;
                StepResult::Fault(XmlError::UnderlyingReadFailure(message))
            },
        }
    }
}

/// Declares quick_xml's `Reader` so its values can be held and passed; the
/// translator only ever drives it through `pull_raw`.
#[verifier::external_type_specification]
#[verifier::external_body]
#[verifier::reject_recursive_types(R)]
pub struct ExReader<R>(Reader<R>);

/// Declares quick_xml's `BytesStart`, the payload of its start and
/// self-closing tag events.
#[verifier::external_type_specification]
#[verifier::external_body]
pub struct ExBytesStart<'a>(BytesStart<'a>);

/// Relies on quick_xml's `BytesStart::name` and `BytesStart::attributes`:
/// they hand out the raw tag name and the raw attribute (key, value) pairs in
/// document order; an ill-formed attribute list is reported as an error.
#[verifier::external_body]
fn conv_start(e: &BytesStart<'_>, self_closing: bool) -> (t: RawToken) {
    let name = e.name().into_inner().as_bytes().to_vec();
    let mut attrs: Vec<RawAttr> = Vec::new();
    for a in e.attributes() {
        match a {
            Ok(a) => attrs.push(RawAttr { key: a.key.into_inner().as_bytes().to_vec(), value: a.value.as_bytes().to_vec() }),
            Err(err) => return RawToken::Fault { message: err.to_string() },
        }
    }
    if self_closing { RawToken::SelfClose { name, attrs } } else { RawToken::Open { name, attrs } }
}

/// Relies on quick_xml's `Reader::<&[u8]>::read_event`: it returns the next
/// raw token of the document, `Eof` at and past the end, or an error for
/// ill-formed input. Nothing is assumed of the outcome; the translator core
/// handles every value.
#[verifier::external_body]
fn pull_raw(r: &mut Reader<&[u8]>) -> (t: RawToken) {
    match r.read_event() {
        Ok(Event::Start(e)) => conv_start(&e, false),
        Ok(Event::Empty(e)) => conv_start(&e, true),
        Ok(Event::End(e)) => RawToken::Close { name: e.name().into_inner().as_bytes().to_vec() },
        Ok(Event::Text(t)) => RawToken::Text { content: t.into_inner().as_bytes().to_vec() },
        Ok(Event::GeneralRef(t)) => RawToken::Ref { name: t.into_inner().as_bytes().to_vec() },
        Ok(Event::Eof) => RawToken::Eof,
        Ok(_) => RawToken::Other,
        Err(e) => RawToken::Fault { message: e.to_string() },
    }
}

/// The event translator: wraps one tokenizer positioned at the start of a
/// document and exposes the translated events as a pull-based sequence.
pub struct QEvents<'a> {
    reader: Reader<&'a [u8]>,
    core: TranslatorCore,
}

impl<'a> View for QEvents<'a> {
    type V = CoreModel;

    closed spec fn view(&self) -> CoreModel {
        self.core@
    }
}

impl<'a> QEvents<'a> {
    /// The state invariant of the wrapped core.
    pub open spec fn wf(&self) -> bool {
        self@.pending is Some ==> self@.scopes.len() > 0
    }

    /// Wraps a tokenizer positioned at the start of a document.
    pub fn from_reader(reader: Reader<&'a [u8]>) -> (r: Self)
        ensures
            r.wf(),
            r@ == init_model(),
    {
        QEvents { reader, core: TranslatorCore::new() }
    }

    /// Pulls one raw token from the wrapped tokenizer, leaving the
    /// translation state untouched.
    pub fn read_event(&mut self) -> (t: RawToken)
        ensures
            final(self)@ == old(self)@,
    {
        pull_raw(&mut self.reader)
    }

    /// Pulls the next translated event: `None` once the input is exhausted
    /// (permanently), `Some(Err(_))` exactly once on the first failure, after
    /// which the sequence is exhausted too.
    #[verifier::loop_isolation(false)]
    pub fn next_event(&mut self) -> (r: Option<Result<XmlEvent, XmlError>>)
        requires
            old(self).wf(),
        ensures
            final(self).wf(),
            old(self)@.finished ==> r is None && final(self)@ == old(self)@,
            old(self)@.finished ==> final(self)@.finished,
            r is None ==> final(self)@.finished,
            (r matches Some(res) && res is Err) ==> final(self)@.finished,
            !old(self)@.finished ==> (old(self)@.pending matches Some(qn) ==> (r matches Some(
                res,
            ) && res matches Ok(ev) && ev@ == EventModel::End { name: qn } && final(self)@
                == pending_model(old(self)@).0)),
            (!old(self)@.finished && old(self)@.pending is None) ==> match r {
                None => exists|t: RawTokenModel|
                    step_model(old(self)@, t) == (final(self)@, StepModel::Done),
                Some(res) => match res {
                    Ok(ev) => exists|t: RawTokenModel|
                        step_model(old(self)@, t) == (final(self)@, StepModel::Emit(ev@)),
                    Err(e) => exists|t: RawTokenModel|
                        step_model(old(self)@, t) == (final(self)@, StepModel::Fault(e@)),
                },
            },
    {
        if self.core.is_finished() {
            return None;
        }
        match self.core.take_pending() {
            Some(ev) => {
                return Some(Ok(ev));
            },
            None => {},
        }
        let mut fuel: usize = usize::MAX;
        loop
            invariant
                self.wf(),
                self@ == old(self)@,
                !self@.finished,
                self@.pending is None,
            decreases fuel,
        {
            if fuel == 0 {
                // The input is a finite slice, and every pull consumes part of
                // it; a tokenizer that yields this many tokens without ending
                // has failed.
                let msg = String::from_str("tokenizer did not reach end of input");
                self.core.finish();
                proof {
                    assert(step_model(old(self)@, RawTokenModel::Fault { message: msg@ }) == (
                        self@,
                        StepModel::Fault(ErrorModel::UnderlyingReadFailure(msg@)),
                    ));
                }
                return Some(Err(XmlError::UnderlyingReadFailure(msg)));
            }
            fuel = fuel - 1;
            let tok = pull_raw(&mut self.reader);
            let ghost pre = self@;
            let ghost tm = tok@;
            match self.core.step(tok) {
                StepResult::Emit(ev) => {
                    proof {
                        assert(step_model(old(self)@, tm) == (self@, StepModel::Emit(ev@)));
                    }
                    return Some(Ok(ev));
                },
                StepResult::Skip => {
                    proof {
                        lemma_skip_keeps_state(pre, tm);
                    }
                },
                StepResult::Done => {
                    proof {
                        lemma_done_is_finished(pre, tm);
                        assert(step_model(old(self)@, tm) == (self@, StepModel::Done));
                    }
                    return None;
                },
                StepResult::Fault(e) => {
                    proof {
                        lemma_fault_is_finished(pre, tm);
                        assert(step_model(old(self)@, tm) == (self@, StepModel::Fault(e@)));
                    }
                    return Some(Err(e));
                },
            }
        }
    }
}

/// Error terminality: whenever a step yields a fault, the translator has
/// raised its finished flag, so no further items follow the error.
pub proof fn lemma_fault_is_finished(s: CoreModel, t: RawTokenModel)
    ensures
        step_model(s, t).1 is Fault ==> step_model(s, t).0.finished,
{
}

/// Exhaustion is terminal: a step that reports end of input raises the
/// finished flag.
pub proof fn lemma_done_is_finished(s: CoreModel, t: RawTokenModel)
    ensures
        step_model(s, t).1 is Done ==> step_model(s, t).0.finished,
{
}

/// A skipped token leaves the translator state exactly as it was.
pub proof fn lemma_skip_keeps_state(s: CoreModel, t: RawTokenModel)
    ensures
        step_model(s, t).1 is Skip ==> step_model(s, t).0 == s,
{
}

/// Self-closing expansion: on a self-closing tag that decodes, the step
/// emits its `StartElement` and leaves exactly the matching `EndElement`
/// pending, so the very next pull emits that `EndElement` with no event
/// between the two, and the tag's namespace frame is popped with it.
pub proof fn lemma_self_closing_expansion(
    s: CoreModel,
    name: Seq<u8>,
    attrs: Seq<RawAttrModel>,
)
    requires
        !s.finished,
        s.pending is None,
        start_model(s.scopes, name, attrs) is Ok,
    ensures
        ({
            let t = start_model(s.scopes, name, attrs)->Ok_0;
            let first = step_model(s, RawTokenModel::SelfClose { name, attrs });
            let second = pending_model(first.0);
            &&& first.1 == StepModel::Emit(
                EventModel::Start { name: t.0, attributes: t.1, namespace: t.2 },
            )
            &&& first.0.pending == Some(t.0)
            &&& !first.0.finished
            &&& second.1 == Some(EventModel::End { name: t.0 })
            &&& second.0.pending is None
            &&& !second.0.finished
            &&& second.0.scopes == s.scopes
        }),
{
    let t = start_model(s.scopes, name, attrs)->Ok_0;
    assert(t.3 == s.scopes.push(attrs_model(attrs)->Ok_0.1));
    assert(t.3.drop_last() =~= s.scopes);
}

/// Empty text suppression: a text token whose decoded content is empty
/// yields no event and leaves the state untouched, so adjacent tags with no
/// intervening characters never produce a `Characters` event.
pub proof fn lemma_empty_text_suppressed(s: CoreModel, content: Seq<u8>)
    requires
        !s.finished,
        s.pending is None,
        text_model(content) matches Ok(tx) && tx.len() == 0,
    ensures
        step_model(s, RawTokenModel::Text { content }).0 == s,
        step_model(s, RawTokenModel::Text { content }).1 == StepModel::Skip,
{
}

} // verus!
