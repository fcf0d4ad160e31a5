//! The syntax tree of a template, and its mathematical view.
use vstd::prelude::*;

use crate::token::Span;
use crate::token::Token;
use crate::token::TokenStream;

verus! {

/// A piece of markup.
#[derive(Debug, PartialEq, Eq)]
pub enum Markup {
    /// `{ ... }`
    Block(Block),
    /// `"text"`
    Literal { content: String, span: Span },
    /// `(expr)`
    Splice { expr: TokenStream },
    /// `name attrs { ... }`, `name attrs;`
    Element { name: TokenStream, attrs: Attrs, body: Option<Box<Markup>> },
    /// `@let pattern = expr;`
    Let { tokens: TokenStream },
    /// `@if`, `@while` and `@for`
    Special { segments: Vec<Special> },
    /// `@match head { arms }`
    Match { head: TokenStream, arms: Vec<Special>, arms_span: Span },
}

/// The attributes of an element.
#[derive(Debug, PartialEq, Eq)]
pub struct Attrs {
    /// `.name`
    pub classes_static: Vec<TokenStream>,
    /// `.name[cond]`
    pub classes_toggled: Vec<(TokenStream, Toggler)>,
    /// `#name`
    pub ids: Vec<TokenStream>,
    /// `name=value` and `name?[cond]`
    pub attrs: Vec<Attribute>,
}

/// A sequence of markup, with the region of source that it comes from.
#[derive(Debug, PartialEq, Eq)]
pub struct Block {
    pub markups: Vec<Markup>,
    pub span: Span,
}

/// A block guarded by a head: one branch of an `@if`, a loop, or an arm of a `@match`.
#[derive(Debug, PartialEq, Eq)]
pub struct Special {
    pub head: TokenStream,
    pub body: Block,
}

/// A named attribute.
#[derive(Debug, PartialEq, Eq)]
pub struct Attribute {
    pub name: TokenStream,
    pub attr_type: AttrType,
}

/// What an attribute is set to.
#[derive(Debug, PartialEq, Eq)]
pub enum AttrType {
    /// `name=value`
    Normal { value: Markup },
    /// `name?` and `name?[cond]`
    Empty { toggler: Option<Toggler> },
}

/// The condition under which an empty attribute or a class is present.
#[derive(Debug, PartialEq, Eq)]
pub struct Toggler {
    pub cond: TokenStream,
    pub cond_span: Span,
}

/// The mathematical view of a [`Markup`].
pub enum MarkupModel {
    Block(BlockModel),
    Literal { content: Seq<char>, span: Span },
    Splice { expr: Seq<Token> },
    Element { name: Seq<Token>, attrs: AttrsModel, body: Option<Box<MarkupModel>> },
    Let { tokens: Seq<Token> },
    Special { segments: Seq<SpecialModel> },
    Match { head: Seq<Token>, arms: Seq<SpecialModel>, arms_span: Span },
}

/// The mathematical view of [`Attrs`].
pub struct AttrsModel {
    pub classes_static: Seq<Seq<Token>>,
    pub classes_toggled: Seq<(Seq<Token>, TogglerModel)>,
    pub ids: Seq<Seq<Token>>,
    pub attrs: Seq<AttributeModel>,
}

/// The mathematical view of a [`Block`].
pub struct BlockModel {
    pub markups: Seq<MarkupModel>,
    pub span: Span,
}

/// The mathematical view of a [`Special`].
pub struct SpecialModel {
    pub head: Seq<Token>,
    pub body: BlockModel,
}

/// The mathematical view of an [`Attribute`].
pub struct AttributeModel {
    pub name: Seq<Token>,
    pub attr_type: AttrTypeModel,
}

/// The mathematical view of an [`AttrType`].
pub enum AttrTypeModel {
    Normal { value: MarkupModel },
    Empty { toggler: Option<TogglerModel> },
}

/// The mathematical view of a [`Toggler`].
pub struct TogglerModel {
    pub cond: Seq<Token>,
    pub cond_span: Span,
}

impl Markup {
    /// The mathematical view.
    pub open spec fn model(self) -> MarkupModel
        decreases self,
    {
        match self {
            Markup::Block(block) => MarkupModel::Block(block.model()),
            Markup::Literal { content, span } => MarkupModel::Literal { content: content@, span },
            Markup::Splice { expr } => MarkupModel::Splice { expr: expr@ },
            Markup::Element { name, attrs, body } => MarkupModel::Element {
                name: name@,
                attrs: attrs.model(),
                body: match body {
                    Some(markup) => Some(Box::new((*markup).model())),
                    None => None,
                },
            },
            Markup::Let { tokens } => MarkupModel::Let { tokens: tokens@ },
            Markup::Special { segments } => MarkupModel::Special {
                segments: specials_model(segments@),
            },
            Markup::Match { head, arms, arms_span } => MarkupModel::Match {
                head: head@,
                arms: specials_model(arms@),
                arms_span,
            },
        }
    }
}

impl Attrs {
    /// The mathematical view.
    pub open spec fn model(self) -> AttrsModel
        decreases self,
    {
        AttrsModel {
            classes_static: streams_model(self.classes_static@),
            classes_toggled: toggled_model(self.classes_toggled@),
            ids: streams_model(self.ids@),
            attrs: attributes_model(self.attrs@),
        }
    }
}

impl Block {
    /// The mathematical view.
    pub open spec fn model(self) -> BlockModel
        decreases self,
    {
        BlockModel { markups: markups_model(self.markups@), span: self.span }
    }
}

impl Special {
    /// The mathematical view.
    pub open spec fn model(self) -> SpecialModel
        decreases self,
    {
        SpecialModel { head: self.head@, body: self.body.model() }
    }
}

impl Attribute {
    /// The mathematical view.
    pub open spec fn model(self) -> AttributeModel
        decreases self,
    {
        AttributeModel { name: self.name@, attr_type: self.attr_type.model() }
    }
}

impl AttrType {
    /// The mathematical view.
    pub open spec fn model(self) -> AttrTypeModel
        decreases self,
    {
        match self {
            AttrType::Normal { value } => AttrTypeModel::Normal { value: value.model() },
            AttrType::Empty { toggler } => AttrTypeModel::Empty { toggler: toggler_model(toggler) },
        }
    }
}

impl Toggler {
    /// The mathematical view.
    pub open spec fn model(self) -> TogglerModel {
        TogglerModel { cond: self.cond@, cond_span: self.cond_span }
    }
}

/// The view of an optional toggler.
pub open spec fn toggler_model(toggler: Option<Toggler>) -> Option<TogglerModel> {
    match toggler {
        Some(toggler) => Some(toggler.model()),
        None => None,
    }
}

/// The views of the given pieces of markup, in order.
pub open spec fn markups_model(markups: Seq<Markup>) -> Seq<MarkupModel>
    decreases markups,
{
    Seq::new(
        markups.len(),
        |i: int|
            if 0 <= i < markups.len() {
                markups[i].model()
            } else {
                arbitrary()
            },
    )
}

/// The views of the given guarded blocks, in order.
pub open spec fn specials_model(specials: Seq<Special>) -> Seq<SpecialModel>
    decreases specials,
{
    Seq::new(
        specials.len(),
        |i: int|
            if 0 <= i < specials.len() {
                specials[i].model()
            } else {
                arbitrary()
            },
    )
}

/// The views of the given attributes, in order.
pub open spec fn attributes_model(attributes: Seq<Attribute>) -> Seq<AttributeModel>
    decreases attributes,
{
    Seq::new(
        attributes.len(),
        |i: int|
            if 0 <= i < attributes.len() {
                attributes[i].model()
            } else {
                arbitrary()
            },
    )
}

/// The views of the given streams, in order.
pub open spec fn streams_model(streams: Seq<TokenStream>) -> Seq<Seq<Token>> {
    Seq::new(streams.len(), |i: int| streams[i]@)
}

/// The views of the given toggled classes, in order.
pub open spec fn toggled_model(classes: Seq<(TokenStream, Toggler)>) -> Seq<
    (Seq<Token>, TogglerModel),
> {
    Seq::new(classes.len(), |i: int| (classes[i].0@, classes[i].1.model()))
}

/// One more markup is one more view.
pub broadcast proof fn lemma_markups_model_push(markups: Seq<Markup>, markup: Markup)
    ensures
        #[trigger] markups_model(markups.push(markup)) == markups_model(markups).push(
            markup.model(),
        ),
{
    assert(markups_model(markups.push(markup)) =~= markups_model(markups).push(markup.model()));
}

/// One more guarded block is one more view.
pub broadcast proof fn lemma_specials_model_push(specials: Seq<Special>, special: Special)
    ensures
        #[trigger] specials_model(specials.push(special)) == specials_model(specials).push(
            special.model(),
        ),
{
    assert(specials_model(specials.push(special)) =~= specials_model(specials).push(
        special.model(),
    ));
}

/// One more attribute is one more view.
pub broadcast proof fn lemma_attributes_model_push(attributes: Seq<Attribute>, attribute: Attribute)
    ensures
        #[trigger] attributes_model(attributes.push(attribute)) == attributes_model(
            attributes,
        ).push(attribute.model()),
{
    assert(attributes_model(attributes.push(attribute)) =~= attributes_model(attributes).push(
        attribute.model(),
    ));
}

/// One more stream is one more view.
pub broadcast proof fn lemma_streams_model_push(streams: Seq<TokenStream>, stream: TokenStream)
    ensures
        #[trigger] streams_model(streams.push(stream)) == streams_model(streams).push(stream@),
{
    assert(streams_model(streams.push(stream)) =~= streams_model(streams).push(stream@));
}

/// One more toggled class is one more view.
pub broadcast proof fn lemma_toggled_model_push(
    classes: Seq<(TokenStream, Toggler)>,
    class: (TokenStream, Toggler),
)
    ensures
        #[trigger] toggled_model(classes.push(class)) == toggled_model(classes).push(
            (class.0@, class.1.model()),
        ),
{
    assert(toggled_model(classes.push(class)) =~= toggled_model(classes).push(
        (class.0@, class.1.model()),
    ));
}

/// Adding to a list adds to the view of the list.
pub broadcast group group_model_push {
    lemma_markups_model_push,
    lemma_specials_model_push,
    lemma_attributes_model_push,
    lemma_streams_model_push,
    lemma_toggled_model_push,
}

/// The view of a piece of markup is of the same kind, with the views of the same parts.
pub proof fn law_markup_model(markup: Markup)
    ensures
        match markup {
            Markup::Block(block) => markup.model() == MarkupModel::Block(block.model()),
            Markup::Literal { content, span } => markup.model() == (MarkupModel::Literal {
                content: content@,
                span,
            }),
            Markup::Splice { expr } => markup.model() == (MarkupModel::Splice { expr: expr@ }),
            Markup::Element { name, attrs, body } => {
                &&& markup.model() is Element
                &&& markup.model()->Element_name == name@
                &&& markup.model()->Element_attrs == attrs.model()
                &&& markup.model()->Element_body is Some <==> body is Some
                &&& body matches Some(inner) ==> *markup.model()->Element_body->Some_0
                    == inner.model()
            },
            Markup::Let { tokens } => markup.model() == (MarkupModel::Let { tokens: tokens@ }),
            Markup::Special { segments } => {
                &&& markup.model() is Special
                &&& markup.model()->segments == specials_model(segments@)
            },
            Markup::Match { head, arms, arms_span } => {
                &&& markup.model() is Match
                &&& markup.model()->Match_head == head@
                &&& markup.model()->arms == specials_model(arms@)
                &&& markup.model()->arms_span == arms_span
            },
        },
{
}

/// The views of the parts of a syntax tree hold the views of all that these hold, field by field.
pub proof fn law_part_models(
    attrs: Attrs,
    block: Block,
    special: Special,
    attribute: Attribute,
    toggler: Toggler,
)
    ensures
        attrs.model().classes_static == streams_model(attrs.classes_static@),
        attrs.model().classes_toggled == toggled_model(attrs.classes_toggled@),
        attrs.model().ids == streams_model(attrs.ids@),
        attrs.model().attrs == attributes_model(attrs.attrs@),
        block.model().markups == markups_model(block.markups@),
        block.model().span == block.span,
        special.model().head == special.head@,
        special.model().body == special.body.model(),
        attribute.model().name == attribute.name@,
        match attribute.attr_type {
            AttrType::Normal { value } => attribute.model().attr_type == (AttrTypeModel::Normal {
                value: value.model(),
            }),
            AttrType::Empty { toggler: Some(toggler) } => attribute.model().attr_type == (
            AttrTypeModel::Empty { toggler: Some(toggler.model()) }),
            AttrType::Empty { toggler: None } => attribute.model().attr_type == (
            AttrTypeModel::Empty { toggler: None }),
        },
        toggler.model().cond == toggler.cond@,
        toggler.model().cond_span == toggler.cond_span,
{
    assert(attribute.attr_type.model() == attribute.model().attr_type);
}

/// The view of a list is the list of views: as many, and in the same order.
pub proof fn law_list_models(
    markups: Seq<Markup>,
    specials: Seq<Special>,
    attributes: Seq<Attribute>,
    streams: Seq<TokenStream>,
    classes: Seq<(TokenStream, Toggler)>,
    i: int,
)
    ensures
        markups_model(markups).len() == markups.len(),
        0 <= i < markups.len() ==> markups_model(markups)[i] == markups[i].model(),
        specials_model(specials).len() == specials.len(),
        0 <= i < specials.len() ==> specials_model(specials)[i] == specials[i].model(),
        attributes_model(attributes).len() == attributes.len(),
        0 <= i < attributes.len() ==> attributes_model(attributes)[i] == attributes[i].model(),
        streams_model(streams).len() == streams.len(),
        0 <= i < streams.len() ==> streams_model(streams)[i] == streams[i]@,
        toggled_model(classes).len() == classes.len(),
        0 <= i < classes.len() ==> toggled_model(classes)[i] == (
            classes[i].0@,
            classes[i].1.model(),
        ),
{
}

} // verus!
