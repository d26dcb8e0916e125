//! Declarations of foreign functions, as they are written and as the binding
//! engine takes them.

use vstd::prelude::*;
use vstd::utf8::encode_utf8;
use crate::attribute::{
    copy_attributes, lemma_views_concat, lemma_views_push, views, AttrForm, AttrFormView,
    Attribute, AttributeView,
};

verus! {

/// A parameter of a declared function.
#[derive(Debug, PartialEq, Eq)]
pub enum Param {
    /// A pattern and its type.
    Typed(String, String),
    /// A parameter without a type of its own, such as a receiver.
    Untyped(String),
}

/// Mathematical model of a [`Param`].
pub enum ParamView {
    Typed(Seq<char>, Seq<char>),
    Untyped(Seq<char>),
}

impl View for Param {
    type V = ParamView;

    open spec fn view(&self) -> ParamView {
        match self {
            Param::Typed(pattern, ty) => ParamView::Typed(pattern@, ty@),
            Param::Untyped(text) => ParamView::Untyped(text@),
        }
    }
}

/// A foreign function as it is declared.
#[derive(Debug, PartialEq, Eq)]
pub struct FunctionSignature {
    /// The name that call sites use.
    pub name: String,
    /// The attributes written on the function.
    pub attrs: Vec<Attribute>,
    /// The visibility, as it was written.
    pub visibility: String,
    /// The parameters, in order.
    pub params: Vec<Param>,
    /// The return type as it was written, arrow included; empty where the
    /// function returns nothing.
    pub output: String,
}

/// Mathematical model of a [`FunctionSignature`].
pub struct FunctionView {
    pub name: Seq<char>,
    pub attrs: Seq<AttributeView>,
    pub visibility: Seq<char>,
    pub params: Seq<ParamView>,
    pub output: Seq<char>,
}

impl View for FunctionSignature {
    type V = FunctionView;

    open spec fn view(&self) -> FunctionView {
        FunctionView {
            name: self.name@,
            attrs: views(self.attrs@),
            visibility: self.visibility@,
            params: views(self.params@),
            output: self.output@,
        }
    }
}

/// A declared function made ready for binding: its symbol is settled, its
/// attributes are those that its wrapper carries, and every parameter is typed.
#[derive(Debug, PartialEq, Eq)]
pub struct Binding {
    /// The name that call sites use.
    pub exported: String,
    /// The symbol to look up in the library, in UTF-8 with a zero byte behind.
    pub symbol: Vec<u8>,
    /// The attributes of the wrapper and of the cache entry.
    pub attrs: Vec<Attribute>,
    /// The visibility of the wrapper.
    pub visibility: String,
    /// The patterns of the parameters, in order.
    pub patterns: Vec<String>,
    /// The types of the parameters, in order.
    pub types: Vec<String>,
    /// The return type, as in the declaration.
    pub output: String,
}

/// Mathematical model of a [`Binding`].
pub struct BindingView {
    pub exported: Seq<char>,
    pub symbol: Seq<u8>,
    pub attrs: Seq<AttributeView>,
    pub visibility: Seq<char>,
    pub patterns: Seq<Seq<char>>,
    pub types: Seq<Seq<char>>,
    pub output: Seq<char>,
}

impl View for Binding {
    type V = BindingView;

    open spec fn view(&self) -> BindingView {
        BindingView {
            exported: self.exported@,
            symbol: self.symbol@,
            attrs: views(self.attrs@),
            visibility: self.visibility@,
            patterns: views(self.patterns@),
            types: views(self.types@),
            output: self.output@,
        }
    }
}

/// Whether an attribute passes from a block to the functions declared in it:
/// conditional compilation and documentation do.
pub open spec fn is_inheritable(attr: AttributeView) -> bool {
    attr.name == "cfg"@ || attr.name == "doc"@
}

/// Whether an attribute only overrides the symbol name. Such an attribute is
/// used up by the binding and not passed on to the wrapper.
pub open spec fn is_symbol_override(attr: AttributeView) -> bool {
    attr.name == "link_name"@
}

/// The attributes of a block that its functions inherit.
pub open spec fn inheritable_of(attrs: Seq<AttributeView>) -> Seq<AttributeView> {
    attrs.filter(|attr: AttributeView| is_inheritable(attr))
}

/// The attributes of a function that its wrapper carries.
pub open spec fn forwarded_of(attrs: Seq<AttributeView>) -> Seq<AttributeView> {
    attrs.filter(|attr: AttributeView| !is_symbol_override(attr))
}

/// The symbol name that the first overriding attribute gives, if there is one.
pub open spec fn symbol_override_of(attrs: Seq<AttributeView>) -> Option<Seq<char>>
    decreases attrs.len(),
{
    if attrs.len() == 0 {
        None
    } else {
        match attrs.first().form {
            AttrFormView::Text(value) if is_symbol_override(attrs.first()) => Some(value),
            _ => symbol_override_of(attrs.drop_first()),
        }
    }
}

/// The name under which a function is looked up: the override where one is
/// given, else the name that call sites use.
pub open spec fn symbol_name_of(function: FunctionView) -> Seq<char> {
    match symbol_override_of(function.attrs) {
        Some(name) => name,
        None => function.name,
    }
}

/// The bytes handed to the symbol lookup: the name in UTF-8, then a zero byte.
pub open spec fn symbol_bytes_of(function: FunctionView) -> Seq<u8> {
    encode_utf8(symbol_name_of(function)).push(0u8)
}

/// Whether every parameter has a type of its own.
pub open spec fn all_typed(params: Seq<ParamView>) -> bool {
    forall|at: int| 0 <= at < params.len() ==> #[trigger] params[at] is Typed
}

/// The pattern of a parameter.
pub open spec fn pattern_of(param: ParamView) -> Seq<char> {
    match param {
        ParamView::Typed(pattern, _) => pattern,
        ParamView::Untyped(text) => text,
    }
}

/// The type of a parameter, empty where it has none.
pub open spec fn type_of(param: ParamView) -> Seq<char> {
    match param {
        ParamView::Typed(_, ty) => ty,
        ParamView::Untyped(_) => Seq::empty(),
    }
}

/// The binding that a declared function gives.
pub open spec fn binding_of(function: FunctionView) -> BindingView {
    BindingView {
        exported: function.name,
        symbol: symbol_bytes_of(function),
        attrs: forwarded_of(function.attrs),
        visibility: function.visibility,
        patterns: function.params.map_values(|param: ParamView| pattern_of(param)),
        types: function.params.map_values(|param: ParamView| type_of(param)),
        output: function.output,
    }
}

/// The declaration of a function inside a block with these attributes: the
/// inheritable attributes of the block come first, then the function's own.
pub open spec fn inherit_into(block_attrs: Seq<AttributeView>, function: FunctionView)
    -> FunctionView {
    FunctionView { attrs: inheritable_of(block_attrs) + function.attrs, ..function }
}

/// Picks the attributes that functions inherit from their block.
pub fn inheritable_attrs(attrs: &Vec<Attribute>) -> (kept: Vec<Attribute>)
    ensures
        views(kept@) == inheritable_of(views(attrs@)),
{
    let mut kept: Vec<Attribute> = Vec::new();
    let mut at: usize = 0;
    assert(views(attrs@).take(0) =~= Seq::empty());
    while at < attrs.len()
        invariant
            at <= attrs.len(),
            views(kept@) == inheritable_of(views(attrs@).take(at as int)),
        decreases attrs.len() - at,
    {
        proof {
            let next = views(attrs@).take(at as int + 1);
            assert(next.drop_last() =~= views(attrs@).take(at as int));
            assert(next.last() == attrs@[at as int]@);
            reveal_with_fuel(Seq::filter, 1);
        }
        if attrs[at].is_named("cfg") || attrs[at].is_named("doc") {
            let item = attrs[at].clone();
            proof {
                lemma_views_push(kept@, item);
            }
            kept.push(item);
        }
        at += 1;
    }
    assert(views(attrs@).take(at as int) =~= views(attrs@));
    kept
}

/// Picks the attributes that the wrapper of a function carries.
pub fn forwarded_attrs(attrs: &Vec<Attribute>) -> (kept: Vec<Attribute>)
    ensures
        views(kept@) == forwarded_of(views(attrs@)),
{
    let mut kept: Vec<Attribute> = Vec::new();
    let mut at: usize = 0;
    assert(views(attrs@).take(0) =~= Seq::empty());
    while at < attrs.len()
        invariant
            at <= attrs.len(),
            views(kept@) == forwarded_of(views(attrs@).take(at as int)),
        decreases attrs.len() - at,
    {
        proof {
            let next = views(attrs@).take(at as int + 1);
            assert(next.drop_last() =~= views(attrs@).take(at as int));
            assert(next.last() == attrs@[at as int]@);
            reveal_with_fuel(Seq::filter, 1);
        }
        if !attrs[at].is_named("link_name") {
            let item = attrs[at].clone();
            proof {
                lemma_views_push(kept@, item);
            }
            kept.push(item);
        }
        at += 1;
    }
    assert(views(attrs@).take(at as int) =~= views(attrs@));
    kept
}

/// Looks for an attribute that overrides the symbol name.
pub fn symbol_override(attrs: &Vec<Attribute>) -> (found: Option<String>)
    ensures
        match found {
            Some(name) => symbol_override_of(views(attrs@)) == Some(name@),
            None => symbol_override_of(views(attrs@)) is None,
        },
{
    let mut at: usize = 0;
    assert(views(attrs@).skip(0) =~= views(attrs@));
    while at < attrs.len()
        invariant
            at <= attrs.len(),
            symbol_override_of(views(attrs@)) == symbol_override_of(
                views(attrs@).skip(at as int),
            ),
        decreases attrs.len() - at,
    {
        proof {
            let rest = views(attrs@).skip(at as int);
            assert(rest.first() == attrs@[at as int]@);
            assert(rest.drop_first() =~= views(attrs@).skip(at as int + 1));
        }
        match &attrs[at].form {
            AttrForm::Text(value) => {
                if attrs[at].is_named("link_name") {
                    return Some(value.clone());
                }
            },
            _ => {},
        }
        at += 1;
    }
    None
}

impl FunctionSignature {
    /// The name under which the function is looked up in the library.
    pub fn symbol_name(&self) -> (name: String)
        ensures
            name@ == symbol_name_of(self@),
    {
        match symbol_override(&self.attrs) {
            Some(name) => name,
            None => self.name.clone(),
        }
    }

    /// The bytes handed to the symbol lookup.
    pub fn symbol_bytes(&self) -> (bytes: Vec<u8>)
        ensures
            bytes@ == symbol_bytes_of(self@),
    {
        let name = self.symbol_name();
        let mut bytes = name.as_str().as_bytes_vec();
        bytes.push(0u8);
        bytes
    }

    /// Whether every parameter has a type of its own.
    pub fn is_fully_typed(&self) -> (typed: bool)
        ensures
            typed == all_typed(self@.params),
    {
        let mut at: usize = 0;
        while at < self.params.len()
            invariant
                at <= self.params.len(),
                forall|before: int|
                    0 <= before < at ==> #[trigger] views(self.params@)[before] is Typed,
            decreases self.params.len() - at,
        {
            match &self.params[at] {
                Param::Typed(_, _) => {},
                Param::Untyped(_) => {
                    assert(views(self.params@)[at as int] is Untyped);
                    return false;
                },
            }
            at += 1;
        }
        true
    }

    /// Makes the function ready for binding inside a block with the given
    /// attributes. A function with an untyped parameter gives nothing.
    pub fn bind(&self, block_attrs: &Vec<Attribute>) -> (bound: Option<Binding>)
        ensures
            bound is Some <==> all_typed(self@.params),
            bound matches Some(binding) ==> binding@ == binding_of(
                inherit_into(views(block_attrs@), self@),
            ),
    {
        if !self.is_fully_typed() {
            return None;
        }
        let mut attrs = inheritable_attrs(block_attrs);
        let mut own = copy_attributes(&self.attrs);
        let ghost inherited = views(attrs@);
        proof {
            lemma_views_concat(attrs@, own@);
        }
        attrs.append(&mut own);
        let ghost whole = inherit_into(views(block_attrs@), self@);
        assert(views(attrs@) == whole.attrs);
        let symbol = match symbol_override(&attrs) {
            Some(name) => name,
            None => self.name.clone(),
        };
        let mut bytes = symbol.as_str().as_bytes_vec();
        bytes.push(0u8);
        let kept = forwarded_attrs(&attrs);
        let mut patterns: Vec<String> = Vec::new();
        let mut types: Vec<String> = Vec::new();
        let mut at: usize = 0;
        while at < self.params.len()
            invariant
                at <= self.params.len(),
                all_typed(self@.params),
                views(patterns@) == self@.params.take(at as int).map_values(
                    |param: ParamView| pattern_of(param),
                ),
                views(types@) == self@.params.take(at as int).map_values(
                    |param: ParamView| type_of(param),
                ),
            decreases self.params.len() - at,
        {
            assert(self@.params[at as int] is Typed);
            match &self.params[at] {
                Param::Typed(pattern, ty) => {
                    let pattern_copy = pattern.clone();
                    let type_copy = ty.clone();
                    proof {
                        lemma_views_push(patterns@, pattern_copy);
                        lemma_views_push(types@, type_copy);
                        assert(self@.params.take(at as int + 1).map_values(
                            |param: ParamView| pattern_of(param),
                        ) =~= self@.params.take(at as int).map_values(
                            |param: ParamView| pattern_of(param),
                        ).push(pattern@));
                        assert(self@.params.take(at as int + 1).map_values(
                            |param: ParamView| type_of(param),
                        ) =~= self@.params.take(at as int).map_values(
                            |param: ParamView| type_of(param),
                        ).push(ty@));
                    }
                    patterns.push(pattern_copy);
                    types.push(type_copy);
                },
                Param::Untyped(_) => {},
            }
            at += 1;
        }
        assert(self@.params.take(at as int) =~= self@.params);
        Some(
            Binding {
                exported: self.name.clone(),
                symbol: bytes,
                attrs: kept,
                visibility: self.visibility.clone(),
                patterns,
                types,
                output: self.output.clone(),
            },
        )
    }
}

} // verus!
