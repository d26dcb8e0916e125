//! Attributes attached to declarations, held as plain values.

use vstd::prelude::*;

verus! {

/// The models of the items of a sequence, in the same order.
pub open spec fn views<T: View>(items: Seq<T>) -> Seq<T::V> {
    items.map_values(|item: T| item@)
}

/// The models of a sequence with one more item are the models of the
/// sequence with the model of that item behind them.
pub proof fn lemma_views_push<T: View>(items: Seq<T>, item: T)
    ensures
        views(items.push(item)) == views(items).push(item@),
{
    assert(views(items.push(item)) =~= views(items).push(item@));
}

/// The models of two sequences joined are the models of the first followed by
/// those of the second.
pub proof fn lemma_views_concat<T: View>(first: Seq<T>, second: Seq<T>)
    ensures
        views(first + second) == views(first) + views(second),
{
    assert(views(first + second) =~= views(first) + views(second));
}

/// Whether a text is exactly the given word.
pub fn is_word(text: &String, word: &str) -> (same: bool)
    ensures
        same == (text@ == word@),
{
    let owned = word.to_owned();
    *text == owned
}

/// One entry of a comma-separated option list.
#[derive(Debug, PartialEq, Eq)]
pub enum MetaItem {
    /// A bare string literal.
    Literal(String),
    /// A name, an equals sign and a string literal.
    NameValue(String, String),
    /// Anything else.
    Other,
}

/// Mathematical model of a [`MetaItem`].
pub enum MetaItemView {
    Literal(Seq<char>),
    NameValue(Seq<char>, Seq<char>),
    Other,
}

impl View for MetaItem {
    type V = MetaItemView;

    open spec fn view(&self) -> MetaItemView {
        match self {
            MetaItem::Literal(text) => MetaItemView::Literal(text@),
            MetaItem::NameValue(name, value) => MetaItemView::NameValue(name@, value@),
            MetaItem::Other => MetaItemView::Other,
        }
    }
}

impl Clone for MetaItem {
    fn clone(&self) -> (copy: Self)
        ensures
            copy@ == self@,
    {
        match self {
            MetaItem::Literal(text) => MetaItem::Literal(text.clone()),
            MetaItem::NameValue(name, value) => MetaItem::NameValue(name.clone(), value.clone()),
            MetaItem::Other => MetaItem::Other,
        }
    }
}

/// Copies a list of entries.
pub fn copy_items(items: &Vec<MetaItem>) -> (copy: Vec<MetaItem>)
    ensures
        views(copy@) == views(items@),
{
    let mut copy: Vec<MetaItem> = Vec::new();
    let mut at: usize = 0;
    while at < items.len()
        invariant
            at <= items.len(),
            views(copy@) == views(items@).take(at as int),
        decreases items.len() - at,
    {
        let item = items[at].clone();
        proof {
            lemma_views_push(copy@, item);
            assert(views(items@).take(at as int).push(item@) =~= views(items@).take(at as int + 1));
        }
        copy.push(item);
        at += 1;
    }
    assert(views(items@).take(at as int) =~= views(items@));
    copy
}

/// What stands behind the name of an attribute.
#[derive(Debug, PartialEq, Eq)]
pub enum AttrForm {
    /// Nothing: the attribute is its name alone.
    Word,
    /// An equals sign and a string literal.
    Text(String),
    /// A parenthesised list of entries.
    List(Vec<MetaItem>),
    /// Anything else.
    Other,
}

/// Mathematical model of an [`AttrForm`].
pub enum AttrFormView {
    Word,
    Text(Seq<char>),
    List(Seq<MetaItemView>),
    Other,
}

impl View for AttrForm {
    type V = AttrFormView;

    open spec fn view(&self) -> AttrFormView {
        match self {
            AttrForm::Word => AttrFormView::Word,
            AttrForm::Text(text) => AttrFormView::Text(text@),
            AttrForm::List(items) => AttrFormView::List(views(items@)),
            AttrForm::Other => AttrFormView::Other,
        }
    }
}

impl Clone for AttrForm {
    fn clone(&self) -> (copy: Self)
        ensures
            copy@ == self@,
    {
        match self {
            AttrForm::Word => AttrForm::Word,
            AttrForm::Text(text) => AttrForm::Text(text.clone()),
            AttrForm::List(items) => AttrForm::List(copy_items(items)),
            AttrForm::Other => AttrForm::Other,
        }
    }
}

/// An attribute of a block or of a function.
#[derive(Debug, PartialEq, Eq)]
pub struct Attribute {
    /// The name in front, empty where the attribute's path is not one word.
    pub name: String,
    /// What stands behind the name.
    pub form: AttrForm,
    /// The attribute as it was written, carried through unchanged.
    pub source: String,
}

/// Mathematical model of an [`Attribute`].
pub struct AttributeView {
    pub name: Seq<char>,
    pub form: AttrFormView,
    pub source: Seq<char>,
}

impl View for Attribute {
    type V = AttributeView;

    open spec fn view(&self) -> AttributeView {
        AttributeView { name: self.name@, form: self.form@, source: self.source@ }
    }
}

impl Clone for Attribute {
    fn clone(&self) -> (copy: Self)
        ensures
            copy@ == self@,
    {
        Attribute {
            name: self.name.clone(),
            form: self.form.clone(),
            source: self.source.clone(),
        }
    }
}

/// Copies a list of attributes.
pub fn copy_attributes(attrs: &Vec<Attribute>) -> (copy: Vec<Attribute>)
    ensures
        views(copy@) == views(attrs@),
{
    let mut copy: Vec<Attribute> = Vec::new();
    let mut at: usize = 0;
    while at < attrs.len()
        invariant
            at <= attrs.len(),
            views(copy@) == views(attrs@).take(at as int),
        decreases attrs.len() - at,
    {
        let item = attrs[at].clone();
        proof {
            lemma_views_push(copy@, item);
            assert(views(attrs@).take(at as int).push(item@) =~= views(attrs@).take(at as int + 1));
        }
        copy.push(item);
        at += 1;
    }
    assert(views(attrs@).take(at as int) =~= views(attrs@));
    copy
}

/// The value that the last entry of the form `key = "value"` gives to `key`.
pub open spec fn last_value(items: Seq<MetaItemView>, key: Seq<char>) -> Option<Seq<char>>
    decreases items.len(),
{
    if items.len() == 0 {
        None
    } else {
        match items.last() {
            MetaItemView::NameValue(name, value) if name == key => Some(value),
            _ => last_value(items.drop_last(), key),
        }
    }
}

/// Finds the value that the last entry of the form `key = "value"` gives.
pub fn find_last_value(items: &Vec<MetaItem>, key: &str) -> (found: Option<String>)
    ensures
        match found {
            Some(value) => last_value(views(items@), key@) == Some(value@),
            None => last_value(views(items@), key@) is None,
        },
{
    let mut at: usize = items.len();
    assert(views(items@).take(at as int) =~= views(items@));
    while at > 0
        invariant
            at <= items.len(),
            last_value(views(items@), key@) == last_value(views(items@).take(at as int), key@),
        decreases at,
    {
        at -= 1;
        proof {
            let before = views(items@).take(at as int + 1);
            assert(before.last() == items@[at as int]@);
            assert(before.drop_last() =~= views(items@).take(at as int));
        }
        match &items[at] {
            MetaItem::NameValue(name, value) => {
                if is_word(name, key) {
                    return Some(value.clone());
                }
            },
            _ => {},
        }
    }
    proof {
        assert(views(items@).take(0).len() == 0);
    }
    None
}

/// The library name that a link attribute gives: the attribute is named
/// `link`, holds a list with a `name`, and its `kind`, where it has one, is
/// `dylib`.
pub open spec fn link_hint(attr: AttributeView) -> Option<Seq<char>> {
    if attr.name == "link"@ {
        match attr.form {
            AttrFormView::List(items) => {
                let name = last_value(items, "name"@);
                let kind = last_value(items, "kind"@);
                if name is Some && (kind is None || kind == Some("dylib"@)) {
                    name
                } else {
                    None
                }
            },
            _ => None,
        }
    } else {
        None
    }
}

/// The library name given by the first attribute that gives one.
pub open spec fn link_name_of(attrs: Seq<AttributeView>) -> Option<Seq<char>>
    decreases attrs.len(),
{
    if attrs.len() == 0 {
        None
    } else {
        match link_hint(attrs.first()) {
            Some(name) => Some(name),
            None => link_name_of(attrs.drop_first()),
        }
    }
}

impl Attribute {
    /// Whether the attribute has this name.
    pub fn is_named(&self, word: &str) -> (named: bool)
        ensures
            named == (self@.name == word@),
    {
        is_word(&self.name, word)
    }

    /// The library name that this attribute gives as a link hint, if any.
    pub fn link_hint(&self) -> (hint: Option<String>)
        ensures
            match hint {
                Some(name) => link_hint(self@) == Some(name@),
                None => link_hint(self@) is None,
            },
    {
        if !self.is_named("link") {
            return None;
        }
        match &self.form {
            AttrForm::List(items) => {
                let name = find_last_value(items, "name");
                let kind = find_last_value(items, "kind");
                match name {
                    Some(text) => match kind {
                        None => Some(text),
                        Some(kind_text) => if is_word(&kind_text, "dylib") {
                            Some(text)
                        } else {
                            None
                        },
                    },
                    None => None,
                }
            },
            _ => None,
        }
    }
}

/// Looks for a link hint among the attributes of a block: the first attribute
/// that gives a library name decides.
pub fn link_name(attrs: &Vec<Attribute>) -> (found: Option<String>)
    ensures
        match found {
            Some(name) => link_name_of(views(attrs@)) == Some(name@),
            None => link_name_of(views(attrs@)) is None,
        },
{
    let mut at: usize = 0;
    assert(views(attrs@).skip(0) =~= views(attrs@));
    while at < attrs.len()
        invariant
            at <= attrs.len(),
            link_name_of(views(attrs@)) == link_name_of(views(attrs@).skip(at as int)),
        decreases attrs.len() - at,
    {
        proof {
            let rest = views(attrs@).skip(at as int);
            assert(rest.first() == attrs@[at as int]@);
            assert(rest.drop_first() =~= views(attrs@).skip(at as int + 1));
        }
        match attrs[at].link_hint() {
            Some(name) => {
                return Some(name);
            },
            None => {},
        }
        at += 1;
    }
    None
}

/// A link hint is found exactly where some attribute gives one, and the name
/// is that of the first such attribute.
pub proof fn lemma_link_name_is_first_hint(attrs: Seq<AttributeView>)
    ensures
        match link_name_of(attrs) {
            Some(name) => exists|at: int|
                0 <= at < attrs.len() && #[trigger] link_hint(attrs[at]) == Some(name) && forall|
                    before: int,
                |
                    0 <= before < at ==> #[trigger] link_hint(attrs[before]) is None,
            None => forall|at: int| 0 <= at < attrs.len() ==> #[trigger] link_hint(attrs[at]) is None,
        },
    decreases attrs.len(),
{
    if attrs.len() > 0 {
        let rest = attrs.drop_first();
        lemma_link_name_is_first_hint(rest);
        match link_hint(attrs.first()) {
            Some(name) => {
                assert(link_hint(attrs[0]) == Some(name));
            },
            None => {
                match link_name_of(rest) {
                    Some(name) => {
                        let at = choose|at: int|
                            0 <= at < rest.len() && #[trigger] link_hint(rest[at]) == Some(name)
                                && forall|before: int|
                                0 <= before < at ==> #[trigger] link_hint(rest[before]) is None;
                        assert(link_hint(attrs[at + 1]) == Some(name));
                        assert forall|before: int| 0 <= before < at + 1 implies #[trigger] link_hint(
                            attrs[before],
                        ) is None by {
                            if before > 0 {
                                assert(attrs[before] == rest[before - 1]);
                            }
                        }
                    },
                    None => {
                        assert forall|at: int| 0 <= at < attrs.len() implies #[trigger] link_hint(
                            attrs[at],
                        ) is None by {
                            if at > 0 {
                                assert(attrs[at] == rest[at - 1]);
                            }
                        }
                    },
                }
            },
        }
    }
}

} // verus!
