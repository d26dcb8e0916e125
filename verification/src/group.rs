//! Binding groups: the declared functions that share one library identity.

use vstd::prelude::*;
use crate::attribute::{
    is_word, lemma_views_push, link_name, link_name_of, views, Attribute, AttributeView,
};
use crate::decl::{
    all_typed, binding_of, inherit_into, Binding, BindingView, FunctionSignature, FunctionView,
};
use crate::error::ConfigError;
use crate::identity::{IdentityView, LibraryIdentity};
use crate::key::group_key_of;

verus! {

/// An entry of a foreign block.
#[derive(Debug, PartialEq, Eq)]
pub enum ForeignItem {
    /// A function declaration.
    Function(FunctionSignature),
    /// Anything else, which cannot be bound.
    Other,
}

/// Mathematical model of a [`ForeignItem`].
pub enum ForeignItemView {
    Function(FunctionView),
    Other,
}

impl View for ForeignItem {
    type V = ForeignItemView;

    open spec fn view(&self) -> ForeignItemView {
        match self {
            ForeignItem::Function(function) => ForeignItemView::Function(function@),
            ForeignItem::Other => ForeignItemView::Other,
        }
    }
}

/// A block of foreign declarations with the attributes written on it.
#[derive(Debug, PartialEq, Eq)]
pub struct ForeignBlock {
    /// The attributes of the block, a link hint among them where one is given.
    pub attrs: Vec<Attribute>,
    /// The entries of the block, in order.
    pub items: Vec<ForeignItem>,
}

/// Mathematical model of a [`ForeignBlock`].
pub struct BlockView {
    pub attrs: Seq<AttributeView>,
    pub items: Seq<ForeignItemView>,
}

impl View for ForeignBlock {
    type V = BlockView;

    open spec fn view(&self) -> BlockView {
        BlockView { attrs: views(self.attrs@), items: views(self.items@) }
    }
}

/// The functions bound to one library, with the key that tells the group apart
/// from the others.
#[derive(Debug, PartialEq, Eq)]
pub struct BindingGroup {
    /// The key of the group, made from its sequence index and its identity.
    pub key: u64,
    /// The library that the functions are bound to.
    pub identity: LibraryIdentity,
    /// The functions, in the order of their declaration.
    pub bindings: Vec<Binding>,
}

/// Mathematical model of a [`BindingGroup`].
pub struct GroupView {
    pub key: u64,
    pub identity: IdentityView,
    pub bindings: Seq<BindingView>,
}

impl View for BindingGroup {
    type V = GroupView;

    open spec fn view(&self) -> GroupView {
        GroupView { key: self.key, identity: self.identity@, bindings: views(self.bindings@) }
    }
}

/// The identity that holds for a block: the one given by an option where
/// there is one, else the short name of the link hint, else none.
pub open spec fn effective_identity(explicit: IdentityView, hint: Option<Seq<char>>)
    -> IdentityView {
    if !(explicit is Unresolved) {
        explicit
    } else {
        match hint {
            Some(name) => IdentityView::ShortName(name),
            None => IdentityView::Unresolved,
        }
    }
}

/// Settles the identity of a block from an option and a link hint. The option
/// decides where it names a library; the hint is used only without it.
pub fn resolve_identity(explicit: &LibraryIdentity, hint: Option<String>) -> (identity:
    LibraryIdentity)
    ensures
        identity@ == effective_identity(
            explicit@,
            match hint {
                Some(name) => Some(name@),
                None => None,
            },
        ),
{
    if explicit.is_resolved() {
        explicit.clone()
    } else {
        match hint {
            Some(name) => LibraryIdentity::ShortName(name),
            None => LibraryIdentity::Unresolved,
        }
    }
}

/// Precedence of identities: an option that names the library decides,
/// whatever the link hint says; the hint decides only without such an option;
/// and without either no identity is known.
pub proof fn lemma_identity_precedence(explicit: IdentityView, hint: Option<Seq<char>>)
    ensures
        !(explicit is Unresolved) ==> effective_identity(explicit, hint) == explicit,
        explicit is Unresolved && hint is Some ==> effective_identity(explicit, hint)
            == IdentityView::ShortName(hint->0),
        explicit is Unresolved && hint is None ==> effective_identity(explicit, hint)
            is Unresolved,
{
}

/// Whether an entry of a block can be bound: it is a function, and each of its
/// parameters is typed.
pub open spec fn is_bindable(item: ForeignItemView) -> bool {
    item matches ForeignItemView::Function(function) && all_typed(function.params)
}

/// The fault that an entry of a block is, where it cannot be bound.
pub open spec fn fault_of(block_at: int, at: int, item: ForeignItemView) -> ConfigError {
    match item {
        ForeignItemView::Function(_) => ConfigError::UntypedParameter(
            block_at as usize,
            at as usize,
        ),
        ForeignItemView::Other => ConfigError::UnsupportedItem(block_at as usize, at as usize),
    }
}

/// The bindings that the entries of a block give, read from the front; the
/// first entry that cannot be bound is the fault of the block.
pub open spec fn bindings_of(
    attrs: Seq<AttributeView>,
    items: Seq<ForeignItemView>,
    block_at: int,
) -> Result<Seq<BindingView>, ConfigError>
    decreases items.len(),
{
    if items.len() == 0 {
        Ok(Seq::empty())
    } else {
        match bindings_of(attrs, items.drop_last(), block_at) {
            Ok(bindings) => {
                if is_bindable(items.last()) {
                    Ok(bindings.push(binding_of(inherit_into(attrs, items.last()->Function_0))))
                } else {
                    Err(fault_of(block_at, items.len() - 1, items.last()))
                }
            },
            Err(fault) => Err(fault),
        }
    }
}

/// A fault among the first entries of a block is the fault of the block.
pub proof fn lemma_block_fault_is_kept(
    attrs: Seq<AttributeView>,
    items: Seq<ForeignItemView>,
    block_at: int,
    upto: int,
)
    requires
        0 <= upto <= items.len(),
    ensures
        bindings_of(attrs, items.take(upto), block_at) matches Err(fault) ==> bindings_of(
            attrs,
            items,
            block_at,
        ) == Err::<Seq<BindingView>, ConfigError>(fault),
    decreases items.len() - upto,
{
    if upto < items.len() {
        lemma_block_fault_is_kept(attrs, items, block_at, upto + 1);
        assert(items.take(upto + 1).drop_last() =~= items.take(upto));
    } else {
        assert(items.take(upto) =~= items);
    }
}

/// A block gives bindings exactly when each of its entries can be bound: one
/// binding for each entry, in order. Otherwise its fault is that of the first
/// entry that cannot be bound.
pub proof fn lemma_block_bindings(
    attrs: Seq<AttributeView>,
    items: Seq<ForeignItemView>,
    block_at: int,
)
    ensures
        match bindings_of(attrs, items, block_at) {
            Ok(bindings) => {
                &&& bindings.len() == items.len()
                &&& forall|at: int|
                    0 <= at < items.len() ==> is_bindable(#[trigger] items[at]) && bindings[at]
                        == binding_of(inherit_into(attrs, items[at]->Function_0))
            },
            Err(fault) => exists|at: int|
                0 <= at < items.len() && !is_bindable(#[trigger] items[at]) && fault == fault_of(
                    block_at,
                    at,
                    items[at],
                ) && forall|before: int| 0 <= before < at ==> is_bindable(#[trigger] items[before]),
        },
    decreases items.len(),
{
    if items.len() > 0 {
        let front = items.drop_last();
        lemma_block_bindings(attrs, front, block_at);
        match bindings_of(attrs, front, block_at) {
            Ok(bindings) => {
                assert forall|at: int| 0 <= at < front.len() implies is_bindable(
                    #[trigger] items[at],
                ) by {
                    assert(front[at] == items[at]);
                }
                if is_bindable(items.last()) {
                    let all = bindings.push(
                        binding_of(inherit_into(attrs, items.last()->Function_0)),
                    );
                    assert forall|at: int| 0 <= at < items.len() implies is_bindable(
                        #[trigger] items[at],
                    ) && all[at] == binding_of(inherit_into(attrs, items[at]->Function_0)) by {
                        if at < front.len() {
                            assert(front[at] == items[at]);
                        }
                    }
                } else {
                    let last = items.len() - 1;
                    assert(!is_bindable(items[last]));
                }
            },
            Err(fault) => {
                let at = choose|at: int|
                    0 <= at < front.len() && !is_bindable(#[trigger] front[at]) && fault
                        == fault_of(block_at, at, front[at]) && forall|before: int|
                        0 <= before < at ==> is_bindable(#[trigger] front[before]);
                assert(front[at] == items[at]);
                assert forall|before: int| 0 <= before < at implies is_bindable(
                    #[trigger] items[before],
                ) by {
                    assert(front[before] == items[before]);
                }
            },
        }
    }
}

impl ForeignBlock {
    /// The link hint written on the block, if there is one.
    pub fn link_hint(&self) -> (hint: Option<String>)
        ensures
            match hint {
                Some(name) => link_name_of(self@.attrs) == Some(name@),
                None => link_name_of(self@.attrs) is None,
            },
    {
        link_name(&self.attrs)
    }

    /// Makes the functions of the block ready for binding. `block_at` is the
    /// position of the block among the items around it and is given back in
    /// the fault.
    pub fn bindings(&self, block_at: usize) -> (bound: Result<Vec<Binding>, ConfigError>)
        ensures
            match bindings_of(self@.attrs, self@.items, block_at as int) {
                Ok(bindings) => bound is Ok && views(bound->Ok_0@) == bindings,
                Err(fault) => bound == Err::<Vec<Binding>, ConfigError>(fault),
            },
    {
        let mut bindings: Vec<Binding> = Vec::new();
        let mut at: usize = 0;
        assert(self@.items.take(0) =~= Seq::empty());
        assert(views(bindings@) =~= Seq::empty());
        while at < self.items.len()
            invariant
                at <= self.items.len(),
                bindings_of(self@.attrs, self@.items.take(at as int), block_at as int) == Ok::<
                    Seq<BindingView>,
                    ConfigError,
                >(views(bindings@)),
            decreases self.items.len() - at,
        {
            proof {
                let next = self@.items.take(at as int + 1);
                assert(next.drop_last() =~= self@.items.take(at as int));
                assert(next.last() == self.items@[at as int]@);
                lemma_block_fault_is_kept(self@.attrs, self@.items, block_at as int, at as int + 1);
            }
            match &self.items[at] {
                ForeignItem::Function(function) => {
                    match function.bind(&self.attrs) {
                        Some(binding) => {
                            proof {
                                lemma_views_push(bindings@, binding);
                            }
                            bindings.push(binding);
                        },
                        None => {
                            return Err(ConfigError::UntypedParameter(block_at, at));
                        },
                    }
                },
                ForeignItem::Other => {
                    return Err(ConfigError::UnsupportedItem(block_at, at));
                },
            }
            at += 1;
        }
        assert(self@.items.take(at as int) =~= self@.items);
        Ok(bindings)
    }
}

/// The position of the first function that call sites know under this name.
pub open spec fn function_at(bindings: Seq<BindingView>, name: Seq<char>) -> Option<int>
    decreases bindings.len(),
{
    if bindings.len() == 0 {
        None
    } else if bindings.last().exported == name && function_at(bindings.drop_last(), name)
        is None {
        Some(bindings.len() - 1)
    } else {
        function_at(bindings.drop_last(), name)
    }
}

/// The position that is found holds a function of the name that was sought,
/// and no function before it does; where none is found, no function has it.
pub proof fn lemma_function_at(bindings: Seq<BindingView>, name: Seq<char>)
    ensures
        match function_at(bindings, name) {
            Some(at) => 0 <= at < bindings.len() && bindings[at].exported == name && forall|
                before: int,
            |
                0 <= before < at ==> (#[trigger] bindings[before]).exported != name,
            None => forall|at: int|
                0 <= at < bindings.len() ==> (#[trigger] bindings[at]).exported != name,
        },
    decreases bindings.len(),
{
    if bindings.len() > 0 {
        let front = bindings.drop_last();
        lemma_function_at(front, name);
        match function_at(front, name) {
            Some(at) => {
                assert(front[at] == bindings[at]);
                assert forall|before: int| 0 <= before < at implies (
                #[trigger] bindings[before]).exported != name by {
                    assert(front[before] == bindings[before]);
                }
            },
            None => {
                assert forall|at: int| 0 <= at < front.len() implies (
                #[trigger] bindings[at]).exported != name by {
                    assert(front[at] == bindings[at]);
                }
            },
        }
    }
}

impl BindingGroup {
    /// Finds the function that call sites know under this name.
    pub fn find(&self, name: &str) -> (found: Option<usize>)
        ensures
            match found {
                Some(at) => function_at(self@.bindings, name@) == Some(at as int),
                None => function_at(self@.bindings, name@) is None,
            },
    {
        let mut at: usize = 0;
        assert(self@.bindings.take(0) =~= Seq::empty());
        while at < self.bindings.len()
            invariant
                at <= self.bindings.len(),
                function_at(self@.bindings.take(at as int), name@) is None,
            decreases self.bindings.len() - at,
        {
            proof {
                let next = self@.bindings.take(at as int + 1);
                assert(next.drop_last() =~= self@.bindings.take(at as int));
                assert(next.last() == self.bindings@[at as int]@);
            }
            if is_word(&self.bindings[at].exported, name) {
                proof {
                    lemma_function_is_kept(self@.bindings, name@, at as int + 1);
                }
                return Some(at);
            }
            at += 1;
        }
        assert(self@.bindings.take(at as int) =~= self@.bindings);
        None
    }
}

/// A function found among the first is the function found among all.
pub proof fn lemma_function_is_kept(bindings: Seq<BindingView>, name: Seq<char>, upto: int)
    requires
        0 <= upto <= bindings.len(),
    ensures
        function_at(bindings.take(upto), name) is Some ==> function_at(bindings, name)
            == function_at(bindings.take(upto), name),
    decreases bindings.len() - upto,
{
    if upto < bindings.len() {
        lemma_function_is_kept(bindings, name, upto + 1);
        assert(bindings.take(upto + 1).drop_last() =~= bindings.take(upto));
    } else {
        assert(bindings.take(upto) =~= bindings);
    }
}

/// The position of the first group with this identity.
pub open spec fn position_of(groups: Seq<GroupView>, identity: IdentityView) -> Option<int>
    decreases groups.len(),
{
    if groups.len() == 0 {
        None
    } else if groups.last().identity == identity && position_of(groups.drop_last(), identity)
        is None {
        Some(groups.len() - 1)
    } else {
        position_of(groups.drop_last(), identity)
    }
}

/// The position that is found holds a group with the identity that was sought,
/// and no group before it does; where none is found, no group has it.
pub proof fn lemma_position_of(groups: Seq<GroupView>, identity: IdentityView)
    ensures
        match position_of(groups, identity) {
            Some(at) => 0 <= at < groups.len() && groups[at].identity == identity && forall|
                before: int,
            |
                0 <= before < at ==> (#[trigger] groups[before]).identity != identity,
            None => forall|at: int|
                0 <= at < groups.len() ==> (#[trigger] groups[at]).identity != identity,
        },
    decreases groups.len(),
{
    if groups.len() > 0 {
        let front = groups.drop_last();
        lemma_position_of(front, identity);
        match position_of(front, identity) {
            Some(at) => {
                assert(front[at] == groups[at]);
                assert forall|before: int| 0 <= before < at implies (
                #[trigger] groups[before]).identity != identity by {
                    assert(front[before] == groups[before]);
                }
            },
            None => {
                assert forall|at: int| 0 <= at < front.len() implies (
                #[trigger] groups[at]).identity != identity by {
                    assert(front[at] == groups[at]);
                }
            },
        }
    }
}

/// The groups after the bindings of one block are added: they join the group
/// of their identity where there is one, and else form a new group behind the
/// others. A block without functions changes nothing.
pub open spec fn add_bindings(
    groups: Seq<GroupView>,
    identity: IdentityView,
    bindings: Seq<BindingView>,
) -> Seq<GroupView> {
    if bindings.len() == 0 {
        groups
    } else {
        match position_of(groups, identity) {
            Some(at) => groups.update(
                at,
                GroupView { bindings: groups[at].bindings + bindings, ..groups[at] },
            ),
            None => groups.push(
                GroupView {
                    key: group_key_of(groups.len() as usize, identity),
                    identity,
                    bindings,
                },
            ),
        }
    }
}

/// Finds the group with the given identity.
pub fn find_group(groups: &Vec<BindingGroup>, identity: &LibraryIdentity) -> (found: Option<
    usize,
>)
    ensures
        match found {
            Some(at) => position_of(views(groups@), identity@) == Some(at as int),
            None => position_of(views(groups@), identity@) is None,
        },
{
    let mut at: usize = 0;
    assert(views(groups@).take(0) =~= Seq::empty());
    while at < groups.len()
        invariant
            at <= groups.len(),
            position_of(views(groups@).take(at as int), identity@) is None,
        decreases groups.len() - at,
    {
        proof {
            let next = views(groups@).take(at as int + 1);
            assert(next.drop_last() =~= views(groups@).take(at as int));
            assert(next.last() == groups@[at as int]@);
        }
        if groups[at].identity.same_as(identity) {
            proof {
                lemma_position_is_kept(views(groups@), identity@, at as int + 1);
            }
            return Some(at);
        }
        at += 1;
    }
    assert(views(groups@).take(at as int) =~= views(groups@));
    None
}

/// A position found among the first groups is the position among all.
pub proof fn lemma_position_is_kept(groups: Seq<GroupView>, identity: IdentityView, upto: int)
    requires
        0 <= upto <= groups.len(),
    ensures
        position_of(groups.take(upto), identity) is Some ==> position_of(groups, identity)
            == position_of(groups.take(upto), identity),
    decreases groups.len() - upto,
{
    if upto < groups.len() {
        lemma_position_is_kept(groups, identity, upto + 1);
        assert(groups.take(upto + 1).drop_last() =~= groups.take(upto));
    } else {
        assert(groups.take(upto) =~= groups);
    }
}

} // verus!
