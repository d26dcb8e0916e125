//! From the items of a module to its binding groups.

use vstd::prelude::*;
use crate::attribute::{lemma_views_concat, lemma_views_push, link_name_of, views};
use crate::decl::{Binding, BindingView};
use crate::error::ConfigError;
use crate::group::{
    add_bindings, bindings_of, effective_identity, find_group, lemma_position_of, position_of,
    resolve_identity, BindingGroup, BlockView, ForeignBlock, GroupView,
};
use crate::identity::{IdentityView, LibraryIdentity};
use crate::key::{group_key, group_key_of};

verus! {

/// An item of a module.
#[derive(Debug, PartialEq, Eq)]
pub enum Item {
    /// A block of foreign declarations.
    Foreign(ForeignBlock),
    /// Any other item, carried through as it was written.
    Other(String),
}

/// Mathematical model of an [`Item`].
pub enum ItemView {
    Foreign(BlockView),
    Other(Seq<char>),
}

impl View for Item {
    type V = ItemView;

    open spec fn view(&self) -> ItemView {
        match self {
            Item::Foreign(block) => ItemView::Foreign(block@),
            Item::Other(text) => ItemView::Other(text@),
        }
    }
}

/// What a list of items declares: the binding groups, and the items that are
/// not foreign blocks.
#[derive(Debug, PartialEq, Eq)]
pub struct Declarations {
    /// The items that are carried through, in order.
    pub rest: Vec<String>,
    /// The binding groups, in the order in which their identities first occur.
    pub groups: Vec<BindingGroup>,
}

/// Mathematical model of [`Declarations`].
pub struct DeclarationsView {
    pub rest: Seq<Seq<char>>,
    pub groups: Seq<GroupView>,
}

impl View for Declarations {
    type V = DeclarationsView;

    open spec fn view(&self) -> DeclarationsView {
        DeclarationsView { rest: views(self.rest@), groups: views(self.groups@) }
    }
}

/// The identity of a block under an option: the option where it names a
/// library, else the link hint of the block.
pub open spec fn block_identity(explicit: IdentityView, block: BlockView) -> IdentityView {
    effective_identity(explicit, link_name_of(block.attrs))
}

/// The declarations after the item at position `at` is read, or the fault that
/// the item holds. A block without identity is a fault before its entries are
/// looked at.
pub open spec fn declare_item(
    state: DeclarationsView,
    explicit: IdentityView,
    at: int,
    item: ItemView,
) -> Result<DeclarationsView, ConfigError> {
    match item {
        ItemView::Other(text) => Ok(DeclarationsView { rest: state.rest.push(text), ..state }),
        ItemView::Foreign(block) => {
            if block_identity(explicit, block) is Unresolved {
                Err(ConfigError::UnidentifiedBlock(at as usize))
            } else {
                match bindings_of(block.attrs, block.items, at) {
                    Ok(bindings) => Ok(
                        DeclarationsView {
                            groups: add_bindings(
                                state.groups,
                                block_identity(explicit, block),
                                bindings,
                            ),
                            ..state
                        },
                    ),
                    Err(fault) => Err(fault),
                }
            }
        },
    }
}

/// What a list of items declares under an option, read from the front; the
/// first fault ends the reading.
pub open spec fn declarations_of(explicit: IdentityView, items: Seq<ItemView>) -> Result<
    DeclarationsView,
    ConfigError,
>
    decreases items.len(),
{
    if items.len() == 0 {
        Ok(DeclarationsView { rest: Seq::empty(), groups: Seq::empty() })
    } else {
        match declarations_of(explicit, items.drop_last()) {
            Ok(state) => declare_item(state, explicit, items.len() - 1, items.last()),
            Err(fault) => Err(fault),
        }
    }
}

/// A fault among the first items is the fault of the whole list.
pub proof fn lemma_item_fault_is_kept(explicit: IdentityView, items: Seq<ItemView>, upto: int)
    requires
        0 <= upto <= items.len(),
    ensures
        declarations_of(explicit, items.take(upto)) matches Err(fault) ==> declarations_of(
            explicit,
            items,
        ) == Err::<DeclarationsView, ConfigError>(fault),
    decreases items.len() - upto,
{
    if upto < items.len() {
        lemma_item_fault_is_kept(explicit, items, upto + 1);
        assert(items.take(upto + 1).drop_last() =~= items.take(upto));
    } else {
        assert(items.take(upto) =~= items);
    }
}

/// Adds the bindings of one block to the groups.
pub fn add_to_groups(
    groups: &mut Vec<BindingGroup>,
    identity: LibraryIdentity,
    bindings: Vec<Binding>,
)
    ensures
        views(final(groups)@) == add_bindings(views(old(groups)@), identity@, views(bindings@)),
{
    if bindings.len() == 0 {
        return ;
    }
    match find_group(groups, &identity) {
        Some(at) => {
            proof {
                lemma_position_of(views(groups@), identity@);
            }
            let mut group = groups.remove(at);
            let mut added = bindings;
            proof {
                lemma_views_concat(group.bindings@, added@);
            }
            group.bindings.append(&mut added);
            groups.insert(at, group);
            assert(views(groups@) =~= add_bindings(
                views(old(groups)@),
                identity@,
                views(bindings@),
            ));
        },
        None => {
            let key = group_key(groups.len(), &identity);
            let group = BindingGroup { key, identity, bindings };
            proof {
                lemma_views_push(groups@, group);
            }
            groups.push(group);
        },
    }
}

/// Reads the items of a module under the identity that its options give.
/// Functions of blocks with the same identity come together in one group;
/// other items are carried through.
pub fn declare(explicit: &LibraryIdentity, items: &Vec<Item>) -> (declared: Result<
    Declarations,
    ConfigError,
>)
    ensures
        match declarations_of(explicit@, views(items@)) {
            Ok(state) => declared is Ok && declared->Ok_0@ == state,
            Err(fault) => declared == Err::<Declarations, ConfigError>(fault),
        },
{
    let mut rest: Vec<String> = Vec::new();
    let mut groups: Vec<BindingGroup> = Vec::new();
    let mut at: usize = 0;
    assert(views(items@).take(0) =~= Seq::empty());
    assert(views(rest@) =~= Seq::empty());
    assert(views(groups@) =~= Seq::empty());
    while at < items.len()
        invariant
            at <= items.len(),
            declarations_of(explicit@, views(items@).take(at as int)) == Ok::<
                DeclarationsView,
                ConfigError,
            >(DeclarationsView { rest: views(rest@), groups: views(groups@) }),
        decreases items.len() - at,
    {
        proof {
            let next = views(items@).take(at as int + 1);
            assert(next.drop_last() =~= views(items@).take(at as int));
            assert(next.last() == items@[at as int]@);
            lemma_item_fault_is_kept(explicit@, views(items@), at as int + 1);
        }
        match &items[at] {
            Item::Other(text) => {
                let copy = text.clone();
                proof {
                    lemma_views_push(rest@, copy);
                }
                rest.push(copy);
            },
            Item::Foreign(block) => {
                let identity = resolve_identity(explicit, block.link_hint());
                if !identity.is_resolved() {
                    return Err(ConfigError::UnidentifiedBlock(at));
                }
                match block.bindings(at) {
                    Ok(bindings) => {
                        add_to_groups(&mut groups, identity, bindings);
                    },
                    Err(fault) => {
                        return Err(fault);
                    },
                }
            },
        }
        at += 1;
    }
    assert(views(items@).take(at as int) =~= views(items@));
    Ok(Declarations { rest, groups })
}

/// Whether groups are as this library makes them: no two have the same
/// identity, none is without identity or without functions, and the key of
/// each is made from its position and its identity.
pub open spec fn well_grouped(groups: Seq<GroupView>) -> bool {
    &&& forall|first: int, second: int|
        0 <= first < second < groups.len() ==> (#[trigger] groups[first]).identity != (
        #[trigger] groups[second]).identity
    &&& forall|at: int|
        0 <= at < groups.len() ==> {
            &&& (#[trigger] groups[at]).bindings.len() > 0
            &&& !(groups[at].identity is Unresolved)
            &&& groups[at].key == group_key_of(at as usize, groups[at].identity)
        }
}

/// The bindings that the groups hold for an identity.
pub open spec fn bindings_in(groups: Seq<GroupView>, identity: IdentityView) -> Seq<BindingView> {
    match position_of(groups, identity) {
        Some(at) => groups[at].bindings,
        None => Seq::empty(),
    }
}

/// The bindings of all blocks with the given identity, in the order of the
/// blocks.
pub open spec fn bindings_for(explicit: IdentityView, items: Seq<ItemView>, identity: IdentityView)
    -> Seq<BindingView>
    decreases items.len(),
{
    if items.len() == 0 {
        Seq::empty()
    } else {
        let front = bindings_for(explicit, items.drop_last(), identity);
        match items.last() {
            ItemView::Foreign(block) if block_identity(explicit, block) == identity => {
                match bindings_of(block.attrs, block.items, items.len() - 1) {
                    Ok(bindings) => front + bindings,
                    Err(_) => front,
                }
            },
            _ => front,
        }
    }
}

/// The texts of the items that are not foreign blocks, in order.
pub open spec fn others_of(items: Seq<ItemView>) -> Seq<Seq<char>>
    decreases items.len(),
{
    if items.len() == 0 {
        Seq::empty()
    } else {
        match items.last() {
            ItemView::Other(text) => others_of(items.drop_last()).push(text),
            ItemView::Foreign(_) => others_of(items.drop_last()),
        }
    }
}

/// Where a group is found depends on the identities of the groups alone.
pub proof fn lemma_position_by_identities(
    first: Seq<GroupView>,
    second: Seq<GroupView>,
    identity: IdentityView,
)
    requires
        first.len() == second.len(),
        forall|at: int| 0 <= at < first.len() ==> first[at].identity == second[at].identity,
    ensures
        position_of(first, identity) == position_of(second, identity),
    decreases first.len(),
{
    if first.len() > 0 {
        lemma_position_by_identities(first.drop_last(), second.drop_last(), identity);
    }
}

/// Adding the bindings of a block keeps the groups well made, adds the
/// bindings behind those that the groups hold for the identity of the block,
/// and leaves the bindings of every other identity as they are.
pub proof fn lemma_add_bindings(
    groups: Seq<GroupView>,
    identity: IdentityView,
    bindings: Seq<BindingView>,
)
    requires
        well_grouped(groups),
        !(identity is Unresolved),
    ensures
        well_grouped(add_bindings(groups, identity, bindings)),
        bindings_in(add_bindings(groups, identity, bindings), identity) == bindings_in(
            groups,
            identity,
        ) + bindings,
        forall|other: IdentityView|
            other != identity ==> #[trigger] bindings_in(
                add_bindings(groups, identity, bindings),
                other,
            ) == bindings_in(groups, other),
        add_bindings(groups, identity, bindings).len() <= groups.len() + 1,
{
    let after = add_bindings(groups, identity, bindings);
    lemma_position_of(groups, identity);
    if bindings.len() == 0 {
        assert(bindings_in(groups, identity) + bindings =~= bindings_in(groups, identity));
    } else {
        match position_of(groups, identity) {
            Some(at) => {
                assert forall|other: IdentityView| true implies position_of(after, other)
                    == position_of(groups, other) by {
                    lemma_position_by_identities(after, groups, other);
                }
                assert forall|other: IdentityView| other != identity implies #[trigger] bindings_in(
                    after,
                    other,
                ) == bindings_in(groups, other) by {
                    lemma_position_of(groups, other);
                }
            },
            None => {
                assert(after.drop_last() =~= groups);
                assert forall|other: IdentityView| other != identity implies #[trigger] bindings_in(
                    after,
                    other,
                ) == bindings_in(groups, other) by {
                    lemma_position_of(groups, other);
                }
                assert(bindings_in(groups, identity) + bindings =~= bindings);
            },
        }
    }
}

/// What a list of items declares, where it declares anything: the groups are
/// well made, each identity has in its group the bindings of all its blocks in
/// order, and the other items are carried through in order.
pub proof fn lemma_declarations(explicit: IdentityView, items: Seq<ItemView>)
    ensures
        declarations_of(explicit, items) matches Ok(state) ==> {
            &&& well_grouped(state.groups)
            &&& state.groups.len() <= items.len()
            &&& state.rest == others_of(items)
            &&& forall|identity: IdentityView| #[trigger]
                bindings_in(state.groups, identity) == bindings_for(explicit, items, identity)
        },
    decreases items.len(),
{
    if items.len() > 0 {
        let front = items.drop_last();
        lemma_declarations(explicit, front);
        match declarations_of(explicit, front) {
            Ok(before) => {
                match items.last() {
                    ItemView::Foreign(block) => {
                        let own = block_identity(explicit, block);
                        match bindings_of(block.attrs, block.items, items.len() - 1) {
                            Ok(bindings) => {
                                if !(own is Unresolved) {
                                    lemma_add_bindings(before.groups, own, bindings);
                                    let after = add_bindings(before.groups, own, bindings);
                                    assert forall|identity: IdentityView| #[trigger]
                                        bindings_in(after, identity) == bindings_for(
                                            explicit,
                                            items,
                                            identity,
                                        ) by {
                                        assert(bindings_in(before.groups, identity)
                                            == bindings_for(explicit, front, identity));
                                    }
                                }
                            },
                            Err(_) => {},
                        }
                    },
                    ItemView::Other(_) => {
                        assert forall|identity: IdentityView| #[trigger]
                            bindings_in(before.groups, identity) == bindings_for(
                                explicit,
                                items,
                                identity,
                            ) by {
                            assert(bindings_in(before.groups, identity) == bindings_for(
                                explicit,
                                front,
                                identity,
                            ));
                        }
                    },
                }
            },
            Err(_) => {},
        }
    } else {
        assert forall|identity: IdentityView| #[trigger]
            bindings_in(Seq::<GroupView>::empty(), identity) == bindings_for(
                explicit,
                items,
                identity,
            ) by {}
    }
}

} // verus!
