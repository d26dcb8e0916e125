//! From an annotated item and its options to what has to be done with it.

use vstd::prelude::*;
use crate::attribute::views;
use crate::config::{parsed_config, ConfigView, GroupConfig, SourceRef, SourceView};
use crate::syntax::{Token, TokenView};
use crate::declare::{declarations_of, declare, Declarations, DeclarationsView, Item, ItemView};
use crate::error::ConfigError;
use crate::attribute::link_name_of;
use crate::group::{BlockView, ForeignBlock};

verus! {

/// The item that the options are written on.
#[derive(Debug, PartialEq, Eq)]
pub enum Target {
    /// A module, with the items of its body where it has one.
    Module(Option<Vec<Item>>),
    /// A bare block of foreign declarations.
    Foreign(ForeignBlock),
    /// Anything else.
    Other,
}

/// Mathematical model of a [`Target`].
pub enum TargetView {
    Module(Option<Seq<ItemView>>),
    Foreign(BlockView),
    Other,
}

impl View for Target {
    type V = TargetView;

    open spec fn view(&self) -> TargetView {
        match self {
            Target::Module(body) => TargetView::Module(
                match body {
                    Some(items) => Some(views(items@)),
                    None => None,
                },
            ),
            Target::Foreign(block) => TargetView::Foreign(block@),
            Target::Other => TargetView::Other,
        }
    }
}

/// What has to be done with an annotated item.
#[derive(Debug, PartialEq, Eq)]
pub enum Expansion {
    /// The declarations are read: these are the groups to bind.
    Declared(Declarations),
    /// The body of the module stands in this file. It has to be read and then
    /// declared under the same identity.
    NeedsSource(SourceRef),
    /// The module has no body here and names no file: it stays as it is.
    Unchanged,
}

/// Mathematical model of an [`Expansion`].
pub enum ExpansionView {
    Declared(DeclarationsView),
    NeedsSource(SourceView),
    Unchanged,
}

impl View for Expansion {
    type V = ExpansionView;

    open spec fn view(&self) -> ExpansionView {
        match self {
            Expansion::Declared(declarations) => ExpansionView::Declared(declarations@),
            Expansion::NeedsSource(source) => ExpansionView::NeedsSource(source@),
            Expansion::Unchanged => ExpansionView::Unchanged,
        }
    }
}

/// What has to be done with an annotated item under its options.
///
/// A bare foreign block cannot take its declarations from a file. A module
/// takes them from a file or from its own body, not from both: a file
/// reference beside a body that holds anything is a fault.
pub open spec fn expansion_of(config: ConfigView, target: TargetView) -> Result<
    ExpansionView,
    ConfigError,
> {
    match target {
        TargetView::Other => Err(ConfigError::UnsupportedTarget),
        TargetView::Foreign(block) => {
            if config.source is Some {
                Err(ConfigError::SourceOnForeignBlock)
            } else {
                match declarations_of(config.identity, seq![ItemView::Foreign(block)]) {
                    Ok(declarations) => Ok(ExpansionView::Declared(declarations)),
                    Err(fault) => Err(fault),
                }
            }
        },
        TargetView::Module(body) => match (config.source, body) {
            (Some(source), Some(items)) => {
                if items.len() > 0 {
                    Err(ConfigError::SourceWithBody)
                } else {
                    Ok(ExpansionView::NeedsSource(source))
                }
            },
            (Some(source), None) => Ok(ExpansionView::NeedsSource(source)),
            (None, Some(items)) => match declarations_of(config.identity, items) {
                Ok(declarations) => Ok(ExpansionView::Declared(declarations)),
                Err(fault) => Err(fault),
            },
            (None, None) => Ok(ExpansionView::Unchanged),
        },
    }
}

/// Decides what has to be done with an annotated item under its options, and
/// reads its declarations where they are at hand.
pub fn expand(config: &GroupConfig, target: Target) -> (expanded: Result<Expansion, ConfigError>)
    ensures
        match expansion_of(config@, target@) {
            Ok(expansion) => expanded is Ok && expanded->Ok_0@ == expansion,
            Err(fault) => expanded == Err::<Expansion, ConfigError>(fault),
        },
{
    match target {
        Target::Other => Err(ConfigError::UnsupportedTarget),
        Target::Foreign(block) => {
            if config.source.is_some() {
                return Err(ConfigError::SourceOnForeignBlock);
            }
            let ghost model = block@;
            let mut items: Vec<Item> = Vec::new();
            items.push(Item::Foreign(block));
            assert(views(items@) =~= seq![ItemView::Foreign(model)]);
            match declare(&config.identity, &items) {
                Ok(declarations) => Ok(Expansion::Declared(declarations)),
                Err(fault) => Err(fault),
            }
        },
        Target::Module(body) => match (&config.source, body) {
            (Some(source), Some(items)) => {
                if items.len() > 0 {
                    Err(ConfigError::SourceWithBody)
                } else {
                    Ok(Expansion::NeedsSource(source.clone()))
                }
            },
            (Some(source), None) => Ok(Expansion::NeedsSource(source.clone())),
            (None, Some(items)) => match declare(&config.identity, &items) {
                Ok(declarations) => Ok(Expansion::Declared(declarations)),
                Err(fault) => Err(fault),
            },
            (None, None) => Ok(Expansion::Unchanged),
        },
    }
}

/// What comes of an annotated item and the options written on it: the
/// options are read first, and a fault in them ends the work.
pub open spec fn lazylink_of(options: Seq<TokenView>, target: TargetView) -> Result<
    ExpansionView,
    ConfigError,
> {
    match parsed_config(options) {
        Ok(config) => expansion_of(config, target),
        Err(fault) => Err(fault),
    }
}

/// Reads the options written on an item and decides what has to be done with
/// the item under them.
pub fn lazylink(options: &Vec<Token>, target: Target) -> (expanded: Result<
    Expansion,
    ConfigError,
>)
    ensures
        match lazylink_of(views(options@), target@) {
            Ok(expansion) => expanded is Ok && expanded->Ok_0@ == expansion,
            Err(fault) => expanded == Err::<Expansion, ConfigError>(fault),
        },
{
    match GroupConfig::parse(options) {
        Ok(config) => expand(&config, target),
        Err(fault) => Err(fault),
    }
}

/// A file reference together with a body that holds anything is rejected,
/// whatever else the options and the body say, and no declarations come of it.
pub proof fn lemma_source_excludes_body(config: ConfigView, items: Seq<ItemView>)
    requires
        config.source is Some,
        items.len() > 0,
    ensures
        expansion_of(config, TargetView::Module(Some(items))) == Err::<
            ExpansionView,
            ConfigError,
        >(ConfigError::SourceWithBody),
{
}

/// A file reference on a bare foreign block is rejected, and no declarations
/// come of it.
pub proof fn lemma_source_excludes_block(config: ConfigView, block: BlockView)
    requires
        config.source is Some,
    ensures
        expansion_of(config, TargetView::Foreign(block)) == Err::<ExpansionView, ConfigError>(
            ConfigError::SourceOnForeignBlock,
        ),
{
}

/// Without an option that names the library and without a link hint, a block
/// is rejected before anything is bound.
pub proof fn lemma_unidentified_block_is_rejected(config: ConfigView, block: BlockView)
    requires
        config.identity is Unresolved,
        config.source is None,
        link_name_of(block.attrs) is None,
    ensures
        expansion_of(config, TargetView::Foreign(block)) == Err::<ExpansionView, ConfigError>(
            ConfigError::UnidentifiedBlock(0),
        ),
{
    let items = seq![ItemView::Foreign(block)];
    assert(items.drop_last() =~= Seq::<ItemView>::empty());
    assert(items.last() == ItemView::Foreign(block));
    assert(declarations_of(config.identity, items.drop_last()) is Ok);
}

} // verus!
