//! The cache of a binding group and the steps that fill it.
//!
//! The cache decides; its driver acts. A call into the group asks the cache
//! what to do, the driver opens the library or looks a symbol up as it is
//! told, and hands the outcome back as an event. The library is opened once,
//! each symbol is resolved once, and a group is usable as a whole or not at
//! all.

use vstd::prelude::*;
use crate::error::ConfigError;
use crate::group::{BindingGroup, GroupView};
use crate::identity::loader_name_of;

verus! {

/// Why a call into a group cannot be made.
#[derive(Debug, PartialEq, Eq)]
pub enum BindError {
    /// The declarations are at fault.
    Config(ConfigError),
    /// The library could not be opened; the text is the loader's.
    Load(String),
    /// The symbol of the function at this position could not be resolved; the
    /// text is the loader's.
    Symbol(usize, String),
    /// The group has no function at this position.
    UnknownFunction(usize),
}

/// Mathematical model of a [`BindError`].
pub enum BindErrorView {
    Config(ConfigError),
    Load(Seq<char>),
    Symbol(usize, Seq<char>),
    UnknownFunction(usize),
}

impl View for BindError {
    type V = BindErrorView;

    open spec fn view(&self) -> BindErrorView {
        match self {
            BindError::Config(fault) => BindErrorView::Config(*fault),
            BindError::Load(text) => BindErrorView::Load(text@),
            BindError::Symbol(at, text) => BindErrorView::Symbol(*at, text@),
            BindError::UnknownFunction(at) => BindErrorView::UnknownFunction(*at),
        }
    }
}

impl Clone for BindError {
    fn clone(&self) -> (copy: Self)
        ensures
            copy@ == self@,
    {
        match self {
            BindError::Config(fault) => BindError::Config(*fault),
            BindError::Load(text) => BindError::Load(text.clone()),
            BindError::Symbol(at, text) => BindError::Symbol(*at, text.clone()),
            BindError::UnknownFunction(at) => BindError::UnknownFunction(*at),
        }
    }
}

/// What the driver reports back to the cache.
#[derive(Debug, PartialEq, Eq)]
pub enum Event {
    /// The library is open.
    Opened,
    /// The library could not be opened.
    OpenFailed(String),
    /// The symbol asked for is at this address.
    Resolved(usize),
    /// The symbol asked for could not be resolved.
    ResolveFailed(String),
}

/// Mathematical model of an [`Event`].
pub enum EventView {
    Opened,
    OpenFailed(Seq<char>),
    Resolved(usize),
    ResolveFailed(Seq<char>),
}

impl View for Event {
    type V = EventView;

    open spec fn view(&self) -> EventView {
        match self {
            Event::Opened => EventView::Opened,
            Event::OpenFailed(text) => EventView::OpenFailed(text@),
            Event::Resolved(address) => EventView::Resolved(*address),
            Event::ResolveFailed(text) => EventView::ResolveFailed(text@),
        }
    }
}

/// What the cache tells its driver to do.
#[derive(Debug, PartialEq, Eq)]
pub enum Command {
    /// Open the library under this name and report the outcome.
    Open(String),
    /// Resolve this symbol in the open library and report the outcome.
    Resolve(Vec<u8>),
    /// Call through this address.
    Invoke(usize),
    /// Another call is initialising the group: wait until it has ended.
    Wait,
    /// The call cannot be made.
    Reject(BindError),
    /// The event was not awaited; nothing has changed.
    Nothing,
}

/// Mathematical model of a [`Command`].
pub enum CommandView {
    Open(Seq<char>),
    Resolve(Seq<u8>),
    Invoke(usize),
    Wait,
    Reject(BindErrorView),
    Nothing,
}

impl View for Command {
    type V = CommandView;

    open spec fn view(&self) -> CommandView {
        match self {
            Command::Open(name) => CommandView::Open(name@),
            Command::Resolve(symbol) => CommandView::Resolve(symbol@),
            Command::Invoke(address) => CommandView::Invoke(*address),
            Command::Wait => CommandView::Wait,
            Command::Reject(error) => CommandView::Reject(error@),
            Command::Nothing => CommandView::Nothing,
        }
    }
}

/// Where a cache stands in its life.
#[derive(Debug)]
enum Stage {
    Uninitialized,
    Opening(usize),
    Resolving(usize, Vec<usize>),
    Ready(Vec<usize>),
    Failed(BindError),
}

/// Mathematical model of the life of a cache.
pub enum StageView {
    /// No call has been made yet.
    Uninitialized,
    /// The library is being opened, on behalf of the call to the function at
    /// this position.
    Opening(usize),
    /// Symbols are being resolved, on behalf of the call to the function at
    /// this position; these addresses are known so far.
    Resolving(usize, Seq<usize>),
    /// Every function has its address.
    Ready(Seq<usize>),
    /// The group cannot be used.
    Failed(BindErrorView),
}

impl View for Stage {
    type V = StageView;

    closed spec fn view(&self) -> StageView {
        match self {
            Stage::Uninitialized => StageView::Uninitialized,
            Stage::Opening(pending) => StageView::Opening(*pending),
            Stage::Resolving(pending, addresses) => StageView::Resolving(*pending, addresses@),
            Stage::Ready(addresses) => StageView::Ready(addresses@),
            Stage::Failed(error) => StageView::Failed(error@),
        }
    }
}

/// The cache of one binding group.
#[derive(Debug)]
pub struct BindingCache {
    group: BindingGroup,
    stage: Stage,
}

/// Mathematical model of a [`BindingCache`].
pub struct CacheView {
    pub group: GroupView,
    pub stage: StageView,
}

/// Whether a cache is consistent: while symbols are resolved some are still
/// missing, a ready cache holds an address for every function, and the call
/// that started the initialisation is to a function of the group.
pub open spec fn well_formed(cache: CacheView) -> bool {
    match cache.stage {
        StageView::Uninitialized => true,
        StageView::Opening(pending) => pending < cache.group.bindings.len(),
        StageView::Resolving(pending, addresses) => pending < cache.group.bindings.len()
            && addresses.len() < cache.group.bindings.len(),
        StageView::Ready(addresses) => addresses.len() == cache.group.bindings.len(),
        StageView::Failed(_) => true,
    }
}

/// The cache after a failure, and the rejection that reports it.
pub open spec fn fail_with(cache: CacheView, error: BindErrorView) -> (CacheView, CommandView) {
    (CacheView { stage: StageView::Failed(error), ..cache }, CommandView::Reject(error))
}

/// What a call to the function at position `index` does to a cache, and what
/// the driver is told.
pub open spec fn call_step(cache: CacheView, index: usize) -> (CacheView, CommandView) {
    if index >= cache.group.bindings.len() {
        (cache, CommandView::Reject(BindErrorView::UnknownFunction(index)))
    } else {
        match cache.stage {
            StageView::Uninitialized => match loader_name_of(cache.group.identity) {
                Some(name) => (
                    CacheView { stage: StageView::Opening(index), ..cache },
                    CommandView::Open(name),
                ),
                None => fail_with(cache, BindErrorView::Config(ConfigError::MissingIdentity)),
            },
            StageView::Opening(_) => (cache, CommandView::Wait),
            StageView::Resolving(_, _) => (cache, CommandView::Wait),
            StageView::Ready(addresses) => (cache, CommandView::Invoke(addresses[index as int])),
            StageView::Failed(error) => (cache, CommandView::Reject(error)),
        }
    }
}

/// What an event does to a cache, and what the driver is told next.
pub open spec fn event_step(cache: CacheView, event: EventView) -> (CacheView, CommandView) {
    match (cache.stage, event) {
        (StageView::Opening(pending), EventView::Opened) => (
            CacheView { stage: StageView::Resolving(pending, Seq::empty()), ..cache },
            CommandView::Resolve(cache.group.bindings[0].symbol),
        ),
        (StageView::Opening(_), EventView::OpenFailed(text)) => fail_with(
            cache,
            BindErrorView::Load(text),
        ),
        (StageView::Resolving(pending, addresses), EventView::Resolved(address)) => {
            let known = addresses.push(address);
            if known.len() == cache.group.bindings.len() {
                (
                    CacheView { stage: StageView::Ready(known), ..cache },
                    CommandView::Invoke(known[pending as int]),
                )
            } else {
                (
                    CacheView { stage: StageView::Resolving(pending, known), ..cache },
                    CommandView::Resolve(cache.group.bindings[known.len() as int].symbol),
                )
            }
        },
        (StageView::Resolving(_, addresses), EventView::ResolveFailed(text)) => fail_with(
            cache,
            BindErrorView::Symbol(addresses.len() as usize, text),
        ),
        _ => (cache, CommandView::Nothing),
    }
}

impl View for BindingCache {
    type V = CacheView;

    closed spec fn view(&self) -> CacheView {
        CacheView { group: self.group@, stage: self.stage@ }
    }
}

impl BindingCache {
    #[verifier::type_invariant]
    spec fn consistent(self) -> bool {
        well_formed(self@)
    }

    /// A cache for a group, before any call.
    pub fn new(group: BindingGroup) -> (cache: BindingCache)
        ensures
            cache@ == (CacheView { group: group@, stage: StageView::Uninitialized }),
            well_formed(cache@),
    {
        BindingCache { group, stage: Stage::Uninitialized }
    }

    /// The group that the cache belongs to.
    pub fn group(&self) -> (group: &BindingGroup)
        ensures
            group@ == self@.group,
    {
        &self.group
    }

    /// Whether every function of the group has its address.
    pub fn is_ready(&self) -> (ready: bool)
        ensures
            ready == (self@.stage is Ready),
    {
        match &self.stage {
            Stage::Ready(_) => true,
            _ => false,
        }
    }

    /// Whether the group has failed for good.
    pub fn has_failed(&self) -> (failed: bool)
        ensures
            failed == (self@.stage is Failed),
    {
        match &self.stage {
            Stage::Failed(_) => true,
            _ => false,
        }
    }

    /// Why the group has failed, where it has.
    pub fn failure(&self) -> (failure: Option<BindError>)
        ensures
            match self@.stage {
                StageView::Failed(error) => failure is Some && failure->0@ == error,
                _ => failure is None,
            },
    {
        match &self.stage {
            Stage::Failed(error) => Some(error.clone()),
            _ => None,
        }
    }

    /// The address of the function at position `index`, once the group is
    /// ready.
    pub fn address_of(&self, index: usize) -> (address: Option<usize>)
        ensures
            address == match self@.stage {
                StageView::Ready(addresses) => if index < addresses.len() {
                    Some(addresses[index as int])
                } else {
                    None
                },
                _ => None,
            },
    {
        match &self.stage {
            Stage::Ready(addresses) => if index < addresses.len() {
                Some(addresses[index])
            } else {
                None
            },
            _ => None,
        }
    }

    /// Takes a call to the function at position `index`. The first call starts
    /// the initialisation; a call to a ready group is told the address; a call
    /// to a failed group is told the failure, the same for every function.
    pub fn call(&mut self, index: usize) -> (command: Command)
        ensures
            (final(self)@, command@) == call_step(old(self)@, index),
            well_formed(final(self)@),
    {
        proof {
            use_type_invariant(&*self);
        }
        if index >= self.group.bindings.len() {
            return Command::Reject(BindError::UnknownFunction(index));
        }
        match &self.stage {
            Stage::Uninitialized => match self.group.identity.loader_name() {
                Ok(name) => {
                    self.stage = Stage::Opening(index);
                    Command::Open(name)
                },
                Err(fault) => {
                    self.stage = Stage::Failed(BindError::Config(fault));
                    Command::Reject(BindError::Config(fault))
                },
            },
            Stage::Opening(_) => Command::Wait,
            Stage::Resolving(_, _) => Command::Wait,
            Stage::Ready(addresses) => Command::Invoke(addresses[index]),
            Stage::Failed(error) => Command::Reject(error.clone()),
        }
    }

    /// Takes the outcome of what the driver was told to do. An event that was
    /// not awaited changes nothing.
    pub fn deliver(&mut self, event: Event) -> (command: Command)
        ensures
            (final(self)@, command@) == event_step(old(self)@, event@),
            well_formed(final(self)@),
    {
        proof {
            use_type_invariant(&*self);
        }
        let mut stage = Stage::Uninitialized;
        std::mem::swap(&mut self.stage, &mut stage);
        match (stage, event) {
            (Stage::Opening(pending), Event::Opened) => {
                self.stage = Stage::Resolving(pending, Vec::new());
                Command::Resolve(self.group.bindings[0].symbol.clone())
            },
            (Stage::Opening(_), Event::OpenFailed(text)) => {
                self.stage = Stage::Failed(BindError::Load(text.clone()));
                Command::Reject(BindError::Load(text))
            },
            (Stage::Resolving(pending, mut addresses), Event::Resolved(address)) => {
                addresses.push(address);
                if addresses.len() == self.group.bindings.len() {
                    let target = addresses[pending];
                    self.stage = Stage::Ready(addresses);
                    Command::Invoke(target)
                } else {
                    let symbol = self.group.bindings[addresses.len()].symbol.clone();
                    self.stage = Stage::Resolving(pending, addresses);
                    Command::Resolve(symbol)
                }
            },
            (Stage::Resolving(_, addresses), Event::ResolveFailed(text)) => {
                let at = addresses.len();
                self.stage = Stage::Failed(BindError::Symbol(at, text.clone()));
                Command::Reject(BindError::Symbol(at, text))
            },
            (stage, _) => {
                self.stage = stage;
                Command::Nothing
            },
        }
    }
}

} // verus!
