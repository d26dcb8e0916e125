//! Options of a group of declarations.

use vstd::prelude::*;
use crate::attribute::{is_word, views, MetaItem, MetaItemView};
use crate::error::ConfigError;
use crate::identity::{IdentityView, LibraryIdentity};
use crate::syntax::{entries_of, read_entries, Token, TokenView};

verus! {

/// A file from which the body of a module is taken.
#[derive(Debug, PartialEq, Eq)]
pub enum SourceRef {
    /// A path relative to the root of the project.
    ProjectRoot(String),
    /// A path relative to the directory of build outputs.
    OutputDir(String),
}

/// Mathematical model of a [`SourceRef`].
pub enum SourceView {
    ProjectRoot(Seq<char>),
    OutputDir(Seq<char>),
}

impl View for SourceRef {
    type V = SourceView;

    open spec fn view(&self) -> SourceView {
        match self {
            SourceRef::ProjectRoot(path) => SourceView::ProjectRoot(path@),
            SourceRef::OutputDir(path) => SourceView::OutputDir(path@),
        }
    }
}

impl Clone for SourceRef {
    fn clone(&self) -> (copy: Self)
        ensures
            copy@ == self@,
    {
        match self {
            SourceRef::ProjectRoot(path) => SourceRef::ProjectRoot(path.clone()),
            SourceRef::OutputDir(path) => SourceRef::OutputDir(path.clone()),
        }
    }
}

/// The options given for a group of declarations.
#[derive(Debug, PartialEq, Eq)]
pub struct GroupConfig {
    /// The library identity given by an option, unresolved where none was.
    pub identity: LibraryIdentity,
    /// The file that holds the declarations, where they are not written inline.
    pub source: Option<SourceRef>,
}

/// Mathematical model of a [`GroupConfig`].
pub struct ConfigView {
    pub identity: IdentityView,
    pub source: Option<SourceView>,
}

impl View for GroupConfig {
    type V = ConfigView;

    open spec fn view(&self) -> ConfigView {
        ConfigView {
            identity: self.identity@,
            source: match self.source {
                Some(source) => Some(source@),
                None => None,
            },
        }
    }
}

/// What one option asks for.
pub enum OptionEffect {
    /// It names the library.
    Identity(IdentityView),
    /// It names the file that holds the declarations.
    Source(SourceView),
    /// It is not understood.
    Unknown,
}

/// What an option asks for: a bare string or `name` gives a short name,
/// `fullname` a full name, `include` a file below the project root and
/// `include_outdir` a file below the output directory.
pub open spec fn effect_of(option: MetaItemView) -> OptionEffect {
    match option {
        MetaItemView::Literal(text) => OptionEffect::Identity(IdentityView::ShortName(text)),
        MetaItemView::NameValue(name, value) => {
            if name == "name"@ {
                OptionEffect::Identity(IdentityView::ShortName(value))
            } else if name == "fullname"@ {
                OptionEffect::Identity(IdentityView::FullName(value))
            } else if name == "include"@ {
                OptionEffect::Source(SourceView::ProjectRoot(value))
            } else if name == "include_outdir"@ {
                OptionEffect::Source(SourceView::OutputDir(value))
            } else {
                OptionEffect::Unknown
            }
        },
        MetaItemView::Other => OptionEffect::Unknown,
    }
}

/// The configuration before any option is read.
pub open spec fn empty_config() -> ConfigView {
    ConfigView { identity: IdentityView::Unresolved, source: None }
}

/// The configuration after the option at position `at` is read, or the fault
/// that the option is.
pub open spec fn apply_option(config: ConfigView, at: int, option: MetaItemView) -> Result<
    ConfigView,
    ConfigError,
> {
    match effect_of(option) {
        OptionEffect::Identity(identity) => {
            if config.identity is Unresolved {
                Ok(ConfigView { identity, ..config })
            } else {
                Err(ConfigError::DuplicateIdentity(at as usize))
            }
        },
        OptionEffect::Source(source) => {
            if config.source is None {
                Ok(ConfigView { source: Some(source), ..config })
            } else {
                Err(ConfigError::DuplicateSource(at as usize))
            }
        },
        OptionEffect::Unknown => Err(ConfigError::UnknownOption(at as usize)),
    }
}

/// The configuration that a list of options gives, read from the front; the
/// first fault ends the reading.
pub open spec fn config_of(options: Seq<MetaItemView>) -> Result<ConfigView, ConfigError>
    decreases options.len(),
{
    if options.len() == 0 {
        Ok(empty_config())
    } else {
        match config_of(options.drop_last()) {
            Ok(config) => apply_option(config, options.len() - 1, options.last()),
            Err(fault) => Err(fault),
        }
    }
}

/// Whether an option names the library.
pub open spec fn names_identity(option: MetaItemView) -> bool {
    effect_of(option) is Identity
}

/// Whether an option names a file that holds the declarations.
pub open spec fn names_source(option: MetaItemView) -> bool {
    effect_of(option) is Source
}

/// Whether every option of a list is understood.
pub open spec fn all_known(options: Seq<MetaItemView>) -> bool {
    forall|at: int| 0 <= at < options.len() ==> !(#[trigger] effect_of(options[at]) is Unknown)
}

/// The configuration that the tokens of an option list give: the list is
/// taken apart at its commas, and the options are then read in order.
pub open spec fn parsed_config(tokens: Seq<TokenView>) -> Result<ConfigView, ConfigError> {
    match entries_of(tokens) {
        Ok(options) => config_of(options),
        Err(fault) => Err(fault),
    }
}

impl GroupConfig {
    /// Reads the tokens of an option list.
    pub fn parse(tokens: &Vec<Token>) -> (parsed: Result<GroupConfig, ConfigError>)
        ensures
            match parsed_config(views(tokens@)) {
                Ok(config) => parsed is Ok && parsed->Ok_0@ == config,
                Err(fault) => parsed == Err::<GroupConfig, ConfigError>(fault),
            },
    {
        match read_entries(tokens) {
            Ok(options) => GroupConfig::from_options(&options),
            Err(fault) => Err(fault),
        }
    }

    /// Reads a list of options.
    pub fn from_options(options: &Vec<MetaItem>) -> (parsed: Result<GroupConfig, ConfigError>)
        ensures
            match config_of(views(options@)) {
                Ok(config) => parsed is Ok && parsed->Ok_0@ == config,
                Err(fault) => parsed == Err::<GroupConfig, ConfigError>(fault),
            },
    {
        let mut identity = LibraryIdentity::Unresolved;
        let mut source: Option<SourceRef> = None;
        let mut at: usize = 0;
        assert(views(options@).take(0) =~= Seq::empty());
        while at < options.len()
            invariant
                at <= options.len(),
                config_of(views(options@).take(at as int)) == Ok::<ConfigView, ConfigError>(
                    ConfigView {
                        identity: identity@,
                        source: match source {
                            Some(src) => Some(src@),
                            None => None,
                        },
                    },
                ),
            decreases options.len() - at,
        {
            proof {
                let next = views(options@).take(at as int + 1);
                assert(next.drop_last() =~= views(options@).take(at as int));
                assert(next.last() == options@[at as int]@);
                lemma_fault_is_kept(views(options@), at as int + 1);
            }
            match &options[at] {
                MetaItem::Literal(text) => {
                    if identity.is_resolved() {
                        return Err(ConfigError::DuplicateIdentity(at));
                    }
                    identity = LibraryIdentity::ShortName(text.clone());
                },
                MetaItem::NameValue(name, value) => {
                    if is_word(name, "name") {
                        if identity.is_resolved() {
                            return Err(ConfigError::DuplicateIdentity(at));
                        }
                        identity = LibraryIdentity::ShortName(value.clone());
                    } else if is_word(name, "fullname") {
                        if identity.is_resolved() {
                            return Err(ConfigError::DuplicateIdentity(at));
                        }
                        identity = LibraryIdentity::FullName(value.clone());
                    } else if is_word(name, "include") {
                        if source.is_some() {
                            return Err(ConfigError::DuplicateSource(at));
                        }
                        source = Some(SourceRef::ProjectRoot(value.clone()));
                    } else if is_word(name, "include_outdir") {
                        if source.is_some() {
                            return Err(ConfigError::DuplicateSource(at));
                        }
                        source = Some(SourceRef::OutputDir(value.clone()));
                    } else {
                        return Err(ConfigError::UnknownOption(at));
                    }
                },
                MetaItem::Other => {
                    return Err(ConfigError::UnknownOption(at));
                },
            }
            at += 1;
        }
        assert(views(options@).take(at as int) =~= views(options@));
        Ok(GroupConfig { identity, source })
    }
}

/// A fault among the first options is the fault of the whole list.
pub proof fn lemma_fault_is_kept(options: Seq<MetaItemView>, upto: int)
    requires
        0 <= upto <= options.len(),
    ensures
        config_of(options.take(upto)) matches Err(fault) ==> config_of(options) == Err::<
            ConfigView,
            ConfigError,
        >(fault),
    decreases options.len() - upto,
{
    if upto < options.len() {
        lemma_fault_is_kept(options, upto + 1);
        assert(options.take(upto + 1).drop_last() =~= options.take(upto));
    } else {
        assert(options.take(upto) =~= options);
    }
}

/// A list of options is accepted exactly when every option is understood, at
/// most one names the library and at most one names a file. The identity is
/// then the one that was named, and unresolved where none was.
pub proof fn lemma_config_accepted(options: Seq<MetaItemView>)
    ensures
        config_of(options) is Ok <==> all_known(options) && options.filter(
            |option: MetaItemView| names_identity(option),
        ).len() <= 1 && options.filter(|option: MetaItemView| names_source(option)).len() <= 1,
        config_of(options) matches Ok(config) ==> {
            &&& config.identity is Unresolved <==> options.filter(
                |option: MetaItemView| names_identity(option),
            ).len() == 0
            &&& config.source is None <==> options.filter(
                |option: MetaItemView| names_source(option),
            ).len() == 0
            &&& forall|at: int|
                0 <= at < options.len() && names_identity(#[trigger] options[at])
                    ==> effect_of(options[at]) == OptionEffect::Identity(config.identity)
            &&& forall|at: int|
                0 <= at < options.len() && names_source(#[trigger] options[at]) ==> Some(
                    effect_of(options[at])->Source_0,
                ) == config.source
        },
    decreases options.len(),
{
    reveal_with_fuel(Seq::filter, 1);
    if options.len() > 0 {
        let front = options.drop_last();
        lemma_config_accepted(front);
        let identities = |option: MetaItemView| names_identity(option);
        let sources = |option: MetaItemView| names_source(option);
        front.lemma_filter_len(identities);
        front.lemma_filter_len(sources);
        if all_known(options) {
            assert forall|at: int| 0 <= at < front.len() implies !(#[trigger] effect_of(
                front[at],
            ) is Unknown) by {
                assert(front[at] == options[at]);
            }
        }
        if all_known(front) && !(effect_of(options.last()) is Unknown) {
            assert forall|at: int| 0 <= at < options.len() implies !(#[trigger] effect_of(
                options[at],
            ) is Unknown) by {
                if at < front.len() {
                    assert(front[at] == options[at]);
                }
            }
        }
        if effect_of(options.last()) is Unknown {
            assert(effect_of(options[options.len() - 1]) is Unknown);
        }
        match config_of(options) {
            Ok(config) => {
                let before = config_of(front)->Ok_0;
                assert forall|at: int|
                    0 <= at < options.len() && names_identity(
                        #[trigger] options[at],
                    ) implies effect_of(options[at]) == OptionEffect::Identity(
                    config.identity,
                ) by {
                    if at < front.len() {
                        assert(front[at] == options[at]);
                        assert(front.filter(identities).contains(front[at])) by {
                            front.lemma_filter_contains(identities, at);
                        }
                    }
                }
                assert forall|at: int|
                    0 <= at < options.len() && names_source(#[trigger] options[at]) implies Some(
                    effect_of(options[at])->Source_0,
                ) == config.source by {
                    if at < front.len() {
                        assert(front[at] == options[at]);
                        assert(front.filter(sources).contains(front[at])) by {
                            front.lemma_filter_contains(sources, at);
                        }
                    }
                }
            },
            Err(_) => {},
        }
    }
}

} // verus!
