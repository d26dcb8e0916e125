//! Errors found while validating declarations.

use vstd::prelude::*;

verus! {

/// A fault in the declarations or in their options. Such a fault is found
/// before any library is opened. Where a variant holds one number, it is the
/// position of the offending entry in the list that was examined; where it
/// holds two, the first is the position of the foreign block among the items
/// and the second that of the entry within the block.
#[derive(Debug, Clone, Copy, PartialEq, Eq, Structural)]
pub enum ConfigError {
    /// No library identity is known.
    MissingIdentity,
    /// The foreign block at this position has no library identity, neither
    /// from an option nor from a link hint.
    UnidentifiedBlock(usize),
    /// The option at this position is empty: a comma stands where an option
    /// was awaited.
    EmptyOption(usize),
    /// A second library identity was given by the option at this position.
    DuplicateIdentity(usize),
    /// A second file reference was given by the option at this position.
    DuplicateSource(usize),
    /// The option at this position is not one that is understood.
    UnknownOption(usize),
    /// The entry at this position of a foreign block is not a function.
    UnsupportedItem(usize, usize),
    /// A parameter of the function at this position has no type of its own.
    UntypedParameter(usize, usize),
    /// A file reference was given for a module that has a body of its own.
    SourceWithBody,
    /// A file reference was given for a bare foreign block.
    SourceOnForeignBlock,
    /// The annotated item is neither a module nor a foreign block.
    UnsupportedTarget,
}

impl ConfigError {
    /// The text shown to the author of the declarations.
    pub fn message(&self) -> (text: String)
        ensures
            text@ == self.message_text(),
    {
        match self {
            ConfigError::MissingIdentity => "no name specified".to_owned(),
            ConfigError::UnidentifiedBlock(_) => "no name specified".to_owned(),
            ConfigError::EmptyOption(_) => "unexpected token".to_owned(),
            ConfigError::DuplicateIdentity(_) => "name already specified.".to_owned(),
            ConfigError::DuplicateSource(_) => "include or include_outdir already specified.".to_owned(),
            ConfigError::UnknownOption(_) => "unknown attribute".to_owned(),
            ConfigError::UnsupportedItem(_, _) => "currently supported extern fn only".to_owned(),
            ConfigError::UntypedParameter(_, _) => "expect pat: ty.".to_owned(),
            ConfigError::SourceWithBody => "include but item already exists.".to_owned(),
            ConfigError::SourceOnForeignBlock => "can not include extern block.".to_owned(),
            ConfigError::UnsupportedTarget => "expect extern \"C\" { .. } or mod { .. }".to_owned(),
        }
    }

    /// The characters of [`ConfigError::message`].
    pub open spec fn message_text(&self) -> Seq<char> {
        match self {
            ConfigError::MissingIdentity => "no name specified"@,
            ConfigError::UnidentifiedBlock(_) => "no name specified"@,
            ConfigError::EmptyOption(_) => "unexpected token"@,
            ConfigError::DuplicateIdentity(_) => "name already specified."@,
            ConfigError::DuplicateSource(_) => "include or include_outdir already specified."@,
            ConfigError::UnknownOption(_) => "unknown attribute"@,
            ConfigError::UnsupportedItem(_, _) => "currently supported extern fn only"@,
            ConfigError::UntypedParameter(_, _) => "expect pat: ty."@,
            ConfigError::SourceWithBody => "include but item already exists."@,
            ConfigError::SourceOnForeignBlock => "can not include extern block."@,
            ConfigError::UnsupportedTarget => "expect extern \"C\" { .. } or mod { .. }"@,
        }
    }
}

} // verus!
