//! Library identities and their resolution to loader strings.

use vstd::prelude::*;
use crate::error::ConfigError;

verus! {

/// How a binding group names the library it binds to.
#[derive(Debug, PartialEq, Eq, Hash)]
pub enum LibraryIdentity {
    /// No identity is known. Such a group cannot be bound.
    Unresolved,
    /// A platform-independent library name such as `z`.
    ShortName(String),
    /// An exact file name or path, handed to the loader as it is.
    FullName(String),
}

/// Mathematical model of a [`LibraryIdentity`].
pub enum IdentityView {
    Unresolved,
    ShortName(Seq<char>),
    FullName(Seq<char>),
}

impl View for LibraryIdentity {
    type V = IdentityView;

    open spec fn view(&self) -> IdentityView {
        match self {
            LibraryIdentity::Unresolved => IdentityView::Unresolved,
            LibraryIdentity::ShortName(n) => IdentityView::ShortName(n@),
            LibraryIdentity::FullName(n) => IdentityView::FullName(n@),
        }
    }
}

/// The file name that the platform gives to the library with this short name.
pub uninterp spec fn platform_file_name(name: Seq<char>) -> Seq<char>;

/// Whether `part` occurs in `whole` as a run of neighbouring characters.
pub open spec fn occurs_in(part: Seq<char>, whole: Seq<char>) -> bool {
    exists|at: int|
        0 <= at && at + part.len() <= whole.len() && #[trigger] whole.subrange(
            at,
            at + part.len(),
        ) == part
}

/// Calls `libloading::library_filename`, which puts the platform's prefix for
/// shared libraries before the name and the platform's suffix behind it. Both
/// are fixed when the program is built, so the result depends on the name
/// alone, and the name stands in it unchanged. None of this is proved here.
#[verifier::external_body]
fn library_filename(name: &str) -> (file: String)
    ensures
        file@ == platform_file_name(name@),
        occurs_in(name@, file@),
{
    libloading::library_filename(name).to_string_lossy().into_owned()
}

/// The string handed to the loader for each identity that has one.
pub open spec fn loader_name_of(identity: IdentityView) -> Option<Seq<char>> {
    match identity {
        IdentityView::Unresolved => None,
        IdentityView::ShortName(n) => Some(platform_file_name(n)),
        IdentityView::FullName(n) => Some(n),
    }
}

impl Default for LibraryIdentity {
    fn default() -> (identity: Self)
        ensures
            identity@ == IdentityView::Unresolved,
    {
        LibraryIdentity::Unresolved
    }
}

impl Clone for LibraryIdentity {
    fn clone(&self) -> (copy: Self)
        ensures
            copy@ == self@,
    {
        match self {
            LibraryIdentity::Unresolved => LibraryIdentity::Unresolved,
            LibraryIdentity::ShortName(n) => LibraryIdentity::ShortName(n.clone()),
            LibraryIdentity::FullName(n) => LibraryIdentity::FullName(n.clone()),
        }
    }
}

impl LibraryIdentity {
    /// Whether an identity is known.
    pub fn is_resolved(&self) -> (known: bool)
        ensures
            known == !(self@ is Unresolved),
    {
        match self {
            LibraryIdentity::Unresolved => false,
            _ => true,
        }
    }

    /// Whether two identities are of the same kind and hold the same name.
    pub fn same_as(&self, other: &LibraryIdentity) -> (same: bool)
        ensures
            same == (self@ == other@),
    {
        match (self, other) {
            (LibraryIdentity::Unresolved, LibraryIdentity::Unresolved) => true,
            (LibraryIdentity::ShortName(a), LibraryIdentity::ShortName(b)) => *a == *b,
            (LibraryIdentity::FullName(a), LibraryIdentity::FullName(b)) => *a == *b,
            _ => false,
        }
    }

    /// The string to hand to the loader: a full name as it is, a short name as
    /// the platform's file name for it, in which the short name stands
    /// unchanged. An unresolved identity has none, and nothing is asked of the
    /// platform for it.
    pub fn loader_name(&self) -> (name: Result<String, ConfigError>)
        ensures
            match loader_name_of(self@) {
                Some(text) => name is Ok && name->Ok_0@ == text,
                None => name == Err::<String, ConfigError>(ConfigError::MissingIdentity),
            },
            self@ matches IdentityView::ShortName(short) ==> occurs_in(short, name->Ok_0@),
    {
        match self {
            LibraryIdentity::Unresolved => Err(ConfigError::MissingIdentity),
            LibraryIdentity::ShortName(n) => Ok(library_filename(n.as_str())),
            LibraryIdentity::FullName(n) => Ok(n.clone()),
        }
    }
}

/// The mapping of short names is a function: the same short name always gives
/// the same platform file name, and so the same loader string.
pub proof fn lemma_short_name_mapping_pure(first: Seq<char>, second: Seq<char>)
    requires
        first =~= second,
    ensures
        platform_file_name(first) == platform_file_name(second),
        loader_name_of(IdentityView::ShortName(first)) == loader_name_of(
            IdentityView::ShortName(second),
        ),
{
}

} // verus!
