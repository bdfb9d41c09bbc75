//! Closed vocabularies for object kind, argument kind and access level.

use vstd::prelude::*;

verus! {

/// The kind of a MATLAB code element. Every object carries exactly one kind,
/// fixed at construction.
#[derive(Debug, Clone, Copy, PartialEq, Eq, Hash, Structural)]
pub enum Kind {
    Folder,
    Namespace,
    Class,
    Enumeration,
    Function,
    Script,
    Property,
    Alias,
    Builtin,
}

impl Kind {
    /// The stable lower-case tag used when the model is rendered.
    pub open spec fn spec_str(self) -> Seq<char> {
        match self {
            Kind::Folder => "folder"@,
            Kind::Namespace => "namespace"@,
            Kind::Class => "class"@,
            Kind::Enumeration => "enumeration"@,
            Kind::Function => "function"@,
            Kind::Script => "script"@,
            Kind::Property => "property"@,
            Kind::Alias => "alias"@,
            Kind::Builtin => "builtin"@,
        }
    }

    pub fn as_str(&self) -> (r: &'static str)
        ensures
            r@ == self.spec_str(),
    {
        match self {
            Kind::Folder => "folder",
            Kind::Namespace => "namespace",
            Kind::Class => "class",
            Kind::Enumeration => "enumeration",
            Kind::Function => "function",
            Kind::Script => "script",
            Kind::Property => "property",
            Kind::Alias => "alias",
            Kind::Builtin => "builtin",
        }
    }
}

/// The kind of a function argument.
#[derive(Debug, Clone, Copy, PartialEq, Eq, Hash, Structural)]
pub enum ArgumentKind {
    PositionalOnly,
    Optional,
    KeywordOnly,
    Varargin,
}

impl ArgumentKind {
    pub open spec fn spec_str(self) -> Seq<char> {
        match self {
            ArgumentKind::PositionalOnly => "positional-only"@,
            ArgumentKind::Optional => "optional"@,
            ArgumentKind::KeywordOnly => "keyword-only"@,
            ArgumentKind::Varargin => "varargin"@,
        }
    }

    pub fn as_str(&self) -> (r: &'static str)
        ensures
            r@ == self.spec_str(),
    {
        match self {
            ArgumentKind::PositionalOnly => "positional-only",
            ArgumentKind::Optional => "optional",
            ArgumentKind::KeywordOnly => "keyword-only",
            ArgumentKind::Varargin => "varargin",
        }
    }
}

/// The access level of a class member.
#[derive(Debug, Clone, Copy, PartialEq, Eq, Hash, Structural)]
pub enum AccessKind {
    Public,
    Protected,
    Private,
    Immutable,
}

impl AccessKind {
    pub open spec fn spec_str(self) -> Seq<char> {
        match self {
            AccessKind::Public => "public"@,
            AccessKind::Protected => "protected"@,
            AccessKind::Private => "private"@,
            AccessKind::Immutable => "immutable"@,
        }
    }

    pub fn as_str(&self) -> (r: &'static str)
        ensures
            r@ == self.spec_str(),
    {
        match self {
            AccessKind::Public => "public",
            AccessKind::Protected => "protected",
            AccessKind::Private => "private",
            AccessKind::Immutable => "immutable",
        }
    }
}

} // verus!
