//! The typed entities of the symbol model and their containment
//! relationships. Name-keyed member maps are held as vectors of pairs whose
//! keys stay unique; each constructor states the exact fresh value it builds.

use vstd::prelude::*;

use crate::enums::{AccessKind, ArgumentKind, Kind};

verus! {

/// A validatable element (an argument or a property under validation).
#[derive(Debug)]
pub struct Validatable {
    pub name: String,
    pub type_: Option<String>,
    pub dimensions: Option<Vec<String>>,
    pub default: Option<String>,
    pub validators: Option<String>,
    pub docstring: Option<String>,
}

impl Validatable {
    pub fn new(name: String) -> (r: Self)
        ensures
            r.name == name,
            r.type_ is None,
            r.dimensions is None,
            r.default is None,
            r.validators is None,
            r.docstring is None,
    {
        Self { name, type_: None, dimensions: None, default: None, validators: None, docstring: None }
    }

    pub fn has_docstring(&self) -> (r: bool)
        ensures
            r == (self.docstring is Some),
    {
        self.docstring.is_some()
    }
}

/// One function argument. A present default makes the argument optional.
#[derive(Debug)]
pub struct Argument {
    pub name: String,
    pub kind: Option<ArgumentKind>,
    pub type_: Option<String>,
    pub default: Option<String>,
    pub docstring: Option<String>,
}

impl Argument {
    pub fn new(name: String) -> (r: Self)
        ensures
            r.name == name,
            r.kind is None,
            r.type_ is None,
            r.default is None,
            r.docstring is None,
    {
        Self { name, kind: None, type_: None, default: None, docstring: None }
    }

    /// An argument is required exactly when it has no default.
    pub fn is_required(&self) -> (r: bool)
        ensures
            r == (self.default is None),
    {
        self.default.is_none()
    }
}

/// The base shape shared by every concrete entity: a name, a fixed kind,
/// optional source positions and docstring, a name-keyed member map and a
/// list of attribute tokens.
#[derive(Debug)]
pub struct Object {
    pub name: String,
    pub kind: Kind,
    pub lineno: Option<usize>,
    pub endlineno: Option<usize>,
    pub docstring: Option<String>,
    pub public: Option<bool>,
    pub members: Vec<(String, Box<Object>)>,
    pub attributes: Vec<String>,
}

/// A freshly constructed base object: no positions, no docstring, no
/// visibility flag, no members and no attributes.
pub open spec fn base_fresh(o: Object) -> bool {
    &&& o.lineno is None
    &&& o.endlineno is None
    &&& o.docstring is None
    &&& o.public is None
    &&& o.members@.len() == 0
    &&& o.attributes@.len() == 0
}

impl Object {
    pub fn new(name: String, kind: Kind) -> (r: Self)
        ensures
            r.name == name,
            r.kind == kind,
            base_fresh(r),
    {
        Self {
            name,
            kind,
            lineno: None,
            endlineno: None,
            docstring: None,
            public: None,
            members: Vec::new(),
            attributes: Vec::new(),
        }
    }

    pub fn has_docstring(&self) -> (r: bool)
        ensures
            r == (self.docstring is Some),
    {
        self.docstring.is_some()
    }

    pub fn is_kind(&self, kind: Kind) -> (r: bool)
        ensures
            r == (self.kind == kind),
    {
        self.kind == kind
    }

    pub fn member_count(&self) -> (r: usize)
        ensures
            r == self.members@.len(),
    {
        self.members.len()
    }
}

/// A MATLAB function: the base object plus arguments, output names and the
/// method/setter/getter flags.
#[derive(Debug)]
pub struct Function {
    pub base: Object,
    pub arguments: Vec<Argument>,
    pub outputs: Vec<String>,
    pub is_method: bool,
    pub is_setter: bool,
    pub is_getter: bool,
}

impl Function {
    pub fn new(name: String) -> (r: Self)
        ensures
            r.base.name == name,
            r.base.kind == Kind::Function,
            base_fresh(r.base),
            r.arguments@.len() == 0,
            r.outputs@.len() == 0,
            !r.is_method,
            !r.is_setter,
            !r.is_getter,
    {
        Self {
            base: Object::new(name, Kind::Function),
            arguments: Vec::new(),
            outputs: Vec::new(),
            is_method: false,
            is_setter: false,
            is_getter: false,
        }
    }
}

/// A MATLAB property of a class.
#[derive(Debug)]
pub struct Property {
    pub name: String,
    pub access: Option<AccessKind>,
    pub constant: bool,
    pub dependent: bool,
    pub type_: Option<String>,
    pub default: Option<String>,
    pub docstring: Option<String>,
}

impl Property {
    pub fn new(name: String) -> (r: Self)
        ensures
            r.name == name,
            r.access is None,
            !r.constant,
            !r.dependent,
            r.type_ is None,
            r.default is None,
            r.docstring is None,
    {
        Self {
            name,
            access: None,
            constant: false,
            dependent: false,
            type_: None,
            default: None,
            docstring: None,
        }
    }
}

/// A MATLAB class: the base object plus unresolved base-class names and its
/// properties and methods, each keyed by their own names.
#[derive(Debug)]
pub struct Class {
    pub base: Object,
    pub bases: Vec<String>,
    pub properties: Vec<Property>,
    pub methods: Vec<Function>,
}

impl Class {
    pub fn new(name: String) -> (r: Self)
        ensures
            r.base.name == name,
            r.base.kind == Kind::Class,
            base_fresh(r.base),
            r.bases@.len() == 0,
            r.properties@.len() == 0,
            r.methods@.len() == 0,
    {
        Self {
            base: Object::new(name, Kind::Class),
            bases: Vec::new(),
            properties: Vec::new(),
            methods: Vec::new(),
        }
    }
}

/// A file with no function or class definition at its root.
#[derive(Debug)]
pub struct Script {
    pub base: Object,
}

impl Script {
    pub fn new(name: String) -> (r: Self)
        ensures
            r.base.name == name,
            r.base.kind == Kind::Script,
            base_fresh(r.base),
    {
        Self { base: Object::new(name, Kind::Script) }
    }
}

/// A package folder that groups files into one logical namespace.
#[derive(Debug)]
pub struct Namespace {
    pub base: Object,
    pub path: Option<String>,
}

impl Namespace {
    pub fn new(name: String) -> (r: Self)
        ensures
            r.base.name == name,
            r.base.kind == Kind::Namespace,
            base_fresh(r.base),
            r.path is None,
    {
        Self { base: Object::new(name, Kind::Namespace), path: None }
    }
}

/// A plain folder container in the hierarchy.
#[derive(Debug)]
pub struct Folder {
    pub base: Object,
    pub path: Option<String>,
}

impl Folder {
    pub fn new(name: String) -> (r: Self)
        ensures
            r.base.name == name,
            r.base.kind == Kind::Folder,
            base_fresh(r.base),
            r.path is None,
    {
        Self { base: Object::new(name, Kind::Folder), path: None }
    }
}

/// A named reference to another object, expressed as a dotted path that is
/// resolved only once the full collection is known.
#[derive(Debug)]
pub struct Alias {
    pub name: String,
    pub target_path: String,
}

impl Alias {
    pub fn new(name: String, target_path: String) -> (r: Self)
        ensures
            r.name == name,
            r.target_path == target_path,
    {
        Self { name, target_path }
    }
}

/// Docstring text with its optional source positions.
#[derive(Debug)]
pub struct Docstring {
    pub value: String,
    pub lineno: Option<usize>,
    pub endlineno: Option<usize>,
}

impl Docstring {
    pub fn new(value: String) -> (r: Self)
        ensures
            r.value == value,
            r.lineno is None,
            r.endlineno is None,
    {
        Self { value, lineno: None, endlineno: None }
    }
}

/// Any entity of the model, as one closed sum.
#[derive(Debug)]
pub enum MatlabObject {
    Object(Object),
    Function(Function),
    Class(Class),
    Property(Property),
    Script(Script),
    Namespace(Namespace),
    Folder(Folder),
    Alias(Alias),
}

impl MatlabObject {
    /// The object's own name, whichever variant holds it.
    pub open spec fn spec_name(self) -> Seq<char> {
        match self {
            MatlabObject::Object(o) => o.name@,
            MatlabObject::Function(f) => f.base.name@,
            MatlabObject::Class(c) => c.base.name@,
            MatlabObject::Property(p) => p.name@,
            MatlabObject::Script(s) => s.base.name@,
            MatlabObject::Namespace(n) => n.base.name@,
            MatlabObject::Folder(f) => f.base.name@,
            MatlabObject::Alias(a) => a.name@,
        }
    }

    /// The object's kind: the base object's own kind for the untyped variant,
    /// the variant's fixed kind for every other.
    pub open spec fn spec_kind(self) -> Kind {
        match self {
            MatlabObject::Object(o) => o.kind,
            MatlabObject::Function(_) => Kind::Function,
            MatlabObject::Class(_) => Kind::Class,
            MatlabObject::Property(_) => Kind::Property,
            MatlabObject::Script(_) => Kind::Script,
            MatlabObject::Namespace(_) => Kind::Namespace,
            MatlabObject::Folder(_) => Kind::Folder,
            MatlabObject::Alias(_) => Kind::Alias,
        }
    }

    pub fn name(&self) -> (r: &str)
        ensures
            r@ == self.spec_name(),
    {
        match self {
            MatlabObject::Object(o) => o.name.as_str(),
            MatlabObject::Function(f) => f.base.name.as_str(),
            MatlabObject::Class(c) => c.base.name.as_str(),
            MatlabObject::Property(p) => p.name.as_str(),
            MatlabObject::Script(s) => s.base.name.as_str(),
            MatlabObject::Namespace(n) => n.base.name.as_str(),
            MatlabObject::Folder(f) => f.base.name.as_str(),
            MatlabObject::Alias(a) => a.name.as_str(),
        }
    }

    pub fn kind(&self) -> (r: Kind)
        ensures
            r == self.spec_kind(),
    {
        match self {
            MatlabObject::Object(o) => o.kind,
            MatlabObject::Function(_) => Kind::Function,
            MatlabObject::Class(_) => Kind::Class,
            MatlabObject::Property(_) => Kind::Property,
            MatlabObject::Script(_) => Kind::Script,
            MatlabObject::Namespace(_) => Kind::Namespace,
            MatlabObject::Folder(_) => Kind::Folder,
            MatlabObject::Alias(_) => Kind::Alias,
        }
    }
}

} // verus!
