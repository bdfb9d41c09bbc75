//! The structural parser: one source file yields exactly one top-level
//! object. The primary artifact is whichever function or class definition
//! appears first among the root node's immediate children; a file with
//! neither is a script named after the file's base name.

use vstd::prelude::*;

use crate::cst::{matlab_cst, read_matlab_cst, CstFailure, CstNode, CstToken};
use crate::enums::Kind;
use crate::errors::MaltError;
use crate::objects::{base_fresh, Class, Function, MatlabObject, Script};
use crate::paths::{script_name, script_name_of, str_eq};

verus! {

pub open spec fn is_function_def(n: CstNode) -> bool {
    n.kind@ == "function_definition"@
}

pub open spec fn is_class_def(n: CstNode) -> bool {
    n.kind@ == "class_definition"@
}

pub open spec fn is_definition(n: CstNode) -> bool {
    is_function_def(n) || is_class_def(n)
}

/// The node at `i` is the first definition among the root's children.
pub open spec fn def_at(nodes: Seq<CstNode>, i: int) -> bool {
    &&& 0 <= i < nodes.len()
    &&& is_definition(nodes[i])
    &&& forall|j: int| 0 <= j < i ==> !is_definition(#[trigger] nodes[j])
}

pub open spec fn has_def(nodes: Seq<CstNode>) -> bool {
    exists|i: int| def_at(nodes, i)
}

pub proof fn lemma_def_at_unique(nodes: Seq<CstNode>, i: int, j: int)
    requires
        def_at(nodes, i),
        def_at(nodes, j),
    ensures
        i == j,
{
}

/// The token at `i` is the first identifier among a definition's children.
pub open spec fn ident_at(toks: Seq<CstToken>, i: int) -> bool {
    &&& 0 <= i < toks.len()
    &&& toks[i].kind@ == "identifier"@
    &&& forall|j: int| 0 <= j < i ==> (#[trigger] toks[j]).kind@ != "identifier"@
}

/// The declared identifier of a definition node: the text of the first
/// identifier token, or the given fallback where none is found.
pub open spec fn def_ident(toks: Seq<CstToken>, fallback: Seq<char>) -> Seq<char> {
    if exists|i: int| ident_at(toks, i) {
        toks[choose|i: int| ident_at(toks, i)].text@
    } else {
        fallback
    }
}

pub proof fn lemma_ident_at_unique(toks: Seq<CstToken>, i: int, j: int)
    requires
        ident_at(toks, i),
        ident_at(toks, j),
    ensures
        i == j,
{
}

/// The function parsed from a definition node: named by its identifier (or
/// `unnamed`), spanning the node's rows as 1-based inclusive lines, with
/// everything else fresh.
pub open spec fn function_from(f: Function, n: CstNode) -> bool {
    &&& f.base.name@ == def_ident(n.tokens@, "unnamed"@)
    &&& f.base.kind == Kind::Function
    &&& f.base.lineno matches Some(l) && l == n.start_row + 1
    &&& f.base.endlineno matches Some(l) && l == n.end_row + 1
    &&& f.base.docstring is None
    &&& f.base.public is None
    &&& f.base.members@.len() == 0
    &&& f.base.attributes@.len() == 0
    &&& f.arguments@.len() == 0
    &&& f.outputs@.len() == 0
    &&& !f.is_method
    &&& !f.is_setter
    &&& !f.is_getter
}

/// The class parsed from a definition node: named by its identifier (or
/// `UnnamedClass`), spanning the node's rows as 1-based inclusive lines,
/// with everything else fresh.
pub open spec fn class_from(c: Class, n: CstNode) -> bool {
    &&& c.base.name@ == def_ident(n.tokens@, "UnnamedClass"@)
    &&& c.base.kind == Kind::Class
    &&& c.base.lineno matches Some(l) && l == n.start_row + 1
    &&& c.base.endlineno matches Some(l) && l == n.end_row + 1
    &&& c.base.docstring is None
    &&& c.base.public is None
    &&& c.base.members@.len() == 0
    &&& c.base.attributes@.len() == 0
    &&& c.bases@.len() == 0
    &&& c.properties@.len() == 0
    &&& c.methods@.len() == 0
}

/// The script standing for a file with no root-level definition: a fresh
/// object named after the file.
pub open spec fn script_from(s: Script, path: Seq<char>) -> bool {
    &&& s.base.name@ == script_name(path)
    &&& s.base.kind == Kind::Script
    &&& base_fresh(s.base)
}

/// What the structural parser owes for a file whose root children are
/// `nodes`: the object built from the first definition, else a script.
pub open spec fn parse_matches(obj: MatlabObject, nodes: Seq<CstNode>, path: Seq<char>) -> bool {
    if has_def(nodes) {
        let i = choose|i: int| def_at(nodes, i);
        if is_function_def(nodes[i]) {
            obj matches MatlabObject::Function(f) && function_from(f, nodes[i])
        } else {
            obj matches MatlabObject::Class(c) && class_from(c, nodes[i])
        }
    } else {
        obj matches MatlabObject::Script(s) && script_from(s, path)
    }
}

/// The name the parsed object carries, as a function of the syntax tree and
/// the file path alone.
pub open spec fn parsed_name(nodes: Seq<CstNode>, path: Seq<char>) -> Seq<char> {
    if has_def(nodes) {
        let i = choose|i: int| def_at(nodes, i);
        if is_function_def(nodes[i]) {
            def_ident(nodes[i].tokens@, "unnamed"@)
        } else {
            def_ident(nodes[i].tokens@, "UnnamedClass"@)
        }
    } else {
        script_name(path)
    }
}

/// The kind the parsed object carries.
pub open spec fn parsed_kind(nodes: Seq<CstNode>) -> Kind {
    if has_def(nodes) {
        if is_function_def(nodes[choose|i: int| def_at(nodes, i)]) {
            Kind::Function
        } else {
            Kind::Class
        }
    } else {
        Kind::Script
    }
}

/// An object meeting the parser's contract carries exactly the name and kind
/// determined by the tree and the path.
pub proof fn lemma_parse_matches_name(obj: MatlabObject, nodes: Seq<CstNode>, path: Seq<char>)
    requires
        parse_matches(obj, nodes, path),
    ensures
        obj.spec_name() == parsed_name(nodes, path),
        obj.spec_kind() == parsed_kind(nodes),
{
}

/// For any file whose root children hold a function definition before any
/// other definition, the parser yields a function object whose name equals
/// the declared identifier (or the `unnamed` fallback) and whose kind is
/// `function`.
pub proof fn lemma_function_first_yields_function(
    obj: MatlabObject,
    nodes: Seq<CstNode>,
    path: Seq<char>,
    i: int,
)
    requires
        parse_matches(obj, nodes, path),
        def_at(nodes, i),
        is_function_def(nodes[i]),
    ensures
        obj matches MatlabObject::Function(f) && function_from(f, nodes[i]),
        obj.spec_kind() == Kind::Function,
        obj.spec_name() == def_ident(nodes[i].tokens@, "unnamed"@),
        forall|k: int|
            ident_at(nodes[i].tokens@, k) ==> obj.spec_name() == nodes[i].tokens@[k].text@,
{
    let w = choose|k: int| def_at(nodes, k);
    lemma_def_at_unique(nodes, i, w);
    assert forall|k: int|
        ident_at(nodes[i].tokens@, k) implies obj.spec_name() == nodes[i].tokens@[k].text@ by {
        let kw = choose|t: int| ident_at(nodes[i].tokens@, t);
        lemma_ident_at_unique(nodes[i].tokens@, k, kw);
    }
}

/// For any file whose root children hold a class definition before any other
/// definition, the parser yields a class object of kind `class` named by the
/// declared identifier (or the `UnnamedClass` fallback).
pub proof fn lemma_class_first_yields_class(
    obj: MatlabObject,
    nodes: Seq<CstNode>,
    path: Seq<char>,
    i: int,
)
    requires
        parse_matches(obj, nodes, path),
        def_at(nodes, i),
        !is_function_def(nodes[i]),
    ensures
        obj matches MatlabObject::Class(c) && class_from(c, nodes[i]),
        obj.spec_kind() == Kind::Class,
        obj.spec_name() == def_ident(nodes[i].tokens@, "UnnamedClass"@),
{
    let w = choose|k: int| def_at(nodes, k);
    lemma_def_at_unique(nodes, i, w);
}

/// For any file whose root children hold no definition at all, the parser
/// yields a script object named after the file's base name with its
/// extension removed.
pub proof fn lemma_no_definition_yields_script(
    obj: MatlabObject,
    nodes: Seq<CstNode>,
    path: Seq<char>,
)
    requires
        parse_matches(obj, nodes, path),
        forall|i: int| 0 <= i < nodes.len() ==> !is_definition(#[trigger] nodes[i]),
    ensures
        obj matches MatlabObject::Script(s) && script_from(s, path),
        obj.spec_kind() == Kind::Script,
        obj.spec_name() == script_name(path),
{
    assert(forall|i: int| !def_at(nodes, i));
}

/// The rows of every node fit the 1-based line numbering of the object
/// model.
pub open spec fn rows_in_range(nodes: Seq<CstNode>) -> bool {
    forall|i: int|
        0 <= i < nodes.len() ==> (#[trigger] nodes[i]).start_row <= nodes[i].end_row
            && nodes[i].end_row < usize::MAX
}

/// The name of the first identifier token, or the fallback.
fn extract_name(toks: &Vec<CstToken>, fallback: &str) -> (r: String)
    ensures
        r@ == def_ident(toks@, fallback@),
{
    let n = toks.len();
    let mut i: usize = 0;
    while i < n
        invariant
            n == toks@.len(),
            0 <= i <= n,
            forall|j: int| 0 <= j < i ==> (#[trigger] toks@[j]).kind@ != "identifier"@,
        decreases n - i,
    {
        if str_eq(toks[i].kind.as_str(), "identifier") {
            proof {
                assert(ident_at(toks@, i as int));
                let w = choose|k: int| ident_at(toks@, k);
                lemma_ident_at_unique(toks@, i as int, w);
            }
            return toks[i].text.clone();
        }
        i += 1;
    }
    assert(forall|k: int| !ident_at(toks@, k));
    fallback.to_owned()
}

/// The function object for a `function_definition` root child.
fn parse_function(node: &CstNode) -> (f: Function)
    requires
        node.start_row <= node.end_row < usize::MAX,
    ensures
        function_from(f, *node),
{
    let name = extract_name(&node.tokens, "unnamed");
    let mut f = Function::new(name);
    f.base.lineno = Some(node.start_row + 1);
    f.base.endlineno = Some(node.end_row + 1);
    f
}

/// The class object for a `class_definition` root child.
fn parse_class(node: &CstNode) -> (c: Class)
    requires
        node.start_row <= node.end_row < usize::MAX,
    ensures
        class_from(c, *node),
{
    let name = extract_name(&node.tokens, "UnnamedClass");
    let mut c = Class::new(name);
    c.base.lineno = Some(node.start_row + 1);
    c.base.endlineno = Some(node.end_row + 1);
    c
}

/// One object from the root's children: the first function or class
/// definition in source order, else a script named after the file.
pub fn parse_root_nodes(nodes: &Vec<CstNode>, path: &str) -> (r: MatlabObject)
    requires
        rows_in_range(nodes@),
    ensures
        parse_matches(r, nodes@, path@),
{
    let n = nodes.len();
    let mut i: usize = 0;
    while i < n
        invariant
            n == nodes@.len(),
            rows_in_range(nodes@),
            0 <= i <= n,
            forall|j: int| 0 <= j < i ==> !is_definition(#[trigger] nodes@[j]),
        decreases n - i,
    {
        let is_fn = str_eq(nodes[i].kind.as_str(), "function_definition");
        let is_cl = if is_fn {
            false
        } else {
            str_eq(nodes[i].kind.as_str(), "class_definition")
        };
        if is_fn {
            proof {
                assert(def_at(nodes@, i as int));
                let w = choose|k: int| def_at(nodes@, k);
                lemma_def_at_unique(nodes@, i as int, w);
            }
            let f = parse_function(&nodes[i]);
            return MatlabObject::Function(f);
        }
        if is_cl {
            proof {
                assert(def_at(nodes@, i as int));
                let w = choose|k: int| def_at(nodes@, k);
                lemma_def_at_unique(nodes@, i as int, w);
            }
            let c = parse_class(&nodes[i]);
            return MatlabObject::Class(c);
        }
        proof {
            assert(!is_definition(nodes@[i as int]));
        }
        i += 1;
    }
    assert(forall|k: int| !def_at(nodes@, k));
    let name = script_name_of(path);
    MatlabObject::Script(Script::new(name))
}

/// A parser for one file: the path it came from and the bytes that were
/// read for it.
#[derive(Debug)]
pub struct FileParser {
    pub filepath: String,
    pub source: Vec<u8>,
}

impl FileParser {
    /// Wraps the outcome of reading the file's bytes: a failed read becomes
    /// an I/O error and never a default object.
    pub fn new(filepath: String, read: Result<Vec<u8>, String>) -> (r: Result<Self, MaltError>)
        ensures
            read matches Ok(bytes) ==> r matches Ok(p) && p.filepath == filepath && p.source
                == bytes,
            read matches Err(m) ==> r matches Err(e) && e matches MaltError::Io(msg) && msg == m,
    {
        match read {
            Ok(source) => Ok(Self { filepath, source }),
            Err(m) => Err(MaltError::Io(m)),
        }
    }

    /// Parses the held bytes: exactly one object, matching the first
    /// root-level definition (or the script fallback). A grammar that yields
    /// no tree is a parse error; a grammar that cannot be loaded is a
    /// tree-sitter error.
    pub fn parse(&self) -> (r: Result<MatlabObject, MaltError>)
        ensures
            r matches Ok(obj) ==> matlab_cst(self.source@) is Some && parse_matches(
                obj,
                matlab_cst(self.source@)->Some_0,
                self.filepath@,
            ) && rows_in_range(matlab_cst(self.source@)->Some_0),
            matlab_cst(self.source@) is Some ==> r is Ok,
            r matches Err(e) ==> e is Parse && matlab_cst(self.source@) is None,
            matlab_cst(self.source@) is None ==> (r matches Err(e) && e is Parse),
    {
        parse_source(self.filepath.as_str(), &self.source)
    }
}

/// Parses a file's bytes against the grammar and classifies the root: the
/// verified half of every per-file parse, shared by the parser, the
/// collector and the lint engine.
pub fn parse_source(path: &str, bytes: &Vec<u8>) -> (r: Result<MatlabObject, MaltError>)
    ensures
        r matches Ok(obj) ==> matlab_cst(bytes@) is Some && parse_matches(
            obj,
            matlab_cst(bytes@)->Some_0,
            path@,
        ) && rows_in_range(matlab_cst(bytes@)->Some_0),
        matlab_cst(bytes@) is Some ==> r is Ok,
        r matches Err(e) ==> e is Parse && matlab_cst(bytes@) is None,
        matlab_cst(bytes@) is None ==> (r matches Err(e) && e is Parse),
{
    let nodes = match read_matlab_cst(bytes) {
        Ok(ns) => ns,
        Err(CstFailure::Language(m)) => {
            return Err(MaltError::TreeSitter(m));
        },
        Err(CstFailure::NoTree(m)) => {
            return Err(MaltError::Parse(m));
        },
    };
    let obj = parse_root_nodes(&nodes, path);
    Ok(obj)
}

/// Parses one file's bytes into its object, composing `FileParser::new` and
/// `FileParser::parse`.
pub fn parse_file(filepath: String, read: Result<Vec<u8>, String>) -> (r: Result<
    MatlabObject,
    MaltError,
>)
    ensures
        read matches Err(m) ==> (r matches Err(e) && e is Io),
        r matches Err(e) && e is Io ==> read is Err,
        read matches Ok(b) ==> (r matches Ok(obj) ==> matlab_cst(b@) is Some && parse_matches(
            obj,
            matlab_cst(b@)->Some_0,
            filepath@,
        ) && rows_in_range(matlab_cst(b@)->Some_0)),
        read matches Ok(b) ==> (matlab_cst(b@) is Some ==> r is Ok),
        read matches Ok(b) ==> (matlab_cst(b@) is None <==> (r matches Err(e) && e is Parse)),
        r matches Err(e) ==> e is Io || e is Parse,
{
    let parser = match FileParser::new(filepath, read) {
        Ok(p) => p,
        Err(e) => {
            return Err(e);
        },
    };
    parser.parse()
}

} // verus!
