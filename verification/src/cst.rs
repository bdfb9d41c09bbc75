//! The boundary to the concrete-syntax-tree grammar. A parse is flattened to
//! the root node's immediate children, each with its node kind, its row span
//! and its own immediate children as (kind, text) tokens — exactly what the
//! structural parser reads.

use vstd::prelude::*;

verus! {

/// An immediate child of a root-level node: its node kind and its source
/// text.
#[derive(Debug)]
pub struct CstToken {
    pub kind: String,
    pub text: String,
}

/// An immediate child of a parse tree's root node: its node kind, its
/// zero-based start and end rows, and its own immediate children.
#[derive(Debug)]
pub struct CstNode {
    pub kind: String,
    pub start_row: usize,
    pub end_row: usize,
    pub tokens: Vec<CstToken>,
}

/// The reason a parse produced no flattened root.
#[derive(Debug)]
pub enum CstFailure {
    /// The grammar could not be loaded into the parser.
    Language(String),
    /// The parser returned no tree for the bytes.
    NoTree(String),
}

/// The flattened root of the MATLAB concrete syntax tree of the given bytes,
/// or `None` where the grammar yields no tree. Parsing is a pure function of
/// the bytes, so the result is named rather than spelled out.
pub uninterp spec fn matlab_cst(source: Seq<u8>) -> Option<Seq<CstNode>>;

#[verifier::external_type_specification]
#[verifier::external_body]
pub struct ExNode<'a>(tree_sitter::Node<'a>);

/// Relies on `tree_sitter::Node`'s `children`, `kind` and `utf8_text`: a
/// node's immediate children as (kind, text) tokens, in source order. Only
/// `read_matlab_cst` calls it, and states what the two together return.
#[verifier::external_body]
fn node_tokens(node: &tree_sitter::Node, source: &Vec<u8>) -> (r: Vec<CstToken>) {
    let mut sub = node.walk();
    node.children(&mut sub).map(|t| CstToken {
        kind: t.kind().to_string(),
        text: t.utf8_text(source).unwrap_or("").to_string(),
    }).collect()
}

/// Relies on `tree_sitter::Parser::parse` with the grammar from
/// `tree_sitter_matlab::LANGUAGE`, and on `tree_sitter::Node`'s `kind`,
/// `start_position`, `end_position` and `children`: the tree is a pure
/// function of the source bytes; children come in source order; a node's
/// zero-based rows never pass its source's byte count, which a vector holds,
/// and its start row never passes its end row. The grammar always loads:
/// it declares ABI version 15 with a lexer, which `Parser::set_language`
/// accepts (it takes versions 13 through 15), so the language failure never
/// comes out.
#[verifier::external_body]
pub(crate) fn read_matlab_cst(source: &Vec<u8>) -> (r: Result<Vec<CstNode>, CstFailure>)
    ensures
        r matches Ok(nodes) ==> matlab_cst(source@) == Some(nodes@),
        r matches Err(f) ==> f is NoTree && matlab_cst(source@) is None,
        r matches Ok(nodes) ==> forall|i: int|
            0 <= i < nodes@.len() ==> (#[trigger] nodes@[i]).start_row <= nodes@[i].end_row
                && nodes@[i].end_row < usize::MAX,
{
    let mut parser = tree_sitter::Parser::new();
    if let Err(e) = parser.set_language(&tree_sitter_matlab::LANGUAGE.into()) {
        return Err(CstFailure::Language(format!("Language error: {}", e)));
    }
    let tree = match parser.parse(source, None) { Some(t) => t, None => return Err(CstFailure::NoTree("Failed to parse file".to_string())) };
    let root = tree.root_node();
    let mut cur = root.walk();
    Ok(root.children(&mut cur).map(|c| CstNode {
        kind: c.kind().to_string(),
        start_row: c.start_position().row,
        end_row: c.end_position().row,
        tokens: node_tokens(&c, source),
    }).collect())
}

} // verus!
