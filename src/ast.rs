use vstd::prelude::*;
use crate::tokens::{Comment, Span};

verus! {

/// The kinds of declaration nodes.
pub enum AstNodes {
    Class(ClassNode),
}

/// A comment kept with the node it documents.
pub struct SpannedCommend {
    pub comment: Comment,
    pub span: Span,
}

/// A declaration with its children, its span and its attached comments.
pub struct AstNode {
    pub kind: AstNodes,
    pub children: Vec<AstNodes>,
    pub span: Span,
    pub comments: Vec<SpannedCommend>,
}

/// A type by name.
pub struct Type {
    pub name: String,
}

/// An identifier with a type: a typed field or parameter.
pub struct NamedTokenWithTypeInfo {
    pub name: String,
    pub typ: Type,
}

/// A function or method declaration.
pub struct FunctionDecl {
    pub name: String,
    pub args: Vec<NamedTokenWithTypeInfo>,
    pub is_class: bool,
}

/// A class: its name and its members, each visibility in its own list.
pub struct ClassNode {
    pub name: String,
    pub private_methods: Vec<FunctionDecl>,
    pub public_methods: Vec<FunctionDecl>,
    pub private_fields: Vec<NamedTokenWithTypeInfo>,
    pub public_fields: Vec<NamedTokenWithTypeInfo>,
}

} // verus!
