use vstd::prelude::*;
use crate::ast::{AstNode, AstNodes, ClassNode};
use crate::diagnostics::{rendered, Diagnostic, ErrorClient};
use crate::errors::{ErrorKind, ParseErrors};
use crate::tokens::{Span, Token, Tokens};

verus! {

/// The class production fails at token `i`: a `class` keyword that is not
/// followed by an identifier, or that ends the input.
pub open spec fn class_fails(t: Seq<Token>, i: int) -> bool {
    t[i].kind == Tokens::Class && (i + 1 >= t.len() || !(t[i + 1].kind is Ident))
}

/// `d` is the error of the class production at token `i`.
pub open spec fn class_error(t: Seq<Token>, i: int, d: Diagnostic) -> bool {
    &&& d.fatal
    &&& d.origin == t[i].span
    &&& if i + 1 < t.len() {
        &&& d.error matches ErrorKind::Parse(ParseErrors::ExpectedAfterButReceived(e, a, r))
        &&& e matches Tokens::Ident(x) && x@.len() == 0
        &&& a == Tokens::Class
        &&& r == t[i + 1].kind
        &&& d.at == t[i + 1].span
    } else {
        &&& d.error == ErrorKind::Parse(ParseErrors::UnexpectedEndAfter(Tokens::Class))
        &&& d.at == t[i].span
    }
}

/// The positions of the `class` keywords among the first `n` tokens.
pub open spec fn class_positions(t: Seq<Token>, n: int) -> Seq<int>
    decreases n,
{
    if n <= 0 {
        Seq::empty()
    } else if t[n - 1].kind == Tokens::Class {
        class_positions(t, n - 1).push(n - 1)
    } else {
        class_positions(t, n - 1)
    }
}

/// `node` is the class declared by the `class` keyword at token `i` and the
/// identifier after it: it spans both, carries the name, and has no members,
/// children or comments yet.
pub open spec fn class_node(t: Seq<Token>, i: int, node: AstNode) -> bool {
    &&& node.span == (Span { start: t[i].span.start, end: t[i + 1].span.end })
    &&& node.children@.len() == 0
    &&& node.comments@.len() == 0
    &&& node.kind matches AstNodes::Class(c) && t[i + 1].kind matches Tokens::Ident(x) && c.name@
        == x@ && c.private_methods@.len() == 0 && c.public_methods@.len() == 0
        && c.private_fields@.len() == 0 && c.public_fields@.len() == 0
}

/// The result of parsing the tokens `t` of the source `src`: the first failing
/// class production gives its rendered error; without one, each `class`
/// keyword gives its node, in order. Other tokens at the top level are passed
/// over.
pub open spec fn parsed(src: Seq<char>, t: Seq<Token>, r: Result<Vec<AstNode>, Diagnostic>) -> bool {
    match r {
        Ok(nodes) => {
            &&& forall|i: int| 0 <= i < t.len() ==> !class_fails(t, i)
            &&& nodes@.len() == class_positions(t, t.len() as int).len()
            &&& forall|k: int|
                0 <= k < nodes@.len() ==> class_node(
                    t,
                    class_positions(t, t.len() as int)[k],
                    #[trigger] nodes@[k],
                )
        },
        Err(d) => exists|i: int|
            0 <= i < t.len() && class_fails(t, i) && (forall|j: int| 0 <= j < i ==> !class_fails(t, j))
                && class_error(t, i, d) && rendered(src, d),
    }
}

/// Builds declarations from tokens with one token of lookahead.
pub struct Parser {
    err_client: ErrorClient,
    tokens: Vec<Token>,
    source: String,
}

impl Parser {
    pub fn new(src: String, tokens: Vec<Token>) -> (r: Parser)
        ensures
            r.wf(),
            r.source_text() == src@,
            r.token_seq() == tokens@,
    {
        let err_client = ErrorClient::new(&src);
        Parser { err_client, tokens, source: src }
    }

    pub closed spec fn wf(&self) -> bool {
        self.err_client.wf() && self.err_client.source() == self.source@
    }

    pub closed spec fn source_text(&self) -> Seq<char> {
        self.source@
    }

    pub closed spec fn token_seq(&self) -> Seq<Token> {
        self.tokens@
    }

    /// Parses every top-level declaration.
    pub fn parse(&self) -> (r: Result<Vec<AstNode>, Diagnostic>)
        requires
            self.wf(),
        ensures
            parsed(self.source_text(), self.token_seq(), r),
    {
        let ghost t = self.tokens@;
        let mut nodes: Vec<AstNode> = Vec::new();
        let mut i: usize = 0;
        while i < self.tokens.len()
            invariant
                self.wf(),
                t == self.tokens@,
                i <= t.len(),
                forall|j: int| 0 <= j < i ==> !class_fails(t, j),
                nodes@.len() == class_positions(t, i as int).len(),
                forall|k: int|
                    0 <= k < nodes@.len() ==> class_node(
                        t,
                        class_positions(t, i as int)[k],
                        #[trigger] nodes@[k],
                    ),
            decreases t.len() - i,
        {
            if let Tokens::Class = self.tokens[i].kind {
                match self.parse_class(i) {
                    Ok(node) => {
                        nodes.push(node);
                    },
                    Err(d) => {
                        return Err(d);
                    },
                }
            }
            i = i + 1;
        }
        Ok(nodes)
    }

    /// The class production at token `ix`, a `class` keyword: it must be
    /// followed by an identifier.
    fn parse_class(&self, ix: usize) -> (r: Result<AstNode, Diagnostic>)
        requires
            self.wf(),
            ix < self.tokens@.len(),
            self.tokens@[ix as int].kind == Tokens::Class,
        ensures
            match r {
                Ok(node) => !class_fails(self.tokens@, ix as int) && class_node(
                    self.tokens@,
                    ix as int,
                    node,
                ),
                Err(d) => class_fails(self.tokens@, ix as int) && class_error(
                    self.tokens@,
                    ix as int,
                    d,
                ) && rendered(self.source@, d),
            },
    {
        let start = &self.tokens[ix];
        if ix < self.tokens.len() - 1 {
            let next = &self.tokens[ix + 1];
            if let Tokens::Ident(name) = &next.kind {
                let class = ClassNode {
                    name: name.clone(),
                    private_methods: Vec::new(),
                    public_methods: Vec::new(),
                    private_fields: Vec::new(),
                    public_fields: Vec::new(),
                };
                Ok(
                    AstNode {
                        kind: AstNodes::Class(class),
                        children: Vec::new(),
                        span: Span { start: start.span.start, end: next.span.end },
                        comments: Vec::new(),
                    },
                )
            } else {
                let kind = ParseErrors::ExpectedAfterButReceived(
                    Tokens::Ident(String::new()),
                    start.kind.duplicate(),
                    next.kind.duplicate(),
                );
                Err(self.err_client.render(kind, &start.span, &next.span, true))
            }
        } else {
            let kind = ParseErrors::UnexpectedEndAfter(start.kind.duplicate());
            Err(self.err_client.render(kind, &start.span, &start.span, true))
        }
    }
}

/// Parses the tokens of `src` into its top-level declarations, or the first
/// error, rendered against `src`.
pub fn parse(src: String, tokens: Vec<Token>) -> (r: Result<Vec<AstNode>, Diagnostic>)
    ensures
        parsed(src@, tokens@, r),
{
    let parser = Parser::new(src, tokens);
    parser.parse()
}

} // verus!
