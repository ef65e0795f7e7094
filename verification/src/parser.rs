//! Recursive-descent parser from Suru tokens to a syntax tree.
//!
//! Nodes are appended to an arena; a node is created after its children,
//! which are then linked to it through first-child, next-sibling and
//! parent indices.

use vstd::prelude::*;
use crate::string_storage::StringStorage;
use crate::ast::{Ast, AstNode, NodeType};
use crate::lexer::{Token, TokenKind, ends_with_eof};
use crate::limits::CompilerLimits;
use crate::text::concat2;

verus! {

/// The kind of token `i`, or end of file past the end.
pub open spec fn kind_at(ts: Seq<Token>, i: int) -> TokenKind {
    if 0 <= i < ts.len() {
        ts[i].kind
    } else {
        TokenKind::Eof
    }
}

/// A token that is a whole primary expression by itself.
pub open spec fn atom(k: TokenKind) -> bool {
    k == TokenKind::Number || k == TokenKind::Text || k == TokenKind::True || k == TokenKind::False
        || k == TokenKind::Identifier || k == TokenKind::This || k == TokenKind::Underscore
}

/// The node kind of a one-token primary expression.
pub open spec fn atom_node(k: TokenKind) -> NodeType {
    if k == TokenKind::Number {
        NodeType::LiteralNumber
    } else if k == TokenKind::Text {
        NodeType::LiteralString
    } else if k == TokenKind::True || k == TokenKind::False {
        NodeType::LiteralBoolean
    } else if k == TokenKind::Identifier {
        NodeType::Identifier
    } else if k == TokenKind::This {
        NodeType::This
    } else {
        NodeType::Placeholder
    }
}

/// A token after which no operator, call or member access continues an
/// expression.
pub open spec fn ends_operand(k: TokenKind) -> bool {
    k != TokenKind::LParen && k != TokenKind::Dot && k != TokenKind::And && k != TokenKind::Or
        && k != TokenKind::Pipe
}

/// Token `p` is a one-token expression that nothing continues.
pub open spec fn simple_expr(ts: Seq<Token>, p: int) -> bool {
    atom(kind_at(ts, p)) && ends_operand(kind_at(ts, p + 1))
}

/// A token that ends a statement.
pub open spec fn ends_statement(k: TokenKind) -> bool {
    k == TokenKind::Newline || k == TokenKind::Eof || k == TokenKind::RBrace
}

/// Node `i` of the parse is of kind `kind`.
spec fn made(p: &Parser, i: usize, kind: NodeType) -> bool {
    i < p.nodes@.len() && p.nodes@[i as int].node_type == kind
}

/// From position `pos` on, the tokens are line breaks up to the final
/// end-of-file token.
pub open spec fn blank_from(ts: Seq<Token>, pos: int) -> bool {
    forall|i: int| pos <= i < ts.len() - 1 ==> ts[i].kind == TokenKind::Newline
}

/// An error found while parsing
#[derive(Debug)]
pub struct ParseError {
    pub message: String,
    pub line: usize,
    pub column: usize,
}

impl ParseError {
    /// The error rendered as text
    pub fn to_string(&self) -> (r: String)
        ensures
            r@ == self.message@,
    {
        self.message.clone()
    }
}

struct Parser {
    tokens: Vec<Token>,
    pos: usize,
    nodes: Vec<AstNode>,
}

impl Parser {
    spec fn ok(&self) -> bool {
        ends_with_eof(self.tokens@) && self.pos < self.tokens@.len()
    }

    spec fn kept(&self, old: &Parser) -> bool {
        self.ok() && self.tokens@ == old.tokens@ && self.pos >= old.pos
    }

    fn peek(&self) -> (r: TokenKind)
        requires
            self.ok(),
        ensures
            r == self.tokens@[self.pos as int].kind,
    {
        self.tokens[self.pos].kind
    }

    fn peek_at(&self, k: usize) -> (r: TokenKind)
        requires
            self.ok(),
        ensures
            r == (if self.pos + k < self.tokens@.len() {
                self.tokens@[self.pos + k].kind
            } else {
                TokenKind::Eof
            }),
    {
        if k < self.tokens.len() - self.pos {
            self.tokens[self.pos + k].kind
        } else {
            TokenKind::Eof
        }
    }

    fn current(&self) -> (r: Token)
        requires
            self.ok(),
        ensures
            r == self.tokens@[self.pos as int],
    {
        self.tokens[self.pos].clone()
    }

    fn advance(&mut self)
        requires
            old(self).ok(),
        ensures
            final(self).kept(&*old(self)),
            final(self).nodes@ == old(self).nodes@,
            old(self).tokens@[old(self).pos as int].kind != TokenKind::Eof ==> final(self).pos
                == old(self).pos + 1,
    {
        if self.pos < self.tokens.len() - 1 {
            self.pos = self.pos + 1;
        } else {
            assert(self.tokens@[self.pos as int].kind == TokenKind::Eof);
        }
    }

    fn error(&self, message: &str) -> (r: ParseError)
        requires
            self.ok(),
        ensures
            r.message@ == message@ + " at '"@ + self.tokens@[self.pos as int].text@ + "'"@,
            r.line == self.tokens@[self.pos as int].line,
            r.column == self.tokens@[self.pos as int].column,
    {
        let t = &self.tokens[self.pos];
        let shown = concat2(" at '", t.text.as_str());
        let mut msg = concat2(message, shown.as_str());
        msg.append("'");
        ParseError { message: msg, line: t.line, column: t.column }
    }

    fn expect(&mut self, kind: TokenKind, message: &str) -> (r: Result<Token, ParseError>)
        requires
            old(self).ok(),
        ensures
            final(self).kept(&*old(self)),
            final(self).nodes@ == old(self).nodes@,
            r is Ok ==> final(self).pos > old(self).pos,
            r is Ok <==> (old(self).tokens@[old(self).pos as int].kind == kind && kind != TokenKind::Eof),
            r matches Ok(t) ==> t == old(self).tokens@[old(self).pos as int] && final(self).pos == old(self).pos + 1,
            r matches Err(e) ==> final(self).pos == old(self).pos && e.message@ == message@ + " at '"@
                + old(self).tokens@[old(self).pos as int].text@ + "'"@,
    {
        if self.peek() == kind && kind != TokenKind::Eof {
            let t = self.current();
            self.advance();
            Ok(t)
        } else {
            Err(self.error(message))
        }
    }

    fn skip_newlines(&mut self)
        requires
            old(self).ok(),
        ensures
            final(self).kept(&*old(self)),
            final(self).nodes@ == old(self).nodes@,
            final(self).tokens@[final(self).pos as int].kind != TokenKind::Newline,
            old(self).tokens@[old(self).pos as int].kind != TokenKind::Newline ==> final(self).pos == old(self).pos,
    {
        while self.peek() == TokenKind::Newline
            invariant
                self.kept(&*old(self)),
                self.nodes@ == old(self).nodes@,
                old(self).tokens@[old(self).pos as int].kind != TokenKind::Newline ==> self.pos == old(self).pos,
            decreases self.tokens@.len() - self.pos,
        {
            self.advance();
        }
    }

    fn relink(&mut self, c: usize, parent: usize, next: Option<usize>)
        requires
            old(self).ok(),
        ensures
            final(self).tokens@ == old(self).tokens@,
            final(self).pos == old(self).pos,
            final(self).nodes@.len() == old(self).nodes@.len(),
            c < old(self).nodes@.len() ==> final(self).nodes@ == old(self).nodes@.update(
                c as int,
                AstNode { next_sibling: next, parent: Some(parent), ..old(self).nodes@[c as int] },
            ),
            c >= old(self).nodes@.len() ==> final(self).nodes@ == old(self).nodes@,
    {
        if c < self.nodes.len() {
            let old_node = self.nodes[c].duplicate();
            let node = AstNode {
                node_type: old_node.node_type,
                token: old_node.token,
                first_child: old_node.first_child,
                next_sibling: next,
                parent: Some(parent),
                is_private: old_node.is_private,
            };
            self.nodes.set(c, node);
        }
    }

    fn mark_private(&mut self, idx: usize)
        requires
            old(self).ok(),
        ensures
            final(self).tokens@ == old(self).tokens@,
            final(self).pos == old(self).pos,
            final(self).nodes@.len() == old(self).nodes@.len(),
            idx < old(self).nodes@.len() ==> final(self).nodes@ == old(self).nodes@.update(
                idx as int,
                AstNode { is_private: true, ..old(self).nodes@[idx as int] },
            ),
            idx >= old(self).nodes@.len() ==> final(self).nodes@ == old(self).nodes@,
    {
        if idx < self.nodes.len() {
            let old_node = self.nodes[idx].duplicate();
            let node = AstNode {
                node_type: old_node.node_type,
                token: old_node.token,
                first_child: old_node.first_child,
                next_sibling: old_node.next_sibling,
                parent: old_node.parent,
                is_private: true,
            };
            self.nodes.set(idx, node);
        }
    }

    /// Appends a node whose children are `children`, in order, and links them to it.
    fn new_node(&mut self, node_type: NodeType, token: Option<Token>, children: &Vec<usize>) -> (r: usize)
        requires
            old(self).ok(),
        ensures
            final(self).tokens@ == old(self).tokens@,
            final(self).pos == old(self).pos,
            r == old(self).nodes@.len(),
            final(self).nodes@.len() == old(self).nodes@.len() + 1,
            final(self).nodes@[r as int].node_type == node_type,
            final(self).nodes@[r as int].token == token,
            final(self).nodes@[r as int].first_child == (if children@.len() > 0 {
                Some(children@[0])
            } else {
                None
            }),
    {
        let idx = self.nodes.len();
        let ghost tok = token;
        let first = if children.len() > 0 {
            Some(children[0])
        } else {
            None
        };
        self.nodes.push(
            AstNode {
                node_type,
                token,
                first_child: first,
                next_sibling: None,
                parent: None,
                is_private: false,
            },
        );
        let mut k: usize = 0;
        while k < children.len()
            invariant
                self.ok(),
                self.tokens@ == old(self).tokens@,
                self.pos == old(self).pos,
                self.nodes@.len() == idx + 1,
                idx == old(self).nodes@.len(),
                self.nodes@[idx as int].node_type == node_type,
                self.nodes@[idx as int].token == tok,
                self.nodes@[idx as int].first_child == first,
                first == (if children@.len() > 0 {
                    Some(children@[0])
                } else {
                    None
                }),
            decreases children@.len() - k,
        {
            let c = children[k];
            let next = if k + 1 < children.len() {
                Some(children[k + 1])
            } else {
                None
            };
            self.relink(c, idx, next);
            k = k + 1;
        }
        idx
    }

    fn leaf(&mut self, node_type: NodeType) -> (r: usize)
        requires
            old(self).ok(),
            old(self).tokens@[old(self).pos as int].kind != TokenKind::Eof,
        ensures
            final(self).kept(&*old(self)),
            final(self).pos == old(self).pos + 1,
            r == old(self).nodes@.len(),
            final(self).nodes@.len() == old(self).nodes@.len() + 1,
            final(self).nodes@[r as int].node_type == node_type,
            final(self).nodes@[r as int].token == Some(old(self).tokens@[old(self).pos as int]),
            final(self).nodes@[r as int].first_child is None,
    {
        let t = self.current();
        let none: Vec<usize> = Vec::new();
        let r = self.new_node(node_type, Some(t), &none);
        self.advance();
        r
    }

    /// A dotted path such as `a.b.c`, or `.name` when a leading dot is allowed.
    fn parse_path(&mut self, leading_dot: bool) -> (r: Result<Token, ParseError>)
        requires
            old(self).ok(),
        ensures
            final(self).kept(&*old(self)),
            final(self).nodes@ == old(self).nodes@,
            r is Ok ==> final(self).pos > old(self).pos,
            kind_at(old(self).tokens@, old(self).pos as int) == TokenKind::Identifier && kind_at(old(self).tokens@, old(self).pos as int + 1) != TokenKind::Dot ==> (r matches Ok(t) && final(self).pos == old(self).pos + 1
                && t.text@ == old(self).tokens@[old(self).pos as int].text@ && t.kind == TokenKind::Identifier),
    {
        let start = self.current();
        let mut text = String::new();
        if leading_dot && self.peek() == TokenKind::Dot {
            text.append(".");
            self.advance();
        }
        let first = self.expect(TokenKind::Identifier, "Expected name")?;
        text.append(first.text.as_str());
        while self.peek() == TokenKind::Dot && self.peek_at(1) == TokenKind::Identifier
            invariant
                kind_at(old(self).tokens@, old(self).pos as int) == TokenKind::Identifier && kind_at(old(self).tokens@, old(self).pos as int + 1) != TokenKind::Dot ==> (self.pos == old(self).pos + 1 && text@ == old(self).tokens@[old(self).pos as int].text@),
                self.kept(&*old(self)),
                self.nodes@ == old(self).nodes@,
                self.pos > old(self).pos,
            decreases self.tokens@.len() - self.pos,
        {
            self.advance();
            text.append(".");
            let part = self.expect(TokenKind::Identifier, "Expected name")?;
            text.append(part.text.as_str());
        }
        Ok(Token { kind: TokenKind::Identifier, text, line: start.line, column: start.column })
    }

    // ========== Statements ==========

    fn parse_program(&mut self, depth: usize) -> (r: Result<usize, ParseError>)
        requires
            old(self).ok(),
        ensures
            final(self).kept(&*old(self)),
            r matches Ok(idx) ==> idx < final(self).nodes@.len() && final(self).nodes@[idx as int].node_type
                == NodeType::Program && final(self).nodes@[idx as int].token is None,
            blank_from(old(self).tokens@, old(self).pos as int) ==> (r matches Ok(idx)
                && final(self).nodes@[idx as int].first_child is None),
    {
        let mut stmts: Vec<usize> = Vec::new();
        self.skip_newlines();
        proof {
            if blank_from(old(self).tokens@, old(self).pos as int) {
                assert(self.pos == self.tokens@.len() - 1);
            }
        }
        while self.peek() != TokenKind::Eof
            invariant
                self.kept(&*old(self)),
                blank_from(old(self).tokens@, old(self).pos as int) ==> stmts@.len() == 0 && self.pos
                    == self.tokens@.len() - 1,
            decreases self.tokens@.len() - self.pos,
        {
            let s = self.parse_statement(depth)?;
            stmts.push(s);
            match self.peek() {
                TokenKind::Newline => {
                    self.skip_newlines();
                },
                TokenKind::Eof => {},
                _ => {
                    return Err(self.error("Expected end of line"));
                },
            }
        }
        Ok(self.new_node(NodeType::Program, None, &stmts))
    }

    fn parse_statement(&mut self, depth: usize) -> (r: Result<usize, ParseError>)
        requires
            old(self).ok(),
        ensures
            final(self).kept(&*old(self)),
            r is Ok ==> final(self).pos > old(self).pos,
            depth >= 4 && simple_expr(old(self).tokens@, old(self).pos as int) && ends_statement(kind_at(old(self).tokens@, old(self).pos as int + 1)) ==> (r matches Ok(i) && final(self).pos == old(self).pos + 1 && made(&*final(self), i, NodeType::ExprStmt)),
        decreases depth, 2usize,
    {
        if depth == 0 {
            return Err(self.error("Nesting too deep"));
        }
        match self.peek() {
            TokenKind::Module => self.parse_module_decl(),
            TokenKind::Export => self.parse_export(),
            TokenKind::Import => self.parse_import(),
            TokenKind::TypeKw => self.parse_type_decl(depth - 1),
            TokenKind::Return => self.parse_return(depth - 1),
            TokenKind::Identifier => {
                let k1 = self.peek_at(1);
                let k2 = self.peek_at(2);
                let k3 = self.peek_at(3);
                if k1 == TokenKind::Colon || (k1 == TokenKind::Identifier && k2 == TokenKind::Colon) {
                    self.parse_declaration(depth - 1)
                } else if k1 == TokenKind::Dot && k2 == TokenKind::Identifier && k3
                    == TokenKind::Colon {
                    self.parse_property_assignment(depth - 1)
                } else {
                    self.parse_expr_stmt(depth - 1)
                }
            },
            TokenKind::This => {
                if self.peek_at(1) == TokenKind::Dot && self.peek_at(2) == TokenKind::Identifier
                    && self.peek_at(3) == TokenKind::Colon {
                    self.parse_property_assignment(depth - 1)
                } else {
                    self.parse_expr_stmt(depth - 1)
                }
            },
            _ => self.parse_expr_stmt(depth - 1),
        }
    }

    fn parse_expr_stmt(&mut self, depth: usize) -> (r: Result<usize, ParseError>)
        requires
            old(self).ok(),
        ensures
            final(self).kept(&*old(self)),
            r is Ok ==> final(self).pos > old(self).pos,
            depth >= 3 && simple_expr(old(self).tokens@, old(self).pos as int) ==> (r matches Ok(i) && final(self).pos == old(self).pos + 1 && made(&*final(self), i, NodeType::ExprStmt)),
        decreases depth, 1usize,
    {
        let t = self.current();
        let e = self.parse_expression(depth)?;
        let mut children: Vec<usize> = Vec::new();
        children.push(e);
        Ok(self.new_node(NodeType::ExprStmt, Some(t), &children))
    }

    fn parse_property_assignment(&mut self, depth: usize) -> (r: Result<usize, ParseError>)
        requires
            old(self).ok(),
        ensures
            final(self).kept(&*old(self)),
            r is Ok ==> final(self).pos > old(self).pos,
            depth >= 4 && kind_at(old(self).tokens@, old(self).pos as int) == TokenKind::Identifier && kind_at(old(self).tokens@, old(self).pos as int + 1) == TokenKind::Dot && kind_at(old(self).tokens@, old(self).pos as int + 2) == TokenKind::Identifier && kind_at(old(self).tokens@, old(self).pos as int + 3) == TokenKind::Colon && simple_expr(old(self).tokens@, old(self).pos as int + 4) ==> (r matches Ok(i) && final(self).pos == old(self).pos + 5 && made(&*final(self), i, NodeType::PropertyAssignment)),
        decreases depth, 3usize,
    {
        if depth == 0 {
            return Err(self.error("Nesting too deep"));
        }
        let t = self.current();
        let receiver = if self.peek() == TokenKind::This {
            self.leaf(NodeType::This)
        } else if self.peek() == TokenKind::Identifier {
            self.leaf(NodeType::Identifier)
        } else {
            return Err(self.error("Expected name"));
        };
        self.expect(TokenKind::Dot, "Expected '.'")?;
        let dot_pos = self.pos;
        if self.peek() != TokenKind::Identifier {
            return Err(self.error("Expected property name"));
        }
        let prop = self.leaf(NodeType::Identifier);
        let mut access_children: Vec<usize> = Vec::new();
        access_children.push(receiver);
        access_children.push(prop);
        let access = self.new_node(NodeType::PropertyAccess, Some(t.clone()), &access_children);
        self.expect(TokenKind::Colon, "Expected ':'")?;
        let value = self.parse_expression(depth - 1)?;
        let mut children: Vec<usize> = Vec::new();
        children.push(access);
        children.push(value);
        Ok(self.new_node(NodeType::PropertyAssignment, Some(t), &children))
    }

    fn parse_module_decl(&mut self) -> (r: Result<usize, ParseError>)
        requires
            old(self).ok(),
        ensures
            final(self).kept(&*old(self)),
            r is Ok ==> final(self).pos > old(self).pos,
            kind_at(old(self).tokens@, old(self).pos as int) == TokenKind::Module && kind_at(old(self).tokens@, old(self).pos as int + 1) == TokenKind::Identifier && kind_at(old(self).tokens@, old(self).pos as int + 2) != TokenKind::Dot ==> (r matches Ok(i) && final(self).pos == old(self).pos + 2 && made(&*final(self), i, NodeType::ModuleDecl)),
    {
        let kw = self.expect(TokenKind::Module, "Expected 'module'")?;
        let path = self.parse_path(true)?;
        let none: Vec<usize> = Vec::new();
        let p = self.new_node(NodeType::ModulePath, Some(path), &none);
        let mut children: Vec<usize> = Vec::new();
        children.push(p);
        Ok(self.new_node(NodeType::ModuleDecl, Some(kw), &children))
    }

    fn parse_export(&mut self) -> (r: Result<usize, ParseError>)
        requires
            old(self).ok(),
        ensures
            final(self).kept(&*old(self)),
            r is Ok ==> final(self).pos > old(self).pos,
            kind_at(old(self).tokens@, old(self).pos as int) == TokenKind::Export && kind_at(old(self).tokens@, old(self).pos as int + 1) == TokenKind::LBrace && kind_at(old(self).tokens@, old(self).pos as int + 2) == TokenKind::RBrace ==> (r matches Ok(i) && final(self).pos == old(self).pos + 3 && made(&*final(self), i, NodeType::Export)),
    {
        let kw = self.expect(TokenKind::Export, "Expected 'export'")?;
        let lb = self.expect(TokenKind::LBrace, "Expected '{'")?;
        let mut names: Vec<usize> = Vec::new();
        self.skip_newlines();
        while self.peek() != TokenKind::RBrace
            invariant
                kind_at(old(self).tokens@, old(self).pos as int) == TokenKind::Export && kind_at(old(self).tokens@, old(self).pos as int + 1) == TokenKind::LBrace && kind_at(old(self).tokens@, old(self).pos as int + 2) == TokenKind::RBrace ==> self.pos == old(self).pos + 2,
                self.kept(&*old(self)),
                self.pos > old(self).pos,
            decreases self.tokens@.len() - self.pos,
        {
            if self.peek() != TokenKind::Identifier {
                return Err(self.error("Expected exported name"));
            }
            names.push(self.leaf(NodeType::Identifier));
            self.skip_newlines();
            if self.peek() == TokenKind::Comma {
                self.advance();
                self.skip_newlines();
            } else if self.peek() != TokenKind::RBrace {
                return Err(self.error("Expected ',' or '}'"));
            }
        }
        self.advance();
        let list = self.new_node(NodeType::ExportList, Some(lb), &names);
        let mut children: Vec<usize> = Vec::new();
        children.push(list);
        Ok(self.new_node(NodeType::Export, Some(kw), &children))
    }

    fn parse_import_item(&mut self) -> (r: Result<usize, ParseError>)
        requires
            old(self).ok(),
        ensures
            final(self).kept(&*old(self)),
            r is Ok ==> final(self).pos > old(self).pos,
            kind_at(old(self).tokens@, old(self).pos as int) == TokenKind::Identifier && kind_at(old(self).tokens@, old(self).pos as int + 1) != TokenKind::Colon && kind_at(old(self).tokens@, old(self).pos as int + 1) != TokenKind::Dot ==> (r matches Ok(i) && final(self).pos == old(self).pos + 1 && made(&*final(self), i, NodeType::ImportItem)),
    {
        let start = self.current();
        let mut children: Vec<usize> = Vec::new();
        if self.peek() == TokenKind::Star {
            children.push(self.leaf(NodeType::Identifier));
            self.expect(TokenKind::Colon, "Expected ':' after '*'")?;
        } else if self.peek() == TokenKind::LBrace {
            let lb = self.current();
            self.advance();
            let mut selectors: Vec<usize> = Vec::new();
            while self.peek() != TokenKind::RBrace
                invariant
                    kind_at(old(self).tokens@, old(self).pos as int) == TokenKind::LBrace,
                    self.kept(&*old(self)),
                    self.pos > old(self).pos,
                decreases self.tokens@.len() - self.pos,
            {
                if self.peek() != TokenKind::Identifier {
                    return Err(self.error("Expected imported name"));
                }
                selectors.push(self.leaf(NodeType::ImportSelector));
                if self.peek() == TokenKind::Comma {
                    self.advance();
                } else if self.peek() != TokenKind::RBrace {
                    return Err(self.error("Expected ',' or '}'"));
                }
            }
            self.advance();
            children.push(self.new_node(NodeType::ImportSelective, Some(lb), &selectors));
            self.expect(TokenKind::Colon, "Expected ':' after selection")?;
        } else if self.peek() == TokenKind::Identifier && self.peek_at(1) == TokenKind::Colon {
            children.push(self.leaf(NodeType::ImportAlias));
            self.advance();
        }
        let path = self.parse_path(false)?;
        let none: Vec<usize> = Vec::new();
        children.push(self.new_node(NodeType::Identifier, Some(path), &none));
        Ok(self.new_node(NodeType::ImportItem, Some(start), &children))
    }

    fn parse_import(&mut self) -> (r: Result<usize, ParseError>)
        requires
            old(self).ok(),
        ensures
            final(self).kept(&*old(self)),
            r is Ok ==> final(self).pos > old(self).pos,
            kind_at(old(self).tokens@, old(self).pos as int) == TokenKind::Import && kind_at(old(self).tokens@, old(self).pos as int + 1) == TokenKind::LBrace && kind_at(old(self).tokens@, old(self).pos as int + 2) == TokenKind::RBrace ==> (r matches Ok(i) && final(self).pos == old(self).pos + 3 && made(&*final(self), i, NodeType::Import)),
    {
        let kw = self.expect(TokenKind::Import, "Expected 'import'")?;
        let lb = self.expect(TokenKind::LBrace, "Expected '{'")?;
        let mut items: Vec<usize> = Vec::new();
        self.skip_newlines();
        while self.peek() != TokenKind::RBrace
            invariant
                kind_at(old(self).tokens@, old(self).pos as int) == TokenKind::Import && kind_at(old(self).tokens@, old(self).pos as int + 1) == TokenKind::LBrace && kind_at(old(self).tokens@, old(self).pos as int + 2) == TokenKind::RBrace ==> self.pos == old(self).pos + 2,
                self.kept(&*old(self)),
                self.pos > old(self).pos,
            decreases self.tokens@.len() - self.pos,
        {
            let item = self.parse_import_item()?;
            items.push(item);
            self.skip_newlines();
            if self.peek() == TokenKind::Comma {
                self.advance();
                self.skip_newlines();
            } else if self.peek() != TokenKind::RBrace {
                return Err(self.error("Expected ',' or '}'"));
            }
        }
        self.advance();
        let list = self.new_node(NodeType::ImportList, Some(lb), &items);
        let mut children: Vec<usize> = Vec::new();
        children.push(list);
        Ok(self.new_node(NodeType::Import, Some(kw), &children))
    }

    fn parse_return(&mut self, depth: usize) -> (r: Result<usize, ParseError>)
        requires
            old(self).ok(),
        ensures
            final(self).kept(&*old(self)),
            r is Ok ==> final(self).pos > old(self).pos,
            kind_at(old(self).tokens@, old(self).pos as int) == TokenKind::Return && ends_statement(kind_at(old(self).tokens@, old(self).pos as int + 1)) ==> (r matches Ok(i) && final(self).pos == old(self).pos + 1 && made(&*final(self), i, NodeType::ReturnStmt)),
        decreases depth, 3usize,
    {
        let kw = self.expect(TokenKind::Return, "Expected 'return'")?;
        let mut children: Vec<usize> = Vec::new();
        match self.peek() {
            TokenKind::Newline | TokenKind::RBrace | TokenKind::Eof => {},
            _ => {
                let e = self.parse_expression(depth)?;
                children.push(e);
            },
        }
        Ok(self.new_node(NodeType::ReturnStmt, Some(kw), &children))
    }

    /// `name [Type]: value` or `name: (params) [Type] { body }`
    fn parse_declaration(&mut self, depth: usize) -> (r: Result<usize, ParseError>)
        requires
            old(self).ok(),
        ensures
            final(self).kept(&*old(self)),
            r is Ok ==> final(self).pos > old(self).pos,
            depth >= 3 && kind_at(old(self).tokens@, old(self).pos as int) == TokenKind::Identifier && kind_at(old(self).tokens@, old(self).pos as int + 1) == TokenKind::Colon && simple_expr(old(self).tokens@, old(self).pos as int + 2) ==> (r matches Ok(i) && final(self).pos == old(self).pos + 3 && made(&*final(self), i, NodeType::VarDecl)),
        decreases depth, 3usize,
    {
        if self.peek() != TokenKind::Identifier {
            return Err(self.error("Expected name"));
        }
        let name_tok = self.current();
        let name = self.leaf(NodeType::Identifier);
        let mut children: Vec<usize> = Vec::new();
        children.push(name);
        if self.peek() == TokenKind::Identifier {
            children.push(self.leaf(NodeType::TypeAnnotation));
        }
        self.expect(TokenKind::Colon, "Expected ':'")?;
        if self.peek() == TokenKind::LParen && children.len() == 1 {
            self.parse_function_rest(depth, name_tok, children)
        } else {
            let value = self.parse_expression(depth)?;
            children.push(value);
            Ok(self.new_node(NodeType::VarDecl, Some(name_tok), &children))
        }
    }

    /// Parameters `(a Type, b)` as `Param` nodes under `list_kind`.
    fn parse_params(&mut self, list_kind: NodeType) -> (r: Result<usize, ParseError>)
        requires
            old(self).ok(),
        ensures
            final(self).kept(&*old(self)),
            r is Ok ==> final(self).pos > old(self).pos,
            kind_at(old(self).tokens@, old(self).pos as int) == TokenKind::LParen && kind_at(old(self).tokens@, old(self).pos as int + 1) == TokenKind::RParen ==> (r matches Ok(i) && final(self).pos == old(self).pos + 2 && made(&*final(self), i, list_kind)),
    {
        let lp = self.expect(TokenKind::LParen, "Expected '('")?;
        let mut params: Vec<usize> = Vec::new();
        while self.peek() != TokenKind::RParen
            invariant
                kind_at(old(self).tokens@, old(self).pos as int) == TokenKind::LParen && kind_at(old(self).tokens@, old(self).pos as int + 1) == TokenKind::RParen ==> self.pos == old(self).pos + 1,
                self.kept(&*old(self)),
                self.pos > old(self).pos,
            decreases self.tokens@.len() - self.pos,
        {
            if self.peek() != TokenKind::Identifier {
                return Err(self.error("Expected parameter name"));
            }
            let pt = self.current();
            let mut pchildren: Vec<usize> = Vec::new();
            pchildren.push(self.leaf(NodeType::Identifier));
            if self.peek() == TokenKind::Identifier {
                pchildren.push(self.leaf(NodeType::TypeAnnotation));
            }
            let param_kind = if list_kind == NodeType::FunctionTypeParams {
                NodeType::StructField
            } else {
                NodeType::Param
            };
            params.push(self.new_node(param_kind, Some(pt), &pchildren));
            if self.peek() == TokenKind::Comma {
                self.advance();
            } else if self.peek() != TokenKind::RParen {
                return Err(self.error("Expected ',' or ')'"));
            }
        }
        self.advance();
        Ok(self.new_node(list_kind, Some(lp), &params))
    }

    /// The rest of a function after `name:` — parameters, return type, body.
    fn parse_function_rest(&mut self, depth: usize, name_tok: Token, children: Vec<usize>) -> (r:
        Result<usize, ParseError>)
        requires
            old(self).ok(),
        ensures
            final(self).kept(&*old(self)),
            r is Ok ==> final(self).pos > old(self).pos,
            depth >= 1 && kind_at(old(self).tokens@, old(self).pos as int) == TokenKind::LParen && kind_at(old(self).tokens@, old(self).pos as int + 1) == TokenKind::RParen && kind_at(old(self).tokens@, old(self).pos as int + 2) == TokenKind::LBrace && kind_at(old(self).tokens@, old(self).pos as int + 3) == TokenKind::RBrace ==> (r matches Ok(i) && final(self).pos == old(self).pos + 4 && made(&*final(self), i, NodeType::FunctionDecl)),
        decreases depth, 2usize,
    {
        let mut children = children;
        let params = self.parse_params(NodeType::ParamList)?;
        children.push(params);
        if self.peek() == TokenKind::Identifier {
            children.push(self.leaf(NodeType::TypeAnnotation));
        }
        let body = self.parse_block(depth)?;
        children.push(body);
        Ok(self.new_node(NodeType::FunctionDecl, Some(name_tok), &children))
    }

    fn parse_block(&mut self, depth: usize) -> (r: Result<usize, ParseError>)
        requires
            old(self).ok(),
        ensures
            final(self).kept(&*old(self)),
            r is Ok ==> final(self).pos > old(self).pos,
            depth >= 1 && kind_at(old(self).tokens@, old(self).pos as int) == TokenKind::LBrace && kind_at(old(self).tokens@, old(self).pos as int + 1) == TokenKind::RBrace ==> (r matches Ok(i) && final(self).pos == old(self).pos + 2 && made(&*final(self), i, NodeType::Block)),
        decreases depth, 1usize,
    {
        if depth == 0 {
            return Err(self.error("Nesting too deep"));
        }
        let lb = self.expect(TokenKind::LBrace, "Expected '{'")?;
        let mut stmts: Vec<usize> = Vec::new();
        self.skip_newlines();
        while self.peek() != TokenKind::RBrace
            invariant
                kind_at(old(self).tokens@, old(self).pos as int) == TokenKind::LBrace && kind_at(old(self).tokens@, old(self).pos as int + 1) == TokenKind::RBrace ==> self.pos == old(self).pos + 1,
                self.kept(&*old(self)),
                self.pos > old(self).pos,
                depth > 0,
            decreases self.tokens@.len() - self.pos,
        {
            if self.peek() == TokenKind::Eof {
                return Err(self.error("Expected '}'"));
            }
            let s = self.parse_statement(depth - 1)?;
            stmts.push(s);
            match self.peek() {
                TokenKind::Newline => {
                    self.skip_newlines();
                },
                TokenKind::RBrace => {},
                _ => {
                    return Err(self.error("Expected end of line"));
                },
            }
        }
        self.advance();
        Ok(self.new_node(NodeType::Block, Some(lb), &stmts))
    }

    // ========== Type declarations ==========

    /// A type reference such as `Number` or `Box<T>`; its text is the name.
    fn parse_type_ref(&mut self) -> (r: Result<usize, ParseError>)
        requires
            old(self).ok(),
        ensures
            final(self).kept(&*old(self)),
            r is Ok ==> final(self).pos > old(self).pos,
            (r is Ok <==> kind_at(old(self).tokens@, old(self).pos as int) == TokenKind::Identifier) && (r is Ok ==> (r matches Ok(i) && final(self).pos == old(self).pos + 1 && made(&*final(self), i, NodeType::TypeAnnotation))),
    {
        if self.peek() != TokenKind::Identifier {
            return Err(self.error("Expected type name"));
        }
        Ok(self.leaf(NodeType::TypeAnnotation))
    }

    /// `{ field Type, method: (params) Type }` (commas or line breaks between members)
    fn parse_struct_body(&mut self) -> (r: Result<usize, ParseError>)
        requires
            old(self).ok(),
        ensures
            final(self).kept(&*old(self)),
            r is Ok ==> final(self).pos > old(self).pos,
            kind_at(old(self).tokens@, old(self).pos as int) == TokenKind::LBrace && kind_at(old(self).tokens@, old(self).pos as int + 1) == TokenKind::RBrace ==> (r matches Ok(i) && final(self).pos == old(self).pos + 2 && made(&*final(self), i, NodeType::StructBody)),
    {
        let lb = self.expect(TokenKind::LBrace, "Expected '{'")?;
        let mut members: Vec<usize> = Vec::new();
        self.skip_newlines();
        while self.peek() != TokenKind::RBrace
            invariant
                kind_at(old(self).tokens@, old(self).pos as int) == TokenKind::LBrace && kind_at(old(self).tokens@, old(self).pos as int + 1) == TokenKind::RBrace ==> self.pos == old(self).pos + 1,
                self.kept(&*old(self)),
                self.pos > old(self).pos,
            decreases self.tokens@.len() - self.pos,
        {
            if self.peek() != TokenKind::Identifier {
                return Err(self.error("Expected member name"));
            }
            let mt = self.current();
            let mut mchildren: Vec<usize> = Vec::new();
            mchildren.push(self.leaf(NodeType::Identifier));
            if self.peek() == TokenKind::Colon {
                self.advance();
                let ft = self.parse_function_type()?;
                mchildren.push(ft);
                members.push(self.new_node(NodeType::StructMethod, Some(mt), &mchildren));
            } else {
                let ty = self.parse_type_ref()?;
                mchildren.push(ty);
                members.push(self.new_node(NodeType::StructField, Some(mt), &mchildren));
            }
            if self.peek() == TokenKind::Comma {
                self.advance();
            }
            self.skip_newlines();
        }
        self.advance();
        Ok(self.new_node(NodeType::StructBody, Some(lb), &members))
    }

    /// `(a Type, b Type) Type`
    fn parse_function_type(&mut self) -> (r: Result<usize, ParseError>)
        requires
            old(self).ok(),
        ensures
            final(self).kept(&*old(self)),
            r is Ok ==> final(self).pos > old(self).pos,
            kind_at(old(self).tokens@, old(self).pos as int) == TokenKind::LParen && kind_at(old(self).tokens@, old(self).pos as int + 1) == TokenKind::RParen && kind_at(old(self).tokens@, old(self).pos as int + 2) != TokenKind::Identifier ==> (r matches Ok(i) && final(self).pos == old(self).pos + 2 && made(&*final(self), i, NodeType::FunctionType)),
    {
        let t = self.current();
        let params = self.parse_params(NodeType::FunctionTypeParams)?;
        let mut children: Vec<usize> = Vec::new();
        children.push(params);
        if self.peek() == TokenKind::Identifier {
            children.push(self.leaf(NodeType::TypeAnnotation));
        }
        Ok(self.new_node(NodeType::FunctionType, Some(t), &children))
    }

    fn parse_intersection_operand(&mut self) -> (r: Result<usize, ParseError>)
        requires
            old(self).ok(),
        ensures
            final(self).kept(&*old(self)),
            r is Ok ==> final(self).pos > old(self).pos,
            (kind_at(old(self).tokens@, old(self).pos as int) == TokenKind::Identifier ==> (r matches Ok(i) && final(self).pos == old(self).pos + 1 && made(&*final(self), i, NodeType::TypeAnnotation))) && (kind_at(old(self).tokens@, old(self).pos as int) == TokenKind::LBrace && kind_at(old(self).tokens@, old(self).pos as int + 1) == TokenKind::RBrace ==> (r matches Ok(i) && final(self).pos == old(self).pos + 2 && made(&*final(self), i, NodeType::StructBody))),
    {
        if self.peek() == TokenKind::LBrace {
            self.parse_struct_body()
        } else {
            self.parse_type_ref()
        }
    }

    fn parse_type_body(&mut self) -> (r: Result<usize, ParseError>)
        requires
            old(self).ok(),
        ensures
            final(self).kept(&*old(self)),
            r is Ok ==> final(self).pos > old(self).pos,
            kind_at(old(self).tokens@, old(self).pos as int) == TokenKind::Identifier && kind_at(old(self).tokens@, old(self).pos as int + 1) != TokenKind::Plus && kind_at(old(self).tokens@, old(self).pos as int + 1) != TokenKind::Comma ==> (r matches Ok(i) && final(self).pos == old(self).pos + 1 && made(&*final(self), i, NodeType::TypeBody)),
    {
        let t = self.current();
        let mut children: Vec<usize> = Vec::new();
        if self.peek() == TokenKind::LParen {
            let ft = self.parse_function_type()?;
            children.push(ft);
            return Ok(self.new_node(NodeType::TypeBody, Some(t), &children));
        }
        let first = self.parse_intersection_operand()?;
        if self.peek() == TokenKind::Plus {
            let mut left = first;
            while self.peek() == TokenKind::Plus
                invariant
                    !(kind_at(old(self).tokens@, old(self).pos as int) == TokenKind::Identifier && kind_at(old(self).tokens@, old(self).pos as int + 1) != TokenKind::Plus && kind_at(old(self).tokens@, old(self).pos as int + 1) != TokenKind::Comma),
                    self.kept(&*old(self)),
                    self.pos > old(self).pos,
                decreases self.tokens@.len() - self.pos,
            {
                let plus = self.current();
                self.advance();
                let right = self.parse_intersection_operand()?;
                let mut pair: Vec<usize> = Vec::new();
                pair.push(left);
                pair.push(right);
                left = self.new_node(NodeType::IntersectionType, Some(plus), &pair);
            }
            children.push(left);
        } else if self.peek() == TokenKind::Comma {
            let mut members: Vec<usize> = Vec::new();
            members.push(first);
            while self.peek() == TokenKind::Comma
                invariant
                    !(kind_at(old(self).tokens@, old(self).pos as int) == TokenKind::Identifier && kind_at(old(self).tokens@, old(self).pos as int + 1) != TokenKind::Plus && kind_at(old(self).tokens@, old(self).pos as int + 1) != TokenKind::Comma),
                    self.kept(&*old(self)),
                    self.pos > old(self).pos,
                decreases self.tokens@.len() - self.pos,
            {
                self.advance();
                let next = self.parse_type_ref()?;
                members.push(next);
            }
            children.push(self.new_node(NodeType::UnionTypeList, Some(t.clone()), &members));
        } else {
            children.push(first);
        }
        Ok(self.new_node(NodeType::TypeBody, Some(t), &children))
    }

    /// `type Name[<T, U: C>][: body]`
    fn parse_type_decl(&mut self, depth: usize) -> (r: Result<usize, ParseError>)
        requires
            old(self).ok(),
        ensures
            final(self).kept(&*old(self)),
            r is Ok ==> final(self).pos > old(self).pos,
            kind_at(old(self).tokens@, old(self).pos as int) == TokenKind::TypeKw && kind_at(old(self).tokens@, old(self).pos as int + 1) == TokenKind::Identifier && kind_at(old(self).tokens@, old(self).pos as int + 2) != TokenKind::Lt && kind_at(old(self).tokens@, old(self).pos as int + 2) != TokenKind::Colon ==> (r matches Ok(i) && final(self).pos == old(self).pos + 2 && made(&*final(self), i, NodeType::TypeDecl)),
        decreases depth, 3usize,
    {
        let kw = self.expect(TokenKind::TypeKw, "Expected 'type'")?;
        if self.peek() != TokenKind::Identifier {
            return Err(self.error("Expected type name"));
        }
        let mut children: Vec<usize> = Vec::new();
        children.push(self.leaf(NodeType::TypeName));
        if self.peek() == TokenKind::Lt {
            let lt = self.current();
            self.advance();
            let mut params: Vec<usize> = Vec::new();
            while self.peek() != TokenKind::Gt
                invariant
                    kind_at(old(self).tokens@, old(self).pos as int + 2) == TokenKind::Lt,
                    self.kept(&*old(self)),
                    self.pos > old(self).pos,
                decreases self.tokens@.len() - self.pos,
            {
                if self.peek() != TokenKind::Identifier {
                    return Err(self.error("Expected type parameter"));
                }
                let pt = self.current();
                let mut pchildren: Vec<usize> = Vec::new();
                pchildren.push(self.leaf(NodeType::Identifier));
                if self.peek() == TokenKind::Colon {
                    self.advance();
                    if self.peek() != TokenKind::Identifier {
                        return Err(self.error("Expected constraint type"));
                    }
                    pchildren.push(self.leaf(NodeType::TypeConstraint));
                }
                params.push(self.new_node(NodeType::TypeParam, Some(pt), &pchildren));
                if self.peek() == TokenKind::Comma {
                    self.advance();
                } else if self.peek() != TokenKind::Gt {
                    return Err(self.error("Expected ',' or '>'"));
                }
            }
            self.advance();
            children.push(self.new_node(NodeType::TypeParams, Some(lt), &params));
        }
        if self.peek() == TokenKind::Colon {
            self.advance();
            let body = self.parse_type_body()?;
            children.push(body);
        } else {
            let none: Vec<usize> = Vec::new();
            children.push(self.new_node(NodeType::TypeBody, None, &none));
        }
        Ok(self.new_node(NodeType::TypeDecl, Some(kw), &children))
    }

    // ========== Expressions ==========

    fn parse_expression(&mut self, depth: usize) -> (r: Result<usize, ParseError>)
        requires
            old(self).ok(),
        ensures
            final(self).kept(&*old(self)),
            r is Ok ==> final(self).pos > old(self).pos,
            depth >= 3 && simple_expr(old(self).tokens@, old(self).pos as int) ==> (r matches Ok(i) && final(self).pos
                == old(self).pos + 1 && made(&*final(self), i, atom_node(kind_at(old(self).tokens@, old(self).pos as int)))),
        decreases depth, 0usize,
    {
        if depth == 0 {
            return Err(self.error("Nesting too deep"));
        }
        let mut left = self.parse_or(depth - 1)?;
        while self.peek() == TokenKind::Pipe
            invariant
                self.kept(&*old(self)),
                self.pos > old(self).pos,
                depth > 0,
                depth >= 3 && simple_expr(old(self).tokens@, old(self).pos as int) ==> (self.pos == old(self).pos + 1
                    && made(&*self, left, atom_node(kind_at(old(self).tokens@, old(self).pos as int)))),
            decreases self.tokens@.len() - self.pos,
        {
            let op = self.current();
            self.advance();
            let right = self.parse_or(depth - 1)?;
            let mut pair: Vec<usize> = Vec::new();
            pair.push(left);
            pair.push(right);
            left = self.new_node(NodeType::Pipe, Some(op), &pair);
        }
        Ok(left)
    }

    fn parse_or(&mut self, depth: usize) -> (r: Result<usize, ParseError>)
        requires
            old(self).ok(),
        ensures
            final(self).kept(&*old(self)),
            r is Ok ==> final(self).pos > old(self).pos,
            depth >= 2 && simple_expr(old(self).tokens@, old(self).pos as int) ==> (r matches Ok(i) && final(self).pos
                == old(self).pos + 1 && made(&*final(self), i, atom_node(kind_at(old(self).tokens@, old(self).pos as int)))),
        decreases depth, 6usize,
    {
        let mut left = self.parse_and(depth)?;
        while self.peek() == TokenKind::Or
            invariant
                self.kept(&*old(self)),
                self.pos > old(self).pos,
                depth >= 2 && simple_expr(old(self).tokens@, old(self).pos as int) ==> (self.pos == old(self).pos + 1
                    && made(&*self, left, atom_node(kind_at(old(self).tokens@, old(self).pos as int)))),
            decreases self.tokens@.len() - self.pos,
        {
            let op = self.current();
            self.advance();
            let right = self.parse_and(depth)?;
            let mut pair: Vec<usize> = Vec::new();
            pair.push(left);
            pair.push(right);
            left = self.new_node(NodeType::Or, Some(op), &pair);
        }
        Ok(left)
    }

    fn parse_and(&mut self, depth: usize) -> (r: Result<usize, ParseError>)
        requires
            old(self).ok(),
        ensures
            final(self).kept(&*old(self)),
            r is Ok ==> final(self).pos > old(self).pos,
            depth >= 2 && simple_expr(old(self).tokens@, old(self).pos as int) ==> (r matches Ok(i) && final(self).pos
                == old(self).pos + 1 && made(&*final(self), i, atom_node(kind_at(old(self).tokens@, old(self).pos as int)))),
        decreases depth, 5usize,
    {
        let mut left = self.parse_unary(depth)?;
        while self.peek() == TokenKind::And
            invariant
                self.kept(&*old(self)),
                self.pos > old(self).pos,
                depth >= 2 && simple_expr(old(self).tokens@, old(self).pos as int) ==> (self.pos == old(self).pos + 1
                    && made(&*self, left, atom_node(kind_at(old(self).tokens@, old(self).pos as int)))),
            decreases self.tokens@.len() - self.pos,
        {
            let op = self.current();
            self.advance();
            let right = self.parse_unary(depth)?;
            let mut pair: Vec<usize> = Vec::new();
            pair.push(left);
            pair.push(right);
            left = self.new_node(NodeType::And, Some(op), &pair);
        }
        Ok(left)
    }

    fn parse_unary(&mut self, depth: usize) -> (r: Result<usize, ParseError>)
        requires
            old(self).ok(),
        ensures
            final(self).kept(&*old(self)),
            r is Ok ==> final(self).pos > old(self).pos,
            depth >= 2 && simple_expr(old(self).tokens@, old(self).pos as int) ==> (r matches Ok(i) && final(self).pos
                == old(self).pos + 1 && made(&*final(self), i, atom_node(kind_at(old(self).tokens@, old(self).pos as int)))),
        decreases depth, 4usize,
    {
        if depth == 0 {
            return Err(self.error("Nesting too deep"));
        }
        if self.peek() == TokenKind::Not || self.peek() == TokenKind::Minus || self.peek() == TokenKind::Try
            || self.peek() == TokenKind::Partial {
            let op = self.current();
            let kind = if self.peek() == TokenKind::Not {
                NodeType::Not
            } else if self.peek() == TokenKind::Minus {
                NodeType::Negate
            } else if self.peek() == TokenKind::Try {
                NodeType::Try
            } else {
                NodeType::Partial
            };
            self.advance();
            let operand = self.parse_unary(depth - 1)?;
            let mut children: Vec<usize> = Vec::new();
            children.push(operand);
            return Ok(self.new_node(kind, Some(op), &children));
        }
        self.parse_postfix(depth)
    }

    fn parse_args(&mut self, depth: usize) -> (r: Result<usize, ParseError>)
        requires
            old(self).ok(),
        ensures
            final(self).kept(&*old(self)),
            r is Ok ==> final(self).pos > old(self).pos,
            kind_at(old(self).tokens@, old(self).pos as int) == TokenKind::LParen && kind_at(old(self).tokens@, old(self).pos as int + 1) == TokenKind::RParen ==> (r matches Ok(i) && final(self).pos == old(self).pos + 2 && made(&*final(self), i, NodeType::ArgList)),
        decreases depth, 2usize,
    {
        let lp = self.expect(TokenKind::LParen, "Expected '('")?;
        let mut args: Vec<usize> = Vec::new();
        while self.peek() != TokenKind::RParen
            invariant
                kind_at(old(self).tokens@, old(self).pos as int) == TokenKind::LParen && kind_at(old(self).tokens@, old(self).pos as int + 1) == TokenKind::RParen ==> self.pos == old(self).pos + 1,
                self.kept(&*old(self)),
                self.pos > old(self).pos,
            decreases self.tokens@.len() - self.pos,
        {
            let a = self.parse_expression(depth)?;
            args.push(a);
            if self.peek() == TokenKind::Comma {
                self.advance();
            } else if self.peek() != TokenKind::RParen {
                return Err(self.error("Expected ',' or ')'"));
            }
        }
        self.advance();
        Ok(self.new_node(NodeType::ArgList, Some(lp), &args))
    }

    fn parse_postfix(&mut self, depth: usize) -> (r: Result<usize, ParseError>)
        requires
            old(self).ok(),
        ensures
            final(self).kept(&*old(self)),
            r is Ok ==> final(self).pos > old(self).pos,
            depth >= 2 && simple_expr(old(self).tokens@, old(self).pos as int) ==> (r matches Ok(i) && final(self).pos
                == old(self).pos + 1 && made(&*final(self), i, atom_node(kind_at(old(self).tokens@, old(self).pos as int)))),
        decreases depth, 3usize,
    {
        if depth == 0 {
            return Err(self.error("Nesting too deep"));
        }
        let start = self.current();
        let is_name = self.peek() == TokenKind::Identifier;
        let mut expr = self.parse_primary(depth - 1)?;
        if is_name && self.peek() == TokenKind::LParen {
            let args = self.parse_args(depth - 1)?;
            let mut children: Vec<usize> = Vec::new();
            children.push(expr);
            children.push(args);
            expr = self.new_node(NodeType::FunctionCall, Some(start), &children);
        }
        while self.peek() == TokenKind::Dot
            invariant
                self.kept(&*old(self)),
                self.pos > old(self).pos,
                depth > 0,
                depth >= 2 && simple_expr(old(self).tokens@, old(self).pos as int) ==> (self.pos == old(self).pos + 1
                    && made(&*self, expr, atom_node(kind_at(old(self).tokens@, old(self).pos as int)))),
            decreases self.tokens@.len() - self.pos,
        {
            let dot = self.current();
            self.advance();
            if self.peek() != TokenKind::Identifier {
                return Err(self.error("Expected member name"));
            }
            let member = self.leaf(NodeType::Identifier);
            let mut children: Vec<usize> = Vec::new();
            children.push(expr);
            children.push(member);
            if self.peek() == TokenKind::LParen {
                let args = self.parse_args(depth - 1)?;
                children.push(args);
                expr = self.new_node(NodeType::MethodCall, Some(dot), &children);
            } else {
                expr = self.new_node(NodeType::PropertyAccess, Some(dot), &children);
            }
        }
        Ok(expr)
    }

    fn parse_primary(&mut self, depth: usize) -> (r: Result<usize, ParseError>)
        requires
            old(self).ok(),
        ensures
            final(self).kept(&*old(self)),
            r is Ok ==> final(self).pos > old(self).pos,
            depth >= 1 && simple_expr(old(self).tokens@, old(self).pos as int) ==> (r matches Ok(i) && final(self).pos
                == old(self).pos + 1 && made(&*final(self), i, atom_node(kind_at(old(self).tokens@, old(self).pos as int)))),
        decreases depth, 6usize,
    {
        if depth == 0 {
            return Err(self.error("Nesting too deep"));
        }
        match self.peek() {
            TokenKind::Number => Ok(self.leaf(NodeType::LiteralNumber)),
            TokenKind::Text => Ok(self.leaf(NodeType::LiteralString)),
            TokenKind::True | TokenKind::False => Ok(self.leaf(NodeType::LiteralBoolean)),
            TokenKind::Identifier => Ok(self.leaf(NodeType::Identifier)),
            TokenKind::This => Ok(self.leaf(NodeType::This)),
            TokenKind::Underscore => Ok(self.leaf(NodeType::Placeholder)),
            TokenKind::LParen => {
                self.advance();
                let e = self.parse_expression(depth - 1)?;
                self.expect(TokenKind::RParen, "Expected ')'")?;
                Ok(e)
            },
            TokenKind::LBracket => {
                let lb = self.current();
                self.advance();
                let mut items: Vec<usize> = Vec::new();
                while self.peek() != TokenKind::RBracket
                    invariant
                        self.kept(&*old(self)),
                        self.pos > old(self).pos,
                        depth > 0,
                        old(self).tokens@[old(self).pos as int].kind == TokenKind::LBracket,
                    decreases self.tokens@.len() - self.pos,
                {
                    let e = self.parse_expression(depth - 1)?;
                    items.push(e);
                    if self.peek() == TokenKind::Comma {
                        self.advance();
                    } else if self.peek() != TokenKind::RBracket {
                        return Err(self.error("Expected ',' or ']'"));
                    }
                }
                self.advance();
                Ok(self.new_node(NodeType::List, Some(lb), &items))
            },
            TokenKind::LBrace => self.parse_struct_init(depth - 1),
            TokenKind::Match => self.parse_match(depth - 1),
            _ => Err(self.error("Unexpected token")),
        }
    }

    /// `{ [_] name: value, [_] method: (params) [Type] { body } }`
    fn parse_struct_init(&mut self, depth: usize) -> (r: Result<usize, ParseError>)
        requires
            old(self).ok(),
        ensures
            final(self).kept(&*old(self)),
            r is Ok ==> final(self).pos > old(self).pos,
            kind_at(old(self).tokens@, old(self).pos as int) == TokenKind::LBrace && kind_at(old(self).tokens@, old(self).pos as int + 1) == TokenKind::RBrace ==> (r matches Ok(i) && final(self).pos == old(self).pos + 2 && made(&*final(self), i, NodeType::StructInit)),
        decreases depth, 7usize,
    {
        let lb = self.expect(TokenKind::LBrace, "Expected '{'")?;
        let mut members: Vec<usize> = Vec::new();
        self.skip_newlines();
        while self.peek() != TokenKind::RBrace
            invariant
                kind_at(old(self).tokens@, old(self).pos as int) == TokenKind::LBrace && kind_at(old(self).tokens@, old(self).pos as int + 1) == TokenKind::RBrace ==> self.pos == old(self).pos + 1,
                self.kept(&*old(self)),
                self.pos > old(self).pos,
            decreases self.tokens@.len() - self.pos,
        {
            let mut private = false;
            if self.peek() == TokenKind::Underscore {
                private = true;
                self.advance();
            }
            if self.peek() != TokenKind::Identifier {
                return Err(self.error("Expected member name"));
            }
            let mt = self.current();
            let mut mchildren: Vec<usize> = Vec::new();
            mchildren.push(self.leaf(NodeType::Identifier));
            self.expect(TokenKind::Colon, "Expected ':'")?;
            let member = if self.peek() == TokenKind::LParen {
                let none: Vec<usize> = Vec::new();
                let mut fchildren: Vec<usize> = Vec::new();
                fchildren.push(self.new_node(NodeType::Identifier, Some(mt.clone()), &none));
                let decl = self.parse_function_rest(depth, mt.clone(), fchildren)?;
                mchildren.push(decl);
                self.new_node(NodeType::StructInitMethod, Some(mt), &mchildren)
            } else {
                let value = self.parse_expression(depth)?;
                mchildren.push(value);
                self.new_node(NodeType::StructInitField, Some(mt), &mchildren)
            };
            if private {
                self.mark_private(member);
            }
            members.push(member);
            if self.peek() == TokenKind::Comma {
                self.advance();
            }
            self.skip_newlines();
        }
        self.advance();
        Ok(self.new_node(NodeType::StructInit, Some(lb), &members))
    }

    /// `match subject { pattern: value ... }`
    fn parse_match(&mut self, depth: usize) -> (r: Result<usize, ParseError>)
        requires
            old(self).ok(),
        ensures
            final(self).kept(&*old(self)),
            r is Ok ==> final(self).pos > old(self).pos,
            depth >= 3 && kind_at(old(self).tokens@, old(self).pos as int) == TokenKind::Match && simple_expr(old(self).tokens@, old(self).pos as int + 1) && kind_at(old(self).tokens@, old(self).pos as int + 2) == TokenKind::LBrace && kind_at(old(self).tokens@, old(self).pos as int + 3) == TokenKind::RBrace ==> (r matches Ok(i) && final(self).pos == old(self).pos + 4 && made(&*final(self), i, NodeType::Match)),
        decreases depth, 7usize,
    {
        let kw = self.expect(TokenKind::Match, "Expected 'match'")?;
        let subject = self.parse_expression(depth)?;
        let lb = self.expect(TokenKind::LBrace, "Expected '{'")?;
        let mut arms: Vec<usize> = Vec::new();
        self.skip_newlines();
        while self.peek() != TokenKind::RBrace
            invariant
                depth >= 3 && kind_at(old(self).tokens@, old(self).pos as int) == TokenKind::Match && simple_expr(old(self).tokens@, old(self).pos as int + 1) && kind_at(old(self).tokens@, old(self).pos as int + 2) == TokenKind::LBrace && kind_at(old(self).tokens@, old(self).pos as int + 3) == TokenKind::RBrace ==> self.pos == old(self).pos + 3,
                self.kept(&*old(self)),
                self.pos > old(self).pos,
            decreases self.tokens@.len() - self.pos,
        {
            let at = self.current();
            let pattern_kind = self.peek();
            let pattern_value = match pattern_kind {
                TokenKind::Number => self.leaf(NodeType::LiteralNumber),
                TokenKind::Text => self.leaf(NodeType::LiteralString),
                TokenKind::True | TokenKind::False => self.leaf(NodeType::LiteralBoolean),
                TokenKind::Underscore => self.leaf(NodeType::Placeholder),
                TokenKind::Identifier => self.leaf(NodeType::Identifier),
                _ => {
                    return Err(self.error("Expected match pattern"));
                },
            };
            let mut pchildren: Vec<usize> = Vec::new();
            pchildren.push(pattern_value);
            let pattern = self.new_node(NodeType::MatchPattern, Some(at.clone()), &pchildren);
            self.expect(TokenKind::Colon, "Expected ':' after pattern")?;
            let value = self.parse_expression(depth)?;
            let mut achildren: Vec<usize> = Vec::new();
            achildren.push(pattern);
            achildren.push(value);
            arms.push(self.new_node(NodeType::MatchArm, Some(at), &achildren));
            self.skip_newlines();
        }
        self.advance();
        let arms_node = self.new_node(NodeType::MatchArms, Some(lb), &arms);
        let mut children: Vec<usize> = Vec::new();
        children.push(subject);
        children.push(arms_node);
        Ok(self.new_node(NodeType::Match, Some(kw), &children))
    }
}

fn check_tokens(tokens: &Vec<Token>) -> (r: bool)
    ensures
        r == ends_with_eof(tokens@),
{
    let n = tokens.len();
    if n == 0 {
        return false;
    }
    if tokens[n - 1].kind != TokenKind::Eof {
        return false;
    }
    let mut i: usize = 0;
    while i < n - 1
        invariant
            n == tokens@.len(),
            n >= 1,
            0 <= i <= n - 1,
            forall|k: int| 0 <= k < i ==> tokens@[k].kind != TokenKind::Eof,
        decreases n - 1 - i,
    {
        if tokens[i].kind == TokenKind::Eof {
            return false;
        }
        i = i + 1;
    }
    true
}

/// Parses a token stream into a syntax tree whose root is a `Program` node
/// holding the top-level statements in order.
pub fn parse(tokens: Vec<Token>, limits: &CompilerLimits) -> (r: Result<Ast, ParseError>)
    ensures
        r matches Ok(ast) ==> ast.root matches Some(root) && root < ast.nodes@.len() && ast.nodes@[root as int].node_type
            == NodeType::Program,
        !ends_with_eof(tokens@) ==> (r matches Err(e) && e.message@ == "Token stream must end with one end-of-file token"@),
        ends_with_eof(tokens@) && blank_from(tokens@, 0) ==> (r matches Ok(ast) && ast.nodes@[ast.root->0 as int].first_child
            is None && ast.limits == *limits),
{
    if !check_tokens(&tokens) {
        return Err(
            ParseError {
                message: String::from_str("Token stream must end with one end-of-file token"),
                line: 0,
                column: 0,
            },
        );
    }
    let mut parser = Parser { tokens, pos: 0, nodes: Vec::new() };
    let root = parser.parse_program(limits.max_nesting_depth)?;
    let nodes = parser.nodes;
    if root < nodes.len() {
        Ok(Ast { nodes, root: Some(root), string_storage: StringStorage::new(), limits: *limits })
    } else {
        Err(
            ParseError {
                message: String::from_str("Parser produced no root node"),
                line: 0,
                column: 0,
            },
        )
    }
}

} // verus!
