use vstd::prelude::*;

use crate::ast::{
    arity, function_kind_of, nodes_view, BinaryNode, EnclosedNode, FunctionKind, FunctionNode,
    Node, NodeView, NumberNode, SyntaxTree, SyntaxTreeView, UnaryNode,
};
use crate::lexer::{is_number_text, lexical_errors, symbol_error, texts, Lexer};
use crate::text::{decimal, push_decimal};
use crate::token::{
    binary_precedence, is_usable, kind_name, kind_text, views, Token, TokenKind, TokenView,
};

verus! {

/// What one parse step yields: the node built, the position after it, and the
/// diagnostics it added.
pub struct Step {
    pub node: NodeView,
    pub pos: int,
    pub diags: Seq<Seq<char>>,
}

/// What parsing a list of function arguments yields.
pub struct ArgsStep {
    pub nodes: Seq<NodeView>,
    pub pos: int,
    pub diags: Seq<Seq<char>>,
}

/// What expecting one token kind yields: the token found, or a placeholder.
pub struct Expect {
    pub token: TokenView,
    pub pos: int,
    pub diags: Seq<Seq<char>>,
}

/// The tokens that the parser reads, in order.
pub open spec fn usable_tokens(toks: Seq<TokenView>) -> Seq<TokenView>
    decreases toks.len(),
{
    if toks.len() == 0 {
        seq![]
    } else if is_usable(toks.last().kind) {
        usable_tokens(toks.drop_last()).push(toks.last())
    } else {
        usable_tokens(toks.drop_last())
    }
}

/// The token at `pos`; reading past the end yields the last token.
pub open spec fn at(ts: Seq<TokenView>, pos: int) -> TokenView {
    if 0 <= pos < ts.len() {
        ts[pos]
    } else {
        ts.last()
    }
}

/// A token sequence that ends with the end-of-input token, and a position in it.
pub open spec fn in_range(ts: Seq<TokenView>, pos: int) -> bool {
    &&& ts.len() > 0
    &&& ts.last().kind == TokenKind::EndOfFile
    &&& 0 <= pos < ts.len()
}

pub open spec fn expected_message(kind: TokenKind, found: TokenView) -> Seq<char> {
    "expected "@ + kind_name(kind) + " but found "@ + kind_name(found.kind) + " '"@ + found.value
        + "' at index "@ + decimal(found.index as nat)
}

pub open spec fn number_message(tok: TokenView) -> Seq<char> {
    "invalid number '"@ + tok.value + "' at index "@ + decimal(tok.index as nat)
}

pub open spec fn unknown_message(tok: TokenView) -> Seq<char> {
    "unknown function '"@ + tok.value + "' at index "@ + decimal(tok.index as nat)
}

pub open spec fn arity_message(tok: TokenView, want: nat, got: nat) -> Seq<char> {
    "function '"@ + tok.value + "' takes "@ + decimal(want) + " argument(s) but was given "@
        + decimal(got) + " at index "@ + decimal(tok.index as nat)
}

/// Takes a token of kind `kind` at `pos`; where another kind stands there, records
/// a diagnostic and yields a placeholder with empty text, without moving on.
pub open spec fn expect(ts: Seq<TokenView>, pos: int, kind: TokenKind) -> Expect {
    let cur = at(ts, pos);
    if cur.kind == kind {
        Expect { token: cur, pos: pos + 1, diags: seq![] }
    } else {
        Expect {
            token: TokenView { kind, index: pos as usize, value: seq![] },
            pos,
            diags: seq![expected_message(kind, cur)],
        }
    }
}

/// A binary expression whose operators all bind tighter than `lp`.
pub open spec fn binary_expr(ts: Seq<TokenView>, pos: int, lp: u8) -> Step
    decreases ts.len() - pos, 4int,
{
    if !in_range(ts, pos) {
        Step { node: NodeView::Number(at(ts, pos)), pos, diags: seq![] }
    } else {
        let u = unary_expr(ts, pos);
        if u.pos < pos || u.pos >= ts.len() {
            u
        } else {
            let l = binary_tail(ts, u.pos, lp, u.node);
            Step { node: l.node, pos: l.pos, diags: u.diags + l.diags }
        }
    }
}

/// The operators and right operands that follow `left`, folded to the left.
pub open spec fn binary_tail(ts: Seq<TokenView>, pos: int, lp: u8, left: NodeView) -> Step
    decreases ts.len() - pos, 3int,
{
    let op = at(ts, pos);
    let p = binary_precedence(op.kind);
    if !in_range(ts, pos) || p == 0 || p <= lp {
        Step { node: left, pos, diags: seq![] }
    } else {
        let r = binary_expr(ts, pos + 1, p);
        let joined = NodeView::Binary(op, Box::new(left), Box::new(r.node));
        if r.pos <= pos || r.pos >= ts.len() {
            Step { node: joined, pos: r.pos, diags: r.diags }
        } else {
            let l = binary_tail(ts, r.pos, lp, joined);
            Step { node: l.node, pos: l.pos, diags: r.diags + l.diags }
        }
    }
}

/// A chain of prefix `-` signs, one node each, before a primary expression.
pub open spec fn unary_expr(ts: Seq<TokenView>, pos: int) -> Step
    decreases ts.len() - pos, 2int,
{
    let cur = at(ts, pos);
    if !in_range(ts, pos) {
        Step { node: NodeView::Number(cur), pos, diags: seq![] }
    } else if cur.kind == TokenKind::Minus {
        let r = unary_expr(ts, pos + 1);
        Step { node: NodeView::Unary(cur, Box::new(r.node)), pos: r.pos, diags: r.diags }
    } else {
        primary_expr(ts, pos)
    }
}

/// A parenthesised or absolute-value group, a function call, or a number.
pub open spec fn primary_expr(ts: Seq<TokenView>, pos: int) -> Step
    decreases ts.len() - pos, 1int,
{
    let cur = at(ts, pos);
    if !in_range(ts, pos) {
        Step { node: NodeView::Number(cur), pos, diags: seq![] }
    } else if cur.kind == TokenKind::OpenParenthesis || cur.kind == TokenKind::Pipe {
        let closing = if cur.kind == TokenKind::OpenParenthesis {
            TokenKind::CloseParenthesis
        } else {
            TokenKind::Pipe
        };
        let e = binary_expr(ts, pos + 1, 0);
        let c = expect(ts, e.pos, closing);
        Step {
            node: NodeView::Enclosed(cur, Box::new(e.node), c.token),
            pos: c.pos,
            diags: e.diags + c.diags,
        }
    } else if cur.kind == TokenKind::FunctionCall {
        function_call(ts, pos)
    } else {
        number(ts, pos)
    }
}

/// The diagnostic for a call of an unknown function or with the wrong number of
/// arguments, if any.
pub open spec fn call_check(name: TokenView, n_args: nat) -> Seq<Seq<char>> {
    let kind = function_kind_of(name.value);
    if kind == FunctionKind::BadValue {
        seq![unknown_message(name)]
    } else if n_args != arity(kind) {
        seq![arity_message(name, arity(kind) as nat, n_args)]
    } else {
        seq![]
    }
}

/// A function name, `(`, the arguments, and `)`.
pub open spec fn function_call(ts: Seq<TokenView>, pos: int) -> Step
    decreases ts.len() - pos, 0int,
{
    let name = at(ts, pos);
    let o = expect(ts, pos + 1, TokenKind::OpenParenthesis);
    if !in_range(ts, pos) || !in_range(ts, o.pos) {
        Step { node: NodeView::Number(name), pos, diags: seq![] }
    } else {
        let a = arguments(ts, o.pos);
        let c = expect(ts, a.pos, TokenKind::CloseParenthesis);
        Step {
            node: NodeView::Function(function_kind_of(name.value), name, a.nodes),
            pos: c.pos,
            diags: o.diags + a.diags + c.diags + call_check(name, a.nodes.len()),
        }
    }
}

/// Expressions, one after another, up to `)` or the end of input.
pub open spec fn arguments(ts: Seq<TokenView>, pos: int) -> ArgsStep
    decreases ts.len() - pos, 5int,
{
    let cur = at(ts, pos);
    if !in_range(ts, pos) || cur.kind == TokenKind::CloseParenthesis || cur.kind
        == TokenKind::EndOfFile {
        ArgsStep { nodes: seq![], pos, diags: seq![] }
    } else {
        let a = binary_expr(ts, pos, 0);
        if a.pos <= pos || a.pos >= ts.len() {
            ArgsStep { nodes: seq![a.node], pos: a.pos, diags: a.diags }
        } else {
            let rest = arguments(ts, a.pos);
            ArgsStep {
                nodes: seq![a.node] + rest.nodes,
                pos: rest.pos,
                diags: a.diags + rest.diags,
            }
        }
    }
}

/// A numeric literal; text that is no literal is recorded as a diagnostic.
pub open spec fn number(ts: Seq<TokenView>, pos: int) -> Step {
    let t = expect(ts, pos, TokenKind::NumberToken);
    Step {
        node: NodeView::Number(t.token),
        pos: t.pos,
        diags: if is_number_text(t.token.value) {
            t.diags
        } else {
            t.diags.push(number_message(t.token))
        },
    }
}

/// The outcome of parsing a token sequence: the tree where no lexical or syntax
/// problem was found, else every diagnostic in the order found.
pub open spec fn parse_result(toks: Seq<TokenView>) -> Result<SyntaxTreeView, Seq<Seq<char>>> {
    let ts = usable_tokens(toks);
    let e = binary_expr(ts, 0, 0);
    let f = expect(ts, e.pos, TokenKind::EndOfFile);
    let d = lexical_errors(toks) + e.diags + f.diags;
    if d.len() == 0 {
        Ok(SyntaxTreeView { root: e.node, eof: f.token })
    } else {
        Err(d)
    }
}

fn expected_error(kind: TokenKind, found: &Token) -> (r: String)
    ensures
        r@ == expected_message(kind, found@),
{
    let mut m = String::from_str("expected ");
    m.append(kind_text(kind));
    m.append(" but found ");
    m.append(kind_text(found.kind));
    m.append(" '");
    m.append(found.value.as_str());
    m.append("' at index ");
    push_decimal(&mut m, found.index);
    m
}

fn number_error(tok: &Token) -> (r: String)
    ensures
        r@ == number_message(tok@),
{
    let mut m = String::from_str("invalid number '");
    m.append(tok.value.as_str());
    m.append("' at index ");
    push_decimal(&mut m, tok.index);
    m
}

fn unknown_error(tok: &Token) -> (r: String)
    ensures
        r@ == unknown_message(tok@),
{
    let mut m = String::from_str("unknown function '");
    m.append(tok.value.as_str());
    m.append("' at index ");
    push_decimal(&mut m, tok.index);
    m
}

fn arity_error(tok: &Token, want: u8, got: usize) -> (r: String)
    ensures
        r@ == arity_message(tok@, want as nat, got as nat),
{
    let mut m = String::from_str("function '");
    m.append(tok.value.as_str());
    m.append("' takes ");
    push_decimal(&mut m, want as usize);
    m.append(" argument(s) but was given ");
    push_decimal(&mut m, got);
    m.append(" at index ");
    push_decimal(&mut m, tok.index);
    m
}

proof fn lemma_nodes_view_push(s: Seq<Node>, n: Node)
    ensures
        nodes_view(s.push(n)) == nodes_view(s).push(n@),
    decreases s.len(),
{
    if s.len() == 0 {
        assert(s.push(n).subrange(1, 1) =~= Seq::<Node>::empty());
        assert(nodes_view(Seq::<Node>::empty()) =~= Seq::<NodeView>::empty());
        assert(s.push(n)[0] == n);
        assert(nodes_view(s.push(n)) =~= seq![n@]);
    } else {
        assert(s.push(n).subrange(1, (s.len() + 1) as int) =~= s.subrange(1, s.len() as int).push(n));
        lemma_nodes_view_push(s.subrange(1, s.len() as int), n);
        assert(nodes_view(s.push(n)) =~= nodes_view(s).push(n@));
    }
}

proof fn lemma_usable_end(toks: Seq<TokenView>)
    requires
        toks.len() > 0,
        toks.last().kind == TokenKind::EndOfFile,
    ensures
        in_range(usable_tokens(toks), 0),
{
}

/// Recursive-descent parser over the usable tokens, collecting diagnostics.
pub struct Parser {
    diagnostics: Vec<String>,
    tokens: Vec<Token>,
    position: usize,
}

impl Parser {
    spec fn ts(&self) -> Seq<TokenView> {
        views(self.tokens@)
    }

    spec fn msgs(&self) -> Seq<Seq<char>> {
        texts(self.diagnostics@)
    }

    spec fn wf(&self) -> bool {
        &&& in_range(self.ts(), self.position as int)
        &&& self.ts().len() == self.tokens@.len()
    }

    /// Parses a token sequence that ends with the end-of-input token.
    pub fn parse(tokens: Vec<Token>) -> (r: Result<SyntaxTree, Vec<String>>)
        requires
            tokens@.len() > 0,
            tokens@.last().kind == TokenKind::EndOfFile,
        ensures
            match r {
                Ok(t) => parse_result(views(tokens@)) == Ok::<SyntaxTreeView, Seq<Seq<char>>>(t@),
                Err(d) => parse_result(views(tokens@)) == Err::<SyntaxTreeView, Seq<Seq<char>>>(
                    texts(d@),
                ),
            },
    {
        let mut parser = Self::new(tokens);
        let root = parser.parse_top_level();
        let eof = parser.get_match(TokenKind::EndOfFile);
        if parser.diagnostics.len() == 0 {
            Ok(SyntaxTree::new(root, eof))
        } else {
            Err(parser.diagnostics)
        }
    }

    fn new(tokens: Vec<Token>) -> (r: Self)
        requires
            tokens@.len() > 0,
            tokens@.last().kind == TokenKind::EndOfFile,
        ensures
            r.ts() == usable_tokens(views(tokens@)),
            r.msgs() == lexical_errors(views(tokens@)),
            r.position == 0,
            r.wf(),
    {
        let ghost all = views(tokens@);
        let mut diagnostics: Vec<String> = Vec::new();
        let mut usable: Vec<Token> = Vec::new();
        let mut i: usize = 0;
        while i < tokens.len()
            invariant
                all == views(tokens@),
                i <= tokens@.len(),
                views(usable@) == usable_tokens(all.subrange(0, i as int)),
                texts(diagnostics@) == lexical_errors(all.subrange(0, i as int)),
            decreases tokens@.len() - i,
        {
            let t = &tokens[i];
            let ghost pre = all.subrange(0, i as int);
            assert(all.subrange(0, i + 1).drop_last() =~= pre);
            assert(all.subrange(0, i + 1).last() == t@);
            if Token::is_usable_token(t) {
                usable.push(t.duplicate());
                assert(views(usable@) =~= usable_tokens(pre).push(t@));
            }
            if t.kind == TokenKind::BadSymbol {
                diagnostics.push(symbol_error(t));
                assert(texts(diagnostics@) =~= lexical_errors(pre).push(
                    crate::lexer::symbol_message(t@),
                ));
            }
            i = i + 1;
        }
        assert(all.subrange(0, tokens@.len() as int) =~= all);
        proof {
            lemma_usable_end(all);
        }
        Parser { diagnostics, tokens: usable, position: 0 }
    }

    fn peek(&self, offset: usize) -> (r: Token)
        requires
            self.wf(),
        ensures
            r@ == at(self.ts(), self.position + offset),
    {
        if offset < self.tokens.len() - self.position {
            self.tokens[self.position + offset].duplicate()
        } else {
            self.tokens[self.tokens.len() - 1].duplicate()
        }
    }

    fn current(&self) -> (r: Token)
        requires
            self.wf(),
        ensures
            r@ == at(self.ts(), self.position as int),
    {
        self.peek(0)
    }

    fn next_token(&mut self) -> (r: Token)
        requires
            old(self).wf(),
        ensures
            r@ == at(old(self).ts(), old(self).position as int),
            final(self).position == old(self).position + 1,
            final(self).tokens@ == old(self).tokens@,
            final(self).diagnostics == old(self).diagnostics,
    {
        let current = self.current();
        assert(self.position < self.tokens.len());
        self.position = self.position + 1;
        current
    }

    fn get_match(&mut self, kind: TokenKind) -> (r: Token)
        requires
            old(self).wf(),
        ensures
            r@ == expect(old(self).ts(), old(self).position as int, kind).token,
            final(self).position == expect(old(self).ts(), old(self).position as int, kind).pos,
            final(self).msgs() == old(self).msgs() + expect(
                old(self).ts(),
                old(self).position as int,
                kind,
            ).diags,
            final(self).tokens@ == old(self).tokens@,
    {
        let current = self.current();
        if current.kind == kind {
            let r = self.next_token();
            assert(self.msgs() =~= old(self).msgs() + Seq::<Seq<char>>::empty());
            r
        } else {
            self.diagnostics.push(expected_error(kind, &current));
            assert(self.msgs() =~= old(self).msgs().push(expected_message(kind, current@)));
            proof {
                reveal_strlit("");
            }
            let r = Token::new(kind, self.position, String::new());
            assert(r@.value =~= Seq::<char>::empty());
            r
        }
    }

    fn parse_top_level(&mut self) -> (r: Node)
        requires
            old(self).wf(),
        ensures
            final(self).wf(),
            final(self).tokens@ == old(self).tokens@,
            r@ == binary_expr(old(self).ts(), old(self).position as int, 0).node,
            final(self).position == binary_expr(old(self).ts(), old(self).position as int, 0).pos,
            final(self).msgs() == old(self).msgs() + binary_expr(
                old(self).ts(),
                old(self).position as int,
                0,
            ).diags,
    {
        self.parse_binary_expression(0)
    }

    fn parse_binary_expression(&mut self, lp: u8) -> (r: Node)
        requires
            old(self).wf(),
        ensures
            final(self).wf(),
            final(self).tokens@ == old(self).tokens@,
            final(self).position >= old(self).position,
            r@ == binary_expr(old(self).ts(), old(self).position as int, lp).node,
            final(self).position == binary_expr(old(self).ts(), old(self).position as int, lp).pos,
            final(self).msgs() == old(self).msgs() + binary_expr(
                old(self).ts(),
                old(self).position as int,
                lp,
            ).diags,
        decreases old(self).tokens@.len() - old(self).position, 4int,
    {
        let ghost ts = self.ts();
        let ghost p0 = self.position as int;
        let ghost m0 = self.msgs();
        let mut left = self.parse_unary_expression();
        let ghost u = unary_expr(ts, p0);
        assert(binary_expr(ts, p0, lp) == (Step {
            node: binary_tail(ts, u.pos, lp, u.node).node,
            pos: binary_tail(ts, u.pos, lp, u.node).pos,
            diags: u.diags + binary_tail(ts, u.pos, lp, u.node).diags,
        }));
        assert(m0 + binary_expr(ts, p0, lp).diags =~= self.msgs() + binary_tail(
            ts,
            u.pos,
            lp,
            u.node,
        ).diags);
        loop
            invariant
                self.wf(),
                self.ts() == ts,
                self.tokens@ == old(self).tokens@,
                p0 == old(self).position,
                self.position >= p0,
                binary_expr(ts, p0, lp).node == binary_tail(
                    ts,
                    self.position as int,
                    lp,
                    left@,
                ).node,
                binary_expr(ts, p0, lp).pos == binary_tail(ts, self.position as int, lp, left@).pos,
                m0 + binary_expr(ts, p0, lp).diags == self.msgs() + binary_tail(
                    ts,
                    self.position as int,
                    lp,
                    left@,
                ).diags,
            ensures
                self.wf(),
                self.ts() == ts,
                self.position >= p0,
                binary_expr(ts, p0, lp).node == left@,
                binary_expr(ts, p0, lp).pos == self.position,
                m0 + binary_expr(ts, p0, lp).diags == self.msgs(),
            decreases ts.len() - self.position,
        {
            let ghost p = self.position as int;
            let ghost m = self.msgs();
            let precedence = self.current().get_binary_precedence();
            if precedence == 0 || precedence <= lp {
                assert(self.msgs() + binary_tail(ts, p, lp, left@).diags =~= self.msgs());
                break ;
            }
            let operator = self.next_token();
            let right = self.parse_binary_expression(precedence);
            let ghost rs = binary_expr(ts, p + 1, precedence);
            let ghost joined = NodeView::Binary(operator@, Box::new(left@), Box::new(right@));
            left = Node::Binary(BinaryNode::new(operator, left, right));
            assert(left@ == joined);
            assert(m + rs.diags + binary_tail(ts, self.position as int, lp, joined).diags =~= m + (
            rs.diags + binary_tail(ts, self.position as int, lp, joined).diags));
        }
        left
    }

    fn parse_unary_expression(&mut self) -> (r: Node)
        requires
            old(self).wf(),
        ensures
            final(self).wf(),
            final(self).tokens@ == old(self).tokens@,
            final(self).position >= old(self).position,
            r@ == unary_expr(old(self).ts(), old(self).position as int).node,
            final(self).position == unary_expr(old(self).ts(), old(self).position as int).pos,
            final(self).msgs() == old(self).msgs() + unary_expr(
                old(self).ts(),
                old(self).position as int,
            ).diags,
        decreases old(self).tokens@.len() - old(self).position, 2int,
    {
        if self.current().kind == TokenKind::Minus {
            let unary_token = self.get_match(TokenKind::Minus);
            assert(self.msgs() =~= old(self).msgs());
            let expression = self.parse_unary_expression();
            Node::Unary(UnaryNode::new(unary_token, expression))
        } else {
            self.parse_primary_expression()
        }
    }

    fn parse_primary_expression(&mut self) -> (r: Node)
        requires
            old(self).wf(),
        ensures
            final(self).wf(),
            final(self).tokens@ == old(self).tokens@,
            final(self).position >= old(self).position,
            r@ == primary_expr(old(self).ts(), old(self).position as int).node,
            final(self).position == primary_expr(old(self).ts(), old(self).position as int).pos,
            final(self).msgs() == old(self).msgs() + primary_expr(
                old(self).ts(),
                old(self).position as int,
            ).diags,
        decreases old(self).tokens@.len() - old(self).position, 1int,
    {
        let kind = self.current().kind;
        if kind == TokenKind::OpenParenthesis || kind == TokenKind::Pipe {
            let closing = if kind == TokenKind::OpenParenthesis {
                TokenKind::CloseParenthesis
            } else {
                TokenKind::Pipe
            };
            let left = self.next_token();
            let expression = self.parse_binary_expression(0);
            let right = self.get_match(closing);
            Node::Enclosed(EnclosedNode::new(left, expression, right))
        } else if kind == TokenKind::FunctionCall {
            self.parse_function_call()
        } else {
            self.parse_number_node()
        }
    }

    fn parse_function_call(&mut self) -> (r: Node)
        requires
            old(self).wf(),
            at(old(self).ts(), old(self).position as int).kind == TokenKind::FunctionCall,
        ensures
            final(self).wf(),
            final(self).tokens@ == old(self).tokens@,
            final(self).position >= old(self).position,
            r@ == function_call(old(self).ts(), old(self).position as int).node,
            final(self).position == function_call(old(self).ts(), old(self).position as int).pos,
            final(self).msgs() == old(self).msgs() + function_call(
                old(self).ts(),
                old(self).position as int,
            ).diags,
        decreases old(self).tokens@.len() - old(self).position, 0int,
    {
        let ghost ts = self.ts();
        let ghost p0 = self.position as int;
        let ghost m0 = self.msgs();
        let name = self.next_token();
        let kind = FunctionKind::from(name.value.as_str());
        let _open = self.get_match(TokenKind::OpenParenthesis);
        let ghost o = expect(ts, p0 + 1, TokenKind::OpenParenthesis);
        let ghost p1 = self.position as int;
        let ghost m1 = self.msgs();
        let mut args: Vec<Node> = Vec::new();
        loop
            invariant_except_break
                arguments(ts, p1).nodes == nodes_view(args@) + arguments(
                    ts,
                    self.position as int,
                ).nodes,
                arguments(ts, p1).pos == arguments(ts, self.position as int).pos,
                m1 + arguments(ts, p1).diags == self.msgs() + arguments(
                    ts,
                    self.position as int,
                ).diags,
            invariant
                self.wf(),
                self.ts() == ts,
                self.tokens@ == old(self).tokens@,
                p0 == old(self).position,
                self.position >= p1,
                p1 > p0,
            ensures
                self.wf(),
                self.ts() == ts,
                self.position >= p1,
                arguments(ts, p1).nodes == nodes_view(args@),
                arguments(ts, p1).pos == self.position,
                m1 + arguments(ts, p1).diags == self.msgs(),
            decreases ts.len() - self.position,
        {
            let ghost p = self.position as int;
            let ghost m = self.msgs();
            let ghost before = nodes_view(args@);
            let start = self.position;
            let k = self.current().kind;
            if k == TokenKind::CloseParenthesis || k == TokenKind::EndOfFile {
                assert(before + arguments(ts, p).nodes =~= before);
                assert(m + arguments(ts, p).diags =~= m);
                break ;
            }
            let arg = self.parse_binary_expression(0);
            let ghost a = binary_expr(ts, p, 0);
            proof {
                lemma_nodes_view_push(args@, arg);
            }
            args.push(arg);
            if self.position == start {
                assert(nodes_view(args@) =~= before + seq![a.node]);
                break ;
            }
            let ghost rest = arguments(ts, self.position as int);
            assert(before + (seq![a.node] + rest.nodes) =~= nodes_view(args@) + rest.nodes);
            assert(m + (a.diags + rest.diags) =~= self.msgs() + rest.diags);
        }
        let ghost a = arguments(ts, p1);
        let _close = self.get_match(TokenKind::CloseParenthesis);
        let ghost m2 = self.msgs();
        let count = kind.get_args_count();
        if kind == FunctionKind::BadValue {
            self.diagnostics.push(unknown_error(&name));
        } else if args.len() != count as usize {
            self.diagnostics.push(arity_error(&name, count, args.len()));
        }
        proof {
            lemma_nodes_view_len(args@);
            assert(self.msgs() =~= m2 + call_check(name@, a.nodes.len()));
            assert(self.msgs() =~= m0 + (o.diags + a.diags + expect(
                ts,
                a.pos,
                TokenKind::CloseParenthesis,
            ).diags + call_check(name@, a.nodes.len())));
        }
        Node::Function(FunctionNode::new(kind, name, args))
    }

    fn parse_number_node(&mut self) -> (r: Node)
        requires
            old(self).wf(),
        ensures
            final(self).wf(),
            final(self).tokens@ == old(self).tokens@,
            final(self).position >= old(self).position,
            r@ == number(old(self).ts(), old(self).position as int).node,
            final(self).position == number(old(self).ts(), old(self).position as int).pos,
            final(self).msgs() == old(self).msgs() + number(
                old(self).ts(),
                old(self).position as int,
            ).diags,
    {
        let ghost m1 = self.msgs();
        let token = self.get_match(TokenKind::NumberToken);
        let ghost m2 = self.msgs();
        if !Lexer::is_valid_int(token.value.as_str()) {
            self.diagnostics.push(number_error(&token));
            assert(self.msgs() =~= m2.push(number_message(token@)));
        }
        assert(self.msgs() =~= old(self).msgs() + number(
            old(self).ts(),
            old(self).position as int,
        ).diags);
        Node::Number(NumberNode::new(token))
    }
}

proof fn lemma_nodes_view_len(s: Seq<Node>)
    ensures
        nodes_view(s).len() == s.len(),
    decreases s.len(),
{
    if s.len() > 0 {
        lemma_nodes_view_len(s.subrange(1, s.len() as int));
    }
}

} // verus!

verus! {

/// Whether a tree holds only what evaluation handles: numeric literals, prefix `-`,
/// binary operators, matching delimiter pairs, and known functions given as many
/// arguments as they take.
pub open spec fn evaluable(n: NodeView) -> bool
    decreases n,
{
    match n {
        NodeView::Number(t) => t.kind == TokenKind::NumberToken && is_number_text(t.value),
        NodeView::Unary(t, e) => t.kind == TokenKind::Minus && evaluable(*e),
        NodeView::Binary(t, l, r) => binary_precedence(t.kind) > 0 && evaluable(*l) && evaluable(
            *r,
        ),
        NodeView::Enclosed(o, e, c) => ((o.kind == TokenKind::OpenParenthesis && c.kind
            == TokenKind::CloseParenthesis) || (o.kind == TokenKind::Pipe && c.kind
            == TokenKind::Pipe)) && evaluable(*e),
        NodeView::Function(k, t, args) => k != FunctionKind::BadValue && args.len() == arity(k)
            && all_evaluable(args),
    }
}

pub open spec fn all_evaluable(s: Seq<NodeView>) -> bool
    decreases s,
{
    if s.len() == 0 {
        true
    } else {
        evaluable(s[0]) && all_evaluable(s.subrange(1, s.len() as int))
    }
}

proof fn lemma_all_evaluable_cons(n: NodeView, s: Seq<NodeView>)
    ensures
        all_evaluable(seq![n] + s) == (evaluable(n) && all_evaluable(s)),
{
    assert((seq![n] + s)[0] == n);
    assert((seq![n] + s).subrange(1, (seq![n] + s).len() as int) =~= s);
}

proof fn lemma_binary_evaluable(ts: Seq<TokenView>, pos: int, lp: u8)
    requires
        in_range(ts, pos),
    ensures
        binary_expr(ts, pos, lp).diags.len() == 0 ==> evaluable(binary_expr(ts, pos, lp).node),
    decreases ts.len() - pos, 4int,
{
    let u = unary_expr(ts, pos);
    lemma_unary_evaluable(ts, pos);
    if !(u.pos < pos || u.pos >= ts.len()) {
        let l = binary_tail(ts, u.pos, lp, u.node);
        if (u.diags + l.diags).len() == 0 {
            lemma_tail_evaluable(ts, u.pos, lp, u.node);
        }
    }
}

proof fn lemma_tail_evaluable(ts: Seq<TokenView>, pos: int, lp: u8, left: NodeView)
    requires
        in_range(ts, pos),
        evaluable(left),
    ensures
        binary_tail(ts, pos, lp, left).diags.len() == 0 ==> evaluable(
            binary_tail(ts, pos, lp, left).node,
        ),
    decreases ts.len() - pos, 3int,
{
    let op = at(ts, pos);
    let p = binary_precedence(op.kind);
    if !(p == 0 || p <= lp) {
        let r = binary_expr(ts, pos + 1, p);
        lemma_binary_evaluable(ts, pos + 1, p);
        let joined = NodeView::Binary(op, Box::new(left), Box::new(r.node));
        if !(r.pos <= pos || r.pos >= ts.len()) {
            let l = binary_tail(ts, r.pos, lp, joined);
            if (r.diags + l.diags).len() == 0 {
                lemma_tail_evaluable(ts, r.pos, lp, joined);
            }
        }
    }
}

proof fn lemma_unary_evaluable(ts: Seq<TokenView>, pos: int)
    requires
        in_range(ts, pos),
    ensures
        unary_expr(ts, pos).diags.len() == 0 ==> evaluable(unary_expr(ts, pos).node),
    decreases ts.len() - pos, 2int,
{
    if at(ts, pos).kind == TokenKind::Minus {
        lemma_unary_evaluable(ts, pos + 1);
    } else {
        lemma_primary_evaluable(ts, pos);
    }
}

proof fn lemma_primary_evaluable(ts: Seq<TokenView>, pos: int)
    requires
        in_range(ts, pos),
    ensures
        primary_expr(ts, pos).diags.len() == 0 ==> evaluable(primary_expr(ts, pos).node),
    decreases ts.len() - pos, 1int,
{
    let cur = at(ts, pos);
    if cur.kind == TokenKind::OpenParenthesis || cur.kind == TokenKind::Pipe {
        lemma_binary_evaluable(ts, pos + 1, 0);
    } else if cur.kind == TokenKind::FunctionCall {
        lemma_call_evaluable(ts, pos);
    }
}

proof fn lemma_call_evaluable(ts: Seq<TokenView>, pos: int)
    requires
        in_range(ts, pos),
        at(ts, pos).kind == TokenKind::FunctionCall,
    ensures
        function_call(ts, pos).diags.len() == 0 ==> evaluable(function_call(ts, pos).node),
    decreases ts.len() - pos, 0int,
{
    let name = at(ts, pos);
    let o = expect(ts, pos + 1, TokenKind::OpenParenthesis);
    if in_range(ts, o.pos) {
        let a = arguments(ts, o.pos);
        lemma_arguments_evaluable(ts, o.pos);
        let c = expect(ts, a.pos, TokenKind::CloseParenthesis);
        let d = o.diags + a.diags + c.diags + call_check(name, a.nodes.len());
        if d.len() == 0 {
            assert(call_check(name, a.nodes.len()).len() == 0);
            assert(a.diags.len() == 0);
        }
    }
}

proof fn lemma_arguments_evaluable(ts: Seq<TokenView>, pos: int)
    requires
        in_range(ts, pos),
    ensures
        arguments(ts, pos).diags.len() == 0 ==> all_evaluable(arguments(ts, pos).nodes),
    decreases ts.len() - pos, 5int,
{
    let cur = at(ts, pos);
    if !(cur.kind == TokenKind::CloseParenthesis || cur.kind == TokenKind::EndOfFile) {
        let a = binary_expr(ts, pos, 0);
        lemma_binary_evaluable(ts, pos, 0);
        if a.pos <= pos || a.pos >= ts.len() {
            lemma_all_evaluable_cons(a.node, seq![]);
            assert(seq![a.node] + Seq::<NodeView>::empty() =~= seq![a.node]);
        } else {
            let rest = arguments(ts, a.pos);
            lemma_arguments_evaluable(ts, a.pos);
            lemma_all_evaluable_cons(a.node, rest.nodes);
        }
    }
}

/// A successful parse of a token sequence that ends with the end-of-input token
/// yields a tree that evaluation handles in full: no unknown function, no call
/// with the wrong number of arguments, no malformed literal, no stray operator.
pub proof fn lemma_parsed_tree_evaluable(toks: Seq<TokenView>)
    requires
        toks.len() > 0,
        toks.last().kind == TokenKind::EndOfFile,
    ensures
        parse_result(toks) is Ok ==> evaluable(parse_result(toks)->Ok_0.root),
{
    lemma_usable_end(toks);
    lemma_binary_evaluable(usable_tokens(toks), 0, 0);
}

} // verus!
