use vstd::prelude::*;
use vstd::utf8::encode_utf8;

use crate::text::{decimal, push_decimal};
use crate::token::{views, Token, TokenKind, TokenView};

verus! {

/// White space as Unicode's `White_Space` property defines it.
pub open spec fn is_space(c: char) -> bool {
    let u = c as u32;
    (0x09 <= u && u <= 0x0D) || u == 0x20 || u == 0x85 || u == 0xA0 || u == 0x1680 || (0x2000
        <= u && u <= 0x200A) || u == 0x2028 || u == 0x2029 || u == 0x202F || u == 0x205F || u
        == 0x3000
}

pub open spec fn is_digit(c: char) -> bool {
    '0' <= c && c <= '9'
}

pub open spec fn is_letter(c: char) -> bool {
    ('a' <= c && c <= 'z') || ('A' <= c && c <= 'Z')
}

pub open spec fn is_word(c: char) -> bool {
    is_letter(c) || is_digit(c) || c == '_'
}

/// The number of digits in `t` from position `i` on, up to the first non-digit.
pub open spec fn digit_run(t: Seq<char>, i: int) -> nat
    decreases t.len() - i,
{
    if 0 <= i < t.len() && is_digit(t[i]) {
        1 + digit_run(t, i + 1)
    } else {
        0
    }
}

/// The number of word characters in `t` from position `i` on.
pub open spec fn word_run(t: Seq<char>, i: int) -> nat
    decreases t.len() - i,
{
    if 0 <= i < t.len() && is_word(t[i]) {
        1 + word_run(t, i + 1)
    } else {
        0
    }
}

/// Length of a numeric literal at `i`: digits, then optionally a point and more digits.
pub open spec fn number_len(t: Seq<char>, i: int) -> nat {
    let d = digit_run(t, i);
    if i + d < t.len() && t[i + d] == '.' {
        d + 1 + digit_run(t, i + d + 1)
    } else {
        d
    }
}

/// Whether a text is exactly one numeric literal.
pub open spec fn is_number_text(s: Seq<char>) -> bool {
    s.len() > 0 && is_digit(s[0]) && number_len(s, 0) == s.len()
}

/// Whether an identifier that is directly followed by `(` starts at `i`.
pub open spec fn is_call_at(t: Seq<char>, i: int) -> bool {
    is_letter(t[i]) && i + 1 + word_run(t, i + 1) < t.len() && t[i + 1 + word_run(t, i + 1)]
        == '('
}

/// The first lexical rule that matches the text `t` at position `i`, as a kind and
/// the number of characters it takes. The last character of `t` is the end marker.
pub open spec fn rule_at(t: Seq<char>, i: int) -> (TokenKind, nat) {
    let c = t[i];
    if is_space(c) {
        (TokenKind::WhiteSpace, 1)
    } else if c == '+' {
        (TokenKind::Plus, 1)
    } else if c == '-' {
        (TokenKind::Minus, 1)
    } else if c == '*' && i + 1 < t.len() && t[i + 1] == '*' {
        (TokenKind::DoubleStar, 2)
    } else if c == '%' {
        (TokenKind::Percent, 1)
    } else if c == '^' {
        (TokenKind::Caret, 1)
    } else if c == '*' {
        (TokenKind::Star, 1)
    } else if c == '/' {
        (TokenKind::Slash, 1)
    } else if c == '|' {
        (TokenKind::Pipe, 1)
    } else if c == '(' {
        (TokenKind::OpenParenthesis, 1)
    } else if c == ')' {
        (TokenKind::CloseParenthesis, 1)
    } else if is_digit(c) {
        (TokenKind::NumberToken, number_len(t, i))
    } else if c == ',' {
        (TokenKind::Comma, 1)
    } else if is_call_at(t, i) {
        (TokenKind::FunctionCall, 1 + word_run(t, i + 1))
    } else if c == '\0' && i == t.len() - 1 {
        (TokenKind::EndOfFile, 1)
    } else {
        (TokenKind::BadSymbol, 1)
    }
}

/// The offset in bytes, in UTF-8, of the character at position `i`.
pub open spec fn byte_offset(t: Seq<char>, i: int) -> usize {
    encode_utf8(t.subrange(0, i)).len() as usize
}

/// The token that the text `t` holds at position `i`.
pub open spec fn token_at(t: Seq<char>, i: int) -> TokenView {
    TokenView {
        kind: rule_at(t, i).0,
        index: byte_offset(t, i),
        value: t.subrange(i, i + rule_at(t, i).1),
    }
}

proof fn lemma_digit_run_bound(t: Seq<char>, i: int)
    requires
        0 <= i,
    ensures
        i + digit_run(t, i) <= t.len() || digit_run(t, i) == 0,
        t.len() > 0 && !is_digit(t[t.len() - 1]) && i < t.len() ==> i + digit_run(t, i) < t.len(),
        forall|j: int| i <= j < i + digit_run(t, i) ==> is_digit(#[trigger] t[j]),
        i + digit_run(t, i) < t.len() ==> !is_digit(t[i + digit_run(t, i)]),
    decreases t.len() - i,
{
    if 0 <= i < t.len() && is_digit(t[i]) {
        lemma_digit_run_bound(t, i + 1);
    }
}

proof fn lemma_word_run_bound(t: Seq<char>, i: int)
    requires
        0 <= i,
    ensures
        i + word_run(t, i) <= t.len() || word_run(t, i) == 0,
        forall|j: int| i <= j < i + word_run(t, i) ==> is_word(#[trigger] t[j]),
        i + word_run(t, i) < t.len() ==> !is_word(t[i + word_run(t, i)]),
    decreases t.len() - i,
{
    if 0 <= i < t.len() && is_word(t[i]) {
        lemma_word_run_bound(t, i + 1);
    }
}

/// Every rule takes at least one character, and only the end marker reaches the end.
proof fn lemma_rule_len(t: Seq<char>, i: int)
    requires
        0 <= i < t.len(),
        t[t.len() - 1] == '\0',
    ensures
        rule_at(t, i).1 >= 1,
        i + rule_at(t, i).1 <= t.len(),
        i + rule_at(t, i).1 == t.len() <==> i == t.len() - 1,
        i == t.len() - 1 ==> rule_at(t, i).0 == TokenKind::EndOfFile,
{
    lemma_digit_run_bound(t, i);
    lemma_word_run_bound(t, i + 1);
    let d = digit_run(t, i);
    if i + d < t.len() && t[i + d] == '.' {
        lemma_digit_run_bound(t, i + d + 1);
    }
    if i == t.len() - 1 {
        assert(('\0' as u32) == 0);
    }
}

/// The tokens of `t` from position `i` on.
pub open spec fn lex_from(t: Seq<char>, i: int) -> Seq<TokenView>
    decreases t.len() - i,
    via lex_from_decreases
{
    if 0 <= i < t.len() && t[t.len() - 1] == '\0' {
        seq![token_at(t, i)] + lex_from(t, i + rule_at(t, i).1)
    } else {
        seq![]
    }
}

#[via_fn]
proof fn lex_from_decreases(t: Seq<char>, i: int) {
    if 0 <= i < t.len() && t[t.len() - 1] == '\0' {
        lemma_rule_len(t, i);
    }
}

/// The tokens of a source text, which the end marker completes.
pub open spec fn lex_tokens(s: Seq<char>) -> Seq<TokenView> {
    lex_from(s.push('\0'), 0)
}

/// The message for a character that no lexical rule accepts.
pub open spec fn symbol_message(tok: TokenView) -> Seq<char> {
    "invalid symbol '"@ + tok.value + "' at index "@ + decimal(tok.index as nat)
}

/// The messages for the bad symbols among `toks`, in order.
pub open spec fn lexical_errors(toks: Seq<TokenView>) -> Seq<Seq<char>>
    decreases toks.len(),
{
    if toks.len() == 0 {
        seq![]
    } else if toks.last().kind == TokenKind::BadSymbol {
        lexical_errors(toks.drop_last()).push(symbol_message(toks.last()))
    } else {
        lexical_errors(toks.drop_last())
    }
}

/// The views of a sequence of strings.
pub open spec fn texts(v: Seq<String>) -> Seq<Seq<char>> {
    v.map_values(|e: String| e@)
}

/// The tokens that `lex_from` yields from a position on end with the end-of-input
/// token, and no other token has that kind.
proof fn lemma_lex_from_end(t: Seq<char>, i: int)
    requires
        0 <= i < t.len(),
        t[t.len() - 1] == '\0',
    ensures
        lex_from(t, i).len() > 0,
        lex_from(t, i).last().kind == TokenKind::EndOfFile,
        forall|j: int|
            0 <= j < lex_from(t, i).len() - 1 ==> #[trigger] lex_from(t, i)[j].kind
                != TokenKind::EndOfFile,
    decreases t.len() - i,
{
    lemma_rule_len(t, i);
    let n = rule_at(t, i).1;
    if i + n < t.len() {
        lemma_lex_from_end(t, i + n);
        let rest = lex_from(t, i + n);
        assert(lex_from(t, i) == seq![token_at(t, i)] + rest);
        assert forall|j: int| 0 <= j < lex_from(t, i).len() - 1 implies #[trigger] lex_from(
            t,
            i,
        )[j].kind != TokenKind::EndOfFile by {
            if j > 0 {
                assert(lex_from(t, i)[j] == rest[j - 1]);
            }
        }
    } else {
        assert(lex_from(t, i + n) == Seq::<TokenView>::empty());
        assert(lex_from(t, i) =~= seq![token_at(t, i)]);
    }
}

/// The tokens of every source end with the end-of-input token, and hold no other.
pub proof fn lemma_lex_tokens_end(s: Seq<char>)
    ensures
        lex_tokens(s).len() > 0,
        lex_tokens(s).last().kind == TokenKind::EndOfFile,
        forall|j: int|
            0 <= j < lex_tokens(s).len() - 1 ==> #[trigger] lex_tokens(s)[j].kind
                != TokenKind::EndOfFile,
{
    lemma_lex_from_end(s.push('\0'), 0);
}

fn char_is_space(c: char) -> (r: bool)
    ensures
        r == is_space(c),
{
    let u = c as u32;
    (0x09 <= u && u <= 0x0D) || u == 0x20 || u == 0x85 || u == 0xA0 || u == 0x1680 || (0x2000
        <= u && u <= 0x200A) || u == 0x2028 || u == 0x2029 || u == 0x202F || u == 0x205F || u
        == 0x3000
}

fn char_is_digit(c: char) -> (r: bool)
    ensures
        r == is_digit(c),
{
    '0' <= c && c <= '9'
}

fn char_is_letter(c: char) -> (r: bool)
    ensures
        r == is_letter(c),
{
    ('a' <= c && c <= 'z') || ('A' <= c && c <= 'Z')
}

fn char_is_word(c: char) -> (r: bool)
    ensures
        r == is_word(c),
{
    char_is_letter(c) || char_is_digit(c) || c == '_'
}

fn count_digits(s: &str, len: usize, i: usize) -> (r: usize)
    requires
        len == s@.len(),
        i <= len,
    ensures
        r == digit_run(s@, i as int),
        i + r <= len,
{
    let mut j: usize = i;
    while j < len && char_is_digit(s.get_char(j))
        invariant
            len == s@.len(),
            i <= j <= len,
            digit_run(s@, i as int) == (j - i) + digit_run(s@, j as int),
        decreases len - j,
    {
        j = j + 1;
    }
    j - i
}

fn count_word(s: &str, len: usize, i: usize) -> (r: usize)
    requires
        len == s@.len(),
        i <= len,
    ensures
        r == word_run(s@, i as int),
        i + r <= len,
{
    let mut j: usize = i;
    while j < len && char_is_word(s.get_char(j))
        invariant
            len == s@.len(),
            i <= j <= len,
            word_run(s@, i as int) == (j - i) + word_run(s@, j as int),
        decreases len - j,
    {
        j = j + 1;
    }
    j - i
}

/// The message for a bad symbol token.
pub fn symbol_error(tok: &Token) -> (r: String)
    ensures
        r@ == symbol_message(tok@),
{
    let mut m = String::from_str("invalid symbol '");
    m.append(tok.value.as_str());
    m.append("' at index ");
    push_decimal(&mut m, tok.index);
    m
}

/// Turns a source text into tokens, one rule match at a time, and collects a
/// message for each character that no rule accepts.
pub struct Lexer {
    pub errors: Vec<String>,
    source: String,
    length: usize,
    index: usize,
}

impl Lexer {
    /// The text being scanned: the source followed by the end marker.
    pub closed spec fn text(&self) -> Seq<char> {
        self.source@
    }

    /// The position of the next character to scan.
    pub closed spec fn position(&self) -> nat {
        self.index as nat
    }

    /// The messages collected so far.
    pub closed spec fn messages(&self) -> Seq<Seq<char>> {
        texts(self.errors@)
    }

    pub closed spec fn wf(&self) -> bool {
        &&& self.length == self.source@.len()
        &&& self.index <= self.length
        &&& self.source@.len() > 0
        &&& self.source@.last() == '\0'
    }

    pub fn lex(source: String) -> (r: Vec<Token>)
        ensures
            views(r@) == lex_tokens(source@),
            r@.len() > 0,
            r@.last().kind == TokenKind::EndOfFile,
    {
        let mut lexer = Lexer::new(source);
        let mut out: Vec<Token> = Vec::new();
        loop
            invariant
                lexer.wf(),
                lexer.text() == source@.push('\0'),
                views(out@) + lex_from(lexer.text(), lexer.position() as int) == lex_tokens(
                    source@,
                ),
            ensures
                views(out@) == lex_tokens(source@),
            decreases lexer.text().len() - lexer.position(),
        {
            let ghost before = views(out@);
            let ghost pos = lexer.position() as int;
            match lexer.next() {
                None => {
                    assert(lex_from(lexer.text(), pos) == Seq::<TokenView>::empty());
                    assert(lex_from(lexer.text(), pos) =~= Seq::<TokenView>::empty());
                    assert(before + lex_from(lexer.text(), pos) =~= before);
                    break ;
                },
                Some(t) => {
                    out.push(t);
                    proof {
                        let tt = lexer.text();
                        assert(views(out@) =~= before.push(t@));
                        assert(lex_from(tt, pos) == seq![token_at(tt, pos)] + lex_from(
                            tt,
                            lexer.position() as int,
                        ));
                        assert(views(out@) + lex_from(tt, lexer.position() as int) =~= before
                            + lex_from(tt, pos));
                    }
                },
            }
        }
        proof {
            lemma_lex_tokens_end(source@);
            assert(views(out@).last() == out@.last()@);
        }
        out
    }

    pub fn new(source: String) -> (r: Lexer)
        ensures
            r.wf(),
            r.text() == source@.push('\0'),
            r.position() == 0,
            r.messages().len() == 0,
    {
        let mut text = source;
        proof {
            reveal_strlit("\0");
        }
        text.append("\0");
        assert(text@ =~= source@.push('\0'));
        let length = text.as_str().unicode_len();
        Lexer { errors: Vec::new(), source: text, length, index: 0 }
    }

    fn next_token(&mut self) -> (r: Token)
        requires
            old(self).wf(),
            old(self).position() < old(self).text().len(),
        ensures
            final(self).wf(),
            final(self).text() == old(self).text(),
            r@ == token_at(old(self).text(), old(self).position() as int),
            final(self).position() == old(self).position() + rule_at(
                old(self).text(),
                old(self).position() as int,
            ).1,
            texts(final(self).errors@) == texts(old(self).errors@) + lexical_errors(seq![r@]),
    {
        let ghost t = self.source@;
        let i = self.index;
        let len = self.length;
        let s = self.source.as_str();
        proof {
            lemma_rule_len(t, i as int);
        }
        let c = s.get_char(i);
        let (kind, n): (TokenKind, usize) = if char_is_space(c) {
            (TokenKind::WhiteSpace, 1)
        } else if c == '+' {
            (TokenKind::Plus, 1)
        } else if c == '-' {
            (TokenKind::Minus, 1)
        } else if c == '*' && i + 1 < len && s.get_char(i + 1) == '*' {
            (TokenKind::DoubleStar, 2)
        } else if c == '%' {
            (TokenKind::Percent, 1)
        } else if c == '^' {
            (TokenKind::Caret, 1)
        } else if c == '*' {
            (TokenKind::Star, 1)
        } else if c == '/' {
            (TokenKind::Slash, 1)
        } else if c == '|' {
            (TokenKind::Pipe, 1)
        } else if c == '(' {
            (TokenKind::OpenParenthesis, 1)
        } else if c == ')' {
            (TokenKind::CloseParenthesis, 1)
        } else if char_is_digit(c) {
            let d = count_digits(s, len, i);
            if i + d < len && s.get_char(i + d) == '.' {
                let e = count_digits(s, len, i + d + 1);
                (TokenKind::NumberToken, d + 1 + e)
            } else {
                (TokenKind::NumberToken, d)
            }
        } else if c == ',' {
            (TokenKind::Comma, 1)
        } else if char_is_letter(c) && {
            let w = count_word(s, len, i + 1);
            i + 1 + w < len && s.get_char(i + 1 + w) == '('
        } {
            (TokenKind::FunctionCall, 1 + count_word(s, len, i + 1))
        } else if c == '\0' && i == len - 1 {
            (TokenKind::EndOfFile, 1)
        } else {
            (TokenKind::BadSymbol, 1)
        };
        assert(kind == rule_at(t, i as int).0 && n == rule_at(t, i as int).1);
        let value = String::from_str(s.substring_char(i, i + n));
        let offset = s.substring_char(0, i).len();
        let tok = Token::new(kind, offset, value);
        self.index = i + n;
        let ghost before = self.errors@;
        if kind == TokenKind::BadSymbol {
            self.errors.push(symbol_error(&tok));
            assert(texts(self.errors@) =~= texts(before).push(symbol_message(tok@)));
        }
        assert(seq![tok@].drop_last() =~= Seq::<TokenView>::empty());
        assert(seq![tok@].last() == tok@);
        assert(lexical_errors(Seq::<TokenView>::empty()) =~= Seq::<Seq<char>>::empty());
        assert(texts(self.errors@) =~= texts(before) + lexical_errors(seq![tok@]));
        tok
    }

    /// Whether a text is one whole numeric literal: digits, then optionally a point
    /// and more digits.
    pub fn is_valid_int(string: &str) -> (r: bool)
        ensures
            r == is_number_text(string@),
    {
        let len = string.unicode_len();
        if len == 0 || !char_is_digit(string.get_char(0)) {
            return false;
        }
        let d = count_digits(string, len, 0);
        let n = if d < len && string.get_char(d) == '.' {
            d + 1 + count_digits(string, len, d + 1)
        } else {
            d
        };
        n == len
    }

    /// The next token, or `None` once the end marker has been scanned.
    pub fn next(&mut self) -> (r: Option<Token>)
        requires
            old(self).wf(),
        ensures
            final(self).wf(),
            final(self).text() == old(self).text(),
            old(self).position() == old(self).text().len() ==> r is None && final(self).position()
                == old(self).position() && final(self).messages() == old(self).messages(),
            old(self).position() < old(self).text().len() ==> r is Some && r->0@ == token_at(
                old(self).text(),
                old(self).position() as int,
            ) && final(self).position() == old(self).position() + rule_at(
                old(self).text(),
                old(self).position() as int,
            ).1 && final(self).messages() == old(self).messages() + lexical_errors(
                seq![r->0@],
            ),
    {
        if self.index == self.length {
            None
        } else {
            Some(self.next_token())
        }
    }
}

} // verus!
