//! The lexer: source text to tokens.

use crate::atom::{Atom, AtomV, overflow_msg, string_view, word_atom};
use crate::exception::{Exception, SyntaxError};
use crate::positions::Position;
use crate::span::{CharPositions, Span, last_pos, position_at, positions_fit, lemma_position_step};
use crate::text::{chars_of, string_from_chars};
use std::rc::Rc;
use vstd::prelude::*;

verus! {

/// A token of source code with location information.
#[derive(Debug)]
pub struct Token {
    /// The actual token.
    pub data: TokenData,
    /// The start and end of the character range this token was created from.
    pub span: Span,
}

/// The kinds of tokens.
#[derive(Debug)]
pub enum TokenData {
    /// `(`
    LeftParen,
    /// `,`
    Comma,
    /// `)`
    RightParen,
    /// A literal value: a number, `true`, `false`, `null` or a string.
    Atom(Atom),
    /// A name.
    Name(String),
    /// A comment (without its `#`).
    Comment(String),
}

/// The model of a token's kind.
pub enum TokenDataV {
    /// `(`
    LeftParen,
    /// `,`
    Comma,
    /// `)`
    RightParen,
    /// A literal value.
    Atom(AtomV),
    /// A name.
    Name(Seq<char>),
    /// A comment.
    Comment(Seq<char>),
}

/// The model of a token.
pub struct TokenV {
    /// Its kind.
    pub data: TokenDataV,
    /// Its span.
    pub span: Span,
}

/// The model of a token's kind.
pub open spec fn data_view(d: TokenData) -> TokenDataV {
    match d {
        TokenData::LeftParen => TokenDataV::LeftParen,
        TokenData::Comma => TokenDataV::Comma,
        TokenData::RightParen => TokenDataV::RightParen,
        TokenData::Atom(a) => TokenDataV::Atom(a@),
        TokenData::Name(n) => TokenDataV::Name(n@),
        TokenData::Comment(c) => TokenDataV::Comment(c@),
    }
}

/// The model of a token.
pub open spec fn token_view(t: Token) -> TokenV {
    TokenV { data: data_view(t.data), span: t.span }
}

/// The models of a sequence of tokens.
pub open spec fn tokens_view(ts: Seq<Token>) -> Seq<TokenV> {
    ts.map_values(|t: Token| token_view(t))
}

impl Token {
    /// Whether this token is a comment.
    pub fn is_comment(&self) -> (b: bool)
        ensures
            b == (self.data is Comment),
    {
        match self.data {
            TokenData::Comment(_) => true,
            _ => false,
        }
    }

    /// The value of a literal token.
    pub fn to_atom(&self) -> (r: Option<Atom>)
        ensures
            match self.data {
                TokenData::Atom(a) => r == Some(a),
                _ => r is None,
            },
    {
        match &self.data {
            TokenData::Atom(a) => Some(a.clone()),
            _ => None,
        }
    }

    /// The name of a name token.
    pub fn to_name(&self) -> (r: Option<String>)
        ensures
            match self.data {
                TokenData::Name(n) => r matches Some(s) && s@ == n@,
                _ => r is None,
            },
    {
        match &self.data {
            TokenData::Name(n) => Some(crate::text::string_from_chars(&crate::text::chars_of(n.as_str()))),
            _ => None,
        }
    }

    /// Whether this token is a comma.
    pub fn is_comma(&self) -> (b: bool)
        ensures
            b == (self.data is Comma),
    {
        match self.data {
            TokenData::Comma => true,
            _ => false,
        }
    }
}

/// The index of the first `target` at or after `from`, if any.
pub open spec fn first_index_of(s: Seq<char>, from: int, target: char) -> Option<int>
    decreases s.len() - from,
{
    if from < 0 || from >= s.len() {
        None
    } else if s[from] == target {
        Some(from)
    } else {
        first_index_of(s, from + 1, target)
    }
}

/// `first_index_of` finds the first occurrence, after which nothing was skipped.
pub proof fn lemma_first_index_of(s: Seq<char>, from: int, target: char)
    requires
        0 <= from,
    ensures
        match first_index_of(s, from, target) {
            Some(j) => from <= j < s.len() && s[j] == target && forall|k: int|
                from <= k < j ==> s[k] != target,
            None => forall|k: int| from <= k < s.len() ==> s[k] != target,
        },
    decreases s.len() - from,
{
    if from < s.len() && s[from] != target {
        lemma_first_index_of(s, from + 1, target);
    }
}

/// Takes characters from the stream until `target` is reached.
/// Returns the position of `target` and all characters before it, or all the
/// remaining characters if `target` never comes.
pub fn take_until(chars: &mut CharPositions, target: char) -> (r: Result<(Position, Vec<char>), Vec<char>>)
    requires
        old(chars).wf(),
        0 <= old(chars).index() <= old(chars).text().len(),
    ensures
        final(chars).wf(),
        final(chars).text() == old(chars).text(),
        match first_index_of(old(chars).text(), old(chars).index(), target) {
            Some(j) => {
                &&& r matches Ok((p, body))
                &&& p == position_at(old(chars).text(), j)
                &&& body@ == old(chars).text().subrange(old(chars).index(), j)
                &&& final(chars).index() == j + 1
            },
            None => {
                &&& r matches Err(body)
                &&& body@ == old(chars).text().subrange(old(chars).index(), old(chars).text().len() as int)
                &&& final(chars).index() == old(chars).text().len()
            },
        },
{
    let ghost start = chars.index();
    let ghost text = chars.text();
    proof {
        lemma_first_index_of(text, start, target);
    }
    let mut result: Vec<char> = Vec::new();
    loop
        invariant
            chars.wf(),
            chars.text() == text,
            text == old(chars).text(),
            start == old(chars).index(),
            0 <= start <= chars.index() <= text.len(),
            result@ == text.subrange(start, chars.index()),
            forall|k: int| start <= k < chars.index() ==> text[k] != target,
        decreases text.len() - chars.index(),
    {
        let ghost before = chars.index();
        match chars.next() {
            Some((pos, c)) => {
                if c == target {
                    proof {
                        lemma_first_index_of(text, start, target);
                        assert(text[before] == target);
                        match first_index_of(text, start, target) {
                            Some(j) => {
                                if j < before {
                                    assert(text[j] != target);
                                }
                                if j > before {
                                    assert(text[before] != target);
                                }
                            },
                            None => {
                                assert(text[before] != target);
                            },
                        }
                    }
                    return Ok((pos, result));
                }
                result.push(c);
                assert(result@ =~= text.subrange(start, chars.index()));
            },
            None => {
                proof {
                    lemma_first_index_of(text, start, target);
                    if let Some(j) = first_index_of(text, start, target) {
                        assert(text[j] != target);
                    }
                }
                return Err(result);
            },
        }
    }
}

/// Whether `c` ends a word and is not itself part of a token other than `)` or `,`.
pub open spec fn is_separator(c: char) -> bool {
    c == ')' || c == ',' || c == ' ' || c == '\n' || c == '\t'
}

/// The token kind a finished word becomes: a literal value, or else a name.
/// `Err` for an integer literal that does not fit in 64 bits.
pub open spec fn word_data(cur: Seq<char>) -> Result<TokenDataV, ()> {
    match word_atom(cur) {
        Ok(Some(a)) => Ok(TokenDataV::Atom(a)),
        Ok(None) => Ok(TokenDataV::Name(cur)),
        Err(()) => Err(()),
    }
}

/// The outcome of lexing: the tokens, or the message of a syntax error.
pub enum LexOutcome {
    /// The tokens.
    Done(Seq<TokenV>),
    /// A syntax error with this message.
    Failed(Seq<char>),
}

/// The position given to an empty word (never read).
pub open spec fn no_start() -> Position {
    Position { line: 1, column: 1 }
}

/// A token kind with its span in the file `f`.
pub open spec fn tok(d: TokenDataV, f: Rc<String>, start: Position, end: Position) -> TokenV {
    TokenV { data: d, span: Span { file: f, start, end } }
}

/// The position just before `p` on the same line.
pub open spec fn back(p: Position) -> Position {
    Position { line: p.line, column: (p.column - 1) as u32 }
}

/// Lexes the text `s` of the file `f` from index `i`, given the tokens `toks`
/// found so far and the word `cur` (started at `cur_start`) being read.
///
/// Parentheses and commas are tokens of their own; spaces, tabs and newlines
/// separate words; `"` starts a string literal that runs to the next `"`, and
/// `#` a comment that runs to the end of the line (both may interrupt a word,
/// which then continues after them). A word becomes a literal value or a name
/// when a separator, `(` or the end of the text finishes it; before `(` it is
/// always a name.
pub open spec fn lex(
    s: Seq<char>,
    f: Rc<String>,
    i: int,
    toks: Seq<TokenV>,
    cur: Seq<char>,
    cur_start: Position,
) -> LexOutcome
    decreases s.len() - i,
{
    if i < 0 || i >= s.len() {
        if cur.len() == 0 {
            LexOutcome::Done(toks)
        } else {
            match word_data(cur) {
                Ok(d) => LexOutcome::Done(toks.push(tok(d, f, cur_start, position_at(s, s.len() - 1)))),
                Err(()) => LexOutcome::Failed(overflow_msg(cur)),
            }
        }
    } else {
        let c = s[i];
        let p = position_at(s, i);
        if c == '(' {
            let toks1 = if cur.len() > 0 {
                toks.push(tok(TokenDataV::Name(cur), f, cur_start, back(p)))
            } else {
                toks
            };
            lex(s, f, i + 1, toks1.push(tok(TokenDataV::LeftParen, f, p, p)), Seq::empty(), no_start())
        } else if is_separator(c) {
            if cur.len() > 0 && word_data(cur) is Err {
                LexOutcome::Failed(overflow_msg(cur))
            } else {
                let toks1 = if cur.len() > 0 {
                    toks.push(tok(word_data(cur)->Ok_0, f, cur_start, back(p)))
                } else {
                    toks
                };
                let toks2 = if c == ')' {
                    toks1.push(tok(TokenDataV::RightParen, f, p, p))
                } else if c == ',' {
                    toks1.push(tok(TokenDataV::Comma, f, p, p))
                } else {
                    toks1
                };
                lex(s, f, i + 1, toks2, Seq::empty(), no_start())
            }
        } else if c == '"' {
            proof {
                lemma_first_index_of(s, i + 1, '"');
            }
            match first_index_of(s, i + 1, '"') {
                None => LexOutcome::Failed("unclosed string literal"@),
                Some(j) => lex(
                    s,
                    f,
                    j + 1,
                    toks.push(tok(TokenDataV::Atom(string_view(s.subrange(i + 1, j))), f, p, position_at(s, j))),
                    cur,
                    cur_start,
                ),
            }
        } else if c == '#' {
            proof {
                lemma_first_index_of(s, i + 1, '\n');
            }
            match first_index_of(s, i + 1, '\n') {
                None => lex(
                    s,
                    f,
                    s.len() as int,
                    toks.push(tok(TokenDataV::Comment(s.subrange(i + 1, s.len() as int)), f, p, position_at(s, s.len() - 1))),
                    cur,
                    cur_start,
                ),
                Some(j) => lex(
                    s,
                    f,
                    j + 1,
                    toks.push(tok(TokenDataV::Comment(s.subrange(i + 1, j)), f, p, position_at(s, j))),
                    cur,
                    cur_start,
                ),
            }
        } else {
            lex(s, f, i + 1, toks, cur.push(c), if cur.len() == 0 { p } else { cur_start })
        }
    }
}

/// The outcome of lexing the whole text `s` of the file `f`.
pub open spec fn tokenize_spec(s: Seq<char>, f: Rc<String>) -> LexOutcome {
    lex(s, f, 0, Seq::empty(), Seq::empty(), no_start())
}

/// The message of the syntax error found in lexing `s`, if there is one. It
/// does not depend on the file (see [`lemma_lex_failure_independent`]).
pub open spec fn lex_error(s: Seq<char>) -> Option<Seq<char>> {
    match tokenize_spec(s, vstd::pervasive::arbitrary()) {
        LexOutcome::Failed(m) => Some(m),
        LexOutcome::Done(_) => None,
    }
}

/// Whether lexing fails, and with which message, depends neither on the
/// file nor on the tokens found so far.
pub proof fn lemma_lex_failure_independent(
    s: Seq<char>,
    f1: Rc<String>,
    f2: Rc<String>,
    i: int,
    t1: Seq<TokenV>,
    t2: Seq<TokenV>,
    cur: Seq<char>,
    cs: Position,
)
    ensures
        (lex(s, f1, i, t1, cur, cs) is Failed) == (lex(s, f2, i, t2, cur, cs) is Failed),
        lex(s, f1, i, t1, cur, cs) is Failed ==> lex(s, f1, i, t1, cur, cs) == lex(s, f2, i, t2, cur, cs),
    decreases s.len() - i,
{
    if i < 0 || i >= s.len() {
    } else {
        let c = s[i];
        let p = position_at(s, i);
        if c == '(' {
            let a1 = if cur.len() > 0 {
                t1.push(tok(TokenDataV::Name(cur), f1, cs, back(p)))
            } else {
                t1
            };
            let a2 = if cur.len() > 0 {
                t2.push(tok(TokenDataV::Name(cur), f2, cs, back(p)))
            } else {
                t2
            };
            lemma_lex_failure_independent(
                s,
                f1,
                f2,
                i + 1,
                a1.push(tok(TokenDataV::LeftParen, f1, p, p)),
                a2.push(tok(TokenDataV::LeftParen, f2, p, p)),
                Seq::empty(),
                no_start(),
            );
        } else if is_separator(c) {
            if cur.len() > 0 && word_data(cur) is Err {
            } else {
                let a1 = if cur.len() > 0 {
                    t1.push(tok(word_data(cur)->Ok_0, f1, cs, back(p)))
                } else {
                    t1
                };
                let a2 = if cur.len() > 0 {
                    t2.push(tok(word_data(cur)->Ok_0, f2, cs, back(p)))
                } else {
                    t2
                };
                let b1 = if c == ')' {
                    a1.push(tok(TokenDataV::RightParen, f1, p, p))
                } else if c == ',' {
                    a1.push(tok(TokenDataV::Comma, f1, p, p))
                } else {
                    a1
                };
                let b2 = if c == ')' {
                    a2.push(tok(TokenDataV::RightParen, f2, p, p))
                } else if c == ',' {
                    a2.push(tok(TokenDataV::Comma, f2, p, p))
                } else {
                    a2
                };
                lemma_lex_failure_independent(s, f1, f2, i + 1, b1, b2, Seq::empty(), no_start());
            }
        } else if c == '"' {
            lemma_first_index_of(s, i + 1, '"');
            match first_index_of(s, i + 1, '"') {
                None => {},
                Some(j) => {
                    lemma_lex_failure_independent(
                        s,
                        f1,
                        f2,
                        j + 1,
                        t1.push(
                            tok(
                                TokenDataV::Atom(string_view(s.subrange(i + 1, j))),
                                f1,
                                p,
                                position_at(s, j),
                            ),
                        ),
                        t2.push(
                            tok(
                                TokenDataV::Atom(string_view(s.subrange(i + 1, j))),
                                f2,
                                p,
                                position_at(s, j),
                            ),
                        ),
                        cur,
                        cs,
                    );
                },
            }
        } else if c == '#' {
            lemma_first_index_of(s, i + 1, '\n');
            match first_index_of(s, i + 1, '\n') {
                None => {
                    lemma_lex_failure_independent(
                        s,
                        f1,
                        f2,
                        s.len() as int,
                        t1.push(
                            tok(
                                TokenDataV::Comment(s.subrange(i + 1, s.len() as int)),
                                f1,
                                p,
                                position_at(s, s.len() - 1),
                            ),
                        ),
                        t2.push(
                            tok(
                                TokenDataV::Comment(s.subrange(i + 1, s.len() as int)),
                                f2,
                                p,
                                position_at(s, s.len() - 1),
                            ),
                        ),
                        cur,
                        cs,
                    );
                },
                Some(j) => {
                    lemma_lex_failure_independent(
                        s,
                        f1,
                        f2,
                        j + 1,
                        t1.push(
                            tok(TokenDataV::Comment(s.subrange(i + 1, j)), f1, p, position_at(s, j)),
                        ),
                        t2.push(
                            tok(TokenDataV::Comment(s.subrange(i + 1, j)), f2, p, position_at(s, j)),
                        ),
                        cur,
                        cs,
                    );
                },
            }
        } else {
            lemma_lex_failure_independent(
                s,
                f1,
                f2,
                i + 1,
                t1,
                t2,
                cur.push(c),
                if cur.len() == 0 {
                    p
                } else {
                    cs
                },
            );
        }
    }
}

} // verus!

verus! {

/// The start given to the word being read: its first position, if it has begun.
pub open spec fn start_of(o: Option<Position>) -> Position {
    match o {
        Some(p) => p,
        None => no_start(),
    }
}

proof fn lemma_tokens_view_push(ts: Seq<Token>, t: Token)
    ensures
        tokens_view(ts.push(t)) == tokens_view(ts).push(token_view(t)),
{
    assert(tokens_view(ts.push(t)) =~= tokens_view(ts).push(token_view(t)));
}

/// Splits source code into tokens (see [`tokenize_spec`]). Every span names the
/// file `file_path`.
pub fn tokenize(code: &str, file_path: Rc<String>) -> (r: Result<Vec<Token>, Exception>)
    requires
        positions_fit(code@),
    ensures
        match r {
            Ok(ts) => tokenize_spec(code@, file_path) == LexOutcome::Done(tokens_view(ts@)),
            Err(e) => {
                &&& tokenize_spec(code@, file_path) matches LexOutcome::Failed(m)
                &&& e.msg@ == m
                &&& e.error@ == SyntaxError@
                &&& e.backtrace.is_none()
            },
        },
{
    proof {
        reveal_strlit("unclosed string literal");
    }
    let ghost s = code@;
    let ghost f = file_path;
    let mut tokens: Vec<Token> = Vec::new();
    let mut current: Vec<char> = Vec::new();
    let mut chars = CharPositions::new(code);
    let mut current_start: Option<Position> = None;
    assert(tokens_view(tokens@) =~= Seq::<TokenV>::empty());
    assert(current@ =~= Seq::<char>::empty());
    loop
        invariant
            chars.wf(),
            chars.text() == s,
            s == code@,
            f == file_path,
            positions_fit(s),
            0 <= chars.index() <= s.len(),
            (current@.len() > 0) == current_start.is_some(),
            lex(s, f, chars.index(), tokens_view(tokens@), current@, start_of(current_start))
                == tokenize_spec(s, f),
        ensures
            chars.index() == s.len(),
            (current@.len() > 0) == current_start.is_some(),
            lex(s, f, chars.index(), tokens_view(tokens@), current@, start_of(current_start))
                == tokenize_spec(s, f),
        decreases s.len() - chars.index(),
    {
        let ghost i = chars.index();
        let ghost tv = tokens_view(tokens@);
        let next = chars.next();
        match next {
            None => {
                break;
            },
            Some((char_pos, c)) => {
                proof {
                    lemma_position_step(s, i);
                    lemma_first_index_of(s, i + 1, '"');
                    lemma_first_index_of(s, i + 1, '\n');
                }
                if c == '(' {
                    if current.len() != 0 {
                        let st = current_start.unwrap();
                        let name = string_from_chars(&current);
                        let t = Token {
                            data: TokenData::Name(name),
                            span: Span::new(st, char_pos.one_back(), file_path.clone()),
                        };
                        proof {
                            lemma_tokens_view_push(tokens@, t);
                        }
                        tokens.push(t);
                        current = Vec::new();
                        current_start = None;
                    }
                    let t = Token {
                        data: TokenData::LeftParen,
                        span: Span::new(char_pos, char_pos, file_path.clone()),
                    };
                    proof {
                        lemma_tokens_view_push(tokens@, t);
                    }
                    tokens.push(t);
                    assert(current@ =~= Seq::<char>::empty());
                } else if c == ')' || c == ',' || c == ' ' || c == '\n' || c == '\t' {
                    if current.len() != 0 {
                        let st = current_start.unwrap();
                        let data = match Atom::try_from_chars(&current) {
                            Ok(Some(v)) => TokenData::Atom(v),
                            Ok(None) => TokenData::Name(string_from_chars(&current)),
                            Err(e) => {
                                return Err(e);
                            },
                        };
                        let t = Token { data, span: Span::new(st, char_pos.one_back(), file_path.clone()) };
                        proof {
                            lemma_tokens_view_push(tokens@, t);
                        }
                        tokens.push(t);
                        current = Vec::new();
                        current_start = None;
                    }
                    if c == ')' {
                        let t = Token {
                            data: TokenData::RightParen,
                            span: Span::new(char_pos, char_pos, file_path.clone()),
                        };
                        proof {
                            lemma_tokens_view_push(tokens@, t);
                        }
                        tokens.push(t);
                    } else if c == ',' {
                        let t = Token {
                            data: TokenData::Comma,
                            span: Span::new(char_pos, char_pos, file_path.clone()),
                        };
                        proof {
                            lemma_tokens_view_push(tokens@, t);
                        }
                        tokens.push(t);
                    }
                    assert(current@ =~= Seq::<char>::empty());
                } else if c == '"' {
                    match take_until(&mut chars, '"') {
                        Ok((end_pos, body)) => {
                            let t = Token {
                                data: TokenData::Atom(Atom::new_string_chars(&body)),
                                span: Span::new(char_pos, end_pos, file_path.clone()),
                            };
                            proof {
                                lemma_tokens_view_push(tokens@, t);
                            }
                            tokens.push(t);
                        },
                        Err(_) => {
                            return Err(Exception::unspanned(SyntaxError, "unclosed string literal"));
                        },
                    }
                } else if c == '#' {
                    let (end_pos, body) = match take_until(&mut chars, '\n') {
                        Ok(x) => x,
                        Err(body) => (last_pos(code), body),
                    };
                    let t = Token {
                        data: TokenData::Comment(string_from_chars(&body)),
                        span: Span::new(char_pos, end_pos, file_path.clone()),
                    };
                    proof {
                        lemma_tokens_view_push(tokens@, t);
                    }
                    tokens.push(t);
                } else {
                    if current_start.is_none() {
                        current_start = Some(char_pos);
                    }
                    current.push(c);
                }
            },
        }
    }
    if current.len() != 0 {
        let st = current_start.unwrap();
        let data = match Atom::try_from_chars(&current) {
            Ok(Some(v)) => TokenData::Atom(v),
            Ok(None) => TokenData::Name(string_from_chars(&current)),
            Err(e) => {
                return Err(e);
            },
        };
        let t = Token { data, span: Span::new(st, last_pos(code), file_path.clone()) };
        proof {
            lemma_tokens_view_push(tokens@, t);
        }
        tokens.push(t);
    }
    Ok(tokens)
}

} // verus!

verus! {

/// The text enclosed by a span whose start and end are positions of
/// characters of `text`, start not after end; `None` for any other span.
pub open spec fn extract_spec(text: Seq<char>, start: Position, end: Position) -> Option<Seq<char>> {
    if exists|e: int| 0 <= e < text.len() && position_at(text, e) == end {
        let e = choose|e: int| 0 <= e < text.len() && position_at(text, e) == end;
        if exists|b: int| 0 <= b <= e && position_at(text, b) == start {
            let b = choose|b: int| 0 <= b <= e && position_at(text, b) == start;
            Some(text.subrange(b, e + 1))
        } else {
            None
        }
    } else {
        None
    }
}

/// Whether a character is kept when the whitespace of a text is removed.
pub open spec fn not_blank(c: char) -> bool {
    c != ' ' && c != '\n' && c != '\t'
}

/// The text without its spaces, tabs and newlines.
pub open spec fn without_blanks(s: Seq<char>) -> Seq<char> {
    s.filter(|c: char| not_blank(c))
}

/// The texts that the spans of the tokens `ts` enclose in `s`, one after the
/// other.
pub open spec fn tokens_text(s: Seq<char>, ts: Seq<TokenV>) -> Seq<char>
    decreases ts.len(),
{
    if ts.len() == 0 {
        Seq::empty()
    } else {
        tokens_text(s, ts.drop_last()) + extract_spec(s, ts.last().span.start, ts.last().span.end).unwrap_or(
            Seq::empty(),
        )
    }
}

/// The span from the character at index `a` to the one at index `b` of a
/// text encloses the characters from `a` to `b`.
pub proof fn lemma_extract_indices(s: Seq<char>, a: int, b: int)
    requires
        positions_fit(s),
        0 <= a <= b < s.len(),
    ensures
        extract_spec(s, position_at(s, a), position_at(s, b)) == Some(s.subrange(a, b + 1)),
{
    assert(0 <= b < s.len() && position_at(s, b) == position_at(s, b));
    let e = choose|e: int| 0 <= e < s.len() && position_at(s, e) == position_at(s, b);
    if e != b {
        crate::span::lemma_positions_distinct(s, e, b);
    }
    assert(0 <= a <= e && position_at(s, a) == position_at(s, a));
    let c = choose|c: int| 0 <= c <= e && position_at(s, c) == position_at(s, a);
    if c != a {
        crate::span::lemma_positions_distinct(s, c, a);
    }
}

/// Adding a token to the tokens adds the text its span encloses.
proof fn lemma_tokens_text_push(s: Seq<char>, ts: Seq<TokenV>, t: TokenV)
    ensures
        tokens_text(s, ts.push(t)) == tokens_text(s, ts) + extract_spec(s, t.span.start, t.span.end).unwrap_or(
            Seq::empty(),
        ),
{
    assert(ts.push(t).drop_last() =~= ts);
}

/// Removing the blanks from one more character.
proof fn lemma_without_blanks_step(s: Seq<char>, i: int)
    requires
        0 <= i < s.len(),
    ensures
        without_blanks(s.take(i + 1)) == without_blanks(s.take(i)) + if not_blank(s[i]) {
            seq![s[i]]
        } else {
            Seq::empty()
        },
{
    assert(s.take(i + 1).drop_last() =~= s.take(i));
    assert(s.take(i + 1).last() == s[i]);
    reveal(Seq::filter);
    if not_blank(s[i]) {
        assert(without_blanks(s.take(i + 1)) =~= without_blanks(s.take(i)) + seq![s[i]]);
    } else {
        assert(without_blanks(s.take(i + 1)) =~= without_blanks(s.take(i)) + Seq::<char>::empty());
    }
}

/// The step of [`law_tokens_concatenate`]: from index `i`, with the tokens
/// `toks` found so far enclosing, followed by the word `cur` being read, the
/// text read so far without blanks, lexing ends with tokens enclosing the
/// whole text without blanks, each naming the file `f`.
proof fn lemma_lex_text(s: Seq<char>, f: Rc<String>, i: int, toks: Seq<TokenV>, cur: Seq<char>, cs: Position, ts: Seq<TokenV>)
    requires
        positions_fit(s),
        forall|k: int| 0 <= k < s.len() ==> #[trigger] s[k] != '"' && s[k] != '#',
        0 <= i <= s.len(),
        tokens_text(s, toks) + cur == without_blanks(s.take(i)),
        cur.len() > 0 ==> i >= cur.len() && cs == position_at(s, i - cur.len()) && cur == s.subrange(
            i - cur.len(),
            i,
        ),
        forall|k: int| 0 <= k < toks.len() ==> (#[trigger] toks[k]).span.file == f,
        forall|k: int| 0 <= k < cur.len() ==> !is_separator(#[trigger] cur[k]),
        lex(s, f, i, toks, cur, cs) == LexOutcome::Done(ts),
    ensures
        tokens_text(s, ts) == without_blanks(s),
        forall|k: int| 0 <= k < ts.len() ==> (#[trigger] ts[k]).span.file == f,
    decreases s.len() - i,
{
    if i >= s.len() {
        assert(s.take(i) =~= s);
        if cur.len() > 0 {
            let t = tok(word_data(cur)->Ok_0, f, cs, position_at(s, s.len() - 1));
            lemma_extract_indices(s, i - cur.len(), s.len() - 1);
            lemma_tokens_text_push(s, toks, t);
            assert(s.subrange(i - cur.len(), s.len() - 1 + 1) == cur);
            assert forall|k: int| 0 <= k < ts.len() implies (#[trigger] ts[k]).span.file == f by {
                if k < toks.len() {
                    assert(ts[k] == toks[k]);
                }
            }
        }
    } else {
        let c = s[i];
        let p = position_at(s, i);
        lemma_without_blanks_step(s, i);
        if cur.len() > 0 {
            crate::span::lemma_position_step(s, i - 1);
            assert(s[i - 1] == cur.last());
            assert(cur.last() == cur[cur.len() - 1]);
            assert(s[i - 1] != '\n');
            assert(back(p) == position_at(s, i - 1));
            lemma_extract_indices(s, i - cur.len(), i - 1);
            assert(s.subrange(i - cur.len(), i - 1 + 1) == cur);
        }
        lemma_extract_indices(s, i, i);
        assert(s.subrange(i, i + 1) =~= seq![c]);
        if c == '(' {
            let toks1 = if cur.len() > 0 {
                toks.push(tok(TokenDataV::Name(cur), f, cs, back(p)))
            } else {
                toks
            };
            if cur.len() > 0 {
                lemma_tokens_text_push(s, toks, tok(TokenDataV::Name(cur), f, cs, back(p)));
            }
            let toks2 = toks1.push(tok(TokenDataV::LeftParen, f, p, p));
            lemma_tokens_text_push(s, toks1, tok(TokenDataV::LeftParen, f, p, p));
            assert(tokens_text(s, toks2) + Seq::<char>::empty() =~= without_blanks(s.take(i + 1)));
            assert forall|k: int| 0 <= k < toks2.len() implies (#[trigger] toks2[k]).span.file == f by {
                if k < toks.len() {
                    assert(toks2[k] == toks[k]);
                }
            }
            lemma_lex_text(s, f, i + 1, toks2, Seq::empty(), no_start(), ts);
        } else if is_separator(c) {
            let toks1 = if cur.len() > 0 {
                toks.push(tok(word_data(cur)->Ok_0, f, cs, back(p)))
            } else {
                toks
            };
            if cur.len() > 0 {
                lemma_tokens_text_push(s, toks, tok(word_data(cur)->Ok_0, f, cs, back(p)));
            }
            let toks2 = if c == ')' {
                toks1.push(tok(TokenDataV::RightParen, f, p, p))
            } else if c == ',' {
                toks1.push(tok(TokenDataV::Comma, f, p, p))
            } else {
                toks1
            };
            if c == ')' {
                lemma_tokens_text_push(s, toks1, tok(TokenDataV::RightParen, f, p, p));
            } else if c == ',' {
                lemma_tokens_text_push(s, toks1, tok(TokenDataV::Comma, f, p, p));
            }
            assert(tokens_text(s, toks2) + Seq::<char>::empty() =~= without_blanks(s.take(i + 1)));
            assert forall|k: int| 0 <= k < toks2.len() implies (#[trigger] toks2[k]).span.file == f by {
                if k < toks.len() {
                    assert(toks2[k] == toks[k]);
                }
                if k < toks1.len() {
                    assert(toks2[k] == toks1[k]);
                }
            }
            lemma_lex_text(s, f, i + 1, toks2, Seq::empty(), no_start(), ts);
        } else {
            assert(c != '"' && c != '#');
            let cs2 = if cur.len() == 0 {
                p
            } else {
                cs
            };
            assert(cur.push(c) =~= s.subrange(i + 1 - cur.push(c).len(), i + 1));
            assert forall|k: int| 0 <= k < cur.push(c).len() implies !is_separator(#[trigger] cur.push(c)[k]) by {
                if k < cur.len() {
                    assert(cur.push(c)[k] == cur[k]);
                }
            }
            assert(tokens_text(s, toks) + cur.push(c) =~= without_blanks(s.take(i + 1)));
            lemma_lex_text(s, f, i + 1, toks, cur.push(c), cs2, ts);
        }
    }
}

/// Whether the position `p` comes before `q` (by line, then column).
pub open spec fn pos_before(p: Position, q: Position) -> bool {
    p.line < q.line || (p.line == q.line && p.column < q.column)
}

/// Whether every token's span starts no later than it ends, and ends before
/// the next token's span starts.
pub open spec fn spans_ordered(ts: Seq<TokenV>) -> bool {
    &&& forall|k: int| 0 <= k < ts.len() ==> !pos_before((#[trigger] ts[k]).span.end, ts[k].span.start)
    &&& forall|k: int| 0 <= k < ts.len() - 1 ==> pos_before((#[trigger] ts[k]).span.end, ts[k + 1].span.start)
}

/// Adding a token that starts after the last one ends, and ends no earlier
/// than it starts, keeps the spans ordered.
proof fn lemma_spans_ordered_push(ts: Seq<TokenV>, t: TokenV)
    requires
        spans_ordered(ts),
        !pos_before(t.span.end, t.span.start),
        ts.len() > 0 ==> pos_before(ts.last().span.end, t.span.start),
    ensures
        spans_ordered(ts.push(t)),
{
    let u = ts.push(t);
    assert forall|k: int| 0 <= k < u.len() implies !pos_before((#[trigger] u[k]).span.end, u[k].span.start) by {
        if k < ts.len() {
            assert(u[k] == ts[k]);
        }
    }
    assert forall|k: int| 0 <= k < u.len() - 1 implies pos_before((#[trigger] u[k]).span.end, u[k + 1].span.start) by {
        if k < ts.len() - 1 {
            assert(u[k] == ts[k] && u[k + 1] == ts[k + 1]);
        } else {
            assert(u[k] == ts.last());
        }
    }
}

/// The step of [`law_token_spans_ordered`]: tokens found so far are ordered
/// and the last ends at index `last` (below where the word being read
/// starts), so lexing ends with ordered spans.
proof fn lemma_lex_spans(s: Seq<char>, f: Rc<String>, i: int, toks: Seq<TokenV>, cur: Seq<char>, cs: Position, last: int, ts: Seq<TokenV>)
    requires
        positions_fit(s),
        forall|k: int| 0 <= k < s.len() ==> #[trigger] s[k] != '"' && s[k] != '#',
        0 <= i <= s.len(),
        -1 <= last < i - cur.len(),
        toks.len() > 0 ==> 0 <= last && toks.last().span.end == position_at(s, last),
        spans_ordered(toks),
        cur.len() > 0 ==> i >= cur.len() && cs == position_at(s, i - cur.len()),
        forall|k: int| 0 <= k < cur.len() ==> !is_separator(#[trigger] cur[k]),
        cur.len() > 0 ==> cur == s.subrange(i - cur.len(), i),
        lex(s, f, i, toks, cur, cs) == LexOutcome::Done(ts),
    ensures
        spans_ordered(ts),
    decreases s.len() - i,
{
    if i >= s.len() {
        if cur.len() > 0 {
            let a = i - cur.len();
            let b = s.len() - 1;
            let t = tok(word_data(cur)->Ok_0, f, cs, position_at(s, b));
            if a < b {
                crate::span::lemma_positions_ordered(s, a, b);
            }
            if toks.len() > 0 {
                crate::span::lemma_positions_ordered(s, last, a);
            }
            lemma_spans_ordered_push(toks, t);
        }
    } else {
        let c = s[i];
        let p = position_at(s, i);
        let mut toks1 = toks;
        let mut last1 = last;
        if cur.len() > 0 && (c == '(' || is_separator(c)) {
            let a = i - cur.len();
            crate::span::lemma_position_step(s, i - 1);
            assert(cur.last() == cur[cur.len() - 1]);
            assert(s[i - 1] == cur.last());
            assert(back(p) == position_at(s, i - 1));
            if a < i - 1 {
                crate::span::lemma_positions_ordered(s, a, i - 1);
            }
            if toks.len() > 0 {
                crate::span::lemma_positions_ordered(s, last, a);
            }
            let d = if c == '(' {
                TokenDataV::Name(cur)
            } else {
                word_data(cur)->Ok_0
            };
            lemma_spans_ordered_push(toks, tok(d, f, cs, back(p)));
            toks1 = toks.push(tok(d, f, cs, back(p)));
            last1 = i - 1;
        }
        if c == '(' || c == ')' || c == ',' {
            if toks1.len() > 0 {
                crate::span::lemma_positions_ordered(s, last1, i);
            }
            let d = if c == '(' {
                TokenDataV::LeftParen
            } else if c == ')' {
                TokenDataV::RightParen
            } else {
                TokenDataV::Comma
            };
            lemma_spans_ordered_push(toks1, tok(d, f, p, p));
            lemma_lex_spans(s, f, i + 1, toks1.push(tok(d, f, p, p)), Seq::empty(), no_start(), i, ts);
        } else if is_separator(c) {
            lemma_lex_spans(s, f, i + 1, toks1, Seq::empty(), no_start(), last1, ts);
        } else {
            assert(c != '"' && c != '#');
            let cs2 = if cur.len() == 0 {
                p
            } else {
                cs
            };
            assert(cur.push(c) =~= s.subrange(i + 1 - cur.push(c).len(), i + 1));
            assert forall|k: int| 0 <= k < cur.push(c).len() implies !is_separator(#[trigger] cur.push(c)[k]) by {
                if k < cur.len() {
                    assert(cur.push(c)[k] == cur[k]);
                }
            }
            lemma_lex_spans(s, f, i + 1, toks, cur.push(c), cs2, last, ts);
        }
    }
}

/// Lexing a text without string literals and comments gives tokens whose
/// spans each start no later than they end, and end before the next token's
/// span starts.
pub proof fn law_token_spans_ordered(s: Seq<char>, f: Rc<String>, ts: Seq<TokenV>)
    requires
        positions_fit(s),
        forall|k: int| 0 <= k < s.len() ==> #[trigger] s[k] != '"' && s[k] != '#',
        tokenize_spec(s, f) == LexOutcome::Done(ts),
    ensures
        spans_ordered(ts),
{
    lemma_lex_spans(s, f, 0, Seq::empty(), Seq::empty(), no_start(), -1, ts);
}

/// Lexing a text without string literals and comments gives tokens whose
/// spans, extracted one after the other, give back the text without its
/// spaces, tabs and newlines; every token names the file lexed.
pub proof fn law_tokens_concatenate(s: Seq<char>, f: Rc<String>, ts: Seq<TokenV>)
    requires
        positions_fit(s),
        forall|k: int| 0 <= k < s.len() ==> #[trigger] s[k] != '"' && s[k] != '#',
        tokenize_spec(s, f) == LexOutcome::Done(ts),
    ensures
        tokens_text(s, ts) == without_blanks(s),
        forall|k: int| 0 <= k < ts.len() ==> (#[trigger] ts[k]).span.file == f,
{
    assert(s.take(0) =~= Seq::<char>::empty());
    reveal(Seq::filter);
    assert(without_blanks(s.take(0)) =~= Seq::<char>::empty());
    lemma_lex_text(s, f, 0, Seq::empty(), Seq::empty(), no_start(), ts);
}

/// Returns all characters of the text that the given span encloses, or `None`
/// if the span is invalid (end before start or out of bounds).
pub fn extract(text: &str, span: Span) -> (r: Option<String>)
    requires
        positions_fit(text@),
    ensures
        match r {
            Some(s) => extract_spec(text@, span.start, span.end) == Some(s@),
            None => extract_spec(text@, span.start, span.end).is_none(),
        },
{
    let ghost t = text@;
    let mut start_found = false;
    let ghost mut b: int = 0;
    let mut s: Vec<char> = Vec::new();
    let mut it = CharPositions::new(text);
    loop
        invariant
            it.wf(),
            it.text() == t,
            t == text@,
            positions_fit(t),
            0 <= it.index() <= t.len(),
            start_found ==> 0 <= b < it.index() && position_at(t, b) == span.start && s@ == t.subrange(b, it.index()),
            !start_found ==> forall|k: int| 0 <= k < it.index() ==> position_at(t, k) != span.start,
            !start_found ==> s@.len() == 0,
            forall|k: int| 0 <= k < it.index() ==> position_at(t, k) != span.end,
        decreases t.len() - it.index(),
    {
        let ghost i = it.index();
        match it.next() {
            None => {
                proof {
                    assert(!exists|e: int| 0 <= e < t.len() && position_at(t, e) == span.end);
                }
                return None;
            },
            Some((pos, c)) => {
                if pos == span.start && !start_found {
                    start_found = true;
                    proof {
                        b = i;
                    }
                }
                if start_found {
                    s.push(c);
                    assert(s@ =~= t.subrange(b, i + 1));
                }
                if pos == span.end {
                    proof {
                        assert(position_at(t, i) == span.end);
                        let e = choose|e: int| 0 <= e < t.len() && position_at(t, e) == span.end;
                        if e != i {
                            crate::span::lemma_positions_distinct(t, e, i);
                        }
                        assert(e == i);
                        if start_found {
                            let bb = choose|bb: int| 0 <= bb <= e && position_at(t, bb) == span.start;
                            if bb != b {
                                crate::span::lemma_positions_distinct(t, bb, b);
                            }
                        } else {
                            assert(!exists|bb: int| 0 <= bb <= e && position_at(t, bb) == span.start);
                        }
                    }
                    if !start_found {
                        return None;
                    }
                    return Some(string_from_chars(&s));
                }
            },
        }
    }
}

} // verus!
