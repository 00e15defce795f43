//! The parser: tokens to a syntax tree.
//!
//! The grammar (`a` is any literal value, `n` any name; comments are skipped):
//! ```text
//! S -> a | n | n() | n(X)
//! X -> S,X | S, | S
//! ```

use crate::argument::{ArgV, Argument, FunctionCall, args_view, lemma_args_view};
use crate::exception::{Exception, SyntaxError};
use crate::span::Span;
use crate::text::{chars_of, string_from_chars};
use crate::token::{Token, TokenData, TokenDataV, TokenV, tokens_view, token_view};
use vstd::prelude::*;

verus! {

/// A syntax error with the given message at the given span.
pub fn syntax_error<T>(msg: &str, span: &Span) -> (r: Result<T, Exception>)
    ensures
        r matches Err(e) && {
            &&& e.error@ == SyntaxError@
            &&& e.msg@ == msg@
            &&& e.backtrace.is_some()
            &&& e.backtrace.unwrap()@ == seq![*span]
        },
{
    Err(Exception::spanned(SyntaxError, msg, span))
}

/// A syntax error found while parsing: its message and, when known, where.
pub struct ParseErr {
    /// The message.
    pub msg: Seq<char>,
    /// The location.
    pub span: Option<Span>,
}

/// The index of the first token in `[lo, hi)` that is not a comment.
pub open spec fn first_non_comment(ts: Seq<TokenV>, lo: int, hi: int) -> Option<int>
    decreases hi - lo,
{
    if lo < 0 || lo >= hi || hi > ts.len() {
        None
    } else if !(ts[lo].data is Comment) {
        Some(lo)
    } else {
        first_non_comment(ts, lo + 1, hi)
    }
}

/// `first_non_comment` finds the first token that is not a comment.
pub proof fn lemma_first_non_comment(ts: Seq<TokenV>, lo: int, hi: int)
    requires
        0 <= lo,
        hi <= ts.len(),
    ensures
        match first_non_comment(ts, lo, hi) {
            Some(i) => lo <= i < hi && !(ts[i].data is Comment) && forall|k: int|
                lo <= k < i ==> (#[trigger] ts[k]).data is Comment,
            None => forall|k: int| lo <= k < hi ==> (#[trigger] ts[k]).data is Comment,
        },
    decreases hi - lo,
{
    if lo < hi && ts[lo].data is Comment {
        lemma_first_non_comment(ts, lo + 1, hi);
    }
}

/// Scans `[i, hi)` with `depth` open parentheses for the one that closes them all.
pub open spec fn paren_scan(ts: Seq<TokenV>, i: int, hi: int, depth: int) -> Option<int>
    decreases hi - i,
{
    if i < 0 || i >= hi || hi > ts.len() {
        None
    } else {
        match ts[i].data {
            TokenDataV::LeftParen => paren_scan(ts, i + 1, hi, depth + 1),
            TokenDataV::RightParen => if depth - 1 == 0 {
                Some(i)
            } else {
                paren_scan(ts, i + 1, hi, depth - 1)
            },
            _ => paren_scan(ts, i + 1, hi, depth),
        }
    }
}

/// A closing parenthesis found by `paren_scan` lies in the scanned range.
pub proof fn lemma_paren_scan(ts: Seq<TokenV>, i: int, hi: int, depth: int)
    requires
        0 <= i,
    ensures
        paren_scan(ts, i, hi, depth) matches Some(r) ==> i <= r < hi && r < ts.len()
            && ts[r].data is RightParen,
    decreases hi - i,
{
    if 0 <= i < hi && hi <= ts.len() {
        match ts[i].data {
            TokenDataV::LeftParen => lemma_paren_scan(ts, i + 1, hi, depth + 1),
            TokenDataV::RightParen => if depth - 1 != 0 {
                lemma_paren_scan(ts, i + 1, hi, depth - 1)
            },
            _ => lemma_paren_scan(ts, i + 1, hi, depth),
        }
    }
}

/// A comment's text without one leading space.
pub open spec fn strip_space(s: Seq<char>) -> Seq<char> {
    if s.len() > 0 && s[0] == ' ' {
        s.drop_first()
    } else {
        s
    }
}

/// The comments of `cs` (without one leading space each), each followed by a newline.
pub open spec fn comment_lines(cs: Seq<TokenV>) -> Seq<char>
    decreases cs.len(),
{
    if cs.len() == 0 {
        Seq::empty()
    } else {
        comment_lines(cs.drop_last()) + strip_space(cs.last().data->Comment_0) + seq!['\n']
    }
}

/// The doc comment made of the comments `cs`: their lines joined by newlines.
pub open spec fn doc_text(cs: Seq<TokenV>) -> Seq<char> {
    let l = comment_lines(cs);
    if l.len() > 0 {
        l.drop_last()
    } else {
        l
    }
}

/// A comment loses exactly one leading space: text after one space is kept
/// whole, a second space stays, and text without a leading space is kept.
pub proof fn law_strip_one_space(t: Seq<char>)
    ensures
        strip_space(seq![' '] + t) == t,
        strip_space(seq![' ', ' '] + t) == seq![' '] + t,
        (t.len() == 0 || t[0] != ' ') ==> strip_space(t) == t,
{
    assert((seq![' '] + t).drop_first() =~= t);
    assert((seq![' ', ' '] + t).drop_first() =~= seq![' '] + t);
}

/// The comments' lines are joined by newlines: one comment gives its own
/// line, and a further comment adds a newline and its line.
pub proof fn law_doc_lines_joined(cs: Seq<TokenV>, c: TokenV)
    requires
        c.data is Comment,
    ensures
        doc_text(seq![c]) == strip_space(c.data->Comment_0),
        cs.len() > 0 ==> doc_text(cs.push(c)) == doc_text(cs) + seq!['\n'] + strip_space(c.data->Comment_0),
{
    assert(seq![c].drop_last() =~= Seq::<TokenV>::empty());
    assert(cs.push(c).drop_last() =~= cs);
    assert(seq![c].last() == c);
    assert(comment_lines(Seq::<TokenV>::empty()) == Seq::<char>::empty());
    let l1 = strip_space(c.data->Comment_0) + seq!['\n'];
    assert(comment_lines(seq![c]) == comment_lines(Seq::<TokenV>::empty()) + strip_space(c.data->Comment_0) + seq!['\n']);
    assert(comment_lines(seq![c]) =~= l1);
    assert(l1.drop_last() =~= strip_space(c.data->Comment_0));
    if cs.len() > 0 {
        let l = comment_lines(cs);
        assert(l == comment_lines(cs.drop_last()) + strip_space(cs.last().data->Comment_0) + seq!['\n']);
        assert(l.len() > 0);
        assert(l =~= l.drop_last() + seq!['\n']);
        assert((l + strip_space(c.data->Comment_0) + seq!['\n']).drop_last() =~= l + strip_space(c.data->Comment_0));
    }
}

/// The span of a call: from its `(` to its `)`, in the file of the `)`.
pub open spec fn call_span(left: Span, right: Span) -> Span {
    Span { file: right.file, start: left.start, end: right.end }
}

/// A syntax error with a message and a location.
pub open spec fn err_at(msg: Seq<char>, s: Span) -> ParseErr {
    ParseErr { msg, span: Some(s) }
}

/// Parses one syntax tree from the tokens `[lo, hi)` of `ts`. On success gives
/// the tree and the index of the first token after it.
pub open spec fn parse_sub(ts: Seq<TokenV>, lo: int, hi: int) -> Result<(ArgV, int), ParseErr>
    decreases hi - lo, 1int,
{
    if lo < 0 || hi > ts.len() {
        Err(ParseErr { msg: "missing token"@, span: None })
    } else {
        match first_non_comment(ts, lo, hi) {
            None => Err(ParseErr { msg: "missing token"@, span: None }),
            Some(i) => {
                proof {
                    lemma_first_non_comment(ts, lo, hi);
                }
                let t = ts[i];
                let cur = i + 1;
                match t.data {
                    TokenDataV::Atom(a) => Ok((ArgV::Atom(a, t.span), cur)),
                    TokenDataV::Name(n) => {
                        proof {
                            lemma_first_non_comment(ts, cur, hi);
                        }
                        match first_non_comment(ts, cur, hi) {
                            Some(k) => if ts[k].data is LeftParen {
                                proof {
                                    lemma_paren_scan(ts, cur + 1, hi, 1);
                                }
                                match paren_scan(ts, cur + 1, hi, 1) {
                                    None => Err(err_at("unclosed `(` parenthesis"@, ts[cur].span)),
                                    Some(r) => match parse_args(ts, cur + 1, r, Seq::empty()) {
                                        Err(e) => Err(e),
                                        Ok(args) => Ok(
                                            (
                                                ArgV::Call(
                                                    n,
                                                    args,
                                                    doc_text(ts.subrange(lo, i)),
                                                    call_span(ts[k].span, ts[r].span),
                                                ),
                                                r + 1,
                                            ),
                                        ),
                                    },
                                }
                            } else {
                                Ok((ArgV::Variable(n, t.span), cur))
                            },
                            None => Ok((ArgV::Variable(n, t.span), cur)),
                        }
                    },
                    _ => Err(err_at("expected atom or ident"@, t.span)),
                }
            },
        }
    }
}

/// Parses the comma-separated arguments in the tokens `[lo, hi)`, after the
/// arguments `acc` already parsed.
pub open spec fn parse_args(ts: Seq<TokenV>, lo: int, hi: int, acc: Seq<ArgV>) -> Result<
    Seq<ArgV>,
    ParseErr,
>
    decreases hi - lo, 2int,
{
    if lo < 0 || hi > ts.len() || first_non_comment(ts, lo, hi) is None {
        Ok(acc)
    } else {
        match parse_sub(ts, lo, hi) {
            Err(e) => Err(e),
            Ok((a, p)) => if !(lo < p <= hi) {
                Ok(acc)
            } else {
                proof {
                    lemma_first_non_comment(ts, p, hi);
                }
                match first_non_comment(ts, p, hi) {
                    None => Ok(acc.push(a)),
                    Some(c) => if ts[c].data is Comma {
                        parse_args(ts, c + 1, hi, acc.push(a))
                    } else {
                        Err(err_at("missing comma in argument list"@, ts[c].span))
                    },
                }
            },
        }
    }
}

/// Parses a whole program: one syntax tree, followed by nothing but comments.
pub open spec fn parse_program(ts: Seq<TokenV>) -> Result<ArgV, ParseErr> {
    match parse_sub(ts, 0, ts.len() as int) {
        Err(e) => Err(e),
        Ok((a, p)) => match first_non_comment(ts, p, ts.len() as int) {
            Some(t) => Err(err_at("trailing unparsed tokens detected"@, ts[t].span)),
            None => Ok(a),
        },
    }
}

/// Whether an exception is the syntax error `e`.
pub open spec fn is_parse_err(x: Exception, e: ParseErr) -> bool {
    &&& x.error@ == SyntaxError@
    &&& x.msg@ == e.msg
    &&& match e.span {
        Some(s) => x.backtrace.is_some() && x.backtrace.unwrap()@ == seq![s],
        None => x.backtrace.is_none(),
    }
}

} // verus!

verus! {

/// A successful parse consumes at least one token and stays in range.
pub proof fn lemma_parse_sub_progress(ts: Seq<TokenV>, lo: int, hi: int)
    ensures
        parse_sub(ts, lo, hi) matches Ok((_, p)) ==> lo < p <= hi,
{
    if 0 <= lo && hi <= ts.len() {
        lemma_first_non_comment(ts, lo, hi);
        if let Some(i) = first_non_comment(ts, lo, hi) {
            lemma_first_non_comment(ts, i + 1, hi);
            lemma_paren_scan(ts, i + 2, hi, 1);
        }
    }
}

/// The index of the first token in `[lo, hi)` that is not a comment.
fn without_comments_next(ts: &[Token], lo: usize, hi: usize) -> (r: Option<usize>)
    requires
        lo <= hi <= ts@.len(),
    ensures
        match r {
            Some(i) => first_non_comment(tokens_view(ts@), lo as int, hi as int) == Some(i as int),
            None => first_non_comment(tokens_view(ts@), lo as int, hi as int).is_none(),
        },
{
    let ghost tv = tokens_view(ts@);
    let mut i = lo;
    while i < hi
        invariant
            lo <= i <= hi,
            hi <= ts@.len(),
            tv == tokens_view(ts@),
            first_non_comment(tv, i as int, hi as int) == first_non_comment(tv, lo as int, hi as int),
        decreases hi - i,
    {
        if !ts[i].is_comment() {
            return Some(i);
        }
        i = i + 1;
    }
    None
}

/// The closing parenthesis of the `(` (or other token) at `lo`, scanning `(lo, hi)`.
fn extract_within_parens(ts: &[Token], lo: usize, hi: usize) -> (r: Result<usize, Exception>)
    requires
        lo < hi <= ts@.len(),
    ensures
        match r {
            Ok(k) => paren_scan(tokens_view(ts@), lo + 1, hi as int, 1) == Some(k as int),
            Err(e) => {
                &&& paren_scan(tokens_view(ts@), lo + 1, hi as int, 1).is_none()
                &&& is_parse_err(e, err_at("unclosed `(` parenthesis"@, ts@[lo as int].span))
            },
        },
{
    let ghost tv = tokens_view(ts@);
    let mut stack: usize = 1;
    let mut i = lo + 1;
    while i < hi
        invariant
            lo + 1 <= i <= hi,
            hi <= ts@.len(),
            tv == tokens_view(ts@),
            1 <= stack <= i - lo,
            paren_scan(tv, i as int, hi as int, stack as int) == paren_scan(tv, lo + 1, hi as int, 1),
        decreases hi - i,
    {
        match ts[i].data {
            TokenData::LeftParen => {
                stack = stack + 1;
            },
            TokenData::RightParen => {
                stack = stack - 1;
                if stack == 0 {
                    return Ok(i);
                }
            },
            _ => {},
        }
        i = i + 1;
    }
    syntax_error("unclosed `(` parenthesis", &ts[lo].span)
}

/// The doc comment made of the comments `[lo, hi)` (see [`doc_text`]).
fn concat_doc_comments(ts: &[Token], lo: usize, hi: usize) -> (s: String)
    requires
        lo <= hi <= ts@.len(),
        forall|k: int| lo <= k < hi ==> (#[trigger] ts@[k]).data is Comment,
    ensures
        s@ == doc_text(tokens_view(ts@).subrange(lo as int, hi as int)),
{
    let ghost tv = tokens_view(ts@);
    let mut v: Vec<char> = Vec::new();
    let mut k = lo;
    while k < hi
        invariant
            lo <= k <= hi,
            hi <= ts@.len(),
            tv == tokens_view(ts@),
            forall|j: int| lo <= j < hi ==> (#[trigger] ts@[j]).data is Comment,
            v@ == comment_lines(tv.subrange(lo as int, k as int)),
        decreases hi - k,
    {
        match &ts[k].data {
            TokenData::Comment(doc) => {
                let d = chars_of(doc.as_str());
                let mut j: usize = if d.len() > 0 && crate::text::char_at(&d, 0) == ' ' { 1 } else { 0 };
                let ghost start = v@;
                let ghost stripped = strip_space(d@);
                assert(stripped =~= d@.skip(j as int));
                while j < d.len()
                    invariant
                        j <= d@.len(),
                        stripped == d@.skip(j as int) || (v@ == start + stripped.take(stripped.len() - (d@.len() - j))),
                        v@ == start + stripped.take(stripped.len() - (d@.len() - j)),
                        stripped.len() <= d@.len(),
                        d@.len() - stripped.len() <= 1,
                        stripped =~= d@.skip(d@.len() - stripped.len()),
                        j >= d@.len() - stripped.len(),
                    decreases d@.len() - j,
                {
                    let c = crate::text::char_at(&d, j);
                    v.push(c);
                    j = j + 1;
                    assert(v@ =~= start + stripped.take(stripped.len() - (d@.len() - j)));
                }
                assert(stripped.take(stripped.len() as int) =~= stripped);
                v.push('\n');
                let ghost sub = tv.subrange(lo as int, k + 1);
                assert(sub.drop_last() =~= tv.subrange(lo as int, k as int));
                assert(sub.last() == tv[k as int]);
                assert(v@ =~= comment_lines(sub));
            },
            _ => {
                assert(false);
            },
        }
        k = k + 1;
    }
    let ghost l = v@;
    if v.len() > 0 {
        v.pop();
        assert(v@ =~= l.drop_last());
    }
    string_from_chars(&v)
}

} // verus!

verus! {

proof fn lemma_args_view_push(s: Seq<Argument>, a: Argument)
    ensures
        args_view(s.push(a), s.len() + 1) == args_view(s, s.len()).push(a@),
{
    lemma_args_view(s.push(a), s.len() + 1);
    lemma_args_view(s, s.len());
    assert(args_view(s.push(a), s.len() + 1) =~= args_view(s, s.len()).push(a@));
}

/// How `parse_sub` goes on a call `name(...)`: the first non-comment token
/// `i` is a name, followed (after comments) by `(` at `k`, closed at `r`.
proof fn lemma_parse_sub_call(ts: Seq<TokenV>, lo: int, hi: int, i: int, k: int, r: int)
    requires
        0 <= lo <= hi <= ts.len(),
        first_non_comment(ts, lo, hi) == Some(i),
        ts[i].data is Name,
        first_non_comment(ts, i + 1, hi) == Some(k),
        ts[k].data is LeftParen,
        paren_scan(ts, i + 2, hi, 1) == Some(r),
    ensures
        parse_sub(ts, lo, hi) == match parse_args(ts, i + 2, r, Seq::empty()) {
            Err(e) => Err(e),
            Ok(args) => Ok(
                (
                    ArgV::Call(
                        ts[i].data->Name_0,
                        args,
                        doc_text(ts.subrange(lo, i)),
                        call_span(ts[k].span, ts[r].span),
                    ),
                    r + 1,
                ),
            ),
        },
{
}

/// Parses one syntax tree from the tokens `[lo, hi)` (see [`parse_sub`]).
/// On success gives the tree and the index of the first token after it.
pub fn build_subprogram(ts: &[Token], lo: usize, hi: usize) -> (r: Result<(Argument, usize), Exception>)
    requires
        lo <= hi <= ts@.len(),
    ensures
        match r {
            Ok((a, p)) => parse_sub(tokens_view(ts@), lo as int, hi as int) == Ok::<(ArgV, int), ParseErr>((a@, p as int)),
            Err(e) => parse_sub(tokens_view(ts@), lo as int, hi as int) matches Err(pe) && is_parse_err(e, pe),
        },
    decreases hi - lo,
{
    proof {
        reveal_strlit("missing token");
        reveal_strlit("expected atom or ident");
        reveal_strlit("missing comma in argument list");
    }
    let ghost tv = tokens_view(ts@);
    proof {
        lemma_first_non_comment(tv, lo as int, hi as int);
    }
    let i = match without_comments_next(ts, lo, hi) {
        None => {
            return Err(Exception::unspanned(SyntaxError, "missing token"));
        },
        Some(i) => i,
    };
    let first = &ts[i];
    let cur = i + 1;
    let name = match &first.data {
        TokenData::Atom(a) => {
            return Ok((Argument::Atom(a.clone(), first.span.clone()), cur));
        },
        TokenData::Name(n) => n.clone(),
        _ => {
            return syntax_error("expected atom or ident", &first.span);
        },
    };
    proof {
        lemma_first_non_comment(tv, cur as int, hi as int);
    }
    let next = without_comments_next(ts, cur, hi);
    let k = match next {
        Some(k) => k,
        None => {
            return Ok((Argument::Variable(name, first.span.clone()), cur));
        },
    };
    match ts[k].data {
        TokenData::LeftParen => {},
        _ => {
            return Ok((Argument::Variable(name, first.span.clone()), cur));
        },
    }
    let r = extract_within_parens(ts, cur, hi)?;
    proof {
        lemma_paren_scan(tv, cur + 1, hi as int, 1);
    }
    let mut args: Vec<Argument> = Vec::new();
    let mut cur_lo = cur + 1;
    assert(args_view(args@, args@.len()) =~= Seq::<ArgV>::empty());
    loop
        invariant_except_break
            parse_args(tv, cur_lo as int, r as int, args_view(args@, args@.len())) == parse_args(
                tv,
                cur + 1,
                r as int,
                Seq::empty(),
            ),
        invariant
            tv == tokens_view(ts@),
            lo <= i < cur < r < hi <= ts@.len(),
            cur == i + 1,
            cur + 1 <= cur_lo <= r,
            first_non_comment(tv, lo as int, hi as int) == Some(i as int),
            tv[i as int].data is Name,
            first_non_comment(tv, cur as int, hi as int) == Some(k as int),
            tv[k as int].data is LeftParen,
            paren_scan(tv, cur + 1, hi as int, 1) == Some(r as int),
        ensures
            parse_args(tv, cur + 1, r as int, Seq::empty()) == Ok::<Seq<ArgV>, ParseErr>(args_view(args@, args@.len())),
        decreases r - cur_lo,
    {
        proof {
            lemma_first_non_comment(tv, cur_lo as int, r as int);
        }
        match without_comments_next(ts, cur_lo, r) {
            None => {
                break;
            },
            Some(_) => {},
        }
        let (a, p) = match build_subprogram(ts, cur_lo, r) {
            Ok(x) => x,
            Err(e) => {
                proof {
                    lemma_parse_sub_call(tv, lo as int, hi as int, i as int, k as int, r as int);
                }
                return Err(e);
            },
        };
        proof {
            lemma_parse_sub_progress(tv, cur_lo as int, r as int);
            lemma_first_non_comment(tv, p as int, r as int);
            lemma_args_view_push(args@, a);
        }
        args.push(a);
        match without_comments_next(ts, p, r) {
            None => {
                break;
            },
            Some(c) => {
                if ts[c].is_comma() {
                    cur_lo = c + 1;
                } else {
                    proof {
                        lemma_parse_sub_call(tv, lo as int, hi as int, i as int, k as int, r as int);
                    }
                    return syntax_error("missing comma in argument list", &ts[c].span);
                }
            },
        }
    }
    proof {
        assert forall|j: int| lo <= j < i implies (#[trigger] ts@[j]).data is Comment by {
            assert(tv[j] == token_view(ts@[j]));
        }
    }
    let doc = concat_doc_comments(ts, lo, i);
    proof {
        lemma_parse_sub_call(tv, lo as int, hi as int, i as int, k as int, r as int);
    }
    let span = Span { file: ts[r].span.file.clone(), start: ts[k].span.start, end: ts[r].span.end };
    Ok((Argument::FunctionCall(FunctionCall { args, name, doc_comment: doc }, span), r + 1))
}

/// Parses a whole program (see [`parse_program`]).
pub fn build_program(tokens: Vec<Token>) -> (r: Result<Argument, Exception>)
    ensures
        match r {
            Ok(a) => parse_program(tokens_view(tokens@)) == Ok::<ArgV, ParseErr>(a@),
            Err(e) => parse_program(tokens_view(tokens@)) matches Err(pe) && is_parse_err(e, pe),
        },
{
    proof {
        reveal_strlit("trailing unparsed tokens detected");
    }
    let ts = tokens.as_slice();
    let (arg, p) = build_subprogram(ts, 0, ts.len())?;
    proof {
        lemma_parse_sub_progress(tokens_view(ts@), 0, ts@.len() as int);
        lemma_first_non_comment(tokens_view(ts@), p as int, ts@.len() as int);
    }
    match without_comments_next(ts, p, ts.len()) {
        Some(t) => syntax_error("trailing unparsed tokens detected", &ts[t].span),
        None => Ok(arg),
    }
}

} // verus!
