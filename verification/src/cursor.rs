//! Cursor primitives over a token vector: peeking at, and consuming,
//! single tokens and bracket groups.
//!
//! A cursor is a position into a token vector.  `if_*` functions peek and
//! never move the position; `require_*` functions consume what they
//! recognize and report a diagnostic otherwise.  When a `require_*`
//! function fails, the whole compilation aborts, so the position is left
//! unspecified on the error path.

use vstd::prelude::*;
use crate::errors::{ErrorKind, ErrorKindV, Kw, SyntaxError, SyntaxErrorV, kw_str};
use crate::strings::str_eq;
use crate::token::{
    Delim,
    IdentTok,
    IdentV,
    Tok,
    TokV,
    clone_toks,
    lemma_toks_view,
    tok_span,
    toks_view,
};

verus! {

/// Whether the cursor has run off the end of the tokens.
pub open spec fn at_end(tv: Seq<TokV>, p: int) -> bool {
    p >= tv.len()
}

/// Whether an identifier stands at the cursor.
pub open spec fn peek_ident(tv: Seq<TokV>, p: int) -> bool {
    0 <= p < tv.len() && tv[p] is Ident
}

/// Whether the given keyword stands at the cursor.
pub open spec fn peek_keyword(tv: Seq<TokV>, p: int, kw: Kw) -> bool {
    0 <= p < tv.len() && (tv[p] matches TokV::Ident { text, .. } && text
        == crate::errors::kw_text(kw))
}

/// Whether the given punctuation character stands at the cursor.
pub open spec fn peek_punct(tv: Seq<TokV>, p: int, ch: char) -> bool {
    0 <= p < tv.len() && (tv[p] matches TokV::Punct { ch: c, .. } && c == ch)
}

/// Whether a group with the given delimiter stands at the cursor.
pub open spec fn peek_group(tv: Seq<TokV>, p: int, d: Delim) -> bool {
    0 <= p < tv.len() && (tv[p] matches TokV::Group { delim, .. } && delim == d)
}

/// The identifier at the cursor.
pub open spec fn ident_at(tv: Seq<TokV>, p: int) -> IdentV
    recommends
        peek_ident(tv, p),
{
    IdentV { text: tv[p]->Ident_text, span: tv[p]->Ident_span }
}

/// Whether the cursor is at the end of the tokens.
pub fn if_end(toks: &Vec<Tok>, pos: usize) -> (r: bool)
    ensures
        r == at_end(toks_view(toks@), pos as int),
{
    proof {
        lemma_toks_view(toks@);
    }
    pos >= toks.len()
}

/// Whether an identifier stands at the cursor.
pub fn if_ident(toks: &Vec<Tok>, pos: usize) -> (r: bool)
    ensures
        r == peek_ident(toks_view(toks@), pos as int),
{
    proof {
        lemma_toks_view(toks@);
    }
    if pos < toks.len() {
        match &toks[pos] {
            Tok::Ident(_) => true,
            _ => false,
        }
    } else {
        false
    }
}

/// Whether the given keyword stands at the cursor.
pub fn if_keyword(toks: &Vec<Tok>, pos: usize, kw: Kw) -> (r: bool)
    ensures
        r == peek_keyword(toks_view(toks@), pos as int, kw),
{
    proof {
        lemma_toks_view(toks@);
    }
    if pos < toks.len() {
        match &toks[pos] {
            Tok::Ident(id) => str_eq(&id.text, kw_str(kw)),
            _ => false,
        }
    } else {
        false
    }
}

/// Whether the given punctuation character stands at the cursor.
pub fn if_punct(toks: &Vec<Tok>, pos: usize, ch: char) -> (r: bool)
    ensures
        r == peek_punct(toks_view(toks@), pos as int, ch),
{
    proof {
        lemma_toks_view(toks@);
    }
    if pos < toks.len() {
        match &toks[pos] {
            Tok::Punct { ch: c, .. } => *c == ch,
            _ => false,
        }
    } else {
        false
    }
}

/// Whether a group with the given delimiter stands at the cursor.
pub fn if_group(toks: &Vec<Tok>, pos: usize, d: Delim) -> (r: bool)
    ensures
        r == peek_group(toks_view(toks@), pos as int, d),
{
    proof {
        lemma_toks_view(toks@);
    }
    if pos < toks.len() {
        match &toks[pos] {
            Tok::Group { delim, .. } => *delim == d,
            _ => false,
        }
    } else {
        false
    }
}

/// Takes the token at the cursor, or reports that the input ended.
pub fn next_token(toks: &Vec<Tok>, pos: &mut usize, err_span: usize) -> (r: Result<
    Tok,
    SyntaxError,
>)
    ensures
        !at_end(toks_view(toks@), (*old(pos)) as int) ==> (r matches Ok(t) && t@ == toks_view(toks@)[
            (*old(pos)) as int
        ] && *final(pos) == (*old(pos)) + 1),
        at_end(toks_view(toks@), (*old(pos)) as int) ==> (r matches Err(e) && e@ == (SyntaxErrorV {
            kind: ErrorKindV::UnexpectedEnd,
            span: err_span as nat,
        })),
{
    proof {
        lemma_toks_view(toks@);
    }
    if *pos < toks.len() {
        let t = toks[*pos].clone();
        *pos += 1;
        Ok(t)
    } else {
        Err(SyntaxError { kind: ErrorKind::UnexpectedEnd, span: err_span })
    }
}

/// The source location of the first token.
pub fn span_of_first(toks: &Vec<Tok>) -> (r: usize)
    requires
        toks@.len() > 0,
    ensures
        r as nat == tok_span(toks_view(toks@)[0]),
{
    span_at(toks, 0)
}

/// The source location of the token at the cursor.
pub fn span_at(toks: &Vec<Tok>, pos: usize) -> (r: usize)
    requires
        (pos as int) < toks@.len(),
    ensures
        r as nat == tok_span(toks_view(toks@)[pos as int]),
{
    proof {
        lemma_toks_view(toks@);
    }
    match &toks[pos] {
        Tok::Ident(id) => id.span,
        Tok::Punct { span, .. } => *span,
        Tok::Lit { span, .. } => *span,
        Tok::Group { span, .. } => *span,
    }
}

/// Takes the identifier at the cursor, or reports what stood there.
pub fn require_ident(toks: &Vec<Tok>, pos: &mut usize, err_span: usize) -> (r: Result<
    IdentTok,
    SyntaxError,
>)
    ensures
        peek_ident(toks_view(toks@), (*old(pos)) as int) ==> (r matches Ok(id) && id@ == ident_at(
            toks_view(toks@),
            (*old(pos)) as int,
        ) && *final(pos) == (*old(pos)) + 1),
        at_end(toks_view(toks@), (*old(pos)) as int) ==> (r matches Err(e) && e@ == (SyntaxErrorV {
            kind: ErrorKindV::UnexpectedEnd,
            span: err_span as nat,
        })),
        !at_end(toks_view(toks@), (*old(pos)) as int) && !peek_ident(toks_view(toks@), (*old(pos)) as int)
            ==> (r matches Err(e) && e@ == (SyntaxErrorV {
            kind: ErrorKindV::ExpectedIdent,
            span: tok_span(toks_view(toks@)[(*old(pos)) as int]),
        })),
{
    proof {
        lemma_toks_view(toks@);
    }
    if *pos < toks.len() {
        match &toks[*pos] {
            Tok::Ident(id) => {
                let r = id.clone();
                *pos += 1;
                Ok(r)
            },
            _ => {
                let sp = span_at(toks, *pos);
                Err(SyntaxError { kind: ErrorKind::ExpectedIdent, span: sp })
            },
        }
    } else {
        Err(SyntaxError { kind: ErrorKind::UnexpectedEnd, span: err_span })
    }
}

/// Consumes the given keyword at the cursor, or reports what stood there.
pub fn require_keyword(toks: &Vec<Tok>, pos: &mut usize, kw: Kw, err_span: usize) -> (r: Result<
    (),
    SyntaxError,
>)
    ensures
        peek_keyword(toks_view(toks@), (*old(pos)) as int, kw) ==> r is Ok && *final(pos) == (*old(pos))
            + 1,
        at_end(toks_view(toks@), (*old(pos)) as int) ==> (r matches Err(e) && e@ == (SyntaxErrorV {
            kind: ErrorKindV::UnexpectedEnd,
            span: err_span as nat,
        })),
        !at_end(toks_view(toks@), (*old(pos)) as int) && !peek_keyword(
            toks_view(toks@),
            (*old(pos)) as int,
            kw,
        ) ==> (r matches Err(e) && e@ == (SyntaxErrorV {
            kind: ErrorKindV::ExpectedKeyword(kw),
            span: tok_span(toks_view(toks@)[(*old(pos)) as int]),
        })),
{
    proof {
        lemma_toks_view(toks@);
    }
    if *pos < toks.len() {
        let matched = match &toks[*pos] {
            Tok::Ident(id) => str_eq(&id.text, kw_str(kw)),
            _ => false,
        };
        if matched {
            *pos += 1;
            Ok(())
        } else {
            let sp = span_at(toks, *pos);
            Err(SyntaxError { kind: ErrorKind::ExpectedKeyword(kw), span: sp })
        }
    } else {
        Err(SyntaxError { kind: ErrorKind::UnexpectedEnd, span: err_span })
    }
}

/// Consumes the given punctuation character at the cursor, or reports
/// what stood there.
pub fn require_punct(toks: &Vec<Tok>, pos: &mut usize, ch: char, err_span: usize) -> (r: Result<
    (),
    SyntaxError,
>)
    ensures
        peek_punct(toks_view(toks@), (*old(pos)) as int, ch) ==> r is Ok && *final(pos) == (*old(pos))
            + 1,
        at_end(toks_view(toks@), (*old(pos)) as int) ==> (r matches Err(e) && e@ == (SyntaxErrorV {
            kind: ErrorKindV::UnexpectedEnd,
            span: err_span as nat,
        })),
        !at_end(toks_view(toks@), (*old(pos)) as int) && !peek_punct(
            toks_view(toks@),
            (*old(pos)) as int,
            ch,
        ) ==> (r matches Err(e) && e@ == (SyntaxErrorV {
            kind: ErrorKindV::ExpectedPunct(ch),
            span: tok_span(toks_view(toks@)[(*old(pos)) as int]),
        })),
{
    proof {
        lemma_toks_view(toks@);
    }
    if *pos < toks.len() {
        let matched = match &toks[*pos] {
            Tok::Punct { ch: c, .. } => *c == ch,
            _ => false,
        };
        if matched {
            *pos += 1;
            Ok(())
        } else {
            let sp = span_at(toks, *pos);
            Err(SyntaxError { kind: ErrorKind::ExpectedPunct(ch), span: sp })
        }
    } else {
        Err(SyntaxError { kind: ErrorKind::UnexpectedEnd, span: err_span })
    }
}

/// Reports the token at the cursor if any is left.
pub fn require_end(toks: &Vec<Tok>, pos: usize) -> (r: Result<(), SyntaxError>)
    ensures
        at_end(toks_view(toks@), pos as int) ==> r is Ok,
        !at_end(toks_view(toks@), pos as int) ==> (r matches Err(e) && e@ == (SyntaxErrorV {
            kind: ErrorKindV::UnexpectedToken,
            span: tok_span(toks_view(toks@)[pos as int]),
        })),
{
    proof {
        lemma_toks_view(toks@);
    }
    if pos < toks.len() {
        let sp = span_at(toks, pos);
        Err(SyntaxError { kind: ErrorKind::UnexpectedToken, span: sp })
    } else {
        Ok(())
    }
}

/// A consumed bracket group: its inner tokens and its source location.
#[derive(Debug)]
pub struct GroupToks {
    pub toks: Vec<Tok>,
    pub span: usize,
}

/// Consumes a group with the given delimiter at the cursor, or reports
/// the caller's diagnostic.
pub fn require_group(
    toks: &Vec<Tok>,
    pos: &mut usize,
    d: Delim,
    err_span: usize,
    err_kind: ErrorKind,
) -> (r: Result<GroupToks, SyntaxError>)
    ensures
        peek_group(toks_view(toks@), (*old(pos)) as int, d) ==> (r matches Ok(g) && toks_view(g.toks@)
            == toks_view(toks@)[(*old(pos)) as int]->Group_toks && g.span as nat == tok_span(
            toks_view(toks@)[(*old(pos)) as int],
        ) && *final(pos) == (*old(pos)) + 1),
        at_end(toks_view(toks@), (*old(pos)) as int) ==> (r matches Err(e) && e@ == (SyntaxErrorV {
            kind: err_kind@,
            span: err_span as nat,
        })),
        !at_end(toks_view(toks@), (*old(pos)) as int) && !peek_group(
            toks_view(toks@),
            (*old(pos)) as int,
            d,
        ) ==> (r matches Err(e) && e@ == (SyntaxErrorV {
            kind: err_kind@,
            span: tok_span(toks_view(toks@)[(*old(pos)) as int]),
        })),
{
    proof {
        lemma_toks_view(toks@);
    }
    if *pos < toks.len() {
        let is_match = match &toks[*pos] {
            Tok::Group { delim, .. } => *delim == d,
            _ => false,
        };
        if is_match {
            match &toks[*pos] {
                Tok::Group { toks: inner, span, .. } => {
                    let v = clone_toks(inner);
                    let g = GroupToks { toks: v, span: *span };
                    *pos += 1;
                    Ok(g)
                },
                _ => {
                    // The delimiter matched above, so the token is a group.
                    let sp = span_at(toks, *pos);
                    Err(SyntaxError { kind: err_kind, span: sp })
                },
            }
        } else {
            let sp = span_at(toks, *pos);
            Err(SyntaxError { kind: err_kind, span: sp })
        }
    } else {
        Err(SyntaxError { kind: err_kind, span: err_span })
    }
}

/// The index of the `>` that closes an angle group, scanning from `p` at
/// the given nesting depth; `None` when the input ends first.
pub open spec fn angle_close(tv: Seq<TokV>, p: int, depth: nat) -> Option<int>
    decreases tv.len() - p,
{
    if p < 0 || p >= tv.len() {
        None
    } else if peek_punct(tv, p, '<') {
        angle_close(tv, p + 1, depth + 1)
    } else if peek_punct(tv, p, '>') {
        if depth == 1 {
            Some(p)
        } else {
            angle_close(tv, p + 1, (depth - 1) as nat)
        }
    } else {
        angle_close(tv, p + 1, depth)
    }
}

/// A consumed angle-bracket group: the tokens between the brackets, taken
/// verbatim (nested angle brackets included), and the bracket locations.
#[derive(Debug)]
pub struct AngleToks {
    pub toks: Vec<Tok>,
    pub open_span: usize,
    pub close_span: usize,
}

/// Consumes an angle-bracket group at the cursor: an opening `<`, then
/// every token up to the matching `>`, nesting-aware.  Anything else at
/// the cursor is the caller's diagnostic; input that ends before the
/// matching `>` is an unexpected end.
#[verifier::loop_isolation(false)]
pub fn require_angle_group(
    toks: &Vec<Tok>,
    pos: &mut usize,
    err_span: usize,
    err_kind: ErrorKind,
) -> (r: Result<AngleToks, SyntaxError>)
    ensures
        at_end(toks_view(toks@), (*old(pos)) as int) ==> (r matches Err(e) && e@ == (SyntaxErrorV {
            kind: ErrorKindV::UnexpectedEnd,
            span: err_span as nat,
        })),
        !at_end(toks_view(toks@), (*old(pos)) as int) && !peek_punct(
            toks_view(toks@),
            (*old(pos)) as int,
            '<',
        ) ==> (r matches Err(e) && e@ == (SyntaxErrorV {
            kind: err_kind@,
            span: tok_span(toks_view(toks@)[(*old(pos)) as int]),
        })),
        peek_punct(toks_view(toks@), (*old(pos)) as int, '<') && angle_close(
            toks_view(toks@),
            (*old(pos)) + 1,
            1,
        ) is None ==> (r matches Err(e) && e@ == (SyntaxErrorV {
            kind: ErrorKindV::UnexpectedEnd,
            span: err_span as nat,
        })),
        peek_punct(toks_view(toks@), (*old(pos)) as int, '<') ==> (angle_close(
            toks_view(toks@),
            (*old(pos)) + 1,
            1,
        ) matches Some(c) ==> (r matches Ok(g) && toks_view(g.toks@) == toks_view(toks@).subrange(
            (*old(pos)) + 1,
            c,
        ) && g.open_span as nat == tok_span(toks_view(toks@)[(*old(pos)) as int]) && g.close_span
            as nat == tok_span(toks_view(toks@)[c]) && *final(pos) == c + 1)),
{
    proof {
        lemma_toks_view(toks@);
    }
    let ghost tv = toks_view(toks@);
    if *pos >= toks.len() {
        return Err(SyntaxError { kind: ErrorKind::UnexpectedEnd, span: err_span });
    }
    if !if_punct(toks, *pos, '<') {
        let sp = span_at(toks, *pos);
        return Err(SyntaxError { kind: err_kind, span: sp });
    }
    let open_span: usize = span_at(toks, *pos);
    let start = *pos + 1;
    let mut cur = start;
    let mut depth: usize = 1;
    let mut acc: Vec<Tok> = Vec::new();
    proof {
        assert(tv.subrange(start as int, start as int) =~= Seq::<TokV>::empty());
        assert(toks_view(acc@) =~= Seq::<TokV>::empty());
    }
    loop
        invariant
            start <= cur <= toks@.len(),
            1 <= depth <= cur - start + 1,
            toks_view(acc@) == tv.subrange(start as int, cur as int),
            angle_close(tv, start as int, 1) == angle_close(tv, cur as int, depth as nat),
        decreases toks@.len() - cur,
    {
        if cur >= toks.len() {
            return Err(SyntaxError { kind: ErrorKind::UnexpectedEnd, span: err_span });
        }
        let is_open = if_punct(toks, cur, '<');
        let is_close = if_punct(toks, cur, '>');
        if is_close && depth == 1 {
            proof {
                assert(angle_close(tv, cur as int, 1) == Some(cur as int));
            }
            let close_span = span_at(toks, cur);
            *pos = cur + 1;
            return Ok(AngleToks { toks: acc, open_span, close_span });
        }
        let ghost acc0 = acc@;
        acc.push(toks[cur].clone());
        proof {
            lemma_toks_view(acc0);
            lemma_toks_view(acc@);
            assert(tv.subrange(start as int, cur + 1) =~= tv.subrange(start as int, cur as int)
                .push(tv[cur as int]));
            assert(toks_view(acc@) =~= tv.subrange(start as int, cur + 1));
        }
        if is_open {
            proof {
                assert(angle_close(tv, cur as int, depth as nat) == angle_close(
                    tv,
                    cur + 1,
                    (depth + 1) as nat,
                ));
            }
            depth += 1;
        } else if is_close {
            proof {
                assert(angle_close(tv, cur as int, depth as nat) == angle_close(
                    tv,
                    cur + 1,
                    (depth - 1) as nat,
                ));
            }
            depth -= 1;
        } else {
            proof {
                assert(angle_close(tv, cur as int, depth as nat) == angle_close(
                    tv,
                    cur + 1,
                    depth as nat,
                ));
            }
        }
        cur += 1;
    }
}

} // verus!
