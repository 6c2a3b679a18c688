//! Parsing of type expressions, formal arguments, and whole function
//! signatures.
//!
//! A type expression is a run of identifiers and punctuation in which an
//! angle-bracket group counts as one balanced unit; a comma, a statement
//! end, or a bracket group terminates it, and it must contain at least
//! one identifier.  An argument is an optional `name:` prefix followed by
//! a type expression.  A signature is an optional visibility qualifier,
//! the function keyword, a name, optional generics, a parenthesized
//! argument list, and an optional result clause.

use vstd::prelude::*;
use crate::cursor::{
    angle_close,
    at_end,
    ident_at,
    if_group,
    if_ident,
    if_keyword,
    if_punct,
    peek_group,
    peek_ident,
    peek_keyword,
    peek_punct,
    require_angle_group,
    require_group,
    require_ident,
    require_keyword,
    require_punct,
};
use crate::errors::{ErrorKind, ErrorKindV, Kw, SyntaxError, SyntaxErrorV};
use vstd::string::StringExecFns;
use crate::token::{
    Delim,
    IdentTok,
    IdentV,
    Tok,
    TokV,
    clone_toks,
    lemma_toks_view,
    tok_span,
    toks_view,
};

verus! {

/// `angle_close` answers an index inside the token sequence, at or past
/// where the scan began.
pub proof fn lemma_angle_close_bounds(tv: Seq<TokV>, p: int, depth: nat)
    ensures
        angle_close(tv, p, depth) matches Some(c) ==> p <= c < tv.len() && peek_punct(tv, c, '>'),
    decreases tv.len() - p,
{
    if p < 0 || p >= tv.len() {
    } else if peek_punct(tv, p, '<') {
        lemma_angle_close_bounds(tv, p + 1, depth + 1);
    } else if peek_punct(tv, p, '>') {
        if depth != 1 {
            lemma_angle_close_bounds(tv, p + 1, (depth - 1) as nat);
        }
    } else {
        lemma_angle_close_bounds(tv, p + 1, depth);
    }
}

/// One step of scanning a type expression.
///
/// Scanning proceeds from `p` with `found` telling whether an identifier
/// has been seen and `tspan` the location a missing type identifier
/// would be reported at.  It answers the index the scan stops at, the
/// final identifier flag, and the final report location; a lone literal
/// is refused, and an unclosed angle group runs off the end of the
/// input, reported at `es0`.
pub open spec fn type_scan(tv: Seq<TokV>, p: int, found: bool, es0: nat, tspan: nat) -> Result<
    (int, bool, nat),
    SyntaxErrorV,
>
    decreases tv.len() - p via type_scan_decreases
{
    if p < 0 || p >= tv.len() {
        Ok((p, found, tspan))
    } else {
        match tv[p] {
            TokV::Ident { .. } => type_scan(tv, p + 1, true, es0, tspan),
            TokV::Punct { ch, span } => if ch == ',' || ch == ';' {
                Ok((p, found, span))
            } else if ch == '<' {
                match angle_close(tv, p + 1, 1) {
                    Option::None => Err(
                        SyntaxErrorV { kind: ErrorKindV::UnexpectedEnd, span: es0 },
                    ),
                    Option::Some(c) => type_scan(tv, c + 1, found, es0, tspan),
                }
            } else {
                type_scan(tv, p + 1, found, es0, tspan)
            },
            TokV::Group { span, .. } => Ok((p, found, span)),
            TokV::Lit { span, .. } => Err(
                SyntaxErrorV { kind: ErrorKindV::UnexpectedTokens, span: span },
            ),
        }
    }
}

#[via_fn]
proof fn type_scan_decreases(tv: Seq<TokV>, p: int, found: bool, es0: nat, tspan: nat) {
    if 0 <= p < tv.len() {
        lemma_angle_close_bounds(tv, p + 1, 1);
    }
}

/// A type scan neither goes backwards nor stops short of where an
/// identifier was found.
pub proof fn lemma_type_scan_bounds(tv: Seq<TokV>, p: int, found: bool, es0: nat, tspan: nat)
    requires
        0 <= p <= tv.len(),
    ensures
        type_scan(tv, p, found, es0, tspan) matches Ok((stop, found2, _)) ==> p <= stop <= tv.len()
            && (found2 && !found ==> p < stop),
    decreases tv.len() - p,
{
    if p < tv.len() {
        match tv[p] {
            TokV::Ident { .. } => lemma_type_scan_bounds(tv, p + 1, true, es0, tspan),
            TokV::Punct { ch, span } => if ch == ',' || ch == ';' {
            } else if ch == '<' {
                lemma_angle_close_bounds(tv, p + 1, 1);
                match angle_close(tv, p + 1, 1) {
                    Option::None => {},
                    Option::Some(c) => lemma_type_scan_bounds(tv, c + 1, found, es0, tspan),
                }
            } else {
                lemma_type_scan_bounds(tv, p + 1, found, es0, tspan)
            },
            TokV::Group { .. } => {},
            TokV::Lit { .. } => {},
        }
    }
}

/// Consumes one type expression at the cursor and answers its tokens,
/// taken verbatim.  The scan stops, without consuming it, at a comma, a
/// statement end, or a bracket group; it refuses a literal token and a
/// type with no identifier in it.
#[verifier::loop_isolation(false)]
pub fn require_type(toks: &Vec<Tok>, pos: &mut usize, err_span: usize) -> (r: Result<
    Vec<Tok>,
    SyntaxError,
>)
    requires
        *old(pos) <= toks@.len(),
    ensures
        ({
            let scan = type_scan(
                toks_view(toks@),
                *old(pos) as int,
                false,
                err_span as nat,
                err_span as nat,
            );
            match scan {
                Ok((stop, found, tspan)) => if found {
                    r matches Ok(ts) && toks_view(ts@) == toks_view(toks@).subrange(
                        *old(pos) as int,
                        stop,
                    ) && *final(pos) == stop
                } else {
                    r matches Err(e) && e@ == (SyntaxErrorV {
                        kind: ErrorKindV::ExpectedTypeIdent,
                        span: tspan,
                    })
                },
                Err(e0) => r matches Err(e) && e@ == e0,
            }
        }),
{
    proof {
        lemma_toks_view(toks@);
    }
    let ghost tv = toks_view(toks@);
    let ghost p0 = *pos as int;
    let ghost es0 = err_span as nat;
    let mut acc: Vec<Tok> = Vec::new();
    let mut found: bool = false;
    let tspan: usize = err_span;
    proof {
        assert(tv.subrange(p0, p0) =~= Seq::<TokV>::empty());
        assert(toks_view(acc@) =~= Seq::<TokV>::empty());
    }
    while *pos < toks.len()
        invariant
            p0 <= *pos as int <= toks@.len(),
            toks_view(acc@) == tv.subrange(p0, *pos as int),
            type_scan(tv, p0, false, es0, es0) == type_scan(
                tv,
                *pos as int,
                found,
                es0,
                tspan as nat,
            ),
        decreases toks@.len() - *pos as int,
    {
        let ghost cur = *pos as int;
        let ghost acc0 = acc@;
        match &toks[*pos] {
            Tok::Ident(_) => {
                acc.push(toks[*pos].clone());
                proof {
                    lemma_toks_view(acc0);
                    lemma_toks_view(acc@);
                    assert(tv.subrange(p0, cur + 1) =~= tv.subrange(p0, cur).push(tv[cur]));
                    assert(toks_view(acc@) =~= tv.subrange(p0, cur + 1));
                }
                found = true;
                *pos += 1;
            },
            Tok::Punct { ch, span } => {
                let c = *ch;
                let sp = *span;
                if c == ',' || c == ';' {
                    if !found {
                        return Err(SyntaxError { kind: ErrorKind::ExpectedTypeIdent, span: sp });
                    }
                    return Ok(acc);
                } else if c == '<' {
                    let g = match require_angle_group(
                        toks,
                        pos,
                        err_span,
                        ErrorKind::EmptyMessage,
                    ) {
                        Ok(g) => g,
                        Err(e) => {
                            return Err(e);
                        },
                    };
                    let ghost close = angle_close(tv, cur + 1, 1)->0;
                    proof {
                        lemma_angle_close_bounds(tv, cur + 1, 1);
                    }
                    acc.push(Tok::Punct { ch: '<', span: g.open_span });
                    let mut interior = g.toks;
                    acc.append(&mut interior);
                    acc.push(Tok::Punct { ch: '>', span: g.close_span });
                    proof {
                        lemma_toks_view(acc0);
                        lemma_toks_view(acc@);
                        lemma_toks_view(g.toks@);
                        assert(acc@ =~= acc0 + seq![Tok::Punct { ch: '<', span: g.open_span }]
                            + g.toks@ + seq![Tok::Punct { ch: '>', span: g.close_span }]);
                        assert(tv[cur] == TokV::Punct { ch: '<', span: g.open_span as nat });
                        assert(tv[close] == TokV::Punct { ch: '>', span: g.close_span as nat });
                        assert forall|j: int| 0 <= j < close + 1 - p0 implies toks_view(acc@)[j]
                            == tv.subrange(p0, close + 1)[j] by {
                            if j < cur - p0 {
                                assert(toks_view(acc@)[j] == toks_view(acc0)[j]);
                            } else if j == cur - p0 {
                            } else if j < close - p0 {
                                assert(acc@[j] == g.toks@[j - (cur - p0) - 1]);
                                assert(toks_view(g.toks@)[j - (cur - p0) - 1] == tv.subrange(
                                    cur + 1,
                                    close,
                                )[j - (cur - p0) - 1]);
                            } else {
                            }
                        }
                        assert(toks_view(acc@) =~= tv.subrange(p0, close + 1));
                    }
                } else {
                    acc.push(toks[*pos].clone());
                    proof {
                        lemma_toks_view(acc0);
                        lemma_toks_view(acc@);
                        assert(tv.subrange(p0, cur + 1) =~= tv.subrange(p0, cur).push(tv[cur]));
                        assert(toks_view(acc@) =~= tv.subrange(p0, cur + 1));
                    }
                    *pos += 1;
                }
            },
            Tok::Group { span, .. } => {
                if !found {
                    return Err(SyntaxError { kind: ErrorKind::ExpectedTypeIdent, span: *span });
                }
                return Ok(acc);
            },
            Tok::Lit { span, .. } => {
                return Err(SyntaxError { kind: ErrorKind::UnexpectedTokens, span: *span });
            },
        }
    }
    if !found {
        return Err(SyntaxError { kind: ErrorKind::ExpectedTypeIdent, span: tspan });
    }
    Ok(acc)
}

/// One formal parameter: an optional name and a type expression.
#[derive(Debug)]
pub struct FnArg {
    pub arg_name: Option<IdentTok>,
    pub arg_type: Vec<Tok>,
}

/// Mathematical model of a formal parameter.
pub struct ArgV {
    pub name: Option<IdentV>,
    pub ty: Seq<TokV>,
}

impl View for FnArg {
    type V = ArgV;

    open spec fn view(&self) -> ArgV {
        ArgV {
            name: match self.arg_name {
                Option::None => Option::None,
                Option::Some(id) => Option::Some(id@),
            },
            ty: toks_view(self.arg_type@),
        }
    }
}

impl Clone for FnArg {
    fn clone(&self) -> (r: FnArg)
        ensures
            r@ == self@,
    {
        FnArg {
            arg_name: match &self.arg_name {
                Option::None => Option::None,
                Option::Some(id) => Option::Some(id.clone()),
            },
            arg_type: clone_toks(&self.arg_type),
        }
    }
}

/// The outcome of parsing one formal argument at `p`: the argument and
/// the position after it (a trailing comma is consumed).
pub open spec fn arg_outcome(tv: Seq<TokV>, p: int, es0: nat) -> Result<
    (ArgV, int),
    SyntaxErrorV,
> {
    let has_name = peek_ident(tv, p) && peek_punct(tv, p + 1, ':');
    let name: Option<IdentV> = if has_name {
        Option::Some(ident_at(tv, p))
    } else {
        Option::None
    };
    let q: int = if has_name {
        p + 2
    } else {
        p
    };
    match type_scan(tv, q, false, es0, es0) {
        Err(e) => Err(e),
        Ok((stop, found2, tspan)) => if !found2 {
            Err(SyntaxErrorV { kind: ErrorKindV::ExpectedTypeIdent, span: tspan })
        } else {
            let np: int = if peek_punct(tv, stop, ',') {
                stop + 1
            } else {
                stop
            };
            Ok((ArgV { name, ty: tv.subrange(q, stop) }, np))
        },
    }
}

/// A successfully parsed argument moves the cursor forward and not past
/// the end.
pub proof fn lemma_arg_outcome_bounds(tv: Seq<TokV>, p: int, es0: nat)
    requires
        0 <= p <= tv.len(),
    ensures
        arg_outcome(tv, p, es0) matches Ok((_, np)) ==> p < np <= tv.len(),
{
    let has_name = peek_ident(tv, p) && peek_punct(tv, p + 1, ':');
    let q: int = if has_name {
        p + 2
    } else {
        p
    };
    lemma_type_scan_bounds(tv, q, false, es0, es0);
}

/// Consumes one formal argument at the cursor: an optional `name:`
/// prefix, a type expression, and a trailing comma if one follows.
pub fn require_fn_arg(toks: &Vec<Tok>, pos: &mut usize, err_span: usize) -> (r: Result<
    FnArg,
    SyntaxError,
>)
    requires
        *old(pos) <= toks@.len(),
    ensures
        ({
            let out = arg_outcome(toks_view(toks@), *old(pos) as int, err_span as nat);
            match out {
                Ok((a, np)) => r matches Ok(arg) && arg@ == a && *final(pos) == np,
                Err(e0) => r matches Err(e) && e@ == e0,
            }
        }),
{
    proof {
        lemma_toks_view(toks@);
    }
    let n = toks.len();
    let has_name = if_ident(toks, *pos) && if_punct(toks, *pos + 1, ':');
    let arg_name: Option<IdentTok> = if has_name {
        match &toks[*pos] {
            Tok::Ident(id) => {
                let name = id.clone();
                *pos += 2;
                Option::Some(name)
            },
            _ => Option::None,
        }
    } else {
        Option::None
    };
    let arg_type = match require_type(toks, pos, err_span) {
        Ok(v) => v,
        Err(e) => {
            return Err(e);
        },
    };
    if if_punct(toks, *pos, ',') {
        *pos += 1;
    }
    Ok(FnArg { arg_name, arg_type })
}

/// One declared or implemented function signature.
#[derive(Debug)]
pub struct FnSignature {
    pub pub_qualifiers: Vec<Tok>,
    pub fn_name: IdentTok,
    pub generics: Vec<Tok>,
    pub args: Vec<FnArg>,
    pub result: Vec<Tok>,
}

/// Mathematical model of a function signature.
pub struct SigV {
    pub quals: Seq<TokV>,
    pub name: IdentV,
    pub generics: Seq<TokV>,
    pub args: Seq<ArgV>,
    pub ret: Seq<TokV>,
}

/// The model of a sequence of formal arguments, elementwise.
pub open spec fn args_view(s: Seq<FnArg>) -> Seq<ArgV> {
    s.map_values(|a: FnArg| a@)
}

impl View for FnSignature {
    type V = SigV;

    open spec fn view(&self) -> SigV {
        SigV {
            quals: toks_view(self.pub_qualifiers@),
            name: self.fn_name@,
            generics: toks_view(self.generics@),
            args: args_view(self.args@),
            ret: toks_view(self.result@),
        }
    }
}

/// A copy of an argument vector, model-preserving.
pub fn clone_args(v: &Vec<FnArg>) -> (r: Vec<FnArg>)
    ensures
        args_view(r@) == args_view(v@),
        r@.len() == v@.len(),
{
    let mut out: Vec<FnArg> = Vec::new();
    let mut i: usize = 0;
    while i < v.len()
        invariant
            i <= v.len(),
            out@.len() == i as nat,
            forall|j: int| 0 <= j < i ==> out@[j]@ == v@[j]@,
        decreases v.len() - i,
    {
        out.push(v[i].clone());
        i += 1;
    }
    proof {
        assert(args_view(out@) =~= args_view(v@));
    }
    out
}

impl Clone for FnSignature {
    fn clone(&self) -> (r: FnSignature)
        ensures
            r@ == self@,
    {
        FnSignature {
            pub_qualifiers: clone_toks(&self.pub_qualifiers),
            fn_name: self.fn_name.clone(),
            generics: clone_toks(&self.generics),
            args: clone_args(&self.args),
            result: clone_toks(&self.result),
        }
    }
}

/// The outcome of parsing a whole argument list from `q` to the end of
/// the enclosing group's tokens.
pub open spec fn args_scan(gv: Seq<TokV>, q: int, es0: nat) -> Result<Seq<ArgV>, SyntaxErrorV>
    decreases gv.len() - q via args_scan_decreases
{
    if q < 0 || q >= gv.len() {
        Ok(Seq::empty())
    } else {
        match arg_outcome(gv, q, es0) {
            Err(e) => Err(e),
            Ok((a, np)) => match args_scan(gv, np, es0) {
                Err(e) => Err(e),
                Ok(rest) => Ok(seq![a] + rest),
            },
        }
    }
}

#[via_fn]
proof fn args_scan_decreases(gv: Seq<TokV>, q: int, es0: nat) {
    if 0 <= q < gv.len() {
        lemma_arg_outcome_bounds(gv, q, es0);
    }
}

/// The visibility qualifier tokens at `p`, and the position after them.
/// The keyword is reproduced at the caller's location; a parenthesized
/// restriction is taken verbatim.
pub open spec fn quals_scan(tv: Seq<TokV>, p: int, es0: nat) -> (Seq<TokV>, int) {
    if peek_keyword(tv, p, Kw::PubKw) {
        if peek_group(tv, p + 1, Delim::Paren) {
            (seq![TokV::Ident { text: "pub"@, span: es0 }, tv[p + 1]], p + 2)
        } else {
            (seq![TokV::Ident { text: "pub"@, span: es0 }], p + 1)
        }
    } else {
        (Seq::empty(), p)
    }
}

/// The outcome of parsing one function signature at `p`: the signature
/// and the position after it.  With `expect_semicolon` the signature
/// must end in a statement end, which is consumed.
pub open spec fn sig_outcome(tv: Seq<TokV>, p: int, expect_semicolon: bool, es0: nat) -> Result<
    (SigV, int),
    SyntaxErrorV,
> {
    let (quals, p2) = quals_scan(tv, p, es0);
    if at_end(tv, p2) {
        Err(SyntaxErrorV { kind: ErrorKindV::UnexpectedEnd, span: es0 })
    } else if !peek_keyword(tv, p2, Kw::FnKw) {
        Err(SyntaxErrorV { kind: ErrorKindV::ExpectedKeyword(Kw::FnKw), span: tok_span(tv[p2]) })
    } else {
        let p3 = p2 + 1;
        if at_end(tv, p3) {
            Err(SyntaxErrorV { kind: ErrorKindV::UnexpectedEnd, span: es0 })
        } else if !peek_ident(tv, p3) {
            Err(SyntaxErrorV { kind: ErrorKindV::ExpectedIdent, span: tok_span(tv[p3]) })
        } else {
            let name = ident_at(tv, p3);
            let p4 = p3 + 1;
            let generics_scan: Result<(Seq<TokV>, int), SyntaxErrorV> = if peek_punct(
                tv,
                p4,
                '<',
            ) {
                match angle_close(tv, p4 + 1, 1) {
                    Option::None => Err(
                        SyntaxErrorV { kind: ErrorKindV::UnexpectedEnd, span: es0 },
                    ),
                    Option::Some(c) => Ok((tv.subrange(p4 + 1, c), c + 1)),
                }
            } else {
                Ok((Seq::empty(), p4))
            };
            match generics_scan {
                Err(e) => Err(e),
                Ok((generics, p5)) => if at_end(tv, p5) {
                    Err(SyntaxErrorV { kind: ErrorKindV::ExpectedFunctionArgs, span: es0 })
                } else if !peek_group(tv, p5, Delim::Paren) {
                    Err(
                        SyntaxErrorV {
                            kind: ErrorKindV::ExpectedFunctionArgs,
                            span: tok_span(tv[p5]),
                        },
                    )
                } else {
                    match args_scan(tv[p5]->Group_toks, 0, es0) {
                        Err(e) => Err(e),
                        Ok(args) => {
                            let p6 = p5 + 1;
                            let ret_scan: Result<(Seq<TokV>, int), SyntaxErrorV> = if peek_punct(
                                tv,
                                p6,
                                '-',
                            ) {
                                if at_end(tv, p6 + 1) {
                                    Err(
                                        SyntaxErrorV {
                                            kind: ErrorKindV::UnexpectedEnd,
                                            span: es0,
                                        },
                                    )
                                } else if !peek_punct(tv, p6 + 1, '>') {
                                    Err(
                                        SyntaxErrorV {
                                            kind: ErrorKindV::ExpectedPunct('>'),
                                            span: tok_span(tv[p6 + 1]),
                                        },
                                    )
                                } else {
                                    match type_scan(tv, p6 + 2, false, es0, es0) {
                                        Err(e) => Err(e),
                                        Ok((stop, found, tspan)) => if !found {
                                            Err(
                                                SyntaxErrorV {
                                                    kind: ErrorKindV::ExpectedTypeIdent,
                                                    span: tspan,
                                                },
                                            )
                                        } else {
                                            Ok((tv.subrange(p6 + 2, stop), stop))
                                        },
                                    }
                                }
                            } else {
                                Ok((Seq::empty(), p6))
                            };
                            match ret_scan {
                                Err(e) => Err(e),
                                Ok((ret, p7)) => {
                                    let sig = SigV { quals, name, generics, args, ret };
                                    if !expect_semicolon {
                                        Ok((sig, p7))
                                    } else if at_end(tv, p7) {
                                        Err(
                                            SyntaxErrorV {
                                                kind: ErrorKindV::UnexpectedEnd,
                                                span: es0,
                                            },
                                        )
                                    } else if !peek_punct(tv, p7, ';') {
                                        Err(
                                            SyntaxErrorV {
                                                kind: ErrorKindV::ExpectedPunct(';'),
                                                span: tok_span(tv[p7]),
                                            },
                                        )
                                    } else {
                                        Ok((sig, p7 + 1))
                                    }
                                },
                            }
                        },
                    }
                },
            }
        }
    }
}

/// Consumes one function signature at the cursor: an optional visibility
/// qualifier, the function keyword, the name, optional generics in
/// angle brackets, the parenthesized argument list, an optional result
/// clause, and, when `expect_semicolon` is set, the statement end.
pub fn require_fn_signature(
    toks: &Vec<Tok>,
    pos: &mut usize,
    expect_semicolon: bool,
    err_span: usize,
) -> (r: Result<FnSignature, SyntaxError>)
    requires
        *old(pos) <= toks@.len(),
    ensures
        ({
            let out = sig_outcome(toks_view(toks@), *old(pos) as int, expect_semicolon, err_span as nat);
            match out {
                Ok((s, np)) => r matches Ok(sig) && sig@ == s && *final(pos) == np,
                Err(e0) => r matches Err(e) && e@ == e0,
            }
        }),
{
    proof {
        lemma_toks_view(toks@);
    }
    let ghost tv = toks_view(toks@);
    let n = toks.len();

    // Visibility qualifier.
    let mut pub_qualifiers: Vec<Tok> = Vec::new();
    if if_keyword(toks, *pos, Kw::PubKw) {
        pub_qualifiers.push(
            Tok::Ident(IdentTok { text: String::from_str("pub"), span: err_span }),
        );
        *pos += 1;
        if if_group(toks, *pos, Delim::Paren) {
            let g = match require_group(
                toks,
                pos,
                Delim::Paren,
                err_span,
                ErrorKind::ExpectedVisQualifier,
            ) {
                Ok(g) => g,
                Err(e) => {
                    return Err(e);
                },
            };
            pub_qualifiers.push(Tok::Group { delim: Delim::Paren, toks: g.toks, span: g.span });
        }
    }
    proof {
        lemma_toks_view(pub_qualifiers@);
        let (quals, p2) = quals_scan(tv, *old(pos) as int, err_span as nat);
        assert(toks_view(pub_qualifiers@) =~= quals);
        assert(*pos as int == p2);
    }

    // The function keyword and the name.
    match require_keyword(toks, pos, Kw::FnKw, err_span) {
        Ok(_) => {},
        Err(e) => {
            return Err(e);
        },
    }
    let fn_name = match require_ident(toks, pos, err_span) {
        Ok(id) => id,
        Err(e) => {
            return Err(e);
        },
    };

    // Generic parameters, when present.
    let generics: Vec<Tok> = if if_punct(toks, *pos, '<') {
        match require_angle_group(toks, pos, err_span, ErrorKind::ExpectingAngleBrackets) {
            Ok(g) => g.toks,
            Err(e) => {
                return Err(e);
            },
        }
    } else {
        Vec::new()
    };
    proof {
        if generics@.len() == 0 {
            assert(toks_view(generics@) =~= Seq::<TokV>::empty());
        }
    }

    // The argument list.
    let args_group = match require_group(
        toks,
        pos,
        Delim::Paren,
        err_span,
        ErrorKind::ExpectedFunctionArgs,
    ) {
        Ok(g) => g,
        Err(e) => {
            return Err(e);
        },
    };
    let ghost gv = toks_view(args_group.toks@);
    let mut args: Vec<FnArg> = Vec::new();
    let mut apos: usize = 0;
    proof {
        lemma_toks_view(args_group.toks@);
        assert(args_view(args@) =~= Seq::<ArgV>::empty());
    }
    #[verifier::loop_isolation(false)]
    while apos < args_group.toks.len()
        invariant
            apos <= args_group.toks@.len(),
            ({
                let full = args_scan(gv, 0, err_span as nat);
                match args_scan(gv, apos as int, err_span as nat) {
                    Ok(rest) => full matches Ok(all) && all == args_view(args@) + rest,
                    Err(e) => full matches Err(e2) && e2 == e,
                }
            }),
        decreases args_group.toks@.len() - apos,
    {
        let ghost apos0 = apos as int;
        let ghost args0 = args@;
        let next_arg = match require_fn_arg(&args_group.toks, &mut apos, err_span) {
            Ok(a) => a,
            Err(e) => {
                return Err(e);
            },
        };
        args.push(next_arg);
        proof {
            lemma_arg_outcome_bounds(gv, apos0, err_span as nat);
            let a0 = args@[args0.len() as int]@;
            assert(args_view(args@) =~= args_view(args0).push(a0));
            match args_scan(gv, apos as int, err_span as nat) {
                Ok(rest) => {
                    let a0 = args@[args0.len() as int]@;
                    assert(args_view(args0) + (seq![a0] + rest) =~= args_view(args@) + rest);
                },
                Err(e) => {},
            }
        }
    }
    proof {
        assert(args_scan(gv, apos as int, err_span as nat) == Ok::<Seq<ArgV>, SyntaxErrorV>(
            Seq::empty(),
        ));
        assert(args_view(args@) + Seq::<ArgV>::empty() =~= args_view(args@));
    }

    // The result clause, when present.
    let result: Vec<Tok> = if if_punct(toks, *pos, '-') {
        match require_punct(toks, pos, '-', err_span) {
            Ok(_) => {},
            Err(e) => {
                return Err(e);
            },
        }
        match require_punct(toks, pos, '>', err_span) {
            Ok(_) => {},
            Err(e) => {
                return Err(e);
            },
        }
        match require_type(toks, pos, err_span) {
            Ok(v) => v,
            Err(e) => {
                return Err(e);
            },
        }
    } else {
        Vec::new()
    };
    proof {
        if result@.len() == 0 {
            assert(toks_view(result@) =~= Seq::<TokV>::empty());
        }
    }

    // The statement end, when one is demanded.
    if expect_semicolon {
        match require_punct(toks, pos, ';', err_span) {
            Ok(_) => {},
            Err(e) => {
                return Err(e);
            },
        }
    }

    Ok(FnSignature { pub_qualifiers, fn_name, generics, args, result })
}

} // verus!
