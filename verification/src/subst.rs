//! Placeholder substitution: a depth-first rewrite of a token tree that
//! replaces the two-token marker sequences `#A` and `#B` with concrete
//! type tokens.
//!
//! The marker is a `#` punctuation token followed by the identifier `A`
//! or `B`.  Any other identifier after `#` is an unknown-placeholder
//! error; a non-identifier after `#` is refused too.  The walk descends
//! into nested groups first, so a marker may reach across a group
//! boundary into the group's first token; a trailing `#` at the very end
//! of the input is dropped.

use vstd::prelude::*;
use crate::errors::{ErrorKind, ErrorKindV, SyntaxError, SyntaxErrorV};
use crate::strings::str_eq;
use crate::token::{Tok, TokV, clone_toks, lemma_toks_view, toks_view};

verus! {

/// The rewrite of one token (whose interior, for a group, is rewritten
/// first), given whether a `#` marker is pending: the emitted tokens and
/// the new pending state.
pub open spec fn subst_tok(t: TokV, a: Seq<TokV>, b: Seq<TokV>, pending: bool) -> Result<
    (Seq<TokV>, bool),
    SyntaxErrorV,
>
    decreases t,
{
    match t {
        TokV::Group { delim, toks, span } => match subst_toks(toks, a, b, pending) {
            Err(e) => Err(e),
            Ok((inner2, p2)) => if p2 {
                Err(SyntaxErrorV { kind: ErrorKindV::ExpectedTypeMacroIdent, span })
            } else {
                Ok((seq![TokV::Group { delim, toks: inner2, span }], false))
            },
        },
        TokV::Ident { text, span } => if pending {
            if text == "A"@ {
                Ok((a, false))
            } else if text == "B"@ {
                Ok((b, false))
            } else {
                Err(SyntaxErrorV { kind: ErrorKindV::UnknownTypeMacro(text), span })
            }
        } else {
            Ok((seq![t], false))
        },
        TokV::Punct { ch, span } => if pending {
            Err(SyntaxErrorV { kind: ErrorKindV::ExpectedTypeMacroIdent, span })
        } else if ch == '#' {
            Ok((Seq::empty(), true))
        } else {
            Ok((seq![t], false))
        },
        TokV::Lit { span, .. } => if pending {
            Err(SyntaxErrorV { kind: ErrorKindV::ExpectedTypeMacroIdent, span })
        } else {
            Ok((seq![t], false))
        },
    }
}

/// The rewrite of a token sequence, threading the pending-marker state
/// left to right.
pub open spec fn subst_toks(ts: Seq<TokV>, a: Seq<TokV>, b: Seq<TokV>, pending: bool) -> Result<
    (Seq<TokV>, bool),
    SyntaxErrorV,
>
    decreases ts,
{
    if ts.len() == 0 {
        Ok((Seq::empty(), pending))
    } else {
        match subst_tok(ts[0], a, b, pending) {
            Err(e) => Err(e),
            Ok((out0, p1)) => match subst_toks(ts.drop_first(), a, b, p1) {
                Err(e) => Err(e),
                Ok((rest, p2)) => Ok((out0 + rest, p2)),
            },
        }
    }
}

/// Executable placeholder rewrite of a token vector.
#[verifier::loop_isolation(false)]
pub fn subst_in_toks(toks: &Vec<Tok>, a: &Vec<Tok>, b: &Vec<Tok>, pending_in: bool) -> (r: Result<
    (Vec<Tok>, bool),
    SyntaxError,
>)
    ensures
        ({
            let full = subst_toks(toks_view(toks@), toks_view(a@), toks_view(b@), pending_in);
            match full {
                Ok((out, pf)) => r matches Ok(v) && toks_view(v.0@) == out && v.1 == pf,
                Err(e0) => r matches Err(e) && e@ == e0,
            }
        }),
    decreases toks@,
{
    proof {
        lemma_toks_view(toks@);
    }
    let ghost tv = toks_view(toks@);
    let ghost av = toks_view(a@);
    let ghost bv = toks_view(b@);
    let mut acc: Vec<Tok> = Vec::new();
    let mut pending = pending_in;
    let mut i: usize = 0;
    proof {
        assert(tv.skip(0) =~= tv);
        assert(toks_view(acc@) =~= Seq::<TokV>::empty());
    }
    while i < toks.len()
        invariant
            i <= toks@.len(),
            ({
                let full = subst_toks(tv, av, bv, pending_in);
                match subst_toks(tv.skip(i as int), av, bv, pending) {
                    Ok((rest, pf)) => full matches Ok(all) && all.0 == toks_view(acc@) + rest
                        && all.1 == pf,
                    Err(e) => full matches Err(e2) && e2 == e,
                }
            }),
        decreases toks@.len() - i,
    {
        let ghost cur = i as int;
        let ghost acc0 = acc@;
        let ghost pending0 = pending;
        proof {
            assert(tv.skip(cur)[0] == tv[cur]);
            assert(tv.skip(cur).drop_first() =~= tv.skip(cur + 1));
        }
        match &toks[i] {
            Tok::Ident(id) => {
                if pending {
                    if str_eq(&id.text, "A") {
                        let mut piece = clone_toks(a);
                        let ghost piece0 = piece@;
                        acc.append(&mut piece);
                        proof {
                            lemma_toks_view(acc0);
                            lemma_toks_view(acc@);
                            lemma_toks_view(piece0);
                            assert(toks_view(acc@) =~= toks_view(acc0) + av);
                        }
                        pending = false;
                    } else if str_eq(&id.text, "B") {
                        let mut piece = clone_toks(b);
                        let ghost piece0 = piece@;
                        acc.append(&mut piece);
                        proof {
                            lemma_toks_view(acc0);
                            lemma_toks_view(acc@);
                            lemma_toks_view(piece0);
                            assert(toks_view(acc@) =~= toks_view(acc0) + bv);
                        }
                        pending = false;
                    } else {
                        return Err(
                            SyntaxError {
                                kind: ErrorKind::UnknownTypeMacro(id.text.clone()),
                                span: id.span,
                            },
                        );
                    }
                } else {
                    acc.push(toks[i].clone());
                    proof {
                        lemma_toks_view(acc0);
                        lemma_toks_view(acc@);
                        assert(toks_view(acc@) =~= toks_view(acc0) + seq![tv[cur]]);
                    }
                }
            },
            Tok::Punct { ch, span } => {
                if pending {
                    return Err(
                        SyntaxError { kind: ErrorKind::ExpectedTypeMacroIdent, span: *span },
                    );
                } else if *ch == '#' {
                    pending = true;
                    proof {
                        assert(toks_view(acc@) =~= toks_view(acc0) + Seq::<TokV>::empty());
                    }
                } else {
                    acc.push(toks[i].clone());
                    proof {
                        lemma_toks_view(acc0);
                        lemma_toks_view(acc@);
                        assert(toks_view(acc@) =~= toks_view(acc0) + seq![tv[cur]]);
                    }
                }
            },
            Tok::Lit { span, .. } => {
                if pending {
                    return Err(
                        SyntaxError { kind: ErrorKind::ExpectedTypeMacroIdent, span: *span },
                    );
                } else {
                    acc.push(toks[i].clone());
                    proof {
                        lemma_toks_view(acc0);
                        lemma_toks_view(acc@);
                        assert(toks_view(acc@) =~= toks_view(acc0) + seq![tv[cur]]);
                    }
                }
            },
            Tok::Group { delim, toks: inner, span } => {
                proof {
                    assert(decreases_to!(toks@ => toks@[cur]));
                    assert(decreases_to!(toks@ => inner@));
                }
                let rewritten = match subst_in_toks(inner, a, b, pending) {
                    Ok(v) => v,
                    Err(e) => {
                        return Err(e);
                    },
                };
                if rewritten.1 {
                    return Err(
                        SyntaxError { kind: ErrorKind::ExpectedTypeMacroIdent, span: *span },
                    );
                }
                acc.push(Tok::Group { delim: *delim, toks: rewritten.0, span: *span });
                pending = false;
                proof {
                    lemma_toks_view(acc0);
                    lemma_toks_view(acc@);
                    let step = subst_tok(tv[cur], av, bv, pending0);
                    assert(toks_view(acc@) =~= toks_view(acc0) + step->Ok_0.0);
                }
            },
        }
        proof {
            let step = subst_tok(tv[cur], av, bv, pending0);
            match step {
                Ok((out0, p1)) => {
                    assert(toks_view(acc@) == toks_view(acc0) + out0);
                    assert(pending == p1);
                    match subst_toks(tv.skip(cur + 1), av, bv, p1) {
                        Ok((rest, pf)) => {
                            assert((toks_view(acc0) + out0) + rest =~= toks_view(acc0) + (out0
                                + rest));
                        },
                        Err(e) => {},
                    }
                },
                Err(e) => {
                    assert(false);
                },
            }
        }
        i += 1;
    }
    proof {
        assert(tv.skip(toks@.len() as int) =~= Seq::<TokV>::empty());
        assert(toks_view(acc@) + Seq::<TokV>::empty() =~= toks_view(acc@));
    }
    Ok((acc, pending))
}

/// Replaces every `#A` and `#B` marker in the tokens with the concrete
/// type tokens for the two roles, recursing into nested groups.
pub fn replace_type_placeholders(toks: &Vec<Tok>, a: &Vec<Tok>, b: &Vec<Tok>) -> (r: Result<
    Vec<Tok>,
    SyntaxError,
>)
    ensures
        ({
            let full = subst_toks(toks_view(toks@), toks_view(a@), toks_view(b@), false);
            match full {
                Ok((out, pf)) => r matches Ok(v) && toks_view(v@) == out,
                Err(e0) => r matches Err(e) && e@ == e0,
            }
        }),
{
    match subst_in_toks(toks, a, b, false) {
        Ok(v) => Ok(v.0),
        Err(e) => Err(e),
    }
}

} // verus!
