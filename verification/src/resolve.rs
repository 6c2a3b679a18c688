//! The specification parser and semantic resolver: the two type-class
//! preambles, the declared signatures with their candidate argument
//! positions, the implementation blocks with candidate narrowing, the
//! final collapse to one argument index per role, and the cross-product
//! expansion into resolved pairs.

use vstd::prelude::*;
use crate::casing::{snake_case_of, to_snake_case};
use crate::cursor::{
    at_end,
    ident_at,
    if_end,
    if_group,
    if_keyword,
    if_punct,
    peek_group,
    peek_ident,
    peek_keyword,
    peek_punct,
    require_angle_group,
    require_group,
    require_ident,
    require_keyword,
    require_punct,
};
use crate::errors::{ErrorKind, ErrorKindV, Kw, SyntaxError, SyntaxErrorV};
use crate::model::{
    EntryV,
    FnEntry,
    ImplFn,
    ImplFnV,
    Model,
    ModelV,
    ResolvedPair,
    PairV,
    SigEntry,
    TypeEntry,
    TypeEntryV,
    impl_fns_view,
    upsert_pair,
    upsert_type,
};
use crate::signature::{
    ArgV,
    FnArg,
    FnSignature,
    SigV,
    args_view,
    lemma_type_scan_bounds,
    require_fn_signature,
    require_type,
    sig_outcome,
    type_scan,
};
use vstd::string::StringExecFns;
use crate::token::{
    Delim,
    IdentTok,
    IdentV,
    Tok,
    TokV,
    clone_toks,
    contains_toks,
    contains_toks_exec,
    lemma_toks_view,
    tok_span,
    toks_view,
};

verus! {

/// The first statement end at or after `p`.
pub open spec fn semi_scan(tv: Seq<TokV>, p: int) -> Option<int>
    decreases tv.len() - p,
{
    if p < 0 || p >= tv.len() {
        None
    } else if peek_punct(tv, p, ';') {
        Some(p)
    } else {
        semi_scan(tv, p + 1)
    }
}

/// The first statement end lies in range and really is one.
pub proof fn lemma_semi_scan(tv: Seq<TokV>, p: int)
    requires
        0 <= p,
    ensures
        semi_scan(tv, p) matches Some(q) ==> p <= q < tv.len() && peek_punct(tv, q, ';'),
    decreases tv.len() - p,
{
    if 0 <= p < tv.len() && !peek_punct(tv, p, ';') {
        lemma_semi_scan(tv, p + 1);
    }
}

/// The outcome of parsing one type-class preamble, `type R : Name
/// bounds... ;`, for the given role keyword: the class name, its bound
/// tokens taken verbatim, and the position after the statement end.
pub open spec fn role_decl_outcome(tv: Seq<TokV>, p: int, role: Kw) -> Result<
    (IdentV, Seq<TokV>, int),
    SyntaxErrorV,
> {
    if at_end(tv, p) {
        Err(SyntaxErrorV { kind: ErrorKindV::UnexpectedEnd, span: 0 })
    } else if !peek_keyword(tv, p, Kw::TypeKw) {
        Err(SyntaxErrorV { kind: ErrorKindV::ExpectedKeyword(Kw::TypeKw), span: tok_span(tv[p]) })
    } else if at_end(tv, p + 1) {
        Err(SyntaxErrorV { kind: ErrorKindV::UnexpectedEnd, span: 0 })
    } else if !peek_keyword(tv, p + 1, role) {
        Err(
            SyntaxErrorV {
                kind: ErrorKindV::ExpectedKeyword(role),
                span: tok_span(tv[p + 1]),
            },
        )
    } else if at_end(tv, p + 2) {
        Err(SyntaxErrorV { kind: ErrorKindV::UnexpectedEnd, span: 0 })
    } else if !peek_punct(tv, p + 2, ':') {
        Err(SyntaxErrorV { kind: ErrorKindV::ExpectedPunct(':'), span: tok_span(tv[p + 2]) })
    } else if at_end(tv, p + 3) {
        Err(SyntaxErrorV { kind: ErrorKindV::UnexpectedEnd, span: 0 })
    } else if !peek_ident(tv, p + 3) {
        Err(SyntaxErrorV { kind: ErrorKindV::ExpectedIdent, span: tok_span(tv[p + 3]) })
    } else {
        match semi_scan(tv, p + 4) {
            None => Err(SyntaxErrorV { kind: ErrorKindV::UnexpectedEnd, span: 0 }),
            Some(q) => Ok((ident_at(tv, p + 3), tv.subrange(p + 4, q), q + 1)),
        }
    }
}

/// Consumes one type-class preamble for the given role keyword.
#[verifier::loop_isolation(false)]
pub fn parse_role_decl(toks: &Vec<Tok>, pos: &mut usize, role: Kw) -> (r: Result<
    (IdentTok, Vec<Tok>),
    SyntaxError,
>)
    requires
        *old(pos) <= toks@.len(),
    ensures
        ({
            let out = role_decl_outcome(toks_view(toks@), *old(pos) as int, role);
            match out {
                Ok((name, bounds, np)) => r matches Ok(v) && v.0@ == name && toks_view(v.1@)
                    == bounds && *final(pos) == np,
                Err(e0) => r matches Err(e) && e@ == e0,
            }
        }),
{
    proof {
        lemma_toks_view(toks@);
    }
    let ghost tv = toks_view(toks@);
    match require_keyword(toks, pos, Kw::TypeKw, 0) {
        Ok(_) => {},
        Err(e) => {
            return Err(e);
        },
    }
    match require_keyword(toks, pos, role, 0) {
        Ok(_) => {},
        Err(e) => {
            return Err(e);
        },
    }
    match require_punct(toks, pos, ':', 0) {
        Ok(_) => {},
        Err(e) => {
            return Err(e);
        },
    }
    let name = match require_ident(toks, pos, 0) {
        Ok(id) => id,
        Err(e) => {
            return Err(e);
        },
    };
    let ghost pb = *pos as int;
    let mut bounds: Vec<Tok> = Vec::new();
    proof {
        assert(tv.subrange(pb, pb) =~= Seq::<TokV>::empty());
        assert(toks_view(bounds@) =~= Seq::<TokV>::empty());
    }
    while !(*pos < toks.len() && if_punct(toks, *pos, ';'))
        invariant
            pb <= *pos as int <= toks@.len(),
            toks_view(bounds@) == tv.subrange(pb, *pos as int),
            semi_scan(tv, pb) == semi_scan(tv, *pos as int),
            forall|j: int| pb <= j < *pos as int ==> !peek_punct(tv, j, ';'),
        decreases toks@.len() - *pos as int,
    {
        if *pos >= toks.len() {
            return Err(SyntaxError { kind: ErrorKind::UnexpectedEnd, span: 0 });
        }
        let ghost cur = *pos as int;
        let ghost bounds0 = bounds@;
        bounds.push(toks[*pos].clone());
        *pos += 1;
        proof {
            lemma_toks_view(bounds0);
            lemma_toks_view(bounds@);
            assert(tv.subrange(pb, cur + 1) =~= tv.subrange(pb, cur).push(tv[cur]));
            assert(toks_view(bounds@) =~= tv.subrange(pb, cur + 1));
        }
    }
    *pos += 1;
    Ok((name, bounds))
}

/// The marker sequence whose presence makes an argument a candidate for
/// a role: `dyn` followed by the role's type-class name.
pub open spec fn dyn_needle(name: Seq<char>) -> Seq<TokV> {
    seq![TokV::Ident { text: "dyn"@, span: 0 }, TokV::Ident { text: name, span: 0 }]
}

/// The argument indices whose type mentions `dyn` followed by the given
/// type-class name, in ascending order.
pub open spec fn cand_indices(args: Seq<ArgV>, name: Seq<char>) -> Seq<int>
    decreases args.len(),
{
    if args.len() == 0 {
        Seq::empty()
    } else {
        let rest = cand_indices(args.drop_last(), name);
        if contains_toks(args.last().ty, dyn_needle(name)) {
            rest.push(args.len() - 1)
        } else {
            rest
        }
    }
}

/// The first argument index without a name, or `-1` when every argument
/// carries one.
pub open spec fn first_unnamed(args: Seq<ArgV>) -> int
    decreases args.len(),
{
    if args.len() == 0 {
        -1
    } else if args[0].name is None {
        0
    } else {
        let r = first_unnamed(args.drop_first());
        if r < 0 {
            -1
        } else {
            r + 1
        }
    }
}

/// Whether one of the entries declares the given function name.
pub open spec fn entries_have_name(entries: Seq<EntryV>, name: Seq<char>) -> bool {
    exists|i: int| 0 <= i < entries.len() && (#[trigger] entries[i]).sig.name.text == name
}

/// Whether one of the authored implementations carries the given
/// function name.
pub open spec fn impls_have_name(fv: Seq<ImplFnV>, name: Seq<char>) -> bool {
    exists|k: int| 0 <= k < fv.len() && (#[trigger] fv[k]).sig.name.text == name
}

/// A successfully parsed signature lies within the input and past where
/// it began.
pub proof fn lemma_sig_outcome_bounds(tv: Seq<TokV>, p: int, expect_semicolon: bool, es0: nat)
    ensures
        sig_outcome(tv, p, expect_semicolon, es0) matches Ok((_, np)) ==> p < np <= tv.len(),
{
    if sig_outcome(tv, p, expect_semicolon, es0) is Ok {
        let (quals, p2) = crate::signature::quals_scan(tv, p, es0);
        let p3 = p2 + 1;
        let p4 = p3 + 1;
        if peek_punct(tv, p4, '<') {
            crate::signature::lemma_angle_close_bounds(tv, p4 + 1, 1);
        }
        let p5 = if peek_punct(tv, p4, '<') {
            crate::cursor::angle_close(tv, p4 + 1, 1)->0 + 1
        } else {
            p4
        };
        let p6 = p5 + 1;
        if peek_punct(tv, p6, '-') {
            lemma_type_scan_bounds(tv, p6 + 2, false, es0, es0);
        }
    }
}

/// Every argument of a successfully parsed signature has a nonempty
/// type expression.
pub proof fn lemma_args_scan_wf(gv: Seq<TokV>, q: int, es0: nat)
    ensures
        crate::signature::args_scan(gv, q, es0) matches Ok(args) ==> forall|i: int|
            0 <= i < args.len() ==> (#[trigger] args[i]).ty.len() > 0,
    decreases gv.len() - q,
{
    if 0 <= q < gv.len() {
        match crate::signature::arg_outcome(gv, q, es0) {
            Err(_) => {},
            Ok((a, np)) => {
                let has_name = peek_ident(gv, q) && peek_punct(gv, q + 1, ':');
                let q2: int = if has_name {
                    q + 2
                } else {
                    q
                };
                lemma_type_scan_bounds(gv, q2, false, es0, es0);
                crate::signature::lemma_arg_outcome_bounds(gv, q, es0);
                lemma_args_scan_wf(gv, np, es0);
            },
        }
    }
}

/// Every argument of a successfully parsed signature has a nonempty
/// type expression.
pub proof fn lemma_sig_outcome_args_wf(tv: Seq<TokV>, p: int, expect_semicolon: bool, es0: nat)
    ensures
        sig_outcome(tv, p, expect_semicolon, es0) matches Ok((s, _)) ==> forall|i: int|
            0 <= i < s.args.len() ==> (#[trigger] s.args[i]).ty.len() > 0,
{
    if sig_outcome(tv, p, expect_semicolon, es0) is Ok {
        let (quals, p2) = crate::signature::quals_scan(tv, p, es0);
        let p4 = p2 + 2;
        let p5 = if peek_punct(tv, p4, '<') {
            crate::cursor::angle_close(tv, p4 + 1, 1)->0 + 1
        } else {
            p4
        };
        lemma_args_scan_wf(tv[p5]->Group_toks, 0, es0);
    }
}

/// The semantic checks on one declared signature: named arguments, a
/// fresh name, matching visibility, and at least one candidate argument
/// position for each role.  On success: the entry and the visibility
/// tokens every later signature must match.
pub open spec fn sig_checks(
    sig: SigV,
    entries: Seq<EntryV>,
    quals: Seq<TokV>,
    first: bool,
    an: Seq<char>,
    bn: Seq<char>,
) -> Result<(EntryV, Seq<TokV>), SyntaxErrorV> {
    if first_unnamed(sig.args) >= 0 {
        Err(
            SyntaxErrorV {
                kind: ErrorKindV::MissingArgName,
                span: tok_span(sig.args[first_unnamed(sig.args)].ty[0]),
            },
        )
    } else if entries_have_name(entries, sig.name.text) {
        Err(SyntaxErrorV { kind: ErrorKindV::DuplicateFunction, span: sig.name.span })
    } else if !first && crate::token::toks_text(quals) != crate::token::toks_text(sig.quals) {
        Err(SyntaxErrorV { kind: ErrorKindV::VisibilityMismatch, span: sig.name.span })
    } else {
        let pa = cand_indices(sig.args, an);
        let pb = cand_indices(sig.args, bn);
        if pa.len() < 1 || pb.len() < 1 {
            Err(SyntaxErrorV { kind: ErrorKindV::MissingDynArgs, span: sig.name.span })
        } else {
            Ok(
                (
                    EntryV { sig, pa, pb },
                    if first {
                        sig.quals
                    } else {
                        quals
                    },
                ),
            )
        }
    }
}

/// The outcome of parsing the run of declared signatures from `p`: the
/// entries with their candidate positions, the settled visibility
/// tokens, and the position of the first implementation block.  The run
/// ends, after at least one signature, where a signature no longer
/// parses and an `impl` keyword or an attribute marker stands.
pub open spec fn sigs_scan(
    tv: Seq<TokV>,
    p: int,
    an: Seq<char>,
    bn: Seq<char>,
    entries: Seq<EntryV>,
    quals: Seq<TokV>,
    first: bool,
) -> Result<(Seq<EntryV>, Seq<TokV>, int), SyntaxErrorV>
    decreases tv.len() - p via sigs_scan_decreases
{
    match sig_outcome(tv, p, true, 0) {
        Err(e) => if entries.len() > 0 && (peek_keyword(tv, p, Kw::ImplKw) || peek_punct(
            tv,
            p,
            '#',
        )) {
            Ok((entries, quals, p))
        } else {
            Err(e)
        },
        Ok((sig, np)) => match sig_checks(sig, entries, quals, first, an, bn) {
            Err(e) => Err(e),
            Ok((entry, quals2)) => sigs_scan(tv, np, an, bn, entries.push(entry), quals2, false),
        },
    }
}

#[via_fn]
proof fn sigs_scan_decreases(
    tv: Seq<TokV>,
    p: int,
    an: Seq<char>,
    bn: Seq<char>,
    entries: Seq<EntryV>,
    quals: Seq<TokV>,
    first: bool,
) {
    lemma_sig_outcome_bounds(tv, p, true, 0);
}

/// The model of a sequence of entries, elementwise.
pub open spec fn entries_view(s: Seq<SigEntry>) -> Seq<EntryV> {
    s.map_values(|e: SigEntry| e@)
}

/// Parses the run of declared function signatures, checks each one
/// (named arguments, fresh name, uniform visibility, at least one
/// candidate argument for each role), and collects the candidate
/// argument positions.  The run ends at the first implementation block;
/// a mismatched visibility qualifier is reported here, before any
/// implementation is parsed.
#[verifier::loop_isolation(false)]
pub fn parse_fn_sigs(
    toks: &Vec<Tok>,
    pos: &mut usize,
    trait_a: &IdentTok,
    trait_b: &IdentTok,
) -> (r: Result<(Vec<SigEntry>, Vec<Tok>), SyntaxError>)
    requires
        *old(pos) <= toks@.len(),
    ensures
        ({
            let out = sigs_scan(
                toks_view(toks@),
                *old(pos) as int,
                trait_a.text@,
                trait_b.text@,
                Seq::empty(),
                Seq::empty(),
                true,
            );
            match out {
                Ok((entries, quals, np)) => r matches Ok(v) && entries_view(v.0@) == entries
                    && toks_view(v.1@) == quals && *final(pos) == np,
                Err(e0) => r matches Err(e) && e@ == e0,
            }
        }),
{
    proof {
        lemma_toks_view(toks@);
    }
    let ghost tv = toks_view(toks@);
    let ghost an = trait_a.text@;
    let ghost bn = trait_b.text@;

    let mut needle_a: Vec<Tok> = Vec::new();
    needle_a.push(Tok::Ident(IdentTok { text: String::from_str("dyn"), span: 0 }));
    needle_a.push(Tok::Ident(IdentTok { text: trait_a.text.clone(), span: 0 }));
    let mut needle_b: Vec<Tok> = Vec::new();
    needle_b.push(Tok::Ident(IdentTok { text: String::from_str("dyn"), span: 0 }));
    needle_b.push(Tok::Ident(IdentTok { text: trait_b.text.clone(), span: 0 }));
    proof {
        lemma_toks_view(needle_a@);
        lemma_toks_view(needle_b@);
        assert(toks_view(needle_a@) =~= dyn_needle(an));
        assert(toks_view(needle_b@) =~= dyn_needle(bn));
    }

    let mut entries: Vec<SigEntry> = Vec::new();
    let mut quals: Vec<Tok> = Vec::new();
    let mut first: bool = true;
    proof {
        assert(entries_view(entries@) =~= Seq::<EntryV>::empty());
        assert(toks_view(quals@) =~= Seq::<TokV>::empty());
    }
    loop
        invariant
            *pos as int <= toks@.len(),
            sigs_scan(tv, *old(pos) as int, an, bn, Seq::empty(), Seq::empty(), true)
                == sigs_scan(
                tv,
                *pos as int,
                an,
                bn,
                entries_view(entries@),
                toks_view(quals@),
                first,
            ),
            toks_view(needle_a@) == dyn_needle(an),
            toks_view(needle_b@) == dyn_needle(bn),
        decreases toks@.len() - *pos as int,
    {
        let ghost cur = *pos as int;
        let ghost entries0 = entries@;
        let ghost quals0 = quals@;
        let ghost first0 = first;
        let mut temp: usize = *pos;
        let sig = match require_fn_signature(toks, &mut temp, true, 0) {
            Ok(sig) => sig,
            Err(e) => {
                if entries.len() > 0 && (if_keyword(toks, *pos, Kw::ImplKw) || if_punct(
                    toks,
                    *pos,
                    '#',
                )) {
                    return Ok((entries, quals));
                } else {
                    return Err(e);
                }
            },
        };
        let ghost sigv = sig@;
        let ghost np = temp as int;
        proof {
            lemma_sig_outcome_bounds(tv, cur, true, 0);
            lemma_sig_outcome_args_wf(tv, cur, true, 0);
        }

        // Every argument must carry a name.
        let mut i: usize = 0;
        while i < sig.args.len()
            invariant
                i <= sig.args@.len(),
                forall|j: int| 0 <= j < i ==> !((#[trigger] sigv.args[j]).name is None),
            decreases sig.args@.len() - i,
        {
            if sig.args[i].arg_name.is_none() {
                proof {
                    assert(first_unnamed(sigv.args.skip(i as int)) == 0);
                    lemma_first_unnamed_at(sigv.args, i as int, 0);
                }
                let sp = crate::cursor::span_of_first(&sig.args[i].arg_type);
                return Err(SyntaxError { kind: ErrorKind::MissingArgName, span: sp });
            }
            i += 1;
        }
        proof {
            lemma_first_unnamed_none(sigv.args);
        }

        // The name must be fresh.
        let mut k: usize = 0;
        while k < entries.len()
            invariant
                k <= entries@.len(),
                forall|j: int|
                    0 <= j < k ==> (#[trigger] entries_view(entries@)[j]).sig.name.text
                        != sigv.name.text,
        decreases entries@.len() - k,
        {
            if entries[k].sig.fn_name.text == sig.fn_name.text {
                proof {
                    assert(entries_view(entries@)[k as int].sig.name.text == sigv.name.text);
                    assert(entries_have_name(entries_view(entries@), sigv.name.text));
                }
                return Err(
                    SyntaxError { kind: ErrorKind::DuplicateFunction, span: sig.fn_name.span },
                );
            }
            k += 1;
        }

        // The visibility must match across every signature.
        if !first {
            let here = crate::token::tokens_to_string(&quals);
            let there = crate::token::tokens_to_string(&sig.pub_qualifiers);
            if !(here == there) {
                return Err(
                    SyntaxError { kind: ErrorKind::VisibilityMismatch, span: sig.fn_name.span },
                );
            }
        }

        // The candidate argument positions for each role.
        let mut possible_a: Vec<usize> = Vec::new();
        let mut possible_b: Vec<usize> = Vec::new();
        let mut i2: usize = 0;
        proof {
            assert(sigv.args.take(0) =~= Seq::<ArgV>::empty());
            assert(possible_a@.map_values(|u: usize| u as int) =~= cand_indices(
                sigv.args.take(0),
                an,
            ));
            assert(possible_b@.map_values(|u: usize| u as int) =~= cand_indices(
                sigv.args.take(0),
                bn,
            ));
        }
        while i2 < sig.args.len()
            invariant
                i2 <= sig.args@.len(),
                possible_a@.map_values(|u: usize| u as int) == cand_indices(
                    sigv.args.take(i2 as int),
                    an,
                ),
                possible_b@.map_values(|u: usize| u as int) == cand_indices(
                    sigv.args.take(i2 as int),
                    bn,
                ),
            decreases sig.args@.len() - i2,
        {
            let ghost pa0 = possible_a@;
            let ghost pb0 = possible_b@;
            proof {
                assert(sigv.args.take(i2 + 1).drop_last() =~= sigv.args.take(i2 as int));
                assert(sigv.args.take(i2 + 1).last() == sigv.args[i2 as int]);
            }
            if contains_toks_exec(&sig.args[i2].arg_type, &needle_a) {
                possible_a.push(i2);
                proof {
                    assert(possible_a@.map_values(|u: usize| u as int) =~= pa0.map_values(
                        |u: usize| u as int,
                    ).push(i2 as int));
                }
            }
            if contains_toks_exec(&sig.args[i2].arg_type, &needle_b) {
                possible_b.push(i2);
                proof {
                    assert(possible_b@.map_values(|u: usize| u as int) =~= pb0.map_values(
                        |u: usize| u as int,
                    ).push(i2 as int));
                }
            }
            proof {
                assert(possible_a@.map_values(|u: usize| u as int) =~= cand_indices(
                    sigv.args.take(i2 + 1),
                    an,
                ));
                assert(possible_b@.map_values(|u: usize| u as int) =~= cand_indices(
                    sigv.args.take(i2 + 1),
                    bn,
                ));
            }
            i2 += 1;
        }
        proof {
            assert(sigv.args.take(sigv.args.len() as int) =~= sigv.args);
        }
        if possible_a.len() < 1 || possible_b.len() < 1 {
            return Err(SyntaxError { kind: ErrorKind::MissingDynArgs, span: sig.fn_name.span });
        }

        // Keep the entry and move past the signature.
        if first {
            quals = clone_toks(&sig.pub_qualifiers);
        }
        first = false;
        let entry = SigEntry { sig, possible_a, possible_b };
        entries.push(entry);
        *pos = temp;
        proof {
            assert(entries_view(entries@) =~= entries_view(entries0).push(
                entries@[entries0.len() as int]@,
            ));
            assert(sig_checks(sigv, entries_view(entries0), toks_view(quals0), first0, an, bn)
                matches Ok(ec) && ec.0 == entries@[entries0.len() as int]@ && ec.1 == toks_view(
                quals@,
            ));
        }
    }
}

/// The outcome of parsing a comma-separated list of type expressions
/// running to the end of a bracket group's tokens.
pub open spec fn list_scan(gv: Seq<TokV>, q: int, es: nat) -> Result<Seq<Seq<TokV>>, SyntaxErrorV>
    decreases gv.len() - q via list_scan_decreases
{
    match type_scan(gv, q, false, es, es) {
        Err(e) => Err(e),
        Ok((stop, found, tspan)) => if !found {
            Err(SyntaxErrorV { kind: ErrorKindV::ExpectedTypeIdent, span: tspan })
        } else {
            let ty = gv.subrange(q, stop);
            if stop >= gv.len() {
                Ok(seq![ty])
            } else if !peek_punct(gv, stop, ',') {
                Err(SyntaxErrorV { kind: ErrorKindV::ExpectedPunct(','), span: tok_span(gv[stop]) })
            } else {
                match list_scan(gv, stop + 1, es) {
                    Err(e) => Err(e),
                    Ok(rest) => Ok(seq![ty] + rest),
                }
            }
        },
    }
}

#[via_fn]
proof fn list_scan_decreases(gv: Seq<TokV>, q: int, es: nat) {
    if 0 <= q <= gv.len() {
        lemma_type_scan_bounds(gv, q, false, es, es);
    }
}

/// The outcome of parsing a type by itself, or a bracketed list of
/// types, at `p`: the list and the position after it.
pub open spec fn tol_outcome(tv: Seq<TokV>, p: int, es: nat) -> Result<
    (Seq<Seq<TokV>>, int),
    SyntaxErrorV,
> {
    if peek_group(tv, p, Delim::Bracket) {
        match list_scan(tv[p]->Group_toks, 0, tok_span(tv[p])) {
            Err(e) => Err(e),
            Ok(list) => Ok((list, p + 1)),
        }
    } else {
        match type_scan(tv, p, false, es, es) {
            Err(e) => Err(e),
            Ok((stop, found, tspan)) => if !found {
                Err(SyntaxErrorV { kind: ErrorKindV::ExpectedTypeIdent, span: tspan })
            } else {
                Ok((seq![tv.subrange(p, stop)], stop))
            },
        }
    }
}

/// A parsed type list holds at least one type.
pub proof fn lemma_list_scan_nonempty(gv: Seq<TokV>, q: int, es: nat)
    ensures
        list_scan(gv, q, es) matches Ok(list) ==> list.len() >= 1,
{
}

/// A parsed type-or-type-list holds at least one type.
pub proof fn lemma_tol_nonempty(tv: Seq<TokV>, p: int, es: nat)
    ensures
        tol_outcome(tv, p, es) matches Ok(v) ==> v.0.len() >= 1,
{
    if peek_group(tv, p, Delim::Bracket) {
        lemma_list_scan_nonempty(tv[p]->Group_toks, 0, tok_span(tv[p]));
    }
}

/// The model of a sequence of type token vectors, elementwise.
pub open spec fn types_view(s: Seq<Vec<Tok>>) -> Seq<Seq<TokV>> {
    s.map_values(|v: Vec<Tok>| toks_view(v@))
}

/// Consumes a type expression by itself, or a bracketed list of type
/// expressions, at the cursor.
#[verifier::loop_isolation(false)]
pub fn require_type_or_type_list(toks: &Vec<Tok>, pos: &mut usize, err_span: usize) -> (r: Result<
    Vec<Vec<Tok>>,
    SyntaxError,
>)
    requires
        *old(pos) <= toks@.len(),
    ensures
        ({
            let out = tol_outcome(toks_view(toks@), *old(pos) as int, err_span as nat);
            match out {
                Ok((list, np)) => r matches Ok(v) && types_view(v@) == list && *final(pos) == np
                    && np <= toks@.len(),
                Err(e0) => r matches Err(e) && e@ == e0,
            }
        }),
{
    proof {
        lemma_toks_view(toks@);
        lemma_type_scan_bounds(
            toks_view(toks@),
            *pos as int,
            false,
            err_span as nat,
            err_span as nat,
        );
    }
    let ghost tv = toks_view(toks@);
    if if_group(toks, *pos, Delim::Bracket) {
        let g = match require_group(
            toks,
            pos,
            Delim::Bracket,
            err_span,
            ErrorKind::ExpectedSquareBracesForTypeArray,
        ) {
            Ok(g) => g,
            Err(e) => {
                return Err(e);
            },
        };
        let ghost gv = toks_view(g.toks@);
        let ghost ges = g.span as nat;
        let mut list: Vec<Vec<Tok>> = Vec::new();
        let mut tpos: usize = 0;
        proof {
            lemma_toks_view(g.toks@);
            assert(types_view(list@) =~= Seq::<Seq<TokV>>::empty());
        }
        loop
            invariant
                tpos as int <= gv.len(),
                ({
                    let full = list_scan(gv, 0, ges);
                    match list_scan(gv, tpos as int, ges) {
                        Ok(rest) => full matches Ok(all) && all == types_view(list@) + rest,
                        Err(e) => full matches Err(e2) && e2 == e,
                    }
                }),
            decreases gv.len() - tpos as int,
        {
            let ghost tpos0 = tpos as int;
            let ghost list0 = list@;
            let ty = match require_type(&g.toks, &mut tpos, g.span) {
                Ok(v) => v,
                Err(e) => {
                    return Err(e);
                },
            };
            list.push(ty);
            proof {
                lemma_type_scan_bounds(gv, tpos0, false, ges, ges);
                assert(types_view(list@) =~= types_view(list0).push(
                    toks_view(list@[list0.len() as int]@),
                ));
            }
            if if_end(&g.toks, tpos) {
                proof {
                    let stop = tpos as int;
                    match list_scan(gv, 0, ges) {
                        Ok(all) => {
                            assert(types_view(list0) + seq![gv.subrange(tpos0, stop)]
                                =~= types_view(list@));
                        },
                        Err(_) => {},
                    }
                }
                return Ok(list);
            }
            match require_punct(&g.toks, &mut tpos, ',', g.span) {
                Ok(_) => {},
                Err(e) => {
                    return Err(e);
                },
            }
            proof {
                match list_scan(gv, tpos as int, ges) {
                    Ok(rest) => {
                        let stop = tpos - 1;
                        assert(types_view(list0) + (seq![gv.subrange(tpos0, stop)] + rest)
                            =~= types_view(list@) + rest);
                    },
                    Err(_) => {},
                }
            }
        }
    } else {
        let ty = match require_type(toks, pos, err_span) {
            Ok(v) => v,
            Err(e) => {
                return Err(e);
            },
        };
        let mut list: Vec<Vec<Tok>> = Vec::new();
        list.push(ty);
        proof {
            assert(types_view(list@) =~= seq![toks_view(list@[0]@)]);
        }
        Ok(list)
    }
}

/// The marker sequence that makes an argument a role candidate inside an
/// implementation: `#` followed by the role letter.
pub open spec fn hash_needle(letter: Seq<char>) -> Seq<TokV> {
    seq![TokV::Punct { ch: '#', span: 0 }, TokV::Ident { text: letter, span: 0 }]
}

/// Whether an argument type keeps an index as a role candidate when
/// reconciled with an authored implementation: it mentions the role's
/// placeholder marker, or the block's first concrete type for the role.
pub open spec fn keep_role(ty: Seq<TokV>, needle: Seq<TokV>, t0: Seq<TokV>) -> bool {
    contains_toks(ty, needle) || contains_toks(ty, t0)
}

/// The candidate indices that survive reconciliation with one authored
/// implementation's argument types.
pub open spec fn narrowed(pa: Seq<int>, args: Seq<ArgV>, needle: Seq<TokV>, t0: Seq<TokV>) -> Seq<
    int,
>
    decreases pa.len(),
{
    if pa.len() == 0 {
        Seq::empty()
    } else {
        let rest = narrowed(pa.drop_last(), args, needle, t0);
        let idx = pa.last();
        if 0 <= idx < args.len() && keep_role(args[idx].ty, needle, t0) {
            rest.push(idx)
        } else {
            rest
        }
    }
}

/// What survives narrowing was a candidate before.
pub proof fn lemma_narrowed_subset(pa: Seq<int>, args: Seq<ArgV>, needle: Seq<TokV>, t0: Seq<TokV>)
    ensures
        forall|i: int|
            0 <= i < narrowed(pa, args, needle, t0).len() ==> pa.contains(
                #[trigger] narrowed(pa, args, needle, t0)[i],
            ) && 0 <= narrowed(pa, args, needle, t0)[i] < args.len(),
    decreases pa.len(),
{
    if pa.len() > 0 {
        lemma_narrowed_subset(pa.drop_last(), args, needle, t0);
        let nd = narrowed(pa, args, needle, t0);
        let ndr = narrowed(pa.drop_last(), args, needle, t0);
        assert forall|i: int|
            0 <= i < nd.len() implies pa.contains(#[trigger] nd[i]) && 0 <= nd[i]
                < args.len() by {
            if i < ndr.len() {
                assert(nd[i] == ndr[i]);
                let j = choose|j: int|
                    0 <= j < pa.drop_last().len() && pa.drop_last()[j] == ndr[i];
                assert(pa[j] == ndr[i]);
                assert(pa.contains(nd[i]));
            } else {
                assert(nd[i] == pa.last());
                assert(pa[pa.len() - 1] == pa.last());
                assert(pa.contains(nd[i]));
            }
        }
    }
}

/// Keeps the candidate indices that an authored implementation's
/// argument types still support.
#[verifier::loop_isolation(false)]
pub fn narrow_candidates(
    possible: &Vec<usize>,
    args: &Vec<FnArg>,
    needle: &Vec<Tok>,
    t0: &Vec<Tok>,
) -> (r: Vec<usize>)
    ensures
        r@.map_values(|u: usize| u as int) == narrowed(
            possible@.map_values(|u: usize| u as int),
            args_view(args@),
            toks_view(needle@),
            toks_view(t0@),
        ),
{
    let ghost pav = possible@.map_values(|u: usize| u as int);
    let ghost argsv = args_view(args@);
    let mut out: Vec<usize> = Vec::new();
    let mut i: usize = 0;
    proof {
        assert(pav.take(0) =~= Seq::<int>::empty());
        assert(out@.map_values(|u: usize| u as int) =~= narrowed(
            pav.take(0),
            argsv,
            toks_view(needle@),
            toks_view(t0@),
        ));
    }
    while i < possible.len()
        invariant
            i <= possible@.len(),
            out@.map_values(|u: usize| u as int) == narrowed(
                pav.take(i as int),
                argsv,
                toks_view(needle@),
                toks_view(t0@),
            ),
        decreases possible@.len() - i,
    {
        let ghost out0 = out@;
        proof {
            assert(pav.take(i + 1).drop_last() =~= pav.take(i as int));
            assert(pav.take(i + 1).last() == pav[i as int]);
        }
        let idx = possible[i];
        let keep = if idx < args.len() {
            contains_toks_exec(&args[idx].arg_type, needle) || contains_toks_exec(
                &args[idx].arg_type,
                t0,
            )
        } else {
            false
        };
        if keep {
            out.push(idx);
            proof {
                assert(out@.map_values(|u: usize| u as int) =~= out0.map_values(
                    |u: usize| u as int,
                ).push(idx as int));
            }
        }
        proof {
            assert(out@.map_values(|u: usize| u as int) =~= narrowed(
                pav.take(i + 1),
                argsv,
                toks_view(needle@),
                toks_view(t0@),
            ));
        }
        i += 1;
    }
    proof {
        assert(pav.take(possible@.len() as int) =~= pav);
    }
    out
}

/// One parsed implementation block, before cross-product expansion.
#[derive(Debug)]
pub struct ImplBlock {
    pub is_commutative: bool,
    pub type_a_list: Vec<Vec<Tok>>,
    pub type_b_list: Vec<Vec<Tok>>,
    pub impl_fns: Vec<ImplFn>,
}

/// Candidate indices in range of the signature's arguments.
pub open spec fn entry_indices_wf(e: EntryV) -> bool {
    &&& forall|i: int| 0 <= i < e.pa.len() ==> 0 <= #[trigger] e.pa[i] < e.sig.args.len()
    &&& forall|i: int| 0 <= i < e.pb.len() ==> 0 <= #[trigger] e.pb[i] < e.sig.args.len()
}

/// The declared entry names are pairwise distinct.
pub open spec fn entry_names_unique(es: Seq<EntryV>) -> bool {
    forall|i: int, j: int|
        0 <= i < j < es.len() ==> (#[trigger] es[i]).sig.name.text != (
        #[trigger] es[j]).sig.name.text
}


/// The first index of an entry declaring the name, or `-1`.
pub open spec fn entry_index_spec(entries: Seq<EntryV>, name: Seq<char>) -> int
    decreases entries.len(),
{
    if entries.len() == 0 {
        -1
    } else if entries[0].sig.name.text == name {
        0
    } else {
        let r = entry_index_spec(entries.drop_first(), name);
        if r < 0 {
            -1
        } else {
            r + 1
        }
    }
}

/// A nameless prefix puts the entry index exactly at the first match.
pub proof fn lemma_entry_index_at(entries: Seq<EntryV>, name: Seq<char>, p: int)
    requires
        0 <= p <= entries.len(),
        forall|j: int| 0 <= j < p ==> (#[trigger] entries[j]).sig.name.text != name,
        p < entries.len() ==> entries[p].sig.name.text == name,
    ensures
        p < entries.len() ==> entry_index_spec(entries, name) == p,
        p == entries.len() ==> entry_index_spec(entries, name) == -1,
    decreases p, entries.len(),
{
    if entries.len() > 0 && entries[0].sig.name.text != name {
        let t = entries.drop_first();
        assert(forall|j: int| 0 <= j < t.len() ==> #[trigger] t[j] == entries[j + 1]);
        lemma_entry_index_at(t, name, p - 1);
    }
}

/// One step at a time, the authored implementations of a block: each is
/// a signature and a brace-delimited body, its name must be fresh in
/// the block and declared with the same number of arguments, all named;
/// the matching entry's candidate sets are narrowed against it and must
/// not empty.  At the end every declared function must have been
/// implemented.
pub open spec fn block_fns_scan(
    gv: Seq<TokV>,
    q: int,
    es: nat,
    entries: Seq<EntryV>,
    fv: Seq<ImplFnV>,
    ta0: Seq<TokV>,
    tb0: Seq<TokV>,
) -> Result<(Seq<ImplFnV>, Seq<EntryV>), SyntaxErrorV>
    decreases gv.len() - q via block_fns_scan_decreases
{
    if q < 0 || q >= gv.len() {
        if forall|j: int|
            0 <= j < entries.len() ==> impls_have_name(fv, (#[trigger] entries[j]).sig.name.text) {
            Ok((fv, entries))
        } else {
            Err(SyntaxErrorV { kind: ErrorKindV::IncompleteImplementation, span: es })
        }
    } else {
        match sig_outcome(gv, q, false, es) {
            Err(e) => Err(e),
            Ok((sig, np)) => if at_end(gv, np) {
                Err(SyntaxErrorV { kind: ErrorKindV::ExpectedFnBody, span: es })
            } else if !peek_group(gv, np, Delim::Brace) {
                Err(SyntaxErrorV { kind: ErrorKindV::ExpectedFnBody, span: tok_span(gv[np]) })
            } else {
                let body = gv[np]->Group_toks;
                if impls_have_name(fv, sig.name.text) {
                    Err(SyntaxErrorV { kind: ErrorKindV::DuplicateFunction, span: sig.name.span })
                } else {
                    let ei = entry_index_spec(entries, sig.name.text);
                    if ei < 0 {
                        Err(
                            SyntaxErrorV {
                                kind: ErrorKindV::NoMatchingSignature,
                                span: sig.name.span,
                            },
                        )
                    } else if sig.args.len() != entries[ei].sig.args.len() {
                        Err(
                            SyntaxErrorV {
                                kind: ErrorKindV::NoMatchingSignature,
                                span: sig.name.span,
                            },
                        )
                    } else if first_unnamed(sig.args) >= 0 {
                        Err(
                            SyntaxErrorV {
                                kind: ErrorKindV::MissingArgName,
                                span: tok_span(sig.args[first_unnamed(sig.args)].ty[0]),
                            },
                        )
                    } else {
                        let pa2 = narrowed(entries[ei].pa, sig.args, hash_needle("A"@), ta0);
                        let pb2 = narrowed(entries[ei].pb, sig.args, hash_needle("B"@), tb0);
                        if pa2.len() < 1 {
                            Err(
                                SyntaxErrorV { kind: ErrorKindV::CantInferA, span: sig.name.span },
                            )
                        } else if pb2.len() < 1 {
                            Err(
                                SyntaxErrorV { kind: ErrorKindV::CantInferB, span: sig.name.span },
                            )
                        } else {
                            block_fns_scan(
                                gv,
                                np + 1,
                                es,
                                entries.update(
                                    ei,
                                    EntryV { sig: entries[ei].sig, pa: pa2, pb: pb2 },
                                ),
                                fv.push(ImplFnV { sig, body }),
                                ta0,
                                tb0,
                            )
                        }
                    }
                }
            },
        }
    }
}

#[via_fn]
proof fn block_fns_scan_decreases(
    gv: Seq<TokV>,
    q: int,
    es: nat,
    entries: Seq<EntryV>,
    fv: Seq<ImplFnV>,
    ta0: Seq<TokV>,
    tb0: Seq<TokV>,
) {
    lemma_sig_outcome_bounds(gv, q, false, es);
}

/// What holds of one successfully parsed implementation block: every
/// declared function is implemented exactly once under its own name and
/// argument count with named arguments, and each entry's candidate sets
/// only shrink, to in-range positions, and neither empties.
pub open spec fn block_ok(
    e0: Seq<EntryV>,
    e1: Seq<EntryV>,
    fv: Seq<ImplFnV>,
) -> bool {
    &&& e1.len() == e0.len()
    &&& forall|i: int| 0 <= i < e0.len() ==> (#[trigger] e1[i]).sig == e0[i].sig
    &&& forall|k1: int, k2: int|
        0 <= k1 < k2 < fv.len() ==> (#[trigger] fv[k1]).sig.name.text != (
        #[trigger] fv[k2]).sig.name.text
    &&& forall|k: int|
        0 <= k < fv.len() ==> entries_have_name(e0, (#[trigger] fv[k]).sig.name.text)
    &&& forall|j: int|
        0 <= j < e0.len() ==> impls_have_name(fv, (#[trigger] e0[j]).sig.name.text)
    &&& forall|k: int, j: int|
        0 <= k < fv.len() && 0 <= j < e0.len() && (#[trigger] fv[k]).sig.name.text == (
        #[trigger] e0[j]).sig.name.text ==> fv[k].sig.args.len() == e0[j].sig.args.len() && (
        forall|l: int|
            0 <= l < fv[k].sig.args.len() ==> (#[trigger] fv[k].sig.args[l]).name is Some)
    &&& forall|j: int| 0 <= j < e1.len() ==> (#[trigger] e1[j]).pa.len() >= 1
    &&& forall|j: int| 0 <= j < e1.len() ==> (#[trigger] e1[j]).pb.len() >= 1
    &&& forall|j: int| 0 <= j < e1.len() ==> entry_indices_wf(#[trigger] e1[j])
    &&& entry_names_unique(e1)
}

/// Parses the authored implementations inside one block's braces and
/// narrows every declared function's candidate argument positions
/// against its implementation (each set keeps exactly the positions
/// whose argument type mentions the role's placeholder marker or the
/// block's first concrete type for the role).  On success every
/// declared function is implemented exactly once, under its own name,
/// with the same number of arguments, all named, and no candidate set
/// empties.
#[verifier::loop_isolation(false)]
#[verifier::rlimit(100)]
#[verifier::spinoff_prover]
pub fn parse_block_fns(
    btoks: &Vec<Tok>,
    bspan: usize,
    entries: &mut Vec<SigEntry>,
    type_a0: &Vec<Tok>,
    type_b0: &Vec<Tok>,
) -> (r: Result<Vec<ImplFn>, SyntaxError>)
    requires
        forall|i: int|
            0 <= i < old(entries)@.len() ==> entry_indices_wf(
                #[trigger] entries_view(old(entries)@)[i],
            ),
        forall|i: int|
            0 <= i < old(entries)@.len() ==> (#[trigger] entries_view(old(entries)@)[i]).pa.len()
                >= 1 && entries_view(old(entries)@)[i].pb.len() >= 1,
        entry_names_unique(entries_view(old(entries)@)),
    ensures
        ({
            let scan = block_fns_scan(
                toks_view(btoks@),
                0,
                bspan as nat,
                entries_view(old(entries)@),
                Seq::empty(),
                toks_view(type_a0@),
                toks_view(type_b0@),
            );
            match scan {
                Ok(o) => r matches Ok(v) && impl_fns_view(v@) == o.0 && entries_view(
                    final(entries)@,
                ) == o.1,
                Err(e0) => r matches Err(e) && e@ == e0,
            }
        }),
        r is Ok ==> block_ok(
            entries_view(old(entries)@),
            entries_view(final(entries)@),
            impl_fns_view(r->Ok_0@),
        ),
{
    let ghost e0 = entries_view(old(entries)@);
    let ghost gv = toks_view(btoks@);
    let ghost esn = bspan as nat;
    proof {
        lemma_toks_view(btoks@);
    }
    let ghost ta0 = toks_view(type_a0@);
    let ghost tb0 = toks_view(type_b0@);

    let mut needle_hash_a: Vec<Tok> = Vec::new();
    needle_hash_a.push(Tok::Punct { ch: '#', span: 0 });
    needle_hash_a.push(Tok::Ident(IdentTok { text: String::from_str("A"), span: 0 }));
    let mut needle_hash_b: Vec<Tok> = Vec::new();
    needle_hash_b.push(Tok::Punct { ch: '#', span: 0 });
    needle_hash_b.push(Tok::Ident(IdentTok { text: String::from_str("B"), span: 0 }));
    proof {
        lemma_toks_view(needle_hash_a@);
        lemma_toks_view(needle_hash_b@);
        assert(toks_view(needle_hash_a@) =~= hash_needle("A"@));
        assert(toks_view(needle_hash_b@) =~= hash_needle("B"@));
    }

    let mut impl_fns: Vec<ImplFn> = Vec::new();
    let mut bpos: usize = 0;
    proof {
        assert(impl_fns_view(impl_fns@) =~= Seq::<ImplFnV>::empty());
    }
    while bpos < btoks.len()
        invariant
            bpos <= btoks@.len(),
            block_fns_scan(gv, 0, esn, e0, Seq::empty(), ta0, tb0) == block_fns_scan(
                gv,
                bpos as int,
                esn,
                entries_view(entries@),
                impl_fns_view(impl_fns@),
                ta0,
                tb0,
            ),
            entries@.len() == old(entries)@.len(),
            forall|i: int|
                0 <= i < e0.len() ==> (#[trigger] entries_view(entries@)[i]).sig == e0[i].sig,
            forall|i: int|
                0 <= i < e0.len() ==> entry_indices_wf(#[trigger] entries_view(entries@)[i]),
            forall|k1: int, k2: int|
                0 <= k1 < k2 < impl_fns@.len() ==> (#[trigger] impl_fns_view(impl_fns@)[k1]).sig.name.text
                    != (#[trigger] impl_fns_view(impl_fns@)[k2]).sig.name.text,
            forall|k: int|
                0 <= k < impl_fns@.len() ==> entries_have_name(
                    e0,
                    (#[trigger] impl_fns_view(impl_fns@)[k]).sig.name.text,
                ),
            forall|k: int, j: int|
                0 <= k < impl_fns@.len() && 0 <= j < e0.len() && (#[trigger] impl_fns_view(
                    impl_fns@,
                )[k]).sig.name.text == (#[trigger] e0[j]).sig.name.text
                    ==> impl_fns_view(impl_fns@)[k].sig.args.len() == e0[j].sig.args.len() && (
                forall|l: int|
                    0 <= l < impl_fns_view(impl_fns@)[k].sig.args.len() ==> (
                    #[trigger] impl_fns_view(impl_fns@)[k].sig.args[l]).name is Some),
            forall|j: int|
                0 <= j < e0.len() ==> (#[trigger] entries_view(entries@)[j]).pa.len() >= 1
                    && entries_view(entries@)[j].pb.len() >= 1,
            toks_view(needle_hash_a@) == hash_needle("A"@),
            toks_view(needle_hash_b@) == hash_needle("B"@),
        decreases btoks@.len() - bpos,
    {
        let ghost impl0 = impl_fns@;
        let ghost bpos0 = bpos as int;
        let ghost epre = entries_view(entries@);
        let ghost fpre = impl_fns_view(impl_fns@);
        let sig = match require_fn_signature(btoks, &mut bpos, false, bspan) {
            Ok(s) => s,
            Err(e) => {
                proof {
                    assert(block_fns_scan(gv, bpos0, esn, epre, fpre, ta0, tb0) == Err::<(Seq<ImplFnV>, Seq<EntryV>), SyntaxErrorV>(
                        e@,
                    ));
                }
                return Err(e);
            },
        };
        let ghost sv0 = sig@;
        proof {
            lemma_sig_outcome_bounds(toks_view(btoks@), bpos0, false, bspan as nat);
            lemma_sig_outcome_args_wf(toks_view(btoks@), bpos0, false, bspan as nat);
        }
        let body_g = match require_group(
            btoks,
            &mut bpos,
            Delim::Brace,
            bspan,
            ErrorKind::ExpectedFnBody,
        ) {
            Ok(g) => g,
            Err(e) => {
                proof {
                    assert(block_fns_scan(gv, bpos0, esn, epre, fpre, ta0, tb0) == Err::<(Seq<ImplFnV>, Seq<EntryV>), SyntaxErrorV>(
                        e@,
                    ));
                }
                return Err(e);
            },
        };

        // A name may be implemented only once in one block.
        let mut k: usize = 0;
        while k < impl_fns.len()
            invariant
                k <= impl_fns@.len(),
                forall|k2: int|
                    0 <= k2 < k ==> (#[trigger] impl_fns_view(impl_fns@)[k2]).sig.name.text
                        != sig@.name.text,
            decreases impl_fns@.len() - k,
        {
            if impl_fns[k].sig.fn_name.text == sig.fn_name.text {
                proof {
                    assert(impl_fns_view(impl_fns@)[k as int].sig.name.text == sig@.name.text);
                    assert(impls_have_name(fpre, sig@.name.text));
                    assert(block_fns_scan(gv, bpos0, esn, epre, fpre, ta0, tb0) == Err::<(Seq<ImplFnV>, Seq<EntryV>), SyntaxErrorV>(
                        SyntaxErrorV {
                            kind: ErrorKindV::DuplicateFunction,
                            span: sv0.name.span,
                        },
                    ));
                }
                return Err(
                    SyntaxError { kind: ErrorKind::DuplicateFunction, span: sig.fn_name.span },
                );
            }
            k += 1;
        }
        proof {
            assert(!impls_have_name(fpre, sig@.name.text));
        }

        // The name must match a declared signature of the same shape.
        let mut m: usize = 0;
        let mut found_idx: usize = 0;
        let mut found: bool = false;
        while m < entries.len()
            invariant
                m <= entries@.len(),
                !found ==> forall|j: int|
                    0 <= j < m ==> (#[trigger] entries_view(entries@)[j]).sig.name.text
                        != sig@.name.text,
                found ==> found_idx < entries@.len() && entries_view(entries@)[
                    found_idx as int
                ].sig.name.text == sig@.name.text,
            decreases entries@.len() - m,
        {
            if entries[m].sig.fn_name.text == sig.fn_name.text {
                found_idx = m;
                found = true;
                m = entries.len();
            } else {
                m += 1;
            }
        }
        if !found {
            proof {
                lemma_entry_index_at(epre, sig@.name.text, epre.len() as int);
                assert(block_fns_scan(gv, bpos0, esn, epre, fpre, ta0, tb0) == Err::<(Seq<ImplFnV>, Seq<EntryV>), SyntaxErrorV>(
                    SyntaxErrorV { kind: ErrorKindV::NoMatchingSignature, span: sv0.name.span },
                ));
            }
            return Err(
                SyntaxError { kind: ErrorKind::NoMatchingSignature, span: sig.fn_name.span },
            );
        }
        proof {
            lemma_entry_index_at(epre, sig@.name.text, found_idx as int);
        }
        if sig.args.len() != entries[found_idx].sig.args.len() {
            proof {
                assert(epre[found_idx as int].sig == entries_view(entries@)[found_idx as int].sig);
                assert(block_fns_scan(gv, bpos0, esn, epre, fpre, ta0, tb0) == Err::<(Seq<ImplFnV>, Seq<EntryV>), SyntaxErrorV>(
                    SyntaxErrorV { kind: ErrorKindV::NoMatchingSignature, span: sv0.name.span },
                ));
            }
            return Err(
                SyntaxError { kind: ErrorKind::NoMatchingSignature, span: sig.fn_name.span },
            );
        }
        let mut ai: usize = 0;
        while ai < sig.args.len()
            invariant
                ai <= sig.args@.len(),
                forall|l: int| 0 <= l < ai ==> (#[trigger] args_view(sig.args@)[l]).name is Some,
            decreases sig.args@.len() - ai,
        {
            if sig.args[ai].arg_name.is_none() {
                proof {
                    assert(args_view(sig.args@)[ai as int].ty.len() > 0);
                    lemma_toks_view(sig.args@[ai as int].arg_type@);
                    assert(first_unnamed(sig@.args.skip(ai as int)) == 0);
                    lemma_first_unnamed_at(sig@.args, ai as int, 0);
                }
                let sp = crate::cursor::span_of_first(&sig.args[ai].arg_type);
                proof {
                    assert(block_fns_scan(gv, bpos0, esn, epre, fpre, ta0, tb0) == Err::<(Seq<ImplFnV>, Seq<EntryV>), SyntaxErrorV>(
                        SyntaxErrorV {
                            kind: ErrorKindV::MissingArgName,
                            span: tok_span(sv0.args[first_unnamed(sv0.args)].ty[0]),
                        },
                    ));
                }
                return Err(SyntaxError { kind: ErrorKind::MissingArgName, span: sp });
            }
            ai += 1;
        }
        proof {
            lemma_first_unnamed_none(sig@.args);
        }

        // Narrow the candidate sets against this implementation.
        let new_pa = narrow_candidates(
            &entries[found_idx].possible_a,
            &sig.args,
            &needle_hash_a,
            type_a0,
        );
        let new_pb = narrow_candidates(
            &entries[found_idx].possible_b,
            &sig.args,
            &needle_hash_b,
            type_b0,
        );
        if new_pa.len() < 1 {
            proof {
                assert(narrowed(epre[found_idx as int].pa, sv0.args, hash_needle("A"@), ta0).len()
                    == 0);
                assert(block_fns_scan(gv, bpos0, esn, epre, fpre, ta0, tb0) == Err::<(Seq<ImplFnV>, Seq<EntryV>), SyntaxErrorV>(
                    SyntaxErrorV { kind: ErrorKindV::CantInferA, span: sv0.name.span },
                ));
            }
            return Err(SyntaxError { kind: ErrorKind::CantInferA, span: sig.fn_name.span });
        }
        if new_pb.len() < 1 {
            proof {
                assert(narrowed(epre[found_idx as int].pb, sv0.args, hash_needle("B"@), tb0).len()
                    == 0);
                assert(block_fns_scan(gv, bpos0, esn, epre, fpre, ta0, tb0) == Err::<(Seq<ImplFnV>, Seq<EntryV>), SyntaxErrorV>(
                    SyntaxErrorV { kind: ErrorKindV::CantInferB, span: sv0.name.span },
                ));
            }
            return Err(SyntaxError { kind: ErrorKind::CantInferB, span: sig.fn_name.span });
        }
        let ghost entries_before = entries@;
        let ghost sigv = sig@;
        let replacement = SigEntry {
            sig: entries[found_idx].sig.clone(),
            possible_a: new_pa,
            possible_b: new_pb,
        };
        entries.set(found_idx, replacement);
        impl_fns.push(ImplFn { sig, body: body_g.toks });
        proof {
            let fidx = found_idx as int;
            let newk = impl0.len() as int;
            assert(entries_view(entries@) =~= entries_view(entries_before).update(
                fidx,
                entries@[fidx]@,
            ));
            assert(impl_fns_view(impl_fns@) =~= impl_fns_view(impl0).push(impl_fns@[newk]@));
            assert(impl_fns_view(impl_fns@)[newk].sig == sigv);
            assert(impl_fns_view(impl_fns@)[newk].sig.name.text == e0[fidx].sig.name.text);
            assert(entries_have_name(e0, impl_fns_view(impl_fns@)[newk].sig.name.text));
            lemma_narrowed_subset(
                entries_view(entries_before)[fidx].pa,
                sigv.args,
                toks_view(needle_hash_a@),
                ta0,
            );
            lemma_narrowed_subset(
                entries_view(entries_before)[fidx].pb,
                sigv.args,
                toks_view(needle_hash_b@),
                tb0,
            );
            assert(entry_indices_wf(entries_view(entries@)[fidx]));
            assert(entries_view(entries@) =~= epre.update(
                fidx,
                EntryV {
                    sig: epre[fidx].sig,
                    pa: narrowed(epre[fidx].pa, sigv.args, hash_needle("A"@), ta0),
                    pb: narrowed(epre[fidx].pb, sigv.args, hash_needle("B"@), tb0),
                },
            ));
            assert(impl_fns_view(impl_fns@) =~= fpre.push(
                ImplFnV { sig: sigv, body: toks_view(impl_fns@[newk].body@) },
            ));
            assert(block_fns_scan(gv, bpos0, esn, epre, fpre, ta0, tb0) == block_fns_scan(
                gv,
                bpos as int,
                esn,
                entries_view(entries@),
                impl_fns_view(impl_fns@),
                ta0,
                tb0,
            ));
        }
    }

    // Every declared function must be implemented.
    let mut j: usize = 0;
    while j < entries.len()
        invariant
            j <= entries@.len(),
            forall|j2: int| #![trigger e0[j2]]
                0 <= j2 < j ==> impls_have_name(
                    impl_fns_view(impl_fns@),
                    e0[j2].sig.name.text,
                ),
        decreases entries@.len() - j,
    {
        let mut k: usize = 0;
        let mut found: bool = false;
        while k < impl_fns.len()
            invariant
                k <= impl_fns@.len(),
                found ==> impls_have_name(impl_fns_view(impl_fns@), e0[j as int].sig.name.text),
                !found ==> forall|k2: int|
                    0 <= k2 < k ==> (#[trigger] impl_fns_view(impl_fns@)[k2]).sig.name.text
                        != entries_view(entries@)[j as int].sig.name.text,
            decreases impl_fns@.len() - k,
        {
            if impl_fns[k].sig.fn_name.text == entries[j].sig.fn_name.text {
                proof {
                    assert(impl_fns_view(impl_fns@).len() == impl_fns@.len());
                    assert(entries_view(entries@)[j as int].sig == e0[j as int].sig);
                    assert(entries_view(entries@)[j as int].sig.name.text
                        == entries@[j as int].sig.fn_name.text@);
                    assert(impl_fns_view(impl_fns@)[k as int].sig.name.text == impl_fns@[
                        k as int
                    ].sig.fn_name.text@);
                    assert(e0[j as int].sig.name.text == impl_fns_view(impl_fns@)[
                        k as int
                    ].sig.name.text);
                    assert(impls_have_name(
                        impl_fns_view(impl_fns@),
                        e0[j as int].sig.name.text,
                    ));
                }
                found = true;
                k = impl_fns.len();
            } else {
                k += 1;
            }
        }
        if !found {
            proof {
                let e1 = entries_view(entries@);
                let fvx = impl_fns_view(impl_fns@);
                assert(e1[j as int].sig == e0[j as int].sig);
                assert(fvx.len() == impl_fns@.len());
                assert(!impls_have_name(fvx, e1[j as int].sig.name.text)) by {
                    if impls_have_name(fvx, e1[j as int].sig.name.text) {
                        let k2 = choose|k2: int|
                            0 <= k2 < fvx.len() && (#[trigger] fvx[k2]).sig.name.text == e1[
                                j as int
                            ].sig.name.text;
                        assert(fvx[k2].sig.name.text != e1[j as int].sig.name.text);
                    }
                }
                assert(block_fns_scan(
                    gv,
                    bpos as int,
                    esn,
                    entries_view(entries@),
                    impl_fns_view(impl_fns@),
                    ta0,
                    tb0,
                ) == Err::<(Seq<ImplFnV>, Seq<EntryV>), SyntaxErrorV>(
                    SyntaxErrorV { kind: ErrorKindV::IncompleteImplementation, span: esn },
                ));
            }
            return Err(SyntaxError { kind: ErrorKind::IncompleteImplementation, span: bspan });
        }
        j += 1;
    }

    proof {
        let e1 = entries_view(entries@);
        assert(e1.len() == entries@.len());
        assert(e0.len() == old(entries)@.len());
        assert forall|i1: int, i2: int|
            0 <= i1 < i2 < e1.len() implies (#[trigger] e1[i1]).sig.name.text != (
            #[trigger] e1[i2]).sig.name.text by {
            assert(e1[i1].sig == e0[i1].sig);
            assert(e1[i2].sig == e0[i2].sig);
        }
        assert(entries@.len() == old(entries)@.len());
        assert(j as int >= entries@.len());
        assert forall|j3: int|
            0 <= j3 < entries_view(entries@).len() implies impls_have_name(
            impl_fns_view(impl_fns@),
            (#[trigger] entries_view(entries@)[j3]).sig.name.text,
        ) by {
            assert(entries_view(entries@)[j3].sig == e0[j3].sig);
            assert(impls_have_name(impl_fns_view(impl_fns@), e0[j3].sig.name.text));
        }
        let fv = impl_fns_view(impl_fns@);
        assert(fv.len() == impl_fns@.len());
        assert forall|j2: int|
            0 <= j2 < e0.len() implies impls_have_name(fv, (#[trigger] e0[j2]).sig.name.text) by {
        }
        assert(block_ok(
            entries_view(old(entries)@),
            entries_view(entries@),
            impl_fns_view(impl_fns@),
        ));
    }
    Ok(impl_fns)
}


/// The outcome of parsing one whole implementation block at `p`: the
/// commutativity flag (an attribute legal only in single-trait mode),
/// the two concrete type lists from the angle-bracketed header, the
/// authored implementations with the narrowed entries, and the position
/// after the block.
pub open spec fn block_outcome(
    tv: Seq<TokV>,
    p: int,
    entries: Seq<EntryV>,
    single: bool,
) -> Result<(bool, Seq<Seq<TokV>>, Seq<Seq<TokV>>, Seq<ImplFnV>, Seq<EntryV>, int), SyntaxErrorV> {
    let attr = if peek_punct(tv, p, '#') {
        if at_end(tv, p + 1) {
            Err(SyntaxErrorV { kind: ErrorKindV::ExpectedSquareBrackets, span: 0 })
        } else if !peek_group(tv, p + 1, Delim::Bracket) {
            Err(
                SyntaxErrorV {
                    kind: ErrorKindV::ExpectedSquareBrackets,
                    span: tok_span(tv[p + 1]),
                },
            )
        } else {
            let ag = tv[p + 1]->Group_toks;
            let aspan = tok_span(tv[p + 1]);
            if at_end(ag, 0) {
                Err(SyntaxErrorV { kind: ErrorKindV::UnexpectedEnd, span: aspan })
            } else if !peek_keyword(ag, 0, Kw::Commutative) {
                Err(
                    SyntaxErrorV {
                        kind: ErrorKindV::ExpectedKeyword(Kw::Commutative),
                        span: tok_span(ag[0]),
                    },
                )
            } else if !single {
                Err(SyntaxErrorV { kind: ErrorKindV::CommutativeTraitMismatch, span: aspan })
            } else {
                Ok((true, p + 2))
            }
        }
    } else {
        Ok((false, p))
    };
    match attr {
        Err(e) => Err(e),
        Ok((comm, p2)) => if at_end(tv, p2) {
            Err(SyntaxErrorV { kind: ErrorKindV::UnexpectedEnd, span: 0 })
        } else if !peek_keyword(tv, p2, Kw::ImplKw) {
            Err(
                SyntaxErrorV {
                    kind: ErrorKindV::ExpectedKeyword(Kw::ImplKw),
                    span: tok_span(tv[p2]),
                },
            )
        } else if at_end(tv, p2 + 1) {
            Err(SyntaxErrorV { kind: ErrorKindV::UnexpectedEnd, span: 0 })
        } else if !peek_keyword(tv, p2 + 1, Kw::ForKw) {
            Err(
                SyntaxErrorV {
                    kind: ErrorKindV::ExpectedKeyword(Kw::ForKw),
                    span: tok_span(tv[p2 + 1]),
                },
            )
        } else {
            let p4 = p2 + 2;
            if at_end(tv, p4) {
                Err(SyntaxErrorV { kind: ErrorKindV::UnexpectedEnd, span: 0 })
            } else if !peek_punct(tv, p4, '<') {
                Err(
                    SyntaxErrorV {
                        kind: ErrorKindV::ExpectedTypePairInAngleBrackets,
                        span: tok_span(tv[p4]),
                    },
                )
            } else {
                match crate::cursor::angle_close(tv, p4 + 1, 1) {
                    None => Err(SyntaxErrorV { kind: ErrorKindV::UnexpectedEnd, span: 0 }),
                    Some(c) => {
                        let pg = tv.subrange(p4 + 1, c);
                        let cspan = tok_span(tv[c]);
                        match tol_outcome(pg, 0, cspan) {
                            Err(e) => Err(e),
                            Ok((tal, q1)) => if !peek_punct(pg, q1, ',') {
                                Err(
                                    SyntaxErrorV {
                                        kind: ErrorKindV::ExpectedTypeOrListB,
                                        span: cspan,
                                    },
                                )
                            } else {
                                match tol_outcome(pg, q1 + 1, cspan) {
                                    Err(e) => Err(e),
                                    Ok((tbl, q3)) => {
                                        let p5 = c + 1;
                                        if at_end(tv, p5) {
                                            Err(
                                                SyntaxErrorV {
                                                    kind: ErrorKindV::ExpectedCurlyBracesForFnImpls,
                                                    span: 0,
                                                },
                                            )
                                        } else if !peek_group(tv, p5, Delim::Brace) {
                                            Err(
                                                SyntaxErrorV {
                                                    kind: ErrorKindV::ExpectedCurlyBracesForFnImpls,
                                                    span: tok_span(tv[p5]),
                                                },
                                            )
                                        } else {
                                            let bg = tv[p5]->Group_toks;
                                            let bspan = tok_span(tv[p5]);
                                            match block_fns_scan(
                                                bg,
                                                0,
                                                bspan,
                                                entries,
                                                Seq::empty(),
                                                tal[0],
                                                tbl[0],
                                            ) {
                                                Err(e) => Err(e),
                                                Ok((fvo, e1o)) => Ok(
                                                    (comm, tal, tbl, fvo, e1o, p5 + 1),
                                                ),
                                            }
                                        }
                                    },
                                }
                            },
                        }
                    },
                }
            }
        },
    }
}

/// Parses one implementation block and narrows the candidate argument
/// positions of every declared function against it.
///
/// On success: the block carries the commutativity flag (legal only in
/// single-trait mode), the two concrete type lists, and one authored
/// implementation per declared function — exactly one, under the same
/// name, with the same number of arguments, all named (completeness);
/// each entry's candidate sets shrink to exactly those positions its
/// implementation still supports, and neither set empties.
#[verifier::loop_isolation(false)]
#[verifier::rlimit(80)]
pub fn parse_impl_block(
    toks: &Vec<Tok>,
    pos: &mut usize,
    entries: &mut Vec<SigEntry>,
    single_trait: bool,
) -> (r: Result<ImplBlock, SyntaxError>)
    requires
        *old(pos) <= toks@.len(),
        forall|i: int|
            0 <= i < old(entries)@.len() ==> entry_indices_wf(
                #[trigger] entries_view(old(entries)@)[i],
            ),
        forall|i: int|
            0 <= i < old(entries)@.len() ==> (#[trigger] entries_view(old(entries)@)[i]).pa.len()
                >= 1 && entries_view(old(entries)@)[i].pb.len() >= 1,
        entry_names_unique(entries_view(old(entries)@)),
    ensures
        ({
            let out = block_outcome(
                toks_view(toks@),
                *old(pos) as int,
                entries_view(old(entries)@),
                single_trait,
            );
            match out {
                Ok(o) => r matches Ok(b) && b.is_commutative == o.0 && types_view(
                    b.type_a_list@,
                ) == o.1 && types_view(b.type_b_list@) == o.2 && impl_fns_view(b.impl_fns@) == o.3
                    && entries_view(final(entries)@) == o.4 && *final(pos) == o.5,
                Err(e0) => r matches Err(e) && e@ == e0,
            }
        }),
        r is Ok ==> ({
            let b = r->Ok_0;
            let ta = types_view(b.type_a_list@);
            let tb = types_view(b.type_b_list@);
            &&& (b.is_commutative ==> single_trait)
            &&& ta.len() >= 1
            &&& tb.len() >= 1
            &&& block_ok(
                entries_view(old(entries)@),
                entries_view(final(entries)@),
                impl_fns_view(b.impl_fns@),
            )
            &&& *final(pos) <= toks@.len()
        }),
{
    proof {
        lemma_toks_view(toks@);
    }
    let ghost tv = toks_view(toks@);
    let ghost e0 = entries_view(entries@);

    // The commutativity attribute, when present.
    let is_commutative = if if_punct(toks, *pos, '#') {
        match require_punct(toks, pos, '#', 0) {
            Ok(_) => {},
            Err(e) => {
                return Err(e);
            },
        }
        let attrib = match require_group(
            toks,
            pos,
            Delim::Bracket,
            0,
            ErrorKind::ExpectedSquareBrackets,
        ) {
            Ok(g) => g,
            Err(e) => {
                return Err(e);
            },
        };
        let mut apos: usize = 0;
        match require_keyword(&attrib.toks, &mut apos, Kw::Commutative, attrib.span) {
            Ok(_) => {},
            Err(e) => {
                return Err(e);
            },
        }
        if !single_trait {
            return Err(
                SyntaxError { kind: ErrorKind::CommutativeTraitMismatch, span: attrib.span },
            );
        }
        true
    } else {
        false
    };

    // The block header and the two concrete type lists.
    match require_keyword(toks, pos, Kw::ImplKw, 0) {
        Ok(_) => {},
        Err(e) => {
            return Err(e);
        },
    }
    match require_keyword(toks, pos, Kw::ForKw, 0) {
        Ok(_) => {},
        Err(e) => {
            return Err(e);
        },
    }
    let pair_group = match require_angle_group(
        toks,
        pos,
        0,
        ErrorKind::ExpectedTypePairInAngleBrackets,
    ) {
        Ok(g) => g,
        Err(e) => {
            return Err(e);
        },
    };
    proof {
        lemma_toks_view(pair_group.toks@);
    }
    let mut ppos: usize = 0;
    let ghost ppos1 = 0int;
    let type_a_list = match require_type_or_type_list(
        &pair_group.toks,
        &mut ppos,
        pair_group.close_span,
    ) {
        Ok(v) => v,
        Err(e) => {
            return Err(e);
        },
    };
    if !if_punct(&pair_group.toks, ppos, ',') {
        return Err(
            SyntaxError { kind: ErrorKind::ExpectedTypeOrListB, span: pair_group.close_span },
        );
    }
    match require_punct(&pair_group.toks, &mut ppos, ',', pair_group.close_span) {
        Ok(_) => {},
        Err(e) => {
            return Err(e);
        },
    }
    let ghost ppos2 = ppos as int;
    let type_b_list = match require_type_or_type_list(
        &pair_group.toks,
        &mut ppos,
        pair_group.close_span,
    ) {
        Ok(v) => v,
        Err(e) => {
            return Err(e);
        },
    };
    proof {
        lemma_tol_nonempty(toks_view(pair_group.toks@), ppos1, pair_group.close_span as nat);
        lemma_tol_nonempty(toks_view(pair_group.toks@), ppos2, pair_group.close_span as nat);
    }
    let ghost ta0 = types_view(type_a_list@)[0];
    let ghost tb0 = types_view(type_b_list@)[0];

    // The block body: one implementation per declared function.
    let fn_group = match require_group(
        toks,
        pos,
        Delim::Brace,
        0,
        ErrorKind::ExpectedCurlyBracesForFnImpls,
    ) {
        Ok(g) => g,
        Err(e) => {
            return Err(e);
        },
    };
    let impl_fns = match parse_block_fns(
        &fn_group.toks,
        fn_group.span,
        entries,
        &type_a_list[0],
        &type_b_list[0],
    ) {
        Ok(v) => v,
        Err(e) => {
            return Err(e);
        },
    };
    proof {
        assert(types_view(type_a_list@)[0] == toks_view(type_a_list@[0]@));
        assert(types_view(type_b_list@)[0] == toks_view(type_b_list@[0]@));
    }
    Ok(ImplBlock { is_commutative, type_a_list, type_b_list, impl_fns })
}

/// The first index holding the value, or `-1` when it is absent.
pub open spec fn find_val(s: Seq<int>, v: int) -> int
    decreases s.len(),
{
    if s.len() == 0 {
        -1
    } else if s[0] == v {
        0
    } else {
        let r = find_val(s.drop_first(), v);
        if r < 0 {
            -1
        } else {
            r + 1
        }
    }
}

/// The sequence with the first occurrence of the value taken out, when
/// one is there.
pub open spec fn remove_first_val(s: Seq<int>, v: int) -> Seq<int> {
    if find_val(s, v) < 0 {
        s
    } else {
        s.remove(find_val(s, v))
    }
}

/// `find_val` finds an in-range index holding the value.
pub proof fn lemma_find_val(s: Seq<int>, v: int)
    ensures
        find_val(s, v) >= 0 ==> 0 <= find_val(s, v) < s.len() && s[find_val(s, v)] == v,
        find_val(s, v) < 0 ==> forall|i: int| 0 <= i < s.len() ==> s[i] != v,
    decreases s.len(),
{
    if s.len() > 0 && s[0] != v {
        lemma_find_val(s.drop_first(), v);
        if find_val(s, v) < 0 {
            assert forall|i: int| 0 <= i < s.len() implies s[i] != v by {
                if i > 0 {
                    assert(s.drop_first()[i - 1] == s[i]);
                }
            }
        }
    }
}

/// Removing a value keeps every element an element of the original.
pub proof fn lemma_remove_first_subset(s: Seq<int>, v: int)
    ensures
        forall|i: int|
            0 <= i < remove_first_val(s, v).len() ==> s.contains(
                #[trigger] remove_first_val(s, v)[i],
            ),
{
    let r = remove_first_val(s, v);
    let f = find_val(s, v);
    lemma_find_val(s, v);
    assert forall|i: int| 0 <= i < r.len() implies s.contains(#[trigger] r[i]) by {
        if f < 0 {
            assert(s[i] == r[i]);
        } else if i < f {
            assert(s[i] == r[i]);
        } else {
            assert(s[i + 1] == r[i]);
        }
    }
}

/// The collapse of one declared function's candidate sets to a single
/// argument index per role.  In single-trait mode the first A-candidate
/// is withheld from the B set and then the first remaining B-candidate
/// from the A set, since one argument slot cannot play both roles.
/// Exactly one index per role must remain: none is an inference error,
/// several are an ambiguity error, and a shared index cannot serve.
pub open spec fn collapse_one(pa: Seq<int>, pb: Seq<int>, single: bool, span: nat) -> Result<
    (int, int),
    SyntaxErrorV,
> {
    if pa.len() == 0 || pb.len() == 0 {
        Err(SyntaxErrorV { kind: ErrorKindV::CantInferBoth, span })
    } else {
    let pb1 = if single {
        remove_first_val(pb, pa[0])
    } else {
        pb
    };
    if pb1.len() == 0 {
        Err(SyntaxErrorV { kind: ErrorKindV::CantInferBoth, span })
    } else {
        let pa1 = if single {
            remove_first_val(pa, pb1[0])
        } else {
            pa
        };
        if pa1.len() < 1 {
            Err(SyntaxErrorV { kind: ErrorKindV::CantInferBoth, span })
        } else if pa1.len() > 1 {
            Err(SyntaxErrorV { kind: ErrorKindV::AmbiguousA, span })
        } else if pb1.len() > 1 {
            Err(SyntaxErrorV { kind: ErrorKindV::AmbiguousB, span })
        } else if pa1[0] == pb1[0] {
            Err(SyntaxErrorV { kind: ErrorKindV::CantInferBoth, span })
        } else {
            Ok((pa1[0], pb1[0]))
        }
    }
    }
}

/// Takes the first occurrence of a value out of a vector, when present.
#[verifier::loop_isolation(false)]
pub fn remove_first(v: &Vec<usize>, x: usize) -> (r: Vec<usize>)
    ensures
        r@.map_values(|u: usize| u as int) == remove_first_val(
            v@.map_values(|u: usize| u as int),
            x as int,
        ),
{
    let ghost sv = v@.map_values(|u: usize| u as int);
    let mut i: usize = 0;
    let mut pos_found: Option<usize> = Option::None;
    while i < v.len()
        invariant
            i <= v@.len(),
            pos_found is None ==> forall|j: int| 0 <= j < i ==> sv[j] != x as int,
            pos_found matches Some(p) ==> p < v@.len() && sv[p as int] == x as int && (forall|
                j: int,
            |
                0 <= j < p ==> sv[j] != x as int) && i as int == v@.len(),
        decreases v@.len() - i,
    {
        if v[i] == x {
            pos_found = Option::Some(i);
            proof {
                assert(sv[i as int] == x as int);
            }
            i = v.len();
        } else {
            i += 1;
        }
    }
    match pos_found {
        Option::None => {
            proof {
                lemma_find_val(sv, x as int);
                if find_val(sv, x as int) >= 0 {
                    assert(false);
                }
            }
            let mut out: Vec<usize> = Vec::new();
            let mut k: usize = 0;
            while k < v.len()
                invariant
                    k <= v@.len(),
                    out@.len() == k as nat,
                    forall|j: int| 0 <= j < k ==> out@[j] == v@[j],
                decreases v@.len() - k,
            {
                out.push(v[k]);
                k += 1;
            }
            proof {
                assert(out@.map_values(|u: usize| u as int) =~= sv);
            }
            out
        },
        Option::Some(p) => {
            proof {
                assert(find_val(sv, x as int) == p as int) by {
                    lemma_find_val_prefix(sv, x as int, p as int);
                }
            }
            let mut out: Vec<usize> = Vec::new();
            let mut k: usize = 0;
            while k < v.len()
                invariant
                    k <= v@.len(),
                    p < v@.len(),
                    k <= p ==> out@.len() == k as nat,
                    k > p ==> out@.len() == k - 1,
                    forall|j: int| 0 <= j < k && j < p ==> out@[j] == v@[j],
                    forall|j: int| p < j < k ==> out@[j - 1] == v@[j],
                decreases v@.len() - k,
            {
                if k != p {
                    out.push(v[k]);
                }
                k += 1;
            }
            proof {
                assert(out@.map_values(|u: usize| u as int) =~= sv.remove(p as int));
            }
            out
        },
    }
}

/// A prefix free of the value puts `find_val` exactly at the first hit.
proof fn lemma_find_val_prefix(s: Seq<int>, v: int, p: int)
    requires
        0 <= p < s.len(),
        s[p] == v,
        forall|j: int| 0 <= j < p ==> s[j] != v,
    ensures
        find_val(s, v) == p,
    decreases p,
{
    if p > 0 {
        assert(s.drop_first()[p - 1] == s[p]);
        assert(forall|j: int| 0 <= j < p - 1 ==> s.drop_first()[j] == s[j + 1]);
        lemma_find_val_prefix(s.drop_first(), v, p - 1);
    }
}

/// The collapse of every entry in order: the settled index pair per
/// declared function, or the first entry's collapse error.
pub open spec fn collapse_all(e: Seq<EntryV>, single: bool) -> Result<
    Seq<(int, int)>,
    SyntaxErrorV,
>
    decreases e.len(),
{
    if e.len() == 0 {
        Ok(Seq::empty())
    } else {
        match collapse_one(e[0].pa, e[0].pb, single, e[0].sig.name.span) {
            Err(err) => Err(err),
            Ok(p) => match collapse_all(e.drop_first(), single) {
                Err(err) => Err(err),
                Ok(rest) => Ok(seq![p] + rest),
            },
        }
    }
}

/// When every entry collapses, `collapse_all` lists the settled pairs.
pub proof fn lemma_collapse_all_ok(e: Seq<EntryV>, single: bool)
    requires
        forall|i: int|
            0 <= i < e.len() ==> collapse_one(
                (#[trigger] e[i]).pa,
                e[i].pb,
                single,
                e[i].sig.name.span,
            ) is Ok,
    ensures
        collapse_all(e, single) matches Ok(idxs) && idxs.len() == e.len() && forall|i: int|
            0 <= i < e.len() ==> collapse_one(
                (#[trigger] e[i]).pa,
                e[i].pb,
                single,
                e[i].sig.name.span,
            ) == Ok::<(int, int), SyntaxErrorV>(idxs[i]),
    decreases e.len(),
{
    if e.len() > 0 {
        let t = e.drop_first();
        assert(forall|i: int| 0 <= i < t.len() ==> #[trigger] t[i] == e[i + 1]);
        assert forall|i: int|
            0 <= i < t.len() implies collapse_one(
            (#[trigger] t[i]).pa,
            t[i].pb,
            single,
            t[i].sig.name.span,
        ) is Ok by {
            assert(t[i] == e[i + 1]);
            assert(collapse_one(e[i + 1].pa, e[i + 1].pb, single, e[i + 1].sig.name.span) is Ok);
        }
        lemma_collapse_all_ok(t, single);
        assert(collapse_one(e[0].pa, e[0].pb, single, e[0].sig.name.span) is Ok);
        let idxs = collapse_all(e, single)->Ok_0;
        let rest = collapse_all(t, single)->Ok_0;
        assert(forall|i: int| 1 <= i < e.len() ==> #[trigger] idxs[i] == rest[i - 1]);
        assert forall|i: int|
            0 <= i < e.len() implies collapse_one(
            (#[trigger] e[i]).pa,
            e[i].pb,
            single,
            e[i].sig.name.span,
        ) == Ok::<(int, int), SyntaxErrorV>(idxs[i]) by {
            if i > 0 {
                assert(t[i - 1] == e[i]);
                assert(collapse_one(t[i - 1].pa, t[i - 1].pb, single, t[i - 1].sig.name.span)
                    == Ok::<(int, int), SyntaxErrorV>(rest[i - 1]));
                assert(idxs[i] == rest[i - 1]);
            }
        }
    }
}

/// The first entry that does not collapse fixes `collapse_all`'s error.
pub proof fn lemma_collapse_all_err(e: Seq<EntryV>, single: bool, i: int, err: SyntaxErrorV)
    requires
        0 <= i < e.len(),
        forall|j: int|
            0 <= j < i ==> collapse_one(
                (#[trigger] e[j]).pa,
                e[j].pb,
                single,
                e[j].sig.name.span,
            ) is Ok,
        collapse_one(e[i].pa, e[i].pb, single, e[i].sig.name.span) == Err::<
            (int, int),
            SyntaxErrorV,
        >(err),
    ensures
        collapse_all(e, single) == Err::<Seq<(int, int)>, SyntaxErrorV>(err),
    decreases e.len(),
{
    if i > 0 {
        let t = e.drop_first();
        assert(forall|j: int| 0 <= j < t.len() ==> #[trigger] t[j] == e[j + 1]);
        lemma_collapse_all_err(t, single, i - 1, err);
    }
}

/// Collapses every declared function's candidate sets to one argument
/// index per role; the first function with no resolution or an
/// ambiguous one aborts the compilation.
#[verifier::loop_isolation(false)]
pub fn collapse_entries(entries: Vec<SigEntry>, single_trait: bool) -> (r: Result<
    Vec<FnEntry>,
    SyntaxError,
>)
    ensures
        ({
            let e = entries_view(entries@);
            match collapse_all(e, single_trait) {
                Ok(idxs) => r matches Ok(v) && v@.len() == e.len() && (forall|i: int|
                    0 <= i < e.len() ==> (#[trigger] v@[i])@.sig == e[i].sig && (v@[i]@.a_idx,
                    v@[i]@.b_idx) == idxs[i]) && (forall|i: int|
                    0 <= i < v@.len() ==> (#[trigger] v@[i])@.a_idx != v@[i]@.b_idx),
                Err(e0) => r matches Err(err) && err@ == e0,
            }
        }),
{
    let ghost ev = entries_view(entries@);
    let mut out: Vec<FnEntry> = Vec::new();
    let mut i: usize = 0;
    let n = entries.len();
    let mut entries = entries;
    while i < n
        invariant
            i <= n,
            n == entries@.len(),
            entries_view(entries@) == ev,
            out@.len() == i as nat,
            forall|j: int|
                0 <= j < i ==> (#[trigger] out@[j])@.sig == ev[j].sig && collapse_one(
                    ev[j].pa,
                    ev[j].pb,
                    single_trait,
                    ev[j].sig.name.span,
                ) == Ok::<(int, int), SyntaxErrorV>((out@[j]@.a_idx, out@[j]@.b_idx)),
            forall|j: int| 0 <= j < i ==> (#[trigger] out@[j])@.a_idx != out@[j]@.b_idx,
        decreases n - i,
    {
        let ghost pa0 = ev[i as int].pa;
        let ghost pb0 = ev[i as int].pb;
        let name_span = entries[i].sig.fn_name.span;
        let pa = &entries[i].possible_a;
        let pb = &entries[i].possible_b;
        if pa.len() == 0 || pb.len() == 0 {
            // A candidate set can empty only through an upstream fault;
            // surface it as an inference failure rather than indexing it.
            let err = SyntaxError { kind: ErrorKind::CantInferBoth, span: name_span };
            proof {
                assert forall|j: int|
                    0 <= j < i implies collapse_one(
                    (#[trigger] ev[j]).pa,
                    ev[j].pb,
                    single_trait,
                    ev[j].sig.name.span,
                ) is Ok by {
                    assert(collapse_one(ev[j].pa, ev[j].pb, single_trait, ev[j].sig.name.span)
                        == Ok::<(int, int), SyntaxErrorV>((out@[j]@.a_idx, out@[j]@.b_idx)));
                }
                lemma_collapse_all_err(ev, single_trait, i as int, err@);
            }
            return Err(err);
        }
        let pb1: Vec<usize> = if single_trait {
            remove_first(pb, pa[0])
        } else {
            let mut c: Vec<usize> = Vec::new();
            let mut k: usize = 0;
            while k < pb.len()
                invariant
                    k <= pb@.len(),
                    c@.len() == k as nat,
                    forall|j: int| 0 <= j < k ==> c@[j] == pb@[j],
                decreases pb@.len() - k,
            {
                c.push(pb[k]);
                k += 1;
            }
            proof {
                assert(c@.map_values(|u: usize| u as int) =~= pb0);
            }
            c
        };
        if pb1.len() == 0 {
            let err = SyntaxError { kind: ErrorKind::CantInferBoth, span: name_span };
            proof {
                assert forall|j: int|
                    0 <= j < i implies collapse_one(
                    (#[trigger] ev[j]).pa,
                    ev[j].pb,
                    single_trait,
                    ev[j].sig.name.span,
                ) is Ok by {
                    assert(collapse_one(ev[j].pa, ev[j].pb, single_trait, ev[j].sig.name.span)
                        == Ok::<(int, int), SyntaxErrorV>((out@[j]@.a_idx, out@[j]@.b_idx)));
                }
                lemma_collapse_all_err(ev, single_trait, i as int, err@);
            }
            return Err(err);
        }
        let pa1: Vec<usize> = if single_trait {
            remove_first(pa, pb1[0])
        } else {
            let mut c: Vec<usize> = Vec::new();
            let mut k: usize = 0;
            while k < pa.len()
                invariant
                    k <= pa@.len(),
                    c@.len() == k as nat,
                    forall|j: int| 0 <= j < k ==> c@[j] == pa@[j],
                decreases pa@.len() - k,
            {
                c.push(pa[k]);
                k += 1;
            }
            proof {
                assert(c@.map_values(|u: usize| u as int) =~= pa0);
            }
            c
        };
        if pa1.len() < 1 {
            let err = SyntaxError { kind: ErrorKind::CantInferBoth, span: name_span };
            proof {
                assert forall|j: int|
                    0 <= j < i implies collapse_one(
                    (#[trigger] ev[j]).pa,
                    ev[j].pb,
                    single_trait,
                    ev[j].sig.name.span,
                ) is Ok by {
                    assert(collapse_one(ev[j].pa, ev[j].pb, single_trait, ev[j].sig.name.span)
                        == Ok::<(int, int), SyntaxErrorV>((out@[j]@.a_idx, out@[j]@.b_idx)));
                }
                lemma_collapse_all_err(ev, single_trait, i as int, err@);
            }
            return Err(err);
        }
        if pa1.len() > 1 {
            let err = SyntaxError { kind: ErrorKind::AmbiguousA, span: name_span };
            proof {
                assert forall|j: int|
                    0 <= j < i implies collapse_one(
                    (#[trigger] ev[j]).pa,
                    ev[j].pb,
                    single_trait,
                    ev[j].sig.name.span,
                ) is Ok by {
                    assert(collapse_one(ev[j].pa, ev[j].pb, single_trait, ev[j].sig.name.span)
                        == Ok::<(int, int), SyntaxErrorV>((out@[j]@.a_idx, out@[j]@.b_idx)));
                }
                lemma_collapse_all_err(ev, single_trait, i as int, err@);
            }
            return Err(err);
        }
        if pb1.len() > 1 {
            let err = SyntaxError { kind: ErrorKind::AmbiguousB, span: name_span };
            proof {
                assert forall|j: int|
                    0 <= j < i implies collapse_one(
                    (#[trigger] ev[j]).pa,
                    ev[j].pb,
                    single_trait,
                    ev[j].sig.name.span,
                ) is Ok by {
                    assert(collapse_one(ev[j].pa, ev[j].pb, single_trait, ev[j].sig.name.span)
                        == Ok::<(int, int), SyntaxErrorV>((out@[j]@.a_idx, out@[j]@.b_idx)));
                }
                lemma_collapse_all_err(ev, single_trait, i as int, err@);
            }
            return Err(err);
        }
        if pa1[0] == pb1[0] {
            let err = SyntaxError { kind: ErrorKind::CantInferBoth, span: name_span };
            proof {
                assert forall|j: int|
                    0 <= j < i implies collapse_one(
                    (#[trigger] ev[j]).pa,
                    ev[j].pb,
                    single_trait,
                    ev[j].sig.name.span,
                ) is Ok by {
                    assert(collapse_one(ev[j].pa, ev[j].pb, single_trait, ev[j].sig.name.span)
                        == Ok::<(int, int), SyntaxErrorV>((out@[j]@.a_idx, out@[j]@.b_idx)));
                }
                lemma_collapse_all_err(ev, single_trait, i as int, err@);
            }
            return Err(err);
        }
        let a_idx = pa1[0];
        let b_idx = pb1[0];
        proof {
            let pb1v = if single_trait {
                remove_first_val(pb0, pa0[0])
            } else {
                pb0
            };
            let pa1v = if single_trait {
                remove_first_val(pa0, pb1v[0])
            } else {
                pa0
            };
            assert(pa1v == pa1@.map_values(|u: usize| u as int));
            assert(pb1v == pb1@.map_values(|u: usize| u as int));
            assert(pa1v[0] == a_idx as int);
            assert(pb1v[0] == b_idx as int);
            assert(collapse_one(pa0, pb0, single_trait, ev[i as int].sig.name.span)
                == Ok::<(int, int), SyntaxErrorV>((a_idx as int, b_idx as int)));
        }
        let ghost out0 = out@;
        let sig_copy = entries[i].sig.clone();
        out.push(FnEntry { sig: sig_copy, a_idx, b_idx });
        proof {
            assert(out@[out0.len() as int]@.sig == ev[i as int].sig);
        }
        i += 1;
    }
    proof {
        assert forall|j: int|
            0 <= j < ev.len() implies collapse_one(
            (#[trigger] ev[j]).pa,
            ev[j].pb,
            single_trait,
            ev[j].sig.name.span,
        ) is Ok by {
            assert(collapse_one(ev[j].pa, ev[j].pb, single_trait, ev[j].sig.name.span) == Ok::<
                (int, int),
                SyntaxErrorV,
            >((out@[j]@.a_idx, out@[j]@.b_idx)));
        }
        lemma_collapse_all_ok(ev, single_trait);
    }
    Ok(out)
}

/// Relates `first_unnamed` on a suffix to `first_unnamed` on the whole.
proof fn lemma_first_unnamed_at(args: Seq<ArgV>, i: int, r: int)
    requires
        0 <= i <= args.len(),
        forall|j: int| 0 <= j < i ==> !((#[trigger] args[j]).name is None),
        first_unnamed(args.skip(i)) == r,
        r >= 0,
    ensures
        first_unnamed(args) == i + r,
    decreases i,
{
    if i > 0 {
        assert(args.skip(i - 1).drop_first() =~= args.skip(i));
        assert(args.skip(i - 1)[0] == args[i - 1]);
        assert(first_unnamed(args.skip(i - 1)) == r + 1);
        lemma_first_unnamed_at(args, i - 1, r + 1);
    } else {
        assert(args.skip(0) =~= args);
    }
}

/// When every argument is named, `first_unnamed` answers `-1`.
proof fn lemma_first_unnamed_none(args: Seq<ArgV>)
    requires
        forall|j: int| 0 <= j < args.len() ==> !((#[trigger] args[j]).name is None),
    ensures
        first_unnamed(args) == -1,
    decreases args.len(),
{
    if args.len() > 0 {
        assert forall|j: int| 0 <= j < args.drop_first().len() implies !((#[trigger] args.drop_first()[j]).name
            is None) by {
            assert(args.drop_first()[j] == args[j + 1]);
        }
        lemma_first_unnamed_none(args.drop_first());
    }
}

} // verus!
// The cross-product expansion and the assembly of the resolved model.

use crate::signature::clone_args;

verus! {

/// The first substitution failure among an implementation's argument
/// types, in order.
pub open spec fn arg_subst_err(args: Seq<ArgV>, ta: Seq<TokV>, tb: Seq<TokV>) -> Option<
    SyntaxErrorV,
>
    decreases args.len(),
{
    if args.len() == 0 {
        None
    } else {
        match crate::subst::subst_toks(args[0].ty, ta, tb, false) {
            Err(e) => Some(e),
            Ok(_) => arg_subst_err(args.drop_first(), ta, tb),
        }
    }
}

/// The first substitution failure in one authored implementation: its
/// argument types in order, then its body.
pub open spec fn fn_subst_err(g: ImplFnV, ta: Seq<TokV>, tb: Seq<TokV>) -> Option<SyntaxErrorV> {
    match arg_subst_err(g.sig.args, ta, tb) {
        Some(e) => Some(e),
        None => match crate::subst::subst_toks(g.body, ta, tb, false) {
            Err(e) => Some(e),
            Ok(_) => None,
        },
    }
}

/// The first substitution failure across a block's implementations, in
/// order.
pub open spec fn pair_subst_err(fv: Seq<ImplFnV>, ta: Seq<TokV>, tb: Seq<TokV>) -> Option<
    SyntaxErrorV,
>
    decreases fv.len(),
{
    if fv.len() == 0 {
        None
    } else {
        match fn_subst_err(fv[0], ta, tb) {
            Some(e) => Some(e),
            None => pair_subst_err(fv.drop_first(), ta, tb),
        }
    }
}

/// An argument prefix free of failures puts the first failure at `l`.
pub proof fn lemma_arg_subst_err_at(
    args: Seq<ArgV>,
    ta: Seq<TokV>,
    tb: Seq<TokV>,
    l: int,
    e: SyntaxErrorV,
)
    requires
        0 <= l < args.len(),
        forall|j: int|
            0 <= j < l ==> crate::subst::subst_toks((#[trigger] args[j]).ty, ta, tb, false) is Ok,
        crate::subst::subst_toks(args[l].ty, ta, tb, false) == Err::<
            (Seq<TokV>, bool),
            SyntaxErrorV,
        >(e),
    ensures
        arg_subst_err(args, ta, tb) == Some(e),
    decreases l,
{
    if l > 0 {
        let t = args.drop_first();
        assert(forall|j: int| 0 <= j < t.len() ==> #[trigger] t[j] == args[j + 1]);
        lemma_arg_subst_err_at(t, ta, tb, l - 1, e);
    }
}

/// With no failing argument there is no argument failure.
pub proof fn lemma_arg_subst_err_none(args: Seq<ArgV>, ta: Seq<TokV>, tb: Seq<TokV>)
    requires
        forall|j: int|
            0 <= j < args.len() ==> crate::subst::subst_toks(
                (#[trigger] args[j]).ty,
                ta,
                tb,
                false,
            ) is Ok,
    ensures
        arg_subst_err(args, ta, tb) is None,
    decreases args.len(),
{
    if args.len() > 0 {
        let t = args.drop_first();
        assert(forall|j: int| 0 <= j < t.len() ==> #[trigger] t[j] == args[j + 1]);
        lemma_arg_subst_err_none(t, ta, tb);
    }
}

/// An implementation prefix free of failures puts the first failure at
/// `k`.
pub proof fn lemma_pair_subst_err_at(
    fv: Seq<ImplFnV>,
    ta: Seq<TokV>,
    tb: Seq<TokV>,
    k: int,
    e: SyntaxErrorV,
)
    requires
        0 <= k < fv.len(),
        forall|j: int| 0 <= j < k ==> fn_subst_err(#[trigger] fv[j], ta, tb) is None,
        fn_subst_err(fv[k], ta, tb) == Some(e),
    ensures
        pair_subst_err(fv, ta, tb) == Some(e),
    decreases k,
{
    if k > 0 {
        let t = fv.drop_first();
        assert(forall|j: int| 0 <= j < t.len() ==> #[trigger] t[j] == fv[j + 1]);
        lemma_pair_subst_err_at(t, ta, tb, k - 1, e);
    }
}

/// With no failing implementation there is no failure.
pub proof fn lemma_pair_subst_err_none(fv: Seq<ImplFnV>, ta: Seq<TokV>, tb: Seq<TokV>)
    requires
        forall|j: int| 0 <= j < fv.len() ==> fn_subst_err(#[trigger] fv[j], ta, tb) is None,
    ensures
        pair_subst_err(fv, ta, tb) is None,
    decreases fv.len(),
{
    if fv.len() > 0 {
        let t = fv.drop_first();
        assert(forall|j: int| 0 <= j < t.len() ==> #[trigger] t[j] == fv[j + 1]);
        lemma_pair_subst_err_none(t, ta, tb);
    }
}

/// What one resolved pair holds relative to the authored block: the
/// keys are the snake-case forms of the two concrete types' token
/// strings, and each authored function reappears under its own name and
/// argument count, all arguments named, with its body rewritten by
/// substituting the A-type for `#A` and the B-type for `#B` — for a
/// mirrored pair the two types arrive swapped, so the substitution is
/// re-run with the roles exchanged, not copied.
pub open spec fn pair_from(p: PairV, fv: Seq<ImplFnV>, ta: Seq<TokV>, tb: Seq<TokV>) -> bool {
    &&& p.a_key == snake_case_of(crate::token::toks_text(ta))
    &&& p.b_key == snake_case_of(crate::token::toks_text(tb))
    &&& p.fns.len() == fv.len()
    &&& forall|k: int|
        0 <= k < fv.len() ==> {
            &&& (#[trigger] p.fns[k]).sig.name == fv[k].sig.name
            &&& p.fns[k].sig.args.len() == fv[k].sig.args.len()
            &&& (forall|l: int|
                0 <= l < p.fns[k].sig.args.len() ==> (#[trigger] p.fns[k].sig.args[l]).name
                    == fv[k].sig.args[l].name)
            &&& (crate::subst::subst_toks(fv[k].body, ta, tb, false) matches Ok(o) && p.fns[k].body
                == o.0)
        }
}

/// Builds one resolved pair: substitutes the concrete types into every
/// authored signature's argument types and body, and keys the pair by
/// the snake-case forms of the types' token strings.
#[verifier::loop_isolation(false)]
pub fn expand_pair(fns: &Vec<ImplFn>, ta: &Vec<Tok>, tb: &Vec<Tok>) -> (r: Result<
    ResolvedPair,
    SyntaxError,
>)
    ensures
        ({
            let fv = impl_fns_view(fns@);
            let tav = toks_view(ta@);
            let tbv = toks_view(tb@);
            match pair_subst_err(fv, tav, tbv) {
                None => r matches Ok(p) && pair_from(p@, fv, tav, tbv),
                Some(e0) => r matches Err(e) && e@ == e0,
            }
        }),
{
    let ghost fv = impl_fns_view(fns@);
    let ghost tav = toks_view(ta@);
    let ghost tbv = toks_view(tb@);
    let a_key = to_snake_case(&crate::token::tokens_to_string(ta));
    let b_key = to_snake_case(&crate::token::tokens_to_string(tb));
    let mut out_fns: Vec<ImplFn> = Vec::new();
    let mut k: usize = 0;
    while k < fns.len()
        invariant
            k <= fns@.len(),
            out_fns@.len() == k as nat,
            forall|k2: int| 0 <= k2 < k ==> fn_subst_err(#[trigger] fv[k2], tav, tbv) is None,
            forall|k2: int|
                0 <= k2 < k ==> {
                    &&& (#[trigger] impl_fns_view(out_fns@)[k2]).sig.name == fv[k2].sig.name
                    &&& impl_fns_view(out_fns@)[k2].sig.args.len() == fv[k2].sig.args.len()
                    &&& (forall|l: int|
                        0 <= l < impl_fns_view(out_fns@)[k2].sig.args.len() ==> (
                        #[trigger] impl_fns_view(out_fns@)[k2].sig.args[l]).name
                            == fv[k2].sig.args[l].name)
                    &&& (crate::subst::subst_toks(fv[k2].body, tav, tbv, false) matches Ok(o)
                        && impl_fns_view(out_fns@)[k2].body == o.0)
                },
        decreases fns@.len() - k,
    {
        let src = &fns[k];
        let mut new_args: Vec<FnArg> = Vec::new();
        let mut l: usize = 0;
        while l < src.sig.args.len()
            invariant
                l <= src.sig.args@.len(),
                new_args@.len() == l as nat,
                forall|l2: int|
                    0 <= l2 < l ==> crate::subst::subst_toks(
                        (#[trigger] args_view(src.sig.args@)[l2]).ty,
                        tav,
                        tbv,
                        false,
                    ) is Ok,
                forall|l2: int|
                    0 <= l2 < l ==> (#[trigger] args_view(new_args@)[l2]).name == args_view(
                        src.sig.args@,
                    )[l2].name,
            decreases src.sig.args@.len() - l,
        {
            let new_ty = match crate::subst::replace_type_placeholders(
                &src.sig.args[l].arg_type,
                ta,
                tb,
            ) {
                Ok(v) => v,
                Err(e) => {
                    proof {
                        assert(fv[k as int].sig.args == args_view(src.sig.args@));
                        lemma_arg_subst_err_at(
                            args_view(src.sig.args@),
                            tav,
                            tbv,
                            l as int,
                            e@,
                        );
                        lemma_pair_subst_err_at(fv, tav, tbv, k as int, e@);
                    }
                    return Err(e);
                },
            };
            let new_name = match &src.sig.args[l].arg_name {
                Option::None => Option::None,
                Option::Some(id) => Option::Some(id.clone()),
            };
            let ghost na0 = new_args@;
            new_args.push(FnArg { arg_name: new_name, arg_type: new_ty });
            proof {
                assert(args_view(new_args@) =~= args_view(na0).push(
                    new_args@[na0.len() as int]@,
                ));
                assert(args_view(new_args@)[na0.len() as int].name == args_view(src.sig.args@)[
                    l as int
                ].name);
            }
            l += 1;
        }
        let new_body = match crate::subst::replace_type_placeholders(&src.body, ta, tb) {
            Ok(v) => v,
            Err(e) => {
                proof {
                    assert(fv[k as int].sig.args == args_view(src.sig.args@));
                    lemma_arg_subst_err_none(args_view(src.sig.args@), tav, tbv);
                    assert(fv[k as int].body == toks_view(fns@[k as int].body@));
                    assert(fn_subst_err(fv[k as int], tav, tbv) == Some(e@));
                    lemma_pair_subst_err_at(fv, tav, tbv, k as int, e@);
                }
                return Err(e);
            },
        };
        let new_sig = FnSignature {
            pub_qualifiers: clone_toks(&src.sig.pub_qualifiers),
            fn_name: src.sig.fn_name.clone(),
            generics: clone_toks(&src.sig.generics),
            args: new_args,
            result: clone_toks(&src.sig.result),
        };
        let ghost out0 = out_fns@;
        out_fns.push(ImplFn { sig: new_sig, body: new_body });
        proof {
            let nk = out0.len() as int;
            assert(impl_fns_view(out_fns@) =~= impl_fns_view(out0).push(out_fns@[nk]@));
            assert(impl_fns_view(out_fns@)[nk].sig.name == fv[k as int].sig.name);
            assert(impl_fns_view(out_fns@)[nk].sig.args == args_view(out_fns@[nk].sig.args@));
            assert(fv[k as int].sig.args == args_view(fns@[k as int].sig.args@));
            assert(impl_fns_view(out_fns@)[nk].sig.args.len() == fv[k as int].sig.args.len());
            assert(fv[k as int].body == toks_view(fns@[k as int].body@));
            assert(impl_fns_view(out_fns@)[nk].body == toks_view(out_fns@[nk].body@));
            assert(crate::subst::subst_toks(fv[k as int].body, tav, tbv, false) matches Ok(o)
                && impl_fns_view(out_fns@)[nk].body == o.0);
            lemma_arg_subst_err_none(args_view(fns@[k as int].sig.args@), tav, tbv);
            assert(fn_subst_err(fv[k as int], tav, tbv) is None);
        }
        k += 1;
    }
    proof {
        lemma_pair_subst_err_none(fv, tav, tbv);
    }
    Ok(ResolvedPair { a_key, b_key, fns: out_fns })
}

/// The first substitution failure along one row of the cross product:
/// for each B type in order, the direct pair and then, for a
/// commutative block, its mirror.
pub open spec fn row_subst_err(
    fv: Seq<ImplFnV>,
    ta: Seq<TokV>,
    tbl: Seq<Seq<TokV>>,
    comm: bool,
) -> Option<SyntaxErrorV>
    decreases tbl.len(),
{
    if tbl.len() == 0 {
        None
    } else {
        match pair_subst_err(fv, ta, tbl[0]) {
            Some(e) => Some(e),
            None => if comm {
                match pair_subst_err(fv, tbl[0], ta) {
                    Some(e) => Some(e),
                    None => row_subst_err(fv, ta, tbl.drop_first(), comm),
                }
            } else {
                row_subst_err(fv, ta, tbl.drop_first(), comm)
            },
        }
    }
}

/// The first substitution failure across the whole cross product, row
/// by row.
pub open spec fn block_subst_err(
    fv: Seq<ImplFnV>,
    tal: Seq<Seq<TokV>>,
    tbl: Seq<Seq<TokV>>,
    comm: bool,
) -> Option<SyntaxErrorV>
    decreases tal.len(),
{
    if tal.len() == 0 {
        None
    } else {
        match row_subst_err(fv, tal[0], tbl, comm) {
            Some(e) => Some(e),
            None => block_subst_err(fv, tal.drop_first(), tbl, comm),
        }
    }
}

/// A clean row prefix puts the row's first failure at `j`.
pub proof fn lemma_row_err_at(
    fv: Seq<ImplFnV>,
    ta: Seq<TokV>,
    tbl: Seq<Seq<TokV>>,
    comm: bool,
    j: int,
    e: SyntaxErrorV,
    in_mirror: bool,
)
    requires
        0 <= j < tbl.len(),
        forall|j2: int|
            0 <= j2 < j ==> pair_subst_err(fv, ta, #[trigger] tbl[j2]) is None && (comm
                ==> pair_subst_err(fv, tbl[j2], ta) is None),
        !in_mirror ==> pair_subst_err(fv, ta, tbl[j]) == Some(e),
        in_mirror ==> comm && pair_subst_err(fv, ta, tbl[j]) is None && pair_subst_err(
            fv,
            tbl[j],
            ta,
        ) == Some(e),
    ensures
        row_subst_err(fv, ta, tbl, comm) == Some(e),
    decreases j,
{
    if j > 0 {
        let t = tbl.drop_first();
        assert(forall|j2: int| 0 <= j2 < t.len() ==> #[trigger] t[j2] == tbl[j2 + 1]);
        lemma_row_err_at(fv, ta, t, comm, j - 1, e, in_mirror);
    }
}

/// A fully clean row has no failure.
pub proof fn lemma_row_err_none(fv: Seq<ImplFnV>, ta: Seq<TokV>, tbl: Seq<Seq<TokV>>, comm: bool)
    requires
        forall|j2: int|
            0 <= j2 < tbl.len() ==> pair_subst_err(fv, ta, #[trigger] tbl[j2]) is None && (comm
                ==> pair_subst_err(fv, tbl[j2], ta) is None),
    ensures
        row_subst_err(fv, ta, tbl, comm) is None,
    decreases tbl.len(),
{
    if tbl.len() > 0 {
        let t = tbl.drop_first();
        assert(forall|j2: int| 0 <= j2 < t.len() ==> #[trigger] t[j2] == tbl[j2 + 1]);
        lemma_row_err_none(fv, ta, t, comm);
    }
}

/// A clean row prefix puts the block's first failure in row `i`.
pub proof fn lemma_block_err_at(
    fv: Seq<ImplFnV>,
    tal: Seq<Seq<TokV>>,
    tbl: Seq<Seq<TokV>>,
    comm: bool,
    i: int,
    e: SyntaxErrorV,
)
    requires
        0 <= i < tal.len(),
        forall|i2: int| 0 <= i2 < i ==> row_subst_err(fv, #[trigger] tal[i2], tbl, comm) is None,
        row_subst_err(fv, tal[i], tbl, comm) == Some(e),
    ensures
        block_subst_err(fv, tal, tbl, comm) == Some(e),
    decreases i,
{
    if i > 0 {
        let t = tal.drop_first();
        assert(forall|i2: int| 0 <= i2 < t.len() ==> #[trigger] t[i2] == tal[i2 + 1]);
        lemma_block_err_at(fv, t, tbl, comm, i - 1, e);
    }
}

/// With every row clean the block has no failure.
pub proof fn lemma_block_err_none(
    fv: Seq<ImplFnV>,
    tal: Seq<Seq<TokV>>,
    tbl: Seq<Seq<TokV>>,
    comm: bool,
)
    requires
        forall|i2: int|
            0 <= i2 < tal.len() ==> row_subst_err(fv, #[trigger] tal[i2], tbl, comm) is None,
    ensures
        block_subst_err(fv, tal, tbl, comm) is None,
    decreases tal.len(),
{
    if tal.len() > 0 {
        let t = tal.drop_first();
        assert(forall|i2: int| 0 <= i2 < t.len() ==> #[trigger] t[i2] == tal[i2 + 1]);
        lemma_block_err_none(fv, t, tbl, comm);
    }
}

/// Expands one block into its resolved pairs: one per (A-type, B-type)
/// combination of the two lists, in order, and, for a commutative
/// block, one mirrored pair right after each direct one, substituted
/// with the roles swapped.  An A-list of size m and a B-list of size n
/// thus yield exactly m·n pairs, or 2·m·n with the mirrors.
#[verifier::loop_isolation(false)]
pub fn expand_block(block: &ImplBlock) -> (r: Result<Vec<ResolvedPair>, SyntaxError>)
    requires
        block.type_a_list@.len() >= 1,
        block.type_b_list@.len() >= 1,
    ensures
        ({
            let fv = impl_fns_view(block.impl_fns@);
            let tal = types_view(block.type_a_list@);
            let tbl = types_view(block.type_b_list@);
            block_subst_err(fv, tal, tbl, block.is_commutative) matches Some(e0) ==> (r matches Err(
                e,
            ) && e@ == e0)
        }),
        block_subst_err(
            impl_fns_view(block.impl_fns@),
            types_view(block.type_a_list@),
            types_view(block.type_b_list@),
            block.is_commutative,
        ) is None ==> r is Ok,
        r matches Ok(v) ==> ({
            let m = block.type_a_list@.len() as int;
            let n = block.type_b_list@.len() as int;
            let mult: int = if block.is_commutative {
                2
            } else {
                1
            };
            let fv = impl_fns_view(block.impl_fns@);
            &&& v@.len() == mult * (m * n)
            &&& forall|i: int, j: int|
                0 <= i < m && 0 <= j < n ==> pair_from(
                    (#[trigger] v@[mult * (i * n + j)])@,
                    fv,
                    types_view(block.type_a_list@)[i],
                    types_view(block.type_b_list@)[j],
                )
            &&& block.is_commutative ==> forall|i: int, j: int|
                0 <= i < m && 0 <= j < n ==> pair_from(
                    (#[trigger] v@[mult * (i * n + j) + 1])@,
                    fv,
                    types_view(block.type_b_list@)[j],
                    types_view(block.type_a_list@)[i],
                )
        }),
{
    let m = block.type_a_list.len();
    let n = block.type_b_list.len();
    let mult: usize = if block.is_commutative {
        2
    } else {
        1
    };
    let ghost fv = impl_fns_view(block.impl_fns@);
    let ghost tal = types_view(block.type_a_list@);
    let ghost tbl = types_view(block.type_b_list@);
    let mut out: Vec<ResolvedPair> = Vec::new();
    let mut i: usize = 0;

    while i < m
        invariant
            i <= m,
            m == block.type_a_list@.len(),
            n == block.type_b_list@.len(),
            mult == if block.is_commutative { 2int } else { 1int },
            out@.len() == mult * ((i as int) * (n as int)),
            forall|i2: int|
                0 <= i2 < i ==> row_subst_err(fv, #[trigger] tal[i2], tbl, block.is_commutative)
                    is None,
            forall|i2: int, j2: int|
                0 <= i2 < i && 0 <= j2 < n ==> pair_from(
                    (#[trigger] out@[(mult as int) * (i2 * n + j2)])@,
                    fv,
                    types_view(block.type_a_list@)[i2],
                    types_view(block.type_b_list@)[j2],
                ),
            block.is_commutative ==> forall|i2: int, j2: int|
                0 <= i2 < i && 0 <= j2 < n ==> pair_from(
                    (#[trigger] out@[(mult as int) * (i2 * n + j2) + 1])@,
                    fv,
                    types_view(block.type_b_list@)[j2],
                    types_view(block.type_a_list@)[i2],
                ),
        decreases m - i,
    {
        let mut j: usize = 0;
        while j < n
            invariant
                j <= n,
                i < m,
                m == block.type_a_list@.len(),
                n == block.type_b_list@.len(),
                mult == if block.is_commutative { 2int } else { 1int },
                out@.len() == mult * ((i as int) * (n as int) + j as int),
                forall|j2: int|
                    0 <= j2 < j ==> pair_subst_err(fv, tal[i as int], #[trigger] tbl[j2]) is None
                        && (block.is_commutative ==> pair_subst_err(fv, tbl[j2], tal[i as int])
                        is None),
                forall|i2: int, j2: int|
                    (0 <= i2 < i && 0 <= j2 < n) || (i2 == i && 0 <= j2 < j) ==> pair_from(
                        (#[trigger] out@[(mult as int) * (i2 * n + j2)])@,
                        fv,
                        types_view(block.type_a_list@)[i2],
                        types_view(block.type_b_list@)[j2],
                    ),
                block.is_commutative ==> forall|i2: int, j2: int|
                    (0 <= i2 < i && 0 <= j2 < n) || (i2 == i && 0 <= j2 < j) ==> pair_from(
                        (#[trigger] out@[(mult as int) * (i2 * n + j2) + 1])@,
                        fv,
                        types_view(block.type_b_list@)[j2],
                        types_view(block.type_a_list@)[i2],
                    ),
            decreases n - j,
        {
            let ghost base = (mult as int) * ((i as int) * (n as int) + (j as int));
            let ghost outpre = out@;
            proof {
                assert(types_view(block.type_a_list@)[i as int] == toks_view(
                    block.type_a_list@[i as int]@,
                ));
                assert(types_view(block.type_b_list@)[j as int] == toks_view(
                    block.type_b_list@[j as int]@,
                ));
            }
            let direct = match expand_pair(
                &block.impl_fns,
                &block.type_a_list[i],
                &block.type_b_list[j],
            ) {
                Ok(p) => p,
                Err(e) => {
                    proof {
                        assert(pair_subst_err(fv, tal[i as int], tbl[j as int]) == Some(e@));
                        lemma_row_err_at(
                            fv,
                            tal[i as int],
                            tbl,
                            block.is_commutative,
                            j as int,
                            e@,
                            false,
                        );
                        lemma_block_err_at(fv, tal, tbl, block.is_commutative, i as int, e@);
                    }
                    return Err(e);
                },
            };
            out.push(direct);
            proof {
                assert(out@[base]@ == out@[outpre.len() as int]@);
                assert(pair_from(
                    out@[base]@,
                    fv,
                    types_view(block.type_a_list@)[i as int],
                    types_view(block.type_b_list@)[j as int],
                ));
            }
            if block.is_commutative {
                let mirror = match expand_pair(
                    &block.impl_fns,
                    &block.type_b_list[j],
                    &block.type_a_list[i],
                ) {
                    Ok(p) => p,
                    Err(e) => {
                        proof {
                            assert(pair_subst_err(fv, tal[i as int], tbl[j as int]) is None);
                            assert(pair_subst_err(fv, tbl[j as int], tal[i as int]) == Some(e@));
                            lemma_row_err_at(
                                fv,
                                tal[i as int],
                                tbl,
                                block.is_commutative,
                                j as int,
                                e@,
                                true,
                            );
                            lemma_block_err_at(fv, tal, tbl, block.is_commutative, i as int, e@);
                        }
                        return Err(e);
                    },
                };
                out.push(mirror);
                proof {
                    assert(out@[base + 1]@ == out@[outpre.len() as int + 1]@);
                    assert(pair_from(
                        out@[base + 1]@,
                        fv,
                        types_view(block.type_b_list@)[j as int],
                        types_view(block.type_a_list@)[i as int],
                    ));
                    assert(out@[base]@ == outpre.push(out@[base]).push(out@[base + 1])[base]@);
                }
            }
            proof {
                assert forall|i2: int, j2: int|
                    (0 <= i2 < i && 0 <= j2 < n) || (i2 == i && 0 <= j2 < j + 1) implies pair_from(
                    (#[trigger] out@[(mult as int) * (i2 * (n as int) + j2)])@,
                    fv,
                    types_view(block.type_a_list@)[i2],
                    types_view(block.type_b_list@)[j2],
                ) by {
                    let idx = (mult as int) * (i2 * (n as int) + j2);
                    if i2 == i as int && j2 == j as int {
                        assert(idx == base);
                    } else {
                        assert(i2 * (n as int) + j2 + 1 <= (i as int) * (n as int) + (
                        j as int)) by (nonlinear_arith)
                            requires
                                ((0 <= i2 && i2 < i as int && 0 <= j2 && j2 < n as int) || (i2
                                    == i as int && 0 <= j2 && j2 < j as int)),
                                0 <= n as int,
                                (j as int) < n as int,
;
                        assert(0 <= idx && idx + (mult as int) <= (mult as int) * ((i as int) * (
                        n as int) + (j as int))) by (nonlinear_arith)
                            requires
                                0 <= i2 * (n as int) + j2,
                                i2 * (n as int) + j2 + 1 <= (i as int) * (n as int) + (j as int),
                                1 <= mult as int,
                                idx == (mult as int) * (i2 * (n as int) + j2),
;
                        assert(out@[idx] == outpre[idx]);
                    }
                }
                if block.is_commutative {
                    assert forall|i2: int, j2: int|
                        (0 <= i2 < i && 0 <= j2 < n) || (i2 == i && 0 <= j2 < j + 1) implies pair_from(
                        (#[trigger] out@[(mult as int) * (i2 * (n as int) + j2) + 1])@,
                        fv,
                        types_view(block.type_b_list@)[j2],
                        types_view(block.type_a_list@)[i2],
                    ) by {
                        let idx = (mult as int) * (i2 * (n as int) + j2);
                        if i2 == i as int && j2 == j as int {
                            assert(idx == base);
                        } else {
                            assert(i2 * (n as int) + j2 + 1 <= (i as int) * (n as int) + (
                            j as int)) by (nonlinear_arith)
                                requires
                                    ((0 <= i2 && i2 < i as int && 0 <= j2 && j2 < n as int) || (i2
                                        == i as int && 0 <= j2 && j2 < j as int)),
                                    0 <= n as int,
                                    (j as int) < n as int,
;
                            assert(0 <= idx && idx + (mult as int) <= (mult as int) * ((i as int)
                                * (n as int) + (j as int))) by (nonlinear_arith)
                                requires
                                    0 <= i2 * (n as int) + j2,
                                    i2 * (n as int) + j2 + 1 <= (i as int) * (n as int) + (
                                    j as int),
                                    1 <= mult as int,
                                    idx == (mult as int) * (i2 * (n as int) + j2),
;
                            assert(out@[idx + 1] == outpre[idx + 1]);
                        }
                    }
                }
            }
            j += 1;
        }
        proof {
            lemma_row_err_none(fv, tal[i as int], tbl, block.is_commutative);
            assert(mult * ((i as int) * (n as int) + (n as int)) == mult * (((i as int) + 1) * (
            n as int))) by (nonlinear_arith);
        }
        i += 1;
    }
    proof {
        lemma_block_err_none(fv, tal, tbl, block.is_commutative);
    }
    Ok(out)
}

} // verus!

verus! {

/// Candidate indices point into the argument list.
pub proof fn lemma_cand_bounds(args: Seq<ArgV>, name: Seq<char>)
    ensures
        forall|i: int|
            0 <= i < cand_indices(args, name).len() ==> 0 <= #[trigger] cand_indices(args, name)[i]
                < args.len(),
    decreases args.len(),
{
    if args.len() > 0 {
        lemma_cand_bounds(args.drop_last(), name);
        let rest = cand_indices(args.drop_last(), name);
        assert forall|i: int|
            0 <= i < cand_indices(args, name).len() implies 0 <= #[trigger] cand_indices(
            args,
            name,
        )[i] < args.len() by {
            if contains_toks(args.last().ty, dyn_needle(name)) {
                if i < rest.len() {
                    assert(cand_indices(args, name)[i] == rest[i]);
                } else {
                    assert(cand_indices(args, name)[i] == args.len() - 1);
                }
            } else {
                assert(cand_indices(args, name)[i] == rest[i]);
            }
        }
    }
}

/// A successfully parsed signature run yields entries with in-range,
/// nonempty candidate sets and pairwise-distinct names.
pub proof fn lemma_sigs_scan_props(
    tv: Seq<TokV>,
    p: int,
    an: Seq<char>,
    bn: Seq<char>,
    entries: Seq<EntryV>,
    quals: Seq<TokV>,
    first: bool,
)
    requires
        forall|i: int|
            0 <= i < entries.len() ==> (entry_indices_wf(#[trigger] entries[i]) && entries[i].pa.len()
                >= 1 && entries[i].pb.len() >= 1),
        entry_names_unique(entries),
    ensures
        sigs_scan(tv, p, an, bn, entries, quals, first) matches Ok(out) ==> (forall|i: int|
            0 <= i < out.0.len() ==> (entry_indices_wf(#[trigger] out.0[i]) && out.0[i].pa.len()
                >= 1 && out.0[i].pb.len() >= 1)) && entry_names_unique(out.0) && out.0.len() >= 1,
    decreases tv.len() - p,
{
    lemma_sig_outcome_bounds(tv, p, true, 0);
    match sig_outcome(tv, p, true, 0) {
        Err(_) => {},
        Ok((sig, np)) => {
            match sig_checks(sig, entries, quals, first, an, bn) {
                Err(_) => {},
                Ok((entry, q2)) => {
                    lemma_cand_bounds(sig.args, an);
                    lemma_cand_bounds(sig.args, bn);
                    assert forall|i: int|
                        0 <= i < entries.push(entry).len() implies (entry_indices_wf(
                        #[trigger] entries.push(entry)[i],
                    ) && entries.push(entry)[i].pa.len() >= 1 && entries.push(entry)[i].pb.len()
                        >= 1) by {
                        if i < entries.len() {
                            assert(entries.push(entry)[i] == entries[i]);
                        } else {
                            assert(entries.push(entry)[i] == entry);
                        }
                    }
                    assert forall|i: int, j: int|
                        0 <= i < j < entries.push(entry).len() implies (#[trigger] entries.push(
                        entry,
                    )[i]).sig.name.text != (#[trigger] entries.push(entry)[j]).sig.name.text by {
                        if j == entries.len() {
                            assert(entries.push(entry)[i] == entries[i]);
                            assert(!entries_have_name(entries, sig.name.text));
                            assert(entries[i].sig.name.text != sig.name.text);
                        } else {
                            assert(entries.push(entry)[i] == entries[i]);
                            assert(entries.push(entry)[j] == entries[j]);
                        }
                    }
                    lemma_sigs_scan_props(tv, np, an, bn, entries.push(entry), q2, false);
                },
            }
        },
    }
}

/// A successful signature run ends inside the input.
pub proof fn lemma_sigs_scan_pos(
    tv: Seq<TokV>,
    p: int,
    an: Seq<char>,
    bn: Seq<char>,
    entries: Seq<EntryV>,
    quals: Seq<TokV>,
    first: bool,
)
    requires
        p <= tv.len(),
    ensures
        sigs_scan(tv, p, an, bn, entries, quals, first) matches Ok(out) ==> out.2 <= tv.len(),
    decreases tv.len() - p,
{
    lemma_sig_outcome_bounds(tv, p, true, 0);
    match sig_outcome(tv, p, true, 0) {
        Err(_) => {},
        Ok((sig, np)) => {
            match sig_checks(sig, entries, quals, first, an, bn) {
                Err(_) => {},
                Ok((entry, q2)) => {
                    lemma_sigs_scan_pos(tv, np, an, bn, entries.push(entry), q2, false);
                },
            }
        },
    }
}

/// The diagnostic of the first failing stage among the two type-class
/// preambles and the signature run, when one of them fails.
pub open spec fn prefix_err(tv: Seq<TokV>) -> Option<SyntaxErrorV> {
    match role_decl_outcome(tv, 0, Kw::RoleA) {
        Err(e) => Some(e),
        Ok((na, ba, p1)) => match role_decl_outcome(tv, p1, Kw::RoleB) {
            Err(e) => Some(e),
            Ok((nb, bb, p2)) => match sigs_scan(
                tv,
                p2,
                na.text,
                nb.text,
                Seq::empty(),
                Seq::empty(),
                true,
            ) {
                Err(e) => Some(e),
                Ok(_) => None,
            },
        },
    }
}

/// What a resolved model owes to its input: the type-class names and
/// bounds come from the two preambles, the visibility and the declared
/// signatures from the signature run, in order and unchanged.
pub open spec fn model_from_input(mdl: ModelV, tv: Seq<TokV>) -> bool {
    match role_decl_outcome(tv, 0, Kw::RoleA) {
        Err(_) => false,
        Ok((na, ba, p1)) => match role_decl_outcome(tv, p1, Kw::RoleB) {
            Err(_) => false,
            Ok((nb, bb, p2)) => {
                &&& mdl.trait_a == na
                &&& mdl.bounds_a == ba
                &&& mdl.trait_b == nb
                &&& mdl.bounds_b == bb
                &&& mdl.single_trait == (na.text == nb.text)
                &&& match sigs_scan(tv, p2, na.text, nb.text, Seq::empty(), Seq::empty(), true) {
                    Err(_) => false,
                    Ok((entries, quals, p3)) => {
                        &&& mdl.quals == quals
                        &&& mdl.fns.len() == entries.len()
                        &&& forall|i: int|
                            0 <= i < entries.len() ==> (#[trigger] mdl.fns[i]).sig
                                == entries[i].sig
                    },
                }
            },
        },
    }
}

/// Parses a whole specification and resolves it: the two type-class
/// preambles, the declared signatures, every implementation block with
/// candidate narrowing and cross-product expansion, and the final
/// collapse of every function's argument roles to one index each.
#[verifier::loop_isolation(false)]
pub fn parse_and_resolve(input: &Vec<Tok>) -> (r: Result<Model, SyntaxError>)
    ensures
        prefix_err(toks_view(input@)) matches Some(e0) ==> (r matches Err(e) && e@ == e0),
        r matches Ok(m) ==> ({
            &&& model_from_input(m@, toks_view(input@))
            &&& m@.single_trait == (m@.trait_a.text == m@.trait_b.text)
            &&& m@.fns.len() >= 1
            &&& forall|i: int| 0 <= i < m@.fns.len() ==> (#[trigger] m@.fns[i]).a_idx != m@.fns[i].b_idx
            &&& m.single_trait ==> m@.type_a == m@.type_b
        }),
{
    let mut pos: usize = 0;
    proof {
        lemma_toks_view(input@);
    }
    let (trait_a, bounds_a) = match parse_role_decl(input, &mut pos, Kw::RoleA) {
        Ok(v) => v,
        Err(e) => {
            return Err(e);
        },
    };
    proof {
        lemma_semi_scan(toks_view(input@), 4);
    }
    let ghost p2 = pos as int;
    let (trait_b, bounds_b) = match parse_role_decl(input, &mut pos, Kw::RoleB) {
        Ok(v) => v,
        Err(e) => {
            return Err(e);
        },
    };
    proof {
        lemma_semi_scan(toks_view(input@), p2 + 4);
    }
    let single_trait = trait_a.text == trait_b.text;
    let ghost sig_pos = pos as int;
    let sigs_result = match parse_fn_sigs(input, &mut pos, &trait_a, &trait_b) {
        Ok(v) => v,
        Err(e) => {
            return Err(e);
        },
    };
    let mut entries = sigs_result.0;
    let pub_qualifiers = sigs_result.1;
    let ghost entries0 = entries_view(entries@);
    proof {
        lemma_sigs_scan_pos(
            toks_view(input@),
            sig_pos,
            trait_a.text@,
            trait_b.text@,
            Seq::empty(),
            Seq::empty(),
            true,
        );
        lemma_sigs_scan_props(
            toks_view(input@),
            sig_pos,
            trait_a.text@,
            trait_b.text@,
            Seq::empty(),
            Seq::empty(),
            true,
        );
    }

    let mut pairs: Vec<ResolvedPair> = Vec::new();
    let mut type_a: Vec<TypeEntry> = Vec::new();
    let mut type_b: Vec<TypeEntry> = Vec::new();
    loop
        invariant
            pos as int <= input@.len(),
            forall|i: int|
                0 <= i < entries@.len() ==> (entry_indices_wf(
                    #[trigger] entries_view(entries@)[i],
                ) && entries_view(entries@)[i].pa.len() >= 1 && entries_view(entries@)[i].pb.len()
                    >= 1),
            entry_names_unique(entries_view(entries@)),
            entries@.len() >= 1,
            entries_view(entries@).len() == entries0.len(),
            forall|i: int|
                0 <= i < entries0.len() ==> (#[trigger] entries_view(entries@)[i]).sig
                    == entries0[i].sig,
        decreases input@.len() - pos as int,
    {
        let pos_before = pos;
        let block = match parse_impl_block(input, &mut pos, &mut entries, single_trait) {
            Ok(b) => b,
            Err(e) => {
                return Err(e);
            },
        };
        let expanded = match expand_block(&block) {
            Ok(v) => v,
            Err(e) => {
                return Err(e);
            },
        };
        let mut x: usize = 0;
        let mut expanded = expanded;
        while x < expanded.len()
            invariant
                x <= expanded@.len(),
            decreases expanded@.len() - x,
        {
            let p = ResolvedPair {
                a_key: expanded[x].a_key.clone(),
                b_key: expanded[x].b_key.clone(),
                fns: take_fns(&mut expanded, x),
            };
            upsert_pair(&mut pairs, p);
            x += 1;
        }
        let mut ti: usize = 0;
        while ti < block.type_b_list.len()
            invariant
                ti <= block.type_b_list@.len(),
            decreases block.type_b_list@.len() - ti,
        {
            let key = to_snake_case(&crate::token::tokens_to_string(&block.type_b_list[ti]));
            upsert_type(&mut type_b, TypeEntry { key, toks: clone_toks(&block.type_b_list[ti]) });
            ti += 1;
        }
        let mut tj: usize = 0;
        while tj < block.type_a_list.len()
            invariant
                tj <= block.type_a_list@.len(),
            decreases block.type_a_list@.len() - tj,
        {
            let key = to_snake_case(&crate::token::tokens_to_string(&block.type_a_list[tj]));
            upsert_type(&mut type_a, TypeEntry { key, toks: clone_toks(&block.type_a_list[tj]) });
            tj += 1;
        }
        if if_end(input, pos) {
            break ;
        }
        if pos <= pos_before {
            // A block always consumes tokens; a cursor that did not move
            // forward would loop forever, so surface it.
            return Err(SyntaxError { kind: ErrorKind::UnexpectedToken, span: 0 });
        }
    }

    let fns = match collapse_entries(entries, single_trait) {
        Ok(v) => v,
        Err(e) => {
            return Err(e);
        },
    };
    if fns.len() == 0 {
        return Err(SyntaxError { kind: ErrorKind::UnexpectedEnd, span: 0 });
    }

    // In single-trait mode the two roles share one set of concrete
    // types: merge the maps and let both roles carry the union.
    let (type_a, type_b) = if single_trait {
        let mut merged = type_a;
        let mut mi: usize = 0;
        while mi < type_b.len()
            invariant
                mi <= type_b@.len(),
            decreases type_b@.len() - mi,
        {
            upsert_type(
                &mut merged,
                TypeEntry { key: type_b[mi].key.clone(), toks: clone_toks(&type_b[mi].toks) },
            );
            mi += 1;
        }
        let mut copy: Vec<TypeEntry> = Vec::new();
        let mut ci: usize = 0;
        while ci < merged.len()
            invariant
                ci <= merged@.len(),
                copy@.len() == ci as nat,
                forall|j: int| 0 <= j < ci ==> (#[trigger] copy@[j])@ == merged@[j]@,
            decreases merged@.len() - ci,
        {
            copy.push(TypeEntry { key: merged[ci].key.clone(), toks: clone_toks(&merged[ci].toks) });
            ci += 1;
        }
        proof {
            assert(copy@.map_values(|t: TypeEntry| t@) =~= merged@.map_values(|t: TypeEntry| t@));
        }
        (merged, copy)
    } else {
        (type_a, type_b)
    };

    Ok(
        Model {
            trait_a,
            bounds_a,
            trait_b,
            bounds_b,
            single_trait,
            pub_qualifiers,
            fns,
            type_a,
            type_b,
            pairs,
        },
    )
}

/// Takes the implementations out of one expanded pair, leaving an
/// empty vector in its place.
fn take_fns(v: &mut Vec<ResolvedPair>, x: usize) -> (r: Vec<ImplFn>)
    requires
        x < old(v)@.len(),
    ensures
        final(v)@.len() == old(v)@.len(),
{
    let mut slot = v.remove(x);
    let r = slot.fns;
    slot.fns = Vec::new();
    v.insert(x, slot);
    r
}

} // verus!
