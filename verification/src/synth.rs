//! The dispatch synthesizer: from a resolved model it emits the
//! level-1 trait (role A), the level-2 trait (role B) whose method
//! names bake in the concrete A type, one implementation of each trait
//! per concrete type, and one top-level dispatch entry per declared
//! function.  In single-trait mode the two traits merge into one.
//!
//! A missing lookup here would mean a resolver invariant was broken
//! upstream; every lookup therefore falls back defensively (an absent
//! pair implementation becomes an unimplemented body) instead of
//! stopping the compiler.

use vstd::prelude::*;
use vstd::string::StringExecFns;
use crate::errors::{SyntaxError, SyntaxErrorV};
use crate::model::{FnEntry, FnEntryV, ImplFn, ImplFnV, Model, ModelV, PairV, ResolvedPair, TypeEntry, TypeEntryV, impl_fns_view};
use crate::signature::{ArgV, FnArg, FnSignature, SigV, args_view};
use crate::token::{Delim, IdentTok, IdentV, Tok, TokV, clone_toks, toks_view, lemma_toks_view};
use crate::resolve::parse_and_resolve;

verus! {

/// The model of a `&self` receiver argument.
pub open spec fn self_arg_v() -> ArgV {
    ArgV {
        name: Option::None,
        ty: seq![
            TokV::Punct { ch: '&', span: 0 },
            TokV::Ident { text: "self"@, span: 0 },
        ],
    }
}

/// A `&self` receiver as argument tokens.
fn self_arg() -> (r: FnArg)
    ensures
        r@ == self_arg_v(),
{
    let mut ty: Vec<Tok> = Vec::new();
    ty.push(Tok::Punct { ch: '&', span: 0 });
    ty.push(Tok::Ident(IdentTok { text: String::from_str("self"), span: 0 }));
    proof {
        lemma_toks_view(ty@);
        assert(toks_view(ty@) =~= self_arg_v().ty);
    }
    FnArg { arg_name: Option::None, arg_type: ty }
}

/// The model of the body every unmatched (A-type, B-type) combination
/// receives: a brace group invoking the host language's unimplemented
/// macro.
pub open spec fn unimpl_body_v() -> TokV {
    TokV::Group {
        delim: Delim::Brace,
        toks: seq![
            TokV::Ident { text: "unimplemented"@, span: 0 },
            TokV::Punct { ch: '!', span: 0 },
            TokV::Group { delim: Delim::Paren, toks: Seq::empty(), span: 0 },
            TokV::Punct { ch: ';', span: 0 },
        ],
        span: 0,
    }
}

/// The body every unmatched (A-type, B-type) combination receives: it
/// compiles, and signals "unimplemented" if it is ever invoked.
pub fn unimplemented_body() -> (r: Tok)
    ensures
        r@ == unimpl_body_v(),
{
    let mut inner: Vec<Tok> = Vec::new();
    inner.push(Tok::Ident(IdentTok { text: String::from_str("unimplemented"), span: 0 }));
    inner.push(Tok::Punct { ch: '!', span: 0 });
    let empty_args: Vec<Tok> = Vec::new();
    proof {
        assert(toks_view(empty_args@) =~= Seq::<TokV>::empty());
    }
    inner.push(Tok::Group { delim: Delim::Paren, toks: empty_args, span: 0 });
    inner.push(Tok::Punct { ch: ';', span: 0 });
    proof {
        lemma_toks_view(inner@);
        assert(toks_view(inner@) =~= seq![
            TokV::Ident { text: "unimplemented"@, span: 0 },
            TokV::Punct { ch: '!', span: 0 },
            TokV::Group { delim: Delim::Paren, toks: Seq::empty(), span: 0 },
            TokV::Punct { ch: ';', span: 0 },
        ]);
    }
    Tok::Group { delim: Delim::Brace, toks: inner, span: 0 }
}

/// The level-1 method name of a declared function.
fn l1_name(fn_name: &String) -> (r: String)
    ensures
        r@ == "l1_"@ + fn_name@,
{
    let mut s = String::from_str("l1_");
    s.append(fn_name.as_str());
    s
}

/// The level-2 method name of a declared function for one concrete A
/// type.
fn l2_name(fn_name: &String, a_key: &String) -> (r: String)
    ensures
        r@ == "l2_"@ + fn_name@ + "_"@ + a_key@,
{
    let mut s = String::from_str("l2_");
    s.append(fn_name.as_str());
    s.append("_");
    s.append(a_key.as_str());
    s
}

/// The tokens one argument contributes to a rendered argument list:
/// its name and a colon when it has one, its type, and a comma.
pub open spec fn arg_piece_spec(a: ArgV) -> Seq<TokV> {
    (match a.name {
        Option::Some(idv) => seq![
            TokV::Ident { text: idv.text, span: idv.span },
            TokV::Punct { ch: ':', span: 0 },
        ],
        Option::None => Seq::empty(),
    }) + a.ty + seq![TokV::Punct { ch: ',', span: 0 }]
}

/// The rendered argument list of a signature, in order.
pub open spec fn render_args_spec(args: Seq<ArgV>) -> Seq<TokV>
    decreases args.len(),
{
    if args.len() == 0 {
        Seq::empty()
    } else {
        render_args_spec(args.drop_last()) + arg_piece_spec(args.last())
    }
}

/// The rendered form of a signature: the visibility qualifier, the
/// function keyword, the name, the generics in angle brackets when any,
/// the parenthesized argument list, and the result clause when any.
pub open spec fn render_sig_spec(s: SigV) -> Seq<TokV> {
    s.quals + seq![
        TokV::Ident { text: "fn"@, span: 0 },
        TokV::Ident { text: s.name.text, span: s.name.span },
    ] + (if s.generics.len() > 0 {
        seq![TokV::Punct { ch: '<', span: 0 }] + s.generics + seq![
            TokV::Punct { ch: '>', span: 0 },
        ]
    } else {
        Seq::empty()
    }) + seq![TokV::Group { delim: Delim::Paren, toks: render_args_spec(s.args), span: 0 }] + (
    if s.ret.len() > 0 {
        seq![TokV::Punct { ch: '-', span: 0 }, TokV::Punct { ch: '>', span: 0 }] + s.ret
    } else {
        Seq::empty()
    })
}

/// Renders a signature back to tokens: the visibility qualifier, the
/// function keyword, the name, the generics in angle brackets when any,
/// the parenthesized argument list, and the result clause when any.
#[verifier::loop_isolation(false)]
pub fn render_fn_signature(sig: &FnSignature) -> (r: Vec<Tok>)
    ensures
        toks_view(r@) == render_sig_spec(sig@),
{
    let ghost sv = sig@;
    let mut arg_list: Vec<Tok> = Vec::new();
    let mut i: usize = 0;
    proof {
        assert(sv.args.take(0) =~= Seq::<ArgV>::empty());
        assert(toks_view(arg_list@) =~= render_args_spec(sv.args.take(0)));
    }
    while i < sig.args.len()
        invariant
            i <= sig.args@.len(),
            toks_view(arg_list@) == render_args_spec(sv.args.take(i as int)),
        decreases sig.args@.len() - i,
    {
        let ghost al0 = arg_list@;
        match &sig.args[i].arg_name {
            Option::Some(id) => {
                arg_list.push(Tok::Ident(id.clone()));
                arg_list.push(Tok::Punct { ch: ':', span: 0 });
            },
            Option::None => {},
        }
        let mut ty = clone_toks(&sig.args[i].arg_type);
        let ghost ty0 = ty@;
        arg_list.append(&mut ty);
        arg_list.push(Tok::Punct { ch: ',', span: 0 });
        proof {
            lemma_toks_view(al0);
            lemma_toks_view(arg_list@);
            lemma_toks_view(ty0);
            assert(sv.args[i as int] == sig.args@[i as int]@);
            assert(toks_view(arg_list@) =~= toks_view(al0) + arg_piece_spec(sv.args[i as int]));
            assert(sv.args.take(i + 1).drop_last() =~= sv.args.take(i as int));
            assert(sv.args.take(i + 1).last() == sv.args[i as int]);
        }
        i += 1;
    }
    proof {
        assert(sv.args.take(sig.args@.len() as int) =~= sv.args);
    }

    let mut out: Vec<Tok> = Vec::new();
    let mut quals = clone_toks(&sig.pub_qualifiers);
    let ghost q0 = quals@;
    out.append(&mut quals);
    proof {
        lemma_toks_view(out@);
        lemma_toks_view(q0);
        assert(toks_view(out@) =~= sv.quals);
    }
    let ghost o1 = out@;
    out.push(Tok::Ident(IdentTok { text: String::from_str("fn"), span: 0 }));
    out.push(Tok::Ident(sig.fn_name.clone()));
    proof {
        lemma_toks_view(o1);
        lemma_toks_view(out@);
        assert(toks_view(out@) =~= sv.quals + seq![
            TokV::Ident { text: "fn"@, span: 0 },
            TokV::Ident { text: sv.name.text, span: sv.name.span },
        ]);
    }
    let ghost o2 = out@;
    if sig.generics.len() > 0 {
        out.push(Tok::Punct { ch: '<', span: 0 });
        let mut gens = clone_toks(&sig.generics);
        let ghost g0 = gens@;
        out.append(&mut gens);
        out.push(Tok::Punct { ch: '>', span: 0 });
        proof {
            lemma_toks_view(o2);
            lemma_toks_view(out@);
            lemma_toks_view(g0);
            assert(toks_view(out@) =~= toks_view(o2) + (seq![TokV::Punct { ch: '<', span: 0 }]
                + sv.generics + seq![TokV::Punct { ch: '>', span: 0 }]));
        }
    }
    let ghost o3 = out@;
    out.push(Tok::Group { delim: Delim::Paren, toks: arg_list, span: 0 });
    proof {
        lemma_toks_view(o3);
        lemma_toks_view(out@);
        assert(toks_view(out@) =~= toks_view(o3) + seq![
            TokV::Group { delim: Delim::Paren, toks: render_args_spec(sv.args), span: 0 },
        ]);
    }
    let ghost o4 = out@;
    if sig.result.len() > 0 {
        out.push(Tok::Punct { ch: '-', span: 0 });
        out.push(Tok::Punct { ch: '>', span: 0 });
        let mut res = clone_toks(&sig.result);
        let ghost r0 = res@;
        out.append(&mut res);
        proof {
            lemma_toks_view(o4);
            lemma_toks_view(out@);
            lemma_toks_view(r0);
            assert(toks_view(out@) =~= toks_view(o4) + (seq![
                TokV::Punct { ch: '-', span: 0 },
                TokV::Punct { ch: '>', span: 0 },
            ] + sv.ret));
        }
    }
    proof {
        assert(toks_view(out@) =~= render_sig_spec(sv));
    }
    out
}

/// The model of the level-1 method signature of one declared function:
/// no visibility, the name prefixed for level 1, the A argument
/// replaced by the receiver.
pub open spec fn l1_sig_spec(f: FnEntryV) -> SigV {
    let args0 = if 0 <= f.a_idx < f.sig.args.len() {
        f.sig.args.remove(f.a_idx)
    } else {
        f.sig.args
    };
    SigV {
        quals: Seq::empty(),
        name: IdentV { text: "l1_"@ + f.sig.name.text, span: f.sig.name.span },
        generics: f.sig.generics,
        args: args0.insert(0, self_arg_v()),
        ret: f.sig.ret,
    }
}

/// The level-1 method signature of one declared function: the A
/// argument becomes the receiver, everything else stays.
#[verifier::loop_isolation(false)]
fn l1_sig(f: &FnEntry) -> (r: FnSignature)
    ensures
        r@ == l1_sig_spec(f@),
{
    let ghost fa = f.sig@.args;
    let mut new_sig = f.sig.clone();
    new_sig.pub_qualifiers = Vec::new();
    new_sig.fn_name = IdentTok { text: l1_name(&f.sig.fn_name.text), span: f.sig.fn_name.span };
    if f.a_idx < new_sig.args.len() {
        new_sig.args.remove(f.a_idx);
        proof {
            assert(args_view(new_sig.args@) =~= fa.remove(f.a_idx as int));
        }
    }
    let ghost args0 = args_view(new_sig.args@);
    new_sig.args.insert(0, self_arg());
    proof {
        assert(args_view(new_sig.args@) =~= args0.insert(0, self_arg_v()));
        assert(toks_view(new_sig.pub_qualifiers@) =~= Seq::<TokV>::empty());
    }
    new_sig
}

/// The model of the level-2 method signature of one declared function
/// for one concrete A type: the B argument becomes the receiver, the A
/// argument becomes a trailing parameter of the concrete type, and the
/// concrete type's key is baked into the method name.
pub open spec fn l2_sig_spec(f: FnEntryV, a_key: Seq<char>, a_ty: Seq<TokV>) -> SigV {
    let both_in_range = 0 <= f.a_idx < f.sig.args.len() && 0 <= f.b_idx < f.sig.args.len()
        && f.a_idx != f.b_idx;
    let args0 = if both_in_range {
        if f.a_idx < f.b_idx {
            f.sig.args.remove(f.b_idx).remove(f.a_idx)
        } else {
            f.sig.args.remove(f.a_idx).remove(f.b_idx)
        }
    } else {
        f.sig.args
    };
    let a_name = if both_in_range {
        f.sig.args[f.a_idx].name
    } else {
        Option::None
    };
    SigV {
        quals: Seq::empty(),
        name: IdentV { text: "l2_"@ + f.sig.name.text + "_"@ + a_key, span: f.sig.name.span },
        generics: f.sig.generics,
        args: args0.insert(0, self_arg_v()).push(
            ArgV { name: a_name, ty: seq![TokV::Punct { ch: '&', span: 0 }] + a_ty },
        ),
        ret: f.sig.ret,
    }
}

/// The level-2 method signature of one declared function for one
/// concrete A type: the B argument becomes the receiver, the A
/// argument becomes an ordinary parameter of the concrete type, and the
/// concrete type's key is baked into the method name.
#[verifier::loop_isolation(false)]
fn l2_sig(f: &FnEntry, a_key: &String, a_toks: &Vec<Tok>) -> (r: FnSignature)
    ensures
        r@ == l2_sig_spec(f@, a_key@, toks_view(a_toks@)),
{
    let ghost fa = f.sig@.args;
    let mut new_sig = f.sig.clone();
    new_sig.pub_qualifiers = Vec::new();
    new_sig.fn_name = IdentTok {
        text: l2_name(&f.sig.fn_name.text, a_key),
        span: f.sig.fn_name.span,
    };
    let old_a_arg: Option<FnArg> = if f.a_idx < new_sig.args.len() && f.b_idx
        < new_sig.args.len() && f.a_idx != f.b_idx {
        if f.a_idx < f.b_idx {
            new_sig.args.remove(f.b_idx);
            proof {
                assert(args_view(new_sig.args@) =~= fa.remove(f.b_idx as int));
            }
            let a = new_sig.args.remove(f.a_idx);
            proof {
                assert(args_view(new_sig.args@) =~= fa.remove(f.b_idx as int).remove(
                    f.a_idx as int,
                ));
                assert(a@ == fa[f.a_idx as int]);
            }
            Option::Some(a)
        } else {
            let a = new_sig.args.remove(f.a_idx);
            proof {
                assert(args_view(new_sig.args@) =~= fa.remove(f.a_idx as int));
                assert(a@ == fa[f.a_idx as int]);
            }
            new_sig.args.remove(f.b_idx);
            proof {
                assert(args_view(new_sig.args@) =~= fa.remove(f.a_idx as int).remove(
                    f.b_idx as int,
                ));
            }
            Option::Some(a)
        }
    } else {
        Option::None
    };
    let ghost args0 = args_view(new_sig.args@);
    new_sig.args.insert(0, self_arg());
    proof {
        assert(args_view(new_sig.args@) =~= args0.insert(0, self_arg_v()));
    }
    let mut concrete: Vec<Tok> = Vec::new();
    concrete.push(Tok::Punct { ch: '&', span: 0 });
    let mut at = clone_toks(a_toks);
    let ghost at0 = at@;
    concrete.append(&mut at);
    proof {
        lemma_toks_view(concrete@);
        lemma_toks_view(at0);
        assert(toks_view(concrete@) =~= seq![TokV::Punct { ch: '&', span: 0 }] + toks_view(
            a_toks@,
        ));
    }
    let name = match old_a_arg {
        Option::Some(arg) => arg.arg_name,
        Option::None => Option::None,
    };
    let ghost args1 = args_view(new_sig.args@);
    new_sig.args.push(FnArg { arg_name: name, arg_type: concrete });
    proof {
        assert(args_view(new_sig.args@) =~= args1.push(
            new_sig.args@[args1.len() as int]@,
        ));
        assert(toks_view(new_sig.pub_qualifiers@) =~= Seq::<TokV>::empty());
    }
    new_sig
}

/// The model of one argument with its name prefixed by an underscore.
pub open spec fn underscore_arg_v(a: ArgV) -> ArgV {
    ArgV {
        name: match a.name {
            Option::Some(idv) => Option::Some(
                IdentV { text: "_"@ + idv.text, span: idv.span },
            ),
            Option::None => Option::None,
        },
        ty: a.ty,
    }
}

/// The model of a signature with every argument name prefixed by an
/// underscore.
pub open spec fn underscore_args_spec(s: SigV) -> SigV {
    SigV {
        quals: s.quals,
        name: s.name,
        generics: s.generics,
        args: s.args.map_values(|a: ArgV| underscore_arg_v(a)),
        ret: s.ret,
    }
}

/// The same signature with every argument name prefixed by an
/// underscore, so that an unimplemented body raises no unused-variable
/// warnings.
#[verifier::loop_isolation(false)]
fn underscore_args(sig: &FnSignature) -> (r: FnSignature)
    ensures
        r@ == underscore_args_spec(sig@),
{
    let ghost sv = sig@;
    let mut new_sig = sig.clone();
    let mut args: Vec<FnArg> = Vec::new();
    let mut i: usize = 0;
    while i < new_sig.args.len()
        invariant
            i <= new_sig.args@.len(),
            args_view(new_sig.args@) == sv.args,
            args@.len() == i as nat,
            forall|j: int| 0 <= j < i ==> args_view(args@)[j] == underscore_arg_v(sv.args[j]),
        decreases new_sig.args@.len() - i,
    {
        let name = match &new_sig.args[i].arg_name {
            Option::Some(id) => {
                let mut t = String::from_str("_");
                t.append(id.text.as_str());
                Option::Some(IdentTok { text: t, span: id.span })
            },
            Option::None => Option::None,
        };
        let ghost args0 = args@;
        args.push(FnArg { arg_name: name, arg_type: clone_toks(&new_sig.args[i].arg_type) });
        proof {
            assert(args_view(args@) =~= args_view(args0).push(args@[args0.len() as int]@));
            assert(args_view(args@)[i as int] == underscore_arg_v(sv.args[i as int]));
        }
        i += 1;
    }
    new_sig.args = args;
    proof {
        assert(args_view(new_sig.args@) =~= sv.args.map_values(|a: ArgV| underscore_arg_v(a)));
    }
    new_sig
}

/// The first index of a resolved pair carrying both keys, or `-1`.
pub open spec fn pair_index_spec(pairs: Seq<PairV>, ak: Seq<char>, bk: Seq<char>) -> int
    decreases pairs.len(),
{
    if pairs.len() == 0 {
        -1
    } else if pairs[0].a_key == ak && pairs[0].b_key == bk {
        0
    } else {
        let r = pair_index_spec(pairs.drop_first(), ak, bk);
        if r < 0 {
            -1
        } else {
            r + 1
        }
    }
}

/// A keyless prefix puts the pair index exactly at the first match.
pub proof fn lemma_pair_index_at(pairs: Seq<PairV>, ak: Seq<char>, bk: Seq<char>, p: int)
    requires
        0 <= p <= pairs.len(),
        forall|j: int|
            0 <= j < p ==> !((#[trigger] pairs[j]).a_key == ak && pairs[j].b_key == bk),
        p < pairs.len() ==> pairs[p].a_key == ak && pairs[p].b_key == bk,
    ensures
        p < pairs.len() ==> pair_index_spec(pairs, ak, bk) == p,
        p == pairs.len() ==> pair_index_spec(pairs, ak, bk) == -1,
    decreases p, pairs.len(),
{
    if pairs.len() > 0 && !(pairs[0].a_key == ak && pairs[0].b_key == bk) {
        let t = pairs.drop_first();
        assert(forall|j: int| 0 <= j < t.len() ==> #[trigger] t[j] == pairs[j + 1]);
        lemma_pair_index_at(t, ak, bk, p - 1);
    }
}

/// The first index of an implementation carrying the name, or `-1`.
pub open spec fn impl_index_spec(fns: Seq<ImplFnV>, name: Seq<char>) -> int
    decreases fns.len(),
{
    if fns.len() == 0 {
        -1
    } else if fns[0].sig.name.text == name {
        0
    } else {
        let r = impl_index_spec(fns.drop_first(), name);
        if r < 0 {
            -1
        } else {
            r + 1
        }
    }
}

/// A nameless prefix puts the implementation index exactly at the first
/// match.
pub proof fn lemma_impl_index_at(fns: Seq<ImplFnV>, name: Seq<char>, p: int)
    requires
        0 <= p <= fns.len(),
        forall|j: int| 0 <= j < p ==> (#[trigger] fns[j]).sig.name.text != name,
        p < fns.len() ==> fns[p].sig.name.text == name,
    ensures
        p < fns.len() ==> impl_index_spec(fns, name) == p,
        p == fns.len() ==> impl_index_spec(fns, name) == -1,
    decreases p, fns.len(),
{
    if fns.len() > 0 && fns[0].sig.name.text != name {
        let t = fns.drop_first();
        assert(forall|j: int| 0 <= j < t.len() ==> #[trigger] t[j] == fns[j + 1]);
        lemma_impl_index_at(t, name, p - 1);
    }
}

/// The first index of a concrete type carrying the key, or `-1`.
pub open spec fn type_index_spec(ts: Seq<TypeEntryV>, key: Seq<char>) -> int
    decreases ts.len(),
{
    if ts.len() == 0 {
        -1
    } else if ts[0].key == key {
        0
    } else {
        let r = type_index_spec(ts.drop_first(), key);
        if r < 0 {
            -1
        } else {
            r + 1
        }
    }
}

/// A keyless prefix puts the type index exactly at the first match.
pub proof fn lemma_type_index_at(ts: Seq<TypeEntryV>, key: Seq<char>, p: int)
    requires
        0 <= p <= ts.len(),
        forall|j: int| 0 <= j < p ==> (#[trigger] ts[j]).key != key,
        p < ts.len() ==> ts[p].key == key,
    ensures
        p < ts.len() ==> type_index_spec(ts, key) == p,
        p == ts.len() ==> type_index_spec(ts, key) == -1,
    decreases p, ts.len(),
{
    if ts.len() > 0 && ts[0].key != key {
        let t = ts.drop_first();
        assert(forall|j: int| 0 <= j < t.len() ==> #[trigger] t[j] == ts[j + 1]);
        lemma_type_index_at(t, key, p - 1);
    }
}

/// The tokens of the concrete type stored under a key: the A table is
/// searched first, then the B table; an unknown key yields no tokens.
pub open spec fn type_toks_spec(m: ModelV, key: Seq<char>) -> Seq<TokV> {
    if type_index_spec(m.type_a, key) >= 0 {
        m.type_a[type_index_spec(m.type_a, key)].toks
    } else if type_index_spec(m.type_b, key) >= 0 {
        m.type_b[type_index_spec(m.type_b, key)].toks
    } else {
        Seq::empty()
    }
}

/// Finds a resolved pair by its two keys.
#[verifier::loop_isolation(false)]
fn lookup_pair<'a>(m: &'a Model, a_key: &String, b_key: &String) -> (r: Option<&'a ResolvedPair>)
    ensures
        ({
            let pi = pair_index_spec(m@.pairs, a_key@, b_key@);
            match r {
                Option::Some(p) => pi >= 0 && p@ == m@.pairs[pi],
                Option::None => pi == -1,
            }
        }),
{
    let ghost pv = m@.pairs;
    let mut i: usize = 0;
    while i < m.pairs.len()
        invariant
            i <= m.pairs@.len(),
            pv.len() == m.pairs@.len(),
            forall|j: int|
                0 <= j < i ==> !((#[trigger] pv[j]).a_key == a_key@ && pv[j].b_key == b_key@),
        decreases m.pairs@.len() - i,
    {
        if m.pairs[i].a_key == *a_key && m.pairs[i].b_key == *b_key {
            proof {
                assert(pv[i as int] == m.pairs@[i as int]@);
                lemma_pair_index_at(pv, a_key@, b_key@, i as int);
            }
            return Option::Some(&m.pairs[i]);
        }
        proof {
            assert(pv[i as int] == m.pairs@[i as int]@);
        }
        i += 1;
    }
    proof {
        lemma_pair_index_at(pv, a_key@, b_key@, pv.len() as int);
    }
    Option::None
}

/// Finds an authored implementation by function name.
#[verifier::loop_isolation(false)]
fn lookup_impl<'a>(fns: &'a Vec<ImplFn>, name: &String) -> (r: Option<&'a ImplFn>)
    ensures
        ({
            let gi = impl_index_spec(impl_fns_view(fns@), name@);
            match r {
                Option::Some(g) => gi >= 0 && g@ == impl_fns_view(fns@)[gi],
                Option::None => gi == -1,
            }
        }),
{
    let ghost fv = impl_fns_view(fns@);
    let mut i: usize = 0;
    while i < fns.len()
        invariant
            i <= fns@.len(),
            fv.len() == fns@.len(),
            forall|j: int| 0 <= j < i ==> (#[trigger] fv[j]).sig.name.text != name@,
        decreases fns@.len() - i,
    {
        if fns[i].sig.fn_name.text == *name {
            proof {
                assert(fv[i as int] == fns@[i as int]@);
                lemma_impl_index_at(fv, name@, i as int);
            }
            return Option::Some(&fns[i]);
        }
        proof {
            assert(fv[i as int] == fns@[i as int]@);
        }
        i += 1;
    }
    proof {
        lemma_impl_index_at(fv, name@, fv.len() as int);
    }
    Option::None
}

/// The `let <name> = self;` prologue that rebinds an authored B
/// argument to the receiver; nothing when the argument had no name.
pub open spec fn let_self_prologue(name: Option<IdentV>) -> Seq<TokV> {
    match name {
        Option::Some(idv) => seq![
            TokV::Ident { text: "let"@, span: 0 },
            TokV::Ident { text: idv.text, span: idv.span },
            TokV::Punct { ch: '=', span: 0 },
            TokV::Ident { text: "self"@, span: 0 },
            TokV::Punct { ch: ';', span: 0 },
        ],
        Option::None => Seq::empty(),
    }
}

/// The level-2 method of one declared function with no authored
/// implementation for the combination: the underscored signature and
/// the unimplemented body.
pub open spec fn l2_absent_fn_toks(f: FnEntryV, a_key: Seq<char>, a_ty: Seq<TokV>) -> Seq<TokV> {
    render_sig_spec(underscore_args_spec(l2_sig_spec(f, a_key, a_ty))) + seq![unimpl_body_v()]
}

/// The level-2 method of one declared function inside a resolved pair:
/// the authored signature with the B argument replaced by the receiver
/// and the name specialized to the A type, and the authored body behind
/// a prologue rebinding the B argument to the receiver.
pub open spec fn l2_present_fn_toks(p: PairV, f: FnEntryV, a_key: Seq<char>) -> Seq<TokV> {
    let gi = impl_index_spec(p.fns, f.sig.name.text);
    if gi >= 0 {
        let g = p.fns[gi];
        let has_b = 0 <= f.b_idx < g.sig.args.len();
        let sig2 = SigV {
            quals: g.sig.quals,
            name: IdentV {
                text: "l2_"@ + f.sig.name.text + "_"@ + a_key,
                span: g.sig.name.span,
            },
            generics: g.sig.generics,
            args: (if has_b {
                g.sig.args.remove(f.b_idx)
            } else {
                g.sig.args
            }).insert(0, self_arg_v()),
            ret: g.sig.ret,
        };
        let prologue = if has_b {
            let_self_prologue(g.sig.args[f.b_idx].name)
        } else {
            Seq::empty()
        };
        render_sig_spec(sig2) + seq![
            TokV::Group { delim: Delim::Brace, toks: prologue + g.body, span: 0 },
        ]
    } else {
        l2_absent_fn_toks(f, a_key, Seq::empty())
    }
}

/// The level-2 methods of a resolved pair, one per declared function in
/// order.
pub open spec fn l2_present_toks(p: PairV, fns: Seq<FnEntryV>, ak: Seq<char>) -> Seq<TokV>
    decreases fns.len(),
{
    if fns.len() == 0 {
        Seq::empty()
    } else {
        l2_present_toks(p, fns.drop_last(), ak) + l2_present_fn_toks(p, fns.last(), ak)
    }
}

/// The level-2 methods of an unmatched combination, one unimplemented
/// method per declared function in order.
pub open spec fn l2_absent_toks(fns: Seq<FnEntryV>, ak: Seq<char>, a_ty: Seq<TokV>) -> Seq<TokV>
    decreases fns.len(),
{
    if fns.len() == 0 {
        Seq::empty()
    } else {
        l2_absent_toks(fns.drop_last(), ak, a_ty) + l2_absent_fn_toks(fns.last(), ak, a_ty)
    }
}

/// The level-2 methods of one (A-type, B-type) combination: the
/// authored bodies when a pair was resolved for it, one unimplemented
/// body per declared function otherwise.
pub open spec fn l2_pair_toks(m: ModelV, ak: Seq<char>, bk: Seq<char>) -> Seq<TokV> {
    let pi = pair_index_spec(m.pairs, ak, bk);
    if pi >= 0 {
        l2_present_toks(m.pairs[pi], m.fns, ak)
    } else {
        l2_absent_toks(m.fns, ak, type_toks_spec(m, ak))
    }
}

/// The level-2 methods of one (A-type, B-type) combination: the
/// authored bodies with the B argument rebound to the receiver, or,
/// when no pair was resolved for the combination, one unimplemented
/// body per declared function.
#[verifier::loop_isolation(false)]
#[verifier::rlimit(100)]
#[verifier::spinoff_prover]
pub fn render_l2_fns_for_pair(m: &Model, a_key: &String, b_key: &String) -> (r: Vec<Tok>)
    ensures
        toks_view(r@) == l2_pair_toks(m@, a_key@, b_key@),
{
    let ghost fnsv = m@.fns;
    let mut out: Vec<Tok> = Vec::new();
    let pair = lookup_pair(m, a_key, b_key);
    match pair {
        Option::Some(p) => {
            let ghost pv = p@;
            let mut fi: usize = 0;
            proof {
                assert(fnsv.take(0) =~= Seq::<FnEntryV>::empty());
                assert(toks_view(out@) =~= l2_present_toks(pv, fnsv.take(0), a_key@));
            }
            while fi < m.fns.len()
                invariant
                    fi <= m.fns@.len(),
                    fnsv.len() == m.fns@.len(),
                    toks_view(out@) == l2_present_toks(pv, fnsv.take(fi as int), a_key@),
                decreases m.fns@.len() - fi,
            {
                let ghost out0 = out@;
                let f = &m.fns[fi];
                proof {
                    assert(f@ == fnsv[fi as int]);
                }
                match lookup_impl(&p.fns, &f.sig.fn_name.text) {
                    Option::Some(g) => {
                        let ghost gv = g@;
                        let ghost gargs = g.sig@.args;
                        let mut new_sig = g.sig.clone();
                        new_sig.fn_name = IdentTok {
                            text: l2_name(&f.sig.fn_name.text, a_key),
                            span: g.sig.fn_name.span,
                        };
                        let old_arg: Option<FnArg> = if f.b_idx < new_sig.args.len() {
                            let a = new_sig.args.remove(f.b_idx);
                            proof {
                                assert(args_view(new_sig.args@) =~= gargs.remove(f.b_idx as int));
                                assert(a@ == gargs[f.b_idx as int]);
                            }
                            Option::Some(a)
                        } else {
                            Option::None
                        };
                        let ghost args0 = args_view(new_sig.args@);
                        new_sig.args.insert(0, self_arg());
                        proof {
                            assert(args_view(new_sig.args@) =~= args0.insert(0, self_arg_v()));
                        }
                        let mut sig_toks = render_fn_signature(&new_sig);
                        let ghost st0 = sig_toks@;
                        out.append(&mut sig_toks);
                        let mut body: Vec<Tok> = Vec::new();
                        match old_arg {
                            Option::Some(arg) => match arg.arg_name {
                                Option::Some(id) => {
                                    body.push(
                                        Tok::Ident(
                                            IdentTok { text: String::from_str("let"), span: 0 },
                                        ),
                                    );
                                    body.push(Tok::Ident(id));
                                    body.push(Tok::Punct { ch: '=', span: 0 });
                                    body.push(
                                        Tok::Ident(
                                            IdentTok { text: String::from_str("self"), span: 0 },
                                        ),
                                    );
                                    body.push(Tok::Punct { ch: ';', span: 0 });
                                },
                                Option::None => {},
                            },
                            Option::None => {},
                        }
                        proof {
                            lemma_toks_view(body@);
                            if 0 <= f@.b_idx < gv.sig.args.len() {
                                assert(toks_view(body@) =~= let_self_prologue(
                                    gv.sig.args[f@.b_idx].name,
                                ));
                            } else {
                                assert(toks_view(body@) =~= Seq::<TokV>::empty());
                            }
                        }
                        let ghost body0 = toks_view(body@);
                        let mut authored = clone_toks(&g.body);
                        let ghost au0 = authored@;
                        body.append(&mut authored);
                        proof {
                            lemma_toks_view(body@);
                            lemma_toks_view(au0);
                            assert(toks_view(body@) =~= body0 + gv.body);
                        }
                        out.push(Tok::Group { delim: Delim::Brace, toks: body, span: 0 });
                        proof {
                            lemma_toks_view(out0);
                            lemma_toks_view(st0);
                            lemma_toks_view(out@);
                            assert(toks_view(out@) =~= toks_view(out0) + l2_present_fn_toks(
                                pv,
                                fnsv[fi as int],
                                a_key@,
                            ));
                        }
                    },
                    Option::None => {
                        let empty_ty: Vec<Tok> = Vec::new();
                        proof {
                            assert(toks_view(empty_ty@) =~= Seq::<TokV>::empty());
                        }
                        let new_sig = underscore_args(&l2_sig(f, a_key, &empty_ty));
                        let mut sig_toks = render_fn_signature(&new_sig);
                        let ghost st0 = sig_toks@;
                        out.append(&mut sig_toks);
                        out.push(unimplemented_body());
                        proof {
                            lemma_toks_view(out0);
                            lemma_toks_view(st0);
                            lemma_toks_view(out@);
                            assert(toks_view(out@) =~= toks_view(out0) + l2_present_fn_toks(
                                pv,
                                fnsv[fi as int],
                                a_key@,
                            ));
                        }
                    },
                }
                proof {
                    assert(fnsv.take(fi + 1).drop_last() =~= fnsv.take(fi as int));
                    assert(fnsv.take(fi + 1).last() == fnsv[fi as int]);
                }
                fi += 1;
            }
            proof {
                assert(fnsv.take(m.fns@.len() as int) =~= fnsv);
            }
        },
        Option::None => {
            // No resolved pair: every declared function gets an
            // unimplemented body, selected at call time, never a
            // compile error.
            let a_toks: Vec<Tok> = match find_type_toks(m, a_key) {
                Option::Some(v) => v,
                Option::None => Vec::new(),
            };
            proof {
                assert(toks_view(a_toks@) =~= type_toks_spec(m@, a_key@));
            }
            let ghost atv = toks_view(a_toks@);
            let mut fi: usize = 0;
            proof {
                assert(fnsv.take(0) =~= Seq::<FnEntryV>::empty());
                assert(toks_view(out@) =~= l2_absent_toks(fnsv.take(0), a_key@, atv));
            }
            while fi < m.fns.len()
                invariant
                    fi <= m.fns@.len(),
                    fnsv.len() == m.fns@.len(),
                    toks_view(a_toks@) == atv,
                    toks_view(out@) == l2_absent_toks(fnsv.take(fi as int), a_key@, atv),
                decreases m.fns@.len() - fi,
            {
                let ghost out0 = out@;
                let f = &m.fns[fi];
                proof {
                    assert(f@ == fnsv[fi as int]);
                }
                let new_sig = underscore_args(&l2_sig(f, a_key, &a_toks));
                let mut sig_toks = render_fn_signature(&new_sig);
                let ghost st0 = sig_toks@;
                out.append(&mut sig_toks);
                out.push(unimplemented_body());
                proof {
                    lemma_toks_view(out0);
                    lemma_toks_view(st0);
                    lemma_toks_view(out@);
                    assert(toks_view(out@) =~= toks_view(out0) + l2_absent_fn_toks(
                        fnsv[fi as int],
                        a_key@,
                        atv,
                    ));
                    assert(fnsv.take(fi + 1).drop_last() =~= fnsv.take(fi as int));
                    assert(fnsv.take(fi + 1).last() == fnsv[fi as int]);
                }
                fi += 1;
            }
            proof {
                assert(fnsv.take(m.fns@.len() as int) =~= fnsv);
            }
        },
    }
    out
}

/// The tokens of the concrete type stored under a key, in either
/// role's table.
#[verifier::loop_isolation(false)]
fn find_type_toks(m: &Model, key: &String) -> (r: Option<Vec<Tok>>)
    ensures
        ({
            match r {
                Option::Some(v) => toks_view(v@) == type_toks_spec(m@, key@),
                Option::None => type_index_spec(m@.type_a, key@) == -1 && type_index_spec(
                    m@.type_b,
                    key@,
                ) == -1,
            }
        }),
{
    let ghost tav = m@.type_a;
    let ghost tbv = m@.type_b;
    let mut i: usize = 0;
    while i < m.type_a.len()
        invariant
            i <= m.type_a@.len(),
            tav.len() == m.type_a@.len(),
            forall|j: int| 0 <= j < i ==> (#[trigger] tav[j]).key != key@,
        decreases m.type_a@.len() - i,
    {
        if m.type_a[i].key == *key {
            proof {
                assert(tav[i as int] == m.type_a@[i as int]@);
                lemma_type_index_at(tav, key@, i as int);
            }
            return Option::Some(clone_toks(&m.type_a[i].toks));
        }
        proof {
            assert(tav[i as int] == m.type_a@[i as int]@);
        }
        i += 1;
    }
    proof {
        lemma_type_index_at(tav, key@, tav.len() as int);
    }
    let mut j: usize = 0;
    while j < m.type_b.len()
        invariant
            j <= m.type_b@.len(),
            tbv.len() == m.type_b@.len(),
            type_index_spec(tav, key@) == -1,
            forall|j2: int| 0 <= j2 < j ==> (#[trigger] tbv[j2]).key != key@,
        decreases m.type_b@.len() - j,
    {
        if m.type_b[j].key == *key {
            proof {
                assert(tbv[j as int] == m.type_b@[j as int]@);
                lemma_type_index_at(tbv, key@, j as int);
            }
            return Option::Some(clone_toks(&m.type_b[j].toks));
        }
        proof {
            assert(tbv[j as int] == m.type_b@[j as int]@);
        }
        j += 1;
    }
    proof {
        lemma_type_index_at(tbv, key@, tbv.len() as int);
    }
    Option::None
}

/// The tokens one argument contributes to a forwarding call: its name
/// and a comma, nothing when it plays a skipped role or has no name.
pub open spec fn arg_name_piece(a: ArgV, skipped: bool) -> Seq<TokV> {
    if skipped {
        Seq::empty()
    } else {
        match a.name {
            Option::Some(idv) => seq![
                TokV::Ident { text: idv.text, span: idv.span },
                TokV::Punct { ch: ',', span: 0 },
            ],
            Option::None => Seq::empty(),
        }
    }
}

/// The forwarded argument names among the first `k` arguments, skipping
/// the two role positions.
pub open spec fn call_args_upto(args: Seq<ArgV>, a_idx: int, b_idx: int, k: int) -> Seq<TokV>
    decreases k,
{
    if k <= 0 {
        Seq::empty()
    } else {
        call_args_upto(args, a_idx, b_idx, k - 1) + arg_name_piece(
            args[k - 1],
            k - 1 == a_idx || k - 1 == b_idx,
        )
    }
}

/// The name of an in-range, named argument as a single identifier
/// token; nothing otherwise.
pub open spec fn receiver_piece(args: Seq<ArgV>, idx: int) -> Seq<TokV> {
    if 0 <= idx < args.len() {
        match args[idx].name {
            Option::Some(idv) => seq![TokV::Ident { text: idv.text, span: idv.span }],
            Option::None => Seq::empty(),
        }
    } else {
        Seq::empty()
    }
}

/// The level-1 method of one declared function inside a concrete A
/// type's implementation: its signature and a body forwarding to the
/// type's level-2 method on the B argument.
pub open spec fn l1_method_toks(f: FnEntryV, a_key: Seq<char>) -> Seq<TokV> {
    render_sig_spec(l1_sig_spec(f)) + seq![
        TokV::Group {
            delim: Delim::Brace,
            toks: receiver_piece(f.sig.args, f.b_idx) + seq![
                TokV::Punct { ch: '.', span: 0 },
                TokV::Ident {
                    text: "l2_"@ + f.sig.name.text + "_"@ + a_key,
                    span: f.sig.name.span,
                },
                TokV::Group {
                    delim: Delim::Paren,
                    toks: call_args_upto(f.sig.args, f.a_idx, f.b_idx, f.sig.args.len() as int)
                        + seq![
                        TokV::Punct { ch: '&', span: 0 },
                        TokV::Ident { text: "self"@, span: 0 },
                    ],
                    span: 0,
                },
            ],
            span: 0,
        },
    ]
}

/// The level-1 methods of a concrete A type, one per declared function
/// in order.
pub open spec fn l1_methods_toks(fns: Seq<FnEntryV>, a_key: Seq<char>) -> Seq<TokV>
    decreases fns.len(),
{
    if fns.len() == 0 {
        Seq::empty()
    } else {
        l1_methods_toks(fns.drop_last(), a_key) + l1_method_toks(fns.last(), a_key)
    }
}

/// The level-2 methods that ride along inside a merged-trait
/// implementation: one run per concrete B type, for the pair read with
/// the roles swapped.
pub open spec fn single_ride_toks(m: ModelV, types_b: Seq<TypeEntryV>, a_key: Seq<char>) -> Seq<
    TokV,
>
    decreases types_b.len(),
{
    if types_b.len() == 0 {
        Seq::empty()
    } else {
        single_ride_toks(m, types_b.drop_last(), a_key) + l2_pair_toks(
            m,
            types_b.last().key,
            a_key,
        )
    }
}

/// One concrete A type's trait implementation.
pub open spec fn l1_impl_toks(m: ModelV, t: TypeEntryV) -> Seq<TokV> {
    seq![
        TokV::Ident { text: "impl"@, span: 0 },
        TokV::Ident { text: m.trait_a.text, span: m.trait_a.span },
        TokV::Ident { text: "for"@, span: 0 },
    ] + t.toks + seq![
        TokV::Group {
            delim: Delim::Brace,
            toks: l1_methods_toks(m.fns, t.key) + (if m.single_trait {
                single_ride_toks(m, m.type_b, t.key)
            } else {
                Seq::empty()
            }),
            span: 0,
        },
    ]
}

/// The trait implementations of every concrete A type, in order.
pub open spec fn l1_impls_toks(m: ModelV, types_a: Seq<TypeEntryV>) -> Seq<TokV>
    decreases types_a.len(),
{
    if types_a.len() == 0 {
        Seq::empty()
    } else {
        l1_impls_toks(m, types_a.drop_last()) + l1_impl_toks(m, types_a.last())
    }
}

/// The level-2 methods of one concrete B type's implementation: one run
/// per concrete A type.
pub open spec fn l2_impl_body_toks(m: ModelV, types_a: Seq<TypeEntryV>, b_key: Seq<char>) -> Seq<
    TokV,
>
    decreases types_a.len(),
{
    if types_a.len() == 0 {
        Seq::empty()
    } else {
        l2_impl_body_toks(m, types_a.drop_last(), b_key) + l2_pair_toks(
            m,
            types_a.last().key,
            b_key,
        )
    }
}

/// One concrete B type's trait implementation, in separate-trait mode.
pub open spec fn l2_impl_toks(m: ModelV, t: TypeEntryV) -> Seq<TokV> {
    seq![
        TokV::Ident { text: "impl"@, span: 0 },
        TokV::Ident { text: m.trait_b.text, span: m.trait_b.span },
        TokV::Ident { text: "for"@, span: 0 },
    ] + t.toks + seq![
        TokV::Group {
            delim: Delim::Brace,
            toks: l2_impl_body_toks(m, m.type_a, t.key),
            span: 0,
        },
    ]
}

/// The trait implementations of every concrete B type, in order.
pub open spec fn l2_impls_toks(m: ModelV, types_b: Seq<TypeEntryV>) -> Seq<TokV>
    decreases types_b.len(),
{
    if types_b.len() == 0 {
        Seq::empty()
    } else {
        l2_impls_toks(m, types_b.drop_last()) + l2_impl_toks(m, types_b.last())
    }
}

/// The top-level dispatch entry of one declared function: the original
/// signature, visibility included, and a body forwarding through the A
/// argument's level-1 method.
pub open spec fn top_fn_toks(f: FnEntryV) -> Seq<TokV> {
    render_sig_spec(f.sig) + seq![
        TokV::Group {
            delim: Delim::Brace,
            toks: receiver_piece(f.sig.args, f.a_idx) + seq![
                TokV::Punct { ch: '.', span: 0 },
                TokV::Ident { text: "l1_"@ + f.sig.name.text, span: f.sig.name.span },
                TokV::Group {
                    delim: Delim::Paren,
                    toks: call_args_upto(f.sig.args, f.a_idx, f.a_idx, f.sig.args.len() as int),
                    span: 0,
                },
            ],
            span: 0,
        },
    ]
}

/// The top-level dispatch entries, one per declared function in order.
pub open spec fn top_fns_toks(fns: Seq<FnEntryV>) -> Seq<TokV>
    decreases fns.len(),
{
    if fns.len() == 0 {
        Seq::empty()
    } else {
        top_fns_toks(fns.drop_last()) + top_fn_toks(fns.last())
    }
}

/// The level-1 method signatures, one per declared function, each ended
/// by a statement end.
pub open spec fn l1_sigs_toks(fns: Seq<FnEntryV>) -> Seq<TokV>
    decreases fns.len(),
{
    if fns.len() == 0 {
        Seq::empty()
    } else {
        l1_sigs_toks(fns.drop_last()) + render_sig_spec(l1_sig_spec(fns.last())) + seq![
            TokV::Punct { ch: ';', span: 0 },
        ]
    }
}

/// The level-2 method signatures of one declared function, one per
/// concrete A type.
pub open spec fn l2_sigs_one_toks(f: FnEntryV, types_a: Seq<TypeEntryV>) -> Seq<TokV>
    decreases types_a.len(),
{
    if types_a.len() == 0 {
        Seq::empty()
    } else {
        l2_sigs_one_toks(f, types_a.drop_last()) + render_sig_spec(
            l2_sig_spec(f, types_a.last().key, types_a.last().toks),
        ) + seq![TokV::Punct { ch: ';', span: 0 }]
    }
}

/// The level-2 method signatures, declared function by declared
/// function.
pub open spec fn l2_sigs_toks(fns: Seq<FnEntryV>, types_a: Seq<TypeEntryV>) -> Seq<TokV>
    decreases fns.len(),
{
    if fns.len() == 0 {
        Seq::empty()
    } else {
        l2_sigs_toks(fns.drop_last(), types_a) + l2_sigs_one_toks(fns.last(), types_a)
    }
}

/// The trait declaration section: one merged trait in single-trait
/// mode, two traits otherwise, each carrying the visibility qualifier
/// and its bound tokens.
pub open spec fn trait_section_toks(m: ModelV) -> Seq<TokV> {
    m.quals + seq![
        TokV::Ident { text: "trait"@, span: 0 },
        TokV::Ident { text: m.trait_a.text, span: m.trait_a.span },
    ] + m.bounds_a + (if m.single_trait {
        seq![
            TokV::Group {
                delim: Delim::Brace,
                toks: l1_sigs_toks(m.fns) + l2_sigs_toks(m.fns, m.type_a),
                span: 0,
            },
        ]
    } else {
        seq![TokV::Group { delim: Delim::Brace, toks: l1_sigs_toks(m.fns), span: 0 }] + m.quals
            + seq![
            TokV::Ident { text: "trait"@, span: 0 },
            TokV::Ident { text: m.trait_b.text, span: m.trait_b.span },
        ] + m.bounds_b + seq![
            TokV::Group { delim: Delim::Brace, toks: l2_sigs_toks(m.fns, m.type_a), span: 0 },
        ]
    })
}

/// The whole emitted dispatch structure for a resolved model: the trait
/// section, the per-type implementations of each role, and the
/// top-level entries.
pub open spec fn synthesize_spec(m: ModelV) -> Seq<TokV> {
    trait_section_toks(m) + l1_impls_toks(m, m.type_a) + (if !m.single_trait {
        l2_impls_toks(m, m.type_b)
    } else {
        Seq::empty()
    }) + top_fns_toks(m.fns)
}

/// The level-1 method signatures of every declared function, each
/// ended by a statement end.
#[verifier::loop_isolation(false)]
fn build_l1_sigs(m: &Model) -> (r: Vec<Tok>)
    ensures
        toks_view(r@) == l1_sigs_toks(m@.fns),
{
    let ghost fnsv = m@.fns;
    let mut out: Vec<Tok> = Vec::new();
    let mut fi: usize = 0;
    proof {
        assert(fnsv.take(0) =~= Seq::<FnEntryV>::empty());
        assert(toks_view(out@) =~= l1_sigs_toks(fnsv.take(0)));
    }
    while fi < m.fns.len()
        invariant
            fi <= m.fns@.len(),
            fnsv.len() == m.fns@.len(),
            toks_view(out@) == l1_sigs_toks(fnsv.take(fi as int)),
        decreases m.fns@.len() - fi,
    {
        let ghost o0_vec = out@;
        let ghost o0 = toks_view(out@);
        let mut sig_toks = render_fn_signature(&l1_sig(&m.fns[fi]));
        let ghost s0 = sig_toks@;
        out.append(&mut sig_toks);
        out.push(Tok::Punct { ch: ';', span: 0 });
        proof {
            lemma_toks_view(s0);
            lemma_toks_view(o0_vec);
            lemma_toks_view(out@);
            assert(m.fns@[fi as int]@ == fnsv[fi as int]);
            assert(fnsv.take(fi + 1).drop_last() =~= fnsv.take(fi as int));
            assert(fnsv.take(fi + 1).last() == fnsv[fi as int]);
            assert(toks_view(out@) =~= o0 + render_sig_spec(l1_sig_spec(fnsv[fi as int]))
                + seq![TokV::Punct { ch: ';', span: 0 }]);
        }
        fi += 1;
    }
    proof {
        assert(fnsv.take(m.fns@.len() as int) =~= fnsv);
    }
    out
}

/// The level-2 method signatures, declared function by declared
/// function, one per concrete A type.
#[verifier::loop_isolation(false)]
fn build_l2_sigs(m: &Model) -> (r: Vec<Tok>)
    ensures
        toks_view(r@) == l2_sigs_toks(m@.fns, m@.type_a),
{
    let ghost fnsv = m@.fns;
    let ghost tav = m@.type_a;
    let mut out: Vec<Tok> = Vec::new();
    let mut fj: usize = 0;
    proof {
        assert(fnsv.take(0) =~= Seq::<FnEntryV>::empty());
        assert(toks_view(out@) =~= l2_sigs_toks(fnsv.take(0), tav));
    }
    while fj < m.fns.len()
        invariant
            fj <= m.fns@.len(),
            fnsv.len() == m.fns@.len(),
            tav.len() == m.type_a@.len(),
            toks_view(out@) == l2_sigs_toks(fnsv.take(fj as int), tav),
        decreases m.fns@.len() - fj,
    {
        let mut ai: usize = 0;
        proof {
            assert(tav.take(0) =~= Seq::<TypeEntryV>::empty());
            assert(l2_sigs_one_toks(fnsv[fj as int], tav.take(0)) =~= Seq::<TokV>::empty());
        }
        while ai < m.type_a.len()
            invariant
                ai <= m.type_a@.len(),
                fj < m.fns@.len(),
                fnsv.len() == m.fns@.len(),
                tav.len() == m.type_a@.len(),
                toks_view(out@) == l2_sigs_toks(fnsv.take(fj as int), tav) + l2_sigs_one_toks(
                    fnsv[fj as int],
                    tav.take(ai as int),
                ),
            decreases m.type_a@.len() - ai,
        {
            let ghost o0_vec = out@;
        let ghost o0 = toks_view(out@);
            let mut sig_toks = render_fn_signature(
                &l2_sig(&m.fns[fj], &m.type_a[ai].key, &m.type_a[ai].toks),
            );
            let ghost s0 = sig_toks@;
            out.append(&mut sig_toks);
            out.push(Tok::Punct { ch: ';', span: 0 });
            proof {
                lemma_toks_view(s0);
                lemma_toks_view(o0_vec);
                lemma_toks_view(out@);
                assert(m.fns@[fj as int]@ == fnsv[fj as int]);
                assert(m.type_a@[ai as int]@ == tav[ai as int]);
                assert(tav.take(ai + 1).drop_last() =~= tav.take(ai as int));
                assert(tav.take(ai + 1).last() == tav[ai as int]);
                assert(toks_view(out@) =~= o0 + render_sig_spec(
                    l2_sig_spec(fnsv[fj as int], tav[ai as int].key, tav[ai as int].toks),
                ) + seq![TokV::Punct { ch: ';', span: 0 }]);
            }
            ai += 1;
        }
        proof {
            assert(tav.take(m.type_a@.len() as int) =~= tav);
            assert(fnsv.take(fj + 1).drop_last() =~= fnsv.take(fj as int));
            assert(fnsv.take(fj + 1).last() == fnsv[fj as int]);
        }
        fj += 1;
    }
    proof {
        assert(fnsv.take(m.fns@.len() as int) =~= fnsv);
    }
    out
}

/// The trait declaration section: one merged trait in single-trait
/// mode, two traits otherwise.
#[verifier::loop_isolation(false)]
fn build_trait_section(m: &Model) -> (r: Vec<Tok>)
    ensures
        toks_view(r@) == trait_section_toks(m@),
{
    let ghost mv = m@;
    let mut l1_sig_toks = build_l1_sigs(m);
    let mut l2_sig_toks = build_l2_sigs(m);
    let mut out: Vec<Tok> = Vec::new();
    let mut quals = clone_toks(&m.pub_qualifiers);
    let ghost q0 = quals@;
    out.append(&mut quals);
    out.push(Tok::Ident(IdentTok { text: String::from_str("trait"), span: 0 }));
    out.push(Tok::Ident(m.trait_a.clone()));
    let mut bounds_a = clone_toks(&m.bounds_a);
    let ghost b0 = bounds_a@;
    out.append(&mut bounds_a);
    proof {
        lemma_toks_view(out@);
        lemma_toks_view(q0);
        lemma_toks_view(b0);
        assert(toks_view(out@) =~= mv.quals + seq![
            TokV::Ident { text: "trait"@, span: 0 },
            TokV::Ident { text: mv.trait_a.text, span: mv.trait_a.span },
        ] + mv.bounds_a);
    }
    if m.single_trait {
        let mut both: Vec<Tok> = Vec::new();
        let ghost l1v0 = l1_sig_toks@;
        both.append(&mut l1_sig_toks);
        let ghost l2v0 = l2_sig_toks@;
        both.append(&mut l2_sig_toks);
        let ghost o0_vec = out@;
        let ghost o0 = toks_view(out@);
        out.push(Tok::Group { delim: Delim::Brace, toks: both, span: 0 });
        proof {
            lemma_toks_view(out@);
            lemma_toks_view(l1v0);
            lemma_toks_view(l2v0);
            lemma_toks_view(both@);
            assert(toks_view(both@) =~= l1_sigs_toks(mv.fns) + l2_sigs_toks(mv.fns, mv.type_a));
            assert(toks_view(out@) =~= trait_section_toks(mv));
        }
    } else {
        let ghost o0_vec = out@;
        let ghost o0 = toks_view(out@);
        let ghost l1v0 = l1_sig_toks@;
        out.push(Tok::Group { delim: Delim::Brace, toks: l1_sig_toks, span: 0 });
        let mut quals2 = clone_toks(&m.pub_qualifiers);
        let ghost q2 = quals2@;
        out.append(&mut quals2);
        out.push(Tok::Ident(IdentTok { text: String::from_str("trait"), span: 0 }));
        out.push(Tok::Ident(m.trait_b.clone()));
        let mut bounds_b = clone_toks(&m.bounds_b);
        let ghost bb0 = bounds_b@;
        out.append(&mut bounds_b);
        let ghost l2v0 = l2_sig_toks@;
        out.push(Tok::Group { delim: Delim::Brace, toks: l2_sig_toks, span: 0 });
        proof {
            lemma_toks_view(out@);
            lemma_toks_view(q2);
            lemma_toks_view(bb0);
            assert(toks_view(out@) =~= trait_section_toks(mv));
        }
    }
    out
}

/// The forwarded argument names of one declared function, skipping the
/// two role positions, and the trailing borrowed receiver.
#[verifier::loop_isolation(false)]
fn build_l1_call_args(f: &FnEntry) -> (r: Vec<Tok>)
    ensures
        toks_view(r@) == call_args_upto(f@.sig.args, f@.a_idx, f@.b_idx, f@.sig.args.len() as int)
            + seq![TokV::Punct { ch: '&', span: 0 }, TokV::Ident { text: "self"@, span: 0 }],
{
    let mut call_args: Vec<Tok> = Vec::new();
    let mut aj: usize = 0;
    proof {
        assert(toks_view(call_args@) =~= call_args_upto(f@.sig.args, f@.a_idx, f@.b_idx, 0));
    }
    while aj < f.sig.args.len()
        invariant
            aj <= f.sig.args@.len(),
            f@.sig.args.len() == f.sig.args@.len(),
            toks_view(call_args@) == call_args_upto(f@.sig.args, f@.a_idx, f@.b_idx, aj as int),
        decreases f.sig.args@.len() - aj,
    {
        let ghost ca0_vec = call_args@;
        let ghost ca0 = toks_view(call_args@);
        if aj != f.a_idx && aj != f.b_idx {
            match &f.sig.args[aj].arg_name {
                Option::Some(id) => {
                    call_args.push(Tok::Ident(id.clone()));
                    call_args.push(Tok::Punct { ch: ',', span: 0 });
                },
                Option::None => {},
            }
        }
        proof {
            lemma_toks_view(ca0_vec);
            lemma_toks_view(call_args@);
            assert(f@.sig.args[aj as int] == f.sig.args@[aj as int]@);
            assert(toks_view(call_args@) =~= ca0 + arg_name_piece(
                f@.sig.args[aj as int],
                aj as int == f@.a_idx || aj as int == f@.b_idx,
            ));
        }
        aj += 1;
    }
    let ghost caf_vec = call_args@;
    call_args.push(Tok::Punct { ch: '&', span: 0 });
    call_args.push(Tok::Ident(IdentTok { text: String::from_str("self"), span: 0 }));
    proof {
        lemma_toks_view(caf_vec);
        lemma_toks_view(call_args@);
        assert(toks_view(call_args@) =~= call_args_upto(
            f@.sig.args,
            f@.a_idx,
            f@.b_idx,
            f@.sig.args.len() as int,
        ) + seq![TokV::Punct { ch: '&', span: 0 }, TokV::Ident { text: "self"@, span: 0 }]);
    }
    call_args
}

/// The level-1 methods of one concrete A type, one per declared
/// function.
#[verifier::loop_isolation(false)]
fn build_l1_methods(m: &Model, a_key: &String) -> (r: Vec<Tok>)
    ensures
        toks_view(r@) == l1_methods_toks(m@.fns, a_key@),
{
    let ghost fnsv = m@.fns;
    let mut out: Vec<Tok> = Vec::new();
    let mut fk: usize = 0;
    proof {
        assert(fnsv.take(0) =~= Seq::<FnEntryV>::empty());
        assert(toks_view(out@) =~= l1_methods_toks(fnsv.take(0), a_key@));
    }
    while fk < m.fns.len()
        invariant
            fk <= m.fns@.len(),
            fnsv.len() == m.fns@.len(),
            toks_view(out@) == l1_methods_toks(fnsv.take(fk as int), a_key@),
        decreases m.fns@.len() - fk,
    {
        let ghost o0_vec = out@;
        let ghost o0 = toks_view(out@);
        let f = &m.fns[fk];
        proof {
            assert(f@ == fnsv[fk as int]);
        }
        let mut sig_toks = render_fn_signature(&l1_sig(f));
        let ghost s0 = sig_toks@;
        out.append(&mut sig_toks);
        let mut call: Vec<Tok> = Vec::new();
        if f.b_idx < f.sig.args.len() {
            match &f.sig.args[f.b_idx].arg_name {
                Option::Some(id) => call.push(Tok::Ident(id.clone())),
                Option::None => {},
            }
        }
        let ghost recv_vec = call@;
        proof {
            lemma_toks_view(recv_vec);
            assert(toks_view(recv_vec) =~= receiver_piece(f@.sig.args, f@.b_idx));
        }
        call.push(Tok::Punct { ch: '.', span: 0 });
        call.push(
            Tok::Ident(
                IdentTok {
                    text: l2_name(&f.sig.fn_name.text, a_key),
                    span: f.sig.fn_name.span,
                },
            ),
        );
        let call_args = build_l1_call_args(f);
        call.push(Tok::Group { delim: Delim::Paren, toks: call_args, span: 0 });
        let ghost call_vec = call@;
        out.push(Tok::Group { delim: Delim::Brace, toks: call, span: 0 });
        proof {
            lemma_toks_view(s0);
            lemma_toks_view(recv_vec);
            lemma_toks_view(call_vec);
            lemma_toks_view(o0_vec);
            lemma_toks_view(out@);
            assert(toks_view(call_vec) =~= receiver_piece(f@.sig.args, f@.b_idx) + seq![
                TokV::Punct { ch: '.', span: 0 },
                TokV::Ident {
                    text: "l2_"@ + f@.sig.name.text + "_"@ + a_key@,
                    span: f@.sig.name.span,
                },
                TokV::Group {
                    delim: Delim::Paren,
                    toks: call_args_upto(
                        f@.sig.args,
                        f@.a_idx,
                        f@.b_idx,
                        f@.sig.args.len() as int,
                    ) + seq![
                        TokV::Punct { ch: '&', span: 0 },
                        TokV::Ident { text: "self"@, span: 0 },
                    ],
                    span: 0,
                },
            ]);
            assert(toks_view(out@) =~= o0 + l1_method_toks(fnsv[fk as int], a_key@));
            assert(fnsv.take(fk + 1).drop_last() =~= fnsv.take(fk as int));
            assert(fnsv.take(fk + 1).last() == fnsv[fk as int]);
        }
        fk += 1;
    }
    proof {
        assert(fnsv.take(m.fns@.len() as int) =~= fnsv);
    }
    out
}

/// The trait implementations of every concrete A type; in single-trait
/// mode each carries the level-2 methods of every concrete B type, read
/// with the roles swapped.
#[verifier::loop_isolation(false)]
fn build_l1_impls(m: &Model) -> (r: Vec<Tok>)
    ensures
        toks_view(r@) == l1_impls_toks(m@, m@.type_a),
{
    let ghost mv = m@;
    let mut out: Vec<Tok> = Vec::new();
    let mut ti: usize = 0;
    proof {
        assert(mv.type_a.take(0) =~= Seq::<TypeEntryV>::empty());
        assert(toks_view(out@) =~= l1_impls_toks(mv, mv.type_a.take(0)));
    }
    while ti < m.type_a.len()
        invariant
            ti <= m.type_a@.len(),
            mv.type_a.len() == m.type_a@.len(),
            mv.type_b.len() == m.type_b@.len(),
            toks_view(out@) == l1_impls_toks(mv, mv.type_a.take(ti as int)),
        decreases m.type_a@.len() - ti,
    {
        let ghost o0_vec = out@;
        let ghost o0 = toks_view(out@);
        let a_entry = &m.type_a[ti];
        proof {
            assert(a_entry@ == mv.type_a[ti as int]);
        }
        let mut impl_body = build_l1_methods(m, &a_entry.key);
        if m.single_trait {
            let mut bi: usize = 0;
            proof {
                assert(mv.type_b.take(0) =~= Seq::<TypeEntryV>::empty());
                assert(single_ride_toks(mv, mv.type_b.take(0), a_entry@.key) =~= Seq::<
                    TokV,
                >::empty());
            }
            while bi < m.type_b.len()
                invariant
                    bi <= m.type_b@.len(),
                    ti < m.type_a@.len(),
                    mv.type_a.len() == m.type_a@.len(),
                    mv.type_b.len() == m.type_b@.len(),
                    toks_view(impl_body@) == l1_methods_toks(mv.fns, a_entry@.key)
                        + single_ride_toks(mv, mv.type_b.take(bi as int), a_entry@.key),
                decreases m.type_b@.len() - bi,
            {
                let ghost ib0_vec = impl_body@;
                let ghost ib0_vec = impl_body@;
            let ghost ib0 = toks_view(impl_body@);
                let mut l2_impls = render_l2_fns_for_pair(m, &m.type_b[bi].key, &a_entry.key);
                let ghost li0 = l2_impls@;
                impl_body.append(&mut l2_impls);
                proof {
                    lemma_toks_view(ib0_vec);
                    lemma_toks_view(impl_body@);
                    lemma_toks_view(li0);
                    assert(m.type_b@[bi as int]@ == mv.type_b[bi as int]);
                    assert(toks_view(impl_body@) =~= ib0 + l2_pair_toks(
                        mv,
                        mv.type_b[bi as int].key,
                        a_entry@.key,
                    ));
                    assert(mv.type_b.take(bi + 1).drop_last() =~= mv.type_b.take(bi as int));
                    assert(mv.type_b.take(bi + 1).last() == mv.type_b[bi as int]);
                }
                bi += 1;
            }
            proof {
                assert(mv.type_b.take(m.type_b@.len() as int) =~= mv.type_b);
            }
        }
        out.push(Tok::Ident(IdentTok { text: String::from_str("impl"), span: 0 }));
        out.push(Tok::Ident(m.trait_a.clone()));
        out.push(Tok::Ident(IdentTok { text: String::from_str("for"), span: 0 }));
        let mut a_toks = clone_toks(&a_entry.toks);
        let ghost at0 = a_toks@;
        out.append(&mut a_toks);
        let ghost ibv = toks_view(impl_body@);
        out.push(Tok::Group { delim: Delim::Brace, toks: impl_body, span: 0 });
        proof {
            lemma_toks_view(o0_vec);
            lemma_toks_view(out@);
            lemma_toks_view(at0);
            assert(toks_view(out@) =~= o0 + l1_impl_toks(mv, mv.type_a[ti as int]));
            assert(mv.type_a.take(ti + 1).drop_last() =~= mv.type_a.take(ti as int));
            assert(mv.type_a.take(ti + 1).last() == mv.type_a[ti as int]);
        }
        ti += 1;
    }
    proof {
        assert(mv.type_a.take(m.type_a@.len() as int) =~= mv.type_a);
    }
    out
}

/// The trait implementations of every concrete B type, in
/// separate-trait mode.
#[verifier::loop_isolation(false)]
fn build_l2_impls(m: &Model) -> (r: Vec<Tok>)
    ensures
        toks_view(r@) == l2_impls_toks(m@, m@.type_b),
{
    let ghost mv = m@;
    let mut out: Vec<Tok> = Vec::new();
    let mut bi: usize = 0;
    proof {
        assert(mv.type_b.take(0) =~= Seq::<TypeEntryV>::empty());
        assert(toks_view(out@) =~= l2_impls_toks(mv, mv.type_b.take(0)));
    }
    while bi < m.type_b.len()
        invariant
            bi <= m.type_b@.len(),
            mv.type_a.len() == m.type_a@.len(),
            mv.type_b.len() == m.type_b@.len(),
            toks_view(out@) == l2_impls_toks(mv, mv.type_b.take(bi as int)),
        decreases m.type_b@.len() - bi,
    {
        let ghost o0_vec = out@;
        let ghost o0 = toks_view(out@);
        let b_entry = &m.type_b[bi];
        proof {
            assert(b_entry@ == mv.type_b[bi as int]);
        }
        let mut impl_body: Vec<Tok> = Vec::new();
        let mut ak: usize = 0;
        proof {
            assert(mv.type_a.take(0) =~= Seq::<TypeEntryV>::empty());
            assert(l2_impl_body_toks(mv, mv.type_a.take(0), b_entry@.key) =~= Seq::<
                TokV,
            >::empty());
            assert(toks_view(impl_body@) =~= l2_impl_body_toks(
                mv,
                mv.type_a.take(0),
                b_entry@.key,
            ));
        }
        while ak < m.type_a.len()
            invariant
                ak <= m.type_a@.len(),
                bi < m.type_b@.len(),
                mv.type_a.len() == m.type_a@.len(),
                mv.type_b.len() == m.type_b@.len(),
                toks_view(impl_body@) == l2_impl_body_toks(
                    mv,
                    mv.type_a.take(ak as int),
                    b_entry@.key,
                ),
            decreases m.type_a@.len() - ak,
        {
            let ghost ib0_vec = impl_body@;
            let ghost ib0 = toks_view(impl_body@);
            let mut l2_impls = render_l2_fns_for_pair(m, &m.type_a[ak].key, &b_entry.key);
            let ghost li0 = l2_impls@;
            impl_body.append(&mut l2_impls);
            proof {
                lemma_toks_view(ib0_vec);
                lemma_toks_view(impl_body@);
                lemma_toks_view(li0);
                assert(m.type_a@[ak as int]@ == mv.type_a[ak as int]);
                assert(toks_view(impl_body@) =~= ib0 + l2_pair_toks(
                    mv,
                    mv.type_a[ak as int].key,
                    b_entry@.key,
                ));
                assert(mv.type_a.take(ak + 1).drop_last() =~= mv.type_a.take(ak as int));
                assert(mv.type_a.take(ak + 1).last() == mv.type_a[ak as int]);
            }
            ak += 1;
        }
        proof {
            assert(mv.type_a.take(m.type_a@.len() as int) =~= mv.type_a);
        }
        out.push(Tok::Ident(IdentTok { text: String::from_str("impl"), span: 0 }));
        out.push(Tok::Ident(m.trait_b.clone()));
        out.push(Tok::Ident(IdentTok { text: String::from_str("for"), span: 0 }));
        let mut b_toks = clone_toks(&b_entry.toks);
        let ghost bt0 = b_toks@;
        out.append(&mut b_toks);
        out.push(Tok::Group { delim: Delim::Brace, toks: impl_body, span: 0 });
        proof {
            lemma_toks_view(o0_vec);
            lemma_toks_view(out@);
            lemma_toks_view(bt0);
            assert(toks_view(out@) =~= o0 + l2_impl_toks(mv, mv.type_b[bi as int]));
            assert(mv.type_b.take(bi + 1).drop_last() =~= mv.type_b.take(bi as int));
            assert(mv.type_b.take(bi + 1).last() == mv.type_b[bi as int]);
        }
        bi += 1;
    }
    proof {
        assert(mv.type_b.take(m.type_b@.len() as int) =~= mv.type_b);
    }
    out
}

/// The forwarded argument names of one declared function, skipping only
/// the A position.
#[verifier::loop_isolation(false)]
fn build_top_call_args(f: &FnEntry) -> (r: Vec<Tok>)
    ensures
        toks_view(r@) == call_args_upto(f@.sig.args, f@.a_idx, f@.a_idx, f@.sig.args.len() as int),
{
    let mut call_args: Vec<Tok> = Vec::new();
    let mut aj: usize = 0;
    proof {
        assert(toks_view(call_args@) =~= call_args_upto(f@.sig.args, f@.a_idx, f@.a_idx, 0));
    }
    while aj < f.sig.args.len()
        invariant
            aj <= f.sig.args@.len(),
            f@.sig.args.len() == f.sig.args@.len(),
            toks_view(call_args@) == call_args_upto(f@.sig.args, f@.a_idx, f@.a_idx, aj as int),
        decreases f.sig.args@.len() - aj,
    {
        let ghost ca0_vec = call_args@;
        let ghost ca0 = toks_view(call_args@);
        if aj != f.a_idx {
            match &f.sig.args[aj].arg_name {
                Option::Some(id) => {
                    call_args.push(Tok::Ident(id.clone()));
                    call_args.push(Tok::Punct { ch: ',', span: 0 });
                },
                Option::None => {},
            }
        }
        proof {
            lemma_toks_view(ca0_vec);
            lemma_toks_view(call_args@);
            assert(f@.sig.args[aj as int] == f.sig.args@[aj as int]@);
            assert(toks_view(call_args@) =~= ca0 + arg_name_piece(
                f@.sig.args[aj as int],
                aj as int == f@.a_idx,
            ));
        }
        aj += 1;
    }
    call_args
}

/// The top-level dispatch entries, one per declared function.
#[verifier::loop_isolation(false)]
fn build_top_fns(m: &Model) -> (r: Vec<Tok>)
    ensures
        toks_view(r@) == top_fns_toks(m@.fns),
{
    let ghost fnsv = m@.fns;
    let mut out: Vec<Tok> = Vec::new();
    let mut fi2: usize = 0;
    proof {
        assert(fnsv.take(0) =~= Seq::<FnEntryV>::empty());
        assert(toks_view(out@) =~= top_fns_toks(fnsv.take(0)));
    }
    while fi2 < m.fns.len()
        invariant
            fi2 <= m.fns@.len(),
            fnsv.len() == m.fns@.len(),
            toks_view(out@) == top_fns_toks(fnsv.take(fi2 as int)),
        decreases m.fns@.len() - fi2,
    {
        let ghost o0_vec = out@;
        let ghost o0 = toks_view(out@);
        let f = &m.fns[fi2];
        proof {
            assert(f@ == fnsv[fi2 as int]);
        }
        let mut sig_toks = render_fn_signature(&f.sig);
        let ghost s0 = sig_toks@;
        out.append(&mut sig_toks);
        let mut call: Vec<Tok> = Vec::new();
        if f.a_idx < f.sig.args.len() {
            match &f.sig.args[f.a_idx].arg_name {
                Option::Some(id) => call.push(Tok::Ident(id.clone())),
                Option::None => {},
            }
        }
        let ghost recv_vec = call@;
        proof {
            lemma_toks_view(recv_vec);
            assert(toks_view(recv_vec) =~= receiver_piece(f@.sig.args, f@.a_idx));
        }
        call.push(Tok::Punct { ch: '.', span: 0 });
        call.push(
            Tok::Ident(
                IdentTok { text: l1_name(&f.sig.fn_name.text), span: f.sig.fn_name.span },
            ),
        );
        let call_args = build_top_call_args(f);
        call.push(Tok::Group { delim: Delim::Paren, toks: call_args, span: 0 });
        let ghost call_vec = call@;
        out.push(Tok::Group { delim: Delim::Brace, toks: call, span: 0 });
        proof {
            lemma_toks_view(s0);
            lemma_toks_view(call_vec);
            lemma_toks_view(o0_vec);
            lemma_toks_view(out@);
            assert(toks_view(call_vec) =~= receiver_piece(f@.sig.args, f@.a_idx) + seq![
                TokV::Punct { ch: '.', span: 0 },
                TokV::Ident { text: "l1_"@ + f@.sig.name.text, span: f@.sig.name.span },
                TokV::Group {
                    delim: Delim::Paren,
                    toks: call_args_upto(
                        f@.sig.args,
                        f@.a_idx,
                        f@.a_idx,
                        f@.sig.args.len() as int,
                    ),
                    span: 0,
                },
            ]);
            assert(toks_view(out@) =~= o0 + top_fn_toks(fnsv[fi2 as int]));
            assert(fnsv.take(fi2 + 1).drop_last() =~= fnsv.take(fi2 as int));
            assert(fnsv.take(fi2 + 1).last() == fnsv[fi2 as int]);
        }
        fi2 += 1;
    }
    proof {
        assert(fnsv.take(m.fns@.len() as int) =~= fnsv);
    }
    out
}

/// Emits the whole dispatch structure for a resolved model: the trait
/// declarations (one when the two roles share a type-class), the
/// per-type trait implementations, and the top-level entry functions.
pub fn synthesize(m: &Model) -> (r: Vec<Tok>)
    ensures
        toks_view(r@) == synthesize_spec(m@),
{
    let mut out = build_trait_section(m);
    let ghost s1 = toks_view(out@);
    let ghost s1_vec = out@;
    let mut l1_impls = build_l1_impls(m);
    let ghost l1v = l1_impls@;
    out.append(&mut l1_impls);
    proof {
        lemma_toks_view(s1_vec);
        lemma_toks_view(out@);
        lemma_toks_view(l1v);
        assert(toks_view(out@) =~= s1 + l1_impls_toks(m@, m@.type_a));
    }
    if !m.single_trait {
        let ghost s2 = toks_view(out@);
        let ghost s2_vec = out@;
        let mut l2_impls = build_l2_impls(m);
        let ghost l2v = l2_impls@;
        out.append(&mut l2_impls);
        proof {
            lemma_toks_view(s2_vec);
            lemma_toks_view(out@);
            lemma_toks_view(l2v);
            assert(toks_view(out@) =~= s2 + l2_impls_toks(m@, m@.type_b));
        }
    }
    let ghost s3 = toks_view(out@);
    let ghost s3_vec = out@;
    let mut tops = build_top_fns(m);
    let ghost tv0 = tops@;
    out.append(&mut tops);
    proof {
        lemma_toks_view(s3_vec);
        lemma_toks_view(out@);
        lemma_toks_view(tv0);
        assert(toks_view(out@) =~= s3 + top_fns_toks(m@.fns));
        assert(toks_view(out@) =~= synthesize_spec(m@));
    }
    out
}

/// Compiles a whole specification: parses and resolves it, and emits
/// the dispatch structure.  A preamble or signature-run fault surfaces
/// as exactly that stage's diagnostic; on success the output is the
/// synthesis of a model that owes its type classes, visibility and
/// declared signatures to the input.
pub fn double_dyn_fn_internal(input: &Vec<Tok>) -> (r: Result<Vec<Tok>, SyntaxError>)
    ensures
        crate::resolve::prefix_err(toks_view(input@)) matches Some(e0) ==> (r matches Err(e) && e@
            == e0),
        r matches Ok(ts) ==> exists|mdl: ModelV|
            #[trigger] crate::resolve::model_from_input(mdl, toks_view(input@)) && toks_view(ts@)
                == synthesize_spec(mdl),
{
    let model = match parse_and_resolve(input) {
        Ok(m) => m,
        Err(e) => {
            return Err(e);
        },
    };
    let out = synthesize(&model);
    proof {
        assert(crate::resolve::model_from_input(model@, toks_view(input@)) && toks_view(out@)
            == synthesize_spec(model@));
    }
    Ok(out)
}

/// The compiler's entry: the emitted dispatch declarations on success,
/// or the diagnostic as exactly one compile-time error invocation.
pub fn double_dyn_fn(input: &Vec<Tok>) -> (r: Vec<Tok>)
    ensures
        crate::resolve::prefix_err(toks_view(input@)) matches Some(e0) ==> toks_view(r@)
            == crate::errors::compile_error_toks(e0),
        (exists|e: SyntaxErrorV| toks_view(r@) == crate::errors::compile_error_toks(e)) || (exists|
            mdl: ModelV,
        |
            #[trigger] crate::resolve::model_from_input(mdl, toks_view(input@)) && toks_view(r@)
                == synthesize_spec(mdl)),
{
    match double_dyn_fn_internal(input) {
        Ok(expanded) => expanded,
        Err(e) => {
            let ghost ev = e@;
            let out = e.into_compile_error();
            proof {
                assert(toks_view(out@) == crate::errors::compile_error_toks(ev));
            }
            out
        },
    }
}

} // verus!
