//! Tests of the whole compiler: specifications in, dispatch tokens out.

use double_dyn::errors::SyntaxError;
use double_dyn::synth::double_dyn_fn_internal;
use double_dyn::token::tokens_to_string;
use double_dyn::token::Delim;
use double_dyn::token::IdentTok;
use double_dyn::token::Tok;

fn id(s: &str) -> Tok {
    Tok::Ident(IdentTok { text: s.to_string(), span: 1 })
}

fn pn(c: char) -> Tok {
    Tok::Punct { ch: c, span: 1 }
}

fn grp(d: Delim, toks: Vec<Tok>) -> Tok {
    Tok::Group { delim: d, toks, span: 1 }
}

/// `type A: MyTraitA ; type B: MyTraitB ;` style preamble.
fn preamble(a: &str, b: &str) -> Vec<Tok> {
    vec![
        id("type"),
        id("A"),
        pn(':'),
        id(a),
        pn(';'),
        id("type"),
        id("B"),
        pn(':'),
        id(b),
        pn(';'),
    ]
}

/// `fn <name>(val: i32, min: &dyn <a>, max: &dyn <b>) -> i32 ;`
fn sig_min_max(a: &str, b: &str) -> Vec<Tok> {
    vec![
        id("fn"),
        id("min_max"),
        grp(
            Delim::Paren,
            vec![
                id("val"),
                pn(':'),
                id("i32"),
                pn(','),
                id("min"),
                pn(':'),
                pn('&'),
                id("dyn"),
                id(a),
                pn(','),
                id("max"),
                pn(':'),
                pn('&'),
                id("dyn"),
                id(b),
            ],
        ),
        pn('-'),
        pn('>'),
        id("i32"),
        pn(';'),
    ]
}

/// `fn multiply(a: &dyn <a>, b: &dyn <b>) -> i32 ;`
fn sig_multiply(a: &str, b: &str) -> Vec<Tok> {
    vec![
        id("fn"),
        id("multiply"),
        grp(
            Delim::Paren,
            vec![
                id("a"),
                pn(':'),
                pn('&'),
                id("dyn"),
                id(a),
                pn(','),
                id("b"),
                pn(':'),
                pn('&'),
                id("dyn"),
                id(b),
            ],
        ),
        pn('-'),
        pn('>'),
        id("i32"),
        pn(';'),
    ]
}

/// One authored implementation with concrete argument types.
fn impl_fn(name: &str, args: Vec<Tok>, body: Vec<Tok>) -> Vec<Tok> {
    vec![
        id("fn"),
        id(name),
        grp(Delim::Paren, args),
        pn('-'),
        pn('>'),
        id("i32"),
        grp(Delim::Brace, body),
    ]
}

fn named_ref_arg(name: &str, ty: &str) -> Vec<Tok> {
    vec![id(name), pn(':'), pn('&'), id(ty)]
}

fn two_args(n1: &str, t1: &str, n2: &str, t2: &str) -> Vec<Tok> {
    let mut v = named_ref_arg(n1, t1);
    v.push(pn(','));
    v.extend(named_ref_arg(n2, t2));
    v
}

fn three_args(t1: &str, t2: &str) -> Vec<Tok> {
    let mut v = vec![id("val"), pn(':'), id("i32"), pn(',')];
    v.extend(named_ref_arg("min", t1));
    v.push(pn(','));
    v.extend(named_ref_arg("max", t2));
    v
}

/// `impl for <TA, TB> { fns }`
fn impl_block(ta: Vec<Tok>, tb: Vec<Tok>, fns: Vec<Tok>) -> Vec<Tok> {
    let mut v = vec![id("impl"), id("for"), pn('<')];
    v.extend(ta);
    v.push(pn(','));
    v.extend(tb);
    v.push(pn('>'));
    v.push(grp(Delim::Brace, fns));
    v
}

fn compile(input: Vec<Tok>) -> Result<String, SyntaxError> {
    match double_dyn_fn_internal(&input) {
        Ok(out) => Ok(tokens_to_string(&out)),
        Err(e) => Err(e),
    }
}

#[test]
fn separate_traits_test() {
    let mut input = preamble("MyTraitA", "MyTraitB");
    input.extend(sig_min_max("MyTraitA", "MyTraitB"));
    input.extend(sig_multiply("MyTraitA", "MyTraitB"));
    let mut fns1 = impl_fn("min_max", three_args("i32", "String"), vec![id("val")]);
    fns1.extend(impl_fn(
        "multiply",
        two_args("a", "i32", "b", "String"),
        vec![id("a")],
    ));
    input.extend(impl_block(vec![id("i32")], vec![id("String")], fns1));
    let mut fns2 = impl_fn(
        "min_max",
        vec![
            id("val"),
            pn(':'),
            id("i32"),
            pn(','),
            id("min"),
            pn(':'),
            pn('&'),
            pn('#'),
            id("A"),
            pn(','),
            id("max"),
            pn(':'),
            pn('&'),
            pn('#'),
            id("B"),
        ],
        vec![pn('#'), id("A"), pn(';'), pn('#'), id("B")],
    );
    fns2.extend(impl_fn(
        "multiply",
        two_args("a", "i32", "b", "f32"),
        vec![id("b")],
    ));
    input.extend(impl_block(vec![id("i32")], vec![id("f32")], fns2));

    let out = compile(input).unwrap();
    // The two traits, their implementations, and the entry functions.
    assert!(out.contains("traitMyTraitA"));
    assert!(out.contains("traitMyTraitB"));
    assert!(out.contains("l1_min_max"));
    assert!(out.contains("l2_min_max_i32"));
    assert!(out.contains("l2_multiply_i32"));
    // The placeholder bodies were substituted with the concrete types:
    // `#A ; #B` became `i32 ; f32`.
    assert!(out.contains("i32_punct_f32"));
    // The (i32, String) pair embeds its authored body.
    assert!(out.contains("implMyTraitBforString"));
}

#[test]
fn lib_separate_traits_test() {
    // The same specification through the compiler's own entry.
    let mut input = preamble("MyTraitA", "MyTraitB");
    input.extend(sig_min_max("MyTraitA", "MyTraitB"));
    let fns1 = impl_fn("min_max", three_args("i32", "String"), vec![id("val")]);
    input.extend(impl_block(vec![id("i32")], vec![id("String")], fns1));
    let out = compile(input).unwrap();
    assert!(out.contains("fnmin_max"));
    assert!(out.contains("l1_min_max"));
    assert!(out.contains("l2_min_max_i32"));
}

#[test]
fn one_trait_test() {
    let mut input = preamble("MyTrait", "MyTrait");
    input.extend(sig_min_max("MyTrait", "MyTrait"));
    input.extend(sig_multiply("MyTrait", "MyTrait"));
    let mut fns1 = impl_fn("min_max", three_args("i32", "i32"), vec![id("val")]);
    fns1.extend(impl_fn(
        "multiply",
        two_args("same_a", "i32", "same_b", "i32"),
        vec![id("same_a")],
    ));
    input.extend(impl_block(vec![id("i32")], vec![id("i32")], fns1));
    let mut comm = vec![pn('#'), grp(Delim::Bracket, vec![id("commutative")])];
    let mut fns2 = impl_fn(
        "min_max",
        vec![
            id("val"),
            pn(':'),
            id("i32"),
            pn(','),
            id("com_min"),
            pn(':'),
            pn('&'),
            pn('#'),
            id("A"),
            pn(','),
            id("com_max"),
            pn(':'),
            pn('&'),
            pn('#'),
            id("B"),
        ],
        vec![pn('#'), id("A"), pn(';'), pn('#'), id("B")],
    );
    fns2.extend(impl_fn(
        "multiply",
        two_args("a", "i32", "b", "f32"),
        vec![id("b")],
    ));
    comm.extend(impl_block(vec![id("i32")], vec![id("f32")], fns2));
    input.extend(comm);

    let out = compile(input).unwrap();
    // One merged trait, with level-2 methods for both concrete types.
    assert!(out.contains("traitMyTrait"));
    assert!(out.contains("l2_min_max_i32"));
    assert!(out.contains("l2_min_max_f32"));
    assert!(out.contains("l2_multiply_f32"));
    // Role-faithful mirror: the direct pair substitutes `#A;#B` as
    // `i32;f32`, the mirrored pair as `f32;i32`.
    assert!(out.contains("i32_punct_f32"));
    assert!(out.contains("f32_punct_i32"));
    // The (i32, i32) and mirrored pairs exist; the unmatched (f32, f32)
    // pair signals "unimplemented" instead of failing to compile.
    assert!(out.contains("unimplemented"));
}

#[test]
fn lib_one_trait_test() {
    let mut input = preamble("MyTrait", "MyTrait");
    input.extend(sig_multiply("MyTrait", "MyTrait"));
    let fns1 = impl_fn(
        "multiply",
        two_args("same_a", "i32", "same_b", "i32"),
        vec![id("same_a")],
    );
    input.extend(impl_block(vec![id("i32")], vec![id("i32")], fns1));
    let out = compile(input).unwrap();
    assert!(out.contains("traitMyTrait"));
    assert!(out.contains("l1_multiply"));
    assert!(out.contains("l2_multiply_i32"));
}

#[test]
fn tests_one_trait_test() {
    // A commutative block over a list of types: every (type, f32)
    // combination and its mirror resolve.
    let mut input = preamble("MyTrait", "MyTrait");
    input.extend(sig_multiply("MyTrait", "MyTrait"));
    let fns1 = impl_fn(
        "multiply",
        two_args("same_a", "i32", "same_b", "i32"),
        vec![id("same_a")],
    );
    input.extend(impl_block(vec![id("i32")], vec![id("i32")], fns1));
    let mut comm = vec![pn('#'), grp(Delim::Bracket, vec![id("commutative")])];
    let fns2 = impl_fn(
        "multiply",
        vec![
            id("a"),
            pn(':'),
            pn('&'),
            pn('#'),
            id("A"),
            pn(','),
            id("b"),
            pn(':'),
            pn('&'),
            pn('#'),
            id("B"),
        ],
        vec![pn('#'), id("A"), pn(';'), pn('#'), id("B")],
    );
    comm.extend(impl_block(
        vec![grp(
            Delim::Bracket,
            vec![id("i8"), pn(','), id("i16"), pn(','), id("i32")],
        )],
        vec![id("f32")],
        fns2,
    ));
    input.extend(comm);
    let out = compile(input).unwrap();
    assert!(out.contains("l2_multiply_i8"));
    assert!(out.contains("l2_multiply_i16"));
    assert!(out.contains("l2_multiply_i32"));
    assert!(out.contains("l2_multiply_f32"));
    // Mirrors substitute with the roles swapped.
    assert!(out.contains("i8_punct_f32"));
    assert!(out.contains("f32_punct_i8"));
}

#[test]
fn tests_separate_traits_test() {
    let mut input = preamble("MyTraitA", "MyTraitB");
    input.extend(sig_multiply("MyTraitA", "MyTraitB"));
    let fns1 = impl_fn(
        "multiply",
        two_args("a", "i32", "b", "String"),
        vec![id("a")],
    );
    input.extend(impl_block(vec![id("i32")], vec![id("String")], fns1));
    let out = compile(input).unwrap();
    assert!(out.contains("traitMyTraitA"));
    assert!(out.contains("traitMyTraitB"));
    assert!(out.contains("l2_multiply_i32"));
}

#[test]
fn pub_qualifier_test() {
    let mut input = preamble("MyTraitA", "MyTraitB");
    let mut sig = vec![id("pub"), grp(Delim::Paren, vec![id("crate")])];
    sig.extend(sig_multiply("MyTraitA", "MyTraitB"));
    input.extend(sig);
    let fns1 = impl_fn("multiply", two_args("a", "i32", "b", "i32"), vec![id("a")]);
    input.extend(impl_block(vec![id("i32")], vec![id("i32")], fns1));
    let out = compile(input).unwrap();
    // The entry function keeps the visibility qualifier.
    assert!(out.contains("pub_open_paren_crate_close_paren_fnmultiply"));
}

#[test]
fn three_dyn_args_test() {
    let mut input = preamble("MyTrait", "MyTrait");
    input.extend(vec![
        id("fn"),
        id("multiply"),
        grp(
            Delim::Paren,
            vec![
                id("other"),
                pn(':'),
                pn('&'),
                id("dyn"),
                id("MyTrait"),
                pn(','),
                id("a"),
                pn(':'),
                pn('&'),
                id("dyn"),
                id("MyTrait"),
                pn(','),
                id("b"),
                pn(':'),
                pn('&'),
                id("dyn"),
                id("MyTrait"),
            ],
        ),
        pn('-'),
        pn('>'),
        id("i32"),
        pn(';'),
    ]);
    let fns1 = impl_fn(
        "multiply",
        vec![
            id("_other"),
            pn(':'),
            pn('&'),
            id("dyn"),
            id("MyTrait"),
            pn(','),
            id("a"),
            pn(':'),
            pn('&'),
            id("i32"),
            pn(','),
            id("b"),
            pn(':'),
            pn('&'),
            id("i32"),
        ],
        vec![id("a")],
    );
    input.extend(impl_block(vec![id("i32")], vec![id("i32")], fns1));
    let out = compile(input).unwrap();
    assert!(out.contains("l1_multiply"));
    assert!(out.contains("l2_multiply_i32"));
}

#[test]
fn arg_position_inference_test() {
    // Five arguments; only the second and fourth stay candidates once
    // reconciled with the implementation.
    let mut input = preamble("MyTrait", "MyTrait");
    input.extend(vec![
        id("fn"),
        id("multiply"),
        grp(
            Delim::Paren,
            vec![
                id("_junk"),
                pn(':'),
                pn('&'),
                id("dyn"),
                id("MyTrait"),
                pn(','),
                id("a"),
                pn(':'),
                pn('&'),
                id("dyn"),
                id("MyTrait"),
                pn(','),
                id("_more_junk"),
                pn(':'),
                pn('&'),
                id("i32"),
                pn(','),
                id("b"),
                pn(':'),
                pn('&'),
                id("dyn"),
                id("MyTrait"),
                pn(','),
                id("_yet_more_junk"),
                pn(':'),
                pn('&'),
                id("i32"),
            ],
        ),
        pn('-'),
        pn('>'),
        id("i32"),
        pn(';'),
    ]);
    let fns1 = impl_fn(
        "multiply",
        vec![
            id("_junk"),
            pn(':'),
            pn('&'),
            id("dyn"),
            id("MyTrait"),
            pn(','),
            id("alt_name_a"),
            pn(':'),
            pn('&'),
            id("i32"),
            pn(','),
            id("_more_junk"),
            pn(':'),
            pn('&'),
            id("i32"),
            pn(','),
            id("alt_name_b"),
            pn(':'),
            pn('&'),
            id("i32"),
            pn(','),
            id("_yet_more_junk"),
            pn(':'),
            pn('&'),
            id("i32"),
        ],
        vec![id("alt_name_a")],
    );
    input.extend(impl_block(vec![id("i32")], vec![id("i32")], fns1));
    let out = compile(input).unwrap();
    // The B argument (`b`, the fourth) was rebound to the receiver in
    // the authored pair, so the level-1 method forwards through it.
    assert!(out.contains("l2_multiply_i32"));
    assert!(out.contains("letalt_name_b_punct_self"));
}

#[test]
fn visibility_mismatch_test() {
    let mut input = preamble("MyTraitA", "MyTraitB");
    let mut sig1 = vec![id("pub")];
    sig1.extend(sig_min_max("MyTraitA", "MyTraitB"));
    input.extend(sig1);
    input.extend(sig_multiply("MyTraitA", "MyTraitB"));
    let fns1 = impl_fn("multiply", two_args("a", "i32", "b", "i32"), vec![id("a")]);
    input.extend(impl_block(vec![id("i32")], vec![id("i32")], fns1));
    let err = compile(input).unwrap_err();
    assert_eq!(
        err.message(),
        "All functions must have the same visibility (e.g. 'pub')"
    );
}

#[test]
fn incomplete_implementation_test() {
    let mut input = preamble("MyTraitA", "MyTraitB");
    input.extend(sig_min_max("MyTraitA", "MyTraitB"));
    input.extend(sig_multiply("MyTraitA", "MyTraitB"));
    // Only one of the two declared functions is implemented.
    let fns1 = impl_fn("multiply", two_args("a", "i32", "b", "i32"), vec![id("a")]);
    input.extend(impl_block(vec![id("i32")], vec![id("i32")], fns1));
    let err = compile(input).unwrap_err();
    assert_eq!(err.message(), "incomplete implementation of declared functions");
}

#[test]
fn unknown_placeholder_test() {
    let mut input = preamble("MyTraitA", "MyTraitB");
    input.extend(sig_multiply("MyTraitA", "MyTraitB"));
    let fns1 = impl_fn(
        "multiply",
        two_args("a", "i32", "b", "i32"),
        vec![pn('#'), id("C")],
    );
    input.extend(impl_block(vec![id("i32")], vec![id("i32")], fns1));
    let err = compile(input).unwrap_err();
    assert_eq!(err.message(), "unknown type macro identifier, #C");
}

#[test]
fn commutative_trait_mismatch_test() {
    let mut input = preamble("MyTraitA", "MyTraitB");
    input.extend(sig_multiply("MyTraitA", "MyTraitB"));
    let mut blk = vec![pn('#'), grp(Delim::Bracket, vec![id("commutative")])];
    let fns1 = impl_fn("multiply", two_args("a", "i32", "b", "i32"), vec![id("a")]);
    blk.extend(impl_block(vec![id("i32")], vec![id("i32")], fns1));
    input.extend(blk);
    let err = compile(input).unwrap_err();
    assert_eq!(
        err.message(),
        "commutative attribute requires matching A and B traits"
    );
}

#[test]
fn duplicate_function_test() {
    let mut input = preamble("MyTraitA", "MyTraitB");
    input.extend(sig_multiply("MyTraitA", "MyTraitB"));
    input.extend(sig_multiply("MyTraitA", "MyTraitB"));
    let fns1 = impl_fn("multiply", two_args("a", "i32", "b", "i32"), vec![id("a")]);
    input.extend(impl_block(vec![id("i32")], vec![id("i32")], fns1));
    let err = compile(input).unwrap_err();
    assert_eq!(err.message(), "duplicate functions not allowed");
}

#[test]
fn missing_dyn_args_test() {
    let mut input = preamble("MyTraitA", "MyTraitB");
    input.extend(vec![
        id("fn"),
        id("multiply"),
        grp(Delim::Paren, vec![id("a"), pn(':'), pn('&'), id("i32")]),
        pn(';'),
    ]);
    let fns1 = impl_fn("multiply", named_ref_arg("a", "i32"), vec![id("a")]);
    input.extend(impl_block(vec![id("i32")], vec![id("i32")], fns1));
    let err = compile(input).unwrap_err();
    assert_eq!(
        err.message(),
        "function must have at least one dyn A and one dyn B argument"
    );
}

#[test]
fn anonymous_argument_test() {
    let mut input = preamble("MyTraitA", "MyTraitB");
    input.extend(vec![
        id("fn"),
        id("multiply"),
        grp(
            Delim::Paren,
            vec![
                pn('&'),
                id("dyn"),
                id("MyTraitA"),
                pn(','),
                pn('&'),
                id("dyn"),
                id("MyTraitB"),
            ],
        ),
        pn(';'),
    ]);
    let fns1 = impl_fn("multiply", two_args("a", "i32", "b", "i32"), vec![id("a")]);
    input.extend(impl_block(vec![id("i32")], vec![id("i32")], fns1));
    let err = compile(input).unwrap_err();
    assert_eq!(err.message(), "missing arg name.  anonymous args are not allowed");
}

#[test]
fn snake_case_keys_test() {
    // The generated method names carry the snake-case form of the
    // concrete type's name: `String` becomes `string`.
    let mut input = preamble("MyTraitA", "MyTraitB");
    input.extend(sig_multiply("MyTraitA", "MyTraitB"));
    let fns1 = impl_fn(
        "multiply",
        two_args("a", "String", "b", "i32"),
        vec![id("a")],
    );
    input.extend(impl_block(vec![id("String")], vec![id("i32")], fns1));
    let out = compile(input).unwrap();
    assert!(out.contains("l2_multiply_string"));
    assert!(!out.contains("l2_multiply_String"));
}

#[test]
fn ambiguous_signature_test() {
    // Three open arguments in single-trait mode, all kept as candidates
    // by the implementation: resolution must report the ambiguity, not
    // silently pick a position.
    let mut input = preamble("MyTrait", "MyTrait");
    input.extend(vec![
        id("fn"),
        id("multiply"),
        grp(
            Delim::Paren,
            vec![
                id("a"),
                pn(':'),
                pn('&'),
                id("dyn"),
                id("MyTrait"),
                pn(','),
                id("b"),
                pn(':'),
                pn('&'),
                id("dyn"),
                id("MyTrait"),
                pn(','),
                id("c"),
                pn(':'),
                pn('&'),
                id("dyn"),
                id("MyTrait"),
            ],
        ),
        pn('-'),
        pn('>'),
        id("i32"),
        pn(';'),
    ]);
    let fns1 = impl_fn(
        "multiply",
        vec![
            id("a"),
            pn(':'),
            pn('&'),
            id("i32"),
            pn(','),
            id("b"),
            pn(':'),
            pn('&'),
            id("i32"),
            pn(','),
            id("c"),
            pn(':'),
            pn('&'),
            id("i32"),
        ],
        vec![id("a")],
    );
    input.extend(impl_block(vec![id("i32")], vec![id("i32")], fns1));
    let err = compile(input).unwrap_err();
    assert_eq!(
        err.message(),
        "ambiguous signature; can't infer position of A arg"
    );
}
