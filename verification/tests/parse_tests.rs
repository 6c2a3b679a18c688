//! Tests of the argument and signature parsers.

use double_dyn::cursor::require_angle_group;
use double_dyn::cursor::require_group;
use double_dyn::cursor::require_ident;
use double_dyn::cursor::require_keyword;
use double_dyn::cursor::require_punct;
use double_dyn::errors::ErrorKind;
use double_dyn::errors::Kw;
use double_dyn::signature::require_fn_arg;
use double_dyn::signature::require_fn_signature;
use double_dyn::token::Delim;
use double_dyn::token::IdentTok;
use double_dyn::token::Tok;

fn id(s: &str) -> Tok {
    Tok::Ident(IdentTok { text: s.to_string(), span: 1 })
}

fn pn(c: char) -> Tok {
    Tok::Punct { ch: c, span: 1 }
}

fn grp(d: Delim, toks: Vec<Tok>) -> Tok {
    Tok::Group { delim: d, toks, span: 1 }
}

#[test]
fn require_fn_arg_test() {
    // Positive examples.
    let toks = vec![id("i32")];
    let mut pos = 0;
    assert!(require_fn_arg(&toks, &mut pos, 0).is_ok());

    let toks = vec![id("val"), pn(':'), id("i32")];
    let mut pos = 0;
    assert!(require_fn_arg(&toks, &mut pos, 0).is_ok());

    let toks = vec![id("a"), pn(':'), pn('&'), id("dyn"), id("PrimInt")];
    let mut pos = 0;
    assert!(require_fn_arg(&toks, &mut pos, 0).is_ok());

    let toks = vec![id("a"), pn(':'), pn('&'), id("i32")];
    let mut pos = 0;
    assert!(require_fn_arg(&toks, &mut pos, 0).is_ok());

    let toks = vec![
        id("a"),
        pn(':'),
        pn('&'),
        id("Vec"),
        pn('<'),
        pn('&'),
        id("i32"),
        pn('>'),
    ];
    let mut pos = 0;
    assert!(require_fn_arg(&toks, &mut pos, 0).is_ok());

    let toks = vec![
        id("a"),
        pn(':'),
        id("Box"),
        pn('<'),
        id("dyn"),
        id("PrimInt"),
        pn('>'),
    ];
    let mut pos = 0;
    assert!(require_fn_arg(&toks, &mut pos, 0).is_ok());

    let toks = vec![
        id("a"),
        pn(':'),
        id("HashMap"),
        pn('<'),
        id("String"),
        pn(','),
        id("Box"),
        pn('<'),
        id("dyn"),
        id("PrimInt"),
        pn('>'),
        pn('>'),
    ];
    let mut pos = 0;
    assert!(require_fn_arg(&toks, &mut pos, 0).is_ok());

    // Negative examples.
    let toks: Vec<Tok> = vec![];
    let mut pos = 0;
    assert!(require_fn_arg(&toks, &mut pos, 0).is_err());

    let toks = vec![id("val"), pn(':')];
    let mut pos = 0;
    assert!(require_fn_arg(&toks, &mut pos, 0).is_err());

    let toks = vec![id("HashMap"), pn('<'), id("String")];
    let mut pos = 0;
    assert!(require_fn_arg(&toks, &mut pos, 0).is_err());
}

#[test]
fn require_fn_signature_test() {
    // A basic signature.
    let toks = vec![
        id("fn"),
        id("min_max"),
        grp(
            Delim::Paren,
            vec![
                id("val"),
                pn(':'),
                id("i32"),
                pn(','),
                id("min"),
                pn(':'),
                pn('&'),
                id("i32"),
                pn(','),
                id("max"),
                pn(':'),
                pn('&'),
                id("i32"),
            ],
        ),
        pn(';'),
    ];
    let mut pos = 0;
    let result_signature = require_fn_signature(&toks, &mut pos, true, 0).unwrap();
    assert_eq!(result_signature.fn_name.text, "min_max");

    // A `pub` qualifier.
    let toks = vec![
        id("pub"),
        id("fn"),
        id("min_max"),
        grp(
            Delim::Paren,
            vec![
                id("val"),
                pn(':'),
                id("i32"),
                pn(','),
                id("min"),
                pn(':'),
                pn('&'),
                id("i32"),
                pn(','),
                id("max"),
                pn(':'),
                pn('&'),
                id("i32"),
            ],
        ),
        pn('-'),
        pn('>'),
        id("Result"),
        pn('<'),
        id("i32"),
        pn(','),
        id("String"),
        pn('>'),
        pn(';'),
    ];
    let mut pos = 0;
    let result_signature = require_fn_signature(&toks, &mut pos, true, 0).unwrap();
    let quals = result_signature.pub_qualifiers;
    let mut qpos = 0;
    require_keyword(&quals, &mut qpos, Kw::PubKw, 0).unwrap();
    assert_eq!(qpos, quals.len());

    // A `pub(crate)` qualifier.
    let toks = vec![
        id("pub"),
        grp(Delim::Paren, vec![id("crate")]),
        id("fn"),
        id("min_max"),
        grp(
            Delim::Paren,
            vec![
                id("val"),
                pn(':'),
                id("i32"),
                pn(','),
                id("min"),
                pn(':'),
                pn('&'),
                id("i32"),
                pn(','),
                id("max"),
                pn(':'),
                pn('&'),
                id("i32"),
            ],
        ),
        pn('-'),
        pn('>'),
        id("Result"),
        pn('<'),
        id("i32"),
        pn(','),
        id("String"),
        pn('>'),
        pn(';'),
    ];
    let mut pos = 0;
    let result_signature = require_fn_signature(&toks, &mut pos, true, 0).unwrap();
    let quals = result_signature.pub_qualifiers;
    let mut qpos = 0;
    require_keyword(&quals, &mut qpos, Kw::PubKw, 0).unwrap();
    require_group(&quals, &mut qpos, Delim::Paren, 0, ErrorKind::ExpectedVisQualifier).unwrap();
    assert_eq!(qpos, quals.len());

    // Simple generics.
    let toks = vec![
        id("fn"),
        id("min_max"),
        pn('<'),
        id("A"),
        pn(','),
        id("B"),
        pn('>'),
        grp(
            Delim::Paren,
            vec![
                id("val"),
                pn(':'),
                id("i32"),
                pn(','),
                id("min"),
                pn(':'),
                pn('&'),
                id("A"),
                pn(','),
                id("max"),
                pn(':'),
                pn('&'),
                id("B"),
            ],
        ),
        pn('-'),
        pn('>'),
        id("Result"),
        pn('<'),
        id("A"),
        pn(','),
        id("String"),
        pn('>'),
        pn(';'),
    ];
    let mut pos = 0;
    let result_signature = require_fn_signature(&toks, &mut pos, true, 0).unwrap();
    let gens = result_signature.generics;
    let mut gpos = 0;
    require_ident(&gens, &mut gpos, 0).unwrap();
    require_punct(&gens, &mut gpos, ',', 0).unwrap();
    require_ident(&gens, &mut gpos, 0).unwrap();
    assert_eq!(gpos, gens.len());

    // Nested generics inside bounds.
    let toks = vec![
        id("fn"),
        id("min_max"),
        pn('<'),
        id("A"),
        pn(':'),
        id("From"),
        pn('<'),
        id("i32"),
        pn('>'),
        pn(','),
        id("B"),
        pn('>'),
        grp(
            Delim::Paren,
            vec![
                id("val"),
                pn(':'),
                id("i32"),
                pn(','),
                id("min"),
                pn(':'),
                pn('&'),
                id("A"),
                pn(','),
                id("max"),
                pn(':'),
                pn('&'),
                id("B"),
            ],
        ),
        pn('-'),
        pn('>'),
        id("Result"),
        pn('<'),
        id("A"),
        pn(','),
        id("String"),
        pn('>'),
        pn(';'),
    ];
    let mut pos = 0;
    let result_signature = require_fn_signature(&toks, &mut pos, true, 0).unwrap();
    let gens = result_signature.generics;
    let mut gpos = 0;
    require_ident(&gens, &mut gpos, 0).unwrap();
    require_punct(&gens, &mut gpos, ':', 0).unwrap();
    require_ident(&gens, &mut gpos, 0).unwrap();
    require_angle_group(&gens, &mut gpos, 0, ErrorKind::ExpectingAngleBrackets).unwrap();
    require_punct(&gens, &mut gpos, ',', 0).unwrap();
    require_ident(&gens, &mut gpos, 0).unwrap();
    assert_eq!(gpos, gens.len());

    // All arguments carry their names.
    let toks = vec![
        id("fn"),
        id("min_max"),
        grp(
            Delim::Paren,
            vec![
                id("val"),
                pn(':'),
                id("i32"),
                pn(','),
                id("min"),
                pn(':'),
                pn('&'),
                id("i32"),
                pn(','),
                id("max"),
                pn(':'),
                pn('&'),
                id("i32"),
            ],
        ),
        pn(';'),
    ];
    let mut pos = 0;
    let result_signature = require_fn_signature(&toks, &mut pos, true, 0).unwrap();
    assert_eq!(result_signature.args.len(), 3);
    assert!(result_signature.args[0].arg_name.is_some());

    // Anonymous arguments parse too.
    let toks = vec![
        id("fn"),
        id("min_max"),
        grp(
            Delim::Paren,
            vec![
                id("i32"),
                pn(','),
                pn('&'),
                id("i32"),
                pn(','),
                pn('&'),
                id("i32"),
            ],
        ),
        pn(';'),
    ];
    let mut pos = 0;
    let result_signature = require_fn_signature(&toks, &mut pos, true, 0).unwrap();
    assert_eq!(result_signature.args.len(), 3);
    assert!(result_signature.args[0].arg_name.is_none());

    // No arguments at all.
    let toks = vec![id("fn"), id("min_max"), grp(Delim::Paren, vec![]), pn(';')];
    let mut pos = 0;
    require_fn_signature(&toks, &mut pos, true, 0).unwrap();

    // A result clause.
    let toks = vec![
        id("fn"),
        id("min_max"),
        pn('<'),
        id("A"),
        pn('>'),
        grp(Delim::Paren, vec![]),
        pn('-'),
        pn('>'),
        id("Result"),
        pn('<'),
        id("A"),
        pn(','),
        id("String"),
        pn('>'),
        pn(';'),
    ];
    let mut pos = 0;
    let result_signature = require_fn_signature(&toks, &mut pos, true, 0).unwrap();
    let res = result_signature.result;
    let mut rpos = 0;
    require_ident(&res, &mut rpos, 0).unwrap();
    require_angle_group(&res, &mut rpos, 0, ErrorKind::ExpectingAngleBrackets).unwrap();
    assert_eq!(rpos, res.len());
}
