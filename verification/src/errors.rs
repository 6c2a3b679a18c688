//! The diagnostic type every stage of the compiler reports through.
//!
//! Each failure carries a category and a source-location tag.  The category
//! renders to the human-readable message the caller surfaces; a failed
//! compilation is also expressible as a token tree that invokes the host
//! language's compile-time error macro.

use vstd::prelude::*;
use vstd::string::StringExecFns;
use crate::literal::{Kind, Radix};
use crate::strings::string_push;
use crate::token::{Delim, Tok, TokV, toks_view};

verus! {

/// The keywords the grammar knows.
#[derive(Copy, Clone, PartialEq, Eq, Structural, Debug)]
pub enum Kw {
    TypeKw,
    RoleA,
    RoleB,
    FnKw,
    PubKw,
    ImplKw,
    ForKw,
    Commutative,
}

/// The text of a keyword.
pub open spec fn kw_text(kw: Kw) -> Seq<char> {
    match kw {
        Kw::TypeKw => "type"@,
        Kw::RoleA => "A"@,
        Kw::RoleB => "B"@,
        Kw::FnKw => "fn"@,
        Kw::PubKw => "pub"@,
        Kw::ImplKw => "impl"@,
        Kw::ForKw => "for"@,
        Kw::Commutative => "commutative"@,
    }
}

/// The text of a keyword, as a string slice.
pub fn kw_str(kw: Kw) -> (r: &'static str)
    ensures
        r@ == kw_text(kw),
{
    match kw {
        Kw::TypeKw => "type",
        Kw::RoleA => "A",
        Kw::RoleB => "B",
        Kw::FnKw => "fn",
        Kw::PubKw => "pub",
        Kw::ImplKw => "impl",
        Kw::ForKw => "for",
        Kw::Commutative => "commutative",
    }
}

/// The category of a diagnostic.
#[derive(Debug)]
pub enum ErrorKind {
    UnexpectedEnd,
    ExpectedIdent,
    ExpectedKeyword(Kw),
    ExpectedPunct(char),
    UnexpectedToken,
    UnexpectedTokens,
    ExpectedTypeIdent,
    ExpectedInteger,
    ExpectedUnsuffixedIntLiteral,
    ExpectedVisQualifier,
    ExpectedFunctionArgs,
    ExpectingAngleBrackets,
    ExpectedSquareBrackets,
    ExpectedCurlyBracesForFnImpls,
    ExpectedFnBody,
    ExpectedSquareBracesForTypeArray,
    ExpectedTypePairInAngleBrackets,
    EmptyMessage,
    MissingArgName,
    DuplicateFunction,
    VisibilityMismatch,
    MissingDynArgs,
    CommutativeTraitMismatch,
    ExpectedTypeOrListB,
    CantInferA,
    CantInferB,
    NoMatchingSignature,
    IncompleteImplementation,
    CantInferBoth,
    AmbiguousA,
    AmbiguousB,
    ExpectedAtLeastOneType,
    UnknownTypeMacro(String),
    ExpectedTypeMacroIdent,
    ExpectedLiteralKind(Kind),
    ExpectedSuffix(String),
    ExpectedRadixLiteral(Radix),
}

/// Mathematical model of a diagnostic category.
pub enum ErrorKindV {
    UnexpectedEnd,
    ExpectedIdent,
    ExpectedKeyword(Kw),
    ExpectedPunct(char),
    UnexpectedToken,
    UnexpectedTokens,
    ExpectedTypeIdent,
    ExpectedInteger,
    ExpectedUnsuffixedIntLiteral,
    ExpectedVisQualifier,
    ExpectedFunctionArgs,
    ExpectingAngleBrackets,
    ExpectedSquareBrackets,
    ExpectedCurlyBracesForFnImpls,
    ExpectedFnBody,
    ExpectedSquareBracesForTypeArray,
    ExpectedTypePairInAngleBrackets,
    EmptyMessage,
    MissingArgName,
    DuplicateFunction,
    VisibilityMismatch,
    MissingDynArgs,
    CommutativeTraitMismatch,
    ExpectedTypeOrListB,
    CantInferA,
    CantInferB,
    NoMatchingSignature,
    IncompleteImplementation,
    CantInferBoth,
    AmbiguousA,
    AmbiguousB,
    ExpectedAtLeastOneType,
    UnknownTypeMacro(Seq<char>),
    ExpectedTypeMacroIdent,
    ExpectedLiteralKind(Kind),
    ExpectedSuffix(Seq<char>),
    ExpectedRadixLiteral(Radix),
}

impl View for ErrorKind {
    type V = ErrorKindV;

    open spec fn view(&self) -> ErrorKindV {
        match self {
            ErrorKind::UnexpectedEnd => ErrorKindV::UnexpectedEnd,
            ErrorKind::ExpectedIdent => ErrorKindV::ExpectedIdent,
            ErrorKind::ExpectedKeyword(kw) => ErrorKindV::ExpectedKeyword(*kw),
            ErrorKind::ExpectedPunct(ch) => ErrorKindV::ExpectedPunct(*ch),
            ErrorKind::UnexpectedToken => ErrorKindV::UnexpectedToken,
            ErrorKind::UnexpectedTokens => ErrorKindV::UnexpectedTokens,
            ErrorKind::ExpectedTypeIdent => ErrorKindV::ExpectedTypeIdent,
            ErrorKind::ExpectedInteger => ErrorKindV::ExpectedInteger,
            ErrorKind::ExpectedUnsuffixedIntLiteral => ErrorKindV::ExpectedUnsuffixedIntLiteral,
            ErrorKind::ExpectedVisQualifier => ErrorKindV::ExpectedVisQualifier,
            ErrorKind::ExpectedFunctionArgs => ErrorKindV::ExpectedFunctionArgs,
            ErrorKind::ExpectingAngleBrackets => ErrorKindV::ExpectingAngleBrackets,
            ErrorKind::ExpectedSquareBrackets => ErrorKindV::ExpectedSquareBrackets,
            ErrorKind::ExpectedCurlyBracesForFnImpls => ErrorKindV::ExpectedCurlyBracesForFnImpls,
            ErrorKind::ExpectedFnBody => ErrorKindV::ExpectedFnBody,
            ErrorKind::ExpectedSquareBracesForTypeArray => ErrorKindV::ExpectedSquareBracesForTypeArray,
            ErrorKind::ExpectedTypePairInAngleBrackets => ErrorKindV::ExpectedTypePairInAngleBrackets,
            ErrorKind::EmptyMessage => ErrorKindV::EmptyMessage,
            ErrorKind::MissingArgName => ErrorKindV::MissingArgName,
            ErrorKind::DuplicateFunction => ErrorKindV::DuplicateFunction,
            ErrorKind::VisibilityMismatch => ErrorKindV::VisibilityMismatch,
            ErrorKind::MissingDynArgs => ErrorKindV::MissingDynArgs,
            ErrorKind::CommutativeTraitMismatch => ErrorKindV::CommutativeTraitMismatch,
            ErrorKind::ExpectedTypeOrListB => ErrorKindV::ExpectedTypeOrListB,
            ErrorKind::CantInferA => ErrorKindV::CantInferA,
            ErrorKind::CantInferB => ErrorKindV::CantInferB,
            ErrorKind::NoMatchingSignature => ErrorKindV::NoMatchingSignature,
            ErrorKind::IncompleteImplementation => ErrorKindV::IncompleteImplementation,
            ErrorKind::CantInferBoth => ErrorKindV::CantInferBoth,
            ErrorKind::AmbiguousA => ErrorKindV::AmbiguousA,
            ErrorKind::AmbiguousB => ErrorKindV::AmbiguousB,
            ErrorKind::ExpectedAtLeastOneType => ErrorKindV::ExpectedAtLeastOneType,
            ErrorKind::UnknownTypeMacro(id) => ErrorKindV::UnknownTypeMacro(id@),
            ErrorKind::ExpectedTypeMacroIdent => ErrorKindV::ExpectedTypeMacroIdent,
            ErrorKind::ExpectedLiteralKind(k) => ErrorKindV::ExpectedLiteralKind(*k),
            ErrorKind::ExpectedSuffix(s) => ErrorKindV::ExpectedSuffix(s@),
            ErrorKind::ExpectedRadixLiteral(r) => ErrorKindV::ExpectedRadixLiteral(*r),
        }
    }
}

/// One diagnostic: a category and the location it points at.
#[derive(Debug)]
pub struct SyntaxError {
    pub kind: ErrorKind,
    pub span: usize,
}

/// Mathematical model of a diagnostic.
pub struct SyntaxErrorV {
    pub kind: ErrorKindV,
    pub span: nat,
}

impl View for SyntaxError {
    type V = SyntaxErrorV;

    open spec fn view(&self) -> SyntaxErrorV {
        SyntaxErrorV { kind: self.kind@, span: self.span as nat }
    }
}

/// The human-readable message of a diagnostic category.
pub open spec fn kind_message(k: ErrorKindV) -> Seq<char> {
    match k {
        ErrorKindV::UnexpectedEnd => "unexpected end of input"@,
        ErrorKindV::ExpectedIdent => "expected ident"@,
        ErrorKindV::ExpectedKeyword(kw) => "expected `"@ + kw_text(kw) + "`"@,
        ErrorKindV::ExpectedPunct(ch) => "expected `"@ + seq![ch] + "`"@,
        ErrorKindV::UnexpectedToken => "unexpected token"@,
        ErrorKindV::UnexpectedTokens => "unexpected tokens"@,
        ErrorKindV::ExpectedTypeIdent => "expected type identifier"@,
        ErrorKindV::ExpectedInteger => "expected integer"@,
        ErrorKindV::ExpectedUnsuffixedIntLiteral => "expected unsuffixed integer literal"@,
        ErrorKindV::ExpectedVisQualifier => "expected visibility qualifier, e.g. \"(crate)\""@,
        ErrorKindV::ExpectedFunctionArgs => "expected function args"@,
        ErrorKindV::ExpectingAngleBrackets => "expecting angle brackets"@,
        ErrorKindV::ExpectedSquareBrackets => "expected square brackets"@,
        ErrorKindV::ExpectedCurlyBracesForFnImpls => "expected curly braces for fn impls"@,
        ErrorKindV::ExpectedFnBody => "expected fn body"@,
        ErrorKindV::ExpectedSquareBracesForTypeArray => "expected square braces for type array"@,
        ErrorKindV::ExpectedTypePairInAngleBrackets => "expected type pair in angle brackets"@,
        ErrorKindV::EmptyMessage => ""@,
        ErrorKindV::MissingArgName => "missing arg name.  anonymous args are not allowed"@,
        ErrorKindV::DuplicateFunction => "duplicate functions not allowed"@,
        ErrorKindV::VisibilityMismatch => "All functions must have the same visibility (e.g. 'pub')"@,
        ErrorKindV::MissingDynArgs => "function must have at least one dyn A and one dyn B argument"@,
        ErrorKindV::CommutativeTraitMismatch => "commutative attribute requires matching A and B traits"@,
        ErrorKindV::ExpectedTypeOrListB => "expected type or type list for 'B'"@,
        ErrorKindV::CantInferA => "can't infer position of A arg when reconciled with fn signature"@,
        ErrorKindV::CantInferB => "can't infer position of B arg when reconciled with fn signature"@,
        ErrorKindV::NoMatchingSignature => "matching fn signature not found"@,
        ErrorKindV::IncompleteImplementation => "incomplete implementation of declared functions"@,
        ErrorKindV::CantInferBoth => "can't infer position of both A and B args"@,
        ErrorKindV::AmbiguousA => "ambiguous signature; can't infer position of A arg"@,
        ErrorKindV::AmbiguousB => "ambiguous signature; can't infer position of B arg"@,
        ErrorKindV::ExpectedAtLeastOneType => "expected at least one type"@,
        ErrorKindV::UnknownTypeMacro(id) => "unknown type macro identifier, #"@ + id,
        ErrorKindV::ExpectedTypeMacroIdent => "expected special type macro identifier"@,
        ErrorKindV::ExpectedLiteralKind(kind) => match kind {
            Kind::Int => "expected integer literal"@,
            Kind::Byte => "expected byte literal"@,
            Kind::Char => "expected character literal"@,
        },
        ErrorKindV::ExpectedSuffix(s) => "expected suffix `"@ + s + "`"@,
        ErrorKindV::ExpectedRadixLiteral(radix) => match radix {
            Radix::Binary => "expected binary literal"@,
            Radix::Octal => "expected octal literal"@,
            Radix::Decimal => "expected base 10 literal"@,
            Radix::LowerHex => "expected hexadecimal literal"@,
            Radix::UpperHex => "expected hexadecimal literal"@,
        },
    }
}

impl SyntaxError {
    /// The human-readable message of this diagnostic.
    pub fn message(&self) -> (r: String)
        ensures
            r@ == kind_message(self@.kind),
    {
        match &self.kind {
            ErrorKind::UnexpectedEnd => String::from_str("unexpected end of input"),
            ErrorKind::ExpectedIdent => String::from_str("expected ident"),
            ErrorKind::ExpectedKeyword(kw) => {
                let mut s = String::from_str("expected `");
                s.append(kw_str(*kw));
                s.append("`");
                s
            },
            ErrorKind::ExpectedPunct(ch) => {
                let mut s = String::from_str("expected `");
                string_push(&mut s, *ch);
                s.append("`");
                s
            },
            ErrorKind::UnexpectedToken => String::from_str("unexpected token"),
            ErrorKind::UnexpectedTokens => String::from_str("unexpected tokens"),
            ErrorKind::ExpectedTypeIdent => String::from_str("expected type identifier"),
            ErrorKind::ExpectedInteger => String::from_str("expected integer"),
            ErrorKind::ExpectedUnsuffixedIntLiteral => String::from_str(
                "expected unsuffixed integer literal",
            ),
            ErrorKind::ExpectedVisQualifier => String::from_str(
                "expected visibility qualifier, e.g. \"(crate)\"",
            ),
            ErrorKind::ExpectedFunctionArgs => String::from_str("expected function args"),
            ErrorKind::ExpectingAngleBrackets => String::from_str("expecting angle brackets"),
            ErrorKind::ExpectedSquareBrackets => String::from_str("expected square brackets"),
            ErrorKind::ExpectedCurlyBracesForFnImpls => String::from_str(
                "expected curly braces for fn impls",
            ),
            ErrorKind::ExpectedFnBody => String::from_str("expected fn body"),
            ErrorKind::ExpectedSquareBracesForTypeArray => String::from_str(
                "expected square braces for type array",
            ),
            ErrorKind::ExpectedTypePairInAngleBrackets => String::from_str(
                "expected type pair in angle brackets",
            ),
            ErrorKind::EmptyMessage => String::from_str(""),
            ErrorKind::MissingArgName => String::from_str(
                "missing arg name.  anonymous args are not allowed",
            ),
            ErrorKind::DuplicateFunction => String::from_str("duplicate functions not allowed"),
            ErrorKind::VisibilityMismatch => String::from_str(
                "All functions must have the same visibility (e.g. 'pub')",
            ),
            ErrorKind::MissingDynArgs => String::from_str(
                "function must have at least one dyn A and one dyn B argument",
            ),
            ErrorKind::CommutativeTraitMismatch => String::from_str(
                "commutative attribute requires matching A and B traits",
            ),
            ErrorKind::ExpectedTypeOrListB => String::from_str(
                "expected type or type list for 'B'",
            ),
            ErrorKind::CantInferA => String::from_str(
                "can't infer position of A arg when reconciled with fn signature",
            ),
            ErrorKind::CantInferB => String::from_str(
                "can't infer position of B arg when reconciled with fn signature",
            ),
            ErrorKind::NoMatchingSignature => String::from_str("matching fn signature not found"),
            ErrorKind::IncompleteImplementation => String::from_str(
                "incomplete implementation of declared functions",
            ),
            ErrorKind::CantInferBoth => String::from_str(
                "can't infer position of both A and B args",
            ),
            ErrorKind::AmbiguousA => String::from_str(
                "ambiguous signature; can't infer position of A arg",
            ),
            ErrorKind::AmbiguousB => String::from_str(
                "ambiguous signature; can't infer position of B arg",
            ),
            ErrorKind::ExpectedAtLeastOneType => String::from_str("expected at least one type"),
            ErrorKind::UnknownTypeMacro(id) => {
                let mut s = String::from_str("unknown type macro identifier, #");
                s.append(id.as_str());
                s
            },
            ErrorKind::ExpectedTypeMacroIdent => String::from_str(
                "expected special type macro identifier",
            ),
            ErrorKind::ExpectedLiteralKind(kind) => match kind {
                Kind::Int => String::from_str("expected integer literal"),
                Kind::Byte => String::from_str("expected byte literal"),
                Kind::Char => String::from_str("expected character literal"),
            },
            ErrorKind::ExpectedSuffix(sfx) => {
                let mut s = String::from_str("expected suffix `");
                s.append(sfx.as_str());
                s.append("`");
                s
            },
            ErrorKind::ExpectedRadixLiteral(radix) => match radix {
                Radix::Binary => String::from_str("expected binary literal"),
                Radix::Octal => String::from_str("expected octal literal"),
                Radix::Decimal => String::from_str("expected base 10 literal"),
                Radix::LowerHex => String::from_str("expected hexadecimal literal"),
                Radix::UpperHex => String::from_str("expected hexadecimal literal"),
            },
        }
    }
}

/// Escaping of one character for a double-quoted string literal.
pub open spec fn escape_one(c: char) -> Seq<char> {
    if c == '"' || c == '\\' {
        seq!['\\', c]
    } else {
        seq![c]
    }
}

/// Escaping of a character sequence for a double-quoted string literal.
pub open spec fn escape_chars(s: Seq<char>) -> Seq<char>
    decreases s.len(),
{
    if s.len() == 0 {
        Seq::empty()
    } else {
        escape_one(s[0]) + escape_chars(s.drop_first())
    }
}

/// The source form of a double-quoted string literal with the given text.
pub open spec fn quoted_literal(s: Seq<char>) -> Seq<char> {
    seq!['"'] + escape_chars(s) + seq!['"']
}

proof fn lemma_escape_snoc(s: Seq<char>, c: char)
    ensures
        escape_chars(s.push(c)) == escape_chars(s) + escape_one(c),
    decreases s.len(),
{
    assert(s.push(c).len() == s.len() + 1);
    if s.len() == 0 {
        assert(s.push(c)[0] == c);
        assert(s.push(c).drop_first() =~= Seq::<char>::empty());
        assert(escape_chars(s.push(c)) == escape_one(c) + escape_chars(Seq::<char>::empty()));
        assert(escape_chars(s.push(c)) =~= escape_chars(s) + escape_one(c));
    } else {
        let t = s.drop_first();
        assert(s.push(c)[0] == s[0]);
        assert(s.push(c).drop_first() =~= t.push(c));
        lemma_escape_snoc(t, c);
        assert(escape_chars(s.push(c)) == escape_one(s[0]) + escape_chars(t.push(c)));
        assert(escape_chars(s.push(c)) == escape_one(s[0]) + (escape_chars(t) + escape_one(c)));
        assert(escape_chars(s) == escape_one(s[0]) + escape_chars(t));
        assert(escape_chars(s.push(c)) =~= escape_chars(s) + escape_one(c));
    }
}

/// The source form of a double-quoted string literal holding `text`.
pub fn quote_string(text: &String) -> (r: String)
    ensures
        r@ == quoted_literal(text@),
{
    let mut out = String::from_str("\"");
    let stext = text.as_str();
    let n = stext.unicode_len();
    let mut i: usize = 0;
    proof {
        reveal_strlit("\"");
        assert(text@.take(0) =~= Seq::empty());
        assert(escape_chars(text@.take(0)) =~= Seq::empty());
        assert(out@ =~= seq!['"'] + escape_chars(text@.take(0)));
    }
    while i < n
        invariant
            n == text@.len(),
            stext@ == text@,
            i <= n,
            out@ == seq!['"'] + escape_chars(text@.take(i as int)),
        decreases n - i,
    {
        let c = stext.get_char(i);
        if c == '"' || c == '\\' {
            string_push(&mut out, '\\');
        }
        string_push(&mut out, c);
        proof {
            lemma_escape_snoc(text@.take(i as int), text@[i as int]);
            assert(text@.take(i + 1) =~= text@.take(i as int).push(text@[i as int]));
            assert(out@ =~= seq!['"'] + escape_chars(text@.take(i + 1)));
        }
        i += 1;
    }
    string_push(&mut out, '"');
    proof {
        assert(text@.take(n as int) =~= text@);
        assert(out@ =~= quoted_literal(text@));
    }
    out
}

/// The token form of an invocation of the host language's compile-time
/// error macro, carrying the given diagnostic.
pub open spec fn compile_error_toks(e: SyntaxErrorV) -> Seq<TokV> {
    seq![
        TokV::Ident { text: "compile_error"@, span: e.span },
        TokV::Punct { ch: '!', span: e.span },
        TokV::Group {
            delim: Delim::Brace,
            toks: seq![TokV::Lit { text: quoted_literal(kind_message(e.kind)), span: e.span }],
            span: e.span,
        },
    ]
}

impl SyntaxError {
    /// The diagnostic as tokens: `compile_error ! { "message" }`.
    pub fn into_compile_error(self) -> (r: Vec<Tok>)
        ensures
            toks_view(r@) == compile_error_toks(self@),
    {
        let msg = self.message();
        let lit = quote_string(&msg);
        let mut inner: Vec<Tok> = Vec::new();
        inner.push(Tok::Lit { text: lit, span: self.span });
        let mut out: Vec<Tok> = Vec::new();
        out.push(Tok::Ident(crate::token::IdentTok {
            text: String::from_str("compile_error"),
            span: self.span,
        }));
        out.push(Tok::Punct { ch: '!', span: self.span });
        out.push(Tok::Group { delim: Delim::Brace, toks: inner, span: self.span });
        proof {
            crate::token::lemma_toks_view(inner@);
            crate::token::lemma_toks_view(out@);
            assert(toks_view(inner@) =~= compile_error_toks(self@)[2]->Group_toks);
            assert(toks_view(out@) =~= compile_error_toks(self@));
        }
        out
    }
}

} // verus!
