//! Numeric and character literal classification.

use vstd::prelude::*;

verus! {

/// What sort of literal a parsed value came from.
#[derive(Copy, Clone, PartialEq, Eq, Structural, Debug)]
pub enum Kind {
    Int,
    Byte,
    Char,
}

/// The radix a numeric literal was written in.
#[derive(Copy, Clone, PartialEq, Eq, Structural, Debug)]
pub enum Radix {
    Binary,
    Octal,
    Decimal,
    LowerHex,
    UpperHex,
}

} // verus!

use crate::errors::{ErrorKind, ErrorKindV, SyntaxError, SyntaxErrorV};
use crate::strings::string_push;
use crate::token::{Delim, Tok, TokV};
use vstd::string::StrSliceExecFns;

verus! {

/// A parsed literal value: the numeric value, its classification, the
/// textual suffix, the digit width, the radix, and the source location.
#[derive(Debug)]
pub struct Value {
    pub int: u64,
    pub kind: Kind,
    pub suffix: String,
    pub width: usize,
    pub radix: Radix,
    pub span: usize,
}

/// Mathematical model of a parsed literal value.
pub struct ValueV {
    pub int: u64,
    pub kind: Kind,
    pub suffix: Seq<char>,
    pub width: nat,
    pub radix: Radix,
    pub span: nat,
}

impl View for Value {
    type V = ValueV;

    open spec fn view(&self) -> ValueV {
        ValueV {
            int: self.int,
            kind: self.kind,
            suffix: self.suffix@,
            width: self.width as nat,
            radix: self.radix,
            span: self.span as nat,
        }
    }
}

/// A validated numeric range between two literals of one kind.
#[derive(Debug)]
pub struct Range {
    pub begin: u64,
    pub end: u64,
    pub inclusive: bool,
    pub kind: Kind,
    pub suffix: String,
    pub width: usize,
    pub radix: Radix,
}

/// Mathematical model of a validated numeric range.
pub struct RangeV {
    pub begin: u64,
    pub end: u64,
    pub inclusive: bool,
    pub kind: Kind,
    pub suffix: Seq<char>,
    pub width: nat,
    pub radix: Radix,
}

impl View for Range {
    type V = RangeV;

    open spec fn view(&self) -> RangeV {
        RangeV {
            begin: self.begin,
            end: self.end,
            inclusive: self.inclusive,
            kind: self.kind,
            suffix: self.suffix@,
            width: self.width as nat,
            radix: self.radix,
        }
    }
}

/// The validation of a range between two parsed literals: the kinds
/// must agree; an absent suffix defers to the other end and differing
/// suffixes are refused; mixed-case hexadecimal radixes settle on
/// upper case, any other mismatch is refused.  The digit width is the
/// narrower of the two.
pub open spec fn validate_range_spec(b: ValueV, e: ValueV, inclusive: bool) -> Result<
    RangeV,
    SyntaxErrorV,
> {
    if b.kind != e.kind {
        Err(SyntaxErrorV { kind: ErrorKindV::ExpectedLiteralKind(b.kind), span: e.span })
    } else {
        let suffix = if b.suffix.len() == 0 {
            Ok(e.suffix)
        } else if e.suffix.len() == 0 || b.suffix == e.suffix {
            Ok(b.suffix)
        } else {
            Err(SyntaxErrorV { kind: ErrorKindV::ExpectedSuffix(b.suffix), span: e.span })
        };
        match suffix {
            Err(err) => Err(err),
            Ok(sfx) => {
                let radix = if b.radix == e.radix {
                    Ok(b.radix)
                } else if (b.radix == Radix::LowerHex && e.radix == Radix::UpperHex) || (b.radix
                    == Radix::UpperHex && e.radix == Radix::LowerHex) {
                    Ok(Radix::UpperHex)
                } else {
                    Err(SyntaxErrorV { kind: ErrorKindV::ExpectedRadixLiteral(b.radix), span: e.span })
                };
                match radix {
                    Err(err) => Err(err),
                    Ok(rdx) => Ok(
                        RangeV {
                            begin: b.int,
                            end: e.int,
                            inclusive,
                            kind: b.kind,
                            suffix: sfx,
                            width: if b.width <= e.width {
                                b.width
                            } else {
                                e.width
                            },
                            radix: rdx,
                        },
                    ),
                }
            },
        }
    }
}

/// Validates the range between two parsed literals.
pub fn validate_range(begin: Value, end: Value, inclusive: bool) -> (r: Result<
    Range,
    SyntaxError,
>)
    ensures
        ({
            let out = validate_range_spec(begin@, end@, inclusive);
            match out {
                Ok(rng) => r matches Ok(v) && v@ == rng,
                Err(e0) => r matches Err(e) && e@ == e0,
            }
        }),
{
    if begin.kind != end.kind {
        return Err(
            SyntaxError { kind: ErrorKind::ExpectedLiteralKind(begin.kind), span: end.span },
        );
    }
    let suffix: String = if begin.suffix.as_str().unicode_len() == 0 {
        end.suffix
    } else if end.suffix.as_str().unicode_len() == 0 || begin.suffix == end.suffix {
        begin.suffix
    } else {
        return Err(
            SyntaxError { kind: ErrorKind::ExpectedSuffix(begin.suffix), span: end.span },
        );
    };
    let radix: Radix = if begin.radix == end.radix {
        begin.radix
    } else if (begin.radix == Radix::LowerHex && end.radix == Radix::UpperHex) || (begin.radix
        == Radix::UpperHex && end.radix == Radix::LowerHex) {
        Radix::UpperHex
    } else {
        return Err(
            SyntaxError { kind: ErrorKind::ExpectedRadixLiteral(begin.radix), span: end.span },
        );
    };
    let width = if begin.width <= end.width {
        begin.width
    } else {
        end.width
    };
    Ok(
        Range {
            begin: begin.int,
            end: end.int,
            inclusive,
            kind: begin.kind,
            suffix,
            width,
            radix,
        },
    )
}

} // verus!


verus! {

/// The numeric value of one digit character.
pub open spec fn digit_of(c: char) -> int {
    if ('0' as u32) <= (c as u32) && (c as u32) <= ('9' as u32) {
        (c as u32) as int - ('0' as u32) as int
    } else if ('a' as u32) <= (c as u32) && (c as u32) <= ('f' as u32) {
        (c as u32) as int - ('a' as u32) as int + 10
    } else if ('A' as u32) <= (c as u32) && (c as u32) <= ('F' as u32) {
        (c as u32) as int - ('A' as u32) as int + 10
    } else {
        0
    }
}

/// The numeric value of a digit string in the given radix.
pub open spec fn digits_val(ds: Seq<char>, rn: int) -> int
    decreases ds.len(),
{
    if ds.len() == 0 {
        0
    } else {
        digits_val(ds.drop_last(), rn) * rn + digit_of(ds.last())
    }
}

/// Appending digits never lowers the value, for a radix of at least one
/// and non-negative digits.
pub proof fn lemma_digits_val_mono(ds: Seq<char>, rn: int, k: int)
    requires
        rn >= 1,
        0 <= k <= ds.len(),
        forall|i: int| 0 <= i < ds.len() ==> digit_of(#[trigger] ds[i]) >= 0,
    ensures
        digits_val(ds.take(k), rn) <= digits_val(ds, rn),
        digits_val(ds, rn) >= 0,
    decreases ds.len(),
{
    if ds.len() > 0 {
        let t = ds.drop_last();
        assert(forall|i: int| 0 <= i < t.len() ==> #[trigger] t[i] == ds[i]);
        if k == ds.len() {
            assert(ds.take(k) =~= ds);
            lemma_digits_val_mono(t, rn, t.len() as int);
            assert(digits_val(ds, rn) == digits_val(t, rn) * rn + digit_of(ds.last()));
            assert(digits_val(t, rn) * rn >= digits_val(t, rn)) by (nonlinear_arith)
                requires
                    rn >= 1,
                    digits_val(t, rn) >= 0,
;
        } else {
            lemma_digits_val_mono(t, rn, k);
            assert(ds.take(k) =~= t.take(k));
            assert(digits_val(ds, rn) == digits_val(t, rn) * rn + digit_of(ds.last()));
            assert(digits_val(t, rn) * rn >= digits_val(t, rn)) by (nonlinear_arith)
                requires
                    rn >= 1,
                    digits_val(t, rn) >= 0,
;
        }
    }
}

/// One step of scanning a numeric literal's characters from index `i`:
/// underscores are skipped, digits collect (an upper-case hexadecimal
/// digit upgrades a lower-case-hexadecimal radix), a decimal point
/// refuses the literal, and the first other character starts the
/// suffix — which must come after at least one digit.
pub open spec fn lit_scan(s: Seq<char>, i: int, radix: Radix, rn: int, digits: Seq<char>) -> Option<
    (Seq<char>, Seq<char>, Radix),
>
    decreases s.len() - i,
{
    if i < 0 || i >= s.len() {
        Some((digits, Seq::empty(), radix))
    } else {
        let c = s[i];
        if c == '_' {
            lit_scan(s, i + 1, radix, rn, digits)
        } else if ('0' as u32) <= (c as u32) && (c as u32) <= ('9' as u32) {
            lit_scan(s, i + 1, radix, rn, digits.push(c))
        } else if ('A' as u32) <= (c as u32) && (c as u32) <= ('F' as u32) && radix
            == Radix::LowerHex {
            lit_scan(s, i + 1, Radix::UpperHex, rn, digits.push(c))
        } else if ((('a' as u32) <= (c as u32) && (c as u32) <= ('f' as u32)) || (('A' as u32) <= (
        c as u32) && (c as u32) <= ('F' as u32))) && rn == 16 {
            lit_scan(s, i + 1, radix, rn, digits.push(c))
        } else if c == '.' {
            None
        } else if digits.len() == 0 {
            None
        } else {
            Some((digits, s.skip(i), radix))
        }
    }
}

/// The classification of a literal's text: a byte literal, a character
/// literal, or a number with an optional radix prefix and suffix; a
/// literal that scans badly or holds a value above the largest
/// unsigned 64-bit number is refused.
pub open spec fn parse_literal_spec(s: Seq<char>) -> Option<(u64, Kind, Seq<char>, nat, Radix)> {
    if s.len() == 4 && s[0] == 'b' && s[1] == '\'' && s[3] == '\'' {
        Some(((s[2] as u32) as u64, Kind::Byte, Seq::empty(), 0, Radix::Decimal))
    } else if s.len() == 3 && s[0] == '\'' && s[2] == '\'' {
        Some(((s[1] as u32) as u64, Kind::Char, Seq::empty(), 0, Radix::Decimal))
    } else {
        let has_prefix = s.len() >= 2 && s[0] == '0';
        let (radix0, rn, start) = if has_prefix && s[1] == 'b' {
            (Radix::Binary, 2int, 2int)
        } else if has_prefix && s[1] == 'o' {
            (Radix::Octal, 8int, 2int)
        } else if has_prefix && s[1] == 'x' {
            (Radix::LowerHex, 16int, 2int)
        } else if has_prefix && s[1] == 'X' {
            (Radix::UpperHex, 16int, 2int)
        } else {
            (Radix::Decimal, 10int, 0int)
        };
        match lit_scan(s, start, radix0, rn, Seq::empty()) {
            None => None,
            Some((digits, suffix, radixf)) => if digits.len() == 0 {
                None
            } else if digits_val(digits, rn) > u64::MAX {
                None
            } else {
                Some(
                    (
                        digits_val(digits, rn) as u64,
                        Kind::Int,
                        suffix,
                        digits.len(),
                        radixf,
                    ),
                )
            },
        }
    }
}

/// Classifies a literal's text and parses its numeric value.  A leading
/// underscore cannot occur in a literal's text and is left out.
#[verifier::loop_isolation(false)]
#[verifier::rlimit(60)]
pub fn parse_literal(text: &String, span: usize) -> (r: Option<Value>)
    requires
        text@.len() > 0 ==> text@[0] != '_',
    ensures
        ({
            match parse_literal_spec(text@) {
                None => r is None,
                Some((int0, kind, suffix, width, radix)) => r matches Some(v) && v@.int == int0
                    && v@.kind == kind && v@.suffix == suffix && v@.width == width && v@.radix
                    == radix && v@.span == span as nat,
            }
        }),
{
    let st = text.as_str();
    let n = st.unicode_len();

    // A byte literal: `b` then a quoted single-byte character.
    if n == 4 && st.get_char(0) == 'b' && st.get_char(1) == '\'' && st.get_char(3) == '\'' {
        let c = st.get_char(2);
        return Option::Some(
            Value {
                int: (c as u32) as u64,
                kind: Kind::Byte,
                suffix: String::new(),
                width: 0,
                radix: Radix::Decimal,
                span,
            },
        );
    }
    // A character literal: one quoted character.
    if n == 3 && st.get_char(0) == '\'' && st.get_char(2) == '\'' {
        let c = st.get_char(1);
        return Option::Some(
            Value {
                int: (c as u32) as u64,
                kind: Kind::Char,
                suffix: String::new(),
                width: 0,
                radix: Radix::Decimal,
                span,
            },
        );
    }

    // The radix prefix, when present.
    let has_prefix = n >= 2 && st.get_char(0) == '0';
    let (mut radix, rn, start): (Radix, u64, usize) = if has_prefix && st.get_char(1) == 'b' {
        (Radix::Binary, 2, 2)
    } else if has_prefix && st.get_char(1) == 'o' {
        (Radix::Octal, 8, 2)
    } else if has_prefix && st.get_char(1) == 'x' {
        (Radix::LowerHex, 16, 2)
    } else if has_prefix && st.get_char(1) == 'X' {
        (Radix::UpperHex, 16, 2)
    } else {
        (Radix::Decimal, 10, 0)
    };
    let ghost radix0 = radix;

    // The digit run, underscores skipped, stopped by the suffix.
    let mut digits = String::new();
    let mut suffix = String::new();
    let mut i: usize = start;
    let ghost sv = text@;
    proof {
        assert(digits@ =~= Seq::<char>::empty());
    }
    let mut stopped = false;
    while i < n && !stopped
        invariant
            start <= i <= n,
            n == sv.len(),
            st@ == sv,
            !stopped ==> lit_scan(sv, start as int, radix0, rn as int, Seq::empty()) == lit_scan(
                sv,
                i as int,
                radix,
                rn as int,
                digits@,
            ),
            stopped ==> ({
                match lit_scan(sv, start as int, radix0, rn as int, Seq::empty()) {
                    None => false,
                    Some(o) => o.0 == digits@ && o.1 == suffix@ && o.2 == radix,
                }
            }),
            !stopped ==> suffix@ == Seq::<char>::empty(),
        decreases n - i, (if stopped { 0int } else { 1int }),
    {
        let c = st.get_char(i);
        if c == '_' {
            i += 1;
        } else if c >= '0' && c <= '9' {
            string_push(&mut digits, c);
            i += 1;
        } else if c >= 'A' && c <= 'F' && matches!(radix, Radix::LowerHex) {
            string_push(&mut digits, c);
            radix = Radix::UpperHex;
            i += 1;
        } else if ((c >= 'a' && c <= 'f') || (c >= 'A' && c <= 'F')) && rn == 16 {
            string_push(&mut digits, c);
            i += 1;
        } else if c == '.' {
            return Option::None;
        } else if digits.as_str().unicode_len() == 0 {
            return Option::None;
        } else {
            suffix = st.substring_char(i, n).to_owned();
            proof {
                assert(suffix@ =~= sv.skip(i as int));
            }
            stopped = true;
        }
    }

    // The numeric value, refused above the largest unsigned 64-bit
    // number, exactly as a radix conversion would.
    let dl = digits.as_str().unicode_len();
    if dl == 0 {
        return Option::None;
    }
    let ghost dsv = digits@;
    let mut val: u64 = 0;
    let mut k: usize = 0;
    proof {
        assert(dsv.take(0) =~= Seq::<char>::empty());
        lemma_digits_val_mono(dsv, rn as int, 0);
        assert(forall|j: int|
            0 <= j < dsv.len() ==> digit_of(#[trigger] dsv[j]) >= 0);
    }
    while k < dl
        invariant
            k <= dl,
            dl == dsv.len(),
            digits@ == dsv,
            rn == 2 || rn == 8 || rn == 10 || rn == 16,
            val as int == digits_val(dsv.take(k as int), rn as int),
        decreases dl - k,
    {
        let c = digits.as_str().get_char(k);
        let d: u64 = if c >= '0' && c <= '9' {
            (c as u32 - '0' as u32) as u64
        } else if c >= 'a' && c <= 'f' {
            (c as u32 - 'a' as u32) as u64 + 10
        } else if c >= 'A' && c <= 'F' {
            (c as u32 - 'A' as u32) as u64 + 10
        } else {
            0
        };
        let stepped = match val.checked_mul(rn) {
            Option::Some(m) => m.checked_add(d),
            Option::None => Option::None,
        };
        match stepped {
            Option::Some(v2) => {
                proof {
                    assert(dsv.take(k + 1).drop_last() =~= dsv.take(k as int));
                    assert(dsv.take(k + 1).last() == dsv[k as int]);
                    assert(d as int == digit_of(dsv[k as int]));
                }
                val = v2;
            },
            Option::None => {
                proof {
                    assert(dsv.take(k + 1).drop_last() =~= dsv.take(k as int));
                    assert(dsv.take(k + 1).last() == dsv[k as int]);
                    assert(d as int == digit_of(dsv[k as int]));
                    assert(digits_val(dsv.take(k + 1), rn as int) > u64::MAX);
                    lemma_digits_val_mono(dsv, rn as int, k + 1);
                    assert(digits_val(dsv.take(k + 1), rn as int) <= digits_val(
                        dsv,
                        rn as int,
                    )) by {
                        lemma_digits_val_take_mono(dsv, rn as int, k + 1);
                    }
                }
                return Option::None;
            },
        }
        k += 1;
    }
    proof {
        assert(dsv.take(dl as int) =~= dsv);
    }
    Option::Some(Value { int: val, kind: Kind::Int, suffix, width: dl, radix, span })
}

/// A digit prefix values no more than the whole digit string.
pub proof fn lemma_digits_val_take_mono(ds: Seq<char>, rn: int, k: int)
    requires
        rn >= 1,
        0 <= k <= ds.len(),
        forall|i: int| 0 <= i < ds.len() ==> digit_of(#[trigger] ds[i]) >= 0,
    ensures
        digits_val(ds.take(k), rn) <= digits_val(ds, rn),
    decreases ds.len() - k,
{
    if k < ds.len() {
        assert(ds.take(k + 1).drop_last() =~= ds.take(k));
        assert(ds.take(k + 1).last() == ds[k]);
        assert(digits_val(ds.take(k + 1), rn) == digits_val(ds.take(k), rn) * rn + digit_of(
            ds[k],
        ));
        lemma_digits_val_mono(ds.take(k), rn, k);
        assert(digits_val(ds.take(k), rn) * rn >= digits_val(ds.take(k), rn)) by (nonlinear_arith)
            requires
                rn >= 1,
                digits_val(ds.take(k), rn) >= 0,
;
        lemma_digits_val_take_mono(ds, rn, k + 1);
        assert(ds.take(ds.len() as int) =~= ds);
    } else {
        assert(ds.take(k) =~= ds);
    }
}

} // verus!


verus! {

/// Whether every literal reachable by unwrapping invisible one-token
/// groups is free of a leading underscore, as a literal's text always
/// is.
pub open spec fn value_target_ok(t: TokV) -> bool
    decreases t,
{
    match t {
        TokV::Group { delim, toks, span } => if delim == Delim::Invisible && toks.len() == 1 {
            value_target_ok(toks[0])
        } else {
            true
        },
        TokV::Lit { text, span } => text.len() > 0 ==> text[0] != '_',
        _ => true,
    }
}

/// The value a token yields: invisible one-token groups unwrap, a
/// literal token parses, and anything else is no integer.  A group with
/// a visible delimiter, an empty invisible group, or one holding
/// several tokens is refused at the group itself.
pub open spec fn value_of_tok(t: TokV) -> Result<(u64, Kind, Seq<char>, nat, Radix, nat), SyntaxErrorV>
    decreases t,
{
    match t {
        TokV::Group { delim, toks, span } => if delim == Delim::Invisible && toks.len() == 1 {
            value_of_tok(toks[0])
        } else {
            Err(SyntaxErrorV { kind: ErrorKindV::ExpectedInteger, span })
        },
        TokV::Lit { text, span } => match parse_literal_spec(text) {
            Some((int0, kind, suffix, width, radix)) => Ok((int0, kind, suffix, width, radix, span)),
            None => Err(
                SyntaxErrorV { kind: ErrorKindV::ExpectedUnsuffixedIntLiteral, span },
            ),
        },
        _ => Err(SyntaxErrorV { kind: ErrorKindV::ExpectedInteger, span: crate::token::tok_span(t) }),
    }
}

/// Evaluates one token to a literal value, unwrapping invisible
/// one-token groups.
#[verifier::loop_isolation(false)]
fn value_of(t: &Tok) -> (r: Result<Value, SyntaxError>)
    requires
        value_target_ok(t@),
    ensures
        ({
            match value_of_tok(t@) {
                Ok((int0, kind, suffix, width, radix, span)) => r matches Ok(v) && v@.int == int0
                    && v@.kind == kind && v@.suffix == suffix && v@.width == width && v@.radix
                    == radix && v@.span == span,
                Err(e0) => r matches Err(e) && e@ == e0,
            }
        }),
    decreases *t,
{
    match t {
        Tok::Group { delim, toks, span } => {
            proof {
                crate::token::lemma_toks_view(toks@);
            }
            if matches!(delim, Delim::Invisible) && toks.len() == 1 {
                proof {
                    assert(decreases_to!(*t => toks@[0]));
                    assert(crate::token::toks_view(toks@)[0] == toks@[0]@);
                }
                value_of(&toks[0])
            } else {
                Err(SyntaxError { kind: ErrorKind::ExpectedInteger, span: *span })
            }
        },
        Tok::Lit { text, span } => {
            match parse_literal(text, *span) {
                Option::Some(v) => Ok(v),
                Option::None => Err(
                    SyntaxError { kind: ErrorKind::ExpectedUnsuffixedIntLiteral, span: *span },
                ),
            }
        },
        Tok::Ident(id) => Err(
            SyntaxError { kind: ErrorKind::ExpectedInteger, span: id.span },
        ),
        Tok::Punct { span, .. } => Err(
            SyntaxError { kind: ErrorKind::ExpectedInteger, span: *span },
        ),
    }
}

/// Takes the token at the cursor and evaluates it to a literal value.
pub fn require_value(toks: &Vec<Tok>, pos: &mut usize, err_span: usize) -> (r: Result<
    Value,
    SyntaxError,
>)
    requires
        *old(pos) < toks@.len() ==> value_target_ok(crate::token::toks_view(toks@)[
            *old(pos) as int
        ]),
    ensures
        crate::cursor::at_end(crate::token::toks_view(toks@), *old(pos) as int) ==> (r matches Err(
            e,
        ) && e@ == (SyntaxErrorV { kind: ErrorKindV::UnexpectedEnd, span: err_span as nat })),
        !crate::cursor::at_end(crate::token::toks_view(toks@), *old(pos) as int) ==> ({
            let out = value_of_tok(crate::token::toks_view(toks@)[*old(pos) as int]);
            &&& *final(pos) == *old(pos) + 1
            &&& match out {
                Ok((int0, kind, suffix, width, radix, span)) => r matches Ok(v) && v@.int == int0
                    && v@.kind == kind && v@.suffix == suffix && v@.width == width && v@.radix
                    == radix && v@.span == span,
                Err(e0) => r matches Err(e) && e@ == e0,
            }
        }),
{
    proof {
        crate::token::lemma_toks_view(toks@);
    }
    let t = match crate::cursor::next_token(toks, pos, err_span) {
        Ok(t) => t,
        Err(e) => {
            return Err(e);
        },
    };
    value_of(&t)
}

} // verus!
