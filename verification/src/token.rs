//! The token model the compiler works on.
//!
//! A specification arrives as a tree of primitive tokens: identifiers,
//! punctuation, literals, and bracket-delimited groups.  Every token carries
//! a source location tag (a plain index; the caller keeps the table that
//! maps indices back to real source positions).  Location `0` stands for
//! the invocation site as a whole.

use vstd::prelude::*;
use vstd::string::StringExecFns;

verus! {

/// Delimiter of a token group.
#[derive(Clone, Copy, PartialEq, Eq, Structural, Debug)]
pub enum Delim {
    Paren,
    Brace,
    Bracket,
    /// An invisible delimiter, as around a macro expansion fragment.
    Invisible,
}

/// An identifier token: its text and its source location.
#[derive(Debug)]
pub struct IdentTok {
    pub text: String,
    pub span: usize,
}

/// One node of the token tree.
#[derive(Debug)]
pub enum Tok {
    Ident(IdentTok),
    Punct { ch: char, span: usize },
    Lit { text: String, span: usize },
    Group { delim: Delim, toks: Vec<Tok>, span: usize },
}

/// Mathematical model of an identifier token.
pub struct IdentV {
    pub text: Seq<char>,
    pub span: nat,
}

/// Mathematical model of a token tree node.
pub enum TokV {
    Ident { text: Seq<char>, span: nat },
    Punct { ch: char, span: nat },
    Lit { text: Seq<char>, span: nat },
    Group { delim: Delim, toks: Seq<TokV>, span: nat },
}

impl View for IdentTok {
    type V = IdentV;

    open spec fn view(&self) -> IdentV {
        IdentV { text: self.text@, span: self.span as nat }
    }
}

impl DeepView for IdentTok {
    type V = IdentV;

    open spec fn deep_view(&self) -> IdentV {
        self@
    }
}

/// The model of a token tree node, recursively.
pub open spec fn tok_view(t: Tok) -> TokV
    decreases t,
{
    match t {
        Tok::Ident(id) => TokV::Ident { text: id.text@, span: id.span as nat },
        Tok::Punct { ch, span } => TokV::Punct { ch, span: span as nat },
        Tok::Lit { text, span } => TokV::Lit { text: text@, span: span as nat },
        Tok::Group { delim, toks, span } => TokV::Group {
            delim,
            toks: toks_view(toks@),
            span: span as nat,
        },
    }
}

/// The model of a sequence of token tree nodes, elementwise.
pub open spec fn toks_view(ts: Seq<Tok>) -> Seq<TokV>
    decreases ts,
{
    if ts.len() == 0 {
        Seq::empty()
    } else {
        seq![tok_view(ts[0])] + toks_view(ts.drop_first())
    }
}

/// `toks_view` maps `tok_view` over the sequence, elementwise.
pub broadcast proof fn lemma_toks_view(ts: Seq<Tok>)
    ensures
        #[trigger] toks_view(ts).len() == ts.len(),
        forall|i: int| 0 <= i < ts.len() ==> toks_view(ts)[i] == tok_view(ts[i]),
    decreases ts.len(),
{
    if ts.len() > 0 {
        lemma_toks_view(ts.drop_first());
    }
}

impl View for Tok {
    type V = TokV;

    open spec fn view(&self) -> TokV {
        tok_view(*self)
    }
}

impl DeepView for Tok {
    type V = TokV;

    open spec fn deep_view(&self) -> TokV {
        tok_view(*self)
    }
}

/// The source location a token carries.
pub open spec fn tok_span(t: TokV) -> nat {
    match t {
        TokV::Ident { span, .. } => span,
        TokV::Punct { span, .. } => span,
        TokV::Lit { span, .. } => span,
        TokV::Group { span, .. } => span,
    }
}

/// A copy of a token vector, model-preserving.
pub fn clone_toks(v: &Vec<Tok>) -> (r: Vec<Tok>)
    ensures
        toks_view(r@) == toks_view(v@),
        r@.len() == v@.len(),
{
    let mut out: Vec<Tok> = Vec::new();
    let mut i: usize = 0;
    while i < v.len()
        invariant
            i <= v.len(),
            out@.len() == i as nat,
            forall|j: int| 0 <= j < i ==> out@[j]@ == v@[j]@,
        decreases v.len() - i,
    {
        out.push(v[i].clone());
        i += 1;
    }
    proof {
        lemma_toks_view(out@);
        lemma_toks_view(v@);
        assert(toks_view(out@) =~= toks_view(v@));
    }
    out
}

/// Equality of token trees up to source locations: same structure and
/// same text, wherever the tokens came from.
pub open spec fn tok_like(a: TokV, b: TokV) -> bool
    decreases a,
{
    match (a, b) {
        (TokV::Ident { text: ta, .. }, TokV::Ident { text: tb, .. }) => ta == tb,
        (TokV::Punct { ch: ca, .. }, TokV::Punct { ch: cb, .. }) => ca == cb,
        (TokV::Lit { text: ta, .. }, TokV::Lit { text: tb, .. }) => ta == tb,
        (TokV::Group { delim: da, toks: tsa, .. }, TokV::Group { delim: db, toks: tsb, .. }) => da
            == db && toks_like(tsa, tsb),
        _ => false,
    }
}

/// Equality of token sequences up to source locations, elementwise.
pub open spec fn toks_like(a: Seq<TokV>, b: Seq<TokV>) -> bool
    decreases a,
{
    if a.len() == 0 {
        b.len() == 0
    } else {
        b.len() > 0 && tok_like(a[0], b[0]) && toks_like(a.drop_first(), b.drop_first())
    }
}

/// `toks_like` holds exactly when the sequences have the same length and
/// agree elementwise.
pub broadcast proof fn lemma_toks_like(a: Seq<TokV>, b: Seq<TokV>)
    ensures
        #[trigger] toks_like(a, b) <==> (a.len() == b.len() && forall|i: int|
            0 <= i < a.len() ==> tok_like(a[i], b[i])),
    decreases a.len(),
{
    if a.len() > 0 {
        lemma_toks_like(a.drop_first(), b.drop_first());
        if a.len() == b.len() && forall|i: int| 0 <= i < a.len() ==> tok_like(a[i], b[i]) {
            assert(forall|i: int|
                0 <= i < a.drop_first().len() ==> tok_like(
                    a.drop_first()[i],
                    #[trigger] b.drop_first()[i],
                ));
        }
        if toks_like(a, b) {
            assert(forall|i: int|
                1 <= i < a.len() ==> tok_like(a[i], #[trigger] b[i]) == tok_like(
                    a.drop_first()[i - 1],
                    b.drop_first()[i - 1],
                ));
        }
    }
}

/// Whether `needle` occurs in `hay` starting at index `k`, up to source
/// locations.
pub open spec fn toks_match_at(hay: Seq<TokV>, needle: Seq<TokV>, k: int) -> bool {
    &&& 0 <= k
    &&& k + needle.len() <= hay.len()
    &&& forall|j: int| 0 <= j < needle.len() ==> tok_like(hay[k + j], needle[j])
}

/// Whether `needle` occurs somewhere in `hay` as a contiguous run, up to
/// source locations.
pub open spec fn contains_toks(hay: Seq<TokV>, needle: Seq<TokV>) -> bool {
    exists|k: int| toks_match_at(hay, needle, k)
}

impl Clone for IdentTok {
    fn clone(&self) -> (r: IdentTok)
        ensures
            r@ == self@,
    {
        IdentTok { text: self.text.clone(), span: self.span }
    }
}

impl Clone for Tok {
    #[verifier::loop_isolation(false)]
    fn clone(&self) -> (r: Tok)
        ensures
            r@ == self@,
        decreases *self,
    {
        match self {
            Tok::Ident(id) => Tok::Ident(id.clone()),
            Tok::Punct { ch, span } => Tok::Punct { ch: *ch, span: *span },
            Tok::Lit { text, span } => Tok::Lit { text: text.clone(), span: *span },
            Tok::Group { delim, toks, span } => {
                let mut copied: Vec<Tok> = Vec::new();
                let mut i: usize = 0;
                while i < toks.len()
                    invariant
                        i <= toks.len(),
                        copied@.len() == i as nat,
                        forall|j: int| 0 <= j < i ==> copied@[j]@ == toks@[j]@,
                    decreases toks.len() - i,
                {
                    proof {
                        assert(decreases_to!(*self => toks@[i as int]));
                    }
                    copied.push(toks[i].clone());
                    i += 1;
                }
                proof {
                    lemma_toks_view(copied@);
                    lemma_toks_view(toks@);
                    assert(toks_view(copied@) =~= toks_view(toks@));
                }
                Tok::Group { delim: *delim, toks: copied, span: *span }
            },
        }
    }
}

/// Executable test of `tok_like`.
#[verifier::loop_isolation(false)]
pub fn tok_like_exec(a: &Tok, b: &Tok) -> (r: bool)
    ensures
        r == tok_like(a@, b@),
    decreases *a,
{
    match (a, b) {
        (Tok::Ident(ia), Tok::Ident(ib)) => ia.text == ib.text,
        (Tok::Punct { ch: ca, .. }, Tok::Punct { ch: cb, .. }) => *ca == *cb,
        (Tok::Lit { text: ta, .. }, Tok::Lit { text: tb, .. }) => *ta == *tb,
        (Tok::Group { delim: da, toks: ta, .. }, Tok::Group { delim: db, toks: tb, .. }) => {
            proof {
                lemma_toks_view(ta@);
                lemma_toks_view(tb@);
                lemma_toks_like(toks_view(ta@), toks_view(tb@));
            }
            proof {
                assert(tok_like(a@, b@) == (*da == *db && toks_like(
                    toks_view(ta@),
                    toks_view(tb@),
                )));
            }
            if *da != *db {
                return false;
            }
            if ta.len() != tb.len() {
                return false;
            }
            let mut i: usize = 0;
            while i < ta.len()
                invariant
                    i <= ta.len(),
                    forall|j: int| 0 <= j < i ==> tok_like(tok_view(ta@[j]), tok_view(tb@[j])),
                decreases ta.len() - i,
            {
                proof {
                    assert(decreases_to!(*a => ta@[i as int]));
                }
                if !tok_like_exec(&ta[i], &tb[i]) {
                    proof {
                        assert(!tok_like(toks_view(ta@)[i as int], toks_view(tb@)[i as int]));
                        assert(!toks_like(toks_view(ta@), toks_view(tb@)));
                    }
                    return false;
                }
                i += 1;
            }
            true
        },
        _ => false,
    }
}

/// Executable search for a contiguous occurrence of `needle` in `hay`,
/// up to source locations.
#[verifier::loop_isolation(false)]
pub fn contains_toks_exec(hay: &Vec<Tok>, needle: &Vec<Tok>) -> (r: bool)
    ensures
        r == contains_toks(toks_view(hay@), toks_view(needle@)),
{
    proof {
        lemma_toks_view(hay@);
        lemma_toks_view(needle@);
    }
    let hlen = hay.len();
    let nlen = needle.len();
    if nlen > hlen {
        return false;
    }
    let mut k: usize = 0;
    while k <= hlen - nlen
        invariant
            k <= hlen - nlen + 1,
            forall|k2: int| 0 <= k2 < k ==> !toks_match_at(toks_view(hay@), toks_view(needle@), k2),
        decreases hlen - nlen + 1 - k,
    {
        let mut j: usize = 0;
        let mut all_match = true;
        while j < nlen
            invariant
                j <= nlen,
                k + nlen <= hlen,
                all_match ==> forall|j2: int|
                    0 <= j2 < j ==> tok_like(
                        toks_view(hay@)[k + j2],
                        #[trigger] toks_view(needle@)[j2],
                    ),
                !all_match ==> !toks_match_at(toks_view(hay@), toks_view(needle@), k as int),
            decreases nlen - j,
        {
            if !tok_like_exec(&hay[k + j], &needle[j]) {
                all_match = false;
                proof {
                    assert(!tok_like(toks_view(hay@)[k + j], toks_view(needle@)[j as int]));
                }
                j = nlen;
            } else {
                j += 1;
            }
        }
        if all_match {
            proof {
                assert(toks_match_at(toks_view(hay@), toks_view(needle@), k as int));
            }
            return true;
        }
        k += 1;
    }
    proof {
        assert forall|k2: int| !toks_match_at(toks_view(hay@), toks_view(needle@), k2) by {
            if 0 <= k2 && k2 + toks_view(needle@).len() <= toks_view(hay@).len() {
                assert(k2 < k);
            }
        }
    }
    false
}

/// The flat name a punctuation character contributes to a token string.
pub open spec fn punct_word(ch: char) -> Seq<char> {
    if ch == '&' {
        "_amp_"@
    } else if ch == '*' {
        "_star_"@
    } else if ch == '.' {
        "_dot_"@
    } else if ch == ',' {
        "_comma_"@
    } else if ch == '#' {
        "_hash_"@
    } else if ch == '@' {
        "_at_"@
    } else if ch == '!' {
        "_bang_"@
    } else if ch == '$' {
        "_dollar_"@
    } else if ch == '%' {
        "_pct_"@
    } else if ch == '^' {
        "_caret_"@
    } else if ch == '<' {
        "_lt_"@
    } else if ch == '>' {
        "_gt_"@
    } else {
        "_punct_"@
    }
}

/// The flat name an opening delimiter contributes to a token string.
pub open spec fn delim_open_word(d: Delim) -> Seq<char> {
    match d {
        Delim::Brace => "_open_curly_"@,
        Delim::Paren => "_open_paren_"@,
        Delim::Bracket => "_open_square_"@,
        Delim::Invisible => "_open_none_"@,
    }
}

/// The flat name a closing delimiter contributes to a token string.
pub open spec fn delim_close_word(d: Delim) -> Seq<char> {
    match d {
        Delim::Brace => "_close_curly_"@,
        Delim::Paren => "_close_paren_"@,
        Delim::Bracket => "_close_square_"@,
        Delim::Invisible => "_close_none_"@,
    }
}

/// The flat string form of one token: identifier and literal text stand
/// as they are, punctuation and delimiters become named words.
pub open spec fn tok_text(t: TokV) -> Seq<char>
    decreases t,
{
    match t {
        TokV::Ident { text, .. } => text,
        TokV::Lit { text, .. } => text,
        TokV::Punct { ch, .. } => punct_word(ch),
        TokV::Group { delim, toks, .. } => delim_open_word(delim) + toks_text(toks)
            + delim_close_word(delim),
    }
}

/// The flat string form of a token sequence.
pub open spec fn toks_text(ts: Seq<TokV>) -> Seq<char>
    decreases ts,
{
    if ts.len() == 0 {
        Seq::empty()
    } else {
        tok_text(ts[0]) + toks_text(ts.drop_first())
    }
}

/// Appending one token appends its text.
pub proof fn lemma_toks_text_snoc(ts: Seq<TokV>, t: TokV)
    ensures
        toks_text(ts.push(t)) == toks_text(ts) + tok_text(t),
    decreases ts.len(),
{
    assert(ts.push(t).len() == ts.len() + 1);
    if ts.len() == 0 {
        assert(ts.push(t)[0] == t);
        assert(ts.push(t).drop_first() =~= Seq::<TokV>::empty());
        assert(toks_text(ts.push(t)) == tok_text(t) + toks_text(Seq::<TokV>::empty()));
        assert(toks_text(ts.push(t)) =~= toks_text(ts) + tok_text(t));
    } else {
        let r = ts.drop_first();
        assert(ts.push(t)[0] == ts[0]);
        assert(ts.push(t).drop_first() =~= r.push(t));
        lemma_toks_text_snoc(r, t);
        assert(toks_text(ts.push(t)) == tok_text(ts[0]) + toks_text(r.push(t)));
        assert(toks_text(ts.push(t)) == tok_text(ts[0]) + (toks_text(r) + tok_text(t)));
        assert(toks_text(ts) == tok_text(ts[0]) + toks_text(r));
        assert(toks_text(ts.push(t)) =~= toks_text(ts) + tok_text(t));
    }
}

fn punct_word_exec(ch: char) -> (r: &'static str)
    ensures
        r@ == punct_word(ch),
{
    if ch == '&' {
        "_amp_"
    } else if ch == '*' {
        "_star_"
    } else if ch == '.' {
        "_dot_"
    } else if ch == ',' {
        "_comma_"
    } else if ch == '#' {
        "_hash_"
    } else if ch == '@' {
        "_at_"
    } else if ch == '!' {
        "_bang_"
    } else if ch == '$' {
        "_dollar_"
    } else if ch == '%' {
        "_pct_"
    } else if ch == '^' {
        "_caret_"
    } else if ch == '<' {
        "_lt_"
    } else if ch == '>' {
        "_gt_"
    } else {
        "_punct_"
    }
}

/// The flat string form of one token.
#[verifier::loop_isolation(false)]
pub fn tok_text_exec(t: &Tok) -> (r: String)
    ensures
        r@ == tok_text(t@),
    decreases *t,
{
    match t {
        Tok::Ident(id) => id.text.clone(),
        Tok::Lit { text, .. } => text.clone(),
        Tok::Punct { ch, .. } => {
            let w = punct_word_exec(*ch);
            String::from_str(w)
        },
        Tok::Group { delim, toks, .. } => {
            let mut s = match delim {
                Delim::Brace => String::from_str("_open_curly_"),
                Delim::Paren => String::from_str("_open_paren_"),
                Delim::Bracket => String::from_str("_open_square_"),
                Delim::Invisible => String::from_str("_open_none_"),
            };
            proof {
                lemma_toks_view(toks@);
                assert(toks_view(toks@).take(0) =~= Seq::<TokV>::empty());
                assert(toks_text(toks_view(toks@).take(0)) =~= Seq::<char>::empty());
            }
            let mut i: usize = 0;
            while i < toks.len()
                invariant
                    i <= toks.len(),
                    s@ == delim_open_word(*delim) + toks_text(toks_view(toks@).take(i as int)),
                decreases toks.len() - i,
            {
                proof {
                    assert(decreases_to!(*t => toks@[i as int]));
                }
                let piece = tok_text_exec(&toks[i]);
                s.append(piece.as_str());
                proof {
                    lemma_toks_text_snoc(toks_view(toks@).take(i as int), toks_view(toks@)[i as int]);
                    assert(toks_view(toks@).take(i + 1) =~= toks_view(toks@).take(i as int).push(
                        toks_view(toks@)[i as int],
                    ));
                }
                i += 1;
            }
            proof {
                assert(toks_view(toks@).take(toks@.len() as int) =~= toks_view(toks@));
            }
            match delim {
                Delim::Brace => s.append("_close_curly_"),
                Delim::Paren => s.append("_close_paren_"),
                Delim::Bracket => s.append("_close_square_"),
                Delim::Invisible => s.append("_close_none_"),
            }
            s
        },
    }
}

/// The flat string form of a token sequence; punctuation and delimiters
/// become named words so that the result can stand inside an identifier.
pub fn tokens_to_string(toks: &Vec<Tok>) -> (r: String)
    ensures
        r@ == toks_text(toks_view(toks@)),
{
    proof {
        lemma_toks_view(toks@);
        assert(toks_view(toks@).take(0) =~= Seq::<TokV>::empty());
    }
    let mut s = String::new();
    let mut i: usize = 0;
    while i < toks.len()
        invariant
            i <= toks.len(),
            toks_view(toks@).len() == toks@.len(),
            forall|j: int| 0 <= j < toks@.len() ==> toks_view(toks@)[j] == tok_view(toks@[j]),
            s@ == toks_text(toks_view(toks@).take(i as int)),
        decreases toks.len() - i,
    {
        let piece = tok_text_exec(&toks[i]);
        s.append(piece.as_str());
        proof {
            lemma_toks_text_snoc(toks_view(toks@).take(i as int), toks_view(toks@)[i as int]);
            assert(toks_view(toks@).take(i + 1) =~= toks_view(toks@).take(i as int).push(
                toks_view(toks@)[i as int],
            ));
        }
        i += 1;
    }
    proof {
        assert(toks_view(toks@).take(toks@.len() as int) =~= toks_view(toks@));
    }
    s
}

} // verus!
