//! The resolved model of a specification: the two type-class roles, the
//! declared functions with their settled argument positions, the concrete
//! types of each role, and the resolved (A-type, B-type) pairs with their
//! rewritten function bodies.

use vstd::prelude::*;
use crate::signature::{ArgV, FnSignature, SigV};
use crate::token::{IdentTok, IdentV, Tok, TokV, toks_view};

verus! {

/// One declared function while argument roles are still being narrowed:
/// the candidate indices for the A role and for the B role.
#[derive(Debug)]
pub struct SigEntry {
    pub sig: FnSignature,
    pub possible_a: Vec<usize>,
    pub possible_b: Vec<usize>,
}

/// Mathematical model of a declared function under narrowing.
pub struct EntryV {
    pub sig: SigV,
    pub pa: Seq<int>,
    pub pb: Seq<int>,
}

impl View for SigEntry {
    type V = EntryV;

    open spec fn view(&self) -> EntryV {
        EntryV {
            sig: self.sig@,
            pa: self.possible_a@.map_values(|u: usize| u as int),
            pb: self.possible_b@.map_values(|u: usize| u as int),
        }
    }
}

/// One declared function after resolution: the argument index playing
/// role A and the one playing role B.
#[derive(Debug)]
pub struct FnEntry {
    pub sig: FnSignature,
    pub a_idx: usize,
    pub b_idx: usize,
}

/// Mathematical model of a resolved declared function.
pub struct FnEntryV {
    pub sig: SigV,
    pub a_idx: int,
    pub b_idx: int,
}

impl View for FnEntry {
    type V = FnEntryV;

    open spec fn view(&self) -> FnEntryV {
        FnEntryV { sig: self.sig@, a_idx: self.a_idx as int, b_idx: self.b_idx as int }
    }
}

/// One authored function implementation: its signature and its body
/// tokens.
#[derive(Debug)]
pub struct ImplFn {
    pub sig: FnSignature,
    pub body: Vec<Tok>,
}

/// Mathematical model of an authored function implementation.
pub struct ImplFnV {
    pub sig: SigV,
    pub body: Seq<TokV>,
}

impl View for ImplFn {
    type V = ImplFnV;

    open spec fn view(&self) -> ImplFnV {
        ImplFnV { sig: self.sig@, body: toks_view(self.body@) }
    }
}

/// The model of a sequence of implementations, elementwise.
pub open spec fn impl_fns_view(s: Seq<ImplFn>) -> Seq<ImplFnV> {
    s.map_values(|f: ImplFn| f@)
}

/// One resolved concrete (A-type, B-type) combination, keyed by the
/// snake-case form of each type's token string, with one rewritten
/// implementation per declared function.
#[derive(Debug)]
pub struct ResolvedPair {
    pub a_key: String,
    pub b_key: String,
    pub fns: Vec<ImplFn>,
}

/// Mathematical model of a resolved pair.
pub struct PairV {
    pub a_key: Seq<char>,
    pub b_key: Seq<char>,
    pub fns: Seq<ImplFnV>,
}

impl View for ResolvedPair {
    type V = PairV;

    open spec fn view(&self) -> PairV {
        PairV { a_key: self.a_key@, b_key: self.b_key@, fns: impl_fns_view(self.fns@) }
    }
}

/// One concrete type of a role: its key and its tokens.
#[derive(Debug)]
pub struct TypeEntry {
    pub key: String,
    pub toks: Vec<Tok>,
}

/// Mathematical model of a concrete type of a role.
pub struct TypeEntryV {
    pub key: Seq<char>,
    pub toks: Seq<TokV>,
}

impl View for TypeEntry {
    type V = TypeEntryV;

    open spec fn view(&self) -> TypeEntryV {
        TypeEntryV { key: self.key@, toks: toks_view(self.toks@) }
    }
}

/// The fully resolved model of a specification.
#[derive(Debug)]
pub struct Model {
    pub trait_a: IdentTok,
    pub bounds_a: Vec<Tok>,
    pub trait_b: IdentTok,
    pub bounds_b: Vec<Tok>,
    pub single_trait: bool,
    pub pub_qualifiers: Vec<Tok>,
    pub fns: Vec<FnEntry>,
    pub type_a: Vec<TypeEntry>,
    pub type_b: Vec<TypeEntry>,
    pub pairs: Vec<ResolvedPair>,
}

/// Mathematical model of a resolved specification.
pub struct ModelV {
    pub trait_a: IdentV,
    pub bounds_a: Seq<TokV>,
    pub trait_b: IdentV,
    pub bounds_b: Seq<TokV>,
    pub single_trait: bool,
    pub quals: Seq<TokV>,
    pub fns: Seq<FnEntryV>,
    pub type_a: Seq<TypeEntryV>,
    pub type_b: Seq<TypeEntryV>,
    pub pairs: Seq<PairV>,
}

impl View for Model {
    type V = ModelV;

    open spec fn view(&self) -> ModelV {
        ModelV {
            trait_a: self.trait_a@,
            bounds_a: toks_view(self.bounds_a@),
            trait_b: self.trait_b@,
            bounds_b: toks_view(self.bounds_b@),
            single_trait: self.single_trait,
            quals: toks_view(self.pub_qualifiers@),
            fns: self.fns@.map_values(|f: FnEntry| f@),
            type_a: self.type_a@.map_values(|t: TypeEntry| t@),
            type_b: self.type_b@.map_values(|t: TypeEntry| t@),
            pairs: self.pairs@.map_values(|p: ResolvedPair| p@),
        }
    }
}

/// The first index whose entry has the given key.
pub fn find_type(ts: &Vec<TypeEntry>, key: &String) -> (r: Option<usize>)
    ensures
        r matches Some(i) ==> i < ts@.len() && ts@[i as int]@.key == key@ && (forall|j: int|
            0 <= j < i ==> (#[trigger] ts@[j])@.key != key@),
        r is None ==> forall|j: int| 0 <= j < ts@.len() ==> (#[trigger] ts@[j])@.key != key@,
{
    let mut i: usize = 0;
    while i < ts.len()
        invariant
            i <= ts@.len(),
            forall|j: int| 0 <= j < i ==> (#[trigger] ts@[j])@.key != key@,
        decreases ts@.len() - i,
    {
        if ts[i].key == *key {
            return Some(i);
        }
        i += 1;
    }
    None
}

/// Puts a type under its key: replaces the entry holding the key, or
/// appends a new one.
pub fn upsert_type(ts: &mut Vec<TypeEntry>, entry: TypeEntry) -> (replaced: bool)
    ensures
        ({
            let old_ts = old(ts)@.map_values(|t: TypeEntry| t@);
            let new_ts = final(ts)@.map_values(|t: TypeEntry| t@);
            if replaced {
                exists|i: int|
                    0 <= i < old_ts.len() && old_ts[i].key == entry@.key && new_ts == old_ts.update(
                        i,
                        entry@,
                    )
            } else {
                (forall|j: int| 0 <= j < old_ts.len() ==> (#[trigger] old_ts[j]).key != entry@.key)
                    && new_ts == old_ts.push(entry@)
            }
        }),
{
    let found = find_type(ts, &entry.key);
    match found {
        Some(i) => {
            ts.set(i, entry);
            proof {
                let old_ts = old(ts)@.map_values(|t: TypeEntry| t@);
                let new_ts = ts@.map_values(|t: TypeEntry| t@);
                assert(new_ts =~= old_ts.update(i as int, ts@[i as int]@));
            }
            true
        },
        None => {
            ts.push(entry);
            proof {
                let old_ts = old(ts)@.map_values(|t: TypeEntry| t@);
                let new_ts = ts@.map_values(|t: TypeEntry| t@);
                assert(new_ts =~= old_ts.push(ts@[old(ts)@.len() as int]@));
            }
            false
        },
    }
}

/// The first index whose pair has both keys.
pub fn find_pair(ps: &Vec<ResolvedPair>, a_key: &String, b_key: &String) -> (r: Option<usize>)
    ensures
        r matches Some(i) ==> i < ps@.len() && ps@[i as int]@.a_key == a_key@ && ps@[i as int]@.b_key
            == b_key@ && (forall|j: int|
            0 <= j < i ==> !((#[trigger] ps@[j])@.a_key == a_key@ && ps@[j]@.b_key == b_key@)),
        r is None ==> forall|j: int|
            0 <= j < ps@.len() ==> !((#[trigger] ps@[j])@.a_key == a_key@ && ps@[j]@.b_key == b_key@),
{
    let mut i: usize = 0;
    while i < ps.len()
        invariant
            i <= ps@.len(),
            forall|j: int|
                0 <= j < i ==> !((#[trigger] ps@[j])@.a_key == a_key@ && ps@[j]@.b_key == b_key@),
        decreases ps@.len() - i,
    {
        if ps[i].a_key == *a_key && ps[i].b_key == *b_key {
            return Some(i);
        }
        i += 1;
    }
    None
}

/// Puts a resolved pair under its keys: replaces the pair holding them,
/// or appends a new one.
pub fn upsert_pair(ps: &mut Vec<ResolvedPair>, pair: ResolvedPair) -> (replaced: bool)
    ensures
        ({
            let old_ps = old(ps)@.map_values(|p: ResolvedPair| p@);
            let new_ps = final(ps)@.map_values(|p: ResolvedPair| p@);
            if replaced {
                exists|i: int|
                    0 <= i < old_ps.len() && old_ps[i].a_key == pair@.a_key && old_ps[i].b_key
                        == pair@.b_key && new_ps == old_ps.update(i, pair@)
            } else {
                (forall|j: int|
                    0 <= j < old_ps.len() ==> !((#[trigger] old_ps[j]).a_key == pair@.a_key
                        && old_ps[j].b_key == pair@.b_key)) && new_ps == old_ps.push(pair@)
            }
        }),
{
    let found = find_pair(ps, &pair.a_key, &pair.b_key);
    match found {
        Some(i) => {
            ps.set(i, pair);
            proof {
                let old_ps = old(ps)@.map_values(|p: ResolvedPair| p@);
                let new_ps = ps@.map_values(|p: ResolvedPair| p@);
                assert(new_ps =~= old_ps.update(i as int, ps@[i as int]@));
            }
            true
        },
        None => {
            ps.push(pair);
            proof {
                let old_ps = old(ps)@.map_values(|p: ResolvedPair| p@);
                let new_ps = ps@.map_values(|p: ResolvedPair| p@);
                assert(new_ps =~= old_ps.push(ps@[old(ps)@.len() as int]@));
            }
            false
        },
    }
}

} // verus!
