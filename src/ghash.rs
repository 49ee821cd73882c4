use crate::circuit::Edge;
use crate::lit::Lit;
use crate::model::Formula;
use giputils::hash::{GHashMap, GHashSet};
use vstd::prelude::*;

verus! {

/// A map from indices (variables, nodes, steps) to indices.
#[verifier::external_body]
pub struct IndexMap {
    inner: GHashMap<usize, usize>,
}

impl IndexMap {
    pub fn new() -> (r: IndexMap)
        ensures
            index_map_view(r).dom() == Set::<usize>::empty(),
    {
        index_map_new()
    }

    pub fn insert(&mut self, k: usize, v: usize)
        ensures
            index_map_view(*final(self)) == index_map_view(*old(self)).insert(k, v),
    {
        index_map_insert(self, k, v)
    }

    pub fn get(&self, k: usize) -> (r: Option<usize>)
        ensures
            r == (if index_map_view(*self).contains_key(k) {
                Some(index_map_view(*self)[k])
            } else {
                None::<usize>
            }),
    {
        index_map_get(self, k)
    }

    /// Every entry once, in no particular order.
    pub fn entries(&self) -> (r: Vec<(usize, usize)>)
        ensures
            forall|i: int|
                0 <= i < r@.len() ==> #[trigger] index_map_view(*self).contains_key(r@[i].0)
                    && index_map_view(*self)[r@[i].0] == r@[i].1,
            forall|i: int, j: int| 0 <= i < j < r@.len() ==> r@[i].0 != r@[j].0,
            forall|k: usize|
                #[trigger] index_map_view(*self).contains_key(k) ==> exists|i: int|
                    0 <= i < r@.len() && r@[i].0 == k,
    {
        index_map_entries(self)
    }
}

/// A map from clause ids to their partition (`true` for B).
#[verifier::external_body]
pub struct FlagMap {
    inner: GHashMap<usize, bool>,
}

/// A map from clause ids to the records of live clauses.
#[verifier::external_body]
pub struct ClauseMap {
    inner: GHashMap<usize, ClauseRec>,
}

/// A set of literal or variable codes.
#[verifier::external_body]
pub struct CodeSet {
    inner: GHashSet<u64>,
}

/// A live proof clause: its literals and its partial interpolant.
pub struct ClauseRec {
    pub lits: Vec<Lit>,
    pub itp: Edge,
    pub formula: Ghost<Formula>,
}

/// The entries of a map from indices to indices.
pub uninterp spec fn index_map_view(m: IndexMap) -> Map<usize, usize>;

/// The entries of a map from indices to flags.
pub uninterp spec fn flag_map_view(m: FlagMap) -> Map<usize, bool>;

/// The entries of a map from clause ids to clause records.
pub uninterp spec fn clause_map_view(m: ClauseMap) -> Map<usize, ClauseRec>;

/// The members of a set of codes.
pub uninterp spec fn code_set_view(s: CodeSet) -> Set<u64>;

/// Relies on GHashMap::new: the map starts empty.
#[verifier::external_body]
pub(crate) fn index_map_new() -> (r: IndexMap)
    ensures
        index_map_view(r).dom() == Set::<usize>::empty(),
{
    IndexMap { inner: GHashMap::new() }
}

/// Relies on HashMap::insert (through GHashMap's deref): the key now maps to the value.
#[verifier::external_body]
pub(crate) fn index_map_insert(m: &mut IndexMap, k: usize, v: usize)
    ensures
        index_map_view(*final(m)) == index_map_view(*old(m)).insert(k, v),
{
    m.inner.insert(k, v);
}

/// Relies on HashMap::get (through GHashMap's deref): the value of the key, if any.
#[verifier::external_body]
pub(crate) fn index_map_get(m: &IndexMap, k: usize) -> (r: Option<usize>)
    ensures
        r == (if index_map_view(*m).contains_key(k) {
            Some(index_map_view(*m)[k])
        } else {
            None::<usize>
        }),
{
    m.inner.get(&k).copied()
}

/// Relies on HashMap::iter (through GHashMap's deref): every entry once, in no
/// particular order.
#[verifier::external_body]
pub(crate) fn index_map_entries(m: &IndexMap) -> (r: Vec<(usize, usize)>)
    ensures
        forall|i: int|
            0 <= i < r@.len() ==> #[trigger] index_map_view(*m).contains_key(r@[i].0)
                && index_map_view(*m)[r@[i].0] == r@[i].1,
        forall|i: int, j: int| 0 <= i < j < r@.len() ==> r@[i].0 != r@[j].0,
        forall|k: usize|
            #[trigger] index_map_view(*m).contains_key(k) ==> exists|i: int|
                0 <= i < r@.len() && r@[i].0 == k,
{
    m.inner.iter().map(|(k, v)| (*k, *v)).collect()
}

/// Relies on GHashMap::new: the map starts empty.
#[verifier::external_body]
pub(crate) fn flag_map_new() -> (r: FlagMap)
    ensures
        flag_map_view(r).dom() == Set::<usize>::empty(),
{
    FlagMap { inner: GHashMap::new() }
}

/// Relies on HashMap::insert (through GHashMap's deref): the key now maps to the value.
#[verifier::external_body]
pub(crate) fn flag_map_insert(m: &mut FlagMap, k: usize, v: bool)
    ensures
        flag_map_view(*final(m)) == flag_map_view(*old(m)).insert(k, v),
{
    m.inner.insert(k, v);
}

/// Relies on HashMap::get (through GHashMap's deref): the value of the key, if any.
#[verifier::external_body]
pub(crate) fn flag_map_get(m: &FlagMap, k: usize) -> (r: Option<bool>)
    ensures
        r == (if flag_map_view(*m).contains_key(k) {
            Some(flag_map_view(*m)[k])
        } else {
            None::<bool>
        }),
{
    m.inner.get(&k).copied()
}

/// Relies on GHashMap::new: the map starts empty.
#[verifier::external_body]
pub(crate) fn clause_map_new() -> (r: ClauseMap)
    ensures
        clause_map_view(r).dom() == Set::<usize>::empty(),
{
    ClauseMap { inner: GHashMap::new() }
}

/// Relies on HashMap::insert (through GHashMap's deref): the key now maps to the value.
#[verifier::external_body]
pub(crate) fn clause_map_insert(m: &mut ClauseMap, k: usize, v: ClauseRec)
    ensures
        clause_map_view(*final(m)) == clause_map_view(*old(m)).insert(k, v),
{
    m.inner.insert(k, v);
}

/// Relies on HashMap::get (through GHashMap's deref): the record of the key, if any.
#[verifier::external_body]
pub(crate) fn clause_map_get(m: &ClauseMap, k: usize) -> (r: Option<&ClauseRec>)
    ensures
        match r {
            Some(c) => clause_map_view(*m).contains_key(k) && *c == clause_map_view(*m)[k],
            None => !clause_map_view(*m).contains_key(k),
        },
{
    m.inner.get(&k)
}

/// Relies on HashMap::remove (through GHashMap's deref): the key is gone afterwards.
#[verifier::external_body]
pub(crate) fn clause_map_remove(m: &mut ClauseMap, k: usize)
    ensures
        clause_map_view(*final(m)) == clause_map_view(*old(m)).remove(k),
{
    m.inner.remove(&k);
}

/// Relies on GHashSet::new: the set starts empty.
#[verifier::external_body]
pub(crate) fn code_set_new() -> (r: CodeSet)
    ensures
        code_set_view(r) == Set::<u64>::empty(),
{
    CodeSet { inner: GHashSet::new() }
}

/// Relies on HashSet::insert (through GHashSet's deref): the code is a member afterwards.
#[verifier::external_body]
pub(crate) fn code_set_insert(s: &mut CodeSet, c: u64)
    ensures
        code_set_view(*final(s)) == code_set_view(*old(s)).insert(c),
{
    s.inner.insert(c);
}

/// Relies on HashSet::contains (through GHashSet's deref): membership.
#[verifier::external_body]
pub(crate) fn code_set_contains(s: &CodeSet, c: u64) -> (r: bool)
    ensures
        r == code_set_view(*s).contains(c),
{
    s.inner.contains(&c)
}

/// Relies on HashSet::clear (through GHashSet's deref): no member is left.
#[verifier::external_body]
pub(crate) fn code_set_clear(s: &mut CodeSet)
    ensures
        code_set_view(*final(s)) == Set::<u64>::empty(),
{
    s.inner.clear();
}

} // verus!
