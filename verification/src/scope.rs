//! Variable scopes. A scope's variables live in a `hashbrown::HashMap`
//! held in a private field of [`VarMap`]; what the map holds is named by
//! [`var_map_model`], and the functions below that call the map are the
//! only code that touches it.
use vstd::prelude::*;
use crate::value::{Value, ValueM};

verus! {

/// The variables of one scope, keyed by name.
#[verifier::external_body]
#[derive(Debug, PartialEq)]
pub struct VarMap {
    map: hashbrown::HashMap<String, Value>,
}

/// What a variable map holds: the model of each variable's value, by name.
pub uninterp spec fn var_map_model(m: VarMap) -> Map<Seq<char>, ValueM>;

/// The variables of an empty scope.
pub open spec fn no_vars() -> Map<Seq<char>, ValueM> {
    Map::empty()
}

/// An empty map (`HashMap::new`).
#[verifier::external_body]
fn var_map_new() -> (r: VarMap)
    ensures
        var_map_model(r) == no_vars(),
{
    VarMap { map: hashbrown::HashMap::new() }
}

/// Sets a variable (`HashMap::insert`): the entry for the name now holds the
/// value, and every other entry is unchanged. Keys compare by their text.
#[verifier::external_body]
fn var_map_insert(m: &mut VarMap, name: String, value: Value)
    ensures
        var_map_model(*final(m)) == var_map_model(*old(m)).insert(name@, value@),
{
    m.map.insert(name, value);
}

/// Looks a variable up (`HashMap::get`): the value stored under the name, if any.
#[verifier::external_body]
fn var_map_get<'a>(m: &'a VarMap, name: &str) -> (r: Option<&'a Value>)
    ensures
        match r {
            Some(v) => var_map_model(*m).contains_key(name@) && v@ == var_map_model(*m)[name@],
            None => !var_map_model(*m).contains_key(name@),
        },
{
    m.map.get(name)
}

/// All entries of the map (`HashMap::iter`, collected): each name once,
/// with its value, in an order that the contract leaves open.
#[verifier::external_body]
fn var_map_entries<'a>(m: &'a VarMap) -> (r: Vec<(&'a String, &'a Value)>)
    ensures
        forall|i: int|
            0 <= i < r@.len() ==> var_map_model(*m).contains_key(#[trigger] r@[i].0@)
                && var_map_model(*m)[r@[i].0@] == r@[i].1@,
        forall|k: Seq<char>|
            var_map_model(*m).contains_key(k) ==> exists|i: int| 0 <= i < r@.len() && #[trigger] r@[i].0@ == k,
        forall|i: int, j: int| 0 <= i < j < r@.len() ==> r@[i].0@ != r@[j].0@,
{
    m.map.iter().collect()
}

/// The keys of a list of entries, as text.
pub open spec fn entry_keys<'a>(es: Seq<(&'a String, &'a Value)>) -> Seq<Seq<char>> {
    Seq::new(es.len(), |i: int| es[i].0@)
}

/// A list of entries that covers a map exactly, each key once, has the map's
/// keys as its key set, and the map is finite with as many keys as entries.
pub proof fn lemma_entries_cover<'a>(m: Map<Seq<char>, ValueM>, es: Seq<(&'a String, &'a Value)>)
    requires
        forall|i: int| 0 <= i < es.len() ==> m.contains_key(#[trigger] es[i].0@),
        forall|k: Seq<char>| m.contains_key(k) ==> exists|i: int| 0 <= i < es.len() && #[trigger] es[i].0@ == k,
        forall|i: int, j: int| 0 <= i < j < es.len() ==> es[i].0@ != es[j].0@,
    ensures
        m.dom() == entry_keys(es).to_set(),
        m.dom().finite(),
        m.dom().len() == es.len(),
{
    let ks = entry_keys(es);
    assert forall|k: Seq<char>| m.dom().contains(k) <==> ks.to_set().contains(k) by {
        if m.dom().contains(k) {
            let i = choose|i: int| 0 <= i < es.len() && #[trigger] es[i].0@ == k;
            assert(ks[i] == k);
        }
        if ks.to_set().contains(k) {
            let i = choose|i: int| 0 <= i < ks.len() && ks[i] == k;
            assert(es[i].0@ == k);
        }
    }
    assert(m.dom() =~= ks.to_set());
    assert(ks.no_duplicates()) by {
        assert forall|i: int, j: int| 0 <= i < ks.len() && 0 <= j < ks.len() && i != j implies ks[i] != ks[j] by {
            if i < j {
                assert(es[i].0@ != es[j].0@);
            } else {
                assert(es[j].0@ != es[i].0@);
            }
        }
    }
    ks.unique_seq_to_set();
    vstd::seq_lib::seq_to_set_is_finite(ks);
}

/// A scope: named variables.
#[derive(Debug, PartialEq)]
pub struct Scope {
    pub variables: VarMap,
}

impl View for Scope {
    type V = Map<Seq<char>, ValueM>;

    open spec fn view(&self) -> Map<Seq<char>, ValueM> {
        var_map_model(self.variables)
    }
}

impl Scope {
    /// A scope with no variables.
    pub fn new() -> (r: Scope)
        ensures
            r@ == Map::<Seq<char>, ValueM>::empty(),
    {
        Scope { variables: var_map_new() }
    }

    /// The value of a variable, if the scope has it.
    pub fn get<'a>(&'a self, name: &str) -> (r: Option<&'a Value>)
        ensures
            match r {
                Some(v) => self@.contains_key(name@) && v@ == self@[name@],
                None => !self@.contains_key(name@),
            },
    {
        var_map_get(&self.variables, name)
    }

    /// Whether the scope has a variable of that name.
    pub fn contains(&self, name: &str) -> (r: bool)
        ensures
            r == self@.contains_key(name@),
    {
        var_map_get(&self.variables, name).is_some()
    }

    /// Sets a variable, adding it if the scope does not have it.
    pub fn insert(&mut self, name: String, value: Value)
        ensures
            final(self)@ == old(self)@.insert(name@, value@),
    {
        var_map_insert(&mut self.variables, name, value);
    }

    /// The entries of the scope, each name once.
    pub fn entries<'a>(&'a self) -> (r: Vec<(&'a String, &'a Value)>)
        ensures
            forall|i: int| 0 <= i < r@.len() ==> self@.contains_key(#[trigger] r@[i].0@) && self@[r@[i].0@] == r@[i].1@,
            forall|k: Seq<char>| self@.contains_key(k) ==> exists|i: int| 0 <= i < r@.len() && #[trigger] r@[i].0@ == k,
            forall|i: int, j: int| 0 <= i < j < r@.len() ==> r@[i].0@ != r@[j].0@,
            self@.dom().finite(),
            self@.dom().len() == r@.len(),
    {
        let r = var_map_entries(&self.variables);
        proof {
            lemma_entries_cover(self@, r@);
        }
        r
    }
}

impl Default for Scope {
    fn default() -> (r: Self)
        ensures
            r@ == Map::<Seq<char>, ValueM>::empty(),
    {
        Scope::new()
    }
}

} // verus!
