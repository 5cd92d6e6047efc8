//! Nested variable scopes: the innermost scope is searched first.
use vstd::prelude::*;
use crate::text::str_eq;

verus! {

/// The map that a list of pairs stands for; a later pair overrides an earlier one.
pub open spec fn pairs_map<V>(ps: Seq<(String, V)>) -> Map<Seq<char>, V>
    decreases ps.len(),
{
    if ps.len() == 0 {
        Map::empty()
    } else {
        pairs_map(ps.drop_last()).insert(ps.last().0@, ps.last().1)
    }
}

/// No two pairs hold the same name.
pub open spec fn unique_names<V>(ps: Seq<(String, V)>) -> bool {
    forall|i: int, j: int| 0 <= i < ps.len() && 0 <= j < ps.len() && i != j ==> ps[i].0@ != ps[j].0@
}

/// The value a name has in the innermost scope that holds it.
pub open spec fn lookup<V>(scopes: Seq<Map<Seq<char>, V>>, name: Seq<char>) -> Option<V>
    decreases scopes.len(),
{
    if scopes.len() == 0 {
        None
    } else if scopes.last().contains_key(name) {
        Some(scopes.last()[name])
    } else {
        lookup(scopes.drop_last(), name)
    }
}

/// The scopes after setting a name in the innermost one.
pub open spec fn set_innermost<V>(scopes: Seq<Map<Seq<char>, V>>, name: Seq<char>, value: V) -> Seq<Map<Seq<char>, V>> {
    scopes.update(scopes.len() - 1, scopes.last().insert(name, value))
}

/// A name held by a pair of a list without repeated names maps to that pair's value.
pub proof fn lemma_pairs_map_index<V>(ps: Seq<(String, V)>, j: int)
    requires
        unique_names(ps),
        0 <= j < ps.len(),
    ensures
        pairs_map(ps).contains_key(ps[j].0@),
        pairs_map(ps)[ps[j].0@] == ps[j].1,
    decreases ps.len(),
{
    if j < ps.len() - 1 {
        lemma_pairs_map_index(ps.drop_last(), j);
        assert(ps.drop_last()[j] == ps[j]);
    }
}

/// A name that no pair holds is not in the map.
pub proof fn lemma_pairs_map_absent<V>(ps: Seq<(String, V)>, k: Seq<char>)
    requires
        forall|j: int| 0 <= j < ps.len() ==> ps[j].0@ != k,
    ensures
        !pairs_map(ps).contains_key(k),
    decreases ps.len(),
{
    if ps.len() > 0 {
        lemma_pairs_map_absent(ps.drop_last(), k);
    }
}

/// Replacing the pair that holds a name updates that name in the map.
pub proof fn lemma_pairs_map_update<V>(ps: Seq<(String, V)>, j: int, name: String, v: V)
    requires
        unique_names(ps),
        0 <= j < ps.len(),
        ps[j].0@ == name@,
    ensures
        pairs_map(ps.update(j, (name, v))) == pairs_map(ps).insert(name@, v),
    decreases ps.len(),
{
    let qs = ps.update(j, (name, v));
    if j == ps.len() - 1 {
        assert(qs.drop_last() =~= ps.drop_last());
        if ps.len() > 1 {
            lemma_pairs_map_absent(ps.drop_last(), name@);
        } else {
            assert(ps.drop_last().len() == 0);
        }
        assert(pairs_map(ps) =~= pairs_map(ps.drop_last()).insert(name@, ps[j].1));
        assert(pairs_map(qs) =~= pairs_map(ps).insert(name@, v));
    } else {
        assert(qs.drop_last() =~= ps.drop_last().update(j, (name, v)));
        lemma_pairs_map_update(ps.drop_last(), j, name, v);
        assert(ps.last().0@ != name@);
        assert(pairs_map(qs) =~= pairs_map(ps).insert(name@, v));
    }
}

/// Variable scopes, innermost last.
pub struct ScopeManager<V> {
    scopes: Vec<Vec<(String, V)>>,
}

impl<V> View for ScopeManager<V> {
    type V = Seq<Map<Seq<char>, V>>;

    closed spec fn view(&self) -> Seq<Map<Seq<char>, V>> {
        self.scopes@.map_values(|ps: Vec<(String, V)>| pairs_map(ps@))
    }
}

impl<V> ScopeManager<V> {
    #[verifier::type_invariant]
    spec fn names_unique(self) -> bool {
        forall|i: int| 0 <= i < self.scopes@.len() ==> unique_names(#[trigger] self.scopes@[i]@)
    }
}

impl<V: Clone> ScopeManager<V> {
    /// One empty scope.
    pub fn new() -> (m: Self)
        ensures
            m@ == seq![Map::<Seq<char>, V>::empty()],
    {
        let mut scopes: Vec<Vec<(String, V)>> = Vec::new();
        scopes.push(Vec::new());
        let m = ScopeManager { scopes };
        assert(m@ =~= seq![Map::<Seq<char>, V>::empty()]);
        m
    }

    /// Opens a new, empty, innermost scope.
    pub fn create_scope(&mut self)
        ensures
            final(self)@ == old(self)@.push(Map::empty()),
    {
        proof {
            use_type_invariant(&*self);
        }
        let mut scopes: Vec<Vec<(String, V)>> = Vec::new();
        std::mem::swap(&mut scopes, &mut self.scopes);
        scopes.push(Vec::new());
        assert(forall|i: int| 0 <= i < scopes@.len() ==> unique_names(#[trigger] scopes@[i]@));
        std::mem::swap(&mut scopes, &mut self.scopes);
        assert(self@ =~= old(self)@.push(Map::empty()));
    }

    /// Closes the innermost scope and forgets its variables; nothing happens when there is
    /// no scope.
    pub fn destroy_scope(&mut self)
        ensures
            old(self)@.len() > 0 ==> final(self)@ == old(self)@.drop_last(),
            old(self)@.len() == 0 ==> final(self)@ == old(self)@,
    {
        proof {
            use_type_invariant(&*self);
        }
        let mut scopes: Vec<Vec<(String, V)>> = Vec::new();
        std::mem::swap(&mut scopes, &mut self.scopes);
        let _ = scopes.pop();
        std::mem::swap(&mut scopes, &mut self.scopes);
        assert(old(self)@.len() > 0 ==> self@ =~= old(self)@.drop_last());
        assert(old(self)@.len() == 0 ==> self@ =~= old(self)@);
    }

    /// Sets a variable in the innermost scope; an error when there is no scope.
    pub fn set_variable(&mut self, name: String, value: V) -> (r: Result<(), String>)
        ensures
            old(self)@.len() > 0 ==> r is Ok && final(self)@ == set_innermost(old(self)@, name@, value),
            old(self)@.len() == 0 ==> r is Err && r->Err_0@ == "No scope exists"@ && final(self)@ == old(self)@,
    {
        proof {
            use_type_invariant(&*self);
        }
        if self.scopes.len() == 0 {
            return Err("No scope exists".to_string());
        }
        let mut scopes: Vec<Vec<(String, V)>> = Vec::new();
        std::mem::swap(&mut scopes, &mut self.scopes);
        let mut scope = scopes.pop().unwrap();
        let ghost ps = scope@;
        assert(ps == old(self).scopes@.last()@);
        let mut j: usize = 0;
        while j < scope.len() && !str_eq(scope[j].0.as_str(), name.as_str())
            invariant
                j <= scope.len(),
                scope@ == ps,
                forall|k: int| 0 <= k < j ==> ps[k].0@ != name@,
            decreases scope.len() - j,
        {
            j += 1;
        }
        if j < scope.len() {
            proof {
                lemma_pairs_map_update(ps, j as int, name, value);
            }
            scope.set(j, (name, value));
            assert(unique_names(scope@)) by {
                assert forall|a: int, b: int| 0 <= a < scope@.len() && 0 <= b < scope@.len() && a != b
                    implies scope@[a].0@ != scope@[b].0@ by {
                    if a != j && b != j {
                        assert(ps[a].0@ != ps[b].0@);
                    } else if a == j {
                        assert(ps[j as int].0@ != ps[b].0@);
                    } else {
                        assert(ps[a].0@ != ps[j as int].0@);
                    }
                }
            }
        } else {
            let ghost nm = name@;
            scope.push((name, value));
            proof {
                assert(scope@.drop_last() =~= ps);
                assert(unique_names(scope@)) by {
                    assert forall|a: int, b: int| 0 <= a < scope@.len() && 0 <= b < scope@.len() && a != b
                        implies scope@[a].0@ != scope@[b].0@ by {
                        if a < ps.len() && b < ps.len() {
                            assert(ps[a].0@ != ps[b].0@);
                        }
                    }
                }
            }
        }
        scopes.push(scope);
        assert(forall|i: int| 0 <= i < scopes@.len() ==> unique_names(#[trigger] scopes@[i]@));
        std::mem::swap(&mut scopes, &mut self.scopes);
        assert(self@ =~= set_innermost(old(self)@, name@, value));
        Ok(())
    }

    /// The value of a variable in the innermost scope that holds it, as `clone` copies it.
    pub fn get_variable(&self, name: &str) -> (r: Option<V>)
        ensures
            match lookup(self@, name@) {
                Some(v) => r matches Some(w) && cloned(v, w),
                None => r is None,
            },
    {
        proof {
            use_type_invariant(self);
        }
        let mut i = self.scopes.len();
        assert(self@.take(i as int) =~= self@);
        while i > 0
            invariant
                i <= self.scopes.len(),
                forall|k: int| 0 <= k < self.scopes@.len() ==> unique_names(#[trigger] self.scopes@[k]@),
                lookup(self@, name@) == lookup(self@.take(i as int), name@),
            decreases i,
        {
            let scope = &self.scopes[i - 1];
            let ghost m = self@.take(i as int);
            assert(m.last() == pairs_map(scope@));
            assert(m.drop_last() =~= self@.take(i - 1));
            assert(unique_names(self.scopes@[i - 1]@));
            let mut j: usize = 0;
            while j < scope.len()
                invariant
                    j <= scope.len(),
                    0 < i <= self.scopes.len(),
                    scope == &self.scopes@[i - 1],
                    unique_names(scope@),
                    m == self@.take(i as int),
                    m.last() == pairs_map(scope@),
                    lookup(self@, name@) == lookup(m, name@),
                    forall|k: int| 0 <= k < j ==> scope@[k].0@ != name@,
                decreases scope.len() - j,
            {
                if str_eq(scope[j].0.as_str(), name) {
                    proof {
                        lemma_pairs_map_index(scope@, j as int);
                    }
                    return Some(scope[j].1.clone());
                }
                j += 1;
            }
            proof {
                lemma_pairs_map_absent(scope@, name@);
            }
            i -= 1;
        }
        assert(self@.take(0) =~= Seq::<Map<Seq<char>, V>>::empty());
        None
    }
}


/// A variable set in the innermost scope is read back with the value it was set to.
pub proof fn law_set_then_get<V>(scopes: Seq<Map<Seq<char>, V>>, name: Seq<char>, value: V)
    requires
        scopes.len() > 0,
    ensures
        lookup(set_innermost(scopes, name, value), name) == Some(value),
{
}

/// Setting a variable leaves every other name as it was.
pub proof fn law_set_keeps_others<V>(scopes: Seq<Map<Seq<char>, V>>, name: Seq<char>, value: V, other: Seq<char>)
    requires
        scopes.len() > 0,
        other != name,
    ensures
        lookup(set_innermost(scopes, name, value), other) == lookup(scopes, other),
{
    let s2 = set_innermost(scopes, name, value);
    assert(s2.drop_last() =~= scopes.drop_last());
}

/// A new scope sees the variables of the scopes around it.
pub proof fn law_new_scope_sees_outer<V>(scopes: Seq<Map<Seq<char>, V>>, name: Seq<char>)
    ensures
        lookup(scopes.push(Map::empty()), name) == lookup(scopes, name),
{
    assert(scopes.push(Map::empty()).drop_last() =~= scopes);
}

/// What is set in a scope is gone once the scope is closed: every name reads as it did
/// before the scope was opened.
pub proof fn law_closed_scope_forgets<V>(scopes: Seq<Map<Seq<char>, V>>, name: Seq<char>, value: V, any: Seq<char>)
    ensures
        lookup(set_innermost(scopes.push(Map::empty()), name, value).drop_last(), any) == lookup(scopes, any),
{
    assert(set_innermost(scopes.push(Map::empty()), name, value).drop_last() =~= scopes);
}

/// An inner variable hides an outer one of the same name while its scope is open.
pub proof fn law_inner_shadows_outer<V>(scopes: Seq<Map<Seq<char>, V>>, name: Seq<char>, value: V)
    ensures
        lookup(set_innermost(scopes.push(Map::empty()), name, value), name) == Some(value),
{
}

/// Setting a variable, opening a scope, setting the same name there and closing that scope
/// gives back the first value: the inner binding hid the outer one only while its scope was
/// open.
pub proof fn law_shadow_then_close<V>(scopes: Seq<Map<Seq<char>, V>>, name: Seq<char>, v1: V, v2: V)
    requires
        scopes.len() > 0,
    ensures
        lookup(
            set_innermost(set_innermost(scopes, name, v1).push(Map::empty()), name, v2).drop_last(),
            name,
        ) == Some(v1),
{
    let s1 = set_innermost(scopes, name, v1);
    let s3 = set_innermost(s1.push(Map::empty()), name, v2);
    assert(s3.drop_last() =~= s1);
}

} // verus!
