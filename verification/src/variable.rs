//! Named configuration variables: a keyed string table with upsert semantics.

use vstd::prelude::*;

use crate::store::Store;

verus! {

/// One configuration entry.
#[derive(Debug, PartialEq, Eq, Clone)]
pub struct Variable {
    pub key: String,
    pub value: String,
}

impl Variable {
    /// An equal variable value.
    pub fn cloned(&self) -> (r: Variable)
        ensures
            r == *self,
    {
        Variable { key: self.key.clone(), value: self.value.clone() }
    }
}

/// Some entry carries this key.
pub open spec fn has_var(vars: Seq<Variable>, key: Seq<char>) -> bool {
    exists|i: int| 0 <= i < vars.len() && (#[trigger] vars[i]).key@ == key
}

/// The index of the entry with this key (meaningful when keys are unique and
/// the key is present).
pub open spec fn var_index(vars: Seq<Variable>, key: Seq<char>) -> int {
    choose|i: int| 0 <= i < vars.len() && (#[trigger] vars[i]).key@ == key
}

/// The entry with this key.
pub open spec fn var_at(vars: Seq<Variable>, key: Seq<char>) -> Variable {
    vars[var_index(vars, key)]
}

/// No two entries share a key.
pub open spec fn unique_var_keys(vars: Seq<Variable>) -> bool {
    forall|i: int, j: int|
        0 <= i < j < vars.len() ==> (#[trigger] vars[i]).key@ != (#[trigger] vars[j]).key@
}

/// With unique keys, any index whose entry carries the key is the canonical
/// one.
pub proof fn lemma_var_index_is(vars: Seq<Variable>, key: Seq<char>, k: int)
    requires
        unique_var_keys(vars),
        0 <= k < vars.len(),
        vars[k].key@ == key,
    ensures
        var_index(vars, key) == k,
        has_var(vars, key),
{
    assert(has_var(vars, key));
    let j = var_index(vars, key);
    if j != k {
        assert(vars[j].key@ != vars[k].key@);
    }
}

/// Replacing an entry by one with the same key keeps the keys unique.
pub proof fn lemma_unique_var_after_update(vars: Seq<Variable>, k: int, v2: Variable)
    requires
        unique_var_keys(vars),
        0 <= k < vars.len(),
        v2.key@ == vars[k].key@,
    ensures
        unique_var_keys(vars.update(k, v2)),
{
}

/// Appending an entry under a fresh key keeps the keys unique.
pub proof fn lemma_unique_var_after_push(vars: Seq<Variable>, v2: Variable)
    requires
        unique_var_keys(vars),
        !has_var(vars, v2.key@),
    ensures
        unique_var_keys(vars.push(v2)),
{
    let vars2 = vars.push(v2);
    assert forall|i: int, j: int| 0 <= i < j < vars2.len() implies (#[trigger] vars2[i]).key@ != (
    #[trigger] vars2[j]).key@ by {
        if j == vars.len() && vars2[i].key@ == v2.key@ {
            assert(0 <= i < vars.len() && vars[i].key@ == v2.key@);
        }
    }
}

/// Removing an entry keeps the remaining keys unique.
pub proof fn lemma_unique_var_after_remove(vars: Seq<Variable>, k: int)
    requires
        unique_var_keys(vars),
        0 <= k < vars.len(),
    ensures
        unique_var_keys(vars.remove(k)),
{
    let vars2 = vars.remove(k);
    assert forall|i: int, j: int| 0 <= i < j < vars2.len() implies (#[trigger] vars2[i]).key@ != (
    #[trigger] vars2[j]).key@ by {
        let i0: int = if i < k {
            i
        } else {
            i + 1
        };
        let j0: int = if j < k {
            j
        } else {
            j + 1
        };
        assert(vars2[i] == vars[i0]);
        assert(vars2[j] == vars[j0]);
    }
}

impl Variable {
    /// The index of the entry with this key, when one exists.
    #[verifier::loop_isolation(false)]
    fn find(store: &Store, key: &String) -> (r: Option<usize>)
        requires
            unique_var_keys(store.variables@),
        ensures
            match r {
                Some(k) => has_var(store.variables@, key@) && k as int == var_index(
                    store.variables@,
                    key@,
                ),
                None => !has_var(store.variables@, key@),
            },
    {
        let n = store.variables.len();
        for i in 0..n
            invariant
                forall|k: int| 0 <= k < i ==> (#[trigger] store.variables@[k]).key@ != key@,
        {
            if store.variables[i].key == *key {
                proof {
                    lemma_var_index_is(store.variables@, key@, i as int);
                }
                return Some(i);
            }
        }
        proof {
            assert(!has_var(store.variables@, key@)) by {
                if has_var(store.variables@, key@) {
                    let j = choose|j: int|
                        0 <= j < store.variables@.len() && (#[trigger] store.variables@[j]).key@
                            == key@;
                    assert(store.variables@[j].key@ != key@);
                }
            }
        }
        None
    }

    /// The entry under this key, when one exists.
    pub fn load(store: &Store, key: &String) -> (r: Option<Variable>)
        requires
            store.wf(),
        ensures
            match r {
                Some(v) => has_var(store.variables@, key@) && v == var_at(store.variables@, key@),
                None => !has_var(store.variables@, key@),
            },
    {
        match Variable::find(store, key) {
            Some(k) => Some(store.variables[k].cloned()),
            None => None,
        }
    }

    /// Set the value under a key: an existing entry is overwritten and its
    /// previous value handed back; otherwise the entry is created.
    pub fn set(store: &mut Store, key: String, value: String) -> (r: Option<String>)
        requires
            old(store).wf(),
        ensures
            final(store).wf(),
            final(store).only_vars_changed(*old(store)),
            if has_var(old(store).variables@, key@) {
                &&& r == Some(var_at(old(store).variables@, key@).value)
                &&& final(store).variables@ == old(store).variables@.update(
                    var_index(old(store).variables@, key@),
                    (Variable { key, value }),
                )
            } else {
                &&& r is None
                &&& final(store).variables@ == old(store).variables@.push(
                    (Variable { key, value }),
                )
            },
    {
        match Variable::find(store, &key) {
            Some(k) => {
                proof {
                    lemma_unique_var_after_update(
                        store.variables@,
                        k as int,
                        Variable { key, value },
                    );
                }
                let previous = store.variables[k].value.clone();
                store.variables[k] = Variable { key, value };
                Some(previous)
            },
            None => {
                proof {
                    lemma_unique_var_after_push(store.variables@, Variable { key, value });
                }
                store.variables.push(Variable { key, value });
                None
            },
        }
    }

    /// Remove the entry under a key, handing back the value it held.
    pub fn unset(store: &mut Store, key: &String) -> (r: Option<String>)
        requires
            old(store).wf(),
        ensures
            final(store).wf(),
            final(store).only_vars_changed(*old(store)),
            if has_var(old(store).variables@, key@) {
                &&& r == Some(var_at(old(store).variables@, key@).value)
                &&& final(store).variables@ == old(store).variables@.remove(
                    var_index(old(store).variables@, key@),
                )
            } else {
                &&& r is None
                &&& final(store).variables@ == old(store).variables@
            },
    {
        match Variable::find(store, key) {
            Some(k) => {
                proof {
                    lemma_unique_var_after_remove(store.variables@, k as int);
                }
                let removed = store.variables.remove(k);
                Some(removed.value)
            },
            None => None,
        }
    }
}

} // verus!
