//! The environment: a chain of scopes, each a table from symbol names to
//! owned values plus a handle to at most one parent scope. The whole chain
//! lives in one arena; scopes are addressed by index, and a scope's parent
//! always has a smaller index, so the chain can never be cyclic.

use crate::error::{Error, ReplispResult};
use crate::lval::{pairs_of, val_of, lemma_pairs_of, Lval, Val};
use vstd::prelude::*;

verus! {

/// One scope: a lookup table of bindings, later entries shadowing earlier
/// ones, and the arena index of the parent scope, `None` at the root.
pub struct Scope {
    pub table: Vec<(String, Lval)>,
    pub parent: Option<usize>,
}

/// The arena of scopes. Index 0 is the root scope, created once and
/// pre-populated with the builtins; lambda calls push child scopes.
pub struct Lenv {
    pub scopes: Vec<Scope>,
}

/// A binding table as a map, later entries shadowing earlier ones.
pub open spec fn table_map(entries: Seq<(Seq<char>, Val)>) -> Map<Seq<char>, Val>
    decreases entries.len(),
{
    if entries.len() == 0 {
        Map::empty()
    } else {
        table_map(entries.drop_last()).insert(entries.last().0, entries.last().1)
    }
}

/// Appending one entry to a table inserts its binding.
pub proof fn lemma_table_map_push(entries: Seq<(Seq<char>, Val)>, entry: (Seq<char>, Val))
    ensures
        table_map(entries.push(entry)) == table_map(entries).insert(entry.0, entry.1),
{
    assert(entries.push(entry).drop_last() =~= entries);
}

impl Lenv {
    /// How many scopes the arena holds.
    pub open spec fn n_scopes(self) -> nat {
        self.scopes@.len()
    }

    /// The parent handle of scope `s`.
    pub open spec fn parent_of(self, s: int) -> Option<usize> {
        self.scopes@[s].parent
    }

    /// The table of scope `s`, as a sequence of modelled entries.
    pub open spec fn scope_table(self, s: int) -> Seq<(Seq<char>, Val)> {
        pairs_of(self.scopes@[s].table@)
    }

    /// The bindings of scope `s` alone, without the parent chain.
    pub open spec fn bindings(self, s: int) -> Map<Seq<char>, Val> {
        table_map(self.scope_table(s))
    }

    /// Well-formedness: at least the root scope exists, the root has no
    /// parent, and every parent handle points strictly downward, so parent
    /// chains terminate at a root.
    pub open spec fn wf(self) -> bool {
        &&& self.scopes@.len() >= 1
        &&& self.scopes@[0].parent is None
        &&& forall|i: int|
            0 <= i < self.scopes@.len() ==> (#[trigger] self.scopes@[i].parent matches Some(p)
                ==> p < i)
    }

    /// Chain lookup: the local bindings first, then the parent chain, and
    /// `None` only when no scope on the chain binds the name.
    pub open spec fn resolve(self, s: int, key: Seq<char>) -> Option<Val>
        recommends
            self.wf(),
            0 <= s < self.n_scopes(),
        decreases s,
    {
        if self.bindings(s).contains_key(key) {
            Some(self.bindings(s)[key])
        } else {
            match self.parent_of(s) {
                Some(p) => if 0 <= (p as int) < s {
                    self.resolve(p as int, key)
                } else {
                    None
                },
                None => None,
            }
        }
    }

    /// Everything but scope `s` is unchanged between `self` and `other`.
    pub open spec fn same_but(self, other: Lenv, s: int) -> bool {
        &&& other.n_scopes() == self.n_scopes()
        &&& forall|j: int|
            0 <= j < self.n_scopes() && j != s ==> #[trigger] other.scope_table(j)
                == self.scope_table(j)
        &&& forall|j: int|
            0 <= j < self.n_scopes() ==> #[trigger] other.parent_of(j) == self.parent_of(j)
    }

    /// Create the arena with its root scope, pre-populated with every
    /// builtin under each of its registration names.
    pub fn new() -> (r: Lenv)
        ensures
            r.wf(),
            r.n_scopes() == 1,
            r.parent_of(0) is None,
            r.bindings(0) == crate::builtins::builtins_map(),
    {
        let root = Scope { table: Vec::new(), parent: None };
        let mut env = Lenv { scopes: Vec::new() };
        env.scopes.push(root);
        proof {
            lemma_pairs_of(env.scopes@[0].table@);
            assert(env.scope_table(0) =~= Seq::<(Seq<char>, Val)>::empty());
        }
        crate::builtins::register_builtins(&mut env, 0);
        proof {
            assert(env.bindings(0) == crate::builtins::with_builtins(table_map(Seq::empty())));
        }
        env
    }

    /// Push a fresh scope seeded with the given table, with the given
    /// parent. The builtins are not re-seeded here: they live in the root
    /// scope and are reached through the chain, so user bindings shadow
    /// them, never the reverse. Returns the new scope's handle.
    pub fn push_scope(&mut self, lookup: Vec<(String, Lval)>, parent: usize) -> (s: usize)
        requires
            old(self).wf(),
            parent < old(self).n_scopes(),
        ensures
            final(self).wf(),
            s == old(self).n_scopes(),
            final(self).n_scopes() == old(self).n_scopes() + 1,
            final(self).parent_of(s as int) == Some(parent),
            final(self).bindings(s as int) == table_map(pairs_of(lookup@)),
            forall|j: int|
                0 <= j < old(self).n_scopes() ==> #[trigger] final(self).scope_table(j)
                    == old(self).scope_table(j),
            forall|j: int|
                0 <= j < old(self).n_scopes() ==> #[trigger] final(self).parent_of(j)
                    == old(self).parent_of(j),
    {
        let s = self.scopes.len();
        let fresh = Scope { table: lookup, parent: Some(parent) };
        self.scopes.push(fresh);
        s
    }

    /// Look `key` up along the chain that starts at scope `s`: the local
    /// table first, then the parent, and an `UnknownFunction` error naming
    /// the symbol when the chain is exhausted.
    pub fn get(&self, s: usize, key: &String) -> (r: ReplispResult<Lval>)
        requires
            self.wf(),
            s < self.n_scopes(),
        ensures
            match r {
                Ok(v) => self.resolve(s as int, key@) == Some(v@),
                Err(e) => self.resolve(s as int, key@) is None && e@
                    == crate::error::ErrV::UnknownFunction(key@),
            },
    {
        let mut cur: usize = s;
        loop
            invariant
                self.wf(),
                cur < self.n_scopes(),
                self.resolve(s as int, key@) == self.resolve(cur as int, key@),
            decreases cur,
        {
            match lookup_last(&self.scopes[cur].table, key) {
                Some(idx) => {
                    let value = self.scopes[cur].table[idx].1.clone();
                    proof {
                        lemma_pairs_of(self.scopes@[cur as int].table@);
                        lemma_table_map_last(
                            self.scope_table(cur as int),
                            key@,
                            idx as int,
                        );
                    }
                    return Ok(value);
                }
                None => {
                    proof {
                        lemma_pairs_of(self.scopes@[cur as int].table@);
                        lemma_table_map_absent(self.scope_table(cur as int), key@);
                    }
                    match self.scopes[cur].parent {
                        Some(p) => {
                            cur = p;
                        }
                        None => {
                            return Err(Error::UnknownFunction(key.clone()));
                        }
                    }
                }
            }
        }
    }

    /// Bind `key` to `value` in scope `s` alone, inserting or overwriting
    /// there and never touching an ancestor: re-binding a name defined in an
    /// ancestor scope shadows it locally.
    pub fn put(&mut self, s: usize, key: String, value: Lval)
        requires
            old(self).wf(),
            s < old(self).n_scopes(),
        ensures
            final(self).wf(),
            final(self).n_scopes() == old(self).n_scopes(),
            final(self).bindings(s as int) == old(self).bindings(s as int).insert(key@, value@),
            old(self).same_but(*final(self), s as int),
    {
        let ghost key_v = key@;
        let ghost value_v = value@;
        let ghost before = self.scopes@[s as int].table@;
        let entry = (key, value);
        let scope = &mut self.scopes[s];
        scope.table.push(entry);
        proof {
            lemma_pairs_of(before);
            lemma_pairs_of(self.scopes@[s as int].table@);
            assert(self.scopes@[s as int].table@ =~= before.push(entry));
            assert(pairs_of(before.push(entry)) =~= pairs_of(before).push((key_v, value_v)));
            lemma_table_map_push(pairs_of(before), (key_v, value_v));
        }
    }
}

/// The index of the last entry of `table` whose key equals `key`, if any.
fn lookup_last(table: &Vec<(String, Lval)>, key: &String) -> (r: Option<usize>)
    ensures
        match r {
            Some(idx) => idx < table@.len() && table@[idx as int].0@ == key@ && forall|j: int|
                idx < j < table@.len() ==> #[trigger] table@[j].0@ != key@,
            None => forall|j: int| 0 <= j < table@.len() ==> #[trigger] table@[j].0@ != key@,
        },
{
    let mut i = table.len();
    while i > 0
        invariant
            i <= table@.len(),
            forall|j: int| i <= j < table@.len() ==> #[trigger] table@[j].0@ != key@,
        decreases i,
    {
        i = i - 1;
        if table[i].0 == *key {
            return Some(i);
        }
    }
    None
}

/// If no entry of a table carries `key`, its map does not bind `key`.
proof fn lemma_table_map_absent(entries: Seq<(Seq<char>, Val)>, key: Seq<char>)
    requires
        forall|j: int| 0 <= j < entries.len() ==> (#[trigger] entries[j]).0 != key,
    ensures
        !table_map(entries).contains_key(key),
    decreases entries.len(),
{
    if entries.len() > 0 {
        lemma_table_map_absent(entries.drop_last(), key);
    }
}

/// The last entry of a table carrying `key` gives the map's value at `key`.
proof fn lemma_table_map_last(entries: Seq<(Seq<char>, Val)>, key: Seq<char>, idx: int)
    requires
        0 <= idx < entries.len(),
        entries[idx].0 == key,
        forall|j: int| idx < j < entries.len() ==> (#[trigger] entries[j]).0 != key,
    ensures
        table_map(entries).contains_key(key),
        table_map(entries)[key] == entries[idx].1,
    decreases entries.len(),
{
    if idx == entries.len() - 1 {
    } else {
        lemma_table_map_last(entries.drop_last(), key, idx);
    }
}


/// A name bound in a scope's own table resolves there, whatever the chain
/// above holds.
pub proof fn lemma_resolve_local(env: Lenv, s: int, key: Seq<char>)
    requires
        env.wf(),
        0 <= s < env.n_scopes(),
        env.bindings(s).contains_key(key),
    ensures
        env.resolve(s, key) == Some(env.bindings(s)[key]),
{
}

/// A name absent from a scope's own table resolves exactly as it does in
/// the parent scope: chain lookup.
pub proof fn lemma_resolve_delegates(env: Lenv, s: int, key: Seq<char>)
    requires
        env.wf(),
        0 <= s < env.n_scopes(),
        !env.bindings(s).contains_key(key),
        env.parent_of(s) matches Some(p),
    ensures
        env.parent_of(s) matches Some(p) ==> env.resolve(s, key) == env.resolve(p as int, key),
{
}

/// At a root scope, an unbound name fails to resolve.
pub proof fn lemma_resolve_root_misses(env: Lenv, s: int, key: Seq<char>)
    requires
        env.wf(),
        0 <= s < env.n_scopes(),
        !env.bindings(s).contains_key(key),
        env.parent_of(s) is None,
    ensures
        env.resolve(s, key) is None,
{
}


} // verus!
