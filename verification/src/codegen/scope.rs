//! Nested scopes of identifiers for code generation. Each scope maps names to symbols and may
//! have a parent scope; a name resolves in the innermost scope, going outwards, that defines it.
use vstd::prelude::*;

use crate::text::str_equals;
use crate::types::SimpleType;

verus! {

/// Index of a scope in `Scopes::scopes`.
pub type ScopeID = usize;

/// What a name stands for during code generation: a function, a variable in memory with its
/// type, a formal parameter, or a plain value. The parameters are the kinds of generated values.
pub enum Symbol<F, P, B, A> {
    Function(F),
    Variable { pointer: P, type_: SimpleType },
    Formal(B),
    Value(A),
}

/// The identifiers defined in one scope, and the scope it is nested in.
pub struct Scope<S> {
    pub identifiers: Vec<(String, S)>,
    pub parent_id: Option<ScopeID>,
}

/// The names of `entries` are pairwise different.
pub open spec fn distinct_names<S>(entries: Seq<(String, S)>) -> bool {
    forall|i: int, j: int| 0 <= i < j < entries.len() ==> entries[i].0@ != entries[j].0@
}

/// The symbol that `entries` give `name`, if any.
pub open spec fn table_of<S>(entries: Seq<(String, S)>) -> Map<Seq<char>, S> {
    Map::new(
        |name: Seq<char>| exists|i: int| 0 <= i < entries.len() && entries[i].0@ == name,
        |name: Seq<char>| entries[choose|i: int| 0 <= i < entries.len() && entries[i].0@ == name].1,
    )
}

/// With distinct names, the entry at `i` is what the table gives its name.
proof fn lemma_table_entry<S>(entries: Seq<(String, S)>, i: int)
    requires
        distinct_names(entries),
        0 <= i < entries.len(),
    ensures
        table_of(entries).contains_key(entries[i].0@),
        table_of(entries)[entries[i].0@] == entries[i].1,
{
    let name = entries[i].0@;
    assert(exists|k: int| 0 <= k < entries.len() && entries[k].0@ == name);
    let j = choose|k: int| 0 <= k < entries.len() && entries[k].0@ == name;
    assert(j == i);
}

/// Replacing the symbol at `i`, under the same name, replaces it in the table.
proof fn lemma_table_update<S>(entries: Seq<(String, S)>, i: int, entry: (String, S))
    requires
        distinct_names(entries),
        0 <= i < entries.len(),
        entry.0@ == entries[i].0@,
    ensures
        distinct_names(entries.update(i, entry)),
        table_of(entries.update(i, entry)) == table_of(entries).insert(entry.0@, entry.1),
{
    let updated = entries.update(i, entry);
    assert(distinct_names(updated));
    assert forall|name: Seq<char>| #[trigger] table_of(updated).contains_key(name) implies
        table_of(entries).insert(entry.0@, entry.1).contains_key(name) by {
        let k = choose|k: int| 0 <= k < updated.len() && updated[k].0@ == name;
        assert(entries[k].0@ == name);
    }
    assert forall|name: Seq<char>| #[trigger] table_of(entries).insert(entry.0@, entry.1).contains_key(name) implies
        table_of(updated).contains_key(name) && table_of(updated)[name] == table_of(entries).insert(entry.0@, entry.1)[name] by {
        if name == entry.0@ {
            lemma_table_entry(updated, i);
        } else {
            let k = choose|k: int| 0 <= k < entries.len() && entries[k].0@ == name;
            assert(updated[k].0@ == name);
            lemma_table_entry(updated, k);
            lemma_table_entry(entries, k);
        }
    }
    assert(table_of(updated) =~= table_of(entries).insert(entry.0@, entry.1));
}

/// Adding an entry with a new name adds it to the table.
proof fn lemma_table_push<S>(entries: Seq<(String, S)>, entry: (String, S))
    requires
        distinct_names(entries),
        !table_of(entries).contains_key(entry.0@),
    ensures
        distinct_names(entries.push(entry)),
        table_of(entries.push(entry)) == table_of(entries).insert(entry.0@, entry.1),
{
    let pushed = entries.push(entry);
    assert forall|i: int, j: int| 0 <= i < j < pushed.len() implies pushed[i].0@ != pushed[j].0@ by {
        if j == entries.len() {
            if pushed[i].0@ == entry.0@ {
                assert(table_of(entries).contains_key(entry.0@));
            }
        }
    }
    assert forall|name: Seq<char>| #[trigger] table_of(pushed).contains_key(name) implies
        table_of(entries).insert(entry.0@, entry.1).contains_key(name) by {
        let k = choose|k: int| 0 <= k < pushed.len() && pushed[k].0@ == name;
        if k < entries.len() {
            assert(entries[k].0@ == name);
        }
    }
    assert forall|name: Seq<char>| #[trigger] table_of(entries).insert(entry.0@, entry.1).contains_key(name) implies
        table_of(pushed).contains_key(name) && table_of(pushed)[name] == table_of(entries).insert(entry.0@, entry.1)[name] by {
        if name == entry.0@ {
            lemma_table_entry(pushed, entries.len() as int);
        } else {
            let k = choose|k: int| 0 <= k < entries.len() && entries[k].0@ == name;
            assert(pushed[k].0@ == name);
            lemma_table_entry(pushed, k);
            lemma_table_entry(entries, k);
        }
    }
    assert(table_of(pushed) =~= table_of(entries).insert(entry.0@, entry.1));
}

impl<S> Scope<S> {
    /// The symbols of this scope by name.
    pub open spec fn table(&self) -> Map<Seq<char>, S> {
        table_of(self.identifiers@)
    }

    /// No name is defined twice in this scope.
    pub open spec fn well_formed(&self) -> bool {
        distinct_names(self.identifiers@)
    }

    /// An empty scope nested in `parent_id`.
    pub fn new(parent_id: Option<ScopeID>) -> (scope: Scope<S>)
        ensures
            scope.well_formed(),
            scope.table() == Map::<Seq<char>, S>::empty(),
            scope.parent_id == parent_id,
    {
        let scope = Scope { identifiers: Vec::new(), parent_id };
        assert(scope.table() =~= Map::<Seq<char>, S>::empty());
        scope
    }

    /// The position of `identifier` in this scope, if it is defined here.
    fn position(&self, identifier: &str) -> (found: Option<usize>)
        requires
            self.well_formed(),
        ensures
            match found {
                Some(i) => i < self.identifiers@.len() && self.identifiers@[i as int].0@ == identifier@,
                None => !self.table().contains_key(identifier@),
            },
    {
        let mut i: usize = 0;
        while i < self.identifiers.len()
            invariant
                i <= self.identifiers@.len(),
                forall|k: int| 0 <= k < i ==> self.identifiers@[k].0@ != identifier@,
            decreases self.identifiers@.len() - i,
        {
            if str_equals(self.identifiers[i].0.as_str(), identifier) {
                return Some(i);
            }
            i = i + 1;
        }
        None
    }

    /// The symbol of `identifier` in this scope alone.
    pub fn get(&self, identifier: &str) -> (symbol: Option<&S>)
        requires
            self.well_formed(),
        ensures
            match symbol {
                Some(s) => self.table().contains_key(identifier@) && self.table()[identifier@] == *s,
                None => !self.table().contains_key(identifier@),
            },
    {
        match self.position(identifier) {
            Some(i) => {
                proof {
                    lemma_table_entry(self.identifiers@, i as int);
                }
                Some(&self.identifiers[i].1)
            },
            None => None,
        }
    }

    /// Defines `identifier` as `symbol` in this scope, replacing an earlier definition.
    pub fn insert(&mut self, identifier: &str, symbol: S)
        requires
            old(self).well_formed(),
        ensures
            final(self).well_formed(),
            final(self).table() == old(self).table().insert(identifier@, symbol),
            final(self).parent_id == old(self).parent_id,
    {
        let entry = (identifier.to_string(), symbol);
        match self.position(identifier) {
            Some(i) => {
                proof {
                    lemma_table_update(self.identifiers@, i as int, entry);
                }
                self.identifiers.set(i, entry);
            },
            None => {
                proof {
                    lemma_table_push(self.identifiers@, entry);
                }
                self.identifiers.push(entry);
            },
        }
    }

    /// Defines the formal parameter `identifier` as `value`; a name that is already defined in
    /// this scope is refused.
    pub fn define_param(&mut self, identifier: &str, value: S) -> (r: Result<(), String>)
        requires
            old(self).well_formed(),
        ensures
            final(self).well_formed(),
            final(self).parent_id == old(self).parent_id,
            match r {
                Ok(()) => !old(self).table().contains_key(identifier@)
                    && final(self).table() == old(self).table().insert(identifier@, value),
                Err(message) => old(self).table().contains_key(identifier@)
                    && final(self).table() == old(self).table()
                    && message@ == "Attempt to redefine identifier "@ + identifier@ + " as a formal parameter"@,
            },
    {
        if self.position(identifier).is_some() {
            let mut message = "Attempt to redefine identifier ".to_string();
            message.append(identifier);
            message.append(" as a formal parameter");
            proof {
                let i = choose|i: int| 0 <= i < self.identifiers@.len() && self.identifiers@[i].0@ == identifier@;
            }
            return Err(message);
        }
        self.insert(identifier, value);
        Ok(())
    }
}

/// The scopes of a program being generated, with the one that is current. Scope 0 is the global
/// scope.
pub struct Scopes<S> {
    pub scopes: Vec<Scope<S>>,
    pub current_scope_id: ScopeID,
}

/// There is a global scope, every scope is well formed and every parent comes before its
/// children.
pub open spec fn scopes_well_formed<S>(scopes: Seq<Scope<S>>) -> bool {
    &&& 0 < scopes.len()
    &&& forall|i: int| 0 <= i < scopes.len() ==> (#[trigger] scopes[i]).well_formed()
    &&& forall|i: int| 0 <= i < scopes.len() ==> match (#[trigger] scopes[i]).parent_id {
        Some(p) => p < i,
        None => true,
    }
}

/// The symbol that `name` resolves to from scope `id` of `scopes`: its definition in that
/// scope, or else in the parent scope, and so on outwards.
pub open spec fn resolve_in<S>(scopes: Seq<Scope<S>>, name: Seq<char>, id: int) -> Option<S>
    decreases id,
{
    if !(0 <= id < scopes.len()) {
        None
    } else if scopes[id].table().contains_key(name) {
        Some(scopes[id].table()[name])
    } else {
        match scopes[id].parent_id {
            Some(p) => if p < id { resolve_in(scopes, name, p as int) } else { None },
            None => None,
        }
    }
}

/// Adding a scope at the end changes no resolution from the scopes before it.
proof fn lemma_resolve_push<S>(scopes: Seq<Scope<S>>, inner: Scope<S>, name: Seq<char>, id: int)
    requires
        0 <= id < scopes.len(),
    ensures
        resolve_in(scopes.push(inner), name, id) == resolve_in(scopes, name, id),
    decreases id,
{
    assert(scopes.push(inner)[id] == scopes[id]);
    match scopes[id].parent_id {
        Some(p) => if p < id {
            lemma_resolve_push(scopes, inner, name, p as int);
        },
        None => {},
    }
}

/// Replacing scope `c` by one with the same parent and the same definition of `name` changes
/// no resolution of `name`.
proof fn lemma_resolve_update<S>(scopes: Seq<Scope<S>>, c: int, scope: Scope<S>, name: Seq<char>, id: int)
    requires
        0 <= c < scopes.len(),
        scope.parent_id == scopes[c].parent_id,
        scope.table().contains_key(name) == scopes[c].table().contains_key(name),
        scope.table().contains_key(name) ==> scope.table()[name] == scopes[c].table()[name],
    ensures
        resolve_in(scopes.update(c, scope), name, id) == resolve_in(scopes, name, id),
    decreases id,
{
    if 0 <= id < scopes.len() {
        match scopes[id].parent_id {
            Some(p) => if p < id {
                lemma_resolve_update(scopes, c, scope, name, p as int);
            },
            None => {},
        }
    }
}

impl<S> Scopes<S> {
    /// The scopes are well formed and the current scope exists.
    pub open spec fn well_formed(&self) -> bool {
        &&& scopes_well_formed(self.scopes@)
        &&& self.current_scope_id < self.scopes@.len()
    }

    /// The symbol that `name` resolves to from scope `id`.
    pub open spec fn spec_resolve(&self, name: Seq<char>, id: int) -> Option<S> {
        resolve_in(self.scopes@, name, id)
    }

    /// What `name` resolves to from the current scope.
    pub open spec fn spec_resolve_current(&self, name: Seq<char>) -> Option<S> {
        self.spec_resolve(name, self.current_scope_id as int)
    }

    /// Only the global scope, which is current.
    pub fn new() -> (scopes: Scopes<S>)
        ensures
            scopes.well_formed(),
            scopes.scopes@.len() == 1,
            scopes.scopes@[0].table() == Map::<Seq<char>, S>::empty(),
            scopes.current_scope_id == 0,
    {
        let mut scopes = Vec::new();
        scopes.push(Scope::new(None));
        Scopes { scopes, current_scope_id: 0 }
    }

    pub fn get_global_scope(&self) -> (scope: &Scope<S>)
        requires
            self.well_formed(),
        ensures
            *scope == self.scopes@[0],
    {
        &self.scopes[0]
    }

    pub fn get_scope(&self, scope_id: &ScopeID) -> (scope: &Scope<S>)
        requires
            *scope_id < self.scopes@.len(),
        ensures
            *scope == self.scopes@[*scope_id as int],
    {
        &self.scopes[*scope_id]
    }

    pub fn get_current_scope(&self) -> (scope: &Scope<S>)
        requires
            self.well_formed(),
        ensures
            *scope == self.scopes@[self.current_scope_id as int],
    {
        &self.scopes[self.current_scope_id]
    }

    pub fn get_global_scope_mut(&mut self) -> (scope: &mut Scope<S>)
        requires
            old(self).well_formed(),
        ensures
            *scope == old(self).scopes@[0],
            final(self).scopes@ == old(self).scopes@.update(0, *final(scope)),
            final(self).current_scope_id == old(self).current_scope_id,
    {
        &mut self.scopes[0]
    }

    pub fn get_scope_mut(&mut self, scope_id: &ScopeID) -> (scope: &mut Scope<S>)
        requires
            *scope_id < old(self).scopes@.len(),
        ensures
            *scope == old(self).scopes@[*scope_id as int],
            final(self).scopes@ == old(self).scopes@.update(*scope_id as int, *final(scope)),
            final(self).current_scope_id == old(self).current_scope_id,
    {
        &mut self.scopes[*scope_id]
    }

    pub fn get_current_scope_mut(&mut self) -> (scope: &mut Scope<S>)
        requires
            old(self).well_formed(),
        ensures
            *scope == old(self).scopes@[old(self).current_scope_id as int],
            final(self).scopes@ == old(self).scopes@.update(old(self).current_scope_id as int, *final(scope)),
            final(self).current_scope_id == old(self).current_scope_id,
    {
        let id = self.current_scope_id;
        &mut self.scopes[id]
    }

    /// Opens a new, empty scope inside the current one, makes it current and hands it out.
    /// The scopes stay well formed as long as that scope does and keeps its parent.
    pub fn push_new_scope(&mut self) -> (scope: &mut Scope<S>)
        requires
            old(self).well_formed(),
        ensures
            scope.well_formed(),
            scope.table() == Map::<Seq<char>, S>::empty(),
            scope.parent_id == Some(old(self).current_scope_id),
            final(self).scopes@ == old(self).scopes@.push(*final(scope)),
            final(self).current_scope_id == old(self).scopes@.len(),
    {
        let scope = Scope::new(Some(self.current_scope_id));
        self.scopes.push(scope);
        self.current_scope_id = self.scopes.len() - 1;
        let id = self.current_scope_id;
        &mut self.scopes[id]
    }

    /// Leaves the current scope: its parent becomes current. The global scope cannot be left.
    pub fn pop_scope(&mut self)
        requires
            old(self).well_formed(),
            old(self).scopes@[old(self).current_scope_id as int].parent_id is Some,
        ensures
            final(self).well_formed(),
            final(self).scopes == old(self).scopes,
            Some(final(self).current_scope_id) == old(self).scopes@[old(self).current_scope_id as int].parent_id,
    {
        let parent = self.scopes[self.current_scope_id].parent_id;
        match parent {
            Some(p) => {
                self.current_scope_id = p;
            },
            None => {},
        }
    }

    /// The symbol that `identifier` resolves to from the scope `scope_id`.
    pub fn resolve_identifier_in_scope(&self, identifier: &str, scope_id: &ScopeID) -> (symbol: Option<&S>)
        requires
            self.well_formed(),
            *scope_id < self.scopes@.len(),
        ensures
            match symbol {
                Some(s) => self.spec_resolve(identifier@, *scope_id as int) == Some(*s),
                None => self.spec_resolve(identifier@, *scope_id as int) is None,
            },
        decreases *scope_id,
    {
        let scope = self.get_scope(scope_id);
        match scope.get(identifier) {
            Some(symbol) => Some(symbol),
            None => match scope.parent_id {
                Some(parent_id) => {
                    assert(self.scopes@[*scope_id as int].well_formed());
                    self.resolve_identifier_in_scope(identifier, &parent_id)
                },
                None => None,
            },
        }
    }

    /// The symbol that `identifier` resolves to from the current scope.
    pub fn resolve_identifier(&self, identifier: &str) -> (symbol: Option<&S>)
        requires
            self.well_formed(),
        ensures
            match symbol {
                Some(s) => self.spec_resolve_current(identifier@) == Some(*s),
                None => self.spec_resolve_current(identifier@) is None,
            },
    {
        self.resolve_identifier_in_scope(identifier, &self.current_scope_id)
    }

    /// Defines `identifier` in the scope `id`, replacing an earlier definition there.
    fn define_in(&mut self, id: ScopeID, identifier: &str, rvalue: S)
        requires
            old(self).well_formed(),
            id < old(self).scopes@.len(),
        ensures
            final(self).well_formed(),
            final(self).current_scope_id == old(self).current_scope_id,
            final(self).scopes@ == old(self).scopes@.update(id as int, final(self).scopes@[id as int]),
            final(self).scopes@[id as int].table() == old(self).scopes@[id as int].table().insert(identifier@, rvalue),
            final(self).scopes@[id as int].parent_id == old(self).scopes@[id as int].parent_id,
    {
        let mut scope = Scope::new(None);
        assert(self.scopes@[id as int].well_formed());
        std::mem::swap(&mut scope, &mut self.scopes[id]);
        scope.insert(identifier, rvalue);
        std::mem::swap(&mut scope, &mut self.scopes[id]);
        assert forall|i: int| 0 <= i < self.scopes@.len() implies (#[trigger] self.scopes@[i]).well_formed() by {
            if i != id {
                assert(self.scopes@[i] == old(self).scopes@[i]);
            }
        }
        assert forall|i: int| 0 <= i < self.scopes@.len() implies match (#[trigger] self.scopes@[i]).parent_id {
            Some(p) => p < i,
            None => true,
        } by {
            if i != id {
                assert(self.scopes@[i] == old(self).scopes@[i]);
            }
        }
        assert(self.scopes@ =~= old(self).scopes@.update(id as int, self.scopes@[id as int]));
    }

    /// Defines `identifier` in the current scope, replacing an earlier definition there.
    pub fn define_identifier(&mut self, identifier: &str, rvalue: S)
        requires
            old(self).well_formed(),
        ensures
            final(self).well_formed(),
            final(self).current_scope_id == old(self).current_scope_id,
            final(self).scopes@.len() == old(self).scopes@.len(),
            forall|i: int| 0 <= i < old(self).scopes@.len() && i != old(self).current_scope_id ==> final(self).scopes@[i] == old(self).scopes@[i],
            final(self).scopes@[old(self).current_scope_id as int].table()
                == old(self).scopes@[old(self).current_scope_id as int].table().insert(identifier@, rvalue),
            final(self).scopes@[old(self).current_scope_id as int].parent_id
                == old(self).scopes@[old(self).current_scope_id as int].parent_id,
            final(self).spec_resolve_current(identifier@) == Some(rvalue),
            forall|name: Seq<char>| name != identifier@ ==> #[trigger] final(self).spec_resolve_current(name) == old(self).spec_resolve_current(name),
    {
        let id = self.current_scope_id;
        self.define_in(id, identifier, rvalue);
        proof {
            assert(self.scopes@ == old(self).scopes@.update(id as int, self.scopes@[id as int]));
            assert forall|name: Seq<char>| name != identifier@ implies #[trigger] self.spec_resolve_current(name) == old(self).spec_resolve_current(name) by {
                lemma_resolve_update(old(self).scopes@, id as int, self.scopes@[id as int], name, id as int);
            }
        }
    }

    /// Defines `identifier` in the global scope, replacing an earlier definition there.
    pub fn define_global_identifier(&mut self, identifier: &str, rvalue: S)
        requires
            old(self).well_formed(),
        ensures
            final(self).well_formed(),
            final(self).current_scope_id == old(self).current_scope_id,
            final(self).scopes@.len() == old(self).scopes@.len(),
            forall|i: int| 0 < i < old(self).scopes@.len() ==> final(self).scopes@[i] == old(self).scopes@[i],
            final(self).scopes@[0].table() == old(self).scopes@[0].table().insert(identifier@, rvalue),
            final(self).scopes@[0].parent_id == old(self).scopes@[0].parent_id,
    {
        self.define_in(0, identifier, rvalue);
    }
}

impl<F: Copy, P, B, A> Scopes<Symbol<F, P, B, A>> {
    /// The function that `identifier` resolves to from the current scope, if it resolves to a
    /// function.
    pub fn resolve_function(&self, identifier: &str) -> (function: Option<F>)
        requires
            self.well_formed(),
        ensures
            function == match self.spec_resolve_current(identifier@) {
                Some(Symbol::Function(f)) => Some(f),
                _ => None,
            },
    {
        match self.resolve_identifier(identifier) {
            Some(Symbol::Function(function)) => Some(*function),
            _ => None,
        }
    }

    /// Defines `identifier` as the function `function` in the global scope.
    pub fn define_global_function(&mut self, identifier: &str, function: F)
        requires
            old(self).well_formed(),
        ensures
            final(self).well_formed(),
            final(self).current_scope_id == old(self).current_scope_id,
            final(self).scopes@.len() == old(self).scopes@.len(),
            forall|i: int| 0 < i < old(self).scopes@.len() ==> final(self).scopes@[i] == old(self).scopes@[i],
            final(self).scopes@[0].table() == old(self).scopes@[0].table().insert(identifier@, Symbol::Function(function)),
            final(self).scopes@[0].parent_id == old(self).scopes@[0].parent_id,
    {
        self.define_global_identifier(identifier, Symbol::Function(function));
    }
}

/// Opening a scope inside scope `current` and then leaving it: inside, a name resolves to its
/// definition in the new scope if it has one and otherwise as it did from `current`; the new
/// scope's parent, which leaving it makes current again, is `current`, from which every name
/// resolves as before.
pub proof fn law_scope_nesting<S>(scopes: Seq<Scope<S>>, current: usize, inner: Scope<S>, name: Seq<char>)
    requires
        scopes_well_formed(scopes),
        0 <= current < scopes.len(),
        inner.well_formed(),
        inner.parent_id == Some(current),
    ensures
        scopes_well_formed(scopes.push(inner)),
        resolve_in(scopes.push(inner), name, scopes.len() as int) == if inner.table().contains_key(name) {
            Some(inner.table()[name])
        } else {
            resolve_in(scopes, name, current as int)
        },
        scopes.push(inner)[scopes.len() as int].parent_id == Some(current),
        resolve_in(scopes.push(inner), name, current as int) == resolve_in(scopes, name, current as int),
{
    let pushed = scopes.push(inner);
    assert forall|i: int| 0 <= i < pushed.len() implies (#[trigger] pushed[i]).well_formed() by {
        if i < scopes.len() {
            assert(pushed[i] == scopes[i]);
        }
    }
    assert forall|i: int| 0 <= i < pushed.len() implies match (#[trigger] pushed[i]).parent_id {
        Some(p) => p < i,
        None => true,
    } by {
        if i < scopes.len() {
            assert(pushed[i] == scopes[i]);
        }
    }
    lemma_resolve_push(scopes, inner, name, current as int);
    assert(pushed[scopes.len() as int] == inner);
}

} // verus!
