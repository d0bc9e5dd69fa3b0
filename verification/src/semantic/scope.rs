use vstd::prelude::*;

use crate::common::symbol_table_generic::SymbolTable;
use crate::semantic::name_generator::{format_name, gen_next, GenView, NameGenerator};
use crate::util::{append_str, copy_string, string_of};

verus! {

/// What a scope knows of a name: the unique name it stands for, and what the kind of
/// resolution attaches to it.
pub struct NamingData<T> {
    pub unique_name: String,
    pub additional: T,
}

/// The linkage of an identifier: functions have external linkage and keep their name;
/// variables and parameters have none and get a unique name.
#[derive(Debug, Clone, Copy, PartialEq, Eq, Structural)]
pub enum Linkage {
    External,
    NoLinkage,
}

/// The names of one scope, each with its unique name and attached data.
pub open spec fn names_of<T>(m: Map<Seq<char>, NamingData<T>>) -> Map<Seq<char>, (Seq<char>, T)> {
    Map::new(|k: Seq<char>| m.contains_key(k), |k: Seq<char>| (m[k].unique_name@, m[k].additional))
}

/// The innermost entry for `name` in a chain of scopes (innermost last).
pub open spec fn lookup<T>(scopes: Seq<Map<Seq<char>, (Seq<char>, T)>>, name: Seq<char>) -> Option<(Seq<char>, T)>
    decreases scopes.len(),
{
    if scopes.len() == 0 {
        None
    } else if scopes.last().contains_key(name) {
        Some(scopes.last()[name])
    } else {
        lookup(scopes.drop_last(), name)
    }
}

/// Nested scopes, the innermost last; there is always at least one.
pub struct Scope<T> {
    frames: Vec<SymbolTable<NamingData<T>>>,
}

impl<T> View for Scope<T> {
    type V = Seq<Map<Seq<char>, (Seq<char>, T)>>;

    closed spec fn view(&self) -> Seq<Map<Seq<char>, (Seq<char>, T)>> {
        Seq::new(self.frames@.len(), |i: int| names_of(self.frames@[i]@))
    }
}

impl<T: Copy> Scope<T> {
    /// A single empty scope.
    pub fn new() -> (s: Self)
        ensures
            s@ == seq![Map::<Seq<char>, (Seq<char>, T)>::empty()],
    {
        let mut frames: Vec<SymbolTable<NamingData<T>>> = Vec::new();
        frames.push(SymbolTable::new());
        let s = Scope { frames };
        assert(names_of(s.frames@[0]@) =~= Map::<Seq<char>, (Seq<char>, T)>::empty());
        assert(s@ =~= seq![Map::<Seq<char>, (Seq<char>, T)>::empty()]);
        s
    }

    /// Opens an empty scope inside the current one.
    pub fn new_child(&mut self)
        ensures
            final(self)@ == old(self)@.push(Map::empty()),
    {
        self.frames.push(SymbolTable::new());
        proof {
            let n = old(self)@.len() as int;
            assert(names_of(self.frames@[n]@) =~= Map::<Seq<char>, (Seq<char>, T)>::empty());
        }
        assert(self@ =~= old(self)@.push(Map::empty()));
    }

    /// Closes the current scope and goes back to its parent; tells whether there was a parent
    /// (the outermost scope is never closed).
    pub fn get_parent(&mut self) -> (had_parent: bool)
        ensures
            had_parent == (old(self)@.len() > 1),
            final(self)@ == (if had_parent { old(self)@.drop_last() } else { old(self)@ }),
    {
        if self.frames.len() > 1 {
            let _ = self.frames.pop();
            assert(self@ =~= old(self)@.drop_last());
            true
        } else {
            false
        }
    }

    /// The unique name that `name` stands for in the innermost scope that holds it.
    pub fn get_unique_name(&self, name: &str) -> (r: Option<String>)
        ensures
            match lookup(self@, name@) {
                Some(e) => r matches Some(u) && u@ == e.0,
                None => r is None,
            },
    {
        let mut i = self.frames.len();
        assert(self@.subrange(0, i as int) =~= self@);
        while i > 0
            invariant
                i <= self.frames@.len(),
                lookup(self@, name@) == lookup(self@.subrange(0, i as int), name@),
            decreases i,
        {
            let ghost pre = self@.subrange(0, i as int);
            assert(pre.drop_last() =~= self@.subrange(0, i - 1));
            match self.frames[i - 1].get_entry(name) {
                Some(data) => {
                    return Some(copy_string(&data.unique_name));
                },
                None => {},
            }
            i = i - 1;
        }
        None
    }

    /// The attached data of the innermost entry for `name`, and whether the current scope
    /// holds it.
    pub fn get_naming_data(&self, name: &str) -> (r: (Option<T>, bool))
        requires
            self@.len() >= 1,
        ensures
            r.0 == (match lookup(self@, name@) {
                Some(e) => Some(e.1),
                None => None,
            }),
            r.1 == self@.last().contains_key(name@),
    {
        let n = self.frames.len();
        let in_current = match self.frames[n - 1].get_entry(name) {
            Some(_) => true,
            None => false,
        };
        let mut i = n;
        assert(self@.subrange(0, i as int) =~= self@);
        while i > 0
            invariant
                i <= self.frames@.len(),
                in_current == self@.last().contains_key(name@),
                lookup(self@, name@) == lookup(self@.subrange(0, i as int), name@),
            decreases i,
        {
            let ghost pre = self@.subrange(0, i as int);
            assert(pre.drop_last() =~= self@.subrange(0, i - 1));
            match self.frames[i - 1].get_entry(name) {
                Some(data) => {
                    return (Some(data.additional), in_current);
                },
                None => {},
            }
            i = i - 1;
        }
        (None, in_current)
    }

    /// The names of the current scope, each once.
    pub fn get_names_in_current_scope(&self) -> (names: Vec<String>)
        requires
            self@.len() >= 1,
        ensures
            forall|i: int| 0 <= i < names@.len() ==> self@.last().contains_key(#[trigger] names@[i]@),
            forall|k: Seq<char>| self@.last().contains_key(k) ==> exists|i: int| 0 <= i < names@.len() && #[trigger] names@[i]@ == k,
            forall|i: int, j: int| 0 <= i < names@.len() && 0 <= j < names@.len() && i != j ==> #[trigger] names@[i]@ != #[trigger] names@[j]@,
    {
        let n = self.frames.len();
        let all = self.frames[n - 1].get_all_entries();
        let mut names: Vec<String> = Vec::new();
        let mut i: usize = 0;
        while i < all.len()
            invariant
                i <= all@.len(),
                names@.len() == i,
                forall|j: int| 0 <= j < i ==> (#[trigger] names@[j])@ == all@[j].0@,
            decreases all@.len() - i,
        {
            names.push(copy_string(&all[i].0));
            i = i + 1;
        }
        proof {
            assert forall|k: Seq<char>| self@.last().contains_key(k) implies exists|i: int| 0 <= i < names@.len() && #[trigger] names@[i]@ == k by {
                let i = choose|i: int| 0 <= i < all@.len() && #[trigger] all@[i].0@ == k;
                assert(names@[i]@ == k);
            }
            assert forall|i: int, j: int| 0 <= i < names@.len() && 0 <= j < names@.len() && i != j implies #[trigger] names@[i]@ != #[trigger] names@[j]@ by {
                assert(all@[i].0@ != all@[j].0@);
            }
        }
        names
    }

    /// The entry for `name` in the current scope, if it holds one.
    pub fn get_current_info(&self, name: &str) -> (r: Option<&NamingData<T>>)
        requires
            self@.len() >= 1,
        ensures
            match r {
                Some(d) => self@.last().contains_key(name@) && self@.last()[name@] == (d.unique_name@, d.additional),
                None => !self@.last().contains_key(name@),
            },
    {
        let n = self.frames.len();
        self.frames[n - 1].get_entry(name)
    }

    /// Stores an entry for `name` in the current scope, replacing any it held.
    pub fn set_current_info(&mut self, name: &str, data: NamingData<T>)
        requires
            old(self)@.len() >= 1,
        ensures
            final(self)@ == old(self)@.update(
                old(self)@.len() - 1,
                old(self)@.last().insert(name@, (data.unique_name@, data.additional)),
            ),
    {
        let ghost entry = (data.unique_name@, data.additional);
        let n = self.frames.len();
        let mut frame = self.frames.pop().unwrap();
        let _ = frame.insert(name, data);
        self.frames.push(frame);
        proof {
            let last = n - 1;
            assert(names_of(self.frames@[last as int]@) =~= old(self)@.last().insert(name@, entry));
            assert forall|i: int| 0 <= i < last implies self.frames@[i] == old(self).frames@[i] by {}
        }
        assert(self@ =~= old(self)@.update(old(self)@.len() - 1, old(self)@.last().insert(name@, entry)));
    }
}

/// The message for a name declared twice in one scope.
pub open spec fn duplicate_message(name: Seq<char>) -> Seq<char> {
    "'"@ + name + "' already exists in current scope"@
}

/// Adding `name` with `linkage` to the innermost of `scopes`, with the generator `gen`: a name
/// may be declared again in the same scope only when both declarations have external linkage;
/// a name without linkage gets the generator's next unique name, one with external linkage
/// keeps its own. Gives the new scopes, the new generator state and the unique name.
pub open spec fn add_to_scopes(
    scopes: Seq<Map<Seq<char>, (Seq<char>, Linkage)>>,
    gen: GenView,
    name: Seq<char>,
    linkage: Linkage,
) -> Result<(Seq<Map<Seq<char>, (Seq<char>, Linkage)>>, GenView, Seq<char>), Seq<char>> {
    let cur = scopes.last();
    if cur.contains_key(name) && !(cur[name].1 == Linkage::External && linkage == Linkage::External) {
        Err(duplicate_message(name))
    } else {
        let (g, unique) = if linkage == Linkage::NoLinkage {
            gen_next(gen, name)
        } else {
            (gen, name)
        };
        Ok((scopes.update(scopes.len() - 1, cur.insert(name, (unique, linkage))), g, unique))
    }
}

impl Scope<Linkage> {
    /// Declares `name` in the current scope (see `add_to_scopes`) and gives its unique name.
    pub fn add(&mut self, name: &str, linkage: Linkage, name_generator: &mut NameGenerator) -> (r: Result<String, String>)
        requires
            old(self)@.len() >= 1,
        ensures
            match add_to_scopes(old(self)@, old(name_generator)@, name@, linkage) {
                Ok((scopes, g, unique)) => r matches Ok(u) && u@ == unique && final(self)@ == scopes
                    && final(name_generator)@ == g,
                Err(m) => r matches Err(e) && e@ == m && final(self)@ == old(self)@
                    && final(name_generator)@ == old(name_generator)@,
            },
    {
        let (existing, exists_in_current_scope) = self.get_naming_data(name);
        if exists_in_current_scope {
            let ok = match existing {
                Some(Linkage::External) => linkage == Linkage::External,
                _ => false,
            };
            if !ok {
                let mut m = string_of("'");
                append_str(&mut m, name);
                append_str(&mut m, "' already exists in current scope");
                return Err(m);
            }
        }
        let unique_name = if linkage == Linkage::NoLinkage {
            name_generator.make_unique_name(name)
        } else {
            string_of(name)
        };
        let entry = NamingData { unique_name: copy_string(&unique_name), additional: linkage };
        self.set_current_info(name, entry);
        Ok(unique_name)
    }
}


/// Law: a declaration is visible at once. After `name` is declared, looking it up gives the
/// unique name and linkage the declaration made, and every other name is looked up as before.
pub proof fn law_lookup_after_add(
    scopes: Seq<Map<Seq<char>, (Seq<char>, Linkage)>>,
    gen: GenView,
    name: Seq<char>,
    linkage: Linkage,
    other: Seq<char>,
)
    requires
        scopes.len() >= 1,
        add_to_scopes(scopes, gen, name, linkage) is Ok,
    ensures
        lookup(add_to_scopes(scopes, gen, name, linkage)->Ok_0.0, name) == Some(
            (add_to_scopes(scopes, gen, name, linkage)->Ok_0.2, linkage),
        ),
        other != name ==> lookup(add_to_scopes(scopes, gen, name, linkage)->Ok_0.0, other) == lookup(
            scopes,
            other,
        ),
        add_to_scopes(scopes, gen, name, linkage)->Ok_0.0.len() == scopes.len(),
        add_to_scopes(scopes, gen, name, linkage)->Ok_0.0.last()[name] == (
            add_to_scopes(scopes, gen, name, linkage)->Ok_0.2,
            linkage,
        ),
        add_to_scopes(scopes, gen, name, linkage)->Ok_0.0.drop_last() == scopes.drop_last(),
{
    let after = add_to_scopes(scopes, gen, name, linkage)->Ok_0.0;
    assert(after.drop_last() =~= scopes.drop_last());
}

/// Law: an inner scope hides and then gives back. A name declared in a scope opened inside
/// `scopes` shadows any outer declaration of it while that scope is open; once it is closed,
/// the scopes are those from before it was opened.
pub proof fn law_inner_declaration_shadows(
    scopes: Seq<Map<Seq<char>, (Seq<char>, Linkage)>>,
    gen: GenView,
    name: Seq<char>,
    linkage: Linkage,
)
    requires
        add_to_scopes(scopes.push(Map::empty()), gen, name, linkage) is Ok,
    ensures
        lookup(add_to_scopes(scopes.push(Map::empty()), gen, name, linkage)->Ok_0.0, name) == Some(
            (add_to_scopes(scopes.push(Map::empty()), gen, name, linkage)->Ok_0.2, linkage),
        ),
        add_to_scopes(scopes.push(Map::empty()), gen, name, linkage)->Ok_0.0.drop_last() == scopes,
{
    let inner = scopes.push(Map::empty());
    let after = add_to_scopes(inner, gen, name, linkage)->Ok_0.0;
    assert(after.drop_last() =~= scopes);
}


/// Law: when a declaration is refused. Declaring `name` fails exactly when the current scope
/// already holds it and the two declarations do not both have external linkage; the message
/// names it. (`Scope::add` then leaves the scopes and the generator as they were.)
pub proof fn law_add_refused(
    scopes: Seq<Map<Seq<char>, (Seq<char>, Linkage)>>,
    gen: GenView,
    name: Seq<char>,
    linkage: Linkage,
)
    requires
        scopes.len() >= 1,
    ensures
        add_to_scopes(scopes, gen, name, linkage) is Err <==> (scopes.last().contains_key(name) && !(
            scopes.last()[name].1 == Linkage::External && linkage == Linkage::External)),
        add_to_scopes(scopes, gen, name, linkage) matches Err(m) ==> m == duplicate_message(name),
{
}

} // verus!
