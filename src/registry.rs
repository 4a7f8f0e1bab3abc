//! The collection registry: the known collections, in order of creation, and
//! the active one.

use vstd::prelude::*;
use vstd::string::*;

verus! {

/// The name of the collection that a fresh registry holds.
pub const DEFAULT_COLLECTION: &'static str = "default";

/// The texts of a list of names.
pub open spec fn names_of(v: Seq<String>) -> Seq<Seq<char>> {
    v.map_values(|s: String| s@)
}

/// The registry document as it is stored: an active name and the list of
/// collections. A document read back from disk has not been checked yet.
pub struct CollectionLock {
    pub active: String,
    pub collections: Vec<String>,
}

/// What a registry holds, as values.
pub ghost struct RegistryView {
    pub active: Seq<char>,
    pub names: Seq<Seq<char>>,
}

impl RegistryView {
    /// At least one collection, no name twice, and the active one among them.
    pub open spec fn wf(self) -> bool {
        &&& self.names.len() > 0
        &&& self.names.no_duplicates()
        &&& self.names.contains(self.active)
    }

    /// The registry after `name` is appended.
    pub open spec fn created(self, name: Seq<char>) -> RegistryView {
        RegistryView { active: self.active, names: self.names.push(name) }
    }

    /// The registry after `name` is removed; if it was active, the first
    /// remaining collection becomes active.
    pub open spec fn deleted(self, name: Seq<char>) -> RegistryView {
        let names = self.names.remove(self.names.index_of(name));
        RegistryView { active: if self.active == name { names[0] } else { self.active }, names }
    }

    /// The registry after `name` is replaced by `new_name` in its place, the
    /// active name following it.
    pub open spec fn renamed(self, name: Seq<char>, new_name: Seq<char>) -> RegistryView {
        RegistryView {
            active: if self.active == name { new_name } else { self.active },
            names: self.names.update(self.names.index_of(name), new_name),
        }
    }

    /// The registry with `name` active.
    pub open spec fn activated(self, name: Seq<char>) -> RegistryView {
        RegistryView { active: name, names: self.names }
    }
}

/// The registry that a fresh configuration starts with.
pub open spec fn default_registry() -> RegistryView {
    RegistryView { active: DEFAULT_COLLECTION@, names: seq![DEFAULT_COLLECTION@] }
}

/// An operation on the registry, with its arguments.
pub ghost enum RegistryCall {
    Use(Seq<char>),
    Create(Seq<char>),
    Delete(Seq<char>),
    Rename(Seq<char>, Seq<char>),
}

impl RegistryView {
    /// Whether `call` is carried out, or else why it is refused.
    pub open spec fn outcome(self, call: RegistryCall) -> Result<(), RegistryError> {
        match call {
            RegistryCall::Use(name) => if self.names.contains(name) {
                Ok(())
            } else {
                Err(RegistryError::CollectionNotFound)
            },
            RegistryCall::Create(name) => if self.names.contains(name) {
                Err(RegistryError::CollectionExists)
            } else {
                Ok(())
            },
            RegistryCall::Delete(name) => if self.names.len() == 1 {
                Err(RegistryError::LastCollection)
            } else if !self.names.contains(name) {
                Err(RegistryError::CollectionNotFound)
            } else {
                Ok(())
            },
            RegistryCall::Rename(name, new_name) => if self.names.contains(new_name) {
                Err(RegistryError::CollectionExists)
            } else if !self.names.contains(name) {
                Err(RegistryError::CollectionNotFound)
            } else {
                Ok(())
            },
        }
    }

    /// The registry after `call`: unchanged when the call is refused.
    pub open spec fn apply(self, call: RegistryCall) -> RegistryView {
        if self.outcome(call) is Err {
            self
        } else {
            match call {
                RegistryCall::Use(name) => self.activated(name),
                RegistryCall::Create(name) => self.created(name),
                RegistryCall::Delete(name) => self.deleted(name),
                RegistryCall::Rename(name, new_name) => self.renamed(name, new_name),
            }
        }
    }

    /// The registry after each call of `calls` in turn.
    pub open spec fn run(self, calls: Seq<RegistryCall>) -> RegistryView
        decreases calls.len(),
    {
        if calls.len() == 0 {
            self
        } else {
            self.apply(calls[0]).run(calls.drop_first())
        }
    }
}

proof fn lemma_created_wf(s: RegistryView, name: Seq<char>)
    requires
        s.wf(),
        !s.names.contains(name),
    ensures
        s.created(name).wf(),
{
    let t = s.created(name).names;
    assert forall|a: int, b: int| 0 <= a < t.len() && 0 <= b < t.len() && a != b implies t[a]
        != t[b] by {
        if a < s.names.len() && b < s.names.len() {
            assert(s.names[a] == t[a] && s.names[b] == t[b]);
        } else if a < s.names.len() {
            assert(s.names[a] == t[a]);
        } else {
            assert(s.names[b] == t[b]);
        }
    }
    let q = choose|q: int| 0 <= q < s.names.len() && s.names[q] == s.active;
    assert(t[q] == s.active);
}

proof fn lemma_deleted_wf(s: RegistryView, name: Seq<char>)
    requires
        s.wf(),
        s.names.len() > 1,
        s.names.contains(name),
    ensures
        s.deleted(name).wf(),
        s.names[s.names.index_of(name)] == name,
{
    let p = s.names.index_of(name);
    let after = s.deleted(name);
    let t = after.names;
    assert(t =~= s.names.remove(p));
    assert forall|a: int, b: int| 0 <= a < t.len() && 0 <= b < t.len() && a != b implies t[a]
        != t[b] by {
        let a2 = if a < p { a } else { a + 1 };
        let b2 = if b < p { b } else { b + 1 };
        assert(t[a] == s.names[a2] && t[b] == s.names[b2]);
    }
    if s.active == name {
        assert(t[0] == after.active);
    } else {
        let q = choose|q: int| 0 <= q < s.names.len() && s.names[q] == s.active;
        assert(q != p);
        let q2 = if q < p { q } else { q - 1 };
        assert(t[q2] == after.active);
    }
}

proof fn lemma_renamed_wf(s: RegistryView, name: Seq<char>, new_name: Seq<char>)
    requires
        s.wf(),
        s.names.contains(name),
        !s.names.contains(new_name),
    ensures
        s.renamed(name, new_name).wf(),
        s.names[s.names.index_of(name)] == name,
{
    let p = s.names.index_of(name);
    let after = s.renamed(name, new_name);
    let t = after.names;
    assert forall|a: int, b: int| 0 <= a < t.len() && 0 <= b < t.len() && a != b implies t[a]
        != t[b] by {
        if a == p {
            assert(s.names[b] == t[b]);
        } else if b == p {
            assert(s.names[a] == t[a]);
        } else {
            assert(s.names[a] == t[a] && s.names[b] == t[b]);
        }
    }
    if s.active == name {
        assert(t[p] == after.active);
    } else {
        let q = choose|q: int| 0 <= q < s.names.len() && s.names[q] == s.active;
        assert(q != p);
        assert(t[q] == after.active);
    }
}

/// Every call keeps the registry well formed.
proof fn lemma_apply_wf(s: RegistryView, call: RegistryCall)
    requires
        s.wf(),
    ensures
        s.apply(call).wf(),
{
    if s.outcome(call) is Ok {
        match call {
            RegistryCall::Use(name) => {},
            RegistryCall::Create(name) => lemma_created_wf(s, name),
            RegistryCall::Delete(name) => lemma_deleted_wf(s, name),
            RegistryCall::Rename(name, new_name) => lemma_renamed_wf(s, name, new_name),
        }
    }
}

/// Whatever sequence of calls is made on a well-formed registry, the names
/// stay unique and non-empty and the active name stays among them.
pub proof fn lemma_calls_keep_registry_valid(s: RegistryView, calls: Seq<RegistryCall>)
    requires
        s.wf(),
    ensures
        s.run(calls).wf(),
    decreases calls.len(),
{
    if calls.len() > 0 {
        lemma_apply_wf(s, calls[0]);
        lemma_calls_keep_registry_valid(s.apply(calls[0]), calls.drop_first());
    }
}

/// Creating the same collection twice: the second call is refused with
/// `CollectionExists`, and the registry is as the first call left it.
pub proof fn lemma_create_twice(s: RegistryView, name: Seq<char>)
    requires
        s.wf(),
    ensures
        s.apply(RegistryCall::Create(name)).outcome(RegistryCall::Create(name)) == Err::<
            (),
            RegistryError,
        >(RegistryError::CollectionExists),
        s.apply(RegistryCall::Create(name)).apply(RegistryCall::Create(name)) == s.apply(
            RegistryCall::Create(name),
        ),
{
    let once = s.apply(RegistryCall::Create(name));
    if !s.names.contains(name) {
        assert(once.names[s.names.len() as int] == name);
    }
}

/// Deleting from a registry of one collection is refused with
/// `LastCollection` and changes nothing.
pub proof fn lemma_delete_last(s: RegistryView, name: Seq<char>)
    requires
        s.wf(),
        s.names.len() == 1,
    ensures
        s.outcome(RegistryCall::Delete(name)) == Err::<(), RegistryError>(
            RegistryError::LastCollection,
        ),
        s.apply(RegistryCall::Delete(name)) == s,
{
}

/// Deleting the active collection, when others remain, makes the first
/// remaining collection (in list order) active.
pub proof fn lemma_delete_active(s: RegistryView)
    requires
        s.wf(),
        s.names.len() > 1,
    ensures
        s.outcome(RegistryCall::Delete(s.active)) is Ok,
        s.apply(RegistryCall::Delete(s.active)).active == s.apply(
            RegistryCall::Delete(s.active),
        ).names[0],
        s.apply(RegistryCall::Delete(s.active)).names == s.names.remove(
            s.names.index_of(s.active),
        ),
        !s.apply(RegistryCall::Delete(s.active)).names.contains(s.active),
{
    lemma_deleted_wf(s, s.active);
    let p = s.names.index_of(s.active);
    let t = s.names.remove(p);
    if t.contains(s.active) {
        let q = choose|q: int| 0 <= q < t.len() && t[q] == s.active;
        let q2 = if q < p { q } else { q + 1 };
        assert(s.names[q2] == s.active && q2 != p);
    }
}

/// Renaming the active collection leaves the new name active.
pub proof fn lemma_rename_active(s: RegistryView, new_name: Seq<char>)
    requires
        s.wf(),
        !s.names.contains(new_name),
    ensures
        s.outcome(RegistryCall::Rename(s.active, new_name)) is Ok,
        s.apply(RegistryCall::Rename(s.active, new_name)).active == new_name,
{
}

/// Why a registry operation was refused. A refused operation changes nothing.
#[derive(Debug, Clone, Copy, PartialEq, Eq, Structural)]
pub enum RegistryError {
    /// The named collection is not in the registry.
    CollectionNotFound,
    /// A collection of that name is already in the registry.
    CollectionExists,
    /// The registry holds a single collection, which cannot be deleted.
    LastCollection,
}

impl RegistryError {
    /// The message that reports this refusal, for the collection `name` that
    /// the call named (the new name, for a rename refused as existing).
    pub fn message(&self, name: &str) -> (r: String)
        ensures
            *self == RegistryError::CollectionNotFound ==> r@ == "✗ Collection '"@ + name@
                + "' does not exist"@,
            *self == RegistryError::CollectionExists ==> r@ == "✗ Collection '"@ + name@
                + "' already exists"@,
            *self == RegistryError::LastCollection ==> r@ == "✗ Cannot delete the last collection"@,
    {
        match self {
            RegistryError::CollectionNotFound => {
                let mut r = "✗ Collection '".to_owned();
                r.append(name);
                r.append("' does not exist");
                r
            },
            RegistryError::CollectionExists => {
                let mut r = "✗ Collection '".to_owned();
                r.append(name);
                r.append("' already exists");
                r
            },
            RegistryError::LastCollection => "✗ Cannot delete the last collection".to_owned(),
        }
    }
}

/// The registry of collections and the active one.
pub struct AegCore {
    pub active_collection: String,
    pub collections: Vec<String>,
}

/// The position of `name` in `v`.
fn position_of(v: &Vec<String>, name: &String) -> (r: Option<usize>)
    ensures
        r matches Some(i) ==> i < v@.len() && v@[i as int]@ == name@,
        r is None ==> !names_of(v@).contains(name@),
{
    let mut i: usize = 0;
    while i < v.len()
        invariant
            i <= v@.len(),
            forall|j: int| 0 <= j < i ==> v@[j]@ != name@,
        decreases v@.len() - i,
    {
        if v[i] == *name {
            return Some(i);
        }
        i = i + 1;
    }
    assert(!names_of(v@).contains(name@)) by {
        if names_of(v@).contains(name@) {
            let j = choose|j: int| 0 <= j < names_of(v@).len() && names_of(v@)[j] == name@;
            assert(v@[j]@ == name@);
        }
    }
    None
}

/// A copy of a list of names.
fn copy_names(v: &Vec<String>) -> (r: Vec<String>)
    ensures
        names_of(r@) == names_of(v@),
{
    let mut r: Vec<String> = Vec::new();
    let mut i: usize = 0;
    while i < v.len()
        invariant
            i <= v@.len(),
            r@.len() == i,
            forall|k: int| 0 <= k < i ==> r@[k]@ == v@[k]@,
        decreases v@.len() - i,
    {
        r.push(v[i].clone());
        i = i + 1;
    }
    assert(names_of(r@) =~= names_of(v@));
    r
}

impl AegCore {
    /// What the registry holds.
    pub open spec fn view(&self) -> RegistryView {
        RegistryView { active: self.active_collection@, names: names_of(self.collections@) }
    }

    pub open spec fn wf(&self) -> bool {
        self.view().wf()
    }

    /// A fresh registry: one collection, `default`, active.
    pub fn new() -> (r: AegCore)
        ensures
            r.view() == default_registry(),
            r.wf(),
    {
        let r = AegCore {
            active_collection: DEFAULT_COLLECTION.to_owned(),
            collections: vec![DEFAULT_COLLECTION.to_owned()],
        };
        assert(r.view().names =~= seq![DEFAULT_COLLECTION@]);
        assert(r.view().names.no_duplicates());
        assert(r.view().names[0] == r.view().active);
        r
    }

    /// The registry that a stored document describes, when it is well formed:
    /// some collections, none named twice, the active one among them.
    pub fn load(lock: CollectionLock) -> (r: Option<AegCore>)
        ensures
            r is Some <==> (RegistryView {
                active: lock.active@,
                names: names_of(lock.collections@),
            }).wf(),
            r matches Some(c) ==> c.wf() && c.active_collection@ == lock.active@ && names_of(
                c.collections@,
            ) == names_of(lock.collections@),
    {
        let n = lock.collections.len();
        if n == 0 {
            return None;
        }
        let mut i: usize = 0;
        while i < n
            invariant
                n == lock.collections@.len(),
                i <= n,
                names_of(lock.collections@).take(i as int).no_duplicates(),
            decreases n - i,
        {
            let mut j: usize = 0;
            while j < i
                invariant
                    n == lock.collections@.len(),
                    j <= i < n,
                    forall|k: int| 0 <= k < j ==> lock.collections@[k]@ != lock.collections@[i as int]@,
                decreases i - j,
            {
                if lock.collections[j] == lock.collections[i] {
                    assert(!names_of(lock.collections@).no_duplicates()) by {
                        assert(names_of(lock.collections@)[j as int] == names_of(
                            lock.collections@,
                        )[i as int]);
                    }
                    return None;
                }
                j = j + 1;
            }
            i = i + 1;
            assert(names_of(lock.collections@).take(i as int).no_duplicates()) by {
                let s = names_of(lock.collections@).take(i as int);
                assert forall|a: int, b: int| 0 <= a < s.len() && 0 <= b < s.len() && a != b implies s[a]
                    != s[b] by {
                    if a < i - 1 && b < i - 1 {
                        assert(names_of(lock.collections@).take(i - 1)[a] == s[a]);
                        assert(names_of(lock.collections@).take(i - 1)[b] == s[b]);
                    }
                }
            }
        }
        assert(names_of(lock.collections@).take(n as int) =~= names_of(lock.collections@));
        match position_of(&lock.collections, &lock.active) {
            Some(p) => {
                assert(names_of(lock.collections@)[p as int] == lock.active@);
                Some(AegCore { active_collection: lock.active, collections: lock.collections })
            },
            None => None,
        }
    }

    /// The document that stores this registry.
    pub fn to_lock(&self) -> (r: CollectionLock)
        ensures
            r.active@ == self.active_collection@,
            names_of(r.collections@) == names_of(self.collections@),
    {
        CollectionLock {
            active: self.active_collection.clone(),
            collections: copy_names(&self.collections),
        }
    }

    /// The active collection's name.
    pub fn get_active_collection(&self) -> (r: &str)
        ensures
            r@ == self.active_collection@,
    {
        self.active_collection.as_str()
    }

    /// The collections, in order.
    pub fn list(&self) -> (r: Vec<String>)
        ensures
            names_of(r@) == self.view().names,
    {
        copy_names(&self.collections)
    }

    /// Makes `name` the active collection.
    pub fn set_active_collection(&mut self, name: &str) -> (r: Result<(), RegistryError>)
        requires
            old(self).wf(),
        ensures
            final(self).wf(),
            r == old(self).view().outcome(RegistryCall::Use(name@)),
            final(self).view() == old(self).view().apply(RegistryCall::Use(name@)),
    {
        let name = name.to_owned();
        match position_of(&self.collections, &name) {
            Some(p) => {
                assert(self.view().names[p as int] == name@);
                self.active_collection = name;
                Ok(())
            },
            None => Err(RegistryError::CollectionNotFound),
        }
    }

    /// Appends a new collection named `name`.
    pub fn create_collection(&mut self, name: &str) -> (r: Result<(), RegistryError>)
        requires
            old(self).wf(),
        ensures
            final(self).wf(),
            r == old(self).view().outcome(RegistryCall::Create(name@)),
            final(self).view() == old(self).view().apply(RegistryCall::Create(name@)),
    {
        let name = name.to_owned();
        match position_of(&self.collections, &name) {
            Some(p) => {
                assert(self.view().names[p as int] == name@);
                Err(RegistryError::CollectionExists)
            },
            None => {
                let ghost before = self.view();
                self.collections.push(name);
                assert(self.view().names =~= before.names.push(name@));
                proof {
                    lemma_created_wf(before, name@);
                }
                Ok(())
            },
        }
    }

    /// Removes the collection `name`. When it was active, the first remaining
    /// collection becomes active. The last collection cannot be removed.
    pub fn delete_collection(&mut self, name: &str) -> (r: Result<(), RegistryError>)
        requires
            old(self).wf(),
        ensures
            final(self).wf(),
            r == old(self).view().outcome(RegistryCall::Delete(name@)),
            final(self).view() == old(self).view().apply(RegistryCall::Delete(name@)),
    {
        if self.collections.len() == 1 {
            return Err(RegistryError::LastCollection);
        }
        let name = name.to_owned();
        match position_of(&self.collections, &name) {
            Some(p) => {
                let ghost before = self.view();
                assert(before.names[p as int] == name@);
                proof {
                    lemma_deleted_wf(before, name@);
                    assert(before.names.index_of(name@) == p);
                }
                self.collections.remove(p);
                assert(self.view().names =~= before.names.remove(p as int));
                if self.active_collection == name {
                    self.active_collection = self.collections[0].clone();
                }
                assert(self.view() == before.deleted(name@));
                Ok(())
            },
            None => Err(RegistryError::CollectionNotFound),
        }
    }

    /// Renames the collection `name` to `new_name`, in place; the active name
    /// follows it.
    pub fn rename_collection(&mut self, name: &str, new_name: &str) -> (r: Result<(), RegistryError>)
        requires
            old(self).wf(),
        ensures
            final(self).wf(),
            r == old(self).view().outcome(RegistryCall::Rename(name@, new_name@)),
            final(self).view() == old(self).view().apply(RegistryCall::Rename(name@, new_name@)),
    {
        let new_name = new_name.to_owned();
        if let Some(p) = position_of(&self.collections, &new_name) {
            assert(self.view().names[p as int] == new_name@);
            return Err(RegistryError::CollectionExists);
        }
        let name = name.to_owned();
        match position_of(&self.collections, &name) {
            Some(p) => {
                let ghost before = self.view();
                assert(before.names[p as int] == name@);
                proof {
                    lemma_renamed_wf(before, name@, new_name@);
                    assert(before.names.index_of(name@) == p);
                }
                self.collections.set(p, new_name.clone());
                assert(self.view().names =~= before.names.update(p as int, new_name@));
                if self.active_collection == name {
                    self.active_collection = new_name;
                }
                assert(self.view() == before.renamed(name@, new_name@));
                Ok(())
            },
            None => Err(RegistryError::CollectionNotFound),
        }
    }
}

} // verus!
