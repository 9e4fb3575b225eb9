//! The registry of tile materials: built once, read-only afterwards.

use crate::error::LvlError;
use std::collections::HashMap;
use vstd::prelude::*;

verus! {

broadcast use vstd::std_specs::hash::group_hash_axioms;

/// A material: its stable id, its name, and the handles under which the
/// renderer knows its mesh and its surface. The registry does not
/// interpret the handles.
pub struct MaterialType {
    pub id: usize,
    pub name: String,
    pub mesh: u64,
    pub material: u64,
}

/// A material as contracts speak of it.
pub struct MaterialSpec {
    pub id: usize,
    pub name: Seq<char>,
    pub mesh: u64,
    pub material: u64,
}

impl View for MaterialType {
    type V = MaterialSpec;

    open spec fn view(&self) -> MaterialSpec {
        MaterialSpec { id: self.id, name: self.name@, mesh: self.mesh, material: self.material }
    }
}

/// The first material of `s` with the given id.
pub open spec fn find_id(s: Seq<MaterialSpec>, id: usize) -> Option<MaterialSpec>
    decreases s.len(),
{
    if s.len() == 0 {
        None
    } else if s[0].id == id {
        Some(s[0])
    } else {
        find_id(s.drop_first(), id)
    }
}

/// The first material of `s` with the given name.
pub open spec fn find_name(s: Seq<MaterialSpec>, name: Seq<char>) -> Option<MaterialSpec>
    decreases s.len(),
{
    if s.len() == 0 {
        None
    } else if s[0].name == name {
        Some(s[0])
    } else {
        find_name(s.drop_first(), name)
    }
}

/// No two materials of `s` share an id or a name.
pub open spec fn distinct(s: Seq<MaterialSpec>) -> bool {
    forall|i: int, j: int|
        0 <= i < j < s.len() ==> (#[trigger] s[i]).id != (#[trigger] s[j]).id && s[i].name
            != s[j].name
}

/// `find_id` yields a material exactly when one of that id is present,
/// and then the earliest one.
pub proof fn lemma_find_id(s: Seq<MaterialSpec>, id: usize)
    ensures
        find_id(s, id) matches Some(m) ==> exists|i: int|
            0 <= i < s.len() && #[trigger] s[i] == m && m.id == id && forall|j: int|
                0 <= j < i ==> (#[trigger] s[j]).id != id,
        find_id(s, id) is None ==> forall|i: int| 0 <= i < s.len() ==> (#[trigger] s[i]).id != id,
    decreases s.len(),
{
    if s.len() > 0 && s[0].id != id {
        let t = s.drop_first();
        lemma_find_id(t, id);
        match find_id(t, id) {
            Some(m) => {
                let i = choose|i: int|
                    0 <= i < t.len() && #[trigger] t[i] == m && m.id == id && forall|j: int|
                        0 <= j < i ==> (#[trigger] t[j]).id != id;
                assert forall|j: int| 0 <= j < i + 1 implies (#[trigger] s[j]).id != id by {
                    if j > 0 {
                        assert(t[j - 1].id != id);
                    }
                }
            },
            None => {
                assert forall|i: int| 0 <= i < s.len() implies (#[trigger] s[i]).id != id by {
                    if i > 0 {
                        assert(t[i - 1].id != id);
                    }
                }
            },
        }
    }
}

/// `find_name` yields a material exactly when one of that name is
/// present, and then the earliest one.
pub proof fn lemma_find_name(s: Seq<MaterialSpec>, name: Seq<char>)
    ensures
        find_name(s, name) matches Some(m) ==> exists|i: int|
            0 <= i < s.len() && #[trigger] s[i] == m && m.name == name && forall|j: int|
                0 <= j < i ==> (#[trigger] s[j]).name != name,
        find_name(s, name) is None ==> forall|i: int|
            0 <= i < s.len() ==> (#[trigger] s[i]).name != name,
    decreases s.len(),
{
    if s.len() > 0 && s[0].name != name {
        let t = s.drop_first();
        lemma_find_name(t, name);
        match find_name(t, name) {
            Some(m) => {
                let i = choose|i: int|
                    0 <= i < t.len() && #[trigger] t[i] == m && m.name == name && forall|j: int|
                        0 <= j < i ==> (#[trigger] t[j]).name != name;
                assert forall|j: int| 0 <= j < i + 1 implies (#[trigger] s[j]).name != name by {
                    if j > 0 {
                        assert(t[j - 1].name != name);
                    }
                }
            },
            None => {
                assert forall|i: int| 0 <= i < s.len() implies (#[trigger] s[i]).name != name by {
                    if i > 0 {
                        assert(t[i - 1].name != name);
                    }
                }
            },
        }
    }
}

/// The materials that tiles can be made of, in the order in which they
/// were registered.
pub struct MaterialTypes {
    map: HashMap<usize, MaterialType>,
    order: Vec<usize>,
}

impl View for MaterialTypes {
    type V = Seq<MaterialSpec>;

    /// The registered materials, earliest first.
    closed spec fn view(&self) -> Seq<MaterialSpec> {
        Seq::new(self.order@.len(), |i: int| self.map@[self.order@[i]]@)
    }
}

impl MaterialTypes {
    /// Every registered id is stored under itself, exactly once, and no
    /// two materials share a name.
    pub closed spec fn wf(&self) -> bool {
        &&& forall|i: int|
            0 <= i < self.order@.len() ==> self.map@.contains_key(#[trigger] self.order@[i])
                && self.map@[self.order@[i]].id == self.order@[i]
        &&& forall|k: usize| #[trigger]
            self.map@.contains_key(k) ==> exists|i: int|
                0 <= i < self.order@.len() && #[trigger] self.order@[i] == k
        &&& forall|i: int, j: int|
            0 <= i < j < self.order@.len() ==> #[trigger] self.order@[i]
                != #[trigger] self.order@[j]
        &&& distinct(self@)
    }

    /// In every well-formed registry no id and no name occurs twice.
    pub proof fn law_no_duplicates(&self)
        requires
            self.wf(),
        ensures
            distinct(self@),
    {
    }

    /// The registry without materials.
    pub fn new() -> (r: MaterialTypes)
        ensures
            r.wf(),
            r@ == Seq::<MaterialSpec>::empty(),
    {
        let r = MaterialTypes { map: HashMap::new(), order: Vec::new() };
        r
    }

    /// The number of registered materials.
    pub fn len(&self) -> (n: usize)
        ensures
            n == self@.len(),
    {
        self.order.len()
    }

    /// The material registered under `id`.
    pub fn get(&self, id: usize) -> (r: Option<&MaterialType>)
        requires
            self.wf(),
        ensures
            match r {
                Some(m) => find_id(self@, id) == Some(m@),
                None => find_id(self@, id) is None,
            },
    {
        let r = self.map.get(&id);
        proof {
            lemma_find_id(self@, id);
            match r {
                Some(m) => {
                    let i = choose|i: int|
                        0 <= i < self.order@.len() && #[trigger] self.order@[i] == id;
                    assert(self@[i] == m@);
                },
                None => {},
            }
        }
        r
    }

    /// The material registered under `name`: the earliest one where the
    /// registration order matters.
    pub fn get_mat(&self, name: &str) -> (r: Option<&MaterialType>)
        requires
            self.wf(),
        ensures
            match r {
                Some(m) => find_name(self@, name@) == Some(m@),
                None => find_name(self@, name@) is None,
            },
    {
        let wanted = name.to_owned();
        let n = self.order.len();
        let mut i: usize = 0;
        assert(self@.skip(0) =~= self@);
        while i < n
            invariant
                self.wf(),
                n == self.order@.len(),
                i <= n,
                wanted@ == name@,
                find_name(self@, name@) == find_name(self@.skip(i as int), name@),
            decreases n - i,
        {
            let id = self.order[i];
            let found = self.map.get(&id);
            proof {
                assert(self@.skip(i as int).drop_first() =~= self@.skip(i + 1));
            }
            match found {
                Some(m) => {
                    if m.name == wanted {
                        return Some(m);
                    }
                },
                None => {},
            }
            i += 1;
        }
        None
    }

    /// Adds a material. One whose id or name is already registered is
    /// refused and the registry stays as it was.
    pub fn register(&mut self, mat: MaterialType) -> (r: Result<(), LvlError>)
        requires
            old(self).wf(),
        ensures
            final(self).wf(),
            find_id(old(self)@, mat.id) is None && find_name(old(self)@, mat.name@) is None ==> r
                is Ok && final(self)@ == old(self)@.push(mat@),
            find_id(old(self)@, mat.id) is Some || find_name(old(self)@, mat.name@) is Some ==> r
                == Err::<(), LvlError>(LvlError::DuplicateRegistration) && final(self)@ == old(
                self,
            )@,
    {
        if self.get(mat.id).is_some() {
            return Err(LvlError::DuplicateRegistration);
        }
        if self.get_mat(mat.name.as_str()).is_some() {
            return Err(LvlError::DuplicateRegistration);
        }
        let ghost added = mat@;
        let ghost before = self@;
        let id = mat.id;
        proof {
            lemma_find_id(before, id);
            lemma_find_name(before, added.name);
            assert forall|i: int| 0 <= i < self.order@.len() implies self.order@[i] != id by {
                assert(self@[i].id == self.order@[i]);
            }
        }
        self.order.push(id);
        self.map.insert(id, mat);
        proof {
            assert(self@ =~= before.push(added));
            assert forall|k: usize| #[trigger] self.map@.contains_key(k) implies exists|i: int|
                0 <= i < self.order@.len() && #[trigger] self.order@[i] == k by {
                if k == id {
                    assert(self.order@[old(self).order@.len() as int] == id);
                } else {
                    let i = choose|i: int|
                        0 <= i < old(self).order@.len() && #[trigger] old(self).order@[i] == k;
                    assert(self.order@[i] == k);
                }
            }
        }
        Ok(())
    }

    /// The registry of the built-in materials: "Stone" under id 0, "Dirt"
    /// under 1 and "Wood" under 2, all of one mesh, each with its own
    /// surface.
    pub fn with_defaults(mesh: u64, stone: u64, dirt: u64, wood: u64) -> (r: MaterialTypes)
        ensures
            r.wf(),
            r@ == seq![
                MaterialSpec { id: 0, name: "Stone"@, mesh, material: stone },
                MaterialSpec { id: 1, name: "Dirt"@, mesh, material: dirt },
                MaterialSpec { id: 2, name: "Wood"@, mesh, material: wood },
            ],
    {
        let mut r = MaterialTypes::new();
        let m0 = MaterialType { id: 0, name: "Stone".to_owned(), mesh, material: stone };
        let m1 = MaterialType { id: 1, name: "Dirt".to_owned(), mesh, material: dirt };
        let m2 = MaterialType { id: 2, name: "Wood".to_owned(), mesh, material: wood };
        proof {
            reveal_strlit("Stone");
            reveal_strlit("Dirt");
            reveal_strlit("Wood");
            assert("Dirt"@[0] != "Wood"@[0]);
        }
        let ghost s0 = r@;
        let _ = r.register(m0);
        let ghost s1 = r@;
        proof {
            lemma_find_id(s1, 1);
            lemma_find_name(s1, "Dirt"@);
        }
        let _ = r.register(m1);
        let ghost s2 = r@;
        proof {
            lemma_find_id(s2, 2);
            lemma_find_name(s2, "Wood"@);
        }
        let _ = r.register(m2);
        r
    }
}

} // verus!
