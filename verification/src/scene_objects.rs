//! The object bookkeeping of a 3D scene: each object has an id and a
//! name; the main camera is object 0, new objects take the next free id,
//! and objects added under their own id move that counter past them. Where
//! an object stands is kept by the renderer.
use vstd::prelude::*;
use std::collections::HashMap;

verus! {

broadcast use vstd::std_specs::hash::group_hash_axioms;

pub struct SceneObjects {
    pub objects: HashMap<u32, String>,
    pub next_id: u32,
}

impl SceneObjects {
    /// Every object's id lies below the next id handed out.
    pub open spec fn wf(&self) -> bool {
        forall|id: u32| #[trigger] self.objects@.contains_key(id) ==> id < self.next_id
    }

    /// A scene holding only the main camera (object 0); the next id is 1.
    pub fn new() -> (r: Self)
        ensures
            r.wf(),
            r.objects@.dom() == set![0u32],
            r.objects@[0]@ == "Main Camera"@,
            r.next_id == 1,
    {
        let mut objects: HashMap<u32, String> = HashMap::new();
        objects.insert(0, "Main Camera".to_owned());
        let r = SceneObjects { objects, next_id: 1 };
        assert(r.objects@.dom() =~= set![0u32]);
        r
    }

    /// Adds an object under its own id (replacing one with that id) and
    /// moves the next id past it. Returns the id.
    pub fn add_object(&mut self, id: u32, name: String) -> (r: u32)
        requires
            id < u32::MAX,
        ensures
            r == id,
            final(self).objects@ == old(self).objects@.insert(id, name),
            final(self).next_id == if old(self).next_id >= id + 1 { old(self).next_id } else { (id + 1) as u32 },
            old(self).wf() ==> final(self).wf(),
    {
        self.objects.insert(id, name);
        if self.next_id < id + 1 {
            self.next_id = id + 1;
        }
        id
    }

    /// Creates an object under the next id, which then moves on by one.
    /// Returns the id, which no object had.
    pub fn create_object(&mut self, name: String) -> (r: u32)
        requires
            old(self).next_id < u32::MAX,
        ensures
            r == old(self).next_id,
            final(self).next_id == old(self).next_id + 1,
            final(self).objects@ == old(self).objects@.insert(r, name),
            old(self).wf() ==> !old(self).objects@.contains_key(r) && final(self).wf(),
    {
        let id = self.next_id;
        self.next_id = self.next_id + 1;
        self.objects.insert(id, name);
        id
    }

    /// Takes out the object with id `id` and returns its name, if there is
    /// one.
    pub fn remove_object(&mut self, id: u32) -> (r: Option<String>)
        ensures
            final(self).objects@ == old(self).objects@.remove(id),
            final(self).next_id == old(self).next_id,
            r == if old(self).objects@.contains_key(id) { Some(old(self).objects@[id]) } else { None },
            old(self).wf() ==> final(self).wf(),
    {
        self.objects.remove(&id)
    }

    /// Whether an object has id `id`.
    pub fn has_object(&self, id: u32) -> (r: bool)
        ensures
            r == self.objects@.contains_key(id),
    {
        self.objects.contains_key(&id)
    }
}

} // verus!
