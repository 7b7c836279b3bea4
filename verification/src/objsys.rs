use vstd::prelude::*;
use crate::node::Node;
use crate::object::Object;
use crate::heapobjs::{Instance, InternalFile, InternalList, MaybeObject};
use crate::assoc::{assoc_map, keys_unique, assoc_insert, assoc_find, assoc_get, lemma_assoc_map_domain};

verus! {

broadcast use vstd::std_specs::vec::group_vec_axioms;

/// The key of a heap object.
pub struct RefKey(pub String);

impl RefKey {
    /// A copy of the key.
    pub fn duplicate(&self) -> (r: RefKey)
        ensures
            r == *self,
    {
        RefKey(self.0.clone())
    }
}

/// Calls `nuid::next` of the `nuid` crate: a new random identifier. The
/// contract states only its length, 22 characters; that it differs from
/// earlier identifiers is left to chance and unstated.
#[verifier::external_body]
pub(crate) fn fresh_key() -> (r: RefKey)
    ensures
        r.0@.len() == 22,
{
    RefKey(nuid::next().as_str().to_string())
}

/// A class: its name, the name of the class it extends (empty when none), its
/// fields (type, name, initial value expression), its methods and its getters.
pub struct Class {
    pub name: String,
    pub parent: String,
    pub fields: Vec<(String, String, Node)>,
    pub methods: Vec<(String, Object)>,
    pub getters: Vec<(String, Object)>,
}

impl Class {
    /// The class's tables are sound: no method or getter name occurs twice.
    pub open spec fn wf(&self) -> bool {
        keys_unique(self.methods@) && keys_unique(self.getters@)
    }

    /// A class called `name` that extends nothing and has no members.
    pub fn new(name: String) -> (r: Class)
        ensures
            r.wf(),
            r.name == name,
            r.parent@ == Seq::<char>::empty(),
            r.fields@.len() == 0,
            assoc_map(r.methods@) == Map::<Seq<char>, Object>::empty(),
            assoc_map(r.getters@) == Map::<Seq<char>, Object>::empty(),
    {
        Class { name, parent: String::new(), fields: Vec::new(), methods: Vec::new(), getters: Vec::new() }
    }

    /// Adds a field declaration.
    pub fn add_field(&mut self, ftype: String, fname: String, initexpr: Node)
        ensures
            final(self).fields@ == old(self).fields@.push((ftype, fname, initexpr)),
            final(self).name == old(self).name,
            final(self).parent == old(self).parent,
            final(self).methods == old(self).methods,
            final(self).getters == old(self).getters,
    {
        self.fields.push((ftype, fname, initexpr));
    }

    /// Sets method `name` to `m`.
    pub fn add_method(&mut self, name: String, m: Object)
        requires
            old(self).wf(),
        ensures
            final(self).wf(),
            assoc_map(final(self).methods@) == assoc_map(old(self).methods@).insert(name@, m),
            final(self).name == old(self).name,
            final(self).parent == old(self).parent,
            final(self).fields == old(self).fields,
            final(self).getters == old(self).getters,
    {
        assoc_insert(&mut self.methods, name, m);
    }

    /// Sets getter `name` to `g`.
    pub fn add_getter(&mut self, name: String, g: Object)
        requires
            old(self).wf(),
        ensures
            final(self).wf(),
            assoc_map(final(self).getters@) == assoc_map(old(self).getters@).insert(name@, g),
            final(self).name == old(self).name,
            final(self).parent == old(self).parent,
            final(self).fields == old(self).fields,
            final(self).methods == old(self).methods,
    {
        assoc_insert(&mut self.getters, name, g);
    }

    pub fn has_method(&self, methname: &str) -> (r: bool)
        ensures
            r == assoc_map(self.methods@).contains_key(methname@),
    {
        assoc_find(&self.methods, methname).is_some()
    }

    pub fn has_getter(&self, name: &str) -> (r: bool)
        ensures
            r == assoc_map(self.getters@).contains_key(name@),
    {
        assoc_find(&self.getters, name).is_some()
    }

    /// The method `methname`, when the class has one and it is a function.
    pub fn get_method(&self, methname: &str) -> (r: Option<&Object>)
        requires
            self.wf(),
        ensures
            match r {
                Some(m) => assoc_map(self.methods@).contains_key(methname@)
                    && *m == assoc_map(self.methods@)[methname@] && m is Function,
                None => !assoc_map(self.methods@).contains_key(methname@)
                    || !(assoc_map(self.methods@)[methname@] is Function),
            },
    {
        match assoc_get(&self.methods, methname) {
            Some(m) => {
                if let Object::Function(..) = m {
                    Some(m)
                } else {
                    None
                }
            },
            None => None,
        }
    }

    /// The getter `name`, when the class has one.
    pub fn get_getter(&self, name: &str) -> (r: Option<&Object>)
        requires
            self.wf(),
        ensures
            r is Some <==> assoc_map(self.getters@).contains_key(name@),
            r matches Some(g) ==> *g == assoc_map(self.getters@)[name@],
    {
        assoc_get(&self.getters, name)
    }

    /// A new, unmarked instance of the class, without fields or parent part.
    pub fn instantiate(&self) -> (r: Box<Instance>)
        ensures
            r.classname@ == self.name@,
            r.parent == MaybeObject::Absent,
            r.fields@.len() == 0,
            !r.marked,
    {
        Box::new(Instance::new(self.name.clone(), MaybeObject::Absent))
    }
}

/// The index of the first of `ids` that equals `k`, or -1.
pub open spec fn first_index(ids: Seq<Seq<char>>, k: Seq<char>) -> int
    decreases ids.len(),
{
    if ids.len() == 0 {
        -1
    } else if ids[0] == k {
        0
    } else {
        let r = first_index(ids.drop_first(), k);
        if r < 0 { -1 } else { r + 1 }
    }
}

pub open spec fn instance_ids(s: Seq<Instance>) -> Seq<Seq<char>> {
    s.map_values(|x: Instance| x.id.0@)
}

pub open spec fn list_ids(s: Seq<InternalList>) -> Seq<Seq<char>> {
    s.map_values(|x: InternalList| x.id.0@)
}

pub open spec fn file_ids(s: Seq<InternalFile>) -> Seq<Seq<char>> {
    s.map_values(|x: InternalFile| x.id.0@)
}

/// No key occurs twice.
pub open spec fn ids_unique(ids: Seq<Seq<char>>) -> bool {
    forall|i: int, j: int| 0 <= i < ids.len() && 0 <= j < ids.len() && i != j ==> #[trigger] ids[i] != #[trigger] ids[j]
}

pub proof fn lemma_first_index(ids: Seq<Seq<char>>, k: Seq<char>)
    ensures
        first_index(ids, k) >= 0 <==> ids.contains(k),
        first_index(ids, k) >= 0 ==> first_index(ids, k) < ids.len() && ids[first_index(ids, k)] == k,
        forall|j: int| 0 <= j < first_index(ids, k) ==> ids[j] != k,
        first_index(ids, k) < 0 ==> first_index(ids, k) == -1,
    decreases ids.len(),
{
    if ids.len() > 0 && ids[0] != k {
        lemma_first_index(ids.drop_first(), k);
        if ids.contains(k) {
            let j = choose|j: int| 0 <= j < ids.len() && ids[j] == k;
            assert(ids.drop_first()[j - 1] == k);
        }
        assert forall|j: int| 0 <= j < first_index(ids, k) implies ids[j] != k by {
            if j > 0 {
                assert(ids[j] == ids.drop_first()[j - 1]);
            }
        }
    } else if ids.len() > 0 {
        assert(ids[0] == k);
    }
}

/// The object system: the classes, and the heap of instances, lists and
/// files under their keys, and the instance that `this` refers to.
pub struct ObjSys {
    classmap: Vec<(String, Class)>,
    instancemap: Vec<Instance>,
    listmap: Vec<InternalList>,
    filemap: Vec<InternalFile>,
    this: RefKey,
}

impl ObjSys {
    pub closed spec fn classes(&self) -> Map<Seq<char>, Class> {
        assoc_map(self.classmap@)
    }

    pub closed spec fn instances(&self) -> Seq<Instance> {
        self.instancemap@
    }

    pub closed spec fn lists(&self) -> Seq<InternalList> {
        self.listmap@
    }

    pub closed spec fn files(&self) -> Seq<InternalFile> {
        self.filemap@
    }

    pub closed spec fn this_key(&self) -> Seq<char> {
        self.this.0@
    }

    /// The object system is sound: no class, instance, list or file key occurs
    /// twice in its table, and every class's and instance's tables are sound.
    pub open spec fn wf(&self) -> bool {
        &&& ids_unique(instance_ids(self.instances()))
        &&& ids_unique(list_ids(self.lists()))
        &&& ids_unique(file_ids(self.files()))
        &&& self.classes_wf()
        &&& forall|i: int| 0 <= i < self.instances().len() ==> keys_unique(#[trigger] self.instances()[i].fields@)
    }

    pub closed spec fn classes_wf(&self) -> bool {
        &&& keys_unique(self.classmap@)
        &&& forall|i: int| 0 <= i < self.classmap@.len() ==> (#[trigger] self.classmap@[i]).1.wf()
    }

    pub open spec fn inst_index(&self, k: Seq<char>) -> int {
        first_index(instance_ids(self.instances()), k)
    }

    pub open spec fn list_index(&self, k: Seq<char>) -> int {
        first_index(list_ids(self.lists()), k)
    }

    pub open spec fn file_index(&self, k: Seq<char>) -> int {
        first_index(file_ids(self.files()), k)
    }

    /// An empty object system; `this` refers to nothing.
    pub fn new() -> (r: ObjSys)
        ensures
            r.wf(),
            r.classes() == Map::<Seq<char>, Class>::empty(),
            r.instances().len() == 0,
            r.lists().len() == 0,
            r.files().len() == 0,
            r.this_key() == Seq::<char>::empty(),
    {
        ObjSys { classmap: Vec::new(), instancemap: Vec::new(), listmap: Vec::new(), filemap: Vec::new(), this: RefKey(String::new()) }
    }

    /// A new class called `name`.
    pub fn new_class(&self, name: String) -> (r: Class)
        ensures
            r.wf(),
            r.name == name,
            r.fields@.len() == 0,
    {
        Class::new(name)
    }

    /// The position of the instance with key `id`, if there is one.
    fn find_instance(&self, id: &str) -> (r: Option<usize>)
        ensures
            match r {
                Some(i) => i as int == self.inst_index(id@) && i < self.instancemap@.len(),
                None => self.inst_index(id@) == -1,
            },
    {
        proof { lemma_first_index(instance_ids(self.instancemap@), id@); }
        let want = String::from_str(id);
        let mut i: usize = 0;
        while i < self.instancemap.len()
            invariant
                0 <= i <= self.instancemap@.len(),
                want@ == id@,
                forall|j: int| 0 <= j < i ==> #[trigger] instance_ids(self.instancemap@)[j] != id@,
                first_index(instance_ids(self.instancemap@), id@) >= 0 ==> first_index(instance_ids(self.instancemap@), id@) >= i,
                first_index(instance_ids(self.instancemap@), id@) >= 0 ==> instance_ids(self.instancemap@)[first_index(instance_ids(self.instancemap@), id@)] == id@,
                first_index(instance_ids(self.instancemap@), id@) < 0 ==> first_index(instance_ids(self.instancemap@), id@) == -1,
                forall|j: int| 0 <= j < first_index(instance_ids(self.instancemap@), id@) ==> instance_ids(self.instancemap@)[j] != id@,
                first_index(instance_ids(self.instancemap@), id@) >= 0 <==> instance_ids(self.instancemap@).contains(id@),
            decreases self.instancemap@.len() - i,
        {
            if self.instancemap[i].id.0 == want {
                assert(instance_ids(self.instancemap@)[i as int] == id@);
                assert(instance_ids(self.instancemap@).contains(id@));
                return Some(i);
            }
            assert(instance_ids(self.instancemap@)[i as int] != id@);
            i = i + 1;
        }
        None
    }

    /// Whether a instance with key `id` is on the heap.
    /// The number of instances on the heap.
    pub fn instance_count(&self) -> (r: usize)
        ensures
            r == self.instances().len(),
    {
        self.instancemap.len()
    }

    pub fn has_instance(&self, id: &RefKey) -> (r: bool)
        ensures
            r == (self.inst_index(id.0@) >= 0),
    {
        self.find_instance(id.0.as_str()).is_some()
    }

    /// The instance with key `id`, which must be on the heap.
    pub fn get_instance(&self, id: &RefKey) -> (r: &Instance)
        requires
            self.inst_index(id.0@) >= 0,
        ensures
            *r == self.instances()[self.inst_index(id.0@)],
    {
        let i = self.find_instance(id.0.as_str()).unwrap();
        &self.instancemap[i]
    }

    /// Puts `x` on the heap under its key, replacing any instance with the same
    /// key, and gives a reference to it.
    pub fn register_instance(&mut self, x: Instance) -> (r: Object)
        requires
            old(self).wf(),
            keys_unique(x.fields@),
        ensures
            final(self).wf(),
            r == Object::Reference(x.id),
            old(self).inst_index(x.id.0@) >= 0 ==> final(self).instances() == old(self).instances().update(old(self).inst_index(x.id.0@), x),
            old(self).inst_index(x.id.0@) < 0 ==> final(self).instances() == old(self).instances().push(x),
            final(self).lists() == old(self).lists(),
            final(self).files() == old(self).files(),
            final(self).classes() == old(self).classes(),
            final(self).this_key() == old(self).this_key(),
    {
        let key = x.id.duplicate();
        let ghost ids = instance_ids(self.instancemap@);
        match self.find_instance(x.id.0.as_str()) {
            Some(i) => {
                self.instancemap.set(i, x);
                proof {
                    let ids2 = instance_ids(self.instancemap@);
                    lemma_first_index(ids, key.0@);
                    assert(ids[i as int] == key.0@);
                    assert(ids2 =~= ids);
                }
            },
            None => {
                self.instancemap.push(x);
                proof {
                    let ids2 = instance_ids(self.instancemap@);
                    assert(ids2 =~= ids.push(key.0@));
                    lemma_first_index(ids, key.0@);
                    assert forall|a: int, b: int| 0 <= a < ids2.len() && 0 <= b < ids2.len() && a != b implies #[trigger] ids2[a] != #[trigger] ids2[b] by {
                        if a < ids.len() && b < ids.len() {
                            assert(ids[a] != ids[b]);
                        } else if a < ids.len() {
                            assert(ids.contains(ids[a]));
                        } else {
                            assert(ids.contains(ids[b]));
                        }
                    }
                }
            },
        }
        Object::Reference(key)
    }

    /// The position of the list with key `id`, if there is one.
    fn find_list(&self, id: &str) -> (r: Option<usize>)
        ensures
            match r {
                Some(i) => i as int == self.list_index(id@) && i < self.listmap@.len(),
                None => self.list_index(id@) == -1,
            },
    {
        proof { lemma_first_index(list_ids(self.listmap@), id@); }
        let want = String::from_str(id);
        let mut i: usize = 0;
        while i < self.listmap.len()
            invariant
                0 <= i <= self.listmap@.len(),
                want@ == id@,
                forall|j: int| 0 <= j < i ==> #[trigger] list_ids(self.listmap@)[j] != id@,
                first_index(list_ids(self.listmap@), id@) >= 0 ==> first_index(list_ids(self.listmap@), id@) >= i,
                first_index(list_ids(self.listmap@), id@) >= 0 ==> list_ids(self.listmap@)[first_index(list_ids(self.listmap@), id@)] == id@,
                first_index(list_ids(self.listmap@), id@) < 0 ==> first_index(list_ids(self.listmap@), id@) == -1,
                forall|j: int| 0 <= j < first_index(list_ids(self.listmap@), id@) ==> list_ids(self.listmap@)[j] != id@,
                first_index(list_ids(self.listmap@), id@) >= 0 <==> list_ids(self.listmap@).contains(id@),
            decreases self.listmap@.len() - i,
        {
            if self.listmap[i].id.0 == want {
                assert(list_ids(self.listmap@)[i as int] == id@);
                assert(list_ids(self.listmap@).contains(id@));
                return Some(i);
            }
            assert(list_ids(self.listmap@)[i as int] != id@);
            i = i + 1;
        }
        None
    }

    /// Whether a list with key `id` is on the heap.
    pub fn has_list(&self, id: &RefKey) -> (r: bool)
        ensures
            r == (self.list_index(id.0@) >= 0),
    {
        self.find_list(id.0.as_str()).is_some()
    }

    /// The list with key `id`, which must be on the heap.
    pub fn get_list(&self, id: &RefKey) -> (r: &InternalList)
        requires
            self.list_index(id.0@) >= 0,
        ensures
            *r == self.lists()[self.list_index(id.0@)],
    {
        let i = self.find_list(id.0.as_str()).unwrap();
        &self.listmap[i]
    }

    /// Puts `x` on the heap under its key, replacing any list with the same
    /// key, and gives a reference to it.
    pub fn register_list(&mut self, x: InternalList) -> (r: Object)
        requires
            old(self).wf(),
        ensures
            final(self).wf(),
            r == Object::Reference(x.id),
            old(self).list_index(x.id.0@) >= 0 ==> final(self).lists() == old(self).lists().update(old(self).list_index(x.id.0@), x),
            old(self).list_index(x.id.0@) < 0 ==> final(self).lists() == old(self).lists().push(x),
            final(self).instances() == old(self).instances(),
            final(self).files() == old(self).files(),
            final(self).classes() == old(self).classes(),
            final(self).this_key() == old(self).this_key(),
    {
        let key = x.id.duplicate();
        let ghost ids = list_ids(self.listmap@);
        match self.find_list(x.id.0.as_str()) {
            Some(i) => {
                self.listmap.set(i, x);
                proof {
                    let ids2 = list_ids(self.listmap@);
                    lemma_first_index(ids, key.0@);
                    assert(ids[i as int] == key.0@);
                    assert(ids2 =~= ids);
                }
            },
            None => {
                self.listmap.push(x);
                proof {
                    let ids2 = list_ids(self.listmap@);
                    assert(ids2 =~= ids.push(key.0@));
                    lemma_first_index(ids, key.0@);
                    assert forall|a: int, b: int| 0 <= a < ids2.len() && 0 <= b < ids2.len() && a != b implies #[trigger] ids2[a] != #[trigger] ids2[b] by {
                        if a < ids.len() && b < ids.len() {
                            assert(ids[a] != ids[b]);
                        } else if a < ids.len() {
                            assert(ids.contains(ids[a]));
                        } else {
                            assert(ids.contains(ids[b]));
                        }
                    }
                }
            },
        }
        Object::Reference(key)
    }

    /// The position of the file with key `id`, if there is one.
    fn find_file(&self, id: &str) -> (r: Option<usize>)
        ensures
            match r {
                Some(i) => i as int == self.file_index(id@) && i < self.filemap@.len(),
                None => self.file_index(id@) == -1,
            },
    {
        proof { lemma_first_index(file_ids(self.filemap@), id@); }
        let want = String::from_str(id);
        let mut i: usize = 0;
        while i < self.filemap.len()
            invariant
                0 <= i <= self.filemap@.len(),
                want@ == id@,
                forall|j: int| 0 <= j < i ==> #[trigger] file_ids(self.filemap@)[j] != id@,
                first_index(file_ids(self.filemap@), id@) >= 0 ==> first_index(file_ids(self.filemap@), id@) >= i,
                first_index(file_ids(self.filemap@), id@) >= 0 ==> file_ids(self.filemap@)[first_index(file_ids(self.filemap@), id@)] == id@,
                first_index(file_ids(self.filemap@), id@) < 0 ==> first_index(file_ids(self.filemap@), id@) == -1,
                forall|j: int| 0 <= j < first_index(file_ids(self.filemap@), id@) ==> file_ids(self.filemap@)[j] != id@,
                first_index(file_ids(self.filemap@), id@) >= 0 <==> file_ids(self.filemap@).contains(id@),
            decreases self.filemap@.len() - i,
        {
            if self.filemap[i].id.0 == want {
                assert(file_ids(self.filemap@)[i as int] == id@);
                assert(file_ids(self.filemap@).contains(id@));
                return Some(i);
            }
            assert(file_ids(self.filemap@)[i as int] != id@);
            i = i + 1;
        }
        None
    }

    /// Whether a file with key `id` is on the heap.
    pub fn has_file(&self, id: &RefKey) -> (r: bool)
        ensures
            r == (self.file_index(id.0@) >= 0),
    {
        self.find_file(id.0.as_str()).is_some()
    }

    /// The file with key `id`, which must be on the heap.
    pub fn get_file(&self, id: &RefKey) -> (r: &InternalFile)
        requires
            self.file_index(id.0@) >= 0,
        ensures
            *r == self.files()[self.file_index(id.0@)],
    {
        let i = self.find_file(id.0.as_str()).unwrap();
        &self.filemap[i]
    }

    /// Puts `x` on the heap under its key, replacing any file with the same
    /// key, and gives a reference to it.
    pub fn register_file(&mut self, x: InternalFile) -> (r: Object)
        requires
            old(self).wf(),
        ensures
            final(self).wf(),
            r == Object::Reference(x.id),
            old(self).file_index(x.id.0@) >= 0 ==> final(self).files() == old(self).files().update(old(self).file_index(x.id.0@), x),
            old(self).file_index(x.id.0@) < 0 ==> final(self).files() == old(self).files().push(x),
            final(self).instances() == old(self).instances(),
            final(self).lists() == old(self).lists(),
            final(self).classes() == old(self).classes(),
            final(self).this_key() == old(self).this_key(),
    {
        let key = x.id.duplicate();
        let ghost ids = file_ids(self.filemap@);
        match self.find_file(x.id.0.as_str()) {
            Some(i) => {
                self.filemap.set(i, x);
                proof {
                    let ids2 = file_ids(self.filemap@);
                    lemma_first_index(ids, key.0@);
                    assert(ids[i as int] == key.0@);
                    assert(ids2 =~= ids);
                }
            },
            None => {
                self.filemap.push(x);
                proof {
                    let ids2 = file_ids(self.filemap@);
                    assert(ids2 =~= ids.push(key.0@));
                    lemma_first_index(ids, key.0@);
                    assert forall|a: int, b: int| 0 <= a < ids2.len() && 0 <= b < ids2.len() && a != b implies #[trigger] ids2[a] != #[trigger] ids2[b] by {
                        if a < ids.len() && b < ids.len() {
                            assert(ids[a] != ids[b]);
                        } else if a < ids.len() {
                            assert(ids.contains(ids[a]));
                        } else {
                            assert(ids.contains(ids[b]));
                        }
                    }
                }
            },
        }
        Object::Reference(key)
    }
}


impl ObjSys {
    /// Whether a class called `name` is registered.
    pub fn has_class(&self, name: &str) -> (r: bool)
        ensures
            r == self.classes().contains_key(name@),
    {
        assoc_find(&self.classmap, name).is_some()
    }

    /// Registers `class` under its name, replacing any class of that name.
    pub fn register_class(&mut self, class: Class)
        requires
            old(self).wf(),
            class.wf(),
        ensures
            final(self).wf(),
            final(self).classes() == old(self).classes().insert(class.name@, class),
            final(self).instances() == old(self).instances(),
            final(self).lists() == old(self).lists(),
            final(self).files() == old(self).files(),
            final(self).this_key() == old(self).this_key(),
    {
        let name = class.name.clone();
        let ghost before = self.classmap@;
        assoc_insert(&mut self.classmap, name, class);
        proof {
            assert forall|i: int| 0 <= i < self.classmap@.len() implies (#[trigger] self.classmap@[i]).1.wf() by {
                crate::assoc::lemma_assoc_map_value(self.classmap@, i);
                let k = self.classmap@[i].0@;
                if k == class.name@ {
                } else {
                    lemma_assoc_map_domain(before, k);
                    let j = choose|j: int| 0 <= j < before.len() && #[trigger] before[j].0@ == k;
                    crate::assoc::lemma_assoc_map_value(before, j);
                }
            }
        }
    }

    /// The class called `name`, which must be registered.
    pub fn get_class(&self, name: &str) -> (r: &Class)
        requires
            self.wf(),
            self.classes().contains_key(name@),
        ensures
            *r == self.classes()[name@],
            r.wf(),
    {
        let i = assoc_find(&self.classmap, name).unwrap();
        proof { crate::assoc::lemma_assoc_map_value(self.classmap@, i as int); }
        &self.classmap[i].1
    }

    /// Whether `this` refers to an instance on the heap.
    pub fn has_this(&self) -> (r: bool)
        ensures
            r == (self.inst_index(self.this_key()) >= 0),
    {
        self.has_instance(&self.this)
    }

    /// The key that `this` refers to.
    pub fn get_this(&self) -> (r: RefKey)
        ensures
            r.0@ == self.this_key(),
    {
        self.this.duplicate()
    }

    /// A reference to what `this` refers to.
    pub fn get_this_object(&self) -> (r: Object)
        ensures
            r matches Object::Reference(k) && k.0@ == self.this_key(),
    {
        Object::Reference(self.this.duplicate())
    }

    /// Makes `this` refer to `instance_id`.
    pub fn set_this(&mut self, instance_id: RefKey)
        requires
            old(self).wf(),
        ensures
            final(self).wf(),
            final(self).this_key() == instance_id.0@,
            final(self).classes() == old(self).classes(),
            final(self).instances() == old(self).instances(),
            final(self).lists() == old(self).lists(),
            final(self).files() == old(self).files(),
    {
        self.this = instance_id;
    }

    /// Sets field `name` of the instance with key `id`, which must be on the heap.
    pub fn set_instance_field(&mut self, id: &RefKey, name: String, value: Object)
        requires
            old(self).wf(),
            old(self).inst_index(id.0@) >= 0,
        ensures
            final(self).wf(),
            final(self).instances().len() == old(self).instances().len(),
            forall|j: int| 0 <= j < old(self).instances().len() && j != old(self).inst_index(id.0@)
                ==> #[trigger] final(self).instances()[j] == old(self).instances()[j],
            ({
                let i = old(self).inst_index(id.0@);
                let a = old(self).instances()[i];
                let b = final(self).instances()[i];
                &&& b.id == a.id && b.classname == a.classname && b.parent == a.parent && b.marked == a.marked
                &&& b.field_map() == a.field_map().insert(name@, value)
            }),
            instance_ids(final(self).instances()) == instance_ids(old(self).instances()),
            final(self).classes() == old(self).classes(),
            final(self).lists() == old(self).lists(),
            final(self).files() == old(self).files(),
            final(self).this_key() == old(self).this_key(),
    {
        let i = self.find_instance(id.0.as_str()).unwrap();
        let ghost before = self.instancemap@;
        assert(keys_unique(self.instancemap@[i as int].fields@));
        self.instancemap[i].set_field(name, value);
        proof {
            assert(instance_ids(self.instancemap@) =~= instance_ids(before));
            assert forall|j: int| 0 <= j < self.instances().len() implies keys_unique(#[trigger] self.instances()[j].fields@) by {
                if j != i {
                    assert(keys_unique(before[j].fields@));
                }
            }
        }
    }

    /// Sets the parent part of the instance with key `id`, which must be on the heap.
    pub fn set_instance_parent(&mut self, id: &RefKey, parent: MaybeObject)
        requires
            old(self).wf(),
            old(self).inst_index(id.0@) >= 0,
        ensures
            final(self).wf(),
            final(self).instances() == old(self).instances().update(old(self).inst_index(id.0@),
                Instance { parent, ..old(self).instances()[old(self).inst_index(id.0@)] }),
            final(self).classes() == old(self).classes(),
            final(self).lists() == old(self).lists(),
            final(self).files() == old(self).files(),
            final(self).this_key() == old(self).this_key(),
    {
        let i = self.find_instance(id.0.as_str()).unwrap();
        let ghost before = self.instancemap@;
        self.instancemap[i].parent = parent;
        proof {
            assert(instance_ids(self.instancemap@) =~= instance_ids(before));
            assert forall|j: int| 0 <= j < self.instances().len() implies keys_unique(#[trigger] self.instances()[j].fields@) by {
                assert(keys_unique(before[j].fields@));
            }
        }
    }

    /// On the list with key `id`, which must be on the heap: `InternalList::add`.
    pub fn list_add(&mut self, id: &RefKey, el: Object)
        requires
            old(self).wf(),
            old(self).list_index(id.0@) >= 0,
        ensures
            final(self).wf(),
            ({
                let i = old(self).list_index(id.0@);
                final(self).lists() == old(self).lists().update(i, InternalList { els: final(self).lists()[i].els, ..old(self).lists()[i] })
                && final(self).lists()[i].els@ == old(self).lists()[i].els@.push(el)
            }),
            final(self).classes() == old(self).classes(),
            final(self).instances() == old(self).instances(),
            final(self).files() == old(self).files(),
            final(self).this_key() == old(self).this_key(),
    {
        let i = self.find_list(id.0.as_str()).unwrap();
        let ghost before = self.listmap@;
        self.listmap[i].add(el);
        proof {
            assert(list_ids(self.listmap@) =~= list_ids(before));
            assert(self.listmap@ =~= before.update(i as int, InternalList { els: self.listmap@[i as int].els, ..before[i as int] }));
        }
    }

    /// On the list with key `id`, which must be on the heap: `InternalList::add_all`.
    pub fn list_add_all(&mut self, id: &RefKey, iterable: Vec<Object>)
        requires
            old(self).wf(),
            old(self).list_index(id.0@) >= 0,
        ensures
            final(self).wf(),
            ({
                let i = old(self).list_index(id.0@);
                final(self).lists() == old(self).lists().update(i, InternalList { els: final(self).lists()[i].els, ..old(self).lists()[i] })
                && final(self).lists()[i].els@ == old(self).lists()[i].els@ + iterable@
            }),
            final(self).classes() == old(self).classes(),
            final(self).instances() == old(self).instances(),
            final(self).files() == old(self).files(),
            final(self).this_key() == old(self).this_key(),
    {
        let i = self.find_list(id.0.as_str()).unwrap();
        let ghost before = self.listmap@;
        self.listmap[i].add_all(iterable);
        proof {
            assert(list_ids(self.listmap@) =~= list_ids(before));
            assert(self.listmap@ =~= before.update(i as int, InternalList { els: self.listmap@[i as int].els, ..before[i as int] }));
        }
    }

    /// On the list with key `id`, which must be on the heap: `InternalList::set_elements`.
    pub fn list_set_elements(&mut self, id: &RefKey, new_els: Vec<Object>)
        requires
            old(self).wf(),
            old(self).list_index(id.0@) >= 0,
        ensures
            final(self).wf(),
            ({
                let i = old(self).list_index(id.0@);
                final(self).lists() == old(self).lists().update(i, InternalList { els: final(self).lists()[i].els, ..old(self).lists()[i] })
                && final(self).lists()[i].els@ == new_els@
            }),
            final(self).classes() == old(self).classes(),
            final(self).instances() == old(self).instances(),
            final(self).files() == old(self).files(),
            final(self).this_key() == old(self).this_key(),
    {
        let i = self.find_list(id.0.as_str()).unwrap();
        let ghost before = self.listmap@;
        self.listmap[i].set_elements(new_els);
        proof {
            assert(list_ids(self.listmap@) =~= list_ids(before));
            assert(self.listmap@ =~= before.update(i as int, InternalList { els: self.listmap@[i as int].els, ..before[i as int] }));
        }
    }

    /// On the list with key `id`, which must be on the heap: `InternalList::set_el`.
    pub fn list_set_el(&mut self, id: &RefKey, index: usize, val: Object)
        requires
            old(self).wf(),
            old(self).list_index(id.0@) >= 0,
            index < old(self).lists()[old(self).list_index(id.0@)].els@.len(),
        ensures
            final(self).wf(),
            ({
                let i = old(self).list_index(id.0@);
                final(self).lists() == old(self).lists().update(i, InternalList { els: final(self).lists()[i].els, ..old(self).lists()[i] })
                && final(self).lists()[i].els@ == old(self).lists()[i].els@.update(index as int, val)
            }),
            final(self).classes() == old(self).classes(),
            final(self).instances() == old(self).instances(),
            final(self).files() == old(self).files(),
            final(self).this_key() == old(self).this_key(),
    {
        let i = self.find_list(id.0.as_str()).unwrap();
        let ghost before = self.listmap@;
        self.listmap[i].set_el(index, val);
        proof {
            assert(list_ids(self.listmap@) =~= list_ids(before));
            assert(self.listmap@ =~= before.update(i as int, InternalList { els: self.listmap@[i as int].els, ..before[i as int] }));
        }
    }

    /// On the list with key `id`, which must be on the heap: `InternalList::insert`.
    pub fn list_insert(&mut self, id: &RefKey, index: usize, el: Object)
        requires
            old(self).wf(),
            old(self).list_index(id.0@) >= 0,
            index <= old(self).lists()[old(self).list_index(id.0@)].els@.len(),
        ensures
            final(self).wf(),
            ({
                let i = old(self).list_index(id.0@);
                final(self).lists() == old(self).lists().update(i, InternalList { els: final(self).lists()[i].els, ..old(self).lists()[i] })
                && final(self).lists()[i].els@ == old(self).lists()[i].els@.insert(index as int, el)
            }),
            final(self).classes() == old(self).classes(),
            final(self).instances() == old(self).instances(),
            final(self).files() == old(self).files(),
            final(self).this_key() == old(self).this_key(),
    {
        let i = self.find_list(id.0.as_str()).unwrap();
        let ghost before = self.listmap@;
        self.listmap[i].insert(index, el);
        proof {
            assert(list_ids(self.listmap@) =~= list_ids(before));
            assert(self.listmap@ =~= before.update(i as int, InternalList { els: self.listmap@[i as int].els, ..before[i as int] }));
        }
    }

    /// On the list with key `id`, which must be on the heap: `InternalList::remove_range`.
    pub fn list_remove_range(&mut self, id: &RefKey, start: usize, end: usize)
        requires
            old(self).wf(),
            old(self).list_index(id.0@) >= 0,
            start <= end <= old(self).lists()[old(self).list_index(id.0@)].els@.len(),
        ensures
            final(self).wf(),
            ({
                let i = old(self).list_index(id.0@);
                final(self).lists() == old(self).lists().update(i, InternalList { els: final(self).lists()[i].els, ..old(self).lists()[i] })
                && final(self).lists()[i].els@ == old(self).lists()[i].els@.subrange(0, start as int) + old(self).lists()[i].els@.subrange(end as int, old(self).lists()[i].els@.len() as int)
            }),
            final(self).classes() == old(self).classes(),
            final(self).instances() == old(self).instances(),
            final(self).files() == old(self).files(),
            final(self).this_key() == old(self).this_key(),
    {
        let i = self.find_list(id.0.as_str()).unwrap();
        let ghost before = self.listmap@;
        self.listmap[i].remove_range(start, end);
        proof {
            assert(list_ids(self.listmap@) =~= list_ids(before));
            assert(self.listmap@ =~= before.update(i as int, InternalList { els: self.listmap@[i as int].els, ..before[i as int] }));
        }
    }

    /// On the list with key `id`, which must be on the heap: removes and gives the element at `index`.
    pub fn list_remove_at(&mut self, id: &RefKey, index: usize) -> (r: Object)
        requires
            old(self).wf(),
            old(self).list_index(id.0@) >= 0,
            index < old(self).lists()[old(self).list_index(id.0@)].els@.len(),
        ensures
            final(self).wf(),
            ({
                let i = old(self).list_index(id.0@);
                final(self).lists() == old(self).lists().update(i, InternalList { els: final(self).lists()[i].els, ..old(self).lists()[i] })
                && r == old(self).lists()[i].els@[index as int] && final(self).lists()[i].els@ == old(self).lists()[i].els@.remove(index as int)
            }),
            final(self).classes() == old(self).classes(),
            final(self).instances() == old(self).instances(),
            final(self).files() == old(self).files(),
            final(self).this_key() == old(self).this_key(),
    {
        let i = self.find_list(id.0.as_str()).unwrap();
        let ghost before = self.listmap@;
        let r = self.listmap[i].remove_at(index);
        proof {
            assert(list_ids(self.listmap@) =~= list_ids(before));
            assert(self.listmap@ =~= before.update(i as int, InternalList { els: self.listmap@[i as int].els, ..before[i as int] }));
        }
        r
    }

    /// On the list with key `id`, which must be on the heap: removes and gives the last element, or `Null`.
    pub fn list_remove_last(&mut self, id: &RefKey) -> (r: Object)
        requires
            old(self).wf(),
            old(self).list_index(id.0@) >= 0,
        ensures
            final(self).wf(),
            ({
                let i = old(self).list_index(id.0@);
                final(self).lists() == old(self).lists().update(i, InternalList { els: final(self).lists()[i].els, ..old(self).lists()[i] })
                && (old(self).lists()[i].els@.len() > 0 ==> r == old(self).lists()[i].els@.last() && final(self).lists()[i].els@ == old(self).lists()[i].els@.drop_last()) && (old(self).lists()[i].els@.len() == 0 ==> r == Object::Null && final(self).lists()[i].els@ == old(self).lists()[i].els@)
            }),
            final(self).classes() == old(self).classes(),
            final(self).instances() == old(self).instances(),
            final(self).files() == old(self).files(),
            final(self).this_key() == old(self).this_key(),
    {
        let i = self.find_list(id.0.as_str()).unwrap();
        let ghost before = self.listmap@;
        let r = self.listmap[i].remove_last();
        proof {
            assert(list_ids(self.listmap@) =~= list_ids(before));
            assert(self.listmap@ =~= before.update(i as int, InternalList { els: self.listmap@[i as int].els, ..before[i as int] }));
        }
        r
    }

    /// On the list with key `id`, which must be on the heap: puts its elements
    /// in a random order; the same elements remain.
    pub fn list_shuffle(&mut self, id: &RefKey)
        requires
            old(self).wf(),
            old(self).list_index(id.0@) >= 0,
        ensures
            final(self).wf(),
            ({
                let i = old(self).list_index(id.0@);
                final(self).lists() == old(self).lists().update(i, InternalList { els: final(self).lists()[i].els, ..old(self).lists()[i] })
                && final(self).lists()[i].els@.to_multiset() == old(self).lists()[i].els@.to_multiset()
            }),
            final(self).classes() == old(self).classes(),
            final(self).instances() == old(self).instances(),
            final(self).files() == old(self).files(),
            final(self).this_key() == old(self).this_key(),
    {
        let i = self.find_list(id.0.as_str()).unwrap();
        let ghost before = self.listmap@;
        self.listmap[i].shuffle();
        proof {
            assert(list_ids(self.listmap@) =~= list_ids(before));
            assert(self.listmap@ =~= before.update(i as int, InternalList { els: self.listmap@[i as int].els, ..before[i as int] }));
        }
    }
}

/// The keys that the references among `objs` point to, in order.
pub open spec fn refs_of(objs: Seq<Object>) -> Seq<Seq<char>>
    decreases objs.len(),
{
    if objs.len() == 0 {
        seq![]
    } else {
        let r = refs_of(objs.drop_last());
        match objs.last() {
            Object::Reference(k) => r.push(k.0@),
            _ => r,
        }
    }
}

/// The values of the fields of an instance, in order.
pub open spec fn field_values(f: Seq<(String, Object)>) -> Seq<Object> {
    f.map_values(|e: (String, Object)| e.1)
}

/// The number of `false` entries.
pub open spec fn count_unmarked(b: Seq<bool>) -> nat
    decreases b.len(),
{
    if b.len() == 0 {
        0
    } else {
        count_unmarked(b.drop_last()) + if b.last() { 0nat } else { 1nat }
    }
}

pub proof fn lemma_count_unmarked_le(b1: Seq<bool>, b2: Seq<bool>)
    requires
        b1.len() == b2.len(),
        forall|i: int| 0 <= i < b1.len() && #[trigger] b1[i] ==> b2[i],
    ensures
        count_unmarked(b2) <= count_unmarked(b1),
        (exists|i: int| 0 <= i < b1.len() && !b1[i] && #[trigger] b2[i]) ==> count_unmarked(b2) < count_unmarked(b1),
    decreases b1.len(),
{
    if b1.len() > 0 {
        let c1 = b1.drop_last();
        let c2 = b2.drop_last();
        assert forall|i: int| 0 <= i < c1.len() && #[trigger] c1[i] implies c2[i] by {
            assert(b1[i]);
        }
        lemma_count_unmarked_le(c1, c2);
        if exists|i: int| 0 <= i < b1.len() && !b1[i] && #[trigger] b2[i] {
            let i = choose|i: int| 0 <= i < b1.len() && !b1[i] && #[trigger] b2[i];
            if i < b1.len() - 1 {
                assert(!c1[i] && c2[i]);
            }
        }
    }
}

pub open spec fn inst_marks(s: Seq<Instance>) -> Seq<bool> {
    s.map_values(|x: Instance| x.marked)
}

pub open spec fn list_marks(s: Seq<InternalList>) -> Seq<bool> {
    s.map_values(|x: InternalList| x.marked)
}

pub open spec fn file_marks(s: Seq<InternalFile>) -> Seq<bool> {
    s.map_values(|x: InternalFile| x.marked)
}

impl ObjSys {
    /// Whether a heap object has key `k`.
    pub open spec fn heap_has(&self, k: Seq<char>) -> bool {
        self.inst_index(k) >= 0 || self.list_index(k) >= 0 || self.file_index(k) >= 0
    }

    /// Whether the heap object with key `k` is marked. Keys are looked up
    /// among the instances first, then the lists, then the files.
    pub open spec fn is_marked(&self, k: Seq<char>) -> bool {
        if self.inst_index(k) >= 0 {
            self.instances()[self.inst_index(k)].marked
        } else if self.list_index(k) >= 0 {
            self.lists()[self.list_index(k)].marked
        } else if self.file_index(k) >= 0 {
            self.files()[self.file_index(k)].marked
        } else {
            false
        }
    }

    /// The keys that the heap object with key `k` refers to: those held in an
    /// instance's fields and then its parent part, or in a list's elements,
    /// in order.
    pub open spec fn children(&self, k: Seq<char>) -> Seq<Seq<char>> {
        if self.inst_index(k) >= 0 {
            refs_of(field_values(self.instances()[self.inst_index(k)].fields@) + parent_objs(self.instances()[self.inst_index(k)].parent))
        } else if self.list_index(k) >= 0 {
            refs_of(self.lists()[self.list_index(k)].els@)
        } else {
            seq![]
        }
    }

    /// The number of unmarked heap objects.
    pub open spec fn unmarked(&self) -> nat {
        count_unmarked(inst_marks(self.instances())) + count_unmarked(list_marks(self.lists()))
            + count_unmarked(file_marks(self.files()))
    }

    /// No heap object is marked.
    pub open spec fn all_unmarked(&self) -> bool {
        &&& forall|i: int| 0 <= i < self.instances().len() ==> !(#[trigger] self.instances()[i]).marked
        &&& forall|i: int| 0 <= i < self.lists().len() ==> !(#[trigger] self.lists()[i]).marked
        &&& forall|i: int| 0 <= i < self.files().len() ==> !(#[trigger] self.files()[i]).marked
    }

    /// Every marked object's children are on the heap and marked.
    pub open spec fn marks_closed(&self) -> bool {
        forall|k: Seq<char>| #![trigger self.is_marked(k)] self.heap_has(k) && self.is_marked(k) ==>
            forall|j: int| 0 <= j < self.children(k).len() ==>
                self.heap_has(#[trigger] self.children(k)[j]) && self.is_marked(self.children(k)[j])
    }
}

/// `b` is `a` with marks changed only from unmarked to marked, and nothing
/// else changed.
pub open spec fn marks_grow(a: ObjSys, b: ObjSys) -> bool {
    &&& b.classes() == a.classes()
    &&& b.this_key() == a.this_key()
    &&& b.instances().len() == a.instances().len()
    &&& b.lists().len() == a.lists().len()
    &&& b.files().len() == a.files().len()
    &&& forall|i: int| 0 <= i < a.instances().len() ==> {
        let x = #[trigger] a.instances()[i];
        let y = b.instances()[i];
        y.id == x.id && y.classname == x.classname && y.parent == x.parent && y.fields == x.fields && (x.marked ==> y.marked)
    }
    &&& forall|i: int| 0 <= i < a.lists().len() ==> {
        let x = #[trigger] a.lists()[i];
        let y = b.lists()[i];
        y.id == x.id && y.els == x.els && (x.marked ==> y.marked)
    }
    &&& forall|i: int| 0 <= i < a.files().len() ==> {
        let x = #[trigger] a.files()[i];
        let y = b.files()[i];
        y.id == x.id && y.filename == x.filename && (x.marked ==> y.marked)
    }
}

pub proof fn lemma_marks_grow_facts(a: ObjSys, b: ObjSys)
    requires
        marks_grow(a, b),
    ensures
        instance_ids(a.instances()) == instance_ids(b.instances()),
        list_ids(a.lists()) == list_ids(b.lists()),
        file_ids(a.files()) == file_ids(b.files()),
        forall|k: Seq<char>| #[trigger] b.heap_has(k) == a.heap_has(k),
        forall|k: Seq<char>| #[trigger] b.children(k) == a.children(k),
        forall|k: Seq<char>| a.is_marked(k) ==> #[trigger] b.is_marked(k),
        b.unmarked() <= a.unmarked(),
{
    assert(instance_ids(a.instances()) =~= instance_ids(b.instances()));
    assert(list_ids(a.lists()) =~= list_ids(b.lists()));
    assert(file_ids(a.files()) =~= file_ids(b.files()));
    assert forall|k: Seq<char>| #[trigger] b.children(k) == a.children(k) by {
        if a.inst_index(k) >= 0 {
            lemma_first_index(instance_ids(a.instances()), k);
            assert(field_values(a.instances()[a.inst_index(k)].fields@) =~= field_values(b.instances()[b.inst_index(k)].fields@));
        } else if a.list_index(k) >= 0 {
            lemma_first_index(list_ids(a.lists()), k);
        }
    }
    assert forall|k: Seq<char>| a.is_marked(k) implies #[trigger] b.is_marked(k) by {
        if a.inst_index(k) >= 0 {
            lemma_first_index(instance_ids(a.instances()), k);
        } else if a.list_index(k) >= 0 {
            lemma_first_index(list_ids(a.lists()), k);
        } else if a.file_index(k) >= 0 {
            lemma_first_index(file_ids(a.files()), k);
        }
    }
    lemma_count_unmarked_le(inst_marks(a.instances()), inst_marks(b.instances()));
    lemma_count_unmarked_le(list_marks(a.lists()), list_marks(b.lists()));
    lemma_count_unmarked_le(file_marks(a.files()), file_marks(b.files()));
}

pub proof fn lemma_marks_grow_trans(a: ObjSys, b: ObjSys, c: ObjSys)
    requires
        marks_grow(a, b),
        marks_grow(b, c),
    ensures
        marks_grow(a, c),
{
    assert forall|i: int| 0 <= i < a.instances().len() implies {
        let x = #[trigger] a.instances()[i];
        let y = c.instances()[i];
        y.id == x.id && y.classname == x.classname && y.parent == x.parent && y.fields == x.fields && (x.marked ==> y.marked)
    } by {
        assert(b.instances()[i] == b.instances()[i]);
    }
    assert forall|i: int| 0 <= i < a.lists().len() implies {
        let x = #[trigger] a.lists()[i];
        let y = c.lists()[i];
        y.id == x.id && y.els == x.els && (x.marked ==> y.marked)
    } by {
        assert(b.lists()[i] == b.lists()[i]);
    }
    assert forall|i: int| 0 <= i < a.files().len() implies {
        let x = #[trigger] a.files()[i];
        let y = c.files()[i];
        y.id == x.id && y.filename == x.filename && (x.marked ==> y.marked)
    } by {
        assert(b.files()[i] == b.files()[i]);
    }
}


proof fn lemma_mark_instance(a: ObjSys, b: ObjSys, i: int)
    requires
        a.wf(),
        0 <= i < a.instances().len(),
        !a.instances()[i].marked,
        b.instances() == a.instances().update(i, Instance { marked: true, ..a.instances()[i] }),
        b.lists() == a.lists(),
        b.files() == a.files(),
        b.classes() == a.classes(),
        b.this_key() == a.this_key(),
        b.classes_wf() == a.classes_wf(),
    ensures
        b.wf(),
        marks_grow(a, b),
        b.unmarked() < a.unmarked(),
        forall|k: Seq<char>| k != a.instances()[i].id.0@ ==> #[trigger] b.is_marked(k) == a.is_marked(k),
{
    let ids = instance_ids(a.instances());
    assert(instance_ids(b.instances()) =~= ids);
    lemma_count_unmarked_le(inst_marks(a.instances()), inst_marks(b.instances()));
    assert(!inst_marks(a.instances())[i] && inst_marks(b.instances())[i]);
    assert forall|k: Seq<char>| k != a.instances()[i].id.0@ implies #[trigger] b.is_marked(k) == a.is_marked(k) by {
        lemma_first_index(ids, k);
        if first_index(ids, k) >= 0 {
            assert(first_index(ids, k) != i);
        }
    }
    assert forall|j: int| 0 <= j < b.instances().len() implies keys_unique(#[trigger] b.instances()[j].fields@) by {
        assert(keys_unique(a.instances()[j].fields@));
    }
}

proof fn lemma_mark_list(a: ObjSys, b: ObjSys, i: int)
    requires
        a.wf(),
        0 <= i < a.lists().len(),
        !a.lists()[i].marked,
        b.lists() == a.lists().update(i, InternalList { marked: true, ..a.lists()[i] }),
        b.instances() == a.instances(),
        b.files() == a.files(),
        b.classes() == a.classes(),
        b.this_key() == a.this_key(),
        b.classes_wf() == a.classes_wf(),
    ensures
        b.wf(),
        marks_grow(a, b),
        b.unmarked() < a.unmarked(),
        forall|k: Seq<char>| k != a.lists()[i].id.0@ ==> #[trigger] b.is_marked(k) == a.is_marked(k),
{
    let ids = list_ids(a.lists());
    assert(list_ids(b.lists()) =~= ids);
    lemma_count_unmarked_le(list_marks(a.lists()), list_marks(b.lists()));
    assert(!list_marks(a.lists())[i] && list_marks(b.lists())[i]);
    assert forall|k: Seq<char>| k != a.lists()[i].id.0@ implies #[trigger] b.is_marked(k) == a.is_marked(k) by {
        lemma_first_index(ids, k);
        if first_index(ids, k) >= 0 {
            assert(first_index(ids, k) != i);
        }
    }
    assert forall|j: int| 0 <= j < b.instances().len() implies keys_unique(#[trigger] b.instances()[j].fields@) by {
        assert(keys_unique(a.instances()[j].fields@));
    }
}

proof fn lemma_mark_file(a: ObjSys, b: ObjSys, i: int)
    requires
        a.wf(),
        0 <= i < a.files().len(),
        !a.files()[i].marked,
        b.files() == a.files().update(i, InternalFile { marked: true, ..a.files()[i] }),
        b.instances() == a.instances(),
        b.lists() == a.lists(),
        b.classes() == a.classes(),
        b.this_key() == a.this_key(),
        b.classes_wf() == a.classes_wf(),
    ensures
        b.wf(),
        marks_grow(a, b),
        b.unmarked() < a.unmarked(),
        forall|k: Seq<char>| k != a.files()[i].id.0@ ==> #[trigger] b.is_marked(k) == a.is_marked(k),
{
    let ids = file_ids(a.files());
    assert(file_ids(b.files()) =~= ids);
    lemma_count_unmarked_le(file_marks(a.files()), file_marks(b.files()));
    assert(!file_marks(a.files())[i] && file_marks(b.files())[i]);
    assert forall|k: Seq<char>| k != a.files()[i].id.0@ implies #[trigger] b.is_marked(k) == a.is_marked(k) by {
        lemma_first_index(ids, k);
        if first_index(ids, k) >= 0 {
            assert(first_index(ids, k) != i);
        }
    }
    assert forall|j: int| 0 <= j < b.instances().len() implies keys_unique(#[trigger] b.instances()[j].fields@) by {
        assert(keys_unique(a.instances()[j].fields@));
    }
}

/// The keys of `v`, in order.
pub open spec fn key_seq(v: Seq<RefKey>) -> Seq<Seq<char>> {
    v.map_values(|k: RefKey| k.0@)
}

/// The parent part of an instance, as a sequence of at most one value.
pub open spec fn parent_objs(p: MaybeObject) -> Seq<Object> {
    match p {
        MaybeObject::Present(o) => seq![o],
        MaybeObject::Absent => seq![],
    }
}

/// The keys that the references among an instance's fields and its parent
/// part point to.
fn refs_in_instance(f: &Vec<(String, Object)>, parent: &MaybeObject) -> (r: Vec<RefKey>)
    ensures
        key_seq(r@) == refs_of(field_values(f@) + parent_objs(*parent)),
{
    let mut r = refs_in_fields(f);
    proof {
        if parent is Present {
            assert((field_values(f@) + parent_objs(*parent)).drop_last() =~= field_values(f@));
        }
    }
    match parent {
        MaybeObject::Present(Object::Reference(k)) => {
            r.push(k.duplicate());
            assert(key_seq(r@) =~= refs_of(field_values(f@) + parent_objs(*parent)));
        },
        MaybeObject::Present(_) => {
            assert(key_seq(r@) =~= refs_of(field_values(f@) + parent_objs(*parent)));
        },
        MaybeObject::Absent => {
            assert(field_values(f@) + parent_objs(*parent) =~= field_values(f@));
        },
    }
    r
}

/// The keys that the references among the fields' values point to.
fn refs_in_fields(f: &Vec<(String, Object)>) -> (r: Vec<RefKey>)
    ensures
        key_seq(r@) == refs_of(field_values(f@)),
{
    let mut r: Vec<RefKey> = Vec::new();
    let mut j: usize = 0;
    while j < f.len()
        invariant
            0 <= j <= f.len(),
            key_seq(r@) == refs_of(field_values(f@).take(j as int)),
        decreases f.len() - j,
    {
        assert(field_values(f@).take(j + 1).drop_last() =~= field_values(f@).take(j as int));
        if let Object::Reference(k) = &f[j].1 {
            r.push(k.duplicate());
        }
        assert(key_seq(r@) =~= refs_of(field_values(f@).take(j + 1)));
        j = j + 1;
    }
    assert(field_values(f@).take(f.len() as int) =~= field_values(f@));
    r
}

/// The keys that the references among `objs` point to.
fn refs_in_objects(objs: &Vec<Object>) -> (r: Vec<RefKey>)
    ensures
        key_seq(r@) == refs_of(objs@),
{
    let mut r: Vec<RefKey> = Vec::new();
    let mut j: usize = 0;
    while j < objs.len()
        invariant
            0 <= j <= objs.len(),
            key_seq(r@) == refs_of(objs@.take(j as int)),
        decreases objs.len() - j,
    {
        assert(objs@.take(j + 1).drop_last() =~= objs@.take(j as int));
        if let Object::Reference(k) = &objs[j] {
            r.push(k.duplicate());
        }
        assert(key_seq(r@) =~= refs_of(objs@.take(j + 1)));
        j = j + 1;
    }
    assert(objs@.take(objs.len() as int) =~= objs@);
    r
}

/// Marks the heap object with key `rk` and, depth first, everything it refers
/// to that is not marked yet. Fails with the key of a referred object that is
/// not on the heap.
pub fn mark(obs: &mut ObjSys, rk: &RefKey) -> (r: Result<(), RefKey>)
    requires
        old(obs).wf(),
    ensures
        final(obs).wf(),
        marks_grow(*old(obs), *final(obs)),
        r is Ok ==> old(obs).heap_has(rk.0@) && final(obs).is_marked(rk.0@),
        r is Ok ==> forall|k: Seq<char>| #![trigger final(obs).is_marked(k)]
            final(obs).heap_has(k) && final(obs).is_marked(k) && !old(obs).is_marked(k) ==>
                forall|j: int| 0 <= j < final(obs).children(k).len() ==>
                    final(obs).heap_has(#[trigger] final(obs).children(k)[j]) && final(obs).is_marked(final(obs).children(k)[j]),
        r matches Err(missing) ==> !old(obs).heap_has(missing.0@),
        new_marks_reachable(*old(obs), *final(obs), set![rk.0@]),
        r is Ok && old(obs).marks_closed() ==> forall|k: Seq<char>| #[trigger] reachable(*old(obs), set![rk.0@], k)
            ==> final(obs).heap_has(k) && final(obs).is_marked(k),
{
    let ghost o0 = *obs;
    let r = mark_from(obs, rk);
    proof {
        if r is Ok && o0.marks_closed() {
            lemma_mark_keeps_closed(o0, *obs);
            assert forall|k: Seq<char>| #[trigger] reachable(o0, set![rk.0@], k) implies obs.heap_has(k) && obs.is_marked(k) by {
                lemma_reachable_grow(o0, *obs, set![rk.0@], k);
                lemma_reachable_marked(*obs, set![rk.0@], k);
            }
        }
    }
    r
}

/// Marks the heap object with key `rk` and what it refers to, as `mark` says.
fn mark_from(obs: &mut ObjSys, rk: &RefKey) -> (r: Result<(), RefKey>)
    requires
        old(obs).wf(),
    ensures
        final(obs).wf(),
        marks_grow(*old(obs), *final(obs)),
        r is Ok ==> old(obs).heap_has(rk.0@) && final(obs).is_marked(rk.0@),
        r is Ok ==> forall|k: Seq<char>| #![trigger final(obs).is_marked(k)]
            final(obs).heap_has(k) && final(obs).is_marked(k) && !old(obs).is_marked(k) ==>
                forall|j: int| 0 <= j < final(obs).children(k).len() ==>
                    final(obs).heap_has(#[trigger] final(obs).children(k)[j]) && final(obs).is_marked(final(obs).children(k)[j]),
        r matches Err(missing) ==> !old(obs).heap_has(missing.0@),
        new_marks_reachable(*old(obs), *final(obs), set![rk.0@]),
    decreases old(obs).unmarked(),
{
    let ghost o0 = *obs;
    let childs: Vec<RefKey>;
    match obs.find_instance(rk.0.as_str()) {
        Some(i) => {
            if obs.instancemap[i].marked {
                proof { lemma_marks_grow_facts(o0, o0); }
                return Ok(());
            }
            obs.instancemap[i].marked = true;
            proof {
                lemma_mark_instance(o0, *obs, i as int);
                lemma_first_index(instance_ids(o0.instances()), rk.0@);
            }
            childs = refs_in_instance(&obs.instancemap[i].fields, &obs.instancemap[i].parent);
        },
        None => {
            match obs.find_list(rk.0.as_str()) {
                Some(i) => {
                    if obs.listmap[i].marked {
                        proof { lemma_marks_grow_facts(o0, o0); }
                        return Ok(());
                    }
                    obs.listmap[i].marked = true;
                    proof {
                        lemma_mark_list(o0, *obs, i as int);
                        lemma_first_index(list_ids(o0.lists()), rk.0@);
                    }
                    childs = refs_in_objects(&obs.listmap[i].els);
                },
                None => {
                    match obs.find_file(rk.0.as_str()) {
                        Some(i) => {
                            if !obs.filemap[i].marked {
                                obs.filemap[i].marked = true;
                                proof {
                                    lemma_mark_file(o0, *obs, i as int);
                                    lemma_first_index(file_ids(o0.files()), rk.0@);
                                    lemma_marks_grow_facts(o0, *obs);
                                    lemma_reachable_self(o0, rk.0@);
                                    assert forall|k: Seq<char>| #![trigger obs.is_marked(k)]
                                        obs.heap_has(k) && obs.is_marked(k) && !o0.is_marked(k) implies
                                        forall|j: int| 0 <= j < obs.children(k).len() ==>
                                            obs.heap_has(#[trigger] obs.children(k)[j]) && obs.is_marked(obs.children(k)[j]) by {
                                        assert(k == rk.0@);
                                        assert(obs.children(k) =~= seq![]);
                                    }
                                }
                            } else {
                                proof { lemma_marks_grow_facts(o0, o0); }
                            }
                            return Ok(());
                        },
                        None => {
                            return Err(rk.duplicate());
                        },
                    }
                },
            }
        },
    }
    let ghost o1 = *obs;
    proof {
        lemma_marks_grow_facts(o0, o1);
        lemma_reachable_self(o0, rk.0@);
    }
    let mut j: usize = 0;
    while j < childs.len()
        invariant
            o0 == *old(obs),
            obs.wf(),
            marks_grow(o0, o1),
            marks_grow(o1, *obs),
            o1.unmarked() < o0.unmarked(),
            obs.unmarked() <= o1.unmarked(),
            o0.heap_has(rk.0@),
            o1.is_marked(rk.0@),
            !o0.is_marked(rk.0@),
            forall|k: Seq<char>| k != rk.0@ ==> #[trigger] o1.is_marked(k) == o0.is_marked(k),
            key_seq(childs@) == o1.children(rk.0@),
            new_marks_reachable(o0, *obs, set![rk.0@]),
            0 <= j <= childs.len(),
            forall|jj: int| 0 <= jj < j ==> obs.heap_has(#[trigger] key_seq(childs@)[jj]) && obs.is_marked(key_seq(childs@)[jj]),
            forall|k: Seq<char>| #![trigger obs.is_marked(k)]
                obs.heap_has(k) && obs.is_marked(k) && !o1.is_marked(k) ==>
                    forall|jx: int| 0 <= jx < obs.children(k).len() ==>
                        obs.heap_has(#[trigger] obs.children(k)[jx]) && obs.is_marked(obs.children(k)[jx]),
        decreases childs.len() - j,
    {
        let ghost before = *obs;
        proof {
            lemma_marks_grow_facts(o1, before);
            assert(before.unmarked() < o0.unmarked());
        }
        let res = mark_from(obs, &childs[j]);
        proof {
            lemma_marks_grow_trans(o0, o1, before);
            lemma_marks_grow_facts(o0, before);
            lemma_marks_grow_facts(before, *obs);
            let c = childs@[j as int].0@;
            lemma_marks_grow_facts(o0, o1);
            assert(o1.children(rk.0@) == o0.children(rk.0@));
            assert(key_seq(childs@)[j as int] == c);
            assert(o0.children(rk.0@)[j as int] == c);
            assert(o0.children(rk.0@).contains(c));
            assert forall|k: Seq<char>| #![trigger obs.is_marked(k)]
                obs.is_marked(k) && !o0.is_marked(k) implies reachable(o0, set![rk.0@], k) by {
                if !before.is_marked(k) {
                    lemma_reachable_back(o0, before, set![c], k);
                    lemma_reachable_step(o0, rk.0@, c, k);
                }
            }
        }
        match res {
            Err(e) => {
                proof {
                    lemma_marks_grow_facts(o0, o1);
                    lemma_marks_grow_facts(o1, before);
                    lemma_marks_grow_facts(before, *obs);
                    lemma_marks_grow_trans(o0, o1, before);
                    lemma_marks_grow_trans(o0, before, *obs);
                    assert(marks_grow(o0, *obs));
                }
                return Err(e);
            },
            Ok(()) => {},
        }
        proof {
            lemma_marks_grow_facts(before, *obs);
            lemma_marks_grow_trans(o1, before, *obs);
            lemma_marks_grow_facts(o1, *obs);
            assert(key_seq(childs@)[j as int] == childs@[j as int].0@);
        }
        j = j + 1;
    }
    proof {
        lemma_marks_grow_trans(o0, o1, *obs);
        lemma_marks_grow_facts(o0, *obs);
        lemma_marks_grow_facts(o1, *obs);
        assert forall|k: Seq<char>| #![trigger obs.is_marked(k)]
            obs.heap_has(k) && obs.is_marked(k) && !o0.is_marked(k) implies
                forall|jx: int| 0 <= jx < obs.children(k).len() ==>
                    obs.heap_has(#[trigger] obs.children(k)[jx]) && obs.is_marked(obs.children(k)[jx]) by {
            if k == rk.0@ {
                assert forall|jx: int| 0 <= jx < obs.children(k).len() implies
                    obs.heap_has(#[trigger] obs.children(k)[jx]) && obs.is_marked(obs.children(k)[jx]) by {
                    assert(obs.children(k)[jx] == key_seq(childs@)[jx]);
                }
            } else {
                assert(!o1.is_marked(k));
            }
        }
    }
    Ok(())
}


/// The elements of `s` for which `m` holds, in order.
pub open spec fn keep<T>(s: Seq<T>, m: spec_fn(T) -> bool) -> Seq<T>
    decreases s.len(),
{
    if s.len() == 0 {
        seq![]
    } else {
        (if m(s[0]) { seq![s[0]] } else { seq![] }) + keep(s.drop_first(), m)
    }
}

pub proof fn lemma_keep_facts<T>(s: Seq<T>, m: spec_fn(T) -> bool, id: spec_fn(T) -> Seq<char>)
    ensures
        forall|x: T| #[trigger] keep(s, m).contains(x) <==> (s.contains(x) && m(x)),
        ids_unique(s.map_values(id)) ==> ids_unique(keep(s, m).map_values(id)),
    decreases s.len(),
{
    if s.len() > 0 {
        let t = s.drop_first();
        lemma_keep_facts(t, m, id);
        let h: Seq<T> = if m(s[0]) { seq![s[0]] } else { seq![] };
        assert(keep(s, m) == h + keep(t, m));
        assert forall|x: T| #[trigger] keep(s, m).contains(x) <==> (s.contains(x) && m(x)) by {
            if keep(s, m).contains(x) {
                let i = choose|i: int| 0 <= i < keep(s, m).len() && keep(s, m)[i] == x;
                if i < h.len() {
                    assert(s[0] == x);
                } else {
                    assert(keep(t, m)[i - h.len()] == x);
                    assert(keep(t, m).contains(x));
                    let j = choose|j: int| 0 <= j < t.len() && t[j] == x;
                    assert(s[j + 1] == x);
                }
            }
            if s.contains(x) && m(x) {
                let i = choose|i: int| 0 <= i < s.len() && s[i] == x;
                if i == 0 {
                    assert(keep(s, m)[0] == x);
                } else {
                    assert(t[i - 1] == x);
                    assert(keep(t, m).contains(x));
                    let j = choose|j: int| 0 <= j < keep(t, m).len() && keep(t, m)[j] == x;
                    assert(keep(s, m)[j + h.len()] == x);
                }
            }
        }
        if ids_unique(s.map_values(id)) {
            let sid = s.map_values(id);
            assert(ids_unique(t.map_values(id))) by {
                assert forall|a: int, b: int| 0 <= a < t.len() && 0 <= b < t.len() && a != b implies #[trigger] t.map_values(id)[a] != #[trigger] t.map_values(id)[b] by {
                    assert(sid[a + 1] != sid[b + 1]);
                }
            }
            let k = keep(s, m);
            let kt = keep(t, m);
            assert forall|a: int, b: int| 0 <= a < k.len() && 0 <= b < k.len() && a != b implies #[trigger] k.map_values(id)[a] != #[trigger] k.map_values(id)[b] by {
                if a >= h.len() && b >= h.len() {
                    assert(kt.map_values(id)[a - h.len()] != kt.map_values(id)[b - h.len()]);
                } else {
                    let (x, y) = if a < h.len() { (b, a) } else { (a, b) };
                    assert(kt.contains(k[x]));
                    let j = choose|j: int| 0 <= j < t.len() && t[j] == k[x];
                    assert(sid[j + 1] != sid[0]);
                }
            }
        }
    }
}

/// Removes the unmarked instances and gives their keys.
#[verifier::loop_isolation(false)]
fn sweep_instancemap(obs: &mut ObjSys) -> (del: Vec<RefKey>)
    requires
        old(obs).wf(),
    ensures
        final(obs).wf(),
        final(obs).instances() == keep(old(obs).instances(), |x: Instance| x.marked),
        key_seq(del@) == keep(old(obs).instances(), |x: Instance| !x.marked).map_values(|x: Instance| x.id.0@),
        
        final(obs).lists() == old(obs).lists(),
        final(obs).files() == old(obs).files(),
        final(obs).classes() == old(obs).classes(),
        final(obs).this_key() == old(obs).this_key(),
{
    let ghost orig = obs.instancemap@;
    let ghost m = |x: Instance| x.marked;
    let ghost um = |x: Instance| !x.marked;
    let mut rest: Vec<Instance> = Vec::new();
    std::mem::swap(&mut rest, &mut obs.instancemap);
    let mut kept: Vec<Instance> = Vec::new();
    let mut del: Vec<RefKey> = Vec::new();
    assert(kept@ + keep(rest@, m) =~= keep(orig, m));
    assert(key_seq(del@) + keep(rest@, um).map_values(|x: Instance| x.id.0@) =~= keep(orig, um).map_values(|x: Instance| x.id.0@));
    while rest.len() > 0
        invariant
            obs.instancemap@.len() == 0,
            kept@ + keep(rest@, m) == keep(orig, m),
            key_seq(del@) + keep(rest@, um).map_values(|x: Instance| x.id.0@) == keep(orig, um).map_values(|x: Instance| x.id.0@),
        decreases rest.len(),
    {
        let ghost r0 = rest@;
        let x = rest.remove(0);
        assert(rest@ =~= r0.drop_first());
        assert(x == r0[0]);
        assert(keep(r0, m) == (if m(r0[0]) { seq![r0[0]] } else { seq![] }) + keep(r0.drop_first(), m));
        assert(keep(r0, um) == (if um(r0[0]) { seq![r0[0]] } else { seq![] }) + keep(r0.drop_first(), um));
        assert(m(x) == x.marked && um(x) == !x.marked);
        if x.marked {
            assert(keep(r0, m) =~= seq![x] + keep(rest@, m));
            assert(keep(r0, um) =~= keep(rest@, um));
            kept.push(x);
            assert(kept@ + keep(rest@, m) =~= keep(orig, m));
        } else {
            assert(keep(r0, m) =~= keep(rest@, m));
            assert(keep(r0, um) =~= seq![x] + keep(rest@, um));
            let k = x.id.duplicate();
            del.push(k);
            assert(key_seq(del@) + keep(rest@, um).map_values(|y: Instance| y.id.0@) =~= keep(orig, um).map_values(|y: Instance| y.id.0@));
        }
    }
    assert(kept@ =~= keep(orig, m));
    assert(key_seq(del@) =~= keep(orig, um).map_values(|y: Instance| y.id.0@));
    obs.instancemap = kept;
    proof {
        lemma_keep_facts(orig, m, |y: Instance| y.id.0@);
        assert(orig.map_values(|y: Instance| y.id.0@) =~= instance_ids(orig));
        assert(keep(orig, m).map_values(|y: Instance| y.id.0@) =~= instance_ids(obs.instancemap@));
        assert forall|i: int| 0 <= i < obs.instances().len() implies keys_unique(#[trigger] obs.instances()[i].fields@) by {
            assert(keep(orig, m).contains(obs.instances()[i]));
            let j = choose|j: int| 0 <= j < orig.len() && orig[j] == obs.instances()[i];
            assert(keys_unique(orig[j].fields@));
        }
    }
    del
}

/// Unmarks every instance.
fn clear_instancemap(obs: &mut ObjSys)
    requires
        old(obs).wf(),
    ensures
        final(obs).wf(),
        final(obs).instances().len() == old(obs).instances().len(),
        forall|i: int| 0 <= i < final(obs).instances().len() ==> (#[trigger] final(obs).instances()[i]) == (Instance { marked: false, ..old(obs).instances()[i] }),
        
        final(obs).lists() == old(obs).lists(),
        final(obs).files() == old(obs).files(),
        final(obs).classes() == old(obs).classes(),
        final(obs).this_key() == old(obs).this_key(),
{
    let ghost o0 = *obs;
    let mut i: usize = 0;
    while i < obs.instancemap.len()
        invariant
            0 <= i <= obs.instancemap@.len(),
            obs.instancemap@.len() == o0.instancemap@.len(),
            forall|j: int| 0 <= j < i ==> (#[trigger] obs.instancemap@[j]) == (Instance { marked: false, ..o0.instancemap@[j] }),
            forall|j: int| i <= j < obs.instancemap@.len() ==> (#[trigger] obs.instancemap@[j]) == o0.instancemap@[j],
            obs.instancemap@ == o0.instancemap@ || true,
            obs.listmap@ == o0.listmap@,
            obs.filemap@ == o0.filemap@,
            obs.classmap@ == o0.classmap@,
            obs.this == o0.this,
        decreases obs.instancemap@.len() - i,
    {
        obs.instancemap[i].marked = false;
        i = i + 1;
    }
    proof {
        assert(instance_ids(obs.instancemap@) =~= instance_ids(o0.instancemap@));
        assert forall|j: int| 0 <= j < obs.instances().len() implies keys_unique(#[trigger] obs.instances()[j].fields@) by {
            assert(keys_unique(o0.instances()[j].fields@));
        }
    }
}

/// Removes the unmarked lists and gives their keys.
#[verifier::loop_isolation(false)]
fn sweep_listmap(obs: &mut ObjSys) -> (del: Vec<RefKey>)
    requires
        old(obs).wf(),
    ensures
        final(obs).wf(),
        final(obs).lists() == keep(old(obs).lists(), |x: InternalList| x.marked),
        key_seq(del@) == keep(old(obs).lists(), |x: InternalList| !x.marked).map_values(|x: InternalList| x.id.0@),
        final(obs).instances() == old(obs).instances(),
        
        final(obs).files() == old(obs).files(),
        final(obs).classes() == old(obs).classes(),
        final(obs).this_key() == old(obs).this_key(),
{
    let ghost orig = obs.listmap@;
    let ghost m = |x: InternalList| x.marked;
    let ghost um = |x: InternalList| !x.marked;
    let mut rest: Vec<InternalList> = Vec::new();
    std::mem::swap(&mut rest, &mut obs.listmap);
    let mut kept: Vec<InternalList> = Vec::new();
    let mut del: Vec<RefKey> = Vec::new();
    assert(kept@ + keep(rest@, m) =~= keep(orig, m));
    assert(key_seq(del@) + keep(rest@, um).map_values(|x: InternalList| x.id.0@) =~= keep(orig, um).map_values(|x: InternalList| x.id.0@));
    while rest.len() > 0
        invariant
            obs.listmap@.len() == 0,
            kept@ + keep(rest@, m) == keep(orig, m),
            key_seq(del@) + keep(rest@, um).map_values(|x: InternalList| x.id.0@) == keep(orig, um).map_values(|x: InternalList| x.id.0@),
        decreases rest.len(),
    {
        let ghost r0 = rest@;
        let x = rest.remove(0);
        assert(rest@ =~= r0.drop_first());
        assert(x == r0[0]);
        assert(keep(r0, m) == (if m(r0[0]) { seq![r0[0]] } else { seq![] }) + keep(r0.drop_first(), m));
        assert(keep(r0, um) == (if um(r0[0]) { seq![r0[0]] } else { seq![] }) + keep(r0.drop_first(), um));
        assert(m(x) == x.marked && um(x) == !x.marked);
        if x.marked {
            assert(keep(r0, m) =~= seq![x] + keep(rest@, m));
            assert(keep(r0, um) =~= keep(rest@, um));
            kept.push(x);
            assert(kept@ + keep(rest@, m) =~= keep(orig, m));
        } else {
            assert(keep(r0, m) =~= keep(rest@, m));
            assert(keep(r0, um) =~= seq![x] + keep(rest@, um));
            let k = x.id.duplicate();
            del.push(k);
            assert(key_seq(del@) + keep(rest@, um).map_values(|y: InternalList| y.id.0@) =~= keep(orig, um).map_values(|y: InternalList| y.id.0@));
        }
    }
    assert(kept@ =~= keep(orig, m));
    assert(key_seq(del@) =~= keep(orig, um).map_values(|y: InternalList| y.id.0@));
    obs.listmap = kept;
    proof {
        lemma_keep_facts(orig, m, |y: InternalList| y.id.0@);
        assert(orig.map_values(|y: InternalList| y.id.0@) =~= list_ids(orig));
        assert(keep(orig, m).map_values(|y: InternalList| y.id.0@) =~= list_ids(obs.listmap@));
        
    }
    del
}

/// Unmarks every list.
fn clear_listmap(obs: &mut ObjSys)
    requires
        old(obs).wf(),
    ensures
        final(obs).wf(),
        final(obs).lists().len() == old(obs).lists().len(),
        forall|i: int| 0 <= i < final(obs).lists().len() ==> (#[trigger] final(obs).lists()[i]) == (InternalList { marked: false, ..old(obs).lists()[i] }),
        final(obs).instances() == old(obs).instances(),
        
        final(obs).files() == old(obs).files(),
        final(obs).classes() == old(obs).classes(),
        final(obs).this_key() == old(obs).this_key(),
{
    let ghost o0 = *obs;
    let mut i: usize = 0;
    while i < obs.listmap.len()
        invariant
            0 <= i <= obs.listmap@.len(),
            obs.listmap@.len() == o0.listmap@.len(),
            forall|j: int| 0 <= j < i ==> (#[trigger] obs.listmap@[j]) == (InternalList { marked: false, ..o0.listmap@[j] }),
            forall|j: int| i <= j < obs.listmap@.len() ==> (#[trigger] obs.listmap@[j]) == o0.listmap@[j],
            obs.instancemap@ == o0.instancemap@ || false,
            obs.instancemap@ == o0.instancemap@,
            obs.filemap@ == o0.filemap@,
            obs.classmap@ == o0.classmap@,
            obs.this == o0.this,
        decreases obs.listmap@.len() - i,
    {
        obs.listmap[i].marked = false;
        i = i + 1;
    }
    proof {
        assert(list_ids(obs.listmap@) =~= list_ids(o0.listmap@));
        
    }
}

/// Removes the unmarked files and gives their keys.
#[verifier::loop_isolation(false)]
fn sweep_filemap(obs: &mut ObjSys) -> (del: Vec<RefKey>)
    requires
        old(obs).wf(),
    ensures
        final(obs).wf(),
        final(obs).files() == keep(old(obs).files(), |x: InternalFile| x.marked),
        key_seq(del@) == keep(old(obs).files(), |x: InternalFile| !x.marked).map_values(|x: InternalFile| x.id.0@),
        final(obs).instances() == old(obs).instances(),
        final(obs).lists() == old(obs).lists(),
        
        final(obs).classes() == old(obs).classes(),
        final(obs).this_key() == old(obs).this_key(),
{
    let ghost orig = obs.filemap@;
    let ghost m = |x: InternalFile| x.marked;
    let ghost um = |x: InternalFile| !x.marked;
    let mut rest: Vec<InternalFile> = Vec::new();
    std::mem::swap(&mut rest, &mut obs.filemap);
    let mut kept: Vec<InternalFile> = Vec::new();
    let mut del: Vec<RefKey> = Vec::new();
    assert(kept@ + keep(rest@, m) =~= keep(orig, m));
    assert(key_seq(del@) + keep(rest@, um).map_values(|x: InternalFile| x.id.0@) =~= keep(orig, um).map_values(|x: InternalFile| x.id.0@));
    while rest.len() > 0
        invariant
            obs.filemap@.len() == 0,
            kept@ + keep(rest@, m) == keep(orig, m),
            key_seq(del@) + keep(rest@, um).map_values(|x: InternalFile| x.id.0@) == keep(orig, um).map_values(|x: InternalFile| x.id.0@),
        decreases rest.len(),
    {
        let ghost r0 = rest@;
        let x = rest.remove(0);
        assert(rest@ =~= r0.drop_first());
        assert(x == r0[0]);
        assert(keep(r0, m) == (if m(r0[0]) { seq![r0[0]] } else { seq![] }) + keep(r0.drop_first(), m));
        assert(keep(r0, um) == (if um(r0[0]) { seq![r0[0]] } else { seq![] }) + keep(r0.drop_first(), um));
        assert(m(x) == x.marked && um(x) == !x.marked);
        if x.marked {
            assert(keep(r0, m) =~= seq![x] + keep(rest@, m));
            assert(keep(r0, um) =~= keep(rest@, um));
            kept.push(x);
            assert(kept@ + keep(rest@, m) =~= keep(orig, m));
        } else {
            assert(keep(r0, m) =~= keep(rest@, m));
            assert(keep(r0, um) =~= seq![x] + keep(rest@, um));
            let k = x.id.duplicate();
            del.push(k);
            assert(key_seq(del@) + keep(rest@, um).map_values(|y: InternalFile| y.id.0@) =~= keep(orig, um).map_values(|y: InternalFile| y.id.0@));
        }
    }
    assert(kept@ =~= keep(orig, m));
    assert(key_seq(del@) =~= keep(orig, um).map_values(|y: InternalFile| y.id.0@));
    obs.filemap = kept;
    proof {
        lemma_keep_facts(orig, m, |y: InternalFile| y.id.0@);
        assert(orig.map_values(|y: InternalFile| y.id.0@) =~= file_ids(orig));
        assert(keep(orig, m).map_values(|y: InternalFile| y.id.0@) =~= file_ids(obs.filemap@));
        
    }
    del
}

/// Unmarks every file.
fn clear_filemap(obs: &mut ObjSys)
    requires
        old(obs).wf(),
    ensures
        final(obs).wf(),
        final(obs).files().len() == old(obs).files().len(),
        forall|i: int| 0 <= i < final(obs).files().len() ==> (#[trigger] final(obs).files()[i]) == (InternalFile { marked: false, ..old(obs).files()[i] }),
        final(obs).instances() == old(obs).instances(),
        final(obs).lists() == old(obs).lists(),
        
        final(obs).classes() == old(obs).classes(),
        final(obs).this_key() == old(obs).this_key(),
{
    let ghost o0 = *obs;
    let mut i: usize = 0;
    while i < obs.filemap.len()
        invariant
            0 <= i <= obs.filemap@.len(),
            obs.filemap@.len() == o0.filemap@.len(),
            forall|j: int| 0 <= j < i ==> (#[trigger] obs.filemap@[j]) == (InternalFile { marked: false, ..o0.filemap@[j] }),
            forall|j: int| i <= j < obs.filemap@.len() ==> (#[trigger] obs.filemap@[j]) == o0.filemap@[j],
            obs.instancemap@ == o0.instancemap@ || false,
            obs.instancemap@ == o0.instancemap@,
            obs.listmap@ == o0.listmap@,
            obs.classmap@ == o0.classmap@,
            obs.this == o0.this,
        decreases obs.filemap@.len() - i,
    {
        obs.filemap[i].marked = false;
        i = i + 1;
    }
    proof {
        assert(file_ids(obs.filemap@) =~= file_ids(o0.filemap@));
        
    }
}

/// The keys of the objects that a sweep removed: instances, lists and files.
pub struct SweepReport {
    pub instances: Vec<RefKey>,
    pub lists: Vec<RefKey>,
    pub files: Vec<RefKey>,
}

/// Removes every unmarked heap object, keeping the marked ones in order, and
/// reports the keys of those it removed.
pub fn sweep(obs: &mut ObjSys) -> (r: SweepReport)
    requires
        old(obs).wf(),
    ensures
        final(obs).wf(),
        final(obs).instances() == keep(old(obs).instances(), |x: Instance| x.marked),
        final(obs).lists() == keep(old(obs).lists(), |x: InternalList| x.marked),
        final(obs).files() == keep(old(obs).files(), |x: InternalFile| x.marked),
        key_seq(r.instances@) == keep(old(obs).instances(), |x: Instance| !x.marked).map_values(|x: Instance| x.id.0@),
        key_seq(r.lists@) == keep(old(obs).lists(), |x: InternalList| !x.marked).map_values(|x: InternalList| x.id.0@),
        key_seq(r.files@) == keep(old(obs).files(), |x: InternalFile| !x.marked).map_values(|x: InternalFile| x.id.0@),
        final(obs).classes() == old(obs).classes(),
        final(obs).this_key() == old(obs).this_key(),
{
    let instances = sweep_instancemap(obs);
    let lists = sweep_listmap(obs);
    let files = sweep_filemap(obs);
    SweepReport { instances, lists, files }
}

/// Unmarks every heap object and changes nothing else.
pub fn clearmark(obs: &mut ObjSys)
    requires
        old(obs).wf(),
    ensures
        final(obs).wf(),
        final(obs).all_unmarked(),
        final(obs).instances().len() == old(obs).instances().len(),
        final(obs).lists().len() == old(obs).lists().len(),
        final(obs).files().len() == old(obs).files().len(),
        forall|i: int| 0 <= i < final(obs).instances().len() ==> (#[trigger] final(obs).instances()[i]) == (Instance { marked: false, ..old(obs).instances()[i] }),
        forall|i: int| 0 <= i < final(obs).lists().len() ==> (#[trigger] final(obs).lists()[i]) == (InternalList { marked: false, ..old(obs).lists()[i] }),
        forall|i: int| 0 <= i < final(obs).files().len() ==> (#[trigger] final(obs).files()[i]) == (InternalFile { marked: false, ..old(obs).files()[i] }),
        final(obs).classes() == old(obs).classes(),
        final(obs).this_key() == old(obs).this_key(),
{
    clear_instancemap(obs);
    clear_listmap(obs);
    clear_filemap(obs);
}


/// Marking keeps the marks closed: when every object marked before had its
/// children marked, and every newly marked object has its children marked,
/// then every marked object has its children marked.
pub proof fn lemma_mark_keeps_closed(a: ObjSys, b: ObjSys)
    requires
        a.marks_closed(),
        marks_grow(a, b),
        forall|k: Seq<char>| #![trigger b.is_marked(k)]
            b.heap_has(k) && b.is_marked(k) && !a.is_marked(k) ==>
                forall|j: int| 0 <= j < b.children(k).len() ==>
                    b.heap_has(#[trigger] b.children(k)[j]) && b.is_marked(b.children(k)[j]),
    ensures
        b.marks_closed(),
{
    lemma_marks_grow_facts(a, b);
    assert forall|k: Seq<char>| #![trigger b.is_marked(k)] b.heap_has(k) && b.is_marked(k) implies
        forall|j: int| 0 <= j < b.children(k).len() ==>
            b.heap_has(#[trigger] b.children(k)[j]) && b.is_marked(b.children(k)[j]) by {
        if a.is_marked(k) {
            assert forall|j: int| 0 <= j < b.children(k).len() implies
                b.heap_has(#[trigger] b.children(k)[j]) && b.is_marked(b.children(k)[j]) by {
                assert(a.children(k)[j] == b.children(k)[j]);
                assert(a.heap_has(a.children(k)[j]) && a.is_marked(a.children(k)[j]));
            }
        }
    }
}

/// With nothing marked, the marks are closed.
pub proof fn lemma_unmarked_closed(a: ObjSys)
    requires
        a.wf(),
        a.all_unmarked(),
    ensures
        a.marks_closed(),
        forall|k: Seq<char>| !#[trigger] a.is_marked(k),
{
    assert forall|k: Seq<char>| !#[trigger] a.is_marked(k) by {
        lemma_first_index(instance_ids(a.instances()), k);
        lemma_first_index(list_ids(a.lists()), k);
        lemma_first_index(file_ids(a.files()), k);
    }
}

/// `p` is a path through the heap of `o`: each of its keys but the last is on
/// the heap and refers to the next.
pub open spec fn heap_path(o: ObjSys, p: Seq<Seq<char>>) -> bool {
    &&& p.len() >= 1
    &&& forall|i: int| #![trigger p[i]] 0 <= i < p.len() - 1 ==> o.heap_has(p[i]) && o.children(p[i]).contains(p[i + 1])
}

/// The key `k` can be reached in `o` from one of `roots`.
pub open spec fn reachable(o: ObjSys, roots: Set<Seq<char>>, k: Seq<char>) -> bool {
    exists|p: Seq<Seq<char>>| #[trigger] heap_path(o, p) && roots.contains(p[0]) && p.last() == k
}

proof fn lemma_path_marked(o: ObjSys, p: Seq<Seq<char>>, n: int)
    requires
        o.marks_closed(),
        heap_path(o, p),
        o.heap_has(p[0]) && o.is_marked(p[0]),
        0 <= n < p.len(),
    ensures
        o.heap_has(p[n]) && o.is_marked(p[n]),
    decreases n,
{
    if n > 0 {
        lemma_path_marked(o, p, n - 1);
        assert(o.children(p[n - 1]).contains(p[n]));
        let j = choose|j: int| 0 <= j < o.children(p[n - 1]).len() && #[trigger] o.children(p[n - 1])[j] == p[n];
        assert(o.is_marked(p[n - 1]));
        assert(o.heap_has(o.children(p[n - 1])[j]));
    }
}

/// With closed marks and every root marked, every object reachable from the
/// roots is on the heap and marked.
pub proof fn lemma_reachable_marked(o: ObjSys, roots: Set<Seq<char>>, k: Seq<char>)
    requires
        o.marks_closed(),
        forall|r: Seq<char>| #[trigger] roots.contains(r) ==> o.heap_has(r) && o.is_marked(r),
        reachable(o, roots, k),
    ensures
        o.heap_has(k) && o.is_marked(k),
{
    let p = choose|p: Seq<Seq<char>>| #[trigger] heap_path(o, p) && roots.contains(p[0]) && p.last() == k;
    lemma_path_marked(o, p, p.len() - 1);
}

/// `b` holds the object that `a` holds under key `k`, with the same kind and
/// content; only its mark may differ.
pub open spec fn same_object(a: ObjSys, b: ObjSys, k: Seq<char>) -> bool {
    &&& b.heap_has(k)
    &&& b.children(k) == a.children(k)
    &&& (a.inst_index(k) >= 0) == (b.inst_index(k) >= 0)
    &&& a.inst_index(k) >= 0 ==> {
        let x = a.instances()[a.inst_index(k)];
        let y = b.instances()[b.inst_index(k)];
        y.id == x.id && y.classname == x.classname && y.parent == x.parent && y.fields == x.fields
    }
    &&& a.inst_index(k) < 0 ==> (a.list_index(k) >= 0) == (b.list_index(k) >= 0)
    &&& a.inst_index(k) < 0 && a.list_index(k) >= 0 ==> {
        let x = a.lists()[a.list_index(k)];
        let y = b.lists()[b.list_index(k)];
        y.id == x.id && y.els == x.els
    }
    &&& a.inst_index(k) < 0 && a.list_index(k) < 0 ==> {
        let x = a.files()[a.file_index(k)];
        let y = b.files()[b.file_index(k)];
        y.id == x.id && y.filename == x.filename
    }
}

proof fn lemma_keep_instance(a: Seq<Instance>, b: Seq<Instance>, k: Seq<char>)
    requires
        ids_unique(instance_ids(a)),
        b == keep(a, |x: Instance| x.marked),
    ensures
        ids_unique(instance_ids(b)),
        first_index(instance_ids(b), k) >= 0 ==> first_index(instance_ids(a), k) >= 0,
        first_index(instance_ids(a), k) >= 0 && a[first_index(instance_ids(a), k)].marked ==>
            first_index(instance_ids(b), k) >= 0 && b[first_index(instance_ids(b), k)] == a[first_index(instance_ids(a), k)],
{
    let m = |x: Instance| x.marked;
    let id = |x: Instance| x.id.0@;
    lemma_keep_facts(a, m, id);
    assert(a.map_values(id) =~= instance_ids(a));
    assert(b.map_values(id) =~= instance_ids(b));
    lemma_first_index(instance_ids(a), k);
    lemma_first_index(instance_ids(b), k);
    if first_index(instance_ids(b), k) >= 0 {
        let j = first_index(instance_ids(b), k);
        assert(b.contains(b[j]));
        let i = choose|i: int| 0 <= i < a.len() && a[i] == b[j];
        assert(instance_ids(a)[i] == k);
        assert(instance_ids(a).contains(k));
    }
    if first_index(instance_ids(a), k) >= 0 && a[first_index(instance_ids(a), k)].marked {
        let i = first_index(instance_ids(a), k);
        assert(a.contains(a[i]));
        assert(b.contains(a[i]));
        let j = choose|j: int| 0 <= j < b.len() && b[j] == a[i];
        assert(instance_ids(b)[j] == k);
        assert(instance_ids(b).contains(k));
        let jj = first_index(instance_ids(b), k);
        if jj != j {
            assert(instance_ids(b)[jj] != instance_ids(b)[j]);
        }
    }
}

proof fn lemma_keep_list(a: Seq<InternalList>, b: Seq<InternalList>, k: Seq<char>)
    requires
        ids_unique(list_ids(a)),
        b == keep(a, |x: InternalList| x.marked),
    ensures
        ids_unique(list_ids(b)),
        first_index(list_ids(b), k) >= 0 ==> first_index(list_ids(a), k) >= 0,
        first_index(list_ids(a), k) >= 0 && a[first_index(list_ids(a), k)].marked ==>
            first_index(list_ids(b), k) >= 0 && b[first_index(list_ids(b), k)] == a[first_index(list_ids(a), k)],
{
    let m = |x: InternalList| x.marked;
    let id = |x: InternalList| x.id.0@;
    lemma_keep_facts(a, m, id);
    assert(a.map_values(id) =~= list_ids(a));
    assert(b.map_values(id) =~= list_ids(b));
    lemma_first_index(list_ids(a), k);
    lemma_first_index(list_ids(b), k);
    if first_index(list_ids(b), k) >= 0 {
        let j = first_index(list_ids(b), k);
        assert(b.contains(b[j]));
        let i = choose|i: int| 0 <= i < a.len() && a[i] == b[j];
        assert(list_ids(a)[i] == k);
        assert(list_ids(a).contains(k));
    }
    if first_index(list_ids(a), k) >= 0 && a[first_index(list_ids(a), k)].marked {
        let i = first_index(list_ids(a), k);
        assert(a.contains(a[i]));
        assert(b.contains(a[i]));
        let j = choose|j: int| 0 <= j < b.len() && b[j] == a[i];
        assert(list_ids(b)[j] == k);
        assert(list_ids(b).contains(k));
        let jj = first_index(list_ids(b), k);
        if jj != j {
            assert(list_ids(b)[jj] != list_ids(b)[j]);
        }
    }
}

proof fn lemma_keep_file(a: Seq<InternalFile>, b: Seq<InternalFile>, k: Seq<char>)
    requires
        ids_unique(file_ids(a)),
        b == keep(a, |x: InternalFile| x.marked),
    ensures
        ids_unique(file_ids(b)),
        first_index(file_ids(b), k) >= 0 ==> first_index(file_ids(a), k) >= 0,
        first_index(file_ids(a), k) >= 0 && a[first_index(file_ids(a), k)].marked ==>
            first_index(file_ids(b), k) >= 0 && b[first_index(file_ids(b), k)] == a[first_index(file_ids(a), k)],
{
    let m = |x: InternalFile| x.marked;
    let id = |x: InternalFile| x.id.0@;
    lemma_keep_facts(a, m, id);
    assert(a.map_values(id) =~= file_ids(a));
    assert(b.map_values(id) =~= file_ids(b));
    lemma_first_index(file_ids(a), k);
    lemma_first_index(file_ids(b), k);
    if first_index(file_ids(b), k) >= 0 {
        let j = first_index(file_ids(b), k);
        assert(b.contains(b[j]));
        let i = choose|i: int| 0 <= i < a.len() && a[i] == b[j];
        assert(file_ids(a)[i] == k);
        assert(file_ids(a).contains(k));
    }
    if first_index(file_ids(a), k) >= 0 && a[first_index(file_ids(a), k)].marked {
        let i = first_index(file_ids(a), k);
        assert(a.contains(a[i]));
        assert(b.contains(a[i]));
        let j = choose|j: int| 0 <= j < b.len() && b[j] == a[i];
        assert(file_ids(b)[j] == k);
        assert(file_ids(b).contains(k));
        let jj = first_index(file_ids(b), k);
        if jj != j {
            assert(file_ids(b)[jj] != file_ids(b)[j]);
        }
    }
}

/// A sweep keeps every marked object as it was.
pub proof fn lemma_sweep_keeps(a: ObjSys, b: ObjSys, k: Seq<char>)
    requires
        a.wf(),
        b.instances() == keep(a.instances(), |x: Instance| x.marked),
        b.lists() == keep(a.lists(), |x: InternalList| x.marked),
        b.files() == keep(a.files(), |x: InternalFile| x.marked),
        a.heap_has(k),
        a.is_marked(k),
    ensures
        same_object(a, b, k),
        b.is_marked(k),
{
    lemma_keep_instance(a.instances(), b.instances(), k);
    lemma_keep_list(a.lists(), b.lists(), k);
    lemma_keep_file(a.files(), b.files(), k);
    lemma_first_index(instance_ids(a.instances()), k);
    lemma_first_index(list_ids(a.lists()), k);
    lemma_first_index(file_ids(a.files()), k);
    lemma_first_index(instance_ids(b.instances()), k);
    lemma_first_index(list_ids(b.lists()), k);
    lemma_first_index(file_ids(b.files()), k);
    if a.inst_index(k) >= 0 {
        assert(field_values(a.instances()[a.inst_index(k)].fields@) =~= field_values(b.instances()[b.inst_index(k)].fields@));
    }
}

/// Clearing the marks keeps every object as it was.
pub proof fn lemma_clear_keeps(a: ObjSys, b: ObjSys, k: Seq<char>)
    requires
        b.instances().len() == a.instances().len(),
        b.lists().len() == a.lists().len(),
        b.files().len() == a.files().len(),
        forall|i: int| 0 <= i < b.instances().len() ==> (#[trigger] b.instances()[i]) == (Instance { marked: false, ..a.instances()[i] }),
        forall|i: int| 0 <= i < b.lists().len() ==> (#[trigger] b.lists()[i]) == (InternalList { marked: false, ..a.lists()[i] }),
        forall|i: int| 0 <= i < b.files().len() ==> (#[trigger] b.files()[i]) == (InternalFile { marked: false, ..a.files()[i] }),
        a.heap_has(k),
    ensures
        same_object(a, b, k),
{
    assert(instance_ids(a.instances()) =~= instance_ids(b.instances()));
    assert(list_ids(a.lists()) =~= list_ids(b.lists()));
    assert(file_ids(a.files()) =~= file_ids(b.files()));
    lemma_first_index(instance_ids(a.instances()), k);
    lemma_first_index(list_ids(a.lists()), k);
    lemma_first_index(file_ids(a.files()), k);
    assert(a.inst_index(k) == b.inst_index(k));
    assert(a.list_index(k) == b.list_index(k));
    assert(a.file_index(k) == b.file_index(k));
    if a.inst_index(k) >= 0 {
        let i = a.inst_index(k);
        assert(b.instances()[i].fields == a.instances()[i].fields);
    } else if a.list_index(k) >= 0 {
        let i = a.list_index(k);
        assert(b.lists()[i].els == a.lists()[i].els);
    } else {
        let i = a.file_index(k);
        assert(b.files()[i].filename == a.files()[i].filename);
    }
}

/// Sameness of objects carries over a second step.
pub proof fn lemma_same_object_trans(a: ObjSys, b: ObjSys, c: ObjSys, k: Seq<char>)
    requires
        same_object(a, b, k),
        same_object(b, c, k),
    ensures
        same_object(a, c, k),
{
}

/// Marking keeps every object as it was, but for its mark.
pub proof fn lemma_marks_grow_same(a: ObjSys, b: ObjSys, k: Seq<char>)
    requires
        marks_grow(a, b),
        a.heap_has(k),
    ensures
        same_object(a, b, k),
{
    lemma_marks_grow_facts(a, b);
    lemma_first_index(instance_ids(a.instances()), k);
    lemma_first_index(list_ids(a.lists()), k);
    lemma_first_index(file_ids(a.files()), k);
}


/// Every object that `b` marks and `a` did not has its children on the heap
/// and marked in `b`.
pub open spec fn new_marks_closed(a: ObjSys, b: ObjSys) -> bool {
    forall|k: Seq<char>| #![trigger b.is_marked(k)]
        b.heap_has(k) && b.is_marked(k) && !a.is_marked(k) ==>
            forall|j: int| 0 <= j < b.children(k).len() ==>
                b.heap_has(#[trigger] b.children(k)[j]) && b.is_marked(b.children(k)[j])
}

/// Two marking steps in a row are one marking step.
pub proof fn lemma_new_marks_closed_trans(a: ObjSys, b: ObjSys, c: ObjSys)
    requires
        marks_grow(a, b),
        marks_grow(b, c),
        new_marks_closed(a, b),
        new_marks_closed(b, c),
    ensures
        marks_grow(a, c),
        new_marks_closed(a, c),
{
    lemma_marks_grow_trans(a, b, c);
    lemma_marks_grow_facts(a, b);
    lemma_marks_grow_facts(b, c);
    assert forall|k: Seq<char>| #![trigger c.is_marked(k)]
        c.heap_has(k) && c.is_marked(k) && !a.is_marked(k) implies
            forall|j: int| 0 <= j < c.children(k).len() ==>
                c.heap_has(#[trigger] c.children(k)[j]) && c.is_marked(c.children(k)[j]) by {
        if b.is_marked(k) {
            assert forall|j: int| 0 <= j < c.children(k).len() implies
                c.heap_has(#[trigger] c.children(k)[j]) && c.is_marked(c.children(k)[j]) by {
                assert(b.children(k)[j] == c.children(k)[j]);
                assert(b.heap_has(b.children(k)[j]) && b.is_marked(b.children(k)[j]));
            }
        }
    }
}

/// The set of the keys in `s`.
pub open spec fn key_set(s: Seq<RefKey>) -> Set<Seq<char>> {
    Set::new(|k: Seq<char>| key_seq(s).contains(k))
}

/// Marks, in turn, each heap object whose key is in `keys` and everything it
/// refers to. Fails with the key of an object that is not on the heap.
#[verifier::loop_isolation(false)]
pub fn mark_all(obs: &mut ObjSys, keys: &Vec<RefKey>) -> (r: Result<(), RefKey>)
    requires
        old(obs).wf(),
    ensures
        final(obs).wf(),
        marks_grow(*old(obs), *final(obs)),
        r is Ok ==> new_marks_closed(*old(obs), *final(obs)),
        r is Ok ==> forall|i: int| 0 <= i < keys@.len() ==>
            final(obs).heap_has(#[trigger] keys@[i].0@) && final(obs).is_marked(keys@[i].0@),
        r matches Err(missing) ==> !old(obs).heap_has(missing.0@),
        new_marks_reachable(*old(obs), *final(obs), key_set(keys@)),
{
    let ghost o0 = *obs;
    proof { lemma_marks_grow_facts(o0, o0); }
    let mut i: usize = 0;
    while i < keys.len()
        invariant
            0 <= i <= keys@.len(),
            obs.wf(),
            marks_grow(o0, *obs),
            new_marks_closed(o0, *obs),
            new_marks_reachable(o0, *obs, key_set(keys@)),
            forall|j: int| 0 <= j < i ==> obs.heap_has(#[trigger] keys@[j].0@) && obs.is_marked(keys@[j].0@),
        decreases keys@.len() - i,
    {
        let ghost o1 = *obs;
        let res = mark(obs, &keys[i]);
        proof {
            lemma_marks_grow_facts(o0, o1);
            lemma_marks_grow_facts(o1, *obs);
            lemma_marks_grow_trans(o0, o1, *obs);
            assert(key_seq(keys@)[i as int] == keys@[i as int].0@);
            assert(set![keys@[i as int].0@].subset_of(key_set(keys@)));
            lemma_new_marks_reachable_trans(o0, o1, *obs, key_set(keys@), set![keys@[i as int].0@], key_set(keys@));
        }
        match res {
            Ok(()) => {
                proof { lemma_new_marks_closed_trans(o0, o1, *obs); }
            },
            Err(missing) => {
                return Err(missing);
            },
        }
        i = i + 1;
    }
    Ok(())
}


/// Marking keeps what can be reached from the roots.
pub proof fn lemma_reachable_grow(a: ObjSys, b: ObjSys, roots: Set<Seq<char>>, k: Seq<char>)
    requires
        marks_grow(a, b),
        reachable(a, roots, k),
    ensures
        reachable(b, roots, k),
{
    lemma_marks_grow_facts(a, b);
    let p = choose|p: Seq<Seq<char>>| #[trigger] heap_path(a, p) && roots.contains(p[0]) && p.last() == k;
    assert(heap_path(b, p)) by {
        assert forall|i: int| #![trigger p[i]] 0 <= i < p.len() - 1 implies
            b.heap_has(p[i]) && b.children(p[i]).contains(p[i + 1]) by {
            assert(a.children(p[i]) == b.children(p[i]));
            assert(a.heap_has(p[i]));
            assert(b.heap_has(p[i]) == a.heap_has(p[i]));
        }
    }
    assert(roots.contains(p[0]) && p.last() == k);
}

/// What can be reached after marking could be reached before it.
pub proof fn lemma_reachable_back(a: ObjSys, b: ObjSys, roots: Set<Seq<char>>, k: Seq<char>)
    requires
        marks_grow(a, b),
        reachable(b, roots, k),
    ensures
        reachable(a, roots, k),
{
    lemma_marks_grow_facts(a, b);
    let p = choose|p: Seq<Seq<char>>| #[trigger] heap_path(b, p) && roots.contains(p[0]) && p.last() == k;
    assert(heap_path(a, p)) by {
        assert forall|i: int| #![trigger p[i]] 0 <= i < p.len() - 1 implies
            a.heap_has(p[i]) && a.children(p[i]).contains(p[i + 1]) by {
            assert(a.children(p[i]) == b.children(p[i]));
            assert(b.heap_has(p[i]));
        }
    }
    assert(roots.contains(p[0]) && p.last() == k);
}

/// A heap object can be reached from itself.
pub proof fn lemma_reachable_self(o: ObjSys, r: Seq<char>)
    ensures
        reachable(o, set![r], r),
{
    let p = seq![r];
    assert(heap_path(o, p));
}

/// What can be reached from a child of `r` can be reached from `r`.
pub proof fn lemma_reachable_step(o: ObjSys, r: Seq<char>, c: Seq<char>, k: Seq<char>)
    requires
        o.heap_has(r),
        o.children(r).contains(c),
        reachable(o, set![c], k),
    ensures
        reachable(o, set![r], k),
{
    let p = choose|p: Seq<Seq<char>>| #[trigger] heap_path(o, p) && set![c].contains(p[0]) && p.last() == k;
    let q = seq![r] + p;
    assert(q[0] == r);
    assert(q.last() == k);
    assert(heap_path(o, q)) by {
        assert forall|i: int| #![trigger q[i]] 0 <= i < q.len() - 1 implies
            o.heap_has(q[i]) && o.children(q[i]).contains(q[i + 1]) by {
            if i == 0 {
                assert(q[1] == p[0]);
            } else {
                assert(q[i] == p[i - 1]);
                assert(q[i + 1] == p[i]);
                assert(o.heap_has(p[i - 1]) && o.children(p[i - 1]).contains(p[i]));
            }
        }
    }
    assert(set![r].contains(q[0]));
}

/// What can be reached from fewer roots can be reached from more.
pub proof fn lemma_reachable_more_roots(o: ObjSys, r1: Set<Seq<char>>, r2: Set<Seq<char>>, k: Seq<char>)
    requires
        r1.subset_of(r2),
        reachable(o, r1, k),
    ensures
        reachable(o, r2, k),
{
    let p = choose|p: Seq<Seq<char>>| #[trigger] heap_path(o, p) && r1.contains(p[0]) && p.last() == k;
    assert(r2.contains(p[0]));
}

/// Every object that `b` marks and `a` did not can be reached in `a` from
/// `roots`.
pub open spec fn new_marks_reachable(a: ObjSys, b: ObjSys, roots: Set<Seq<char>>) -> bool {
    forall|k: Seq<char>| #![trigger b.is_marked(k)] b.is_marked(k) && !a.is_marked(k) ==> reachable(a, roots, k)
}

/// Two marking steps in a row, each marking only what it reaches, mark only
/// what can be reached.
pub proof fn lemma_new_marks_reachable_trans(
    a: ObjSys,
    b: ObjSys,
    c: ObjSys,
    r1: Set<Seq<char>>,
    r2: Set<Seq<char>>,
    roots: Set<Seq<char>>,
)
    requires
        marks_grow(a, b),
        marks_grow(b, c),
        new_marks_reachable(a, b, r1),
        new_marks_reachable(b, c, r2),
        r1.subset_of(roots),
        r2.subset_of(roots),
    ensures
        new_marks_reachable(a, c, roots),
{
    lemma_marks_grow_facts(a, b);
    lemma_marks_grow_facts(b, c);
    assert forall|k: Seq<char>| #![trigger c.is_marked(k)] c.is_marked(k) && !a.is_marked(k) implies reachable(a, roots, k) by {
        if b.is_marked(k) {
            lemma_reachable_more_roots(a, r1, roots, k);
        } else {
            lemma_reachable_back(a, b, r2, k);
            lemma_reachable_more_roots(a, r2, roots, k);
        }
    }
}

/// In a table whose keys are unique, a sweep reports key `k` exactly when
/// an unmarked object has it, and then keeps no object with key `k`.
pub proof fn lemma_keep_split<T>(
    s: Seq<T>,
    id: spec_fn(T) -> Seq<char>,
    m: spec_fn(T) -> bool,
    um: spec_fn(T) -> bool,
    k: Seq<char>,
)
    requires
        ids_unique(s.map_values(id)),
        forall|x: T| #[trigger] um(x) == !m(x),
    ensures
        keep(s, um).map_values(id).contains(k) <==> exists|i: int| 0 <= i < s.len() && #[trigger] id(s[i]) == k && um(s[i]),
        keep(s, um).map_values(id).contains(k) ==> !keep(s, m).map_values(id).contains(k),
{
    lemma_keep_facts(s, um, id);
    lemma_keep_facts(s, m, id);
    let du = keep(s, um);
    let dk = keep(s, m);
    if du.map_values(id).contains(k) {
        let j = choose|j: int| 0 <= j < du.map_values(id).len() && du.map_values(id)[j] == k;
        assert(du.contains(du[j]));
        let i = choose|i: int| 0 <= i < s.len() && s[i] == du[j];
        assert(id(s[i]) == k && um(s[i]));
        if dk.map_values(id).contains(k) {
            let j2 = choose|j2: int| 0 <= j2 < dk.map_values(id).len() && dk.map_values(id)[j2] == k;
            assert(dk.contains(dk[j2]));
            let i2 = choose|i2: int| 0 <= i2 < s.len() && s[i2] == dk[j2];
            assert(m(s[i2]));
            assert(s.map_values(id)[i] == s.map_values(id)[i2]);
        }
    }
    if exists|i: int| 0 <= i < s.len() && #[trigger] id(s[i]) == k && um(s[i]) {
        let i = choose|i: int| 0 <= i < s.len() && #[trigger] id(s[i]) == k && um(s[i]);
        assert(s.contains(s[i]));
        assert(du.contains(s[i]));
        let j = choose|j: int| 0 <= j < du.len() && du[j] == s[i];
        assert(du.map_values(id)[j] == k);
    }
}

} // verus!
