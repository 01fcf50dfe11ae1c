//! The courses that searches answer with, each under the key that the
//! search engine stores it at.

use vstd::prelude::*;

use crate::command::{course_key, key_of};
use crate::model::{Course, CourseView};

verus! {

/// Keys beside the courses they stand for.
struct Entries {
    keys: Vec<String>,
    courses: Vec<Course>,
}

impl Entries {
    /// Keys and courses pair up, each key is the key of its course's
    /// identifier, and no key occurs twice.
    spec fn wf(&self) -> bool {
        &&& self.keys@.len() == self.courses@.len()
        &&& forall|i: int|
            0 <= i < self.keys@.len() ==> (#[trigger] self.keys@[i])@ == course_key(
                self.courses@[i].id@,
            )
        &&& forall|i: int, j: int|
            0 <= i < j < self.keys@.len() ==> (#[trigger] self.keys@[i])@ != (
            #[trigger] self.keys@[j])@
    }

    /// Where `key` stands among the keys, if it does.
    spec fn holds(&self, key: Seq<char>, i: int) -> bool {
        0 <= i < self.keys@.len() && self.keys@[i]@ == key
    }

    /// The courses by key.
    spec fn map(&self) -> Map<Seq<char>, CourseView> {
        Map::new(
            |k: Seq<char>| exists|i: int| self.holds(k, i),
            |k: Seq<char>| self.courses@[choose|i: int| self.holds(k, i)]@,
        )
    }

    /// No entries.
    fn new() -> (res: Entries)
        ensures
            res.wf(),
            res.map() == Map::<Seq<char>, CourseView>::empty(),
    {
        let res = Entries { keys: Vec::new(), courses: Vec::new() };
        assert(res.map() =~= Map::<Seq<char>, CourseView>::empty());
        res
    }

    /// How many courses the catalog holds.
    fn len(&self) -> (res: usize)
        requires
            self.wf(),
        ensures
            res == self.map().dom().len(),
    {
        proof {
            self.lemma_dom_len();
        }
        self.keys.len()
    }

    proof fn lemma_dom_len(&self)
        requires
            self.wf(),
        ensures
            self.map().dom().len() == self.keys@.len(),
            self.map().dom().finite(),
    {
        let ks = self.keys@.map_values(|s: String| s@);
        assert(ks.no_duplicates()) by {
            assert forall|i: int, j: int| 0 <= i < ks.len() && 0 <= j < ks.len() && i != j implies ks[i]
                != ks[j] by {
                if i < j {
                    assert(self.keys@[i]@ != self.keys@[j]@);
                } else {
                    assert(self.keys@[j]@ != self.keys@[i]@);
                }
            }
        }
        assert(self.map().dom() =~= ks.to_set()) by {
            assert forall|k: Seq<char>| self.map().dom().contains(k) implies ks.to_set().contains(k) by {
                let i = choose|i: int| self.holds(k, i);
                assert(ks[i] == k);
            }
            assert forall|k: Seq<char>| ks.to_set().contains(k) implies self.map().dom().contains(k) by {
                let i = choose|i: int| 0 <= i < ks.len() && ks[i] == k;
                assert(self.holds(k, i));
            }
        }
        ks.unique_seq_to_set();
    }

    /// Where `key` stands among the keys, if it does.
    fn position(&self, key: &String) -> (res: Option<usize>)
        requires
            self.wf(),
        ensures
            res matches Some(i) ==> self.holds(key@, i as int),
            res is None ==> forall|i: int| !self.holds(key@, i),
    {
        let mut i: usize = 0;
        while i < self.keys.len()
            invariant
                self.wf(),
                i <= self.keys@.len(),
                forall|j: int| 0 <= j < i ==> !self.holds(key@, j),
            decreases self.keys@.len() - i,
        {
            if self.keys[i] == *key {
                return Some(i);
            }
            i = i + 1;
        }
        None
    }

    proof fn lemma_at(&self, k: Seq<char>, i: int)
        requires
            self.wf(),
            self.holds(k, i),
        ensures
            self.map().dom().contains(k),
            self.map()[k] == self.courses@[i]@,
    {
        let j = choose|j: int| self.holds(k, j);
        if i < j {
            assert(self.keys@[i]@ != self.keys@[j]@);
        } else if j < i {
            assert(self.keys@[j]@ != self.keys@[i]@);
        }
    }

    /// The course under `key`, if there is one.
    fn get(&self, key: &str) -> (res: Option<&Course>)
        requires
            self.wf(),
        ensures
            res is Some <==> self.map().dom().contains(key@),
            res matches Some(c) ==> c@ == self.map()[key@],
    {
        let key = String::from_str(key);
        match self.position(&key) {
            Some(i) => {
                proof {
                    self.lemma_at(key@, i as int);
                }
                Some(&self.courses[i])
            },
            None => None,
        }
    }

    /// Puts `course` under the key of its identifier, in place of any
    /// course there.
    fn insert(&mut self, course: Course)
        requires
            old(self).wf(),
        ensures
            final(self).wf(),
            final(self).map() == old(self).map().insert(course_key(course.id@), course@),
    {
        let key = key_of(course.id.as_str());
        let ghost k = key@;
        let ghost before = self.map();
        let ghost c = course@;
        match self.position(&key) {
            Some(i) => {
                self.courses.set(i, course);
                proof {
                    assert forall|k2: Seq<char>| #[trigger]
                        self.map().dom().contains(k2) == before.insert(k, c).dom().contains(
                            k2,
                        ) by {
                        if k2 == k {
                            assert(self.holds(k2, i as int));
                        } else {
                            if exists|j: int| old(self).holds(k2, j) {
                                let j = choose|j: int| old(self).holds(k2, j);
                                assert(self.holds(k2, j));
                            }
                            if exists|j: int| self.holds(k2, j) {
                                let j = choose|j: int| self.holds(k2, j);
                                assert(old(self).holds(k2, j));
                            }
                        }
                    }
                    assert forall|k2: Seq<char>| #[trigger]
                        self.map().dom().contains(k2) implies self.map()[k2] == before.insert(
                        k,
                        c,
                    )[k2] by {
                        let j = choose|j: int| self.holds(k2, j);
                        self.lemma_at(k2, j);
                        if k2 != k {
                            assert(old(self).holds(k2, j));
                            old(self).lemma_at(k2, j);
                        }
                    }
                    assert(self.map() =~= before.insert(k, c));
                }
            },
            None => {
                self.keys.push(key);
                self.courses.push(course);
                proof {
                    let n = old(self).keys@.len() as int;
                    assert(self.holds(k, n));
                    assert forall|a: int, b: int|
                        0 <= a < b < self.keys@.len() implies (#[trigger] self.keys@[a])@ != (
                        #[trigger] self.keys@[b])@ by {
                        if b == n {
                            assert(!old(self).holds(k, a));
                        } else {
                            assert(old(self).keys@[a]@ != old(self).keys@[b]@);
                        }
                    }
                    assert(self.wf());
                    assert forall|k2: Seq<char>| #[trigger]
                        self.map().dom().contains(k2) == before.insert(k, c).dom().contains(
                            k2,
                        ) by {
                        if k2 != k {
                            if exists|j: int| old(self).holds(k2, j) {
                                let j = choose|j: int| old(self).holds(k2, j);
                                assert(self.holds(k2, j));
                            }
                            if exists|j: int| self.holds(k2, j) {
                                let j = choose|j: int| self.holds(k2, j);
                                assert(old(self).holds(k2, j));
                            }
                        }
                    }
                    assert forall|k2: Seq<char>| #[trigger]
                        self.map().dom().contains(k2) implies self.map()[k2] == before.insert(
                        k,
                        c,
                    )[k2] by {
                        let j = choose|j: int| self.holds(k2, j);
                        self.lemma_at(k2, j);
                        if k2 != k {
                            assert(old(self).holds(k2, j));
                            old(self).lemma_at(k2, j);
                        }
                    }
                    assert(self.map() =~= before.insert(k, c));
                }
            },
        }
    }

    /// The courses under `keys`, in order; or the first key with no course
    /// under it.
    fn resolve<'a>(&'a self, keys: &Vec<String>) -> (res: Result<Vec<&'a Course>, String>)
        requires
            self.wf(),
        ensures
            res is Ok <==> forall|i: int|
                0 <= i < keys@.len() ==> self.map().dom().contains(#[trigger] keys@[i]@),
            res matches Ok(cs) ==> cs@.len() == keys@.len() && forall|i: int|
                0 <= i < cs@.len() ==> (#[trigger] cs@[i])@ == self.map()[keys@[i]@],
            res matches Err(k) ==> exists|i: int|
                0 <= i < keys@.len() && keys@[i]@ == k@ && !self.map().dom().contains(k@)
                    && forall|j: int|
                    0 <= j < i ==> self.map().dom().contains(#[trigger] keys@[j]@),
    {
        let mut found: Vec<&'a Course> = Vec::new();
        let mut i: usize = 0;
        while i < keys.len()
            invariant
                self.wf(),
                i <= keys@.len(),
                found@.len() == i,
                forall|j: int| 0 <= j < i ==> self.map().dom().contains(#[trigger] keys@[j]@),
                forall|j: int| 0 <= j < i ==> (#[trigger] found@[j])@ == self.map()[keys@[j]@],
            decreases keys@.len() - i,
        {
            match self.get(keys[i].as_str()) {
                Some(course) => {
                    found.push(course);
                },
                None => {
                    return Err(keys[i].clone());
                },
            }
            i = i + 1;
        }
        Ok(found)
    }
}

/// Courses by key, each key held once.
pub struct Catalog {
    entries: Entries,
}

impl Catalog {
    /// The entries pair each key with its course and hold no key twice.
    #[verifier::type_invariant]
    spec fn well_formed(self) -> bool {
        self.entries.wf()
    }
}

impl View for Catalog {
    type V = Map<Seq<char>, CourseView>;

    /// The courses by key.
    closed spec fn view(&self) -> Map<Seq<char>, CourseView> {
        self.entries.map()
    }
}

impl Catalog {
    /// An empty catalog.
    pub fn new() -> (res: Catalog)
        ensures
            res@ == Map::<Seq<char>, CourseView>::empty(),
    {
        Catalog { entries: Entries::new() }
    }

    /// How many courses the catalog holds.
    pub fn len(&self) -> (res: usize)
        ensures
            res == self@.dom().len(),
    {
        proof {
            use_type_invariant(self);
        }
        self.entries.len()
    }

    /// The course under `key`, if there is one.
    pub fn get(&self, key: &str) -> (res: Option<&Course>)
        ensures
            res is Some <==> self@.dom().contains(key@),
            res matches Some(c) ==> c@ == self@[key@],
    {
        proof {
            use_type_invariant(self);
        }
        self.entries.get(key)
    }

    /// Puts `course` under the key of its identifier, in place of any
    /// course there.
    pub fn insert(&mut self, course: Course)
        ensures
            final(self)@ == old(self)@.insert(course_key(course.id@), course@),
    {
        proof {
            use_type_invariant(&*self);
        }
        let mut entries = Entries::new();
        std::mem::swap(&mut entries, &mut self.entries);
        entries.insert(course);
        self.entries = entries;
    }

    /// The courses under `keys`, in order; or the first key with no course
    /// under it.
    pub fn resolve<'a>(&'a self, keys: &Vec<String>) -> (res: Result<Vec<&'a Course>, String>)
        ensures
            res is Ok <==> forall|i: int|
                0 <= i < keys@.len() ==> self@.dom().contains(#[trigger] keys@[i]@),
            res matches Ok(cs) ==> cs@.len() == keys@.len() && forall|i: int|
                0 <= i < cs@.len() ==> (#[trigger] cs@[i])@ == self@[keys@[i]@],
            res matches Err(k) ==> exists|i: int|
                0 <= i < keys@.len() && keys@[i]@ == k@ && !self@.dom().contains(k@)
                    && forall|j: int|
                    0 <= j < i ==> self@.dom().contains(#[trigger] keys@[j]@),
    {
        proof {
            use_type_invariant(self);
        }
        self.entries.resolve(keys)
    }
}

/// Law: what a course is put in under is what it is read back by: after
/// an insert, the course's key gives that course, and every other key gives
/// what it gave before.
pub proof fn law_read_after_insert(before: Catalog, after: Catalog, course: Course, key: Seq<char>)
    requires
        after@ == before@.insert(course_key(course.id@), course@),
    ensures
        after@.dom().contains(course_key(course.id@)),
        after@[course_key(course.id@)] == course@,
        key != course_key(course.id@) ==> (after@.dom().contains(key) == before@.dom().contains(key)
            && after@[key] == before@[key]),
{
}

} // verus!
