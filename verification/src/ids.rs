use smallvec::SmallVec;
use vstd::prelude::*;

verus! {

/// A short list of node ids, stored inline while it holds at most four.
#[verifier::external_body]
#[derive(Debug)]
pub struct IdList {
    ids: SmallVec<[u16; 4]>,
}

/// The ids that a list holds, first to last.
pub uninterp spec fn id_list(list: IdList) -> Seq<u16>;

impl Clone for IdList {
    /// `SmallVec::clone`: the copy holds the same ids in the same order.
    #[verifier::external_body]
    fn clone(&self) -> (list: IdList)
        ensures
            id_list(list) == id_list(*self),
    {
        IdList { ids: self.ids.clone() }
    }
}

impl IdList {
    /// `SmallVec::new`: the new list holds nothing.
    #[verifier::external_body]
    pub(crate) fn empty() -> (list: IdList)
        ensures
            id_list(list) == Seq::<u16>::empty(),
    {
        IdList { ids: SmallVec::new() }
    }

    /// `SmallVec::push`: the id is appended behind the ids already held.
    #[verifier::external_body]
    pub(crate) fn append(&mut self, id: u16)
        ensures
            id_list(*final(self)) == id_list(*old(self)).push(id),
    {
        self.ids.push(id)
    }

    /// `SmallVec::len`: the number of ids held.
    #[verifier::external_body]
    pub(crate) fn count(&self) -> (n: usize)
        ensures
            n == id_list(*self).len(),
    {
        self.ids.len()
    }

    /// Indexing a `SmallVec` through its slice: the id at a position inside the list.
    #[verifier::external_body]
    pub(crate) fn at(&self, i: usize) -> (id: u16)
        requires
            i < id_list(*self).len(),
        ensures
            id == id_list(*self)[i as int],
    {
        self.ids[i]
    }

    /// A list of the ids of `ids`, in their order.
    pub fn from_vec(ids: &Vec<u16>) -> (list: IdList)
        ensures
            id_list(list) == ids@,
    {
        let mut list = IdList::empty();
        let mut i: usize = 0;
        while i < ids.len()
            invariant
                i <= ids.len(),
                id_list(list) == ids@.take(i as int),
            decreases ids.len() - i,
        {
            list.append(ids[i]);
            i += 1;
        }
        list
    }

    /// The ids of the list, in their order.
    pub fn to_vec(&self) -> (ids: Vec<u16>)
        ensures
            ids@ == id_list(*self),
    {
        let n = self.count();
        let mut ids: Vec<u16> = Vec::new();
        let mut i: usize = 0;
        while i < n
            invariant
                n == id_list(*self).len(),
                i <= n,
                ids@ == id_list(*self).take(i as int),
            decreases n - i,
        {
            ids.push(self.at(i));
            i += 1;
        }
        ids
    }

    /// The number of ids in the list.
    pub fn len(&self) -> (n: usize)
        ensures
            n == id_list(*self).len(),
    {
        self.count()
    }

    /// The id at position `i`, if the list is that long.
    pub fn get(&self, i: usize) -> (id: Option<u16>)
        ensures
            id == if i < id_list(*self).len() {
                Some(id_list(*self)[i as int])
            } else {
                None
            },
    {
        if i < self.count() {
            Some(self.at(i))
        } else {
            None
        }
    }

    /// Whether `id` occurs in the list.
    pub fn contains(&self, id: u16) -> (found: bool)
        ensures
            found == id_list(*self).contains(id),
    {
        let n = self.count();
        let mut i: usize = 0;
        while i < n
            invariant
                n == id_list(*self).len(),
                i <= n,
                forall|k: int| 0 <= k < i ==> id_list(*self)[k] != id,
            decreases n - i,
        {
            if self.at(i) == id {
                return true;
            }
            i += 1;
        }
        false
    }
}

} // verus!
