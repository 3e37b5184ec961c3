//! The operation header of a schema: named roots, each with its
//! endpoints. Root names are unique in a header; a root has at least one
//! endpoint and no endpoint twice.
use vstd::prelude::*;
use crate::error::Error;
use crate::name::{
    Name, all_distinct, first_duplicate, first_duplicate_name, lemma_first_duplicate_none,
    name_texts,
};

verus! {

#[derive(Clone, Debug, PartialEq, Eq)]
pub struct HeaderRoot {
    name: Name,
    endpoints: Vec<Name>,
}

#[derive(Clone, Debug, PartialEq, Eq)]
pub struct Header {
    roots: Vec<HeaderRoot>,
}

/// The names of a run of roots.
pub open spec fn root_name_texts(roots: Seq<HeaderRoot>) -> Seq<Seq<char>> {
    Seq::new(roots.len(), |i: int| roots[i].name_text())
}

impl HeaderRoot {
    pub closed spec fn name_text(&self) -> Seq<char> {
        self.name.text()
    }

    pub closed spec fn endpoint_texts(&self) -> Seq<Seq<char>> {
        name_texts(self.endpoints@)
    }

    /// A root with its endpoints; refused when there are none, or when an
    /// endpoint repeats (the first repeat is named).
    pub fn new(name: Name, endpoints: Vec<Name>) -> (r: Result<Self, Error>)
        ensures
            endpoints@.len() == 0 ==> (r matches Err(Error::EmptyHeaderRoot { name: n })
                && n.text() == name.text()),
            endpoints@.len() > 0 ==> match first_duplicate(name_texts(endpoints@)) {
                Some(j) => r matches Err(Error::DuplicateHeaderEndpoint { root, endpoint })
                    && root.text() == name.text() && endpoint.text() == endpoints@[j].text(),
                None => r matches Ok(h) && h.name_text() == name.text() && h.endpoint_texts()
                    == name_texts(endpoints@) && all_distinct(h.endpoint_texts()),
            },
    {
        if endpoints.len() == 0 {
            return Err(Error::EmptyHeaderRoot { name });
        }
        match first_duplicate_name(endpoints.as_slice()) {
            Some(j) => {
                assert(name_texts(endpoints@)[j as int] == endpoints@[j as int].text());
                let endpoint = endpoints[j].duplicate();
                Err(Error::DuplicateHeaderEndpoint { root: name, endpoint })
            },
            None => {
                proof {
                    lemma_first_duplicate_none(name_texts(endpoints@));
                }
                Ok(HeaderRoot { name, endpoints })
            },
        }
    }

    pub fn name(&self) -> (r: &Name)
        ensures
            r.text() == self.name_text(),
    {
        &self.name
    }

    pub fn endpoints(&self) -> (r: &[Name])
        ensures
            name_texts(r@) == self.endpoint_texts(),
    {
        self.endpoints.as_slice()
    }
}

impl Header {
    pub closed spec fn root_list(&self) -> Seq<HeaderRoot> {
        self.roots@
    }

    /// A header with no roots.
    pub fn empty() -> (r: Self)
        ensures
            r.root_list().len() == 0,
    {
        Header { roots: Vec::new() }
    }

    /// A header of the given roots; refused when a root name repeats (the
    /// first repeat is named).
    pub fn new(roots: Vec<HeaderRoot>) -> (r: Result<Self, Error>)
        ensures
            match first_duplicate(root_name_texts(roots@)) {
                Some(j) => r matches Err(Error::DuplicateHeaderRoot { name }) && name.text()
                    == roots@[j].name_text(),
                None => r matches Ok(h) && h.root_list() == roots@ && all_distinct(
                    root_name_texts(h.root_list()),
                ),
            },
    {
        let mut names: Vec<Name> = Vec::new();
        let mut i: usize = 0;
        while i < roots.len()
            invariant
                0 <= i <= roots@.len(),
                name_texts(names@) == root_name_texts(roots@).take(i as int),
            decreases roots@.len() - i,
        {
            let copy = roots[i].name().duplicate();
            let ghost before = names@;
            let ghost t = copy.text();
            assert(t == roots@[i as int].name_text());
            names.push(copy);
            assert(names@ == before.push(copy));
            assert(name_texts(names@) =~= name_texts(before).push(t));
            assert(name_texts(names@) =~= root_name_texts(roots@).take(i as int + 1));
            i = i + 1;
        }
        assert(root_name_texts(roots@).take(roots@.len() as int) =~= root_name_texts(roots@));
        match first_duplicate_name(names.as_slice()) {
            Some(j) => {
                assert(root_name_texts(roots@)[j as int] == roots@[j as int].name_text());
                let name = roots[j].name().duplicate();
                Err(Error::DuplicateHeaderRoot { name })
            },
            None => {
                proof {
                    lemma_first_duplicate_none(root_name_texts(roots@));
                }
                Ok(Header { roots })
            },
        }
    }

    pub fn roots(&self) -> (r: &[HeaderRoot])
        ensures
            r@ == self.root_list(),
    {
        self.roots.as_slice()
    }

    pub fn is_empty(&self) -> (r: bool)
        ensures
            r == (self.root_list().len() == 0),
    {
        self.roots.len() == 0
    }
}

impl Default for Header {
    fn default() -> (r: Self)
        ensures
            r.root_list().len() == 0,
    {
        Header::empty()
    }
}

} // verus!
