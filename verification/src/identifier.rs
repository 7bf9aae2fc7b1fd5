//! Namespaced content identifiers, canonically written `"namespace:path"`.

use vstd::prelude::*;

verus! {

/// Mathematical model of an [`Identifier`]: the two name parts as
/// character sequences.
pub struct IdentifierView {
    pub namespace: Seq<char>,
    pub path: Seq<char>,
}

/// A namespaced content identifier `(namespace, path)`, immutable once
/// constructed. Its canonical text form is `"namespace:path"`.
#[derive(Debug)]
pub struct Identifier {
    namespace: String,
    path: String,
}

impl View for Identifier {
    type V = IdentifierView;

    closed spec fn view(&self) -> IdentifierView {
        IdentifierView { namespace: self.namespace@, path: self.path@ }
    }
}

impl Identifier {
    pub fn new(namespace: String, path: String) -> (r: Self)
        ensures
            r@.namespace == namespace@,
            r@.path == path@,
    {
        Identifier { namespace, path }
    }

    pub fn from_str(namespace: &str, path: &str) -> (r: Self)
        ensures
            r@.namespace == namespace@,
            r@.path == path@,
    {
        Identifier { namespace: namespace.to_owned(), path: path.to_owned() }
    }

    pub fn namespace(&self) -> (r: &str)
        ensures
            r@ == self@.namespace,
    {
        self.namespace.as_str()
    }

    pub fn path(&self) -> (r: &str)
        ensures
            r@ == self@.path,
    {
        self.path.as_str()
    }
}

impl Clone for Identifier {
    fn clone(&self) -> (r: Self)
        ensures
            r@ == self@,
    {
        Identifier { namespace: self.namespace.clone(), path: self.path.clone() }
    }
}

impl PartialEq for Identifier {
    fn eq(&self, other: &Self) -> (r: bool)
        ensures
            r == (self@ == other@),
    {
        let same = self.namespace == other.namespace && self.path == other.path;
        proof {
            if same {
                assert(self@ == other@);
            }
        }
        same
    }
}

impl vstd::std_specs::cmp::PartialEqSpecImpl for Identifier {
    open spec fn obeys_eq_spec() -> bool {
        true
    }

    open spec fn eq_spec(&self, other: &Self) -> bool {
        self@ == other@
    }
}

} // verus!
