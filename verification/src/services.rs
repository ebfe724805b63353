//! Naming of the external music services whose tracks the queue can address.
//! The services themselves (search, fetch) are collaborators outside this
//! crate; only their names travel through it.

use vstd::prelude::*;

verus! {

/// The name of one external music service.
#[derive(Debug, Hash)]
pub struct ServiceId(pub String);

impl View for ServiceId {
    type V = Seq<char>;

    open spec fn view(&self) -> Seq<char> {
        self.0@
    }
}

impl Clone for ServiceId {
    fn clone(&self) -> (r: Self)
        ensures
            r == *self,
    {
        ServiceId(self.0.clone())
    }
}

impl PartialEq for ServiceId {
    fn eq(&self, other: &Self) -> (r: bool) {
        self.0 == other.0
    }
}

impl vstd::std_specs::cmp::PartialEqSpecImpl for ServiceId {
    open spec fn obeys_eq_spec() -> bool {
        true
    }

    open spec fn eq_spec(&self, other: &Self) -> bool {
        self@ == other@
    }
}

impl Eq for ServiceId {

}

} // verus!
