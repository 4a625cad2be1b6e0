//! Identities of accounts.

use vstd::prelude::*;

verus! {

/// The identity of an account: an opaque text, compared by equality.
///
/// Its view is the text.
#[derive(Debug)]
pub struct Address {
    /// The text, such as the strkey of an account.
    pub id: String,
}

impl View for Address {
    type V = Seq<char>;

    open spec fn view(&self) -> Seq<char> {
        self.id@
    }
}

impl Address {
    /// The identity that `id` spells.
    pub fn new(id: &str) -> (address: Address)
        ensures
            address@ == id@,
    {
        Address { id: id.to_owned() }
    }

    /// The text of this identity.
    pub fn as_str(&self) -> (id: &str)
        ensures
            id@ == self@,
    {
        self.id.as_str()
    }
}

impl Clone for Address {
    fn clone(&self) -> (copy: Address)
        ensures
            copy == *self,
    {
        Address { id: self.id.clone() }
    }
}

impl PartialEq for Address {
    /// Two identities are equal when their texts are.
    fn eq(&self, other: &Address) -> (equal: bool) {
        self.id == other.id
    }
}

impl Eq for Address {

}

impl vstd::std_specs::cmp::PartialEqSpecImpl for Address {
    open spec fn obeys_eq_spec() -> bool {
        true
    }

    open spec fn eq_spec(&self, other: &Address) -> bool {
        self@ == other@
    }
}

} // verus!
