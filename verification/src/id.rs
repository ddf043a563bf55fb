use vstd::prelude::*;

verus! {

/// The text an element id was derived from, kept for debugging.
#[derive(Debug)]
pub struct StringId {
    pub text: String,
}

impl StringId {
    /// A string id holding a copy of `s`.
    pub fn from_str(s: &str) -> (r: StringId)
        ensures
            r.text@ == s@,
    {
        StringId { text: s.to_owned() }
    }

    /// The empty string id (for ids that were not derived from a label).
    pub fn empty() -> (r: StringId)
        ensures
            r.text@ == Seq::<char>::empty(),
    {
        StringId { text: String::new() }
    }
}

/// An element id: the hashed id, the offset it was hashed with,
/// the hash of the label alone, and the label itself.
#[derive(Debug)]
pub struct Id {
    pub id: u32,
    pub offset: u32,
    pub base_id: u32,
    pub string_id: StringId,
}

impl Clone for StringId {
    fn clone(&self) -> (r: Self)
        ensures
            r == *self,
    {
        StringId { text: self.text.clone() }
    }
}

impl Clone for Id {
    fn clone(&self) -> (r: Self)
        ensures
            r == *self,
    {
        Id { id: self.id, offset: self.offset, base_id: self.base_id, string_id: self.string_id.clone() }
    }
}

} // verus!
