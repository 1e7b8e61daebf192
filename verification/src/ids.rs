//! Identifiers: handles of interned strings and names of methods.
use vstd::prelude::*;
use vstd::string::*;

verus! {

/// The handle of an interned string.
#[derive(Debug, Clone, Copy, PartialEq, Eq, Structural, Hash, PartialOrd, Ord)]
pub struct StrId(pub u32);

impl StrId {
    /// True exactly for the handle of the empty string.
    #[inline]
    pub fn is_empty(&self) -> (r: bool)
        ensures
            r == (self.0 == 0),
    {
        self.0 == 0
    }
}

/// A method, named by its class and its own name.
#[derive(Clone, Debug, PartialEq, Eq)]
pub struct MethodIdentifier(pub String, pub String);

impl MethodIdentifier {
    /// The name of the class, two colons, the name of the method.
    pub fn to_string(&self) -> (r: String)
        ensures
            r@ == self.0@ + "::"@ + self.1@,
    {
        self.0.clone().concat("::").concat(self.1.as_str())
    }
}

/// Where a reference to a symbol comes from: a symbol, or a member of a
/// classlike; the flag says whether the reference stands in a signature.
pub enum ReferenceSource {
    Symbol(bool, StrId),
    ClasslikeMember(bool, StrId, StrId),
}

} // verus!
