//! The value handed over by the credential-input collaborator: a login
//! string and a password string.  How the pair is obtained (console, file,
//! network) is no concern of the library.

use vstd::prelude::*;

verus! {

/// A login/password pair.
pub struct LoginData(pub String, pub String);

impl LoginData {
    pub fn login(&self) -> (r: String)
        ensures
            r@ == self.0@,
    {
        self.0.clone()
    }

    pub fn password(&self) -> (r: String)
        ensures
            r@ == self.1@,
    {
        self.1.clone()
    }
}

} // verus!
