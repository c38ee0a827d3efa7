//! The registry's user entity: a stable numeric identity, display name and
//! credentials.  Two users are equal exactly when their ids are equal.

use vstd::prelude::*;

verus! {

/// A registered user.  `place_id` is the non-owning back-reference to the
/// place the user currently stands in; it is resolved through the place
/// registry of the owning `Simulation`.
#[derive(Debug)]
pub struct User {
    pub name: String,
    pub id: u64,
    pub place_id: u64,
    pub data: UserData,
}

impl User {
    /// A fresh user.  The display name starts empty: until one is set, the
    /// login string doubles as the display name (see `name`).
    pub fn new(name: String, pass: String, id: u64, place_id: u64) -> (u: User)
        ensures
            u.name@ == Seq::<char>::empty(),
            u.id == id,
            u.place_id == place_id,
            u.data.login == name,
            u.data.pass == pass,
            u.data.email@ == Seq::<char>::empty(),
            u.data.friends@ == Seq::<u64>::empty(),
    {
        User { name: String::new(), id, place_id, data: UserData::new(name, pass, String::new()) }
    }

    /// The display name, falling back to the login string while no display
    /// name has been set.
    pub fn name(&self) -> (r: String)
        ensures
            r@ == if self.name@.len() > 0 { self.name@ } else { self.data.login@ },
    {
        if !self.name.as_str().is_empty() {
            self.name.clone()
        } else {
            self.data.login.clone()
        }
    }

    pub fn login(&self) -> (r: String)
        ensures
            r@ == self.data.login@,
    {
        self.data.login.clone()
    }

    pub fn pass(&self) -> (r: String)
        ensures
            r@ == self.data.pass@,
    {
        self.data.pass.clone()
    }

    pub fn id(&self) -> (r: u64)
        ensures
            r == self.id,
    {
        self.id
    }
}

impl PartialEq for User {
    /// Users are compared by id alone; names and credentials do not take
    /// part in equality.
    fn eq(&self, other: &Self) -> (r: bool) {
        self.id == other.id
    }
}

impl vstd::std_specs::cmp::PartialEqSpecImpl for User {
    open spec fn obeys_eq_spec() -> bool {
        true
    }

    open spec fn eq_spec(&self, other: &User) -> bool {
        self.id == other.id
    }
}

/// The credential block of a user.  `friends` holds ids of other users.
#[derive(Debug)]
pub struct UserData {
    pub pass: String,
    pub login: String,
    pub email: String,
    pub friends: Vec<u64>,
}

impl UserData {
    pub fn new(login: String, pass: String, email: String) -> (d: UserData)
        ensures
            d.login == login,
            d.pass == pass,
            d.email == email,
            d.friends@ == Seq::<u64>::empty(),
    {
        UserData { pass, login, email, friends: Vec::new() }
    }
}

} // verus!
