//! An in-memory social-space simulator: registries of users and places, a
//! role/permission system per place, message posting, and a single active
//! session.  `Simulation` is the facade through which all cross-entity
//! state is created and mutated; users and places are owned by their
//! registries and referenced elsewhere by id.

pub mod clock;
pub mod io;
pub mod place;
pub mod user;

use vstd::prelude::*;

use crate::place::roles::{RolePerms, RoleTemplate, resolved};
use crate::place::{Place, PlaceUser};
use crate::user::User;

verus! {

/// The recoverable failures of the simulation.
#[derive(Clone, Copy, Debug, PartialEq, Eq, Structural)]
pub enum SimError {
    /// A user or place id lookup failed.
    NotFound,
    /// A login string was found but the password did not match.
    WrongCredentials,
    /// No user carries the given login string.
    UserNotFound,
    /// The target of a place switch does not exist.
    PlaceNotFound,
    /// An administrative action was attempted by a non-administrator.
    NotAdmin,
}

/// Some registered user carries the given login string.
pub open spec fn spec_has_login(members: Seq<User>, login: Seq<char>) -> bool {
    exists|i: int| 0 <= i < members.len() && (#[trigger] members[i]).data.login@ == login
}

/// The position of the first user carrying the given login string; login
/// resolution takes the first match, since nothing forbids two users from
/// sharing a login.
pub open spec fn spec_login_index(members: Seq<User>, login: Seq<char>) -> int {
    choose|i: int|
        0 <= i < members.len() && (#[trigger] members[i]).data.login@ == login && (forall|k: int|
            0 <= k < i ==> (#[trigger] members[k]).data.login@ != login)
}

/// The first position carrying a login string is the position that
/// `spec_login_index` denotes.
proof fn lemma_login_index_is(members: Seq<User>, login: Seq<char>, i: int)
    requires
        0 <= i < members.len(),
        members[i].data.login@ == login,
        forall|k: int| 0 <= k < i ==> (#[trigger] members[k]).data.login@ != login,
    ensures
        spec_has_login(members, login),
        spec_login_index(members, login) == i,
{
    assert(spec_has_login(members, login));
    let j = spec_login_index(members, login);
    assert(0 <= j < members.len() && members[j].data.login@ == login && (forall|k: int|
        0 <= k < j ==> (#[trigger] members[k]).data.login@ != login));
    if j < i {
        assert(members[j].data.login@ != login);
    } else if i < j {
        assert(members[i].data.login@ != login);
    }
}

/// Wherever some user carries a login string, a first such user exists.
proof fn lemma_first_login_from(members: Seq<User>, login: Seq<char>, w: int)
    requires
        0 <= w < members.len(),
        members[w].data.login@ == login,
    ensures
        exists|i: int|
            0 <= i < members.len() && (#[trigger] members[i]).data.login@ == login && (forall|
                k: int,
            |
                0 <= k < i ==> (#[trigger] members[k]).data.login@ != login),
    decreases w,
{
    if forall|k: int| 0 <= k < w ==> (#[trigger] members[k]).data.login@ != login {
        assert(0 <= w < members.len() && members[w].data.login@ == login && (forall|k: int|
            0 <= k < w ==> (#[trigger] members[k]).data.login@ != login));
    } else {
        let k = choose|k: int| 0 <= k < w && (#[trigger] members[k]).data.login@ == login;
        lemma_first_login_from(members, login, k);
    }
}

/// Login succeeds exactly when some registered user carries the given
/// login and password pair — provided no two users share a login.  With
/// duplicated logins, resolution takes the first user whose login
/// matches (see `spec_login_index`), which can answer `WrongCredentials`
/// although a later user's password would have matched; such registries
/// are left out here.
pub proof fn lemma_login_success_iff_credentials_match(
    s: Simulation,
    login: Seq<char>,
    password: Seq<char>,
)
    requires
        forall|i: int, j: int|
            0 <= i < j < s.members@.len() ==> (#[trigger] s.members@[i]).data.login@ != (
            #[trigger] s.members@[j]).data.login@,
    ensures
        (spec_has_login(s.members@, login) && s.members@[spec_login_index(
            s.members@,
            login,
        )].data.pass@ == password) <==> (exists|i: int|
            0 <= i < s.members@.len() && (#[trigger] s.members@[i]).data.login@ == login
                && s.members@[i].data.pass@ == password),
{
    let ms = s.members@;
    if spec_has_login(ms, login) {
        let w = choose|i: int| 0 <= i < ms.len() && (#[trigger] ms[i]).data.login@ == login;
        lemma_first_login_from(ms, login, w);
        let j = choose|i: int|
            0 <= i < ms.len() && (#[trigger] ms[i]).data.login@ == login && (forall|k: int|
                0 <= k < i ==> (#[trigger] ms[k]).data.login@ != login);
        lemma_login_index_is(ms, login, j);
        assert forall|i: int|
            0 <= i < ms.len() && (#[trigger] ms[i]).data.login@ == login implies i == j by {
            if i < j {
                assert(ms[i].data.login@ != ms[j].data.login@);
            } else if j < i {
                assert(ms[j].data.login@ != ms[i].data.login@);
            }
        }
    }
}

/// User ids are strictly increasing in registration order, and therefore
/// unique within the registry: a fresh user always receives an id above
/// every id handed out before.
pub proof fn lemma_user_ids_strictly_increasing(s: Simulation)
    requires
        s.wf(),
    ensures
        forall|i: int, j: int|
            0 <= i < j < s.members@.len() ==> (#[trigger] s.members@[i]).id < (
            #[trigger] s.members@[j]).id,
        forall|i: int, j: int|
            0 <= i < j < s.members@.len() ==> (#[trigger] s.members@[i]).id != (
            #[trigger] s.members@[j]).id,
{
    vstd::std_specs::vec::axiom_spec_len(&s.members);
    assert forall|i: int, j: int| 0 <= i < j < s.members@.len() implies (
    #[trigger] s.members@[i]).id < (#[trigger] s.members@[j]).id by {
        assert(s.members@[i].id == i as u64);
        assert(s.members@[j].id == j as u64);
    }
}

/// The default place: in every well formed simulation the place registry
/// holds a place under id 0, the one every fresh user is enrolled into.
pub proof fn lemma_default_place_exists(s: Simulation)
    requires
        s.wf(),
    ensures
        s.places@.len() >= 1,
        s.places@[0].id == 0,
{
}

/// The whole simulation: the user registry, the place registry, and the
/// single session, held as the id of the current user.
#[derive(Debug)]
pub struct Simulation {
    pub current_user: Option<u64>,
    pub members: Vec<User>,
    pub places: Vec<Place>,
}

impl Simulation {
    /// User ids equal registry positions, every user's current place
    /// exists, every user is enrolled there, and every user stays a member
    /// of the default place they were auto-enrolled into.
    pub open spec fn users_wf(self) -> bool {
        &&& (forall|i: int|
            0 <= i < self.members@.len() ==> (#[trigger] self.members@[i]).id == i as u64)
        &&& (forall|i: int|
            0 <= i < self.members@.len() ==> (#[trigger] self.members@[i]).place_id
                < self.places@.len())
        &&& (forall|i: int|
            0 <= i < self.members@.len() ==> self.places@[(
            #[trigger] self.members@[i]).place_id as int].spec_has_member(i as u64))
        &&& (forall|i: int|
            0 <= i < self.members@.len() ==> self.places@[0].spec_has_member(
                (#[trigger] self.members@[i]).id,
            ))
    }

    /// The default place exists, place ids equal registry positions, each
    /// place is well formed, and membership records and messages refer
    /// only to registered users.
    pub open spec fn places_wf(self) -> bool {
        &&& 1 <= self.places@.len()
        &&& (forall|i: int|
            0 <= i < self.places@.len() ==> (#[trigger] self.places@[i]).id == i as u64)
        &&& (forall|i: int| 0 <= i < self.places@.len() ==> (#[trigger] self.places@[i]).wf())
        &&& (forall|i: int, j: int|
            0 <= i < self.places@.len() && 0 <= j < self.places@[i].members@.len() ==> (
            #[trigger] self.places@[i].members@[j]).user_id < self.members@.len())
        &&& (forall|i: int, j: int|
            0 <= i < self.places@.len() && 0 <= j < self.places@[i].messages@.len() ==> (
            #[trigger] self.places@[i].messages@[j]).author_id < self.members@.len())
    }

    /// A session, when present, refers to a registered user.
    pub open spec fn session_wf(self) -> bool {
        match self.current_user {
            Option::Some(id) => id < self.members@.len(),
            Option::None => true,
        }
    }

    pub open spec fn wf(self) -> bool {
        self.users_wf() && self.places_wf() && self.session_wf()
    }

    pub open spec fn spec_logged(&self) -> bool {
        self.current_user is Some
    }

    /// The place the session stands in: the current user's place, or the
    /// default place when nobody is logged in.
    pub open spec fn spec_current_place_id(self) -> int {
        match self.current_user {
            Option::Some(id) => self.members@[id as int].place_id as int,
            Option::None => 0,
        }
    }

    pub open spec fn spec_current_place(self) -> Place {
        self.places@[self.spec_current_place_id()]
    }

    /// A fresh simulation: the default place alone, no users, nobody
    /// logged in.
    pub fn new() -> (s: Simulation)
        ensures
            s.wf(),
            s.members@.len() == 0,
            s.current_user is None,
            s.places@.len() == 1,
            s.places@[0].id == 0,
            s.places@[0].name@ == "Default"@,
            s.places@[0].admin@.len() == 0,
            s.places@[0].members@.len() == 0,
            s.places@[0].messages@.len() == 0,
    {
        let mut s = Simulation { members: Vec::new(), places: Vec::new(), current_user: None };
        let place = Place::new("Default".to_owned(), None, 0);
        s.places.push(place);
        s
    }

    fn get_next_user_id(&self) -> (r: u64)
        ensures
            r as int == self.members@.len() as int,
    {
        self.members.len() as u64
    }

    /// Registers a user and enrols them into the default place with the
    /// Basic role; returns the fresh id, one past the previous ids.
    pub fn create_user(&mut self, name: String, pass: String) -> (r: u64)
        requires
            old(self).wf(),
        ensures
            final(self).wf(),
            final(self).current_user == old(self).current_user,
            r as int == old(self).members@.len() as int,
            final(self).members@.len() == old(self).members@.len() + 1,
            final(self).members@.drop_last() == old(self).members@,
            ({
                let u = final(self).members@.last();
                &&& u.id == r
                &&& u.place_id == 0
                &&& u.name@ == Seq::<char>::empty()
                &&& u.data.login == name
                &&& u.data.pass == pass
            }),
            final(self).places@.len() == old(self).places@.len(),
            (forall|i: int|
                1 <= i < old(self).places@.len() ==> final(self).places@[i] == old(
                self).places@[i]),
            final(self).places@[0].members@.len() == old(self).places@[0].members@.len() + 1,
            final(self).places@[0].members@.drop_last() == old(self).places@[0].members@,
            ({
                let m = final(self).places@[0].members@.last();
                &&& m.user_id == r
                &&& !m.banned
                &&& m.roles@.len() == 1
                &&& m.roles@[0].name@ == "Basic"@
                &&& m.roles@[0].perms == (RolePerms { can_talk: true, priority: 0u8 })
            }),
            final(self).places@[0].name == old(self).places@[0].name,
            final(self).places@[0].id == old(self).places@[0].id,
            final(self).places@[0].admin == old(self).places@[0].admin,
            final(self).places@[0].messages == old(self).places@[0].messages,
            final(self).places@[0].roles == old(self).places@[0].roles,
    {
        let num = self.get_next_user_id();
        let user = User::new(name, pass, num, 0);
        self.members.push(user);
        proof {
            assert(self.members@.drop_last() =~= old(self).members@);
            assert(!self.places@[0].spec_has_member(num)) by {
                if self.places@[0].spec_has_member(num) {
                    let j = choose|j: int|
                        0 <= j < self.places@[0].members@.len() && (
                        #[trigger] self.places@[0].members@[j]).user_id == num;
                    assert(self.places@[0].members@[j].user_id < old(self).members@.len());
                }
            }
        }
        self.add_to_default_place(num);
        proof {
            assert forall|i: int| 0 <= i < self.members@.len() implies (
            #[trigger] self.members@[i]).id == i as u64 by {
                if i < old(self).members@.len() {
                    assert(self.members@[i] == old(self).members@[i]);
                }
            }
            assert forall|i: int| 0 <= i < self.members@.len() implies self.places@[(
            #[trigger] self.members@[i]).place_id as int].spec_has_member(i as u64) by {
                if i < old(self).members@.len() {
                    assert(self.members@[i] == old(self).members@[i]);
                    assert(old(self).places@[self.members@[i].place_id as int].spec_has_member(
                        i as u64,
                    ));
                    if self.members@[i].place_id == 0 {
                        let p0 = old(self).places@[0];
                        let j = p0.member_index(i as u64);
                        assert(self.places@[0].members@[j].user_id == i as u64);
                    } else {
                        assert(self.places@[self.members@[i].place_id as int] == old(
                            self,
                        ).places@[self.members@[i].place_id as int]);
                    }
                } else {
                    assert(self.members@[i].place_id == 0);
                    assert(self.places@[0].spec_has_member(num));
                }
            }
            assert forall|i: int, j: int|
                0 <= i < self.places@.len() && 0 <= j
                    < self.places@[i].members@.len() implies (
            #[trigger] self.places@[i].members@[j]).user_id < self.members@.len() by {
                if i == 0 {
                    if j < old(self).places@[0].members@.len() {
                        assert(self.places@[0].members@[j] == old(self).places@[0].members@[j]);
                        assert(old(self).places@[0].members@[j].user_id
                            < old(self).members@.len());
                    }
                } else {
                    assert(self.places@[i] == old(self).places@[i]);
                    assert(old(self).places@[i].members@[j].user_id < old(self).members@.len());
                }
            }
            assert forall|i: int, j: int|
                0 <= i < self.places@.len() && 0 <= j
                    < self.places@[i].messages@.len() implies (
            #[trigger] self.places@[i].messages@[j]).author_id < self.members@.len() by {
                assert(self.places@[i].messages@ == old(self).places@[i].messages@);
                assert(old(self).places@[i].messages@[j].author_id < old(self).members@.len());
            }
        }
        num
    }

    /// The user registered under an id.
    pub fn get_user_by_id(&self, id: u64) -> (r: Result<&User, SimError>)
        ensures
            match r {
                Result::Ok(u) => u.id == id && exists|i: int|
                    0 <= i < self.members@.len() && self.members@[i] == *u,
                Result::Err(e) => e == SimError::NotFound && (forall|i: int|
                    0 <= i < self.members@.len() ==> (#[trigger] self.members@[i]).id != id),
            },
    {
        let n = self.members.len();
        let mut t: usize = 0;
        while t < n
            invariant
                t <= n,
                n == self.members@.len(),
                forall|k: int| 0 <= k < t ==> (#[trigger] self.members@[k]).id != id,
            decreases n - t,
        {
            if self.members[t].id == id {
                return Ok(&self.members[t]);
            }
            t += 1;
        }
        Err(SimError::NotFound)
    }

    fn get_default_place(&self) -> (r: &Place)
        requires
            1 <= self.places@.len(),
        ensures
            *r == self.places@[0],
    {
        &self.places[0]
    }

    fn add_to_default_place(&mut self, user_id: u64)
        requires
            1 <= old(self).places@.len(),
            !old(self).places@[0].spec_has_member(user_id),
        ensures
            final(self).members == old(self).members,
            final(self).current_user == old(self).current_user,
            final(self).places@.len() == old(self).places@.len(),
            (forall|i: int|
                1 <= i < old(self).places@.len() ==> final(self).places@[i] == old(
                self).places@[i]),
            final(self).places@[0].members@.len() == old(self).places@[0].members@.len() + 1,
            final(self).places@[0].members@.drop_last() == old(self).places@[0].members@,
            ({
                let m = final(self).places@[0].members@.last();
                &&& m.user_id == user_id
                &&& !m.banned
                &&& m.roles@.len() == 1
                &&& m.roles@[0].name@ == "Basic"@
                &&& m.roles@[0].perms == (RolePerms { can_talk: true, priority: 0u8 })
            }),
            final(self).places@[0].name == old(self).places@[0].name,
            final(self).places@[0].id == old(self).places@[0].id,
            final(self).places@[0].admin == old(self).places@[0].admin,
            final(self).places@[0].messages == old(self).places@[0].messages,
            final(self).places@[0].roles == old(self).places@[0].roles,
            old(self).places@[0].wf() ==> final(self).places@[0].wf(),
            final(self).places@[0].spec_has_member(user_id),
    {
        self.places[0].add_user(user_id);
    }

    fn get_next_place_id(&self) -> (r: u64)
        ensures
            r as int == self.places@.len() as int,
    {
        self.places.len() as u64
    }

    /// The place registered under an id.
    pub fn get_place_by_id(&self, id: u64) -> (r: Result<&Place, SimError>)
        ensures
            match r {
                Result::Ok(p) => p.id == id && exists|i: int|
                    0 <= i < self.places@.len() && self.places@[i] == *p,
                Result::Err(e) => e == SimError::NotFound && (forall|i: int|
                    0 <= i < self.places@.len() ==> (#[trigger] self.places@[i]).id != id),
            },
    {
        let n = self.places.len();
        let mut t: usize = 0;
        while t < n
            invariant
                t <= n,
                n == self.places@.len(),
                forall|k: int| 0 <= k < t ==> (#[trigger] self.places@[k]).id != id,
            decreases n - t,
        {
            if self.places[t].id == id {
                return Ok(&self.places[t]);
            }
            t += 1;
        }
        Err(SimError::NotFound)
    }

    /// The place the session stands in: the current user's place, or the
    /// default place when nobody is logged in.
    pub fn return_current_place(&self) -> (r: &Place)
        requires
            self.wf(),
        ensures
            *r == self.spec_current_place(),
    {
        match self.current_user {
            None => self.get_default_place(),
            Some(id) => {
                let n = self.members.len();
                proof {
                    assert((id as int) < (n as int));
                }
                let idx = id as usize;
                let pid = self.members[idx].place_id;
                let np = self.places.len();
                proof {
                    assert((pid as int) < (np as int));
                }
                &self.places[pid as usize]
            },
        }
    }

    /// Registers a place under the next id.  When the given administrator
    /// id resolves to a user, that user is enrolled as the place's
    /// administrator; otherwise the place starts with no administrator,
    /// which is not an error.
    pub fn create_place(&mut self, name: String, admin_id: u64) -> (r: u64)
        requires
            old(self).wf(),
        ensures
            final(self).wf(),
            final(self).members == old(self).members,
            final(self).current_user == old(self).current_user,
            r as int == old(self).places@.len() as int,
            final(self).places@.len() == old(self).places@.len() + 1,
            final(self).places@.drop_last() == old(self).places@,
            ({
                let p = final(self).places@.last();
                &&& p.id == r
                &&& p.name == name
                &&& p.messages@.len() == 0
                &&& p.roles@.len() == 2
                &&& p.roles@[0].name@ == "Basic"@
                &&& p.roles@[0].perms == (RolePerms { can_talk: true, priority: 0u8 })
                &&& p.roles@[1].name@ == "Admin"@
                &&& p.roles@[1].perms == (RolePerms { can_talk: true, priority: 255u8 })
                &&& (admin_id < old(self).members@.len() ==> {
                    &&& p.admin@.len() == 1
                    &&& p.admin@[0] == admin_id
                    &&& p.members@.len() == 1
                    &&& p.members@[0].user_id == admin_id
                    &&& !p.members@[0].banned
                    &&& p.members@[0].roles@.len() == 2
                    &&& p.members@[0].roles@[0].name@ == "Basic"@
                    &&& p.members@[0].roles@[0].perms == (RolePerms {
                        can_talk: true,
                        priority: 0u8,
                    })
                    &&& p.members@[0].roles@[1].name@ == "Admin"@
                    &&& p.members@[0].roles@[1].perms == (RolePerms {
                        can_talk: true,
                        priority: 255u8,
                    })
                })
                &&& (admin_id >= old(self).members@.len() ==> p.admin@.len() == 0
                    && p.members@.len() == 0)
            }),
    {
        let admin: Option<u64> = match self.get_user_by_id(admin_id) {
            Ok(found) => {
                proof {
                    let i = choose|i: int|
                        0 <= i < self.members@.len() && (#[trigger] self.members@[i]).id
                            == admin_id;
                    assert(self.members@[i].id == i as u64);
                }
                Some(admin_id)
            },
            Err(_) => {
                proof {
                    if admin_id < old(self).members@.len() {
                        assert(self.members@[admin_id as int].id == admin_id);
                    }
                }
                None
            },
        };
        let num = self.get_next_place_id();
        let place = Place::new(name, admin, num);
        self.places.push(place);
        proof {
            assert(self.places@.drop_last() =~= old(self).places@);
            assert forall|i: int| 0 <= i < self.places@.len() implies (
            #[trigger] self.places@[i]).id == i as u64 by {
                if i < old(self).places@.len() {
                    assert(self.places@[i] == old(self).places@[i]);
                }
            }
            assert forall|i: int| 0 <= i < self.places@.len() implies (
            #[trigger] self.places@[i]).wf() by {
                if i < old(self).places@.len() {
                    assert(self.places@[i] == old(self).places@[i]);
                    assert(old(self).places@[i].wf());
                }
            }
            assert forall|i: int| 0 <= i < self.members@.len() implies self.places@[(
            #[trigger] self.members@[i]).place_id as int].spec_has_member(i as u64) by {
                assert(self.places@[self.members@[i].place_id as int] == old(
                    self,
                ).places@[self.members@[i].place_id as int]);
                assert(old(self).places@[self.members@[i].place_id as int].spec_has_member(
                    i as u64,
                ));
            }
            assert forall|i: int, j: int|
                0 <= i < self.places@.len() && 0 <= j
                    < self.places@[i].members@.len() implies (
            #[trigger] self.places@[i].members@[j]).user_id < self.members@.len() by {
                if i < old(self).places@.len() {
                    assert(self.places@[i] == old(self).places@[i]);
                    assert(old(self).places@[i].members@[j].user_id < old(self).members@.len());
                }
            }
            assert forall|i: int, j: int|
                0 <= i < self.places@.len() && 0 <= j
                    < self.places@[i].messages@.len() implies (
            #[trigger] self.places@[i].messages@[j]).author_id < self.members@.len() by {
                if i < old(self).places@.len() {
                    assert(self.places@[i] == old(self).places@[i]);
                    assert(old(self).places@[i].messages@[j].author_id < old(
                        self,
                    ).members@.len());
                }
            }
        }
        num
    }

    /// The effective permissions of the current user in the place the
    /// session stands in.
    pub fn return_current_user_perms(&self) -> (r: RolePerms)
        requires
            self.wf(),
            self.spec_logged(),
        ensures
            r == resolved(
                self.spec_current_place().spec_member(self.current_user.unwrap()).roles@,
            ),
    {
        let id = self.current_user.unwrap();
        let n = self.members.len();
        proof {
            assert((id as int) < (n as int));
        }
        let idx = id as usize;
        let pid = self.members[idx].place_id;
        let np = self.places.len();
        proof {
            assert((pid as int) < (np as int));
            assert(self.places@[pid as int].spec_has_member(id));
        }
        self.places[pid as usize].return_perms(id)
    }

    /// Whether a session is active.
    #[verifier::when_used_as_spec(spec_logged)]
    pub fn logged(&self) -> (r: bool)
        ensures
            r == self.spec_logged(),
    {
        match self.current_user {
            Some(_) => true,
            None => false,
        }
    }

    /// Scans users in registration order; the first whose login matches
    /// decides: a matching password opens the session, a mismatch is
    /// `WrongCredentials`.  Without any match the result is
    /// `UserNotFound`.  A failed attempt leaves the session as it was; a
    /// new login over an open session simply replaces it.
    pub fn log_in(&mut self, login: String, password: String) -> (r: Result<(), SimError>)
        ensures
            final(self).members == old(self).members,
            final(self).places == old(self).places,
            r is Ok <==> spec_has_login(old(self).members@, login@) && old(self).members@[
                spec_login_index(old(self).members@, login@)].data.pass@ == password@,
            r is Ok ==> final(self).current_user == Some(
                old(self).members@[spec_login_index(old(self).members@, login@)].id,
            ),
            r == Err::<(), SimError>(SimError::WrongCredentials) <==> spec_has_login(
                old(self).members@,
                login@,
            ) && old(self).members@[spec_login_index(old(self).members@, login@)].data.pass@
                != password@,
            r == Err::<(), SimError>(SimError::UserNotFound) <==> !spec_has_login(
                old(self).members@,
                login@,
            ),
            r is Err ==> final(self).current_user == old(self).current_user,
            old(self).wf() ==> final(self).wf(),
    {
        let n = self.members.len();
        let mut t: usize = 0;
        while t < n
            invariant
                t <= n,
                n == self.members@.len(),
                *self == *old(self),
                forall|k: int| 0 <= k < t ==> (#[trigger] self.members@[k]).data.login@ != login@,
            decreases n - t,
        {
            if self.members[t].login() == login {
                proof {
                    lemma_login_index_is(self.members@, login@, t as int);
                }
                if self.members[t].pass() == password {
                    let id = self.members[t].id();
                    self.current_user = Some(id);
                    return Ok(());
                } else {
                    return Err(SimError::WrongCredentials);
                }
            }
            t += 1;
        }
        Err(SimError::UserNotFound)
    }

    /// Closes the session.  Always safe: closing an already closed session
    /// leaves it closed.
    pub fn log_off(&mut self)
        ensures
            final(self).members == old(self).members,
            final(self).places == old(self).places,
            final(self).current_user is None,
            old(self).wf() ==> final(self).wf(),
    {
        self.current_user = None;
    }

    /// The current user, while a session is active.
    pub fn return_current_user(&self) -> (r: Option<&User>)
        requires
            self.wf(),
        ensures
            match r {
                Option::Some(u) => self.current_user == Some(u.id) && *u == self.members@[
                    u.id as int],
                Option::None => self.current_user is None,
            },
    {
        match self.current_user {
            Some(id) => {
                let n = self.members.len();
                proof {
                    assert((id as int) < (n as int));
                }
                Some(&self.members[id as usize])
            },
            None => None,
        }
    }

    /// Moves the current user to another place, enrolling them there with
    /// the Basic role on first entry.  An unknown place id changes
    /// nothing and reports `PlaceNotFound`.
    pub fn change_place(&mut self, place_id: u64) -> (r: Option<SimError>)
        requires
            old(self).wf(),
            old(self).spec_logged(),
        ensures
            final(self).wf(),
            final(self).current_user == old(self).current_user,
            place_id >= old(self).places@.len() ==> r == Some(SimError::PlaceNotFound)
                && final(self).members == old(self).members && final(self).places == old(
                self,
            ).places,
            place_id < old(self).places@.len() ==> ({
                let cu = old(self).current_user.unwrap();
                &&& r is None
                &&& final(self).members@ == old(self).members@.update(
                    cu as int,
                    User {
                        name: old(self).members@[cu as int].name,
                        id: old(self).members@[cu as int].id,
                        place_id,
                        data: old(self).members@[cu as int].data,
                    },
                )
                &&& final(self).places@.len() == old(self).places@.len()
                &&& (forall|i: int|
                    0 <= i < old(self).places@.len() && i != place_id as int
                        ==> final(self).places@[i] == old(self).places@[i])
                &&& (old(self).places@[place_id as int].spec_has_member(cu)
                    ==> final(self).places@[place_id as int] == old(self).places@[place_id as int])
                &&& (!old(self).places@[place_id as int].spec_has_member(cu) ==> {
                    let p0 = old(self).places@[place_id as int];
                    let p1 = final(self).places@[place_id as int];
                    &&& p1.members@.len() == p0.members@.len() + 1
                    &&& p1.members@.drop_last() == p0.members@
                    &&& p1.members@.last().user_id == cu
                    &&& !p1.members@.last().banned
                    &&& p1.members@.last().roles@.len() == 1
                    &&& p1.members@.last().roles@[0].name@ == "Basic"@
                    &&& p1.name == p0.name
                    &&& p1.id == p0.id
                    &&& p1.admin == p0.admin
                    &&& p1.messages == p0.messages
                    &&& p1.roles == p0.roles
                })
            }),
    {
        let cu = self.current_user.unwrap();
        let n = self.places.len();
        if place_id >= n as u64 {
            return Some(SimError::PlaceNotFound);
        }
        let m = self.members.len();
        proof {
            assert((cu as int) < (m as int));
        }
        let idx = cu as usize;
        self.members[idx].place_id = place_id;
        let pid = place_id as usize;
        self.places[pid].add_user(cu);
        proof {
            assert(self.members@ =~= old(self).members@.update(
                cu as int,
                User {
                    name: old(self).members@[cu as int].name,
                    id: old(self).members@[cu as int].id,
                    place_id,
                    data: old(self).members@[cu as int].data,
                },
            ));
            assert forall|i: int| 0 <= i < self.members@.len() implies (
            #[trigger] self.members@[i]).id == i as u64 by {
                if i != cu as int {
                    assert(self.members@[i] == old(self).members@[i]);
                }
            }
            assert forall|i: int| 0 <= i < self.members@.len() implies (
            #[trigger] self.members@[i]).place_id < self.places@.len() by {
                if i != cu as int {
                    assert(self.members@[i] == old(self).members@[i]);
                }
            }
            assert forall|i: int| 0 <= i < self.members@.len() implies self.places@[(
            #[trigger] self.members@[i]).place_id as int].spec_has_member(i as u64) by {
                if i == cu as int {
                    assert(self.places@[pid as int].spec_has_member(cu));
                } else {
                    assert(self.members@[i] == old(self).members@[i]);
                    let target = old(self).members@[i].place_id as int;
                    assert(old(self).places@[target].spec_has_member(i as u64));
                    if target == pid as int {
                        let p0 = old(self).places@[target];
                        let j = p0.member_index(i as u64);
                        assert(p0.members@[j].user_id == i as u64);
                        if p0.spec_has_member(cu) {
                            assert(self.places@[target] == p0);
                        } else {
                            assert(self.places@[target].members@[j].user_id == i as u64);
                        }
                    } else {
                        assert(self.places@[target] == old(self).places@[target]);
                    }
                }
            }
            assert forall|i: int, j: int|
                0 <= i < self.places@.len() && 0 <= j
                    < self.places@[i].members@.len() implies (
            #[trigger] self.places@[i].members@[j]).user_id < self.members@.len() by {
                if i == pid as int && j >= old(self).places@[i].members@.len() {
                    assert(self.places@[i].members@[j].user_id == cu);
                } else {
                    if i == pid as int {
                        if old(self).places@[i].spec_has_member(cu) {
                            assert(self.places@[i] == old(self).places@[i]);
                        } else {
                            assert(self.places@[i].members@[j] == old(
                                self,
                            ).places@[i].members@[j]);
                        }
                    } else {
                        assert(self.places@[i] == old(self).places@[i]);
                    }
                    assert(old(self).places@[i].members@[j].user_id < old(self).members@.len());
                }
            }
            assert forall|i: int, j: int|
                0 <= i < self.places@.len() && 0 <= j
                    < self.places@[i].messages@.len() implies (
            #[trigger] self.places@[i].messages@[j]).author_id < self.members@.len() by {
                assert(self.places@[i].messages@ == old(self).places@[i].messages@);
                assert(old(self).places@[i].messages@[j].author_id < old(self).members@.len());
            }
        }
        None
    }

    /// Moves the current user back to the default place.  They are a
    /// member there already, so only their back-reference moves: the place
    /// registry is left exactly as it was.
    pub fn reset_place(&mut self)
        requires
            old(self).wf(),
            old(self).spec_logged(),
        ensures
            final(self).wf(),
            final(self).current_user == old(self).current_user,
            final(self).places@ == old(self).places@,
            ({
                let cu = old(self).current_user.unwrap();
                final(self).members@ == old(self).members@.update(
                    cu as int,
                    User {
                        name: old(self).members@[cu as int].name,
                        id: old(self).members@[cu as int].id,
                        place_id: 0u64,
                        data: old(self).members@[cu as int].data,
                    },
                )
            }),
    {
        let _ = self.change_place(0);
        proof {
            assert(self.places@ =~= old(self).places@);
        }
    }

    /// Appends a message by the current user to the log of the place the
    /// session stands in; without a session, nothing happens.
    pub fn send_message(&mut self, message: &str)
        requires
            old(self).wf(),
        ensures
            final(self).wf(),
            final(self).members == old(self).members,
            final(self).current_user == old(self).current_user,
            !old(self).spec_logged() ==> final(self).places == old(self).places,
            old(self).spec_logged() ==> ({
                let pid = old(self).spec_current_place_id();
                &&& final(self).places@.len() == old(self).places@.len()
                &&& (forall|i: int|
                    0 <= i < old(self).places@.len() && i != pid ==> final(self).places@[i] == old(
                    self).places@[i])
                &&& final(self).places@[pid].members == old(self).places@[pid].members
                &&& final(self).places@[pid].name == old(self).places@[pid].name
                &&& final(self).places@[pid].id == old(self).places@[pid].id
                &&& final(self).places@[pid].admin == old(self).places@[pid].admin
                &&& final(self).places@[pid].roles == old(self).places@[pid].roles
                &&& final(self).places@[pid].messages@.len() == old(
                    self,
                ).places@[pid].messages@.len() + 1
                &&& final(self).places@[pid].messages@.drop_last() == old(
                    self,
                ).places@[pid].messages@
                &&& final(self).places@[pid].messages@.last().author_id == old(
                    self,
                ).current_user.unwrap()
                &&& final(self).places@[pid].messages@.last().message@ == message@
            }),
    {
        let cu = match self.current_user {
            Some(x) => x,
            None => {
                return ;
            },
        };
        let m = self.members.len();
        proof {
            assert((cu as int) < (m as int));
        }
        let idx = cu as usize;
        let pid64 = self.members[idx].place_id;
        let np = self.places.len();
        proof {
            assert((pid64 as int) < (np as int));
        }
        let pid = pid64 as usize;
        let stamp = crate::clock::current_millis();
        let msg = crate::place::PlaceMessage::new(cu, message.to_owned(), stamp);
        self.places[pid].add_message(msg);
        proof {
            assert(self.places@[pid as int].messages@.drop_last() =~= old(
                self,
            ).places@[pid as int].messages@);
            assert forall|i: int| 0 <= i < self.members@.len() implies self.places@[(
            #[trigger] self.members@[i]).place_id as int].spec_has_member(i as u64) by {
                let target = self.members@[i].place_id as int;
                assert(old(self).places@[target].spec_has_member(i as u64));
                assert(self.places@[target].members@ == old(self).places@[target].members@);
            }
            assert forall|i: int, j: int|
                0 <= i < self.places@.len() && 0 <= j
                    < self.places@[i].members@.len() implies (
            #[trigger] self.places@[i].members@[j]).user_id < self.members@.len() by {
                assert(self.places@[i].members@ == old(self).places@[i].members@);
                assert(old(self).places@[i].members@[j].user_id < old(self).members@.len());
            }
            assert forall|i: int, j: int|
                0 <= i < self.places@.len() && 0 <= j
                    < self.places@[i].messages@.len() implies (
            #[trigger] self.places@[i].messages@[j]).author_id < self.members@.len() by {
                if i == pid as int && j == self.places@[i].messages@.len() - 1 {
                    assert(self.places@[i].messages@[j].author_id == cu);
                } else {
                    if i == pid as int {
                        assert(self.places@[i].messages@[j] == old(self).places@[i].messages@[j]);
                    } else {
                        assert(self.places@[i] == old(self).places@[i]);
                    }
                    assert(old(self).places@[i].messages@[j].author_id < old(
                        self,
                    ).members@.len());
                }
            }
        }
    }

    /// The rendered log of the place the session stands in, one line per
    /// message, in order of arrival.
    pub fn return_current_place_messages(&self) -> (r: Vec<String>)
        requires
            self.wf(),
        ensures
            r@.len() == self.spec_current_place().messages@.len(),
    {
        let place = self.return_current_place();
        let n = place.messages.len();
        let mut out: Vec<String> = Vec::new();
        let mut t: usize = 0;
        while t < n
            invariant
                t <= n,
                n == place.messages@.len(),
                out@.len() == t,
                self.wf(),
                *place == self.spec_current_place(),
            decreases n - t,
        {
            let m = &place.messages[t];
            proof {
                let pid = self.spec_current_place_id();
                assert(0 <= pid < self.places@.len());
                assert(self.places@[pid].messages@[t as int].author_id < self.members@.len());
            }
            let author = match self.get_user_by_id(m.author_id) {
                Ok(u) => u,
                Err(_) => {
                    proof {
                        assert(self.members@[m.author_id as int].id == m.author_id);
                        assert(false);
                    }
                    return out;
                },
            };
            let name = author.name();
            let line = m.render(name.as_str());
            out.push(line);
            t += 1;
        }
        out
    }

    /// Whether the user is an administrator of the place the session
    /// stands in.
    pub fn is_admin(&self, user_id: u64) -> (r: bool)
        requires
            self.wf(),
        ensures
            r == self.spec_current_place().admin@.contains(user_id),
    {
        match self.return_current_place().find_admin(user_id) {
            Some(_) => true,
            None => false,
        }
    }

    /// Whether the user is an administrator of the given place; an unknown
    /// place id simply reports false.
    pub fn is_admin_in_server(&self, user_id: u64, place_id: u64) -> (r: bool)
        requires
            self.wf(),
        ensures
            r == (place_id < self.places@.len() && self.places@[place_id as int].admin@.contains(
                user_id,
            )),
    {
        let n = self.places.len();
        match self.get_place_by_id(place_id) {
            Ok(place) => {
                proof {
                    let i = choose|i: int|
                        0 <= i < self.places@.len() && self.places@[i] == *place;
                    assert(self.places@[i].id == i as u64);
                    assert(i < n as int);
                    assert(i as u64 == place_id);
                    assert(i == place_id as int);
                    assert(self.places@[place_id as int] == *place);
                }
                match place.find_admin(user_id) {
                    Some(_) => true,
                    None => false,
                }
            },
            Err(_) => {
                proof {
                    if place_id < self.places@.len() {
                        assert(self.places@[place_id as int].id == place_id);
                    }
                }
                false
            },
        }
    }

    /// Appends a role template to a place's catalogue.
    pub fn add_role_to_place(&mut self, place_id: u64, new_role: RoleTemplate) -> (r: Result<
        (),
        SimError,
    >)
        requires
            old(self).wf(),
        ensures
            final(self).wf(),
            final(self).members == old(self).members,
            final(self).current_user == old(self).current_user,
            place_id >= old(self).places@.len() ==> r == Err::<(), SimError>(
                SimError::PlaceNotFound,
            ) && final(self).places == old(self).places,
            place_id < old(self).places@.len() ==> ({
                &&& r is Ok
                &&& final(self).places@.len() == old(self).places@.len()
                &&& (forall|i: int|
                    0 <= i < old(self).places@.len() && i != place_id as int
                        ==> final(self).places@[i] == old(self).places@[i])
                &&& final(self).places@[place_id as int].roles@ == old(
                    self,
                ).places@[place_id as int].roles@.push(new_role)
                &&& final(self).places@[place_id as int].members == old(
                    self,
                ).places@[place_id as int].members
                &&& final(self).places@[place_id as int].messages == old(
                    self,
                ).places@[place_id as int].messages
                &&& final(self).places@[place_id as int].admin == old(
                    self,
                ).places@[place_id as int].admin
                &&& final(self).places@[place_id as int].name == old(
                    self,
                ).places@[place_id as int].name
            }),
    {
        let n = self.places.len();
        if place_id >= n as u64 {
            return Err(SimError::PlaceNotFound);
        }
        let pid = place_id as usize;
        self.places[pid].add_role(new_role);
        proof {
            assert forall|i: int| 0 <= i < self.members@.len() implies self.places@[(
            #[trigger] self.members@[i]).place_id as int].spec_has_member(i as u64) by {
                let target = self.members@[i].place_id as int;
                assert(old(self).places@[target].spec_has_member(i as u64));
                assert(self.places@[target].members@ == old(self).places@[target].members@);
            }
            assert forall|i: int, j: int|
                0 <= i < self.places@.len() && 0 <= j
                    < self.places@[i].members@.len() implies (
            #[trigger] self.places@[i].members@[j]).user_id < self.members@.len() by {
                assert(self.places@[i].members@ == old(self).places@[i].members@);
                assert(old(self).places@[i].members@[j].user_id < old(self).members@.len());
            }
            assert forall|i: int, j: int|
                0 <= i < self.places@.len() && 0 <= j
                    < self.places@[i].messages@.len() implies (
            #[trigger] self.places@[i].messages@[j]).author_id < self.members@.len() by {
                assert(self.places@[i].messages@ == old(self).places@[i].messages@);
                assert(old(self).places@[i].messages@[j].author_id < old(self).members@.len());
            }
        }
        Ok(())
    }

    /// Grants a role to a member of a place, with the overwrite-or-append
    /// rule of `Place::grant_role`; a user with no record there is left
    /// alone.
    pub fn grant_role_in_place(&mut self, place_id: u64, user_id: u64, new_role: RoleTemplate)
        -> (r: Result<(), SimError>)
        requires
            old(self).wf(),
        ensures
            final(self).wf(),
            final(self).members == old(self).members,
            final(self).current_user == old(self).current_user,
            place_id >= old(self).places@.len() ==> r == Err::<(), SimError>(
                SimError::PlaceNotFound,
            ) && final(self).places == old(self).places,
            place_id < old(self).places@.len() ==> ({
                let place = old(self).places@[place_id as int];
                &&& r is Ok
                &&& final(self).places@.len() == old(self).places@.len()
                &&& (forall|i: int|
                    0 <= i < old(self).places@.len() && i != place_id as int
                        ==> final(self).places@[i] == old(self).places@[i])
                &&& (!place.spec_has_member(user_id) ==> final(self).places@[place_id as int]
                    == place)
                &&& (place.spec_has_member(user_id) ==> ({
                    let mi = place.member_index(user_id);
                    &&& final(self).places@[place_id as int].members@.len()
                        == place.members@.len()
                    &&& (forall|j: int|
                        0 <= j < place.members@.len() && j != mi ==> final(
                        self).places@[place_id as int].members@[j] == place.members@[j])
                    &&& final(self).places@[place_id as int].members@[mi].user_id == user_id
                    &&& final(self).places@[place_id as int].members@[mi].banned
                        == place.members@[mi].banned
                    &&& final(self).places@[place_id as int].members@[mi].roles@
                        == crate::place::roles::granted(place.members@[mi].roles@, new_role)
                    &&& final(self).places@[place_id as int].name == place.name
                    &&& final(self).places@[place_id as int].admin == place.admin
                    &&& final(self).places@[place_id as int].messages == place.messages
                    &&& final(self).places@[place_id as int].roles == place.roles
                }))
            }),
    {
        let n = self.places.len();
        if place_id >= n as u64 {
            return Err(SimError::PlaceNotFound);
        }
        let pid = place_id as usize;
        self.places[pid].grant_role(user_id, new_role);
        proof {
            assert forall|i: int| 0 <= i < self.members@.len() implies self.places@[(
            #[trigger] self.members@[i]).place_id as int].spec_has_member(i as u64) by {
                let target = self.members@[i].place_id as int;
                let p0 = old(self).places@[target];
                assert(p0.spec_has_member(i as u64));
                if target == pid as int && p0.spec_has_member(user_id) {
                    let j = p0.member_index(i as u64);
                    assert(p0.members@[j].user_id == i as u64);
                    assert(self.places@[target].members@[j].user_id == i as u64);
                } else {
                    assert(self.places@[target] == p0);
                }
            }
            assert forall|i: int, j: int|
                0 <= i < self.places@.len() && 0 <= j
                    < self.places@[i].members@.len() implies (
            #[trigger] self.places@[i].members@[j]).user_id < self.members@.len() by {
                let p0 = old(self).places@[i];
                if i == pid as int && p0.spec_has_member(user_id) {
                    if j == p0.member_index(user_id) {
                        assert(self.places@[i].members@[j].user_id == user_id);
                        assert(p0.members@[j].user_id == user_id);
                    } else {
                        assert(self.places@[i].members@[j] == p0.members@[j]);
                    }
                } else {
                    assert(self.places@[i] == p0);
                }
                assert(p0.members@[j].user_id < old(self).members@.len());
            }
            assert forall|i: int, j: int|
                0 <= i < self.places@.len() && 0 <= j
                    < self.places@[i].messages@.len() implies (
            #[trigger] self.places@[i].messages@[j]).author_id < self.members@.len() by {
                assert(self.places@[i].messages@ == old(self).places@[i].messages@);
                assert(old(self).places@[i].messages@[j].author_id < old(self).members@.len());
            }
        }
        Ok(())
    }

    /// Bans a user from the current user's place.  Only an administrator
    /// of that place may ban; the report says whether the target is now
    /// banned, false when they have no membership record there.
    pub fn ban_user(&mut self, user_id: u64) -> (r: Result<bool, SimError>)
        requires
            old(self).wf(),
            old(self).spec_logged(),
        ensures
            final(self).wf(),
            final(self).members == old(self).members,
            final(self).current_user == old(self).current_user,
            ({
                let cu = old(self).current_user.unwrap();
                let pid = old(self).spec_current_place_id();
                let place = old(self).places@[pid];
                if place.admin@.contains(cu) {
                    &&& r == Ok::<bool, SimError>(place.spec_has_member(user_id))
                    &&& final(self).places@.len() == old(self).places@.len()
                    &&& (forall|i: int|
                        0 <= i < old(self).places@.len() && i != pid ==> final(self).places@[i]
                            == old(self).places@[i])
                    &&& (!place.spec_has_member(user_id) ==> final(self).places@[pid] == place)
                    &&& (place.spec_has_member(user_id) ==> {
                        &&& final(self).places@[pid].members@ == place.members@.update(
                            place.member_index(user_id),
                            PlaceUser {
                                user_id,
                                roles: place.spec_member(user_id).roles,
                                banned: true,
                            },
                        )
                        &&& final(self).places@[pid].name == place.name
                        &&& final(self).places@[pid].id == place.id
                        &&& final(self).places@[pid].admin == place.admin
                        &&& final(self).places@[pid].messages == place.messages
                        &&& final(self).places@[pid].roles == place.roles
                    })
                } else {
                    r == Err::<bool, SimError>(SimError::NotAdmin) && final(self).places == old(
                        self,
                    ).places
                }
            }),
    {
        let cu = self.current_user.unwrap();
        if self.is_admin(cu) {
            let m = self.members.len();
            proof {
                assert((cu as int) < (m as int));
            }
            let idx = cu as usize;
            let pid64 = self.members[idx].place_id;
            let np = self.places.len();
            proof {
                assert((pid64 as int) < (np as int));
            }
            let pid = pid64 as usize;
            let banned_now = self.places[pid].ban_user(user_id);
            proof {
                assert forall|i: int| 0 <= i < self.members@.len() implies self.places@[
                    0].spec_has_member((#[trigger] self.members@[i]).id) by {
                    let p0 = old(self).places@[0];
                    assert(p0.spec_has_member(self.members@[i].id));
                    if pid as int == 0 && p0.spec_has_member(user_id) {
                        let j = p0.member_index(self.members@[i].id);
                        assert(p0.members@[j].user_id == self.members@[i].id);
                        assert(self.places@[0].members@[j].user_id == self.members@[i].id);
                    } else {
                        assert(self.places@[0] == p0);
                    }
                }
                assert forall|i: int| 0 <= i < self.members@.len() implies self.places@[(
                #[trigger] self.members@[i]).place_id as int].spec_has_member(i as u64) by {
                    let target = self.members@[i].place_id as int;
                    assert(old(self).places@[target].spec_has_member(i as u64));
                    if target == pid as int {
                        let p0 = old(self).places@[target];
                        let j = p0.member_index(i as u64);
                        assert(p0.members@[j].user_id == i as u64);
                        if p0.spec_has_member(user_id) {
                            assert(self.places@[target].members@[j].user_id == i as u64);
                        } else {
                            assert(self.places@[target] == p0);
                        }
                    } else {
                        assert(self.places@[target] == old(self).places@[target]);
                    }
                }
                assert forall|i: int, j: int|
                    0 <= i < self.places@.len() && 0 <= j
                        < self.places@[i].members@.len() implies (
                #[trigger] self.places@[i].members@[j]).user_id < self.members@.len() by {
                    let p0 = old(self).places@[i];
                    if i == pid as int && p0.spec_has_member(user_id) {
                        if j == p0.member_index(user_id) {
                            assert(self.places@[i].members@[j].user_id == user_id);
                            assert(p0.members@[j].user_id == user_id);
                        } else {
                            assert(self.places@[i].members@[j] == p0.members@[j]);
                        }
                    } else {
                        assert(self.places@[i] == p0);
                    }
                    assert(p0.members@[j].user_id < old(self).members@.len());
                }
                assert forall|i: int, j: int|
                    0 <= i < self.places@.len() && 0 <= j
                        < self.places@[i].messages@.len() implies (
                #[trigger] self.places@[i].messages@[j]).author_id < self.members@.len() by {
                    assert(self.places@[i].messages@ == old(self).places@[i].messages@);
                    assert(old(self).places@[i].messages@[j].author_id < old(
                        self,
                    ).members@.len());
                }
            }
            Ok(banned_now)
        } else {
            Err(SimError::NotAdmin)
        }
    }
}

} // verus!
