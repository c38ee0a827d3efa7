//! A place: a named community space with a role catalogue, a membership
//! ledger, a message log and a set of administrators.  Membership records
//! are never removed; banning sets a flag.

pub mod roles;

use vstd::prelude::*;
use crate::SimError;
use crate::place::roles::{
    RolePerms, RoleTemplate, first_priority_index, granted, has_priority,
    lemma_first_priority_index_is, resolved,
};
use vstd::string::StringExecFns;

verus! {

/// What str::to_lowercase returns: a function of the characters alone.
pub uninterp spec fn lower_of(s: Seq<char>) -> Seq<char>;

/// Relies on str::to_lowercase; the result depends on the characters of the
/// input alone, and is named `lower_of`.
#[verifier::external_body]
fn lowercase(s: &str) -> (r: String)
    ensures
        r@ == lower_of(s@),
{
    s.to_lowercase()
}

/// Case-insensitive equality of two names.
pub open spec fn name_matches(a: Seq<char>, b: Seq<char>) -> bool {
    lower_of(a) == lower_of(b)
}

/// A message in a place's log: the author's user id, the text, and the
/// moment of creation as milliseconds since the Unix epoch (`None` when
/// the clock stood before the epoch).  Immutable once appended.
#[derive(Debug)]
pub struct PlaceMessage {
    pub author_id: u64,
    pub message: String,
    pub time: Option<u64>,
}

impl PlaceMessage {
    pub fn new(author_id: u64, message: String, time: Option<u64>) -> (m: PlaceMessage)
        ensures
            m.author_id == author_id,
            m.message == message,
            m.time == time,
    {
        PlaceMessage { author_id, message, time }
    }

    /// One log line for this message.  A message without a timestamp is
    /// rendered with a fixed marker in its place.
    pub(crate) fn render(&self, author_name: &str) -> String {
        match self.time {
            Some(ms) => render_stamped(author_name, ms, self.message.as_str()),
            None => {
                let mut line = author_name.to_owned();
                line.append(" at an unknown time:\n");
                line.append(self.message.as_str());
                line
            },
        }
    }
}

/// Relies on chrono's DateTime::from_timestamp_millis, which answers
/// `None` instead of panicking for a count that chrono cannot represent
/// (roughly 262,000 years out; rendered as the bare number), and on
/// chrono's display formatting of the resulting UTC instant.  The text is
/// presentation only, so nothing is stated of it.
#[verifier::external_body]
fn render_stamped(author_name: &str, millis: u64, text: &str) -> String {
    match chrono::DateTime::<chrono::Utc>::from_timestamp_millis(millis as i64) {
        Some(stamp) => format!("{} at {}:\n{}", author_name, stamp, text),
        None => format!("{} at {}:\n{}", author_name, millis, text),
    }
}

/// A membership record: one user's standing in one place.  Every record
/// carries at least the Basic role; banning sets a flag instead of
/// removing the record.
#[derive(Debug)]
pub struct PlaceUser {
    pub user_id: u64,
    pub roles: Vec<RoleTemplate>,
    pub banned: bool,
}

impl PlaceUser {
    pub fn new(user_id: u64) -> (m: PlaceUser)
        ensures
            m.user_id == user_id,
            !m.banned,
            m.roles@.len() == 1,
            m.roles@[0].name@ == "Basic"@,
            m.roles@[0].perms == (RolePerms { can_talk: true, priority: 0u8 }),
    {
        let role = RoleTemplate::new_basic();
        let mut role_list: Vec<RoleTemplate> = Vec::new();
        role_list.push(role);
        PlaceUser { user_id, roles: role_list, banned: false }
    }

    pub fn add_admin_role(&mut self)
        ensures
            final(self).user_id == old(self).user_id,
            final(self).banned == old(self).banned,
            final(self).roles@.len() == old(self).roles@.len() + 1,
            final(self).roles@.drop_last() == old(self).roles@,
            final(self).roles@.last().name@ == "Admin"@,
            final(self).roles@.last().perms == (RolePerms { can_talk: true, priority: 255u8 }),
    {
        let admin = RoleTemplate::new_admin();
        self.roles.push(admin);
        proof {
            assert(self.roles@.drop_last() =~= old(self).roles@);
        }
    }

    pub fn return_roles(&self) -> (r: &Vec<RoleTemplate>)
        ensures
            *r == self.roles,
    {
        &self.roles
    }

    pub fn add_role(&mut self, new_role: RoleTemplate)
        ensures
            final(self).user_id == old(self).user_id,
            final(self).banned == old(self).banned,
            final(self).roles@ == old(self).roles@.push(new_role),
    {
        self.roles.push(new_role);
    }

    /// Applies a grant to this record: the first role of the same priority
    /// has its bundle overwritten in place, else the new role is appended.
    /// Returns whether a role was overwritten.
    pub fn grant(&mut self, new_role: RoleTemplate) -> (r: bool)
        ensures
            final(self).user_id == old(self).user_id,
            final(self).banned == old(self).banned,
            final(self).roles@ == granted(old(self).roles@, new_role),
            r == has_priority(old(self).roles@, new_role.perms.priority),
    {
        let np = new_role.perms.priority;
        let n = self.roles.len();
        let mut t: usize = 0;
        while t < n
            invariant
                t <= n,
                n == self.roles@.len(),
                *self == *old(self),
                np == new_role.perms.priority,
                forall|k: int| 0 <= k < t ==> (#[trigger] self.roles@[k]).perms.priority != np,
            decreases n - t,
        {
            if self.roles[t].perms.priority == np {
                proof {
                    lemma_first_priority_index_is(self.roles@, np, t as int);
                }
                let role_ref = &mut self.roles[t];
                role_ref.perms = new_role.perms;
                proof {
                    assert(first_priority_index(old(self).roles@, np) == t as int);
                    assert(has_priority(old(self).roles@, new_role.perms.priority));
                    assert(self.roles@ =~= old(self).roles@.update(
                        t as int,
                        RoleTemplate {
                            name: old(self).roles@[t as int].name,
                            perms: new_role.perms,
                        },
                    ));
                    assert(granted(old(self).roles@, new_role) =~= old(self).roles@.update(
                        t as int,
                        RoleTemplate {
                            name: old(self).roles@[t as int].name,
                            perms: new_role.perms,
                        },
                    ));
                }
                return true;
            }
            t += 1;
        }
        self.roles.push(new_role);
        proof {
            assert(!has_priority(old(self).roles@, np));
            assert(self.roles@ =~= granted(old(self).roles@, new_role));
        }
        false
    }
}

/// A named community space.  `admin` holds the ids of the place's
/// administrators; `members` is the membership ledger.
#[derive(Debug)]
pub struct Place {
    pub name: String,
    pub id: u64,
    pub members: Vec<PlaceUser>,
    pub admin: Vec<u64>,
    pub messages: Vec<PlaceMessage>,
    pub roles: Vec<RoleTemplate>,
}

impl Place {
    /// Some user id has a membership record here.
    pub open spec fn spec_has_member(self, uid: u64) -> bool {
        exists|j: int|
            0 <= j < self.members@.len() && (#[trigger] self.members@[j]).user_id == uid
    }

    /// The position of a user's membership record; meaningful under
    /// `members_wf`, which makes the record unique.
    pub open spec fn member_index(self, uid: u64) -> int {
        choose|j: int|
            0 <= j < self.members@.len() && (#[trigger] self.members@[j]).user_id == uid
    }

    /// The membership record of a user.
    pub open spec fn spec_member(self, uid: u64) -> PlaceUser {
        self.members@[self.member_index(uid)]
    }

    /// Every membership record carries at least one role, and no user has
    /// two records in one place.
    pub open spec fn members_wf(self) -> bool {
        &&& (forall|j: int|
            0 <= j < self.members@.len() ==> (#[trigger] self.members@[j]).roles@.len() >= 1)
        &&& (forall|j: int, k: int|
            0 <= j < k < self.members@.len() ==> (#[trigger] self.members@[j]).user_id != (
            #[trigger] self.members@[k]).user_id)
    }

    /// The role catalogue opens with the built-in templates: Basic at the
    /// lowest priority, then Admin at the maximum.
    pub open spec fn roles_wf(self) -> bool {
        &&& self.roles@.len() >= 2
        &&& self.roles@[0].perms == (RolePerms { can_talk: true, priority: 0u8 })
        &&& self.roles@[1].perms == (RolePerms { can_talk: true, priority: 255u8 })
    }

    pub open spec fn wf(self) -> bool {
        self.members_wf() && self.roles_wf()
    }

    /// A fresh place.  When an administrator id is given, that user is
    /// enrolled with the Basic and Admin roles and recorded in the
    /// administrator set; resolution of the id is the caller's concern.
    pub fn new(name: String, admin: Option<u64>, id: u64) -> (p: Place)
        ensures
            p.name == name,
            p.id == id,
            p.messages@ == Seq::<PlaceMessage>::empty(),
            p.roles@.len() == 2,
            p.roles@[0].name@ == "Basic"@,
            p.roles@[0].perms == (RolePerms { can_talk: true, priority: 0u8 }),
            p.roles@[1].name@ == "Admin"@,
            p.roles@[1].perms == (RolePerms { can_talk: true, priority: 255u8 }),
            match admin {
                Option::None => p.members@.len() == 0 && p.admin@.len() == 0,
                Option::Some(a) => {
                    &&& p.admin@.len() == 1
                    &&& p.admin@[0] == a
                    &&& p.members@.len() == 1
                    &&& p.members@[0].user_id == a
                    &&& !p.members@[0].banned
                    &&& p.members@[0].roles@.len() == 2
                    &&& p.members@[0].roles@[0].name@ == "Basic"@
                    &&& p.members@[0].roles@[0].perms == (RolePerms {
                        can_talk: true,
                        priority: 0u8,
                    })
                    &&& p.members@[0].roles@[1].name@ == "Admin"@
                    &&& p.members@[0].roles@[1].perms == (RolePerms {
                        can_talk: true,
                        priority: 255u8,
                    })
                },
            },
            p.wf(),
    {
        let mut role_list: Vec<RoleTemplate> = Vec::new();
        role_list.push(RoleTemplate::new_basic());
        role_list.push(RoleTemplate::new_admin());
        let mut p = Place {
            name,
            members: Vec::new(),
            admin: Vec::new(),
            id,
            messages: Vec::new(),
            roles: role_list,
        };
        if let Some(user) = admin {
            p.add_admin(user);
        }
        p
    }

    /// The position of a user's membership record, scanning from the front.
    fn member_position(&self, user_id: u64) -> (r: Option<usize>)
        ensures
            match r {
                Option::Some(i) => i < self.members@.len() && self.members@[i as int].user_id
                    == user_id && (forall|k: int|
                    0 <= k < i ==> (#[trigger] self.members@[k]).user_id != user_id),
                Option::None => !self.spec_has_member(user_id),
            },
    {
        let n = self.members.len();
        let mut t: usize = 0;
        while t < n
            invariant
                t <= n,
                n == self.members@.len(),
                forall|k: int| 0 <= k < t ==> (#[trigger] self.members@[k]).user_id != user_id,
            decreases n - t,
        {
            if self.members[t].user_id == user_id {
                return Some(t);
            }
            t += 1;
        }
        None
    }

    /// Enrols the user with the Basic role, unless a record already exists.
    pub fn add_user(&mut self, user_id: u64)
        ensures
            final(self).name == old(self).name,
            final(self).id == old(self).id,
            final(self).admin == old(self).admin,
            final(self).messages == old(self).messages,
            final(self).roles == old(self).roles,
            old(self).spec_has_member(user_id) ==> final(self).members == old(self).members,
            !old(self).spec_has_member(user_id) ==> {
                &&& final(self).members@.len() == old(self).members@.len() + 1
                &&& final(self).members@.drop_last() == old(self).members@
                &&& final(self).members@.last().user_id == user_id
                &&& !final(self).members@.last().banned
                &&& final(self).members@.last().roles@.len() == 1
                &&& final(self).members@.last().roles@[0].name@ == "Basic"@
                &&& final(self).members@.last().roles@[0].perms == (RolePerms {
                    can_talk: true,
                    priority: 0u8,
                })
            },
            final(self).spec_has_member(user_id),
            old(self).members_wf() ==> final(self).members_wf(),
    {
        if self.member_position(user_id).is_none() {
            let x = PlaceUser::new(user_id);
            self.members.push(x);
            proof {
                assert(self.members@.drop_last() =~= old(self).members@);
                assert(self.members@[self.members@.len() - 1].user_id == user_id);
            }
        }
    }

    /// Enrols the user as an administrator: the membership record is created
    /// with the Basic role or kept, the Admin role is appended to it, and
    /// the id is recorded in the administrator set.
    pub fn add_admin(&mut self, user_id: u64)
        ensures
            final(self).name == old(self).name,
            final(self).id == old(self).id,
            final(self).messages == old(self).messages,
            final(self).roles == old(self).roles,
            final(self).spec_has_member(user_id),
            old(self).admin@.contains(user_id) ==> final(self).admin == old(self).admin,
            !old(self).admin@.contains(user_id) ==> final(self).admin@ == old(
                self,
            ).admin@.push(user_id),
            final(self).admin@.contains(user_id),
            !old(self).spec_has_member(user_id) ==> {
                &&& final(self).members@.len() == old(self).members@.len() + 1
                &&& final(self).members@.drop_last() == old(self).members@
                &&& final(self).members@.last().user_id == user_id
                &&& !final(self).members@.last().banned
                &&& final(self).members@.last().roles@.len() == 2
                &&& final(self).members@.last().roles@[0].name@ == "Basic"@
                &&& final(self).members@.last().roles@[0].perms == (RolePerms {
                    can_talk: true,
                    priority: 0u8,
                })
                &&& final(self).members@.last().roles@[1].name@ == "Admin"@
                &&& final(self).members@.last().roles@[1].perms == (RolePerms {
                    can_talk: true,
                    priority: 255u8,
                })
            },
            old(self).spec_has_member(user_id) && old(self).members_wf() ==> {
                let mi = old(self).member_index(user_id);
                &&& final(self).members@.len() == old(self).members@.len()
                &&& (forall|j: int|
                    0 <= j < old(self).members@.len() && j != mi ==> final(self).members@[j] == old(
                    self).members@[j])
                &&& final(self).members@[mi].user_id == user_id
                &&& final(self).members@[mi].banned == old(self).members@[mi].banned
                &&& final(self).members@[mi].roles@.len() == old(self).members@[mi].roles@.len() + 1
                &&& final(self).members@[mi].roles@.drop_last() == old(self).members@[mi].roles@
                &&& final(self).members@[mi].roles@.last().name@ == "Admin"@
                &&& final(self).members@[mi].roles@.last().perms == (RolePerms {
                    can_talk: true,
                    priority: 255u8,
                })
            },
            old(self).members_wf() ==> final(self).members_wf(),
    {
        match self.member_position(user_id) {
            Some(i) => {
                proof {
                    if old(self).members_wf() {
                        lemma_member_index_is(*old(self), user_id, i as int);
                    }
                }
                self.members[i].add_admin_role();
                proof {
                    assert(self.members@[i as int].user_id == user_id);
                    assert(self.spec_has_member(user_id));
                }
            },
            None => {
                let mut x = PlaceUser::new(user_id);
                x.add_admin_role();
                self.members.push(x);
                proof {
                    assert(self.members@.drop_last() =~= old(self).members@);
                    assert(self.members@[self.members@.len() - 1].user_id == user_id);
                    assert(self.spec_has_member(user_id));
                }
            },
        }
        let ghost mid_state = *self;
        if self.find_admin(user_id).is_none() {
            self.admin.push(user_id);
            proof {
                assert(self.admin@[self.admin@.len() - 1] == user_id);
                assert(self.admin@.contains(user_id));
            }
        }
        proof {
            assert(self.members@ == mid_state.members@);
            assert(mid_state.spec_has_member(user_id));
            let wi = mid_state.member_index(user_id);
            assert(self.members@[wi].user_id == user_id);
            assert(self.spec_has_member(user_id));
        }
    }

    pub fn add_message(&mut self, message: PlaceMessage)
        ensures
            final(self).name == old(self).name,
            final(self).id == old(self).id,
            final(self).admin == old(self).admin,
            final(self).members == old(self).members,
            final(self).roles == old(self).roles,
            final(self).messages@ == old(self).messages@.push(message),
    {
        self.messages.push(message);
    }

    pub fn id(&self) -> (r: u64)
        ensures
            r == self.id,
    {
        self.id
    }

    /// The membership record of a user, if one exists.
    pub fn find_user_by_id(&self, id: u64) -> (r: Option<&PlaceUser>)
        ensures
            match r {
                Option::Some(m) => self.spec_has_member(id) && m.user_id == id && (exists|j: int|
                    0 <= j < self.members@.len() && self.members@[j] == *m),
                Option::None => !self.spec_has_member(id),
            },
            r is Some && self.members_wf() ==> *r.unwrap() == self.spec_member(id),
    {
        match self.member_position(id) {
            Some(i) => {
                proof {
                    assert(self.members@[i as int].user_id == id);
                    if self.members_wf() {
                        lemma_member_index_is(*self, id, i as int);
                    }
                }
                Some(&self.members[i])
            },
            None => None,
        }
    }

    /// Whether the user id stands in the administrator set.
    pub fn find_admin(&self, id: u64) -> (r: Option<u64>)
        ensures
            match r {
                Option::Some(x) => x == id && self.admin@.contains(id),
                Option::None => !self.admin@.contains(id),
            },
    {
        let n = self.admin.len();
        let mut t: usize = 0;
        while t < n
            invariant
                t <= n,
                n == self.admin@.len(),
                forall|k: int| 0 <= k < t ==> self.admin@[k] != id,
            decreases n - t,
        {
            if self.admin[t] == id {
                return Some(id);
            }
            t += 1;
        }
        proof {
            assert(forall|k: int| 0 <= k < self.admin@.len() ==> self.admin@[k] != id);
        }
        None
    }

    pub fn return_role_vec(&self) -> (r: &Vec<RoleTemplate>)
        ensures
            *r == self.roles,
    {
        &self.roles
    }

    /// Appends a template to the place's role catalogue.
    pub fn add_role(&mut self, new_role: RoleTemplate)
        ensures
            final(self).name == old(self).name,
            final(self).id == old(self).id,
            final(self).admin == old(self).admin,
            final(self).members == old(self).members,
            final(self).messages == old(self).messages,
            final(self).roles@ == old(self).roles@.push(new_role),
            old(self).roles_wf() ==> final(self).roles_wf(),
    {
        self.roles.push(new_role);
    }

    pub fn find_role_by_id(&self, role_id: usize) -> (r: Option<&RoleTemplate>)
        ensures
            match r {
                Option::Some(role) => role_id < self.roles@.len() && *role == self.roles@[
                    role_id as int],
                Option::None => role_id >= self.roles@.len(),
            },
    {
        if role_id < self.roles.len() {
            Some(&self.roles[role_id])
        } else {
            None
        }
    }

    /// The effective permissions of a member: the bundle of the first role
    /// of maximal priority among the roles granted to them.
    pub fn return_perms(&self, user_id: u64) -> (r: RolePerms)
        requires
            self.members_wf(),
            self.spec_has_member(user_id),
        ensures
            r == resolved(self.spec_member(user_id).roles@),
    {
        let pos = self.member_position(user_id);
        proof {
            if pos is None {
                assert(!self.spec_has_member(user_id));
            }
        }
        let i = pos.unwrap();
        proof {
            lemma_member_index_is(*self, user_id, i as int);
        }
        let member = &self.members[i];
        let n = member.roles.len();
        let mut best = member.roles[0].perms;
        let mut t: usize = 1;
        proof {
            assert(member.roles@.subrange(0, 1).len() == 1);
            assert(member.roles@.subrange(0, 1)[0] == member.roles@[0]);
        }
        while t < n
            invariant
                1 <= t <= n,
                n == member.roles@.len(),
                best == resolved(member.roles@.subrange(0, t as int)),
            decreases n - t,
        {
            let p = member.roles[t].perms;
            proof {
                let s1 = member.roles@.subrange(0, t as int + 1);
                assert(s1.drop_last() =~= member.roles@.subrange(0, t as int));
                assert(s1[s1.len() - 1] == member.roles@[t as int]);
            }
            if best.priority < p.priority {
                best = p;
            }
            t += 1;
        }
        proof {
            assert(member.roles@.subrange(0, n as int) =~= member.roles@);
        }
        best
    }

    /// Applies a grant to a member's record: the first role of the same
    /// priority is overwritten in place (the record does not grow), else
    /// the new role is appended.  Returns the overwritten bundle, or the
    /// member's effective permissions after an append.
    pub fn update_roles(&mut self, user_id: u64, new_role: RoleTemplate) -> (r: Result<
        RolePerms,
        SimError,
    >)
        requires
            old(self).members_wf(),
        ensures
            final(self).name == old(self).name,
            final(self).id == old(self).id,
            final(self).admin == old(self).admin,
            final(self).messages == old(self).messages,
            final(self).roles == old(self).roles,
            final(self).members_wf(),
            !old(self).spec_has_member(user_id) ==> r == Err::<RolePerms, SimError>(
                SimError::NotFound,
            ) && final(self).members == old(self).members,
            old(self).spec_has_member(user_id) ==> {
                let mi = old(self).member_index(user_id);
                &&& final(self).members@.len() == old(self).members@.len()
                &&& (forall|j: int|
                    0 <= j < old(self).members@.len() && j != mi ==> final(self).members@[j] == old(
                    self).members@[j])
                &&& final(self).members@[mi].user_id == user_id
                &&& final(self).members@[mi].banned == old(self).members@[mi].banned
                &&& final(self).members@[mi].roles@ == granted(
                    old(self).members@[mi].roles@,
                    new_role,
                )
                &&& r == Ok::<RolePerms, SimError>(
                    if has_priority(old(self).members@[mi].roles@, new_role.perms.priority) {
                        new_role.perms
                    } else {
                        resolved(granted(old(self).members@[mi].roles@, new_role))
                    },
                )
            },
    {
        let pos = self.member_position(user_id);
        let i = match pos {
            Some(x) => x,
            None => {
                return Err(SimError::NotFound);
            },
        };
        proof {
            lemma_member_index_is(*old(self), user_id, i as int);
        }
        let new_perms = new_role.perms;
        let overwritten = self.members[i].grant(new_role);
        proof {
            assert forall|j: int| 0 <= j < self.members@.len() implies (
            #[trigger] self.members@[j]).user_id == old(self).members@[j].user_id by {}
            assert forall|j: int| 0 <= j < self.members@.len() implies (
            #[trigger] self.members@[j]).roles@.len() >= 1 by {
                assert(old(self).members@[j].roles@.len() >= 1);
                if j == i as int {
                    assert(self.members@[j].roles@ == granted(
                        old(self).members@[j].roles@,
                        new_role,
                    ));
                    roles::lemma_granted_len(old(self).members@[j].roles@, new_role);
                } else {
                    assert(self.members@[j] == old(self).members@[j]);
                }
            }
            assert forall|j: int, k: int| 0 <= j < k < self.members@.len() implies (
            #[trigger] self.members@[j]).user_id != (#[trigger] self.members@[k]).user_id by {
                assert(old(self).members@[j].user_id != old(self).members@[k].user_id);
            }
            assert(self.members_wf());
            lemma_member_index_is(*self, user_id, i as int);
        }
        if overwritten {
            Ok(new_perms)
        } else {
            Ok(self.return_perms(user_id))
        }
    }

    /// Grants a role to a member, overwriting a held role of the same
    /// priority rather than duplicating it; a user with no record here is
    /// left alone.
    pub fn grant_role(&mut self, user_id: u64, new_role: RoleTemplate)
        requires
            old(self).members_wf(),
        ensures
            final(self).name == old(self).name,
            final(self).id == old(self).id,
            final(self).admin == old(self).admin,
            final(self).messages == old(self).messages,
            final(self).roles == old(self).roles,
            final(self).members_wf(),
            !old(self).spec_has_member(user_id) ==> final(self).members == old(self).members,
            old(self).spec_has_member(user_id) ==> {
                let mi = old(self).member_index(user_id);
                &&& final(self).members@.len() == old(self).members@.len()
                &&& (forall|j: int|
                    0 <= j < old(self).members@.len() && j != mi ==> final(self).members@[j] == old(
                    self).members@[j])
                &&& final(self).members@[mi].user_id == user_id
                &&& final(self).members@[mi].banned == old(self).members@[mi].banned
                &&& final(self).members@[mi].roles@ == granted(
                    old(self).members@[mi].roles@,
                    new_role,
                )
            },
    {
        let _ = self.update_roles(user_id, new_role);
    }

    /// The first template in the catalogue whose name equals the given one
    /// up to case.
    pub fn find_role_by_name(&self, role_name: String) -> (r: Option<&RoleTemplate>)
        ensures
            match r {
                Option::Some(role) => exists|j: int|
                    0 <= j < self.roles@.len() && self.roles@[j] == *role && name_matches(
                        (#[trigger] self.roles@[j]).name@,
                        role_name@,
                    ) && (forall|k: int|
                        0 <= k < j ==> !name_matches((#[trigger] self.roles@[k]).name@, role_name@)),
                Option::None => forall|j: int|
                    0 <= j < self.roles@.len() ==> !name_matches(
                        (#[trigger] self.roles@[j]).name@,
                        role_name@,
                    ),
            },
    {
        let target = lowercase(role_name.as_str());
        let n = self.roles.len();
        let mut t: usize = 0;
        while t < n
            invariant
                t <= n,
                n == self.roles@.len(),
                target@ == lower_of(role_name@),
                forall|k: int|
                    0 <= k < t ==> !name_matches((#[trigger] self.roles@[k]).name@, role_name@),
            decreases n - t,
        {
            let candidate = lowercase(self.roles[t].name.as_str());
            if candidate == target {
                return Some(&self.roles[t]);
            }
            t += 1;
        }
        None
    }

    /// Sets the ban flag on a user's membership record; reports whether the
    /// user is now banned (false when no record exists).
    pub fn ban_user(&mut self, user_id: u64) -> (r: bool)
        requires
            old(self).members_wf(),
        ensures
            final(self).name == old(self).name,
            final(self).id == old(self).id,
            final(self).admin == old(self).admin,
            final(self).messages == old(self).messages,
            final(self).roles == old(self).roles,
            r == old(self).spec_has_member(user_id),
            !old(self).spec_has_member(user_id) ==> final(self).members == old(self).members,
            old(self).spec_has_member(user_id) ==> final(self).members@ == old(
                self,
            ).members@.update(
                old(self).member_index(user_id),
                PlaceUser {
                    user_id,
                    roles: old(self).spec_member(user_id).roles,
                    banned: true,
                },
            ),
            final(self).members_wf(),
    {
        match self.member_position(user_id) {
            None => false,
            Some(i) => {
                proof {
                    lemma_member_index_is(*old(self), user_id, i as int);
                }
                self.members[i].banned = true;
                true
            },
        }
    }

    /// Whether the user is banned here; a user with no membership record
    /// counts as not banned.
    pub fn is_banned(&self, user: u64) -> (r: bool)
        requires
            self.members_wf(),
        ensures
            r == (self.spec_has_member(user) && self.spec_member(user).banned),
    {
        match self.find_user_by_id(user) {
            Some(member) => member.banned,
            None => false,
        }
    }
}

/// A membership record found at a position is the record that the
/// ledger's spec functions denote: under `members_wf` it is unique.
proof fn lemma_member_index_is(p: Place, uid: u64, i: int)
    requires
        p.members_wf(),
        0 <= i < p.members@.len(),
        p.members@[i].user_id == uid,
    ensures
        p.spec_has_member(uid),
        p.member_index(uid) == i,
        p.spec_member(uid) == p.members@[i],
{
    assert(p.spec_has_member(uid));
    let j = p.member_index(uid);
    assert(0 <= j < p.members@.len() && p.members@[j].user_id == uid);
    if j < i {
        assert(p.members@[j].user_id != p.members@[i].user_id);
    } else if i < j {
        assert(p.members@[i].user_id != p.members@[j].user_id);
    }
}

} // verus!
