//! Role templates and permission bundles, together with the resolution
//! logic that picks a member's effective permissions out of the roles
//! granted to them.

use vstd::prelude::*;

verus! {

/// A permission bundle: whether the holder may post, and a priority that
/// orders roles during resolution (higher wins, ties keep the first
/// encountered).
#[derive(Clone, Copy, Debug)]
pub struct RolePerms {
    pub can_talk: bool,
    pub priority: u8,
}

impl RolePerms {
    pub fn new(message: bool, priority: u8) -> (r: RolePerms)
        ensures
            r == (RolePerms { can_talk: message, priority }),
    {
        RolePerms { can_talk: message, priority }
    }

    /// The administrator bundle: full rights at the maximum priority.
    pub fn new_admin() -> (r: RolePerms)
        ensures
            r == (RolePerms { can_talk: true, priority: 255u8 }),
    {
        RolePerms { can_talk: true, priority: 255 }
    }
}

/// The interface of a permission bundle holder: its bundle can be read and
/// overwritten in place.  The two spec functions expose the model that the
/// contracts speak of.
pub trait RoleTrait {
    spec fn perms_model(&self) -> RolePerms;

    spec fn name_model(&self) -> Seq<char>;

    fn return_perms(&self) -> (r: RolePerms)
        ensures
            r == self.perms_model(),
    ;

    fn update_perms(&mut self, source: RolePerms) -> (r: RolePerms)
        ensures
            final(self).perms_model() == source,
            final(self).name_model() == old(self).name_model(),
            r == source,
    ;
}

/// A named permission bundle.  Roles are never deleted; re-applying a role
/// of the same priority overwrites the bundle in place.
#[derive(Debug, Clone)]
pub struct RoleTemplate {
    pub name: String,
    pub perms: RolePerms,
}

impl RoleTemplate {
    pub fn new(name: String, priority: u8) -> (r: RoleTemplate)
        ensures
            r.name == name,
            r.perms == (RolePerms { can_talk: true, priority }),
    {
        RoleTemplate { name, perms: RolePerms::new(true, priority) }
    }

    /// The built-in role every member holds, at the lowest priority.
    pub fn new_basic() -> (r: RoleTemplate)
        ensures
            r.name@ == "Basic"@,
            r.perms == (RolePerms { can_talk: true, priority: 0u8 }),
    {
        Self::new("Basic".to_owned(), 0)
    }

    /// The built-in administrator role, at the maximum priority.
    pub fn new_admin() -> (r: RoleTemplate)
        ensures
            r.name@ == "Admin"@,
            r.perms == (RolePerms { can_talk: true, priority: 255u8 }),
    {
        RoleTemplate { name: "Admin".to_owned(), perms: RolePerms::new_admin() }
    }
}

impl RoleTrait for RoleTemplate {
    open spec fn perms_model(&self) -> RolePerms {
        self.perms
    }

    open spec fn name_model(&self) -> Seq<char> {
        self.name@
    }

    fn return_perms(&self) -> (r: RolePerms) {
        self.perms
    }

    fn update_perms(&mut self, source: RolePerms) -> (r: RolePerms) {
        self.perms = source;
        self.perms
    }
}

/// The effective permissions of a role collection: the bundle of the role
/// with the strictly highest priority, ties keeping the first encountered.
pub open spec fn resolved(roles: Seq<RoleTemplate>) -> RolePerms
    recommends
        roles.len() > 0,
    decreases roles.len(),
{
    if roles.len() <= 1 {
        roles[0].perms
    } else {
        let prev = resolved(roles.drop_last());
        let last = roles[roles.len() - 1].perms;
        if prev.priority < last.priority {
            last
        } else {
            prev
        }
    }
}

/// Some role in the collection carries the given priority.
pub open spec fn has_priority(roles: Seq<RoleTemplate>, p: u8) -> bool {
    exists|j: int| 0 <= j < roles.len() && (#[trigger] roles[j]).perms.priority == p
}

/// The position of the first role carrying the given priority.
pub open spec fn first_priority_index(roles: Seq<RoleTemplate>, p: u8) -> int {
    choose|j: int|
        0 <= j < roles.len() && (#[trigger] roles[j]).perms.priority == p && (forall|k: int|
            0 <= k < j ==> (#[trigger] roles[k]).perms.priority != p)
}

/// A role collection after a grant: when a role of the same priority is
/// already held, its bundle is overwritten in place (the collection does
/// not grow); otherwise the new role is appended.
pub open spec fn granted(roles: Seq<RoleTemplate>, new_role: RoleTemplate) -> Seq<RoleTemplate> {
    if has_priority(roles, new_role.perms.priority) {
        let f = first_priority_index(roles, new_role.perms.priority);
        roles.update(f, RoleTemplate { name: roles[f].name, perms: new_role.perms })
    } else {
        roles.push(new_role)
    }
}

/// Wherever some role carries a priority, a first such role exists.
pub proof fn lemma_first_priority_exists(roles: Seq<RoleTemplate>, p: u8)
    requires
        has_priority(roles, p),
    ensures
        exists|j: int|
            0 <= j < roles.len() && (#[trigger] roles[j]).perms.priority == p && (forall|k: int|
                0 <= k < j ==> (#[trigger] roles[k]).perms.priority != p),
{
    let w = choose|j: int| 0 <= j < roles.len() && (#[trigger] roles[j]).perms.priority == p;
    lemma_first_priority_from(roles, p, w);
}

proof fn lemma_first_priority_from(roles: Seq<RoleTemplate>, p: u8, w: int)
    requires
        0 <= w < roles.len(),
        roles[w].perms.priority == p,
    ensures
        exists|j: int|
            0 <= j < roles.len() && (#[trigger] roles[j]).perms.priority == p && (forall|k: int|
                0 <= k < j ==> (#[trigger] roles[k]).perms.priority != p),
    decreases w,
{
    if forall|k: int| 0 <= k < w ==> (#[trigger] roles[k]).perms.priority != p {
        assert(0 <= w < roles.len() && roles[w].perms.priority == p && (forall|k: int|
            0 <= k < w ==> (#[trigger] roles[k]).perms.priority != p));
    } else {
        let k = choose|k: int| 0 <= k < w && (#[trigger] roles[k]).perms.priority == p;
        lemma_first_priority_from(roles, p, k);
    }
}

/// A grant never shrinks a role collection: an overwrite keeps its length,
/// an append grows it by one.
pub proof fn lemma_granted_len(roles: Seq<RoleTemplate>, new_role: RoleTemplate)
    ensures
        has_priority(roles, new_role.perms.priority) ==> granted(roles, new_role).len()
            == roles.len(),
        !has_priority(roles, new_role.perms.priority) ==> granted(roles, new_role).len()
            == roles.len() + 1,
{
    let p = new_role.perms.priority;
    if has_priority(roles, p) {
        lemma_first_priority_exists(roles, p);
        let f = first_priority_index(roles, p);
        assert(0 <= f < roles.len() && roles[f].perms.priority == p && (forall|k: int|
            0 <= k < f ==> (#[trigger] roles[k]).perms.priority != p));
    }
}

/// The first position carrying a priority is the position that
/// `first_priority_index` denotes.
pub proof fn lemma_first_priority_index_is(roles: Seq<RoleTemplate>, p: u8, i: int)
    requires
        0 <= i < roles.len(),
        roles[i].perms.priority == p,
        forall|k: int| 0 <= k < i ==> (#[trigger] roles[k]).perms.priority != p,
    ensures
        has_priority(roles, p),
        first_priority_index(roles, p) == i,
{
    assert(has_priority(roles, p));
    let j = first_priority_index(roles, p);
    assert(0 <= j < roles.len() && roles[j].perms.priority == p && (forall|k: int|
        0 <= k < j ==> (#[trigger] roles[k]).perms.priority != p));
    if j < i {
        assert(roles[j].perms.priority != p);
    } else if i < j {
        assert(roles[i].perms.priority != p);
    }
}

/// Resolution picks the first role of maximal priority: the result is the
/// bundle of a role whose priority no role exceeds and which no earlier
/// role reaches.
pub proof fn lemma_resolved_is_first_max(roles: Seq<RoleTemplate>)
    requires
        roles.len() > 0,
    ensures
        exists|k: int|
            0 <= k < roles.len() && resolved(roles) == roles[k].perms && (forall|j: int|
                0 <= j < roles.len() ==> (#[trigger] roles[j].perms).priority
                    <= roles[k].perms.priority) && (forall|j: int|
                0 <= j < k ==> (#[trigger] roles[j].perms).priority < roles[k].perms.priority),
    decreases roles.len(),
{
    if roles.len() == 1 {
        assert(resolved(roles) == roles[0].perms);
    } else {
        let prefix = roles.drop_last();
        lemma_resolved_is_first_max(prefix);
        let k0 = choose|k: int|
            0 <= k < prefix.len() && resolved(prefix) == prefix[k].perms && (forall|j: int|
                0 <= j < prefix.len() ==> (#[trigger] prefix[j].perms).priority
                    <= prefix[k].perms.priority) && (forall|j: int|
                0 <= j < k ==> (#[trigger] prefix[j].perms).priority < prefix[k].perms.priority);
        let last = roles.len() - 1;
        if resolved(prefix).priority < roles[last].perms.priority {
            assert forall|j: int| 0 <= j < roles.len() implies (#[trigger] roles[j].perms).priority
                <= roles[last].perms.priority by {
                if j < last {
                    assert(roles[j].perms == prefix[j].perms);
                    assert(prefix[j].perms.priority <= prefix[k0].perms.priority);
                    assert(prefix[k0].perms == resolved(prefix));
                }
            }
            assert forall|j: int| 0 <= j < last implies (#[trigger] roles[j].perms).priority
                < roles[last].perms.priority by {
                assert(roles[j].perms == prefix[j].perms);
                assert(prefix[j].perms.priority <= prefix[k0].perms.priority);
                assert(prefix[k0].perms == resolved(prefix));
            }
        } else {
            assert(resolved(roles) == prefix[k0].perms);
            assert(roles[k0].perms == prefix[k0].perms);
            assert forall|j: int| 0 <= j < roles.len() implies (#[trigger] roles[j].perms).priority
                <= roles[k0].perms.priority by {
                if j < last {
                    assert(roles[j].perms == prefix[j].perms);
                    assert(prefix[j].perms.priority <= prefix[k0].perms.priority);
                } else {
                    assert(roles[last].perms.priority <= resolved(prefix).priority);
                }
            }
            assert forall|j: int| 0 <= j < k0 implies (#[trigger] roles[j].perms).priority
                < roles[k0].perms.priority by {
                assert(roles[j].perms == prefix[j].perms);
            }
        }
    }
}

} // verus!
