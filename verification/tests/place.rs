use nas::SimError;
use nas::place::Place;
use nas::place::roles::{RolePerms, RoleTemplate, RoleTrait};

#[test]
fn check_clone() {
    let mut role1 = RoleTemplate::new("test".to_string(), 0);
    role1.perms.can_talk = false;
    let perms = role1.return_perms();
    assert_eq!(role1.perms.can_talk, perms.can_talk);
}

#[test]
fn resolver_prefers_highest_priority() {
    let mut place = Place::new("arena".to_string(), None, 0);
    place.add_user(7);
    // Basic stays at priority 0 with can_talk = true; a Muted role at
    // priority 10 with can_talk = false must win the resolution.
    let mut muted = RoleTemplate::new("Muted".to_string(), 10);
    muted.update_perms(RolePerms::new(false, 10));
    place.update_roles(7, muted).unwrap();
    let perms = place.return_perms(7);
    assert_eq!(perms.priority, 10);
    assert!(!perms.can_talk);
}

#[test]
fn granting_same_priority_twice_keeps_count() {
    let mut place = Place::new("arena".to_string(), None, 0);
    place.add_user(3);
    let mut first = RoleTemplate::new("Muted".to_string(), 10);
    first.update_perms(RolePerms::new(false, 10));
    place.grant_role(3, first);
    let count_after_first = place.find_user_by_id(3).unwrap().return_roles().len();
    let mut second = RoleTemplate::new("Muted".to_string(), 10);
    second.update_perms(RolePerms::new(true, 10));
    place.grant_role(3, second);
    let record = place.find_user_by_id(3).unwrap();
    assert_eq!(record.return_roles().len(), count_after_first);
    // the bundle was overwritten in place, not duplicated
    let perms = place.return_perms(3);
    assert_eq!(perms.priority, 10);
    assert!(perms.can_talk);
}

#[test]
fn update_roles_unknown_member_is_not_found() {
    let mut place = Place::new("arena".to_string(), None, 0);
    let role = RoleTemplate::new("Muted".to_string(), 10);
    assert!(matches!(place.update_roles(9, role), Err(SimError::NotFound)));
}

#[test]
fn find_role_by_name_ignores_case() {
    let place = Place::new("arena".to_string(), None, 0);
    let found = place.find_role_by_name("bASIc".to_string()).expect("Basic should be found");
    assert_eq!(found.name, "Basic");
    let admin = place.find_role_by_name("ADMIN".to_string()).expect("Admin should be found");
    assert_eq!(admin.name, "Admin");
    assert!(place.find_role_by_name("nothing".to_string()).is_none());
}

#[test]
fn find_role_by_id_indexes_catalogue() {
    let mut place = Place::new("arena".to_string(), None, 0);
    assert_eq!(place.find_role_by_id(0).unwrap().name, "Basic");
    assert_eq!(place.find_role_by_id(1).unwrap().name, "Admin");
    assert!(place.find_role_by_id(2).is_none());
    place.add_role(RoleTemplate::new("Muted".to_string(), 10));
    assert_eq!(place.find_role_by_id(2).unwrap().name, "Muted");
    assert_eq!(place.return_role_vec().len(), 3);
}

#[test]
fn is_banned_false_for_non_member() {
    let mut place = Place::new("arena".to_string(), None, 0);
    assert!(!place.is_banned(4));
    place.add_user(4);
    assert!(!place.is_banned(4));
    assert!(place.ban_user(4));
    assert!(place.is_banned(4));
    assert!(!place.ban_user(99));
}

#[test]
fn place_with_admin_enrols_them() {
    let place = Place::new("arena".to_string(), Some(6), 2);
    assert_eq!(place.find_admin(6), Some(6));
    assert!(place.find_admin(7).is_none());
    let record = place.find_user_by_id(6).unwrap();
    let roles = record.return_roles();
    assert_eq!(roles.len(), 2);
    assert_eq!(roles[0].name, "Basic");
    assert_eq!(roles[1].name, "Admin");
    assert_eq!(roles[1].return_perms().priority, u8::MAX);
}
