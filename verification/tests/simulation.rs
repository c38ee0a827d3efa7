use nas::Simulation;
use nas::SimError;
use nas::user::User;
use nas::place::Place;

#[test]
fn check_logged_start() {
    let sim = Simulation::new();
    assert_eq!(false, sim.logged());
}

#[test]
fn check_logged() {
    let mut sim = Simulation::new();
    sim.create_user("test".to_string(), "1234".to_string());
    match sim.log_in("test".to_string(), "1234".to_string()) {
        Ok(x) => x,
        Err(_) => {
            panic!("login should have succeeded")
        }
    };
}

#[test]
fn check_user_partialeq() {
    let place = Place::new("test_place".to_string(), None, 1);
    let user1 = User::new("test1".to_string(), "123".to_string(), 1, place.id());
    let user2 = User::new("test2".to_string(), "321".to_string(), 1, place.id());

    assert_eq!(user1, user2);
}

#[test]
fn check_admin() {
    let mut sim = Simulation::new();
    let id = sim.create_user("test".to_string(), "1234".to_string());
    let place_id = sim.create_place("Debug".to_string(), id);
    assert!(sim.is_admin_in_server(id, place_id));
}

#[test]
fn user_ids_increase_from_zero() {
    let mut sim = Simulation::new();
    let a = sim.create_user("a".to_string(), "1".to_string());
    let b = sim.create_user("b".to_string(), "2".to_string());
    let c = sim.create_user("c".to_string(), "3".to_string());
    assert_eq!(a, 0);
    assert_eq!(b, 1);
    assert_eq!(c, 2);
}

#[test]
fn default_place_exists_without_admin() {
    let sim = Simulation::new();
    let place = sim.get_place_by_id(0).unwrap();
    assert_eq!(place.id(), 0);
    assert!(place.find_admin(0).is_none());
    assert!(!sim.is_admin_in_server(0, 0));
}

#[test]
fn new_user_member_of_default_place_with_basic_role() {
    let mut sim = Simulation::new();
    let id = sim.create_user("fresh".to_string(), "pw".to_string());
    let place = sim.get_place_by_id(0).unwrap();
    let record = place.find_user_by_id(id).expect("fresh user should be enrolled");
    assert!(!record.banned);
    assert_eq!(record.return_roles().len(), 1);
    assert_eq!(record.return_roles()[0].name, "Basic");
}

#[test]
fn login_success_opens_session() {
    let mut sim = Simulation::new();
    let id = sim.create_user("alice".to_string(), "pw".to_string());
    assert_eq!(sim.log_in("alice".to_string(), "pw".to_string()), Ok(()));
    assert!(sim.logged());
    let current = sim.return_current_user().unwrap();
    assert_eq!(current.id(), id);
}

#[test]
fn login_wrong_password() {
    let mut sim = Simulation::new();
    sim.create_user("alice".to_string(), "pw".to_string());
    assert_eq!(
        sim.log_in("alice".to_string(), "nope".to_string()),
        Err(SimError::WrongCredentials)
    );
    assert!(!sim.logged());
}

#[test]
fn login_unknown_user() {
    let mut sim = Simulation::new();
    sim.create_user("alice".to_string(), "pw".to_string());
    assert_eq!(
        sim.log_in("bob".to_string(), "pw".to_string()),
        Err(SimError::UserNotFound)
    );
}

#[test]
fn duplicated_login_resolves_to_first_match() {
    let mut sim = Simulation::new();
    sim.create_user("alice".to_string(), "first".to_string());
    sim.create_user("alice".to_string(), "second".to_string());
    // the first user with the login decides, so the later user's password
    // is not reachable through login
    assert_eq!(
        sim.log_in("alice".to_string(), "second".to_string()),
        Err(SimError::WrongCredentials)
    );
    assert_eq!(sim.log_in("alice".to_string(), "first".to_string()), Ok(()));
    assert_eq!(sim.return_current_user().unwrap().id(), 0);
}

#[test]
fn logout_is_idempotent() {
    let mut sim = Simulation::new();
    sim.create_user("alice".to_string(), "pw".to_string());
    sim.log_in("alice".to_string(), "pw".to_string()).unwrap();
    assert!(sim.logged());
    sim.log_off();
    assert!(!sim.logged());
    sim.log_off();
    assert!(!sim.logged());
}

#[test]
fn ban_requires_admin_session() {
    let mut sim = Simulation::new();
    let alice = sim.create_user("alice".to_string(), "pw1".to_string());
    let bob = sim.create_user("bob".to_string(), "pw2".to_string());
    sim.log_in("bob".to_string(), "pw2".to_string()).unwrap();
    assert_eq!(sim.ban_user(alice), Err(SimError::NotAdmin));
    assert_eq!(bob, 1);
}

#[test]
fn admin_bans_member_and_reports_missing_member() {
    let mut sim = Simulation::new();
    let alice = sim.create_user("alice".to_string(), "pw1".to_string());
    let bob = sim.create_user("bob".to_string(), "pw2".to_string());
    let town = sim.create_place("Town".to_string(), alice);
    sim.log_in("alice".to_string(), "pw1".to_string()).unwrap();
    assert!(sim.change_place(town).is_none());
    // bob never entered the town, so he cannot be banned there
    assert_eq!(sim.ban_user(bob), Ok(false));
    // alice herself is a member there, so the ban lands
    assert_eq!(sim.ban_user(alice), Ok(true));
    let place = sim.get_place_by_id(town).unwrap();
    assert!(place.is_banned(alice));
    assert!(!place.is_banned(bob));
}

#[test]
fn scenario_place_creation_grants_admin_there_only() {
    let mut sim = Simulation::new();
    let alice = sim.create_user("Alice".to_string(), "pw1".to_string());
    assert_eq!(alice, 0);
    let town = sim.create_place("Town".to_string(), 0);
    assert_eq!(town, 1);
    assert!(sim.is_admin_in_server(0, 1));
    assert!(!sim.is_admin_in_server(0, 0));
}

#[test]
fn scenario_posted_message_lands_in_place_log() {
    let mut sim = Simulation::new();
    sim.create_user("Alice".to_string(), "pw1".to_string());
    sim.create_place("Town".to_string(), 0);
    sim.log_in("Alice".to_string(), "pw1".to_string()).unwrap();
    assert!(sim.change_place(1).is_none());
    let before = sim.get_place_by_id(1).unwrap().messages.len();
    sim.send_message("hi");
    let place = sim.get_place_by_id(1).unwrap();
    assert_eq!(place.messages.len(), before + 1);
    let message = &place.messages[place.messages.len() - 1];
    assert_eq!(message.message, "hi");
    let author = sim.get_user_by_id(message.author_id).unwrap();
    assert_eq!(author.name(), "Alice");
    assert_eq!(sim.return_current_place_messages().len(), before + 1);
}

#[test]
fn send_message_without_session_is_noop() {
    let mut sim = Simulation::new();
    sim.send_message("ignored");
    assert_eq!(sim.get_place_by_id(0).unwrap().messages.len(), 0);
}

#[test]
fn change_place_unknown_id_fails() {
    let mut sim = Simulation::new();
    sim.create_user("alice".to_string(), "pw".to_string());
    sim.log_in("alice".to_string(), "pw".to_string()).unwrap();
    assert_eq!(sim.change_place(9), Some(SimError::PlaceNotFound));
}

#[test]
fn reset_place_returns_to_default() {
    let mut sim = Simulation::new();
    sim.create_user("alice".to_string(), "pw".to_string());
    sim.create_place("Town".to_string(), 0);
    sim.log_in("alice".to_string(), "pw".to_string()).unwrap();
    assert!(sim.change_place(1).is_none());
    assert_eq!(sim.return_current_place().id(), 1);
    sim.reset_place();
    assert_eq!(sim.return_current_place().id(), 0);
}

#[test]
fn get_user_by_id_unknown_is_not_found() {
    let sim = Simulation::new();
    assert!(matches!(sim.get_user_by_id(5), Err(SimError::NotFound)));
    assert!(matches!(sim.get_place_by_id(5), Err(SimError::NotFound)));
}

#[test]
fn login_data_hands_back_both_parts() {
    let data = nas::io::LoginData("user".to_string(), "secret".to_string());
    assert_eq!(data.login(), "user");
    assert_eq!(data.password(), "secret");
}
