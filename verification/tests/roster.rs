use visit_roster::api;
use visit_roster::registry::Registry;
use visit_roster::room::PlayerData;
use visit_roster::room::Room;
use visit_roster::service::Request;
use visit_roster::service::Update;
use visit_roster::service::apply;
use visit_roster::service::publish;
use visit_roster::service::render_update;

fn expected_player(id: u64, name: &str, visited: bool) -> String {
    let button_text = if visited { "Already visited" } else { "Visit" };
    let disabled = if visited { " disabled" } else { "" };
    let button = format!(
        "\n            <button hx-post=\"/visited\"{disabled} hx-vals='{{\"visited_id\":{id}}}'>\n                {button_text}\n            </button>\n        "
    );
    format!(
        "\n            <tr id=\"player-{id}\">\n                <td>{name}</td>\n                <td>{button}</td>\n            </tr>"
    )
}

fn expected_list(rows: &[String]) -> String {
    let mut out = String::from("<table id=\"room-list\">");
    for r in rows {
        out.push_str(r);
    }
    out.push_str("</table>");
    out
}

fn names_and_ids(room: &Room) -> Vec<(u64, String, bool)> {
    room.all_players()
        .iter()
        .map(|p| (p.id, p.name.clone(), p.visited))
        .collect()
}

#[test]
fn empty_roster_renders_bare_table() {
    let room = Room::new();
    let html = api::player_list(&room.all_players());
    assert_eq!(html, "<table id=\"room-list\"></table>");
}

#[test]
fn u64_rendering_exact() {
    assert_eq!(api::u64_to_string(0), "0");
    assert_eq!(api::u64_to_string(7), "7");
    assert_eq!(api::u64_to_string(10), "10");
    assert_eq!(api::u64_to_string(1234567890), "1234567890");
    assert_eq!(api::u64_to_string(u64::MAX), "18446744073709551615");
}

#[test]
fn player_row_renders_exactly() {
    let p = PlayerData { id: 5, name: String::from("Zed"), visited: false };
    assert_eq!(api::player(&p), expected_player(5, "Zed", false));
}

#[test]
fn visited_player_row_is_disabled() {
    let p = PlayerData { id: 3, name: String::from("Ada"), visited: true };
    let html = api::player(&p);
    assert_eq!(html, expected_player(3, "Ada", true));
    assert!(html.contains(" disabled"));
    assert!(html.contains("Already visited"));
}

#[test]
fn rename_from_empty_creates_players() {
    // the start of the walked-through scenario: two creations
    let mut room = Room::new();
    room.change_name("", "Alice");
    assert_eq!(names_and_ids(&room), vec![(0, String::from("Alice"), false)]);
    room.change_name("", "Bob");
    assert_eq!(
        names_and_ids(&room),
        vec![(0, String::from("Alice"), false), (1, String::from("Bob"), false)]
    );
}

#[test]
fn visit_marks_target_and_returns_it() {
    let mut room = Room::new();
    room.change_name("", "Alice");
    room.change_name("", "Bob");
    let got = room.visited(0, "Bob").unwrap().unwrap();
    assert_eq!((got.id, got.name.as_str(), got.visited), (0, "Alice", true));
    assert_eq!(
        names_and_ids(&room),
        vec![(0, String::from("Alice"), true), (1, String::from("Bob"), false)]
    );
}

#[test]
fn visit_with_unknown_visitor_fails_and_moves_nothing() {
    let mut room = Room::new();
    room.change_name("", "Alice");
    let before = names_and_ids(&room);
    assert!(room.visited(0, "Nobody").is_err());
    assert_eq!(names_and_ids(&room), before);
}

#[test]
fn visit_of_unknown_id_is_silent_noop() {
    let mut room = Room::new();
    room.change_name("", "Alice");
    let before = names_and_ids(&room);
    let got = room.visited(99, "Alice").unwrap();
    assert!(got.is_none());
    assert_eq!(names_and_ids(&room), before);
}

#[test]
fn clear_twice_is_idempotent() {
    let mut room = Room::new();
    room.change_name("", "Alice");
    room.change_name("", "Bob");
    room.visited(0, "Bob").unwrap().unwrap();
    let first = room.cleared("Alice").unwrap();
    assert_eq!((first.id, first.name.as_str(), first.visited), (0, "Alice", false));
    let state = names_and_ids(&room);
    let second = room.cleared("Alice").unwrap();
    assert_eq!((second.id, second.name.as_str(), second.visited), (0, "Alice", false));
    assert_eq!(names_and_ids(&room), state);
}

#[test]
fn clear_of_unknown_name_returns_none() {
    let mut room = Room::new();
    assert!(room.cleared("Ghost").is_none());
}

#[test]
fn rename_collision_evicts_other_player() {
    // claiming a taken name: the other player goes, identity stays
    let mut room = Room::new();
    room.change_name("", "Alice");
    room.change_name("", "Bob");
    room.visited(0, "Bob").unwrap().unwrap();
    room.change_name("Alice", "Bob");
    assert_eq!(names_and_ids(&room), vec![(0, String::from("Bob"), true)]);
}

#[test]
fn rename_to_taken_name_without_actor_is_noop() {
    let mut room = Room::new();
    room.change_name("", "Alice");
    let before = names_and_ids(&room);
    room.change_name("Nobody", "Alice");
    assert_eq!(names_and_ids(&room), before);
}

#[test]
fn names_stay_unique_and_ids_stable_over_many_operations() {
    let mut room = Room::new();
    room.change_name("", "Alice");
    room.change_name("", "Bob");
    room.change_name("", "Carol");
    let _ = room.visited(1, "Alice");
    room.change_name("Bob", "Dave");
    let _ = room.cleared("Dave");
    room.change_name("Carol", "Dave");
    let _ = room.visited(0, "Dave");
    let players = room.all_players();
    for a in 0..players.len() {
        for b in 0..players.len() {
            if a != b {
                assert_ne!(players[a].name, players[b].name);
                assert_ne!(players[a].id, players[b].id);
            }
        }
    }
    // ids never moved under renames of other names
    let alice: Vec<_> = players.iter().filter(|p| p.name == "Alice").collect();
    assert_eq!(alice[0].id, 0);
}

#[test]
fn register_hands_out_fresh_ids() {
    let mut reg = Registry::new();
    let (a, _rx_a) = reg.register(8);
    let (b, _rx_b) = reg.register(8);
    assert_eq!((a, b), (0, 1));
    assert_eq!(reg.subscriber_count(), 2);
    assert_eq!(reg.subscriber_ids(), vec![0, 1]);
}

#[test]
fn deregister_is_safe_on_every_exit_path() {
    let mut reg = Registry::new();
    let (a, _rx) = reg.register(8);
    reg.deregister(a);
    reg.deregister(a);
    reg.deregister(42);
    assert_eq!(reg.subscriber_count(), 0);
}

#[test]
fn broadcast_reaches_every_subscriber() {
    let mut reg = Registry::new();
    let (_a, mut rx_a) = reg.register(8);
    let (_b, mut rx_b) = reg.register(8);
    let mut room = Room::new();
    room.change_name("", "Alice");
    let update = Update::FullRoster(room.all_players());
    let dropped = publish(&mut reg, &update);
    assert!(dropped.is_empty());
    let want = expected_list(&[expected_player(0, "Alice", false)]);
    assert_eq!(rx_a.try_recv().unwrap(), want);
    assert_eq!(rx_b.try_recv().unwrap(), want);
}

#[test]
fn broadcast_survives_one_closed_channel_of_three() {
    let mut reg = Registry::new();
    let (a, mut rx_a) = reg.register(8);
    let (b, rx_b) = reg.register(8);
    let (c, mut rx_c) = reg.register(8);
    drop(rx_b);
    let update = Update::OnePlayer(PlayerData { id: 0, name: String::from("Alice"), visited: true });
    let dropped = publish(&mut reg, &update);
    assert_eq!(dropped, vec![b]);
    assert_eq!(reg.subscriber_ids(), vec![a, c]);
    let want = expected_player(0, "Alice", true);
    assert_eq!(rx_a.try_recv().unwrap(), want);
    assert_eq!(rx_c.try_recv().unwrap(), want);
}

#[test]
fn subscriber_gets_broadcasts_in_order_and_none_from_before() {
    let mut reg = Registry::new();
    let first = Update::OnePlayer(PlayerData { id: 0, name: String::from("Early"), visited: false });
    publish(&mut reg, &first);
    let (_id, mut rx) = reg.register(8);
    let m1 = Update::OnePlayer(PlayerData { id: 1, name: String::from("One"), visited: false });
    let m2 = Update::OnePlayer(PlayerData { id: 2, name: String::from("Two"), visited: true });
    publish(&mut reg, &m1);
    publish(&mut reg, &m2);
    assert_eq!(rx.try_recv().unwrap(), expected_player(1, "One", false));
    assert_eq!(rx.try_recv().unwrap(), expected_player(2, "Two", true));
    assert!(rx.try_recv().is_err());
}

#[test]
fn quiet_update_moves_nothing() {
    let mut reg = Registry::new();
    let (_id, mut rx) = reg.register(8);
    assert!(render_update(&Update::Quiet).is_none());
    assert!(render_update(&Update::VisitorMissing).is_none());
    let dropped = publish(&mut reg, &Update::Quiet);
    assert!(dropped.is_empty());
    assert_eq!(reg.subscriber_count(), 1);
    assert!(rx.try_recv().is_err());
}

#[test]
fn walkthrough_rename_visit_broadcast() {
    // empty roster; two creations; a visit that pushes one row to all
    // live viewers
    let mut room = Room::new();
    let mut reg = Registry::new();
    let (_a, mut rx_a) = reg.register(8);
    let (_b, mut rx_b) = reg.register(8);

    let r1 = Request::ChangeName { user_name: String::new(), name: String::from("Alice") };
    let u1 = apply(&mut room, &r1);
    publish(&mut reg, &u1);
    let r2 = Request::ChangeName { user_name: String::new(), name: String::from("Bob") };
    let u2 = apply(&mut room, &r2);
    publish(&mut reg, &u2);
    rx_a.try_recv().unwrap();
    rx_a.try_recv().unwrap();
    rx_b.try_recv().unwrap();
    rx_b.try_recv().unwrap();

    let visit = Request::Visited { visited_id: 0, user_name: String::from("Bob") };
    let u3 = apply(&mut room, &visit);
    match &u3 {
        Update::OnePlayer(p) => {
            assert_eq!((p.id, p.name.as_str(), p.visited), (0, "Alice", true));
        }
        _ => panic!("a visit of a present id must yield one player"),
    }
    publish(&mut reg, &u3);
    let want = expected_player(0, "Alice", true);
    assert_eq!(rx_a.try_recv().unwrap(), want);
    assert_eq!(rx_b.try_recv().unwrap(), want);
}

#[test]
fn collision_broadcast_shows_single_merged_player() {
    // two viewers see the full refresh after a name is claimed
    let mut room = Room::new();
    let mut reg = Registry::new();
    room.change_name("", "Alice");
    room.change_name("", "Bob");
    room.visited(0, "Bob").unwrap().unwrap();
    let (_a, mut rx_a) = reg.register(8);
    let (_b, mut rx_b) = reg.register(8);

    let req = Request::ChangeName { user_name: String::from("Alice"), name: String::from("Bob") };
    let update = apply(&mut room, &req);
    publish(&mut reg, &update);
    let want = expected_list(&[expected_player(0, "Bob", true)]);
    assert_eq!(rx_a.try_recv().unwrap(), want);
    assert_eq!(rx_b.try_recv().unwrap(), want);
}

#[test]
fn visitor_missing_update_reports_and_moves_nothing() {
    let mut room = Room::new();
    room.change_name("", "Alice");
    let before = names_and_ids(&room);
    let req = Request::Visited { visited_id: 0, user_name: String::from("Nobody") };
    let update = apply(&mut room, &req);
    assert!(matches!(update, Update::VisitorMissing));
    assert_eq!(names_and_ids(&room), before);
}
