use jam::packet::PlayerInfo;
use jam::stats::{list_client_rows, list_host_rows};

fn player(id: u16, name: &str) -> PlayerInfo {
    PlayerInfo {
        id,
        name: name.to_string(),
    }
}

#[test]
fn host_lists_itself_and_its_clients() {
    let names = [Some("alice".to_string()), None, None, Some("dan".to_string())];
    let rows = list_host_rows(&"hostess".to_string(), &names, &[true, true, false, false]);
    let seen: Vec<(u16, &str, bool, Option<usize>)> = rows
        .iter()
        .map(|r| (r.id, r.name.as_str(), r.local, r.stream))
        .collect();
    assert_eq!(
        seen,
        vec![
            (0, "hostess (you)", true, None),
            (1, "alice", false, Some(0)),
            (2, "player 2", false, Some(1)),
        ]
    );
}

#[test]
fn client_lists_the_roster() {
    let roster = vec![player(0, "hostess"), player(1, "alice"), player(2, "bob")];
    let rows = list_client_rows(&roster, 2);
    let seen: Vec<(u16, &str, bool, Option<usize>)> = rows
        .iter()
        .map(|r| (r.id, r.name.as_str(), r.local, r.stream))
        .collect();
    assert_eq!(
        seen,
        vec![
            (0, "hostess", false, Some(0)),
            (1, "alice", false, None),
            (2, "bob (you)", true, None),
        ]
    );
}
