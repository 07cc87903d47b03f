use learning::steam_browser::{
    host_lobby_name, targets_from_lobby_members, BrowserAction, BrowserEntry, BrowserMessage, BrowserStatus,
    SteamBrowser,
};

fn entry(lobby: u64) -> BrowserEntry {
    BrowserEntry { lobby, owner: lobby + 1000, name: format!("Lobby {lobby}"), members: 1, max_members: 16 }
}

#[test]
fn browser_refresh_and_selection() {
    let mut b = SteamBrowser::new();
    assert!(b.request_browser_refresh());
    assert!(!b.request_browser_refresh());
    b.select_next();
    assert_eq!(b.selected, 0);
    assert_eq!(b.selected_index(), None);
    let a = b.process_browser_message(BrowserMessage::LobbyList(Ok(vec![entry(1), entry(2), entry(3)])));
    assert_eq!(a, BrowserAction::Nothing);
    assert!(!b.refresh_in_flight);
    assert!(matches!(b.status, BrowserStatus::Found(3)));
    b.select_next();
    b.select_next();
    b.select_next();
    assert_eq!(b.selected, 2);
    assert_eq!(b.selected_lobby(), Some(3));
    // A shorter list keeps the selection on its last row.
    b.process_browser_message(BrowserMessage::LobbyList(Ok(vec![entry(7)])));
    assert_eq!(b.selected, 0);
    assert_eq!(b.selected_index(), Some(0));
    b.select_previous();
    assert_eq!(b.selected, 0);
    b.process_browser_message(BrowserMessage::LobbyList(Err("timeout".to_string())));
    assert!(matches!(&b.status, BrowserStatus::RefreshFailed(e) if e == "timeout"));
    assert_eq!(b.entries.len(), 1);
}

#[test]
fn browser_join_and_host_messages() {
    let mut b = SteamBrowser::new();
    let ads = b.process_browser_messages(vec![
        BrowserMessage::JoinResult(Err("join failed".to_string())),
        BrowserMessage::HostLobbyCreated(Ok(55)),
        BrowserMessage::JoinResult(Ok(77)),
        BrowserMessage::HostLobbyCreated(Err("no".to_string())),
    ]);
    assert_eq!(ads, vec![55]);
    assert_eq!(b.hosted_lobby, Some(55));
    assert_eq!(b.joined_lobby, Some(77));
    assert!(matches!(b.status, BrowserStatus::Joined(77)));
}

#[test]
fn lobby_targets_leave_out_oneself() {
    assert_eq!(targets_from_lobby_members(&[5, 1, 5, 2], 5), vec![1, 2]);
    assert!(targets_from_lobby_members(&[], 5).is_empty());
}

#[test]
fn browser_status_lines() {
    assert_eq!(BrowserStatus::Ready.text(), "Steam browser ready. F6 refresh, Up/Down select, F7 join.");
    assert_eq!(BrowserStatus::Found(3).text(), "Found 3 server(s). F7 join selected.");
    assert_eq!(BrowserStatus::Found(0).text(), "Found 0 server(s). F7 join selected.");
    assert_eq!(BrowserStatus::RefreshFailed("Timeout".to_string()).text(), "Refresh failed: Timeout");
    assert_eq!(BrowserStatus::Joined(109775241000000001).text(), "Joined lobby 109775241000000001");
    assert_eq!(BrowserStatus::JoinFailed("Full é".to_string()).text(), "Join failed: Full é");
}

#[test]
fn browser_rows_mark_the_selection() {
    let mut b = SteamBrowser::new();
    assert!(b.browser_rows().is_empty());
    b.process_browser_message(BrowserMessage::LobbyList(Ok(vec![entry(1), entry(20)])));
    b.select_next();
    let rows = b.browser_rows();
    assert_eq!(rows, vec![
        "  Lobby 1 [1 / 16] owner:1001".to_string(),
        "> Lobby 20 [1 / 16] owner:1020".to_string(),
    ]);
    for (idx, e) in b.entries.iter().enumerate() {
        let marker = if idx == b.selected { ">" } else { " " };
        assert_eq!(rows[idx], format!("{} {} [{} / {}] owner:{}", marker, e.name, e.members, e.max_members, e.owner));
    }
}

#[test]
fn host_lobby_names() {
    assert_eq!(host_lobby_name(0), "Learning Host 0");
    assert_eq!(host_lobby_name(u64::MAX), format!("Learning Host {}", u64::MAX));
    assert_eq!(host_lobby_name(76561198000000001), "Learning Host 76561198000000001");
}
