use zapfast::chat_index::{index, parse_open, recent, sync, Chat, IndexState, SyncAction, LIMIT};

#[test]
fn open_requests_accept_only_chat_ids() {
    assert_eq!(
        parse_open("open-chat:56912345678@s.whatsapp.net").as_deref(),
        Some("56912345678@s.whatsapp.net")
    );
    assert_eq!(parse_open("open-chat:"), None);
    assert_eq!(parse_open("open-chat:a b"), None);
    assert_eq!(parse_open("open-chat:x/../y"), None);
    assert_eq!(parse_open("show"), None);
    assert_eq!(parse_open(&format!("open-chat:{}", "1".repeat(200))), None);
}

#[test]
fn open_requests_take_ids_up_to_the_limit() {
    let id = "a".repeat(128);
    assert_eq!(parse_open(&format!("open-chat:{id}")).as_deref(), Some(id.as_str()));
    assert_eq!(parse_open(&format!("open-chat:{}", "a".repeat(129))), None);
    assert_eq!(parse_open("open-chat:120363@g.us"), Some("120363@g.us".to_string()));
    assert_eq!(parse_open("open-chat:ñandú"), None);
    assert_eq!(parse_open("Open-chat:abc"), None);
    assert_eq!(parse_open("open-chat:a:b_c-d.e"), Some("a:b_c-d.e".to_string()));
}

fn chat(id: &str, last_activity: i64) -> Chat {
    Chat {
        id: id.to_string(),
        title: format!("Chat {id}"),
        unread: 0,
        group: false,
        locked: false,
        archived: false,
        last_activity,
    }
}

#[test]
fn index_lists_recent_chats_without_locked_or_archived_ones() {
    let mut chats = vec![chat("a", 10), chat("b", 30), chat("c", 20), chat("d", 40), chat("e", 30)];
    chats[3].locked = true;
    chats[2].archived = true;
    assert_eq!(recent(&chats), vec![1, 4, 0]);
}

#[test]
fn index_keeps_only_the_most_recent_chats() {
    let chats: Vec<Chat> = (0..75).map(|i| chat(&format!("{i}"), i as i64)).collect();
    let order = recent(&chats);
    assert_eq!(order.len(), LIMIT);
    assert_eq!(order[0], 74);
    assert_eq!(order[LIMIT - 1], 15);
}

#[test]
fn index_is_json_of_the_chats() {
    let mut chats = vec![chat("1@s.whatsapp.net", 5), chat("2@g.us", 9)];
    chats[0].title = "Ana \"la\" de Ñuñoa".to_string();
    chats[0].unread = 12;
    chats[1].title = "Familia".to_string();
    chats[1].group = true;
    assert_eq!(
        index(&chats),
        "[{\"id\":\"2@g.us\",\"name\":\"Familia\",\"unread\":0,\"group\":true},\
         {\"id\":\"1@s.whatsapp.net\",\"name\":\"Ana \\\"la\\\" de Ñuñoa\",\"unread\":12,\"group\":false}]"
    );
    assert_eq!(index(&[]), "[]");
}

#[test]
fn sync_writes_at_most_every_interval_and_only_changes() {
    let mut state = IndexState { last: None };
    let chats = vec![chat("a", 1)];
    let first = sync(&mut state, 1000, &chats);
    assert!(matches!(&first, SyncAction::Write(json) if json.contains("\"a\"")));
    assert!(matches!(sync(&mut state, 2999, &chats), SyncAction::Wait));
    assert!(matches!(sync(&mut state, 3000, &chats), SyncAction::Keep));
    let changed = vec![chat("a", 1), chat("b", 2)];
    assert!(matches!(sync(&mut state, 4000, &changed), SyncAction::Wait));
    assert!(matches!(sync(&mut state, 5000, &changed), SyncAction::Write(_)));
    assert_eq!(state.last.as_ref().map(|w| w.at), Some(5000));
}

#[test]
fn index_escapes_quotes_backslashes_and_control_characters() {
    let mut c = chat("x", 1);
    c.title = "\u{1}\u{8}\u{c}\n\r\t\"\\/\u{7f}é\u{1f}".to_string();
    assert_eq!(
        index(&[c]),
        "[{\"id\":\"x\",\"name\":\"\\u0001\\b\\f\\n\\r\\t\\\"\\\\/\u{7f}é\\u001f\",\"unread\":0,\"group\":false}]"
    );
}
