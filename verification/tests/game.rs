use multitask_server::game::{
    read_guess, Connection, ConnectionEvent, Event, Next, Server, ServerAction, ServerEvent, Turn,
    ANNOUNCEMENT_CAPACITY, GAME_SECONDS, HIGHEST_TARGET, LOWEST_TARGET,
};

fn play(target: usize, text: &str) -> Turn {
    Connection { target }.handle(ConnectionEvent::Line { read: text.len(), text })
}

#[test]
fn right_guess_wins() {
    let turn = play(42, "42\n");
    assert_eq!(turn.reply, Some("Correct!\n"));
    assert_eq!(turn.announce, Some(Event::SomeoneWon));
    assert_eq!(turn.next, Next::Done);
}

#[test]
fn low_guess_is_too_low() {
    let turn = play(42, "41\n");
    assert_eq!(turn.reply, Some("Too low!\n"));
    assert_eq!(turn.announce, None);
    assert_eq!(turn.next, Next::Line);
}

#[test]
fn high_guess_is_too_high() {
    let turn = play(42, "43\n");
    assert_eq!(turn.reply, Some("Too high!\n"));
    assert_eq!(turn.announce, None);
    assert_eq!(turn.next, Next::Line);
}

#[test]
fn other_lines_are_invalid() {
    for text in ["\n", "abc\n", "-1\n", "4 2\n", "+\n", "4_2\n", "99999999999999999999999\n"] {
        let turn = play(42, text);
        assert_eq!(turn.reply, Some("Invalid input. Please enter a number.\n"));
        assert_eq!(turn.announce, None);
        assert_eq!(turn.next, Next::Line);
    }
}

#[test]
fn end_of_stream_leaves_the_connection_idle() {
    for target in [LOWEST_TARGET, 42, HIGHEST_TARGET] {
        let connection = Connection { target };
        let turn = connection.handle(ConnectionEvent::Line { read: 0, text: "" });
        assert_eq!(turn.reply, None);
        assert_eq!(turn.announce, None);
        assert_eq!(turn.next, Next::Announcement);
    }
}

#[test]
fn announcements_end_every_connection() {
    for target in [LOWEST_TARGET, 42, HIGHEST_TARGET] {
        let connection = Connection { target };
        let won = connection.handle(ConnectionEvent::Announced(Event::SomeoneWon));
        assert_eq!(won.reply, Some("Game over! Someone else won.\n"));
        assert_eq!(won.announce, None);
        assert_eq!(won.next, Next::Done);
        let late = connection.handle(ConnectionEvent::Announced(Event::TimeOut));
        assert_eq!(late.reply, Some("Game over! Time's up.\n"));
        assert_eq!(late.announce, None);
        assert_eq!(late.next, Next::Done);
    }
}

#[test]
fn guesses_are_trimmed_and_parsed() {
    assert_eq!(read_guess("7"), Some(7));
    assert_eq!(read_guess("  7\r\n"), Some(7));
    assert_eq!(read_guess("\t+007 \n"), Some(7));
    assert_eq!(read_guess("\u{a0}\u{3000}7\u{2028}"), Some(7));
    assert_eq!(read_guess("\u{200b}7"), None);
    assert_eq!(read_guess("0"), Some(0));
    assert_eq!(read_guess(""), None);
    assert_eq!(read_guess("++7"), None);
    assert_eq!(read_guess("+"), None);
    assert_eq!(read_guess("-7"), None);
    assert_eq!(read_guess("7a"), None);
    assert_eq!(read_guess("\u{664}"), None);
    let max = format!("{}\n", usize::MAX);
    assert_eq!(read_guess(&max), Some(usize::MAX));
    let over = format!("{}0\n", usize::MAX);
    assert_eq!(read_guess(&over), None);
}

#[test]
fn white_space_has_the_unicode_property() {
    let listed = |c: u32| {
        (0x9..=0xd).contains(&c)
            || (0x2000..=0x200a).contains(&c)
            || [0x20, 0x85, 0xa0, 0x1680, 0x2028, 0x2029, 0x202f, 0x205f, 0x3000].contains(&c)
    };
    for c in '\0'..=char::MAX {
        assert_eq!(listed(c as u32), format!("{}", c).trim().is_empty());
    }
}

#[test]
fn every_target_is_won_by_its_decimal_notation() {
    for target in LOWEST_TARGET..=HIGHEST_TARGET {
        let turn = play(target, &format!(" {}\n", target));
        assert_eq!(turn.announce, Some(Event::SomeoneWon));
    }
}

#[test]
fn answers_to_all_guesses_agree() {
    for guess in 0..=110usize {
        let turn = Connection { target: 50 }.judge(Some(guess));
        if guess < 50 {
            assert_eq!(turn.reply, Some("Too low!\n"));
        } else if guess > 50 {
            assert_eq!(turn.reply, Some("Too high!\n"));
        } else {
            assert_eq!(turn.reply, Some("Correct!\n"));
        }
    }
}

fn accept(server: &mut Server) -> Connection {
    match server.run(ServerEvent::Accepted) {
        ServerAction::Play(connection) => connection,
        _ => panic!("a client that connects plays"),
    }
}

#[test]
fn clients_get_targets_of_the_range() {
    let mut server = Server::new();
    let mut seen = vec![false; HIGHEST_TARGET + 1];
    for count in 0..20000 {
        let connection = accept(&mut server);
        assert!(LOWEST_TARGET <= connection.target && connection.target <= HIGHEST_TARGET);
        seen[connection.target] = true;
        assert_eq!(server.open, count + 1);
    }
    assert!(seen[LOWEST_TARGET..].iter().all(|s| *s));
}

#[test]
fn empty_game_ends_with_the_announcement() {
    assert_eq!(Server::time_is_up(), Event::TimeOut);
    let mut server = Server::new();
    assert_eq!(server, Server { open: 0, ended: false });
    assert_eq!(server.run(ServerEvent::Announced), ServerAction::Shutdown);
    let mut server = Server::new();
    accept(&mut server);
    assert_eq!(server.run(ServerEvent::Closed), ServerAction::Wait);
    assert_eq!(server.run(ServerEvent::Announced), ServerAction::Shutdown);
}

#[test]
fn server_waits_for_all_connections() {
    let mut server = Server::new();
    for _ in 0..3 {
        accept(&mut server);
    }
    assert_eq!(server.run(ServerEvent::Closed), ServerAction::Wait);
    assert_eq!(server.run(ServerEvent::Announced), ServerAction::Wait);
    assert_eq!(server, Server { open: 2, ended: true });
    assert_eq!(server.run(ServerEvent::Announced), ServerAction::Wait);
    assert_eq!(server.run(ServerEvent::Closed), ServerAction::Wait);
    assert_eq!(server.run(ServerEvent::Closed), ServerAction::Shutdown);
}

/// Plays a game of five clients to its end: the messages that each of them was sent.
fn messages_of_a_game(winner: Option<usize>) -> Vec<Vec<&'static str>> {
    let mut server = Server::new();
    let players: Vec<Connection> = (0..5).map(|_| accept(&mut server)).collect();
    let mut messages: Vec<Vec<&'static str>> = vec![Vec::new(); 5];
    let mut event = Server::time_is_up();
    if let Some(i) = winner {
        let text = format!("{}\n", players[i].target);
        let turn = players[i].handle(ConnectionEvent::Line { read: text.len(), text: &text });
        messages[i].extend(turn.reply);
        assert_eq!(turn.next, Next::Done);
        event = turn.announce.unwrap();
        assert_eq!(server.run(ServerEvent::Closed), ServerAction::Wait);
    }
    assert_eq!(server.run(ServerEvent::Announced), ServerAction::Wait);
    let mut action = ServerAction::Wait;
    for i in (0..5).filter(|i| Some(*i) != winner) {
        assert_eq!(action, ServerAction::Wait);
        let turn = players[i].handle(ConnectionEvent::Announced(event));
        messages[i].extend(turn.reply);
        assert_eq!(turn.next, Next::Done);
        action = server.run(ServerEvent::Closed);
    }
    assert_eq!(action, ServerAction::Shutdown);
    messages
}

#[test]
fn everyone_is_told_before_the_shutdown() {
    for messages in messages_of_a_game(None) {
        assert_eq!(messages, vec!["Game over! Time's up.\n"]);
    }
    for (i, messages) in messages_of_a_game(Some(3)).into_iter().enumerate() {
        if i == 3 {
            assert_eq!(messages, vec!["Correct!\n"]);
        } else {
            assert_eq!(messages, vec!["Game over! Someone else won.\n"]);
        }
    }
}

#[test]
fn game_constants() {
    assert_eq!(LOWEST_TARGET, 1);
    assert_eq!(HIGHEST_TARGET, 100);
    assert_eq!(GAME_SECONDS, 30);
    assert_eq!(ANNOUNCEMENT_CAPACITY, 2);
}
