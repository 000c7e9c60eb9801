use termchat::commands::{dispatch, handle_input, CommandError, CommandOutcome, InputOutcome};
use termchat::event::Event;
use termchat::perm::{PermEntry, PermLevel, RestrictionKind};
use termchat::server::Server;
use termchat::user::{User, UserConfig, UserState};
use termchat::bus::RecvOutcome;

fn feed(server: &mut Server, user: &mut User, bytes: &[u8]) -> InputOutcome {
    handle_input(server, user, bytes)
}

fn press_enter(server: &mut Server, user: &mut User) -> InputOutcome {
    handle_input(server, user, &[13])
}

fn session(server: &mut Server, name: &[u8], pass: &[u8]) -> User {
    server.add_user(name.to_vec(), UserConfig::new(pass));
    server.open_session(name.to_vec())
}

#[test]
fn mkch_needs_manage_on_the_parent() {
    // Root channel only; alice has no MANAGE anywhere.
    let mut server = Server::default();
    let mut alice = session(&mut server, b"alice", b"pw");
    match dispatch(&mut server, &mut alice, b"mkch sub") {
        Err(CommandError::Forbidden) => {},
        _ => panic!("expected Forbidden"),
    }
    assert_eq!(server.channel_from_path(&vec![b"sub".to_vec()]), None);
    // Grant alice a User rule with MANAGE on the root, then retry.
    server.tree.nodes[0].perms.push(PermEntry {
        kind: RestrictionKind::User(b"alice".to_vec()),
        level: PermLevel::manage(),
    });
    match dispatch(&mut server, &mut alice, b"mkch sub") {
        Ok(CommandOutcome::Continue(o)) => assert_eq!(o, b"\x1b[2K\r".to_vec()),
        _ => panic!("expected success"),
    }
    let sub = server.channel_from_path(&vec![b"sub".to_vec()]);
    assert!(sub.is_some());
    // The creator got MANAGE on the new channel; everyone got read/write.
    let node = &server.tree.nodes[sub.unwrap()];
    assert_eq!(node.perms.len(), 2);
    match (&node.perms[0].kind, &node.perms[1].kind) {
        (RestrictionKind::User(u), RestrictionKind::All) => {
            assert_eq!(u.as_slice(), b"alice");
            assert_eq!(node.perms[0].level.bits, 7);
            assert_eq!(node.perms[1].level.bits, 3);
        },
        _ => panic!("wrong rules on the new channel"),
    }
}

#[test]
fn admin_override_manages_any_channel() {
    let mut server = Server::default();
    let mut admin = server.open_session(b"admin".to_vec());
    assert!(matches!(
        dispatch(&mut server, &mut admin, b"mkch general"),
        Ok(CommandOutcome::Continue(_))
    ));
    assert!(matches!(
        dispatch(&mut server, &mut admin, b"rmch general"),
        Ok(CommandOutcome::Continue(_))
    ));
    assert_eq!(server.channel_from_path(&vec![b"general".to_vec()]), None);
}

#[test]
fn message_reaches_only_the_channel_subscribers() {
    let mut server = Server::default();
    let mut admin = server.open_session(b"admin".to_vec());
    dispatch(&mut server, &mut admin, b"mkch general").unwrap();
    dispatch(&mut server, &mut admin, b"mkch sub").unwrap();

    let mut alice = session(&mut server, b"alice", b"pw");
    let mut bob = session(&mut server, b"bob", b"pw");
    let mut carol = session(&mut server, b"carol", b"pw");
    assert!(matches!(
        dispatch(&mut server, &mut alice, b"ch general"),
        Ok(CommandOutcome::Continue(_))
    ));
    assert!(matches!(
        dispatch(&mut server, &mut bob, b"ch /general"),
        Ok(CommandOutcome::Continue(_))
    ));
    assert!(matches!(
        dispatch(&mut server, &mut carol, b"ch /sub"),
        Ok(CommandOutcome::Continue(_))
    ));

    feed(&mut server, &mut alice, b"hello");
    assert_eq!(alice.buffer, b"hello".to_vec());
    match press_enter(&mut server, &mut alice) {
        InputOutcome::Continue(o) => assert_eq!(o, b"\x1b[2K\r".to_vec()),
        _ => panic!("expected to continue"),
    }
    assert!(alice.buffer.is_empty());

    match bob.channel.recv(&server.tree) {
        RecvOutcome::Received(Event::Msg(sender, text)) => {
            assert_eq!(sender.as_slice(), b"alice");
            assert_eq!(text.as_slice(), b"hello");
        },
        _ => panic!("bob should see the message"),
    }
    match alice.channel.recv(&server.tree) {
        RecvOutcome::Received(Event::Msg(_, text)) => assert_eq!(text.as_slice(), b"hello"),
        _ => panic!("alice should see her own message"),
    }
    assert!(matches!(carol.channel.recv(&server.tree), RecvOutcome::Empty));
}

#[test]
fn full_buffer_rejects_silently_and_enter_still_submits() {
    let mut server = Server::default();
    let mut alice = session(&mut server, b"alice", b"pw");
    let chunk = vec![b'x'; 1024];
    feed(&mut server, &mut alice, &chunk);
    assert_eq!(alice.buffer.len(), 1024);
    // at the cap: further insertion is silently rejected
    match feed(&mut server, &mut alice, b"y") {
        InputOutcome::Continue(o) => assert!(o.is_empty()),
        _ => panic!("expected to continue"),
    }
    assert_eq!(alice.buffer.len(), 1024);
    assert!(!alice.buffer.contains(&b'y'));
    // Enter still submits the truncated buffer
    let mut sub = server.tree.subscribe(alice.channel.channel);
    press_enter(&mut server, &mut alice);
    match sub.recv(&server.tree) {
        RecvOutcome::Received(Event::Msg(_, text)) => assert_eq!(text, chunk),
        _ => panic!("expected the truncated message"),
    }
}

#[test]
fn reply_checks_the_registry_and_collapses_spaces() {
    let mut server = Server::default();
    let mut alice = session(&mut server, b"alice", b"pw");
    // bob is not an account yet: recipient existence is checked against
    // the registry, not the channel
    match dispatch(&mut server, &mut alice, b"reply bob  hi   there") {
        Err(CommandError::NotFound) => {},
        _ => panic!("expected NotFound"),
    }
    server.add_user(b"bob".to_vec(), UserConfig::new(b"pw"));
    let mut sub = server.tree.subscribe(alice.channel.channel);
    match dispatch(&mut server, &mut alice, b"reply bob  hi   there") {
        Ok(CommandOutcome::Continue(_)) => {},
        _ => panic!("expected success"),
    }
    match sub.recv(&server.tree) {
        RecvOutcome::Received(Event::Reply(from, to, text)) => {
            assert_eq!(from.as_slice(), b"alice");
            assert_eq!(to.as_slice(), b"bob");
            // args are re-joined with single spaces before the first-space
            // split, so the multi-space run collapses
            assert_eq!(text.as_slice(), b"hi there");
        },
        _ => panic!("expected the reply event"),
    }
}

#[test]
fn every_error_variant_is_reachable() {
    let mut server = Server::default();
    let mut admin = server.open_session(b"admin".to_vec());
    let mut alice = session(&mut server, b"alice", b"pw");
    assert!(matches!(
        dispatch(&mut server, &mut alice, b"\xff\x28"),
        Err(CommandError::InvalidUtf8)
    ));
    assert!(matches!(
        dispatch(&mut server, &mut alice, b"reply bob"),
        Err(CommandError::InvalidArgs)
    ));
    assert!(matches!(
        dispatch(&mut server, &mut alice, b"ch nosuch"),
        Err(CommandError::InvalidPath)
    ));
    assert!(matches!(
        dispatch(&mut server, &mut alice, b"bogus"),
        Err(CommandError::InvalidCommand)
    ));
    assert!(matches!(
        dispatch(&mut server, &mut admin, b"passwd-reset ghost"),
        Err(CommandError::NotFound)
    ));
    assert!(matches!(
        dispatch(&mut server, &mut admin, b"useradd admin"),
        Err(CommandError::AlreadyExists)
    ));
    assert!(matches!(
        dispatch(&mut server, &mut alice, b"useradd eve"),
        Err(CommandError::Forbidden)
    ));
    assert!(matches!(
        dispatch(&mut server, &mut alice, b"mkchp x"),
        Err(CommandError::Unimplemented)
    ));
}

#[test]
fn useradd_generates_a_working_alphanumeric_password() {
    let mut server = Server::default();
    let mut admin = server.open_session(b"admin".to_vec());
    match dispatch(&mut server, &mut admin, b"useradd dave") {
        Ok(CommandOutcome::Continue(o)) => {
            let pass = match &admin.state {
                UserState::Info(d) => d.clone(),
                _ => panic!("expected the password overlay"),
            };
            assert_eq!(pass.len(), 8);
            assert!(pass.iter().all(|b| b.is_ascii_alphanumeric()));
            let mut expected = b"\x1b[2K\r".to_vec();
            expected.extend_from_slice(&pass);
            expected.extend_from_slice(b"\r\x1b[2K\r");
            assert_eq!(o, expected);
            assert!(server.validate_pass(b"dave", &pass).is_some());
            assert!(server.validate_pass(b"dave", b"wrong").is_none());
        },
        _ => panic!("expected success"),
    }
}

#[test]
fn passwd_changes_only_the_own_digest() {
    let mut server = Server::default();
    let mut alice = session(&mut server, b"alice", b"old");
    assert!(server.validate_pass(b"alice", b"old").is_some());
    assert!(matches!(
        dispatch(&mut server, &mut alice, b"passwd newpw"),
        Ok(CommandOutcome::Continue(_))
    ));
    assert!(server.validate_pass(b"alice", b"old").is_none());
    assert!(server.validate_pass(b"alice", b"newpw").is_some());
    assert!(server.validate_pass(b"admin", b"admin").is_some());
}

#[test]
fn quit_announces_leave_then_terminate_and_goes_offline() {
    let mut server = Server::default();
    let mut admin = server.open_session(b"admin".to_vec());
    let mut alice = session(&mut server, b"alice", b"pw");
    assert!(server.online_users.iter().any(|n| n.as_slice() == b"alice"));
    let mut watcher = server.tree.subscribe(alice.channel.channel);
    feed(&mut server, &mut alice, b":quit");
    match press_enter(&mut server, &mut alice) {
        InputOutcome::Close(o) => assert_eq!(o, b"\x1b[2K\r\r".to_vec()),
        _ => panic!("expected the session to close"),
    }
    match watcher.recv(&server.tree) {
        RecvOutcome::Received(Event::Leave(who)) => assert_eq!(who.as_slice(), b"alice"),
        _ => panic!("expected the leave event first"),
    }
    assert!(matches!(
        watcher.recv(&server.tree),
        RecvOutcome::Received(Event::Terminate)
    ));
    // only the departing user leaves the online set
    assert!(!server.online_users.iter().any(|n| n.as_slice() == b"alice"));
    assert!(server.online_users.iter().any(|n| n.as_slice() == b"admin"));
    drop(admin);
}

#[test]
fn command_errors_show_as_an_overlay() {
    let mut server = Server::default();
    let mut alice = session(&mut server, b"alice", b"pw");
    feed(&mut server, &mut alice, b":bogus");
    match press_enter(&mut server, &mut alice) {
        InputOutcome::Continue(o) => {
            assert_eq!(o, b"\x1b[2K\r\x1b[31m\x1b[1mEINVAL: Invalid command\x1b[0m\r".to_vec());
        },
        _ => panic!("expected to continue"),
    }
    match &alice.state {
        UserState::Info(d) => {
            assert_eq!(d.as_slice(), b"\x1b[31m\x1b[1mEINVAL: Invalid command\x1b[0m");
        },
        _ => panic!("expected the error overlay"),
    }
    assert!(alice.buffer.is_empty());
    // the next keystroke dismisses the overlay and is then processed
    feed(&mut server, &mut alice, b"z");
    assert!(matches!(alice.state, UserState::Normal));
    assert_eq!(alice.buffer, b"z".to_vec());
}

#[test]
fn line_editing_with_cursor_moves() {
    let mut server = Server::default();
    let mut alice = session(&mut server, b"alice", b"pw");
    feed(&mut server, &mut alice, b"ab");
    assert_eq!(alice.cursor, 2);
    // left arrow, then insert in the middle
    feed(&mut server, &mut alice, &[27, 91, 68]);
    assert_eq!(alice.cursor, 1);
    feed(&mut server, &mut alice, b"X");
    assert_eq!(alice.buffer, b"aXb".to_vec());
    assert_eq!(alice.cursor, 2);
    // backspace removes the byte before the cursor
    match feed(&mut server, &mut alice, &[127]) {
        InputOutcome::Continue(o) => assert_eq!(o, b"\x1b[D\x1b[P".to_vec()),
        _ => panic!("expected to continue"),
    }
    assert_eq!(alice.buffer, b"ab".to_vec());
    assert_eq!(alice.cursor, 1);
    // right arrow moves back; at the end it is a no-op
    feed(&mut server, &mut alice, &[27, 91, 67]);
    assert_eq!(alice.cursor, 2);
    match feed(&mut server, &mut alice, &[27, 91, 67]) {
        InputOutcome::Continue(o) => assert!(o.is_empty()),
        _ => panic!("expected to continue"),
    }
    assert_eq!(alice.cursor, 2);
    // up and down arrows are reserved no-ops
    feed(&mut server, &mut alice, &[27, 91, 65]);
    feed(&mut server, &mut alice, &[27, 91, 66]);
    assert_eq!(alice.buffer, b"ab".to_vec());
    // backspace at the line start is a no-op
    feed(&mut server, &mut alice, &[27, 91, 68]);
    feed(&mut server, &mut alice, &[27, 91, 68]);
    match feed(&mut server, &mut alice, &[127]) {
        InputOutcome::Continue(o) => assert!(o.is_empty()),
        _ => panic!("expected to continue"),
    }
    assert_eq!(alice.buffer, b"ab".to_vec());
}

#[test]
fn listings_show_as_overlays() {
    let mut server = Server::default();
    let mut admin = server.open_session(b"admin".to_vec());
    dispatch(&mut server, &mut admin, b"mkch general").unwrap();
    match dispatch(&mut server, &mut admin, b"ls") {
        Ok(CommandOutcome::Continue(_)) => match &admin.state {
            UserState::Info(d) => {
                assert_eq!(String::from_utf8(d.clone()).unwrap(), "0/\r\n1└─general\r\n");
            },
            _ => panic!("expected the listing overlay"),
        },
        _ => panic!("expected success"),
    }
    match dispatch(&mut server, &mut admin, b"lsa") {
        Ok(CommandOutcome::Continue(_)) => match &admin.state {
            UserState::Info(d) => assert_eq!(d.as_slice(), b"admin\r\n"),
            _ => panic!("expected the listing overlay"),
        },
        _ => panic!("expected success"),
    }
    match dispatch(&mut server, &mut admin, b"lsperm /general") {
        Ok(CommandOutcome::Continue(_)) => match &admin.state {
            UserState::Info(d) => {
                assert_eq!(d.as_slice(), b"User(admin): RWM\r\nAll: RW\r\n");
            },
            _ => panic!("expected the listing overlay"),
        },
        _ => panic!("expected success"),
    }
}

#[test]
fn help_is_an_overlay_and_ctrl_c_closes() {
    let mut server = Server::default();
    let mut alice = session(&mut server, b"alice", b"pw");
    dispatch(&mut server, &mut alice, b"help").unwrap();
    match &alice.state {
        UserState::Info(d) => assert!(d.starts_with(b"== Commands ==")),
        _ => panic!("expected the help overlay"),
    }
    // control-C: dismiss the overlay, announce the leave, close
    let mut watcher = server.tree.subscribe(alice.channel.channel);
    match feed(&mut server, &mut alice, &[3]) {
        InputOutcome::Close(_) => {},
        _ => panic!("expected the session to close"),
    }
    assert!(matches!(
        watcher.recv(&server.tree),
        RecvOutcome::Received(Event::Leave(_))
    ));
    assert!(!server.online_users.iter().any(|n| n.as_slice() == b"alice"));
}

#[test]
fn channel_switch_subscribes_fresh() {
    let mut server = Server::default();
    let mut admin = server.open_session(b"admin".to_vec());
    dispatch(&mut server, &mut admin, b"mkch general").unwrap();
    let gid = server.channel_from_path(&vec![b"general".to_vec()]).unwrap();
    // events already on the target channel are not replayed after a switch
    server.tree.publish(gid, Event::Msg(b"x".to_vec(), b"early".to_vec()));
    dispatch(&mut server, &mut admin, b"ch general").unwrap();
    assert_eq!(admin.channel.channel, gid);
    assert_eq!(admin.path.len(), 1);
    assert_eq!(admin.path[0].as_slice(), b"general");
    assert!(matches!(admin.channel.recv(&server.tree), RecvOutcome::Empty));
    server.tree.publish(gid, Event::Msg(b"x".to_vec(), b"late".to_vec()));
    match admin.channel.recv(&server.tree) {
        RecvOutcome::Received(Event::Msg(_, text)) => assert_eq!(text.as_slice(), b"late"),
        _ => panic!("expected only the late message"),
    }
}

#[test]
fn default_state_has_one_root_and_one_admin() {
    let server = Server::default();
    assert_eq!(server.tree.nodes.len(), 1);
    assert!(server.tree.nodes[0].children.is_empty());
    assert_eq!(server.users.len(), 1);
    assert_eq!(server.users[0].0.as_slice(), b"admin");
    assert!(server.online_users.is_empty());
    assert!(server.validate_pass(b"admin", b"admin").is_some());
    assert!(server.validate_pass(b"admin", b"nope").is_none());
    assert!(server.validate_pass(b"ghost", b"admin").is_none());
}

#[test]
fn enter_on_an_empty_buffer_does_nothing() {
    let mut server = Server::default();
    let mut alice = session(&mut server, b"alice", b"pw");
    let mut watcher = server.tree.subscribe(alice.channel.channel);
    match press_enter(&mut server, &mut alice) {
        InputOutcome::Continue(o) => assert!(o.is_empty()),
        _ => panic!("expected to continue"),
    }
    assert!(matches!(watcher.recv(&server.tree), RecvOutcome::Empty));
}

#[test]
fn whitespace_around_a_command_is_trimmed() {
    let mut server = Server::default();
    let mut alice = session(&mut server, b"alice", b"pw");
    feed(&mut server, &mut alice, b"   :bogus  ");
    assert!(matches!(press_enter(&mut server, &mut alice), InputOutcome::Continue(_)));
    match &alice.state {
        UserState::Info(d) => {
            assert_eq!(d.as_slice(), b"\x1b[31m\x1b[1mEINVAL: Invalid command\x1b[0m");
        },
        _ => panic!("expected the error overlay"),
    }
}
