use termchat::bus::{Bus, RecvOutcome};
use termchat::channel::{tree_from_parts, ChannelTree};
use termchat::event::Event;
use termchat::perm::{PermEntry, PermLevel, RestrictionKind};
use termchat::server::{assemble, Server};
use termchat::user::{DeliveryStep, User, UserConfig, UserState};

fn msg(n: u8) -> Event {
    Event::Msg(b"u".to_vec(), vec![n])
}

fn msg_byte(r: RecvOutcome) -> u8 {
    match r {
        RecvOutcome::Received(Event::Msg(_, t)) => t[0],
        _ => panic!("expected a message"),
    }
}

#[test]
fn bus_delivers_in_publish_order() {
    let mut bus = Bus::new();
    let mut cursor: u64 = 0;
    assert!(matches!(bus.recv(&mut cursor), RecvOutcome::Empty));
    for n in 0..4u8 {
        bus.publish(msg(n));
    }
    for n in 0..4u8 {
        assert_eq!(msg_byte(bus.recv(&mut cursor)), n);
    }
    assert!(matches!(bus.recv(&mut cursor), RecvOutcome::Empty));
}

#[test]
fn slow_subscriber_sees_exact_lag_count() {
    // Capacity is 4: publishing 7 events to a subscriber that read nothing
    // drops the first 3, reports exactly 3, then delivers the rest in order.
    let mut bus = Bus::new();
    let mut cursor: u64 = 0;
    for n in 0..7u8 {
        bus.publish(msg(n));
    }
    match bus.recv(&mut cursor) {
        RecvOutcome::Lagged(n) => assert_eq!(n, 3),
        _ => panic!("expected lag"),
    }
    for n in 3..7u8 {
        assert_eq!(msg_byte(bus.recv(&mut cursor)), n);
    }
    assert!(matches!(bus.recv(&mut cursor), RecvOutcome::Empty));
}

#[test]
fn fresh_subscription_replays_nothing() {
    // An event delivered before a switch is not delivered again after it.
    let mut tree = ChannelTree::new();
    let mut sub = tree.subscribe(0);
    tree.publish(0, msg(1));
    assert_eq!(msg_byte(sub.recv(&tree)), 1);
    // switch away and back: the new subscription starts at the log end
    let mut sub2 = tree.subscribe(0);
    assert!(matches!(sub2.recv(&tree), RecvOutcome::Empty));
    tree.publish(0, msg(2));
    assert_eq!(msg_byte(sub2.recv(&tree)), 2);
    assert!(matches!(sub2.recv(&tree), RecvOutcome::Empty));
}

#[test]
fn tree_create_resolve_remove() {
    let mut tree = ChannelTree::new();
    let general = tree.create(0, b"general".to_vec(), Vec::new());
    let sub = tree.create(general, b"sub".to_vec(), Vec::new());
    assert_eq!(tree.resolve(&vec![]), Some(0));
    assert_eq!(tree.resolve(&vec![b"general".to_vec()]), Some(general));
    assert_eq!(tree.resolve(&vec![b"general".to_vec(), b"sub".to_vec()]), Some(sub));
    assert_eq!(tree.resolve(&vec![b"nosuch".to_vec()]), None);
    // repeated resolution without mutation returns the same node
    assert_eq!(
        tree.resolve(&vec![b"general".to_vec()]),
        tree.resolve(&vec![b"general".to_vec()])
    );
    assert!(tree.remove_child(general, b"sub"));
    assert_eq!(tree.resolve(&vec![b"general".to_vec(), b"sub".to_vec()]), None);
    assert!(!tree.remove_child(general, b"sub"));
}

#[test]
fn orphaned_channel_keeps_working() {
    // Removal detaches the node from the tree but already-issued
    // subscriptions keep receiving until they switch away.
    let mut tree = ChannelTree::new();
    let doomed = tree.create(0, b"doomed".to_vec(), Vec::new());
    let mut sub = tree.subscribe(doomed);
    assert!(tree.remove_child(0, b"doomed"));
    assert_eq!(tree.resolve(&vec![b"doomed".to_vec()]), None);
    tree.publish(doomed, msg(9));
    assert_eq!(msg_byte(sub.recv(&tree)), 9);
}

#[test]
fn children_listing_in_stored_order() {
    let mut tree = ChannelTree::new();
    tree.create(0, b"b".to_vec(), Vec::new());
    tree.create(0, b"a".to_vec(), Vec::new());
    let names = tree.list_children(0);
    assert_eq!(names.len(), 2);
    assert_eq!(names[0].as_slice(), b"b");
    assert_eq!(names[1].as_slice(), b"a");
}

#[test]
fn tree_drawing() {
    let mut tree = ChannelTree::new();
    let g = tree.create(0, b"general".to_vec(), Vec::new());
    tree.create(g, b"sub".to_vec(), Vec::new());
    let drawing = tree.render(0);
    let text = String::from_utf8(drawing).unwrap();
    assert_eq!(text, "0/\r\n1└─general\r\n2      └─sub\r\n");
}

#[test]
fn delivery_step_renders_over_the_buffer() {
    let mut server = Server::default();
    let mut user = User::new(b"alice".to_vec(), &server.tree);
    user.buffer = b"typed".to_vec();
    user.cursor = 5;
    server.tree.publish(0, Event::Msg(b"bob".to_vec(), b"hi".to_vec()));
    match user.delivery_step(&server.tree) {
        DeliveryStep::Output(o) => {
            assert_eq!(o, b"\x1b[2K\r\x1b[1mbob\x1b[0m: hi\r\ntyped".to_vec());
        },
        _ => panic!("expected output"),
    }
    assert!(matches!(user.delivery_step(&server.tree), DeliveryStep::Suspend));
}

#[test]
fn delivery_step_stops_on_terminate_and_reports_lag() {
    let mut server = Server::default();
    let mut user = User::new(b"alice".to_vec(), &server.tree);
    for n in 0..6u8 {
        server.tree.publish(0, msg(n));
    }
    match user.delivery_step(&server.tree) {
        DeliveryStep::Output(o) => {
            assert_eq!(o, b"ECHL: Channel Lost Events: 2\r\n".to_vec());
        },
        _ => panic!("expected lag notice"),
    }
    server.tree.publish(0, Event::Terminate);
    for _ in 0..4 {
        assert!(matches!(user.delivery_step(&server.tree), DeliveryStep::Output(_)));
    }
    assert!(matches!(user.delivery_step(&server.tree), DeliveryStep::Stop));
}

#[test]
fn delivery_step_restores_an_overlay() {
    let mut server = Server::default();
    let mut user = User::new(b"alice".to_vec(), &server.tree);
    let shown = user.info(b"note");
    assert_eq!(shown, b"\x1b[2K\rnote\r".to_vec());
    assert!(matches!(user.state, UserState::Info(_)));
    user.buffer = b"ty".to_vec();
    user.cursor = 2;
    server.tree.publish(0, Event::Msg(b"bob".to_vec(), b"x".to_vec()));
    match user.delivery_step(&server.tree) {
        DeliveryStep::Output(o) => {
            // one-line overlay: erase the line, print the event, reprint
            // overlay and buffer
            assert_eq!(o, b"\x1b[2K\r\x1b[1mbob\x1b[0m: x\r\nnotety".to_vec());
        },
        _ => panic!("expected output"),
    }
    assert!(matches!(user.state, UserState::Info(_)));
}

#[test]
fn clear_info_counts_lines() {
    let server = Server::default();
    let user = User::new(b"alice".to_vec(), &server.tree);
    assert_eq!(user.clear_info(b"one line"), b"\x1b[2K\r".to_vec());
    assert_eq!(user.clear_info(b"a\nb\nc\n"), b"\x1b[1F\x1b[2K\x1b[1F\x1b[2K\x1b[1F\x1b[2K".to_vec());
}

#[test]
fn rebuilding_from_parts_checks_the_shape() {
    let perms = vec![PermEntry {
        kind: RestrictionKind::User(b"alice".to_vec()),
        level: PermLevel::manage(),
    }];
    let parts = vec![
        (perms, vec![(b"general".to_vec(), 1usize)]),
        (Vec::new(), Vec::new()),
    ];
    let tree = tree_from_parts(parts).expect("a well-shaped tree");
    assert_eq!(tree.resolve(&vec![b"general".to_vec()]), Some(1));
    assert_eq!(tree.nodes[0].perms.len(), 1);

    // a child pointing backwards is refused
    assert!(tree_from_parts(vec![
        (Vec::new(), vec![(b"loop".to_vec(), 0usize)]),
    ])
    .is_none());
    // duplicate child names are refused
    assert!(tree_from_parts(vec![
        (Vec::new(), vec![(b"a".to_vec(), 1usize), (b"a".to_vec(), 2usize)]),
        (Vec::new(), Vec::new()),
        (Vec::new(), Vec::new()),
    ])
    .is_none());
    // a rootless record is refused
    assert!(tree_from_parts(Vec::new()).is_none());

    let tree = tree_from_parts(vec![(Vec::new(), Vec::new())]).unwrap();
    let users = vec![
        (b"a".to_vec(), UserConfig::new(b"x")),
        (b"a".to_vec(), UserConfig::new(b"y")),
    ];
    assert!(assemble(tree, users).is_none());
    let tree = tree_from_parts(vec![(Vec::new(), Vec::new())]).unwrap();
    let users = vec![(b"a".to_vec(), UserConfig::new(b"x"))];
    let server = assemble(tree, users).expect("unique names");
    assert!(server.online_users.is_empty());
    assert_eq!(server.users.len(), 1);
}
