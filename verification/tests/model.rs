use termchat::perm::{resolve_permission, sort_perms, PermEntry, PermLevel, RestrictionKind};
use termchat::user::UserConfig;
use termchat::util::{bytes_eq, fmt_u64, is_utf8, split_bytes, trim_range};
use termchat::path::parse_path;
use termchat::event::Event;
use termchat::commands::CommandError;

fn rwm() -> PermLevel {
    PermLevel::read().or(PermLevel::write()).or(PermLevel::manage())
}

fn rw() -> PermLevel {
    PermLevel::read().or(PermLevel::write())
}

#[test]
fn perm_level_bits() {
    assert_eq!(PermLevel::none().bits, 0);
    assert_eq!(PermLevel::read().bits, 1);
    assert_eq!(PermLevel::write().bits, 2);
    assert_eq!(PermLevel::manage().bits, 4);
    assert_eq!(rwm().bits, 7);
    assert!(rwm().contains(PermLevel::manage()));
    assert!(!rw().contains(PermLevel::manage()));
    assert!(rw().contains(PermLevel::read()));
}

#[test]
fn user_rule_beats_all_rule_after_sorting() {
    // The All rule is inserted first; sorting must still let the
    // more specific User rule win for that user.
    let perms = vec![
        PermEntry { kind: RestrictionKind::All, level: PermLevel::read() },
        PermEntry { kind: RestrictionKind::User(b"alice".to_vec()), level: rwm() },
    ];
    let sorted = sort_perms(perms);
    assert!(matches!(sorted[0].kind, RestrictionKind::User(_)));
    assert!(matches!(sorted[1].kind, RestrictionKind::All));
    let roles: Vec<(Vec<u8>, PermLevel)> = Vec::new();
    let alice = resolve_permission(&sorted, b"alice", &roles);
    assert_eq!(alice.bits, 7);
    let bob = resolve_permission(&sorted, b"bob", &roles);
    assert_eq!(bob.bits, 1);
}

#[test]
fn role_rule_matches_role_set() {
    let perms = vec![
        PermEntry { kind: RestrictionKind::Role(b"mods".to_vec()), level: rw() },
        PermEntry { kind: RestrictionKind::All, level: PermLevel::read() },
    ];
    let mod_roles = vec![(b"mods".to_vec(), PermLevel::none())];
    let plain_roles: Vec<(Vec<u8>, PermLevel)> = Vec::new();
    assert_eq!(resolve_permission(&perms, b"carol", &mod_roles).bits, 3);
    assert_eq!(resolve_permission(&perms, b"carol", &plain_roles).bits, 1);
}

#[test]
fn empty_list_resolves_to_none_level() {
    let perms: Vec<PermEntry> = Vec::new();
    let roles: Vec<(Vec<u8>, PermLevel)> = Vec::new();
    assert_eq!(resolve_permission(&perms, b"anyone", &roles).bits, 0);
}

#[test]
fn sort_is_stable_within_rank() {
    let perms = vec![
        PermEntry { kind: RestrictionKind::Role(b"b".to_vec()), level: PermLevel::read() },
        PermEntry { kind: RestrictionKind::User(b"u2".to_vec()), level: PermLevel::write() },
        PermEntry { kind: RestrictionKind::Role(b"a".to_vec()), level: PermLevel::write() },
        PermEntry { kind: RestrictionKind::User(b"u1".to_vec()), level: PermLevel::read() },
    ];
    let sorted = sort_perms(perms);
    match (&sorted[0].kind, &sorted[1].kind, &sorted[2].kind, &sorted[3].kind) {
        (
            RestrictionKind::User(a),
            RestrictionKind::User(b),
            RestrictionKind::Role(c),
            RestrictionKind::Role(d),
        ) => {
            assert_eq!(a.as_slice(), b"u2");
            assert_eq!(b.as_slice(), b"u1");
            assert_eq!(c.as_slice(), b"b");
            assert_eq!(d.as_slice(), b"a");
        },
        _ => panic!("wrong order after sort"),
    }
}

#[test]
fn hash_is_deterministic_and_spreads() {
    assert_eq!(UserConfig::hash(b"admin"), UserConfig::hash(b"admin"));
    assert_ne!(UserConfig::hash(b"admin"), UserConfig::hash(b"admin1"));
    assert_ne!(UserConfig::hash(b""), UserConfig::hash(b"a"));
    let cfg = UserConfig::new(b"secret");
    assert_eq!(cfg.hash, UserConfig::hash(b"secret"));
    assert!(cfg.roles.is_empty());
}

#[test]
fn roles_lookup_and_global_union() {
    let mut cfg = UserConfig::new(b"x");
    cfg.roles.push((b"mods".to_vec(), PermLevel::read()));
    cfg.roles.push((b"ops".to_vec(), PermLevel::manage()));
    assert_eq!(cfg.get_role(b"mods").map(|l| l.bits), Some(1));
    assert_eq!(cfg.get_role(b"ops").map(|l| l.bits), Some(4));
    assert!(cfg.get_role(b"nobody").is_none());
    assert_eq!(cfg.get_global_perms().bits, 5);
}

#[test]
fn decimal_rendering() {
    assert_eq!(fmt_u64(0), b"0".to_vec());
    assert_eq!(fmt_u64(7), b"7".to_vec());
    assert_eq!(fmt_u64(1024), b"1024".to_vec());
    assert_eq!(fmt_u64(u64::MAX), b"18446744073709551615".to_vec());
}

#[test]
fn byte_helpers() {
    assert!(bytes_eq(b"abc", b"abc"));
    assert!(!bytes_eq(b"abc", b"abd"));
    assert!(!bytes_eq(b"abc", b"ab"));
    let (a, b) = trim_range(b"  hi there \t");
    assert_eq!(&b"  hi there \t"[a..b], b"hi there");
    let (a, b) = trim_range(b"   ");
    assert!(a >= b);
}

#[test]
fn utf8_gate() {
    assert!(is_utf8(b"plain ascii"));
    assert!(is_utf8("héllo ↑".as_bytes()));
    assert!(!is_utf8(b"\xff\xfe"));
    assert!(!is_utf8(b"\xc3"));
}

#[test]
fn splitting_collapses_empty_pieces() {
    let toks = split_bytes(b"reply bob  hi   there", 32);
    let toks: Vec<&[u8]> = toks.iter().map(|t| t.as_slice()).collect();
    assert_eq!(toks, vec![&b"reply"[..], b"bob", b"hi", b"there"]);
    assert!(split_bytes(b"   ", 32).is_empty());
}

#[test]
fn path_joining() {
    let base = vec![b"general".to_vec()];
    let rel = parse_path(&base, b"sub");
    assert_eq!(rel.len(), 2);
    assert_eq!(rel[0].as_slice(), b"general");
    assert_eq!(rel[1].as_slice(), b"sub");
    let abs = parse_path(&base, b"/other//deep/");
    assert_eq!(abs.len(), 2);
    assert_eq!(abs[0].as_slice(), b"other");
    assert_eq!(abs[1].as_slice(), b"deep");
    let root = parse_path(&base, b"/");
    assert!(root.is_empty());
}

#[test]
fn event_rendering() {
    let msg = Event::Msg(b"alice".to_vec(), b"hello".to_vec());
    assert_eq!(msg.render(), b"\x1b[1malice\x1b[0m: hello".to_vec());
    let join = Event::Join(b"bob".to_vec());
    assert_eq!(join.render(), b"[\x1b[1mbob\x1b[0m joined]".to_vec());
    let leave = Event::Leave(b"bob".to_vec());
    assert_eq!(leave.render(), b"[\x1b[1mbob\x1b[0m left]".to_vec());
    let reply = Event::Reply(b"a".to_vec(), b"b".to_vec(), b"hi".to_vec());
    assert_eq!(
        reply.render(),
        b"\x1b[1ma\x1b[0m \x1b[3m\x1b[90mto\x1b[0m \x1b[1mb\x1b[0m: hi".to_vec()
    );
}

#[test]
fn error_rendering() {
    assert_eq!(
        CommandError::Forbidden.message(),
        b"\x1b[31m\x1b[1mEFRBD: Forbidden\x1b[0m".to_vec()
    );
    assert_eq!(
        CommandError::InvalidUtf8.message(),
        b"\x1b[31m\x1b[1mEUTF: Invalid utf8\x1b[0m".to_vec()
    );
}
