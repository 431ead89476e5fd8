//! The identifier that the launcher derives from a shortcut.

use steam_shortcuts::shortcut::{steam_id_from_checksum, Shortcut};

#[test]
fn identifier_of_a_known_shortcut() {
    let shortcut = Shortcut::new(2786274309, "Anki".into(), "\"anki\"".into(), "\"./\"".into());
    assert_eq!(shortcut.steam_id(), 0xe89614fe02000000);
}

#[test]
fn identifier_packs_the_checksum() {
    assert_eq!(steam_id_from_checksum(0x689614fe), 0xe89614fe02000000);
    assert_eq!(steam_id_from_checksum(0xe89614fe), 0xe89614fe02000000);
    assert_eq!(steam_id_from_checksum(0), 0x8000000002000000);
    assert_eq!(steam_id_from_checksum(0x7fffffff), 0xffffffff02000000);
    assert_eq!(steam_id_from_checksum(u32::MAX), 0xffffffff02000000);
    assert_eq!(steam_id_from_checksum(1), 0x8000000102000000);
}

#[test]
fn identifier_of_empty_fields() {
    // The checksum of no bytes at all is zero.
    let shortcut = Shortcut::new(1, String::new(), String::new(), String::new());
    assert_eq!(shortcut.steam_id(), 0x8000000002000000);
}

#[test]
fn identifier_is_a_checksum_of_the_bytes() {
    // "123456789" is the check input of the checksum's catalogue entry.
    let split = Shortcut::new(0, "56789".into(), "1234".into(), String::new());
    assert_eq!(split.steam_id(), 0xcbf4392602000000);
    let whole = Shortcut::new(0, String::new(), "123456789".into(), String::new());
    assert_eq!(whole.steam_id(), 0xcbf4392602000000);
}

#[test]
fn identifier_depends_on_command_and_name_alone() {
    let one = Shortcut::new(1, "foo.sh".into(), "\"/usr/local/bin/foo.sh\"".into(), "a".into());
    let other = Shortcut::new(999, "foo.sh".into(), "\"/usr/local/bin/foo.sh\"".into(), "b".into());
    assert_eq!(one.steam_id(), 0x9d55017302000000);
    assert_eq!(other.steam_id(), 0x9d55017302000000);
}

#[test]
fn identifier_takes_the_command_first() {
    let shortcut = Shortcut::new(0, "\"anki\"".into(), "Anki".into(), String::new());
    assert_ne!(shortcut.steam_id(), 0xe89614fe02000000);
}

#[test]
fn identifier_is_stable() {
    let shortcut = Shortcut::new(
        2492174738,
        "LibreOffice Calc".into(),
        "\"libreoffice\"".into(),
        "\"./\"".into(),
    );
    assert_eq!(shortcut.steam_id(), 0xdb01c79902000000);
    assert_eq!(shortcut.steam_id(), shortcut.clone().steam_id());
}

#[test]
fn shortcut_holds_its_four_fields() {
    let shortcut = Shortcut::new(7, "name".into(), "command".into(), "dir".into());
    assert_eq!(shortcut.appid, 7);
    assert_eq!(shortcut.app_name, "name");
    assert_eq!(shortcut.executable, "command");
    assert_eq!(shortcut.start_dir, "dir");
}
