//! Shortcut records and the identifier that the launcher derives from one.

use vstd::prelude::*;
use vstd::string::StrSliceExecFns;
use vstd::utf8::encode_utf8;
use crate::checksum::{checksum, crc32_iso_hdlc};

verus! {

/// An application that the user added to the launcher by hand.
#[derive(Clone, Debug, PartialEq, Eq)]
#[non_exhaustive]
pub struct Shortcut {
    /// The identifier that the launcher gave the shortcut.
    pub appid: u32,
    /// The name under which the application is shown.
    pub app_name: String,
    /// The command that launches the application: a program's name or its
    /// full path, with whatever quotes the file holds.
    pub executable: String,
    /// The directory in which the application is to run.
    pub start_dir: String,
}

/// A shortcut as plain values.
pub struct ShortcutView {
    pub appid: u32,
    pub app_name: Seq<char>,
    pub executable: Seq<char>,
    pub start_dir: Seq<char>,
}

impl View for Shortcut {
    type V = ShortcutView;

    open spec fn view(&self) -> ShortcutView {
        ShortcutView {
            appid: self.appid,
            app_name: self.app_name@,
            executable: self.executable@,
            start_dir: self.start_dir@,
        }
    }
}

/// The records of a list, as plain values.
pub open spec fn views(list: Seq<Shortcut>) -> Seq<ShortcutView> {
    list.map_values(|s: Shortcut| s@)
}

/// The identifier that the launcher derives from a checksum: the checksum
/// with its highest bit set in the upper half, a fixed marker in the lower.
pub open spec fn steam_id_of(checksum: u32) -> u64 {
    (((checksum | 0x8000_0000u32) as u64) << 32) | 0x0200_0000u64
}

/// The bytes that the identifier is a checksum of: the launch command, then
/// the display name, both as UTF-8.
pub open spec fn steam_id_input(shortcut: ShortcutView) -> Seq<u8> {
    encode_utf8(shortcut.executable) + encode_utf8(shortcut.app_name)
}

/// Packs a checksum into an identifier.
pub fn steam_id_from_checksum(checksum: u32) -> (id: u64)
    ensures
        id == steam_id_of(checksum),
{
    (((checksum | 0x8000_0000u32) as u64) << 32) | 0x0200_0000u64
}

impl Shortcut {
    /// A shortcut of the four given fields.
    pub fn new(
        appid: u32,
        app_name: String,
        executable: String,
        start_dir: String,
    ) -> (shortcut: Self)
        ensures
            shortcut@ == (ShortcutView {
                appid,
                app_name: app_name@,
                executable: executable@,
                start_dir: start_dir@,
            }),
    {
        Shortcut { appid, app_name, executable, start_dir }
    }

    /// The identifier under which the launcher files the shortcut. It depends
    /// on the launch command and the display name alone.
    pub fn steam_id(&self) -> (id: u64)
        ensures
            id == steam_id_of(crc32_iso_hdlc(steam_id_input(self@))),
    {
        let mut bytes = self.executable.as_str().as_bytes_vec();
        let mut name = self.app_name.as_str().as_bytes_vec();
        bytes.append(&mut name);
        steam_id_from_checksum(checksum(bytes.as_slice()))
    }
}

/// The two halves of an identifier: the checksum with its highest bit set
/// above, the marker below. The identifier's own highest bit is therefore set.
pub proof fn lemma_steam_id_halves(checksum: u32)
    ensures
        steam_id_of(checksum) >> 32 == (checksum | 0x8000_0000u32) as u64,
        steam_id_of(checksum) & 0xffff_ffffu64 == 0x0200_0000u64,
        steam_id_of(checksum) >= 0x8000_0000_0200_0000u64,
{
    let id = steam_id_of(checksum);
    assert(id >> 32 == (checksum | 0x8000_0000u32) as u64 && id & 0xffff_ffffu64 == 0x0200_0000u64
        && id >= 0x8000_0000_0200_0000u64) by (bit_vector)
        requires
            id == (((checksum | 0x8000_0000u32) as u64) << 32) | 0x0200_0000u64,
    ;
}

} // verus!
