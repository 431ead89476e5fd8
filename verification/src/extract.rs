//! Extraction of the shortcut records from a file's bytes.
//!
//! The file is a binary key-value container of which no grammar is published.
//! Extraction does not parse the container. It looks for the four keys of a
//! record, in their fixed order, and reads the value behind each; whatever
//! stands between them is skipped.

use vstd::prelude::*;
use crate::cursor::Cursor;
use crate::scan::{after_key, after_many_case_insensitive, lemma_after_key_is_suffix};
use crate::shortcut::{views, Shortcut, ShortcutView};
use crate::text::decoded_text;
use crate::value::{parse_value_str, parse_value_u32, text_value, u32_value};

verus! {

/// The key of a record's identifier: tag `0x02`, `appid`, nul.
pub const APPID_KEY: [u8; 7] = [0x02, 0x61, 0x70, 0x70, 0x69, 0x64, 0x00];

/// The key of a record's display name: tag `0x01`, `AppName`, nul.
pub const APP_NAME_KEY: [u8; 9] = [0x01, 0x41, 0x70, 0x70, 0x4e, 0x61, 0x6d, 0x65, 0x00];

/// The key of a record's launch command: tag `0x01`, `Exe`, nul.
pub const EXE_KEY: [u8; 5] = [0x01, 0x45, 0x78, 0x65, 0x00];

/// The key of a record's working directory: tag `0x01`, `StartDir`, nul.
pub const START_DIR_KEY: [u8; 10] = [0x01, 0x53, 0x74, 0x61, 0x72, 0x74, 0x44, 0x69, 0x72, 0x00];

/// What extraction finds at the start of a stream.
pub enum Step {
    /// No further identifier key: the records are complete.
    EndOfStream,
    /// A record began and did not end: a key or a value of it is missing.
    Malformed,
    /// One whole record, and the bytes that follow it.
    Complete { record: ShortcutView, rest: Seq<u8> },
}

/// The text value behind the first occurrence of `key` in `s`, decoded, and
/// what follows it.
pub open spec fn text_after_key(s: Seq<u8>, key: Seq<u8>) -> Option<(Seq<char>, Seq<u8>)> {
    match after_key(s, key) {
        Some(value) => match text_value(value) {
            Some((raw, rest)) => Some((decoded_text(raw), rest)),
            None => None,
        },
        None => None,
    }
}

/// The first record of `s`.
///
/// A stream without an identifier key has ended. Once that key is found, its
/// value and the three other keys with their values have to follow, in this
/// order.
pub open spec fn next_record(s: Seq<u8>) -> Step {
    match after_key(s, APPID_KEY@) {
        None => Step::EndOfStream,
        Some(value) => match u32_value(value) {
            None => Step::Malformed,
            Some((appid, s1)) => match text_after_key(s1, APP_NAME_KEY@) {
                None => Step::Malformed,
                Some((app_name, s2)) => match text_after_key(s2, EXE_KEY@) {
                    None => Step::Malformed,
                    Some((executable, s3)) => match text_after_key(s3, START_DIR_KEY@) {
                        None => Step::Malformed,
                        Some((start_dir, rest)) => Step::Complete {
                            record: ShortcutView { appid, app_name, executable, start_dir },
                            rest,
                        },
                    },
                },
            },
        },
    }
}

/// All records of `s` in stream order, or `None` where any record of it is
/// malformed, however many whole records precede that one.
///
/// The comparison of lengths is there to show that the definition comes to an
/// end. It holds of every whole record.
pub open spec fn parse_records(s: Seq<u8>) -> Option<Seq<ShortcutView>>
    decreases s.len(),
{
    match next_record(s) {
        Step::EndOfStream => Some(Seq::empty()),
        Step::Malformed => None,
        Step::Complete { record, rest } => if rest.len() < s.len() {
            match parse_records(rest) {
                Some(tail) => Some(seq![record] + tail),
                None => None,
            }
        } else {
            None
        },
    }
}

/// The text value behind a key, where there is one, ends before the input does.
proof fn lemma_text_after_key_shrinks(s: Seq<u8>, key: Seq<u8>)
    ensures
        text_after_key(s, key) matches Some((_, rest)) ==> rest.len() < s.len(),
{
    lemma_after_key_is_suffix(s, key);
    if let Some(value) = after_key(s, key) {
        value.index_of_first_ensures(0u8);
    }
}

/// A whole record takes up at least one byte, so extraction comes to an end.
pub proof fn lemma_record_shrinks_stream(s: Seq<u8>)
    ensures
        next_record(s) matches Step::Complete { rest, .. } ==> rest.len() < s.len(),
{
    lemma_after_key_is_suffix(s, APPID_KEY@);
    if let Some(value) = after_key(s, APPID_KEY@) {
        if let Some((_, s1)) = u32_value(value) {
            lemma_text_after_key_shrinks(s1, APP_NAME_KEY@);
            if let Some((_, s2)) = text_after_key(s1, APP_NAME_KEY@) {
                lemma_text_after_key_shrinks(s2, EXE_KEY@);
                if let Some((_, s3)) = text_after_key(s2, EXE_KEY@) {
                    lemma_text_after_key_shrinks(s3, START_DIR_KEY@);
                }
            }
        }
    }
}

/// The records found so far, followed by those of the rest of the stream.
pub open spec fn continue_with(
    found: Seq<ShortcutView>,
    rest: Option<Seq<ShortcutView>>,
) -> Option<Seq<ShortcutView>> {
    match rest {
        Some(tail) => Some(found + tail),
        None => None,
    }
}

/// What a result of extraction holds, as plain values.
pub open spec fn records_of(shortcuts: Option<Vec<Shortcut>>) -> Option<Seq<ShortcutView>> {
    match shortcuts {
        Some(list) => Some(views(list@)),
        None => None,
    }
}

/// Extracts the shortcut records from the bytes of one file.
///
/// The result holds every record in the order of the file, or nothing at all:
/// one malformed record fails the whole buffer, also where whole records
/// precede it. A buffer without any identifier key holds no record, which is
/// no failure.
pub fn parse_shortcuts(contents: &[u8]) -> (shortcuts: Option<Vec<Shortcut>>)
    ensures
        records_of(shortcuts) == parse_records(contents@),
{
    let mut it = Cursor::new(contents);
    let mut shortcuts: Vec<Shortcut> = Vec::new();
    loop
        invariant
            it@.len() <= contents@.len(),
            parse_records(contents@) == continue_with(views(shortcuts@), parse_records(it@)),
        decreases it@.len(),
    {
        let ghost s = it@;
        proof {
            lemma_record_shrinks_stream(s);
        }
        if !after_many_case_insensitive(&mut it, &APPID_KEY) {
            return Some(shortcuts);
        }
        let appid = match parse_value_u32(&mut it) {
            Some(appid) => appid,
            None => {
                return None;
            },
        };
        if !after_many_case_insensitive(&mut it, &APP_NAME_KEY) {
            return None;
        }
        let app_name = match parse_value_str(&mut it) {
            Some(app_name) => app_name,
            None => {
                return None;
            },
        };
        if !after_many_case_insensitive(&mut it, &EXE_KEY) {
            return None;
        }
        let executable = match parse_value_str(&mut it) {
            Some(executable) => executable,
            None => {
                return None;
            },
        };
        if !after_many_case_insensitive(&mut it, &START_DIR_KEY) {
            return None;
        }
        let start_dir = match parse_value_str(&mut it) {
            Some(start_dir) => start_dir,
            None => {
                return None;
            },
        };
        let shortcut = Shortcut { appid, app_name, executable, start_dir };
        assert(next_record(s) == Step::Complete { record: shortcut@, rest: it@ });
        shortcuts.push(shortcut);
    }
}

/// The records that one file adds to a collection: all records of a
/// well-formed file, none of a malformed one.
pub open spec fn usable_records(contents: Seq<u8>) -> Seq<ShortcutView> {
    match parse_records(contents) {
        Some(records) => records,
        None => Seq::empty(),
    }
}

/// The records of several files: file after file in the order given, the
/// records of each in the order of its stream.
pub open spec fn gathered_records(files: Seq<Seq<u8>>) -> Seq<ShortcutView>
    decreases files.len(),
{
    if files.len() == 0 {
        Seq::empty()
    } else {
        gathered_records(files.drop_last()) + usable_records(files.last())
    }
}

/// The bytes of each file of a list.
pub open spec fn contents_of(files: Seq<Vec<u8>>) -> Seq<Seq<u8>> {
    files.map_values(|file: Vec<u8>| file@)
}

/// Extracts the records of every file and joins them in the order of the
/// files. A malformed file adds nothing and stops nothing: the files after it
/// are still read.
pub fn gather_shortcuts(files: &[Vec<u8>]) -> (shortcuts: Vec<Shortcut>)
    ensures
        views(shortcuts@) == gathered_records(contents_of(files@)),
{
    let mut shortcuts: Vec<Shortcut> = Vec::new();
    let mut i: usize = 0;
    while i < files.len()
        invariant
            i <= files@.len(),
            views(shortcuts@) == gathered_records(contents_of(files@).take(i as int)),
        decreases files@.len() - i,
    {
        let ghost done = contents_of(files@).take(i as int);
        let ghost next = contents_of(files@).take(i + 1);
        assert(next.drop_last() =~= done);
        if let Some(mut parsed) = parse_shortcuts(files[i].as_slice()) {
            shortcuts.append(&mut parsed);
        }
        i = i + 1;
    }
    assert(contents_of(files@).take(i as int) =~= contents_of(files@));
    shortcuts
}

} // verus!
