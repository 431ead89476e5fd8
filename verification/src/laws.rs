//! What holds of extraction, proved of its model.

use vstd::prelude::*;
use crate::extract::{
    continue_with, lemma_record_shrinks_stream, next_record, parse_records, records_of,
    text_after_key, Step, APPID_KEY, APP_NAME_KEY, EXE_KEY, START_DIR_KEY,
};
use crate::scan::{after_key, has_match, lemma_key_at_start, same_ignoring_case, tag_is_unique};
use crate::shortcut::{Shortcut, ShortcutView};
use crate::text::decoded_text;
use crate::value::{le_bytes, lemma_integer_is_read_back, lemma_text_is_read_back, u32_value};

verus! {

/// Each of the four keys starts with a tag that the rest of it does not
/// hold, which is what the search for a key relies on.
pub proof fn lemma_keys_have_unique_tags()
    ensures
        tag_is_unique(APPID_KEY@),
        tag_is_unique(APP_NAME_KEY@),
        tag_is_unique(EXE_KEY@),
        tag_is_unique(START_DIR_KEY@),
{
}

/// Extraction reads record after record: the records of a stream are its
/// first record and then those of what follows it.
pub proof fn lemma_parse_records_unfolds(s: Seq<u8>)
    ensures
        parse_records(s) == match next_record(s) {
            Step::EndOfStream => Some(Seq::empty()),
            Step::Malformed => None,
            Step::Complete { record, rest } => continue_with(seq![record], parse_records(rest)),
        },
{
    lemma_record_shrinks_stream(s);
}

/// A stream in which the identifier key does not occur holds no record, and
/// that is no failure.
pub proof fn lemma_without_identifier_key_no_record(s: Seq<u8>)
    requires
        !has_match(s, APPID_KEY@),
    ensures
        parse_records(s) == Some(Seq::<ShortcutView>::empty()),
{
}

/// What is left of `s` once `count` whole records are read from it, or `None`
/// where it does not hold that many.
pub open spec fn after_records(s: Seq<u8>, count: nat) -> Option<Seq<u8>>
    decreases count,
{
    if count == 0 {
        Some(s)
    } else {
        match next_record(s) {
            Step::Complete { rest, .. } => after_records(rest, (count - 1) as nat),
            _ => None,
        }
    }
}

/// A failure discards the records before it: where extraction fails behind
/// any number of whole records, it fails for the whole stream.
pub proof fn lemma_failure_discards_earlier_records(s: Seq<u8>, count: nat)
    requires
        after_records(s, count) matches Some(rest) && parse_records(rest) is None,
    ensures
        parse_records(s) is None,
    decreases count,
{
    if count > 0 {
        lemma_parse_records_unfolds(s);
        if let Step::Complete { rest, .. } = next_record(s) {
            lemma_failure_discards_earlier_records(rest, (count - 1) as nat);
        }
    }
}

/// A record that has its identifier and lacks the key of its display name
/// fails the stream, and with it the `count` whole records before it.
pub proof fn lemma_record_without_name_key_fails(s: Seq<u8>, count: nat)
    requires
        after_records(s, count) matches Some(stream) && after_key(stream, APPID_KEY@) matches Some(
            value,
        ) && u32_value(value) matches Some((_, rest)) && !has_match(rest, APP_NAME_KEY@),
    ensures
        parse_records(s) is None,
{
    lemma_failure_discards_earlier_records(s, count);
}

/// Extraction depends on the bytes alone: two results for the same buffer
/// hold the same records, or both hold none.
pub proof fn lemma_same_buffer_same_records(
    contents: Seq<u8>,
    first: Option<Vec<Shortcut>>,
    second: Option<Vec<Shortcut>>,
)
    requires
        records_of(first) == parse_records(contents),
        records_of(second) == parse_records(contents),
    ensures
        records_of(first) == records_of(second),
{
}

/// The fields of a record as bytes: what a file holds before any decoding.
pub struct RawRecord {
    pub appid: u32,
    pub app_name: Seq<u8>,
    pub executable: Seq<u8>,
    pub start_dir: Seq<u8>,
}

/// The four keys of a record as one file spells them.
pub struct KeySpelling {
    pub appid: Seq<u8>,
    pub app_name: Seq<u8>,
    pub executable: Seq<u8>,
    pub start_dir: Seq<u8>,
}

impl KeySpelling {
    /// The spelling under which extraction looks for the keys.
    pub open spec fn canonical() -> KeySpelling {
        KeySpelling {
            appid: APPID_KEY@,
            app_name: APP_NAME_KEY@,
            executable: EXE_KEY@,
            start_dir: START_DIR_KEY@,
        }
    }

    /// Each key is spelled as extraction looks for it, letter case aside.
    pub open spec fn is_valid(self) -> bool {
        &&& same_ignoring_case(self.appid, APPID_KEY@)
        &&& same_ignoring_case(self.app_name, APP_NAME_KEY@)
        &&& same_ignoring_case(self.executable, EXE_KEY@)
        &&& same_ignoring_case(self.start_dir, START_DIR_KEY@)
    }
}

/// A text field as a file holds it: key, text, terminator.
pub open spec fn written_text(key: Seq<u8>, text: Seq<u8>) -> Seq<u8> {
    key + text + seq![0u8]
}

impl RawRecord {
    /// No text of the record holds a nul byte, so each can be written with a
    /// terminator.
    pub open spec fn is_writable(self) -> bool {
        &&& !self.app_name.contains(0u8)
        &&& !self.executable.contains(0u8)
        &&& !self.start_dir.contains(0u8)
    }

    /// The record as a file holds it where nothing stands between its fields.
    pub open spec fn written(self, keys: KeySpelling) -> Seq<u8> {
        keys.appid + le_bytes(self.appid)
            + written_text(keys.app_name, self.app_name)
            + written_text(keys.executable, self.executable)
            + written_text(keys.start_dir, self.start_dir)
    }

    /// The record that extraction makes of these fields.
    pub open spec fn decoded(self) -> ShortcutView {
        ShortcutView {
            appid: self.appid,
            app_name: decoded_text(self.app_name),
            executable: decoded_text(self.executable),
            start_dir: decoded_text(self.start_dir),
        }
    }
}

/// Records as a file holds them where nothing stands between them.
pub open spec fn written_records(records: Seq<RawRecord>, keys: KeySpelling) -> Seq<u8>
    decreases records.len(),
{
    if records.len() == 0 {
        Seq::empty()
    } else {
        records.first().written(keys) + written_records(records.drop_first(), keys)
    }
}

/// A text field at the start of a stream is read back.
proof fn lemma_written_text_is_read_back(
    key: Seq<u8>,
    spelled: Seq<u8>,
    text: Seq<u8>,
    tail: Seq<u8>,
)
    requires
        same_ignoring_case(spelled, key),
        !text.contains(0u8),
    ensures
        text_after_key(written_text(spelled, text) + tail, key) == Some(
            (decoded_text(text), tail),
        ),
{
    let value = text + seq![0u8] + tail;
    assert(written_text(spelled, text) + tail =~= spelled + value);
    lemma_key_at_start(key, spelled, value);
    lemma_text_is_read_back(text, tail);
}

/// A record at the start of a stream is read back field by field, whatever
/// follows it and in whatever letter case its keys are spelled: the
/// identifier as it was written, each text decoded.
pub proof fn lemma_written_record_is_read_back(record: RawRecord, keys: KeySpelling, tail: Seq<u8>)
    requires
        record.is_writable(),
        keys.is_valid(),
    ensures
        next_record(record.written(keys) + tail) == (Step::Complete {
            record: record.decoded(),
            rest: tail,
        }),
{
    let s3 = written_text(keys.start_dir, record.start_dir) + tail;
    let s2 = written_text(keys.executable, record.executable) + s3;
    let s1 = written_text(keys.app_name, record.app_name) + s2;
    let value = le_bytes(record.appid) + s1;
    assert(record.written(keys) + tail =~= keys.appid + value);
    lemma_key_at_start(APPID_KEY@, keys.appid, value);
    lemma_integer_is_read_back(record.appid, s1);
    lemma_written_text_is_read_back(APP_NAME_KEY@, keys.app_name, record.app_name, s2);
    lemma_written_text_is_read_back(EXE_KEY@, keys.executable, record.executable, s3);
    lemma_written_text_is_read_back(START_DIR_KEY@, keys.start_dir, record.start_dir, tail);
}

/// Records that were written one after the other are all read back, in the
/// order in which they were written, where no identifier key follows them.
/// The letter case in which the file spells the keys makes no difference.
pub proof fn lemma_written_records_are_read_back(
    records: Seq<RawRecord>,
    keys: KeySpelling,
    tail: Seq<u8>,
)
    requires
        forall|i: int| 0 <= i < records.len() ==> (#[trigger] records[i]).is_writable(),
        keys.is_valid(),
        !has_match(tail, APPID_KEY@),
    ensures
        parse_records(written_records(records, keys) + tail) == Some(
            records.map_values(|record: RawRecord| record.decoded()),
        ),
    decreases records.len(),
{
    let read = records.map_values(|record: RawRecord| record.decoded());
    if records.len() == 0 {
        assert(written_records(records, keys) + tail =~= tail);
        assert(read =~= Seq::empty());
    } else {
        let first = records.first();
        let others = records.drop_first();
        let rest = written_records(others, keys) + tail;
        assert(written_records(records, keys) + tail =~= first.written(keys) + rest);
        lemma_written_record_is_read_back(first, keys, rest);
        lemma_parse_records_unfolds(first.written(keys) + rest);
        lemma_written_records_are_read_back(others, keys, tail);
        assert(read =~= seq![first.decoded()] + others.map_values(
            |record: RawRecord| record.decoded(),
        ));
    }
}

/// A file that spells the keys in another letter case holds the same
/// records as the file with the keys in their canonical spelling.
pub proof fn lemma_key_case_gives_same_records(
    records: Seq<RawRecord>,
    keys: KeySpelling,
    tail: Seq<u8>,
)
    requires
        forall|i: int| 0 <= i < records.len() ==> (#[trigger] records[i]).is_writable(),
        keys.is_valid(),
        !has_match(tail, APPID_KEY@),
    ensures
        parse_records(written_records(records, keys) + tail) == parse_records(
            written_records(records, KeySpelling::canonical()) + tail,
        ),
{
    lemma_written_records_are_read_back(records, keys, tail);
    lemma_written_records_are_read_back(records, KeySpelling::canonical(), tail);
}

} // verus!
