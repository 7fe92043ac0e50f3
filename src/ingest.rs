use vstd::prelude::*;
use vstd::string::StringExecFns;
use vstd::utf8::encode_utf8;

use crate::control::Effect;
use crate::json::{as_int, as_text, int_value, json_int, json_text};
use crate::record_log::{
    appended_bytes, archive_dir_name, row_bytes, staging_file_name, Record,
    DEFAULT_ROWS_PER_FILE,
};
use crate::store::Store;

verus! {

/// An OSC string: its bytes, then one to four zero bytes, to a multiple of four.
pub open spec fn osc_padded(b: Seq<u8>) -> Seq<u8> {
    b + Seq::new((4 - b.len() % 4) as nat, |i: int| 0u8)
}

/// The bytes of an OSC message with this address and one string argument: the address,
/// the type tags `,s`, then the text, each as an OSC string.
pub open spec fn osc_string_message(addr: Seq<char>, text: Seq<char>) -> Seq<u8> {
    osc_padded(encode_utf8(addr)) + osc_padded(seq![44u8, 115u8]) + osc_padded(encode_utf8(text))
}

/// Relies on `rosc::encoder::encode`, which never fails on a message: the address, the type
/// tags and the string argument, each padded with zero bytes to a multiple of four.
#[verifier::external_body]
fn encode_string_message(addr: &str, text: &str) -> (r: Vec<u8>)
    ensures
        r@ == osc_string_message(addr@, text@),
{
    let packet = rosc::OscPacket::Message(rosc::OscMessage {
        addr: addr.to_string(),
        args: vec![rosc::OscType::String(text.to_string())],
    });
    match rosc::encoder::encode(&packet) {
        Ok(b) => b,
        Err(_) => Vec::new(),
    }
}

/// The offset that RFC 3339 writes for UTC.
pub open spec fn utc_suffix() -> Seq<char> {
    "+00:00"@
}

/// Whether a timestamp ends in the UTC offset.
pub open spec fn is_utc_stamp(t: Seq<char>) -> bool {
    t.len() > utc_suffix().len() && t.subrange(t.len() - utc_suffix().len(), t.len() as int)
        == utc_suffix()
}

/// Relies on `chrono::Utc::now` and `DateTime::to_rfc3339`: the time now, in RFC 3339, which
/// writes a zero offset as `+00:00` after the date and time.
#[verifier::external_body]
fn now_rfc3339() -> (r: String)
    ensures
        is_utc_stamp(r@),
{
    chrono::Utc::now().to_rfc3339()
}

/// A record of `sentence` in `language`, stamped with the time now.
pub fn record_now(language: &str, sentence: &str) -> (r: Record)
    ensures
        r.language@ == language@,
        r.sentence@ == sentence@,
        is_utc_stamp(r.timestamp@),
{
    let t = now_rfc3339();
    Record::new(language, sentence, t.as_str())
}

/// The number of rows after which the staging file is archived, from the setting's
/// integer value. A negative value rotates on every submission, as a threshold of 0
/// does; where the setting holds no integer the default applies.
pub fn threshold_of(setting: Option<i64>) -> (r: u64)
    ensures
        r == match setting {
            Some(n) => threshold_of_spec(n),
            None => DEFAULT_ROWS_PER_FILE,
        },
{
    match setting {
        Some(n) => if n >= 0 {
            n as u64
        } else {
            0
        },
        None => DEFAULT_ROWS_PER_FILE,
    }
}

/// The rotation threshold that the settings hold.
pub fn rows_per_file(settings: &Store) -> (r: u64)
    requires
        settings.wf(),
    ensures
        !settings@.contains_key("max_sentences_per_csv"@) ==> r == DEFAULT_ROWS_PER_FILE,
        forall|n: i64|
            settings@.get("max_sentences_per_csv"@) == Some(json_int(n as int)) ==> r
                == threshold_of_spec(n),
        forall|s: Seq<char>|
            settings@.get("max_sentences_per_csv"@) == Some(json_text(s)) ==> r
                == DEFAULT_ROWS_PER_FILE,
{
    match settings.get("max_sentences_per_csv") {
        Some(v) => threshold_of(as_int(v)),
        None => DEFAULT_ROWS_PER_FILE,
    }
}

/// The threshold that an integer setting gives: the number itself, or 0 (rotate on every
/// submission) for a negative one.
pub open spec fn threshold_of_spec(n: i64) -> u64 {
    if n >= 0 {
        n as u64
    } else {
        0
    }
}

/// The address to which new sentences are forwarded, if one is set.
pub fn forward_address(settings: &Store) -> (r: Option<String>)
    requires
        settings.wf(),
    ensures
        !settings@.contains_key("td_osc_address"@) ==> r is None,
        forall|s: Seq<char>|
            settings@.get("td_osc_address"@) == Some(json_text(s)) ==> r is Some && r->0@ == s,
        forall|n: i64| settings@.get("td_osc_address"@) == Some(json_int(n as int)) ==> r is None,
{
    match settings.get("td_osc_address") {
        Some(v) => as_text(v),
        None => None,
    }
}

/// The settings that hold from the start unless the settings file says otherwise.
pub open spec fn default_settings() -> Map<Seq<char>, serde_json::Value> {
    map!["max_characters"@ => json_int(160), "max_sentences_per_csv"@ => json_int(100)]
}

/// Gives each of the default settings its default value where the cache has none.
pub fn ensure_default_settings(store: &mut Store)
    requires
        old(store).wf(),
    ensures
        final(store).wf(),
        final(store).path_view() == old(store).path_view(),
        final(store).defaults_view() == old(store).defaults_view(),
        final(store)@ == default_settings().union_prefer_right(old(store)@),
{
    let ghost start = store@;
    proof {
        reveal_strlit("max_characters");
        reveal_strlit("max_sentences_per_csv");
        assert("max_characters"@.len() != "max_sentences_per_csv"@.len());
    }
    if !store.has("max_characters") {
        let v = int_value(160);
        let _ = store.insert("max_characters".to_owned(), v);
    }
    if !store.has("max_sentences_per_csv") {
        let v = int_value(100);
        let _ = store.insert("max_sentences_per_csv".to_owned(), v);
    }
    assert(store@ =~= default_settings().union_prefer_right(start));
}

/// A notification to send to the forwarding address.
pub struct Forward {
    pub address: String,
    pub packet: Vec<u8>,
}

/// What one submission does to the record log.
pub struct Submission {
    /// The bytes to append to the staging file.
    pub append: Vec<u8>,
    /// The notification to send, where a forwarding address is set.
    pub forward: Option<Forward>,
    /// Whether the staging file then joins the archive.
    pub rotate: bool,
}

/// Plans the submission of `record` to a staging file that holds `rows_before` rows,
/// under a rotation threshold of `threshold` rows and an optional forwarding address.
pub fn plan_submission(
    rows_before: usize,
    record: &Record,
    threshold: u64,
    forward_to: Option<String>,
) -> (r: Result<Submission, String>)
    ensures
        r is Ok,
        r matches Ok(sub) ==> {
            &&& sub.append@ == appended_bytes(*record, rows_before == 0)
            &&& sub.rotate == (rows_before + 1 >= threshold)
            &&& match forward_to {
                Some(a) => sub.forward matches Some(f) && f.address@ == a@ && f.packet@
                    == osc_string_message("/new_row"@, record.sentence@),
                None => sub.forward is None,
            }
        },
{
    let append = row_bytes(record, rows_before == 0)?;
    let forward = match forward_to {
        Some(a) => {
            let packet = encode_string_message("/new_row", record.sentence.as_str());
            Some(Forward { address: a, packet })
        },
        None => None,
    };
    let rotate = crate::record_log::should_rotate(rows_before, threshold);
    Ok(Submission { append, forward, rotate })
}

/// The paths, relative to the base directory, of a file in the archive directory.
pub fn archive_path(name: &str) -> (r: String)
    ensures
        r@ == "sentences"@ + "/"@ + name@,
{
    archive_dir_name().to_owned().concat("/").concat(name)
}

/// The files, relative to the base directory, that an effect deletes, given the
/// names in the archive directory.
pub fn removal_targets(effect: &Effect, archive_names: &Vec<String>) -> (r: Vec<String>)
    ensures
        match effect {
            Effect::RemoveAll => r@.len() == archive_names@.len() + 1 && (forall|i: int|
                0 <= i < archive_names@.len() ==> (#[trigger] r@[i])@ == "sentences"@ + "/"@
                    + archive_names@[i]@) && r@.last()@ == "tmp.csv"@,
            Effect::RemoveArchive(f) => r@.len() == 1 && r@[0]@ == "sentences"@ + "/"@ + f@,
            Effect::RemoveStaging => r@.len() == 1 && r@[0]@ == "tmp.csv"@,
            _ => r@.len() == 0,
        },
{
    let mut r: Vec<String> = Vec::new();
    match effect {
        Effect::RemoveAll => {
            let mut i: usize = 0;
            while i < archive_names.len()
                invariant
                    0 <= i <= archive_names.len(),
                    r@.len() == i,
                    forall|j: int|
                        0 <= j < i ==> (#[trigger] r@[j])@ == "sentences"@ + "/"@
                            + archive_names@[j]@,
                decreases archive_names.len() - i,
            {
                r.push(archive_path(archive_names[i].as_str()));
                i = i + 1;
            }
            r.push(staging_file_name().to_owned());
        },
        Effect::RemoveArchive(f) => {
            r.push(archive_path(f.as_str()));
        },
        Effect::RemoveStaging => {
            r.push(staging_file_name().to_owned());
        },
        _ => {},
    }
    r
}

} // verus!
