use vstd::prelude::*;

use crate::json::{int_value, json_int, json_text, text_value};
use crate::store::{load_result, Store};
use crate::json::{is_scalar_setting, parsed_object, scalar_settings};
use crate::text::str_eq;

verus! {

/// One typed argument of a control message.
pub enum Arg {
    Str(String),
    Int(i32),
    /// Any argument of another type.
    Other,
}

/// A decoded control message: an address and its arguments.
pub struct Message {
    pub addr: String,
    pub args: Vec<Arg>,
}

/// What is left to do on the record log once a message has been applied to the settings.
pub enum Effect {
    /// A setting was changed.
    Settings,
    /// Delete every archive file and the staging file.
    RemoveAll,
    /// Delete the named archive file.
    RemoveArchive(String),
    /// Delete the staging file.
    RemoveStaging,
    /// The message was not recognised and changed nothing.
    Ignored,
}

/// The setting that a message sets, and its new value, if it is a settings command.
pub open spec fn setting_update(addr: Seq<char>, args: Seq<Arg>) -> Option<
    (Seq<char>, serde_json::Value),
> {
    if args.len() == 1 {
        match args[0] {
            Arg::Str(s) => if addr == "/td_osc_address"@ {
                Some(("td_osc_address"@, json_text(s@)))
            } else {
                None
            },
            Arg::Int(n) => if addr == "/max_characters"@ {
                Some(("max_characters"@, json_int(n as int)))
            } else if addr == "/max_sentences_per_csv"@ {
                Some(("max_sentences_per_csv"@, json_int(n as int)))
            } else {
                None
            },
            Arg::Other => None,
        }
    } else {
        None
    }
}

/// The effect on the record log of a message that sets no setting.
pub open spec fn log_effect(addr: Seq<char>, args: Seq<Arg>, e: Effect) -> bool {
    if addr == "/remove_all_csv"@ && args.len() == 0 {
        e is RemoveAll
    } else if addr == "/remove_output_csv"@ && args.len() == 1 && args[0] is Str {
        e is RemoveArchive && e->RemoveArchive_0@ == args[0]->Str_0@
    } else if addr == "/remove_tmp_csv"@ && args.len() == 0 {
        e is RemoveStaging
    } else {
        e is Ignored
    }
}

/// Applies one control message: a settings command changes the settings cache, a
/// removal command is handed back as an effect, and any other message changes nothing.
pub fn dispatch(msg: &Message, store: &mut Store) -> (r: Effect)
    requires
        old(store).wf(),
    ensures
        final(store).wf(),
        final(store).path_view() == old(store).path_view(),
        final(store).defaults_view() == old(store).defaults_view(),
        match setting_update(msg.addr@, msg.args@) {
            Some((k, v)) => r is Settings && final(store)@ == old(store)@.insert(k, v),
            None => log_effect(msg.addr@, msg.args@, r) && final(store)@ == old(store)@,
        },
{
    let addr = msg.addr.as_str();
    if msg.args.len() == 1 {
        match &msg.args[0] {
            Arg::Str(s) => {
                if str_eq(addr, "/td_osc_address") {
                    let v = text_value(s.as_str());
                    let _ = store.insert("td_osc_address".to_owned(), v);
                    return Effect::Settings;
                }
            },
            Arg::Int(n) => {
                if str_eq(addr, "/max_characters") {
                    let v = int_value(*n as i64);
                    let _ = store.insert("max_characters".to_owned(), v);
                    return Effect::Settings;
                } else if str_eq(addr, "/max_sentences_per_csv") {
                    let v = int_value(*n as i64);
                    let _ = store.insert("max_sentences_per_csv".to_owned(), v);
                    return Effect::Settings;
                }
            },
            Arg::Other => {},
        }
    }
    if str_eq(addr, "/remove_all_csv") && msg.args.len() == 0 {
        Effect::RemoveAll
    } else if str_eq(addr, "/remove_output_csv") && msg.args.len() == 1 && matches!(
        msg.args[0],
        Arg::Str(_)
    ) {
        match &msg.args[0] {
            Arg::Str(f) => Effect::RemoveArchive(f.clone()),
            _ => Effect::Ignored,
        }
    } else if str_eq(addr, "/remove_tmp_csv") && msg.args.len() == 0 {
        Effect::RemoveStaging
    } else {
        Effect::Ignored
    }
}

/// A settings command keeps a cache of integers and strings so, and once the cache is
/// saved and the bytes are loaded into an empty cache, the loaded cache holds the new value.
pub proof fn lemma_setting_survives_reload(
    addr: Seq<char>,
    args: Seq<Arg>,
    before: Map<Seq<char>, serde_json::Value>,
    after: Map<Seq<char>, serde_json::Value>,
    bytes: Seq<u8>,
)
    requires
        scalar_settings(before),
        match setting_update(addr, args) {
            Some((k, v)) => after == before.insert(k, v),
            None => false,
        },
        scalar_settings(after) ==> parsed_object(bytes) == Some(after),
    ensures
        scalar_settings(after),
        match setting_update(addr, args) {
            Some((k, v)) => load_result(Map::empty(), bytes) matches Some(loaded)
                && loaded.contains_key(k) && loaded[k] == v,
            None => false,
        },
{
    if let Some((k, v)) = setting_update(addr, args) {
        match args[0] {
            Arg::Str(s) => assert(v == json_text(s@)),
            Arg::Int(n) => assert(v == json_int(n as i64 as int)),
            Arg::Other => {},
        }
        assert(is_scalar_setting(v));
        assert forall|j: Seq<char>| after.contains_key(j) implies is_scalar_setting(#[trigger] after[j]) by {
            if j != k {
                assert(before.contains_key(j));
            }
        }
        crate::store::lemma_save_load_round_trip(after, bytes);
    }
}

/// `/remove_all_csv` without arguments sets nothing and asks for the removal of
/// every archive file and the staging file.
pub proof fn lemma_remove_all(e: Effect)
    ensures
        setting_update("/remove_all_csv"@, Seq::<Arg>::empty()) is None,
        log_effect("/remove_all_csv"@, Seq::<Arg>::empty(), e) <==> e is RemoveAll,
{
}

/// A message to an address that no command has sets nothing and asks for nothing,
/// whatever its arguments.
pub proof fn lemma_unknown_address_ignored(addr: Seq<char>, args: Seq<Arg>, e: Effect)
    requires
        addr != "/td_osc_address"@,
        addr != "/max_characters"@,
        addr != "/max_sentences_per_csv"@,
        addr != "/remove_all_csv"@,
        addr != "/remove_output_csv"@,
        addr != "/remove_tmp_csv"@,
    ensures
        setting_update(addr, args) is None,
        log_effect(addr, args, e) <==> e is Ignored,
{
}

} // verus!
