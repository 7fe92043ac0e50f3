use vstd::prelude::*;

verus! {

#[verifier::external_type_specification]
#[verifier::external_body]
pub struct ExJsonValue(serde_json::Value);

#[verifier::external_type_specification]
#[verifier::external_body]
pub struct ExJsonError(serde_json::Error);

/// Relies on the derived `Clone` of serde_json's `Value`: a copy equal to the original.
pub assume_specification[ <serde_json::Value as Clone>::clone ](v: &serde_json::Value) -> (r:
    serde_json::Value)
    ensures
        r == *v,
;

/// What `serde_json::Value::from` makes of an integer.
pub uninterp spec fn json_int(n: int) -> serde_json::Value;

/// What `serde_json::Value::from` makes of a string.
pub uninterp spec fn json_text(s: Seq<char>) -> serde_json::Value;

/// The bytes that `serde_json::to_vec` writes for an object with these members.
pub uninterp spec fn settings_json(m: Map<Seq<char>, serde_json::Value>) -> Seq<u8>;

/// The members of the JSON object that `serde_json::from_slice` reads from these bytes,
/// or `None` where they hold no object that it accepts.
pub uninterp spec fn parsed_object(b: Seq<u8>) -> Option<Map<Seq<char>, serde_json::Value>>;

/// A value that this library makes: an integer or a string.
pub open spec fn is_scalar_setting(v: serde_json::Value) -> bool {
    (exists|n: i64| v == json_int(n as int)) || (exists|s: Seq<char>| v == json_text(s))
}

/// Every value of the mapping is an integer or a string.
pub open spec fn scalar_settings(m: Map<Seq<char>, serde_json::Value>) -> bool {
    forall|k: Seq<char>| m.contains_key(k) ==> is_scalar_setting(#[trigger] m[k])
}

/// The key/value mapping that a sequence of entries denotes; a later entry wins.
pub open spec fn entries_map(s: Seq<(String, serde_json::Value)>) -> Map<Seq<char>, serde_json::Value>
    decreases s.len(),
{
    if s.len() == 0 {
        Map::empty()
    } else {
        entries_map(s.drop_last()).insert(s.last().0@, s.last().1)
    }
}

/// No key occurs twice.
pub open spec fn unique_keys(s: Seq<(String, serde_json::Value)>) -> bool {
    forall|i: int, j: int|
        0 <= i < s.len() && 0 <= j < s.len() && i != j ==> #[trigger] s[i].0@ != #[trigger] s[j].0@
}

/// A JSON number holding `n`.
pub fn int_value(n: i64) -> (r: serde_json::Value)
    ensures
        r == json_int(n as int),
{
    json_from_int(n)
}

/// Relies on `serde_json::Value::from::<i64>`: a JSON number holding `n`.
#[verifier::external_body]
fn json_from_int(n: i64) -> (r: serde_json::Value)
    ensures
        r == json_int(n as int),
{
    serde_json::Value::from(n)
}

/// A JSON string holding `s`.
pub fn text_value(s: &str) -> (r: serde_json::Value)
    ensures
        r == json_text(s@),
{
    json_from_text(s.to_owned())
}

/// Relies on `serde_json::Value::from::<String>`: a JSON string holding `s`.
#[verifier::external_body]
fn json_from_text(s: String) -> (r: serde_json::Value)
    ensures
        r == json_text(s@),
{
    serde_json::Value::from(s)
}

/// Relies on `serde_json::Value::as_i64`: a number made from an `i64` reads back as it, and
/// a string is no number.
#[verifier::external_body]
pub(crate) fn as_int(v: &serde_json::Value) -> (r: Option<i64>)
    ensures
        forall|n: i64| *v == json_int(n as int) ==> r == Some(n),
        forall|s: Seq<char>| *v == json_text(s) ==> r is None,
{
    v.as_i64()
}

/// Relies on `serde_json::Value::as_str`: a string value reads back as its text, and a
/// number is no string.
#[verifier::external_body]
pub(crate) fn as_text(v: &serde_json::Value) -> (r: Option<String>)
    ensures
        forall|s: Seq<char>| *v == json_text(s) ==> r is Some && r->0@ == s,
        forall|n: i64| *v == json_int(n as int) ==> r is None,
{
    v.as_str().map(|s| s.to_string())
}

/// Relies on `serde_json::to_vec` of a `serde_json::Map`: the object's bytes, members in key
/// order. It fails only where a `Serialize` impl fails or a map key is no string, neither of
/// which a map of strings to values has. An object of integers and strings reads back as it
/// was written.
#[verifier::external_body]
pub(crate) fn encode_object(entries: &Vec<(String, serde_json::Value)>) -> (r: Result<
    Vec<u8>,
    serde_json::Error,
>)
    ensures
        r is Ok,
        r->Ok_0@ == settings_json(entries_map(entries@)),
        scalar_settings(entries_map(entries@)) ==> parsed_object(r->Ok_0@) == Some(
            entries_map(entries@),
        ),
{
    let m: serde_json::Map<String, serde_json::Value> = entries.iter().cloned().collect();
    serde_json::to_vec(&m)
}

/// Relies on `serde_json::from_slice` into a `serde_json::Map`: the object's members, each
/// key once, or an error where the bytes hold no object.
#[verifier::external_body]
pub(crate) fn decode_object(bytes: &[u8]) -> (r: Result<
    Vec<(String, serde_json::Value)>,
    serde_json::Error,
>)
    ensures
        r is Ok <==> parsed_object(bytes@) is Some,
        r is Ok ==> unique_keys(r->Ok_0@) && entries_map(r->Ok_0@) == parsed_object(bytes@)->0,
{
    let m: serde_json::Map<String, serde_json::Value> = serde_json::from_slice(bytes)?;
    Ok(m.into_iter().collect())
}

/// Every key of the mapping comes from some entry, and every entry's key is in it.
pub proof fn lemma_entries_keys(s: Seq<(String, serde_json::Value)>)
    ensures
        forall|k: Seq<char>|
            entries_map(s).contains_key(k) <==> exists|i: int| 0 <= i < s.len() && s[i].0@ == k,
    decreases s.len(),
{
    if s.len() > 0 {
        lemma_entries_keys(s.drop_last());
        assert forall|k: Seq<char>|
            entries_map(s).contains_key(k) implies exists|i: int| 0 <= i < s.len() && s[i].0@ == k by {
            if k == s.last().0@ {
                assert(s[s.len() - 1].0@ == k);
            } else {
                let p = s.drop_last();
                assert(entries_map(s) == entries_map(p).insert(s.last().0@, s.last().1));
                assert(entries_map(p).contains_key(k));
                let i = choose|i: int| 0 <= i < p.len() && p[i].0@ == k;
                assert(p[i] == s[i]);
                assert(s[i].0@ == k);
            }
        }
        assert forall|k: Seq<char>|
            (exists|i: int| 0 <= i < s.len() && s[i].0@ == k) implies entries_map(s).contains_key(k) by {
            let i = choose|i: int| 0 <= i < s.len() && s[i].0@ == k;
            let p = s.drop_last();
            assert(entries_map(s) == entries_map(p).insert(s.last().0@, s.last().1));
            if i < s.len() - 1 {
                assert(p[i] == s[i]);
                assert(p[i].0@ == k);
                assert(entries_map(p).contains_key(k));
            }
        }
    }
}

/// With unique keys, each entry's value is what the mapping holds under its key.
pub proof fn lemma_entries_index(s: Seq<(String, serde_json::Value)>, i: int)
    requires
        unique_keys(s),
        0 <= i < s.len(),
    ensures
        entries_map(s).contains_key(s[i].0@),
        entries_map(s)[s[i].0@] == s[i].1,
    decreases s.len(),
{
    if i < s.len() - 1 {
        let p = s.drop_last();
        assert(p[i] == s[i]);
        assert(s[i].0@ != s[s.len() - 1].0@);
        lemma_entries_index(p, i);
    }
}

/// Replacing the entry of a key changes the mapping at that key only.
pub proof fn lemma_entries_update(
    s: Seq<(String, serde_json::Value)>,
    i: int,
    e: (String, serde_json::Value),
)
    requires
        unique_keys(s),
        0 <= i < s.len(),
        e.0@ == s[i].0@,
    ensures
        entries_map(s.update(i, e)) == entries_map(s).insert(e.0@, e.1),
        unique_keys(s.update(i, e)),
    decreases s.len(),
{
    let t = s.update(i, e);
    if i == s.len() - 1 {
        assert(t.drop_last() =~= s.drop_last());
        assert(entries_map(t) =~= entries_map(s).insert(e.0@, e.1));
    } else {
        let p = s.drop_last();
        assert(t.drop_last() =~= p.update(i, e));
        assert(p[i] == s[i]);
        lemma_entries_update(p, i, e);
        assert(s[i].0@ != s[s.len() - 1].0@);
        assert(entries_map(t) =~= entries_map(s).insert(e.0@, e.1));
    }
    assert forall|a: int, b: int|
        0 <= a < t.len() && 0 <= b < t.len() && a != b implies #[trigger] t[a].0@ != #[trigger] t[b].0@ by {
        assert(s[a].0@ != s[b].0@);
    }
}

/// Removing the entry of a key removes that key from the mapping.
pub proof fn lemma_entries_remove(s: Seq<(String, serde_json::Value)>, i: int)
    requires
        unique_keys(s),
        0 <= i < s.len(),
    ensures
        entries_map(s.remove(i)) == entries_map(s).remove(s[i].0@),
        unique_keys(s.remove(i)),
    decreases s.len(),
{
    let t = s.remove(i);
    let k = s[i].0@;
    let p = s.drop_last();
    if i == s.len() - 1 {
        assert(t =~= p);
        lemma_entries_keys(p);
        assert(!entries_map(p).contains_key(k)) by {
            if entries_map(p).contains_key(k) {
                let j = choose|j: int| 0 <= j < p.len() && p[j].0@ == k;
                assert(s[j].0@ == k);
            }
        }
        assert(entries_map(t) =~= entries_map(s).remove(k));
    } else {
        assert(t.drop_last() =~= p.remove(i));
        assert(p[i] == s[i]);
        lemma_entries_remove(p, i);
        assert(t.last() == s.last());
        assert(s[i].0@ != s[s.len() - 1].0@);
        assert(entries_map(t) =~= entries_map(s).remove(k));
    }
    assert forall|a: int, b: int|
        0 <= a < t.len() && 0 <= b < t.len() && a != b implies #[trigger] t[a].0@ != #[trigger] t[b].0@ by {
        let a2 = if a < i { a } else { a + 1 };
        let b2 = if b < i { b } else { b + 1 };
        assert(t[a] == s[a2]);
        assert(t[b] == s[b2]);
    }
}

/// With unique keys the mapping has one key per entry.
pub proof fn lemma_entries_len(s: Seq<(String, serde_json::Value)>)
    requires
        unique_keys(s),
    ensures
        entries_map(s).dom().finite(),
        entries_map(s).len() == s.len(),
    decreases s.len(),
{
    if s.len() > 0 {
        let p = s.drop_last();
        assert(unique_keys(p)) by {
            assert forall|a: int, b: int|
                0 <= a < p.len() && 0 <= b < p.len() && a != b implies #[trigger] p[a].0@ != #[trigger] p[b].0@ by {
                assert(s[a].0@ != s[b].0@);
            }
        }
        lemma_entries_len(p);
        lemma_entries_keys(p);
        assert(!entries_map(p).contains_key(s.last().0@)) by {
            if entries_map(p).contains_key(s.last().0@) {
                let j = choose|j: int| 0 <= j < p.len() && p[j].0@ == s.last().0@;
                assert(s[j].0@ == s[s.len() - 1].0@);
            }
        }
    }
}

} // verus!
