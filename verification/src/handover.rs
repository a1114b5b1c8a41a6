//! What the command line program writes beside the mods it installs: the
//! modinfo.json that tells the game about the mod, and the configuration that
//! the graphical front end hands over for GitHub mods.
use vstd::prelude::*;
use crate::json::{
    json_object, json_object_value, json_pretty, json_string, json_string_value, pairs_view,
    JsonError, JsonHandler,
};
use crate::text::{chars_of, concat, copy_str, str_equal};

verus! {

/// The value of modinfo.json: an object with "name" "Infinite" and
/// "savepath" "Infinite/".
pub open spec fn modinfo_value() -> serde_json::Value {
    json_object_value(
        seq![("name"@, json_string_value("Infinite"@)), ("savepath"@, json_string_value("Infinite/"@))],
    )
}

/// The text of modinfo.json: the pretty-printed modinfo value.
pub fn modinfo_text() -> (r: Result<String, JsonError>)
    ensures
        r matches Ok(t) ==> json_pretty(modinfo_value()) == Some(t@),
        r is Err ==> json_pretty(modinfo_value()) is None,
{
    let mut pairs: Vec<(String, serde_json::Value)> = Vec::new();
    pairs.push((copy_str("name"), json_string("Infinite")));
    pairs.push((copy_str("savepath"), json_string("Infinite/")));
    assert(pairs_view(pairs@) =~= seq![
        ("name"@, json_string_value("Infinite"@)),
        ("savepath"@, json_string_value("Infinite/"@)),
    ]);
    let v = json_object(&pairs);
    JsonHandler::to_text(&v)
}

/// The modinfo.json file in a directory: the directory, a '/' unless it is
/// empty or already ends with a separator, then "modinfo.json".
pub open spec fn modinfo_file_spec(dir: Seq<char>) -> Seq<char> {
    if dir.len() == 0 {
        "modinfo.json"@
    } else if dir.last() == '/' || dir.last() == '\\' {
        dir + "modinfo.json"@
    } else {
        dir + "/"@ + "modinfo.json"@
    }
}

/// The path of modinfo.json in a directory ('/' is a separator on every
/// platform the program runs on).
pub fn modinfo_file_in(dir: &str) -> (r: String)
    ensures
        r@ == modinfo_file_spec(dir@),
{
    let v = chars_of(dir);
    if v.len() == 0 {
        copy_str("modinfo.json")
    } else if v[v.len() - 1] == '/' || v[v.len() - 1] == '\\' {
        concat(dir, "modinfo.json")
    } else {
        let with_slash = concat(dir, "/");
        concat(with_slash.as_str(), "modinfo.json")
    }
}

/// A path without the '/' separators at its end.
pub open spec fn trim_trailing_slashes(p: Seq<char>) -> Seq<char>
    decreases p.len(),
{
    if p.len() > 0 && p.last() == '/' {
        trim_trailing_slashes(p.drop_last())
    } else {
        p
    }
}

/// `d` is what the path `p` is without its final component: a start of `p`
/// that ends before the last component, so shorter than `p` without its
/// trailing separators.
pub open spec fn parent_of(p: Seq<char>, d: Seq<char>) -> bool {
    &&& d.len() < trim_trailing_slashes(p).len()
    &&& d == p.subrange(0, d.len() as int)
}

/// Calls `std::path::Path::parent` and takes the parent as text. Which part
/// of a path is its parent depends on the machine's path syntax (what counts
/// as a separator, a root or a prefix), so what is stated is what the
/// documentation gives on every machine: the empty path has no parent, and a
/// parent is the path without its final component, a start of the path that
/// is shorter than the path without its trailing '/' separators.
#[verifier::external_body]
fn path_parent(path: &str) -> (r: Option<String>)
    ensures
        path@.len() == 0 ==> r is None,
        r matches Some(d) ==> parent_of(path@, d@),
{
    std::path::Path::new(path).parent().map(|p| p.to_string_lossy().to_string())
}

/// Where modinfo.json is written: in the parent directory of the output
/// directory, when it has one (see [`modinfo_file_in`]).
pub fn modinfo_path(output_path: &str) -> (r: Option<String>)
    ensures
        output_path@.len() == 0 ==> r is None,
        r matches Some(f) ==> exists|d: Seq<char>|
            parent_of(output_path@, d) && f@ == modinfo_file_spec(d),
{
    match path_parent(output_path) {
        Some(dir) => Some(modinfo_file_in(dir.as_str())),
        None => None,
    }
}

proof fn lemma_trim_trailing_slashes(p: Seq<char>)
    ensures
        trim_trailing_slashes(p).len() <= p.len(),
        trim_trailing_slashes(p) == p.subrange(0, trim_trailing_slashes(p).len() as int),
        trim_trailing_slashes(p).len() > 0 ==> trim_trailing_slashes(p).last() != '/',
        forall|j: int| trim_trailing_slashes(p).len() <= j < p.len() ==> p[j] == '/',
    decreases p.len(),
{
    if p.len() > 0 && p.last() == '/' {
        lemma_trim_trailing_slashes(p.drop_last());
        let t = trim_trailing_slashes(p.drop_last());
        assert(p.drop_last().subrange(0, t.len() as int) =~= p.subrange(0, t.len() as int));
        assert forall|j: int| t.len() <= j < p.len() implies p[j] == '/' by {
            if j < p.len() - 1 {
                assert(p[j] == p.drop_last()[j]);
            }
        }
    } else {
        assert(p.subrange(0, p.len() as int) =~= p);
    }
}

/// modinfo.json goes in a directory above the output directory: for any
/// parent of the output path, the file is neither inside the output
/// directory as given nor inside it with its trailing '/' removed.
pub proof fn law_modinfo_beside_output(o: Seq<char>, d: Seq<char>)
    requires
        parent_of(o, d),
    ensures
        modinfo_file_spec(d) != modinfo_file_spec(o),
        modinfo_file_spec(d) != modinfo_file_spec(trim_trailing_slashes(o)),
{
    reveal_strlit("modinfo.json");
    reveal_strlit("/");
    lemma_trim_trailing_slashes(o);
    let t = trim_trailing_slashes(o);
    let f = modinfo_file_spec(d);
    assert(f.len() <= d.len() + 13);
    // the file in `o` is longer, unless `o` is `t` itself
    if t.len() < o.len() {
        assert(o.last() == '/');
        assert(modinfo_file_spec(o).len() == o.len() + 12);
    }
    // compare with the file in `t`
    assert(t.len() > 0);
    if t.last() == '\\' {
        assert(modinfo_file_spec(t) =~= t + "modinfo.json"@);
        if f.len() == modinfo_file_spec(t).len() {
            assert(d.len() + 1 == t.len());
            assert(d.len() == 0 || (d.last() != '/' && d.last() != '\\') || f.len() == d.len() + 12);
            if d.len() > 0 && (d.last() == '/' || d.last() == '\\') {
                assert(f.len() == d.len() + 12);
            } else if d.len() > 0 {
                assert(f[d.len() as int] == '/');
                assert(modinfo_file_spec(t)[d.len() as int] == t[d.len() as int]);
                assert(t[d.len() as int] == o[d.len() as int]);
                assert(t[d.len() as int] == '\\');
            } else {
                assert(f =~= "modinfo.json"@);
            }
        }
    } else {
        assert(modinfo_file_spec(t) =~= t + "/"@ + "modinfo.json"@);
    }
}

/// The configuration entries of mods, each key with its (option id, value) pairs.
pub open spec fn handover_view(v: Seq<(String, Vec<(String, serde_json::Value)>)>) -> Seq<
    (Seq<char>, Seq<(Seq<char>, serde_json::Value)>),
> {
    Seq::new(v.len(), |i: int| (v[i].0@, pairs_view(v[i].1@)))
}

/// The name of what `serde_json::from_str` reads from the handover text as a
/// map from mod key to a map from option id to value (`BTreeMap`s, so both in
/// ascending order of their keys), or `None` when the text is not such a map.
pub uninterp spec fn gui_config_parse(text: Seq<char>) -> Option<
    Seq<(Seq<char>, Seq<(Seq<char>, serde_json::Value)>)>,
>;

/// Calls `serde_json::from_str` into nested `BTreeMap`s and lists their
/// entries; the outcome is [`gui_config_parse`] of the text.
#[verifier::external_body]
fn gui_config_from_str(text: &str) -> (r: Option<Vec<(String, Vec<(String, serde_json::Value)>)>>)
    ensures
        r matches Some(v) ==> gui_config_parse(text@) == Some(handover_view(v@)),
        r is None ==> gui_config_parse(text@) is None,
{
    match serde_json::from_str::<
        std::collections::BTreeMap<String, std::collections::BTreeMap<String, serde_json::Value>>,
    >(text) {
        Ok(m) => Some(m.into_iter().map(|(k, v)| (k, v.into_iter().collect())).collect()),
        Err(_) => None,
    }
}

/// The configuration that the front end hands over: for each mod key, the
/// values of its options; `None` when the text is not such a mapping.
pub fn gui_config_entries(text: &str) -> (r: Option<Vec<(String, Vec<(String, serde_json::Value)>)>>)
    ensures
        r matches Some(v) ==> gui_config_parse(text@) == Some(handover_view(v@)),
        r is None ==> gui_config_parse(text@) is None,
{
    gui_config_from_str(text)
}

/// The entry under `key`: the first one with that key.
pub open spec fn config_entry(
    entries: Seq<(Seq<char>, Seq<(Seq<char>, serde_json::Value)>)>,
    key: Seq<char>,
) -> Option<Seq<(Seq<char>, serde_json::Value)>>
    decreases entries.len(),
{
    if entries.len() == 0 {
        None
    } else if entries[0].0 == key {
        Some(entries[0].1)
    } else {
        config_entry(entries.drop_first(), key)
    }
}

/// The configuration found for a key is one stored under exactly that key,
/// the first such; there is one exactly when some entry has that key.
pub proof fn law_config_entry_exact_key(
    entries: Seq<(Seq<char>, Seq<(Seq<char>, serde_json::Value)>)>,
    key: Seq<char>,
)
    ensures
        config_entry(entries, key) matches Some(c) ==> exists|i: int|
            0 <= i < entries.len() && #[trigger] entries[i] == (key, c) && forall|j: int|
                0 <= j < i ==> entries[j].0 != key,
        config_entry(entries, key) is None <==> forall|i: int|
            0 <= i < entries.len() ==> (#[trigger] entries[i]).0 != key,
    decreases entries.len(),
{
    if entries.len() > 0 {
        let rest = entries.drop_first();
        law_config_entry_exact_key(rest, key);
        if entries[0].0 == key {
            assert(entries[0] == (key, entries[0].1));
        } else {
            if let Some(c) = config_entry(entries, key) {
                let i = choose|i: int|
                    0 <= i < rest.len() && #[trigger] rest[i] == (key, c) && forall|j: int|
                        0 <= j < i ==> rest[j].0 != key;
                assert(entries[i + 1] == rest[i]);
                assert forall|j: int| 0 <= j < i + 1 implies entries[j].0 != key by {
                    if j > 0 {
                        assert(entries[j] == rest[j - 1]);
                    }
                }
            }
            assert forall|i: int| 0 <= i < entries.len() && (forall|j: int|
                0 <= j < rest.len() ==> (#[trigger] rest[j]).0 != key) implies (#[trigger] entries[i]).0 != key by {
                if i > 0 {
                    assert(entries[i] == rest[i - 1]);
                }
            }
            if config_entry(entries, key) is Some {
                let c = config_entry(entries, key)->0;
                let i = choose|i: int|
                    0 <= i < rest.len() && #[trigger] rest[i] == (key, c) && forall|j: int|
                        0 <= j < i ==> rest[j].0 != key;
                assert(entries[i + 1].0 == key);
            }
        }
    }
}

/// The configuration handed over for the mod with key `key`: `None` when the
/// text is no such mapping or holds no entry under that key.
pub fn gui_config_for(text: &str, key: &str) -> (r: Option<Vec<(String, serde_json::Value)>>)
    ensures
        r matches Some(c) ==> gui_config_parse(text@) matches Some(es) && config_entry(es, key@)
            == Some(pairs_view(c@)),
        r is None ==> match gui_config_parse(text@) {
            Some(es) => config_entry(es, key@) is None,
            None => true,
        },
{
    let mut entries = match gui_config_from_str(text) {
        Some(es) => es,
        None => return None,
    };
    let ghost all = handover_view(entries@);
    let mut i: usize = 0;
    assert(all.subrange(0, all.len() as int) =~= all);
    while i < entries.len()
        invariant
            i <= entries@.len(),
            all == handover_view(entries@),
            gui_config_parse(text@) == Some(all),
            config_entry(all, key@) == config_entry(all.subrange(i as int, all.len() as int), key@),
        decreases entries.len() - i,
    {
        assert(all.subrange(i as int, all.len() as int).drop_first() =~= all.subrange(
            i + 1,
            all.len() as int,
        ));
        assert(all[i as int].0 == entries@[i as int].0@);
        if str_equal(entries[i].0.as_str(), key) {
            let ghost before = entries@;
            assert(all.subrange(i as int, all.len() as int)[0] == all[i as int]);
            let (_, config) = entries.remove(i);
            assert(config == before[i as int].1);
            assert(pairs_view(config@) == all[i as int].1);
            return Some(config);
        }
        i = i + 1;
    }
    None
}

/// The text written as config.json for a mod: its configuration as a
/// pretty-printed JSON object.
pub fn config_text(config: &Vec<(String, serde_json::Value)>) -> (r: Result<String, JsonError>)
    ensures
        r matches Ok(t) ==> json_pretty(json_object_value(pairs_view(config@))) == Some(t@),
        r is Err ==> json_pretty(json_object_value(pairs_view(config@))) is None,
{
    let v = json_object(config);
    JsonHandler::to_text(&v)
}

} // verus!
