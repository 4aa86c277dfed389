//! The configuration loader: decodes raw bytes as UTF-8, lower-cases the
//! whole text, parses it as a JSON document of records, and enforces the
//! name-uniqueness invariant. On any failure nothing is produced.
use crate::json::{json_as_array, json_as_str, json_get, json_model, json_of, parse_json, Json};
use crate::record::{Kaomoji, RecordView};
use crate::text::{lower_of, to_lower};
use vstd::prelude::*;
use vstd::utf8::{decode_utf8, valid_utf8};

verus! {

/// A validated configuration: the ordered record list of one file.
pub struct Config {
    pub kaomojis: Vec<Kaomoji>,
}

/// Why a configuration failed to load: the bytes are not UTF-8, the text is
/// not a document of the recognized shape, or two records share a name (the
/// first repeated name is reported).
pub enum LoadError {
    DecodeError,
    ParseError,
    DuplicateNameError(String),
}

/// The mathematical shape of a load failure.
pub enum LoadErrorView {
    Decode,
    Parse,
    DuplicateName(Seq<char>),
}

impl View for LoadError {
    type V = LoadErrorView;

    open spec fn view(&self) -> LoadErrorView {
        match self {
            LoadError::DecodeError => LoadErrorView::Decode,
            LoadError::ParseError => LoadErrorView::Parse,
            LoadError::DuplicateNameError(n) => LoadErrorView::DuplicateName(n@),
        }
    }
}

/// The strings of a JSON array, in order, or `None` if some element is not
/// a string.
pub open spec fn tags_of_list(a: Seq<Json>) -> Option<Seq<Seq<char>>>
    decreases a.len(),
{
    if a.len() == 0 {
        Some(Seq::empty())
    } else {
        match a[0] {
            Json::Str(t) => match tags_of_list(a.drop_first()) {
                Some(rest) => Some(seq![t] + rest),
                None => None,
            },
            _ => None,
        }
    }
}

/// The record a JSON value describes: an object with string fields `text`
/// and `name` and a string array `search_tags`; other fields are ignored.
pub open spec fn record_of_json(j: Json) -> Option<RecordView> {
    match j {
        Json::Obj(m) => if m.contains_key("text"@) && m.contains_key("name"@) && m.contains_key(
            "search_tags"@,
        ) {
            match (m["text"@], m["name"@], m["search_tags"@]) {
                (Json::Str(t), Json::Str(n), Json::Arr(a)) => match tags_of_list(a) {
                    Some(tags) => Some(RecordView { text: t, name: n, tags }),
                    None => None,
                },
                _ => None,
            }
        } else {
            None
        },
        _ => None,
    }
}

/// The records of a JSON array, in order, or `None` if some element is not
/// a well-shaped record.
pub open spec fn records_of_list(a: Seq<Json>) -> Option<Seq<RecordView>>
    decreases a.len(),
{
    if a.len() == 0 {
        Some(Seq::empty())
    } else {
        match record_of_json(a[0]) {
            Some(r) => match records_of_list(a.drop_first()) {
                Some(rest) => Some(seq![r] + rest),
                None => None,
            },
            None => None,
        }
    }
}

/// The record list of a configuration document: an object whose `kaomojis`
/// field is an array of well-shaped records.
pub open spec fn config_of_json(j: Json) -> Option<Seq<RecordView>> {
    match j {
        Json::Obj(m) => if m.contains_key("kaomojis"@) {
            match m["kaomojis"@] {
                Json::Arr(a) => records_of_list(a),
                _ => None,
            }
        } else {
            None
        },
        _ => None,
    }
}

/// The names of the records, in order.
pub open spec fn names_of(rs: Seq<RecordView>) -> Seq<Seq<char>> {
    rs.map_values(|r: RecordView| r.name)
}

/// Scans the names in order against the names already seen; the first name
/// equal to an earlier one, or `None` where all are distinct.
pub open spec fn first_dup(names: Seq<Seq<char>>, seen: Seq<Seq<char>>) -> Option<Seq<char>>
    decreases names.len(),
{
    if names.len() == 0 {
        None
    } else if seen.contains(names[0]) {
        Some(names[0])
    } else {
        first_dup(names.drop_first(), seen.push(names[0]))
    }
}

/// What loading the raw bytes yields: the record list of the lower-cased,
/// decoded text, or the first error of decoding, parsing, or uniqueness.
pub open spec fn load_spec(b: Seq<u8>) -> Result<Seq<RecordView>, LoadErrorView> {
    if !valid_utf8(b) {
        Err(LoadErrorView::Decode)
    } else {
        match json_of(lower_of(decode_utf8(b))) {
            None => Err(LoadErrorView::Parse),
            Some(j) => match config_of_json(j) {
                None => Err(LoadErrorView::Parse),
                Some(rs) => match first_dup(names_of(rs), Seq::empty()) {
                    Some(n) => Err(LoadErrorView::DuplicateName(n)),
                    None => Ok(rs),
                },
            },
        }
    }
}

/// A scan that found no repeat means the names are pairwise distinct and
/// none of them was already seen.
proof fn lemma_first_dup_none_distinct(names: Seq<Seq<char>>, seen: Seq<Seq<char>>)
    requires
        first_dup(names, seen) is None,
    ensures
        forall|i: int, j: int| 0 <= i < j < names.len() ==> names[i] != names[j],
        forall|i: int| 0 <= i < names.len() ==> !seen.contains(#[trigger] names[i]),
    decreases names.len(),
{
    broadcast use vstd::seq_lib::lemma_seq_contains_after_push;

    if names.len() > 0 {
        let rest = names.drop_first();
        assert(forall|k: int| 0 <= k < rest.len() ==> #[trigger] rest[k] == names[k + 1]);
        lemma_first_dup_none_distinct(rest, seen.push(names[0]));
        assert forall|i: int, j: int| 0 <= i < j < names.len() implies names[i] != names[j] by {
            if i == 0 {
                assert(rest[j - 1] == names[j]);
                assert(!seen.push(names[0]).contains(rest[j - 1]));
            } else {
                assert(rest[i - 1] == names[i] && rest[j - 1] == names[j]);
            }
        }
        assert forall|i: int| 0 <= i < names.len() implies !seen.contains(#[trigger] names[i]) by {
            if i > 0 {
                assert(rest[i - 1] == names[i]);
                assert(!seen.push(names[0]).contains(rest[i - 1]));
            }
        }
    }
}

/// A configuration whose records repeat a name never loads: every
/// successfully loaded record list has pairwise-distinct names. A failed
/// load carries no records at all, so no partial collection can exist.
pub proof fn lemma_duplicates_never_load(b: Seq<u8>)
    ensures
        load_spec(b) matches Ok(rs) ==> crate::matcher::distinct_names(rs),
{
    if load_spec(b) is Ok {
        let rs = load_spec(b)->Ok_0;
        lemma_first_dup_none_distinct(names_of(rs), Seq::empty());
        assert forall|i: int, j: int| 0 <= i < j < rs.len() implies (#[trigger] rs[i]).name != (
        #[trigger] rs[j]).name by {
            assert(names_of(rs)[i] == rs[i].name && names_of(rs)[j] == rs[j].name);
        }
    }
}

/// Loading the same bytes twice yields the same outcome, names and all: the
/// load result is a function of the raw bytes alone.
pub proof fn lemma_load_deterministic(b1: Seq<u8>, b2: Seq<u8>)
    requires
        b1 == b2,
    ensures
        load_spec(b1) == load_spec(b2),
{
}

/// Relies on `String::from_utf8`: it succeeds exactly on valid UTF-8 and
/// returns its decoding.
#[verifier::external_body]
pub(crate) fn bytes_to_string(b: Vec<u8>) -> (r: Option<String>)
    ensures
        (r is Some) == valid_utf8(b@),
        r matches Some(s) ==> s@ == decode_utf8(b@),
{
    String::from_utf8(b).ok()
}

/// Reads one record out of a JSON value, as `record_of_json` says.
fn extract_record(v: &serde_json::Value) -> (r: Option<Kaomoji>)
    ensures
        (record_of_json(json_model(*v)) is None) ==> r is None,
        record_of_json(json_model(*v)) matches Some(rv) ==> r matches Some(k) && k@ == rv,
{
    let tv = match json_get(v, "text") {
        Some(x) => x,
        None => {
            return None;
        },
    };
    let ts = match json_as_str(tv) {
        Some(x) => x,
        None => {
            return None;
        },
    };
    let nv = match json_get(v, "name") {
        Some(x) => x,
        None => {
            return None;
        },
    };
    let ns = match json_as_str(nv) {
        Some(x) => x,
        None => {
            return None;
        },
    };
    let gv = match json_get(v, "search_tags") {
        Some(x) => x,
        None => {
            return None;
        },
    };
    let arr = match json_as_array(gv) {
        Some(x) => x,
        None => {
            return None;
        },
    };
    let ghost ga = json_model(*gv)->Arr_0;
    let mut tags: Vec<String> = Vec::new();
    let mut i: usize = 0;
    proof {
        assert(ga.skip(0) =~= ga);
        assert(tags.deep_view() =~= Seq::<Seq<char>>::empty());
    }
    while i < arr.len()
        invariant
            i <= arr.len(),
            arr@.len() == ga.len(),
            forall|k: int| 0 <= k < ga.len() ==> json_model(#[trigger] arr@[k]) == ga[k],
            (tags_of_list(ga.skip(i as int)) is None) ==> tags_of_list(ga) is None,
            tags_of_list(ga.skip(i as int)) matches Some(rest) ==> tags_of_list(ga) == Some(
                tags.deep_view() + rest,
            ),
            (tags_of_list(ga) is None) ==> record_of_json(json_model(*v)) is None,
            tags_of_list(ga) matches Some(tl) ==> record_of_json(json_model(*v)) == Some(
                RecordView { text: ts@, name: ns@, tags: tl },
            ),
        decreases arr.len() - i,
    {
        proof {
            assert(ga.skip(i as int)[0] == ga[i as int]);
            assert(ga.skip(i as int).drop_first() =~= ga.skip(i as int + 1));
        }
        let elem = match json_as_str(&arr[i]) {
            Some(x) => x,
            None => {
                return None;
            },
        };
        let ghost prev = tags.deep_view();
        tags.push(elem.to_owned());
        proof {
            assert(tags.deep_view() =~= prev.push(ga[i as int]->Str_0));
            if tags_of_list(ga.skip(i as int + 1)) is Some {
                let rest = tags_of_list(ga.skip(i as int + 1))->Some_0;
                assert(prev + (seq![ga[i as int]->Str_0] + rest) =~= tags.deep_view() + rest);
            }
        }
        i = i + 1;
    }
    proof {
        assert(ga.skip(arr.len() as int) =~= Seq::<Json>::empty());
        assert(tags.deep_view() + Seq::<Seq<char>>::empty() =~= tags.deep_view());
    }
    let k = Kaomoji { text: ts.to_owned(), name: ns.to_owned(), search_tags: tags };
    Some(k)
}

/// Reads the record list out of a parsed document, as `config_of_json`
/// says.
fn extract_records(v: &serde_json::Value) -> (r: Option<Vec<Kaomoji>>)
    ensures
        (config_of_json(json_model(*v)) is None) ==> r is None,
        config_of_json(json_model(*v)) matches Some(rs) ==> r matches Some(recs)
            && recs.deep_view() == rs,
{
    let kv = match json_get(v, "kaomojis") {
        Some(x) => x,
        None => {
            return None;
        },
    };
    let arr = match json_as_array(kv) {
        Some(x) => x,
        None => {
            return None;
        },
    };
    let ghost ga = json_model(*kv)->Arr_0;
    let mut recs: Vec<Kaomoji> = Vec::new();
    let mut i: usize = 0;
    proof {
        assert(ga.skip(0) =~= ga);
        assert(recs.deep_view() =~= Seq::<RecordView>::empty());
    }
    while i < arr.len()
        invariant
            i <= arr.len(),
            arr@.len() == ga.len(),
            forall|k: int| 0 <= k < ga.len() ==> json_model(#[trigger] arr@[k]) == ga[k],
            (records_of_list(ga.skip(i as int)) is None) ==> records_of_list(ga) is None,
            records_of_list(ga.skip(i as int)) matches Some(rest) ==> records_of_list(ga) == Some(
                recs.deep_view() + rest,
            ),
            config_of_json(json_model(*v)) == records_of_list(ga),
        decreases arr.len() - i,
    {
        proof {
            assert(ga.skip(i as int)[0] == ga[i as int]);
            assert(ga.skip(i as int).drop_first() =~= ga.skip(i as int + 1));
        }
        let k = match extract_record(&arr[i]) {
            Some(x) => x,
            None => {
                return None;
            },
        };
        let ghost prev = recs.deep_view();
        recs.push(k);
        proof {
            assert(recs.deep_view() =~= prev.push(record_of_json(ga[i as int])->Some_0));
            if records_of_list(ga.skip(i as int + 1)) is Some {
                let rest = records_of_list(ga.skip(i as int + 1))->Some_0;
                assert(prev + (seq![record_of_json(ga[i as int])->Some_0] + rest)
                    =~= recs.deep_view() + rest);
            }
        }
        i = i + 1;
    }
    proof {
        assert(ga.skip(arr.len() as int) =~= Seq::<Json>::empty());
        assert(recs.deep_view() + Seq::<RecordView>::empty() =~= recs.deep_view());
    }
    Some(recs)
}

/// Whether some earlier-seen name equals this one.
fn contains_name(seen: &Vec<String>, name: &String) -> (b: bool)
    ensures
        b == seen.deep_view().contains(name@),
{
    let mut j: usize = 0;
    while j < seen.len()
        invariant
            j <= seen.len(),
            forall|jj: int| 0 <= jj < j ==> #[trigger] seen.deep_view()[jj] != name@,
        decreases seen.len() - j,
    {
        if seen[j] == *name {
            proof {
                assert(seen.deep_view()[j as int] == name@);
            }
            return true;
        }
        proof {
            assert(seen.deep_view()[j as int] == seen@[j as int]@);
        }
        j = j + 1;
    }
    false
}

/// Walks the records in order, tracking seen names; the first repeated
/// name, as `first_dup` says, or `None` where all names are distinct.
fn find_duplicate(records: &Vec<Kaomoji>) -> (r: Option<String>)
    ensures
        match first_dup(names_of(records.deep_view()), Seq::empty()) {
            Some(n) => r matches Some(s) && s@ == n,
            None => r is None,
        },
{
    let ghost names = names_of(records.deep_view());
    let mut seen: Vec<String> = Vec::new();
    let mut i: usize = 0;
    proof {
        assert(names.skip(0) =~= names);
        assert(seen.deep_view() =~= Seq::<Seq<char>>::empty());
    }
    while i < records.len()
        invariant
            i <= records.len(),
            names.len() == records.len(),
            names == names_of(records.deep_view()),
            forall|k: int| 0 <= k < names.len() ==> names[k] == records.deep_view()[k].name,
            first_dup(names, Seq::empty()) == first_dup(names.skip(i as int), seen.deep_view()),
        decreases records.len() - i,
    {
        let name = &records[i].name;
        proof {
            assert(names.skip(i as int)[0] == names[i as int]);
            assert(names.skip(i as int).drop_first() =~= names.skip(i as int + 1));
            assert(names[i as int] == name@);
        }
        if contains_name(&seen, name) {
            return Some(name.clone());
        }
        let ghost prev = seen.deep_view();
        seen.push(name.clone());
        proof {
            assert(seen.deep_view() =~= prev.push(name@));
        }
        i = i + 1;
    }
    proof {
        assert(names.skip(records.len() as int) =~= Seq::<Seq<char>>::empty());
    }
    None
}

/// Loads a configuration from raw bytes, as `load_spec` says: decode as
/// UTF-8, lower-case the whole text, parse the document, and reject the
/// first repeated name. On failure no partial collection is produced.
pub fn load(bytes: Vec<u8>) -> (r: Result<Config, LoadError>)
    ensures
        r matches Ok(c) ==> load_spec(bytes@) matches Ok(rs) && c.kaomojis.deep_view() == rs,
        r matches Err(e) ==> load_spec(bytes@) matches Err(ev) && e@ == ev,
{
    let ghost gb = bytes@;
    let s = match bytes_to_string(bytes) {
        Some(x) => x,
        None => {
            return Err(LoadError::DecodeError);
        },
    };
    let lowered = to_lower(s.as_str());
    let v = match parse_json(lowered.as_str()) {
        Some(x) => x,
        None => {
            return Err(LoadError::ParseError);
        },
    };
    let records = match extract_records(&v) {
        Some(x) => x,
        None => {
            return Err(LoadError::ParseError);
        },
    };
    match find_duplicate(&records) {
        Some(name) => Err(LoadError::DuplicateNameError(name)),
        None => Ok(Config { kaomojis: records }),
    }
}

} // verus!
