//! The grid settings as the text fields hold them, and reading a preset of
//! them from a JSON document.

use vstd::prelude::*;

verus! {

/// The grid settings, each as the text its field holds.
#[derive(Clone, Debug, PartialEq, Eq)]
pub struct GridSettings {
    pub start_x: String,
    pub start_y: String,
    pub cell_width: String,
    pub cell_height: String,
    pub font_size: String,
    pub offset_x: String,
    pub offset_y: String,
    pub grid_columns: String,
    pub grid_rows: String,
    pub line_thickness: String,
}

/// The error `serde_json` gives for text that is not JSON.
#[verifier::external_type_specification]
#[verifier::external_body]
pub struct ExJsonError(serde_json::Error);

/// What a JSON document holds under a key.
pub enum JsonMember {
    /// The document is not an object, or has no member under the key.
    Absent,
    /// The member is not a string.
    NotText,
    /// The member is this string.
    Text(String),
}

/// Whether `serde_json::from_str::<serde_json::Value>` accepts `doc`.
pub uninterp spec fn json_accepts(doc: Seq<char>) -> bool;

/// For a document that `serde_json` accepts, what `Value::get(key)` and
/// `Value::as_str` give: `None` without a member, `Some(None)` for a member
/// that is not a string, `Some(Some(text))` for a string member.
pub uninterp spec fn json_member(doc: Seq<char>, key: Seq<char>) -> Option<Option<Seq<char>>>;

impl JsonMember {
    /// The member as `json_member` describes it.
    pub open spec fn found(&self) -> Option<Option<Seq<char>>> {
        match self {
            JsonMember::Absent => None,
            JsonMember::NotText => Some(None),
            JsonMember::Text(s) => Some(Some(s@)),
        }
    }
}

/// Parses `doc` with `serde_json::from_str::<serde_json::Value>` and looks up
/// `key` with `Value::get` and `Value::as_str`.  The contract claims that the
/// outcome is a function of `doc` and `key` alone, named by `json_accepts`
/// and `json_member`; what JSON `serde_json` accepts is left unsaid.
#[verifier::external_body]
fn lookup_json_member(doc: &str, key: &str) -> (r: Result<JsonMember, serde_json::Error>)
    ensures
        (r is Err) == !json_accepts(doc@),
        r matches Ok(m) ==> m.found() == json_member(doc@, key@),
{
    let value = serde_json::from_str::<serde_json::Value>(doc)?;
    Ok(match value.get(key) {
        None => JsonMember::Absent,
        Some(member) => match member.as_str() {
            None => JsonMember::NotText,
            Some(text) => JsonMember::Text(text.to_string()),
        },
    })
}

/// A field after a preset is read: the member's text when it is a string,
/// the fallback when the member is there but is not a string, and the
/// current text when there is no member.
pub open spec fn field_after(
    current: Seq<char>,
    doc: Seq<char>,
    key: Seq<char>,
    fallback: Seq<char>,
) -> Seq<char> {
    match json_member(doc, key) {
        None => current,
        Some(None) => fallback,
        Some(Some(text)) => text,
    }
}

/// Reads the member `key` of `doc` into `field`.
fn read_field(field: &mut String, doc: &str, key: &str, fallback: &String)
    requires
        json_accepts(doc@),
    ensures
        final(field)@ == field_after(old(field)@, doc@, key@, fallback@),
{
    match lookup_json_member(doc, key) {
        Ok(JsonMember::Text(text)) => {
            *field = text;
        },
        Ok(JsonMember::NotText) => {
            *field = fallback.clone();
        },
        _ => {},
    }
}

/// Reads a preset: when `doc` is JSON, each field whose key the document
/// holds takes the member's text (or the fallback's, when the member is not a
/// string), and `true` is returned; otherwise nothing changes and `false` is
/// returned.
pub fn apply_settings_document(settings: &mut GridSettings, doc: &str, fallbacks: &GridSettings) -> (read: bool)
    ensures
        read == json_accepts(doc@),
        !read ==> *final(settings) == *old(settings),
        read ==> final(settings).start_x@ == field_after(old(settings).start_x@, doc@, "start_x"@, fallbacks.start_x@),
        read ==> final(settings).start_y@ == field_after(old(settings).start_y@, doc@, "start_y"@, fallbacks.start_y@),
        read ==> final(settings).cell_width@ == field_after(old(settings).cell_width@, doc@, "cell_width"@, fallbacks.cell_width@),
        read ==> final(settings).cell_height@ == field_after(old(settings).cell_height@, doc@, "cell_height"@, fallbacks.cell_height@),
        read ==> final(settings).font_size@ == field_after(old(settings).font_size@, doc@, "font_size"@, fallbacks.font_size@),
        read ==> final(settings).offset_x@ == field_after(old(settings).offset_x@, doc@, "offset_x"@, fallbacks.offset_x@),
        read ==> final(settings).offset_y@ == field_after(old(settings).offset_y@, doc@, "offset_y"@, fallbacks.offset_y@),
        read ==> final(settings).grid_columns@ == field_after(old(settings).grid_columns@, doc@, "grid_columns"@, fallbacks.grid_columns@),
        read ==> final(settings).grid_rows@ == field_after(old(settings).grid_rows@, doc@, "grid_rows"@, fallbacks.grid_rows@),
        read ==> final(settings).line_thickness@ == field_after(old(settings).line_thickness@, doc@, "line_thickness"@, fallbacks.line_thickness@),
{
    if lookup_json_member(doc, "start_x").is_err() {
        return false;
    }
    read_field(&mut settings.start_x, doc, "start_x", &fallbacks.start_x);
    read_field(&mut settings.start_y, doc, "start_y", &fallbacks.start_y);
    read_field(&mut settings.cell_width, doc, "cell_width", &fallbacks.cell_width);
    read_field(&mut settings.cell_height, doc, "cell_height", &fallbacks.cell_height);
    read_field(&mut settings.font_size, doc, "font_size", &fallbacks.font_size);
    read_field(&mut settings.offset_x, doc, "offset_x", &fallbacks.offset_x);
    read_field(&mut settings.offset_y, doc, "offset_y", &fallbacks.offset_y);
    read_field(&mut settings.grid_columns, doc, "grid_columns", &fallbacks.grid_columns);
    read_field(&mut settings.grid_rows, doc, "grid_rows", &fallbacks.grid_rows);
    read_field(&mut settings.line_thickness, doc, "line_thickness", &fallbacks.line_thickness);
    true
}

/// The settings a fresh window starts from.
pub fn initial_settings() -> (r: GridSettings)
    ensures
        r.start_x@ == ""@,
        r.start_y@ == ""@,
        r.cell_width@ == ""@,
        r.cell_height@ == ""@,
        r.font_size@ == ""@,
        r.offset_x@ == "1"@,
        r.offset_y@ == "-1"@,
        r.grid_columns@ == ""@,
        r.grid_rows@ == ""@,
        r.line_thickness@ == "2"@,
{
    GridSettings {
        start_x: String::from_str(""),
        start_y: String::from_str(""),
        cell_width: String::from_str(""),
        cell_height: String::from_str(""),
        font_size: String::from_str(""),
        offset_x: String::from_str("1"),
        offset_y: String::from_str("-1"),
        grid_columns: String::from_str(""),
        grid_rows: String::from_str(""),
        line_thickness: String::from_str("2"),
    }
}

/// The texts a preset loaded by hand gives fields whose member is not a
/// string.
pub fn manual_load_fallbacks() -> (r: GridSettings)
    ensures
        r.start_x@ == "0.0"@,
        r.start_y@ == "0.0"@,
        r.cell_width@ == "0.0"@,
        r.cell_height@ == "0.0"@,
        r.font_size@ == ""@,
        r.offset_x@ == "1"@,
        r.offset_y@ == "-1"@,
        r.grid_columns@ == ""@,
        r.grid_rows@ == ""@,
        r.line_thickness@ == "1.0"@,
{
    GridSettings {
        start_x: String::from_str("0.0"),
        start_y: String::from_str("0.0"),
        cell_width: String::from_str("0.0"),
        cell_height: String::from_str("0.0"),
        font_size: String::from_str(""),
        offset_x: String::from_str("1"),
        offset_y: String::from_str("-1"),
        grid_columns: String::from_str(""),
        grid_rows: String::from_str(""),
        line_thickness: String::from_str("1.0"),
    }
}

/// The texts the default preset read at start-up gives fields whose member
/// is not a string.
pub fn startup_fallbacks() -> (r: GridSettings)
    ensures
        r.start_x@ == ""@,
        r.start_y@ == ""@,
        r.cell_width@ == ""@,
        r.cell_height@ == ""@,
        r.font_size@ == ""@,
        r.offset_x@ == "1"@,
        r.offset_y@ == "-1"@,
        r.grid_columns@ == ""@,
        r.grid_rows@ == ""@,
        r.line_thickness@ == "1.0"@,
{
    GridSettings {
        start_x: String::from_str(""),
        start_y: String::from_str(""),
        cell_width: String::from_str(""),
        cell_height: String::from_str(""),
        font_size: String::from_str(""),
        offset_x: String::from_str("1"),
        offset_y: String::from_str("-1"),
        grid_columns: String::from_str(""),
        grid_rows: String::from_str(""),
        line_thickness: String::from_str("1.0"),
    }
}

/// The text `serde_json::to_string_pretty` makes of a JSON object whose
/// members are the given keys with string values, inserted in order.
pub uninterp spec fn json_object_text(members: Seq<(Seq<char>, Seq<char>)>) -> Seq<char>;

/// The value of the first member under `key`, if any member has that key.
pub open spec fn member_value(members: Seq<(Seq<char>, Seq<char>)>, key: Seq<char>) -> Option<Seq<char>>
    decreases members.len(),
{
    if members.len() == 0 {
        None
    } else if members[0].0 == key {
        Some(members[0].1)
    } else {
        member_value(members.drop_first(), key)
    }
}

/// What `json_member` gives for a member whose value, when there is one, is
/// a string.
pub open spec fn string_member(value: Option<Seq<char>>) -> Option<Option<Seq<char>>> {
    match value {
        Some(text) => Some(Some(text)),
        None => None,
    }
}

/// No two members have the same key.
pub open spec fn keys_distinct(members: Seq<(Seq<char>, Seq<char>)>) -> bool {
    forall|i: int, j: int| 0 <= i < j < members.len() ==> #[trigger] members[i].0 != #[trigger] members[j].0
}

/// The views of key and value pairs.
pub open spec fn pairs_view(members: Seq<(String, String)>) -> Seq<(Seq<char>, Seq<char>)> {
    members.map_values(|p: (String, String)| (p.0@, p.1@))
}

/// Writes a JSON object of string members with `serde_json::to_string_pretty`
/// (of a `serde_json::Value::Object` built from the pairs in order).  The
/// contract claims success, which serde_json documents for every value
/// without a failing `Serialize` impl or a map with non-string keys (an object
/// of strings has neither), and that the text is a function of the members
/// alone (`json_object_text`).  It also claims that the text reads back as
/// written: `serde_json::from_str` accepts it, and when no key repeats,
/// `Value::get` and `Value::as_str` give each member's string under its key
/// and nothing under any other key (strings are escaped on writing and
/// unescaped on reading).  The layout of the text is left unsaid.
#[verifier::external_body]
fn json_pretty_object(members: &Vec<(String, String)>) -> (r: Result<String, serde_json::Error>)
    ensures
        r is Ok,
        r matches Ok(text) ==> text@ == json_object_text(pairs_view(members@)),
        r matches Ok(text) ==> json_accepts(text@),
        r matches Ok(text) ==> (keys_distinct(pairs_view(members@)) ==> forall|key: Seq<char>|
            #[trigger] json_member(text@, key) == string_member(member_value(pairs_view(members@), key))),
{
    let map: serde_json::Map<String, serde_json::Value> = members
        .iter()
        .map(|(k, v)| (k.clone(), serde_json::Value::String(v.clone())))
        .collect();
    serde_json::to_string_pretty(&serde_json::Value::Object(map))
}

/// The members of the preset document of `s`: each setting under its key.
pub open spec fn settings_members(s: GridSettings) -> Seq<(Seq<char>, Seq<char>)> {
    seq![
        ("start_x"@, s.start_x@),
        ("start_y"@, s.start_y@),
        ("cell_width"@, s.cell_width@),
        ("cell_height"@, s.cell_height@),
        ("font_size"@, s.font_size@),
        ("offset_x"@, s.offset_x@),
        ("offset_y"@, s.offset_y@),
        ("grid_columns"@, s.grid_columns@),
        ("grid_rows"@, s.grid_rows@),
        ("line_thickness"@, s.line_thickness@),
    ]
}

/// The preset document of the settings `s`, a JSON object with each setting
/// as a string under its key; reading it back gives each setting under its
/// key and nothing under any other key.
pub fn settings_document(s: &GridSettings) -> (r: String)
    ensures
        r@ == json_object_text(settings_members(*s)),
        json_accepts(r@),
        forall|key: Seq<char>| #[trigger] json_member(r@, key) == string_member(member_value(settings_members(*s), key)),
        json_member(r@, "start_x"@) == Some(Some(s.start_x@)),
        json_member(r@, "start_y"@) == Some(Some(s.start_y@)),
        json_member(r@, "cell_width"@) == Some(Some(s.cell_width@)),
        json_member(r@, "cell_height"@) == Some(Some(s.cell_height@)),
        json_member(r@, "font_size"@) == Some(Some(s.font_size@)),
        json_member(r@, "offset_x"@) == Some(Some(s.offset_x@)),
        json_member(r@, "offset_y"@) == Some(Some(s.offset_y@)),
        json_member(r@, "grid_columns"@) == Some(Some(s.grid_columns@)),
        json_member(r@, "grid_rows"@) == Some(Some(s.grid_rows@)),
        json_member(r@, "line_thickness"@) == Some(Some(s.line_thickness@)),
{
    let mut members: Vec<(String, String)> = Vec::new();
    members.push((String::from_str("start_x"), s.start_x.clone()));
    members.push((String::from_str("start_y"), s.start_y.clone()));
    members.push((String::from_str("cell_width"), s.cell_width.clone()));
    members.push((String::from_str("cell_height"), s.cell_height.clone()));
    members.push((String::from_str("font_size"), s.font_size.clone()));
    members.push((String::from_str("offset_x"), s.offset_x.clone()));
    members.push((String::from_str("offset_y"), s.offset_y.clone()));
    members.push((String::from_str("grid_columns"), s.grid_columns.clone()));
    members.push((String::from_str("grid_rows"), s.grid_rows.clone()));
    members.push((String::from_str("line_thickness"), s.line_thickness.clone()));
    assert(pairs_view(members@) =~= settings_members(*s));
    proof {
        lemma_settings_keys_distinct(*s);
        lemma_settings_members_by_key(*s, *s);
    }
    match json_pretty_object(&members) {
        Ok(text) => text,
        Err(_) => {
            assert(false);
            String::new()
        },
    }
}

/// Reading the same preset twice leaves each field as reading it once does.
pub proof fn lemma_reading_preset_twice(current: Seq<char>, doc: Seq<char>, key: Seq<char>, fallback: Seq<char>)
    ensures
        field_after(field_after(current, doc, key, fallback), doc, key, fallback) == field_after(
            current,
            doc,
            key,
            fallback,
        ),
{
}

/// A preset that holds a key overrides the field whatever it held before.
pub proof fn lemma_preset_member_overrides(
    a: Seq<char>,
    b: Seq<char>,
    doc: Seq<char>,
    key: Seq<char>,
    fallback: Seq<char>,
)
    ensures
        json_member(doc, key) is Some ==> field_after(a, doc, key, fallback) == field_after(
            b,
            doc,
            key,
            fallback,
        ),
{
}

/// Each member of a preset holds the setting its key names: looking a key up
/// in the members of `s` gives the field of `s` of that name, for every one
/// of the ten keys; there are just these ten members, no key twice, and the
/// keys are the same whatever the settings.
pub proof fn lemma_settings_members_by_key(s: GridSettings, t: GridSettings)
    ensures
        member_value(settings_members(s), "start_x"@) == Some(s.start_x@),
        member_value(settings_members(s), "start_y"@) == Some(s.start_y@),
        member_value(settings_members(s), "cell_width"@) == Some(s.cell_width@),
        member_value(settings_members(s), "cell_height"@) == Some(s.cell_height@),
        member_value(settings_members(s), "font_size"@) == Some(s.font_size@),
        member_value(settings_members(s), "offset_x"@) == Some(s.offset_x@),
        member_value(settings_members(s), "offset_y"@) == Some(s.offset_y@),
        member_value(settings_members(s), "grid_columns"@) == Some(s.grid_columns@),
        member_value(settings_members(s), "grid_rows"@) == Some(s.grid_rows@),
        member_value(settings_members(s), "line_thickness"@) == Some(s.line_thickness@),
        settings_members(s).len() == 10,
        keys_distinct(settings_members(s)),
        settings_members(s).len() == settings_members(t).len(),
        forall|i: int| 0 <= i < settings_members(s).len() ==> #[trigger] settings_members(s)[i].0 == settings_members(t)[i].0,
{
    lemma_settings_keys_distinct(s);
    reveal_strlit("start_x");
    reveal_strlit("start_y");
    reveal_strlit("cell_width");
    reveal_strlit("cell_height");
    reveal_strlit("font_size");
    reveal_strlit("offset_x");
    reveal_strlit("offset_y");
    reveal_strlit("grid_columns");
    reveal_strlit("grid_rows");
    reveal_strlit("line_thickness");
    assert("start_x"@.len() == 7 && "start_y"@.len() == 7 && "cell_width"@.len() == 10);
    assert("cell_height"@.len() == 11 && "font_size"@.len() == 9 && "offset_x"@.len() == 8);
    assert("offset_y"@.len() == 8 && "grid_columns"@.len() == 12 && "grid_rows"@.len() == 9);
    assert("line_thickness"@.len() == 14);
    assert("start_x"@[6] != "start_y"@[6]);
    assert("offset_x"@[7] != "offset_y"@[7]);
    assert("font_size"@[0] != "grid_rows"@[0]);
    let m = settings_members(s);
    reveal_with_fuel(member_value, 11);
    assert(m.drop_first() == m.subrange(1, 10));
    assert(m.drop_first().drop_first() == m.subrange(2, 10));
    assert(m.subrange(2, 10).drop_first() == m.subrange(3, 10));
    assert(m.subrange(3, 10).drop_first() == m.subrange(4, 10));
    assert(m.subrange(4, 10).drop_first() == m.subrange(5, 10));
    assert(m.subrange(5, 10).drop_first() == m.subrange(6, 10));
    assert(m.subrange(6, 10).drop_first() == m.subrange(7, 10));
    assert(m.subrange(7, 10).drop_first() == m.subrange(8, 10));
    assert(m.subrange(8, 10).drop_first() == m.subrange(9, 10));
}

proof fn lemma_settings_keys_distinct(s: GridSettings)
    ensures
        keys_distinct(settings_members(s)),
{
    reveal_strlit("start_x");
    reveal_strlit("start_y");
    reveal_strlit("cell_width");
    reveal_strlit("cell_height");
    reveal_strlit("font_size");
    reveal_strlit("offset_x");
    reveal_strlit("offset_y");
    reveal_strlit("grid_columns");
    reveal_strlit("grid_rows");
    reveal_strlit("line_thickness");
    assert("start_x"@.len() == 7 && "start_y"@.len() == 7 && "cell_width"@.len() == 10);
    assert("cell_height"@.len() == 11 && "font_size"@.len() == 9 && "offset_x"@.len() == 8);
    assert("offset_y"@.len() == 8 && "grid_columns"@.len() == 12 && "grid_rows"@.len() == 9);
    assert("line_thickness"@.len() == 14);
    assert("start_x"@[6] != "start_y"@[6]);
    assert("offset_x"@[7] != "offset_y"@[7]);
    assert("font_size"@[0] != "grid_rows"@[0]);
}

} // verus!
