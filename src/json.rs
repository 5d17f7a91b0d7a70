use vstd::prelude::*;
use crate::error::ExpectedError;
use crate::text::split_on;

verus! {

/// A loosely-typed document as fetched from a chain endpoint.
/// A number is held as its textual form; an object keeps its entries in order.
#[derive(Debug)]
pub enum JsonValue {
    Null,
    Bool(bool),
    Number(String),
    Str(String),
    Array(Vec<JsonValue>),
    Object(Vec<JsonEntry>),
}

/// One named field of an object.
#[derive(Debug)]
pub struct JsonEntry {
    pub key: String,
    pub value: JsonValue,
}

/// The mathematical content of a document.
pub enum JsonModel {
    Null,
    Bool(bool),
    Number(Seq<char>),
    Str(Seq<char>),
    Array(Seq<JsonModel>),
    Object(Seq<(Seq<char>, JsonModel)>),
}

pub open spec fn model_of(v: JsonValue) -> JsonModel
    decreases v,
{
    match v {
        JsonValue::Null => JsonModel::Null,
        JsonValue::Bool(b) => JsonModel::Bool(b),
        JsonValue::Number(n) => JsonModel::Number(n@),
        JsonValue::Str(s) => JsonModel::Str(s@),
        JsonValue::Array(items) => JsonModel::Array(
            Seq::new(items@.len(), |i: int|
                if 0 <= i < items@.len() {
                    model_of(items@[i])
                } else {
                    JsonModel::Null
                },),
        ),
        JsonValue::Object(entries) => JsonModel::Object(
            Seq::new(entries@.len(), |i: int|
                if 0 <= i < entries@.len() {
                    (entries@[i].key@, model_of(entries@[i].value))
                } else {
                    (Seq::empty(), JsonModel::Null)
                },),
        ),
    }
}

} // verus!

verus! {

impl View for JsonValue {
    type V = JsonModel;

    open spec fn view(&self) -> JsonModel {
        model_of(*self)
    }
}

/// The entries of an object, as (name, content) pairs.
pub open spec fn entries_model(entries: Seq<JsonEntry>) -> Seq<(Seq<char>, JsonModel)> {
    Seq::new(entries.len(), |i: int| (entries[i].key@, entries[i].value@))
}

pub proof fn lemma_object_model(entries: Vec<JsonEntry>)
    ensures
        JsonValue::Object(entries)@ == JsonModel::Object(entries_model(entries@)),
{
    assert(model_of(JsonValue::Object(entries))->Object_0 =~= entries_model(entries@));
}

pub proof fn lemma_array_model(items: Vec<JsonValue>)
    ensures
        JsonValue::Array(items)@ == JsonModel::Array(items@.map_values(|x: JsonValue| x@)),
{
    assert(model_of(JsonValue::Array(items))->Array_0 =~= items@.map_values(|x: JsonValue| x@));
}

/// The content of the first entry named `name`, if any.
pub open spec fn lookup(es: Seq<(Seq<char>, JsonModel)>, name: Seq<char>) -> Option<JsonModel>
    decreases es.len(),
{
    if es.len() == 0 {
        None
    } else if es[0].0 == name {
        Some(es[0].1)
    } else {
        lookup(es.subrange(1, es.len() as int), name)
    }
}

/// Whether a nested search came back with a field that holds something other than null.
pub open spec fn is_hit(r: Option<JsonModel>) -> bool {
    r is Some && !(r->0 is Null)
}

/// Depth-first search for the field `name`: the object's own field first,
/// then, entry by entry, nested objects and the objects inside nested arrays.
/// A nested field that holds null does not end the search.
pub open spec fn find_in(es: Seq<(Seq<char>, JsonModel)>, name: Seq<char>) -> Option<JsonModel>
    decreases es, 1int,
{
    match lookup(es, name) {
        Some(v) => Some(v),
        None => scan_entries(es, name),
    }
}

pub open spec fn scan_entries(es: Seq<(Seq<char>, JsonModel)>, name: Seq<char>) -> Option<JsonModel>
    decreases es, 0int,
{
    if es.len() == 0 {
        None
    } else {
        let r = match es[0].1 {
            JsonModel::Object(o) => find_in(o, name),
            JsonModel::Array(items) => scan_items(items, name),
            _ => None,
        };
        if is_hit(r) {
            r
        } else {
            scan_entries(es.subrange(1, es.len() as int), name)
        }
    }
}

pub open spec fn scan_items(items: Seq<JsonModel>, name: Seq<char>) -> Option<JsonModel>
    decreases items, 0int,
{
    if items.len() == 0 {
        None
    } else {
        let r = match items[0] {
            JsonModel::Object(o) => find_in(o, name),
            _ => None,
        };
        if is_hit(r) {
            r
        } else {
            scan_items(items.subrange(1, items.len() as int), name)
        }
    }
}

} // verus!

verus! {

/// The content that a search result points at.
pub open spec fn found_model(r: Option<&JsonValue>) -> Option<JsonModel> {
    match r {
        Some(v) => Some(v@),
        None => None,
    }
}

proof fn lemma_entries_model_index(entries: Seq<JsonEntry>, i: int)
    requires
        0 <= i < entries.len(),
    ensures
        entries_model(entries)[i] == (entries[i].key@, entries[i].value@),
        entries_model(entries).len() == entries.len(),
{
}

/// The first entry of `values` named `name`.
pub fn object_get<'a>(values: &'a Vec<JsonEntry>, name: &str) -> (r: Option<&'a JsonValue>)
    ensures
        found_model(r) == lookup(entries_model(values@), name@),
{
    let cs = crate::text::chars_of(name);
    object_get_chars(values, &cs)
}

/// The first entry of `values` whose name is the characters `name`.
pub fn object_get_chars<'a>(values: &'a Vec<JsonEntry>, name: &Vec<char>) -> (r: Option<&'a JsonValue>)
    ensures
        found_model(r) == lookup(entries_model(values@), name@),
{
    let ghost em = entries_model(values@);
    let mut i: usize = 0;
    assert(em.subrange(0, em.len() as int) =~= em);
    while i < values.len()
        invariant
            em == entries_model(values@),
            i <= values@.len(),
            lookup(em, name@) == lookup(em.subrange(i as int, em.len() as int), name@),
        decreases values@.len() - i,
    {
        let ghost rest = em.subrange(i as int, em.len() as int);
        proof {
            lemma_entries_model_index(values@, i as int);
            assert(rest[0] == em[i as int]);
        }
        let key = crate::text::chars_of(values[i].key.as_str());
        if crate::text::chars_eq(&key, name) {
            return Some(&values[i].value);
        }
        proof {
            assert(rest.subrange(1, rest.len() as int) =~= em.subrange(i + 1, em.len() as int));
        }
        i = i + 1;
    }
    None
}

/// Depth-first search of `values` for a field named `name` (see `find_in`).
pub fn find_value<'a>(values: &'a Vec<JsonEntry>, name: &str) -> (r: Option<&'a JsonValue>)
    ensures
        found_model(r) == find_in(entries_model(values@), name@),
    decreases values@, 1int,
{
    let direct = object_get(values, name);
    if direct.is_some() {
        return direct;
    }
    let ghost em = entries_model(values@);
    let mut i: usize = 0;
    assert(em.subrange(0, em.len() as int) =~= em);
    while i < values.len()
        invariant
            em == entries_model(values@),
            i <= values@.len(),
            lookup(em, name@) is None,
            scan_entries(em, name@) == scan_entries(em.subrange(i as int, em.len() as int), name@),
        decreases values@.len() - i,
    {
        let ghost rest = em.subrange(i as int, em.len() as int);
        proof {
            lemma_entries_model_index(values@, i as int);
            assert(rest[0] == em[i as int]);
            assert(rest.subrange(1, rest.len() as int) =~= em.subrange(i + 1, em.len() as int));
        }
        match &values[i].value {
            JsonValue::Object(o) => {
                proof {
                    lemma_object_model(*o);
                }
                let r = find_value(o, name);
                if let Some(v) = r {
                    if !v.is_null() {
                        assert(is_hit(found_model(r)));
                        return r;
                    }
                }
            },
            JsonValue::Array(items) => {
                proof {
                    lemma_array_model(*items);
                }
                let r = find_in_items(items, name);
                if r.is_some() {
                    return r;
                }
            },
            _ => {},
        }
        i = i + 1;
    }
    None
}

/// The search of `find_value` through the objects of an array.
fn find_in_items<'a>(items: &'a Vec<JsonValue>, name: &str) -> (r: Option<&'a JsonValue>)
    ensures
        r is Some ==> is_hit(found_model(r)),
        found_model(r) == if is_hit(scan_items(items@.map_values(|x: JsonValue| x@), name@)) {
            scan_items(items@.map_values(|x: JsonValue| x@), name@)
        } else {
            None
        },
    decreases items@, 0int,
{
    let ghost im = items@.map_values(|x: JsonValue| x@);
    let mut j: usize = 0;
    assert(im.subrange(0, im.len() as int) =~= im);
    while j < items.len()
        invariant
            im == items@.map_values(|x: JsonValue| x@),
            j <= items@.len(),
            scan_items(im, name@) == scan_items(im.subrange(j as int, im.len() as int), name@),
        decreases items@.len() - j,
    {
        let ghost rest = im.subrange(j as int, im.len() as int);
        proof {
            assert(rest[0] == items@[j as int]@);
            assert(rest.subrange(1, rest.len() as int) =~= im.subrange(j + 1, im.len() as int));
        }
        if let JsonValue::Object(o) = &items[j] {
            proof {
                lemma_object_model(*o);
            }
            let r = find_value(o, name);
            if let Some(v) = r {
                if !v.is_null() {
                    return r;
                }
            }
        }
        j = j + 1;
    }
    proof {
        assert(im.subrange(j as int, im.len() as int).len() == 0);
    }
    None
}

impl JsonValue {
    pub fn is_null(&self) -> (r: bool)
        ensures
            r == (self@ is Null),
    {
        match self {
            JsonValue::Null => true,
            _ => false,
        }
    }
}

} // verus!

verus! {

/// The field that the dotted path `segs` names: every segment but the last
/// must name an object.
pub open spec fn walk_path(es: Seq<(Seq<char>, JsonModel)>, segs: Seq<Seq<char>>) -> Option<JsonModel>
    decreases segs.len(),
{
    if segs.len() == 0 {
        None
    } else if segs.len() == 1 {
        lookup(es, segs[0])
    } else {
        match lookup(es, segs[0]) {
            Some(JsonModel::Object(o)) => walk_path(o, segs.subrange(1, segs.len() as int)),
            _ => None,
        }
    }
}

/// The field addressed by the dotted path `path` (`a.b.c`).
/// Fails with `ParsingError` when a segment is missing or an inner segment is not an object.
pub fn get_value_by_path<'a>(params: &'a Vec<JsonEntry>, path: &str) -> (r: Result<
    &'a JsonValue,
    ExpectedError,
>)
    ensures
        match r {
            Ok(v) => walk_path(entries_model(params@), split_on(path@, '.')) == Some(v@),
            Err(e) => walk_path(entries_model(params@), split_on(path@, '.')) is None
                && e is ParsingError,
        },
{
    let cs = crate::text::chars_of(path);
    let segs = crate::text::split_chars(&cs, '.');
    let ghost ss = split_on(path@, '.');
    proof {
        crate::text::lemma_split_nonempty(path@, '.');
        assert(segs@.len() == ss.len());
        assert(ss.subrange(0, ss.len() as int) =~= ss);
    }
    let mut cur: &'a Vec<JsonEntry> = params;
    let mut k: usize = 0;
    while k < segs.len() - 1
        invariant
            ss == split_on(path@, '.'),
            segs@.len() == ss.len(),
            ss.len() >= 1,
            forall|j: int| 0 <= j < segs@.len() ==> #[trigger] segs@[j]@ == ss[j],
            k < segs@.len(),
            walk_path(entries_model(params@), ss) == walk_path(
                entries_model(cur@),
                ss.subrange(k as int, ss.len() as int),
            ),
        decreases segs@.len() - k,
    {
        let ghost rest = ss.subrange(k as int, ss.len() as int);
        assert(rest[0] == ss[k as int]);
        assert(rest.subrange(1, rest.len() as int) =~= ss.subrange(k + 1, ss.len() as int));
        assert(rest.len() > 1);
        let found = object_get_chars(cur, &segs[k]);
        assert(segs@[k as int]@ == rest[0]);
        match found {
            Some(v) => {
                match v {
                    JsonValue::Object(o) => {
                        proof {
                            lemma_object_model(*o);
                        }
                        cur = o;
                    },
                    _ => {
                        assert(!(v@ is Object));
                        assert(walk_path(entries_model(cur@), rest) is None);
                        return Err(ExpectedError::ParsingError("invalid value type in path".to_string()));
                    },
                }
            },
            None => {
                assert(walk_path(entries_model(cur@), rest) is None);
                return Err(ExpectedError::ParsingError("value does not exist in path".to_string()));
            },
        }
        k = k + 1;
    }
    let ghost rest = ss.subrange(k as int, ss.len() as int);
    assert(rest.len() == 1 && rest[0] == ss[k as int]);
    match object_get_chars(cur, &segs[k]) {
        Some(v) => Ok(v),
        None => Err(ExpectedError::ParsingError("value does not exist in path".to_string())),
    }
}

} // verus!

verus! {

pub open spec fn hex_lower(d: int) -> char {
    seq!['0', '1', '2', '3', '4', '5', '6', '7', '8', '9', 'a', 'b', 'c', 'd', 'e', 'f'][d]
}

/// How one character of a string is written inside JSON quotes.
pub open spec fn escape(c: char) -> Seq<char> {
    if c == '"' {
        seq!['\\', '"']
    } else if c == '\\' {
        seq!['\\', '\\']
    } else if c == '\u{8}' {
        seq!['\\', 'b']
    } else if c == '\u{c}' {
        seq!['\\', 'f']
    } else if c == '\n' {
        seq!['\\', 'n']
    } else if c == '\r' {
        seq!['\\', 'r']
    } else if c == '\t' {
        seq!['\\', 't']
    } else if (c as u32) < 0x20 {
        seq!['\\', 'u', '0', '0', hex_lower((c as u32) as int / 16), hex_lower((c as u32) as int % 16)]
    } else {
        seq![c]
    }
}

pub open spec fn escaped(s: Seq<char>) -> Seq<char>
    decreases s.len(),
{
    if s.len() == 0 {
        Seq::empty()
    } else {
        escaped(s.drop_last()) + escape(s.last())
    }
}

pub open spec fn quoted(s: Seq<char>) -> Seq<char> {
    seq!['"'] + escaped(s) + seq!['"']
}

/// The compact JSON text of a document.
pub open spec fn json_text(v: JsonModel) -> Seq<char>
    decreases v, 1int,
{
    match v {
        JsonModel::Null => seq!['n', 'u', 'l', 'l'],
        JsonModel::Bool(b) => if b {
            seq!['t', 'r', 'u', 'e']
        } else {
            seq!['f', 'a', 'l', 's', 'e']
        },
        JsonModel::Number(n) => n,
        JsonModel::Str(s) => quoted(s),
        JsonModel::Array(items) => seq!['['] + items_text(items) + seq![']'],
        JsonModel::Object(es) => seq!['{'] + entries_text(es) + seq!['}'],
    }
}

/// The elements of an array, comma-separated.
pub open spec fn items_text(items: Seq<JsonModel>) -> Seq<char>
    decreases items, 0int,
{
    if items.len() == 0 {
        Seq::empty()
    } else if items.len() == 1 {
        json_text(items[0])
    } else {
        items_text(items.subrange(0, items.len() - 1)) + seq![','] + json_text(
            items[items.len() - 1],
        )
    }
}

/// The entries of an object as `"name":value`, comma-separated.
pub open spec fn entries_text(es: Seq<(Seq<char>, JsonModel)>) -> Seq<char>
    decreases es, 0int,
{
    if es.len() == 0 {
        Seq::empty()
    } else if es.len() == 1 {
        quoted(es[0].0) + seq![':'] + json_text(es[0].1)
    } else {
        entries_text(es.subrange(0, es.len() - 1)) + seq![','] + quoted(es[es.len() - 1].0)
            + seq![':'] + json_text(es[es.len() - 1].1)
    }
}

fn hex_digit_lower(d: u32) -> (r: char)
    requires
        d < 16,
    ensures
        r == hex_lower(d as int),
{
    let digits = ['0', '1', '2', '3', '4', '5', '6', '7', '8', '9', 'a', 'b', 'c', 'd', 'e', 'f'];
    let r = digits[d as usize];
    assert(digits@ =~= seq!['0', '1', '2', '3', '4', '5', '6', '7', '8', '9', 'a', 'b', 'c', 'd', 'e', 'f']);
    r
}

fn push_seq2(out: &mut String, a: char, b: char)
    ensures
        final(out)@ == old(out)@ + seq![a, b],
{
    crate::text::push_char(out, a);
    crate::text::push_char(out, b);
    assert(out@ =~= old(out)@ + seq![a, b]);
}

/// Appends `s` to `out` as a quoted JSON string.
pub fn write_quoted(s: &str, out: &mut String)
    ensures
        final(out)@ == old(out)@ + quoted(s@),
{
    let cs = crate::text::chars_of(s);
    crate::text::push_char(out, '"');
    let mut i: usize = 0;
    while i < cs.len()
        invariant
            cs@ == s@,
            i <= cs@.len(),
            out@ == old(out)@ + seq!['"'] + escaped(s@.subrange(0, i as int)),
        decreases cs@.len() - i,
    {
        let c = cs[i];
        let ghost before = out@;
        if c == '"' {
            push_seq2(out, '\\', '"');
        } else if c == '\\' {
            push_seq2(out, '\\', '\\');
        } else if c == '\u{8}' {
            push_seq2(out, '\\', 'b');
        } else if c == '\u{c}' {
            push_seq2(out, '\\', 'f');
        } else if c == '\n' {
            push_seq2(out, '\\', 'n');
        } else if c == '\r' {
            push_seq2(out, '\\', 'r');
        } else if c == '\t' {
            push_seq2(out, '\\', 't');
        } else if (c as u32) < 0x20 {
            push_seq2(out, '\\', 'u');
            push_seq2(out, '0', '0');
            let hi = hex_digit_lower((c as u32) / 16);
            let lo = hex_digit_lower((c as u32) % 16);
            push_seq2(out, hi, lo);
            assert(out@ =~= before + escape(c));
        } else {
            crate::text::push_char(out, c);
            assert(out@ =~= before + escape(c));
        }
        proof {
            assert(s@.subrange(0, i + 1).drop_last() =~= s@.subrange(0, i as int));
        }
        i = i + 1;
        assert(out@ =~= old(out)@ + seq!['"'] + escaped(s@.subrange(0, i as int)));
    }
    assert(s@.subrange(0, i as int) =~= s@);
    crate::text::push_char(out, '"');
    assert(out@ =~= old(out)@ + quoted(s@));
}

fn push_str_lit(out: &mut String, t: &str)
    ensures
        final(out)@ == old(out)@ + t@,
{
    crate::text::push_all(out, t);
}

/// Appends the compact JSON text of `v` to `out`.
pub fn write_json(v: &JsonValue, out: &mut String)
    ensures
        final(out)@ == old(out)@ + json_text(v@),
    decreases v,
{
    match v {
        JsonValue::Null => {
            push_str_lit(out, "null");
            proof {
                reveal_strlit("null");
            }
            assert(out@ =~= old(out)@ + json_text(v@));
        },
        JsonValue::Bool(b) => {
            if *b {
                push_str_lit(out, "true");
                proof {
                    reveal_strlit("true");
                }
            } else {
                push_str_lit(out, "false");
                proof {
                    reveal_strlit("false");
                }
            }
            assert(out@ =~= old(out)@ + json_text(v@));
        },
        JsonValue::Number(n) => {
            crate::text::push_all(out, n.as_str());
        },
        JsonValue::Str(s) => {
            write_quoted(s.as_str(), out);
        },
        JsonValue::Array(items) => {
            proof {
                lemma_array_model(*items);
            }
            let ghost im = items@.map_values(|x: JsonValue| x@);
            crate::text::push_char(out, '[');
            let mut i: usize = 0;
            assert(im.subrange(0, 0) =~= Seq::<JsonModel>::empty());
            while i < items.len()
                invariant
                    *v == JsonValue::Array(*items),
                    im == items@.map_values(|x: JsonValue| x@),
                    i <= items@.len(),
                    out@ == old(out)@ + seq!['['] + items_text(im.subrange(0, i as int)),
                decreases items@.len() - i,
            {
                let ghost before = out@;
                if i > 0 {
                    crate::text::push_char(out, ',');
                }
                proof {
                    assert(decreases_to!(*v => v->Array_0));
                }
                write_json(&items[i], out);
                proof {
                    let sub = im.subrange(0, i + 1);
                    assert(sub.subrange(0, i as int) =~= im.subrange(0, i as int));
                    assert(sub[i as int] == items@[i as int]@);
                    if i == 0 {
                        assert(out@ =~= before + items_text(sub));
                    } else {
                        assert(out@ =~= old(out)@ + seq!['['] + items_text(sub));
                    }
                }
                i = i + 1;
            }
            assert(im.subrange(0, i as int) =~= im);
            crate::text::push_char(out, ']');
            assert(out@ =~= old(out)@ + json_text(v@));
        },
        JsonValue::Object(entries) => {
            proof {
                lemma_object_model(*entries);
            }
            let ghost em = entries_model(entries@);
            crate::text::push_char(out, '{');
            let mut i: usize = 0;
            assert(em.subrange(0, 0) =~= Seq::<(Seq<char>, JsonModel)>::empty());
            while i < entries.len()
                invariant
                    *v == JsonValue::Object(*entries),
                    em == entries_model(entries@),
                    i <= entries@.len(),
                    out@ == old(out)@ + seq!['{'] + entries_text(em.subrange(0, i as int)),
                decreases entries@.len() - i,
            {
                let ghost before = out@;
                if i > 0 {
                    crate::text::push_char(out, ',');
                }
                write_quoted(entries[i].key.as_str(), out);
                crate::text::push_char(out, ':');
                proof {
                    assert(decreases_to!(*v => v->Object_0));
                }
                write_json(&entries[i].value, out);
                proof {
                    let sub = em.subrange(0, i + 1);
                    assert(sub.subrange(0, i as int) =~= em.subrange(0, i as int));
                    assert(sub[i as int] == em[i as int]);
                    if i == 0 {
                        assert(out@ =~= before + entries_text(sub));
                    } else {
                        assert(out@ =~= old(out)@ + seq!['{'] + entries_text(sub));
                    }
                }
                i = i + 1;
            }
            assert(em.subrange(0, i as int) =~= em);
            crate::text::push_char(out, '}');
            assert(out@ =~= old(out)@ + json_text(v@));
        },
    }
}

/// The compact JSON text of `v`.
pub fn to_json_text(v: &JsonValue) -> (r: String)
    ensures
        r@ == json_text(v@),
{
    let mut out = String::new();
    write_json(v, &mut out);
    assert(out@ =~= json_text(v@));
    out
}

} // verus!

verus! {

impl JsonValue {
    /// A copy of the document.
    pub fn duplicate(&self) -> (r: JsonValue)
        ensures
            r@ == self@,
        decreases self,
    {
        match self {
            JsonValue::Null => JsonValue::Null,
            JsonValue::Bool(b) => JsonValue::Bool(*b),
            JsonValue::Number(n) => JsonValue::Number(n.clone()),
            JsonValue::Str(s) => JsonValue::Str(s.clone()),
            JsonValue::Array(items) => {
                let mut out: Vec<JsonValue> = Vec::new();
                let mut i: usize = 0;
                while i < items.len()
                    invariant
                        *self == JsonValue::Array(*items),
                        i <= items@.len(),
                        out@.len() == i,
                        forall|k: int| 0 <= k < i ==> (#[trigger] out@[k])@ == items@[k]@,
                    decreases items@.len() - i,
                {
                    proof {
                        assert(decreases_to!(*self => self->Array_0));
                    }
                    let c = items[i].duplicate();
                    out.push(c);
                    i = i + 1;
                }
                proof {
                    lemma_array_model(*items);
                    lemma_array_model(out);
                    assert(out@.map_values(|x: JsonValue| x@) =~= items@.map_values(|x: JsonValue| x@));
                }
                JsonValue::Array(out)
            },
            JsonValue::Object(entries) => {
                let out = duplicate_entries(entries, Ghost(*self));
                proof {
                    lemma_object_model(*entries);
                    lemma_object_model(out);
                }
                JsonValue::Object(out)
            },
        }
    }
}

/// A copy of the entries of the object `whole`.
fn duplicate_entries(entries: &Vec<JsonEntry>, Ghost(whole): Ghost<JsonValue>) -> (r: Vec<JsonEntry>)
    requires
        whole == JsonValue::Object(*entries),
    ensures
        entries_model(r@) == entries_model(entries@),
    decreases whole, 0int,
{
    let mut out: Vec<JsonEntry> = Vec::new();
    let mut i: usize = 0;
    while i < entries.len()
        invariant
            whole == JsonValue::Object(*entries),
            i <= entries@.len(),
            out@.len() == i,
            forall|k: int|
                0 <= k < i ==> (#[trigger] out@[k]).key@ == entries@[k].key@ && out@[k].value@
                    == entries@[k].value@,
        decreases entries@.len() - i,
    {
        proof {
            assert(decreases_to!(whole => whole->Object_0));
        }
        let v = entries[i].value.duplicate();
        out.push(JsonEntry { key: entries[i].key.clone(), value: v });
        i = i + 1;
    }
    assert(entries_model(out@) =~= entries_model(entries@));
    out
}

} // verus!

verus! {

/// The index of the first entry of `values` named `name`.
pub fn entry_position(values: &Vec<JsonEntry>, name: &str) -> (r: Option<usize>)
    ensures
        match r {
            Some(i) => i < values@.len() && values@[i as int].key@ == name@ && lookup(
                entries_model(values@),
                name@,
            ) == Some(values@[i as int].value@),
            None => lookup(entries_model(values@), name@) is None,
        },
{
    let ghost em = entries_model(values@);
    let mut i: usize = 0;
    assert(em.subrange(0, em.len() as int) =~= em);
    while i < values.len()
        invariant
            em == entries_model(values@),
            i <= values@.len(),
            lookup(em, name@) == lookup(em.subrange(i as int, em.len() as int), name@),
        decreases values@.len() - i,
    {
        let ghost rest = em.subrange(i as int, em.len() as int);
        proof {
            lemma_entries_model_index(values@, i as int);
            assert(rest[0] == em[i as int]);
        }
        if crate::text::str_eq(values[i].key.as_str(), name) {
            return Some(i);
        }
        proof {
            assert(rest.subrange(1, rest.len() as int) =~= em.subrange(i + 1, em.len() as int));
        }
        i = i + 1;
    }
    None
}

} // verus!

verus! {

impl JsonValue {
    pub fn is_array_or_object(&self) -> (r: bool)
        ensures
            r == (self@ is Array || self@ is Object),
    {
        match self {
            JsonValue::Array(_) => true,
            JsonValue::Object(_) => true,
            _ => false,
        }
    }
}

} // verus!
