//! The assembler: starting from a root item, recursively inline every
//! authorised referenced entity into one expanded JSON-LD document, with a
//! visited set and a depth cap against cycles.

use vstd::prelude::*;

use crate::auth::can_show;
use crate::entity::{PropValue, StoreItem};
use crate::store::MemoryStore;
use crate::strutil::str_eq;

verus! {

/// An expanded JSON-LD value.
pub enum JsonValue {
    /// A bare string.
    Text(String),
    /// A boolean.
    Flag(bool),
    /// An integer.
    Number(i64),
    /// An ordered list.
    Array(Vec<JsonValue>),
    /// An object: ordered fields, keys first.
    Object(Vec<(String, JsonValue)>),
}

/// A bare reference node: `{"@id": iri}`.
fn reference_node(id: &str) -> (r: JsonValue)
    ensures
        r matches JsonValue::Object(fields) && fields@.len() == 1 && fields@[0].0@ == "@id"@ && (
        fields@[0].1 matches JsonValue::Text(t) && t@ == id@),
{
    proof {
        reveal_strlit("@id");
    }
    let mut fields: Vec<(String, JsonValue)> = Vec::new();
    fields.push((String::from_str("@id"), JsonValue::Text(id.to_owned())));
    JsonValue::Object(fields)
}

/// How one attribute value reads in the assembled document: a reference
/// yields an object whose first field is `@id` with the referenced IRI
/// (inlined or bare); a literal yields an object whose first field is
/// `@value` with the literal's value.
pub open spec fn spec_rendered_matches(v: crate::entity::PropValueV, r: JsonValue) -> bool {
    match v {
        crate::entity::PropValueV::Ref(x) => r matches JsonValue::Object(f) && f@.len() >= 1
            && f@[0].0@ == "@id"@ && (f@[0].1 matches JsonValue::Text(t) && t@ == x),
        crate::entity::PropValueV::Text(val, dt) => r matches JsonValue::Object(f) && f@.len()
            >= 1 && f@[0].0@ == "@value"@ && (f@[0].1 matches JsonValue::Text(t) && t@ == val),
        crate::entity::PropValueV::LangText(val, l) => r matches JsonValue::Object(f) && f@.len()
            >= 1 && f@[0].0@ == "@value"@ && (f@[0].1 matches JsonValue::Text(t) && t@ == val),
        crate::entity::PropValueV::Flag(b) => r matches JsonValue::Object(f) && f@.len() >= 1
            && f@[0].0@ == "@value"@ && f@[0].1 == JsonValue::Flag(b),
        crate::entity::PropValueV::Number(n) => r matches JsonValue::Object(f) && f@.len() >= 1
            && f@[0].0@ == "@value"@ && f@[0].1 == JsonValue::Number(n),
    }
}

/// The assembled shape of an item: `@id` first, then `@type` when the item
/// has types, then one field per attribute holding the rendered values.
pub open spec fn spec_assembled_shape(item: crate::entity::StoreItemV, r: JsonValue) -> bool {
    r matches JsonValue::Object(fields) && {
        let toff: int = if item.main.types.len() > 0 {
            1int
        } else {
            0int
        };
        &&& fields@.len() == 1 + toff + item.main.props.len()
        &&& fields@[0].0@ == "@id"@
        &&& (fields@[0].1 matches JsonValue::Text(t) && t@ == item.id)
        &&& (toff == 1 ==> fields@[1].0@ == "@type"@ && (fields@[1].1 matches JsonValue::Array(ts)
            && ts@.len() == item.main.types.len() && forall|ti: int|
            0 <= ti < ts@.len() ==> ((#[trigger] ts@[ti]) matches JsonValue::Text(t) && t@
                == item.main.types[ti])))
        &&& forall|p: int|
            0 <= p < item.main.props.len() ==> {
                let field = #[trigger] fields@[1 + toff + p];
                &&& field.0@ == item.main.props[p].0
                &&& (field.1 matches JsonValue::Array(vals) && vals@.len()
                    == item.main.props[p].1.len() && forall|i: int|
                    0 <= i < vals@.len() ==> spec_rendered_matches(
                        item.main.props[p].1[i],
                        #[trigger] vals@[i],
                    ))
            }
    }
}

/// A literal in expanded form: `{"@value": ..}` with its type or language.
fn literal_node(v: &PropValue) -> (r: JsonValue)
    requires
        !(v is Ref),
    ensures
        spec_rendered_matches(v@, r),
{
    proof {
        reveal_strlit("@value");
        reveal_strlit("@type");
        reveal_strlit("@language");
    }
    let mut fields: Vec<(String, JsonValue)> = Vec::new();
    match v {
        PropValue::Text(value, datatype) => {
            fields.push((String::from_str("@value"), JsonValue::Text(value.clone())));
            if datatype.as_str().unicode_len() > 0 {
                fields.push((String::from_str("@type"), JsonValue::Text(datatype.clone())));
            }
        },
        PropValue::LangText(value, language) => {
            fields.push((String::from_str("@value"), JsonValue::Text(value.clone())));
            fields.push((String::from_str("@language"), JsonValue::Text(language.clone())));
        },
        PropValue::Flag(b) => {
            fields.push((String::from_str("@value"), JsonValue::Flag(*b)));
        },
        PropValue::Number(n) => {
            fields.push((String::from_str("@value"), JsonValue::Number(*n)));
        },
        PropValue::Ref(_) => {
        },
    }
    JsonValue::Object(fields)
}

/// Whether the visited set holds this id.
fn seen_has(seen: &Vec<String>, id: &str) -> (r: bool)
    ensures
        r == exists|j: int| 0 <= j < seen@.len() && (#[trigger] seen@[j])@ == id@,
{
    let n = seen.len();
    let mut i: usize = 0;
    while i < n
        invariant
            n == seen@.len(),
            i <= n,
            forall|j: int| 0 <= j < i ==> (#[trigger] seen@[j])@ != id@,
        decreases n - i,
    {
        if str_eq(seen[i].as_str(), id) {
            return true;
        }
        i = i + 1;
    }
    false
}

/// Render one attribute value: a reference is inlined when it is stored,
/// visible under the active rule, unvisited and within depth; anything else
/// stays as written.
fn render_value(
    store: &MemoryStore,
    subject: &str,
    instance_id: u32,
    depth: u32,
    seen: &mut Vec<String>,
    v: &PropValue,
    local_only: bool,
) -> (r: JsonValue)
    requires
        store.wf(),
        depth <= 6,
    ensures
        spec_rendered_matches(v@, r),
    decreases 6 - depth, 0int,
{
    match v {
        PropValue::Ref(id) => {
            if depth >= 6 || seen_has(seen, id.as_str()) {
                return reference_node(id.as_str());
            }
            let item = match store.get(id.as_str()) {
                Some(item) => item,
                None => {
                    return reference_node(id.as_str());
                },
            };
            let visible = if local_only {
                crate::auth::can_show_local(&item, subject, instance_id)
            } else {
                can_show(&item, subject, instance_id)
            };
            if !visible {
                return reference_node(id.as_str());
            }
            proof {
                store.lemma_key_id(id@);
                assert(item@.id == id@);
            }
            assemble_with(store, &item, depth + 1, subject, instance_id, seen, local_only)
        },
        other => literal_node(other),
    }
}

/// Assemble an item under the given visibility rule.
fn assemble_with(
    store: &MemoryStore,
    item: &StoreItem,
    depth: u32,
    subject: &str,
    instance_id: u32,
    seen: &mut Vec<String>,
    local_only: bool,
) -> (r: JsonValue)
    requires
        store.wf(),
        depth <= 6,
    ensures
        spec_assembled_shape(item@, r),
    decreases 6 - depth, 1int,
{
    proof {
        reveal_strlit("@id");
        reveal_strlit("@type");
    }
    seen.push(item.id.clone());
    let ghost itemv = item@;
    let mut fields: Vec<(String, JsonValue)> = Vec::new();
    fields.push((String::from_str("@id"), JsonValue::Text(item.id.clone())));
    let ghost toff: int = if itemv.main.types.len() > 0 {
        1int
    } else {
        0int
    };
    if item.main.types.len() > 0 {
        let mut types: Vec<JsonValue> = Vec::new();
        let tn = item.main.types.len();
        let mut t: usize = 0;
        while t < tn
            invariant
                tn == item.main.types@.len(),
                t <= tn,
                types@.len() == t,
                forall|ti: int|
                    0 <= ti < t ==> ((#[trigger] types@[ti]) matches JsonValue::Text(x) && x@
                        == item@.main.types[ti]),
            decreases tn - t,
        {
            types.push(JsonValue::Text(item.main.types[t].clone()));
            t = t + 1;
        }
        fields.push((String::from_str("@type"), JsonValue::Array(types)));
    }
    let pn = item.main.props.len();
    let mut p: usize = 0;
    while p < pn
        invariant
            store.wf(),
            depth <= 6,
            itemv == item@,
            pn == item.main.props@.len(),
            pn == itemv.main.props.len(),
            p <= pn,
            toff == if itemv.main.types.len() > 0 {
                1int
            } else {
                0int
            },
            fields@.len() == 1 + toff + p,
            fields@[0].0@ == "@id"@,
            fields@[0].1 matches JsonValue::Text(t) && t@ == itemv.id,
            toff == 1 ==> fields@[1].0@ == "@type"@ && (fields@[1].1 matches JsonValue::Array(ts)
                && ts@.len() == itemv.main.types.len() && forall|ti: int|
                0 <= ti < ts@.len() ==> ((#[trigger] ts@[ti]) matches JsonValue::Text(t) && t@
                    == itemv.main.types[ti])),
            forall|q: int|
                0 <= q < p ==> {
                    let field = #[trigger] fields@[1 + toff + q];
                    &&& field.0@ == itemv.main.props[q].0
                    &&& (field.1 matches JsonValue::Array(vals) && vals@.len()
                        == itemv.main.props[q].1.len() && forall|i: int|
                        0 <= i < vals@.len() ==> spec_rendered_matches(
                            itemv.main.props[q].1[i],
                            #[trigger] vals@[i],
                        ))
                },
        decreases pn - p,
    {
        let prop = &item.main.props[p];
        let vn = prop.values.len();
        let mut rendered: Vec<JsonValue> = Vec::new();
        let mut i: usize = 0;
        while i < vn
            invariant
                store.wf(),
                depth <= 6,
                itemv == item@,
                p < pn,
                pn == item.main.props@.len(),
                pn == itemv.main.props.len(),
                prop == item.main.props@[p as int],
                vn == prop.values@.len(),
                i <= vn,
                rendered@.len() == i,
                forall|q: int|
                    0 <= q < i ==> spec_rendered_matches(
                        itemv.main.props[p as int].1[q],
                        #[trigger] rendered@[q],
                    ),
            decreases vn - i,
        {
            let value = render_value(
                store,
                subject,
                instance_id,
                depth,
                seen,
                &prop.values[i],
                local_only,
            );
            rendered.push(value);
            proof {
                assert(itemv.main.props[p as int].1[i as int] == prop.values@[i as int]@);
            }
            i = i + 1;
        }
        let ghost pre = fields@;
        fields.push((prop.key.clone(), JsonValue::Array(rendered)));
        proof {
            assert(fields@[0] == pre[0]);
            if toff == 1 {
                assert(fields@[1] == pre[1]);
            }
            assert(fields@[1 + toff + p].0@ == itemv.main.props[p as int].0);
            assert(forall|q: int| 0 <= q < p ==> #[trigger] fields@[1 + toff + q] == pre[1 + toff
                + q]);
        }
        p = p + 1;
    }
    let r = JsonValue::Object(fields);
    proof {
        assert(spec_assembled_shape(itemv, r));
    }
    r
}

/// Assemble an item into one expanded document for serving: its id, its
/// types, and each attribute with every referenced entity inlined subject to
/// the default visibility rule, the visited set, and the depth cap.
pub fn assemble(
    store: &MemoryStore,
    item: &StoreItem,
    depth: u32,
    subject: &str,
    instance_id: u32,
    seen: &mut Vec<String>,
) -> (r: JsonValue)
    requires
        store.wf(),
        depth <= 6,
    ensures
        spec_assembled_shape(item@, r),
    decreases 6 - depth,
{
    assemble_with(store, item, depth, subject, instance_id, seen, false)
}

/// Assemble an outgoing document: as `assemble`, but a referenced entity is
/// inlined only when it is owned by this server as well as visible, so
/// remote content is never re-exposed verbatim; remote references stay bare.
pub fn assemble_outgoing(
    store: &MemoryStore,
    item: &StoreItem,
    depth: u32,
    subject: &str,
    instance_id: u32,
    seen: &mut Vec<String>,
) -> (r: JsonValue)
    requires
        store.wf(),
        depth <= 6,
    ensures
        spec_assembled_shape(item@, r),
    decreases 6 - depth,
{
    assemble_with(store, item, depth, subject, instance_id, seen, true)
}

/// Position of the `@context` field of an object.
pub open spec fn spec_context_index(fields: Seq<(String, JsonValue)>) -> Option<int>
    decreases fields.len(),
{
    if fields.len() == 0 {
        None
    } else if fields[0].0@ == "@context"@ {
        Some(0int)
    } else {
        match spec_context_index(fields.drop_first()) {
            Some(i) => Some(i + 1),
            None => None,
        }
    }
}

/// Without a field named `@context` there is no index.
proof fn lemma_context_index_none(fields: Seq<(String, JsonValue)>)
    requires
        forall|j: int| 0 <= j < fields.len() ==> (#[trigger] fields[j]).0@ != "@context"@,
    ensures
        spec_context_index(fields) is None,
    decreases fields.len(),
{
    if fields.len() > 0 {
        let rest = fields.drop_first();
        assert(forall|j: int| 0 <= j < rest.len() ==> #[trigger] rest[j] == fields[j + 1]);
        lemma_context_index_none(rest);
    }
}

/// The first field named `@context` fixes the index.
proof fn lemma_context_index_some(fields: Seq<(String, JsonValue)>, i: int)
    requires
        0 <= i < fields.len(),
        fields[i].0@ == "@context"@,
        forall|j: int| 0 <= j < i ==> (#[trigger] fields[j]).0@ != "@context"@,
    ensures
        spec_context_index(fields) == Some(i),
    decreases fields.len(),
{
    if fields[0].0@ != "@context"@ {
        let rest = fields.drop_first();
        assert(rest[i - 1] == fields[i]);
        assert(forall|j: int| 0 <= j < i - 1 ==> #[trigger] rest[j] == fields[j + 1]);
        lemma_context_index_some(rest, i - 1);
    }
}

/// Apply the server's context supplement to an incoming document: appended
/// to an `@context` array, paired with a single `@context`, and left out of
/// documents that carry none.
pub fn apply_supplement(val: JsonValue, supplement: JsonValue) -> (r: JsonValue)
    ensures
        !(val is Object) ==> r == val,
        val is Object ==> r is Object && r->Object_0@.len() == val->Object_0@.len(),
        val is Object && spec_context_index(val->Object_0@) is None ==> r->Object_0@
            == val->Object_0@,
        (val is Object && spec_context_index(val->Object_0@) is Some) ==> ({
            let ci = spec_context_index(val->Object_0@)->0;
            let oldf = val->Object_0@;
            let newf = r->Object_0@;
            &&& forall|j: int| 0 <= j < oldf.len() && j != ci ==> newf[j] == #[trigger] oldf[j]
            &&& newf[ci].0 == oldf[ci].0
            &&& (oldf[ci].1 is Array ==> newf[ci].1 is Array && newf[ci].1->Array_0@
                == oldf[ci].1->Array_0@.push(supplement))
            &&& (!(oldf[ci].1 is Array) ==> newf[ci].1 is Array && newf[ci].1->Array_0@.len() == 2
                && newf[ci].1->Array_0@[0] == oldf[ci].1 && newf[ci].1->Array_0@[1] == supplement)
        }),
{
    proof {
        reveal_strlit("@context");
    }
    let mut fields = match val {
        JsonValue::Object(fields) => fields,
        other => {
            return other;
        },
    };
    let ghost original = fields@;
    proof {
        assert(val->Object_0@ == original);
    }
    let n = fields.len();
    let mut i: usize = 0;
    while i < n
        invariant
            n == fields@.len(),
            n == original.len(),
            i <= n,
            val is Object,
            val->Object_0@ == original,
            forall|j: int| 0 <= j < fields@.len() ==> #[trigger] fields@[j] == original[j],
            forall|j: int| 0 <= j < i ==> (#[trigger] original[j]).0@ != "@context"@,
        decreases n - i,
    {
        proof {
            reveal_strlit("@context");
        }
        if str_eq(fields[i].0.as_str(), "@context") {
            proof {
                assert(original[i as int].0@ == "@context"@);
                lemma_context_index_some(original, i as int);
            }
            let entry = fields.remove(i);
            let ghost entryg = entry;
            let ghost supplementg = supplement;
            let replacement = match entry.1 {
                JsonValue::Array(mut arr) => {
                    let ghost arrg = arr@;
                    arr.push(supplement);
                    let built = JsonValue::Array(arr);
                    proof {
                        assert(entryg.1 is Array);
                        assert(entryg.1->Array_0@ == arrg);
                        assert(built is Array);
                        assert(built->Array_0@ == arrg.push(supplementg));
                        assert(built->Array_0@ == entryg.1->Array_0@.push(supplementg));
                    }
                    built
                },
                other => {
                    let mut pair: Vec<JsonValue> = Vec::new();
                    pair.push(other);
                    pair.push(supplement);
                    let built = JsonValue::Array(pair);
                    proof {
                        assert(!(entryg.1 is Array));
                        assert(built is Array);
                        assert(built->Array_0@.len() == 2);
                        assert(built->Array_0@[0] == entryg.1);
                        assert(built->Array_0@[1] == supplementg);
                    }
                    built
                },
            };
            proof {
                assert(entryg.1 is Array ==> replacement is Array && replacement->Array_0@
                    == entryg.1->Array_0@.push(supplementg));
                assert(!(entryg.1 is Array) ==> replacement is Array && replacement->Array_0@.len()
                    == 2 && replacement->Array_0@[0] == entryg.1 && replacement->Array_0@[1]
                    == supplementg);
            }
            fields.insert(i, (entry.0, replacement));
            proof {
                assert(fields@ =~= original.update(i as int, (entryg.0, replacement)));
                assert(fields@.len() == original.len());
                assert(entryg == original[i as int]);
            }
            return JsonValue::Object(fields);
        }
        proof {
            assert(original[i as int].0@ != "@context"@);
        }
        i = i + 1;
    }
    proof {
        assert(fields@ =~= original);
        lemma_context_index_none(original);
    }
    JsonValue::Object(fields)
}

/// The `@context` of every outgoing document: the ActivityStreams context
/// followed by this server's own context document.
pub fn outgoing_context(base: &str) -> (r: JsonValue)
    ensures
        r matches JsonValue::Array(parts) && parts@.len() == 2 && (parts@[0] matches
            JsonValue::Text(t) && t@ == "https://www.w3.org/ns/activitystreams"@) && (parts@[1]
            matches JsonValue::Text(u) && u@ == base@ + "/-/context"@),
{
    proof {
        reveal_strlit("https://www.w3.org/ns/activitystreams");
        reveal_strlit("/-/context");
    }
    let mut parts: Vec<JsonValue> = Vec::new();
    parts.push(JsonValue::Text(String::from_str("https://www.w3.org/ns/activitystreams")));
    parts.push(JsonValue::Text(crate::strutil::concat_str(base, "/-/context")));
    JsonValue::Array(parts)
}

} // verus!
