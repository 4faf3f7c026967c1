//! Untangling: turn one expanded JSON-LD document into a map of
//! self-contained graph items, one per named node, lifting nested node
//! objects to the top and leaving references behind.

use vstd::prelude::*;

use crate::assemble::JsonValue;
use crate::entity::{Entity, PropValue, StoreItem};
use crate::strutil::{concat_str, str_eq, u64_to_dec};

verus! {

/// Why a document could not be untangled.
#[derive(Debug, PartialEq, Eq, Structural)]
pub enum UntangleError {
    /// The document is not an array of nodes.
    NotArray,
    /// A top-level node is not an object.
    NotObject,
    /// Node objects nest beyond the depth the parser itself admits, or no
    /// blank id could be minted.
    TooDeep,
}

/// The `@id` of a node object, when it is present and a string.
pub open spec fn spec_obj_id(fields: Seq<(String, JsonValue)>) -> Option<Seq<char>>
    decreases fields.len(),
{
    if fields.len() == 0 {
        None
    } else if fields[0].0@ == "@id"@ {
        match fields[0].1 {
            JsonValue::Text(t) => Some(t@),
            _ => None,
        }
    } else {
        spec_obj_id(fields.drop_first())
    }
}

/// Some item of the list carries this node's `@id`.
pub open spec fn spec_covers(items: Seq<StoreItem>, node: JsonValue) -> bool {
    spec_node_id(node) is Some ==> exists|j: int|
        0 <= j < items.len() && (#[trigger] items[j])@.id == spec_node_id(node)->0
}

/// The `@id` of a value when it is a node object.
pub open spec fn spec_node_id(v: JsonValue) -> Option<Seq<char>> {
    match v {
        JsonValue::Object(f) => spec_obj_id(f@),
        _ => None,
    }
}

/// Read the first field with this name.
fn obj_field<'a>(fields: &'a Vec<(String, JsonValue)>, name: &str) -> (r: Option<&'a JsonValue>) {
    let n = fields.len();
    let mut i: usize = 0;
    while i < n
        invariant
            n == fields@.len(),
            i <= n,
        decreases n - i,
    {
        if str_eq(fields[i].0.as_str(), name) {
            return Some(&fields[i].1);
        }
        i = i + 1;
    }
    None
}

/// Read the `@id` string of a node object.
fn obj_id<'a>(fields: &'a Vec<(String, JsonValue)>) -> (r: Option<&'a String>)
    ensures
        match r {
            Some(s) => spec_obj_id(fields@) == Some(s@),
            None => spec_obj_id(fields@) is None,
        },
{
    proof {
        reveal_strlit("@id");
        assert(fields@.skip(0) =~= fields@);
    }
    let n = fields.len();
    let mut i: usize = 0;
    while i < n
        invariant
            n == fields@.len(),
            i <= n,
            spec_obj_id(fields@) == spec_obj_id(fields@.skip(i as int)),
        decreases n - i,
    {
        proof {
            assert(fields@.skip(i as int)[0] == fields@[i as int]);
        }
        if str_eq(fields[i].0.as_str(), "@id") {
            if let JsonValue::Text(t) = &fields[i].1 {
                return Some(t);
            }
            return None;
        }
        proof {
            assert(fields@.skip(i as int).drop_first() =~= fields@.skip(i + 1));
        }
        i = i + 1;
    }
    proof {
        assert(fields@.skip(n as int) =~= Seq::<(String, JsonValue)>::empty());
    }
    None
}

/// Pushing keeps every contained element contained.
proof fn lemma_contains_after_push(types: Seq<Seq<char>>, x: Seq<char>)
    ensures
        forall|q: Seq<char>| types.contains(q) ==> #[trigger] types.push(x).contains(q),
{
    assert forall|q: Seq<char>| types.contains(q) implies #[trigger] types.push(x).contains(
        q,
    ) by {
        let w = choose|w: int| 0 <= w < types.len() && types[w] == q;
        assert(types.push(x)[w] == q);
    }
}


/// Append every string of a `@type` array to the entity's types; any other
/// value shape leaves the entity as it is.
fn push_types_from(entity: &mut Entity, value: &JsonValue)
    ensures
        final(entity)@.id == old(entity)@.id,
        final(entity)@.props == old(entity)@.props,
        forall|x: Seq<char>|
            old(entity)@.types.contains(x) ==> #[trigger] final(entity)@.types.contains(x),
        value is Array ==> forall|t: int|
            0 <= t < value->Array_0@.len() && (#[trigger] value->Array_0@[t]) is Text
                ==> final(entity)@.types.contains(value->Array_0@[t]->Text_0@),
        !(value is Array) ==> final(entity)@ == old(entity)@,
{
    let types = match value {
        JsonValue::Array(types) => types,
        _ => {
            return ;
        },
    };
    let tn = types.len();
    let mut t: usize = 0;
    while t < tn
        invariant
            tn == types@.len(),
            t <= tn,
            entity@.id == old(entity)@.id,
            entity@.props == old(entity)@.props,
            forall|x: Seq<char>|
                old(entity)@.types.contains(x) ==> #[trigger] entity@.types.contains(x),
            forall|q: int|
                0 <= q < t && (#[trigger] types@[q]) is Text ==> entity@.types.contains(
                    types@[q]->Text_0@,
                ),
        decreases tn - t,
    {
        let ghost before_types = entity@.types;
        if let JsonValue::Text(name) = &types[t] {
            entity.push_type(name.clone());
            proof {
                lemma_contains_after_push(before_types, name@);
                assert(entity@.types.contains(name@)) by {
                    assert(entity@.types.last() == name@);
                }
            }
        }
        t = t + 1;
    }
    proof {
        assert forall|t2: int|
            0 <= t2 < value->Array_0@.len() && (#[trigger] value->Array_0@[t2])
                is Text implies entity@.types.contains(value->Array_0@[t2]->Text_0@) by {
            assert(value->Array_0@[t2] == types@[t2]);
        }
    }
}

/// Lift one node object into the output: its own item, with nested node
/// objects lifted recursively and replaced by references. Yields the node's
/// id (a fresh blank id when the node carries none).
fn collect_node(
    fields: &Vec<(String, JsonValue)>,
    out: &mut Vec<StoreItem>,
    counter: &mut u64,
    fuel: u32,
) -> (r: Option<String>)
    requires
        forall|j: int| 0 <= j < old(out)@.len() ==> (#[trigger] old(out)@[j]).wf(),
    ensures
        final(out)@.len() >= old(out)@.len(),
        forall|j: int| 0 <= j < old(out)@.len() ==> final(out)@[j] == old(out)@[j],
        forall|j: int| 0 <= j < final(out)@.len() ==> (#[trigger] final(out)@[j]).wf(),
        match r {
            Some(id) => (exists|j: int|
                old(out)@.len() <= j < final(out)@.len() && (#[trigger] final(out)@[j])@.id
                    == id@) && (spec_obj_id(fields@) matches Some(s) ==> id@ == s),
            None => true,
        },
    decreases fuel,
{
    if fuel == 0 {
        return None;
    }
    proof {
        reveal_strlit("_:b");
        reveal_strlit("@id");
        reveal_strlit("@type");
        reveal_strlit("@value");
        reveal_strlit("@language");
    }
    let id: String = match obj_id(fields) {
        Some(s) => s.clone(),
        None => {
            if *counter == u64::MAX {
                return None;
            }
            let minted = concat_str("_:b", u64_to_dec(*counter).as_str());
            *counter = *counter + 1;
            minted
        },
    };
    let mut entity = Entity::new(id.clone());
    let n = fields.len();
    let mut i: usize = 0;
    while i < n
        invariant
            n == fields@.len(),
            i <= n,
            fuel >= 1,
            entity@.id == id@,
            out@.len() >= old(out)@.len(),
            forall|j: int| 0 <= j < old(out)@.len() ==> out@[j] == old(out)@[j],
            forall|j: int| 0 <= j < out@.len() ==> (#[trigger] out@[j]).wf(),
        decreases n - i,
    {
        proof {
            reveal_strlit("@id");
            reveal_strlit("@type");
            reveal_strlit("@value");
        }
        let key = &fields[i].0;
        if str_eq(key.as_str(), "@id") {
        } else if str_eq(key.as_str(), "@type") {
            push_types_from(&mut entity, &fields[i].1);
        } else if let JsonValue::Array(values) = &fields[i].1 {
            let vn = values.len();
            let mut v: usize = 0;
            while v < vn
                invariant
                    vn == values@.len(),
                    v <= vn,
                    fuel >= 1,
                    entity@.id == id@,
                    out@.len() >= old(out)@.len(),
                    forall|j: int| 0 <= j < old(out)@.len() ==> out@[j] == old(out)@[j],
                    forall|j: int| 0 <= j < out@.len() ==> (#[trigger] out@[j]).wf(),
                decreases vn - v,
            {
                proof {
                    reveal_strlit("@value");
                    reveal_strlit("@type");
                    reveal_strlit("@language");
                }
                if let JsonValue::Object(inner) = &values[v] {
                    match obj_field(inner, "@value") {
                        Some(JsonValue::Text(text)) => {
                            let value = match obj_field(inner, "@language") {
                                Some(JsonValue::Text(lang)) => PropValue::LangText(
                                    text.clone(),
                                    lang.clone(),
                                ),
                                _ => match obj_field(inner, "@type") {
                                    Some(JsonValue::Text(dt)) => PropValue::Text(
                                        text.clone(),
                                        dt.clone(),
                                    ),
                                    _ => PropValue::Text(text.clone(), String::new()),
                                },
                            };
                            entity.push_value(key.as_str(), value);
                        },
                        Some(JsonValue::Flag(b)) => {
                            entity.push_value(key.as_str(), PropValue::Flag(*b));
                        },
                        Some(JsonValue::Number(num)) => {
                            entity.push_value(key.as_str(), PropValue::Number(*num));
                        },
                        Some(_) => {},
                        None => {
                            if inner.len() == 1 {
                                match obj_id(inner) {
                                    Some(ref_id) => {
                                        entity.push_value(
                                            key.as_str(),
                                            PropValue::Ref(ref_id.clone()),
                                        );
                                    },
                                    None => {},
                                }
                            } else {
                                match collect_node(inner, out, counter, fuel - 1) {
                                    Some(child_id) => {
                                        entity.push_value(
                                            key.as_str(),
                                            PropValue::Ref(child_id),
                                        );
                                    },
                                    None => {},
                                }
                            }
                        },
                    }
                }
                v = v + 1;
            }
        }
        i = i + 1;
    }
    let item = StoreItem { id: id.clone(), main: entity, meta: Entity::new(id.clone()) };
    proof {
        assert(item.wf());
    }
    let ghost pre = out@;
    out.push(item);
    proof {
        assert(out@[pre.len() as int]@.id == id@);
        assert(forall|j: int| 0 <= j < pre.len() ==> #[trigger] out@[j] == pre[j]);
    }
    Some(id)
}

/// Untangle one expanded document (an array of node objects) into one item
/// per node, nested nodes lifted to the top. Nodes that carry an `@id` keep
/// it; the rest are given fresh blank ids.
pub fn untangle(doc: &JsonValue) -> (r: Result<Vec<StoreItem>, UntangleError>)
    ensures
        match r {
            Ok(items) => {
                &&& forall|j: int| 0 <= j < items@.len() ==> (#[trigger] items@[j]).wf()
                &&& doc is Array
                &&& forall|k: int|
                    0 <= k < doc->Array_0@.len() ==> spec_covers(
                        items@,
                        #[trigger] doc->Array_0@[k],
                    )
                &&& forall|k: int|
                    0 <= k < doc->Array_0@.len() ==> (#[trigger] doc->Array_0@[k]) is Object
            },
            Err(e) => {
                &&& (e == UntangleError::NotArray <==> !(doc is Array))
                &&& (e == UntangleError::NotObject ==> exists|k: int|
                    0 <= k < doc->Array_0@.len() && !((#[trigger] doc->Array_0@[k]) is Object))
            },
        },
        (doc matches JsonValue::Array(nodes) && exists|k: int|
            0 <= k < nodes@.len() && !((#[trigger] nodes@[k]) is Object)) ==> r is Err,
{
    let nodes = match doc {
        JsonValue::Array(nodes) => nodes,
        _ => {
            return Err(UntangleError::NotArray);
        },
    };
    let mut out: Vec<StoreItem> = Vec::new();
    let mut counter: u64 = 0;
    let n = nodes.len();
    let mut k: usize = 0;
    while k < n
        invariant
            n == nodes@.len(),
            doc is Array,
            doc->Array_0@ == nodes@,
            k <= n,
            forall|j: int| 0 <= j < out@.len() ==> (#[trigger] out@[j]).wf(),
            forall|m: int| 0 <= m < k ==> spec_covers(out@, #[trigger] nodes@[m]),
            forall|m: int| 0 <= m < k ==> (#[trigger] nodes@[m]) is Object,
        decreases n - k,
    {
        let ghost pre = out@;
        match &nodes[k] {
            JsonValue::Object(fields) => {
                let got = match collect_node(fields, &mut out, &mut counter, 128) {
                    Some(got) => got,
                    None => {
                        return Err(UntangleError::TooDeep);
                    },
                };
                proof {
                    assert forall|m: int| 0 <= m < k + 1 implies spec_covers(
                        out@,
                        #[trigger] nodes@[m],
                    ) by {
                        if m < k {
                            if spec_node_id(nodes@[m]) is Some {
                                let j = choose|j: int|
                                    0 <= j < pre.len() && (#[trigger] pre[j])@.id == spec_node_id(
                                        nodes@[m],
                                    )->0;
                                assert(out@[j] == pre[j]);
                                assert(out@[j]@.id == spec_node_id(nodes@[m])->0);
                            }
                        } else {
                            if spec_node_id(nodes@[k as int]) is Some {
                                assert(got@ == spec_obj_id(fields@)->0);
                                let j = choose|j: int|
                                    pre.len() <= j < out@.len() && (#[trigger] out@[j])@.id
                                        == got@;
                                assert(out@[j]@.id == spec_node_id(nodes@[k as int])->0);
                            }
                        }
                    }
                }
            },
            _ => {
                proof {
                    assert(!(nodes@[k as int] is Object));
                }
                return Err(UntangleError::NotObject);
            },
        }
        k = k + 1;
    }
    proof {
        assert(doc->Array_0@ == nodes@);
        assert(forall|j: int| 0 <= j < out@.len() ==> (#[trigger] out@[j]).wf());
        assert forall|m: int| 0 <= m < doc->Array_0@.len() implies spec_covers(
            out@,
            #[trigger] doc->Array_0@[m],
        ) by {
            assert(doc->Array_0@[m] == nodes@[m]);
        }
    }
    Ok(out)
}

} // verus!
