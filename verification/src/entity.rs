//! The graph data model: multi-valued attributes, entities, store items,
//! principals and queue items.

use vstd::prelude::*;

use crate::strutil::str_eq;

verus! {

/// One value of an attribute: an IRI reference or a typed literal.
pub enum PropValue {
    /// A reference to another entity by IRI.
    Ref(String),
    /// A literal with a datatype IRI (the empty string for a plain string).
    Text(String, String),
    /// A language-tagged string: value, language.
    LangText(String, String),
    /// A boolean literal.
    Flag(bool),
    /// An integer literal.
    Number(i64),
}

/// The mathematical value of a `PropValue`.
pub enum PropValueV {
    Ref(Seq<char>),
    Text(Seq<char>, Seq<char>),
    LangText(Seq<char>, Seq<char>),
    Flag(bool),
    Number(i64),
}

impl View for PropValue {
    type V = PropValueV;

    open spec fn view(&self) -> PropValueV {
        match self {
            PropValue::Ref(id) => PropValueV::Ref(id@),
            PropValue::Text(v, t) => PropValueV::Text(v@, t@),
            PropValue::LangText(v, l) => PropValueV::LangText(v@, l@),
            PropValue::Flag(b) => PropValueV::Flag(*b),
            PropValue::Number(n) => PropValueV::Number(*n),
        }
    }
}

impl Clone for PropValue {
    fn clone(&self) -> (r: Self)
        ensures
            r@ == self@,
    {
        match self {
            PropValue::Ref(id) => PropValue::Ref(id.clone()),
            PropValue::Text(v, t) => PropValue::Text(v.clone(), t.clone()),
            PropValue::LangText(v, l) => PropValue::LangText(v.clone(), l.clone()),
            PropValue::Flag(b) => PropValue::Flag(*b),
            PropValue::Number(n) => PropValue::Number(*n),
        }
    }
}

/// One attribute: a predicate IRI and its ordered values.
pub struct Property {
    pub key: String,
    pub values: Vec<PropValue>,
}

impl View for Property {
    type V = (Seq<char>, Seq<PropValueV>);

    open spec fn view(&self) -> (Seq<char>, Seq<PropValueV>) {
        (self.key@, self.values@.map_values(|v: PropValue| v@))
    }
}

/// Clone a list of attribute values, preserving the abstract value.
pub fn clone_values(vals: &Vec<PropValue>) -> (r: Vec<PropValue>)
    ensures
        r@.map_values(|v: PropValue| v@) == vals@.map_values(|v: PropValue| v@),
{
    let n = vals.len();
    let mut out: Vec<PropValue> = Vec::new();
    let mut i: usize = 0;
    while i < n
        invariant
            n == vals@.len(),
            i <= n,
            out@.len() == i,
            forall|j: int| 0 <= j < i ==> out@[j]@ == vals@[j]@,
        decreases n - i,
    {
        out.push(vals[i].clone());
        i = i + 1;
    }
    proof {
        assert(out@.map_values(|v: PropValue| v@) =~= vals@.map_values(|v: PropValue| v@));
    }
    out
}

impl Clone for Property {
    fn clone(&self) -> (r: Self)
        ensures
            r@ == self@,
    {
        let r = Property { key: self.key.clone(), values: clone_values(&self.values) };
        proof {
            assert(r@ =~= self@);
        }
        r
    }
}

/// A node of the graph: an id, its types, and its attributes.
pub struct Entity {
    pub id: String,
    pub types: Vec<String>,
    pub props: Vec<Property>,
}

/// The mathematical value of an `Entity`.
#[verifier::ext_equal]
pub struct EntityV {
    pub id: Seq<char>,
    pub types: Seq<Seq<char>>,
    pub props: Seq<(Seq<char>, Seq<PropValueV>)>,
}

impl View for Entity {
    type V = EntityV;

    open spec fn view(&self) -> EntityV {
        EntityV {
            id: self.id@,
            types: self.types@.map_values(|s: String| s@),
            props: self.props@.map_values(|p: Property| p@),
        }
    }
}

/// Clone a list of strings, preserving the abstract values.
pub fn clone_strings(v: &Vec<String>) -> (r: Vec<String>)
    ensures
        r@.map_values(|s: String| s@) == v@.map_values(|s: String| s@),
{
    let n = v.len();
    let mut out: Vec<String> = Vec::new();
    let mut i: usize = 0;
    while i < n
        invariant
            n == v@.len(),
            i <= n,
            out@.len() == i,
            forall|j: int| 0 <= j < i ==> out@[j]@ == v@[j]@,
        decreases n - i,
    {
        out.push(v[i].clone());
        i = i + 1;
    }
    proof {
        assert(out@.map_values(|s: String| s@) =~= v@.map_values(|s: String| s@));
    }
    out
}

/// Clone a property list, preserving the abstract value.
pub fn clone_props(v: &Vec<Property>) -> (r: Vec<Property>)
    ensures
        r@.map_values(|p: Property| p@) == v@.map_values(|p: Property| p@),
{
    let n = v.len();
    let mut out: Vec<Property> = Vec::new();
    let mut i: usize = 0;
    while i < n
        invariant
            n == v@.len(),
            i <= n,
            out@.len() == i,
            forall|j: int| 0 <= j < i ==> out@[j]@ == v@[j]@,
        decreases n - i,
    {
        out.push(v[i].clone());
        i = i + 1;
    }
    proof {
        assert(out@.map_values(|p: Property| p@) =~= v@.map_values(|p: Property| p@));
    }
    out
}

impl Clone for Entity {
    fn clone(&self) -> (r: Self)
        ensures
            r@ == self@,
    {
        let r = Entity {
            id: self.id.clone(),
            types: clone_strings(&self.types),
            props: clone_props(&self.props),
        };
        proof {
            assert(r@ =~= self@);
        }
        r
    }
}

/// The values of `key` in a property list: the first matching entry wins.
pub open spec fn spec_lookup(
    props: Seq<(Seq<char>, Seq<PropValueV>)>,
    key: Seq<char>,
) -> Seq<PropValueV>
    decreases props.len(),
{
    if props.len() == 0 {
        Seq::empty()
    } else if props[0].0 == key {
        props[0].1
    } else {
        spec_lookup(props.drop_first(), key)
    }
}

/// The first IRI reference among `vals`, if any.
pub open spec fn spec_first_ref(vals: Seq<PropValueV>) -> Option<Seq<char>>
    decreases vals.len(),
{
    if vals.len() == 0 {
        None
    } else if vals[0] is Ref {
        Some(vals[0]->Ref_0)
    } else {
        spec_first_ref(vals.drop_first())
    }
}

/// The first plain or typed string literal among `vals`, if any.
pub open spec fn spec_first_text(vals: Seq<PropValueV>) -> Option<Seq<char>>
    decreases vals.len(),
{
    if vals.len() == 0 {
        None
    } else if vals[0] is Text {
        Some(vals[0]->Text_0)
    } else if vals[0] is LangText {
        Some(vals[0]->LangText_0)
    } else {
        spec_first_text(vals.drop_first())
    }
}

/// The first boolean literal among `vals`, if any.
pub open spec fn spec_first_flag(vals: Seq<PropValueV>) -> Option<bool>
    decreases vals.len(),
{
    if vals.len() == 0 {
        None
    } else if vals[0] is Flag {
        Some(vals[0]->Flag_0)
    } else {
        spec_first_flag(vals.drop_first())
    }
}

/// The first integer literal among `vals`, if any.
pub open spec fn spec_first_number(vals: Seq<PropValueV>) -> Option<i64>
    decreases vals.len(),
{
    if vals.len() == 0 {
        None
    } else if vals[0] is Number {
        Some(vals[0]->Number_0)
    } else {
        spec_first_number(vals.drop_first())
    }
}

/// `vals` holds exactly one value, and it is a reference.
pub open spec fn spec_single_ref(vals: Seq<PropValueV>) -> Option<Seq<char>> {
    if vals.len() == 1 && vals[0] is Ref {
        Some(vals[0]->Ref_0)
    } else {
        None
    }
}

impl Entity {
    /// A fresh entity with the given id and no attributes.
    pub fn new(id: String) -> (r: Entity)
        ensures
            r@.id == id@,
            r@.types.len() == 0,
            r@.props.len() == 0,
    {
        let r = Entity { id, types: Vec::new(), props: Vec::new() };
        proof {
            assert(r@.types =~= Seq::<Seq<char>>::empty());
            assert(r@.props =~= Seq::<(Seq<char>, Seq<PropValueV>)>::empty());
        }
        r
    }

    /// The values stored under `key` (empty when the key is absent).
    pub open spec fn spec_values(&self, key: Seq<char>) -> Seq<PropValueV> {
        spec_lookup(self@.props, key)
    }

    /// Position of the property named `key`, if present.
    fn find_key(&self, key: &str) -> (r: Option<usize>)
        ensures
            match r {
                Some(i) => i < self@.props.len() && self@.props[i as int].0 == key@
                    && self.spec_values(key@) == self@.props[i as int].1 && (forall|j: int|
                    0 <= j < i ==> self@.props[j].0 != key@),
                None => self.spec_values(key@).len() == 0 && (forall|j: int|
                    0 <= j < self@.props.len() ==> self@.props[j].0 != key@),
            },
    {
        let n = self.props.len();
        let mut i: usize = 0;
        proof {
            assert(self@.props.skip(0) =~= self@.props);
        }
        while i < n
            invariant
                n == self@.props.len(),
                n == self.props@.len(),
                i <= n,
                forall|j: int| 0 <= j < i ==> self@.props[j].0 != key@,
                spec_lookup(self@.props, key@) == spec_lookup(self@.props.skip(i as int), key@),
            decreases n - i,
        {
            proof {
                assert(self@.props.skip(i as int)[0] == self@.props[i as int]);
            }
            if str_eq(self.props[i].key.as_str(), key) {
                assert(self@.props[i as int].0 == key@);
                return Some(i);
            }
            proof {
                assert(self@.props[i as int].0 != key@);
                assert(self@.props.skip(i as int).drop_first() =~= self@.props.skip(i + 1));
            }
            i = i + 1;
        }
        proof {
            assert(self@.props.skip(n as int) =~= Seq::<(Seq<char>, Seq<PropValueV>)>::empty());
        }
        None
    }

    /// The values under `key`, as a borrowed slice; empty when absent.
    pub fn values(&self, key: &str) -> (r: &[PropValue])
        ensures
            r@.map_values(|v: PropValue| v@) == self.spec_values(key@),
    {
        match self.find_key(key) {
            Some(i) => self.props[i].values.as_slice(),
            None => {
                let r: &[PropValue] = &[];
                proof {
                    assert(r@.map_values(|v: PropValue| v@) =~= self.spec_values(key@));
                }
                r
            },
        }
    }

    /// The first IRI reference under `key`.
    pub fn first_ref(&self, key: &str) -> (r: Option<&String>)
        ensures
            match r {
                Some(s) => spec_first_ref(self.spec_values(key@)) == Some(s@),
                None => spec_first_ref(self.spec_values(key@)) is None,
            },
    {
        first_ref_in(self.values(key))
    }

    /// The first string literal under `key`.
    pub fn first_text(&self, key: &str) -> (r: Option<&String>)
        ensures
            match r {
                Some(s) => spec_first_text(self.spec_values(key@)) == Some(s@),
                None => spec_first_text(self.spec_values(key@)) is None,
            },
    {
        first_text_in(self.values(key))
    }

    /// The first boolean literal under `key`.
    pub fn first_flag(&self, key: &str) -> (r: Option<bool>)
        ensures
            r == spec_first_flag(self.spec_values(key@)),
    {
        first_flag_in(self.values(key))
    }

    /// The first integer literal under `key`.
    pub fn first_number(&self, key: &str) -> (r: Option<i64>)
        ensures
            r == spec_first_number(self.spec_values(key@)),
    {
        first_number_in(self.values(key))
    }

    /// The single IRI reference under `key`, when the key holds exactly one
    /// value and that value is a reference.
    pub fn single_ref(&self, key: &str) -> (r: Option<&String>)
        ensures
            match r {
                Some(s) => spec_single_ref(self.spec_values(key@)) == Some(s@),
                None => spec_single_ref(self.spec_values(key@)) is None,
            },
    {
        let vals = self.values(key);
        let ghost view = self.spec_values(key@);
        if vals.len() == 1 {
            if let PropValue::Ref(id) = &vals[0] {
                proof {
                    assert(view[0] == vals@[0]@);
                }
                return Some(id);
            }
            proof {
                assert(view[0] == vals@[0]@);
            }
            None
        } else {
            None
        }
    }

    /// Append `value` to the values of `key`, creating the property if absent.
    pub fn push_value(&mut self, key: &str, value: PropValue)
        ensures
            final(self)@.id == old(self)@.id,
            final(self)@.types == old(self)@.types,
            final(self).spec_values(key@) == old(self).spec_values(key@).push(value@),
            forall|k: Seq<char>|
                k != key@ ==> final(self).spec_values(k) == old(self).spec_values(k),
    {
        match self.find_key(key) {
            Some(i) => {
                let ghost before = self@.props;
                let prop = &mut self.props[i];
                prop.values.push(value);
                proof {
                    assert(self@.props[i as int].1 =~= before[i as int].1.push(value@));
                    assert(forall|j: int|
                        0 <= j < before.len() && j != i ==> self@.props[j] == #[trigger] before[j]);
                    lemma_lookup_update(before, self@.props, i as int, key@, value@);
                }
            },
            None => {
                let ghost before = self@.props;
                let mut values: Vec<PropValue> = Vec::new();
                values.push(value);
                self.props.push(Property { key: key.to_owned(), values });
                proof {
                    assert(self@.props =~~= before.push((key@, seq![value@])));
                    lemma_lookup_append(before, key@, seq![value@]);
                    assert(old(self).spec_values(key@) =~= Seq::<PropValueV>::empty());
                    assert(old(self).spec_values(key@).push(value@) =~= seq![value@]);
                }
            },
        }
    }

    /// True iff `t@` is among the entity's types.
    pub fn has_type(&self, t: &str) -> (r: bool)
        ensures
            r == self@.types.contains(t@),
    {
        let n = self.types.len();
        let mut i: usize = 0;
        while i < n
            invariant
                n == self.types@.len(),
                n == self@.types.len(),
                i <= n,
                forall|j: int| 0 <= j < i ==> self@.types[j] != t@,
            decreases n - i,
        {
            if str_eq(self.types[i].as_str(), t) {
                proof {
                    assert(self@.types[i as int] == t@);
                }
                return true;
            }
            i = i + 1;
        }
        proof {
            assert(!self@.types.contains(t@)) by {
                if self@.types.contains(t@) {
                    let j = choose|j: int| 0 <= j < self@.types.len() && self@.types[j] == t@;
                    assert(self@.types[j] != t@);
                }
            }
        }
        false
    }

    /// Record a type on the entity.
    pub fn push_type(&mut self, t: String)
        ensures
            final(self)@.id == old(self)@.id,
            final(self)@.props == old(self)@.props,
            final(self)@.types == old(self)@.types.push(t@),
    {
        self.types.push(t);
        proof {
            assert(self@.types =~= old(self)@.types.push(t@));
        }
    }
}

/// The first IRI reference in a slice of values.
pub fn first_ref_in(vals: &[PropValue]) -> (r: Option<&String>)
    ensures
        match r {
            Some(s) => spec_first_ref(vals@.map_values(|v: PropValue| v@)) == Some(s@),
            None => spec_first_ref(vals@.map_values(|v: PropValue| v@)) is None,
        },
{
    let ghost view = vals@.map_values(|v: PropValue| v@);
    let n = vals.len();
    let mut i: usize = 0;
    proof {
        assert(view.skip(0) =~= view);
    }
    while i < n
        invariant
            n == vals@.len(),
            view == vals@.map_values(|v: PropValue| v@),
            i <= n,
            spec_first_ref(view) == spec_first_ref(view.skip(i as int)),
            forall|j: int| 0 <= j < i ==> !(view[j] is Ref),
        decreases n - i,
    {
        proof {
            assert(view.skip(i as int)[0] == view[i as int]);
        }
        if let PropValue::Ref(id) = &vals[i] {
            return Some(id);
        }
        proof {
            assert(view.skip(i as int).drop_first() =~= view.skip(i + 1));
        }
        i = i + 1;
    }
    proof {
        assert(view.skip(n as int) =~= Seq::<PropValueV>::empty());
    }
    None
}

/// The first string literal in a slice of values.
pub fn first_text_in(vals: &[PropValue]) -> (r: Option<&String>)
    ensures
        match r {
            Some(s) => spec_first_text(vals@.map_values(|v: PropValue| v@)) == Some(s@),
            None => spec_first_text(vals@.map_values(|v: PropValue| v@)) is None,
        },
{
    let ghost view = vals@.map_values(|v: PropValue| v@);
    let n = vals.len();
    let mut i: usize = 0;
    proof {
        assert(view.skip(0) =~= view);
    }
    while i < n
        invariant
            n == vals@.len(),
            view == vals@.map_values(|v: PropValue| v@),
            i <= n,
            spec_first_text(view) == spec_first_text(view.skip(i as int)),
            forall|j: int| 0 <= j < i ==> !(view[j] is Text) && !(view[j] is LangText),
        decreases n - i,
    {
        proof {
            assert(view.skip(i as int)[0] == view[i as int]);
        }
        match &vals[i] {
            PropValue::Text(v, _) => {
                return Some(v);
            },
            PropValue::LangText(v, _) => {
                return Some(v);
            },
            _ => {},
        }
        proof {
            assert(view.skip(i as int).drop_first() =~= view.skip(i + 1));
        }
        i = i + 1;
    }
    proof {
        assert(view.skip(n as int) =~= Seq::<PropValueV>::empty());
    }
    None
}

/// The first boolean literal in a slice of values.
pub fn first_flag_in(vals: &[PropValue]) -> (r: Option<bool>)
    ensures
        r == spec_first_flag(vals@.map_values(|v: PropValue| v@)),
{
    let ghost view = vals@.map_values(|v: PropValue| v@);
    let n = vals.len();
    let mut i: usize = 0;
    proof {
        assert(view.skip(0) =~= view);
    }
    while i < n
        invariant
            n == vals@.len(),
            view == vals@.map_values(|v: PropValue| v@),
            i <= n,
            spec_first_flag(view) == spec_first_flag(view.skip(i as int)),
            forall|j: int| 0 <= j < i ==> !(view[j] is Flag),
        decreases n - i,
    {
        proof {
            assert(view.skip(i as int)[0] == view[i as int]);
        }
        if let PropValue::Flag(b) = &vals[i] {
            return Some(*b);
        }
        proof {
            assert(view.skip(i as int).drop_first() =~= view.skip(i + 1));
        }
        i = i + 1;
    }
    proof {
        assert(view.skip(n as int) =~= Seq::<PropValueV>::empty());
    }
    None
}

/// The first integer literal in a slice of values.
pub fn first_number_in(vals: &[PropValue]) -> (r: Option<i64>)
    ensures
        r == spec_first_number(vals@.map_values(|v: PropValue| v@)),
{
    let ghost view = vals@.map_values(|v: PropValue| v@);
    let n = vals.len();
    let mut i: usize = 0;
    proof {
        assert(view.skip(0) =~= view);
    }
    while i < n
        invariant
            n == vals@.len(),
            view == vals@.map_values(|v: PropValue| v@),
            i <= n,
            spec_first_number(view) == spec_first_number(view.skip(i as int)),
            forall|j: int| 0 <= j < i ==> !(view[j] is Number),
        decreases n - i,
    {
        proof {
            assert(view.skip(i as int)[0] == view[i as int]);
        }
        if let PropValue::Number(v) = &vals[i] {
            return Some(*v);
        }
        proof {
            assert(view.skip(i as int).drop_first() =~= view.skip(i + 1));
        }
        i = i + 1;
    }
    proof {
        assert(view.skip(n as int) =~= Seq::<PropValueV>::empty());
    }
    None
}

/// Updating the values of the property at position `i` changes the lookup of
/// its key and nothing else, provided `i` is the first entry with that key.
proof fn lemma_lookup_update(
    before: Seq<(Seq<char>, Seq<PropValueV>)>,
    after: Seq<(Seq<char>, Seq<PropValueV>)>,
    i: int,
    key: Seq<char>,
    value: PropValueV,
)
    requires
        0 <= i < before.len(),
        after.len() == before.len(),
        before[i].0 == key,
        forall|j: int| 0 <= j < i ==> before[j].0 != key,
        forall|j: int| 0 <= j < before.len() && j != i ==> after[j] == before[j],
        after[i].0 == before[i].0,
        after[i].1 == before[i].1.push(value),
    ensures
        spec_lookup(after, key) == spec_lookup(before, key).push(value),
        forall|k: Seq<char>| k != key ==> spec_lookup(after, k) == spec_lookup(before, k),
    decreases before.len(),
{
    if i == 0 {
        assert(after[0].0 == key);
        assert(spec_lookup(after, key) == spec_lookup(before, key).push(value));
        assert forall|k: Seq<char>| k != key implies spec_lookup(after, k) == spec_lookup(
            before,
            k,
        ) by {
            assert(after.drop_first() =~= before.drop_first());
        }
    } else {
        assert(before.drop_first()[i - 1] == before[i]);
        assert(forall|j: int|
            0 <= j < i - 1 ==> #[trigger] before.drop_first()[j] == before[j + 1]);
        assert(forall|j: int|
            0 <= j < before.len() - 1 && j != i - 1 ==> #[trigger] after.drop_first()[j]
                == before.drop_first()[j]);
        assert(after.drop_first()[i - 1] == after[i]);
        lemma_lookup_update(before.drop_first(), after.drop_first(), i - 1, key, value);
        assert(after[0] == before[0]);
        assert(before[0].0 != key);
        assert(spec_lookup(after, key) == spec_lookup(after.drop_first(), key));
        assert(spec_lookup(after, key) == spec_lookup(before, key).push(value));
        assert forall|k: Seq<char>| k != key implies spec_lookup(after, k) == spec_lookup(
            before,
            k,
        ) by {
            if after[0].0 != k {
                assert(spec_lookup(after, k) == spec_lookup(after.drop_first(), k));
                assert(spec_lookup(before, k) == spec_lookup(before.drop_first(), k));
            }
        }
    }
}

/// Appending a property with a key that does not occur yet makes lookups of
/// that key find it, and leaves every other key unchanged.
proof fn lemma_lookup_append(
    before: Seq<(Seq<char>, Seq<PropValueV>)>,
    key: Seq<char>,
    values: Seq<PropValueV>,
)
    requires
        forall|j: int| 0 <= j < before.len() ==> before[j].0 != key,
    ensures
        spec_lookup(before.push((key, values)), key) == values,
        forall|k: Seq<char>|
            k != key ==> spec_lookup(before.push((key, values)), k) == spec_lookup(before, k),
    decreases before.len(),
{
    let appended = before.push((key, values));
    if before.len() == 0 {
        assert(appended[0] == (key, values));
        assert forall|k: Seq<char>| k != key implies spec_lookup(appended, k) == spec_lookup(
            before,
            k,
        ) by {
            assert(appended[0].0 == key);
            assert(spec_lookup(appended, k) == spec_lookup(appended.drop_first(), k));
            assert(appended.drop_first() =~= Seq::<(Seq<char>, Seq<PropValueV>)>::empty());
            assert(spec_lookup(appended.drop_first(), k) =~= Seq::<PropValueV>::empty());
            assert(spec_lookup(before, k) =~= Seq::<PropValueV>::empty());
        }
    } else {
        assert(appended[0] == before[0]);
        assert(appended.drop_first() =~= before.drop_first().push((key, values)));
        assert(forall|j: int|
            0 <= j < before.len() - 1 ==> #[trigger] before.drop_first()[j] == before[j + 1]);
        lemma_lookup_append(before.drop_first(), key, values);
        assert(before[0].0 != key);
        assert(spec_lookup(appended, key) == values);
        assert forall|k: Seq<char>| k != key implies spec_lookup(appended, k) == spec_lookup(
            before,
            k,
        ) by {
            if appended[0].0 != k {
                assert(spec_lookup(appended, k) == spec_lookup(appended.drop_first(), k));
                assert(spec_lookup(appended.drop_first(), k) == spec_lookup(
                    before.drop_first(),
                    k,
                ));
                assert(spec_lookup(before, k) == spec_lookup(before.drop_first(), k));
            } else {
                assert(spec_lookup(appended, k) == appended[0].1);
                assert(spec_lookup(before, k) == before[0].1);
            }
        }
    }
}

/// A stored graph item: the public main node and the server-private meta node.
pub struct StoreItem {
    pub id: String,
    pub main: Entity,
    pub meta: Entity,
}

/// The mathematical value of a `StoreItem`.
#[verifier::ext_equal]
pub struct StoreItemV {
    pub id: Seq<char>,
    pub main: EntityV,
    pub meta: EntityV,
}

impl View for StoreItem {
    type V = StoreItemV;

    open spec fn view(&self) -> StoreItemV {
        StoreItemV { id: self.id@, main: self.main@, meta: self.meta@ }
    }
}

impl Clone for StoreItem {
    fn clone(&self) -> (r: Self)
        ensures
            r@ == self@,
    {
        let r = StoreItem { id: self.id.clone(), main: self.main.clone(), meta: self.meta.clone() };
        proof {
            assert(r@ =~= self@);
        }
        r
    }
}

impl StoreItem {
    /// A store item is well formed when its id equals the id of its main node.
    pub open spec fn wf(&self) -> bool {
        self@.main.id == self@.id
    }

    /// A fresh item whose main and meta nodes carry the same id.
    pub fn new(id: String) -> (r: StoreItem)
        ensures
            r.wf(),
            r@.id == id@,
            r@.main.props.len() == 0,
            r@.meta.props.len() == 0,
            r@.main.types.len() == 0,
    {
        let main = Entity::new(id.clone());
        let meta = Entity::new(id.clone());
        StoreItem { id, main, meta }
    }

    /// The instance tag recorded in the meta node, if any.
    pub open spec fn spec_instance(&self) -> Option<i64> {
        spec_first_number(self.meta.spec_values(crate::vocab::kroeg_instance()))
    }

    /// Read the instance tag of the meta node.
    pub fn instance(&self) -> (r: Option<i64>)
        ensures
            r == self.spec_instance(),
    {
        self.meta.first_number(crate::vocab::kroeg_instance_str())
    }

    /// An item is owned iff its instance tag equals the server's instance id.
    pub open spec fn spec_is_owned(&self, instance_id: u32) -> bool {
        self.spec_instance() == Some(instance_id as i64)
    }

    /// Decide ownership against the running server's instance id.
    pub fn is_owned(&self, instance_id: u32) -> (r: bool)
        ensures
            r == self.spec_is_owned(instance_id),
    {
        match self.instance() {
            Some(v) => v == instance_id as i64,
            None => false,
        }
    }
}

/// The principal derived from a request.
pub struct User {
    pub subject: String,
    pub issuer: Option<String>,
    pub audience: Vec<String>,
    pub claims: Vec<(String, String)>,
    pub token_identifier: String,
}

/// The mathematical value of a `User`.
#[verifier::ext_equal]
pub struct UserV {
    pub subject: Seq<char>,
    pub issuer: Option<Seq<char>>,
    pub audience: Seq<Seq<char>>,
    pub claims: Seq<(Seq<char>, Seq<char>)>,
    pub token_identifier: Seq<char>,
}

impl View for User {
    type V = UserV;

    open spec fn view(&self) -> UserV {
        UserV {
            subject: self.subject@,
            issuer: match self.issuer {
                Some(ref s) => Some(s@),
                None => None,
            },
            audience: self.audience@.map_values(|s: String| s@),
            claims: self.claims@.map_values(|c: (String, String)| (c.0@, c.1@)),
            token_identifier: self.token_identifier@,
        }
    }
}

impl Clone for User {
    fn clone(&self) -> (r: Self)
        ensures
            r@ == self@,
    {
        let issuer = match &self.issuer {
            Some(s) => Some(s.clone()),
            None => None,
        };
        let mut claims: Vec<(String, String)> = Vec::new();
        let n = self.claims.len();
        let mut i: usize = 0;
        while i < n
            invariant
                n == self.claims@.len(),
                i <= n,
                claims@.len() == i,
                forall|j: int|
                    0 <= j < i ==> (claims@[j].0@, claims@[j].1@) == (
                        #[trigger] self.claims@[j].0@,
                        self.claims@[j].1@,
                    ),
            decreases n - i,
        {
            claims.push((self.claims[i].0.clone(), self.claims[i].1.clone()));
            i = i + 1;
        }
        let r = User {
            subject: self.subject.clone(),
            issuer,
            audience: clone_strings(&self.audience),
            claims,
            token_identifier: self.token_identifier.clone(),
        };
        proof {
            assert(r@.claims =~= self@.claims);
            assert(r@ =~= self@);
        }
        r
    }
}

/// A leased or stored element of the delivery queue.
pub struct QueueItem {
    pub id: u64,
    pub event: String,
    pub data: String,
}

/// The mathematical value of a `QueueItem`.
#[verifier::ext_equal]
pub struct QueueItemV {
    pub id: u64,
    pub event: Seq<char>,
    pub data: Seq<char>,
}

impl View for QueueItem {
    type V = QueueItemV;

    open spec fn view(&self) -> QueueItemV {
        QueueItemV { id: self.id, event: self.event@, data: self.data@ }
    }
}

impl Clone for QueueItem {
    fn clone(&self) -> (r: Self)
        ensures
            r@ == self@,
    {
        QueueItem { id: self.id, event: self.event.clone(), data: self.data.clone() }
    }
}

} // verus!
