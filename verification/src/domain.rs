//! Items, attribute values, type codes and key-schema elements: the value
//! vocabulary shared by every module.

use vstd::prelude::*;
use crate::text;

verus! {

/// The scalar key-attribute type codes usable in an index key schema.
#[derive(Debug, Clone, Copy, PartialEq, Eq, Structural)]
pub enum TypeCode {
    S,
    N,
    B,
}

/// A single key-schema element: the attribute name and its declared scalar type.
#[derive(Debug, PartialEq, Eq)]
pub struct KeySchemaElement {
    pub name: String,
    pub type_code: TypeCode,
}

impl Clone for KeySchemaElement {
    fn clone(&self) -> (r: Self)
        ensures
            r == *self,
    {
        KeySchemaElement { name: self.name.clone(), type_code: self.type_code }
    }
}

/// A copy of an optional key-schema element.
pub fn clone_element(element: &Option<KeySchemaElement>) -> (r: Option<KeySchemaElement>)
    ensures
        r == *element,
{
    match element {
        Some(e) => Some(e.clone()),
        None => None,
    }
}

/// A DynamoDB attribute value.
///
/// Numbers are carried as strings, matching the DynamoDB wire format. Binary is
/// raw bytes; export writers are responsible for base64 encoding.
#[derive(Debug, PartialEq)]
pub enum AttributeValue {
    S(String),
    N(String),
    B(Vec<u8>),
    Bool(bool),
    Null(bool),
    M(AttributeMap),
    L(Vec<AttributeValue>),
    Ss(Vec<String>),
    Ns(Vec<String>),
    Bs(Vec<Vec<u8>>),
}

/// A DynamoDB item: its attribute values by attribute name.
pub type Item = AttributeMap;

/// Attribute values by name. Each name occurs once; the entries are kept in
/// ascending order of name.
#[derive(Debug, PartialEq)]
pub struct AttributeMap {
    entries: Vec<(String, AttributeValue)>,
}

/// The mathematical value of an [`AttributeValue`]. A map is its entries in
/// ascending order of name.
pub enum ValueView {
    S(Seq<char>),
    N(Seq<char>),
    B(Seq<u8>),
    Bool(bool),
    Null(bool),
    M(Seq<(Seq<char>, ValueView)>),
    L(Seq<ValueView>),
    Ss(Seq<Seq<char>>),
    Ns(Seq<Seq<char>>),
    Bs(Seq<Seq<u8>>),
}

/// The names of `entries` are strictly ascending.
pub open spec fn ascending(entries: Seq<(Seq<char>, ValueView)>) -> bool {
    forall|i: int, j: int|
        0 <= i < j < entries.len() ==> text::precedes(#[trigger] entries[i].0, #[trigger] entries[j].0)
}

/// One of `entries` has the name `name`.
pub open spec fn has_name(entries: Seq<(Seq<char>, ValueView)>, name: Seq<char>) -> bool {
    exists|i: int| 0 <= i < entries.len() && #[trigger] entries[i].0 == name
}

/// The value that `entries` holds for `name`.
pub open spec fn value_of(entries: Seq<(Seq<char>, ValueView)>, name: Seq<char>) -> ValueView {
    entries[choose|i: int| 0 <= i < entries.len() && #[trigger] entries[i].0 == name].1
}

/// The map that `entries` stands for.
pub open spec fn map_of(entries: Seq<(Seq<char>, ValueView)>) -> Map<Seq<char>, ValueView> {
    Map::new(|name: Seq<char>| has_name(entries, name), |name: Seq<char>| value_of(entries, name))
}

impl View for AttributeValue {
    type V = ValueView;

    open spec fn view(&self) -> ValueView {
        self.value_view()
    }
}

impl View for AttributeMap {
    type V = Map<Seq<char>, ValueView>;

    open spec fn view(&self) -> Map<Seq<char>, ValueView> {
        map_of(self.entries_view())
    }
}

impl AttributeValue {
    /// The value, with every string and list replaced by its mathematical value.
    pub open spec fn value_view(self) -> ValueView
        decreases self,
    {
        match self {
            AttributeValue::S(s) => ValueView::S(s@),
            AttributeValue::N(s) => ValueView::N(s@),
            AttributeValue::B(b) => ValueView::B(b@),
            AttributeValue::Bool(b) => ValueView::Bool(b),
            AttributeValue::Null(b) => ValueView::Null(b),
            AttributeValue::M(m) => ValueView::M(m.entries_view()),
            AttributeValue::L(l) => ValueView::L(
                Seq::new(
                    l@.len(),
                    |i: int|
                        if 0 <= i < l@.len() {
                            l@[i].value_view()
                        } else {
                            arbitrary()
                        },
                ),
            ),
            AttributeValue::Ss(s) => ValueView::Ss(s@.map_values(|x: String| x@)),
            AttributeValue::Ns(s) => ValueView::Ns(s@.map_values(|x: String| x@)),
            AttributeValue::Bs(s) => ValueView::Bs(s@.map_values(|x: Vec<u8>| x@)),
        }
    }
}

impl AttributeMap {
    /// The entries, in ascending order of name.
    pub closed spec fn entries_view(self) -> Seq<(Seq<char>, ValueView)>
        decreases self,
    {
        let e = self.entries;
        Seq::new(
            e@.len(),
            |i: int|
                if 0 <= i < e@.len() {
                    (e@[i].0@, e@[i].1.value_view())
                } else {
                    arbitrary()
                },
        )
    }

    #[verifier::type_invariant]
    spec fn inv(self) -> bool {
        ascending(self.entries_view())
    }

    /// A map with no entries.
    pub fn new() -> (r: Self)
        ensures
            r@ == Map::<Seq<char>, ValueView>::empty(),
            r.entries_view() == Seq::<(Seq<char>, ValueView)>::empty(),
    {
        let r = AttributeMap { entries: Vec::new() };
        assert(r.entries_view() =~= Seq::<(Seq<char>, ValueView)>::empty());
        assert(r@ =~= Map::<Seq<char>, ValueView>::empty());
        r
    }

    /// The number of entries.
    pub fn len(&self) -> (r: usize)
        ensures
            r == self.entries_view().len(),
            ascending(self.entries_view()),
    {
        proof {
            use_type_invariant(self);
        }
        self.entries.len()
    }

    /// The name of the entry at position `i`.
    pub fn name_at(&self, i: usize) -> (r: &String)
        requires
            i < self.entries_view().len(),
        ensures
            r@ == self.entries_view()[i as int].0,
    {
        &self.entries[i].0
    }

    /// The value of the entry at position `i`.
    pub fn value_at(&self, i: usize) -> (r: &AttributeValue)
        requires
            i < self.entries_view().len(),
        ensures
            r@ == self.entries_view()[i as int].1,
            decreases_to!(*self => *r),
    {
        &self.entries[i].1
    }

    /// The value held for `name`.
    pub fn get(&self, name: &str) -> (r: Option<&AttributeValue>)
        ensures
            match r {
                Some(v) => self@.contains_key(name@) && v@ == self@[name@],
                None => !self@.contains_key(name@),
            },
    {
        proof {
            use_type_invariant(self);
        }
        let ghost entries = self.entries_view();
        let mut i: usize = 0;
        while i < self.entries.len()
            invariant
                i <= self.entries@.len(),
                entries == self.entries_view(),
                ascending(entries),
                forall|k: int| 0 <= k < i ==> #[trigger] entries[k].0 != name@,
            decreases self.entries@.len() - i,
        {
            assert(entries[i as int].0 == self.entries@[i as int].0@);
            if *self.entries[i].0.as_str() == *name {
                proof {
                    lemma_value_of(entries, i as int);
                }
                return Some(&self.entries[i].1);
            }
            i += 1;
        }
        None
    }

    /// Holds `value` for `name`, in place of any earlier value.
    pub fn insert(&mut self, name: String, value: AttributeValue)
        ensures
            final(self)@ == old(self)@.insert(name@, value@),
    {
        proof {
            use_type_invariant(&*self);
        }
        let ghost before = self.entries_view();
        let mut entries: Vec<(String, AttributeValue)> = Vec::new();
        std::mem::swap(&mut entries, &mut self.entries);
        let ghost initial = entries@;
        let mut i: usize = 0;
        while i < entries.len() && text::text_precedes(entries[i].0.as_str(), name.as_str())
            invariant
                i <= entries@.len(),
                entries@ == initial,
                before.len() == initial.len(),
                forall|k: int|
                    0 <= k < before.len() ==> #[trigger] before[k] == (
                    initial[k].0@,
                    initial[k].1.value_view(),
                ),
                forall|k: int| 0 <= k < i ==> text::precedes(#[trigger] before[k].0, name@),
            decreases entries@.len() - i,
        {
            i += 1;
        }
        let ghost entry = (name@, value@);
        let ghost key = name@;
        if i < entries.len() && entries[i].0 == name {
            entries[i] = (name, value);
            proof {
                lemma_update(before, i as int, entry);
            }
        } else {
            proof {
                lemma_insert(before, i as int, entry);
            }
            entries.insert(i, (name, value));
        }
        let ghost after = AttributeMap { entries }.entries_view();
        proof {
            if i < before.len() && before[i as int].0 == key {
                assert(after =~= before.update(i as int, entry));
            } else {
                assert(after =~= before.insert(i as int, entry));
            }
        }
        self.entries = entries;
    }
}

impl Clone for AttributeMap {
    fn clone(&self) -> (r: Self)
        ensures
            r@ == self@,
            r.entries_view() == self.entries_view(),
        decreases self,
    {
        proof {
            use_type_invariant(self);
        }
        let mut entries: Vec<(String, AttributeValue)> = Vec::new();
        let mut i: usize = 0;
        while i < self.entries.len()
            invariant
                i <= self.entries@.len(),
                entries@.len() == i,
                forall|k: int|
                    0 <= k < i ==> (#[trigger] entries@[k]).0@ == self.entries@[k].0@
                        && entries@[k].1.value_view() == self.entries@[k].1.value_view(),
            decreases self.entries@.len() - i,
        {
            let value = self.entries[i].1.clone();
            entries.push((self.entries[i].0.clone(), value));
            i += 1;
        }
        let ghost copied = AttributeMap { entries }.entries_view();
        assert(copied =~= self.entries_view());
        AttributeMap { entries }
    }
}

impl Default for AttributeMap {
    fn default() -> (r: Self)
        ensures
            r@ == Map::<Seq<char>, ValueView>::empty(),
    {
        AttributeMap::new()
    }
}

impl Clone for AttributeValue {
    fn clone(&self) -> (r: Self)
        ensures
            r@ == self@,
        decreases self,
    {
        match self {
            AttributeValue::S(s) => AttributeValue::S(s.clone()),
            AttributeValue::N(s) => AttributeValue::N(s.clone()),
            AttributeValue::B(b) => {
                let c = b.clone();
                assert(c@ =~= b@);
                AttributeValue::B(c)
            },
            AttributeValue::Bool(b) => AttributeValue::Bool(*b),
            AttributeValue::Null(b) => AttributeValue::Null(*b),
            AttributeValue::M(m) => AttributeValue::M(m.clone()),
            AttributeValue::L(l) => {
                let mut copy: Vec<AttributeValue> = Vec::new();
                let mut i: usize = 0;
                while i < l.len()
                    invariant
                        i <= l@.len(),
                        *self == AttributeValue::L(*l),
                        copy@.len() == i,
                        forall|k: int|
                            0 <= k < i ==> (#[trigger] copy@[k]).value_view() == l@[k].value_view(),
                    decreases l@.len() - i,
                {
                    assert(decreases_to!(*self => self->L_0));
                    assert(decreases_to!(self->L_0 => self->L_0[i as int]));
                    let value = l[i].clone();
                    copy.push(value);
                    i += 1;
                }
                let r = AttributeValue::L(copy);
                assert(r.value_view()->L_0 =~= self.value_view()->L_0);
                r
            },
            AttributeValue::Ss(s) => {
                let c = s.clone();
                assert(c@ =~= s@);
                AttributeValue::Ss(c)
            },
            AttributeValue::Ns(s) => {
                let c = s.clone();
                assert(c@ =~= s@);
                AttributeValue::Ns(c)
            },
            AttributeValue::Bs(s) => {
                let mut copy: Vec<Vec<u8>> = Vec::new();
                let mut i: usize = 0;
                while i < s.len()
                    invariant
                        i <= s@.len(),
                        copy@.len() == i,
                        forall|k: int| 0 <= k < i ==> (#[trigger] copy@[k])@ == s@[k]@,
                    decreases s@.len() - i,
                {
                    let bytes = s[i].clone();
                    assert(bytes@ =~= s@[i as int]@);
                    copy.push(bytes);
                    i += 1;
                }
                let r = AttributeValue::Bs(copy);
                assert(r.value_view()->Bs_0 =~= self.value_view()->Bs_0);
                r
            },
        }
    }
}

/// A named attribute value of an item, such as its partition or sort key.
#[derive(Debug, PartialEq)]
pub struct KeyAttribute {
    pub name: String,
    pub value: AttributeValue,
}

impl Clone for KeyAttribute {
    fn clone(&self) -> (r: Self)
        ensures
            r.name == self.name,
            r.value@ == self.value@,
    {
        KeyAttribute { name: self.name.clone(), value: self.value.clone() }
    }
}

/// In ascending entries the value at a position is the value of its name.
proof fn lemma_value_of(entries: Seq<(Seq<char>, ValueView)>, i: int)
    requires
        ascending(entries),
        0 <= i < entries.len(),
    ensures
        has_name(entries, entries[i].0),
        value_of(entries, entries[i].0) == entries[i].1,
{
    let name = entries[i].0;
    let k = choose|k: int| 0 <= k < entries.len() && #[trigger] entries[k].0 == name;
    text::lemma_precedes_irreflexive(name);
    if k < i {
        assert(text::precedes(entries[k].0, entries[i].0));
    } else if i < k {
        assert(text::precedes(entries[i].0, entries[k].0));
    }
}

proof fn lemma_update(entries: Seq<(Seq<char>, ValueView)>, i: int, entry: (Seq<char>, ValueView))
    requires
        ascending(entries),
        0 <= i < entries.len(),
        entries[i].0 == entry.0,
    ensures
        ascending(entries.update(i, entry)),
        map_of(entries.update(i, entry)) == map_of(entries).insert(entry.0, entry.1),
{
    let after = entries.update(i, entry);
    assert forall|a: int, b: int| 0 <= a < b < after.len() implies text::precedes(
        #[trigger] after[a].0,
        #[trigger] after[b].0,
    ) by {
        assert(text::precedes(entries[a].0, entries[b].0));
    }
    let m = map_of(after);
    let n = map_of(entries).insert(entry.0, entry.1);
    assert forall|name: Seq<char>| m.contains_key(name) == n.contains_key(name) by {
        if m.contains_key(name) {
            let k = choose|k: int| 0 <= k < after.len() && #[trigger] after[k].0 == name;
            assert(entries[k].0 == name);
        }
        if has_name(entries, name) {
            let k = choose|k: int| 0 <= k < entries.len() && #[trigger] entries[k].0 == name;
            assert(after[k].0 == name);
        }
        assert(after[i].0 == entry.0);
    }
    assert forall|name: Seq<char>| m.contains_key(name) implies m[name] == n[name] by {
        let k = choose|k: int| 0 <= k < after.len() && #[trigger] after[k].0 == name;
        lemma_value_of(after, k);
        lemma_value_of(entries, k);
        lemma_value_of(after, i);
        text::lemma_precedes_irreflexive(name);
    }
    assert(m =~= n);
}

proof fn lemma_insert(entries: Seq<(Seq<char>, ValueView)>, i: int, entry: (Seq<char>, ValueView))
    requires
        ascending(entries),
        0 <= i <= entries.len(),
        forall|k: int| 0 <= k < i ==> text::precedes(#[trigger] entries[k].0, entry.0),
        i < entries.len() ==> !text::precedes(entries[i].0, entry.0) && entries[i].0 != entry.0,
    ensures
        ascending(entries.insert(i, entry)),
        map_of(entries.insert(i, entry)) == map_of(entries).insert(entry.0, entry.1),
{
    let after = entries.insert(i, entry);
    entries.insert_ensures(i, entry);
    if i < entries.len() {
        text::lemma_precedes_total(entries[i].0, entry.0);
    }
    assert forall|k: int| i <= k < entries.len() implies text::precedes(entry.0, #[trigger] entries[k].0) by {
        if k > i {
            assert(text::precedes(entries[i].0, entries[k].0));
            text::lemma_precedes_transitive(entry.0, entries[i].0, entries[k].0);
        }
    }
    assert forall|a: int, b: int| 0 <= a < b < after.len() implies text::precedes(
        #[trigger] after[a].0,
        #[trigger] after[b].0,
    ) by {
        let a0 = if a < i { a } else { a - 1 };
        let b0 = if b < i { b } else { b - 1 };
        if a != i && b != i {
            assert(text::precedes(entries[a0].0, entries[b0].0));
        }
    }
    let m = map_of(after);
    let n = map_of(entries).insert(entry.0, entry.1);
    assert forall|name: Seq<char>| m.contains_key(name) == n.contains_key(name) by {
        if m.contains_key(name) {
            let k = choose|k: int| 0 <= k < after.len() && #[trigger] after[k].0 == name;
            let k0 = if k < i { k } else { k - 1 };
            if k != i {
                assert(entries[k0].0 == name);
            }
        }
        if has_name(entries, name) {
            let k = choose|k: int| 0 <= k < entries.len() && #[trigger] entries[k].0 == name;
            let k1 = if k < i { k } else { k + 1 };
            assert(after[k1].0 == name);
        }
        assert(after[i].0 == entry.0);
    }
    assert forall|name: Seq<char>| m.contains_key(name) implies m[name] == n[name] by {
        let k = choose|k: int| 0 <= k < after.len() && #[trigger] after[k].0 == name;
        lemma_value_of(after, k);
        lemma_value_of(after, i);
        if k != i {
            let k0 = if k < i { k } else { k - 1 };
            lemma_value_of(entries, k0);
            text::lemma_precedes_irreflexive(name);
        }
    }
    assert(m =~= n);
}

} // verus!
