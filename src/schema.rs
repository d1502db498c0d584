//! The input schema tree: a node's declared type, its properties and its nested schemas.
use crate::text::{compare_keys, key_before};
use vstd::prelude::*;

verus! {

/// The declared `type` keyword of a schema node.
#[derive(Debug)]
pub enum SchemaType {
    Object,
    Array,
    Text,
    Boolean,
    Integer,
    Number,
    Date,
    /// No type declared.
    Absent,
    /// A keyword outside the recognised set.
    Other(String),
}

/// `additionalProperties`: a flag, or the schema of a map's values.
#[derive(Debug)]
pub enum AdditionalProperties {
    Flag(bool),
    Schema(Box<Schema>),
}

/// `items` of an array: one schema, or several alternatives (tuple validation).
#[derive(Debug)]
pub enum Items {
    Single(Box<Schema>),
    Multiple(Vec<Schema>),
}

/// One schema node.
#[derive(Debug)]
pub struct Schema {
    pub type_: SchemaType,
    pub properties: Option<Properties>,
    pub additional_properties: Option<AdditionalProperties>,
    pub items: Option<Items>,
    pub required: Vec<String>,
    pub format: Option<String>,
    pub description: Option<String>,
    /// `x-kubernetes-preserve-unknown-fields` is set to true.
    pub preserve_unknown_fields: bool,
    /// `x-kubernetes-int-or-string` is present.
    pub int_or_string: bool,
}

impl Schema {
    /// A node of the given type that declares nothing else.
    pub fn of_type(type_: SchemaType) -> (r: Schema)
        ensures
            r.type_ == type_,
            r.properties is None,
            r.additional_properties is None,
            r.items is None,
            r.required@.len() == 0,
            r.format is None,
            r.description is None,
            !r.preserve_unknown_fields,
            !r.int_or_string,
    {
        Schema {
            type_,
            properties: None,
            additional_properties: None,
            items: None,
            required: Vec::new(),
            format: None,
            description: None,
            preserve_unknown_fields: false,
            int_or_string: false,
        }
    }
}

/// Keys in strictly ascending lexical order, hence pairwise distinct.
pub open spec fn keys_sorted(e: Seq<(String, Schema)>) -> bool {
    &&& forall|i: int| 0 <= i < e.len() - 1 ==> key_before(#[trigger] e[i].0@, e[i + 1].0@)
    &&& forall|i: int, j: int| 0 <= i < e.len() && 0 <= j < e.len() && i != j ==> e[i].0@ != e[j].0@
}

/// `after` is `before` with `value` stored under `key` at position `i`: in place of the
/// schema held under an equal key, or as a new entry where no key is equal.
pub open spec fn placed_at(
    before: Seq<(String, Schema)>,
    after: Seq<(String, Schema)>,
    key: Seq<char>,
    value: Schema,
    i: int,
) -> bool {
    &&& 0 <= i < after.len()
    &&& after[i].0@ == key
    &&& after[i].1 == value
    &&& {
        ||| (i < before.len() && before[i].0@ == key && after == before.update(i, after[i]))
        ||| (i <= before.len() && (forall|j: int| 0 <= j < before.len() ==> before[j].0@ != key) && after
            == before.insert(i, after[i]))
    }
}

/// A property map: named child schemas, kept in ascending order of their keys.
///
/// The entries live in a vector sorted by key rather than in a `BTreeMap<String, Schema>`:
/// vstd ties the std ordered map's key order to a comparison specification of the key type,
/// and gives `String` none, so such a map would yield no usable fact about the order or the
/// uniqueness of its keys. Here both are a type invariant that proofs can use: members come
/// in lexical order, one entry per key.
#[derive(Debug)]
pub struct Properties {
    entries: Vec<(String, Schema)>,
}

impl View for Properties {
    type V = Seq<(String, Schema)>;

    closed spec fn view(&self) -> Seq<(String, Schema)> {
        self.entries@
    }
}

impl Properties {
    #[verifier::type_invariant]
    spec fn sorted(self) -> bool {
        keys_sorted(self.entries@)
    }

    /// An empty property map.
    pub fn new() -> (r: Properties)
        ensures
            r@.len() == 0,
            keys_sorted(r@),
    {
        Properties { entries: Vec::new() }
    }

    pub fn len(&self) -> (r: usize)
        ensures
            r == self@.len(),
            keys_sorted(self@),
    {
        proof {
            use_type_invariant(self);
        }
        self.entries.len()
    }

    /// The key and schema at position `i` in key order.
    pub fn entry(&self, i: usize) -> (r: (&String, &Schema))
        requires
            i < self@.len(),
        ensures
            *r.0 == self@[i as int].0,
            *r.1 == self@[i as int].1,
    {
        (&self.entries[i].0, &self.entries[i].1)
    }

    /// Inserts `value` under `key`, replacing the schema held under an equal key.
    pub fn insert(&mut self, key: String, value: Schema)
        ensures
            exists|i: int| #[trigger] placed_at(old(self)@, final(self)@, key@, value, i),
            keys_sorted(old(self)@),
            keys_sorted(final(self)@),
    {
        proof {
            use_type_invariant(&*self);
        }
        let ghost orig = self@;
        let mut entries: Vec<(String, Schema)> = Vec::new();
        std::mem::swap(&mut self.entries, &mut entries);
        let n = entries.len();
        let mut i: usize = 0;
        while i < n
            invariant
                n == entries@.len(),
                i <= n,
                keys_sorted(entries@),
                entries@ == orig,
                orig == old(self)@,
                forall|j: int| 0 <= j < i ==> #[trigger] entries@[j].0@ != key@,
            decreases n - i,
        {
            if entries[i].0 == key {
                let ghost before = entries@;
                assert(before[i as int].0@ == key@);
                let (old_key, _old_value) = entries.remove(i);
                entries.insert(i, (old_key, value));
                assert(entries@ == before.update(i as int, (before[i as int].0, value)));
                assert(keys_sorted(entries@));
                *self = Properties { entries };
                assert(self@ == before.update(i as int, (before[i as int].0, value)));
                assert(placed_at(orig, self@, key@, value, i as int));
                return;
            }
            i = i + 1;
        }
        let mut i: usize = 0;
        while i < n
            invariant
                n == entries@.len(),
                i <= n,
                keys_sorted(entries@),
                forall|j: int| 0 <= j < n ==> #[trigger] entries@[j].0@ != key@,
                i > 0 ==> key_before(entries@[i - 1].0@, key@),
                entries@ == orig,
            ensures
                i <= n,
                i < n ==> key_before(key@, entries@[i as int].0@),
                i > 0 ==> key_before(entries@[i - 1].0@, key@),
                entries@ == orig,
            decreases n - i,
        {
            if compare_keys(&entries[i].0, &key) > 0 {
                break;
            }
            i = i + 1;
        }
        let ghost before = entries@;
        assert(i < n ==> key_before(key@, before[i as int].0@));
        let ghost key_view = key@;
        entries.insert(i, (key, value));
        proof {
            lemma_insert_sorted(before, i as int, entries@[i as int]);
        }
        *self = Properties { entries };
        assert(placed_at(orig, self@, key_view, value, i as int));
    }
}

proof fn lemma_insert_sorted(before: Seq<(String, Schema)>, i: int, p: (String, Schema))
    requires
        keys_sorted(before),
        0 <= i <= before.len(),
        i > 0 ==> key_before(before[i - 1].0@, p.0@),
        i < before.len() ==> key_before(p.0@, before[i].0@),
        forall|j: int| 0 <= j < before.len() ==> #[trigger] before[j].0@ != p.0@,
    ensures
        keys_sorted(before.insert(i, p)),
{
    lemma_insert_ascending(before, i, p);
    lemma_insert_distinct(before, i, p);
}

proof fn lemma_insert_ascending(before: Seq<(String, Schema)>, i: int, p: (String, Schema))
    requires
        keys_sorted(before),
        0 <= i <= before.len(),
        i > 0 ==> key_before(before[i - 1].0@, p.0@),
        i < before.len() ==> key_before(p.0@, before[i].0@),
    ensures
        forall|a: int|
            0 <= a < before.len() ==> key_before(
                #[trigger] before.insert(i, p)[a].0@,
                before.insert(i, p)[a + 1].0@,
            ),
{
    let e = before.insert(i, p);
    assert forall|a: int| 0 <= a < e.len() - 1 implies key_before(#[trigger] e[a].0@, e[a + 1].0@) by {
        if a < i - 1 {
            assert(e[a] == before[a] && e[a + 1] == before[a + 1]);
        } else if a == i - 1 {
            assert(e[a] == before[a]);
        } else if a == i {
            assert(e[a + 1] == before[a]);
        } else {
            assert(e[a] == before[a - 1] && e[a + 1] == before[a]);
        }
    }
}

proof fn lemma_insert_distinct(before: Seq<(String, Schema)>, i: int, p: (String, Schema))
    requires
        keys_sorted(before),
        0 <= i <= before.len(),
        forall|j: int| 0 <= j < before.len() ==> #[trigger] before[j].0@ != p.0@,
    ensures
        forall|a: int, b: int|
            0 <= a < before.len() + 1 && 0 <= b < before.len() + 1 && a != b ==> (
            #[trigger] before.insert(i, p)[a]).0@ != (#[trigger] before.insert(i, p)[b]).0@,
{
    let e = before.insert(i, p);
    assert forall|a: int, b: int| 0 <= a < e.len() && 0 <= b < e.len() && a != b implies e[a].0@
        != e[b].0@ by {
        if a != i && b != i {
            let a0 = if a < i { a } else { a - 1 };
            let b0 = if b < i { b } else { b - 1 };
            assert(e[a] == before[a0] && e[b] == before[b0]);
        } else if a == i {
            let b0 = if b < i { b } else { b - 1 };
            assert(e[b] == before[b0]);
        } else {
            let a0 = if a < i { a } else { a - 1 };
            assert(e[a] == before[a0]);
        }
    }
}

} // verus!
