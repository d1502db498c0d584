//! Properties of the analysis that hold for every input.
use crate::analyzer::{
    child_name, child_spec, children_spec, emit_spec, outcome, lookup_spec, member_spec, props_of,
    replay_spec, required_in, reserved_key, resolve_spec, resolve_upto, unwrap_spec, walk_spec,
};
use crate::model::{struct_views, AnalysisError, OutputStruct, StructModel, TypeModel};
use crate::schema::{keys_sorted, AdditionalProperties, Items, Schema, SchemaType};
use crate::text::key_before;
use vstd::prelude::*;

verus! {

/// No member type that the resolver infers is itself optional.
proof fn lemma_member_not_optional(child: Schema, stack: Seq<char>, key: Seq<char>)
    ensures
        member_spec(child, stack, key) is Ok ==> !(member_spec(child, stack, key)->Ok_0.0 is Optional),
{
}

/// The members of the first `n` properties: one per property, in property order, optional
/// exactly when the key is not required.
proof fn lemma_resolve_members(props: Seq<(String, Schema)>, stack: Seq<char>, owner: Schema, n: nat)
    requires
        n <= props.len(),
        resolve_upto(props, stack, owner, n) is Ok,
    ensures
        ({
            let ms = resolve_upto(props, stack, owner, n)->Ok_0.0;
            &&& ms.len() == n
            &&& forall|i: int| 0 <= i < n ==> (#[trigger] ms[i]).name == props[i].0@
            &&& forall|i: int|
                0 <= i < n ==> ((#[trigger] ms[i]).optional <==> !required_in(owner, ms[i].name))
            &&& forall|i: int|
                0 <= i < n ==> ((#[trigger] ms[i]).ty is Optional <==> !required_in(owner, ms[i].name))
        }),
    decreases n,
{
    if n > 0 {
        lemma_resolve_members(props, stack, owner, (n - 1) as nat);
        lemma_member_not_optional(props[n - 1].1, stack, props[n - 1].0@);
    }
}

/// Exactly one record type is emitted for an object node with properties that is no
/// dictionary: the one that the member resolver computes for its properties.
pub proof fn lemma_one_struct_per_object(node: Schema, stack: Seq<char>, level: u8)
    requires
        node.type_ is Object,
        !(node.additional_properties matches Some(AdditionalProperties::Schema(_))),
        props_of(node).len() > 0,
    ensures
        match resolve_spec(props_of(node), stack, level, node) {
            Ok((st, tab)) => emit_spec(node, stack, level) == Ok::<
                Option<(Seq<StructModel>, Seq<(Seq<char>, u8)>)>,
                AnalysisError,
            >(Some((seq![st], tab))),
            Err(e) => walk_spec(node, stack, level) == (Seq::<StructModel>::empty(), Some(e)),
        },
        resolve_spec(props_of(node), stack, level, node) is Ok ==> walk_spec(node, stack, level).0.len() >= 1
            && walk_spec(node, stack, level).0[0] == resolve_spec(props_of(node), stack, level, node)->Ok_0.0,
{
}

/// The members of a record type come in strictly ascending lexical order of their names,
/// one for each property.
pub proof fn lemma_members_ascending(
    props: Seq<(String, Schema)>,
    stack: Seq<char>,
    level: u8,
    owner: Schema,
)
    requires
        keys_sorted(props),
        resolve_spec(props, stack, level, owner) is Ok,
    ensures
        ({
            let ms = resolve_spec(props, stack, level, owner)->Ok_0.0.members;
            &&& ms.len() == props.len()
            &&& forall|i: int| 0 <= i < ms.len() - 1 ==> key_before(#[trigger] ms[i].name, ms[i + 1].name)
        }),
{
    lemma_resolve_members(props, stack, owner, props.len());
}

/// A member is optional, and its type wrapped as optional, exactly when its key is absent
/// from the required-name set of the enclosing schema.
pub proof fn lemma_optional_iff_not_required(
    props: Seq<(String, Schema)>,
    stack: Seq<char>,
    level: u8,
    owner: Schema,
)
    requires
        resolve_spec(props, stack, level, owner) is Ok,
    ensures
        ({
            let ms = resolve_spec(props, stack, level, owner)->Ok_0.0.members;
            &&& forall|i: int|
                0 <= i < ms.len() ==> ((#[trigger] ms[i]).optional <==> !required_in(owner, ms[i].name))
            &&& forall|i: int|
                0 <= i < ms.len() ==> ((#[trigger] ms[i]).ty is Optional <==> !required_in(owner, ms[i].name))
        }),
{
    lemma_resolve_members(props, stack, owner, props.len());
}

/// The properties of the value schema of a map node, empty where it declares none.
pub open spec fn map_value_props(node: Schema) -> Seq<(String, Schema)> {
    match node.additional_properties {
        Some(AdditionalProperties::Schema(s)) => props_of(*s),
        _ => Seq::empty(),
    }
}

/// A map whose values are objects with properties gets its value record type under the
/// name stack of the map's own node, not an extended one.
pub proof fn lemma_map_of_struct_naming(node: Schema, stack: Seq<char>, level: u8)
    requires
        node.type_ is Object,
        node.additional_properties matches Some(AdditionalProperties::Schema(s)) && s.properties is Some,
        resolve_spec(map_value_props(node), stack, level, node) is Ok,
    ensures
        walk_spec(node, stack, level).0.len() >= 1,
        walk_spec(node, stack, level).0[0] == resolve_spec(map_value_props(node), stack, level, node)->Ok_0.0,
        walk_spec(node, stack, level).0[0].name == stack,
        walk_spec(node, stack, level).0[0].level == level,
{
}

/// Running the analysis twice on the same input from the same results gives the same
/// record types and the same outcome, whether it succeeds or fails.
pub proof fn lemma_analysis_deterministic(
    node: Schema,
    stack: Seq<char>,
    level: u8,
    before: Seq<OutputStruct>,
    first: Seq<OutputStruct>,
    second: Seq<OutputStruct>,
    first_outcome: Result<(), AnalysisError>,
    second_outcome: Result<(), AnalysisError>,
)
    requires
        struct_views(first) == struct_views(before) + walk_spec(node, stack, level).0,
        struct_views(second) == struct_views(before) + walk_spec(node, stack, level).0,
        first_outcome == outcome(walk_spec(node, stack, level)),
        second_outcome == outcome(walk_spec(node, stack, level)),
    ensures
        struct_views(first) == struct_views(second),
        first_outcome == second_outcome,
{
}

proof fn lemma_lookup_push(t: Seq<(Seq<char>, u8)>, x: (Seq<char>, u8), k: Seq<char>)
    ensures
        lookup_spec(t.push(x), k) == (if lookup_spec(t, k) is Some {
            lookup_spec(t, k)
        } else if x.0 == k {
            Some(x.1)
        } else {
            None
        }),
    decreases t.len(),
{
    if t.len() > 0 {
        assert(t.push(x).drop_first() == t.drop_first().push(x));
        assert(t.push(x)[0] == t[0]);
        lemma_lookup_push(t.drop_first(), x, k);
    } else {
        assert(t.push(x).drop_first() =~= Seq::<(Seq<char>, u8)>::empty());
        assert(t.push(x)[0] == x);
        assert(lookup_spec(t.push(x).drop_first(), k) is None);
        assert(lookup_spec(t, k) is None);
    }
}

proof fn lemma_lookup_absent(t: Seq<(Seq<char>, u8)>, k: Seq<char>)
    requires
        forall|j: int| 0 <= j < t.len() ==> (#[trigger] t[j]).0 != k,
    ensures
        lookup_spec(t, k) is None,
    decreases t.len(),
{
    if t.len() > 0 {
        assert forall|j: int| 0 <= j < t.drop_first().len() implies (#[trigger] t.drop_first()[j]).0 != k by {
            assert(t.drop_first()[j] == t[j + 1]);
        }
        lemma_lookup_absent(t.drop_first(), k);
    }
}

/// Every key in the unwrap table of the first `m` properties is the key of one of them.
proof fn lemma_table_keys(props: Seq<(String, Schema)>, stack: Seq<char>, owner: Schema, m: nat)
    requires
        m <= props.len(),
        resolve_upto(props, stack, owner, m) is Ok,
    ensures
        forall|e: int|
            0 <= e < resolve_upto(props, stack, owner, m)->Ok_0.1.len() ==> exists|j: int|
                0 <= j < m && #[trigger] resolve_upto(props, stack, owner, m)->Ok_0.1[e].0
                    == props[j].0@,
    decreases m,
{
    if m > 0 {
        lemma_table_keys(props, stack, owner, (m - 1) as nat);
        let prev = resolve_upto(props, stack, owner, (m - 1) as nat)->Ok_0.1;
        let tab = resolve_upto(props, stack, owner, m)->Ok_0.1;
        assert forall|e: int| 0 <= e < tab.len() implies exists|j: int|
            0 <= j < m && #[trigger] tab[e].0 == props[j].0@ by {
            if e < prev.len() {
                assert(tab[e] == prev[e]);
                let j = choose|j: int| 0 <= j < m - 1 && #[trigger] prev[e].0 == props[j].0@;
                assert(tab[e].0 == props[j].0@);
            } else {
                assert(tab[e].0 == props[m - 1].0@);
            }
        }
    }
}

/// In the unwrap table of the first `m` properties, an array property among them is found
/// with the depth that the unwrapper reported for it.
proof fn lemma_table_lookup(
    props: Seq<(String, Schema)>,
    stack: Seq<char>,
    owner: Schema,
    m: nat,
    i: int,
)
    requires
        keys_sorted(props),
        0 <= i < m <= props.len(),
        props[i].1.type_ is Array,
        resolve_upto(props, stack, owner, m) is Ok,
    ensures
        unwrap_spec(props[i].1, stack, props[i].0@, 1) is Ok,
        lookup_spec(resolve_upto(props, stack, owner, m)->Ok_0.1, props[i].0@) == Some(
            unwrap_spec(props[i].1, stack, props[i].0@, 1)->Ok_0.1,
        ),
    decreases m,
{
    let k = props[i].0@;
    let prev = resolve_upto(props, stack, owner, (m - 1) as nat)->Ok_0.1;
    let (t, d) = member_spec(props[m - 1].1, stack, props[m - 1].0@)->Ok_0;
    if i == m - 1 {
        lemma_table_keys(props, stack, owner, (m - 1) as nat);
        assert forall|e: int| 0 <= e < prev.len() implies (#[trigger] prev[e]).0 != k by {
            let j = choose|j: int| 0 <= j < m - 1 && #[trigger] prev[e].0 == props[j].0@;
            assert(props[j].0@ != props[i].0@);
        }
        lemma_lookup_absent(prev, k);
        lemma_lookup_push(prev, (k, d->Some_0), k);
    } else {
        lemma_table_lookup(props, stack, owner, (m - 1) as nat, i);
        if d is Some {
            lemma_lookup_push(prev, (props[m - 1].0@, d->Some_0), k);
        }
    }
}

/// Where the unwrapper reaches an object element after `n` layers counted from `depth`,
/// replaying `n - depth + 1` hops from the array reaches that object.
proof fn lemma_replay_reaches_object(node: Schema, stack: Seq<char>, key: Seq<char>, depth: u8)
    requires
        depth >= 1,
        unwrap_spec(node, stack, key, depth) matches Ok((TypeModel::Reference(_), _)),
    ensures
        ({
            let n = unwrap_spec(node, stack, key, depth)->Ok_0.1;
            &&& depth <= n
            &&& replay_spec(node, (n - depth + 1) as u8) is Ok
            &&& replay_spec(node, (n - depth + 1) as u8)->Ok_0.type_ is Object
        }),
    decreases 256 - depth,
{
    let s = node.items->Some_0->Single_0;
    if s.type_ is Array {
        lemma_replay_reaches_object(*s, stack, key, (depth + 1) as u8);
        let n = unwrap_spec(node, stack, key, depth)->Ok_0.1;
        assert(replay_spec(node, (n - depth + 1) as u8) == replay_spec(*s, (n - (depth + 1) + 1) as u8));
    } else {
        assert(replay_spec(*s, 0) == Ok::<Schema, AnalysisError>(*s));
    }
}

/// An array property of an object node is descended into at the next level, through as
/// many `items` hops as the member resolver recorded for it when it unwrapped the array;
/// where the element is an object, those hops reach it.
pub proof fn lemma_array_depth_replay(node: Schema, stack: Seq<char>, level: u8, i: int)
    requires
        node.type_ is Object,
        !(node.additional_properties matches Some(AdditionalProperties::Schema(_))),
        keys_sorted(props_of(node)),
        0 <= i < props_of(node).len(),
        props_of(node)[i].1.type_ is Array,
        !(level == 0 && reserved_key(props_of(node)[i].0@)),
        level < 255,
        resolve_spec(props_of(node), stack, level, node) is Ok,
    ensures
        ({
            let key = props_of(node)[i].0@;
            let child = props_of(node)[i].1;
            let tab = resolve_spec(props_of(node), stack, level, node)->Ok_0.1;
            let n = unwrap_spec(child, stack, key, 1)->Ok_0.1;
            &&& emit_spec(node, stack, level) matches Ok(Some((_, t))) && t == tab
            &&& lookup_spec(tab, key) == Some(n)
            &&& child_spec(key, child, tab, stack, level) == match replay_spec(child, n) {
                Ok(inner) => walk_spec(inner, child_name(stack, key), (level + 1) as u8),
                Err(e) => (Seq::<StructModel>::empty(), Some(e)),
            }
            &&& (unwrap_spec(child, stack, key, 1) matches Ok((TypeModel::Reference(_), _)))
                ==> replay_spec(child, n) is Ok && replay_spec(child, n)->Ok_0.type_ is Object
        }),
{
    let props = props_of(node);
    lemma_table_lookup(props, stack, node, props.len(), i);
    let child = props[i].1;
    let key = props[i].0@;
    if unwrap_spec(child, stack, key, 1) matches Ok((TypeModel::Reference(_), _)) {
        lemma_replay_reaches_object(child, stack, key, 1);
    }
}

/// `p` begins the name of `m`.
pub open spec fn named_under(m: StructModel, p: Seq<char>) -> bool {
    p.len() <= m.name.len() && m.name.subrange(0, p.len() as int) == p
}

proof fn lemma_under_child(m: StructModel, stack: Seq<char>, key: Seq<char>)
    requires
        named_under(m, child_name(stack, key)),
    ensures
        named_under(m, stack),
{
    let next = child_name(stack, key);
    assert(next.subrange(0, stack.len() as int) == stack);
    assert(m.name.subrange(0, stack.len() as int) == m.name.subrange(0, next.len() as int).subrange(
        0,
        stack.len() as int,
    ));
}

proof fn lemma_walk_under(node: Schema, stack: Seq<char>, level: u8)
    ensures
        forall|i: int|
            0 <= i < walk_spec(node, stack, level).0.len() ==> named_under(
                #[trigger] walk_spec(node, stack, level).0[i],
                stack,
            ),
    decreases 256 - level, 1int, 0int,
{
    match emit_spec(node, stack, level) {
        Ok(Some((own, tab))) => {
            let props = props_of(node);
            lemma_children_under(props, tab, stack, level, props.len());
            let c = children_spec(props, tab, stack, level, props.len()).0;
            let w = walk_spec(node, stack, level).0;
            assert(own.len() <= 1);
            if own.len() == 1 {
                assert(own[0].name == stack);
                assert(stack.subrange(0, stack.len() as int) == stack);
            }
            assert forall|i: int| 0 <= i < w.len() implies named_under(#[trigger] w[i], stack) by {
                if i >= own.len() {
                    assert(w[i] == c[i - own.len()]);
                    let j = choose|j: int|
                        0 <= j < props.len() && named_under(c[i - own.len()], child_name(stack, props[j].0@));
                    lemma_under_child(w[i], stack, props[j].0@);
                } else {
                    assert(w[i] == own[i]);
                    assert(stack.subrange(0, stack.len() as int) == stack);
                }
            }
        },
        _ => {},
    }
}

proof fn lemma_children_under(
    props: Seq<(String, Schema)>,
    tab: Seq<(Seq<char>, u8)>,
    stack: Seq<char>,
    level: u8,
    n: nat,
)
    requires
        n <= props.len(),
    ensures
        forall|i: int|
            0 <= i < children_spec(props, tab, stack, level, n).0.len() ==> exists|j: int|
                0 <= j < n && named_under(
                    #[trigger] children_spec(props, tab, stack, level, n).0[i],
                    child_name(stack, props[j].0@),
                ),
    decreases 256 - level, 0int, n,
{
    if n > 0 {
        lemma_children_under(props, tab, stack, level, (n - 1) as nat);
        let (prev, err) = children_spec(props, tab, stack, level, (n - 1) as nat);
        if err is None {
            let key = props[n - 1].0@;
            lemma_child_under(key, props[n - 1].1, tab, stack, level);
            let c = child_spec(key, props[n - 1].1, tab, stack, level).0;
            let all = children_spec(props, tab, stack, level, n).0;
            assert forall|i: int| 0 <= i < all.len() implies exists|j: int|
                0 <= j < n && named_under(#[trigger] all[i], child_name(stack, props[j].0@)) by {
                if i < prev.len() {
                    assert(all[i] == prev[i]);
                    let j = choose|j: int|
                        0 <= j < n - 1 && named_under(prev[i], child_name(stack, props[j].0@));
                    assert(named_under(all[i], child_name(stack, props[j].0@)));
                } else {
                    assert(all[i] == c[i - prev.len()]);
                    assert(named_under(all[i], child_name(stack, props[n - 1].0@)));
                }
            }
        }
    }
}

proof fn lemma_child_under(
    key: Seq<char>,
    child: Schema,
    tab: Seq<(Seq<char>, u8)>,
    stack: Seq<char>,
    level: u8,
)
    ensures
        forall|i: int|
            0 <= i < child_spec(key, child, tab, stack, level).0.len() ==> named_under(
                #[trigger] child_spec(key, child, tab, stack, level).0[i],
                child_name(stack, key),
            ),
    decreases 256 - level, 0int, 0int,
{
    let next = child_name(stack, key);
    let r = child_spec(key, child, tab, stack, level);
    if !(level == 0 && reserved_key(key)) && level < 255 {
        if child.type_ is Object {
            let w = walk_spec(child, next, (level + 1) as u8);
            lemma_walk_under(child, next, (level + 1) as u8);
            assert(forall|i: int| 0 <= i < w.0.len() ==> named_under(#[trigger] w.0[i], next));
            if let Some(AdditionalProperties::Schema(s)) = child.additional_properties {
                if let Some(Items::Single(it)) = s.items {
                    lemma_walk_under(*it, next, (level + 1) as u8);
                    let v = walk_spec(*it, next, (level + 1) as u8);
                    assert(forall|i: int| 0 <= i < v.0.len() ==> named_under(#[trigger] v.0[i], next));
                    if s.type_ is Array {
                        assert(r == v);
                    } else {
                        assert(r == w);
                    }
                } else {
                    assert(r == w);
                }
            } else {
                assert(r == w);
            }
        } else if child.type_ is Array {
            if let Some(d) = lookup_spec(tab, key) {
                if let Ok(inner) = replay_spec(child, d) {
                    lemma_walk_under(inner, next, (level + 1) as u8);
                    assert(r == walk_spec(inner, next, (level + 1) as u8));
                } else {
                    assert(r.0.len() == 0);
                }
            } else {
                assert(r.0.len() == 0);
            }
        } else {
            assert(r.0.len() == 0);
        }
    } else {
        assert(r.0.len() == 0);
    }
}

/// The record types that the walk of an object node with properties appends: first the
/// one for the node itself, named by the stack, with one member per property in ascending
/// key order; after it only record types whose names begin with the stack extended by one
/// of the node's property keys, capitalised.
pub proof fn lemma_struct_then_children(node: Schema, stack: Seq<char>, level: u8)
    requires
        node.type_ is Object,
        !(node.additional_properties matches Some(AdditionalProperties::Schema(_))),
        props_of(node).len() > 0,
        keys_sorted(props_of(node)),
        resolve_spec(props_of(node), stack, level, node) is Ok,
    ensures
        ({
            let w = walk_spec(node, stack, level).0;
            let st = resolve_spec(props_of(node), stack, level, node)->Ok_0.0;
            &&& w.len() >= 1
            &&& w[0] == st
            &&& st.name == stack
            &&& st.level == level
            &&& st.members.len() == props_of(node).len()
            &&& forall|k: int|
                0 <= k < st.members.len() - 1 ==> key_before(
                    #[trigger] st.members[k].name,
                    st.members[k + 1].name,
                )
            &&& forall|i: int|
                1 <= i < w.len() ==> exists|j: int|
                    0 <= j < props_of(node).len() && named_under(
                        #[trigger] w[i],
                        child_name(stack, props_of(node)[j].0@),
                    )
        }),
{
    let props = props_of(node);
    lemma_members_ascending(props, stack, level, node);
    let (st, tab) = resolve_spec(props, stack, level, node)->Ok_0;
    lemma_children_under(props, tab, stack, level, props.len());
    let c = children_spec(props, tab, stack, level, props.len()).0;
    let w = walk_spec(node, stack, level).0;
    assert forall|i: int| 1 <= i < w.len() implies exists|j: int|
        0 <= j < props.len() && named_under(#[trigger] w[i], child_name(stack, props[j].0@)) by {
        assert(w[i] == c[i - 1]);
    }
}

/// In a descent without error, what the descent into property `i` appends stands, whole and
/// in order, right after what the descent into the properties before it appended.
proof fn lemma_children_split(
    props: Seq<(String, Schema)>,
    tab: Seq<(Seq<char>, u8)>,
    stack: Seq<char>,
    level: u8,
    i: int,
    n: nat,
)
    requires
        0 <= i < n <= props.len(),
        children_spec(props, tab, stack, level, n).1 is None,
    ensures
        ({
            let before = children_spec(props, tab, stack, level, i as nat).0;
            let c = child_spec(props[i].0@, props[i].1, tab, stack, level);
            let all = children_spec(props, tab, stack, level, n).0;
            &&& c.1 is None
            &&& before.len() + c.0.len() <= all.len()
            &&& forall|t: int| 0 <= t < c.0.len() ==> all[before.len() + t] == #[trigger] c.0[t]
        }),
    decreases n,
{
    if n > i + 1 {
        lemma_children_split(props, tab, stack, level, i, (n - 1) as nat);
    }
}

/// Where an array property's element, reached after the unwrap depth that the resolver
/// recorded, is an object with properties and no map values, a walk without error appends
/// that element's record type: named by the stack extended by the capitalised key, at the
/// next level, and after the record type of the node itself.
pub proof fn lemma_array_element_struct_emitted(node: Schema, stack: Seq<char>, level: u8, i: int)
    requires
        node.type_ is Object,
        !(node.additional_properties matches Some(AdditionalProperties::Schema(_))),
        keys_sorted(props_of(node)),
        0 <= i < props_of(node).len(),
        props_of(node)[i].1.type_ is Array,
        !(level == 0 && reserved_key(props_of(node)[i].0@)),
        level < 255,
        unwrap_spec(props_of(node)[i].1, stack, props_of(node)[i].0@, 1) matches Ok(
            (TypeModel::Reference(_), _),
        ),
        ({
            let child = props_of(node)[i].1;
            let n = unwrap_spec(child, stack, props_of(node)[i].0@, 1)->Ok_0.1;
            let o = replay_spec(child, n)->Ok_0;
            props_of(o).len() > 0 && !(o.additional_properties matches Some(
                AdditionalProperties::Schema(_),
            ))
        }),
        walk_spec(node, stack, level).1 is None,
    ensures
        ({
            let key = props_of(node)[i].0@;
            let child = props_of(node)[i].1;
            let n = unwrap_spec(child, stack, key, 1)->Ok_0.1;
            let o = replay_spec(child, n)->Ok_0;
            let next = child_name(stack, key);
            let w = walk_spec(node, stack, level).0;
            &&& resolve_spec(props_of(o), next, (level + 1) as u8, o) is Ok
            &&& exists|j: int|
                1 <= j < w.len() && #[trigger] w[j] == resolve_spec(
                    props_of(o),
                    next,
                    (level + 1) as u8,
                    o,
                )->Ok_0.0
        }),
{
    let props = props_of(node);
    let key = props[i].0@;
    let child = props[i].1;
    if resolve_spec(props, stack, level, node) is Err {
        lemma_one_struct_per_object(node, stack, level);
    } else {
        lemma_array_depth_replay(node, stack, level, i);
        let n = unwrap_spec(child, stack, key, 1)->Ok_0.1;
        let o = replay_spec(child, n)->Ok_0;
        let next = child_name(stack, key);
        let tab = resolve_spec(props, stack, level, node)->Ok_0.1;
        lemma_one_struct_per_object(node, stack, level);
        lemma_children_split(props, tab, stack, level, i, props.len());
        let before = children_spec(props, tab, stack, level, i as nat).0;
        let c = child_spec(key, child, tab, stack, level);
        assert(c == walk_spec(o, next, (level + 1) as u8));
        lemma_one_struct_per_object(o, next, (level + 1) as u8);
        let w = walk_spec(node, stack, level).0;
        let all = children_spec(props, tab, stack, level, props.len()).0;
        assert(w == seq![resolve_spec(props, stack, level, node)->Ok_0.0] + all);
        let j: int = 1 + before.len() as int;
        assert(w[j] == all[before.len() as int]);
        assert(w[j] == c.0[0]);
    }
}

} // verus!
