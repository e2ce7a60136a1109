//! The metadata database written as Rust source text (of the `Static*`
//! types that hold it in a built program): lists in order, maps and
//! sets sorted by key with each key once.

use vstd::prelude::*;
use vstd::string::*;
use vstd::utf8::encode_utf8;

use super::meta::{Attribute, ElementMeta, MetaDb};
use super::types::AttributeType;
use crate::chj_util::debugstr::{debug_quoted, str_debug};
use crate::chj_util::order::{sorted_unique, sorted_unique_positions, keys_view};

verus! {

/// The items separated by ",\n".
pub open spec fn join_items(items: Seq<Seq<char>>) -> Seq<char>
    decreases items.len(),
{
    if items.len() == 0 {
        Seq::empty()
    } else if items.len() == 1 {
        items[0]
    } else {
        join_items(items.drop_last()) + ",\n"@ + items.last()
    }
}

/// A list literal: `kind(&[` and a newline, the items, and `])` and a
/// newline.
pub open spec fn static_list(kind: Seq<char>, items: Seq<Seq<char>>) -> Seq<char> {
    kind + "(&[\n"@ + join_items(items) + "])\n"@
}

pub open spec fn bool_text(b: bool) -> Seq<char> {
    if b {
        "true"@
    } else {
        "false"@
    }
}

/// The keys of strings: their bytes.
pub open spec fn str_keys(v: Seq<String>) -> Seq<Seq<u8>> {
    v.map_values(|s: String| encode_utf8(s@))
}

/// The quoted strings of a set: sorted, each once.
#[verifier::opaque]
pub open spec fn set_items(v: Seq<String>) -> Seq<Seq<char>> {
    sorted_unique(str_keys(v)).map_values(|p: int| debug_quoted(v[p]@))
}

pub open spec fn type_static(t: AttributeType) -> Seq<char> {
    match t {
        AttributeType::Bool => "StaticAttributeType::Bool"@,
        AttributeType::KString => "StaticAttributeType::KString"@,
        AttributeType::Integer => "StaticAttributeType::Integer"@,
        AttributeType::Float => "StaticAttributeType::Float"@,
        AttributeType::Identifier(s) => "StaticAttributeType::Identifier("@ + debug_quoted(s@) + ")"@,
        AttributeType::Enumerable(v) => "StaticAttributeType::Enumerable("@ + static_list(
            "StaticVec"@,
            v@.map_values(|s: String| debug_quoted(s@)),
        ) + ")"@,
    }
}

pub open spec fn attribute_static(a: Attribute) -> Seq<char> {
    "StaticAttribute {\n    description: "@ + debug_quoted(a.description@) + ",\n    ty: "@
        + type_static(a.ty) + "}\n"@
}

pub open spec fn attr_keys(v: Seq<(String, Attribute)>) -> Seq<Seq<u8>> {
    v.map_values(|e: (String, Attribute)| encode_utf8(e.0@))
}

/// The attribute entries of a map: sorted by name, each name once (with
/// its last description).
#[verifier::opaque]
pub open spec fn attr_items(v: Seq<(String, Attribute)>) -> Seq<Seq<char>> {
    sorted_unique(attr_keys(v)).map_values(
        |p: int| "("@ + debug_quoted(v[p].0@) + ", "@ + attribute_static(v[p].1) + ")"@,
    )
}

#[verifier::opaque]
pub open spec fn element_static(em: ElementMeta) -> Seq<char> {
    "StaticElementMeta {\n"@ + "    tag_name: "@ + debug_quoted(em.tag_name@) + "\n"@
        + ",\n    has_global_attributes: "@ + bool_text(em.has_global_attributes) + "\n"@
        + ",\n    has_closing_tag: "@ + bool_text(em.has_closing_tag) + "\n"@
        + ",\n    attributes: "@ + static_list("StaticMap"@, attr_items(em.attributes@))
        + ",\n    allows_child_text: "@ + bool_text(em.allows_child_text) + "\n"@
        + ",\n    child_elements: "@ + static_list("StaticSet"@, set_items(em.child_elements@))
        + "}\n"@
}

pub open spec fn elem_keys(v: Seq<(String, ElementMeta)>) -> Seq<Seq<u8>> {
    v.map_values(|e: (String, ElementMeta)| encode_utf8(e.0@))
}

/// The element entries of the database: sorted by name, each once.
#[verifier::opaque]
pub open spec fn elem_items(v: Seq<(String, ElementMeta)>) -> Seq<Seq<char>> {
    sorted_unique(elem_keys(v)).map_values(
        |p: int| "("@ + debug_quoted(v[p].0@) + ", "@ + element_static(v[p].1) + ")"@,
    )
}

/// The database as Rust source text.
pub open spec fn metadb_static(db: MetaDb) -> Seq<char> {
    "StaticMetaDb {\n"@ + "    global_attribute_names: "@ + static_list(
        "StaticSet"@,
        set_items(db.global_attribute_names@),
    ) + ",\n    elementmeta: "@ + static_list("StaticMap"@, elem_items(db.elementmeta@)) + "}\n"@
}

proof fn lemma_join_step(items: Seq<Seq<char>>, k: int)
    requires
        0 <= k < items.len(),
    ensures
        join_items(items.take(k + 1)) == join_items(items.take(k)) + (if k == 0 {
            Seq::<char>::empty()
        } else {
            ",\n"@
        }) + items[k],
{
    let t = items.take(k + 1);
    assert(t.drop_last() =~= items.take(k));
    assert(t.last() == items[k]);
    if k == 0 {
        assert(join_items(t) == t[0]);
        assert(join_items(items.take(0)) == Seq::<char>::empty());
        assert(Seq::<char>::empty() + Seq::<char>::empty() + items[0] =~= items[0]);
    }
}

fn bytes_of(s: &str) -> (r: Vec<u8>)
    ensures
        r@ == encode_utf8(s@),
{
    let b = s.as_bytes();
    let mut v: Vec<u8> = Vec::new();
    let mut i: usize = 0;
    while i < b.len()
        invariant
            i <= b@.len(),
            b@ == s.spec_bytes(),
            v@ == b@.take(i as int),
        decreases b@.len() - i,
    {
        v.push(b[i]);
        assert(v@ =~= b@.take(i + 1));
        i = i + 1;
    }
    assert(b@.take(b@.len() as int) =~= b@);
    v
}

fn push_bool(out: &mut String, b: bool)
    ensures
        final(out)@ == old(out)@ + bool_text(b),
{
    if b {
        out.append("true");
    } else {
        out.append("false");
    }
}

/// Appends the strings of `v` as a set literal (`set_items`).
pub fn push_string_set(out: &mut String, v: &Vec<String>)
    ensures
        final(out)@ == old(out)@ + static_list("StaticSet"@, set_items(v@)),
{
    let mut keys: Vec<Vec<u8>> = Vec::new();
    let mut i: usize = 0;
    while i < v.len()
        invariant
            i <= v@.len(),
            keys_view(keys@) == str_keys(v@).take(i as int),
        decreases v@.len() - i,
    {
        let ghost before = keys@;
        let b = bytes_of(v[i].as_str());
        assert(b@ == str_keys(v@)[i as int]);
        keys.push(b);
        assert(keys_view(keys@) =~= keys_view(before).push(b@));
        assert(str_keys(v@).take(i + 1) =~= str_keys(v@).take(i as int).push(str_keys(v@)[i as int]));
        i = i + 1;
    }
    assert(str_keys(v@).take(v@.len() as int) =~= str_keys(v@));
    let ps = sorted_unique_positions(&keys);
    let ghost items = set_items(v@);
    proof {
        reveal(set_items);
    }
    out.append("StaticSet");
    out.append("(&[\n");
    let ghost start = out@;
    let mut k: usize = 0;
    assert(items.take(0) =~= Seq::<Seq<char>>::empty());
    while k < ps.len()
        invariant
            k <= ps@.len(),
            items == set_items(v@),
            keys_view(keys@) == str_keys(v@),
            items.len() == ps@.len(),
            forall|j: int| 0 <= j < ps@.len() ==> ps@[j] < v@.len(),
            forall|j: int| 0 <= j < ps@.len() ==> items[j] == debug_quoted(v@[ps@[j] as int]@),
            out@ == start + join_items(items.take(k as int)),
        decreases ps@.len() - k,
    {
        proof {
            lemma_join_step(items, k as int);
        }
        if k > 0 {
            out.append(",\n");
        }
        let q = str_debug(v[ps[k]].as_str());
        out.append(q.as_str());
        assert(out@ =~= start + join_items(items.take(k + 1)));
        k = k + 1;
    }
    assert(items.take(ps@.len() as int) =~= items);
    out.append("])\n");
    assert(out@ =~= old(out)@ + static_list("StaticSet"@, items));
}

/// Appends the strings of `v`, in order, as a list literal.
fn push_string_vec(out: &mut String, v: &Vec<String>)
    ensures
        final(out)@ == old(out)@ + static_list("StaticVec"@, v@.map_values(|s: String| debug_quoted(s@))),
{
    let ghost items = v@.map_values(|s: String| debug_quoted(s@));
    out.append("StaticVec");
    out.append("(&[\n");
    let ghost start = out@;
    let mut k: usize = 0;
    assert(items.take(0) =~= Seq::<Seq<char>>::empty());
    while k < v.len()
        invariant
            k <= v@.len(),
            items == v@.map_values(|s: String| debug_quoted(s@)),
            out@ == start + join_items(items.take(k as int)),
        decreases v@.len() - k,
    {
        proof {
            lemma_join_step(items, k as int);
        }
        if k > 0 {
            out.append(",\n");
        }
        let q = str_debug(v[k].as_str());
        out.append(q.as_str());
        assert(out@ =~= start + join_items(items.take(k + 1)));
        k = k + 1;
    }
    assert(items.take(v@.len() as int) =~= items);
    out.append("])\n");
    assert(out@ =~= old(out)@ + static_list("StaticVec"@, items));
}

/// Appends the type `t` as Rust source text (`type_static`).
pub fn push_type_static(out: &mut String, t: &AttributeType)
    ensures
        final(out)@ == old(out)@ + type_static(*t),
{
    match t {
        AttributeType::Bool => out.append("StaticAttributeType::Bool"),
        AttributeType::KString => out.append("StaticAttributeType::KString"),
        AttributeType::Integer => out.append("StaticAttributeType::Integer"),
        AttributeType::Float => out.append("StaticAttributeType::Float"),
        AttributeType::Identifier(s) => {
            out.append("StaticAttributeType::Identifier(");
            out.append(str_debug(s.as_str()).as_str());
            out.append(")");
        },
        AttributeType::Enumerable(v) => {
            out.append("StaticAttributeType::Enumerable(");
            push_string_vec(out, v);
            out.append(")");
        },
    }
}

/// Appends the attribute `a` as Rust source text (`attribute_static`).
pub fn push_attribute_static(out: &mut String, a: &Attribute)
    ensures
        final(out)@ == old(out)@ + attribute_static(*a),
{
    out.append("StaticAttribute {\n    description: ");
    out.append(str_debug(a.description.as_str()).as_str());
    out.append(",\n    ty: ");
    push_type_static(out, &a.ty);
    out.append("}\n");
    assert(out@ =~= old(out)@ + attribute_static(*a));
}

/// Appends the attributes `v` as a map literal (`attr_items`).
fn push_attr_map(out: &mut String, v: &Vec<(String, Attribute)>)
    ensures
        final(out)@ == old(out)@ + static_list("StaticMap"@, attr_items(v@)),
{
    let mut keys: Vec<Vec<u8>> = Vec::new();
    let mut i: usize = 0;
    while i < v.len()
        invariant
            i <= v@.len(),
            keys_view(keys@) == attr_keys(v@).take(i as int),
        decreases v@.len() - i,
    {
        let ghost before = keys@;
        let b = bytes_of(v[i].0.as_str());
        assert(b@ == attr_keys(v@)[i as int]);
        keys.push(b);
        assert(keys_view(keys@) =~= keys_view(before).push(b@));
        assert(attr_keys(v@).take(i + 1) =~= attr_keys(v@).take(i as int).push(attr_keys(v@)[i as int]));
        i = i + 1;
    }
    assert(attr_keys(v@).take(v@.len() as int) =~= attr_keys(v@));
    let ps = sorted_unique_positions(&keys);
    let ghost items = attr_items(v@);
    proof {
        reveal(attr_items);
    }
    out.append("StaticMap");
    out.append("(&[\n");
    let ghost start = out@;
    let mut k: usize = 0;
    assert(items.take(0) =~= Seq::<Seq<char>>::empty());
    while k < ps.len()
        invariant
            k <= ps@.len(),
            items == attr_items(v@),
            keys_view(keys@) == attr_keys(v@),
            items.len() == ps@.len(),
            forall|j: int| 0 <= j < ps@.len() ==> ps@[j] < v@.len(),
            forall|j: int|
                0 <= j < ps@.len() ==> items[j] == "("@ + debug_quoted(v@[ps@[j] as int].0@) + ", "@
                    + attribute_static(v@[ps@[j] as int].1) + ")"@,
            out@ == start + join_items(items.take(k as int)),
        decreases ps@.len() - k,
    {
        proof {
            lemma_join_step(items, k as int);
        }
        let ghost before = out@;
        if k > 0 {
            out.append(",\n");
        }
        let ghost mid = out@;
        let e = &v[ps[k]];
        out.append("(");
        out.append(str_debug(e.0.as_str()).as_str());
        out.append(", ");
        push_attribute_static(out, &e.1);
        out.append(")");
        assert(out@ =~= mid + items[k as int]);
        assert(out@ =~= start + join_items(items.take(k + 1)));
        k = k + 1;
    }
    assert(items.take(ps@.len() as int) =~= items);
    out.append("])\n");
    assert(out@ =~= old(out)@ + static_list("StaticMap"@, items));
}

/// Appends the element kind `em` as Rust source text
/// (`element_static`).
#[verifier::rlimit(80)]
pub fn push_element_static(out: &mut String, em: &ElementMeta)
    ensures
        final(out)@ == old(out)@ + element_static(*em),
{
    out.append("StaticElementMeta {\n");
    out.append("    tag_name: ");
    out.append(str_debug(em.tag_name.as_str()).as_str());
    out.append("\n");
    out.append(",\n    has_global_attributes: ");
    push_bool(out, em.has_global_attributes);
    out.append("\n");
    out.append(",\n    has_closing_tag: ");
    push_bool(out, em.has_closing_tag);
    out.append("\n");
    out.append(",\n    attributes: ");
    push_attr_map(out, &em.attributes);
    out.append(",\n    allows_child_text: ");
    push_bool(out, em.allows_child_text);
    out.append("\n");
    out.append(",\n    child_elements: ");
    push_string_set(out, &em.child_elements);
    out.append("}\n");
    proof {
        reveal(element_static);
    }
    assert(out@ =~= old(out)@ + element_static(*em));
}

/// Appends the element kinds `v` as a map literal keyed by name
/// (`elem_items`).
fn push_elem_map(out: &mut String, v: &Vec<(String, ElementMeta)>)
    ensures
        final(out)@ == old(out)@ + static_list("StaticMap"@, elem_items(v@)),
{
    let mut keys: Vec<Vec<u8>> = Vec::new();
    let mut i: usize = 0;
    while i < v.len()
        invariant
            i <= v@.len(),
            keys_view(keys@) == elem_keys(v@).take(i as int),
        decreases v@.len() - i,
    {
        let ghost before = keys@;
        let b = bytes_of(v[i].0.as_str());
        assert(b@ == elem_keys(v@)[i as int]);
        keys.push(b);
        assert(keys_view(keys@) =~= keys_view(before).push(b@));
        assert(elem_keys(v@).take(i + 1) =~= elem_keys(v@).take(i as int).push(elem_keys(v@)[i as int]));
        i = i + 1;
    }
    assert(elem_keys(v@).take(v@.len() as int) =~= elem_keys(v@));
    let ps = sorted_unique_positions(&keys);
    let ghost items = elem_items(v@);
    proof {
        reveal(elem_items);
    }
    out.append("StaticMap");
    out.append("(&[\n");
    let ghost start = out@;
    let mut k: usize = 0;
    assert(items.take(0) =~= Seq::<Seq<char>>::empty());
    while k < ps.len()
        invariant
            k <= ps@.len(),
            items == elem_items(v@),
            keys_view(keys@) == elem_keys(v@),
            items.len() == ps@.len(),
            forall|j: int| 0 <= j < ps@.len() ==> ps@[j] < v@.len(),
            forall|j: int|
                0 <= j < ps@.len() ==> items[j] == "("@ + debug_quoted(v@[ps@[j] as int].0@)
                    + ", "@ + element_static(v@[ps@[j] as int].1) + ")"@,
            out@ == start + join_items(items.take(k as int)),
        decreases ps@.len() - k,
    {
        proof {
            lemma_join_step(items, k as int);
        }
        if k > 0 {
            out.append(",\n");
        }
        let ghost mid = out@;
        let e = &v[ps[k]];
        out.append("(");
        out.append(str_debug(e.0.as_str()).as_str());
        out.append(", ");
        push_element_static(out, &e.1);
        out.append(")");
        assert(out@ =~= mid + items[k as int]);
        assert(out@ =~= start + join_items(items.take(k + 1)));
        k = k + 1;
    }
    assert(items.take(ps@.len() as int) =~= items);
    out.append("])\n");
    assert(out@ =~= old(out)@ + static_list("StaticMap"@, items));
}

/// The database `db` as Rust source text (`metadb_static`).
pub fn meta_db_static(db: &MetaDb) -> (r: String)
    ensures
        r@ == metadb_static(*db),
{
    let mut out = String::new();
    out.append("StaticMetaDb {\n");
    out.append("    global_attribute_names: ");
    push_string_set(&mut out, &db.global_attribute_names);
    out.append(",\n    elementmeta: ");
    push_elem_map(&mut out, &db.elementmeta);
    out.append("}\n");
    assert(out@ =~= metadb_static(*db));
    out
}

} // verus!
