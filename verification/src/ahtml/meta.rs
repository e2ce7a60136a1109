//! Element and attribute metadata used to check the DOM structure at
//! run time.

use vstd::prelude::*;
use vstd::string::*;

use super::types::{AttributeType, MergedElement};
pub use super::types::MergedCategory;

verus! {

/// What is known about an attribute (its name is the key it is
/// stored under).
#[derive(Debug)]
pub struct Attribute {
    pub description: String,
    pub ty: AttributeType,
}

/// What is known about an element kind.
#[derive(Debug)]
pub struct ElementMeta {
    pub tag_name: String,
    pub has_global_attributes: bool,
    pub has_closing_tag: bool,
    /// The element-specific attributes, by name.
    pub attributes: Vec<(String, Attribute)>,
    pub allows_child_text: bool,
    /// Tag names of the elements allowed as children.
    pub child_elements: Vec<String>,
}

/// All element kinds, each under the name it was read under, plus the
/// attribute names allowed on every element.
#[derive(Debug)]
pub struct MetaDb {
    pub global_attribute_names: Vec<String>,
    pub elementmeta: Vec<(String, ElementMeta)>,
}

/// Whether `names` holds `name`.
pub open spec fn names_contain(names: Seq<String>, name: Seq<char>) -> bool {
    exists|i: int| 0 <= i < names.len() && (#[trigger] names[i])@ == name
}

impl ElementMeta {
    /// Whether the element kind declares attribute `name` itself.
    pub open spec fn declares_attribute(&self, name: Seq<char>) -> bool {
        exists|i: int| 0 <= i < self.attributes@.len() && (#[trigger] self.attributes@[i]).0@ == name
    }

    /// Whether an element with tag `name` may be a child.
    pub open spec fn allows_child(&self, name: Seq<char>) -> bool {
        names_contain(self.child_elements@, name)
    }

    /// Looks up the element-specific attribute `name`.
    pub fn get_attribute(&self, name: &str) -> (r: Option<&Attribute>)
        ensures
            r.is_some() == self.declares_attribute(name@),
    {
        let mut i: usize = 0;
        while i < self.attributes.len()
            invariant
                0 <= i <= self.attributes@.len(),
                forall|j: int| 0 <= j < i ==> (#[trigger] self.attributes@[j]).0@ != name@,
            decreases self.attributes@.len() - i,
        {
            if str_eq(self.attributes[i].0.as_str(), name) {
                return Some(&self.attributes[i].1);
            }
            i += 1;
        }
        None
    }

    /// Whether an element with tag `name` may be a child.
    pub fn child_allowed(&self, name: &str) -> (r: bool)
        ensures
            r == self.allows_child(name@),
    {
        contains_name(&self.child_elements, name)
    }
}

impl MetaDb {
    /// Whether `name` may be used on any element.
    pub open spec fn is_global_attribute(&self, name: Seq<char>) -> bool {
        names_contain(self.global_attribute_names@, name)
    }

    pub fn global_attribute(&self, name: &str) -> (r: bool)
        ensures
            r == self.is_global_attribute(name@),
    {
        contains_name(&self.global_attribute_names, name)
    }
}

/// Whether `names` holds `name`.
pub fn contains_name(names: &Vec<String>, name: &str) -> (r: bool)
    ensures
        r == names_contain(names@, name@),
{
    let mut i: usize = 0;
    while i < names.len()
        invariant
            0 <= i <= names@.len(),
            forall|j: int| 0 <= j < i ==> (#[trigger] names@[j])@ != name@,
        decreases names@.len() - i,
    {
        if str_eq(names[i].as_str(), name) {
            return true;
        }
        i += 1;
    }
    false
}

/// Compares two strings by their characters.
pub fn str_eq(a: &str, b: &str) -> (r: bool)
    ensures
        r == (a@ == b@),
{
    let ab = a.as_bytes();
    let bb = b.as_bytes();
    proof {
        vstd::utf8::encode_utf8_decode_utf8(a@);
        vstd::utf8::encode_utf8_decode_utf8(b@);
    }
    if ab.len() != bb.len() {
        return false;
    }
    let mut i: usize = 0;
    while i < ab.len()
        invariant
            ab@ == a.spec_bytes(),
            bb@ == b.spec_bytes(),
            ab@.len() == bb@.len(),
            0 <= i <= ab@.len(),
            forall|j: int| 0 <= j < i ==> ab@[j] == bb@[j],
        decreases ab@.len() - i,
    {
        if ab[i] != bb[i] {
            return false;
        }
        i += 1;
    }
    assert(ab@ =~= bb@);
    true
}

/// The (struct name, tag name) pairs of the element descriptions.
pub open spec fn struct_table(ts: Seq<(String, MergedElement)>) -> Seq<(Seq<char>, Seq<char>)> {
    ts.map_values(|e: (String, MergedElement)| (e.1.struct_name@, e.0@))
}

/// The tag name of the last description with struct name `k`.
pub open spec fn lookup_last(table: Seq<(Seq<char>, Seq<char>)>, k: Seq<char>) -> Option<Seq<char>>
    decreases table.len(),
{
    if table.len() == 0 {
        None
    } else if table.last().0 == k {
        Some(table.last().1)
    } else {
        lookup_last(table.drop_last(), k)
    }
}

/// The tag name a permitted child (a struct name) stands for: the empty
/// name for "Text", `None` for an unknown one.
pub open spec fn resolve_child(table: Seq<(Seq<char>, Seq<char>)>, c: Seq<char>) -> Option<Seq<char>> {
    match lookup_last(table, c) {
        Some(t) => Some(t),
        None => if c == "Text"@ {
            Some(Seq::empty())
        } else {
            None
        },
    }
}

/// The tag names of the element children among `cs`, in order.
pub open spec fn child_tags(table: Seq<(Seq<char>, Seq<char>)>, cs: Seq<Seq<char>>) -> Seq<Seq<char>>
    decreases cs.len(),
{
    if cs.len() == 0 {
        Seq::empty()
    } else {
        let rest = child_tags(table, cs.drop_last());
        match resolve_child(table, cs.last()) {
            Some(t) => if t.len() == 0 {
                rest
            } else {
                rest.push(t)
            },
            None => rest,
        }
    }
}

/// The child names of an element are never empty (text is told apart
/// by `allows_child_text`), and each is the tag name that one of the
/// permitted children resolves to.
pub proof fn lemma_child_tags_named(table: Seq<(Seq<char>, Seq<char>)>, cs: Seq<Seq<char>>)
    ensures
        forall|k: int|
            0 <= k < child_tags(table, cs).len() ==> (#[trigger] child_tags(table, cs)[k]).len() > 0
                && exists|j: int|
                0 <= j < cs.len() && resolve_child(table, #[trigger] cs[j]) == Some(
                    child_tags(table, cs)[k],
                ),
    decreases cs.len(),
{
    if cs.len() > 0 {
        let init = cs.drop_last();
        lemma_child_tags_named(table, init);
        let rest = child_tags(table, init);
        let all = child_tags(table, cs);
        assert forall|k: int| 0 <= k < all.len() implies (#[trigger] all[k]).len() > 0 && exists|j: int|
            0 <= j < cs.len() && resolve_child(table, #[trigger] cs[j]) == Some(all[k]) by {
            if k < rest.len() {
                assert(all[k] == rest[k]);
                let j = choose|j: int| 0 <= j < init.len() && resolve_child(table, #[trigger] init[j]) == Some(rest[k]);
                assert(cs[j] == init[j]);
            } else {
                assert(cs[cs.len() - 1] == cs.last());
            }
        }
    }
}

pub open spec fn strings_view(v: Seq<String>) -> Seq<Seq<char>> {
    v.map_values(|s: String| s@)
}

/// A permitted child that no description names.
#[derive(Debug)]
pub struct UnknownChildElement {
    pub name: String,
}

/// The (struct name, tag name) pairs as views.
pub open spec fn pairs_view(t: Seq<(String, String)>) -> Seq<(Seq<char>, Seq<char>)> {
    t.map_values(|e: (String, String)| (e.0@, e.1@))
}

/// The tag name for struct name `k` (the last pair with it).
fn find_tag(table: &Vec<(String, String)>, k: &str) -> (r: Option<String>)
    ensures
        match lookup_last(pairs_view(table@), k@) {
            Some(t) => r matches Some(s) && s@ == t,
            None => r is None,
        },
{
    let mut i = table.len();
    let ghost tv = pairs_view(table@);
    assert(tv.take(i as int) =~= tv);
    while i > 0
        invariant
            i <= table@.len(),
            tv == pairs_view(table@),
            lookup_last(tv, k@) == lookup_last(tv.take(i as int), k@),
        decreases i,
    {
        proof {
            assert(tv.take(i as int).drop_last() =~= tv.take(i - 1));
            assert(tv.take(i as int).last() == tv[i - 1]);
        }
        if str_eq(table[i - 1].0.as_str(), k) {
            let t = table[i - 1].1.clone();
            return Some(t);
        }
        i = i - 1;
    }
    None
}

/// `em` is the element meta for the description `v`: fields taken
/// over, attributes in order, children resolved by struct name in
/// `table` ("Text" allowing text, the others as tag names in order).
pub open spec fn converted(table: Seq<(Seq<char>, Seq<char>)>, v: MergedElement, em: ElementMeta) -> bool {
    &&& em.tag_name == v.tag_name
    &&& em.has_global_attributes == v.has_global_attributes
    &&& em.has_closing_tag == v.has_closing_tag
    &&& em.attributes@.len() == v.attributes@.len()
    &&& forall|j: int|
        0 <= j < v.attributes@.len() ==> (#[trigger] em.attributes@[j]).0 == v.attributes@[j].name
            && em.attributes@[j].1.description == v.attributes@[j].description
            && em.attributes@[j].1.ty == v.attributes@[j].ty
    &&& em.allows_child_text == exists|j: int|
        0 <= j < v.permitted_child_elements@.len() && resolve_child(
            table,
            #[trigger] v.permitted_child_elements@[j]@,
        ) == Some(Seq::<char>::empty())
    &&& strings_view(em.child_elements@) == child_tags(table, strings_view(v.permitted_child_elements@))
}

/// Some permitted child of `v` resolves to no element.
pub open spec fn has_unknown_child(table: Seq<(Seq<char>, Seq<char>)>, v: MergedElement) -> bool {
    exists|j: int|
        0 <= j < v.permitted_child_elements@.len() && resolve_child(
            table,
            #[trigger] v.permitted_child_elements@[j]@,
        ) is None
}

/// The element meta for a description, with its children resolved by
/// struct name in `table`.
fn element_meta(table: &Vec<(String, String)>, v: MergedElement) -> (r: Result<
    ElementMeta,
    UnknownChildElement,
>)
    ensures
        match r {
            Ok(em) => converted(pairs_view(table@), v, em) && !has_unknown_child(pairs_view(table@), v),
            Err(e) => has_unknown_child(pairs_view(table@), v) && exists|j: int|
                0 <= j < v.permitted_child_elements@.len() && (#[trigger] v.permitted_child_elements@[j])@
                    == e.name@ && resolve_child(pairs_view(table@), e.name@) is None,
        },
{
    let ghost tv = pairs_view(table@);
    let ghost atts0 = v.attributes@;
    let ghost pce = v.permitted_child_elements@;
    let MergedElement {
        tag_name,
        struct_name: _,
        submodule_name: _,
        mdn_link: _,
        has_global_attributes,
        has_closing_tag,
        attributes,
        dom_interface: _,
        content_categories: _,
        permitted_child_elements,
    } = v;
    let mut attrs: Vec<(String, Attribute)> = Vec::new();
    let mut rest_atts = attributes;
    while rest_atts.len() > 0
        invariant
            attrs@.len() + rest_atts@.len() == atts0.len(),
            rest_atts@ == atts0.skip(attrs@.len() as int),
            forall|j: int|
                0 <= j < attrs@.len() ==> (#[trigger] attrs@[j]).0 == atts0[j].name
                    && attrs@[j].1.description == atts0[j].description && attrs@[j].1.ty
                    == atts0[j].ty,
        decreases rest_atts@.len(),
    {
        let ghost before = rest_atts@;
        let a = rest_atts.remove(0);
        proof {
            assert(a == atts0[attrs@.len() as int]);
            assert(rest_atts@ =~= atts0.skip((attrs@.len() + 1) as int));
        }
        let crate::ahtml::types::Attribute { name, description, field_name: _, ty } = a;
        attrs.push((name, Attribute { description, ty }));
    }
    let mut allows_child_text = false;
    let mut child_elements: Vec<String> = Vec::new();
    let mut i: usize = 0;
    let ghost cs = strings_view(permitted_child_elements@);
    while i < permitted_child_elements.len()
        invariant
            i <= permitted_child_elements@.len(),
            permitted_child_elements@ == pce,
            pce == v.permitted_child_elements@,
            tv == pairs_view(table@),
            cs == strings_view(permitted_child_elements@),
            strings_view(child_elements@) == child_tags(tv, cs.take(i as int)),
            allows_child_text == exists|j: int|
                0 <= j < i && resolve_child(tv, #[trigger] permitted_child_elements@[j]@)
                    == Some(Seq::<char>::empty()),
            forall|j: int| 0 <= j < i ==> resolve_child(tv, #[trigger] permitted_child_elements@[j]@) is Some,
        decreases permitted_child_elements@.len() - i,
    {
        let c = permitted_child_elements[i].as_str();
        proof {
            assert(cs.take(i + 1).drop_last() =~= cs.take(i as int));
            assert(cs.take(i + 1).last() == c@);
        }
        let ghost before = child_elements@;
        match find_tag(table, c) {
            Some(t) => {
                if t.as_str().as_bytes().len() == 0 {
                    proof {
                        vstd::utf8::encode_utf8_decode_utf8(t@);
                        assert(vstd::utf8::encode_utf8(t@) =~= Seq::<u8>::empty());
                    }
                    allows_child_text = true;
                } else {
                    proof {
                        if t@.len() == 0 {
                            assert(vstd::utf8::encode_utf8(t@) =~= Seq::<u8>::empty());
                        }
                    }
                    child_elements.push(t);
                    proof {
                        assert(strings_view(child_elements@) =~= strings_view(before).push(t@));
                    }
                }
            },
            None => {
                if str_eq(c, "Text") {
                    allows_child_text = true;
                } else {
                    let e = UnknownChildElement { name: c.to_owned() };
                    assert(pce[i as int]@ == e.name@);
                    assert(resolve_child(tv, e.name@) is None);
                    assert(resolve_child(tv, pce[i as int]@) is None);
                    return Err(e);
                }
            },
        }
        i = i + 1;
    }
    proof {
        assert(cs.take(i as int) =~= cs);
    }
    Ok(
        ElementMeta {
            tag_name,
            has_global_attributes,
            has_closing_tag,
            attributes: attrs,
            allows_child_text,
            child_elements,
        },
    )
}

/// The attribute names allowed on every element: the global
/// attributes, then the event handler attributes.
pub open spec fn global_attribute_names_spec() -> Seq<Seq<char>> {
    seq![
        "accesskey"@,
        "autocapitalize"@,
        "autofocus"@,
        "class"@,
        "contenteditable"@,
        "dir"@,
        "draggable"@,
        "enterkeyhint"@,
        "exportparts"@,
        "hidden"@,
        "id"@,
        "inert"@,
        "inputmode"@,
        "is"@,
        "itemid"@,
        "itemprop"@,
        "itemref"@,
        "itemscope"@,
        "itemtype"@,
        "lang"@,
        "nonce"@,
        "part"@,
        "popover"@,
        "role"@,
        "slot"@,
        "spellcheck"@,
        "style"@,
        "tabindex"@,
        "title"@,
        "translate"@,
        "virtualkeyboardpolicy"@,
        "role"@,
        "onabort"@,
        "onautocomplete"@,
        "onautocompleteerror"@,
        "onblur"@,
        "oncancel"@,
        "oncanplay"@,
        "oncanplaythrough"@,
        "onchange"@,
        "onclick"@,
        "onclose"@,
        "oncontextmenu"@,
        "oncuechange"@,
        "ondblclick"@,
        "ondrag"@,
        "ondragend"@,
        "ondragenter"@,
        "ondragleave"@,
        "ondragover"@,
        "ondragstart"@,
        "ondrop"@,
        "ondurationchange"@,
        "onemptied"@,
        "onended"@,
        "onerror"@,
        "onfocus"@,
        "oninput"@,
        "oninvalid"@,
        "onkeydown"@,
        "onkeypress"@,
        "onkeyup"@,
        "onload"@,
        "onloadeddata"@,
        "onloadedmetadata"@,
        "onloadstart"@,
        "onmousedown"@,
        "onmouseenter"@,
        "onmouseleave"@,
        "onmousemove"@,
        "onmouseout"@,
        "onmouseover"@,
        "onmouseup"@,
        "onmousewheel"@,
        "onpause"@,
        "onplay"@,
        "onplaying"@,
        "onprogress"@,
        "onratechange"@,
        "onreset"@,
        "onresize"@,
        "onscroll"@,
        "onseeked"@,
        "onseeking"@,
        "onselect"@,
        "onshow"@,
        "onsort"@,
        "onstalled"@,
        "onsubmit"@,
        "onsuspend"@,
        "ontimeupdate"@,
        "ontoggle"@,
        "onvolumechange"@,
        "onwaiting"@,
    ]
}

fn global_attribute_name_strs() -> (r: &'static [&'static str; 94])
    ensures
        forall|i: int| 0 <= i < 94 ==> (#[trigger] r@[i])@ == global_attribute_names_spec()[i],
{
    &[
        "accesskey",
        "autocapitalize",
        "autofocus",
        "class",
        "contenteditable",
        "dir",
        "draggable",
        "enterkeyhint",
        "exportparts",
        "hidden",
        "id",
        "inert",
        "inputmode",
        "is",
        "itemid",
        "itemprop",
        "itemref",
        "itemscope",
        "itemtype",
        "lang",
        "nonce",
        "part",
        "popover",
        "role",
        "slot",
        "spellcheck",
        "style",
        "tabindex",
        "title",
        "translate",
        "virtualkeyboardpolicy",
        "role",
        "onabort",
        "onautocomplete",
        "onautocompleteerror",
        "onblur",
        "oncancel",
        "oncanplay",
        "oncanplaythrough",
        "onchange",
        "onclick",
        "onclose",
        "oncontextmenu",
        "oncuechange",
        "ondblclick",
        "ondrag",
        "ondragend",
        "ondragenter",
        "ondragleave",
        "ondragover",
        "ondragstart",
        "ondrop",
        "ondurationchange",
        "onemptied",
        "onended",
        "onerror",
        "onfocus",
        "oninput",
        "oninvalid",
        "onkeydown",
        "onkeypress",
        "onkeyup",
        "onload",
        "onloadeddata",
        "onloadedmetadata",
        "onloadstart",
        "onmousedown",
        "onmouseenter",
        "onmouseleave",
        "onmousemove",
        "onmouseout",
        "onmouseover",
        "onmouseup",
        "onmousewheel",
        "onpause",
        "onplay",
        "onplaying",
        "onprogress",
        "onratechange",
        "onreset",
        "onresize",
        "onscroll",
        "onseeked",
        "onseeking",
        "onselect",
        "onshow",
        "onsort",
        "onstalled",
        "onsubmit",
        "onsuspend",
        "ontimeupdate",
        "ontoggle",
        "onvolumechange",
        "onwaiting",
    ]
}

/// The attribute names allowed on every element.
pub fn global_attribute_names() -> (r: Vec<String>)
    ensures
        strings_view(r@) == global_attribute_names_spec(),
{
    let names = global_attribute_name_strs();
    let mut out: Vec<String> = Vec::new();
    let mut i: usize = 0;
    while i < 94
        invariant
            i <= 94,
            forall|k: int| 0 <= k < 94 ==> (#[trigger] names@[k])@ == global_attribute_names_spec()[k],
            strings_view(out@) == global_attribute_names_spec().take(i as int),
        decreases 94 - i,
    {
        let ghost before = out@;
        let n = names[i].to_owned();
        proof {
            assert(names@[i as int]@ == global_attribute_names_spec()[i as int]);
        }
        out.push(n);
        proof {
            assert(strings_view(out@) =~= strings_view(before).push(n@));
            assert(global_attribute_names_spec().take(i + 1) =~= global_attribute_names_spec().take(i as int).push(global_attribute_names_spec()[i as int]));
        }
        i = i + 1;
    }
    proof {
        assert(global_attribute_names_spec().take(94) =~= global_attribute_names_spec());
    }
    out
}

/// The element descriptions `ts` (each with its tag name) as a
/// metadata database, with the standard global attribute names; an
/// error names a permitted child that no description has.
pub fn build_meta_db(ts: Vec<(String, MergedElement)>) -> (r: Result<MetaDb, UnknownChildElement>)
    ensures
        match r {
            Ok(db) => {
                &&& db.elementmeta@.len() == ts@.len()
                &&& forall|i: int|
                    0 <= i < ts@.len() ==> #[trigger] db.elementmeta@[i].0@ == ts@[i].0@ && converted(
                        struct_table(ts@),
                        ts@[i].1,
                        db.elementmeta@[i].1,
                    )
                &&& strings_view(db.global_attribute_names@) == global_attribute_names_spec()
            },
            Err(e) => exists|i: int|
                0 <= i < ts@.len() && has_unknown_child(struct_table(ts@), #[trigger] ts@[i].1)
                    && resolve_child(struct_table(ts@), e.name@) is None,
        },
{
    let ghost ts0 = ts@;
    let mut table: Vec<(String, String)> = Vec::new();
    let mut i: usize = 0;
    while i < ts.len()
        invariant
            i <= ts@.len(),
            ts@ == ts0,
            pairs_view(table@) == struct_table(ts0.take(i as int)),
        decreases ts@.len() - i,
    {
        let sn = ts[i].1.struct_name.clone();
        let tn = ts[i].0.clone();
        let ghost before = table@;
        table.push((sn, tn));
        proof {
            assert(ts0.take(i + 1) =~= ts0.take(i as int).push(ts0[i as int]));
            assert(struct_table(ts0.take(i + 1)) =~= struct_table(ts0.take(i as int)).push(
                (ts0[i as int].1.struct_name@, ts0[i as int].0@),
            ));
            assert(pairs_view(table@) =~= pairs_view(before).push((sn@, tn@)));
        }
        i = i + 1;
    }
    proof {
        assert(ts0.take(i as int) =~= ts0);
    }
    let ghost tv = pairs_view(table@);
    let mut rest = ts;
    let mut elementmeta: Vec<(String, ElementMeta)> = Vec::new();
    while rest.len() > 0
        invariant
            tv == pairs_view(table@),
            tv == struct_table(ts0),
            ts0 == ts@,
            elementmeta@.len() + rest@.len() == ts0.len(),
            rest@ == ts0.skip(elementmeta@.len() as int),
            forall|j: int|
                0 <= j < elementmeta@.len() ==> #[trigger] elementmeta@[j].0@ == ts0[j].0@
                    && converted(tv, ts0[j].1, elementmeta@[j].1),
        decreases rest@.len(),
    {
        let ghost k = elementmeta@.len();
        let (name, v) = rest.remove(0);
        proof {
            assert(name == ts0[k as int].0);
            assert(v == ts0[k as int].1);
            assert(rest@ =~= ts0.skip((k + 1) as int));
        }
        match element_meta(&table, v) {
            Ok(em) => {
                elementmeta.push((name, em));
            },
            Err(e) => {
                assert(has_unknown_child(tv, ts0[k as int].1));
                return Err(e);
            },
        }
    }
    Ok(MetaDb { global_attribute_names: global_attribute_names(), elementmeta })
}

} // verus!
