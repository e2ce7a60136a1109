//! Serialisation of stored nodes to HTML text and to plain text.

use vstd::prelude::*;

use super::allocator::{AhtmlError, AId, ASlice, Element, HtmlAllocator, Node, SerHtmlFrag};

verus! {

/// Byte order mark, put in front of whole documents.
pub const BOM: &'static str = "\u{FEFF}";

pub const DOCTYPE: &'static str = "<!DOCTYPE html>\n";

/// What `c` turns into in escaped HTML text.
pub open spec fn escape_char(c: char) -> Seq<char> {
    if c == '&' {
        "&amp;"@
    } else if c == '<' {
        "&lt;"@
    } else if c == '>' {
        "&gt;"@
    } else if c == '"' {
        "&quot;"@
    } else if c == '\'' {
        "&#39;"@
    } else {
        seq![c]
    }
}

/// `s` with the HTML special characters escaped.
pub open spec fn escape_spec(s: Seq<char>) -> Seq<char>
    decreases s.len(),
{
    if s.len() == 0 {
        Seq::empty()
    } else {
        escape_spec(s.drop_last()) + escape_char(s.last())
    }
}

/// No character of `t` is one that HTML markup is made of: '<', '>',
/// '"' or '\''.
pub open spec fn markup_free(t: Seq<char>) -> bool {
    forall|i: int| 0 <= i < t.len() ==> #[trigger] t[i] != '<' && t[i] != '>' && t[i] != '"' && t[i] != '\''
}

/// Escaped text holds no markup characters: it can neither open a
/// tag nor end an attribute value.
pub proof fn lemma_escape_markup_free(s: Seq<char>)
    ensures
        markup_free(escape_spec(s)),
    decreases s.len(),
{
    if s.len() > 0 {
        lemma_escape_markup_free(s.drop_last());
        reveal_strlit("&amp;");
        reveal_strlit("&lt;");
        reveal_strlit("&gt;");
        reveal_strlit("&quot;");
        reveal_strlit("&#39;");
        let a = escape_spec(s.drop_last());
        let b = escape_char(s.last());
        assert(markup_free(b));
        assert forall|i: int| 0 <= i < (a + b).len() implies #[trigger] (a + b)[i] != '<' && (a + b)[i]
            != '>' && (a + b)[i] != '"' && (a + b)[i] != '\'' by {
            if i < a.len() {
                assert((a + b)[i] == a[i]);
            } else {
                assert((a + b)[i] == b[i - a.len()]);
            }
        }
    }
}

/// The attribute at id list position `pos`, as `key="value"`.
pub open spec fn render_att(html: &HtmlAllocator, pos: int) -> Option<Seq<char>> {
    if 0 <= pos < html.ids_view().len() && html.ids_view()[pos] < html.atts_view().len()
        && html.atts_view()[html.ids_view()[pos] as int] is Some {
        let kv = html.atts_view()[html.ids_view()[pos] as int]->0;
        Some(kv.0@ + "=\""@ + escape_spec(kv.1@) + "\""@)
    } else {
        None
    }
}

/// The first `k` attributes from position `start`, each after a space.
pub open spec fn render_atts(html: &HtmlAllocator, start: int, k: nat) -> Option<Seq<char>>
    decreases k,
{
    if k == 0 {
        Some(Seq::empty())
    } else {
        match render_atts(html, start, (k - 1) as nat) {
            None => None,
            Some(p) => match render_att(html, start + k - 1) {
                None => None,
                Some(a) => Some(p + " "@ + a),
            },
        }
    }
}

/// The HTML for node `i`, nesting elements at most `fuel` deep (`None`
/// where ids do not resolve or the nesting is deeper).
pub open spec fn render_node(html: &HtmlAllocator, i: int, fuel: nat) -> Option<Seq<char>>
    decreases fuel, 0nat, 0nat,
{
    if fuel == 0 || !(0 <= i < html.nodes_view().len()) || html.nodes_view()[i] is None {
        None
    } else {
        match html.nodes_view()[i]->0 {
            Node::Element(e) => {
                if e.attr.region() != html.region() || e.body.region() != html.region() {
                    None
                } else {
                    match render_atts(html, e.attr.sstart() as int, e.attr.slen() as nat) {
                        None => None,
                        Some(a) => match render_body(
                            html,
                            e.body.sstart() as int,
                            e.body.slen() as nat,
                            (fuel - 1) as nat,
                        ) {
                            None => None,
                            Some(b) => Some(
                                "<"@ + e.meta.tag_name@ + a + ">"@ + b + (if e.meta.has_closing_tag {
                                    "</"@ + e.meta.tag_name@ + ">"@
                                } else {
                                    Seq::empty()
                                }),
                            ),
                        },
                    }
                }
            },
            Node::String(s) => Some(escape_spec(s@)),
            Node::Preserialized(p) => Some(p.frag_str()),
            Node::Empty => Some(Seq::empty()),
        }
    }
}

/// The HTML for the first `k` nodes listed from id list position
/// `start`.
pub open spec fn render_body(html: &HtmlAllocator, start: int, k: nat, fuel: nat) -> Option<
    Seq<char>,
>
    decreases fuel, 1nat, k,
{
    if k == 0 {
        Some(Seq::empty())
    } else {
        match render_body(html, start, (k - 1) as nat, fuel) {
            None => None,
            Some(p) => if 0 <= start + k - 1 < html.ids_view().len() {
                match render_node(html, html.ids_view()[start + k - 1] as int, fuel) {
                    None => None,
                    Some(n) => Some(p + n),
                }
            } else {
                None
            },
        }
    }
}

/// The HTML for node `id`; `None` where it cannot be serialized
/// (an id that does not resolve, or elements containing themselves).
pub open spec fn html_of(html: &HtmlAllocator, id: AId<Node>) -> Option<Seq<char>> {
    if id.region() == html.region() {
        render_node(html, id.bare() as int, (html.nodes_view().len() + 1) as nat)
    } else {
        None
    }
}

/// The HTML for the nodes of slice `s`.
pub open spec fn html_of_slice(html: &HtmlAllocator, s: ASlice<Node>) -> Option<Seq<char>> {
    if s.region() == html.region() {
        render_body(html, s.sstart() as int, s.slen() as nat, (html.nodes_view().len() + 1) as nat)
    } else {
        None
    }
}

/// More nesting room does not change what a node renders to.
pub proof fn lemma_render_fuel(html: &HtmlAllocator, i: int, f1: nat, f2: nat)
    requires
        f1 <= f2,
        render_node(html, i, f1) is Some,
    ensures
        render_node(html, i, f2) == render_node(html, i, f1),
    decreases f1, 0nat, 0nat,
{
    if let Node::Element(e) = html.nodes_view()[i]->0 {
        lemma_render_body_fuel(
            html,
            e.body.sstart() as int,
            e.body.slen() as nat,
            (f1 - 1) as nat,
            (f2 - 1) as nat,
        );
    }
}

/// More nesting room does not change what a body renders to.
pub proof fn lemma_render_body_fuel(html: &HtmlAllocator, start: int, k: nat, f1: nat, f2: nat)
    requires
        f1 <= f2,
        render_body(html, start, k, f1) is Some,
    ensures
        render_body(html, start, k, f2) == render_body(html, start, k, f1),
    decreases f1, 1nat, k,
{
    if k > 0 {
        lemma_render_body_fuel(html, start, (k - 1) as nat, f1, f2);
        lemma_render_fuel(html, html.ids_view()[start + k - 1] as int, f1, f2);
    }
}

/// Node `i` renders with nesting room for its own index plus one (so
/// the nodes it contains come before it).
pub open spec fn renders(html: &HtmlAllocator, i: int) -> bool {
    render_node(html, i, (i + 1) as nat) is Some
}

/// Every position from `start` on (`k` of them) holds a stored
/// attribute.
proof fn lemma_atts_some(html: &HtmlAllocator, start: int, k: nat)
    requires
        forall|p: int|
            start <= p < start + k ==> 0 <= p < html.ids_view().len() && #[trigger] html.ids_view()[p]
                < html.atts_view().len() && html.atts_view()[html.ids_view()[p] as int] is Some,
    ensures
        render_atts(html, start, k) is Some,
    decreases k,
{
    if k > 0 {
        lemma_atts_some(html, start, (k - 1) as nat);
        assert(render_att(html, start + k - 1) is Some);
    }
}

proof fn lemma_body_some(html: &HtmlAllocator, start: int, k: nat, fuel: nat)
    requires
        forall|p: int|
            start <= p < start + k ==> 0 <= p < html.ids_view().len() && render_node(
                html,
                #[trigger] html.ids_view()[p] as int,
                fuel,
            ) is Some,
    ensures
        render_body(html, start, k, fuel) is Some,
    decreases k,
{
    if k > 0 {
        lemma_body_some(html, start, (k - 1) as nat, fuel);
        assert(render_node(html, html.ids_view()[start + k - 1] as int, fuel) is Some);
    }
}

/// A stored text, preserialized or empty node renders.
pub proof fn lemma_leaf_renders(html: &HtmlAllocator, i: int)
    requires
        0 <= i < html.nodes_view().len(),
        html.nodes_view()[i] matches Some(n) && !(n is Element),
    ensures
        renders(html, i),
{
}

/// A stored element renders when it and its attribute and body slices
/// belong to `html`, its attributes are stored, and each body node
/// comes before it and renders.
pub proof fn lemma_element_renders(html: &HtmlAllocator, i: int)
    requires
        0 <= i < html.nodes_view().len(),
        html.nodes_view()[i] matches Some(Node::Element(e)) && {
            &&& e.attr.region() == html.region() && e.body.region() == html.region()
            &&& e.attr.send() <= html.ids_view().len() && e.body.send() <= html.ids_view().len()
            &&& forall|p: int|
                e.attr.sstart() <= p < e.attr.send() ==> #[trigger] html.ids_view()[p]
                    < html.atts_view().len() && html.atts_view()[html.ids_view()[p] as int] is Some
            &&& forall|p: int|
                e.body.sstart() <= p < e.body.send() ==> #[trigger] html.ids_view()[p] < i && renders(
                    html,
                    html.ids_view()[p] as int,
                )
        },
    ensures
        renders(html, i),
{
    let e = html.nodes_view()[i]->0->Element_0;
    lemma_atts_some(html, e.attr.sstart() as int, e.attr.slen() as nat);
    assert forall|p: int| e.body.sstart() <= p < e.body.send() implies 0 <= p < html.ids_view().len()
        && render_node(html, #[trigger] html.ids_view()[p] as int, i as nat) is Some by {
        let j = html.ids_view()[p] as int;
        assert(renders(html, j));
        lemma_render_fuel(html, j, (j + 1) as nat, i as nat);
    }
    lemma_body_some(html, e.body.sstart() as int, e.body.slen() as nat, i as nat);
}

/// A node that renders can be serialized: `to_html_string` and
/// `preserialize` accept it.
pub proof fn lemma_renders_html_of(html: &HtmlAllocator, id: AId<Node>)
    requires
        id.region() == html.region(),
        renders(html, id.bare() as int),
    ensures
        html_of(html, id) is Some,
{
    lemma_render_fuel(html, id.bare() as int, (id.bare() + 1) as nat, (html.nodes_view().len() + 1) as nat);
}

proof fn lemma_atts_prefix(html: &HtmlAllocator, start: int, k: nat, i: nat)
    requires
        i <= k,
        render_atts(html, start, k) is Some,
    ensures
        render_atts(html, start, i) is Some,
    decreases k,
{
    if i < k {
        lemma_atts_prefix(html, start, (k - 1) as nat, i);
    }
}

proof fn lemma_body_prefix(html: &HtmlAllocator, start: int, k: nat, i: nat, fuel: nat)
    requires
        i <= k,
        render_body(html, start, k, fuel) is Some,
    ensures
        render_body(html, start, i, fuel) is Some,
    decreases k,
{
    if i < k {
        lemma_body_prefix(html, start, (k - 1) as nat, i, fuel);
    }
}

/// The plain text of node `i`, ignoring markup, nesting elements at
/// most `fuel` deep: `Some(Err(()))` where preserialized HTML is met
/// first, `None` where ids do not resolve or the nesting is deeper.
pub open spec fn plain_node(html: &HtmlAllocator, i: int, fuel: nat) -> Option<Result<Seq<char>, ()>>
    decreases fuel, 0nat, 0nat,
{
    if fuel == 0 || !(0 <= i < html.nodes_view().len()) || html.nodes_view()[i] is None {
        None
    } else {
        match html.nodes_view()[i]->0 {
            Node::Element(e) => if e.body.region() != html.region() {
                None
            } else {
                plain_body(html, e.body.sstart() as int, e.body.slen() as nat, (fuel - 1) as nat)
            },
            Node::String(s) => Some(Ok(s@)),
            Node::Preserialized(_) => Some(Err(())),
            Node::Empty => Some(Ok(Seq::empty())),
        }
    }
}

/// The plain text of the first `k` nodes listed from position `start`.
pub open spec fn plain_body(html: &HtmlAllocator, start: int, k: nat, fuel: nat) -> Option<
    Result<Seq<char>, ()>,
>
    decreases fuel, 1nat, k,
{
    if k == 0 {
        Some(Ok(Seq::empty()))
    } else {
        match plain_body(html, start, (k - 1) as nat, fuel) {
            None => None,
            Some(Err(())) => Some(Err(())),
            Some(Ok(p)) => if 0 <= start + k - 1 < html.ids_view().len() {
                match plain_node(html, html.ids_view()[start + k - 1] as int, fuel) {
                    None => None,
                    Some(Err(())) => Some(Err(())),
                    Some(Ok(n)) => Some(Ok(p + n)),
                }
            } else {
                None
            },
        }
    }
}

/// The plain text of node `id` (see `plain_node`).
pub open spec fn plain_of(html: &HtmlAllocator, id: AId<Node>) -> Option<Result<Seq<char>, ()>> {
    if id.region() == html.region() {
        plain_node(html, id.bare() as int, (html.nodes_view().len() + 1) as nat)
    } else {
        None
    }
}

proof fn lemma_plain_err_stable(html: &HtmlAllocator, start: int, k1: nat, k2: nat, fuel: nat)
    requires
        k1 <= k2,
        plain_body(html, start, k1, fuel) == Some(Err::<Seq<char>, ()>(())),
    ensures
        plain_body(html, start, k2, fuel) == Some(Err::<Seq<char>, ()>(())),
    decreases k2,
{
    if k2 > k1 {
        lemma_plain_err_stable(html, start, k1, (k2 - 1) as nat, fuel);
    }
}

proof fn lemma_plain_some_prefix(html: &HtmlAllocator, start: int, k: nat, i: nat, fuel: nat)
    requires
        i <= k,
        plain_body(html, start, k, fuel) is Some,
    ensures
        plain_body(html, start, i, fuel) is Some,
    decreases k,
{
    if i < k {
        lemma_plain_some_prefix(html, start, (k - 1) as nat, i, fuel);
    }
}

/// `String::push`: appends the character `c`.
#[verifier::external_body]
pub(crate) fn string_push(s: &mut String, c: char)
    ensures
        final(s)@ == old(s)@.push(c),
{
    s.push(c)
}

/// Appends `s`, HTML-escaped, to `out`.
pub fn push_escaped(out: &mut String, s: &str)
    ensures
        final(out)@ == old(out)@ + escape_spec(s@),
{
    for c in it: s.chars()
        invariant
            it.seq() == s@,
            out@ == old(out)@ + escape_spec(s@.take(it.index() as int)),
    {
        assert(s@.take(it.index() + 1).drop_last() =~= s@.take(it.index() as int));
        if c == '&' {
            out.append("&amp;");
        } else if c == '<' {
            out.append("&lt;");
        } else if c == '>' {
            out.append("&gt;");
        } else if c == '"' {
            out.append("&quot;");
        } else if c == '\'' {
            out.append("&#39;");
        } else {
            string_push(out, c);
        }
        assert(out@ == old(out)@ + escape_spec(s@.take(it.index() + 1)));
    }
    assert(s@.take(s@.len() as int) =~= s@);
}

impl HtmlAllocator {
    /// `s` with `&`, `<`, `>`, `"` and `'` replaced by HTML entities.
    pub fn html_escape(&self, s: &str) -> (r: String)
        ensures
            r@ == escape_spec(s@),
    {
        let mut out = String::new();
        push_escaped(&mut out, s);
        out
    }

    fn print_att(&self, pos: u32, out: &mut String)
        requires
            render_att(self, pos as int) is Some,
        ensures
            final(out)@ == old(out)@ + render_att(self, pos as int)->0,
    {
        let aid = self.get_id::<(String, String)>(pos).unwrap();
        let kv = self.get_att(aid).unwrap();
        out.append(kv.0.as_str());
        out.append("=\"");
        push_escaped(out, kv.1.as_str());
        out.append("\"");
    }

    fn print_node(&self, i: u32, fuel: usize, out: &mut String)
        requires
            self.wf(),
            render_node(self, i as int, fuel as nat) is Some,
        ensures
            final(out)@ == old(out)@ + render_node(self, i as int, fuel as nat)->0,
        decreases fuel, 0nat, 0nat,
    {
        let node = self.get_node(AId::new(self.regionid(), i)).unwrap();
        match node {
            Node::Element(e) => {
                let ghost a = render_atts(self, e.attr.sstart() as int, e.attr.slen() as nat)->0;
                out.append("<");
                out.append(e.meta.tag_name.as_str());
                let n = e.attr.len();
                let start = e.attr.start_pos();
                let mut k: u32 = 0;
                while k < n
                    invariant
                        self.wf(),
                        n == e.attr.slen(),
                        start == e.attr.sstart(),
                        0 <= k <= n,
                        render_atts(self, start as int, n as nat) is Some,
                        render_atts(self, start as int, k as nat) is Some,
                        out@ == old(out)@ + "<"@ + e.meta.tag_name@ + render_atts(
                            self,
                            start as int,
                            k as nat,
                        )->0,
                    decreases n - k,
                {
                    proof {
                        lemma_atts_prefix(self, start as int, n as nat, (k + 1) as nat);
                        assert(render_att(self, start + k) is Some);
                    }
                    out.append(" ");
                    self.print_att(start + k, out);
                    k = k + 1;
                }
                out.append(">");
                self.print_body(e.body, fuel - 1, out);
                if e.meta.has_closing_tag {
                    out.append("</");
                    out.append(e.meta.tag_name.as_str());
                    out.append(">");
                }
            },
            Node::String(s) => {
                push_escaped(out, s.as_str());
            },
            Node::Preserialized(p) => {
                out.append(p.as_str());
            },
            Node::Empty => {},
        }
    }

    fn print_body(&self, body: ASlice<Node>, fuel: usize, out: &mut String)
        requires
            self.wf(),
            render_body(self, body.sstart() as int, body.slen() as nat, fuel as nat) is Some,
        ensures
            final(out)@ == old(out)@ + render_body(
                self,
                body.sstart() as int,
                body.slen() as nat,
                fuel as nat,
            )->0,
        decreases fuel, 1nat, body.slen(),
    {
        let n = body.len();
        let start = body.start_pos();
        let mut k: u32 = 0;
        while k < n
            invariant
                self.wf(),
                n == body.slen(),
                start == body.sstart(),
                0 <= k <= n,
                render_body(self, start as int, n as nat, fuel as nat) is Some,
                render_body(self, start as int, k as nat, fuel as nat) is Some,
                out@ == old(out)@ + render_body(self, start as int, k as nat, fuel as nat)->0,
            decreases n - k,
        {
            proof {
                lemma_body_prefix(self, start as int, n as nat, (k + 1) as nat, fuel as nat);
            }
            let id = self.get_id::<Node>(start + k).unwrap();
            self.print_node(id.bare_id(), fuel, out);
            k = k + 1;
        }
    }

    /// Appends the HTML for `id_` to `out`.
    pub fn print_html_fragment(&self, id_: AId<Node>, out: &mut String)
        requires
            self.wf(),
            html_of(self, id_) is Some,
        ensures
            final(out)@ == old(out)@ + html_of(self, id_)->0,
    {
        self.print_node(id_.bare_id(), self.nodes_len() + 1, out);
    }

    /// Appends the byte order mark, the doctype and the HTML for `id_`.
    pub fn print_html_document(&self, id_: AId<Node>, out: &mut String)
        requires
            self.wf(),
            html_of(self, id_) is Some,
        ensures
            final(out)@ == old(out)@ + BOM@ + DOCTYPE@ + html_of(self, id_)->0,
    {
        out.append(BOM);
        out.append(DOCTYPE);
        self.print_html_fragment(id_, out);
    }

    /// The HTML for `id`, as a whole document if `want_doctype`.
    pub fn to_html_string(&self, id: AId<Node>, want_doctype: bool) -> (r: String)
        requires
            self.wf(),
            html_of(self, id) is Some,
        ensures
            r@ == (if want_doctype {
                BOM@ + DOCTYPE@
            } else {
                Seq::empty()
            }) + html_of(self, id)->0,
    {
        let mut v = String::new();
        if want_doctype {
            self.print_html_document(id, &mut v);
        } else {
            self.print_html_fragment(id, &mut v);
        }
        v
    }

    /// The HTML for `id`, as a fragment (without a document header).
    pub fn to_html_fragment_string(&self, id: AId<Node>) -> (r: String)
        requires
            self.wf(),
            html_of(self, id) is Some,
        ensures
            r@ == html_of(self, id)->0,
    {
        let mut v = String::new();
        self.print_html_fragment(id, &mut v);
        v
    }

    /// The HTML for the nodes of `slice`.
    pub fn slice_to_html_string(&self, slice: ASlice<Node>) -> (r: String)
        requires
            self.wf(),
            html_of_slice(self, slice) is Some,
        ensures
            r@ == html_of_slice(self, slice)->0,
    {
        let mut v = String::new();
        self.print_body(slice, self.nodes_len() + 1, &mut v);
        v
    }

    fn plain_node_exec(&self, i: u32, fuel: usize, out: &mut String) -> (r: Result<(), AhtmlError>)
        requires
            self.wf(),
            plain_node(self, i as int, fuel as nat) is Some,
        ensures
            r is Ok <==> plain_node(self, i as int, fuel as nat) matches Some(Ok(_)),
            r is Err ==> r == Err::<(), AhtmlError>(AhtmlError::PreserializedAsPlain),
            r is Ok ==> final(out)@ == old(out)@ + plain_node(self, i as int, fuel as nat)->0->Ok_0,
        decreases fuel, 0nat, 0nat,
    {
        let node = self.get_node(AId::new(self.regionid(), i)).unwrap();
        match node {
            Node::Element(e) => self.plain_body_exec(e.body, fuel - 1, out),
            Node::String(s) => {
                out.append(s.as_str());
                Ok(())
            },
            Node::Preserialized(_) => Err(AhtmlError::PreserializedAsPlain),
            Node::Empty => Ok(()),
        }
    }

    fn plain_body_exec(&self, body: ASlice<Node>, fuel: usize, out: &mut String) -> (r: Result<
        (),
        AhtmlError,
    >)
        requires
            self.wf(),
            plain_body(self, body.sstart() as int, body.slen() as nat, fuel as nat) is Some,
        ensures
            r is Ok <==> plain_body(self, body.sstart() as int, body.slen() as nat, fuel as nat) matches Some(Ok(_)),
            r is Err ==> r == Err::<(), AhtmlError>(AhtmlError::PreserializedAsPlain),
            r is Ok ==> final(out)@ == old(out)@ + plain_body(
                self,
                body.sstart() as int,
                body.slen() as nat,
                fuel as nat,
            )->0->Ok_0,
        decreases fuel, 1nat, body.slen(),
    {
        let n = body.len();
        let start = body.start_pos();
        let mut k: u32 = 0;
        while k < n
            invariant
                self.wf(),
                n == body.slen(),
                start == body.sstart(),
                0 <= k <= n,
                plain_body(self, start as int, n as nat, fuel as nat) is Some,
                plain_body(self, start as int, k as nat, fuel as nat) matches Some(Ok(_)),
                out@ == old(out)@ + plain_body(self, start as int, k as nat, fuel as nat)->0->Ok_0,
            decreases n - k,
        {
            proof {
                lemma_plain_some_prefix(self, start as int, n as nat, (k + 1) as nat, fuel as nat);
            }
            let id = self.get_id::<Node>(start + k).unwrap();
            let r = self.plain_node_exec(id.bare_id(), fuel, out);
            if r.is_err() {
                proof {
                    lemma_plain_err_stable(self, start as int, (k + 1) as nat, n as nat, fuel as nat);
                }
                return r;
            }
            k = k + 1;
        }
        Ok(())
    }

    /// Appends the text of `id`, ignoring markup; an error where
    /// preserialized HTML is met.
    pub fn print_plain(&self, id: AId<Node>, out: &mut String) -> (r: Result<(), AhtmlError>)
        requires
            self.wf(),
            plain_of(self, id) is Some,
        ensures
            r is Ok <==> plain_of(self, id) matches Some(Ok(_)),
            r is Err ==> r == Err::<(), AhtmlError>(AhtmlError::PreserializedAsPlain),
            r is Ok ==> final(out)@ == old(out)@ + plain_of(self, id)->0->Ok_0,
    {
        self.plain_node_exec(id.bare_id(), self.nodes_len() + 1, out)
    }

    /// The text of `id`, ignoring markup.
    pub fn to_plain_string(&self, id: AId<Node>) -> (r: Result<String, AhtmlError>)
        requires
            self.wf(),
            plain_of(self, id) is Some,
        ensures
            r is Ok <==> plain_of(self, id) matches Some(Ok(_)),
            r is Err ==> r == Err::<String, AhtmlError>(AhtmlError::PreserializedAsPlain),
            r matches Ok(s) ==> s@ == plain_of(self, id)->0->Ok_0,
    {
        let mut v = String::new();
        match self.print_plain(id, &mut v) {
            Ok(()) => Ok(v),
            Err(e) => Err(e),
        }
    }

    /// Like `to_plain_string`, but stores the text as a node; ids of
    /// text or empty nodes are returned as they are.
    pub fn to_plain_string_aid(&mut self, id: AId<Node>) -> (r: Result<AId<Node>, AhtmlError>)
        requires
            old(self).wf(),
            id.region() == old(self).region(),
            id.bare() < old(self).nodes_view().len(),
            old(self).nodes_view()[id.bare() as int] is Some,
            old(self).nodes_view()[id.bare() as int]->0 is Element ==> plain_of(old(self), id) is Some,
        ensures
            final(self).wf(),
            final(self).same_except_nodes(old(self)),
            ({
                let node = old(self).nodes_view()[id.bare() as int]->0;
                &&& (node is String || node is Empty) ==> r == Ok::<AId<Node>, AhtmlError>(id)
                    && *final(self) == *old(self)
                &&& node is Preserialized ==> r == Err::<AId<Node>, AhtmlError>(
                    AhtmlError::PreserializedAsPlain,
                ) && *final(self) == *old(self)
                &&& node is Element ==> match plain_of(old(self), id)->0 {
                    Err(_) => r == Err::<AId<Node>, AhtmlError>(AhtmlError::PreserializedAsPlain),
                    Ok(t) => (old(self).nodes_view().len() < old(self).nodes_cap() <==> r is Ok)
                        && (r matches Ok(nid) ==> nid.region() == old(self).region() && nid.bare()
                        == old(self).nodes_view().len() && final(self).nodes_view().len() == old(
                        self).nodes_view().len() + 1 && final(self).nodes_view().drop_last() == old(
                        self).nodes_view() && (final(self).nodes_view().last() matches Some(
                        Node::String(s)) && s@ == t)) && (r is Err ==> r == Err::<AId<Node>, AhtmlError>(
                        AhtmlError::OutOfMemory)),
                }
            }),
    {
        let is_element = match self.get_node(id).unwrap() {
            Node::Element(_) => true,
            Node::String(_) => {
                return Ok(id);
            },
            Node::Preserialized(_) => {
                return Err(AhtmlError::PreserializedAsPlain);
            },
            Node::Empty => {
                return Ok(id);
            },
        };
        let mut v = String::new();
        self.print_plain(id, &mut v)?;
        let ghost before = self.nodes_view();
        let r = self.string(v);
        proof {
            if r is Ok {
                assert(self.nodes_view().drop_last() =~= before);
            }
        }
        r
    }

    /// The serialized HTML of element `id`, to be stored as a
    /// preserialized node; an error if `id` is not an element.
    pub fn preserialize(&self, id: AId<Node>) -> (r: Result<SerHtmlFrag, AhtmlError>)
        requires
            self.wf(),
            id.region() == self.region(),
            id.bare() < self.nodes_view().len(),
            self.nodes_view()[id.bare() as int] is Some,
            self.nodes_view()[id.bare() as int]->0 is Element ==> html_of(self, id) is Some,
        ensures
            r is Ok <==> self.nodes_view()[id.bare() as int]->0 is Element,
            r is Err ==> r == Err::<SerHtmlFrag, AhtmlError>(AhtmlError::NotAnElement),
            r matches Ok(f) ==> f.frag_meta() == self.nodes_view()[id.bare() as int]->0->Element_0.meta
                && f.frag_str() == html_of(self, id)->0,
    {
        let meta = match self.get_node(id).unwrap() {
            Node::Element(e) => e.meta,
            _ => {
                return Err(AhtmlError::NotAnElement);
            },
        };
        let s = self.to_html_string(id, false);
        Ok(SerHtmlFrag::new(meta, s))
    }
}

} // verus!
