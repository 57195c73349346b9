//! JSON documents as the scraper reads them. A parsed value is first taken
//! as a tree holding what the reads give (its kind, its text, its
//! emptiness, its elements and its members); the tree is then laid out as a
//! list of nodes, children before parents and the whole value last, so that
//! values can be named by position.

use vstd::prelude::*;

verus! {

/// The kind of a JSON value.
#[derive(Debug, Clone, Copy, PartialEq, Eq, Structural)]
pub enum JsonKind {
    Null,
    Short,
    Str,
    Number,
    Boolean,
    Object,
    Array,
}

/// One value of a document.
pub struct JsonNode {
    pub kind: JsonKind,
    /// What the value is written as (`to_string`): a string's own text,
    /// `null`, a number or boolean as written, else the compact JSON.
    pub text: String,
    /// Whether the value is empty (`is_empty`).
    pub empty: bool,
    /// The positions of an array's elements, in order.
    pub items: Vec<usize>,
    /// An object's members: key and position of the value.
    pub fields: Vec<(String, usize)>,
}

/// A node as the specifications see it.
pub struct NodeView {
    pub kind: JsonKind,
    pub text: Seq<char>,
    pub empty: bool,
    pub items: Seq<usize>,
    pub fields: Seq<(Seq<char>, usize)>,
}

pub open spec fn node_view(n: JsonNode) -> NodeView {
    NodeView {
        kind: n.kind,
        text: n.text@,
        empty: n.empty,
        items: n.items@,
        fields: n.fields@.map_values(|f: (String, usize)| (f.0@, f.1)),
    }
}

pub open spec fn doc_view(d: Seq<JsonNode>) -> Seq<NodeView> {
    d.map_values(|n: JsonNode| node_view(n))
}

/// A JSON value as the reads see it, with its elements and members.
pub struct JsonTree {
    pub kind: JsonKind,
    /// What the value is written as (`to_string`).
    pub text: String,
    /// Whether the value is empty (`is_empty`).
    pub empty: bool,
    /// An array's elements, in order (`members`).
    pub items: Vec<JsonTree>,
    /// An object's members, in order (`entries`).
    pub fields: Vec<(String, JsonTree)>,
}

/// The tree `json::parse` reads from a text, or `None` where it rejects
/// the text.
pub uninterp spec fn json_tree_of(s: Seq<char>) -> Option<JsonTree>;

/// The node that stands for a tree whose elements and members were laid
/// out at the positions given.
pub open spec fn tree_node(t: JsonTree, items: Seq<usize>, fields: Seq<(Seq<char>, usize)>) -> NodeView {
    NodeView { kind: t.kind, text: t.text@, empty: t.empty, items: items, fields: fields }
}

/// A tree laid out after the nodes `d`: its elements in turn, then its
/// members in turn, then its own node.
pub open spec fn flat(t: JsonTree, d: Seq<NodeView>) -> Seq<NodeView>
    decreases t, 2int, 0int,
{
    let (d1, items) = flat_items(t, t.items@.len() as int, d);
    let (d2, fields) = flat_fields(t, t.fields@.len() as int, d1);
    d2.push(tree_node(t, items, fields))
}

/// The first `k` elements of a tree laid out in turn after `d`, with the
/// position each one's own node got.
pub open spec fn flat_items(t: JsonTree, k: int, d: Seq<NodeView>) -> (Seq<NodeView>, Seq<usize>)
    decreases t, 0int, k,
{
    if k <= 0 || k > t.items@.len() {
        (d, Seq::empty())
    } else {
        let (d1, ps) = flat_items(t, k - 1, d);
        let d2 = flat(t.items@[k - 1], d1);
        (d2, ps.push((d2.len() - 1) as usize))
    }
}

/// The first `k` members of a tree laid out in turn after `d`, with each
/// key and the position its value's node got.
pub open spec fn flat_fields(t: JsonTree, k: int, d: Seq<NodeView>) -> (Seq<NodeView>, Seq<(Seq<char>, usize)>)
    decreases t, 1int, k,
{
    if k <= 0 || k > t.fields@.len() {
        (d, Seq::empty())
    } else {
        let (d1, fs) = flat_fields(t, k - 1, d);
        let d2 = flat(t.fields@[k - 1].1, d1);
        (d2, fs.push((t.fields@[k - 1].0@, (d2.len() - 1) as usize)))
    }
}

/// The document of a text: its tree laid out, the whole value last; `None`
/// where the text is not JSON.
pub open spec fn json_doc_of(s: Seq<char>) -> Option<Seq<NodeView>> {
    match json_tree_of(s) {
        Some(t) => Some(flat(t, Seq::empty())),
        None => None,
    }
}

#[verifier::external_type_specification]
#[verifier::external_body]
pub struct ExJsonValue(json::JsonValue);

/// The kind of a `json::JsonValue`, by its variant.
#[verifier::external_body]
fn kind_of(v: &json::JsonValue) -> JsonKind {
    match v {
        json::JsonValue::Null => JsonKind::Null,
        json::JsonValue::Short(_) => JsonKind::Short,
        json::JsonValue::String(_) => JsonKind::Str,
        json::JsonValue::Number(_) => JsonKind::Number,
        json::JsonValue::Boolean(_) => JsonKind::Boolean,
        json::JsonValue::Object(_) => JsonKind::Object,
        json::JsonValue::Array(_) => JsonKind::Array,
    }
}

/// A `json::JsonValue` taken one for one as a tree: its kind, `to_string`,
/// `is_empty`, and each of its `members` and `entries` taken in turn.
#[verifier::external_body]
fn tree_of(v: &json::JsonValue) -> JsonTree {
    JsonTree {
        kind: kind_of(v),
        text: v.to_string(),
        empty: v.is_empty(),
        items: v.members().map(|m| tree_of(m)).collect(),
        fields: v.entries().map(|(k, m)| (k.to_string(), tree_of(m))).collect(),
    }
}

/// `json::parse`: the tree of a text, or `None` where the text is not
/// JSON. The tree is named by `json_tree_of`.
#[verifier::external_body]
pub(crate) fn json_parse(s: &str) -> (r: Option<JsonTree>)
    ensures
        r == json_tree_of(s@),
{
    match json::parse(s) {
        Ok(v) => Some(tree_of(&v)),
        Err(_) => None,
    }
}

/// Lays a tree out after the nodes in `out` (see `flat`) and gives the
/// position of its own node.
fn flatten(t: &JsonTree, out: &mut Vec<JsonNode>) -> (r: usize)
    ensures
        doc_view(final(out)@) == flat(*t, doc_view(old(out)@)),
        final(out)@.len() > 0,
        r == final(out)@.len() - 1,
    decreases t,
{
    let ghost d0 = doc_view(out@);
    let mut items: Vec<usize> = Vec::new();
    let mut i: usize = 0;
    while i < t.items.len()
        invariant
            i <= t.items@.len(),
            (doc_view(out@), items@) == flat_items(*t, i as int, d0),
        decreases t.items@.len() - i,
    {
        let p = flatten(&t.items[i], out);
        items.push(p);
        i = i + 1;
        assert(doc_view(out@).len() == out@.len());
    }
    let ghost d1 = doc_view(out@);
    let mut fields: Vec<(String, usize)> = Vec::new();
    let mut j: usize = 0;
    while j < t.fields.len()
        invariant
            j <= t.fields@.len(),
            (doc_view(out@), fields@.map_values(|f: (String, usize)| (f.0@, f.1))) == flat_fields(*t, j as int, d1),
            flat_items(*t, t.items@.len() as int, d0) == (d1, items@),
        decreases t.fields@.len() - j,
    {
        let ghost fb = fields@;
        let p = flatten(&t.fields[j].1, out);
        fields.push((t.fields[j].0.clone(), p));
        assert(fields@.map_values(|f: (String, usize)| (f.0@, f.1))
            =~= fb.map_values(|f: (String, usize)| (f.0@, f.1)).push((t.fields@[j as int].0@, p)));
        j = j + 1;
        assert(doc_view(out@).len() == out@.len());
    }
    let ghost ob = out@;
    out.push(JsonNode { kind: t.kind, text: t.text.clone(), empty: t.empty, items: items, fields: fields });
    assert(doc_view(out@) =~= doc_view(ob).push(node_view(out@[out@.len() - 1])));
    out.len() - 1
}

/// The value `json` gives where there is none: null.
pub open spec fn null_view() -> NodeView {
    NodeView { kind: JsonKind::Null, text: "null"@, empty: true, items: Seq::empty(), fields: Seq::empty() }
}

/// The node at a position; null where there is none.
pub open spec fn nv(d: Seq<NodeView>, r: Option<usize>) -> NodeView {
    match r {
        Some(i) => if i < d.len() { d[i as int] } else { null_view() },
        None => null_view(),
    }
}

/// The first member of a key in a list of members.
pub open spec fn field_pos(fs: Seq<(Seq<char>, usize)>, key: Seq<char>) -> Option<int>
    decreases fs.len(),
{
    if fs.len() == 0 {
        None
    } else {
        match field_pos(fs.drop_last(), key) {
            Some(i) => Some(i),
            None => if fs.last().0 == key { Some(fs.len() - 1) } else { None },
        }
    }
}

/// The member of an object under a key (`value[key]`); none otherwise.
pub open spec fn jget(d: Seq<NodeView>, r: Option<usize>, key: Seq<char>) -> Option<usize> {
    let n = nv(d, r);
    if n.kind == JsonKind::Object {
        match field_pos(n.fields, key) {
            Some(i) => Some(n.fields[i].1),
            None => None,
        }
    } else {
        None
    }
}

/// The element of an array at an index (`value[i]`); none otherwise.
pub open spec fn jitem(d: Seq<NodeView>, r: Option<usize>, i: int) -> Option<usize> {
    let n = nv(d, r);
    if n.kind == JsonKind::Array && 0 <= i < n.items.len() { Some(n.items[i]) } else { None }
}

/// The elements of an array (`members`); none for other values.
pub open spec fn jmembers(d: Seq<NodeView>, r: Option<usize>) -> Seq<usize> {
    let n = nv(d, r);
    if n.kind == JsonKind::Array { n.items } else { Seq::empty() }
}

/// The number of elements or members (`len`); 0 for other values.
pub open spec fn jlen(d: Seq<NodeView>, r: Option<usize>) -> nat {
    let n = nv(d, r);
    if n.kind == JsonKind::Array { n.items.len() } else if n.kind == JsonKind::Object { n.fields.len() } else { 0 }
}

/// A parsed document with its value at the end.
pub struct JsonDoc {
    pub nodes: Vec<JsonNode>,
}

impl JsonDoc {
    pub open spec fn view(&self) -> Seq<NodeView> {
        doc_view(self.nodes@)
    }

    /// The position of the whole value.
    pub open spec fn root(&self) -> Option<usize> {
        if self.nodes@.len() > 0 { Some((self.nodes@.len() - 1) as usize) } else { None }
    }

    /// Parses a text; `None` where it is not JSON.
    pub fn parse(s: &str) -> (r: Option<JsonDoc>)
        ensures
            match r {
                Some(d) => json_doc_of(s@) == Some(d@) && d@.len() > 0,
                None => json_doc_of(s@).is_none(),
            },
    {
        match json_parse(s) {
            Some(t) => {
                let mut nodes: Vec<JsonNode> = Vec::new();
                assert(doc_view(nodes@) =~= Seq::<NodeView>::empty());
                let _ = flatten(&t, &mut nodes);
                Some(JsonDoc { nodes: nodes })
            },
            None => None,
        }
    }

    pub fn root_pos(&self) -> (r: Option<usize>)
        ensures
            r == self.root(),
    {
        if self.nodes.len() > 0 { Some(self.nodes.len() - 1) } else { None }
    }

    fn node(&self, r: Option<usize>) -> (n: Option<&JsonNode>)
        ensures
            match n {
                Some(x) => r matches Some(i) && i < self.nodes@.len() && *x == self.nodes@[i as int],
                None => nv(self@, r) == null_view(),
            },
    {
        match r {
            Some(i) => if i < self.nodes.len() { Some(&self.nodes[i]) } else { None },
            None => None,
        }
    }

    /// `value[key]`.
    pub fn get(&self, r: Option<usize>, key: &str) -> (out: Option<usize>)
        ensures
            out == jget(self@, r, key@),
    {
        match self.node(r) {
            None => None,
            Some(n) => {
                proof {
                    let i = r->0;
                    assert(self@[i as int] == node_view(self.nodes@[i as int]));
                }
                if n.kind != JsonKind::Object {
                    return None;
                }
                let ghost fs = node_view(*n).fields;
                let key_s = String::from_str(key);
                let mut i: usize = 0;
                while i < n.fields.len()
                    invariant
                        i <= n.fields@.len(),
                        key_s@ == key@,
                        nv(self@, r) == node_view(*n),
                        n.kind == JsonKind::Object,
                        fs == n.fields@.map_values(|f: (String, usize)| (f.0@, f.1)),
                        field_pos(fs.take(i as int), key@).is_none(),
                    decreases n.fields@.len() - i,
                {
                    proof {
                        assert(fs.take(i + 1).drop_last() =~= fs.take(i as int));
                    }
                    if n.fields[i].0 == key_s {
                        proof {
                            assert(fs[i as int] == (n.fields@[i as int].0@, n.fields@[i as int].1));
                            lemma_field_pos_prefix(fs, i as int + 1, key@);
                        }
                        return Some(n.fields[i].1);
                    }
                    i = i + 1;
                }
                assert(fs.take(fs.len() as int) =~= fs);
                None
            },
        }
    }

    /// `value[i]`.
    pub fn item(&self, r: Option<usize>, i: usize) -> (out: Option<usize>)
        ensures
            out == jitem(self@, r, i as int),
    {
        match self.node(r) {
            None => None,
            Some(n) => if n.kind == JsonKind::Array && i < n.items.len() { Some(n.items[i]) } else { None },
        }
    }

    /// `len`.
    pub fn len(&self, r: Option<usize>) -> (out: usize)
        ensures
            out == jlen(self@, r),
    {
        match self.node(r) {
            None => 0,
            Some(n) => if n.kind == JsonKind::Array { n.items.len() } else if n.kind == JsonKind::Object { n.fields.len() } else { 0 },
        }
    }

    /// `members`, by position.
    pub fn members(&self, r: Option<usize>) -> (out: Vec<usize>)
        ensures
            out@ == jmembers(self@, r),
    {
        match self.node(r) {
            None => Vec::new(),
            Some(n) => if n.kind == JsonKind::Array { n.items.clone() } else { Vec::new() },
        }
    }

    /// `is_null`.
    pub fn is_null(&self, r: Option<usize>) -> (b: bool)
        ensures
            b == (nv(self@, r).kind == JsonKind::Null),
    {
        match self.node(r) {
            None => true,
            Some(n) => n.kind == JsonKind::Null,
        }
    }

    /// `is_empty`.
    pub fn is_empty(&self, r: Option<usize>) -> (b: bool)
        ensures
            b == nv(self@, r).empty,
    {
        match self.node(r) {
            None => true,
            Some(n) => n.empty,
        }
    }

    /// `to_string`.
    pub fn text(&self, r: Option<usize>) -> (s: String)
        ensures
            s@ == nv(self@, r).text,
    {
        match self.node(r) {
            None => String::from_str("null"),
            Some(n) => n.text.clone(),
        }
    }
}

/// Where a key's first member lies once the members up to it are seen.
pub proof fn lemma_field_pos_prefix(fs: Seq<(Seq<char>, usize)>, k: int, key: Seq<char>)
    requires
        0 < k <= fs.len(),
        field_pos(fs.take(k - 1), key).is_none(),
        fs[k - 1].0 == key,
    ensures
        field_pos(fs, key) == Some(k - 1),
{
    assert(fs.take(k).drop_last() =~= fs.take(k - 1));
    lemma_field_pos_grow(fs, k, key);
}

proof fn lemma_field_pos_grow(fs: Seq<(Seq<char>, usize)>, m: int, key: Seq<char>)
    requires
        0 <= m <= fs.len(),
        field_pos(fs.take(m), key).is_some(),
    ensures
        field_pos(fs, key) == field_pos(fs.take(m), key),
    decreases fs.len() - m,
{
    if m < fs.len() {
        assert(fs.take(m + 1).drop_last() =~= fs.take(m));
        lemma_field_pos_grow(fs, m + 1, key);
    } else {
        assert(fs.take(m) =~= fs);
    }
}

} // verus!
