//! Pages as trees, and the scripts in them.
//!
//! HTML is parsed by `html5ever` into the tree of `markup5ever_rcdom`. What
//! the browser needs of that tree is held by [`Dom`], and handed to the page
//! environment as JSON.
use std::rc::Rc;

use vstd::prelude::*;

use html5ever::tendril::TendrilSink;
use markup5ever_rcdom::{Node, NodeData, RcDom};

use crate::json::{
    array, entries_model, entry, items_model, json_printed, json_text_of, law_set_value_is_found,
    lemma_entry_at, lemma_items_push,
    lemma_with_entry, lemma_with_entry_distinct, no_entries, object, print_json, put, set_entry,
    with_entry, with_map_entries, Json, JsonModel,
};
use crate::text::{
    ascii_lower, ascii_lowercase, blank, chars_of, find_line_end,
    has_prefix, is_blank, is_space_char, lemma_leading_spaces_unique, line, line_end, line_start,
    same, text_of, trim_start,
};
use crate::urls::{join_on_page, joined_on_page, pairs_model, url_joined, url_parsed};

verus! {

// ---------------------------------------------------------------------
// Trees
// ---------------------------------------------------------------------

/// A node of a page, as far as the browser looks at it.
#[derive(Debug)]
pub enum Dom {
    /// The document, with its children.
    Document(Vec<Dom>),
    /// An element, with its name, its attributes and its children.
    Element(String, Vec<(String, String)>, Vec<Dom>),
    /// A text.
    Text(String),
    /// A comment, a document type or a processing instruction.
    Other,
}

/// What a [`Dom`] stands for.
pub enum DomModel {
    Document(Seq<DomModel>),
    Element(Seq<char>, Seq<(Seq<char>, Seq<char>)>, Seq<DomModel>),
    Text(Seq<char>),
    Other,
}

impl Dom {
    /// What the node stands for.
    pub open spec fn model(self) -> DomModel
        decreases self,
    {
        match self {
            Dom::Document(children) => DomModel::Document(
                Seq::new(
                    children@.len(),
                    |i: int|
                        if 0 <= i < children@.len() {
                            children@[i].model()
                        } else {
                            DomModel::Other
                        },
                ),
            ),
            Dom::Element(tag, attrs, children) => DomModel::Element(
                tag@,
                pairs_model(attrs@),
                Seq::new(
                    children@.len(),
                    |i: int|
                        if 0 <= i < children@.len() {
                            children@[i].model()
                        } else {
                            DomModel::Other
                        },
                ),
            ),
            Dom::Text(s) => DomModel::Text(s@),
            Dom::Other => DomModel::Other,
        }
    }
}

impl View for Dom {
    type V = DomModel;

    open spec fn view(&self) -> DomModel {
        self.model()
    }
}

/// What nodes stand for.
pub open spec fn nodes_model(nodes: Seq<Dom>) -> Seq<DomModel> {
    Seq::new(nodes.len(), |i: int| nodes[i].model())
}

/// A document stands for what its children stand for.
proof fn lemma_document_model(children: Vec<Dom>)
    ensures
        Dom::Document(children).model() == DomModel::Document(nodes_model(children@)),
{
    assert(Dom::Document(children).model()->Document_0 =~= nodes_model(children@));
}

/// An element stands for what its children stand for.
proof fn lemma_element_model(tag: String, attrs: Vec<(String, String)>, children: Vec<Dom>)
    ensures
        Dom::Element(tag, attrs, children).model() == DomModel::Element(
            tag@,
            pairs_model(attrs@),
            nodes_model(children@),
        ),
{
    assert(Dom::Element(tag, attrs, children).model()->Element_2 =~= nodes_model(children@));
}

#[verifier::external_type_specification]
#[verifier::external_body]
pub struct ExNode(markup5ever_rcdom::Node);

/// What a node of `markup5ever_rcdom` holds, of the names only the part
/// without a prefix.
pub uninterp spec fn node_contents(n: Node) -> DomModel;

/// The document that `html5ever::parse_document` makes of a text.
pub uninterp spec fn document_parsed(html: Seq<char>) -> DomModel;

/// The document that `html5ever::parse_fragment` makes of a text inside a
/// `body`.
pub uninterp spec fn fragment_parsed(html: Seq<char>) -> DomModel;

/// Whether a text is small enough for the buffers of the parser, whose
/// lengths are 32 bits wide.
pub open spec fn html_fits(html: Seq<char>) -> bool {
    html.len() <= 0x0fff_ffff
}

/// Calls `html5ever::parse_document` with the default options: the tree that
/// comes out depends on the text alone. The parser keeps texts in buffers of
/// 32-bit lengths and panics past them.
#[verifier::external_body]
fn parse_document(html: &str) -> (r: Rc<Node>)
    requires
        html_fits(html@),
    ensures
        node_contents(*r) == document_parsed(html@),
{
    html5ever::parse_document(RcDom::default(), Default::default())
        .from_utf8()
        .read_from(&mut html.as_bytes())
        .unwrap_or_else(|_| RcDom::default())
        .document
}

/// Calls `html5ever::parse_fragment` with the default options and a `body` as
/// context: the tree that comes out depends on the text alone. The parser
/// keeps texts in buffers of 32-bit lengths and panics past them.
#[verifier::external_body]
fn parse_fragment(html: &str) -> (r: Rc<Node>)
    requires
        html_fits(html@),
    ensures
        node_contents(*r) == fragment_parsed(html@),
{
    let ns = html5ever::Namespace::from("http://www.w3.org/1999/xhtml");
    let body = html5ever::QualName::new(None, ns, html5ever::LocalName::from("body"));
    html5ever::parse_fragment(RcDom::default(), Default::default(), body, Vec::new(), false)
        .from_utf8()
        .read_from(&mut html.as_bytes())
        .unwrap_or_else(|_| RcDom::default())
        .document
}

/// Reads a node of `markup5ever_rcdom` out into a [`Dom`], variant by
/// variant.
#[verifier::external_body]
fn read_node(node: &Rc<Node>) -> (r: Dom)
    ensures
        r@ == node_contents(**node),
{
    match &node.data {
        NodeData::Document => Dom::Document(node.children.borrow().iter().map(read_node).collect()),
        NodeData::Element { name, attrs, .. } => Dom::Element(
            name.local.to_string(),
            attrs.borrow().iter().map(|a| (a.name.local.to_string(), a.value.to_string())).collect(),
            node.children.borrow().iter().map(read_node).collect(),
        ),
        NodeData::Text { contents } => Dom::Text(contents.borrow().to_string()),
        NodeData::Doctype { .. } => Dom::Other,
        NodeData::Comment { .. } => Dom::Other,
        NodeData::ProcessingInstruction { .. } => Dom::Other,
    }
}

// ---------------------------------------------------------------------
// Trees as JSON
// ---------------------------------------------------------------------

/// Attributes as entries; of two with one name the last counts.
pub open spec fn attr_entries(attrs: Seq<(Seq<char>, Seq<char>)>) -> Seq<(Seq<char>, JsonModel)>
    decreases attrs.len(),
{
    if attrs.len() == 0 {
        Seq::empty()
    } else {
        with_entry(attr_entries(attrs.drop_last()), attrs.last().0, JsonModel::Text(attrs.last().1))
    }
}

/// An element in JSON.
pub open spec fn element_json(
    tag: Seq<char>,
    attrs: Seq<(Seq<char>, JsonModel)>,
    children: Seq<JsonModel>,
) -> JsonModel {
    JsonModel::Object(
        seq![
            ("type"@, JsonModel::Text("element"@)),
            ("tag"@, JsonModel::Text(tag)),
            ("attrs"@, JsonModel::Object(attrs)),
            ("children"@, JsonModel::Array(children)),
        ],
    )
}

/// A text in JSON.
pub open spec fn text_json(s: Seq<char>) -> JsonModel {
    JsonModel::Object(
        seq![("type"@, JsonModel::Text("text"@)), ("content"@, JsonModel::Text(s))],
    )
}

/// A node in JSON; null for anything but an element.
pub open spec fn node_json(d: DomModel) -> JsonModel
    decreases d, 0nat,
{
    match d {
        DomModel::Element(tag, attrs, children) => element_json(
            tag,
            attr_entries(attrs),
            children_json(children),
        ),
        _ => JsonModel::Null,
    }
}

/// A child in JSON; nothing for anything but an element or a text.
pub open spec fn child_json(d: DomModel) -> Option<JsonModel>
    decreases d, 1nat,
{
    match d {
        DomModel::Text(s) => Some(text_json(s)),
        DomModel::Element(_, _, _) => Some(node_json(d)),
        _ => None,
    }
}

/// The children in JSON that are elements or texts.
pub open spec fn children_json(children: Seq<DomModel>) -> Seq<JsonModel>
    decreases children, 2nat,
{
    if children.len() == 0 {
        Seq::empty()
    } else {
        let front = children_json(children.drop_last());
        match child_json(children.last()) {
            Some(j) => front.push(j),
            None => front,
        }
    }
}

/// The first `html` element among nodes, in JSON; an empty one where there is
/// none.
pub open spec fn first_html(nodes: Seq<DomModel>) -> JsonModel
    decreases nodes.len(),
{
    if nodes.len() == 0 {
        element_json("html"@, Seq::empty(), Seq::empty())
    } else if nodes[0] is Element && nodes[0]->Element_0 == "html"@ {
        node_json(nodes[0])
    } else {
        first_html(nodes.skip(1))
    }
}

/// The page of a document, in JSON.
pub open spec fn page_json(d: DomModel) -> JsonModel {
    match d {
        DomModel::Document(children) => first_html(children),
        _ => first_html(Seq::empty()),
    }
}

/// The children of the first element among nodes, in JSON.
pub open spec fn first_element_children(nodes: Seq<DomModel>) -> Seq<JsonModel>
    decreases nodes.len(),
{
    if nodes.len() == 0 {
        Seq::empty()
    } else {
        match nodes[0] {
            DomModel::Element(_, _, children) => children_json(children),
            _ => first_element_children(nodes.skip(1)),
        }
    }
}

/// The content of a parsed fragment, in JSON: what stands in the first element
/// of the document.
pub open spec fn fragment_json(d: DomModel) -> JsonModel {
    let children = match d {
        DomModel::Document(nodes) => first_element_children(nodes),
        _ => Seq::empty(),
    };
    element_json("fragment"@, Seq::empty(), children)
}

/// An element in JSON.
fn build_element(tag: &str, attrs: Vec<(String, Json)>, children: Vec<Json>) -> (r: Json)
    ensures
        r@ == element_json(tag@, entries_model(attrs@), items_model(children@)),
{
    let mut e = no_entries();
    put(&mut e, "type", json_text_of("element"));
    put(&mut e, "tag", json_text_of(tag));
    put(&mut e, "attrs", object(attrs));
    put(&mut e, "children", array(children));
    let r = object(e);
    assert(r@->Object_0 =~= element_json(
        tag@,
        entries_model(attrs@),
        items_model(children@),
    )->Object_0);
    r
}

/// Attributes as entries.
fn build_attrs(attrs: &Vec<(String, String)>) -> (r: Vec<(String, Json)>)
    ensures
        entries_model(r@) == attr_entries(pairs_model(attrs@)),
{
    let ghost m = pairs_model(attrs@);
    let mut out = no_entries();
    let mut i: usize = 0;
    assert(m.take(0) =~= Seq::empty());
    while i < attrs.len()
        invariant
            i <= attrs.len(),
            m == pairs_model(attrs@),
            entries_model(out@) == attr_entries(m.take(i as int)),
        decreases attrs.len() - i,
    {
        proof {
            assert(m.take(i + 1).drop_last() =~= m.take(i as int));
            assert(m.take(i + 1).last() == m[i as int]);
        }
        set_entry(&mut out, attrs[i].0.as_str(), Json::Text(attrs[i].1.clone()));
        i = i + 1;
    }
    assert(m.take(i as int) =~= m);
    out
}

/// A child in JSON; nothing for anything but an element or a text.
pub fn child_to_json(d: &Dom) -> (r: Option<Json>)
    ensures
        match r {
            Some(j) => child_json(d@) == Some(j@),
            None => child_json(d@) is None,
        },
    decreases d, 1nat,
{
    match d {
        Dom::Text(s) => {
            let mut e = no_entries();
            put(&mut e, "type", json_text_of("text"));
            put(&mut e, "content", Json::Text(s.clone()));
            let r = object(e);
            assert(r@->Object_0 =~= text_json(s@)->Object_0);
            Some(r)
        },
        Dom::Element(_, _, _) => Some(node_to_json(d)),
        _ => None,
    }
}

/// The children in JSON that are elements or texts.
fn build_children(children: &Vec<Dom>) -> (r: Vec<Json>)
    ensures
        items_model(r@) == children_json(nodes_model(children@)),
    decreases children, 2nat,
{
    let ghost m = nodes_model(children@);
    let mut out: Vec<Json> = Vec::new();
    let mut i: usize = 0;
    assert(m.take(0) =~= Seq::empty());
    assert(items_model(out@) =~= Seq::empty());
    while i < children.len()
        invariant
            i <= children.len(),
            m == nodes_model(children@),
            items_model(out@) == children_json(m.take(i as int)),
        decreases children.len() - i,
    {
        broadcast use lemma_items_push;

        assert(decreases_to!(*children => children@));
        assert(decreases_to!(children@ => children@[i as int]));
        proof {
            assert(m.take(i + 1).drop_last() =~= m.take(i as int));
            assert(m.take(i + 1).last() == m[i as int]);
        }
        match child_to_json(&children[i]) {
            Some(j) => {
                out.push(j);
            },
            None => {},
        }
        i = i + 1;
    }
    assert(m.take(i as int) =~= m);
    out
}

/// A node in JSON; null for anything but an element.
pub fn node_to_json(d: &Dom) -> (r: Json)
    ensures
        r@ == node_json(d@),
    decreases d, 0nat,
{
    match d {
        Dom::Element(tag, attrs, children) => {
            proof {
                lemma_element_model(*tag, *attrs, *children);
                assert(decreases_to!(*d => d->Element_2));
            }
            build_element(tag.as_str(), build_attrs(attrs), build_children(children))
        },
        _ => Json::Null,
    }
}

/// The page of a document, in JSON.
pub fn document_tree(d: &Dom) -> (r: Json)
    ensures
        r@ == page_json(d@),
{
    if let Dom::Document(children) = d {
        proof {
            lemma_document_model(*children);
        }
        let ghost m = nodes_model(children@);
        let mut i: usize = 0;
        assert(m.skip(0) =~= m);
        while i < children.len()
            invariant
                i <= children.len(),
                m == nodes_model(children@),
                d@ == DomModel::Document(m),
                first_html(m) == first_html(m.skip(i as int)),
            decreases children.len() - i,
        {
            proof {
                assert(m.skip(i as int).skip(1) =~= m.skip(i + 1));
                assert(m.skip(i as int)[0] == m[i as int]);
            }
            if let Dom::Element(tag, _, _) = &children[i] {
                if same(tag.as_str(), "html") {
                    return node_to_json(&children[i]);
                }
            }
            i = i + 1;
        }
        assert(m.skip(i as int) =~= Seq::empty());
    }
    let r = build_element("html", no_entries(), Vec::new());
    assert(items_model(Seq::<Json>::empty()) =~= Seq::empty());
    r
}

/// The content of a parsed fragment, in JSON.
pub fn fragment_tree(d: &Dom) -> (r: Json)
    ensures
        r@ == fragment_json(d@),
{
    if let Dom::Document(nodes) = d {
        proof {
            lemma_document_model(*nodes);
        }
        let ghost m = nodes_model(nodes@);
        let mut i: usize = 0;
        assert(m.skip(0) =~= m);
        while i < nodes.len()
            invariant
                i <= nodes.len(),
                m == nodes_model(nodes@),
                d@ == DomModel::Document(m),
                first_element_children(m) == first_element_children(m.skip(i as int)),
            decreases nodes.len() - i,
        {
            proof {
                assert(m.skip(i as int).skip(1) =~= m.skip(i + 1));
                assert(m.skip(i as int)[0] == m[i as int]);
            }
            if let Dom::Element(tag, attrs, children) = &nodes[i] {
                proof {
                    lemma_element_model(*tag, *attrs, *children);
                }
                return build_element("fragment", no_entries(), build_children(children));
            }
            i = i + 1;
        }
        assert(m.skip(i as int) =~= Seq::empty());
    }
    let r = build_element("fragment", no_entries(), Vec::new());
    assert(items_model(Seq::<Json>::empty()) =~= Seq::empty());
    r
}

/// Parses a page.
pub fn parse_html_to_tree(html: &str) -> (r: Json)
    requires
        html_fits(html@),
    ensures
        r@ == page_json(document_parsed(html@)),
{
    let root = parse_document(html);
    document_tree(&read_node(&root))
}

/// Parses a fragment of a page, such as a script assigns to the inside of an
/// element, and gives its content as JSON text.
pub fn parse_html_fragment_to_json(html: &str) -> (r: String)
    requires
        html_fits(html@),
    ensures
        r@ == json_printed(with_map_entries(fragment_json(fragment_parsed(html@)))),
{
    let root = parse_fragment(html);
    print_json(&fragment_tree(&read_node(&root)))
}

// ---------------------------------------------------------------------
// Scripts
// ---------------------------------------------------------------------

/// When a script with a source of its own runs: in its place, or when it is
/// there.
#[derive(Debug, Clone, Copy, PartialEq, Eq, Structural)]
pub enum ScriptKind {
    Sync,
    Async,
}

/// A script of a page.
#[derive(Debug)]
pub enum ScriptItem {
    /// One whose code stands in the page.
    Inline(String),
    /// One whose code is to be fetched.
    External { url: String, kind: ScriptKind },
}

/// What a [`ScriptItem`] stands for.
pub enum ScriptModel {
    Inline(Seq<char>),
    External { url: Seq<char>, kind: ScriptKind },
}

impl View for ScriptItem {
    type V = ScriptModel;

    open spec fn view(&self) -> ScriptModel {
        match *self {
            ScriptItem::Inline(s) => ScriptModel::Inline(s@),
            ScriptItem::External { url, kind } => ScriptModel::External { url: url@, kind },
        }
    }
}

/// What scripts stand for.
pub open spec fn scripts_model(items: Seq<ScriptItem>) -> Seq<ScriptModel> {
    Seq::new(items.len(), |i: int| items[i]@)
}

/// The name of a kind of script in events.
pub open spec fn kind_name(kind: ScriptKind) -> Seq<char> {
    match kind {
        ScriptKind::Sync => "sync"@,
        ScriptKind::Async => "async"@,
    }
}

/// The name of a kind of script in events.
pub fn script_kind_str(kind: ScriptKind) -> (r: &'static str)
    ensures
        r@ == kind_name(kind),
{
    match kind {
        ScriptKind::Sync => "sync",
        ScriptKind::Async => "async",
    }
}

/// Whether a script of this type is code: one without a type, JavaScript, or a
/// module.
pub open spec fn is_code(ty: Seq<char>) -> bool {
    ty.len() == 0 || ascii_lowercase(ty) == "text/javascript"@ || ascii_lowercase(ty) == "module"@
}

/// The texts among children, one behind the other.
pub open spec fn inner_text(children: Seq<JsonModel>) -> Seq<char>
    decreases children.len(),
{
    if children.len() == 0 {
        Seq::empty()
    } else {
        let front = inner_text(children.drop_last());
        let c = children.last();
        match (c.text_at("type"@), c.text_at("content"@)) {
            (Some(t), Some(s)) => if t == "text"@ {
                front + s
            } else {
                front
            },
            _ => front,
        }
    }
}

/// The attributes of an element.
pub open spec fn attrs_of(node: JsonModel) -> JsonModel {
    match node.get("attrs"@) {
        Some(a) => a,
        None => JsonModel::Null,
    }
}

/// The script that a node is, on the page at `base`. One with a source is
/// fetched from what the source means there, and is dropped if that is
/// nothing; any other is the text inside it, unless that is blank.
pub open spec fn script_at(node: JsonModel, base: Seq<char>) -> Option<ScriptModel> {
    let attrs = attrs_of(node);
    let ty = match attrs.text_at("type"@) {
        Some(s) => s,
        None => Seq::empty(),
    };
    if node.text_at("type"@) == Some("element"@) && node.text_at("tag"@) == Some("script"@)
        && is_code(ty) {
        match attrs.text_at("src"@) {
            Some(src) => match joined_on_page(base, src) {
                Some(url) => if src.len() > 0 {
                    Some(
                        ScriptModel::External {
                            url,
                            kind: if attrs.get("async"@) is Some {
                                ScriptKind::Async
                            } else {
                                ScriptKind::Sync
                            },
                        },
                    )
                } else {
                    None
                },
                None => None,
            },
            None => match node.array_at("children"@) {
                Some(children) => if is_blank(inner_text(children)) {
                    None
                } else {
                    Some(ScriptModel::Inline(inner_text(children)))
                },
                None => None,
            },
        }
    } else {
        None
    }
}

/// A value that an object holds is smaller than the object.
proof fn lemma_entry_smaller(entries: Seq<(Seq<char>, JsonModel)>, key: Seq<char>)
    ensures
        entry(entries, key) matches Some(v) ==> decreases_to!(entries => v),
    decreases entries.len(),
{
    if entries.len() > 0 {
        if entries[0].0 == key {
            assert(decreases_to!(entries => entries[0]));
            assert(decreases_to!(entries[0] => entries[0].1));
        } else {
            lemma_entry_smaller(entries.skip(1), key);
            assert(decreases_to!(entries => entries.subrange(1, entries.len() as int)));
            assert(entries.skip(1) =~= entries.subrange(1, entries.len() as int));
        }
    }
}

/// The items of an array that an object holds are smaller than the object.
pub proof fn lemma_array_at_smaller(node: JsonModel, key: Seq<char>)
    ensures
        node.array_at(key) matches Some(items) ==> decreases_to!(node => items),
{
    if let JsonModel::Object(entries) = node {
        lemma_entry_smaller(entries, key);
        assert(decreases_to!(node => node->Object_0));
        if let Some(v) = entry(entries, key) {
            if let JsonModel::Array(items) = v {
                assert(decreases_to!(v => v->Array_0));
            }
        }
    }
}

/// The scripts of a page from a node on, in the order of the page.
pub open spec fn scripts_from(node: JsonModel, base: Seq<char>) -> Seq<ScriptModel>
    decreases node, 0nat,
{
    let own = match script_at(node, base) {
        Some(s) => seq![s],
        None => Seq::empty(),
    };
    match node.array_at("children"@) {
        Some(children) => {
            proof {
                lemma_array_at_smaller(node, "children"@);
            }
            own + scripts_among(children, base)
        },
        None => own,
    }
}

/// The scripts of a page from nodes on, in the order of the page.
pub open spec fn scripts_among(nodes: Seq<JsonModel>, base: Seq<char>) -> Seq<ScriptModel>
    decreases nodes, 1nat,
{
    if nodes.len() == 0 {
        Seq::empty()
    } else {
        scripts_among(nodes.drop_last(), base) + scripts_from(nodes.last(), base)
    }
}

/// Whether a text that may be missing is `s`.
fn is_text(v: Option<&String>, s: &str) -> (r: bool)
    ensures
        r == (match v {
            Some(t) => t@ == s@,
            None => false,
        }),
{
    match v {
        Some(t) => same(t.as_str(), s),
        None => false,
    }
}

/// The texts among children, one behind the other.
fn join_inner_text(children: &Vec<Json>) -> (r: String)
    ensures
        r@ == inner_text(items_model(children@)),
{
    let ghost m = items_model(children@);
    let mut out = String::new();
    let mut i: usize = 0;
    assert(m.take(0) =~= Seq::empty());
    while i < children.len()
        invariant
            i <= children.len(),
            m == items_model(children@),
            out@ == inner_text(m.take(i as int)),
        decreases children.len() - i,
    {
        proof {
            assert(m.take(i + 1).drop_last() =~= m.take(i as int));
            assert(m.take(i + 1).last() == m[i as int]);
        }
        let c = &children[i];
        if is_text(c.text_at("type"), "text") {
            if let Some(s) = c.text_at("content") {
                out.append(s.as_str());
            }
        }
        i = i + 1;
    }
    assert(m.take(i as int) =~= m);
    out
}

/// The script that a node is, on the page at `base`.
fn find_script(node: &Json, base: &str) -> (r: Option<ScriptItem>)
    ensures
        match r {
            Some(s) => script_at(node@, base@) == Some(s@),
            None => script_at(node@, base@) is None,
        },
{
    if !is_text(node.text_at("type"), "element") || !is_text(node.text_at("tag"), "script") {
        return None;
    }
    let none = Json::Null;
    let attrs: &Json = match node.get("attrs") {
        Some(a) => a,
        None => &none,
    };
    let ty: String = match attrs.text_at("type") {
        Some(s) => s.clone(),
        None => String::new(),
    };
    let lower = ascii_lower(ty.as_str());
    if ty.as_str().unicode_len() != 0 && !same(lower.as_str(), "text/javascript") && !same(
        lower.as_str(),
        "module",
    ) {
        return None;
    }
    match attrs.text_at("src") {
        Some(src) => {
            if src.as_str().unicode_len() == 0 {
                return None;
            }
            match join_on_page(base, src.as_str()) {
                Some(url) => {
                    let kind = match attrs.get("async") {
                        Some(_) => ScriptKind::Async,
                        None => ScriptKind::Sync,
                    };
                    Some(ScriptItem::External { url, kind })
                },
                None => None,
            }
        },
        None => match node.array_at("children") {
            Some(children) => {
                let content = join_inner_text(children);
                if blank(content.as_str()) {
                    None
                } else {
                    Some(ScriptItem::Inline(content))
                }
            },
            None => None,
        },
    }
}

/// Adds the scripts of a page from a node on, in the order of the page.
fn walk_for_scripts(node: &Json, base: &str, out: &mut Vec<ScriptItem>)
    ensures
        scripts_model(final(out)@) == scripts_model(old(out)@) + scripts_from(node@, base@),
    decreases node@,
{
    let ghost before = scripts_model(out@);
    let ghost own = match script_at(node@, base@) {
        Some(s) => seq![s],
        None => Seq::empty(),
    };
    if let Some(s) = find_script(node, base) {
        out.push(s);
    }
    assert(scripts_model(out@) =~= before + own);
    match node.array_at("children") {
        Some(children) => {
            let ghost m = items_model(children@);
            let ghost started = scripts_model(out@);
            let mut i: usize = 0;
            assert(m.take(0) =~= Seq::empty());
            assert(started + scripts_among(m.take(0), base@) =~= started);
            while i < children.len()
                invariant
                    i <= children.len(),
                    m == items_model(children@),
                    node@.array_at("children"@) == Some(m),
                    scripts_model(out@) == started + scripts_among(m.take(i as int), base@),
                decreases children.len() - i,
            {
                proof {
                    lemma_array_at_smaller(node@, "children"@);
                    assert(decreases_to!(m => m[i as int]));
                    assert(m[i as int] == children@[i as int]@);
                    assert(m.take(i + 1).drop_last() =~= m.take(i as int));
                    assert(m.take(i + 1).last() == m[i as int]);
                }
                walk_for_scripts(&children[i], base, out);
                assert(scripts_model(out@) =~= started + scripts_among(m.take(i + 1), base@));
                i = i + 1;
            }
            assert(m.take(i as int) =~= m);
            assert(scripts_model(out@) =~= before + (own + scripts_among(m, base@)));
        },
        None => {},
    }
}

/// The scripts of a page, in the order of the page.
pub fn collect_scripts(tree: &Json, base_url: &str) -> (r: Vec<ScriptItem>)
    ensures
        scripts_model(r@) == scripts_from(tree@, base_url@),
{
    let mut out: Vec<ScriptItem> = Vec::new();
    walk_for_scripts(tree, base_url, &mut out);
    assert(scripts_model(out@) =~= scripts_from(tree@, base_url@));
    out
}

/// Whether a line begins as an import or export of a module does.
pub open spec fn begins_module(t: Seq<char>) -> bool {
    ||| "import "@.is_prefix_of(t)
    ||| "import{"@.is_prefix_of(t)
    ||| "import\""@.is_prefix_of(t)
    ||| "import'"@.is_prefix_of(t)
    ||| "import*"@.is_prefix_of(t)
    ||| "export "@.is_prefix_of(t)
    ||| "export{"@.is_prefix_of(t)
    ||| "export*"@.is_prefix_of(t)
    ||| "export default"@.is_prefix_of(t)
}

/// Whether the line number `n` (from 0) of a text begins, after white space,
/// as an import or export does.
pub open spec fn module_line(s: Seq<char>, n: nat) -> bool {
    line_start(s, n) < s.len() && begins_module(trim_start(line(s, n)))
}

/// Whether a script looks like a module: one of its first 50 lines begins as
/// an import or export does.
pub open spec fn is_module(source: Seq<char>) -> bool {
    exists|n: nat| n < 50 && #[trigger] module_line(source, n)
}

/// Whether a script looks like a module.
pub fn looks_like_module(source: &str) -> (r: bool)
    ensures
        r == is_module(source@),
{
    let cs = chars_of(source);
    let mut pos: usize = 0;
    let mut n: usize = 0;
    while n < 50 && pos < cs.len()
        invariant
            cs@ == source@,
            n <= 50,
            pos == line_start(source@, n as nat),
            pos <= cs.len() + 1,
            forall|k: nat| k < n ==> !#[trigger] module_line(source@, k),
        decreases 50 - n,
    {
        let end: usize = find_line_end(&cs, pos);
        let ghost l = line(source@, n as nat);
        let mut i: usize = pos;
        while i < end && is_space_char(cs[i])
            invariant
                pos <= i <= end <= cs.len(),
                forall|j: int| pos <= j < i ==> crate::text::is_space(#[trigger] cs@[j]),
            decreases end - i,
        {
            i = i + 1;
        }
        proof {
            assert(l =~= cs@.subrange(pos as int, end as int));
            assert forall|j: int| 0 <= j < i - pos implies crate::text::is_space(#[trigger] l[j]) by {
                assert(l[j] == cs@[pos + j]);
            }
            if i < end {
                assert(l[i - pos] == cs@[i as int]);
            }
            lemma_leading_spaces_unique(l, i - pos);
            assert(trim_start(l) =~= cs@.subrange(i as int, end as int));
        }
        let rest = text_of(&cs, i, end);
        let t: &str = rest.as_str();
        if has_prefix(t, "import ") || has_prefix(t, "import{") || has_prefix(t, "import\"")
            || has_prefix(t, "import'") || has_prefix(t, "import*") || has_prefix(t, "export ")
            || has_prefix(t, "export{") || has_prefix(t, "export*") || has_prefix(
            t,
            "export default",
        ) {
            assert(module_line(source@, n as nat));
            return true;
        }
        assert(!module_line(source@, n as nat));
        if end == cs.len() {
            proof {
                assert forall|k: nat| k < 50 implies !#[trigger] module_line(source@, k) by {
                    if k > n {
                        lemma_line_start_grows(source@, (n + 1) as nat, k);
                    }
                }
            }
            return false;
        }
        pos = end + 1;
        n = n + 1;
    }
    proof {
        assert forall|k: nat| k < 50 implies !#[trigger] module_line(source@, k) by {
            if k > n {
                lemma_line_start_grows(source@, n as nat, k);
            }
        }
    }
    false
}

/// Later lines do not start earlier.
proof fn lemma_line_start_grows(s: Seq<char>, a: nat, b: nat)
    requires
        a <= b,
    ensures
        line_start(s, a) <= line_start(s, b),
    decreases b - a,
{
    if a < b {
        lemma_line_start_grows(s, a, (b - 1) as nat);
        lemma_line_end(s, line_start(s, (b - 1) as nat));
    }
}

/// A line does not end before it starts.
proof fn lemma_line_end(s: Seq<char>, i: int)
    ensures
        i <= line_end(s, i),
    decreases s.len() - i,
{
    if 0 <= i < s.len() && s[i] != '\n' {
        lemma_line_end(s, i + 1);
    }
}

// ---------------------------------------------------------------------
// What holds of every page
// ---------------------------------------------------------------------

/// No attribute occurs twice in the tree of a page.
pub proof fn law_attributes_distinct(attrs: Seq<(Seq<char>, Seq<char>)>)
    ensures
        crate::json::distinct_keys(attr_entries(attrs)),
    decreases attrs.len(),
{
    if attrs.len() > 0 {
        law_attributes_distinct(attrs.drop_last());
        lemma_with_entry_distinct(
            attr_entries(attrs.drop_last()),
            attrs.last().0,
            JsonModel::Text(attrs.last().1),
        );
    }
}

/// Of two attributes with one name the last counts.
pub proof fn law_last_attribute_counts(attrs: Seq<(Seq<char>, Seq<char>)>)
    requires
        attrs.len() > 0,
    ensures
        entry(attr_entries(attrs), attrs.last().0) == Some(JsonModel::Text(attrs.last().1)),
{
    let entries = attr_entries(attrs.drop_last());
    let key = attrs.last().0;
    let value = JsonModel::Text(attrs.last().1);
    law_attributes_distinct(attrs.drop_last());
    let i = if exists|i: int| 0 <= i < entries.len() && (#[trigger] entries[i]).0 == key {
        choose|i: int| 0 <= i < entries.len() && (#[trigger] entries[i]).0 == key
    } else {
        entries.len() as int
    };
    lemma_with_entry(entries, key, value, i);
    let after = attr_entries(attrs);
    assert(after[i] == (key, value));
    assert forall|j: int| 0 <= j < i implies (#[trigger] after[j]).0 != key by {
        assert(after[j] == entries[j]);
    }
    crate::json::lemma_entry_skip(after, key, i);
    assert(after.skip(i)[0] == after[i]);
}

/// Scripts of any other type than code are data: nothing is run or fetched
/// for them.
pub proof fn law_data_scripts_ignored(node: JsonModel, base: Seq<char>)
    requires
        attrs_of(node).text_at("type"@) matches Some(ty) && !is_code(ty),
    ensures
        script_at(node, base) is None,
{
}

/// Whether a node is a script element whose type, if it has one that is not
/// empty, is that of JavaScript or of a module, in letters of either case.
pub open spec fn is_code_element(node: JsonModel) -> bool {
    &&& node.text_at("type"@) == Some("element"@)
    &&& node.text_at("tag"@) == Some("script"@)
    &&& node.get("attrs"@) matches Some(attrs) ==> attrs.text_at("type"@) matches Some(t) ==> {
        ||| t == Seq::<char>::empty()
        ||| ascii_lowercase(t) == "text/javascript"@
        ||| ascii_lowercase(t) == "module"@
    }
}

/// A script with a source is fetched from where the source leads on the page,
/// and waits for its turn exactly if it is marked `async`; whatever its type,
/// as long as that is one of code. Nothing else is fetched.
pub proof fn law_scripts_with_a_source_are_fetched(
    node: JsonModel,
    base: Seq<char>,
    url: Seq<char>,
    kind: ScriptKind,
)
    ensures
        script_at(node, base) == Some(ScriptModel::External { url, kind }) <==> {
            &&& is_code_element(node)
            &&& node.get("attrs"@) matches Some(attrs) && attrs.text_at("src"@) matches Some(src)
                && src != Seq::<char>::empty() && url_parsed(base) is Ok && url_joined(base, src)
                == Ok::<Seq<char>, Seq<char>>(url) && (kind == ScriptKind::Async <==> attrs.get(
                "async"@,
            ) is Some)
        },
{
    let attrs = attrs_of(node);
    if let Some(t) = attrs.text_at("type"@) {
        if t.len() == 0 {
            assert(t =~= Seq::empty());
        }
    }
    if let Some(src) = attrs.text_at("src"@) {
        if src.len() == 0 {
            assert(src =~= Seq::empty());
        }
    }
}

/// A script without a source is the text inside it, unless that is blank, and
/// nothing else is.
pub proof fn law_scripts_without_a_source_are_their_text(
    node: JsonModel,
    base: Seq<char>,
    text: Seq<char>,
)
    ensures
        script_at(node, base) == Some(ScriptModel::Inline(text)) <==> {
            &&& is_code_element(node)
            &&& node.get("attrs"@) matches Some(attrs) ==> attrs.text_at("src"@) is None
            &&& node.array_at("children"@) matches Some(children) && inner_text(children) == text
            &&& exists|i: int| 0 <= i < text.len() && !crate::text::is_space(#[trigger] text[i])
        },
{
    let attrs = attrs_of(node);
    if let Some(t) = attrs.text_at("type"@) {
        if t.len() == 0 {
            assert(t =~= Seq::empty());
        }
    }
}

/// The text inside an element is that of its texts, one behind the other, and
/// of nothing else.
pub proof fn law_inner_text(a: Seq<JsonModel>, b: Seq<JsonModel>, c: JsonModel, s: Seq<char>)
    ensures
        inner_text(a + b) == inner_text(a) + inner_text(b),
        c.text_at("type"@) == Some("text"@) && c.text_at("content"@) == Some(s) ==> inner_text(
            seq![c],
        ) == s,
        c.text_at("type"@) != Some("text"@) || c.text_at("content"@) is None ==> inner_text(
            seq![c],
        ).len() == 0,
    decreases b.len(),
{
    assert(seq![c].drop_last() =~= Seq::empty());
    assert(inner_text(seq![c].drop_last()).len() == 0);
    assert(inner_text(Seq::empty()) + s =~= s);
    if b.len() == 0 {
        assert(a + b =~= a);
        assert(inner_text(a) + inner_text(b) =~= inner_text(a));
    } else {
        law_inner_text(a, b.drop_last(), c, s);
        assert((a + b).drop_last() =~= a + b.drop_last());
        assert((a + b).last() == b.last());
        assert(inner_text(a + b) =~= inner_text(a) + inner_text(b));
    }
}

/// The scripts of a page are found in the order of the page: a node comes
/// before what is inside it, and what is inside it in its order.
pub proof fn law_scripts_in_page_order(
    tree: &Json,
    base_url: &str,
    r: Vec<ScriptItem>,
    a: Seq<JsonModel>,
    b: Seq<JsonModel>,
)
    requires
        call_ensures(collect_scripts, (tree, base_url), r),
        tree@.array_at("children"@) == Some(a + b),
    ensures
        ({
            let inside = scripts_among(a, base_url@) + scripts_among(b, base_url@);
            match script_at(tree@, base_url@) {
                Some(s) => r@.len() == inside.len() + 1 && r@[0]@ == s && forall|i: int|
                    0 <= i < inside.len() ==> r@[i + 1]@ == #[trigger] inside[i],
                None => scripts_model(r@) == inside,
            }
        }),
{
    lemma_scripts_among(a, b, base_url@);
    let inside = scripts_among(a, base_url@) + scripts_among(b, base_url@);
    let all = scripts_model(r@);
    if script_at(tree@, base_url@) is Some {
        assert(all == seq![script_at(tree@, base_url@)->0] + inside);
        assert(all.len() == r@.len());
        assert(all[0] == r@[0]@);
        assert forall|i: int| 0 <= i < inside.len() implies r@[i + 1]@ == #[trigger] inside[i] by {
            assert(all[i + 1] == inside[i]);
        }
    } else {
        assert(all =~= inside);
    }
}

/// The scripts among nodes are those of the first ones and then those of the
/// others, and among one those that are found from it on.
proof fn lemma_scripts_among(a: Seq<JsonModel>, b: Seq<JsonModel>, base: Seq<char>)
    ensures
        scripts_among(a + b, base) == scripts_among(a, base) + scripts_among(b, base),
    decreases b.len(),
{
    if b.len() == 0 {
        assert(a + b =~= a);
        assert(scripts_among(a, base) + scripts_among(b, base) =~= scripts_among(a, base));
    } else {
        lemma_scripts_among(a, b.drop_last(), base);
        assert((a + b).drop_last() =~= a + b.drop_last());
        assert((a + b).last() == b.last());
        assert(scripts_among(a + b, base) =~= scripts_among(a, base) + scripts_among(b, base));
    }
}

/// Among one node the scripts are those of a page that is this node.
pub proof fn law_scripts_of_one_node(node: &Json, base_url: &str, r: Vec<ScriptItem>)
    requires
        call_ensures(collect_scripts, (node, base_url), r),
    ensures
        scripts_among(seq![node@], base_url@) == scripts_model(r@),
        node@.array_at("children"@) is None ==> scripts_model(r@) == (match script_at(
            node@,
            base_url@,
        ) {
            Some(s) => seq![s],
            None => Seq::empty(),
        }),
{
    let one = seq![node@];
    assert(one.drop_last() =~= Seq::empty());
    assert(scripts_among(one.drop_last(), base_url@) =~= Seq::empty());
    assert(scripts_among(one, base_url@) =~= scripts_model(r@));
}

/// An attribute is found under its name, the last where there are more.
pub proof fn law_attributes_are_found(
    a: Seq<(Seq<char>, Seq<char>)>,
    b: Seq<(Seq<char>, Seq<char>)>,
    name: Seq<char>,
    value: Seq<char>,
    key: Seq<char>,
)
    ensures
        entry(attr_entries(a + b), key) == (if entry(attr_entries(b), key) is Some {
            entry(attr_entries(b), key)
        } else {
            entry(attr_entries(a), key)
        }),
        entry(attr_entries(seq![(name, value)]), key) == (if key == name {
            Some(JsonModel::Text(value))
        } else {
            None
        }),
    decreases b.len(),
{
    let one = seq![(name, value)];
    let none = Seq::<(Seq<char>, JsonModel)>::empty();
    assert(one.drop_last() =~= Seq::empty());
    assert(one.last() == (name, value));
    assert(attr_entries(one.drop_last()) == none);
    assert(entry(none, key) is None);
    law_set_value_is_found(none, name, JsonModel::Text(value), key);
    if b.len() == 0 {
        assert(a + b =~= a);
        assert(attr_entries(b) == none);
    } else {
        let front = b.drop_last();
        law_attributes_are_found(a, front, name, value, key);
        assert((a + b).drop_last() =~= a + front);
        assert((a + b).last() == b.last());
        let last = JsonModel::Text(b.last().1);
        law_set_value_is_found(attr_entries(a + front), b.last().0, last, key);
        law_set_value_is_found(attr_entries(front), b.last().0, last, key);
    }
}

/// In the tree of a page an element keeps its name, its attributes and its
/// children, a text its text; comments and the like are left out, and all else
/// keeps its order.
pub proof fn law_tree_keeps_the_page(
    tag: Seq<char>,
    attrs: Seq<(Seq<char>, Seq<char>)>,
    a: Seq<DomModel>,
    b: Seq<DomModel>,
    s: Seq<char>,
)
    ensures
        ({
            let element = node_json(DomModel::Element(tag, attrs, a + b));
            &&& element.text_at("type"@) == Some("element"@)
            &&& element.text_at("tag"@) == Some(tag)
            &&& element.get("attrs"@) == Some(JsonModel::Object(attr_entries(attrs)))
            &&& element.array_at("children"@) == Some(children_json(a) + children_json(b))
            &&& children_json(seq![DomModel::Element(tag, attrs, a + b)]) == seq![element]
            &&& children_json(seq![DomModel::Other]).len() == 0
            &&& children_json(seq![DomModel::Text(s)]).len() == 1
            &&& children_json(seq![DomModel::Text(s)])[0].text_at("type"@) == Some("text"@)
            &&& children_json(seq![DomModel::Text(s)])[0].text_at("content"@) == Some(s)
        }),
{
    reveal_strlit("type");
    reveal_strlit("tag");
    reveal_strlit("attrs");
    reveal_strlit("children");
    reveal_strlit("content");
    assert("type"@.len() == 4);
    assert("tag"@.len() == 3);
    assert("attrs"@.len() == 5);
    assert("children"@.len() == 8);
    assert("content"@.len() == 7);
    let node = DomModel::Element(tag, attrs, a + b);
    let e = node_json(node)->Object_0;
    lemma_entry_at(e, "type"@, 0);
    lemma_entry_at(e, "tag"@, 1);
    lemma_entry_at(e, "attrs"@, 2);
    lemma_entry_at(e, "children"@, 3);
    lemma_children_json(a, b);
    let t = text_json(s)->Object_0;
    lemma_entry_at(t, "type"@, 0);
    lemma_entry_at(t, "content"@, 1);
    lemma_one_child(node);
    lemma_one_child(DomModel::Other);
    lemma_one_child(DomModel::Text(s));
}

proof fn lemma_one_child(d: DomModel)
    ensures
        children_json(seq![d]) == (match child_json(d) {
            Some(j) => seq![j],
            None => Seq::empty(),
        }),
{
    assert(seq![d].drop_last() =~= Seq::empty());
    assert(children_json(seq![d].drop_last()) == Seq::<JsonModel>::empty());
    assert(seq![d].last() == d);
}

proof fn lemma_children_json(a: Seq<DomModel>, b: Seq<DomModel>)
    ensures
        children_json(a + b) == children_json(a) + children_json(b),
    decreases b.len(),
{
    if b.len() == 0 {
        assert(a + b =~= a);
        assert(children_json(a) + children_json(b) =~= children_json(a));
    } else {
        lemma_children_json(a, b.drop_last());
        assert((a + b).drop_last() =~= a + b.drop_last());
        assert((a + b).last() == b.last());
        assert(children_json(a + b) =~= children_json(a) + children_json(b));
    }
}

/// The page of a document is its first `html` element, whatever stands round
/// it.
pub proof fn law_page_of_a_document(
    before: Seq<DomModel>,
    attrs: Seq<(Seq<char>, Seq<char>)>,
    children: Seq<DomModel>,
    after: Seq<DomModel>,
)
    requires
        forall|i: int|
            0 <= i < before.len() ==> !((#[trigger] before[i]) matches DomModel::Element(tag, _, _)
                && tag == "html"@),
    ensures
        ({
            let html = DomModel::Element("html"@, attrs, children);
            page_json(DomModel::Document(before + seq![html] + after)) == node_json(html)
        }),
        page_json(DomModel::Document(before)) == node_json(
            DomModel::Element("html"@, Seq::empty(), Seq::empty()),
        ),
    decreases before.len(),
{
    let html = DomModel::Element("html"@, attrs, children);
    let all = before + seq![html] + after;
    if before.len() == 0 {
        assert(all[0] == html);
        assert(attr_entries(Seq::empty()) == Seq::<(Seq<char>, JsonModel)>::empty());
        assert(children_json(Seq::empty()) == Seq::<JsonModel>::empty());
    } else {
        assert(all[0] == before[0]);
        assert(all.skip(1) =~= before.skip(1) + seq![html] + after);
        assert forall|i: int| 0 <= i < before.skip(1).len() implies !((
        #[trigger] before.skip(1)[i]) matches DomModel::Element(tag, _, _) && tag == "html"@) by {
            assert(before.skip(1)[i] == before[i + 1]);
        }
        law_page_of_a_document(before.skip(1), attrs, children, after);
    }
}

/// The content of a fragment is what stands in the first element of what the
/// parser makes of it.
pub proof fn law_content_of_a_fragment(
    before: Seq<DomModel>,
    tag: Seq<char>,
    attrs: Seq<(Seq<char>, Seq<char>)>,
    children: Seq<DomModel>,
    after: Seq<DomModel>,
)
    requires
        forall|i: int| 0 <= i < before.len() ==> !((#[trigger] before[i]) is Element),
    ensures
        fragment_json(
            DomModel::Document(before + seq![DomModel::Element(tag, attrs, children)] + after),
        ) == node_json(DomModel::Element("fragment"@, Seq::empty(), children)),
    decreases before.len(),
{
    let first = DomModel::Element(tag, attrs, children);
    let all = before + seq![first] + after;
    assert(attr_entries(Seq::empty()) == Seq::<(Seq<char>, JsonModel)>::empty());
    if before.len() == 0 {
        assert(all[0] == first);
    } else {
        assert(all[0] == before[0]);
        assert(all.skip(1) =~= before.skip(1) + seq![first] + after);
        assert forall|i: int| 0 <= i < before.skip(1).len() implies !((
        #[trigger] before.skip(1)[i]) is Element) by {
            assert(before.skip(1)[i] == before[i + 1]);
        }
        law_content_of_a_fragment(before.skip(1), tag, attrs, children, after);
    }
}

/// A line of a module begins with `import` or `export` and a character that no
/// name holds; a quotation mark only behind `import`.
pub proof fn law_words_of_a_module(t: Seq<char>)
    ensures
        begins_module(t) <==> t.len() >= 7 && {
            ||| t.take(6) == "import"@ && (t[6] == ' ' || t[6] == '{' || t[6] == '*' || t[6] == '"'
                || t[6] == '\'')
            ||| t.take(6) == "export"@ && (t[6] == ' ' || t[6] == '{' || t[6] == '*')
        },
{
    reveal_strlit("import");
    reveal_strlit("export");
    reveal_strlit("import ");
    reveal_strlit("import{");
    reveal_strlit("import\"");
    reveal_strlit("import'");
    reveal_strlit("import*");
    reveal_strlit("export ");
    reveal_strlit("export{");
    reveal_strlit("export*");
    reveal_strlit("export default");
    lemma_word_and_mark("import "@, "import"@, t);
    lemma_word_and_mark("import{"@, "import"@, t);
    lemma_word_and_mark("import\""@, "import"@, t);
    lemma_word_and_mark("import'"@, "import"@, t);
    lemma_word_and_mark("import*"@, "import"@, t);
    lemma_word_and_mark("export "@, "export"@, t);
    lemma_word_and_mark("export{"@, "export"@, t);
    lemma_word_and_mark("export*"@, "export"@, t);
    if "export default"@.is_prefix_of(t) {
        assert("export "@ =~= "export default"@.take(7));
        assert(t.take(7) =~= "export default"@.take(7));
        assert("export "@.is_prefix_of(t));
    }
}

/// A text begins with a word and a mark exactly if the two stand there.
proof fn lemma_word_and_mark(p: Seq<char>, word: Seq<char>, t: Seq<char>)
    requires
        p.len() == 7,
        word.len() == 6,
        forall|i: int| 0 <= i < 6 ==> p[i] == word[i],
    ensures
        p.is_prefix_of(t) <==> t.len() >= 7 && t.take(6) == word && t[6] == p[6],
{
    if p.is_prefix_of(t) {
        assert(forall|i: int| 0 <= i < 7 ==> p[i] == t[i]);
        assert(t.take(6) =~= word);
    }
    if t.len() >= 7 && t.take(6) == word && t[6] == p[6] {
        assert forall|i: int| 0 <= i < 7 implies p[i] == t[i] by {
            if i < 6 {
                assert(t.take(6)[i] == t[i]);
            }
        }
        assert(t.take(7) =~= p);
    }
}

/// How many newlines a text holds.
pub open spec fn newlines(s: Seq<char>) -> nat
    decreases s.len(),
{
    if s.len() == 0 {
        0
    } else {
        newlines(s.drop_last()) + if s.last() == '\n' {
            1nat
        } else {
            0nat
        }
    }
}

/// Between two places without a newline the count does not change.
proof fn lemma_newlines_between(s: Seq<char>, i: int, j: int)
    requires
        0 <= i <= j <= s.len(),
        forall|k: int| i <= k < j ==> s[k] != '\n',
    ensures
        newlines(s.take(j)) == newlines(s.take(i)),
    decreases j - i,
{
    if i < j {
        lemma_newlines_between(s, i, j - 1);
        assert(s.take(j).drop_last() =~= s.take(j - 1));
        assert(s.take(j).last() == s[j - 1]);
    }
}

/// A line ends at the first newline.
proof fn lemma_line_ends_at(s: Seq<char>, i: int, j: int)
    requires
        0 <= i <= j <= s.len(),
        forall|k: int| i <= k < j ==> s[k] != '\n',
    ensures
        line_end(s, i) >= j,
        j == s.len() || s[j] == '\n' ==> line_end(s, i) == j,
    decreases j - i,
{
    if i < j {
        lemma_line_ends_at(s, i + 1, j);
    } else {
        lemma_line_end(s, i);
    }
}

/// Where the line with a place starts.
pub open spec fn start_before(s: Seq<char>, i: int) -> int
    decreases i,
{
    if i <= 0 || s[i - 1] == '\n' {
        i
    } else {
        start_before(s, i - 1)
    }
}

proof fn lemma_start_before(s: Seq<char>, i: int)
    requires
        0 <= i <= s.len(),
    ensures
        0 <= start_before(s, i) <= i,
        start_before(s, i) == 0 || s[start_before(s, i) - 1] == '\n',
        forall|k: int| start_before(s, i) <= k < i ==> s[k] != '\n',
    decreases i,
{
    if i > 0 && s[i - 1] != '\n' {
        lemma_start_before(s, i - 1);
    }
}

/// The line behind so many newlines has that number.
proof fn lemma_line_at(s: Seq<char>, p: int)
    requires
        0 <= p <= s.len(),
        p == 0 || s[p - 1] == '\n',
    ensures
        line_start(s, newlines(s.take(p))) == p,
    decreases p,
{
    if p == 0 {
        assert(s.take(0) =~= Seq::empty());
    } else {
        lemma_start_before(s, p - 1);
        let q = start_before(s, p - 1);
        lemma_line_at(s, q);
        lemma_line_ends_at(s, q, p - 1);
        lemma_newlines_between(s, q, p - 1);
        assert(s.take(p).drop_last() =~= s.take(p - 1));
        assert(s.take(p).last() == s[p - 1]);
    }
}

/// A script is taken for a module wherever one of its first fifty lines begins,
/// behind white space, as one of a module does.
pub proof fn law_modules_are_told_by_a_line(
    before: Seq<char>,
    indent: Seq<char>,
    rest: Seq<char>,
)
    requires
        before.len() > 0 ==> before.last() == '\n',
        newlines(before) < 50,
        forall|i: int|
            0 <= i < indent.len() ==> crate::text::is_space(#[trigger] indent[i]) && indent[i]
                != '\n',
        begins_module(rest.take(7)),
        rest.len() >= 7,
    ensures
        is_module(before + indent + rest),
{
    let s = before + indent + rest;
    let p = before.len() as int;
    let q = p + indent.len();
    let n = newlines(before);
    assert(s.take(p) =~= before);
    if p > 0 {
        assert(s[p - 1] == before.last());
    }
    lemma_line_at(s, p);
    law_words_of_a_module(rest.take(7));
    let head = rest.take(7);
    assert(head.take(6) =~= rest.take(6));
    reveal_strlit("import");
    reveal_strlit("export");
    assert(head.take(6)[0] == head[0]);
    assert(!crate::text::is_space(head[0]));
    assert forall|k: int| 0 <= k < 7 implies #[trigger] head[k] != '\n' by {
        if k < 6 {
            assert(head.take(6)[k] == head[k]);
        }
    }
    assert forall|k: int| p <= k < q + 7 implies s[k] != '\n' by {
        if k < q {
            assert(s[k] == indent[k - p]);
        } else {
            assert(s[k] == rest[k - q]);
            assert(head[k - q] == rest[k - q]);
        }
    }
    lemma_line_ends_at(s, p, q + 7);
    let e = line_end(s, p);
    assert(e <= s.len()) by {
        lemma_line_bound(s, p);
    }
    let l = line(s, n);
    assert(l =~= s.subrange(p, e));
    assert forall|k: int| 0 <= k < indent.len() implies crate::text::is_space(#[trigger] l[k]) by {
        assert(l[k] == indent[k]);
    }
    assert(l[indent.len() as int] == head[0]);
    lemma_leading_spaces_unique(l, indent.len() as int);
    let t = trim_start(l);
    assert(t.len() >= 7);
    assert(t.take(7) =~= head);
    assert(t.take(6) =~= head.take(6));
    assert(t[6] == head[6]);
    law_words_of_a_module(t);
    assert(module_line(s, n));
}

proof fn lemma_line_bound(s: Seq<char>, i: int)
    requires
        0 <= i <= s.len(),
    ensures
        line_end(s, i) <= s.len(),
    decreases s.len() - i,
{
    if i < s.len() && s[i] != '\n' {
        lemma_line_bound(s, i + 1);
    }
}

/// Before the start of a line stand as many newlines as its number says.
proof fn lemma_line_number(s: Seq<char>, n: nat)
    requires
        line_start(s, n) <= s.len(),
    ensures
        0 <= line_start(s, n),
        line_start(s, n) == 0 || s[line_start(s, n) - 1] == '\n',
        newlines(s.take(line_start(s, n))) == n,
    decreases n,
{
    if n == 0 {
        assert(s.take(0) =~= Seq::empty());
    } else {
        let m = (n - 1) as nat;
        let q = line_start(s, m);
        let e = line_end(s, q);
        lemma_line_end(s, q);
        lemma_line_number(s, m);
        lemma_line_text(s, q);
        lemma_newlines_between(s, q, e);
        assert(s.take(e + 1).drop_last() =~= s.take(e));
        assert(s.take(e + 1).last() == s[e]);
    }
}

/// A line holds no newline, and ends at one or with the text.
proof fn lemma_line_text(s: Seq<char>, i: int)
    requires
        0 <= i <= s.len(),
    ensures
        i <= line_end(s, i) <= s.len(),
        forall|k: int| i <= k < line_end(s, i) ==> s[k] != '\n',
        line_end(s, i) < s.len() ==> s[line_end(s, i)] == '\n',
    decreases s.len() - i,
{
    if i < s.len() && s[i] != '\n' {
        lemma_line_text(s, i + 1);
    }
}

/// What is taken for a module has such a line, with fewer than fifty newlines
/// before it.
pub proof fn law_modules_have_such_a_line(s: Seq<char>)
    requires
        is_module(s),
    ensures
        exists|p: int|
            {
                &&& 0 <= p < s.len()
                &&& p == 0 || s[p - 1] == '\n'
                &&& newlines(#[trigger] s.take(p)) < 50
                &&& begins_module(trim_start(s.subrange(p, line_end(s, p))))
            },
{
    let n = choose|n: nat| n < 50 && #[trigger] module_line(s, n);
    let p = line_start(s, n);
    lemma_line_number(s, n);
    assert(newlines(s.take(p)) < 50);
}

/// Nodes, pages and fragments become the trees of which the laws on them speak;
/// and a text is a module exactly if those laws say so.
pub proof fn law_what_is_made_of_a_page(
    d: &Dom,
    child: Option<Json>,
    node: Json,
    page: Json,
    content: Json,
    source: &str,
    module: bool,
)
    requires
        call_ensures(child_to_json, (d,), child),
        call_ensures(node_to_json, (d,), node),
        call_ensures(document_tree, (d,), page),
        call_ensures(fragment_tree, (d,), content),
        call_ensures(looks_like_module, (source,), module),
    ensures
        child is Some <==> child_json(d@) is Some,
        child is Some ==> child_json(d@) == Some(child->0@),
        node@ == node_json(d@),
        page@ == page_json(d@),
        content@ == fragment_json(d@),
        module == is_module(source@),
{
}

/// A text of HTML is parsed as a page, or as a fragment that is handed over as
/// JSON text.
pub proof fn law_what_is_made_of_html(html: &str, page: Json, fragment: String)
    requires
        call_ensures(parse_html_to_tree, (html,), page),
        call_ensures(parse_html_fragment_to_json, (html,), fragment),
    ensures
        page@ == page_json(document_parsed(html@)),
        fragment@ == json_printed(with_map_entries(fragment_json(fragment_parsed(html@)))),
{
}

/// The kinds of scripts are told by these names.
pub proof fn law_names_of_kinds(kind: ScriptKind, r: &'static str)
    requires
        call_ensures(script_kind_str, (kind,), r),
    ensures
        r@ == kind_name(kind),
        kind is Sync ==> r@ == "sync"@,
        kind is Async ==> r@ == "async"@,
{
}

} // verus!
