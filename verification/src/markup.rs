//! The elements of an XML document in the order in which they open, each with
//! its path from the root, and the questions that are asked of them.

use vstd::prelude::*;
use crate::paths::text_of;
use crate::text::{chars_of, last_index_of, lemma_last_index_of, rfind_char, string_of_range, text_eq, trim, trimmed, owned};
use crate::xml::{XmlEvent, XmlEventView, attribute_views, event_views};

verus! {

/// An element of a document.
#[derive(Debug, Clone)]
pub struct XmlNode {
    /// The names of the element and of those around it, from the root on,
    /// without their prefixes, joined by `/`.
    pub path: String,
    /// How many elements lie around it.
    pub depth: usize,
    pub attributes: Vec<(String, String)>,
    /// The text that stands directly in the element.
    pub text: String,
}

/// An element as plain data.
pub struct NodeView {
    pub path: Seq<char>,
    pub depth: nat,
    pub attributes: Seq<(Seq<char>, Seq<char>)>,
    pub text: Seq<char>,
}

impl View for XmlNode {
    type V = NodeView;

    open spec fn view(&self) -> NodeView {
        NodeView {
            path: self.path@,
            depth: self.depth as nat,
            attributes: attribute_views(self.attributes@),
            text: self.text@,
        }
    }
}

/// The elements as plain data.
pub open spec fn node_views(s: Seq<XmlNode>) -> Seq<NodeView> {
    s.map_values(|n: XmlNode| n@)
}

/// A name without its prefix: what follows its last `:`.
pub open spec fn local_name(name: Seq<char>) -> Seq<char> {
    let i = last_index_of(name, ':');
    if 0 <= i < name.len() {
        name.subrange(i + 1, name.len() as int)
    } else {
        name
    }
}

/// A name without its prefix.
pub fn local_name_of(name: &str) -> (r: String)
    ensures
        r@ == local_name(name@),
{
    let v = chars_of(name);
    proof {
        lemma_last_index_of(v@, ':');
    }
    match rfind_char(&v, ':') {
        Some(i) => string_of_range(&v, i + 1, v.len()),
        None => owned(name),
    }
}

/// The elements read so far, and those among them that are still open,
/// outermost first.
pub struct TreeView {
    pub nodes: Seq<NodeView>,
    pub open: Seq<int>,
}

/// The tree after one more event: an opening element joins the elements and
/// the open ones; a closing one leaves the open ones; text joins the text of
/// the innermost open element.
pub open spec fn grown(tree: TreeView, event: XmlEventView) -> TreeView {
    match event {
        XmlEventView::Open { name, attributes } => {
            let path = if tree.open.len() > 0 && 0 <= tree.open.last() < tree.nodes.len() {
                tree.nodes[tree.open.last()].path + seq!['/'] + local_name(name)
            } else {
                local_name(name)
            };
            TreeView {
                nodes: tree.nodes.push(
                    NodeView { path, depth: tree.open.len(), attributes, text: Seq::empty() },
                ),
                open: tree.open.push(tree.nodes.len() as int),
            }
        },
        XmlEventView::Close { .. } => if tree.open.len() > 0 {
            TreeView { nodes: tree.nodes, open: tree.open.drop_last() }
        } else {
            tree
        },
        XmlEventView::Text(t) => if tree.open.len() > 0 && 0 <= tree.open.last()
            < tree.nodes.len() {
            let i = tree.open.last();
            TreeView {
                nodes: tree.nodes.update(
                    i,
                    NodeView { text: tree.nodes[i].text + t, ..tree.nodes[i] },
                ),
                open: tree.open,
            }
        } else {
            tree
        },
    }
}

/// The tree that the events make.
pub open spec fn tree_of(events: Seq<XmlEventView>) -> TreeView
    decreases events.len(),
{
    if events.len() == 0 {
        TreeView { nodes: Seq::empty(), open: Seq::empty() }
    } else {
        grown(tree_of(events.drop_last()), events.last())
    }
}

/// The elements of a document, in the order in which they open.
pub open spec fn nodes_of(events: Seq<XmlEventView>) -> Seq<NodeView> {
    tree_of(events).nodes
}

/// The open elements as positions.
pub open spec fn open_views(s: Seq<usize>) -> Seq<int> {
    s.map_values(|i: usize| i as int)
}

/// The elements of a document, in the order in which they open.
pub fn build_nodes(events: &Vec<XmlEvent>) -> (r: Vec<XmlNode>)
    ensures
        node_views(r@) == nodes_of(event_views(events@)),
{
    let ghost ev = event_views(events@);
    let mut nodes: Vec<XmlNode> = Vec::new();
    let mut open: Vec<usize> = Vec::new();
    let mut i: usize = 0;
    assert(node_views(nodes@) =~= tree_of(ev.take(0)).nodes);
    assert(open_views(open@) =~= tree_of(ev.take(0)).open);
    while i < events.len()
        invariant
            i <= events.len(),
            ev == event_views(events@),
            node_views(nodes@) == tree_of(ev.take(i as int)).nodes,
            open_views(open@) == tree_of(ev.take(i as int)).open,
            forall|k: int| 0 <= k < open@.len() ==> (#[trigger] open@[k]) < nodes@.len(),
            open@.len() <= nodes@.len(),
        decreases events.len() - i,
    {
        proof {
            assert(ev.take(i + 1).drop_last() =~= ev.take(i as int));
            assert(ev.take(i + 1).last() == events@[i as int]@);
        }
        let ghost nv = node_views(nodes@);
        let ghost ov = open_views(open@);
        match &events[i] {
            XmlEvent::Open { name, attributes } => {
                let local = local_name_of(name.as_str());
                let path = if open.len() > 0 {
                    let parent = open[open.len() - 1];
                    assert(ov.last() == parent as int);
                    assert(nv[parent as int] == nodes@[parent as int]@);
                    let mut p = nodes[parent].path.clone();
                    p.append("/");
                    p.append(local.as_str());
                    proof {
                        reveal_strlit("/");
                        assert("/"@ =~= seq!['/']);
                    }
                    p
                } else {
                    local
                };
                let mut copied: Vec<(String, String)> = Vec::new();
                let mut a: usize = 0;
                while a < attributes.len()
                    invariant
                        a <= attributes.len(),
                        attribute_views(copied@) == attribute_views(attributes@).take(a as int),
                    decreases attributes.len() - a,
                {
                    let ghost before = attribute_views(copied@);
                    let pair = (attributes[a].0.clone(), attributes[a].1.clone());
                    copied.push(pair);
                    a += 1;
                    assert(attribute_views(copied@) =~= before.push((pair.0@, pair.1@)));
                    assert(attribute_views(copied@) =~= attribute_views(attributes@).take(a as int));
                }
                assert(attribute_views(attributes@).take(attributes.len() as int)
                    =~= attribute_views(attributes@));
                let node = XmlNode {
                    path,
                    depth: open.len(),
                    attributes: copied,
                    text: String::new(),
                };
                let index = nodes.len();
                nodes.push(node);
                open.push(index);
                assert(node_views(nodes@) =~= nv.push(node@));
                assert(open_views(open@) =~= ov.push(index as int));
            },
            XmlEvent::Close { .. } => {
                if open.len() > 0 {
                    open.pop();
                    assert(open_views(open@) =~= ov.drop_last());
                }
            },
            XmlEvent::Text(t) => {
                if open.len() > 0 {
                    let inner = open[open.len() - 1];
                    assert(ov.last() == inner as int);
                    assert(nv[inner as int] == nodes@[inner as int]@);
                    let mut joined = nodes[inner].text.clone();
                    joined.append(t.as_str());
                    nodes[inner].text = joined;
                    assert(node_views(nodes@) =~= nv.update(
                        inner as int,
                        NodeView { text: nv[inner as int].text + t@, ..nv[inner as int] },
                    ));
                }
            },
        }
        i += 1;
    }
    assert(ev.take(events.len() as int) =~= ev);
    nodes
}

/// Where the elements within the element at `i` end: at the next element
/// that lies no deeper, or at the end.
pub open spec fn within_end(nodes: Seq<NodeView>, i: int, pos: int) -> int
    decreases nodes.len() - pos,
{
    if i < 0 || pos <= i || pos >= nodes.len() || i >= nodes.len() || nodes[pos].depth
        <= nodes[i].depth {
        pos
    } else {
        within_end(nodes, i, pos + 1)
    }
}

/// Where the elements within the element at `i` end.
pub fn subtree_end(nodes: &Vec<XmlNode>, i: usize) -> (r: usize)
    requires
        i < nodes.len(),
    ensures
        r as int == within_end(node_views(nodes@), i as int, i + 1),
        i < r <= nodes.len(),
{
    let ghost nv = node_views(nodes@);
    let mut pos: usize = i + 1;
    while pos < nodes.len() && nodes[pos].depth > nodes[i].depth
        invariant
            i < pos <= nodes.len(),
            nv == node_views(nodes@),
            within_end(nv, i as int, i + 1) == within_end(nv, i as int, pos as int),
        decreases nodes.len() - pos,
    {
        assert(nv[pos as int] == nodes@[pos as int]@);
        assert(nv[i as int] == nodes@[i as int]@);
        pos += 1;
    }
    proof {
        if pos < nodes.len() {
            assert(nv[pos as int] == nodes@[pos as int]@);
            assert(nv[i as int] == nodes@[i as int]@);
        }
    }
    pos
}

/// The place of the first element with the path among those from `from` up
/// to `to`, or `-1`.
pub open spec fn path_at(nodes: Seq<NodeView>, from: int, to: int, path: Seq<char>) -> int
    decreases to - from,
{
    if from < 0 || from >= to || to > nodes.len() {
        -1
    } else if nodes[from].path == path {
        from
    } else {
        path_at(nodes, from + 1, to, path)
    }
}

/// The place of the first element with the path among those from `from` up
/// to `to`.
pub fn find_path(nodes: &Vec<XmlNode>, from: usize, to: usize, path: &str) -> (r: Option<usize>)
    requires
        from <= to <= nodes.len(),
    ensures
        match r {
            Some(i) => i as int == path_at(node_views(nodes@), from as int, to as int, path@)
                && from <= i < to,
            None => path_at(node_views(nodes@), from as int, to as int, path@) == -1,
        },
{
    let ghost nv = node_views(nodes@);
    let mut i: usize = from;
    while i < to
        invariant
            from <= i <= to <= nodes.len(),
            nv == node_views(nodes@),
            path_at(nv, from as int, to as int, path@) == path_at(nv, i as int, to as int, path@),
        decreases to - i,
    {
        assert(nv[i as int] == nodes@[i as int]@);
        if text_eq(nodes[i].path.as_str(), path) {
            return Some(i);
        }
        i += 1;
    }
    None
}

/// The value of the first attribute with the name, prefixes left aside.
pub open spec fn attribute_in(attributes: Seq<(Seq<char>, Seq<char>)>, pos: int, name: Seq<char>) -> Option<
    Seq<char>,
>
    decreases attributes.len() - pos,
{
    if pos < 0 || pos >= attributes.len() {
        None
    } else if local_name(attributes[pos].0) == name {
        Some(attributes[pos].1)
    } else {
        attribute_in(attributes, pos + 1, name)
    }
}

/// The value of the first attribute of an element with the name, prefixes
/// left aside.
pub fn attribute(node: &XmlNode, name: &str) -> (r: Option<String>)
    ensures
        text_of(r) == attribute_in(node@.attributes, 0, name@),
{
    let ghost av = attribute_views(node.attributes@);
    let mut i: usize = 0;
    while i < node.attributes.len()
        invariant
            i <= node.attributes.len(),
            av == attribute_views(node.attributes@),
            attribute_in(av, 0, name@) == attribute_in(av, i as int, name@),
        decreases node.attributes.len() - i,
    {
        assert(av[i as int] == (node.attributes@[i as int].0@, node.attributes@[i as int].1@));
        let local = local_name_of(node.attributes[i].0.as_str());
        if text_eq(local.as_str(), name) {
            return Some(node.attributes[i].1.clone());
        }
        i += 1;
    }
    None
}

/// The texts of the elements from `from` up to `to`, each trimmed, the ones
/// that are not empty joined by line feeds and added to `held`.
pub open spec fn texts_joined(nodes: Seq<NodeView>, from: int, to: int, held: Seq<char>) -> Seq<char>
    decreases to - from,
{
    if from < 0 || from >= to || to > nodes.len() {
        held
    } else {
        let t = trimmed(nodes[from].text);
        texts_joined(
            nodes,
            from + 1,
            to,
            if t.len() == 0 {
                held
            } else if held.len() == 0 {
                t
            } else {
                held + seq!['\n'] + t
            },
        )
    }
}

/// All the text within the element at `i`.
pub open spec fn text_within(nodes: Seq<NodeView>, i: int) -> Seq<char> {
    texts_joined(nodes, i, within_end(nodes, i, i + 1), Seq::empty())
}

/// All the text within the element at `i`: its own and that of the elements
/// within it, each trimmed, joined by line feeds.
pub fn text_of_subtree(nodes: &Vec<XmlNode>, i: usize) -> (r: String)
    requires
        i < nodes.len(),
    ensures
        r@ == text_within(node_views(nodes@), i as int),
{
    let ghost nv = node_views(nodes@);
    let end = subtree_end(nodes, i);
    let mut held = String::new();
    let mut k: usize = i;
    while k < end
        invariant
            i <= k <= end <= nodes.len(),
            nv == node_views(nodes@),
            texts_joined(nv, i as int, end as int, Seq::empty()) == texts_joined(
                nv,
                k as int,
                end as int,
                held@,
            ),
        decreases end - k,
    {
        assert(nv[k as int] == nodes@[k as int]@);
        let t = trim(nodes[k].text.as_str());
        if !t.as_str().is_empty() {
            if held.as_str().is_empty() {
                held = t;
            } else {
                proof {
                    reveal_strlit("\n");
                    assert("\n"@ =~= seq!['\n']);
                }
                held.append("\n");
                held.append(t.as_str());
            }
        }
        k += 1;
    }
    held
}

/// The text within the first element with the path, or `None` where there is
/// no such element or it holds no text.
pub open spec fn first_text(nodes: Seq<NodeView>, from: int, to: int, path: Seq<char>) -> Option<
    Seq<char>,
> {
    let i = path_at(nodes, from, to, path);
    if 0 <= i < nodes.len() && text_within(nodes, i).len() > 0 {
        Some(text_within(nodes, i))
    } else {
        None
    }
}

/// The text within the first element with the path among those from `from`
/// up to `to`.
pub fn first_text_at(nodes: &Vec<XmlNode>, from: usize, to: usize, path: &str) -> (r: Option<String>)
    requires
        from <= to <= nodes.len(),
    ensures
        text_of(r) == first_text(node_views(nodes@), from as int, to as int, path@),
{
    match find_path(nodes, from, to, path) {
        Some(i) => {
            let t = text_of_subtree(nodes, i);
            if t.as_str().is_empty() {
                None
            } else {
                Some(t)
            }
        },
        None => None,
    }
}

/// The texts within all the elements with the path, those that are not
/// empty, added to `held`.
pub open spec fn all_texts(
    nodes: Seq<NodeView>,
    from: int,
    to: int,
    path: Seq<char>,
    held: Seq<Seq<char>>,
) -> Seq<Seq<char>>
    decreases to - from,
{
    if from < 0 || from >= to || to > nodes.len() {
        held
    } else if nodes[from].path == path && text_within(nodes, from).len() > 0 {
        all_texts(nodes, from + 1, to, path, held.push(text_within(nodes, from)))
    } else {
        all_texts(nodes, from + 1, to, path, held)
    }
}

/// The texts within all the elements with the path among those from `from`
/// up to `to`, in order; elements without text are left out.
pub fn all_texts_at(nodes: &Vec<XmlNode>, from: usize, to: usize, path: &str) -> (r: Vec<String>)
    requires
        from <= to <= nodes.len(),
    ensures
        crate::text::texts(r@) == all_texts(
            node_views(nodes@),
            from as int,
            to as int,
            path@,
            Seq::empty(),
        ),
{
    let ghost nv = node_views(nodes@);
    let mut held: Vec<String> = Vec::new();
    let mut i: usize = from;
    assert(crate::text::texts(held@) =~= Seq::<Seq<char>>::empty());
    while i < to
        invariant
            from <= i <= to <= nodes.len(),
            nv == node_views(nodes@),
            all_texts(nv, from as int, to as int, path@, Seq::empty()) == all_texts(
                nv,
                i as int,
                to as int,
                path@,
                crate::text::texts(held@),
            ),
        decreases to - i,
    {
        assert(nv[i as int] == nodes@[i as int]@);
        if text_eq(nodes[i].path.as_str(), path) {
            let t = text_of_subtree(nodes, i);
            if !t.as_str().is_empty() {
                let ghost before = crate::text::texts(held@);
                held.push(t);
                assert(crate::text::texts(held@) =~= before.push(t@));
            }
        }
        i += 1;
    }
    held
}

} // verus!
