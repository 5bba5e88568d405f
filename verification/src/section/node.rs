//! The tree a document is read into.
use crate::span::{Span, SpanModel, spans_model};
use vstd::prelude::*;

verus! {

/// A section, a part of a section, or a block of text.
///
/// `bounds` is `"full"` for a section without an end tag, `"start"` for one
/// that runs to its end tag (whose node is its last child, except in a JSON
/// section, which reads its end tag with its data and keeps no node for it),
/// and `"end"` for the end tag with the text that follows it.
#[derive(Debug)]
pub enum Node {
    Basic { kind: String, children: Vec<Node>, bounds: String },
    Block { spans: Vec<Span> },
    Checklist { kind: String, children: Vec<Node>, bounds: String },
    ChecklistItem { children: Vec<Node>, status: bool, status_value: Option<String> },
    Comment { bounds: String, kind: String, text: Option<String>, children: Vec<Node> },
    Generic { kind: String, children: Vec<Node>, bounds: String },
    Json { bounds: String, kind: String, data: Option<String>, children: Vec<Node> },
    List { kind: String, children: Vec<Node>, bounds: String },
    ListItem { children: Vec<Node> },
    Raw { bounds: String, kind: String, text: Option<String>, children: Vec<Node> },
    TagFinderInit,
    Yaml { bounds: String, kind: String, data: Option<String>, children: Vec<Node> },
}

/// The mathematical value of a [`Node`]: strings as character sequences,
/// children as sequences of models.
pub enum NodeModel {
    Basic { kind: Seq<char>, children: Seq<NodeModel>, bounds: Seq<char> },
    Block { spans: Seq<SpanModel> },
    Checklist { kind: Seq<char>, children: Seq<NodeModel>, bounds: Seq<char> },
    ChecklistItem { children: Seq<NodeModel>, status: bool, status_value: Option<Seq<char>> },
    Comment {
        bounds: Seq<char>,
        kind: Seq<char>,
        text: Option<Seq<char>>,
        children: Seq<NodeModel>,
    },
    Generic { kind: Seq<char>, children: Seq<NodeModel>, bounds: Seq<char> },
    Json {
        bounds: Seq<char>,
        kind: Seq<char>,
        data: Option<Seq<char>>,
        children: Seq<NodeModel>,
    },
    List { kind: Seq<char>, children: Seq<NodeModel>, bounds: Seq<char> },
    ListItem { children: Seq<NodeModel> },
    Raw {
        bounds: Seq<char>,
        kind: Seq<char>,
        text: Option<Seq<char>>,
        children: Seq<NodeModel>,
    },
    TagFinderInit,
    Yaml {
        bounds: Seq<char>,
        kind: Seq<char>,
        data: Option<Seq<char>>,
        children: Seq<NodeModel>,
    },
}

/// An optional string as an optional character sequence.
pub open spec fn opt_model(o: Option<String>) -> Option<Seq<char>> {
    match o {
        Some(s) => Some(s@),
        None => None,
    }
}

impl Node {
    pub open spec fn model(&self) -> NodeModel
        decreases self,
    {
        match self {
            Node::Basic { kind, children, bounds } => NodeModel::Basic {
                kind: kind@,
                children: nodes_model(children@),
                bounds: bounds@,
            },
            Node::Block { spans } => NodeModel::Block { spans: spans_model(spans@) },
            Node::Checklist { kind, children, bounds } => NodeModel::Checklist {
                kind: kind@,
                children: nodes_model(children@),
                bounds: bounds@,
            },
            Node::ChecklistItem { children, status, status_value } => NodeModel::ChecklistItem {
                children: nodes_model(children@),
                status: *status,
                status_value: opt_model(*status_value),
            },
            Node::Comment { bounds, kind, text, children } => NodeModel::Comment {
                bounds: bounds@,
                kind: kind@,
                text: opt_model(*text),
                children: nodes_model(children@),
            },
            Node::Generic { kind, children, bounds } => NodeModel::Generic {
                kind: kind@,
                children: nodes_model(children@),
                bounds: bounds@,
            },
            Node::Json { bounds, kind, data, children } => NodeModel::Json {
                bounds: bounds@,
                kind: kind@,
                data: opt_model(*data),
                children: nodes_model(children@),
            },
            Node::List { kind, children, bounds } => NodeModel::List {
                kind: kind@,
                children: nodes_model(children@),
                bounds: bounds@,
            },
            Node::ListItem { children } => NodeModel::ListItem {
                children: nodes_model(children@),
            },
            Node::Raw { bounds, kind, text, children } => NodeModel::Raw {
                bounds: bounds@,
                kind: kind@,
                text: opt_model(*text),
                children: nodes_model(children@),
            },
            Node::TagFinderInit => NodeModel::TagFinderInit,
            Node::Yaml { bounds, kind, data, children } => NodeModel::Yaml {
                bounds: bounds@,
                kind: kind@,
                data: opt_model(*data),
                children: nodes_model(children@),
            },
        }
    }
}

/// The models of a sequence of nodes, in order.
pub open spec fn nodes_model(s: Seq<Node>) -> Seq<NodeModel>
    decreases s,
{
    if s.len() == 0 {
        Seq::empty()
    } else {
        nodes_model(s.drop_last()).push(s.last().model())
    }
}

pub proof fn lemma_nodes_model(s: Seq<Node>)
    ensures
        nodes_model(s).len() == s.len(),
        forall|i: int| 0 <= i < s.len() ==> #[trigger] nodes_model(s)[i] == s[i].model(),
    decreases s.len(),
{
    if s.len() > 0 {
        lemma_nodes_model(s.drop_last());
    }
}

pub proof fn lemma_nodes_model_push(s: Seq<Node>, x: Node)
    ensures
        nodes_model(s.push(x)) == nodes_model(s).push(x.model()),
{
    assert(s.push(x).drop_last() =~= s);
}

pub proof fn lemma_nodes_model_empty()
    ensures
        nodes_model(Seq::<Node>::empty()) == Seq::<NodeModel>::empty(),
{
}

/// A node read from the start of the input, with the characters it consumed.
pub open spec fn node_result(r: Option<(usize, Node)>, pos: usize) -> Option<(int, NodeModel)> {
    match r {
        Some((e, n)) => Some((e - pos, n.model())),
        None => None,
    }
}

/// The last of `children` is the end tag of a section: a node of the same
/// kind as `n`, with the same name, whose bounds are `"end"`.
pub open spec fn ends_with_end_of(children: Seq<NodeModel>, n: NodeModel) -> bool {
    children.len() > 0 && match (n, children.last()) {
        (NodeModel::Basic { kind, .. }, NodeModel::Basic { kind: k, bounds: b, .. }) => k == kind
            && b == "end"@,
        (NodeModel::Checklist { kind, .. }, NodeModel::Checklist { kind: k, bounds: b, .. }) => k
            == kind && b == "end"@,
        (NodeModel::Comment { kind, .. }, NodeModel::Comment { kind: k, bounds: b, .. }) => k
            == kind && b == "end"@,
        (NodeModel::Generic { kind, .. }, NodeModel::Generic { kind: k, bounds: b, .. }) => k
            == kind && b == "end"@,
        (NodeModel::List { kind, .. }, NodeModel::List { kind: k, bounds: b, .. }) => k == kind
            && b == "end"@,
        (NodeModel::Raw { kind, .. }, NodeModel::Raw { kind: k, bounds: b, .. }) => k == kind
            && b == "end"@,
        (NodeModel::Yaml { kind, .. }, NodeModel::Yaml { kind: k, bounds: b, .. }) => k == kind
            && b == "end"@,
        _ => false,
    }
}

/// Every section of `ns` that runs to an end tag is closed by it, throughout
/// the tree. A JSON section reads its end tag together with its data and
/// keeps no node for it, so it is closed by construction.
pub open spec fn closed(ns: Seq<NodeModel>) -> bool
    decreases ns,
{
    if ns.len() == 0 {
        true
    } else {
        closed(ns.drop_last()) && closed_node(ns.last())
    }
}

/// `n` is closed: where its bounds are `"start"` (and it is not a JSON
/// section), its last child is its end tag (see [`ends_with_end_of`]), and
/// its children are closed.
pub open spec fn closed_node(n: NodeModel) -> bool
    decreases n,
{
    match n {
        NodeModel::Basic { children, bounds, .. } => (bounds == "start"@ ==> ends_with_end_of(
            children,
            n,
        )) && closed(children),
        NodeModel::Block { .. } => true,
        NodeModel::Checklist { children, bounds, .. } => (bounds == "start"@ ==> ends_with_end_of(
            children,
            n,
        )) && closed(children),
        NodeModel::ChecklistItem { children, .. } => closed(children),
        NodeModel::Comment { children, bounds, .. } => (bounds == "start"@ ==> ends_with_end_of(
            children,
            n,
        )) && closed(children),
        NodeModel::Generic { children, bounds, .. } => (bounds == "start"@ ==> ends_with_end_of(
            children,
            n,
        )) && closed(children),
        NodeModel::Json { children, .. } => closed(children),
        NodeModel::List { children, bounds, .. } => (bounds == "start"@ ==> ends_with_end_of(
            children,
            n,
        )) && closed(children),
        NodeModel::ListItem { children } => closed(children),
        NodeModel::Raw { children, bounds, .. } => (bounds == "start"@ ==> ends_with_end_of(
            children,
            n,
        )) && closed(children),
        NodeModel::TagFinderInit => true,
        NodeModel::Yaml { children, bounds, .. } => (bounds == "start"@ ==> ends_with_end_of(
            children,
            n,
        )) && closed(children),
    }
}

pub proof fn lemma_closed(ns: Seq<NodeModel>)
    ensures
        closed(ns) <==> forall|i: int| 0 <= i < ns.len() ==> closed_node(#[trigger] ns[i]),
    decreases ns.len(),
{
    if ns.len() > 0 {
        lemma_closed(ns.drop_last());
        if closed(ns) {
            assert forall|i: int| 0 <= i < ns.len() implies closed_node(#[trigger] ns[i]) by {
                if i < ns.len() - 1 {
                    assert(ns[i] == ns.drop_last()[i]);
                }
            }
        }
        if forall|i: int| 0 <= i < ns.len() ==> closed_node(#[trigger] ns[i]) {
            assert forall|i: int| 0 <= i < ns.drop_last().len() implies closed_node(
                #[trigger] ns.drop_last()[i],
            ) by {
                assert(ns.drop_last()[i] == ns[i]);
            }
            assert(closed_node(ns[ns.len() - 1]));
        }
    }
}

} // verus!
