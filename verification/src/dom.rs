//! Document tree: element, text, and comment nodes.

use vstd::prelude::*;
use vstd::hash_map::StringHashMap;
use crate::strutil::{spec_split_ws, split_ws};

verus! {

/// Attribute map of an element, keyed by attribute name.
pub type AttrMap = StringHashMap<String>;

/// A document node: its payload and its ordered children.
pub struct Node {
    pub node_type: NodeType,
    pub children: Vec<Node>,
}

/// The payload of a node.
pub enum NodeType {
    Element(ElementData),
    Text(String),
    Comment(String),
}

/// Tag name and attributes of an element node.
pub struct ElementData {
    pub tag_name: String,
    pub attributes: AttrMap,
}

impl Node {
    /// A text leaf.
    pub fn text(data: String) -> (n: Node)
        ensures
            n.node_type == NodeType::Text(data),
            n.children@ =~= Seq::<Node>::empty(),
    {
        Node { node_type: NodeType::Text(data), children: Vec::new() }
    }

    /// An element node with the given tag, attributes, and children.
    pub fn element(name: String, attrs: AttrMap, children: Vec<Node>) -> (n: Node)
        ensures
            n.node_type == NodeType::Element(ElementData { tag_name: name, attributes: attrs }),
            n.children == children,
    {
        Node {
            node_type: NodeType::Element(ElementData { tag_name: name, attributes: attrs }),
            children,
        }
    }

    /// A comment leaf.
    pub fn comment(data: String) -> (n: Node)
        ensures
            n.node_type == NodeType::Comment(data),
            n.children@ =~= Seq::<Node>::empty(),
    {
        Node { node_type: NodeType::Comment(data), children: Vec::new() }
    }
}

/// The class names of an element: the whitespace-separated words of its
/// `class` attribute, or none when the attribute is absent.
pub open spec fn spec_classes(e: ElementData) -> Seq<Seq<char>> {
    if e.attributes@.contains_key("class"@) {
        spec_split_ws(e.attributes@["class"@]@)
    } else {
        Seq::empty()
    }
}

/// The id of an element, when the `id` attribute is present.
pub open spec fn spec_id(e: ElementData) -> Option<Seq<char>> {
    if e.attributes@.contains_key("id"@) {
        Some(e.attributes@["id"@]@)
    } else {
        None
    }
}

impl ElementData {
    /// Looks up an attribute by name.
    pub fn get_attribute(&self, name: &str) -> (r: Option<&String>)
        ensures
            match r {
                Some(v) => self.attributes@.contains_key(name@) && *v == self.attributes@[name@],
                None => !self.attributes@.contains_key(name@),
            },
    {
        self.attributes.get(name)
    }

    /// The value of the `id` attribute, if any.
    pub fn id(&self) -> (r: Option<&String>)
        ensures
            match r {
                Some(v) => spec_id(*self) == Some(v@),
                None => spec_id(*self) is None,
            },
    {
        self.get_attribute("id")
    }

    /// The class names listed in the `class` attribute.
    pub fn classes(&self) -> (r: Vec<String>)
        ensures
            r@.map_values(|w: String| w@) == spec_classes(*self),
    {
        match self.get_attribute("class") {
            Some(classlist) => split_ws(classlist.as_str()),
            None => {
                let r: Vec<String> = Vec::new();
                proof {
                    assert(r@.map_values(|w: String| w@) =~= Seq::<Seq<char>>::empty());
                }
                r
            },
        }
    }
}

// ---------------------------------------------------------------------------
// Tree formatting
// ---------------------------------------------------------------------------

/// Two spaces per indentation level.
pub open spec fn spec_indent(n: int) -> Seq<char>
    decreases n,
{
    if n <= 0 {
        Seq::empty()
    } else {
        spec_indent(n - 1) + "  "@
    }
}

/// The next indentation level; it saturates far beyond any real tree.
pub open spec fn spec_next_indent(n: int) -> int {
    if n < 0x1000_0000 {
        n + 1
    } else {
        n
    }
}

/// The printable lines of one node at the given indentation: elements
/// as an opening line, their children one level deeper, and a closing
/// line; non-blank text trimmed and quoted; comments in comment
/// brackets.
pub open spec fn spec_node_lines(n: Node, indent: int) -> Seq<Seq<char>>
    decreases n, 0int, 0int,
{
    match n.node_type {
        NodeType::Element(e) => {
            let open_line = spec_indent(indent) + "  <"@ + e.tag_name@ + ">"@;
            let close_line = spec_indent(indent) + "  </"@ + e.tag_name@ + ">"@;
            seq![open_line] + spec_nodes_lines(
                n.children@,
                0,
                spec_next_indent(indent),
                Seq::empty(),
            ) + seq![close_line]
        },
        NodeType::Text(t) => {
            let tr = crate::strutil::spec_trim(t@);
            if tr.len() == 0 {
                Seq::empty()
            } else {
                seq![spec_indent(indent) + "  \""@ + tr + "\""@]
            }
        },
        NodeType::Comment(c) => seq![spec_indent(indent) + "  <!-- "@ + c@ + " -->"@],
    }
}

/// The lines of the nodes `cs[i..]`, appended to `done` in order.
pub open spec fn spec_nodes_lines(cs: Seq<Node>, i: int, indent: int, done: Seq<Seq<char>>) -> Seq<
    Seq<char>,
>
    decreases cs, 1int, cs.len() - i,
{
    if i < 0 || i >= cs.len() {
        done
    } else {
        spec_nodes_lines(cs, i + 1, indent, done + spec_node_lines(cs[i], indent))
    }
}

proof fn lemma_nodes_lines_prefix(cs: Seq<Node>, i: int, indent: int, done: Seq<Seq<char>>)
    ensures
        spec_nodes_lines(cs, i, indent, done) =~= done + spec_nodes_lines(
            cs,
            i,
            indent,
            Seq::empty(),
        ),
    decreases cs, 1int, cs.len() - i,
{
    if i < 0 || i >= cs.len() {
    } else {
        lemma_nodes_lines_prefix(cs, i + 1, indent, done + spec_node_lines(cs[i], indent));
        lemma_nodes_lines_prefix(cs, i + 1, indent, Seq::empty() + spec_node_lines(cs[i], indent));
        assert(Seq::<Seq<char>>::empty() + spec_node_lines(cs[i], indent) =~= spec_node_lines(
            cs[i],
            indent,
        ));
        assert(done + spec_node_lines(cs[i], indent) + spec_nodes_lines(
            cs,
            i + 1,
            indent,
            Seq::empty(),
        ) =~= done + (spec_node_lines(cs[i], indent) + spec_nodes_lines(
            cs,
            i + 1,
            indent,
            Seq::empty(),
        )));
    }
}

/// Two spaces repeated `n` times.
fn indent_string(n: usize) -> (r: String)
    ensures
        r@ == spec_indent(n as int),
{
    let mut s = String::new();
    let mut i: usize = 0;
    while i < n
        invariant
            0 <= i <= n,
            s@ == spec_indent(i as int),
        decreases n - i,
    {
        s.append("  ");
        i = i + 1;
    }
    s
}

/// The printable lines of a subtree.
fn node_lines(node: &Node, indent: usize) -> (r: Vec<String>)
    ensures
        r@.map_values(|s: String| s@) == spec_node_lines(*node, indent as int),
    decreases *node,
{
    let mut out: Vec<String> = Vec::new();
    proof {
        assert(out@.map_values(|s: String| s@) =~= Seq::<Seq<char>>::empty());
    }
    match &node.node_type {
        NodeType::Element(e) => {
            let mut open_line = indent_string(indent);
            open_line.append("  <");
            open_line.append(e.tag_name.as_str());
            open_line.append(">");
            out.push(open_line);
            let ghost base = out@.map_values(|s: String| s@);
            let next: usize = if indent < 0x1000_0000 {
                indent + 1
            } else {
                indent
            };
            let ghost cs = node.children@;
            let n = node.children.len();
            let mut i: usize = 0;
            while i < n
                invariant
                    n == node.children@.len(),
                    cs == node.children@,
                    next as int == spec_next_indent(indent as int),
                    0 <= i <= n,
                    spec_nodes_lines(cs, i as int, next as int, out@.map_values(|s: String| s@))
                        == spec_nodes_lines(cs, 0, next as int, base),
                decreases n - i,
            {
                let ghost prev = out@.map_values(|s: String| s@);
                let child = &node.children[i];
                let mut lines = node_lines(child, next);
                let m = lines.len();
                let mut j: usize = 0;
                while j < m
                    invariant
                        m == lines@.map_values(|s: String| s@).len(),
                        0 <= j <= m,
                        out@.map_values(|s: String| s@) =~= prev + lines@.map_values(
                            |s: String| s@,
                        ).subrange(0, j as int),
                    decreases m - j,
                {
                    let ghost before = out@.map_values(|s: String| s@);
                    let line = lines[j].clone();
                    proof {
                        assert(line@ == lines@.map_values(|s: String| s@)[j as int]);
                    }
                    out.push(line);
                    proof {
                        assert(out@.map_values(|s: String| s@) =~= before.push(line@));
                        assert(before.push(line@) =~= prev + lines@.map_values(
                            |s: String| s@,
                        ).subrange(0, j + 1));
                    }
                    j = j + 1;
                }
                proof {
                    assert(lines@.map_values(|s: String| s@).subrange(
                        0,
                        lines@.len() as int,
                    ) =~= lines@.map_values(|s: String| s@));
                    assert(out@.map_values(|s: String| s@) =~= prev + spec_node_lines(
                        cs[i as int],
                        next as int,
                    ));
                }
                i = i + 1;
            }
            proof {
                lemma_nodes_lines_prefix(cs, 0, next as int, base);
            }
            let mut close_line = indent_string(indent);
            close_line.append("  </");
            close_line.append(e.tag_name.as_str());
            close_line.append(">");
            let ghost before_close = out@.map_values(|s: String| s@);
            out.push(close_line);
            proof {
                assert(out@.map_values(|s: String| s@) =~= before_close.push(close_line@));
                assert(out@.map_values(|s: String| s@) =~= spec_node_lines(*node, indent as int));
            }
        },
        NodeType::Text(t) => {
            let tr = crate::strutil::trim(t.as_str());
            if tr.as_str().unicode_len() > 0 {
                let mut line = indent_string(indent);
                line.append("  \"");
                line.append(tr.as_str());
                line.append("\"");
                out.push(line);
                proof {
                    assert(out@.map_values(|s: String| s@) =~= seq![line@]);
                    assert(out@.map_values(|s: String| s@) =~= spec_node_lines(
                        *node,
                        indent as int,
                    ));
                }
            }
        },
        NodeType::Comment(c) => {
            let mut line = indent_string(indent);
            line.append("  <!-- ");
            line.append(c.as_str());
            line.append(" -->");
            out.push(line);
            proof {
                assert(out@.map_values(|s: String| s@) =~= seq![line@]);
                assert(out@.map_values(|s: String| s@) =~= spec_node_lines(*node, indent as int));
            }
        },
    }
    out
}

/// Owner of a parsed document tree.
pub struct DOMTree {
    pub root: Option<Node>,
}

impl DOMTree {
    /// An empty tree.
    pub fn new() -> (t: DOMTree)
        ensures
            t.root is None,
    {
        DOMTree { root: None }
    }

    /// Installs the given root node.
    pub fn build(&mut self, root_node: Node)
        ensures
            final(self).root == Some(root_node),
    {
        self.root = Some(root_node);
    }

    /// The printable lines of the tree, ready to be written out.
    pub fn tree_lines(&self) -> (r: Vec<String>)
        ensures
            match self.root {
                Some(n) => r@.map_values(|s: String| s@) == spec_node_lines(n, 0),
                None => r@.len() == 0,
            },
    {
        match &self.root {
            Some(n) => node_lines(n, 0),
            None => Vec::new(),
        }
    }
}

} // verus!
