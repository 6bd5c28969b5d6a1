//! A small recursive-descent markup parser producing a document tree.
//! It is total: malformed input never stops it; unclosed or stray
//! markup is consumed as best it can be.

use vstd::prelude::*;
use vstd::hash_map::StringHashMap;
use crate::dom::{Node, NodeType, AttrMap};
use crate::strutil::spec_is_space;

verus! {

/// A character class the parser scans over.
#[derive(Clone, Copy)]
pub enum CharTest {
    /// ASCII whitespace.
    Space,
    /// ASCII letters and digits (tag and attribute names).
    TagChar,
    /// Any character but the given one.
    NotChar(char),
}

/// True when `c` is an ASCII letter or digit.
pub open spec fn spec_is_tag_char(c: char) -> bool {
    (48 <= c as u32 && c as u32 <= 57) || (97 <= c as u32 && c as u32 <= 122) || (65 <= c as u32
        && c as u32 <= 90)
}

pub open spec fn spec_char_test(t: CharTest, c: char) -> bool {
    match t {
        CharTest::Space => spec_is_space(c),
        CharTest::TagChar => spec_is_tag_char(c),
        CharTest::NotChar(q) => c != q,
    }
}

fn char_test(t: CharTest, c: char) -> (r: bool)
    ensures
        r == spec_char_test(t, c),
{
    match t {
        CharTest::Space => crate::strutil::is_space(c),
        CharTest::TagChar => {
            let u = c as u32;
            (48 <= u && u <= 57) || (97 <= u && u <= 122) || (65 <= u && u <= 90)
        },
        CharTest::NotChar(q) => c != q,
    }
}

/// The first index at or after `i` whose character fails the test (or
/// the end of the input).
pub open spec fn spec_scan(s: Seq<char>, i: int, t: CharTest) -> int
    decreases s.len() - i,
{
    if i < 0 || i >= s.len() || !spec_char_test(t, s[i]) {
        i
    } else {
        spec_scan(s, i + 1, t)
    }
}

proof fn lemma_scan_bounds(s: Seq<char>, i: int, t: CharTest)
    requires
        0 <= i <= s.len(),
    ensures
        i <= spec_scan(s, i, t) <= s.len(),
    decreases s.len() - i,
{
    if i < s.len() && spec_char_test(t, s[i]) {
        lemma_scan_bounds(s, i + 1, t);
    }
}

/// A markup parser: a cursor over the characters of its input.
pub struct HTMLParser {
    pub pos: usize,
    pub input: String,
}

/// The cursor stays within the input.
pub open spec fn parser_wf(p: HTMLParser) -> bool {
    p.pos <= p.input@.len()
}

impl HTMLParser {
    pub fn new() -> (p: HTMLParser)
        ensures
            p.pos == 0,
            p.input@ =~= Seq::<char>::empty(),
            parser_wf(p),
    {
        HTMLParser { pos: 0, input: String::new() }
    }

    /// Whether the whole input has been consumed.
    fn eof(&self) -> (r: bool)
        ensures
            r == (self.pos >= self.input@.len()),
    {
        self.pos >= self.input.as_str().unicode_len()
    }

    /// The character under the cursor.
    fn next_char(&self) -> (c: char)
        requires
            self.pos < self.input@.len(),
        ensures
            c == self.input@[self.pos as int],
    {
        self.input.as_str().get_char(self.pos)
    }

    /// Whether the remaining input starts with `s`.
    fn starts_with(&self, s: &str) -> (r: bool)
        requires
            parser_wf(*self),
        ensures
            r == (self.pos + s@.len() <= self.input@.len() && self.input@.subrange(
                self.pos as int,
                self.pos + s@.len(),
            ) =~= s@),
    {
        let n = s.unicode_len();
        let len = self.input.as_str().unicode_len();
        if n > len - self.pos {
            return false;
        }
        let mut i: usize = 0;
        while i < n
            invariant
                n == s@.len(),
                len == self.input@.len(),
                self.pos + n <= len,
                0 <= i <= n,
                forall|k: int| 0 <= k < i ==> self.input@[self.pos + k] == s@[k],
            decreases n - i,
        {
            if self.input.as_str().get_char(self.pos + i) != s.get_char(i) {
                proof {
                    assert(self.input@.subrange(self.pos as int, self.pos + s@.len())[i as int]
                        != s@[i as int]);
                }
                return false;
            }
            i = i + 1;
        }
        proof {
            assert(self.input@.subrange(self.pos as int, self.pos + s@.len()) =~= s@);
        }
        true
    }

    /// Consumes and returns the character under the cursor.
    fn consume_char(&mut self) -> (c: char)
        requires
            old(self).pos < old(self).input@.len(),
        ensures
            final(self).input == old(self).input,
            final(self).pos == old(self).pos + 1,
            c == old(self).input@[old(self).pos as int],
    {
        let _len = self.input.as_str().unicode_len();
        let c = self.next_char();
        self.pos = self.pos + 1;
        c
    }

    /// Consumes the longest run of characters satisfying the test and
    /// returns it.
    fn consume_while(&mut self, t: CharTest) -> (r: String)
        requires
            parser_wf(*old(self)),
        ensures
            final(self).input == old(self).input,
            final(self).pos == spec_scan(old(self).input@, old(self).pos as int, t),
            old(self).pos <= final(self).pos,
            parser_wf(*final(self)),
            r@ == old(self).input@.subrange(old(self).pos as int, final(self).pos as int),
            old(self).pos < old(self).input@.len() && spec_char_test(
                t,
                old(self).input@[old(self).pos as int],
            ) ==> final(self).pos > old(self).pos,
            final(self).pos < final(self).input@.len() ==> !spec_char_test(
                t,
                final(self).input@[final(self).pos as int],
            ),
    {
        let len = self.input.as_str().unicode_len();
        let start = self.pos;
        let mut j = self.pos;
        while j < len && char_test(t, self.input.as_str().get_char(j))
            invariant
                len == self.input@.len(),
                start <= j <= len,
                start == self.pos,
                spec_scan(self.input@, j as int, t) == spec_scan(self.input@, start as int, t),
            decreases len - j,
        {
            j = j + 1;
        }
        proof {
            lemma_scan_bounds(self.input@, start as int, t);
        }
        let r = self.input.as_str().substring_char(start, j).to_owned();
        self.pos = j;
        r
    }

    /// Consumes whitespace.
    fn consume_whitespace(&mut self)
        requires
            parser_wf(*old(self)),
        ensures
            final(self).input == old(self).input,
            old(self).pos <= final(self).pos,
            parser_wf(*final(self)),
            final(self).pos < final(self).input@.len() ==> !spec_is_space(
                final(self).input@[final(self).pos as int],
            ),
    {
        let _ws = self.consume_while(CharTest::Space);
    }

    /// Parses an alphanumeric name.
    fn parse_tag_name(&mut self) -> (r: String)
        requires
            parser_wf(*old(self)),
        ensures
            final(self).input == old(self).input,
            old(self).pos <= final(self).pos,
            parser_wf(*final(self)),
    {
        self.consume_while(CharTest::TagChar)
    }

    /// Parses a text run up to the next `<`.
    fn parse_text(&mut self) -> (r: Node)
        requires
            parser_wf(*old(self)),
        ensures
            final(self).input == old(self).input,
            old(self).pos <= final(self).pos,
            parser_wf(*final(self)),
            old(self).pos < old(self).input@.len() && old(self).input@[old(self).pos as int] != '<'
                ==> final(self).pos > old(self).pos,
    {
        let data = self.consume_while(CharTest::NotChar('<'));
        Node::text(data)
    }

    /// Parses a quoted attribute value; an unquoted one is empty.
    fn parse_attr_value(&mut self) -> (r: String)
        requires
            parser_wf(*old(self)),
        ensures
            final(self).input == old(self).input,
            old(self).pos <= final(self).pos,
            parser_wf(*final(self)),
    {
        let len = self.input.as_str().unicode_len();
        if self.pos >= len {
            return String::new();
        }
        let open_quote = self.next_char();
        if open_quote != '"' && open_quote != '\'' {
            return String::new();
        }
        let _q = self.consume_char();
        let value = self.consume_while(CharTest::NotChar(open_quote));
        if self.pos < self.input.as_str().unicode_len() {
            let _close = self.consume_char();
        }
        value
    }

    /// Parses one `name="value"` attribute.
    fn parse_attr(&mut self) -> (r: (String, String))
        requires
            parser_wf(*old(self)),
        ensures
            final(self).input == old(self).input,
            old(self).pos <= final(self).pos,
            parser_wf(*final(self)),
    {
        let name = self.parse_tag_name();
        let len = self.input.as_str().unicode_len();
        if self.pos < len && self.next_char() == '=' {
            let _eq = self.consume_char();
            let value = self.parse_attr_value();
            (name, value)
        } else {
            (name, String::new())
        }
    }

    /// Parses attributes up to the closing `>` of a tag.
    fn parse_attributes(&mut self) -> (r: AttrMap)
        requires
            parser_wf(*old(self)),
        ensures
            final(self).input == old(self).input,
            old(self).pos <= final(self).pos,
            parser_wf(*final(self)),
    {
        let mut attributes: AttrMap = StringHashMap::new();
        let len = self.input.as_str().unicode_len();
        loop
            invariant
                len == self.input@.len(),
                parser_wf(*self),
                self.input == old(self).input,
                old(self).pos <= self.pos,
            decreases len - self.pos,
        {
            self.consume_whitespace();
            if self.eof() {
                break;
            }
            if self.next_char() == '>' {
                break;
            }
            let before = self.pos;
            let (name, value) = self.parse_attr();
            if name.as_str().unicode_len() > 0 {
                attributes.insert(name, value);
            }
            if self.pos == before {
                // Malformed input that no production consumes: skip one
                // character so the scan always advances.
                let _junk = self.consume_char();
            }
        }
        attributes
    }

    /// Parses one node: an element at `<`, a text run otherwise.
    fn parse_node(&mut self) -> (r: Node)
        requires
            parser_wf(*old(self)),
            old(self).pos < old(self).input@.len(),
        ensures
            final(self).input == old(self).input,
            old(self).pos < final(self).pos,
            parser_wf(*final(self)),
        decreases old(self).input@.len() - old(self).pos, 1int,
    {
        if self.next_char() == '<' {
            self.parse_element()
        } else {
            self.parse_text()
        }
    }

    /// Parses an element: its tag, attributes, children, and closing
    /// tag.
    fn parse_element(&mut self) -> (r: Node)
        requires
            parser_wf(*old(self)),
            old(self).pos < old(self).input@.len(),
            old(self).input@[old(self).pos as int] == '<',
        ensures
            final(self).input == old(self).input,
            old(self).pos < final(self).pos,
            parser_wf(*final(self)),
        decreases old(self).input@.len() - old(self).pos, 0int,
    {
        let _lt = self.consume_char();
        let tag_name = self.parse_tag_name();
        let attrs = self.parse_attributes();
        let len = self.input.as_str().unicode_len();
        if self.pos < len && self.next_char() == '>' {
            let _gt = self.consume_char();
        }
        let children = self.parse_nodes();
        // Closing tag, if present.
        if self.starts_with("</") {
            proof {
                reveal_strlit("</");
            }
            let _lt2 = self.consume_char();
            let _slash = self.consume_char();
            let _close_name = self.parse_tag_name();
            let len2 = self.input.as_str().unicode_len();
            if self.pos < len2 && self.next_char() == '>' {
                let _gt2 = self.consume_char();
            }
        }
        Node::element(tag_name, attrs, children)
    }

    /// Parses sibling nodes until the input ends or a closing tag
    /// starts.
    fn parse_nodes(&mut self) -> (r: Vec<Node>)
        requires
            parser_wf(*old(self)),
        ensures
            final(self).input == old(self).input,
            old(self).pos <= final(self).pos,
            parser_wf(*final(self)),
        decreases old(self).input@.len() - old(self).pos, 2int,
    {
        let mut nodes: Vec<Node> = Vec::new();
        let len = self.input.as_str().unicode_len();
        loop
            invariant
                len == self.input@.len(),
                parser_wf(*self),
                self.input == old(self).input,
                old(self).pos <= self.pos,
            decreases len - self.pos,
        {
            self.consume_whitespace();
            if self.eof() {
                break;
            }
            if self.starts_with("</") {
                break;
            }
            let node = self.parse_node();
            nodes.push(node);
        }
        nodes
    }

    /// Parses a document: the top-level nodes are parsed in input
    /// order and handed to `wrap_top_nodes`, whose contract fixes the
    /// result's shape — the single top node itself, or an `html`
    /// element wrapping all of them. (What the nodes themselves are is
    /// not specified: the markup grammar is this parser's informal
    /// business, not a stated contract.)
    pub fn parse(&mut self, html: &str) -> (r: Node)
        ensures
            final(self).input@ == html@,
            parser_wf(*final(self)),
    {
        self.input = html.to_owned();
        self.pos = 0;
        let nodes = self.parse_nodes();
        wrap_top_nodes(nodes)
    }
}

/// The document node for a list of top-level nodes: the node itself
/// when there is exactly one, else an attribute-less `html` element
/// holding them all in order. `parse` returns exactly this of the
/// top-level nodes it scanned; what those nodes are is fixed by the
/// grammar, not by a stated contract.
pub fn wrap_top_nodes(nodes: Vec<Node>) -> (r: Node)
    ensures
        nodes@.len() == 1 ==> r == nodes@[0],
        nodes@.len() != 1 ==> {
            &&& r.node_type matches NodeType::Element(e) && e.tag_name@ == "html"@
                && e.attributes@ =~= Map::<Seq<char>, String>::empty()
            &&& r.children@ == nodes@
        },
{
    if nodes.len() == 1 {
        let mut nodes = nodes;
        let first = nodes.remove(0);
        first
    } else {
        let empty: AttrMap = StringHashMap::new();
        Node::element("html".to_owned(), empty, nodes)
    }
}

} // verus!
