//! Style-sheet data model: rules, selectors, declarations, values, colors.

use vstd::prelude::*;

verus! {

/// An RGBA color with one byte per channel.
#[derive(Debug, Clone, Copy, PartialEq, Eq, Structural)]
pub struct Color {
    pub r: u8,
    pub g: u8,
    pub b: u8,
    pub a: u8,
}

/// True when `c` is an ASCII hexadecimal digit.
pub open spec fn spec_is_hex_digit(c: char) -> bool {
    (48 <= c as u32 && c as u32 <= 57)  // '0'..'9'
    || (97 <= c as u32 && c as u32 <= 102)  // 'a'..'f'
    || (65 <= c as u32 && c as u32 <= 70)  // 'A'..'F'
}

/// Numeric value of an ASCII hexadecimal digit (0 for other characters).
pub open spec fn spec_hex_val(c: char) -> int {
    if 48 <= c as u32 && c as u32 <= 57 {
        c as u32 - 48
    } else if 97 <= c as u32 && c as u32 <= 102 {
        c as u32 - 97 + 10
    } else if 65 <= c as u32 && c as u32 <= 70 {
        c as u32 - 65 + 10
    } else {
        0
    }
}

/// The color denoted by a `#rrggbb` literal, if `s` is one.
pub open spec fn spec_from_hex(s: Seq<char>) -> Option<Color> {
    if s.len() == 7 && s[0] == '#' && (forall|i: int| 1 <= i < 7 ==> spec_is_hex_digit(#[trigger] s[i])) {
        Some(Color {
            r: (16 * spec_hex_val(s[1]) + spec_hex_val(s[2])) as u8,
            g: (16 * spec_hex_val(s[3]) + spec_hex_val(s[4])) as u8,
            b: (16 * spec_hex_val(s[5]) + spec_hex_val(s[6])) as u8,
            a: 255,
        })
    } else {
        None
    }
}

impl Color {
    pub fn new(r: u8, g: u8, b: u8, a: u8) -> (c: Color)
        ensures
            c == (Color { r, g, b, a }),
    {
        Color { r, g, b, a }
    }

    pub fn white() -> (c: Color)
        ensures
            c == (Color { r: 255u8, g: 255u8, b: 255u8, a: 255u8 }),
    {
        Color::new(255, 255, 255, 255)
    }

    pub fn black() -> (c: Color)
        ensures
            c == (Color { r: 0u8, g: 0u8, b: 0u8, a: 255u8 }),
    {
        Color::new(0, 0, 0, 255)
    }

    /// Parses a `#rrggbb` color literal; the alpha channel is always 255.
    pub fn from_hex(s: &str) -> (c: Option<Color>)
        ensures
            c == spec_from_hex(s@),
    {
        let n = s.unicode_len();
        if n != 7 {
            return None;
        }
        if s.get_char(0) != '#' {
            return None;
        }
        let mut vals: [u32; 6] = [0, 0, 0, 0, 0, 0];
        let mut i: usize = 1;
        while i < 7
            invariant
                1 <= i <= 7,
                s@.len() == 7,
                forall|k: int| 1 <= k < i ==> spec_is_hex_digit(#[trigger] s@[k]),
                forall|k: int| 1 <= k < i ==> vals[k - 1] == spec_hex_val(s@[k]),
            decreases 7 - i,
        {
            let ch = s.get_char(i);
            let u = ch as u32;
            let v: u32 = if 48 <= u && u <= 57 {
                u - 48
            } else if 97 <= u && u <= 102 {
                u - 97 + 10
            } else if 65 <= u && u <= 70 {
                u - 65 + 10
            } else {
                return None;
            };
            vals[i - 1] = v;
            i = i + 1;
        }
        Some(Color {
            r: (16 * vals[0] + vals[1]) as u8,
            g: (16 * vals[2] + vals[3]) as u8,
            b: (16 * vals[4] + vals[5]) as u8,
            a: 255,
        })
    }
}

/// A length unit. Only `Px` lengths carry through `to_px` unchanged;
/// percentages are resolved by the layout stage against the containing
/// block's content width, and `Em`/`Rem` resolve to zero.
#[derive(Debug, Clone, Copy, PartialEq, Eq, Structural)]
pub enum Unit {
    Px,
    Em,
    Rem,
    Percent,
}

/// A declared property value: a keyword, a length with a unit, or a color.
/// Lengths are whole device-independent pixels.
#[derive(Debug)]
pub enum Value {
    Keyword(String),
    Length(i64, Unit),
    Color(Color),
}

/// Equality of property values, with keyword strings compared by content.
pub open spec fn spec_value_eq(a: Value, b: Value) -> bool {
    match (a, b) {
        (Value::Keyword(x), Value::Keyword(y)) => x@ == y@,
        (Value::Length(n, u), Value::Length(m, v)) => n == m && u == v,
        (Value::Color(x), Value::Color(y)) => x == y,
        _ => false,
    }
}

impl Clone for Value {
    fn clone(&self) -> (res: Self)
        ensures
            res == *self,
    {
        match self {
            Value::Keyword(s) => Value::Keyword(s.clone()),
            Value::Length(n, u) => Value::Length(*n, *u),
            Value::Color(c) => Value::Color(*c),
        }
    }
}

impl PartialEq for Value {
    fn eq(&self, other: &Self) -> (r: bool) {
        match (self, other) {
            (Value::Keyword(x), Value::Keyword(y)) => *x == *y,
            (Value::Length(n, u), Value::Length(m, v)) => *n == *m && *u == *v,
            (Value::Color(x), Value::Color(y)) => *x == *y,
            _ => false,
        }
    }
}

impl vstd::std_specs::cmp::PartialEqSpecImpl for Value {
    open spec fn obeys_eq_spec() -> bool {
        true
    }

    open spec fn eq_spec(&self, other: &Self) -> bool {
        spec_value_eq(*self, *other)
    }
}

/// The pixel count a value contributes directly: the number of a `Px`
/// length, and zero for everything else.
pub open spec fn spec_to_px(v: Value) -> int {
    match v {
        Value::Length(n, Unit::Px) => n as int,
        _ => 0,
    }
}

impl Value {
    /// Pixel count of a `Px` length; zero for any other value.
    pub fn to_px(&self) -> (r: i64)
        ensures
            r as int == spec_to_px(*self),
    {
        match *self {
            Value::Length(f, Unit::Px) => f,
            _ => 0,
        }
    }
}

/// One `property: value` pair.
#[derive(Debug)]
pub struct Declaration {
    pub name: String,
    pub value: Value,
}

/// A simple selector: optional tag name, optional id, and a list of
/// class names. A constraint that is absent is trivially satisfied.
#[derive(Debug)]
pub struct SimpleSelector {
    pub tag_name: Option<String>,
    pub id: Option<String>,
    pub classes: Vec<String>,
}

/// A selector; only simple selectors are supported.
#[derive(Debug)]
pub enum Selector {
    Simple(SimpleSelector),
}

/// Specificity of a simple selector as an (id, class, tag) count triple.
pub open spec fn spec_specificity(s: SimpleSelector) -> (int, int, int) {
    (
        if s.id is Some { 1int } else { 0int },
        s.classes@.len() as int,
        if s.tag_name is Some { 1int } else { 0int },
    )
}

/// Specificity of a selector.
pub open spec fn spec_selector_specificity(s: Selector) -> (int, int, int) {
    match s {
        Selector::Simple(simple) => spec_specificity(simple),
    }
}

impl Selector {
    /// The (id-count, class-count, tag-count) specificity triple; higher
    /// triples (compared lexicographically) are more specific.
    pub fn specificity(&self) -> (r: (usize, usize, usize))
        ensures
            (r.0 as int, r.1 as int, r.2 as int) == spec_selector_specificity(*self),
    {
        let Selector::Simple(ref simple) = *self;
        let id: usize = if simple.id.is_some() {
            1
        } else {
            0
        };
        let classes: usize = simple.classes.len();
        let tag: usize = if simple.tag_name.is_some() {
            1
        } else {
            0
        };
        (id, classes, tag)
    }
}

/// A rule: a selector list (logical OR) and a declaration list.
#[derive(Debug)]
pub struct Rule {
    pub selectors: Vec<Selector>,
    pub declarations: Vec<Declaration>,
}

/// An ordered sequence of rules.
#[derive(Debug)]
pub struct Stylesheet {
    pub rules: Vec<Rule>,
}

impl Stylesheet {
    pub fn new(rules: Vec<Rule>) -> (s: Stylesheet)
        ensures
            s.rules == rules,
    {
        Stylesheet { rules }
    }
}

// ---------------------------------------------------------------------------
// Rule-sheet parsing
// ---------------------------------------------------------------------------

/// A character class the rule-sheet parser scans over.
#[derive(Clone, Copy)]
pub enum CssTest {
    /// ASCII whitespace.
    Space,
    /// ASCII letters, digits, `-` and `_` (identifiers).
    IdentChar,
    /// ASCII digits.
    Digit,
    /// ASCII hexadecimal digits.
    HexDigit,
    /// Any character but the given one.
    NotChar(char),
}

pub open spec fn spec_is_ident_char(c: char) -> bool {
    (48 <= c as u32 && c as u32 <= 57) || (97 <= c as u32 && c as u32 <= 122) || (65 <= c as u32
        && c as u32 <= 90) || c == '-' || c == '_'
}

pub open spec fn spec_css_test(t: CssTest, c: char) -> bool {
    match t {
        CssTest::Space => crate::strutil::spec_is_space(c),
        CssTest::IdentChar => spec_is_ident_char(c),
        CssTest::Digit => 48 <= c as u32 && c as u32 <= 57,
        CssTest::HexDigit => spec_is_hex_digit(c),
        CssTest::NotChar(q) => c != q,
    }
}

fn css_test(t: CssTest, c: char) -> (r: bool)
    ensures
        r == spec_css_test(t, c),
{
    let u = c as u32;
    match t {
        CssTest::Space => crate::strutil::is_space(c),
        CssTest::IdentChar => (48 <= u && u <= 57) || (97 <= u && u <= 122) || (65 <= u && u <= 90)
            || c == '-' || c == '_',
        CssTest::Digit => 48 <= u && u <= 57,
        CssTest::HexDigit => (48 <= u && u <= 57) || (97 <= u && u <= 102) || (65 <= u && u <= 70),
        CssTest::NotChar(q) => c != q,
    }
}

/// The first index at or after `i` whose character fails the test (or
/// the end of the input).
pub open spec fn spec_css_scan(s: Seq<char>, i: int, t: CssTest) -> int
    decreases s.len() - i,
{
    if i < 0 || i >= s.len() || !spec_css_test(t, s[i]) {
        i
    } else {
        spec_css_scan(s, i + 1, t)
    }
}

proof fn lemma_css_scan_bounds(s: Seq<char>, i: int, t: CssTest)
    requires
        0 <= i <= s.len(),
    ensures
        i <= spec_css_scan(s, i, t) <= s.len(),
    decreases s.len() - i,
{
    if i < s.len() && spec_css_test(t, s[i]) {
        lemma_css_scan_bounds(s, i + 1, t);
    }
}

/// A rule-sheet parser: a cursor over the characters of its input. It
/// is total: malformed text never stops it, it skips what it cannot
/// read.
pub struct Parser {
    pub pos: usize,
    pub input: String,
}

pub open spec fn css_parser_wf(p: Parser) -> bool {
    p.pos <= p.input@.len()
}

impl Parser {
    pub fn new(input: String) -> (p: Parser)
        ensures
            p.pos == 0,
            p.input == input,
            css_parser_wf(p),
    {
        Parser { pos: 0, input }
    }

    fn eof(&self) -> (r: bool)
        ensures
            r == (self.pos >= self.input@.len()),
    {
        self.pos >= self.input.as_str().unicode_len()
    }

    fn next_char(&self) -> (c: char)
        requires
            self.pos < self.input@.len(),
        ensures
            c == self.input@[self.pos as int],
    {
        self.input.as_str().get_char(self.pos)
    }

    fn consume_char(&mut self) -> (c: char)
        requires
            old(self).pos < old(self).input@.len(),
        ensures
            final(self).input == old(self).input,
            final(self).pos == old(self).pos + 1,
            c == old(self).input@[old(self).pos as int],
    {
        let _len = self.input.as_str().unicode_len();
        let c = self.next_char();
        self.pos = self.pos + 1;
        c
    }

    /// Consumes the longest run of characters satisfying the test.
    fn consume_while(&mut self, t: CssTest) -> (r: String)
        requires
            css_parser_wf(*old(self)),
        ensures
            final(self).input == old(self).input,
            final(self).pos == spec_css_scan(old(self).input@, old(self).pos as int, t),
            old(self).pos <= final(self).pos,
            css_parser_wf(*final(self)),
            r@ == old(self).input@.subrange(old(self).pos as int, final(self).pos as int),
            old(self).pos < old(self).input@.len() && spec_css_test(
                t,
                old(self).input@[old(self).pos as int],
            ) ==> final(self).pos > old(self).pos,
            final(self).pos < final(self).input@.len() ==> !spec_css_test(
                t,
                final(self).input@[final(self).pos as int],
            ),
    {
        let len = self.input.as_str().unicode_len();
        let start = self.pos;
        let mut j = self.pos;
        while j < len && css_test(t, self.input.as_str().get_char(j))
            invariant
                len == self.input@.len(),
                start <= j <= len,
                start == self.pos,
                spec_css_scan(self.input@, j as int, t) == spec_css_scan(
                    self.input@,
                    start as int,
                    t,
                ),
            decreases len - j,
        {
            j = j + 1;
        }
        proof {
            lemma_css_scan_bounds(self.input@, start as int, t);
        }
        let r = self.input.as_str().substring_char(start, j).to_owned();
        self.pos = j;
        r
    }

    fn consume_whitespace(&mut self)
        requires
            css_parser_wf(*old(self)),
        ensures
            final(self).input == old(self).input,
            old(self).pos <= final(self).pos,
            css_parser_wf(*final(self)),
    {
        let _ws = self.consume_while(CssTest::Space);
    }

    fn parse_identifier(&mut self) -> (r: String)
        requires
            css_parser_wf(*old(self)),
        ensures
            final(self).input == old(self).input,
            old(self).pos <= final(self).pos,
            css_parser_wf(*final(self)),
            old(self).pos < old(self).input@.len() && spec_is_ident_char(
                old(self).input@[old(self).pos as int],
            ) ==> final(self).pos > old(self).pos,
    {
        self.consume_while(CssTest::IdentChar)
    }

    /// Parses one simple selector: optional tag, `#id`, `.class`
    /// parts, and `*`.
    fn parse_simple_selector(&mut self) -> (r: SimpleSelector)
        requires
            css_parser_wf(*old(self)),
        ensures
            final(self).input == old(self).input,
            old(self).pos <= final(self).pos,
            css_parser_wf(*final(self)),
    {
        let len = self.input.as_str().unicode_len();
        let mut tag_name: Option<String> = None;
        let mut id: Option<String> = None;
        let mut classes: Vec<String> = Vec::new();
        loop
            invariant
                len == self.input@.len(),
                css_parser_wf(*self),
                self.input == old(self).input,
                old(self).pos <= self.pos,
            decreases len - self.pos,
        {
            if self.eof() {
                break;
            }
            let c = self.next_char();
            if c == '#' {
                let _hash = self.consume_char();
                id = Some(self.parse_identifier());
            } else if c == '.' {
                let _dot = self.consume_char();
                let class = self.parse_identifier();
                classes.push(class);
            } else if c == '*' {
                let _star = self.consume_char();
            } else if css_test(CssTest::IdentChar, c) {
                tag_name = Some(self.parse_identifier());
            } else {
                break;
            }
        }
        SimpleSelector { tag_name, id, classes }
    }

    /// Parses a comma-separated selector list up to the opening brace,
    /// most specific selector first.
    fn parse_selectors(&mut self) -> (r: Vec<Selector>)
        requires
            css_parser_wf(*old(self)),
        ensures
            final(self).input == old(self).input,
            old(self).pos <= final(self).pos,
            css_parser_wf(*final(self)),
    {
        let len = self.input.as_str().unicode_len();
        let mut selectors: Vec<Selector> = Vec::new();
        loop
            invariant
                len == self.input@.len(),
                css_parser_wf(*self),
                self.input == old(self).input,
                old(self).pos <= self.pos,
            decreases len - self.pos,
        {
            self.consume_whitespace();
            if self.eof() {
                break;
            }
            if self.next_char() == '{' {
                break;
            }
            let before = self.pos;
            let simple = self.parse_simple_selector();
            selectors.push(Selector::Simple(simple));
            self.consume_whitespace();
            if self.pos < len && self.next_char() == ',' {
                let _comma = self.consume_char();
            } else if self.pos == before {
                // Malformed input that no production consumes: skip one
                // character so the scan always advances.
                let _junk = self.consume_char();
            }
        }
        // Highest specificity first, so that rule matching picks the
        // most specific matching selector of the list.
        sort_selectors(&mut selectors);
        selectors
    }

    /// Parses a whole-number pixel count; a fractional part is read
    /// and dropped. The value saturates far above any usable length.
    fn parse_number(&mut self) -> (r: i64)
        requires
            css_parser_wf(*old(self)),
        ensures
            final(self).input == old(self).input,
            old(self).pos <= final(self).pos,
            css_parser_wf(*final(self)),
            r >= 0,
    {
        let digits = self.parse_digits_value();
        let len = self.input.as_str().unicode_len();
        if self.pos < len && self.next_char() == '.' {
            let _dot = self.consume_char();
            let _frac = self.consume_while(CssTest::Digit);
        }
        digits
    }

    fn parse_digits_value(&mut self) -> (r: i64)
        requires
            css_parser_wf(*old(self)),
        ensures
            final(self).input == old(self).input,
            old(self).pos <= final(self).pos,
            css_parser_wf(*final(self)),
            r >= 0,
    {
        let digits = self.consume_while(CssTest::Digit);
        let n = digits.as_str().unicode_len();
        let mut value: i64 = 0;
        let mut i: usize = 0;
        while i < n
            invariant
                n == digits@.len(),
                0 <= i <= n,
                0 <= value <= 0x38d7ea4c68009,
            decreases n - i,
        {
            let c = digits.as_str().get_char(i);
            let d = c as u32;
            let dv: i64 = if 48 <= d && d <= 57 {
                (d - 48) as i64
            } else {
                0
            };
            if value <= 0x5af3107a4000 {
                value = value * 10 + dv;
            }
            i = i + 1;
        }
        value
    }

    /// Parses the unit after a number: `%`, `px`, `em`, or `rem`; an
    /// unknown or missing unit reads as pixels.
    fn parse_unit(&mut self) -> (r: Unit)
        requires
            css_parser_wf(*old(self)),
        ensures
            final(self).input == old(self).input,
            old(self).pos <= final(self).pos,
            css_parser_wf(*final(self)),
    {
        let len = self.input.as_str().unicode_len();
        if self.pos < len && self.next_char() == '%' {
            let _pct = self.consume_char();
            return Unit::Percent;
        }
        let ident = self.parse_identifier();
        if crate::strutil::str_eq(ident.as_str(), "px") {
            Unit::Px
        } else if crate::strutil::str_eq(ident.as_str(), "em") {
            Unit::Em
        } else if crate::strutil::str_eq(ident.as_str(), "rem") {
            Unit::Rem
        } else {
            Unit::Px
        }
    }

    /// Parses a `#rrggbb` color; anything else of that shape becomes a
    /// keyword.
    fn parse_color(&mut self) -> (r: Value)
        requires
            css_parser_wf(*old(self)),
            old(self).pos < old(self).input@.len(),
            old(self).input@[old(self).pos as int] == '#',
        ensures
            final(self).input == old(self).input,
            old(self).pos < final(self).pos,
            css_parser_wf(*final(self)),
    {
        let _hash = self.consume_char();
        let hex = self.consume_while(CssTest::HexDigit);
        let mut lit = String::new();
        lit.push('#');
        lit.append(hex.as_str());
        match Color::from_hex(lit.as_str()) {
            Some(c) => Value::Color(c),
            None => Value::Keyword(lit),
        }
    }

    /// Parses a declared value: a length, a color, or a keyword.
    fn parse_value(&mut self) -> (r: Value)
        requires
            css_parser_wf(*old(self)),
        ensures
            final(self).input == old(self).input,
            old(self).pos <= final(self).pos,
            css_parser_wf(*final(self)),
    {
        let len = self.input.as_str().unicode_len();
        if self.eof() {
            return Value::Keyword(String::new());
        }
        let c = self.next_char();
        if css_test(CssTest::Digit, c) {
            let n = self.parse_number();
            let unit = self.parse_unit();
            Value::Length(n, unit)
        } else if c == '#' {
            self.parse_color()
        } else {
            Value::Keyword(self.parse_identifier())
        }
    }

    /// Parses one `name: value;` declaration; text that is not one is
    /// skipped.
    fn parse_declaration(&mut self) -> (r: Option<Declaration>)
        requires
            css_parser_wf(*old(self)),
        ensures
            final(self).input == old(self).input,
            old(self).pos <= final(self).pos,
            css_parser_wf(*final(self)),
    {
        let name = self.parse_identifier();
        self.consume_whitespace();
        let len = self.input.as_str().unicode_len();
        if !(self.pos < len && self.next_char() == ':') {
            return None;
        }
        let _colon = self.consume_char();
        self.consume_whitespace();
        let value = self.parse_value();
        self.consume_whitespace();
        let len2 = self.input.as_str().unicode_len();
        if self.pos < len2 && self.next_char() == ';' {
            let _semi = self.consume_char();
        }
        Some(Declaration { name, value })
    }

    /// Parses a `{ ... }` declaration block.
    fn parse_declarations(&mut self) -> (r: Vec<Declaration>)
        requires
            css_parser_wf(*old(self)),
        ensures
            final(self).input == old(self).input,
            old(self).pos <= final(self).pos,
            css_parser_wf(*final(self)),
    {
        let len = self.input.as_str().unicode_len();
        let mut declarations: Vec<Declaration> = Vec::new();
        if self.pos < len && self.next_char() == '{' {
            let _open = self.consume_char();
        }
        loop
            invariant
                len == self.input@.len(),
                css_parser_wf(*self),
                self.input == old(self).input,
                old(self).pos <= self.pos,
            decreases len - self.pos,
        {
            self.consume_whitespace();
            if self.eof() {
                break;
            }
            if self.next_char() == '}' {
                let _close = self.consume_char();
                break;
            }
            let before = self.pos;
            match self.parse_declaration() {
                Some(d) => {
                    declarations.push(d);
                },
                None => {},
            }
            if self.pos == before {
                let _junk = self.consume_char();
            }
        }
        declarations
    }

    fn parse_rule(&mut self) -> (r: Rule)
        requires
            css_parser_wf(*old(self)),
        ensures
            final(self).input == old(self).input,
            old(self).pos <= final(self).pos,
            css_parser_wf(*final(self)),
    {
        let selectors = self.parse_selectors();
        let declarations = self.parse_declarations();
        Rule { selectors, declarations }
    }

    /// Parses the whole input as an ordered sequence of rules.
    pub fn parse_stylesheet(&mut self) -> (r: Stylesheet)
        requires
            css_parser_wf(*old(self)),
        ensures
            css_parser_wf(*final(self)),
    {
        let len = self.input.as_str().unicode_len();
        let mut rules: Vec<Rule> = Vec::new();
        loop
            invariant
                len == self.input@.len(),
                css_parser_wf(*self),
                self.input == old(self).input,
            decreases len - self.pos,
        {
            self.consume_whitespace();
            if self.eof() {
                break;
            }
            let before = self.pos;
            let rule = self.parse_rule();
            rules.push(rule);
            if self.pos == before {
                let _junk = self.consume_char();
            }
        }
        Stylesheet::new(rules)
    }
}

/// Orders a selector list by descending specificity (insertion sort).
fn sort_selectors(selectors: &mut Vec<Selector>) {
    let n = selectors.len();
    let mut i: usize = 1;
    while i < n
        invariant
            n == selectors@.len(),
            1 <= i || i == 1,
        decreases n - i,
    {
        let mut j = i;
        while j > 0
            invariant
                0 <= j <= i < n == selectors@.len(),
            decreases j,
        {
            let a = selectors[j - 1].specificity();
            let b = selectors[j].specificity();
            let a_lt_b = a.0 < b.0 || (a.0 == b.0 && (a.1 < b.1 || (a.1 == b.1 && a.2 < b.2)));
            if a_lt_b {
                let x = selectors.remove(j);
                selectors.insert(j - 1, x);
                j = j - 1;
            } else {
                break;
            }
        }
        i = i + 1;
    }
}

/// Owner of the rule-sheet parsing stage.
pub struct CSSParser;

impl CSSParser {
    pub fn new() -> (p: CSSParser) {
        CSSParser
    }

    /// Parses rule-sheet text into a stylesheet.
    pub fn parse(&self, css: &str) -> (r: Stylesheet) {
        let mut parser = Parser::new(css.to_owned());
        parser.parse_stylesheet()
    }
}

} // verus!
