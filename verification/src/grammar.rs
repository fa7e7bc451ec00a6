//! The token tree of a header value.
use crate::error::ParserError;
use crate::text::chars_of;
use vstd::prelude::*;
use vstd::string::*;

verus! {

/// The tag of a node of the token tree.
#[derive(Clone, Copy, Debug, PartialEq, Eq, Structural)]
pub enum Rule {
    Eoi,
    Header,
    Link,
    Target,
    Param,
    Name,
    TokenValue,
    QuotedValue,
    PctValue,
    Encoding,
    Language,
}

/// The mathematical tree that a [`Pair`] stands for.
pub ghost struct Node {
    pub rule: Rule,
    pub text: Seq<char>,
    pub inner: Seq<Node>,
}

/// A tagged node of the token tree: the text it spans and its children.
#[derive(Debug, PartialEq)]
pub struct Pair {
    pub rule: Rule,
    pub text: String,
    pub inner: Vec<Pair>,
}

impl View for Pair {
    type V = Node;

    open spec fn view(&self) -> Node
        decreases self,
    {
        Node {
            rule: self.rule,
            text: self.text@,
            inner: Seq::new(
                self.inner@.len(),
                |i: int|
                    if 0 <= i < self.inner@.len() {
                        self.inner@[i]@
                    } else {
                        Node { rule: Rule::Eoi, text: Seq::empty(), inner: Seq::empty() }
                    },
            ),
        }
    }
}

/// Whether a node with this rule may stand under a param node.
pub open spec fn is_param_part(rule: Rule) -> bool {
    rule == Rule::Name || rule == Rule::TokenValue || rule == Rule::QuotedValue || rule
        == Rule::PctValue || rule == Rule::Encoding || rule == Rule::Language
}

/// A param node holds only names, values, encodings and languages, and an
/// encoding before each percent-encoded value.
pub open spec fn param_shaped(node: Node) -> bool {
    forall|i: int|
        0 <= i < node.inner.len() ==> {
            &&& is_param_part(#[trigger] node.inner[i].rule)
            &&& node.inner[i].rule == Rule::PctValue ==> exists|j: int|
                0 <= j < i && #[trigger] node.inner[j].rule == Rule::Encoding
        }
}

/// A link node holds only targets and well-shaped params.
pub open spec fn link_shaped(node: Node) -> bool {
    forall|i: int|
        0 <= i < node.inner.len() ==> {
            &&& (#[trigger] node.inner[i]).rule == Rule::Target || node.inner[i].rule
                == Rule::Param
            &&& node.inner[i].rule == Rule::Param ==> param_shaped(node.inner[i])
        }
}

/// A header node holds only well-shaped links and end markers.
pub open spec fn header_shaped(node: Node) -> bool {
    forall|i: int|
        0 <= i < node.inner.len() ==> {
            &&& (#[trigger] node.inner[i]).rule == Rule::Link || node.inner[i].rule == Rule::Eoi
            &&& node.inner[i].rule == Rule::Link ==> link_shaped(node.inner[i])
        }
}

/// The views of a list of nodes.
pub open spec fn nodes(pairs: Seq<Pair>) -> Seq<Node> {
    pairs.map_values(|p: Pair| p@)
}

/// The classes of characters that the grammar tells apart.
#[derive(Clone, Copy, Debug, PartialEq, Eq, Structural)]
pub enum CharClass {
    /// A space or a tab.
    Blank,
    /// Anything but `>`.
    Target,
    /// A character of a parameter name.
    Attr,
    /// A character of an unquoted value.
    Token,
    /// A character of a charset name.
    Charset,
    /// A character of a language tag.
    Language,
    /// A character of the text of an extended value.
    Pct,
}

/// An ASCII letter or digit.
pub open spec fn is_alphanumeric(c: char) -> bool {
    ('a' <= c && c <= 'z') || ('A' <= c && c <= 'Z') || ('0' <= c && c <= '9')
}

/// A letter, a digit or one of ``! # $ & + - . ^ _ ` | ~``.
pub open spec fn is_attr_char(c: char) -> bool {
    is_alphanumeric(c) || c == '!' || c == '#' || c == '$' || c == '&' || c == '+' || c == '-'
        || c == '.' || c == '^' || c == '_' || c == '`' || c == '|' || c == '~'
}

/// Whether a character belongs to a class.
pub open spec fn in_class(c: char, class: CharClass) -> bool {
    match class {
        CharClass::Blank => c == ' ' || c == '\t',
        CharClass::Target => c != '>',
        CharClass::Attr => is_attr_char(c),
        CharClass::Token => is_attr_char(c) || c == '*' || c == '\'' || c == '%',
        CharClass::Charset => is_alphanumeric(c) || c == '!' || c == '#' || c == '$' || c == '%'
            || c == '&' || c == '+' || c == '-' || c == '^' || c == '_' || c == '`' || c == '{'
            || c == '}' || c == '~',
        CharClass::Language => is_alphanumeric(c) || c == '-',
        CharClass::Pct => is_attr_char(c) || c == '%',
    }
}

/// The end of the longest run of characters of a class that starts at `i`.
pub open spec fn span_end(s: Seq<char>, i: int, class: CharClass) -> int
    decreases s.len() - i,
{
    if 0 <= i < s.len() && in_class(s[i], class) {
        span_end(s, i + 1, class)
    } else {
        i
    }
}

/// The place of the double quote that closes the quoted text that starts at
/// `i`, or the end of the text if none does. A backslash takes the
/// character behind it along, so that an escaped double quote closes
/// nothing.
pub open spec fn quoted_end(s: Seq<char>, i: int) -> int
    decreases s.len() - i,
{
    if 0 <= i < s.len() && s[i] != '"' {
        if s[i] == '\\' && i + 1 < s.len() {
            quoted_end(s, i + 2)
        } else {
            quoted_end(s, i + 1)
        }
    } else {
        i
    }
}

/// A node without children that spans `s[from..to]`.
pub open spec fn leaf(rule: Rule, s: Seq<char>, from: int, to: int) -> Node {
    Node { rule, text: s.subrange(from, to), inner: Seq::empty() }
}

/// Whether `s` has the character `c` at `i`.
pub open spec fn has(s: Seq<char>, i: int, c: char) -> bool {
    0 <= i < s.len() && s[i] == c
}

/// The extended value at `i`, behind the name `name` of a param that began
/// at `start`: a charset, `'`, a language or nothing, `'`, and the text.
pub open spec fn ext_value_at(s: Seq<char>, start: int, name: Node, i: int) -> Option<
    (Node, int),
> {
    let charset_end = span_end(s, i, CharClass::Charset);
    let language_end = span_end(s, charset_end + 1, CharClass::Language);
    let text_end = span_end(s, language_end + 1, CharClass::Pct);
    if charset_end > i && has(s, charset_end, '\'') && has(s, language_end, '\'') {
        let encoding = leaf(Rule::Encoding, s, i, charset_end);
        let text = leaf(Rule::PctValue, s, language_end + 1, text_end);
        let inner = if language_end > charset_end + 1 {
            seq![name, encoding, leaf(Rule::Language, s, charset_end + 1, language_end), text]
        } else {
            seq![name, encoding, text]
        };
        Some((Node { rule: Rule::Param, text: s.subrange(start, text_end), inner }, text_end))
    } else {
        None
    }
}

/// The plain value at `i`, behind the name `name` of a param that began at
/// `start`: a text between double quotes, taken as it is written, or a
/// token.
pub open spec fn plain_value_at(s: Seq<char>, start: int, name: Node, i: int) -> Option<
    (Node, int),
> {
    if has(s, i, '"') {
        let close = quoted_end(s, i + 1);
        if close < s.len() {
            Some(
                (
                    Node {
                        rule: Rule::Param,
                        text: s.subrange(start, close + 1),
                        inner: seq![name, leaf(Rule::QuotedValue, s, i + 1, close)],
                    },
                    close + 1,
                ),
            )
        } else {
            None
        }
    } else {
        let end = span_end(s, i, CharClass::Token);
        if end > i {
            Some(
                (
                    Node {
                        rule: Rule::Param,
                        text: s.subrange(start, end),
                        inner: seq![name, leaf(Rule::TokenValue, s, i, end)],
                    },
                    end,
                ),
            )
        } else {
            None
        }
    }
}

/// The param at `i` and where it ends: a name; then nothing, or `=` and a
/// plain value, or `*=` and an extended value. Blanks may stand around `=`.
pub open spec fn param_at(s: Seq<char>, i: int) -> Option<(Node, int)> {
    let name_end = span_end(s, i, CharClass::Attr);
    let name = leaf(Rule::Name, s, i, name_end);
    if name_end == i {
        None
    } else if has(s, name_end, '*') {
        let equals = span_end(s, name_end + 1, CharClass::Blank);
        if has(s, equals, '=') {
            ext_value_at(s, i, name, span_end(s, equals + 1, CharClass::Blank))
        } else {
            None
        }
    } else {
        let equals = span_end(s, name_end, CharClass::Blank);
        if has(s, equals, '=') {
            plain_value_at(s, i, name, span_end(s, equals + 1, CharClass::Blank))
        } else {
            Some((Node { rule: Rule::Param, text: s.subrange(i, name_end), inner: seq![name] }, name_end))
        }
    }
}

/// The children of a link node, given those read before `i`, and where the
/// link ends: each further param stands behind a `;`, with blanks around it.
pub open spec fn link_tail(s: Seq<char>, i: int, read: Seq<Node>) -> Option<(Seq<Node>, int)>
    decreases s.len() - i,
    when 0 <= i <= s.len()
{
    let semicolon = span_end(s, i, CharClass::Blank);
    if has(s, semicolon, ';') {
        let start = span_end(s, semicolon + 1, CharClass::Blank);
        match param_at(s, start) {
            Some((param, next)) => {
                proof {
                    lemma_span_end(s, i, CharClass::Blank);
                    lemma_span_end(s, semicolon + 1, CharClass::Blank);
                    lemma_param_at(s, start);
                }
                link_tail(s, next, read.push(param))
            },
            None => None,
        }
    } else {
        Some((read, i))
    }
}

/// The link at `i` and where it ends: a target between `<` and `>`, then
/// its params.
pub open spec fn link_at(s: Seq<char>, i: int) -> Option<(Node, int)> {
    let close = span_end(s, i + 1, CharClass::Target);
    if has(s, i, '<') && close < s.len() {
        match link_tail(s, close + 1, seq![leaf(Rule::Target, s, i + 1, close)]) {
            Some((inner, end)) => Some(
                (Node { rule: Rule::Link, text: s.subrange(i, end), inner }, end),
            ),
            None => None,
        }
    } else {
        None
    }
}

/// The children of the header node, given those read before `i`: each
/// further link stands behind a `,`, with blanks around it, and an end marker
/// closes the list.
pub open spec fn header_tail(s: Seq<char>, i: int, read: Seq<Node>) -> Option<Seq<Node>>
    decreases s.len() - i,
    when 0 <= i <= s.len()
{
    let comma = span_end(s, i, CharClass::Blank);
    if comma >= s.len() {
        Some(read.push(leaf(Rule::Eoi, s, comma, comma)))
    } else if s[comma] == ',' {
        let start = span_end(s, comma + 1, CharClass::Blank);
        match link_at(s, start) {
            Some((link, next)) => {
                proof {
                    lemma_span_end(s, i, CharClass::Blank);
                    lemma_span_end(s, comma + 1, CharClass::Blank);
                    lemma_link_at(s, start);
                }
                header_tail(s, next, read.push(link))
            },
            None => None,
        }
    } else {
        None
    }
}

/// The token tree of a header value, if the value is one or more links
/// that commas separate.
pub open spec fn syntax_tree(s: Seq<char>) -> Option<Node> {
    match link_at(s, span_end(s, 0, CharClass::Blank)) {
        Some((link, next)) => match header_tail(s, next, seq![link]) {
            Some(inner) => Some(Node { rule: Rule::Header, text: s, inner }),
            None => None,
        },
        None => None,
    }
}

/// A run ends at or behind its start, within the text, at a character that
/// is not of the class.
pub proof fn lemma_span_end(s: Seq<char>, i: int, class: CharClass)
    requires
        0 <= i <= s.len(),
    ensures
        i <= span_end(s, i, class) <= s.len(),
        span_end(s, i, class) < s.len() ==> !in_class(s[span_end(s, i, class)], class),
        span_end(s, i, class) > i ==> in_class(s[i], class),
    decreases s.len() - i,
{
    if i < s.len() && in_class(s[i], class) {
        lemma_span_end(s, i + 1, class);
    }
}

/// A quoted text ends at or behind its start, within the text.
pub proof fn lemma_quoted_end(s: Seq<char>, i: int)
    requires
        0 <= i <= s.len(),
    ensures
        i <= quoted_end(s, i) <= s.len(),
    decreases s.len() - i,
{
    if i < s.len() && s[i] != '"' {
        if s[i] == '\\' && i + 1 < s.len() {
            lemma_quoted_end(s, i + 2);
        } else {
            lemma_quoted_end(s, i + 1);
        }
    }
}

/// A param is not empty and ends within the text.
pub proof fn lemma_param_at(s: Seq<char>, i: int)
    requires
        0 <= i <= s.len(),
    ensures
        param_at(s, i) matches Some((param, next)) ==> i < next <= s.len(),
{
    let name_end = span_end(s, i, CharClass::Attr);
    lemma_span_end(s, i, CharClass::Attr);
    if name_end > i {
        if has(s, name_end, '*') {
            let equals = span_end(s, name_end + 1, CharClass::Blank);
            lemma_span_end(s, name_end + 1, CharClass::Blank);
            if has(s, equals, '=') {
                let at = span_end(s, equals + 1, CharClass::Blank);
                lemma_span_end(s, equals + 1, CharClass::Blank);
                let charset_end = span_end(s, at, CharClass::Charset);
                lemma_span_end(s, at, CharClass::Charset);
                if has(s, charset_end, '\'') {
                    let language_end = span_end(s, charset_end + 1, CharClass::Language);
                    lemma_span_end(s, charset_end + 1, CharClass::Language);
                    if has(s, language_end, '\'') {
                        lemma_span_end(s, language_end + 1, CharClass::Pct);
                    }
                }
            }
        } else {
            let equals = span_end(s, name_end, CharClass::Blank);
            lemma_span_end(s, name_end, CharClass::Blank);
            if has(s, equals, '=') {
                let at = span_end(s, equals + 1, CharClass::Blank);
                lemma_span_end(s, equals + 1, CharClass::Blank);
                if has(s, at, '"') {
                    lemma_quoted_end(s, at + 1);
                } else {
                    lemma_span_end(s, at, CharClass::Token);
                }
            }
        }
    }
}

/// The children of a link end where the link ends, within the text.
pub proof fn lemma_link_tail(s: Seq<char>, i: int, read: Seq<Node>)
    requires
        0 <= i <= s.len(),
    ensures
        link_tail(s, i, read) matches Some((inner, end)) ==> i <= end <= s.len(),
    decreases s.len() - i,
{
    let semicolon = span_end(s, i, CharClass::Blank);
    lemma_span_end(s, i, CharClass::Blank);
    if has(s, semicolon, ';') {
        let start = span_end(s, semicolon + 1, CharClass::Blank);
        lemma_span_end(s, semicolon + 1, CharClass::Blank);
        lemma_param_at(s, start);
        match param_at(s, start) {
            Some((param, next)) => lemma_link_tail(s, next, read.push(param)),
            None => {},
        }
    }
}

/// A link is not empty and ends within the text.
pub proof fn lemma_link_at(s: Seq<char>, i: int)
    requires
        0 <= i <= s.len(),
    ensures
        link_at(s, i) matches Some((link, next)) ==> i < next <= s.len(),
{
    if has(s, i, '<') {
        let close = span_end(s, i + 1, CharClass::Target);
        lemma_span_end(s, i + 1, CharClass::Target);
        if close < s.len() {
            lemma_link_tail(s, close + 1, seq![leaf(Rule::Target, s, i + 1, close)]);
        }
    }
}

/// A param of the grammar is a well-shaped param node.
pub proof fn lemma_param_at_shaped(s: Seq<char>, i: int)
    ensures
        param_at(s, i) matches Some((param, next)) ==> param.rule == Rule::Param && param_shaped(
            param,
        ),
{
    match param_at(s, i) {
        Some((param, next)) => {
            if param.inner.len() >= 3 {
                assert(param.inner[1].rule == Rule::Encoding);
            }
        },
        None => {},
    }
}

/// The children of a link of the grammar are targets and well-shaped
/// params, if those read before are.
pub proof fn lemma_link_tail_shaped(s: Seq<char>, i: int, read: Seq<Node>)
    requires
        0 <= i <= s.len(),
        link_shaped(Node { rule: Rule::Link, text: s, inner: read }),
    ensures
        link_tail(s, i, read) matches Some((inner, end)) ==> link_shaped(
            Node { rule: Rule::Link, text: s, inner },
        ),
    decreases s.len() - i,
{
    let semicolon = span_end(s, i, CharClass::Blank);
    lemma_span_end(s, i, CharClass::Blank);
    if has(s, semicolon, ';') {
        let start = span_end(s, semicolon + 1, CharClass::Blank);
        lemma_span_end(s, semicolon + 1, CharClass::Blank);
        lemma_param_at(s, start);
        lemma_param_at_shaped(s, start);
        match param_at(s, start) {
            Some((param, next)) => lemma_link_tail_shaped(s, next, read.push(param)),
            None => {},
        }
    }
}

/// A link of the grammar is a well-shaped link node.
pub proof fn lemma_link_at_shaped(s: Seq<char>, i: int)
    requires
        0 <= i <= s.len(),
    ensures
        link_at(s, i) matches Some((link, next)) ==> link.rule == Rule::Link && link_shaped(link),
{
    let close = span_end(s, i + 1, CharClass::Target);
    if has(s, i, '<') && close < s.len() {
        lemma_span_end(s, i + 1, CharClass::Target);
        lemma_link_tail_shaped(s, close + 1, seq![leaf(Rule::Target, s, i + 1, close)]);
    }
}

/// The children of the header of the grammar are well-shaped links and end
/// markers, if those read before are.
pub proof fn lemma_header_tail_shaped(s: Seq<char>, i: int, read: Seq<Node>)
    requires
        0 <= i <= s.len(),
        header_shaped(Node { rule: Rule::Header, text: s, inner: read }),
    ensures
        header_tail(s, i, read) matches Some(inner) ==> header_shaped(
            Node { rule: Rule::Header, text: s, inner },
        ),
    decreases s.len() - i,
{
    let comma = span_end(s, i, CharClass::Blank);
    lemma_span_end(s, i, CharClass::Blank);
    if comma < s.len() && s[comma] == ',' {
        let start = span_end(s, comma + 1, CharClass::Blank);
        lemma_span_end(s, comma + 1, CharClass::Blank);
        lemma_link_at(s, start);
        lemma_link_at_shaped(s, start);
        match link_at(s, start) {
            Some((link, next)) => lemma_header_tail_shaped(s, next, read.push(link)),
            None => {},
        }
    }
}

/// Every token tree of the grammar is a well-shaped header node that spans
/// the whole text.
pub proof fn lemma_syntax_tree_shaped(s: Seq<char>)
    ensures
        syntax_tree(s) matches Some(tree) ==> {
            &&& tree.rule == Rule::Header
            &&& tree.text == s
            &&& header_shaped(tree)
        },
{
    let start = span_end(s, 0, CharClass::Blank);
    lemma_span_end(s, 0, CharClass::Blank);
    lemma_link_at(s, start);
    lemma_link_at_shaped(s, start);
    match link_at(s, start) {
        Some((link, next)) => lemma_header_tail_shaped(s, next, seq![link]),
        None => {},
    }
}

/// A pair stands for the node with its rule, its text and its children's
/// nodes.
pub proof fn lemma_pair_view(pair: Pair)
    ensures
        pair@ == (Node { rule: pair.rule, text: pair.text@, inner: nodes(pair.inner@) }),
{
    assert(pair@.inner =~= nodes(pair.inner@));
}

/// Whether a character belongs to a class.
pub fn is_in_class(c: char, class: CharClass) -> (found: bool)
    ensures
        found == in_class(c, class),
{
    let alphanumeric = ('a' <= c && c <= 'z') || ('A' <= c && c <= 'Z') || ('0' <= c && c
        <= '9');
    let attr = alphanumeric || c == '!' || c == '#' || c == '$' || c == '&' || c == '+' || c
        == '-' || c == '.' || c == '^' || c == '_' || c == '`' || c == '|' || c == '~';
    match class {
        CharClass::Blank => c == ' ' || c == '\t',
        CharClass::Target => c != '>',
        CharClass::Attr => attr,
        CharClass::Token => attr || c == '*' || c == '\'' || c == '%',
        CharClass::Charset => alphanumeric || c == '!' || c == '#' || c == '$' || c == '%'
            || c == '&' || c == '+' || c == '-' || c == '^' || c == '_' || c == '`' || c == '{'
            || c == '}' || c == '~',
        CharClass::Language => alphanumeric || c == '-',
        CharClass::Pct => attr || c == '%',
    }
}

/// Finds the end of the run of characters of a class that starts at `i`.
fn scan(chars: &Vec<char>, i: usize, class: CharClass) -> (end: usize)
    requires
        i <= chars@.len(),
    ensures
        end == span_end(chars@, i as int, class),
        i <= end <= chars@.len(),
{
    let mut end = i;
    while end < chars.len() && is_in_class(chars[end], class)
        invariant
            i <= end <= chars@.len(),
            span_end(chars@, i as int, class) == span_end(chars@, end as int, class),
        decreases chars@.len() - end,
    {
        end = end + 1;
    }
    end
}

/// Finds the double quote that closes the quoted text that starts at `i`.
fn scan_quoted(chars: &Vec<char>, i: usize) -> (end: usize)
    requires
        i <= chars@.len(),
    ensures
        end == quoted_end(chars@, i as int),
        i <= end <= chars@.len(),
{
    let mut end = i;
    while end < chars.len() && chars[end] != '"'
        invariant
            i <= end <= chars@.len(),
            quoted_end(chars@, i as int) == quoted_end(chars@, end as int),
        decreases chars@.len() - end,
    {
        if chars[end] == '\\' && end + 1 < chars.len() {
            end = end + 2;
        } else {
            end = end + 1;
        }
    }
    end
}

/// Whether the text has the character `c` at `i`.
fn has_at(chars: &Vec<char>, i: usize, c: char) -> (found: bool)
    ensures
        found == has(chars@, i as int, c),
        found ==> i < usize::MAX,
{
    i < chars.len() && chars[i] == c
}

/// Makes the node of a rule that spans `input[from..to]` and has the given
/// children.
fn make_node(input: &str, rule: Rule, from: usize, to: usize, inner: Vec<Pair>) -> (pair: Pair)
    requires
        from <= to <= input@.len(),
    ensures
        pair@ == (Node {
            rule,
            text: input@.subrange(from as int, to as int),
            inner: nodes(inner@),
        }),
{
    let pair = Pair { rule, text: input.substring_char(from, to).to_owned(), inner };
    proof {
        lemma_pair_view(pair);
    }
    pair
}

/// Makes a node without children.
fn make_leaf(input: &str, rule: Rule, from: usize, to: usize) -> (pair: Pair)
    requires
        from <= to <= input@.len(),
    ensures
        pair@ == leaf(rule, input@, from as int, to as int),
{
    let pair = make_node(input, rule, from, to, Vec::new());
    assert(pair@.inner =~= Seq::empty());
    pair
}

/// Reads the extended value at `i` of the param that began at `start`.
fn read_ext_value(input: &str, chars: &Vec<char>, start: usize, name: Pair, i: usize) -> (result:
    Option<(Pair, usize)>)
    requires
        chars@ == input@,
        start <= i <= chars@.len(),
    ensures
        match result {
            Some((pair, next)) => {
                &&& ext_value_at(input@, start as int, name@, i as int) == Some(
                    (pair@, next as int),
                )
                &&& i < next <= chars@.len()
            },
            None => ext_value_at(input@, start as int, name@, i as int) is None,
        },
{
    let charset_end = scan(chars, i, CharClass::Charset);
    if charset_end == i || !has_at(chars, charset_end, '\'') {
        return None;
    }
    let language_end = scan(chars, charset_end + 1, CharClass::Language);
    if !has_at(chars, language_end, '\'') {
        return None;
    }
    let text_end = scan(chars, language_end + 1, CharClass::Pct);
    let mut inner: Vec<Pair> = Vec::new();
    inner.push(name);
    inner.push(make_leaf(input, Rule::Encoding, i, charset_end));
    if language_end > charset_end + 1 {
        inner.push(make_leaf(input, Rule::Language, charset_end + 1, language_end));
    }
    inner.push(make_leaf(input, Rule::PctValue, language_end + 1, text_end));
    let ghost encoding = leaf(Rule::Encoding, input@, i as int, charset_end as int);
    let ghost text = leaf(Rule::PctValue, input@, language_end + 1, text_end as int);
    assert(nodes(inner@) =~= if language_end > charset_end + 1 {
        seq![
            name@,
            encoding,
            leaf(Rule::Language, input@, charset_end + 1, language_end as int),
            text,
        ]
    } else {
        seq![name@, encoding, text]
    });
    let pair = make_node(input, Rule::Param, start, text_end, inner);
    Some((pair, text_end))
}

/// Reads the plain value at `i` of the param that began at `start`.
fn read_plain_value(input: &str, chars: &Vec<char>, start: usize, name: Pair, i: usize) -> (result:
    Option<(Pair, usize)>)
    requires
        chars@ == input@,
        start <= i <= chars@.len(),
    ensures
        match result {
            Some((pair, next)) => {
                &&& plain_value_at(input@, start as int, name@, i as int) == Some(
                    (pair@, next as int),
                )
                &&& i < next <= chars@.len()
            },
            None => plain_value_at(input@, start as int, name@, i as int) is None,
        },
{
    let mut inner: Vec<Pair> = Vec::new();
    inner.push(name);
    if has_at(chars, i, '"') {
        let close = scan_quoted(chars, i + 1);
        if close >= chars.len() {
            return None;
        }
        inner.push(make_leaf(input, Rule::QuotedValue, i + 1, close));
        assert(nodes(inner@) =~= seq![
            name@,
            leaf(Rule::QuotedValue, input@, i + 1, close as int),
        ]);
        let pair = make_node(input, Rule::Param, start, close + 1, inner);
        Some((pair, close + 1))
    } else {
        let end = scan(chars, i, CharClass::Token);
        if end == i {
            return None;
        }
        inner.push(make_leaf(input, Rule::TokenValue, i, end));
        assert(nodes(inner@) =~= seq![name@, leaf(Rule::TokenValue, input@, i as int, end as int)]);
        let pair = make_node(input, Rule::Param, start, end, inner);
        Some((pair, end))
    }
}

/// Reads the param at `i`.
fn read_param(input: &str, chars: &Vec<char>, i: usize) -> (result: Option<(Pair, usize)>)
    requires
        chars@ == input@,
        i <= chars@.len(),
    ensures
        match result {
            Some((pair, next)) => {
                &&& param_at(input@, i as int) == Some((pair@, next as int))
                &&& i < next <= chars@.len()
            },
            None => param_at(input@, i as int) is None,
        },
{
    let name_end = scan(chars, i, CharClass::Attr);
    if name_end == i {
        return None;
    }
    let name = make_leaf(input, Rule::Name, i, name_end);
    if has_at(chars, name_end, '*') {
        let equals = scan(chars, name_end + 1, CharClass::Blank);
        if !has_at(chars, equals, '=') {
            return None;
        }
        let at = scan(chars, equals + 1, CharClass::Blank);
        read_ext_value(input, chars, i, name, at)
    } else {
        let equals = scan(chars, name_end, CharClass::Blank);
        if has_at(chars, equals, '=') {
            let at = scan(chars, equals + 1, CharClass::Blank);
            read_plain_value(input, chars, i, name, at)
        } else {
            let mut inner: Vec<Pair> = Vec::new();
            inner.push(name);
            assert(nodes(inner@) =~= seq![name@]);
            let pair = make_node(input, Rule::Param, i, name_end, inner);
            Some((pair, name_end))
        }
    }
}

/// Reads the link at `i`.
fn read_link(input: &str, chars: &Vec<char>, i: usize) -> (result: Option<(Pair, usize)>)
    requires
        chars@ == input@,
        i <= chars@.len(),
    ensures
        match result {
            Some((pair, next)) => {
                &&& link_at(input@, i as int) == Some((pair@, next as int))
                &&& i < next <= chars@.len()
            },
            None => link_at(input@, i as int) is None,
        },
{
    if !has_at(chars, i, '<') {
        return None;
    }
    let close = scan(chars, i + 1, CharClass::Target);
    if close >= chars.len() {
        return None;
    }
    let mut inner: Vec<Pair> = Vec::new();
    inner.push(make_leaf(input, Rule::Target, i + 1, close));
    let mut end = close + 1;
    let ghost first = nodes(inner@);
    assert(first =~= seq![leaf(Rule::Target, input@, i + 1, close as int)]);
    loop
        invariant
            chars@ == input@,
            has(input@, i as int, '<'),
            close == span_end(input@, i + 1, CharClass::Target),
            first == seq![leaf(Rule::Target, input@, i + 1, close as int)],
            i < close + 1 <= end <= chars@.len(),
            link_tail(input@, close + 1, first) == link_tail(input@, end as int, nodes(inner@)),
        ensures
            link_tail(input@, close + 1, first) == Some((nodes(inner@), end as int)),
        decreases chars@.len() - end,
    {
        let semicolon = scan(chars, end, CharClass::Blank);
        if !has_at(chars, semicolon, ';') {
            break ;
        }
        let start = scan(chars, semicolon + 1, CharClass::Blank);
        match read_param(input, chars, start) {
            Some((param, next)) => {
                let ghost before = nodes(inner@);
                inner.push(param);
                assert(nodes(inner@) =~= before.push(param@));
                end = next;
            },
            None => {
                return None;
            },
        }
    }
    let pair = make_node(input, Rule::Link, i, end, inner);
    Some((pair, end))
}

/// The tokenizer of the header field.
#[derive(Debug)]
pub struct Rfc8288Parser;

impl Rfc8288Parser {
    /// Tokenizes a header value into its tree: a header node over one link
    /// node per link and an end marker. Fails with `Syntax` where the text
    /// is not a list of links.
    pub fn parse(input: &str) -> (result: Result<Pair, ParserError>)
        ensures
            match result {
                Ok(pair) => {
                    &&& syntax_tree(input@) == Some(pair@)
                    &&& pair@.rule == Rule::Header
                    &&& header_shaped(pair@)
                },
                Err(e) => syntax_tree(input@) is None && e == ParserError::Syntax,
            },
    {
        let chars = chars_of(input);
        let start = scan(&chars, 0, CharClass::Blank);
        let mut inner: Vec<Pair> = Vec::new();
        let mut end: usize = 0;
        match read_link(input, &chars, start) {
            Some((link, next)) => {
                inner.push(link);
                assert(nodes(inner@) =~= seq![link@]);
                end = next;
            },
            None => {
                return Err(ParserError::Syntax);
            },
        }
        let ghost first = nodes(inner@);
        let ghost after = end;
        assert(first =~= seq![first[0]]);
        loop
            invariant_except_break
                header_tail(input@, after as int, first) == header_tail(
                    input@,
                    end as int,
                    nodes(inner@),
                ),
            invariant
                chars@ == input@,
                start == span_end(input@, 0, CharClass::Blank),
                link_at(input@, start as int) == Some((first[0], after as int)),
                first == seq![first[0]],
                after <= end <= chars@.len(),
            ensures
                header_tail(input@, after as int, first) == Some(nodes(inner@)),
            decreases chars@.len() - end,
        {
            let comma = scan(&chars, end, CharClass::Blank);
            if comma >= chars.len() {
                let ghost before = nodes(inner@);
                inner.push(make_leaf(input, Rule::Eoi, comma, comma));
                assert(nodes(inner@) =~= before.push(
                    leaf(Rule::Eoi, input@, comma as int, comma as int),
                ));
                break ;
            }
            if !has_at(&chars, comma, ',') {
                return Err(ParserError::Syntax);
            }
            let start = scan(&chars, comma + 1, CharClass::Blank);
            match read_link(input, &chars, start) {
                Some((link, next)) => {
                    let ghost before = nodes(inner@);
                    inner.push(link);
                    assert(nodes(inner@) =~= before.push(link@));
                    end = next;
                },
                None => {
                    return Err(ParserError::Syntax);
                },
            }
        }
        let total = chars.len();
        let pair = make_node(input, Rule::Header, 0, total, inner);
        proof {
            assert(input@.subrange(0, total as int) =~= input@);
            lemma_syntax_tree_shaped(input@);
        }
        Ok(pair)
    }
}

} // verus!
