//! The boundary to tree-sitter: parsing and queries, from plain values to plain values.
//!
//! What a grammar makes of a text is not stated here but named. A `Language` stands for the
//! grammar that it points to.
//!
//! Beyond ASCII, the query compiler and the scanners of some grammars ask the C library whether
//! a character is a letter or space, and its answer follows the locale. What they make of a
//! text is therefore named as a function of the grammar and the text for ASCII texts only; for
//! others, `may_parse` and `may_compile` say what holds of every outcome.
//!
//! Of a grammar's external scanner, where it has one, it is taken for granted that it neither
//! aborts nor hands the parser more state than the parser's buffer holds, which is
//! `TREE_SITTER_SERIALIZATION_BUFFER_SIZE` bytes: the parser aborts on more. The grammar for
//! Java has no scanner, that for JavaScript keeps no state, and that for Python stops writing
//! where the buffer is full.
use crate::query_shape::query_bounded;
use crate::text::texts;
use crate::tree::{NodeSpec, Point, SyntaxNode};
use tree_sitter::{Language, Node, Parser, Query, QueryCursor, StreamingIterator, Tree};
use vstd::prelude::*;
use vstd::utf8::is_ascii_chars;

verus! {

/// A grammar.
#[verifier::external_type_specification]
#[verifier::external_body]
pub struct ExLanguage(Language);

/// A parsed text.
#[verifier::external_type_specification]
#[verifier::external_body]
pub struct ExTree(Tree);

/// A node of a parsed text.
#[verifier::external_type_specification]
#[verifier::external_body]
pub struct ExNode<'tree>(Node<'tree>);

/// A compiled query.
#[verifier::external_type_specification]
#[verifier::external_body]
pub struct ExQuery(Query);

/// Why a parser does not take a grammar, as `Parser::set_language` words it; `None` for a
/// grammar that it takes.
pub uninterp spec fn language_refusal(language: Language) -> Option<Seq<char>>;

/// The tree that `Parser::parse` makes of an ASCII text, if it makes one.
pub uninterp spec fn parsed(language: Language, text: Seq<char>) -> Option<Tree>;

/// The grammar and the text that a tree was parsed with.
pub uninterp spec fn tree_origin(tree: Tree) -> (Language, Seq<char>);

/// What the root of a tree, which `Tree::root_node` hands out, and the nodes below it hold.
pub uninterp spec fn root_value(tree: Tree) -> NodeSpec;

/// What a node and the nodes below it hold.
pub uninterp spec fn node_value(node: Node) -> NodeSpec;

/// What `Query::new` makes of the ASCII text of a query.
pub uninterp spec fn compiled(language: Language, query: Seq<char>) -> Result<
    Query,
    QueryFailureSpec,
>;

/// The grammar and the text that a query was compiled from.
pub uninterp spec fn query_origin(query: Query) -> (Language, Seq<char>);

/// The names of the captures of a query, by capture index.
pub uninterp spec fn query_captures(query: Query) -> Seq<Seq<char>>;

/// The captures of each match of a query on the tree of a text, in the order in which
/// `QueryCursor::matches` finds them.
pub uninterp spec fn query_hits(query: Query, tree: Tree, source: Seq<char>) -> Seq<Seq<QueryHit>>;

/// The parser may make this of a text: a tree unless it refuses the grammar, and of an ASCII
/// text always the same.
pub open spec fn may_parse(language: Language, text: Seq<char>, tree: Option<Tree>) -> bool {
    &&& tree is Some <==> language_refusal(language) is None
    &&& tree matches Some(t) ==> tree_origin(t) == (language, text)
    &&& is_ascii_chars(text) ==> tree == parsed(language, text)
}

/// The compiler may make this of the text of a query: of an ASCII text always the same.
pub open spec fn may_compile(
    language: Language,
    query: Seq<char>,
    outcome: Result<Query, QueryFailureSpec>,
) -> bool {
    &&& outcome matches Ok(q) ==> query_origin(q) == (language, query)
    &&& is_ascii_chars(query) ==> outcome == compiled(language, query)
}

/// Where and why the text of a query is refused.
pub struct QueryFailure {
    pub row: usize,
    pub column: usize,
    pub message: String,
}

/// The model of a query failure.
pub struct QueryFailureSpec {
    pub row: usize,
    pub column: usize,
    pub message: Seq<char>,
}

impl View for QueryFailure {
    type V = QueryFailureSpec;

    open spec fn view(&self) -> QueryFailureSpec {
        QueryFailureSpec { row: self.row, column: self.column, message: self.message@ }
    }
}

/// One capture of a query match: the index of its name, and where the node stands.
#[derive(Debug, Clone, Copy, PartialEq, Eq, Structural)]
pub struct QueryHit {
    pub index: u32,
    pub start_byte: usize,
    pub end_byte: usize,
    pub start_point: Point,
    pub end_point: Point,
}

/// The captures of several matches.
pub open spec fn hits(matches: Seq<Vec<QueryHit>>) -> Seq<Seq<QueryHit>> {
    matches.map_values(|m: Vec<QueryHit>| m@)
}

/// `Parser::set_language` on a new parser: its result depends on the grammar alone, whose
/// version it compares with those that the library supports. An error is handed out as its
/// text.
#[verifier::external_body]
pub(crate) fn refusal_of(language: &Language) -> (r: Option<String>)
    ensures
        r is Some <==> language_refusal(*language) is Some,
        r matches Some(message) ==> language_refusal(*language) == Some(message@),
{
    match Parser::new().set_language(language) {
        Ok(()) => None,
        Err(error) => Some(error.to_string()),
    }
}

/// `Parser::parse` without an earlier tree, on a new parser that was given the grammar. There is
/// a tree unless the parser has no grammar, which is so where `Parser::set_language` refuses it.
/// Of an ASCII text the tree is a function of the grammar and the text; which tree comes of
/// another text is left unsaid. That the call returns rests on the grammar's external scanner,
/// as said at the head of this file.
#[verifier::external_body]
pub(crate) fn parse_text(language: &Language, text: &str) -> (r: Option<Tree>)
    ensures
        r is Some <==> language_refusal(*language) is None,
        r matches Some(tree) ==> tree_origin(tree) == (*language, text@),
        is_ascii_chars(text@) ==> r == parsed(*language, text@),
{
    let mut parser = Parser::new();
    parser.set_language(language).ok()?;
    parser.parse(text, None)
}

/// `Tree::root_node` hands out the root of the tree.
#[verifier::external_body]
fn root_node(tree: &Tree) -> (r: Node<'_>)
    ensures
        node_value(r) == root_value(*tree),
{
    tree.root_node()
}

/// `Node::kind` hands out the name of the node's type.
#[verifier::external_body]
fn node_kind(node: Node<'_>) -> (r: String)
    ensures
        r@ == node_value(node).kind,
{
    node.kind().to_string()
}

/// `Node::is_named` says whether the node is one of a named rule.
#[verifier::external_body]
fn node_is_named(node: Node<'_>) -> (r: bool)
    ensures
        r == node_value(node).named,
{
    node.is_named()
}

/// `Node::start_byte` hands out the offset where the node starts.
#[verifier::external_body]
fn node_start_byte(node: Node<'_>) -> (r: usize)
    ensures
        r == node_value(node).start_byte,
{
    node.start_byte()
}

/// `Node::end_byte` hands out the offset where the node ends.
#[verifier::external_body]
fn node_end_byte(node: Node<'_>) -> (r: usize)
    ensures
        r == node_value(node).end_byte,
{
    node.end_byte()
}

/// `Node::start_position` hands out the row and column where the node starts.
#[verifier::external_body]
fn node_start_position(node: Node<'_>) -> (r: Point)
    ensures
        r == node_value(node).start_point,
{
    let point = node.start_position();
    Point { row: point.row, column: point.column }
}

/// `Node::end_position` hands out the row and column where the node ends.
#[verifier::external_body]
fn node_end_position(node: Node<'_>) -> (r: Point)
    ensures
        r == node_value(node).end_point,
{
    let point = node.end_position();
    Point { row: point.row, column: point.column }
}

/// `Node::child_count` hands out the number of children, which tree-sitter counts in 32 bits.
#[verifier::external_body]
fn node_child_count(node: Node<'_>) -> (r: usize)
    ensures
        r == node_value(node).children.len(),
        r <= u32::MAX,
{
    node.child_count()
}

/// `Node::child` hands out the child at an index, where zero is the first.
#[verifier::external_body]
fn node_child<'tree>(node: Node<'tree>, i: u32) -> (r: Option<Node<'tree>>)
    ensures
        r is Some <==> i < node_value(node).children.len(),
        r matches Some(child) ==> node_value(child) == node_value(node).children[i as int],
{
    node.child(i)
}

/// The model of a compiled query, or of its failure.
pub open spec fn compiled_model(r: Result<Query, QueryFailure>) -> Result<Query, QueryFailureSpec> {
    match r {
        Ok(query) => Ok(query),
        Err(failure) => Err(failure@),
    }
}

/// `Query::new` compiles the text of a query for a grammar. Of an ASCII text the outcome is a
/// function of the grammar and the text; which outcome another text has is left unsaid. The
/// compiler is not handed the queries on which it does not return.
#[verifier::external_body]
pub(crate) fn compile_query(language: &Language, query: &str) -> (r: Result<Query, QueryFailure>)
    requires
        query_bounded(query@),
    ensures
        r matches Ok(compiled_query) ==> query_origin(compiled_query) == (*language, query@),
        is_ascii_chars(query@) ==> compiled_model(r) == compiled(*language, query@),
{
    match Query::new(language, query) {
        Ok(compiled) => Ok(compiled),
        Err(e) => Err(QueryFailure { row: e.row, column: e.column, message: e.message }),
    }
}

/// `Query::capture_names` hands out the names of the captures used in the query.
#[verifier::external_body]
pub(crate) fn capture_names(query: &Query) -> (r: Vec<String>)
    ensures
        texts(r@) == query_captures(*query),
{
    query.capture_names().iter().map(|name| name.to_string()).collect()
}

/// `QueryCursor::matches` finds the matches of a query on the tree of a text, whose bytes the
/// query's predicates read. Each match is handed out as its captures.
#[verifier::external_body]
pub(crate) fn run_query(query: &Query, tree: &Tree, source: &str) -> (r: Vec<Vec<QueryHit>>)
    requires
        query_bounded(query_origin(*query).1),
        tree_origin(*tree) == (query_origin(*query).0, source@),
    ensures
        hits(r@) == query_hits(*query, *tree, source@),
{
    let mut cursor = QueryCursor::new();
    let matches = cursor.matches(query, tree.root_node(), source.as_bytes());
    matches.map_deref(|m| m.captures.iter().map(|c| hit(c.index, c.node)).collect()).collect()
}

/// The capture of a node under the name with the index `index`.
fn hit(index: u32, node: Node<'_>) -> (r: QueryHit)
    ensures
        r == (QueryHit {
            index,
            start_byte: node_value(node).start_byte,
            end_byte: node_value(node).end_byte,
            start_point: node_value(node).start_point,
            end_point: node_value(node).end_point,
        }),
{
    QueryHit {
        index,
        start_byte: node_start_byte(node),
        end_byte: node_end_byte(node),
        start_point: node_start_position(node),
        end_point: node_end_position(node),
    }
}

/// The node and everything below it as plain values.
fn syntax_node(node: Node<'_>) -> (r: SyntaxNode)
    ensures
        r@ == node_value(node),
    decreases node_value(node),
{
    let count = node_child_count(node);
    let mut children: Vec<SyntaxNode> = Vec::new();
    let mut i: u32 = 0;
    while (i as usize) < count
        invariant
            i <= count <= u32::MAX,
            count == node_value(node).children.len(),
            children@.len() == i,
            forall|j: int|
                0 <= j < i ==> children@[j]@ == #[trigger] node_value(node).children[j],
        decreases count - i,
    {
        if let Some(child) = node_child(node, i) {
            assert(node_value(child) == node_value(node).children[i as int]);
            children.push(syntax_node(child));
        }
        i = i + 1;
    }
    let r = SyntaxNode {
        kind: node_kind(node),
        named: node_is_named(node),
        start_byte: node_start_byte(node),
        end_byte: node_end_byte(node),
        start_point: node_start_position(node),
        end_point: node_end_position(node),
        children,
    };
    assert(r@.children =~= node_value(node).children);
    r
}

/// The model of a tree, if there is one.
pub open spec fn tree_model(tree: Option<SyntaxNode>) -> Option<NodeSpec> {
    match tree {
        Some(root) => Some(root@),
        None => None,
    }
}

/// What the root of a tree holds, if there is one.
pub open spec fn root_model(tree: Option<Tree>) -> Option<NodeSpec> {
    match tree {
        Some(t) => Some(root_value(t)),
        None => None,
    }
}

/// The parser may make a tree of a text whose root holds this.
pub open spec fn parses_to(language: Language, text: Seq<char>, root: Option<NodeSpec>) -> bool {
    exists|tree: Option<Tree>| #[trigger] may_parse(language, text, tree) && root == root_model(tree)
}

/// Parses a text into a tree of plain values.
pub fn parse(language: &Language, text: &str) -> (r: Option<SyntaxNode>)
    ensures
        parses_to(*language, text@, tree_model(r)),
        is_ascii_chars(text@) ==> tree_model(r) == root_model(parsed(*language, text@)),
{
    match parse_text(language, text) {
        Some(tree) => {
            let r = Some(syntax_node(root_node(&tree)));
            assert(may_parse(*language, text@, Some(tree)));
            assert(tree_model(r) == root_model(Some(tree)));
            r
        },
        None => {
            assert(may_parse(*language, text@, None));
            assert(root_model(None) is None);
            None
        },
    }
}

} // verus!
