use vstd::prelude::*;

verus! {

/// Which of the two parentheses a delimiter is.
#[derive(Clone, Copy, Debug, PartialEq, Eq, Structural)]
pub enum Side {
    Open,
    Close,
}

/// A grouping character.
#[derive(Clone, Copy, Debug, PartialEq, Eq, Structural)]
pub enum Delimiter {
    Paranthesis(Side),
}

/// The operation that an inner node of a tree stands for.
#[derive(Clone, Copy, Debug, PartialEq, Eq, Structural)]
pub enum Op {
    Exponentiation,
    Negation,
    Multiplication,
    Division,
    Addition,
    Subtraction,
}

/// What a token is, without the text of a number.
#[derive(Clone, Copy, Debug, PartialEq, Eq, Structural)]
pub enum TokenKind {
    Number,
    Operator(char),
    Delimiter(Delimiter),
}

/// A token's content. A number carries the characters of its literal.
#[derive(Clone, Debug, PartialEq, Eq)]
pub enum TokenType {
    Number(Vec<char>),
    Operator(char),
    Delimiter(Delimiter),
}

/// A token and the offset of its first character in the input.
#[derive(Clone, Debug, PartialEq, Eq)]
pub struct Token {
    pub pos: usize,
    pub token: TokenType,
}

/// The mathematical value of a `TokenType`.
pub enum TokenTypeView {
    Number(Seq<char>),
    Operator(char),
    Delimiter(Delimiter),
}

/// The mathematical value of a `Token`.
pub struct TokenView {
    pub pos: usize,
    pub token: TokenTypeView,
}

impl TokenTypeView {
    /// What the token is, without the text of a number.
    pub open spec fn kind(self) -> TokenKind {
        match self {
            TokenTypeView::Number(_) => TokenKind::Number,
            TokenTypeView::Operator(c) => TokenKind::Operator(c),
            TokenTypeView::Delimiter(d) => TokenKind::Delimiter(d),
        }
    }
}

impl View for TokenType {
    type V = TokenTypeView;

    open spec fn view(&self) -> TokenTypeView {
        match *self {
            TokenType::Number(text) => TokenTypeView::Number(text@),
            TokenType::Operator(c) => TokenTypeView::Operator(c),
            TokenType::Delimiter(d) => TokenTypeView::Delimiter(d),
        }
    }
}

impl TokenType {
    /// What the token is, without the text of a number.
    pub fn kind(&self) -> (r: TokenKind)
        ensures
            r == self@.kind(),
    {
        match self {
            TokenType::Number(_) => TokenKind::Number,
            TokenType::Operator(c) => TokenKind::Operator(*c),
            TokenType::Delimiter(d) => TokenKind::Delimiter(*d),
        }
    }
}

impl View for Token {
    type V = TokenView;

    open spec fn view(&self) -> TokenView {
        TokenView { pos: self.pos, token: self.token@ }
    }
}

/// A node's content: a number's literal, or an operation over child nodes.
#[derive(Debug, PartialEq, Eq)]
pub enum NodeType {
    Operation(Op, Vec<Node>),
    Number(Vec<char>),
}

/// A node of the tree and the offset of the token that produced it.
#[derive(Debug, PartialEq, Eq)]
pub struct Node {
    pub pos: usize,
    pub node: NodeType,
}

/// The mathematical value of a `NodeType`.
pub enum NodeTypeView {
    Operation(Op, Seq<NodeView>),
    Number(Seq<char>),
}

/// The mathematical value of a `Node`.
pub struct NodeView {
    pub pos: usize,
    pub node: NodeTypeView,
}

impl View for Node {
    type V = NodeView;

    open spec fn view(&self) -> NodeView
        decreases self, 0nat,
    {
        NodeView {
            pos: self.pos,
            node: match self.node {
                NodeType::Number(text) => NodeTypeView::Number(text@),
                NodeType::Operation(op, children) => NodeTypeView::Operation(
                    op,
                    views(children@),
                ),
            },
        }
    }
}

/// The mathematical values of `children`, in order.
pub open spec fn views(children: Seq<Node>) -> Seq<NodeView>
    decreases children, 1nat,
{
    Seq::new(
        children.len(),
        |i: int|
            if 0 <= i < children.len() {
                children[i]@
            } else {
                arbitrary()
            },
    )
}

/// The leaf for the literal `text` found at `pos`.
pub open spec fn leaf(pos: usize, text: Seq<char>) -> NodeView {
    NodeView { pos, node: NodeTypeView::Number(text) }
}

/// The node for `op` over one child.
pub open spec fn unary(pos: usize, op: Op, child: NodeView) -> NodeView {
    NodeView { pos, node: NodeTypeView::Operation(op, seq![child]) }
}

/// The node for `op` over two children, left first.
pub open spec fn binary(pos: usize, op: Op, left: NodeView, right: NodeView) -> NodeView {
    NodeView { pos, node: NodeTypeView::Operation(op, seq![left, right]) }
}

impl Node {
    /// The leaf for the literal `text` found at `pos`.
    pub fn number(pos: usize, text: Vec<char>) -> (r: Node)
        ensures
            r@ == leaf(pos, text@),
    {
        Node { pos, node: NodeType::Number(text) }
    }

    /// The node for `op` over one child.
    pub fn unary(pos: usize, op: Op, child: Node) -> (r: Node)
        ensures
            r@ == unary(pos, op, child@),
    {
        let mut children: Vec<Node> = Vec::new();
        children.push(child);
        let r = Node { pos, node: NodeType::Operation(op, children) };
        assert(r@.node->Operation_1 =~= seq![child@]);
        r
    }

    /// The node for `op` over two children, left first.
    pub fn binary(pos: usize, op: Op, left: Node, right: Node) -> (r: Node)
        ensures
            r@ == binary(pos, op, left@, right@),
    {
        let mut children: Vec<Node> = Vec::new();
        children.push(left);
        children.push(right);
        let r = Node { pos, node: NodeType::Operation(op, children) };
        assert(r@.node->Operation_1 =~= seq![left@, right@]);
        r
    }
}

/// One step of an evaluation: put a number on the stack, or apply an
/// operation to the values on top of it.
#[derive(Clone, Debug, PartialEq, Eq)]
pub enum Step {
    Push(Vec<char>),
    Apply(Op),
}

/// The mathematical value of a `Step`.
pub enum StepView {
    Push(Seq<char>),
    Apply(Op),
}

impl View for Step {
    type V = StepView;

    open spec fn view(&self) -> StepView {
        match *self {
            Step::Push(text) => StepView::Push(text@),
            Step::Apply(op) => StepView::Apply(op),
        }
    }
}

/// Why an expression could not be read. Each variant but
/// `UnexpectedEndOfInput` carries the offset in the input where it arose.
#[derive(Clone, Copy, Debug, PartialEq, Eq, Structural)]
pub enum ParseError {
    /// A character that no token can hold, and its offset.
    InvalidCharacter(char, usize),
    /// A second decimal point or exponent marker in one literal, at this offset.
    InvalidLiteral(usize),
    /// The literal that starts at this offset is no number.
    MalformedNumber(usize),
    /// The input ended where the grammar or a literal needed more.
    UnexpectedEndOfInput,
    /// A token that cannot stand where it was found, and its offset.
    UnexpectedToken(TokenKind, usize),
    /// The parenthesis at this offset has no partner.
    UnmatchedParenthesis(usize),
}

impl ParseError {
    /// The offset that the error carries.
    pub open spec fn spec_offset(&self) -> Option<usize> {
        match *self {
            ParseError::InvalidCharacter(_, pos) => Some(pos),
            ParseError::InvalidLiteral(pos) => Some(pos),
            ParseError::MalformedNumber(pos) => Some(pos),
            ParseError::UnexpectedEndOfInput => None,
            ParseError::UnexpectedToken(_, pos) => Some(pos),
            ParseError::UnmatchedParenthesis(pos) => Some(pos),
        }
    }

    /// Where in the input the error arose, if it arose at a character.
    #[verifier::when_used_as_spec(spec_offset)]
    pub fn offset(&self) -> (r: Option<usize>)
        ensures
            r == self.spec_offset(),
    {
        match self {
            ParseError::InvalidCharacter(_, pos) => Some(*pos),
            ParseError::InvalidLiteral(pos) => Some(*pos),
            ParseError::MalformedNumber(pos) => Some(*pos),
            ParseError::UnexpectedEndOfInput => None,
            ParseError::UnexpectedToken(_, pos) => Some(*pos),
            ParseError::UnmatchedParenthesis(pos) => Some(*pos),
        }
    }
}

/// The decimal digits.
pub open spec fn spec_is_digit(c: char) -> bool {
    '0' <= c && c <= '9'
}

/// The exponent marker and the decimal point.
pub open spec fn spec_is_decimal(c: char) -> bool {
    c == 'e' || c == '.'
}

/// The two parentheses.
pub open spec fn spec_is_delimiter(c: char) -> bool {
    c == '(' || c == ')'
}

/// The five operators.
pub open spec fn spec_is_operator(c: char) -> bool {
    c == '^' || c == '*' || c == '/' || c == '+' || c == '-'
}

/// The characters with the Unicode property White_Space.
pub open spec fn spec_is_whitespace(c: char) -> bool {
    ||| '\u{9}' <= c && c <= '\u{d}'
    ||| c == ' '
    ||| c == '\u{85}'
    ||| c == '\u{a0}'
    ||| c == '\u{1680}'
    ||| '\u{2000}' <= c && c <= '\u{200a}'
    ||| c == '\u{2028}'
    ||| c == '\u{2029}'
    ||| c == '\u{202f}'
    ||| c == '\u{205f}'
    ||| c == '\u{3000}'
}

/// The characters that may occur in an expression.
pub open spec fn spec_is_admissible(c: char) -> bool {
    spec_is_digit(c) || spec_is_decimal(c) || spec_is_delimiter(c) || spec_is_operator(c)
        || spec_is_whitespace(c)
}

/// Whether `c` is a decimal digit.
#[verifier::when_used_as_spec(spec_is_digit)]
pub fn is_digit(c: char) -> (r: bool)
    ensures
        r == spec_is_digit(c),
{
    '0' <= c && c <= '9'
}

/// Whether `c` is the exponent marker or the decimal point.
#[verifier::when_used_as_spec(spec_is_decimal)]
pub fn is_decimal(c: char) -> (r: bool)
    ensures
        r == spec_is_decimal(c),
{
    c == 'e' || c == '.'
}

/// Whether `c` is a parenthesis.
#[verifier::when_used_as_spec(spec_is_delimiter)]
pub fn is_delimiter(c: char) -> (r: bool)
    ensures
        r == spec_is_delimiter(c),
{
    c == '(' || c == ')'
}

/// Whether `c` is one of the five operators.
#[verifier::when_used_as_spec(spec_is_operator)]
pub fn is_operator(c: char) -> (r: bool)
    ensures
        r == spec_is_operator(c),
{
    c == '^' || c == '*' || c == '/' || c == '+' || c == '-'
}

/// Whether `c` is whitespace.
#[verifier::when_used_as_spec(spec_is_whitespace)]
pub fn is_whitespace(c: char) -> (r: bool)
    ensures
        r == spec_is_whitespace(c),
{
    ('\u{9}' <= c && c <= '\u{d}') || c == ' ' || c == '\u{85}' || c == '\u{a0}' || c
        == '\u{1680}' || ('\u{2000}' <= c && c <= '\u{200a}') || c == '\u{2028}' || c
        == '\u{2029}' || c == '\u{202f}' || c == '\u{205f}' || c == '\u{3000}'
}

/// Whether `c` may occur in an expression.
#[verifier::when_used_as_spec(spec_is_admissible)]
pub fn is_admissible(c: char) -> (r: bool)
    ensures
        r == spec_is_admissible(c),
{
    is_digit(c) || is_decimal(c) || is_delimiter(c) || is_operator(c) || is_whitespace(c)
}

/// The delimiter that a character stands for, if it stands for one.
#[verifier::when_used_as_spec(spec_make_delimiter)]
pub fn make_delimiter(ch: char) -> (r: Option<Delimiter>)
    ensures
        r == spec_make_delimiter(ch),
{
    match ch {
        '(' => Some(Delimiter::Paranthesis(Side::Open)),
        ')' => Some(Delimiter::Paranthesis(Side::Close)),
        _ => None,
    }
}

/// The delimiter that a character stands for, if it stands for one.
pub open spec fn spec_make_delimiter(ch: char) -> Option<Delimiter> {
    if ch == '(' {
        Some(Delimiter::Paranthesis(Side::Open))
    } else if ch == ')' {
        Some(Delimiter::Paranthesis(Side::Close))
    } else {
        None
    }
}

} // verus!
