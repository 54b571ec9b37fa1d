use vstd::prelude::*;

verus! {

/// Terminal categories produced by the lexer.
#[derive(Clone, Copy, Debug, PartialEq, Eq, Structural)]
pub enum TokenKind {
    Name,
    Int,
    Float,
    StringValue,
    At,
    Bang,
    Colon,
    Comma,
    Dollar,
    Eq,
    Amp,
    Pipe,
    Spread,
    LParen,
    RParen,
    LBracket,
    RBracket,
    LCurly,
    RCurly,
}

/// One lexical token: its terminal category and its raw source text.
#[derive(Debug)]
pub struct Token {
    pub kind: TokenKind,
    pub text: String,
}

impl Token {
    pub fn new(kind: TokenKind, text: &str) -> (r: Token)
        ensures
            r.kind == kind,
            r.text@ == text@,
    {
        Token { kind, text: String::from_str(text) }
    }
}

/// Tags of tree nodes and of leaf tokens.
#[allow(non_camel_case_types)]
#[derive(Clone, Copy, Debug, PartialEq, Eq, Structural)]
pub enum SyntaxKind {
    DOCUMENT,
    INPUT_OBJECT_TYPE_DEFINITION,
    INPUT_OBJECT_TYPE_EXTENSION,
    INPUT_FIELDS_DEFINITION,
    INPUT_VALUE_DEFINITION,
    NAME,
    TYPE,
    NAMED_TYPE,
    LIST_TYPE,
    NON_NULL_TYPE,
    DIRECTIVES,
    DIRECTIVE,
    ARGUMENTS,
    ARGUMENT,
    DEFAULT_VALUE,
    VARIABLE,
    INT_VALUE,
    FLOAT_VALUE,
    STRING_VALUE,
    BOOLEAN_VALUE,
    NULL_VALUE,
    ENUM_VALUE,
    LIST_VALUE,
    OBJECT_VALUE,
    OBJECT_FIELD,
    ERROR,
    IDENT,
    INT,
    FLOAT,
    STRING,
    input_KW,
    extend_KW,
    true_KW,
    false_KW,
    null_KW,
    AT,
    BANG,
    COLON,
    COMMA,
    DOLLAR,
    EQ,
    AMP,
    PIPE,
    SPREAD,
    L_PAREN,
    R_PAREN,
    L_BRACK,
    R_BRACK,
    L_CURLY,
    R_CURLY,
}

/// The tree is stored in preorder: `Open` starts a node, `Leaf` attaches
/// the token at the given index of the token stream to the innermost open
/// node, `Close` ends the innermost open node.
#[derive(Clone, Copy, Debug, PartialEq, Eq, Structural)]
pub enum Event {
    Open(SyntaxKind),
    Leaf(SyntaxKind, usize),
    Close,
}

pub open spec fn depth_step(e: Event) -> int {
    match e {
        Event::Open(_) => 1,
        Event::Close => -1,
        Event::Leaf(_, _) => 0,
    }
}

/// Number of nodes left open after the first `k` events.
pub open spec fn depth_at(ev: Seq<Event>, k: int) -> int
    decreases k,
{
    if k <= 0 {
        0
    } else {
        depth_at(ev, k - 1) + depth_step(ev[k - 1])
    }
}

/// Number of open nodes after all of `ev`.
pub open spec fn depth(ev: Seq<Event>) -> int {
    depth_at(ev, ev.len() as int)
}

/// No prefix of `ev` longer than `from` leaves fewer than `d` nodes open.
pub open spec fn stays_above(ev: Seq<Event>, from: int, d: int) -> bool {
    forall|k: int| from <= k <= ev.len() ==> #[trigger] depth_at(ev, k) >= d
}

/// Token indices of the leaves of `ev`, in order.
pub open spec fn leaf_indices(ev: Seq<Event>) -> Seq<usize>
    decreases ev.len(),
{
    if ev.len() == 0 {
        Seq::empty()
    } else {
        let rest = leaf_indices(ev.drop_last());
        match ev.last() {
            Event::Leaf(_, i) => rest.push(i),
            _ => rest,
        }
    }
}

/// The leaves of `ev` are the tokens `0..n`, each once and in order.
pub open spec fn covers(ev: Seq<Event>, n: nat) -> bool {
    &&& leaf_indices(ev).len() == n
    &&& forall|i: int| 0 <= i < n ==> #[trigger] leaf_indices(ev)[i] == i
}

/// `ev` describes exactly one tree, whose root is a `DOCUMENT` node.
pub open spec fn is_document_tree(ev: Seq<Event>) -> bool {
    &&& ev.len() >= 2
    &&& ev[0] == Event::Open(SyntaxKind::DOCUMENT)
    &&& depth(ev) == 0
    &&& forall|k: int| 1 <= k < ev.len() ==> #[trigger] depth_at(ev, k) >= 1
}

/// Depths of a prefix do not depend on what follows it.
pub proof fn lemma_depth_prefix(a: Seq<Event>, b: Seq<Event>, k: int)
    requires
        a.len() <= b.len(),
        b.subrange(0, a.len() as int) == a,
        k <= a.len(),
    ensures
        depth_at(a, k) == depth_at(b, k),
    decreases k,
{
    if k > 0 {
        lemma_depth_prefix(a, b, k - 1);
        assert(a[k - 1] == b.subrange(0, a.len() as int)[k - 1]);
    }
}

/// Appending one event keeps the depths of all earlier prefixes.
pub proof fn lemma_depth_push(a: Seq<Event>, e: Event)
    ensures
        forall|k: int| k <= a.len() ==> #[trigger] depth_at(a.push(e), k) == depth_at(a, k),
        depth(a.push(e)) == depth(a) + depth_step(e),
{
    assert forall|k: int| k <= a.len() implies #[trigger] depth_at(a.push(e), k) == depth_at(a, k) by {
        assert(a.push(e).subrange(0, a.len() as int) =~= a);
        lemma_depth_prefix(a, a.push(e), k);
    }
    assert(a.push(e)[a.len() as int] == e);
    assert(depth_at(a.push(e), a.len() as int + 1) == depth_at(a.push(e), a.len() as int) + depth_step(e));
    assert(depth_at(a.push(e), a.len() as int) == depth_at(a, a.len() as int));
}

/// Appending one event adds its token, if it is a leaf, to the leaves.
pub proof fn lemma_leaves_push(a: Seq<Event>, e: Event)
    ensures
        leaf_indices(a.push(e)) == (match e {
            Event::Leaf(_, i) => leaf_indices(a).push(i),
            _ => leaf_indices(a),
        }),
{
    assert(a.push(e).drop_last() =~= a);
}

} // verus!
