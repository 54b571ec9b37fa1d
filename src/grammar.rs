use vstd::prelude::*;
use crate::parser::{
    b_bump, b_open, lemma_completes_refl, lemma_completes_trans, lemma_wrap, opens_node, Parser,
};
use crate::language::{
    argument_items_end, arguments_end, bare_type_end, default_value_end, directive_end,
    directives_end, kind_at, list_items_end, object_fields_end, type_end, value_end, value_starts,
};
use crate::shape::{
    argument_items_shape, directive_items_shape, list_items_shape, object_fields_shape, arguments_shape, argument_shape, default_value_shape, directive_shape, directives_shape,
    leaf_of, list_value_shape, name_shape, object_field_shape, object_value_shape, single_shape,
    type_body_shape, type_shape, value_shape,
};
use crate::syntax::{Event, SyntaxKind, TokenKind};

verus! {

/// The token kinds that can start a type.
pub open spec fn starts_type(k: Option<TokenKind>) -> bool {
    k == Some(TokenKind::Name) || k == Some(TokenKind::LBracket)
}

pub fn is_value_start(k: Option<TokenKind>) -> (r: bool)
    ensures
        r == value_starts(k),
{
    match k {
        Some(TokenKind::Dollar) | Some(TokenKind::Int) | Some(TokenKind::Float) | Some(
            TokenKind::StringValue,
        ) | Some(TokenKind::Name) | Some(TokenKind::LBracket) | Some(TokenKind::LCurly) => true,
        _ => false,
    }
}

pub fn is_type_start(k: Option<TokenKind>) -> (r: bool)
    ensures
        r == starts_type(k),
{
    match k {
        Some(TokenKind::Name) | Some(TokenKind::LBracket) => true,
        _ => false,
    }
}

/// The tag a token of kind `k` carries as a leaf when no rule gives it one.
pub(crate) fn leaf_kind(k: TokenKind) -> (r: SyntaxKind)
    ensures
        r == leaf_of(k),
{
    match k {
        TokenKind::Name => SyntaxKind::IDENT,
        TokenKind::Int => SyntaxKind::INT,
        TokenKind::Float => SyntaxKind::FLOAT,
        TokenKind::StringValue => SyntaxKind::STRING,
        TokenKind::At => SyntaxKind::AT,
        TokenKind::Bang => SyntaxKind::BANG,
        TokenKind::Colon => SyntaxKind::COLON,
        TokenKind::Comma => SyntaxKind::COMMA,
        TokenKind::Dollar => SyntaxKind::DOLLAR,
        TokenKind::Eq => SyntaxKind::EQ,
        TokenKind::Amp => SyntaxKind::AMP,
        TokenKind::Pipe => SyntaxKind::PIPE,
        TokenKind::Spread => SyntaxKind::SPREAD,
        TokenKind::LParen => SyntaxKind::L_PAREN,
        TokenKind::RParen => SyntaxKind::R_PAREN,
        TokenKind::LBracket => SyntaxKind::L_BRACK,
        TokenKind::RBracket => SyntaxKind::R_BRACK,
        TokenKind::LCurly => SyntaxKind::L_CURLY,
        TokenKind::RCurly => SyntaxKind::R_CURLY,
    }
}

/// `Name`: one identifier wrapped in a `NAME` node.
pub fn name(p: &mut Parser)
    requires
        old(p).wf(),
        old(p).next_kind() == Some(TokenKind::Name),
    ensures
        final(p).st() == name_shape(old(p).st()),
        old(p).completes(*final(p)),
        final(p).pos() == old(p).pos() + 1,
        final(p).errors() == old(p).errors(),
        opens_node(*old(p), *final(p), SyntaxKind::NAME),
        final(p).events().len() == old(p).events().len() + 3,
{
    let ghost s0 = *p;
    p.start_node(SyntaxKind::NAME);
    let ghost s1 = *p;
    p.bump(SyntaxKind::IDENT);
    let ghost s2 = *p;
    p.finish_node();
    proof {
        lemma_wrap(s0, s1, s2, *p);
    }
}

/// A node of kind `node` holding the next token, tagged `leaf`.
pub fn single(p: &mut Parser, node: SyntaxKind, leaf: SyntaxKind)
    requires
        old(p).wf(),
        old(p).pos() < old(p).tokens().len(),
    ensures
        final(p).st() == single_shape(old(p).st(), node, leaf),
        opens_node(*old(p), *final(p), node),
        final(p).events()[old(p).events().len() + 1int] == Event::Leaf(leaf, old(p).pos() as usize),
        old(p).completes(*final(p)),
        final(p).pos() == old(p).pos() + 1,
        final(p).errors() == old(p).errors(),
{
    let ghost s0 = *p;
    p.start_node(node);
    let ghost s1 = *p;
    p.bump(leaf);
    let ghost s2 = *p;
    p.finish_node();
    proof {
        lemma_wrap(s0, s1, s2, *p);
    }
}

/// `Directives`: one or more directives.
pub fn directives(p: &mut Parser)
    requires
        old(p).wf(),
        old(p).next_kind() == Some(TokenKind::At),
    ensures
        final(p).st() == directives_shape(old(p).tokens(), old(p).st()),
        old(p).completes(*final(p)),
        final(p).pos() > old(p).pos(),
        directives_end(old(p).tokens(), old(p).pos() as int) matches Some(j) ==> final(p).pos() == j
            && final(p).errors() == old(p).errors(),
        opens_node(*old(p), *final(p), SyntaxKind::DIRECTIVES),
        final(p).errors().len() == old(p).errors().len() ==> directives_end(
            old(p).tokens(),
            old(p).pos() as int,
        ) == Some(final(p).pos() as int),
{
    let ghost s0 = *p;
    p.start_node(SyntaxKind::DIRECTIVES);
    let ghost s1 = *p;
    proof {
        lemma_completes_refl(s1);
    }
    let ghost a0 = p.st();
    while p.peek() == Some(TokenKind::At)
        invariant
            a0 == b_open(old(p).st(), SyntaxKind::DIRECTIVES),
            directive_items_shape(old(p).tokens(), p.st()) == directive_items_shape(old(p).tokens(), a0),
            p.errors().len() >= old(p).errors().len(),
            p.errors().len() == old(p).errors().len() ==> directives_end(
                old(p).tokens(),
                old(p).pos() as int,
            ) == (if kind_at(p.tokens(), p.pos() as int) == Some(TokenKind::At) {
                directives_end(p.tokens(), p.pos() as int)
            } else {
                Some(p.pos() as int)
            }),
            p.wf(),
            p.tokens() == old(p).tokens(),
            directives_end(old(p).tokens(), old(p).pos() as int) matches Some(e) ==> p.errors()
                == old(p).errors() && (if kind_at(p.tokens(), p.pos() as int) == Some(TokenKind::At) {
                directives_end(p.tokens(), p.pos() as int) == Some(e)
            } else {
                p.pos() == e
            }),
            s1.completes(*p),
            p.pos() >= s1.pos(),
            p.pos() == s1.pos() ==> p.next_kind() == Some(TokenKind::At),
        decreases p.tokens().len() - p.pos(),
    {
        let ghost t0 = p.st();
        let ghost t = *p;
        directive(p);
        proof {
            if p.errors().len() == old(p).errors().len() {
                assert(t.errors().len() == old(p).errors().len());
                assert(directives_end(t.tokens(), t.pos() as int) == (if kind_at(
                    p.tokens(),
                    p.pos() as int,
                ) == Some(TokenKind::At) {
                    directives_end(p.tokens(), p.pos() as int)
                } else {
                    Some(p.pos() as int)
                }));
            }
            lemma_completes_trans(s1, t, *p);
            assert(directive_items_shape(old(p).tokens(), t0) == directive_items_shape(old(p).tokens(), p.st()));
        }
    }
    let ghost s2 = *p;
    p.finish_node();
    proof {
        lemma_wrap(s0, s1, s2, *p);
    }
}

/// `Directive`: `@` Name Arguments(opt).
pub fn directive(p: &mut Parser)
    requires
        old(p).wf(),
        old(p).next_kind() == Some(TokenKind::At),
    ensures
        final(p).st() == directive_shape(old(p).tokens(), old(p).st()),
        old(p).completes(*final(p)),
        final(p).pos() > old(p).pos(),
        directive_end(old(p).tokens(), old(p).pos() as int) matches Some(j) ==> final(p).pos() == j
            && final(p).errors() == old(p).errors(),
        opens_node(*old(p), *final(p), SyntaxKind::DIRECTIVE),
        final(p).errors().len() == old(p).errors().len() ==> directive_end(
            old(p).tokens(),
            old(p).pos() as int,
        ) == Some(final(p).pos() as int),
{
    let ghost s0 = *p;
    p.start_node(SyntaxKind::DIRECTIVE);
    let ghost s1 = *p;
    p.bump(SyntaxKind::AT);
    let ghost t = *p;
    if p.peek() == Some(TokenKind::Name) {
        name(p);
    } else {
        p.push_err("Expected Directive to have a Name, got ", None);
    }
    proof {
        lemma_completes_trans(s1, t, *p);
    }
    if p.peek() == Some(TokenKind::LParen) {
        let ghost u = *p;
        arguments(p);
        proof {
            lemma_completes_trans(s1, u, *p);
        }
    }
    let ghost s2 = *p;
    p.finish_node();
    proof {
        lemma_wrap(s0, s1, s2, *p);
    }
}

/// `Arguments`: `(` Argument(list) `)`.
pub fn arguments(p: &mut Parser)
    requires
        old(p).wf(),
        old(p).next_kind() == Some(TokenKind::LParen),
    ensures
        final(p).st() == arguments_shape(old(p).tokens(), old(p).st()),
        old(p).completes(*final(p)),
        final(p).pos() > old(p).pos(),
        arguments_end(old(p).tokens(), old(p).pos() as int) matches Some(j) ==> final(p).pos() == j
            && final(p).errors() == old(p).errors(),
        opens_node(*old(p), *final(p), SyntaxKind::ARGUMENTS),
        final(p).errors().len() == old(p).errors().len() ==> arguments_end(
            old(p).tokens(),
            old(p).pos() as int,
        ) == Some(final(p).pos() as int),
{
    let ghost s0 = *p;
    p.start_node(SyntaxKind::ARGUMENTS);
    let ghost s1 = *p;
    p.bump(SyntaxKind::L_PAREN);
    let ghost a0 = p.st();
    loop
        invariant
            a0 == b_bump(b_open(old(p).st(), SyntaxKind::ARGUMENTS), SyntaxKind::L_PAREN),
            argument_items_shape(old(p).tokens(), p.st()) == argument_items_shape(old(p).tokens(), a0),
            p.errors().len() >= old(p).errors().len(),
            p.errors().len() == old(p).errors().len() ==> argument_items_end(p.tokens(), p.pos() as int)
                == argument_items_end(old(p).tokens(), old(p).pos() + 1int),
            p.wf(),
            p.tokens() == old(p).tokens(),
            arguments_end(old(p).tokens(), old(p).pos() as int) is Some ==> p.errors() == old(
                p,
            ).errors() && argument_items_end(p.tokens(), p.pos() as int) == argument_items_end(
                old(p).tokens(),
                old(p).pos() + 1int,
            ),
            s1.completes(*p),
            p.pos() > s1.pos(),
        ensures
            argument_items_shape(old(p).tokens(), p.st()) == p.st(),
            argument_items_end(p.tokens(), p.pos() as int) == Some(
                p.pos() as int,
            ),
        decreases p.tokens().len() - p.pos(),
    {
        let ghost t0 = p.st();
        let ghost t = *p;
        proof {
            if arguments_end(old(p).tokens(), old(p).pos() as int) is Some {
                assert(argument_items_end(p.tokens(), old(p).pos() + 1int) is Some);
                assert(argument_items_end(t.tokens(), t.pos() as int) is Some);
            }
        }
        let k = p.peek();
        if k == Some(TokenKind::Name) {
            argument(p);
        } else if k == Some(TokenKind::Comma) {
            p.bump(SyntaxKind::COMMA);
        } else {
            break;
        }
        proof {
            if p.errors().len() == old(p).errors().len() {
                assert(t.errors().len() == old(p).errors().len());
                assert(argument_items_end(t.tokens(), t.pos() as int) == argument_items_end(p.tokens(), p.pos() as int));
            }
            lemma_completes_trans(s1, t, *p);
            assert(argument_items_shape(old(p).tokens(), t0) == argument_items_shape(old(p).tokens(), p.st()));
        }
    }
    let ghost t = *p;
    if p.peek() == Some(TokenKind::RParen) {
        p.bump(SyntaxKind::R_PAREN);
    } else {
        p.push_err("Expected Arguments to have a closing ), got ", None);
    }
    proof {
        lemma_completes_trans(s1, t, *p);
    }
    let ghost s2 = *p;
    p.finish_node();
    proof {
        lemma_wrap(s0, s1, s2, *p);
    }
}

/// `Argument`: Name `:` Value.
pub fn argument(p: &mut Parser)
    requires
        old(p).wf(),
        old(p).next_kind() == Some(TokenKind::Name),
    ensures
        final(p).st() == argument_shape(old(p).tokens(), old(p).st()),
        old(p).completes(*final(p)),
        final(p).pos() > old(p).pos(),
        kind_at(old(p).tokens(), old(p).pos() + 1int) == Some(TokenKind::Colon) ==> (value_end(
            old(p).tokens(),
            old(p).pos() + 2int,
        ) matches Some(j) ==> final(p).pos() == j && final(p).errors() == old(p).errors()),
        opens_node(*old(p), *final(p), SyntaxKind::ARGUMENT),
        final(p).errors().len() == old(p).errors().len() ==> kind_at(
            old(p).tokens(),
            old(p).pos() + 1int,
        ) == Some(TokenKind::Colon) && value_end(old(p).tokens(), old(p).pos() + 2int) == Some(
            final(p).pos() as int,
        ),
{
    let ghost s0 = *p;
    p.start_node(SyntaxKind::ARGUMENT);
    let ghost s1 = *p;
    name(p);
    let ghost t = *p;
    if p.peek() == Some(TokenKind::Colon) {
        p.bump(SyntaxKind::COLON);
        let ghost u = *p;
        if is_value_start(p.peek()) {
            value(p);
        } else {
            p.push_err("Expected Argument to have a Value, got ", None);
        }
        proof {
            lemma_completes_trans(t, u, *p);
        }
    } else {
        p.push_err("Expected Argument to have a Colon, got ", None);
    }
    proof {
        lemma_completes_trans(s1, t, *p);
    }
    let ghost s2 = *p;
    p.finish_node();
    proof {
        lemma_wrap(s0, s1, s2, *p);
    }
}

/// `Value`: a variable, a literal, an enum value, a list or an object.
pub fn value(p: &mut Parser)
    requires
        old(p).wf(),
        value_starts(old(p).next_kind()),
    ensures
        final(p).st() == value_shape(old(p).tokens(), old(p).st()),
        old(p).completes(*final(p)),
        final(p).pos() > old(p).pos(),
        value_end(old(p).tokens(), old(p).pos() as int) matches Some(j) ==> final(p).pos() == j
            && final(p).errors() == old(p).errors(),
        final(p).errors().len() == old(p).errors().len() ==> value_end(
            old(p).tokens(),
            old(p).pos() as int,
        ) == Some(final(p).pos() as int),
    decreases old(p).tokens().len() - old(p).pos(), 1nat,
{
    let k = p.peek();
    if k == Some(TokenKind::Dollar) {
        let ghost s0 = *p;
        p.start_node(SyntaxKind::VARIABLE);
        let ghost s1 = *p;
        p.bump(SyntaxKind::DOLLAR);
        let ghost t = *p;
        if p.peek() == Some(TokenKind::Name) {
            name(p);
        } else {
            p.push_err("Expected Variable to have a Name, got ", None);
        }
        proof {
            lemma_completes_trans(s1, t, *p);
        }
        let ghost s2 = *p;
        p.finish_node();
        proof {
            lemma_wrap(s0, s1, s2, *p);
        }
    } else if k == Some(TokenKind::Int) {
        single(p, SyntaxKind::INT_VALUE, SyntaxKind::INT);
    } else if k == Some(TokenKind::Float) {
        single(p, SyntaxKind::FLOAT_VALUE, SyntaxKind::FLOAT);
    } else if k == Some(TokenKind::StringValue) {
        single(p, SyntaxKind::STRING_VALUE, SyntaxKind::STRING);
    } else if k == Some(TokenKind::Name) {
        if p.at_word("true") {
            single(p, SyntaxKind::BOOLEAN_VALUE, SyntaxKind::true_KW);
        } else if p.at_word("false") {
            single(p, SyntaxKind::BOOLEAN_VALUE, SyntaxKind::false_KW);
        } else if p.at_word("null") {
            single(p, SyntaxKind::NULL_VALUE, SyntaxKind::null_KW);
        } else {
            let ghost s0 = *p;
            p.start_node(SyntaxKind::ENUM_VALUE);
            let ghost s1 = *p;
            name(p);
            let ghost s2 = *p;
            p.finish_node();
            proof {
                lemma_wrap(s0, s1, s2, *p);
            }
        }
    } else if k == Some(TokenKind::LBracket) {
        list_value(p);
    } else {
        object_value(p);
    }
}

/// `ListValue`: `[` Value(list) `]`.
pub fn list_value(p: &mut Parser)
    requires
        old(p).wf(),
        old(p).next_kind() == Some(TokenKind::LBracket),
    ensures
        final(p).st() == list_value_shape(old(p).tokens(), old(p).st()),
        old(p).completes(*final(p)),
        final(p).pos() > old(p).pos(),
        value_end(old(p).tokens(), old(p).pos() as int) matches Some(j) ==> final(p).pos() == j
            && final(p).errors() == old(p).errors(),
        opens_node(*old(p), *final(p), SyntaxKind::LIST_VALUE),
        final(p).errors().len() == old(p).errors().len() ==> value_end(
            old(p).tokens(),
            old(p).pos() as int,
        ) == Some(final(p).pos() as int),
    decreases old(p).tokens().len() - old(p).pos(), 0nat,
{
    let ghost s0 = *p;
    p.start_node(SyntaxKind::LIST_VALUE);
    let ghost s1 = *p;
    p.bump(SyntaxKind::L_BRACK);
    let ghost a0 = p.st();
    loop
        invariant
            a0 == b_bump(b_open(old(p).st(), SyntaxKind::LIST_VALUE), SyntaxKind::L_BRACK),
            list_items_shape(old(p).tokens(), p.st()) == list_items_shape(old(p).tokens(), a0),
            p.errors().len() >= old(p).errors().len(),
            p.errors().len() == old(p).errors().len() ==> list_items_end(p.tokens(), p.pos() as int)
                == list_items_end(old(p).tokens(), old(p).pos() + 1int),
            p.wf(),
            value_end(old(p).tokens(), old(p).pos() as int) is Some ==> p.errors() == old(
                p,
            ).errors() && list_items_end(p.tokens(), p.pos() as int) == list_items_end(
                old(p).tokens(),
                old(p).pos() + 1int,
            ),
            kind_at(old(p).tokens(), old(p).pos() as int) == Some(TokenKind::LBracket),
            s1.completes(*p),
            p.pos() > s1.pos(),
            s1.pos() == old(p).pos(),
            p.tokens() == old(p).tokens(),
        ensures
            list_items_shape(old(p).tokens(), p.st()) == p.st(),
            list_items_end(p.tokens(), p.pos() as int) == Some(
                p.pos() as int,
            ),
        decreases p.tokens().len() - p.pos(),
    {
        let ghost t0 = p.st();
        let ghost t = *p;
        proof {
            if value_end(old(p).tokens(), old(p).pos() as int) is Some {
                assert(list_items_end(p.tokens(), old(p).pos() + 1int) is Some);
                assert(list_items_end(t.tokens(), t.pos() as int) is Some);
            }
        }
        let k = p.peek();
        if is_value_start(k) {
            value(p);
        } else if k == Some(TokenKind::Comma) {
            p.bump(SyntaxKind::COMMA);
        } else {
            break;
        }
        proof {
            if p.errors().len() == old(p).errors().len() {
                assert(t.errors().len() == old(p).errors().len());
                assert(list_items_end(t.tokens(), t.pos() as int) == list_items_end(p.tokens(), p.pos() as int));
            }
            lemma_completes_trans(s1, t, *p);
            assert(list_items_shape(old(p).tokens(), t0) == list_items_shape(old(p).tokens(), p.st()));
        }
    }
    let ghost t = *p;
    if p.peek() == Some(TokenKind::RBracket) {
        p.bump(SyntaxKind::R_BRACK);
    } else {
        p.push_err("Expected List Value to have a closing ], got ", None);
    }
    proof {
        lemma_completes_trans(s1, t, *p);
    }
    let ghost s2 = *p;
    p.finish_node();
    proof {
        lemma_wrap(s0, s1, s2, *p);
    }
}

/// `ObjectValue`: `{` ObjectField(list) `}`.
pub fn object_value(p: &mut Parser)
    requires
        old(p).wf(),
        old(p).next_kind() == Some(TokenKind::LCurly),
    ensures
        final(p).st() == object_value_shape(old(p).tokens(), old(p).st()),
        old(p).completes(*final(p)),
        final(p).pos() > old(p).pos(),
        value_end(old(p).tokens(), old(p).pos() as int) matches Some(j) ==> final(p).pos() == j
            && final(p).errors() == old(p).errors(),
        opens_node(*old(p), *final(p), SyntaxKind::OBJECT_VALUE),
        final(p).errors().len() == old(p).errors().len() ==> value_end(
            old(p).tokens(),
            old(p).pos() as int,
        ) == Some(final(p).pos() as int),
    decreases old(p).tokens().len() - old(p).pos(), 0nat,
{
    let ghost s0 = *p;
    p.start_node(SyntaxKind::OBJECT_VALUE);
    let ghost s1 = *p;
    p.bump(SyntaxKind::L_CURLY);
    let ghost a0 = p.st();
    loop
        invariant
            a0 == b_bump(b_open(old(p).st(), SyntaxKind::OBJECT_VALUE), SyntaxKind::L_CURLY),
            object_fields_shape(old(p).tokens(), p.st()) == object_fields_shape(old(p).tokens(), a0),
            p.errors().len() >= old(p).errors().len(),
            p.errors().len() == old(p).errors().len() ==> object_fields_end(p.tokens(), p.pos() as int)
                == object_fields_end(old(p).tokens(), old(p).pos() + 1int),
            p.wf(),
            value_end(old(p).tokens(), old(p).pos() as int) is Some ==> p.errors() == old(
                p,
            ).errors() && object_fields_end(p.tokens(), p.pos() as int) == object_fields_end(
                old(p).tokens(),
                old(p).pos() + 1int,
            ),
            kind_at(old(p).tokens(), old(p).pos() as int) == Some(TokenKind::LCurly),
            s1.completes(*p),
            p.pos() > s1.pos(),
            s1.pos() == old(p).pos(),
            p.tokens() == old(p).tokens(),
        ensures
            object_fields_shape(old(p).tokens(), p.st()) == p.st(),
            object_fields_end(p.tokens(), p.pos() as int) == Some(
                p.pos() as int,
            ),
        decreases p.tokens().len() - p.pos(),
    {
        let ghost t0 = p.st();
        let ghost t = *p;
        proof {
            if value_end(old(p).tokens(), old(p).pos() as int) is Some {
                assert(object_fields_end(p.tokens(), old(p).pos() + 1int) is Some);
                assert(object_fields_end(t.tokens(), t.pos() as int) is Some);
            }
        }
        let k = p.peek();
        if k == Some(TokenKind::Name) {
            object_field(p);
        } else if k == Some(TokenKind::Comma) {
            p.bump(SyntaxKind::COMMA);
        } else {
            break;
        }
        proof {
            if p.errors().len() == old(p).errors().len() {
                assert(t.errors().len() == old(p).errors().len());
                assert(object_fields_end(t.tokens(), t.pos() as int) == object_fields_end(p.tokens(), p.pos() as int));
            }
            lemma_completes_trans(s1, t, *p);
            assert(object_fields_shape(old(p).tokens(), t0) == object_fields_shape(old(p).tokens(), p.st()));
        }
    }
    let ghost t = *p;
    if p.peek() == Some(TokenKind::RCurly) {
        p.bump(SyntaxKind::R_CURLY);
    } else {
        p.push_err("Expected Object Value to have a closing }, got ", None);
    }
    proof {
        lemma_completes_trans(s1, t, *p);
    }
    let ghost s2 = *p;
    p.finish_node();
    proof {
        lemma_wrap(s0, s1, s2, *p);
    }
}

/// `ObjectField`: Name `:` Value.
pub fn object_field(p: &mut Parser)
    requires
        old(p).wf(),
        old(p).next_kind() == Some(TokenKind::Name),
    ensures
        final(p).st() == object_field_shape(old(p).tokens(), old(p).st()),
        old(p).completes(*final(p)),
        final(p).pos() > old(p).pos(),
        kind_at(old(p).tokens(), old(p).pos() + 1int) == Some(TokenKind::Colon) ==> (value_end(
            old(p).tokens(),
            old(p).pos() + 2int,
        ) matches Some(j) ==> final(p).pos() == j && final(p).errors() == old(p).errors()),
        opens_node(*old(p), *final(p), SyntaxKind::OBJECT_FIELD),
        final(p).errors().len() == old(p).errors().len() ==> kind_at(
            old(p).tokens(),
            old(p).pos() + 1int,
        ) == Some(TokenKind::Colon) && value_end(old(p).tokens(), old(p).pos() + 2int) == Some(
            final(p).pos() as int,
        ),
    decreases old(p).tokens().len() - old(p).pos(), 0nat,
{
    let ghost s0 = *p;
    p.start_node(SyntaxKind::OBJECT_FIELD);
    let ghost s1 = *p;
    name(p);
    let ghost t = *p;
    if p.peek() == Some(TokenKind::Colon) {
        p.bump(SyntaxKind::COLON);
        let ghost u = *p;
        if is_value_start(p.peek()) {
            value(p);
        } else {
            p.push_err("Expected Object Field to have a Value, got ", None);
        }
        proof {
            lemma_completes_trans(t, u, *p);
        }
    } else {
        p.push_err("Expected Object Field to have a Colon, got ", None);
    }
    proof {
        lemma_completes_trans(s1, t, *p);
    }
    let ghost s2 = *p;
    p.finish_node();
    proof {
        lemma_wrap(s0, s1, s2, *p);
    }
}

/// Where the bare type (no trailing `!`) that starts at token `i` ends,
/// if a well-formed one starts there. Reads ahead only; consumes nothing.
fn bare_type_ahead(p: &Parser, i: usize) -> (r: Option<usize>)
    requires
        p.wf(),
    ensures
        r matches Some(j) ==> bare_type_end(p.tokens(), i as int) == Some(j as int),
        r is None ==> bare_type_end(p.tokens(), i as int) is None,
    decreases p.tokens().len() - i, 0nat,
{
    let k = p.kind_at_index(i);
    if k == Some(TokenKind::Name) {
        Some(i + 1)
    } else if k == Some(TokenKind::LBracket) {
        match type_ahead(p, i + 1) {
            Some(j) => if p.kind_at_index(j) == Some(TokenKind::RBracket) {
                Some(j + 1)
            } else {
                None
            },
            None => None,
        }
    } else {
        None
    }
}

/// Where the type that starts at token `i` ends, with its trailing `!`,
/// if a well-formed one starts there. Reads ahead only; consumes nothing.
fn type_ahead(p: &Parser, i: usize) -> (r: Option<usize>)
    requires
        p.wf(),
    ensures
        r matches Some(j) ==> type_end(p.tokens(), i as int) == Some(j as int),
        r is None ==> type_end(p.tokens(), i as int) is None,
    decreases p.tokens().len() - i, 1nat,
{
    match bare_type_ahead(p, i) {
        Some(j) => if p.kind_at_index(j) == Some(TokenKind::Bang) {
            Some(j + 1)
        } else {
            Some(j)
        },
        None => None,
    }
}

/// `Type`: a named type or a list type, wrapped in a `NON_NULL_TYPE`
/// when `!` follows it.
pub fn ty(p: &mut Parser)
    requires
        old(p).wf(),
        starts_type(old(p).next_kind()),
    ensures
        final(p).st() == type_shape(old(p).tokens(), old(p).st()),
        old(p).completes(*final(p)),
        final(p).pos() > old(p).pos(),
        type_end(old(p).tokens(), old(p).pos() as int) matches Some(j) ==> final(p).pos() == j
            && final(p).errors() == old(p).errors(),
        opens_node(*old(p), *final(p), SyntaxKind::TYPE),
        final(p).errors().len() == old(p).errors().len() ==> type_end(
            old(p).tokens(),
            old(p).pos() as int,
        ) == Some(final(p).pos() as int),
    decreases old(p).tokens().len() - old(p).pos(), 1nat,
{
    let ghost s0 = *p;
    p.start_node(SyntaxKind::TYPE);
    let ghost s1 = *p;
    let non_null = match bare_type_ahead(p, p.position()) {
        Some(j) => p.kind_at_index(j) == Some(TokenKind::Bang),
        None => false,
    };
    if non_null {
        let ghost a0 = *p;
        p.start_node(SyntaxKind::NON_NULL_TYPE);
        let ghost a1 = *p;
        let ghost b0 = *p;
        p.start_node(SyntaxKind::TYPE);
        let ghost b1 = *p;
        type_body(p);
        let ghost b2 = *p;
        p.finish_node();
        proof {
            lemma_wrap(b0, b1, b2, *p);
        }
        let ghost t = *p;
        if p.peek() == Some(TokenKind::Bang) {
            p.bump(SyntaxKind::BANG);
        } else {
            proof {
                lemma_completes_refl(*p);
            }
        }
        proof {
            lemma_completes_trans(a1, t, *p);
        }
        let ghost a2 = *p;
        p.finish_node();
        proof {
            lemma_wrap(a0, a1, a2, *p);
        }
    } else {
        type_body(p);
    }
    let ghost s2 = *p;
    p.finish_node();
    proof {
        lemma_wrap(s0, s1, s2, *p);
    }
}

/// The named type or list type itself.
fn type_body(p: &mut Parser)
    requires
        old(p).wf(),
        starts_type(old(p).next_kind()),
    ensures
        final(p).st() == type_body_shape(old(p).tokens(), old(p).st()),
        old(p).completes(*final(p)),
        final(p).pos() > old(p).pos(),
        bare_type_end(old(p).tokens(), old(p).pos() as int) matches Some(j) ==> final(p).pos()
            == j && final(p).errors() == old(p).errors(),
        final(p).errors().len() == old(p).errors().len() ==> bare_type_end(
            old(p).tokens(),
            old(p).pos() as int,
        ) == Some(final(p).pos() as int),
    decreases old(p).tokens().len() - old(p).pos(), 0nat,
{
    let ghost s0 = *p;
    if p.peek() == Some(TokenKind::Name) {
        p.start_node(SyntaxKind::NAMED_TYPE);
        let ghost s1 = *p;
        name(p);
        let ghost s2 = *p;
        p.finish_node();
        proof {
            lemma_wrap(s0, s1, s2, *p);
        }
    } else {
        p.start_node(SyntaxKind::LIST_TYPE);
        let ghost s1 = *p;
        p.bump(SyntaxKind::L_BRACK);
        let ghost t = *p;
        proof {
            if bare_type_end(s0.tokens(), s0.pos() as int) is Some {
                assert(type_end(t.tokens(), t.pos() as int) is Some);
                assert(bare_type_end(t.tokens(), t.pos() as int) is Some);
            }
        }
        if is_type_start(p.peek()) {
            ty(p);
        } else {
            p.push_err("Expected List Type to have a Type, got ", None);
        }
        let ghost u = *p;
        if p.peek() == Some(TokenKind::RBracket) {
            p.bump(SyntaxKind::R_BRACK);
        } else {
            p.push_err("Expected List Type to have a closing ], got ", None);
        }
        proof {
            lemma_completes_trans(t, u, *p);
            lemma_completes_trans(s1, t, *p);
        }
        let ghost s2 = *p;
        p.finish_node();
        proof {
            lemma_wrap(s0, s1, s2, *p);
        }
    }
}

/// `DefaultValue`: `=` Value.
pub fn default_value(p: &mut Parser)
    requires
        old(p).wf(),
        old(p).next_kind() == Some(TokenKind::Eq),
    ensures
        final(p).st() == default_value_shape(old(p).tokens(), old(p).st()),
        old(p).completes(*final(p)),
        final(p).pos() > old(p).pos(),
        default_value_end(old(p).tokens(), old(p).pos() as int) matches Some(j) ==> final(p).pos() == j
            && final(p).errors() == old(p).errors(),
        opens_node(*old(p), *final(p), SyntaxKind::DEFAULT_VALUE),
        final(p).errors().len() == old(p).errors().len() ==> default_value_end(
            old(p).tokens(),
            old(p).pos() as int,
        ) == Some(final(p).pos() as int),
{
    let ghost s0 = *p;
    p.start_node(SyntaxKind::DEFAULT_VALUE);
    let ghost s1 = *p;
    p.bump(SyntaxKind::EQ);
    let ghost t = *p;
    if is_value_start(p.peek()) {
        value(p);
    } else {
        p.push_err("Expected Default Value to have a Value, got ", None);
    }
    proof {
        lemma_completes_trans(s1, t, *p);
    }
    let ghost s2 = *p;
    p.finish_node();
    proof {
        lemma_wrap(s0, s1, s2, *p);
    }
}

} // verus!
