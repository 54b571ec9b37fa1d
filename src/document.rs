use vstd::prelude::*;
use crate::grammar::leaf_kind;
use crate::language::{definitions_from, is_valid_document, is_word, kind_at};
use crate::input::{input_object_type_definition, input_object_type_extension};
use crate::shape::{definition_shape, document_items_shape, document_shape, extension_shape};
use crate::parser::{
    b_open, error_view, Build, ErrorView, ParseError, lemma_completes_refl, lemma_completes_trans, lemma_wrap, opens_node, placeholder_ok,
    ParseResult, Parser, SyntaxTree,
};
use crate::syntax::{
    covers, depth, depth_at, is_document_tree, leaf_indices, Event, SyntaxKind, Token, TokenKind,
};

verus! {

/// What every parse result satisfies: the tree is one `DOCUMENT` tree whose
/// leaves are the input tokens, each once and in order, and every
/// placeholder an error names is a node without children.
pub open spec fn result_ok(r: ParseResult, tokens: Seq<Token>) -> bool {
    &&& r.tree.tokens@ == tokens
    &&& is_document_tree(r.tree.events@)
    &&& covers(r.tree.events@, tokens.len())
    &&& forall|j: int|
        0 <= j < r.errors@.len() ==> #[trigger] placeholder_ok(r.errors@[j], r.tree.events@)
}

/// The kinds of node a document holds at its top level.
pub open spec fn is_top_level(e: Event) -> bool {
    e == Event::Open(SyntaxKind::INPUT_OBJECT_TYPE_DEFINITION) || e == Event::Open(
        SyntaxKind::INPUT_OBJECT_TYPE_EXTENSION,
    ) || e == Event::Open(SyntaxKind::ERROR)
}

/// Every node directly under the root of `ev` is a definition, an
/// extension or an `ERROR` node.
pub open spec fn top_level_ok(ev: Seq<Event>) -> bool {
    forall|k: int|
        1 <= k < ev.len() && #[trigger] depth_at(ev, k) == 1 && ev[k] is Open ==> is_top_level(
            ev[k],
        )
}

/// Parses a whole token stream into a `DOCUMENT` tree. Never fails: tokens
/// that start no known definition are wrapped in `ERROR` nodes, each with
/// an error, and parsing goes on after them.
pub fn parse(tokens: Vec<Token>) -> (r: ParseResult)
    ensures
        result_ok(r, tokens@),
        is_valid_document(tokens@) <==> r.errors@.len() == 0,
        top_level_ok(r.tree.events@),
        r.tree.events@ == document_shape(tokens@).events,
        r.errors@.map_values(|e: ParseError| error_view(e)) == document_shape(tokens@).errors,
{
    let mut p = Parser::new(tokens);
    let ghost s0 = p;
    p.start_node(SyntaxKind::DOCUMENT);
    let ghost s1 = p;
    proof {
        lemma_completes_refl(s1);
        assert(s0.st().errors =~= Seq::<ErrorView>::empty());
        assert(s0.st().events =~= Seq::<Event>::empty());
        assert(s0.st() == Build { pos: 0, events: Seq::empty(), errors: Seq::empty() });
        assert(s1.st() == b_open(
            Build { pos: 0, events: Seq::empty(), errors: Seq::empty() },
            SyntaxKind::DOCUMENT,
        ));
    }
    while p.peek().is_some()
        invariant
            p.wf(),
            s1.completes(p),
            p.tokens() == tokens@,
            top_level_ok(p.events()),
            p.events().len() >= 1,
            depth(s1.events()) == 1,
            document_items_shape(tokens@, p.st()) == document_items_shape(tokens@, s1.st()),
            is_valid_document(tokens@) ==> definitions_from(p.tokens(), p.pos() as int)
                && p.errors().len() == 0,
            p.errors().len() == 0 ==> (is_valid_document(tokens@) <==> definitions_from(
                p.tokens(),
                p.pos() as int,
            )),
        decreases p.tokens().len() - p.pos(),
    {
        let ghost t = p;
        let ghost t0 = p.st();
        if p.at_word("input") {
            input_object_type_definition(&mut p);
        } else if p.at_word("extend") && p.nth_is_word(1, "input") {
            input_object_type_extension(&mut p);
        } else {
            let k = p.peek().unwrap();
            let ghost a0 = p;
            p.start_node(SyntaxKind::ERROR);
            let ghost a1 = p;
            p.push_err("Expected Document to have a Definition, got ", None);
            let ghost a2 = p;
            p.bump(leaf_kind(k));
            proof {
                lemma_completes_trans(a1, a2, p);
            }
            let ghost a3 = p;
            p.finish_node();
            proof {
                lemma_wrap(a0, a1, a3, p);
                assert(opens_node(a0, p, SyntaxKind::ERROR));
            }
        }
        proof {
            lemma_completes_trans(s1, t, p);
            assert(depth(t.events()) == 1);
            assert forall|k: int|
                1 <= k < p.events().len() && #[trigger] depth_at(p.events(), k) == 1
                    && p.events()[k] is Open implies is_top_level(p.events()[k]) by {
                if k < t.events().len() {
                    assert(p.events()[k] == p.events().subrange(0, t.events().len() as int)[k]);
                    assert(depth_at(p.events(), k) == depth_at(t.events(), k));
                }
            }
            assert(document_items_shape(tokens@, t0) == document_items_shape(tokens@, p.st()));
            if p.errors().len() == 0 {
                assert(t.errors().len() == 0);
                assert(definitions_from(t.tokens(), t.pos() as int) == definitions_from(
                    p.tokens(),
                    p.pos() as int,
                ));
            }
        }
    }
    let ghost s2 = p;
    assert(document_items_shape(tokens@, p.st()) == p.st());
    p.finish_node();
    proof {
        lemma_wrap(s0, s1, s2, p);
        assert(p.events()[0] == p.events().subrange(0, 1)[0]);
        assert forall|k: int|
            1 <= k < p.events().len() && #[trigger] depth_at(p.events(), k) == 1
                && p.events()[k] is Open implies is_top_level(p.events()[k]) by {
            if k < s2.events().len() {
                assert(depth_at(p.events(), k) == depth_at(s2.events(), k));
            }
        }
        assert forall|k: int| 1 <= k < p.events().len() implies #[trigger] depth_at(
            p.events(),
            k,
        ) >= 1 by {
            assert(depth_at(p.events(), k) == depth_at(s2.events(), k));
        }
    }
    p.finish()
}

/// The tokens at the leaves of `t`, in tree order.
pub open spec fn leaf_tokens(t: SyntaxTree) -> Seq<Token> {
    leaf_indices(t.events@).map_values(|i: usize| t.tokens@[i as int])
}

/// The texts of `ts`, one after another.
pub open spec fn joined_text(ts: Seq<Token>) -> Seq<char>
    decreases ts.len(),
{
    if ts.len() == 0 {
        Seq::empty()
    } else {
        joined_text(ts.drop_last()) + ts.last().text@
    }
}

/// A parse loses nothing: the leaves of the tree, in order, are the input
/// tokens, so the texts of the leaves joined are the input's texts joined.
pub proof fn lemma_parse_lossless(r: ParseResult, tokens: Seq<Token>)
    requires
        result_ok(r, tokens),
    ensures
        leaf_tokens(r.tree) == tokens,
        joined_text(leaf_tokens(r.tree)) == joined_text(tokens),
{
    assert(leaf_tokens(r.tree) =~= tokens);
}

/// Parsing the leaf tokens of a parsed tree again gives the same tree:
/// the same events, hence the same node kinds, nesting and leaves.
pub proof fn lemma_reparse_same_tree(r: ParseResult, tokens: Seq<Token>, again: ParseResult)
    requires
        result_ok(r, tokens),
        r.tree.events@ == document_shape(tokens).events,
        result_ok(again, leaf_tokens(r.tree)),
        again.tree.events@ == document_shape(leaf_tokens(r.tree)).events,
    ensures
        again.tree.tokens@ == r.tree.tokens@,
        again.tree.events@ == r.tree.events@,
{
    lemma_parse_lossless(r, tokens);
}

/// `extend input Foo` is an extension holding its two keywords and its
/// name, with exactly one error: neither directives nor fields follow.
pub proof fn lemma_bare_extension(t: Seq<Token>)
    requires
        t.len() == 3,
        is_word(t, 0, "extend"@),
        is_word(t, 1, "input"@),
        kind_at(t, 2) == Some(TokenKind::Name),
    ensures
        document_shape(t).events == seq![
            Event::Open(SyntaxKind::DOCUMENT),
            Event::Open(SyntaxKind::INPUT_OBJECT_TYPE_EXTENSION),
            Event::Leaf(SyntaxKind::extend_KW, 0),
            Event::Leaf(SyntaxKind::input_KW, 1),
            Event::Open(SyntaxKind::NAME),
            Event::Leaf(SyntaxKind::IDENT, 2),
            Event::Close,
            Event::Close,
            Event::Close,
        ],
        document_shape(t).errors == seq![
            ErrorView {
                message: "Expected Input Object Type Extension to have Directives or Input Fields Definition, got "@
                    + "no further data"@,
                index: 3,
                placeholder: None,
            },
        ],
{
    reveal_strlit("extend");
    reveal_strlit("input");
    let s0 = b_open(Build { pos: 0, events: Seq::empty(), errors: Seq::empty() }, SyntaxKind::DOCUMENT);
    assert("extend"@[0] != "input"@[0]);
    assert(!is_word(t, 0, "input"@));
    let a = extension_shape(t, s0);
    assert(document_items_shape(t, a) == a);
    assert(document_shape(t).events =~= seq![
        Event::Open(SyntaxKind::DOCUMENT),
        Event::Open(SyntaxKind::INPUT_OBJECT_TYPE_EXTENSION),
        Event::Leaf(SyntaxKind::extend_KW, 0),
        Event::Leaf(SyntaxKind::input_KW, 1),
        Event::Open(SyntaxKind::NAME),
        Event::Leaf(SyntaxKind::IDENT, 2),
        Event::Close,
        Event::Close,
        Event::Close,
    ]);
    assert(document_shape(t).errors =~= seq![
        ErrorView {
            message: "Expected Input Object Type Extension to have Directives or Input Fields Definition, got "@
                + "no further data"@,
            index: 3,
            placeholder: None,
        },
    ]);
}

/// `input Foo {}` is a definition whose fields definition holds only the
/// two braces, with exactly one error, at the `}`: the list is empty.
pub proof fn lemma_empty_fields(t: Seq<Token>)
    requires
        t.len() == 4,
        is_word(t, 0, "input"@),
        kind_at(t, 1) == Some(TokenKind::Name),
        kind_at(t, 2) == Some(TokenKind::LCurly),
        kind_at(t, 3) == Some(TokenKind::RCurly),
    ensures
        document_shape(t).events == seq![
            Event::Open(SyntaxKind::DOCUMENT),
            Event::Open(SyntaxKind::INPUT_OBJECT_TYPE_DEFINITION),
            Event::Leaf(SyntaxKind::input_KW, 0),
            Event::Open(SyntaxKind::NAME),
            Event::Leaf(SyntaxKind::IDENT, 1),
            Event::Close,
            Event::Open(SyntaxKind::INPUT_FIELDS_DEFINITION),
            Event::Leaf(SyntaxKind::L_CURLY, 2),
            Event::Leaf(SyntaxKind::R_CURLY, 3),
            Event::Close,
            Event::Close,
            Event::Close,
        ],
        document_shape(t).errors == seq![
            ErrorView {
                message: "Expected to have an InputValue definition, got "@ + t[3].text@,
                index: 3,
                placeholder: None,
            },
        ],
{
    let s0 = b_open(Build { pos: 0, events: Seq::empty(), errors: Seq::empty() }, SyntaxKind::DOCUMENT);
    let a = definition_shape(t, s0);
    assert(document_items_shape(t, a) == a);
    assert(document_shape(t).events =~= seq![
        Event::Open(SyntaxKind::DOCUMENT),
        Event::Open(SyntaxKind::INPUT_OBJECT_TYPE_DEFINITION),
        Event::Leaf(SyntaxKind::input_KW, 0),
        Event::Open(SyntaxKind::NAME),
        Event::Leaf(SyntaxKind::IDENT, 1),
        Event::Close,
        Event::Open(SyntaxKind::INPUT_FIELDS_DEFINITION),
        Event::Leaf(SyntaxKind::L_CURLY, 2),
        Event::Leaf(SyntaxKind::R_CURLY, 3),
        Event::Close,
        Event::Close,
        Event::Close,
    ]);
    assert(document_shape(t).errors =~= seq![
        ErrorView {
            message: "Expected to have an InputValue definition, got "@ + t[3].text@,
            index: 3,
            placeholder: None,
        },
    ]);
}

/// `extend input` alone is an extension holding its two keywords, with
/// exactly two errors: the missing name, then the missing directives or
/// fields, both at the end of the stream.
pub proof fn lemma_extension_without_name(t: Seq<Token>)
    requires
        t.len() == 2,
        is_word(t, 0, "extend"@),
        is_word(t, 1, "input"@),
    ensures
        document_shape(t).events == seq![
            Event::Open(SyntaxKind::DOCUMENT),
            Event::Open(SyntaxKind::INPUT_OBJECT_TYPE_EXTENSION),
            Event::Leaf(SyntaxKind::extend_KW, 0),
            Event::Leaf(SyntaxKind::input_KW, 1),
            Event::Close,
            Event::Close,
        ],
        document_shape(t).errors == seq![
            ErrorView {
                message: "Expected Input Object Type Definition to have a Name, got "@
                    + "no further data"@,
                index: 2,
                placeholder: None,
            },
            ErrorView {
                message: "Expected Input Object Type Extension to have Directives or Input Fields Definition, got "@
                    + "no further data"@,
                index: 2,
                placeholder: None,
            },
        ],
{
    reveal_strlit("extend");
    reveal_strlit("input");
    let s0 = b_open(Build { pos: 0, events: Seq::empty(), errors: Seq::empty() }, SyntaxKind::DOCUMENT);
    assert("extend"@[0] != "input"@[0]);
    assert(!is_word(t, 0, "input"@));
    let a = extension_shape(t, s0);
    assert(document_items_shape(t, a) == a);
    assert(document_shape(t).events =~= seq![
        Event::Open(SyntaxKind::DOCUMENT),
        Event::Open(SyntaxKind::INPUT_OBJECT_TYPE_EXTENSION),
        Event::Leaf(SyntaxKind::extend_KW, 0),
        Event::Leaf(SyntaxKind::input_KW, 1),
        Event::Close,
        Event::Close,
    ]);
    assert(document_shape(t).errors =~= seq![
        ErrorView {
            message: "Expected Input Object Type Definition to have a Name, got "@
                + "no further data"@,
            index: 2,
            placeholder: None,
        },
        ErrorView {
            message: "Expected Input Object Type Extension to have Directives or Input Fields Definition, got "@
                + "no further data"@,
            index: 2,
            placeholder: None,
        },
    ]);
}

} // verus!
