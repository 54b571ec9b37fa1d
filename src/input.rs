use vstd::prelude::*;
use crate::grammar::{default_value, directives, is_type_start, name, starts_type, ty};
use crate::parser::{
    error_is, lemma_completes_refl, lemma_completes_trans, lemma_wrap, opens_node, Parser,
};
use crate::language::{
    definition_end, extension_end, fields_definition_end, input_value_end, input_values_end, is_word,
    kind_at,
};
use crate::shape::{
    definition_shape, extension_shape, fields_shape, input_value_shape, input_values_shape,
};
use crate::syntax::{depth, depth_at, Event, SyntaxKind, TokenKind};

verus! {

/// `InputObjectTypeDefinition`:
/// `input` Name Directives(opt) InputFieldsDefinition(opt).
///
/// A missing name is recorded and the rest of the definition is still read.
#[verifier::rlimit(60)]
pub fn input_object_type_definition(p: &mut Parser)
    requires
        old(p).wf(),
        is_word(old(p).tokens(), old(p).pos() as int, "input"@),
    ensures
        final(p).st() == definition_shape(old(p).tokens(), old(p).st()),
        old(p).completes(*final(p)),
        final(p).pos() > old(p).pos(),
        definition_end(old(p).tokens(), old(p).pos() as int) matches Some(j) ==> final(p).pos() == j
            && final(p).errors() == old(p).errors(),
        opens_node(*old(p), *final(p), SyntaxKind::INPUT_OBJECT_TYPE_DEFINITION),
        final(p).events()[old(p).events().len() + 1int] == Event::Leaf(
            SyntaxKind::input_KW,
            old(p).pos() as usize,
        ),
        kind_at(old(p).tokens(), old(p).pos() + 1int) != Some(TokenKind::Name) ==> final(p).errors().len() > old(p).errors().len() && error_is(
            final(p).errors()[old(p).errors().len() as int],
            old(p).tokens(),
            "Expected Input Object Type Definition to have a Name, got "@,
            old(p).pos() + 1int,
        ),
        final(p).errors().len() == old(p).errors().len() ==> definition_end(
            old(p).tokens(),
            old(p).pos() as int,
        ) == Some(final(p).pos() as int),
{
    let ghost s0 = *p;
    p.start_node(SyntaxKind::INPUT_OBJECT_TYPE_DEFINITION);
    let ghost s1 = *p;
    p.bump(SyntaxKind::input_KW);
    let ghost t = *p;
    if p.peek() == Some(TokenKind::Name) {
        name(p);
    } else {
        p.push_err("Expected Input Object Type Definition to have a Name, got ", None);
    }
    proof {
        lemma_completes_trans(s1, t, *p);
    }
    let ghost t = *p;
    if p.peek() == Some(TokenKind::At) {
        directives(p);
    } else {
        proof {
            lemma_completes_refl(*p);
        }
    }
    proof {
        lemma_completes_trans(s1, t, *p);
    }
    let ghost t = *p;
    if p.peek() == Some(TokenKind::LCurly) {
        input_fields_definition(p);
    } else {
        proof {
            lemma_completes_refl(*p);
        }
    }
    proof {
        lemma_completes_trans(s1, t, *p);
    }
    let ghost s2 = *p;
    p.finish_node();
    proof {
        lemma_wrap(s0, s1, s2, *p);
    }
}

/// `InputObjectTypeExtension`:
/// `extend input` Name Directives(opt) InputFieldsDefinition, or
/// `extend input` Name Directives.
///
/// When neither directives nor a fields definition follow the name, one
/// error says so.
#[verifier::rlimit(60)]
pub fn input_object_type_extension(p: &mut Parser)
    requires
        old(p).wf(),
        is_word(old(p).tokens(), old(p).pos() as int, "extend"@),
        is_word(old(p).tokens(), old(p).pos() + 1int, "input"@),
    ensures
        final(p).st() == extension_shape(old(p).tokens(), old(p).st()),
        old(p).completes(*final(p)),
        final(p).pos() > old(p).pos(),
        extension_end(old(p).tokens(), old(p).pos() as int) matches Some(j) ==> final(p).pos() == j
            && final(p).errors() == old(p).errors(),
        final(p).pos() >= old(p).pos() + 2,
        opens_node(*old(p), *final(p), SyntaxKind::INPUT_OBJECT_TYPE_EXTENSION),
        final(p).events()[old(p).events().len() + 1int] == Event::Leaf(
            SyntaxKind::extend_KW,
            old(p).pos() as usize,
        ),
        final(p).events()[old(p).events().len() + 2int] == Event::Leaf(
            SyntaxKind::input_KW,
            (old(p).pos() + 1) as usize,
        ),
        kind_at(old(p).tokens(), old(p).pos() + 2int) != Some(TokenKind::Name) ==> final(p).errors().len() > old(p).errors().len() && error_is(
            final(p).errors()[old(p).errors().len() as int],
            old(p).tokens(),
            "Expected Input Object Type Definition to have a Name, got "@,
            old(p).pos() + 2int,
        ),
        ({
            let m = if kind_at(old(p).tokens(), old(p).pos() + 2int) == Some(TokenKind::Name) {
                old(p).pos() + 3int
            } else {
                old(p).pos() + 2int
            };
            kind_at(old(p).tokens(), m) != Some(TokenKind::At) && kind_at(old(p).tokens(), m) != Some(
                TokenKind::LCurly,
            ) ==> final(p).pos() == m && final(p).errors().len() > 0 && error_is(
                final(p).errors().last(),
                old(p).tokens(),
                "Expected Input Object Type Extension to have Directives or Input Fields Definition, got "@,
                m,
            )
        }),
        final(p).errors().len() == old(p).errors().len() ==> extension_end(
            old(p).tokens(),
            old(p).pos() as int,
        ) == Some(final(p).pos() as int),
{
    let ghost s0 = *p;
    p.start_node(SyntaxKind::INPUT_OBJECT_TYPE_EXTENSION);
    let ghost s1 = *p;
    p.bump(SyntaxKind::extend_KW);
    let ghost t = *p;
    p.bump(SyntaxKind::input_KW);
    proof {
        lemma_completes_trans(s1, t, *p);
    }
    let mut meets_requirements = false;
    let ghost t = *p;
    if p.peek() == Some(TokenKind::Name) {
        name(p);
    } else {
        p.push_err("Expected Input Object Type Definition to have a Name, got ", None);
    }
    proof {
        lemma_completes_trans(s1, t, *p);
    }
    let ghost t = *p;
    if p.peek() == Some(TokenKind::At) {
        meets_requirements = true;
        directives(p);
    } else {
        proof {
            lemma_completes_refl(*p);
        }
    }
    proof {
        lemma_completes_trans(s1, t, *p);
    }
    let ghost t = *p;
    if p.peek() == Some(TokenKind::LCurly) {
        meets_requirements = true;
        input_fields_definition(p);
    } else {
        proof {
            lemma_completes_refl(*p);
        }
    }
    proof {
        lemma_completes_trans(s1, t, *p);
    }
    if !meets_requirements {
        let ghost t = *p;
        p.push_err(
            "Expected Input Object Type Extension to have Directives or Input Fields Definition, got ",
            None,
        );
        proof {
            lemma_completes_trans(s1, t, *p);
        }
    }
    let ghost s2 = *p;
    p.finish_node();
    proof {
        lemma_wrap(s0, s1, s2, *p);
    }
}

/// `InputFieldsDefinition`: `{` InputValueDefinition(list) `}`.
pub fn input_fields_definition(p: &mut Parser)
    requires
        old(p).wf(),
        old(p).next_kind() == Some(TokenKind::LCurly),
    ensures
        final(p).st() == fields_shape(old(p).tokens(), old(p).st()),
        old(p).completes(*final(p)),
        final(p).pos() > old(p).pos(),
        fields_definition_end(old(p).tokens(), old(p).pos() as int) matches Some(j) ==> final(p).pos() == j
            && final(p).errors() == old(p).errors(),
        opens_node(*old(p), *final(p), SyntaxKind::INPUT_FIELDS_DEFINITION),
        final(p).events()[old(p).events().len() + 1int] == Event::Leaf(
            SyntaxKind::L_CURLY,
            old(p).pos() as usize,
        ),
        final(p).events()[final(p).events().len() - 2] != Event::Leaf(
            SyntaxKind::R_CURLY,
            (final(p).pos() - 1) as usize,
        ) ==> final(p).errors().len() > 0 && error_is(
            final(p).errors().last(),
            final(p).tokens(),
            "Expected Fields Definition to have a closing }, got "@,
            final(p).pos() as int,
        ),
        final(p).errors().len() == old(p).errors().len() ==> fields_definition_end(
            old(p).tokens(),
            old(p).pos() as int,
        ) == Some(final(p).pos() as int),
{
    let ghost s0 = *p;
    p.start_node(SyntaxKind::INPUT_FIELDS_DEFINITION);
    let ghost s1 = *p;
    p.bump(SyntaxKind::L_CURLY);
    let ghost t = *p;
    let _ = input_value_definitions(p);
    proof {
        lemma_completes_trans(s1, t, *p);
    }
    let ghost t = *p;
    if p.peek() == Some(TokenKind::RCurly) {
        p.bump(SyntaxKind::R_CURLY);
    } else {
        p.push_err("Expected Fields Definition to have a closing }, got ", None);
    }
    proof {
        lemma_completes_trans(s1, t, *p);
    }
    let ghost s2 = *p;
    p.finish_node();
    proof {
        lemma_wrap(s0, s1, s2, *p);
    }
}

/// From index `from` on, everything at depth `d` of `ev` is the start of an
/// input value definition or a comma.
pub open spec fn fields_and_commas(ev: Seq<Event>, from: int, d: int) -> bool {
    forall|k: int|
        from <= k < ev.len() && #[trigger] depth_at(ev, k) == d ==> ev[k] == Event::Open(
            SyntaxKind::INPUT_VALUE_DEFINITION,
        ) || (ev[k] is Leaf && ev[k]->Leaf_0 == SyntaxKind::COMMA)
}

/// Adding one input value definition node, or a comma, at depth `d` keeps
/// the list made of fields and commas.
pub proof fn lemma_fields_step(t: Parser, p: Parser, from: int, d: int)
    requires
        0 <= from <= t.events().len(),
        fields_and_commas(t.events(), from, d),
        depth(t.events()) == d,
        t.completes(p),
        opens_node(t, p, SyntaxKind::INPUT_VALUE_DEFINITION) || (p.events().len() == t.events().len()
            + 1 && p.events().last() is Leaf && p.events().last()->Leaf_0 == SyntaxKind::COMMA),
    ensures
        fields_and_commas(p.events(), from, d),
{
    assert forall|k: int| from <= k < p.events().len() && #[trigger] depth_at(p.events(), k) == d implies p.events()[k]
        == Event::Open(SyntaxKind::INPUT_VALUE_DEFINITION) || (p.events()[k] is Leaf
        && p.events()[k]->Leaf_0 == SyntaxKind::COMMA) by {
        if k < t.events().len() {
            assert(p.events()[k] == p.events().subrange(0, t.events().len() as int)[k]);
            assert(depth_at(p.events(), k) == depth_at(t.events(), k));
        }
    }
}

/// The list of input value definitions inside a fields definition. Each
/// definition may be followed by commas. A list in which no definition was
/// read in full gets one error, at the token where the list stops.
pub fn input_value_definitions(p: &mut Parser) -> (seen: bool)
    requires
        old(p).wf(),
    ensures
        input_values_shape(old(p).tokens(), old(p).st(), false) == (final(p).st(), seen),
        fields_and_commas(final(p).events(), old(p).events().len() as int, depth(old(p).events())),
        old(p).completes(*final(p)),
        input_values_end(old(p).tokens(), old(p).pos() as int, false) matches Some(j) ==> final(p).pos() == j
            && final(p).errors() == old(p).errors(),
        final(p).next_kind() != Some(TokenKind::Comma),
        !seen ==> final(p).errors().len() > old(p).errors().len() && error_is(
            final(p).errors().last(),
            final(p).tokens(),
            "Expected to have an InputValue definition, got "@,
            final(p).pos() as int,
        ),
        final(p).errors().len() == old(p).errors().len() ==> input_values_end(
            old(p).tokens(),
            old(p).pos() as int,
            false,
        ) == Some(final(p).pos() as int),
{
    let ghost s1 = *p;
    proof {
        lemma_completes_refl(s1);
    }
    let mut is_input = false;
    loop
        invariant_except_break
            input_values_shape(old(p).tokens(), p.st(), is_input) == input_values_shape(
                old(p).tokens(),
                old(p).st(),
                false,
            ),
        invariant
            fields_and_commas(p.events(), old(p).events().len() as int, depth(old(p).events())),
            p.events().len() >= old(p).events().len(),
            depth(p.events()) == depth(old(p).events()),
            forall|k: int| k <= old(p).events().len() ==> #[trigger] depth_at(p.events(), k) == depth_at(old(p).events(), k),
            p.wf(),
            s1.completes(*p),
            p.tokens() == old(p).tokens(),
            input_values_end(old(p).tokens(), old(p).pos() as int, false) matches Some(e) ==> p.errors()
                == old(p).errors() && input_values_end(p.tokens(), p.pos() as int, is_input) == Some(e),
            p.errors().len() >= old(p).errors().len(),
            p.errors().len() == old(p).errors().len() ==> input_values_end(
                old(p).tokens(),
                old(p).pos() as int,
                false,
            ) == input_values_end(p.tokens(), p.pos() as int, is_input),
        ensures
            input_values_shape(old(p).tokens(), old(p).st(), false) == (p.st(), is_input),
            input_values_end(old(p).tokens(), old(p).pos() as int, false) matches Some(e) ==> p.errors()
                == old(p).errors() && p.pos() == e,
            p.next_kind() != Some(TokenKind::Comma),
            p.errors().len() == old(p).errors().len() ==> input_values_end(
                old(p).tokens(),
                old(p).pos() as int,
                false,
            ) == Some(p.pos() as int),
            !is_input ==> p.errors().len() > old(p).errors().len() && error_is(
                p.errors().last(),
                p.tokens(),
                "Expected to have an InputValue definition, got "@,
                p.pos() as int,
            ),
        decreases p.tokens().len() - p.pos(),
    {
        let ghost t0 = p.st();
        let ghost seen0 = is_input;
        let ghost t = *p;
        if p.peek() == Some(TokenKind::Name) {
            let ghost before = is_input;
            let complete = input_value_definition(p);
            proof {
                lemma_completes_trans(s1, t, *p);
                lemma_fields_step(t, *p, old(p).events().len() as int, depth(old(p).events()));
                if p.errors().len() == old(p).errors().len() {
                    assert(t.errors().len() == old(p).errors().len());
                    assert(input_values_end(t.tokens(), t.pos() as int, before) == input_values_end(
                        p.tokens(),
                        p.pos() as int,
                        true,
                    ));
                }
            }
            if complete {
                is_input = true;
                if p.peek().is_some() {
                    assert(input_values_shape(old(p).tokens(), t0, seen0) == input_values_shape(
                        old(p).tokens(),
                        p.st(),
                        true,
                    ));
                    continue;
                }
            }
        }
        let ghost t = *p;
        if p.peek() == Some(TokenKind::Comma) {
            p.bump(SyntaxKind::COMMA);
            proof {
                lemma_completes_trans(s1, t, *p);
                lemma_fields_step(t, *p, old(p).events().len() as int, depth(old(p).events()));
                assert(input_values_shape(old(p).tokens(), t0, seen0) == input_values_shape(
                    old(p).tokens(),
                    p.st(),
                    is_input,
                ));
            }
            continue;
        }
        if !is_input {
            p.push_err("Expected to have an InputValue definition, got ", None);
            proof {
                lemma_completes_trans(s1, t, *p);
            }
        }
        assert(input_values_shape(old(p).tokens(), t0, seen0) == (p.st(), is_input));
        break;
    }
    is_input
}

/// `InputValueDefinition`: Name `:` Type DefaultValue(opt) Directives(opt).
///
/// Returns whether the name, the colon and the type were all present. A
/// missing type leaves an empty `TYPE` node in its place, which the error
/// names.
pub fn input_value_definition(p: &mut Parser) -> (complete: bool)
    requires
        old(p).wf(),
        old(p).next_kind() == Some(TokenKind::Name),
    ensures
        input_value_shape(old(p).tokens(), old(p).st()) == (final(p).st(), complete),
        old(p).completes(*final(p)),
        final(p).pos() > old(p).pos(),
        input_value_end(old(p).tokens(), old(p).pos() as int) matches Some(j) ==> final(p).pos()
            == j && final(p).errors() == old(p).errors() && complete,
        opens_node(*old(p), *final(p), SyntaxKind::INPUT_VALUE_DEFINITION),
        final(p).events()[old(p).events().len() + 1int] == Event::Open(SyntaxKind::NAME),
        kind_at(old(p).tokens(), old(p).pos() + 1int) != Some(TokenKind::Colon) ==> final(p).pos()
            == old(p).pos() + 1 && final(p).errors().len() == old(p).errors().len() + 1 && error_is(
            final(p).errors().last(),
            old(p).tokens(),
            "Expected InputValue definition to have a Name, got "@,
            old(p).pos() + 1int,
        ) && !complete,
        kind_at(old(p).tokens(), old(p).pos() + 1int) == Some(TokenKind::Colon) && !starts_type(
            kind_at(old(p).tokens(), old(p).pos() + 2int),
        ) ==> final(p).pos() == old(p).pos() + 2 && final(p).errors().len() == old(p).errors().len()
            + 1 && error_is(final(p).errors().last(), old(p).tokens(), "Expected InputValue definition to have a Type, got "@, old(p).pos() + 2int)
            && final(p).errors().last().placeholder == Some((old(p).events().len() + 5) as usize)
            && final(p).events()[old(p).events().len() + 5int] == Event::Open(SyntaxKind::TYPE)
            && final(p).events()[old(p).events().len() + 6int] == Event::Close && !complete,
        final(p).errors().len() == old(p).errors().len() ==> input_value_end(
            old(p).tokens(),
            old(p).pos() as int,
        ) == Some(final(p).pos() as int) && complete,
{
    let ghost s0 = *p;
    p.start_node(SyntaxKind::INPUT_VALUE_DEFINITION);
    let ghost s1 = *p;
    name(p);
    let mut complete = false;
    let ghost t = *p;
    if p.peek() == Some(TokenKind::Colon) {
        p.bump(SyntaxKind::COLON);
        let ghost u = *p;
        if is_type_start(p.peek()) {
            ty(p);
            let ghost v = *p;
            if p.peek() == Some(TokenKind::Eq) {
                default_value(p);
            } else {
                proof {
                    lemma_completes_refl(*p);
                }
            }
            proof {
                lemma_completes_trans(u, v, *p);
            }
            let ghost v = *p;
            if p.peek() == Some(TokenKind::At) {
                directives(p);
            } else {
                proof {
                    lemma_completes_refl(*p);
                }
            }
            proof {
                lemma_completes_trans(u, v, *p);
            }
            complete = true;
        } else {
            let slot = p.mark();
            let ghost a0 = *p;
            p.start_node(SyntaxKind::TYPE);
            let ghost a1 = *p;
            proof {
                lemma_completes_refl(a1);
            }
            p.finish_node();
            proof {
                lemma_wrap(a0, a1, a1, *p);
            }
            let ghost v = *p;
            p.push_err("Expected InputValue definition to have a Type, got ", Some(slot));
            proof {
                lemma_completes_trans(u, v, *p);
            }
        }
        proof {
            lemma_completes_trans(t, u, *p);
        }
    } else {
        p.push_err("Expected InputValue definition to have a Name, got ", None);
    }
    proof {
        lemma_completes_trans(s1, t, *p);
    }
    let ghost s2 = *p;
    p.finish_node();
    proof {
        lemma_wrap(s0, s1, s2, *p);
    }
    complete
}

} // verus!
