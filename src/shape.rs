use vstd::prelude::*;
use crate::grammar::starts_type;
use crate::language::{bare_type_end, is_word, kind_at, value_starts};
use crate::parser::{b_bump, b_close, b_err, b_open, Build};
use crate::syntax::{Event, SyntaxKind, Token, TokenKind};

verus! {

// What each grammar rule does to the state of a parse, as a function of the
// tokens and of the state it starts in: the nodes it adds, the tokens it
// consumes and the errors it records.

pub open spec fn next(t: Seq<Token>, s: Build) -> Option<TokenKind> {
    kind_at(t, s.pos as int)
}

/// The tag of a token that no rule gives a tag of its own.
pub open spec fn leaf_of(k: TokenKind) -> SyntaxKind {
    match k {
        TokenKind::Name => SyntaxKind::IDENT,
        TokenKind::Int => SyntaxKind::INT,
        TokenKind::Float => SyntaxKind::FLOAT,
        TokenKind::StringValue => SyntaxKind::STRING,
        TokenKind::At => SyntaxKind::AT,
        TokenKind::Bang => SyntaxKind::BANG,
        TokenKind::Colon => SyntaxKind::COLON,
        TokenKind::Comma => SyntaxKind::COMMA,
        TokenKind::Dollar => SyntaxKind::DOLLAR,
        TokenKind::Eq => SyntaxKind::EQ,
        TokenKind::Amp => SyntaxKind::AMP,
        TokenKind::Pipe => SyntaxKind::PIPE,
        TokenKind::Spread => SyntaxKind::SPREAD,
        TokenKind::LParen => SyntaxKind::L_PAREN,
        TokenKind::RParen => SyntaxKind::R_PAREN,
        TokenKind::LBracket => SyntaxKind::L_BRACK,
        TokenKind::RBracket => SyntaxKind::R_BRACK,
        TokenKind::LCurly => SyntaxKind::L_CURLY,
        TokenKind::RCurly => SyntaxKind::R_CURLY,
    }
}

/// `NAME` holding one `IDENT`.
pub open spec fn name_shape(s: Build) -> Build {
    b_close(b_bump(b_open(s, SyntaxKind::NAME), SyntaxKind::IDENT))
}

/// A node of kind `node` holding one leaf tagged `leaf`.
pub open spec fn single_shape(s: Build, node: SyntaxKind, leaf: SyntaxKind) -> Build {
    b_close(b_bump(b_open(s, node), leaf))
}

/// `NAME` if a name is next, else the error `expected`.
pub open spec fn name_or_err(t: Seq<Token>, s: Build, expected: Seq<char>) -> Build {
    if next(t, s) == Some(TokenKind::Name) {
        name_shape(s)
    } else {
        b_err(t, s, expected, None)
    }
}

pub open spec fn value_shape(t: Seq<Token>, s: Build) -> Build
    decreases t.len() - s.pos, 2nat,
{
    let k = next(t, s);
    if k == Some(TokenKind::Dollar) {
        let a = b_bump(b_open(s, SyntaxKind::VARIABLE), SyntaxKind::DOLLAR);
        b_close(name_or_err(t, a, "Expected Variable to have a Name, got "@))
    } else if k == Some(TokenKind::Int) {
        single_shape(s, SyntaxKind::INT_VALUE, SyntaxKind::INT)
    } else if k == Some(TokenKind::Float) {
        single_shape(s, SyntaxKind::FLOAT_VALUE, SyntaxKind::FLOAT)
    } else if k == Some(TokenKind::StringValue) {
        single_shape(s, SyntaxKind::STRING_VALUE, SyntaxKind::STRING)
    } else if k == Some(TokenKind::Name) {
        if is_word(t, s.pos as int, "true"@) {
            single_shape(s, SyntaxKind::BOOLEAN_VALUE, SyntaxKind::true_KW)
        } else if is_word(t, s.pos as int, "false"@) {
            single_shape(s, SyntaxKind::BOOLEAN_VALUE, SyntaxKind::false_KW)
        } else if is_word(t, s.pos as int, "null"@) {
            single_shape(s, SyntaxKind::NULL_VALUE, SyntaxKind::null_KW)
        } else {
            b_close(name_shape(b_open(s, SyntaxKind::ENUM_VALUE)))
        }
    } else if k == Some(TokenKind::LBracket) {
        list_value_shape(t, s)
    } else {
        object_value_shape(t, s)
    }
}

pub open spec fn list_value_shape(t: Seq<Token>, s: Build) -> Build
    decreases t.len() - s.pos, 1nat,
{
    if s.pos < t.len() {
        let a = list_items_shape(t, b_bump(b_open(s, SyntaxKind::LIST_VALUE), SyntaxKind::L_BRACK));
        b_close(
            if next(t, a) == Some(TokenKind::RBracket) {
                b_bump(a, SyntaxKind::R_BRACK)
            } else {
                b_err(t, a, "Expected List Value to have a closing ], got "@, None)
            },
        )
    } else {
        s
    }
}

pub open spec fn list_items_shape(t: Seq<Token>, s: Build) -> Build
    decreases t.len() - s.pos, 3nat,
{
    if value_starts(next(t, s)) {
        let a = value_shape(t, s);
        if s.pos < a.pos <= t.len() {
            list_items_shape(t, a)
        } else {
            a
        }
    } else if next(t, s) == Some(TokenKind::Comma) {
        list_items_shape(t, b_bump(s, SyntaxKind::COMMA))
    } else {
        s
    }
}

pub open spec fn object_value_shape(t: Seq<Token>, s: Build) -> Build
    decreases t.len() - s.pos, 1nat,
{
    if s.pos < t.len() {
        let a = object_fields_shape(
            t,
            b_bump(b_open(s, SyntaxKind::OBJECT_VALUE), SyntaxKind::L_CURLY),
        );
        b_close(
            if next(t, a) == Some(TokenKind::RCurly) {
                b_bump(a, SyntaxKind::R_CURLY)
            } else {
                b_err(t, a, "Expected Object Value to have a closing }, got "@, None)
            },
        )
    } else {
        s
    }
}

pub open spec fn object_fields_shape(t: Seq<Token>, s: Build) -> Build
    decreases t.len() - s.pos, 3nat,
{
    if next(t, s) == Some(TokenKind::Name) {
        let a = object_field_shape(t, s);
        if s.pos < a.pos <= t.len() {
            object_fields_shape(t, a)
        } else {
            a
        }
    } else if next(t, s) == Some(TokenKind::Comma) {
        object_fields_shape(t, b_bump(s, SyntaxKind::COMMA))
    } else {
        s
    }
}

pub open spec fn object_field_shape(t: Seq<Token>, s: Build) -> Build
    decreases t.len() - s.pos, 2nat,
{
    if s.pos < t.len() {
        let a = name_shape(b_open(s, SyntaxKind::OBJECT_FIELD));
        b_close(
            if next(t, a) == Some(TokenKind::Colon) {
                let c = b_bump(a, SyntaxKind::COLON);
                if value_starts(next(t, c)) {
                    value_shape(t, c)
                } else {
                    b_err(t, c, "Expected Object Field to have a Value, got "@, None)
                }
            } else {
                b_err(t, a, "Expected Object Field to have a Colon, got "@, None)
            },
        )
    } else {
        s
    }
}

pub open spec fn argument_shape(t: Seq<Token>, s: Build) -> Build {
    let a = name_shape(b_open(s, SyntaxKind::ARGUMENT));
    b_close(
        if next(t, a) == Some(TokenKind::Colon) {
            let c = b_bump(a, SyntaxKind::COLON);
            if value_starts(next(t, c)) {
                value_shape(t, c)
            } else {
                b_err(t, c, "Expected Argument to have a Value, got "@, None)
            }
        } else {
            b_err(t, a, "Expected Argument to have a Colon, got "@, None)
        },
    )
}

pub open spec fn argument_items_shape(t: Seq<Token>, s: Build) -> Build
    decreases t.len() - s.pos,
{
    if next(t, s) == Some(TokenKind::Name) {
        let a = argument_shape(t, s);
        if s.pos < a.pos <= t.len() {
            argument_items_shape(t, a)
        } else {
            a
        }
    } else if next(t, s) == Some(TokenKind::Comma) && s.pos < t.len() {
        argument_items_shape(t, b_bump(s, SyntaxKind::COMMA))
    } else {
        s
    }
}

pub open spec fn arguments_shape(t: Seq<Token>, s: Build) -> Build {
    let a = argument_items_shape(t, b_bump(b_open(s, SyntaxKind::ARGUMENTS), SyntaxKind::L_PAREN));
    b_close(
        if next(t, a) == Some(TokenKind::RParen) {
            b_bump(a, SyntaxKind::R_PAREN)
        } else {
            b_err(t, a, "Expected Arguments to have a closing ), got "@, None)
        },
    )
}

pub open spec fn directive_shape(t: Seq<Token>, s: Build) -> Build {
    let a = b_bump(b_open(s, SyntaxKind::DIRECTIVE), SyntaxKind::AT);
    let b = name_or_err(t, a, "Expected Directive to have a Name, got "@);
    b_close(
        if next(t, b) == Some(TokenKind::LParen) {
            arguments_shape(t, b)
        } else {
            b
        },
    )
}

pub open spec fn directive_items_shape(t: Seq<Token>, s: Build) -> Build
    decreases t.len() - s.pos,
{
    if next(t, s) == Some(TokenKind::At) {
        let a = directive_shape(t, s);
        if s.pos < a.pos <= t.len() {
            directive_items_shape(t, a)
        } else {
            a
        }
    } else {
        s
    }
}

pub open spec fn directives_shape(t: Seq<Token>, s: Build) -> Build {
    b_close(directive_items_shape(t, b_open(s, SyntaxKind::DIRECTIVES)))
}

/// `TYPE`, wrapping `NON_NULL_TYPE` › `TYPE` › the bare type and `BANG`
/// when a well-formed bare type is followed by `!`.
pub open spec fn type_shape(t: Seq<Token>, s: Build) -> Build
    decreases t.len() - s.pos, 1nat,
{
    let a = b_open(s, SyntaxKind::TYPE);
    let non_null = match bare_type_end(t, s.pos as int) {
        Some(j) => kind_at(t, j) == Some(TokenKind::Bang),
        None => false,
    };
    b_close(
        if non_null {
            let d = b_close(
                type_body_shape(t, b_open(b_open(a, SyntaxKind::NON_NULL_TYPE), SyntaxKind::TYPE)),
            );
            b_close(
                if next(t, d) == Some(TokenKind::Bang) {
                    b_bump(d, SyntaxKind::BANG)
                } else {
                    d
                },
            )
        } else {
            type_body_shape(t, a)
        },
    )
}

/// `NAMED_TYPE` › `NAME`, or `LIST_TYPE` holding `[`, a type and `]`.
pub open spec fn type_body_shape(t: Seq<Token>, s: Build) -> Build
    decreases t.len() - s.pos, 0nat,
{
    if next(t, s) == Some(TokenKind::Name) {
        b_close(name_shape(b_open(s, SyntaxKind::NAMED_TYPE)))
    } else if s.pos < t.len() {
        let a = b_bump(b_open(s, SyntaxKind::LIST_TYPE), SyntaxKind::L_BRACK);
        let b = if starts_type(next(t, a)) {
            type_shape(t, a)
        } else {
            b_err(t, a, "Expected List Type to have a Type, got "@, None)
        };
        b_close(
            if next(t, b) == Some(TokenKind::RBracket) {
                b_bump(b, SyntaxKind::R_BRACK)
            } else {
                b_err(t, b, "Expected List Type to have a closing ], got "@, None)
            },
        )
    } else {
        s
    }
}

pub open spec fn default_value_shape(t: Seq<Token>, s: Build) -> Build {
    let a = b_bump(b_open(s, SyntaxKind::DEFAULT_VALUE), SyntaxKind::EQ);
    b_close(
        if value_starts(next(t, a)) {
            value_shape(t, a)
        } else {
            b_err(t, a, "Expected Default Value to have a Value, got "@, None)
        },
    )
}

/// One input value definition, and whether it had a name, a colon and a
/// type. A missing type leaves an empty `TYPE` node that the error names.
pub open spec fn input_value_shape(t: Seq<Token>, s: Build) -> (Build, bool) {
    let a = name_shape(b_open(s, SyntaxKind::INPUT_VALUE_DEFINITION));
    if next(t, a) == Some(TokenKind::Colon) {
        let c = b_bump(a, SyntaxKind::COLON);
        if starts_type(next(t, c)) {
            let d = type_shape(t, c);
            let e = if next(t, d) == Some(TokenKind::Eq) {
                default_value_shape(t, d)
            } else {
                d
            };
            let f = if next(t, e) == Some(TokenKind::At) {
                directives_shape(t, e)
            } else {
                e
            };
            (b_close(f), true)
        } else {
            let d = b_close(b_open(c, SyntaxKind::TYPE));
            (
                b_close(
                    b_err(
                        t,
                        d,
                        "Expected InputValue definition to have a Type, got "@,
                        Some(c.events.len() as usize),
                    ),
                ),
                false,
            )
        }
    } else {
        (
            b_close(b_err(t, a, "Expected InputValue definition to have a Name, got "@, None)),
            false,
        )
    }
}

/// Where the list of input value definitions stops: with no error when a
/// complete one was read (`seen`), else with the empty-list error.
pub open spec fn input_values_stop(t: Seq<Token>, s: Build, seen: bool) -> (Build, bool) {
    if seen {
        (s, true)
    } else {
        (b_err(t, s, "Expected to have an InputValue definition, got "@, None), false)
    }
}

/// The input value definitions and commas of a fields definition, and
/// whether a complete definition was among them.
pub open spec fn input_values_shape(t: Seq<Token>, s: Build, seen: bool) -> (Build, bool)
    decreases t.len() - s.pos,
{
    if next(t, s) == Some(TokenKind::Name) {
        let (a, complete) = input_value_shape(t, s);
        if s.pos < a.pos <= t.len() {
            let seen2 = seen || complete;
            if complete && a.pos < t.len() {
                input_values_shape(t, a, true)
            } else if next(t, a) == Some(TokenKind::Comma) {
                input_values_shape(t, b_bump(a, SyntaxKind::COMMA), seen2)
            } else {
                input_values_stop(t, a, seen2)
            }
        } else {
            (a, seen)
        }
    } else if next(t, s) == Some(TokenKind::Comma) && s.pos < t.len() {
        input_values_shape(t, b_bump(s, SyntaxKind::COMMA), seen)
    } else {
        input_values_stop(t, s, seen)
    }
}

pub open spec fn fields_shape(t: Seq<Token>, s: Build) -> Build {
    let a = input_values_shape(
        t,
        b_bump(b_open(s, SyntaxKind::INPUT_FIELDS_DEFINITION), SyntaxKind::L_CURLY),
        false,
    ).0;
    b_close(
        if next(t, a) == Some(TokenKind::RCurly) {
            b_bump(a, SyntaxKind::R_CURLY)
        } else {
            b_err(t, a, "Expected Fields Definition to have a closing }, got "@, None)
        },
    )
}

/// `b`, then directives if `@` is next, then a fields definition if `{` is.
pub open spec fn definition_tail(t: Seq<Token>, b: Build) -> Build {
    let c = if next(t, b) == Some(TokenKind::At) {
        directives_shape(t, b)
    } else {
        b
    };
    if next(t, c) == Some(TokenKind::LCurly) {
        fields_shape(t, c)
    } else {
        c
    }
}

pub open spec fn definition_shape(t: Seq<Token>, s: Build) -> Build {
    let a = b_bump(b_open(s, SyntaxKind::INPUT_OBJECT_TYPE_DEFINITION), SyntaxKind::input_KW);
    let b = name_or_err(t, a, "Expected Input Object Type Definition to have a Name, got "@);
    b_close(definition_tail(t, b))
}

pub open spec fn extension_shape(t: Seq<Token>, s: Build) -> Build {
    let a = b_bump(
        b_bump(b_open(s, SyntaxKind::INPUT_OBJECT_TYPE_EXTENSION), SyntaxKind::extend_KW),
        SyntaxKind::input_KW,
    );
    let b = name_or_err(t, a, "Expected Input Object Type Definition to have a Name, got "@);
    let d = definition_tail(t, b);
    b_close(
        if next(t, b) == Some(TokenKind::At) || next(t, b) == Some(TokenKind::LCurly) {
            d
        } else {
            b_err(
                t,
                d,
                "Expected Input Object Type Extension to have Directives or Input Fields Definition, got "@,
                None,
            )
        },
    )
}

/// The definitions, extensions and stray tokens of a document, from `s` on.
pub open spec fn document_items_shape(t: Seq<Token>, s: Build) -> Build
    decreases t.len() - s.pos,
{
    if s.pos >= t.len() {
        s
    } else {
        let a = if is_word(t, s.pos as int, "input"@) {
            definition_shape(t, s)
        } else if is_word(t, s.pos as int, "extend"@) && is_word(t, s.pos + 1int, "input"@) {
            extension_shape(t, s)
        } else {
            let e = b_err(
                t,
                b_open(s, SyntaxKind::ERROR),
                "Expected Document to have a Definition, got "@,
                None,
            );
            b_close(b_bump(e, leaf_of(t[s.pos as int].kind)))
        };
        if s.pos < a.pos <= t.len() {
            document_items_shape(t, a)
        } else {
            a
        }
    }
}

/// The whole result of parsing `t`.
pub open spec fn document_shape(t: Seq<Token>) -> Build {
    let s = b_open(Build { pos: 0, events: Seq::empty(), errors: Seq::empty() }, SyntaxKind::DOCUMENT);
    b_close(document_items_shape(t, s))
}

/// A name followed by `!` is a `TYPE` holding a `NON_NULL_TYPE`, which
/// holds a `TYPE` over `NAMED_TYPE` › `NAME` › `IDENT`, then the `BANG`.
pub proof fn lemma_non_null_named_type(t: Seq<Token>, s: Build)
    requires
        next(t, s) == Some(TokenKind::Name),
        kind_at(t, s.pos + 1int) == Some(TokenKind::Bang),
    ensures
        type_shape(t, s) == (Build {
            pos: s.pos + 2,
            events: s.events + seq![
                Event::Open(SyntaxKind::TYPE),
                Event::Open(SyntaxKind::NON_NULL_TYPE),
                Event::Open(SyntaxKind::TYPE),
                Event::Open(SyntaxKind::NAMED_TYPE),
                Event::Open(SyntaxKind::NAME),
                Event::Leaf(SyntaxKind::IDENT, s.pos as usize),
                Event::Close,
                Event::Close,
                Event::Close,
                Event::Leaf(SyntaxKind::BANG, (s.pos + 1) as usize),
                Event::Close,
                Event::Close,
            ],
            errors: s.errors,
        }),
{
    assert(type_shape(t, s).events =~= s.events + seq![
        Event::Open(SyntaxKind::TYPE),
        Event::Open(SyntaxKind::NON_NULL_TYPE),
        Event::Open(SyntaxKind::TYPE),
        Event::Open(SyntaxKind::NAMED_TYPE),
        Event::Open(SyntaxKind::NAME),
        Event::Leaf(SyntaxKind::IDENT, s.pos as usize),
        Event::Close,
        Event::Close,
        Event::Close,
        Event::Leaf(SyntaxKind::BANG, (s.pos + 1) as usize),
        Event::Close,
        Event::Close,
    ]);
}

} // verus!
