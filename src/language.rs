use vstd::prelude::*;
use crate::syntax::{Token, TokenKind};

verus! {

// The well-formed token sequences of the grammar. Each `*_end` function
// says where a well-formed construct that starts at index `i` ends, or
// `None` when none starts there.

pub open spec fn kind_at(t: Seq<Token>, i: int) -> Option<TokenKind> {
    if 0 <= i < t.len() {
        Some(t[i].kind)
    } else {
        None
    }
}

pub open spec fn is_word(t: Seq<Token>, i: int, w: Seq<char>) -> bool {
    kind_at(t, i) == Some(TokenKind::Name) && t[i].text@ == w
}

/// A named type or a list type, without a trailing `!`.
pub open spec fn bare_type_end(t: Seq<Token>, i: int) -> Option<int>
    decreases t.len() - i, 0nat,
{
    if kind_at(t, i) == Some(TokenKind::Name) {
        Some(i + 1)
    } else if kind_at(t, i) == Some(TokenKind::LBracket) {
        match type_end(t, i + 1) {
            Some(j) => if kind_at(t, j) == Some(TokenKind::RBracket) {
                Some(j + 1)
            } else {
                None
            },
            None => None,
        }
    } else {
        None
    }
}

/// A type, with its trailing `!` if there is one.
pub open spec fn type_end(t: Seq<Token>, i: int) -> Option<int>
    decreases t.len() - i, 1nat,
{
    match bare_type_end(t, i) {
        Some(j) => Some(
            if kind_at(t, j) == Some(TokenKind::Bang) {
                j + 1
            } else {
                j
            },
        ),
        None => None,
    }
}

/// A value: a variable, a literal, an enum value, a list or an object.
pub open spec fn value_end(t: Seq<Token>, i: int) -> Option<int>
    decreases t.len() - i, 0nat,
{
    match kind_at(t, i) {
        Some(TokenKind::Dollar) => if kind_at(t, i + 1) == Some(TokenKind::Name) {
            Some(i + 2)
        } else {
            None
        },
        Some(TokenKind::Int) | Some(TokenKind::Float) | Some(TokenKind::StringValue) | Some(
            TokenKind::Name,
        ) => Some(i + 1),
        Some(TokenKind::LBracket) => match list_items_end(t, i + 1) {
            Some(j) => if kind_at(t, j) == Some(TokenKind::RBracket) {
                Some(j + 1)
            } else {
                None
            },
            None => None,
        },
        Some(TokenKind::LCurly) => match object_fields_end(t, i + 1) {
            Some(j) => if kind_at(t, j) == Some(TokenKind::RCurly) {
                Some(j + 1)
            } else {
                None
            },
            None => None,
        },
        _ => None,
    }
}

pub open spec fn value_starts(k: Option<TokenKind>) -> bool {
    match k {
        Some(TokenKind::Dollar) | Some(TokenKind::Int) | Some(TokenKind::Float) | Some(
            TokenKind::StringValue,
        ) | Some(TokenKind::Name) | Some(TokenKind::LBracket) | Some(TokenKind::LCurly) => true,
        _ => false,
    }
}

/// The values and commas of a list value, up to the token that ends them.
pub open spec fn list_items_end(t: Seq<Token>, i: int) -> Option<int>
    decreases t.len() - i, 1nat,
{
    if value_starts(kind_at(t, i)) {
        match value_end(t, i) {
            Some(j) => if i < j <= t.len() {
                list_items_end(t, j)
            } else {
                None
            },
            None => None,
        }
    } else if kind_at(t, i) == Some(TokenKind::Comma) {
        list_items_end(t, i + 1)
    } else {
        Some(i)
    }
}

/// The fields and commas of an object value, up to the token that ends them.
pub open spec fn object_fields_end(t: Seq<Token>, i: int) -> Option<int>
    decreases t.len() - i, 1nat,
{
    if kind_at(t, i) == Some(TokenKind::Name) {
        if kind_at(t, i + 1) == Some(TokenKind::Colon) {
            match value_end(t, i + 2) {
                Some(j) => if i < j <= t.len() {
                    object_fields_end(t, j)
                } else {
                    None
                },
                None => None,
            }
        } else {
            None
        }
    } else if kind_at(t, i) == Some(TokenKind::Comma) {
        object_fields_end(t, i + 1)
    } else {
        Some(i)
    }
}

/// The arguments and commas inside `(` `)`, up to the token that ends them.
pub open spec fn argument_items_end(t: Seq<Token>, i: int) -> Option<int>
    decreases t.len() - i,
{
    if kind_at(t, i) == Some(TokenKind::Name) {
        if kind_at(t, i + 1) == Some(TokenKind::Colon) {
            match value_end(t, i + 2) {
                Some(j) => if i < j <= t.len() {
                    argument_items_end(t, j)
                } else {
                    None
                },
                None => None,
            }
        } else {
            None
        }
    } else if kind_at(t, i) == Some(TokenKind::Comma) {
        argument_items_end(t, i + 1)
    } else {
        Some(i)
    }
}

pub open spec fn arguments_end(t: Seq<Token>, i: int) -> Option<int> {
    if kind_at(t, i) == Some(TokenKind::LParen) {
        match argument_items_end(t, i + 1) {
            Some(j) => if kind_at(t, j) == Some(TokenKind::RParen) {
                Some(j + 1)
            } else {
                None
            },
            None => None,
        }
    } else {
        None
    }
}

pub open spec fn directive_end(t: Seq<Token>, i: int) -> Option<int> {
    if kind_at(t, i) == Some(TokenKind::At) && kind_at(t, i + 1) == Some(TokenKind::Name) {
        if kind_at(t, i + 2) == Some(TokenKind::LParen) {
            arguments_end(t, i + 2)
        } else {
            Some(i + 2)
        }
    } else {
        None
    }
}

/// One or more directives.
pub open spec fn directives_end(t: Seq<Token>, i: int) -> Option<int>
    decreases t.len() - i,
{
    match directive_end(t, i) {
        Some(j) => if kind_at(t, j) == Some(TokenKind::At) && i < j <= t.len() {
            directives_end(t, j)
        } else {
            Some(j)
        },
        None => None,
    }
}

pub open spec fn default_value_end(t: Seq<Token>, i: int) -> Option<int> {
    if kind_at(t, i) == Some(TokenKind::Eq) {
        value_end(t, i + 1)
    } else {
        None
    }
}

/// `j`, then past a default value if one starts there.
pub open spec fn opt_default_end(t: Seq<Token>, j: int) -> Option<int> {
    if kind_at(t, j) == Some(TokenKind::Eq) {
        default_value_end(t, j)
    } else {
        Some(j)
    }
}

/// `j`, then past directives if they start there.
pub open spec fn opt_directives_end(t: Seq<Token>, j: int) -> Option<int> {
    if kind_at(t, j) == Some(TokenKind::At) {
        directives_end(t, j)
    } else {
        Some(j)
    }
}

/// Name `:` Type DefaultValue(opt) Directives(opt).
pub open spec fn input_value_end(t: Seq<Token>, i: int) -> Option<int> {
    if kind_at(t, i) == Some(TokenKind::Name) && kind_at(t, i + 1) == Some(TokenKind::Colon) {
        match type_end(t, i + 2) {
            Some(j) => match opt_default_end(t, j) {
                Some(k) => opt_directives_end(t, k),
                None => None,
            },
            None => None,
        }
    } else {
        None
    }
}

/// The input value definitions and commas of a fields definition, up to
/// the token that ends them; `seen` says whether one came before `i`.
pub open spec fn input_values_end(t: Seq<Token>, i: int, seen: bool) -> Option<int>
    decreases t.len() - i,
{
    if kind_at(t, i) == Some(TokenKind::Name) {
        match input_value_end(t, i) {
            Some(j) => if i < j <= t.len() {
                input_values_end(t, j, true)
            } else {
                None
            },
            None => None,
        }
    } else if kind_at(t, i) == Some(TokenKind::Comma) {
        input_values_end(t, i + 1, seen)
    } else if seen {
        Some(i)
    } else {
        None
    }
}

pub open spec fn fields_definition_end(t: Seq<Token>, i: int) -> Option<int> {
    if kind_at(t, i) == Some(TokenKind::LCurly) {
        match input_values_end(t, i + 1, false) {
            Some(j) => if kind_at(t, j) == Some(TokenKind::RCurly) {
                Some(j + 1)
            } else {
                None
            },
            None => None,
        }
    } else {
        None
    }
}

/// `j`, then past a fields definition if one starts there.
pub open spec fn opt_fields_end(t: Seq<Token>, j: int) -> Option<int> {
    if kind_at(t, j) == Some(TokenKind::LCurly) {
        fields_definition_end(t, j)
    } else {
        Some(j)
    }
}

/// `input` Name Directives(opt) InputFieldsDefinition(opt).
pub open spec fn definition_end(t: Seq<Token>, i: int) -> Option<int> {
    if is_word(t, i, "input"@) && kind_at(t, i + 1) == Some(TokenKind::Name) {
        match opt_directives_end(t, i + 2) {
            Some(j) => opt_fields_end(t, j),
            None => None,
        }
    } else {
        None
    }
}

/// `extend input` Name, then directives, a fields definition or both.
pub open spec fn extension_end(t: Seq<Token>, i: int) -> Option<int> {
    if is_word(t, i, "extend"@) && is_word(t, i + 1, "input"@) && kind_at(t, i + 2) == Some(
        TokenKind::Name,
    ) && (kind_at(t, i + 3) == Some(TokenKind::At) || kind_at(t, i + 3) == Some(
        TokenKind::LCurly,
    )) {
        match opt_directives_end(t, i + 3) {
            Some(j) => opt_fields_end(t, j),
            None => None,
        }
    } else {
        None
    }
}

/// The tokens from `i` on are a sequence of well-formed definitions and
/// extensions.
pub open spec fn definitions_from(t: Seq<Token>, i: int) -> bool
    decreases t.len() - i,
{
    if i >= t.len() {
        true
    } else if is_word(t, i, "input"@) {
        match definition_end(t, i) {
            Some(j) => i < j <= t.len() && definitions_from(t, j),
            None => false,
        }
    } else {
        match extension_end(t, i) {
            Some(j) => i < j <= t.len() && definitions_from(t, j),
            None => false,
        }
    }
}

/// A well-formed document.
pub open spec fn is_valid_document(t: Seq<Token>) -> bool {
    definitions_from(t, 0)
}

} // verus!
