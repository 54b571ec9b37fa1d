use vstd::prelude::*;
use crate::language::kind_at;
use crate::syntax::{
    covers, depth, depth_at, leaf_indices, lemma_depth_push, lemma_leaves_push, stays_above, Event,
    SyntaxKind, Token, TokenKind,
};

verus! {

/// A syntax error: what was expected and what was found, and the index of
/// the token at which it was detected (the stream's length at its end).
/// Where the parser synthesised an empty node for the missing element,
/// `placeholder` is the index of that node's `Open` event.
#[derive(Debug)]
pub struct ParseError {
    pub message: String,
    pub index: usize,
    pub placeholder: Option<usize>,
}

/// A lossless syntax tree in preorder, together with the tokens its leaves
/// refer to.
pub struct SyntaxTree {
    pub tokens: Vec<Token>,
    pub events: Vec<Event>,
}

/// What a parse produces: always a tree, and the errors met on the way.
pub struct ParseResult {
    pub tree: SyntaxTree,
    pub errors: Vec<ParseError>,
}

/// The state of one parse: the token stream and the cursor into it, the
/// tree built so far and the errors recorded so far.
pub struct Parser {
    tokens: Vec<Token>,
    pos: usize,
    events: Vec<Event>,
    errors: Vec<ParseError>,
}

/// What an error records, as plain values.
pub struct ErrorView {
    pub message: Seq<char>,
    pub index: usize,
    pub placeholder: Option<usize>,
}

pub open spec fn error_view(e: ParseError) -> ErrorView {
    ErrorView { message: e.message@, index: e.index, placeholder: e.placeholder }
}

/// The state of a parse as plain values: the cursor, the events so far and
/// the errors so far.
pub struct Build {
    pub pos: nat,
    pub events: Seq<Event>,
    pub errors: Seq<ErrorView>,
}

/// `s` after opening a node of kind `k`.
pub open spec fn b_open(s: Build, k: SyntaxKind) -> Build {
    Build { events: s.events.push(Event::Open(k)), ..s }
}

/// `s` after closing the innermost open node.
pub open spec fn b_close(s: Build) -> Build {
    Build { events: s.events.push(Event::Close), ..s }
}

/// `s` after consuming the next token as a leaf tagged `k`.
pub open spec fn b_bump(s: Build, k: SyntaxKind) -> Build {
    Build { pos: s.pos + 1, events: s.events.push(Event::Leaf(k, s.pos as usize)), ..s }
}

/// `s` after recording the error `expected`, followed by what was found at
/// the cursor, with the given placeholder.
pub open spec fn b_err(t: Seq<Token>, s: Build, expected: Seq<char>, placeholder: Option<usize>) -> Build {
    Build {
        errors: s.errors.push(
            ErrorView {
                message: expected + found_at(t, s.pos as int),
                index: s.pos as usize,
                placeholder,
            },
        ),
        ..s
    }
}

/// A placeholder, if any, names a node without children.
pub open spec fn placeholder_ok(e: ParseError, ev: Seq<Event>) -> bool {
    slot_ok(e.placeholder, ev)
}

/// A slot, if any, is the index of a node without children.
pub open spec fn slot_ok(slot: Option<usize>, ev: Seq<Event>) -> bool {
    match slot {
        Some(i) => i + 1 < ev.len() && ev[i as int] is Open && ev[i + 1] == Event::Close,
        None => true,
    }
}

/// A slot stays valid when the tree grows.
pub proof fn lemma_slot_push(slot: Option<usize>, ev: Seq<Event>, e: Event)
    requires
        slot_ok(slot, ev),
    ensures
        slot_ok(slot, ev.push(e)),
{
    if let Some(i) = slot {
        assert(ev.push(e)[i as int] == ev[i as int]);
        assert(ev.push(e)[i + 1] == ev[i + 1]);
    }
}

/// What an error message says was found at token `i`.
pub open spec fn found_at(t: Seq<Token>, i: int) -> Seq<char> {
    if 0 <= i < t.len() {
        t[i].text@
    } else {
        no_further_data()
    }
}

/// An error that says `expected` and then what was found at token `i`.
pub open spec fn error_is(e: ParseError, t: Seq<Token>, expected: Seq<char>, i: int) -> bool {
    &&& e.message@ == expected + found_at(t, i)
    &&& e.index == i
}

/// Every placeholder of `errs` stays valid when the tree grows by one event.
pub proof fn lemma_placeholders_push(errs: Seq<ParseError>, ev: Seq<Event>, e: Event)
    requires
        forall|j: int| 0 <= j < errs.len() ==> #[trigger] placeholder_ok(errs[j], ev),
    ensures
        forall|j: int| 0 <= j < errs.len() ==> #[trigger] placeholder_ok(errs[j], ev.push(e)),
{
    assert forall|j: int| 0 <= j < errs.len() implies #[trigger] placeholder_ok(
        errs[j],
        ev.push(e),
    ) by {
        assert(placeholder_ok(errs[j], ev));
        lemma_slot_push(errs[j].placeholder, ev, e);
    }
}

/// What an error message says was found at the end of the stream.
pub open spec fn no_further_data() -> Seq<char> {
    "no further data"@
}

impl Parser {
    pub closed spec fn tokens(&self) -> Seq<Token> {
        self.tokens@
    }

    pub closed spec fn pos(&self) -> nat {
        self.pos as nat
    }

    pub closed spec fn events(&self) -> Seq<Event> {
        self.events@
    }

    pub closed spec fn errors(&self) -> Seq<ParseError> {
        self.errors@
    }

    /// The state as plain values.
    pub open spec fn st(&self) -> Build {
        Build {
            pos: self.pos(),
            events: self.events(),
            errors: self.errors().map_values(|e: ParseError| error_view(e)),
        }
    }

    pub open spec fn wf(&self) -> bool {
        &&& self.pos() <= self.tokens().len() <= usize::MAX
        &&& covers(self.events(), self.pos())
        &&& stays_above(self.events(), 0, 0)
        &&& forall|j: int|
            0 <= j < self.errors().len() ==> #[trigger] placeholder_ok(
                self.errors()[j],
                self.events(),
            )
    }

    /// The kind of the next unconsumed token.
    pub open spec fn next_kind(&self) -> Option<TokenKind> {
        if self.pos() < self.tokens().len() {
            Some(self.tokens()[self.pos() as int].kind)
        } else {
            None
        }
    }

    /// The text of the next unconsumed token, or a fixed text at the end.
    pub open spec fn found_text(&self) -> Seq<char> {
        if self.pos() < self.tokens().len() {
            self.tokens()[self.pos() as int].text@
        } else {
            no_further_data()
        }
    }

    /// `new` is `self` after more work: the same tokens, a cursor that has
    /// not gone back, and the tree and the errors only extended.
    pub open spec fn grows(&self, new: Parser) -> bool {
        &&& new.wf()
        &&& new.tokens() == self.tokens()
        &&& self.pos() <= new.pos()
        &&& self.events().len() <= new.events().len()
        &&& new.events().subrange(0, self.events().len() as int) == self.events()
        &&& forall|k: int|
            k <= self.events().len() ==> #[trigger] depth_at(new.events(), k) == depth_at(
                self.events(),
                k,
            )
        &&& self.errors().len() <= new.errors().len()
        &&& new.errors().subrange(0, self.errors().len() as int) == self.errors()
    }

    /// `new` is `self` after a whole number of nodes were added: every node
    /// opened since `self` was also closed, and none open at `self` was.
    pub open spec fn completes(&self, new: Parser) -> bool {
        &&& self.grows(new)
        &&& depth(new.events()) == depth(self.events())
        &&& stays_above(new.events(), self.events().len() as int, depth(self.events()))
    }

    pub fn new(tokens: Vec<Token>) -> (r: Parser)
        ensures
            r.wf(),
            r.tokens() == tokens@,
            r.pos() == 0,
            r.events().len() == 0,
            r.errors().len() == 0,
    {
        proof {
            assert(tokens.len() == tokens@.len());
        }
        let r = Parser { tokens, pos: 0, events: Vec::new(), errors: Vec::new() };
        assert(leaf_indices(r.events@) =~= Seq::<usize>::empty());
        r
    }

    /// The kind of the next token, without consuming it.
    pub fn peek(&self) -> (r: Option<TokenKind>)
        requires
            self.wf(),
        ensures
            r == self.next_kind(),
    {
        if self.pos < self.tokens.len() {
            Some(self.tokens[self.pos].kind)
        } else {
            None
        }
    }

    /// The text of the next token, without consuming it.
    pub fn peek_data(&self) -> (r: Option<String>)
        requires
            self.wf(),
        ensures
            r is Some <==> self.pos() < self.tokens().len(),
            r is Some ==> r->0@ == self.tokens()[self.pos() as int].text@,
    {
        if self.pos < self.tokens.len() {
            Some(self.tokens[self.pos].text.clone())
        } else {
            None
        }
    }

    /// The index of the next unconsumed token.
    pub fn position(&self) -> (r: usize)
        ensures
            r == self.pos(),
    {
        self.pos
    }

    /// The kind of the token at index `i` of the stream, consumed or not.
    pub fn kind_at_index(&self, i: usize) -> (r: Option<TokenKind>)
        requires
            self.wf(),
        ensures
            r == kind_at(self.tokens(), i as int),
    {
        if i < self.tokens.len() {
            Some(self.tokens[i].kind)
        } else {
            None
        }
    }

    /// Whether the token `n` places after the next one is a name spelt `word`.
    pub fn nth_is_word(&self, n: usize, word: &str) -> (r: bool)
        requires
            self.wf(),
        ensures
            r == (self.pos() + n < self.tokens().len() && self.tokens()[self.pos() + n].kind
                == TokenKind::Name && self.tokens()[self.pos() + n].text@ == word@),
    {
        if n < self.tokens.len() - self.pos {
            let t = &self.tokens[self.pos + n];
            let w = String::from_str(word);
            t.kind == TokenKind::Name && t.text == w
        } else {
            false
        }
    }

    /// Whether the next token is a name spelt `word`.
    pub fn at_word(&self, word: &str) -> (r: bool)
        requires
            self.wf(),
        ensures
            r == (self.next_kind() == Some(TokenKind::Name) && self.found_text() == word@),
    {
        self.nth_is_word(0, word)
    }

    /// Consumes the next token and attaches it, tagged `kind`, to the
    /// innermost open node.
    pub fn bump(&mut self, kind: SyntaxKind)
        requires
            old(self).wf(),
            old(self).pos() < old(self).tokens().len(),
        ensures
            final(self).st() == b_bump(old(self).st(), kind),
            old(self).completes(*final(self)),
            final(self).pos() == old(self).pos() + 1,
            final(self).events() == old(self).events().push(Event::Leaf(kind, old(self).pos() as usize)),
            final(self).errors() == old(self).errors(),
    {
        let ghost ev = self.events@;
        let e = Event::Leaf(kind, self.pos);
        self.events.push(e);
        self.pos = self.pos + 1;
        proof {
            lemma_depth_push(ev, e);
            lemma_leaves_push(ev, e);
            assert(self.events@.subrange(0, ev.len() as int) =~= ev);
            assert(self.errors@.subrange(0, self.errors@.len() as int) =~= self.errors@);
            lemma_placeholders_push(old(self).errors(), ev, e);
        }
    }

    /// Opens a node of kind `kind`; what follows attaches to it until it is
    /// closed.
    pub fn start_node(&mut self, kind: SyntaxKind)
        requires
            old(self).wf(),
        ensures
            final(self).st() == b_open(old(self).st(), kind),
            old(self).grows(*final(self)),
            final(self).pos() == old(self).pos(),
            final(self).events() == old(self).events().push(Event::Open(kind)),
            depth(final(self).events()) == depth(old(self).events()) + 1,
            stays_above(final(self).events(), old(self).events().len() as int, depth(old(self).events())),
            final(self).errors() == old(self).errors(),
    {
        let ghost ev = self.events@;
        let e = Event::Open(kind);
        self.events.push(e);
        proof {
            lemma_depth_push(ev, e);
            lemma_leaves_push(ev, e);
            assert(self.events@.subrange(0, ev.len() as int) =~= ev);
            assert(self.errors@.subrange(0, self.errors@.len() as int) =~= self.errors@);
            lemma_placeholders_push(old(self).errors(), ev, e);
        }
    }

    /// Closes the innermost open node.
    pub fn finish_node(&mut self)
        requires
            old(self).wf(),
            depth(old(self).events()) >= 1,
        ensures
            final(self).st() == b_close(old(self).st()),
            old(self).grows(*final(self)),
            final(self).pos() == old(self).pos(),
            final(self).events() == old(self).events().push(Event::Close),
            depth(final(self).events()) == depth(old(self).events()) - 1,
            final(self).errors() == old(self).errors(),
    {
        let ghost ev = self.events@;
        let e = Event::Close;
        self.events.push(e);
        proof {
            lemma_depth_push(ev, e);
            lemma_leaves_push(ev, e);
            assert(self.events@.subrange(0, ev.len() as int) =~= ev);
            assert(self.errors@.subrange(0, self.errors@.len() as int) =~= self.errors@);
            lemma_placeholders_push(old(self).errors(), ev, e);
        }
    }

    /// Ends the parse, handing over the tree and the errors.
    pub fn finish(self) -> (r: ParseResult)
        ensures
            r.tree.tokens@ == self.tokens(),
            r.tree.events@ == self.events(),
            r.errors@ == self.errors(),
    {
        ParseResult { tree: SyntaxTree { tokens: self.tokens, events: self.events }, errors: self.errors }
    }

    /// The number of events so far: the index the next node will have.
    pub fn mark(&self) -> (r: usize)
        ensures
            r == self.events().len(),
    {
        self.events.len()
    }

    /// Records an error whose message is `expected` followed by the text of
    /// the next token, or by "no further data" at the end of the stream.
    pub fn push_err(&mut self, expected: &str, placeholder: Option<usize>)
        requires
            old(self).wf(),
            slot_ok(placeholder, old(self).events()),
        ensures
            final(self).st() == b_err(old(self).tokens(), old(self).st(), expected@, placeholder),
            old(self).completes(*final(self)),
            final(self).pos() == old(self).pos(),
            final(self).events() == old(self).events(),
            final(self).errors().len() == old(self).errors().len() + 1,
            final(self).errors().drop_last() == old(self).errors(),
            final(self).errors().last().message@ == expected@ + old(self).found_text(),
            final(self).errors().last().index == old(self).pos(),
            final(self).errors().last().placeholder == placeholder,
    {
        let found = match self.peek_data() {
            Some(s) => s,
            None => String::from_str("no further data"),
        };
        let message = String::from_str(expected).concat(found.as_str());
        let ghost errs = self.errors@;
        self.errors.push(ParseError { message, index: self.pos, placeholder });
        proof {
            assert(self.events@.subrange(0, self.events@.len() as int) =~= self.events@);
            assert(self.errors@.subrange(0, errs.len() as int) =~= errs);
            assert(self.errors@.drop_last() =~= errs);
            assert(self.st().errors =~= old(self).st().errors.push(error_view(self.errors@.last())));
            assert forall|j: int| 0 <= j < self.errors().len() implies #[trigger] placeholder_ok(
                self.errors()[j],
                self.events(),
            ) by {
                if j < errs.len() {
                    assert(self.errors()[j] == errs[j]);
                    assert(placeholder_ok(old(self).errors()[j], old(self).events()));
                }
            }
        }
    }
}

/// `new` is `old` with one more node of kind `k` at the end of the tree.
pub open spec fn opens_node(old: Parser, new: Parser, k: SyntaxKind) -> bool {
    &&& new.events().len() >= old.events().len() + 2
    &&& new.events()[old.events().len() as int] == Event::Open(k)
    &&& new.events().last() == Event::Close
    &&& forall|k: int|
        old.events().len() < k < new.events().len() ==> #[trigger] depth_at(new.events(), k)
            >= depth(old.events()) + 1
}

/// Growth composes.
pub proof fn lemma_grows_trans(a: Parser, b: Parser, c: Parser)
    requires
        a.grows(b),
        b.grows(c),
    ensures
        a.grows(c),
{
    assert(c.events().subrange(0, a.events().len() as int) =~= a.events()) by {
        assert forall|i: int| 0 <= i < a.events().len() implies c.events()[i] == a.events()[i] by {
            assert(c.events()[i] == c.events().subrange(0, b.events().len() as int)[i]);
            assert(b.events()[i] == b.events().subrange(0, a.events().len() as int)[i]);
        }
    }
    assert(c.errors().subrange(0, a.errors().len() as int) =~= a.errors()) by {
        assert forall|i: int| 0 <= i < a.errors().len() implies c.errors()[i] == a.errors()[i] by {
            assert(c.errors()[i] == c.errors().subrange(0, b.errors().len() as int)[i]);
            assert(b.errors()[i] == b.errors().subrange(0, a.errors().len() as int)[i]);
        }
    }
}

/// Completing whole nodes composes.
pub proof fn lemma_completes_trans(a: Parser, b: Parser, c: Parser)
    requires
        a.completes(b),
        b.completes(c),
    ensures
        a.completes(c),
{
    lemma_grows_trans(a, b, c);
    assert forall|k: int| a.events().len() <= k <= c.events().len() implies #[trigger] depth_at(
        c.events(),
        k,
    ) >= depth(a.events()) by {
        if k <= b.events().len() {
            assert(depth_at(c.events(), k) == depth_at(b.events(), k));
            assert(depth_at(b.events(), k) >= depth(a.events()));
        } else {
            assert(depth_at(c.events(), k) >= depth(b.events()));
        }
    }
}

/// Opening a node, completing nodes inside it and closing it completes a
/// node.
pub proof fn lemma_wrap(a: Parser, b: Parser, c: Parser, d: Parser)
    requires
        a.grows(b),
        b.events().len() == a.events().len() + 1,
        depth(b.events()) == depth(a.events()) + 1,
        stays_above(b.events(), a.events().len() as int, depth(a.events())),
        b.completes(c),
        c.grows(d),
        d.events().len() == c.events().len() + 1,
        depth(d.events()) == depth(c.events()) - 1,
    ensures
        a.completes(d),
        d.events().len() > b.events().len(),
        d.events()[a.events().len() as int] == b.events()[a.events().len() as int],
        forall|k: int|
            a.events().len() < k < d.events().len() ==> #[trigger] depth_at(d.events(), k) >= depth(
                a.events(),
            ) + 1,
{
    lemma_grows_trans(a, b, c);
    lemma_grows_trans(a, c, d);
    assert(d.events()[a.events().len() as int] == d.events().subrange(0, b.events().len() as int)[a.events().len() as int]);
    assert forall|k: int| a.events().len() <= k <= d.events().len() implies #[trigger] depth_at(
        d.events(),
        k,
    ) >= depth(a.events()) by {
        if k <= b.events().len() {
            assert(depth_at(d.events(), k) == depth_at(c.events(), k));
            assert(depth_at(c.events(), k) == depth_at(b.events(), k));
        } else if k <= c.events().len() {
            assert(depth_at(d.events(), k) == depth_at(c.events(), k));
        } else {
            assert(k == d.events().len());
        }
    }
    assert forall|k: int| a.events().len() < k < d.events().len() implies #[trigger] depth_at(
        d.events(),
        k,
    ) >= depth(a.events()) + 1 by {
        assert(depth_at(d.events(), k) == depth_at(c.events(), k));
        if k <= b.events().len() {
            assert(depth_at(c.events(), k) == depth_at(b.events(), k));
        }
    }
}

/// Doing nothing completes no node.
pub proof fn lemma_completes_refl(a: Parser)
    requires
        a.wf(),
    ensures
        a.completes(a),
{
    assert(a.events().subrange(0, a.events().len() as int) =~= a.events());
    assert(a.errors().subrange(0, a.errors().len() as int) =~= a.errors());
}

} // verus!
