//! The declaration validator: a deterministic finite-state machine over the
//! token sequence that enforces grammar structure and semantic rules in one
//! left-to-right pass while it builds the symbol table.
//!
//! The machine is specified by [`spec_step`], the transition function over a
//! validation context, and [`run`], which folds it over the tokens. The
//! executable [`analyze`] returns exactly what that specification computes.
//!
//! One point the grammar leaves open is settled here explicitly: an array
//! type must declare at least one dimension, so `[]` with no range inside is
//! rejected as a syntax error at the `]` token.

use vstd::prelude::*;
use vstd::string::StrSliceExecFns;
use vstd::string::StringExecFns;

use crate::classify::is_identifier;
use crate::classify::is_integer;
use crate::classify::spec_is_identifier;
use crate::classify::spec_is_integer;
use crate::error::ErrorKind;
use crate::error::ErrorView;
use crate::error::LexerError;
use crate::number::parse_in_range;
use crate::number::spec_in_range;
use crate::number::str_int;
use crate::table::SymbolTable;
use crate::table::has_key;
use crate::table::keys_distinct;
use crate::table::pairs_of;
use crate::text::lower_of;
use crate::text::str_eq;
use crate::text::to_lower;
use crate::token::Token;
use crate::token::TokenView;
use crate::token::token_views;

verus! {

/// The longest name an identifier may have, in characters.
pub const MAX_IDENTIFIER_LENGTH: usize = 8;

/// One of the fixed simple type names, in case-normalized form.
pub open spec fn spec_is_simple_type(s: Seq<char>) -> bool {
    ||| s == "byte"@
    ||| s == "word"@
    ||| s == "integer"@
    ||| s == "real"@
    ||| s == "char"@
    ||| s == "double"@
}

/// One of the reserved words, in case-normalized form: the simple type names
/// together with `var`, `array` and `of`.
pub open spec fn spec_is_keyword(s: Seq<char>) -> bool {
    ||| s == "var"@
    ||| spec_is_simple_type(s)
    ||| s == "array"@
    ||| s == "of"@
}

/// Whether `s` is one of the six simple type names.
pub fn is_simple_type(s: &str) -> (r: bool)
    ensures
        r == spec_is_simple_type(s@),
{
    str_eq(s, "byte") || str_eq(s, "word") || str_eq(s, "integer") || str_eq(s, "real") || str_eq(
        s,
        "char",
    ) || str_eq(s, "double")
}

/// Whether `s` is a reserved word.
pub fn is_keyword(s: &str) -> (r: bool)
    ensures
        r == spec_is_keyword(s@),
{
    str_eq(s, "var") || is_simple_type(s) || str_eq(s, "array") || str_eq(s, "of")
}

/// The states of the validating automaton, named by grammar role. Success and
/// failure are not states: the machine stops by returning a finished table or
/// an error.
#[derive(Debug, Clone, Copy)]
pub enum St {
    /// Expecting the leading `var` keyword.
    Start,
    /// Expecting an identifier to declare.
    Definition,
    /// After an identifier: `,` continues the name list, `:` starts a type.
    Identifier,
    /// Expecting a type: a simple type name or `array`.
    Type,
    /// After a simple type: `,` starts a new name list, `;` finishes.
    SimpleType,
    /// After `array`: expecting `[`.
    Array,
    /// Expecting the first range's lower bound.
    RangesStart,
    /// After the first lower bound: expecting `:`.
    FirstRangeBeginValue,
    /// Expecting the first range's upper bound.
    FirstRangeDelimiter,
    /// After the first range: `,` starts a second range, `]` closes.
    FirstRangeEndValue,
    /// Expecting the second range's lower bound.
    RangesDelimiter,
    /// After the second lower bound: expecting `:`.
    SecondRangeBeginValue,
    /// Expecting the second range's upper bound.
    SecondRangeDelimiter,
    /// After the second range: expecting `]`.
    SecondRangeEndValue,
    /// After `]`: expecting the `of` keyword.
    RangesEnd,
    /// After `of`: expecting the element simple type.
    Of,
    /// After an array type: `;` finishes, `,` starts a new name list.
    ArrayType,
}

/// The validator's working context: the automaton state, the symbol-table
/// entries bound so far, the names declared but not yet bound to a type, and
/// the array-type accumulator with the pending range lower bound.
pub ghost struct Ctx {
    pub state: St,
    pub table: Seq<(Seq<char>, Seq<char>)>,
    pub pending: Seq<Seq<char>>,
    pub collecting: bool,
    pub acc: Seq<char>,
    pub left: int,
}

/// The context a validation run starts from.
pub open spec fn init_ctx() -> Ctx {
    Ctx {
        state: St::Start,
        table: Seq::empty(),
        pending: Seq::empty(),
        collecting: false,
        acc: Seq::empty(),
        left: 0,
    }
}

/// The working context stays consistent: no name is declared twice, neither
/// among the bound entries, nor among the pending names, nor across the two.
pub open spec fn ctx_wf(ctx: Ctx) -> bool {
    &&& keys_distinct(ctx.table)
    &&& (forall|i: int, j: int|
        0 <= i < j < ctx.pending.len() ==> #[trigger] ctx.pending[i] != #[trigger] ctx.pending[j])
    &&& (forall|i: int, j: int|
        0 <= i < ctx.table.len() && 0 <= j < ctx.pending.len() ==> (#[trigger] ctx.table[i]).0
            != #[trigger] ctx.pending[j])
}

/// What one transition yields: the next context, the finished table, or a
/// terminal error.
pub ghost enum Step {
    Next(Ctx),
    Done(Seq<(Seq<char>, Seq<char>)>),
    Fail(ErrorView),
}

/// Every pending name bound to the descriptor `desc`, appended to `table`.
pub open spec fn bind(
    table: Seq<(Seq<char>, Seq<char>)>,
    pending: Seq<Seq<char>>,
    desc: Seq<char>,
) -> Seq<(Seq<char>, Seq<char>)> {
    table + pending.map_values(|p: Seq<char>| (p, desc))
}

/// A syntax error at the offending token.
pub open spec fn syn(tok: TokenView, msg: Seq<char>) -> ErrorView {
    ErrorView {
        kind: ErrorKind::Syntax,
        position: tok.position,
        token_length: tok.word.len(),
        message: msg,
    }
}

/// A semantic error at the offending token.
pub open spec fn sem(tok: TokenView, msg: Seq<char>) -> ErrorView {
    ErrorView {
        kind: ErrorKind::Semantic,
        position: tok.position,
        token_length: tok.word.len(),
        message: msg,
    }
}

/// One transition of the validating automaton on the token `tok`. While an
/// array type is being collected, the token's text is also appended to the
/// accumulator (with a single space on either side of the `of` keyword), so
/// the descriptor bound at the `of` transition takes the canonical form
/// `array[low:high{,low:high}] of <elem>`, the consumed lexemes with their
/// case preserved.
pub open spec fn spec_step(ctx: Ctx, tok: TokenView) -> Step {
    let w = tok.word;
    let wl = lower_of(w);
    let acc = if ctx.collecting {
        if wl == "of"@ {
            ctx.acc + " "@ + w + " "@
        } else {
            ctx.acc + w
        }
    } else {
        ctx.acc
    };
    match ctx.state {
        St::Start => {
            if wl == "var"@ {
                Step::Next(Ctx { state: St::Definition, acc, ..ctx })
            } else {
                Step::Fail(syn(tok, "expected `var`, found `"@ + w + "`"@))
            }
        },
        St::Definition => {
            if spec_is_identifier(w) {
                if w.len() > MAX_IDENTIFIER_LENGTH as nat {
                    Step::Fail(sem(tok, "identifier can't be longer than 8 characters"@))
                } else if spec_is_keyword(wl) {
                    Step::Fail(sem(tok, "identifier can't be a reserved word"@))
                } else if ctx.pending.contains(wl) || has_key(ctx.table, wl) {
                    Step::Fail(sem(tok, "identifier `"@ + wl + "` already taken"@))
                } else {
                    Step::Next(Ctx { state: St::Identifier, pending: ctx.pending.push(wl), acc, ..ctx })
                }
            } else {
                Step::Fail(syn(tok, "`"@ + w + "` should be a valid identifier"@))
            }
        },
        St::Identifier => {
            if w == ","@ {
                Step::Next(Ctx { state: St::Definition, acc, ..ctx })
            } else if w == ":"@ {
                Step::Next(Ctx { state: St::Type, acc, ..ctx })
            } else {
                Step::Fail(syn(tok, "`"@ + w + "` should be either comma or colon"@))
            }
        },
        St::Type => {
            if spec_is_simple_type(wl) {
                Step::Next(
                    Ctx {
                        state: St::SimpleType,
                        table: bind(ctx.table, ctx.pending, wl),
                        pending: Seq::empty(),
                        acc,
                        ..ctx
                    },
                )
            } else if wl == "array"@ {
                Step::Next(Ctx { state: St::Array, collecting: true, acc: acc + w, ..ctx })
            } else {
                Step::Fail(syn(tok, "`"@ + w + "` should be a valid type keyword: byte, word, integer, etc."@))
            }
        },
        St::SimpleType => {
            if w == ","@ {
                Step::Next(Ctx { state: St::Definition, acc, ..ctx })
            } else if w == ";"@ {
                Step::Done(ctx.table)
            } else {
                Step::Fail(syn(tok, "`"@ + w + "` should be either comma or semicolon"@))
            }
        },
        St::Array => {
            if w == "["@ {
                Step::Next(Ctx { state: St::RangesStart, acc, ..ctx })
            } else {
                Step::Fail(syn(tok, "expected `[`, found `"@ + w + "`"@))
            }
        },
        St::RangesStart => {
            if spec_is_integer(w) {
                if !spec_in_range(w) {
                    Step::Fail(sem(tok, "integer constant should be in range [-32768, 32767], actual: "@ + w))
                } else {
                    Step::Next(
                        Ctx { state: St::FirstRangeBeginValue, left: str_int(w), acc, ..ctx },
                    )
                }
            } else {
                Step::Fail(syn(tok, "expected integer constant (start of a range), found `"@ + w + "`"@))
            }
        },
        St::FirstRangeBeginValue => {
            if w == ":"@ {
                Step::Next(Ctx { state: St::FirstRangeDelimiter, acc, ..ctx })
            } else {
                Step::Fail(syn(tok, "expected `:`, found `"@ + w + "`"@))
            }
        },
        St::FirstRangeDelimiter => {
            if spec_is_integer(w) {
                if !spec_in_range(w) {
                    Step::Fail(sem(tok, "integer constant should be in range [-32768, 32767], actual: "@ + w))
                } else if str_int(w) <= ctx.left {
                    Step::Fail(sem(tok, "first bound of range should be less than second"@))
                } else {
                    Step::Next(Ctx { state: St::FirstRangeEndValue, acc, ..ctx })
                }
            } else {
                Step::Fail(syn(tok, "unexpected token: expected integer constant, found `"@ + w + "`"@))
            }
        },
        St::FirstRangeEndValue => {
            if w == ","@ {
                Step::Next(Ctx { state: St::RangesDelimiter, acc, ..ctx })
            } else if w == "]"@ {
                Step::Next(Ctx { state: St::RangesEnd, acc, ..ctx })
            } else {
                Step::Fail(syn(tok, "unexpected token: expected `,`, found `"@ + w + "`"@))
            }
        },
        St::RangesDelimiter => {
            if spec_is_integer(w) {
                if !spec_in_range(w) {
                    Step::Fail(sem(tok, "integer constant should be in range [-32768, 32767], actual: "@ + w))
                } else {
                    Step::Next(
                        Ctx { state: St::SecondRangeBeginValue, left: str_int(w), acc, ..ctx },
                    )
                }
            } else {
                Step::Fail(syn(tok, "expected integer constant, found `"@ + w + "`"@))
            }
        },
        St::SecondRangeBeginValue => {
            if w == ":"@ {
                Step::Next(Ctx { state: St::SecondRangeDelimiter, acc, ..ctx })
            } else {
                Step::Fail(syn(tok, "expected `:`, found `"@ + w + "`"@))
            }
        },
        St::SecondRangeDelimiter => {
            if spec_is_integer(w) {
                if !spec_in_range(w) {
                    Step::Fail(sem(tok, "integer constant should be in range [-32768, 32767], actual: "@ + w))
                } else if str_int(w) <= ctx.left {
                    Step::Fail(sem(tok, "first bound of range should be less than second"@))
                } else {
                    Step::Next(Ctx { state: St::SecondRangeEndValue, acc, ..ctx })
                }
            } else {
                Step::Fail(syn(tok, "expected integer constant, found `"@ + w + "`"@))
            }
        },
        St::SecondRangeEndValue => {
            if w == "]"@ {
                Step::Next(Ctx { state: St::RangesEnd, acc, ..ctx })
            } else {
                Step::Fail(syn(tok, "expected `]`, found `"@ + w + "`"@))
            }
        },
        St::RangesEnd => {
            if wl == "of"@ {
                Step::Next(Ctx { state: St::Of, acc, ..ctx })
            } else {
                Step::Fail(syn(tok, "expected `of`, found `"@ + w + "`"@))
            }
        },
        St::Of => {
            if spec_is_simple_type(wl) {
                Step::Next(
                    Ctx {
                        state: St::ArrayType,
                        table: bind(ctx.table, ctx.pending, acc),
                        pending: Seq::empty(),
                        collecting: false,
                        acc: Seq::empty(),
                        ..ctx
                    },
                )
            } else {
                Step::Fail(syn(tok, "expected one of the simple types (byte, integer, real, etc.), found `"@ + w + "`"@))
            }
        },
        St::ArrayType => {
            if w == ";"@ {
                Step::Done(ctx.table)
            } else if w == ","@ {
                Step::Next(Ctx { state: St::Definition, acc, ..ctx })
            } else {
                Step::Fail(syn(tok, "expected `;` or `,`, found `"@ + w + "`"@))
            }
        },
    }
}

/// The error raised when the token stream ends while the machine still
/// expects more: at position 0 for an empty stream, else one character past
/// the last token, with span length 1.
pub open spec fn eos_error(toks: Seq<TokenView>) -> ErrorView {
    if toks.len() == 0 {
        ErrorView {
            kind: ErrorKind::Syntax,
            position: 0,
            token_length: 0,
            message: "var declaration should start with the `var` keyword"@,
        }
    } else {
        ErrorView {
            kind: ErrorKind::Syntax,
            position: toks.last().position + toks.last().word.len(),
            token_length: 1,
            message: "expected semicolon at the end"@,
        }
    }
}

/// The outcome of running the automaton from context `ctx` over `toks[i..]`:
/// the table entries bound when the machine accepts, or the first error.
pub open spec fn run(toks: Seq<TokenView>, i: nat, ctx: Ctx) -> Result<
    Seq<(Seq<char>, Seq<char>)>,
    ErrorView,
>
    decreases toks.len() - i,
{
    if i >= toks.len() {
        Err(eos_error(toks))
    } else {
        match spec_step(ctx, toks[i as int]) {
            Step::Next(c) => run(toks, (i + 1) as nat, c),
            Step::Done(t) => Ok(t),
            Step::Fail(e) => Err(e),
        }
    }
}

/// The outcome the validator owes on `toks`: the symbol-table entries on
/// success, or the first violation in left-to-right scan order.
pub open spec fn spec_analyze(toks: Seq<TokenView>) -> Result<
    Seq<(Seq<char>, Seq<char>)>,
    ErrorView,
> {
    run(toks, 0, init_ctx())
}

/// Idempotence: the validator's outcome is a function of the token views
/// alone, so re-running it on the same token sequence yields the same symbol
/// table, or the same error, deterministically.
pub proof fn lemma_analyze_deterministic(a: Seq<TokenView>, b: Seq<TokenView>)
    requires
        a == b,
    ensures
        spec_analyze(a) == spec_analyze(b),
{
}

/// The views of a sequence of pending identifier names.
pub open spec fn pending_views(s: Seq<String>) -> Seq<Seq<char>> {
    s.map_values(|p: String| p@)
}

fn pending_contains(v: &Vec<String>, s: &str) -> (r: bool)
    ensures
        r == pending_views(v@).contains(s@),
{
    let n = v.len();
    for i in 0..n
        invariant
            n == v@.len(),
            forall|j: int| 0 <= j < i ==> pending_views(v@)[j] != s@,
    {
        if str_eq(v[i].as_str(), s) {
            assert(pending_views(v@)[i as int] == s@);
            return true;
        }
    }
    assert(!pending_views(v@).contains(s@));
    false
}

fn table_contains_key(v: &Vec<(String, String)>, s: &str) -> (r: bool)
    ensures
        r == has_key(pairs_of(v@), s@),
{
    let n = v.len();
    for i in 0..n
        invariant
            n == v@.len(),
            forall|j: int| 0 <= j < i ==> (#[trigger] pairs_of(v@)[j]).0 != s@,
    {
        if str_eq(v[i].0.as_str(), s) {
            assert((pairs_of(v@)[i as int]).0 == s@);
            return true;
        }
    }
    false
}

/// A message made of a fixed frame around one lexeme.
fn quoted_msg(prefix: &str, word: &str, suffix: &str) -> (m: String)
    ensures
        m@ == prefix@ + word@ + suffix@,
{
    let mut m = String::from_str(prefix);
    m.append(word);
    m.append(suffix);
    m
}

/// The validator's working state, the executable twin of [`Ctx`].
struct Validator {
    state: St,
    table: Vec<(String, String)>,
    pending: Vec<String>,
    collecting: bool,
    acc: String,
    left: i16,
}

impl View for Validator {
    type V = Ctx;

    closed spec fn view(&self) -> Ctx {
        Ctx {
            state: self.state,
            table: pairs_of(self.table@),
            pending: pending_views(self.pending@),
            collecting: self.collecting,
            acc: self.acc@,
            left: self.left as int,
        }
    }
}

/// What one executable transition reports back to the driving loop.
enum Outcome {
    Continue,
    Done,
    Fail(LexerError),
}

impl Validator {
    fn new() -> (v: Validator)
        ensures
            v@ == init_ctx(),
            ctx_wf(v@),
    {
        let v = Validator {
            state: St::Start,
            table: Vec::new(),
            pending: Vec::new(),
            collecting: false,
            acc: String::new(),
            left: 0,
        };
        proof {
            assert(pairs_of(v.table@) =~= Seq::<(Seq<char>, Seq<char>)>::empty());
            assert(pending_views(v.pending@) =~= Seq::<Seq<char>>::empty());
        }
        v
    }

    /// Binds every pending name to the descriptor `desc` and clears the
    /// pending set.
    fn bind_pending(&mut self, desc: &str)
        requires
            ctx_wf(old(self)@),
        ensures
            final(self)@ == (Ctx {
                table: bind(old(self)@.table, old(self)@.pending, desc@),
                pending: Seq::<Seq<char>>::empty(),
                ..old(self)@
            }),
            ctx_wf(final(self)@),
    {
        let ghost old_table = pairs_of(self.table@);
        let ghost pend = pending_views(self.pending@);
        let n = self.pending.len();
        let mut j: usize = 0;
        while j < n
            invariant
                ctx_wf(old(self)@),
                n == self.pending@.len(),
                j <= n,
                old_table == pairs_of(old(self).table@),
                pend == pending_views(old(self).pending@),
                self.pending@ == old(self).pending@,
                self.state == old(self).state,
                self.collecting == old(self).collecting,
                self.acc@ == old(self).acc@,
                self.left == old(self).left,
                pairs_of(self.table@) == old_table + pend.take(j as int).map_values(
                    |p: Seq<char>| (p, desc@),
                ),
            decreases n - j,
        {
            let name = self.pending[j].clone();
            let ty = String::from_str(desc);
            let ghost pre = pairs_of(self.table@);
            self.table.push((name, ty));
            proof {
                assert(pairs_of(self.table@) =~= pre + seq![(pend[j as int], desc@)]);
                assert(pend.take(j as int + 1).map_values(|p: Seq<char>| (p, desc@)) =~= pend.take(
                    j as int,
                ).map_values(|p: Seq<char>| (p, desc@)) + seq![(pend[j as int], desc@)]);
                assert(pairs_of(self.table@) =~= old_table + pend.take(j as int + 1).map_values(
                    |p: Seq<char>| (p, desc@),
                ));
            }
            j += 1;
        }
        self.pending = Vec::new();
        proof {
            assert(pend.take(n as int) =~= pend);
            assert(pending_views(self.pending@) =~= Seq::<Seq<char>>::empty());
            let t = self@.table;
            let ot = old(self)@.table;
            let p = old(self)@.pending;
            assert(t == bind(ot, p, desc@));
            assert forall|a: int, b: int| 0 <= a < b < t.len() implies (#[trigger] t[a]).0 != (
            #[trigger] t[b]).0 by {
                if b >= ot.len() {
                    assert(t[b].0 == p[b - ot.len()]);
                    if a >= ot.len() {
                        assert(t[a].0 == p[a - ot.len()]);
                    }
                }
            }
        }
    }

    /// One transition of the automaton on the token `tok`, mirroring
    /// [`spec_step`] exactly.
    fn step(&mut self, tok: &Token) -> (out: Outcome)
        requires
            ctx_wf(old(self)@),
        ensures
            match spec_step(old(self)@, tok@) {
                Step::Next(c) => out is Continue && final(self)@ == c && ctx_wf(final(self)@),
                Step::Done(t) => out is Done && final(self)@.table == t && keys_distinct(t),
                Step::Fail(e) => out matches Outcome::Fail(err) && err@ == e,
            },
    {
        let wl = to_lower(tok.word().as_str());
        let ghost spec_acc = if old(self)@.collecting {
            if lower_of(tok@.word) == "of"@ {
                old(self)@.acc + " "@ + tok@.word + " "@
            } else {
                old(self)@.acc + tok@.word
            }
        } else {
            old(self)@.acc
        };
        if self.collecting {
            if str_eq(wl.as_str(), "of") {
                self.acc.append(" ");
                self.acc.append(tok.word().as_str());
                self.acc.append(" ");
            } else {
                self.acc.append(tok.word().as_str());
            }
        }
        assert(self.acc@ == spec_acc);
        assert(ctx_wf(self@));
        match self.state {
            St::Start => {
                if str_eq(wl.as_str(), "var") {
                    self.state = St::Definition;
                    Outcome::Continue
                } else {
                    Outcome::Fail(
                        LexerError::syntax_error(
                            tok.position(),
                            tok.width(),
                            quoted_msg("expected `var`, found `", tok.word().as_str(), "`").as_str(),
                        ),
                    )
                }
            },
            St::Definition => {
                if is_identifier(tok.word().as_str()) {
                    if tok.width() > MAX_IDENTIFIER_LENGTH {
                        Outcome::Fail(
                            LexerError::semantic_error(
                                tok.position(),
                                tok.width(),
                                "identifier can't be longer than 8 characters",
                            ),
                        )
                    } else if is_keyword(wl.as_str()) {
                        Outcome::Fail(
                            LexerError::semantic_error(
                                tok.position(),
                                tok.width(),
                                "identifier can't be a reserved word",
                            ),
                        )
                    } else if pending_contains(&self.pending, wl.as_str()) || table_contains_key(
                        &self.table,
                        wl.as_str(),
                    ) {
                        Outcome::Fail(
                            LexerError::semantic_error(
                                tok.position(),
                                tok.width(),
                                quoted_msg("identifier `", wl.as_str(), "` already taken").as_str(),
                            ),
                        )
                    } else {
                        let ghost pre_pending = pending_views(self.pending@);
                        self.pending.push(wl);
                        proof {
                            assert(pending_views(self.pending@) =~= pre_pending.push(
                                lower_of(tok@.word),
                            ));
                            let p = self@.pending;
                            assert forall|a: int, b: int| 0 <= a < b < p.len() implies
                                #[trigger] p[a] != #[trigger] p[b] by {
                                if b == p.len() - 1 {
                                    assert(!pre_pending.contains(p[b]));
                                    assert(pre_pending[a] != p[b]);
                                }
                            }
                            let t = self@.table;
                            assert forall|a: int, b: int|
                                0 <= a < t.len() && 0 <= b < p.len() implies (#[trigger] t[a]).0
                                != #[trigger] p[b] by {
                                if b == p.len() - 1 {
                                    assert(!has_key(t, p[b]));
                                }
                            }
                        }
                        self.state = St::Identifier;
                        Outcome::Continue
                    }
                } else {
                    Outcome::Fail(
                        LexerError::syntax_error(
                            tok.position(),
                            tok.width(),
                            quoted_msg("`", tok.word().as_str(), "` should be a valid identifier").as_str(),
                        ),
                    )
                }
            },
            St::Identifier => {
                if str_eq(tok.word().as_str(), ",") {
                    self.state = St::Definition;
                    Outcome::Continue
                } else if str_eq(tok.word().as_str(), ":") {
                    self.state = St::Type;
                    Outcome::Continue
                } else {
                    Outcome::Fail(
                        LexerError::syntax_error(
                            tok.position(),
                            tok.width(),
                            quoted_msg("`", tok.word().as_str(), "` should be either comma or colon").as_str(),
                        ),
                    )
                }
            },
            St::Type => {
                if is_simple_type(wl.as_str()) {
                    self.bind_pending(wl.as_str());
                    self.state = St::SimpleType;
                    Outcome::Continue
                } else if str_eq(wl.as_str(), "array") {
                    self.collecting = true;
                    self.acc.append(tok.word().as_str());
                    self.state = St::Array;
                    Outcome::Continue
                } else {
                    Outcome::Fail(
                        LexerError::syntax_error(
                            tok.position(),
                            tok.width(),
                            quoted_msg("`", tok.word().as_str(), "` should be a valid type keyword: byte, word, integer, etc.").as_str(),
                        ),
                    )
                }
            },
            St::SimpleType => {
                if str_eq(tok.word().as_str(), ",") {
                    self.state = St::Definition;
                    Outcome::Continue
                } else if str_eq(tok.word().as_str(), ";") {
                    Outcome::Done
                } else {
                    Outcome::Fail(
                        LexerError::syntax_error(
                            tok.position(),
                            tok.width(),
                            quoted_msg("`", tok.word().as_str(), "` should be either comma or semicolon").as_str(),
                        ),
                    )
                }
            },
            St::Array => {
                if str_eq(tok.word().as_str(), "[") {
                    self.state = St::RangesStart;
                    Outcome::Continue
                } else {
                    Outcome::Fail(
                        LexerError::syntax_error(tok.position(), tok.width(), quoted_msg("expected `[`, found `", tok.word().as_str(), "`").as_str()),
                    )
                }
            },
            St::RangesStart => {
                if is_integer(tok.word().as_str()) {
                    match parse_in_range(tok.word().as_str()) {
                        Some(v) => {
                            self.left = v;
                            self.state = St::FirstRangeBeginValue;
                            Outcome::Continue
                        },
                        None => Outcome::Fail(
                            LexerError::integer_out_of_range(tok.position(), tok.word().as_str()),
                        ),
                    }
                } else {
                    Outcome::Fail(
                        LexerError::syntax_error(
                            tok.position(),
                            tok.width(),
                            quoted_msg("expected integer constant (start of a range), found `", tok.word().as_str(), "`").as_str(),
                        ),
                    )
                }
            },
            St::FirstRangeBeginValue => {
                if str_eq(tok.word().as_str(), ":") {
                    self.state = St::FirstRangeDelimiter;
                    Outcome::Continue
                } else {
                    Outcome::Fail(
                        LexerError::syntax_error(tok.position(), tok.width(), quoted_msg("expected `:`, found `", tok.word().as_str(), "`").as_str()),
                    )
                }
            },
            St::FirstRangeDelimiter => {
                if is_integer(tok.word().as_str()) {
                    match parse_in_range(tok.word().as_str()) {
                        Some(v) => {
                            if v <= self.left {
                                Outcome::Fail(
                                    LexerError::semantic_error(
                                        tok.position(),
                                        tok.width(),
                                        "first bound of range should be less than second",
                                    ),
                                )
                            } else {
                                self.state = St::FirstRangeEndValue;
                                Outcome::Continue
                            }
                        },
                        None => Outcome::Fail(
                            LexerError::integer_out_of_range(tok.position(), tok.word().as_str()),
                        ),
                    }
                } else {
                    Outcome::Fail(
                        LexerError::syntax_error(
                            tok.position(),
                            tok.width(),
                            quoted_msg("unexpected token: expected integer constant, found `", tok.word().as_str(), "`").as_str(),
                        ),
                    )
                }
            },
            St::FirstRangeEndValue => {
                if str_eq(tok.word().as_str(), ",") {
                    self.state = St::RangesDelimiter;
                    Outcome::Continue
                } else if str_eq(tok.word().as_str(), "]") {
                    self.state = St::RangesEnd;
                    Outcome::Continue
                } else {
                    Outcome::Fail(
                        LexerError::syntax_error(
                            tok.position(),
                            tok.width(),
                            quoted_msg("unexpected token: expected `,`, found `", tok.word().as_str(), "`").as_str(),
                        ),
                    )
                }
            },
            St::RangesDelimiter => {
                if is_integer(tok.word().as_str()) {
                    match parse_in_range(tok.word().as_str()) {
                        Some(v) => {
                            self.left = v;
                            self.state = St::SecondRangeBeginValue;
                            Outcome::Continue
                        },
                        None => Outcome::Fail(
                            LexerError::integer_out_of_range(tok.position(), tok.word().as_str()),
                        ),
                    }
                } else {
                    Outcome::Fail(
                        LexerError::syntax_error(
                            tok.position(),
                            tok.width(),
                            quoted_msg("expected integer constant, found `", tok.word().as_str(), "`").as_str(),
                        ),
                    )
                }
            },
            St::SecondRangeBeginValue => {
                if str_eq(tok.word().as_str(), ":") {
                    self.state = St::SecondRangeDelimiter;
                    Outcome::Continue
                } else {
                    Outcome::Fail(
                        LexerError::syntax_error(tok.position(), tok.width(), quoted_msg("expected `:`, found `", tok.word().as_str(), "`").as_str()),
                    )
                }
            },
            St::SecondRangeDelimiter => {
                if is_integer(tok.word().as_str()) {
                    match parse_in_range(tok.word().as_str()) {
                        Some(v) => {
                            if v <= self.left {
                                Outcome::Fail(
                                    LexerError::semantic_error(
                                        tok.position(),
                                        tok.width(),
                                        "first bound of range should be less than second",
                                    ),
                                )
                            } else {
                                self.state = St::SecondRangeEndValue;
                                Outcome::Continue
                            }
                        },
                        None => Outcome::Fail(
                            LexerError::integer_out_of_range(tok.position(), tok.word().as_str()),
                        ),
                    }
                } else {
                    Outcome::Fail(
                        LexerError::syntax_error(
                            tok.position(),
                            tok.width(),
                            quoted_msg("expected integer constant, found `", tok.word().as_str(), "`").as_str(),
                        ),
                    )
                }
            },
            St::SecondRangeEndValue => {
                if str_eq(tok.word().as_str(), "]") {
                    self.state = St::RangesEnd;
                    Outcome::Continue
                } else {
                    Outcome::Fail(
                        LexerError::syntax_error(tok.position(), tok.width(), quoted_msg("expected `]`, found `", tok.word().as_str(), "`").as_str()),
                    )
                }
            },
            St::RangesEnd => {
                if str_eq(wl.as_str(), "of") {
                    self.state = St::Of;
                    Outcome::Continue
                } else {
                    Outcome::Fail(
                        LexerError::syntax_error(tok.position(), tok.width(), quoted_msg("expected `of`, found `", tok.word().as_str(), "`").as_str()),
                    )
                }
            },
            St::Of => {
                if is_simple_type(wl.as_str()) {
                    let desc = self.acc.clone();
                    self.bind_pending(desc.as_str());
                    self.collecting = false;
                    self.acc = String::new();
                    self.state = St::ArrayType;
                    Outcome::Continue
                } else {
                    Outcome::Fail(
                        LexerError::syntax_error(
                            tok.position(),
                            tok.width(),
                            quoted_msg("expected one of the simple types (byte, integer, real, etc.), found `", tok.word().as_str(), "`").as_str(),
                        ),
                    )
                }
            },
            St::ArrayType => {
                if str_eq(tok.word().as_str(), ";") {
                    Outcome::Done
                } else if str_eq(tok.word().as_str(), ",") {
                    self.state = St::Definition;
                    Outcome::Continue
                } else {
                    Outcome::Fail(
                        LexerError::syntax_error(tok.position(), tok.width(), quoted_msg("expected `;` or `,`, found `", tok.word().as_str(), "`").as_str()),
                    )
                }
            },
        }
    }

    /// Hands the bound entries over once the machine has accepted.
    fn into_table(self) -> (t: Vec<(String, String)>)
        ensures
            pairs_of(t@) == self@.table,
    {
        self.table
    }
}

/// Validates one `var` declaration given as a token sequence. On success the
/// returned symbol table binds every declared name, case-normalized, to its
/// resolved type descriptor; on failure the returned error is the first
/// violation in left-to-right scan order, positioned at the offending lexeme.
/// The result is exactly what [`spec_analyze`] computes on the token views.
pub fn analyze(tokens: Vec<Token>) -> (r: Result<SymbolTable, LexerError>)
    ensures
        match r {
            Ok(table) => {
                &&& spec_analyze(token_views(tokens@)) matches Ok(t)
                &&& table.pairs() == t
                &&& table.wf()
            },
            Err(e) => spec_analyze(token_views(tokens@)) matches Err(ev) && e@ == ev,
        },
{
    let ghost toks = token_views(tokens@);
    let mut v = Validator::new();
    let mut i: usize = 0;
    while i < tokens.len()
        invariant
            toks == token_views(tokens@),
            i <= tokens.len(),
            ctx_wf(v@),
            run(toks, i as nat, v@) == spec_analyze(toks),
        decreases tokens.len() - i,
    {
        let ghost pre = v@;
        proof {
            assert(toks[i as int] == tokens@[i as int]@);
        }
        match v.step(&tokens[i]) {
            Outcome::Continue => {
                i += 1;
            },
            Outcome::Done => {
                let table = SymbolTable::from_entries(v.into_table());
                proof {
                    assert(run(toks, i as nat, pre) is Ok);
                }
                return Ok(table);
            },
            Outcome::Fail(e) => {
                proof {
                    assert(run(toks, i as nat, pre) is Err);
                }
                return Err(e);
            },
        }
    }
    proof {
        assert(run(toks, i as nat, v@) == Err::<Seq<(Seq<char>, Seq<char>)>, ErrorView>(
            eos_error(toks),
        ));
    }
    if tokens.len() == 0 {
        return Err(
            LexerError::syntax_error(0, 0, "var declaration should start with the `var` keyword"),
        );
    }
    let last = &tokens[tokens.len() - 1];
    proof {
        use_type_invariant(last);
        assert(toks.last() == last@);
    }
    Err(
        LexerError::syntax_error(
            last.position() + last.width(),
            1,
            "expected semicolon at the end",
        ),
    )
}

} // verus!
