//! Splitting source text into positioned lexemes.
//!
//! One left-to-right scan: a run of consecutive alphanumeric characters
//! accumulates into one lexeme; a space flushes the pending run and is itself
//! discarded; any other character flushes the pending run and is emitted as
//! its own single-character token; end of input flushes what is left.

use vstd::prelude::*;
use vstd::string::StrSliceExecFns;

use crate::error::LexerError;
use crate::text::char_is_alphanumeric;
use crate::text::unicode_alphanumeric;
use crate::token::Token;
use crate::token::TokenView;
use crate::token::token_views;

verus! {

/// The pending run `s[cur_start..i]`, as a flushed token if it is non-empty.
pub open spec fn pending_run(s: Seq<char>, cur_start: int, i: int) -> Seq<TokenView> {
    if cur_start < i {
        seq![TokenView { word: s.subrange(cur_start, i), position: cur_start as nat }]
    } else {
        Seq::empty()
    }
}

/// The tokens cut from `s[i..]` by the scan, given that the pending run of
/// alphanumeric characters started at `cur_start`.
pub open spec fn spec_tokenize_from(s: Seq<char>, i: nat, cur_start: nat) -> Seq<TokenView>
    recommends
        cur_start <= i <= s.len(),
    decreases s.len() - i,
{
    if i >= s.len() {
        pending_run(s, cur_start as int, i as int)
    } else {
        let c = s[i as int];
        if c == ' ' {
            pending_run(s, cur_start as int, i as int) + spec_tokenize_from(
                s,
                (i + 1) as nat,
                (i + 1) as nat,
            )
        } else if !unicode_alphanumeric(c) {
            pending_run(s, cur_start as int, i as int) + seq![
                TokenView { word: seq![c], position: i },
            ] + spec_tokenize_from(s, (i + 1) as nat, (i + 1) as nat)
        } else {
            spec_tokenize_from(s, (i + 1) as nat, cur_start)
        }
    }
}

/// The tokens the tokenizer cuts from `s`.
pub open spec fn spec_tokenize(s: Seq<char>) -> Seq<TokenView> {
    spec_tokenize_from(s, 0, 0)
}

/// The texts of `toks` concatenated in order.
pub open spec fn concat_words(toks: Seq<TokenView>) -> Seq<char>
    decreases toks.len(),
{
    if toks.len() == 0 {
        Seq::empty()
    } else {
        toks[0].word + concat_words(toks.drop_first())
    }
}

/// `s` with every space character removed, other characters kept in order.
pub open spec fn without_spaces(s: Seq<char>) -> Seq<char>
    decreases s.len(),
{
    if s.len() == 0 {
        Seq::empty()
    } else if s[0] == ' ' {
        without_spaces(s.drop_first())
    } else {
        seq![s[0]] + without_spaces(s.drop_first())
    }
}

proof fn lemma_concat_words_append(a: Seq<TokenView>, b: Seq<TokenView>)
    ensures
        concat_words(a + b) == concat_words(a) + concat_words(b),
    decreases a.len(),
{
    if a.len() == 0 {
        assert(a + b =~= b);
        assert(concat_words(a) + concat_words(b) =~= concat_words(b));
    } else {
        assert((a + b).drop_first() =~= a.drop_first() + b);
        lemma_concat_words_append(a.drop_first(), b);
        assert(concat_words(a + b) =~= concat_words(a) + concat_words(b));
    }
}

proof fn lemma_concat_words_single(t: TokenView)
    ensures
        concat_words(seq![t]) == t.word,
{
    assert(seq![t].drop_first() =~= Seq::<TokenView>::empty());
    assert(concat_words(Seq::<TokenView>::empty()) == Seq::<char>::empty());
    assert(concat_words(seq![t]) =~= t.word);
}

proof fn lemma_concat_words_pending(s: Seq<char>, cur_start: int, i: int)
    requires
        0 <= cur_start <= i <= s.len(),
    ensures
        concat_words(pending_run(s, cur_start, i)) == s.subrange(cur_start, i),
{
    if cur_start < i {
        lemma_concat_words_single(
            TokenView { word: s.subrange(cur_start, i), position: cur_start as nat },
        );
    } else {
        assert(concat_words(pending_run(s, cur_start, i)) =~= s.subrange(cur_start, i));
    }
}

proof fn lemma_round_trip_from(s: Seq<char>, i: nat, cur_start: nat)
    requires
        cur_start <= i <= s.len(),
    ensures
        concat_words(spec_tokenize_from(s, i, cur_start)) == s.subrange(cur_start as int, i as int)
            + without_spaces(s.subrange(i as int, s.len() as int)),
    decreases s.len() - i,
{
    let tail = s.subrange(i as int, s.len() as int);
    if i >= s.len() {
        assert(tail.len() == 0);
        lemma_concat_words_pending(s, cur_start as int, i as int);
        assert(concat_words(spec_tokenize_from(s, i, cur_start)) =~= s.subrange(
            cur_start as int,
            i as int,
        ) + without_spaces(tail));
    } else {
        let c = s[i as int];
        let rest = s.subrange(i as int + 1, s.len() as int);
        assert(tail[0] == c);
        assert(tail.drop_first() =~= rest);
        lemma_round_trip_from(s, (i + 1) as nat, (i + 1) as nat);
        assert(s.subrange(i as int + 1, i as int + 1).len() == 0);
        if c == ' ' {
            lemma_concat_words_append(
                pending_run(s, cur_start as int, i as int),
                spec_tokenize_from(s, (i + 1) as nat, (i + 1) as nat),
            );
            lemma_concat_words_pending(s, cur_start as int, i as int);
            assert(without_spaces(tail) == without_spaces(rest));
            assert(concat_words(spec_tokenize_from(s, i, cur_start)) =~= s.subrange(
                cur_start as int,
                i as int,
            ) + without_spaces(tail));
        } else if !unicode_alphanumeric(c) {
            let single = seq![TokenView { word: seq![c], position: i }];
            lemma_concat_words_append(
                pending_run(s, cur_start as int, i as int) + single,
                spec_tokenize_from(s, (i + 1) as nat, (i + 1) as nat),
            );
            lemma_concat_words_append(pending_run(s, cur_start as int, i as int), single);
            lemma_concat_words_pending(s, cur_start as int, i as int);
            lemma_concat_words_single(TokenView { word: seq![c], position: i });
            assert(without_spaces(tail) == seq![c] + without_spaces(rest));
            assert(concat_words(spec_tokenize_from(s, i, cur_start)) =~= s.subrange(
                cur_start as int,
                i as int,
            ) + without_spaces(tail));
        } else {
            lemma_round_trip_from(s, (i + 1) as nat, cur_start);
            assert(s.subrange(cur_start as int, i as int + 1) =~= s.subrange(
                cur_start as int,
                i as int,
            ) + seq![c]);
            assert(without_spaces(tail) == seq![c] + without_spaces(rest));
            assert(concat_words(spec_tokenize_from(s, i, cur_start)) =~= s.subrange(
                cur_start as int,
                i as int,
            ) + without_spaces(tail));
        }
    }
}

/// Round trip: concatenating the texts of the tokens cut from `s`, in order,
/// recovers exactly the non-space characters of `s` in their original order.
pub proof fn lemma_tokenize_round_trip(s: Seq<char>)
    ensures
        concat_words(spec_tokenize(s)) == without_spaces(s),
{
    lemma_round_trip_from(s, 0, 0);
    assert(s.subrange(0, 0).len() == 0);
    assert(s.subrange(0, s.len() as int) =~= s);
    assert(s.subrange(0, 0) + without_spaces(s) =~= without_spaces(s));
}

/// Cuts `content` into positioned lexemes. The scan never fails: the error
/// side of the result is kept only for interface compatibility with callers
/// that also run the validator.
pub fn tokenize(content: String) -> (r: Result<Vec<Token>, LexerError>)
    ensures
        match r {
            Ok(tokens) => {
                &&& token_views(tokens@) == spec_tokenize(content@)
                &&& forall|j: int| 0 <= j < tokens@.len() ==> (#[trigger] tokens@[j]).wf()
            },
            Err(_) => false,
        },
{
    let s = content.as_str();
    let n = s.unicode_len();
    let mut tokens: Vec<Token> = Vec::new();
    let mut cur_start: usize = 0;
    let mut i: usize = 0;
    while i < n
        invariant
            n == content@.len(),
            s@ == content@,
            cur_start <= i <= n,
            token_views(tokens@) + spec_tokenize_from(content@, i as nat, cur_start as nat)
                == spec_tokenize(content@),
            forall|j: int| 0 <= j < tokens@.len() ==> (#[trigger] tokens@[j]).wf(),
        decreases n - i,
    {
        let ghost pre = tokens@;
        let c = s.get_char(i);
        if c == ' ' {
            if cur_start < i {
                tokens.push(Token::new(s.substring_char(cur_start, i), cur_start));
            }
            proof {
                assert(token_views(tokens@) =~= token_views(pre) + pending_run(
                    content@,
                    cur_start as int,
                    i as int,
                ));
                assert(token_views(tokens@) + spec_tokenize_from(
                    content@,
                    (i + 1) as nat,
                    (i + 1) as nat,
                ) =~= spec_tokenize(content@));
            }
            cur_start = i + 1;
        } else if !char_is_alphanumeric(c) {
            if cur_start < i {
                tokens.push(Token::new(s.substring_char(cur_start, i), cur_start));
            }
            tokens.push(Token::new(s.substring_char(i, i + 1), i));
            proof {
                assert(content@.subrange(i as int, i as int + 1) =~= seq![content@[i as int]]);
                assert(token_views(tokens@) =~= token_views(pre) + (pending_run(
                    content@,
                    cur_start as int,
                    i as int,
                ) + seq![TokenView { word: seq![content@[i as int]], position: i as nat }]));
                assert(token_views(tokens@) + spec_tokenize_from(
                    content@,
                    (i + 1) as nat,
                    (i + 1) as nat,
                ) =~= spec_tokenize(content@));
            }
            cur_start = i + 1;
        } else {
            proof {
                assert(spec_tokenize_from(content@, i as nat, cur_start as nat)
                    == spec_tokenize_from(content@, (i + 1) as nat, cur_start as nat));
            }
        }
        i += 1;
    }
    if cur_start < n {
        let ghost pre = tokens@;
        tokens.push(Token::new(s.substring_char(cur_start, n), cur_start));
        proof {
            assert(token_views(tokens@) =~= token_views(pre) + pending_run(
                content@,
                cur_start as int,
                n as int,
            ));
            assert(token_views(tokens@) =~= spec_tokenize(content@));
        }
    } else {
        proof {
            assert(token_views(tokens@) =~= spec_tokenize(content@));
        }
    }
    Ok(tokens)
}

} // verus!
