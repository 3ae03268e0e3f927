//! Tokenizing a preprocessed line: split on runs of whitespace, then strip
//! a trailing `&` token, which marks background execution.
use vstd::prelude::*;

use crate::preprocess::{spec_expand, spec_preprocess, spec_trim};
use crate::text::{char_is_whitespace, spec_whitespace, str_eq};

verus! {

/// Length of the longest prefix free of whitespace: the first token.
pub open spec fn tok_len(s: Seq<char>) -> nat
    decreases s.len(),
{
    if s.len() > 0 && !spec_whitespace(s[0]) {
        (1 + tok_len(s.drop_first())) as nat
    } else {
        0
    }
}

proof fn lemma_tok_len_le(s: Seq<char>)
    ensures
        tok_len(s) <= s.len(),
    decreases s.len(),
{
    if s.len() > 0 && !spec_whitespace(s[0]) {
        lemma_tok_len_le(s.drop_first());
    }
}

proof fn lemma_tok_len_split(s: Seq<char>, k: int)
    requires
        0 <= k <= s.len(),
        forall|m: int| 0 <= m < k ==> !spec_whitespace(s[m]),
        k == s.len() || spec_whitespace(s[k]),
    ensures
        tok_len(s) == k,
    decreases k,
{
    if k > 0 {
        assert(forall|m: int| 0 <= m < k - 1 ==> s.drop_first()[m] == s[m + 1]);
        lemma_tok_len_split(s.drop_first(), k - 1);
    }
}

/// The whitespace-separated tokens of a line, in order. Tokens are the
/// maximal runs of non-whitespace characters; whitespace itself never
/// reaches a token.
pub open spec fn spec_tokens(s: Seq<char>) -> Seq<Seq<char>>
    decreases s.len(),
    via spec_tokens_decreases
{
    if s.len() == 0 {
        Seq::empty()
    } else if spec_whitespace(s[0]) {
        spec_tokens(s.skip(1))
    } else {
        let k = tok_len(s) as int;
        seq![s.subrange(0, k)] + spec_tokens(s.skip(k))
    }
}

#[via_fn]
proof fn spec_tokens_decreases(s: Seq<char>) {
    if s.len() > 0 && !spec_whitespace(s[0]) {
        lemma_tok_len_le(s);
    }
}

fn tok_scan(s: &str, start: usize) -> (j: usize)
    requires
        start < s@.len(),
        !spec_whitespace(s@[start as int]),
    ensures
        start < j <= s@.len(),
        j - start == tok_len(s@.skip(start as int)),
        forall|k: int| start <= k < j ==> !spec_whitespace(s@[k]),
{
    let len = s.unicode_len();
    let mut j: usize = start;
    while j < len
        invariant
            start <= j <= len,
            len == s@.len(),
            start < len,
            !spec_whitespace(s@[start as int]),
            forall|k: int| start <= k < j ==> !spec_whitespace(s@[k]),
        decreases len - j,
    {
        let c = s.get_char(j);
        if char_is_whitespace(c) {
            proof {
                assert(c == s@[j as int]);
                assert(spec_whitespace(s@[j as int]));
                assert(j != start);
                assert(forall|m: int|
                    0 <= m < s@.skip(start as int).len() ==> s@.skip(start as int)[m] == s@[m
                        + start]);
                lemma_tok_len_split(s@.skip(start as int), j - start);
            }
            return j;
        }
        j += 1;
    }
    proof {
        assert(forall|m: int|
            0 <= m < s@.skip(start as int).len() ==> s@.skip(start as int)[m] == s@[m + start]);
        lemma_tok_len_split(s@.skip(start as int), j - start);
    }
    j
}

/// Split a line into its whitespace-separated tokens.
pub fn tokenize(s: &str) -> (tokens: Vec<String>)
    ensures
        tokens.deep_view() == spec_tokens(s@),
{
    let len = s.unicode_len();
    let mut tokens: Vec<String> = Vec::new();
    proof {
        assert(s@.skip(0) =~= s@);
        assert(tokens.deep_view() + spec_tokens(s@.skip(0)) =~= spec_tokens(s@));
    }
    let mut i: usize = 0;
    while i < len
        invariant
            i <= len,
            len == s@.len(),
            tokens.deep_view() + spec_tokens(s@.skip(i as int)) == spec_tokens(s@),
        decreases len - i,
    {
        let ghost t = s@.skip(i as int);
        let ghost before = tokens.deep_view();
        let c = s.get_char(i);
        assert(t[0] == c);
        if char_is_whitespace(c) {
            proof {
                assert(t.skip(1) =~= s@.skip(i as int + 1));
            }
            i += 1;
        } else {
            let j = tok_scan(s, i);
            proof {
                assert(tok_len(t) == j - i);
                assert(t.subrange(0, (j - i) as int) =~= s@.subrange(i as int, j as int));
                assert(t.skip((j - i) as int) =~= s@.skip(j as int));
                assert(spec_tokens(t) == seq![s@.subrange(i as int, j as int)] + spec_tokens(
                    s@.skip(j as int),
                ));
            }
            let tok = s.substring_char(i, j);
            tokens.push(String::from_str(tok));
            proof {
                assert(tokens.deep_view() =~= before + seq![s@.subrange(i as int, j as int)]);
                assert(tokens.deep_view() + spec_tokens(s@.skip(j as int)) =~= before
                    + spec_tokens(t));
            }
            i = j;
        }
    }
    proof {
        assert(s@.skip(len as int) =~= Seq::<char>::empty());
        assert(tokens.deep_view() + spec_tokens(s@.skip(len as int)) =~= tokens.deep_view());
    }
    tokens
}

/// What the tokenizer guarantees of every token it yields: nonempty, and
/// free of whitespace characters.
pub open spec fn spec_wsfree_token(t: Seq<char>) -> bool {
    t.len() > 0 && forall|k: int| 0 <= k < t.len() ==> !spec_whitespace(t[k])
}

proof fn lemma_tok_prefix(s: Seq<char>)
    ensures
        forall|m: int| 0 <= m < tok_len(s) ==> !spec_whitespace(s[m]),
    decreases s.len(),
{
    if s.len() > 0 && !spec_whitespace(s[0]) {
        lemma_tok_len_le(s);
        lemma_tok_prefix(s.drop_first());
        assert forall|m: int| 0 <= m < tok_len(s) implies !spec_whitespace(s[m]) by {
            if m > 0 {
                assert(m - 1 < tok_len(s.drop_first()));
                assert(s.drop_first()[m - 1] == s[m]);
            }
        }
    }
}

/// Law: every token of a split line is nonempty and holds no whitespace
/// character.
pub proof fn lemma_tokens_wsfree(s: Seq<char>)
    ensures
        forall|i: int|
            0 <= i < spec_tokens(s).len() ==> spec_wsfree_token(#[trigger] spec_tokens(s)[i]),
    decreases s.len(),
{
    if s.len() == 0 {
    } else if spec_whitespace(s[0]) {
        lemma_tokens_wsfree(s.skip(1));
        assert(spec_tokens(s) == spec_tokens(s.skip(1)));
        assert forall|i: int|
            0 <= i < spec_tokens(s).len() implies spec_wsfree_token(
            #[trigger] spec_tokens(s)[i],
        ) by {
            assert(spec_tokens(s)[i] == spec_tokens(s.skip(1))[i]);
        }
    } else {
        let k = tok_len(s) as int;
        lemma_tok_len_le(s);
        lemma_tok_prefix(s);
        lemma_tokens_wsfree(s.skip(k));
        assert(spec_wsfree_token(s.subrange(0, k)));
        assert forall|i: int|
            0 <= i < spec_tokens(s).len() implies spec_wsfree_token(
            #[trigger] spec_tokens(s)[i],
        ) by {
            if i > 0 {
                assert(spec_tokens(s)[i] == spec_tokens(s.skip(k))[i - 1]);
            }
        }
    }
}

/// Whether a token sequence ends in the background marker, a lone `&`.
pub open spec fn spec_background(toks: Seq<Seq<char>>) -> bool {
    toks.len() > 0 && toks.last() == seq!['&']
}

/// The token sequence with a trailing background marker removed.
pub open spec fn spec_strip_background(toks: Seq<Seq<char>>) -> Seq<Seq<char>> {
    if spec_background(toks) {
        toks.drop_last()
    } else {
        toks
    }
}

/// A parsed command line: the command name, its arguments in order, and
/// whether it is to run in the background.
pub struct CommandLine {
    pub name: String,
    pub args: Vec<String>,
    pub background: bool,
}

/// Tokenize a preprocessed line and read off the command. `None` when no
/// command remains: the line held only whitespace, or only the background
/// marker. Law: a line whose last token is exactly `&` parses with the
/// background flag set and that token gone; any other line parses with the
/// flag clear and its tokens intact.
pub fn parse_line(line: &str) -> (r: Option<CommandLine>)
    ensures
        match r {
            Some(cmd) => {
                let stripped = spec_strip_background(spec_tokens(line@));
                &&& stripped.len() > 0
                &&& cmd.background == spec_background(spec_tokens(line@))
                &&& cmd.name@ == stripped[0]
                &&& cmd.args.deep_view() == stripped.skip(1)
                &&& spec_wsfree_token(cmd.name@)
                &&& forall|i: int|
                    0 <= i < cmd.args.deep_view().len() ==> spec_wsfree_token(
                        #[trigger] cmd.args.deep_view()[i],
                    )
            },
            None => spec_strip_background(spec_tokens(line@)).len() == 0,
        },
{
    let mut tokens = tokenize(line);
    let ghost toks = spec_tokens(line@);
    if tokens.len() == 0 {
        return None;
    }
    let background = str_eq(tokens[tokens.len() - 1].as_str(), "&");
    proof {
        reveal_strlit("&");
        assert(tokens.deep_view()[toks.len() - 1] == tokens@[toks.len() - 1]@);
        assert(background == (toks.last() == "&"@));
        assert("&"@ =~= seq!['&']);
    }
    if background {
        tokens.pop();
        proof {
            assert(tokens.deep_view() =~= toks.drop_last());
        }
    }
    if tokens.len() == 0 {
        return None;
    }
    let ghost stripped = spec_strip_background(toks);
    assert(tokens.deep_view() == stripped);
    proof {
        lemma_tokens_wsfree(line@);
        assert forall|i: int| 0 <= i < stripped.len() implies spec_wsfree_token(
            #[trigger] stripped[i],
        ) by {
            assert(stripped[i] == toks[i]);
        }
    }
    let name = tokens.remove(0);
    proof {
        assert(name@ == stripped[0]);
        assert(tokens.deep_view() =~= stripped.skip(1));
        assert forall|i: int| 0 <= i < tokens.deep_view().len() implies spec_wsfree_token(
            #[trigger] tokens.deep_view()[i],
        ) by {
            assert(tokens.deep_view()[i] == stripped[i + 1]);
        }
    }
    Some(CommandLine { name, args: tokens, background })
}

/// Law: a line that exactly equals an alias trigger after trimming and
/// variable expansion is dispatched exactly as its target text: the shell
/// tokenizes the target, so the command name, the arguments and the
/// background flag equal those of the directly entered target, however the
/// trigger was spelled in the raw line.
pub proof fn lemma_alias_dispatch(
    raw: Seq<char>,
    env: Map<Seq<char>, Seq<char>>,
    aliases: Map<Seq<char>, Seq<char>>,
    trigger: Seq<char>,
)
    requires
        spec_trim(raw).len() > 0,
        spec_expand(spec_trim(raw), env) == trigger,
        aliases.contains_key(trigger),
    ensures
        spec_tokens(spec_preprocess(raw, env, aliases)) == spec_tokens(aliases[trigger]),
        spec_background(spec_tokens(spec_preprocess(raw, env, aliases))) == spec_background(
            spec_tokens(aliases[trigger]),
        ),
        spec_strip_background(spec_tokens(spec_preprocess(raw, env, aliases)))
            == spec_strip_background(spec_tokens(aliases[trigger])),
{
    crate::preprocess::lemma_alias_applies(raw, env, aliases, trigger);
}

} // verus!
