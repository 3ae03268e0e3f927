//! Line preprocessing: `$NAME` environment-variable expansion over a given
//! environment table, then whole-line alias substitution. The environment
//! and the alias table share one verified map type keyed by strings.
use vstd::prelude::*;

use crate::text::{
    char_is_alphanumeric, char_is_whitespace, push_char, spec_alphanumeric, spec_whitespace,
    str_eq,
};

verus! {

/// A mapping from literal strings to literal strings with unique keys, used
/// both for the environment snapshot and for the alias table.
pub struct StrMap {
    pairs: Vec<(String, String)>,
}

spec fn unique_keys(pairs: Seq<(String, String)>) -> bool {
    forall|i: int, j: int| 0 <= i < j < pairs.len() ==> pairs[i].0@ != pairs[j].0@
}

spec fn map_of(pairs: Seq<(String, String)>) -> Map<Seq<char>, Seq<char>>
    decreases pairs.len(),
{
    if pairs.len() == 0 {
        Map::empty()
    } else {
        map_of(pairs.drop_last()).insert(pairs.last().0@, pairs.last().1@)
    }
}

proof fn lemma_map_of_key(pairs: Seq<(String, String)>, i: int)
    requires
        unique_keys(pairs),
        0 <= i < pairs.len(),
    ensures
        map_of(pairs).contains_key(pairs[i].0@),
        map_of(pairs)[pairs[i].0@] == pairs[i].1@,
    decreases pairs.len(),
{
    if i < pairs.len() - 1 {
        assert(pairs.drop_last()[i] == pairs[i]);
        lemma_map_of_key(pairs.drop_last(), i);
        assert(pairs.last().0@ != pairs[i].0@);
    }
}

proof fn lemma_map_of_absent(pairs: Seq<(String, String)>, k: Seq<char>)
    requires
        forall|i: int| 0 <= i < pairs.len() ==> pairs[i].0@ != k,
    ensures
        !map_of(pairs).contains_key(k),
    decreases pairs.len(),
{
    if pairs.len() > 0 {
        assert(forall|i: int|
            0 <= i < pairs.len() - 1 ==> pairs.drop_last()[i] == pairs[i]);
        lemma_map_of_absent(pairs.drop_last(), k);
    }
}

impl View for StrMap {
    type V = Map<Seq<char>, Seq<char>>;

    closed spec fn view(&self) -> Map<Seq<char>, Seq<char>> {
        map_of(self.pairs@)
    }
}

impl StrMap {
    #[verifier::type_invariant]
    spec fn wf(&self) -> bool {
        unique_keys(self.pairs@)
    }

    /// An empty table.
    pub fn new() -> (r: Self)
        ensures
            r@ == Map::<Seq<char>, Seq<char>>::empty(),
    {
        StrMap { pairs: Vec::new() }
    }

    /// Whether a key is present.
    pub fn contains_key(&self, key: &str) -> (r: bool)
        ensures
            r == self@.contains_key(key@),
    {
        proof {
            use_type_invariant(&*self);
        }
        let mut i: usize = 0;
        while i < self.pairs.len()
            invariant
                self.wf(),
                i <= self.pairs@.len(),
                forall|k: int| 0 <= k < i ==> self.pairs@[k].0@ != key@,
            decreases self.pairs@.len() - i,
        {
            if str_eq(self.pairs[i].0.as_str(), key) {
                proof {
                    lemma_map_of_key(self.pairs@, i as int);
                }
                return true;
            }
            i += 1;
        }
        proof {
            lemma_map_of_absent(self.pairs@, key@);
        }
        false
    }

    /// Add a binding for a key that is not yet present.
    pub fn insert(&mut self, key: String, value: String)
        requires
            !old(self)@.contains_key(key@),
        ensures
            final(self)@ == old(self)@.insert(key@, value@),
    {
        proof {
            use_type_invariant(&*self);
            assert forall|i: int| 0 <= i < self.pairs@.len() implies self.pairs@[i].0@
                != key@ by {
                if self.pairs@[i].0@ == key@ {
                    lemma_map_of_key(self.pairs@, i);
                }
            }
        }
        let mut pairs: Vec<(String, String)> = Vec::new();
        core::mem::swap(&mut pairs, &mut self.pairs);
        let ghost before = pairs@;
        pairs.push((key, value));
        proof {
            assert(pairs@.drop_last() =~= before);
        }
        self.pairs = pairs;
    }

    /// Look a key up, as the preprocessor does for `$NAME` and for aliases.
    pub fn get(&self, key: &str) -> (r: Option<&String>)
        ensures
            match r {
                Some(v) => self@.contains_key(key@) && v@ == self@[key@],
                None => !self@.contains_key(key@),
            },
    {
        proof {
            use_type_invariant(&*self);
        }
        let mut i: usize = 0;
        while i < self.pairs.len()
            invariant
                self.wf(),
                i <= self.pairs@.len(),
                forall|k: int| 0 <= k < i ==> self.pairs@[k].0@ != key@,
            decreases self.pairs@.len() - i,
        {
            if str_eq(self.pairs[i].0.as_str(), key) {
                proof {
                    lemma_map_of_key(self.pairs@, i as int);
                }
                return Some(&self.pairs[i].1);
            }
            i += 1;
        }
        proof {
            lemma_map_of_absent(self.pairs@, key@);
        }
        None
    }
}

/// Characters that may follow `$` in a variable reference: alphanumeric or
/// underscore.
pub open spec fn is_name_char(c: char) -> bool {
    spec_alphanumeric(c) || c == '_'
}

/// Length of the longest prefix made of name characters.
pub open spec fn name_len(s: Seq<char>) -> nat
    decreases s.len(),
{
    if s.len() > 0 && is_name_char(s[0]) {
        (1 + name_len(s.drop_first())) as nat
    } else {
        0
    }
}

proof fn lemma_name_len_le(s: Seq<char>)
    ensures
        name_len(s) <= s.len(),
    decreases s.len(),
{
    if s.len() > 0 && is_name_char(s[0]) {
        lemma_name_len_le(s.drop_first());
    }
}

proof fn lemma_name_len_split(s: Seq<char>, k: int)
    requires
        0 <= k <= s.len(),
        forall|m: int| 0 <= m < k ==> is_name_char(s[m]),
        k == s.len() || !is_name_char(s[k]),
    ensures
        name_len(s) == k,
    decreases k,
{
    if k == 0 {
    } else {
        assert(is_name_char(s[0]));
        assert(forall|m: int| 0 <= m < k - 1 ==> s.drop_first()[m] == s[m + 1]);
        lemma_name_len_split(s.drop_first(), k - 1);
    }
}

/// What variable expansion yields: every `$NAME` reference (longest run of
/// name characters after the `$`) is replaced by the environment's value
/// when the name is bound, and kept literally when it is not; a bare `$`
/// not followed by a name character is emitted as-is, whatever the
/// environment holds; all other characters pass through unchanged.
pub open spec fn spec_expand(s: Seq<char>, env: Map<Seq<char>, Seq<char>>) -> Seq<char>
    decreases s.len(),
    via spec_expand_decreases
{
    if s.len() == 0 {
        Seq::empty()
    } else if s[0] == '$' {
        let k = name_len(s.skip(1)) as int;
        let name = s.subrange(1, 1 + k);
        let rep = if k > 0 && env.contains_key(name) {
            env[name]
        } else {
            seq!['$'] + name
        };
        rep + spec_expand(s.skip(1 + k), env)
    } else {
        seq![s[0]] + spec_expand(s.skip(1), env)
    }
}

#[via_fn]
proof fn spec_expand_decreases(s: Seq<char>, env: Map<Seq<char>, Seq<char>>) {
    if s.len() > 0 && s[0] == '$' {
        lemma_name_len_le(s.skip(1));
    }
}

fn scan_name_end(s: &str, start: usize) -> (j: usize)
    requires
        start <= s@.len(),
    ensures
        start <= j <= s@.len(),
        j - start == name_len(s@.skip(start as int)),
        forall|k: int| start <= k < j ==> is_name_char(s@[k]),
{
    let len = s.unicode_len();
    let mut j: usize = start;
    while j < len
        invariant
            start <= j <= len,
            len == s@.len(),
            forall|k: int| start <= k < j ==> is_name_char(s@[k]),
        decreases len - j,
    {
        let c = s.get_char(j);
        let alnum = char_is_alphanumeric(c);
        if !(alnum || c == '_') {
            proof {
                assert(forall|m: int|
                    0 <= m < s@.skip(start as int).len() ==> s@.skip(start as int)[m] == s@[m
                        + start]);
                lemma_name_len_split(s@.skip(start as int), j - start);
            }
            return j;
        }
        j += 1;
    }
    proof {
        assert(forall|m: int|
            0 <= m < s@.skip(start as int).len() ==> s@.skip(start as int)[m] == s@[m + start]);
        lemma_name_len_split(s@.skip(start as int), j - start);
    }
    j
}

/// Expand every `$NAME` reference in the input against the environment
/// table; an unset name is kept literally, and a bare `$` passes through.
pub fn expand_env_vars(input: &str, env: &StrMap) -> (r: String)
    ensures
        r@ == spec_expand(input@, env@),
{
    let len = input.unicode_len();
    let mut out = String::new();
    proof {
        assert(input@.skip(0) =~= input@);
        assert(out@ + spec_expand(input@.skip(0), env@) =~= spec_expand(input@, env@));
    }
    let mut i: usize = 0;
    while i < len
        invariant
            i <= len,
            len == input@.len(),
            out@ + spec_expand(input@.skip(i as int), env@) == spec_expand(input@, env@),
        decreases len - i,
    {
        let ghost t = input@.skip(i as int);
        let c = input.get_char(i);
        assert(t[0] == c);
        if c == '$' {
            let j = scan_name_end(input, i + 1);
            proof {
                assert(t.skip(1) =~= input@.skip(i as int + 1));
                assert(name_len(t.skip(1)) == j - i - 1);
                assert(t.subrange(1, 1 + (j - i - 1)) =~= input@.subrange(i as int + 1, j as int));
                assert(t.skip(1 + (j - i - 1)) =~= input@.skip(j as int));
            }
            let name = input.substring_char(i + 1, j);
            let ghost old_out = out@;
            if j == i + 1 {
                // A bare `$`: the name is empty, so it is emitted as-is
                // without consulting the environment.
                push_char(&mut out, '$');
                assert(out@ =~= old_out + (seq!['$'] + name@));
            } else {
                match env.get(name) {
                    Some(val) => {
                        out.append(val.as_str());
                        assert(out@ == old_out + env@[name@]);
                    },
                    None => {
                        push_char(&mut out, '$');
                        out.append(name);
                        assert(out@ =~= old_out + (seq!['$'] + name@));
                    },
                }
            }
            proof {
                assert(spec_expand(t, env@) == (if j - i - 1 > 0 && env@.contains_key(name@) {
                    env@[name@]
                } else {
                    seq!['$'] + name@
                }) + spec_expand(input@.skip(j as int), env@));
                assert(out@ + spec_expand(input@.skip(j as int), env@) =~= old_out + spec_expand(
                    t,
                    env@,
                ));
            }
            i = j;
        } else {
            let ghost old_out = out@;
            push_char(&mut out, c);
            proof {
                assert(t.skip(1) =~= input@.skip(i as int + 1));
                assert(spec_expand(t, env@) == seq![c] + spec_expand(
                    input@.skip(i as int + 1),
                    env@,
                ));
                assert(out@ + spec_expand(input@.skip(i as int + 1), env@) =~= old_out
                    + spec_expand(t, env@));
            }
            i += 1;
        }
    }
    proof {
        assert(input@.skip(len as int) =~= Seq::<char>::empty());
        assert(out@ + spec_expand(input@.skip(len as int), env@) =~= out@);
    }
    out
}

/// Length of the longest whitespace prefix.
pub open spec fn ws_prefix_len(s: Seq<char>) -> nat
    decreases s.len(),
{
    if s.len() > 0 && spec_whitespace(s[0]) {
        (1 + ws_prefix_len(s.drop_first())) as nat
    } else {
        0
    }
}

/// Start of the trailing whitespace run: one past the last character that
/// is not whitespace, or zero when every character is.
pub open spec fn ws_suffix_start(s: Seq<char>) -> int
    decreases s.len(),
{
    if s.len() > 0 && spec_whitespace(s.last()) {
        ws_suffix_start(s.drop_last())
    } else {
        s.len() as int
    }
}

proof fn lemma_ws_suffix_bounds(s: Seq<char>)
    ensures
        0 <= ws_suffix_start(s) <= s.len(),
    decreases s.len(),
{
    if s.len() > 0 && spec_whitespace(s.last()) {
        lemma_ws_suffix_bounds(s.drop_last());
    }
}

proof fn lemma_ws_suffix_split(s: Seq<char>, b: int)
    requires
        0 <= b <= s.len(),
        forall|k: int| b <= k < s.len() ==> spec_whitespace(s[k]),
        b > 0 ==> !spec_whitespace(s[b - 1]),
    ensures
        ws_suffix_start(s) == b,
    decreases s.len(),
{
    if b < s.len() {
        assert(forall|k: int| 0 <= k < s.len() - 1 ==> s.drop_last()[k] == s[k]);
        lemma_ws_suffix_split(s.drop_last(), b);
    }
}

/// The line with its leading and trailing whitespace removed.
pub open spec fn spec_trim(s: Seq<char>) -> Seq<char> {
    let a = ws_prefix_len(s) as int;
    let b = ws_suffix_start(s);
    if a <= b {
        s.subrange(a, b)
    } else {
        Seq::empty()
    }
}

fn ws_prefix_scan(s: &str) -> (a: usize)
    ensures
        a as nat == ws_prefix_len(s@),
        a <= s@.len(),
        forall|k: int| 0 <= k < a ==> spec_whitespace(s@[k]),
        a < s@.len() ==> !spec_whitespace(s@[a as int]),
{
    let len = s.unicode_len();
    let mut a: usize = 0;
    while a < len
        invariant
            a <= len,
            len == s@.len(),
            forall|k: int| 0 <= k < a ==> spec_whitespace(s@[k]),
        decreases len - a,
    {
        let c = s.get_char(a);
        if !char_is_whitespace(c) {
            proof {
                lemma_ws_prefix_split(s@, a as int);
            }
            return a;
        }
        a += 1;
    }
    proof {
        lemma_ws_prefix_split(s@, a as int);
    }
    a
}

proof fn lemma_ws_prefix_split(s: Seq<char>, k: int)
    requires
        0 <= k <= s.len(),
        forall|m: int| 0 <= m < k ==> spec_whitespace(s[m]),
        k == s.len() || !spec_whitespace(s[k]),
    ensures
        ws_prefix_len(s) == k,
    decreases k,
{
    if k > 0 {
        assert(forall|m: int| 0 <= m < k - 1 ==> s.drop_first()[m] == s[m + 1]);
        lemma_ws_prefix_split(s.drop_first(), k - 1);
    }
}

fn ws_suffix_scan(s: &str, a: usize) -> (b: usize)
    requires
        a < s@.len(),
        !spec_whitespace(s@[a as int]),
    ensures
        a < b <= s@.len(),
        forall|k: int| b <= k < s@.len() ==> spec_whitespace(s@[k]),
        !spec_whitespace(s@[b - 1]),
{
    let len = s.unicode_len();
    let mut b: usize = len;
    while b > a + 1
        invariant
            a + 1 <= b <= len,
            len == s@.len(),
            forall|k: int| b <= k < len ==> spec_whitespace(s@[k]),
        decreases b,
    {
        let c = s.get_char(b - 1);
        if !char_is_whitespace(c) {
            return b;
        }
        b -= 1;
    }
    b
}

/// Remove leading and trailing whitespace, as the shell does to each raw
/// input line before looking at it.
pub fn trim_line(s: &str) -> (r: String)
    ensures
        r@ == spec_trim(s@),
{
    let len = s.unicode_len();
    let a = ws_prefix_scan(s);
    if a == len {
        proof {
            lemma_ws_suffix_bounds(s@);
            assert(spec_trim(s@) =~= Seq::<char>::empty());
        }
        return String::new();
    }
    let b = ws_suffix_scan(s, a);
    proof {
        lemma_ws_suffix_split(s@, b as int);
    }
    let t = s.substring_char(a, b);
    String::from_str(t)
}

/// What preprocessing yields: the trimmed line, its variables expanded; if
/// that text exactly equals an alias trigger, the alias target instead. A
/// line of nothing but whitespace stays empty and is never alias-matched.
pub open spec fn spec_preprocess(
    raw: Seq<char>,
    env: Map<Seq<char>, Seq<char>>,
    aliases: Map<Seq<char>, Seq<char>>,
) -> Seq<char> {
    let t = spec_trim(raw);
    if t.len() == 0 {
        Seq::empty()
    } else {
        let e = spec_expand(t, env);
        if aliases.contains_key(e) {
            aliases[e]
        } else {
            e
        }
    }
}

/// Trim, expand variables, then replace the whole line by its alias target
/// when it matches one exactly.
pub fn preprocess(raw: &str, env: &StrMap, aliases: &StrMap) -> (r: String)
    ensures
        r@ == spec_preprocess(raw@, env@, aliases@),
{
    let t = trim_line(raw);
    if t.as_str().unicode_len() == 0 {
        proof {
            assert(spec_preprocess(raw@, env@, aliases@) =~= Seq::<char>::empty());
        }
        return String::new();
    }
    let e = expand_env_vars(t.as_str(), env);
    match aliases.get(e.as_str()) {
        Some(rep) => rep.clone(),
        None => e,
    }
}

/// Law: text without `$` is left unchanged by variable expansion.
pub proof fn lemma_expand_no_dollar(s: Seq<char>, env: Map<Seq<char>, Seq<char>>)
    requires
        forall|k: int| 0 <= k < s.len() ==> s[k] != '$',
    ensures
        spec_expand(s, env) == s,
    decreases s.len(),
{
    if s.len() > 0 {
        assert(forall|k: int| 0 <= k < s.len() - 1 ==> s.skip(1)[k] == s[k + 1]);
        lemma_expand_no_dollar(s.skip(1), env);
        assert(seq![s[0]] + s.skip(1) =~= s);
    }
}

/// Law: a maximal `$NAME` reference whose name is bound in the environment
/// is replaced by the bound value, wherever it stands in the line; the rest
/// of the line is expanded in the same way.
pub proof fn lemma_expand_set(
    pre: Seq<char>,
    name: Seq<char>,
    suf: Seq<char>,
    env: Map<Seq<char>, Seq<char>>,
)
    requires
        forall|k: int| 0 <= k < pre.len() ==> pre[k] != '$',
        name.len() > 0,
        forall|k: int| 0 <= k < name.len() ==> is_name_char(name[k]),
        suf.len() > 0 ==> !is_name_char(suf[0]),
        env.contains_key(name),
    ensures
        spec_expand(pre + seq!['$'] + name + suf, env) == pre + env[name] + spec_expand(suf, env),
    decreases pre.len(),
{
    let s = pre + seq!['$'] + name + suf;
    if pre.len() == 0 {
        assert(s[0] == '$');
        assert(s.skip(1) =~= name + suf);
        assert(forall|m: int| 0 <= m < name.len() ==> (name + suf)[m] == name[m]);
        lemma_name_len_split(name + suf, name.len() as int);
        let k = name_len(s.skip(1)) as int;
        assert(k == name.len());
        assert(s.subrange(1, 1 + k) =~= name);
        assert(s.skip(1 + k) =~= suf);
        assert(spec_expand(s, env) =~= pre + env[name] + spec_expand(suf, env));
    } else {
        assert(s[0] == pre[0]);
        assert(s.skip(1) =~= pre.drop_first() + seq!['$'] + name + suf);
        assert(forall|k: int|
            0 <= k < pre.len() - 1 ==> pre.drop_first()[k] == pre[k + 1]);
        lemma_expand_set(pre.drop_first(), name, suf, env);
        assert(spec_expand(s, env) =~= seq![s[0]] + (pre.drop_first() + env[name] + spec_expand(
            suf,
            env,
        )));
        assert(seq![s[0]] + (pre.drop_first() + env[name] + spec_expand(suf, env)) =~= pre
            + env[name] + spec_expand(suf, env));
    }
}

/// Law: a maximal `$NAME` reference whose name is not bound is kept exactly
/// as written; so is a bare `$` (an empty name), whatever the environment
/// holds; the rest of the line is expanded in the same way.
pub proof fn lemma_expand_unset(
    pre: Seq<char>,
    name: Seq<char>,
    suf: Seq<char>,
    env: Map<Seq<char>, Seq<char>>,
)
    requires
        forall|k: int| 0 <= k < pre.len() ==> pre[k] != '$',
        forall|k: int| 0 <= k < name.len() ==> is_name_char(name[k]),
        suf.len() > 0 ==> !is_name_char(suf[0]),
        name.len() == 0 || !env.contains_key(name),
    ensures
        spec_expand(pre + seq!['$'] + name + suf, env) == pre + seq!['$'] + name + spec_expand(
            suf,
            env,
        ),
    decreases pre.len(),
{
    let s = pre + seq!['$'] + name + suf;
    if pre.len() == 0 {
        assert(s[0] == '$');
        assert(s.skip(1) =~= name + suf);
        assert(forall|m: int| 0 <= m < name.len() ==> (name + suf)[m] == name[m]);
        lemma_name_len_split(name + suf, name.len() as int);
        let k = name_len(s.skip(1)) as int;
        assert(k == name.len());
        assert(s.subrange(1, 1 + k) =~= name);
        assert(s.skip(1 + k) =~= suf);
        assert(spec_expand(s, env) =~= (seq!['$'] + name) + spec_expand(suf, env));
        assert((seq!['$'] + name) + spec_expand(suf, env) =~= pre + seq!['$'] + name + spec_expand(
            suf,
            env,
        ));
    } else {
        assert(s[0] == pre[0]);
        assert(s.skip(1) =~= pre.drop_first() + seq!['$'] + name + suf);
        assert(forall|k: int|
            0 <= k < pre.len() - 1 ==> pre.drop_first()[k] == pre[k + 1]);
        lemma_expand_unset(pre.drop_first(), name, suf, env);
        assert(spec_expand(s, env) =~= seq![s[0]] + (pre.drop_first() + seq!['$'] + name
            + spec_expand(suf, env)));
        assert(seq![s[0]] + (pre.drop_first() + seq!['$'] + name + spec_expand(suf, env)) =~= pre
            + seq!['$'] + name + spec_expand(suf, env));
    }
}

/// Law: whenever the trimmed, variable-expanded line equals an alias
/// trigger, preprocessing yields exactly the alias target, no matter how
/// the trigger was spelled before expansion.
pub proof fn lemma_alias_applies(
    raw: Seq<char>,
    env: Map<Seq<char>, Seq<char>>,
    aliases: Map<Seq<char>, Seq<char>>,
    trigger: Seq<char>,
)
    requires
        spec_trim(raw).len() > 0,
        spec_expand(spec_trim(raw), env) == trigger,
        aliases.contains_key(trigger),
    ensures
        spec_preprocess(raw, env, aliases) == aliases[trigger],
{
}

} // verus!
