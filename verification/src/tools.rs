//! Auxiliary tool handling: deciding from a tool's interpreter line
//! whether it needs a wrapper script, and the set of tool names that
//! discovery looks for.

use vstd::prelude::*;

use crate::version::{is_space, space_run_len, str_chars};

verus! {

/// A detected auxiliary tool.
#[derive(Debug, Clone, PartialEq)]
pub struct PhpTool {
    pub name: String,
    pub original_path: String,
    pub shebang: String,
}

/// `m` occurs as a contiguous subsequence of `s`.
pub open spec fn contains_seq(s: Seq<char>, m: Seq<char>) -> bool {
    exists|i: int| 0 <= i && i + m.len() <= s.len() && #[trigger] s.subrange(i, i + m.len()) == m
}

/// Whether a tool's interpreter line bypasses PATH resolution: it is a
/// shebang, does not delegate through `env`, and names the interpreter.
pub open spec fn spec_needs_shim(s: Seq<char>) -> bool {
    &&& s.len() >= 2 && s[0] == '#' && s[1] == '!'
    &&& !contains_seq(s, seq!['/', 'e', 'n', 'v', ' '])
    &&& !contains_seq(s, seq!['/', 'e', 'n', 'v', '\t'])
    &&& contains_seq(s, seq!['p', 'h', 'p'])
}

/// Whether `pat` occurs contiguously in `cs`.
fn contains_chars(cs: &Vec<char>, pat: &Vec<char>) -> (r: bool)
    ensures
        r == contains_seq(cs@, pat@),
{
    let n = cs.len();
    let m = pat.len();
    if m > n {
        return false;
    }
    let mut i: usize = 0;
    while i <= n - m
        invariant
            m <= n,
            n == cs@.len(),
            m == pat@.len(),
            i <= n - m + 1,
            forall|k: int|
                0 <= k < i ==> #[trigger] cs@.subrange(k, k + pat@.len()) != pat@,
        decreases n + 1 - i,
    {
        let mut j: usize = 0;
        let mut hit = true;
        while j < m
            invariant
                j <= m,
                i + m <= n,
                n == cs@.len(),
                m == pat@.len(),
                hit == (forall|k: int|
                    0 <= k < j ==> cs@[i + k] == #[trigger] pat@[k]),
            decreases m - j,
        {
            if cs[i + j] != pat[j] {
                hit = false;
                proof {
                    assert(cs@[i + j] != pat@[j as int]);
                }
                j = m;
            } else {
                j = j + 1;
            }
        }
        if hit {
            proof {
                assert(cs@.subrange(i as int, i + pat@.len()) =~= pat@);
            }
            return true;
        }
        proof {
            if cs@.subrange(i as int, i + pat@.len()) == pat@ {
                assert(forall|k: int|
                    0 <= k < pat@.len() ==> cs@[i + k] == #[trigger] pat@[k]) by {
                    assert(forall|k: int|
                        0 <= k < pat@.len() ==> cs@.subrange(i as int, i + pat@.len())[k]
                            == #[trigger] pat@[k]);
                }
                assert(false);
            }
        }
        i = i + 1;
    }
    false
}

/// Decides from a shebang line whether a tool needs a wrapper script:
/// a hardcoded interpreter path needs one, while a line that delegates
/// through `env`, or no shebang at all, does not.
pub fn needs_shim(shebang: &str) -> (r: bool)
    ensures
        r == spec_needs_shim(shebang@),
{
    let cs = str_chars(shebang);
    if cs.len() < 2 {
        return false;
    }
    if !(cs[0] == '#' && cs[1] == '!') {
        return false;
    }
    proof {
        reveal_strlit("/env ");
        reveal_strlit("/env\t");
        reveal_strlit("php");
    }
    let env_sp = str_chars("/env ");
    let env_tab = str_chars("/env\t");
    let php = str_chars("php");
    proof {
        assert(env_sp@ =~= seq!['/', 'e', 'n', 'v', ' ']);
        assert(env_tab@ =~= seq!['/', 'e', 'n', 'v', '\t']);
        assert(php@ =~= seq!['p', 'h', 'p']);
    }
    if contains_chars(&cs, &env_sp) || contains_chars(&cs, &env_tab) {
        return false;
    }
    contains_chars(&cs, &php)
}

/// The trimmed line without leading and trailing ASCII whitespace.
pub open spec fn spec_trimmed(s: Seq<char>) -> Seq<char> {
    let l = space_run_len(s, 0) as int;
    if l == s.len() {
        Seq::<char>::empty()
    } else {
        s.subrange(l, s.len() - trailing_space_len(s) as int)
    }
}

/// Length of the run of trailing whitespace.
pub open spec fn trailing_space_len(s: Seq<char>) -> nat
    decreases s.len(),
{
    if s.len() > 0 && is_space(s.last()) {
        1 + trailing_space_len(s.drop_last())
    } else {
        0
    }
}

proof fn lemma_trailing_space_exact(s: Seq<char>, to: int)
    requires
        0 <= to <= s.len(),
        forall|k: int| to <= k < s.len() ==> is_space(#[trigger] s[k]),
        to == 0 || !is_space(s[to - 1]),
    ensures
        trailing_space_len(s) == s.len() - to,
    decreases s.len(),
{
    if to < s.len() {
        lemma_trailing_space_exact(s.drop_last(), to);
    } else {
        if s.len() > 0 {
            assert(!is_space(s.last()));
        }
    }
}

/// The first line of a tool file, reduced to its shebang: the trimmed
/// line when it begins with `#!`, and nothing otherwise.
#[verifier::loop_isolation(false)]
pub fn shebang_of_line(line: &str) -> (r: Option<String>)
    ensures
        match r {
            Some(s) => spec_trimmed(line@).len() >= 2 && spec_trimmed(line@)[0] == '#'
                && spec_trimmed(line@)[1] == '!' && s@ == spec_trimmed(line@),
            None => spec_trimmed(line@).len() < 2 || spec_trimmed(line@)[0] != '#'
                || spec_trimmed(line@)[1] != '!',
        },
{
    let cs = str_chars(line);
    let n = cs.len();
    let mut start: usize = 0;
    while start < n && is_space_exec(cs[start])
        invariant
            start <= n,
            n == cs@.len(),
            forall|k: int| 0 <= k < start ==> is_space(#[trigger] cs@[k]),
        decreases n - start,
    {
        start = start + 1;
    }
    proof {
        crate::version::lemma_space_run_exact(cs@, 0, start as int);
    }
    if start == n {
        proof {
            assert(spec_trimmed(line@).len() == 0);
        }
        return None;
    }
    let mut endpos: usize = n;
    while endpos > start && is_space_exec(cs[endpos - 1])
        invariant
            start < endpos <= n,
            forall|k: int| endpos <= k < n ==> is_space(#[trigger] cs@[k]),
        decreases endpos,
    {
        endpos = endpos - 1;
    }
    proof {
        assert(!is_space(cs@[start as int]));
        assert(endpos > start);
        assert(!is_space(cs@[endpos - 1]));
        lemma_trailing_space_exact(cs@, endpos as int);
        assert(spec_trimmed(line@) == cs@.subrange(start as int, endpos as int));
    }
    if endpos - start >= 2 && cs[start] == '#' && cs[start + 1] == '!' {
        let s = line.substring_char(start, endpos);
        Some(s.to_owned())
    } else {
        None
    }
}

fn is_space_exec(c: char) -> (r: bool)
    ensures
        r == is_space(c),
{
    c == ' ' || c == '\t' || c == '\n' || c == '\r' || c == '\u{b}' || c == '\u{c}'
}

/// The fixed set of well-known tool names that scanning looks for.
pub fn common_tool_names() -> (r: Vec<String>)
    ensures
        r@.len() == 8,
        r@[0]@ == "composer"@,
        r@[1]@ == "phpunit"@,
        r@[2]@ == "psalm"@,
        r@[3]@ == "phpstan"@,
        r@[4]@ == "rector"@,
        r@[5]@ == "php-cs-fixer"@,
        r@[6]@ == "phpize"@,
        r@[7]@ == "php-config"@,
{
    let mut r: Vec<String> = Vec::new();
    r.push(String::from_str("composer"));
    r.push(String::from_str("phpunit"));
    r.push(String::from_str("psalm"));
    r.push(String::from_str("phpstan"));
    r.push(String::from_str("rector"));
    r.push(String::from_str("php-cs-fixer"));
    r.push(String::from_str("phpize"));
    r.push(String::from_str("php-config"));
    r
}

/// The well-known tool names followed by the user's custom ones.
pub fn tool_names(custom: &Vec<String>) -> (r: Vec<String>)
    ensures
        r@.len() == 8 + custom@.len(),
        forall|i: int| 8 <= i < r@.len() ==> #[trigger] r@[i] == custom@[i - 8],
        r@[0]@ == "composer"@,
        r@[1]@ == "phpunit"@,
        r@[2]@ == "psalm"@,
        r@[3]@ == "phpstan"@,
        r@[4]@ == "rector"@,
        r@[5]@ == "php-cs-fixer"@,
        r@[6]@ == "phpize"@,
        r@[7]@ == "php-config"@,
{
    let mut r = common_tool_names();
    let n = custom.len();
    let mut i: usize = 0;
    while i < n
        invariant
            i <= n,
            n == custom@.len(),
            r@.len() == 8 + i,
            forall|j: int| 8 <= j < r@.len() ==> #[trigger] r@[j] == custom@[j - 8],
            r@[0]@ == "composer"@,
            r@[1]@ == "phpunit"@,
            r@[2]@ == "psalm"@,
            r@[3]@ == "phpstan"@,
            r@[4]@ == "rector"@,
            r@[5]@ == "php-cs-fixer"@,
            r@[6]@ == "phpize"@,
            r@[7]@ == "php-config"@,
        decreases n - i,
    {
        r.push(custom[i].clone());
        i = i + 1;
    }
    r
}

} // verus!
