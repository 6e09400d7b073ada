//! Semantic version triples: parsing from interpreter banner text,
//! pattern matching, ordering, and textual form.

use vstd::prelude::*;

verus! {

/// A PHP version as the triple `major.minor.patch`.
#[derive(Debug, Clone, PartialEq, Eq, Structural)]
pub struct PhpVersion {
    pub major: u32,
    pub minor: u32,
    pub patch: u32,
}

/// Why banner text failed to yield a version.
#[derive(Debug, Clone, PartialEq, Eq, Structural)]
pub enum ParseError {
    /// No `PHP <d+>.<d+>.<d+>` token occurs in the text.
    NoVersionFound,
    /// A matched numeric component does not fit in `u32`.
    ComponentOutOfRange,
}

/// `c` is an ASCII decimal digit.
pub open spec fn is_digit(c: char) -> bool {
    ('0' as u32) <= (c as u32) && (c as u32) <= ('9' as u32)
}

/// The numeric value of a digit character.
pub open spec fn digit_val(c: char) -> nat
    recommends
        is_digit(c),
{
    ((c as u32) - ('0' as u32)) as nat
}

/// The digit character for a value below ten.
pub open spec fn digit_char(d: nat) -> char
    recommends
        d < 10,
{
    if d == 0 {
        '0'
    } else if d == 1 {
        '1'
    } else if d == 2 {
        '2'
    } else if d == 3 {
        '3'
    } else if d == 4 {
        '4'
    } else if d == 5 {
        '5'
    } else if d == 6 {
        '6'
    } else if d == 7 {
        '7'
    } else if d == 8 {
        '8'
    } else {
        '9'
    }
}

/// The decimal representation of `n`, most significant digit first,
/// without leading zeros (a single `'0'` for zero).
pub open spec fn dec_rep(n: nat) -> Seq<char>
    decreases n,
{
    if n < 10 {
        seq![digit_char(n)]
    } else {
        dec_rep(n / 10) + seq![digit_char(n % 10)]
    }
}

/// The value of a sequence of digit characters, read in base ten.
pub open spec fn digits_val_of(s: Seq<char>) -> nat
    decreases s.len(),
{
    if s.len() == 0 {
        0
    } else {
        digits_val_of(s.drop_last()) * 10 + digit_val(s.last())
    }
}

/// Every character of `s` is a decimal digit.
pub open spec fn all_digits(s: Seq<char>) -> bool {
    forall|i: int| 0 <= i < s.len() ==> is_digit(#[trigger] s[i])
}

/// The textual form `major.minor.patch` of a version.
pub open spec fn spec_version_string(v: PhpVersion) -> Seq<char> {
    dec_rep(v.major as nat) + seq!['.'] + dec_rep(v.minor as nat) + seq!['.'] + dec_rep(
        v.patch as nat,
    )
}

/// The decimal representation consists of digits only, and is never empty.
pub proof fn lemma_dec_rep_digits(n: nat)
    ensures
        dec_rep(n).len() >= 1,
        all_digits(dec_rep(n)),
    decreases n,
{
    if n >= 10 {
        lemma_dec_rep_digits(n / 10);
    }
}

/// Reading the decimal representation back gives the number itself.
pub proof fn lemma_dec_rep_val(n: nat)
    ensures
        digits_val_of(dec_rep(n)) == n,
    decreases n,
{
    if n < 10 {
        let s = dec_rep(n);
        assert(s.len() == 1);
        assert(s.drop_last() =~= Seq::<char>::empty());
        assert(digits_val_of(s.drop_last()) == 0);
        assert(s.last() == digit_char(n));
        assert(digit_val(digit_char(n)) == n);
        assert(digits_val_of(s) == digits_val_of(s.drop_last()) * 10 + digit_val(s.last()));
    } else {
        lemma_dec_rep_val(n / 10);
        let s = dec_rep(n);
        assert(s.drop_last() =~= dec_rep(n / 10));
        assert(s.last() == digit_char(n % 10));
        assert(digit_val(digit_char(n % 10)) == n % 10);
        assert(digits_val_of(s) == digits_val_of(s.drop_last()) * 10 + digit_val(s.last()));
        assert(n / 10 * 10 + n % 10 == n) by (nonlinear_arith);
    }
}

/// Appending one digit multiplies the value by ten and adds the digit.
pub proof fn lemma_digits_val_push(s: Seq<char>, c: char)
    ensures
        digits_val_of(s + seq![c]) == digits_val_of(s) * 10 + digit_val(c),
{
    assert((s + seq![c]).drop_last() =~= s);
}

fn digit_str(d: u32) -> (r: &'static str)
    requires
        d < 10,
    ensures
        r@ =~= seq![digit_char(d as nat)],
{
    proof {
        reveal_strlit("0");
        reveal_strlit("1");
        reveal_strlit("2");
        reveal_strlit("3");
        reveal_strlit("4");
        reveal_strlit("5");
        reveal_strlit("6");
        reveal_strlit("7");
        reveal_strlit("8");
        reveal_strlit("9");
    }
    if d == 0 {
        "0"
    } else if d == 1 {
        "1"
    } else if d == 2 {
        "2"
    } else if d == 3 {
        "3"
    } else if d == 4 {
        "4"
    } else if d == 5 {
        "5"
    } else if d == 6 {
        "6"
    } else if d == 7 {
        "7"
    } else if d == 8 {
        "8"
    } else {
        "9"
    }
}

/// Appends the decimal representation of `n` to `s`.
fn push_decimal(s: &mut String, n: u32)
    ensures
        final(s)@ == old(s)@ + dec_rep(n as nat),
    decreases n,
{
    if n >= 10 {
        push_decimal(s, n / 10);
    }
    let ghost before = s@;
    s.append(digit_str(n % 10));
    proof {
        if n < 10 {
            assert(s@ =~= old(s)@ + dec_rep(n as nat));
        } else {
            assert(s@ =~= old(s)@ + dec_rep(n as nat));
        }
    }
}

/// The value of `s` as Rust's `u32::from_str` reads it: an optional
/// leading `'+'`, then one or more digits, the value fitting in `u32`.
pub open spec fn parse_u32_spec(s: Seq<char>) -> Option<u32> {
    let body = if s.len() > 0 && s[0] == '+' {
        s.drop_first()
    } else {
        s
    };
    if body.len() > 0 && all_digits(body) && digits_val_of(body) <= u32::MAX {
        Some(digits_val_of(body) as u32)
    } else {
        None
    }
}

/// The segments of `s` between `'.'` characters, as `str::split('.')`
/// yields them: one segment more than there are dots, segments may be empty.
pub open spec fn split_dots(s: Seq<char>) -> Seq<Seq<char>>
    decreases s.len(),
{
    if s.len() == 0 {
        seq![Seq::<char>::empty()]
    } else {
        let rest = split_dots(s.drop_first());
        if s[0] == '.' {
            seq![Seq::<char>::empty()] + rest
        } else {
            seq![seq![s[0]] + rest[0]] + rest.skip(1)
        }
    }
}

pub proof fn lemma_split_dots_len(s: Seq<char>)
    ensures
        split_dots(s).len() >= 1,
    decreases s.len(),
{
    if s.len() > 0 {
        lemma_split_dots_len(s.drop_first());
    }
}

pub proof fn lemma_split_no_dots(s: Seq<char>)
    requires
        forall|i: int| 0 <= i < s.len() ==> #[trigger] s[i] != '.',
    ensures
        split_dots(s) == seq![s],
    decreases s.len(),
{
    if s.len() == 0 {
        assert(split_dots(s) =~~= seq![s]);
    } else {
        lemma_split_no_dots(s.drop_first());
        lemma_split_dots_len(s.drop_first());
        assert(seq![s[0]] + s.drop_first() =~= s);
        assert(split_dots(s) =~~= seq![s]);
    }
}

pub proof fn lemma_split_first_dot(s: Seq<char>, k: int)
    requires
        0 <= k < s.len(),
        s[k] == '.',
        forall|j: int| 0 <= j < k ==> #[trigger] s[j] != '.',
    ensures
        split_dots(s) == seq![s.take(k)] + split_dots(s.skip(k + 1)),
    decreases k,
{
    if k == 0 {
        assert(s.take(0) =~= Seq::<char>::empty());
        assert(s.skip(1) =~= s.drop_first());
        assert(split_dots(s) =~~= seq![s.take(0)] + split_dots(s.skip(1)));
    } else {
        let t = s.drop_first();
        assert(t[k - 1] == '.');
        assert(forall|j: int| 0 <= j < k - 1 ==> #[trigger] t[j] != '.');
        lemma_split_first_dot(t, k - 1);
        lemma_split_dots_len(t.skip(k));
        assert(t.skip(k) =~= s.skip(k + 1));
        assert(seq![s[0]] + t.take(k - 1) =~= s.take(k));
        assert(split_dots(s) =~~= seq![s.take(k)] + split_dots(s.skip(k + 1)));
    }
}

/// Whether version `v` satisfies a user pattern of one, two or three
/// dot-separated numeric components, compared left to right.
pub open spec fn spec_matches(v: PhpVersion, pat: Seq<char>) -> bool {
    let parts = split_dots(pat);
    if parts.len() == 1 {
        parse_u32_spec(parts[0]) == Some(v.major)
    } else if parts.len() == 2 {
        parse_u32_spec(parts[0]) == Some(v.major) && parse_u32_spec(parts[1]) == Some(v.minor)
    } else if parts.len() == 3 {
        parse_u32_spec(parts[0]) == Some(v.major) && parse_u32_spec(parts[1]) == Some(v.minor)
            && parse_u32_spec(parts[2]) == Some(v.patch)
    } else {
        false
    }
}

/// The characters of `s`, in order, as a vector.
pub fn str_chars(s: &str) -> (cs: Vec<char>)
    ensures
        cs@ == s@,
{
    let n = s.unicode_len();
    let mut cs: Vec<char> = Vec::new();
    let mut i: usize = 0;
    while i < n
        invariant
            i <= n,
            n == s@.len(),
            cs@ == s@.take(i as int),
        decreases n - i,
    {
        cs.push(s.get_char(i));
        i = i + 1;
        proof {
            assert(cs@ =~= s@.take(i as int));
        }
    }
    proof {
        assert(cs@ =~= s@);
    }
    cs
}

/// A value prefix of a digit string never exceeds the whole string's value.
proof fn lemma_digits_val_mono(s: Seq<char>, j: int)
    requires
        0 <= j <= s.len(),
    ensures
        digits_val_of(s) >= digits_val_of(s.take(j)),
    decreases s.len() - j,
{
    if j == s.len() {
        assert(s.take(j) =~= s);
    } else {
        assert(s.take(j + 1).drop_last() =~= s.take(j));
        assert(digits_val_of(s.take(j + 1)) == digits_val_of(s.take(j)) * 10 + digit_val(
            s.take(j + 1).last(),
        ));
        lemma_digits_val_mono(s, j + 1);
    }
}

/// Parses the segment `cs[start..end]` as `u32::from_str` would.
#[verifier::loop_isolation(false)]
fn parse_u32_in(cs: &Vec<char>, start: usize, end: usize) -> (r: Option<u32>)
    requires
        start <= end <= cs@.len(),
    ensures
        r == parse_u32_spec(cs@.subrange(start as int, end as int)),
{
    let ghost seg = cs@.subrange(start as int, end as int);
    let mut i = start;
    if i < end && cs[i] == '+' {
        i = i + 1;
    }
    let ghost body = cs@.subrange(i as int, end as int);
    proof {
        if seg.len() > 0 && seg[0] == '+' {
            assert(body =~= seg.drop_first());
        } else {
            assert(body =~= seg);
        }
    }
    if i == end {
        return None;
    }
    let mut acc: u32 = 0;
    let mut j = i;
    while j < end
        invariant
            i <= j <= end <= cs@.len(),
            body == cs@.subrange(i as int, end as int),
            body.len() == end - i,
            all_digits(body.take(j - i)),
            acc == digits_val_of(body.take(j - i)),
        decreases end - j,
    {
        let c = cs[j];
        let cu = c as u32;
        if cu < ('0' as u32) || cu > ('9' as u32) {
            proof {
                assert(body[j - i] == c);
                assert(!is_digit(c));
            }
            return None;
        }
        let d = cu - ('0' as u32);
        proof {
            assert(body.take(j - i + 1) =~= body.take(j - i) + seq![c]);
            lemma_digits_val_push(body.take(j - i), c);
        }
        let m = match acc.checked_mul(10) {
            Some(m) => m,
            None => {
                proof {
                    lemma_digits_val_mono(body, j - i + 1);
                }
                return None;
            },
        };
        let v = match m.checked_add(d) {
            Some(v) => v,
            None => {
                proof {
                    lemma_digits_val_mono(body, j - i + 1);
                }
                return None;
            },
        };
        acc = v;
        j = j + 1;
    }
    proof {
        assert(body.take(end - i) =~= body);
    }
    Some(acc)
}

/// The position of the first `'.'` at or after `from`, if any.
fn find_dot(cs: &Vec<char>, from: usize) -> (r: Option<usize>)
    requires
        from <= cs@.len(),
    ensures
        match r {
            Some(k) => from <= k < cs@.len() && cs@[k as int] == '.' && forall|j: int|
                from <= j < k ==> #[trigger] cs@[j] != '.',
            None => forall|j: int| from <= j < cs@.len() ==> #[trigger] cs@[j] != '.',
        },
{
    let n = cs.len();
    let mut k = from;
    while k < n
        invariant
            from <= k <= n,
            n == cs@.len(),
            forall|j: int| from <= j < k ==> #[trigger] cs@[j] != '.',
        decreases n - k,
    {
        if cs[k] == '.' {
            return Some(k);
        }
        k = k + 1;
    }
    None
}

/// `c` is an ASCII whitespace character.
pub open spec fn is_space(c: char) -> bool {
    c == ' ' || c == '\t' || c == '\n' || c == '\r' || c == '\u{b}' || c == '\u{c}'
}

/// Length of the run of digit characters starting at `from`.
pub open spec fn digit_run_len(s: Seq<char>, from: int) -> nat
    decreases s.len() - from,
{
    if 0 <= from < s.len() && is_digit(s[from]) {
        1 + digit_run_len(s, from + 1)
    } else {
        0
    }
}

/// Length of the run of whitespace characters starting at `from`.
pub open spec fn space_run_len(s: Seq<char>, from: int) -> nat
    decreases s.len() - from,
{
    if 0 <= from < s.len() && is_space(s[from]) {
        1 + space_run_len(s, from + 1)
    } else {
        0
    }
}

/// Start of the major-digit run when a banner token begins at `i`.
pub open spec fn o_digits1(s: Seq<char>, i: int) -> int {
    i + 3 + space_run_len(s, i + 3)
}

/// Start of the minor-digit run (one past the first dot).
pub open spec fn o_digits2(s: Seq<char>, i: int) -> int {
    o_digits1(s, i) + digit_run_len(s, o_digits1(s, i)) + 1
}

/// Start of the patch-digit run (one past the second dot).
pub open spec fn o_digits3(s: Seq<char>, i: int) -> int {
    o_digits2(s, i) + digit_run_len(s, o_digits2(s, i)) + 1
}

/// A banner token `PHP <spaces> <digits> . <digits> . <digits>`
/// starts at position `i` of `s`.
pub open spec fn match_at(s: Seq<char>, i: int) -> bool {
    &&& 0 <= i && i + 3 <= s.len()
    &&& s[i] == 'P' && s[i + 1] == 'H' && s[i + 2] == 'P'
    &&& space_run_len(s, i + 3) >= 1
    &&& digit_run_len(s, o_digits1(s, i)) >= 1
    &&& o_digits2(s, i) - 1 < s.len() && s[o_digits2(s, i) - 1] == '.'
    &&& digit_run_len(s, o_digits2(s, i)) >= 1
    &&& o_digits3(s, i) - 1 < s.len() && s[o_digits3(s, i) - 1] == '.'
    &&& digit_run_len(s, o_digits3(s, i)) >= 1
}

/// The digit runs of the token starting at `i`.
pub open spec fn major_seq_at(s: Seq<char>, i: int) -> Seq<char> {
    s.subrange(o_digits1(s, i), o_digits1(s, i) + digit_run_len(s, o_digits1(s, i)))
}

pub open spec fn minor_seq_at(s: Seq<char>, i: int) -> Seq<char> {
    s.subrange(o_digits2(s, i), o_digits2(s, i) + digit_run_len(s, o_digits2(s, i)))
}

pub open spec fn patch_seq_at(s: Seq<char>, i: int) -> Seq<char> {
    s.subrange(o_digits3(s, i), o_digits3(s, i) + digit_run_len(s, o_digits3(s, i)))
}

/// The leftmost position at or after `i` where a banner token starts.
pub open spec fn first_match(s: Seq<char>, i: int) -> Option<int>
    decreases s.len() - i,
{
    if i >= s.len() {
        None
    } else if match_at(s, i) {
        Some(i)
    } else {
        first_match(s, i + 1)
    }
}

/// The three digit runs of the leftmost banner token of `s`, if any.
pub open spec fn spec_find_version(s: Seq<char>) -> Option<(Seq<char>, Seq<char>, Seq<char>)> {
    match first_match(s, 0) {
        None => None,
        Some(i) => Some((major_seq_at(s, i), minor_seq_at(s, i), patch_seq_at(s, i))),
    }
}

/// What banner parsing returns on `s`: the leftmost token's components
/// when they fit in `u32`, and the exact error otherwise.
pub open spec fn spec_parse_result(s: Seq<char>) -> Result<PhpVersion, ParseError> {
    match spec_find_version(s) {
        None => Err(ParseError::NoVersionFound),
        Some(t) => {
            if digits_val_of(t.0) <= u32::MAX && digits_val_of(t.1) <= u32::MAX && digits_val_of(
                t.2,
            ) <= u32::MAX {
                Ok(
                    PhpVersion {
                        major: digits_val_of(t.0) as u32,
                        minor: digits_val_of(t.1) as u32,
                        patch: digits_val_of(t.2) as u32,
                    },
                )
            } else {
                Err(ParseError::ComponentOutOfRange)
            }
        },
    }
}

/// The digit run starting at `from` stays in bounds, consists of digits,
/// and ends at the end of `s` or at a non-digit.
proof fn lemma_digit_run_spec(s: Seq<char>, from: int)
    requires
        0 <= from <= s.len(),
    ensures
        from + digit_run_len(s, from) <= s.len(),
        forall|k: int|
            from <= k < from + digit_run_len(s, from) ==> is_digit(#[trigger] s[k]),
        from + digit_run_len(s, from) == s.len() || !is_digit(
            s[from + digit_run_len(s, from)],
        ),
    decreases s.len() - from,
{
    if from < s.len() && is_digit(s[from]) {
        lemma_digit_run_spec(s, from + 1);
    }
}

/// A region of digits delimited by a non-digit (or the end) is exactly
/// the digit run.
proof fn lemma_digit_run_exact(s: Seq<char>, from: int, to: int)
    requires
        0 <= from <= to <= s.len(),
        forall|k: int| from <= k < to ==> is_digit(#[trigger] s[k]),
        to == s.len() || !is_digit(s[to]),
    ensures
        digit_run_len(s, from) == to - from,
    decreases to - from,
{
    if from < to {
        lemma_digit_run_exact(s, from + 1, to);
    }
}

/// A region of whitespace delimited by a non-space (or the end) is
/// exactly the whitespace run.
pub proof fn lemma_space_run_exact(s: Seq<char>, from: int, to: int)
    requires
        0 <= from <= to <= s.len(),
        forall|k: int| from <= k < to ==> is_space(#[trigger] s[k]),
        to == s.len() || !is_space(s[to]),
    ensures
        space_run_len(s, from) == to - from,
    decreases to - from,
{
    if from < to {
        lemma_space_run_exact(s, from + 1, to);
    }
}

/// The scan for the leftmost token skips a region where none starts.
proof fn lemma_first_match_skip(s: Seq<char>, a: int, b: int)
    requires
        0 <= a <= b <= s.len(),
        forall|k: int| a <= k < b ==> !match_at(s, k),
    ensures
        first_match(s, a) == first_match(s, b),
    decreases b - a,
{
    if a < b {
        lemma_first_match_skip(s, a + 1, b);
    }
}

fn is_space_char(c: char) -> (r: bool)
    ensures
        r == is_space(c),
{
    c == ' ' || c == '\t' || c == '\n' || c == '\r' || c == '\u{b}' || c == '\u{c}'
}

fn is_digit_char(c: char) -> (r: bool)
    ensures
        r == is_digit(c),
{
    let cu = c as u32;
    ('0' as u32) <= cu && cu <= ('9' as u32)
}

/// Measures the whitespace run starting at `from`.
#[verifier::loop_isolation(false)]
fn space_run(cs: &Vec<char>, from: usize) -> (n: usize)
    requires
        from <= cs@.len(),
    ensures
        from + n <= cs@.len(),
        n == space_run_len(cs@, from as int),
{
    let len = cs.len();
    let mut j = from;
    while j < len && is_space_char(cs[j])
        invariant
            from <= j <= len,
            forall|k: int| from <= k < j ==> is_space(#[trigger] cs@[k]),
        decreases len - j,
    {
        j = j + 1;
    }
    proof {
        lemma_space_run_exact(cs@, from as int, j as int);
    }
    j - from
}

/// Measures the digit run starting at `from`.
#[verifier::loop_isolation(false)]
fn digit_run(cs: &Vec<char>, from: usize) -> (n: usize)
    requires
        from <= cs@.len(),
    ensures
        from + n <= cs@.len(),
        n == digit_run_len(cs@, from as int),
{
    let len = cs.len();
    let mut j = from;
    while j < len && is_digit_char(cs[j])
        invariant
            from <= j <= len,
            forall|k: int| from <= k < j ==> is_digit(#[trigger] cs@[k]),
        decreases len - j,
    {
        j = j + 1;
    }
    proof {
        lemma_digit_run_exact(cs@, from as int, j as int);
    }
    j - from
}

/// Tests whether a banner token starts at `i`, returning the three
/// digit-run start offsets on success.
fn match_here(cs: &Vec<char>, i: usize) -> (r: Option<(usize, usize, usize)>)
    requires
        i <= cs@.len(),
    ensures
        match r {
            Some(t) => match_at(cs@, i as int) && t.0 == o_digits1(cs@, i as int) && t.1
                == o_digits2(cs@, i as int) && t.2 == o_digits3(cs@, i as int),
            None => !match_at(cs@, i as int),
        },
{
    let n = cs.len();
    if n - i < 3 {
        return None;
    }
    if cs[i] != 'P' || cs[i + 1] != 'H' || cs[i + 2] != 'P' {
        return None;
    }
    let sp = space_run(cs, i + 3);
    if sp == 0 {
        return None;
    }
    let d1 = i + 3 + sp;
    let r1 = digit_run(cs, d1);
    if r1 == 0 {
        return None;
    }
    let dot1 = d1 + r1;
    if dot1 == n || cs[dot1] != '.' {
        return None;
    }
    let d2 = dot1 + 1;
    let r2 = digit_run(cs, d2);
    if r2 == 0 {
        return None;
    }
    let dot2 = d2 + r2;
    if dot2 == n || cs[dot2] != '.' {
        return None;
    }
    let d3 = dot2 + 1;
    let r3 = digit_run(cs, d3);
    if r3 == 0 {
        return None;
    }
    Some((d1, d2, d3))
}

/// Strict lexicographic order on `(major, minor, patch)`.
pub open spec fn spec_lt(a: PhpVersion, b: PhpVersion) -> bool {
    ||| a.major < b.major
    ||| (a.major == b.major && a.minor < b.minor)
    ||| (a.major == b.major && a.minor == b.minor && a.patch < b.patch)
}

impl PhpVersion {
    pub fn new(major: u32, minor: u32, patch: u32) -> (v: Self)
        ensures
            v == (PhpVersion { major, minor, patch }),
    {
        Self { major, minor, patch }
    }

    /// Extracts the version from interpreter banner text: the leftmost
    /// occurrence of `PHP`, whitespace, and three dot-separated digit
    /// runs yields the triple; trailing non-numeric text is ignored.
    #[verifier::loop_isolation(false)]
    pub fn from_php_output(output: &str) -> (r: Result<Self, ParseError>)
        ensures
            r == spec_parse_result(output@),
    {
        let cs = str_chars(output);
        let n = cs.len();
        let mut i: usize = 0;
        while i < n
            invariant
                0 <= i <= n,
                first_match(cs@, 0) == first_match(cs@, i as int),
            decreases n - i,
        {
            match match_here(&cs, i) {
                Some((d1, d2, d3)) => {
                    proof {
                        assert(first_match(cs@, i as int) == Some(i as int));
                        lemma_digit_run_spec(cs@, d1 as int);
                        lemma_digit_run_spec(cs@, d2 as int);
                        lemma_digit_run_spec(cs@, d3 as int);
                    }
                    let r1 = digit_run(&cs, d1);
                    let r2 = digit_run(&cs, d2);
                    let r3 = digit_run(&cs, d3);
                    let a = parse_u32_in(&cs, d1, d1 + r1);
                    let b = parse_u32_in(&cs, d2, d2 + r2);
                    let c = parse_u32_in(&cs, d3, d3 + r3);
                    proof {
                        let s = cs@;
                        let ii = i as int;
                        let ma = major_seq_at(s, ii);
                        assert(ma == s.subrange(d1 as int, d1 + r1));
                        assert(ma.len() > 0 && is_digit(ma[0]));
                        assert(ma[0] != '+');
                        assert(all_digits(ma));
                        let mi = minor_seq_at(s, ii);
                        assert(mi == s.subrange(d2 as int, d2 + r2));
                        assert(mi.len() > 0 && is_digit(mi[0]));
                        assert(mi[0] != '+');
                        assert(all_digits(mi));
                        let pa = patch_seq_at(s, ii);
                        assert(pa == s.subrange(d3 as int, d3 + r3));
                        assert(pa.len() > 0 && is_digit(pa[0]));
                        assert(pa[0] != '+');
                        assert(all_digits(pa));
                    }
                    return match (a, b, c) {
                        (Some(major), Some(minor), Some(patch)) => Ok(
                            PhpVersion { major, minor, patch },
                        ),
                        _ => Err(ParseError::ComponentOutOfRange),
                    };
                },
                None => {
                    proof {
                        assert(first_match(cs@, i as int) == first_match(cs@, i + 1));
                    }
                    i = i + 1;
                },
            }
        }
        Err(ParseError::NoVersionFound)
    }

    /// Whether this version satisfies the pattern `N`, `N.N` or `N.N.N`:
    /// each present component must equal the corresponding field exactly;
    /// a non-numeric component or any other arity yields `false`.
    pub fn matches(&self, pattern: &str) -> (r: bool)
        ensures
            r == spec_matches(*self, pattern@),
    {
        let cs = str_chars(pattern);
        let n = cs.len();
        match find_dot(&cs, 0) {
            None => {
                proof {
                    lemma_split_no_dots(cs@);
                    assert(cs@.subrange(0, n as int) =~= cs@);
                }
                match parse_u32_in(&cs, 0, n) {
                    Some(m) => m == self.major,
                    None => false,
                }
            },
            Some(k1) => {
                proof {
                    lemma_split_first_dot(cs@, k1 as int);
                }
                match find_dot(&cs, k1 + 1) {
                    None => {
                        proof {
                            let tail = cs@.skip(k1 + 1);
                            assert(forall|j: int| 0 <= j < tail.len() ==> #[trigger] tail[j]
                                != '.');
                            lemma_split_no_dots(tail);
                            assert(cs@.subrange(0, k1 as int) =~= cs@.take(k1 as int));
                            assert(cs@.subrange(k1 + 1, n as int) =~= tail);
                        }
                        let a = parse_u32_in(&cs, 0, k1);
                        let b = parse_u32_in(&cs, k1 + 1, n);
                        match (a, b) {
                            (Some(ma), Some(mi)) => ma == self.major && mi == self.minor,
                            _ => false,
                        }
                    },
                    Some(k2) => {
                        proof {
                            let tail = cs@.skip(k1 + 1);
                            assert(tail[k2 - k1 - 1] == '.');
                            assert(forall|j: int| 0 <= j < k2 - k1 - 1 ==> #[trigger] tail[j]
                                != '.');
                            lemma_split_first_dot(tail, k2 - k1 - 1);
                            assert(tail.take(k2 - k1 - 1) =~= cs@.subrange(k1 + 1, k2 as int));
                            assert(tail.skip(k2 - k1) =~= cs@.skip(k2 + 1));
                        }
                        match find_dot(&cs, k2 + 1) {
                            None => {
                                proof {
                                    let tail2 = cs@.skip(k2 + 1);
                                    assert(forall|j: int| 0 <= j < tail2.len() ==> #[trigger]
                                        tail2[j] != '.');
                                    lemma_split_no_dots(tail2);
                                    assert(cs@.subrange(0, k1 as int) =~= cs@.take(k1 as int));
                                    assert(cs@.subrange(k2 + 1, n as int) =~= tail2);
                                }
                                let a = parse_u32_in(&cs, 0, k1);
                                let b = parse_u32_in(&cs, k1 + 1, k2);
                                let c = parse_u32_in(&cs, k2 + 1, n);
                                match (a, b, c) {
                                    (Some(ma), Some(mi), Some(pa)) => ma == self.major && mi
                                        == self.minor && pa == self.patch,
                                    _ => false,
                                }
                            },
                            Some(k3) => {
                                proof {
                                    let tail2 = cs@.skip(k2 + 1);
                                    assert(tail2[k3 - k2 - 1] == '.');
                                    assert(forall|j: int| 0 <= j < k3 - k2 - 1 ==> #[trigger]
                                        tail2[j] != '.');
                                    lemma_split_first_dot(tail2, k3 - k2 - 1);
                                    lemma_split_dots_len(tail2.skip(k3 - k2));
                                }
                                false
                            },
                        }
                    },
                }
            },
        }
    }

    /// The textual form `major.minor.patch`.
    pub fn to_string(&self) -> (s: String)
        ensures
            s@ == spec_version_string(*self),
    {
        proof {
            reveal_strlit(".");
        }
        let mut s = String::new();
        push_decimal(&mut s, self.major);
        s.append(".");
        push_decimal(&mut s, self.minor);
        s.append(".");
        push_decimal(&mut s, self.patch);
        proof {
            assert(s@ =~= spec_version_string(*self));
        }
        s
    }

    /// The textual form `major.minor`, without the patch component.
    pub fn short_version(&self) -> (s: String)
        ensures
            s@ == dec_rep(self.major as nat) + seq!['.'] + dec_rep(self.minor as nat),
    {
        proof {
            reveal_strlit(".");
        }
        let mut s = String::new();
        push_decimal(&mut s, self.major);
        s.append(".");
        push_decimal(&mut s, self.minor);
        proof {
            assert(s@ =~= dec_rep(self.major as nat) + seq!['.'] + dec_rep(self.minor as nat));
        }
        s
    }
}

/// Banner parsing recovers the version exactly: in text built of a
/// prefix, the token `PHP <major>.<minor>.<patch>`, and a suffix that
/// does not begin with a digit, the leftmost banner token yields
/// precisely the three components — provided no banner token starts
/// already inside the prefix (the first match is the one used).
pub proof fn lemma_parse_recovers(prefix: Seq<char>, v: PhpVersion, suffix: Seq<char>)
    requires
        forall|k: int|
            0 <= k < prefix.len() ==> !match_at(
                prefix + seq!['P', 'H', 'P', ' '] + spec_version_string(v) + suffix,
                k,
            ),
        suffix.len() == 0 || !is_digit(suffix[0]),
    ensures
        spec_find_version(prefix + seq!['P', 'H', 'P', ' '] + spec_version_string(v) + suffix)
            == Some(
            (dec_rep(v.major as nat), dec_rep(v.minor as nat), dec_rep(v.patch as nat)),
        ),
{
    let a = dec_rep(v.major as nat);
    let b = dec_rep(v.minor as nat);
    let c = dec_rep(v.patch as nat);
    lemma_dec_rep_digits(v.major as nat);
    lemma_dec_rep_digits(v.minor as nat);
    lemma_dec_rep_digits(v.patch as nat);
    let s = prefix + seq!['P', 'H', 'P', ' '] + spec_version_string(v) + suffix;
    let p = prefix.len() as int;
    let al = a.len() as int;
    let bl = b.len() as int;
    let cl = c.len() as int;
    assert(s.len() == p + 4 + al + 1 + bl + 1 + cl + suffix.len());
    assert(forall|k: int| 0 <= k < p ==> s[k] == prefix[k]);
    assert(s[p] == 'P');
    assert(s[p + 1] == 'H');
    assert(s[p + 2] == 'P');
    assert(s[p + 3] == ' ');
    assert(forall|k: int| 0 <= k < al ==> s[p + 4 + k] == #[trigger] a[k]);
    assert(s[p + 4 + al] == '.');
    assert(forall|k: int| 0 <= k < bl ==> s[p + 5 + al + k] == #[trigger] b[k]);
    assert(s[p + 5 + al + bl] == '.');
    assert(forall|k: int| 0 <= k < cl ==> s[p + 6 + al + bl + k] == #[trigger] c[k]);
    assert(forall|k: int| 0 <= k < suffix.len() ==> s[p + 6 + al + bl + cl + k]
        == #[trigger] suffix[k]);
    // The whitespace run after `PHP` is the single blank.
    assert(is_digit(a[0]) && !is_space(s[p + 4]));
    lemma_space_run_exact(s, p + 3, p + 4);
    assert(o_digits1(s, p) == p + 4);
    // The three digit runs are exactly the three components.
    assert(forall|k: int| p + 4 <= k < p + 4 + al ==> is_digit(#[trigger] s[k]));
    lemma_digit_run_exact(s, p + 4, p + 4 + al);
    assert(o_digits2(s, p) == p + 5 + al);
    assert(forall|k: int| p + 5 + al <= k < p + 5 + al + bl ==> is_digit(#[trigger] s[k]));
    lemma_digit_run_exact(s, p + 5 + al, p + 5 + al + bl);
    assert(o_digits3(s, p) == p + 6 + al + bl);
    assert(forall|k: int| p + 6 + al + bl <= k < p + 6 + al + bl + cl ==> is_digit(
        #[trigger] s[k],
    ));
    if suffix.len() == 0 {
        lemma_digit_run_exact(s, p + 6 + al + bl, p + 6 + al + bl + cl);
    } else {
        assert(s[p + 6 + al + bl + cl] == suffix[0]);
        lemma_digit_run_exact(s, p + 6 + al + bl, p + 6 + al + bl + cl);
    }
    assert(match_at(s, p));
    lemma_first_match_skip(s, 0, p);
    assert(first_match(s, p) == Some(p));
    assert(major_seq_at(s, p) =~= a);
    assert(minor_seq_at(s, p) =~= b);
    assert(patch_seq_at(s, p) =~= c);
}

/// A version always matches its own textual form: for every `v`,
/// `v.matches(v.to_string())` returns true.
pub proof fn lemma_matches_reflexive(v: PhpVersion)
    ensures
        spec_matches(v, spec_version_string(v)),
{
    let a = dec_rep(v.major as nat);
    let b = dec_rep(v.minor as nat);
    let c = dec_rep(v.patch as nat);
    let s = spec_version_string(v);
    lemma_dec_rep_digits(v.major as nat);
    lemma_dec_rep_digits(v.minor as nat);
    lemma_dec_rep_digits(v.patch as nat);
    lemma_dec_rep_val(v.major as nat);
    lemma_dec_rep_val(v.minor as nat);
    lemma_dec_rep_val(v.patch as nat);
    let k1 = a.len() as int;
    assert(s[k1] == '.');
    assert(forall|j: int| 0 <= j < k1 ==> #[trigger] s[j] == a[j] && is_digit(a[j]));
    lemma_split_first_dot(s, k1);
    let tail = s.skip(k1 + 1);
    assert(tail =~= b + seq!['.'] + c);
    let k2 = b.len() as int;
    assert(tail[k2] == '.');
    assert(forall|j: int| 0 <= j < k2 ==> #[trigger] tail[j] == b[j] && is_digit(b[j]));
    lemma_split_first_dot(tail, k2);
    let tail2 = tail.skip(k2 + 1);
    assert(tail2 =~= c);
    lemma_split_no_dots(c);
    assert(s.take(k1) =~= a);
    assert(tail.take(k2) =~= b);
    assert(split_dots(s) =~= seq![a, b, c]);
    assert(parse_u32_spec(a) == Some(v.major));
    assert(parse_u32_spec(b) == Some(v.minor));
    assert(parse_u32_spec(c) == Some(v.patch));
}

/// The version order is trichotomous: of `a < b`, `a == b`, `b < a`
/// exactly one holds for any two versions.
pub proof fn lemma_version_order_trichotomy(a: PhpVersion, b: PhpVersion)
    ensures
        spec_lt(a, b) || a == b || spec_lt(b, a),
        spec_lt(a, b) ==> !(a == b) && !spec_lt(b, a),
        a == b ==> !spec_lt(a, b) && !spec_lt(b, a),
        spec_lt(b, a) ==> !(a == b) && !spec_lt(a, b),
{
}

/// The version order is transitive.
pub proof fn lemma_version_order_transitive(a: PhpVersion, b: PhpVersion, c: PhpVersion)
    requires
        spec_lt(a, b),
        spec_lt(b, c),
    ensures
        spec_lt(a, c),
{
}

impl PartialOrd for PhpVersion {
    fn partial_cmp(&self, other: &Self) -> (r: Option<core::cmp::Ordering>) {
        if self.major != other.major {
            if self.major < other.major {
                Some(core::cmp::Ordering::Less)
            } else {
                Some(core::cmp::Ordering::Greater)
            }
        } else if self.minor != other.minor {
            if self.minor < other.minor {
                Some(core::cmp::Ordering::Less)
            } else {
                Some(core::cmp::Ordering::Greater)
            }
        } else if self.patch != other.patch {
            if self.patch < other.patch {
                Some(core::cmp::Ordering::Less)
            } else {
                Some(core::cmp::Ordering::Greater)
            }
        } else {
            Some(core::cmp::Ordering::Equal)
        }
    }
}

impl vstd::std_specs::cmp::PartialOrdSpecImpl for PhpVersion {
    open spec fn obeys_partial_cmp_spec() -> bool {
        true
    }

    open spec fn partial_cmp_spec(&self, other: &Self) -> Option<core::cmp::Ordering> {
        if spec_lt(*self, *other) {
            Some(core::cmp::Ordering::Less)
        } else if spec_lt(*other, *self) {
            Some(core::cmp::Ordering::Greater)
        } else {
            Some(core::cmp::Ordering::Equal)
        }
    }
}

} // verus!
