//! Character-level text helpers: character classes, maximal runs, substring
//! search, trimming, ASCII case folding and decimal rendering.  Everything
//! here is stated over `Seq<char>` views.
use vstd::prelude::*;

verus! {

use vstd::string::StrSliceExecFns;

// ---------------------------------------------------------------------------
// Character classes
// ---------------------------------------------------------------------------
pub open spec fn is_digit(c: char) -> bool {
    '0' <= c && c <= '9'
}

/// Whitespace, restricted to the ASCII range.
pub open spec fn is_ws(c: char) -> bool {
    c == ' ' || c == '\t' || c == '\n' || c == '\r' || c == '\u{0B}' || c == '\u{0C}'
}

/// Lower-case letter or digit, as allowed in a host subdomain.
pub open spec fn is_subdomain_char(c: char) -> bool {
    ('a' <= c && c <= 'z') || ('0' <= c && c <= '9')
}

pub open spec fn digit_pred() -> spec_fn(char) -> bool {
    |c: char| is_digit(c)
}

pub open spec fn ws_pred() -> spec_fn(char) -> bool {
    |c: char| is_ws(c)
}

pub open spec fn subdomain_pred() -> spec_fn(char) -> bool {
    |c: char| is_subdomain_char(c)
}

/// Characters other than a closing square bracket (a link label).
pub open spec fn not_rbracket_pred() -> spec_fn(char) -> bool {
    |c: char| c != ']'
}

/// Characters other than a closing parenthesis (a mention label).
pub open spec fn not_rparen_pred() -> spec_fn(char) -> bool {
    |c: char| c != ')'
}

/// Characters other than a line break.
pub open spec fn not_newline_pred() -> spec_fn(char) -> bool {
    |c: char| c != '\n'
}

// ---------------------------------------------------------------------------
// Maximal runs of a character class
// ---------------------------------------------------------------------------
/// Length of the maximal run of characters satisfying `p` starting at `i`.
pub open spec fn run_len(s: Seq<char>, i: int, p: spec_fn(char) -> bool) -> nat
    decreases s.len() - i,
{
    if i < 0 || i >= s.len() || !p(s[i]) {
        0
    } else {
        1 + run_len(s, i + 1, p)
    }
}

/// Length of the maximal run of characters satisfying `p` that ends just
/// before position `i` (scanning backwards).
pub open spec fn rev_run_len(s: Seq<char>, i: int, p: spec_fn(char) -> bool) -> nat
    decreases i,
{
    if i <= 0 || i > s.len() || !p(s[i - 1]) {
        0
    } else {
        1 + rev_run_len(s, i - 1, p)
    }
}

/// The run starting at `i` stays in bounds, consists of `p`-characters, and
/// is maximal.
pub proof fn lemma_run(s: Seq<char>, i: int, p: spec_fn(char) -> bool)
    requires
        0 <= i <= s.len(),
    ensures
        i + run_len(s, i, p) <= s.len(),
        forall|j: int| i <= j < i + run_len(s, i, p) ==> p(s[j]),
        i + run_len(s, i, p) < s.len() ==> !p(s[i + run_len(s, i, p)]),
    decreases s.len() - i,
{
    if i < s.len() && p(s[i]) {
        lemma_run(s, i + 1, p);
    }
}

/// The backwards run ending before `i` stays in bounds, consists of
/// `p`-characters, and is maximal.
pub proof fn lemma_rev_run(s: Seq<char>, i: int, p: spec_fn(char) -> bool)
    requires
        0 <= i <= s.len(),
    ensures
        rev_run_len(s, i, p) <= i,
        forall|j: int| i - rev_run_len(s, i, p) <= j < i ==> p(s[j]),
        i - rev_run_len(s, i, p) > 0 ==> !p(s[i - rev_run_len(s, i, p) - 1]),
    decreases i,
{
    if i > 0 && p(s[i - 1]) {
        lemma_rev_run(s, i - 1, p);
    }
}

/// A run is exactly `l` when `l` characters satisfy `p` and the next one,
/// if any, does not.
pub proof fn lemma_run_exact(s: Seq<char>, i: int, l: int, p: spec_fn(char) -> bool)
    requires
        0 <= i,
        0 <= l,
        i + l <= s.len(),
        forall|j: int| i <= j < i + l ==> p(s[j]),
        i + l < s.len() ==> !p(s[i + l]),
    ensures
        run_len(s, i, p) == l,
    decreases l,
{
    if l == 0 {
    } else {
        lemma_run_exact(s, i + 1, l - 1, p);
    }
}

// ---------------------------------------------------------------------------
// Substring search
// ---------------------------------------------------------------------------
/// `pat` occurs in `s` starting at position `i`.
pub open spec fn matches_at(s: Seq<char>, i: int, pat: Seq<char>) -> bool {
    0 <= i && i + pat.len() <= s.len() && forall|k: int|
        0 <= k < pat.len() ==> s[i + k] == pat[k]
}

/// `pat` occurs somewhere in `s`.
pub open spec fn contains_pat(s: Seq<char>, pat: Seq<char>) -> bool {
    exists|i: int| matches_at(s, i, pat)
}

/// A match in the suffix of a concatenation is a match in the suffix.
pub proof fn lemma_matches_shift(a: Seq<char>, b: Seq<char>, i: int, pat: Seq<char>)
    requires
        0 <= i,
    ensures
        matches_at(a + b, a.len() + i, pat) == matches_at(b, i, pat),
{
    if matches_at(a + b, a.len() + i, pat) {
        assert forall|k: int| 0 <= k < pat.len() implies b[i + k] == pat[k] by {
            assert((a + b)[a.len() + i + k] == b[i + k]);
        }
    }
    if matches_at(b, i, pat) {
        assert forall|k: int| 0 <= k < pat.len() implies (a + b)[a.len() + i + k] == pat[k] by {
            assert((a + b)[a.len() + i + k] == b[i + k]);
        }
    }
}

// ---------------------------------------------------------------------------
// Exec character-class tests
// ---------------------------------------------------------------------------
pub fn digit_char_test(c: char) -> (r: bool)
    ensures
        r == is_digit(c),
{
    '0' <= c && c <= '9'
}

pub fn ws_char_test(c: char) -> (r: bool)
    ensures
        r == is_ws(c),
{
    c == ' ' || c == '\t' || c == '\n' || c == '\r' || c == '\u{0B}' || c == '\u{0C}'
}

pub fn subdomain_char_test(c: char) -> (r: bool)
    ensures
        r == is_subdomain_char(c),
{
    ('a' <= c && c <= 'z') || ('0' <= c && c <= '9')
}

// ---------------------------------------------------------------------------
// Exec runs
// ---------------------------------------------------------------------------
/// The length of the maximal digit run starting at `i`.
pub fn digit_run_from(v: &Vec<char>, i: usize) -> (r: usize)
    requires
        i <= v@.len(),
    ensures
        r == run_len(v@, i as int, digit_pred()),
        i + r <= v@.len(),
{
    let mut j = i;
    while j < v.len() && digit_char_test(v[j])
        invariant
            i <= j <= v@.len(),
            run_len(v@, i as int, digit_pred()) == (j - i) + run_len(v@, j as int, digit_pred()),
        decreases v@.len() - j,
    {
        j = j + 1;
    }
    proof {
        lemma_run(v@, i as int, digit_pred());
    }
    j - i
}

/// The length of the maximal whitespace run starting at `i`.
pub fn ws_run_from(v: &Vec<char>, i: usize) -> (r: usize)
    requires
        i <= v@.len(),
    ensures
        r == run_len(v@, i as int, ws_pred()),
        i + r <= v@.len(),
{
    let mut j = i;
    while j < v.len() && ws_char_test(v[j])
        invariant
            i <= j <= v@.len(),
            run_len(v@, i as int, ws_pred()) == (j - i) + run_len(v@, j as int, ws_pred()),
        decreases v@.len() - j,
    {
        j = j + 1;
    }
    proof {
        lemma_run(v@, i as int, ws_pred());
    }
    j - i
}

/// The length of the maximal subdomain-character run starting at `i`.
pub fn subdomain_run_from(v: &Vec<char>, i: usize) -> (r: usize)
    requires
        i <= v@.len(),
    ensures
        r == run_len(v@, i as int, subdomain_pred()),
        i + r <= v@.len(),
{
    let mut j = i;
    while j < v.len() && subdomain_char_test(v[j])
        invariant
            i <= j <= v@.len(),
            run_len(v@, i as int, subdomain_pred()) == (j - i) + run_len(
                v@,
                j as int,
                subdomain_pred(),
            ),
        decreases v@.len() - j,
    {
        j = j + 1;
    }
    proof {
        lemma_run(v@, i as int, subdomain_pred());
    }
    j - i
}

/// The length of the maximal run of non-`]` characters starting at `i`.
pub fn not_rbracket_run_from(v: &Vec<char>, i: usize) -> (r: usize)
    requires
        i <= v@.len(),
    ensures
        r == run_len(v@, i as int, not_rbracket_pred()),
        i + r <= v@.len(),
{
    let mut j = i;
    while j < v.len() && v[j] != ']'
        invariant
            i <= j <= v@.len(),
            run_len(v@, i as int, not_rbracket_pred()) == (j - i) + run_len(
                v@,
                j as int,
                not_rbracket_pred(),
            ),
        decreases v@.len() - j,
    {
        j = j + 1;
    }
    proof {
        lemma_run(v@, i as int, not_rbracket_pred());
    }
    j - i
}

/// The length of the maximal run of non-`)` characters starting at `i`.
pub fn not_rparen_run_from(v: &Vec<char>, i: usize) -> (r: usize)
    requires
        i <= v@.len(),
    ensures
        r == run_len(v@, i as int, not_rparen_pred()),
        i + r <= v@.len(),
{
    let mut j = i;
    while j < v.len() && v[j] != ')'
        invariant
            i <= j <= v@.len(),
            run_len(v@, i as int, not_rparen_pred()) == (j - i) + run_len(
                v@,
                j as int,
                not_rparen_pred(),
            ),
        decreases v@.len() - j,
    {
        j = j + 1;
    }
    proof {
        lemma_run(v@, i as int, not_rparen_pred());
    }
    j - i
}

// ---------------------------------------------------------------------------
// Exec substring search
// ---------------------------------------------------------------------------
/// Does `pat` occur in `v` at position `i`?
pub fn match_lit(v: &Vec<char>, i: usize, pat: &str) -> (r: bool)
    ensures
        r == matches_at(v@, i as int, pat@),
{
    let n = v.len();
    let m = pat.unicode_len();
    if i > n || m > n - i {
        return false;
    }
    let mut k: usize = 0;
    while k < m
        invariant
            n == v@.len(),
            i + m <= n,
            m == pat@.len(),
            k <= m,
            forall|q: int| 0 <= q < k ==> v@[i + q] == pat@[q],
        decreases m - k,
    {
        if v[i + k] != pat.get_char(k) {
            return false;
        }
        k = k + 1;
    }
    true
}

/// The position of the leftmost occurrence of `pat` in `v`, if any.
pub fn find_pat(v: &Vec<char>, pat: &str) -> (r: Option<usize>)
    ensures
        match r {
            Some(i) => matches_at(v@, i as int, pat@) && forall|j: int|
                0 <= j < i ==> !matches_at(v@, j as int, pat@),
            None => !contains_pat(v@, pat@),
        },
{
    let n = v.len();
    if pat.unicode_len() == 0 {
        return Some(0);
    }
    let mut i: usize = 0;
    while i < n
        invariant
            n == v@.len(),
            pat@.len() >= 1,
            i <= n,
            forall|j: int| 0 <= j < i ==> !matches_at(v@, j as int, pat@),
        decreases n - i,
    {
        if match_lit(v, i, pat) {
            return Some(i);
        }
        i = i + 1;
    }
    proof {
        assert(forall|j: int| matches_at(v@, j, pat@) ==> 0 <= j && j + pat@.len() <= v@.len());
    }
    None
}

/// Does `pat` occur anywhere in `v`?
pub fn contains_lit(v: &Vec<char>, pat: &str) -> (r: bool)
    ensures
        r == contains_pat(v@, pat@),
{
    match find_pat(v, pat) {
        Some(_) => true,
        None => false,
    }
}

// ---------------------------------------------------------------------------
// ASCII case folding
// ---------------------------------------------------------------------------
/// ASCII lower-casing of one character; other characters pass unchanged.
pub open spec fn lower_char(c: char) -> char {
    if 'A' <= c && c <= 'Z' {
        (((c as u8) + 32) as char)
    } else {
        c
    }
}

/// ASCII upper-casing of one character; other characters pass unchanged.
pub open spec fn upper_char(c: char) -> char {
    if 'a' <= c && c <= 'z' {
        (((c as u8) - 32) as char)
    } else {
        c
    }
}

pub fn lower_char_exec(c: char) -> (r: char)
    ensures
        r == lower_char(c),
{
    if 'A' <= c && c <= 'Z' {
        (((c as u8) + 32) as char)
    } else {
        c
    }
}

pub open spec fn lower_seq(s: Seq<char>) -> Seq<char> {
    s.map_values(|c: char| lower_char(c))
}

pub open spec fn upper_seq(s: Seq<char>) -> Seq<char> {
    s.map_values(|c: char| upper_char(c))
}

pub fn lower_vec(v: &Vec<char>) -> (r: Vec<char>)
    ensures
        r@ == lower_seq(v@),
{
    let mut out: Vec<char> = Vec::new();
    let mut i: usize = 0;
    while i < v.len()
        invariant
            i <= v@.len(),
            out@ == lower_seq(v@.subrange(0, i as int)),
        decreases v@.len() - i,
    {
        let c = v[i];
        let mapped = if 'A' <= c && c <= 'Z' {
            (((c as u8) + 32) as char)
        } else {
            c
        };
        out.push(mapped);
        proof {
            assert(lower_seq(v@.subrange(0, i + 1)) =~= lower_seq(v@.subrange(0, i as int)).push(
                lower_char(v@[i as int]),
            ));
        }
        i = i + 1;
    }
    proof {
        assert(v@.subrange(0, v@.len() as int) =~= v@);
    }
    out
}

pub fn upper_vec(v: &Vec<char>) -> (r: Vec<char>)
    ensures
        r@ == upper_seq(v@),
{
    let mut out: Vec<char> = Vec::new();
    let mut i: usize = 0;
    while i < v.len()
        invariant
            i <= v@.len(),
            out@ == upper_seq(v@.subrange(0, i as int)),
        decreases v@.len() - i,
    {
        let c = v[i];
        let mapped = if 'a' <= c && c <= 'z' {
            (((c as u8) - 32) as char)
        } else {
            c
        };
        out.push(mapped);
        proof {
            assert(upper_seq(v@.subrange(0, i + 1)) =~= upper_seq(v@.subrange(0, i as int)).push(
                upper_char(v@[i as int]),
            ));
        }
        i = i + 1;
    }
    proof {
        assert(v@.subrange(0, v@.len() as int) =~= v@);
    }
    out
}

// ---------------------------------------------------------------------------
// Trimming
// ---------------------------------------------------------------------------
/// `s` without leading and trailing whitespace.
pub open spec fn trim_spec(s: Seq<char>) -> Seq<char> {
    let a = run_len(s, 0, ws_pred());
    if a == s.len() {
        Seq::empty()
    } else {
        s.subrange(a as int, s.len() - rev_run_len(s, s.len() as int, ws_pred()))
    }
}

/// When the string is not all whitespace, its trailing whitespace run stops
/// before its leading run's end.
pub proof fn lemma_trim_bounds(s: Seq<char>)
    requires
        run_len(s, 0, ws_pred()) < s.len(),
    ensures
        run_len(s, 0, ws_pred()) < s.len() - rev_run_len(s, s.len() as int, ws_pred()),
{
    let a = run_len(s, 0, ws_pred());
    let b = rev_run_len(s, s.len() as int, ws_pred());
    lemma_run(s, 0, ws_pred());
    lemma_rev_run(s, s.len() as int, ws_pred());
    if s.len() - b <= a {
        assert(is_ws(s[a as int]));
    }
}

pub fn trim_vec(v: &Vec<char>) -> (r: Vec<char>)
    ensures
        r@ == trim_spec(v@),
{
    let a = ws_run_from(v, 0);
    if a == v.len() {
        let out: Vec<char> = Vec::new();
        return out;
    }
    proof {
        lemma_trim_bounds(v@);
        lemma_rev_run(v@, v@.len() as int, ws_pred());
    }
    let mut b: usize = v.len();
    while b > 0 && ws_char_test(v[b - 1])
        invariant
            b <= v@.len(),
            rev_run_len(v@, v@.len() as int, ws_pred()) == (v@.len() - b) + rev_run_len(
                v@,
                b as int,
                ws_pred(),
            ),
        decreases b,
    {
        b = b - 1;
    }
    sub_vec(v, a, b)
}

// ---------------------------------------------------------------------------
// Extraction and assembly
// ---------------------------------------------------------------------------
/// A copy of `v[a..b]`.
pub fn sub_vec(v: &Vec<char>, a: usize, b: usize) -> (r: Vec<char>)
    requires
        a <= b <= v@.len(),
    ensures
        r@ == v@.subrange(a as int, b as int),
{
    let mut out: Vec<char> = Vec::new();
    let mut i = a;
    while i < b
        invariant
            a <= i <= b <= v@.len(),
            out@ == v@.subrange(a as int, i as int),
        decreases b - i,
    {
        out.push(v[i]);
        proof {
            assert(v@.subrange(a as int, i + 1) =~= v@.subrange(a as int, i as int).push(
                v@[i as int],
            ));
        }
        i = i + 1;
    }
    out
}

/// A copy of a character vector.
pub fn copy_chars(v: &Vec<char>) -> (r: Vec<char>)
    ensures
        r@ == v@,
{
    let r = sub_vec(v, 0, v.len());
    proof {
        assert(v@.subrange(0, v@.len() as int) =~= v@);
    }
    r
}

/// Do two character vectors hold the same characters?
pub fn eq_chars(a: &Vec<char>, b: &Vec<char>) -> (r: bool)
    ensures
        r == (a@ == b@),
{
    if a.len() != b.len() {
        return false;
    }
    let n = a.len();
    let mut i: usize = 0;
    while i < n
        invariant
            n == a@.len() == b@.len(),
            i <= n,
            forall|k: int| 0 <= k < i ==> a@[k] == b@[k],
        decreases n - i,
    {
        if a[i] != b[i] {
            return false;
        }
        i = i + 1;
    }
    proof {
        assert(a@ =~= b@);
    }
    true
}

/// The characters of a string slice.
pub fn chars_of(s: &str) -> (v: Vec<char>)
    ensures
        v@ == s@,
{
    let n = s.unicode_len();
    let mut out: Vec<char> = Vec::new();
    let mut i: usize = 0;
    while i < n
        invariant
            n == s@.len(),
            i <= n,
            out@ == s@.subrange(0, i as int),
        decreases n - i,
    {
        out.push(s.get_char(i));
        proof {
            assert(s@.subrange(0, i + 1) =~= s@.subrange(0, i as int).push(s@[i as int]));
        }
        i = i + 1;
    }
    proof {
        assert(s@.subrange(0, n as int) =~= s@);
    }
    out
}

/// Relies on String::push: appends one character to the string.
#[verifier::external_body]
pub(crate) fn push_char(s: &mut String, c: char)
    ensures
        final(s)@ == old(s)@.push(c),
{
    s.push(c)
}

/// A `String` holding exactly the characters of `v`.
pub fn chars_to_string(v: &Vec<char>) -> (s: String)
    ensures
        s@ == v@,
{
    let mut out = String::new();
    let mut i: usize = 0;
    while i < v.len()
        invariant
            i <= v@.len(),
            out@ == v@.subrange(0, i as int),
        decreases v@.len() - i,
    {
        push_char(&mut out, v[i]);
        proof {
            assert(v@.subrange(0, i + 1) =~= v@.subrange(0, i as int).push(v@[i as int]));
        }
        i = i + 1;
    }
    proof {
        assert(v@.subrange(0, v@.len() as int) =~= v@);
    }
    out
}

/// Appends the characters of `v` to the string.
pub fn append_chars(s: &mut String, v: &Vec<char>)
    ensures
        final(s)@ == old(s)@ + v@,
{
    let mut i: usize = 0;
    proof {
        assert(old(s)@ + v@.subrange(0, 0) =~= old(s)@);
    }
    while i < v.len()
        invariant
            i <= v@.len(),
            s@ == old(s)@ + v@.subrange(0, i as int),
        decreases v@.len() - i,
    {
        push_char(s, v[i]);
        proof {
            assert(old(s)@ + v@.subrange(0, i + 1) =~= (old(s)@ + v@.subrange(0, i as int)).push(
                v@[i as int],
            ));
        }
        i = i + 1;
    }
    proof {
        assert(v@.subrange(0, v@.len() as int) =~= v@);
    }
}

/// A character is one of the bytes forbidden in file names on Windows.
pub open spec fn is_forbidden_char(c: char) -> bool {
    c == '<' || c == '>' || c == ':' || c == '"' || c == '/' || c == '\\' || c == '|' || c == '?'
        || c == '*'
}

/// The sanitised form of a file name: every forbidden byte becomes an
/// underscore.
pub open spec fn sanitized(s: Seq<char>) -> Seq<char> {
    s.map_values(|c: char| if is_forbidden_char(c) { '_' } else { c })
}

// ---------------------------------------------------------------------------
// Decimal rendering
// ---------------------------------------------------------------------------
/// The character for one decimal digit.
pub open spec fn digit_char_of(d: nat) -> char {
    if d == 0 {
        '0'
    } else if d == 1 {
        '1'
    } else if d == 2 {
        '2'
    } else if d == 3 {
        '3'
    } else if d == 4 {
        '4'
    } else if d == 5 {
        '5'
    } else if d == 6 {
        '6'
    } else if d == 7 {
        '7'
    } else if d == 8 {
        '8'
    } else {
        '9'
    }
}

/// The decimal digits of `n`, most significant first.
pub open spec fn dec_digits(n: nat) -> Seq<char>
    decreases n,
{
    if n < 10 {
        seq![digit_char_of(n)]
    } else {
        dec_digits(n / 10).push(digit_char_of(n % 10))
    }
}

fn digit_char_exec(d: u64) -> (c: char)
    requires
        d < 10,
    ensures
        c == digit_char_of(d as nat),
{
    if d == 0 {
        '0'
    } else if d == 1 {
        '1'
    } else if d == 2 {
        '2'
    } else if d == 3 {
        '3'
    } else if d == 4 {
        '4'
    } else if d == 5 {
        '5'
    } else if d == 6 {
        '6'
    } else if d == 7 {
        '7'
    } else if d == 8 {
        '8'
    } else {
        '9'
    }
}

/// Appends the decimal digits of `n` to `out`.
pub fn push_dec(out: &mut Vec<char>, n: u64)
    ensures
        final(out)@ == old(out)@ + dec_digits(n as nat),
    decreases n,
{
    if n < 10 {
        out.push(digit_char_exec(n));
        proof {
            assert(out@ =~= old(out)@ + dec_digits(n as nat));
        }
    } else {
        push_dec(out, n / 10);
        out.push(digit_char_exec(n % 10));
        proof {
            assert(out@ =~= old(out)@ + dec_digits(n as nat));
        }
    }
}

/// The decimal rendering of an unsigned number.
pub fn dec_string(n: u64) -> (s: String)
    ensures
        s@ == dec_digits(n as nat),
{
    let mut v: Vec<char> = Vec::new();
    push_dec(&mut v, n);
    proof {
        assert(v@ =~= dec_digits(n as nat));
    }
    chars_to_string(&v)
}

/// The decimal rendering of a signed number, with a leading minus sign when
/// negative.
pub open spec fn dec_digits_signed(n: int) -> Seq<char> {
    if n < 0 {
        seq!['-'] + dec_digits((-n) as nat)
    } else {
        dec_digits(n as nat)
    }
}

/// Appends the decimal rendering of a signed number to `out`.
pub fn push_dec_signed(out: &mut Vec<char>, n: i64)
    ensures
        final(out)@ == old(out)@ + dec_digits_signed(n as int),
{
    if n < 0 {
        out.push('-');
        let mag: u64 = ((-(n as i128)) as u64);
        push_dec(out, mag);
        proof {
            assert(out@ =~= old(out)@ + dec_digits_signed(n as int));
        }
    } else {
        push_dec(out, n as u64);
    }
}

} // verus!
