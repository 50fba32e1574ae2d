//! Title cleaning: strips decorative noise from a recovered link label.
//! The stages run in a fixed order: embedded-link label extraction, cut at an
//! arrow separator, cut at a trailing URL, trailing punctuation, leading and
//! trailing decorative bullets, removal of `(lien)` markers, and a final trim.
use vstd::prelude::*;

verus! {

use crate::text::chars_of;
use crate::text::chars_to_string;
use crate::text::digit_pred;
use crate::text::digit_run_from;
use crate::text::lemma_run;
use crate::text::lower_char;
use crate::text::lower_seq;
use crate::text::match_lit;
use crate::text::matches_at;
use crate::text::not_rbracket_pred;
use crate::text::not_rbracket_run_from;
use crate::text::rev_run_len;
use crate::text::run_len;
use crate::text::sub_vec;
use crate::text::trim_spec;
use crate::text::trim_vec;
use crate::text::ws_char_test;
use crate::text::ws_pred;
use crate::text::ws_run_from;

// ---------------------------------------------------------------------------
// Character classes used by the cleaning stages
// ---------------------------------------------------------------------------
/// Dash-like characters that may precede an arrow head.
pub open spec fn is_dashy(c: char) -> bool {
    c == '-' || c == '–' || c == '—' || c == '='
}

/// Arrow heads: everything after `dashes + arrow` is cut.
pub open spec fn is_arrow_head(c: char) -> bool {
    c == '>' || c == '→' || c == '»'
}

/// Decorative bullets stripped from the edges of a title.
pub open spec fn is_decor(c: char) -> bool {
    c == '-' || c == '–' || c == '—' || c == '\'' || c == '»' || c == '«' || c == '•' || c == '*'
        || c == '·'
}

/// Punctuation stripped from the end of a title.
pub open spec fn is_trail_punct(c: char) -> bool {
    c == ':' || c == '-' || c == '–' || c == '—'
}

pub open spec fn dashy_pred() -> spec_fn(char) -> bool {
    |c: char| is_dashy(c)
}

pub open spec fn decor_pred() -> spec_fn(char) -> bool {
    |c: char| is_decor(c)
}

pub open spec fn trail_punct_pred() -> spec_fn(char) -> bool {
    |c: char| is_trail_punct(c)
}

fn dashy_test(c: char) -> (r: bool)
    ensures
        r == is_dashy(c),
{
    c == '-' || c == '–' || c == '—' || c == '='
}

fn decor_test(c: char) -> (r: bool)
    ensures
        r == is_decor(c),
{
    c == '-' || c == '–' || c == '—' || c == '\'' || c == '»' || c == '«' || c == '•' || c == '*'
        || c == '·'
}

fn trail_punct_test(c: char) -> (r: bool)
    ensures
        r == is_trail_punct(c),
{
    c == ':' || c == '-' || c == '–' || c == '—'
}

fn dashy_run_from(v: &Vec<char>, i: usize) -> (r: usize)
    requires
        i <= v@.len(),
    ensures
        r == run_len(v@, i as int, dashy_pred()),
        i + r <= v@.len(),
{
    let mut j = i;
    while j < v.len() && dashy_test(v[j])
        invariant
            i <= j <= v@.len(),
            run_len(v@, i as int, dashy_pred()) == (j - i) + run_len(v@, j as int, dashy_pred()),
        decreases v@.len() - j,
    {
        j = j + 1;
    }
    proof {
        lemma_run(v@, i as int, dashy_pred());
    }
    j - i
}

fn decor_run_from(v: &Vec<char>, i: usize) -> (r: usize)
    requires
        i <= v@.len(),
    ensures
        r == run_len(v@, i as int, decor_pred()),
        i + r <= v@.len(),
{
    let mut j = i;
    while j < v.len() && decor_test(v[j])
        invariant
            i <= j <= v@.len(),
            run_len(v@, i as int, decor_pred()) == (j - i) + run_len(v@, j as int, decor_pred()),
        decreases v@.len() - j,
    {
        j = j + 1;
    }
    proof {
        lemma_run(v@, i as int, decor_pred());
    }
    j - i
}

fn rev_ws_run_from(v: &Vec<char>, i: usize) -> (r: usize)
    requires
        i <= v@.len(),
    ensures
        r == rev_run_len(v@, i as int, ws_pred()),
        r <= i,
{
    let mut b = i;
    while b > 0 && ws_char_test(v[b - 1])
        invariant
            b <= i <= v@.len(),
            rev_run_len(v@, i as int, ws_pred()) == (i - b) + rev_run_len(v@, b as int, ws_pred()),
        decreases b,
    {
        b = b - 1;
    }
    i - b
}

fn rev_decor_run_from(v: &Vec<char>, i: usize) -> (r: usize)
    requires
        i <= v@.len(),
    ensures
        r == rev_run_len(v@, i as int, decor_pred()),
        r <= i,
{
    let mut b = i;
    while b > 0 && decor_test(v[b - 1])
        invariant
            b <= i <= v@.len(),
            rev_run_len(v@, i as int, decor_pred()) == (i - b) + rev_run_len(
                v@,
                b as int,
                decor_pred(),
            ),
        decreases b,
    {
        b = b - 1;
    }
    i - b
}

fn rev_trail_punct_run_from(v: &Vec<char>, i: usize) -> (r: usize)
    requires
        i <= v@.len(),
    ensures
        r == rev_run_len(v@, i as int, trail_punct_pred()),
        r <= i,
{
    let mut b = i;
    while b > 0 && trail_punct_test(v[b - 1])
        invariant
            b <= i <= v@.len(),
            rev_run_len(v@, i as int, trail_punct_pred()) == (i - b) + rev_run_len(
                v@,
                b as int,
                trail_punct_pred(),
            ),
        decreases b,
    {
        b = b - 1;
    }
    i - b
}

// ---------------------------------------------------------------------------
// Stage 1: embedded-link label extraction
// ---------------------------------------------------------------------------
/// A match of `[topic-<digits>(_<digits>)?|<label>]` starting at `i`,
/// giving the label bounds.
pub open spec fn bb_title_at(s: Seq<char>, i: int) -> Option<(int, int)> {
    if !(0 <= i && i < s.len() && s[i] == '[' && matches_at(s, i + 1, "topic-"@)) {
        None
    } else {
        let d1 = run_len(s, i + 7, digit_pred());
        if d1 == 0 {
            None
        } else {
            let j = i + 7 + d1;
            if j < s.len() && s[j] == '_' {
                let d2 = run_len(s, j + 1, digit_pred());
                if d2 == 0 {
                    None
                } else {
                    bb_title_label(s, j + 1 + d2)
                }
            } else {
                bb_title_label(s, j)
            }
        }
    }
}

/// The label part of an embedded link: `|<label>]` starting at `k`.
pub open spec fn bb_title_label(s: Seq<char>, k: int) -> Option<(int, int)> {
    if !(0 <= k && k < s.len() && s[k] == '|') {
        None
    } else {
        let lab = run_len(s, k + 1, not_rbracket_pred());
        if lab == 0 || k + 1 + lab >= s.len() {
            None
        } else {
            Some((k + 1, k + 1 + lab))
        }
    }
}

/// The label bounds of the leftmost embedded link at or after `i`.
pub open spec fn find_bb_title(s: Seq<char>, i: int) -> Option<(int, int)>
    decreases s.len() - i,
{
    if i >= s.len() {
        None
    } else if bb_title_at(s, i) is Some {
        bb_title_at(s, i)
    } else {
        find_bb_title(s, i + 1)
    }
}

proof fn lemma_find_bb_title_skip(s: Seq<char>, i: int, j: int)
    requires
        0 <= i <= j <= s.len(),
        forall|k: int| i <= k < j ==> bb_title_at(s, k) is None,
    ensures
        find_bb_title(s, i) == find_bb_title(s, j),
    decreases j - i,
{
    if i < j {
        lemma_find_bb_title_skip(s, i + 1, j);
    }
}

/// When the text holds an embedded link, its label replaces the text.
pub open spec fn stage_bb(s: Seq<char>) -> Seq<char> {
    match find_bb_title(s, 0) {
        Some((a, b)) => s.subrange(a, b),
        None => s,
    }
}

fn bb_title_probe(v: &Vec<char>, i: usize) -> (r: Option<(usize, usize)>)
    requires
        i <= v@.len(),
    ensures
        match r {
            Some(p) => bb_title_at(v@, i as int) == Some((p.0 as int, p.1 as int)) && p.1
                <= v@.len(),
            None => bb_title_at(v@, i as int) is None,
        },
{
    if !(i < v.len() && v[i] == '[' && match_lit(v, i + 1, "topic-")) {
        return None;
    }
    proof {
        vstd::prelude::reveal_strlit("topic-");
        assert(i + 7 <= v@.len());
    }
    let d1 = digit_run_from(v, i + 7);
    if d1 == 0 {
        return None;
    }
    let j = i + 7 + d1;
    let k: usize;
    if j < v.len() && v[j] == '_' {
        let d2 = digit_run_from(v, j + 1);
        if d2 == 0 {
            return None;
        }
        k = j + 1 + d2;
    } else {
        k = j;
    }
    if !(k < v.len() && v[k] == '|') {
        return None;
    }
    let lab = not_rbracket_run_from(v, k + 1);
    if lab == 0 || k + 1 + lab >= v.len() {
        return None;
    }
    Some((k + 1, k + 1 + lab))
}

fn stage_bb_vec(v: &Vec<char>) -> (r: Vec<char>)
    ensures
        r@ == stage_bb(v@),
{
    let n = v.len();
    let mut i: usize = 0;
    while i < n
        invariant
            n == v@.len(),
            i <= n,
            forall|k: int| 0 <= k < i ==> bb_title_at(v@, k) is None,
        decreases n - i,
    {
        match bb_title_probe(v, i) {
            Some(p) => {
                proof {
                    lemma_find_bb_title_skip(v@, 0, i as int);
                }
                return sub_vec(v, p.0, p.1);
            },
            None => {},
        }
        i = i + 1;
    }
    proof {
        lemma_find_bb_title_skip(v@, 0, n as int);
    }
    let mut out: Vec<char> = Vec::new();
    let mut q: usize = 0;
    while q < n
        invariant
            n == v@.len(),
            q <= n,
            out@ == v@.subrange(0, q as int),
        decreases n - q,
    {
        out.push(v[q]);
        proof {
            assert(v@.subrange(0, q + 1) =~= v@.subrange(0, q as int).push(v@[q as int]));
        }
        q = q + 1;
    }
    proof {
        assert(v@.subrange(0, n as int) =~= v@);
    }
    out
}

// ---------------------------------------------------------------------------
// Stage 2: cut at an arrow separator
// ---------------------------------------------------------------------------
/// Whitespace, then at least one dash-like character, then an arrow head,
/// starting at `i`.
pub open spec fn arrow_at(s: Seq<char>, i: int) -> bool {
    0 <= i <= s.len() && {
        let w = run_len(s, i, ws_pred());
        let d = run_len(s, i + w, dashy_pred());
        d >= 1 && i + w + d < s.len() && is_arrow_head(s[i + w + d])
    }
}

pub open spec fn find_arrow(s: Seq<char>, i: int) -> Option<int>
    decreases s.len() - i,
{
    if i >= s.len() {
        None
    } else if arrow_at(s, i) {
        Some(i)
    } else {
        find_arrow(s, i + 1)
    }
}

proof fn lemma_find_arrow_skip(s: Seq<char>, i: int, j: int)
    requires
        0 <= i <= j <= s.len(),
        forall|k: int| i <= k < j ==> !arrow_at(s, k),
    ensures
        find_arrow(s, i) == find_arrow(s, j),
    decreases j - i,
{
    if i < j {
        lemma_find_arrow_skip(s, i + 1, j);
    }
}

/// Everything from the leftmost arrow separator on is cut.
pub open spec fn stage_arrow(s: Seq<char>) -> Seq<char> {
    match find_arrow(s, 0) {
        Some(i) => s.subrange(0, i),
        None => s,
    }
}

fn arrow_probe(v: &Vec<char>, i: usize) -> (r: bool)
    requires
        i <= v@.len(),
    ensures
        r == arrow_at(v@, i as int),
{
    let n = v.len();
    let w = ws_run_from(v, i);
    let d = dashy_run_from(v, i + w);
    if d == 0 {
        return false;
    }
    let k = i + w + d;
    if k < n {
        let c = v[k];
        c == '>' || c == '→' || c == '»'
    } else {
        false
    }
}

fn stage_arrow_vec(v: &Vec<char>) -> (r: Vec<char>)
    ensures
        r@ == stage_arrow(v@),
{
    let n = v.len();
    let mut i: usize = 0;
    while i < n
        invariant
            n == v@.len(),
            i <= n,
            forall|k: int| 0 <= k < i ==> !arrow_at(v@, k),
        decreases n - i,
    {
        if arrow_probe(v, i) {
            proof {
                lemma_find_arrow_skip(v@, 0, i as int);
            }
            return sub_vec(v, 0, i);
        }
        i = i + 1;
    }
    proof {
        lemma_find_arrow_skip(v@, 0, n as int);
        if n == 0 {
            assert(!arrow_at(v@, 0));
        }
        assert(find_arrow(v@, 0) is None);
        assert(v@.subrange(0, n as int) =~= v@);
    }
    sub_vec(v, 0, n)
}

// ---------------------------------------------------------------------------
// Stage 3: cut at a trailing URL
// ---------------------------------------------------------------------------
/// `http://` or `https://` starting at `i`.
pub open spec fn http_at(s: Seq<char>, i: int) -> bool {
    matches_at(s, i, "http://"@) || matches_at(s, i, "https://"@)
}

pub open spec fn find_http(s: Seq<char>, i: int) -> Option<int>
    decreases s.len() - i,
{
    if i >= s.len() {
        None
    } else if http_at(s, i) {
        Some(i)
    } else {
        find_http(s, i + 1)
    }
}

proof fn lemma_find_http_skip(s: Seq<char>, i: int, j: int)
    requires
        0 <= i <= j <= s.len(),
        forall|k: int| i <= k < j ==> !http_at(s, k),
    ensures
        find_http(s, i) == find_http(s, j),
    decreases j - i,
{
    if i < j {
        lemma_find_http_skip(s, i + 1, j);
    }
}

/// Everything from the leftmost URL on is cut.
pub open spec fn stage_url(s: Seq<char>) -> Seq<char> {
    match find_http(s, 0) {
        Some(i) => s.subrange(0, i),
        None => s,
    }
}

fn stage_url_vec(v: &Vec<char>) -> (r: Vec<char>)
    ensures
        r@ == stage_url(v@),
{
    let n = v.len();
    let mut i: usize = 0;
    while i < n
        invariant
            n == v@.len(),
            i <= n,
            forall|k: int| 0 <= k < i ==> !http_at(v@, k),
        decreases n - i,
    {
        if match_lit(v, i, "http://") || match_lit(v, i, "https://") {
            proof {
                lemma_find_http_skip(v@, 0, i as int);
            }
            return sub_vec(v, 0, i);
        }
        i = i + 1;
    }
    proof {
        lemma_find_http_skip(v@, 0, n as int);
        if n == 0 {
            vstd::prelude::reveal_strlit("http://");
            vstd::prelude::reveal_strlit("https://");
            assert(!http_at(v@, 0));
        }
        assert(v@.subrange(0, n as int) =~= v@);
    }
    sub_vec(v, 0, n)
}

// ---------------------------------------------------------------------------
// Stage 4: trailing punctuation
// ---------------------------------------------------------------------------
/// The maximal trailing run of `: - – —` is cut.
pub open spec fn stage_trail_punct(s: Seq<char>) -> Seq<char> {
    s.subrange(0, s.len() - rev_run_len(s, s.len() as int, trail_punct_pred()))
}

fn stage_trail_punct_vec(v: &Vec<char>) -> (r: Vec<char>)
    ensures
        r@ == stage_trail_punct(v@),
{
    let n = v.len();
    let b = rev_trail_punct_run_from(v, n);
    sub_vec(v, 0, n - b)
}

// ---------------------------------------------------------------------------
// Stage 5: leading decorative run
// ---------------------------------------------------------------------------
/// A leading `whitespace, bullets, whitespace` prefix is cut when the bullet
/// run is nonempty.
pub open spec fn stage_lead_decor(s: Seq<char>) -> Seq<char> {
    let w1 = run_len(s, 0, ws_pred());
    let d = run_len(s, w1 as int, decor_pred());
    if d == 0 {
        s
    } else {
        let w2 = run_len(s, w1 + d as int, ws_pred());
        s.subrange(w1 + d + w2 as int, s.len() as int)
    }
}

fn stage_lead_decor_vec(v: &Vec<char>) -> (r: Vec<char>)
    ensures
        r@ == stage_lead_decor(v@),
{
    let n = v.len();
    let w1 = ws_run_from(v, 0);
    let d = decor_run_from(v, w1);
    if d == 0 {
        proof {
            assert(v@.subrange(0, n as int) =~= v@);
        }
        return sub_vec(v, 0, n);
    }
    let w2 = ws_run_from(v, w1 + d);
    sub_vec(v, w1 + d + w2, n)
}

// ---------------------------------------------------------------------------
// Stage 6: trailing decorative run
// ---------------------------------------------------------------------------
/// A trailing `whitespace, bullets, whitespace` suffix is cut when the bullet
/// run is nonempty.
pub open spec fn stage_trail_decor(s: Seq<char>) -> Seq<char> {
    let wb = rev_run_len(s, s.len() as int, ws_pred());
    let db = rev_run_len(s, s.len() - wb, decor_pred());
    if db == 0 {
        s
    } else {
        let wb2 = rev_run_len(s, s.len() - wb - db, ws_pred());
        s.subrange(0, s.len() - wb - db - wb2)
    }
}

fn stage_trail_decor_vec(v: &Vec<char>) -> (r: Vec<char>)
    ensures
        r@ == stage_trail_decor(v@),
{
    let n = v.len();
    let wb = rev_ws_run_from(v, n);
    let db = rev_decor_run_from(v, n - wb);
    if db == 0 {
        proof {
            assert(v@.subrange(0, n as int) =~= v@);
        }
        return sub_vec(v, 0, n);
    }
    let wb2 = rev_ws_run_from(v, n - wb - db);
    sub_vec(v, 0, n - wb - db - wb2)
}

// ---------------------------------------------------------------------------
// Stage 7: removal of `(lien)` markers
// ---------------------------------------------------------------------------
/// All occurrences of `(lien)`, compared without regard to ASCII case, are
/// removed in one left-to-right pass.
pub open spec fn remove_lien(s: Seq<char>) -> Seq<char>
    decreases s.len(),
{
    if s.len() == 0 {
        s
    } else if s.len() >= 6 && matches_at(lower_seq(s), 0, "(lien)"@) {
        remove_lien(s.skip(6))
    } else {
        seq![s[0]] + remove_lien(s.skip(1))
    }
}

proof fn lemma_lower_skip(s: Seq<char>, i: int)
    requires
        0 <= i <= s.len(),
    ensures
        lower_seq(s.skip(i)) =~= lower_seq(s).skip(i),
{
}

/// Peeling one step off `remove_lien` at offset `i` of the full text.
proof fn lemma_remove_lien_step(s: Seq<char>, i: int)
    requires
        0 <= i < s.len(),
    ensures
        matches_at(lower_seq(s), i, "(lien)"@) ==> remove_lien(s.skip(i)) == remove_lien(
            s.skip(i + 6),
        ),
        !matches_at(lower_seq(s), i, "(lien)"@) ==> remove_lien(s.skip(i)) == seq![s[i]]
            + remove_lien(s.skip(i + 1)),
{
    lemma_lower_skip(s, i);
    vstd::prelude::reveal_strlit("(lien)");
    let t = s.skip(i);
    assert(lower_seq(t) =~= lower_seq(s).skip(i));
    if matches_at(lower_seq(s), i, "(lien)"@) {
        assert(matches_at(lower_seq(t), 0, "(lien)"@)) by {
            assert(lower_seq(t)[0] == lower_seq(s)[i]);
            assert(lower_seq(t)[1] == lower_seq(s)[i + 1]);
            assert(lower_seq(t)[2] == lower_seq(s)[i + 2]);
            assert(lower_seq(t)[3] == lower_seq(s)[i + 3]);
            assert(lower_seq(t)[4] == lower_seq(s)[i + 4]);
            assert(lower_seq(t)[5] == lower_seq(s)[i + 5]);
        }
        assert(t.skip(6) =~= s.skip(i + 6));
    } else {
        assert(!matches_at(lower_seq(t), 0, "(lien)"@)) by {
            if matches_at(lower_seq(t), 0, "(lien)"@) {
                assert(lower_seq(s)[i] == lower_seq(t)[0]);
                assert(lower_seq(s)[i + 1] == lower_seq(t)[1]);
                assert(lower_seq(s)[i + 2] == lower_seq(t)[2]);
                assert(lower_seq(s)[i + 3] == lower_seq(t)[3]);
                assert(lower_seq(s)[i + 4] == lower_seq(t)[4]);
                assert(lower_seq(s)[i + 5] == lower_seq(t)[5]);
                assert(matches_at(lower_seq(s), i, "(lien)"@));
            }
        }
        assert(t.skip(1) =~= s.skip(i + 1));
        assert(t[0] == s[i]);
    }
}

fn lien_probe(v: &Vec<char>, i: usize) -> (r: bool)
    requires
        i <= v@.len(),
    ensures
        r == matches_at(lower_seq(v@), i as int, "(lien)"@),
{
    if v.len() < 6 || i > v.len() - 6 {
        proof {
            vstd::prelude::reveal_strlit("(lien)");
        }
        return false;
    }
    let r = crate::text::lower_char_exec(v[i]) == '(' && crate::text::lower_char_exec(v[i + 1])
        == 'l' && crate::text::lower_char_exec(v[i + 2]) == 'i' && crate::text::lower_char_exec(
        v[i + 3],
    ) == 'e' && crate::text::lower_char_exec(v[i + 4]) == 'n' && crate::text::lower_char_exec(
        v[i + 5],
    ) == ')';
    proof {
        vstd::prelude::reveal_strlit("(lien)");
        assert(lower_seq(v@)[i as int] == lower_char(v@[i as int]));
        assert(lower_seq(v@)[i + 1] == lower_char(v@[i + 1]));
        assert(lower_seq(v@)[i + 2] == lower_char(v@[i + 2]));
        assert(lower_seq(v@)[i + 3] == lower_char(v@[i + 3]));
        assert(lower_seq(v@)[i + 4] == lower_char(v@[i + 4]));
        assert(lower_seq(v@)[i + 5] == lower_char(v@[i + 5]));
        if r {
            assert(matches_at(lower_seq(v@), i as int, "(lien)"@));
        } else {
            assert(!matches_at(lower_seq(v@), i as int, "(lien)"@)) by {
                vstd::prelude::reveal_strlit("(lien)");
                if matches_at(lower_seq(v@), i as int, "(lien)"@) {
                    assert(lower_seq(v@)[i as int + 0] == "(lien)"@[0]);
                    assert(lower_seq(v@)[i as int + 1] == "(lien)"@[1]);
                    assert(lower_seq(v@)[i as int + 2] == "(lien)"@[2]);
                    assert(lower_seq(v@)[i as int + 3] == "(lien)"@[3]);
                    assert(lower_seq(v@)[i as int + 4] == "(lien)"@[4]);
                    assert(lower_seq(v@)[i as int + 5] == "(lien)"@[5]);
                }
            }
        }
    }
    r
}

fn stage_lien_vec(v: &Vec<char>) -> (r: Vec<char>)
    ensures
        r@ == remove_lien(v@),
{
    let n = v.len();
    let mut out: Vec<char> = Vec::new();
    proof {
        assert(v@.skip(0) =~= v@);
        assert(out@ + remove_lien(v@) =~= remove_lien(v@));
    }
    let mut i: usize = 0;
    while i < n
        invariant
            n == v@.len(),
            i <= n,
            remove_lien(v@) == out@ + remove_lien(v@.skip(i as int)),
        decreases n - i,
    {
        if lien_probe(v, i) {
            proof {
                lemma_remove_lien_step(v@, i as int);
                vstd::prelude::reveal_strlit("(lien)");
                assert(lower_seq(v@).len() == v@.len());
                assert(i + 6 <= n);
            }
            i = i + 6;
        } else {
            proof {
                lemma_remove_lien_step(v@, i as int);
                assert(out@.push(v@[i as int]) + remove_lien(v@.skip(i + 1)) =~= out@ + (seq![
                    v@[i as int],
                ] + remove_lien(v@.skip(i + 1))));
            }
            out.push(v[i]);
            i = i + 1;
        }
    }
    proof {
        assert(v@.skip(n as int) =~= Seq::<char>::empty());
        assert(remove_lien(Seq::<char>::empty()).len() == 0);
        assert(remove_lien(v@) =~= out@);
    }
    out
}

// ---------------------------------------------------------------------------
// The whole pipeline
// ---------------------------------------------------------------------------
/// The cleaned form of a recovered title.
pub open spec fn clean_title_spec(s: Seq<char>) -> Seq<char> {
    trim_spec(
        remove_lien(
            stage_trail_decor(
                stage_lead_decor(stage_trail_punct(stage_url(stage_arrow(stage_bb(s))))),
            ),
        ),
    )
}

/// `clean_title` on character vectors.
pub fn clean_title_vec(v: &Vec<char>) -> (r: Vec<char>)
    ensures
        r@ == clean_title_spec(v@),
{
    let s1 = stage_bb_vec(v);
    let s2 = stage_arrow_vec(&s1);
    let s3 = stage_url_vec(&s2);
    let s4 = stage_trail_punct_vec(&s3);
    let s5 = stage_lead_decor_vec(&s4);
    let s6 = stage_trail_decor_vec(&s5);
    let s7 = stage_lien_vec(&s6);
    trim_vec(&s7)
}

proof fn lemma_find_bb_title_bounds(s: Seq<char>, i: int)
    requires
        0 <= i,
    ensures
        match find_bb_title(s, i) {
            Some((a, b)) => 0 <= a <= b <= s.len(),
            None => true,
        },
    decreases s.len() - i,
{
    if i >= s.len() {
    } else if bb_title_at(s, i) is Some {
        let (a, b) = bb_title_at(s, i)->0;
        crate::text::lemma_run(s, i + 7, digit_pred());
    } else {
        lemma_find_bb_title_bounds(s, i + 1);
    }
}

proof fn lemma_find_arrow_bounds(s: Seq<char>, i: int)
    requires
        0 <= i,
    ensures
        match find_arrow(s, i) {
            Some(a) => 0 <= a <= s.len(),
            None => true,
        },
    decreases s.len() - i,
{
    if i >= s.len() {
    } else if arrow_at(s, i) {
    } else {
        lemma_find_arrow_bounds(s, i + 1);
    }
}

proof fn lemma_find_http_bounds(s: Seq<char>, i: int)
    requires
        0 <= i,
    ensures
        match find_http(s, i) {
            Some(a) => 0 <= a <= s.len(),
            None => true,
        },
    decreases s.len() - i,
{
    if i >= s.len() {
    } else if http_at(s, i) {
    } else {
        lemma_find_http_bounds(s, i + 1);
    }
}

proof fn lemma_remove_lien_len(s: Seq<char>)
    ensures
        remove_lien(s).len() <= s.len(),
    decreases s.len(),
{
    if s.len() == 0 {
    } else if s.len() >= 6 && matches_at(lower_seq(s), 0, "(lien)"@) {
        lemma_remove_lien_len(s.skip(6));
    } else {
        lemma_remove_lien_len(s.skip(1));
    }
}

/// Cleaning never lengthens a title: every stage cuts or keeps.
pub proof fn lemma_clean_title_len(s: Seq<char>)
    ensures
        clean_title_spec(s).len() <= s.len(),
{
    let s1 = stage_bb(s);
    assert(s1.len() <= s.len()) by {
        lemma_find_bb_title_bounds(s, 0);
    }
    let s2 = stage_arrow(s1);
    assert(s2.len() <= s1.len()) by {
        lemma_find_arrow_bounds(s1, 0);
    }
    let s3 = stage_url(s2);
    assert(s3.len() <= s2.len()) by {
        lemma_find_http_bounds(s2, 0);
    }
    let s4 = stage_trail_punct(s3);
    assert(s4.len() <= s3.len()) by {
        crate::text::lemma_rev_run(s3, s3.len() as int, trail_punct_pred());
    }
    let s5 = stage_lead_decor(s4);
    assert(s5.len() <= s4.len()) by {
        crate::text::lemma_run(s4, 0, ws_pred());
        let w1 = run_len(s4, 0, ws_pred());
        crate::text::lemma_run(s4, w1 as int, decor_pred());
        let d = run_len(s4, w1 as int, decor_pred());
        crate::text::lemma_run(s4, w1 + d as int, ws_pred());
    }
    let s6 = stage_trail_decor(s5);
    assert(s6.len() <= s5.len()) by {
        crate::text::lemma_rev_run(s5, s5.len() as int, ws_pred());
        let wb = rev_run_len(s5, s5.len() as int, ws_pred());
        crate::text::lemma_rev_run(s5, s5.len() - wb, decor_pred());
        let db = rev_run_len(s5, s5.len() - wb, decor_pred());
        crate::text::lemma_rev_run(s5, s5.len() - wb - db, ws_pred());
    }
    let s7 = remove_lien(s6);
    assert(s7.len() <= s6.len()) by {
        lemma_remove_lien_len(s6);
    }
    assert(trim_spec(s7).len() <= s7.len()) by {
        crate::text::lemma_run(s7, 0, ws_pred());
        crate::text::lemma_rev_run(s7, s7.len() as int, ws_pred());
    }
}

/// A pattern absent from a string is absent from every substring.
proof fn lemma_sub_no_pat(s: Seq<char>, a: int, b: int, pat: Seq<char>)
    requires
        0 <= a <= b <= s.len(),
        !crate::text::contains_pat(s, pat),
    ensures
        !crate::text::contains_pat(s.subrange(a, b), pat),
{
    let sub = s.subrange(a, b);
    if crate::text::contains_pat(sub, pat) {
        let q = choose|q: int| matches_at(sub, q, pat);
        assert(matches_at(s, a + q, pat)) by {
            assert(forall|k: int| 0 <= k < pat.len() ==> s[a + q + k] == #[trigger] sub[q + k]);
        }
    }
}

/// Lower-casing commutes with taking a substring.
proof fn lemma_lower_sub(s: Seq<char>, a: int, b: int)
    requires
        0 <= a <= b <= s.len(),
    ensures
        lower_seq(s.subrange(a, b)) == lower_seq(s).subrange(a, b),
{
    assert(lower_seq(s.subrange(a, b)) =~= lower_seq(s).subrange(a, b));
}

/// The leftmost URL start is minimal.
proof fn lemma_find_http_min(s: Seq<char>, i: int)
    requires
        0 <= i,
    ensures
        match find_http(s, i) {
            Some(j) => i <= j && http_at(s, j) && forall|k: int| i <= k < j ==> !http_at(s, k),
            None => forall|k: int| i <= k ==> !http_at(s, k),
        },
    decreases s.len() - i,
{
    if i >= s.len() {
        assert forall|k: int| i <= k implies !http_at(s, k) by {
            vstd::prelude::reveal_strlit("http://");
            vstd::prelude::reveal_strlit("https://");
        }
    } else if http_at(s, i) {
    } else {
        lemma_find_http_min(s, i + 1);
    }
}

/// A string without a `(lien)` marker passes the removal stage unchanged.
proof fn lemma_remove_lien_id(x: Seq<char>)
    requires
        !crate::text::contains_pat(lower_seq(x), "(lien)"@),
    ensures
        remove_lien(x) == x,
    decreases x.len(),
{
    if x.len() == 0 {
    } else {
        assert(!matches_at(lower_seq(x), 0, "(lien)"@));
        assert(!crate::text::contains_pat(lower_seq(x.skip(1)), "(lien)"@)) by {
            if crate::text::contains_pat(lower_seq(x.skip(1)), "(lien)"@) {
                let q = choose|q: int| matches_at(lower_seq(x.skip(1)), q, "(lien)"@);
                lemma_lower_skip(x, 1);
                assert(matches_at(lower_seq(x), q + 1, "(lien)"@)) by {
                    assert(forall|k: int|
                        0 <= k < "(lien)"@.len() ==> lower_seq(x)[q + 1 + k] == #[trigger] lower_seq(
                            x.skip(1),
                        )[q + k]);
                }
            }
        }
        lemma_remove_lien_id(x.skip(1));
        assert(remove_lien(x) =~= x);
    }
}

/// A substring of `s` carries no `(lien)` marker when `s` carries none.
proof fn lemma_sub_no_lien(s: Seq<char>, a: int, b: int)
    requires
        0 <= a <= b <= s.len(),
        !crate::text::contains_pat(lower_seq(s), "(lien)"@),
    ensures
        !crate::text::contains_pat(lower_seq(s.subrange(a, b)), "(lien)"@),
{
    lemma_lower_sub(s, a, b);
    lemma_sub_no_pat(lower_seq(s), a, b, "(lien)"@);
}

/// Cleaned titles hold no URL: for a title without a `(lien)` marker,
/// nothing of the form `http://` or `https://` survives cleaning — in
/// particular no trailing URL.
pub proof fn lemma_clean_title_no_url(s: Seq<char>)
    requires
        !crate::text::contains_pat(lower_seq(s), "(lien)"@),
    ensures
        !crate::text::contains_pat(clean_title_spec(s), "http://"@),
        !crate::text::contains_pat(clean_title_spec(s), "https://"@),
{
    let s1 = stage_bb(s);
    assert(!crate::text::contains_pat(lower_seq(s1), "(lien)"@)) by {
        lemma_find_bb_title_bounds(s, 0);
        match find_bb_title(s, 0) {
            Some((a, b)) => {
                lemma_sub_no_lien(s, a, b);
            },
            None => {},
        }
    }
    let s2 = stage_arrow(s1);
    assert(!crate::text::contains_pat(lower_seq(s2), "(lien)"@)) by {
        lemma_find_arrow_bounds(s1, 0);
        match find_arrow(s1, 0) {
            Some(i) => {
                lemma_sub_no_lien(s1, 0, i);
            },
            None => {},
        }
    }
    let s3 = stage_url(s2);
    // After the URL cut nothing of either scheme remains.
    assert(!crate::text::contains_pat(s3, "http://"@) && !crate::text::contains_pat(
        s3,
        "https://"@,
    ) && !crate::text::contains_pat(lower_seq(s3), "(lien)"@)) by {
        vstd::prelude::reveal_strlit("http://");
        vstd::prelude::reveal_strlit("https://");
        lemma_find_http_min(s2, 0);
        match find_http(s2, 0) {
            Some(i) => {
                lemma_sub_no_lien(s2, 0, i);
                if crate::text::contains_pat(s3, "http://"@) {
                    let q = choose|q: int| matches_at(s3, q, "http://"@);
                    assert(matches_at(s2, q, "http://"@)) by {
                        assert(forall|k: int|
                            0 <= k < "http://"@.len() ==> s2[q + k] == #[trigger] s3[q + k]);
                    }
                    assert(http_at(s2, q));
                }
                if crate::text::contains_pat(s3, "https://"@) {
                    let q = choose|q: int| matches_at(s3, q, "https://"@);
                    assert(matches_at(s2, q, "https://"@)) by {
                        assert(forall|k: int|
                            0 <= k < "https://"@.len() ==> s2[q + k] == #[trigger] s3[q + k]);
                    }
                    assert(http_at(s2, q));
                }
            },
            None => {
                if crate::text::contains_pat(s3, "http://"@) {
                    let q = choose|q: int| matches_at(s3, q, "http://"@);
                    assert(http_at(s2, q));
                }
                if crate::text::contains_pat(s3, "https://"@) {
                    let q = choose|q: int| matches_at(s3, q, "https://"@);
                    assert(http_at(s2, q));
                }
            },
        }
    }
    let s4 = stage_trail_punct(s3);
    assert(s4 == s3.subrange(0, s3.len() - rev_run_len(s3, s3.len() as int, trail_punct_pred())));
    let b4 = s3.len() - rev_run_len(s3, s3.len() as int, trail_punct_pred());
    assert(0 <= b4 <= s3.len()) by {
        crate::text::lemma_rev_run(s3, s3.len() as int, trail_punct_pred());
    }
    lemma_sub_no_pat(s3, 0, b4, "http://"@);
    lemma_sub_no_pat(s3, 0, b4, "https://"@);
    lemma_sub_no_lien(s3, 0, b4);
    let s5 = stage_lead_decor(s4);
    assert(!crate::text::contains_pat(s5, "http://"@) && !crate::text::contains_pat(
        s5,
        "https://"@,
    ) && !crate::text::contains_pat(lower_seq(s5), "(lien)"@)) by {
        crate::text::lemma_run(s4, 0, ws_pred());
        let w1 = run_len(s4, 0, ws_pred());
        crate::text::lemma_run(s4, w1 as int, decor_pred());
        let d = run_len(s4, w1 as int, decor_pred());
        if d > 0 {
            crate::text::lemma_run(s4, w1 + d as int, ws_pred());
            let w2 = run_len(s4, w1 + d as int, ws_pred());
            lemma_sub_no_pat(s4, w1 + d + w2 as int, s4.len() as int, "http://"@);
            lemma_sub_no_pat(s4, w1 + d + w2 as int, s4.len() as int, "https://"@);
            lemma_sub_no_lien(s4, w1 + d + w2 as int, s4.len() as int);
        }
    }
    let s6 = stage_trail_decor(s5);
    assert(!crate::text::contains_pat(s6, "http://"@) && !crate::text::contains_pat(
        s6,
        "https://"@,
    ) && !crate::text::contains_pat(lower_seq(s6), "(lien)"@)) by {
        crate::text::lemma_rev_run(s5, s5.len() as int, ws_pred());
        let wb = rev_run_len(s5, s5.len() as int, ws_pred());
        crate::text::lemma_rev_run(s5, s5.len() - wb, decor_pred());
        let db = rev_run_len(s5, s5.len() - wb, decor_pred());
        if db > 0 {
            crate::text::lemma_rev_run(s5, s5.len() - wb - db, ws_pred());
            let wb2 = rev_run_len(s5, s5.len() - wb - db, ws_pred());
            lemma_sub_no_pat(s5, 0, s5.len() - wb - db - wb2, "http://"@);
            lemma_sub_no_pat(s5, 0, s5.len() - wb - db - wb2, "https://"@);
            lemma_sub_no_lien(s5, 0, s5.len() - wb - db - wb2);
        }
    }
    let s7 = remove_lien(s6);
    lemma_remove_lien_id(s6);
    assert(s7 == s6);
    // The final trim is again a substring.
    let a8 = run_len(s7, 0, ws_pred());
    if a8 == s7.len() {
        assert(clean_title_spec(s) == trim_spec(s7));
        assert(trim_spec(s7).len() == 0);
        assert(!crate::text::contains_pat(trim_spec(s7), "http://"@)) by {
            vstd::prelude::reveal_strlit("http://");
            if crate::text::contains_pat(trim_spec(s7), "http://"@) {
                let q = choose|q: int| matches_at(trim_spec(s7), q, "http://"@);
            }
        }
        assert(!crate::text::contains_pat(trim_spec(s7), "https://"@)) by {
            vstd::prelude::reveal_strlit("https://");
            if crate::text::contains_pat(trim_spec(s7), "https://"@) {
                let q = choose|q: int| matches_at(trim_spec(s7), q, "https://"@);
            }
        }
    } else {
        crate::text::lemma_run(s7, 0, ws_pred());
        crate::text::lemma_rev_run(s7, s7.len() as int, ws_pred());
        crate::text::lemma_trim_bounds(s7);
        lemma_sub_no_pat(
            s7,
            a8 as int,
            s7.len() - rev_run_len(s7, s7.len() as int, ws_pred()),
            "http://"@,
        );
        lemma_sub_no_pat(
            s7,
            a8 as int,
            s7.len() - rev_run_len(s7, s7.len() as int, ws_pred()),
            "https://"@,
        );
    }
}

/// Cleans a recovered title: extracts an embedded-link label, cuts at an
/// arrow separator or trailing URL, strips trailing punctuation, strips
/// decorative bullets at both edges, removes `(lien)` markers, and trims
/// whitespace.
pub fn clean_title(text: &str) -> (r: String)
    ensures
        r@ == clean_title_spec(text@),
{
    let v = chars_of(text);
    let cleaned = clean_title_vec(&v);
    chars_to_string(&cleaned)
}

} // verus!
