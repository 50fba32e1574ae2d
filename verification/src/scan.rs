//! Link scanners for the five syntaxes found in topic bodies: embedded
//! links, mentions, inverted malformed links, bare topic URLs and document
//! URLs.  Each scanner walks the text left to right, emits the leftmost
//! match, and continues after its end, as a non-overlapping regular-
//! expression search would.
use vstd::prelude::*;

verus! {

use vstd::string::StrSliceExecFns;
use crate::text::digit_pred;
use crate::text::digit_run_from;
use crate::text::matches_at;
use crate::text::match_lit;
use crate::text::not_newline_pred;
use crate::text::not_rbracket_pred;
use crate::text::not_rbracket_run_from;
use crate::text::not_rparen_pred;
use crate::text::not_rparen_run_from;
use crate::text::run_len;
use crate::text::sub_vec;
use crate::text::subdomain_pred;
use crate::text::subdomain_run_from;
use crate::text::ws_pred;
use crate::text::ws_run_from;

// ---------------------------------------------------------------------------
// Candidates
// ---------------------------------------------------------------------------
/// One link occurrence found in a topic body, in scan order, together with
/// the line context a bare link needs for title recovery.
pub enum Cand {
    /// `[topic-<g>_<t>|<label>]`
    Embedded { group: Vec<char>, topic: Vec<char>, label: Vec<char> },
    /// `@topic-<g>_<t>(?post=<p>)?( (<label>))?`
    Mention {
        group: Vec<char>,
        topic: Vec<char>,
        post: Option<Vec<char>>,
        label: Option<Vec<char>>,
    },
    /// `https://<sub>.vk.com/topic-<g>_<t>|<label>]` — a malformed embedded
    /// link whose opening bracket is missing.
    Inverted { group: Vec<char>, topic: Vec<char>, label: Vec<char> },
    /// A bare topic URL, with the text before it on its line, the previous
    /// line, and the text after it.
    Bare {
        group: Vec<char>,
        topic: Vec<char>,
        post: Option<Vec<char>>,
        before: Vec<char>,
        prev: Option<Vec<char>>,
        after: Vec<char>,
    },
    /// A document URL, with the text before it on its line and the previous
    /// line.
    DocLink { owner: Vec<char>, doc: Vec<char>, before: Vec<char>, prev: Option<Vec<char>> },
}

/// The spec-level value of a candidate.
pub enum CandModel {
    Embedded { group: Seq<char>, topic: Seq<char>, label: Seq<char> },
    Mention {
        group: Seq<char>,
        topic: Seq<char>,
        post: Option<Seq<char>>,
        label: Option<Seq<char>>,
    },
    Inverted { group: Seq<char>, topic: Seq<char>, label: Seq<char> },
    Bare {
        group: Seq<char>,
        topic: Seq<char>,
        post: Option<Seq<char>>,
        before: Seq<char>,
        prev: Option<Seq<char>>,
        after: Seq<char>,
    },
    DocLink { owner: Seq<char>, doc: Seq<char>, before: Seq<char>, prev: Option<Seq<char>> },
}

pub open spec fn opt_chars(o: Option<Vec<char>>) -> Option<Seq<char>> {
    match o {
        Some(v) => Some(v@),
        None => None,
    }
}

pub open spec fn cand_model(c: Cand) -> CandModel {
    match c {
        Cand::Embedded { group, topic, label } => CandModel::Embedded {
            group: group@,
            topic: topic@,
            label: label@,
        },
        Cand::Mention { group, topic, post, label } => CandModel::Mention {
            group: group@,
            topic: topic@,
            post: opt_chars(post),
            label: opt_chars(label),
        },
        Cand::Inverted { group, topic, label } => CandModel::Inverted {
            group: group@,
            topic: topic@,
            label: label@,
        },
        Cand::Bare { group, topic, post, before, prev, after } => CandModel::Bare {
            group: group@,
            topic: topic@,
            post: opt_chars(post),
            before: before@,
            prev: opt_chars(prev),
            after: after@,
        },
        Cand::DocLink { owner, doc, before, prev } => CandModel::DocLink {
            owner: owner@,
            doc: doc@,
            before: before@,
            prev: opt_chars(prev),
        },
    }
}

pub open spec fn cand_models(s: Seq<Cand>) -> Seq<CandModel> {
    Seq::new(s.len(), |i: int| cand_model(s[i]))
}

pub proof fn lemma_cand_models_push(s: Seq<Cand>, c: Cand)
    ensures
        cand_models(s.push(c)) =~= cand_models(s).push(cand_model(c)),
{
}

/// Re-associating one emitted candidate from the pending scan to the
/// accumulator.
proof fn lemma_emit(a: Seq<CandModel>, m: CandModel, b: Seq<CandModel>)
    ensures
        a + (seq![m] + b) =~= a.push(m) + b,
{
}

// ---------------------------------------------------------------------------
// The scheme-and-host prefix of a board URL
// ---------------------------------------------------------------------------
/// A match of `https?://([a-z0-9]+.)?` followed by `tail` starting at `i`;
/// the result is the position right after `tail`.
pub open spec fn host_prefix_at(s: Seq<char>, i: int, tail: Seq<char>) -> Option<int> {
    let h = if matches_at(s, i, "https://"@) {
        i + 8
    } else if matches_at(s, i, "http://"@) {
        i + 7
    } else {
        -1
    };
    if h < 0 {
        None
    } else {
        let a = run_len(s, h, subdomain_pred());
        if a >= 1 && h + a < s.len() && s[h + a] == '.' && matches_at(s, h + a + 1, tail) {
            Some(h + a + 1 + tail.len())
        } else if matches_at(s, h, tail) {
            Some(h + tail.len())
        } else {
            None
        }
    }
}

/// Exec counterpart of [`host_prefix_at`].
fn host_prefix_probe(v: &Vec<char>, i: usize, tail: &str) -> (r: Option<usize>)
    requires
        i <= v@.len(),
    ensures
        match r {
            Some(p) => host_prefix_at(v@, i as int, tail@) == Some(p as int) && i < p && p
                <= v@.len(),
            None => host_prefix_at(v@, i as int, tail@) is None,
        },
{
    let n = v.len();
    let h: usize;
    if match_lit(v, i, "https://") {
        proof {
            vstd::prelude::reveal_strlit("https://");
        }
        h = i + 8;
    } else if match_lit(v, i, "http://") {
        proof {
            vstd::prelude::reveal_strlit("http://");
            vstd::prelude::reveal_strlit("https://");
        }
        h = i + 7;
    } else {
        return None;
    }
    let a = subdomain_run_from(v, h);
    let m = tail.unicode_len();
    if a >= 1 && h + a < n && v[h + a] == '.' && match_lit(v, h + a + 1, tail) {
        proof {
            assert(matches_at(v@, h + a + 1, tail@));
        }
        return Some(h + a + 1 + m);
    }
    if match_lit(v, h, tail) {
        return Some(h + m);
    }
    None
}

// ---------------------------------------------------------------------------
// Embedded links
// ---------------------------------------------------------------------------
/// A match of `[topic-<g>_<t>|<label>]` at `i`: `(group, topic, label, end)`.
pub open spec fn bb_at(s: Seq<char>, i: int) -> Option<(Seq<char>, Seq<char>, Seq<char>, int)> {
    if !(0 <= i && i < s.len() && s[i] == '[' && matches_at(s, i + 1, "topic-"@)) {
        None
    } else {
        let d1 = run_len(s, i + 7, digit_pred());
        let j = i + 7 + d1;
        if d1 == 0 || !(j < s.len() && s[j] == '_') {
            None
        } else {
            let d2 = run_len(s, j + 1, digit_pred());
            let k = j + 1 + d2;
            if d2 == 0 || !(k < s.len() && s[k] == '|') {
                None
            } else {
                let lab = run_len(s, k + 1, not_rbracket_pred());
                if lab == 0 || k + 1 + lab >= s.len() {
                    None
                } else {
                    Some(
                        (
                            s.subrange(i + 7, j),
                            s.subrange(j + 1, k),
                            s.subrange(k + 1, k + 1 + lab),
                            k + 2 + lab,
                        ),
                    )
                }
            }
        }
    }
}

/// All embedded links at or after `i`, leftmost first, non-overlapping.
pub open spec fn scan_bb(s: Seq<char>, i: int) -> Seq<CandModel>
    decreases s.len() - i,
{
    if i >= s.len() {
        Seq::empty()
    } else {
        match bb_at(s, i) {
            Some((g, t, lab, end)) => seq![
                CandModel::Embedded { group: g, topic: t, label: lab },
            ] + scan_bb(s, end),
            None => scan_bb(s, i + 1),
        }
    }
}

struct BbHit {
    group: Vec<char>,
    topic: Vec<char>,
    label: Vec<char>,
    end: usize,
}

fn bb_probe(v: &Vec<char>, i: usize) -> (r: Option<BbHit>)
    requires
        i <= v@.len(),
    ensures
        match r {
            Some(h) => bb_at(v@, i as int) == Some(
                (h.group@, h.topic@, h.label@, h.end as int),
            ) && i < h.end <= v@.len(),
            None => bb_at(v@, i as int) is None,
        },
{
    if !(i < v.len() && v[i] == '[' && match_lit(v, i + 1, "topic-")) {
        return None;
    }
    proof {
        vstd::prelude::reveal_strlit("topic-");
        assert(i + 7 <= v@.len());
    }
    let d1 = digit_run_from(v, i + 7);
    let j = i + 7 + d1;
    if d1 == 0 || !(j < v.len() && v[j] == '_') {
        return None;
    }
    let d2 = digit_run_from(v, j + 1);
    let k = j + 1 + d2;
    if d2 == 0 || !(k < v.len() && v[k] == '|') {
        return None;
    }
    let lab = not_rbracket_run_from(v, k + 1);
    if lab == 0 || k + 1 + lab >= v.len() {
        return None;
    }
    Some(
        BbHit {
            group: sub_vec(v, i + 7, j),
            topic: sub_vec(v, j + 1, k),
            label: sub_vec(v, k + 1, k + 1 + lab),
            end: k + 2 + lab,
        },
    )
}

/// Appends every embedded link of `v` to `out`.
fn scan_bb_into(v: &Vec<char>, out: &mut Vec<Cand>)
    ensures
        cand_models(final(out)@) =~= cand_models(old(out)@) + scan_bb(v@, 0),
{
    let n = v.len();
    let mut i: usize = 0;
    proof {
        assert(cand_models(out@) + scan_bb(v@, 0) =~= cand_models(out@) + scan_bb(v@, 0));
    }
    while i < n
        invariant
            n == v@.len(),
            i <= n,
            cand_models(old(out)@) + scan_bb(v@, 0) =~= cand_models(out@) + scan_bb(v@, i as int),
        decreases n - i,
    {
        match bb_probe(v, i) {
            Some(h) => {
                let ghost m = CandModel::Embedded { group: h.group@, topic: h.topic@, label: h.label@ };
                let ghost prev_out = out@;
                let end = h.end;
                proof {
                    assert(scan_bb(v@, i as int) =~= seq![m] + scan_bb(v@, end as int));
                }
                let c = Cand::Embedded { group: h.group, topic: h.topic, label: h.label };
                proof {
                    assert(cand_model(c) == m);
                }
                out.push(c);
                proof {
                    lemma_cand_models_push(prev_out, c);
                    lemma_emit(cand_models(prev_out), m, scan_bb(v@, end as int));
                }
                i = end;
            },
            None => {
                i = i + 1;
            },
        }
    }
    proof {
        assert(scan_bb(v@, n as int) =~= Seq::<CandModel>::empty());
        assert(cand_models(out@) + Seq::<CandModel>::empty() =~= cand_models(out@));
    }
}

// ---------------------------------------------------------------------------
// Mentions
// ---------------------------------------------------------------------------
/// A match of `@topic-<g>_<t>(?post=<p>)?( (<label>))?` at `i`:
/// `(group, topic, post, label, end)`.
pub open spec fn mention_at(s: Seq<char>, i: int) -> Option<
    (Seq<char>, Seq<char>, Option<Seq<char>>, Option<Seq<char>>, int),
> {
    if !(0 <= i && i < s.len() && s[i] == '@' && matches_at(s, i + 1, "topic-"@)) {
        None
    } else {
        let d1 = run_len(s, i + 7, digit_pred());
        let j = i + 7 + d1;
        if d1 == 0 || !(j < s.len() && s[j] == '_') {
            None
        } else {
            let d2 = run_len(s, j + 1, digit_pred());
            if d2 == 0 {
                None
            } else {
                let j0 = j + 1 + d2;
                let d3 = run_len(s, j0 + 6, digit_pred());
                let has_post = matches_at(s, j0, "?post="@) && d3 >= 1;
                let j1 = if has_post {
                    j0 + 6 + d3
                } else {
                    j0
                };
                let post = if has_post {
                    Some(s.subrange(j0 + 6, j0 + 6 + d3))
                } else {
                    None
                };
                let w = run_len(s, j1, ws_pred());
                let lr = run_len(s, j1 + w + 1, not_rparen_pred());
                let has_label = j1 + w < s.len() && s[j1 + w] == '(' && lr >= 1 && j1 + w + 1 + lr
                    < s.len();
                if has_label {
                    Some(
                        (
                            s.subrange(i + 7, j),
                            s.subrange(j + 1, j + 1 + d2),
                            post,
                            Some(s.subrange(j1 + w + 1, j1 + w + 1 + lr)),
                            j1 + w + 2 + lr,
                        ),
                    )
                } else {
                    Some((s.subrange(i + 7, j), s.subrange(j + 1, j + 1 + d2), post, None, j1))
                }
            }
        }
    }
}

/// All mentions at or after `i`, leftmost first, non-overlapping.
pub open spec fn scan_mention(s: Seq<char>, i: int) -> Seq<CandModel>
    decreases s.len() - i,
{
    if i >= s.len() {
        Seq::empty()
    } else {
        match mention_at(s, i) {
            Some((g, t, post, lab, end)) => seq![
                CandModel::Mention { group: g, topic: t, post: post, label: lab },
            ] + scan_mention(s, if i < end <= s.len() { end } else { i + 1 }),
            None => scan_mention(s, i + 1),
        }
    }
}

struct MentionHit {
    group: Vec<char>,
    topic: Vec<char>,
    post: Option<Vec<char>>,
    label: Option<Vec<char>>,
    end: usize,
}

fn mention_probe(v: &Vec<char>, i: usize) -> (r: Option<MentionHit>)
    requires
        i <= v@.len(),
    ensures
        match r {
            Some(h) => mention_at(v@, i as int) == Some(
                (h.group@, h.topic@, opt_chars(h.post), opt_chars(h.label), h.end as int),
            ) && i < h.end <= v@.len(),
            None => mention_at(v@, i as int) is None,
        },
{
    if !(i < v.len() && v[i] == '@' && match_lit(v, i + 1, "topic-")) {
        return None;
    }
    proof {
        vstd::prelude::reveal_strlit("topic-");
        assert(i + 7 <= v@.len());
    }
    let d1 = digit_run_from(v, i + 7);
    let j = i + 7 + d1;
    if d1 == 0 || !(j < v.len() && v[j] == '_') {
        return None;
    }
    let d2 = digit_run_from(v, j + 1);
    if d2 == 0 {
        return None;
    }
    let j0 = j + 1 + d2;
    let has_post_prefix = match_lit(v, j0, "?post=");
    proof {
        vstd::prelude::reveal_strlit("?post=");
    }
    let mut j1 = j0;
    let mut post: Option<Vec<char>> = None;
    if has_post_prefix {
        let d3 = digit_run_from(v, j0 + 6);
        if d3 >= 1 {
            j1 = j0 + 6 + d3;
            post = Some(sub_vec(v, j0 + 6, j0 + 6 + d3));
        }
    }
    proof {
        if !has_post_prefix {
            assert(run_len(v@, j0 + 6, digit_pred()) >= 0);
        }
    }
    let w = ws_run_from(v, j1);
    let mut label: Option<Vec<char>> = None;
    let mut end = j1;
    if j1 + w < v.len() && v[j1 + w] == '(' {
        let lr = not_rparen_run_from(v, j1 + w + 1);
        if lr >= 1 && j1 + w + 1 + lr < v.len() {
            label = Some(sub_vec(v, j1 + w + 1, j1 + w + 1 + lr));
            end = j1 + w + 2 + lr;
        }
    }
    Some(
        MentionHit {
            group: sub_vec(v, i + 7, j),
            topic: sub_vec(v, j + 1, j + 1 + d2),
            post,
            label,
            end,
        },
    )
}

/// Appends every mention of `v` to `out`.
fn scan_mention_into(v: &Vec<char>, out: &mut Vec<Cand>)
    ensures
        cand_models(final(out)@) =~= cand_models(old(out)@) + scan_mention(v@, 0),
{
    let n = v.len();
    let mut i: usize = 0;
    while i < n
        invariant
            n == v@.len(),
            i <= n,
            cand_models(old(out)@) + scan_mention(v@, 0) =~= cand_models(out@) + scan_mention(
                v@,
                i as int,
            ),
        decreases n - i,
    {
        match mention_probe(v, i) {
            Some(h) => {
                let ghost m = CandModel::Mention {
                    group: h.group@,
                    topic: h.topic@,
                    post: opt_chars(h.post),
                    label: opt_chars(h.label),
                };
                let ghost prev_out = out@;
                let end = h.end;
                proof {
                    assert(scan_mention(v@, i as int) =~= seq![m] + scan_mention(v@, end as int));
                }
                let c = Cand::Mention {
                    group: h.group,
                    topic: h.topic,
                    post: h.post,
                    label: h.label,
                };
                proof {
                    assert(cand_model(c) == m);
                }
                out.push(c);
                proof {
                    lemma_cand_models_push(prev_out, c);
                    lemma_emit(cand_models(prev_out), m, scan_mention(v@, end as int));
                }
                i = end;
            },
            None => {
                i = i + 1;
            },
        }
    }
    proof {
        assert(scan_mention(v@, n as int) =~= Seq::<CandModel>::empty());
        assert(cand_models(out@) + Seq::<CandModel>::empty() =~= cand_models(out@));
    }
}

// ---------------------------------------------------------------------------
// Inverted malformed links (per line)
// ---------------------------------------------------------------------------
/// A match of `https?://<sub>.vk.com/topic-<g>_<t>|<label>]` at `i`:
/// `(group, topic, label, end)`.
pub open spec fn inv_at(s: Seq<char>, i: int) -> Option<(Seq<char>, Seq<char>, Seq<char>, int)> {
    match host_prefix_at(s, i, "vk.com/topic-"@) {
        None => None,
        Some(p) => {
            let d1 = run_len(s, p, digit_pred());
            let j = p + d1;
            if d1 == 0 || !(j < s.len() && s[j] == '_') {
                None
            } else {
                let d2 = run_len(s, j + 1, digit_pred());
                let k = j + 1 + d2;
                if d2 == 0 || !(k < s.len() && s[k] == '|') {
                    None
                } else {
                    let lab = run_len(s, k + 1, not_rbracket_pred());
                    if lab == 0 || k + 1 + lab >= s.len() {
                        None
                    } else {
                        Some(
                            (
                                s.subrange(p, j),
                                s.subrange(j + 1, k),
                                s.subrange(k + 1, k + 1 + lab),
                                k + 2 + lab,
                            ),
                        )
                    }
                }
            }
        },
    }
}

/// All inverted links of one line at or after `i`.
pub open spec fn scan_inv(s: Seq<char>, i: int) -> Seq<CandModel>
    decreases s.len() - i,
{
    if i >= s.len() {
        Seq::empty()
    } else {
        match inv_at(s, i) {
            Some((g, t, lab, end)) => seq![
                CandModel::Inverted { group: g, topic: t, label: lab },
            ] + scan_inv(s, if end > i { end } else { i + 1 }),
            None => scan_inv(s, i + 1),
        }
    }
}

struct InvHit {
    group: Vec<char>,
    topic: Vec<char>,
    label: Vec<char>,
    end: usize,
}

fn inv_probe(v: &Vec<char>, i: usize) -> (r: Option<InvHit>)
    requires
        i <= v@.len(),
    ensures
        match r {
            Some(h) => inv_at(v@, i as int) == Some(
                (h.group@, h.topic@, h.label@, h.end as int),
            ) && i < h.end <= v@.len(),
            None => inv_at(v@, i as int) is None,
        },
{
    let n = v.len();
    let p = match host_prefix_probe(v, i, "vk.com/topic-") {
        Some(p) => p,
        None => {
            return None;
        },
    };
    let d1 = digit_run_from(v, p);
    let j = p + d1;
    if d1 == 0 || !(j < n && v[j] == '_') {
        return None;
    }
    let d2 = digit_run_from(v, j + 1);
    let k = j + 1 + d2;
    if d2 == 0 || !(k < v.len() && v[k] == '|') {
        return None;
    }
    let lab = not_rbracket_run_from(v, k + 1);
    if lab == 0 || k + 1 + lab >= v.len() {
        return None;
    }
    Some(
        InvHit {
            group: sub_vec(v, p, j),
            topic: sub_vec(v, j + 1, k),
            label: sub_vec(v, k + 1, k + 1 + lab),
            end: k + 2 + lab,
        },
    )
}

// ---------------------------------------------------------------------------
// Bare topic URLs (per line)
// ---------------------------------------------------------------------------
/// A match of `https?://<sub>.vk.com/topic-<g>_<t>(?post=<p>)?` at `i`:
/// `(group, topic, post, end)`.
pub open spec fn url_at(s: Seq<char>, i: int) -> Option<
    (Seq<char>, Seq<char>, Option<Seq<char>>, int),
> {
    match host_prefix_at(s, i, "vk.com/topic-"@) {
        None => None,
        Some(p) => {
            let d1 = run_len(s, p, digit_pred());
            let j = p + d1;
            if d1 == 0 || !(j < s.len() && s[j] == '_') {
                None
            } else {
                let d2 = run_len(s, j + 1, digit_pred());
                if d2 == 0 {
                    None
                } else {
                    let j0 = j + 1 + d2;
                    let d3 = run_len(s, j0 + 6, digit_pred());
                    let has_post = matches_at(s, j0, "?post="@) && d3 >= 1;
                    if has_post {
                        Some(
                            (
                                s.subrange(p, j),
                                s.subrange(j + 1, j0),
                                Some(s.subrange(j0 + 6, j0 + 6 + d3)),
                                j0 + 6 + d3,
                            ),
                        )
                    } else {
                        Some((s.subrange(p, j), s.subrange(j + 1, j0), None, j0))
                    }
                }
            }
        },
    }
}

/// All bare topic URLs of one line at or after `i`, with their line context.
pub open spec fn scan_url(
    line: Seq<char>,
    i: int,
    prev: Option<Seq<char>>,
) -> Seq<CandModel>
    decreases line.len() - i,
{
    if i >= line.len() {
        Seq::empty()
    } else {
        match url_at(line, i) {
            Some((g, t, post, end)) => seq![
                CandModel::Bare {
                    group: g,
                    topic: t,
                    post: post,
                    before: line.subrange(0, i),
                    prev: prev,
                    after: line.subrange(end, line.len() as int),
                },
            ] + scan_url(line, if i < end <= line.len() { end } else { i + 1 }, prev),
            None => scan_url(line, i + 1, prev),
        }
    }
}

struct UrlHit {
    group: Vec<char>,
    topic: Vec<char>,
    post: Option<Vec<char>>,
    end: usize,
}

fn url_probe(v: &Vec<char>, i: usize) -> (r: Option<UrlHit>)
    requires
        i <= v@.len(),
    ensures
        match r {
            Some(h) => url_at(v@, i as int) == Some(
                (h.group@, h.topic@, opt_chars(h.post), h.end as int),
            ) && i < h.end <= v@.len(),
            None => url_at(v@, i as int) is None,
        },
{
    let n = v.len();
    let p = match host_prefix_probe(v, i, "vk.com/topic-") {
        Some(p) => p,
        None => {
            return None;
        },
    };
    let d1 = digit_run_from(v, p);
    let j = p + d1;
    if d1 == 0 || !(j < n && v[j] == '_') {
        return None;
    }
    let d2 = digit_run_from(v, j + 1);
    if d2 == 0 {
        return None;
    }
    let j0 = j + 1 + d2;
    let has_post_prefix = match_lit(v, j0, "?post=");
    proof {
        vstd::prelude::reveal_strlit("?post=");
    }
    if has_post_prefix {
        let d3 = digit_run_from(v, j0 + 6);
        if d3 >= 1 {
            return Some(
                UrlHit {
                    group: sub_vec(v, p, j),
                    topic: sub_vec(v, j + 1, j0),
                    post: Some(sub_vec(v, j0 + 6, j0 + 6 + d3)),
                    end: j0 + 6 + d3,
                },
            );
        }
    }
    proof {
        if !has_post_prefix {
            assert(run_len(v@, j0 + 6, digit_pred()) >= 0);
        }
    }
    Some(
        UrlHit {
            group: sub_vec(v, p, j),
            topic: sub_vec(v, j + 1, j0),
            post: None,
            end: j0,
        },
    )
}

// ---------------------------------------------------------------------------
// Document URLs (per line)
// ---------------------------------------------------------------------------
/// A match of `https?://<sub>.vk.com/doc<-?owner>_<doc>` at `i`:
/// `(owner, doc, end)`; the owner keeps its minus sign.
pub open spec fn doc_at(s: Seq<char>, i: int) -> Option<(Seq<char>, Seq<char>, int)> {
    match host_prefix_at(s, i, "vk.com/doc"@) {
        None => None,
        Some(p) => {
            let neg = p < s.len() && s[p] == '-';
            let dstart = if neg {
                p + 1
            } else {
                p
            };
            let d1 = run_len(s, dstart, digit_pred());
            let q = dstart + d1;
            if d1 == 0 || !(q < s.len() && s[q] == '_') {
                None
            } else {
                let d2 = run_len(s, q + 1, digit_pred());
                if d2 == 0 {
                    None
                } else {
                    Some((s.subrange(p, q), s.subrange(q + 1, q + 1 + d2), q + 1 + d2))
                }
            }
        },
    }
}

/// All document URLs of one line at or after `i`, with their line context.
pub open spec fn scan_doc(
    line: Seq<char>,
    i: int,
    prev: Option<Seq<char>>,
) -> Seq<CandModel>
    decreases line.len() - i,
{
    if i >= line.len() {
        Seq::empty()
    } else {
        match doc_at(line, i) {
            Some((o, d, end)) => seq![
                CandModel::DocLink { owner: o, doc: d, before: line.subrange(0, i), prev: prev },
            ] + scan_doc(line, if i < end <= line.len() { end } else { i + 1 }, prev),
            None => scan_doc(line, i + 1, prev),
        }
    }
}

struct DocHit {
    owner: Vec<char>,
    doc: Vec<char>,
    end: usize,
}

fn doc_probe(v: &Vec<char>, i: usize) -> (r: Option<DocHit>)
    requires
        i <= v@.len(),
    ensures
        match r {
            Some(h) => doc_at(v@, i as int) == Some((h.owner@, h.doc@, h.end as int)) && i < h.end
                <= v@.len(),
            None => doc_at(v@, i as int) is None,
        },
{
    let p = match host_prefix_probe(v, i, "vk.com/doc") {
        Some(p) => p,
        None => {
            return None;
        },
    };
    let neg = p < v.len() && v[p] == '-';
    let dstart = if neg {
        p + 1
    } else {
        p
    };
    let d1 = digit_run_from(v, dstart);
    let q = dstart + d1;
    if d1 == 0 || !(q < v.len() && v[q] == '_') {
        return None;
    }
    let d2 = digit_run_from(v, q + 1);
    if d2 == 0 {
        return None;
    }
    Some(
        DocHit { owner: sub_vec(v, p, q), doc: sub_vec(v, q + 1, q + 1 + d2), end: q + 1 + d2 },
    )
}

// ---------------------------------------------------------------------------
// One line, then a whole body
// ---------------------------------------------------------------------------
/// The candidates of one line: inverted links first, then bare topic URLs,
/// then document URLs.
pub open spec fn line_cands(line: Seq<char>, prev: Option<Seq<char>>) -> Seq<CandModel> {
    scan_inv(line, 0) + scan_url(line, 0, prev) + scan_doc(line, 0, prev)
}

/// Appends the candidates of one line to `out`.
fn line_cands_into(line: &Vec<char>, prev: Option<&Vec<char>>, out: &mut Vec<Cand>)
    ensures
        cand_models(final(out)@) =~= cand_models(old(out)@) + line_cands(
            line@,
            match prev {
                Some(p) => Some(p@),
                None => None,
            },
        ),
{
    let ghost prev_view: Option<Seq<char>> = match prev {
        Some(p) => Some(p@),
        None => None,
    };
    let n = line.len();
    // Inverted links.
    let mut i: usize = 0;
    while i < n
        invariant
            n == line@.len(),
            i <= n,
            cand_models(old(out)@) + scan_inv(line@, 0) =~= cand_models(out@) + scan_inv(
                line@,
                i as int,
            ),
        decreases n - i,
    {
        match inv_probe(line, i) {
            Some(h) => {
                let ghost m = CandModel::Inverted { group: h.group@, topic: h.topic@, label: h.label@ };
                let ghost prev_out = out@;
                let end = h.end;
                proof {
                    assert(scan_inv(line@, i as int) =~= seq![m] + scan_inv(line@, end as int));
                }
                let c = Cand::Inverted { group: h.group, topic: h.topic, label: h.label };
                proof {
                    assert(cand_model(c) == m);
                }
                out.push(c);
                proof {
                    lemma_cand_models_push(prev_out, c);
                    lemma_emit(cand_models(prev_out), m, scan_inv(line@, end as int));
                }
                i = end;
            },
            None => {
                i = i + 1;
            },
        }
    }
    proof {
        assert(scan_inv(line@, n as int) =~= Seq::<CandModel>::empty());
        assert(cand_models(out@) + Seq::<CandModel>::empty() =~= cand_models(out@));
    }
    let ghost after_inv = out@;
    // Bare topic URLs.
    let mut i: usize = 0;
    while i < n
        invariant
            n == line@.len(),
            i <= n,
            prev_view == (match prev {
                Some(p) => Some(p@),
                None => None,
            }),
            cand_models(after_inv) + scan_url(line@, 0, prev_view) =~= cand_models(out@)
                + scan_url(line@, i as int, prev_view),
        decreases n - i,
    {
        match url_probe(line, i) {
            Some(h) => {
                let ghost m = CandModel::Bare {
                    group: h.group@,
                    topic: h.topic@,
                    post: opt_chars(h.post),
                    before: line@.subrange(0, i as int),
                    prev: prev_view,
                    after: line@.subrange(h.end as int, line@.len() as int),
                };
                let ghost prev_out = out@;
                let end = h.end;
                proof {
                    assert(scan_url(line@, i as int, prev_view) =~= seq![m] + scan_url(
                        line@,
                        end as int,
                        prev_view,
                    ));
                }
                let before = sub_vec(line, 0, i);
                let after = sub_vec(line, end, n);
                let prev_copy: Option<Vec<char>> = match prev {
                    Some(p) => Some(sub_vec(p, 0, p.len())),
                    None => None,
                };
                let c = Cand::Bare {
                    group: h.group,
                    topic: h.topic,
                    post: h.post,
                    before,
                    prev: prev_copy,
                    after,
                };
                proof {
                    match prev {
                        Some(p) => {
                            assert(p@.subrange(0, p@.len() as int) =~= p@);
                        },
                        None => {},
                    }
                    assert(cand_model(c) == m);
                }
                out.push(c);
                proof {
                    lemma_cand_models_push(prev_out, c);
                    lemma_emit(cand_models(prev_out), m, scan_url(line@, end as int, prev_view));
                }
                i = end;
            },
            None => {
                i = i + 1;
            },
        }
    }
    proof {
        assert(scan_url(line@, n as int, prev_view) =~= Seq::<CandModel>::empty());
        assert(cand_models(out@) + Seq::<CandModel>::empty() =~= cand_models(out@));
    }
    let ghost after_url = out@;
    // Document URLs.
    let mut i: usize = 0;
    while i < n
        invariant
            n == line@.len(),
            i <= n,
            prev_view == (match prev {
                Some(p) => Some(p@),
                None => None,
            }),
            cand_models(after_url) + scan_doc(line@, 0, prev_view) =~= cand_models(out@)
                + scan_doc(line@, i as int, prev_view),
        decreases n - i,
    {
        match doc_probe(line, i) {
            Some(h) => {
                let ghost m = CandModel::DocLink {
                    owner: h.owner@,
                    doc: h.doc@,
                    before: line@.subrange(0, i as int),
                    prev: prev_view,
                };
                let ghost prev_out = out@;
                let end = h.end;
                proof {
                    assert(scan_doc(line@, i as int, prev_view) =~= seq![m] + scan_doc(
                        line@,
                        end as int,
                        prev_view,
                    ));
                }
                let before = sub_vec(line, 0, i);
                let prev_copy: Option<Vec<char>> = match prev {
                    Some(p) => Some(sub_vec(p, 0, p.len())),
                    None => None,
                };
                let c = Cand::DocLink { owner: h.owner, doc: h.doc, before, prev: prev_copy };
                proof {
                    match prev {
                        Some(p) => {
                            assert(p@.subrange(0, p@.len() as int) =~= p@);
                        },
                        None => {},
                    }
                    assert(cand_model(c) == m);
                }
                out.push(c);
                proof {
                    lemma_cand_models_push(prev_out, c);
                    lemma_emit(cand_models(prev_out), m, scan_doc(line@, end as int, prev_view));
                }
                i = end;
            },
            None => {
                i = i + 1;
            },
        }
    }
    proof {
        assert(scan_doc(line@, n as int, prev_view) =~= Seq::<CandModel>::empty());
        assert(cand_models(out@) + Seq::<CandModel>::empty() =~= cand_models(out@));
        assert(cand_models(out@) =~= cand_models(old(out)@) + (scan_inv(line@, 0) + scan_url(
            line@,
            0,
            prev_view,
        ) + scan_doc(line@, 0, prev_view)));
    }
}

// ---------------------------------------------------------------------------
// Splitting a body into lines
// ---------------------------------------------------------------------------
/// A line with a trailing carriage return removed.
pub open spec fn strip_cr(l: Seq<char>) -> Seq<char> {
    if l.len() > 0 && l.last() == '\r' {
        l.drop_last()
    } else {
        l
    }
}

/// The lines of a body, split at `\n`, each without a trailing `\r`; a
/// trailing line break produces no final empty line.
pub open spec fn split_lines(s: Seq<char>) -> Seq<Seq<char>>
    decreases s.len(),
{
    if s.len() == 0 {
        Seq::empty()
    } else {
        let k = run_len(s, 0, not_newline_pred());
        let line = strip_cr(s.subrange(0, k as int));
        if k >= s.len() {
            seq![line]
        } else {
            seq![line] + split_lines(s.skip(k + 1 as int))
        }
    }
}

/// A run in the tail of `s`, measured from any offset `j` of the tail, is
/// the run at the corresponding position of `s`.
pub proof fn lemma_run_shift_gen(s: Seq<char>, i: int, j: int, p: spec_fn(char) -> bool)
    requires
        0 <= i,
        0 <= j,
        i + j <= s.len(),
    ensures
        run_len(s.skip(i), j, p) == run_len(s, i + j, p),
    decreases s.len() - i - j,
{
    let t = s.skip(i);
    if i + j < s.len() {
        assert(t[j] == s[i + j]);
        if p(s[i + j]) {
            lemma_run_shift_gen(s, i, j + 1, p);
        }
    }
}

/// Shifting the start of a run is the run on the shifted text.
proof fn lemma_run_shift(s: Seq<char>, i: int, p: spec_fn(char) -> bool)
    requires
        0 <= i <= s.len(),
    ensures
        run_len(s.skip(i), 0, p) == run_len(s, i, p),
{
    lemma_run_shift_gen(s, i, 0, p);
}

pub open spec fn line_views(s: Seq<Vec<char>>) -> Seq<Seq<char>> {
    Seq::new(s.len(), |i: int| s[i]@)
}

fn not_newline_run_from(v: &Vec<char>, i: usize) -> (r: usize)
    requires
        i <= v@.len(),
    ensures
        r == run_len(v@, i as int, not_newline_pred()),
        i + r <= v@.len(),
{
    let mut j = i;
    while j < v.len() && v[j] != '\n'
        invariant
            i <= j <= v@.len(),
            run_len(v@, i as int, not_newline_pred()) == (j - i) + run_len(
                v@,
                j as int,
                not_newline_pred(),
            ),
        decreases v@.len() - j,
    {
        j = j + 1;
    }
    proof {
        crate::text::lemma_run(v@, i as int, not_newline_pred());
    }
    j - i
}

/// The lines of a body.
pub fn split_lines_vec(v: &Vec<char>) -> (r: Vec<Vec<char>>)
    ensures
        line_views(r@) =~= split_lines(v@),
{
    let n = v.len();
    let mut out: Vec<Vec<char>> = Vec::new();
    let mut i: usize = 0;
    proof {
        assert(v@.skip(0) =~= v@);
    }
    while i < n
        invariant
            n == v@.len(),
            i <= n,
            line_views(out@) + split_lines(v@.skip(i as int)) =~= split_lines(v@),
        decreases n - i,
    {
        let k = not_newline_run_from(v, i);
        let line = if k > 0 && v[i + k - 1] == '\r' {
            sub_vec(v, i, i + k - 1)
        } else {
            sub_vec(v, i, i + k)
        };
        proof {
            lemma_run_shift(v@, i as int, not_newline_pred());
            let t = v@.skip(i as int);
            assert(t.subrange(0, k as int) =~= v@.subrange(i as int, i + k));
            if k > 0 && v@[i + k - 1] == '\r' {
                assert(v@.subrange(i as int, i + k - 1) =~= v@.subrange(
                    i as int,
                    i + k,
                ).drop_last());
            }
            assert(line@ =~= strip_cr(t.subrange(0, k as int)));
        }
        let ghost prev_out = out@;
        out.push(line);
        proof {
            assert(line_views(out@) =~= line_views(prev_out).push(line@));
        }
        if i + k == n {
            i = n;
            proof {
                let t = v@.skip(i as int);
                assert(t.len() == 0);
                assert(split_lines(t) =~= Seq::<Seq<char>>::empty());
                assert(line_views(out@) + Seq::<Seq<char>>::empty() =~= line_views(out@));
                assert(line_views(prev_out) + (seq![line@] + Seq::<Seq<char>>::empty()) =~= line_views(
                    out@,
                ));
            }
        } else {
            proof {
                let t = v@.skip(i as int);
                assert(split_lines(t) =~= seq![line@] + split_lines(t.skip(k + 1)));
                assert(t.skip(k + 1) =~= v@.skip(i + k + 1));
                assert(line_views(prev_out) + (seq![line@] + split_lines(v@.skip(i + k + 1))) =~= (
                line_views(prev_out).push(line@)) + split_lines(v@.skip(i + k + 1)));
            }
            i = i + k + 1;
        }
    }
    proof {
        if v@.len() > 0 {
            assert(v@.skip(n as int).len() == 0);
        }
        assert(split_lines(v@.skip(n as int)) =~= Seq::<Seq<char>>::empty());
        assert(line_views(out@) + Seq::<Seq<char>>::empty() =~= line_views(out@));
    }
    out
}

// ---------------------------------------------------------------------------
// The whole candidate stream
// ---------------------------------------------------------------------------
/// The per-line candidates of all lines from `li` on; each line's previous
/// line provides context for title recovery.
pub open spec fn cands_from_lines(lines: Seq<Seq<char>>, li: int) -> Seq<CandModel>
    decreases lines.len() - li,
{
    if li < 0 || li >= lines.len() {
        Seq::empty()
    } else {
        line_cands(
            lines[li],
            if li == 0 {
                None
            } else {
                Some(lines[li - 1])
            },
        ) + cands_from_lines(lines, li + 1)
    }
}

/// Every link occurrence of a topic body, in the order the parser considers
/// them: embedded links, then mentions, then line by line the inverted
/// links, bare topic URLs and document URLs of each line.
pub open spec fn cands_spec(text: Seq<char>) -> Seq<CandModel> {
    scan_bb(text, 0) + scan_mention(text, 0) + cands_from_lines(split_lines(text), 0)
}

/// Collects every link occurrence of a topic body, in scan order.
pub fn collect_cands(v: &Vec<char>) -> (r: Vec<Cand>)
    ensures
        cand_models(r@) =~= cands_spec(v@),
{
    let mut out: Vec<Cand> = Vec::new();
    proof {
        assert(cand_models(out@) =~= Seq::<CandModel>::empty());
    }
    scan_bb_into(v, &mut out);
    scan_mention_into(v, &mut out);
    let ghost base = cand_models(out@);
    proof {
        assert(base =~= scan_bb(v@, 0) + scan_mention(v@, 0));
    }
    let lines = split_lines_vec(v);
    let ghost line_seq = line_views(lines@);
    let m = lines.len();
    let mut li: usize = 0;
    while li < m
        invariant
            m == lines@.len(),
            li <= m,
            line_seq =~= line_views(lines@),
            line_seq =~= split_lines(v@),
            base =~= scan_bb(v@, 0) + scan_mention(v@, 0),
            cand_models(out@) + cands_from_lines(line_seq, li as int) =~= base + cands_from_lines(
                line_seq,
                0,
            ),
        decreases m - li,
    {
        let ghost prev_out = out@;
        if li == 0 {
            line_cands_into(&lines[li], None, &mut out);
        } else {
            line_cands_into(&lines[li], Some(&lines[li - 1]), &mut out);
        }
        proof {
            let ghost pv: Option<Seq<char>> = if li == 0 {
                None
            } else {
                Some(line_seq[li - 1])
            };
            assert(cands_from_lines(line_seq, li as int) =~= line_cands(line_seq[li as int], pv)
                + cands_from_lines(line_seq, li + 1));
            assert(cand_models(out@) =~= cand_models(prev_out) + line_cands(
                line_seq[li as int],
                pv,
            ));
        }
        li = li + 1;
    }
    proof {
        assert(cands_from_lines(line_seq, m as int) =~= Seq::<CandModel>::empty());
        assert(cand_models(out@) + Seq::<CandModel>::empty() =~= cand_models(out@));
        assert(cand_models(out@) =~= cands_spec(v@));
    }
    out
}

} // verus!
