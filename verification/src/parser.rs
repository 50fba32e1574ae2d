//! The topic-body parser: turns the free-form text of a topic's comments
//! into catalogue nodes.  Candidates found by the scanners are processed in
//! scan order with cross-syntax deduplication by node id, optional exclusion
//! of one topic id, title recovery and title cleaning.
use vstd::prelude::*;

verus! {

use vstd::string::StringExecFns;
use crate::node::model_of;
use crate::node::models_of;
use crate::node::lemma_models_of;
use crate::node::lemma_models_of_push;
use crate::node::NodeKind;
use crate::node::NodeModel;
use crate::node::VkNode;
use crate::scan::cand_model;
use crate::scan::cand_models;
use crate::scan::cands_spec;
use crate::scan::cands_from_lines;
use crate::scan::collect_cands;
use crate::scan::bb_at;
use crate::scan::mention_at;
use crate::scan::inv_at;
use crate::scan::url_at;
use crate::scan::doc_at;
use crate::scan::host_prefix_at;
use crate::scan::line_cands;
use crate::scan::scan_bb;
use crate::scan::scan_mention;
use crate::scan::scan_inv;
use crate::scan::scan_url;
use crate::scan::scan_doc;
use crate::scan::split_lines;
use crate::scan::Cand;
use crate::scan::CandModel;
use crate::scan::opt_chars;
use crate::text::append_chars;
use crate::text::chars_of;
use crate::text::chars_to_string;
use crate::text::contains_lit;
use crate::text::contains_pat;
use crate::text::copy_chars;
use crate::text::eq_chars;
use crate::text::is_digit;
use crate::text::is_ws;
use crate::text::lower_seq;
use crate::text::lower_vec;
use crate::text::trim_spec;
use crate::text::trim_vec;
use crate::title::clean_title_spec;
use crate::title::clean_title_vec;

// ---------------------------------------------------------------------------
// Identifiers, URLs and fallback titles
// ---------------------------------------------------------------------------
/// The node id of a topic link: `topic_<t>` or `topic_<t>_post<p>`.
pub open spec fn topic_id_of(t: Seq<char>, post: Option<Seq<char>>) -> Seq<char> {
    match post {
        Some(p) => "topic_"@ + t + "_post"@ + p,
        None => "topic_"@ + t,
    }
}

/// The node id of a document link: `doc_<owner>_<doc>`.
pub open spec fn doc_id_of(owner: Seq<char>, doc: Seq<char>) -> Seq<char> {
    "doc_"@ + owner + "_"@ + doc
}

/// The canonical URL of a topic.
pub open spec fn topic_url_of(g: Seq<char>, t: Seq<char>) -> Seq<char> {
    "https://vk.com/topic-"@ + g + "_"@ + t
}

/// The canonical URL of a document.
pub open spec fn doc_url_of(owner: Seq<char>, doc: Seq<char>) -> Seq<char> {
    "https://vk.com/doc"@ + owner + "_"@ + doc
}

/// The fallback title of a topic whose label could not be recovered.
pub open spec fn topic_fallback_title(t: Seq<char>) -> Seq<char> {
    "Topic "@ + t
}

/// The fallback title of a document.
pub open spec fn doc_fallback_title(d: Seq<char>) -> Seq<char> {
    "Document "@ + d
}

// ---------------------------------------------------------------------------
// Title recovery
// ---------------------------------------------------------------------------
/// The title taken from an explicit label: its cleaned form, or the fallback
/// when fewer than two characters survive cleaning.
pub open spec fn labelled_title(lab: Seq<char>, t: Seq<char>) -> Seq<char> {
    let c = clean_title_spec(lab);
    if c.len() < 2 {
        topic_fallback_title(t)
    } else {
        c
    }
}

/// Title recovery for a bare topic URL, in priority order: text before the
/// URL on its line, the previous line when it does not mention the host,
/// text after the URL, and the fallback.
pub open spec fn bare_title(
    before: Seq<char>,
    prev: Option<Seq<char>>,
    after: Seq<char>,
    t: Seq<char>,
) -> Seq<char> {
    let s1 = if trim_spec(before).len() >= 2 {
        clean_title_spec(trim_spec(before))
    } else {
        Seq::<char>::empty()
    };
    let s2 = if s1.len() < 2 {
        match prev {
            Some(p) => if !contains_pat(trim_spec(p), "vk.com"@) && trim_spec(p).len() > 2 {
                clean_title_spec(trim_spec(p))
            } else {
                s1
            },
            None => s1,
        }
    } else {
        s1
    };
    let s3 = if s2.len() < 2 && after.len() > 0 {
        if trim_spec(after).len() > 2 && !contains_pat(trim_spec(after), "vk.com"@) {
            clean_title_spec(trim_spec(after))
        } else {
            s2
        }
    } else {
        s2
    };
    if s3.len() < 2 {
        topic_fallback_title(t)
    } else {
        s3
    }
}

/// Title recovery for a document URL: text before the URL, then the previous
/// line; when the recovered title looks like a download label (it mentions
/// `telecharger` or `download`), the previous line is preferred.  A title
/// that is too short or too long falls back to `Document <d>`.
pub open spec fn doc_title(
    before: Seq<char>,
    prev: Option<Seq<char>>,
    d: Seq<char>,
) -> Seq<char> {
    let s1 = if trim_spec(before).len() >= 2 {
        clean_title_spec(trim_spec(before))
    } else {
        Seq::<char>::empty()
    };
    let s2 = if s1.len() < 2 {
        match prev {
            Some(p) => if !contains_pat(trim_spec(p), "vk.com"@) && trim_spec(p).len() > 2 {
                clean_title_spec(trim_spec(p))
            } else {
                s1
            },
            None => s1,
        }
    } else {
        s1
    };
    let s3 = if contains_pat(lower_seq(s2), "telecharger"@) || contains_pat(
        lower_seq(s2),
        "download"@,
    ) {
        match prev {
            Some(p) => if !contains_pat(trim_spec(p), "vk.com"@) && trim_spec(p).len() > 2 {
                clean_title_spec(trim_spec(p))
            } else {
                s2
            },
            None => s2,
        }
    } else {
        s2
    };
    if s3.len() < 2 || s3.len() >= 200 {
        doc_fallback_title(d)
    } else {
        s3
    }
}

// ---------------------------------------------------------------------------
// Node construction
// ---------------------------------------------------------------------------
/// The node produced for a topic link.
pub open spec fn topic_node_model(
    g: Seq<char>,
    t: Seq<char>,
    post: Option<Seq<char>>,
    title: Seq<char>,
) -> NodeModel {
    NodeModel {
        id: topic_id_of(t, post),
        title: title,
        url: Some(topic_url_of(g, t)),
        node_type: NodeKind::Genre,
        children: Some(Seq::empty()),
        count: None,
        extension: None,
        is_loaded: Some(false),
        structure_only: None,
        vk_group_id: Some(g),
        vk_topic_id: Some(t),
        vk_owner_id: None,
        vk_doc_id: None,
        vk_access_key: None,
        size_bytes: None,
    }
}

/// The node produced for a document link found in text.
pub open spec fn doc_node_model(owner: Seq<char>, doc: Seq<char>, title: Seq<char>) -> NodeModel {
    NodeModel {
        id: doc_id_of(owner, doc),
        title: title,
        url: Some(doc_url_of(owner, doc)),
        node_type: NodeKind::File,
        children: None,
        count: None,
        extension: Some("FILE"@),
        is_loaded: Some(true),
        structure_only: None,
        vk_group_id: None,
        vk_topic_id: None,
        vk_owner_id: Some(owner),
        vk_doc_id: Some(doc),
        vk_access_key: None,
        size_bytes: None,
    }
}

// ---------------------------------------------------------------------------
// The build pass
// ---------------------------------------------------------------------------
/// Does some already-produced node carry this id?
pub open spec fn seen_id(acc: Seq<NodeModel>, id: Seq<char>) -> bool {
    exists|k: int| 0 <= k < acc.len() && acc[k].id == id
}

/// Is this the excluded topic id?
pub open spec fn excluded(t: Seq<char>, exclude: Option<Seq<char>>) -> bool {
    match exclude {
        Some(e) => t == e,
        None => false,
    }
}

/// One topic candidate: skipped when excluded, already seen, or its title is
/// two hundred characters or longer; appended otherwise.
pub open spec fn step_topic(
    acc: Seq<NodeModel>,
    g: Seq<char>,
    t: Seq<char>,
    post: Option<Seq<char>>,
    title: Seq<char>,
    exclude: Option<Seq<char>>,
) -> Seq<NodeModel> {
    if excluded(t, exclude) {
        acc
    } else if seen_id(acc, topic_id_of(t, post)) {
        acc
    } else if title.len() >= 200 {
        acc
    } else {
        acc.push(topic_node_model(g, t, post, title))
    }
}

/// One document candidate: skipped when already seen or its title is two
/// hundred characters or longer; appended otherwise.
pub open spec fn step_doc(
    acc: Seq<NodeModel>,
    owner: Seq<char>,
    doc: Seq<char>,
    title: Seq<char>,
) -> Seq<NodeModel> {
    if seen_id(acc, doc_id_of(owner, doc)) {
        acc
    } else if title.len() >= 200 {
        acc
    } else {
        acc.push(doc_node_model(owner, doc, title))
    }
}

/// Processing one candidate.
pub open spec fn build_step(
    acc: Seq<NodeModel>,
    c: CandModel,
    exclude: Option<Seq<char>>,
) -> Seq<NodeModel> {
    match c {
        CandModel::Embedded { group, topic, label } => step_topic(
            acc,
            group,
            topic,
            None,
            labelled_title(label, topic),
            exclude,
        ),
        CandModel::Mention { group, topic, post, label } => step_topic(
            acc,
            group,
            topic,
            post,
            match label {
                Some(l) => labelled_title(l, topic),
                None => topic_fallback_title(topic),
            },
            exclude,
        ),
        CandModel::Inverted { group, topic, label } => step_topic(
            acc,
            group,
            topic,
            None,
            labelled_title(label, topic),
            exclude,
        ),
        CandModel::Bare { group, topic, post, before, prev, after } => step_topic(
            acc,
            group,
            topic,
            post,
            bare_title(before, prev, after, topic),
            exclude,
        ),
        CandModel::DocLink { owner, doc, before, prev } => step_doc(
            acc,
            owner,
            doc,
            doc_title(before, prev, doc),
        ),
    }
}

/// Processing a candidate stream in order.
pub open spec fn build_fold(
    acc: Seq<NodeModel>,
    cands: Seq<CandModel>,
    exclude: Option<Seq<char>>,
) -> Seq<NodeModel>
    decreases cands.len(),
{
    if cands.len() == 0 {
        acc
    } else {
        build_fold(build_step(acc, cands[0], exclude), cands.drop_first(), exclude)
    }
}

/// What the parser produces for a topic body: the candidate stream of the
/// text, folded with deduplication, exclusion and title recovery.
pub open spec fn parse_spec(text: Seq<char>, exclude: Option<Seq<char>>) -> Seq<NodeModel> {
    build_fold(Seq::empty(), cands_spec(text), exclude)
}

pub open spec fn opt_str_view(o: Option<&str>) -> Option<Seq<char>> {
    match o {
        Some(e) => Some(e@),
        None => None,
    }
}

// ---------------------------------------------------------------------------
// Invariants of the produced nodes
// ---------------------------------------------------------------------------
/// All node ids are pairwise distinct.
pub open spec fn distinct_ids(s: Seq<NodeModel>) -> bool {
    forall|i: int, j: int| 0 <= i < j < s.len() ==> s[i].id != s[j].id
}

/// A produced title: nonempty, under two hundred characters, and without
/// leading or trailing whitespace.
pub open spec fn title_wf(t: Seq<char>) -> bool {
    1 <= t.len() < 200 && !is_ws(t[0]) && !is_ws(t[t.len() - 1])
}

/// The shape of every node the parser produces: a genre node with empty,
/// not-yet-loaded children and topic coordinates, or a terminal file node.
pub open spec fn parsed_shape(m: NodeModel) -> bool {
    ||| (m.node_type == NodeKind::Genre && m.children == Some(Seq::<NodeModel>::empty())
        && m.is_loaded == Some(false) && m.vk_group_id is Some && m.vk_topic_id is Some
        && m.url is Some)
    ||| (m.node_type == NodeKind::File && m.children is None && m.is_loaded == Some(true)
        && m.vk_topic_id is None && m.url is Some)
}

/// No produced node carries the excluded topic id.
pub open spec fn respects_exclusion(s: Seq<NodeModel>, exclude: Option<Seq<char>>) -> bool {
    match exclude {
        Some(e) => forall|i: int| 0 <= i < s.len() ==> s[i].vk_topic_id != Some(e),
        None => true,
    }
}

/// A candidate whose numeric captures are nonempty digit strings, as the
/// scanners produce them.
pub open spec fn cand_wf(c: CandModel) -> bool {
    match c {
        CandModel::Embedded { topic, .. } => digits1(topic),
        CandModel::Mention { topic, .. } => digits1(topic),
        CandModel::Inverted { topic, .. } => digits1(topic),
        CandModel::Bare { topic, .. } => digits1(topic),
        CandModel::DocLink { doc, .. } => digits1(doc),
    }
}

/// A nonempty, all-digit string.
pub open spec fn digits1(s: Seq<char>) -> bool {
    s.len() >= 1 && forall|i: int| 0 <= i < s.len() ==> is_digit(s[i])
}

pub open spec fn all_wf(s: Seq<CandModel>) -> bool {
    forall|k: int| 0 <= k < s.len() ==> cand_wf(#[trigger] s[k])
}

proof fn lemma_all_wf_concat(a: Seq<CandModel>, b: Seq<CandModel>)
    requires
        all_wf(a),
        all_wf(b),
    ensures
        all_wf(a + b),
{
    assert forall|k: int| 0 <= k < (a + b).len() implies cand_wf(#[trigger] (a + b)[k]) by {
        if k < a.len() {
            assert((a + b)[k] == a[k]);
        } else {
            assert((a + b)[k] == b[k - a.len()]);
        }
    }
}

proof fn lemma_scan_bb_wf(s: Seq<char>, i: int)
    ensures
        all_wf(crate::scan::scan_bb(s, i)),
    decreases s.len() - i,
{
    if i >= s.len() {
    } else {
        match bb_at(s, i) {
            Some((g, t, lab, end)) => {
                lemma_scan_bb_wf(s, end);
                let d1 = crate::text::run_len(s, i + 7, crate::text::digit_pred());
                let j = i + 7 + d1;
                let d2 = crate::text::run_len(s, j + 1, crate::text::digit_pred());
                crate::text::lemma_run(s, j + 1, crate::text::digit_pred());
                assert(digits1(t)) by {
                    assert(t =~= s.subrange(j + 1, j + 1 + d2));
                    assert(forall|q: int| 0 <= q < t.len() ==> t[q] == s[j + 1 + q]);
                }
                let m = CandModel::Embedded { group: g, topic: t, label: lab };
                assert(scan_bb(s, i) =~= seq![m] + scan_bb(s, end));
                lemma_all_wf_concat(seq![m], scan_bb(s, end));
            },
            None => {
                lemma_scan_bb_wf(s, i + 1);
            },
        }
    }
}

proof fn lemma_scan_mention_wf(s: Seq<char>, i: int)
    ensures
        all_wf(crate::scan::scan_mention(s, i)),
    decreases s.len() - i,
{
    if i >= s.len() {
    } else {
        match mention_at(s, i) {
            Some((g, t, post, lab, end)) => {
                let next = if i < end <= s.len() {
                    end
                } else {
                    i + 1
                };
                lemma_scan_mention_wf(s, next);
                let d1 = crate::text::run_len(s, i + 7, crate::text::digit_pred());
                let j = i + 7 + d1;
                let d2 = crate::text::run_len(s, j + 1, crate::text::digit_pred());
                crate::text::lemma_run(s, j + 1, crate::text::digit_pred());
                assert(digits1(t)) by {
                    assert(t =~= s.subrange(j + 1, j + 1 + d2));
                    assert(forall|q: int| 0 <= q < t.len() ==> t[q] == s[j + 1 + q]);
                }
                let m = CandModel::Mention { group: g, topic: t, post: post, label: lab };
                assert(scan_mention(s, i) =~= seq![m] + scan_mention(s, next));
                lemma_all_wf_concat(seq![m], scan_mention(s, next));
            },
            None => {
                lemma_scan_mention_wf(s, i + 1);
            },
        }
    }
}

proof fn lemma_scan_inv_wf(s: Seq<char>, i: int)
    ensures
        all_wf(crate::scan::scan_inv(s, i)),
    decreases s.len() - i,
{
    if i >= s.len() {
    } else {
        match inv_at(s, i) {
            Some((g, t, lab, end)) => {
                let next = if i < end <= s.len() {
                    end
                } else {
                    i + 1
                };
                lemma_scan_inv_wf(s, next);
                let p = host_prefix_at(s, i, "vk.com/topic-"@)->0;
                let d1 = crate::text::run_len(s, p, crate::text::digit_pred());
                let j = p + d1;
                let d2 = crate::text::run_len(s, j + 1, crate::text::digit_pred());
                crate::text::lemma_run(s, j + 1, crate::text::digit_pred());
                assert(digits1(t)) by {
                    assert(t =~= s.subrange(j + 1, j + 1 + d2));
                    assert(forall|q: int| 0 <= q < t.len() ==> t[q] == s[j + 1 + q]);
                }
                let m = CandModel::Inverted { group: g, topic: t, label: lab };
                assert(scan_inv(s, i) =~= seq![m] + scan_inv(s, next));
                lemma_all_wf_concat(seq![m], scan_inv(s, next));
            },
            None => {
                lemma_scan_inv_wf(s, i + 1);
            },
        }
    }
}

proof fn lemma_scan_url_wf(s: Seq<char>, i: int, prev: Option<Seq<char>>)
    ensures
        all_wf(crate::scan::scan_url(s, i, prev)),
    decreases s.len() - i,
{
    if i >= s.len() {
    } else {
        match url_at(s, i) {
            Some((g, t, post, end)) => {
                let next = if i < end <= s.len() {
                    end
                } else {
                    i + 1
                };
                lemma_scan_url_wf(s, next, prev);
                let p = host_prefix_at(s, i, "vk.com/topic-"@)->0;
                let d1 = crate::text::run_len(s, p, crate::text::digit_pred());
                let j = p + d1;
                let d2 = crate::text::run_len(s, j + 1, crate::text::digit_pred());
                crate::text::lemma_run(s, j + 1, crate::text::digit_pred());
                assert(digits1(t)) by {
                    assert(t =~= s.subrange(j + 1, j + 1 + d2));
                    assert(forall|q: int| 0 <= q < t.len() ==> t[q] == s[j + 1 + q]);
                }
                let m = CandModel::Bare {
                    group: g,
                    topic: t,
                    post: post,
                    before: s.subrange(0, i),
                    prev: prev,
                    after: s.subrange(end, s.len() as int),
                };
                assert(scan_url(s, i, prev) =~= seq![m] + scan_url(s, next, prev));
                lemma_all_wf_concat(seq![m], scan_url(s, next, prev));
            },
            None => {
                lemma_scan_url_wf(s, i + 1, prev);
            },
        }
    }
}

proof fn lemma_scan_doc_wf(s: Seq<char>, i: int, prev: Option<Seq<char>>)
    ensures
        all_wf(crate::scan::scan_doc(s, i, prev)),
    decreases s.len() - i,
{
    if i >= s.len() {
    } else {
        match doc_at(s, i) {
            Some((o, d, end)) => {
                let next = if i < end <= s.len() {
                    end
                } else {
                    i + 1
                };
                lemma_scan_doc_wf(s, next, prev);
                let p = host_prefix_at(s, i, "vk.com/doc"@)->0;
                let neg = p < s.len() && s[p] == '-';
                let dstart = if neg {
                    p + 1
                } else {
                    p
                };
                let d1 = crate::text::run_len(s, dstart, crate::text::digit_pred());
                let q = dstart + d1;
                let d2 = crate::text::run_len(s, q + 1, crate::text::digit_pred());
                crate::text::lemma_run(s, q + 1, crate::text::digit_pred());
                assert(digits1(d)) by {
                    assert(d =~= s.subrange(q + 1, q + 1 + d2));
                    assert(forall|z: int| 0 <= z < d.len() ==> d[z] == s[q + 1 + z]);
                }
                let m = CandModel::DocLink { owner: o, doc: d, before: s.subrange(0, i), prev: prev };
                assert(scan_doc(s, i, prev) =~= seq![m] + scan_doc(s, next, prev));
                lemma_all_wf_concat(seq![m], scan_doc(s, next, prev));
            },
            None => {
                lemma_scan_doc_wf(s, i + 1, prev);
            },
        }
    }
}

proof fn lemma_cands_from_lines_wf(lines: Seq<Seq<char>>, li: int)
    ensures
        all_wf(crate::scan::cands_from_lines(lines, li)),
    decreases lines.len() - li,
{
    if li < 0 || li >= lines.len() {
    } else {
        lemma_cands_from_lines_wf(lines, li + 1);
        let prev = if li == 0 {
            None
        } else {
            Some(lines[li - 1])
        };
        lemma_scan_inv_wf(lines[li], 0);
        lemma_scan_url_wf(lines[li], 0, prev);
        lemma_scan_doc_wf(lines[li], 0, prev);
        lemma_all_wf_concat(crate::scan::scan_inv(lines[li], 0), crate::scan::scan_url(lines[li], 0, prev));
        lemma_all_wf_concat(
            crate::scan::scan_inv(lines[li], 0) + crate::scan::scan_url(lines[li], 0, prev),
            crate::scan::scan_doc(lines[li], 0, prev),
        );
        assert(line_cands(lines[li], prev) == crate::scan::scan_inv(lines[li], 0)
            + crate::scan::scan_url(lines[li], 0, prev) + crate::scan::scan_doc(lines[li], 0, prev));
        lemma_all_wf_concat(line_cands(lines[li], prev), cands_from_lines(lines, li + 1));
    }
}

/// Every candidate the scanners produce carries nonempty digit captures.
pub proof fn lemma_cands_wf(text: Seq<char>)
    ensures
        all_wf(cands_spec(text)),
{
    lemma_scan_bb_wf(text, 0);
    lemma_scan_mention_wf(text, 0);
    lemma_cands_from_lines_wf(crate::scan::split_lines(text), 0);
    lemma_all_wf_concat(crate::scan::scan_bb(text, 0), crate::scan::scan_mention(text, 0));
    lemma_all_wf_concat(
        crate::scan::scan_bb(text, 0) + crate::scan::scan_mention(text, 0),
        crate::scan::cands_from_lines(crate::scan::split_lines(text), 0),
    );
}

// ---------------------------------------------------------------------------
// Titles are well formed
// ---------------------------------------------------------------------------
/// A trimmed, nonempty string has no whitespace at either edge.
proof fn lemma_trim_edges(s: Seq<char>)
    requires
        trim_spec(s).len() > 0,
    ensures
        !is_ws(trim_spec(s)[0]),
        !is_ws(trim_spec(s)[trim_spec(s).len() - 1]),
{
    let a = crate::text::run_len(s, 0, crate::text::ws_pred());
    crate::text::lemma_run(s, 0, crate::text::ws_pred());
    crate::text::lemma_rev_run(s, s.len() as int, crate::text::ws_pred());
}

/// A nonempty cleaned title has no whitespace at either edge.
proof fn lemma_clean_edges(s: Seq<char>)
    requires
        clean_title_spec(s).len() > 0,
    ensures
        !is_ws(clean_title_spec(s)[0]),
        !is_ws(clean_title_spec(s)[clean_title_spec(s).len() - 1]),
{
    let inner = crate::title::remove_lien(
        crate::title::stage_trail_decor(
            crate::title::stage_lead_decor(
                crate::title::stage_trail_punct(
                    crate::title::stage_url(
                        crate::title::stage_arrow(crate::title::stage_bb(s)),
                    ),
                ),
            ),
        ),
    );
    lemma_trim_edges(inner);
}

/// The fallback topic title is well formed when it is short enough.
proof fn lemma_topic_fallback_wf(t: Seq<char>)
    requires
        digits1(t),
        topic_fallback_title(t).len() < 200,
    ensures
        title_wf(topic_fallback_title(t)),
{
    vstd::prelude::reveal_strlit("Topic ");
    let f = topic_fallback_title(t);
    assert(f[0] == 'T');
    assert(f[f.len() - 1] == t[t.len() - 1]);
}

/// The fallback document title is well formed when it is short enough.
proof fn lemma_doc_fallback_wf(d: Seq<char>)
    requires
        digits1(d),
        doc_fallback_title(d).len() < 200,
    ensures
        title_wf(doc_fallback_title(d)),
{
    vstd::prelude::reveal_strlit("Document ");
    let f = doc_fallback_title(d);
    assert(f[0] == 'D');
    assert(f[f.len() - 1] == d[d.len() - 1]);
}

proof fn lemma_labelled_title_wf(lab: Seq<char>, t: Seq<char>)
    requires
        digits1(t),
        labelled_title(lab, t).len() < 200,
    ensures
        title_wf(labelled_title(lab, t)),
{
    let c = clean_title_spec(lab);
    if c.len() < 2 {
        lemma_topic_fallback_wf(t);
    } else {
        lemma_clean_edges(lab);
    }
}

proof fn lemma_bare_title_wf(
    before: Seq<char>,
    prev: Option<Seq<char>>,
    after: Seq<char>,
    t: Seq<char>,
)
    requires
        digits1(t),
        bare_title(before, prev, after, t).len() < 200,
    ensures
        title_wf(bare_title(before, prev, after, t)),
{
    let r = bare_title(before, prev, after, t);
    if r == clean_title_spec(trim_spec(before)) && r.len() >= 2 {
        lemma_clean_edges(trim_spec(before));
    }
    match prev {
        Some(p) => {
            if r == clean_title_spec(trim_spec(p)) && r.len() >= 2 {
                lemma_clean_edges(trim_spec(p));
            }
        },
        None => {},
    }
    if r == clean_title_spec(trim_spec(after)) && r.len() >= 2 {
        lemma_clean_edges(trim_spec(after));
    }
    if r == topic_fallback_title(t) && r.len() < 200 {
        lemma_topic_fallback_wf(t);
    }
    assert(title_wf(r)) by {
        lemma_bare_title_cases(before, prev, after, t);
    }
}

/// The bare-URL title is one of the three cleaned candidates or the fallback.
proof fn lemma_bare_title_cases(
    before: Seq<char>,
    prev: Option<Seq<char>>,
    after: Seq<char>,
    t: Seq<char>,
)
    ensures
        bare_title(before, prev, after, t) == topic_fallback_title(t) || (bare_title(
            before,
            prev,
            after,
            t,
        ).len() >= 2 && (bare_title(before, prev, after, t) == clean_title_spec(
            trim_spec(before),
        ) || (prev is Some && bare_title(before, prev, after, t) == clean_title_spec(
            trim_spec(prev->0),
        )) || bare_title(before, prev, after, t) == clean_title_spec(trim_spec(after)))),
{
}

/// The document title is one of the two cleaned candidates or the fallback.
proof fn lemma_doc_title_cases(before: Seq<char>, prev: Option<Seq<char>>, d: Seq<char>)
    ensures
        doc_title(before, prev, d) == doc_fallback_title(d) || (2 <= doc_title(
            before,
            prev,
            d,
        ).len() < 200 && (doc_title(before, prev, d) == clean_title_spec(trim_spec(before)) || (
        prev is Some && doc_title(before, prev, d) == clean_title_spec(trim_spec(prev->0))))),
{
}

proof fn lemma_doc_title_wf(before: Seq<char>, prev: Option<Seq<char>>, d: Seq<char>)
    requires
        digits1(d),
        doc_title(before, prev, d).len() < 200,
    ensures
        title_wf(doc_title(before, prev, d)),
{
    let r = doc_title(before, prev, d);
    if r == clean_title_spec(trim_spec(before)) && r.len() >= 2 {
        lemma_clean_edges(trim_spec(before));
    }
    match prev {
        Some(p) => {
            if r == clean_title_spec(trim_spec(p)) && r.len() >= 2 {
                lemma_clean_edges(trim_spec(p));
            }
        },
        None => {},
    }
    if r == doc_fallback_title(d) && r.len() < 200 {
        lemma_doc_fallback_wf(d);
    }
    assert(title_wf(r)) by {
        lemma_doc_title_cases(before, prev, d);
    }
}

// ---------------------------------------------------------------------------
// The build pass keeps the node invariants
// ---------------------------------------------------------------------------
/// The invariants of the parser's output: distinct ids, the excluded topic
/// absent, well-formed titles, and the two node shapes.
pub open spec fn nodes_wf(s: Seq<NodeModel>, ex: Option<Seq<char>>) -> bool {
    &&& distinct_ids(s)
    &&& respects_exclusion(s, ex)
    &&& forall|k: int| 0 <= k < s.len() ==> title_wf(#[trigger] s[k].title)
    &&& forall|k: int| 0 <= k < s.len() ==> parsed_shape(#[trigger] s[k])
}

proof fn lemma_step_push(acc: Seq<NodeModel>, m: NodeModel, ex: Option<Seq<char>>)
    requires
        nodes_wf(acc, ex),
        !seen_id(acc, m.id),
        title_wf(m.title),
        parsed_shape(m),
        (match ex {
            Some(e) => m.vk_topic_id != Some(e),
            None => true,
        }),
    ensures
        nodes_wf(acc.push(m), ex),
{
    let s = acc.push(m);
    assert forall|i: int, j: int| 0 <= i < j < s.len() implies s[i].id != s[j].id by {
        if j == acc.len() {
            assert(s[i] == acc[i]);
            if acc[i].id == m.id {
                assert(seen_id(acc, m.id));
            }
        } else {
            assert(s[i] == acc[i] && s[j] == acc[j]);
        }
    }
}

proof fn lemma_build_step_wf(acc: Seq<NodeModel>, c: CandModel, ex: Option<Seq<char>>)
    requires
        nodes_wf(acc, ex),
        cand_wf(c),
    ensures
        nodes_wf(build_step(acc, c, ex), ex),
{
    match c {
        CandModel::Embedded { group, topic, label } => {
            let title = labelled_title(label, topic);
            if !excluded(topic, ex) && !seen_id(acc, topic_id_of(topic, None)) && title.len()
                < 200 {
                lemma_labelled_title_wf(label, topic);
                lemma_step_push(acc, topic_node_model(group, topic, None, title), ex);
            }
        },
        CandModel::Mention { group, topic, post, label } => {
            let title = match label {
                Some(l) => labelled_title(l, topic),
                None => topic_fallback_title(topic),
            };
            if !excluded(topic, ex) && !seen_id(acc, topic_id_of(topic, post)) && title.len()
                < 200 {
                match label {
                    Some(l) => {
                        lemma_labelled_title_wf(l, topic);
                    },
                    None => {
                        lemma_topic_fallback_wf(topic);
                    },
                }
                lemma_step_push(acc, topic_node_model(group, topic, post, title), ex);
            }
        },
        CandModel::Inverted { group, topic, label } => {
            let title = labelled_title(label, topic);
            if !excluded(topic, ex) && !seen_id(acc, topic_id_of(topic, None)) && title.len()
                < 200 {
                lemma_labelled_title_wf(label, topic);
                lemma_step_push(acc, topic_node_model(group, topic, None, title), ex);
            }
        },
        CandModel::Bare { group, topic, post, before, prev, after } => {
            let title = bare_title(before, prev, after, topic);
            if !excluded(topic, ex) && !seen_id(acc, topic_id_of(topic, post)) && title.len()
                < 200 {
                lemma_bare_title_wf(before, prev, after, topic);
                lemma_step_push(acc, topic_node_model(group, topic, post, title), ex);
            }
        },
        CandModel::DocLink { owner, doc, before, prev } => {
            let title = doc_title(before, prev, doc);
            if !seen_id(acc, doc_id_of(owner, doc)) && title.len() < 200 {
                lemma_doc_title_wf(before, prev, doc);
                lemma_step_push(acc, doc_node_model(owner, doc, title), ex);
            }
        },
    }
}

/// The fold keeps the node invariants over any well-formed candidate stream.
pub proof fn lemma_build_fold_wf(
    acc: Seq<NodeModel>,
    cands: Seq<CandModel>,
    ex: Option<Seq<char>>,
)
    requires
        nodes_wf(acc, ex),
        all_wf(cands),
    ensures
        nodes_wf(build_fold(acc, cands, ex), ex),
    decreases cands.len(),
{
    if cands.len() > 0 {
        lemma_build_step_wf(acc, cands[0], ex);
        assert(all_wf(cands.drop_first())) by {
            assert(forall|k: int|
                0 <= k < cands.drop_first().len() ==> cands.drop_first()[k] == cands[k + 1]);
        }
        lemma_build_fold_wf(build_step(acc, cands[0], ex), cands.drop_first(), ex);
    }
}

// ---------------------------------------------------------------------------
// Executable node construction
// ---------------------------------------------------------------------------
/// The id string of a topic node.
fn make_topic_id(t: &Vec<char>, post: &Option<Vec<char>>) -> (r: String)
    ensures
        r@ == topic_id_of(t@, opt_chars(*post)),
{
    let mut s = String::from_str("topic_");
    append_chars(&mut s, t);
    match post {
        Some(p) => {
            s.append("_post");
            append_chars(&mut s, p);
            proof {
                assert(s@ =~= topic_id_of(t@, opt_chars(*post)));
            }
        },
        None => {},
    }
    s
}

/// The id string of a document node.
fn make_doc_id(owner: &Vec<char>, doc: &Vec<char>) -> (r: String)
    ensures
        r@ == doc_id_of(owner@, doc@),
{
    let mut s = String::from_str("doc_");
    append_chars(&mut s, owner);
    s.append("_");
    append_chars(&mut s, doc);
    proof {
        assert(s@ =~= doc_id_of(owner@, doc@));
    }
    s
}

fn make_topic_node(
    g: &Vec<char>,
    t: &Vec<char>,
    post: &Option<Vec<char>>,
    title: &Vec<char>,
) -> (n: VkNode)
    ensures
        model_of(n) == topic_node_model(g@, t@, opt_chars(*post), title@),
{
    let id = make_topic_id(t, post);
    let mut url = String::from_str("https://vk.com/topic-");
    append_chars(&mut url, g);
    url.append("_");
    append_chars(&mut url, t);
    proof {
        assert(url@ =~= topic_url_of(g@, t@));
    }
    let children: Vec<VkNode> = Vec::new();
    proof {
        assert(models_of(children@) =~= Seq::<NodeModel>::empty());
    }
    let n = VkNode {
        id,
        title: chars_to_string(title),
        url: Some(url),
        node_type: NodeKind::Genre,
        children: Some(children),
        count: None,
        extension: None,
        is_loaded: Some(false),
        structure_only: None,
        vk_group_id: Some(chars_to_string(g)),
        vk_topic_id: Some(chars_to_string(t)),
        vk_owner_id: None,
        vk_doc_id: None,
        vk_access_key: None,
        size_bytes: None,
    };
    n
}

fn make_doc_node(owner: &Vec<char>, doc: &Vec<char>, title: &Vec<char>) -> (n: VkNode)
    ensures
        model_of(n) == doc_node_model(owner@, doc@, title@),
{
    let id = make_doc_id(owner, doc);
    let mut url = String::from_str("https://vk.com/doc");
    append_chars(&mut url, owner);
    url.append("_");
    append_chars(&mut url, doc);
    proof {
        assert(url@ =~= doc_url_of(owner@, doc@));
    }
    let n = VkNode {
        id,
        title: chars_to_string(title),
        url: Some(url),
        node_type: NodeKind::File,
        children: None,
        count: None,
        extension: Some(String::from_str("FILE")),
        is_loaded: Some(true),
        structure_only: None,
        vk_group_id: None,
        vk_topic_id: None,
        vk_owner_id: Some(chars_to_string(owner)),
        vk_doc_id: Some(chars_to_string(doc)),
        vk_access_key: None,
        size_bytes: None,
    };
    n
}

/// Does some already-produced node carry this id?
fn contains_id(nodes: &Vec<VkNode>, id: &String) -> (r: bool)
    ensures
        r == seen_id(models_of(nodes@), id@),
{
    let n = nodes.len();
    let mut i: usize = 0;
    while i < n
        invariant
            n == nodes@.len(),
            i <= n,
            forall|k: int| 0 <= k < i ==> models_of(nodes@)[k].id != id@,
        decreases n - i,
    {
        proof {
            lemma_models_of(nodes@);
        }
        if nodes[i].id == *id {
            proof {
                assert(models_of(nodes@)[i as int].id == id@);
            }
            return true;
        }
        i = i + 1;
    }
    proof {
        lemma_models_of(nodes@);
    }
    false
}

// ---------------------------------------------------------------------------
// Executable title recovery
// ---------------------------------------------------------------------------
fn topic_fallback_exec(t: &Vec<char>) -> (r: Vec<char>)
    ensures
        r@ == topic_fallback_title(t@),
{
    let mut r = chars_of("Topic ");
    let mut tc = copy_chars(t);
    r.append(&mut tc);
    r
}

fn doc_fallback_exec(d: &Vec<char>) -> (r: Vec<char>)
    ensures
        r@ == doc_fallback_title(d@),
{
    let mut r = chars_of("Document ");
    let mut dc = copy_chars(d);
    r.append(&mut dc);
    r
}

fn labelled_title_exec(lab: &Vec<char>, t: &Vec<char>) -> (r: Vec<char>)
    ensures
        r@ == labelled_title(lab@, t@),
{
    let c = clean_title_vec(lab);
    if c.len() < 2 {
        topic_fallback_exec(t)
    } else {
        c
    }
}

fn bare_title_exec(
    before: &Vec<char>,
    prev: &Option<Vec<char>>,
    after: &Vec<char>,
    t: &Vec<char>,
) -> (r: Vec<char>)
    ensures
        r@ == bare_title(before@, opt_chars(*prev), after@, t@),
{
    let b = trim_vec(before);
    let mut title: Vec<char> = Vec::new();
    if b.len() >= 2 {
        title = clean_title_vec(&b);
    }
    if title.len() < 2 {
        match prev {
            Some(p) => {
                let pt = trim_vec(p);
                if !contains_lit(&pt, "vk.com") && pt.len() > 2 {
                    title = clean_title_vec(&pt);
                }
            },
            None => {},
        }
    }
    if title.len() < 2 && after.len() > 0 {
        let at = trim_vec(after);
        if at.len() > 2 && !contains_lit(&at, "vk.com") {
            title = clean_title_vec(&at);
        }
    }
    if title.len() < 2 {
        title = topic_fallback_exec(t);
    }
    title
}

fn doc_title_exec(before: &Vec<char>, prev: &Option<Vec<char>>, d: &Vec<char>) -> (r: Vec<char>)
    ensures
        r@ == doc_title(before@, opt_chars(*prev), d@),
{
    let b = trim_vec(before);
    let mut title: Vec<char> = Vec::new();
    if b.len() >= 2 {
        title = clean_title_vec(&b);
    }
    if title.len() < 2 {
        match prev {
            Some(p) => {
                let pt = trim_vec(p);
                if !contains_lit(&pt, "vk.com") && pt.len() > 2 {
                    title = clean_title_vec(&pt);
                }
            },
            None => {},
        }
    }
    let low = lower_vec(&title);
    if contains_lit(&low, "telecharger") || contains_lit(&low, "download") {
        match prev {
            Some(p) => {
                let pt = trim_vec(p);
                if !contains_lit(&pt, "vk.com") && pt.len() > 2 {
                    title = clean_title_vec(&pt);
                }
            },
            None => {},
        }
    }
    if title.len() < 2 || title.len() >= 200 {
        title = doc_fallback_exec(d);
    }
    title
}

// ---------------------------------------------------------------------------
// Applying one candidate
// ---------------------------------------------------------------------------
fn push_topic(
    nodes: &mut Vec<VkNode>,
    g: &Vec<char>,
    t: &Vec<char>,
    post: &Option<Vec<char>>,
    title: &Vec<char>,
    exclude: &Option<Vec<char>>,
)
    ensures
        models_of(final(nodes)@) == step_topic(
            models_of(old(nodes)@),
            g@,
            t@,
            opt_chars(*post),
            title@,
            opt_chars(*exclude),
        ),
{
    match exclude {
        Some(e) => {
            if eq_chars(t, e) {
                return;
            }
        },
        None => {},
    }
    let id = make_topic_id(t, post);
    if contains_id(nodes, &id) {
        return;
    }
    if title.len() >= 200 {
        return;
    }
    let n = make_topic_node(g, t, post, title);
    let ghost before = nodes@;
    nodes.push(n);
    proof {
        lemma_models_of_push(before, n);
    }
}

fn push_doc(nodes: &mut Vec<VkNode>, owner: &Vec<char>, doc: &Vec<char>, title: &Vec<char>)
    ensures
        models_of(final(nodes)@) == step_doc(models_of(old(nodes)@), owner@, doc@, title@),
{
    let id = make_doc_id(owner, doc);
    if contains_id(nodes, &id) {
        return;
    }
    if title.len() >= 200 {
        return;
    }
    let n = make_doc_node(owner, doc, title);
    let ghost before = nodes@;
    nodes.push(n);
    proof {
        lemma_models_of_push(before, n);
    }
}

fn apply_cand(nodes: &mut Vec<VkNode>, c: &Cand, exclude: &Option<Vec<char>>)
    ensures
        models_of(final(nodes)@) == build_step(
            models_of(old(nodes)@),
            cand_model(*c),
            opt_chars(*exclude),
        ),
{
    let no_post: Option<Vec<char>> = None;
    match c {
        Cand::Embedded { group, topic, label } => {
            let title = labelled_title_exec(label, topic);
            push_topic(nodes, group, topic, &no_post, &title, exclude);
        },
        Cand::Mention { group, topic, post, label } => {
            let title = match label {
                Some(l) => labelled_title_exec(l, topic),
                None => topic_fallback_exec(topic),
            };
            push_topic(nodes, group, topic, post, &title, exclude);
        },
        Cand::Inverted { group, topic, label } => {
            let title = labelled_title_exec(label, topic);
            push_topic(nodes, group, topic, &no_post, &title, exclude);
        },
        Cand::Bare { group, topic, post, before, prev, after } => {
            let title = bare_title_exec(before, prev, after, topic);
            push_topic(nodes, group, topic, post, &title, exclude);
        },
        Cand::DocLink { owner, doc, before, prev } => {
            let title = doc_title_exec(before, prev, doc);
            push_doc(nodes, owner, doc, &title);
        },
    }
}

// ---------------------------------------------------------------------------
// The parser
// ---------------------------------------------------------------------------
/// Parses the concatenated text of a topic's comments into catalogue nodes.
///
/// The result is exactly [`parse_spec`]: every link occurrence of the five
/// syntaxes, in scan order, deduplicated by node id, with the excluded topic
/// skipped and titles recovered and cleaned.  All produced ids are pairwise
/// distinct; no produced node carries the excluded topic id; every title is
/// nonempty, under two hundred characters and trimmed; every node is either
/// an unloaded genre node with topic coordinates or a terminal file node.
pub fn parse_topic_body(text: &str, exclude_topic_id: Option<&str>) -> (r: Vec<VkNode>)
    ensures
        models_of(r@) == parse_spec(text@, opt_str_view(exclude_topic_id)),
        distinct_ids(models_of(r@)),
        respects_exclusion(models_of(r@), opt_str_view(exclude_topic_id)),
        forall|k: int|
            0 <= k < models_of(r@).len() ==> title_wf(#[trigger] models_of(r@)[k].title),
        forall|k: int| 0 <= k < models_of(r@).len() ==> parsed_shape(#[trigger] models_of(r@)[k]),
{
    let v = chars_of(text);
    let cands = collect_cands(&v);
    let exclude: Option<Vec<char>> = match exclude_topic_id {
        Some(e) => Some(chars_of(e)),
        None => None,
    };
    let ghost ex = opt_str_view(exclude_topic_id);
    proof {
        assert(opt_chars(exclude) == ex);
    }
    let mut nodes: Vec<VkNode> = Vec::new();
    let n = cands.len();
    let mut ci: usize = 0;
    proof {
        assert(models_of(nodes@) =~= Seq::<NodeModel>::empty());
        assert(cand_models(cands@).skip(0) =~= cand_models(cands@));
        assert(cand_models(cands@) == cands_spec(text@));
    }
    while ci < n
        invariant
            n == cands@.len(),
            ci <= n,
            opt_chars(exclude) == ex,
            cand_models(cands@) == cands_spec(text@),
            build_fold(models_of(nodes@), cand_models(cands@).skip(ci as int), ex) == parse_spec(
                text@,
                ex,
            ),
        decreases n - ci,
    {
        let ghost pre = models_of(nodes@);
        let ghost cs = cand_models(cands@);
        apply_cand(&mut nodes, &cands[ci], &exclude);
        proof {
            assert(cs.skip(ci as int)[0] == cs[ci as int]);
            assert(cs.skip(ci as int).drop_first() =~= cs.skip(ci + 1));
            assert(cand_model(cands@[ci as int]) == cs[ci as int]);
            assert(build_fold(pre, cs.skip(ci as int), ex) == build_fold(
                build_step(pre, cs[ci as int], ex),
                cs.skip(ci + 1),
                ex,
            ));
        }
        ci = ci + 1;
    }
    proof {
        assert(cand_models(cands@).skip(n as int) =~= Seq::<CandModel>::empty());
        assert(build_fold(
            models_of(nodes@),
            cand_models(cands@).skip(n as int),
            ex,
        ) == models_of(nodes@));
        lemma_cands_wf(text@);
        assert(nodes_wf(Seq::<NodeModel>::empty(), ex));
        lemma_build_fold_wf(Seq::empty(), cands_spec(text@), ex);
    }
    nodes
}

} // verus!
