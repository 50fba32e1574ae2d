//! The parser round trip: rendering catalogue nodes back into embedded-link
//! text and parsing that text preserves the node identities.
use vstd::prelude::*;

verus! {

use crate::node::model_of;
use crate::node::models_of;
use crate::node::lemma_models_of;
use crate::node::NodeModel;
use crate::node::VkNode;
use crate::parser::build_fold;
use crate::parser::build_step;
use crate::parser::digits1;
use crate::parser::labelled_title;
use crate::parser::parse_spec;
use crate::parser::seen_id;
use crate::parser::topic_id_of;
use crate::parser::topic_node_model;
use crate::scan::bb_at;
use crate::scan::cands_from_lines;
use crate::scan::cands_spec;
use crate::scan::doc_at;
use crate::scan::host_prefix_at;
use crate::scan::inv_at;
use crate::scan::lemma_run_shift_gen;
use crate::scan::line_cands;
use crate::scan::mention_at;
use crate::scan::scan_bb;
use crate::scan::scan_doc;
use crate::scan::scan_inv;
use crate::scan::scan_mention;
use crate::scan::scan_url;
use crate::scan::split_lines;
use crate::scan::strip_cr;
use crate::scan::url_at;
use crate::scan::CandModel;
use crate::text::chars_of;
use crate::text::contains_pat;
use crate::text::digit_pred;
use crate::text::lemma_matches_shift;
use crate::text::lemma_run_exact;
use crate::text::matches_at;
use crate::text::not_rbracket_pred;
use crate::text::run_len;

// ---------------------------------------------------------------------------
// Rendering
// ---------------------------------------------------------------------------
/// One node rendered as an embedded link on its own line.
pub open spec fn render_one(g: Seq<char>, t: Seq<char>, lab: Seq<char>) -> Seq<char> {
    seq!['['] + "topic-"@ + g + seq!['_'] + t + seq!['|'] + lab + seq![']'] + seq!['\n']
}

/// Nodes rendered back into topic-body text; entries without server
/// coordinates render nothing.
pub open spec fn render_spec(ms: Seq<NodeModel>) -> Seq<char>
    decreases ms.len(),
{
    if ms.len() == 0 {
        Seq::empty()
    } else {
        (match (ms[0].vk_group_id, ms[0].vk_topic_id) {
            (Some(g), Some(t)) => render_one(g, t, ms[0].title),
            _ => Seq::empty(),
        }) + render_spec(ms.drop_first())
    }
}

/// A node that survives the round trip: digit coordinates, and a title that
/// cannot be mistaken for link syntax — it holds no closing bracket, no
/// mention mark, and no `http` fragment.
pub open spec fn round_trippable(m: NodeModel) -> bool {
    &&& m.vk_group_id is Some
    &&& digits1(m.vk_group_id->0)
    &&& m.vk_topic_id is Some
    &&& digits1(m.vk_topic_id->0)
    &&& m.vk_topic_id->0.len() <= 193
    &&& 1 <= m.title.len() < 200
    &&& forall|k: int|
        0 <= k < m.title.len() ==> #[trigger] m.title[k] != ']' && m.title[k] != '@'
    &&& !contains_pat(m.title, "http"@)
}

pub open spec fn ids_of(s: Seq<NodeModel>) -> Seq<Seq<char>> {
    Seq::new(s.len(), |i: int| s[i].id)
}

/// Renders each node with server coordinates as `[topic-<g>_<t>|<title>]`,
/// one per line.
pub fn render_links(nodes: &Vec<VkNode>) -> (r: String)
    ensures
        r@ == render_spec(models_of(nodes@)),
{
    let n = nodes.len();
    let mut out: Vec<char> = Vec::new();
    let mut i: usize = 0;
    let ghost ms = models_of(nodes@);
    proof {
        lemma_models_of(nodes@);
        assert(out@ =~= render_prefix(ms, 0));
    }
    while i < n
        invariant
            n == nodes@.len(),
            ms == models_of(nodes@),
            ms.len() == n,
            forall|k: int| 0 <= k < n ==> ms[k] == model_of(nodes@[k]),
            i <= n,
            out@ == render_prefix(ms, i as int),
        decreases n - i,
    {
        let node = &nodes[i];
        match (&node.vk_group_id, &node.vk_topic_id) {
            (Some(g), Some(t)) => {
                out.push('[');
                let mut pre = chars_of("topic-");
                out.append(&mut pre);
                let mut gc = chars_of(g.as_str());
                out.append(&mut gc);
                out.push('_');
                let mut tc = chars_of(t.as_str());
                out.append(&mut tc);
                out.push('|');
                let mut lc = chars_of(node.title.as_str());
                out.append(&mut lc);
                out.push(']');
                out.push('\n');
                proof {
                    assert(out@ =~= render_prefix(ms, i as int) + render_one(
                        g@,
                        t@,
                        ms[i as int].title,
                    ));
                    lemma_render_prefix_step(ms, i as int);
                }
            },
            _ => {
                proof {
                    lemma_render_prefix_step(ms, i as int);
                    assert(out@ =~= render_prefix(ms, i + 1));
                }
            },
        }
        i = i + 1;
    }
    proof {
        lemma_render_prefix_all(ms, n as int);
    }
    crate::text::chars_to_string(&out)
}

/// The rendering of the first `i` nodes.
pub open spec fn render_prefix(ms: Seq<NodeModel>, i: int) -> Seq<char> {
    render_spec(ms.take(i))
}

proof fn lemma_render_prefix_step(ms: Seq<NodeModel>, i: int)
    requires
        0 <= i < ms.len(),
    ensures
        render_prefix(ms, i + 1) == render_prefix(ms, i) + (match (
            ms[i].vk_group_id,
            ms[i].vk_topic_id,
        ) {
            (Some(g), Some(t)) => render_one(g, t, ms[i].title),
            _ => Seq::<char>::empty(),
        }),
    decreases i,
{
    if i == 0 {
        assert(ms.take(1).drop_first() =~= ms.take(0));
        assert(ms.take(1)[0] == ms[0]);
        assert(ms.take(0).len() == 0);
        assert(render_spec(ms.take(0)) =~= Seq::<char>::empty());
        assert(render_prefix(ms, 1) =~= render_prefix(ms, 0) + (match (
            ms[0].vk_group_id,
            ms[0].vk_topic_id,
        ) {
            (Some(g), Some(t)) => render_one(g, t, ms[0].title),
            _ => Seq::<char>::empty(),
        }));
    } else {
        lemma_render_prefix_step(ms.drop_first(), i - 1);
        assert(ms.take(i + 1).drop_first() =~= ms.drop_first().take(i));
        assert(ms.take(i).drop_first() =~= ms.drop_first().take(i - 1));
        assert(ms.take(i + 1)[0] == ms[0]);
        assert(ms.take(i)[0] == ms[0]);
        assert(ms.drop_first()[i - 1] == ms[i]);
        assert(render_prefix(ms, i + 1) =~= render_prefix(ms, i) + (match (
            ms[i].vk_group_id,
            ms[i].vk_topic_id,
        ) {
            (Some(g), Some(t)) => render_one(g, t, ms[i].title),
            _ => Seq::<char>::empty(),
        }));
    }
}

proof fn lemma_render_prefix_all(ms: Seq<NodeModel>, n: int)
    requires
        n == ms.len(),
    ensures
        render_prefix(ms, n) == render_spec(ms),
{
    assert(ms.take(n) =~= ms);
}

// ---------------------------------------------------------------------------
// The characters of one rendered link
// ---------------------------------------------------------------------------
/// The character at each position of one rendered link.
pub open spec fn piece_char(g: Seq<char>, t: Seq<char>, lab: Seq<char>, p: int) -> char {
    let gl = g.len() as int;
    let tl = t.len() as int;
    let ll = lab.len() as int;
    if p == 0 {
        '['
    } else if p < 7 {
        "topic-"@[p - 1]
    } else if p < 7 + gl {
        g[p - 7]
    } else if p == 7 + gl {
        '_'
    } else if p < 8 + gl + tl {
        t[p - 8 - gl]
    } else if p == 8 + gl + tl {
        '|'
    } else if p < 9 + gl + tl + ll {
        lab[p - 9 - gl - tl]
    } else if p == 9 + gl + tl + ll {
        ']'
    } else {
        '\n'
    }
}

proof fn lemma_piece_char(g: Seq<char>, t: Seq<char>, lab: Seq<char>, p: int)
    requires
        0 <= p < render_one(g, t, lab).len(),
    ensures
        render_one(g, t, lab).len() == 11 + g.len() + t.len() + lab.len(),
        render_one(g, t, lab)[p] == piece_char(g, t, lab, p),
{
    vstd::prelude::reveal_strlit("topic-");
}

proof fn lemma_topic_lit()
    ensures
        "topic-"@.len() == 6,
        "topic-"@[0] == 't',
        "topic-"@[1] == 'o',
        "topic-"@[2] == 'p',
        "topic-"@[3] == 'i',
        "topic-"@[4] == 'c',
        "topic-"@[5] == '-',
{
    vstd::prelude::reveal_strlit("topic-");
}

/// Well-formed link data: digit coordinates, label without `]` or `@`,
/// no `http` fragment.
pub open spec fn piece_wf(g: Seq<char>, t: Seq<char>, lab: Seq<char>) -> bool {
    &&& digits1(g)
    &&& digits1(t)
    &&& lab.len() >= 1
    &&& forall|k: int| 0 <= k < lab.len() ==> #[trigger] lab[k] != ']' && lab[k] != '@'
    &&& !contains_pat(lab, "http"@)
}

proof fn lemma_piece_no_at(g: Seq<char>, t: Seq<char>, lab: Seq<char>, p: int)
    requires
        piece_wf(g, t, lab),
        0 <= p < render_one(g, t, lab).len(),
    ensures
        render_one(g, t, lab)[p] != '@',
{
    lemma_piece_char(g, t, lab, p);
    lemma_topic_lit();
}

proof fn lemma_piece_no_http(g: Seq<char>, t: Seq<char>, lab: Seq<char>, p: int)
    requires
        piece_wf(g, t, lab),
        0 <= p,
    ensures
        !matches_at(render_one(g, t, lab), p, "http"@),
{
    let r = render_one(g, t, lab);
    let gl = g.len() as int;
    let tl = t.len() as int;
    let ll = lab.len() as int;
    vstd::prelude::reveal_strlit("http");
    lemma_topic_lit();
    if matches_at(r, p, "http"@) {
        assert(r.len() == 11 + gl + tl + ll) by {
            lemma_piece_char(g, t, lab, 0);
        }
        assert(r[p + 0] == "http"@[0] && r[p + 1] == "http"@[1] && r[p + 2] == "http"@[2] && r[p
            + 3] == "http"@[3]);
        assert(r[p] == 'h' && r[p + 1] == 't' && r[p + 2] == 't' && r[p + 3] == 'p');
        lemma_piece_char(g, t, lab, p);
        lemma_piece_char(g, t, lab, p + 1);
        lemma_piece_char(g, t, lab, p + 2);
        lemma_piece_char(g, t, lab, p + 3);
        // The first character must be an 'h', which only a label holds.
        assert(9 + gl + tl <= p < 9 + gl + tl + ll);
        let x = p - 9 - gl - tl;
        if p + 3 < 9 + gl + tl + ll {
            assert(matches_at(lab, x, "http"@)) by {
                assert(lab[x] == 'h' && lab[x + 1] == 't' && lab[x + 2] == 't' && lab[x + 3]
                    == 'p');
            }
        } else {
            // The match would run past the label into the closing bracket.
            assert(r[9 + gl + tl + ll] == ']');
        }
    }
}

// ---------------------------------------------------------------------------
// The whole rendered text holds no stray syntax
// ---------------------------------------------------------------------------
pub open spec fn all_round_trippable(ms: Seq<NodeModel>) -> bool {
    forall|i: int| 0 <= i < ms.len() ==> round_trippable(#[trigger] ms[i])
}

proof fn lemma_render_text_safe(ms: Seq<NodeModel>)
    requires
        all_round_trippable(ms),
    ensures
        forall|p: int|
            0 <= p < render_spec(ms).len() ==> #[trigger] render_spec(ms)[p] != '@',
        forall|p: int| !(#[trigger] matches_at(render_spec(ms), p, "http"@)),
    decreases ms.len(),
{
    vstd::prelude::reveal_strlit("http");
    if ms.len() == 0 {
        assert(forall|p: int| !(#[trigger] matches_at(render_spec(ms), p, "http"@)));
    } else {
        let m = ms[0];
        let piece: Seq<char> = match (m.vk_group_id, m.vk_topic_id) {
            (Some(g), Some(t)) => render_one(g, t, m.title),
            _ => Seq::empty(),
        };
        let rest = render_spec(ms.drop_first());
        let text = render_spec(ms);
        assert(text == piece + rest);
        assert(all_round_trippable(ms.drop_first())) by {
            assert(forall|i: int|
                0 <= i < ms.drop_first().len() ==> ms.drop_first()[i] == ms[i + 1]);
        }
        lemma_render_text_safe(ms.drop_first());
        let g = m.vk_group_id->0;
        let t = m.vk_topic_id->0;
        assert(piece_wf(g, t, m.title));
        assert forall|p: int| 0 <= p < text.len() implies #[trigger] text[p] != '@' by {
            if p < piece.len() {
                assert(text[p] == piece[p]);
                lemma_piece_no_at(g, t, m.title, p);
            } else {
                assert(text[p] == rest[p - piece.len()]);
            }
        }
        assert forall|p: int| !(#[trigger] matches_at(text, p, "http"@)) by {
            if matches_at(text, p, "http"@) {
                if p >= piece.len() {
                    lemma_matches_shift(piece, rest, p - piece.len(), "http"@);
                } else if p + 4 <= piece.len() {
                    assert(matches_at(piece, p, "http"@)) by {
                        assert(piece[p] == text[p] && piece[p + 1] == text[p + 1] && piece[p + 2]
                            == text[p + 2] && piece[p + 3] == text[p + 3]);
                    }
                    lemma_piece_no_http(g, t, m.title, p);
                } else {
                    // The match would cross the line break that ends the piece.
                    let e = piece.len() as int;
                    assert(piece[e - 1] == '\n') by {
                        lemma_piece_char(g, t, m.title, e - 1);
                    }
                    assert(text[e - 1] == piece[e - 1]);
                    assert(text[p + (e - 1 - p)] == "http"@[e - 1 - p]);
                    assert("http"@[e - 1 - p] == '\n');
                }
            }
        }
    }
}

// ---------------------------------------------------------------------------
// Scans of safe text
// ---------------------------------------------------------------------------
proof fn lemma_scan_mention_empty(s: Seq<char>, i: int)
    requires
        forall|p: int| 0 <= p < s.len() ==> #[trigger] s[p] != '@',
    ensures
        scan_mention(s, i) == Seq::<CandModel>::empty(),
    decreases s.len() - i,
{
    if i >= s.len() {
        assert(scan_mention(s, i) =~= Seq::<CandModel>::empty());
    } else {
        assert(mention_at(s, i) is None);
        lemma_scan_mention_empty(s, i + 1);
    }
}

proof fn lemma_host_none(s: Seq<char>, i: int, tail: Seq<char>)
    requires
        forall|p: int| !(#[trigger] matches_at(s, p, "http"@)),
    ensures
        host_prefix_at(s, i, tail) is None,
{
    vstd::prelude::reveal_strlit("http");
    vstd::prelude::reveal_strlit("http://");
    vstd::prelude::reveal_strlit("https://");
    if matches_at(s, i, "https://"@) {
        assert(matches_at(s, i, "http"@)) by {
            assert(s[i + 0] == "https://"@[0] && s[i + 1] == "https://"@[1] && s[i + 2]
                == "https://"@[2] && s[i + 3] == "https://"@[3]);
        }
    }
    if matches_at(s, i, "http://"@) {
        assert(matches_at(s, i, "http"@)) by {
            assert(s[i + 0] == "http://"@[0] && s[i + 1] == "http://"@[1] && s[i + 2]
                == "http://"@[2] && s[i + 3] == "http://"@[3]);
        }
    }
}

proof fn lemma_scan_inv_empty(s: Seq<char>, i: int)
    requires
        forall|p: int| !(#[trigger] matches_at(s, p, "http"@)),
    ensures
        scan_inv(s, i) == Seq::<CandModel>::empty(),
    decreases s.len() - i,
{
    if i >= s.len() {
        assert(scan_inv(s, i) =~= Seq::<CandModel>::empty());
    } else {
        lemma_host_none(s, i, "vk.com/topic-"@);
        assert(inv_at(s, i) is None);
        lemma_scan_inv_empty(s, i + 1);
    }
}

proof fn lemma_scan_url_empty(s: Seq<char>, i: int, prev: Option<Seq<char>>)
    requires
        forall|p: int| !(#[trigger] matches_at(s, p, "http"@)),
    ensures
        scan_url(s, i, prev) == Seq::<CandModel>::empty(),
    decreases s.len() - i,
{
    if i >= s.len() {
        assert(scan_url(s, i, prev) =~= Seq::<CandModel>::empty());
    } else {
        lemma_host_none(s, i, "vk.com/topic-"@);
        assert(url_at(s, i) is None);
        lemma_scan_url_empty(s, i + 1, prev);
    }
}

proof fn lemma_scan_doc_empty(s: Seq<char>, i: int, prev: Option<Seq<char>>)
    requires
        forall|p: int| !(#[trigger] matches_at(s, p, "http"@)),
    ensures
        scan_doc(s, i, prev) == Seq::<CandModel>::empty(),
    decreases s.len() - i,
{
    if i >= s.len() {
        assert(scan_doc(s, i, prev) =~= Seq::<CandModel>::empty());
    } else {
        lemma_host_none(s, i, "vk.com/doc"@);
        assert(doc_at(s, i) is None);
        lemma_scan_doc_empty(s, i + 1, prev);
    }
}

/// Every line of text without an `http` fragment is itself without one.
proof fn lemma_split_no_http(s: Seq<char>)
    requires
        forall|p: int| !(#[trigger] matches_at(s, p, "http"@)),
    ensures
        forall|li: int, q: int|
            0 <= li < split_lines(s).len() ==> !(#[trigger] matches_at(
                split_lines(s)[li],
                q,
                "http"@,
            )),
    decreases s.len(),
{
    vstd::prelude::reveal_strlit("http");
    if s.len() == 0 {
    } else {
        let k = run_len(s, 0, crate::text::not_newline_pred());
        let line = strip_cr(s.subrange(0, k as int));
        crate::text::lemma_run(s, 0, crate::text::not_newline_pred());
        assert(line.len() <= k);
        assert forall|q: int| !(#[trigger] matches_at(line, q, "http"@)) by {
            if matches_at(line, q, "http"@) {
                assert(matches_at(s, q, "http"@)) by {
                    assert forall|x: int| 0 <= x < 4 implies s[q + x] == "http"@[x] by {
                        assert(line[q + x] == "http"@[x]);
                        assert(line[q + x] == s.subrange(0, k as int)[q + x]);
                        assert(s.subrange(0, k as int)[q + x] == s[q + x]);
                    }
                }
            }
        }
        if k < s.len() {
            let rest = s.skip(k + 1 as int);
            assert forall|p: int| !(#[trigger] matches_at(rest, p, "http"@)) by {
                if matches_at(rest, p, "http"@) {
                    lemma_matches_shift(s.take(k + 1 as int), rest, p, "http"@);
                    assert(s.take(k + 1 as int) + rest =~= s);
                    assert(matches_at(s, k + 1 + p, "http"@));
                }
            }
            lemma_split_no_http(rest);
            assert forall|li: int, q: int|
                0 <= li < split_lines(s).len() implies !(#[trigger] matches_at(
                split_lines(s)[li],
                q,
                "http"@,
            )) by {
                if li > 0 {
                    assert(split_lines(s)[li] == split_lines(rest)[li - 1]);
                }
            }
        }
    }
}

// ---------------------------------------------------------------------------
// The embedded-link scan of rendered text
// ---------------------------------------------------------------------------
/// The embedded-link match at the start of one rendered link.
proof fn lemma_bb_at_render(g: Seq<char>, t: Seq<char>, lab: Seq<char>, rest: Seq<char>)
    requires
        piece_wf(g, t, lab),
    ensures
        bb_at(render_one(g, t, lab) + rest, 0) == Some(
            (g, t, lab, render_one(g, t, lab).len() - 1),
        ),
{
    let r = render_one(g, t, lab);
    let s = r + rest;
    let gl = g.len() as int;
    let tl = t.len() as int;
    let ll = lab.len() as int;
    lemma_topic_lit();
    assert(r.len() == 11 + gl + tl + ll) by {
        lemma_piece_char(g, t, lab, 0);
    }
    assert forall|p: int| 0 <= p < r.len() implies s[p] == piece_char(g, t, lab, p) by {
        lemma_piece_char(g, t, lab, p);
        assert(s[p] == r[p]);
    }
    assert(s[0] == '[');
    assert(matches_at(s, 1, "topic-"@)) by {
        assert forall|x: int| 0 <= x < 6 implies s[1 + x] == "topic-"@[x] by {
            assert(s[1 + x] == piece_char(g, t, lab, 1 + x));
        }
    }
    assert(run_len(s, 7, digit_pred()) == gl) by {
        lemma_run_exact(s, 7, gl, digit_pred());
    }
    assert(s[7 + gl] == '_');
    assert(run_len(s, 8 + gl, digit_pred()) == tl) by {
        lemma_run_exact(s, 8 + gl, tl, digit_pred());
    }
    assert(s[8 + gl + tl] == '|');
    assert(run_len(s, 9 + gl + tl, not_rbracket_pred()) == ll) by {
        lemma_run_exact(s, 9 + gl + tl, ll, not_rbracket_pred());
    }
    assert(s[9 + gl + tl + ll] == ']');
    assert(s.subrange(7, 7 + gl) =~= g);
    assert(s.subrange(8 + gl, 8 + gl + tl) =~= t);
    assert(s.subrange(9 + gl + tl, 9 + gl + tl + ll) =~= lab);
}

/// An embedded-link match in the suffix of a concatenation is the same
/// match, shifted.
proof fn lemma_bb_at_shift(a: Seq<char>, b: Seq<char>, i: int)
    requires
        0 <= i,
    ensures
        match bb_at(b, i) {
            Some((g, t, l, e)) => bb_at(a + b, a.len() + i) == Some((g, t, l, a.len() + e)),
            None => bb_at(a + b, a.len() + i) is None,
        },
{
    let s = a + b;
    let al = a.len() as int;
    assert(s.skip(al) =~= b);
    assert forall|x: int| 0 <= x implies run_len(s, al + x, digit_pred()) == run_len(
        b,
        x,
        #[trigger] digit_pred(),
    ) by {
        if x <= b.len() {
            lemma_run_shift_gen(s, al, x, digit_pred());
        } else {
            assert(run_len(s, al + x, digit_pred()) == 0);
            assert(run_len(b, x, digit_pred()) == 0);
        }
    }
    assert forall|x: int| 0 <= x implies run_len(s, al + x, not_rbracket_pred()) == run_len(
        b,
        x,
        #[trigger] not_rbracket_pred(),
    ) by {
        if x <= b.len() {
            lemma_run_shift_gen(s, al, x, not_rbracket_pred());
        } else {
            assert(run_len(s, al + x, not_rbracket_pred()) == 0);
            assert(run_len(b, x, not_rbracket_pred()) == 0);
        }
    }
    lemma_matches_shift(a, b, i + 1, "topic-"@);
    assert(forall|x: int| 0 <= x < b.len() ==> #[trigger] s[al + x] == b[x]);
    if i < b.len() && b[i] == '[' && matches_at(b, i + 1, "topic-"@) {
        let d1 = run_len(b, i + 7, digit_pred());
        let j = i + 7 + d1;
        if d1 >= 1 && j < b.len() && b[j] == '_' {
            let d2 = run_len(b, j + 1, digit_pred());
            let k = j + 1 + d2;
            if d2 >= 1 && k < b.len() && b[k] == '|' {
                let lab = run_len(b, k + 1, not_rbracket_pred());
                if lab >= 1 && k + 1 + lab < b.len() {
                    assert(s.subrange(al + i + 7, al + j) =~= b.subrange(i + 7, j));
                    assert(s.subrange(al + j + 1, al + k) =~= b.subrange(j + 1, k));
                    assert(s.subrange(al + k + 1, al + k + 1 + lab) =~= b.subrange(
                        k + 1,
                        k + 1 + lab,
                    ));
                }
            }
        }
    }
}

/// Scanning the suffix of a concatenation from its start finds the same
/// embedded links.
#[verifier::rlimit(100)]
proof fn lemma_scan_bb_shift(a: Seq<char>, b: Seq<char>, i: int)
    requires
        0 <= i,
    ensures
        scan_bb(a + b, a.len() + i) == scan_bb(b, i),
    decreases b.len() - i,
{
    let s = a + b;
    let al = a.len() as int;
    lemma_bb_at_shift(a, b, i);
    if i >= b.len() {
        assert(scan_bb(s, al + i) =~= Seq::<CandModel>::empty());
        assert(scan_bb(b, i) =~= Seq::<CandModel>::empty());
    } else {
        match bb_at(b, i) {
            Some((g, t, l, e)) => {
                lemma_scan_bb_shift(a, b, e);
                assert(scan_bb(s, al + i) =~= scan_bb(b, i));
            },
            None => {
                lemma_scan_bb_shift(a, b, i + 1);
                assert(scan_bb(s, al + i) =~= scan_bb(b, i));
            },
        }
    }
}

/// The embedded-link candidates of rendered text: one per rendered node, in
/// order.
pub open spec fn embedded_cands(ms: Seq<NodeModel>) -> Seq<CandModel> {
    Seq::new(
        ms.len(),
        |i: int| CandModel::Embedded {
            group: ms[i].vk_group_id->0,
            topic: ms[i].vk_topic_id->0,
            label: ms[i].title,
        },
    )
}

proof fn lemma_scan_bb_render(ms: Seq<NodeModel>)
    requires
        all_round_trippable(ms),
    ensures
        scan_bb(render_spec(ms), 0) == embedded_cands(ms),
    decreases ms.len(),
{
    if ms.len() == 0 {
        assert(scan_bb(render_spec(ms), 0) =~= embedded_cands(ms));
    } else {
        let m = ms[0];
        let g = m.vk_group_id->0;
        let t = m.vk_topic_id->0;
        let piece = render_one(g, t, m.title);
        let rest = render_spec(ms.drop_first());
        let text = render_spec(ms);
        assert(text == piece + rest);
        assert(all_round_trippable(ms.drop_first())) by {
            assert(forall|i: int|
                0 <= i < ms.drop_first().len() ==> ms.drop_first()[i] == ms[i + 1]);
        }
        lemma_scan_bb_render(ms.drop_first());
        assert(piece_wf(g, t, m.title));
        lemma_bb_at_render(g, t, m.title, rest);
        let e = piece.len() - 1;
        // At the end of the piece stands the line break, which starts no link.
        assert(text[e as int] == '\n') by {
            lemma_piece_char(g, t, m.title, e as int);
            assert(text[e as int] == piece[e as int]);
        }
        assert(bb_at(text, e as int) is None);
        lemma_scan_bb_shift(piece, rest, 0);
        assert(scan_bb(text, piece.len() as int) == scan_bb(rest, 0));
        assert(scan_bb(text, e as int) == scan_bb(text, e + 1));
        assert(scan_bb(text, 0) == seq![
            CandModel::Embedded { group: g, topic: t, label: m.title },
        ] + scan_bb(text, e as int));
        assert(scan_bb(text, 0) =~= seq![
            CandModel::Embedded { group: g, topic: t, label: m.title },
        ] + scan_bb(rest, 0));
        assert(scan_bb(text, 0) =~= embedded_cands(ms)) by {
            assert(forall|i: int|
                0 <= i < ms.drop_first().len() ==> #[trigger] embedded_cands(
                    ms.drop_first(),
                )[i] == embedded_cands(ms)[i + 1]);
        }
    }
}

proof fn lemma_cands_lines_empty(lines: Seq<Seq<char>>, li: int)
    requires
        forall|i: int, q: int|
            0 <= i < lines.len() ==> !(#[trigger] matches_at(lines[i], q, "http"@)),
    ensures
        cands_from_lines(lines, li) == Seq::<CandModel>::empty(),
    decreases lines.len() - li,
{
    if li < 0 || li >= lines.len() {
        assert(cands_from_lines(lines, li) =~= Seq::<CandModel>::empty());
    } else {
        let prev: Option<Seq<char>> = if li == 0 {
            None
        } else {
            Some(lines[li - 1])
        };
        assert(forall|p: int| !(#[trigger] matches_at(lines[li], p, "http"@)));
        lemma_scan_inv_empty(lines[li], 0);
        lemma_scan_url_empty(lines[li], 0, prev);
        lemma_scan_doc_empty(lines[li], 0, prev);
        lemma_cands_lines_empty(lines, li + 1);
        assert(line_cands(lines[li], prev) =~= Seq::<CandModel>::empty());
        assert(cands_from_lines(lines, li) =~= Seq::<CandModel>::empty());
    }
}

// ---------------------------------------------------------------------------
// Building nodes from the rendered candidates
// ---------------------------------------------------------------------------
/// Topic ids are injective in the topic number.
proof fn lemma_topic_id_injective(a: Seq<char>, b: Seq<char>)
    requires
        topic_id_of(a, None) == topic_id_of(b, None),
    ensures
        a == b,
{
    let pa = "topic_"@ + a;
    let pb = "topic_"@ + b;
    assert(pa.len() == pb.len());
    assert forall|x: int| 0 <= x < a.len() implies a[x] == b[x] by {
        assert(pa["topic_"@.len() + x] == a[x]);
        assert(pb["topic_"@.len() + x] == b[x]);
    }
    assert(a =~= b);
}

/// The topic ids the rendered nodes should produce, in order.
pub open spec fn topic_ids(ms: Seq<NodeModel>) -> Seq<Seq<char>> {
    Seq::new(ms.len(), |i: int| topic_id_of(ms[i].vk_topic_id->0, None))
}

pub open spec fn distinct_topics(ms: Seq<NodeModel>) -> bool {
    forall|i: int, j: int|
        0 <= i < j < ms.len() ==> #[trigger] ms[i].vk_topic_id != #[trigger] ms[j].vk_topic_id
}

proof fn lemma_build_embedded(acc: Seq<NodeModel>, ms: Seq<NodeModel>)
    requires
        all_round_trippable(ms),
        distinct_topics(ms),
        forall|k: int, i: int|
            #![trigger acc[k], ms[i]]
            0 <= k < acc.len() && 0 <= i < ms.len() ==> acc[k].id != topic_id_of(
                ms[i].vk_topic_id->0,
                None,
            ),
    ensures
        ids_of(build_fold(acc, embedded_cands(ms), None)) == ids_of(acc) + topic_ids(ms),
    decreases ms.len(),
{
    if ms.len() == 0 {
        assert(embedded_cands(ms).len() == 0);
        assert(ids_of(build_fold(acc, embedded_cands(ms), None)) =~= ids_of(acc) + topic_ids(ms));
    } else {
        let m = ms[0];
        let g = m.vk_group_id->0;
        let t = m.vk_topic_id->0;
        let lab = m.title;
        let c = embedded_cands(ms)[0];
        assert(c == (CandModel::Embedded { group: g, topic: t, label: lab }));
        let title = labelled_title(lab, t);
        assert(title.len() < 200) by {
            crate::title::lemma_clean_title_len(lab);
            vstd::prelude::reveal_strlit("Topic ");
        }
        assert(!seen_id(acc, topic_id_of(t, None))) by {
            if seen_id(acc, topic_id_of(t, None)) {
                let k = choose|k: int|
                    0 <= k < acc.len() && acc[k].id == topic_id_of(t, None);
                assert(acc[k].id != topic_id_of(ms[0].vk_topic_id->0, None));
            }
        }
        let node = topic_node_model(g, t, None, title);
        assert(build_step(acc, c, None) == acc.push(node));
        let acc2 = acc.push(node);
        let rest = ms.drop_first();
        assert(all_round_trippable(rest)) by {
            assert(forall|i: int| 0 <= i < rest.len() ==> rest[i] == ms[i + 1]);
        }
        assert(distinct_topics(rest)) by {
            assert(forall|i: int| 0 <= i < rest.len() ==> rest[i] == ms[i + 1]);
        }
        assert forall|k: int, i: int|
            #![trigger acc2[k], rest[i]]
            0 <= k < acc2.len() && 0 <= i < rest.len() implies acc2[k].id != topic_id_of(
            rest[i].vk_topic_id->0, None) by {
            assert(rest[i] == ms[i + 1]);
            if k < acc.len() {
                assert(acc2[k] == acc[k]);
                assert(acc[k].id != topic_id_of(ms[i + 1].vk_topic_id->0, None));
            } else {
                assert(acc2[k] == node);
                if node.id == topic_id_of(rest[i].vk_topic_id->0, None) {
                    lemma_topic_id_injective(t, rest[i].vk_topic_id->0);
                    assert(ms[0].vk_topic_id == ms[i + 1].vk_topic_id);
                }
            }
        }
        lemma_build_embedded(acc2, rest);
        assert(embedded_cands(ms).drop_first() =~= embedded_cands(rest)) by {
            assert(forall|i: int| 0 <= i < rest.len() ==> rest[i] == ms[i + 1]);
        }
        assert(build_fold(acc, embedded_cands(ms), None) == build_fold(
            acc2,
            embedded_cands(rest),
            None,
        ));
        assert(ids_of(build_fold(acc, embedded_cands(ms), None)) =~= ids_of(acc) + topic_ids(ms))
            by {
            assert(ids_of(acc2) =~= ids_of(acc).push(node.id));
            assert(forall|i: int| 0 <= i < rest.len() ==> rest[i] == ms[i + 1]);
        }
    }
}

// ---------------------------------------------------------------------------
// The round trip
// ---------------------------------------------------------------------------
/// Parser round trip: rendering nodes as embedded links, one per line, and
/// parsing the result preserves the node identities — every node comes back,
/// in order, under its own id.  The nodes carry digit coordinates, distinct
/// topics, ids derived from their topic, and titles that cannot be mistaken
/// for link syntax.
pub proof fn lemma_parse_round_trip(ms: Seq<NodeModel>)
    requires
        all_round_trippable(ms),
        distinct_topics(ms),
        forall|i: int|
            0 <= i < ms.len() ==> #[trigger] ms[i].id == topic_id_of(ms[i].vk_topic_id->0, None),
    ensures
        ids_of(parse_spec(render_spec(ms), None)) == ids_of(ms),
{
    let text = render_spec(ms);
    lemma_render_text_safe(ms);
    lemma_scan_bb_render(ms);
    lemma_scan_mention_empty(text, 0);
    lemma_split_no_http(text);
    lemma_cands_lines_empty(split_lines(text), 0);
    assert(cands_spec(text) =~= embedded_cands(ms));
    lemma_build_embedded(Seq::empty(), ms);
    assert(build_fold(Seq::empty(), embedded_cands(ms), None) == build_fold(
        Seq::empty(),
        cands_spec(text),
        None,
    ));
    assert(ids_of(Seq::<NodeModel>::empty()) + topic_ids(ms) =~= topic_ids(ms));
    assert(ids_of(parse_spec(text, None)) =~= ids_of(ms));
}

} // verus!
