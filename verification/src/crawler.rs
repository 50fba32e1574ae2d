//! Pure decision logic of the level-by-level catalogue crawler: which nodes
//! are expandable, how head and full fetch results are written into the
//! tree, the series promotion rule, the root-index heuristic, and the depth
//! bounds of the resulting tree.  The surrounding network loop performs the
//! fetches and feeds their decoded results to these functions.
use vstd::prelude::*;

verus! {

use vstd::string::StringExecFns;
use crate::node::model_of;
use crate::node::models_of;
use crate::node::lemma_models_of;
use crate::node::lemma_models_of_push;
use crate::node::NodeKind;
use crate::node::NodeModel;
use crate::node::VkNode;
use crate::parser::parsed_shape;
use crate::parser::topic_fallback_title;
use crate::parser::topic_id_of;
use crate::parser::topic_url_of;
use crate::text::append_chars;
use crate::text::chars_of;
use crate::text::contains_lit;
use crate::text::contains_pat;
use crate::text::upper_seq;
use crate::text::upper_vec;

// ---------------------------------------------------------------------------
// Tree height
// ---------------------------------------------------------------------------
/// Height of a node model: 1 for a childless node, 1 more than the tallest
/// child otherwise.  A tree crawled to depth `D` has roots of height at most
/// `D`, hence no path longer than `D`.
pub open spec fn model_height(m: NodeModel) -> nat
    decreases m,
{
    match m.children {
        Some(cs) => 1 + seq_model_height(cs),
        None => 1,
    }
}

/// The tallest height in a sequence of node models (0 when empty).
pub open spec fn seq_model_height(s: Seq<NodeModel>) -> nat
    decreases s,
{
    if s.len() == 0 {
        0
    } else {
        let rest = seq_model_height(s.drop_last());
        let last = model_height(s.last());
        if last > rest {
            last
        } else {
            rest
        }
    }
}

/// Every member's height bounds the sequence height and vice versa.
pub proof fn lemma_seq_model_height(s: Seq<NodeModel>)
    ensures
        forall|i: int| 0 <= i < s.len() ==> model_height(#[trigger] s[i]) <= seq_model_height(s),
        s.len() == 0 ==> seq_model_height(s) == 0,
    decreases s,
{
    if s.len() > 0 {
        lemma_seq_model_height(s.drop_last());
        assert(forall|i: int| 0 <= i < s.len() - 1 ==> s.drop_last()[i] == s[i]);
    }
}

/// A height bound on every member bounds the sequence height.
pub proof fn lemma_seq_model_height_bound(s: Seq<NodeModel>, h: nat)
    requires
        forall|i: int| 0 <= i < s.len() ==> model_height(#[trigger] s[i]) <= h,
    ensures
        seq_model_height(s) <= h,
    decreases s,
{
    if s.len() > 0 {
        assert(forall|i: int| 0 <= i < s.len() - 1 ==> s.drop_last()[i] == s[i]);
        lemma_seq_model_height_bound(s.drop_last(), h);
        assert(s.last() == s[s.len() - 1]);
    }
}

/// Nodes of the shape the parser produces are leaves or empty branches:
/// their height is exactly 1.
pub proof fn lemma_parsed_height(s: Seq<NodeModel>)
    requires
        forall|i: int| 0 <= i < s.len() ==> parsed_shape(#[trigger] s[i]),
    ensures
        seq_model_height(s) <= 1,
{
    assert forall|i: int| 0 <= i < s.len() implies model_height(#[trigger] s[i]) <= 1 by {
        let m = s[i];
        match m.children {
            Some(cs) => {
                assert(cs =~= Seq::<NodeModel>::empty());
                assert(seq_model_height(cs) == 0);
            },
            None => {},
        }
    }
    lemma_seq_model_height_bound(s, 1);
}

// ---------------------------------------------------------------------------
// Expandable nodes
// ---------------------------------------------------------------------------
/// A node whose children can be fetched: a genre or category with both
/// server coordinates.
pub open spec fn expandable_model(m: NodeModel) -> bool {
    (m.node_type == NodeKind::Genre || m.node_type == NodeKind::Category) && m.vk_group_id is Some
        && m.vk_topic_id is Some
}

pub fn expandable(n: &VkNode) -> (r: bool)
    ensures
        r == expandable_model(model_of(*n)),
{
    (match n.node_type {
        NodeKind::Genre => true,
        NodeKind::Category => true,
        _ => false,
    }) && n.vk_group_id.is_some() && n.vk_topic_id.is_some()
}

/// The positions of the expandable nodes, in order.
pub open spec fn expandable_indices_spec(s: Seq<NodeModel>) -> Seq<int>
    decreases s,
{
    if s.len() == 0 {
        Seq::empty()
    } else {
        let r = expandable_indices_spec(s.drop_last());
        if expandable_model(s.last()) {
            r.push(s.len() - 1)
        } else {
            r
        }
    }
}

pub open spec fn usize_views(s: Seq<usize>) -> Seq<int> {
    Seq::new(s.len(), |i: int| s[i] as int)
}

/// The positions of the nodes whose children the crawler will fetch.
pub fn expandable_indices(nodes: &Vec<VkNode>) -> (r: Vec<usize>)
    ensures
        usize_views(r@) == expandable_indices_spec(models_of(nodes@)),
{
    let n = nodes.len();
    let mut out: Vec<usize> = Vec::new();
    let mut i: usize = 0;
    proof {
        lemma_models_of(nodes@);
        assert(usize_views(out@) =~= expandable_indices_spec(
            models_of(nodes@).subrange(0, 0),
        ));
    }
    while i < n
        invariant
            n == nodes@.len(),
            i <= n,
            usize_views(out@) =~= expandable_indices_spec(models_of(nodes@).subrange(0, i as int)),
        decreases n - i,
    {
        let ghost ms = models_of(nodes@);
        proof {
            lemma_models_of(nodes@);
            assert(ms.subrange(0, i + 1).drop_last() =~= ms.subrange(0, i as int));
            assert(ms.subrange(0, i + 1).last() == ms[i as int]);
        }
        if expandable(&nodes[i]) {
            out.push(i);
            proof {
                assert(usize_views(out@) =~= expandable_indices_spec(ms.subrange(0, i + 1)));
            }
        } else {
            proof {
                assert(usize_views(out@) =~= expandable_indices_spec(ms.subrange(0, i + 1)));
            }
        }
        i = i + 1;
    }
    proof {
        assert(models_of(nodes@).subrange(0, n as int) =~= models_of(nodes@));
    }
    out
}

// ---------------------------------------------------------------------------
// Series promotion
// ---------------------------------------------------------------------------
/// Does the child list contain a file?
pub open spec fn has_file_child(cs: Seq<NodeModel>) -> bool {
    exists|i: int| 0 <= i < cs.len() && cs[i].node_type == NodeKind::File
}

/// The kind a parent takes from its children: `Series` exactly when some
/// child is a file, `Genre` otherwise.
pub fn kind_for_children(children: &Vec<VkNode>) -> (k: NodeKind)
    ensures
        (k == NodeKind::Series) == has_file_child(models_of(children@)),
        k == NodeKind::Series || k == NodeKind::Genre,
{
    let n = children.len();
    let mut i: usize = 0;
    while i < n
        invariant
            n == children@.len(),
            i <= n,
            forall|k: int| 0 <= k < i ==> models_of(children@)[k].node_type != NodeKind::File,
        decreases n - i,
    {
        proof {
            lemma_models_of(children@);
        }
        let is_file = match children[i].node_type {
            NodeKind::File => true,
            _ => false,
        };
        if is_file {
            proof {
                assert(models_of(children@)[i as int].node_type == NodeKind::File);
            }
            return NodeKind::Series;
        }
        i = i + 1;
    }
    proof {
        lemma_models_of(children@);
    }
    NodeKind::Genre
}

/// Assembles the full content of one topic: parsed sub-topics followed by
/// attached documents, promoted to `Series` exactly when a file is among
/// them, fully loaded.
pub fn assemble_node_content(
    group_id: &str,
    topic_id: &str,
    sub_topics: Vec<VkNode>,
    documents: Vec<VkNode>,
) -> (n: VkNode)
    ensures
        model_of(n).id == topic_id_of(topic_id@, None),
        model_of(n).title == topic_fallback_title(topic_id@),
        model_of(n).url == Some(topic_url_of(group_id@, topic_id@)),
        model_of(n).children == Some(models_of(sub_topics@) + models_of(documents@)),
        (model_of(n).node_type == NodeKind::Series) == has_file_child(
            models_of(sub_topics@) + models_of(documents@),
        ),
        model_of(n).node_type == NodeKind::Series || model_of(n).node_type == NodeKind::Genre,
        model_of(n).is_loaded == Some(true),
        model_of(n).structure_only == Some(false),
        model_of(n).vk_group_id == Some(group_id@),
        model_of(n).vk_topic_id == Some(topic_id@),
{
    let g = chars_of(group_id);
    let t = chars_of(topic_id);
    let mut children = sub_topics;
    let mut docs = documents;
    let ghost ca = children@;
    let ghost da = docs@;
    children.append(&mut docs);
    proof {
        lemma_models_of_concat(ca, da);
    }
    let kind = kind_for_children(&children);
    let mut id = String::from_str("topic_");
    append_chars(&mut id, &t);
    let mut title = chars_of("Topic ");
    let mut tc = crate::text::copy_chars(&t);
    title.append(&mut tc);
    let mut url = String::from_str("https://vk.com/topic-");
    append_chars(&mut url, &g);
    url.append("_");
    append_chars(&mut url, &t);
    proof {
        assert(id@ =~= topic_id_of(topic_id@, None));
        assert(title@ =~= topic_fallback_title(topic_id@));
        assert(url@ =~= topic_url_of(group_id@, topic_id@));
    }
    VkNode {
        id,
        title: crate::text::chars_to_string(&title),
        url: Some(url),
        node_type: kind,
        children: Some(children),
        count: None,
        extension: None,
        is_loaded: Some(true),
        structure_only: Some(false),
        vk_group_id: Some(crate::text::chars_to_string(&g)),
        vk_topic_id: Some(crate::text::chars_to_string(&t)),
        vk_owner_id: None,
        vk_doc_id: None,
        vk_access_key: None,
        size_bytes: None,
    }
}

/// Concatenating node vectors concatenates their models.
pub proof fn lemma_models_of_concat(va: Seq<VkNode>, vb: Seq<VkNode>)
    ensures
        models_of(va + vb) == models_of(va) + models_of(vb),
{
    lemma_models_of(va);
    lemma_models_of(vb);
    lemma_models_of(va + vb);
    assert(models_of(va + vb) =~= models_of(va) + models_of(vb));
}

// ---------------------------------------------------------------------------
// The root-index heuristic
// ---------------------------------------------------------------------------
/// A root entry that carries the collection marker in its title.
pub open spec fn marked(m: NodeModel) -> bool {
    contains_pat(upper_seq(m.title), "EN FRANCAIS"@)
}

/// The marked entries, in order.
pub open spec fn filter_marked(s: Seq<NodeModel>) -> Seq<NodeModel>
    decreases s,
{
    if s.len() == 0 {
        Seq::empty()
    } else {
        let r = filter_marked(s.drop_last());
        if marked(s.last()) {
            r.push(s.last())
        } else {
            r
        }
    }
}

/// What the heuristic keeps: only the marked entries when any exist,
/// everything otherwise.
pub open spec fn root_filter_spec(s: Seq<NodeModel>) -> Seq<NodeModel> {
    if filter_marked(s).len() > 0 {
        filter_marked(s)
    } else {
        s
    }
}

fn node_marked(n: &VkNode) -> (r: bool)
    ensures
        r == marked(model_of(*n)),
{
    let tc = chars_of(n.title.as_str());
    let up = upper_vec(&tc);
    contains_lit(&up, "EN FRANCAIS")
}

/// Applies the root-index heuristic: when any parsed root entry carries the
/// collection marker in its (upper-cased) title, only those entries are
/// kept; otherwise all are.
pub fn filter_root_nodes(nodes: Vec<VkNode>) -> (r: Vec<VkNode>)
    ensures
        models_of(r@) == root_filter_spec(models_of(nodes@)),
{
    let n = nodes.len();
    let mut flags: Vec<bool> = Vec::new();
    let mut any = false;
    let mut i: usize = 0;
    while i < n
        invariant
            n == nodes@.len(),
            i <= n,
            flags@.len() == i,
            forall|k: int| 0 <= k < i ==> flags@[k] == marked(models_of(nodes@)[k]),
            any == (filter_marked(models_of(nodes@).subrange(0, i as int)).len() > 0),
        decreases n - i,
    {
        let ghost ms = models_of(nodes@);
        proof {
            lemma_models_of(nodes@);
            assert(ms.subrange(0, i + 1).drop_last() =~= ms.subrange(0, i as int));
            assert(ms.subrange(0, i + 1).last() == ms[i as int]);
        }
        let f = node_marked(&nodes[i]);
        flags.push(f);
        if f {
            any = true;
        }
        i = i + 1;
    }
    proof {
        lemma_models_of(nodes@);
        assert(models_of(nodes@).subrange(0, n as int) =~= models_of(nodes@));
    }
    let ghost orig = models_of(nodes@);
    let mut rest = nodes;
    let mut out: Vec<VkNode> = Vec::new();
    let mut j: usize = 0;
    proof {
        lemma_models_of(rest@);
        assert(models_of(out@) =~= Seq::<NodeModel>::empty());
        assert(filter_marked(orig.subrange(0, 0)) =~= Seq::<NodeModel>::empty());
        assert(orig.subrange(0, 0) =~= Seq::<NodeModel>::empty());
    }
    while rest.len() > 0
        invariant
            n == orig.len(),
            j <= n,
            flags@.len() == n,
            forall|k: int| 0 <= k < n ==> flags@[k] == marked(orig[k]),
            any == (filter_marked(orig).len() > 0),
            rest@.len() == n - j,
            models_of(rest@) =~= orig.subrange(j as int, n as int),
            models_of(out@) =~= (if any {
                filter_marked(orig.subrange(0, j as int))
            } else {
                orig.subrange(0, j as int)
            }),
        decreases rest@.len(),
    {
        let ghost pre_rest = rest@;
        let ghost pre_out = models_of(out@);
        let node = rest.remove(0);
        proof {
            lemma_models_of(pre_rest);
            lemma_models_of(rest@);
            assert(rest@ =~= pre_rest.drop_first());
            assert forall|k: int|
                0 <= k < models_of(rest@).len() implies models_of(rest@)[k] == orig.subrange(
                j + 1,
                n as int,
            )[k] by {
                assert(rest@[k] == pre_rest[k + 1]);
                assert(models_of(rest@)[k] == model_of(rest@[k]));
                assert(models_of(pre_rest)[k + 1] == model_of(pre_rest[k + 1]));
                assert(models_of(pre_rest)[k + 1] == orig.subrange(j as int, n as int)[k + 1]);
            }
            assert(models_of(rest@) =~= orig.subrange(j + 1, n as int));
            assert(model_of(node) == orig[j as int]) by {
                assert(pre_rest[0] == node);
                assert(models_of(pre_rest)[0] == model_of(pre_rest[0]));
            }
            assert(orig.subrange(0, j + 1).drop_last() =~= orig.subrange(0, j as int));
            assert(orig.subrange(0, j + 1).last() == orig[j as int]);
        }
        if !any || flags[j] {
            let ghost before = out@;
            out.push(node);
            proof {
                lemma_models_of_push(before, node);
            }
        }
        proof {
            assert(models_of(out@) =~= (if any {
                filter_marked(orig.subrange(0, j + 1))
            } else {
                orig.subrange(0, j + 1)
            }));
        }
        j = j + 1;
    }
    proof {
        assert(j == n);
        assert(orig.subrange(0, n as int) =~= orig);
    }
    out
}

// ---------------------------------------------------------------------------
// Writing fetch results into the tree
// ---------------------------------------------------------------------------
/// A node after its head fetch: the reported comment count recorded, the
/// preview children installed, loaded, and marked structure-only.
pub open spec fn head_applied(m: NodeModel, count: u64, cs: Seq<NodeModel>) -> NodeModel {
    NodeModel {
        count: Some(count as i32),
        children: Some(cs),
        is_loaded: Some(true),
        structure_only: Some(true),
        ..m
    }
}

/// A node after a successful full fetch: the preview children replaced and
/// the structure-only mark cleared.
pub open spec fn full_applied(m: NodeModel, cs: Seq<NodeModel>) -> NodeModel {
    NodeModel { children: Some(cs), is_loaded: Some(true), structure_only: Some(false), ..m }
}

/// Records a head-fetch result on one node.  Every expanded node comes out
/// loaded and structure-only, whatever its count; the caller must follow up
/// with a full fetch exactly when the reported count exceeds the preview
/// size of one hundred comments.
pub fn apply_head_result(node: &mut VkNode, count: u64, children: Vec<VkNode>) -> (needs_full:
    bool)
    requires
        count <= 2147483647,
    ensures
        model_of(*final(node)) == head_applied(model_of(*old(node)), count, models_of(children@)),
        needs_full == (count > 100),
{
    node.count = Some(count as i32);
    node.children = Some(children);
    node.is_loaded = Some(true);
    node.structure_only = Some(true);
    count > 100
}

/// Records a successful full fetch on one node: its children are replaced
/// by the fully parsed result and it is no longer structure-only.
pub fn apply_full_result(node: &mut VkNode, children: Vec<VkNode>)
    ensures
        model_of(*final(node)) == full_applied(model_of(*old(node)), models_of(children@)),
{
    node.children = Some(children);
    node.is_loaded = Some(true);
    node.structure_only = Some(false);
}

/// Records a head-fetch result on the node at `idx` of a flat level.
pub fn apply_head_at(nodes: &mut Vec<VkNode>, idx: usize, count: u64, children: Vec<VkNode>) -> (
    needs_full: bool)
    requires
        idx < old(nodes)@.len(),
        count <= 2147483647,
    ensures
        models_of(final(nodes)@) == models_of(old(nodes)@).update(
            idx as int,
            head_applied(models_of(old(nodes)@)[idx as int], count, models_of(children@)),
        ),
        needs_full == (count > 100),
{
    let node = &mut nodes[idx];
    let r = apply_head_result(node, count, children);
    proof {
        lemma_models_of(old(nodes)@);
        lemma_models_of(nodes@);
        assert(models_of(nodes@) =~= models_of(old(nodes)@).update(
            idx as int,
            head_applied(models_of(old(nodes)@)[idx as int], count, models_of(children@)),
        ));
    }
    r
}

/// Records a full-fetch result on the node at `idx` of a flat level.
pub fn apply_full_at(nodes: &mut Vec<VkNode>, idx: usize, children: Vec<VkNode>)
    requires
        idx < old(nodes)@.len(),
    ensures
        models_of(final(nodes)@) == models_of(old(nodes)@).update(
            idx as int,
            full_applied(models_of(old(nodes)@)[idx as int], models_of(children@)),
        ),
{
    let node = &mut nodes[idx];
    apply_full_result(node, children);
    proof {
        lemma_models_of(old(nodes)@);
        lemma_models_of(nodes@);
        assert(models_of(nodes@) =~= models_of(old(nodes)@).update(
            idx as int,
            full_applied(models_of(old(nodes)@)[idx as int], models_of(children@)),
        ));
    }
}

// ---------------------------------------------------------------------------
// Reading a level for the next batch
// ---------------------------------------------------------------------------
/// The number of children under root `ri` (zero when out of range or not
/// yet expanded).
pub fn child_count(roots: &Vec<VkNode>, ri: usize) -> (c: usize)
    ensures
        c as int == (if ri < models_of(roots@).len() {
            match models_of(roots@)[ri as int].children {
                Some(cs) => cs.len() as int,
                None => 0,
            }
        } else {
            0
        }),
{
    proof {
        lemma_models_of(roots@);
    }
    if ri >= roots.len() {
        return 0;
    }
    match &roots[ri].children {
        Some(cs) => {
            proof {
                lemma_models_of(cs@);
            }
            cs.len()
        },
        None => 0,
    }
}

/// The server coordinates of the child at `(ri, ci)`, when that child
/// exists and is expandable.
pub fn child_info(roots: &Vec<VkNode>, ri: usize, ci: usize) -> (r: Option<(String, String)>)
    ensures
        match r {
            Some(p) => {
                &&& ri < models_of(roots@).len()
                &&& models_of(roots@)[ri as int].children is Some
                &&& ci < models_of(roots@)[ri as int].children->0.len()
                &&& expandable_model(models_of(roots@)[ri as int].children->0[ci as int])
                &&& Some(p.0@) == models_of(roots@)[ri as int].children->0[ci as int].vk_group_id
                &&& Some(p.1@) == models_of(roots@)[ri as int].children->0[ci as int].vk_topic_id
            },
            None => !(ri < models_of(roots@).len()
                && models_of(roots@)[ri as int].children is Some && ci < models_of(
                roots@,
            )[ri as int].children->0.len() && expandable_model(
                models_of(roots@)[ri as int].children->0[ci as int],
            )),
        },
{
    proof {
        lemma_models_of(roots@);
    }
    if ri >= roots.len() {
        return None;
    }
    match &roots[ri].children {
        Some(cs) => {
            proof {
                lemma_models_of(cs@);
            }
            if ci >= cs.len() {
                return None;
            }
            let child = &cs[ci];
            if !expandable(child) {
                return None;
            }
            match (&child.vk_group_id, &child.vk_topic_id) {
                (Some(g), Some(t)) => Some((g.clone(), t.clone())),
                _ => None,
            }
        },
        None => None,
    }
}

/// Records a head-fetch result on the child at `(ri, ci)`; `None` when the
/// coordinate does not name a child, with the tree unchanged.
pub fn apply_head_at_child(
    roots: &mut Vec<VkNode>,
    ri: usize,
    ci: usize,
    count: u64,
    children: Vec<VkNode>,
) -> (r: Option<bool>)
    requires
        count <= 2147483647,
    ensures
        match r {
            Some(nf) => {
                &&& child_coord_valid(models_of(old(roots)@), ri as int, ci as int)
                &&& models_of(final(roots)@) == models_of(old(roots)@).update(
                    ri as int,
                    with_child(
                        models_of(old(roots)@)[ri as int],
                        ci as int,
                        head_applied(
                            models_of(old(roots)@)[ri as int].children->0[ci as int],
                            count,
                            models_of(children@),
                        ),
                    ),
                )
                &&& nf == (count > 100)
            },
            None => models_of(final(roots)@) == models_of(old(roots)@) && !child_coord_valid(
                models_of(old(roots)@),
                ri as int,
                ci as int,
            ),
        },
{
    proof {
        lemma_models_of(old(roots)@);
    }
    if ri >= roots.len() {
        return None;
    }
    let present = match &roots[ri].children {
        Some(cs) => {
            proof {
                lemma_models_of(cs@);
            }
            ci < cs.len()
        },
        None => false,
    };
    if !present {
        proof {
            assert(!child_coord_valid(models_of(roots@), ri as int, ci as int));
        }
        return None;
    }
    let root = &mut roots[ri];
    proof {
        assert(root.children is Some);
    }
    let nf: bool;
    match &mut root.children {
        Some(cs) => {
            let ghost old_cs = cs@;
            let child = &mut cs[ci];
            let nf0 = apply_head_result(child, count, children);
            proof {
                lemma_models_of(old_cs);
                lemma_models_of(cs@);
                assert(models_of(cs@) =~= models_of(old_cs).update(
                    ci as int,
                    head_applied(models_of(old_cs)[ci as int], count, models_of(children@)),
                ));
            }
            nf = nf0;
        },
        None => {
            proof {
                assert(false);
            }
            nf = false;
        },
    }
    proof {
        lemma_models_of(roots@);
        assert(models_of(roots@) =~= models_of(old(roots)@).update(
            ri as int,
            with_child(
                models_of(old(roots)@)[ri as int],
                ci as int,
                head_applied(
                    models_of(old(roots)@)[ri as int].children->0[ci as int],
                    count,
                    models_of(children@),
                ),
            ),
        ));
    }
    Some(nf)
}

/// A coordinate that names a child of a root.
pub open spec fn child_coord_valid(s: Seq<NodeModel>, ri: int, ci: int) -> bool {
    0 <= ri < s.len() && s[ri].children is Some && 0 <= ci < s[ri].children->0.len()
}

/// A root with the child at `ci` replaced.
pub open spec fn with_child(m: NodeModel, ci: int, c: NodeModel) -> NodeModel {
    NodeModel { children: Some(m.children->0.update(ci, c)), ..m }
}

/// A coordinate that names a grandchild of a root.
pub open spec fn grandchild_coord_valid(s: Seq<NodeModel>, ri: int, ci: int, gi: int) -> bool {
    child_coord_valid(s, ri, ci) && s[ri].children->0[ci].children is Some && 0 <= gi
        < s[ri].children->0[ci].children->0.len()
}

/// Records a full-fetch result on the child at `(ri, ci)`; `None` when the
/// coordinate does not name a child, with the tree unchanged.
pub fn apply_full_at_child(
    roots: &mut Vec<VkNode>,
    ri: usize,
    ci: usize,
    children: Vec<VkNode>,
) -> (r: bool)
    ensures
        r == child_coord_valid(models_of(old(roots)@), ri as int, ci as int),
        r ==> models_of(final(roots)@) == models_of(old(roots)@).update(
            ri as int,
            with_child(
                models_of(old(roots)@)[ri as int],
                ci as int,
                full_applied(
                    models_of(old(roots)@)[ri as int].children->0[ci as int],
                    models_of(children@),
                ),
            ),
        ),
        !r ==> models_of(final(roots)@) == models_of(old(roots)@),
{
    proof {
        lemma_models_of(old(roots)@);
    }
    if ri >= roots.len() {
        return false;
    }
    let present = match &roots[ri].children {
        Some(cs) => {
            proof {
                lemma_models_of(cs@);
            }
            ci < cs.len()
        },
        None => false,
    };
    if !present {
        return false;
    }
    let root = &mut roots[ri];
    proof {
        assert(root.children is Some);
    }
    match &mut root.children {
        Some(cs) => {
            let ghost old_cs = cs@;
            let child = &mut cs[ci];
            apply_full_result(child, children);
            proof {
                lemma_models_of(old_cs);
                lemma_models_of(cs@);
                assert(models_of(cs@) =~= models_of(old_cs).update(
                    ci as int,
                    full_applied(models_of(old_cs)[ci as int], models_of(children@)),
                ));
            }
        },
        None => {
            proof {
                assert(false);
            }
        },
    }
    proof {
        lemma_models_of(roots@);
        assert(models_of(roots@) =~= models_of(old(roots)@).update(
            ri as int,
            with_child(
                models_of(old(roots)@)[ri as int],
                ci as int,
                full_applied(
                    models_of(old(roots)@)[ri as int].children->0[ci as int],
                    models_of(children@),
                ),
            ),
        ));
    }
    true
}

/// The number of grandchildren under `(ri, ci)` (zero when the coordinate
/// names no expanded child).
pub fn grandchild_count(roots: &Vec<VkNode>, ri: usize, ci: usize) -> (c: usize)
    ensures
        c as int == (if child_coord_valid(models_of(roots@), ri as int, ci as int) {
            match models_of(roots@)[ri as int].children->0[ci as int].children {
                Some(gs) => gs.len() as int,
                None => 0,
            }
        } else {
            0
        }),
{
    proof {
        lemma_models_of(roots@);
    }
    if ri >= roots.len() {
        return 0;
    }
    match &roots[ri].children {
        Some(cs) => {
            proof {
                lemma_models_of(cs@);
            }
            if ci >= cs.len() {
                return 0;
            }
            match &cs[ci].children {
                Some(gs) => {
                    proof {
                        lemma_models_of(gs@);
                    }
                    gs.len()
                },
                None => 0,
            }
        },
        None => 0,
    }
}

/// The server coordinates of the grandchild at `(ri, ci, gi)`, when it
/// exists and is expandable.
pub fn grandchild_info(roots: &Vec<VkNode>, ri: usize, ci: usize, gi: usize) -> (r: Option<
    (String, String),
>)
    ensures
        match r {
            Some(p) => {
                &&& grandchild_coord_valid(models_of(roots@), ri as int, ci as int, gi as int)
                &&& expandable_model(
                    models_of(roots@)[ri as int].children->0[ci as int].children->0[gi as int],
                )
                &&& Some(p.0@) == models_of(
                    roots@,
                )[ri as int].children->0[ci as int].children->0[gi as int].vk_group_id
                &&& Some(p.1@) == models_of(
                    roots@,
                )[ri as int].children->0[ci as int].children->0[gi as int].vk_topic_id
            },
            None => !(grandchild_coord_valid(models_of(roots@), ri as int, ci as int, gi as int)
                && expandable_model(
                models_of(roots@)[ri as int].children->0[ci as int].children->0[gi as int],
            )),
        },
{
    proof {
        lemma_models_of(roots@);
    }
    if ri >= roots.len() {
        return None;
    }
    match &roots[ri].children {
        Some(cs) => {
            proof {
                lemma_models_of(cs@);
            }
            if ci >= cs.len() {
                return None;
            }
            match &cs[ci].children {
                Some(gs) => {
                    proof {
                        lemma_models_of(gs@);
                    }
                    if gi >= gs.len() {
                        return None;
                    }
                    let g_node = &gs[gi];
                    if !expandable(g_node) {
                        return None;
                    }
                    match (&g_node.vk_group_id, &g_node.vk_topic_id) {
                        (Some(g), Some(t)) => Some((g.clone(), t.clone())),
                        _ => None,
                    }
                },
                None => None,
            }
        },
        None => None,
    }
}

/// Does the root at `ri` carry this topic id?  Decides whether the deepest
/// crawl level applies to it.
pub fn root_topic_is(roots: &Vec<VkNode>, ri: usize, t: &str) -> (r: bool)
    ensures
        r == (ri < models_of(roots@).len() && models_of(roots@)[ri as int].vk_topic_id == Some(
            t@,
        )),
{
    proof {
        lemma_models_of(roots@);
    }
    if ri >= roots.len() {
        return false;
    }
    match &roots[ri].vk_topic_id {
        Some(s) => {
            let sc = chars_of(s.as_str());
            let tc = chars_of(t);
            crate::text::eq_chars(&sc, &tc)
        },
        None => false,
    }
}

/// Records a head-fetch result on the grandchild at `(ri, ci, gi)`; `None`
/// when the coordinate does not name a grandchild, with the tree unchanged.
pub fn apply_head_at_grandchild(
    roots: &mut Vec<VkNode>,
    ri: usize,
    ci: usize,
    gi: usize,
    count: u64,
    children: Vec<VkNode>,
) -> (r: Option<bool>)
    requires
        count <= 2147483647,
    ensures
        match r {
            Some(nf) => {
                &&& grandchild_coord_valid(models_of(old(roots)@), ri as int, ci as int, gi as int)
                &&& models_of(final(roots)@) == models_of(old(roots)@).update(
                    ri as int,
                    with_child(
                        models_of(old(roots)@)[ri as int],
                        ci as int,
                        with_child(
                            models_of(old(roots)@)[ri as int].children->0[ci as int],
                            gi as int,
                            head_applied(
                                models_of(
                                    old(roots)@,
                                )[ri as int].children->0[ci as int].children->0[gi as int],
                                count,
                                models_of(children@),
                            ),
                        ),
                    ),
                )
                &&& nf == (count > 100)
            },
            None => models_of(final(roots)@) == models_of(old(roots)@)
                && !grandchild_coord_valid(
                models_of(old(roots)@),
                ri as int,
                ci as int,
                gi as int,
            ),
        },
{
    proof {
        lemma_models_of(old(roots)@);
    }
    if ri >= roots.len() {
        return None;
    }
    let present = match &roots[ri].children {
        Some(cs) => {
            proof {
                lemma_models_of(cs@);
            }
            if ci < cs.len() {
                match &cs[ci].children {
                    Some(gs) => {
                        proof {
                            lemma_models_of(gs@);
                        }
                        gi < gs.len()
                    },
                    None => false,
                }
            } else {
                false
            }
        },
        None => false,
    };
    if !present {
        proof {
            assert(!grandchild_coord_valid(models_of(roots@), ri as int, ci as int, gi as int));
        }
        return None;
    }
    let root = &mut roots[ri];
    proof {
        assert(root.children is Some);
    }
    let nf: bool;
    match &mut root.children {
        Some(cs) => {
            let ghost old_cs = cs@;
            let child = &mut cs[ci];
            proof {
                assert(child.children is Some);
            }
            match &mut child.children {
                Some(gs) => {
                    let ghost old_gs = gs@;
                    let g_node = &mut gs[gi];
                    let nf0 = apply_head_result(g_node, count, children);
                    proof {
                        lemma_models_of(old_gs);
                        lemma_models_of(gs@);
                        assert(models_of(gs@) =~= models_of(old_gs).update(
                            gi as int,
                            head_applied(
                                models_of(old_gs)[gi as int],
                                count,
                                models_of(children@),
                            ),
                        ));
                    }
                    nf = nf0;
                },
                None => {
                    proof {
                        assert(false);
                    }
                    nf = false;
                },
            }
            proof {
                lemma_models_of(old_cs);
                lemma_models_of(cs@);
                assert(models_of(cs@) =~= models_of(old_cs).update(
                    ci as int,
                    with_child(
                        models_of(old_cs)[ci as int],
                        gi as int,
                        head_applied(
                            models_of(old_cs)[ci as int].children->0[gi as int],
                            count,
                            models_of(children@),
                        ),
                    ),
                ));
            }
        },
        None => {
            proof {
                assert(false);
            }
            nf = false;
        },
    }
    proof {
        lemma_models_of(roots@);
        assert(models_of(roots@) =~= models_of(old(roots)@).update(
            ri as int,
            with_child(
                models_of(old(roots)@)[ri as int],
                ci as int,
                with_child(
                    models_of(old(roots)@)[ri as int].children->0[ci as int],
                    gi as int,
                    head_applied(
                        models_of(
                            old(roots)@,
                        )[ri as int].children->0[ci as int].children->0[gi as int],
                        count,
                        models_of(children@),
                    ),
                ),
            ),
        ));
    }
    Some(nf)
}

/// Records a full-fetch result on the grandchild at `(ri, ci, gi)`.
pub fn apply_full_at_grandchild(
    roots: &mut Vec<VkNode>,
    ri: usize,
    ci: usize,
    gi: usize,
    children: Vec<VkNode>,
) -> (r: bool)
    ensures
        r == grandchild_coord_valid(models_of(old(roots)@), ri as int, ci as int, gi as int),
        r ==> models_of(final(roots)@) == models_of(old(roots)@).update(
            ri as int,
            with_child(
                models_of(old(roots)@)[ri as int],
                ci as int,
                with_child(
                    models_of(old(roots)@)[ri as int].children->0[ci as int],
                    gi as int,
                    full_applied(
                        models_of(
                            old(roots)@,
                        )[ri as int].children->0[ci as int].children->0[gi as int],
                        models_of(children@),
                    ),
                ),
            ),
        ),
        !r ==> models_of(final(roots)@) == models_of(old(roots)@),
{
    proof {
        lemma_models_of(old(roots)@);
    }
    if ri >= roots.len() {
        return false;
    }
    let present = match &roots[ri].children {
        Some(cs) => {
            proof {
                lemma_models_of(cs@);
            }
            if ci < cs.len() {
                match &cs[ci].children {
                    Some(gs) => {
                        proof {
                            lemma_models_of(gs@);
                        }
                        gi < gs.len()
                    },
                    None => false,
                }
            } else {
                false
            }
        },
        None => false,
    };
    if !present {
        proof {
            assert(!grandchild_coord_valid(models_of(roots@), ri as int, ci as int, gi as int));
        }
        return false;
    }
    let root = &mut roots[ri];
    proof {
        assert(root.children is Some);
    }
    match &mut root.children {
        Some(cs) => {
            let ghost old_cs = cs@;
            let child = &mut cs[ci];
            proof {
                assert(child.children is Some);
            }
            match &mut child.children {
                Some(gs) => {
                    let ghost old_gs = gs@;
                    let g_node = &mut gs[gi];
                    apply_full_result(g_node, children);
                    proof {
                        lemma_models_of(old_gs);
                        lemma_models_of(gs@);
                        assert(models_of(gs@) =~= models_of(old_gs).update(
                            gi as int,
                            full_applied(models_of(old_gs)[gi as int], models_of(children@)),
                        ));
                    }
                },
                None => {
                    proof {
                        assert(false);
                    }
                },
            }
            proof {
                lemma_models_of(old_cs);
                lemma_models_of(cs@);
                assert(models_of(cs@) =~= models_of(old_cs).update(
                    ci as int,
                    with_child(
                        models_of(old_cs)[ci as int],
                        gi as int,
                        full_applied(
                            models_of(old_cs)[ci as int].children->0[gi as int],
                            models_of(children@),
                        ),
                    ),
                ));
            }
        },
        None => {
            proof {
                assert(false);
            }
        },
    }
    proof {
        lemma_models_of(roots@);
        assert(models_of(roots@) =~= models_of(old(roots)@).update(
            ri as int,
            with_child(
                models_of(old(roots)@)[ri as int],
                ci as int,
                with_child(
                    models_of(old(roots)@)[ri as int].children->0[ci as int],
                    gi as int,
                    full_applied(
                        models_of(
                            old(roots)@,
                        )[ri as int].children->0[ci as int].children->0[gi as int],
                        models_of(children@),
                    ),
                ),
            ),
        ));
    }
    true
}

// ---------------------------------------------------------------------------
// Depth bounds
// ---------------------------------------------------------------------------
/// Crawler depth law, root level: installing parser-produced children at a
/// root keeps every path within any depth bound of at least two.
pub proof fn lemma_expand_root_depth(
    s: Seq<NodeModel>,
    idx: int,
    m: NodeModel,
    cs: Seq<NodeModel>,
    d: nat,
)
    requires
        0 <= idx < s.len(),
        seq_model_height(s) <= d,
        2 <= d,
        m.children == Some(cs),
        forall|i: int| 0 <= i < cs.len() ==> parsed_shape(#[trigger] cs[i]),
    ensures
        seq_model_height(s.update(idx, m)) <= d,
{
    lemma_parsed_height(cs);
    assert(model_height(m) == 1 + seq_model_height(cs));
    lemma_seq_model_height(s);
    assert forall|i: int|
        0 <= i < s.update(idx, m).len() implies model_height(
        #[trigger] s.update(idx, m)[i],
    ) <= d by {
        if i != idx {
            assert(s.update(idx, m)[i] == s[i]);
        }
    }
    lemma_seq_model_height_bound(s.update(idx, m), d);
}

/// Crawler depth law, child level: installing parser-produced children at a
/// child of a root keeps every path within any depth bound of at least
/// three.
pub proof fn lemma_expand_child_depth(
    s: Seq<NodeModel>,
    ri: int,
    ci: int,
    c: NodeModel,
    cs: Seq<NodeModel>,
    d: nat,
)
    requires
        child_coord_valid(s, ri, ci),
        seq_model_height(s) <= d,
        3 <= d,
        c.children == Some(cs),
        forall|i: int| 0 <= i < cs.len() ==> parsed_shape(#[trigger] cs[i]),
    ensures
        seq_model_height(s.update(ri, with_child(s[ri], ci, c))) <= d,
{
    lemma_parsed_height(cs);
    assert(model_height(c) == 1 + seq_model_height(cs));
    let old_cs = s[ri].children->0;
    let new_cs = old_cs.update(ci, c);
    lemma_seq_model_height(s);
    lemma_seq_model_height(old_cs);
    assert(seq_model_height(old_cs) < model_height(s[ri]));
    assert forall|i: int|
        0 <= i < new_cs.len() implies model_height(#[trigger] new_cs[i]) <= d - 1 by {
        if i != ci {
            assert(new_cs[i] == old_cs[i]);
        }
    }
    lemma_seq_model_height_bound(new_cs, (d - 1) as nat);
    assert(model_height(with_child(s[ri], ci, c)) <= d);
    assert forall|i: int|
        0 <= i < s.update(ri, with_child(s[ri], ci, c)).len() implies model_height(
        #[trigger] s.update(ri, with_child(s[ri], ci, c))[i],
    ) <= d by {
        if i != ri {
            assert(s.update(ri, with_child(s[ri], ci, c))[i] == s[i]);
        }
    }
    lemma_seq_model_height_bound(s.update(ri, with_child(s[ri], ci, c)), d);
}

/// Crawler depth law, grandchild level: installing parser-produced children
/// at a grandchild keeps every path within any depth bound of at least
/// four — the crawl's hard cap.
pub proof fn lemma_expand_grandchild_depth(
    s: Seq<NodeModel>,
    ri: int,
    ci: int,
    gi: int,
    c: NodeModel,
    cs: Seq<NodeModel>,
    d: nat,
)
    requires
        grandchild_coord_valid(s, ri, ci, gi),
        seq_model_height(s) <= d,
        4 <= d,
        c.children == Some(cs),
        forall|i: int| 0 <= i < cs.len() ==> parsed_shape(#[trigger] cs[i]),
    ensures
        seq_model_height(
            s.update(ri, with_child(s[ri], ci, with_child(s[ri].children->0[ci], gi, c))),
        ) <= d,
{
    lemma_parsed_height(cs);
    assert(model_height(c) == 1 + seq_model_height(cs));
    let child = s[ri].children->0[ci];
    let old_gs = child.children->0;
    let new_gs = old_gs.update(gi, c);
    let new_child = with_child(child, gi, c);
    lemma_seq_model_height(s);
    lemma_seq_model_height(s[ri].children->0);
    lemma_seq_model_height(old_gs);
    assert(seq_model_height(s[ri].children->0) < model_height(s[ri]));
    assert(model_height(child) <= seq_model_height(s[ri].children->0));
    assert(seq_model_height(old_gs) < model_height(child));
    assert forall|i: int|
        0 <= i < new_gs.len() implies model_height(#[trigger] new_gs[i]) <= d - 2 by {
        if i != gi {
            assert(new_gs[i] == old_gs[i]);
        }
    }
    lemma_seq_model_height_bound(new_gs, (d - 2) as nat);
    assert(model_height(new_child) <= d - 1);
    let old_cs = s[ri].children->0;
    let new_cs = old_cs.update(ci, new_child);
    assert forall|i: int|
        0 <= i < new_cs.len() implies model_height(#[trigger] new_cs[i]) <= d - 1 by {
        if i != ci {
            assert(new_cs[i] == old_cs[i]);
        }
    }
    lemma_seq_model_height_bound(new_cs, (d - 1) as nat);
    assert(model_height(with_child(s[ri], ci, new_child)) <= d);
    let updated = s.update(ri, with_child(s[ri], ci, new_child));
    assert forall|i: int|
        0 <= i < updated.len() implies model_height(#[trigger] updated[i]) <= d by {
        if i != ri {
            assert(updated[i] == s[i]);
        }
    }
    lemma_seq_model_height_bound(updated, d);
}

} // verus!
