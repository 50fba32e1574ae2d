//! The universal catalogue tree element and the spec-level facts about it.
use vstd::prelude::*;

verus! {

/// What a catalogue entry stands for.  Parsed topic links start as `Genre`;
/// a topic whose children include a `File` is promoted to `Series`;
/// `File` nodes are terminal.
#[derive(Clone, Copy, Debug, PartialEq, Eq, Structural)]
pub enum NodeKind {
    Category,
    Genre,
    Series,
    Topic,
    File,
}

/// The universal tree element of the catalogue.
#[derive(Debug)]
pub struct VkNode {
    /// Locally unique within a tree: `topic_<t>`, `topic_<t>_post<p>`,
    /// `doc_<d>` or `doc_<owner>_<d>`.
    pub id: String,
    /// Display string, cleaned of decorative noise.
    pub title: String,
    /// Canonical server URL for this entity.
    pub url: Option<String>,
    pub node_type: NodeKind,
    /// Ordered children; `None` for files.
    pub children: Option<Vec<VkNode>>,
    /// Total comment count reported by the server for topics.
    pub count: Option<i32>,
    /// Uppercased file extension (files only).
    pub extension: Option<String>,
    /// True once children have been materialised at least preview-level.
    pub is_loaded: Option<bool>,
    /// True when children were derived from a preview rather than a full fetch.
    pub structure_only: Option<bool>,
    pub vk_group_id: Option<String>,
    pub vk_topic_id: Option<String>,
    pub vk_owner_id: Option<String>,
    pub vk_doc_id: Option<String>,
    pub vk_access_key: Option<String>,
    pub size_bytes: Option<u64>,
}

/// The spec-level mirror of a [`VkNode`]: every string is a `Seq<char>`.
/// Contracts about parsing and crawling are stated over these values.
pub struct NodeModel {
    pub id: Seq<char>,
    pub title: Seq<char>,
    pub url: Option<Seq<char>>,
    pub node_type: NodeKind,
    pub children: Option<Seq<NodeModel>>,
    pub count: Option<i32>,
    pub extension: Option<Seq<char>>,
    pub is_loaded: Option<bool>,
    pub structure_only: Option<bool>,
    pub vk_group_id: Option<Seq<char>>,
    pub vk_topic_id: Option<Seq<char>>,
    pub vk_owner_id: Option<Seq<char>>,
    pub vk_doc_id: Option<Seq<char>>,
    pub vk_access_key: Option<Seq<char>>,
    pub size_bytes: Option<u64>,
}

pub open spec fn opt_seq(s: Option<String>) -> Option<Seq<char>> {
    match s {
        Some(x) => Some(x@),
        None => None,
    }
}

/// The spec-level value of a node.
pub open spec fn model_of(n: VkNode) -> NodeModel
    decreases n,
{
    NodeModel {
        id: n.id@,
        title: n.title@,
        url: opt_seq(n.url),
        node_type: n.node_type,
        children: match n.children {
            Some(cs) => Some(models_of(cs@)),
            None => None,
        },
        count: n.count,
        extension: opt_seq(n.extension),
        is_loaded: n.is_loaded,
        structure_only: n.structure_only,
        vk_group_id: opt_seq(n.vk_group_id),
        vk_topic_id: opt_seq(n.vk_topic_id),
        vk_owner_id: opt_seq(n.vk_owner_id),
        vk_doc_id: opt_seq(n.vk_doc_id),
        vk_access_key: opt_seq(n.vk_access_key),
        size_bytes: n.size_bytes,
    }
}

/// The spec-level values of a sequence of nodes.
pub open spec fn models_of(s: Seq<VkNode>) -> Seq<NodeModel>
    decreases s,
{
    if s.len() == 0 {
        Seq::empty()
    } else {
        models_of(s.drop_last()).push(model_of(s.last()))
    }
}

/// `models_of` is pointwise `model_of`.
pub proof fn lemma_models_of(s: Seq<VkNode>)
    ensures
        models_of(s).len() == s.len(),
        forall|i: int| 0 <= i < s.len() ==> models_of(s)[i] == model_of(s[i]),
    decreases s,
{
    if s.len() > 0 {
        lemma_models_of(s.drop_last());
    }
}

/// Appending one node appends its model.
pub proof fn lemma_models_of_push(s: Seq<VkNode>, n: VkNode)
    ensures
        models_of(s.push(n)) == models_of(s).push(model_of(n)),
{
    assert(s.push(n).drop_last() =~= s);
    assert(s.push(n).last() == n);
}


} // verus!
