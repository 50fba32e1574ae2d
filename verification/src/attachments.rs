//! Document extraction from comment attachments: every attachment of kind
//! `doc` becomes a terminal file node, deduplicated by document URL.
use vstd::prelude::*;

verus! {

use vstd::string::StringExecFns;
use crate::node::model_of;
use crate::node::models_of;
use crate::node::lemma_models_of;
use crate::node::lemma_models_of_push;
use crate::node::NodeKind;
use crate::node::NodeModel;
use crate::node::VkNode;
use crate::text::append_chars;
use crate::text::chars_of;
use crate::text::chars_to_string;
use crate::text::dec_digits;
use crate::text::dec_digits_signed;
use crate::text::dec_string;
use crate::text::push_dec;
use crate::text::push_dec_signed;
use crate::text::upper_seq;
use crate::text::upper_vec;

// ---------------------------------------------------------------------------
// The modelled attachment data
// ---------------------------------------------------------------------------
/// What the server reports about one attached document.  A field the server
/// omitted is `None`; the URL of a document without one is empty.
pub struct DocInfo {
    pub url: String,
    pub id: Option<u64>,
    pub title: Option<String>,
    pub ext: Option<String>,
    pub size: Option<u64>,
    pub owner_id: Option<i64>,
    pub access_key: Option<String>,
}

/// One attachment of a comment: its reported kind and, for documents, the
/// document data.
pub struct Attachment {
    pub kind: String,
    pub doc: Option<DocInfo>,
}

/// One board comment: its text, when the server sent any, and its
/// attachments.
pub struct Comment {
    pub text: Option<String>,
    pub attachments: Vec<Attachment>,
}

pub struct DocInfoModel {
    pub url: Seq<char>,
    pub id: Option<u64>,
    pub title: Option<Seq<char>>,
    pub ext: Option<Seq<char>>,
    pub size: Option<u64>,
    pub owner_id: Option<i64>,
    pub access_key: Option<Seq<char>>,
}

pub struct AttachmentModel {
    pub kind: Seq<char>,
    pub doc: Option<DocInfoModel>,
}

pub struct CommentModel {
    pub text: Option<Seq<char>>,
    pub attachments: Seq<AttachmentModel>,
}

pub open spec fn opt_view(s: Option<String>) -> Option<Seq<char>> {
    match s {
        Some(x) => Some(x@),
        None => None,
    }
}

pub open spec fn doc_info_model(d: DocInfo) -> DocInfoModel {
    DocInfoModel {
        url: d.url@,
        id: d.id,
        title: opt_view(d.title),
        ext: opt_view(d.ext),
        size: d.size,
        owner_id: d.owner_id,
        access_key: opt_view(d.access_key),
    }
}

pub open spec fn attachment_model(a: Attachment) -> AttachmentModel {
    AttachmentModel {
        kind: a.kind@,
        doc: match a.doc {
            Some(d) => Some(doc_info_model(d)),
            None => None,
        },
    }
}

pub open spec fn comment_model(c: Comment) -> CommentModel {
    CommentModel {
        text: opt_view(c.text),
        attachments: Seq::new(c.attachments@.len(), |i: int| attachment_model(c.attachments@[i])),
    }
}

pub open spec fn comment_models(s: Seq<Comment>) -> Seq<CommentModel> {
    Seq::new(s.len(), |i: int| comment_model(s[i]))
}

// ---------------------------------------------------------------------------
// What one document becomes
// ---------------------------------------------------------------------------
/// The reported document id, zero when the server omitted it.
pub open spec fn doc_id_or_zero(d: DocInfoModel) -> u64 {
    match d.id {
        Some(i) => i,
        None => 0,
    }
}

/// The file node produced for one attached document.
pub open spec fn attachment_node_model(d: DocInfoModel) -> NodeModel {
    NodeModel {
        id: "doc_"@ + dec_digits(doc_id_or_zero(d) as nat),
        title: match d.title {
            Some(t) => t,
            None => "Document"@,
        },
        url: Some(d.url),
        node_type: NodeKind::File,
        children: None,
        count: None,
        extension: match d.ext {
            Some(e) => Some(upper_seq(e)),
            None => None,
        },
        is_loaded: Some(true),
        structure_only: None,
        vk_group_id: None,
        vk_topic_id: None,
        vk_owner_id: match d.owner_id {
            Some(o) => Some(dec_digits_signed(o as int)),
            None => None,
        },
        vk_doc_id: Some(dec_digits(doc_id_or_zero(d) as nat)),
        vk_access_key: d.access_key,
        size_bytes: d.size,
    }
}

/// Has a node with this document URL already been produced?
pub open spec fn seen_url(acc: Seq<NodeModel>, url: Seq<char>) -> bool {
    exists|k: int| 0 <= k < acc.len() && acc[k].url == Some(url)
}

/// One attachment: only documents with a nonempty, unseen URL produce a node.
pub open spec fn doc_step(acc: Seq<NodeModel>, a: AttachmentModel) -> Seq<NodeModel> {
    if a.kind != "doc"@ {
        acc
    } else {
        match a.doc {
            None => acc,
            Some(d) => if d.url.len() == 0 || seen_url(acc, d.url) {
                acc
            } else {
                acc.push(attachment_node_model(d))
            },
        }
    }
}

pub open spec fn atts_fold(acc: Seq<NodeModel>, atts: Seq<AttachmentModel>) -> Seq<NodeModel>
    decreases atts.len(),
{
    if atts.len() == 0 {
        acc
    } else {
        atts_fold(doc_step(acc, atts[0]), atts.drop_first())
    }
}

pub open spec fn comments_fold(acc: Seq<NodeModel>, items: Seq<CommentModel>) -> Seq<NodeModel>
    decreases items.len(),
{
    if items.len() == 0 {
        acc
    } else {
        comments_fold(atts_fold(acc, items[0].attachments), items.drop_first())
    }
}

/// What document extraction produces for a comment sequence.
pub open spec fn extract_spec(items: Seq<CommentModel>) -> Seq<NodeModel> {
    comments_fold(Seq::empty(), items)
}

// ---------------------------------------------------------------------------
// Executable extraction
// ---------------------------------------------------------------------------
fn make_attachment_node(d: &DocInfo) -> (n: VkNode)
    ensures
        model_of(n) == attachment_node_model(doc_info_model(*d)),
{
    let doc_id: u64 = match &d.id {
        Some(i) => *i,
        None => 0,
    };
    let mut id = String::from_str("doc_");
    let mut digits: Vec<char> = Vec::new();
    push_dec(&mut digits, doc_id);
    append_chars(&mut id, &digits);
    proof {
        assert(id@ =~= "doc_"@ + dec_digits(doc_id as nat));
    }
    let title = match &d.title {
        Some(t) => t.clone(),
        None => String::from_str("Document"),
    };
    let ext: Option<String> = match &d.ext {
        Some(e) => {
            let ec = chars_of(e.as_str());
            Some(chars_to_string(&upper_vec(&ec)))
        },
        None => None,
    };
    let owner: Option<String> = match &d.owner_id {
        Some(o) => {
            let mut oc: Vec<char> = Vec::new();
            push_dec_signed(&mut oc, *o);
            proof {
                assert(oc@ =~= dec_digits_signed(*o as int));
            }
            Some(chars_to_string(&oc))
        },
        None => None,
    };
    let n = VkNode {
        id,
        title,
        url: Some(d.url.clone()),
        node_type: NodeKind::File,
        children: None,
        count: None,
        extension: ext,
        is_loaded: Some(true),
        structure_only: None,
        vk_group_id: None,
        vk_topic_id: None,
        vk_owner_id: owner,
        vk_doc_id: Some(dec_string(doc_id)),
        vk_access_key: match &d.access_key {
            Some(a) => Some(a.clone()),
            None => None,
        },
        size_bytes: d.size,
    };
    n
}

/// Has a node with this document URL already been produced?
fn contains_url(nodes: &Vec<VkNode>, url: &String) -> (r: bool)
    ensures
        r == seen_url(models_of(nodes@), url@),
{
    let n = nodes.len();
    let mut i: usize = 0;
    while i < n
        invariant
            n == nodes@.len(),
            i <= n,
            forall|k: int| 0 <= k < i ==> models_of(nodes@)[k].url != Some(url@),
        decreases n - i,
    {
        proof {
            lemma_models_of(nodes@);
        }
        match &nodes[i].url {
            Some(u) => {
                if *u == *url {
                    proof {
                        assert(models_of(nodes@)[i as int].url == Some(url@));
                    }
                    return true;
                }
            },
            None => {},
        }
        i = i + 1;
    }
    proof {
        lemma_models_of(nodes@);
    }
    false
}

/// Extracts the attached documents of a comment sequence as file nodes,
/// keeping only attachments of kind `doc` with a nonempty URL, deduplicated
/// by URL, in comment order.
pub fn extract_documents(items: &Vec<Comment>) -> (r: Vec<VkNode>)
    ensures
        models_of(r@) == extract_spec(comment_models(items@)),
{
    let mut nodes: Vec<VkNode> = Vec::new();
    let n = items.len();
    let mut i: usize = 0;
    proof {
        assert(models_of(nodes@) =~= Seq::<NodeModel>::empty());
        assert(comment_models(items@).skip(0) =~= comment_models(items@));
    }
    while i < n
        invariant
            n == items@.len(),
            i <= n,
            comments_fold(models_of(nodes@), comment_models(items@).skip(i as int))
                == extract_spec(comment_models(items@)),
        decreases n - i,
    {
        let ghost items_m = comment_models(items@);
        let ghost pre_outer = models_of(nodes@);
        let atts = &items[i].attachments;
        let m = atts.len();
        let mut j: usize = 0;
        proof {
            assert(items_m.skip(i as int)[0] == items_m[i as int]);
            assert(items_m[i as int].attachments.skip(0) =~= items_m[i as int].attachments);
        }
        while j < m
            invariant
                n == items@.len(),
                i < n,
                m == items@[i as int].attachments@.len(),
                j <= m,
                items_m == comment_models(items@),
                atts_fold(
                    models_of(nodes@),
                    items_m[i as int].attachments.skip(j as int),
                ) == atts_fold(pre_outer, items_m[i as int].attachments),
            decreases m - j,
        {
            let ghost am = items_m[i as int].attachments;
            let ghost pre = models_of(nodes@);
            let a = &items[i].attachments[j];
            proof {
                assert(am.skip(j as int)[0] == am[j as int]);
                assert(am.skip(j as int).drop_first() =~= am.skip(j + 1));
                assert(am[j as int] == attachment_model(items@[i as int].attachments@[j as int]));
            }
            let is_doc = a.kind.eq(&String::from_str("doc"));
            if is_doc {
                match &a.doc {
                    Some(d) => {
                        if !d.url.as_str().is_empty() && !contains_url(&nodes, &d.url) {
                            let node = make_attachment_node(d);
                            let ghost before = nodes@;
                            nodes.push(node);
                            proof {
                                lemma_models_of_push(before, node);
                            }
                        }
                    },
                    None => {},
                }
            }
            proof {
                assert(models_of(nodes@) == doc_step(pre, am[j as int])) by {
                    vstd::prelude::reveal_strlit("doc");
                }
                assert(atts_fold(pre, am.skip(j as int)) == atts_fold(
                    doc_step(pre, am[j as int]),
                    am.skip(j + 1),
                ));
            }
            j = j + 1;
        }
        proof {
            assert(items_m[i as int].attachments.skip(m as int)
                =~= Seq::<AttachmentModel>::empty());
            assert(atts_fold(models_of(nodes@), items_m[i as int].attachments.skip(m as int))
                == models_of(nodes@));
            assert(items_m.skip(i as int).drop_first() =~= items_m.skip(i + 1));
            assert(comments_fold(pre_outer, items_m.skip(i as int)) == comments_fold(
                atts_fold(pre_outer, items_m[i as int].attachments),
                items_m.skip(i + 1),
            ));
        }
        i = i + 1;
    }
    proof {
        assert(comment_models(items@).skip(n as int) =~= Seq::<CommentModel>::empty());
    }
    nodes
}

} // verus!
