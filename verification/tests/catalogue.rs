use vk_catalog::api::build_comments_url;
use vk_catalog::api::build_heads_script;
use vk_catalog::api::build_offsets_script;
use vk_catalog::api::build_ping_url;
use vk_catalog::api::chunk_vec;
use vk_catalog::api::concat_comment_texts;
use vk_catalog::api::execute_url;
use vk_catalog::api::join_comment_texts;
use vk_catalog::api::remaining_offsets;
use vk_catalog::api::CoreError;
use vk_catalog::attachments::extract_documents;
use vk_catalog::attachments::Attachment;
use vk_catalog::attachments::Comment;
use vk_catalog::attachments::DocInfo;
use vk_catalog::crawler::apply_full_at_child;
use vk_catalog::crawler::apply_head_at;
use vk_catalog::crawler::apply_head_at_child;
use vk_catalog::crawler::assemble_node_content;
use vk_catalog::crawler::child_count;
use vk_catalog::crawler::child_info;
use vk_catalog::crawler::expandable_indices;
use vk_catalog::crawler::filter_root_nodes;
use vk_catalog::crawler::kind_for_children;
use vk_catalog::node::NodeKind;
use vk_catalog::parser::parse_topic_body;

fn doc(url: &str, id: u64) -> Attachment {
    Attachment {
        kind: "doc".to_string(),
        doc: Some(DocInfo {
            url: url.to_string(),
            id: Some(id),
            title: Some(format!("Doc {}", id)),
            ext: Some("pdf".to_string()),
            size: Some(1234),
            owner_id: Some(-9),
            access_key: Some("k".to_string()),
        }),
    }
}

#[test]
fn attachments_become_file_nodes() {
    let items = vec![Comment {
        text: Some("hello".to_string()),
        attachments: vec![doc("https://host/a.pdf", 5)],
    }];
    let nodes = extract_documents(&items);
    assert_eq!(nodes.len(), 1);
    assert_eq!(nodes[0].id, "doc_5");
    assert_eq!(nodes[0].title, "Doc 5");
    assert_eq!(nodes[0].extension.as_deref(), Some("PDF"));
    assert_eq!(nodes[0].size_bytes, Some(1234));
    assert_eq!(nodes[0].vk_owner_id.as_deref(), Some("-9"));
    assert_eq!(nodes[0].vk_doc_id.as_deref(), Some("5"));
    assert_eq!(nodes[0].vk_access_key.as_deref(), Some("k"));
    assert!(matches!(nodes[0].node_type, NodeKind::File));
}

#[test]
fn attachments_deduplicate_by_url() {
    let items = vec![
        Comment { text: None, attachments: vec![doc("https://host/a.pdf", 5)] },
        Comment { text: None, attachments: vec![doc("https://host/a.pdf", 6), doc("https://host/b.pdf", 7)] },
    ];
    let nodes = extract_documents(&items);
    assert_eq!(nodes.len(), 2);
    assert_eq!(nodes[0].id, "doc_5");
    assert_eq!(nodes[1].id, "doc_7");
}

#[test]
fn non_doc_attachments_are_ignored() {
    let items = vec![Comment {
        text: None,
        attachments: vec![Attachment { kind: "photo".to_string(), doc: None }, Attachment {
            kind: "photo".to_string(),
            doc: Some(DocInfo {
                url: "https://host/p.jpg".to_string(),
                id: Some(1),
                title: None,
                ext: None,
                size: None,
                owner_id: None,
                access_key: None,
            }),
        }],
    }];
    assert_eq!(extract_documents(&items).len(), 0);
}

#[test]
fn promotion_follows_file_children() {
    let files = parse_topic_body("https://vk.com/doc1_2", None);
    assert!(matches!(kind_for_children(&files), NodeKind::Series));
    let genres = parse_topic_body("[topic-1_2|A]", None);
    assert!(matches!(kind_for_children(&genres), NodeKind::Genre));
}

#[test]
fn assemble_node_content_merges_and_promotes() {
    let subs = parse_topic_body("[topic-1_5|Sub]", None);
    let docs = parse_topic_body("https://vk.com/doc1_9", None);
    let node = assemble_node_content("44", "77", subs, docs);
    assert_eq!(node.id, "topic_77");
    assert_eq!(node.title, "Topic 77");
    assert_eq!(node.url.as_deref(), Some("https://vk.com/topic-44_77"));
    assert!(matches!(node.node_type, NodeKind::Series));
    assert_eq!(node.is_loaded, Some(true));
    assert_eq!(node.structure_only, Some(false));
    assert_eq!(node.children.as_ref().map(|c| c.len()), Some(2));
}

#[test]
fn assemble_without_files_stays_genre() {
    let subs = parse_topic_body("[topic-1_5|Sub]", None);
    let node = assemble_node_content("44", "77", subs, Vec::new());
    assert!(matches!(node.node_type, NodeKind::Genre));
}

#[test]
fn root_filter_keeps_marked_entries() {
    let text = "[topic-1_2|BD en francais ici]\n[topic-1_3|Something else]";
    let nodes = parse_topic_body(text, None);
    let kept = filter_root_nodes(nodes);
    assert_eq!(kept.len(), 1);
    assert_eq!(kept[0].id, "topic_2");
}

#[test]
fn root_filter_keeps_all_without_marker() {
    let text = "[topic-1_2|Alpha]\n[topic-1_3|Beta]";
    let nodes = parse_topic_body(text, None);
    let kept = filter_root_nodes(nodes);
    assert_eq!(kept.len(), 2);
}

#[test]
fn head_fetch_marks_preview_nodes() {
    let mut roots = parse_topic_body("[topic-1_2|A]", None);
    let children = parse_topic_body("[topic-1_9|Child]", None);
    let needs_full = apply_head_at(&mut roots, 0, 42, children);
    assert!(!needs_full);
    assert_eq!(roots[0].count, Some(42));
    assert_eq!(roots[0].is_loaded, Some(true));
    assert_eq!(roots[0].structure_only, Some(true));
    assert_eq!(roots[0].children.as_ref().map(|c| c.len()), Some(1));
}

#[test]
fn large_topics_need_a_full_fetch() {
    let mut roots = parse_topic_body("[topic-1_2|A]", None);
    let needs_full = apply_head_at(&mut roots, 0, 250, Vec::new());
    assert!(needs_full);
    assert_eq!(roots[0].structure_only, Some(true));
}

#[test]
fn full_fetch_clears_structure_only() {
    let mut roots = parse_topic_body("[topic-1_2|A]", None);
    let preview = parse_topic_body("[topic-1_9|C]", None);
    let needs_full = apply_head_at(&mut roots, 0, 250, preview);
    assert!(needs_full);
    assert_eq!(roots[0].structure_only, Some(true));
    let full = parse_topic_body("[topic-1_9|C]\n[topic-1_8|D]", None);
    vk_catalog::crawler::apply_full_at(&mut roots, 0, full);
    assert_eq!(roots[0].structure_only, Some(false));
    assert_eq!(roots[0].is_loaded, Some(true));
    assert_eq!(roots[0].children.as_ref().map(|c| c.len()), Some(2));
}

#[test]
fn child_level_expansion_works_in_place() {
    let mut roots = parse_topic_body("[topic-1_2|Root]", None);
    let children = parse_topic_body("[topic-3_4|Child]", None);
    apply_head_at(&mut roots, 0, 5, children);
    let grandchildren = parse_topic_body("[topic-5_6|Grand]", None);
    let r = apply_head_at_child(&mut roots, 0, 0, 3, grandchildren);
    assert_eq!(r, Some(false));
    let child = &roots[0].children.as_ref().unwrap()[0];
    assert_eq!(child.count, Some(3));
    assert_eq!(child.structure_only, Some(true));
    let full = parse_topic_body("[topic-5_6|Grand]", None);
    let ok = apply_full_at_child(&mut roots, 0, 0, full);
    assert!(ok);
    let child = &roots[0].children.as_ref().unwrap()[0];
    assert_eq!(child.structure_only, Some(false));
    // A coordinate that names no child changes nothing.
    assert!(apply_head_at_child(&mut roots, 0, 9, 3, Vec::new()).is_none());
}

#[test]
fn depth_two_leaves_grandchildren_unloaded() {
    // A crawl capped at depth two: the roots are expanded once; what the
    // preview found below them is parsed but never expanded itself.
    let mut roots = parse_topic_body("[topic-1_2|Root]", None);
    let children = parse_topic_body("[topic-1_9|Child]", None);
    apply_head_at(&mut roots, 0, 10, children);
    assert_eq!(roots[0].is_loaded, Some(true));
    let child = &roots[0].children.as_ref().unwrap()[0];
    assert_eq!(child.is_loaded, Some(false));
    assert_eq!(child.children.as_ref().map(|c| c.len()), Some(0));
}

#[test]
fn expandable_selection_and_child_info() {
    let text = "[topic-1_2|A]\nhttps://vk.com/doc1_9";
    let nodes = parse_topic_body(text, None);
    let idx = expandable_indices(&nodes);
    assert_eq!(idx, vec![0usize]);
    let mut roots = nodes;
    let children = parse_topic_body("[topic-3_4|C]\nhttps://vk.com/doc1_5", None);
    apply_head_at(&mut roots, 0, 2, children);
    assert_eq!(child_count(&roots, 0), 2);
    let info = child_info(&roots, 0, 0).unwrap();
    assert_eq!(info.0, "3");
    assert_eq!(info.1, "4");
    assert!(child_info(&roots, 0, 1).is_none()); // a file is not expandable
}

#[test]
fn ping_and_comments_urls() {
    assert_eq!(
        build_ping_url("TOK"),
        "https://api.vk.com/method/utils.getServerTime?access_token=TOK&v=5.131"
    );
    assert_eq!(
        build_comments_url("-144657300", "50064577", 100, 0, "TOK"),
        "https://api.vk.com/method/board.getComments?group_id=144657300&topic_id=50064577&count=100&offset=0&access_token=TOK&v=5.131"
    );
    assert_eq!(execute_url(), "https://api.vk.com/method/execute");
}

#[test]
fn offsets_script_batches_board_reads() {
    let offsets = vec![100u64, 200];
    let script = build_offsets_script("-1", "2", &offsets);
    assert_eq!(
        script,
        "return [API.board.getComments({\"group_id\":1,\"topic_id\":2,\"count\":100,\"offset\":100}),API.board.getComments({\"group_id\":1,\"topic_id\":2,\"count\":100,\"offset\":200})];"
    );
}

#[test]
fn heads_script_batches_previews() {
    let targets = vec![("-1".to_string(), "2".to_string())];
    let script = build_heads_script(&targets);
    assert_eq!(
        script,
        "return [API.board.getComments({\"group_id\":1,\"topic_id\":2,\"count\":100,\"extended\":1})];"
    );
}

#[test]
fn remaining_offsets_follow_the_total() {
    assert_eq!(remaining_offsets(100), Vec::<u64>::new());
    assert_eq!(remaining_offsets(101), vec![100]);
    assert_eq!(remaining_offsets(250), vec![100, 200]);
    assert_eq!(remaining_offsets(301), vec![100, 200, 300]);
}

#[test]
fn chunking_preserves_order() {
    let v: Vec<u64> = (0..25).collect();
    let chunks = chunk_vec(&v, 10);
    assert_eq!(chunks.len(), 3);
    assert_eq!(chunks[0].len(), 10);
    assert_eq!(chunks[2].len(), 5);
    let flat: Vec<u64> = chunks.concat();
    assert_eq!(flat, v);
}

#[test]
fn comment_texts_join_and_terminate() {
    let items = vec![
        Comment { text: Some("a".to_string()), attachments: Vec::new() },
        Comment { text: None, attachments: Vec::new() },
        Comment { text: Some("b".to_string()), attachments: Vec::new() },
    ];
    assert_eq!(join_comment_texts(&items), "a\nb");
    assert_eq!(concat_comment_texts(&items), "a\nb\n");
}

#[test]
fn error_messages_carry_their_kind() {
    assert_eq!(CoreError::Network("boom".to_string()).message(), "network error: boom");
    assert_eq!(CoreError::Server("expired".to_string()).message(), "server error: expired");
    assert_eq!(CoreError::Cancelled.message(), "cancelled");
    assert_eq!(CoreError::Decode("bad json".to_string()).message(), "decode error: bad json");
}
