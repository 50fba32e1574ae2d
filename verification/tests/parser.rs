use vk_catalog::node::NodeKind;
use vk_catalog::parser::parse_topic_body;
use vk_catalog::roundtrip::render_links;
use vk_catalog::title::clean_title;

#[test]
fn embedded_link_produces_genre_node() {
    let nodes = parse_topic_body("[topic-10_20|My Series]", None);
    assert_eq!(nodes.len(), 1);
    assert_eq!(nodes[0].id, "topic_20");
    assert_eq!(nodes[0].title, "My Series");
    assert!(matches!(nodes[0].node_type, NodeKind::Genre));
    assert_eq!(nodes[0].url.as_deref(), Some("https://vk.com/topic-10_20"));
    assert_eq!(nodes[0].vk_group_id.as_deref(), Some("10"));
    assert_eq!(nodes[0].vk_topic_id.as_deref(), Some("20"));
    assert_eq!(nodes[0].is_loaded, Some(false));
    assert_eq!(nodes[0].children.as_ref().map(|c| c.len()), Some(0));
}

#[test]
fn bare_url_takes_title_from_previous_line() {
    let nodes = parse_topic_body("Great Series Name\nhttps://m.vk.com/topic-123_456", None);
    assert_eq!(nodes.len(), 1);
    assert_eq!(nodes[0].id, "topic_456");
    assert_eq!(nodes[0].title, "Great Series Name");
    assert!(matches!(nodes[0].node_type, NodeKind::Genre));
}

#[test]
fn inverted_malformed_link_recovers_label() {
    let nodes = parse_topic_body("https://vk.com/topic-1_2|Label]", None);
    assert_eq!(nodes.len(), 1);
    assert_eq!(nodes[0].id, "topic_2");
    assert_eq!(nodes[0].title, "Label");
}

#[test]
fn mention_with_post_gets_post_id() {
    let nodes = parse_topic_body("@topic-1_2?post=3 (A Label)", None);
    assert_eq!(nodes.len(), 1);
    assert_eq!(nodes[0].id, "topic_2_post3");
    assert_eq!(nodes[0].title, "A Label");
}

#[test]
fn mention_without_label_falls_back() {
    let nodes = parse_topic_body("@topic-7_8", None);
    assert_eq!(nodes.len(), 1);
    assert_eq!(nodes[0].id, "topic_8");
    assert_eq!(nodes[0].title, "Topic 8");
}

#[test]
fn duplicate_ids_are_dropped_first_seen_wins() {
    let text = "[topic-1_5|First]\n[topic-2_5|Second]";
    let nodes = parse_topic_body(text, None);
    assert_eq!(nodes.len(), 1);
    assert_eq!(nodes[0].title, "First");
}

#[test]
fn cross_syntax_deduplication() {
    let text = "[topic-1_5|Label]\nhttps://vk.com/topic-1_5";
    let nodes = parse_topic_body(text, None);
    assert_eq!(nodes.len(), 1);
    assert_eq!(nodes[0].title, "Label");
}

#[test]
fn excluded_topic_is_skipped() {
    let nodes = parse_topic_body("Title\nhttps://m.vk.com/topic-123_456", Some("456"));
    assert_eq!(nodes.len(), 0);
}

#[test]
fn exclusion_leaves_other_topics() {
    let text = "[topic-1_5|Keep]\n[topic-1_6|Drop]";
    let nodes = parse_topic_body(text, Some("6"));
    assert_eq!(nodes.len(), 1);
    assert_eq!(nodes[0].id, "topic_5");
}

#[test]
fn document_url_produces_file_node() {
    let nodes = parse_topic_body("Nice Comic\nhttps://vk.com/doc-5_77", None);
    assert_eq!(nodes.len(), 1);
    assert_eq!(nodes[0].id, "doc_-5_77");
    assert!(matches!(nodes[0].node_type, NodeKind::File));
    assert_eq!(nodes[0].url.as_deref(), Some("https://vk.com/doc-5_77"));
    assert_eq!(nodes[0].title, "Nice Comic");
    assert_eq!(nodes[0].extension.as_deref(), Some("FILE"));
    assert_eq!(nodes[0].is_loaded, Some(true));
    assert!(nodes[0].children.is_none());
}

#[test]
fn document_prefers_previous_line_for_download_labels() {
    let text = "Real Title\ntelecharger ici https://vk.com/doc1_2";
    let nodes = parse_topic_body(text, None);
    assert_eq!(nodes.len(), 1);
    assert_eq!(nodes[0].title, "Real Title");
}

#[test]
fn overlong_titles_reject_the_node() {
    let long_label = "x".repeat(250);
    let text = format!("[topic-1_2|{}]", long_label);
    let nodes = parse_topic_body(&text, None);
    assert_eq!(nodes.len(), 0);
}

#[test]
fn short_label_falls_back_to_topic_number() {
    let nodes = parse_topic_body("[topic-1_2|-]", None);
    assert_eq!(nodes.len(), 1);
    assert_eq!(nodes[0].title, "Topic 2");
}

#[test]
fn titles_are_clean_and_bounded() {
    let text = "  My Series -\nhttps://vk.com/topic-9_10\n[topic-9_11|  Other --> junk ]";
    let nodes = parse_topic_body(text, None);
    for n in &nodes {
        let len = n.title.chars().count();
        assert!(1 <= len && len < 200);
        let first = n.title.chars().next().unwrap();
        let last = n.title.chars().last().unwrap();
        assert!(!first.is_whitespace());
        assert!(!last.is_whitespace());
    }
}

#[test]
fn clean_title_extracts_embedded_label() {
    assert_eq!(clean_title("[topic-1_2|Great]"), "Great");
}

#[test]
fn clean_title_cuts_arrow_and_url() {
    assert_eq!(clean_title("Title -> something else"), "Title");
    assert_eq!(clean_title("Title https://example.org/x"), "Title");
}

#[test]
fn clean_title_strips_decorations() {
    assert_eq!(clean_title(" - Title - "), "Title");
    assert_eq!(clean_title("Title:"), "Title");
    assert_eq!(clean_title("Title (LIEN)"), "Title");
}

#[test]
fn cleaning_strips_each_edge_once() {
    // Each edge-stripping stage runs a single pass, so decoration that
    // stands before the stripped suffix survives.
    assert_eq!(clean_title("x* *"), "x*");
    assert_eq!(clean_title("* * x"), "* x");
    assert_eq!(clean_title("x: -"), "x:");
}

#[test]
fn parse_render_parse_preserves_identities() {
    let text = "[topic-1_11|Alpha]\n[topic-2_22|Beta]\n[topic-3_33|Gamma]";
    let first = parse_topic_body(text, None);
    assert_eq!(first.len(), 3);
    let rendered = render_links(&first);
    let second = parse_topic_body(&rendered, None);
    assert_eq!(first.len(), second.len());
    for (a, b) in first.iter().zip(second.iter()) {
        assert_eq!(a.id, b.id);
    }
}

#[test]
fn all_ids_pairwise_distinct() {
    let text = "[topic-1_2|A]\n@topic-1_2\n@topic-1_2?post=9\nhttps://vk.com/topic-1_2\nhttps://vk.com/doc1_2";
    let nodes = parse_topic_body(text, None);
    for i in 0..nodes.len() {
        for j in (i + 1)..nodes.len() {
            assert_ne!(nodes[i].id, nodes[j].id);
        }
    }
}
