use tessera::display::{truncate_text, DisplayCommand};
use tessera::dom::{Node, NodeKind, Token};
use tessera::engine::render_document;
use tessera::tokenizer::tokenize;
use tessera::tree::parse_document;

#[test]
fn tokenizes_html() {
    let input = "<html><body><h1>Hello</h1><p>world</p></body></html>";
    let tokens = tokenize(input);

    assert!(tokens.contains(&Token::StartTag {
        name: "html".to_string()
    }));
    assert!(tokens.contains(&Token::StartTag {
        name: "h1".to_string()
    }));
    assert!(tokens.contains(&Token::Text("Hello".to_string())));
    assert!(tokens.contains(&Token::Text("world".to_string())));
}

#[test]
fn tokenizes_exact_sequence() {
    let input = "<html><body><h1>Hello</h1><p>world</p></body></html>";
    let tokens = tokenize(input);

    let expected = vec![
        Token::StartTag {
            name: "html".to_string(),
        },
        Token::StartTag {
            name: "body".to_string(),
        },
        Token::StartTag {
            name: "h1".to_string(),
        },
        Token::Text("Hello".to_string()),
        Token::EndTag {
            name: "h1".to_string(),
        },
        Token::StartTag {
            name: "p".to_string(),
        },
        Token::Text("world".to_string()),
        Token::EndTag {
            name: "p".to_string(),
        },
        Token::EndTag {
            name: "body".to_string(),
        },
        Token::EndTag {
            name: "html".to_string(),
        },
    ];
    assert_eq!(tokens, expected);
}

#[test]
fn builds_dom_shape() {
    let input = "<html><body><h1>Hello</h1><p>Body</p></body></html>";
    let doc = parse_document(&tokenize(input));

    let root_children = &doc.nodes[doc.root].children;
    assert_eq!(root_children.len(), 1);
    let html = root_children[0];

    let NodeKind::Element(el) = &doc.nodes[html].kind else {
        panic!("expected html element");
    };
    assert_eq!(el.tag_name, "html");

    let body = doc.nodes[html].children[0];
    let NodeKind::Element(body_el) = &doc.nodes[body].kind else {
        panic!("expected body element");
    };
    assert_eq!(body_el.tag_name, "body");
}

#[test]
fn tree_shape_reaches_text() {
    let input = "<html><body><h1>Hello</h1><p>world</p></body></html>";
    let doc = parse_document(&tokenize(input));

    let html = doc.nodes[doc.root].children[0];
    let body = doc.nodes[html].children[0];
    let h1 = doc.nodes[body].children[0];
    let NodeKind::Element(el) = &doc.nodes[h1].kind else {
        panic!("expected h1 element");
    };
    assert_eq!(el.tag_name, "h1");

    let text = doc.nodes[h1].children[0];
    let NodeKind::Text(content) = &doc.nodes[text].kind else {
        panic!("expected text node");
    };
    assert_eq!(content, "Hello");
}

#[test]
fn every_non_root_node_has_one_parent() {
    let input = "<div><p>one</p><br><p>two</p></div>";
    let doc = parse_document(&tokenize(input));

    for (id, node) in doc.nodes.iter().enumerate() {
        if id == doc.root {
            assert!(node.parent.is_none());
            continue;
        }
        let parent = node.parent.expect("non-root node must have a parent");
        let listed = doc.nodes[parent]
            .children
            .iter()
            .filter(|&&c| c == id)
            .count();
        assert_eq!(listed, 1);
        for (other_id, other) in doc.nodes.iter().enumerate() {
            if other_id != parent {
                assert!(!other.children.contains(&id));
            }
        }
    }
}

#[test]
fn void_elements_never_have_children() {
    let input = "<div><br>text after break<img><hr></div>";
    let doc = parse_document(&tokenize(input));

    let mut saw_void = false;
    for node in &doc.nodes {
        if let NodeKind::Element(el) = &node.kind {
            if ["br", "img", "meta", "link", "hr", "input"].contains(&el.tag_name.as_str()) {
                saw_void = true;
                assert!(node.children.is_empty());
            }
        }
    }
    assert!(saw_void);
}

#[test]
fn end_tag_recovery_force_closes_open_elements() {
    let input = "<div><p>text</div>after";
    let doc = parse_document(&tokenize(input));

    // The stray </div> closes <p> as well, so "after" lands under the root.
    let div = doc.nodes[doc.root].children[0];
    let NodeKind::Element(el) = &doc.nodes[div].kind else {
        panic!("expected div element");
    };
    assert_eq!(el.tag_name, "div");
    let after = doc.nodes[doc.root].children[1];
    let NodeKind::Text(content) = &doc.nodes[after].kind else {
        panic!("expected trailing text node");
    };
    assert_eq!(content, "after");
}

#[test]
fn comments_and_doctypes_produce_no_tokens() {
    let tokens = tokenize("<!-- a comment --><!DOCTYPE html><p>x</p>");
    let expected = vec![
        Token::StartTag {
            name: "p".to_string(),
        },
        Token::Text("x".to_string()),
        Token::EndTag {
            name: "p".to_string(),
        },
    ];
    assert_eq!(tokens, expected);
}

#[test]
fn unterminated_comment_stops_the_scan() {
    let tokens = tokenize("<p>kept</p><!-- never closed <p>lost</p>");
    assert_eq!(
        tokens,
        vec![
            Token::StartTag {
                name: "p".to_string()
            },
            Token::Text("kept".to_string()),
            Token::EndTag {
                name: "p".to_string()
            },
        ]
    );
}

#[test]
fn unterminated_tag_stops_the_scan() {
    let tokens = tokenize("text<div attr");
    assert_eq!(tokens, vec![Token::Text("text".to_string())]);
}

#[test]
fn self_closing_and_void_tags_emit_synthetic_end_tags() {
    let tokens = tokenize("<br><custom/>");
    assert_eq!(
        tokens,
        vec![
            Token::StartTag {
                name: "br".to_string()
            },
            Token::EndTag {
                name: "br".to_string()
            },
            Token::StartTag {
                name: "custom".to_string()
            },
            Token::EndTag {
                name: "custom".to_string()
            },
        ]
    );
}

#[test]
fn tag_names_are_lowercased_and_attributes_dropped() {
    let tokens = tokenize("<DIV class=\"x\">y</ DIV >");
    assert_eq!(
        tokens,
        vec![
            Token::StartTag {
                name: "div".to_string()
            },
            Token::Text("y".to_string()),
            Token::EndTag {
                name: "div".to_string()
            },
        ]
    );
}

#[test]
fn script_content_is_raw_text_with_case_insensitive_close() {
    let tokens = tokenize("<script>if (a < b) { go(); }</SCRIPT><p>x</p>");
    assert_eq!(
        tokens,
        vec![
            Token::StartTag {
                name: "script".to_string()
            },
            Token::Text("if (a < b) { go(); }".to_string()),
            Token::EndTag {
                name: "script".to_string()
            },
            Token::StartTag {
                name: "p".to_string()
            },
            Token::Text("x".to_string()),
            Token::EndTag {
                name: "p".to_string()
            },
        ]
    );
}

#[test]
fn unclosed_script_loses_its_content() {
    let tokens = tokenize("<script>lost forever");
    assert_eq!(
        tokens,
        vec![Token::StartTag {
            name: "script".to_string()
        }]
    );
}

#[test]
fn layout_and_display_list_are_stable() {
    let input = "<html><body><h1>Title</h1><p>Copy</p></body></html>";
    let output = render_document(input, 640, 360);

    assert!(output.layout.boxes.len() >= 4);
    assert!(matches!(
        output.display_list.commands.first(),
        Some(DisplayCommand::FillRect { x: 0, y: 0, .. })
    ));

    let mut ys: Vec<u32> = output.layout.boxes.iter().map(|b| b.y).collect();
    ys.sort_unstable();
    assert_eq!(
        ys,
        output.layout.boxes.iter().map(|b| b.y).collect::<Vec<_>>()
    );
}

#[test]
fn display_list_includes_text_commands() {
    let input = "<html><body><h1>Hello</h1><p>Visible text</p></body></html>";
    let output = render_document(input, 640, 360);

    assert!(output
        .display_list
        .commands
        .iter()
        .any(|cmd| matches!(cmd, DisplayCommand::DrawText { .. })));
}

#[test]
fn script_extraction_is_deterministic() {
    let input = "<html><body><script>window.answer = 42;</script></body></html>";
    let output = render_document(input, 800, 600);

    assert_eq!(output.scripts.len(), 1);
    assert_eq!(output.scripts[0].code, "window.answer = 42;");
}

#[test]
fn pipeline_is_deterministic_across_invocations() {
    let input = "<html><body><h1>Once</h1><p>twice</p><script>s()</script></body></html>";
    let a = render_document(input, 800, 600);
    let b = render_document(input, 800, 600);

    assert_eq!(a.tokens, b.tokens);
    assert_eq!(a.document, b.document);
    assert_eq!(a.layout, b.layout);
    assert_eq!(a.display_list, b.display_list);
    assert_eq!(a.scripts, b.scripts);
}

#[test]
fn background_fill_covers_the_viewport() {
    let output = render_document("<p>x</p>", 321, 123);
    match &output.display_list.commands[0] {
        DisplayCommand::FillRect {
            x,
            y,
            width,
            height,
            color,
        } => {
            assert_eq!((*x, *y, *width, *height), (0, 0, 321, 123));
            assert_eq!(*color, [245, 245, 248, 255]);
        }
        other => panic!("expected a background fill, got {other:?}"),
    }
}

#[test]
fn overflow_truncates_layout_at_viewport_height() {
    let input = "<div><p>a</p><p>b</p><p>c</p><p>d</p><p>e</p><p>f</p></div>";
    let short = render_document(input, 400, 60);
    let tall = render_document(input, 400, 6000);

    assert!(short.layout.boxes.len() < tall.layout.boxes.len());
    for b in &short.layout.boxes {
        assert!(b.y < 60);
    }
}

#[test]
fn first_element_box_uses_tag_height_and_indent() {
    let output = render_document("<h1>t</h1>", 640, 480);
    let b = output.layout.boxes[0];
    assert_eq!(b.x, 8);
    assert_eq!(b.y, 8);
    assert_eq!(b.height, 44);
    assert_eq!(b.width, 640 - (8 + 8));
}

#[test]
fn narrow_viewport_keeps_minimum_box_width() {
    let output = render_document("<p>x</p>", 10, 480);
    for b in &output.layout.boxes {
        assert!(b.width >= 8);
    }
}

#[test]
fn element_labels_wrap_the_tag_name() {
    let output = render_document("<section></section>", 640, 480);
    let label = output
        .display_list
        .commands
        .iter()
        .find_map(|c| match c {
            DisplayCommand::DrawText { text, .. } => Some(text.clone()),
            _ => None,
        })
        .expect("expected a label");
    assert_eq!(label, "<section>");
}

#[test]
fn long_text_labels_are_condensed_and_truncated() {
    let word = "abcdefghij";
    let text = format!("  {word}   {word}\t{word}\n{word} {word} {word} {word}  ");
    let input = format!("<p>{text}</p>");
    let output = render_document(&input, 2000, 2000);

    let label = output
        .display_list
        .commands
        .iter()
        .find_map(|c| match c {
            DisplayCommand::DrawText { text, .. } => {
                if text.starts_with('<') {
                    None
                } else {
                    Some(text.clone())
                }
            }
            _ => None,
        })
        .expect("expected a text label");

    // Seven ten-character words joined by single spaces: 76 characters,
    // truncated to 61 plus the three-dot suffix.
    assert_eq!(label.chars().count(), 64);
    assert!(label.ends_with("..."));
    assert!(label.starts_with("abcdefghij abcdefghij"));
}

#[test]
fn truncate_text_keeps_short_text_verbatim() {
    assert_eq!(truncate_text("short", 64), "short");
    assert_eq!(truncate_text("exactly4", 8), "exactly4");
}

#[test]
fn truncate_text_truncates_long_text() {
    assert_eq!(truncate_text("abcdefghijkl", 10), "abcdefg...");
}

#[test]
fn blank_text_nodes_produce_no_boxes() {
    let with_blank = render_document("<div>   </div>", 640, 480);
    assert_eq!(with_blank.layout.boxes.len(), 1);
}

#[test]
fn script_subtrees_are_skipped_in_layout() {
    let output = render_document("<script>var x = 1;</script><p>shown</p>", 640, 480);
    for b in &output.layout.boxes {
        let node = &output.document.nodes[b.node_id];
        if let NodeKind::Element(el) = &node.kind {
            assert_ne!(el.tag_name, "script");
        }
    }
}

#[test]
fn per_tag_colors_are_applied() {
    let output = render_document("<h1>t</h1>", 640, 480);
    let h1_box = output.layout.boxes[0];
    let fill = output
        .display_list
        .commands
        .iter()
        .find_map(|c| match c {
            DisplayCommand::FillRect { x, y, color, .. }
                if *x == h1_box.x && *y == h1_box.y =>
            {
                Some(*color)
            }
            _ => None,
        })
        .expect("expected the h1 fill");
    assert_eq!(fill, [169, 192, 248, 255]);
}

#[test]
fn empty_input_renders_only_the_background() {
    let output = render_document("", 100, 100);
    assert!(output.tokens.is_empty());
    assert_eq!(output.document.nodes.len(), 1);
    assert!(output.layout.boxes.is_empty());
    assert_eq!(output.display_list.commands.len(), 1);
    assert!(output.scripts.is_empty());
}

#[test]
fn document_root_is_a_synthetic_element() {
    let doc = parse_document(&[]);
    assert_eq!(doc.root, 0);
    assert_eq!(doc.nodes.len(), 1);
    let Node { parent, kind, .. } = &doc.nodes[0];
    assert!(parent.is_none());
    let NodeKind::Element(el) = kind else {
        panic!("expected the synthetic root element");
    };
    assert_eq!(el.tag_name, "document");
}
