use obsidian_zola::{
    create_zola_link_postprocessor, Context, LinkType, MarkdownEvent, PostprocessorResult,
};

fn link(link_type: LinkType, dest: &str, title: &str, id: &str) -> MarkdownEvent<&'static str> {
    MarkdownEvent::LinkStart {
        link_type,
        dest_url: dest.to_string(),
        title: title.to_string(),
        id: id.to_string(),
    }
}

fn image(link_type: LinkType, dest: &str, title: &str, id: &str) -> MarkdownEvent<&'static str> {
    MarkdownEvent::ImageStart {
        link_type,
        dest_url: dest.to_string(),
        title: title.to_string(),
        id: id.to_string(),
    }
}

#[test]
fn postprocessor_keeps_its_content_root() {
    let postprocessor = create_zola_link_postprocessor("/vault".to_string());
    assert_eq!(postprocessor.source_dir, "/vault");
}

#[test]
fn process_rewrites_links_and_images_in_place() {
    let postprocessor = create_zola_link_postprocessor("/vault".to_string());
    let context = Context::new("/vault/folder/page.md".to_string());
    let mut events = vec![
        MarkdownEvent::Other("paragraph"),
        link(LinkType::Inline, "note.md#Intro", "A title", "an-id"),
        MarkdownEvent::Other("text"),
        MarkdownEvent::Other("link end"),
        image(LinkType::Reference, "../static/logo.png", "Logo", "logo"),
        link(LinkType::Autolink, "https://example.com", "", ""),
        image(LinkType::Shortcut, "pic.png", "", "p"),
        MarkdownEvent::Other("paragraph end"),
    ];
    let result = postprocessor.process(&context, &mut events);
    assert_eq!(result, PostprocessorResult::Continue);
    assert_eq!(
        events,
        vec![
            MarkdownEvent::Other("paragraph"),
            link(LinkType::Inline, "@/folder/note.md#Intro", "A title", "an-id"),
            MarkdownEvent::Other("text"),
            MarkdownEvent::Other("link end"),
            image(LinkType::Reference, "/logo.png", "Logo", "logo"),
            link(LinkType::Autolink, "https://example.com", "", ""),
            image(LinkType::Shortcut, "folder/pic.png", "", "p"),
            MarkdownEvent::Other("paragraph end"),
        ]
    );
}

#[test]
fn process_tells_links_from_images() {
    let postprocessor = create_zola_link_postprocessor("/vault".to_string());
    let context = Context::new("/vault/folder/page.md".to_string());
    let mut events = vec![
        link(LinkType::Inline, "static/a.md", "", ""),
        image(LinkType::Inline, "../static/a.md", "", ""),
        link(LinkType::Inline, "data:a.png", "", ""),
        image(LinkType::Inline, "data:a.png", "", ""),
    ];
    postprocessor.process(&context, &mut events);
    assert_eq!(
        events,
        vec![
            link(LinkType::Inline, "@/folder/static/a.md", "", ""),
            image(LinkType::Inline, "/a.md", "", ""),
            link(LinkType::Inline, "data:a.png", "", ""),
            image(LinkType::Inline, "data:a.png", "", ""),
        ]
    );
}

#[test]
fn process_of_no_events_continues() {
    let postprocessor = create_zola_link_postprocessor("/vault".to_string());
    let context = Context::new("/vault/page.md".to_string());
    let mut events: Vec<MarkdownEvent<u8>> = Vec::new();
    assert_eq!(postprocessor.process(&context, &mut events), PostprocessorResult::Continue);
    assert!(events.is_empty());
}

#[test]
fn process_leaves_other_events_alone() {
    let postprocessor = create_zola_link_postprocessor("/vault".to_string());
    let context = Context::new("/vault/page.md".to_string());
    let mut events = vec![
        MarkdownEvent::Other(vec![1, 2, 3]),
        MarkdownEvent::Other(vec![]),
        MarkdownEvent::Other(vec![4]),
    ];
    postprocessor.process(&context, &mut events);
    assert_eq!(
        events,
        vec![
            MarkdownEvent::Other(vec![1, 2, 3]),
            MarkdownEvent::Other(vec![]),
            MarkdownEvent::Other(vec![4]),
        ]
    );
}

#[test]
fn process_keeps_every_link_type() {
    let postprocessor = create_zola_link_postprocessor("/vault".to_string());
    let context = Context::new("/vault/page.md".to_string());
    let types = [
        LinkType::Inline,
        LinkType::Reference,
        LinkType::ReferenceUnknown,
        LinkType::Collapsed,
        LinkType::CollapsedUnknown,
        LinkType::Shortcut,
        LinkType::ShortcutUnknown,
        LinkType::Autolink,
        LinkType::Email,
    ];
    let mut events: Vec<_> = types.iter().map(|t| link(*t, "a.md", "t", "i")).collect();
    postprocessor.process(&context, &mut events);
    let expected: Vec<_> = types.iter().map(|t| link(*t, "@/a.md", "t", "i")).collect();
    assert_eq!(events, expected);
}
