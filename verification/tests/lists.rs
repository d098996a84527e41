use getcat::body::text::{TextDoc, MAX_LINE_CHARS};
use getcat::lists::{
    event_row, longest_event, move_menu, saved_rows, tab_labels, template_items, text_row,
    TemplateItem,
};
use getcat::model::{Method, RequestDraft, SavedRequest, Ulid};
use getcat::templates::TemplateGroup;
use getcat::workspace::Workspace;

#[test]
fn the_tab_bar_shows_method_title_and_changes() {
    let mut ws = Workspace::new(Ulid(1));
    ws.open_template("openai-chat-text", Ulid(2));
    let labels = tab_labels(&ws);
    assert_eq!(labels.len(), 2);
    assert_eq!(
        (labels[0].method, labels[0].title.as_str(), labels[0].dirty),
        (Method::Get, "新请求", false)
    );
    assert_eq!(
        (labels[1].method, labels[1].title.as_str(), labels[1].dirty),
        (Method::Post, "/v1/chat/completions", true)
    );
}

#[test]
fn the_row_of_the_shown_request_is_selected() {
    let mut ws = Workspace::new(Ulid(1));
    ws.tab_mut(0).set_url("https://api.test/users?x=1");
    ws.finish_save(Ulid(1), "用户", Ulid(10), 5).unwrap();
    ws.new_tab(Ulid(2));
    ws.finish_save(Ulid(2), "空", Ulid(11), 6).unwrap();
    let rows = saved_rows(&ws);
    let seen: Vec<(Ulid, &str, &str, bool)> = rows
        .iter()
        .map(|r| (r.id, r.name.as_str(), r.tail.as_str(), r.selected))
        .collect();
    assert_eq!(
        seen,
        [
            (Ulid(11), "空", "新请求", true),
            (Ulid(10), "用户", "/users", false)
        ]
    );
    assert_eq!(rows[1].method, Method::Get);
}

#[test]
fn a_request_can_be_moved_to_the_other_groups() {
    let saved = |group: Option<&str>| {
        let mut r = SavedRequest::new("r", RequestDraft::default());
        r.group = group.map(str::to_string);
        r
    };
    let list = vec![saved(Some("b")), saved(Some("A")), saved(None)];
    let menu = move_menu(&list, 0);
    assert_eq!(
        menu.groups,
        vec![("A".to_string(), true), ("b".to_string(), false)]
    );
    assert!(menu.clear);
    let menu = move_menu(&list, 2);
    assert_eq!(
        menu.groups,
        vec![("A".to_string(), true), ("b".to_string(), true)]
    );
    assert!(!menu.clear);
}

#[test]
fn templates_are_listed_group_by_group() {
    let items = template_items();
    assert_eq!(items.len(), 8);
    assert_eq!(items[0], TemplateItem::Group("OpenAI"));
    assert_eq!(items[5], TemplateItem::Group("Anthropic"));
    let mut current = "";
    for item in &items {
        match item {
            TemplateItem::Group(name) => current = name,
            TemplateItem::Row(t) => assert_eq!(t.group.label(), current),
        }
    }
    assert_eq!(current, TemplateGroup::Anthropic.label());
}

#[test]
fn lines_are_numbered_and_cut() {
    let long = "名".repeat(MAX_LINE_CHARS + 400);
    let doc = TextDoc::new(format!("first\r\n{long}\nlast"));
    let row = text_row(&doc, 0);
    assert_eq!((row.number.as_str(), row.text.as_str()), ("1", "first"));
    assert_eq!(row.hidden, None);
    let row = text_row(&doc, 1);
    assert_eq!(row.number, "2");
    assert_eq!(row.text.chars().count(), MAX_LINE_CHARS);
    assert_eq!(row.hidden.as_deref(), Some("1.2 KB"));
    assert_eq!(text_row(&doc, 2).text, "last");
}

#[test]
fn events_are_listed_on_one_line_each() {
    let events = vec![
        ("".to_string(), "a\nb".to_string()),
        ("ping".to_string(), "x".repeat(MAX_LINE_CHARS + 24)),
        ("end".to_string(), "abc".to_string()),
    ];
    let row = event_row(&events, 0);
    assert_eq!(
        (row.number.as_str(), row.event.as_str(), row.data.as_str()),
        ("1", "message", "a⏎b")
    );
    let row = event_row(&events, 1);
    assert_eq!(row.event, "ping");
    assert_eq!(row.data.len(), MAX_LINE_CHARS);
    assert_eq!(row.hidden.as_deref(), Some("24 B"));
    assert_eq!(longest_event(&events), Some(1));
    assert_eq!(longest_event(&[]), None);
    let same = vec![events[2].clone(), events[0].clone(), events[2].clone()];
    assert_eq!(longest_event(&same), Some(2));
}
