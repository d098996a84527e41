use getcat::model::{
    BodyKind, Method, RawFormat, RequestDraft, SavedRequest, SplitDirection, TabDraft, ThemePref,
    Ulid, WorkspaceState,
};
use getcat::saved_filter::SavedFilter;
use getcat::templates::find;
use getcat::workspace::order::{active_after_close, order_drafts, sort_saved};
use getcat::workspace::{SaveOutcome, SidebarSection, ToolSection, Workspace};

fn at(ms: u128) -> Ulid {
    Ulid(ms << 80)
}

fn draft(id: Ulid) -> TabDraft {
    TabDraft {
        id,
        draft: RequestDraft::default(),
        saved_id: None,
        dirty: false,
    }
}

fn new_workspace() -> Workspace {
    Workspace::new(Ulid(100))
}

fn change_url(ws: &mut Workspace, ix: usize, url: &str) {
    ws.tab_mut(ix).set_url(url);
}

#[test]
fn order_follows_tab_order_and_appends_unlisted_by_id() {
    let a = at(1);
    let b = at(2);
    let c = at(3);
    let missing = at(9);
    let state = WorkspaceState {
        tab_order: vec![c, missing, a],
        active: Some(a),
        ..Default::default()
    };
    let (ordered, active) = order_drafts(&state, vec![draft(b), draft(a), draft(c)]);
    let ids: Vec<Ulid> = ordered.iter().map(|d| d.id).collect();
    assert_eq!(ids, vec![c, a, b]);
    assert_eq!(active, Some(a));
}

#[test]
fn missing_active_falls_back_to_none() {
    let a = at(1);
    let state = WorkspaceState {
        tab_order: vec![a],
        active: Some(at(5)),
        ..Default::default()
    };
    let (ordered, active) = order_drafts(&state, vec![draft(a)]);
    assert_eq!(ordered.len(), 1);
    assert_eq!(active, None);
}

#[test]
fn empty_state_keeps_drafts_sorted_by_id() {
    let a = at(1);
    let b = at(2);
    let (ordered, active) = order_drafts(&WorkspaceState::default(), vec![draft(b), draft(a)]);
    let ids: Vec<Ulid> = ordered.iter().map(|d| d.id).collect();
    assert_eq!(ids, vec![a, b]);
    assert_eq!(active, None);
}

#[test]
fn closing_left_of_active_shifts_active_left() {
    assert_eq!(active_after_close(2, 0, 4), 1);
    assert_eq!(active_after_close(1, 0, 3), 0);
}

#[test]
fn closing_active_keeps_index_pointing_at_right_neighbour() {
    assert_eq!(active_after_close(1, 1, 3), 1);
    assert_eq!(active_after_close(0, 0, 2), 0);
}

#[test]
fn closing_last_active_clamps_to_new_last() {
    assert_eq!(active_after_close(2, 2, 3), 1);
    assert_eq!(active_after_close(1, 1, 2), 0);
}

#[test]
fn closing_right_of_active_leaves_active_alone() {
    assert_eq!(active_after_close(0, 1, 3), 0);
    assert_eq!(active_after_close(1, 2, 4), 1);
}

#[test]
fn closing_the_only_tab_is_total() {
    assert_eq!(active_after_close(0, 0, 1), 0);
}

#[test]
fn sidebar_sections_are_indexed_by_discriminant() {
    for (ix, section) in SidebarSection::ALL.iter().enumerate() {
        assert_eq!(*section as usize, ix, "ALL[{ix}]");
    }
}

#[test]
fn tool_sections_are_indexed_by_discriminant() {
    for (ix, section) in ToolSection::ALL.iter().enumerate() {
        assert_eq!(*section as usize, ix, "ALL[{ix}]");
    }
}

#[test]
fn workspace_tabs_add_close_activate() {
    let mut ws = new_workspace();
    assert_eq!(ws.tab_count(), 1);
    let first = ws.active_tab().id;
    ws.new_tab(Ulid(2));
    let second = ws.active_tab().id;
    ws.new_tab(Ulid(3));
    assert_eq!((ws.tab_count(), ws.active_index()), (3, 2));
    assert!(ws.activate(0));
    assert!(!ws.activate(0) && !ws.activate(9));
    assert_eq!(ws.active_index(), 0);
    assert_eq!(ws.active_tab().id, first);
    assert_eq!(ws.close_tab(0, Ulid(4)), Some(first));
    assert_eq!((ws.tab_count(), ws.active_index()), (2, 0));
    assert_eq!(ws.active_tab().id, second);
    ws.close_tab(1, Ulid(5));
    ws.close_tab(0, Ulid(6));
    assert_eq!((ws.tab_count(), ws.active_index()), (1, 0));
    assert_ne!(ws.active_tab().id, second);
    assert_eq!(ws.active_tab().id, Ulid(6));
    assert_eq!(ws.close_tab(9, Ulid(7)), None);
}

#[test]
fn restore_rebuilds_tabs_from_prepared_root() {
    let ids: Vec<Ulid> = (1..4).map(at).collect();
    let drafts: Vec<TabDraft> = ids
        .iter()
        .enumerate()
        .map(|(i, id)| TabDraft {
            id: *id,
            draft: RequestDraft {
                url: format!("https://api.test/{i}"),
                ..Default::default()
            },
            saved_id: None,
            dirty: i == 1,
        })
        .collect();
    let width = 300f32.to_bits();
    let ws = Workspace::restore(
        Some(WorkspaceState {
            tab_order: vec![ids[2], ids[0], ids[1]],
            active: Some(ids[0]),
            sidebar_width: Some(width),
            sidebar_collapsed: false,
            theme: ThemePref::Dark,
            split: SplitDirection::Horizontal,
        }),
        drafts,
        vec![],
        Ulid(99),
    );
    let urls: Vec<&str> = (0..ws.tab_count())
        .map(|i| ws.tab_at(i).url.as_str())
        .collect();
    assert_eq!(
        urls,
        [
            "https://api.test/2",
            "https://api.test/0",
            "https://api.test/1"
        ]
    );
    assert_eq!(ws.active_index(), 1);
    assert_eq!(ws.tab_at(1).id, ids[0]);
    assert!(ws.tab_at(2).dirty);
    assert!(!ws.tab_at(1).dirty);
    assert!(!ws.sidebar_collapsed());
    assert_eq!(ws.sidebar_width(), Some(width));
    assert_eq!(ws.theme(), ThemePref::Dark);
    assert_eq!(ws.split(), SplitDirection::Horizontal);
    assert_eq!(ws.tab_at(0).split, SplitDirection::Horizontal);
}

#[test]
fn restore_without_files_creates_one_tab() {
    let ws = Workspace::restore(None, vec![], vec![], Ulid(7));
    assert_eq!(ws.tab_count(), 1);
    assert_eq!(ws.theme(), ThemePref::System);
    assert!(ws.sidebar_collapsed());
    assert_eq!(ws.active_tab().id, Ulid(7));
}

#[test]
fn restore_clears_orphan_saved_id() {
    let ws = Workspace::restore(
        None,
        vec![TabDraft {
            id: at(1),
            draft: RequestDraft {
                url: "https://api.test/x".into(),
                ..Default::default()
            },
            saved_id: Some(at(2)),
            dirty: false,
        }],
        vec![],
        Ulid(7),
    );
    let tab = ws.active_tab();
    assert_eq!(tab.id, at(1));
    assert_eq!(tab.saved_id, None);
    assert!(tab.saved_name.is_none());
    assert!(tab.dirty);
}

#[test]
fn workspace_changes_are_persisted() {
    let mut ws = new_workspace();
    ws.new_tab(Ulid(2));
    ws.activate(0);
    ws.toggle_sidebar();
    assert!(ws.set_theme(ThemePref::Dark));
    assert!(!ws.set_theme(ThemePref::Dark));
    let state = ws.workspace_state();
    assert_eq!(state.tab_order, vec![ws.tab_at(0).id, ws.tab_at(1).id]);
    assert_eq!(state.active, Some(ws.tab_at(0).id));
    assert!(!state.sidebar_collapsed);
    assert_eq!(state.theme, ThemePref::Dark);
    assert_eq!(state.sidebar_width, None);
    ws.close_tab(0, Ulid(3));
    let state = ws.workspace_state();
    let remaining = ws.tab_at(0).id;
    assert_eq!(state.tab_order, vec![remaining]);
    assert_eq!(state.active, Some(remaining));
}

#[test]
fn a_restart_brings_back_what_was_open() {
    let mut ws = new_workspace();
    change_url(&mut ws, 0, "https://api.test/a");
    ws.new_tab(Ulid(2));
    change_url(&mut ws, 1, "https://api.test/b");
    ws.activate(0);
    ws.resize_sidebar(240f32.to_bits());
    ws.set_split(SplitDirection::Vertical);
    let again = Workspace::restore(
        Some(ws.workspace_state()),
        ws.tab_drafts(),
        vec![],
        Ulid(9),
    );
    assert_eq!(again.workspace_state(), ws.workspace_state());
    assert_eq!(again.tab_drafts(), ws.tab_drafts());
}

#[test]
fn cycle_theme_walks_system_light_dark() {
    let mut ws = new_workspace();
    assert_eq!(ws.theme(), ThemePref::System);
    ws.cycle_theme();
    assert_eq!(ws.theme(), ThemePref::Light);
    ws.cycle_theme();
    assert_eq!(ws.theme(), ThemePref::Dark);
    ws.cycle_theme();
    assert_eq!(ws.theme(), ThemePref::System);
}

#[test]
fn finish_save_writes_request_file_and_marks_tab_clean() {
    let mut ws = new_workspace();
    change_url(&mut ws, 0, "https://api.test/users");
    assert!(ws.active_tab().dirty);
    let tab = ws.active_tab().id;
    let id = ws
        .finish_save(tab, "  用户列表 ", at(1), 5)
        .expect("tab still open");
    assert_eq!(ws.saved().len(), 1);
    let req = &ws.saved()[0];
    assert_eq!(req.name, "用户列表");
    assert_eq!(req.draft.url, "https://api.test/users");
    assert_eq!(req.draft.method, Method::Get);
    assert_eq!(req.created_at, req.updated_at);
    let t = ws.active_tab();
    assert_eq!(t.saved_id, Some(id));
    assert!(!t.dirty);
    assert_eq!(t.title(), "用户列表");
    let kept = t.tab_draft();
    assert_eq!((kept.saved_id, kept.dirty), (Some(id), false));
}

#[test]
fn finish_save_on_closed_tab_is_noop() {
    let mut ws = new_workspace();
    ws.new_tab(Ulid(2));
    let tab = ws.tab_at(1).id;
    ws.close_tab(1, Ulid(3));
    assert!(ws.finish_save(tab, "x", at(1), 5).is_none());
    assert!(ws.saved().is_empty());
}

#[test]
fn save_active_overwrites_existing_without_prompt() {
    let mut ws = new_workspace();
    assert_eq!(ws.save_active(at(8), 1), SaveOutcome::NeedsName);
    change_url(&mut ws, 0, "https://api.test/v1");
    let tab = ws.active_tab().id;
    let id = ws.finish_save(tab, "接口", at(1), 5).unwrap();
    change_url(&mut ws, 0, "https://api.test/v2");
    assert!(ws.active_tab().dirty);
    assert_eq!(ws.save_active(at(9), 6), SaveOutcome::Saved(id));
    assert_eq!(ws.saved().len(), 1);
    let req = &ws.saved()[0];
    assert_eq!(req.name, "接口");
    assert_eq!(req.draft.url, "https://api.test/v2");
    assert!(req.updated_at > req.created_at);
    assert!(!ws.active_tab().dirty);
    assert_eq!(ws.saved()[0].id, id);
}

#[test]
fn empty_name_falls_back_to_tab_title() {
    let mut ws = new_workspace();
    change_url(&mut ws, 0, "https://api.test/users/42");
    let tab = ws.active_tab().id;
    ws.finish_save(tab, "   ", at(1), 5).unwrap();
    assert_eq!(ws.saved()[0].name, "/users/42");
}

#[test]
fn open_saved_opens_tab_then_focuses_existing() {
    let mut ws = new_workspace();
    change_url(&mut ws, 0, "https://api.test/items/7");
    let tab = ws.active_tab().id;
    let id = ws.finish_save(tab, "条目", at(1), 5).unwrap();
    ws.close_tab(0, Ulid(2));
    ws.open_saved(id, Ulid(3));
    assert_eq!(ws.tab_count(), 2);
    assert_eq!(ws.active_index(), 1);
    let t = ws.active_tab();
    assert_eq!(t.saved_id, Some(id));
    assert_eq!(t.title(), "条目");
    assert_eq!(t.url, "https://api.test/items/7");
    assert!(!t.dirty);
    ws.activate(0);
    ws.open_saved(id, Ulid(4));
    assert_eq!(ws.tab_count(), 2);
    assert_eq!(ws.active_index(), 1);
    assert_eq!(ws.active_tab().tab_draft().saved_id, Some(id));
    ws.open_saved(at(77), Ulid(5));
    assert_eq!(ws.tab_count(), 2);
}

#[test]
fn open_template_prefills_a_new_tab() {
    let mut ws = new_workspace();
    let template = find("openai-chat-vision").unwrap();
    ws.open_template("openai-chat-vision", Ulid(2));
    assert_eq!(ws.tab_count(), 2);
    let t = ws.active_tab();
    let draft = t.draft();
    assert_eq!(draft.method, Method::Post);
    assert_eq!(draft.url, template.url);
    assert_eq!(draft.headers.len(), template.headers.len());
    assert!(draft
        .headers
        .iter()
        .any(|h| h.key == "Authorization" && h.value == "Bearer YOUR_API_KEY"));
    match draft.body {
        BodyKind::Raw { format, ref text } => {
            assert_eq!(format, RawFormat::Json);
            assert_eq!(text, template.body);
        }
        ref other => panic!("{other:?}"),
    }
    assert!(t.saved_id.is_none());
    assert!(t.saved_name.is_none());
    assert!(t.dirty);
    assert_eq!(t.title(), "/v1/chat/completions");
    assert_eq!(ws.title_bar_subtitle(), "/v1/chat/completions");
    ws.open_template("openai-chat-vision", Ulid(3));
    assert_eq!(ws.tab_count(), 3);
    ws.open_template("nope", Ulid(4));
    assert_eq!(ws.tab_count(), 3);
}

#[test]
fn duplicate_active_copies_content_next_to_the_source() {
    let mut ws = new_workspace();
    ws.open_template("openai-chat-vision", Ulid(2));
    ws.new_tab(Ulid(3));
    ws.activate(1);
    let saved_id = at(7);
    let source = ws.tab_mut(1);
    source.saved_id = Some(saved_id);
    source.dirty = false;
    let (source_draft, source_id) = (ws.tab_at(1).draft(), ws.tab_at(1).id);
    ws.duplicate_active(Ulid(4));
    assert_eq!(ws.tab_count(), 4);
    assert_eq!(ws.active_index(), 2);
    let copy = ws.tab_at(2);
    assert_eq!(copy.draft(), source_draft);
    assert!(copy.saved_id.is_none());
    assert!(copy.dirty);
    assert_ne!(copy.id, source_id);
    let src = ws.tab_at(1);
    assert_eq!(src.saved_id, Some(saved_id));
    assert!(!src.dirty);
}

#[test]
fn duplicate_active_on_the_last_tab_appends() {
    let mut ws = new_workspace();
    ws.duplicate_active(Ulid(2));
    assert_eq!((ws.tab_count(), ws.active_index()), (2, 1));
}

#[test]
fn an_imported_request_opens_in_a_tab_of_its_own() {
    let mut ws = new_workspace();
    ws.open_tool_section(ToolSection::ImportCurl);
    assert_eq!(ws.open_tool(), Some(ToolSection::ImportCurl));
    ws.import_draft(
        &RequestDraft {
            url: "https://api.test/imported".into(),
            ..Default::default()
        },
        Ulid(2),
    );
    assert_eq!(ws.open_tool(), None);
    assert_eq!((ws.tab_count(), ws.active_index()), (2, 1));
    assert_eq!(ws.active_tab().url, "https://api.test/imported");
    assert!(ws.active_tab().dirty);
    ws.open_tool_section(ToolSection::CodeGen);
    ws.open_tool_section(ToolSection::CodeGen);
    assert_eq!(ws.open_tool(), None);
}

#[test]
fn delete_saved_removes_file_and_detaches_tabs() {
    let mut ws = new_workspace();
    change_url(&mut ws, 0, "https://api.test/gone");
    let tab = ws.active_tab().id;
    let id = ws.finish_save(tab, "待删", at(1), 5).unwrap();
    assert_eq!(ws.saved().len(), 1);
    assert!(ws.delete_saved(id));
    assert!(ws.saved().is_empty());
    let t = ws.active_tab();
    assert_eq!(t.saved_id, None);
    assert!(t.saved_name.is_none());
    assert!(t.dirty);
    assert_eq!(t.title(), "/gone");
    assert_eq!(t.tab_draft().saved_id, None);
    assert!(!ws.delete_saved(at(9)));
}

#[test]
fn sidebar_lists_newest_first_and_draws_rows() {
    let mut ws = new_workspace();
    change_url(&mut ws, 0, "https://api.test/first");
    let first_tab = ws.active_tab().id;
    let first = ws.finish_save(first_tab, "第一", at(1), 5).unwrap();
    ws.new_tab(Ulid(2));
    change_url(&mut ws, 1, "https://api.test/second");
    let second = ws.finish_save(Ulid(2), "第二", at(2), 6).unwrap();
    let ids: Vec<Ulid> = ws.saved().iter().map(|r| r.id).collect();
    assert_eq!(ids, vec![second, first]);
    assert_eq!(ws.filtered_saved_indices(), vec![0, 1]);
}

#[test]
fn saved_requests_are_listed_by_time_then_identifier() {
    let request = |ms: u128, updated_at: i64| SavedRequest {
        updated_at,
        id: at(ms),
        ..SavedRequest::new("r", RequestDraft::default())
    };
    let mut list = vec![request(1, 5), request(3, 9), request(2, 5)];
    sort_saved(&mut list);
    let ids: Vec<Ulid> = list.iter().map(|r| r.id).collect();
    assert_eq!(ids[0], at(3));
    assert_eq!(ids.len(), 3);
    let once = ids.clone();
    sort_saved(&mut list);
    let ids: Vec<Ulid> = list.iter().map(|r| r.id).collect();
    assert_eq!(ids, once);
}

#[test]
fn a_filter_without_requests_gives_way_to_all() {
    let mut ws = new_workspace();
    ws.set_saved_filter(SavedFilter::Group("g".into()));
    assert_eq!(*ws.saved_filter(), SavedFilter::All);
    let tab = ws.active_tab().id;
    let id = ws.finish_save(tab, "x", at(1), 5).unwrap();
    ws.set_saved_filter(SavedFilter::Uncategorized);
    assert_eq!(*ws.saved_filter(), SavedFilter::Uncategorized);
    assert_eq!(ws.filtered_saved_indices(), vec![0]);
    ws.delete_saved(id);
    assert_eq!(*ws.saved_filter(), SavedFilter::All);
    assert!(ws.filtered_saved_indices().is_empty());
}

#[test]
fn set_split_is_idempotent_for_the_current_direction() {
    let mut ws = new_workspace();
    ws.new_tab(Ulid(2));
    assert_eq!(ws.split(), SplitDirection::Horizontal);
    assert!(!ws.set_split(SplitDirection::Horizontal));
    assert_eq!(ws.split(), SplitDirection::Horizontal);
    assert_eq!(ws.tab_at(0).split, SplitDirection::Horizontal);
    assert!(ws.set_split(SplitDirection::Vertical));
    assert_eq!(ws.split(), SplitDirection::Vertical);
    assert!(!ws.set_split(SplitDirection::Vertical));
    assert_eq!(ws.split(), SplitDirection::Vertical);
    assert_eq!(ws.workspace_state().split, SplitDirection::Vertical);
}

#[test]
fn split_direction_applies_to_all_tabs_and_persists() {
    let mut ws = new_workspace();
    ws.new_tab(Ulid(2));
    assert_eq!(ws.split(), SplitDirection::Horizontal);
    ws.set_split(SplitDirection::Vertical);
    assert_eq!(ws.split(), SplitDirection::Vertical);
    assert_eq!(ws.tab_at(0).split, SplitDirection::Vertical);
    assert_eq!(ws.tab_at(1).split, SplitDirection::Vertical);
    ws.new_tab(Ulid(3));
    assert_eq!(ws.tab_at(2).split, SplitDirection::Vertical);
    assert_eq!(ws.workspace_state().split, SplitDirection::Vertical);
    ws.set_split(SplitDirection::Horizontal);
    assert_eq!(ws.workspace_state().split, SplitDirection::Horizontal);
    assert_eq!(ws.tab_at(2).split, SplitDirection::Horizontal);
}

#[test]
fn rail_click_expands_then_collapses_the_same_section() {
    let mut ws = new_workspace();
    assert!(ws.sidebar_collapsed());
    ws.open_sidebar_section(SidebarSection::Saved);
    assert!(!ws.sidebar_collapsed());
    assert_eq!(ws.sidebar_section(), SidebarSection::Saved);
    ws.open_sidebar_section(SidebarSection::Saved);
    assert!(ws.sidebar_collapsed());
    assert!(ws.workspace_state().sidebar_collapsed);
}

#[test]
fn template_panel_switches_and_draws() {
    let mut ws = new_workspace();
    ws.open_sidebar_section(SidebarSection::Templates);
    assert_eq!(ws.sidebar_section(), SidebarSection::Templates);
    assert!(!ws.sidebar_collapsed());
    ws.open_sidebar_section(SidebarSection::Templates);
    assert!(ws.sidebar_collapsed());
}

#[test]
fn tab_bar_draws_with_many_tabs() {
    let mut ws = new_workspace();
    for i in 0..12 {
        ws.new_tab(Ulid(200 + i));
    }
    assert_eq!(ws.tab_count(), 13);
    assert_eq!(ws.active_index(), 12);
}

#[test]
fn widths_are_compared_as_numbers() {
    let mut ws = new_workspace();
    assert!(ws.resize_sidebar(240f32.to_bits()));
    assert!(!ws.resize_sidebar(240f32.to_bits()));
    assert!(ws.resize_sidebar(0f32.to_bits()));
    assert!(!ws.resize_sidebar((-0f32).to_bits()));
    assert_eq!(ws.sidebar_width(), Some(0f32.to_bits()));
    assert!(ws.resize_sidebar(f32::NAN.to_bits()));
    assert!(ws.resize_sidebar(f32::NAN.to_bits()));
    assert!(ws.resize_sidebar(f32::INFINITY.to_bits()));
    assert!(!ws.resize_sidebar(f32::INFINITY.to_bits()));
}
