use sshc::controller::App;
use sshc::controller::AppMode;
use sshc::controller::Effect;
use sshc::controller::Key;
use sshc::SshHost;

fn host(name: &str, folder: Option<&str>) -> SshHost {
    let mut h = SshHost::new(String::from(name));
    h.folder = folder.map(String::from);
    h
}

fn sample_hosts() -> Vec<SshHost> {
    vec![
        host("db", Some("prod")),
        host("web", Some("prod")),
        host("bastion", None),
    ]
}

#[test]
fn new_app_selects_first_row() {
    let app = App::new(sample_hosts());
    assert_eq!(app.mode, AppMode::Normal);
    assert_eq!(app.selected, Some(0));
    assert_eq!(app.tree_items.len(), 4);
    assert!(!app.should_quit);
}

#[test]
fn quit_key_sets_flag() {
    let mut app = App::new(sample_hosts());
    app.handle_event(Key::Char('q'));
    assert!(app.should_quit);
}

#[test]
fn navigation_wraps_both_ways() {
    let mut app = App::new(sample_hosts());
    assert_eq!(app.selected, Some(0));
    app.handle_event(Key::Up);
    assert_eq!(app.selected, Some(3));
    app.handle_event(Key::Down);
    assert_eq!(app.selected, Some(0));
    app.handle_event(Key::Down);
    assert_eq!(app.selected, Some(1));
}

#[test]
fn enter_on_host_row_requests_connect() {
    let mut app = App::new(sample_hosts());
    app.handle_event(Key::Down);
    let eff = app.handle_event(Key::Enter);
    match eff {
        Effect::Connect(name) => assert_eq!(name, "db"),
        _ => panic!("expected a connect effect"),
    }
}

#[test]
fn empty_name_commit_is_rejected_silently() {
    let mut app = App::new(Vec::new());
    app.handle_event(Key::Char('e'));
    assert_eq!(app.mode, AppMode::ConfigManagement);
    app.handle_event(Key::Char('a'));
    assert_eq!(app.mode, AppMode::EditingHost);
    app.handle_event(Key::Enter);
    assert_eq!(app.mode, AppMode::EditingHost);
    assert_eq!(app.hosts.len(), 0);
    assert_eq!(app.pending_changes.len(), 0);
}

#[test]
fn whitespace_only_name_commit_is_rejected() {
    let mut app = App::new(Vec::new());
    app.handle_event(Key::Char('e'));
    app.handle_event(Key::Char('a'));
    app.handle_event(Key::Char(' '));
    app.handle_event(Key::Enter);
    assert_eq!(app.mode, AppMode::EditingHost);
    assert_eq!(app.hosts.len(), 0);
}

#[test]
fn add_commit_appends_host_and_stages_change() {
    let mut app = App::new(Vec::new());
    app.handle_event(Key::Char('e'));
    app.handle_event(Key::Char('a'));
    for c in "box".chars() {
        app.handle_event(Key::Char(c));
    }
    app.handle_event(Key::Enter);
    assert_eq!(app.mode, AppMode::ConfigManagement);
    assert_eq!(app.hosts.len(), 1);
    assert_eq!(app.hosts[0].name, "box");
    assert!(app.hosts[0].visible);
    assert_eq!(app.pending_changes.len(), 1);
    assert_eq!(app.tree_items.len(), 1);
    assert_eq!(app.selected, Some(0));
}

#[test]
fn editing_tab_cycles_and_backspace_deletes() {
    let mut app = App::new(Vec::new());
    app.handle_event(Key::Char('e'));
    app.handle_event(Key::Char('a'));
    app.handle_event(Key::Char('a'));
    app.handle_event(Key::Char('b'));
    app.handle_event(Key::Backspace);
    {
        let ed = app.editing_host.as_ref().unwrap();
        assert_eq!(ed.name, "a");
        assert_eq!(ed.current_field, 0);
    }
    app.handle_event(Key::Tab);
    assert_eq!(app.editing_host.as_ref().unwrap().current_field, 1);
    app.handle_event(Key::BackTab);
    app.handle_event(Key::BackTab);
    assert_eq!(app.editing_host.as_ref().unwrap().current_field, 8);
    // the visibility field answers to t/y/f/n and space
    app.handle_event(Key::Char('f'));
    assert!(!app.editing_host.as_ref().unwrap().visible);
    app.handle_event(Key::Char('Y'));
    assert!(app.editing_host.as_ref().unwrap().visible);
    app.handle_event(Key::Char(' '));
    assert!(!app.editing_host.as_ref().unwrap().visible);
}

#[test]
fn clean_escape_leaves_editing_without_confirmation() {
    let mut app = App::new(sample_hosts());
    app.handle_event(Key::Char('e'));
    app.handle_event(Key::Char('a'));
    app.handle_event(Key::Esc);
    assert_eq!(app.mode, AppMode::ConfigManagement);
    assert!(app.editing_host.is_none());
}

#[test]
fn dirty_escape_asks_for_confirmation_and_n_returns() {
    let mut app = App::new(sample_hosts());
    app.handle_event(Key::Char('e'));
    app.handle_event(Key::Char('a'));
    app.handle_event(Key::Char('x'));
    app.handle_event(Key::Esc);
    assert_eq!(app.mode, AppMode::ConfirmDiscardEdit);
    app.handle_event(Key::Char('n'));
    assert_eq!(app.mode, AppMode::EditingHost);
    assert_eq!(app.editing_host.as_ref().unwrap().name, "x");
}

#[test]
fn delete_last_host_clears_selection_and_tree() {
    let mut app = App::new(vec![host("solo", None)]);
    app.handle_event(Key::Char('e'));
    app.handle_event(Key::Char('d'));
    assert_eq!(app.mode, AppMode::ConfirmDelete);
    app.handle_event(Key::Char('y'));
    assert_eq!(app.mode, AppMode::ConfigManagement);
    assert_eq!(app.hosts.len(), 0);
    assert_eq!(app.tree_items.len(), 0);
    assert_eq!(app.selected, None);
    assert_eq!(app.pending_changes.len(), 1);
}

#[test]
fn delete_declined_changes_nothing() {
    let mut app = App::new(vec![host("solo", None)]);
    app.handle_event(Key::Char('e'));
    app.handle_event(Key::Char('d'));
    app.handle_event(Key::Char('n'));
    assert_eq!(app.mode, AppMode::ConfigManagement);
    assert_eq!(app.hosts.len(), 1);
    assert_eq!(app.pending_changes.len(), 0);
}

#[test]
fn staged_sequence_then_discard_restores_snapshot() {
    let mut app = App::new(sample_hosts());
    // stage an addition
    app.handle_event(Key::Char('e'));
    app.handle_event(Key::Char('a'));
    for c in "extra".chars() {
        app.handle_event(Key::Char(c));
    }
    app.handle_event(Key::Enter);
    // the selection sits on the folder row; move onto the first host
    app.handle_event(Key::Down);
    // stage an edit of the first tree host (prod/db)
    app.handle_event(Key::Char('e'));
    assert_eq!(app.mode, AppMode::EditingHost);
    app.handle_event(Key::Char('2'));
    app.handle_event(Key::Enter);
    // stage a deletion, again from a host row
    app.handle_event(Key::Down);
    app.handle_event(Key::Char('d'));
    app.handle_event(Key::Char('y'));
    assert_eq!(app.pending_changes.len(), 3);
    // leave configuration: review opens because changes are staged
    app.handle_event(Key::Esc);
    assert_eq!(app.mode, AppMode::ReviewChanges);
    // discard them all
    app.handle_event(Key::Char('n'));
    assert_eq!(app.mode, AppMode::Normal);
    assert_eq!(app.pending_changes.len(), 0);
    assert_eq!(app.hosts.len(), 3);
    let names: Vec<&str> = app.hosts.iter().map(|h| h.name.as_str()).collect();
    assert_eq!(names, vec!["db", "web", "bastion"]);
    let originals: Vec<&str> = app.original_hosts.iter().map(|h| h.name.as_str()).collect();
    assert_eq!(names, originals);
}

#[test]
fn review_y_requests_persist_and_finish_apply_snapshots() {
    let mut app = App::new(Vec::new());
    app.handle_event(Key::Char('e'));
    app.handle_event(Key::Char('a'));
    app.handle_event(Key::Char('n'));
    app.handle_event(Key::Enter);
    app.handle_event(Key::Char('q'));
    assert_eq!(app.mode, AppMode::ReviewChanges);
    let eff = app.handle_event(Key::Char('y'));
    assert!(matches!(eff, Effect::PersistRequest));
    // still undecided until the writer reports success
    assert_eq!(app.mode, AppMode::ReviewChanges);
    assert_eq!(app.pending_changes.len(), 1);
    app.finish_apply();
    assert_eq!(app.mode, AppMode::Normal);
    assert_eq!(app.pending_changes.len(), 0);
    assert_eq!(app.original_hosts.len(), 1);
    assert_eq!(app.original_hosts[0].name, "n");
}

#[test]
fn review_scrolling_clamps_at_zero() {
    let mut app = App::new(Vec::new());
    app.handle_event(Key::Char('e'));
    app.handle_event(Key::Char('a'));
    app.handle_event(Key::Char('n'));
    app.handle_event(Key::Enter);
    app.handle_event(Key::Esc);
    assert_eq!(app.mode, AppMode::ReviewChanges);
    app.handle_event(Key::Up);
    assert_eq!(app.review_scroll, 0);
    app.handle_event(Key::Down);
    app.handle_event(Key::Down);
    assert_eq!(app.review_scroll, 2);
    app.handle_event(Key::PageDown);
    assert_eq!(app.review_scroll, 12);
    app.handle_event(Key::PageUp);
    assert_eq!(app.review_scroll, 2);
    app.handle_event(Key::Up);
    assert_eq!(app.review_scroll, 1);
}

#[test]
fn version_screen_opens_and_closes() {
    let mut app = App::new(Vec::new());
    app.handle_event(Key::Char('v'));
    assert_eq!(app.mode, AppMode::ShowVersion);
    app.handle_event(Key::Esc);
    assert_eq!(app.mode, AppMode::Normal);
}

#[test]
fn search_filters_and_esc_retains_query() {
    let mut app = App::new(sample_hosts());
    app.handle_event(Key::Char('/'));
    assert_eq!(app.mode, AppMode::Search);
    app.handle_event(Key::Char('D'));
    app.handle_event(Key::Char('B'));
    // case-insensitive match: only db remains, as a flat host row
    assert_eq!(app.tree_items.len(), 1);
    match &app.tree_items[0] {
        sshc::TreeItem::Host { host_index } => assert_eq!(*host_index, 0),
        _ => panic!("expected a host row"),
    }
    assert_eq!(app.selected, Some(0));
    app.handle_event(Key::Esc);
    assert_eq!(app.mode, AppMode::Normal);
    assert_eq!(app.search_query, "DB");
}

#[test]
fn search_backspace_widens_again() {
    let mut app = App::new(sample_hosts());
    app.handle_event(Key::Char('/'));
    app.handle_event(Key::Char('z'));
    assert_eq!(app.tree_items.len(), 0);
    assert_eq!(app.selected, None);
    app.handle_event(Key::Backspace);
    assert_eq!(app.tree_items.len(), 4);
    assert_eq!(app.selected, Some(0));
}

#[test]
fn search_matches_across_fields() {
    let mut a = host("alpha", None);
    a.description = Some(String::from("Primary Database"));
    let b = host("beta", Some("Staging"));
    let app_hosts = vec![a, b];
    assert!(app_hosts[0].matches_search("database"));
    assert!(app_hosts[1].matches_search("staging"));
    assert!(!app_hosts[0].matches_search("staging"));
}

#[test]
fn reload_config_replaces_everything() {
    let mut app = App::new(sample_hosts());
    app.reload_config(vec![host("fresh", None)]);
    assert_eq!(app.hosts.len(), 1);
    assert_eq!(app.original_hosts.len(), 1);
    assert_eq!(app.pending_changes.len(), 0);
    assert_eq!(app.tree_items.len(), 1);
}

#[test]
fn available_folders_are_sorted_and_distinct() {
    let hosts = vec![
        host("a", Some("zeta")),
        host("b", Some("alpha")),
        host("c", Some("zeta")),
        host("d", None),
    ];
    let app = App::new(hosts);
    let folders = app.get_available_folders();
    assert_eq!(folders, vec!["alpha", "zeta"]);
}

#[test]
fn duplicate_names_are_kept_by_position() {
    let mut app = App::new(vec![host("twin", None), host("twin", None)]);
    assert_eq!(app.tree_items.len(), 2);
    app.handle_event(Key::Down);
    let eff = app.handle_event(Key::Enter);
    match eff {
        Effect::Connect(name) => assert_eq!(name, "twin"),
        _ => panic!("expected a connect effect"),
    }
    assert_eq!(app.hosts.len(), 2);
}

#[test]
fn hiding_a_host_through_an_edit_removes_it_from_the_tree() {
    let mut app = App::new(vec![host("a", None), host("b", None)]);
    app.handle_event(Key::Char('e'));
    app.handle_event(Key::Char('e'));
    // jump to the visibility field and switch it off
    app.handle_event(Key::BackTab);
    app.handle_event(Key::Char('n'));
    app.handle_event(Key::Enter);
    assert_eq!(app.hosts.len(), 2);
    assert!(!app.hosts[0].visible);
    assert_eq!(app.tree_items.len(), 1);
}
