use sshc::controller::App;
use sshc::controller::Key;
use sshc::SshHost;
use sshc::TreeItem;

fn host(name: &str, folder: Option<&str>) -> SshHost {
    let mut h = SshHost::new(String::from(name));
    h.folder = folder.map(String::from);
    h
}

fn row_summary(items: &[TreeItem]) -> Vec<String> {
    items
        .iter()
        .map(|it| match it {
            TreeItem::Folder { name, expanded, children_indices } => {
                format!("F:{}:{}:{:?}", name, expanded, children_indices)
            },
            TreeItem::Host { host_index } => format!("H:{}", host_index),
        })
        .collect()
}

#[test]
fn default_tree_groups_and_sorts() {
    let app = App::new(vec![
        host("db", Some("prod")),
        host("web", Some("prod")),
        host("bastion", None),
    ]);
    assert_eq!(
        row_summary(&app.tree_items),
        vec!["F:prod:true:[0, 1]", "H:0", "H:1", "H:2"]
    );
}

#[test]
fn folders_come_in_lexicographic_order() {
    let app = App::new(vec![
        host("x", Some("beta")),
        host("y", Some("alpha")),
        host("z", None),
    ]);
    assert_eq!(
        row_summary(&app.tree_items),
        vec!["F:alpha:true:[1]", "H:1", "F:beta:true:[0]", "H:0", "H:2"]
    );
}

#[test]
fn members_sort_by_display_name_override() {
    let mut a = host("zz", Some("p"));
    a.display_name = Some(String::from("aaa"));
    let b = host("mm", Some("p"));
    let app = App::new(vec![b, a]);
    // "aaa" (host 1) sorts before "mm" (host 0)
    assert_eq!(row_summary(&app.tree_items), vec!["F:p:true:[1, 0]", "H:1", "H:0"]);
}

#[test]
fn invisible_hosts_never_appear() {
    let mut hidden = host("ghost", Some("p"));
    hidden.visible = false;
    let app = App::new(vec![hidden, host("seen", Some("p"))]);
    assert_eq!(row_summary(&app.tree_items), vec!["F:p:true:[1]", "H:1"]);
}

#[test]
fn toggle_collapses_and_expands_exactly() {
    let mut app = App::new(vec![
        host("db", Some("prod")),
        host("web", Some("prod")),
        host("bastion", None),
    ]);
    let before = row_summary(&app.tree_items);
    app.toggle_folder_expanded(0);
    assert_eq!(
        row_summary(&app.tree_items),
        vec!["F:prod:false:[0, 1]", "H:2"]
    );
    app.toggle_folder_expanded(0);
    assert_eq!(row_summary(&app.tree_items), before);
}

#[test]
fn collapsed_state_survives_rebuild() {
    let mut app = App::new(vec![host("db", Some("prod")), host("bastion", None)]);
    app.toggle_folder_expanded(0);
    app.rebuild_tree();
    assert_eq!(row_summary(&app.tree_items), vec!["F:prod:false:[0]", "H:1"]);
}

#[test]
fn toggle_on_host_row_changes_nothing() {
    let mut app = App::new(vec![host("db", Some("prod"))]);
    let before = row_summary(&app.tree_items);
    app.toggle_folder_expanded(1);
    assert_eq!(row_summary(&app.tree_items), before);
}

#[test]
fn enter_toggles_selected_folder() {
    let mut app = App::new(vec![host("db", Some("prod")), host("bastion", None)]);
    assert_eq!(app.selected, Some(0));
    app.handle_event(Key::Enter);
    assert_eq!(row_summary(&app.tree_items), vec!["F:prod:false:[0]", "H:1"]);
    app.handle_event(Key::Char(' '));
    assert_eq!(
        row_summary(&app.tree_items),
        vec!["F:prod:true:[0]", "H:0", "H:1"]
    );
}

#[test]
fn query_tree_is_flat_and_exact() {
    let mut app = App::new(vec![
        host("db", Some("prod")),
        host("web", Some("prod")),
        host("dbx", None),
    ]);
    app.handle_event(Key::Char('/'));
    app.handle_event(Key::Char('d'));
    app.handle_event(Key::Char('b'));
    assert_eq!(row_summary(&app.tree_items), vec!["H:0", "H:2"]);
}

#[test]
fn query_matches_folder_label_too() {
    let mut app = App::new(vec![host("web", Some("prod")), host("bastion", None)]);
    app.handle_event(Key::Char('/'));
    for c in "prod".chars() {
        app.handle_event(Key::Char(c));
    }
    assert_eq!(row_summary(&app.tree_items), vec!["H:0"]);
}

#[test]
fn get_selected_host_skips_folder_rows() {
    let mut app = App::new(vec![host("db", Some("prod"))]);
    assert!(app.get_selected_host().is_none());
    app.handle_event(Key::Down);
    assert_eq!(app.get_selected_host().unwrap().name, "db");
    assert_eq!(app.connect_to_selected().unwrap(), "db");
}

#[test]
fn full_display_info_formats_connection_summary() {
    let mut h = host("db", None);
    h.user = Some(String::from("root"));
    h.hostname = Some(String::from("10.0.0.1"));
    h.port = Some(String::from("2222"));
    h.description = Some(String::from("primary"));
    assert_eq!(
        h.get_full_display_info(),
        "db (root@10.0.0.1 port:2222) # primary"
    );
    let mut bare = host("plain", None);
    assert_eq!(bare.get_full_display_info(), "plain");
    bare.user = Some(String::from("eve"));
    assert_eq!(bare.get_full_display_info(), "plain (user:eve)");
    let mut named = host("x", None);
    named.display_name = Some(String::from("Pretty"));
    named.hostname = Some(String::from("h"));
    assert_eq!(named.get_display_name(), "Pretty");
    assert_eq!(named.get_full_display_info(), "Pretty (h)");
}
