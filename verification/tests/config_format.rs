use sshc::config_text::parse_ssh_config_text;
use sshc::config_text::render_ssh_config;
use sshc::controller::App;
use sshc::controller::Key;
use sshc::SshcError;
use sshc::SshHost;

fn host(name: &str) -> SshHost {
    SshHost::new(String::from(name))
}

#[test]
fn parse_reads_fields_and_metadata() {
    let text = "# comment\n\
                # @folder: prod\n\
                # @name: Main DB\n\
                # @description: the big one\n\
                # @visible: FALSE\n\
                Host db\n\
                    HostName 10.0.0.1\n\
                    User root\n\
                    Port 22\n\
                    IdentityFile ~/.ssh/id\n\
                    ForwardAgent yes\n\
                \n\
                Host web\n";
    let hosts = parse_ssh_config_text(text);
    assert_eq!(hosts.len(), 2);
    let db = &hosts[0];
    assert_eq!(db.name, "db");
    assert_eq!(db.hostname.as_deref(), Some("10.0.0.1"));
    assert_eq!(db.user.as_deref(), Some("root"));
    assert_eq!(db.port.as_deref(), Some("22"));
    assert_eq!(db.identity_file.as_deref(), Some("~/.ssh/id"));
    assert_eq!(db.folder.as_deref(), Some("prod"));
    assert_eq!(db.display_name.as_deref(), Some("Main DB"));
    assert_eq!(db.description.as_deref(), Some("the big one"));
    assert!(!db.visible);
    assert_eq!(db.other_options.len(), 1);
    assert_eq!(db.other_options[0].0, "forwardagent");
    assert_eq!(db.other_options[0].1, "yes");
    let web = &hosts[1];
    assert_eq!(web.name, "web");
    assert!(web.visible);
    assert!(web.folder.is_none());
}

#[test]
fn parse_ignores_empty_values_and_orphan_fields() {
    let text = "HostName nowhere\nHost a\nHostName\nUser  \n";
    let hosts = parse_ssh_config_text(text);
    assert_eq!(hosts.len(), 1);
    assert!(hosts[0].hostname.is_none());
    assert!(hosts[0].user.is_none());
}

#[test]
fn parse_keys_are_case_insensitive() {
    let hosts = parse_ssh_config_text("HOST a\nHOSTNAME h\nuser u\n");
    assert_eq!(hosts.len(), 1);
    assert_eq!(hosts[0].hostname.as_deref(), Some("h"));
    assert_eq!(hosts[0].user.as_deref(), Some("u"));
}

#[test]
fn parse_empty_text_gives_no_hosts() {
    assert_eq!(parse_ssh_config_text("").len(), 0);
    assert_eq!(parse_ssh_config_text("\n\n# only comments\n").len(), 0);
}

#[test]
fn render_writes_expected_text() {
    let mut h = host("db");
    h.hostname = Some(String::from("10.0.0.1"));
    h.user = Some(String::from("root"));
    h.folder = Some(String::from("prod"));
    h.visible = false;
    h.other_options.push((String::from("forwardagent"), String::from("yes")));
    let text = render_ssh_config(&vec![h]);
    assert_eq!(
        text,
        "# @folder: prod\n# @visible: false\nHost db\n    HostName 10.0.0.1\n    User root\n    Forwardagent yes\n\n"
    );
}

#[test]
fn write_then_read_reproduces_the_hosts() {
    let mut a = host("db");
    a.hostname = Some(String::from("10.0.0.1"));
    a.user = Some(String::from("root"));
    a.port = Some(String::from("2222"));
    a.identity_file = Some(String::from("~/.ssh/id"));
    a.folder = Some(String::from("prod"));
    a.display_name = Some(String::from("Main DB"));
    a.description = Some(String::from("the big one"));
    a.visible = false;
    a.other_options.push((String::from("forwardagent"), String::from("yes")));
    a.other_options.push((String::from("compression"), String::from("no")));
    let b = host("bastion");
    let hosts = vec![a, b];
    let text = render_ssh_config(&hosts);
    let reread = parse_ssh_config_text(&text);
    assert_eq!(reread.len(), hosts.len());
    for (x, y) in hosts.iter().zip(reread.iter()) {
        assert_eq!(x.name, y.name);
        assert_eq!(x.hostname, y.hostname);
        assert_eq!(x.user, y.user);
        assert_eq!(x.port, y.port);
        assert_eq!(x.identity_file, y.identity_file);
        assert_eq!(x.folder, y.folder);
        assert_eq!(x.display_name, y.display_name);
        assert_eq!(x.description, y.description);
        assert_eq!(x.visible, y.visible);
        assert_eq!(x.other_options, y.other_options);
    }
}

#[test]
fn diff_shows_added_host_with_plus_lines() {
    let mut app = App::new(Vec::new());
    app.handle_event(Key::Char('e'));
    app.handle_event(Key::Char('a'));
    for c in "box".chars() {
        app.handle_event(Key::Char(c));
    }
    app.handle_event(Key::Tab);
    for c in "10.0.0.9".chars() {
        app.handle_event(Key::Char(c));
    }
    app.handle_event(Key::Enter);
    let lines = app.generate_diff_lines();
    assert_eq!(lines, vec!["+ Host box", "+   HostName 10.0.0.9", ""]);
}

#[test]
fn diff_shows_deleted_host_with_minus_lines() {
    let mut h = host("gone");
    h.folder = Some(String::from("p"));
    let mut app = App::new(vec![h]);
    // the folder row is selected; move to the host row first
    app.handle_event(Key::Char('e'));
    app.handle_event(Key::Down);
    app.handle_event(Key::Char('d'));
    app.handle_event(Key::Char('y'));
    let lines = app.generate_diff_lines();
    assert_eq!(lines, vec!["- # @folder: p", "- Host gone", ""]);
}

#[test]
fn diff_shows_only_changed_fields_of_an_edit() {
    let mut h = host("db");
    h.hostname = Some(String::from("old.example"));
    h.user = Some(String::from("root"));
    let mut app = App::new(vec![h]);
    app.handle_event(Key::Char('e'));
    app.handle_event(Key::Char('e'));
    // move to the hostname field and replace it
    app.handle_event(Key::Tab);
    for _ in 0.."old.example".len() {
        app.handle_event(Key::Backspace);
    }
    for c in "new.example".chars() {
        app.handle_event(Key::Char(c));
    }
    app.handle_event(Key::Enter);
    let lines = app.generate_diff_lines();
    assert_eq!(
        lines,
        vec![
            "~ Host db",
            "-   HostName old.example",
            "+   HostName new.example",
            ""
        ]
    );
}

#[test]
fn option_keys_render_capitalized_and_reparse_lowercased() {
    let mut h = host("a");
    h.other_options.push((String::from("forwardagent"), String::from("yes")));
    let text = render_ssh_config(&vec![h]);
    assert!(text.contains("    Forwardagent yes\n"));
    let back = parse_ssh_config_text(&text);
    assert_eq!(back[0].other_options[0].0, "forwardagent");
}

#[test]
fn error_messages_carry_their_category() {
    assert_eq!(SshcError::Io(String::from("boom")).message(), "IO error: boom");
    assert_eq!(
        SshcError::Config(String::from("denied")).message(),
        "Config error: denied"
    );
    assert_eq!(
        SshcError::Terminal(String::from("raw")).message(),
        "Terminal error: raw"
    );
    assert_eq!(SshcError::Ssh(String::from("spawn")).message(), "SSH error: spawn");
}

#[test]
fn diff_shows_metadata_changes_as_pairs() {
    let mut h = host("db");
    h.folder = Some(String::from("old"));
    let mut app = App::new(vec![h]);
    app.handle_event(Key::Char('e'));
    app.handle_event(Key::Down);
    app.handle_event(Key::Char('e'));
    // the folder field is the sixth; replace its content
    for _ in 0..5 {
        app.handle_event(Key::Tab);
    }
    for _ in 0.."old".len() {
        app.handle_event(Key::Backspace);
    }
    for c in "new".chars() {
        app.handle_event(Key::Char(c));
    }
    app.handle_event(Key::Enter);
    let lines = app.generate_diff_lines();
    assert_eq!(
        lines,
        vec!["~ Host db", "- # @folder: old", "+ # @folder: new", ""]
    );
}

#[test]
fn parse_metadata_waits_for_its_host_line() {
    // metadata between hosts belongs to the next Host line
    let text = "Host a\n# @folder: later\nHost b\n";
    let hosts = parse_ssh_config_text(text);
    assert_eq!(hosts.len(), 2);
    assert!(hosts[0].folder.is_none());
    assert_eq!(hosts[1].folder.as_deref(), Some("later"));
}
