//! Sessions, connections, remote files, themes and the smaller parts.

use nexterm::session::{
    columns_of, load_row, needs_migration, profile_of, row_of, row_of_columns, SessionGroup,
};
use nexterm::sftp::{RemoteBrowser, TransferDirection, TransferManager, TransferState};
use nexterm::ssh::{
    address, auth_error_message, auth_outcome, auth_step, AuthError, AuthMethod, AuthStep, ExecMsg,
    ExecOutput, SshProfile,
};
use nexterm::ssh_config::parse_ssh_config;
use nexterm::sync::{NoopSync, SyncBackend};
use nexterm::theme::{builtin_theme, builtin_theme_names, hex_to_bytes, resolve_theme, Theme};
use nexterm::ui_block::{Block, BlockManager};

#[test]
fn a_profile_comes_back_from_its_row() {
    let mut p = SshProfile::default();
    p.name = "prod".into();
    p.group = Some("Web".into());
    p.auth = AuthMethod::PublicKey { key_path: "/k".into(), passphrase: None };
    p.tags = vec!["a".into()];
    p.env = vec![("A".into(), "1".into())];
    let id = p.id;
    let before = format!("{p:?}");
    let back = profile_of(row_of(p), uuid::Uuid::nil());
    assert_eq!(back.id, id);
    assert_eq!(format!("{back:?}"), before);
}

#[test]
fn columns_come_back() {
    let mut p = SshProfile::default();
    p.proxy_jump = vec!["a".into(), "b \"c\"".into()];
    p.env = vec![("A".into(), "1".into())];
    p.tags = vec![];
    let c = columns_of(&p).unwrap();
    assert_eq!(c.proxy_jump, "[\"a\",\"b \\\"c\\\"\"]");
    assert_eq!(c.env, "[[\"A\",\"1\"]]");
    let row = row_of_columns(
        &c.id,
        "n".into(),
        "h".into(),
        22,
        "u".into(),
        None,
        &c.proxy_jump,
        &c.env,
        30,
        &c.tags,
        String::new(),
    );
    assert_eq!(row.id, Some(p.id));
    assert_eq!(row.proxy_jump, Some(p.proxy_jump.clone()));
    assert_eq!(row.env, Some(p.env.clone()));
    assert_eq!(row.tags, Some(vec![]));
    let bad = row_of_columns(
        "no id",
        "n".into(),
        "h".into(),
        22,
        "u".into(),
        None,
        "{",
        "[1]",
        30,
        "",
        String::new(),
    );
    assert_eq!((bad.id, bad.proxy_jump, bad.env, bad.tags), (None, None, None, None));
}

#[test]
fn going_up_ends_at_the_root() {
    let mut b = RemoteBrowser::new();
    b.navigate("/a/b");
    b.go_up();
    assert_eq!(b.current_path, "/a");
    b.go_up();
    assert_eq!(b.current_path, "/");
    b.go_up();
    assert_eq!(b.current_path, "/");
    assert!(b.entries.is_empty());
}

#[test]
fn going_up_knows_every_name() {
    let mut b = RemoteBrowser::new();
    for (from, to) in [
        ("/home/my_user", "/home"),
        ("/root/.ssh", "/root"),
        ("/srv/a b/c-d.txt", "/srv/a b"),
        ("/a/..", "/a"),
        ("/\u{e9}", "/"),
    ] {
        b.navigate(from);
        b.go_up();
        assert_eq!(b.current_path, to);
    }
}

#[test]
fn configs_in_a_row_do_not_mix() {
    let a = "Host one\n  Port 2200\n";
    let b = "# next\nHost two\n  User u\n";
    let whole = parse_ssh_config(&format!("{a}\n{b}"));
    let parts: Vec<String> =
        parse_ssh_config(a).iter().chain(parse_ssh_config(b).iter()).map(|e| format!("{e:?}")).collect();
    let got: Vec<String> = whole.iter().map(|e| format!("{e:?}")).collect();
    assert_eq!(got, parts);
    assert_eq!(whole[1].port, None);
}

#[test]
fn a_saved_profile_is_loaded() {
    let mut p = SshProfile::default();
    p.name = "prod".into();
    p.host = "h".into();
    p.tags = vec!["a".into(), "\u{e9}\n".into()];
    p.env = vec![("K".into(), "v".into())];
    p.group = Some("Web".into());
    let before = format!("{p:?}");
    let c = columns_of(&p).unwrap();
    let row = row_of(p);
    let read = row_of_columns(
        &c.id,
        row.name,
        row.host,
        row.port,
        row.username,
        row.auth,
        &c.proxy_jump,
        &c.env,
        row.keepalive,
        &c.tags,
        row.group,
    );
    assert_eq!(format!("{:?}", load_row(read)), before);
}

#[test]
fn broken_columns_are_filled_in() {
    let mut row = row_of(SshProfile::default());
    row.id = None;
    row.auth = None;
    row.tags = None;
    row.env = None;
    row.proxy_jump = None;
    let p = load_row(row);
    assert!(matches!(p.auth, AuthMethod::Agent));
    assert!(p.tags.is_empty() && p.env.is_empty() && p.proxy_jump.is_empty());
    assert_eq!(p.group, None);
    assert_eq!((p.port, p.username.as_str(), p.keepalive_interval), (22, "root", 30));
    assert_ne!(p.id, uuid::Uuid::nil());
}

#[test]
fn old_tables_are_migrated() {
    assert!(needs_migration("CREATE TABLE profiles (x TEXT, FOREIGN KEY (g) REFERENCES groups(id))"));
    assert!(!needs_migration("CREATE TABLE profiles (x TEXT)"));
}

#[test]
fn groups_know_their_parent() {
    let root = SessionGroup::new_root("r".into());
    let child = SessionGroup::new_child("c".into(), root.id);
    assert_eq!((root.parent_id, root.sort_order), (None, 0));
    assert_eq!(child.parent_id, Some(root.id));
    assert_ne!(child.id, root.id);
}

#[test]
fn connecting_goes_step_by_step() {
    assert_eq!(address("h", 2222), "h:2222");
    assert_eq!(auth_step(&AuthMethod::Password("x".into())), AuthStep::OfferPassword);
    assert_eq!(auth_step(&AuthMethod::Agent), AuthStep::NoAgent);
    assert_eq!(auth_outcome(AuthStep::OfferPassword, true), Ok(()));
    let refused = auth_outcome(AuthStep::OfferPassword, false).unwrap_err();
    assert_eq!(auth_error_message(refused), "password authentication failed");
    let key = auth_outcome(AuthStep::OfferKey, false).unwrap_err();
    assert_eq!(auth_error_message(key), "public key authentication failed");
    assert_eq!(auth_outcome(AuthStep::NoAgent, true), Err(AuthError::AgentNotImplemented));
    assert_eq!(
        auth_outcome(AuthStep::NoKeyboardInteractive, true),
        Err(AuthError::KeyboardInteractiveNotImplemented)
    );
}

#[test]
fn command_output_is_gathered() {
    let mut o = ExecOutput::new();
    o.take(ExecMsg::Data(b"ab".to_vec()));
    o.take(ExecMsg::Other);
    o.take(ExecMsg::Data(b"c".to_vec()));
    assert!(!o.done);
    o.take(ExecMsg::End);
    assert!(o.done);
    assert_eq!(o.bytes, b"abc");
    assert_eq!(o.text(), "abc");
    o.take(ExecMsg::Data(vec![0xff, 0xc3, 0xa9]));
    assert_eq!(o.text(), "abc\u{fffd}é");
}

#[test]
fn ssh_config_has_an_entry_per_host() {
    let e = parse_ssh_config(
        "# comment\nHost web\n  HostName web.example.org\n  Port 2200\n  user ann\n  IdentityFile ~/.ssh/id\n\nHost *.db\n  ForwardAgent yes\n  ProxyJump bastion\n  Port nope\n",
    );
    assert_eq!(e.len(), 2);
    assert_eq!(e[0].host_pattern, "web");
    assert_eq!(e[0].hostname.as_deref(), Some("web.example.org"));
    assert_eq!(e[0].port, Some(2200));
    assert_eq!(e[0].user.as_deref(), Some("ann"));
    assert_eq!(e[0].identity_file.as_deref(), Some("~/.ssh/id"));
    assert!(!e[0].forward_agent);
    assert_eq!(e[1].host_pattern, "*.db");
    assert!(e[1].forward_agent);
    assert_eq!(e[1].proxy_jump.as_deref(), Some("bastion"));
    assert_eq!(e[1].port, None);
    assert!(parse_ssh_config("Port 22\n").is_empty());
}

#[test]
fn transfers_queue_up() {
    let mut m = TransferManager::new(3);
    let a = m.enqueue(TransferDirection::Upload, "l".into(), "r".into());
    let b = m.enqueue(TransferDirection::Download, "l2".into(), "r2".into());
    assert_ne!(a, b);
    assert_eq!((m.queue.len(), m.max_concurrent), (2, 3));
    assert_eq!(m.queue[1].id, b);
    assert!(matches!(m.queue[0].state, TransferState::Queued));
}

#[test]
fn the_browser_moves_between_directories() {
    let mut b = RemoteBrowser::new();
    assert_eq!(b.current_path, "/");
    b.navigate("/srv/www");
    b.go_up();
    assert_eq!(b.current_path, "/srv");
    b.go_to(None);
    assert_eq!(b.current_path, "/srv");
    b.go_to(Some("/x".into()));
    assert_eq!(b.current_path, "/x");
    b.go_up();
    b.go_up();
    assert_eq!(b.current_path, "/");
}

#[test]
fn syncing_nothing_succeeds() {
    assert!(NoopSync.push(b"data").is_ok());
    assert_eq!(NoopSync.pull().unwrap(), Vec::<u8>::new());
}

#[test]
fn blocks_of_output_are_kept() {
    let mut m = BlockManager::default();
    m.append_output("lost");
    m.start_block("ls".into());
    m.append_output("a");
    m.append_output("b");
    m.start_block("pwd".into());
    m.finish_block(1);
    m.finish_block(2);
    let got: Vec<(&str, &str, Option<i32>)> =
        m.blocks.iter().map(|b| (b.command.as_str(), b.output.as_str(), b.exit_code)).collect();
    assert_eq!(got, [("ls", "ab", None), ("pwd", "", Some(1))]);
    assert!(m.active.is_none());
    let b = Block::new("x".into());
    assert_ne!(b.id, Block::new("x".into()).id);
}

#[test]
fn every_listed_theme_exists() {
    let names = builtin_theme_names();
    assert_eq!(names.len(), 6);
    for n in &names {
        let t = builtin_theme(n).unwrap();
        assert_eq!(t.name, *n);
        assert_eq!(builtin_theme(&n.to_uppercase()).unwrap().name, *n);
        let r = resolve_theme(&t);
        assert_eq!(r.ansi.len(), 16);
    }
    assert!(builtin_theme("Gruvbox_Dark").is_some());
    assert!(builtin_theme("no such theme").is_none());
    assert_eq!(Theme::default().name, builtin_theme("catppuccin-mocha").unwrap().name);
}

#[test]
fn colours_are_read_from_hex() {
    assert_eq!(hex_to_bytes("#ff8000"), (255, 128, 0, 255));
    assert_eq!(hex_to_bytes("ff800040"), (255, 128, 0, 64));
}
