use oxide_sync::cli::Cli;
use oxide_sync::messages::{ClientServerOpts, FlistEntry, Message, SSHMessageError};
use oxide_sync::paths::{is_excluded, parse_remote_spec, parse_u16, resolve_local_path};
use oxide_sync::pipeline::{Error, Pipeline, PipelineState, Server, ServerAction, SSHCommand};

fn entry(name: &str) -> FlistEntry {
    FlistEntry {
        index: 0,
        filename: name.to_owned(),
        size: 10,
        mtime: 1700000000,
        mode: 0o100644,
        uid: Some(1),
        gid: Some(1),
        is_dir: false,
        is_symlink: false,
    }
}

#[test]
fn handshake_happy_path() {
    let mut p = Pipeline::new();
    assert!(matches!(p.connected, PipelineState::Disconnected));
    let first = p.init();
    assert_eq!(first, Message::SYNC);
    assert!(matches!(p.connected, PipelineState::Connecting));
    assert!(p.on_connect_reply(Message::ACK).is_ok());
    assert!(matches!(p.connected, PipelineState::Connected));
}

#[test]
fn handshake_nack_refused() {
    let mut p = Pipeline::new();
    p.init();
    assert_eq!(p.on_connect_reply(Message::NACK), Err(Error::Nack));
    assert!(matches!(p.connected, PipelineState::Error(Error::Nack)));
}

#[test]
fn handshake_unexpected_message_is_terminal() {
    let mut p = Pipeline::new();
    p.init();
    let r = p.on_connect_reply(Message::Done);
    assert_eq!(r, Err(Error::UnexpectedMessage(Message::Done)));
    assert!(matches!(
        p.connected,
        PipelineState::Error(Error::UnexpectedMessage(Message::Done))
    ));
}

#[test]
fn flist_stream_accumulates_in_order() {
    let mut p = Pipeline::new();
    p.init();
    p.on_connect_reply(Message::ACK).unwrap();
    assert_eq!(p.receive_flist(Message::FlistEntry(entry("a"))), Ok(false));
    assert_eq!(p.receive_flist(Message::FlistEntry(entry("b"))), Ok(false));
    assert_eq!(p.receive_flist(Message::FlistEnd), Ok(true));
    assert_eq!(p.flist.len(), 2);
    assert_eq!(p.flist[0].filename, "a");
    assert_eq!(p.flist[1].filename, "b");
}

#[test]
fn flist_stream_rejects_stray_message() {
    let mut p = Pipeline::new();
    p.init();
    p.on_connect_reply(Message::ACK).unwrap();
    let r = p.receive_flist(Message::Deleted(1));
    assert_eq!(r, Err(Error::UnexpectedMessage(Message::Deleted(1))));
    assert!(matches!(p.connected, PipelineState::Error(_)));
}

#[test]
fn stats_stream_and_timeout() {
    let mut p = Pipeline::new();
    p.init();
    p.on_connect_reply(Message::ACK).unwrap();
    assert_eq!(p.receive_stats(Message::Stats(vec![1, 2, 3])), Ok(false));
    assert_eq!(p.stats, vec![1, 2, 3]);
    assert_eq!(p.receive_stats(Message::IoTimeout), Err(Error::IoTimeout));
    assert!(matches!(p.connected, PipelineState::Error(Error::IoTimeout)));
}

#[test]
fn file_requests_follow_the_list() {
    let mut p = Pipeline::new();
    p.init();
    p.on_connect_reply(Message::ACK).unwrap();
    let mut e = entry("x");
    e.index = 4;
    p.receive_flist(Message::FlistEntry(e)).unwrap();
    assert_eq!(p.file_request(0), Some(Message::FileIndex(4)));
    assert_eq!(p.file_request(1), None);
}

#[test]
fn pipeline_state_compares_by_stage() {
    assert_eq!(PipelineState::Connected, PipelineState::Connected);
    assert_ne!(PipelineState::Connected, PipelineState::Connecting);
    assert_eq!(
        PipelineState::Error(Error::Nack),
        PipelineState::Error(Error::IoTimeout)
    );
}

#[test]
fn server_acknowledges_sync() {
    let mut s = Server::new();
    assert!(matches!(
        s.handle(Message::SYNC),
        ServerAction::Reply(Message::ACK)
    ));
}

#[test]
fn server_stores_arguments_and_enumerates_on_ack() {
    let mut s = Server::new();
    let opts = ClientServerOpts {
        to: "/data".to_owned(),
        delete: false,
        recursive: true,
        dry_run: false,
        verbose: false,
        exclude: vec![".git".to_owned()],
    };
    assert!(matches!(
        s.handle(Message::Arguments(opts.clone())),
        ServerAction::NoReply
    ));
    assert_eq!(s.opts, opts);
    assert!(matches!(s.handle(Message::ACK), ServerAction::Enumerate));
}

#[test]
fn server_flist_reply_assigns_consecutive_indices() {
    let mut s = Server::new();
    let msgs = s.flist_reply(vec![entry("one"), entry("two"), entry("three")]);
    assert_eq!(msgs.len(), 4);
    for (k, m) in msgs.iter().take(3).enumerate() {
        match m {
            Message::FlistEntry(e) => {
                assert_eq!(e.index, k as u32);
            }
            _ => panic!("expected a file-list entry"),
        }
    }
    assert_eq!(msgs[3], Message::FlistEnd);
    assert_eq!(s.flist.len(), 3);
    assert_eq!(s.flist[1].index, 1);
    assert_eq!(s.flist[1].filename, "two");
}

#[test]
fn server_file_index_in_range_reads_the_file() {
    let mut s = Server::new();
    s.flist_reply(vec![entry("alpha"), entry("beta")]);
    match s.handle(Message::FileIndex(1)) {
        ServerAction::ReadFile(name, i) => {
            assert_eq!(name, "beta");
            assert_eq!(i, 1);
        }
        _ => panic!("expected a read request"),
    }
}

#[test]
fn server_rejects_bad_index_and_unknown_messages() {
    let mut s = Server::new();
    match s.handle(Message::FileIndex(9)) {
        ServerAction::Reply(Message::Error(SSHMessageError::FatalError(_))) => {}
        _ => panic!("expected a fatal error reply"),
    }
    match s.handle(Message::Done) {
        ServerAction::Reply(Message::Error(SSHMessageError::FatalError(msg))) => {
            assert_eq!(msg, "Unknown message received");
        }
        _ => panic!("expected a fatal error reply"),
    }
}

#[test]
fn server_index_reply_carries_the_table() {
    let s = Server::new();
    match s.index_reply(3, b"abcdefgh", 4) {
        Message::Data(d) => {
            assert_eq!(d.file_index, 3);
            assert_eq!(d.map.entries.len(), 2);
        }
        _ => panic!("expected a data message"),
    }
}

#[test]
fn exclude_matches_prefix_or_suffix() {
    let ex = vec!["/tmp".to_owned(), ".log".to_owned()];
    assert!(is_excluded("/tmp/file", &ex)); // prefix
    assert!(is_excluded("run/current.log", &ex)); // suffix
    assert!(!is_excluded("/var/data.txt", &ex));
    assert!(!is_excluded("file", &Vec::new()));
}

#[test]
fn local_path_resolution_reroots_under_from() {
    assert_eq!(
        resolve_local_path("/remote/a/b.txt", "/remote", "/local"),
        "/local/a/b.txt".to_owned()
    );
    assert_eq!(
        resolve_local_path("/elsewhere/c.txt", "/remote", "/local"),
        "/elsewhere/c.txt".to_owned()
    );
}

#[test]
fn remote_spec_parses_like_the_pattern() {
    let (u, h, p) = parse_remote_spec("alice@example.com:/srv/files").unwrap();
    assert_eq!(u, "alice");
    assert_eq!(h, "example.com");
    assert_eq!(p, "/srv/files");

    let (u2, h2, p2) = parse_remote_spec("a.b_c-d@h-1.example:x:y").unwrap();
    assert_eq!(u2, "a.b_c-d");
    assert_eq!(h2, "h-1.example");
    assert_eq!(p2, "x:y");

    let (_, _, empty) = parse_remote_spec("u@h:").unwrap();
    assert_eq!(empty, "");

    assert!(parse_remote_spec("no-at-sign:path").is_none());
    assert!(parse_remote_spec("@host:path").is_none());
    assert!(parse_remote_spec("user@:path").is_none());
    assert!(parse_remote_spec("user@host path").is_none());
    assert!(parse_remote_spec("us er@host:path").is_none());
}

#[test]
fn ssh_command_parse_and_port_default() {
    let c = SSHCommand::parse("bob@mirror.example").unwrap();
    assert_eq!(c.username, "bob");
    assert_eq!(c.host, "mirror.example");
    assert_eq!(c.port, 22);
    assert_eq!(c.password, None);
    assert_eq!(c.remote_cmd, "");

    let c2 = SSHCommand::parse("bob@mirror.example:2222").unwrap();
    assert_eq!(c2.port, 2222);

    assert!(SSHCommand::parse("mirror.example").is_none());
    assert!(SSHCommand::parse("bob@mirror.example:notaport").is_none());
    assert!(SSHCommand::parse("bob@mirror.example:70000").is_none());
}

#[test]
fn port_parsing() {
    assert_eq!(parse_u16("22"), Some(22));
    assert_eq!(parse_u16("0"), Some(0));
    assert_eq!(parse_u16("65535"), Some(65535));
    assert_eq!(parse_u16("65536"), None);
    assert_eq!(parse_u16(""), None);
    assert_eq!(parse_u16("2x"), None);
}

#[test]
fn cli_converts_to_session_options() {
    let cli = Cli {
        server: false,
        from: Some("/local".to_owned()),
        to: Some("/remote".to_owned()),
        port: 22,
        exclude: Some(vec![".git".to_owned()]),
        dry_run: true,
        verbose: false,
        delete: true,
        recursive: true,
    };
    let opts = ClientServerOpts::from_cli(&cli);
    assert_eq!(opts.to, "/remote");
    assert!(opts.dry_run && opts.delete && opts.recursive && !opts.verbose);
    assert_eq!(opts.exclude, vec![".git".to_owned()]);

    let bare = Cli {
        server: true,
        from: None,
        to: None,
        port: 22,
        exclude: None,
        dry_run: false,
        verbose: false,
        delete: false,
        recursive: false,
    };
    let opts2 = ClientServerOpts::from_cli(&bare);
    assert_eq!(opts2.to, "");
    assert!(opts2.exclude.is_empty());
}

#[test]
fn ssh_command_new_keeps_fields() {
    let c = SSHCommand::new(
        "host".to_owned(),
        2022,
        "user".to_owned(),
        Some("pw".to_owned()),
        "mirror --server".to_owned(),
    );
    assert_eq!(c.host, "host");
    assert_eq!(c.port, 2022);
    assert_eq!(c.username, "user");
    assert_eq!(c.password.as_deref(), Some("pw"));
    assert_eq!(c.remote_cmd, "mirror --server");
}
