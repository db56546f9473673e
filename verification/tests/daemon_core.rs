use leviticus::cli::Context;
use leviticus::daemon::initialize::{init_dirs, init_files};
use leviticus::daemon::start::is_status_request;
use leviticus::daemon::state::DaemonState;
use leviticus::daemon::{ReloadDaemon, StatusDaemon, StopDaemon};
use leviticus::projection::command::{Deps, Explain, ExplainDoc, View, ViewFork, ViewList};

const QUIET: Context = Context { verbose: false };
const LOUD: Context = Context { verbose: true };

#[test]
fn state_starts_at_zero_and_records_starts() {
    let mut s = DaemonState::default();
    assert_eq!(s, DaemonState { starts: 0, started_at: 0, longest_run: 0 });
    s.record_start(1_700_000_000);
    s.record_start(1_700_000_100);
    assert_eq!(s, DaemonState { starts: 2, started_at: 1_700_000_100, longest_run: 0 });
}

#[test]
fn clock_reads_after_epoch() {
    let t = DaemonState::now().unwrap();
    assert!(t > 1_600_000_000);
}

#[test]
fn status_requests_are_trimmed() {
    assert!(is_status_request(b"status"));
    assert!(is_status_request(b"  status\r\n"));
    assert!(is_status_request(b"\tstatus \x0b\x0c"));
    assert!(is_status_request("\u{3000}status\u{a0}\u{2029}".as_bytes()));
    assert!(is_status_request("\u{85}\u{1680}status\u{200a}\u{202f}\u{205f}".as_bytes()));
    assert!(!is_status_request(b""));
    assert!(!is_status_request(b"stat"));
    assert!(!is_status_request(b"status!"));
    assert!(!is_status_request(b"Status"));
    assert!(!is_status_request(b"x status"));
    assert!(!is_status_request(b"\xffstatus"));
    assert!(!is_status_request(b"status\xc2"));
    assert!(!is_status_request("status\u{200b}".as_bytes()));
    assert!(!is_status_request(b"status status"));
}

#[test]
fn status_request_matches_std_trim() {
    let samples: Vec<Vec<u8>> = vec![
        b" status ".to_vec(),
        "\u{2000}status\u{3000}".as_bytes().to_vec(),
        b"\xe2\x80status".to_vec(),
        b"status\n\n".to_vec(),
        b"sta tus".to_vec(),
    ];
    for s in samples {
        let expected = String::from_utf8_lossy(&s).trim() == "status";
        assert_eq!(is_status_request(&s), expected);
    }
}

#[test]
fn status_client_request_is_answered() {
    let r = StatusDaemon.request();
    assert_eq!(r, b"status".to_vec());
    assert!(is_status_request(&r));
    assert_eq!(StatusDaemon.message(&QUIET), "📊 Daemon status: OK");
}

#[test]
fn stop_and_reload_messages() {
    assert_eq!(StopDaemon.message(&QUIET), "🛑 Stopping daemon");
    assert_eq!(StopDaemon.message(&LOUD), "🛑 Stopping daemon (verbose)");
    assert_eq!(ReloadDaemon.message(&QUIET), "🔄 Reloading daemon");
    assert_eq!(ReloadDaemon.message(&LOUD), "🔄 Reloading daemon (verbose)");
}

#[test]
fn projection_messages() {
    let v = View { name: "rust-dev".to_string() };
    assert_eq!(v.message(&QUIET), "👁️ switching to view: rust-dev");
    let f = ViewFork { name: "mine".to_string() };
    assert_eq!(f.message(&LOUD), "🍴 forking view: mine");
    assert_eq!(ViewList.message(&QUIET), "📋 listing views");
    assert_eq!(Explain.message(&QUIET), "🧠 generating explanation of system state");
    assert_eq!(ExplainDoc.message(&QUIET), "📄 opening explanation document");
    let d = Deps { name: "x".to_string() };
    assert_eq!(d.message(&QUIET), "📄 opening explanation document");
}

#[test]
fn init_layout() {
    assert_eq!(
        init_dirs(),
        vec!["registry", "views", "cache/indexes", "cache/projections", "logs"]
    );
    let files = init_files();
    let names: Vec<&str> = files.iter().map(|(p, _)| p.as_str()).collect();
    assert_eq!(
        names,
        vec![
            "config.toml",
            "state.json",
            "daemon.pid",
            "socket",
            "registry/graph.db",
            "views/default.toml",
            "logs/leviticus.log"
        ]
    );
    assert_eq!(files[0].1, "# leviticus configuration\n\n            version = 1\n            ");
    assert!(files[1].1.contains("\"longest_run\": 0"));
    assert_eq!(files[2].1, "");
    assert_eq!(files[5].1, "# Default view\n\n            name = \"default\"\n            ");
}
