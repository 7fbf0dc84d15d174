use cerberus_agent::agent::{watch_step, WatchAction, WatchEvent};
use cerberus_agent::agent::{bearer, extract_tunnel, plan_start, register_url, started_status, Status};

#[test]
fn tunnel_lines() {
    let line = "2024 INF |  https://fuzzy-cat-42.trycloudflare.com                    |";
    assert_eq!(extract_tunnel(line), Some("https://fuzzy-cat-42.trycloudflare.com".to_string()));
    assert_eq!(extract_tunnel("no url here"), None);
    assert_eq!(extract_tunnel("https://example.com only"), None);
    assert_eq!(
        extract_tunnel("see http://x and https://a.b.trycloudflare.com/path"),
        Some("https://a.b.trycloudflare.com".to_string())
    );
}

#[test]
fn start_plans() {
    let named = plan_start(3, None, Some("tok".into())).unwrap();
    assert_eq!(named.port, 8787);
    assert!(named.named);
    assert_eq!(named.cloudflared_args, vec!["tunnel", "run", "--token", "tok"]);
    let quick = plan_start(3, Some(9000), Some(String::new())).unwrap();
    assert!(!quick.named);
    assert_eq!(quick.cloudflared_args, vec!["tunnel", "--url", "http://localhost:9000"]);
    let quick = plan_start(1, None, None).unwrap();
    assert_eq!(quick.cloudflared_args, vec!["tunnel", "--url", "http://localhost:8787"]);
    assert_eq!(plan_start(0, None, None).err(), Some("No audio/video files in that folder".to_string()));
}

#[test]
fn statuses() {
    let s = started_status(Some("https://x.trycloudflare.com".into()), 4, Ok(4));
    assert!(s.running);
    assert_eq!(s.track_count, 4);
    assert_eq!(s.message, "4 tracks live");
    let s = started_status(None, 2, Err("timeout".into()));
    assert_eq!(s.message, "Serving, but register failed: timeout");
    assert!(s.tunnel_url.is_none());
    let d = Status::default();
    assert!(!d.running && d.tunnel_url.is_none() && d.track_count == 0 && d.message.is_empty());
}

#[test]
fn register_endpoints() {
    assert_eq!(register_url("https://cerberuslive.studio//"), "https://cerberuslive.studio/api/agent/register");
    assert_eq!(register_url("http://localhost:3000"), "http://localhost:3000/api/agent/register");
    assert_eq!(bearer("k-123"), "Bearer k-123");
}

#[test]
fn watcher_steps() {
    assert_eq!(watch_step(true, WatchEvent::Changed), WatchAction::Resync);
    assert_eq!(watch_step(false, WatchEvent::Changed), WatchAction::Stop);
    assert_eq!(watch_step(true, WatchEvent::Quiet), WatchAction::Wait);
    assert_eq!(watch_step(true, WatchEvent::Closed), WatchAction::Stop);
    assert_eq!(watch_step(true, WatchEvent::Scanned { tracks: 3 }), WatchAction::Register);
    assert_eq!(watch_step(false, WatchEvent::Scanned { tracks: 1 }), WatchAction::Register);
    assert_eq!(watch_step(true, WatchEvent::Scanned { tracks: 0 }), WatchAction::Wait);
}
