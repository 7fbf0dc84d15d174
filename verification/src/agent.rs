//! The agent's decisions around the tunnel, catalog registration and reporting.

use vstd::prelude::*;

use crate::catalog::opt_view;
use crate::text::{append_chars, chars_of, decimal, decimal_chars, find_chars, find_first, string_of};

verus! {

// ---------------------------------------------------------------------------
// Tunnel discovery
// ---------------------------------------------------------------------------

pub open spec fn https_marker() -> Seq<char> {
    seq!['h', 't', 't', 'p', 's', ':', '/', '/']
}

pub open spec fn quick_tunnel_suffix() -> Seq<char> {
    seq!['.', 't', 'r', 'y', 'c', 'l', 'o', 'u', 'd', 'f', 'l', 'a', 'r', 'e', '.', 'c', 'o', 'm']
}

/// The quick-tunnel URL in a line of cloudflared output: from the first `https://` through
/// the first `.trycloudflare.com` after it.
pub open spec fn tunnel_url_spec(line: Seq<char>) -> Option<Seq<char>> {
    match find_first(line, https_marker()) {
        Some(s) => {
            let rest = line.skip(s);
            match find_first(rest, quick_tunnel_suffix()) {
                Some(e) => Some(rest.take(e + quick_tunnel_suffix().len())),
                None => None,
            }
        },
        None => None,
    }
}

/// Finds the quick-tunnel URL that cloudflared prints, if the line holds one.
pub fn extract_tunnel(line: &str) -> (r: Option<String>)
    ensures
        opt_view(r) == tunnel_url_spec(line@),
        r matches Some(u) ==> u@.len() >= 26 && u@.subrange(0, 8) == https_marker() && u@.subrange(
            u@.len() - 18,
            u@.len() as int,
        ) == quick_tunnel_suffix(),
{
    let c = chars_of(line);
    let marker = vec!['h', 't', 't', 'p', 's', ':', '/', '/'];
    assert(marker@ =~= https_marker());
    let start = match find_chars(&c, &marker) {
        Some(s) => s,
        None => {
            return None;
        },
    };
    proof {
        crate::text::lemma_find_first_bound(c@, marker@);
    }
    let mut rest: Vec<char> = Vec::new();
    let mut k = start;
    while k < c.len()
        invariant
            start <= k <= c.len(),
            rest@ == c@.subrange(start as int, k as int),
        decreases c.len() - k,
    {
        rest.push(c[k]);
        k = k + 1;
        assert(c@.subrange(start as int, k as int) == c@.subrange(start as int, k - 1).push(
            c@[k - 1],
        ));
    }
    assert(rest@ == c@.skip(start as int));
    let suffix = vec![
        '.', 't', 'r', 'y', 'c', 'l', 'o', 'u', 'd', 'f', 'l', 'a', 'r', 'e', '.', 'c', 'o', 'm',
    ];
    assert(suffix@ =~= quick_tunnel_suffix());
    let e = match find_chars(&rest, &suffix) {
        Some(e) => e,
        None => {
            return None;
        },
    };
    proof {
        crate::text::lemma_find_first_bound(rest@, suffix@);
    }
    let end = e + 18;
    let mut out: Vec<char> = Vec::new();
    let mut k: usize = 0;
    while k < end
        invariant
            k <= end <= rest.len(),
            out@ == rest@.take(k as int),
        decreases end - k,
    {
        out.push(rest[k]);
        k = k + 1;
        assert(rest@.take(k as int) == rest@.take(k - 1).push(rest@[k - 1]));
    }
    proof {
        assert(crate::text::occurs_at(rest@, suffix@, e as int));
        assert(crate::text::occurs_at(c@, marker@, start as int));
        if e < 8 {
            // "https://" and ".trycloudflare.com" cannot overlap at the front of `rest`:
            // the marker's first character is 'h', the suffix's is '.'.
            assert(rest@[0] == c@[start as int]);
            assert(c@.subrange(start as int, start + 8)[0] == 'h');
            assert(rest@.subrange(e as int, e + 18)[0] == '.');
        }
        assert(out@.subrange(0, 8) =~= rest@.subrange(0, 8));
        assert(rest@.subrange(0, 8) =~= c@.subrange(start as int, start + 8));
        assert(out@.subrange(out@.len() - 18, out@.len() as int) =~= rest@.subrange(
            e as int,
            e + 18,
        ));
    }
    Some(string_of(&out))
}

// ---------------------------------------------------------------------------
// Starting the agent
// ---------------------------------------------------------------------------

/// How the agent is started.
pub struct StartPlan {
    /// The local port the media server listens on.
    pub port: u16,
    /// Named token mode (a provisioned tunnel) rather than a quick tunnel.
    pub named: bool,
    /// The arguments cloudflared is run with.
    pub cloudflared_args: Vec<String>,
}

pub open spec fn default_port() -> u16 {
    8787
}

pub open spec fn no_media_message() -> Seq<char> {
    "No audio/video files in that folder"@
}

/// The `cloudflared` arguments: `tunnel run --token <token>` in named mode,
/// `tunnel --url http://localhost:<port>` otherwise.
pub open spec fn cloudflared_args_spec(named: bool, token: Seq<char>, port: u16) -> Seq<Seq<char>> {
    if named {
        seq![
            seq!['t', 'u', 'n', 'n', 'e', 'l'],
            seq!['r', 'u', 'n'],
            seq!['-', '-', 't', 'o', 'k', 'e', 'n'],
            token,
        ]
    } else {
        seq![
            seq!['t', 'u', 'n', 'n', 'e', 'l'],
            seq!['-', '-', 'u', 'r', 'l'],
            seq!['h', 't', 't', 'p', ':', '/', '/', 'l', 'o', 'c', 'a', 'l', 'h', 'o', 's', 't', ':']
                + decimal(port as nat),
        ]
    }
}

/// Named mode runs when a non-empty tunnel token is configured; the port defaults to 8787.
pub open spec fn start_plan_ok(
    plan: StartPlan,
    port: Option<u16>,
    token: Option<Seq<char>>,
) -> bool {
    let p = match port {
        Some(p) => p,
        None => default_port(),
    };
    let named = match token {
        Some(t) => t.len() > 0,
        None => false,
    };
    &&& plan.port == p
    &&& plan.named == named
    &&& crate::order::views(plan.cloudflared_args@) == cloudflared_args_spec(
        named,
        match token {
            Some(t) => t,
            None => Seq::empty(),
        },
        p,
    )
}

/// The start rules: the server listens on the configured port, 8787 when none is set; a
/// non-empty tunnel token runs the named tunnel with that token, and otherwise the quick
/// tunnel forwards to `http://localhost:<port>` on the very port the server listens on.
pub proof fn law_start_plan(plan: StartPlan, port: Option<u16>, token: Option<Seq<char>>)
    requires
        start_plan_ok(plan, port, token),
    ensures
        plan.port == (match port {
            Some(p) => p,
            None => 8787u16,
        }),
        plan.named <==> (token matches Some(t) && t.len() > 0),
        plan.named ==> crate::order::views(plan.cloudflared_args@) == seq![
            "tunnel"@,
            "run"@,
            "--token"@,
            token.unwrap(),
        ],
        !plan.named ==> crate::order::views(plan.cloudflared_args@) == seq![
            "tunnel"@,
            "--url"@,
            "http://localhost:"@ + decimal(plan.port as nat),
        ],
{
    reveal_strlit("tunnel");
    reveal_strlit("run");
    reveal_strlit("--token");
    reveal_strlit("--url");
    reveal_strlit("http://localhost:");
    assert(seq!['t', 'u', 'n', 'n', 'e', 'l'] =~= "tunnel"@);
    assert(seq!['r', 'u', 'n'] =~= "run"@);
    assert(seq!['-', '-', 't', 'o', 'k', 'e', 'n'] =~= "--token"@);
    assert(seq!['-', '-', 'u', 'r', 'l'] =~= "--url"@);
    assert(seq!['h', 't', 't', 'p', ':', '/', '/', 'l', 'o', 'c', 'a', 'l', 'h', 'o', 's', 't', ':']
        =~= "http://localhost:"@);
}

fn string_lit(v: Vec<char>) -> (s: String)
    ensures
        s@ == v@,
{
    string_of(&v)
}

/// Decides how to start: refuses an empty catalog, then picks the port, the tunnel mode and
/// the cloudflared arguments.
pub fn plan_start(track_count: usize, port: Option<u16>, tunnel_token: Option<String>) -> (r: Result<
    StartPlan,
    String,
>)
    ensures
        track_count == 0 <==> r is Err,
        r matches Err(e) ==> e@ == no_media_message(),
        r matches Ok(plan) ==> start_plan_ok(plan, port, opt_view(tunnel_token)),
{
    if track_count == 0 {
        return Err(String::from_str("No audio/video files in that folder"));
    }
    let p: u16 = match port {
        Some(p) => p,
        None => 8787,
    };
    let named = match &tunnel_token {
        Some(t) => !t.as_str().is_empty(),
        None => false,
    };
    let mut args: Vec<String> = Vec::new();
    args.push(string_lit(vec!['t', 'u', 'n', 'n', 'e', 'l']));
    if named {
        args.push(string_lit(vec!['r', 'u', 'n']));
        args.push(string_lit(vec!['-', '-', 't', 'o', 'k', 'e', 'n']));
        let token = match tunnel_token {
            Some(t) => t,
            None => String::new(),
        };
        args.push(token);
        assert(crate::order::views(args@) =~= cloudflared_args_spec(
            named,
            opt_view(Some(token)).unwrap(),
            p,
        ));
    } else {
        args.push(string_lit(vec!['-', '-', 'u', 'r', 'l']));
        let mut url = vec![
            'h', 't', 't', 'p', ':', '/', '/', 'l', 'o', 'c', 'a', 'l', 'h', 'o', 's', 't', ':',
        ];
        append_chars(&mut url, &decimal_chars(p as u64));
        args.push(string_of(&url));
        assert(crate::order::views(args@) =~= cloudflared_args_spec(
            named,
            match opt_view(tunnel_token) {
                Some(t) => t,
                None => Seq::empty(),
            },
            p,
        ));
    }
    Ok(StartPlan { port: p, named, cloudflared_args: args })
}

// ---------------------------------------------------------------------------
// Status
// ---------------------------------------------------------------------------

/// What the desktop shell shows about the agent.
pub struct Status {
    pub running: bool,
    pub tunnel_url: Option<String>,
    pub track_count: usize,
    pub message: String,
}

impl Default for Status {
    /// Stopped, with no tunnel, no tracks and no message.
    fn default() -> (s: Status)
        ensures
            !s.running,
            s.tunnel_url is None,
            s.track_count == 0,
            s.message@ == Seq::<char>::empty(),
    {
        Status { running: false, tunnel_url: None, track_count: 0, message: String::new() }
    }
}

/// The status line after registering: `<n> tracks live`, or why the registration failed.
pub open spec fn start_message_spec(register: Result<usize, Seq<char>>) -> Seq<char> {
    match register {
        Ok(n) => decimal(n as nat) + " tracks live"@,
        Err(e) => "Serving, but register failed: "@ + e,
    }
}

/// The status of a started agent.
pub fn started_status(
    tunnel_marker: Option<String>,
    track_count: usize,
    register: Result<usize, String>,
) -> (s: Status)
    ensures
        s.running,
        opt_view(s.tunnel_url) == opt_view(tunnel_marker),
        s.track_count == track_count,
        s.message@ == start_message_spec(
            match register {
                Ok(n) => Ok(n),
                Err(e) => Err(e@),
            },
        ),
{
    let message = match register {
        Ok(n) => {
            let d = decimal_chars(n as u64);
            let mut m = string_of(&d);
            m.append(" tracks live");
            m
        },
        Err(e) => {
            let mut m = String::from_str("Serving, but register failed: ");
            m.append(e.as_str());
            m
        },
    };
    Status { running: true, tunnel_url: tunnel_marker, track_count, message }
}

// ---------------------------------------------------------------------------
// Registration
// ---------------------------------------------------------------------------

/// `s` without its trailing `/` characters.
pub open spec fn strip_trailing_slashes(s: Seq<char>) -> Seq<char>
    decreases s.len(),
{
    if s.len() > 0 && s.last() == '/' {
        strip_trailing_slashes(s.drop_last())
    } else {
        s
    }
}

pub open spec fn register_path() -> Seq<char> {
    seq!['/', 'a', 'p', 'i', '/', 'a', 'g', 'e', 'n', 't', '/', 'r', 'e', 'g', 'i', 's', 't', 'e', 'r']
}

/// The register endpoint of a platform base URL.
pub open spec fn register_url_spec(platform_url: Seq<char>) -> Seq<char> {
    strip_trailing_slashes(platform_url) + register_path()
}

proof fn lemma_strip_trailing_at(s: Seq<char>, j: int)
    requires
        0 <= j <= s.len(),
        forall|k: int| j <= k < s.len() ==> s[k] == '/',
        j == 0 || s[j - 1] != '/',
    ensures
        strip_trailing_slashes(s) == s.subrange(0, j),
    decreases s.len() - j,
{
    if j == s.len() {
        assert(s.subrange(0, j) == s);
    } else {
        let t = s.drop_last();
        assert forall|k: int| j <= k < t.len() implies t[k] == '/' by {
            assert(t[k] == s[k]);
        }
        lemma_strip_trailing_at(t, j);
        assert(t.subrange(0, j) == s.subrange(0, j));
    }
}

/// The register endpoint: the platform URL without trailing `/`, then `/api/agent/register`.
pub fn register_url(platform_url: &str) -> (r: String)
    ensures
        r@ == register_url_spec(platform_url@),
{
    let c = chars_of(platform_url);
    let mut j = c.len();
    while j > 0 && c[j - 1] == '/'
        invariant
            j <= c.len(),
            forall|k: int| j <= k < c.len() ==> c@[k] == '/',
        decreases j,
    {
        j = j - 1;
    }
    proof {
        lemma_strip_trailing_at(c@, j as int);
    }
    let mut out: Vec<char> = Vec::new();
    let mut k: usize = 0;
    while k < j
        invariant
            k <= j <= c.len(),
            out@ == c@.subrange(0, k as int),
        decreases j - k,
    {
        out.push(c[k]);
        k = k + 1;
        assert(c@.subrange(0, k as int) == c@.subrange(0, k - 1).push(c@[k - 1]));
    }
    let path = vec![
        '/', 'a', 'p', 'i', '/', 'a', 'g', 'e', 'n', 't', '/', 'r', 'e', 'g', 'i', 's', 't', 'e', 'r',
    ];
    assert(path@ =~= register_path());
    append_chars(&mut out, &path);
    string_of(&out)
}

/// The `Authorization` header value for an agent key.
pub fn bearer(agent_key: &str) -> (r: String)
    ensures
        r@ == "Bearer "@ + agent_key@,
{
    let mut r = String::from_str("Bearer ");
    r.append(agent_key);
    r
}

} // verus!

verus! {

// ---------------------------------------------------------------------------
// The folder watcher
// ---------------------------------------------------------------------------

/// What the folder watcher heard.
#[derive(PartialEq, Eq, Structural, Clone, Copy, Debug)]
pub enum WatchEvent {
    /// The library changed (after the debounce pause and draining the burst).
    Changed,
    /// The re-scan that a change asked for found this many media files.
    Scanned { tracks: usize },
    /// Nothing within the poll interval.
    Quiet,
    /// The watcher's channel closed.
    Closed,
}

/// What the watcher does next.
#[derive(PartialEq, Eq, Structural, Clone, Copy, Debug)]
pub enum WatchAction {
    /// Re-scan the library, then report what the scan found.
    Resync,
    /// Register the catalog that the re-scan built.
    Register,
    /// Keep waiting.
    Wait,
    /// Leave the loop.
    Stop,
}

/// One step of the watcher: a change while the agent runs re-scans, a change after it
/// stopped or a closed channel ends the loop, a re-scan registers its catalog only when the
/// catalog is not empty, and silence keeps waiting.
pub fn watch_step(running: bool, event: WatchEvent) -> (a: WatchAction)
    ensures
        a == (match event {
            WatchEvent::Changed => if running {
                WatchAction::Resync
            } else {
                WatchAction::Stop
            },
            WatchEvent::Scanned { tracks } => if tracks > 0 {
                WatchAction::Register
            } else {
                WatchAction::Wait
            },
            WatchEvent::Quiet => WatchAction::Wait,
            WatchEvent::Closed => WatchAction::Stop,
        }),
{
    match event {
        WatchEvent::Changed => if running {
            WatchAction::Resync
        } else {
            WatchAction::Stop
        },
        WatchEvent::Scanned { tracks } => if tracks > 0 {
            WatchAction::Register
        } else {
            WatchAction::Wait
        },
        WatchEvent::Quiet => WatchAction::Wait,
        WatchEvent::Closed => WatchAction::Stop,
    }
}

} // verus!
