//! Reading a media probe's JSON report and formatting durations.

use vstd::prelude::*;

use crate::catalog::{opt_view, probe_tag_map, raw_pair_views, ProbeTags};
use crate::text::{append_chars, decimal, decimal2, decimal_chars, string_of};

verus! {

/// The parts of a probe report that the catalog reads: the `format.duration` text and the
/// `format.tags` entries (a value is `None` when it is not a JSON string).
pub struct ProbeReport {
    pub duration: Option<String>,
    pub tags: Vec<(String, Option<String>)>,
}

/// What `serde_json::from_slice` makes of a probe's standard output, read as the
/// `format.duration` string and the `format.tags` entries in the order serde_json's map
/// yields them; `None` when the bytes are not JSON.
pub uninterp spec fn probe_report_of(stdout: Seq<u8>) -> Option<
    (Option<Seq<char>>, Seq<(Seq<char>, Option<Seq<char>>)>),
>;

/// The view of a probe report.
pub open spec fn report_view(r: ProbeReport) -> (Option<Seq<char>>, Seq<(Seq<char>, Option<Seq<char>>)>) {
    (opt_view(r.duration), raw_pair_views(r.tags@))
}

/// Parses a probe's standard output with `serde_json::from_slice` and picks
/// `format.duration` (as a string) and the entries of `format.tags`.
///
/// The contract names the result only: JSON syntax is not restated.
#[verifier::external_body]
fn read_probe_report(stdout: &[u8]) -> (r: Option<ProbeReport>)
    ensures
        r matches Some(rep) ==> probe_report_of(stdout@) == Some(report_view(rep)),
        r is None ==> probe_report_of(stdout@) is None,
{
    let j: serde_json::Value = serde_json::from_slice(stdout).ok()?;
    let fmt = &j["format"];
    let duration = fmt["duration"].as_str().map(|s| s.to_string());
    let tags = match fmt["tags"].as_object() {
        Some(obj) => obj.iter().map(|(k, v)| (k.clone(), v.as_str().map(|s| s.to_string()))).collect(),
        None => Vec::new(),
    };
    Some(ProbeReport { duration, tags })
}

/// The duration text and tag map a probe report yields; nothing when it is not JSON.
pub open spec fn probe_meta_spec(stdout: Seq<u8>) -> (Option<Seq<char>>, Map<Seq<char>, Seq<char>>) {
    match probe_report_of(stdout) {
        Some((d, pairs)) => (d, probe_tag_map(pairs)),
        None => (None, Map::empty()),
    }
}

/// The duration text and lowercased tag map from a probe's JSON output. Output that is not
/// JSON yields no duration and no tags.
pub fn probe_meta(stdout: &[u8]) -> (r: (Option<String>, ProbeTags))
    ensures
        (opt_view(r.0), r.1@) == probe_meta_spec(stdout@),
{
    match read_probe_report(stdout) {
        Some(rep) => {
            let ProbeReport { duration, tags } = rep;
            (duration, ProbeTags::from_probe_pairs(tags))
        },
        None => (None, ProbeTags::new()),
    }
}

/// `m:ss`: the minutes, a colon, and the seconds padded to two digits.
pub open spec fn duration_text(minutes: nat, seconds: nat) -> Seq<char> {
    decimal(minutes) + seq![':'] + decimal2(seconds)
}

/// Formats a duration as `m:ss` (`format!("{}:{:02}", m, s)`).
pub fn format_duration(minutes: u64, seconds: u64) -> (r: String)
    ensures
        r@ == duration_text(minutes as nat, seconds as nat),
{
    let mut out = decimal_chars(minutes);
    out.push(':');
    if seconds < 10 {
        out.push('0');
    }
    let s = decimal_chars(seconds);
    append_chars(&mut out, &s);
    proof {
        if seconds < 10 {
            assert(decimal(seconds as nat) == seq![crate::text::digit_char(seconds as nat)]);
        }
    }
    assert(out@ =~= duration_text(minutes as nat, seconds as nat));
    string_of(&out)
}

} // verus!
