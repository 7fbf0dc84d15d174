//! The local media server's decisions: which file a request names, and what part of it
//! a `Range` header asks for.

use vstd::prelude::*;

use crate::text::{
    append_chars, chars_of, decimal, decimal_chars, parse_u64, parse_unsigned, string_of, trim,
    trim_chars,
};

verus! {

// ---------------------------------------------------------------------------
// Request targets
// ---------------------------------------------------------------------------

/// What `urlencoding::decode` returns for a string: the percent-decoded text, or `None`
/// when the decoded bytes are not UTF-8.
pub uninterp spec fn percent_decode(s: Seq<char>) -> Option<Seq<char>>;

/// Percent-decodes a URL path (`urlencoding::decode`).
///
/// Besides naming the result, the contract states what the crate's source shows for text
/// without `%`: it is returned unchanged.
#[verifier::external_body]
fn url_decode(s: &str) -> (r: Option<String>)
    ensures
        r matches Some(d) ==> percent_decode(s@) == Some(d@),
        r is None ==> percent_decode(s@) is None,
        r is None ==> s@.contains('%'),
        r matches Some(d) ==> (!s@.contains('%') ==> d@ == s@),
{
    urlencoding::decode(s).ok().map(|c| c.into_owned())
}

/// `s` without its leading `/` characters.
pub open spec fn strip_leading_slashes(s: Seq<char>) -> Seq<char>
    decreases s.len(),
{
    if s.len() > 0 && s[0] == '/' {
        strip_leading_slashes(s.drop_first())
    } else {
        s
    }
}

/// The file a request URL names: the URL without leading `/`, percent-decoded; empty when
/// the decoding fails.
pub open spec fn request_target_spec(url: Seq<char>) -> Seq<char> {
    match percent_decode(strip_leading_slashes(url)) {
        Some(d) => d,
        None => Seq::empty(),
    }
}

proof fn lemma_strip_slashes_at(s: Seq<char>, i: int)
    requires
        0 <= i <= s.len(),
        forall|k: int| 0 <= k < i ==> s[k] == '/',
        i == s.len() || s[i] != '/',
    ensures
        strip_leading_slashes(s) == s.subrange(i, s.len() as int),
    decreases i,
{
    if i == 0 {
        assert(s.subrange(0, s.len() as int) == s);
    } else {
        let t = s.drop_first();
        assert forall|k: int| 0 <= k < i - 1 implies t[k] == '/' by {
            assert(t[k] == s[k + 1]);
        }
        lemma_strip_slashes_at(t, i - 1);
        assert(t.subrange(i - 1, t.len() as int) == s.subrange(i, s.len() as int));
    }
}

/// The relative file name a request asks for (empty for the root or an undecodable path).
pub fn request_target(url: &str) -> (r: String)
    ensures
        r@ == request_target_spec(url@),
        !url@.contains('%') ==> r@ == strip_leading_slashes(url@),
{
    let c = chars_of(url);
    let mut i: usize = 0;
    while i < c.len() && c[i] == '/'
        invariant
            i <= c.len(),
            forall|k: int| 0 <= k < i ==> c@[k] == '/',
        decreases c.len() - i,
    {
        i = i + 1;
    }
    proof {
        lemma_strip_slashes_at(c@, i as int);
    }
    let mut rest: Vec<char> = Vec::new();
    let mut k = i;
    while k < c.len()
        invariant
            i <= k <= c.len(),
            rest@ == c@.subrange(i as int, k as int),
        decreases c.len() - k,
    {
        rest.push(c[k]);
        k = k + 1;
        assert(c@.subrange(i as int, k as int) == c@.subrange(i as int, k - 1).push(c@[k - 1]));
    }
    let s = string_of(&rest);
    proof {
        if !url@.contains('%') {
            assert forall|j: int| 0 <= j < rest@.len() implies rest@[j] != '%' by {
                assert(rest@[j] == c@[j + i]);
            }
            assert(!s@.contains('%'));
        }
    }
    match url_decode(s.as_str()) {
        Some(d) => d,
        None => String::new(),
    }
}

// ---------------------------------------------------------------------------
// Byte ranges
// ---------------------------------------------------------------------------

pub open spec fn bytes_prefix() -> Seq<char> {
    seq!['b', 'y', 't', 'e', 's', '=']
}

/// The pieces of `s` between `-` separators (`str::split('-')`).
pub open spec fn split_dash(s: Seq<char>) -> Seq<Seq<char>>
    decreases s.len(),
{
    if s.len() == 0 {
        seq![Seq::empty()]
    } else {
        let prev = split_dash(s.drop_last());
        if s.last() == '-' {
            prev.push(Seq::empty())
        } else {
            prev.update(prev.len() - 1, prev.last().push(s.last()))
        }
    }
}

/// A `Range` header value: `bytes=<start>-<end>`, the start required, the end `u64::MAX`
/// when it is missing or not a number.
pub open spec fn parse_range_spec(h: Seq<char>) -> Option<(u64, u64)> {
    if h.len() >= 6 && h.subrange(0, 6) == bytes_prefix() {
        let parts = split_dash(h.subrange(6, h.len() as int));
        match parse_unsigned(trim(parts[0]), u64::MAX as nat) {
            Some(start) => Some(
                (
                    start as u64,
                    if parts.len() > 1 {
                        match parse_unsigned(trim(parts[1]), u64::MAX as nat) {
                            Some(e) => e as u64,
                            None => u64::MAX,
                        }
                    } else {
                        u64::MAX
                    },
                ),
            ),
            None => None,
        }
    } else {
        None
    }
}

/// The first two `-`-separated pieces of `s` (the second when there is one).
fn first_two_pieces(s: &Vec<char>) -> (r: (Vec<char>, Option<Vec<char>>))
    ensures
        r.0@ == split_dash(s@)[0],
        match r.1 {
            Some(p) => split_dash(s@).len() > 1 && p@ == split_dash(s@)[1],
            None => split_dash(s@).len() == 1,
        },
{
    let mut first: Vec<char> = Vec::new();
    let mut second: Vec<char> = Vec::new();
    let mut pieces: usize = 1;
    let mut i: usize = 0;
    while i < s.len()
        invariant
            i <= s.len(),
            1 <= pieces,
            pieces as int == (if split_dash(s@.take(i as int)).len() < 3 {
                split_dash(s@.take(i as int)).len() as int
            } else {
                3
            }),
            split_dash(s@.take(i as int)).len() >= 1,
            first@ == split_dash(s@.take(i as int))[0],
            pieces >= 2 ==> second@ == split_dash(s@.take(i as int))[1],
            pieces < 2 ==> second@.len() == 0,
        decreases s.len() - i,
    {
        let c = s[i];
        let ghost prev = split_dash(s@.take(i as int));
        assert(s@.take(i + 1).drop_last() == s@.take(i as int));
        assert(s@.take(i + 1).last() == c);
        assert(split_dash(s@.take(i + 1)) == if c == '-' {
            prev.push(Seq::empty())
        } else {
            prev.update(prev.len() - 1, prev.last().push(c))
        });
        if c == '-' {
            if pieces < 3 {
                pieces = pieces + 1;
            }
        } else {
            if pieces == 1 {
                first.push(c);
            } else if pieces == 2 {
                second.push(c);
            }
        }
        i = i + 1;
        proof {
            if pieces == 2 && c == '-' {
                assert(second@ =~= Seq::<char>::empty());
            }
        }
    }
    assert(s@.take(s.len() as int) == s@);
    if pieces >= 2 {
        (first, Some(second))
    } else {
        (first, None)
    }
}

/// Parses a `Range: bytes=<start>-<end>` header.
pub fn parse_range(h: &str) -> (r: Option<(u64, u64)>)
    ensures
        r == parse_range_spec(h@),
{
    let c = chars_of(h);
    let prefix = vec!['b', 'y', 't', 'e', 's', '='];
    assert(prefix@ =~= bytes_prefix());
    if !crate::text::starts_with_chars(&c, &prefix) {
        return None;
    }
    let mut rest: Vec<char> = Vec::new();
    let mut k: usize = 6;
    while k < c.len()
        invariant
            6 <= k <= c.len(),
            rest@ == c@.subrange(6, k as int),
        decreases c.len() - k,
    {
        rest.push(c[k]);
        k = k + 1;
        assert(c@.subrange(6, k as int) == c@.subrange(6, k - 1).push(c@[k - 1]));
    }
    let (first, second) = first_two_pieces(&rest);
    let start = match parse_u64(&trim_chars(&first)) {
        Some(v) => v,
        None => {
            return None;
        },
    };
    let end = match second {
        Some(p) => match parse_u64(&trim_chars(&p)) {
            Some(e) => e,
            None => u64::MAX,
        },
        None => u64::MAX,
    };
    Some((start, end))
}

/// The part of a file a response carries.
#[derive(PartialEq, Eq, Structural, Clone, Copy, Debug)]
pub enum RangePlan {
    /// The whole file, status 200.
    Full,
    /// Bytes `start..=end`, status 206.
    Partial { start: u64, end: u64 },
}

/// A satisfiable range of a non-empty file is served partially, with the end clamped to
/// the last byte; anything else serves the whole file.
pub open spec fn range_plan_spec(range: Option<Seq<char>>, size: u64) -> RangePlan {
    match range {
        Some(h) => match parse_range_spec(h) {
            Some((s, e)) => if size > 0 {
                let end = if e < size - 1 {
                    e
                } else {
                    (size - 1) as u64
                };
                if s <= end {
                    RangePlan::Partial { start: s, end }
                } else {
                    RangePlan::Full
                }
            } else {
                RangePlan::Full
            },
            None => RangePlan::Full,
        },
        None => RangePlan::Full,
    }
}

/// What to send for a request with the given `Range` header and file size.
pub fn plan_range(range: Option<&str>, size: u64) -> (r: RangePlan)
    ensures
        r == range_plan_spec(
            match range {
                Some(h) => Some(h@),
                None => None,
            },
            size,
        ),
        r matches RangePlan::Partial { start, end } ==> start <= end < size,
{
    match range {
        Some(h) => match parse_range(h) {
            Some((s, e)) => {
                if size > 0 {
                    let end = if e < size - 1 {
                        e
                    } else {
                        size - 1
                    };
                    if s <= end {
                        RangePlan::Partial { start: s, end }
                    } else {
                        RangePlan::Full
                    }
                } else {
                    RangePlan::Full
                }
            },
            None => RangePlan::Full,
        },
        None => RangePlan::Full,
    }
}

/// The range rules: a `Range` header that parses to `(s, e)` on a non-empty file is served
/// partially exactly when `s <= e` and `s` lies inside the file; the part starts at `s` and
/// ends at `e`, or at the last byte when `e` lies past it. Whatever the header, a partial
/// part lies inside the file, and a file served without a parsed range is served whole.
pub proof fn law_range_plan(range: Option<Seq<char>>, size: u64)
    ensures
        range_plan_spec(range, size) matches RangePlan::Partial { start, end } ==> start <= end
            < size,
        match range {
            Some(h) => match parse_range_spec(h) {
                Some((s, e)) => {
                    &&& (size > 0 && s <= e && s < size) <==> range_plan_spec(range, size) is Partial
                    &&& (s <= e && e < size) ==> range_plan_spec(range, size) == (RangePlan::Partial {
                        start: s,
                        end: e,
                    })
                    &&& (s < size && size <= e) ==> range_plan_spec(range, size) == (
                    RangePlan::Partial { start: s, end: (size - 1) as u64 })
                },
                None => range_plan_spec(range, size) == RangePlan::Full,
            },
            None => range_plan_spec(range, size) == RangePlan::Full,
        },
{
}

/// `bytes <start>-<end>/<size>`.
pub open spec fn content_range_spec(start: nat, end: nat, size: nat) -> Seq<char> {
    seq!['b', 'y', 't', 'e', 's', ' '] + decimal(start) + seq!['-'] + decimal(end) + seq!['/']
        + decimal(size)
}

/// The `Content-Range` value of a partial response.
pub fn content_range(start: u64, end: u64, size: u64) -> (r: String)
    ensures
        r@ == content_range_spec(start as nat, end as nat, size as nat),
{
    let mut out = vec!['b', 'y', 't', 'e', 's', ' '];
    append_chars(&mut out, &decimal_chars(start));
    out.push('-');
    append_chars(&mut out, &decimal_chars(end));
    out.push('/');
    append_chars(&mut out, &decimal_chars(size));
    assert(out@ =~= content_range_spec(start as nat, end as nat, size as nat));
    string_of(&out)
}

} // verus!

verus! {

// ---------------------------------------------------------------------------
// Routing a request
// ---------------------------------------------------------------------------

/// A path separator: `/` everywhere, and `\\` too where the paths are Windows paths.
pub open spec fn is_sep(c: char, windows: bool) -> bool {
    c == '/' || (windows && c == '\\')
}

/// The components of a relative path, split at every separator.
pub open spec fn path_components(s: Seq<char>, windows: bool) -> Seq<Seq<char>>
    decreases s.len(),
{
    if s.len() == 0 {
        seq![Seq::empty()]
    } else {
        let prev = path_components(s.drop_last(), windows);
        if is_sep(s.last(), windows) {
            prev.push(Seq::empty())
        } else {
            prev.update(prev.len() - 1, prev.last().push(s.last()))
        }
    }
}

proof fn lemma_path_components_len(s: Seq<char>, windows: bool)
    ensures
        path_components(s, windows).len() >= 1,
    decreases s.len(),
{
    if s.len() > 0 {
        lemma_path_components_len(s.drop_last(), windows);
    }
}

/// Whether a relative path stays inside the folder it is joined to: it does not start at a
/// root (a separator), no component is `..`, and, for Windows paths, its first component
/// names no drive or prefix (no `:`).
pub open spec fn rel_inside_spec(s: Seq<char>, windows: bool) -> bool {
    let comps = path_components(s, windows);
    &&& !(s.len() > 0 && is_sep(s[0], windows))
    &&& !(windows && comps[0].contains(':'))
    &&& forall|i: int| 0 <= i < comps.len() ==> #[trigger] comps[i] != seq!['.', '.']
}

/// The views of a list of character vectors.
pub open spec fn chars_views(v: Seq<Vec<char>>) -> Seq<Seq<char>> {
    v.map_values(|x: Vec<char>| x@)
}

fn components(s: &Vec<char>, windows: bool) -> (r: Vec<Vec<char>>)
    ensures
        chars_views(r@) == path_components(s@, windows),
{
    let mut out: Vec<Vec<char>> = Vec::new();
    out.push(Vec::new());
    assert(chars_views(out@) =~= path_components(s@.take(0), windows));
    let mut i: usize = 0;
    while i < s.len()
        invariant
            i <= s.len(),
            out.len() >= 1,
            chars_views(out@) == path_components(s@.take(i as int), windows),
        decreases s.len() - i,
    {
        let c = s[i];
        let ghost prev = chars_views(out@);
        assert(s@.take(i + 1).drop_last() == s@.take(i as int));
        assert(s@.take(i + 1).last() == c);
        if c == '/' || (windows && c == '\\') {
            out.push(Vec::new());
            assert(chars_views(out@) =~= prev.push(Seq::empty()));
        } else {
            let mut last = out.pop().unwrap();
            last.push(c);
            out.push(last);
            assert(chars_views(out@) =~= prev.update(prev.len() - 1, prev.last().push(c)));
        }
        i = i + 1;
    }
    assert(s@.take(s.len() as int) == s@);
    out
}

/// Whether a decoded relative path stays inside the library folder (see `rel_inside_spec`);
/// `windows` says whether paths are read as Windows reads them.
pub fn rel_path_inside(rel: &str, windows: bool) -> (r: bool)
    ensures
        r == rel_inside_spec(rel@, windows),
{
    let c = chars_of(rel);
    if c.len() > 0 && (c[0] == '/' || (windows && c[0] == '\\')) {
        return false;
    }
    let comps = components(&c, windows);
    let ghost cv = chars_views(comps@);
    proof {
        lemma_path_components_len(c@, windows);
    }
    assert(comps@.len() == cv.len());
    assert(cv[0] == comps@[0]@);
    if windows {
        let mut k: usize = 0;
        while k < comps[0].len()
            invariant
                windows,
                comps.len() >= 1,
                k <= comps@[0].len(),
                cv == chars_views(comps@),
                cv == path_components(rel@, windows),
                cv[0] == comps@[0]@,
                forall|j: int| 0 <= j < k ==> comps@[0]@[j] != ':',
            decreases comps[0].len() - k,
        {
            if comps[0][k] == ':' {
                assert(cv[0][k as int] == ':');
                return false;
            }
            k = k + 1;
        }
        assert(!cv[0].contains(':')) by {
            assert(cv[0] == comps@[0]@);
        }
    }
    let mut i: usize = 0;
    while i < comps.len()
        invariant
            i <= comps.len(),
            cv == chars_views(comps@),
            cv == path_components(rel@, windows),
            !(rel@.len() > 0 && is_sep(rel@[0], windows)),
            !(windows && cv[0].contains(':')),
            forall|j: int| 0 <= j < i ==> #[trigger] cv[j] != seq!['.', '.'],
        decreases comps.len() - i,
    {
        let dd = comps[i].len() == 2 && comps[i][0] == '.' && comps[i][1] == '.';
        assert(cv[i as int] == comps@[i as int]@);
        if dd {
            assert(cv[i as int] =~= seq!['.', '.']);
            return false;
        }
        i = i + 1;
    }
    true
}

/// How the server answers a request.
#[derive(PartialEq, Eq, Structural, Clone, Copy, Debug)]
pub enum Reply {
    /// The root: a plain banner.
    Banner,
    /// No served file by that name: 404.
    NotFound,
    /// The file, whole or in part.
    Serve(RangePlan),
}

/// The root gets the banner; a name that leaves the library folder, or is not a file, gets
/// 404; a file is served as its `Range` header and size call for.
pub open spec fn reply_spec(
    target: Seq<char>,
    windows: bool,
    is_file: bool,
    size: u64,
    range: Option<Seq<char>>,
) -> Reply {
    if target.len() == 0 {
        Reply::Banner
    } else if !rel_inside_spec(target, windows) || !is_file {
        Reply::NotFound
    } else {
        Reply::Serve(range_plan_spec(range, size))
    }
}

/// Decides the answer to a request for `target` (see `request_target`), given whether paths
/// are Windows paths, whether the library root joined with `target` is a file, its size and
/// the `Range` header. Nothing whose path leaves the library folder is ever served.
pub fn route_request(
    target: &str,
    windows: bool,
    is_file: bool,
    size: u64,
    range: Option<&str>,
) -> (r: Reply)
    ensures
        r == reply_spec(
            target@,
            windows,
            is_file,
            size,
            match range {
                Some(h) => Some(h@),
                None => None,
            },
        ),
        r is Serve ==> rel_inside_spec(target@, windows) && is_file,
{
    if target.is_empty() {
        Reply::Banner
    } else if !rel_path_inside(target, windows) || !is_file {
        Reply::NotFound
    } else {
        Reply::Serve(plan_range(range, size))
    }
}

} // verus!
