//! What the bridge reads from ngrok: the authtoken in its config file, the
//! public URL of the tunnel to the bridge, and the tunnel's status.

use vstd::prelude::*;

use crate::codex::str_lines;
use crate::json::{get_arr, get_str, jget, views, Json, JsonV};
use crate::text;

verus! {

/// The port of ngrok's local API.
pub const DEFAULT_API_PORT: u16 = 4040;

/// How long to wait for a new tunnel to show its public URL, in milliseconds.
pub const TUNNEL_WAIT_MS: u64 = 15_000;

/// `s.trim_start_matches(c)`.
pub open spec fn trim_start_char(s: Seq<char>, c: char) -> Seq<char>
    decreases s.len(),
{
    if s.len() > 0 && s[0] == c {
        trim_start_char(s.drop_first(), c)
    } else {
        s
    }
}

/// `s.trim_matches(c)`.
pub open spec fn trim_char(s: Seq<char>, c: char) -> Seq<char> {
    text::trim_end_char(trim_start_char(s, c), c)
}

/// The token in what follows `authtoken:`: trimmed, then without surrounding
/// double quotes, then without surrounding single quotes.
pub open spec fn token_text(rest: Seq<char>) -> Seq<char> {
    trim_char(trim_char(text::trim(rest), '"'), '\'')
}

/// Scans config lines for the first non-empty `authtoken:`, at the top
/// level or under `agent:`. Blank lines, comments and other keys (the
/// `agent:` header and other agent settings among them) are skipped, so a
/// token after other agent settings is still found.
pub open spec fn scan_authtoken(lines: Seq<Seq<char>>) -> Option<Seq<char>>
    decreases lines.len(),
{
    if lines.len() == 0 {
        None
    } else {
        let t = text::trim(lines[0]);
        let rest = lines.drop_first();
        if "authtoken:"@.is_prefix_of(t) && token_text(t.skip("authtoken:"@.len() as int)).len()
            > 0 {
            Some(token_text(t.skip("authtoken:"@.len() as int)))
        } else {
            scan_authtoken(rest)
        }
    }
}

/// The token a config line sets, or nothing: the text after `authtoken:`,
/// trimmed and unquoted.
pub open spec fn line_token(line: Seq<char>) -> Seq<char> {
    let t = text::trim(line);
    if "authtoken:"@.is_prefix_of(t) {
        token_text(t.skip("authtoken:"@.len() as int))
    } else {
        Seq::empty()
    }
}

/// A config yields a token exactly when one of its lines sets a non-empty
/// token, wherever that line stands (top level, or after other settings
/// under `agent:`), and then it is the first such token.
pub proof fn law_config_token_found_anywhere(lines: Seq<Seq<char>>)
    ensures
        (scan_authtoken(lines) is Some) == exists|i: int|
            0 <= i < lines.len() && (#[trigger] line_token(lines[i])).len() > 0,
        scan_authtoken(lines) matches Some(t) ==> exists|i: int|
            0 <= i < lines.len() && line_token(lines[i]) == t && t.len() > 0 && forall|j: int|
                0 <= j < i ==> (#[trigger] line_token(lines[j])).len() == 0,
    decreases lines.len(),
{
    if lines.len() > 0 {
        let rest = lines.drop_first();
        law_config_token_found_anywhere(rest);
        assert forall|i: int| 0 <= i < rest.len() implies #[trigger] rest[i] == lines[i + 1] by {}
        if line_token(lines[0]).len() > 0 {
            assert(line_token(lines[0]) == scan_authtoken(lines)->0);
        } else {
            if exists|i: int| 0 <= i < lines.len() && (#[trigger] line_token(lines[i])).len() > 0 {
                let i = choose|i: int| 0 <= i < lines.len() && (#[trigger] line_token(lines[i])).len() > 0;
                assert(line_token(rest[i - 1]).len() > 0);
            }
            if scan_authtoken(lines) is Some {
                let t = scan_authtoken(lines)->0;
                let i = choose|i: int|
                    0 <= i < rest.len() && line_token(rest[i]) == t && t.len() > 0 && forall|j: int|
                        0 <= j < i ==> (#[trigger] line_token(rest[j])).len() == 0;
                assert(line_token(lines[i + 1]) == t);
                assert forall|j: int| 0 <= j < i + 1 implies (#[trigger] line_token(lines[j])).len() == 0 by {
                    if j > 0 {
                        assert(lines[j] == rest[j - 1]);
                    }
                }
            }
        }
    }
}

/// The authtoken an ngrok config file holds.
pub open spec fn config_authtoken(content: Seq<char>) -> Option<Seq<char>> {
    scan_authtoken(str_lines(content))
}

fn trim_char_bounds(s: &[char], start: usize, end: usize, c: char) -> (r: (usize, usize))
    requires
        start <= end <= s.len(),
    ensures
        start <= r.0 <= r.1 <= end,
        trim_char(s@.subrange(start as int, end as int), c) == s@.subrange(r.0 as int, r.1 as int),
{
    let ghost whole = s@.subrange(start as int, end as int);
    let mut i = start;
    while i < end && s[i] == c
        invariant
            start <= i <= end <= s.len(),
            whole == s@.subrange(start as int, end as int),
            trim_start_char(whole, c) == trim_start_char(s@.subrange(i as int, end as int), c),
        decreases end - i,
    {
        assert(s@.subrange(i as int, end as int).drop_first() =~= s@.subrange(i + 1, end as int));
        i = i + 1;
    }
    let mut j = end;
    let ghost t = s@.subrange(i as int, end as int);
    assert(t.len() == 0 || t[0] != c);
    while j > i && s[j - 1] == c
        invariant
            i <= j <= end,
            end <= s.len(),
            t == s@.subrange(i as int, end as int),
            text::trim_end_char(t, c) == text::trim_end_char(s@.subrange(i as int, j as int), c),
        decreases j,
    {
        assert(s@.subrange(i as int, j as int).drop_last() =~= s@.subrange(i as int, j - 1));
        j = j - 1;
    }
    (i, j)
}

fn token_of(t: &[char], from: usize) -> (r: String)
    requires
        from <= t.len(),
    ensures
        r@ == token_text(t@.skip(from as int)),
{
    let rest = &t[from..t.len()];
    assert(rest@ =~= t@.skip(from as int));
    let (a, b) = text::trim_bounds(rest);
    let (c, d) = trim_char_bounds(rest, a, b, '"');
    let (e, f) = trim_char_bounds(rest, c, d, '\'');
    text::string_from_chars(&rest[e..f])
}

/// Finds the authtoken in the text of an ngrok config file
/// (`parse_authtoken_from_config`).
pub fn parse_authtoken_from_config(content: &str) -> (r: Option<String>)
    ensures
        crate::chat::opt_string(r) == config_authtoken(content@),
{
    let lines = codex_lines_of(content);
    let ghost ls = str_lines(content@);
    let prefix = text::chars_of("authtoken:");
    let mut i: usize = 0;
    assert(ls.skip(0) =~= ls);
    while i < lines.len()
        invariant
            i <= lines.len(),
            lines@.len() == ls.len(),
            forall|k: int| 0 <= k < lines@.len() ==> (#[trigger] lines@[k])@ == ls[k],
            prefix@ == "authtoken:"@,
            config_authtoken(content@) == scan_authtoken(ls.skip(i as int)),
        decreases lines.len() - i,
    {
        let line = lines[i].as_slice();
        let ghost lv = ls[i as int];
        assert(line@ == lv);
        assert(ls.skip(i as int)[0] == lv);
        assert(ls.skip(i as int).drop_first() =~= ls.skip(i + 1));
        let (a, b) = text::trim_bounds(line);
        let t = &line[a..b];
        if text::chars_starts_with(t, prefix.as_slice()) {
            let token = token_of(t, prefix.len());
            if !token.as_str().is_empty() {
                return Some(token);
            }
        }
        i = i + 1;
    }
    assert(ls.skip(lines.len() as int).len() == 0);
    None
}

/// The lines of a text, as [`str_lines`] gives them.
fn codex_lines_of(content: &str) -> (r: Vec<Vec<char>>)
    ensures
        r@.len() == str_lines(content@).len(),
        forall|k: int| 0 <= k < r@.len() ==> (#[trigger] r@[k])@ == str_lines(content@)[k],
{
    let chars = text::chars_of(content);
    let pieces = crate::codex::split_newlines_of(chars.as_slice());
    let mut out: Vec<Vec<char>> = Vec::new();
    let mut i: usize = 0;
    while i < pieces.len()
        invariant
            i <= pieces.len(),
            pieces@.len() == crate::codex::split_newlines(chars@).len(),
            forall|k: int| 0 <= k < pieces@.len() ==> (#[trigger] pieces@[k])@ == crate::codex::split_newlines(chars@)[k],
            out@.len() == i,
            forall|k: int| 0 <= k < i ==> (#[trigger] out@[k])@ == str_lines(chars@)[k],
        decreases pieces.len() - i,
    {
        let piece = &pieces[i];
        let mut n = piece.len();
        if i + 1 < pieces.len() && n > 0 && piece[n - 1] == '\r' {
            n = n - 1;
        }
        let line = vstd::slice::slice_to_vec(&piece.as_slice()[0..n]);
        assert(line@ =~= str_lines(chars@)[i as int]);
        out.push(line);
        i = i + 1;
    }
    out
}

/// Whether ngrok can start: an authtoken is given, or one is configured.
pub open spec fn ngrok_ready(authtoken: Seq<char>, configured: bool) -> bool {
    !text::is_blank(authtoken) || configured
}

/// Whether ngrok has an authtoken, given inline or found in its config
/// (`is_ngrok_ready`, with the config lookup done by the caller).
pub fn is_ngrok_ready(authtoken: &str, configured: bool) -> (r: bool)
    ensures
        r == ngrok_ready(authtoken@, configured),
{
    !text::str_is_blank(authtoken) || configured
}

/// The OpenAI-compatible base URL behind a public tunnel URL.
pub open spec fn openai_base_url(public_url: Seq<char>) -> Seq<char> {
    text::trim_end_char(public_url, '/') + "/v1"@
}

/// The base URL always ends in `/v1`, and trailing slashes on the public
/// URL do not change it.
pub proof fn law_openai_base_url(public_url: Seq<char>)
    ensures
        "/v1"@.is_suffix_of(openai_base_url(public_url)),
        openai_base_url(public_url + seq!['/']) == openai_base_url(public_url),
{
    let b = openai_base_url(public_url);
    let t = text::trim_end_char(public_url, '/');
    assert(b.skip(b.len() - 3) =~= "/v1"@) by {
        reveal_strlit("/v1");
    }
    assert(b.subrange(b.len() - 3, b.len() as int) =~= "/v1"@);
    assert((public_url + seq!['/']).drop_last() =~= public_url);
}

/// `public_url` without trailing slashes, then `/v1` (`to_openai_base_url`).
pub fn to_openai_base_url(public_url: &str) -> (r: String)
    ensures
        r@ == openai_base_url(public_url@),
{
    let chars = text::chars_of(public_url);
    let keep = text::trim_end_char_len(chars.as_slice(), '/');
    let mut r = text::string_from_chars(&chars.as_slice()[0..keep]);
    text::push_str(&mut r, "/v1");
    r
}

/// The index of the last `c` in `s`.
pub open spec fn last_index_of(s: Seq<char>, c: char) -> Option<int>
    decreases s.len(),
{
    if s.len() == 0 {
        None
    } else if s.last() == c {
        Some(s.len() - 1)
    } else {
        last_index_of(s.drop_last(), c)
    }
}

/// What follows the last `c` in `s`, or all of `s` (`s.rsplit(c).next()`).
pub open spec fn after_last(s: Seq<char>, c: char) -> Seq<char> {
    match last_index_of(s, c) {
        Some(i) => s.skip(i + 1),
        None => s,
    }
}

/// The `config.addr` of a tunnel, or nothing.
pub open spec fn tunnel_addr(tunnel: JsonV) -> Seq<char> {
    match jget(tunnel, "config"@) {
        Some(config) => crate::chat::or_default(get_str(config, "addr"@), Seq::empty()),
        None => Seq::empty(),
    }
}

/// Whether a tunnel forwards to `local_port`: the port after the last colon
/// of its address.
pub open spec fn tunnel_matches(tunnel: JsonV, local_port: u16) -> bool {
    let addr = tunnel_addr(tunnel);
    addr.len() > 0 && text::parse_usize(after_last(addr, ':')) == Some(local_port as nat)
}

/// Whether a tunnel forwards to `local_port` (`tunnel_matches_port`).
pub fn tunnel_matches_port(tunnel: &Json, local_port: u16) -> (r: bool)
    ensures
        r == tunnel_matches(tunnel@, local_port),
{
    let addr = match tunnel.get("config") {
        Some(config) => match config.get_str("addr") {
            Some(a) => a,
            None => "",
        },
        None => "",
    };
    proof {
        reveal_strlit("");
        assert(addr@ == tunnel_addr(tunnel@));
    }
    let chars = text::chars_of(addr);
    if chars.len() == 0 {
        return false;
    }
    let mut j = chars.len();
    assert(chars@.take(j as int) =~= chars@);
    while j > 0 && chars[j - 1] != ':'
        invariant
            j <= chars.len(),
            last_index_of(chars@, ':') == last_index_of(chars@.take(j as int), ':'),
        decreases j,
    {
        assert(chars@.take(j as int).drop_last() =~= chars@.take(j - 1));
        j = j - 1;
    }
    proof {
        if j == 0 {
            assert(chars@.take(0).len() == 0);
            assert(after_last(chars@, ':') =~= chars@.skip(0));
        } else {
            assert(chars@.take(j as int).last() == ':');
        }
    }
    let port_text = &chars.as_slice()[j..chars.len()];
    assert(port_text@ =~= after_last(chars@, ':'));
    match text::parse_usize_chars(port_text) {
        Some(n) => n == local_port as usize,
        None => false,
    }
}

/// The public base URL of the first `https` tunnel to `local_port`, else of
/// the first such tunnel. A matching tunnel without a string `public_url`
/// ends the search with nothing.
pub open spec fn scan_tunnels(ts: Seq<JsonV>, local_port: u16, fallback: Option<Seq<char>>) -> Option<
    Seq<char>,
>
    decreases ts.len(),
{
    if ts.len() == 0 {
        fallback
    } else if !tunnel_matches(ts[0], local_port) {
        scan_tunnels(ts.drop_first(), local_port, fallback)
    } else {
        match get_str(ts[0], "public_url"@) {
            None => None,
            Some(u) => if "https://"@.is_prefix_of(u) {
                Some(openai_base_url(u))
            } else {
                scan_tunnels(
                    ts.drop_first(),
                    local_port,
                    if fallback is None {
                        Some(openai_base_url(u))
                    } else {
                        fallback
                    },
                )
            },
        }
    }
}

/// The tunnel URL for `local_port` in ngrok's `/api/tunnels` answer.
pub open spec fn tunnel_url(value: JsonV, local_port: u16) -> Option<Seq<char>> {
    match get_arr(value, "tunnels"@) {
        Some(ts) => scan_tunnels(ts, local_port, None),
        None => None,
    }
}

/// The `public_url` of a tunnel, where it has one.
pub open spec fn public_url_of(t: JsonV) -> Seq<char> {
    get_str(t, "public_url"@)->0
}

/// Every tunnel to `local_port` names its public URL.
pub open spec fn matching_have_urls(ts: Seq<JsonV>, local_port: u16) -> bool {
    forall|i: int|
        0 <= i < ts.len() && tunnel_matches(#[trigger] ts[i], local_port) ==> get_str(
            ts[i],
            "public_url"@,
        ) is Some
}

proof fn lemma_scan_tunnels(ts: Seq<JsonV>, local_port: u16, fallback: Option<Seq<char>>)
    requires
        matching_have_urls(ts, local_port),
    ensures
        ({
            let r = scan_tunnels(ts, local_port, fallback);
            &&& (r is Some) == (fallback is Some || exists|i: int|
                0 <= i < ts.len() && tunnel_matches(#[trigger] ts[i], local_port))
            &&& r matches Some(x) ==> (fallback == Some(x) || exists|i: int|
                0 <= i < ts.len() && tunnel_matches(#[trigger] ts[i], local_port) && x
                    == openai_base_url(public_url_of(ts[i])))
            &&& (exists|i: int|
                0 <= i < ts.len() && tunnel_matches(#[trigger] ts[i], local_port)
                    && "https://"@.is_prefix_of(public_url_of(ts[i]))) ==> exists|k: int|
                0 <= k < ts.len() && tunnel_matches(#[trigger] ts[k], local_port)
                    && "https://"@.is_prefix_of(public_url_of(ts[k])) && r == Some(
                    openai_base_url(public_url_of(ts[k])),
                )
        }),
    decreases ts.len(),
{
    if ts.len() > 0 {
        let rest = ts.drop_first();
        assert forall|i: int| 0 <= i < rest.len() && tunnel_matches(#[trigger] rest[i], local_port) implies get_str(
            rest[i],
            "public_url"@,
        ) is Some by {
            assert(rest[i] == ts[i + 1]);
        }
        assert forall|i: int| 0 <= i < rest.len() implies #[trigger] rest[i] == ts[i + 1] by {}
        if !tunnel_matches(ts[0], local_port) {
            lemma_scan_tunnels(rest, local_port, fallback);
            if exists|i: int| 0 <= i < ts.len() && tunnel_matches(#[trigger] ts[i], local_port) {
                let i = choose|i: int| 0 <= i < ts.len() && tunnel_matches(#[trigger] ts[i], local_port);
                assert(rest[i - 1] == ts[i]);
            }
            if exists|i: int|
                0 <= i < ts.len() && tunnel_matches(#[trigger] ts[i], local_port)
                    && "https://"@.is_prefix_of(public_url_of(ts[i])) {
                let i = choose|i: int|
                    0 <= i < ts.len() && tunnel_matches(#[trigger] ts[i], local_port)
                        && "https://"@.is_prefix_of(public_url_of(ts[i]));
                assert(rest[i - 1] == ts[i]);
                assert(tunnel_matches(rest[i - 1], local_port));
            }
            let r = scan_tunnels(ts, local_port, fallback);
            if r is Some && fallback != r {
                let x = r->0;
                let i = choose|i: int|
                    0 <= i < rest.len() && tunnel_matches(#[trigger] rest[i], local_port) && x
                        == openai_base_url(public_url_of(rest[i]));
                assert(tunnel_matches(ts[i + 1], local_port));
            }
            if exists|k: int|
                0 <= k < rest.len() && tunnel_matches(#[trigger] rest[k], local_port)
                    && "https://"@.is_prefix_of(public_url_of(rest[k])) && scan_tunnels(
                    rest,
                    local_port,
                    fallback,
                ) == Some(openai_base_url(public_url_of(rest[k]))) {
                let k = choose|k: int|
                    0 <= k < rest.len() && tunnel_matches(#[trigger] rest[k], local_port)
                        && "https://"@.is_prefix_of(public_url_of(rest[k])) && scan_tunnels(
                        rest,
                        local_port,
                        fallback,
                    ) == Some(openai_base_url(public_url_of(rest[k])));
                assert(tunnel_matches(ts[k + 1], local_port));
            }
        } else {
            assert(tunnel_matches(ts[0], local_port));
            let u = public_url_of(ts[0]);
            if "https://"@.is_prefix_of(u) {
            } else {
                let fb = if fallback is None { Some(openai_base_url(u)) } else { fallback };
                lemma_scan_tunnels(rest, local_port, fb);
                let r = scan_tunnels(ts, local_port, fallback);
                assert(r == scan_tunnels(rest, local_port, fb));
                if r is Some && fallback != r && fb != r {
                    let x = r->0;
                    let i = choose|i: int|
                        0 <= i < rest.len() && tunnel_matches(#[trigger] rest[i], local_port) && x
                            == openai_base_url(public_url_of(rest[i]));
                    assert(tunnel_matches(ts[i + 1], local_port));
                }
                if exists|i: int|
                    0 <= i < ts.len() && tunnel_matches(#[trigger] ts[i], local_port)
                        && "https://"@.is_prefix_of(public_url_of(ts[i])) {
                    let i = choose|i: int|
                        0 <= i < ts.len() && tunnel_matches(#[trigger] ts[i], local_port)
                            && "https://"@.is_prefix_of(public_url_of(ts[i]));
                    assert(i != 0);
                    assert(rest[i - 1] == ts[i]);
                    assert(tunnel_matches(rest[i - 1], local_port));
                    let k = choose|k: int|
                        0 <= k < rest.len() && tunnel_matches(#[trigger] rest[k], local_port)
                            && "https://"@.is_prefix_of(public_url_of(rest[k])) && scan_tunnels(
                            rest,
                            local_port,
                            fb,
                        ) == Some(openai_base_url(public_url_of(rest[k])));
                    assert(tunnel_matches(ts[k + 1], local_port));
                }
            }
        }
    }
}

/// The tunnel chosen for the bridge is one to its port: when ngrok runs
/// tunnels to the port (each naming its public URL), one is chosen; an
/// `https` one is preferred whenever there is one; the answer is always the
/// chosen tunnel's public URL turned into a `/v1` base URL.
pub proof fn law_tunnel_prefers_https(value: JsonV, local_port: u16)
    requires
        get_arr(value, "tunnels"@) matches Some(ts) && matching_have_urls(ts, local_port),
    ensures
        ({
            let ts = get_arr(value, "tunnels"@)->0;
            let r = tunnel_url(value, local_port);
            &&& (r is Some) == exists|i: int|
                0 <= i < ts.len() && tunnel_matches(#[trigger] ts[i], local_port)
            &&& r matches Some(x) ==> exists|i: int|
                0 <= i < ts.len() && tunnel_matches(#[trigger] ts[i], local_port) && x
                    == openai_base_url(public_url_of(ts[i]))
            &&& (exists|i: int|
                0 <= i < ts.len() && tunnel_matches(#[trigger] ts[i], local_port)
                    && "https://"@.is_prefix_of(public_url_of(ts[i]))) ==> exists|k: int|
                0 <= k < ts.len() && tunnel_matches(#[trigger] ts[k], local_port)
                    && "https://"@.is_prefix_of(public_url_of(ts[k])) && r == Some(
                    openai_base_url(public_url_of(ts[k])),
                )
        }),
{
    let ts = get_arr(value, "tunnels"@)->0;
    lemma_scan_tunnels(ts, local_port, None);
}

/// Finds the public base URL for `local_port` in ngrok's parsed
/// `/api/tunnels` answer (`parse_tunnel_for_port` once the JSON is parsed).
pub fn tunnel_url_for_port(value: &Json, local_port: u16) -> (r: Option<String>)
    ensures
        crate::chat::opt_string(r) == tunnel_url(value@, local_port),
{
    let tunnels = match value.get_array("tunnels") {
        Some(ts) => ts,
        None => return None,
    };
    let ghost tv = views(tunnels@);
    let https = text::chars_of("https://");
    let mut fallback: Option<String> = None;
    let mut i: usize = 0;
    assert(tv.skip(0) =~= tv);
    while i < tunnels.len()
        invariant
            i <= tunnels.len(),
            tv == views(tunnels@),
            https@ == "https://"@,
            tunnel_url(value@, local_port) == scan_tunnels(
                tv.skip(i as int),
                local_port,
                crate::chat::opt_string(fallback),
            ),
        decreases tunnels.len() - i,
    {
        let tunnel = &tunnels[i];
        assert(tv.skip(i as int)[0] == tunnel@);
        assert(tv.skip(i as int).drop_first() =~= tv.skip(i + 1));
        if tunnel_matches_port(tunnel, local_port) {
            let public_url = match tunnel.get_str("public_url") {
                Some(u) => u,
                None => return None,
            };
            let url = to_openai_base_url(public_url);
            let uc = text::chars_of(public_url);
            if text::chars_starts_with(uc.as_slice(), https.as_slice()) {
                return Some(url);
            }
            if fallback.is_none() {
                fallback = Some(url);
            }
        }
        i = i + 1;
    }
    assert(tv.skip(tunnels.len() as int).len() == 0);
    fallback
}

/// What the panel shows about the public tunnel.
#[derive(Clone, Debug)]
pub struct TunnelStatus {
    pub installed: bool,
    pub configured: bool,
    pub running: bool,
    pub local_url: String,
    pub public_url: Option<String>,
    pub error: Option<String>,
}

/// Finds the public base URL for `local_port` in the text of ngrok's
/// `/api/tunnels` answer (`parse_tunnel_for_port`); nothing when it does not
/// parse as JSON.
pub fn parse_tunnel_for_port(body: &str, local_port: u16) -> (r: Option<String>)
    ensures
        match crate::json::json_parse(body@) {
            Err(_) => r is None,
            Ok(v) => crate::chat::opt_string(r) == tunnel_url(v, local_port),
        },
{
    match crate::json::parse_json_text(body) {
        Ok(value) => tunnel_url_for_port(&value, local_port),
        Err(_) => None,
    }
}

/// The tunnel status for the bridge on `local_port`, given whether ngrok is
/// installed and has an authtoken, the running tunnel's public URL if one
/// runs, and the last tunnel error (`tunnel_status`).
pub fn tunnel_status(
    local_port: u16,
    installed: bool,
    configured: bool,
    public_url: Option<String>,
    error: Option<String>,
) -> (r: TunnelStatus)
    ensures
        r.installed == installed,
        r.configured == configured,
        r.running == public_url is Some,
        r.local_url@ == crate::bridge::base_url_text(local_port),
        r.public_url == public_url,
        r.error == error,
{
    let running = public_url.is_some();
    TunnelStatus {
        installed,
        configured,
        running,
        local_url: crate::bridge::base_url(local_port),
        public_url,
        error,
    }
}

/// Where the first blank line (`"\r\n\r\n"`) in `s` starts.
pub open spec fn index_of_blank(s: Seq<char>) -> Option<int>
    decreases s.len(),
{
    if s.len() < 4 {
        None
    } else if s[0] == '\r' && s[1] == '\n' && s[2] == '\r' && s[3] == '\n' {
        Some(0)
    } else {
        match index_of_blank(s.drop_first()) {
            Some(i) => Some(i + 1),
            None => None,
        }
    }
}

/// The second `"\r\n\r\n"`-separated piece of an HTTP response, which is
/// where ngrok's API answer puts its body.
pub open spec fn response_body(response: Seq<char>) -> Option<Seq<char>> {
    match index_of_blank(response) {
        None => None,
        Some(i) => {
            let rest = response.skip(i + 4);
            match index_of_blank(rest) {
                Some(j) => Some(rest.take(j)),
                None => Some(rest),
            }
        },
    }
}

proof fn lemma_index_of_blank_bounds(s: Seq<char>)
    ensures
        match index_of_blank(s) {
            Some(i) => 0 <= i && i + 4 <= s.len(),
            None => true,
        },
    decreases s.len(),
{
    if s.len() >= 4 && !(s[0] == '\r' && s[1] == '\n' && s[2] == '\r' && s[3] == '\n') {
        lemma_index_of_blank_bounds(s.drop_first());
    }
}

fn find_blank(s: &[char], from: usize) -> (r: Option<usize>)
    requires
        from <= s.len(),
    ensures
        match r {
            Some(i) => from <= i && i + 4 <= s.len() && index_of_blank(s@.skip(from as int)) == Some(
                i - from,
            ),
            None => index_of_blank(s@.skip(from as int)) is None,
        },
{
    let mut i = from;
    assert(s@.skip(from as int).skip(0) =~= s@.skip(from as int));
    while s.len() - i >= 4
        invariant
            from <= i <= s.len(),
            index_of_blank(s@.skip(from as int)) == match index_of_blank(s@.skip(i as int)) {
                Some(j) => Some(j + (i - from)),
                None => None,
            },
        decreases s.len() - i,
    {
        if s[i] == '\r' && s[i + 1] == '\n' && s[i + 2] == '\r' && s[i + 3] == '\n' {
            return Some(i);
        }
        assert(s@.skip(i as int).drop_first() =~= s@.skip(i + 1));
        i = i + 1;
    }
    None
}

/// The body of ngrok's API answer (`http_get` once the response is read).
pub fn http_response_body(response: &str) -> (r: Result<String, String>)
    ensures
        match r {
            Ok(body) => response_body(response@) == Some(body@),
            Err(e) => response_body(response@) is None && e@ == "ngrok API response was empty"@,
        },
{
    let chars = text::chars_of(response);
    assert(chars@.skip(0) =~= chars@);
    let i = match find_blank(chars.as_slice(), 0) {
        Some(i) => i,
        None => return Err(text::owned("ngrok API response was empty")),
    };
    let start = i + 4;
    assert(chars@.skip(start as int) =~= chars@.skip(i + 4));
    let end = match find_blank(chars.as_slice(), start) {
        Some(j) => j,
        None => chars.len(),
    };
    proof {
        let rest = chars@.skip(start as int);
        lemma_index_of_blank_bounds(rest);
    }
    let body = text::string_from_chars(&chars.as_slice()[start..end]);
    assert(body@ =~= response_body(response@)->0);
    Ok(body)
}

/// The message when the ngrok binary cannot be found.
pub open spec fn not_installed_text() -> Seq<char> {
    "ngrok is not installed. Install it from https://ngrok.com/download"@
}

/// Checks an authtoken before `ngrok config add-authtoken` runs: it must not
/// be blank and ngrok must be installed. Returns the trimmed token to hand
/// to ngrok (`configure_authtoken` before it runs the command).
pub fn authtoken_to_configure(token: &str, installed: bool) -> (r: Result<String, String>)
    ensures
        match r {
            Ok(t) => !text::is_blank(token@) && installed && t@ == text::trim(token@),
            Err(e) => if text::is_blank(token@) {
                e@ == "ngrok authtoken is required"@
            } else {
                !installed && e@ == not_installed_text()
            },
        },
{
    let t = text::trimmed(token);
    if t.as_str().is_empty() {
        return Err(text::owned("ngrok authtoken is required"));
    }
    if !installed {
        return Err(text::owned("ngrok is not installed. Install it from https://ngrok.com/download"));
    }
    Ok(t)
}

/// How a tunnel gets started.
#[derive(Debug)]
pub enum TunnelStart {
    /// A tunnel to the bridge already runs at this base URL: use it, do not own it.
    Reuse(String),
    /// Start ngrok, after configuring this authtoken if one is given.
    Launch { configure: Option<String> },
}

/// Decides how to start the tunnel for the bridge (`start_tunnel`, before it
/// spawns ngrok): reuse a running tunnel, else ngrok must be installed and
/// have an authtoken, given inline (configured first) or already in its config.
pub fn plan_tunnel_start(
    existing_url: Option<String>,
    installed: bool,
    authtoken: &str,
    configured: bool,
) -> (r: Result<TunnelStart, String>)
    ensures
        match existing_url {
            Some(url) => r matches Ok(TunnelStart::Reuse(u)) && u@ == url@,
            None => if !installed {
                r matches Err(e) && e@ == not_installed_text()
            } else if !text::is_blank(authtoken@) {
                r matches Ok(TunnelStart::Launch { configure: Some(t) }) && t@ == text::trim(
                    authtoken@,
                )
            } else if !configured {
                r matches Err(e) && e@
                    == "ngrok authtoken is not configured. Log in with ngrok or paste your authtoken."@
            } else {
                r matches Ok(TunnelStart::Launch { configure: None })
            },
        },
{
    if let Some(url) = existing_url {
        return Ok(TunnelStart::Reuse(url));
    }
    if !installed {
        return Err(text::owned("ngrok is not installed. Install it from https://ngrok.com/download"));
    }
    let token = text::trimmed(authtoken);
    if !token.as_str().is_empty() {
        return Ok(TunnelStart::Launch { configure: Some(token) });
    }
    if !configured {
        return Err(
            text::owned(
                "ngrok authtoken is not configured. Log in with ngrok or paste your authtoken.",
            ),
        );
    }
    Ok(TunnelStart::Launch { configure: None })
}

/// The arguments that start ngrok for the bridge on `local_port`.
pub fn ngrok_http_args(local_port: u16) -> (r: Vec<String>)
    ensures
        r@.len() == 4,
        r@[0]@ == "http"@,
        r@[1]@ == text::decimal(local_port as nat),
        r@[2]@ == "--log=stdout"@,
        r@[3]@ == "--log-format=json"@,
{
    let mut r: Vec<String> = Vec::new();
    r.push(text::owned("http"));
    r.push(text::decimal_string(local_port as u64));
    r.push(text::owned("--log=stdout"));
    r.push(text::owned("--log-format=json"));
    r
}

/// Whether a tunnel is still usable after a refresh: one this app started
/// must still run; one it found running must still have a public URL
/// (`NgrokRuntime::refresh`, once the URL is fetched and the process polled).
pub fn refresh_outcome(owned: bool, child_exited: bool, public_url: &str) -> (r: Result<(), String>)
    ensures
        owned ==> match r {
            Ok(()) => !child_exited,
            Err(e) => child_exited && e@ == "ngrok tunnel exited unexpectedly"@,
        },
        !owned ==> match r {
            Ok(()) => public_url@.len() > 0,
            Err(e) => public_url@.len() == 0 && e@ == "ngrok tunnel is no longer available"@,
        },
{
    if owned {
        if child_exited {
            return Err(text::owned("ngrok tunnel exited unexpectedly"));
        }
        return Ok(());
    }
    if public_url.is_empty() {
        return Err(text::owned("ngrok tunnel is no longer available"));
    }
    Ok(())
}

} // verus!
