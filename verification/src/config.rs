use vstd::prelude::*;
use crate::jsontext::{
    esc, unesc, ws_only, append_escaped, parse_string_body, lemma_unesc_esc, lemma_esc_ordinary,
};
use crate::jsonwalk::{
    ws_end, find_key, value_end, member_end, members_end, members_more, well_formed_object,
    ws_end_at, find_key_at, check_object,
};

verus! {

/// The program's settings: the directory watched for finished screenshots and
/// the base URL of the Lutim instance the files are posted to.
#[derive(Debug)]
pub struct Config {
    pub watch_path: String,
    pub lutim_url: String,
}

impl Config {
    /// The configuration written on first run: a `screenshots` directory under
    /// the given working directory, and a placeholder upload URL.
    pub fn default_for(cwd: &str) -> (r: Config)
        ensures
            r.watch_path@ == cwd@ + "/screenshots"@,
            r.lutim_url@ == "Insert Lutim URL here"@,
    {
        let mut watch_path = cwd.to_owned();
        watch_path.append("/screenshots");
        Config { watch_path, lutim_url: "Insert Lutim URL here".to_owned() }
    }
}

/// The configuration file's text as this crate writes it: a pretty-printed
/// JSON object with exactly the two keys, two-space indentation, and the two
/// string values escaped.
pub open spec fn config_json(wp: Seq<char>, url: Seq<char>) -> Seq<char> {
    "{\n  \"watch_path\": \""@ + esc(wp) + "\""@ + ",\n  \"lutim_url\": \""@ + esc(url) + "\""@
        + "\n}"@
}

/// What parsing a configuration file's text yields: the string values of the
/// keys `watch_path` and `lutim_url`, read as one whole JSON object — member
/// order, whitespace between tokens and the standard escapes are free, with
/// exactly one comma between members — and nothing when the text is not such
/// an object or lacks either string.
pub open spec fn parse_config_json(s: Seq<char>) -> Option<(Seq<char>, Seq<char>)> {
    if well_formed_object(s) {
        let i0 = ws_end(s, 0);
        match (find_key(s, i0 + 1, "watch_path"@), find_key(s, i0 + 1, "lutim_url"@)) {
            (Some(wv), Some(uv)) => if wv < s.len() && s[wv] == '"' && uv < s.len() && s[uv]
                == '"' {
                match (unesc(s.skip(wv + 1)), unesc(s.skip(uv + 1))) {
                    (Some(pw), Some(pu)) => Some((pw.0, pu.0)),
                    _ => None,
                }
            } else {
                None
            },
            _ => None,
        }
    } else {
        None
    }
}

/// Renders a configuration as the file text described by `config_json`.
pub fn config_to_json(c: &Config) -> (r: String)
    ensures
        r@ == config_json(c.watch_path@, c.lutim_url@),
{
    let mut out = "{\n  \"watch_path\": \"".to_owned();
    append_escaped(&mut out, c.watch_path.as_str());
    out.append("\"");
    out.append(",\n  \"lutim_url\": \"");
    append_escaped(&mut out, c.lutim_url.as_str());
    out.append("\"");
    out.append("\n}");
    out
}

/// Parses a configuration file's text; returns exactly what `parse_config_json`
/// denotes, and fails exactly when the text is malformed.
pub fn parse_config(s: &str) -> (r: Option<Config>)
    ensures
        match r {
            Some(c) => parse_config_json(s@) == Some((c.watch_path@, c.lutim_url@)),
            None => parse_config_json(s@) is None,
        },
{
    if !check_object(s) {
        return None;
    }
    let n = s.unicode_len();
    let i0 = ws_end_at(s, 0);
    let wv = match find_key_at(s, i0 + 1, "watch_path") {
        None => {
            return None;
        },
        Some(wv) => wv,
    };
    let uv = match find_key_at(s, i0 + 1, "lutim_url") {
        None => {
            return None;
        },
        Some(uv) => uv,
    };
    if wv >= n || uv >= n {
        return None;
    }
    if s.get_char(wv) != '"' || s.get_char(uv) != '"' {
        return None;
    }
    let watch_path = match parse_string_body(s, wv + 1) {
        None => {
            return None;
        },
        Some((wp, _)) => wp,
    };
    let lutim_url = match parse_string_body(s, uv + 1) {
        None => {
            return None;
        },
        Some((url, _)) => url,
    };
    Some(Config { watch_path, lutim_url })
}

/// Round trip: parsing the rendered text of any configuration yields exactly
/// the original field values.
#[verifier::rlimit(100)]
pub proof fn lemma_config_round_trip(wp: Seq<char>, url: Seq<char>)
    ensures
        parse_config_json(config_json(wp, url)) == Some((wp, url)),
{
    reveal_strlit("{\n  \"watch_path\": \"");
    reveal_strlit(",\n  \"lutim_url\": \"");
    reveal_strlit("\"");
    reveal_strlit("\n}");
    reveal_strlit("watch_path");
    reveal_strlit("lutim_url");
    let a = "{\n  \"watch_path\": \""@;
    let q = "\""@;
    let b = ",\n  \"lutim_url\": \""@;
    let z = "\n}"@;
    let wpkey = "watch_path"@;
    let urlkey = "lutim_url"@;
    let r = config_json(wp, url);
    let e1 = esc(wp).len() as int;
    let e2 = esc(url).len() as int;
    let p2 = 20 + e1;
    let p3 = p2 + 18 + e2;
    let len = r.len() as int;
    assert(a.len() == 19 && q.len() == 1 && b.len() == 18 && z.len() == 2);
    assert(len == p3 + 3);

    // The first member: key "watch_path" at 4, colon at 16, value at 18.
    assert(r[0] == '{' && r[1] == '\n' && r[2] == ' ' && r[3] == ' ' && r[4] == '"');
    assert(r[16] == ':' && r[17] == ' ' && r[18] == '"');
    assert(ws_end(r, 0) == 0);
    assert(ws_end(r, 4) == 4);
    assert(ws_end(r, 3) == 4);
    assert(ws_end(r, 2) == 4);
    assert(ws_end(r, 1) == 4);
    assert(forall|i: int| 0 <= i < wpkey.len() ==> !crate::jsontext::needs_escape(wpkey[i]));
    lemma_esc_ordinary(wpkey);
    assert(r.skip(5) =~= esc(wpkey) + seq!['"'] + r.skip(16));
    lemma_unesc_esc(wpkey, r.skip(16));
    assert(unesc(r.skip(5)) == Some((wpkey, r.skip(16))));
    assert(r.skip(16).len() == len - 16);
    assert(ws_end(r, 16) == 16);
    assert(ws_end(r, 18) == 18);
    assert(ws_end(r, 17) == 18);

    // The first value: the escaped watch path, closed by a quote.
    let tail1 = b + esc(url) + q + z;
    assert(r.skip(19) =~= esc(wp) + seq!['"'] + tail1);
    lemma_unesc_esc(wp, tail1);
    assert(unesc(r.skip(19)) == Some((wp, tail1)));
    assert(tail1.len() == len - p2);
    assert(find_key(r, 1, wpkey) == Some(18int));
    assert(value_end(r, 18) == Some(p2));

    // The second member: key "lutim_url" at p2 + 4, value at p2 + 17.
    assert(r[p2] == ',' && r[p2 + 1] == '\n' && r[p2 + 2] == ' ' && r[p2 + 3] == ' ');
    assert(r[p2 + 4] == '"' && r[p2 + 15] == ':' && r[p2 + 16] == ' ' && r[p2 + 17] == '"');
    assert(ws_end(r, p2) == p2);
    assert(ws_end(r, p2 + 4) == p2 + 4);
    assert(ws_end(r, p2 + 3) == p2 + 4);
    assert(ws_end(r, p2 + 2) == p2 + 4);
    assert(ws_end(r, p2 + 1) == p2 + 4);
    assert(forall|i: int| 0 <= i < urlkey.len() ==> !crate::jsontext::needs_escape(urlkey[i]));
    lemma_esc_ordinary(urlkey);
    assert(r.skip(p2 + 5) =~= esc(urlkey) + seq!['"'] + r.skip(p2 + 15));
    lemma_unesc_esc(urlkey, r.skip(p2 + 15));
    assert(unesc(r.skip(p2 + 5)) == Some((urlkey, r.skip(p2 + 15))));
    assert(r.skip(p2 + 15).len() == len - (p2 + 15));
    assert(ws_end(r, p2 + 15) == p2 + 15);
    assert(ws_end(r, p2 + 17) == p2 + 17);
    assert(ws_end(r, p2 + 16) == p2 + 17);

    // The second value: the escaped URL, closed by a quote, then "\n}".
    assert(z =~= seq!['\n', '}']);
    assert(r.skip(p2 + 18) =~= esc(url) + seq!['"'] + z);
    lemma_unesc_esc(url, z);
    assert(unesc(r.skip(p2 + 18)) == Some((url, z)));
    assert(z.len() == len - (p3 + 1));
    assert(wpkey != urlkey);
    assert(find_key(r, p2 + 1, urlkey) == Some(p2 + 17));
    assert(find_key(r, 1, urlkey) == Some(p2 + 17));
    assert(value_end(r, p2 + 17) == Some(p3 + 1));

    // The whole text is one object followed by nothing.
    assert(r[p3 + 1] == '\n' && r[p3 + 2] == '}');
    assert(ws_end(r, p3 + 2) == p3 + 2);
    assert(ws_end(r, p3 + 1) == p3 + 2);
    assert(member_end(r, 4) == Some(p2));
    assert(member_end(r, p2 + 4) == Some(p3 + 1));
    assert(members_more(r, p3 + 1) == Some(len));
    assert(members_more(r, p2) == Some(len));
    assert(members_end(r, 1) == Some(len));
    assert(r.skip(len) =~= Seq::<char>::empty());
    assert(ws_only(r.skip(len)));
    assert(well_formed_object(r));
    assert(parse_config_json(r) == Some((wp, url)));
}

/// Round trip stated on the configuration value itself.
pub proof fn lemma_config_to_json_round_trip(c: Config)
    ensures
        parse_config_json(config_json(c.watch_path@, c.lutim_url@)) == Some(
            (c.watch_path@, c.lutim_url@),
        ),
{
    lemma_config_round_trip(c.watch_path@, c.lutim_url@);
}

} // verus!
