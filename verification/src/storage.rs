//! Object-storage settings and the names the importers give their output.
use vstd::prelude::*;
use crate::text::{chars_of, extend_chars, extend_str, is_alnum, padded_decimal, starts_with_str, string_of, zero_padded};

verus! {

/// Where and as whom data is uploaded.
#[derive(Debug)]
pub struct S3Settings {
    pub endpoint: String,
    pub bucket: String,
    pub access_key: Option<String>,
    pub secret_key: Option<String>,
    pub region: String,
}

/// The endpoint as a URL: `http://` is put in front unless it already
/// starts with `http://` or `https://`.
pub open spec fn endpoint_url(endpoint: Seq<char>) -> Seq<char> {
    if "http://"@.is_prefix_of(endpoint) || "https://"@.is_prefix_of(endpoint) {
        endpoint
    } else {
        "http://"@ + endpoint
    }
}

impl S3Settings {
    /// The endpoint URL the client is built for.
    pub fn endpoint_url(&self) -> (r: String)
        ensures
            r@ == endpoint_url(self.endpoint@),
    {
        let e = chars_of(self.endpoint.as_str());
        proof {
            reveal_strlit("http://");
            reveal_strlit("https://");
        }
        if starts_with_str(&e, "http://") || starts_with_str(&e, "https://") {
            string_of(&e)
        } else {
            let mut out = chars_of("http://");
            extend_chars(&mut out, &e);
            string_of(&out)
        }
    }

    /// The static credentials, used only when both keys are set.
    pub fn static_credentials(&self) -> (r: Option<(String, String)>)
        ensures
            match (self.access_key, self.secret_key) {
                (Some(a), Some(s)) => (r matches Some((x, y)) && x@ == a@ && y@ == s@),
                _ => r is None,
            },
    {
        match (&self.access_key, &self.secret_key) {
            (Some(a), Some(s)) => Some((a.clone(), s.clone())),
            _ => None,
        }
    }
}

/// A file name character kept as is: an ASCII letter or digit, `-` or `_`.
pub open spec fn safe_char(c: char) -> char {
    if is_alnum(c) || c == '-' || c == '_' {
        c
    } else {
        '_'
    }
}

/// `src-<idx, five digits>-<stem with unsafe characters replaced by _>`.
pub open spec fn output_id_spec(relative_stem: Seq<char>, idx: nat) -> Seq<char> {
    "src-"@ + zero_padded(idx, 5) + "-"@ + relative_stem.map_values(|c: char| safe_char(c))
}

/// The identifier of the `idx`-th source file's output, from its path
/// relative to the input directory, without its extension.
pub fn output_id(relative_stem: &str, idx: usize) -> (r: String)
    ensures
        r@ == output_id_spec(relative_stem@, idx as nat),
{
    let raw = chars_of(relative_stem);
    let mut cleaned: Vec<char> = Vec::new();
    let mut i: usize = 0;
    while i < raw.len()
        invariant
            i <= raw.len(),
            raw@ == relative_stem@,
            cleaned@ == raw@.subrange(0, i as int).map_values(|c: char| safe_char(c)),
        decreases raw.len() - i,
    {
        let c = raw[i];
        let k = if ('0' <= c && c <= '9') || ('a' <= c && c <= 'z') || ('A' <= c && c <= 'Z') || c
            == '-' || c == '_' {
            c
        } else {
            '_'
        };
        cleaned.push(k);
        proof {
            assert(raw@.subrange(0, i + 1) =~= raw@.subrange(0, i as int).push(raw@[i as int]));
            assert(cleaned@ =~= raw@.subrange(0, i + 1).map_values(|c: char| safe_char(c)));
        }
        i = i + 1;
    }
    assert(raw@.subrange(0, raw.len() as int) =~= raw@);
    let digits = padded_decimal(idx as u64, 5);
    let mut out = chars_of("src-");
    extend_chars(&mut out, &digits);
    extend_str(&mut out, "-");
    extend_chars(&mut out, &cleaned);
    proof {
        reveal_strlit("src-");
        assert(out@ =~= output_id_spec(relative_stem@, idx as nat));
    }
    string_of(&out)
}

} // verus!
