use vstd::prelude::*;

use crate::text::{
    chars_from_index, chars_of, chars_prefix, dec, index_of, index_of_exec, owned, push_chars,
    push_decimal, push_str, string_of, trim_start_matches, trim_start_matches_exec,
};

verus! {

/// The URL without its scheme: every leading `http://`, then every leading
/// `https://`, removed.
pub open spec fn endpoint_of(url: Seq<char>) -> Seq<char> {
    trim_start_matches(trim_start_matches(url, "http://"@), "https://"@)
}

/// The host and the request path of a URL: the endpoint split at its first
/// `/`, the path keeping the `/`; the path is `/` when there is none.
pub open spec fn host_and_path(url: Seq<char>) -> (Seq<char>, Seq<char>) {
    let e = endpoint_of(url);
    let i = index_of(e, seq!['/']);
    if i < 0 {
        (e, seq!['/'])
    } else {
        (e.take(i), e.skip(i))
    }
}

/// The HTTP request that posts `payload` to the URL.
pub open spec fn webhook_request_text(url: Seq<char>, payload: Seq<char>, payload_bytes: nat) -> Seq<char> {
    let (host, path) = host_and_path(url);
    "POST "@ + path + " HTTP/1.1\r\nHost: "@ + host + "\r\nContent-Type: application/json\r\nContent-Length: "@
        + dec(payload_bytes) + "\r\nConnection: close\r\n\r\n"@ + payload
}

/// The host (with its port, if any) and the request path of a webhook URL.
pub fn webhook_target(url: &str) -> (r: (String, String))
    ensures
        r.0@ == host_and_path(url@).0,
        r.1@ == host_and_path(url@).1,
{
    let u = chars_of(url);
    let http = chars_of("http://");
    let https = chars_of("https://");
    let a = trim_start_matches_exec(u.as_slice(), http.as_slice());
    let e = trim_start_matches_exec(a.as_slice(), https.as_slice());
    let slash: Vec<char> = vec!['/'];
    assert(slash@ =~= seq!['/']);
    match index_of_exec(e.as_slice(), slash.as_slice()) {
        Some(i) => {
            let host = chars_prefix(e.as_slice(), i);
            let path = chars_from_index(e.as_slice(), i);
            (string_of(host.as_slice()), string_of(path.as_slice()))
        },
        None => {
            let mut p = String::new();
            push_chars(&mut p, slash.as_slice());
            assert(p@ =~= seq!['/']);
            (string_of(e.as_slice()), p)
        },
    }
}

/// The request that posts the JSON `payload` to the webhook at `url`; its
/// content length counts the payload's UTF-8 bytes.
pub fn webhook_request(url: &str, payload: &str) -> (r: String)
    ensures
        r@ == webhook_request_text(url@, payload@, payload.len() as nat),
{
    let (host, path) = webhook_target(url);
    let mut s = owned("POST ");
    push_str(&mut s, path.as_str());
    push_str(&mut s, " HTTP/1.1\r\nHost: ");
    push_str(&mut s, host.as_str());
    push_str(&mut s, "\r\nContent-Type: application/json\r\nContent-Length: ");
    push_decimal(&mut s, payload.len() as u64);
    push_str(&mut s, "\r\nConnection: close\r\n\r\n");
    push_str(&mut s, payload);
    s
}

} // verus!
