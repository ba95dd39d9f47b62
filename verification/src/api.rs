use vstd::prelude::*;
use vstd::string::StringSliceAdditionalSpecFns;

use crate::seqs::{find_first, lemma_find_first};
use crate::studio::auth::{login_result, login_with_token, session_token, session_view, switch_workspace, Session};
use crate::studio::billing::{usage_summary, UsageKind, UsageSummary};
use crate::studio::experiments::{assign_variant, byte_sum, PricingVariant};
use crate::studio::invites::{accept_invite, create_invite, invite_token, Invite};
use crate::studio::jobs::{
    advance_job, job_id, next_progress, next_status, queue_job, report_id_view, JobStatus, RemoteJob,
};
use crate::studio::plans::{feature_gate, gate_feature, plan_features, within_run_limit, PlanId};
use crate::studio::store::{session_has_token, workspace_has_id, StudioData};
use crate::time::Timestamp;
use crate::studio::uploads::{create_upload, upload_id, UploadRecord};
use crate::text::{
    chars_of, owned, ends_with, ends_with_exec, starts_with, starts_with_exec, str_eq, string_of,
    trim_end_matches, trim_end_matches_exec, trim_start_matches, trim_start_matches_exec,
};

verus! {

/// The HTTP methods the service tells apart.
#[derive(Debug, Clone, Copy, PartialEq, Eq, Structural)]
pub enum HttpMethod {
    Get,
    Post,
    Other,
}

/// The endpoints of the service.
#[derive(Debug, Clone, Copy, PartialEq, Eq, Structural)]
pub enum RouteKind {
    Login,
    ListWorkspaces,
    SwitchWorkspace,
    ListReports,
    LoadReport,
    Upload,
    CreateJob,
    GetJob,
    AdvanceJob,
    Usage,
    Plans,
    CreateInvite,
    AcceptInvite,
    PricingExperiment,
    AdminOverview,
    AdminSupport,
    ApplyRetention,
    NotFound,
}

/// The endpoint a request goes to, with the id taken from its path (empty
/// for endpoints without one).
#[derive(Debug, Clone, PartialEq, Eq)]
pub struct Route {
    pub kind: RouteKind,
    pub arg: String,
}

/// The endpoint of a request and the id in its path, checked in the order
/// the service lists them.
pub open spec fn route_of(m: HttpMethod, p: Seq<char>) -> (RouteKind, Seq<char>) {
    let none = Seq::<char>::empty();
    if m == HttpMethod::Post && p == "/auth/login"@ {
        (RouteKind::Login, none)
    } else if m == HttpMethod::Get && p == "/workspaces"@ {
        (RouteKind::ListWorkspaces, none)
    } else if m == HttpMethod::Post && p == "/workspaces/switch"@ {
        (RouteKind::SwitchWorkspace, none)
    } else if m == HttpMethod::Get && p == "/reports"@ {
        (RouteKind::ListReports, none)
    } else if m == HttpMethod::Get && starts_with(p, "/reports/"@) {
        (RouteKind::LoadReport, trim_start_matches(p, "/reports/"@))
    } else if m == HttpMethod::Post && p == "/uploads"@ {
        (RouteKind::Upload, none)
    } else if m == HttpMethod::Post && p == "/jobs"@ {
        (RouteKind::CreateJob, none)
    } else if m == HttpMethod::Get && starts_with(p, "/jobs/"@) {
        (RouteKind::GetJob, trim_start_matches(p, "/jobs/"@))
    } else if m == HttpMethod::Post && starts_with(p, "/jobs/"@) && ends_with(p, "/advance"@) {
        (RouteKind::AdvanceJob, trim_end_matches(trim_start_matches(p, "/jobs/"@), "/advance"@))
    } else if m == HttpMethod::Get && p == "/usage"@ {
        (RouteKind::Usage, none)
    } else if m == HttpMethod::Get && p == "/plans"@ {
        (RouteKind::Plans, none)
    } else if m == HttpMethod::Post && p == "/invites"@ {
        (RouteKind::CreateInvite, none)
    } else if m == HttpMethod::Post && p == "/invites/accept"@ {
        (RouteKind::AcceptInvite, none)
    } else if m == HttpMethod::Get && p == "/experiments/pricing"@ {
        (RouteKind::PricingExperiment, none)
    } else if m == HttpMethod::Get && p == "/admin/overview"@ {
        (RouteKind::AdminOverview, none)
    } else if m == HttpMethod::Get && starts_with(p, "/admin/support/"@) {
        (RouteKind::AdminSupport, trim_start_matches(p, "/admin/support/"@))
    } else if m == HttpMethod::Post && p == "/retention/apply"@ {
        (RouteKind::ApplyRetention, none)
    } else {
        (RouteKind::NotFound, none)
    }
}

fn plain(kind: RouteKind) -> (r: Route)
    ensures
        r.kind == kind,
        r.arg@ == Seq::<char>::empty(),
{
    Route { kind, arg: String::new() }
}

fn with_arg(kind: RouteKind, arg: Vec<char>) -> (r: Route)
    ensures
        r.kind == kind,
        r.arg@ == arg@,
{
    Route { kind, arg: string_of(arg.as_slice()) }
}

/// The endpoint a request goes to.
pub fn route(method: HttpMethod, path: &str) -> (r: Route)
    ensures
        r.kind == route_of(method, path@).0,
        r.arg@ == route_of(method, path@).1,
{
    let p = chars_of(path);
    let get = method == HttpMethod::Get;
    let post = method == HttpMethod::Post;
    let reports = chars_of("/reports/");
    let jobs = chars_of("/jobs/");
    let advance = chars_of("/advance");
    let support = chars_of("/admin/support/");
    if post && str_eq(path, "/auth/login") {
        plain(RouteKind::Login)
    } else if get && str_eq(path, "/workspaces") {
        plain(RouteKind::ListWorkspaces)
    } else if post && str_eq(path, "/workspaces/switch") {
        plain(RouteKind::SwitchWorkspace)
    } else if get && str_eq(path, "/reports") {
        plain(RouteKind::ListReports)
    } else if get && starts_with_exec(p.as_slice(), reports.as_slice()) {
        with_arg(RouteKind::LoadReport, trim_start_matches_exec(p.as_slice(), reports.as_slice()))
    } else if post && str_eq(path, "/uploads") {
        plain(RouteKind::Upload)
    } else if post && str_eq(path, "/jobs") {
        plain(RouteKind::CreateJob)
    } else if get && starts_with_exec(p.as_slice(), jobs.as_slice()) {
        with_arg(RouteKind::GetJob, trim_start_matches_exec(p.as_slice(), jobs.as_slice()))
    } else if post && starts_with_exec(p.as_slice(), jobs.as_slice()) && ends_with_exec(
        p.as_slice(),
        advance.as_slice(),
    ) {
        let t = trim_start_matches_exec(p.as_slice(), jobs.as_slice());
        with_arg(RouteKind::AdvanceJob, trim_end_matches_exec(t.as_slice(), advance.as_slice()))
    } else if get && str_eq(path, "/usage") {
        plain(RouteKind::Usage)
    } else if get && str_eq(path, "/plans") {
        plain(RouteKind::Plans)
    } else if post && str_eq(path, "/invites") {
        plain(RouteKind::CreateInvite)
    } else if post && str_eq(path, "/invites/accept") {
        plain(RouteKind::AcceptInvite)
    } else if get && str_eq(path, "/experiments/pricing") {
        plain(RouteKind::PricingExperiment)
    } else if get && str_eq(path, "/admin/overview") {
        plain(RouteKind::AdminOverview)
    } else if get && starts_with_exec(p.as_slice(), support.as_slice()) {
        with_arg(RouteKind::AdminSupport, trim_start_matches_exec(p.as_slice(), support.as_slice()))
    } else if post && str_eq(path, "/retention/apply") {
        plain(RouteKind::ApplyRetention)
    } else {
        plain(RouteKind::NotFound)
    }
}

/// The token of an `Authorization` header: what follows `Bearer `.
pub open spec fn bearer_of(value: Seq<char>) -> Option<Seq<char>> {
    if starts_with(value, "Bearer "@) {
        Some(value.skip(7))
    } else {
        None
    }
}

/// The token of an `Authorization` header value, if it is a bearer token.
pub fn bearer_token(value: &str) -> (r: Option<String>)
    ensures
        match r {
            Some(t) => bearer_of(value@) == Some(t@),
            None => bearer_of(value@) is None,
        },
{
    let v = chars_of(value);
    let prefix = chars_of("Bearer ");
    proof {
        reveal_strlit("Bearer ");
    }
    if starts_with_exec(v.as_slice(), prefix.as_slice()) {
        let rest = crate::text::chars_from_index(v.as_slice(), 7);
        Some(string_of(rest.as_slice()))
    } else {
        None
    }
}

// ---------------------------------------------------------------------------
// Base64
// ---------------------------------------------------------------------------

/// The value of a base64 digit (`A`-`Z`, `a`-`z`, `0`-`9`, `+`, `/`).
pub open spec fn b64_value(b: u8) -> Option<u8> {
    if 65 <= b <= 90 {
        Some((b - 65) as u8)
    } else if 97 <= b <= 122 {
        Some((b - 71) as u8)
    } else if 48 <= b <= 57 {
        Some((b + 4) as u8)
    } else if b == 43 {
        Some(62u8)
    } else if b == 47 {
        Some(63u8)
    } else {
        None
    }
}

/// ASCII white space (`u8::is_ascii_whitespace`).
pub open spec fn is_ascii_ws(b: u8) -> bool {
    b == 32 || b == 9 || b == 10 || b == 12 || b == 13
}

/// `p` before the digits of `o`, if there are any.
pub open spec fn prepend(p: Seq<u8>, o: Option<Seq<u8>>) -> Option<Seq<u8>> {
    match o {
        Some(t) => Some(p + t),
        None => None,
    }
}

/// The digit values of base64 text: white space is skipped, the text ends
/// at the first `=`, and any other byte that is not a digit makes it
/// invalid.
pub open spec fn b64_digits(bytes: Seq<u8>) -> Option<Seq<u8>>
    decreases bytes.len(),
{
    if bytes.len() == 0 {
        Some(Seq::empty())
    } else if is_ascii_ws(bytes[0]) {
        b64_digits(bytes.drop_first())
    } else if bytes[0] == 61 {
        Some(Seq::empty())
    } else {
        match b64_value(bytes[0]) {
            None => None,
            Some(v) => prepend(seq![v], b64_digits(bytes.drop_first())),
        }
    }
}

/// The first byte of a group.
pub open spec fn byte0(a: u8, b: u8) -> u8 {
    (a * 4 + b / 16) as u8
}

/// The second byte of a group.
pub open spec fn byte1(b: u8, c: u8) -> u8 {
    ((b % 16) * 16 + c / 4) as u8
}

/// The third byte of a group.
pub open spec fn byte2(c: u8, d: u8) -> u8 {
    ((c % 4) * 64 + d) as u8
}

/// The three bytes of the group of four digits that `v` starts with.
pub open spec fn group_bytes(v: Seq<u8>) -> Seq<u8> {
    seq![byte0(v[0], v[1]), byte1(v[1], v[2]), byte2(v[2], v[3])]
}

/// The bytes that base64 digit values stand for: each group of four digits
/// gives three bytes; a final group of three gives two, of two gives one,
/// of one gives none.
pub open spec fn b64_bytes(v: Seq<u8>) -> Seq<u8>
    decreases v.len(),
{
    if v.len() >= 4 {
        group_bytes(v) + b64_bytes(v.skip(4))
    } else if v.len() == 3 {
        seq![byte0(v[0], v[1]), byte1(v[1], v[2])]
    } else if v.len() == 2 {
        seq![byte0(v[0], v[1])]
    } else {
        Seq::empty()
    }
}

/// What one more digit adds to the bytes of the digits before it.
pub open spec fn b64_step(v: Seq<u8>, i: int) -> Seq<u8> {
    if i % 4 == 0 {
        Seq::empty()
    } else if i % 4 == 1 {
        seq![byte0(v[i - 1], v[i])]
    } else if i % 4 == 2 {
        seq![byte1(v[i - 1], v[i])]
    } else {
        seq![byte2(v[i - 1], v[i])]
    }
}

proof fn lemma_b64_small(v: Seq<u8>, i: int)
    requires
        0 <= i < v.len(),
        i < 4,
    ensures
        b64_bytes(v.take(i + 1)) == b64_bytes(v.take(i)) + b64_step(v, i),
{
    let a = v.take(i + 1);
    let b = v.take(i);
    if i == 3 {
        assert(a.len() == 4);
        assert(a.skip(4).len() == 0);
        assert(b64_bytes(a.skip(4)) == Seq::<u8>::empty());
        assert(b64_bytes(a) == group_bytes(a) + b64_bytes(a.skip(4)));
        assert(b64_bytes(a) =~= b64_bytes(b) + b64_step(v, i));
    } else if i == 2 {
        assert(b64_bytes(a) =~= b64_bytes(b) + b64_step(v, i));
    } else if i == 1 {
        assert(b64_bytes(a) =~= b64_bytes(b) + b64_step(v, i));
    } else {
        assert(b64_bytes(a) =~= b64_bytes(b) + b64_step(v, i));
    }
}

proof fn lemma_b64_step(v: Seq<u8>, i: int)
    requires
        0 <= i < v.len(),
    ensures
        b64_bytes(v.take(i + 1)) == b64_bytes(v.take(i)) + b64_step(v, i),
    decreases i,
{
    if i >= 4 {
        let a = v.take(i + 1);
        let b = v.take(i);
        let w = v.skip(4);
        lemma_b64_step(w, i - 4);
        assert(a.skip(4) =~= w.take(i - 3));
        assert(b.skip(4) =~= w.take(i - 4));
        assert(group_bytes(a) =~= group_bytes(b));
        assert(b64_step(w, i - 4) =~= b64_step(v, i));
        let g = group_bytes(b);
        let x = b64_bytes(w.take(i - 4));
        let y = b64_step(v, i);
        assert(b64_bytes(a) == g + (x + y));
        assert(b64_bytes(b) == g + x);
        assert(g + (x + y) =~= (g + x) + y);
    } else {
        lemma_b64_small(v, i);
    }
}

/// Why a base64 text could not be decoded.
pub open spec fn invalid_base64() -> Seq<char> {
    "Invalid base64"@
}

/// Decodes base64 text (standard alphabet; white space skipped; the text
/// ends at the first `=`).
pub fn base64_decode(input: &str) -> (r: Result<Vec<u8>, String>)
    ensures
        match b64_digits(input.spec_bytes()) {
            None => r matches Err(e) && e@ == invalid_base64(),
            Some(v) => r matches Ok(out) && out@ == b64_bytes(v),
        },
{
    let bytes = input.as_bytes();
    let n = bytes.len();
    let mut output: Vec<u8> = Vec::new();
    let mut buffer: u32 = 0;
    let mut bits: i32 = 0;
    let mut count: usize = 0;
    let ghost mut digits: Seq<u8> = Seq::empty();
    let mut i: usize = 0;
    proof {
        assert(bytes@.skip(0) =~= bytes@);
        match b64_digits(bytes@) {
            Some(t) => {
                assert(Seq::<u8>::empty() + t =~= t);
            },
            None => {},
        }
    }
    while i < n
        invariant_except_break
            n == bytes@.len(),
            bytes@ == input.spec_bytes(),
            i <= n,
            count == digits.len(),
            count <= i,
            b64_digits(bytes@) == prepend(digits, b64_digits(bytes@.skip(i as int))),
            output@ == b64_bytes(digits),
            count % 4 == 0 ==> bits == 0 && buffer == 0,
            count % 4 == 1 ==> bits == 6 && buffer == digits[count - 1],
            count % 4 == 2 ==> bits == 4 && buffer == digits[count - 1] % 16,
            count % 4 == 3 ==> bits == 2 && buffer == digits[count - 1] % 4,
            forall|k: int| 0 <= k < digits.len() ==> digits[k] < 64,
        ensures
            b64_digits(bytes@) == Some(digits),
            output@ == b64_bytes(digits),
        decreases n - i,
    {
        let ch = bytes[i];
        proof {
            assert(bytes@.skip(i as int)[0] == ch);
            assert(bytes@.skip(i as int).drop_first() =~= bytes@.skip(i + 1));
        }
        if ch == 32 || ch == 9 || ch == 10 || ch == 12 || ch == 13 {
            i = i + 1;
        } else if ch == 61 {
            proof {
                assert(digits + Seq::<u8>::empty() =~= digits);
            }
            break;
        } else {
            let value: u32 = if 65 <= ch && ch <= 90 {
                (ch - 65) as u32
            } else if 97 <= ch && ch <= 122 {
                (ch - 71) as u32
            } else if 48 <= ch && ch <= 57 {
                (ch + 4) as u32
            } else if ch == 43 {
                62
            } else if ch == 47 {
                63
            } else {
                return Err(crate::text::owned("Invalid base64"));
            };
            let ghost v = value as u8;
            let ghost old_digits = digits;
            proof {
                assert(b64_value(ch) == Some(v));
                digits = digits.push(v);
                assert(prepend(old_digits, prepend(seq![v], b64_digits(bytes@.skip(i + 1)))) == prepend(
                    digits,
                    b64_digits(bytes@.skip(i + 1)),
                )) by {
                    assert(old_digits + seq![v] =~= digits);
                    match b64_digits(bytes@.skip(i + 1)) {
                        Some(t) => {
                            assert(old_digits + (seq![v] + t) =~= digits + t);
                        },
                        None => {},
                    }
                }
                assert(digits.take(count as int) =~= old_digits);
                assert(digits.take(count + 1) =~= digits);
                lemma_b64_step(digits, count as int);
            }
            let old_buffer = buffer;
            buffer = (buffer << 6) | value;
            bits = bits + 6;
            if bits >= 8 {
                bits = bits - 8;
                let byte = (buffer >> (bits as u32)) as u8;
                proof {
                    if count % 4 == 1 {
                        let a = old_buffer;
                        assert(a < 64 && value < 64);
                        assert(((a << 6) | value) >> 4u32 == a * 4 + value / 16 && a * 4 + value / 16 < 256
                            && ((a << 6) | value) & (((1u32 << 4u32) - 1) as u32) == value % 16) by (bit_vector)
                            requires
                                a < 64,
                                value < 64,
                        ;
                        assert((1u32 << 4u32) == 16u32) by (bit_vector);
                    } else if count % 4 == 2 {
                        let b = old_buffer;
                        assert(((b << 6) | value) >> 2u32 == b * 16 + value / 4 && b * 16 + value / 4 < 256
                            && ((b << 6) | value) & (((1u32 << 2u32) - 1) as u32) == value % 4) by (bit_vector)
                            requires
                                b < 16,
                                value < 64,
                        ;
                        assert((1u32 << 2u32) == 4u32) by (bit_vector);
                    } else {
                        let c = old_buffer;
                        assert(((c << 6) | value) >> 0u32 == c * 64 + value && c * 64 + value < 256
                            && ((c << 6) | value) & (((1u32 << 0u32) - 1) as u32) == 0) by (bit_vector)
                            requires
                                c < 4,
                                value < 64,
                        ;
                        assert((1u32 << 0u32) == 1u32) by (bit_vector);
                    }
                }
                output.push(byte);
                buffer = buffer & ((1u32 << (bits as u32)) - 1);
            } else {
                proof {
                    assert((0u32 << 6) | value == value) by (bit_vector);
                }
            }
            count = count + 1;
            i = i + 1;
            proof {
                assert(output@ =~= b64_bytes(digits));
            }
        }
    }
    proof {
        if i == n {
            assert(bytes@.skip(n as int) =~= Seq::<u8>::empty());
            assert(digits + Seq::<u8>::empty() =~= digits);
        }
    }
    Ok(output)
}

/// The base64 digit for a value below 64.
pub open spec fn b64_char(x: u8) -> u8 {
    if x < 26 {
        (x + 65) as u8
    } else if x < 52 {
        (x + 71) as u8
    } else if x < 62 {
        (x - 4) as u8
    } else if x == 62 {
        43u8
    } else {
        47u8
    }
}

/// Standard base64 text, padded with `=`, of `v`.
pub open spec fn b64_text(v: Seq<u8>) -> Seq<u8>
    decreases v.len(),
{
    if v.len() >= 3 {
        seq![
            b64_char(v[0] / 4),
            b64_char(((v[0] % 4) * 16 + v[1] / 16) as u8),
            b64_char(((v[1] % 16) * 4 + v[2] / 64) as u8),
            b64_char(v[2] % 64),
        ] + b64_text(v.skip(3))
    } else if v.len() == 2 {
        seq![
            b64_char(v[0] / 4),
            b64_char(((v[0] % 4) * 16 + v[1] / 16) as u8),
            b64_char(((v[1] % 16) * 4) as u8),
            61u8,
        ]
    } else if v.len() == 1 {
        seq![b64_char(v[0] / 4), b64_char(((v[0] % 4) * 16) as u8), 61u8, 61u8]
    } else {
        Seq::empty()
    }
}

proof fn lemma_b64_char(x: u8)
    requires
        x < 64,
    ensures
        b64_value(b64_char(x)) == Some(x),
        !is_ascii_ws(b64_char(x)),
        b64_char(x) != 61,
{
}

proof fn lemma_b64_digit_front(x: u8, rest: Seq<u8>)
    requires
        x < 64,
    ensures
        b64_digits(seq![b64_char(x)] + rest) == prepend(seq![x], b64_digits(rest)),
{
    lemma_b64_char(x);
    let t = seq![b64_char(x)] + rest;
    assert(t[0] == b64_char(x));
    assert(t.drop_first() =~= rest);
}

proof fn lemma_prepend_assoc(a: Seq<u8>, b: Seq<u8>, o: Option<Seq<u8>>)
    ensures
        prepend(a, prepend(b, o)) == prepend(a + b, o),
{
    match o {
        Some(t) => {
            assert(a + (b + t) =~= (a + b) + t);
        },
        None => {},
    }
}

proof fn lemma_four_digits(a: u8, b: u8, c: u8, d: u8, rest: Seq<u8>)
    requires
        a < 64,
        b < 64,
        c < 64,
        d < 64,
    ensures
        b64_digits(seq![b64_char(a), b64_char(b), b64_char(c), b64_char(d)] + rest) == prepend(
            seq![a, b, c, d],
            b64_digits(rest),
        ),
{
    let t4 = seq![b64_char(d)] + rest;
    let t3 = seq![b64_char(c)] + t4;
    let t2 = seq![b64_char(b)] + t3;
    let t1 = seq![b64_char(a)] + t2;
    assert(seq![b64_char(a), b64_char(b), b64_char(c), b64_char(d)] + rest =~= t1);
    lemma_b64_digit_front(a, t2);
    lemma_b64_digit_front(b, t3);
    lemma_b64_digit_front(c, t4);
    lemma_b64_digit_front(d, rest);
    lemma_prepend_assoc(seq![c], seq![d], b64_digits(rest));
    lemma_prepend_assoc(seq![b], seq![c] + seq![d], b64_digits(rest));
    lemma_prepend_assoc(seq![a], seq![b] + (seq![c] + seq![d]), b64_digits(rest));
    assert(seq![a] + (seq![b] + (seq![c] + seq![d])) =~= seq![a, b, c, d]);
}

proof fn lemma_group_arith(b0: u8, b1: u8, b2: u8)
    ensures
        byte0(b0 / 4, ((b0 % 4) * 16 + b1 / 16) as u8) == b0,
        byte1(((b0 % 4) * 16 + b1 / 16) as u8, ((b1 % 16) * 4 + b2 / 64) as u8) == b1,
        byte2(((b1 % 16) * 4 + b2 / 64) as u8, b2 % 64) == b2,
        byte1(((b0 % 4) * 16 + b1 / 16) as u8, ((b1 % 16) * 4) as u8) == b1,
        byte0(b0 / 4, ((b0 % 4) * 16) as u8) == b0,
{
    assert(byte0(b0 / 4, ((b0 % 4) * 16 + b1 / 16) as u8) == b0) by (bit_vector);
    assert(byte1(((b0 % 4) * 16 + b1 / 16) as u8, ((b1 % 16) * 4 + b2 / 64) as u8) == b1) by (bit_vector);
    assert(byte2(((b1 % 16) * 4 + b2 / 64) as u8, b2 % 64) == b2) by (bit_vector);
    assert(byte1(((b0 % 4) * 16 + b1 / 16) as u8, ((b1 % 16) * 4) as u8) == b1) by (bit_vector);
    assert(byte0(b0 / 4, ((b0 % 4) * 16) as u8) == b0) by (bit_vector);
}

/// Decoding standard padded base64 text of any bytes gives those bytes
/// back.
pub proof fn law_base64_round_trip(v: Seq<u8>)
    ensures
        b64_digits(b64_text(v)) matches Some(d) && b64_bytes(d) == v,
    decreases v.len(),
{
    if v.len() >= 3 {
        let (b0, b1, b2) = (v[0], v[1], v[2]);
        let a = b0 / 4;
        let b = ((b0 % 4) * 16 + b1 / 16) as u8;
        let c = ((b1 % 16) * 4 + b2 / 64) as u8;
        let d = b2 % 64;
        assert(a < 64 && b < 64 && c < 64 && d < 64);
        law_base64_round_trip(v.skip(3));
        lemma_four_digits(a, b, c, d, b64_text(v.skip(3)));
        let rest = b64_digits(b64_text(v.skip(3)))->0;
        let ds = seq![a, b, c, d] + rest;
        assert(ds.skip(4) =~= rest);
        lemma_group_arith(b0, b1, b2);
        assert(group_bytes(ds) =~= seq![b0, b1, b2]);
        assert(b64_bytes(ds) == group_bytes(ds) + b64_bytes(ds.skip(4)));
        assert(seq![b0, b1, b2] + v.skip(3) =~= v);
    } else if v.len() == 2 {
        let (b0, b1) = (v[0], v[1]);
        let a = b0 / 4;
        let b = ((b0 % 4) * 16 + b1 / 16) as u8;
        let c = ((b1 % 16) * 4) as u8;
        assert(a < 64 && b < 64 && c < 64);
        let pad = seq![61u8];
        assert(b64_digits(pad) == Some(Seq::<u8>::empty()));
        let t3 = seq![b64_char(c)] + pad;
        let t2 = seq![b64_char(b)] + t3;
        let t1 = seq![b64_char(a)] + t2;
        assert(b64_text(v) =~= t1);
        lemma_b64_digit_front(a, t2);
        lemma_b64_digit_front(b, t3);
        lemma_b64_digit_front(c, pad);
        assert(seq![c] + Seq::<u8>::empty() =~= seq![c]);
        lemma_prepend_assoc(seq![b], seq![c], b64_digits(pad));
        lemma_prepend_assoc(seq![a], seq![b] + seq![c], b64_digits(pad));
        let ds = seq![a] + (seq![b] + seq![c]);
        assert(ds =~= seq![a, b, c]);
        lemma_group_arith(b0, b1, 0);
        assert(b64_bytes(ds) =~= v);
    } else if v.len() == 1 {
        let b0 = v[0];
        let a = b0 / 4;
        let b = ((b0 % 4) * 16) as u8;
        assert(a < 64 && b < 64);
        let pad = seq![61u8, 61u8];
        assert(b64_digits(pad) == Some(Seq::<u8>::empty()));
        let t2 = seq![b64_char(b)] + pad;
        let t1 = seq![b64_char(a)] + t2;
        assert(b64_text(v) =~= t1);
        lemma_b64_digit_front(a, t2);
        lemma_b64_digit_front(b, pad);
        assert(seq![b] + Seq::<u8>::empty() =~= seq![b]);
        lemma_prepend_assoc(seq![a], seq![b], b64_digits(pad));
        let ds = seq![a] + seq![b];
        assert(ds =~= seq![a, b]);
        lemma_group_arith(b0, 0, 0);
        assert(b64_bytes(ds) =~= v);
    } else {
        assert(b64_text(v) =~= Seq::<u8>::empty());
    }
}

// ---------------------------------------------------------------------------
// Requests against the studio data
// ---------------------------------------------------------------------------

/// A refused request: the HTTP status and the message sent back.
#[derive(Debug, Clone, PartialEq, Eq)]
pub struct ApiError {
    pub status: u16,
    pub message: String,
}

fn api_error(status: u16, message: &str) -> (e: ApiError)
    ensures
        e.status == status,
        e.message@ == message@,
{
    ApiError { status, message: owned(message) }
}

fn copy_text(o: &Option<String>) -> (r: Option<String>)
    ensures
        r == *o,
{
    match o {
        Some(s) => Some(s.clone()),
        None => None,
    }
}

fn copy_session(s: &Session) -> (r: Session)
    ensures
        r == *s,
{
    Session { token: s.token.clone(), user_id: s.user_id.clone(), workspace_id: s.workspace_id.clone() }
}

fn copy_job(j: &RemoteJob) -> (r: RemoteJob)
    ensures
        r == *j,
{
    RemoteJob {
        id: j.id.clone(),
        workspace_id: j.workspace_id.clone(),
        upload_id: j.upload_id.clone(),
        profile: j.profile.clone(),
        status: j.status,
        progress_pct: j.progress_pct,
        created_at: j.created_at,
        updated_at: j.updated_at,
        report_id: copy_text(&j.report_id),
        error: copy_text(&j.error),
    }
}

fn copy_upload(u: &UploadRecord) -> (r: UploadRecord)
    ensures
        r == *u,
{
    UploadRecord {
        id: u.id.clone(),
        workspace_id: u.workspace_id.clone(),
        filename: u.filename.clone(),
        stored_path: u.stored_path.clone(),
        bytes: u.bytes,
        created_at: u.created_at,
    }
}

fn copy_invite(i: &Invite) -> (r: Invite)
    ensures
        r == *i,
{
    Invite {
        token: i.token.clone(),
        workspace_id: i.workspace_id.clone(),
        email: i.email.clone(),
        created_at: i.created_at,
        accepted: i.accepted,
    }
}

/// The session a request acts in: refused with 401 when it carries no
/// bearer token or a token of no session.
pub fn authenticate(data: &StudioData, auth: Option<String>) -> (r: Result<Session, ApiError>)
    ensures
        match auth {
            None => r matches Err(e) && e.status == 401 && e.message@ == "Missing Authorization header"@,
            Some(t) => {
                let i = find_first(data.sessions@, session_has_token(t@));
                if i < 0 {
                    r matches Err(e) && e.status == 401 && e.message@ == "Invalid session"@
                } else {
                    r == Ok::<Session, ApiError>(data.sessions@[i])
                }
            },
        },
{
    let token = match auth {
        Some(t) => t,
        None => return Err(api_error(401, "Missing Authorization header")),
    };
    match data.session_by_token(token.as_str()) {
        Some(s) => Ok(copy_session(s)),
        None => Err(api_error(401, "Invalid session")),
    }
}

/// Signs in with an API token; refused with 401 when no user holds it.
pub fn login(data: &StudioData, api_token: &str) -> (r: Result<Session, ApiError>)
    ensures
        match login_result(data.users@, data.sessions@, api_token@) {
            None => r matches Err(e) && e.status == 401 && e.message@ == "Invalid API token"@,
            Some(v) => r matches Ok(s) && session_view(s) == v,
        },
{
    match login_with_token(data.users.as_slice(), data.sessions.as_slice(), api_token) {
        Some(s) => Ok(s),
        None => Err(api_error(401, "Invalid API token")),
    }
}

/// Moves the session with this token to another workspace. Refused when no
/// workspace has that id, then when no session has that token; the data is
/// then left as it was.
pub fn switch_session_workspace(data: &mut StudioData, session_token_text: &str, workspace_id: &str) -> (r: Result<
    Session,
    String,
>)
    ensures
        ({
            let wi = find_first(old(data).workspaces@, workspace_has_id(workspace_id@));
            let si = find_first(old(data).sessions@, session_has_token(session_token_text@));
            if wi < 0 {
                &&& r matches Err(e) && e@ == "Workspace not found"@
                &&& *final(data) == *old(data)
            } else if si < 0 {
                &&& r matches Err(e) && e@ == "Session not found"@
                &&& *final(data) == *old(data)
            } else {
                &&& r matches Ok(s) && {
                    &&& s.workspace_id@ == workspace_id@
                    &&& s.user_id == old(data).sessions@[si].user_id
                    &&& s.token@ == session_token(old(data).sessions@[si].user_id@, workspace_id@)
                    &&& final(data).sessions@ == old(data).sessions@.update(si, s)
                }
                &&& final(data).users == old(data).users
                &&& final(data).workspaces == old(data).workspaces
                &&& final(data).invites == old(data).invites
                &&& final(data).uploads == old(data).uploads
                &&& final(data).jobs == old(data).jobs
                &&& final(data).usage == old(data).usage
                &&& final(data).experiments == old(data).experiments
            }
        }),
{
    if data.workspace_index(workspace_id).is_none() {
        return Err(owned("Workspace not found"));
    }
    let i = match data.session_index(session_token_text) {
        Some(i) => i,
        None => return Err(owned("Session not found")),
    };
    let mut s = copy_session(&data.sessions[i]);
    switch_workspace(&mut s, workspace_id);
    let out = copy_session(&s);
    data.sessions.set(i, s);
    Ok(out)
}

/// The upload has this id.
pub open spec fn upload_has_id(id: Seq<char>) -> spec_fn(UploadRecord) -> bool {
    |u: UploadRecord| u.id@ == id
}

/// The job has this id.
pub open spec fn job_has_id(id: Seq<char>) -> spec_fn(RemoteJob) -> bool {
    |j: RemoteJob| j.id@ == id
}

/// The invitation has this token.
pub open spec fn invite_has_token(token: Seq<char>) -> spec_fn(Invite) -> bool {
    |i: Invite| i.token@ == token
}

/// Records a file uploaded to the session's workspace at `now` and counts its
/// storage. Refused when the workspace does not exist, then when its plan
/// has no remote jobs; the data is then left as it was.
pub fn register_upload(
    data: &mut StudioData,
    session: &Session,
    filename: &str,
    stored_path: String,
    bytes: u64,
    now: Timestamp,
) -> (r:
    Result<UploadRecord, String>)
    requires
        old(data).usage.storage_bytes + bytes <= u64::MAX,
    ensures
        ({
            let wi = find_first(old(data).workspaces@, workspace_has_id(session.workspace_id@));
            if wi < 0 {
                &&& r matches Err(e) && e@ == "Workspace not found"@
                &&& *final(data) == *old(data)
            } else if !feature_gate(old(data).workspaces@[wi].plan, "remote_jobs"@) {
                &&& r matches Err(e) && e@ == "Plan does not include remote uploads"@
                &&& *final(data) == *old(data)
            } else {
                &&& r matches Ok(u) && {
                    &&& u.id@ == upload_id(session.workspace_id@, now.secs)
                    &&& u.created_at == now
                    &&& u.workspace_id@ == session.workspace_id@
                    &&& u.filename@ == filename@
                    &&& u.stored_path == stored_path
                    &&& u.bytes == bytes
                    &&& final(data).uploads@ == old(data).uploads@.push(u)
                }
                &&& final(data).usage.storage_bytes == old(data).usage.storage_bytes + bytes
                &&& final(data).usage.runs_this_month == old(data).usage.runs_this_month
                &&& final(data).usage.events@.drop_last() == old(data).usage.events@
                &&& final(data).usage.events@.last().kind == UsageKind::StorageBytes
                &&& final(data).usage.events@.last().amount == bytes
                &&& final(data).usage.events@.last().at == now
                &&& final(data).users == old(data).users
                &&& final(data).workspaces == old(data).workspaces
                &&& final(data).sessions == old(data).sessions
                &&& final(data).invites == old(data).invites
                &&& final(data).jobs == old(data).jobs
                &&& final(data).experiments == old(data).experiments
            }
        }),
{
    let wi = match data.workspace_index(session.workspace_id.as_str()) {
        Some(i) => i,
        None => return Err(owned("Workspace not found")),
    };
    if !gate_feature(data.workspaces[wi].plan, "remote_jobs") {
        return Err(owned("Plan does not include remote uploads"));
    }
    data.usage.record_storage(session.workspace_id.as_str(), bytes, now);
    let upload = create_upload(session.workspace_id.as_str(), filename, stored_path, bytes, now);
    data.uploads.push(copy_upload(&upload));
    Ok(upload)
}

/// Queues a check of an uploaded file in the session's workspace and counts
/// the run. Refused, with the data left as it was, when the workspace does
/// not exist, then when the month's runs are used up, then when the plan
/// has no remote jobs, then when no upload has that id. Gives the job and
/// the stored path of the file to check.
pub fn create_job(
    data: &mut StudioData,
    session: &Session,
    upload_id_text: &str,
    profile: &str,
    now: Timestamp,
) -> (r: Result<
    (RemoteJob, String),
    String,
>)
    ensures
        ({
            let wi = find_first(old(data).workspaces@, workspace_has_id(session.workspace_id@));
            let ui = find_first(old(data).uploads@, upload_has_id(upload_id_text@));
            if wi < 0 {
                &&& r matches Err(e) && e@ == "Workspace not found"@
                &&& *final(data) == *old(data)
            } else if old(data).usage.runs_this_month >= plan_features(old(data).workspaces@[wi].plan).max_runs_per_month {
                &&& r matches Err(e) && e@ == "Monthly run limit reached"@
                &&& *final(data) == *old(data)
            } else if !feature_gate(old(data).workspaces@[wi].plan, "remote_jobs"@) {
                &&& r matches Err(e) && e@ == "Plan does not include remote jobs"@
                &&& *final(data) == *old(data)
            } else if ui < 0 {
                &&& r matches Err(e) && e@ == "Upload not found"@
                &&& *final(data) == *old(data)
            } else {
                &&& r matches Ok((job, path)) && {
                    &&& job.id@ == job_id(session.workspace_id@, now.secs)
                    &&& job.created_at == now
                    &&& job.updated_at == now
                    &&& job.workspace_id@ == session.workspace_id@
                    &&& job.upload_id@ == old(data).uploads@[ui].id@
                    &&& job.profile@ == profile@
                    &&& job.status == JobStatus::Queued
                    &&& job.progress_pct == 0
                    &&& job.report_id is None
                    &&& path == old(data).uploads@[ui].stored_path
                    &&& final(data).jobs@ == old(data).jobs@.push(job)
                }
                &&& final(data).usage.runs_this_month == old(data).usage.runs_this_month + 1
                &&& final(data).usage.storage_bytes == old(data).usage.storage_bytes
                &&& final(data).usage.events@.drop_last() == old(data).usage.events@
                &&& final(data).usage.events@.last().kind == UsageKind::QcRun
                &&& final(data).users == old(data).users
                &&& final(data).workspaces == old(data).workspaces
                &&& final(data).sessions == old(data).sessions
                &&& final(data).invites == old(data).invites
                &&& final(data).uploads == old(data).uploads
                &&& final(data).experiments == old(data).experiments
            }
        }),
{
    let wi = match data.workspace_index(session.workspace_id.as_str()) {
        Some(i) => i,
        None => return Err(owned("Workspace not found")),
    };
    let plan = data.workspaces[wi].plan;
    if !within_run_limit(plan, data.usage.runs_this_month) {
        return Err(owned("Monthly run limit reached"));
    }
    if !gate_feature(plan, "remote_jobs") {
        return Err(owned("Plan does not include remote jobs"));
    }
    let n = data.uploads.len();
    let mut ui: usize = 0;
    while ui < n && !str_eq(data.uploads[ui].id.as_str(), upload_id_text)
        invariant
            n == data.uploads@.len(),
            ui <= n,
            forall|j: int| 0 <= j < ui ==> !upload_has_id(upload_id_text@)(#[trigger] data.uploads@[j]),
        decreases n - ui,
    {
        ui = ui + 1;
    }
    proof {
        lemma_find_first(data.uploads@, upload_has_id(upload_id_text@), ui as int);
    }
    if ui == n {
        return Err(owned("Upload not found"));
    }
    let path = data.uploads[ui].stored_path.clone();
    let job = queue_job(session.workspace_id.as_str(), data.uploads[ui].id.as_str(), profile, now);
    data.jobs.push(copy_job(&job));
    data.usage.record_run(session.workspace_id.as_str(), now);
    Ok((job, path))
}

/// The index of the first job with this id.
pub fn job_index(data: &StudioData, id: &str) -> (r: Option<usize>)
    ensures
        match r {
            Some(i) => i < data.jobs@.len() && i as int == find_first(data.jobs@, job_has_id(id@)),
            None => find_first(data.jobs@, job_has_id(id@)) == -1,
        },
{
    let n = data.jobs.len();
    let mut i: usize = 0;
    while i < n && !str_eq(data.jobs[i].id.as_str(), id)
        invariant
            n == data.jobs@.len(),
            i <= n,
            forall|j: int| 0 <= j < i ==> !job_has_id(id@)(#[trigger] data.jobs@[j]),
        decreases n - i,
    {
        i = i + 1;
    }
    proof {
        lemma_find_first(data.jobs@, job_has_id(id@), i as int);
    }
    if i < n {
        Some(i)
    } else {
        None
    }
}

/// The first job with this id.
pub fn get_job(data: &StudioData, id: &str) -> (r: Option<RemoteJob>)
    ensures
        ({
            let i = find_first(data.jobs@, job_has_id(id@));
            if i < 0 {
                r is None
            } else {
                r == Some(data.jobs@[i])
            }
        }),
{
    match job_index(data, id) {
        Some(i) => Some(copy_job(&data.jobs[i])),
        None => None,
    }
}

/// Moves the first job with this id one step on; refused, with the data
/// left as it was, when there is none.
pub fn advance_job_by_id(data: &mut StudioData, id: &str, now: Timestamp) -> (r: Result<RemoteJob, String>)
    ensures
        ({
            let i = find_first(old(data).jobs@, job_has_id(id@));
            if i < 0 {
                &&& r matches Err(e) && e@ == "Job not found"@
                &&& *final(data) == *old(data)
            } else {
                let before = old(data).jobs@[i];
                &&& r matches Ok(j) && {
                    &&& j.status == next_status(before.status, before.progress_pct)
                    &&& j.progress_pct == next_progress(before.status, before.progress_pct)
                    &&& j.id == before.id
                    &&& j.workspace_id == before.workspace_id
                    &&& j.upload_id == before.upload_id
                    &&& j.profile == before.profile
                    &&& j.created_at == before.created_at
                    &&& j.updated_at == now
                    &&& report_id_view(j.report_id) == if before.status == JobStatus::Running
                        && before.progress_pct >= 90 {
                        Some(before.id@ + "-report"@)
                    } else {
                        report_id_view(before.report_id)
                    }
                    &&& final(data).jobs@ == old(data).jobs@.update(i, j)
                }
                &&& final(data).users == old(data).users
                &&& final(data).workspaces == old(data).workspaces
                &&& final(data).sessions == old(data).sessions
                &&& final(data).invites == old(data).invites
                &&& final(data).uploads == old(data).uploads
                &&& final(data).usage == old(data).usage
                &&& final(data).experiments == old(data).experiments
            }
        }),
{
    let i = match job_index(data, id) {
        Some(i) => i,
        None => return Err(owned("Job not found")),
    };
    let mut job = copy_job(&data.jobs[i]);
    advance_job(&mut job, now);
    let out = copy_job(&job);
    data.jobs.set(i, job);
    Ok(out)
}

/// The report id a job has after a step.
pub open spec fn report_after_step(status: JobStatus, progress: u8, id: Seq<char>, report: Option<Seq<char>>) -> Option<
    Seq<char>,
> {
    if status == JobStatus::Running && progress >= 90 {
        Some(id + "-report"@)
    } else {
        report
    }
}

/// Finishes a remote check of the first job with this id: the job is
/// moved three steps on and, when the check's report was saved, given that
/// report's id. Nothing changes when no job has the id.
pub fn finish_remote_job(data: &mut StudioData, id: &str, report_id: Option<String>, now: Timestamp)
    ensures
        ({
            let i = find_first(old(data).jobs@, job_has_id(id@));
            if i < 0 {
                *final(data) == *old(data)
            } else {
                let b = old(data).jobs@[i];
                let s1 = next_status(b.status, b.progress_pct);
                let p1 = next_progress(b.status, b.progress_pct);
                let s2 = next_status(s1, p1);
                let p2 = next_progress(s1, p1);
                let r1 = report_after_step(b.status, b.progress_pct, b.id@, report_id_view(b.report_id));
                let r2 = report_after_step(s1, p1, b.id@, r1);
                let r3 = report_after_step(s2, p2, b.id@, r2);
                let a = final(data).jobs@[i];
                &&& final(data).jobs@.len() == old(data).jobs@.len()
                &&& forall|k: int| 0 <= k < old(data).jobs@.len() && k != i ==> final(data).jobs@[k] == old(data).jobs@[k]
                &&& a.status == next_status(s2, p2)
                &&& a.progress_pct == next_progress(s2, p2)
                &&& a.id == b.id
                &&& a.workspace_id == b.workspace_id
                &&& a.upload_id == b.upload_id
                &&& a.profile == b.profile
                &&& a.created_at == b.created_at
                &&& a.updated_at == now
                &&& report_id_view(a.report_id) == match report_id {
                    Some(rid) => Some(rid@),
                    None => r3,
                }
                &&& final(data).users == old(data).users
                &&& final(data).workspaces == old(data).workspaces
                &&& final(data).sessions == old(data).sessions
                &&& final(data).invites == old(data).invites
                &&& final(data).uploads == old(data).uploads
                &&& final(data).usage == old(data).usage
                &&& final(data).experiments == old(data).experiments
            }
        }),
{
    let i = match job_index(data, id) {
        Some(i) => i,
        None => return ,
    };
    let mut job = copy_job(&data.jobs[i]);
    advance_job(&mut job, now);
    advance_job(&mut job, now);
    advance_job(&mut job, now);
    match report_id {
        Some(rid) => {
            job.report_id = Some(rid);
        },
        None => {},
    }
    data.jobs.set(i, job);
}

/// The plan and usage totals of a workspace, if it exists.
pub fn usage_for(data: &StudioData, workspace_id: &str) -> (r: Option<(PlanId, UsageSummary)>)
    ensures
        ({
            let i = find_first(data.workspaces@, workspace_has_id(workspace_id@));
            if i < 0 {
                r is None
            } else {
                r matches Some((plan, u)) && plan == data.workspaces@[i].plan
                    && u.runs_this_month == data.usage.runs_this_month
                    && u.storage_bytes == data.usage.storage_bytes
            }
        }),
{
    match data.workspace(workspace_id) {
        Some(w) => Some((w.plan, usage_summary(&data.usage))),
        None => None,
    }
}

/// The plan of a workspace, if it exists.
pub fn plan_for(data: &StudioData, workspace_id: &str) -> (r: Option<PlanId>)
    ensures
        ({
            let i = find_first(data.workspaces@, workspace_has_id(workspace_id@));
            if i < 0 {
                r is None
            } else {
                r == Some(data.workspaces@[i].plan)
            }
        }),
{
    match data.workspace(workspace_id) {
        Some(w) => Some(w.plan),
        None => None,
    }
}

/// Invites `email` to the session's workspace and keeps the invitation.
pub fn invite_member(data: &mut StudioData, session: &Session, email: &str, now: Timestamp) -> (r: Invite)
    ensures
        r.token@ == invite_token(session.workspace_id@, email@),
        r.workspace_id@ == session.workspace_id@,
        r.email@ == email@,
        !r.accepted,
        r.created_at == now,
        final(data).invites@ == old(data).invites@.push(r),
        final(data).users == old(data).users,
        final(data).workspaces == old(data).workspaces,
        final(data).sessions == old(data).sessions,
        final(data).uploads == old(data).uploads,
        final(data).jobs == old(data).jobs,
        final(data).usage == old(data).usage,
        final(data).experiments == old(data).experiments,
{
    let invite = create_invite(session.workspace_id.as_str(), email, now);
    data.invites.push(copy_invite(&invite));
    invite
}

/// Accepts the first invitation with this token; refused, with the data
/// left as it was, when there is none.
pub fn accept_invite_by_token(data: &mut StudioData, token: &str) -> (r: Result<Invite, String>)
    ensures
        ({
            let i = find_first(old(data).invites@, invite_has_token(token@));
            if i < 0 {
                &&& r matches Err(e) && e@ == "Invite not found"@
                &&& *final(data) == *old(data)
            } else {
                let b = old(data).invites@[i];
                &&& r matches Ok(inv) && {
                    &&& inv.accepted
                    &&& inv.token == b.token
                    &&& inv.workspace_id == b.workspace_id
                    &&& inv.email == b.email
                    &&& inv.created_at == b.created_at
                    &&& final(data).invites@ == old(data).invites@.update(i, inv)
                }
                &&& final(data).users == old(data).users
                &&& final(data).workspaces == old(data).workspaces
                &&& final(data).sessions == old(data).sessions
                &&& final(data).uploads == old(data).uploads
                &&& final(data).jobs == old(data).jobs
                &&& final(data).usage == old(data).usage
                &&& final(data).experiments == old(data).experiments
            }
        }),
{
    let n = data.invites.len();
    let mut i: usize = 0;
    while i < n && !str_eq(data.invites[i].token.as_str(), token)
        invariant
            n == data.invites@.len(),
            i <= n,
            forall|j: int| 0 <= j < i ==> !invite_has_token(token@)(#[trigger] data.invites@[j]),
        decreases n - i,
    {
        i = i + 1;
    }
    proof {
        lemma_find_first(data.invites@, invite_has_token(token@), i as int);
    }
    if i == n {
        return Err(owned("Invite not found"));
    }
    let mut invite = copy_invite(&data.invites[i]);
    accept_invite(&mut invite);
    let out = copy_invite(&invite);
    data.invites.set(i, invite);
    Ok(out)
}

/// The pricing variant shown to the session's user.
pub fn pricing_variant_for(data: &StudioData, session: &Session) -> (r: PricingVariant)
    requires
        data.experiments.variants@.len() > 0,
    ensures
        r == data.experiments.variants@[(byte_sum(vstd::utf8::encode_utf8(session.user_id@))
            % data.experiments.variants@.len()) as int],
{
    assign_variant(&data.experiments, session.user_id.as_str())
}

/// How many days of history to keep: the first workspace's setting, or
/// thirty when there is no workspace.
pub fn retention_days_for(data: &StudioData) -> (r: u32)
    ensures
        r == if data.workspaces@.len() > 0 {
            data.workspaces@[0].retention_days
        } else {
            30
        },
{
    if data.workspaces.len() > 0 {
        data.workspaces[0].retention_days
    } else {
        30
    }
}

/// Where the studio service keeps its files and which port it listens on.
#[derive(Debug, Clone, PartialEq, Eq)]
pub struct ServeOptions {
    pub history_dir: String,
    pub studio_dir: String,
    pub upload_dir: String,
    pub port: u16,
    pub config_path: String,
}

impl Default for ServeOptions {
    fn default() -> (o: Self)
        ensures
            o.history_dir@ == crate::DEFAULT_HISTORY_DIR@,
            o.studio_dir@ == crate::DEFAULT_STUDIO_DIR@,
            o.upload_dir@ == ".mediaqa/uploads"@,
            o.port == 8787,
            o.config_path@ == crate::DEFAULT_CONFIG_PATH@,
    {
        ServeOptions {
            history_dir: owned(crate::DEFAULT_HISTORY_DIR),
            studio_dir: owned(crate::DEFAULT_STUDIO_DIR),
            upload_dir: owned(".mediaqa/uploads"),
            port: 8787,
            config_path: owned(crate::DEFAULT_CONFIG_PATH),
        }
    }
}

/// The address the service listens on: the loopback interface at `port`.
pub fn listen_address(port: u16) -> (r: String)
    ensures
        r@ == "127.0.0.1:"@ + crate::text::dec(port as nat),
{
    let mut s = owned("127.0.0.1:");
    crate::text::push_decimal(&mut s, port as u64);
    s
}

} // verus!
