//! Decisions of the HTTP interface: who may call it, which targets a request
//! names, which authorization header a webhook gets, and how to call it.
use vstd::prelude::*;
use vstd::utf8::encode_utf8;
use crate::text::{concat3, dedup, dedup_strings, same_text, views};

verus! {

broadcast use vstd::string::group_string_axioms;

/// Whether a request with the bearer `credential` is let in: every request is
/// where no token is configured, else only one that presents the token.
pub fn validator(token: &str, credential: &str) -> (res: bool)
    ensures
        res == (token@.len() == 0 || token@ == credential@),
{
    token.is_empty() || same_text(token, credential)
}

/// The targets of a scan request: its single target (the empty target where
/// none is given), then its list of targets, each kept once.
pub open spec fn request_targets_spec(target: Option<Seq<char>>, targets: Seq<Seq<char>>) -> Seq<
    Seq<char>,
> {
    dedup(
        seq![
            match target {
                Some(t) => t,
                None => Seq::empty(),
            },
        ] + targets,
    )
}

/// The targets of a scan request, as [`request_targets_spec`] states.
pub fn request_targets(target: Option<String>, targets: Vec<String>) -> (res: Vec<String>)
    ensures
        views(res@) == request_targets_spec(
            match target {
                Some(t) => Some(t@),
                None => None,
            },
            views(targets@),
        ),
{
    let ghost want = match &target {
        Some(t) => t@,
        None => Seq::<char>::empty(),
    };
    let first = match target {
        Some(t) => t,
        None => String::new(),
    };
    assert(first@ == want);
    let mut all: Vec<String> = Vec::new();
    all.push(first);
    let ghost head = views(all@);
    let mut rest = targets;
    let ghost orig = rest@;
    all.append(&mut rest);
    assert(views(all@) == head + views(orig));
    assert(head == seq![want]);
    assert(views(all@) == seq![want] + views(targets@));
    dedup_strings(all)
}

/// Whether a byte may stand in an HTTP header value: visible ASCII, space,
/// tab, or any byte from 128 on.
pub open spec fn header_byte_ok(b: u8) -> bool {
    (b >= 32 && b != 127) || b == 9
}

/// Whether text may be an HTTP header value, byte by byte.
pub open spec fn header_value_ok(bytes: Seq<u8>) -> bool {
    forall|i: int| 0 <= i < bytes.len() ==> header_byte_ok(#[trigger] bytes[i])
}

/// The authorization header a webhook request carries: none where no
/// credential is configured; the credential where it is a valid header
/// value; else the placeholder `AUTHORIZATION`.
pub fn webhook_authorization(auth: &Option<String>) -> (res: Option<String>)
    ensures
        match auth {
            None => res is None,
            Some(a) => res matches Some(h) && h@ == if header_value_ok(encode_utf8(a@)) {
                a@
            } else {
                "AUTHORIZATION"@
            },
        },
{
    match auth {
        None => None,
        Some(a) => {
            let bytes = a.as_str().as_bytes();
            let mut ok = true;
            let mut i: usize = 0;
            while i < bytes.len()
                invariant
                    i <= bytes.len(),
                    ok == (forall|j: int| 0 <= j < i ==> header_byte_ok(#[trigger] bytes@[j])),
                decreases bytes.len() - i,
            {
                let b = bytes[i];
                if !((b >= 32 && b != 127) || b == 9) {
                    ok = false;
                }
                i = i + 1;
            }
            if ok {
                Some(a.clone())
            } else {
                Some("AUTHORIZATION".to_string())
            }
        },
    }
}

/// The example request shown when the service starts, for its address `url`
/// and token.
pub open spec fn api_help_spec(url: Seq<char>, token: Seq<char>) -> Seq<char> {
    "curl --request POST \\\n  --url "@ + url + " \\\n  --header 'Authorization: Bearer "@ + token
        + "' \\\n  --header 'Content-Type: application/json' \\\n  --data '{\"target\":\"https://httpbin.org/\"}'"@
}

/// Builds the example request shown when the service starts.
pub fn api_help(url: &str, token: &str) -> (res: String)
    ensures
        res@ == api_help_spec(url@, token@),
{
    let head = concat3("curl --request POST \\\n  --url ", url, " \\\n  --header 'Authorization: Bearer ");
    concat3(
        head.as_str(),
        token,
        "' \\\n  --header 'Content-Type: application/json' \\\n  --data '{\"target\":\"https://httpbin.org/\"}'",
    )
}


/// A request's targets are its single target (or the empty target) and its
/// listed targets, each once.
pub proof fn law_request_targets(target: Option<Seq<char>>, targets: Seq<Seq<char>>)
    ensures
        request_targets_spec(target, targets).no_duplicates(),
        request_targets_spec(target, targets).contains(
            match target {
                Some(t) => t,
                None => Seq::empty(),
            },
        ),
        forall|t: Seq<char>| #[trigger] targets.contains(t) ==> request_targets_spec(
            target,
            targets,
        ).contains(t),
        forall|t: Seq<char>| #[trigger] request_targets_spec(target, targets).contains(t) ==> (
        targets.contains(t) || t == match target {
            Some(x) => x,
            None => Seq::empty(),
        }),
{
    let first = match target {
        Some(t) => t,
        None => Seq::<char>::empty(),
    };
    let all = seq![first] + targets;
    crate::text::lemma_dedup(all);
    assert(request_targets_spec(target, targets) == dedup(all));
    assert(all[0] == first);
    assert(all.contains(first));
    assert forall|t: Seq<char>| #[trigger] targets.contains(t) implies all.contains(t) by {
        let i = choose|i: int| 0 <= i < targets.len() && targets[i] == t;
        assert(all[i + 1] == t);
    }
    assert forall|t: Seq<char>| #[trigger] request_targets_spec(target, targets).contains(t)
        implies (targets.contains(t) || t == first) by {
        assert(all.contains(t));
        let i = choose|i: int| 0 <= i < all.len() && all[i] == t;
        if i > 0 {
            assert(targets[i - 1] == t);
        }
    }
}

} // verus!
