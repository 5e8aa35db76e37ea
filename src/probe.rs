use vstd::prelude::*;

use crate::model::{Outcome, ProbeResult, ProbeResultView, ProbeTarget, ProbeTargetView, Scheme, TlsValidation, option_string_view};

verus! {

/// The decimal digit character for `d`, which is below ten.
pub open spec fn digit_char(d: nat) -> char {
    if d == 0 {
        '0'
    } else if d == 1 {
        '1'
    } else if d == 2 {
        '2'
    } else if d == 3 {
        '3'
    } else if d == 4 {
        '4'
    } else if d == 5 {
        '5'
    } else if d == 6 {
        '6'
    } else if d == 7 {
        '7'
    } else if d == 8 {
        '8'
    } else {
        '9'
    }
}

/// The decimal rendering of `n`, without leading zeros.
pub open spec fn decimal(n: nat) -> Seq<char>
    decreases n,
{
    if n < 10 {
        seq![digit_char(n)]
    } else {
        decimal(n / 10) + seq![digit_char(n % 10)]
    }
}

/// Appends the digit `d` to `s`.
fn push_digit(s: &mut String, d: u64)
    requires
        d < 10,
    ensures
        final(s)@ == old(s)@ + seq![digit_char(d as nat)],
{
    match d {
        0 => {
            proof {
                reveal_strlit("0");
            }
            assert("0"@ =~= seq!['0']);
            s.append("0");
        },
        1 => {
            proof {
                reveal_strlit("1");
            }
            assert("1"@ =~= seq!['1']);
            s.append("1");
        },
        2 => {
            proof {
                reveal_strlit("2");
            }
            assert("2"@ =~= seq!['2']);
            s.append("2");
        },
        3 => {
            proof {
                reveal_strlit("3");
            }
            assert("3"@ =~= seq!['3']);
            s.append("3");
        },
        4 => {
            proof {
                reveal_strlit("4");
            }
            assert("4"@ =~= seq!['4']);
            s.append("4");
        },
        5 => {
            proof {
                reveal_strlit("5");
            }
            assert("5"@ =~= seq!['5']);
            s.append("5");
        },
        6 => {
            proof {
                reveal_strlit("6");
            }
            assert("6"@ =~= seq!['6']);
            s.append("6");
        },
        7 => {
            proof {
                reveal_strlit("7");
            }
            assert("7"@ =~= seq!['7']);
            s.append("7");
        },
        8 => {
            proof {
                reveal_strlit("8");
            }
            assert("8"@ =~= seq!['8']);
            s.append("8");
        },
        _ => {
            proof {
                reveal_strlit("9");
            }
            assert("9"@ =~= seq!['9']);
            s.append("9");
        },
    }
}

/// Appends the decimal rendering of `n` to `s`.
pub fn push_decimal(s: &mut String, n: u64)
    ensures
        final(s)@ == old(s)@ + decimal(n as nat),
    decreases n,
{
    if n >= 10 {
        push_decimal(s, n / 10);
        push_digit(s, n % 10);
        assert(s@ =~= old(s)@ + decimal(n as nat));
    } else {
        push_digit(s, n);
    }
}

/// The connection a probe makes: an HTTP(S) request, or a bare TCP connect.
#[derive(Clone, Debug)]
pub enum ProbeRequest {
    Http { url: String, accept_invalid_certs: bool },
    Tcp { address: String },
}

pub enum ProbeRequestView {
    Http { url: Seq<char>, accept_invalid_certs: bool },
    Tcp { address: Seq<char> },
}

impl View for ProbeRequest {
    type V = ProbeRequestView;

    open spec fn view(&self) -> ProbeRequestView {
        match self {
            ProbeRequest::Http { url, accept_invalid_certs } => ProbeRequestView::Http {
                url: url@,
                accept_invalid_certs: *accept_invalid_certs,
            },
            ProbeRequest::Tcp { address } => ProbeRequestView::Tcp { address: address@ },
        }
    }
}

/// `host:port`.
pub open spec fn authority(t: ProbeTargetView) -> Seq<char> {
    t.host + ":"@ + decimal(t.port as nat)
}

/// HTTP and HTTPS targets get a request to `scheme://host:port`; certificate
/// checks are relaxed only for an HTTPS target whose policy is bypassed. SSH and
/// generic targets get a TCP connect to `host:port`.
pub open spec fn request_of(t: ProbeTargetView) -> ProbeRequestView {
    match t.scheme {
        Scheme::Http => ProbeRequestView::Http {
            url: "http://"@ + authority(t),
            accept_invalid_certs: false,
        },
        Scheme::Https => ProbeRequestView::Http {
            url: "https://"@ + authority(t),
            accept_invalid_certs: certs_relaxed(t.scheme, t.tls_validation),
        },
        _ => ProbeRequestView::Tcp { address: authority(t) },
    }
}

fn push_authority(s: &mut String, target: &ProbeTarget)
    ensures
        final(s)@ == old(s)@ + authority(target@),
{
    s.append(target.host.as_str());
    s.append(":");
    push_decimal(s, target.port as u64);
    assert(s@ =~= old(s)@ + authority(target@));
}

/// The connection to make for `target`.
pub fn plan_probe(target: &ProbeTarget) -> (r: ProbeRequest)
    ensures
        r@ == request_of(target@),
{
    match target.scheme {
        Scheme::Http => {
            let mut url = String::from_str("http://");
            push_authority(&mut url, target);
            ProbeRequest::Http { url, accept_invalid_certs: false }
        },
        Scheme::Https => {
            let mut url = String::from_str("https://");
            push_authority(&mut url, target);
            let relaxed = match target.tls_validation {
                TlsValidation::Bypassed => true,
                TlsValidation::Enforced => false,
            };
            ProbeRequest::Http { url, accept_invalid_certs: relaxed }
        },
        _ => {
            let mut address = String::new();
            push_authority(&mut address, target);
            assert(address@ =~= authority(target@));
            ProbeRequest::Tcp { address }
        },
    }
}

/// What went wrong with a connection attempt, as the transport reported it.
#[derive(Clone, Debug)]
pub enum Fault {
    /// The peer actively refused the connection.
    Refused,
    /// The host name could not be resolved.
    NameResolution,
    /// The TLS handshake was rejected.
    TlsHandshake,
    /// The transport gave up waiting.
    TimedOut,
    /// Any other transport fault, with the transport's own description.
    Other { message: String },
}

/// Whether an attempt counts as timed out: the transport said so, or it took
/// longer than the allowed time.
pub open spec fn timed_out(fault: Option<Fault>, elapsed_ms: u64, timeout_ms: u64) -> bool {
    fault == Some(Fault::TimedOut) || elapsed_ms > timeout_ms
}

/// Whether certificate checks are relaxed: only for an HTTPS target whose
/// policy is bypassed. For every other scheme the policy is never applied.
pub open spec fn certs_relaxed(scheme: Scheme, tls: TlsValidation) -> bool {
    scheme == Scheme::Https && tls == TlsValidation::Bypassed
}

/// The outcome of an attempt on a target with scheme `scheme` and certificate
/// policy `tls`.
pub open spec fn outcome_of(
    fault: Option<Fault>,
    scheme: Scheme,
    tls: TlsValidation,
    elapsed_ms: u64,
    timeout_ms: u64,
) -> Outcome {
    if elapsed_ms > timeout_ms {
        Outcome::Timeout
    } else {
        match fault {
            None => Outcome::Reachable,
            Some(Fault::TimedOut) => Outcome::Timeout,
            Some(Fault::Refused) => Outcome::Unreachable,
            Some(Fault::NameResolution) => Outcome::Unreachable,
            Some(Fault::TlsHandshake) => if certs_relaxed(scheme, tls) {
                Outcome::Error
            } else {
                Outcome::Unreachable
            },
            Some(Fault::Other { .. }) => Outcome::Error,
        }
    }
}

pub open spec fn timeout_text(timeout_ms: u64) -> Seq<char> {
    "no answer within "@ + decimal(timeout_ms as nat) + " ms"@
}

/// The detail text that accompanies an outcome.
pub open spec fn detail_of(fault: Option<Fault>, elapsed_ms: u64, timeout_ms: u64) -> Option<
    Seq<char>,
> {
    if elapsed_ms > timeout_ms {
        Some(timeout_text(timeout_ms))
    } else {
        match fault {
            None => None,
            Some(Fault::TimedOut) => Some(timeout_text(timeout_ms)),
            Some(Fault::Refused) => Some("connection refused"@),
            Some(Fault::NameResolution) => Some("host name could not be resolved"@),
            Some(Fault::TlsHandshake) => Some("TLS handshake failed"@),
            Some(Fault::Other { message }) => Some(message@),
        }
    }
}

fn timeout_result(target: ProbeTarget, timeout_ms: u64) -> (r: ProbeResult)
    ensures
        r@.target == target@,
        r@.outcome == Outcome::Timeout,
        r@.detail == Some(timeout_text(timeout_ms)),
{
    let mut d = String::from_str("no answer within ");
    push_decimal(&mut d, timeout_ms);
    d.append(" ms");
    ProbeResult { target, outcome: Outcome::Timeout, detail: Some(d) }
}

/// The result of probing `target` when the attempt ended with `fault` (none on
/// success) after `elapsed_ms`, under a limit of `timeout_ms`.
pub fn classify(target: ProbeTarget, fault: Option<Fault>, elapsed_ms: u64, timeout_ms: u64) -> (r:
    ProbeResult)
    ensures
        r@.target == target@,
        r@.outcome == outcome_of(fault, target.scheme, target.tls_validation, elapsed_ms, timeout_ms),
        r@.detail == detail_of(fault, elapsed_ms, timeout_ms),
{
    if elapsed_ms > timeout_ms {
        return timeout_result(target, timeout_ms);
    }
    match fault {
        None => ProbeResult { target, outcome: Outcome::Reachable, detail: None },
        Some(Fault::TimedOut) => timeout_result(target, timeout_ms),
        Some(Fault::Refused) => ProbeResult {
            target,
            outcome: Outcome::Unreachable,
            detail: Some(String::from_str("connection refused")),
        },
        Some(Fault::NameResolution) => ProbeResult {
            target,
            outcome: Outcome::Unreachable,
            detail: Some(String::from_str("host name could not be resolved")),
        },
        Some(Fault::TlsHandshake) => {
            let relaxed = match (target.scheme, target.tls_validation) {
                (Scheme::Https, TlsValidation::Bypassed) => true,
                _ => false,
            };
            let outcome = if relaxed {
                Outcome::Error
            } else {
                Outcome::Unreachable
            };
            ProbeResult { target, outcome, detail: Some(String::from_str("TLS handshake failed")) }
        },
        Some(Fault::Other { message }) => ProbeResult {
            target,
            outcome: Outcome::Error,
            detail: Some(message),
        },
    }
}

/// An attempt that outlasts the allowed time, or that the transport reports as
/// timed out, always comes out as a timeout, never as an error.
pub proof fn law_timeout_wins(
    fault: Option<Fault>,
    scheme: Scheme,
    tls: TlsValidation,
    elapsed_ms: u64,
    timeout_ms: u64,
)
    requires
        timed_out(fault, elapsed_ms, timeout_ms),
    ensures
        outcome_of(fault, scheme, tls, elapsed_ms, timeout_ms) == Outcome::Timeout,
        detail_of(fault, elapsed_ms, timeout_ms) == Some(timeout_text(timeout_ms)),
{
}

/// The certificate policy of a target that is not HTTPS is never applied: both
/// policies give the same outcome, and the detail does not depend on it.
pub proof fn law_tls_policy_only_for_https(
    fault: Option<Fault>,
    scheme: Scheme,
    elapsed_ms: u64,
    timeout_ms: u64,
)
    requires
        scheme != Scheme::Https,
    ensures
        outcome_of(fault, scheme, TlsValidation::Enforced, elapsed_ms, timeout_ms) == outcome_of(
            fault,
            scheme,
            TlsValidation::Bypassed,
            elapsed_ms,
            timeout_ms,
        ),
{
}

/// A connection refused within the allowed time is unreachable, and its detail
/// says that the connection was refused.
pub proof fn law_refusal_is_unreachable(
    scheme: Scheme,
    tls: TlsValidation,
    elapsed_ms: u64,
    timeout_ms: u64,
)
    requires
        elapsed_ms <= timeout_ms,
    ensures
        outcome_of(Some(Fault::Refused), scheme, tls, elapsed_ms, timeout_ms) == Outcome::Unreachable,
        detail_of(Some(Fault::Refused), elapsed_ms, timeout_ms) == Some("connection refused"@),
{
}

/// A timeout of `secs` seconds in milliseconds, or `None` if that does not fit in a `u64`.
pub fn timeout_millis(secs: u64) -> (r: Option<u64>)
    ensures
        r == (if secs * 1000 <= u64::MAX {
            Some((secs * 1000) as u64)
        } else {
            None
        }),
{
    secs.checked_mul(1000)
}

/// `c` equals `w`, or is the upper-case form of the lower-case ASCII letter `w`.
pub open spec fn fold_eq(c: char, w: char) -> bool {
    c == w || (97 <= (w as u32) <= 122 && (c as u32) + 32 == (w as u32))
}

/// `word` occurs in `text` at position `i`, ignoring ASCII case in `text`.
pub open spec fn occurs_at(text: Seq<char>, word: Seq<char>, i: int) -> bool {
    &&& 0 <= i
    &&& i + word.len() <= text.len()
    &&& forall|k: int| 0 <= k < word.len() ==> fold_eq(#[trigger] text[i + k], word[k])
}

/// `word` occurs somewhere in `text`, ignoring ASCII case in `text`.
pub open spec fn mentions(text: Seq<char>, word: Seq<char>) -> bool {
    exists|i: int| occurs_at(text, word, i)
}

fn occurs_at_exec(text: &str, word: &str, i: usize, n: usize, m: usize) -> (r: bool)
    requires
        n == text@.len(),
        m == word@.len(),
        i + m <= n,
    ensures
        r == occurs_at(text@, word@, i as int),
{
    let mut k: usize = 0;
    while k < m
        invariant
            n == text@.len(),
            m == word@.len(),
            i + m <= n,
            k <= m,
            forall|q: int| 0 <= q < k ==> fold_eq(#[trigger] text@[i + q], word@[q]),
        decreases m - k,
    {
        let c = text.get_char(i + k);
        let w = word.get_char(k);
        let wc = w as u32;
        if !(c == w || (97 <= wc && wc <= 122 && (c as u32) + 32 == wc)) {
            return false;
        }
        k = k + 1;
    }
    true
}

/// Whether `word` occurs in `text`, ignoring ASCII case in `text`.
pub fn mentions_word(text: &str, word: &str) -> (r: bool)
    ensures
        r == mentions(text@, word@),
{
    let n = text.unicode_len();
    let m = word.unicode_len();
    if m > n {
        return false;
    }
    let mut i: usize = 0;
    while i <= n - m
        invariant
            n == text@.len(),
            m == word@.len(),
            m <= n,
            i <= n - m + 1,
            forall|j: int| 0 <= j < i ==> !#[trigger] occurs_at(text@, word@, j),
        decreases n - i,
    {
        if occurs_at_exec(text, word, i, n, m) {
            return true;
        }
        i = i + 1;
    }
    false
}

/// How a failed HTTP request is read: a reported time-out first, then a
/// refused connection, then the transport's description: a failed name lookup,
/// then a certificate or handshake failure; anything else is passed on as is.
pub open spec fn http_fault_of(timed_out: bool, refused: bool, message: String) -> Fault {
    if timed_out {
        Fault::TimedOut
    } else if refused {
        Fault::Refused
    } else if mentions(message@, "dns error"@) || mentions(message@, "failed to lookup"@) {
        Fault::NameResolution
    } else if mentions(message@, "certificate"@) || mentions(message@, "tls"@) || mentions(
        message@,
        "handshake"@,
    ) {
        Fault::TlsHandshake
    } else {
        Fault::Other { message }
    }
}

/// The fault of a failed HTTP request, from whether the transport reported a
/// time-out or a refused connection, and from its description.
pub fn fault_from_http_error(timed_out: bool, refused: bool, message: String) -> (r: Fault)
    ensures
        r == http_fault_of(timed_out, refused, message),
{
    if timed_out {
        return Fault::TimedOut;
    }
    if refused {
        return Fault::Refused;
    }
    if mentions_word(message.as_str(), "dns error") || mentions_word(message.as_str(), "failed to lookup") {
        return Fault::NameResolution;
    }
    if mentions_word(message.as_str(), "certificate") || mentions_word(message.as_str(), "tls")
        || mentions_word(message.as_str(), "handshake") {
        return Fault::TlsHandshake;
    }
    Fault::Other { message }
}

} // verus!
