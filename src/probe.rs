//! The per-endpoint probe: up to `tries` connect attempts, each under the
//! timeout; an established connection is shut down for writing before it is
//! reported open.
use vstd::prelude::*;
use crate::qscanner::QScanTcpConnectState;

verus! {

/// What happened to one connect attempt.
#[derive(Debug, PartialEq, Eq)]
pub enum AttemptEvent {
    /// The connection was established, and its write side was shut down
    /// (`shutdown_ok`) or failed to.
    Connected { shutdown_ok: bool },
    /// The connect failed with this error message.
    Failed(String),
    /// The timeout elapsed first; the message describes it.
    TimedOut(String),
}

/// How a probe ended.
#[derive(Debug, PartialEq, Eq)]
pub enum ProbeOutcome {
    Open,
    /// Closed, filtered or unreachable, with a reason for diagnostics.
    Closed(String),
}

impl ProbeOutcome {
    pub open spec fn spec_state(&self) -> QScanTcpConnectState {
        match self {
            ProbeOutcome::Open => QScanTcpConnectState::Open,
            ProbeOutcome::Closed(_) => QScanTcpConnectState::Close,
        }
    }

    /// The state recorded for this outcome.
    pub fn state(&self) -> (r: QScanTcpConnectState)
        ensures
            r == self.spec_state(),
    {
        match self {
            ProbeOutcome::Open => QScanTcpConnectState::Open,
            ProbeOutcome::Closed(_) => QScanTcpConnectState::Close,
        }
    }
}

/// What the probe does after an attempt.
#[derive(Debug, PartialEq, Eq)]
pub enum ProbeStep {
    /// Make another attempt.
    Retry,
    /// The probe is over.
    Done(ProbeOutcome),
    /// The process ran out of file descriptors: the scan cannot go on.
    Fatal,
}

/// The text whose presence in an error message means that file descriptors ran out.
pub open spec fn fd_exhaustion_text() -> Seq<char> {
    seq!['t', 'o', 'o', ' ', 'm', 'a', 'n', 'y', ' ', 'o', 'p', 'e', 'n', ' ', 'f', 'i', 'l', 'e', 's']
}

pub open spec fn has_substring(s: Seq<char>, p: Seq<char>) -> bool {
    exists|i: int| 0 <= i && i + p.len() <= s.len() && #[trigger] s.subrange(i, i + p.len()) == p
}

/// What `str::to_lowercase` returns for a string.
pub uninterp spec fn lower_of(s: Seq<char>) -> Seq<char>;

/// Relies on `str::to_lowercase`: the result depends on the characters alone.
#[verifier::external_body]
fn lowercase(s: &str) -> (r: String)
    ensures
        r@ == lower_of(s@),
{
    s.to_lowercase()
}

/// The characters of `s`, in order.
fn chars_of(s: &str) -> (r: Vec<char>)
    ensures
        r@ == s@,
{
    let n = s.unicode_len();
    let mut r: Vec<char> = Vec::new();
    let mut i: usize = 0;
    while i < n
        invariant
            i <= n,
            n == s@.len(),
            r@ == s@.take(i as int),
        decreases n - i,
    {
        r.push(s.get_char(i));
        assert(r@ =~= s@.take(i + 1));
        i = i + 1;
    }
    assert(s@.take(n as int) =~= s@);
    r
}

/// Whether the (already lower-cased) message says that file descriptors ran out.
pub fn mentions_fd_exhaustion(lowered: &str) -> (r: bool)
    ensures
        r == has_substring(lowered@, fd_exhaustion_text()),
{
    let s = chars_of(lowered);
    let p: Vec<char> = vec!['t', 'o', 'o', ' ', 'm', 'a', 'n', 'y', ' ', 'o', 'p', 'e', 'n', ' ', 'f', 'i', 'l', 'e', 's'];
    assert(p@ =~= fd_exhaustion_text());
    if s.len() < p.len() {
        return false;
    }
    let mut i: usize = 0;
    while i <= s.len() - p.len()
        invariant
            p@ == fd_exhaustion_text(),
            p.len() == 19,
            s.len() >= p.len(),
            i <= s.len(),
            s@ == lowered@,
            forall|k: int| 0 <= k < i ==> #[trigger] s@.subrange(k, k + p.len()) != p@,
        decreases s.len() - i,
    {
        let mut j: usize = 0;
        let mut same = true;
        assert(s@.subrange(i as int, i as int) =~= p@.take(0));
        while j < p.len()
            invariant
                i + p.len() <= s.len(),
                j <= p.len(),
                same == (s@.subrange(i as int, i + j) == p@.take(j as int)),
            decreases p.len() - j,
        {
            proof {
                assert(s@.subrange(i as int, i + j + 1) =~= s@.subrange(i as int, i + j).push(s@[i + j]));
                assert(p@.take(j + 1) =~= p@.take(j as int).push(p@[j as int]));
                if !same {
                    if s@.subrange(i as int, i + j + 1) == p@.take(j + 1) {
                        assert(s@.subrange(i as int, i + j) =~= s@.subrange(i as int, i + j + 1).drop_last());
                        assert(p@.take(j as int) =~= p@.take(j + 1).drop_last());
                    }
                }
            }
            if s[i + j] != p[j] {
                same = false;
                assert(s@.subrange(i as int, i + j + 1).last() != p@.take(j + 1).last());
            }
            j = j + 1;
        }
        assert(p@.take(p.len() as int) =~= p@);
        if same {
            return true;
        }
        i = i + 1;
    }
    assert forall|k: int| 0 <= k && k + p.len() <= s.len() implies #[trigger] s@.subrange(k, k + p.len()) != p@ by {
        assert(k < i);
    }
    false
}

/// Whether an error message says that file descriptors ran out, ignoring case.
pub fn is_fd_exhaustion(msg: &str) -> (r: bool)
    ensures
        r == has_substring(lower_of(msg@), fd_exhaustion_text()),
{
    let lowered = lowercase(msg);
    mentions_fd_exhaustion(lowered.as_str())
}

/// The probe of one endpoint, between attempts.
pub struct ProbeState {
    attempt: u8,
    tries: u8,
}

/// The reason given for a closed endpoint: the error message, a space, the host.
pub open spec fn closed_reason(msg: Seq<char>, host: Seq<char>) -> Seq<char> {
    msg + seq![' '] + host
}

impl ProbeState {
    /// The number of the attempt about to be made, from 1.
    pub closed spec fn attempt(&self) -> int {
        self.attempt as int
    }

    pub closed spec fn tries(&self) -> int {
        self.tries as int
    }

    pub open spec fn wf(&self) -> bool {
        1 <= self.attempt() <= self.tries()
    }

    /// A probe before its first attempt; `tries` 0 is taken as 1.
    pub fn new(tries: u8) -> (r: ProbeState)
        ensures
            r.wf(),
            r.attempt() == 1,
            r.tries() == (if tries == 0 { 1 } else { tries as int }),
    {
        ProbeState { attempt: 1, tries: if tries == 0 { 1 } else { tries } }
    }

    /// Decides what follows an attempt. `host` is the printed address of the
    /// endpoint, added to the reason of a closed outcome.
    pub fn on_attempt(&mut self, event: AttemptEvent, host: &str) -> (r: ProbeStep)
        requires
            old(self).wf(),
        ensures
            final(self).wf(),
            final(self).tries() == old(self).tries(),
            match event {
                AttemptEvent::Connected { shutdown_ok } => {
                    &&& shutdown_ok ==> r == ProbeStep::Done(ProbeOutcome::Open)
                    &&& !shutdown_ok ==> (r matches ProbeStep::Done(ProbeOutcome::Closed(m))
                        && m@ == seq!['s', 'h', 'u', 't', 'd', 'o', 'w', 'n', ' ', 'f', 'a', 'i', 'l', 'e', 'd'])
                },
                AttemptEvent::Failed(msg) => if has_substring(lower_of(msg@), fd_exhaustion_text()) {
                    r == ProbeStep::Fatal
                } else if old(self).attempt() < old(self).tries() {
                    r == ProbeStep::Retry && final(self).attempt() == old(self).attempt() + 1
                } else {
                    r matches ProbeStep::Done(ProbeOutcome::Closed(m)) && m@ == closed_reason(msg@, host@)
                },
                AttemptEvent::TimedOut(msg) => if old(self).attempt() < old(self).tries() {
                    r == ProbeStep::Retry && final(self).attempt() == old(self).attempt() + 1
                } else {
                    r matches ProbeStep::Done(ProbeOutcome::Closed(m)) && m@ == closed_reason(msg@, host@)
                },
            },
    {
        match event {
            AttemptEvent::Connected { shutdown_ok } => {
                if shutdown_ok {
                    ProbeStep::Done(ProbeOutcome::Open)
                } else {
                    let chars: Vec<char> = vec!['s', 'h', 'u', 't', 'd', 'o', 'w', 'n', ' ', 'f', 'a', 'i', 'l', 'e', 'd'];
                    let m = crate::text::string_of_chars(&chars);
                    ProbeStep::Done(ProbeOutcome::Closed(m))
                }
            },
            AttemptEvent::Failed(msg) => {
                if is_fd_exhaustion(msg.as_str()) {
                    ProbeStep::Fatal
                } else {
                    self.after_failure(msg, host)
                }
            },
            AttemptEvent::TimedOut(msg) => self.after_failure(msg, host),
        }
    }

    fn after_failure(&mut self, msg: String, host: &str) -> (r: ProbeStep)
        requires
            old(self).wf(),
        ensures
            final(self).wf(),
            final(self).tries() == old(self).tries(),
            old(self).attempt() < old(self).tries() ==> r == ProbeStep::Retry && final(self).attempt() == old(self).attempt() + 1,
            old(self).attempt() >= old(self).tries() ==> (r matches ProbeStep::Done(ProbeOutcome::Closed(m)) && m@ == closed_reason(msg@, host@)),
    {
        if self.attempt < self.tries {
            self.attempt = self.attempt + 1;
            ProbeStep::Retry
        } else {
            let sep: Vec<char> = vec![' '];
            let mut m = msg;
            m.append(crate::text::string_of_chars(&sep).as_str());
            m.append(host);
            ProbeStep::Done(ProbeOutcome::Closed(m))
        }
    }
}

} // verus!
