//! The probe state machine: one Echo Request is sent, then replies are received
//! until one carries the probe's identifier or the wall-clock deadline elapses.
//! The machine here makes every decision of that loop; the caller owns the
//! transport, performs each requested receive, and reports what happened
//! together with the milliseconds elapsed since the probe started.

use crate::packet::{
    echo_request_type, spec_decode, spec_encode, spec_ipv4_decode, EchoReply, EchoRequest,
    IcmpVariant, IpV4Packet, ICMP_HEADER_SIZE,
};
use vstd::prelude::*;

verus! {

/// Bytes in the randomized token payload that distinguishes this probe's
/// packets from unrelated ICMP traffic on a shared socket.
pub const TOKEN_SIZE: usize = 24;

/// Exact size of an encoded Echo Request: fixed header plus token payload.
pub const ECHO_REQUEST_BUFFER_SIZE: usize = ICMP_HEADER_SIZE + TOKEN_SIZE;

/// Timeout applied when none is configured, in milliseconds.
pub const DEFAULT_TIMEOUT_MS: u64 = 4000;

/// Time-to-live (hop limit) applied when none is configured.
pub const DEFAULT_TTL: u32 = 64;

/// Sequence number applied when none is configured.
pub const DEFAULT_SEQ_CNT: u16 = 1;

/// How a probe ends or why it cannot go on.
#[derive(Clone, Copy, Debug, PartialEq, Eq, Structural)]
pub enum ProbeError {
    /// An invariant was violated, such as encoding into a correctly sized
    /// buffer failing.
    Internal,
    /// The outer IPv4 header of a received datagram could not be parsed.
    DecodeV4,
    /// The deadline elapsed with no matching reply.
    TimedOut,
    /// A transport fault other than a receive timeout.
    Transport,
}

/// Where the probe stands. It starts out receiving, right after the send, and
/// ends matched, timed out, or faulted.
#[derive(Clone, Copy, Debug, PartialEq, Eq, Structural)]
pub enum ProbePhase {
    Receiving,
    Matched,
    TimedOut,
    Faulted,
}

/// What the caller must do next: block for one datagram with the given receive
/// deadline, report success, or report the given error.
#[derive(Clone, Copy, Debug, PartialEq, Eq, Structural)]
pub enum ProbeAction {
    Receive { deadline_ms: u64 },
    Succeed,
    Fail { error: ProbeError },
}

/// The caller's options, each with a documented default applied by `resolve`.
#[derive(Debug)]
pub struct ProbeConfig {
    pub timeout_ms: Option<u64>,
    pub ttl: Option<u32>,
    pub ident: Option<u16>,
    pub seq_cnt: Option<u16>,
    pub payload: Option<Vec<u8>>,
}

/// The options with every default filled in: a random identifier and a random
/// 24-byte token where none were supplied.
#[derive(Debug)]
pub struct ResolvedConfig {
    pub timeout_ms: u64,
    pub ttl: u32,
    pub ident: u16,
    pub seq_cnt: u16,
    pub payload: Vec<u8>,
}

/// Relies on rand::random for a uniformly distributed 16-bit identifier;
/// nothing is promised of the value.
#[verifier::external_body]
fn random_u16() -> u16 {
    rand::random()
}

/// Relies on rand::random for a 24-byte random token; only the length is
/// promised.
#[verifier::external_body]
fn random_token() -> (t: Vec<u8>)
    ensures
        t@.len() == TOKEN_SIZE,
{
    rand::random::<[u8; 24]>().to_vec()
}

impl ProbeConfig {
    /// A configuration with every option left to its default.
    pub fn new() -> (c: ProbeConfig)
        ensures
            c.timeout_ms is None,
            c.ttl is None,
            c.ident is None,
            c.seq_cnt is None,
            c.payload is None,
    {
        ProbeConfig { timeout_ms: None, ttl: None, ident: None, seq_cnt: None, payload: None }
    }

    /// Fills in the defaults: 4 seconds timeout, time-to-live 64, sequence
    /// number 1, and a fresh random identifier and random 24-byte token where
    /// none were supplied.
    pub fn resolve(self) -> (r: ResolvedConfig)
        requires
            self.payload matches Some(p) ==> p@.len() == TOKEN_SIZE,
        ensures
            self.timeout_ms matches Some(t) ==> r.timeout_ms == t,
            self.timeout_ms is None ==> r.timeout_ms == DEFAULT_TIMEOUT_MS,
            self.ttl matches Some(t) ==> r.ttl == t,
            self.ttl is None ==> r.ttl == DEFAULT_TTL,
            self.ident matches Some(i) ==> r.ident == i,
            self.seq_cnt matches Some(s) ==> r.seq_cnt == s,
            self.seq_cnt is None ==> r.seq_cnt == DEFAULT_SEQ_CNT,
            self.payload matches Some(p) ==> r.payload@ == p@,
            r.payload@.len() == TOKEN_SIZE,
    {
        let timeout_ms = match self.timeout_ms {
            Some(t) => t,
            None => DEFAULT_TIMEOUT_MS,
        };
        let ttl = match self.ttl {
            Some(t) => t,
            None => DEFAULT_TTL,
        };
        let ident = match self.ident {
            Some(i) => i,
            None => random_u16(),
        };
        let seq_cnt = match self.seq_cnt {
            Some(s) => s,
            None => DEFAULT_SEQ_CNT,
        };
        let payload = match self.payload {
            Some(p) => p,
            None => random_token(),
        };
        ResolvedConfig { timeout_ms, ttl, ident, seq_cnt, payload }
    }
}

/// The receive deadline handed out when `elapsed_ms` have passed of a budget of
/// `timeout_ms`: the remaining budget, never negative.
pub open spec fn spec_deadline(timeout_ms: u64, elapsed_ms: u64) -> u64 {
    if elapsed_ms >= timeout_ms {
        0u64
    } else {
        (timeout_ms - elapsed_ms) as u64
    }
}

/// A received datagram whose outer IPv4 header cannot be parsed; fatal on the
/// V4 path, where the header must be located before the ICMP message.
pub open spec fn spec_fatal_outer(variant: IcmpVariant, raw: Seq<u8>) -> bool {
    variant == IcmpVariant::V4 && spec_ipv4_decode(raw) is Err
}

/// The bytes holding the ICMP message of a received datagram: past the outer
/// header for V4, the datagram itself for V6 (the kernel strips the header).
pub open spec fn spec_inner_message(variant: IcmpVariant, raw: Seq<u8>) -> Seq<u8> {
    match variant {
        IcmpVariant::V4 => spec_ipv4_decode(raw)->Ok_0,
        IcmpVariant::V6 => raw,
    }
}

/// Whether a received datagram is an Echo Reply carrying the probe's
/// identifier. Sequence number and payload play no part in acceptance.
pub open spec fn spec_matches(variant: IcmpVariant, ident: u16, raw: Seq<u8>) -> bool {
    &&& !spec_fatal_outer(variant, raw)
    &&& spec_decode(variant, spec_inner_message(variant, raw)) is Ok
    &&& spec_decode(variant, spec_inner_message(variant, raw))->Ok_0.0 == ident
}

/// The phase a receiving probe moves to on one received datagram: faulted on a
/// corrupt outer header, matched on the probe's own reply, timed out when the
/// budget is spent, otherwise receiving again. A datagram that is no Echo Reply
/// for this probe is not a fault: the loop goes on.
pub open spec fn spec_datagram_phase(
    variant: IcmpVariant,
    ident: u16,
    timeout_ms: u64,
    raw: Seq<u8>,
    elapsed_ms: u64,
) -> ProbePhase {
    if spec_fatal_outer(variant, raw) {
        ProbePhase::Faulted
    } else if spec_matches(variant, ident, raw) {
        ProbePhase::Matched
    } else if elapsed_ms >= timeout_ms {
        ProbePhase::TimedOut
    } else {
        ProbePhase::Receiving
    }
}

/// The action announced with each phase: receive again with the remaining
/// budget, report success, or report the error a fault carries.
pub open spec fn spec_action(
    phase: ProbePhase,
    timeout_ms: u64,
    elapsed_ms: u64,
    fault: ProbeError,
) -> ProbeAction {
    match phase {
        ProbePhase::Receiving => ProbeAction::Receive {
            deadline_ms: spec_deadline(timeout_ms, elapsed_ms),
        },
        ProbePhase::Matched => ProbeAction::Succeed,
        ProbePhase::TimedOut => ProbeAction::Fail { error: ProbeError::TimedOut },
        ProbePhase::Faulted => ProbeAction::Fail { error: fault },
    }
}

/// One probe: the codec variant, the identifier that correlates replies with
/// the request, the total receive budget, and where the probe stands.
#[derive(Clone, Copy, Debug, PartialEq, Eq, Structural)]
pub struct Probe {
    pub variant: IcmpVariant,
    pub ident: u16,
    pub timeout_ms: u64,
    pub phase: ProbePhase,
}

impl Probe {
    /// Encodes the Echo Request into an exact-size buffer and enters the
    /// receive phase. Encoding into the correctly sized buffer cannot fail, so
    /// the result is always the probe and its wire bytes; the error arm mirrors
    /// that an encoding failure would be an internal fault, not an
    /// environmental one.
    pub fn start(variant: IcmpVariant, cfg: &ResolvedConfig) -> (r: Result<
        (Probe, Vec<u8>),
        ProbeError,
    >)
        requires
            cfg.payload@.len() == TOKEN_SIZE,
        ensures
            r is Ok,
            r->Ok_0.0.variant == variant,
            r->Ok_0.0.ident == cfg.ident,
            r->Ok_0.0.timeout_ms == cfg.timeout_ms,
            r->Ok_0.0.phase == ProbePhase::Receiving,
            r->Ok_0.1@.len() == ECHO_REQUEST_BUFFER_SIZE,
            r->Ok_0.1@ == spec_encode(
                variant,
                echo_request_type(variant),
                cfg.ident,
                cfg.seq_cnt,
                cfg.payload@,
                Seq::<u8>::empty(),
            ),
    {
        let mut payload: Vec<u8> = Vec::new();
        let mut k: usize = 0;
        while k < cfg.payload.len()
            invariant
                k <= cfg.payload@.len(),
                payload@ == cfg.payload@.take(k as int),
            decreases cfg.payload@.len() - k,
        {
            proof {
                assert(cfg.payload@.take(k + 1) =~= cfg.payload@.take(k as int).push(
                    cfg.payload@[k as int],
                ));
            }
            payload.push(cfg.payload[k]);
            k = k + 1;
        }
        assert(payload@ =~= cfg.payload@);
        let mut buffer: Vec<u8> = Vec::new();
        let mut b: usize = 0;
        while b < ECHO_REQUEST_BUFFER_SIZE
            invariant
                b <= ECHO_REQUEST_BUFFER_SIZE,
                buffer@.len() == b,
            decreases ECHO_REQUEST_BUFFER_SIZE - b,
        {
            buffer.push(0);
            b = b + 1;
        }
        let request = EchoRequest { ident: cfg.ident, seq_cnt: cfg.seq_cnt, payload };
        let ghost before = buffer@;
        match request.encode(variant, &mut buffer) {
            Ok(()) => {
                proof {
                    assert(before.skip(
                        ICMP_HEADER_SIZE as int + cfg.payload@.len() as int,
                    ) =~= Seq::<u8>::empty());
                }
                let probe = Probe {
                    variant,
                    ident: cfg.ident,
                    timeout_ms: cfg.timeout_ms,
                    phase: ProbePhase::Receiving,
                };
                Ok((probe, buffer))
            },
            Err(_) => Err(ProbeError::Internal),
        }
    }

    /// The receive deadline for the next iteration: the remaining budget,
    /// recomputed from the elapsed time so that unrelated traffic cannot
    /// stretch the total, and never negative.
    pub fn deadline(&self, elapsed_ms: u64) -> (d: u64)
        ensures
            d == spec_deadline(self.timeout_ms, elapsed_ms),
    {
        if elapsed_ms >= self.timeout_ms {
            0
        } else {
            self.timeout_ms - elapsed_ms
        }
    }

    /// One received datagram. A corrupt outer IPv4 header is fatal; a datagram
    /// that is no Echo Reply of this probe's variant, or one with a foreign
    /// identifier, is skipped, timing out when the budget is spent.
    pub fn on_datagram(&mut self, raw: &Vec<u8>, elapsed_ms: u64) -> (a: ProbeAction)
        requires
            old(self).phase == ProbePhase::Receiving,
        ensures
            final(self).variant == old(self).variant,
            final(self).ident == old(self).ident,
            final(self).timeout_ms == old(self).timeout_ms,
            final(self).phase == spec_datagram_phase(
                old(self).variant,
                old(self).ident,
                old(self).timeout_ms,
                raw@,
                elapsed_ms,
            ),
            a == spec_action(
                final(self).phase,
                old(self).timeout_ms,
                elapsed_ms,
                ProbeError::DecodeV4,
            ),
    {
        let matched: bool;
        match self.variant {
            IcmpVariant::V4 => {
                match IpV4Packet::decode(raw) {
                    Err(_) => {
                        self.phase = ProbePhase::Faulted;
                        return ProbeAction::Fail { error: ProbeError::DecodeV4 };
                    },
                    Ok(pkt) => {
                        match EchoReply::decode(IcmpVariant::V4, &pkt.data) {
                            Ok(reply) => {
                                matched = reply.ident == self.ident;
                            },
                            Err(_) => {
                                matched = false;
                            },
                        }
                    },
                }
            },
            IcmpVariant::V6 => {
                match EchoReply::decode(IcmpVariant::V6, raw) {
                    Ok(reply) => {
                        matched = reply.ident == self.ident;
                    },
                    Err(_) => {
                        matched = false;
                    },
                }
            },
        }
        if matched {
            self.phase = ProbePhase::Matched;
            ProbeAction::Succeed
        } else if elapsed_ms >= self.timeout_ms {
            self.phase = ProbePhase::TimedOut;
            ProbeAction::Fail { error: ProbeError::TimedOut }
        } else {
            ProbeAction::Receive { deadline_ms: self.timeout_ms - elapsed_ms }
        }
    }

    /// A receive that the transport ended with a timeout fault. It falls
    /// through to the elapsed-time test rather than failing at once: the probe
    /// times out exactly when the budget is spent, and otherwise receives again
    /// with the remaining budget.
    pub fn on_recv_timeout(&mut self, elapsed_ms: u64) -> (a: ProbeAction)
        requires
            old(self).phase == ProbePhase::Receiving,
        ensures
            final(self).variant == old(self).variant,
            final(self).ident == old(self).ident,
            final(self).timeout_ms == old(self).timeout_ms,
            final(self).phase == (if elapsed_ms >= old(self).timeout_ms {
                ProbePhase::TimedOut
            } else {
                ProbePhase::Receiving
            }),
            a == spec_action(
                final(self).phase,
                old(self).timeout_ms,
                elapsed_ms,
                ProbeError::TimedOut,
            ),
    {
        if elapsed_ms >= self.timeout_ms {
            self.phase = ProbePhase::TimedOut;
            ProbeAction::Fail { error: ProbeError::TimedOut }
        } else {
            ProbeAction::Receive { deadline_ms: self.timeout_ms - elapsed_ms }
        }
    }

    /// A transport fault other than a receive timeout: fatal at once, never
    /// retried.
    pub fn on_recv_fault(&mut self) -> (a: ProbeAction)
        requires
            old(self).phase == ProbePhase::Receiving,
        ensures
            final(self).variant == old(self).variant,
            final(self).ident == old(self).ident,
            final(self).timeout_ms == old(self).timeout_ms,
            final(self).phase == ProbePhase::Faulted,
            a == (ProbeAction::Fail { error: ProbeError::Transport }),
    {
        self.phase = ProbePhase::Faulted;
        ProbeAction::Fail { error: ProbeError::Transport }
    }
}

/// The phase a probe reaches after a sequence of received datagrams, the
/// `j`-th arriving with `elapsed[j]` milliseconds on the clock.
pub open spec fn spec_run_datagrams(
    variant: IcmpVariant,
    ident: u16,
    timeout_ms: u64,
    raws: Seq<Seq<u8>>,
    elapsed: Seq<u64>,
) -> ProbePhase
    decreases raws.len(),
{
    if raws.len() == 0 {
        ProbePhase::Receiving
    } else {
        let prev = spec_run_datagrams(
            variant,
            ident,
            timeout_ms,
            raws.drop_last(),
            elapsed.drop_last(),
        );
        if prev == ProbePhase::Receiving {
            spec_datagram_phase(variant, ident, timeout_ms, raws.last(), elapsed.last())
        } else {
            prev
        }
    }
}

/// A probe that has seen only foreign, non-fatal datagrams within its budget is
/// still receiving.
proof fn lemma_run_receiving(
    variant: IcmpVariant,
    ident: u16,
    timeout_ms: u64,
    raws: Seq<Seq<u8>>,
    elapsed: Seq<u64>,
    j: int,
)
    requires
        raws.len() == elapsed.len(),
        0 <= j <= raws.len(),
        forall|m: int|
            0 <= m < j ==> !spec_matches(variant, ident, #[trigger] raws[m]) && !spec_fatal_outer(
                variant,
                raws[m],
            ),
        forall|m: int| 0 <= m < j ==> #[trigger] elapsed[m] < timeout_ms,
    ensures
        spec_run_datagrams(variant, ident, timeout_ms, raws.take(j), elapsed.take(j))
            == ProbePhase::Receiving,
    decreases j,
{
    if j > 0 {
        lemma_run_receiving(variant, ident, timeout_ms, raws, elapsed, j - 1);
        assert(raws.take(j).drop_last() =~= raws.take(j - 1));
        assert(elapsed.take(j).drop_last() =~= elapsed.take(j - 1));
        assert(raws.take(j).last() == raws[j - 1]);
        assert(elapsed.take(j).last() == elapsed[j - 1]);
    } else {
        assert(raws.take(0).len() == 0);
    }
}

/// Law: in a stream of datagrams of which only the `k`-th is an Echo Reply with
/// the probe's identifier, the earlier ones all arriving within the budget, the
/// probe is still receiving before the `k`-th datagram and matched right after
/// it, however many foreign datagrams came first.
pub proof fn lemma_identifier_filtering(
    variant: IcmpVariant,
    ident: u16,
    timeout_ms: u64,
    raws: Seq<Seq<u8>>,
    elapsed: Seq<u64>,
    k: int,
)
    requires
        raws.len() == elapsed.len(),
        0 <= k < raws.len(),
        forall|j: int|
            0 <= j < k ==> !spec_matches(variant, ident, #[trigger] raws[j]) && !spec_fatal_outer(
                variant,
                raws[j],
            ),
        forall|j: int| 0 <= j < k ==> #[trigger] elapsed[j] < timeout_ms,
        spec_matches(variant, ident, raws[k]),
    ensures
        forall|j: int|
            0 <= j <= k ==> spec_run_datagrams(
                variant,
                ident,
                timeout_ms,
                #[trigger] raws.take(j),
                elapsed.take(j),
            ) == ProbePhase::Receiving,
        spec_run_datagrams(variant, ident, timeout_ms, raws.take(k + 1), elapsed.take(k + 1))
            == ProbePhase::Matched,
{
    assert forall|j: int| 0 <= j <= k implies spec_run_datagrams(
        variant,
        ident,
        timeout_ms,
        #[trigger] raws.take(j),
        elapsed.take(j),
    ) == ProbePhase::Receiving by {
        lemma_run_receiving(variant, ident, timeout_ms, raws, elapsed, j);
    }
    assert(raws.take(k + 1).drop_last() =~= raws.take(k));
    assert(elapsed.take(k + 1).drop_last() =~= elapsed.take(k));
    assert(raws.take(k + 1).last() == raws[k]);
    assert(elapsed.take(k + 1).last() == elapsed[k]);
}

/// The sum of the receive deadlines handed out along a trace of elapsed times.
pub open spec fn spec_deadline_sum(timeout_ms: u64, elapsed: Seq<u64>) -> int
    decreases elapsed.len(),
{
    if elapsed.len() == 0 {
        0
    } else {
        spec_deadline_sum(timeout_ms, elapsed.drop_last()) + spec_deadline(
            timeout_ms,
            elapsed.last(),
        )
    }
}

/// Once a receive has consumed its whole deadline, the clock stands at or past
/// the timeout for good.
proof fn lemma_elapsed_saturates(timeout_ms: u64, elapsed: Seq<u64>, i: int)
    requires
        forall|j: int|
            0 <= j < elapsed.len() - 1 ==> elapsed[j + 1] >= elapsed[j] + spec_deadline(
                timeout_ms,
                #[trigger] elapsed[j],
            ),
        1 <= i < elapsed.len(),
    ensures
        elapsed[i] >= timeout_ms,
    decreases i,
{
    if i == 1 {
        assert(elapsed[1] >= elapsed[0] + spec_deadline(timeout_ms, elapsed[0]));
    } else {
        lemma_elapsed_saturates(timeout_ms, elapsed, i - 1);
        assert(elapsed[i] >= elapsed[i - 1] + spec_deadline(timeout_ms, elapsed[i - 1]));
    }
}

/// Law: when every receive blocks for its whole deadline before the clock is
/// read again — the trace of a target that never replies — the per-iteration
/// receive deadlines sum to at most the configured timeout.
pub proof fn lemma_deadline_budget(timeout_ms: u64, elapsed: Seq<u64>)
    requires
        forall|j: int|
            0 <= j < elapsed.len() - 1 ==> elapsed[j + 1] >= elapsed[j] + spec_deadline(
                timeout_ms,
                #[trigger] elapsed[j],
            ),
    ensures
        spec_deadline_sum(timeout_ms, elapsed) <= timeout_ms,
    decreases elapsed.len(),
{
    if elapsed.len() == 0 {
    } else if elapsed.len() == 1 {
        assert(spec_deadline_sum(timeout_ms, elapsed.drop_last()) == 0);
    } else {
        lemma_elapsed_saturates(timeout_ms, elapsed, elapsed.len() - 1);
        assert(spec_deadline(timeout_ms, elapsed.last()) == 0);
        let prefix = elapsed.drop_last();
        assert forall|j: int|
            0 <= j < prefix.len() - 1 implies prefix[j + 1] >= prefix[j] + spec_deadline(
            timeout_ms,
            #[trigger] prefix[j],
        ) by {
            assert(prefix[j] == elapsed[j] && prefix[j + 1] == elapsed[j + 1]);
        }
        lemma_deadline_budget(timeout_ms, prefix);
    }
}

} // verus!
