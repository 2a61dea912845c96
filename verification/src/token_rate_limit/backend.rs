//! Backends that keep token-rate-limit state: one in memory, one shared
//! through Valkey scripts.
use vstd::prelude::*;
use vstd::string::*;
use vstd::utf8::*;

use super::ledger::{
    active_index, law_limit_is_the_smallest_capacity, law_longest_window_is_the_longest,
    law_requests_are_denied_only_for_a_reason, law_settlements_charge_what_was_used,
    law_unknown_settlements_change_nothing, longest_window, min_capacity, smallest_capacity,
    tokens_in_use, ActiveView, Budget, Decision, KeyView, Ledger, LedgerView, Settlement,
};
use crate::hash::{hex, hex_text, lemma_hex_injective, sha256, sha256_of};
use crate::text::{
    decimal, decimal_text, joined, lemma_encoding_append, lemma_encoding_injective,
    lemma_split_at_mark,
};

verus! {

/// Script that admits or denies a reservation.
pub const RESERVE_SCRIPT: &'static str = "
local now = redis.call('TIME')
local now_ms = tonumber(now[1]) * 1000 + math.floor(tonumber(now[2]) / 1000)
local timeout_ms = tonumber(ARGV[1])
local max_keys = tonumber(ARGV[2])
local max_active = tonumber(ARGV[3])
local estimate = tonumber(ARGV[4])
local budget_count = tonumber(ARGV[5])
local settled = KEYS[2]
local active = KEYS[3]

local active_total = tonumber(redis.call('GET', KEYS[5]) or '0')
local expired_global = redis.call('ZRANGE', KEYS[7], '-inf', now_ms, 'BYSCORE')
for i = 1, #expired_global do
  local member = expired_global[i]
  local split = string.find(member, '|')
  if split then
    local physical = string.sub(member, 1, split - 1)
    local reservation = string.sub(member, split + 1)
    local active_key = physical .. ':active'
    local value = redis.call('HGET', active_key, reservation)
    if value then
      local value_split = string.find(value, '|')
      local amount = tonumber(string.sub(value, 1, value_split - 1))
      local reserved_at = tonumber(string.sub(value, value_split + 1))
      redis.call('ZADD', physical .. ':settled', reserved_at, 'expired:' .. reservation .. ':' .. amount)
      redis.call('HDEL', active_key, reservation)
      active_total = math.max(0, active_total - 1)
    end
  end
  redis.call('ZREM', KEYS[7], member)
end
redis.call('SET', KEYS[5], active_total)

local max_window = 0
for i = 1, budget_count do
  local window = tonumber(ARGV[5 + (i * 2) - 1])
  if window > max_window then max_window = window end
  redis.call('ZREMRANGEBYSCORE', settled, '-inf', now_ms - window)
end

local expired = {}
local active_values = redis.call('HGETALL', active)
for i = 1, #active_values, 2 do
  local id = active_values[i]
  local value = active_values[i + 1]
  local sep = string.find(value, '|')
  local reserved_at = tonumber(string.sub(value, sep + 1))
  if now_ms - reserved_at >= timeout_ms then
    local amount = tonumber(string.sub(value, 1, sep - 1))
    redis.call('ZADD', settled, reserved_at, 'expired:' .. id .. ':' .. amount)
    redis.call('HDEL', active, id)
    active_total = math.max(0, active_total - 1)
  end
end
redis.call('SET', KEYS[5], active_total)

redis.call('ZREMRANGEBYSCORE', KEYS[4], '-inf', now_ms)
local key_exists = redis.call('ZSCORE', KEYS[4], KEYS[1]) ~= false
if not key_exists and redis.call('ZCARD', KEYS[4]) >= max_keys then
  return {0, max_window}
end
if active_total >= max_active then
  return {0, max_window}
end

for i = 1, budget_count do
  local window = tonumber(ARGV[5 + (i * 2) - 1])
  local capacity = tonumber(ARGV[5 + (i * 2)])
  local settled_sum = 0
  local entries = redis.call('ZRANGE', settled, now_ms - window, '+inf', 'BYSCORE', 'WITHSCORES')
  for j = 1, #entries, 2 do
    local member = entries[j]
    local amount = string.match(member, ':(%d+)$')
    if amount then settled_sum = settled_sum + tonumber(amount) end
  end
  local active_values = redis.call('HGETALL', active)
  local active_sum = 0
  for j = 1, #active_values, 2 do
    local sep = string.find(active_values[j + 1], '|')
    active_sum = active_sum + tonumber(string.sub(active_values[j + 1], 1, sep - 1))
  end
  if settled_sum + active_sum + estimate > capacity then
    return {0, max_window}
  end
end

local id = redis.call('INCR', KEYS[6])
redis.call('HSET', active, id, estimate .. '|' .. now_ms)
redis.call('INCR', KEYS[5])
redis.call('ZADD', KEYS[7], now_ms + timeout_ms, KEYS[1] .. '|' .. id)
local ttl = math.max(max_window + timeout_ms, 1000)
redis.call('ZADD', KEYS[4], now_ms + ttl, KEYS[1])
redis.call('PEXPIRE', settled, ttl)
redis.call('PEXPIRE', active, ttl)
redis.call('PEXPIRE', KEYS[1], ttl)
return {1, id, estimate}
";

/// Script that settles a reservation.
pub const RECONCILE_SCRIPT: &'static str = "
local value = redis.call('HGET', KEYS[3], ARGV[1])
if not value then return {0} end
local sep = string.find(value, '|')
local estimate = tonumber(string.sub(value, 1, sep - 1))
local actual = tonumber(ARGV[2])
redis.call('HDEL', KEYS[3], ARGV[1])
local active_total = math.max(0, tonumber(redis.call('GET', KEYS[5]) or '0') - 1)
redis.call('SET', KEYS[5], active_total)
redis.call('ZREM', KEYS[7], KEYS[1] .. '|' .. ARGV[1])
local now = redis.call('TIME')
local now_ms = tonumber(now[1]) * 1000 + math.floor(tonumber(now[2]) / 1000)
redis.call('ZADD', KEYS[2], now_ms, 'settled:' .. ARGV[1] .. ':' .. actual)
return {1, actual, math.max(0, estimate - actual), math.max(0, actual - estimate)}
";

/// Milliseconds after which a connection attempt or a script call is given up.
pub const CALL_TIMEOUT_MS: u64 = 500;

/// Settlements that may wait for the worker.
pub const QUEUE_CAPACITY: usize = 1024;

/// Failed tries of a settlement that are followed by another one.
pub const MAX_RETRIES: u64 = 2;

/// Milliseconds of delay that each failed try adds.
pub const RETRY_DELAY_MS: u64 = 25;

/// A request to hold tokens.
#[derive(Debug, Clone)]
pub struct ReserveRequest {
    /// Key that the tokens count against.
    pub key: String,
    /// Tokens to hold.
    pub estimate: u64,
    /// Time of the request in milliseconds.
    pub now_ms: u64,
}

/// A request to settle a reservation.
#[derive(Debug, Clone)]
pub struct ReconcileRequest {
    /// Key that the tokens count against.
    pub key: String,
    /// The reservation.
    pub reservation_id: u64,
    /// Tokens that were used, when known.
    pub actual: Option<u64>,
    /// Tokens that were held.
    pub estimate: u64,
    /// Time of the request in milliseconds.
    pub now_ms: u64,
}

/// Answer of a backend to a [`ReserveRequest`].
#[derive(Debug, Clone, Copy, PartialEq, Eq, Structural)]
pub enum BackendReserve {
    /// The tokens are held.
    Admitted {
        /// The reservation.
        reservation_id: u64,
        /// Tokens held.
        estimate: u64,
    },
    /// The quota does not allow it.
    Denied {
        /// When to try again, in milliseconds.
        retry_after_ms: u64,
    },
}

/// Answer of a backend to a [`ReconcileRequest`].
#[derive(Debug, Clone, Copy, PartialEq, Eq, Structural)]
pub enum BackendSettlement {
    /// The reservation was settled.
    Applied {
        /// Tokens charged.
        actual: u64,
        /// Tokens given back.
        refund: u64,
        /// Tokens charged beyond the estimate.
        overage: u64,
    },
    /// There was no such reservation.
    Noop,
}

/// Why a backend could not answer.
#[derive(Debug)]
pub enum BackendError {
    /// The shared state could not be reached.
    Unavailable(String),
    /// The shared state answered something unexpected.
    InvalidResponse,
}

impl BackendError {
    /// The text of the error.
    pub open spec fn text(self) -> Seq<char> {
        match self {
            BackendError::Unavailable(reason) => "shared quota backend unavailable: "@ + reason@,
            BackendError::InvalidResponse =>
                "shared quota backend returned an invalid response"@,
        }
    }

    /// The text of the error.
    pub fn message(&self) -> (r: String)
        ensures
            r@ == self.text(),
    {
        match self {
            BackendError::Unavailable(reason) => {
                let mut r = "shared quota backend unavailable: ".to_owned();
                r.append(reason.as_str());
                r
            },
            BackendError::InvalidResponse => {
                "shared quota backend returned an invalid response".to_owned()
            },
        }
    }
}

/// The decision that a ledger owes to a reservation request.
pub open spec fn decision_on(ledger: LedgerView, request: ReserveRequest) -> BackendReserve {
    let now = request.now_ms as nat;
    let swept = ledger.swept(request.key@, now);
    if swept.admits(request.key@, request.estimate as nat, now) {
        BackendReserve::Admitted {
            reservation_id: (ledger.last_id + 1) as u64,
            estimate: request.estimate,
        }
    } else {
        BackendReserve::Denied { retry_after_ms: longest_window(ledger.budgets) as u64 }
    }
}

/// The settlement that a ledger owes to a settlement request.
pub open spec fn settlement_on(
    ledger: LedgerView,
    id: u64,
    actual: Option<u64>,
) -> BackendSettlement {
    if ledger.is_open(id) {
        let estimate = ledger.active[active_index(ledger.active, id)].estimate;
        let charged = ledger.charge(id, actual);
        BackendSettlement::Applied {
            actual: charged as u64,
            refund: (if estimate > charged {
                estimate - charged
            } else {
                0
            }) as u64,
            overage: (if charged > estimate {
                charged - estimate
            } else {
                0
            }) as u64,
        }
    } else {
        BackendSettlement::Noop
    }
}

/// Token-rate-limit state kept in memory.
pub struct InMemoryTokenRateLimitBackend {
    ledger: Ledger,
}

impl View for InMemoryTokenRateLimitBackend {
    type V = LedgerView;

    closed spec fn view(&self) -> LedgerView {
        self.ledger@
    }
}

impl InMemoryTokenRateLimitBackend {
    /// A backend that keeps `ledger`.
    pub fn new(ledger: Ledger) -> (r: Self)
        ensures
            r@ == ledger@,
    {
        Self { ledger }
    }

    /// Hold tokens if the quota allows it. Never fails.
    pub fn reserve(&mut self, request: ReserveRequest) -> (r: Result<BackendReserve, BackendError>)
        ensures
            old(self)@.valid(),
            r == Ok::<BackendReserve, BackendError>(decision_on(old(self)@, request)),
            final(self)@ == old(self)@.reserved(
                request.key@,
                request.estimate as nat,
                request.now_ms as nat,
            ),
            final(self)@.valid(),
    {
        let decision = self.ledger.reserve(
            request.key.as_str(),
            request.estimate,
            request.now_ms,
        );
        Ok(
            match decision {
                Decision::Admitted(held) => BackendReserve::Admitted {
                    reservation_id: held.id,
                    estimate: held.estimate,
                },
                Decision::Denied { retry_after_ms } => BackendReserve::Denied { retry_after_ms },
            },
        )
    }

    /// Settle a reservation. Never fails.
    pub fn reconcile(&mut self, request: ReconcileRequest) -> (r: Result<
        BackendSettlement,
        BackendError,
    >)
        ensures
            old(self)@.valid(),
            r == Ok::<BackendSettlement, BackendError>(
                settlement_on(old(self)@, request.reservation_id, request.actual),
            ),
            final(self)@ == old(self)@.reconciled(
                request.reservation_id,
                request.actual,
                request.now_ms as nat,
            ),
            final(self)@.valid(),
    {
        let settlement = self.ledger.reconcile(
            request.reservation_id,
            request.actual,
            request.now_ms,
        );
        Ok(
            match settlement {
                Settlement::Applied { actual, refund, overage } => BackendSettlement::Applied {
                    actual,
                    refund,
                    overage,
                },
                Settlement::Noop => BackendSettlement::Noop,
            },
        )
    }

    /// Settle a reservation at once, without reporting the outcome.
    pub fn enqueue_reconcile(&mut self, request: ReconcileRequest) -> (r: Result<(), BackendError>)
        ensures
            old(self)@.valid(),
            r is Ok,
            final(self)@ == old(self)@.reconciled(
                request.reservation_id,
                request.actual,
                request.now_ms as nat,
            ),
            final(self)@.valid(),
    {
        self.ledger.reconcile(request.reservation_id, request.actual, request.now_ms);
        Ok(())
    }

    /// Tokens that one key may use at most.
    pub fn limit(&self) -> (r: u64)
        ensures
            r == smallest_capacity(self@.budgets),
    {
        self.ledger.limit()
    }

    /// The ledger itself, with the offset of its clock.
    pub fn local_state(&self) -> (r: Option<(&Ledger, u64)>)
        ensures
            r matches Some((ledger, offset)) && ledger@ == self@ && offset == 0,
    {
        Some((&self.ledger, 0))
    }
}

/// How one attempt at work outside the process ended.
#[derive(Debug)]
pub enum Outcome<T> {
    /// It did not end in time.
    TimedOut,
    /// It failed, for the reason given.
    Failed(String),
    /// It ended with a result.
    Done(T),
}

/// The client of the `redis` crate, which knows a server's address.
#[verifier::external_type_specification]
#[verifier::external_body]
pub struct ExClient(redis::Client);

/// A command of the `redis` crate: a list of arguments.
#[verifier::external_type_specification]
#[verifier::external_body]
pub struct ExCmd(redis::Cmd);

/// What opening `url` gives: a client, or the text of the error.
pub uninterp spec fn client_for(url: Seq<char>) -> Result<redis::Client, Seq<char>>;

/// The arguments of `command`, in order.
pub uninterp spec fn command_args(command: redis::Cmd) -> Seq<Seq<u8>>;

/// Whether `url` names a server that is reached over the network.
pub open spec fn is_network_url(url: Seq<char>) -> bool {
    ||| "redis://"@.is_prefix_of(url)
    ||| "rediss://"@.is_prefix_of(url)
    ||| "valkey://"@.is_prefix_of(url)
    ||| "valkeys://"@.is_prefix_of(url)
}

/// What stands before the first colon of `url`, if it has one.
pub open spec fn text_before_colon(url: Seq<char>) -> Option<Seq<char>>
    decreases url.len(),
{
    if url.len() == 0 {
        None
    } else if url[0] == ':' {
        Some(Seq::empty())
    } else {
        match text_before_colon(url.drop_first()) {
            None => None,
            Some(rest) => Some(seq![url[0]] + rest),
        }
    }
}

/// Whether `url` may be the address of a local socket. The schemes of these all
/// end in `unix`, in upper or lower case.
pub open spec fn may_be_local_socket(url: Seq<char>) -> bool {
    text_before_colon(url) matches Some(scheme) && (scheme.contains('x') || scheme.contains('X'))
}

/// Whether `url` is no address of a server by its scheme: there is none, or it is
/// made of lower-case letters and is not one of those that stand for a server.
pub open spec fn has_no_server_scheme(url: Seq<char>) -> bool {
    match text_before_colon(url) {
        None => true,
        Some(scheme) => {
            &&& forall|i: int| 0 <= i < scheme.len() ==> 'a' <= #[trigger] scheme[i] <= 'z'
            &&& scheme != "redis"@ && scheme != "rediss"@ && scheme != "valkey"@ && scheme
                != "valkeys"@ && scheme != "unix"@
        },
    }
}

/// The result of opening a client, with the text of its error.
pub open spec fn opened_view(opened: Result<redis::Client, String>) -> Result<
    redis::Client,
    Seq<char>,
> {
    match opened {
        Ok(client) => Ok(client),
        Err(reason) => Err(reason@),
    }
}

/// `redis::Client::open`, with the error as text. The result depends on the
/// address alone unless that may be the address of a local socket, and then a
/// client that comes back still does. Whether one comes back for a local socket,
/// and the text of the error if not, is left open: some platforms have none. An
/// address without a scheme, or with one that stands for no server, is refused.
/// For the schemes `rediss` and `valkeys` the features with which `redis` was
/// built decide: without TLS among them, as here, such addresses are refused.
#[verifier::external_body]
fn open_client(url: String) -> (r: Result<redis::Client, String>)
    ensures
        !may_be_local_socket(url@) || r is Ok ==> opened_view(r) == client_for(url@),
        has_no_server_scheme(url@) ==> r is Err,
        has_no_server_scheme(url@) ==> r->Err_0@
            == "Redis URL did not parse - InvalidClientConfig"@,
{
    redis::Client::open(url).map_err(|e| e.to_string())
}

/// Something stands before a colon exactly when there is a colon.
proof fn lemma_text_before_colon(url: Seq<char>)
    ensures
        text_before_colon(url) is Some <==> url.contains(':'),
    decreases url.len(),
{
    if url.len() > 0 {
        let rest = url.drop_first();
        lemma_text_before_colon(rest);
        if rest.contains(':') {
            let i = choose|i: int| 0 <= i < rest.len() && rest[i] == ':';
            assert(url[i + 1] == ':');
        }
        if url.contains(':') && url[0] != ':' {
            let i = choose|i: int| 0 <= i < url.len() && url[i] == ':';
            assert(rest[i - 1] == ':');
        }
    }
}

/// What a text that begins with some letters and a colon has before its first
/// colon.
proof fn lemma_scheme_of_prefix(scheme: Seq<char>, url: Seq<char>)
    requires
        !scheme.contains(':'),
        scheme.push(':').is_prefix_of(url),
    ensures
        text_before_colon(url) == Some(scheme),
    decreases scheme.len(),
{
    let start = scheme.push(':');
    assert(start =~= url.take(start.len() as int));
    assert(url[0] == start[0]);
    if scheme.len() > 0 {
        assert(scheme.contains(scheme[0]));
        let rest = scheme.drop_first();
        assert forall|i: int| 0 <= i < rest.len() implies rest[i] != ':' by {
            assert(scheme[i + 1] == rest[i]);
        }
        assert(rest.push(':') =~= url.drop_first().take(rest.len() as int + 1)) by {
            assert forall|i: int| 0 <= i < rest.len() + 1 implies rest.push(':')[i]
                == url.drop_first()[i] by {
                assert(start[i + 1] == url[i + 1]);
            }
        }
        lemma_scheme_of_prefix(rest, url.drop_first());
        assert(seq![url[0]] + rest =~= scheme);
    } else {
        assert(scheme =~= Seq::empty());
    }
}

/// An address on the network is no local socket and has the scheme of a server,
/// so that what comes of it depends on the address alone.
pub proof fn law_network_addresses_are_told_apart(url: Seq<char>)
    requires
        is_network_url(url),
    ensures
        !may_be_local_socket(url),
        !has_no_server_scheme(url),
{
    reveal_strlit("redis");
    reveal_strlit("rediss");
    reveal_strlit("valkey");
    reveal_strlit("valkeys");
    reveal_strlit("redis://");
    reveal_strlit("rediss://");
    reveal_strlit("valkey://");
    reveal_strlit("valkeys://");
    if "redis://"@.is_prefix_of(url) {
        lemma_scheme_of_longer_prefix("redis"@, "redis://"@, url);
    } else if "rediss://"@.is_prefix_of(url) {
        lemma_scheme_of_longer_prefix("rediss"@, "rediss://"@, url);
    } else if "valkey://"@.is_prefix_of(url) {
        lemma_scheme_of_longer_prefix("valkey"@, "valkey://"@, url);
    } else {
        lemma_scheme_of_longer_prefix("valkeys"@, "valkeys://"@, url);
    }
}

/// As [`lemma_scheme_of_prefix`], for a beginning that goes on after the colon.
proof fn lemma_scheme_of_longer_prefix(scheme: Seq<char>, start: Seq<char>, url: Seq<char>)
    requires
        !scheme.contains(':'),
        start.len() > scheme.len(),
        forall|i: int| 0 <= i < scheme.len() ==> start[i] == scheme[i],
        start[scheme.len() as int] == ':',
        start.is_prefix_of(url),
    ensures
        text_before_colon(url) == Some(scheme),
{
    assert(start =~= url.take(start.len() as int));
    assert forall|i: int| 0 <= i < start.len() implies start[i] == url[i] by {}
    assert(scheme.push(':') =~= url.take(scheme.len() as int + 1));
    lemma_scheme_of_prefix(scheme, url);
}

/// `redis::cmd`: a command whose only argument is its name.
#[verifier::external_body]
fn named_command(name: &str) -> (r: redis::Cmd)
    ensures
        command_args(r) == seq![encode_utf8(name@)],
{
    redis::cmd(name)
}

/// `redis::Cmd::arg` with a text: its bytes become the last argument.
#[verifier::external_body]
fn push_arg(command: &mut redis::Cmd, arg: &str)
    ensures
        command_args(*final(command)) == command_args(*old(command)).push(encode_utf8(arg@)),
{
    command.arg(arg);
}

/// Settings of a [`ValkeyTokenRateLimitBackend`].
pub struct ValkeyBackendConfig {
    /// Address of the server.
    pub url: String,
    /// Prefix of every key that the backend uses.
    pub namespace: String,
    /// Rule that the quota belongs to.
    pub rule: String,
    /// Limits that apply to every key.
    pub budgets: Vec<Budget>,
    /// Time after which a reservation is overdue, in milliseconds.
    pub reservation_timeout_ms: u64,
    /// Number of keys that may be in use at once.
    pub max_keys: usize,
    /// Number of reservations that may be open at once.
    pub max_active_reservations: usize,
}

/// Token-rate-limit state shared through Valkey: the commands to send and what
/// the answers mean.
pub struct ValkeyTokenRateLimitBackend {
    /// Client of the server.
    pub client: redis::Client,
    /// Prefix of every key that the backend uses.
    pub namespace: String,
    /// Rule that the quota belongs to.
    pub rule: String,
    /// Limits that apply to every key.
    pub budgets: Vec<Budget>,
    /// Time after which a reservation is overdue, in milliseconds.
    pub reservation_timeout_ms: u64,
    /// Number of keys that may be in use at once.
    pub max_keys: usize,
    /// Number of reservations that may be open at once.
    pub max_active_reservations: usize,
    /// Tokens that one key may use at most.
    pub limit: u64,
}

/// The bytes whose digest stands for `key` under a rule of a namespace.
pub open spec fn key_material(
    namespace: Seq<char>,
    rule: Seq<char>,
    key: Seq<char>,
) -> Seq<u8> {
    encode_utf8(namespace) + seq![0u8] + encode_utf8(rule) + seq![0u8] + encode_utf8(key)
}

/// The prefix of the keys that hold the state of `key`.
pub open spec fn key_prefix(namespace: Seq<char>, rule: Seq<char>, key: Seq<char>) -> Seq<char> {
    namespace + ":v1:"@ + hex_text(sha256_of(key_material(namespace, rule, key)))
}

/// The keys that both scripts work on.
pub open spec fn script_keys(
    namespace: Seq<char>,
    rule: Seq<char>,
    key: Seq<char>,
) -> Seq<Seq<char>> {
    let prefix = key_prefix(namespace, rule, key);
    seq![
        prefix,
        prefix + ":settled"@,
        prefix + ":active"@,
        namespace + ":keys"@,
        namespace + ":active-count"@,
        namespace + ":reservation-seq"@,
        namespace + ":active-index"@,
    ]
}

/// The window and the capacity of each budget, in order.
pub open spec fn budget_args(budgets: Seq<Budget>) -> Seq<Seq<char>>
    decreases budgets.len(),
{
    if budgets.len() == 0 {
        seq![]
    } else {
        budget_args(budgets.drop_last()).push(decimal_text(budgets.last().window_ms as nat)).push(
            decimal_text(budgets.last().capacity as nat),
        )
    }
}

/// The texts that a list of strings holds.
pub open spec fn texts(strings: Seq<String>) -> Seq<Seq<char>> {
    strings.map_values(|s: String| s@)
}

/// The bytes of each text.
pub open spec fn encoded(list: Seq<Seq<char>>) -> Seq<Seq<u8>> {
    list.map_values(|text: Seq<char>| encode_utf8(text))
}

/// The command that runs `script` on seven keys.
pub open spec fn eval_texts(
    script: Seq<char>,
    keys: Seq<Seq<char>>,
    args: Seq<Seq<char>>,
) -> Seq<Seq<char>> {
    seq!["EVAL"@, script, "7"@] + keys + args
}

/// Whether `r` says that the shared state could not be reached, and why.
pub open spec fn is_unavailable<T>(r: Result<T, BackendError>, reason: Seq<char>) -> bool {
    r matches Err(BackendError::Unavailable(text)) && text@ == reason
}

/// What the reservation script answered.
pub open spec fn reserve_answer(response: Seq<i64>) -> Option<BackendReserve> {
    if response.len() == 3 && response[0] == 1 && response[1] >= 0 && response[2] >= 0 {
        Some(
            BackendReserve::Admitted {
                reservation_id: response[1] as u64,
                estimate: response[2] as u64,
            },
        )
    } else if response.len() == 2 && response[0] == 0 && response[1] >= 0 {
        Some(BackendReserve::Denied { retry_after_ms: response[1] as u64 })
    } else {
        None
    }
}

/// What the settlement script answered.
pub open spec fn reconcile_answer(response: Seq<i64>) -> Option<BackendSettlement> {
    if response.len() == 1 && response[0] == 0 {
        Some(BackendSettlement::Noop)
    } else if response.len() == 4 && response[0] == 1 && response[1] >= 0 && response[2] >= 0
        && response[3] >= 0 {
        Some(
            BackendSettlement::Applied {
                actual: response[1] as u64,
                refund: response[2] as u64,
                overage: response[3] as u64,
            },
        )
    } else {
        None
    }
}

impl ValkeyTokenRateLimitBackend {
    /// Whether the limit is that of the budgets.
    pub open spec fn valid(self) -> bool {
        self.limit == smallest_capacity(self.budgets@)
    }

    /// The command that asks for a reservation.
    pub open spec fn reserve_texts(self, request: ReserveRequest) -> Seq<Seq<char>> {
        eval_texts(
            RESERVE_SCRIPT@,
            script_keys(self.namespace@, self.rule@, request.key@),
            seq![
                decimal_text(self.reservation_timeout_ms as nat),
                decimal_text(self.max_keys as nat),
                decimal_text(self.max_active_reservations as nat),
                decimal_text(request.estimate as nat),
                decimal_text(self.budgets@.len()),
            ] + budget_args(self.budgets@),
        )
    }

    /// The command that settles a reservation.
    pub open spec fn reconcile_texts(self, request: ReconcileRequest) -> Seq<Seq<char>> {
        let actual = match request.actual {
            Some(tokens) => tokens,
            None => request.estimate,
        };
        eval_texts(
            RECONCILE_SCRIPT@,
            script_keys(self.namespace@, self.rule@, request.key@),
            seq![decimal_text(request.reservation_id as nat), decimal_text(actual as nat)],
        )
    }

    /// Whether the backend has the settings of `config`.
    pub open spec fn configured_by(self, config: ValkeyBackendConfig) -> bool {
        &&& self.valid()
        &&& self.namespace == config.namespace
        &&& self.rule == config.rule
        &&& self.budgets == config.budgets
        &&& self.reservation_timeout_ms == config.reservation_timeout_ms
        &&& self.max_keys == config.max_keys
        &&& self.max_active_reservations == config.max_active_reservations
    }

    /// A backend with the settings of `config`. Fails when no client can be had
    /// for the address in them.
    pub fn new(config: ValkeyBackendConfig) -> (r: Result<Self, BackendError>)
        ensures
            r matches Ok(backend) ==> backend.configured_by(config) && client_for(config.url@) == Ok::<
                redis::Client,
                Seq<char>,
            >(backend.client),
            r is Err ==> r->Err_0 is Unavailable,
            !may_be_local_socket(config.url@) ==> match (r, client_for(config.url@)) {
                (Ok(backend), Ok(client)) => backend.client == client,
                (Err(BackendError::Unavailable(reason)), Err(text)) => reason@ == text,
                _ => false,
            },
            has_no_server_scheme(config.url@) ==> is_unavailable(
                r,
                "Redis URL did not parse - InvalidClientConfig"@,
            ),
            !config.url@.contains(':') ==> is_unavailable(
                r,
                "Redis URL did not parse - InvalidClientConfig"@,
            ),
    {
        proof {
            lemma_text_before_colon(config.url@);
        }
        let opened = open_client(config.url.clone());
        Self::with_client(config, opened)
    }

    /// A backend with the settings of `config`, once the address in them was
    /// opened.
    pub fn with_client(config: ValkeyBackendConfig, opened: Result<redis::Client, String>) -> (r:
        Result<Self, BackendError>)
        ensures
            match opened {
                Ok(client) => r matches Ok(backend) && backend.client == client
                    && backend.configured_by(config),
                Err(reason) => r == Err::<Self, BackendError>(BackendError::Unavailable(reason)),
            },
    {
        match opened {
            Err(reason) => Err(BackendError::Unavailable(reason)),
            Ok(client) => {
                let limit: u64 = min_capacity(&config.budgets);
                Ok(
                    Self {
                        client,
                        namespace: config.namespace,
                        rule: config.rule,
                        budgets: config.budgets,
                        reservation_timeout_ms: config.reservation_timeout_ms,
                        max_keys: config.max_keys,
                        max_active_reservations: config.max_active_reservations,
                        limit,
                    },
                )
            },
        }
    }

    /// Tokens that one key may use at most.
    pub fn limit(&self) -> (r: u64)
        ensures
            r == self.limit,
    {
        self.limit
    }

    /// Nothing: the state is not kept in this process.
    pub fn local_state(&self) -> (r: Option<(&Ledger, u64)>)
        ensures
            r is None,
    {
        None
    }

    /// The keys that both scripts work on.
    pub fn key_parts(&self, key: &str) -> (r: [String; 7])
        ensures
            texts(r@) == script_keys(self.namespace@, self.rule@, key@),
    {
        let mut material: Vec<u8> = Vec::new();
        material.extend_from_slice(self.namespace.as_str().as_bytes());
        material.push(0);
        material.extend_from_slice(self.rule.as_str().as_bytes());
        material.push(0);
        material.extend_from_slice(key.as_bytes());
        assert(material@ =~= key_material(self.namespace@, self.rule@, key@));
        let digest: [u8; 32] = sha256(material.as_slice());
        let mut prefix = self.namespace.clone();
        prefix.append(":v1:");
        prefix.append(hex(digest.as_slice()).as_str());
        let r = [
            prefix.clone(),
            joined(prefix.as_str(), ":settled"),
            joined(prefix.as_str(), ":active"),
            joined(self.namespace.as_str(), ":keys"),
            joined(self.namespace.as_str(), ":active-count"),
            joined(self.namespace.as_str(), ":reservation-seq"),
            joined(self.namespace.as_str(), ":active-index"),
        ];
        assert(texts(r@) =~= script_keys(self.namespace@, self.rule@, key@));
        r
    }

    /// The command that asks for a reservation.
    pub fn reserve_command(&self, request: &ReserveRequest) -> (r: redis::Cmd)
        ensures
            command_args(r) == encoded(self.reserve_texts(*request)),
    {
        let keys = self.key_parts(request.key.as_str());
        let mut args: Vec<String> = Vec::new();
        args.push(decimal(self.reservation_timeout_ms));
        args.push(decimal(self.max_keys as u64));
        args.push(decimal(self.max_active_reservations as u64));
        args.push(decimal(request.estimate));
        args.push(decimal(self.budgets.len() as u64));
        let ghost head = texts(args@);
        let mut i: usize = 0;
        while i < self.budgets.len()
            invariant
                i <= self.budgets@.len(),
                texts(args@) == head + budget_args(self.budgets@.take(i as int)),
            decreases self.budgets@.len() - i,
        {
            let ghost before = args@;
            args.push(decimal(self.budgets[i].window_ms));
            args.push(decimal(self.budgets[i].capacity));
            let ghost done = self.budgets@.take(i + 1);
            assert(done.drop_last() =~= self.budgets@.take(i as int));
            assert(texts(args@) =~= texts(before).push(
                decimal_text(self.budgets@[i as int].window_ms as nat),
            ).push(decimal_text(self.budgets@[i as int].capacity as nat)));
            assert(texts(args@) =~= head + budget_args(done));
            i += 1;
        }
        assert(self.budgets@.take(i as int) =~= self.budgets@);
        let r = eval_command(RESERVE_SCRIPT, keys.as_slice(), args.as_slice());
        assert(eval_texts(RESERVE_SCRIPT@, texts(keys@), texts(args@)) =~= self.reserve_texts(
            *request,
        ));
        r
    }

    /// The command that settles a reservation.
    pub fn reconcile_command(&self, request: &ReconcileRequest) -> (r: redis::Cmd)
        ensures
            command_args(r) == encoded(self.reconcile_texts(*request)),
            command_args(r).len() == 12,
            command_args(r)[10] == encode_utf8(decimal_text(request.reservation_id as nat)),
            command_args(r)[11] == encode_utf8(
                decimal_text(
                    match request.actual {
                        Some(tokens) => tokens as nat,
                        None => request.estimate as nat,
                    },
                ),
            ),
    {
        proof {
            law_settlement_commands_say_what_was_used(*self, *request, *request);
        }
        let keys = self.key_parts(request.key.as_str());
        let actual: u64 = match request.actual {
            Some(tokens) => tokens,
            None => request.estimate,
        };
        let mut args: Vec<String> = Vec::new();
        args.push(decimal(request.reservation_id));
        args.push(decimal(actual));
        let r = eval_command(RECONCILE_SCRIPT, keys.as_slice(), args.as_slice());
        assert(eval_texts(RECONCILE_SCRIPT@, texts(keys@), texts(args@))
            =~= self.reconcile_texts(*request));
        r
    }
}

/// A command that runs `script` on seven keys.
fn eval_command(script: &str, keys: &[String], args: &[String]) -> (r: redis::Cmd)
    ensures
        command_args(r) == encoded(eval_texts(script@, texts(keys@), texts(args@))),
{
    let mut r = named_command("EVAL");
    push_arg(&mut r, script);
    push_arg(&mut r, "7");
    assert(command_args(r) =~= encoded(seq!["EVAL"@, script@, "7"@]));
    push_all(&mut r, keys);
    push_all(&mut r, args);
    assert(command_args(r) =~= encoded(eval_texts(script@, texts(keys@), texts(args@))));
    r
}

/// Append each of `args` to `command`.
fn push_all(command: &mut redis::Cmd, args: &[String])
    ensures
        command_args(*final(command)) == command_args(*old(command)) + encoded(texts(args@)),
{
    let mut i: usize = 0;
    assert(command_args(*command) =~= command_args(*old(command)) + encoded(
        texts(args@.take(0)),
    ));
    while i < args.len()
        invariant
            i <= args@.len(),
            command_args(*command) == command_args(*old(command)) + encoded(
                texts(args@.take(i as int)),
            ),
        decreases args@.len() - i,
    {
        push_arg(command, args[i].as_str());
        assert(command_args(*command) =~= command_args(*old(command)) + encoded(
            texts(args@.take(i + 1)),
        ));
        i += 1;
    }
    assert(args@.take(i as int) =~= args@);
}

/// The connection to use, or why there is none.
pub fn connection_outcome<T>(outcome: Outcome<T>) -> (r: Result<T, BackendError>)
    ensures
        match outcome {
            Outcome::Done(connection) => r == Ok::<T, BackendError>(connection),
            Outcome::Failed(reason) => r == Err::<T, BackendError>(
                BackendError::Unavailable(reason),
            ),
            Outcome::TimedOut => is_unavailable(r, "Valkey connection timed out"@),
        },
{
    match outcome {
        Outcome::Done(connection) => Ok(connection),
        Outcome::Failed(reason) => Err(BackendError::Unavailable(reason)),
        Outcome::TimedOut => Err(
            BackendError::Unavailable("Valkey connection timed out".to_owned()),
        ),
    }
}

/// What a reservation command came to.
pub fn reserve_outcome(outcome: Outcome<Vec<i64>>) -> (r: Result<BackendReserve, BackendError>)
    ensures
        match outcome {
            Outcome::Done(response) => match reserve_answer(response@) {
                Some(answer) => r == Ok::<BackendReserve, BackendError>(answer),
                None => r == Err::<BackendReserve, BackendError>(BackendError::InvalidResponse),
            },
            Outcome::Failed(reason) => r == Err::<BackendReserve, BackendError>(
                BackendError::Unavailable(reason),
            ),
            Outcome::TimedOut => is_unavailable(r, "Valkey reservation timed out"@),
        },
{
    let response = match outcome {
        Outcome::Done(response) => response,
        Outcome::Failed(reason) => {
            return Err(BackendError::Unavailable(reason));
        },
        Outcome::TimedOut => {
            return Err(BackendError::Unavailable("Valkey reservation timed out".to_owned()));
        },
    };
    if response.len() == 3 && response[0] == 1 && response[1] >= 0 && response[2] >= 0 {
        Ok(
            BackendReserve::Admitted {
                reservation_id: response[1] as u64,
                estimate: response[2] as u64,
            },
        )
    } else if response.len() == 2 && response[0] == 0 && response[1] >= 0 {
        Ok(BackendReserve::Denied { retry_after_ms: response[1] as u64 })
    } else {
        Err(BackendError::InvalidResponse)
    }
}

/// What a settlement command came to.
pub fn reconcile_outcome(outcome: Outcome<Vec<i64>>) -> (r: Result<
    BackendSettlement,
    BackendError,
>)
    ensures
        match outcome {
            Outcome::Done(response) => match reconcile_answer(response@) {
                Some(answer) => r == Ok::<BackendSettlement, BackendError>(answer),
                None => r == Err::<BackendSettlement, BackendError>(
                    BackendError::InvalidResponse,
                ),
            },
            Outcome::Failed(reason) => r == Err::<BackendSettlement, BackendError>(
                BackendError::Unavailable(reason),
            ),
            Outcome::TimedOut => is_unavailable(r, "Valkey reconciliation timed out"@),
        },
{
    let response = match outcome {
        Outcome::Done(response) => response,
        Outcome::Failed(reason) => {
            return Err(BackendError::Unavailable(reason));
        },
        Outcome::TimedOut => {
            return Err(BackendError::Unavailable("Valkey reconciliation timed out".to_owned()));
        },
    };
    if response.len() == 1 && response[0] == 0 {
        Ok(BackendSettlement::Noop)
    } else if response.len() == 4 && response[0] == 1 && response[1] >= 0 && response[2] >= 0
        && response[3] >= 0 {
        Ok(
            BackendSettlement::Applied {
                actual: response[1] as u64,
                refund: response[2] as u64,
                overage: response[3] as u64,
            },
        )
    } else {
        Err(BackendError::InvalidResponse)
    }
}

/// What to do about the worker before a settlement is handed to it.
#[derive(Debug, Clone, Copy, PartialEq, Eq, Structural)]
pub enum StartAction {
    /// Start it.
    Start,
    /// Nothing: it was started before.
    Keep,
}

/// Whether the worker counts as started after a call, and what to do about it,
/// if anything can be done: `runtime` tells whether a worker can run.
pub open spec fn start_step(started: bool, runtime: bool) -> (bool, Option<StartAction>) {
    if !runtime {
        (started, None)
    } else if started {
        (true, Some(StartAction::Keep))
    } else {
        (true, Some(StartAction::Start))
    }
}

/// Have a worker for settlements: whether it counts as started afterwards, and
/// what to do about it. Fails where no worker can run.
pub fn start_worker(started: bool, runtime: bool) -> (r: (
    bool,
    Result<StartAction, BackendError>,
))
    ensures
        r.0 == start_step(started, runtime).0,
        match start_step(started, runtime).1 {
            Some(action) => r.1 == Ok::<StartAction, BackendError>(action),
            None => r.1 matches Err(BackendError::Unavailable(reason)) && reason@
                == "Valkey reconciliation requires a Tokio runtime"@,
        },
{
    if !runtime {
        let reason = "Valkey reconciliation requires a Tokio runtime".to_owned();
        (started, Err(BackendError::Unavailable(reason)))
    } else if started {
        (true, Ok(StartAction::Keep))
    } else {
        (true, Ok(StartAction::Start))
    }
}

/// Whether the worker counts as started after calls of which each tells whether
/// a worker could run.
pub open spec fn started_after(runtimes: Seq<bool>) -> bool
    decreases runtimes.len(),
{
    runtimes.len() > 0 && start_step(started_after(runtimes.drop_last()), runtimes.last()).0
}

/// What to do about the worker at the `i`th of such calls.
pub open spec fn start_action_at(runtimes: Seq<bool>, i: int) -> Option<StartAction> {
    start_step(started_after(runtimes.take(i)), runtimes[i]).1
}

/// Over any calls, the worker is started at the first one at which it can run and
/// at no other. A call at which it cannot run fails, as no other does, and leaves
/// it to be started later.
pub proof fn law_worker_starts_once(runtimes: Seq<bool>, i: int)
    requires
        0 <= i < runtimes.len(),
    ensures
        start_action_at(runtimes, i) is None <==> !runtimes[i],
        start_action_at(runtimes, i) == Some(StartAction::Start) <==> runtimes[i] && forall|k: int|
            0 <= k < i ==> !#[trigger] runtimes[k],
        forall|k: int|
            0 <= k < i && start_action_at(runtimes, i) == Some(StartAction::Start)
                ==> #[trigger] start_action_at(runtimes, k) is None,
{
    lemma_started_after(runtimes, i);
    assert forall|k: int|
        0 <= k < i && start_action_at(runtimes, i) == Some(
            StartAction::Start,
        ) implies #[trigger] start_action_at(runtimes, k) is None by {
        assert(!runtimes[k]);
    }
}

/// The worker counts as started once a call came at which it could run.
proof fn lemma_started_after(runtimes: Seq<bool>, n: int)
    requires
        0 <= n <= runtimes.len(),
    ensures
        started_after(runtimes.take(n)) <==> exists|k: int| 0 <= k < n && #[trigger] runtimes[k],
    decreases n,
{
    if n > 0 {
        lemma_started_after(runtimes, n - 1);
        assert(runtimes.take(n).drop_last() =~= runtimes.take(n - 1));
        assert(runtimes.take(n).last() == runtimes[n - 1]);
    }
}

/// Whether `r` is what the queue's answer `sent` comes to.
pub open spec fn queue_answer(sent: Result<(), String>, r: Result<(), BackendError>) -> bool {
    match sent {
        Ok(()) => r is Ok,
        Err(reason) => is_unavailable(
            r,
            "reconciliation queue is full or stopped: "@ + reason@,
        ),
    }
}

/// What putting a settlement into the queue came to.
pub fn enqueue_outcome(sent: Result<(), String>) -> (r: Result<(), BackendError>)
    ensures
        queue_answer(sent, r),
        r is Ok <==> sent is Ok,
        sent matches Err(reason) ==> r is Err && r->Err_0.text()
            == "shared quota backend unavailable: reconciliation queue is full or stopped: "@
            + reason@,
{
    proof {
        reveal_strlit("shared quota backend unavailable: ");
        reveal_strlit("reconciliation queue is full or stopped: ");
        reveal_strlit(
            "shared quota backend unavailable: reconciliation queue is full or stopped: ",
        );
        assert("shared quota backend unavailable: "@ + "reconciliation queue is full or stopped: "@
            =~= "shared quota backend unavailable: reconciliation queue is full or stopped: "@);
        if sent is Err {
            let reason = sent->Err_0@;
            assert("shared quota backend unavailable: "@ + (
            "reconciliation queue is full or stopped: "@ + reason)
                =~= "shared quota backend unavailable: reconciliation queue is full or stopped: "@
                + reason);
        }
    }
    match sent {
        Ok(()) => Ok(()),
        Err(reason) => Err(
            BackendError::Unavailable(
                joined("reconciliation queue is full or stopped: ", reason.as_str()),
            ),
        ),
    }
}

/// Hand a settlement to the worker, after [`start_worker`] answered `start`:
/// `send` puts it into the queue. Where no worker can run, that error is the
/// answer and nothing is queued: `send` may be called only where one can.
pub fn enqueue_reconcile<F: FnOnce() -> Result<(), String>>(
    start: Result<StartAction, BackendError>,
    send: F,
) -> (r: Result<(), BackendError>)
    requires
        start is Ok ==> send.requires(()),
    ensures
        match start {
            Err(e) => r == Err::<(), BackendError>(e),
            Ok(_) => exists|sent: Result<(), String>| #[trigger]
                send.ensures((), sent) && queue_answer(sent, r),
        },
{
    match start {
        Err(e) => Err(e),
        Ok(_) => {
            let sent = send();
            let ghost said = sent;
            let r = enqueue_outcome(sent);
            assert(send.ensures((), said) && queue_answer(said, r));
            r
        },
    }
}

/// What the worker does after trying to settle a reservation.
#[derive(Debug, Clone, Copy, PartialEq, Eq, Structural)]
pub enum WorkerStep {
    /// The reservation is settled.
    Completed,
    /// Wait, then try again.
    Retry {
        /// Tries that failed so far.
        attempts: u64,
        /// Milliseconds to wait.
        delay_ms: u64,
    },
    /// Give the settlement up.
    Abandoned,
}

/// What follows a try that came after `attempts` failed ones.
pub open spec fn step_after(attempts: u64, succeeded: bool) -> WorkerStep {
    if succeeded {
        WorkerStep::Completed
    } else if attempts < MAX_RETRIES {
        WorkerStep::Retry {
            attempts: (attempts + 1) as u64,
            delay_ms: (RETRY_DELAY_MS * (attempts + 1)) as u64,
        }
    } else {
        WorkerStep::Abandoned
    }
}

/// What follows a try that came after `attempts` failed ones.
pub fn worker_step(attempts: u64, succeeded: bool) -> (r: WorkerStep)
    ensures
        r == step_after(attempts, succeeded),
{
    if succeeded {
        WorkerStep::Completed
    } else if attempts < MAX_RETRIES {
        let attempts: u64 = attempts + 1;
        WorkerStep::Retry { attempts, delay_ms: RETRY_DELAY_MS * attempts }
    } else {
        WorkerStep::Abandoned
    }
}

/// What the worker does after `failures` tries in a row that all failed.
pub open spec fn step_after_failures(failures: nat) -> WorkerStep
    decreases failures,
{
    if failures <= 1 {
        step_after(0, false)
    } else {
        match step_after_failures((failures - 1) as nat) {
            WorkerStep::Retry { attempts, .. } => step_after(attempts, false),
            other => other,
        }
    }
}

/// A settlement that keeps failing is retried twice, each time after a longer
/// wait, and then given up for good.
pub proof fn law_retries_are_bounded(failures: nat)
    requires
        failures > 0,
    ensures
        failures <= MAX_RETRIES ==> step_after_failures(failures) == (WorkerStep::Retry {
            attempts: failures as u64,
            delay_ms: (RETRY_DELAY_MS * failures) as u64,
        }),
        failures > MAX_RETRIES ==> step_after_failures(failures) == WorkerStep::Abandoned,
    decreases failures,
{
    if failures > 1 {
        law_retries_are_bounded((failures - 1) as nat);
    }
}

/// Where the worker stands in its queue.
pub ghost struct WorkerPlace {
    /// How many requests it is done with: the place of the one in hand.
    pub request: nat,
    /// Tries of the one in hand that failed.
    pub attempts: u64,
}

/// Where the worker stands after tries with these results. It tries the request
/// in hand again where that is the step to take, and otherwise takes the next.
pub open spec fn worker_at(results: Seq<bool>) -> WorkerPlace
    decreases results.len(),
{
    if results.len() == 0 {
        WorkerPlace { request: 0, attempts: 0 }
    } else {
        let before = worker_at(results.drop_last());
        match step_after(before.attempts, results.last()) {
            WorkerStep::Retry { attempts, .. } => WorkerPlace { request: before.request, attempts },
            _ => WorkerPlace { request: before.request + 1, attempts: 0 },
        }
    }
}

/// The worker takes the requests in the order of the queue and leaves none out:
/// a try concerns the same request as the one before it or the next. It goes on
/// to the next exactly when a request is settled or was tried as often as is
/// allowed, so that one given up does not hold up those behind it.
pub proof fn law_requests_are_settled_in_order(results: Seq<bool>, i: int)
    requires
        0 <= i < results.len(),
    ensures
        worker_at(results.take(0)).request == 0,
        ({
            let now = worker_at(results.take(i));
            let next = worker_at(results.take(i + 1));
            &&& now.attempts <= MAX_RETRIES
            &&& next.request == now.request || next.request == now.request + 1
            &&& next.request == now.request + 1 <==> results[i] || now.attempts == MAX_RETRIES
            &&& next.request == now.request + 1 ==> next.attempts == 0
        }),
    decreases i,
{
    assert(results.take(i + 1).drop_last() =~= results.take(i));
    assert(results.take(i + 1).last() == results[i]);
    if i > 0 {
        law_requests_are_settled_in_order(results, i - 1);
    }
}

/// A request is tried until it is settled, and at most three times: tries that
/// concern the same request are few, and all but the last of them failed.
pub proof fn law_each_request_is_tried_until_settled(results: Seq<bool>, i: int, j: int)
    requires
        0 <= i <= j < results.len(),
        worker_at(results.take(i)).request == worker_at(results.take(j)).request,
    ensures
        j - i <= MAX_RETRIES,
        forall|k: int| i <= k < j ==> !#[trigger] results[k],
{
    lemma_tries_in_a_row(results, i, j);
    law_requests_are_settled_in_order(results, j);
}

/// Between two tries the worker does not go back, and where it stays with a
/// request every try of it fails and is counted.
proof fn lemma_tries_in_a_row(results: Seq<bool>, i: int, j: int)
    requires
        0 <= i <= j < results.len(),
    ensures
        worker_at(results.take(i)).request <= worker_at(results.take(j)).request,
        worker_at(results.take(i)).request == worker_at(results.take(j)).request ==> {
            &&& worker_at(results.take(j)).attempts == worker_at(results.take(i)).attempts + (j - i)
            &&& forall|k: int| i <= k < j ==> !#[trigger] results[k]
        },
    decreases j - i,
{
    if i < j {
        lemma_tries_in_a_row(results, i, j - 1);
        law_requests_are_settled_in_order(results, j - 1);
        assert(results.take(j).drop_last() =~= results.take(j - 1));
        assert(results.take(j).last() == results[j - 1]);
    }
}

/// The keys of a script are all different, and the last four of them do not
/// depend on the rule or the key.
pub proof fn law_script_keys_are_distinct(
    namespace: Seq<char>,
    rule: Seq<char>,
    key: Seq<char>,
)
    ensures
        script_keys(namespace, rule, key).len() == 7,
        script_keys(namespace, rule, key).no_duplicates(),
        forall|other_rule: Seq<char>, other_key: Seq<char>, i: int|
            3 <= i < 7 ==> #[trigger] script_keys(namespace, other_rule, other_key)[i]
                == script_keys(namespace, rule, key)[i],
{
    reveal_strlit(":v1:");
    reveal_strlit(":settled");
    reveal_strlit(":active");
    reveal_strlit(":keys");
    reveal_strlit(":active-count");
    reveal_strlit(":reservation-seq");
    reveal_strlit(":active-index");
    let keys = script_keys(namespace, rule, key);
    let n = namespace.len() as int;
    assert(keys[0][n + 1] == 'v');
    assert(keys[1][n + 1] == 'v');
    assert(keys[2][n + 1] == 'v');
    assert(keys[3][n + 1] == 'k');
    assert(keys[4][n + 1] == 'a');
    assert(keys[5][n + 1] == 'r');
    assert(keys[6][n + 1] == 'a');
    assert(keys[4][n + 8] == 'c');
    assert(keys[6][n + 8] == 'i');
    assert(keys[0].len() < keys[2].len() < keys[1].len());
    assert forall|i: int, j: int| 0 <= i < 7 && 0 <= j < 7 && i != j implies keys[i]
        != keys[j] by {
        assert(i == 0 || i == 1 || i == 2 || i == 3 || i == 4 || i == 5 || i == 6);
        assert(j == 0 || j == 1 || j == 2 || j == 3 || j == 4 || j == 5 || j == 6);
    }
}

/// Two keys share their state exactly when their digests agree.
pub proof fn law_keys_are_told_apart_by_digest(
    namespace: Seq<char>,
    rule_a: Seq<char>,
    key_a: Seq<char>,
    rule_b: Seq<char>,
    key_b: Seq<char>,
)
    ensures
        key_prefix(namespace, rule_a, key_a) == key_prefix(namespace, rule_b, key_b) <==> sha256_of(
            key_material(namespace, rule_a, key_a),
        ) == sha256_of(key_material(namespace, rule_b, key_b)),
{
    let a = hex_text(sha256_of(key_material(namespace, rule_a, key_a)));
    let b = hex_text(sha256_of(key_material(namespace, rule_b, key_b)));
    let head = namespace + ":v1:"@;
    lemma_hex_injective(
        sha256_of(key_material(namespace, rule_a, key_a)),
        sha256_of(key_material(namespace, rule_b, key_b)),
    );
    assert((head + a).skip(head.len() as int) =~= a);
    assert((head + b).skip(head.len() as int) =~= b);
}

/// What is digested tells namespaces, rules and keys apart, as long as no
/// namespace and no rule holds a NUL.
pub proof fn law_key_material_is_unambiguous(
    namespace_a: Seq<char>,
    rule_a: Seq<char>,
    key_a: Seq<char>,
    namespace_b: Seq<char>,
    rule_b: Seq<char>,
    key_b: Seq<char>,
)
    requires
        !namespace_a.contains('\0'),
        !namespace_b.contains('\0'),
        !rule_a.contains('\0'),
        !rule_b.contains('\0'),
        key_material(namespace_a, rule_a, key_a) == key_material(namespace_b, rule_b, key_b),
    ensures
        namespace_a == namespace_b,
        rule_a == rule_b,
        key_a == key_b,
{
    lemma_material_is_encoding(namespace_a, rule_a, key_a);
    lemma_material_is_encoding(namespace_b, rule_b, key_b);
    let mark = seq!['\0'];
    let rest_a = rule_a + mark + key_a;
    let rest_b = rule_b + mark + key_b;
    lemma_encoding_injective(namespace_a + mark + rest_a, namespace_b + mark + rest_b);
    lemma_split_at_mark(namespace_a, rest_a, namespace_b, rest_b, '\0');
    lemma_split_at_mark(rule_a, key_a, rule_b, key_b, '\0');
}

/// What is digested encodes the three texts, joined by NULs.
proof fn lemma_material_is_encoding(namespace: Seq<char>, rule: Seq<char>, key: Seq<char>)
    ensures
        key_material(namespace, rule, key) == encode_utf8(
            namespace + seq!['\0'] + (rule + seq!['\0'] + key),
        ),
{
    let mark = seq!['\0'];
    assert(encode_utf8(mark) =~= seq![0u8]) by {
        reveal_with_fuel(encode_utf8, 2);
        assert(leading_byte_width_1(0) == 0) by (bit_vector);
        assert(encode_utf8(mark.drop_first()) =~= seq![]);
    }
    let tail = rule + mark + key;
    lemma_encoding_append(namespace, mark);
    lemma_encoding_append(namespace + mark, tail);
    lemma_encoding_append(rule, mark);
    lemma_encoding_append(rule + mark, key);
    assert(key_material(namespace, rule, key) =~= encode_utf8(namespace + mark + tail));
}

/// A request that the ledger admits is answered with the next identifier and its
/// own estimate, and any other with the longest window.
pub proof fn law_decisions_follow_the_ledger(
    ledger: LedgerView,
    request: ReserveRequest,
    longest: u64,
)
    requires
        forall|b: int|
            0 <= b < ledger.budgets.len() ==> (#[trigger] ledger.budgets[b]).window_ms <= longest,
        ledger.budgets.len() == 0 ==> longest == 0,
        ledger.budgets.len() > 0 ==> exists|b: int|
            0 <= b < ledger.budgets.len() && (#[trigger] ledger.budgets[b]).window_ms == longest,
    ensures
        ({
            let key = request.key@;
            let now = request.now_ms as nat;
            let fits = {
                &&& (exists|i: int|
                    0 <= i < ledger.keys.len() && (#[trigger] ledger.keys[i]).key == key
                        && ledger.keys[i].expires_at > now) || ledger.keys.filter(
                    |k: KeyView| k.expires_at > now,
                ).len() < ledger.max_keys
                &&& ledger.active.filter(
                    |e: ActiveView| e.reserved_at + ledger.timeout > now,
                ).len() < ledger.max_active
                &&& ledger.last_id < u64::MAX
                &&& forall|b: int|
                    0 <= b < ledger.budgets.len() ==> tokens_in_use(ledger, key, now)
                        + request.estimate <= (#[trigger] ledger.budgets[b]).capacity
            };
            decision_on(ledger, request) == if fits {
                BackendReserve::Admitted {
                    reservation_id: (ledger.last_id + 1) as u64,
                    estimate: request.estimate,
                }
            } else {
                BackendReserve::Denied { retry_after_ms: longest }
            }
        }),
{
    law_requests_are_denied_only_for_a_reason(
        ledger,
        request.key@,
        request.estimate as nat,
        request.now_ms as nat,
    );
    law_longest_window_is_the_longest(ledger.budgets);
}

/// The answer to a settlement of an open reservation names the tokens that were
/// used, or the estimate when their number is not known, and the difference to
/// the estimate as refund or overage.
pub proof fn law_settlements_report_what_was_used(
    ledger: LedgerView,
    i: int,
    actual: Option<u64>,
)
    requires
        ledger.valid(),
        0 <= i < ledger.active.len(),
        ledger.active[i].estimate <= u64::MAX,
    ensures
        ({
            let estimate = ledger.active[i].estimate;
            let used: nat = match actual {
                Some(tokens) => tokens as nat,
                None => estimate,
            };
            settlement_on(ledger, ledger.active[i].id, actual) == (BackendSettlement::Applied {
                actual: used as u64,
                refund: (if used < estimate {
                    estimate - used
                } else {
                    0
                }) as u64,
                overage: (if used > estimate {
                    used - estimate
                } else {
                    0
                }) as u64,
            })
        }),
{
    law_settlements_charge_what_was_used(ledger, i, actual, 0);
}

/// A settlement of what is not open is answered as such.
pub proof fn law_unknown_settlements_are_reported(
    ledger: LedgerView,
    id: u64,
    actual: Option<u64>,
)
    requires
        forall|j: int| 0 <= j < ledger.active.len() ==> (#[trigger] ledger.active[j]).id != id,
    ensures
        settlement_on(ledger, id, actual) is Noop,
{
    law_unknown_settlements_change_nothing(ledger, id, actual, 0);
}

/// The command that settles a reservation runs the settlement script on the keys
/// of the request's key, with the reservation and the tokens that were used. Where
/// that number is known the estimate plays no part; where not it takes its place.
pub proof fn law_settlement_commands_say_what_was_used(
    backend: ValkeyTokenRateLimitBackend,
    request: ReconcileRequest,
    other: ReconcileRequest,
)
    ensures
        ({
            let sent = backend.reconcile_texts(request);
            let keys = script_keys(backend.namespace@, backend.rule@, request.key@);
            &&& sent.len() == 12
            &&& sent[0] == "EVAL"@
            &&& sent[1] == RECONCILE_SCRIPT@
            &&& sent[2] == "7"@
            &&& sent.subrange(3, 10) == keys
            &&& sent[10] == decimal_text(request.reservation_id as nat)
            &&& request.actual matches Some(tokens) ==> sent[11] == decimal_text(tokens as nat)
            &&& request.actual is None ==> sent[11] == decimal_text(request.estimate as nat)
        }),
        request.actual is Some && other.actual == request.actual && other.key@ == request.key@
            && other.reservation_id == request.reservation_id ==> backend.reconcile_texts(other)
            == backend.reconcile_texts(request),
{
    law_script_keys_are_distinct(backend.namespace@, backend.rule@, request.key@);
    law_script_keys_are_distinct(backend.namespace@, backend.rule@, other.key@);
    let sent = backend.reconcile_texts(request);
    let keys = script_keys(backend.namespace@, backend.rule@, request.key@);
    assert(sent.subrange(3, 10) =~= keys);
    if request.actual is Some && other.actual == request.actual && other.key@ == request.key@
        && other.reservation_id == request.reservation_id {
        assert(backend.reconcile_texts(other) =~= sent);
    }
}

/// The command that asks for a reservation runs the reservation script on the
/// keys of the request's key, with the settings of the backend, the estimate, and
/// window and capacity of each budget in order.
pub proof fn law_reservation_commands_say_what_is_asked(
    backend: ValkeyTokenRateLimitBackend,
    request: ReserveRequest,
)
    ensures
        ({
            let sent = backend.reserve_texts(request);
            let budgets = backend.budgets@;
            let keys = script_keys(backend.namespace@, backend.rule@, request.key@);
            &&& sent.len() == 15 + 2 * budgets.len()
            &&& sent[0] == "EVAL"@
            &&& sent[1] == RESERVE_SCRIPT@
            &&& sent[2] == "7"@
            &&& sent.subrange(3, 10) == keys
            &&& sent[10] == decimal_text(backend.reservation_timeout_ms as nat)
            &&& sent[11] == decimal_text(backend.max_keys as nat)
            &&& sent[12] == decimal_text(backend.max_active_reservations as nat)
            &&& sent[13] == decimal_text(request.estimate as nat)
            &&& sent[14] == decimal_text(budgets.len())
            &&& forall|b: int|
                0 <= b < budgets.len() ==> sent[15 + 2 * b] == decimal_text(
                    (#[trigger] budgets[b]).window_ms as nat,
                ) && sent[16 + 2 * b] == decimal_text(budgets[b].capacity as nat)
        }),
{
    law_script_keys_are_distinct(backend.namespace@, backend.rule@, request.key@);
    lemma_budget_args(backend.budgets@);
    let sent = backend.reserve_texts(request);
    let keys = script_keys(backend.namespace@, backend.rule@, request.key@);
    let args = budget_args(backend.budgets@);
    assert(sent.subrange(3, 10) =~= keys);
    assert forall|b: int| 0 <= b < backend.budgets@.len() implies sent[15 + 2 * b] == decimal_text(
        (#[trigger] backend.budgets@[b]).window_ms as nat,
    ) && sent[16 + 2 * b] == decimal_text(backend.budgets@[b].capacity as nat) by {
        assert(sent[15 + 2 * b] == args[2 * b]);
        assert(sent[16 + 2 * b] == args[2 * b + 1]);
    }
}

/// Each budget gives two arguments, in order.
proof fn lemma_budget_args(budgets: Seq<Budget>)
    ensures
        budget_args(budgets).len() == 2 * budgets.len(),
        forall|b: int|
            0 <= b < budgets.len() ==> budget_args(budgets)[2 * b] == decimal_text(
                (#[trigger] budgets[b]).window_ms as nat,
            ) && budget_args(budgets)[2 * b + 1] == decimal_text(budgets[b].capacity as nat),
    decreases budgets.len(),
{
    if budgets.len() > 0 {
        let rest = budgets.drop_last();
        lemma_budget_args(rest);
        assert forall|b: int| 0 <= b < budgets.len() implies budget_args(budgets)[2 * b]
            == decimal_text((#[trigger] budgets[b]).window_ms as nat) && budget_args(budgets)[2 * b
            + 1] == decimal_text(budgets[b].capacity as nat) by {
            if b < rest.len() {
                assert(rest[b] == budgets[b]);
            }
        }
    }
}

/// The keys of a script, by name: three for the key, which begin with the
/// namespace and the digest of namespace, rule and key, and four for the whole
/// namespace.
pub proof fn law_script_keys_have_these_names(
    namespace: Seq<char>,
    rule: Seq<char>,
    key: Seq<char>,
)
    ensures
        ({
            let keys = script_keys(namespace, rule, key);
            let prefix = namespace + ":v1:"@ + hex_text(
                sha256_of(
                    encode_utf8(namespace) + seq![0u8] + encode_utf8(rule) + seq![0u8]
                        + encode_utf8(key),
                ),
            );
            &&& keys.len() == 7
            &&& keys[0] == prefix
            &&& keys[1] == prefix + ":settled"@
            &&& keys[2] == prefix + ":active"@
            &&& keys[3] == namespace + ":keys"@
            &&& keys[4] == namespace + ":active-count"@
            &&& keys[5] == namespace + ":reservation-seq"@
            &&& keys[6] == namespace + ":active-index"@
        }),
{
}

/// What goes over the wire is the texts of a command, each in UTF-8.
pub proof fn law_commands_are_sent_in_utf8(list: Seq<Seq<char>>, i: int)
    requires
        0 <= i < list.len(),
    ensures
        encoded(list).len() == list.len(),
        encoded(list)[i] == encode_utf8(list[i]),
{
}

/// The answers of the reservation script are understood as it means them, and
/// nothing else is taken for an answer.
pub proof fn law_reservation_answers_are_understood(
    response: Seq<i64>,
    id: i64,
    estimate: i64,
    retry_after: i64,
)
    requires
        id >= 0,
        estimate >= 0,
        retry_after >= 0,
    ensures
        reserve_answer(seq![1i64, id, estimate]) == Some(
            BackendReserve::Admitted { reservation_id: id as u64, estimate: estimate as u64 },
        ),
        reserve_answer(seq![0i64, retry_after]) == Some(
            BackendReserve::Denied { retry_after_ms: retry_after as u64 },
        ),
        match reserve_answer(response) {
            Some(BackendReserve::Admitted { reservation_id, estimate: held }) => response =~= seq![
                1i64,
                reservation_id as i64,
                held as i64,
            ],
            Some(BackendReserve::Denied { retry_after_ms }) => response =~= seq![
                0i64,
                retry_after_ms as i64,
            ],
            None => !(exists|a: i64, b: i64|
                a >= 0 && b >= 0 && response =~= #[trigger] seq![1i64, a, b]) && !(exists|a: i64|
                a >= 0 && response =~= #[trigger] seq![0i64, a]),
        },
{
}

/// The answers of the settlement script are understood as it means them, and
/// nothing else is taken for an answer.
pub proof fn law_settlement_answers_are_understood(
    response: Seq<i64>,
    actual: i64,
    refund: i64,
    overage: i64,
)
    requires
        actual >= 0,
        refund >= 0,
        overage >= 0,
    ensures
        reconcile_answer(seq![0i64]) == Some(BackendSettlement::Noop),
        reconcile_answer(seq![1i64, actual, refund, overage]) == Some(
            BackendSettlement::Applied {
                actual: actual as u64,
                refund: refund as u64,
                overage: overage as u64,
            },
        ),
        match reconcile_answer(response) {
            Some(BackendSettlement::Applied { actual: a, refund: b, overage: c }) => response
                =~= seq![1i64, a as i64, b as i64, c as i64],
            Some(BackendSettlement::Noop) => response =~= seq![0i64],
            None => !(response =~= seq![0i64]) && !(exists|a: i64, b: i64, c: i64|
                a >= 0 && b >= 0 && c >= 0 && response =~= #[trigger] seq![1i64, a, b, c]),
        },
{
}

/// A backend takes over every setting as it is configured, and its limit is the
/// smallest capacity.
pub proof fn law_settings_are_taken_over(
    backend: ValkeyTokenRateLimitBackend,
    config: ValkeyBackendConfig,
)
    requires
        backend.configured_by(config),
    ensures
        backend.namespace == config.namespace,
        backend.rule == config.rule,
        backend.budgets == config.budgets,
        backend.reservation_timeout_ms == config.reservation_timeout_ms,
        backend.max_keys == config.max_keys,
        backend.max_active_reservations == config.max_active_reservations,
        forall|b: int|
            0 <= b < config.budgets@.len() ==> (#[trigger] config.budgets@[b]).capacity
                >= backend.limit,
        config.budgets@.len() > 0 ==> exists|b: int|
            0 <= b < config.budgets@.len() && (#[trigger] config.budgets@[b]).capacity
                == backend.limit,
        config.budgets@.len() == 0 ==> backend.limit == 0,
{
    law_limit_is_the_smallest_capacity(config.budgets@);
}

/// The worker tries a settlement again after 25 and after 50 milliseconds, and
/// gives it up when it fails for the third time. One that succeeds is done with.
pub proof fn law_worker_waits_longer_each_time(attempts: u64)
    ensures
        step_after(attempts, true) is Completed,
        attempts < 2 ==> step_after(attempts, false) == (WorkerStep::Retry {
            attempts: (attempts + 1) as u64,
            delay_ms: (25 * (attempts + 1)) as u64,
        }),
        attempts >= 2 ==> step_after(attempts, false) is Abandoned,
{
}

/// Gateways that share their state have to agree on what the scripts do to it:
/// the reservation script is this one and no other.
pub proof fn law_reservation_script_is_agreed_upon()
    ensures
        RESERVE_SCRIPT@ == "
local now = redis.call('TIME')
local now_ms = tonumber(now[1]) * 1000 + math.floor(tonumber(now[2]) / 1000)
local timeout_ms = tonumber(ARGV[1])
local max_keys = tonumber(ARGV[2])
local max_active = tonumber(ARGV[3])
local estimate = tonumber(ARGV[4])
local budget_count = tonumber(ARGV[5])
local settled = KEYS[2]
local active = KEYS[3]

local active_total = tonumber(redis.call('GET', KEYS[5]) or '0')
local expired_global = redis.call('ZRANGE', KEYS[7], '-inf', now_ms, 'BYSCORE')
for i = 1, #expired_global do
  local member = expired_global[i]
  local split = string.find(member, '|')
  if split then
    local physical = string.sub(member, 1, split - 1)
    local reservation = string.sub(member, split + 1)
    local active_key = physical .. ':active'
    local value = redis.call('HGET', active_key, reservation)
    if value then
      local value_split = string.find(value, '|')
      local amount = tonumber(string.sub(value, 1, value_split - 1))
      local reserved_at = tonumber(string.sub(value, value_split + 1))
      redis.call('ZADD', physical .. ':settled', reserved_at, 'expired:' .. reservation .. ':' .. amount)
      redis.call('HDEL', active_key, reservation)
      active_total = math.max(0, active_total - 1)
    end
  end
  redis.call('ZREM', KEYS[7], member)
end
redis.call('SET', KEYS[5], active_total)

local max_window = 0
for i = 1, budget_count do
  local window = tonumber(ARGV[5 + (i * 2) - 1])
  if window > max_window then max_window = window end
  redis.call('ZREMRANGEBYSCORE', settled, '-inf', now_ms - window)
end

local expired = {}
local active_values = redis.call('HGETALL', active)
for i = 1, #active_values, 2 do
  local id = active_values[i]
  local value = active_values[i + 1]
  local sep = string.find(value, '|')
  local reserved_at = tonumber(string.sub(value, sep + 1))
  if now_ms - reserved_at >= timeout_ms then
    local amount = tonumber(string.sub(value, 1, sep - 1))
    redis.call('ZADD', settled, reserved_at, 'expired:' .. id .. ':' .. amount)
    redis.call('HDEL', active, id)
    active_total = math.max(0, active_total - 1)
  end
end
redis.call('SET', KEYS[5], active_total)

redis.call('ZREMRANGEBYSCORE', KEYS[4], '-inf', now_ms)
local key_exists = redis.call('ZSCORE', KEYS[4], KEYS[1]) ~= false
if not key_exists and redis.call('ZCARD', KEYS[4]) >= max_keys then
  return {0, max_window}
end
if active_total >= max_active then
  return {0, max_window}
end

for i = 1, budget_count do
  local window = tonumber(ARGV[5 + (i * 2) - 1])
  local capacity = tonumber(ARGV[5 + (i * 2)])
  local settled_sum = 0
  local entries = redis.call('ZRANGE', settled, now_ms - window, '+inf', 'BYSCORE', 'WITHSCORES')
  for j = 1, #entries, 2 do
    local member = entries[j]
    local amount = string.match(member, ':(%d+)$')
    if amount then settled_sum = settled_sum + tonumber(amount) end
  end
  local active_values = redis.call('HGETALL', active)
  local active_sum = 0
  for j = 1, #active_values, 2 do
    local sep = string.find(active_values[j + 1], '|')
    active_sum = active_sum + tonumber(string.sub(active_values[j + 1], 1, sep - 1))
  end
  if settled_sum + active_sum + estimate > capacity then
    return {0, max_window}
  end
end

local id = redis.call('INCR', KEYS[6])
redis.call('HSET', active, id, estimate .. '|' .. now_ms)
redis.call('INCR', KEYS[5])
redis.call('ZADD', KEYS[7], now_ms + timeout_ms, KEYS[1] .. '|' .. id)
local ttl = math.max(max_window + timeout_ms, 1000)
redis.call('ZADD', KEYS[4], now_ms + ttl, KEYS[1])
redis.call('PEXPIRE', settled, ttl)
redis.call('PEXPIRE', active, ttl)
redis.call('PEXPIRE', KEYS[1], ttl)
return {1, id, estimate}
"@,
{
}

/// As is the settlement script.
pub proof fn law_settlement_script_is_agreed_upon()
    ensures
        RECONCILE_SCRIPT@ == "
local value = redis.call('HGET', KEYS[3], ARGV[1])
if not value then return {0} end
local sep = string.find(value, '|')
local estimate = tonumber(string.sub(value, 1, sep - 1))
local actual = tonumber(ARGV[2])
redis.call('HDEL', KEYS[3], ARGV[1])
local active_total = math.max(0, tonumber(redis.call('GET', KEYS[5]) or '0') - 1)
redis.call('SET', KEYS[5], active_total)
redis.call('ZREM', KEYS[7], KEYS[1] .. '|' .. ARGV[1])
local now = redis.call('TIME')
local now_ms = tonumber(now[1]) * 1000 + math.floor(tonumber(now[2]) / 1000)
redis.call('ZADD', KEYS[2], now_ms, 'settled:' .. ARGV[1] .. ':' .. actual)
return {1, actual, math.max(0, estimate - actual), math.max(0, actual - estimate)}
"@,
{
}

/// The text of an error says what went wrong, and a call that failed says why.
pub proof fn law_messages_name_what_is_wrong(reason: String, text: Seq<char>, done: u64)
    ensures
        BackendError::Unavailable(reason).text() == "shared quota backend unavailable: "@ + reason@,
        BackendError::InvalidResponse.text() == "shared quota backend returned an invalid response"@,
        is_unavailable(Err::<u64, BackendError>(BackendError::Unavailable(reason)), text)
            <==> reason@ == text,
        !is_unavailable(Err::<u64, BackendError>(BackendError::InvalidResponse), text),
        !is_unavailable(Ok::<u64, BackendError>(done), text),
{
}

/// Strings are seen as they are, all of them and in their order.
pub proof fn law_strings_are_seen_as_they_are(strings: Seq<String>, i: int)
    requires
        0 <= i < strings.len(),
    ensures
        texts(strings).len() == strings.len(),
        texts(strings)[i] == strings[i]@,
{
}

/// A scheme of lower-case letters is that of a server only if it is one of these
/// five, and an address without a scheme is that of none.
pub proof fn law_servers_have_these_schemes(scheme: Seq<char>, rest: Seq<char>)
    requires
        forall|i: int| 0 <= i < scheme.len() ==> 'a' <= #[trigger] scheme[i] <= 'z',
    ensures
        has_no_server_scheme(scheme),
        has_no_server_scheme(scheme + seq![':'] + rest) <==> !(scheme == "redis"@ || scheme
            == "rediss"@ || scheme == "valkey"@ || scheme == "valkeys"@ || scheme == "unix"@),
{
    let url = scheme + seq![':'] + rest;
    assert(!scheme.contains(':'));
    lemma_text_before_colon(scheme);
    assert(scheme.push(':') =~= url.take(scheme.len() as int + 1));
    lemma_scheme_of_prefix(scheme, url);
}

/// How many requests may wait to be settled, and how long a call may take.
pub proof fn law_waiting_is_bounded()
    ensures
        QUEUE_CAPACITY == 1024,
        CALL_TIMEOUT_MS == 500,
{
}

} // verus!
