//! One filter call: what is sent, and what its outcome does to the registry.

use vstd::prelude::*;
use vstd::string::StringExecFns;
use crate::record::EmbryoList;
use crate::registry::FilterRegistry;

verus! {

/// The tunable limits of the engine, in seconds and counts.
#[derive(Clone, Copy, Debug, PartialEq, Eq)]
pub struct EngineConfig {
    /// How long one filter call may take.
    pub t_call: u64,
    /// How long the collection of answers may take.
    pub t_global: u64,
    /// After how many merged answers collection stops, if bounded.
    pub max_response: Option<usize>,
}

/// The input of one aggregation run.
#[derive(Clone, Debug, PartialEq, Eq)]
pub struct Query {
    /// The free text handed to every filter.
    pub value: String,
    /// The time budget the client asked for, if it named one. It is carried
    /// for the caller; the budget sent to filters derives from `t_call`.
    pub budget_hint: Option<u64>,
    /// Where to push the result, for callback delivery.
    pub callback: Option<String>,
}

/// What is sent to one filter.
#[derive(Clone, Debug, PartialEq, Eq)]
pub struct FilterCall {
    pub endpoint: String,
    pub value: String,
    /// The advisory budget in seconds, in decimal.
    pub timeout: String,
}

/// How one filter call ended.
#[derive(Clone, Debug, PartialEq, Eq)]
pub enum CallOutcome {
    /// An answer arrived in time and parsed as a list of records.
    Succeeded(EmbryoList),
    /// No answer arrived within the per-call timeout.
    TimedOut,
    /// The filter could not be reached.
    TransportError,
    /// An answer arrived in time but was not a list of records.
    MalformedResponse,
}

impl CallOutcome {
    /// Whether the outcome shows the filter to be unreachable.
    pub open spec fn evicts(&self) -> bool {
        self is TimedOut || self is TransportError
    }

    /// The answer that the outcome publishes, if any.
    pub open spec fn published(&self) -> Option<EmbryoList> {
        match *self {
            CallOutcome::Succeeded(list) => Some(list),
            _ => None,
        }
    }
}

/// Where one filter call stands. A call starts idle, is dispatched once,
/// and ends in one of four ways.
#[derive(Clone, Copy, Debug, PartialEq, Eq, Structural)]
pub enum CallState {
    Idle,
    InFlight,
    Succeeded,
    TimedOut,
    TransportError,
    MalformedResponse,
}

impl CallState {
    /// The state in which a call with `outcome` ends.
    pub open spec fn ended(outcome: CallOutcome) -> CallState {
        match outcome {
            CallOutcome::Succeeded(_) => CallState::Succeeded,
            CallOutcome::TimedOut => CallState::TimedOut,
            CallOutcome::TransportError => CallState::TransportError,
            CallOutcome::MalformedResponse => CallState::MalformedResponse,
        }
    }

    /// Whether the call has ended.
    pub open spec fn is_final(&self) -> bool {
        !(*self is Idle) && !(*self is InFlight)
    }

    /// Whether ending here removes the endpoint from the registry.
    pub fn evicts(&self) -> (b: bool)
        ensures
            b == (*self is TimedOut || *self is TransportError),
    {
        match self {
            CallState::TimedOut => true,
            CallState::TransportError => true,
            _ => false,
        }
    }

    /// Sends the call. Only an idle call can be sent, so none is sent twice.
    pub fn dispatch(self) -> (next: Option<CallState>)
        ensures
            next == if self is Idle {
                Some(CallState::InFlight)
            } else {
                None
            },
    {
        match self {
            CallState::Idle => Some(CallState::InFlight),
            _ => None,
        }
    }

    /// Ends a call in flight with `outcome`. A call that is not in flight
    /// cannot end.
    pub fn complete(self, outcome: &CallOutcome) -> (next: Option<CallState>)
        ensures
            next == if self is InFlight {
                Some(CallState::ended(*outcome))
            } else {
                None
            },
            next matches Some(s) ==> s.is_final() && (outcome.evicts() <==> (s is TimedOut || s
                is TransportError)),
    {
        match self {
            CallState::InFlight => Some(
                match outcome {
                    CallOutcome::Succeeded(_) => CallState::Succeeded,
                    CallOutcome::TimedOut => CallState::TimedOut,
                    CallOutcome::TransportError => CallState::TransportError,
                    CallOutcome::MalformedResponse => CallState::MalformedResponse,
                },
            ),
            _ => None,
        }
    }
}

/// The budget a filter is told: the per-call timeout less one second, so
/// that the filter can stop before the gateway stops waiting.
pub open spec fn remaining_budget(t_call: nat) -> nat {
    if t_call == 0 {
        0
    } else {
        (t_call - 1) as nat
    }
}

/// The character of a decimal digit.
pub open spec fn digit_char(d: nat) -> char {
    if d == 0 {
        '0'
    } else if d == 1 {
        '1'
    } else if d == 2 {
        '2'
    } else if d == 3 {
        '3'
    } else if d == 4 {
        '4'
    } else if d == 5 {
        '5'
    } else if d == 6 {
        '6'
    } else if d == 7 {
        '7'
    } else if d == 8 {
        '8'
    } else {
        '9'
    }
}

/// `n` in decimal, without leading zeros.
pub open spec fn decimal_text(n: nat) -> Seq<char>
    decreases n,
{
    if n < 10 {
        seq![digit_char(n)]
    } else {
        decimal_text(n / 10).push(digit_char(n % 10))
    }
}

/// What encoding `text` as a JSON string gives: the literal, which is the
/// text between double quotes with the characters escaped that JSON wants
/// escaped, or `None` where the encoder reports an error.
pub uninterp spec fn json_string_text(text: Seq<char>) -> Option<Seq<char>>;

/// The body sent to a filter, given the JSON literals of its two fields.
pub open spec fn payload_text(value_literal: Seq<char>, timeout_literal: Seq<char>) -> Seq<char> {
    "{\"value\":"@ + value_literal + ",\"timeout\":"@ + timeout_literal + "}"@
}

/// The body sent to a filter, given what encoding each of its two fields
/// gave: the framed literals where both were encoded, else nothing.
pub open spec fn payload_of(
    value_literal: Option<Seq<char>>,
    timeout_literal: Option<Seq<char>>,
) -> Option<Seq<char>> {
    match (value_literal, timeout_literal) {
        (Some(v), Some(t)) => Some(payload_text(v, t)),
        _ => None,
    }
}

/// The registry after a call to `endpoint` ended with `outcome`.
pub open spec fn registry_after(
    members: Set<Seq<char>>,
    endpoint: Seq<char>,
    outcome: CallOutcome,
) -> Set<Seq<char>> {
    if outcome.evicts() {
        members.remove(endpoint)
    } else {
        members
    }
}

/// A change to the registry.
pub enum RegistryChange {
    Register(Seq<char>),
    Unregister(Seq<char>),
}

/// The registry after the changes `changes`, first to last.
pub open spec fn registry_after_changes(
    members: Set<Seq<char>>,
    changes: Seq<RegistryChange>,
) -> Set<Seq<char>>
    decreases changes.len(),
{
    if changes.len() == 0 {
        members
    } else {
        let before = registry_after_changes(members, changes.drop_last());
        match changes.last() {
            RegistryChange::Register(s) => before.insert(s),
            RegistryChange::Unregister(s) => before.remove(s),
        }
    }
}

/// A filter that timed out or could not be reached is no member afterwards,
/// and stays out through every later change that does not register it anew.
pub proof fn lemma_evicted_until_registered(
    members: Set<Seq<char>>,
    endpoint: Seq<char>,
    outcome: CallOutcome,
    changes: Seq<RegistryChange>,
)
    requires
        outcome.evicts(),
        forall|k: int|
            0 <= k < changes.len() ==> #[trigger] changes[k] != RegistryChange::Register(endpoint),
    ensures
        !registry_after(members, endpoint, outcome).contains(endpoint),
        !registry_after_changes(registry_after(members, endpoint, outcome), changes).contains(
            endpoint,
        ),
    decreases changes.len(),
{
    if changes.len() > 0 {
        lemma_evicted_until_registered(members, endpoint, outcome, changes.drop_last());
        assert(changes.drop_last().len() == changes.len() - 1);
        assert(changes.last() == changes[changes.len() - 1]);
    }
}

/// An answer or a malformed reply leaves the registry as it was.
pub proof fn lemma_reachable_filter_stays(
    members: Set<Seq<char>>,
    endpoint: Seq<char>,
    outcome: CallOutcome,
)
    requires
        !outcome.evicts(),
    ensures
        registry_after(members, endpoint, outcome) == members,
{
}

fn digit_text(d: u64) -> (s: &'static str)
    requires
        d < 10,
    ensures
        s@ == seq![digit_char(d as nat)],
{
    proof {
        reveal_strlit("0");
        reveal_strlit("1");
        reveal_strlit("2");
        reveal_strlit("3");
        reveal_strlit("4");
        reveal_strlit("5");
        reveal_strlit("6");
        reveal_strlit("7");
        reveal_strlit("8");
        reveal_strlit("9");
    }
    let s = if d == 0 {
        "0"
    } else if d == 1 {
        "1"
    } else if d == 2 {
        "2"
    } else if d == 3 {
        "3"
    } else if d == 4 {
        "4"
    } else if d == 5 {
        "5"
    } else if d == 6 {
        "6"
    } else if d == 7 {
        "7"
    } else if d == 8 {
        "8"
    } else {
        "9"
    };
    assert(s@ =~= seq![digit_char(d as nat)]);
    s
}

/// `n` written in decimal.
pub fn decimal(n: u64) -> (text: String)
    ensures
        text@ == decimal_text(n as nat),
{
    let mut text: String = String::from_str(digit_text(n % 10));
    let mut rest: u64 = n / 10;
    while rest > 0
        invariant
            rest == 0 ==> text@ == decimal_text(n as nat),
            rest > 0 ==> decimal_text(n as nat) == decimal_text(rest as nat) + text@,
        decreases rest,
    {
        let head: String = String::from_str(digit_text(rest % 10));
        proof {
            if rest >= 10 {
                assert(decimal_text(rest as nat) + text@ =~= decimal_text((rest / 10) as nat) + (
                head@ + text@));
            } else {
                assert(decimal_text(rest as nat) =~= head@);
            }
        }
        text = head.concat(text.as_str());
        rest = rest / 10;
    }
    text
}

/// The budget, in seconds, that filters are told under `config`.
pub fn budget(config: &EngineConfig) -> (b: u64)
    ensures
        b == remaining_budget(config.t_call as nat),
{
    if config.t_call == 0 {
        0
    } else {
        config.t_call - 1
    }
}

/// The call to make to `endpoint` for `query`.
pub fn plan_call(endpoint: &String, query: &Query, config: &EngineConfig) -> (call: FilterCall)
    ensures
        call.endpoint@ == endpoint@,
        call.value@ == query.value@,
        call.timeout@ == decimal_text(remaining_budget(config.t_call as nat)),
{
    FilterCall {
        endpoint: endpoint.clone(),
        value: query.value.clone(),
        timeout: decimal(budget(config)),
    }
}

/// The error type of `serde_json`, carried through unread.
#[verifier::external_type_specification]
#[verifier::external_body]
pub struct ExJsonError(serde_json::Error);

/// Calls `serde_json::to_string` on a string slice. The outcome depends on
/// the text alone: the same text always gives the same literal, or always
/// an error. Nothing is claimed of which texts are encoded.
#[verifier::external_body]
fn json_string(text: &str) -> (literal: Result<String, serde_json::Error>)
    ensures
        match literal {
            Ok(l) => json_string_text(text@) == Some(l@),
            Err(_) => json_string_text(text@) is None,
        },
{
    serde_json::to_string(text)
}

/// Frames the body sent to a filter from the JSON literals of its fields.
pub fn frame_payload(value_literal: &str, timeout_literal: &str) -> (body: String)
    ensures
        body@ == payload_text(value_literal@, timeout_literal@),
{
    let mut body: String = String::from_str("{\"value\":");
    body.append(value_literal);
    body.append(",\"timeout\":");
    body.append(timeout_literal);
    body.append("}");
    body
}

impl FilterCall {
    /// The body to send: a JSON object whose `value` and `timeout` are
    /// the encoded query text and the encoded budget. `None` exactly where
    /// one of the two could not be encoded.
    pub fn payload(&self) -> (body: Option<String>)
        ensures
            match body {
                Some(b) => payload_of(
                    json_string_text(self.value@),
                    json_string_text(self.timeout@),
                ) == Some(b@),
                None => payload_of(
                    json_string_text(self.value@),
                    json_string_text(self.timeout@),
                ) is None,
            },
    {
        match json_string(self.value.as_str()) {
            Ok(value_literal) => match json_string(self.timeout.as_str()) {
                Ok(timeout_literal) => Some(
                    frame_payload(value_literal.as_str(), timeout_literal.as_str()),
                ),
                Err(_) => None,
            },
            Err(_) => None,
        }
    }
}

/// The calls to make for `query`: one to each target, in the targets' order.
pub fn plan_calls(targets: &Vec<String>, query: &Query, config: &EngineConfig) -> (calls: Vec<
    FilterCall,
>)
    ensures
        calls@.len() == targets@.len(),
        forall|i: int|
            0 <= i < calls@.len() ==> {
                &&& (#[trigger] calls@[i]).endpoint@ == targets@[i]@
                &&& calls@[i].value@ == query.value@
                &&& calls@[i].timeout@ == decimal_text(remaining_budget(config.t_call as nat))
            },
{
    let mut calls: Vec<FilterCall> = Vec::new();
    let mut i: usize = 0;
    while i < targets.len()
        invariant
            i <= targets@.len(),
            calls@.len() == i,
            forall|j: int|
                0 <= j < i ==> {
                    &&& (#[trigger] calls@[j]).endpoint@ == targets@[j]@
                    &&& calls@[j].value@ == query.value@
                    &&& calls@[j].timeout@ == decimal_text(
                        remaining_budget(config.t_call as nat),
                    )
                },
        decreases targets@.len() - i,
    {
        calls.push(plan_call(&targets[i], query, config));
        i = i + 1;
    }
    calls
}

/// Applies the outcome of a call to `endpoint`: a timeout or a transport
/// failure evicts the endpoint at once; an answer or a malformed reply
/// leaves the registry alone. Returns the answer to publish, if there is one.
pub fn settle_call(registry: &mut FilterRegistry, endpoint: &str, outcome: CallOutcome) -> (answer:
    Option<EmbryoList>)
    requires
        old(registry).wf(),
    ensures
        final(registry).wf(),
        final(registry)@ == registry_after(old(registry)@, endpoint@, outcome),
        answer == outcome.published(),
{
    match outcome {
        CallOutcome::Succeeded(list) => Some(list),
        CallOutcome::MalformedResponse => None,
        CallOutcome::TimedOut => {
            let _was_member: bool = registry.unregister(endpoint);
            None
        },
        CallOutcome::TransportError => {
            let _was_member: bool = registry.unregister(endpoint);
            None
        },
    }
}

} // verus!
