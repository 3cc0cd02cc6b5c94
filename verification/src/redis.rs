//! Limiters whose counters live in Redis, and the accounting of AI requests.
//!
//! The counters themselves are incremented by a script that runs on the
//! Redis server; this module decides which counter a request touches, by how
//! much and for how long, and what the counter's new value means. It also
//! turns an AI request (a model name and a query) into the number of quota
//! units it costs.
use vstd::prelude::*;
use vstd::string::*;


use crate::RATE_LIMIT_MAX;

verus! {

/// Lifetime of a request counter, in seconds.
pub const DEFAULT_WINDOW_SECONDS: i32 = 60;

/// Lifetime of an AI quota counter, in seconds.
pub const AI_WINDOW_SECONDS: i32 = 600;

/// Quota units bought by one dollar.
pub const QUOTA_UNITS_PER_DOLLAR: i64 = 500;

/// Quota units one identifier may spend in one AI window.
pub const TOTAL_AI_QUOTA_UNITS: i64 = QUOTA_UNITS_PER_DOLLAR * 10;

/// Quota units charged per query token on the GPT-4 family.
pub const GPT_4_COST_UNITS_PER_TOKEN: i64 = 1;

/// Quota units charged per query token on the GPT-5 family.
pub const GPT_5_COST_UNITS_PER_TOKEN: i64 = 25;

/// A multiplexed asynchronous connection to a Redis server.
#[verifier::external_type_specification]
#[verifier::external_body]
pub struct ExMultiplexedConnection(::redis::aio::MultiplexedConnection);

/// The error of a JSON document that does not parse.
#[verifier::external_type_specification]
#[verifier::external_body]
pub struct ExJsonError(serde_json::Error);

/// A byte-pair encoder of the tokenizer library.
#[verifier::external_type_specification]
#[verifier::external_body]
pub struct ExCoreBpe(tiktoken_rs::CoreBPE);

/// One increment that a limiter asks the counter store for: add `amount`
/// to the counter `key`, and when that creates the counter, let it expire
/// after `window_seconds`.
#[derive(Debug)]
pub struct Increment {
    pub key: String,
    pub window_seconds: i32,
    pub amount: i64,
}

/// The counter that holds the requests of `identifier`.
pub open spec fn request_counter_key(identifier: Seq<char>) -> Seq<char> {
    "rate_limit:"@ + identifier
}

/// The counter that holds the AI quota spent by `identifier`.
pub open spec fn ai_counter_key(identifier: Seq<char>) -> Seq<char> {
    "rate_limit:ai:"@ + identifier
}

/// Rate limiter backed by Redis, using one counter per identifier that
/// expires `DEFAULT_WINDOW_SECONDS` after its first request.
pub struct RedisLimiter {
    connection: ::redis::aio::MultiplexedConnection,
}

impl RedisLimiter {
    /// The connection this limiter talks through.
    pub closed spec fn connection_spec(&self) -> ::redis::aio::MultiplexedConnection {
        self.connection
    }

    /// Creates a limiter that talks to Redis through `connection`.
    pub fn new(connection: ::redis::aio::MultiplexedConnection) -> (limiter: Self)
        ensures
            limiter.connection_spec() == connection,
    {
        RedisLimiter { connection }
    }

    /// The connection this limiter talks through.
    pub fn connection(&self) -> (connection: &::redis::aio::MultiplexedConnection)
        ensures
            *connection == self.connection_spec(),
    {
        &self.connection
    }

    /// The increment a request of `identifier` makes: one more on its
    /// request counter.
    pub fn increment_for(identifier: &str) -> (inc: Increment)
        ensures
            inc.key@ == request_counter_key(identifier@),
            inc.window_seconds == DEFAULT_WINDOW_SECONDS,
            inc.amount == 1,
    {
        let mut key = "rate_limit:".to_owned();
        key.append(identifier);
        Increment { key, window_seconds: DEFAULT_WINDOW_SECONDS, amount: 1 }
    }

    /// Whether a request is allowed once its counter reads `tries`: it is
    /// refused when the count exceeds `RATE_LIMIT_MAX`.
    pub fn admits(tries: i64) -> (allowed: bool)
        ensures
            allowed == (tries <= RATE_LIMIT_MAX),
    {
        !(tries > RATE_LIMIT_MAX as i64)
    }
}

/// Rate limiter backed by Redis that charges AI requests against a quota of
/// `TOTAL_AI_QUOTA_UNITS` per identifier and `AI_WINDOW_SECONDS`.
pub struct RedisAiLimiter {
    connection: ::redis::aio::MultiplexedConnection,
}

impl RedisAiLimiter {
    /// The connection this limiter talks through.
    pub closed spec fn connection_spec(&self) -> ::redis::aio::MultiplexedConnection {
        self.connection
    }

    /// Creates a limiter that talks to Redis through `connection`.
    pub fn new(connection: ::redis::aio::MultiplexedConnection) -> (limiter: Self)
        ensures
            limiter.connection_spec() == connection,
    {
        RedisAiLimiter { connection }
    }

    /// The connection this limiter talks through.
    pub fn connection(&self) -> (connection: &::redis::aio::MultiplexedConnection)
        ensures
            *connection == self.connection_spec(),
    {
        &self.connection
    }

    /// The increment an AI request of `identifier` with `usage` makes, or
    /// `None` when the request costs nothing: such a request is allowed
    /// without touching the store.
    pub fn increment_for(identifier: &str, usage: &AiUsage) -> (inc: Option<Increment>)
        ensures
            usage.charge_units == 0 <==> inc is None,
            inc matches Some(i) ==> {
                &&& i.key@ == ai_counter_key(identifier@)
                &&& i.window_seconds == AI_WINDOW_SECONDS
                &&& i.amount == usage.charge_units
            },
    {
        if usage.charge_units == 0 {
            return None;
        }
        let mut key = "rate_limit:ai:".to_owned();
        key.append(identifier);
        Some(Increment { key, window_seconds: AI_WINDOW_SECONDS, amount: usage.charge_units })
    }

    /// Whether a request is allowed given what its charge did: `None` when
    /// it charged nothing (such a request is allowed), or the total its
    /// quota counter reached, refused when it exceeds `TOTAL_AI_QUOTA_UNITS`.
    pub fn admits(total: Option<i64>) -> (allowed: bool)
        ensures
            allowed == quota_admits(
                match total {
                    Some(t) => Some(t as int),
                    None => None,
                },
            ),
    {
        match total {
            None => true,
            Some(total) => !(total > TOTAL_AI_QUOTA_UNITS),
        }
    }

    /// Periodic maintenance: the counters expire by themselves, so there is
    /// nothing to do.
    pub fn cleanup(&self) {
    }

    /// The number of tracked entries this limiter reports: none, since the
    /// counters live in Redis.
    pub fn len(&self) -> (n: usize)
        ensures
            n == 0,
    {
        0
    }
}

/// Whether an AI request is allowed given the total its quota counter
/// reached, or `None` when it charged nothing.
pub open spec fn quota_admits(total: Option<int>) -> bool {
    match total {
        None => true,
        Some(t) => t <= TOTAL_AI_QUOTA_UNITS,
    }
}

/// What a counter in the store reads at `now` (in seconds): its value while
/// it lives, zero once it has expired or when there is none. A counter is a
/// value and the instant at which it expires.
pub open spec fn counter_value_at(counter: Option<(int, int)>, now: int) -> int {
    match counter {
        Some((value, expires_at)) => if now < expires_at {
            value
        } else {
            0
        },
        None => 0,
    }
}

/// What the counter script does at `now` to `counter`: it adds `amount` to
/// what the counter reads, and when the result equals `amount` (the counter
/// has just been created) lets it expire `window` seconds later. The counter
/// after the script, and the value the script returns.
pub open spec fn counter_script(counter: Option<(int, int)>, now: int, amount: int, window: int) -> (
    Option<(int, int)>,
    int,
) {
    let current = counter_value_at(counter, now) + amount;
    let expires_at = if current == amount {
        now + window
    } else {
        match counter {
            Some((_, e)) => e,
            None => now + window,
        }
    };
    (Some((current, expires_at)), current)
}

/// One request at `now` on a request counter: `RedisLimiter::increment_for`
/// asks for one more with a window of `DEFAULT_WINDOW_SECONDS`, the counter
/// script runs, and `RedisLimiter::admits` judges the value it returns. The
/// counter after it and the verdict.
pub open spec fn request_step(counter: Option<(int, int)>, now: int) -> (Option<(int, int)>, bool) {
    let (next, value) = counter_script(counter, now, 1, DEFAULT_WINDOW_SECONDS as int);
    (next, value <= RATE_LIMIT_MAX)
}

/// The verdicts on successive requests of one identifier at the instants
/// `times`, on a counter that nothing else writes.
pub open spec fn request_run(counter: Option<(int, int)>, times: Seq<int>) -> Seq<bool>
    decreases times.len(),
{
    if times.len() == 0 {
        Seq::empty()
    } else {
        let (next, allowed) = request_step(counter, times[0]);
        seq![allowed] + request_run(next, times.drop_first())
    }
}

/// One AI request at `now` charging `charge` on a quota counter: a free
/// request touches no counter (`RedisAiLimiter::increment_for` gives no
/// increment); a charged one makes the counter script add the charge with a
/// window of `AI_WINDOW_SECONDS`. `RedisAiLimiter::admits` judges the outcome.
/// The counter after it and the verdict.
pub open spec fn ai_step(counter: Option<(int, int)>, now: int, charge: int) -> (
    Option<(int, int)>,
    bool,
) {
    if charge == 0 {
        (counter, quota_admits(None))
    } else {
        let (next, total) = counter_script(counter, now, charge, AI_WINDOW_SECONDS as int);
        (next, quota_admits(Some(total)))
    }
}

/// The quota units admitted over successive AI requests of one identifier at
/// the instants `times` with the given charges, on a quota counter that
/// nothing else writes: the sum of the charges of the allowed requests.
pub open spec fn admitted_units(counter: Option<(int, int)>, times: Seq<int>, charges: Seq<i64>) -> int
    decreases charges.len(),
{
    if charges.len() == 0 || times.len() == 0 {
        0
    } else {
        let (next, allowed) = ai_step(counter, times[0], charges[0] as int);
        (if allowed {
            charges[0] as int
        } else {
            0
        }) + admitted_units(next, times.drop_first(), charges.drop_first())
    }
}

/// The counter has expired by `start`, or does not exist, or lives past
/// `bound`.
pub open spec fn dead_or_lives_past(counter: Option<(int, int)>, start: int, bound: int) -> bool {
    match counter {
        Some((_, e)) => e <= start || bound <= e,
        None => true,
    }
}

/// Instants that never go back and all come before `bound`.
pub open spec fn ordered_before(times: Seq<int>, bound: int) -> bool {
    &&& forall|i: int, j: int| 0 <= i <= j < times.len() ==> times[i] <= times[j]
    &&& forall|i: int| 0 <= i < times.len() ==> #[trigger] times[i] < bound
}

proof fn lemma_ordered_rest(times: Seq<int>, bound: int)
    requires
        times.len() > 0,
        ordered_before(times, bound),
    ensures
        ordered_before(times.drop_first(), bound),
        times.len() > 1 ==> times[0] <= times.drop_first()[0],
{
    let rest = times.drop_first();
    assert forall|i: int| 0 <= i < rest.len() implies #[trigger] rest[i] < bound by {
        assert(rest[i] == times[i + 1]);
    }
    assert forall|i: int, j: int| 0 <= i <= j < rest.len() implies rest[i] <= rest[j] by {
        assert(rest[i] == times[i + 1] && rest[j] == times[j + 1]);
    }
    if times.len() > 1 {
        assert(rest[0] == times[1]);
    }
}

proof fn lemma_request_run(counter: Option<(int, int)>, times: Seq<int>, bound: int, c: int)
    requires
        ordered_before(times, bound),
        times.len() > 0 ==> bound <= times[0] + DEFAULT_WINDOW_SECONDS,
        times.len() > 0 ==> dead_or_lives_past(counter, times[0], bound),
        times.len() > 0 ==> c == counter_value_at(counter, times[0]),
    ensures
        request_run(counter, times).len() == times.len(),
        forall|k: int|
            0 <= k < times.len() ==> #[trigger] request_run(counter, times)[k] == (c + k + 1
                <= RATE_LIMIT_MAX),
    decreases times.len(),
{
    if times.len() > 0 {
        let (next, allowed) = request_step(counter, times[0]);
        let rest = times.drop_first();
        lemma_ordered_rest(times, bound);
        lemma_request_run(next, rest, bound, c + 1);
        let bs = request_run(next, rest);
        assert(request_run(counter, times) == seq![allowed] + bs);
        assert forall|k: int|
            0 <= k < times.len() implies #[trigger] request_run(counter, times)[k] == (c + k + 1
                <= RATE_LIMIT_MAX) by {
            if k > 0 {
                assert(request_run(counter, times)[k] == bs[k - 1]);
            }
        }
    }
}

/// At most `RATE_LIMIT_MAX` requests of one identifier are allowed while its
/// counter lives: when the counter does not exist or has expired at the
/// first of a run of requests at instants that never go back and all come
/// before the window opened by the first one closes, the first
/// `RATE_LIMIT_MAX` requests are allowed and every later one is refused.
pub proof fn lemma_request_counter_admits_max(counter: Option<(int, int)>, times: Seq<int>)
    requires
        times.len() > 0,
        counter_value_at(counter, times[0]) == 0,
        dead_or_lives_past(counter, times[0], times[0] + DEFAULT_WINDOW_SECONDS),
        ordered_before(times, times[0] + DEFAULT_WINDOW_SECONDS),
    ensures
        request_run(counter, times).len() == times.len(),
        forall|k: int|
            0 <= k < times.len() ==> #[trigger] request_run(counter, times)[k] == (k
                < RATE_LIMIT_MAX),
{
    lemma_request_run(counter, times, times[0] + DEFAULT_WINDOW_SECONDS, 0);
}

/// Counts start again once the counter has expired: a request after the
/// expiry creates a counter of one that lives `DEFAULT_WINDOW_SECONDS`, and
/// is allowed.
pub proof fn lemma_request_counter_resets(counter: Option<(int, int)>, now: int)
    requires
        counter matches Some((_, e)) && e <= now,
    ensures
        request_step(counter, now).0 == Some((1int, now + DEFAULT_WINDOW_SECONDS)),
        request_step(counter, now).1,
{
}

proof fn lemma_admitted_units(
    counter: Option<(int, int)>,
    times: Seq<int>,
    charges: Seq<i64>,
    bound: int,
    c: int,
)
    requires
        times.len() == charges.len(),
        ordered_before(times, bound),
        times.len() > 0 ==> bound <= times[0] + AI_WINDOW_SECONDS,
        times.len() > 0 ==> dead_or_lives_past(counter, times[0], bound),
        times.len() > 0 ==> c == counter_value_at(counter, times[0]),
        c >= 0,
        forall|i: int| 0 <= i < charges.len() ==> #[trigger] charges[i] >= 0,
    ensures
        c > TOTAL_AI_QUOTA_UNITS ==> admitted_units(counter, times, charges) == 0,
        c <= TOTAL_AI_QUOTA_UNITS ==> c + admitted_units(counter, times, charges)
            <= TOTAL_AI_QUOTA_UNITS,
    decreases charges.len(),
{
    if charges.len() > 0 {
        let rest = charges.drop_first();
        assert forall|i: int| 0 <= i < rest.len() implies #[trigger] rest[i] >= 0 by {
            assert(rest[i] == charges[i + 1]);
        }
        assert(charges[0] >= 0);
        lemma_ordered_rest(times, bound);
        let (next, _) = ai_step(counter, times[0], charges[0] as int);
        if charges[0] == 0 {
            lemma_admitted_units(next, times.drop_first(), rest, bound, c);
        } else {
            lemma_admitted_units(next, times.drop_first(), rest, bound, c + charges[0]);
        }
    }
}

/// One identifier never gets more than its quota within one AI window: when
/// its quota counter does not exist or has expired at the first of a run of
/// requests with non-negative charges, at instants that never go back and
/// all come before the window opened by the first one closes, the charges of
/// the allowed requests add up to at most `TOTAL_AI_QUOTA_UNITS`.
pub proof fn lemma_quota_never_exceeded(
    counter: Option<(int, int)>,
    times: Seq<int>,
    charges: Seq<i64>,
)
    requires
        times.len() == charges.len(),
        times.len() > 0,
        counter_value_at(counter, times[0]) == 0,
        dead_or_lives_past(counter, times[0], times[0] + AI_WINDOW_SECONDS),
        ordered_before(times, times[0] + AI_WINDOW_SECONDS),
        forall|i: int| 0 <= i < charges.len() ==> #[trigger] charges[i] >= 0,
    ensures
        admitted_units(counter, times, charges) <= TOTAL_AI_QUOTA_UNITS,
{
    lemma_admitted_units(counter, times, charges, times[0] + AI_WINDOW_SECONDS, 0);
}

/// A smaller charge is never refused where a larger one is allowed, a free
/// request is always allowed, and no charge makes the quota counter read
/// less.
pub proof fn lemma_ai_verdict_monotone(
    counter: Option<(int, int)>,
    now: int,
    smaller: int,
    larger: int,
)
    requires
        0 <= smaller <= larger,
    ensures
        ai_step(counter, now, larger).1 ==> ai_step(counter, now, smaller).1,
        ai_step(counter, now, 0).1,
        counter_value_at(ai_step(counter, now, smaller).0, now) >= counter_value_at(counter, now),
{
}

/// What an AI request costs: the model it names, the number of tokens in
/// its query, and the quota units charged for them.
#[derive(Debug)]
pub struct AiUsage {
    pub model: String,
    pub query_tokens: i64,
    pub charge_units: i64,
}

/// Why an AI request cannot be charged.
#[derive(Debug)]
pub enum AiRequestError {
    /// The request body is not a JSON object with string fields `model` and
    /// `query`.
    InvalidJson(serde_json::Error),
    /// The model belongs to no supported family.
    UnsupportedModel(String),
    /// The charge does not fit in an `i64`.
    ChargeOverflow,
    /// The tokenizer could not be loaded, or could not split the query.
    Tokenizer(String),
}

/// The tokenizers the supported model families use.
#[derive(Clone, Copy, Debug, PartialEq, Eq)]
pub enum TokenizerKind {
    Cl100kBase,
    O200kBase,
}

/// The supported model families.
#[derive(Clone, Copy, Debug, PartialEq, Eq)]
pub enum ModelFamily {
    Gpt4,
    Gpt5,
}

/// `gpt-` followed by the version character `version`.
pub open spec fn family_base(version: char) -> Seq<char> {
    seq!['g', 'p', 't', '-', version]
}

/// `model` is the base name of a family or a release of it: the base name
/// itself, or the base name, a dot, and anything after.
pub open spec fn names_release_of(model: Seq<char>, base: Seq<char>) -> bool {
    model == base || base.push('.').is_prefix_of(model)
}

/// The family a model name belongs to, if any.
pub open spec fn family_of(model: Seq<char>) -> Option<ModelFamily> {
    if names_release_of(model, family_base('4')) {
        Some(ModelFamily::Gpt4)
    } else if names_release_of(model, family_base('5')) {
        Some(ModelFamily::Gpt5)
    } else {
        None
    }
}

/// Whether `model` is `gpt-` and `version`, alone or followed by a dot and
/// anything.
fn is_release_of(model: &str, version: char) -> (b: bool)
    ensures
        b == names_release_of(model@, family_base(version)),
{
    let base = Ghost(family_base(version));
    let n = model.unicode_len();
    if n < 5 {
        return false;
    }
    let base_matches = model.get_char(0) == 'g' && model.get_char(1) == 'p' && model.get_char(2)
        == 't' && model.get_char(3) == '-' && model.get_char(4) == version;
    if !base_matches {
        proof {
            assert(model@ != base@ && !base@.push('.').is_prefix_of(model@)) by {
                if model@ == base@ {
                    assert(model@[0] == base@[0] && model@[1] == base@[1] && model@[2] == base@[2]
                        && model@[3] == base@[3] && model@[4] == base@[4]);
                }
                if base@.push('.').is_prefix_of(model@) {
                    assert(model@[0] == base@.push('.')[0] && model@[1] == base@.push('.')[1]
                        && model@[2] == base@.push('.')[2] && model@[3] == base@.push('.')[3]
                        && model@[4] == base@.push('.')[4]);
                }
            }
        }
        return false;
    }
    if n == 5 {
        assert(model@ =~= base@);
        return true;
    }
    let dotted = model.get_char(5) == '.';
    proof {
        assert(model@ != base@);
        if dotted {
            assert(base@.push('.') =~= model@.subrange(0, 6));
        } else {
            assert(base@.push('.')[5] != model@[5]);
        }
    }
    dotted
}

/// Which names belong to which family: `gpt-4`, and `gpt-4.` followed by
/// anything, are GPT-4 models; `gpt-5`, and `gpt-5.` followed by anything,
/// are GPT-5 models; no other name belongs to a family.
pub proof fn lemma_family_names(suffix: Seq<char>, model: Seq<char>)
    ensures
        family_of(seq!['g', 'p', 't', '-', '4']) == Some(ModelFamily::Gpt4),
        family_of(seq!['g', 'p', 't', '-', '5']) == Some(ModelFamily::Gpt5),
        family_of(seq!['g', 'p', 't', '-', '4', '.'] + suffix) == Some(ModelFamily::Gpt4),
        family_of(seq!['g', 'p', 't', '-', '5', '.'] + suffix) == Some(ModelFamily::Gpt5),
        family_of(model) == Some(ModelFamily::Gpt4) ==> model == seq!['g', 'p', 't', '-', '4']
            || model == seq!['g', 'p', 't', '-', '4', '.'] + model.skip(6),
        family_of(model) == Some(ModelFamily::Gpt5) ==> model == seq!['g', 'p', 't', '-', '5']
            || model == seq!['g', 'p', 't', '-', '5', '.'] + model.skip(6),
{
    let b4 = seq!['g', 'p', 't', '-', '4'];
    let b5 = seq!['g', 'p', 't', '-', '5'];
    assert(family_base('4') =~= b4);
    assert(family_base('5') =~= b5);
    let d4 = seq!['g', 'p', 't', '-', '4', '.'] + suffix;
    let d5 = seq!['g', 'p', 't', '-', '5', '.'] + suffix;
    assert(b4.push('.') =~= d4.subrange(0, 6));
    assert(b5.push('.') =~= d5.subrange(0, 6));
    assert(d5 != b4);
    assert(d5[4] != b4.push('.')[4]);
    assert(!b4.push('.').is_prefix_of(d5));
    assert(b5 != b4);
    assert(b5[4] != b4[4]);
    if family_of(model) == Some(ModelFamily::Gpt4) && model != b4 {
        assert(b4.push('.').is_prefix_of(model));
        let pre = seq!['g', 'p', 't', '-', '4', '.'];
        assert(pre =~= b4.push('.'));
        assert(model.subrange(0, 6) =~= pre);
        assert forall|i: int| 0 <= i < model.len() implies #[trigger] model[i] == (pre
            + model.skip(6))[i] by {
            if i < 6 {
                assert(model[i] == model.subrange(0, 6)[i]);
            }
        }
        assert(model =~= pre + model.skip(6));
    }
    if family_of(model) == Some(ModelFamily::Gpt5) && model != b5 {
        assert(b5.push('.').is_prefix_of(model));
        let pre = seq!['g', 'p', 't', '-', '5', '.'];
        assert(pre =~= b5.push('.'));
        assert(model.subrange(0, 6) =~= pre);
        assert forall|i: int| 0 <= i < model.len() implies #[trigger] model[i] == (pre
            + model.skip(6))[i] by {
            if i < 6 {
                assert(model[i] == model.subrange(0, 6)[i]);
            }
        }
        assert(model =~= pre + model.skip(6));
    }
}

/// Each identifier has its own request counter, and its own AI quota
/// counter: the key is the fixed prefix followed by the whole identifier, so
/// distinct identifiers never share a counter.
pub proof fn lemma_counter_keys_distinct(a: Seq<char>, b: Seq<char>)
    ensures
        request_counter_key(a).skip("rate_limit:"@.len() as int) == a,
        ai_counter_key(a).skip("rate_limit:ai:"@.len() as int) == a,
        a != b ==> request_counter_key(a) != request_counter_key(b),
        a != b ==> ai_counter_key(a) != ai_counter_key(b),
{
    let p = "rate_limit:"@;
    let q = "rate_limit:ai:"@;
    assert(request_counter_key(a).skip(p.len() as int) =~= a);
    assert(request_counter_key(b).skip(p.len() as int) =~= b);
    assert(ai_counter_key(a).skip(q.len() as int) =~= a);
    assert(ai_counter_key(b).skip(q.len() as int) =~= b);
}

impl ModelFamily {
    /// The family `model` names: `gpt-4` and its dotted releases such as
    /// `gpt-4.1`, or `gpt-5` and its dotted releases such as `gpt-5.4`.
    pub fn parse(model: &str) -> (family: Option<Self>)
        ensures
            family == family_of(model@),
    {
        if is_release_of(model, '4') {
            return Some(ModelFamily::Gpt4);
        }
        if is_release_of(model, '5') {
            return Some(ModelFamily::Gpt5);
        }
        None
    }

    /// The tokenizer of the family.
    pub open spec fn tokenizer_kind(self) -> TokenizerKind {
        match self {
            ModelFamily::Gpt4 => TokenizerKind::Cl100kBase,
            ModelFamily::Gpt5 => TokenizerKind::O200kBase,
        }
    }

    /// The quota units charged per query token.
    pub open spec fn cost_per_token(self) -> i64 {
        match self {
            ModelFamily::Gpt4 => GPT_4_COST_UNITS_PER_TOKEN,
            ModelFamily::Gpt5 => GPT_5_COST_UNITS_PER_TOKEN,
        }
    }

    /// The tokenizer of the family: `cl100k_base` for GPT-4, `o200k_base`
    /// for GPT-5.
    pub fn tokenizer(self) -> (kind: TokenizerKind)
        ensures
            kind == self.tokenizer_kind(),
    {
        match self {
            ModelFamily::Gpt4 => TokenizerKind::Cl100kBase,
            ModelFamily::Gpt5 => TokenizerKind::O200kBase,
        }
    }

    /// The quota units charged per query token.
    pub fn cost_units_per_token(self) -> (units: i64)
        ensures
            units == self.cost_per_token(),
    {
        match self {
            ModelFamily::Gpt4 => GPT_4_COST_UNITS_PER_TOKEN,
            ModelFamily::Gpt5 => GPT_5_COST_UNITS_PER_TOKEN,
        }
    }
}

/// A loaded encoder, together with the tokenizer it encodes for.
struct Bpe {
    kind: TokenizerKind,
    core: &'static tiktoken_rs::CoreBPE,
}

impl View for Bpe {
    type V = TokenizerKind;

    closed spec fn view(&self) -> TokenizerKind {
        self.kind
    }
}

/// The number of tokens the encoder of `tokenizer` splits `text` into,
/// special tokens taken as ordinary text, or `None` where the encoder's
/// pattern engine gives up on `text`.
pub uninterp spec fn token_count(tokenizer: TokenizerKind, text: Seq<char>) -> Option<usize>;

/// Loads the encoder of `kind` with `tiktoken_rs::bpe_for_tokenizer`. In the
/// version used that function always returns `Ok`, with a shared encoder
/// built once from the vocabulary the crate ships; the encoder is tagged
/// with the tokenizer it was loaded for.
#[verifier::external_body]
fn load_bpe(kind: TokenizerKind) -> (loaded: Result<Bpe, String>)
    ensures
        loaded is Ok,
        loaded is Ok ==> loaded->Ok_0@ == kind,
{
    let tokenizer = match kind {
        TokenizerKind::Cl100kBase => tiktoken_rs::tokenizer::Tokenizer::Cl100kBase,
        TokenizerKind::O200kBase => tiktoken_rs::tokenizer::Tokenizer::O200kBase,
    };
    match tiktoken_rs::bpe_for_tokenizer(tokenizer) {
        Ok(core) => Ok(Bpe { kind, core }),
        Err(error) => Err(error.to_string()),
    }
}

/// Counts the tokens of `text` with `CoreBPE::count`, allowing no special
/// token: the text is split with the tokenizer's pattern and each piece is
/// byte-pair encoded, special tokens being taken as ordinary text. Where the
/// pattern engine gives up (its backtracking limit), the call returns an
/// error instead of a count. Both the count and whether it fails are named,
/// not stated: they are a function of the tokenizer and the text. Empty text
/// has no token, since every alternative of the split pattern needs at least
/// one character. The error message is not stated.
#[verifier::external_body]
fn count_tokens(bpe: &Bpe, text: &str) -> (counted: Result<usize, String>)
    ensures
        counted is Ok <==> token_count(bpe@, text@) is Some,
        counted is Ok ==> token_count(bpe@, text@) == Some(counted->Ok_0),
        text@.len() == 0 ==> (counted is Ok && counted->Ok_0 == 0),
{
    match bpe.core.count(text, &std::collections::HashSet::new()) {
        Ok(n) => Ok(n),
        Err(error) => Err(error.to_string()),
    }
}

/// The number of tokens in `query` under the tokenizer of `family`.
pub fn count_query_tokens(query: &str, family: ModelFamily) -> (counted: Result<
    usize,
    AiRequestError,
>)
    ensures
        token_count(family.tokenizer_kind(), query@) matches Some(n) ==> (counted matches Ok(c)
            && c == n),
        token_count(family.tokenizer_kind(), query@) is None ==> (counted matches Err(
            AiRequestError::Tokenizer(_),
        )),
{
    let bpe = match load_bpe(family.tokenizer()) {
        Ok(bpe) => bpe,
        Err(error) => return Err(AiRequestError::Tokenizer(error)),
    };
    match count_tokens(&bpe, query) {
        Ok(n) => Ok(n),
        Err(error) => Err(AiRequestError::Tokenizer(error)),
    }
}

/// Charges a query of `query_tokens` tokens on `family`: the usage, or
/// `ChargeOverflow` when the token count or the charge does not fit in an
/// `i64`.
pub fn charge_for(model: String, family: ModelFamily, query_tokens: usize) -> (usage: Result<
    AiUsage,
    AiRequestError,
>)
    ensures
        query_tokens * family.cost_per_token() <= i64::MAX ==> (usage matches Ok(u)
            && u.model@ == model@ && u.query_tokens == query_tokens && u.charge_units
            == query_tokens * family.cost_per_token()),
        query_tokens * family.cost_per_token() > i64::MAX ==> (usage matches Err(
            AiRequestError::ChargeOverflow,
        )),
{
    if query_tokens as u128 > i64::MAX as u128 {
        proof {
            let cost = family.cost_per_token() as int;
            assert(query_tokens * cost > i64::MAX) by (nonlinear_arith)
                requires
                    query_tokens > i64::MAX,
                    cost >= 1,
            ;
        }
        return Err(AiRequestError::ChargeOverflow);
    }
    let query_tokens = query_tokens as i64;
    match query_tokens.checked_mul(family.cost_units_per_token()) {
        Some(charge_units) => Ok(AiUsage { model, query_tokens, charge_units }),
        None => Err(AiRequestError::ChargeOverflow),
    }
}

/// The usage of an AI request that names `model` and asks `query`: its
/// model family decides the tokenizer and the price per token.
pub fn usage_for_request(model: String, query: &str) -> (usage: Result<AiUsage, AiRequestError>)
    ensures
        family_of(model@) is None ==> (usage matches Err(AiRequestError::UnsupportedModel(m))
            && m@ == model@),
        family_of(model@) matches Some(f) ==> match token_count(f.tokenizer_kind(), query@) {
            None => usage matches Err(AiRequestError::Tokenizer(_)),
            Some(n) => {
                &&& n * f.cost_per_token() <= i64::MAX ==> (usage matches Ok(u) && u.model@
                    == model@ && u.query_tokens == n && u.charge_units == n * f.cost_per_token())
                &&& n * f.cost_per_token() > i64::MAX ==> (usage matches Err(
                    AiRequestError::ChargeOverflow,
                ))
            },
        },
{
    let family = match ModelFamily::parse(model.as_str()) {
        Some(family) => family,
        None => return Err(AiRequestError::UnsupportedModel(model)),
    };
    let query_tokens = match count_query_tokens(query, family) {
        Ok(n) => n,
        Err(error) => return Err(error),
    };
    charge_for(model, family, query_tokens)
}

} // verus!
