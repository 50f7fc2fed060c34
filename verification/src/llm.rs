//! Asking a language model.
use vstd::prelude::*;
use crate::number;
use crate::text;
use crate::unicode;
use vstd::arithmetic::power2;

verus! {

// ── Settings ───────────────────────────────────────────────────────────────────

/// How long a pause grows at most: two to this power in seconds.
pub const MAX_BACKOFF_SHIFT: u32 = 6;

/// How many seconds pass between two reports of progress.
pub const DEFAULT_PROGRESS_INTERVAL_SECS: u64 = 10;

/// How many tokens a short reply may have.
pub const DEFAULT_MAX_TOKENS: u32 = 4096;

/// The positive number that a setting gives, or a default.
pub open spec fn setting(value: Option<Seq<char>>, default: nat, max: nat) -> nat {
    match value {
        Some(v) => match number::parsed_within(text::trimmed(v), max) {
            Some(n) => if n > 0 {
                n
            } else {
                default
            },
            None => default,
        },
        None => default,
    }
}

/// The positive number that a setting gives, or the default.
pub fn env_u64(value: Option<&str>, default: u64) -> (r: u64)
    ensures
        r == setting(text::opt_str(value), default as nat, u64::MAX as nat),
{
    match value {
        Some(v) => match number::parse_u64(&text::trim(v)) {
            Some(n) => if n > 0 {
                n
            } else {
                default
            },
            None => default,
        },
        None => default,
    }
}

/// The positive number that a setting gives, or the default.
pub fn env_u32(value: Option<&str>, default: u32) -> (r: u32)
    ensures
        r == setting(text::opt_str(value), default as nat, u32::MAX as nat),
{
    match value {
        Some(v) => match number::parse_u32(&text::trim(v)) {
            Some(n) => if n > 0 {
                n
            } else {
                default
            },
            None => default,
        },
        None => default,
    }
}

/// Whether an error says that the server does not know the newer name of the token limit.
pub open spec fn rejects_limit(err: Seq<char>) -> bool {
    let e = unicode::ascii_lowercase(err);
    &&& text::holds(e, "max_completion_tokens"@) || text::holds(e, "max completion tokens"@)
    &&& text::holds(e, "unknown"@) || text::holds(e, "invalid"@) || text::holds(e, "unsupported"@)
}

/// Whether an error says that the server does not know the newer name of the token limit.
pub fn should_fallback_to_max_tokens(err: &str) -> (r: bool)
    ensures
        r == rejects_limit(err@),
{
    let e = unicode::to_ascii_lowercase(err);
    (text::contains(&e, "max_completion_tokens") || text::contains(&e, "max completion tokens"))
        && (text::contains(&e, "unknown") || text::contains(&e, "invalid") || text::contains(
        &e,
        "unsupported",
    ))
}

// ── Waiting ────────────────────────────────────────────────────────────────────

/// How many seconds to wait for a reply before the next report of progress; `None` where the
/// time is up.
pub open spec fn wait_step(elapsed: nat, timeout: nat, interval: nat) -> Option<nat> {
    if elapsed >= timeout {
        None
    } else if interval == 0 {
        Some(1)
    } else if timeout - elapsed <= interval {
        Some((timeout - elapsed) as nat)
    } else {
        Some(interval)
    }
}

/// How many seconds to wait for a reply before the next report of progress.
pub fn next_wait(elapsed: u64, timeout: u64, interval: u64) -> (r: Option<u64>)
    ensures
        match r {
            Some(n) => wait_step(elapsed as nat, timeout as nat, interval as nat) == Some(n as nat),
            None => wait_step(elapsed as nat, timeout as nat, interval as nat) is None,
        },
{
    if elapsed >= timeout {
        return None;
    }
    if interval == 0 {
        return Some(1);
    }
    let remaining: u64 = timeout - elapsed;
    if remaining <= interval {
        Some(remaining)
    } else {
        Some(interval)
    }
}

/// A wait is at least one second long and does not go past the end of the time.
pub proof fn waits_end_in_time(elapsed: nat, timeout: nat, interval: nat)
    ensures
        wait_step(elapsed, timeout, interval) matches Some(n) ==> 1 <= n && elapsed + n <= timeout,
        wait_step(elapsed, timeout, interval) is None == (elapsed >= timeout),
{
}

/// The message where the time is up.
pub fn timeout_error(timeout: u64, provider: &str, model: &str, attempt: u32, max_retries: u32) -> (r:
    String)
    requires
        attempt < u32::MAX,
    ensures
        r@ == "LLM 請求逾時（"@ + number::decimal(timeout as nat) + "s，provider="@ + provider@
            + "，model="@ + model@ + "，attempt="@ + number::decimal((attempt + 1) as nat) + "/"@
            + number::decimal(max_retries as nat) + ")"@,
{
    let mut r = text::concat6(
        "LLM 請求逾時（",
        &number::u64_text(timeout),
        "s，provider=",
        provider,
        "，model=",
        model,
    );
    r.append("，attempt=");
    r.append(&number::u64_text((attempt + 1) as u64));
    r.append("/");
    r.append(&number::u64_text(max_retries as u64));
    r.append(")");
    r
}

/// The message where the time is up for a request with the older name of the limit.
pub fn legacy_timeout_error(timeout: u64, provider: &str, model: &str) -> (r: String)
    ensures
        r@ == "LLM 請求逾時（legacy max_tokens，"@ + number::decimal(timeout as nat)
            + "s，provider="@ + provider@ + "，model="@ + model@ + "）"@,
{
    let mut r = text::concat6(
        "LLM 請求逾時（legacy max_tokens，",
        &number::u64_text(timeout),
        "s，provider=",
        provider,
        "，model=",
        model,
    );
    r.append("）");
    r
}

// ── Replies ────────────────────────────────────────────────────────────────────

/// The tokens that were used.
#[derive(Debug, Clone, Copy, PartialEq, Eq, Structural)]
pub struct Usage {
    pub prompt: u64,
    pub completion: u64,
}

impl Usage {
    /// Nothing was used yet.
    pub fn new() -> (r: Usage)
        ensures
            r == (Usage { prompt: 0, completion: 0 }),
    {
        Usage { prompt: 0, completion: 0 }
    }

    /// Counts the tokens of a reply, modulo two to the power of 64.
    pub fn count(&mut self, prompt: u32, completion: u32)
        ensures
            final(self).prompt == (old(self).prompt + prompt) % 0x1_0000_0000_0000_0000,
            final(self).completion == (old(self).completion + completion)
                % 0x1_0000_0000_0000_0000,
    {
        self.prompt = self.prompt.wrapping_add(prompt as u64);
        self.completion = self.completion.wrapping_add(completion as u64);
    }
}

/// What a reply holds: its first choice, if there is one, with the text in it, if there is any.
/// `reason` is why the reply ended, as it is told in messages.
pub struct Reply {
    pub has_choice: bool,
    pub content: Option<String>,
    pub reason: String,
}

/// The text of a reply, where it has one that is not blank.
pub open spec fn reply_text(r: Reply) -> Option<Seq<char>> {
    match r.content {
        Some(t) if r.has_choice && text::trimmed(t@).len() > 0 => Some(t@),
        _ => None,
    }
}

/// Why a reply has no text.
pub open spec fn reply_error(r: Reply) -> Seq<char> {
    if !r.has_choice {
        "API 回傳 0 個 choices"@
    } else {
        "LLM 回傳空內容（finish_reason="@ + r.reason@ + "）"@
    }
}

/// Why a reply to a request with the older name of the limit has no text.
pub open spec fn legacy_reply_error(r: Reply) -> Seq<char> {
    if !r.has_choice {
        "API 回傳 0 個 choices"@
    } else {
        "LLM 回傳空內容（legacy max_tokens）"@
    }
}

/// The text of a reply, or why it has none.
pub fn read_reply(reply: Reply) -> (r: Result<String, String>)
    ensures
        r is Ok == reply_text(reply) is Some,
        r matches Ok(t) ==> reply_text(reply) == Some(t@),
        r matches Err(e) ==> e@ == reply_error(reply),
{
    if !reply.has_choice {
        return Err("API 回傳 0 個 choices".to_owned());
    }
    match reply.content {
        Some(t) => if text::is_empty(&text::trim(&t)) {
            Err(text::concat3("LLM 回傳空內容（finish_reason=", &reply.reason, "）"))
        } else {
            Ok(t)
        },
        None => Err(text::concat3("LLM 回傳空內容（finish_reason=", &reply.reason, "）")),
    }
}

/// The text of a reply to a request with the older name of the limit, or why it has none.
pub fn read_legacy_reply(reply: Reply) -> (r: Result<String, String>)
    ensures
        r is Ok == reply_text(reply) is Some,
        r matches Ok(t) ==> reply_text(reply) == Some(t@),
        r matches Err(e) ==> e@ == legacy_reply_error(reply),
{
    if !reply.has_choice {
        return Err("API 回傳 0 個 choices".to_owned());
    }
    match reply.content {
        Some(t) => if text::is_empty(&text::trim(&t)) {
            Err("LLM 回傳空內容（legacy max_tokens）".to_owned())
        } else {
            Ok(t)
        },
        None => Err("LLM 回傳空內容（legacy max_tokens）".to_owned()),
    }
}

// ── Retrying ───────────────────────────────────────────────────────────────────

/// The least of two numbers.
pub open spec fn least(a: nat, b: nat) -> nat {
    if a <= b {
        a
    } else {
        b
    }
}

/// How many seconds to wait before a request, counted from zero: none before the first, then
/// one, and twice as long each time up to 64.
pub open spec fn backoff(attempt: nat) -> nat {
    if attempt == 0 {
        0
    } else {
        power2::pow2(least((attempt - 1) as nat, MAX_BACKOFF_SHIFT as nat))
    }
}

/// How many seconds to wait before a request.
pub fn wait_before(attempt: u32) -> (r: u64)
    ensures
        r == backoff(attempt as nat),
        r <= 64,
{
    proof {
        power2::lemma2_to64();
    }
    if attempt == 0 {
        0
    } else if attempt == 1 {
        1
    } else if attempt == 2 {
        2
    } else if attempt == 3 {
        4
    } else if attempt == 4 {
        8
    } else if attempt == 5 {
        16
    } else if attempt == 6 {
        32
    } else {
        64
    }
}

/// What a request came to.
pub enum CallOutcome {
    /// It could not be built.
    NotBuilt(String),
    /// It failed, or the time was up.
    Failed(String),
    /// There was a reply.
    Replied(Reply),
}

/// What to do next.
pub enum LlmStep {
    /// Make the request after some seconds.
    Call { wait_secs: u64 },
    /// Make the request with the older name of the limit.
    CallLegacy,
    /// Give back the reply.
    Done(String),
    /// Give up.
    Fail(String),
}

/// What to do next, by its texts.
pub enum NextStep {
    Call(nat),
    CallLegacy,
    Done(Seq<char>),
    Fail(Seq<char>),
}

impl View for LlmStep {
    type V = NextStep;

    open spec fn view(&self) -> NextStep {
        match self {
            LlmStep::Call { wait_secs } => NextStep::Call(*wait_secs as nat),
            LlmStep::CallLegacy => NextStep::CallLegacy,
            LlmStep::Done(t) => NextStep::Done(t@),
            LlmStep::Fail(e) => NextStep::Fail(e@),
        }
    }
}

/// How far a question to a language model has come: the number of the request that was made
/// last, counted from zero.
#[derive(Debug, Clone, Copy, PartialEq, Eq, Structural)]
pub struct Asking {
    pub attempt: u32,
    pub max_retries: u32,
}

/// What follows a request that failed: the next one after a pause, or the error of the last.
pub open spec fn after_failure(a: Asking, err: Seq<char>) -> (Asking, NextStep) {
    if a.attempt + 1 < a.max_retries {
        (
            Asking { attempt: (a.attempt + 1) as u32, ..a },
            NextStep::Call(backoff((a.attempt + 1) as nat)),
        )
    } else {
        (a, NextStep::Fail(err))
    }
}

/// What follows a request: a reply with text ends the asking, one that could not be built fails
/// it, and a server that does not know the newer name of the limit is asked with the older one.
pub open spec fn after_call(a: Asking, custom: bool, outcome: CallOutcome) -> (Asking, NextStep) {
    match outcome {
        CallOutcome::NotBuilt(e) => (a, NextStep::Fail(e@)),
        CallOutcome::Failed(e) => if custom && rejects_limit(e@) {
            (a, NextStep::CallLegacy)
        } else {
            after_failure(a, e@)
        },
        CallOutcome::Replied(r) => match reply_text(r) {
            Some(t) => (a, NextStep::Done(t)),
            None => after_failure(a, reply_error(r)),
        },
    }
}

/// What follows a request with the older name of the limit: a reply with text ends the asking, and
/// all else, a request that could not be built too, counts as a failure.
pub open spec fn after_legacy(a: Asking, outcome: CallOutcome) -> (Asking, NextStep) {
    match outcome {
        CallOutcome::NotBuilt(e) => after_failure(a, e@),
        CallOutcome::Failed(e) => after_failure(a, e@),
        CallOutcome::Replied(r) => match reply_text(r) {
            Some(t) => (a, NextStep::Done(t)),
            None => after_failure(a, legacy_reply_error(r)),
        },
    }
}

impl Asking {
    /// Begins to ask: at least one request is made.
    pub fn start(max_retries: u32) -> (r: (Asking, LlmStep))
        ensures
            r.0.attempt == 0,
            r.0.max_retries == (if max_retries == 0 {
                1
            } else {
                max_retries
            }),
            r.1@ == NextStep::Call(0),
    {
        let n: u32 = if max_retries == 0 {
            1
        } else {
            max_retries
        };
        (Asking { attempt: 0, max_retries: n }, LlmStep::Call { wait_secs: 0 })
    }

    /// Takes a failure.
    fn failed(&mut self, err: String) -> (r: LlmStep)
        ensures
            (*final(self), r@) == after_failure(*old(self), err@),
    {
        if self.attempt < self.max_retries && self.attempt + 1 < self.max_retries {
            self.attempt = self.attempt + 1;
            LlmStep::Call { wait_secs: wait_before(self.attempt) }
        } else {
            LlmStep::Fail(err)
        }
    }

    /// Takes what a request came to.
    pub fn on_call(&mut self, custom: bool, outcome: CallOutcome) -> (r: LlmStep)
        ensures
            (*final(self), r@) == after_call(*old(self), custom, outcome),
    {
        match outcome {
            CallOutcome::NotBuilt(e) => LlmStep::Fail(e),
            CallOutcome::Failed(e) => if custom && should_fallback_to_max_tokens(&e) {
                LlmStep::CallLegacy
            } else {
                self.failed(e)
            },
            CallOutcome::Replied(reply) => match read_reply(reply) {
                Ok(t) => LlmStep::Done(t),
                Err(e) => self.failed(e),
            },
        }
    }

    /// Takes what a request with the older name of the limit came to.
    pub fn on_legacy(&mut self, outcome: CallOutcome) -> (r: LlmStep)
        ensures
            (*final(self), r@) == after_legacy(*old(self), outcome),
    {
        match outcome {
            CallOutcome::NotBuilt(e) => self.failed(e),
            CallOutcome::Failed(e) => self.failed(e),
            CallOutcome::Replied(reply) => match read_legacy_reply(reply) {
                Ok(t) => LlmStep::Done(t),
                Err(e) => self.failed(e),
            },
        }
    }
}

/// No request follows the last one, and each pause is at most 64 seconds.
pub proof fn asking_ends(a: Asking, custom: bool, outcome: CallOutcome)
    requires
        a.attempt < a.max_retries,
    ensures
        after_call(a, custom, outcome).0.attempt < a.max_retries,
        after_call(a, custom, outcome).0.max_retries == a.max_retries,
        after_call(a, custom, outcome).1 matches NextStep::Call(secs) ==> after_call(
            a,
            custom,
            outcome,
        ).0.attempt == a.attempt + 1 && 1 <= secs <= 64,
{
    let k = least(a.attempt as nat, MAX_BACKOFF_SHIFT as nat);
    power2::lemma2_to64();
    assert(1 <= power2::pow2(k) <= 64) by {
        assert(k == 0 || k == 1 || k == 2 || k == 3 || k == 4 || k == 5 || k == 6);
    }
}

/// Requests with the older name of the limit end in the same way.
pub proof fn legacy_asking_ends(a: Asking, outcome: CallOutcome)
    requires
        a.attempt < a.max_retries,
    ensures
        after_legacy(a, outcome).0.attempt < a.max_retries,
        after_legacy(a, outcome).1 is Call ==> after_legacy(a, outcome).0.attempt == a.attempt + 1,
        after_legacy(a, outcome).1 !is CallLegacy,
{
}

/// An answer that is given back is never blank, with either name of the limit.
pub proof fn answers_are_not_blank(a: Asking, custom: bool, outcome: CallOutcome)
    ensures
        after_call(a, custom, outcome).1 matches NextStep::Done(t) ==> text::trimmed(t).len() > 0,
        after_legacy(a, outcome).1 matches NextStep::Done(t) ==> text::trimmed(t).len() > 0,
{
}

// ── Prices ─────────────────────────────────────────────────────────────────────

/// What a million tokens cost, in cents: those of a question and those of a reply.
pub open spec fn price_cents(model: Seq<char>) -> (u64, u64) {
    if text::holds(model, "gpt-4o-mini"@) {
        (15, 60)
    } else if text::holds(model, "gpt-4o"@) {
        (250, 1000)
    } else if text::holds(model, "gpt-4-turbo"@) {
        (1000, 3000)
    } else if text::holds(model, "o1-mini"@) {
        (300, 1200)
    } else if text::holds(model, "o1"@) || text::holds(model, "gpt-5"@) {
        (1500, 6000)
    } else {
        (250, 1000)
    }
}

/// What a million tokens cost, in cents.
pub fn model_prices(model: &str) -> (r: (u64, u64))
    ensures
        r == price_cents(model@),
{
    if text::contains(model, "gpt-4o-mini") {
        (15, 60)
    } else if text::contains(model, "gpt-4o") {
        (250, 1000)
    } else if text::contains(model, "gpt-4-turbo") {
        (1000, 3000)
    } else if text::contains(model, "o1-mini") {
        (300, 1200)
    } else if text::contains(model, "o1") || text::contains(model, "gpt-5") {
        (1500, 6000)
    } else {
        (250, 1000)
    }
}

// ── Laws ─────────────────────────────────────────────────────────────────────

/// A reply with text ends the asking with that text, whatever provider it came from and whichever
/// name of the limit was used.
pub proof fn replies_are_given_back(a: Asking, custom: bool, t: String, reason: String)
    requires
        text::trimmed(t@).len() > 0,
    ensures
        ({
            let r = CallOutcome::Replied(Reply { has_choice: true, content: Some(t), reason });
            &&& after_call(a, custom, r).1 == NextStep::Done(t@)
            &&& after_legacy(a, r).1 == NextStep::Done(t@)
        }),
{
}

/// A failure is followed by another request as long as some are left, and by its own error after
/// the last; only a custom server that does not know the newer name of the limit is asked with the
/// older one, and a request that cannot be built is not made again.
pub proof fn failures_are_retried(a: Asking, custom: bool, e: String)
    requires
        a.attempt < a.max_retries,
    ensures
        !(custom && rejects_limit(e@)) && a.attempt + 1 < a.max_retries ==> after_call(
            a,
            custom,
            CallOutcome::Failed(e),
        ).1 is Call && after_call(a, custom, CallOutcome::Failed(e)).0.attempt == a.attempt + 1,
        !(custom && rejects_limit(e@)) && a.attempt + 1 == a.max_retries ==> after_call(
            a,
            custom,
            CallOutcome::Failed(e),
        ).1 == NextStep::Fail(e@),
        custom && rejects_limit(e@) ==> after_call(a, custom, CallOutcome::Failed(e)) == (
            a,
            NextStep::CallLegacy,
        ),
        after_call(a, custom, CallOutcome::NotBuilt(e)).1 == NextStep::Fail(e@),
        after_call(a, custom, CallOutcome::Failed(e)).1 is CallLegacy ==> custom,
        a.attempt + 1 == a.max_retries ==> after_legacy(a, CallOutcome::Failed(e)).1
            == NextStep::Fail(e@),
{
}

/// The pause before a request doubles with each, from one second up to 64.
pub proof fn pauses_double(attempt: nat)
    ensures
        backoff(0) == 0,
        backoff(1) == 1,
        1 <= attempt < 7 ==> backoff(attempt + 1) == 2 * backoff(attempt),
        attempt >= 7 ==> backoff(attempt) == 64,
{
    power2::lemma2_to64();
    if 1 <= attempt < 7 {
        assert(attempt == 1 || attempt == 2 || attempt == 3 || attempt == 4 || attempt == 5
            || attempt == 6);
    }
}

/// An error speaks of the limit only where it names it and says that it is not known, in upper or
/// lower case.
pub proof fn limits_are_rejected_by_name(err: Seq<char>)
    ensures
        rejects_limit(err) ==> text::holds(unicode::ascii_lowercase(err), "max_completion_tokens"@)
            || text::holds(unicode::ascii_lowercase(err), "max completion tokens"@),
        text::holds(unicode::ascii_lowercase(err), "max_completion_tokens"@) && text::holds(
            unicode::ascii_lowercase(err),
            "unsupported"@,
        ) ==> rejects_limit(err),
        text::holds(unicode::ascii_lowercase(err), "max_completion_tokens"@) && text::holds(
            unicode::ascii_lowercase(err),
            "unknown"@,
        ) ==> rejects_limit(err),
        text::holds(unicode::ascii_lowercase(err), "max completion tokens"@) && text::holds(
            unicode::ascii_lowercase(err),
            "invalid"@,
        ) ==> rejects_limit(err),
{
}

/// Replies cost more than questions for every model, and a small model costs less than its large
/// one.
pub proof fn replies_cost_more(model: Seq<char>)
    ensures
        price_cents(model).0 < price_cents(model).1,
        price_cents(model).1 == price_cents(model).0 * 4 || price_cents(model) == (1000u64, 3000u64),
        text::holds(model, "gpt-4o-mini"@) ==> price_cents(model).0 < 250,
{
}

/// A setting gives its own number where it is a positive one, whatever white space stands round it,
/// and the default otherwise.
pub proof fn settings_give_positive_numbers(n: nat, default: nat, max: nat, v: Seq<char>)
    requires
        text::trimmed(v) == number::decimal(n),
    ensures
        0 < n <= max ==> setting(Some(v), default, max) == n,
        n == 0 || n > max ==> setting(Some(v), default, max) == default,
        setting(None, default, max) == default,
{
    number::bounded_numbers_are_read(n, max, v);
}

/// A wait is as long as the interval between reports, or as what is left of the time where that is
/// shorter.
pub proof fn waits_are_intervals(elapsed: nat, timeout: nat, interval: nat)
    requires
        elapsed < timeout,
        interval > 0,
    ensures
        timeout - elapsed >= interval ==> wait_step(elapsed, timeout, interval) == Some(interval),
        timeout - elapsed <= interval ==> wait_step(elapsed, timeout, interval) == Some(
            (timeout - elapsed) as nat,
        ),
{
}

/// An error says that the limit is not known where it names the limit in one of two ways and calls
/// it unknown, invalid or unsupported, and only there.
pub proof fn rejections_name_the_limit(err: Seq<char>)
    ensures
        rejects_limit(err) <==> ({
            let e = unicode::ascii_lowercase(err);
            let named = text::holds(e, "max_completion_tokens"@) || text::holds(
                e,
                "max completion tokens"@,
            );
            named && (text::holds(e, "unknown"@) || text::holds(e, "invalid"@) || text::holds(
                e,
                "unsupported"@,
            ))
        }),
{
}

/// The prices of models: a model is priced by the first of these names that stands in its own.
pub proof fn models_are_priced_by_name(model: Seq<char>)
    ensures
        text::holds(model, "gpt-4o-mini"@) ==> price_cents(model) == (15u64, 60u64),
        !text::holds(model, "gpt-4o-mini"@) && text::holds(model, "gpt-4o"@) ==> price_cents(model)
            == (250u64, 1000u64),
        !text::holds(model, "gpt-4o"@) && !text::holds(model, "gpt-4-turbo"@) && !text::holds(
            model,
            "o1-mini"@,
        ) && text::holds(model, "gpt-5"@) ==> price_cents(model) == (1500u64, 6000u64),
{
    if text::holds(model, "gpt-4o-mini"@) {
        reveal_strlit("gpt-4o-mini");
        reveal_strlit("gpt-4o");
        assert("gpt-4o-mini"@.subrange(0, 6) =~= "gpt-4o"@);
        assert(text::occurs_at("gpt-4o-mini"@, "gpt-4o"@, 0));
        text::holds_within(model, "gpt-4o-mini"@, "gpt-4o"@);
    }
}

} // verus!
