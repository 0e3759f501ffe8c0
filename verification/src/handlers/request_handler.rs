//! The decisions of one exchange: what is sent for a described request, and
//! what is made of the transport's report.
//!
//! The handler performs no I/O. A driver submits the description, performs
//! what the handler asks for, and reports back what happened.

use crate::json::{body_text, shown_body, RenderError};
use crate::models::headers::Headers;
use crate::text::same;
use vstd::prelude::*;
use vstd::string::*;

verus! {

/// The request methods that can be executed.
#[derive(Debug, Clone, Copy, PartialEq, Eq, Structural)]
pub enum Method {
    Get,
    Post,
    Put,
    Delete,
}

impl Method {
    /// The method's name as it stands in a descriptor.
    pub open spec fn name(self) -> Seq<char> {
        match self {
            Method::Get => "GET"@,
            Method::Post => "POST"@,
            Method::Put => "PUT"@,
            Method::Delete => "DELETE"@,
        }
    }

    /// The method that `token` names; names are case-sensitive.
    pub open spec fn named(token: Seq<char>) -> Option<Method> {
        if token == "GET"@ {
            Some(Method::Get)
        } else if token == "POST"@ {
            Some(Method::Post)
        } else if token == "PUT"@ {
            Some(Method::Put)
        } else if token == "DELETE"@ {
            Some(Method::Delete)
        } else {
            None
        }
    }

    /// Reads `token` as a method name.
    pub fn from_token(token: &str) -> (r: Option<Method>)
        ensures
            r == Method::named(token@),
    {
        if same(token, "GET") {
            Some(Method::Get)
        } else if same(token, "POST") {
            Some(Method::Post)
        } else if same(token, "PUT") {
            Some(Method::Put)
        } else if same(token, "DELETE") {
            Some(Method::Delete)
        } else {
            None
        }
    }

    /// The method's name.
    pub fn as_str(&self) -> (r: &'static str)
        ensures
            r@ == self.name(),
    {
        match self {
            Method::Get => "GET",
            Method::Post => "POST",
            Method::Put => "PUT",
            Method::Delete => "DELETE",
        }
    }
}

/// Every method is the one that its own name names.
pub proof fn lemma_method_names(method: Method)
    ensures
        Method::named(method.name()) == Some(method),
{
    reveal_strlit("GET");
    reveal_strlit("POST");
    reveal_strlit("PUT");
    reveal_strlit("DELETE");
    assert("GET"@.len() == 3 && "POST"@.len() == 4 && "PUT"@.len() == 3 && "DELETE"@.len() == 6);
    assert("GET"@[0] == 'G' && "PUT"@[0] == 'P');
}

/// A request as it goes out: what an `OutboundRequest` holds.
pub struct Request {
    pub method: Method,
    pub url: Seq<char>,
    pub headers: Map<Seq<char>, Seq<char>>,
    pub body: Option<Seq<char>>,
}

/// A request that is ready to be sent.
#[derive(Debug)]
pub struct OutboundRequest {
    pub method: Method,
    pub url: String,
    pub headers: Headers,
    pub body: Option<String>,
}

impl View for OutboundRequest {
    type V = Request;

    open spec fn view(&self) -> Request {
        Request {
            method: self.method,
            url: self.url@,
            headers: self.headers@,
            body: self.body.deep_view(),
        }
    }
}

/// A response header as it was received: its name, and its value where
/// the value is text.
pub type ResponseHeader = (Seq<char>, Option<Seq<char>>);

/// A response as it was received: what a `ResponseRecord` holds.
pub struct Response {
    pub status: Seq<char>,
    pub headers: Seq<ResponseHeader>,
    pub body: Seq<char>,
}

/// The record of a completed exchange: the status (code and reason), the
/// headers in the order in which they were received, and the body as text.
#[derive(Debug, Clone, PartialEq, Eq)]
pub struct ResponseRecord {
    pub status: String,
    pub headers: Vec<(String, Option<String>)>,
    pub body: String,
}

impl View for ResponseRecord {
    type V = Response;

    open spec fn view(&self) -> Response {
        Response { status: self.status@, headers: self.headers.deep_view(), body: self.body@ }
    }
}

/// Why an exchange failed: what an `ExecutionError` holds.
pub enum Failure {
    UnsupportedMethod,
    Transport(Seq<char>),
    BodyReadFailure,
}

/// Why a request was not carried through.
#[derive(Debug, Clone, PartialEq, Eq)]
pub enum ExecutionError {
    /// The method is none of those that can be executed.
    UnsupportedMethod,
    /// The transport failed; the text says how.
    Transport(String),
    /// The response arrived, but its body could not be read as text.
    BodyReadFailure,
}

impl View for ExecutionError {
    type V = Failure;

    open spec fn view(&self) -> Failure {
        match self {
            ExecutionError::UnsupportedMethod => Failure::UnsupportedMethod,
            ExecutionError::Transport(detail) => Failure::Transport(detail@),
            ExecutionError::BodyReadFailure => Failure::BodyReadFailure,
        }
    }
}

impl Failure {
    /// The failure in words.
    pub open spec fn message(self) -> Seq<char> {
        match self {
            Failure::UnsupportedMethod => "Unsupported HTTP method"@,
            Failure::Transport(detail) => detail,
            Failure::BodyReadFailure => "Response body could not be read"@,
        }
    }
}

impl ExecutionError {
    /// The error in words.
    pub fn message(&self) -> (r: String)
        ensures
            r@ == self@.message(),
    {
        match self {
            ExecutionError::UnsupportedMethod => String::from_str("Unsupported HTTP method"),
            ExecutionError::Transport(detail) => detail.clone(),
            ExecutionError::BodyReadFailure => String::from_str("Response body could not be read"),
        }
    }
}

/// How far an exchange has come.
#[derive(Debug, Clone, Copy, PartialEq, Eq, Structural)]
pub enum Phase {
    /// Nothing has been submitted.
    Idle,
    /// The request is with the transport.
    Awaiting,
    /// The exchange is over and its record has been handed out.
    Succeeded,
    /// The exchange is over and its failure has been reported.
    Failed,
}

/// Something that happens to an exchange: what an `Event` holds.
pub enum Occurrence {
    Submit { url: Seq<char>, method: Seq<char>, headers: Map<Seq<char>, Seq<char>>, body: Option<
        Seq<char>,
    > },
    Completed(Response),
    TransportFailed(Seq<char>),
    BodyUnreadable,
}

/// Something that happens to an exchange.
#[derive(Debug)]
pub enum Event {
    /// A described request is submitted for execution.
    Submit { url: String, method: String, headers: Headers, body: Option<String> },
    /// The transport received the response in full.
    Completed(ResponseRecord),
    /// The transport failed before it had a response.
    TransportFailed(String),
    /// The transport had a response, but could not read its body as text.
    BodyUnreadable,
}

impl View for Event {
    type V = Occurrence;

    open spec fn view(&self) -> Occurrence {
        match self {
            Event::Submit { url, method, headers, body } => Occurrence::Submit {
                url: url@,
                method: method@,
                headers: headers@,
                body: body.deep_view(),
            },
            Event::Completed(record) => Occurrence::Completed(record@),
            Event::TransportFailed(detail) => Occurrence::TransportFailed(detail@),
            Event::BodyUnreadable => Occurrence::BodyUnreadable,
        }
    }
}

/// What the driver is asked to do: what an `Action` holds.
pub enum Effect {
    Send(Request),
    Deliver(Response),
    Report(Failure),
    Nothing,
}

/// What the driver is asked to do after an event.
#[derive(Debug)]
pub enum Action {
    /// Send this request and report what comes of it.
    Send(OutboundRequest),
    /// Hand this record to whoever renders and persists it.
    Deliver(ResponseRecord),
    /// Report this failure to the caller; there is no record.
    Report(ExecutionError),
    /// Do nothing: the event does not concern the exchange as it stands.
    Nothing,
}

impl View for Action {
    type V = Effect;

    open spec fn view(&self) -> Effect {
        match self {
            Action::Send(request) => Effect::Send(request@),
            Action::Deliver(record) => Effect::Deliver(record@),
            Action::Report(error) => Effect::Report(error@),
            Action::Nothing => Effect::Nothing,
        }
    }
}

/// The request that goes out for a description, or the reason why none
/// does: the method has to be one of those that can be executed.
pub open spec fn request_of(
    url: Seq<char>,
    method: Seq<char>,
    headers: Map<Seq<char>, Seq<char>>,
    body: Option<Seq<char>>,
) -> Result<Request, Failure> {
    match Method::named(method) {
        Some(m) => Ok(Request { method: m, url, headers, body }),
        None => Err(Failure::UnsupportedMethod),
    }
}

/// The phase that follows `phase` when `occurrence` happens.
pub open spec fn next_phase(phase: Phase, occurrence: Occurrence) -> Phase {
    match (phase, occurrence) {
        (Phase::Idle, Occurrence::Submit { url, method, headers, body }) => {
            if Method::named(method) is Some {
                Phase::Awaiting
            } else {
                Phase::Failed
            }
        },
        (Phase::Awaiting, Occurrence::Completed(_)) => Phase::Succeeded,
        (Phase::Awaiting, Occurrence::TransportFailed(_)) => Phase::Failed,
        (Phase::Awaiting, Occurrence::BodyUnreadable) => Phase::Failed,
        _ => phase,
    }
}

/// What the driver is asked to do when `occurrence` happens in `phase`.
pub open spec fn effect_of(phase: Phase, occurrence: Occurrence) -> Effect {
    match (phase, occurrence) {
        (Phase::Idle, Occurrence::Submit { url, method, headers, body }) => {
            match request_of(url, method, headers, body) {
                Ok(request) => Effect::Send(request),
                Err(failure) => Effect::Report(failure),
            }
        },
        (Phase::Awaiting, Occurrence::Completed(response)) => Effect::Deliver(response),
        (Phase::Awaiting, Occurrence::TransportFailed(detail)) => Effect::Report(
            Failure::Transport(detail),
        ),
        (Phase::Awaiting, Occurrence::BodyUnreadable) => Effect::Report(Failure::BodyReadFailure),
        _ => Effect::Nothing,
    }
}

/// Carries requests through their exchanges.
pub struct RequestHandler;

impl RequestHandler {
    /// Builds the request that goes out for a description. A method that
    /// cannot be executed is refused, and nothing is built.
    pub fn prepare(url: &str, method: &str, headers: Headers, body: Option<String>) -> (r: Result<
        OutboundRequest,
        ExecutionError,
    >)
        ensures
            match r {
                Ok(request) => request_of(url@, method@, headers@, body.deep_view()) == Ok::<
                    Request,
                    Failure,
                >(request@),
                Err(error) => request_of(url@, method@, headers@, body.deep_view()) == Err::<
                    Request,
                    Failure,
                >(error@),
            },
    {
        match Method::from_token(method) {
            Some(m) => Ok(OutboundRequest { method: m, url: String::from_str(url), headers, body }),
            None => Err(ExecutionError::UnsupportedMethod),
        }
    }

    /// Carries the execution of a request one event further: decides what
    /// follows when `event` happens in `phase`, that is the phase that the
    /// exchange is in afterwards, and what the driver is to do.
    ///
    /// An execution begins in `Phase::Idle` with `Event::Submit`. The driver
    /// performs each action and comes back with the event that it led to,
    /// until a record is delivered or a failure reported.
    pub fn execute_request(phase: Phase, event: Event) -> (r: (Phase, Action))
        ensures
            r.0 == next_phase(phase, event@),
            r.1@ == effect_of(phase, event@),
    {
        match phase {
            Phase::Idle => match event {
                Event::Submit { url, method, headers, body } => {
                    match RequestHandler::prepare(url.as_str(), method.as_str(), headers, body) {
                        Ok(request) => (Phase::Awaiting, Action::Send(request)),
                        Err(error) => (Phase::Failed, Action::Report(error)),
                    }
                },
                _ => (phase, Action::Nothing),
            },
            Phase::Awaiting => match event {
                Event::Completed(record) => (Phase::Succeeded, Action::Deliver(record)),
                Event::TransportFailed(detail) => (
                    Phase::Failed,
                    Action::Report(ExecutionError::Transport(detail)),
                ),
                Event::BodyUnreadable => (
                    Phase::Failed,
                    Action::Report(ExecutionError::BodyReadFailure),
                ),
                _ => (phase, Action::Nothing),
            },
            _ => (phase, Action::Nothing),
        }
    }
}

/// The text that stands for a header value: the value itself, or a notice
/// where the value is no text.
pub open spec fn value_text(value: Option<Seq<char>>) -> Seq<char> {
    match value {
        Some(text) => text,
        None => "Unable to display"@,
    }
}

/// The text that stands for a header value.
pub fn header_value_text(value: &Option<String>) -> (r: String)
    ensures
        r@ == value_text(value.deep_view()),
{
    match value {
        Some(text) => text.clone(),
        None => String::from_str("Unable to display"),
    }
}

/// The headers as lines of a log entry: the name, a colon and a space, the
/// value's text, and a line feed for each.
pub open spec fn header_lines(headers: Seq<ResponseHeader>) -> Seq<char>
    decreases headers.len(),
{
    if headers.len() == 0 {
        Seq::empty()
    } else {
        header_lines(headers.drop_last()) + headers.last().0 + ": "@ + value_text(headers.last().1)
            + "\n"@
    }
}

/// The block that is appended to the results log for one exchange, with
/// `shown` as the text of the body.
pub open spec fn log_entry_text(
    stamp: Seq<char>,
    method: Seq<char>,
    url: Seq<char>,
    status: Seq<char>,
    headers: Seq<ResponseHeader>,
    shown: Seq<char>,
    source: Option<Seq<char>>,
) -> Seq<char> {
    "\n=== Request "@ + stamp + " ===\n"@ + (match source {
        Some(file) => "Source File: "@ + file + "\n"@,
        None => Seq::empty(),
    }) + "Method: "@ + method + "\n"@ + "URL: "@ + url + "\n"@ + "Status: "@ + status + "\n"@
        + "\n--- Headers ---\n"@ + header_lines(headers) + "\n--- Body ---\n"@ + shown + "\n"@
        + "\n=== End Request ===\n\n"@
}

impl RequestHandler {
    /// Writes the block that is appended to the results log for one
    /// exchange, with `shown` as the text of the body. `stamp` is the time of
    /// writing, as the log shows it.
    pub fn log_entry_with(
        stamp: &str,
        method: &str,
        url: &str,
        status: &str,
        headers: &Vec<(String, Option<String>)>,
        shown: &str,
        source_file: Option<&str>,
    ) -> (r: String)
        ensures
            r@ == log_entry_text(
                stamp@,
                method@,
                url@,
                status@,
                headers.deep_view(),
                shown@,
                source_file.deep_view(),
            ),
    {
        let mut out = String::from_str("\n=== Request ");
        out.append(stamp);
        out.append(" ===\n");
        if let Some(file) = source_file {
            out.append("Source File: ");
            out.append(file);
            out.append("\n");
        }
        out.append("Method: ");
        out.append(method);
        out.append("\n");
        out.append("URL: ");
        out.append(url);
        out.append("\n");
        out.append("Status: ");
        out.append(status);
        out.append("\n");
        out.append("\n--- Headers ---\n");
        let ghost front = out@;
        let ghost all = headers.deep_view();
        let n: usize = headers.len();
        let mut i: usize = 0;
        while i < n
            invariant
                all == headers.deep_view(),
                n == headers.len(),
                i <= n,
                out@ == front + header_lines(all.subrange(0, i as int)),
            decreases n - i,
        {
            let ghost seen = all.subrange(0, i as int);
            let ghost next = all.subrange(0, i + 1);
            assert(next.drop_last() =~= seen);
            let value = header_value_text(&headers[i].1);
            out.append(headers[i].0.as_str());
            out.append(": ");
            out.append(value.as_str());
            out.append("\n");
            i = i + 1;
        }
        assert(all.subrange(0, n as int) =~= all);
        out.append("\n--- Body ---\n");
        out.append(shown);
        out.append("\n");
        out.append("\n=== End Request ===\n\n");
        out
    }

    /// Writes the block that is appended to the results log for one
    /// exchange. A body that is a JSON document is shown indented, any
    /// other body as it is.
    pub fn log_entry(
        stamp: &str,
        method: &str,
        url: &str,
        status: &str,
        headers: &Vec<(String, Option<String>)>,
        body: &str,
        source_file: Option<&str>,
    ) -> (r: Result<String, RenderError>)
        ensures
            match r {
                Ok(entry) => shown_body(body@) is Some && entry@ == log_entry_text(
                    stamp@,
                    method@,
                    url@,
                    status@,
                    headers.deep_view(),
                    shown_body(body@)->0,
                    source_file.deep_view(),
                ),
                Err(error) => shown_body(body@) is None && error == RenderError::Serialization,
            },
    {
        match body_text(body) {
            Ok(shown) => Ok(
                RequestHandler::log_entry_with(
                    stamp,
                    method,
                    url,
                    status,
                    headers,
                    shown.as_str(),
                    source_file,
                ),
            ),
            Err(error) => Err(error),
        }
    }
}

/// The phase that an exchange is in after `events` happened to it, one
/// after the other, from `phase` on.
pub open spec fn run(phase: Phase, events: Seq<Occurrence>) -> Phase
    decreases events.len(),
{
    if events.len() == 0 {
        phase
    } else {
        run(next_phase(phase, events[0]), events.skip(1))
    }
}

/// What the driver is asked to do, event by event, while `events` happen
/// to an exchange from `phase` on.
pub open spec fn effects(phase: Phase, events: Seq<Occurrence>) -> Seq<Effect>
    decreases events.len(),
{
    if events.len() == 0 {
        Seq::empty()
    } else {
        seq![effect_of(phase, events[0])] + effects(next_phase(phase, events[0]), events.skip(1))
    }
}

/// How many requests `effects` ask to send.
pub open spec fn sends(effects: Seq<Effect>) -> nat
    decreases effects.len(),
{
    if effects.len() == 0 {
        0
    } else if effects[0] is Send {
        1 + sends(effects.skip(1))
    } else {
        sends(effects.skip(1))
    }
}

/// How many records `effects` ask to deliver.
pub open spec fn deliveries(effects: Seq<Effect>) -> nat
    decreases effects.len(),
{
    if effects.len() == 0 {
        0
    } else if effects[0] is Deliver {
        1 + deliveries(effects.skip(1))
    } else {
        deliveries(effects.skip(1))
    }
}

/// How many failures `effects` ask to report.
pub open spec fn reports(effects: Seq<Effect>) -> nat
    decreases effects.len(),
{
    if effects.len() == 0 {
        0
    } else if effects[0] is Report {
        1 + reports(effects.skip(1))
    } else {
        reports(effects.skip(1))
    }
}

/// A request is sent only for a submission, made while nothing has been
/// submitted before, whose method can be executed; and then the request is
/// the one described. In particular, a method that cannot be executed
/// leads to no network activity.
pub proof fn lemma_send_only_on_valid_submission(phase: Phase, occurrence: Occurrence)
    ensures
        effect_of(phase, occurrence) is Send <==> phase == Phase::Idle && occurrence is Submit
            && Method::named(occurrence->method) is Some,
        effect_of(phase, occurrence) matches Effect::Send(request) ==> request.method.name()
            == occurrence->method && request.url == occurrence->url && request.headers
            == occurrence->headers && request.body == occurrence->Submit_body,
        phase == Phase::Idle && occurrence is Submit && Method::named(occurrence->method) is None
            ==> effect_of(phase, occurrence) == Effect::Report(Failure::UnsupportedMethod)
            && next_phase(phase, occurrence) == Phase::Failed,
{
}

/// A record is delivered only for a completed exchange that was awaited,
/// and it is the record that the transport gave, unchanged; every failure
/// of the transport is reported and delivers nothing.
pub proof fn lemma_deliver_only_on_completion(phase: Phase, occurrence: Occurrence)
    ensures
        effect_of(phase, occurrence) is Deliver <==> phase == Phase::Awaiting
            && occurrence is Completed,
        effect_of(phase, occurrence) matches Effect::Deliver(response) ==> occurrence
            == Occurrence::Completed(response),
        phase == Phase::Awaiting && occurrence is TransportFailed ==> effect_of(phase, occurrence)
            == Effect::Report(Failure::Transport(occurrence->TransportFailed_0)),
        phase == Phase::Awaiting && occurrence is BodyUnreadable ==> effect_of(phase, occurrence)
            == Effect::Report(Failure::BodyReadFailure),
{
}

/// An exchange that is over stays as it is, and asks for nothing more.
pub proof fn lemma_over_is_final(phase: Phase, events: Seq<Occurrence>)
    requires
        phase == Phase::Succeeded || phase == Phase::Failed,
    ensures
        run(phase, events) == phase,
        sends(effects(phase, events)) == 0,
        deliveries(effects(phase, events)) == 0,
        reports(effects(phase, events)) == 0,
    decreases events.len(),
{
    if events.len() > 0 {
        lemma_over_is_final(phase, events.skip(1));
        lemma_count_first(effect_of(phase, events[0]), effects(phase, events.skip(1)));
    }
}

/// The counts of a sequence of effects, from its first effect and the counts
/// of the others.
proof fn lemma_count_first(first: Effect, others: Seq<Effect>)
    ensures
        sends(seq![first] + others) == sends(others) + if first is Send {
            1nat
        } else {
            0nat
        },
        deliveries(seq![first] + others) == deliveries(others) + if first is Deliver {
            1nat
        } else {
            0nat
        },
        reports(seq![first] + others) == reports(others) + if first is Report {
            1nat
        } else {
            0nat
        },
{
    let all = seq![first] + others;
    assert(all.skip(1) == others);
}

/// Whatever happens to an exchange, in whatever order: at most one request
/// is sent, and at most one outcome is handed out, a record or a failure,
/// never both. The exchange has succeeded exactly where a record was
/// delivered, which happens only after the request was sent; it has failed
/// exactly where a failure was reported.
pub proof fn lemma_one_exchange(events: Seq<Occurrence>)
    ensures
        sends(effects(Phase::Idle, events)) <= 1,
        deliveries(effects(Phase::Idle, events)) + reports(effects(Phase::Idle, events)) <= 1,
        run(Phase::Idle, events) == Phase::Succeeded <==> deliveries(effects(Phase::Idle, events))
            == 1,
        run(Phase::Idle, events) == Phase::Failed <==> reports(effects(Phase::Idle, events)) == 1,
        deliveries(effects(Phase::Idle, events)) == 1 ==> sends(effects(Phase::Idle, events)) == 1,
        run(Phase::Idle, events) == Phase::Awaiting ==> sends(effects(Phase::Idle, events)) == 1,
{
    lemma_exchange_from(Phase::Idle, events);
}

/// The counts of what a run asks for, from any phase on.
proof fn lemma_exchange_from(phase: Phase, events: Seq<Occurrence>)
    ensures
        ({
            let end = run(phase, events);
            let asked = effects(phase, events);
            match phase {
                Phase::Idle => {
                    &&& sends(asked) <= 1
                    &&& end == Phase::Idle ==> sends(asked) == 0
                    &&& end == Phase::Awaiting || end == Phase::Succeeded ==> sends(asked) == 1
                    &&& deliveries(asked) == if end == Phase::Succeeded {
                        1nat
                    } else {
                        0nat
                    }
                    &&& reports(asked) == if end == Phase::Failed {
                        1nat
                    } else {
                        0nat
                    }
                },
                Phase::Awaiting => {
                    &&& end != Phase::Idle
                    &&& sends(asked) == 0
                    &&& deliveries(asked) == if end == Phase::Succeeded {
                        1nat
                    } else {
                        0nat
                    }
                    &&& reports(asked) == if end == Phase::Failed {
                        1nat
                    } else {
                        0nat
                    }
                },
                _ => end == phase && sends(asked) == 0 && deliveries(asked) == 0 && reports(asked)
                    == 0,
            }
        }),
    decreases events.len(),
{
    if events.len() > 0 {
        let next = next_phase(phase, events[0]);
        lemma_exchange_from(next, events.skip(1));
        lemma_count_first(effect_of(phase, events[0]), effects(next, events.skip(1)));
    }
}

} // verus!
