//! Request routing, the interpreter worker's decisions, and HTTP responses.
use vstd::prelude::*;

use crate::bridge::{
    from_inter, lemma_conversion_encoded, lemma_encoded_round_trip, to_inter, to_interchange,
    ConversionError, InterModel, Interchange, NativeModel, NativeValue,
};
use crate::routes::{distinct, RouteTable};
use crate::text::occurs_at;

verus! {

/// The path under which route `name` is served.
pub open spec fn api_path(name: Seq<char>) -> Seq<char> {
    "/api/"@ + name
}

/// The route a request reaches: a GET of `/api/<name>` for a registered name.
pub open spec fn request_target(names: Seq<Seq<char>>, is_get: bool, path: Seq<char>) -> Option<int> {
    if is_get && exists|i: int| 0 <= i < names.len() && path == api_path(#[trigger] names[i]) {
        Some(choose|i: int| 0 <= i < names.len() && path == api_path(#[trigger] names[i]))
    } else {
        None
    }
}

/// Finds the route that a request for `path` reaches.
pub fn route_request(table: &RouteTable, is_get: bool, path: &str) -> (r: Option<usize>)
    requires
        table.wf(),
    ensures
        r matches Some(i) ==> i < table@.len() && is_get && path@ == api_path(table@[i as int])
            && request_target(table@, is_get, path@) == Some(i as int),
        r is None ==> request_target(table@, is_get, path@) is None,
{
    if !is_get || !occurs_at(path, 0, "/api/") {
        proof {
            assert(path@.subrange(0, path@.len() as int) =~= path@);
            if is_get {
                assert forall|i: int| 0 <= i < table@.len() implies path@ != api_path(
                    #[trigger] table@[i],
                ) by {
                    if path@ == api_path(table@[i]) {
                        assert(path@.subrange(0, "/api/"@.len() as int) =~= "/api/"@);
                    }
                }
            }
        }
        return None;
    }
    let prefix = "/api/";
    let start = prefix.unicode_len();
    let name = path.substring_char(start, path.unicode_len());
    proof {
        assert(path@ =~= "/api/"@ + name@);
    }
    match table.find(name) {
        Some(i) => {
            proof {
                lemma_registered_route_reached(table@, i as int);
            }
            Some(i)
        },
        None => {
            proof {
                assert forall|i: int| 0 <= i < table@.len() implies path@ != api_path(
                    #[trigger] table@[i],
                ) by {
                    if path@ == api_path(table@[i]) {
                        assert(name@ =~= path@.subrange("/api/"@.len() as int, path@.len() as int));
                        assert(table@[i] =~= path@.subrange(
                            "/api/"@.len() as int,
                            path@.len() as int,
                        ));
                    }
                }
            }
            None
        },
    }
}

/// The message for a handler result without an interchange form.
pub open spec fn conversion_text(e: ConversionError) -> Seq<char> {
    match e {
        ConversionError::Unsupported => "handler returned a value of an unsupported type"@,
        ConversionError::NonFiniteNumber => "handler returned a number that is not finite"@,
        ConversionError::NonStringKey => "handler returned a table with non-string keys"@,
    }
}

pub fn conversion_message(e: ConversionError) -> (r: String)
    ensures
        r@ == conversion_text(e),
{
    match e {
        ConversionError::Unsupported => String::from_str(
            "handler returned a value of an unsupported type",
        ),
        ConversionError::NonFiniteNumber => String::from_str(
            "handler returned a number that is not finite",
        ),
        ConversionError::NonStringKey => String::from_str(
            "handler returned a table with non-string keys",
        ),
    }
}

/// What the worker answers for one invocation: the converted value, or
/// the failure's message.
pub open spec fn call_result(outcome: Result<NativeModel, Seq<char>>) -> Result<InterModel, Seq<char>> {
    match outcome {
        Ok(v) => match to_inter(v) {
            Ok(j) => Ok(j),
            Err(e) => Err(conversion_text(e)),
        },
        Err(m) => Err(m),
    }
}

pub open spec fn outcome_view(o: Result<NativeValue, String>) -> Result<NativeModel, Seq<char>> {
    match o {
        Ok(v) => Ok(v@),
        Err(m) => Err(m@),
    }
}

pub open spec fn result_view(r: Result<Interchange, String>) -> Result<InterModel, Seq<char>> {
    match r {
        Ok(j) => Ok(j@),
        Err(m) => Err(m@),
    }
}

/// The message for a request whose route the worker does not know.
pub open spec fn route_missing_text() -> Seq<char> {
    "route not found"@
}

/// Where the interpreter worker stands.
#[derive(PartialEq, Eq, Structural, Clone, Copy, Debug)]
pub enum WorkerState {
    /// Waiting for the next call request.
    Idle,
    /// Running the handler of the given route.
    Executing(usize),
    /// The dispatch channel closed or a stop was signalled.
    Stopped,
}

/// What the worker does next.
pub enum WorkerAction {
    /// Invoke the handler of this route with no arguments.
    Invoke(usize),
    /// Send this result to the waiting connection.
    Reply(Result<Interchange, String>),
}

/// The single consumer of call requests for one server instance. It takes
/// one request at a time: a new one is accepted only once the previous
/// invocation has been answered.
pub struct Worker {
    state: WorkerState,
}

impl Worker {
    pub closed spec fn spec_state(&self) -> WorkerState {
        self.state
    }

    pub fn new() -> (r: Worker)
        ensures
            r.spec_state() == WorkerState::Idle,
    {
        Worker { state: WorkerState::Idle }
    }

    pub fn state(&self) -> (r: WorkerState)
        ensures
            r == self.spec_state(),
    {
        self.state
    }

    /// Takes a call request for the route called `route`: the worker starts
    /// executing its handler, or answers at once that there is no such route.
    pub fn on_request(&mut self, table: &RouteTable, route: &str) -> (r: WorkerAction)
        requires
            old(self).spec_state() == WorkerState::Idle,
            table.wf(),
        ensures
            table@.contains(route@) ==> exists|i: usize|
                i < table@.len() && table@[i as int] == route@ && r == WorkerAction::Invoke(i)
                    && final(self).spec_state() == WorkerState::Executing(i),
            !table@.contains(route@) ==> (r matches WorkerAction::Reply(Err(m)) && m@
                == route_missing_text()) && final(self).spec_state() == WorkerState::Idle,
            worker_next(table@, WorkerState::Idle, WorkerEvent::Request(route@)) == Some(
                final(self).spec_state(),
            ),
    {
        match table.find(route) {
            Some(i) => {
                proof {
                    let k = table@.index_of(route@);
                    assert(table@[i as int] == route@);
                    assert(table@.contains(route@));
                    if k != i as int {
                        assert(crate::routes::distinct(table@));
                        if k < i {
                            assert(table@[k] != table@[i as int]);
                        } else {
                            assert(table@[i as int] != table@[k]);
                        }
                    }
                }
                self.state = WorkerState::Executing(i);
                WorkerAction::Invoke(i)
            },
            None => WorkerAction::Reply(Err(String::from_str("route not found"))),
        }
    }

    /// Takes what the running handler returned or raised, and gives the
    /// result for the waiting connection. The worker is idle again
    /// afterwards, whatever the outcome.
    pub fn on_outcome(&mut self, outcome: Result<NativeValue, String>) -> (r: Result<
        Interchange,
        String,
    >)
        requires
            old(self).spec_state() is Executing,
        ensures
            result_view(r) == call_result(outcome_view(outcome)),
            final(self).spec_state() == WorkerState::Idle,
    {
        self.state = WorkerState::Idle;
        match outcome {
            Ok(v) => match to_interchange(&v) {
                Ok(j) => Ok(j),
                Err(e) => Err(conversion_message(e)),
            },
            Err(m) => Err(m),
        }
    }

    /// The dispatch channel closed or a stop was signalled.
    pub fn on_close(&mut self)
        ensures
            final(self).spec_state() == WorkerState::Stopped,
    {
        self.state = WorkerState::Stopped;
    }
}

/// What a waiting connection got back.
pub enum Reply {
    /// The worker's result.
    Answered(Result<Interchange, String>),
    /// The worker is gone: the reply slot was dropped unanswered.
    Unavailable,
}

/// The body of an HTTP response.
pub enum Body {
    /// A structured-data body holding this value.
    Json(Interchange),
    /// A plain-text body.
    Text(String),
}

pub struct Response {
    pub status: u16,
    pub body: Body,
}

/// Model of a response: status and body, the body as a value or as text.
pub type ResponseModel = (int, Result<InterModel, Seq<char>>);

pub open spec fn response_view(r: Response) -> ResponseModel {
    (
        r.status as int,
        match r.body {
            Body::Json(j) => Ok(j@),
            Body::Text(t) => Err(t@),
        },
    )
}

pub open spec fn unavailable_text() -> Seq<char> {
    "execution unavailable"@
}

pub open spec fn not_found_text() -> Seq<char> {
    "Not found"@
}

/// The response for a worker result: 200 with the value, or 500 with the
/// failure's message.
pub open spec fn answer_response(r: Result<InterModel, Seq<char>>) -> ResponseModel {
    match r {
        Ok(j) => (200, Ok(j)),
        Err(m) => (500, Err(m)),
    }
}

/// Renders what a waiting connection got back as an HTTP response.
pub fn respond(reply: Reply) -> (r: Response)
    ensures
        reply matches Reply::Answered(a) ==> response_view(r) == answer_response(result_view(a)),
        reply is Unavailable ==> response_view(r) == (500int, Err::<InterModel, Seq<char>>(
            unavailable_text(),
        )),
{
    match reply {
        Reply::Answered(Ok(j)) => Response { status: 200, body: Body::Json(j) },
        Reply::Answered(Err(m)) => Response { status: 500, body: Body::Text(m) },
        Reply::Unavailable => Response {
            status: 500,
            body: Body::Text(String::from_str("execution unavailable")),
        },
    }
}

/// The response for a request that reaches no route.
pub fn not_found() -> (r: Response)
    ensures
        response_view(r) == (404int, Err::<InterModel, Seq<char>>(not_found_text())),
{
    Response { status: 404, body: Body::Text(String::from_str("Not found")) }
}

proof fn lemma_api_path_injective(a: Seq<char>, b: Seq<char>)
    ensures
        api_path(a) == api_path(b) ==> a == b,
{
    if api_path(a) == api_path(b) {
        let n = "/api/"@.len() as int;
        assert(a =~= api_path(a).subrange(n, api_path(a).len() as int));
        assert(b =~= api_path(b).subrange(n, api_path(b).len() as int));
    }
}

/// A GET of `/api/<name>` for a registered name reaches that route.
pub proof fn lemma_registered_route_reached(names: Seq<Seq<char>>, i: int)
    requires
        distinct(names),
        0 <= i < names.len(),
    ensures
        request_target(names, true, api_path(names[i])) == Some(i),
{
    let k = choose|k: int| 0 <= k < names.len() && api_path(names[i]) == api_path(#[trigger] names[k]);
    lemma_api_path_injective(names[i], names[k]);
}

/// A route whose handler returns the constant `v` answers a GET of its path
/// with 200 and the interchange form of `v`.
pub proof fn lemma_constant_route(names: Seq<Seq<char>>, i: int, v: NativeModel)
    requires
        distinct(names),
        0 <= i < names.len(),
        to_inter(v) is Ok,
    ensures
        request_target(names, true, api_path(names[i])) == Some(i),
        answer_response(call_result(Ok(from_inter(to_inter(v)->Ok_0)))) == (
            200int,
            Ok::<InterModel, Seq<char>>(to_inter(v)->Ok_0),
        ),
{
    lemma_registered_route_reached(names, i);
    lemma_conversion_encoded(v);
    lemma_encoded_round_trip(to_inter(v)->Ok_0);
}

/// A GET of `/api/<p>` for a name `p` that is not registered reaches no route.
pub proof fn lemma_unregistered_path(names: Seq<Seq<char>>, p: Seq<char>, is_get: bool)
    requires
        !names.contains(p),
    ensures
        request_target(names, is_get, api_path(p)) is None,
{
    assert forall|i: int| 0 <= i < names.len() implies api_path(p) != api_path(#[trigger] names[i]) by {
        lemma_api_path_injective(p, names[i]);
    }
}

/// What the worker is handed, one at a time: a call request for a route
/// name, or the outcome of the handler it is running.
pub enum WorkerEvent {
    Request(Seq<char>),
    Outcome,
}

/// The worker's state after `e`, as `on_request` and `on_outcome` move it;
/// `None` where the worker takes no such event (a request while a handler
/// runs, an outcome while idle).
pub open spec fn worker_next(names: Seq<Seq<char>>, s: WorkerState, e: WorkerEvent) -> Option<
    WorkerState,
> {
    match (s, e) {
        (WorkerState::Idle, WorkerEvent::Request(n)) => if names.contains(n) {
            Some(WorkerState::Executing(names.index_of(n) as usize))
        } else {
            Some(WorkerState::Idle)
        },
        (WorkerState::Executing(_), WorkerEvent::Outcome) => Some(WorkerState::Idle),
        _ => None,
    }
}

/// Runs the first `n` events from the idle state: the final state and the
/// numbers of invocations begun and finished, or `None` if some event is
/// not taken.
pub open spec fn worker_run(names: Seq<Seq<char>>, es: Seq<WorkerEvent>, n: int) -> Option<
    (WorkerState, int, int),
>
    decreases n,
{
    if n <= 0 || n > es.len() {
        Some((WorkerState::Idle, 0, 0))
    } else {
        match worker_run(names, es, n - 1) {
            None => None,
            Some((s, begun, finished)) => match worker_next(names, s, es[n - 1]) {
                None => None,
                Some(t) => Some(
                    (
                        t,
                        if t is Executing {
                            begun + 1
                        } else {
                            begun
                        },
                        if s is Executing {
                            finished + 1
                        } else {
                            finished
                        },
                    ),
                ),
            },
        }
    }
}

/// Invocations never overlap: along every sequence of events the worker
/// takes, each finished invocation was begun, and at most one has begun
/// without finishing, exactly while the worker is executing.
pub proof fn lemma_one_invocation_at_a_time(names: Seq<Seq<char>>, es: Seq<WorkerEvent>, n: int)
    requires
        0 <= n <= es.len(),
        worker_run(names, es, n) is Some,
    ensures
        ({
            let (s, begun, finished) = worker_run(names, es, n)->Some_0;
            &&& 0 <= finished <= begun <= finished + 1
            &&& (s is Executing <==> begun == finished + 1)
            &&& s !== WorkerState::Stopped
        }),
    decreases n,
{
    if n > 0 {
        lemma_one_invocation_at_a_time(names, es, n - 1);
    }
}

/// A failing handler is answered with 500 and its message, and does not
/// disturb the worker: it is idle again, so that a following request for
/// any registered route `j` invokes that route, whose value is answered
/// with 200.
pub proof fn lemma_failure_isolated(
    names: Seq<Seq<char>>,
    k: usize,
    msg: Seq<char>,
    j: int,
    v: NativeModel,
)
    requires
        distinct(names),
        0 <= j < names.len(),
        to_inter(v) is Ok,
    ensures
        answer_response(call_result(Err(msg))) == (500int, Err::<InterModel, Seq<char>>(msg)),
        worker_next(names, WorkerState::Executing(k), WorkerEvent::Outcome) == Some(
            WorkerState::Idle,
        ),
        worker_next(names, WorkerState::Idle, WorkerEvent::Request(names[j])) == Some(
            WorkerState::Executing(j as usize),
        ),
        answer_response(call_result(Ok(v))) == (200int, Ok::<InterModel, Seq<char>>(
            to_inter(v)->Ok_0,
        )),
{
    assert(names.contains(names[j]));
    let k2 = names.index_of(names[j]);
    if k2 != j {
        if k2 < j {
            assert(names[k2] != names[j]);
        } else {
            assert(names[j] != names[k2]);
        }
    }
}

} // verus!
