//! Starting and stopping server instances: the checks made before a
//! listener is bound and after the handlers are compiled.
use vstd::prelude::*;

use crate::registry::Registry;
use crate::routes::{
    accepted_upto, build_routes, config_names, plan_matches, rejects_at, HandlerPlan,
    HandlerSource, RouteError, RouteTable,
};

verus! {

/// Why a server instance was not started.
pub enum StartError {
    /// An instance is already running on the port.
    PortInUse,
    /// The route configuration is unusable.
    Route(RouteError),
    /// The handler of this route failed to compile, with the diagnostic.
    Compile(String, String),
    /// The listener could not be bound.
    Bind(String),
}

/// The message that reports a start error.
pub open spec fn start_error_text(e: StartError) -> Seq<char> {
    match e {
        StartError::PortInUse => "a server is already running on this port"@,
        StartError::Route(RouteError::InvalidName(n)) => "invalid route name '"@ + n@ + "'"@,
        StartError::Route(RouteError::DuplicateName(n)) => "route '"@ + n@ + "' is registered twice"@,
        StartError::Compile(route, diag) => "failed to compile handler for route '"@ + route@
            + "': "@ + diag@,
        StartError::Bind(diag) => "cannot listen on port: "@ + diag@,
    }
}

impl StartError {
    /// A message for the caller of `start_server`.
    pub fn message(&self) -> (r: String)
        ensures
            r@ == start_error_text(*self),
    {
        match self {
            StartError::PortInUse => String::from_str("a server is already running on this port"),
            StartError::Route(RouteError::InvalidName(n)) => {
                let mut m = String::from_str("invalid route name '");
                m.append(n.as_str());
                m.append("'");
                m
            },
            StartError::Route(RouteError::DuplicateName(n)) => {
                let mut m = String::from_str("route '");
                m.append(n.as_str());
                m.append("' is registered twice");
                m
            },
            StartError::Compile(route, diag) => {
                let mut m = String::from_str("failed to compile handler for route '");
                m.append(route.as_str());
                m.append("': ");
                m.append(diag.as_str());
                m
            },
            StartError::Bind(diag) => {
                let mut m = String::from_str("cannot listen on port: ");
                m.append(diag.as_str());
                m
            },
        }
    }
}

/// The checks made before anything is spawned: the port must be free and
/// the configuration must give a route table.
pub fn prepare_start<H>(registry: &Registry<H>, port: u16, config: Vec<(String, HandlerSource)>) -> (r:
    Result<(RouteTable, Vec<HandlerPlan>), StartError>)
    requires
        registry.wf(),
    ensures
        registry@.contains_key(port) ==> r matches Err(StartError::PortInUse),
        !registry@.contains_key(port) ==> (r is Ok <==> accepted_upto(
            config_names(config@),
            config@.len() as int,
        )),
        r matches Err(StartError::Route(e)) ==> exists|k: int| rejects_at(config@, k, e),
        r is Err ==> r matches Err(StartError::PortInUse) || r matches Err(StartError::Route(_)),
        r matches Ok((t, plans)) ==> {
            &&& t.wf()
            &&& t@ == config_names(config@)
            &&& plans@.len() == config@.len()
            &&& forall|i: int| 0 <= i < config@.len() ==> plan_matches(config@[i].1, #[trigger] plans@[i])
        },
{
    if registry.is_running(port) {
        return Err(StartError::PortInUse);
    }
    match build_routes(config) {
        Ok(built) => Ok(built),
        Err(e) => Err(StartError::Route(e)),
    }
}

/// The first compile failure among the handlers, route by route.
pub open spec fn first_failure(outcomes: Seq<Result<(), String>>, n: int) -> Option<int>
    decreases n,
{
    if n <= 0 || n > outcomes.len() {
        None
    } else {
        match first_failure(outcomes, n - 1) {
            Some(k) => Some(k),
            None => if outcomes[n - 1] is Err {
                Some(n - 1)
            } else {
                None
            },
        }
    }
}

/// Accepts the compiled handlers only if every one compiled: otherwise the
/// first failure is reported with its route's name, and no server starts.
pub fn check_compiled(table: &RouteTable, outcomes: Vec<Result<(), String>>) -> (r: Result<
    (),
    StartError,
>)
    requires
        outcomes@.len() == table@.len(),
    ensures
        first_failure(outcomes@, outcomes@.len() as int) is None ==> r is Ok,
        first_failure(outcomes@, outcomes@.len() as int) matches Some(k) ==> (r matches Err(
            StartError::Compile(route, diag),
        ) && route@ == table@[k] && outcomes@[k] == Err::<(), String>(diag)),
{
    let ghost all = outcomes@;
    assert(all.len() == outcomes.len());
    let mut rest = outcomes;
    let mut i: usize = 0;
    while rest.len() > 0
        invariant
            i + rest@.len() == all.len(),
            all == outcomes@,
            all.len() <= usize::MAX,
            all.len() == table@.len(),
            rest@ == all.subrange(i as int, all.len() as int),
            first_failure(all, i as int) is None,
        decreases rest.len(),
    {
        let o = rest.remove(0);
        assert(all[i as int] == o);
        match o {
            Err(diag) => {
                proof {
                    lemma_first_failure_stays(all, i as int + 1, all.len() as int);
                }
                return Err(StartError::Compile(table.name(i).clone(), diag));
            },
            Ok(()) => {},
        }
        i = i + 1;
    }
    Ok(())
}

proof fn lemma_first_failure_stays(outcomes: Seq<Result<(), String>>, i: int, n: int)
    requires
        0 <= i <= n <= outcomes.len(),
        first_failure(outcomes, i) is Some,
    ensures
        first_failure(outcomes, n) == first_failure(outcomes, i),
    decreases n - i,
{
    if n > i {
        lemma_first_failure_stays(outcomes, i, n - 1);
    }
}

} // verus!
