//! Route table: handler sources classified once at registration time.
use vstd::prelude::*;

use crate::bridge::Interchange;
use crate::text::{has_prefix, leading_space_len, occurs_at, trim_start};

verus! {

/// What a caller hands in for one route.
pub enum HandlerSource {
    /// An invocable value the interpreter already holds.
    Invocable,
    /// Script text: a function literal or an expression.
    Text(String),
    /// A value that the handler returns on every call.
    Constant(Interchange),
}

/// How the interpreter is to obtain a route's zero-argument handler.
pub enum HandlerPlan {
    /// Use the invocable that was handed in.
    Invocable,
    /// Evaluate this chunk once; it yields the handler function.
    Function(String),
    /// Evaluate this chunk once; the handler returns the value it yields.
    Expression(String),
    /// The handler returns this value.
    Constant(Interchange),
}

/// Script text whose first word, after white space, is the function keyword.
pub open spec fn is_function_text(s: Seq<char>) -> bool {
    has_prefix(trim_start(s), "function"@)
}

/// The chunk that evaluates an expression handler: `return nil` for blank
/// text, the text itself where it already opens with `return`, and the text
/// wrapped as `return (...)` otherwise.
pub open spec fn expression_chunk(s: Seq<char>) -> Seq<char> {
    if trim_start(s).len() == 0 {
        "return nil"@
    } else if has_prefix(trim_start(s), "return"@) {
        s
    } else {
        "return ("@ + s + ")"@
    }
}

/// The plan chosen for a handler source.
pub open spec fn plan_matches(src: HandlerSource, plan: HandlerPlan) -> bool {
    match src {
        HandlerSource::Invocable => plan is Invocable,
        HandlerSource::Text(s) => if is_function_text(s@) {
            plan is Function && plan->Function_0@ == s@
        } else {
            plan is Expression && plan->Expression_0@ == expression_chunk(s@)
        },
        HandlerSource::Constant(v) => plan is Constant && plan->Constant_0@ == v@,
    }
}

/// Classifies a handler source.
pub fn plan_handler(src: HandlerSource) -> (r: HandlerPlan)
    ensures
        plan_matches(src, r),
{
    match src {
        HandlerSource::Invocable => HandlerPlan::Invocable,
        HandlerSource::Constant(v) => HandlerPlan::Constant(v),
        HandlerSource::Text(s) => {
            let start = leading_space_len(s.as_str());
            proof {
                crate::text::lemma_leading_space(s@);
            }
            if occurs_at(s.as_str(), start, "function") {
                HandlerPlan::Function(s)
            } else if start == s.as_str().unicode_len() {
                HandlerPlan::Expression(String::from_str("return nil"))
            } else if occurs_at(s.as_str(), start, "return") {
                HandlerPlan::Expression(s)
            } else {
                let mut code = String::from_str("return (");
                code.append(s.as_str());
                code.append(")");
                HandlerPlan::Expression(code)
            }
        },
    }
}

/// A usable route name: not empty, and a single path segment.
pub open spec fn valid_name(n: Seq<char>) -> bool {
    n.len() > 0 && !n.contains('/')
}

/// The names of the routes one server instance serves, each valid and
/// each distinct.
pub struct RouteTable {
    names: Vec<String>,
}

impl View for RouteTable {
    type V = Seq<Seq<char>>;

    closed spec fn view(&self) -> Seq<Seq<char>> {
        self.names@.map_values(|n: String| n@)
    }
}

/// No name occurs twice.
pub open spec fn distinct(ns: Seq<Seq<char>>) -> bool {
    forall|i: int, j: int| 0 <= i < j < ns.len() ==> ns[i] != ns[j]
}

impl RouteTable {
    pub open spec fn wf(&self) -> bool {
        &&& forall|i: int| 0 <= i < self@.len() ==> valid_name(#[trigger] self@[i])
        &&& distinct(self@)
    }

    /// A table without routes.
    pub fn empty() -> (r: RouteTable)
        ensures
            r.wf(),
            r@ == Seq::<Seq<char>>::empty(),
    {
        let r = RouteTable { names: Vec::new() };
        assert(r@ =~= Seq::<Seq<char>>::empty());
        r
    }

    pub fn len(&self) -> (r: usize)
        ensures
            r == self@.len(),
    {
        self.names.len()
    }

    /// The name of route `i`.
    pub fn name(&self, i: usize) -> (r: &String)
        requires
            i < self@.len(),
        ensures
            r@ == self@[i as int],
    {
        &self.names[i]
    }

    /// The position of the route called `name`, if there is one.
    pub fn find(&self, name: &str) -> (r: Option<usize>)
        requires
            self.wf(),
        ensures
            r matches Some(i) ==> i < self@.len() && self@[i as int] == name@,
            r is None ==> !self@.contains(name@),
    {
        let target = String::from_str(name);
        let mut i: usize = 0;
        while i < self.names.len()
            invariant
                i <= self.names@.len(),
                target@ == name@,
                self@ == self.names@.map_values(|n: String| n@),
                forall|k: int| 0 <= k < i ==> self@[k] != name@,
            decreases self.names.len() - i,
        {
            if self.names[i] == target {
                return Some(i);
            }
            i = i + 1;
        }
        assert forall|k: int| 0 <= k < self@.len() implies self@[k] != name@ by {}
        None
    }

    /// Adds a route called `name`, unless the name is unusable or taken.
    pub fn add(&mut self, name: String) -> (r: Result<(), RouteError>)
        requires
            old(self).wf(),
        ensures
            final(self).wf(),
            !valid_name(name@) ==> r == Err::<(), RouteError>(RouteError::InvalidName(name)) && final(self)@
                == old(self)@,
            valid_name(name@) && old(self)@.contains(name@) ==> r == Err::<(), RouteError>(
                RouteError::DuplicateName(name),
            ) && final(self)@ == old(self)@,
            valid_name(name@) && !old(self)@.contains(name@) ==> r is Ok && final(self)@ == old(
                self,
            )@.push(name@),
    {
        let mut has_slash = false;
        let n = name.as_str().unicode_len();
        let mut k: usize = 0;
        while k < n
            invariant
                n == name@.len(),
                k <= n,
                has_slash == (exists|t: int| 0 <= t < k && name@[t] == '/'),
            decreases n - k,
        {
            if name.as_str().get_char(k) == '/' {
                has_slash = true;
            }
            k = k + 1;
        }
        assert(has_slash == name@.contains('/'));
        if n == 0 || has_slash {
            return Err(RouteError::InvalidName(name));
        }
        match self.find(name.as_str()) {
            Some(_) => Err(RouteError::DuplicateName(name)),
            None => {
                self.names.push(name);
                assert(self@ =~= old(self)@.push(name@));
                Ok(())
            },
        }
    }
}

/// Why a route table could not be built.
pub enum RouteError {
    /// A name that is empty or spans more than one path segment.
    InvalidName(String),
    /// A name given to two routes.
    DuplicateName(String),
}

pub open spec fn config_names(config: Seq<(String, HandlerSource)>) -> Seq<Seq<char>> {
    config.map_values(|e: (String, HandlerSource)| e.0@)
}

/// The first `k` names are usable and distinct.
pub open spec fn accepted_upto(ns: Seq<Seq<char>>, k: int) -> bool {
    &&& forall|i: int| 0 <= i < k ==> valid_name(#[trigger] ns[i])
    &&& distinct(ns.subrange(0, k))
}

/// The error for the first route, at position `k`, that cannot be added.
pub open spec fn rejects_at(config: Seq<(String, HandlerSource)>, k: int, e: RouteError) -> bool {
    let ns = config_names(config);
    &&& 0 <= k < config.len()
    &&& accepted_upto(ns, k)
    &&& if !valid_name(ns[k]) {
        e == RouteError::InvalidName(config[k].0)
    } else {
        ns.subrange(0, k).contains(ns[k]) && e == RouteError::DuplicateName(config[k].0)
    }
}

/// Builds the route table of one server instance from its configuration,
/// in order, classifying each handler source. Fails on the first route
/// whose name is unusable or taken, so that no partial table is served.
pub fn build_routes(config: Vec<(String, HandlerSource)>) -> (r: Result<
    (RouteTable, Vec<HandlerPlan>),
    RouteError,
>)
    ensures
        r is Ok <==> accepted_upto(config_names(config@), config@.len() as int),
        r matches Ok((t, plans)) ==> {
            &&& t.wf()
            &&& t@ == config_names(config@)
            &&& plans@.len() == config@.len()
            &&& forall|i: int| 0 <= i < config@.len() ==> plan_matches(config@[i].1, #[trigger] plans@[i])
        },
        r matches Err(e) ==> exists|k: int| rejects_at(config@, k, e),
{
    let ghost orig = config@;
    let ghost ns = config_names(orig);
    assert(orig.len() == config.len());
    let mut rest = config;
    let mut table = RouteTable::empty();
    let mut plans: Vec<HandlerPlan> = Vec::new();
    let mut i: usize = 0;
    while rest.len() > 0
        invariant
            ns == config_names(orig),
            i + rest@.len() == orig.len(),
            orig.len() <= usize::MAX,
            orig == config@,
            rest@ == orig.subrange(i as int, orig.len() as int),
            table.wf(),
            table@ == ns.subrange(0, i as int),
            accepted_upto(ns, i as int),
            plans@.len() == i,
            forall|t: int| 0 <= t < i ==> plan_matches(orig[t].1, #[trigger] plans@[t]),
        decreases rest.len(),
    {
        let (name, src) = rest.remove(0);
        assert(orig[i as int] == (name, src));
        assert(ns[i as int] == name@);
        let ghost before = table@;
        match table.add(name) {
            Err(e) => {
                proof {
                    assert(rejects_at(orig, i as int, e));
                    if valid_name(ns[i as int]) {
                        let j = choose|j: int| 0 <= j < i && ns.subrange(0, i as int)[j] == ns[i as int];
                        assert(ns.subrange(0, orig.len() as int)[j] == ns.subrange(
                            0,
                            orig.len() as int,
                        )[i as int]);
                    }
                    assert(!accepted_upto(ns, orig.len() as int));
                }
                return Err(e);
            },
            Ok(()) => {},
        }
        plans.push(plan_handler(src));
        proof {
            assert(ns.subrange(0, i as int + 1) =~= before.push(ns[i as int]));
        }
        i = i + 1;
    }
    assert(ns.subrange(0, i as int) =~= ns);
    Ok((table, plans))
}

} // verus!
