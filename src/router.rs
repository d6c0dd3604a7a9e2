//! The route table: patterns such as `/json/{id}/{name}` become anchored
//! regular expressions with one named capture per `{name}`; a path is
//! matched against the routes in the order they were registered.
use vstd::prelude::*;
use vstd::string::StringExecFns;
use vstd::string::StrSliceExecFns;
use crate::utils::{str_eq, Method};

verus! {

/// What the `regex` crate finds when `text` is matched against `pattern`:
/// nothing when the pattern does not compile or does not match, else the
/// named groups that took part in the match, each with the text it took.
pub uninterp spec fn regex_captures_of(pattern: Seq<char>, text: Seq<char>) -> Option<Seq<(Seq<char>, Seq<char>)>>;

/// Relies on `regex::Regex::new`, `Regex::captures` and
/// `Regex::capture_names`: compiles `pattern`, matches `text` against it,
/// and lists the named groups of the match with the text each took.
#[verifier::external_body]
fn regex_captures(pattern: &str, text: &str) -> (r: Option<Vec<(String, String)>>)
    ensures
        r matches Some(v) ==> regex_captures_of(pattern@, text@) == Some(v@.map_values(|p: (String, String)| (p.0@, p.1@))),
        r is None ==> regex_captures_of(pattern@, text@) is None,
{
    let re = match regex::Regex::new(pattern) {
        Ok(re) => re,
        Err(_) => return None,
    };
    let caps = re.captures(text)?;
    let mut out = Vec::new();
    for name in re.capture_names().flatten() {
        if let Some(m) = caps.name(name) {
            out.push((name.to_string(), m.as_str().to_string()));
        }
    }
    Some(out)
}

/// Whether a character may stand in the name of a path parameter.
pub open spec fn is_name_char(c: char) -> bool {
    ('a' <= c && c <= 'z') || ('A' <= c && c <= 'Z') || ('0' <= c && c <= '9') || c == '_'
}

/// Number of name characters at the start of `s`.
pub open spec fn name_run(s: Seq<char>) -> nat
    decreases s.len(),
{
    if s.len() > 0 && is_name_char(s[0]) {
        1 + name_run(s.drop_first())
    } else {
        0
    }
}

/// The named capture group that stands for parameter `name`: one or more
/// printable ASCII characters.
pub open spec fn capture_group(name: Seq<char>) -> Seq<char> {
    "(?P<"@ + name + ">[ -~]+)"@
}

/// A pattern with each `{name}` replaced by its capture group, scanning
/// from the left.
pub open spec fn expand_pattern(s: Seq<char>) -> Seq<char>
    decreases s.len(),
{
    if s.len() == 0 {
        Seq::empty()
    } else if s[0] == '{' && name_run(s.drop_first()) > 0 && name_run(s.drop_first()) + 1 < s.len()
        && s[name_run(s.drop_first()) + 1int] == '}' {
        let k = name_run(s.drop_first()) as int;
        capture_group(s.subrange(1, k + 1)) + expand_pattern(s.subrange(k + 2, s.len() as int))
    } else {
        seq![s[0]] + expand_pattern(s.drop_first())
    }
}

/// The regular expression registered for a route pattern, anchored at
/// both ends.
pub open spec fn route_regex(url: Seq<char>) -> Seq<char> {
    "^"@ + expand_pattern(url) + "$"@
}

proof fn lemma_name_run(t: Seq<char>, k: int)
    requires
        0 <= k <= t.len(),
        forall|m: int| 0 <= m < k ==> is_name_char(#[trigger] t[m]),
        k == t.len() || !is_name_char(t[k]),
    ensures
        name_run(t) == k,
    decreases k,
{
    if k > 0 {
        lemma_name_run(t.drop_first(), k - 1);
    }
}

/// The regular expression for a route pattern.
pub fn route_pattern(url: &str) -> (r: String)
    ensures
        r@ == route_regex(url@),
{
    let n = url.unicode_len();
    let ghost s = url@;
    let mut out = String::from_str("^");
    let mut lit: usize = 0;
    let mut i: usize = 0;
    proof {
        assert(s.subrange(0, n as int) =~= s);
        assert(out@ + s.subrange(0, 0) + expand_pattern(s.subrange(0, n as int)) + "$"@ =~= route_regex(s));
    }
    while i < n
        invariant
            n == s.len(),
            s == url@,
            lit <= i <= n,
            route_regex(s) == out@ + s.subrange(lit as int, i as int) + expand_pattern(
                s.subrange(i as int, n as int),
            ) + "$"@,
        decreases n - i,
    {
        let ghost rest = s.subrange(i as int, n as int);
        let c = url.get_char(i);
        let mut j: usize = i + 1;
        if c == '{' {
            while j < n
                invariant
                    i < j <= n,
                    n == s.len(),
                    s == url@,
                    forall|m: int| i + 1 <= m < j ==> is_name_char(#[trigger] s[m]),
                ensures
                    i < j <= n,
                    forall|m: int| i + 1 <= m < j ==> is_name_char(#[trigger] s[m]),
                    j == n || !is_name_char(s[j as int]),
                decreases n - j,
            {
                let d = url.get_char(j);
                if !(('a' <= d && d <= 'z') || ('A' <= d && d <= 'Z') || ('0' <= d && d <= '9') || d == '_') {
                    break;
                }
                j = j + 1;
            }
        }
        proof {
            assert(rest.drop_first() =~= s.subrange(i + 1, n as int));
            if c == '{' {
                let t = s.subrange(i + 1, n as int);
                assert forall|m: int| 0 <= m < j - i - 1 implies is_name_char(#[trigger] t[m]) by {
                    assert(t[m] == s[i + 1 + m]);
                }
                lemma_name_run(t, j - i - 1);
            }
        }
        if c == '{' && j > i + 1 && j < n && url.get_char(j) == '}' {
            out.append(url.substring_char(lit, i));
            out.append("(?P<");
            out.append(url.substring_char(i + 1, j));
            out.append(">[ -~]+)");
            proof {
                let k = (j - i - 1) as int;
                assert(rest[0] == '{');
                assert(rest[k + 1] == '}');
                assert(rest.subrange(1, k + 1) =~= s.subrange(i + 1, j as int));
                assert(rest.subrange(k + 2, rest.len() as int) =~= s.subrange(j + 1, n as int));
                assert(s.subrange(j + 1, j + 1) =~= Seq::<char>::empty());
            }
            i = j + 1;
            lit = i;
            proof {
                assert(s.subrange(lit as int, i as int) =~= Seq::<char>::empty());
            }
        } else {
            proof {
                assert(rest[0] == c);
                assert(s.subrange(lit as int, i + 1) =~= s.subrange(lit as int, i as int).push(c));
                assert(seq![c] + expand_pattern(rest.drop_first()) =~= seq![c] + expand_pattern(
                    s.subrange(i + 1, n as int),
                ));
            }
            i = i + 1;
        }
    }
    out.append(url.substring_char(lit, n));
    out.append("$");
    proof {
        assert(s.subrange(n as int, n as int) =~= Seq::<char>::empty());
    }
    out
}

/// The methods a route allows.
pub struct Route {
    pub methods: Vec<Method>,
}

/// The methods a route is registered with: those given, or `GET` alone
/// when none is given.
pub open spec fn allowed_methods(given: Seq<Method>) -> Seq<Method> {
    if given.len() == 0 {
        seq![Method::GET]
    } else {
        given
    }
}

impl Route {
    /// A route allowing `methods`, or `GET` alone when `methods` is empty.
    pub fn new(methods: Vec<Method>) -> (r: Route)
        ensures
            r.methods@ == allowed_methods(methods@),
    {
        let mut methods = methods;
        if methods.len() == 0 {
            methods.push(Method::GET);
            proof {
                assert(methods@ =~= seq![Method::GET]);
            }
        }
        Route { methods }
    }

    /// Whether the route allows `method`.
    pub fn allows(&self, method: Method) -> (r: bool)
        ensures
            r == self.methods@.contains(method),
    {
        let mut i: usize = 0;
        while i < self.methods.len()
            invariant
                i <= self.methods@.len(),
                forall|j: int| 0 <= j < i ==> self.methods@[j] != method,
            decreases self.methods@.len() - i,
        {
            if self.methods[i] == method {
                proof {
                    assert(self.methods@[i as int] == method);
                }
                return true;
            }
            i = i + 1;
        }
        false
    }
}

/// The route that a path matched, with the path parameters it carried.
pub struct RouteMatch {
    /// Position of the route in the table.
    pub index: usize,
    /// Each named parameter with the text it took.
    pub params: Vec<(String, String)>,
}

/// Pairs of strings as pairs of character sequences.
pub open spec fn pairs_view(v: Seq<(String, String)>) -> Seq<(Seq<char>, Seq<char>)> {
    v.map_values(|p: (String, String)| (p.0@, p.1@))
}

/// The route table, in registration order.
pub struct URLRouter {
    router: Vec<(String, Route)>,
}

impl URLRouter {
    /// The compiled patterns, in registration order.
    pub closed spec fn patterns(&self) -> Seq<Seq<char>> {
        self.router@.map_values(|e: (String, Route)| e.0@)
    }

    /// The methods of each route, in registration order.
    pub closed spec fn methods(&self) -> Seq<Seq<Method>> {
        self.router@.map_values(|e: (String, Route)| e.1.methods@)
    }

    /// No pattern is registered twice.
    pub closed spec fn wf(&self) -> bool {
        forall|i: int, j: int|
            0 <= i < self.router@.len() && 0 <= j < self.router@.len() && i != j ==> #[trigger] self.router@[i].0@
                != #[trigger] self.router@[j].0@
    }

    /// An empty table.
    pub fn new() -> (r: URLRouter)
        ensures
            r.wf(),
            r.patterns().len() == 0,
    {
        URLRouter { router: Vec::new() }
    }

    /// Position of the route compiled to `pattern`, if any.
    fn position(&self, pattern: &String) -> (r: Option<usize>)
        requires
            self.wf(),
        ensures
            r matches Some(i) ==> i < self.patterns().len() && self.patterns()[i as int] == pattern@,
            r is None ==> forall|j: int| 0 <= j < self.patterns().len() ==> self.patterns()[j] != pattern@,
    {
        let mut i: usize = 0;
        while i < self.router.len()
            invariant
                i <= self.router@.len(),
                forall|j: int| 0 <= j < i ==> self.router@[j].0@ != pattern@,
            decreases self.router@.len() - i,
        {
            if self.router[i].0 == *pattern {
                return Some(i);
            }
            i = i + 1;
        }
        None
    }

    /// Registers `route` under the pattern `url`, replacing the route of the
    /// same pattern; returns the route's position.
    pub fn add_route(&mut self, url: &str, route: Route) -> (r: usize)
        requires
            old(self).wf(),
        ensures
            final(self).wf(),
            r < final(self).patterns().len(),
            final(self).patterns()[r as int] == route_regex(url@),
            final(self).methods()[r as int] == route.methods@,
            old(self).patterns().contains(route_regex(url@)) ==> final(self).patterns() == old(self).patterns()
                && final(self).methods() == old(self).methods().update(r as int, route.methods@),
            !old(self).patterns().contains(route_regex(url@)) ==> final(self).patterns() == old(self).patterns().push(
                route_regex(url@),
            ) && final(self).methods() == old(self).methods().push(route.methods@),
    {
        let pattern = route_pattern(url);
        let ghost pv = pattern@;
        let ghost rm = route.methods@;
        match self.position(&pattern) {
            Some(i) => {
                self.router.set(i, (pattern, route));
                proof {
                    assert(self.patterns() =~= old(self).patterns());
                    assert(self.methods() =~= old(self).methods().update(i as int, rm));
                    assert forall|a: int, b: int|
                        0 <= a < self.router@.len() && 0 <= b < self.router@.len() && a != b implies #[trigger] self.router@[a].0@
                        != #[trigger] self.router@[b].0@ by {
                        assert(self.patterns()[a] == self.router@[a].0@);
                        assert(self.patterns()[b] == self.router@[b].0@);
                        assert(old(self).patterns()[a] == old(self).router@[a].0@);
                        assert(old(self).patterns()[b] == old(self).router@[b].0@);
                    }
                }
                i
            },
            None => {
                self.router.push((pattern, route));
                proof {
                    assert(self.patterns() =~= old(self).patterns().push(pv));
                    assert(self.methods() =~= old(self).methods().push(rm));
                    assert(!old(self).patterns().contains(pv)) by {
                        if old(self).patterns().contains(pv) {
                            let j = choose|j: int| 0 <= j < old(self).patterns().len() && old(self).patterns()[j] == pv;
                            assert(old(self).patterns()[j] == pv);
                        }
                    }
                    assert forall|a: int, b: int|
                        0 <= a < self.router@.len() && 0 <= b < self.router@.len() && a != b implies #[trigger] self.router@[a].0@
                        != #[trigger] self.router@[b].0@ by {
                        let n = old(self).router@.len() as int;
                        if a < n {
                            assert(old(self).patterns()[a] == self.router@[a].0@);
                        }
                        if b < n {
                            assert(old(self).patterns()[b] == self.router@[b].0@);
                        }
                    }
                }
                self.router.len() - 1
            },
        }
    }

    /// Removes the route registered under the pattern `url`; returns the
    /// position it had.
    pub fn remove_route(&mut self, url: &str) -> (r: Option<usize>)
        requires
            old(self).wf(),
        ensures
            final(self).wf(),
            r is None <==> !old(self).patterns().contains(route_regex(url@)),
            r is None ==> final(self).patterns() == old(self).patterns(),
            r matches Some(i) ==> old(self).patterns()[i as int] == route_regex(url@)
                && final(self).patterns() == old(self).patterns().remove(i as int)
                && final(self).methods() == old(self).methods().remove(i as int),
    {
        let pattern = route_pattern(url);
        match self.position(&pattern) {
            Some(i) => {
                self.router.remove(i);
                proof {
                    assert(self.patterns() =~= old(self).patterns().remove(i as int));
                    assert(self.methods() =~= old(self).methods().remove(i as int));
                    assert forall|a: int, b: int|
                        0 <= a < self.router@.len() && 0 <= b < self.router@.len() && a != b implies #[trigger] self.router@[a].0@
                        != #[trigger] self.router@[b].0@ by {
                        let a2 = if a < i { a } else { a + 1 };
                        let b2 = if b < i { b } else { b + 1 };
                        assert(self.router@[a] == old(self).router@[a2]);
                        assert(self.router@[b] == old(self).router@[b2]);
                    }
                }
                Some(i)
            },
            None => {
                proof {
                    assert(!old(self).patterns().contains(pattern@)) by {
                        if old(self).patterns().contains(pattern@) {
                            let j = choose|j: int| 0 <= j < old(self).patterns().len() && old(self).patterns()[j] == pattern@;
                            assert(old(self).patterns()[j] == pattern@);
                        }
                    }
                }
                None
            },
        }
    }

    /// The route at `index`.
    pub fn route(&self, index: usize) -> (r: &Route)
        requires
            index < self.patterns().len(),
        ensures
            r.methods@ == self.methods()[index as int],
    {
        &self.router[index].1
    }

    /// Number of routes.
    pub fn len(&self) -> (r: usize)
        ensures
            r == self.patterns().len(),
    {
        self.router.len()
    }

    /// The first route, in registration order, whose pattern matches `url`
    /// as a whole, with the path parameters of the match.
    pub fn get_route(&self, url: &str) -> (r: Option<RouteMatch>)
        ensures
            r matches Some(m) ==> m.index < self.patterns().len() && regex_captures_of(
                self.patterns()[m.index as int],
                url@,
            ) == Some(pairs_view(m.params@)) && forall|j: int|
                0 <= j < m.index ==> regex_captures_of(self.patterns()[j], url@) is None,
            r is None ==> forall|j: int|
                0 <= j < self.patterns().len() ==> regex_captures_of(self.patterns()[j], url@) is None,
    {
        let mut i: usize = 0;
        while i < self.router.len()
            invariant
                i <= self.router@.len(),
                forall|j: int| 0 <= j < i ==> regex_captures_of(self.patterns()[j], url@) is None,
            decreases self.router@.len() - i,
        {
            proof {
                assert(self.patterns()[i as int] == self.router@[i as int].0@);
            }
            match regex_captures(self.router[i].0.as_str(), url) {
                Some(params) => {
                    proof {
                        assert(pairs_view(params@) =~= params@.map_values(|p: (String, String)| (p.0@, p.1@)));
                    }
                    return Some(RouteMatch { index: i, params });
                },
                None => {},
            }
            i = i + 1;
        }
        None
    }
}

} // verus!
