use vstd::prelude::*;
use crate::error::CacheError;
use crate::keys::CacheKeys;
use crate::keys::pattern_cc;
use crate::keys::pattern_org;
use crate::service::CacheService;
use crate::store::StoredValue;
use crate::store::remove_matching;
use crate::text::contains_seq;
use crate::text::contains_substr;
use crate::typed::TypedCache;

verus! {

/// An HTTP request method, as far as cache invalidation reads it.
#[derive(Clone, Copy, Debug, PartialEq, Eq, Structural)]
pub enum Method {
    Get,
    Post,
    Put,
    Delete,
    Other,
}

/// The verbs that may mutate server state and so trigger invalidation;
/// explicitly not `Get`.
pub open spec fn is_mutating(m: Method) -> bool {
    m == Method::Post || m == Method::Put || m == Method::Delete
}

/// What an HTTP response looks like to the middleware: a success
/// indicator, and the response itself, which the middleware never alters
/// or interprets further.
pub struct Response<B> {
    pub success: bool,
    pub body: B,
}

/// The path fragment of the organisation resource family.
pub open spec fn org_fragment() -> Seq<char> {
    seq!['/', 'o', 'r', 'g', 'a', 'n', 'i', 's', 'a', 't', 'i', 'o', 'n']
}

/// The path fragment of the country-connection resource family.
pub open spec fn cc_fragment() -> Seq<char> {
    seq![
        '/',
        'c',
        'o',
        'u',
        'n',
        't',
        'r',
        'y',
        '-',
        'c',
        'o',
        'n',
        'n',
        'e',
        'c',
        't',
        'i',
        'o',
        'n',
    ]
}

/// The store contents after the invalidation rules run for one request:
/// a read never invalidates; otherwise each rule whose path fragment
/// occurs in the path purges its family's pattern, in rule order.
pub open spec fn rules_applied(
    m: Map<Seq<char>, StoredValue>,
    now: u64,
    method: Method,
    path: Seq<char>,
) -> Map<Seq<char>, StoredValue> {
    if method == Method::Get {
        m
    } else {
        let m1 = if contains_seq(path, org_fragment()) {
            remove_matching(m, now, pattern_org())
        } else {
            m
        };
        if contains_seq(path, cc_fragment()) {
            remove_matching(m1, now, pattern_cc())
        } else {
            m1
        }
    }
}

/// Purges the cache regions whose invalidation rules match the request
/// path. A read never invalidates, and store failures are swallowed: the
/// result is always success.
pub fn invalidate_cache_for_path<S: CacheService>(
    cache_service: &mut TypedCache<S>,
    method: &Method,
    path: &str,
) -> (r: Result<(), CacheError>)
    requires
        old(cache_service).wf(),
    ensures
        final(cache_service).wf(),
        final(cache_service).now() == old(cache_service).now(),
        final(cache_service).default_ttl() == old(cache_service).default_ttl(),
        r is Ok,
        *method == Method::Get ==> final(cache_service).contents() == old(
            cache_service,
        ).contents(),
        !S::persists() ==> final(cache_service).contents() == old(cache_service).contents(),
        (S::total() && S::persists()) ==> final(cache_service).contents() == rules_applied(
            old(cache_service).contents(),
            old(cache_service).now(),
            *method,
            path@,
        ),
{
    if *method == Method::Get {
        return Result::Ok(());
    }
    proof {
        reveal_strlit("/organisation");
        assert("/organisation"@ =~= org_fragment());
        reveal_strlit("/country-connection");
        assert("/country-connection"@ =~= cc_fragment());
    }
    if contains_substr(path, "/organisation") {
        let p = CacheKeys::organisation_pattern();
        let _ = cache_service.invalidate_pattern(p.as_str());
    }
    if contains_substr(path, "/country-connection") {
        let p = CacheKeys::country_connection_pattern();
        let _ = cache_service.invalidate_pattern(p.as_str());
    }
    Result::Ok(())
}

/// Wraps request handling: after the inner handler completes, a
/// successful mutating request triggers pattern invalidation through the
/// typed cache; the response passes through unaltered either way.
pub struct CacheInvalidationMiddleware<S> {
    cache_service: TypedCache<S>,
}

impl<S: CacheService> CacheInvalidationMiddleware<S> {
    /// The stored entries of the wrapped cache.
    pub closed spec fn contents(&self) -> Map<Seq<char>, StoredValue> {
        self.cache_service.contents()
    }

    /// The clock of the wrapped cache.
    pub closed spec fn now(&self) -> u64 {
        self.cache_service.now()
    }

    /// The default time-to-live of the wrapped cache.
    pub closed spec fn default_ttl(&self) -> u64 {
        self.cache_service.default_ttl()
    }

    /// The invariant of the wrapped cache.
    pub closed spec fn wf(&self) -> bool {
        self.cache_service.wf()
    }

    /// Wraps a typed cache.
    pub fn new(cache_service: TypedCache<S>) -> (r: Self)
        ensures
            r.wf() == cache_service.wf(),
            r.contents() == cache_service.contents(),
            r.now() == cache_service.now(),
            r.default_ttl() == cache_service.default_ttl(),
    {
        CacheInvalidationMiddleware { cache_service }
    }

    /// The wrapped cache, for observing what invalidation left behind.
    pub fn cache(&self) -> (r: &TypedCache<S>)
        ensures
            r.wf() == self.wf(),
            r.contents() == self.contents(),
            r.now() == self.now(),
            r.default_ttl() == self.default_ttl(),
    {
        &self.cache_service
    }

    /// Observes a completed request. If the response is a success and the
    /// method is mutating, the invalidation rules run; an invalidation
    /// failure is swallowed. The response comes back unaltered in every
    /// case: a cache failure never turns a successful response into an
    /// error.
    pub fn on_response<B>(&mut self, method: Method, path: &str, response: Response<B>) -> (r:
        Response<B>)
        requires
            old(self).wf(),
        ensures
            r == response,
            final(self).wf(),
            final(self).now() == old(self).now(),
            final(self).default_ttl() == old(self).default_ttl(),
            (!response.success || !is_mutating(method)) ==> final(self).contents()
                == old(self).contents(),
            !S::persists() ==> final(self).contents() == old(self).contents(),
            (S::total() && S::persists() && response.success && is_mutating(method))
                ==> final(self).contents() == rules_applied(
                old(self).contents(),
                old(self).now(),
                method,
                path@,
            ),
    {
        if response.success && (method == Method::Post || method == Method::Put || method
            == Method::Delete) {
            let _ = invalidate_cache_for_path(&mut self.cache_service, &method, path);
        }
        response
    }
}

} // verus!
