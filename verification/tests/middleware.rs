use cachecore::middleware::CacheInvalidationMiddleware;
use cachecore::middleware::Method;
use cachecore::middleware::Response;
use cachecore::middleware::invalidate_cache_for_path;
use cachecore::service::CacheService;
use cachecore::service::FaultyCacheService;
use cachecore::service::NoOpCacheService;
use cachecore::service::StoreCacheService;
use cachecore::store::KvStore;
use cachecore::typed::TypedCache;

fn seeded_middleware() -> CacheInvalidationMiddleware<StoreCacheService> {
    let mut svc = StoreCacheService::new(KvStore::new());
    svc.set_string("org:id:1", "1", Some(0)).unwrap();
    svc.set_string("org:list:abc", "2", Some(0)).unwrap();
    svc.set_string("cc:id:1", "3", Some(0)).unwrap();
    CacheInvalidationMiddleware::new(TypedCache::new(svc))
}

#[test]
fn successful_post_invalidates_the_organisation_family() {
    let mut mw = seeded_middleware();
    let res = mw.on_response(
        Method::Post,
        "/organisation/create",
        Response { success: true, body: "created" },
    );
    assert!(res.success);
    assert_eq!(res.body, "created");
    assert_eq!(mw.cache().key_exists("org:id:1"), Ok(false));
    assert_eq!(mw.cache().key_exists("org:list:abc"), Ok(false));
    assert_eq!(mw.cache().key_exists("cc:id:1"), Ok(true));
}

#[test]
fn get_never_invalidates() {
    let mut mw = seeded_middleware();
    let res = mw.on_response(
        Method::Get,
        "/organisation/list",
        Response { success: true, body: () },
    );
    assert!(res.success);
    assert_eq!(mw.cache().key_exists("org:id:1"), Ok(true));
    assert_eq!(mw.cache().key_exists("org:list:abc"), Ok(true));
    assert_eq!(mw.cache().key_exists("cc:id:1"), Ok(true));
}

#[test]
fn failed_post_does_not_invalidate() {
    let mut mw = seeded_middleware();
    let res = mw.on_response(
        Method::Post,
        "/organisation/create",
        Response { success: false, body: () },
    );
    assert!(!res.success);
    assert_eq!(mw.cache().key_exists("org:id:1"), Ok(true));
    assert_eq!(mw.cache().key_exists("cc:id:1"), Ok(true));
}

#[test]
fn delete_on_country_connection_invalidates_its_family_only() {
    let mut mw = seeded_middleware();
    let res = mw.on_response(
        Method::Delete,
        "/country-connection/1",
        Response { success: true, body: () },
    );
    assert!(res.success);
    assert_eq!(mw.cache().key_exists("org:id:1"), Ok(true));
    assert_eq!(mw.cache().key_exists("cc:id:1"), Ok(false));
}

#[test]
fn unrelated_path_invalidates_nothing() {
    let mut mw = seeded_middleware();
    mw.on_response(Method::Put, "/healthcheck", Response { success: true, body: () });
    assert_eq!(mw.cache().key_exists("org:id:1"), Ok(true));
    assert_eq!(mw.cache().key_exists("cc:id:1"), Ok(true));
}

#[test]
fn invalidation_failure_leaves_the_response_untouched() {
    let mut mw = CacheInvalidationMiddleware::new(TypedCache::new(FaultyCacheService::default()));
    let res = mw.on_response(
        Method::Post,
        "/organisation/create",
        Response { success: true, body: "payload" },
    );
    assert!(res.success);
    assert_eq!(res.body, "payload");
}

#[test]
fn invalidate_cache_for_path_swallows_store_errors() {
    let mut cache = TypedCache::new(FaultyCacheService::default());
    let r = invalidate_cache_for_path(&mut cache, &Method::Post, "/organisation/create");
    assert_eq!(r, Ok(()));
}

#[test]
fn invalidate_cache_for_path_short_circuits_on_get() {
    let mut svc = StoreCacheService::new(KvStore::new());
    svc.set_string("org:id:1", "1", Some(0)).unwrap();
    let mut cache = TypedCache::new(svc);
    let r = invalidate_cache_for_path(&mut cache, &Method::Get, "/organisation/create");
    assert_eq!(r, Ok(()));
    assert_eq!(cache.key_exists("org:id:1"), Ok(true));
}

#[test]
fn no_op_cache_invalidation() {
    let no_op_service = NoOpCacheService::default();
    let mut typed_cache_mw = CacheInvalidationMiddleware::new(TypedCache::new(no_op_service));
    let res = typed_cache_mw.on_response(Method::Get, "/", Response { success: true, body: () });
    assert!(res.success);
}
