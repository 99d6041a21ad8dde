use cachecore::codec::Codec;
use cachecore::glob::glob_matches;
use cachecore::keys::CacheKeys;
use cachecore::keys::CountriesListQueryParams;
use cachecore::keys::uuid_string;

#[test]
fn organisation_keys_have_the_documented_shape() {
    let id: u128 = 0x123e4567_e89b_12d3_a456_426614174000;
    assert_eq!(
        CacheKeys::organisation_by_id(id),
        "org:id:123e4567-e89b-12d3-a456-426614174000"
    );
    assert_eq!(CacheKeys::organisations_list("abc123"), "org:list:abc123");
    assert_eq!(CacheKeys::organisation_pattern(), "org:*");
    assert_eq!(CacheKeys::organisation_count(), "org:count");
}

#[test]
fn country_connection_keys_have_the_documented_shape() {
    let id: u128 = 0x123e4567_e89b_12d3_a456_426614174000;
    assert_eq!(
        CacheKeys::country_connection_by_id(id),
        "cc:id:123e4567-e89b-12d3-a456-426614174000"
    );
    assert_eq!(CacheKeys::country_connections_list("h9"), "cc:list:h9");
    assert_eq!(CacheKeys::country_connection_pattern(), "cc:*");
}

#[test]
fn key_building_is_deterministic() {
    let id: u128 = 7;
    assert_eq!(
        CacheKeys::organisation_by_id(id),
        CacheKeys::organisation_by_id(id)
    );
    assert_eq!(
        CacheKeys::organisations_list("x"),
        CacheKeys::organisations_list("x")
    );
}

#[test]
fn identifier_formatting_pads_every_group() {
    assert_eq!(uuid_string(0), "00000000-0000-0000-0000-000000000000");
    assert_eq!(uuid_string(u128::MAX), "ffffffff-ffff-ffff-ffff-ffffffffffff");
    assert_eq!(uuid_string(1), "00000000-0000-0000-0000-000000000001");
}

#[test]
fn family_patterns_match_their_own_keys_only() {
    let id: u128 = 9;
    let org_key = CacheKeys::organisation_by_id(id);
    let org_list = CacheKeys::organisations_list("h");
    let cc_key = CacheKeys::country_connection_by_id(id);
    let pat_org = CacheKeys::organisation_pattern();
    let pat_cc = CacheKeys::country_connection_pattern();
    assert!(glob_matches(&pat_org, &org_key));
    assert!(glob_matches(&pat_org, &org_list));
    assert!(glob_matches(&pat_org, &CacheKeys::organisation_count()));
    assert!(!glob_matches(&pat_org, &cc_key));
    assert!(glob_matches(&pat_cc, &cc_key));
    assert!(!glob_matches(&pat_cc, &org_key));
    assert!(!glob_matches(&pat_cc, &org_list));
}

#[test]
fn glob_wildcards_behave_like_the_store_documents() {
    assert!(glob_matches("*", ""));
    assert!(glob_matches("*", "anything"));
    assert!(glob_matches("a*c", "abc"));
    assert!(glob_matches("a*c", "ac"));
    assert!(glob_matches("a*c", "axxxc"));
    assert!(!glob_matches("a*c", "ab"));
    assert!(glob_matches("a?c", "abc"));
    assert!(!glob_matches("a?c", "ac"));
    assert!(!glob_matches("abc", "abd"));
    assert!(glob_matches("abc", "abc"));
}

#[test]
fn sanitize_key_strips_and_lowercases() {
    assert_eq!(CacheKeys::sanitize_key("Hello, World!"), "helloworld");
    assert_eq!(CacheKeys::sanitize_key("A-b_c.d"), "a-b_cd");
    assert_eq!(CacheKeys::sanitize_key("org:id:*"), "orgid");
    assert_eq!(CacheKeys::sanitize_key(""), "");
    assert_eq!(CacheKeys::sanitize_key("Ümlaut Straße"), "ümlautstraße");
}

#[test]
fn versioned_key_joins_base_and_version() {
    assert_eq!(CacheKeys::versioned_key("org:list:abc", "2"), "org:list:abc:v:2");
}

#[test]
fn u64_codec_round_trips() {
    for n in [0u64, 1, 9, 10, 42, 1000, u64::MAX] {
        let encoded = n.encode().unwrap();
        assert_eq!(u64::decode(&encoded), Some(n));
    }
    assert_eq!(0u64.encode().unwrap(), "0");
    assert_eq!(42u64.encode().unwrap(), "42");
    assert_eq!(u64::MAX.encode().unwrap(), "18446744073709551615");
}

#[test]
fn u64_codec_rejects_malformed_payloads() {
    assert_eq!(u64::decode(""), None);
    assert_eq!(u64::decode("007"), None);
    assert_eq!(u64::decode("-1"), None);
    assert_eq!(u64::decode("4 2"), None);
    assert_eq!(u64::decode("abc"), None);
    assert_eq!(u64::decode("18446744073709551616"), None);
    assert_eq!(u64::decode("99999999999999999999"), None);
    assert_eq!(u64::decode("18446744073709551615"), Some(u64::MAX));
    assert_eq!(u64::decode("0"), Some(0));
}

#[test]
fn bool_codec_round_trips_and_rejects() {
    assert_eq!(true.encode().unwrap(), "true");
    assert_eq!(false.encode().unwrap(), "false");
    assert_eq!(bool::decode("true"), Some(true));
    assert_eq!(bool::decode("false"), Some(false));
    assert_eq!(bool::decode("True"), None);
    assert_eq!(bool::decode(""), None);
}

#[test]
fn filter_hash_is_deterministic_and_distinguishing() {
    let q = CountriesListQueryParams { limit: Some(10), offset: None };
    assert_eq!(q.filter_hash(), "limit:10:offset:none");
    assert_eq!(q.filter_hash(), q.filter_hash());
    let q2 = CountriesListQueryParams { limit: Some(-5), offset: Some(0) };
    assert_eq!(q2.filter_hash(), "limit:-5:offset:0");
    assert_ne!(q.filter_hash(), q2.filter_hash());
    assert_eq!(
        CacheKeys::organisations_list(&q.filter_hash()),
        "org:list:limit:10:offset:none"
    );
}

#[test]
fn different_identities_give_different_keys() {
    assert_ne!(
        CacheKeys::organisation_by_id(1),
        CacheKeys::organisation_by_id(2)
    );
    assert_ne!(
        CacheKeys::organisation_by_id(7),
        CacheKeys::country_connection_by_id(7)
    );
    assert_ne!(
        CacheKeys::organisations_list("a"),
        CacheKeys::organisations_list("b")
    );
    assert_ne!(
        CacheKeys::organisations_list("x"),
        CacheKeys::organisation_count()
    );
}
