use playprobe::query::{build_queries, queries_to_string, without_sign, QuerySet};
use playprobe::signer::{
    generate_signature, probe_url_at, sign_queries_at, sign_query_at, ANDROID_APPKEY,
    ANDROID_SECKEY, BSTAR_A_APPKEY, BSTAR_A_SECKEY,
};

#[test]
fn canonical_string_is_sorted_and_joined() {
    let mut q = QuerySet::new();
    q.insert("b".to_string(), "2".to_string());
    q.insert("a".to_string(), "1".to_string());
    q.insert("c".to_string(), "3".to_string());
    assert_eq!(queries_to_string(&q), "a=1&b=2&c=3");
}

#[test]
fn canonical_string_of_empty_set_is_empty() {
    let q = QuerySet::new();
    assert_eq!(queries_to_string(&q), "");
}

#[test]
fn canonical_string_ignores_insertion_order() {
    let mut q1 = QuerySet::new();
    q1.insert("qn".to_string(), "0".to_string());
    q1.insert("area".to_string(), "cn".to_string());
    q1.insert("fnval".to_string(), "4048".to_string());
    let mut q2 = QuerySet::new();
    q2.insert("fnval".to_string(), "4048".to_string());
    q2.insert("qn".to_string(), "0".to_string());
    q2.insert("area".to_string(), "cn".to_string());
    assert_eq!(queries_to_string(&q1), queries_to_string(&q2));
}

#[test]
fn insert_replaces_an_existing_key() {
    let mut q = QuerySet::new();
    q.insert("a".to_string(), "1".to_string());
    q.insert("a".to_string(), "2".to_string());
    assert_eq!(q.len(), 1);
    assert_eq!(queries_to_string(&q), "a=2");
}

#[test]
fn signature_matches_reference_digest() {
    // digest of the empty input, through an empty parameter set and secret
    let q = QuerySet::new();
    let sig = generate_signature(&q, "");
    assert_eq!(sig, "d41d8cd98f00b204e9800998ecf8427e");
}

#[test]
fn signature_appends_secret_before_hashing() {
    let q = QuerySet::new();
    let sig = generate_signature(&q, "abcdefghijklmnopqrstuvwxyz");
    // digest quoted in the hash crate's documentation for this input
    assert_eq!(sig, "c3fcd3d76192e4007dfb496cca67e13b");
}

#[test]
fn sign_query_at_inserts_expected_parameters() {
    let mut q = QuerySet::new();
    sign_query_at(&mut q, "xyz", "sec", 7);
    let s = queries_to_string(&q);
    let expected_sig = format!("{:x}", md5::compute("appkey=xyz&ts=7sec"));
    assert_eq!(s, format!("appkey=xyz&sign={}&ts=7", expected_sig));
}

#[test]
fn signing_is_deterministic_at_a_fixed_timestamp() {
    let mut q1 = build_queries("cn", 266323, "KEY");
    let mut q2 = build_queries("cn", 266323, "KEY");
    sign_queries_at(&mut q1, "cn", 1000);
    sign_queries_at(&mut q2, "cn", 1000);
    assert_eq!(queries_to_string(&q1), queries_to_string(&q2));
}

#[test]
fn signing_twice_at_a_fixed_timestamp_changes_nothing() {
    let mut q = build_queries("tw", 285951, "KEY");
    sign_queries_at(&mut q, "tw", 99);
    let once = queries_to_string(&q);
    sign_queries_at(&mut q, "tw", 99);
    assert_eq!(queries_to_string(&q), once);
}

#[test]
fn signing_excludes_a_prior_sign_from_the_digest() {
    let mut q = QuerySet::new();
    q.insert("sign".to_string(), "stale".to_string());
    let stripped = without_sign(&q);
    assert_eq!(queries_to_string(&stripped), "");
    sign_query_at(&mut q, "xyz", "sec", 7);
    let expected_sig = format!("{:x}", md5::compute("appkey=xyz&ts=7sec"));
    assert_eq!(queries_to_string(&q), format!("appkey=xyz&sign={}&ts=7", expected_sig));
}

#[test]
fn signed_url_matches_a_manual_construction() {
    let url = probe_url_at("example.com", "cn", 266323, "KEY", 1000);
    let mut params = vec![
        "access_key=KEY".to_string(),
        format!("appkey={}", ANDROID_APPKEY),
        "area=cn".to_string(),
        "ep_id=266323".to_string(),
        "fnval=4048".to_string(),
        "fnver=0".to_string(),
        "fourk=1".to_string(),
        "platform=android".to_string(),
        "qn=0".to_string(),
        "ts=1000".to_string(),
    ];
    params.sort();
    let unsigned = params.join("&");
    let sig = format!("{:x}", md5::compute(format!("{}{}", unsigned, ANDROID_SECKEY)));
    params.push(format!("sign={}", sig));
    params.sort();
    let expected = format!(
        "https://example.com/pgc/player/api/playurl?{}",
        params.join("&")
    );
    assert_eq!(url, expected);
}

#[test]
fn alternate_region_uses_other_credentials_and_path() {
    let url = probe_url_at("example.com", "th", 377544, "KEY", 1000);
    assert!(url.starts_with("https://example.com/intl/gateway/v2/ogv/playurl?"));
    assert!(url.contains(&format!("appkey={}", BSTAR_A_APPKEY)));
    let mut params = vec![
        "access_key=KEY".to_string(),
        format!("appkey={}", BSTAR_A_APPKEY),
        "s_locale=zh_SG".to_string(),
        "ep_id=377544".to_string(),
        "fnval=4048".to_string(),
        "fnver=0".to_string(),
        "fourk=1".to_string(),
        "platform=android".to_string(),
        "qn=0".to_string(),
        "ts=1000".to_string(),
    ];
    params.sort();
    let unsigned = params.join("&");
    let sig = format!("{:x}", md5::compute(format!("{}{}", unsigned, BSTAR_A_SECKEY)));
    assert!(url.contains(&format!("sign={}", sig)));
}

#[test]
fn alternate_region_gets_locale_and_no_area() {
    let q = build_queries("th", 377544, "KEY");
    let s = queries_to_string(&q);
    assert!(s.contains("s_locale=zh_SG"));
    assert!(!s.contains("area="));
}

#[test]
fn ordinary_region_gets_area_and_no_locale() {
    for area in ["cn", "hk", "tw"] {
        let q = build_queries(area, 1, "KEY");
        let s = queries_to_string(&q);
        assert!(s.contains(&format!("area={}", area)));
        assert!(!s.contains("s_locale"));
    }
}
