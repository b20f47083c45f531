use vstd::prelude::*;

verus! {

use crate::query::{QuerySet, canonical_of, pairs_insert, strip_sign, without_sign,
    queries_to_string, base_queries_spec, build_queries, map_of};
use crate::strings::{dec_str, u128_to_string, str_eq, all_lower_hex};

/// The fixed browser-style identification string presented to the server.
pub const USER_AGENT: &'static str =
    "Mozilla/5.0 (Windows NT 10.0) AppleWebKit/537.36 (KHTML, like Gecko) Chrome/105.0.0.0 Safari/537.36";

/// The credential pair used for every region but the alternate one.
pub const ANDROID_APPKEY: &'static str = "1d8b6e7d45233436";

pub const ANDROID_SECKEY: &'static str = "560c52ccd288fed045859ed18bffd973";

/// The credential pair used for the alternate region `th`.
pub const BSTAR_A_APPKEY: &'static str = "7d089525d3611b1c";

pub const BSTAR_A_SECKEY: &'static str = "acd495b248ec528c2eed1e862d393126";

/// The request path used for every region but the alternate one.
pub const PLAYURL_ANDROID: &'static str = "pgc/player/api/playurl";

/// The request path used for the alternate region `th`.
pub const PLAYURL_BSTAR_A: &'static str = "intl/gateway/v2/ogv/playurl";

/// Name for the MD5 digest of a string's bytes, rendered as lowercase
/// hexadecimal: a pure function of the string alone.
pub uninterp spec fn md5_hex_of(s: Seq<char>) -> Seq<char>;

/// Relies on md5::compute and the `LowerHex` rendering of its digest: the
/// digest of the string's bytes depends on the string alone, and its
/// rendering is two lowercase hexadecimal characters per digest byte,
/// 32 in all.
#[verifier::external_body]
fn md5_hex(s: &str) -> (r: String)
    ensures
        r@ == md5_hex_of(s@),
        r@.len() == 32,
        all_lower_hex(r@),
{
    format!("{:x}", md5::compute(s.as_bytes()))
}

/// Relies on std::time::SystemTime::now for the current Unix time in whole
/// seconds; the result depends on the wall clock, so nothing is promised of it.
#[verifier::external_body]
fn unix_time_secs() -> u64 {
    match std::time::SystemTime::now().duration_since(std::time::UNIX_EPOCH) {
        Ok(d) => d.as_secs(),
        Err(_) => 0,
    }
}

/// The signature of a parameter set: the digest of its canonical string with
/// the secret key appended as a raw suffix.
pub open spec fn signature_of(
    pairs: Seq<(Seq<char>, Seq<char>)>,
    appsec: Seq<char>,
) -> Seq<char> {
    md5_hex_of(canonical_of(pairs) + appsec)
}

/// Computes the signature over the canonical parameter string plus the
/// secret: exactly 32 lowercase hexadecimal characters.
pub fn generate_signature(queries: &QuerySet, appsec: &str) -> (r: String)
    ensures
        r@ == signature_of(queries@, appsec@),
        r@.len() == 32,
        all_lower_hex(r@),
{
    let mut queries_string = queries_to_string(queries);
    queries_string.append(appsec);
    md5_hex(queries_string.as_str())
}

/// The parameter set after signing at the fixed timestamp `ts`: the key and
/// timestamp are set, and `sign` carries the signature over every parameter
/// except any prior `sign`.
pub open spec fn sign_at_spec(
    pairs: Seq<(Seq<char>, Seq<char>)>,
    appkey: Seq<char>,
    appsec: Seq<char>,
    ts: u64,
) -> Seq<(Seq<char>, Seq<char>)> {
    let with_key = pairs_insert(pairs, ("appkey")@, appkey);
    let with_ts = pairs_insert(with_key, ("ts")@, dec_str(ts as nat));
    pairs_insert(with_ts, ("sign")@, signature_of(strip_sign(with_ts), appsec))
}

/// Signs the parameter set with the given credential pair at the fixed
/// timestamp `ts`. The stored `sign` value is 32 lowercase hexadecimal
/// characters.
pub fn sign_query_at(queries: &mut QuerySet, appkey: &str, appsec: &str, ts: u64)
    requires
        old(queries).wf(),
    ensures
        final(queries).wf(),
        final(queries)@ == sign_at_spec(old(queries)@, appkey@, appsec@, ts),
        map_of(final(queries)@).contains_key(("sign")@),
        map_of(final(queries)@)[("sign")@].len() == 32,
        all_lower_hex(map_of(final(queries)@)[("sign")@]),
{
    queries.insert(String::from_str("appkey"), String::from_str(appkey));
    queries.insert(String::from_str("ts"), u128_to_string(ts as u128));
    let ghost with_ts = queries@;
    let stripped = without_sign(queries);
    let sign_string = generate_signature(&stripped, appsec);
    let ghost sig = sign_string@;
    queries.insert(String::from_str("sign"), sign_string);
    proof {
        crate::laws::lemma_pairs_insert_map(with_ts, ("sign")@, sig);
        assert(map_of(queries@) == map_of(with_ts).insert(("sign")@, sig));
    }
}

/// Signs the parameter set with the given credential pair at the current
/// Unix time: some timestamp is chosen, and the rest is as `sign_at_spec`.
pub fn sign_query(queries: &mut QuerySet, appkey: &str, appsec: &str)
    requires
        old(queries).wf(),
    ensures
        final(queries).wf(),
        exists|ts: u64|
            final(queries)@ == #[trigger] sign_at_spec(old(queries)@, appkey@, appsec@, ts),
        map_of(final(queries)@).contains_key(("sign")@),
        map_of(final(queries)@)[("sign")@].len() == 32,
        all_lower_hex(map_of(final(queries)@)[("sign")@]),
{
    let ts = unix_time_secs();
    sign_query_at(queries, appkey, appsec, ts);
}

/// The credential pair for a region: the alternate region `th` uses the
/// second pair, every other region the first.
pub open spec fn appkey_for(area: Seq<char>) -> Seq<char> {
    if area == ("th")@ {
        BSTAR_A_APPKEY@
    } else {
        ANDROID_APPKEY@
    }
}

pub open spec fn appsec_for(area: Seq<char>) -> Seq<char> {
    if area == ("th")@ {
        BSTAR_A_SECKEY@
    } else {
        ANDROID_SECKEY@
    }
}

/// The request path for a region: the alternate region `th` uses the
/// international gateway path, every other region the player API path.
pub open spec fn path_for(area: Seq<char>) -> Seq<char> {
    if area == ("th")@ {
        PLAYURL_BSTAR_A@
    } else {
        PLAYURL_ANDROID@
    }
}

/// Signs the parameter set with the credential pair that the region selects,
/// at the fixed timestamp `ts`.
pub fn sign_queries_at(queries: &mut QuerySet, area: &str, ts: u64)
    requires
        old(queries).wf(),
    ensures
        final(queries).wf(),
        final(queries)@ == sign_at_spec(old(queries)@, appkey_for(area@), appsec_for(area@), ts),
        map_of(final(queries)@).contains_key(("sign")@),
        map_of(final(queries)@)[("sign")@].len() == 32,
        all_lower_hex(map_of(final(queries)@)[("sign")@]),
{
    if str_eq(area, "th") {
        sign_query_at(queries, BSTAR_A_APPKEY, BSTAR_A_SECKEY, ts);
    } else {
        sign_query_at(queries, ANDROID_APPKEY, ANDROID_SECKEY, ts);
    }
}

/// Signs the parameter set with the credential pair that the region selects,
/// at the current Unix time.
pub fn sign_queries(queries: &mut QuerySet, area: &str)
    requires
        old(queries).wf(),
    ensures
        final(queries).wf(),
        exists|ts: u64|
            final(queries)@ == #[trigger] sign_at_spec(
                old(queries)@,
                appkey_for(area@),
                appsec_for(area@),
                ts,
            ),
        map_of(final(queries)@).contains_key(("sign")@),
        map_of(final(queries)@)[("sign")@].len() == 32,
        all_lower_hex(map_of(final(queries)@)[("sign")@]),
{
    let ts = unix_time_secs();
    sign_queries_at(queries, area, ts);
}

/// The full probe URL for one candidate endpoint and one region, signed at
/// the fixed timestamp `ts`.
pub open spec fn url_spec(
    server: Seq<char>,
    area: Seq<char>,
    ep: int,
    access_key: Seq<char>,
    ts: u64,
) -> Seq<char> {
    let signed = sign_at_spec(
        base_queries_spec(area, ep, access_key),
        appkey_for(area),
        appsec_for(area),
        ts,
    );
    ("https://")@ + server + ("/")@ + path_for(area) + ("?")@ + canonical_of(signed)
}

/// Builds the probe URL for one candidate endpoint and one region, signing
/// at the fixed timestamp `ts`.
pub fn probe_url_at(server: &str, area: &str, ep: i32, access_key: &str, ts: u64) -> (r: String)
    ensures
        r@ == url_spec(server@, area@, ep as int, access_key@, ts),
{
    let mut queries = build_queries(area, ep, access_key);
    sign_queries_at(&mut queries, area, ts);
    let queries_string = queries_to_string(&queries);
    let mut url = String::from_str("https://");
    url.append(server);
    url.append("/");
    if str_eq(area, "th") {
        url.append(PLAYURL_BSTAR_A);
    } else {
        url.append(PLAYURL_ANDROID);
    }
    url.append("?");
    url.append(queries_string.as_str());
    proof {
        assert(url@ =~= url_spec(server@, area@, ep as int, access_key@, ts));
    }
    url
}

/// Builds the probe URL for one candidate endpoint and one region, signing
/// at the current Unix time.
pub fn probe_url(server: &str, area: &str, ep: i32, access_key: &str) -> (r: String)
    ensures
        exists|ts: u64| r@ == #[trigger] url_spec(server@, area@, ep as int, access_key@, ts),
{
    let ts = unix_time_secs();
    probe_url_at(server, area, ep, access_key, ts)
}

} // verus!
