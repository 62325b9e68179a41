use vstd::prelude::*;

verus! {

/// Seconds between the Unix epoch (1970-01-01) and the message store's
/// epoch (2001-01-01), both at midnight UTC.
pub const MAC_EPOCH_OFFSET: i64 = 978307200;

/// Nanoseconds per second: the store records its epoch values in nanoseconds.
pub const NANOS_PER_SECOND: i64 = 1000000000;

/// Largest whole-second count whose nanosecond form still fits in an `i64`.
pub const MAX_STORE_SECONDS: i64 = 9223372036;

/// What a store-native epoch value (nanoseconds since 2001-01-01 UTC)
/// denotes as portable Unix seconds.
pub open spec fn mac_to_unix_spec(mac_ts: int) -> int {
    mac_ts / (NANOS_PER_SECOND as int) + MAC_EPOCH_OFFSET as int
}

/// What a portable Unix-second value denotes as a store-native epoch value.
pub open spec fn unix_to_mac_spec(unix_ts: int) -> int {
    (unix_ts - MAC_EPOCH_OFFSET as int) * (NANOS_PER_SECOND as int)
}

/// Convert a store-native epoch value (nanoseconds since 2001-01-01 UTC)
/// to portable Unix seconds, dropping the sub-second part.
pub fn mac_timestamp_to_unix(mac_ts: i64) -> (r: i64)
    requires
        mac_ts >= 0,
    ensures
        r == mac_to_unix_spec(mac_ts as int),
        MAC_EPOCH_OFFSET <= r <= MAX_STORE_SECONDS + MAC_EPOCH_OFFSET,
{
    let v: u64 = mac_ts as u64;
    let secs: u64 = v / 1000000000u64;
    proof {
        vstd::arithmetic::div_mod::lemma_div_is_ordered(
            v as int,
            0x7fff_ffff_ffff_ffff,
            NANOS_PER_SECOND as int,
        );
        vstd::arithmetic::div_mod::lemma_div_pos_is_pos(v as int, NANOS_PER_SECOND as int);
    }
    (secs as i64) + MAC_EPOCH_OFFSET
}

/// Convert portable Unix seconds to a store-native epoch value
/// (nanoseconds since 2001-01-01 UTC). The bounds keep the product
/// representable in an `i64`.
pub fn unix_to_mac_timestamp(unix_ts: i64) -> (r: i64)
    requires
        MAC_EPOCH_OFFSET - MAX_STORE_SECONDS <= unix_ts <= MAC_EPOCH_OFFSET + MAX_STORE_SECONDS,
    ensures
        r == unix_to_mac_spec(unix_ts as int),
{
    let d: i64 = unix_ts - MAC_EPOCH_OFFSET;
    proof {
        assert((-(MAX_STORE_SECONDS as int) <= d as int <= MAX_STORE_SECONDS as int) ==> (
        -0x8000_0000_0000_0000 <= (d as int) * (NANOS_PER_SECOND as int)
            <= 0x7fff_ffff_ffff_ffff)) by (nonlinear_arith);
    }
    d * NANOS_PER_SECOND
}

/// The "YYYY-MM-DD HH:MM:SS" UTC rendering of a Unix-second count, where
/// one exists; `None` where the count lies outside the representable
/// calendar range.
pub uninterp spec fn utc_formatted(t: int) -> Option<Seq<char>>;

/// Relies on chrono's `TimeZone::timestamp_opt` on `Utc` (with zero
/// sub-second nanoseconds), `MappedLocalTime::single` and
/// `DateTime::format`: the rendering depends on the second count alone,
/// and an out-of-range count maps to no calendar time at all.
#[verifier::external_body]
fn format_utc_seconds(t: i64) -> (r: Option<String>)
    ensures
        (match r {
            Some(s) => Some(s@),
            None => None::<Seq<char>>,
        }) == utc_formatted(t as int),
{
    chrono::TimeZone::timestamp_opt(&chrono::Utc, t, 0).single().map(
        |dt| dt.format("%Y-%m-%d %H:%M:%S").to_string(),
    )
}

/// What `format_timestamp` returns: the UTC rendering, or the literal
/// "Unknown" where the value denotes no valid calendar time.
pub open spec fn format_timestamp_spec(t: int) -> Seq<char> {
    match utc_formatted(t) {
        Some(s) => s,
        None => "Unknown"@,
    }
}

/// Render portable Unix seconds as "YYYY-MM-DD HH:MM:SS" in UTC, or the
/// literal "Unknown" where no valid calendar time exists for the value.
pub fn format_timestamp(t: i64) -> (r: String)
    ensures
        r@ == format_timestamp_spec(t as int),
{
    match format_utc_seconds(t) {
        Some(s) => s,
        None => "Unknown".to_owned(),
    }
}

/// Converting a non-negative store epoch to Unix seconds and back
/// reconstructs the original value to within one whole second:
/// the round trip truncates to the containing second, never past it.
pub proof fn lemma_timestamp_round_trip(x: int)
    requires
        x >= 0,
    ensures
        unix_to_mac_spec(mac_to_unix_spec(x)) == (x / (NANOS_PER_SECOND as int)) * (
        NANOS_PER_SECOND as int),
        x - NANOS_PER_SECOND < unix_to_mac_spec(mac_to_unix_spec(x)) <= x,
{
    let n = NANOS_PER_SECOND as int;
    vstd::arithmetic::div_mod::lemma_fundamental_div_mod(x, n);
    vstd::arithmetic::mul::lemma_mul_is_commutative(x / n, n);
}

} // verus!
