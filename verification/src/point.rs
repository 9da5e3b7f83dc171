//! A point on the Earth's surface, in decimal degrees.

use vstd::prelude::*;
use vstd::arithmetic::power2::{pow2, lemma_pow2_adds, lemma_pow2_unfold, lemma2_to64_rest};
use vstd::string::StringExecFns;
use crate::binary64::{at_most, is_nan, le, scaled_value, within};
use crate::number::{is_float_literal, lemma_literal_chars};
use crate::dms::{parse_pair, Axis, DmsAngle, DmsPair, GeoParseError};

verus! {

/// The pattern of 90.
pub const DEG_90: u64 = 0x4056_8000_0000_0000;

/// The pattern of -90.
pub const DEG_MINUS_90: u64 = 0xc056_8000_0000_0000;

/// The pattern of 180.
pub const DEG_180: u64 = 0x4066_8000_0000_0000;

/// The pattern of -180.
pub const DEG_MINUS_180: u64 = 0xc066_8000_0000_0000;

/// A latitude and a longitude in decimal degrees, each held as the bit
/// pattern of a binary64 number.
///
/// Any two patterns make a point: nothing is checked or clamped when one is
/// built. Whether they lie in range is asked with [`Coordinates::validate`].
#[derive(Clone, Copy, Debug)]
pub struct Coordinates {
    pub lat: u64,
    pub lon: u64,
}

/// The four limits are the patterns of 90, -90, 180 and -180.
pub proof fn lemma_limits()
    ensures
        !is_nan(DEG_90) && scaled_value(DEG_90) == 90 * pow2(1074),
        !is_nan(DEG_MINUS_90) && scaled_value(DEG_MINUS_90) == -90 * pow2(1074),
        !is_nan(DEG_180) && scaled_value(DEG_180) == 180 * pow2(1074),
        !is_nan(DEG_MINUS_180) && scaled_value(DEG_MINUS_180) == -180 * pow2(1074),
{
    lemma2_to64_rest();
    lemma_pow2_adds(47, 1028);
    lemma_pow2_unfold(1075);
    lemma_pow2_unfold(1029);
    // 2^52 + fraction is 45 * 2^47 in all four
    let unit = pow2(1074) as int;
    assert(pow2(1028) * 0x8000_0000_0000 == 2 * unit);
    assert(0x16_8000_0000_0000 * pow2(1028) == 90 * unit) by (nonlinear_arith)
        requires
            pow2(1028) * 0x8000_0000_0000 == 2 * unit,
    ;
    assert(0x16_8000_0000_0000 * pow2(1029) == 180 * unit) by (nonlinear_arith)
        requires
            0x16_8000_0000_0000 * pow2(1028) == 90 * unit,
            pow2(1029) == 2 * pow2(1028),
    ;
}

/// The JSON text of a point whose latitude and longitude are written as
/// `lat` and `lon`: an object with the two members in that order, and one
/// space behind the comma.
pub open spec fn json_text(lat: Seq<char>, lon: Seq<char>) -> Seq<char> {
    "{\"lat\":"@ + lat + ", \"lon\":"@ + lon + "}"@
}

/// The JSON text of a point gives its two numbers back: two texts that are
/// equal were written from the same latitude and the same longitude. This
/// holds where the latitudes are literals, as the numbers of a point are
/// when they are written: a literal holds no comma, so the first comma of
/// the text is the one that ends the latitude.
pub proof fn lemma_json_text_reads_back(
    lat1: Seq<char>,
    lon1: Seq<char>,
    lat2: Seq<char>,
    lon2: Seq<char>,
)
    requires
        is_float_literal(lat1),
        is_float_literal(lat2),
        json_text(lat1, lon1) == json_text(lat2, lon2),
    ensures
        lat1 == lat2,
        lon1 == lon2,
{
    reveal_strlit("{\"lat\":");
    reveal_strlit(", \"lon\":");
    reveal_strlit("}");
    let head = "{\"lat\":"@;
    let mid = ", \"lon\":"@;
    let t1 = json_text(lat1, lon1);
    let t2 = json_text(lat2, lon2);
    lemma_literal_chars(lat1);
    lemma_literal_chars(lat2);
    let n1 = lat1.len() as int;
    let n2 = lat2.len() as int;
    assert(head.len() == 7 && mid.len() == 8 && mid[0] == ',');
    if n1 < n2 {
        assert(t1[7 + n1] == mid[0]);
        assert(t2[7 + n1] == lat2[n1]);
        assert(false);
    }
    if n2 < n1 {
        assert(t2[7 + n2] == mid[0]);
        assert(t1[7 + n2] == lat1[n2]);
        assert(false);
    }
    assert forall|i: int| 0 <= i < lat1.len() implies lat1[i] == lat2[i] by {
        assert(t1[7 + i] == lat1[i]);
        assert(t2[7 + i] == lat2[i]);
    }
    assert(lat1 =~= lat2);
    assert(t1.len() == 16 + lat1.len() + lon1.len());
    assert(t2.len() == 16 + lat2.len() + lon2.len());
    assert forall|i: int| 0 <= i < lon1.len() implies lon1[i] == lon2[i] by {
        assert(t1[15 + n1 + i] == lon1[i]);
        assert(t2[15 + n2 + i] == lon2[i]);
    }
    assert(lon1 =~= lon2);
}

impl Coordinates {
    /// Both coordinates lie in range: the latitude in -90 to 90, the
    /// longitude in -180 to 180, the limits included.
    pub open spec fn is_valid(self) -> bool {
        within(self.lat, 90) && within(self.lon, 180)
    }

    /// A point with the given latitude and longitude, whatever they are.
    pub fn new(lat: u64, lon: u64) -> (p: Coordinates)
        ensures
            p.lat == lat,
            p.lon == lon,
    {
        Coordinates { lat, lon }
    }

    /// The latitude and the longitude, in degrees, as a pair.
    pub fn to_degrees(&self) -> (pair: (u64, u64))
        ensures
            pair.0 == self.lat,
            pair.1 == self.lon,
    {
        (self.lat, self.lon)
    }

    /// Says whether the point lies in range. Nothing is normalised: a
    /// longitude of 181 is out of range, and so is a NaN.
    pub fn validate(&self) -> (ok: bool)
        ensures
            ok == self.is_valid(),
    {
        proof {
            lemma_limits();
        }
        let lat_valid = le(DEG_MINUS_90, self.lat) && le(self.lat, DEG_90);
        let lon_valid = le(DEG_MINUS_180, self.lon) && le(self.lon, DEG_180);
        lat_valid && lon_valid
    }

    /// Reads a longitude and a latitude, each written as degrees, minutes
    /// and seconds, and gives the literals of both: the first text is the
    /// longitude, and its literals are those of `lon` in the result.
    ///
    /// The value of a literal, and the angle `degrees + minutes / 60 +
    /// seconds / 3600`, are the caller's to compute.
    pub fn new_from_string(lon: &str, lat: &str) -> (r: Result<DmsPair, GeoParseError>)
        ensures
            parse_pair(lon@, lat@) == match r {
                Ok(pair) => Ok((pair.lon@, pair.lat@)),
                Err(e) => Err(e),
            },
    {
        let lon_angle = match DmsAngle::parse(lon) {
            Ok(angle) => angle,
            Err(e) => {
                return Err(GeoParseError { axis: Axis::Longitude, field: e.0, failure: e.1 });
            },
        };
        let lat_angle = match DmsAngle::parse(lat) {
            Ok(angle) => angle,
            Err(e) => {
                return Err(GeoParseError { axis: Axis::Latitude, field: e.0, failure: e.1 });
            },
        };
        Ok(DmsPair { lon: lon_angle, lat: lat_angle })
    }

    /// The JSON text of a point, from its latitude and its longitude as they
    /// are to be written.
    pub fn to_json(lat: &str, lon: &str) -> (out: String)
        ensures
            out@ == json_text(lat@, lon@),
    {
        let mut out = String::from_str("{\"lat\":");
        out.append(lat);
        out.append(", \"lon\":");
        out.append(lon);
        out.append("}");
        out
    }

    /// Says whether a point at the given great-circle distance lies within
    /// the radius: the distance is at most the radius, both in kilometres.
    pub fn is_within_radius(distance_km: u64, radius_km: u64) -> (inside: bool)
        ensures
            inside == at_most(distance_km, radius_km),
    {
        le(distance_km, radius_km)
    }
}

} // verus!
