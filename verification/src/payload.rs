use vstd::prelude::*;
use vstd::string::StringExecFns;
use crate::decimal::{dec_of_int, i64_to_string};
use crate::hashing::{digest_of, sha256_hex};

verus! {

/// The domain event one record carries: a fixed-point measurement (in tenths
/// of a degree) together with the identifiers of the tracked unit and its
/// transport context, and a human-readable timestamp. Immutable once created.
pub struct Payload {
    pub measurement_tenths: i64,
    pub container_no: String,
    pub batch_no: String,
    pub vaccine_name: String,
    pub manufacture_name: String,
    pub shipment_name: String,
    pub current_location: String,
    pub timestamp: String,
}

/// The canonical serialized form of a payload: its fields joined by '|',
/// the measurement rendered in decimal tenths first.
pub open spec fn payload_encoding(p: Payload) -> Seq<char> {
    dec_of_int(p.measurement_tenths as int) + seq!['|'] + p.container_no@ + seq!['|']
        + p.batch_no@ + seq!['|'] + p.vaccine_name@ + seq!['|'] + p.manufacture_name@ + seq!['|']
        + p.shipment_name@ + seq!['|'] + p.current_location@ + seq!['|'] + p.timestamp@
}

/// Whether a measurement lies outside the acceptable range [lo, hi],
/// all in tenths.
pub open spec fn spec_out_of_range(measurement_tenths: i64, lo: i64, hi: i64) -> bool {
    measurement_tenths < lo || measurement_tenths > hi
}

impl Payload {
    /// Serializes the payload into its canonical form.
    pub fn encode(&self) -> (r: String)
        ensures
            r@ == payload_encoding(*self),
    {
        let mut s = i64_to_string(self.measurement_tenths);
        s.append("|");
        s.append(self.container_no.as_str());
        s.append("|");
        s.append(self.batch_no.as_str());
        s.append("|");
        s.append(self.vaccine_name.as_str());
        s.append("|");
        s.append(self.manufacture_name.as_str());
        s.append("|");
        s.append(self.shipment_name.as_str());
        s.append("|");
        s.append(self.current_location.as_str());
        s.append("|");
        s.append(self.timestamp.as_str());
        proof {
            reveal_strlit("|");
            assert(s@ =~= payload_encoding(*self));
        }
        s
    }

    /// The digest of the canonical serialized payload.
    pub fn digest(&self) -> (r: String)
        ensures
            r@ == digest_of(payload_encoding(*self)),
            r@.len() == 64,
    {
        let encoded = self.encode();
        sha256_hex(encoded.as_str())
    }

    /// Evaluates the alert flag: true exactly when the measurement lies
    /// outside the acceptable range [lo, hi] (in tenths).
    pub fn out_of_range(&self, lo: i64, hi: i64) -> (r: bool)
        ensures
            r == spec_out_of_range(self.measurement_tenths, lo, hi),
    {
        self.measurement_tenths < lo || self.measurement_tenths > hi
    }
}

impl Clone for Payload {
    fn clone(&self) -> (r: Self)
        ensures
            r == *self,
    {
        Payload {
            measurement_tenths: self.measurement_tenths,
            container_no: self.container_no.clone(),
            batch_no: self.batch_no.clone(),
            vaccine_name: self.vaccine_name.clone(),
            manufacture_name: self.manufacture_name.clone(),
            shipment_name: self.shipment_name.clone(),
            current_location: self.current_location.clone(),
            timestamp: self.timestamp.clone(),
        }
    }
}

} // verus!
