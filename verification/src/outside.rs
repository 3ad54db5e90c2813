//! The `prometheus` types that the library carries through its logic, and the
//! calls it makes into that crate. Every item here is trusted: its contract is
//! taken from the crate's source, not proved.

use vstd::prelude::*;
use vstd::utf8::{decode_utf8, valid_utf8};
use crate::names::valid_metric_opts;

verus! {

/// `prometheus::Registry`: a set of registered collectors behind a lock.
#[verifier::external_type_specification]
#[verifier::external_body]
pub struct ExRegistry(prometheus::Registry);

/// `prometheus::Error`: the error of every fallible `prometheus` call.
#[verifier::external_type_specification]
#[verifier::external_body]
pub struct ExPrometheusError(prometheus::Error);

/// `prometheus::core::Desc`: the validated name, help and labels of a metric.
#[verifier::external_type_specification]
#[verifier::external_body]
pub struct ExDesc(prometheus::core::Desc);

/// `prometheus::proto::MetricFamily`: one family of samples as gathered.
#[verifier::external_type_specification]
#[verifier::external_body]
pub struct ExMetricFamily(prometheus::proto::MetricFamily);

/// The fully-qualified name and the help text a descriptor carries.
pub uninterp spec fn desc_text(desc: prometheus::core::Desc) -> (Seq<char>, Seq<char>);

/// Whether a metric family is of type `UNTYPED`.
pub uninterp spec fn family_untyped(family: prometheus::proto::MetricFamily) -> bool;

/// The bytes the text encoder writes for a list of families, or `None` when
/// it rejects one of them.
pub uninterp spec fn text_encoding(families: Seq<prometheus::proto::MetricFamily>) -> Option<
    Seq<u8>,
>;

/// `prometheus::core::Desc::new` with no variable or constant labels. Its
/// source rejects an empty help text and a name that does not match
/// `[a-zA-Z_:][a-zA-Z0-9_:]*`, and accepts everything else; with no labels no
/// other check applies. The descriptor it returns carries the name as its
/// `fq_name` and the help text as its `help`.
#[verifier::external_body]
pub(crate) fn new_desc(name: String, help: String) -> (r: Result<
    prometheus::core::Desc,
    prometheus::Error,
>)
    ensures
        r is Ok <==> valid_metric_opts(name@, help@),
        r matches Ok(d) ==> desc_text(d) == (name@, help@),
{
    prometheus::core::Desc::new(name, help, vec![], std::collections::HashMap::new())
}

/// `prometheus::Registry::gather`: the metric families of everything
/// registered. What it returns depends on the registry's state and the
/// collectors' values at the time, so nothing is stated of it.
#[verifier::external_body]
pub(crate) fn gather(registry: &prometheus::Registry) -> Vec<prometheus::proto::MetricFamily> {
    registry.gather()
}

/// `MetricFamily::get_field_type`, told apart for `UNTYPED`.
#[verifier::external_body]
pub(crate) fn is_untyped(family: &prometheus::proto::MetricFamily) -> (r: bool)
    ensures
        r == family_untyped(*family),
{
    match family.get_field_type() {
        prometheus::proto::MetricType::COUNTER => false,
        prometheus::proto::MetricType::GAUGE => false,
        prometheus::proto::MetricType::SUMMARY => false,
        prometheus::proto::MetricType::UNTYPED => true,
        prometheus::proto::MetricType::HISTOGRAM => false,
    }
}

/// `prometheus::Encoder::encode` of a `prometheus::TextEncoder` into a fresh
/// buffer. The encoder is a function of the families alone; its source
/// reaches `unimplemented!()` for an `UNTYPED` family with samples, which the
/// `requires` leaves out. It writes nothing but `&str` data, so what it
/// returns is valid UTF-8. What the bytes are is not stated beyond the name
/// `text_encoding`.
#[verifier::external_body]
pub(crate) fn encode_text(families: &Vec<prometheus::proto::MetricFamily>) -> (r: Result<
    Vec<u8>,
    prometheus::Error,
>)
    requires
        forall|i: int| 0 <= i < families@.len() ==> !family_untyped(#[trigger] families@[i]),
    ensures
        r is Ok <==> text_encoding(families@) is Some,
        r matches Ok(b) ==> b@ == text_encoding(families@)->0 && valid_utf8(b@),
{
    let mut buffer = Vec::new();
    match prometheus::Encoder::encode(&prometheus::TextEncoder::new(), families, &mut buffer) {
        Ok(()) => Ok(buffer),
        Err(e) => Err(e),
    }
}

/// `String::from_utf8`: succeeds exactly on valid UTF-8, with the decoded
/// characters, as std documents.
#[verifier::external_body]
pub(crate) fn string_from_utf8(bytes: Vec<u8>) -> (r: Option<String>)
    ensures
        r is Some <==> valid_utf8(bytes@),
        r matches Some(s) ==> s@ == decode_utf8(bytes@),
{
    String::from_utf8(bytes).ok()
}

} // verus!
