//! The exporter's request handling, as pure computation.
//!
//! The HTTP transport lives outside the library; it hands each request to
//! these functions and writes the reply they return.  Serving depends on
//! nothing but the store's current state, so a scrape is never blocked by
//! — and never blocks — a sampler mid-download.

use vstd::prelude::*;
use vstd::string::*;
use crate::expo::render_spec;
use crate::store::{MetricHandle, MetricStore};

verus! {

/// HTTP methods the exporter serves.  Scrapes are GETs; the route accepts
/// nothing else.
#[derive(Clone, Copy, Debug, Hash, PartialEq, Eq, Structural)]
pub enum Method {
    Get,
}

/// The closed label schema of the request counter: the one label is the
/// method, and the only combination is fixed at registration time.
#[derive(Clone, Copy, Debug, Hash, PartialEq, Eq, Structural)]
pub struct RequestLabels {
    pub method: Method,
}

/// A computed HTTP reply: status, content type, body.
pub struct HttpReply {
    pub status: u16,
    pub content_type: String,
    pub body: String,
}

/// The content type of the metrics text format.
pub open spec fn metrics_content_type() -> Seq<char> {
    "application/openmetrics-text; version=1.0.0; charset=utf-8"@
}

/// Answer a scrape of the metrics endpoint: always status 200, the metrics
/// content type, and the store's current rendering as the body.
pub fn handle_metrics_request(store: &MetricStore) -> (r: HttpReply)
    ensures
        r.status == 200,
        r.content_type@ == metrics_content_type(),
        r.body@ == render_spec(store.metrics@),
{
    HttpReply {
        status: 200,
        content_type: String::from_str(
            "application/openmetrics-text; version=1.0.0; charset=utf-8",
        ),
        body: store.render(),
    }
}

/// Count one served request on the counter `h` indexes.  Every label
/// combination of the closed schema — there is one — shares that counter.
pub fn record_request(store: &mut MetricStore, h: MetricHandle, labels: RequestLabels)
    requires
        old(store).is_counter(h),
    ensures
        final(store).metrics@ == old(store).metrics@.update(
            h.idx as int,
            (crate::store::Metric {
                value_milli: Option::Some(
                    crate::store::inc_value(old(store).metrics@[h.idx as int].value_milli),
                ),
                ..old(store).metrics@[h.idx as int]
            }),
        ),
        final(store).wf() <== old(store).wf(),
{
    match labels.method {
        Method::Get => store.increment(h),
    }
}

} // verus!
