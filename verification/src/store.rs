//! The metric store: the ordered registry of metrics and their current
//! values.
//!
//! Registration happens once, before any reader or writer runs; after that
//! only values change.  Names are unique and validated when registered;
//! registering a name twice is a configuration error reported to the
//! caller, which aborts startup.  Gauges are overwritten by `set`; counters
//! only grow, through `increment`.  `render` produces the deterministic
//! text exposition of every metric in registration order.

use vstd::prelude::*;
use vstd::string::*;
use crate::decimal::milli_to_string;
use crate::expo::{
    eof_line, help_prefix, kind_str, lemma_render_blocks_append, metric_block, render_blocks,
    render_spec, type_prefix, valid_help, valid_name, wf_names,
};

verus! {

/// Whether a metric is overwritten on update or only ever grows.
#[derive(Clone, Copy, Debug, PartialEq, Eq, Structural)]
pub enum MetricKind {
    Gauge,
    Counter,
}

/// One registered metric with its current value, in thousandths; a metric
/// that was never updated has no value and renders no sample line.
pub struct Metric {
    pub name: String,
    pub help: String,
    pub kind: MetricKind,
    pub value_milli: Option<u64>,
}

/// Ticket returned by registration; it indexes the metric it was created
/// for, in registration order.
#[derive(Clone, Copy, Debug)]
pub struct MetricHandle {
    pub idx: usize,
}

/// Why a registration was refused.  Every variant is a startup
/// configuration error: the caller is expected to abort before serving.
#[derive(Clone, Copy, Debug, PartialEq, Eq, Structural)]
pub enum RegisterError {
    /// A metric of that name is already registered.
    DuplicateName,
    /// The name is empty, starts with a digit, or holds a character other
    /// than a letter, digit, underscore or colon.
    InvalidName,
    /// The help text holds a newline.
    InvalidHelp,
}

/// The registry of all metrics, in registration order.
pub struct MetricStore {
    pub metrics: Vec<Metric>,
}

/// Next value of a counter: one whole unit more, saturating at the
/// representation's ceiling; a counter that was never touched counts from
/// zero.
pub open spec fn inc_value(o: Option<u64>) -> u64 {
    let c = match o {
        Option::Some(x) => x,
        Option::None => 0u64,
    };
    if c + 1000 <= u64::MAX {
        (c + 1000) as u64
    } else {
        c
    }
}

impl MetricStore {
    /// The store holds metric `n`.
    pub open spec fn contains_name(self, n: Seq<char>) -> bool {
        exists|i: int| 0 <= i < self.metrics@.len() && (#[trigger] self.metrics@[i]).name@ == n
    }

    /// `h` indexes a registered metric.
    pub open spec fn valid_handle(self, h: MetricHandle) -> bool {
        h.idx < self.metrics@.len()
    }

    /// `h` indexes a registered gauge.
    pub open spec fn is_gauge(self, h: MetricHandle) -> bool {
        self.valid_handle(h) && self.metrics@[h.idx as int].kind == MetricKind::Gauge
    }

    /// `h` indexes a registered counter.
    pub open spec fn is_counter(self, h: MetricHandle) -> bool {
        self.valid_handle(h) && self.metrics@[h.idx as int].kind == MetricKind::Counter
    }

    /// Well-formedness: every metric carries a valid name and help text,
    /// and no two metrics share a name.
    pub open spec fn wf(self) -> bool {
        &&& wf_names(self.metrics@)
        &&& forall|i: int, j: int|
            #![trigger self.metrics@[i], self.metrics@[j]]
            0 <= i < j < self.metrics@.len() ==> self.metrics@[i].name@ != self.metrics@[j].name@
    }

    /// An empty store, ready for registration.
    pub fn new() -> (s: MetricStore)
        ensures
            s.metrics@.len() == 0,
            s.wf(),
    {
        MetricStore { metrics: Vec::new() }
    }

    /// Number of registered metrics.
    pub fn len(&self) -> (n: usize)
        ensures
            n == self.metrics@.len(),
    {
        self.metrics.len()
    }

    /// Current value of the metric `h` indexes, in thousandths.
    pub fn current_value(&self, h: MetricHandle) -> (v: Option<u64>)
        requires
            self.valid_handle(h),
        ensures
            v == self.metrics@[h.idx as int].value_milli,
    {
        self.metrics[h.idx].value_milli
    }

    /// Kind of the metric `h` indexes.
    pub fn kind_of(&self, h: MetricHandle) -> (k: MetricKind)
        requires
            self.valid_handle(h),
        ensures
            k == self.metrics@[h.idx as int].kind,
    {
        self.metrics[h.idx].kind
    }

    /// Register a metric.  Callable only while the store is still private
    /// to one thread, before serving begins.  Returns the handle for later
    /// updates, or the configuration error that makes startup abort: an
    /// invalid name, an invalid help text, or a name already taken.
    pub fn register(&mut self, name: String, help: String, kind: MetricKind) -> (r: Result<
        MetricHandle,
        RegisterError,
    >)
        requires
            old(self).wf(),
        ensures
            final(self).wf(),
            r is Ok <==> valid_name(name@) && valid_help(help@) && !old(self).contains_name(
                name@,
            ),
            match r {
                Result::Ok(h) => {
                    &&& h.idx == old(self).metrics@.len()
                    &&& final(self).metrics@.len() == old(self).metrics@.len() + 1
                    &&& final(self).metrics@[h.idx as int].name@ == name@
                    &&& final(self).metrics@[h.idx as int].help@ == help@
                    &&& final(self).metrics@[h.idx as int].kind == kind
                    &&& final(self).metrics@[h.idx as int].value_milli is None
                    &&& forall|i: int|
                        0 <= i < old(self).metrics@.len() ==> final(self).metrics@[i] == old(
                            self,
                        ).metrics@[i]
                },
                Result::Err(e) => {
                    &&& *final(self) == *old(self)
                    &&& (e == RegisterError::InvalidName <==> !valid_name(name@))
                    &&& (e == RegisterError::InvalidHelp <==> valid_name(name@) && !valid_help(
                        help@,
                    ))
                    &&& (e == RegisterError::DuplicateName <==> valid_name(name@) && valid_help(
                        help@,
                    ) && old(self).contains_name(name@))
                },
            },
    {
        if !crate::expo::check_name(name.as_str()) {
            return Result::Err(RegisterError::InvalidName);
        }
        if !crate::expo::check_help(help.as_str()) {
            return Result::Err(RegisterError::InvalidHelp);
        }
        let n = self.metrics.len();
        let mut i: usize = 0;
        while i < n
            invariant
                *self == *old(self),
                old(self).wf(),
                valid_name(name@),
                valid_help(help@),
                n == self.metrics@.len(),
                i <= n,
                forall|j: int| 0 <= j < i ==> (#[trigger] self.metrics@[j]).name@ != name@,
            decreases n - i,
        {
            if self.metrics[i].name == name {
                proof {
                    assert(old(self).contains_name(name@)) by {
                        assert(self.metrics@[i as int].name@ == name@);
                    }
                }
                return Result::Err(RegisterError::DuplicateName);
            }
            i += 1;
        }
        let h = MetricHandle { idx: n };
        let ghost before = self.metrics@;
        self.metrics.push(Metric { name, help, kind, value_milli: Option::None });
        proof {
            assert(self.metrics@ =~= before.push(self.metrics@[n as int]));
            assert forall|i: int, j: int|
                #![trigger self.metrics@[i], self.metrics@[j]]
                0 <= i < j < self.metrics@.len() implies self.metrics@[i].name@
                != self.metrics@[j].name@ by {
                if j < n {
                    assert(old(self).metrics@[i] == self.metrics@[i]);
                    assert(old(self).metrics@[j] == self.metrics@[j]);
                }
            }
        }
        Result::Ok(h)
    }

    /// Overwrite the value of the gauge `h` indexes.  Only that metric's
    /// value changes; the registry itself — names, helps, kinds, order —
    /// stays as it was.
    pub fn set(&mut self, h: MetricHandle, v: u64)
        requires
            old(self).is_gauge(h),
        ensures
            final(self).metrics@ == old(self).metrics@.update(
                h.idx as int,
                (Metric { value_milli: Option::Some(v), ..old(self).metrics@[h.idx as int] }),
            ),
            final(self).wf() <== old(self).wf(),
    {
        self.metrics[h.idx].value_milli = Option::Some(v);
        proof {
            if old(self).wf() {
                assert forall|i: int|
                    0 <= i < self.metrics@.len() implies valid_name(
                    (#[trigger] self.metrics@[i]).name@,
                ) && valid_help(self.metrics@[i].help@) by {
                    assert(self.metrics@[i].name@ == old(self).metrics@[i].name@);
                }
            }
        }
    }

    /// Raise the counter `h` indexes by one unit.  The count saturates at
    /// the representation's ceiling instead of wrapping, so it never
    /// decreases.
    pub fn increment(&mut self, h: MetricHandle)
        requires
            old(self).is_counter(h),
        ensures
            final(self).metrics@ == old(self).metrics@.update(
                h.idx as int,
                (Metric {
                    value_milli: Option::Some(inc_value(old(self).metrics@[h.idx as int].value_milli)),
                    ..old(self).metrics@[h.idx as int]
                }),
            ),
            final(self).wf() <== old(self).wf(),
    {
        let cur: u64 = match self.metrics[h.idx].value_milli {
            Option::Some(x) => x,
            Option::None => 0,
        };
        let nv: u64 = if cur <= u64::MAX - 1000 {
            cur + 1000
        } else {
            cur
        };
        self.metrics[h.idx].value_milli = Option::Some(nv);
        proof {
            if old(self).wf() {
                assert forall|i: int|
                    0 <= i < self.metrics@.len() implies valid_name(
                    (#[trigger] self.metrics@[i]).name@,
                ) && valid_help(self.metrics@[i].help@) by {
                    assert(self.metrics@[i].name@ == old(self).metrics@[i].name@);
                }
            }
        }
    }

    /// Render the whole store to the text exposition format: every metric
    /// in registration order, closed by the end-of-stream marker.  The
    /// result is a pure function of the store's current state.
    #[verifier::rlimit(50)]
    pub fn render(&self) -> (s: String)
        ensures
            s@ == render_spec(self.metrics@),
    {
        let mut s = String::new();
        let n = self.metrics.len();
        let mut i: usize = 0;
        while i < n
            invariant
                n == self.metrics@.len(),
                i <= n,
                s@ == render_blocks(self.metrics@.subrange(0, i as int)),
            decreases n - i,
        {
            let ghost pre = s@;
            append_block(&mut s, &self.metrics[i]);
            proof {
                let ghost mm = self.metrics@[i as int];
                let ghost single = seq![mm];
                assert(single.subrange(1, 1) =~= Seq::<Metric>::empty());
                assert(render_blocks(single.subrange(1, 1)) =~= Seq::<char>::empty());
                assert(render_blocks(single) =~= metric_block(mm) + render_blocks(
                    single.subrange(1, 1),
                ));
                assert(render_blocks(single) =~= metric_block(mm));
                lemma_render_blocks_append(self.metrics@.subrange(0, i as int), single);
                assert(self.metrics@.subrange(0, i as int + 1) =~= self.metrics@.subrange(
                    0,
                    i as int,
                ) + single);
                assert(s@ =~= render_blocks(self.metrics@.subrange(0, i as int + 1)));
            }
            i += 1;
        }
        s.append("# EOF\n");
        proof {
            reveal_strlit("# EOF\n");
            assert("# EOF\n"@ =~= eof_line());
            assert(self.metrics@.subrange(0, self.metrics@.len() as int) =~= self.metrics@);
            assert(s@ =~= render_spec(self.metrics@));
        }
        s
    }
}

/// Append one metric's block — help line, type line, and the sample line
/// when the metric has a value — to the rendering under way.
fn append_block(s: &mut String, m: &Metric)
    ensures
        final(s)@ == old(s)@ + metric_block(*m),
{
    s.append("# HELP ");
    s.append(m.name.as_str());
    s.append(" ");
    s.append(m.help.as_str());
    s.append("\n");
    s.append("# TYPE ");
    s.append(m.name.as_str());
    s.append(" ");
    s.append(kind_label(m.kind));
    s.append("\n");
    if let Option::Some(v) = m.value_milli {
        s.append(m.name.as_str());
        s.append(" ");
        let vs = milli_to_string(v);
        s.append(vs.as_str());
        s.append("\n");
    }
    proof {
        reveal_strlit("# HELP ");
        reveal_strlit("# TYPE ");
        reveal_strlit(" ");
        reveal_strlit("\n");
        assert("# HELP "@ =~= help_prefix());
        assert("# TYPE "@ =~= type_prefix());
        assert(" "@ =~= seq![' ']);
        assert("\n"@ =~= seq!['\n']);
        assert(s@ =~= old(s)@ + metric_block(*m));
    }
}

/// Label of a metric type in the exposition format.
pub fn kind_label(k: MetricKind) -> (r: &'static str)
    ensures
        r@ == kind_str(k),
{
    proof {
        reveal_strlit("gauge");
        reveal_strlit("counter");
    }
    match k {
        MetricKind::Gauge => {
            let r = "gauge";
            assert(r@ =~= kind_str(k));
            r
        },
        MetricKind::Counter => {
            let r = "counter";
            assert(r@ =~= kind_str(k));
            r
        },
    }
}

} // verus!
