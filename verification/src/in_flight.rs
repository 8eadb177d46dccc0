//! The requests of a connector that are under way, by client order id: a cancel waits while the
//! submission of the same order is still under way, and a second cancel of an order whose
//! cancel is under way is dropped. The waiting itself (a sleep between polls) is the caller's.
use vstd::prelude::*;

use crate::keyed::TextSet;

verus! {

/// How long a cancel sleeps before it looks again at the submission it waits for.
pub const CANCEL_POLL_MS: u64 = 10;

/// What a cancel under way does next.
#[derive(Clone, Copy, Debug, PartialEq, Eq, Structural)]
pub enum CancelPoll {
    /// The order's submission is still under way: sleep `CANCEL_POLL_MS` and look again.
    Wait,
    /// No submission of the order is under way: the cancel may go ahead.
    Proceed,
}

/// The client order ids with a submission under way and with a cancel under way.
pub struct InFlightView {
    pub submissions: Set<Seq<char>>,
    pub cancellations: Set<Seq<char>>,
}

pub struct InFlight {
    submissions: TextSet,
    cancellations: TextSet,
}

impl View for InFlight {
    type V = InFlightView;

    closed spec fn view(&self) -> InFlightView {
        InFlightView { submissions: self.submissions@, cancellations: self.cancellations@ }
    }
}

impl InFlight {
    pub closed spec fn wf(&self) -> bool {
        self.submissions.wf() && self.cancellations.wf()
    }

    /// Nothing under way.
    pub fn new() -> (r: Self)
        ensures
            r.wf(),
            r@.submissions.is_empty(),
            r@.cancellations.is_empty(),
    {
        InFlight { submissions: TextSet::new(), cancellations: TextSet::new() }
    }

    /// A submission of `client_order_id` starts.
    pub fn begin_submission(&mut self, client_order_id: &str)
        requires
            old(self).wf(),
        ensures
            final(self).wf(),
            final(self)@ == (InFlightView { submissions: old(self)@.submissions.insert(client_order_id@), ..old(self)@ }),
    {
        self.submissions.insert(client_order_id);
    }

    /// The submission of `client_order_id` is resolved (answered, failed or given up).
    pub fn end_submission(&mut self, client_order_id: &str)
        requires
            old(self).wf(),
        ensures
            final(self).wf(),
            final(self)@ == (InFlightView { submissions: old(self)@.submissions.remove(client_order_id@), ..old(self)@ }),
    {
        self.submissions.remove(client_order_id);
    }

    /// A cancel of `client_order_id` is asked for: it starts, and `true` is returned, unless a
    /// cancel of the order is already under way, in which case nothing changes.
    pub fn begin_cancel(&mut self, client_order_id: &str) -> (r: bool)
        requires
            old(self).wf(),
        ensures
            final(self).wf(),
            r == !old(self)@.cancellations.contains(client_order_id@),
            final(self)@ == (InFlightView { cancellations: old(self)@.cancellations.insert(client_order_id@), ..old(self)@ }),
    {
        self.cancellations.insert(client_order_id)
    }

    /// What the cancel of `client_order_id` does next: wait while its submission is under way.
    pub fn poll_cancel(&self, client_order_id: &str) -> (r: CancelPoll)
        requires
            self.wf(),
        ensures
            r == (if self@.submissions.contains(client_order_id@) { CancelPoll::Wait } else { CancelPoll::Proceed }),
    {
        if self.submissions.contains(client_order_id) {
            CancelPoll::Wait
        } else {
            CancelPoll::Proceed
        }
    }

    /// The cancel of `client_order_id` is over, however it ended.
    pub fn end_cancel(&mut self, client_order_id: &str)
        requires
            old(self).wf(),
        ensures
            final(self).wf(),
            final(self)@ == (InFlightView { cancellations: old(self)@.cancellations.remove(client_order_id@), ..old(self)@ }),
    {
        self.cancellations.remove(client_order_id);
    }
}

/// At most one cancel of an order is under way: a cancel asked for while another is under way
/// does not start, and once the first ends, a new one can.
pub proof fn one_cancel_at_a_time(v: InFlightView, c: Seq<char>)
    requires
        v.cancellations.contains(c),
    ensures
        v.cancellations.insert(c) == v.cancellations,
        !v.cancellations.remove(c).contains(c),
{
    assert(v.cancellations.insert(c) =~= v.cancellations);
}

} // verus!
