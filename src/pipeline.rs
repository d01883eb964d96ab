//! Foreground side of the tile compute pipeline: at most one request in
//! flight, with viewport changes coalesced while the worker is busy.
use vstd::prelude::*;
use crate::gather::{Tile, TileView};
use crate::viewport::TileSpecification;

verus! {

/// What a non-blocking poll of the worker's completion channel found.
pub enum Completion {
    /// Nothing has arrived yet.
    Pending,
    /// The worker finished a tile.
    Arrived(Tile),
    /// The worker has terminated or its channel is closed.
    Disconnected,
}

/// Abstract form of a poll result.
pub enum CompletionView {
    Pending,
    Arrived(TileView),
    Disconnected,
}

impl View for Completion {
    type V = CompletionView;

    open spec fn view(&self) -> CompletionView {
        match self {
            Completion::Pending => CompletionView::Pending,
            Completion::Arrived(t) => CompletionView::Arrived(t@),
            Completion::Disconnected => CompletionView::Disconnected,
        }
    }
}

/// The foreground-observable state of the pipeline.
#[derive(Clone, Copy, Debug, PartialEq, Eq, Structural)]
pub enum PipelineStatus {
    /// The current tile is for the desired specification; nothing in flight.
    Fresh,
    /// The current tile (or its absence) does not match; nothing in flight.
    Stale,
    /// A request is in flight.
    Requesting,
    /// The worker is gone; no request will be answered.
    WorkerUnavailable,
}

/// Abstract state of the pipeline.
pub struct PipelineView {
    pub current: Option<TileView>,
    pub in_flight: Option<TileSpecification>,
    pub worker_lost: bool,
}

/// Status of a state with respect to the desired specification.
pub open spec fn status_of(s: PipelineView, desired: TileSpecification) -> PipelineStatus {
    if s.worker_lost {
        PipelineStatus::WorkerUnavailable
    } else if s.in_flight is Some {
        PipelineStatus::Requesting
    } else if s.current is Some && s.current->Some_0.specification == desired {
        PipelineStatus::Fresh
    } else {
        PipelineStatus::Stale
    }
}

/// The request sent on a tick: the desired specification, exactly when stale.
pub open spec fn request_for(s: PipelineView, desired: TileSpecification) -> Option<
    TileSpecification,
> {
    if status_of(s, desired) == PipelineStatus::Stale {
        Some(desired)
    } else {
        None
    }
}

/// State after the request decision of a tick.
pub open spec fn after_request(s: PipelineView, desired: TileSpecification) -> PipelineView {
    match request_for(s, desired) {
        Some(r) => PipelineView { current: s.current, in_flight: Some(r), worker_lost: s.worker_lost },
        None => s,
    }
}

/// State after the completion poll of a tick.
pub open spec fn after_poll(s: PipelineView, c: CompletionView) -> PipelineView {
    match c {
        CompletionView::Pending => s,
        CompletionView::Arrived(t) => PipelineView {
            current: Some(t),
            in_flight: None,
            worker_lost: s.worker_lost,
        },
        CompletionView::Disconnected => PipelineView {
            current: s.current,
            in_flight: None,
            worker_lost: true,
        },
    }
}

/// State after one tick: request decision, then poll.
pub open spec fn tick_state(s: PipelineView, desired: TileSpecification, c: CompletionView) -> PipelineView {
    after_poll(after_request(s, desired), c)
}

/// Runs a sequence of ticks, each given by the desired specification and the
/// poll result; yields the final state and the requests sent, in order.
pub open spec fn run(s: PipelineView, ticks: Seq<(TileSpecification, CompletionView)>) -> (
    PipelineView,
    Seq<TileSpecification>,
)
    decreases ticks.len(),
{
    if ticks.len() == 0 {
        (s, Seq::empty())
    } else {
        let d = ticks[0].0;
        let sent = match request_for(s, d) {
            Some(r) => seq![r],
            None => Seq::empty(),
        };
        let rest = run(tick_state(s, d, ticks[0].1), ticks.drop_first());
        (rest.0, sent + rest.1)
    }
}

/// Ticks on which the worker is still busy, one per desired specification.
pub open spec fn busy_ticks(desired: Seq<TileSpecification>) -> Seq<
    (TileSpecification, CompletionView),
> {
    desired.map_values(|d: TileSpecification| (d, CompletionView::Pending))
}

/// While a request is in flight and nothing arrives, ticks change nothing and
/// send nothing, whatever is desired meanwhile.
pub proof fn lemma_busy_ticks_send_nothing(
    s: PipelineView,
    desired: Seq<TileSpecification>,
    tail: Seq<(TileSpecification, CompletionView)>,
)
    requires
        s.in_flight is Some,
        !s.worker_lost,
    ensures
        run(s, busy_ticks(desired) + tail) == run(s, tail),
    decreases desired.len(),
{
    let ticks = busy_ticks(desired) + tail;
    if desired.len() > 0 {
        assert(ticks[0] == (desired[0], CompletionView::Pending));
        assert(ticks.drop_first() =~= busy_ticks(desired.drop_first()) + tail);
        assert(tick_state(s, desired[0], CompletionView::Pending) == s);
        lemma_busy_ticks_send_nothing(s, desired.drop_first(), tail);
        assert(Seq::<TileSpecification>::empty() + run(s, tail).1 =~= run(s, tail).1);
    } else {
        assert(ticks =~= tail);
    }
}

/// Coalescing: while a request is in flight, any number of changes of the
/// desired specification send nothing. When the tile arrives, the next tick
/// sends exactly one request, for the specification desired when the worker
/// became free (none if that tile already matches it), and never one for an
/// intermediate specification.
pub proof fn lemma_coalescing(
    s: PipelineView,
    desired_while_busy: Seq<TileSpecification>,
    arrived: TileView,
    desired_when_free: TileSpecification,
)
    requires
        s.in_flight is Some,
        !s.worker_lost,
    ensures
        ({
            let ticks = busy_ticks(desired_while_busy) + seq![
                (desired_when_free, CompletionView::Arrived(arrived)),
                (desired_when_free, CompletionView::Pending),
            ];
            let (fin, sent) = run(s, ticks);
            &&& sent == if arrived.specification == desired_when_free {
                Seq::<TileSpecification>::empty()
            } else {
                seq![desired_when_free]
            }
            &&& fin.current == Some(arrived)
            &&& fin.in_flight == if arrived.specification == desired_when_free {
                None
            } else {
                Some(desired_when_free)
            }
        }),
{
    let tail = seq![
        (desired_when_free, CompletionView::Arrived(arrived)),
        (desired_when_free, CompletionView::Pending),
    ];
    lemma_busy_ticks_send_nothing(s, desired_while_busy, tail);
    let last = seq![(desired_when_free, CompletionView::Pending)];
    assert(request_for(s, desired_when_free) is None);
    let s1 = tick_state(s, desired_when_free, CompletionView::Arrived(arrived));
    assert(tail.drop_first() =~= last);
    let s2 = tick_state(s1, desired_when_free, CompletionView::Pending);
    assert(last.drop_first() =~= Seq::<(TileSpecification, CompletionView)>::empty());
    let none = Seq::<TileSpecification>::empty();
    assert(run(s2, last.drop_first()) == (s2, none));
    if arrived.specification == desired_when_free {
        assert(request_for(s1, desired_when_free) is None);
        assert(run(s1, last) == (s2, none + none));
        assert(none + none =~= none);
        assert(run(s, tail) == (s2, none + none));
    } else {
        assert(request_for(s1, desired_when_free) == Some(desired_when_free));
        assert(run(s1, last) == (s2, seq![desired_when_free] + none));
        assert(seq![desired_when_free] + none =~= seq![desired_when_free]);
        assert(none + seq![desired_when_free] =~= seq![desired_when_free]);
        assert(run(s, tail) == (s2, none + seq![desired_when_free]));
    }
}

/// The foreground state machine of the pipeline.
pub struct Pipeline {
    current: Option<Tile>,
    in_flight: Option<TileSpecification>,
    worker_lost: bool,
}

impl View for Pipeline {
    type V = PipelineView;

    closed spec fn view(&self) -> PipelineView {
        PipelineView {
            current: match self.current {
                Some(t) => Some(t@),
                None => None,
            },
            in_flight: self.in_flight,
            worker_lost: self.worker_lost,
        }
    }
}

impl Pipeline {
    /// A pipeline with no tile yet, nothing in flight and a live worker.
    pub fn new() -> (r: Pipeline)
        ensures
            r@ == (PipelineView { current: None, in_flight: None, worker_lost: false }),
    {
        Pipeline { current: None, in_flight: None, worker_lost: false }
    }

    /// The status with respect to the desired specification.
    pub fn status(&self, desired: &TileSpecification) -> (r: PipelineStatus)
        ensures
            r == status_of(self@, *desired),
    {
        if self.worker_lost {
            PipelineStatus::WorkerUnavailable
        } else if self.in_flight.is_some() {
            PipelineStatus::Requesting
        } else {
            match &self.current {
                Some(t) => {
                    if t.specification() == *desired {
                        PipelineStatus::Fresh
                    } else {
                        PipelineStatus::Stale
                    }
                },
                None => PipelineStatus::Stale,
            }
        }
    }

    /// The tile to render, whatever its freshness.
    pub fn current_tile(&self) -> (r: Option<&Tile>)
        ensures
            match r {
                Some(t) => self@.current == Some(t@),
                None => self@.current is None,
            },
    {
        match &self.current {
            Some(t) => Some(t),
            None => None,
        }
    }

    /// The specification of the request in flight, if any.
    pub fn in_flight(&self) -> (r: Option<TileSpecification>)
        ensures
            r == self@.in_flight,
    {
        self.in_flight
    }

    /// One foreground tick: decides whether to send the desired specification
    /// to the worker (returned, to be sent), then takes in the poll result.
    pub fn tick(&mut self, desired: TileSpecification, completion: Completion) -> (r: Option<
        TileSpecification,
    >)
        ensures
            r == request_for(old(self)@, desired),
            r is Some ==> old(self)@.in_flight is None,
            final(self)@ == tick_state(old(self)@, desired, completion@),
    {
        let request = if self.status(&desired) == PipelineStatus::Stale {
            self.in_flight = Some(desired);
            Some(desired)
        } else {
            None
        };
        match completion {
            Completion::Pending => {},
            Completion::Arrived(tile) => {
                self.current = Some(tile);
                self.in_flight = None;
            },
            Completion::Disconnected => {
                self.worker_lost = true;
                self.in_flight = None;
            },
        }
        request
    }

    /// After the host restarted the worker: nothing is in flight, and the next
    /// tick re-sends the desired specification unless the current tile matches.
    pub fn worker_restarted(&mut self)
        ensures
            final(self)@ == (PipelineView {
                current: old(self)@.current,
                in_flight: None,
                worker_lost: false,
            }),
    {
        self.worker_lost = false;
        self.in_flight = None;
    }
}

} // verus!
