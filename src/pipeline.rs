use vstd::prelude::*;

verus! {

/// A resolution in pixels.
#[derive(Clone, Copy, Debug, PartialEq, Eq, Structural)]
pub struct FrameSize {
    pub width: u32,
    pub height: u32,
}

/// A command sent to the render thread.
#[derive(Clone, Copy, Debug, PartialEq, Eq, Structural)]
pub enum RendererCmd {
    Stop,
    Resize { width: u32, height: u32 },
}

/// What one non-blocking poll of the command channel gave.
#[derive(Clone, Copy, Debug, PartialEq, Eq, Structural)]
pub enum CmdPoll {
    Received(RendererCmd),
    Empty,
    Disconnected,
}

/// What the render thread does after a poll.
#[derive(Clone, Copy, Debug, PartialEq, Eq, Structural)]
pub enum CmdDecision {
    /// Poll again, remembering the latest resize seen so far.
    KeepPolling { pending: Option<FrameSize> },
    /// The queue is drained: apply the resize, if any, and render a pass.
    Apply { resize: Option<FrameSize> },
    /// Leave the render loop.
    Stop,
}

pub open spec fn receive_spec(pending: Option<FrameSize>, poll: CmdPoll) -> CmdDecision {
    match poll {
        CmdPoll::Received(RendererCmd::Resize { width, height }) => CmdDecision::KeepPolling {
            pending: Some(FrameSize { width, height }),
        },
        CmdPoll::Received(RendererCmd::Stop) => CmdDecision::Stop,
        CmdPoll::Disconnected => CmdDecision::Stop,
        CmdPoll::Empty => CmdDecision::Apply { resize: pending },
    }
}

/// Decides on one poll of the command channel: a resize replaces the pending one, `Stop` or
/// a closed channel ends the loop, an empty queue ends the drain.
pub fn receive_command(pending: Option<FrameSize>, poll: CmdPoll) -> (r: CmdDecision)
    ensures
        r == receive_spec(pending, poll),
{
    match poll {
        CmdPoll::Received(RendererCmd::Resize { width, height }) => CmdDecision::KeepPolling {
            pending: Some(FrameSize { width, height }),
        },
        CmdPoll::Received(RendererCmd::Stop) => CmdDecision::Stop,
        CmdPoll::Disconnected => CmdDecision::Stop,
        CmdPoll::Empty => CmdDecision::Apply { resize: pending },
    }
}

/// The decision reached by polling `polls` in turn, starting with `pending`, until one of them
/// ends the drain.
pub open spec fn drain_spec(pending: Option<FrameSize>, polls: Seq<CmdPoll>) -> CmdDecision
    decreases polls.len(),
{
    if polls.len() == 0 {
        CmdDecision::KeepPolling { pending }
    } else {
        match receive_spec(pending, polls[0]) {
            CmdDecision::KeepPolling { pending: p } => drain_spec(p, polls.drop_first()),
            d => d,
        }
    }
}

/// The polls that deliver `cmds` in order and then find the queue empty.
pub open spec fn delivered(cmds: Seq<RendererCmd>) -> Seq<CmdPoll> {
    cmds.map_values(|c: RendererCmd| CmdPoll::Received(c)).push(CmdPoll::Empty)
}

pub open spec fn is_stop(c: RendererCmd) -> bool {
    c == RendererCmd::Stop
}

/// The size of the last resize in `cmds`, or `pending` where there is none.
pub open spec fn last_resize(pending: Option<FrameSize>, cmds: Seq<RendererCmd>) -> Option<FrameSize>
    decreases cmds.len(),
{
    if cmds.len() == 0 {
        pending
    } else {
        match cmds.last() {
            RendererCmd::Resize { width, height } => Some(FrameSize { width, height }),
            RendererCmd::Stop => last_resize(pending, cmds.drop_last()),
        }
    }
}

proof fn lemma_drain_resizes(pending: Option<FrameSize>, cmds: Seq<RendererCmd>)
    requires
        forall|i: int| 0 <= i < cmds.len() ==> !is_stop(#[trigger] cmds[i]),
    ensures
        drain_spec(pending, delivered(cmds)) == (CmdDecision::Apply {
            resize: last_resize(pending, cmds),
        }),
    decreases cmds.len(),
{
    if cmds.len() == 0 {
        assert(delivered(cmds) =~= seq![CmdPoll::Empty]);
        assert(delivered(cmds).drop_first().len() == 0);
    } else {
        let c = cmds[0];
        assert(!is_stop(c));
        let rest = cmds.drop_first();
        assert(delivered(cmds).drop_first() =~= delivered(rest));
        match c {
            RendererCmd::Resize { width, height } => {
                assert forall|i: int| 0 <= i < rest.len() implies !is_stop(#[trigger] rest[i]) by {
                    assert(rest[i] == cmds[i + 1]);
                }
                lemma_drain_resizes(Some(FrameSize { width, height }), rest);
                lemma_last_resize_front(pending, cmds, width, height);
            },
            RendererCmd::Stop => {},
        }
    }
}

proof fn lemma_last_resize_front(
    pending: Option<FrameSize>,
    cmds: Seq<RendererCmd>,
    width: u32,
    height: u32,
)
    requires
        cmds.len() > 0,
        cmds[0] == (RendererCmd::Resize { width, height }),
    ensures
        last_resize(pending, cmds) == last_resize(Some(FrameSize { width, height }), cmds.drop_first()),
    decreases cmds.len(),
{
    if cmds.len() > 1 {
        let q = cmds.drop_last();
        assert(q[0] == cmds[0]);
        lemma_last_resize_front(pending, q, width, height);
        assert(q.drop_first() =~= cmds.drop_first().drop_last());
    }
}

/// Draining a queue that holds only resizes applies the last of them ("last write wins"), or
/// none where the queue is empty.
pub proof fn lemma_last_resize_wins(cmds: Seq<RendererCmd>)
    requires
        forall|i: int| 0 <= i < cmds.len() ==> !is_stop(#[trigger] cmds[i]),
    ensures
        drain_spec(None, delivered(cmds)) == (CmdDecision::Apply { resize: last_resize(None, cmds) }),
        cmds.len() == 0 ==> last_resize(None, cmds) is None,
        cmds.len() > 0 ==> (last_resize(None, cmds) matches Some(s) && cmds.last() == (
        RendererCmd::Resize { width: s.width, height: s.height })),
{
    lemma_drain_resizes(None, cmds);
    if cmds.len() > 0 {
        assert(!is_stop(cmds[cmds.len() - 1]));
    }
}

/// A `Stop` in the queue ends the loop, whatever was sent before or after it.
pub proof fn lemma_stop_is_never_lost(
    pending: Option<FrameSize>,
    cmds: Seq<RendererCmd>,
    later: Seq<CmdPoll>,
)
    requires
        exists|i: int| 0 <= i < cmds.len() && is_stop(#[trigger] cmds[i]),
    ensures
        drain_spec(pending, cmds.map_values(|c: RendererCmd| CmdPoll::Received(c)) + later)
            == CmdDecision::Stop,
    decreases cmds.len(),
{
    let polls = cmds.map_values(|c: RendererCmd| CmdPoll::Received(c)) + later;
    let rest = cmds.drop_first();
    assert(polls[0] == CmdPoll::Received(cmds[0]));
    match cmds[0] {
        RendererCmd::Stop => {},
        RendererCmd::Resize { width, height } => {
            let i = choose|i: int| 0 <= i < cmds.len() && is_stop(#[trigger] cmds[i]);
            assert(i > 0);
            assert(rest[i - 1] == cmds[i]);
            assert(polls.drop_first() =~= rest.map_values(|c: RendererCmd| CmdPoll::Received(c))
                + later);
            lemma_stop_is_never_lost(Some(FrameSize { width, height }), rest, later);
        },
    }
}

/// The resolution and sample count of the progressive render.
#[derive(Clone, Copy, Debug, PartialEq, Eq, Structural)]
pub struct FrameState {
    pub width: u32,
    pub height: u32,
    /// Passes accumulated since the last reset.
    pub samples: usize,
}

/// The state after a resize to `width` x `height`: a zero-area target keeps the previous state.
pub open spec fn resized(s: FrameState, width: u32, height: u32) -> FrameState {
    if width == 0 || height == 0 {
        s
    } else {
        FrameState { width, height, samples: 0 }
    }
}

pub open spec fn pixel_count_spec(s: FrameState) -> int {
    s.width * s.height
}

impl FrameState {
    /// A render of `width` x `height` pixels with no pass accumulated yet.
    pub fn new(width: u32, height: u32) -> (r: Self)
        ensures
            r == (FrameState { width, height, samples: 0 }),
    {
        FrameState { width, height, samples: 0 }
    }

    /// Applies a resize. A zero-area target is skipped and the previous frame kept; any other
    /// target resets the sample count. Returns whether the accumulated passes are discarded.
    pub fn apply_resize(&mut self, width: u32, height: u32) -> (reset: bool)
        ensures
            *final(self) == resized(*old(self), width, height),
            reset == (width > 0 && height > 0),
    {
        if width == 0 || height == 0 {
            false
        } else {
            self.width = width;
            self.height = height;
            self.samples = 0;
            true
        }
    }

    /// Number of pixels of the frame, `width * height`, or `None` where it does not fit in a
    /// `usize`.
    pub fn pixel_count(&self) -> (r: Option<usize>)
        ensures
            r is Some <==> pixel_count_spec(*self) <= usize::MAX,
            r matches Some(n) ==> n == pixel_count_spec(*self),
    {
        (self.width as usize).checked_mul(self.height as usize)
    }

    /// Starts one pass: counts it and returns the number of passes accumulated, which divides
    /// the running sums.
    pub fn begin_pass(&mut self) -> (n: usize)
        requires
            old(self).samples < usize::MAX,
        ensures
            final(self).samples == old(self).samples + 1,
            final(self).width == old(self).width,
            final(self).height == old(self).height,
            n == final(self).samples,
    {
        self.samples = self.samples + 1;
        self.samples
    }
}

/// Row-major index of pixel `(x, y)` in a frame `width` pixels wide.
pub fn pixel_index(x: usize, y: usize, width: usize, height: usize) -> (i: usize)
    requires
        x < width,
        y < height,
        width * height <= usize::MAX,
    ensures
        i == x + y * width,
        i < width * height,
{
    proof {
        assert(y * width + x < height * width) by (nonlinear_arith)
            requires
                x < width,
                y < height,
        ;
        assert(width * height == height * width) by (nonlinear_arith);
    }
    x + y * width
}

/// Makes `buf` hold `len` items. Where `reset` is set or the length changes, every item is
/// `zero`; otherwise `buf` is left as it was.
pub fn prepare_buffer<T: Copy>(buf: &mut Vec<T>, len: usize, zero: T, reset: bool)
    ensures
        final(buf)@.len() == len,
        (reset || old(buf)@.len() != len) ==> final(buf)@ == Seq::new(len as nat, |i: int| zero),
        !(reset || old(buf)@.len() != len) ==> final(buf)@ == old(buf)@,
{
    if reset || buf.len() != len {
        buf.clear();
        let mut i: usize = 0;
        while i < len
            invariant
                i <= len,
                buf@ == Seq::new(i as nat, |k: int| zero),
            decreases len - i,
        {
            buf.push(zero);
            i = i + 1;
            assert(buf@ =~= Seq::new(i as nat, |k: int| zero));
        }
    }
}

/// Resizing twice to the same size leaves the same state as resizing once.
pub proof fn lemma_resize_idempotent(s: FrameState, width: u32, height: u32)
    ensures
        resized(resized(s, width, height), width, height) == resized(s, width, height),
{
}

/// A resize to a zero-area target, then to `width` x `height`, leaves the state that the
/// second resize alone gives: a frame of `width * height` pixels with no pass accumulated.
pub proof fn lemma_zero_resize_recovers(s: FrameState, width: u32, height: u32)
    requires
        width > 0,
        height > 0,
    ensures
        resized(resized(s, 0, 0), width, height) == resized(s, width, height),
        pixel_count_spec(resized(resized(s, 0, 0), width, height)) == width * height,
        resized(resized(s, 0, 0), width, height).samples == 0,
        resized(s, 0, 0) == s,
{
}

} // verus!
