//! The stage that collects the midpoint of every frame.

use vstd::prelude::*;
use crate::error::Error;
use crate::midpoint::generate::{doubled_midpoint, midpoint_of};
use crate::pipeline::{message_views, MessageView, PipelineMessage};
use crate::utils::copy_vec;

verus! {

/// What the stage is configured with: where the midpoints are written.
#[derive(Debug)]
pub struct Args {
    pub des: String,
}

/// The stage: it keeps the midpoint of each frame it has seen, doubled, in
/// the order of the frames, and where they are to be written.
#[derive(Debug)]
pub struct Midpoint {
    pub des: String,
    pub midpoints: Vec<[i64; 3]>,
}

/// The doubled midpoints of the frames among the messages, in their order.
pub open spec fn midpoints_of(messages: Seq<MessageView>) -> Seq<[i64; 3]>
    decreases messages.len(),
{
    if messages.len() == 0 {
        Seq::empty()
    } else {
        let before = midpoints_of(messages.drop_last());
        match messages.last() {
            MessageView::IndexedPointCloud(pc, _) => before.push(doubled_midpoint(pc.points)),
            _ => before,
        }
    }
}

/// The number of end messages among the messages.
pub open spec fn ends_in(messages: Seq<MessageView>) -> int
    decreases messages.len(),
{
    if messages.len() == 0 {
        0
    } else {
        ends_in(messages.drop_last()) + (if messages.last() is End {
            1int
        } else {
            0int
        })
    }
}

/// Whether the message is a frame without points.
pub open spec fn is_empty_frame(message: MessageView) -> bool {
    message matches MessageView::IndexedPointCloud(pc, _) && pc.points.len() == 0
}

/// Whether one of the messages is a frame without points.
pub open spec fn has_empty_frame(messages: Seq<MessageView>) -> bool {
    exists|k: int| 0 <= k < messages.len() && is_empty_frame(#[trigger] messages[k])
}

impl Midpoint {
    /// The stage for the given arguments, with no midpoint yet.
    pub fn from_args(args: Args) -> (stage: Self)
        ensures
            stage.des == args.des,
            stage.midpoints@.len() == 0,
    {
        Midpoint { des: args.des, midpoints: Vec::new() }
    }

    /// Takes the midpoint of every frame among the messages and answers with
    /// an end message for every end message. A frame without points is
    /// rejected, and then no midpoint is kept and nothing is answered.
    pub fn handle(&mut self, messages: Vec<PipelineMessage>) -> (r: Result<Vec<PipelineMessage>, Error>)
        ensures
            final(self).des == old(self).des,
            has_empty_frame(message_views(messages@)) ==> r is Err && r->Err_0 == Error::EmptyInput
                && final(self).midpoints == old(self).midpoints,
            !has_empty_frame(message_views(messages@)) ==> r is Ok && final(self).midpoints@ == old(self).midpoints@ + midpoints_of(message_views(messages@)) && r->Ok_0@.len() == ends_in(
                message_views(messages@),
            ) && forall|k: int| 0 <= k < r->Ok_0@.len() ==> (#[trigger] r->Ok_0@[k])@ is End,
    {
        let ghost views = message_views(messages@);
        let mut found: Vec<[i64; 3]> = copy_vec(&self.midpoints);
        let mut out: Vec<PipelineMessage> = Vec::new();
        let n: usize = messages.len();
        let mut k: usize = 0;
        assert(views.take(0) =~= Seq::<MessageView>::empty());
        assert(found@ =~= self.midpoints@ + midpoints_of(views.take(0)));
        while k < n
            invariant
                k <= n,
                n == messages@.len(),
                views == message_views(messages@),
                *self == *old(self),
                !has_empty_frame(views.take(k as int)),
                found@ == self.midpoints@ + midpoints_of(views.take(k as int)),
                out@.len() == ends_in(views.take(k as int)),
                forall|t: int| 0 <= t < out@.len() ==> (#[trigger] out@[t])@ is End,
            decreases n - k,
        {
            proof {
                assert(messages@[k as int]@ == views[k as int]);
                assert(views.take(k + 1).drop_last() =~= views.take(k as int));
                assert(views.take(k + 1).last() == views[k as int]);
            }
            match &messages[k] {
                PipelineMessage::IndexedPointCloud(pc, _) => {
                    match midpoint_of(pc) {
                        Ok(midpoint) => {
                            found.push(midpoint);
                            assert(found@ =~= self.midpoints@ + midpoints_of(views.take(k + 1)));
                        },
                        Err(e) => {
                            assert(is_empty_frame(views[k as int]));
                            return Err(e);
                        },
                    }
                },
                PipelineMessage::End => {
                    out.push(PipelineMessage::End);
                },
                _ => {},
            }
            proof {
                assert(!has_empty_frame(views.take(k + 1))) by {
                    if has_empty_frame(views.take(k + 1)) {
                        let t = choose|t: int|
                            0 <= t < views.take(k + 1).len() && is_empty_frame(
                                #[trigger] views.take(k + 1)[t],
                            );
                        if t < k {
                            assert(views.take(k as int)[t] == views.take(k + 1)[t]);
                        }
                    }
                }
            }
            k = k + 1;
        }
        assert(views.take(n as int) =~= views);
        self.midpoints = found;
        Ok(out)
    }
}

} // verus!
