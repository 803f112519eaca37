//! The stage that turns every frame into its base, its segments and its
//! description.

use vstd::prelude::*;
use vstd::string::StringExecFns;
use crate::counts::sum_counts;
use crate::error::Error;
use crate::formats::bounds::{cell_count, valid_partition, Bounds};
use crate::formats::metadata::count_rows;
use crate::formats::pointcloud::{cloud_views, PointCloud, PointCloudView};
use crate::lodify::{cells_of, lodify, lodify_outcome, partition};
use crate::pipeline::{decimal, decimal_text, message_views, MessageView, PipelineMessage};
use crate::utils::{bounding_box, copy_vec, get_pc_bound};

verus! {

/// What the stage is configured with: the partition along each axis, the
/// proportions of the layers, and the number of points per voxel below which
/// subsampling does not refine its grid.
#[derive(Debug)]
pub struct Args {
    pub x_partition: usize,
    pub y_partition: usize,
    pub z_partition: usize,
    pub proportions: Vec<usize>,
    pub points_per_voxel_threshold: usize,
}

/// The stage.
#[derive(Debug)]
pub struct Lodifier {
    pub partitions: (usize, usize, usize),
    pub proportions: Vec<usize>,
    pub points_per_voxel_threshold: usize,
}

/// The number of base points in each cell of the partition.
pub open spec fn base_counts(base: PointCloudView, partitions: (usize, usize, usize)) -> Seq<usize> {
    Seq::new(cell_count(partitions) as nat, |s: int| cells_of(base.points, partitions)[s].len() as usize)
}

/// The number of additional resolutions that the counts describe: the
/// length of the list of the first segment, and none without segments.
pub open spec fn levels_of(counts: Seq<Seq<usize>>) -> usize {
    if counts.len() == 0 {
        0
    } else {
        counts[0].len() as usize
    }
}

/// The messages for frame `i`: its base under the name `base`, each segment
/// under its number, and the description of the frame.
pub open spec fn frame_message_views(
    bound: Bounds,
    i: u32,
    base: PointCloudView,
    base_point_num: Seq<usize>,
    segments: Seq<PointCloudView>,
    partitions: (usize, usize, usize),
    counts: Seq<Seq<usize>>,
) -> Seq<MessageView> {
    seq![MessageView::IndexedPointCloudWithName(base, i, "base"@)] + Seq::new(
        segments.len(),
        |s: int| MessageView::IndexedPointCloudWithName(segments[s], i, decimal_text(s)),
    ) + seq![MessageView::MetaData(bound, base_point_num, levels_of(counts), partitions, counts)]
}

/// The messages for a frame, from the ladder that was built for it.
pub fn frame_messages(
    bound: Bounds,
    i: u32,
    base_pc: PointCloud,
    base_point_num: Vec<usize>,
    pc_by_segment: Vec<PointCloud>,
    partitions: (usize, usize, usize),
    point_num_by_res: Vec<Vec<usize>>,
) -> (out: Vec<PipelineMessage>)
    ensures
        message_views(out@) == frame_message_views(
            bound,
            i,
            base_pc@,
            base_point_num@,
            cloud_views(pc_by_segment@),
            partitions,
            count_rows(point_num_by_res@),
        ),
{
    let ghost segments = cloud_views(pc_by_segment@);
    let ghost expected = frame_message_views(
        bound,
        i,
        base_pc@,
        base_point_num@,
        segments,
        partitions,
        count_rows(point_num_by_res@),
    );
    let n: usize = pc_by_segment.len();
    let mut reversed: Vec<PipelineMessage> = Vec::new();
    let mut rest = pc_by_segment;
    let mut left: usize = n;
    while left > 0
        invariant
            left <= n,
            n == segments.len(),
            rest@.len() == left,
            forall|s: int| 0 <= s < left ==> (#[trigger] rest@[s])@ == segments[s],
            reversed@.len() == n - left,
            forall|t: int|
                0 <= t < n - left ==> (#[trigger] reversed@[t])@ == MessageView::IndexedPointCloudWithName(
                    segments[n - 1 - t],
                    i,
                    decimal_text(n - 1 - t),
                ),
        decreases left,
    {
        let ghost before = rest@;
        let pc = rest.pop().unwrap();
        left = left - 1;
        assert(pc@ == segments[left as int]) by {
            assert(pc == before[left as int]);
        }
        assert forall|s: int| 0 <= s < left implies (#[trigger] rest@[s])@ == segments[s] by {
            assert(rest@[s] == before[s]);
        }
        reversed.push(PipelineMessage::IndexedPointCloudWithName(pc, i, decimal(left)));
    }
    let mut out: Vec<PipelineMessage> = Vec::new();
    out.push(PipelineMessage::IndexedPointCloudWithName(base_pc, i, String::from_str("base")));
    let mut done: usize = 0;
    while done < n
        invariant
            done <= n,
            n == segments.len(),
            reversed@.len() == n - done,
            forall|t: int|
                0 <= t < n - done ==> (#[trigger] reversed@[t])@ == MessageView::IndexedPointCloudWithName(
                    segments[n - 1 - t],
                    i,
                    decimal_text(n - 1 - t),
                ),
            out@.len() == done + 1,
            out@[0]@ == expected[0],
            forall|s: int| 0 <= s < done ==> (#[trigger] out@[s + 1])@ == expected[s + 1],
            expected.len() == n + 2,
            forall|s: int|
                0 <= s < n ==> #[trigger] expected[s + 1] == MessageView::IndexedPointCloudWithName(
                    segments[s],
                    i,
                    decimal_text(s),
                ),
        decreases n - done,
    {
        let ghost before = reversed@;
        let ghost sent = out@;
        let message = reversed.pop().unwrap();
        assert(message == before[n - done - 1]);
        assert forall|t: int| 0 <= t < n - done - 1 implies (#[trigger] reversed@[t])@
            == MessageView::IndexedPointCloudWithName(segments[n - 1 - t], i, decimal_text(n - 1 - t)) by {
            assert(reversed@[t] == before[t]);
        }
        out.push(message);
        assert forall|s: int| 0 <= s < done + 1 implies (#[trigger] out@[s + 1])@ == expected[s + 1] by {
            if s < done {
                assert(out@[s + 1] == sent[s + 1]);
            }
        }
        assert(out@[0] == sent[0]);
        done = done + 1;
    }
    let levels: usize = if point_num_by_res.len() == 0 {
        0
    } else {
        point_num_by_res[0].len()
    };
    let ghost sent = out@;
    out.push(PipelineMessage::MetaData(bound, base_point_num, levels, partitions, point_num_by_res));
    proof {
        assert forall|s: int| 0 <= s < n + 2 implies (#[trigger] message_views(out@)[s]) == expected[s] by {
            if s == 0 {
                assert(out@[0] == sent[0]);
            } else if s <= n {
                assert(out@[s] == sent[s]);
                assert(out@[(s - 1) + 1]@ == expected[(s - 1) + 1]);
            }
        }
        assert(message_views(out@) =~= expected);
    }
    out
}

/// Whether `part` holds the messages of some ladder of frame `i`: its base
/// under the name `base`, each segment under its number, and its
/// description with its bounding box and the base points per cell.
pub open spec fn answers_frame(
    partitions: (usize, usize, usize),
    proportions: Seq<usize>,
    threshold: usize,
    pc: PointCloudView,
    i: u32,
    part: Seq<MessageView>,
) -> bool {
    exists|base: PointCloud, segments: Seq<PointCloud>, counts: Seq<Vec<usize>>|
        {
            &&& #[trigger] lodify_outcome(pc, partitions, proportions, threshold, base, segments, counts)
            &&& part == frame_message_views(
                bounding_box(pc.points),
                i,
                base@,
                base_counts(base@, partitions),
                cloud_views(segments),
                partitions,
                count_rows(counts),
            )
        }
}

/// What the stage answers to one message: an end message to an end message;
/// to a frame the messages of some ladder of the frame; nothing to anything
/// else.
pub open spec fn answers(
    partitions: (usize, usize, usize),
    proportions: Seq<usize>,
    threshold: usize,
    message: MessageView,
    part: Seq<MessageView>,
) -> bool {
    match message {
        MessageView::End => part == seq![MessageView::End],
        MessageView::IndexedPointCloud(pc, i) => answers_frame(
            partitions,
            proportions,
            threshold,
            pc,
            i,
            part,
        ),
        _ => part.len() == 0,
    }
}

/// Whether `out` answers `messages` when it is cut at `cuts`: there is one
/// more cut than messages, the cuts run from the start of `out` to its end
/// without going back, and what lies between cut `k` and the next answers
/// message `k`.
pub open spec fn answered_at(
    partitions: (usize, usize, usize),
    proportions: Seq<usize>,
    threshold: usize,
    messages: Seq<MessageView>,
    out: Seq<MessageView>,
    cuts: Seq<int>,
) -> bool {
    &&& cuts.len() == messages.len() + 1
    &&& cuts[0] == 0
    &&& cuts[messages.len() as int] == out.len()
    &&& forall|k: int| 0 <= k < messages.len() ==> 0 <= #[trigger] cuts[k] <= cuts[k + 1] <= out.len()
    &&& forall|k: int|
        0 <= k < messages.len() ==> answers(
            partitions,
            proportions,
            threshold,
            #[trigger] messages[k],
            out.subrange(cuts[k], cuts[k + 1]),
        )
}

/// Whether `out` answers `messages`, one after the other: it falls into one
/// part per message, in the order of the messages, and each part answers its
/// message.
pub open spec fn handled(
    partitions: (usize, usize, usize),
    proportions: Seq<usize>,
    threshold: usize,
    messages: Seq<MessageView>,
    out: Seq<MessageView>,
) -> bool {
    exists|cuts: Seq<int>| #[trigger] answered_at(partitions, proportions, threshold, messages, out, cuts)
}

/// An answer to one more message extends what answers the messages before.
pub proof fn lemma_answered_extend(
    partitions: (usize, usize, usize),
    proportions: Seq<usize>,
    threshold: usize,
    messages: Seq<MessageView>,
    sent: Seq<MessageView>,
    cuts: Seq<int>,
    message: MessageView,
    part: Seq<MessageView>,
)
    requires
        answered_at(partitions, proportions, threshold, messages, sent, cuts),
        answers(partitions, proportions, threshold, message, part),
    ensures
        answered_at(
            partitions,
            proportions,
            threshold,
            messages.push(message),
            sent + part,
            cuts.push((sent.len() + part.len()) as int),
        ),
{
    let all = sent + part;
    let longer = messages.push(message);
    let marks = cuts.push((sent.len() + part.len()) as int);
    assert forall|k: int| 0 <= k < longer.len() implies 0 <= #[trigger] marks[k] <= marks[k + 1]
        <= all.len() by {
        if k < messages.len() {
            assert(marks[k] == cuts[k] && marks[k + 1] == cuts[k + 1]);
        }
    }
    assert forall|k: int| 0 <= k < longer.len() implies answers(
        partitions,
        proportions,
        threshold,
        #[trigger] longer[k],
        all.subrange(marks[k], marks[k + 1]),
    ) by {
        if k < messages.len() {
            assert(longer[k] == messages[k]);
            assert(marks[k] == cuts[k] && marks[k + 1] == cuts[k + 1]);
            assert(all.subrange(marks[k], marks[k + 1]) =~= sent.subrange(cuts[k], cuts[k + 1]));
        } else {
            assert(marks[k] == sent.len());
            assert(all.subrange(marks[k], marks[k + 1]) =~= part);
        }
    }
}

/// Why the stage refuses the messages, if it does: on account of the first
/// frame without points, or, where the partition has a zero, of the first
/// frame.
pub open spec fn first_failure(partitions: (usize, usize, usize), messages: Seq<MessageView>) -> Option<
    Error,
>
    decreases messages.len(),
{
    if messages.len() == 0 {
        None
    } else {
        match messages.first() {
            MessageView::IndexedPointCloud(pc, _) => if pc.points.len() == 0 {
                Some(Error::EmptyInput)
            } else if !valid_partition(partitions) {
                Some(Error::InvalidPartition)
            } else {
                first_failure(partitions, messages.drop_first())
            },
            _ => first_failure(partitions, messages.drop_first()),
        }
    }
}

/// A failure after messages that do not fail is the failure of the whole.
pub proof fn lemma_first_failure_skip(partitions: (usize, usize, usize), messages: Seq<MessageView>, k: int)
    requires
        0 <= k <= messages.len(),
        first_failure(partitions, messages.take(k)) is None,
    ensures
        first_failure(partitions, messages) == first_failure(partitions, messages.skip(k)),
    decreases k,
{
    if k == 0 {
        assert(messages.skip(0) =~= messages);
    } else {
        let head = messages.take(k);
        assert(head.first() == messages.first());
        assert(head.drop_first() =~= messages.drop_first().take(k - 1));
        lemma_first_failure_skip(partitions, messages.drop_first(), k - 1);
        assert(messages.drop_first().skip(k - 1) =~= messages.skip(k));
    }
}

/// Messages that do not fail and one more that does not fail do not fail.
pub proof fn lemma_first_failure_step(partitions: (usize, usize, usize), messages: Seq<MessageView>, k: int)
    requires
        0 <= k < messages.len(),
        first_failure(partitions, messages.take(k)) is None,
    ensures
        first_failure(partitions, messages.take(k + 1)) == first_failure(partitions, seq![messages[k]]),
{
    let longer = messages.take(k + 1);
    assert(longer.take(k) =~= messages.take(k));
    lemma_first_failure_skip(partitions, longer, k);
    assert(longer.skip(k) =~= seq![messages[k]]);
}

impl Lodifier {
    /// Whether the stage can work: there is at least one proportion, the
    /// proportions can be summed, and the cells can be numbered.
    pub open spec fn is_ready(&self) -> bool {
        &&& self.proportions@.len() >= 1
        &&& sum_counts(self.proportions@) <= usize::MAX
        &&& cell_count(self.partitions) <= usize::MAX
    }

    /// Whether the stage can work.
    pub fn check_ready(&self) -> (ready: bool)
        ensures
            ready == self.is_ready(),
    {
        self.proportions.len() >= 1 && crate::counts::sum_fits(&self.proportions)
            && crate::formats::bounds::cells_fit(self.partitions)
    }

    /// The stage for the given arguments.
    pub fn from_args(args: Args) -> (stage: Self)
        ensures
            stage.partitions == (args.x_partition, args.y_partition, args.z_partition),
            stage.proportions == args.proportions,
            stage.points_per_voxel_threshold == args.points_per_voxel_threshold,
    {
        Lodifier {
            partitions: (args.x_partition, args.y_partition, args.z_partition),
            proportions: args.proportions,
            points_per_voxel_threshold: args.points_per_voxel_threshold,
        }
    }

    /// The messages for one frame: its base, its segments and its
    /// description, from a ladder built for it. A frame without points is
    /// rejected first, then a zero in the partition.
    pub fn handle_frame(&self, pc: &PointCloud, i: u32) -> (r: Result<Vec<PipelineMessage>, Error>)
        requires
            self.is_ready(),
        ensures
            pc@.points.len() == 0 ==> r is Err && r->Err_0 == Error::EmptyInput,
            pc@.points.len() > 0 && !valid_partition(self.partitions) ==> r is Err && r->Err_0
                == Error::InvalidPartition,
            pc@.points.len() > 0 && valid_partition(self.partitions) ==> r is Ok && answers(
                self.partitions,
                self.proportions@,
                self.points_per_voxel_threshold,
                MessageView::IndexedPointCloud(pc@, i),
                message_views(r->Ok_0@),
            ),
    {
        let partitions = self.partitions;
        let bound = match get_pc_bound(pc) {
            Ok(bound) => bound,
            Err(e) => {
                return Err(e);
            },
        };
        if partitions.0 == 0 || partitions.1 == 0 || partitions.2 == 0 {
            return Err(Error::InvalidPartition);
        }
        let (base_pc, pc_by_segment, point_num_by_res) = match lodify(
            pc,
            partitions,
            copy_vec(&self.proportions),
            self.points_per_voxel_threshold,
        ) {
            Ok(ladder) => ladder,
            Err(e) => {
                assert(false);
                return Err(e);
            },
        };
        let base_partitioned = match partition(&base_pc, partitions) {
            Ok(base_partitioned) => base_partitioned,
            Err(e) => {
                assert(false);
                return Err(e);
            },
        };
        let ghost cells = cells_of(base_pc@.points, partitions);
        let mut point_nums: Vec<usize> = Vec::new();
        let mut s: usize = 0;
        while s < base_partitioned.segments.len()
            invariant
                s <= base_partitioned.segments@.len(),
                base_partitioned@.segments == cells,
                point_nums@.len() == s,
                forall|t: int| 0 <= t < s ==> #[trigger] point_nums@[t] == cells[t].len(),
            decreases base_partitioned.segments.len() - s,
        {
            assert(base_partitioned@.segments[s as int] == base_partitioned.segments@[s as int]@);
            point_nums.push(base_partitioned.segments[s].points.len());
            s = s + 1;
        }
        proof {
            crate::formats::bounds::lemma_row_major_in_range(
                0,
                0,
                0,
                partitions.0 as int,
                partitions.1 as int,
                partitions.2 as int,
            );
            assert(point_nums@ =~= base_counts(base_pc@, partitions));
        }
        let ghost ladder = (base_pc, pc_by_segment@, point_num_by_res@);
        let part = frame_messages(bound, i, base_pc, point_nums, pc_by_segment, partitions, point_num_by_res);
        proof {
            assert(lodify_outcome(
                pc@,
                partitions,
                self.proportions@,
                self.points_per_voxel_threshold,
                ladder.0,
                ladder.1,
                ladder.2,
            ));
            assert(message_views(part@) == frame_message_views(
                bounding_box(pc@.points),
                i,
                ladder.0@,
                base_counts(ladder.0@, partitions),
                cloud_views(ladder.1),
                partitions,
                count_rows(ladder.2),
            ));
            assert(answers_frame(
                partitions,
                self.proportions@,
                self.points_per_voxel_threshold,
                pc@,
                i,
                message_views(part@),
            ));
            assert(answers(
                partitions,
                self.proportions@,
                self.points_per_voxel_threshold,
                MessageView::IndexedPointCloud(pc@, i),
                message_views(part@),
            ));
        }
        Ok(part)
    }

    /// Answers the messages: every frame with its base, its segments and
    /// its description, every end message with an end message. A frame
    /// without points is rejected, and so is every frame where the partition
    /// has a zero; then nothing is answered.
    pub fn handle(&mut self, messages: Vec<PipelineMessage>) -> (r: Result<Vec<PipelineMessage>, Error>)
        requires
            old(self).is_ready(),
        ensures
            *final(self) == *old(self),
            r is Err == first_failure(old(self).partitions, message_views(messages@)) is Some,
            r is Err ==> Some(r->Err_0) == first_failure(old(self).partitions, message_views(messages@)),
            r is Ok ==> handled(
                old(self).partitions,
                old(self).proportions@,
                old(self).points_per_voxel_threshold,
                message_views(messages@),
                message_views(r->Ok_0@),
            ),
    {
        let ghost views = message_views(messages@);
        let ghost partitions = self.partitions;
        let ghost threshold = self.points_per_voxel_threshold;
        let ghost proportions = self.proportions@;
        let mut out: Vec<PipelineMessage> = Vec::new();
        let n: usize = messages.len();
        let mut k: usize = 0;
        let ghost mut cuts: Seq<int> = seq![0int];
        assert(views.take(0) =~= Seq::<MessageView>::empty());
        while k < n
            invariant
                k <= n,
                n == messages@.len(),
                views == message_views(messages@),
                *self == *old(self),
                self.is_ready(),
                partitions == self.partitions,
                threshold == self.points_per_voxel_threshold,
                proportions == self.proportions@,
                first_failure(partitions, views.take(k as int)) is None,
                answered_at(partitions, proportions, threshold, views.take(k as int), message_views(out@), cuts),
            decreases n - k,
        {
            let ghost sent = message_views(out@);
            proof {
                assert(messages@[k as int]@ == views[k as int]);
                lemma_first_failure_step(partitions, views, k as int);
                lemma_first_failure_skip(partitions, views, k as int);
                assert(views.skip(k as int).first() == views[k as int]);
                assert(seq![views[k as int]].drop_first() =~= Seq::<MessageView>::empty());
                assert(first_failure(partitions, Seq::<MessageView>::empty()) is None);
                assert(views.take(k + 1) =~= views.take(k as int).push(views[k as int]));
            }
            let ghost part_views: Seq<MessageView>;
            match &messages[k] {
                PipelineMessage::IndexedPointCloud(pc, i) => {
                    let mut part = match self.handle_frame(pc, *i) {
                        Ok(part) => part,
                        Err(e) => {
                            return Err(e);
                        },
                    };
                    proof {
                        part_views = message_views(part@);
                    }
                    out.append(&mut part);
                },
                PipelineMessage::End => {
                    proof {
                        part_views = seq![MessageView::End];
                    }
                    out.push(PipelineMessage::End);
                },
                _ => {
                    proof {
                        part_views = Seq::<MessageView>::empty();
                    }
                },
            }
            proof {
                assert(message_views(out@) =~= sent + part_views);
                lemma_answered_extend(
                    partitions,
                    proportions,
                    threshold,
                    views.take(k as int),
                    sent,
                    cuts,
                    views[k as int],
                    part_views,
                );
                cuts = cuts.push((sent.len() + part_views.len()) as int);
            }
            k = k + 1;
        }
        assert(views.take(n as int) =~= views);
        Ok(out)
    }
}

} // verus!
