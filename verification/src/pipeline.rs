//! The messages that pass between the stages of a pipeline, and the stages
//! themselves. A stage answers the messages it is handed with the messages
//! to send on; sending is the caller's part.

use vstd::prelude::*;
use vstd::string::StringExecFns;
use crate::formats::bounds::Bounds;
use crate::formats::metadata::count_rows;
use crate::formats::pointcloud::{PointCloud, PointCloudView};

pub mod subcommands;

verus! {

/// A message between two stages.
#[derive(Debug)]
pub enum PipelineMessage {
    /// A frame with its number.
    IndexedPointCloud(PointCloud, u32),
    /// A part of a frame with the frame's number and the name of the part.
    IndexedPointCloudWithName(PointCloud, u32, String),
    /// The description of a frame: its bounds, the base points per segment,
    /// the number of additional resolutions, the partition, and what each
    /// resolution adds to each segment.
    MetaData(Bounds, Vec<usize>, usize, (usize, usize, usize), Vec<Vec<usize>>),
    /// A message that only counts.
    DummyForIncrement,
    /// The end of the stream.
    End,
}

/// What a message holds, as sequences.
pub enum MessageView {
    IndexedPointCloud(PointCloudView, u32),
    IndexedPointCloudWithName(PointCloudView, u32, Seq<char>),
    MetaData(Bounds, Seq<usize>, usize, (usize, usize, usize), Seq<Seq<usize>>),
    DummyForIncrement,
    End,
}

impl View for PipelineMessage {
    type V = MessageView;

    open spec fn view(&self) -> MessageView {
        match *self {
            PipelineMessage::IndexedPointCloud(pc, i) => MessageView::IndexedPointCloud(pc@, i),
            PipelineMessage::IndexedPointCloudWithName(pc, i, name) => MessageView::IndexedPointCloudWithName(
                pc@,
                i,
                name@,
            ),
            PipelineMessage::MetaData(bound, base, levels, partitions, counts) => MessageView::MetaData(
                bound,
                base@,
                levels,
                partitions,
                count_rows(counts@),
            ),
            PipelineMessage::DummyForIncrement => MessageView::DummyForIncrement,
            PipelineMessage::End => MessageView::End,
        }
    }
}

/// The views of messages, in their order.
pub open spec fn message_views(messages: Seq<PipelineMessage>) -> Seq<MessageView> {
    Seq::new(messages.len(), |i: int| messages[i]@)
}

/// The digit for a number below ten.
pub open spec fn digit_text(d: int) -> Seq<char> {
    if d == 0 {
        "0"@
    } else if d == 1 {
        "1"@
    } else if d == 2 {
        "2"@
    } else if d == 3 {
        "3"@
    } else if d == 4 {
        "4"@
    } else if d == 5 {
        "5"@
    } else if d == 6 {
        "6"@
    } else if d == 7 {
        "7"@
    } else if d == 8 {
        "8"@
    } else {
        "9"@
    }
}

/// The decimal digits of `n`, the most significant first, without leading
/// zeros.
pub open spec fn decimal_text(n: int) -> Seq<char>
    decreases n,
{
    if n < 10 {
        digit_text(n)
    } else {
        decimal_text(n / 10) + digit_text(n % 10)
    }
}

/// The digit for a number below ten.
fn digit(d: usize) -> (text: &'static str)
    requires
        d < 10,
    ensures
        text@ == digit_text(d as int),
{
    if d == 0 {
        "0"
    } else if d == 1 {
        "1"
    } else if d == 2 {
        "2"
    } else if d == 3 {
        "3"
    } else if d == 4 {
        "4"
    } else if d == 5 {
        "5"
    } else if d == 6 {
        "6"
    } else if d == 7 {
        "7"
    } else if d == 8 {
        "8"
    } else {
        "9"
    }
}

/// The number in decimal digits.
pub fn decimal(n: usize) -> (text: String)
    ensures
        text@ == decimal_text(n as int),
    decreases n,
{
    if n < 10 {
        String::from_str(digit(n))
    } else {
        let mut text = decimal(n / 10);
        text.append(digit(n % 10));
        text
    }
}

} // verus!
