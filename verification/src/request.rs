//! What a load of trace data asks for.
use vstd::prelude::*;

verus! {

/// Which identifiers the edges of a window graph connect.
#[derive(Clone, Copy, Debug, PartialEq, Eq, Structural)]
pub enum ConnectionProp {
    MicroserviceId,
    InstanceId,
}

/// How windows are numbered: from zero, or from the import start divided by
/// the window size.
#[derive(Clone, Copy, Debug, PartialEq, Eq, Structural)]
pub enum WindowIndexingType {
    FromZero,
    SeqFromStart,
}

/// A load of trace data: the span in seconds, the window size in seconds and
/// how edges are connected and windows numbered.
#[derive(Clone, Copy, Debug, PartialEq, Eq, Structural)]
pub struct LoadRequest {
    pub start_time: u32,
    pub end_time: u32,
    pub window_size: u32,
    pub connection_prop: ConnectionProp,
    pub indexing_type: WindowIndexingType,
}

} // verus!
