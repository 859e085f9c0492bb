//! The handoff of data from the audio thread to the editor, through triple buffers.

use vstd::prelude::*;

use crate::analyzer::AnalyzerData;
use crate::frozen_ir::FrozenIrData;

use std::sync::Arc;

verus! {

/// The producer's end of a triple buffer.
#[verifier::external_type_specification]
#[verifier::external_body]
#[verifier::reject_recursive_types(T)]
pub struct ExInput<T: Send>(triple_buffer::Input<T>);

/// The analyzer data in the buffer that the producer may write to.
pub uninterp spec fn pending_analysis(input: triple_buffer::Input<AnalyzerData>) -> AnalyzerData;

/// The analyzer data that the producer published last.
pub uninterp spec fn published_analysis(input: triple_buffer::Input<AnalyzerData>) -> AnalyzerData;

/// The snapshot in the buffer that the producer may write to.
pub uninterp spec fn pending_snapshot(input: triple_buffer::Input<FrozenIrData>) -> FrozenIrData;

/// The snapshot that the producer published last.
pub uninterp spec fn published_snapshot(input: triple_buffer::Input<FrozenIrData>) -> FrozenIrData;

/// `triple_buffer::Input::input_buffer`: gives access to the buffer that the producer may write to.
/// What was published stays what it was.
#[verifier::external_body]
pub(crate) fn analysis_buffer(input: &mut triple_buffer::Input<AnalyzerData>) -> (data:
    &mut AnalyzerData)
    ensures
        *data == pending_analysis(*old(input)),
        pending_analysis(*final(input)) == *final(data),
        published_analysis(*final(input)) == published_analysis(*old(input)),
{
    input.input_buffer()
}

/// `triple_buffer::Input::publish`: hands the buffer that the producer wrote to over to the
/// consumer, and makes another one the buffer to write to, of whose contents nothing is known.
#[verifier::external_body]
pub(crate) fn publish_analysis(input: &mut triple_buffer::Input<AnalyzerData>)
    ensures
        published_analysis(*final(input)) == pending_analysis(*old(input)),
{
    input.publish();
}

/// `triple_buffer::Input::input_buffer`: gives access to the buffer that the producer may write to.
/// What was published stays what it was.
#[verifier::external_body]
pub(crate) fn snapshot_buffer(input: &mut triple_buffer::Input<FrozenIrData>) -> (snapshot:
    &mut FrozenIrData)
    ensures
        *snapshot == pending_snapshot(*old(input)),
        pending_snapshot(*final(input)) == *final(snapshot),
        published_snapshot(*final(input)) == published_snapshot(*old(input)),
{
    input.input_buffer()
}

/// `triple_buffer::Input::publish`: hands the buffer that the producer wrote to over to the
/// consumer, and makes another one the buffer to write to, of whose contents nothing is known.
#[verifier::external_body]
pub(crate) fn publish_snapshot(input: &mut triple_buffer::Input<FrozenIrData>)
    ensures
        published_snapshot(*final(input)) == pending_snapshot(*old(input)),
{
    input.publish();
}

/// The consumer's end of a triple buffer.
#[verifier::external_type_specification]
#[verifier::external_body]
#[verifier::reject_recursive_types(T)]
pub struct ExOutput<T: Send>(triple_buffer::Output<T>);

/// A cell that is borrowed at run time.
#[verifier::external_type_specification]
#[verifier::external_body]
#[verifier::reject_recursive_types(T)]
pub struct ExAtomicRefCell<T: ?Sized>(atomic_refcell::AtomicRefCell<T>);

/// The snapshots that the editor's widgets share.
pub struct SnapshotReader {
    cell: Arc<atomic_refcell::AtomicRefCell<triple_buffer::Output<FrozenIrData>>>,
}

/// `atomic_refcell::AtomicRefCell::try_borrow_mut` and `triple_buffer::Output::read`: the latest
/// snapshot that was published, unless someone else holds the cell. Which one it is, and whether
/// there is one, depends on other threads, so nothing is claimed of it.
#[verifier::external_body]
fn read_snapshot(
    cell: &atomic_refcell::AtomicRefCell<triple_buffer::Output<FrozenIrData>>,
) -> Option<FrozenIrData> {
    match cell.try_borrow_mut() {
        Ok(mut output) => Some(output.read().clone()),
        Err(_) => None,
    }
}

/// Whether there is a snapshot to export, where `snapshot` is what could be read.
pub fn is_exportable(snapshot: &Option<FrozenIrData>) -> (r: bool)
    ensures
        r == (snapshot matches Some(data) && data.valid),
{
    match snapshot {
        Some(data) => data.valid,
        None => false,
    }
}

/// The snapshot to export, where `snapshot` is what could be read.
#[verifier::allow_in_spec]
pub fn exportable(snapshot: Option<FrozenIrData>) -> Option<FrozenIrData>
    returns
        (if (snapshot matches Some(data) && data.valid) {
            snapshot
        } else {
            None
        }),
{
    if is_exportable(&snapshot) {
        snapshot
    } else {
        None
    }
}

impl SnapshotReader {
    /// Where the snapshots are read from.
    pub closed spec fn source(self) -> Arc<
        atomic_refcell::AtomicRefCell<triple_buffer::Output<FrozenIrData>>,
    > {
        self.cell
    }

    pub fn new(
        cell: Arc<atomic_refcell::AtomicRefCell<triple_buffer::Output<FrozenIrData>>>,
    ) -> (reader: SnapshotReader)
        ensures
            reader.source() == cell,
    {
        SnapshotReader { cell }
    }

    /// Another handle to the same snapshots.
    pub fn handle(&self) -> (reader: SnapshotReader)
        ensures
            reader.source() == self.source(),
    {
        SnapshotReader { cell: self.cell.clone() }
    }

    /// `snapshot` is what could be read.
    pub closed spec fn is_read(self, snapshot: Option<FrozenIrData>) -> bool {
        call_ensures(read_snapshot, (&*self.cell,), snapshot)
    }

    /// `r` tells whether what could be read is a snapshot to export.
    pub open spec fn tells_exportable(self, r: bool) -> bool {
        exists|snapshot: Option<FrozenIrData>| #[trigger]
            self.is_read(snapshot) && r == (exportable(snapshot) is Some)
    }

    /// Whether there is a snapshot to export.
    pub fn can_export(&self) -> (r: bool)
        ensures
            self.tells_exportable(r),
    {
        let snapshot = read_snapshot(&self.cell);
        assert(self.is_read(snapshot));
        is_exportable(&snapshot)
    }

    /// `r` is the snapshot to export of what could be read, if it is one.
    pub open spec fn gives_exportable(self, r: Option<FrozenIrData>) -> bool {
        exists|snapshot: Option<FrozenIrData>| #[trigger]
            self.is_read(snapshot) && r == exportable(snapshot)
    }

    /// The snapshot to export, if there is one. A snapshot that is handed out is a valid one.
    pub fn snapshot_to_export(&self) -> (r: Option<FrozenIrData>)
        ensures
            r matches Some(snapshot) ==> snapshot.valid,
            self.gives_exportable(r),
    {
        let snapshot = read_snapshot(&self.cell);
        assert(self.is_read(snapshot));
        exportable(snapshot)
    }
}

} // verus!
