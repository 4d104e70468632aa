//! The writer of one bucket, whichever kind of table it belongs to.

use crate::append_laws::{
    law_append_commit_keeps_rows, law_append_commit_leaves_nothing, law_append_resume_keeps_rows,
    law_append_write_keeps_rows,
};
use crate::arrow::{batch_rows, RecordBatch};
use crate::data_file_writer::{DataFileWriter, Phase};
use crate::error::Error;
use crate::key_value_laws::{
    flushed_for_commit, law_key_value_commit_keeps_rows, law_key_value_commit_leaves_nothing,
    law_key_value_resume_keeps_rows, law_key_value_write_keeps_rows,
};
use crate::key_value_writer::{KeyValueFileWriter, KeyValuePhase};
use crate::meta::{rows_in_files, DataFileMeta};
use crate::protocol::{rows_handed_over, Action, Event};
use vstd::prelude::*;

verus! {

/// The writer of one bucket: of an append-only table, or of a primary-key table.
pub enum BucketWriter {
    Append(DataFileWriter),
    KeyValue(KeyValueFileWriter),
}

impl BucketWriter {
    pub open spec fn wf(&self) -> bool {
        match self {
            BucketWriter::Append(w) => w.wf(),
            BucketWriter::KeyValue(w) => w.wf() && flushed_for_commit(*w),
        }
    }

    /// Whether the writer waits for nothing.
    pub open spec fn idle(&self) -> bool {
        match self {
            BucketWriter::Append(w) => w.phase is Idle,
            BucketWriter::KeyValue(w) => w.phase is Idle,
        }
    }

    /// Whether the writer is in the course of taking a batch.
    pub open spec fn in_write(&self) -> bool {
        match self {
            BucketWriter::Append(w) => w.phase is Opening || w.phase is Writing
                || w.phase is Rolling || w.phase is Flushing,
            BucketWriter::KeyValue(w) => !(w.phase is Idle) && !w.committing,
        }
    }

    /// Whether the writer is in the course of a commit.
    pub open spec fn in_commit(&self) -> bool {
        !self.idle() && !self.in_write()
    }

    /// The rows that the writer has taken and not handed over in files.
    pub open spec fn rows(&self) -> int {
        match self {
            BucketWriter::Append(w) => w.rows(),
            BucketWriter::KeyValue(w) => w.rows(),
        }
    }

    /// A batch is taken.
    pub open spec fn writes(
        pre: Self,
        batch: RecordBatch,
        post: Self,
        r: Result<Action, Error>,
    ) -> bool {
        match (pre, post) {
            (BucketWriter::Append(a), BucketWriter::Append(b)) => DataFileWriter::writes(
                a,
                batch,
                b,
                r,
            ),
            (BucketWriter::KeyValue(a), BucketWriter::KeyValue(b)) => KeyValueFileWriter::writes(
                a,
                batch,
                b,
                r,
            ),
            _ => false,
        }
    }

    /// Storage has answered.
    pub open spec fn resumes(
        pre: Self,
        event: Event,
        post: Self,
        r: Result<Action, Error>,
    ) -> bool {
        match (pre, post) {
            (BucketWriter::Append(a), BucketWriter::Append(b)) => DataFileWriter::resumes(
                a,
                event,
                b,
                r,
            ),
            (BucketWriter::KeyValue(a), BucketWriter::KeyValue(b)) => KeyValueFileWriter::resumes(
                a,
                event,
                b,
                r,
            ),
            _ => false,
        }
    }

    /// A commit begins.
    pub open spec fn commits(pre: Self, post: Self, r: Result<Action, Error>) -> bool {
        match (pre, post) {
            (BucketWriter::Append(a), BucketWriter::Append(b)) => DataFileWriter::commits(a, b, r),
            (BucketWriter::KeyValue(a), BucketWriter::KeyValue(b)) => KeyValueFileWriter::commits(
                a,
                b,
                r,
            ),
            _ => false,
        }
    }

    /// Whether the writer waits for nothing.
    pub(crate) fn is_idle(&self) -> (r: bool)
        ensures
            r == self.idle(),
    {
        match self {
            BucketWriter::Append(w) => match w.phase {
                Phase::Idle => true,
                _ => false,
            },
            BucketWriter::KeyValue(w) => match w.phase {
                KeyValuePhase::Idle => true,
                _ => false,
            },
        }
    }

    /// Takes a batch.
    pub fn write(&mut self, batch: RecordBatch) -> (r: Result<Action, Error>)
        requires
            old(self).wf(),
            old(self).idle(),
        ensures
            final(self).wf(),
            Self::writes(*old(self), batch, *final(self), r),
            match r {
                Ok(action) => if action is Done {
                    final(self).idle()
                } else {
                    final(self).in_write() && !(action is Files)
                },
                Err(_) => final(self).idle(),
            },
    {
        match self {
            BucketWriter::Append(w) => w.write(batch),
            BucketWriter::KeyValue(w) => w.write(batch),
        }
    }

    /// Goes on after storage has answered.
    pub fn resume(&mut self, event: Event) -> (r: Result<Action, Error>)
        requires
            old(self).wf(),
        ensures
            final(self).wf(),
            Self::resumes(*old(self), event, *final(self), r),
            match r {
                Ok(action) => {
                    &&& old(self).in_write() ==> if action is Done {
                        final(self).idle()
                    } else {
                        final(self).in_write() && !(action is Files)
                    }
                    &&& old(self).in_commit() ==> if action is Files {
                        final(self).idle()
                    } else {
                        final(self).in_commit() && !(action is Done)
                    }
                },
                Err(_) => !final(self).idle() ==> *final(self) == *old(self),
            },
    {
        match self {
            BucketWriter::Append(w) => w.resume(event),
            BucketWriter::KeyValue(w) => w.resume(event),
        }
    }

    /// Begins a commit.
    pub fn prepare_commit(&mut self) -> (r: Result<Action, Error>)
        requires
            old(self).wf(),
            old(self).idle(),
        ensures
            final(self).wf(),
            Self::commits(*old(self), *final(self), r),
            match r {
                Ok(action) => if action is Files {
                    final(self).idle()
                } else {
                    final(self).in_commit() && !(action is Done)
                },
                Err(_) => final(self).idle(),
            },
    {
        match self {
            BucketWriter::Append(w) => w.prepare_commit(),
            BucketWriter::KeyValue(w) => w.prepare_commit(),
        }
    }
}

/// A batch that is taken adds its rows, and no other rows come or go.
pub proof fn law_bucket_write_keeps_rows(
    pre: BucketWriter,
    batch: RecordBatch,
    post: BucketWriter,
    action: Action,
)
    requires
        pre.wf(),
        pre.idle(),
        BucketWriter::writes(pre, batch, post, Ok::<Action, Error>(action)),
    ensures
        post.rows() + rows_handed_over(action) == pre.rows() + batch_rows(batch),
{
    match (pre, post) {
        (BucketWriter::Append(a), BucketWriter::Append(b)) => {
            law_append_write_keeps_rows(a, batch, b, action);
        },
        (BucketWriter::KeyValue(a), BucketWriter::KeyValue(b)) => {
            law_key_value_write_keeps_rows(a, batch, b, action);
        },
        _ => {},
    }
}

/// No answer of storage that the writer accepts makes rows come or go.
pub proof fn law_bucket_resume_keeps_rows(
    pre: BucketWriter,
    event: Event,
    post: BucketWriter,
    action: Action,
)
    requires
        pre.wf(),
        BucketWriter::resumes(pre, event, post, Ok::<Action, Error>(action)),
    ensures
        post.rows() + rows_handed_over(action) == pre.rows(),
{
    match (pre, post) {
        (BucketWriter::Append(a), BucketWriter::Append(b)) => {
            law_append_resume_keeps_rows(a, event, b, action);
        },
        (BucketWriter::KeyValue(a), BucketWriter::KeyValue(b)) => {
            law_key_value_resume_keeps_rows(a, event, b, action);
        },
        _ => {},
    }
}

/// The start of a commit makes no rows come or go.
pub proof fn law_bucket_commit_keeps_rows(pre: BucketWriter, post: BucketWriter, action: Action)
    requires
        pre.wf(),
        pre.idle(),
        BucketWriter::commits(pre, post, Ok::<Action, Error>(action)),
    ensures
        post.rows() + rows_handed_over(action) == pre.rows(),
{
    match (pre, post) {
        (BucketWriter::Append(a), BucketWriter::Append(b)) => {
            law_append_commit_keeps_rows(a, b, action);
        },
        (BucketWriter::KeyValue(a), BucketWriter::KeyValue(b)) => {
            law_key_value_commit_keeps_rows(a, b, action);
        },
        _ => {},
    }
}

/// A commit hands everything over: once the files are out, no rows are left behind.
pub proof fn law_bucket_commit_leaves_nothing(
    pre: BucketWriter,
    event: Event,
    post: BucketWriter,
    files: Vec<DataFileMeta>,
)
    requires
        pre.wf(),
        BucketWriter::resumes(pre, event, post, Ok::<Action, Error>(Action::Files { files })) || (
        pre.idle() && BucketWriter::commits(
            pre,
            post,
            Ok::<Action, Error>(Action::Files { files }),
        )),
    ensures
        rows_in_files(files@) == pre.rows(),
        post.rows() == 0,
{
    match (pre, post) {
        (BucketWriter::Append(a), BucketWriter::Append(b)) => {
            law_append_commit_leaves_nothing(a, event, b, files);
        },
        (BucketWriter::KeyValue(a), BucketWriter::KeyValue(b)) => {
            law_key_value_commit_leaves_nothing(a, event, b, files);
        },
        _ => {},
    }
}

} // verus!
