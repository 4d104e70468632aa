//! What the writer of an append-only bucket keeps: every row that it took, and every file that it
//! opened.

use crate::arrow::{batch_rows, RecordBatch};
use crate::data_file_writer::{is_first_named, rows_rolled, DataFileWriter, Phase, RolledFile};
use crate::error::Error;
use crate::meta::{is_append_file, rows_in_files, DataFileMeta};
use crate::protocol::{rows_handed_over, Action, Event};
use vstd::multiset::Multiset;
use vstd::prelude::*;

verus! {

pub proof fn lemma_push_file(files: Seq<DataFileMeta>, file: DataFileMeta)
    ensures
        rows_in_files(files.push(file)) == rows_in_files(files) + file.row_count,
{
    assert(files.push(file).drop_last() =~= files);
}

proof fn lemma_push_rolled(files: Seq<RolledFile>, file: RolledFile)
    ensures
        rows_rolled(files.push(file)) == rows_rolled(files) + file.row_count,
{
    assert(files.push(file).drop_last() =~= files);
}

proof fn lemma_remove_rolled(files: Seq<RolledFile>, i: int)
    requires
        0 <= i < files.len(),
    ensures
        rows_rolled(files.remove(i)) == rows_rolled(files) - files[i].row_count,
    decreases files.len(),
{
    if i == files.len() - 1 {
        assert(files.remove(i) =~= files.drop_last());
    } else {
        lemma_remove_rolled(files.drop_last(), i);
        assert(files.remove(i).drop_last() =~= files.drop_last().remove(i));
    }
}

/// A batch that is taken adds its rows, and no other rows come or go.
pub proof fn law_append_write_keeps_rows(
    pre: DataFileWriter,
    batch: RecordBatch,
    post: DataFileWriter,
    action: Action,
)
    requires
        pre.wf(),
        pre.phase is Idle,
        DataFileWriter::writes(pre, batch, post, Ok::<Action, Error>(action)),
    ensures
        post.rows() + rows_handed_over(action) == pre.rows() + batch_rows(batch),
{
}

/// No answer of storage that the writer accepts makes rows come or go: what leaves the writer
/// stands in the files that it hands over.
pub proof fn law_append_resume_keeps_rows(
    pre: DataFileWriter,
    event: Event,
    post: DataFileWriter,
    action: Action,
)
    requires
        pre.wf(),
        DataFileWriter::resumes(pre, event, post, Ok::<Action, Error>(action)),
    ensures
        post.rows() + rows_handed_over(action) == pre.rows(),
{
    match (pre.phase, event) {
        (_, Event::Failed { error }) => {},
        (
            Phase::Writing,
            Event::Written { num_bytes, in_progress_size },
        ) => {
            if num_bytes as i64 >= pre.config.target_file_size {
                lemma_push_rolled(pre.in_flight@, post.in_flight@.last());
            }
        },
        (
            Phase::Closing { file_name, row_count },
            Event::Closed { receipt },
        ) => {
            let meta = choose|meta: DataFileMeta|
                {
                    &&& #[trigger] is_append_file(
                        meta,
                        file_name@,
                        receipt,
                        row_count,
                        pre.config.schema_id,
                    )
                    &&& DataFileWriter::settles(
                        pre,
                        pre.written_files@.push(meta),
                        pre.in_flight@,
                        post,
                        Ok(action),
                    )
                };
            lemma_push_file(pre.written_files@, meta);
        },
        (
            Phase::Joining,
            Event::ClosedInBackground { file_name, receipt },
        ) => {
            let (i, meta) = choose|i: int, meta: DataFileMeta|
                {
                    &&& #[trigger] is_first_named(pre.in_flight@, file_name@, i)
                    &&& #[trigger] is_append_file(
                        meta,
                        file_name@,
                        receipt,
                        pre.in_flight@[i].row_count,
                        pre.config.schema_id,
                    )
                    &&& DataFileWriter::settles(
                        pre,
                        pre.written_files@.push(meta),
                        pre.in_flight@.remove(i),
                        post,
                        Ok(action),
                    )
                };
            lemma_push_file(pre.written_files@, meta);
            lemma_remove_rolled(pre.in_flight@, i);
        },
        _ => {},
    }
}

/// The start of a commit makes no rows come or go.
pub proof fn law_append_commit_keeps_rows(pre: DataFileWriter, post: DataFileWriter, action: Action)
    requires
        pre.wf(),
        pre.phase is Idle,
        DataFileWriter::commits(pre, post, Ok::<Action, Error>(action)),
    ensures
        post.rows() + rows_handed_over(action) == pre.rows(),
{
}

/// A commit hands everything over: once the files are out, no rows are left behind.
pub proof fn law_append_commit_leaves_nothing(
    pre: DataFileWriter,
    event: Event,
    post: DataFileWriter,
    files: Vec<DataFileMeta>,
)
    requires
        pre.wf(),
        DataFileWriter::resumes(pre, event, post, Ok::<Action, Error>(Action::Files { files }))
            || (pre.phase is Idle && DataFileWriter::commits(
            pre,
            post,
            Ok::<Action, Error>(Action::Files { files }),
        )),
    ensures
        rows_in_files(files@) == pre.rows(),
        post.rows() == 0,
{
    if DataFileWriter::resumes(pre, event, post, Ok::<Action, Error>(Action::Files { files })) {
        law_append_resume_keeps_rows(pre, event, post, Action::Files { files });
    } else {
        law_append_commit_keeps_rows(pre, post, Action::Files { files });
    }
}

/// The names of the closed files, each as often as it is recorded.
pub open spec fn recorded_names(files: Seq<DataFileMeta>) -> Multiset<Seq<char>>
    decreases files.len(),
{
    if files.len() == 0 {
        Multiset::empty()
    } else {
        recorded_names(files.drop_last()).insert(files.last().file_name@)
    }
}

/// The names of the files that are being closed.
pub open spec fn rolled_names(files: Seq<RolledFile>) -> Multiset<Seq<char>>
    decreases files.len(),
{
    if files.len() == 0 {
        Multiset::empty()
    } else {
        rolled_names(files.drop_last()).insert(files.last().file_name@)
    }
}

/// The name of the file that the writer opens, writes to, or closes for a commit.
pub open spec fn current_name(writer: DataFileWriter) -> Multiset<Seq<char>> {
    match (writer.phase, writer.current_file_name) {
        (Phase::Opening { file_name, .. }, _) => Multiset::singleton(file_name@),
        (Phase::Closing { file_name, .. }, _) => Multiset::singleton(file_name@),
        (_, Some(file_name)) => Multiset::singleton(file_name@),
        (_, None) => Multiset::empty(),
    }
}

/// The names of the files that the writer has asked to open and not handed over.
pub open spec fn names_held(writer: DataFileWriter) -> Multiset<Seq<char>> {
    recorded_names(writer.written_files@).add(rolled_names(writer.in_flight@)).add(
        current_name(writer),
    )
}

/// The name of the file that an action opens.
pub open spec fn names_opened(action: Action, post: DataFileWriter) -> Multiset<Seq<char>> {
    match action {
        Action::OpenFile { .. } => current_name(post),
        _ => Multiset::empty(),
    }
}

/// The names of the files that an action hands over.
pub open spec fn names_handed_over(action: Action) -> Multiset<Seq<char>> {
    match action {
        Action::Files { files } => recorded_names(files@),
        _ => Multiset::empty(),
    }
}

/// Whether each of the closed files has rows.
pub open spec fn recorded_with_rows(files: Seq<DataFileMeta>) -> bool {
    forall|i: int| 0 <= i < files.len() ==> (#[trigger] files[i]).row_count > 0
}

/// Whether each of the files that are being closed has rows.
pub open spec fn rolled_with_rows(files: Seq<RolledFile>) -> bool {
    forall|i: int| 0 <= i < files.len() ==> (#[trigger] files[i]).row_count > 0
}

/// Whether each file that the writer has asked to open has rows, or is about to get them.
pub open spec fn files_have_rows(writer: DataFileWriter) -> bool {
    &&& recorded_with_rows(writer.written_files@)
    &&& rolled_with_rows(writer.in_flight@)
    &&& writer.current_file_name is Some ==> writer.current_row_count > 0
    &&& match writer.phase {
        Phase::Opening { batch, .. } => batch_rows(batch) > 0,
        Phase::Closing { row_count, .. } => row_count > 0,
        _ => true,
    }
}

proof fn lemma_push_recorded(files: Seq<DataFileMeta>, file: DataFileMeta)
    ensures
        recorded_names(files.push(file)) == recorded_names(files).insert(file.file_name@),
{
    assert(files.push(file).drop_last() =~= files);
}

proof fn lemma_push_rolled_name(files: Seq<RolledFile>, file: RolledFile)
    ensures
        rolled_names(files.push(file)) == rolled_names(files).insert(file.file_name@),
{
    assert(files.push(file).drop_last() =~= files);
}

proof fn lemma_remove_rolled_name(files: Seq<RolledFile>, i: int)
    requires
        0 <= i < files.len(),
    ensures
        rolled_names(files.remove(i)).insert(files[i].file_name@) == rolled_names(files),
    decreases files.len(),
{
    if i == files.len() - 1 {
        assert(files.remove(i) =~= files.drop_last());
    } else {
        lemma_remove_rolled_name(files.drop_last(), i);
        assert(files.remove(i).drop_last() =~= files.drop_last().remove(i));
        assert(rolled_names(files.remove(i)).insert(files[i].file_name@) =~= rolled_names(
            files.drop_last().remove(i),
        ).insert(files[i].file_name@).insert(files.last().file_name@));
    }
}

/// A batch that is taken opens at most one file, under a name of the writer's form, in the
/// directory of the bucket, and no file is forgotten.
pub proof fn law_append_write_keeps_files(
    pre: DataFileWriter,
    batch: RecordBatch,
    post: DataFileWriter,
    action: Action,
)
    requires
        pre.wf(),
        pre.phase is Idle,
        DataFileWriter::writes(pre, batch, post, Ok::<Action, Error>(action)),
    ensures
        names_held(post) == names_held(pre).add(names_opened(action, post)),
        action matches Action::OpenFile { file, .. } ==> exists|name: Seq<char>|
            names_opened(action, post) == Multiset::singleton(name)
                && #[trigger] pre.config.creates(name, file),
        files_have_rows(pre) ==> files_have_rows(post),
        !(action is Files),
{
    assert(names_held(post) =~= names_held(pre).add(names_opened(action, post)));
}

/// No answer of storage that the writer accepts makes it forget a file or record one twice: what
/// leaves the writer stands in the files that it hands over.
pub proof fn law_append_resume_keeps_files(
    pre: DataFileWriter,
    event: Event,
    post: DataFileWriter,
    action: Action,
)
    requires
        pre.wf(),
        DataFileWriter::resumes(pre, event, post, Ok::<Action, Error>(action)),
    ensures
        names_held(post).add(names_handed_over(action)) == names_held(pre),
        !(action is OpenFile),
        files_have_rows(pre) ==> files_have_rows(post),
        files_have_rows(pre) ==> (action matches Action::Files { files } ==> recorded_with_rows(
            files@,
        )),
{
    match (pre.phase, event) {
        (_, Event::Failed { error }) => {},
        (Phase::Writing, Event::Written { num_bytes, in_progress_size }) => {
            if num_bytes as i64 >= pre.config.target_file_size {
                lemma_push_rolled_name(pre.in_flight@, post.in_flight@.last());
            }
        },
        (Phase::Closing { file_name, row_count }, Event::Closed { receipt }) => {
            let meta = choose|meta: DataFileMeta|
                {
                    &&& #[trigger] is_append_file(
                        meta,
                        file_name@,
                        receipt,
                        row_count,
                        pre.config.schema_id,
                    )
                    &&& DataFileWriter::settles(
                        pre,
                        pre.written_files@.push(meta),
                        pre.in_flight@,
                        post,
                        Ok(action),
                    )
                };
            lemma_push_recorded(pre.written_files@, meta);
        },
        (Phase::Joining, Event::ClosedInBackground { file_name, receipt }) => {
            let (i, meta) = choose|i: int, meta: DataFileMeta|
                {
                    &&& #[trigger] is_first_named(pre.in_flight@, file_name@, i)
                    &&& #[trigger] is_append_file(
                        meta,
                        file_name@,
                        receipt,
                        pre.in_flight@[i].row_count,
                        pre.config.schema_id,
                    )
                    &&& DataFileWriter::settles(
                        pre,
                        pre.written_files@.push(meta),
                        pre.in_flight@.remove(i),
                        post,
                        Ok(action),
                    )
                };
            lemma_push_recorded(pre.written_files@, meta);
            lemma_remove_rolled_name(pre.in_flight@, i);
        },
        _ => {},
    }
    assert(names_held(post).add(names_handed_over(action)) =~= names_held(pre));
}

/// The start of a commit makes no file come or go.
pub proof fn law_append_commit_keeps_files(
    pre: DataFileWriter,
    post: DataFileWriter,
    action: Action,
)
    requires
        pre.wf(),
        pre.phase is Idle,
        DataFileWriter::commits(pre, post, Ok::<Action, Error>(action)),
    ensures
        names_held(post).add(names_handed_over(action)) == names_held(pre),
        !(action is OpenFile),
        files_have_rows(pre) ==> files_have_rows(post),
        files_have_rows(pre) ==> (action matches Action::Files { files } ==> recorded_with_rows(
            files@,
        )),
{
    assert(names_held(post).add(names_handed_over(action)) =~= names_held(pre));
}

pub proof fn lemma_no_rows_no_files(files: Seq<DataFileMeta>)
    requires
        recorded_with_rows(files),
    ensures
        rows_in_files(files) >= 0,
        rows_in_files(files) == 0 <==> files.len() == 0,
    decreases files.len(),
{
    if files.len() > 0 {
        assert forall|i: int| 0 <= i < files.drop_last().len() implies (
        #[trigger] files.drop_last()[i]).row_count > 0 by {
            assert(files.drop_last()[i] == files[i]);
        }
        lemma_no_rows_no_files(files.drop_last());
    }
}

/// A commit records every file that was opened, each once and each with rows; there is no file
/// exactly where there is no row. Afterwards no file is open, being closed, or waiting to be
/// handed over.
pub proof fn law_append_commit_records_every_file(
    pre: DataFileWriter,
    event: Event,
    post: DataFileWriter,
    files: Vec<DataFileMeta>,
)
    requires
        pre.wf(),
        files_have_rows(pre),
        DataFileWriter::resumes(pre, event, post, Ok::<Action, Error>(Action::Files { files }))
            || (pre.phase is Idle && DataFileWriter::commits(
            pre,
            post,
            Ok::<Action, Error>(Action::Files { files }),
        )),
    ensures
        recorded_names(files@) == names_held(pre),
        recorded_with_rows(files@),
        files@.len() == 0 <==> pre.rows() == 0,
        names_held(post) == Multiset::<Seq<char>>::empty(),
        post.current_file_name is None,
        post.in_flight@.len() == 0,
        post.written_files@.len() == 0,
        post.phase is Idle,
{
    let action = Action::Files { files };
    if DataFileWriter::resumes(pre, event, post, Ok::<Action, Error>(action)) {
        law_append_resume_keeps_files(pre, event, post, action);
    } else {
        law_append_commit_keeps_files(pre, post, action);
    }
    law_append_commit_leaves_nothing(pre, event, post, files);
    lemma_no_rows_no_files(files@);
    assert(names_held(post) =~= Multiset::<Seq<char>>::empty());
    assert(recorded_names(files@) =~= names_held(pre));
}

} // verus!
