//! Where each row of a batch goes: the partition that its partition columns name and the bucket
//! that its bucket columns select.

use crate::arrow::{batch_columns, batch_rows, row_numbers, Cell, RecordBatch};
use crate::binary_row::{
    empty_serialized_row, partial_row, row_data, serialized_row, BinaryRowBuilder, RowCell,
    MAX_ARITY,
};
use crate::bucket::bucket_of;
use crate::datum::{extract_datum_from_arrow, readable, row_cell, DataType};
use crate::error::{arrow_failed, Error};
use crate::schema::DataField;
use crate::selection::{is_selection, select_batch, selection, take_failed, Selection};
use vstd::prelude::*;

verus! {

/// What decides where a row goes.
pub struct Router {
    /// The columns of the table.
    pub fields: Vec<DataField>,
    /// The partition columns.
    pub partition_field_indices: Vec<usize>,
    /// The bucket columns.
    pub bucket_key_indices: Vec<usize>,
    /// The number of buckets, or -1 where it is not fixed.
    pub total_buckets: i32,
}

/// The rows of a batch that go to one bucket of one partition.
pub struct RoutedBatch {
    pub partition: Vec<u8>,
    pub bucket: i32,
    pub batch: RecordBatch,
}

/// Row numbers that go to one bucket of one partition.
struct RowGroup {
    partition: Vec<u8>,
    bucket: i32,
    rows: Vec<usize>,
}

/// A partition, as a serialized row, and a bucket.
pub struct Route {
    pub partition: Seq<u8>,
    pub bucket: int,
}

impl RoutedBatch {
    /// The place that the rows go to.
    pub open spec fn place(&self) -> Route {
        Route { partition: self.partition@, bucket: self.bucket as int }
    }
}

/// The row numbers as integers.
pub open spec fn as_rows(rows: Seq<usize>) -> Seq<int> {
    Seq::new(rows.len(), |i: int| rows[i] as int)
}

/// Row numbers in four bytes each.
pub open spec fn as_indices(rows: Seq<int>) -> Seq<u32> {
    Seq::new(rows.len(), |i: int| rows[i] as u32)
}

impl Router {
    /// The key columns are columns of the table.
    pub open spec fn wf(&self) -> bool {
        &&& self.partition_field_indices@.len() <= MAX_ARITY
        &&& self.bucket_key_indices@.len() <= MAX_ARITY
        &&& forall|k: int|
            0 <= k < self.partition_field_indices@.len() ==> (
            #[trigger] self.partition_field_indices@[k]) < self.fields@.len()
        &&& forall|k: int|
            0 <= k < self.bucket_key_indices@.len() ==> (#[trigger] self.bucket_key_indices@[k])
                < self.fields@.len()
    }

    /// Whether rows differ in their bucket.
    pub open spec fn has_buckets(&self) -> bool {
        self.total_buckets > 1 && self.bucket_key_indices@.len() > 0
    }

    /// Whether all rows go to the one bucket of the one partition.
    pub open spec fn is_single(&self) -> bool {
        self.partition_field_indices@.len() == 0 && self.total_buckets <= 1
    }

    /// The fields of the row that the given columns make.
    pub open spec fn cells_at(&self, columns: Seq<Seq<Cell>>, row: int, indices: Seq<usize>) -> Seq<
        RowCell,
    > {
        Seq::new(
            indices.len(),
            |k: int|
                row_cell(
                    columns[indices[k] as int][row],
                    self.fields@[indices[k] as int].data_type,
                ),
        )
    }

    /// Where a row goes.
    pub open spec fn route(&self, columns: Seq<Seq<Cell>>, row: int) -> Route {
        Route {
            partition: serialized_row(
                self.cells_at(columns, row, self.partition_field_indices@),
            ),
            bucket: if self.has_buckets() {
                bucket_of(
                    row_data(self.cells_at(columns, row, self.bucket_key_indices@)),
                    self.total_buckets as int,
                )
            } else {
                0
            },
        }
    }

    /// What is wrong with a key column in a row, if anything: it is missing, or it holds a value
    /// that is not of the declared type.
    pub open spec fn fault_at(&self, columns: Seq<Seq<Cell>>, row: int, column: usize) -> Option<
        Error,
    > {
        if column >= columns.len() {
            Some(Error::MissingColumn { column })
        } else {
            let cell = columns[column as int][row];
            if cell is Null || readable(cell, self.fields@[column as int].data_type) {
                None
            } else {
                Some(Error::TypeMismatch { column })
            }
        }
    }

    /// The first thing that is wrong with the given columns in a row.
    pub open spec fn first_fault(
        &self,
        columns: Seq<Seq<Cell>>,
        row: int,
        indices: Seq<usize>,
    ) -> Option<Error>
        decreases indices.len(),
    {
        if indices.len() == 0 {
            None
        } else {
            match self.first_fault(columns, row, indices.drop_last()) {
                Some(error) => Some(error),
                None => self.fault_at(columns, row, indices.last()),
            }
        }
    }

    /// The first thing that is wrong with the key columns in a row.
    pub open spec fn row_fault(&self, columns: Seq<Seq<Cell>>, row: int) -> Option<Error> {
        match self.first_fault(columns, row, self.partition_field_indices@) {
            Some(error) => Some(error),
            None => if self.has_buckets() {
                self.first_fault(columns, row, self.bucket_key_indices@)
            } else {
                None
            },
        }
    }

    /// The first thing that is wrong with the key columns in the first `n` rows.
    pub open spec fn batch_fault(&self, columns: Seq<Seq<Cell>>, n: nat) -> Option<Error>
        decreases n,
    {
        if n == 0 {
            None
        } else {
            match self.batch_fault(columns, (n - 1) as nat) {
                Some(error) => Some(error),
                None => self.row_fault(columns, n - 1),
            }
        }
    }

    /// Where the first `n` rows go, each place once, in the order of their first rows.
    pub open spec fn routes(&self, columns: Seq<Seq<Cell>>, n: nat) -> Seq<Route>
        decreases n,
    {
        if n == 0 {
            Seq::empty()
        } else {
            let rest = self.routes(columns, (n - 1) as nat);
            let route = self.route(columns, n - 1);
            if rest.contains(route) {
                rest
            } else {
                rest.push(route)
            }
        }
    }

    /// Those of the first `n` rows that go to the given place, in order.
    pub open spec fn rows_of(&self, columns: Seq<Seq<Cell>>, n: nat, route: Route) -> Seq<int>
        decreases n,
    {
        if n == 0 {
            Seq::empty()
        } else {
            let rest = self.rows_of(columns, (n - 1) as nat, route);
            if self.route(columns, n - 1) == route {
                rest.push(n - 1)
            } else {
                rest
            }
        }
    }

    /// Whether the parts are the batch divided by where its rows go.
    pub open spec fn divides(&self, batch: RecordBatch, parts: Seq<RoutedBatch>) -> bool {
        let columns = batch_columns(batch);
        let n = batch_rows(batch);
        let routes = self.routes(columns, n);
        &&& parts.len() == routes.len()
        &&& forall|i: int|
            #![trigger parts[i]]
            0 <= i < parts.len() ==> {
                &&& parts[i].partition@ == routes[i].partition
                &&& parts[i].bucket == routes[i].bucket
                &&& is_selection(parts[i].batch, batch, self.rows_of(columns, n, routes[i]))
                &&& self.part_of(batch, routes[i]) == Selection::Made(parts[i].batch)
            }
    }

    /// What choosing the rows of a batch that go to the given place comes to.
    pub open spec fn part_of(&self, batch: RecordBatch, route: Route) -> Selection {
        selection(
            batch,
            as_indices(self.rows_of(batch_columns(batch), batch_rows(batch), route)),
        )
    }

    /// What comes of the first of the given places whose rows cannot be chosen.
    pub open spec fn first_refused(&self, batch: RecordBatch, routes: Seq<Route>) -> Option<
        Selection,
    >
        decreases routes.len(),
    {
        if routes.len() == 0 {
            None
        } else {
            match self.first_refused(batch, routes.drop_last()) {
                Some(refused) => Some(refused),
                None => match self.part_of(batch, routes.last()) {
                    Selection::Made(_) => None,
                    refused => Some(refused),
                },
            }
        }
    }

    /// Whether there is one part, the whole batch, that goes to the given place.
    pub open spec fn whole(batch: RecordBatch, route: Route, parts: Seq<RoutedBatch>) -> bool {
        &&& parts.len() == 1
        &&& parts[0].partition@ == route.partition
        &&& parts[0].bucket == route.bucket
        &&& parts[0].batch == batch
    }

    /// Whether the result is the batch divided, or says why its first part that cannot be made
    /// cannot.
    pub open spec fn parts_or_error(
        &self,
        batch: RecordBatch,
        r: Result<Vec<RoutedBatch>, Error>,
    ) -> bool {
        let routes = self.routes(batch_columns(batch), batch_rows(batch));
        match self.first_refused(batch, routes) {
            None => r matches Ok(parts) && self.divides(batch, parts@),
            Some(Selection::NotTaken(failure)) => r matches Err(error) && take_failed(
                error,
                "Failed to take rows: "@,
                failure,
            ),
            Some(Selection::NotMade(cause)) => r matches Err(error) && arrow_failed(
                error,
                "Failed to create sub-batch: "@,
                cause,
            ),
            Some(Selection::Made(_)) => false,
        }
    }

    /// What dividing a batch comes to.
    pub open spec fn division(
        &self,
        batch: RecordBatch,
        r: Result<Vec<RoutedBatch>, Error>,
    ) -> bool {
        let columns = batch_columns(batch);
        let n = batch_rows(batch);
        let routes = self.routes(columns, n);
        if self.is_single() {
            r matches Ok(parts) && Self::whole(
                batch,
                (Route { partition: serialized_row(Seq::empty()), bucket: 0 }),
                parts@,
            )
        } else {
            match self.batch_fault(columns, n) {
                Some(error) => r == Err::<Vec<RoutedBatch>, Error>(error),
                None => if routes.len() == 0 {
                    r matches Ok(parts) && parts@.len() == 0
                } else if routes.len() == 1 {
                    r matches Ok(parts) && Self::whole(batch, routes[0], parts@)
                } else if n > u32::MAX {
                    r == Err::<Vec<RoutedBatch>, Error>(Error::TooManyRows)
                } else {
                    self.parts_or_error(batch, r)
                },
            }
        }
    }

    /// The row that the given key columns make.
    fn build_row(&self, batch: &RecordBatch, row: usize, indices: &Vec<usize>) -> (r: Result<
        BinaryRowBuilder,
        Error,
    >)
        requires
            row < batch_rows(*batch),
            indices@.len() <= MAX_ARITY,
            forall|k: int|
                0 <= k < indices@.len() ==> (#[trigger] indices@[k]) < self.fields@.len(),
        ensures
            match self.first_fault(batch_columns(*batch), row as int, indices@) {
                Some(error) => r == Err::<BinaryRowBuilder, Error>(error),
                None => {
                    &&& r matches Ok(builder)
                    &&& builder.arity == indices@.len()
                    &&& builder.data@ == row_data(
                        self.cells_at(batch_columns(*batch), row as int, indices@),
                    )
                },
            },
    {
        let ghost columns = batch_columns(*batch);
        let ghost cells = self.cells_at(columns, row as int, indices@);
        let count: usize = batch.num_columns();
        let mut builder: BinaryRowBuilder = BinaryRowBuilder::new(indices.len());
        assert(cells.take(0) =~= Seq::<RowCell>::empty());
        assert(indices@.take(0) =~= Seq::<usize>::empty());
        let mut pos: usize = 0;
        while pos < indices.len()
            invariant
                pos <= indices@.len(),
                row < batch_rows(*batch),
                count == batch_columns(*batch).len(),
                columns == batch_columns(*batch),
                cells == self.cells_at(columns, row as int, indices@),
                forall|k: int|
                    0 <= k < indices@.len() ==> (#[trigger] indices@[k]) < self.fields@.len(),
                builder.wf(),
                builder.arity == indices@.len(),
                builder.data@ == partial_row(indices@.len(), cells.take(pos as int)),
                self.first_fault(columns, row as int, indices@.take(pos as int)) is None,
            decreases indices@.len() - pos,
        {
            let column: usize = indices[pos];
            let data_type: DataType = self.fields[column].data_type;
            proof {
                assert(cells.take(pos + 1).drop_last() =~= cells.take(pos as int));
                assert(indices@.take(pos + 1).drop_last() =~= indices@.take(pos as int));
                if self.fault_at(columns, row as int, column) is Some {
                    self.lemma_fault_stays(columns, row as int, indices@, pos + 1);
                }
            }
            if column >= count {
                return Err(Error::MissingColumn { column });
            }
            match extract_datum_from_arrow(batch, row, column, data_type) {
                Ok(datum) => builder.write_optional(pos, &datum, data_type),
                Err(error) => return Err(error),
            }
            pos += 1;
        }
        assert(cells.take(pos as int) =~= cells);
        assert(indices@.take(pos as int) =~= indices@);
        Ok(builder)
    }

    proof fn lemma_fault_stays(
        &self,
        columns: Seq<Seq<Cell>>,
        row: int,
        indices: Seq<usize>,
        k: int,
    )
        requires
            0 <= k <= indices.len(),
            self.first_fault(columns, row, indices.take(k)) is Some,
        ensures
            self.first_fault(columns, row, indices) == self.first_fault(
                columns,
                row,
                indices.take(k),
            ),
        decreases indices.len() - k,
    {
        if k < indices.len() {
            assert(indices.take(k + 1).drop_last() =~= indices.take(k));
            self.lemma_fault_stays(columns, row, indices, k + 1);
        } else {
            assert(indices.take(k) =~= indices);
        }
    }

    proof fn lemma_batch_fault_stays(&self, columns: Seq<Seq<Cell>>, k: nat, n: nat)
        requires
            k <= n,
            self.batch_fault(columns, k) is Some,
        ensures
            self.batch_fault(columns, n) == self.batch_fault(columns, k),
        decreases n - k,
    {
        if k < n {
            self.lemma_batch_fault_stays(columns, k, (n - 1) as nat);
        }
    }

    /// Where a row goes.
    pub fn extract_partition_bucket(&self, batch: &RecordBatch, row: usize) -> (r: Result<
        (Vec<u8>, i32),
        Error,
    >)
        requires
            self.wf(),
            row < batch_rows(*batch),
        ensures
            match self.row_fault(batch_columns(*batch), row as int) {
                Some(error) => r == Err::<(Vec<u8>, i32), Error>(error),
                None => {
                    let route = self.route(batch_columns(*batch), row as int);
                    &&& r matches Ok(place)
                    &&& place.0@ == route.partition
                    &&& place.1 == route.bucket
                },
            },
    {
        let partition: Vec<u8> = if self.partition_field_indices.len() == 0 {
            assert(self.cells_at(
                batch_columns(*batch),
                row as int,
                self.partition_field_indices@,
            ) =~= Seq::<RowCell>::empty());
            empty_serialized_row()
        } else {
            match self.build_row(batch, row, &self.partition_field_indices) {
                Ok(builder) => builder.build_serialized(),
                Err(error) => return Err(error),
            }
        };
        let bucket: i32 = if self.total_buckets <= 1 || self.bucket_key_indices.len() == 0 {
            0
        } else {
            match self.build_row(batch, row, &self.bucket_key_indices) {
                Ok(builder) => builder.build().bucket(self.total_buckets),
                Err(error) => return Err(error),
            }
        };
        Ok((partition, bucket))
    }

    spec fn grouped(&self, columns: Seq<Seq<Cell>>, n: nat, groups: Seq<RowGroup>) -> bool {
        let routes = self.routes(columns, n);
        &&& groups.len() == routes.len()
        &&& forall|g: int|
            #![trigger groups[g]]
            0 <= g < groups.len() ==> {
                &&& groups[g].partition@ == routes[g].partition
                &&& groups[g].bucket == routes[g].bucket
                &&& as_rows(groups[g].rows@) == self.rows_of(columns, n, routes[g])
            }
    }

    proof fn lemma_unseen(&self, columns: Seq<Seq<Cell>>, n: nat, route: Route)
        requires
            !self.routes(columns, n).contains(route),
        ensures
            self.rows_of(columns, n, route) == Seq::<int>::empty(),
        decreases n,
    {
        if n > 0 {
            let rest = self.routes(columns, (n - 1) as nat);
            let last = self.route(columns, n - 1);
            if rest.contains(route) {
                let i = choose|i: int| 0 <= i < rest.len() && rest[i] == route;
                assert(rest.push(last)[i] == route);
            }
            assert(rest.push(last).last() == last);
            self.lemma_unseen(columns, (n - 1) as nat, route);
        }
    }

    pub proof fn lemma_routes_distinct(&self, columns: Seq<Seq<Cell>>, n: nat)
        ensures
            self.routes(columns, n).no_duplicates(),
        decreases n,
    {
        if n > 0 {
            self.lemma_routes_distinct(columns, (n - 1) as nat);
        }
    }

    /// No row is listed twice.
    pub proof fn lemma_rows_distinct(&self, columns: Seq<Seq<Cell>>, n: nat, route: Route)
        ensures
            self.rows_of(columns, n, route).no_duplicates(),
        decreases n,
    {
        if n > 0 {
            self.lemma_rows_distinct(columns, (n - 1) as nat, route);
            self.lemma_rows_below(columns, (n - 1) as nat, route);
        }
    }

    pub proof fn lemma_rows_below(&self, columns: Seq<Seq<Cell>>, n: nat, route: Route)
        ensures
            self.rows_of(columns, n, route).len() <= n,
            forall|i: int|
                0 <= i < self.rows_of(columns, n, route).len() ==> 0 <= #[trigger] self.rows_of(
                    columns,
                    n,
                    route,
                )[i] < n,
        decreases n,
    {
        if n > 0 {
            self.lemma_rows_below(columns, (n - 1) as nat, route);
        }
    }

    /// The group of the given place.
    fn find_group(groups: &Vec<RowGroup>, partition: &Vec<u8>, bucket: i32) -> (r: Option<usize>)
        ensures
            match r {
                Some(g) => {
                    &&& g < groups@.len()
                    &&& groups@[g as int].partition@ == partition@
                    &&& groups@[g as int].bucket == bucket
                },
                None => forall|g: int|
                    #![trigger groups@[g]]
                    0 <= g < groups@.len() ==> groups@[g].partition@ != partition@
                        || groups@[g].bucket != bucket,
            },
    {
        let mut g: usize = 0;
        while g < groups.len()
            invariant
                g <= groups@.len(),
                forall|h: int|
                    #![trigger groups@[h]]
                    0 <= h < g ==> groups@[h].partition@ != partition@ || groups@[h].bucket
                        != bucket,
            decreases groups@.len() - g,
        {
            if groups[g].bucket == bucket && groups[g].partition == *partition {
                return Some(g);
            }
            g += 1;
        }
        None
    }

    /// Adds a row to the group of its place.
    fn add_row(
        &self,
        batch: &RecordBatch,
        groups: &mut Vec<RowGroup>,
        partition: Vec<u8>,
        bucket: i32,
        row: usize,
    )
        requires
            self.grouped(batch_columns(*batch), row as nat, old(groups)@),
            partition@ == self.route(batch_columns(*batch), row as int).partition,
            bucket == self.route(batch_columns(*batch), row as int).bucket,
        ensures
            self.grouped(batch_columns(*batch), (row + 1) as nat, final(groups)@),
    {
        let ghost columns = batch_columns(*batch);
        let ghost n = row as nat;
        let ghost before = groups@;
        let ghost routes = self.routes(columns, n);
        let ghost route = self.route(columns, n as int);
        proof {
            self.lemma_routes_distinct(columns, n);
        }
        match Self::find_group(groups, &partition, bucket) {
            Some(g) => {
                groups[g].rows.push(row);
                proof {
                    assert(routes[g as int] == route);
                    assert(routes.contains(route));
                    assert forall|h: int|
                        #![trigger groups@[h]]
                        0 <= h < groups@.len() implies as_rows(groups@[h].rows@) == self.rows_of(
                        columns,
                        n + 1,
                        routes[h],
                    ) by {
                        if h == g {
                            assert(as_rows(groups@[h].rows@) =~= as_rows(before[h].rows@).push(
                                n as int,
                            ));
                        } else {
                            assert(groups@[h] == before[h]);
                            assert(routes[h] != routes[g as int]);
                        }
                    }
                }
            },
            None => {
                let mut rows: Vec<usize> = Vec::new();
                rows.push(row);
                groups.push(RowGroup { partition, bucket, rows });
                proof {
                    if routes.contains(route) {
                        let i = choose|i: int| 0 <= i < routes.len() && routes[i] == route;
                        assert(before[i].partition@ == partition@ && before[i].bucket == bucket);
                    }
                    self.lemma_unseen(columns, n, route);
                    assert forall|h: int|
                        #![trigger groups@[h]]
                        0 <= h < groups@.len() implies as_rows(groups@[h].rows@) == self.rows_of(
                        columns,
                        n + 1,
                        routes.push(route)[h],
                    ) by {
                        if h < before.len() {
                            assert(groups@[h] == before[h]);
                            assert(routes.contains(routes[h]));
                        } else {
                            assert(as_rows(rows@) =~= seq![n as int]);
                            assert(self.rows_of(columns, n + 1, route) =~= seq![n as int]);
                        }
                    }
                }
            },
        }
    }

    /// The rows of a batch by where they go.
    fn group_rows(&self, batch: &RecordBatch) -> (r: Result<Vec<RowGroup>, Error>)
        requires
            self.wf(),
        ensures
            match self.batch_fault(batch_columns(*batch), batch_rows(*batch)) {
                Some(error) => r == Err::<Vec<RowGroup>, Error>(error),
                None => r matches Ok(groups) && self.grouped(
                    batch_columns(*batch),
                    batch_rows(*batch),
                    groups@,
                ),
            },
    {
        let ghost columns = batch_columns(*batch);
        let total: usize = batch.num_rows();
        let mut groups: Vec<RowGroup> = Vec::new();
        let mut row: usize = 0;
        while row < total
            invariant
                self.wf(),
                row <= total,
                total == batch_rows(*batch),
                columns == batch_columns(*batch),
                self.batch_fault(columns, row as nat) is None,
                self.grouped(columns, row as nat, groups@),
            decreases total - row,
        {
            proof {
                if self.row_fault(columns, row as int) is Some {
                    self.lemma_batch_fault_stays(columns, (row + 1) as nat, total as nat);
                }
            }
            match self.extract_partition_bucket(batch, row) {
                Ok((partition, bucket)) => self.add_row(
                    batch,
                    &mut groups,
                    partition,
                    bucket,
                    row,
                ),
                Err(error) => return Err(error),
            }
            row += 1;
        }
        Ok(groups)
    }

    /// Divides a batch by where its rows go.
    pub fn divide_by_partition_bucket(&self, batch: &RecordBatch) -> (r: Result<
        Vec<RoutedBatch>,
        Error,
    >)
        requires
            self.wf(),
        ensures
            self.division(*batch, r),
    {
        if self.partition_field_indices.len() == 0 && self.total_buckets <= 1 {
            let mut parts: Vec<RoutedBatch> = Vec::new();
            parts.push(
                RoutedBatch { partition: empty_serialized_row(), bucket: 0, batch: batch.share() },
            );
            return Ok(parts);
        }
        let mut groups: Vec<RowGroup> = match self.group_rows(batch) {
            Ok(groups) => groups,
            Err(error) => return Err(error),
        };
        let mut parts: Vec<RoutedBatch> = Vec::new();
        if groups.len() == 0 {
            return Ok(parts);
        }
        if groups.len() == 1 {
            let group: RowGroup = groups.remove(0);
            parts.push(
                RoutedBatch {
                    partition: group.partition,
                    bucket: group.bucket,
                    batch: batch.share(),
                },
            );
            return Ok(parts);
        }
        let total: usize = batch.num_rows();
        if total > u32::MAX as usize {
            return Err(Error::TooManyRows);
        }
        self.take_groups(batch, groups)
    }

    /// The rows of each group, as a batch.
    fn take_groups(&self, batch: &RecordBatch, groups: Vec<RowGroup>) -> (r: Result<
        Vec<RoutedBatch>,
        Error,
    >)
        requires
            batch_rows(*batch) <= u32::MAX,
            self.grouped(batch_columns(*batch), batch_rows(*batch), groups@),
        ensures
            self.parts_or_error(*batch, r),
    {
        let ghost columns = batch_columns(*batch);
        let ghost n = batch_rows(*batch);
        let ghost routes = self.routes(columns, n);
        let mut parts: Vec<RoutedBatch> = Vec::new();
        let mut g: usize = 0;
        assert(routes.take(0) =~= Seq::<Route>::empty());
        while g < groups.len()
            invariant
                g <= groups@.len(),
                columns == batch_columns(*batch),
                n == batch_rows(*batch),
                n <= u32::MAX,
                routes == self.routes(columns, n),
                self.grouped(columns, n, groups@),
                parts@.len() == g,
                g <= routes.len(),
                self.first_refused(*batch, routes.take(g as int)) is None,
                forall|i: int|
                    #![trigger parts@[i]]
                    0 <= i < g ==> {
                        &&& parts@[i].partition@ == routes[i].partition
                        &&& parts@[i].bucket == routes[i].bucket
                        &&& is_selection(
                            parts@[i].batch,
                            *batch,
                            self.rows_of(columns, n, routes[i]),
                        )
                        &&& self.part_of(*batch, routes[i]) == Selection::Made(parts@[i].batch)
                    },
            decreases groups@.len() - g,
        {
            let group: &RowGroup = &groups[g];
            let ghost rows = self.rows_of(columns, n, routes[g as int]);
            proof {
                self.lemma_rows_below(columns, n, routes[g as int]);
                self.lemma_rows_distinct(columns, n, routes[g as int]);
                assert forall|i: int| 0 <= i < group.rows@.len() implies (#[trigger] group.rows@[i])
                    < n by {
                    assert(as_rows(group.rows@)[i] == rows[i]);
                }
            }
            let indices: Vec<u32> = narrow(&group.rows);
            assert(row_numbers(indices@) =~= as_rows(group.rows@));
            assert(indices@ =~= as_indices(rows));
            proof {
                assert(routes.take(g + 1).drop_last() =~= routes.take(g as int));
                if !(self.part_of(*batch, routes[g as int]) is Made) {
                    self.lemma_refused_stays(*batch, routes, g + 1);
                }
            }
            match select_batch(
                batch,
                &indices,
                "Failed to take rows: ",
                "Failed to create sub-batch: ",
            ) {
                Ok(part) => {
                    let partition: Vec<u8> = group.partition.clone();
                    assert(partition@ =~= group.partition@);
                    parts.push(RoutedBatch { partition, bucket: group.bucket, batch: part });
                },
                Err(error) => return Err(error),
            }
            g += 1;
        }
        assert(routes.take(g as int) =~= routes);
        Ok(parts)
    }

    proof fn lemma_refused_stays(&self, batch: RecordBatch, routes: Seq<Route>, k: int)
        requires
            0 <= k <= routes.len(),
            self.first_refused(batch, routes.take(k)) is Some,
        ensures
            self.first_refused(batch, routes) == self.first_refused(batch, routes.take(k)),
        decreases routes.len() - k,
    {
        if k < routes.len() {
            assert(routes.take(k + 1).drop_last() =~= routes.take(k));
            self.lemma_refused_stays(batch, routes, k + 1);
        } else {
            assert(routes.take(k) =~= routes);
        }
    }
}

/// The row numbers in four bytes each.
fn narrow(rows: &Vec<usize>) -> (r: Vec<u32>)
    requires
        forall|i: int| 0 <= i < rows@.len() ==> (#[trigger] rows@[i]) <= u32::MAX,
    ensures
        r@.len() == rows@.len(),
        forall|i: int| 0 <= i < r@.len() ==> (#[trigger] r@[i]) as int == rows@[i],
{
    let mut r: Vec<u32> = Vec::new();
    let mut i: usize = 0;
    while i < rows.len()
        invariant
            i <= rows@.len(),
            forall|k: int| 0 <= k < rows@.len() ==> (#[trigger] rows@[k]) <= u32::MAX,
            r@.len() == i,
            forall|k: int| 0 <= k < i ==> (#[trigger] r@[k]) as int == rows@[k],
        decreases rows@.len() - i,
    {
        r.push(rows[i] as u32);
        i += 1;
    }
    r
}

} // verus!
