//! What routing keeps: rows with the same keys stay together, and every row goes to one place.

use crate::arrow::{batch_columns, batch_rows, batch_schema, select_rows, Cell, RecordBatch};
use crate::binary_row::{serialized_row, RowCell};
use crate::error::Error;
use crate::route::{Route, RoutedBatch, Router};
use vstd::prelude::*;

verus! {

/// The rows of all parts together.
pub open spec fn rows_routed(parts: Seq<RoutedBatch>) -> int
    decreases parts.len(),
{
    if parts.len() == 0 {
        0
    } else {
        rows_routed(parts.drop_last()) + batch_rows(parts.last().batch)
    }
}

/// Two rows, of one batch or of two, that agree in the partition columns and in the bucket
/// columns go to the same place. Nulls agree with nulls.
pub proof fn law_same_keys_same_place(
    router: Router,
    a: Seq<Seq<Cell>>,
    r: int,
    b: Seq<Seq<Cell>>,
    s: int,
)
    requires
        forall|k: int|
            #![trigger router.partition_field_indices@[k]]
            0 <= k < router.partition_field_indices@.len()
                ==> a[router.partition_field_indices@[k] as int][r]
                == b[router.partition_field_indices@[k] as int][s],
        forall|k: int|
            #![trigger router.bucket_key_indices@[k]]
            0 <= k < router.bucket_key_indices@.len() ==> a[router.bucket_key_indices@[k] as int][r]
                == b[router.bucket_key_indices@[k] as int][s],
    ensures
        router.route(a, r) == router.route(b, s),
{
    assert(router.cells_at(a, r, router.partition_field_indices@) =~= router.cells_at(
        b,
        s,
        router.partition_field_indices@,
    ));
    assert(router.cells_at(a, r, router.bucket_key_indices@) =~= router.cells_at(
        b,
        s,
        router.bucket_key_indices@,
    ));
}

/// Every bucket is one of those that the table has.
pub proof fn law_bucket_in_range(router: Router, columns: Seq<Seq<Cell>>, row: int)
    ensures
        0 <= router.route(columns, row).bucket,
        router.route(columns, row).bucket < if router.total_buckets > 1 {
            router.total_buckets as int
        } else {
            1
        },
{
}

/// Every row is among the rows of the place that it goes to, and of no other.
pub proof fn law_every_row_in_one_place(
    router: Router,
    columns: Seq<Seq<Cell>>,
    n: nat,
    row: int,
    place: Route,
)
    requires
        0 <= row < n,
    ensures
        router.routes(columns, n).contains(router.route(columns, row)),
        router.rows_of(columns, n, place).contains(row) <==> place == router.route(columns, row),
    decreases n,
{
    let m = (n - 1) as nat;
    let rest = router.routes(columns, m);
    let last = router.route(columns, n - 1);
    let rows = router.rows_of(columns, m, place);
    if row < n - 1 {
        law_every_row_in_one_place(router, columns, m, row, place);
        let i = choose|i: int| 0 <= i < rest.len() && rest[i] == router.route(columns, row);
        assert(rest.push(last)[i] == router.route(columns, row));
        if rows.contains(row) {
            let j = choose|j: int| 0 <= j < rows.len() && rows[j] == row;
            assert(rows.push(n - 1)[j] == row);
        }
    } else {
        assert(rest.push(last).last() == last);
        assert(rows.push(n - 1).last() == n - 1);
        router.lemma_rows_below(columns, m, place);
    }
}

spec fn rows_at(router: Router, columns: Seq<Seq<Cell>>, n: nat, places: Seq<Route>) -> int
    decreases places.len(),
{
    if places.len() == 0 {
        0
    } else {
        rows_at(router, columns, n, places.drop_last()) + router.rows_of(
            columns,
            n,
            places.last(),
        ).len()
    }
}

proof fn lemma_rows_at_step(
    router: Router,
    columns: Seq<Seq<Cell>>,
    n: nat,
    places: Seq<Route>,
)
    requires
        places.no_duplicates(),
    ensures
        rows_at(router, columns, n + 1, places) == rows_at(router, columns, n, places) + if
            places.contains(router.route(columns, n as int)) {
            1int
        } else {
            0
        },
    decreases places.len(),
{
    if places.len() > 0 {
        let rest = places.drop_last();
        let route = router.route(columns, n as int);
        lemma_rows_at_step(router, columns, n, rest);
        if rest.contains(route) {
            let i = choose|i: int| 0 <= i < rest.len() && rest[i] == route;
            assert(places[i] == route);
            assert(places.last() != route);
        } else if places.contains(route) {
            let i = choose|i: int| 0 <= i < places.len() && places[i] == route;
            if i < rest.len() {
                assert(rest[i] == route);
            }
        }
    }
}

pub proof fn lemma_no_rows_elsewhere(router: Router, columns: Seq<Seq<Cell>>, n: nat, place: Route)
    requires
        !router.routes(columns, n).contains(place),
    ensures
        router.rows_of(columns, n, place).len() == 0,
    decreases n,
{
    if router.rows_of(columns, n, place).len() > 0 {
        let row = router.rows_of(columns, n, place)[0];
        router.lemma_rows_below(columns, n, place);
        assert(router.rows_of(columns, n, place).contains(row));
        law_every_row_in_one_place(router, columns, n, row, place);
    }
}

proof fn lemma_rows_at_all(router: Router, columns: Seq<Seq<Cell>>, n: nat)
    ensures
        rows_at(router, columns, n, router.routes(columns, n)) == n,
    decreases n,
{
    if n > 0 {
        let m = (n - 1) as nat;
        let rest = router.routes(columns, m);
        let route = router.route(columns, m as int);
        lemma_rows_at_all(router, columns, m);
        router.lemma_routes_distinct(columns, m);
        lemma_rows_at_step(router, columns, m, rest);
        if !rest.contains(route) {
            lemma_no_rows_elsewhere(router, columns, m, route);
            assert(rest.push(route).drop_last() =~= rest);
        }
    }
}

proof fn lemma_parts_match(
    router: Router,
    batch: RecordBatch,
    parts: Seq<RoutedBatch>,
    k: nat,
)
    requires
        router.divides(batch, parts),
        k <= parts.len(),
    ensures
        rows_routed(parts.take(k as int)) == rows_at(
            router,
            batch_columns(batch),
            batch_rows(batch),
            router.routes(batch_columns(batch), batch_rows(batch)).take(k as int),
        ),
    decreases k,
{
    let routes = router.routes(batch_columns(batch), batch_rows(batch));
    if k > 0 {
        lemma_parts_match(router, batch, parts, (k - 1) as nat);
        assert(parts.take(k as int).drop_last() =~= parts.take(k - 1));
        assert(routes.take(k as int).drop_last() =~= routes.take(k - 1));
        assert(parts.take(k as int).last() == parts[k - 1]);
    }
}

/// Dividing a batch loses no row and invents none.
pub proof fn law_division_keeps_rows(router: Router, batch: RecordBatch, parts: Vec<RoutedBatch>)
    requires
        router.division(batch, Ok::<Vec<RoutedBatch>, Error>(parts)),
    ensures
        rows_routed(parts@) == batch_rows(batch),
{
    let columns = batch_columns(batch);
    let n = batch_rows(batch);
    let routes = router.routes(columns, n);
    if router.is_single() || routes.len() == 1 {
        assert(parts@.drop_last() =~= Seq::<RoutedBatch>::empty());
        assert(rows_routed(Seq::<RoutedBatch>::empty()) == 0);
    } else if routes.len() == 0 {
        if n > 0 {
            law_every_row_in_one_place(router, columns, n, 0, router.route(columns, 0));
        }
    } else {
        lemma_parts_match(router, batch, parts@, parts@.len());
        assert(parts@.take(parts@.len() as int) =~= parts@);
        assert(routes.take(parts@.len() as int) =~= routes);
        lemma_rows_at_all(router, columns, n);
    }
}

/// The parts go to different places.
pub proof fn law_division_places_distinct(
    router: Router,
    batch: RecordBatch,
    parts: Vec<RoutedBatch>,
    i: int,
    j: int,
)
    requires
        router.division(batch, Ok::<Vec<RoutedBatch>, Error>(parts)),
        0 <= i < j < parts@.len(),
    ensures
        parts@[i].partition@ != parts@[j].partition@ || parts@[i].bucket != parts@[j].bucket,
{
    router.lemma_routes_distinct(batch_columns(batch), batch_rows(batch));
}

pub proof fn lemma_no_fault_in_row(router: Router, columns: Seq<Seq<Cell>>, n: nat, row: int)
    requires
        0 <= row < n,
        router.batch_fault(columns, n) is None,
    ensures
        router.row_fault(columns, row) is None,
    decreases n,
{
    if row < n - 1 {
        lemma_no_fault_in_row(router, columns, (n - 1) as nat, row);
    }
}

pub proof fn lemma_no_fault_in_column(
    router: Router,
    columns: Seq<Seq<Cell>>,
    row: int,
    indices: Seq<usize>,
    k: int,
)
    requires
        0 <= k < indices.len(),
        router.first_fault(columns, row, indices) is None,
    ensures
        indices[k] < columns.len(),
    decreases indices.len(),
{
    if k < indices.len() - 1 {
        lemma_no_fault_in_column(router, columns, row, indices.drop_last(), k);
    }
}

pub proof fn lemma_selected_row_route(
    router: Router,
    columns: Seq<Seq<Cell>>,
    rows: Seq<int>,
    r: int,
)
    requires
        0 <= r < rows.len(),
        router.row_fault(columns, rows[r]) is None,
    ensures
        router.route(select_rows(columns, rows), r) == router.route(columns, rows[r]),
{
    let part = select_rows(columns, rows);
    let partition = router.partition_field_indices@;
    let bucket = router.bucket_key_indices@;
    assert(router.cells_at(part, r, partition) =~= router.cells_at(columns, rows[r], partition))
        by {
        assert forall|k: int| 0 <= k < partition.len() implies part[partition[k] as int][r]
            == columns[#[trigger] partition[k] as int][rows[r]] by {
            lemma_no_fault_in_column(router, columns, rows[r], partition, k);
        }
    }
    if router.has_buckets() {
        assert(router.cells_at(part, r, bucket) =~= router.cells_at(columns, rows[r], bucket)) by {
            assert forall|k: int| 0 <= k < bucket.len() implies part[bucket[k] as int][r]
                == columns[#[trigger] bucket[k] as int][rows[r]] by {
                lemma_no_fault_in_column(router, columns, rows[r], bucket, k);
            }
        }
    }
}

/// Every row of a part is one that goes to the part's place.
pub proof fn law_parts_hold_rows_of_their_place(
    router: Router,
    batch: RecordBatch,
    parts: Vec<RoutedBatch>,
    i: int,
    r: int,
)
    requires
        router.division(batch, Ok::<Vec<RoutedBatch>, Error>(parts)),
        0 <= i < parts@.len(),
        0 <= r < batch_rows(parts@[i].batch),
    ensures
        router.route(batch_columns(parts@[i].batch), r) == (Route {
            partition: parts@[i].partition@,
            bucket: parts@[i].bucket as int,
        }),
{
    let columns = batch_columns(batch);
    let n = batch_rows(batch);
    let routes = router.routes(columns, n);
    if router.is_single() {
        assert(router.cells_at(columns, r, router.partition_field_indices@) =~= Seq::<
            RowCell,
        >::empty());
    } else if routes.len() == 1 {
        law_every_row_in_one_place(router, columns, n, r, routes[0]);
    } else {
        let rows = router.rows_of(columns, n, routes[i]);
        router.lemma_rows_below(columns, n, routes[i]);
        assert(rows.contains(rows[r]));
        law_every_row_in_one_place(router, columns, n, rows[r], routes[i]);
        lemma_no_fault_in_row(router, columns, n, rows[r]);
        lemma_selected_row_route(router, columns, rows, r);
    }
}

proof fn lemma_rows_ascend(router: Router, columns: Seq<Seq<Cell>>, n: nat, place: Route)
    ensures
        ({
            let rows = router.rows_of(columns, n, place);
            &&& forall|a: int, b: int|
                0 <= a < b < rows.len() ==> #[trigger] rows[a] < #[trigger] rows[b]
            &&& forall|a: int| 0 <= a < rows.len() ==> 0 <= #[trigger] rows[a] < n
        }),
    decreases n,
{
    if n > 0 {
        let rest = router.rows_of(columns, (n - 1) as nat, place);
        let rows = router.rows_of(columns, n, place);
        lemma_rows_ascend(router, columns, (n - 1) as nat, place);
        assert forall|a: int| 0 <= a < rows.len() implies 0 <= #[trigger] rows[a] < n by {
            if a < rest.len() {
                assert(rows[a] == rest[a]);
            }
        }
        assert forall|a: int, b: int| 0 <= a < b < rows.len() implies #[trigger] rows[a]
            < #[trigger] rows[b] by {
            assert(rows[a] == rest[a]);
            if b < rest.len() {
                assert(rows[b] == rest[b]);
            }
        }
    }
}

/// A part holds exactly the rows that go to its place, in the order of the batch, with all their
/// columns.
pub proof fn law_part_is_the_rows_of_its_place(
    router: Router,
    batch: RecordBatch,
    parts: Vec<RoutedBatch>,
    i: int,
) -> (rows: Seq<int>)
    requires
        router.division(batch, Ok::<Vec<RoutedBatch>, Error>(parts)),
        0 <= i < parts@.len(),
    ensures
        forall|a: int, b: int| 0 <= a < b < rows.len() ==> #[trigger] rows[a] < #[trigger] rows[b],
        forall|r: int|
            #![trigger rows.contains(r)]
            rows.contains(r) <==> {
                let route = router.route(batch_columns(batch), r);
                &&& 0 <= r < batch_rows(batch)
                &&& route.partition == parts@[i].partition@
                &&& route.bucket == parts@[i].bucket
            },
        batch_schema(parts@[i].batch) == batch_schema(batch),
        batch_rows(parts@[i].batch) == rows.len(),
        batch_columns(parts@[i].batch).len() == batch_columns(batch).len(),
        forall|c: int, m: int|
            #![trigger batch_columns(parts@[i].batch)[c][m]]
            0 <= c < batch_columns(batch).len() && 0 <= m < rows.len() ==> batch_columns(
                parts@[i].batch,
            )[c][m] == batch_columns(batch)[c][rows[m]],
{
    let columns = batch_columns(batch);
    let n = batch_rows(batch);
    let routes = router.routes(columns, n);
    if router.is_single() || routes.len() == 1 {
        let rows = Seq::new(n, |r: int| r);
        assert forall|r: int| #![trigger rows.contains(r)] rows.contains(r) <==> {
            let route = router.route(columns, r);
            &&& 0 <= r < n
            &&& route.partition == parts@[i].partition@
            &&& route.bucket == parts@[i].bucket
        } by {
            if 0 <= r < n {
                assert(rows[r] == r);
                law_parts_hold_rows_of_their_place(router, batch, parts, i, r);
            }
        }
        rows
    } else {
        let place = routes[i];
        let rows = router.rows_of(columns, n, place);
        lemma_rows_ascend(router, columns, n, place);
        assert forall|r: int| #![trigger rows.contains(r)] rows.contains(r) <==> {
            let route = router.route(columns, r);
            &&& 0 <= r < n
            &&& route.partition == parts@[i].partition@
            &&& route.bucket == parts@[i].bucket
        } by {
            if 0 <= r < n {
                law_every_row_in_one_place(router, columns, n, r, place);
            }
        }
        rows
    }
}

/// A batch is refused as a whole for the first fault in it, where rows are told apart at all; a
/// table with neither partition columns nor a second bucket takes every batch as it is.
pub proof fn law_division_refuses_faults(
    router: Router,
    batch: RecordBatch,
    r: Result<Vec<RoutedBatch>, Error>,
)
    requires
        router.division(batch, r),
    ensures
        router.partition_field_indices@.len() > 0 || router.total_buckets > 1 ==> (
        router.batch_fault(batch_columns(batch), batch_rows(batch)) matches Some(error) ==> r
            == Err::<Vec<RoutedBatch>, Error>(error)),
        router.partition_field_indices@.len() == 0 && router.total_buckets <= 1 ==> r is Ok,
        r matches Err(Error::TypeMismatch { .. }) ==> router.batch_fault(
            batch_columns(batch),
            batch_rows(batch),
        ) is Some,
        r matches Err(Error::MissingColumn { .. }) ==> router.batch_fault(
            batch_columns(batch),
            batch_rows(batch),
        ) is Some,
{
}

/// All rows of a table without partition columns go to one partition, of twelve zero bytes.
pub proof fn law_partition_of_no_columns(router: Router, columns: Seq<Seq<Cell>>, row: int)
    requires
        router.partition_field_indices@.len() == 0,
    ensures
        router.route(columns, row).partition == Seq::new(12, |i: int| 0u8),
{
    let cells = router.cells_at(columns, row, router.partition_field_indices@);
    assert(cells =~= Seq::<RowCell>::empty());
    reveal_with_fuel(crate::binary_row::le_bytes, 5);
    assert(serialized_row(cells) =~= Seq::new(12, |i: int| 0u8));
}

} // verus!
