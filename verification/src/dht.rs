//! Decision logic of the DHT client: batching of cell fetches, decoding of
//! fetched records, record building for inserts, and the success accounting
//! of an insert batch. The network transport around these decisions lives
//! outside the library; every network outcome is handed in as a plain value.

use crate::types::{Cell, Position, CELL_CONTENT_SIZE};
use vstd::prelude::*;

verus! {

/// A peer returned a record of the wrong length for this position: a
/// protocol violation, which aborts the whole fetch batch.
#[derive(Clone, Copy, Debug, PartialEq, Eq, Structural)]
pub struct MalformedRecord {
    pub position: Position,
    pub length: usize,
}

/// A DHT record to be published: reference key, cell content, and the
/// time-to-live after which peers let it expire. The absolute expiry
/// instant is attached at the network edge.
#[derive(Clone, Debug)]
pub struct DhtRecord {
    pub key: Vec<u8>,
    pub value: Vec<u8>,
    pub ttl_seconds: u64,
}

fn copy_bytes(v: &Vec<u8>) -> (r: Vec<u8>)
    ensures
        r@ == v@,
{
    let mut r: Vec<u8> = Vec::new();
    let mut i: usize = 0;
    while i < v.len()
        invariant
            i <= v@.len(),
            r@ == v@.take(i as int),
        decreases v@.len() - i,
    {
        r.push(v[i]);
        proof {
            assert(r@ =~= v@.take(i + 1));
        }
        i = i + 1;
    }
    proof {
        assert(v@.take(v@.len() as int) =~= v@);
    }
    r
}

impl Cell {
    /// The record under which this cell is published for block `block`:
    /// key is the cell's reference, value is its content.
    pub fn dht_record(&self, block: u64, ttl_seconds: u64) -> (r: DhtRecord)
        ensures
            r.key@ == crate::types::spec_reference_key(
                block as nat,
                self.position.row as nat,
                self.position.col as nat,
            ),
            r.value@ == self.content@,
            r.ttl_seconds == ttl_seconds,
    {
        DhtRecord { key: self.position.reference_key(block), value: copy_bytes(&self.content), ttl_seconds }
    }
}

/// Decode the value of one fetched DHT record into a cell. Exactly the
/// well-sized values decode; any other length is a hard error.
pub fn cell_from_record(position: Position, value: &Vec<u8>) -> (r: Result<
    Cell,
    MalformedRecord,
>)
    ensures
        match r {
            Ok(c) => value@.len() == CELL_CONTENT_SIZE && c.position == position && c.content@
                == value@,
            Err(e) => value@.len() != CELL_CONTENT_SIZE && e.position == position && e.length
                == value@.len(),
        },
{
    if value.len() == CELL_CONTENT_SIZE {
        Ok(Cell { position, content: copy_bytes(value) })
    } else {
        Err(MalformedRecord { position, length: value.len() })
    }
}

/// The cells that a fetch batch yields: one per position whose response
/// holds a value, keeping the input order.
pub open spec fn spec_fetched(ps: Seq<Position>, rs: Seq<Option<Seq<u8>>>) -> Seq<
    (Position, Seq<u8>),
>
    decreases ps.len(),
{
    if ps.len() == 0 || rs.len() == 0 {
        Seq::empty()
    } else {
        let rest = spec_fetched(ps.drop_last(), rs.drop_last());
        match rs.last() {
            Some(v) => rest.push((ps.last(), v)),
            None => rest,
        }
    }
}

/// The positions that a fetch batch leaves unfetched: those whose response
/// was empty, keeping the input order.
pub open spec fn spec_unfetched(ps: Seq<Position>, rs: Seq<Option<Seq<u8>>>) -> Seq<Position>
    decreases ps.len(),
{
    if ps.len() == 0 || rs.len() == 0 {
        Seq::empty()
    } else {
        let rest = spec_unfetched(ps.drop_last(), rs.drop_last());
        match rs.last() {
            Some(v) => rest,
            None => rest.push(ps.last()),
        }
    }
}

/// Every present response has exactly the well-formed cell length.
pub open spec fn responses_wf(rs: Seq<Option<Seq<u8>>>) -> bool {
    forall|i: int|
        0 <= i < rs.len() ==> match #[trigger] rs[i] {
            Some(v) => v.len() == CELL_CONTENT_SIZE,
            None => true,
        }
}

/// The view of a sequence of cells: position and content of each.
pub open spec fn cells_view(cells: Seq<Cell>) -> Seq<(Position, Seq<u8>)> {
    cells.map_values(|c: Cell| (c.position, c.content@))
}

proof fn lemma_fetch_step(ps: Seq<Position>, rs: Seq<Option<Seq<u8>>>, i: int)
    requires
        ps.len() == rs.len(),
        0 <= i < ps.len(),
    ensures
        spec_fetched(ps.take(i + 1), rs.take(i + 1)) == match rs[i] {
            Some(v) => spec_fetched(ps.take(i), rs.take(i)).push((ps[i], v)),
            None => spec_fetched(ps.take(i), rs.take(i)),
        },
        spec_unfetched(ps.take(i + 1), rs.take(i + 1)) == match rs[i] {
            Some(v) => spec_unfetched(ps.take(i), rs.take(i)),
            None => spec_unfetched(ps.take(i), rs.take(i)).push(ps[i]),
        },
{
    assert(ps.take(i + 1).drop_last() =~= ps.take(i));
    assert(rs.take(i + 1).drop_last() =~= rs.take(i));
    assert(ps.take(i + 1).last() == ps[i]);
    assert(rs.take(i + 1).last() == rs[i]);
}

/// Turn the per-position responses of one fetch batch into the fetched
/// cells and the unfetched positions. A response of the wrong length
/// aborts the whole batch: it signals a misbehaving peer, not mere
/// unavailability, and is never silently skipped.
pub fn collect_fetched(positions: &Vec<Position>, responses: &Vec<Option<Vec<u8>>>) -> (r: Result<
    (Vec<Cell>, Vec<Position>),
    MalformedRecord,
>)
    requires
        positions@.len() == responses@.len(),
    ensures
        match r {
            Ok(fu) => {
                &&& responses_wf(responses.deep_view())
                &&& cells_view(fu.0@) == spec_fetched(positions@, responses.deep_view())
                &&& fu.1@ == spec_unfetched(positions@, responses.deep_view())
                &&& forall|i: int| 0 <= i < fu.0@.len() ==> (#[trigger] fu.0@[i]).wf()
                &&& fu.0@.len() + fu.1@.len() == positions@.len()
            },
            Err(e) => {
                &&& !responses_wf(responses.deep_view())
                &&& exists|i: int|
                    {
                        &&& 0 <= i < responses.deep_view().len()
                        &&& (#[trigger] responses.deep_view()[i]) matches Some(v)
                        &&& v.len() != CELL_CONTENT_SIZE
                        &&& e.position == positions@[i]
                        &&& e.length == v.len()
                    }
            },
        },
{
    let ghost rsv = responses.deep_view();
    let n = positions.len();
    let mut fetched: Vec<Cell> = Vec::new();
    let mut unfetched: Vec<Position> = Vec::new();
    let mut i: usize = 0;
    while i < n
        invariant
            n == positions@.len() == responses@.len(),
            rsv == responses.deep_view(),
            i <= n,
            responses_wf(rsv.take(i as int)),
            cells_view(fetched@) == spec_fetched(positions@.take(i as int), rsv.take(i as int)),
            unfetched@ == spec_unfetched(positions@.take(i as int), rsv.take(i as int)),
            forall|k: int| 0 <= k < fetched@.len() ==> (#[trigger] fetched@[k]).wf(),
            fetched@.len() + unfetched@.len() == i,
        decreases n - i,
    {
        let pos = positions[i];
        proof {
            lemma_fetch_step(positions@, rsv, i as int);
            assert(rsv[i as int] == responses@[i as int].deep_view());
        }
        match &responses[i] {
            Some(v) => {
                proof {
                    assert(v.deep_view() =~= v@);
                    assert(rsv[i as int] == Some(v@));
                }
                match cell_from_record(pos, v) {
                    Ok(cell) => {
                        fetched.push(cell);
                        proof {
                            assert(cells_view(fetched@) =~= spec_fetched(
                                positions@.take(i + 1),
                                rsv.take(i + 1),
                            ));
                            assert(responses_wf(rsv.take(i + 1)));
                        }
                    },
                    Err(e) => {
                        proof {
                            assert(rsv[i as int] matches Some(w) && w.len() != CELL_CONTENT_SIZE);
                            assert(!responses_wf(rsv));
                        }
                        return Err(e);
                    },
                }
            },
            None => {
                unfetched.push(pos);
                proof {
                    assert(unfetched@ =~= spec_unfetched(
                        positions@.take(i + 1),
                        rsv.take(i + 1),
                    ));
                    assert(responses_wf(rsv.take(i + 1)));
                }
            },
        }
        i = i + 1;
    }
    proof {
        assert(positions@.take(n as int) =~= positions@);
        assert(rsv.take(n as int) =~= rsv);
    }
    Ok((fetched, unfetched))
}

/// The positions of the cells that a fetch batch yields.
pub open spec fn fetched_positions(ps: Seq<Position>, rs: Seq<Option<Seq<u8>>>) -> Seq<Position> {
    spec_fetched(ps, rs).map_values(|pc: (Position, Seq<u8>)| pc.0)
}

/// Fetched and unfetched positions together are exactly the input
/// positions: the batch loses none, invents none, and duplicates none.
pub proof fn lemma_fetch_partition(ps: Seq<Position>, rs: Seq<Option<Seq<u8>>>)
    requires
        ps.len() == rs.len(),
    ensures
        fetched_positions(ps, rs).to_multiset().add(spec_unfetched(ps, rs).to_multiset())
            == ps.to_multiset(),
    decreases ps.len(),
{
    broadcast use vstd::seq_lib::group_to_multiset_ensures;

    let f = fetched_positions(ps, rs);
    let u = spec_unfetched(ps, rs);
    if ps.len() == 0 {
        assert forall|x: Position| #[trigger]
            f.to_multiset().add(u.to_multiset()).count(x) == ps.to_multiset().count(x) by {
            assert(!f.contains(x) && !u.contains(x) && !ps.contains(x));
        }
        assert(f.to_multiset().add(u.to_multiset()) =~= ps.to_multiset());
    } else {
        let psr = ps.drop_last();
        let rsr = rs.drop_last();
        lemma_fetch_partition(psr, rsr);
        let fr = fetched_positions(psr, rsr);
        let ur = spec_unfetched(psr, rsr);
        assert(psr.push(ps.last()) =~= ps);
        assert(ps.to_multiset() == psr.to_multiset().insert(ps.last()));
        match rs.last() {
            Some(v) => {
                assert(f =~= fr.push(ps.last()));
                assert(f.to_multiset() == fr.to_multiset().insert(ps.last()));
                assert(u == ur);
                assert(f.to_multiset().add(u.to_multiset()) =~= ps.to_multiset());
            },
            None => {
                assert(f =~= fr);
                assert(u =~= ur.push(ps.last()));
                assert(u.to_multiset() == ur.to_multiset().insert(ps.last()));
                assert(f.to_multiset().add(u.to_multiset()) =~= ps.to_multiset());
            },
        }
    }
}

/// Split the positions of one fetch call into chunks of at most `limit`,
/// in order: all chunks but the last are full. One chunk is queried
/// concurrently; chunk boundaries bound how many queries are in flight.
pub fn chunk_positions(positions: &Vec<Position>, limit: usize) -> (r: Vec<Vec<Position>>)
    requires
        limit >= 1,
    ensures
        r.deep_view().flatten() == positions@,
        forall|k: int|
            0 <= k < r.deep_view().len() ==> 1 <= (#[trigger] r.deep_view()[k]).len() <= limit,
        forall|k: int|
            0 <= k < r.deep_view().len() - 1 ==> (#[trigger] r.deep_view()[k]).len() == limit,
{
    let n = positions.len();
    let mut r: Vec<Vec<Position>> = Vec::new();
    let mut i: usize = 0;
    while i < n
        invariant
            n == positions@.len(),
            limit >= 1,
            i <= n,
            r.deep_view().flatten_alt() == positions@.take(i as int),
            forall|k: int|
                0 <= k < r.deep_view().len() ==> 1 <= (#[trigger] r.deep_view()[k]).len() <= limit,
            forall|k: int|
                0 <= k < r.deep_view().len() - 1 ==> (#[trigger] r.deep_view()[k]).len() == limit,
            r.deep_view().len() > 0 ==> (i == n || r.deep_view().last().len() == limit),
        decreases n - i,
    {
        let end = if n - i < limit {
            n
        } else {
            i + limit
        };
        let mut chunk: Vec<Position> = Vec::new();
        let mut j: usize = i;
        while j < end
            invariant
                i <= j <= end <= n,
                n == positions@.len(),
                chunk@ == positions@.subrange(i as int, j as int),
            decreases end - j,
        {
            chunk.push(positions[j]);
            proof {
                assert(chunk@ =~= positions@.subrange(i as int, j + 1));
            }
            j = j + 1;
        }
        let ghost prev = r.deep_view();
        let ghost chunk_model = chunk@;
        r.push(chunk);
        proof {
            assert(chunk.deep_view() =~= chunk_model);
            assert(r.deep_view() =~= prev.push(chunk_model));
            assert forall|k: int| 0 <= k < r.deep_view().len() implies 1 <= (
            #[trigger] r.deep_view()[k]).len() <= limit by {
                if k < prev.len() {
                    assert(r.deep_view()[k] == prev[k]);
                } else {
                    assert(r.deep_view()[k] == chunk_model);
                }
            }
            assert forall|k: int| 0 <= k < r.deep_view().len() - 1 implies (
            #[trigger] r.deep_view()[k]).len() == limit by {
                assert(r.deep_view()[k] == prev[k]);
                if k == prev.len() - 1 {
                    assert(prev[k] == prev.last());
                }
            }
            assert(r.deep_view().drop_last() =~= prev);
            assert(r.deep_view().flatten_alt() == r.deep_view().drop_last().flatten_alt().add(
                r.deep_view().last(),
            ));
            assert(positions@.take(i as int) + chunk_model =~= positions@.take(end as int));
            assert(r.deep_view().flatten_alt() =~= positions@.take(end as int));
        }
        i = end;
    }
    proof {
        assert(positions@.take(n as int) =~= positions@);
        r.deep_view().lemma_flatten_and_flatten_alt_are_equivalent();
    }
    r
}

/// How many outcomes of an insert batch failed.
pub open spec fn count_failures(outcomes: Seq<bool>) -> nat
    decreases outcomes.len(),
{
    if outcomes.len() == 0 {
        0
    } else {
        count_failures(outcomes.drop_last()) + if outcomes.last() {
            0nat
        } else {
            1nat
        }
    }
}

pub proof fn lemma_count_failures_bound(outcomes: Seq<bool>)
    ensures
        count_failures(outcomes) <= outcomes.len(),
    decreases outcomes.len(),
{
    if outcomes.len() > 0 {
        lemma_count_failures_bound(outcomes.drop_last());
    }
}

/// The success rate of an insert batch, as an exact fraction
/// `(successes, total)`. An empty batch counts as full success; failures
/// are never retried or rolled back, only counted.
pub fn insert_success_rate(outcomes: &Vec<bool>) -> (r: (usize, usize))
    ensures
        1 <= r.1,
        r.0 <= r.1,
        outcomes@.len() == 0 ==> r == (1usize, 1usize),
        outcomes@.len() > 0 ==> r.1 == outcomes@.len() && r.0 == outcomes@.len() - count_failures(
            outcomes@,
        ),
{
    let n = outcomes.len();
    if n == 0 {
        return (1, 1);
    }
    let mut failures: usize = 0;
    let mut i: usize = 0;
    while i < n
        invariant
            n == outcomes@.len(),
            i <= n,
            failures == count_failures(outcomes@.take(i as int)),
            failures <= i,
        decreases n - i,
    {
        proof {
            assert(outcomes@.take(i + 1).drop_last() =~= outcomes@.take(i as int));
            assert(outcomes@.take(i + 1).last() == outcomes@[i as int]);
        }
        if !outcomes[i] {
            failures = failures + 1;
        }
        i = i + 1;
    }
    proof {
        assert(outcomes@.take(n as int) =~= outcomes@);
    }
    (n - failures, n)
}

} // verus!
