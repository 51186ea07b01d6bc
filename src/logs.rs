//! Log-based event extraction: launch events read from the program's log
//! lines, inside the regions that the program's invoke and success markers
//! delimit.
use vstd::prelude::*;
use vstd::string::StringExecFns;
use crate::chain::{texts, BlockTransaction, QueuedBlock};
use crate::record::{LaunchRecord, RecordModel};
use crate::text::{
    after_char, before_char, chars_of, contains_chars, contains_text, digits_value, find_char,
    holds_char, index_of, is_digit, is_digits, is_space, lemma_index_of,
    lemma_index_of_concat_absent, lemma_index_of_concat_present, occurs_at, parse_digits,
    second_piece, trim, trim_range,
};

verus! {

broadcast use vstd::string::group_string_axioms;

/// The line that opens a top-level invocation of `program`.
pub open spec fn invoke_marker(program: Seq<char>) -> Seq<char> {
    "Program "@ + program + " invoke [1]"@
}

/// The line that closes a successful invocation of `program`.
pub open spec fn success_marker(program: Seq<char>) -> Seq<char> {
    "Program "@ + program + " success"@
}

/// The text that marks a mint line.
pub open spec fn mint_tag() -> Seq<char> {
    "Program log: Mint user = "@
}

pub fn invoke_marker_of(program: &str) -> (r: String)
    ensures
        r@ == invoke_marker(program@),
{
    let mut m = String::from_str("Program ");
    m.append(program);
    m.append(" invoke [1]");
    m
}

pub fn success_marker_of(program: &str) -> (r: String)
    ensures
        r@ == success_marker(program@),
{
    let mut m = String::from_str("Program ");
    m.append(program);
    m.append(" success");
    m
}

/// Indices of the lines equal to `m`, in increasing order.
pub open spec fn positions(lines: Seq<Seq<char>>, m: Seq<char>) -> Seq<int>
    decreases lines.len(),
{
    if lines.len() == 0 {
        Seq::empty()
    } else {
        positions(lines.drop_last(), m) + if lines.last() == m {
            seq![lines.len() - 1]
        } else {
            Seq::empty()
        }
    }
}

pub proof fn lemma_positions(lines: Seq<Seq<char>>, m: Seq<char>)
    ensures
        positions(lines, m).len() <= lines.len(),
        forall|i: int|
            0 <= i < positions(lines, m).len() ==> 0 <= #[trigger] positions(lines, m)[i]
                < lines.len() && lines[positions(lines, m)[i]] == m,
        forall|i: int, j: int|
            0 <= i < j < positions(lines, m).len() ==> #[trigger] positions(lines, m)[i]
                < #[trigger] positions(lines, m)[j],
    decreases lines.len(),
{
    if lines.len() > 0 {
        let p = lines.drop_last();
        lemma_positions(p, m);
        let q = positions(lines, m);
        let pp = positions(p, m);
        assert forall|i: int| 0 <= i < q.len() implies 0 <= #[trigger] q[i] < lines.len()
            && lines[q[i]] == m by {
            if i < pp.len() {
                assert(q[i] == pp[i]);
                assert(lines[q[i]] == p[q[i]]);
            }
        }
        assert forall|i: int, j: int| 0 <= i < j < q.len() implies #[trigger] q[i] < #[trigger] q[j] by {
            if j < pp.len() {
                assert(q[i] == pp[i] && q[j] == pp[j]);
            } else {
                assert(q[i] == pp[i]);
            }
        }
    }
}

/// Indices of the lines of `lines` equal to `m`.
pub fn positions_of(lines: &Vec<String>, m: &String) -> (r: Vec<usize>)
    ensures
        r@.map_values(|i: usize| i as int) == positions(texts(lines@), m@),
{
    let ghost t = texts(lines@);
    let mut out: Vec<usize> = Vec::new();
    let mut i: usize = 0;
    while i < lines.len()
        invariant
            i <= lines@.len(),
            t == texts(lines@),
            out@.map_values(|k: usize| k as int) == positions(t.subrange(0, i as int), m@),
        decreases lines@.len() - i,
    {
        assert(t.subrange(0, i + 1).drop_last() =~= t.subrange(0, i as int));
        let ghost before = out@.map_values(|k: usize| k as int);
        if lines[i] == *m {
            out.push(i);
            assert(out@.map_values(|k: usize| k as int) =~= before + seq![i as int]);
        } else {
            assert(before + Seq::<int>::empty() =~= before);
        }
        i = i + 1;
    }
    assert(t.subrange(0, i as int) =~= t);
    out
}

/// The address and amount fields of a mint line
/// `... user = <address>,amount = <amount>`: the line is split at `,`, each
/// of the first two pieces at `=`, and the second piece of each is taken
/// with its surrounding whitespace trimmed.
pub open spec fn mint_fields(l: Seq<char>) -> Option<(Seq<char>, Seq<char>)> {
    if !holds_char(l, ',') {
        None
    } else {
        let f0 = before_char(l, ',');
        let f1 = before_char(after_char(l, ','), ',');
        match (second_piece(f0, '='), second_piece(f1, '=')) {
            (Some(a), Some(b)) => Some((trim(a), trim(b))),
            _ => None,
        }
    }
}

/// The event that line `l` reports, if it is a well-formed mint line: the
/// minting address and the raw amount.
pub open spec fn mint_event(l: Seq<char>) -> Option<(Seq<char>, u64)> {
    if !contains_text(l, mint_tag()) {
        None
    } else {
        match mint_fields(l) {
            Some((a, t)) => if is_digits(t) && digits_value(t) <= u64::MAX {
                Some((a, digits_value(t) as u64))
            } else {
                None
            },
            None => None,
        }
    }
}

/// Finds the second `sep`-piece of `v[from..to]`, as bounds into `v`.
fn second_piece_range(v: &Vec<char>, from: usize, to: usize, sep: char) -> (r: Option<(usize, usize)>)
    requires
        from <= to <= v@.len(),
    ensures
        r is Some <==> second_piece(v@.subrange(from as int, to as int), sep) is Some,
        r is Some ==> from <= r.unwrap().0 <= r.unwrap().1 <= to && second_piece(
            v@.subrange(from as int, to as int),
            sep,
        ) == Some(v@.subrange(r.unwrap().0 as int, r.unwrap().1 as int)),
{
    let ghost s = v@.subrange(from as int, to as int);
    let a = find_char(v, from, to, sep);
    if a == to {
        return None;
    }
    let b = find_char(v, a + 1, to, sep);
    proof {
        assert(after_char(s, sep) =~= v@.subrange(a + 1, to as int));
        assert(before_char(after_char(s, sep), sep) =~= v@.subrange(a + 1, b as int));
    }
    Some((a + 1, b))
}

/// Reads a mint line: the minting address and the raw amount, or `None` when
/// the line is not a well-formed mint line.
pub fn parse_mint_line(line: &str) -> (r: Option<(String, u64)>)
    ensures
        r is Some <==> mint_event(line@) is Some,
        r is Some ==> mint_event(line@) == Some((r.unwrap().0@, r.unwrap().1)),
{
    let v = chars_of(line);
    let tag = chars_of("Program log: Mint user = ");
    if !contains_chars(&v, &tag) {
        return None;
    }
    let n = v.len();
    let c1 = find_char(&v, 0, n, ',');
    assert(v@.subrange(0, n as int) =~= v@);
    if c1 == n {
        return None;
    }
    let c2 = find_char(&v, c1 + 1, n, ',');
    proof {
        assert(before_char(v@, ',') =~= v@.subrange(0, c1 as int));
        assert(after_char(v@, ',') =~= v@.subrange(c1 + 1, n as int));
        assert(before_char(after_char(v@, ','), ',') =~= v@.subrange(c1 + 1, c2 as int));
    }
    let addr = second_piece_range(&v, 0, c1, '=');
    let amt = second_piece_range(&v, c1 + 1, c2, '=');
    match (addr, amt) {
        (Some((a0, a1)), Some((b0, b1))) => {
            let (ta0, ta1) = trim_range(&v, a0, a1);
            let (tb0, tb1) = trim_range(&v, b0, b1);
            match parse_digits(&v, tb0, tb1) {
                Some(amount) => {
                    let address = line.substring_char(ta0, ta1).to_owned();
                    Some((address, amount))
                },
                None => None,
            }
        },
        _ => None,
    }
}


/// Why the logs of a transaction cannot be read.
#[derive(Clone, Copy, Debug, PartialEq, Eq, Structural)]
pub enum LogError {
    /// The number of invoke markers differs from the number of success
    /// markers: the logs are malformed or truncated.
    UnpairedMarkers,
}

/// The one-element sequence of `o`'s value, or nothing.
pub open spec fn opt_seq<A>(o: Option<A>) -> Seq<A> {
    match o {
        Some(x) => seq![x],
        None => Seq::empty(),
    }
}

/// The mint events of `lines[a..b]`, in line order.
pub open spec fn line_events(lines: Seq<Seq<char>>, a: int, b: int) -> Seq<(Seq<char>, u64)>
    decreases b - a,
{
    if b <= a {
        Seq::empty()
    } else {
        line_events(lines, a, b - 1) + opt_seq(mint_event(lines[b - 1]))
    }
}

/// The mint events of the first `k` regions, region `i` being the lines
/// strictly between `starts[i]` and `ends[i]`.
pub open spec fn region_events(
    lines: Seq<Seq<char>>,
    starts: Seq<int>,
    ends: Seq<int>,
    k: int,
) -> Seq<(Seq<char>, u64)>
    decreases k,
{
    if k <= 0 {
        Seq::empty()
    } else {
        region_events(lines, starts, ends, k - 1) + line_events(
            lines,
            starts[k - 1] + 1,
            ends[k - 1],
        )
    }
}

/// The records of a transaction's events: the `j`-th event gets log index `j`.
pub open spec fn to_records(
    events: Seq<(Seq<char>, u64)>,
    tx_hash: Seq<char>,
    block: u64,
    time: i64,
) -> Seq<RecordModel> {
    Seq::new(
        events.len(),
        |j: int|
            RecordModel {
                address: events[j].0,
                amount: events[j].1,
                block,
                tx_hash,
                log_index: j as u64,
                time,
            },
    )
}

/// The records that a transaction's log lines yield. The `i`-th invoke
/// marker of `program` pairs with its `i`-th success marker; logs with no
/// invoke marker yield nothing, and logs whose marker counts differ yield an
/// error.
pub open spec fn log_records(
    lines: Seq<Seq<char>>,
    program: Seq<char>,
    tx_hash: Seq<char>,
    block: u64,
    time: i64,
) -> Result<Seq<RecordModel>, LogError> {
    let starts = positions(lines, invoke_marker(program));
    let ends = positions(lines, success_marker(program));
    if starts.len() == 0 {
        Ok(Seq::empty())
    } else if starts.len() != ends.len() {
        Err(LogError::UnpairedMarkers)
    } else {
        Ok(to_records(region_events(lines, starts, ends, starts.len() as int), tx_hash, block, time))
    }
}

/// Extracts the launch records from one transaction's log lines.
pub fn extract_log_records(
    lines: &Vec<String>,
    program: &str,
    tx_hash: &String,
    block: u64,
    time: i64,
) -> (r: Result<Vec<LaunchRecord>, LogError>)
    ensures
        r is Err <==> log_records(texts(lines@), program@, tx_hash@, block, time) is Err,
        r is Err ==> log_records(texts(lines@), program@, tx_hash@, block, time) == Err::<
            Seq<RecordModel>,
            LogError,
        >(r->Err_0),
        r is Ok ==> log_records(texts(lines@), program@, tx_hash@, block, time) == Ok::<
            Seq<RecordModel>,
            LogError,
        >(r->Ok_0@.map_values(|x: LaunchRecord| x@)),
{
    let ghost t = texts(lines@);
    let inv = invoke_marker_of(program);
    let suc = success_marker_of(program);
    let st = positions_of(lines, &inv);
    if st.len() == 0 {
        let empty: Vec<LaunchRecord> = Vec::new();
        assert(empty@.map_values(|x: LaunchRecord| x@) =~= Seq::<RecordModel>::empty());
        return Ok(empty);
    }
    let en = positions_of(lines, &suc);
    if st.len() != en.len() {
        return Err(LogError::UnpairedMarkers);
    }
    let ghost sts = st@.map_values(|i: usize| i as int);
    let ghost ens = en@.map_values(|i: usize| i as int);
    proof {
        lemma_positions(t, inv@);
        lemma_positions(t, suc@);
    }
    let nlines = lines.len();
    let mut out: Vec<LaunchRecord> = Vec::new();
    let mut k: usize = 0;
    while k < st.len()
        invariant
            t == texts(lines@),
            t.len() == lines@.len(),
            nlines == lines@.len(),
            sts == st@.map_values(|i: usize| i as int),
            ens == en@.map_values(|i: usize| i as int),
            sts == positions(t, invoke_marker(program@)),
            ens == positions(t, success_marker(program@)),
            st@.len() == en@.len(),
            forall|i: int| 0 <= i < sts.len() ==> 0 <= #[trigger] sts[i] < t.len(),
            forall|i: int| 0 <= i < ens.len() ==> 0 <= #[trigger] ens[i] < t.len(),
            k <= st@.len(),
            out@.map_values(|x: LaunchRecord| x@) == to_records(
                region_events(t, sts, ens, k as int),
                tx_hash@,
                block,
                time,
            ),
        decreases st@.len() - k,
    {
        let s = st[k];
        let e = en[k];
        assert(sts[k as int] == s && ens[k as int] == e);
        let ghost done = region_events(t, sts, ens, k as int);
        let mut i = s + 1;
        while i < e
            invariant
                t == texts(lines@),
                t.len() == lines@.len(),
                s + 1 <= i,
                i <= e || i == s + 1,
                e < t.len(),
                out@.map_values(|x: LaunchRecord| x@) == to_records(
                    done + line_events(t, s + 1, i as int),
                    tx_hash@,
                    block,
                    time,
                ),
            decreases e - i,
        {
            let ghost evs = done + line_events(t, s + 1, i as int);
            assert(t[i as int] == lines@[i as int]@);
            match parse_mint_line(lines[i].as_str()) {
                Some((address, amount)) => {
                    let ghost before = out@.map_values(|x: LaunchRecord| x@);
                    assert(before.len() == evs.len());
                    let idx = out.len() as u64;
                    let rec = LaunchRecord::new(address, amount, block, tx_hash.clone(), idx, time);
                    out.push(rec);
                    assert(evs + seq![(address@, amount)] =~= done + line_events(t, s + 1, i + 1));
                    let ghost ev2 = evs + seq![(address@, amount)];
                    let ghost want = to_records(ev2, tx_hash@, block, time);
                    let ghost got = out@.map_values(|x: LaunchRecord| x@);
                    assert(got.len() == want.len());
                    assert forall|j: int| 0 <= j < got.len() implies got[j] == want[j] by {
                        if j < before.len() {
                            assert(got[j] == before[j]);
                            assert(ev2[j] == evs[j]);
                        } else {
                            assert(got[j] == rec@);
                            assert(ev2[j] == (address@, amount));
                            assert(j as u64 == idx);
                        }
                    }
                    assert(out@.map_values(|x: LaunchRecord| x@) =~= to_records(
                        evs + seq![(address@, amount)],
                        tx_hash@,
                        block,
                        time,
                    ));
                },
                None => {
                    assert(evs =~= done + line_events(t, s + 1, i + 1));
                },
            }
            i = i + 1;
        }
        assert(line_events(t, s + 1, i as int) == line_events(t, s + 1, e as int));
        k = k + 1;
    }
    Ok(out)
}


/// The records that the logs of one block transaction yield. A transaction
/// that could not be decoded, has no metadata, failed, has no signature or
/// has no log lines yields nothing.
pub open spec fn tx_log_records(
    tx: BlockTransaction,
    program: Seq<char>,
    block: u64,
    time: i64,
) -> Result<Seq<RecordModel>, LogError> {
    match (tx.transaction, tx.meta) {
        (Some(d), Some(m)) => if m.failed || d.signatures@.len() == 0 {
            Ok(Seq::empty())
        } else {
            match m.log_messages {
                Some(logs) => log_records(texts(logs@), program, d.signatures@[0]@, block, time),
                None => Ok(Seq::empty()),
            }
        },
        _ => Ok(Seq::empty()),
    }
}

/// Extracts the launch records from the logs of one block transaction.
pub fn extract_transaction_logs(
    tx: &BlockTransaction,
    program: &str,
    block: u64,
    time: i64,
) -> (r: Result<Vec<LaunchRecord>, LogError>)
    ensures
        r is Err <==> tx_log_records(*tx, program@, block, time) is Err,
        r is Err ==> tx_log_records(*tx, program@, block, time) == Err::<Seq<RecordModel>, LogError>(
            r->Err_0,
        ),
        r is Ok ==> tx_log_records(*tx, program@, block, time) == Ok::<Seq<RecordModel>, LogError>(
            r->Ok_0@.map_values(|x: LaunchRecord| x@),
        ),
{
    let empty: Vec<LaunchRecord> = Vec::new();
    assert(empty@.map_values(|x: LaunchRecord| x@) =~= Seq::<RecordModel>::empty());
    match (&tx.transaction, &tx.meta) {
        (Some(d), Some(m)) => {
            if m.failed || d.signatures.len() == 0 {
                return Ok(empty);
            }
            match &m.log_messages {
                Some(logs) => extract_log_records(logs, program, &d.signatures[0], block, time),
                None => Ok(empty),
            }
        },
        _ => Ok(empty),
    }
}

/// What log scanning found in a block.
#[derive(Clone, Debug)]
pub struct LogScan {
    /// The records of all transactions whose logs could be read.
    pub records: Vec<LaunchRecord>,
    /// Indices of the transactions whose logs were malformed; none of their
    /// events is among `records`.
    pub malformed: Vec<usize>,
}

/// The records of the readable transactions of `txs`, transaction after
/// transaction.
pub open spec fn block_log_records(
    txs: Seq<BlockTransaction>,
    program: Seq<char>,
    block: u64,
    time: i64,
) -> Seq<RecordModel>
    decreases txs.len(),
{
    if txs.len() == 0 {
        Seq::empty()
    } else {
        block_log_records(txs.drop_last(), program, block, time) + match tx_log_records(
            txs.last(),
            program,
            block,
            time,
        ) {
            Ok(rs) => rs,
            Err(_) => Seq::empty(),
        }
    }
}

/// Indices of the transactions of `txs` whose logs are malformed.
pub open spec fn malformed_txs(
    txs: Seq<BlockTransaction>,
    program: Seq<char>,
    block: u64,
    time: i64,
) -> Seq<int>
    decreases txs.len(),
{
    if txs.len() == 0 {
        Seq::empty()
    } else {
        malformed_txs(txs.drop_last(), program, block, time) + if tx_log_records(
            txs.last(),
            program,
            block,
            time,
        ) is Err {
            seq![txs.len() - 1]
        } else {
            Seq::empty()
        }
    }
}

/// Scans the logs of every transaction of a block. A transaction with
/// malformed logs is skipped and reported; the others are kept.
pub fn parse_transfer_logs(
    transactions: &Vec<BlockTransaction>,
    program: &str,
    block: u64,
    time: i64,
) -> (r: LogScan)
    ensures
        r.records@.map_values(|x: LaunchRecord| x@) == block_log_records(
            transactions@,
            program@,
            block,
            time,
        ),
        r.malformed@.map_values(|i: usize| i as int) == malformed_txs(
            transactions@,
            program@,
            block,
            time,
        ),
{
    let ghost txs = transactions@;
    let mut records: Vec<LaunchRecord> = Vec::new();
    let mut malformed: Vec<usize> = Vec::new();
    let mut i: usize = 0;
    while i < transactions.len()
        invariant
            txs == transactions@,
            i <= txs.len(),
            records@.map_values(|x: LaunchRecord| x@) == block_log_records(
                txs.subrange(0, i as int),
                program@,
                block,
                time,
            ),
            malformed@.map_values(|k: usize| k as int) == malformed_txs(
                txs.subrange(0, i as int),
                program@,
                block,
                time,
            ),
        decreases txs.len() - i,
    {
        assert(txs.subrange(0, i + 1).drop_last() =~= txs.subrange(0, i as int));
        assert(txs.subrange(0, i + 1).last() == txs[i as int]);
        let ghost before = records@.map_values(|x: LaunchRecord| x@);
        let ghost mbefore = malformed@.map_values(|k: usize| k as int);
        match extract_transaction_logs(&transactions[i], program, block, time) {
            Ok(mut found) => {
                let ghost add = found@.map_values(|x: LaunchRecord| x@);
                records.append(&mut found);
                assert(records@.map_values(|x: LaunchRecord| x@) =~= before + add);
                assert(mbefore + Seq::<int>::empty() =~= mbefore);
            },
            Err(_) => {
                malformed.push(i);
                assert(malformed@.map_values(|k: usize| k as int) =~= mbefore + seq![i as int]);
                assert(before + Seq::<RecordModel>::empty() =~= before);
            },
        }
        i = i + 1;
    }
    assert(txs.subrange(0, i as int) =~= txs);
    LogScan { records, malformed }
}

/// Scans a queued block: records carry the block's height and timestamp,
/// each 0 where the block lacks it; a block without transactions yields
/// nothing.
pub fn process_block(b: &QueuedBlock, program: &str) -> (r: LogScan)
    ensures
        match b.transactions {
            Some(txs) => {
                &&& r.records@.map_values(|x: LaunchRecord| x@) == block_log_records(
                    txs@,
                    program@,
                    b.block_height.unwrap_or(0),
                    b.block_time.unwrap_or(0),
                )
                &&& r.malformed@.map_values(|i: usize| i as int) == malformed_txs(
                    txs@,
                    program@,
                    b.block_height.unwrap_or(0),
                    b.block_time.unwrap_or(0),
                )
            },
            None => r.records@.len() == 0 && r.malformed@.len() == 0,
        },
{
    match &b.transactions {
        Some(txs) => {
            let height = match b.block_height {
                Some(h) => h,
                None => 0,
            };
            let time = match b.block_time {
                Some(t) => t,
                None => 0,
            };
            parse_transfer_logs(txs, program, height, time)
        },
        None => LogScan { records: Vec::new(), malformed: Vec::new() },
    }
}


proof fn lemma_positions_push(lines: Seq<Seq<char>>, x: Seq<char>, m: Seq<char>)
    ensures
        positions(lines.push(x), m) == positions(lines, m) + if x == m {
            seq![lines.len() as int]
        } else {
            Seq::empty()
        },
{
    assert(lines.push(x).drop_last() =~= lines);
}

proof fn lemma_line_events_push(lines: Seq<Seq<char>>, a: int, b: int)
    requires
        a <= b,
    ensures
        line_events(lines, a, b + 1) == line_events(lines, a, b) + opt_seq(mint_event(lines[b])),
{
}

proof fn lemma_markers_differ(program: Seq<char>)
    ensures
        invoke_marker(program) != success_marker(program),
{
    reveal_strlit("Program ");
    reveal_strlit(" invoke [1]");
    reveal_strlit(" success");
    assert(invoke_marker(program).len() != success_marker(program).len());
}

/// A transaction whose logs hold invoke markers of the program, but not as
/// many success markers, is refused as a whole: no record comes from it.
pub proof fn lemma_unpaired_markers_refused(
    lines: Seq<Seq<char>>,
    program: Seq<char>,
    tx_hash: Seq<char>,
    block: u64,
    time: i64,
)
    requires
        positions(lines, invoke_marker(program)).len() > 0,
        positions(lines, invoke_marker(program)).len() != positions(
            lines,
            success_marker(program),
        ).len(),
    ensures
        log_records(lines, program, tx_hash, block, time) == Err::<Seq<RecordModel>, LogError>(
            LogError::UnpairedMarkers,
        ),
{
}

/// With `k` invoke and `k` success markers of the program, exactly the `k`
/// regions between the `i`-th invoke and the `i`-th success marker are
/// scanned, each marker line being one of the program's markers.
pub proof fn lemma_paired_regions(
    lines: Seq<Seq<char>>,
    program: Seq<char>,
    tx_hash: Seq<char>,
    block: u64,
    time: i64,
)
    requires
        positions(lines, invoke_marker(program)).len() == positions(
            lines,
            success_marker(program),
        ).len(),
    ensures
        ({
            let starts = positions(lines, invoke_marker(program));
            let ends = positions(lines, success_marker(program));
            &&& log_records(lines, program, tx_hash, block, time) == Ok::<
                Seq<RecordModel>,
                LogError,
            >(to_records(region_events(lines, starts, ends, starts.len() as int), tx_hash, block, time))
            &&& forall|i: int|
                0 <= i < starts.len() ==> lines[#[trigger] starts[i]] == invoke_marker(program)
                    && lines[ends[i]] == success_marker(program)
        }),
{
    let starts = positions(lines, invoke_marker(program));
    let ends = positions(lines, success_marker(program));
    lemma_positions(lines, invoke_marker(program));
    lemma_positions(lines, success_marker(program));
    if starts.len() == 0 {
        assert(to_records(region_events(lines, starts, ends, 0), tx_hash, block, time) =~= Seq::<
            RecordModel,
        >::empty());
    }
}

proof fn lemma_trim_plain(s: Seq<char>)
    requires
        forall|i: int| 0 <= i < s.len() ==> !is_space(#[trigger] s[i]),
    ensures
        trim(s) == s,
        trim(seq![' '] + s) == s,
{
    assert((seq![' '] + s).drop_first() =~= s);
    if s.len() > 0 {
        assert(!is_space(s[0]));
        assert(!is_space(s[s.len() - 1]));
    }
}

proof fn lemma_first_at(s: Seq<char>, c: char, k: int)
    requires
        0 <= k < s.len(),
        s[k] == c,
        forall|j: int| 0 <= j < k ==> s[j] != c,
    ensures
        index_of(s, c) == k,
{
    lemma_index_of(s, c);
}

proof fn lemma_absent(s: Seq<char>, c: char)
    requires
        forall|j: int| 0 <= j < s.len() ==> s[j] != c,
    ensures
        index_of(s, c) == s.len(),
{
    lemma_index_of(s, c);
}

/// A mint line written as `Program log: Mint user = <addr>,amount = <n>` is
/// read back as `addr` and the number `n`, exactly.
pub proof fn lemma_mint_line_round_trip(addr: Seq<char>, digits: Seq<char>)
    requires
        forall|i: int|
            0 <= i < addr.len() ==> #[trigger] addr[i] != ',' && addr[i] != '=' && !is_space(
                addr[i],
            ),
        is_digits(digits),
        digits_value(digits) <= u64::MAX,
    ensures
        mint_event(mint_tag() + addr + ",amount = "@ + digits) == Some(
            (addr, digits_value(digits) as u64),
        ),
{
    let tag = mint_tag();
    let mid = ",amount = "@;
    reveal_strlit("Program log: Mint user = ");
    reveal_strlit(",amount = ");
    assert(tag.len() == 25);
    assert(mid.len() == 10);
    let line = tag + addr + mid + digits;
    // the tag opens the line
    assert(line.subrange(0, 25) =~= tag);
    assert(occurs_at(line, tag, 0));
    // the first comma ends the address
    assert forall|j: int| 0 <= j < tag.len() implies tag[j] != ',' by {}
    let ta = tag + addr;
    assert forall|j: int| 0 <= j < ta.len() implies ta[j] != ',' by {
        if j >= 25 {
            assert(ta[j] == addr[j - 25]);
        }
    }
    let rest = mid + digits;
    assert(line =~= ta + rest);
    lemma_index_of_concat_absent(ta, rest, ',');
    assert(rest[0] == ',');
    lemma_first_at(rest, ',', 0);
    let c1 = ta.len() as int;
    assert(index_of(line, ',') == c1);
    assert(before_char(line, ',') =~= ta);
    // the address field
    assert(tag[23] == '=');
    assert forall|j: int| 0 <= j < 23 implies tag[j] != '=' by {}
    lemma_first_at(tag, '=', 23);
    lemma_index_of_concat_present(tag, addr, '=');
    let after_eq = seq![' '] + addr;
    assert(ta.subrange(24, ta.len() as int) =~= after_eq);
    assert forall|j: int| 0 <= j < after_eq.len() implies after_eq[j] != '=' by {
        if j > 0 {
            assert(after_eq[j] == addr[j - 1]);
        }
    }
    lemma_absent(after_eq, '=');
    assert(after_char(ta, '=') =~= after_eq);
    assert(before_char(after_eq, '=') =~= after_eq);
    lemma_trim_plain(addr);
    assert(second_piece(ta, '=') == Some(after_eq));
    // the amount field
    let am = "amount = "@;
    reveal_strlit("amount = ");
    let f1 = am + digits;
    assert(after_char(line, ',') =~= f1);
    assert forall|j: int| 0 <= j < f1.len() implies f1[j] != ',' by {
        if j >= 9 {
            assert(f1[j] == digits[j - 9]);
            assert(is_digit(digits[j - 9]));
        }
    }
    lemma_absent(f1, ',');
    assert(before_char(f1, ',') =~= f1);
    assert(f1[7] == '=');
    assert forall|j: int| 0 <= j < 7 implies f1[j] != '=' by {}
    lemma_first_at(f1, '=', 7);
    let after_eq2 = seq![' '] + digits;
    assert(f1.subrange(8, f1.len() as int) =~= after_eq2);
    assert forall|j: int| 0 <= j < after_eq2.len() implies after_eq2[j] != '=' && (j > 0 ==> !is_space(after_eq2[j])) by {
        if j > 0 {
            assert(after_eq2[j] == digits[j - 1]);
            assert(is_digit(digits[j - 1]));
        }
    }
    lemma_absent(after_eq2, '=');
    assert(after_char(f1, '=') =~= after_eq2);
    assert(before_char(after_eq2, '=') =~= after_eq2);
    assert forall|i: int| 0 <= i < digits.len() implies !is_space(#[trigger] digits[i]) by {
        assert(is_digit(digits[i]));
    }
    lemma_trim_plain(digits);
    assert(second_piece(f1, '=') == Some(after_eq2));
    assert(mint_fields(line) == Some((addr, digits)));
}

/// Two mint lines inside one invoke/success region of the program give two
/// records of the same transaction, with log indices 0 and 1, in line order.
pub proof fn lemma_two_mints_one_region(
    program: Seq<char>,
    l1: Seq<char>,
    l2: Seq<char>,
    tx_hash: Seq<char>,
    block: u64,
    time: i64,
)
    requires
        mint_event(l1) is Some,
        mint_event(l2) is Some,
        l1 != invoke_marker(program) && l1 != success_marker(program),
        l2 != invoke_marker(program) && l2 != success_marker(program),
    ensures
        log_records(
            seq![invoke_marker(program), l1, l2, success_marker(program)],
            program,
            tx_hash,
            block,
            time,
        ) == Ok::<Seq<RecordModel>, LogError>(
            seq![
                RecordModel {
                    address: mint_event(l1).unwrap().0,
                    amount: mint_event(l1).unwrap().1,
                    block,
                    tx_hash,
                    log_index: 0,
                    time,
                },
                RecordModel {
                    address: mint_event(l2).unwrap().0,
                    amount: mint_event(l2).unwrap().1,
                    block,
                    tx_hash,
                    log_index: 1,
                    time,
                },
            ],
        ),
{
    let inv = invoke_marker(program);
    let suc = success_marker(program);
    lemma_markers_differ(program);
    let s0 = Seq::<Seq<char>>::empty();
    let s1 = s0.push(inv);
    let s2 = s1.push(l1);
    let s3 = s2.push(l2);
    let s4 = s3.push(suc);
    assert(s4 =~= seq![inv, l1, l2, suc]);
    lemma_positions_push(s0, inv, inv);
    lemma_positions_push(s1, l1, inv);
    lemma_positions_push(s2, l2, inv);
    lemma_positions_push(s3, suc, inv);
    lemma_positions_push(s0, inv, suc);
    lemma_positions_push(s1, l1, suc);
    lemma_positions_push(s2, l2, suc);
    lemma_positions_push(s3, suc, suc);
    let starts = positions(s4, inv);
    let ends = positions(s4, suc);
    assert(starts =~= seq![0int]);
    assert(ends =~= seq![3int]);
    lemma_line_events_push(s4, 1, 1);
    lemma_line_events_push(s4, 1, 2);
    let e1 = mint_event(l1)->0;
    let e2 = mint_event(l2)->0;
    assert(line_events(s4, 1, 3) =~= seq![e1, e2]);
    assert(starts[0] == 0 && ends[0] == 3);
    assert(region_events(s4, starts, ends, 1) == region_events(s4, starts, ends, 0) + line_events(
        s4,
        1,
        3,
    ));
    assert(region_events(s4, starts, ends, 1) =~= seq![e1, e2]);
    assert(to_records(seq![e1, e2], tx_hash, block, time) =~= seq![
        RecordModel { address: e1.0, amount: e1.1, block, tx_hash, log_index: 0, time },
        RecordModel { address: e2.0, amount: e2.1, block, tx_hash, log_index: 1, time },
    ]);
}


/// The log lines `[invoke, Program log: Mint user = <addr>,amount = <n>,
/// success]` of the program give exactly one record: address `addr`, raw
/// amount `n` (display value `n / 10^8`), log index 0.
pub proof fn lemma_mint_region_round_trip(
    program: Seq<char>,
    addr: Seq<char>,
    digits: Seq<char>,
    tx_hash: Seq<char>,
    block: u64,
    time: i64,
)
    requires
        forall|i: int|
            0 <= i < addr.len() ==> #[trigger] addr[i] != ',' && addr[i] != '=' && !is_space(
                addr[i],
            ),
        is_digits(digits),
        digits_value(digits) <= u64::MAX,
    ensures
        log_records(
            seq![
                invoke_marker(program),
                mint_tag() + addr + ",amount = "@ + digits,
                success_marker(program),
            ],
            program,
            tx_hash,
            block,
            time,
        ) == Ok::<Seq<RecordModel>, LogError>(
            seq![
                RecordModel {
                    address: addr,
                    amount: digits_value(digits) as u64,
                    block,
                    tx_hash,
                    log_index: 0,
                    time,
                },
            ],
        ),
{
    let inv = invoke_marker(program);
    let suc = success_marker(program);
    let l = mint_tag() + addr + ",amount = "@ + digits;
    lemma_mint_line_round_trip(addr, digits);
    lemma_markers_differ(program);
    reveal_strlit(" invoke [1]");
    reveal_strlit(" success");
    assert(is_digit(digits[digits.len() - 1]));
    assert(l.last() == digits.last());
    assert(inv.last() == ']');
    assert(suc.last() == 's');
    let s0 = Seq::<Seq<char>>::empty();
    let s1 = s0.push(inv);
    let s2 = s1.push(l);
    let s3 = s2.push(suc);
    assert(s3 =~= seq![inv, l, suc]);
    lemma_positions_push(s0, inv, inv);
    lemma_positions_push(s1, l, inv);
    lemma_positions_push(s2, suc, inv);
    lemma_positions_push(s0, inv, suc);
    lemma_positions_push(s1, l, suc);
    lemma_positions_push(s2, suc, suc);
    let starts = positions(s3, inv);
    let ends = positions(s3, suc);
    assert(starts =~= seq![0int]);
    assert(ends =~= seq![2int]);
    lemma_line_events_push(s3, 1, 1);
    let e = (addr, digits_value(digits) as u64);
    assert(line_events(s3, 1, 2) =~= seq![e]);
    assert(region_events(s3, starts, ends, 1) == region_events(s3, starts, ends, 0) + line_events(
        s3,
        1,
        2,
    ));
    assert(region_events(s3, starts, ends, 1) =~= seq![e]);
    assert(to_records(seq![e], tx_hash, block, time) =~= seq![
        RecordModel { address: e.0, amount: e.1, block, tx_hash, log_index: 0, time },
    ]);
}

} // verus!
