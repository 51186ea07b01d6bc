//! Instruction-based event extraction: a transaction that invokes the launch
//! program with a well-formed mint payload yields one record for each system
//! transfer to the receiver among its inner instructions.
use vstd::prelude::*;
use base58::FromBase58;
use crate::chain::{
    BlockTransaction, CompiledInstruction, DecodedTransaction, InnerInstruction, InnerInstructions,
    QueuedBlock,
};
use crate::record::{LaunchRecord, Mint, RecordModel};
use vstd::string::StringExecFns;

verus! {

/// Variant index of `Transfer { lamports }` among the system program's
/// instructions.
pub const SYSTEM_TRANSFER_TAG: u32 = 2;

/// Longest base58 text that the decoder takes.
pub const MAX_BASE58_LEN: usize = 132;

/// The system program's account key.
pub open spec fn system_program_id() -> Seq<char> {
    "11111111111111111111111111111111"@
}

/// The number that bytes `b` write, least significant byte first.
pub open spec fn le_value(b: Seq<u8>) -> nat
    decreases b.len(),
{
    if b.len() == 0 {
        0
    } else {
        b[0] as nat + 256 * le_value(b.drop_first())
    }
}

/// The mint payload: a little-endian `u64` amount and a one-byte bump,
/// nine bytes in all.
pub open spec fn mint_payload(data: Seq<u8>) -> Option<Mint> {
    if data.len() == 9 {
        Some(Mint { amount: le_value(data.subrange(0, 8)) as u64, bump: data[8] })
    } else {
        None
    }
}

/// A little-endian `u32` followed by a little-endian `u64`; bytes after the
/// twelfth are ignored.
pub open spec fn tag_and_amount(data: Seq<u8>) -> Option<(u32, u64)> {
    if data.len() >= 12 {
        Some((le_value(data.subrange(0, 4)) as u32, le_value(data.subrange(4, 12)) as u64))
    } else {
        None
    }
}

/// The bytes that base58 text decodes to, if it is valid base58.
pub uninterp spec fn base58_decoded(s: Seq<char>) -> Option<Seq<u8>>;

/// Relies on `borsh::from_slice` for `(u64, u8)`: each integer is read
/// little-endian, and the call fails unless exactly nine bytes are given.
#[verifier::external_body]
fn decode_mint(data: &Vec<u8>) -> (r: Option<(u64, u8)>)
    ensures
        match mint_payload(data@) {
            Some(m) => r == Some((m.amount, m.bump)),
            None => r is None,
        },
{
    borsh::from_slice::<(u64, u8)>(data.as_slice()).ok()
}

/// Relies on `bincode::deserialize` for `(u32, u64)`: fixed-width
/// little-endian integers, trailing bytes allowed, failure on fewer than
/// twelve bytes.
#[verifier::external_body]
fn decode_tag_and_amount(data: &Vec<u8>) -> (r: Option<(u32, u64)>)
    ensures
        r == tag_and_amount(data@),
{
    bincode::deserialize::<(u32, u64)>(data.as_slice()).ok()
}

/// Relies on `FromBase58::from_base58` of the `base58` crate: the decoded
/// bytes, or an error on invalid text. Longer text may make it panic.
#[verifier::external_body]
fn decode_base58(s: &str) -> (r: Option<Vec<u8>>)
    requires
        s@.len() <= MAX_BASE58_LEN,
    ensures
        match r {
            Some(b) => base58_decoded(s@) == Some(b@),
            None => base58_decoded(s@) is None,
        },
{
    s.from_base58().ok()
}

/// Reads a launch-program instruction payload.
pub fn parse_mint(data: &Vec<u8>) -> (r: Option<Mint>)
    ensures
        r == mint_payload(data@),
{
    match decode_mint(data) {
        Some((amount, bump)) => Some(Mint { amount, bump }),
        None => None,
    }
}

/// Reads a system instruction payload; `Some(lamports)` only for a transfer.
pub fn parse_system_transfer(data: &Vec<u8>) -> (r: Option<u64>)
    ensures
        r is Some <==> (tag_and_amount(data@) is Some && tag_and_amount(data@).unwrap().0
            == SYSTEM_TRANSFER_TAG),
        r is Some ==> r->0 == tag_and_amount(data@).unwrap().1,
{
    match decode_tag_and_amount(data) {
        Some((tag, lamports)) => if tag == SYSTEM_TRANSFER_TAG {
            Some(lamports)
        } else {
            None
        },
        None => None,
    }
}


/// The account key at `idx`, if there is one.
pub open spec fn key_at(keys: Seq<String>, idx: int) -> Option<Seq<char>> {
    if 0 <= idx < keys.len() {
        Some(keys[idx]@)
    } else {
        None
    }
}

/// An instruction that invokes `program` with a well-formed mint payload.
pub open spec fn is_launch_instruction(
    keys: Seq<String>,
    ins: CompiledInstruction,
    program: Seq<char>,
) -> bool {
    key_at(keys, ins.program_id_index as int) == Some(program) && mint_payload(ins.data@) is Some
}

/// Some top-level instruction of `d` is a launch instruction.
pub open spec fn invokes_launch(d: DecodedTransaction, program: Seq<char>) -> bool {
    exists|i: int|
        0 <= i < d.instructions@.len() && is_launch_instruction(
            d.account_keys@,
            #[trigger] d.instructions@[i],
            program,
        )
}

/// The sender and lamports of an inner instruction that is a system
/// transfer to `receiver`. Instructions whose account indices fall outside
/// the keys, or whose data is not valid base58, are not transfers.
pub open spec fn transfer_event(
    keys: Seq<String>,
    ii: InnerInstruction,
    receiver: Seq<char>,
) -> Option<(Seq<char>, u64)> {
    match ii {
        InnerInstruction::Compiled { program_id_index, accounts, data } => {
            if accounts@.len() >= 2 && key_at(keys, program_id_index as int) == Some(
                system_program_id(),
            ) && key_at(keys, accounts@[1] as int) == Some(receiver) && key_at(
                keys,
                accounts@[0] as int,
            ) is Some && data@.len() <= MAX_BASE58_LEN {
                match base58_decoded(data@) {
                    Some(bytes) => match tag_and_amount(bytes) {
                        Some((tag, lamports)) => if tag == SYSTEM_TRANSFER_TAG {
                            Some((keys[accounts@[0] as int]@, lamports))
                        } else {
                            None
                        },
                        None => None,
                    },
                    None => None,
                }
            } else {
                None
            }
        },
        InnerInstruction::Parsed => None,
    }
}

/// The transfer events among `ins`, in order.
pub open spec fn instruction_events(
    keys: Seq<String>,
    ins: Seq<InnerInstruction>,
    receiver: Seq<char>,
) -> Seq<(Seq<char>, u64)>
    decreases ins.len(),
{
    if ins.len() == 0 {
        Seq::empty()
    } else {
        instruction_events(keys, ins.drop_last(), receiver) + match transfer_event(
            keys,
            ins.last(),
            receiver,
        ) {
            Some(e) => seq![e],
            None => Seq::empty(),
        }
    }
}

/// The transfer events of all inner instruction sets, set after set.
pub open spec fn inner_events(
    keys: Seq<String>,
    sets: Seq<InnerInstructions>,
    receiver: Seq<char>,
) -> Seq<(Seq<char>, u64)>
    decreases sets.len(),
{
    if sets.len() == 0 {
        Seq::empty()
    } else {
        inner_events(keys, sets.drop_last(), receiver) + instruction_events(
            keys,
            sets.last().instructions@,
            receiver,
        )
    }
}

/// One record per transfer event, all with log index 0.
pub open spec fn transfer_records(
    events: Seq<(Seq<char>, u64)>,
    tx_hash: Seq<char>,
    block: u64,
    time: i64,
) -> Seq<RecordModel> {
    events.map_values(
        |e: (Seq<char>, u64)|
            RecordModel { address: e.0, amount: e.1, block, tx_hash, log_index: 0, time },
    )
}

/// The records that the instructions of one block transaction yield. A
/// transaction that could not be decoded, has no metadata, failed, has no
/// signature or invokes no launch instruction yields nothing.
pub open spec fn tx_transfer_records(
    tx: BlockTransaction,
    program: Seq<char>,
    receiver: Seq<char>,
    block: u64,
    time: i64,
) -> Seq<RecordModel> {
    match (tx.transaction, tx.meta) {
        (Some(d), Some(m)) => if !m.failed && d.signatures@.len() > 0 && invokes_launch(
            d,
            program,
        ) {
            match m.inner_instructions {
                Some(sets) => transfer_records(
                    inner_events(d.account_keys@, sets@, receiver),
                    d.signatures@[0]@,
                    block,
                    time,
                ),
                None => Seq::empty(),
            }
        } else {
            Seq::empty()
        },
        _ => Seq::empty(),
    }
}

/// The records of all transactions of `txs`, transaction after transaction.
pub open spec fn block_transfer_records(
    txs: Seq<BlockTransaction>,
    program: Seq<char>,
    receiver: Seq<char>,
    block: u64,
    time: i64,
) -> Seq<RecordModel>
    decreases txs.len(),
{
    if txs.len() == 0 {
        Seq::empty()
    } else {
        block_transfer_records(txs.drop_last(), program, receiver, block, time)
            + tx_transfer_records(txs.last(), program, receiver, block, time)
    }
}

fn key_matches(keys: &Vec<String>, idx: u8, want: &String) -> (r: bool)
    ensures
        r == (key_at(keys@, idx as int) == Some(want@)),
{
    let i = idx as usize;
    i < keys.len() && keys[i] == *want
}

/// Whether some top-level instruction invokes `program` with a well-formed
/// mint payload.
pub fn invokes_launch_program(d: &DecodedTransaction, program: &str) -> (r: bool)
    ensures
        r == invokes_launch(*d, program@),
{
    let p = String::from_str(program);
    let mut i: usize = 0;
    while i < d.instructions.len()
        invariant
            i <= d.instructions@.len(),
            p@ == program@,
            forall|k: int|
                0 <= k < i ==> !is_launch_instruction(
                    d.account_keys@,
                    #[trigger] d.instructions@[k],
                    program@,
                ),
        decreases d.instructions@.len() - i,
    {
        let ins = &d.instructions[i];
        if key_matches(&d.account_keys, ins.program_id_index, &p) && parse_mint(&ins.data).is_some() {
            assert(is_launch_instruction(d.account_keys@, d.instructions@[i as int], program@));
            return true;
        }
        i = i + 1;
    }
    false
}

/// The sender and lamports of an inner instruction that is a system transfer
/// to `receiver`.
pub fn parse_transfer_instruction(keys: &Vec<String>, ii: &InnerInstruction, receiver: &String) -> (r:
    Option<(String, u64)>)
    ensures
        match r {
            Some((from, lamports)) => transfer_event(keys@, *ii, receiver@) == Some(
                (from@, lamports),
            ),
            None => transfer_event(keys@, *ii, receiver@) is None,
        },
{
    match ii {
        InnerInstruction::Compiled { program_id_index, accounts, data } => {
            if accounts.len() < 2 {
                return None;
            }
            let system = String::from_str("11111111111111111111111111111111");
            if !key_matches(keys, *program_id_index, &system) {
                return None;
            }
            if !key_matches(keys, accounts[1], receiver) {
                return None;
            }
            let from = accounts[0] as usize;
            if from >= keys.len() {
                return None;
            }
            if data.unicode_len() > MAX_BASE58_LEN {
                return None;
            }
            match decode_base58(data.as_str()) {
                Some(bytes) => match parse_system_transfer(&bytes) {
                    Some(lamports) => Some((keys[from].clone(), lamports)),
                    None => None,
                },
                None => None,
            }
        },
        InnerInstruction::Parsed => None,
    }
}

/// Extracts the records of one block transaction from its instructions.
pub fn extract_transfer_records(
    tx: &BlockTransaction,
    program: &str,
    receiver: &str,
    block: u64,
    time: i64,
) -> (r: Vec<LaunchRecord>)
    ensures
        r@.map_values(|x: LaunchRecord| x@) == tx_transfer_records(
            *tx,
            program@,
            receiver@,
            block,
            time,
        ),
{
    let mut out: Vec<LaunchRecord> = Vec::new();
    assert(out@.map_values(|x: LaunchRecord| x@) =~= Seq::<RecordModel>::empty());
    let (d, m) = match (&tx.transaction, &tx.meta) {
        (Some(d), Some(m)) => (d, m),
        _ => {
            return out;
        },
    };
    if m.failed || d.signatures.len() == 0 || !invokes_launch_program(d, program) {
        return out;
    }
    let sets = match &m.inner_instructions {
        Some(sets) => sets,
        None => {
            return out;
        },
    };
    let recv = String::from_str(receiver);
    let tx_hash = &d.signatures[0];
    let keys = &d.account_keys;
    let mut s: usize = 0;
    while s < sets.len()
        invariant
            s <= sets@.len(),
            recv@ == receiver@,
            out@.map_values(|x: LaunchRecord| x@) == transfer_records(
                inner_events(keys@, sets@.subrange(0, s as int), receiver@),
                tx_hash@,
                block,
                time,
            ),
        decreases sets@.len() - s,
    {
        let ins = &sets[s].instructions;
        let ghost done = inner_events(keys@, sets@.subrange(0, s as int), receiver@);
        assert(sets@.subrange(0, s + 1).drop_last() =~= sets@.subrange(0, s as int));
        let mut j: usize = 0;
        while j < ins.len()
            invariant
                j <= ins@.len(),
                recv@ == receiver@,
                out@.map_values(|x: LaunchRecord| x@) == transfer_records(
                    done + instruction_events(keys@, ins@.subrange(0, j as int), receiver@),
                    tx_hash@,
                    block,
                    time,
                ),
            decreases ins@.len() - j,
        {
            let ghost evs = done + instruction_events(keys@, ins@.subrange(0, j as int), receiver@);
            assert(ins@.subrange(0, j + 1).drop_last() =~= ins@.subrange(0, j as int));
            match parse_transfer_instruction(keys, &ins[j], &recv) {
                Some((from, lamports)) => {
                    let ghost before = out@.map_values(|x: LaunchRecord| x@);
                    assert(before.len() == evs.len());
                    let rec = LaunchRecord::new(from, lamports, block, tx_hash.clone(), 0, time);
                    out.push(rec);
                    assert(evs + seq![(from@, lamports)] =~= done + instruction_events(
                        keys@,
                        ins@.subrange(0, j + 1),
                        receiver@,
                    ));
                    let ghost ev2 = evs + seq![(from@, lamports)];
                    let ghost want = transfer_records(ev2, tx_hash@, block, time);
                    let ghost got = out@.map_values(|x: LaunchRecord| x@);
                    assert(got.len() == want.len());
                    assert forall|k: int| 0 <= k < got.len() implies got[k] == want[k] by {
                        if k < before.len() {
                            assert(got[k] == before[k]);
                            assert(ev2[k] == evs[k]);
                        } else {
                            assert(got[k] == rec@);
                            assert(ev2[k] == (from@, lamports));
                        }
                    }
                    assert(out@.map_values(|x: LaunchRecord| x@) =~= transfer_records(
                        evs + seq![(from@, lamports)],
                        tx_hash@,
                        block,
                        time,
                    ));
                },
                None => {
                    assert(evs =~= done + instruction_events(
                        keys@,
                        ins@.subrange(0, j + 1),
                        receiver@,
                    ));
                },
            }
            j = j + 1;
        }
        assert(ins@.subrange(0, j as int) =~= ins@);
        assert(done + instruction_events(keys@, ins@, receiver@) == inner_events(
            keys@,
            sets@.subrange(0, s + 1),
            receiver@,
        ));
        s = s + 1;
    }
    assert(sets@.subrange(0, s as int) =~= sets@);
    out
}

/// Extracts the records of a fetched block from its instructions; records
/// carry the block's slot and timestamp (0 where it lacks one).
pub fn extract_block_transfers(b: &QueuedBlock, program: &str, receiver: &str) -> (r: Vec<
    LaunchRecord,
>)
    ensures
        r@.map_values(|x: LaunchRecord| x@) == match b.transactions {
            Some(txs) => block_transfer_records(
                txs@,
                program@,
                receiver@,
                b.slot,
                b.block_time.unwrap_or(0),
            ),
            None => Seq::empty(),
        },
{
    let mut out: Vec<LaunchRecord> = Vec::new();
    assert(out@.map_values(|x: LaunchRecord| x@) =~= Seq::<RecordModel>::empty());
    let txs = match &b.transactions {
        Some(txs) => txs,
        None => {
            return out;
        },
    };
    let time = match b.block_time {
        Some(t) => t,
        None => 0,
    };
    let mut i: usize = 0;
    while i < txs.len()
        invariant
            i <= txs@.len(),
            time == b.block_time.unwrap_or(0),
            out@.map_values(|x: LaunchRecord| x@) == block_transfer_records(
                txs@.subrange(0, i as int),
                program@,
                receiver@,
                b.slot,
                time,
            ),
        decreases txs@.len() - i,
    {
        assert(txs@.subrange(0, i + 1).drop_last() =~= txs@.subrange(0, i as int));
        let ghost before = out@.map_values(|x: LaunchRecord| x@);
        let mut found = extract_transfer_records(&txs[i], program, receiver, b.slot, time);
        let ghost add = found@.map_values(|x: LaunchRecord| x@);
        out.append(&mut found);
        assert(out@.map_values(|x: LaunchRecord| x@) =~= before + add);
        i = i + 1;
    }
    assert(txs@.subrange(0, i as int) =~= txs@);
    out
}

} // verus!
