//! What the runtime does with a message before it runs an instruction: it
//! lists each instruction's UTXOs as instruction UTXOs, and it finds the
//! program to run under a key derived from the program id.
use vstd::prelude::*;
use crate::runtime::context::{IndexOfUtxo, InstructionUtxo};
use crate::runtime::errors::TransactionError;
use crate::types::{Instruction, Pubkey};

verus! {

/// The compute units an invocation starts with.
pub const MAX_COMPUTE_VALUE: u64 = 15000000000;

/// The lowercase hexadecimal SHA-256 digest of `data`, as the `sha256` crate
/// writes it.
pub uninterp spec fn sha256_hex(data: Seq<u8>) -> Seq<char>;

/// `sha256::digest` on a byte slice: the SHA-256 digest of the bytes, written
/// as lowercase hexadecimal (`hex::encode`). Only that the result is this
/// function of the input is stated; its value is not.
#[verifier::external_body]
fn sha256_digest(data: &[u8]) -> (res: String)
    ensures
        res@ == sha256_hex(data@),
{
    sha256::digest(data)
}

/// The key under which the runtime keeps the program with this id: the
/// digest of the hexadecimal digest of the id.
pub fn program_key(program_id: &[u8]) -> (res: String)
    ensures
        res@ == sha256_hex(vstd::utf8::encode_utf8(sha256_hex(program_id@))),
{
    let first = sha256_digest(program_id);
    sha256_digest(first.as_str().as_bytes())
}

/// A message: its signers and its instructions, run in order.
pub struct Message {
    pub signers: Vec<Pubkey>,
    pub instructions: Vec<Instruction>,
}

/// The first position in `from..to` that holds `v`, or `to`.
pub open spec fn earliest(utxos: Seq<u16>, v: u16, from: int, to: int) -> int
    decreases to - from,
{
    if from >= to {
        to
    } else if utxos[from] == v {
        from
    } else {
        earliest(utxos, v, from + 1, to)
    }
}

/// The instruction UTXOs of an instruction that the transaction runs
/// directly: each index of the instruction names the UTXO in the transaction
/// and in the caller; in the callee, a repeated index points to its first
/// occurrence.
pub open spec fn message_instruction_utxos(utxos: Seq<u16>) -> Seq<InstructionUtxo> {
    Seq::new(
        utxos.len(),
        |i: int|
            InstructionUtxo {
                index_in_transaction: utxos[i] as usize,
                index_in_caller: utxos[i] as usize,
                index_in_callee: earliest(utxos, utxos[i], 0, i) as usize,
            },
    )
}

/// Runs the instructions of a message. What is verified here is how each
/// instruction's UTXOs are listed; running a program is the host's part.
pub struct MessageProcessor {}

impl MessageProcessor {
    /// The instruction UTXOs of one instruction of a message.
    pub fn instruction_utxos(instruction: &Instruction) -> (res: Result<Vec<InstructionUtxo>, TransactionError>)
        ensures
            res matches Ok(v) && v@ == message_instruction_utxos(instruction.utxos@),
    {
        let utxos = &instruction.utxos;
        let mut out: Vec<InstructionUtxo> = Vec::new();
        let mut i: usize = 0;
        while i < utxos.len()
            invariant
                i <= utxos@.len(),
                out@ == message_instruction_utxos(utxos@).subrange(0, i as int),
            decreases utxos@.len() - i,
        {
            let index_in_transaction = utxos[i];
            let mut k: usize = 0;
            while k < i
                invariant
                    k <= i < utxos@.len(),
                    earliest(utxos@, index_in_transaction, 0, i as int) == earliest(
                        utxos@,
                        index_in_transaction,
                        k as int,
                        i as int,
                    ),
                ensures
                    k <= i,
                    earliest(utxos@, index_in_transaction, 0, i as int) == k,
                decreases i - k,
            {
                if utxos[k] == index_in_transaction {
                    break;
                }
                k = k + 1;
            }
            let item = InstructionUtxo {
                index_in_transaction: index_in_transaction as IndexOfUtxo,
                index_in_caller: index_in_transaction as IndexOfUtxo,
                index_in_callee: k,
            };
            proof {
                assert(earliest(utxos@, index_in_transaction, 0, i as int) == k);
            }
            out.push(item);
            proof {
                assert(out@ =~= message_instruction_utxos(utxos@).subrange(0, i + 1));
            }
            i = i + 1;
        }
        assert(message_instruction_utxos(utxos@).subrange(0, utxos@.len() as int) =~= message_instruction_utxos(
            utxos@,
        ));
        Ok(out)
    }
}

/// Collects the log messages of a transaction, up to a limit of bytes.
pub struct LogCollector {
    pub messages: Vec<String>,
    pub bytes_written: usize,
    pub bytes_limit: Option<usize>,
    pub limit_warning: bool,
}

/// The bytes of log messages that a transaction may write.
pub const LOG_MESSAGES_BYTES_LIMIT: usize = 10000;

impl Default for LogCollector {
    fn default() -> (res: Self)
        ensures
            res.messages@.len() == 0,
            res.bytes_written == 0,
            res.bytes_limit == Some(LOG_MESSAGES_BYTES_LIMIT),
            !res.limit_warning,
    {
        LogCollector {
            messages: Vec::new(),
            bytes_written: 0,
            bytes_limit: Some(LOG_MESSAGES_BYTES_LIMIT),
            limit_warning: false,
        }
    }
}

} // verus!
