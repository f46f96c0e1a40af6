use vstd::prelude::*;

verus! {

/// Summary of the node's best chain: network name, current height and the
/// hash of the best block.
#[derive(Debug, Clone, PartialEq)]
pub struct ResponseBlockchainInfo {
    pub chain: String,
    pub blocks: u32,
    pub bestblockhash: String,
}

/// One transaction of a block as the node reports it.
#[derive(Debug, Clone, PartialEq)]
pub struct ResponseBlockTransaction {
    pub hash: String,
    pub size: u32,
}

/// A full block as the node reports it, with its transaction list.
#[derive(Debug, Clone, PartialEq)]
pub struct ResponseBlock {
    pub hash: String,
    pub height: u32,
    pub previousblockhash: Option<String>,
    pub size: u32,
    pub transactions: Vec<ResponseBlockTransaction>,
}

/// One mempool entry as the node reports it: the virtual size.
#[derive(Debug, Clone, PartialEq)]
pub struct ResponseRawMempoolTransaction {
    pub size: u32,
}

/// The error object of an RPC response.
#[derive(Debug, Clone, PartialEq)]
pub struct ResponseError {
    pub code: i32,
    pub message: String,
}

/// An RPC response envelope: the echoed request id, and either an error or
/// a result.
#[derive(Debug, Clone, PartialEq)]
pub struct Response<T> {
    pub id: u64,
    pub error: Option<ResponseError>,
    pub result: Option<T>,
}

/// Everything that can go wrong talking to the node. Transport and parse
/// failures carry the reporting layer's message as plain text.
#[derive(Debug, Clone, PartialEq)]
pub enum BitcoindError {
    InvalidUrl(String),
    InvalidUrlScheme(String),
    Reqwest(String),
    ResponseParse(String),
    NonceMismatch,
    ResultRest(u16, String),
    ResultRPC(ResponseError),
    ResultNotFound,
    ResultMismatch,
    ClientMismatch,
}

/// The RPC error code a node answers with while it is still warming up.
pub const RPC_WARMUP_CODE: i32 = -28;

/// The RPC error code for a block height out of range.
pub const RPC_HEIGHT_OUT_OF_RANGE_CODE: i32 = -8;

/// Check an RPC response envelope against the request id that was sent:
/// a wrong id is a nonce mismatch, a present error object is the call's
/// failure, a missing result means the requested object was not found, and
/// otherwise the result is handed out.
pub fn check_response<T>(resp: Response<T>, req_id: u64) -> (r: Result<T, BitcoindError>)
    ensures
        (match r {
            Ok(v) => {
                &&& resp.id == req_id
                &&& resp.error is None
                &&& (resp.result matches Some(w) && w == v)
            },
            Err(BitcoindError::NonceMismatch) => resp.id != req_id,
            Err(BitcoindError::ResultRPC(e)) => {
                &&& resp.id == req_id
                &&& (resp.error matches Some(e0) && e0 == e)
            },
            Err(BitcoindError::ResultNotFound) => {
                &&& resp.id == req_id
                &&& resp.error is None
                &&& resp.result is None
            },
            _ => false,
        }),
{
    if resp.id != req_id {
        return Err(BitcoindError::NonceMismatch);
    }
    if let Some(error) = resp.error {
        return Err(BitcoindError::ResultRPC(error));
    }
    match resp.result {
        None => Err(BitcoindError::ResultNotFound),
        Some(result) => Ok(result),
    }
}

/// Interpret the outcome of the `getblockhash` call: a "height out of
/// range" RPC error means the block simply does not exist yet, every other
/// error is passed through.
pub fn classify_blockhash_result(r: Result<String, BitcoindError>) -> (res: Result<
    Option<String>,
    BitcoindError,
>)
    ensures
        (match res {
            Ok(Some(h)) => (r matches Ok(h0) && h0 == h),
            Ok(None) => (r matches Err(BitcoindError::ResultRPC(e)) && e.code
                == RPC_HEIGHT_OUT_OF_RANGE_CODE),
            Err(e) => {
                &&& (r matches Err(e0) && e0 == e)
                &&& !(e matches BitcoindError::ResultRPC(e2) && e2.code
                    == RPC_HEIGHT_OUT_OF_RANGE_CODE)
            },
        }),
{
    match r {
        Ok(hash) => Ok(Some(hash)),
        Err(BitcoindError::ResultRPC(error)) => {
            if error.code == RPC_HEIGHT_OUT_OF_RANGE_CODE {
                Ok(None)
            } else {
                Err(BitcoindError::ResultRPC(error))
            }
        },
        Err(error) => Err(error),
    }
}

/// Whether an error is the transient "client warming up" RPC answer, the
/// one condition worth waiting out while validating the node.
pub fn warming_up(err: &BitcoindError) -> (b: bool)
    ensures
        b == (err matches BitcoindError::ResultRPC(e) && e.code == RPC_WARMUP_CODE),
{
    match err {
        BitcoindError::ResultRPC(e) => e.code == RPC_WARMUP_CODE,
        _ => false,
    }
}

/// Whether a height lookup should be retried: only a momentary mismatch
/// between the hash the node named and the block it then served, which a
/// reorg in progress explains and which stabilizes on retry.
pub fn retry_height_lookup(err: &BitcoindError) -> (b: bool)
    ensures
        b == (err is ResultMismatch),
{
    match err {
        BitcoindError::ResultMismatch => true,
        _ => false,
    }
}

/// Compare the chain info two transports reported: the engine refuses to
/// run against what might be two different nodes.
pub fn check_same_node(rpc: &ResponseBlockchainInfo, rest: &ResponseBlockchainInfo) -> (r: Result<
    (),
    BitcoindError,
>)
    ensures
        (match r {
            Ok(_) => {
                &&& rpc.chain@ == rest.chain@
                &&& rpc.blocks == rest.blocks
                &&& rpc.bestblockhash@ == rest.bestblockhash@
            },
            Err(BitcoindError::ClientMismatch) => !(rpc.chain@ == rest.chain@ && rpc.blocks
                == rest.blocks && rpc.bestblockhash@ == rest.bestblockhash@),
            _ => false,
        }),
{
    if rpc.chain == rest.chain && rpc.blocks == rest.blocks && rpc.bestblockhash
        == rest.bestblockhash {
        Ok(())
    } else {
        Err(BitcoindError::ClientMismatch)
    }
}

/// Re-validate a block fetched by height: the node must serve the height
/// that was asked for; anything else is a mismatch the caller may retry.
pub fn check_block_height(block: ResponseBlock, height: u32) -> (r: Result<
    ResponseBlock,
    BitcoindError,
>)
    ensures
        (match r {
            Ok(b) => b == block && block.height == height,
            Err(BitcoindError::ResultMismatch) => block.height != height,
            _ => false,
        }),
{
    if block.height != height {
        Err(BitcoindError::ResultMismatch)
    } else {
        Ok(block)
    }
}

/// Re-validate a block fetched by hash: the node must serve the hash that
/// was asked for.
pub fn check_block_hash(block: ResponseBlock, hash: &String) -> (r: Result<
    ResponseBlock,
    BitcoindError,
>)
    ensures
        (match r {
            Ok(b) => b == block && block.hash@ == hash@,
            Err(BitcoindError::ResultMismatch) => block.hash@ != hash@,
            _ => false,
        }),
{
    if block.hash == *hash {
        Ok(block)
    } else {
        Err(BitcoindError::ResultMismatch)
    }
}

} // verus!
