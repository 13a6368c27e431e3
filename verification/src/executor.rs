//! The cryptographic envelope of a pipeline stage: how a node opens the
//! hidden state it receives and seals the one it forwards.

use crate::crypto::{
    compress, compressed_form, decodes_within_limit, decompress, decompressed_form, decrypt_with_aad,
    encrypt_with_aad, opened, sealed_by, within_gcm_limits, zstd_compressed,
    COMPRESSION_LEVEL, DECOMPRESS_LIMIT,
};
use vstd::prelude::*;
use vstd::utf8::encode_utf8;

verus! {

/// The compute unit of a node: it runs the layers assigned to it on the
/// states it receives, under the cluster key.
pub struct Executor {
    pub device_id: String,
    pub cluster_key: [u8; 32],
}

/// Why a stage's state could not be opened or sealed.
#[derive(Debug)]
pub enum StageError {
    /// The received state did not decrypt (with the message of the cipher).
    Decryption(String),
    /// The state could not be encrypted (with the message of the cipher).
    Encryption(String),
    /// zstd refused to compress or decompress the state.
    Codec(std::io::Error),
}

/// The associated data that binds a state to its task: the task id's bytes.
pub open spec fn task_aad(task_id: Seq<char>) -> Seq<u8> {
    encode_utf8(task_id)
}

/// `sealed` is `raw` as a stage forwards it: compressed with zstd, then
/// sealed under `key` and bound to the task.
pub open spec fn stage_sealed(key: Seq<u8>, task_id: Seq<char>, raw: Seq<u8>, sealed: Seq<u8>) -> bool {
    exists|packed: Seq<u8>|
        #![trigger compressed_form(raw, packed)]
        compressed_form(raw, packed) && sealed_by(key, task_aad(task_id), packed, sealed)
}

/// What opening a received state may give: nothing to open for an empty
/// state (the pipeline's entry); the decryption error when the state does not
/// decrypt; otherwise the decompressed state, which a frame made by
/// `compress` of content within the decompression limit always gives, or a
/// codec error for any other payload.
pub open spec fn stage_opened(
    key: Seq<u8>,
    task_id: Seq<char>,
    input: Seq<u8>,
    r: Result<Option<Seq<u8>>, StageErrorView>,
) -> bool {
    if input.len() == 0 {
        r == Ok::<Option<Seq<u8>>, StageErrorView>(None)
    } else {
        match opened(key, input, task_aad(task_id)) {
            Err(m) => r == Err::<Option<Seq<u8>>, StageErrorView>(StageErrorView::Decryption(m)),
            Ok(packed) => match r {
                Ok(Some(state)) => decompressed_form(packed, state),
                Ok(None) => false,
                Err(e) => e == StageErrorView::Codec && !decodes_within_limit(packed),
            },
        }
    }
}

/// The view of a stage error.
pub enum StageErrorView {
    Decryption(Seq<char>),
    Encryption(Seq<char>),
    Codec,
}

/// A stage error seen through its view.
pub open spec fn stage_error_view(e: StageError) -> StageErrorView {
    match e {
        StageError::Decryption(m) => StageErrorView::Decryption(m@),
        StageError::Encryption(m) => StageErrorView::Encryption(m@),
        StageError::Codec(_) => StageErrorView::Codec,
    }
}

/// An opening outcome seen through its view.
pub open spec fn opened_view(r: Result<Option<Vec<u8>>, StageError>) -> Result<Option<Seq<u8>>, StageErrorView> {
    match r {
        Ok(Some(v)) => Ok(Some(v@)),
        Ok(None) => Ok(None),
        Err(e) => Err(stage_error_view(e)),
    }
}

impl Executor {
    /// An executor for this device under the cluster key.
    pub fn new(id: String, key: [u8; 32]) -> (r: Executor)
        ensures
            r.device_id@ == id@,
            r.cluster_key@ == key@,
    {
        Executor { device_id: id, cluster_key: key }
    }

    /// Opens the state a stage receives: an empty state needs nothing (the
    /// entry stage rebuilds it from the tokens); any other is decrypted with
    /// the cluster key, bound to the task id, then decompressed.
    pub fn open_input_state(&self, task_id: &String, input_state: &Vec<u8>) -> (r: Result<
        Option<Vec<u8>>,
        StageError,
    >)
        ensures
            stage_opened(self.cluster_key@, task_id@, input_state@, opened_view(r)),
    {
        if input_state.len() == 0 {
            return Ok(None);
        }
        let aad = task_id.as_str().as_bytes();
        let decrypted = decrypt_with_aad(input_state.as_slice(), &self.cluster_key, aad);
        match decrypted {
            Err(m) => Err(StageError::Decryption(m)),
            Ok(packed) => match decompress(packed.as_slice()) {
                Ok(state) => Ok(Some(state)),
                Err(e) => Err(StageError::Codec(e)),
            },
        }
    }

    /// Seals the state a stage forwards: compressed, then encrypted with the
    /// cluster key and bound to the task id.
    pub fn seal_output_state(&self, task_id: &String, raw: &Vec<u8>) -> (r: Result<Vec<u8>, StageError>)
        ensures
            r is Ok <==> within_gcm_limits(
                zstd_compressed(raw@, COMPRESSION_LEVEL as int),
                task_aad(task_id@),
            ),
            r matches Ok(sealed) ==> stage_sealed(self.cluster_key@, task_id@, raw@, sealed@),
            r matches Err(e) ==> stage_error_view(e) == StageErrorView::Encryption(
                "Encryption failed: aead::Error"@,
            ),
    {
        let packed = match compress(raw.as_slice()) {
            Ok(p) => p,
            Err(e) => {
                return Err(StageError::Codec(e));
            },
        };
        let aad = task_id.as_str().as_bytes();
        match encrypt_with_aad(packed.as_slice(), &self.cluster_key, aad) {
            Ok(sealed) => {
                assert(compressed_form(raw@, packed@));
                Ok(sealed)
            },
            Err(m) => Err(StageError::Encryption(m)),
        }
    }
}

/// A state sealed by one stage opens, at the next stage with the same
/// cluster key and task id, to exactly that state when it is within the
/// decompression limit; a larger one is never refused by decryption, and can
/// only fail to decompress.
pub proof fn lemma_sealed_state_reopens(
    key: Seq<u8>,
    task_id: Seq<char>,
    raw: Seq<u8>,
    sealed: Seq<u8>,
    r: Result<Option<Seq<u8>>, StageErrorView>,
)
    requires
        stage_sealed(key, task_id, raw, sealed),
        stage_opened(key, task_id, sealed, r),
    ensures
        raw.len() <= DECOMPRESS_LIMIT ==> r == Ok::<Option<Seq<u8>>, StageErrorView>(Some(raw)),
        r is Ok ==> r == Ok::<Option<Seq<u8>>, StageErrorView>(Some(raw)),
        r is Err ==> r == Err::<Option<Seq<u8>>, StageErrorView>(StageErrorView::Codec),
{
    let packed = choose|packed: Seq<u8>| compressed_form(raw, packed) && sealed_by(key, task_aad(task_id), packed, sealed);
    assert(opened(key, sealed, task_aad(task_id)) == Ok::<Seq<u8>, Seq<char>>(packed));
}

} // verus!
