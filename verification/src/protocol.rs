//! The requests and responses of the ConfidentialTransform session protocol.

use crate::message;
use crate::proto::attestation;
use crate::proto::attestation::Any;
use vstd::prelude::*;

verus! {

/// How a blob is compressed.
#[derive(Debug, Clone, Copy, PartialEq, Eq, Structural)]
pub enum CompressionType {
    Unspecified,
    /// Not at all.
    Uncompressed,
    Gzip,
}

impl CompressionType {
    /// The number on the wire.
    pub open spec fn spec_number(self) -> i32 {
        match self {
            CompressionType::Unspecified => 0,
            CompressionType::Uncompressed => 1,
            CompressionType::Gzip => 2,
        }
    }

    /// The number on the wire.
    #[verifier::when_used_as_spec(spec_number)]
    pub fn number(self) -> (n: i32)
        ensures
            n == self.spec_number(),
    {
        match self {
            CompressionType::Unspecified => 0,
            CompressionType::Uncompressed => 1,
            CompressionType::Gzip => 2,
        }
    }
}

/// A blob in plaintext.
#[derive(Debug, Clone)]
pub struct Unencrypted {
    pub blob_id: Vec<u8>,
}

/// What the wrapping of a blob's symmetric key is bound to.
#[derive(Debug, Clone)]
pub enum SymmetricKeyAssociatedDataComponents {
    /// The serialized blob header, as the key management service releases keys
    /// by it.
    KmsSymmetricKeyAssociatedData(KmsAssociatedData),
    /// A component that is no longer in use.
    LedgerSymmetricKeyAssociatedData,
}

/// The serialized blob header.
#[derive(Debug, Clone)]
pub struct KmsAssociatedData {
    pub record_header: Vec<u8>,
}

/// A blob under two layers of encryption: its payload under a symmetric key, and
/// that key sealed to a public key.
#[derive(Debug, Clone)]
pub struct HpkePlusAeadMetadata {
    pub ciphertext_associated_data: Vec<u8>,
    pub encrypted_symmetric_key: Vec<u8>,
    pub encapsulated_public_key: Vec<u8>,
    pub blob_id: Vec<u8>,
    pub symmetric_key_associated_data_components: Option<SymmetricKeyAssociatedDataComponents>,
}

/// The mathematical counterpart of [`HpkePlusAeadMetadata`], as far as
/// decryption reads it. `header` is `Some(None)` where the component is no longer
/// in use.
pub struct HpkePlusAeadView {
    pub ciphertext_associated_data: Seq<u8>,
    pub encrypted_symmetric_key: Seq<u8>,
    pub encapsulated_public_key: Seq<u8>,
    pub header: Option<Option<Seq<u8>>>,
}

impl View for HpkePlusAeadMetadata {
    type V = HpkePlusAeadView;

    open spec fn view(&self) -> HpkePlusAeadView {
        HpkePlusAeadView {
            ciphertext_associated_data: self.ciphertext_associated_data@,
            encrypted_symmetric_key: self.encrypted_symmetric_key@,
            encapsulated_public_key: self.encapsulated_public_key@,
            header: match self.symmetric_key_associated_data_components {
                None => None,
                Some(
                    SymmetricKeyAssociatedDataComponents::KmsSymmetricKeyAssociatedData(kms),
                ) => Some(Some(kms.record_header@)),
                Some(
                    SymmetricKeyAssociatedDataComponents::LedgerSymmetricKeyAssociatedData,
                ) => Some(None),
            },
        }
    }
}

/// How a blob is encrypted.
#[derive(Debug, Clone)]
pub enum EncryptionMetadata {
    Unencrypted(Unencrypted),
    HpkePlusAeadData(HpkePlusAeadMetadata),
}

/// What is known of a blob beside its bytes.
#[derive(Debug, Clone)]
pub struct BlobMetadata {
    pub total_size_bytes: i64,
    /// A [`CompressionType`] number.
    pub compression_type: i32,
    pub encryption_metadata: Option<EncryptionMetadata>,
}

/// Configures the session.
#[derive(Debug, Clone)]
pub struct ConfigureRequest {
    pub configuration: Option<Any>,
}

/// Hands the session a blob.
#[derive(Debug, Clone)]
pub struct WriteRequest {
    pub first_request_metadata: Option<BlobMetadata>,
    pub first_request_configuration: Option<Any>,
    pub commit: bool,
    pub data: Vec<u8>,
}

/// Commits what was written.
#[derive(Debug, Clone)]
pub struct CommitRequest {}

/// Ends the session and asks for its results.
#[derive(Debug, Clone)]
pub struct FinalizeRequest {}

/// What a request asks for.
#[derive(Debug, Clone)]
pub enum RequestKind {
    Configure(ConfigureRequest),
    Write(WriteRequest),
    Commit(CommitRequest),
    Finalize(FinalizeRequest),
}

/// A request of a session.
#[derive(Debug, Clone)]
pub struct SessionRequest {
    pub kind: Option<RequestKind>,
}

/// An outcome: code zero is success.
#[derive(Debug, Clone)]
pub struct RpcStatus {
    pub code: i32,
    pub message: String,
}

/// The session was configured.
#[derive(Debug, Clone)]
pub struct ConfigureResponse {}

/// A blob was written.
#[derive(Debug, Clone)]
pub struct WriteFinishedResponse {
    pub committed_size_bytes: i64,
    pub status: Option<RpcStatus>,
}

/// What was written was committed.
#[derive(Debug, Clone)]
pub struct CommitResponse {
    pub status: Option<RpcStatus>,
}

/// A result of the session.
#[derive(Debug, Clone)]
pub struct ReadResponse {
    pub first_response_configuration: Option<Any>,
    pub first_response_metadata: Option<BlobMetadata>,
    pub finish_read: bool,
    pub data: Vec<u8>,
}

/// The session has ended.
#[derive(Debug, Clone)]
pub struct FinalizeResponse {}

/// What a response answers.
#[derive(Debug, Clone)]
pub enum ResponseKind {
    Configure(ConfigureResponse),
    Write(WriteFinishedResponse),
    Commit(CommitResponse),
    Read(ReadResponse),
    Finalize(FinalizeResponse),
}

/// A response of a session.
#[derive(Debug, Clone)]
pub struct SessionResponse {
    pub kind: Option<ResponseKind>,
}

/// The mathematical counterpart of [`RpcStatus`].
pub struct RpcStatusView {
    pub code: i32,
    pub message: Seq<char>,
}

impl View for RpcStatus {
    type V = RpcStatusView;

    open spec fn view(&self) -> RpcStatusView {
        RpcStatusView { code: self.code, message: self.message@ }
    }
}

/// The mathematical counterpart of [`EncryptionMetadata`].
pub enum EncryptionView {
    Unencrypted { blob_id: Seq<u8> },
    HpkePlusAead(HpkePlusAeadView),
}

impl View for EncryptionMetadata {
    type V = EncryptionView;

    open spec fn view(&self) -> EncryptionView {
        match self {
            EncryptionMetadata::Unencrypted(u) => EncryptionView::Unencrypted {
                blob_id: u.blob_id@,
            },
            EncryptionMetadata::HpkePlusAeadData(m) => EncryptionView::HpkePlusAead(m@),
        }
    }
}

/// The mathematical counterpart of [`BlobMetadata`].
pub struct BlobMetadataView {
    pub total_size_bytes: i64,
    pub compression_type: i32,
    pub encryption: Option<EncryptionView>,
}

impl View for BlobMetadata {
    type V = BlobMetadataView;

    open spec fn view(&self) -> BlobMetadataView {
        BlobMetadataView {
            total_size_bytes: self.total_size_bytes,
            compression_type: self.compression_type,
            encryption: message::optional(self.encryption_metadata),
        }
    }
}

/// The mathematical counterpart of [`SessionResponse`].
pub enum ResponseView {
    /// No answer at all.
    Empty,
    Configure,
    Write { committed_size_bytes: i64, status: Option<RpcStatusView> },
    Commit { status: Option<RpcStatusView> },
    Read {
        configuration: Option<attestation::AnyView>,
        metadata: Option<BlobMetadataView>,
        finish_read: bool,
        data: Seq<u8>,
    },
    Finalize,
}

impl View for SessionResponse {
    type V = ResponseView;

    open spec fn view(&self) -> ResponseView {
        match self.kind {
            None => ResponseView::Empty,
            Some(ResponseKind::Configure(_)) => ResponseView::Configure,
            Some(ResponseKind::Write(w)) => ResponseView::Write {
                committed_size_bytes: w.committed_size_bytes,
                status: message::optional(w.status),
            },
            Some(ResponseKind::Commit(c)) => ResponseView::Commit {
                status: message::optional(c.status),
            },
            Some(ResponseKind::Read(r)) => ResponseView::Read {
                configuration: message::optional(r.first_response_configuration),
                metadata: message::optional(r.first_response_metadata),
                finish_read: r.finish_read,
                data: r.data@,
            },
            Some(ResponseKind::Finalize(_)) => ResponseView::Finalize,
        }
    }
}

// ---------------------------------------------------------------------------
// Laws
// ---------------------------------------------------------------------------

/// A response is seen as it is: every field of it is in its view.
pub proof fn law_response_view_is_faithful(response: SessionResponse)
    ensures
        response.kind is None <==> response@ is Empty,
        response.kind matches Some(ResponseKind::Configure(_)) <==> response@ is Configure,
        response.kind matches Some(ResponseKind::Finalize(_)) <==> response@ is Finalize,
        response.kind matches Some(ResponseKind::Write(w)) ==> (response@
            matches ResponseView::Write { committed_size_bytes, status } && committed_size_bytes
            == w.committed_size_bytes && (status is Some <==> w.status is Some) && (w.status
            matches Some(s) ==> status->0.code == s.code && status->0.message == s.message@)),
        response.kind matches Some(ResponseKind::Commit(c)) ==> (response@
            matches ResponseView::Commit { status } && (status is Some <==> c.status is Some) && (
        c.status matches Some(s) ==> status->0.code == s.code && status->0.message == s.message@)),
        response.kind matches Some(ResponseKind::Read(r)) ==> (response@
            matches ResponseView::Read { configuration, metadata, finish_read, data } && finish_read
            == r.finish_read && data == r.data@ && (configuration is Some
            <==> r.first_response_configuration is Some) && (metadata is Some
            <==> r.first_response_metadata is Some) && (r.first_response_metadata matches Some(m)
            ==> metadata->0.total_size_bytes == m.total_size_bytes && metadata->0.compression_type
            == m.compression_type && metadata->0.encryption == message::optional(
            m.encryption_metadata,
        ))),
{
}

/// The metadata of a sealed blob is seen as far as decryption reads it: each of the
/// three byte strings as itself, and the record header where it is given in the form
/// that is in use.
pub proof fn law_sealed_metadata_view_is_faithful(metadata: HpkePlusAeadMetadata)
    ensures
        metadata@.ciphertext_associated_data == metadata.ciphertext_associated_data@,
        metadata@.encrypted_symmetric_key == metadata.encrypted_symmetric_key@,
        metadata@.encapsulated_public_key == metadata.encapsulated_public_key@,
        match metadata.symmetric_key_associated_data_components {
            None => metadata@.header is None,
            Some(SymmetricKeyAssociatedDataComponents::KmsSymmetricKeyAssociatedData(kms)) => {
                metadata@.header == Some(Some(kms.record_header@))
            },
            Some(SymmetricKeyAssociatedDataComponents::LedgerSymmetricKeyAssociatedData) => {
                metadata@.header == Some(None::<Seq<u8>>)
            },
        },
{
}

/// The numbers that compression types have on the wire.
pub proof fn law_compression_numbers()
    ensures
        CompressionType::Unspecified.number() == 0,
        CompressionType::Uncompressed.number() == 1,
        CompressionType::Gzip.number() == 2,
{
}

} // verus!
