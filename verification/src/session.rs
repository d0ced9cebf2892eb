//! What the storage session is opened with.

use base64::Engine;
use vstd::prelude::*;

verus! {

/// `base64::DecodeError`, handed on unread.
#[verifier::external_type_specification]
#[verifier::external_body]
pub struct ExDecodeError(base64::DecodeError);

/// The bytes that `text` stands for in standard base64 with padding; `None` where
/// it is not such an encoding.
pub uninterp spec fn standard_decoding(text: Seq<char>) -> Option<Seq<u8>>;

/// `Engine::decode` of `base64::engine::general_purpose::STANDARD`: the decoded
/// bytes, which depend on the text alone, or the reason why it is no valid encoding.
#[verifier::external_body]
fn decode_standard(text: &String) -> (r: Result<Vec<u8>, base64::DecodeError>)
    ensures
        match r {
            Ok(bytes) => standard_decoding(text@) == Some(bytes@),
            Err(_) => standard_decoding(text@) is None,
        },
{
    base64::engine::general_purpose::STANDARD.decode(text)
}

/// Why no TLS material could be put together.
#[derive(Clone, Copy, Debug, PartialEq, Eq, Structural)]
pub enum SessionError {
    /// The certificate authority's certificate is not configured.
    CaPemMissing,
    /// The client identity is not configured.
    ClientPksMissing,
    /// The password of the client identity is not configured.
    ClientPksPassMissing,
    /// The certificate authority's certificate is not valid base64.
    CaPemDecode,
    /// The client identity is not valid base64.
    ClientPksDecode,
}

/// The certificate authority's certificate in PEM form, and the client identity as a
/// PKCS #12 archive with its password.
pub struct TlsMaterial {
    pub ca_pem: Vec<u8>,
    pub client_pks: Vec<u8>,
    pub client_pks_password: String,
}

#[verifier::ext_equal]
pub struct TlsMaterialModel {
    pub ca_pem: Seq<u8>,
    pub client_pks: Seq<u8>,
    pub client_pks_password: Seq<char>,
}

impl View for TlsMaterial {
    type V = TlsMaterialModel;

    open spec fn view(&self) -> TlsMaterialModel {
        TlsMaterialModel {
            ca_pem: self.ca_pem@,
            client_pks: self.client_pks@,
            client_pks_password: self.client_pks_password@,
        }
    }
}

/// How the session reaches the storage sink.
pub enum Transport {
    Plain,
    Tls(TlsMaterial),
}

pub open spec fn text_view(text: Option<String>) -> Option<Seq<char>> {
    match text {
        Some(t) => Some(t@),
        None => None,
    }
}

pub open spec fn bytes_view(bytes: Option<Vec<u8>>) -> Option<Seq<u8>> {
    match bytes {
        Some(b) => Some(b@),
        None => None,
    }
}

/// The material made of decoded parts; an undecodable certificate is reported
/// before an undecodable identity.
pub open spec fn assembled(
    ca_pem: Option<Seq<u8>>,
    client_pks: Option<Seq<u8>>,
    client_pks_password: Seq<char>,
) -> Result<TlsMaterialModel, SessionError> {
    match ca_pem {
        None => Err(SessionError::CaPemDecode),
        Some(ca) => match client_pks {
            None => Err(SessionError::ClientPksDecode),
            Some(pks) => Ok(
                TlsMaterialModel { ca_pem: ca, client_pks: pks, client_pks_password },
            ),
        },
    }
}

/// The material that the three settings give: each must be present, in the order
/// certificate, identity, password, and the first two must decode.
pub open spec fn material_of(
    ca_pem_b64: Option<Seq<char>>,
    client_pks_b64: Option<Seq<char>>,
    client_pks_password: Option<Seq<char>>,
) -> Result<TlsMaterialModel, SessionError> {
    if ca_pem_b64 is None {
        Err(SessionError::CaPemMissing)
    } else if client_pks_b64 is None {
        Err(SessionError::ClientPksMissing)
    } else if client_pks_password is None {
        Err(SessionError::ClientPksPassMissing)
    } else {
        assembled(
            standard_decoding(ca_pem_b64->Some_0),
            standard_decoding(client_pks_b64->Some_0),
            client_pks_password->Some_0,
        )
    }
}

pub open spec fn material_view(r: Result<TlsMaterial, SessionError>) -> Result<
    TlsMaterialModel,
    SessionError,
> {
    match r {
        Ok(m) => Ok(m@),
        Err(e) => Err(e),
    }
}

/// Puts the material together from the decoded parts, where `None` stands for a
/// part that did not decode.
pub fn assemble(
    ca_pem: Option<Vec<u8>>,
    client_pks: Option<Vec<u8>>,
    client_pks_password: String,
) -> (r: Result<TlsMaterial, SessionError>)
    ensures
        material_view(r) == assembled(
            bytes_view(ca_pem),
            bytes_view(client_pks),
            client_pks_password@,
        ),
{
    match ca_pem {
        None => Err(SessionError::CaPemDecode),
        Some(ca) => match client_pks {
            None => Err(SessionError::ClientPksDecode),
            Some(pks) => Ok(TlsMaterial { ca_pem: ca, client_pks: pks, client_pks_password }),
        },
    }
}

fn decoded(text: &String) -> (r: Option<Vec<u8>>)
    ensures
        bytes_view(r) == standard_decoding(text@),
{
    match decode_standard(text) {
        Ok(bytes) => Some(bytes),
        Err(_) => None,
    }
}

/// Decodes the TLS material from its three settings.
pub fn tls_material(
    ca_pem_b64: Option<String>,
    client_pks_b64: Option<String>,
    client_pks_password: Option<String>,
) -> (r: Result<TlsMaterial, SessionError>)
    ensures
        material_view(r) == material_of(
            text_view(ca_pem_b64),
            text_view(client_pks_b64),
            text_view(client_pks_password),
        ),
{
    let ca = match ca_pem_b64 {
        Some(text) => text,
        None => { return Err(SessionError::CaPemMissing); },
    };
    let pks = match client_pks_b64 {
        Some(text) => text,
        None => { return Err(SessionError::ClientPksMissing); },
    };
    let password = match client_pks_password {
        Some(text) => text,
        None => { return Err(SessionError::ClientPksPassMissing); },
    };
    assemble(decoded(&ca), decoded(&pks), password)
}

/// Chooses the transport: none of the settings is looked at where TLS is
/// switched off.
pub fn transport(
    ssl_disabled: bool,
    ca_pem_b64: Option<String>,
    client_pks_b64: Option<String>,
    client_pks_password: Option<String>,
) -> (r: Result<Transport, SessionError>)
    ensures
        ssl_disabled ==> r matches Ok(Transport::Plain),
        !ssl_disabled ==> match material_of(
            text_view(ca_pem_b64),
            text_view(client_pks_b64),
            text_view(client_pks_password),
        ) {
            Ok(material) => r matches Ok(Transport::Tls(m)) && m@ == material,
            Err(e) => r == Err::<Transport, SessionError>(e),
        },
{
    if ssl_disabled {
        return Ok(Transport::Plain);
    }
    match tls_material(ca_pem_b64, client_pks_b64, client_pks_password) {
        Ok(material) => Ok(Transport::Tls(material)),
        Err(e) => Err(e),
    }
}

} // verus!
